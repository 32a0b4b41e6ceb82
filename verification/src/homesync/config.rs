//! A configuration with one remote and a list of packages, read from the
//! first of a few well-known files that holds one.

use vstd::prelude::*;
use crate::copy::{child, child_path};
use crate::io::{ErrorKind as IoKind, IoError};
use crate::text::{count_among, occurrences, same_text, texts};
use crate::vars::{lookup, Env};

verus! {

/// A value of a YAML document.
#[derive(Debug)]
pub enum Node {
    Real(String),
    Integer(i64),
    Text(String),
    Boolean(bool),
    Array(Vec<Node>),
    Hash(Vec<(Node, Node)>),
    Alias(usize),
    Null,
    BadValue,
}

/// The keys that a configuration is read by.
#[derive(Clone, Copy, Debug, PartialEq, Eq, Structural)]
pub enum Key {
    /// The packages; may be left out.
    Packages,
    /// The remote; has to be there.
    Remote,
    /// The name of the remote; has to be there.
    RemoteName,
    /// The owner of the remote; has to be there.
    RemoteOwner,
}

/// How a key is written.
pub open spec fn key_text(key: Key) -> Seq<char> {
    match key {
        Key::Packages => "packages"@,
        Key::Remote => "remote"@,
        Key::RemoteName => "name"@,
        Key::RemoteOwner => "owner"@,
    }
}

impl Key {
    /// How the key is written.
    pub fn name(&self) -> (text: String)
        ensures
            text@ == key_text(*self),
    {
        match self {
            Key::Packages => "packages".to_owned(),
            Key::Remote => "remote".to_owned(),
            Key::RemoteName => "name".to_owned(),
            Key::RemoteOwner => "owner".to_owned(),
        }
    }

    /// The key as a value of a document.
    pub fn to_yaml(&self) -> (node: Node)
        ensures
            node matches Node::Text(text) && text@ == key_text(*self),
    {
        Node::Text(self.name())
    }
}

/// What is wrong with a file, in the model.
pub enum FlawView {
    InvalidHash,
    MissingKey(Key),
    MultipleDocuments,
    NoDocument,
    ScanError(Seq<char>),
    TooDeep,
}

/// What is wrong with a file.
#[derive(Debug)]
pub enum ErrorKind {
    /// The document is no dictionary.
    InvalidHash,
    /// A key that has to be there is not.
    MissingKey(Key),
    /// The file holds more than one document.
    MultipleDocuments,
    /// The file holds no document.
    NoDocument,
    /// The file could not be read as YAML; the text says why.
    ScanError(String),
    /// The file may nest its values deeper, or repeat them more often, than
    /// is read.
    TooDeep,
}

impl View for ErrorKind {
    type V = FlawView;

    open spec fn view(&self) -> FlawView {
        match self {
            ErrorKind::InvalidHash => FlawView::InvalidHash,
            ErrorKind::MissingKey(key) => FlawView::MissingKey(*key),
            ErrorKind::MultipleDocuments => FlawView::MultipleDocuments,
            ErrorKind::NoDocument => FlawView::NoDocument,
            ErrorKind::ScanError(text) => FlawView::ScanError(text@),
            ErrorKind::TooDeep => FlawView::TooDeep,
        }
    }
}

/// How a flaw reads.
pub open spec fn flaw_text(flaw: FlawView) -> Seq<char> {
    match flaw {
        FlawView::InvalidHash => "expected dictionary"@,
        FlawView::MissingKey(key) => "missing key '"@ + key_text(key) + "'"@,
        FlawView::MultipleDocuments => "has multiple YAML documents"@,
        FlawView::NoDocument => "has no YAML document"@,
        FlawView::ScanError(text) => text,
        FlawView::TooDeep => "may nest or repeat its values too much"@,
    }
}

impl ErrorKind {
    /// The flaw in words.
    pub fn message(&self) -> (text: String)
        ensures
            text@ == flaw_text(self@),
    {
        match self {
            ErrorKind::InvalidHash => "expected dictionary".to_owned(),
            ErrorKind::MissingKey(key) => {
                let mut text = "missing key '".to_owned();
                text.append(key.name().as_str());
                text.append("'");
                text
            },
            ErrorKind::MultipleDocuments => "has multiple YAML documents".to_owned(),
            ErrorKind::NoDocument => "has no YAML document".to_owned(),
            ErrorKind::ScanError(text) => text.clone(),
            ErrorKind::TooDeep => "may nest or repeat its values too much".to_owned(),
        }
    }
}

/// A flaw together with the file that has it.
#[derive(Debug)]
pub struct ErrorWithFile {
    path: String,
    kind: ErrorKind,
}

impl View for ErrorWithFile {
    type V = (Seq<char>, FlawView);

    closed spec fn view(&self) -> (Seq<char>, FlawView) {
        (self.path@, self.kind@)
    }
}

impl ErrorWithFile {
    fn new(path: &str, kind: ErrorKind) -> (e: ErrorWithFile)
        ensures
            e@ == (path@, kind@),
    {
        ErrorWithFile { path: path.to_owned(), kind }
    }

    /// The failure in words.
    pub fn message(&self) -> (text: String)
        ensures
            text@ == "File "@ + self@.0 + " failed with error: "@ + flaw_text(self@.1),
    {
        let mut text = "File ".to_owned();
        text.append(self.path.as_str());
        text.append(" failed with error: ");
        text.append(self.kind.message().as_str());
        text
    }
}

/// Why no configuration could be had, in the model.
pub enum FaultView {
    MissingConfig,
    WithFile(Seq<char>, FlawView),
}

/// Why no configuration could be had.
#[derive(Debug)]
pub enum Error {
    /// No file holds a configuration.
    MissingConfig,
    /// A file was found, and something is wrong with it.
    WithFile(ErrorWithFile),
}

impl View for Error {
    type V = FaultView;

    open spec fn view(&self) -> FaultView {
        match self {
            Error::MissingConfig => FaultView::MissingConfig,
            Error::WithFile(e) => FaultView::WithFile(e@.0, e@.1),
        }
    }
}

/// How the lack of a configuration reads.
pub open spec fn missing_text() -> Seq<char> {
    "Could not find a valid configuration file. Looked in \n\n"@ + "- `$HOME/.homesync.yml` \n"@
        + "- `$HOME/.config/homesync/homesync.yml` \n"@ + "- `$XDG_CONFIG_HOME/homesync.yml` \n"@
        + "- `$XDG_CONFIG_HOME/homesync/homesync.yml` \nin order."@
}

impl Error {
    /// The failure of the file at `path` with the flaw `kind`.
    pub fn new(path: &str, kind: ErrorKind) -> (e: Error)
        ensures
            e@ == FaultView::WithFile(path@, kind@),
    {
        Error::WithFile(ErrorWithFile::new(path, kind))
    }

    /// The failure in words.
    pub fn message(&self) -> (text: String)
        ensures
            match self@ {
                FaultView::MissingConfig => text@ == missing_text(),
                FaultView::WithFile(path, flaw) => text@ == "File "@ + path
                    + " failed with error: "@ + flaw_text(flaw),
            },
    {
        match self {
            Error::MissingConfig => {
                let mut text = "Could not find a valid configuration file. Looked in \n\n".to_owned();
                text.append("- `$HOME/.homesync.yml` \n");
                text.append("- `$HOME/.config/homesync/homesync.yml` \n");
                text.append("- `$XDG_CONFIG_HOME/homesync.yml` \n");
                text.append("- `$XDG_CONFIG_HOME/homesync/homesync.yml` \nin order.");
                text
            },
            Error::WithFile(e) => e.message(),
        }
    }
}

/// The remote: who owns it, and what it is called.
#[derive(Debug)]
pub struct Remote {
    pub owner: String,
    pub name: String,
}

/// A named list of the files that belong together.
#[derive(Debug)]
pub struct Package {
    pub name: String,
    pub configs: Vec<String>,
}

/// Everything that a configuration file says, and the file that says it.
#[derive(Debug)]
pub struct Config {
    pub path: String,
    pub remote: Remote,
    pub packages: Vec<Package>,
}

/// Whether `config` is the configuration that says nothing yet, as read
/// from the file at `path`.
pub open spec fn is_blank(config: Config, path: Seq<char>) -> bool {
    &&& config.path@ == path
    &&& config.remote.owner@.len() == 0
    &&& config.remote.name@.len() == 0
    &&& config.packages@.len() == 0
}

/// Whether one of the pairs stands under the text `key`.
pub open spec fn has_key(pairs: Seq<(Node, Node)>, key: Seq<char>) -> bool {
    exists|i: int| 0 <= i < pairs.len() && is_text(#[trigger] pairs[i].0, key)
}

/// Whether the value is the text `key`.
pub open spec fn is_text(node: Node, key: Seq<char>) -> bool {
    node matches Node::Text(text) && text@ == key
}

/// The value that stands under `key`, if there is one.
fn get<'a>(pairs: &'a Vec<(Node, Node)>, key: Key) -> (found: Option<&'a Node>)
    ensures
        found is Some == has_key(pairs@, key_text(key)),
{
    let name = key.name();
    let mut i: usize = 0;
    while i < pairs.len()
        invariant
            i <= pairs.len(),
            name@ == key_text(key),
            forall|k: int| 0 <= k < i ==> !is_text(#[trigger] pairs@[k].0, key_text(key)),
        decreases pairs.len() - i,
    {
        let same = match &pairs[i].0 {
            Node::Text(text) => same_text(text.as_str(), name.as_str()),
            _ => false,
        };
        if same {
            assert(is_text(pairs@[i as int].0, key_text(key)));
            return Some(&pairs[i].1);
        }
        i = i + 1;
    }
    None
}

/// What the documents of a file come to: the one document where there is
/// exactly one, and a flaw otherwise.
pub open spec fn document_of(loaded: Result<Seq<Node>, Seq<char>>) -> Result<Node, FlawView> {
    match loaded {
        Ok(docs) => if docs.len() > 1 {
            Err(FlawView::MultipleDocuments)
        } else if docs.len() == 0 {
            Err(FlawView::NoDocument)
        } else {
            Ok(docs[0])
        },
        Err(text) => Err(FlawView::ScanError(text)),
    }
}

/// What a loaded text is, in the model.
pub open spec fn loaded_view(loaded: Result<Vec<Node>, String>) -> Result<Seq<Node>, Seq<char>> {
    match loaded {
        Ok(docs) => Ok(docs@),
        Err(text) => Err(text@),
    }
}

/// Picks the document of the file at `path`, where `loaded` is what the
/// text of the file was read as: the file has to hold exactly one document.
pub fn get_document(path: &str, loaded: Result<Vec<Node>, String>) -> (r: Result<Node, Error>)
    ensures
        match document_of(loaded_view(loaded)) {
            Ok(doc) => r == Ok::<Node, Error>(doc),
            Err(flaw) => r matches Err(e) && e@ == FaultView::WithFile(path@, flaw),
        },
{
    match loaded {
        Ok(mut docs) => {
            if docs.len() > 1 {
                Err(Error::new(path, ErrorKind::MultipleDocuments))
            } else if docs.is_empty() {
                Err(Error::new(path, ErrorKind::NoDocument))
            } else {
                Ok(docs.swap_remove(0))
            }
        },
        Err(text) => Err(Error::new(path, ErrorKind::ScanError(text))),
    }
}

#[allow(non_snake_case)]
fn parseRemote(path: &str, value: &Node) -> (r: Result<Remote, Error>)
    ensures
        r matches Ok(remote) && remote.owner@.len() == 0 && remote.name@.len() == 0,
{
    Ok(Remote { owner: String::new(), name: String::new() })
}

#[allow(non_snake_case)]
fn parsePackages(path: &str, value: &Node) -> (r: Result<Vec<Package>, Error>)
    ensures
        r matches Ok(packages) && packages@.len() == 0,
{
    Ok(Vec::new())
}

/// What is wrong with a document, if anything: it has to be a dictionary,
/// and the dictionary has to hold the remote.
pub open spec fn flaw_of(document: Node) -> Option<FlawView> {
    match document {
        Node::Hash(pairs) => if has_key(pairs@, key_text(Key::Remote)) {
            None
        } else {
            Some(FlawView::MissingKey(Key::Remote))
        },
        _ => Some(FlawView::InvalidHash),
    }
}

/// What `yaml_rust::YamlLoader::load_from_str` makes of a text: the
/// documents that the text holds, value for value, or the text of the
/// failure to scan it.
pub uninterp spec fn yaml_documents(contents: Seq<char>) -> Result<Seq<Node>, Seq<char>>;

/// A value of a YAML document as `yaml_rust` holds it. Nothing is known of
/// what is inside; it is only handed from the loader to the conversion.
#[verifier::external_type_specification]
#[verifier::external_body]
pub struct ExYaml(yaml_rust::Yaml);

/// Turns a value of `yaml_rust` into the same value of this library,
/// variant for variant.
#[verifier::external_body]
fn node_of(value: &yaml_rust::Yaml) -> Node {
    match value {
        yaml_rust::Yaml::Real(text) => Node::Real(text.clone()),
        yaml_rust::Yaml::Integer(number) => Node::Integer(*number),
        yaml_rust::Yaml::String(text) => Node::Text(text.clone()),
        yaml_rust::Yaml::Boolean(flag) => Node::Boolean(*flag),
        yaml_rust::Yaml::Array(items) => Node::Array(items.iter().map(node_of).collect()),
        yaml_rust::Yaml::Hash(pairs) => Node::Hash(
            pairs.iter().map(|(key, value)| (node_of(key), node_of(value))).collect(),
        ),
        yaml_rust::Yaml::Alias(index) => Node::Alias(*index),
        yaml_rust::Yaml::Null => Node::Null,
        yaml_rust::Yaml::BadValue => Node::BadValue,
    }
}

/// How many characters of the text can open a collection in YAML: `-`
/// starts an entry of a sequence, `?` and `:` mark a key and its value, and
/// `[` and `{` open a sequence and a mapping in flow style. No value of the
/// text is nested deeper than that: every collection that lies within
/// another has a character of its own that opened it.
pub open spec fn openers(text: Seq<char>) -> nat {
    occurrences(text, "-?:[{"@)
}

/// How many characters of the text can repeat a value that came before. A
/// repeated value is held as often as it is repeated, so every repetition
/// can double what the text takes to hold.
pub open spec fn repeats(text: Seq<char>) -> nat {
    occurrences(text, "*"@)
}

/// The most characters that may open a collection in a text that is read.
/// The loader goes one call deeper for every level of nesting, so a text is
/// read only where its nesting is known to stay far below what the stack of
/// a thread holds.
pub const MAX_OPENERS: usize = 128;

/// The most characters that may repeat a value in a text that is read.
pub const MAX_REPEATS: usize = 8;

/// Whether the text is read: whether it nests its values no deeper, and
/// repeats them no more often, than what is read stays small for.
pub open spec fn is_readable(text: Seq<char>) -> bool {
    openers(text) <= MAX_OPENERS && repeats(text) <= MAX_REPEATS
}

/// Tells whether the text is read.
pub fn check_readable(contents: &str) -> (r: bool)
    ensures
        r == is_readable(contents@),
{
    count_among(contents, "-?:[{") <= MAX_OPENERS && count_among(contents, "*") <= MAX_REPEATS
}

/// Calls `yaml_rust::YamlLoader::load_from_str`, which reads a text as a
/// stream of YAML documents, and hands the documents on as values of this
/// library, or the failure as its text. The result depends on the text
/// alone.
///
/// The loader, the conversion and the letting go of the values all go one
/// call deeper for every collection that lies within another, without a
/// bound of their own on block collections. Every such level is opened by a
/// `-`, `?`, `:`, `[` or `{` of its own, also where a value is repeated by
/// an alias. The loader also copies a value for every alias `*` that
/// repeats it. So the text is taken only where it holds few of either.
#[verifier::external_body]
fn load_from_str(contents: &str) -> (loaded: Result<Vec<Node>, String>)
    requires
        is_readable(contents@),
    ensures
        loaded_view(loaded) == yaml_documents(contents@),
{
    match yaml_rust::YamlLoader::load_from_str(contents) {
        Ok(docs) => Ok(docs.iter().map(node_of).collect()),
        Err(e) => Err(e.to_string()),
    }
}

/// Whether `r` is what reading the file at `path` comes to, where `loaded`
/// is what the text of the file was read as: the flaw of the file or of its
/// document where there is one, and the blank configuration otherwise.
pub open spec fn config_result(
    r: Result<Config, Error>,
    path: Seq<char>,
    loaded: Result<Seq<Node>, Seq<char>>,
) -> bool {
    match document_of(loaded) {
        Err(flaw) => r matches Err(e) && e@ == FaultView::WithFile(path, flaw),
        Ok(document) => match flaw_of(document) {
            Some(flaw) => r matches Err(e) && e@ == FaultView::WithFile(path, flaw),
            None => r matches Ok(config) && is_blank(config, path),
        },
    }
}

/// Whether `r` is what reading the text `contents` of the file at `path`
/// comes to: a text that may nest or repeat its values too much is refused
/// unread, and any other is read for what the loader makes of it.
pub open spec fn read_result(r: Result<Config, Error>, path: Seq<char>, contents: Seq<char>) -> bool {
    if !is_readable(contents) {
        r matches Err(e) && e@ == FaultView::WithFile(path, FlawView::TooDeep)
    } else {
        config_result(r, path, yaml_documents(contents))
    }
}

impl Config {
    /// Reads the configuration that `loaded` holds, where `loaded` is what
    /// the text of the file at `path` was read as. The file has to hold one
    /// document, the document has to be a dictionary, and the dictionary
    /// has to hold the remote. Other keys are passed over.
    pub fn read(path: &str, loaded: Result<Vec<Node>, String>) -> (r: Result<Config, Error>)
        ensures
            config_result(r, path@, loaded_view(loaded)),
    {
        let document = match get_document(path, loaded) {
            Ok(document) => document,
            Err(e) => {
                return Err(e);
            },
        };
        if let Node::Hash(pairs) = &document {
            let remote = match get(pairs, Key::Remote) {
                Some(remote) => remote,
                None => {
                    return Err(Error::new(path, ErrorKind::MissingKey(Key::Remote)));
                },
            };
            let remote = match parseRemote(path, remote) {
                Ok(remote) => remote,
                Err(e) => {
                    return Err(e);
                },
            };
            let null = Node::Null;
            let packages = match get(pairs, Key::Packages) {
                Some(packages) => packages,
                None => &null,
            };
            let packages = match parsePackages(path, packages) {
                Ok(packages) => packages,
                Err(e) => {
                    return Err(e);
                },
            };
            // We intentionally ignore any other keys we may encounter.
            Ok(Config { path: path.to_owned(), remote, packages })
        } else {
            Err(Error::new(path, ErrorKind::InvalidHash))
        }
    }

    /// Reads the configuration from `contents`, the text of the file at
    /// `path`. A text that holds more than `MAX_OPENERS` characters that
    /// can open a collection, or more than `MAX_REPEATS` that can repeat a
    /// value, is refused unread.
    pub fn new(path: &str, contents: &str) -> (r: Result<Config, Error>)
        ensures
            read_result(r, path@, contents@),
    {
        if !check_readable(contents) {
            return Err(Error::new(path, ErrorKind::TooDeep));
        }
        let loaded = load_from_str(contents);
        Config::read(path, loaded)
    }
}

/// The files that may hold the configuration, most wanted first: two below
/// the home directory where that is known, then two below the directory for
/// configurations where that is known.
pub open spec fn config_paths(env: Map<Seq<char>, Option<Seq<char>>>) -> Seq<Seq<char>> {
    let at_home = match lookup(env, "HOME"@) {
        Ok(home) => seq![
            child(home, ".homesync.yml"@),
            child(child(child(home, ".config"@), "homesync"@), "homesync.yml"@),
        ],
        Err(_) => Seq::empty(),
    };
    let at_xdg = match lookup(env, "XDG_CONFIG_HOME"@) {
        Ok(xdg) => seq![
            child(xdg, "homesync.yml"@),
            child(child(xdg, "homesync"@), "homesync.yml"@),
        ],
        Err(_) => Seq::empty(),
    };
    at_home + at_xdg
}

/// The files that may hold the configuration, most wanted first.
pub fn candidate_paths(env: &Env) -> (paths: Vec<String>)
    ensures
        texts(paths@) == config_paths(env@),
{
    let mut paths: Vec<String> = Vec::new();
    if let Ok(home) = env.var("HOME") {
        paths.push(child_path(home.as_str(), ".homesync.yml"));
        let dir = child_path(child_path(home.as_str(), ".config").as_str(), "homesync");
        paths.push(child_path(dir.as_str(), "homesync.yml"));
    }
    if let Ok(xdg) = env.var("XDG_CONFIG_HOME") {
        paths.push(child_path(xdg.as_str(), "homesync.yml"));
        paths.push(child_path(child_path(xdg.as_str(), "homesync").as_str(), "homesync.yml"));
    }
    assert(texts(paths@) == config_paths(env@));
    paths
}

/// What reading a file that may be missing came to: a missing file is no
/// failure, and holds nothing.
pub fn read_optional_config(read: Result<String, IoError>) -> (r: Result<Option<String>, IoError>)
    ensures
        match read {
            Ok(contents) => r == Ok::<Option<String>, IoError>(Some(contents)),
            Err(e) => if e.kind == IoKind::NotFound {
                r == Ok::<Option<String>, IoError>(None)
            } else {
                r == Err::<Option<String>, IoError>(e)
            },
        },
{
    match read {
        Err(err) => match err.kind {
            // Ignore `NotFound` since we want to try multiple paths.
            IoKind::NotFound => Ok(None),
            _ => Err(err),
        },
        Ok(contents) => Ok(Some(contents)),
    }
}

/// How many of the answers, from the first on, hold no text.
pub open spec fn leading_unread(reads: Seq<Result<String, IoError>>) -> int
    decreases reads.len(),
{
    if reads.len() == 0 || reads[0] is Ok {
        0
    } else {
        1 + leading_unread(reads.drop_first())
    }
}

proof fn lemma_leading_unread(reads: Seq<Result<String, IoError>>, i: int)
    requires
        0 <= i <= reads.len(),
        forall|j: int| 0 <= j < i ==> reads[j] is Err,
    ensures
        leading_unread(reads) == i + leading_unread(reads.skip(i)),
    decreases i,
{
    if i == 0 {
        assert(reads.skip(0) == reads);
    } else {
        lemma_leading_unread(reads.drop_first(), i - 1);
        assert(reads.drop_first().skip(i - 1) == reads.skip(i));
    }
}

/// What to do next to find the configuration.
#[derive(Debug)]
pub enum Find {
    /// Read the file at this path, add what came of it to the answers, and
    /// ask again.
    Read(String),
    /// The answer at this position holds the text of the configuration,
    /// which is the file at this path: read it with `Config::new`.
    Parse(usize, String),
    /// No file holds a configuration.
    Missing,
}

/// What to do next to find the configuration, in the model.
pub enum FindView {
    Read(Seq<char>),
    Parse(int, Seq<char>),
    Missing,
}

impl View for Find {
    type V = FindView;

    open spec fn view(&self) -> FindView {
        match self {
            Find::Read(path) => FindView::Read(path@),
            Find::Parse(at, path) => FindView::Parse(*at as int, path@),
            Find::Missing => FindView::Missing,
        }
    }
}

/// The decision on the candidate `paths` of which the first `reads.len()`
/// have been read: the first file that could be read is the configuration;
/// while none could, the next one is to be read, and after the last one
/// there is no configuration. A file that cannot be read, for whatever
/// reason, lets the next one have its turn.
pub open spec fn find_decision(paths: Seq<Seq<char>>, reads: Seq<Result<String, IoError>>) -> FindView {
    let known = if reads.len() <= paths.len() {
        reads
    } else {
        reads.take(paths.len() as int)
    };
    let first = leading_unread(known);
    if first < known.len() {
        FindView::Parse(first, paths[first])
    } else if known.len() < paths.len() {
        FindView::Read(paths[known.len() as int])
    } else {
        FindView::Missing
    }
}

/// Decides how the search for the configuration goes on. `reads` holds
/// what came of reading the files of `candidate_paths(env)`, in their
/// order, as far as they have been read.
pub fn find_config(env: &Env, reads: &Vec<Result<String, IoError>>) -> (next: Find)
    ensures
        next@ == find_decision(config_paths(env@), reads@),
{
    let paths = candidate_paths(env);
    let known: usize = if reads.len() <= paths.len() {
        reads.len()
    } else {
        paths.len()
    };
    let ghost seen = if reads.len() <= paths.len() {
        reads@
    } else {
        reads@.take(paths.len() as int)
    };
    let mut i: usize = 0;
    while i < known
        invariant
            i <= known,
            known == seen.len(),
            known <= reads.len(),
            known <= paths.len(),
            texts(paths@) == config_paths(env@),
            seen == if reads.len() <= paths.len() {
                reads@
            } else {
                reads@.take(paths.len() as int)
            },
            forall|j: int| 0 <= j < known ==> seen[j] == reads@[j],
            forall|j: int| 0 <= j < i ==> seen[j] is Err,
        decreases known - i,
    {
        proof {
            lemma_leading_unread(seen, i as int);
            assert(seen.skip(i as int)[0] == seen[i as int]);
        }
        if reads[i].is_ok() {
            return Find::Parse(i, paths[i].clone());
        }
        i = i + 1;
    }
    proof {
        lemma_leading_unread(seen, i as int);
        assert(seen.skip(i as int).len() == 0);
    }
    if known < paths.len() {
        Find::Read(paths[known].clone())
    } else {
        Find::Missing
    }
}

/// The configuration that says nothing yet.
pub fn generate_config() -> (config: Config)
    ensures
        is_blank(config, Seq::<char>::empty()),
{
    Config {
        path: String::new(),
        remote: Remote { owner: String::new(), name: String::new() },
        packages: Vec::new(),
    }
}

} // verus!
