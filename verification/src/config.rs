//! The configuration as it is held in memory.
//!
//! A configuration names who commits, with which keys, to which repository,
//! and which files belong to which package:
//!
//! ```yaml
//! ---
//! user:
//!   name: name
//!   email: email@email.com
//! ssh:
//!   public: $HOME/.ssh/id_ed25519.pub
//!   private: $HOME/.ssh/id_ed25519
//! repos:
//!   local: $HOME/.homesync
//!   remote:
//!     name: origin
//!     branch: master
//!     url: "https://github.com/owner/repo.git"
//! unmanaged:
//!   - LICENSE
//!   - README.md
//! packages:
//!   homesync:
//!     - $HOME/.homesync.yml
//!     - $HOME/.config/homesync/homesync.yml
//!     - $XDG_CONFIG_HOME/homesync.yml
//!     - $XDG_CONFIG_HOME/homesync/homesync.yml
//! ```

use vstd::prelude::*;
use crate::io::{ErrorKind, IoError};
use crate::path::{answer_view, soft_resolution, soft_resolve, Failure, ResPath, ResPathBuf};
use crate::text::{
    comes_before, copy_texts, lemma_before_is_irreflexive, lemma_before_is_total,
    lemma_before_is_total_or, lemma_before_is_transitive, same_text, str_of, text_before, texts,
};
use crate::vars::{Env, VarError};

verus! {

/// Why no configuration could be had, in the model.
pub enum Fault {
    /// The file system refused.
    Io(ErrorKind, Seq<char>),
    /// None of the candidate files exists.
    Missing,
    /// The file's text is no configuration.
    Serde(Seq<char>),
    /// A variable has no usable value.
    Var(VarError),
}

/// Why no configuration could be had.
#[derive(Debug)]
pub enum Error {
    IOError(IoError),
    MissingConfig,
    SerdeError(String),
    VarError(VarError),
}

impl View for Error {
    type V = Fault;

    open spec fn view(&self) -> Fault {
        match self {
            Error::IOError(e) => Fault::Io(e.kind, e.message@),
            Error::MissingConfig => Fault::Missing,
            Error::SerdeError(text) => Fault::Serde(text@),
            Error::VarError(e) => Fault::Var(*e),
        }
    }
}

/// The fault that a failure of path resolution amounts to.
pub open spec fn fault_of(f: Failure) -> Fault {
    match f {
        Failure::Io(kind, text) => Fault::Io(kind, text),
        Failure::Var(e) => Fault::Var(e),
    }
}

impl Error {
    /// Takes a failure of path resolution over as it is.
    pub fn from_path(err: crate::path::Error) -> (e: Error)
        ensures
            e@ == fault_of(err@),
    {
        match err {
            crate::path::Error::IOError(e) => Error::IOError(e),
            crate::path::Error::VarError(e) => Error::VarError(e),
        }
    }

    /// The failure in words.
    pub fn message(&self) -> (text: String)
        ensures
            text@ == fault_text(self@),
    {
        match self {
            Error::IOError(e) => e.message.clone(),
            Error::MissingConfig => "Could not find configuration file".to_owned(),
            Error::SerdeError(text) => text.clone(),
            Error::VarError(VarError::NotPresent) => "environment variable not found".to_owned(),
            Error::VarError(VarError::NotUnicode) =>
                "environment variable was not valid unicode".to_owned(),
        }
    }
}

/// How a fault reads.
pub open spec fn fault_text(f: Fault) -> Seq<char> {
    match f {
        Fault::Io(_, text) => text,
        Fault::Missing => "Could not find configuration file"@,
        Fault::Serde(text) => text,
        Fault::Var(VarError::NotPresent) => "environment variable not found"@,
        Fault::Var(VarError::NotUnicode) => "environment variable was not valid unicode"@,
    }
}

/// Who commits.
#[derive(Debug)]
pub struct User {
    pub name: String,
    pub email: String,
}

/// The keys that open the remote repository.
#[derive(Debug)]
pub struct SSH {
    pub public: Option<String>,
    pub private: String,
}

/// The remote repository: what it is called here, which branch is kept in
/// step, and where it lives.
#[derive(Debug)]
pub struct Remote {
    pub name: String,
    pub branch: String,
    pub url: String,
}

impl Remote {
    /// The name under which the remote branch is tracked: the remote's name,
    /// a slash, and the branch.
    pub fn tracking_branch(&self) -> (name: String)
        ensures
            name@ == self.name@ + seq!['/'] + self.branch@,
    {
        proof {
            reveal_strlit("/");
        }
        let mut name = self.name.clone();
        name.append("/");
        name.append(self.branch.as_str());
        name
    }
}

/// The local repository and its remote.
#[derive(Debug)]
pub struct Repos {
    pub local: String,
    pub remote: Remote,
}

/// A package in the model: its name and the paths that belong to it.
pub struct PackageView {
    pub name: Seq<char>,
    pub configs: Seq<Seq<char>>,
}

/// A named list of the files that belong together.
#[derive(Debug)]
pub struct Package {
    pub name: String,
    pub configs: Vec<String>,
}

impl View for Package {
    type V = PackageView;

    open spec fn view(&self) -> PackageView {
        PackageView { name: self.name@, configs: texts(self.configs@) }
    }
}

/// The model of a list of packages.
pub open spec fn package_views(v: Seq<Package>) -> Seq<PackageView> {
    v.map_values(|p: Package| p@)
}

/// A copy of a list of packages.
fn copy_packages(v: &Vec<Package>) -> (out: Vec<Package>)
    ensures
        package_views(out@) == package_views(v@),
{
    let mut out: Vec<Package> = Vec::new();
    let mut i: usize = 0;
    while i < v.len()
        invariant
            i <= v.len(),
            package_views(out@) == package_views(v@).take(i as int),
        decreases v.len() - i,
    {
        let ghost before = package_views(out@);
        out.push(Package { name: v[i].name.clone(), configs: copy_texts(&v[i].configs) });
        assert(package_views(out@) == before.push(v@[i as int]@));
        assert(package_views(v@).take(i + 1) == package_views(v@).take(i as int).push(
            v@[i as int]@,
        ));
        i = i + 1;
    }
    assert(package_views(v@).take(i as int) == package_views(v@));
    out
}

/// Whether the names of the packages stand in the order of the alphabet,
/// each name once.
pub open spec fn sorted_names(v: Seq<PackageView>) -> bool {
    forall|i: int, j: int| 0 <= i < j < v.len() ==> text_before(v[i].name, v[j].name)
}

/// Whether no two packages of the list share a name.
pub open spec fn distinct_names(v: Seq<PackageView>) -> bool {
    forall|i: int, j: int| 0 <= i < j < v.len() ==> v[i].name != v[j].name
}

/// Names that stand in the order of the alphabet are all different.
pub proof fn lemma_sorted_names_are_distinct(v: Seq<PackageView>)
    requires
        sorted_names(v),
    ensures
        distinct_names(v),
{
    assert forall|i: int, j: int| 0 <= i < j < v.len() implies v[i].name != v[j].name by {
        assert(text_before(v[i].name, v[j].name));
        lemma_before_is_irreflexive(v[i].name, 0);
    }
}

/// The position of the package called `name`, if there is one.
pub open spec fn position(v: Seq<PackageView>, name: Seq<char>) -> Option<int> {
    if exists|i: int| 0 <= i < v.len() && v[i].name == name {
        Some(choose|i: int| 0 <= i < v.len() && v[i].name == name)
    } else {
        None
    }
}

/// How many of the names, from the first on, come before `name`.
pub open spec fn rank(v: Seq<PackageView>, name: Seq<char>) -> int
    decreases v.len(),
{
    if v.len() == 0 || !text_before(v[0].name, name) {
        0
    } else {
        1 + rank(v.drop_first(), name)
    }
}

proof fn lemma_rank(v: Seq<PackageView>, name: Seq<char>, i: int)
    requires
        0 <= i <= v.len(),
        forall|k: int| 0 <= k < i ==> text_before(v[k].name, name),
    ensures
        rank(v, name) == i + rank(v.skip(i), name),
    decreases i,
{
    if i == 0 {
        assert(v.skip(0) == v);
    } else {
        lemma_rank(v.drop_first(), name, i - 1);
        assert(v.drop_first().skip(i - 1) == v.skip(i));
    }
}

/// The packages with `entry` among them: in the place of the package of
/// the same name where there is one, and otherwise where its name belongs
/// in the alphabet.
pub open spec fn with_package(v: Seq<PackageView>, entry: PackageView) -> Seq<PackageView> {
    let at = rank(v, entry.name);
    if at < v.len() && v[at].name == entry.name {
        v.update(at, entry)
    } else {
        v.take(at).push(entry) + v.skip(at)
    }
}

/// The packages of a configuration, each under a name of its own, in the
/// order of the alphabet.
///
/// The packages are a list whose names stand in ascending order
/// (`sorted_names`), which is what a sorted map gives, stated so that it can
/// be proved: a map of the standard library that is keyed by text gives the
/// verifier nothing to prove from.
#[derive(Debug)]
pub struct Packages {
    entries: Vec<Package>,
}

impl View for Packages {
    type V = Seq<PackageView>;

    closed spec fn view(&self) -> Seq<PackageView> {
        package_views(self.entries@)
    }
}

impl Packages {
    #[verifier::type_invariant]
    spec fn well_formed(self) -> bool {
        sorted_names(package_views(self.entries@))
    }

    /// No packages.
    pub fn new() -> (packages: Packages)
        ensures
            packages@.len() == 0,
    {
        Packages { entries: Vec::new() }
    }

    /// How many packages there are.
    pub fn len(&self) -> (n: usize)
        ensures
            n == self@.len(),
            sorted_names(self@),
            distinct_names(self@),
    {
        proof {
            use_type_invariant(self);
            lemma_sorted_names_are_distinct(self@);
        }
        self.entries.len()
    }

    /// The package at position `i`.
    pub fn at(&self, i: usize) -> (package: &Package)
        requires
            i < self@.len(),
        ensures
            package@ == self@[i as int],
    {
        &self.entries[i]
    }

    /// Where the package called `name` stands.
    pub fn find(&self, name: &str) -> (found: Option<usize>)
        ensures
            match found {
                Some(i) => i < self@.len() && self@[i as int].name == name@ && position(
                    self@,
                    name@,
                ) == Some(i as int),
                None => position(self@, name@) is None && forall|i: int|
                    0 <= i < self@.len() ==> self@[i].name != name@,
            },
    {
        proof {
            use_type_invariant(self);
            lemma_sorted_names_are_distinct(self@);
        }
        let mut i: usize = 0;
        while i < self.entries.len()
            invariant
                i <= self.entries.len(),
                distinct_names(package_views(self.entries@)),
                forall|k: int| 0 <= k < i ==> package_views(self.entries@)[k].name != name@,
            decreases self.entries.len() - i,
        {
            if same_text(self.entries[i].name.as_str(), name) {
                proof {
                    let before = self@;
                    assert(0 <= i < before.len() && before[i as int].name == name@);
                    let k = choose|k: int| 0 <= k < before.len() && before[k].name == name@;
                    if k < i {
                        assert(before[k].name != before[i as int].name);
                    } else if i < k {
                        assert(before[i as int].name != before[k].name);
                    }
                }
                return Some(i);
            }
            i = i + 1;
        }
        None
    }

    /// The files of the package called `name`, if there is such a package.
    pub fn get(&self, name: &str) -> (found: Option<&Vec<String>>)
        ensures
            match position(self@, name@) {
                Some(i) => found matches Some(configs) && 0 <= i < self@.len() && texts(configs@)
                    == self@[i].configs,
                None => found is None,
            },
    {
        match self.find(name) {
            Some(i) => Some(&self.entries[i].configs),
            None => None,
        }
    }

    /// Puts the files `configs` under `name`. They take the place of what
    /// stood under that name before; a new name comes to stand where it
    /// belongs in the alphabet.
    pub fn insert(&mut self, name: &str, configs: Vec<String>)
        ensures
            final(self)@ == with_package(
                old(self)@,
                PackageView { name: name@, configs: texts(configs@) },
            ),
    {
        proof {
            use_type_invariant(&*self);
        }
        let ghost before = self@;
        let ghost added = PackageView { name: name@, configs: texts(configs@) };
        let n = self.entries.len();
        let mut at: usize = 0;
        while at < n && comes_before(self.entries[at].name.as_str(), name)
            invariant
                at <= n,
                n == self.entries.len(),
                before == package_views(self.entries@),
                forall|k: int| 0 <= k < at ==> text_before(before[k].name, name@),
            decreases n - at,
        {
            at = at + 1;
        }
        proof {
            lemma_rank(before, name@, at as int);
            if at < n {
                assert(before.skip(at as int)[0] == before[at as int]);
            }
            assert(rank(before, name@) == at);
        }
        let replace = at < n && !comes_before(name, self.entries[at].name.as_str());
        proof {
            if at < n {
                if replace {
                    lemma_before_is_total(before[at as int].name, name@, 0);
                } else {
                    lemma_before_is_irreflexive(name@, 0);
                }
            }
            assert(replace == (at < n && before[at as int].name == name@));
        }
        let ghost after = with_package(before, added);
        let mut entries: Vec<Package> = Vec::new();
        let mut k: usize = 0;
        while k < at
            invariant
                k <= at <= n,
                n == self.entries.len(),
                before == package_views(self.entries@),
                package_views(entries@) == before.take(k as int),
            decreases at - k,
        {
            let ghost sofar = package_views(entries@);
            let p = &self.entries[k];
            entries.push(Package { name: p.name.clone(), configs: copy_texts(&p.configs) });
            assert(package_views(entries@) == sofar.push(before[k as int]));
            assert(before.take(k + 1) == before.take(k as int).push(before[k as int]));
            k = k + 1;
        }
        let ghost head = package_views(entries@);
        entries.push(Package { name: name.to_owned(), configs });
        assert(package_views(entries@) == head.push(added));
        let from: usize = if replace {
            at + 1
        } else {
            at
        };
        let mut k: usize = from;
        while k < n
            invariant
                from <= k <= n,
                n == self.entries.len(),
                before == package_views(self.entries@),
                package_views(entries@) == before.take(at as int).push(added) + before.subrange(
                    from as int,
                    k as int,
                ),
            decreases n - k,
        {
            let ghost sofar = package_views(entries@);
            let p = &self.entries[k];
            entries.push(Package { name: p.name.clone(), configs: copy_texts(&p.configs) });
            assert(package_views(entries@) == sofar.push(before[k as int]));
            assert(before.subrange(from as int, k + 1) == before.subrange(
                from as int,
                k as int,
            ).push(before[k as int]));
            k = k + 1;
        }
        proof {
            assert(before.subrange(from as int, n as int) == before.skip(from as int));
            if replace {
                assert(before.take(at as int).push(added) + before.skip(at + 1) == before.update(
                    at as int,
                    added,
                ));
            }
            assert(package_views(entries@) == after);
            assert(sorted_names(after)) by {
                assert forall|i: int, j: int| 0 <= i < j < after.len() implies text_before(
                    after[i].name,
                    after[j].name,
                ) by {
                    if replace {
                        assert(after[i].name == before[i].name);
                        assert(after[j].name == before[j].name);
                        assert(text_before(before[i].name, before[j].name));
                    } else {
                        if j < at {
                            assert(after[i] == before[i]);
                            assert(after[j] == before[j]);
                            assert(text_before(before[i].name, before[j].name));
                        } else if j == at {
                            assert(after[i] == before[i]);
                            assert(after[j] == added);
                        } else {
                            assert(after[j] == before[j - 1]);
                            assert(!text_before(before[at as int].name, name@));
                            lemma_before_is_total_or(before[at as int].name, name@);
                            assert(text_before(name@, before[at as int].name));
                            if j - 1 > at {
                                assert(text_before(before[at as int].name, before[j - 1].name));
                                lemma_before_is_transitive(
                                    name@,
                                    before[at as int].name,
                                    before[j - 1].name,
                                    0,
                                );
                            }
                            if i < at {
                                assert(after[i] == before[i]);
                                assert(text_before(before[i].name, name@));
                                lemma_before_is_transitive(
                                    before[i].name,
                                    name@,
                                    before[j - 1].name,
                                    0,
                                );
                            } else if i == at {
                                assert(after[i] == added);
                            } else {
                                assert(after[i] == before[i - 1]);
                                assert(text_before(before[i - 1].name, before[j - 1].name));
                            }
                        }
                    }
                }
            }
        }
        self.entries = entries;
    }
}

/// Everything that a configuration file says.
#[derive(Debug)]
pub struct Config {
    pub user: User,
    pub ssh: SSH,
    pub repos: Repos,
    pub unmanaged: Option<Vec<String>>,
    pub packages: Packages,
}

/// A configuration together with the file that it was read from.
#[derive(Debug)]
pub struct PathConfig {
    pub homesync_yml: ResPathBuf,
    pub config: Config,
}

impl PathConfig {
    /// The configuration `config`, as read from the file at `path`.
    pub fn new(path: &ResPathBuf, config: Config) -> (pc: PathConfig)
        ensures
            pc.homesync_yml@ == path@,
            pc.config == config,
    {
        PathConfig { homesync_yml: path.clone(), config }
    }
}

/// The paths at which a configuration may live, most wanted first.
pub open spec fn default_path_texts() -> Seq<Seq<char>> {
    seq![
        "$HOME/.homesync.yml"@,
        "$HOME/.config/homesync/homesync.yml"@,
        "$XDG_CONFIG_HOME/homesync.yml"@,
        "$XDG_CONFIG_HOME/homesync/homesync.yml"@,
    ]
}

/// The paths at which a configuration may live, most wanted first.
pub fn default_paths() -> (paths: Vec<String>)
    ensures
        texts(paths@) == default_path_texts(),
{
    let mut paths: Vec<String> = Vec::new();
    paths.push("$HOME/.homesync.yml".to_owned());
    paths.push("$HOME/.config/homesync/homesync.yml".to_owned());
    paths.push("$XDG_CONFIG_HOME/homesync.yml".to_owned());
    paths.push("$XDG_CONFIG_HOME/homesync/homesync.yml".to_owned());
    assert(texts(paths@) == default_path_texts());
    paths
}

/// The paths at which the configuration is looked for: the one that was
/// asked for, or else the paths at which a configuration may live.
pub open spec fn wanted_paths(given: Option<Seq<char>>) -> Seq<Seq<char>> {
    match given {
        Some(path) => seq![path],
        None => default_path_texts(),
    }
}

/// The files among the first `n` of `paths` that are there: those whose
/// path resolves. A path without an answer does not resolve.
pub open spec fn present_files(
    paths: Seq<Seq<char>>,
    answers: Seq<Result<String, IoError>>,
    n: int,
    cwd: Seq<char>,
    env: Map<Seq<char>, Option<Seq<char>>>,
) -> Seq<ResPath>
    decreases n,
{
    if n <= 0 {
        Seq::empty()
    } else {
        let rest = present_files(paths, answers, n - 1, cwd, env);
        if n - 1 < answers.len() {
            match soft_resolution(paths[n - 1], cwd, env, answer_view(answers[n - 1])) {
                Ok(Some(p)) => rest.push(p),
                _ => rest,
            }
        } else {
            rest
        }
    }
}

/// How the lack of a place to look for the configuration reads.
pub open spec fn no_candidate_text(given: Option<Seq<char>>) -> Seq<char> {
    match given {
        Some(path) => path + " is not a valid config path."@,
        None =>
            "Could not find a suitable configuration path. Is $XDG_CONFIG_PATH or $HOME defined?"@,
    }
}

/// The model of a list of resolved paths.
pub open spec fn candidate_views(v: Seq<ResPathBuf>) -> Seq<ResPath> {
    v.map_values(|p: ResPathBuf| p@)
}

/// Finds the files in which to look for the configuration: of the path
/// that was asked for, or else of the paths at which a configuration may
/// live, those that stand for a file. It is a failure if none does.
///
/// `answers` holds, for each path in turn, the file system's answer for the
/// canonical form of the expanded path.
pub fn find_candidates(
    given: Option<&str>,
    cwd: &str,
    env: &Env,
    answers: &Vec<Result<String, IoError>>,
) -> (r: Result<Vec<ResPathBuf>, IoError>)
    ensures
        ({
            let paths = wanted_paths(
                str_of(given),
            );
            let found = present_files(paths, answers@, paths.len() as int, cwd@, env@);
            if found.len() > 0 {
                r matches Ok(files) && candidate_views(files@) == found
            } else {
                r matches Err(e) && e@ == (
                    ErrorKind::NotFound,
                    no_candidate_text(
                        str_of(given),
                    ),
                )
            }
        }),
{
    let paths = match given {
        Some(path) => {
            let mut one: Vec<String> = Vec::new();
            one.push(path.to_owned());
            assert(texts(one@) == seq![path@]);
            one
        },
        None => default_paths(),
    };
    let ghost all = texts(paths@);
    let mut resolved: Vec<ResPathBuf> = Vec::new();
    let mut k: usize = 0;
    assert(candidate_views(resolved@) == Seq::<ResPath>::empty());
    while k < paths.len()
        invariant
            k <= paths.len(),
            all == texts(paths@),
            candidate_views(resolved@) == present_files(all, answers@, k as int, cwd@, env@),
        decreases paths.len() - k,
    {
        let ghost before = candidate_views(resolved@);
        if k < answers.len() {
            match soft_resolve(paths[k].as_str(), cwd, env, &answers[k]) {
                Ok(Some(found)) => {
                    resolved.push(found);
                    assert(candidate_views(resolved@) == before.push(found@));
                },
                _ => {},
            }
        }
        k = k + 1;
    }
    if resolved.len() == 0 {
        match given {
            Some(path) => {
                let mut message = path.to_owned();
                message.append(" is not a valid config path.");
                Err(IoError { kind: ErrorKind::NotFound, message })
            },
            None => Err(
                IoError::new(
                    ErrorKind::NotFound,
                    "Could not find a suitable configuration path. Is $XDG_CONFIG_PATH or $HOME defined?",
                ),
            ),
        }
    } else {
        Ok(resolved)
    }
}

/// Whether a file was asked for and found missing.
pub open spec fn is_missing(read: Result<String, IoError>) -> bool {
    read matches Err(e) && e.kind == ErrorKind::NotFound
}

/// How many of the answers, from the first on, say that the file is missing.
pub open spec fn leading_missing(reads: Seq<Result<String, IoError>>) -> int
    decreases reads.len(),
{
    if reads.len() == 0 || !is_missing(reads[0]) {
        0
    } else {
        1 + leading_missing(reads.drop_first())
    }
}

/// What to do next to load a configuration, in the model.
pub enum LoadView {
    Read(int),
    Parse(int),
    Fail(Fault),
}

/// What to do next to load a configuration.
#[derive(Debug)]
pub enum Load {
    /// Read the candidate at this position, add what came of it to the
    /// answers, and ask again.
    Read(usize),
    /// The answer at this position holds the text of the configuration.
    Parse(usize),
    /// There is no configuration to be had.
    Fail(Error),
}

impl View for Load {
    type V = LoadView;

    open spec fn view(&self) -> LoadView {
        match self {
            Load::Read(i) => LoadView::Read(*i as int),
            Load::Parse(i) => LoadView::Parse(*i as int),
            Load::Fail(e) => LoadView::Fail(e@),
        }
    }
}

/// The decision on `candidates` files of which the first `reads.len()` have
/// been read: the first file that is not missing decides, by its text or by
/// its failure; while all are missing the next one is to be read, and after
/// the last one there is no configuration.
pub open spec fn load_decision(candidates: int, reads: Seq<Result<String, IoError>>) -> LoadView {
    let known = if reads.len() <= candidates {
        reads
    } else {
        reads.take(candidates)
    };
    let first = leading_missing(known);
    if first < known.len() {
        match known[first] {
            Ok(_) => LoadView::Parse(first),
            Err(e) => LoadView::Fail(Fault::Io(e.kind, e.message@)),
        }
    } else if known.len() < candidates {
        LoadView::Read(known.len() as int)
    } else {
        LoadView::Fail(Fault::Missing)
    }
}

proof fn lemma_leading_missing(reads: Seq<Result<String, IoError>>, i: int)
    requires
        0 <= i <= reads.len(),
        forall|j: int| 0 <= j < i ==> is_missing(reads[j]),
    ensures
        leading_missing(reads) == i + leading_missing(reads.skip(i)),
    decreases i,
{
    if i == 0 {
        assert(reads.skip(0) == reads);
    } else {
        lemma_leading_missing(reads.drop_first(), i - 1);
        assert(reads.drop_first().skip(i - 1) == reads.skip(i));
    }
}

/// Decides how the loading of a configuration goes on.
///
/// `candidates` are the files that may hold it, most wanted first, and
/// `reads` what came of reading them, in the same order, as far as they have
/// been read. Only a missing file lets the next candidate have its turn.
pub fn load(candidates: &Vec<ResPathBuf>, reads: &Vec<Result<String, IoError>>) -> (next: Load)
    ensures
        next@ == load_decision(candidates.len() as int, reads@),
{
    let known: usize = if reads.len() <= candidates.len() {
        reads.len()
    } else {
        candidates.len()
    };
    let ghost seen = if reads.len() <= candidates.len() {
        reads@
    } else {
        reads@.take(candidates.len() as int)
    };
    let mut i: usize = 0;
    while i < known
        invariant
            i <= known,
            known == seen.len(),
            known <= reads.len(),
            seen == if reads.len() <= candidates.len() {
                reads@
            } else {
                reads@.take(candidates.len() as int)
            },
            forall|j: int| 0 <= j < known ==> seen[j] == reads@[j],
            forall|j: int| 0 <= j < i ==> is_missing(seen[j]),
        decreases known - i,
    {
        proof {
            lemma_leading_missing(seen, i as int);
            assert(seen.skip(i as int)[0] == seen[i as int]);
        }
        match &reads[i] {
            Ok(_) => {
                return Load::Parse(i);
            },
            Err(e) => {
                if e.kind != ErrorKind::NotFound {
                    return Load::Fail(Error::IOError(e.clone()));
                }
            },
        }
        i = i + 1;
    }
    proof {
        lemma_leading_missing(seen, i as int);
        assert(seen.skip(i as int).len() == 0);
    }
    if known < candidates.len() {
        Load::Read(known)
    } else {
        Load::Fail(Error::MissingConfig)
    }
}

/// Decides how the loading of the configuration that `pc` was read from goes
/// on, when that file is to be read anew: it is the only candidate.
pub fn reload(pc: &PathConfig, reads: &Vec<Result<String, IoError>>) -> (next: Load)
    ensures
        next@ == load_decision(1, reads@),
{
    let mut candidates: Vec<ResPathBuf> = Vec::new();
    candidates.push(pc.homesync_yml.clone());
    load(&candidates, reads)
}

/// Ends the loading of a configuration: `parsed` is what the text of the
/// file `candidate` was read as, or why it could not be.
pub fn loaded(candidate: &ResPathBuf, parsed: Result<Config, String>) -> (r: Result<
    PathConfig,
    Error,
>)
    ensures
        match parsed {
            Ok(config) => r matches Ok(pc) && pc.homesync_yml@ == candidate@ && pc.config == config,
            Err(text) => r matches Err(e) && e@ == Fault::Serde(text@),
        },
{
    match parsed {
        Ok(config) => Ok(PathConfig::new(candidate, config)),
        Err(text) => Err(Error::SerdeError(text)),
    }
}

/// What `paris::formatter::colorize_string` makes of a text: the text with
/// each key in angle brackets replaced by the terminal code that it names.
pub uninterp spec fn colorized(text: Seq<char>) -> Seq<char>;

/// Calls `paris::formatter::colorize_string`, which looks for keys in angle
/// brackets and replaces each by its terminal code. The result depends on
/// the text alone.
#[verifier::external_body]
fn colorize(text: &str) -> (out: String)
    ensures
        out@ == colorized(text@),
{
    paris::formatter::colorize_string(text)
}

/// The first line of a listing of the packages of the file at `path`.
pub open spec fn listing_head(path: Seq<char>) -> Seq<char> {
    "Listing packages in "@ + colorized("<cyan>"@ + path + "</>"@) + "...\n"@
}

/// The line that lists the package called `name`.
pub open spec fn listing_line(name: Seq<char>) -> Seq<char> {
    "\u{2022} "@ + name
}

/// The lines that list the packages of `pc`: a heading that names the file
/// the configuration was read from, then one line for each package, in the
/// order of the alphabet.
pub fn list_packages(pc: &PathConfig) -> (lines: Vec<String>)
    ensures
        sorted_names(pc.config.packages@),
        lines@.len() == 1 + pc.config.packages@.len(),
        lines@[0]@ == listing_head(pc.homesync_yml@.unresolved),
        forall|i: int|
            0 <= i < pc.config.packages@.len() ==> (#[trigger] lines@[i + 1])@ == listing_line(
                pc.config.packages@[i].name,
            ),
{
    let mut tagged = "<cyan>".to_owned();
    tagged.append(pc.homesync_yml.unresolved().as_str());
    tagged.append("</>");
    let mut head = "Listing packages in ".to_owned();
    head.append(colorize(tagged.as_str()).as_str());
    head.append("...\n");
    let mut lines: Vec<String> = Vec::new();
    lines.push(head);
    let n = pc.config.packages.len();
    let mut i: usize = 0;
    while i < n
        invariant
            i <= n,
            n == pc.config.packages@.len(),
            lines@.len() == 1 + i,
            lines@[0]@ == listing_head(pc.homesync_yml@.unresolved),
            forall|k: int|
                0 <= k < i ==> (#[trigger] lines@[k + 1])@ == listing_line(
                    pc.config.packages@[k].name,
                ),
        decreases n - i,
    {
        let mut line = "\u{2022} ".to_owned();
        line.append(pc.config.packages.at(i).name.as_str());
        lines.push(line);
        i = i + 1;
    }
    lines
}

} // verus!
