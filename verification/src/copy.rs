//! Keeping the working tree of the local repository and the files on the
//! machine in step: which files to remove, which to copy, and where to.
//!
//! Nothing here touches a file. Each function takes what was found on disk
//! and answers with the operations to carry out, in order.

use vstd::prelude::*;
use crate::config::{position, PackageView, PathConfig};
use crate::io::{ErrorKind, IoError};
use crate::path::{
    components, expand_components, expand_path, join, parent, parts, pop, push_path, push_value,
    render, resolution, resolve, same_path, split, answer_view, Component, Failure, Part, ResPath,
    ResPathBuf,
};
use crate::text::{same_text, str_of, text_of, texts};
use crate::vars::{Env, VarError};

verus! {

/// Why the files could not be brought in step, in the model.
pub enum Obstacle {
    /// The file system refused, with this kind and this text.
    Io(ErrorKind, Seq<char>),
    /// A variable that a path names has no usable value.
    Var(VarError),
    /// The repository has no working tree.
    BareRepo,
}

/// Why the files could not be brought in step.
#[derive(Debug)]
pub enum Error {
    IOError(IoError),
    /// The work needs a working tree, and the repository has none.
    InvalidBareRepo,
    VarError(VarError),
}

impl View for Error {
    type V = Obstacle;

    open spec fn view(&self) -> Obstacle {
        match self {
            Error::IOError(e) => Obstacle::Io(e.kind, e.message@),
            Error::InvalidBareRepo => Obstacle::BareRepo,
            Error::VarError(e) => Obstacle::Var(*e),
        }
    }
}

/// The obstacle that a failure of path resolution amounts to.
pub open spec fn obstacle_of(f: Failure) -> Obstacle {
    match f {
        Failure::Io(kind, text) => Obstacle::Io(kind, text),
        Failure::Var(e) => Obstacle::Var(e),
    }
}

/// How an obstacle reads.
pub open spec fn obstacle_text(o: Obstacle) -> Seq<char> {
    match o {
        Obstacle::Io(_, text) => text,
        Obstacle::Var(VarError::NotPresent) => "environment variable not found"@,
        Obstacle::Var(VarError::NotUnicode) => "environment variable was not valid unicode"@,
        Obstacle::BareRepo => "Local repository should be a working directory. "@
            + "Did you manually initialize with `--bare`?"@,
    }
}

impl Error {
    /// Takes a failure of path resolution over as it is.
    pub fn from_path(err: crate::path::Error) -> (e: Error)
        ensures
            e@ == obstacle_of(err@),
    {
        match err {
            crate::path::Error::IOError(e) => Error::IOError(e),
            crate::path::Error::VarError(e) => Error::VarError(e),
        }
    }

    /// The failure in words.
    pub fn message(&self) -> (text: String)
        ensures
            text@ == obstacle_text(self@),
    {
        match self {
            Error::IOError(e) => e.message.clone(),
            Error::InvalidBareRepo => {
                let mut text = "Local repository should be a working directory. ".to_owned();
                text.append("Did you manually initialize with `--bare`?");
                text
            },
            Error::VarError(VarError::NotPresent) => "environment variable not found".to_owned(),
            Error::VarError(VarError::NotUnicode) =>
                "environment variable was not valid unicode".to_owned(),
        }
    }
}

/// What was found where the local repository should be.
#[derive(Clone, Copy, Debug, PartialEq, Eq, Structural)]
pub enum Probe {
    /// No repository could be opened there.
    Missing,
    /// A repository without a working tree.
    Bare,
    /// A repository with a working tree.
    Working,
}

/// The failure of a repository that is not there.
pub open spec fn no_repository() -> Obstacle {
    Obstacle::Io(ErrorKind::NotFound, "Local repository not found."@)
}

/// The working tree of the local repository: the path `local` has to
/// resolve, a repository has to be there, and the repository has to have a
/// working tree. A bare repository is refused as such, whatever is asked of
/// its working tree.
pub open spec fn workdir_of(
    local: Seq<char>,
    cwd: Seq<char>,
    env: Map<Seq<char>, Option<Seq<char>>>,
    canonical: Result<Seq<char>, (ErrorKind, Seq<char>)>,
    probe: Probe,
) -> Result<ResPath, Obstacle> {
    match resolution(local, cwd, env, canonical) {
        Err(f) => Err(obstacle_of(f)),
        Ok(p) => match probe {
            Probe::Working => Ok(p),
            Probe::Bare => Err(Obstacle::BareRepo),
            Probe::Missing => Err(no_repository()),
        },
    }
}

/// Whether a result of the library stands for a result of the model.
pub open spec fn workdir_result(r: Result<ResPathBuf, Error>, model: Result<ResPath, Obstacle>) -> bool {
    match model {
        Ok(p) => r matches Ok(found) && found@ == p,
        Err(o) => r matches Err(e) && e@ == o,
    }
}

/// Finds the working tree of the local repository that `pc` names.
///
/// `canonical` is the file system's answer for the canonical form of the
/// expanded path of the repository, and `probe` what was found when a
/// repository was opened at that place; `probe` is not read where the path
/// does not resolve.
pub fn get_workdir(
    pc: &PathConfig,
    cwd: &str,
    env: &Env,
    canonical: &Result<String, IoError>,
    probe: Probe,
) -> (r: Result<ResPathBuf, Error>)
    ensures
        workdir_result(
            r,
            workdir_of(pc.config.repos.local@, cwd@, env@, answer_view(*canonical), probe),
        ),
{
    match resolve(pc.config.repos.local.as_str(), cwd, env, canonical) {
        Err(e) => Err(Error::from_path(e)),
        Ok(workdir) => match probe {
            Probe::Working => Ok(workdir),
            Probe::Bare => Err(Error::InvalidBareRepo),
            Probe::Missing => Err(
                Error::IOError(IoError::new(ErrorKind::NotFound, "Local repository not found.")),
            ),
        },
    }
}

/// A declared path and what it was found to stand for, in the model.
pub struct Declared {
    pub key: Seq<char>,
    pub found: Option<ResPath>,
}

/// A declared path and what it was found to stand for.
#[derive(Debug)]
pub struct Entry {
    pub key: String,
    pub found: Option<ResPathBuf>,
}

/// What a path was found to stand for, in the model.
pub open spec fn found_view(found: Option<ResPathBuf>) -> Option<ResPath> {
    match found {
        Some(p) => Some(p@),
        None => None,
    }
}

impl View for Entry {
    type V = Declared;

    open spec fn view(&self) -> Declared {
        Declared { key: self.key@, found: found_view(self.found) }
    }
}

/// The model of a list of entries.
pub open spec fn entry_views(v: Seq<Entry>) -> Seq<Declared> {
    v.map_values(|e: Entry| e@)
}

/// The position of the first entry whose key is the path `key`, component
/// for component; the length of the list where there is none.
pub open spec fn first_same(entries: Seq<Declared>, key: Seq<char>) -> int
    decreases entries.len(),
{
    if entries.len() == 0 || components(entries[0].key) == components(key) {
        0
    } else {
        1 + first_same(entries.drop_first(), key)
    }
}

/// The entries with `found` put under `key`: in the place of what stood
/// under that path before, or last.
pub open spec fn with_entry(entries: Seq<Declared>, key: Seq<char>, found: Option<ResPath>) -> Seq<
    Declared,
> {
    let i = first_same(entries, key);
    if i < entries.len() {
        entries.update(i, Declared { key: entries[i].key, found })
    } else {
        entries.push(Declared { key, found })
    }
}

pub proof fn lemma_first_same(entries: Seq<Declared>, key: Seq<char>, i: int)
    requires
        0 <= i <= entries.len(),
        forall|j: int| 0 <= j < i ==> components(entries[j].key) != components(key),
    ensures
        first_same(entries, key) == i + first_same(entries.skip(i), key),
        0 <= first_same(entries, key) <= entries.len(),
    decreases i,
{
    lemma_first_same_bounds(entries, key);
    if i == 0 {
        assert(entries.skip(0) == entries);
    } else {
        lemma_first_same(entries.drop_first(), key, i - 1);
        assert(entries.drop_first().skip(i - 1) == entries.skip(i));
    }
}

pub proof fn lemma_first_same_bounds(entries: Seq<Declared>, key: Seq<char>)
    ensures
        0 <= first_same(entries, key) <= entries.len(),
        first_same(entries, key) < entries.len() ==> components(
            entries[first_same(entries, key)].key,
        ) == components(key),
        forall|j: int|
            0 <= j < first_same(entries, key) ==> components(#[trigger] entries[j].key)
                != components(key),
    decreases entries.len(),
{
    if entries.len() == 0 || components(entries[0].key) == components(key) {
    } else {
        lemma_first_same_bounds(entries.drop_first(), key);
        let rest = entries.drop_first();
        assert forall|j: int| 0 <= j < first_same(entries, key) implies components(
            #[trigger] entries[j].key,
        ) != components(key) by {
            if j > 0 {
                assert(entries[j] == rest[j - 1]);
            }
        }
    }
}

/// The declared paths of a configuration, each with what it was found to
/// stand for. Two ways of writing one path are one entry.
///
/// The entries are a list that holds each path once (`distinct_keys`), in
/// the order in which the paths first came. A path is told from another by
/// its components, which no hashing of the text knows of, and a map of the
/// standard library that is keyed by text gives the verifier nothing to
/// prove from.
#[derive(Debug)]
pub struct Lookup {
    pub entries: Vec<Entry>,
}

impl View for Lookup {
    type V = Seq<Declared>;

    open spec fn view(&self) -> Seq<Declared> {
        entry_views(self.entries@)
    }
}

impl Lookup {
    /// No entries.
    pub fn new() -> (lookup: Lookup)
        ensures
            lookup@.len() == 0,
    {
        Lookup { entries: Vec::new() }
    }

    /// Where the entry for the path `key` stands, if there is one.
    pub fn find(&self, key: &str) -> (found: Option<usize>)
        ensures
            match found {
                Some(i) => i == first_same(self@, key@) && i < self@.len(),
                None => first_same(self@, key@) == self@.len(),
            },
    {
        let mut i: usize = 0;
        while i < self.entries.len()
            invariant
                i <= self.entries.len(),
                forall|j: int|
                    0 <= j < i ==> components(#[trigger] self@[j].key) != components(key@),
            decreases self.entries.len() - i,
        {
            proof {
                lemma_first_same(self@, key@, i as int);
                assert(self@.skip(i as int)[0] == self@[i as int]);
            }
            if same_path(self.entries[i].key.as_str(), key) {
                return Some(i);
            }
            i = i + 1;
        }
        proof {
            lemma_first_same(self@, key@, i as int);
            assert(self@.skip(i as int).len() == 0);
        }
        None
    }

    /// Whether the path `key` is declared.
    pub fn contains_key(&self, key: &str) -> (r: bool)
        ensures
            r == (first_same(self@, key@) < self@.len()),
    {
        self.find(key).is_some()
    }

    /// Puts `found` under the path `key`: in the place of what stood under
    /// that path before, however it was written there, or last.
    pub fn insert(&mut self, key: &str, found: Option<ResPathBuf>)
        ensures
            final(self)@ == with_entry(old(self)@, key@, found_view(found)),
            distinct_keys(old(self)@) ==> distinct_keys(final(self)@),
    {
        let ghost before = self@;
        proof {
            if distinct_keys(before) {
                lemma_with_entry_distinct(before, key@, found_view(found));
            }
        }
        match self.find(key) {
            Some(i) => {
                let old_key = self.entries[i].key.clone();
                self.entries.set(i, Entry { key: old_key, found });
                assert(self@ == before.update(
                    i as int,
                    Declared { key: before[i as int].key, found: found_view(found) },
                ));
            },
            None => {
                self.entries.push(Entry { key: key.to_owned(), found });
                assert(self@ == before.push(Declared { key: key@, found: found_view(found) }));
            },
        }
    }
}

/// Every path that the packages declare, package after package.
pub open spec fn declared_paths(packages: Seq<PackageView>) -> Seq<Seq<char>>
    decreases packages.len(),
{
    if packages.len() == 0 {
        Seq::empty()
    } else {
        declared_paths(packages.drop_last()) + packages.last().configs
    }
}

/// Every path that the packages of `pc` declare, package after package.
pub fn declared(pc: &PathConfig) -> (paths: Vec<String>)
    ensures
        texts(paths@) == declared_paths(pc.config.packages@),
{
    let packages = &pc.config.packages;
    let n = packages.len();
    let mut paths: Vec<String> = Vec::new();
    let mut i: usize = 0;
    assert(packages@.take(0) == Seq::<PackageView>::empty());
    while i < n
        invariant
            i <= n,
            n == packages@.len(),
            texts(paths@) == declared_paths(packages@.take(i as int)),
        decreases n - i,
    {
        let package = packages.at(i);
        let ghost base = texts(paths@);
        let mut k: usize = 0;
        while k < package.configs.len()
            invariant
                k <= package.configs.len(),
                texts(paths@) == base + package@.configs.take(k as int),
            decreases package.configs.len() - k,
        {
            let ghost before = texts(paths@);
            paths.push(package.configs[k].clone());
            assert(texts(paths@) == before.push(package.configs@[k as int]@));
            assert(package@.configs.take(k + 1) == package@.configs.take(k as int).push(
                package.configs@[k as int]@,
            ));
            k = k + 1;
        }
        assert(package@.configs.take(k as int) == package@.configs);
        assert(packages@.take(i + 1).drop_last() == packages@.take(i as int));
        i = i + 1;
    }
    assert(packages@.take(i as int) == packages@);
    paths
}

/// What a declared path is found to stand for: the answer has to be there,
/// and the path has to resolve with it.
pub open spec fn found_with(
    path: Seq<char>,
    answers: Seq<Result<String, IoError>>,
    k: int,
    cwd: Seq<char>,
    env: Map<Seq<char>, Option<Seq<char>>>,
) -> Option<ResPath> {
    if 0 <= k < answers.len() {
        match resolution(path, cwd, env, answer_view(answers[k])) {
            Ok(p) => Some(p),
            Err(_) => None,
        }
    } else {
        None
    }
}

/// The lookup that the declared `paths` and the `answers` to them make, the
/// answer at a position belonging to the path at that position.
pub open spec fn lookup_of(
    paths: Seq<Seq<char>>,
    answers: Seq<Result<String, IoError>>,
    cwd: Seq<char>,
    env: Map<Seq<char>, Option<Seq<char>>>,
) -> Seq<Declared>
    decreases paths.len(),
{
    if paths.len() == 0 {
        Seq::empty()
    } else {
        with_entry(
            lookup_of(paths.drop_last(), answers, cwd, env),
            paths.last(),
            found_with(paths.last(), answers, paths.len() - 1, cwd, env),
        )
    }
}

/// Gathers the declared paths of `pc`, each with the file that it stands for
/// where it resolves.
///
/// `answers` holds, for each path of `declared(pc)` in turn, the file
/// system's answer for the canonical form of the expanded path. A path whose
/// answer is missing counts as one that does not resolve.
pub fn get_package_lookup(
    pc: &PathConfig,
    cwd: &str,
    env: &Env,
    answers: &Vec<Result<String, IoError>>,
) -> (lookup: Lookup)
    ensures
        lookup@ == lookup_of(declared_paths(pc.config.packages@), answers@, cwd@, env@),
        distinct_keys(lookup@),
{
    proof {
        lemma_lookup_distinct(declared_paths(pc.config.packages@), answers@, cwd@, env@);
    }
    let paths = declared(pc);
    let ghost all = texts(paths@);
    let mut seen = Lookup::new();
    let mut k: usize = 0;
    assert(all.take(0) == Seq::<Seq<char>>::empty());
    assert(seen@ == Seq::<Declared>::empty());
    while k < paths.len()
        invariant
            k <= paths.len(),
            all == texts(paths@),
            seen@ == lookup_of(all.take(k as int), answers@, cwd@, env@),
        decreases paths.len() - k,
    {
        assert(all.take(k + 1).drop_last() == all.take(k as int));
        assert(all.take(k + 1).last() == paths@[k as int]@);
        let found = if k < answers.len() {
            match resolve(paths[k].as_str(), cwd, env, &answers[k]) {
                Ok(resolved) => Some(resolved),
                Err(_) => None,
            }
        } else {
            None
        };
        seen.insert(paths[k].as_str(), found);
        k = k + 1;
    }
    assert(all.take(k as int) == all);
    seen
}

/// One entry of a directory: its name, and whether it is a directory.
#[derive(Debug)]
pub struct DirEntry {
    pub name: String,
    pub is_dir: bool,
}

/// A directory of the working tree, in the model: where it is, and where it
/// is as seen from the root of the tree.
pub struct DirView {
    pub path: Seq<char>,
    pub relative: Seq<char>,
}

/// A directory of the working tree that is still to be listed.
#[derive(Debug)]
pub struct Dir {
    pub path: String,
    pub relative: String,
}

impl View for Dir {
    type V = DirView;

    open spec fn view(&self) -> DirView {
        DirView { path: self.path@, relative: self.relative@ }
    }
}

/// The path of the entry `name` of the directory `dir`.
pub open spec fn child(dir: Seq<char>, name: Seq<char>) -> Seq<char> {
    if dir.len() == 0 {
        name
    } else if dir.last() == '/' {
        dir + name
    } else {
        dir + seq!['/'] + name
    }
}

/// The path of the entry `name` of the directory `dir`.
pub fn child_path(dir: &str, name: &str) -> (path: String)
    ensures
        path@ == child(dir@, name@),
{
    proof {
        reveal_strlit("/");
    }
    let n = dir.unicode_len();
    let mut path = dir.to_owned();
    if n > 0 && dir.get_char(n - 1) != '/' {
        path.append("/");
    }
    path.append(name);
    path
}

/// The name of the directory in which git keeps its own files.
pub open spec fn git_dir() -> Seq<char> {
    ".git"@
}

/// The state of a walk through the working tree, in the model.
pub struct WalkView {
    /// The directories that are still to be listed; the last one is next.
    pub pending: Seq<DirView>,
    /// The files found so far.
    pub seen: Seq<ResPath>,
    /// The name of the marker file at the root that is no file of the tree.
    pub sentinel: Option<Seq<char>>,
}

/// The model of a list of directories.
pub open spec fn dir_views(v: Seq<Dir>) -> Seq<DirView> {
    v.map_values(|d: Dir| d@)
}

/// The model of a list of resolved paths.
pub open spec fn path_views(v: Seq<ResPathBuf>) -> Seq<ResPath> {
    v.map_values(|p: ResPathBuf| p@)
}

/// Whether the entry is a directory that the walk goes into: every
/// directory but the one in which git keeps its own files.
pub open spec fn is_walked(entry: DirEntry) -> bool {
    entry.is_dir && entry.name@ != git_dir()
}

/// Whether the entry is a file of the tree: every file but the marker at
/// the root.
pub open spec fn is_tree_file(dir: DirView, entry: DirEntry, sentinel: Option<Seq<char>>) -> bool {
    !entry.is_dir && !(dir.relative.len() == 0 && sentinel == Some(entry.name@))
}

/// The directories among `entries` of `dir` that the walk goes into.
pub open spec fn found_dirs(dir: DirView, entries: Seq<DirEntry>) -> Seq<DirView>
    decreases entries.len(),
{
    if entries.len() == 0 {
        Seq::empty()
    } else {
        let rest = found_dirs(dir, entries.drop_last());
        let entry = entries.last();
        if is_walked(entry) {
            rest.push(
                DirView {
                    path: child(dir.path, entry.name@),
                    relative: child(dir.relative, entry.name@),
                },
            )
        } else {
            rest
        }
    }
}

/// The files of the tree among `entries` of `dir`, each with its place in
/// the tree as the path it is written as.
pub open spec fn found_files(dir: DirView, entries: Seq<DirEntry>, sentinel: Option<Seq<char>>) -> Seq<
    ResPath,
>
    decreases entries.len(),
{
    if entries.len() == 0 {
        Seq::empty()
    } else {
        let rest = found_files(dir, entries.drop_last(), sentinel);
        let entry = entries.last();
        if is_tree_file(dir, entry, sentinel) {
            rest.push(
                ResPath {
                    resolved: child(dir.path, entry.name@),
                    unresolved: child(dir.relative, entry.name@),
                },
            )
        } else {
            rest
        }
    }
}

/// The walk after the directory that was next has been listed: its files
/// have joined the files found, and its directories wait for their turn. A
/// walk that is over stays as it is.
pub open spec fn after_visit(walk: WalkView, entries: Seq<DirEntry>) -> WalkView {
    if walk.pending.len() == 0 {
        walk
    } else {
        WalkView {
            pending: walk.pending.drop_last() + found_dirs(walk.pending.last(), entries),
            seen: walk.seen + found_files(walk.pending.last(), entries, walk.sentinel),
            sentinel: walk.sentinel,
        }
    }
}

/// A walk through the working tree, one directory at a time: it names the
/// directory to list next, takes the listing, and gathers the files.
#[derive(Debug)]
pub struct Walk {
    pending: Vec<Dir>,
    seen: Vec<ResPathBuf>,
    sentinel: Option<String>,
}

impl View for Walk {
    type V = WalkView;

    closed spec fn view(&self) -> WalkView {
        WalkView {
            pending: dir_views(self.pending@),
            seen: path_views(self.seen@),
            sentinel: text_of(self.sentinel),
        }
    }
}

/// Starts a walk through the working tree at `root`. Where `root` is no
/// directory there is nothing to walk. A file at the root called `sentinel`
/// marks the tree as managed and is not one of its files.
pub fn walk_repo(root: &ResPathBuf, is_dir: bool, sentinel: Option<&str>) -> (walk: Walk)
    ensures
        walk@.seen.len() == 0,
        walk@.sentinel == str_of(sentinel),
        is_dir ==> walk@.pending == seq![
            DirView { path: root@.resolved, relative: Seq::<char>::empty() },
        ],
        !is_dir ==> walk@.pending.len() == 0,
{
    let mut pending: Vec<Dir> = Vec::new();
    if is_dir {
        pending.push(Dir { path: root.resolved().clone(), relative: String::new() });
        assert(dir_views(pending@) == seq![
            DirView { path: root@.resolved, relative: Seq::<char>::empty() },
        ]);
    }
    let sentinel = match sentinel {
        Some(name) => Some(name.to_owned()),
        None => None,
    };
    let walk = Walk { pending, seen: Vec::new(), sentinel };
    assert(walk@.seen == Seq::<ResPath>::empty());
    walk
}

impl Walk {
    #[verifier::type_invariant]
    spec fn well_formed(self) -> bool {
        forall|i: int|
            0 <= i < self.pending@.len() ==> crate::path::is_absolute(
                (#[trigger] self.pending@[i]).path@,
            )
    }

    /// The directory to list next; none when the walk is over.
    pub fn next_dir(&self) -> (dir: Option<&String>)
        ensures
            match dir {
                Some(path) => self@.pending.len() > 0 && path@ == self@.pending.last().path,
                None => self@.pending.len() == 0,
            },
    {
        if self.pending.len() == 0 {
            None
        } else {
            Some(&self.pending[self.pending.len() - 1].path)
        }
    }

    /// Takes the listing of the directory that was next. Its files join the
    /// files found, and its directories wait for their turn, but for the one
    /// in which git keeps its own files.
    pub fn visit(self, entries: &Vec<DirEntry>) -> (walk: Walk)
        ensures
            walk@ == after_visit(self@, entries@),
    {
        proof {
            use_type_invariant(&self);
        }
        let ghost start = self@;
        let Walk { mut pending, mut seen, sentinel } = self;
        let dir = match pending.pop() {
            Some(dir) => dir,
            None => {
                let walk = Walk { pending, seen, sentinel };
                assert(walk@.pending == start.pending);
                return walk;
            },
        };
        assert(dir@ == start.pending.last());
        assert(dir_views(pending@) == start.pending.drop_last());
        let at_root = dir.relative.as_str().unicode_len() == 0;
        let mut i: usize = 0;
        assert(entries@.take(0) == Seq::<DirEntry>::empty());
        while i < entries.len()
            invariant
                i <= entries.len(),
                at_root == (dir@.relative.len() == 0),
                crate::path::is_absolute(dir.path@),
                text_of(sentinel) == start.sentinel,
                dir_views(pending@) == start.pending.drop_last() + found_dirs(
                    dir@,
                    entries@.take(i as int),
                ),
                path_views(seen@) == start.seen + found_files(
                    dir@,
                    entries@.take(i as int),
                    start.sentinel,
                ),
                forall|k: int|
                    0 <= k < pending@.len() ==> crate::path::is_absolute(
                        (#[trigger] pending@[k]).path@,
                    ),
            decreases entries.len() - i,
        {
            let entry = &entries[i];
            assert(entries@.take(i + 1).drop_last() == entries@.take(i as int));
            assert(entries@.take(i + 1).last() == entries@[i as int]);
            let ghost dirs_before = dir_views(pending@);
            let ghost seen_before = path_views(seen@);
            if entry.is_dir {
                if !same_text(entry.name.as_str(), ".git") {
                    let path = child_path(dir.path.as_str(), entry.name.as_str());
                    let relative = child_path(dir.relative.as_str(), entry.name.as_str());
                    pending.push(Dir { path, relative });
                    assert(dir_views(pending@) == dirs_before.push(
                        DirView {
                            path: child(dir@.path, entry.name@),
                            relative: child(dir@.relative, entry.name@),
                        },
                    ));
                }
            } else {
                let marker = at_root && match &sentinel {
                    Some(name) => same_text(name.as_str(), entry.name.as_str()),
                    None => false,
                };
                assert(marker == !is_tree_file(dir@, *entry, start.sentinel));
                if !marker {
                    let path = child_path(dir.path.as_str(), entry.name.as_str());
                    let relative = child_path(dir.relative.as_str(), entry.name.as_str());
                    match ResPathBuf::new(path.as_str(), relative.as_str()) {
                        Ok(file) => {
                            seen.push(file);
                            assert(path_views(seen@) == seen_before.push(
                                ResPath {
                                    resolved: child(dir@.path, entry.name@),
                                    unresolved: child(dir@.relative, entry.name@),
                                },
                            ));
                        },
                        Err(_) => {
                            assert(false);
                        },
                    }
                }
            }
            i = i + 1;
        }
        assert(entries@.take(i as int) == entries@);
        Walk { pending, seen, sentinel }
    }

    /// The files found so far; all files of the tree once the walk is over.
    pub fn finish(self) -> (files: Vec<ResPathBuf>)
        ensures
            path_views(files@) == self@.seen,
    {
        self.seen
    }
}

/// One operation on the file system, in the model.
pub enum Op {
    Remove(Seq<char>),
    Prune(Seq<char>),
    MakeDirs(Seq<char>),
    Copy(Seq<char>, Seq<char>),
}

/// One operation on the file system, for the caller to carry out.
#[derive(Debug)]
pub enum FileOp {
    /// Remove the file at this path.
    Remove(String),
    /// Remove the directory at this path if nothing is left in it.
    Prune(String),
    /// Make the directory at this path, and those above it, where missing.
    MakeDirs(String),
    /// Copy the file at `from` over the file at `to`.
    Copy { from: String, to: String },
}

impl View for FileOp {
    type V = Op;

    open spec fn view(&self) -> Op {
        match self {
            FileOp::Remove(path) => Op::Remove(path@),
            FileOp::Prune(path) => Op::Prune(path@),
            FileOp::MakeDirs(path) => Op::MakeDirs(path@),
            FileOp::Copy { from, to } => Op::Copy(from@, to@),
        }
    }
}

/// The model of a list of operations.
pub open spec fn op_views(v: Seq<FileOp>) -> Seq<Op> {
    v.map_values(|op: FileOp| op@)
}

/// Whether the path `rel` is in the package set: declared, and resolved.
pub open spec fn in_package_set(lookup: Seq<Declared>, rel: Seq<char>) -> bool {
    let i = first_same(lookup, rel);
    i < lookup.len() && lookup[i].found is Some
}

/// The directories between the root of the tree and the file at `rel`, the
/// deepest first, each to be removed if nothing is left in it.
pub open spec fn prunes(root: Seq<Part>, rel: Seq<Part>) -> Seq<Op>
    decreases rel.len(),
{
    if rel.len() <= 1 {
        Seq::empty()
    } else {
        seq![Op::Prune(render(root + rel.drop_last()))] + prunes(root, rel.drop_last())
    }
}

/// What staging does about one file of the tree: a file that is not in the
/// package set is removed, and the directories it leaves empty with it.
pub open spec fn removal_ops(root: Seq<Part>, file: ResPath, lookup: Seq<Declared>) -> Seq<Op> {
    if in_package_set(lookup, file.unresolved) {
        Seq::empty()
    } else {
        seq![Op::Remove(file.resolved)] + prunes(root, components(file.unresolved))
    }
}

/// What staging does about the files of the tree, file after file.
pub open spec fn removals(root: Seq<Part>, files: Seq<ResPath>, lookup: Seq<Declared>) -> Seq<Op>
    decreases files.len(),
{
    if files.len() == 0 {
        Seq::empty()
    } else {
        removals(root, files.drop_last(), lookup) + removal_ops(root, files.last(), lookup)
    }
}

/// The making of the directory that is to hold the last component of
/// `dest`, where there is such a directory.
pub open spec fn make_parent(dest: Seq<Part>) -> Seq<Op> {
    match pop(dest) {
        Some(dir) => seq![Op::MakeDirs(render(dir))],
        None => Seq::empty(),
    }
}

/// What staging does about one declared path: the file that it stands for
/// is copied into the tree, to the place that the path as it is written
/// names below the root of the tree.
pub open spec fn copy_ops(root: Seq<Part>, entry: Declared) -> Seq<Op> {
    match entry.found {
        None => Seq::empty(),
        Some(p) => {
            let dest = push_path(root, entry.key);
            make_parent(dest) + seq![Op::Copy(p.resolved, render(dest))]
        },
    }
}

/// What staging does about the declared paths, path after path.
pub open spec fn copies(root: Seq<Part>, lookup: Seq<Declared>) -> Seq<Op>
    decreases lookup.len(),
{
    if lookup.len() == 0 {
        Seq::empty()
    } else {
        copies(root, lookup.drop_last()) + copy_ops(root, lookup.last())
    }
}

/// The operations that bring the working tree in step with the package set.
pub open spec fn stage_plan(workdir: Seq<char>, files: Seq<ResPath>, lookup: Seq<Declared>) -> Seq<
    Op,
> {
    removals(components(workdir), files, lookup) + copies(components(workdir), lookup)
}

/// The components of `root` followed by the first `n` of `rel`.
fn with_prefix(root: &Vec<Component>, rel: &Vec<Component>, n: usize) -> (out: Vec<Component>)
    requires
        n <= rel.len(),
    ensures
        parts(out@) == parts(root@) + parts(rel@).take(n as int),
{
    let mut out: Vec<Component> = Vec::new();
    let mut i: usize = 0;
    while i < root.len()
        invariant
            i <= root.len(),
            parts(out@) == parts(root@).take(i as int),
        decreases root.len() - i,
    {
        let ghost before = parts(out@);
        out.push(root[i].clone());
        assert(parts(out@) == before.push(root@[i as int]@));
        assert(parts(root@).take(i + 1) == parts(root@).take(i as int).push(root@[i as int]@));
        i = i + 1;
    }
    assert(parts(root@).take(i as int) == parts(root@));
    let mut k: usize = 0;
    while k < n
        invariant
            k <= n <= rel.len(),
            parts(out@) == parts(root@) + parts(rel@).take(k as int),
        decreases n - k,
    {
        let ghost before = parts(out@);
        out.push(rel[k].clone());
        assert(parts(out@) == before.push(rel@[k as int]@));
        assert(parts(rel@).take(k + 1) == parts(rel@).take(k as int).push(rel@[k as int]@));
        k = k + 1;
    }
    out
}

/// Adds the pruning of the directories above the file at `rel`.
fn push_prunes(root: &Vec<Component>, rel: &Vec<Component>, ops: &mut Vec<FileOp>)
    ensures
        op_views(final(ops)@) == op_views(old(ops)@) + prunes(parts(root@), parts(rel@)),
{
    let mut k: usize = rel.len();
    assert(parts(rel@).take(k as int) == parts(rel@));
    while k > 1
        invariant
            k <= rel.len(),
            op_views(ops@) + prunes(parts(root@), parts(rel@).take(k as int)) == op_views(old(ops)@)
                + prunes(parts(root@), parts(rel@)),
        decreases k,
    {
        let ghost before = op_views(ops@);
        let ghost upto = parts(rel@).take(k as int);
        assert(upto.drop_last() == parts(rel@).take(k - 1));
        let dir = with_prefix(root, rel, k - 1);
        ops.push(FileOp::Prune(join(&dir)));
        assert(op_views(ops@) == before.push(Op::Prune(render(parts(root@) + upto.drop_last()))));
        k = k - 1;
    }
}

/// Adds what staging does about one declared path.
fn push_copy(root: &Vec<Component>, entry: &Entry, ops: &mut Vec<FileOp>)
    ensures
        op_views(final(ops)@) == op_views(old(ops)@) + copy_ops(parts(root@), entry@),
{
    let ghost before = op_views(ops@);
    match &entry.found {
        None => {
            assert(before + copy_ops(parts(root@), entry@) == before);
        },
        Some(source) => {
            let mut dest = with_prefix(root, root, 0);
            assert(parts(root@) + parts(root@).take(0) == parts(root@));
            push_value(&mut dest, entry.key.as_str());
            match parent(&dest) {
                Some(dir) => {
                    ops.push(FileOp::MakeDirs(dir));
                },
                None => {},
            }
            assert(op_views(ops@) == before + make_parent(parts(dest@)));
            let ghost made = op_views(ops@);
            ops.push(FileOp::Copy { from: source.resolved().clone(), to: join(&dest) });
            assert(op_views(ops@) == made.push(Op::Copy(source@.resolved, render(parts(dest@)))));
        },
    }
}

/// Plans how to bring the working tree in step with the package set.
///
/// `repo_files` are the files of the working tree at `workdir`, each with
/// its place in the tree as its unresolved path, and `lookup` holds the
/// declared paths. A file of the tree that is not in the package set is
/// removed, and the directories that this leaves empty are pruned from the
/// deepest up. Then every declared path that resolves is copied from where
/// it is on the machine to the place in the tree that it is written as.
/// Declared paths that do not resolve are passed over.
pub fn stage(workdir: &ResPathBuf, repo_files: &Vec<ResPathBuf>, lookup: &Lookup) -> (plan: Vec<
    FileOp,
>)
    ensures
        op_views(plan@) == stage_plan(workdir@.resolved, path_views(repo_files@), lookup@),
{
    let root = split(workdir.resolved().as_str());
    let mut plan: Vec<FileOp> = Vec::new();
    let ghost files = path_views(repo_files@);
    let mut i: usize = 0;
    assert(files.take(0) == Seq::<ResPath>::empty());
    assert(op_views(plan@) == Seq::<Op>::empty());
    while i < repo_files.len()
        invariant
            i <= repo_files.len(),
            files == path_views(repo_files@),
            parts(root@) == components(workdir@.resolved),
            op_views(plan@) == removals(parts(root@), files.take(i as int), lookup@),
        decreases repo_files.len() - i,
    {
        let file = &repo_files[i];
        assert(files.take(i + 1).drop_last() == files.take(i as int));
        assert(files.take(i + 1).last() == file@);
        let ghost before = op_views(plan@);
        let kept = match lookup.find(file.unresolved().as_str()) {
            Some(k) => lookup.entries[k].found.is_some(),
            None => false,
        };
        assert(kept == in_package_set(lookup@, file@.unresolved));
        if !kept {
            plan.push(FileOp::Remove(file.resolved().clone()));
            assert(op_views(plan@) == before.push(Op::Remove(file@.resolved)));
            let rel = split(file.unresolved().as_str());
            push_prunes(&root, &rel, &mut plan);
        }
        assert(op_views(plan@) == before + removal_ops(parts(root@), file@, lookup@));
        i = i + 1;
    }
    assert(files.take(i as int) == files);
    let ghost removed = op_views(plan@);
    let mut k: usize = 0;
    assert(lookup@.take(0) == Seq::<Declared>::empty());
    while k < lookup.entries.len()
        invariant
            k <= lookup.entries.len(),
            op_views(plan@) == removed + copies(parts(root@), lookup@.take(k as int)),
        decreases lookup.entries.len() - k,
    {
        assert(lookup@.take(k + 1).drop_last() == lookup@.take(k as int));
        assert(lookup@.take(k + 1).last() == lookup.entries@[k as int]@);
        push_copy(&root, &lookup.entries[k], &mut plan);
        k = k + 1;
    }
    assert(lookup@.take(k as int) == lookup@);
    plan
}

/// The copying of the file at `from` to where `path` expands to, with the
/// directory that is to hold it made first. Nothing where `path` does not
/// expand.
pub open spec fn restore_ops(
    from: Seq<char>,
    path: Seq<char>,
    cwd: Seq<char>,
    env: Map<Seq<char>, Option<Seq<char>>>,
) -> Seq<Op> {
    match expand_path(path, cwd, env) {
        Err(_) => Seq::empty(),
        Ok(dest) => make_parent(dest) + seq![Op::Copy(from, render(dest))],
    }
}

/// What applying does about one file of the tree: a file that no declared
/// path names stays where it is; one whose declared path resolves is copied
/// over the file that the path stands for; any other is copied to where its
/// path expands to.
pub open spec fn apply_ops(
    file: ResPath,
    lookup: Seq<Declared>,
    cwd: Seq<char>,
    env: Map<Seq<char>, Option<Seq<char>>>,
) -> Seq<Op> {
    let i = first_same(lookup, file.unresolved);
    if i >= lookup.len() {
        Seq::empty()
    } else {
        match lookup[i].found {
            Some(p) => seq![Op::Copy(file.resolved, p.resolved)],
            None => restore_ops(file.resolved, file.unresolved, cwd, env),
        }
    }
}

/// What applying does about the files of the tree, file after file.
pub open spec fn apply_all_plan(
    files: Seq<ResPath>,
    lookup: Seq<Declared>,
    cwd: Seq<char>,
    env: Map<Seq<char>, Option<Seq<char>>>,
) -> Seq<Op>
    decreases files.len(),
{
    if files.len() == 0 {
        Seq::empty()
    } else {
        apply_all_plan(files.drop_last(), lookup, cwd, env) + apply_ops(
            files.last(),
            lookup,
            cwd,
            env,
        )
    }
}

/// Adds the copying of the file at `from` to where `path` expands to.
fn push_restore(from: &str, path: &str, cwd: &str, env: &Env, ops: &mut Vec<FileOp>)
    ensures
        op_views(final(ops)@) == op_views(old(ops)@) + restore_ops(from@, path@, cwd@, env@),
{
    let ghost before = op_views(ops@);
    match expand_components(path, cwd, env) {
        Err(_) => {
            assert(before + restore_ops(from@, path@, cwd@, env@) == before);
        },
        Ok(dest) => {
            match parent(&dest) {
                Some(dir) => {
                    ops.push(FileOp::MakeDirs(dir));
                },
                None => {},
            }
            assert(op_views(ops@) == before + make_parent(parts(dest@)));
            let ghost made = op_views(ops@);
            ops.push(FileOp::Copy { from: from.to_owned(), to: join(&dest) });
            assert(op_views(ops@) == made.push(Op::Copy(from@, render(parts(dest@)))));
        },
    }
}

/// Plans how to copy every file of the working tree back to its place on
/// the machine.
///
/// `repo_files` are the files of the working tree, each with its place in
/// the tree as its unresolved path, and `lookup` holds the declared paths.
pub fn apply_all(repo_files: &Vec<ResPathBuf>, lookup: &Lookup, cwd: &str, env: &Env) -> (plan: Vec<
    FileOp,
>)
    ensures
        op_views(plan@) == apply_all_plan(path_views(repo_files@), lookup@, cwd@, env@),
{
    let mut plan: Vec<FileOp> = Vec::new();
    let ghost files = path_views(repo_files@);
    let mut i: usize = 0;
    assert(files.take(0) == Seq::<ResPath>::empty());
    assert(op_views(plan@) == Seq::<Op>::empty());
    while i < repo_files.len()
        invariant
            i <= repo_files.len(),
            files == path_views(repo_files@),
            op_views(plan@) == apply_all_plan(files.take(i as int), lookup@, cwd@, env@),
        decreases repo_files.len() - i,
    {
        let file = &repo_files[i];
        assert(files.take(i + 1).drop_last() == files.take(i as int));
        assert(files.take(i + 1).last() == file@);
        let ghost before = op_views(plan@);
        match lookup.find(file.unresolved().as_str()) {
            None => {
                assert(before + apply_ops(file@, lookup@, cwd@, env@) == before);
            },
            Some(k) => match &lookup.entries[k].found {
                Some(target) => {
                    plan.push(
                        FileOp::Copy {
                            from: file.resolved().clone(),
                            to: target.resolved().clone(),
                        },
                    );
                    assert(op_views(plan@) == before.push(
                        Op::Copy(file@.resolved, target@.resolved),
                    ));
                },
                None => {
                    push_restore(
                        file.resolved().as_str(),
                        file.unresolved().as_str(),
                        cwd,
                        env,
                        &mut plan,
                    );
                },
            },
        }
        i = i + 1;
    }
    assert(files.take(i as int) == files);
    plan
}

/// Where the file that the path `path` is written as lies in the working
/// tree at `root`.
pub open spec fn tree_place(root: Seq<Part>, path: Seq<char>) -> Seq<char> {
    render(push_path(root, path))
}

/// The places in the working tree of the declared `paths`.
pub open spec fn tree_places(root: Seq<Part>, paths: Seq<Seq<char>>) -> Seq<Seq<char>> {
    paths.map_values(|path: Seq<char>| tree_place(root, path))
}

/// Where the file that the path `path` is written as lies in the working tree.
fn place_in_tree(root: &Vec<Component>, path: &str) -> (place: String)
    ensures
        place@ == tree_place(parts(root@), path@),
{
    let mut dest = with_prefix(root, root, 0);
    assert(parts(root@) + parts(root@).take(0) == parts(root@));
    push_value(&mut dest, path);
    join(&dest)
}

/// The places in the working tree at `workdir` of the files of the package
/// called `package`; nothing where `pc` holds no such package.
pub fn repo_paths(pc: &PathConfig, package: &str, workdir: &ResPathBuf) -> (places: Option<
    Vec<String>,
>)
    ensures
        match position(pc.config.packages@, package@) {
            Some(i) => places matches Some(found) && texts(found@) == tree_places(
                components(workdir@.resolved),
                pc.config.packages@[i].configs,
            ),
            None => places is None,
        },
{
    let paths = match pc.config.packages.get(package) {
        Some(paths) => paths,
        None => {
            return None;
        },
    };
    let root = split(workdir.resolved().as_str());
    let ghost all = texts(paths@);
    let mut places: Vec<String> = Vec::new();
    let mut k: usize = 0;
    while k < paths.len()
        invariant
            k <= paths.len(),
            all == texts(paths@),
            texts(places@) == tree_places(parts(root@), all).take(k as int),
        decreases paths.len() - k,
    {
        let ghost before = texts(places@);
        places.push(place_in_tree(&root, paths[k].as_str()));
        assert(texts(places@) == before.push(tree_place(parts(root@), all[k as int])));
        assert(tree_places(parts(root@), all).take(k + 1) == tree_places(parts(root@), all).take(
            k as int,
        ).push(tree_place(parts(root@), all[k as int])));
        k = k + 1;
    }
    assert(tree_places(parts(root@), all).take(k as int) == tree_places(parts(root@), all));
    Some(places)
}

/// What applying does about the declared `paths` of one package: each file
/// that is present in the working tree is copied to where its path expands
/// to. `present` says of each path in turn whether the file is there; a
/// path without an answer counts as absent.
pub open spec fn restores(
    root: Seq<Part>,
    paths: Seq<Seq<char>>,
    present: Seq<bool>,
    cwd: Seq<char>,
    env: Map<Seq<char>, Option<Seq<char>>>,
) -> Seq<Op>
    decreases paths.len(),
{
    if paths.len() == 0 {
        Seq::empty()
    } else {
        let k = paths.len() - 1;
        let rest = restores(root, paths.drop_last(), present, cwd, env);
        if k < present.len() && present[k] {
            rest + restore_ops(tree_place(root, paths[k]), paths[k], cwd, env)
        } else {
            rest
        }
    }
}

/// The plan for the package called `name`; nothing where there is no such
/// package.
pub open spec fn apply_one_plan(
    packages: Seq<PackageView>,
    name: Seq<char>,
    workdir: Seq<char>,
    present: Seq<bool>,
    cwd: Seq<char>,
    env: Map<Seq<char>, Option<Seq<char>>>,
) -> Option<Seq<Op>> {
    match position(packages, name) {
        Some(i) => Some(restores(components(workdir), packages[i].configs, present, cwd, env)),
        None => None,
    }
}

/// Whether a plan of the library stands for a plan of the model.
pub open spec fn plan_result(plan: Option<Vec<FileOp>>, model: Option<Seq<Op>>) -> bool {
    match model {
        Some(ops) => plan matches Some(found) && op_views(found@) == ops,
        None => plan is None,
    }
}

/// Plans how to copy the files of the package called `package` from the
/// working tree at `workdir` back to their places on the machine. Answers
/// nothing where `pc` holds no such package.
///
/// `present` says, for each path of `repo_paths(pc, package, workdir)` in
/// turn, whether a file is there.
pub fn apply_one(
    pc: &PathConfig,
    package: &str,
    workdir: &ResPathBuf,
    present: &Vec<bool>,
    cwd: &str,
    env: &Env,
) -> (plan: Option<Vec<FileOp>>)
    ensures
        plan_result(
            plan,
            apply_one_plan(
                pc.config.packages@,
                package@,
                workdir@.resolved,
                present@,
                cwd@,
                env@,
            ),
        ),
{
    let paths = match pc.config.packages.get(package) {
        Some(paths) => paths,
        None => {
            return None;
        },
    };
    let root = split(workdir.resolved().as_str());
    let ghost all = texts(paths@);
    let mut plan: Vec<FileOp> = Vec::new();
    let mut k: usize = 0;
    assert(all.take(0) == Seq::<Seq<char>>::empty());
    assert(op_views(plan@) == Seq::<Op>::empty());
    while k < paths.len()
        invariant
            k <= paths.len(),
            all == texts(paths@),
            op_views(plan@) == restores(parts(root@), all.take(k as int), present@, cwd@, env@),
        decreases paths.len() - k,
    {
        assert(all.take(k + 1).drop_last() == all.take(k as int));
        assert(all.take(k + 1).last() == paths@[k as int]@);
        if k < present.len() && present[k] {
            let place = place_in_tree(&root, paths[k].as_str());
            push_restore(place.as_str(), paths[k].as_str(), cwd, env, &mut plan);
        }
        k = k + 1;
    }
    assert(all.take(k as int) == all);
    Some(plan)
}

/// The plan for one package where `package` names one, and for every file
/// of the tree where it names none.
pub open spec fn apply_plan(
    packages: Seq<PackageView>,
    package: Option<Seq<char>>,
    workdir: Seq<char>,
    files: Seq<ResPath>,
    lookup: Seq<Declared>,
    present: Seq<bool>,
    cwd: Seq<char>,
    env: Map<Seq<char>, Option<Seq<char>>>,
) -> Option<Seq<Op>> {
    match package {
        Some(name) => apply_one_plan(packages, name, workdir, present, cwd, env),
        None => Some(apply_all_plan(files, lookup, cwd, env)),
    }
}

/// Plans how to copy files from the working tree back to their places on
/// the machine: those of the one package that `package` names, or all.
/// Answers nothing where `package` names a package that `pc` does not hold.
///
/// For one package `present` is read as by `apply_one`; for all of them
/// `repo_files` and `lookup` are read as by `apply_all`.
pub fn apply(
    pc: &PathConfig,
    package: Option<&str>,
    workdir: &ResPathBuf,
    repo_files: &Vec<ResPathBuf>,
    lookup: &Lookup,
    present: &Vec<bool>,
    cwd: &str,
    env: &Env,
) -> (plan: Option<Vec<FileOp>>)
    ensures
        plan_result(
            plan,
            apply_plan(
                pc.config.packages@,
                str_of(package),
                workdir@.resolved,
                path_views(repo_files@),
                lookup@,
                present@,
                cwd@,
                env@,
            ),
        ),
{
    match package {
        Some(name) => apply_one(pc, name, workdir, present, cwd, env),
        None => Some(apply_all(repo_files, lookup, cwd, env)),
    }
}

/// Whether no two entries stand under the same path.
pub open spec fn distinct_keys(lookup: Seq<Declared>) -> bool {
    forall|i: int, j: int|
        0 <= i < j < lookup.len() ==> components(#[trigger] lookup[i].key) != components(
            #[trigger] lookup[j].key,
        )
}

/// Putting an entry under a path keeps the paths distinct.
pub proof fn lemma_with_entry_distinct(entries: Seq<Declared>, key: Seq<char>, found: Option<ResPath>)
    requires
        distinct_keys(entries),
    ensures
        distinct_keys(with_entry(entries, key, found)),
{
    lemma_first_same_bounds(entries, key);
    let i = first_same(entries, key);
    let after = with_entry(entries, key, found);
    if i < entries.len() {
        assert forall|a: int, b: int| 0 <= a < b < after.len() implies components(
            #[trigger] after[a].key,
        ) != components(#[trigger] after[b].key) by {
            assert(after[a].key == entries[a].key);
            assert(after[b].key == entries[b].key);
        }
    } else {
        assert forall|a: int, b: int| 0 <= a < b < after.len() implies components(
            #[trigger] after[a].key,
        ) != components(#[trigger] after[b].key) by {
            if b < entries.len() {
                assert(after[a].key == entries[a].key);
                assert(after[b].key == entries[b].key);
            } else {
                assert(after[a] == entries[a]);
                assert(after[b].key == key);
            }
        }
    }
}

/// A lookup that is gathered from declared paths holds each path once.
pub proof fn lemma_lookup_distinct(
    paths: Seq<Seq<char>>,
    answers: Seq<Result<String, IoError>>,
    cwd: Seq<char>,
    env: Map<Seq<char>, Option<Seq<char>>>,
)
    ensures
        distinct_keys(lookup_of(paths, answers, cwd, env)),
    decreases paths.len(),
{
    if paths.len() > 0 {
        lemma_lookup_distinct(paths.drop_last(), answers, cwd, env);
        lemma_with_entry_distinct(
            lookup_of(paths.drop_last(), answers, cwd, env),
            paths.last(),
            found_with(paths.last(), answers, paths.len() - 1, cwd, env),
        );
    }
}

/// Whether `file` is a file that staging leaves in the tree: one of the
/// `files` that it kept, or one that it copied to the place that a declared
/// path is written as.
pub open spec fn left_by_staging(file: ResPath, files: Seq<ResPath>, lookup: Seq<Declared>) -> bool {
    ||| (exists|i: int| 0 <= i < files.len() && #[trigger] files[i] == file) && in_package_set(
        lookup,
        file.unresolved,
    )
    ||| exists|k: int|
        0 <= k < lookup.len() && (#[trigger] lookup[k]).found is Some && components(lookup[k].key)
            == components(file.unresolved)
}

/// Staging removes nothing from a tree whose files are all in the package set.
pub proof fn lemma_nothing_to_remove(root: Seq<Part>, files: Seq<ResPath>, lookup: Seq<Declared>)
    requires
        forall|i: int| 0 <= i < files.len() ==> in_package_set(lookup, (#[trigger] files[i]).unresolved),
    ensures
        removals(root, files, lookup) == Seq::<Op>::empty(),
    decreases files.len(),
{
    if files.len() > 0 {
        let rest = files.drop_last();
        assert forall|i: int| 0 <= i < rest.len() implies in_package_set(
            lookup,
            (#[trigger] rest[i]).unresolved,
        ) by {
            assert(rest[i] == files[i]);
        }
        lemma_nothing_to_remove(root, rest, lookup);
        assert(in_package_set(lookup, files[files.len() - 1].unresolved));
    }
}

/// Staging is idempotent: staged a second time with nothing changed in
/// between, the tree loses nothing, and the files that are copied into it
/// are the same as the first time.
///
/// `files` is the tree before the first staging and `again` the tree after
/// it, which holds nothing but what the first staging left there.
pub proof fn lemma_stage_is_idempotent(
    workdir: Seq<char>,
    files: Seq<ResPath>,
    lookup: Seq<Declared>,
    again: Seq<ResPath>,
)
    requires
        distinct_keys(lookup),
        forall|i: int| 0 <= i < again.len() ==> left_by_staging(#[trigger] again[i], files, lookup),
    ensures
        removals(components(workdir), again, lookup) == Seq::<Op>::empty(),
        stage_plan(workdir, again, lookup) == copies(components(workdir), lookup),
{
    assert forall|i: int| 0 <= i < again.len() implies in_package_set(
        lookup,
        (#[trigger] again[i]).unresolved,
    ) by {
        let file = again[i];
        assert(left_by_staging(file, files, lookup));
        if !in_package_set(lookup, file.unresolved) {
            let k = choose|k: int|
                0 <= k < lookup.len() && (#[trigger] lookup[k]).found is Some && components(
                    lookup[k].key,
                ) == components(file.unresolved);
            lemma_first_same_bounds(lookup, file.unresolved);
            let first = first_same(lookup, file.unresolved);
            if first < k {
                assert(components(lookup[first].key) != components(lookup[k].key));
            } else if first > k {
                assert(components(lookup[k].key) != components(file.unresolved));
            }
        }
    }
    lemma_nothing_to_remove(components(workdir), again, lookup);
    assert(Seq::<Op>::empty() + copies(components(workdir), lookup) == copies(
        components(workdir),
        lookup,
    ));
}

/// The files that lie `depth` directories or less below the directory
/// `dir` of the tree whose directories list as `tree` says. What lies in a
/// directory in which git keeps its own files does not count, nor does the
/// marker at the root.
pub open spec fn files_within(
    tree: spec_fn(Seq<char>) -> Seq<DirEntry>,
    dir: DirView,
    sentinel: Option<Seq<char>>,
    depth: nat,
) -> Set<ResPath>
    decreases depth,
{
    if depth == 0 {
        Set::empty()
    } else {
        Set::new(
            |file: ResPath|
                found_files(dir, tree(dir.path), sentinel).contains(file) || exists|i: int|
                    0 <= i < found_dirs(dir, tree(dir.path)).len() && files_within(
                        tree,
                        #[trigger] found_dirs(dir, tree(dir.path))[i],
                        sentinel,
                        (depth - 1) as nat,
                    ).contains(file),
        )
    }
}

/// Whether `file` is a file of the tree below the directory `dir`.
pub open spec fn is_below(
    tree: spec_fn(Seq<char>) -> Seq<DirEntry>,
    dir: DirView,
    sentinel: Option<Seq<char>>,
    file: ResPath,
) -> bool {
    exists|depth: nat| #[trigger] files_within(tree, dir, sentinel, depth).contains(file)
}

/// Whether the walk has found `file` or is still to find it.
pub open spec fn covers(
    tree: spec_fn(Seq<char>) -> Seq<DirEntry>,
    walk: WalkView,
    file: ResPath,
) -> bool {
    walk.seen.contains(file) || exists|i: int|
        0 <= i < walk.pending.len() && is_below(tree, #[trigger] walk.pending[i], walk.sentinel, file)
}

/// The walk after `steps` listings of the tree, or after fewer where it was
/// over before.
pub open spec fn walked(
    tree: spec_fn(Seq<char>) -> Seq<DirEntry>,
    walk: WalkView,
    steps: nat,
) -> WalkView
    decreases steps,
{
    if steps == 0 || walk.pending.len() == 0 {
        walk
    } else {
        walked(tree, after_visit(walk, tree(walk.pending.last().path)), (steps - 1) as nat)
    }
}

/// A file lies below a directory where it is one of its files or lies below
/// one of the directories that the walk goes into from there.
pub proof fn lemma_below_unfolds(
    tree: spec_fn(Seq<char>) -> Seq<DirEntry>,
    dir: DirView,
    sentinel: Option<Seq<char>>,
    file: ResPath,
)
    ensures
        is_below(tree, dir, sentinel, file) <==> (found_files(
            dir,
            tree(dir.path),
            sentinel,
        ).contains(file) || exists|i: int|
            0 <= i < found_dirs(dir, tree(dir.path)).len() && is_below(
                tree,
                #[trigger] found_dirs(dir, tree(dir.path))[i],
                sentinel,
                file,
            )),
{
    let files = found_files(dir, tree(dir.path), sentinel);
    let dirs = found_dirs(dir, tree(dir.path));
    if is_below(tree, dir, sentinel, file) {
        let depth = choose|depth: nat| #[trigger]
            files_within(tree, dir, sentinel, depth).contains(file);
        assert(depth > 0);
        if !files.contains(file) {
            let i = choose|i: int|
                0 <= i < dirs.len() && files_within(
                    tree,
                    #[trigger] dirs[i],
                    sentinel,
                    (depth - 1) as nat,
                ).contains(file);
            assert(is_below(tree, dirs[i], sentinel, file));
        }
    }
    if files.contains(file) {
        assert(files_within(tree, dir, sentinel, 1).contains(file));
    }
    if exists|i: int| 0 <= i < dirs.len() && is_below(tree, #[trigger] dirs[i], sentinel, file) {
        let i = choose|i: int| 0 <= i < dirs.len() && is_below(tree, #[trigger] dirs[i], sentinel, file);
        let depth = choose|depth: nat| #[trigger]
            files_within(tree, dirs[i], sentinel, depth).contains(file);
        assert(files_within(tree, dir, sentinel, depth + 1).contains(file));
    }
}

/// Listing the directory that is next changes nothing about which files the
/// walk has found or is still to find.
pub proof fn lemma_visit_keeps_what_is_covered(
    tree: spec_fn(Seq<char>) -> Seq<DirEntry>,
    walk: WalkView,
    file: ResPath,
)
    requires
        walk.pending.len() > 0,
    ensures
        covers(tree, after_visit(walk, tree(walk.pending.last().path)), file) == covers(
            tree,
            walk,
            file,
        ),
{
    let dir = walk.pending.last();
    let files = found_files(dir, tree(dir.path), walk.sentinel);
    let dirs = found_dirs(dir, tree(dir.path));
    let after = after_visit(walk, tree(dir.path));
    let rest = walk.pending.drop_last();
    lemma_below_unfolds(tree, dir, walk.sentinel, file);
    if covers(tree, walk, file) {
        if walk.seen.contains(file) {
            let k = choose|k: int| 0 <= k < walk.seen.len() && walk.seen[k] == file;
            assert(after.seen[k] == file);
        } else {
            let i = choose|i: int|
                0 <= i < walk.pending.len() && is_below(
                    tree,
                    #[trigger] walk.pending[i],
                    walk.sentinel,
                    file,
                );
            if i < rest.len() {
                assert(after.pending[i] == walk.pending[i]);
            } else {
                assert(walk.pending[i] == dir);
                if files.contains(file) {
                    let k = choose|k: int| 0 <= k < files.len() && files[k] == file;
                    assert(after.seen[walk.seen.len() + k] == file);
                } else {
                    let j = choose|j: int|
                        0 <= j < dirs.len() && is_below(tree, #[trigger] dirs[j], walk.sentinel, file);
                    assert(after.pending[rest.len() + j] == dirs[j]);
                }
            }
        }
        assert(covers(tree, after, file));
    }
    if covers(tree, after, file) {
        if after.seen.contains(file) {
            let k = choose|k: int| 0 <= k < after.seen.len() && after.seen[k] == file;
            if k < walk.seen.len() {
                assert(walk.seen[k] == file);
            } else {
                assert(files[k - walk.seen.len()] == file);
                assert(files.contains(file));
                assert(is_below(tree, walk.pending[walk.pending.len() - 1], walk.sentinel, file));
            }
        } else {
            let i = choose|i: int|
                0 <= i < after.pending.len() && is_below(
                    tree,
                    #[trigger] after.pending[i],
                    walk.sentinel,
                    file,
                );
            if i < rest.len() {
                assert(walk.pending[i] == after.pending[i]);
            } else {
                assert(after.pending[i] == dirs[i - rest.len()]);
                assert(is_below(tree, dirs[i - rest.len()], walk.sentinel, file));
                assert(is_below(tree, walk.pending[walk.pending.len() - 1], walk.sentinel, file));
            }
        }
        assert(covers(tree, walk, file));
    }
}

/// However far the walk goes, the files that it has found or is still to
/// find stay the same.
pub proof fn lemma_walk_keeps_what_is_covered(
    tree: spec_fn(Seq<char>) -> Seq<DirEntry>,
    walk: WalkView,
    steps: nat,
    file: ResPath,
)
    ensures
        covers(tree, walked(tree, walk, steps), file) == covers(tree, walk, file),
    decreases steps,
{
    if steps == 0 || walk.pending.len() == 0 {
    } else {
        lemma_visit_keeps_what_is_covered(tree, walk, file);
        lemma_walk_keeps_what_is_covered(
            tree,
            after_visit(walk, tree(walk.pending.last().path)),
            (steps - 1) as nat,
            file,
        );
    }
}

/// A walk that has come to its end has found the files of the tree, all of
/// them and no others: every file below the root that lies in no directory
/// in which git keeps its own files, and is not the marker at the root.
pub proof fn lemma_walk_finds_the_tree(
    tree: spec_fn(Seq<char>) -> Seq<DirEntry>,
    root: Seq<char>,
    sentinel: Option<Seq<char>>,
    steps: nat,
)
    ensures
        ({
            let top = DirView { path: root, relative: Seq::<char>::empty() };
            let start = WalkView { pending: seq![top], seen: Seq::<ResPath>::empty(), sentinel };
            let end = walked(tree, start, steps);
            end.pending.len() == 0 ==> (forall|file: ResPath|
                #[trigger] end.seen.contains(file) <==> is_below(tree, top, sentinel, file))
        }),
{
    let top = DirView { path: root, relative: Seq::<char>::empty() };
    let start = WalkView { pending: seq![top], seen: Seq::<ResPath>::empty(), sentinel };
    let end = walked(tree, start, steps);
    lemma_walk_keeps_the_sentinel(tree, start, steps);
    if end.pending.len() == 0 {
        assert forall|file: ResPath| #[trigger]
            end.seen.contains(file) <==> is_below(tree, top, sentinel, file) by {
            lemma_walk_keeps_what_is_covered(tree, start, steps, file);
            assert(covers(tree, end, file) == end.seen.contains(file));
            if is_below(tree, top, sentinel, file) {
                assert(start.pending[0] == top);
                assert(covers(tree, start, file));
            }
            if covers(tree, start, file) {
                assert(!start.seen.contains(file));
                let i = choose|i: int|
                    0 <= i < start.pending.len() && is_below(
                        tree,
                        #[trigger] start.pending[i],
                        start.sentinel,
                        file,
                    );
                assert(start.pending[i] == top);
            }
        }
    }
}

/// The walk goes by the same marker all the way.
pub proof fn lemma_walk_keeps_the_sentinel(
    tree: spec_fn(Seq<char>) -> Seq<DirEntry>,
    walk: WalkView,
    steps: nat,
)
    ensures
        walked(tree, walk, steps).sentinel == walk.sentinel,
    decreases steps,
{
    if steps == 0 || walk.pending.len() == 0 {
    } else {
        lemma_walk_keeps_the_sentinel(
            tree,
            after_visit(walk, tree(walk.pending.last().path)),
            (steps - 1) as nat,
        );
    }
}

/// The files that are there after an operation has been carried out on the
/// files `there`: a removal takes its file away, a copy puts its target
/// there, and directories are no files.
pub open spec fn after_op(there: Set<Seq<char>>, op: Op) -> Set<Seq<char>> {
    match op {
        Op::Remove(path) => there.remove(path),
        Op::Copy(_, to) => there.insert(to),
        Op::Prune(_) => there,
        Op::MakeDirs(_) => there,
    }
}

/// The files that are there after the operations have been carried out in
/// order.
pub open spec fn after_ops(there: Set<Seq<char>>, ops: Seq<Op>) -> Set<Seq<char>>
    decreases ops.len(),
{
    if ops.len() == 0 {
        there
    } else {
        after_op(after_ops(there, ops.drop_last()), ops.last())
    }
}

/// A plan of one operation comes to that operation.
pub proof fn lemma_after_one_op(there: Set<Seq<char>>, op: Op)
    ensures
        after_ops(there, seq![op]) == after_op(there, op),
{
    reveal_with_fuel(after_ops, 2);
    assert(seq![op].drop_last() == Seq::<Op>::empty());
}

/// Carrying out two plans one after the other is carrying out the one that
/// joins them.
pub proof fn lemma_after_joined_ops(there: Set<Seq<char>>, first: Seq<Op>, second: Seq<Op>)
    ensures
        after_ops(there, first + second) == after_ops(after_ops(there, first), second),
    decreases second.len(),
{
    if second.len() == 0 {
        assert(first + second == first);
    } else {
        lemma_after_joined_ops(there, first, second.drop_last());
        assert((first + second).drop_last() == first + second.drop_last());
        assert((first + second).last() == second.last());
    }
}

/// Pruning takes no file away.
pub proof fn lemma_after_prunes(there: Set<Seq<char>>, root: Seq<Part>, rel: Seq<Part>)
    ensures
        after_ops(there, prunes(root, rel)) == there,
    decreases rel.len(),
{
    if rel.len() > 1 {
        let first = seq![Op::Prune(render(root + rel.drop_last()))];
        lemma_after_prunes(there, root, rel.drop_last());
        lemma_after_joined_ops(there, first, prunes(root, rel.drop_last()));
        lemma_after_one_op(there, Op::Prune(render(root + rel.drop_last())));
    }
}

/// Whether staging removes the file at `path`: whether it is one of the
/// files of the tree and not in the package set.
pub open spec fn is_removed(files: Seq<ResPath>, lookup: Seq<Declared>, path: Seq<char>) -> bool {
    exists|i: int|
        0 <= i < files.len() && (#[trigger] files[i]).resolved == path && !in_package_set(
            lookup,
            files[i].unresolved,
        )
}

/// Whether staging copies a file to `path`: whether `path` is the place in
/// the tree of a declared path that resolves.
pub open spec fn is_copied(root: Seq<Part>, lookup: Seq<Declared>, path: Seq<char>) -> bool {
    exists|k: int|
        0 <= k < lookup.len() && (#[trigger] lookup[k]).found is Some && tree_place(
            root,
            lookup[k].key,
        ) == path
}

/// After the removals of staging, the files that staging removes are gone,
/// and no others.
pub proof fn lemma_after_removals(
    there: Set<Seq<char>>,
    root: Seq<Part>,
    files: Seq<ResPath>,
    lookup: Seq<Declared>,
)
    ensures
        forall|path: Seq<char>|
            #[trigger] after_ops(there, removals(root, files, lookup)).contains(path) <==> (
            there.contains(path) && !is_removed(files, lookup, path)),
    decreases files.len(),
{
    if files.len() == 0 {
    } else {
        let rest = files.drop_last();
        let file = files.last();
        lemma_after_removals(there, root, rest, lookup);
        let before = after_ops(there, removals(root, rest, lookup));
        lemma_after_joined_ops(there, removals(root, rest, lookup), removal_ops(root, file, lookup));
        let after = after_ops(before, removal_ops(root, file, lookup));
        if !in_package_set(lookup, file.unresolved) {
            let first = seq![Op::Remove(file.resolved)];
            lemma_after_joined_ops(before, first, prunes(root, components(file.unresolved)));
            lemma_after_prunes(after_ops(before, first), root, components(file.unresolved));
            lemma_after_one_op(before, Op::Remove(file.resolved));
            assert(after == before.remove(file.resolved));
        } else {
            assert(after == before);
        }
        assert forall|path: Seq<char>| #[trigger] after.contains(path) <==> (there.contains(path)
            && !is_removed(files, lookup, path)) by {
            if is_removed(files, lookup, path) {
                let i = choose|i: int|
                    0 <= i < files.len() && (#[trigger] files[i]).resolved == path
                        && !in_package_set(lookup, files[i].unresolved);
                if i < rest.len() {
                    assert(rest[i] == files[i]);
                    assert(is_removed(rest, lookup, path));
                }
            }
            if is_removed(rest, lookup, path) {
                let i = choose|i: int|
                    0 <= i < rest.len() && (#[trigger] rest[i]).resolved == path
                        && !in_package_set(lookup, rest[i].unresolved);
                assert(files[i] == rest[i]);
            }
            if !in_package_set(lookup, file.unresolved) && file.resolved == path {
                assert(files[files.len() - 1] == file);
            }
        }
    }
}

/// After the copies of staging, the files that staging copies into the tree
/// are there, besides those that were there.
pub proof fn lemma_after_copies(there: Set<Seq<char>>, root: Seq<Part>, lookup: Seq<Declared>)
    ensures
        forall|path: Seq<char>|
            #[trigger] after_ops(there, copies(root, lookup)).contains(path) <==> (there.contains(
                path,
            ) || is_copied(root, lookup, path)),
    decreases lookup.len(),
{
    if lookup.len() == 0 {
    } else {
        let rest = lookup.drop_last();
        let entry = lookup.last();
        lemma_after_copies(there, root, rest);
        let before = after_ops(there, copies(root, rest));
        lemma_after_joined_ops(there, copies(root, rest), copy_ops(root, entry));
        let after = after_ops(before, copy_ops(root, entry));
        match entry.found {
            None => {
                assert(after == before);
            },
            Some(p) => {
                let dest = push_path(root, entry.key);
                let last = seq![Op::Copy(p.resolved, render(dest))];
                lemma_after_joined_ops(before, make_parent(dest), last);
                lemma_after_one_op(before, Op::Copy(p.resolved, render(dest)));
                assert(after_ops(before, make_parent(dest)) == before) by {
                    if pop(dest) is Some {
                        lemma_after_one_op(before, Op::MakeDirs(render(pop(dest)->0)));
                    }
                }
                assert(after == before.insert(render(dest)));
            },
        }
        assert forall|path: Seq<char>| #[trigger] after.contains(path) <==> (there.contains(path)
            || is_copied(root, lookup, path)) by {
            if is_copied(root, lookup, path) {
                let k = choose|k: int|
                    0 <= k < lookup.len() && (#[trigger] lookup[k]).found is Some && tree_place(
                        root,
                        lookup[k].key,
                    ) == path;
                if k < rest.len() {
                    assert(rest[k] == lookup[k]);
                    assert(is_copied(root, rest, path));
                }
            }
            if is_copied(root, rest, path) {
                let k = choose|k: int|
                    0 <= k < rest.len() && (#[trigger] rest[k]).found is Some && tree_place(
                        root,
                        rest[k].key,
                    ) == path;
                assert(lookup[k] == rest[k]);
            }
            if entry.found is Some && tree_place(root, entry.key) == path {
                assert(lookup[lookup.len() - 1] == entry);
            }
        }
    }
}

/// Staging makes the working tree a mirror of the package set: once the
/// plan has been carried out, the files that are there are those that were
/// there and are in the package set, and those that the declared paths that
/// resolve were copied to.
pub proof fn lemma_stage_makes_a_mirror(
    there: Set<Seq<char>>,
    workdir: Seq<char>,
    files: Seq<ResPath>,
    lookup: Seq<Declared>,
)
    ensures
        forall|path: Seq<char>|
            #[trigger] after_ops(there, stage_plan(workdir, files, lookup)).contains(path) <==> ((
            there.contains(path) && !is_removed(files, lookup, path)) || is_copied(
                components(workdir),
                lookup,
                path,
            )),
{
    let root = components(workdir);
    lemma_after_joined_ops(there, removals(root, files, lookup), copies(root, lookup));
    lemma_after_removals(there, root, files, lookup);
    lemma_after_copies(after_ops(there, removals(root, files, lookup)), root, lookup);
}

} // verus!
