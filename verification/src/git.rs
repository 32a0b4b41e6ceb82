//! Keeping the local repository and its remote in step.
//!
//! The repository itself is out of reach of this library. What stands here
//! is what is decided about it: a step takes where the work stands and what
//! the last operation on the repository came to, and answers with the
//! operation to carry out next.

use vstd::prelude::*;
use vstd::seq_lib::seq_to_set_is_finite;
use vstd::set_lib::{lemma_int_range, lemma_len_subset, lemma_map_size, set_int_range};
use crate::config::{PathConfig, Remote, User};
use crate::copy::DirEntry;
use crate::io::{ErrorKind, IoError};
use crate::path::{answer_view, resolution, resolve, Failure, ResPath, ResPathBuf};
use crate::text::{
    decimal, decimal_of, is_taken, lemma_decimal_injective, lemma_decimal_value, same_text, taken,
    text_of, texts,
};
use crate::vars::{Env, VarError};

verus! {

/// What kind of failure the git layer reports.
#[derive(Clone, Copy, Debug, PartialEq, Eq, Structural)]
pub enum ErrorCode {
    GenericError,
    NotFound,
    Exists,
    Ambiguous,
    BufSize,
    User,
    BareRepo,
    UnbornBranch,
    Unmerged,
    NotFastForward,
    InvalidSpec,
    Conflict,
    Locked,
    Modified,
    Auth,
    Certificate,
    Applied,
    Peel,
    Eof,
    Invalid,
    Uncommitted,
    Directory,
    MergeConflict,
    HashsumMismatch,
    IndexDirty,
    ApplyFail,
}

/// Which part of the git layer reports a failure.
#[derive(Clone, Copy, Debug, PartialEq, Eq, Structural)]
pub enum ErrorClass {
    Uncategorized,
    NoMemory,
    Os,
    Invalid,
    Reference,
    Zlib,
    Repository,
    Config,
    Regex,
    Odb,
    Index,
    Object,
    Net,
    Tag,
    Tree,
    Indexer,
    Ssl,
    Submodule,
    Thread,
    Stash,
    Checkout,
    FetchHead,
    Merge,
    Ssh,
    Filter,
    Revert,
    Callback,
    CherryPick,
    Describe,
    Rebase,
    Filesystem,
    Patch,
    Worktree,
    Sha1,
    Http,
}

/// A failure of the git layer, with its code and class as they were given.
#[derive(Debug)]
pub struct GitError {
    pub code: ErrorCode,
    pub class: ErrorClass,
    pub message: String,
}

impl Clone for GitError {
    fn clone(&self) -> (e: GitError)
        ensures
            e.code == self.code,
            e.class == self.class,
            e.message@ == self.message@,
    {
        GitError { code: self.code, class: self.class, message: self.message.clone() }
    }
}

/// Why the repositories could not be brought in step, in the model.
pub enum Trouble {
    Git(ErrorCode, ErrorClass, Seq<char>),
    Io(ErrorKind, Seq<char>),
    BareRepo,
    NotHomesyncRepo,
    Var(VarError),
}

/// Why the repositories could not be brought in step.
#[derive(Debug)]
pub enum Error {
    GitError(GitError),
    IOError(IoError),
    /// The work needs a working tree, and the repository has none.
    InvalidBareRepo,
    /// The marker that tells a managed repository is expected and missing.
    NotHomesyncRepo,
    VarError(VarError),
}

impl View for Error {
    type V = Trouble;

    open spec fn view(&self) -> Trouble {
        match self {
            Error::GitError(e) => Trouble::Git(e.code, e.class, e.message@),
            Error::IOError(e) => Trouble::Io(e.kind, e.message@),
            Error::InvalidBareRepo => Trouble::BareRepo,
            Error::NotHomesyncRepo => Trouble::NotHomesyncRepo,
            Error::VarError(e) => Trouble::Var(*e),
        }
    }
}

/// The trouble that a failure of path resolution amounts to.
pub open spec fn trouble_of(f: Failure) -> Trouble {
    match f {
        Failure::Io(kind, text) => Trouble::Io(kind, text),
        Failure::Var(e) => Trouble::Var(e),
    }
}

/// The trouble that a failure of the git layer amounts to.
pub open spec fn git_trouble(e: GitError) -> Trouble {
    Trouble::Git(e.code, e.class, e.message@)
}

/// How a trouble reads.
pub open spec fn trouble_text(t: Trouble) -> Seq<char> {
    match t {
        Trouble::Git(_, _, text) => text,
        Trouble::Io(_, text) => text,
        Trouble::BareRepo => "Local repository should be a working directory. "@
            + "Did you manually initialize with `--bare`?"@,
        Trouble::NotHomesyncRepo => "Local repository is not managed by homesync."@,
        Trouble::Var(VarError::NotPresent) => "environment variable not found"@,
        Trouble::Var(VarError::NotUnicode) => "environment variable was not valid unicode"@,
    }
}

impl Clone for Error {
    fn clone(&self) -> (e: Error)
        ensures
            e@ == self@,
    {
        match self {
            Error::GitError(e) => Error::GitError(e.clone()),
            Error::IOError(e) => Error::IOError(e.clone()),
            Error::InvalidBareRepo => Error::InvalidBareRepo,
            Error::NotHomesyncRepo => Error::NotHomesyncRepo,
            Error::VarError(e) => Error::VarError(*e),
        }
    }
}

impl Error {
    /// Takes a failure of path resolution over as it is.
    pub fn from_path(err: crate::path::Error) -> (e: Error)
        ensures
            e@ == trouble_of(err@),
    {
        match err {
            crate::path::Error::IOError(e) => Error::IOError(e),
            crate::path::Error::VarError(e) => Error::VarError(e),
        }
    }

    /// The failure in words.
    pub fn message(&self) -> (text: String)
        ensures
            text@ == trouble_text(self@),
    {
        match self {
            Error::GitError(e) => e.message.clone(),
            Error::IOError(e) => e.message.clone(),
            Error::InvalidBareRepo => {
                let mut text = "Local repository should be a working directory. ".to_owned();
                text.append("Did you manually initialize with `--bare`?");
                text
            },
            Error::NotHomesyncRepo => "Local repository is not managed by homesync.".to_owned(),
            Error::VarError(VarError::NotPresent) => "environment variable not found".to_owned(),
            Error::VarError(VarError::NotUnicode) =>
                "environment variable was not valid unicode".to_owned(),
        }
    }
}

/// The working tree of the repository; a repository without one is refused.
pub fn check_working_repo(workdir: Option<&str>) -> (r: Result<String, Error>)
    ensures
        match workdir {
            Some(path) => r matches Ok(found) && found@ == path@,
            None => r matches Err(e) && e@ == Trouble::BareRepo,
        },
{
    match workdir {
        Some(path) => Ok(path.to_owned()),
        None => Err(Error::InvalidBareRepo),
    }
}

/// Whether a file called `name` is among the entries.
pub open spec fn has_file(entries: Seq<DirEntry>, name: Seq<char>) -> bool {
    exists|i: int|
        0 <= i < entries.len() && !(#[trigger] entries[i]).is_dir && entries[i].name@ == name
}

/// Refuses a repository that is expected to hold the marker of a managed
/// repository and does not.
///
/// `entries` is the listing of the root of the working tree and `sentinel`
/// the name of the marker file, where one is expected. What the marker holds
/// is of no interest.
pub fn check_sentinel(entries: &Vec<DirEntry>, sentinel: Option<&str>) -> (r: Result<(), Error>)
    ensures
        match sentinel {
            Some(name) => if has_file(entries@, name@) {
                r is Ok
            } else {
                r matches Err(e) && e@ == Trouble::NotHomesyncRepo
            },
            None => r is Ok,
        },
{
    let name = match sentinel {
        Some(name) => name,
        None => {
            return Ok(());
        },
    };
    let mut i: usize = 0;
    while i < entries.len()
        invariant
            i <= entries.len(),
            sentinel == Some(name),
            forall|k: int|
                0 <= k < i ==> !(!(#[trigger] entries@[k]).is_dir && entries@[k].name@ == name@),
        decreases entries.len() - i,
    {
        if !entries[i].is_dir && same_text(entries[i].name.as_str(), name) {
            assert(!entries@[i as int].is_dir && entries@[i as int].name@ == name@);
            return Ok(());
        }
        i = i + 1;
    }
    Err(Error::NotHomesyncRepo)
}

/// The commit that HEAD stands on, where `head` is what following HEAD down
/// to a commit came to. A HEAD that cannot be followed, as on a branch
/// without commits, counts as no commit and is no failure.
pub fn get_commit_at_head(head: &Result<String, GitError>) -> (commit: Option<String>)
    ensures
        match head {
            Ok(id) => commit matches Some(found) && found@ == id@,
            Err(_) => commit is None,
        },
{
    match head {
        Ok(id) => Some(id.clone()),
        Err(_) => None,
    }
}

/// The keys that open the remote, in the model.
pub struct KeysView {
    pub public: Option<ResPath>,
    pub private: ResPath,
}

/// The keys that open the remote, each resolved to its file.
#[derive(Debug)]
pub struct Keys {
    pub public: Option<ResPathBuf>,
    pub private: ResPathBuf,
}

impl View for Keys {
    type V = KeysView;

    open spec fn view(&self) -> KeysView {
        KeysView {
            public: match self.public {
                Some(p) => Some(p@),
                None => None,
            },
            private: self.private@,
        }
    }
}

/// The keys of a configuration: the public key, where one is named, has to
/// resolve, and then the private key has to.
pub open spec fn keys_of(
    public: Option<Seq<char>>,
    private: Seq<char>,
    cwd: Seq<char>,
    env: Map<Seq<char>, Option<Seq<char>>>,
    public_answer: Result<Seq<char>, (ErrorKind, Seq<char>)>,
    private_answer: Result<Seq<char>, (ErrorKind, Seq<char>)>,
) -> Result<KeysView, Trouble> {
    match public {
        Some(path) => match resolution(path, cwd, env, public_answer) {
            Err(f) => Err(trouble_of(f)),
            Ok(found) => match resolution(private, cwd, env, private_answer) {
                Err(f) => Err(trouble_of(f)),
                Ok(key) => Ok(KeysView { public: Some(found), private: key }),
            },
        },
        None => match resolution(private, cwd, env, private_answer) {
            Err(f) => Err(trouble_of(f)),
            Ok(key) => Ok(KeysView { public: None, private: key }),
        },
    }
}

/// Whether keys of the library stand for keys of the model.
pub open spec fn keys_result(r: Result<Keys, Error>, model: Result<KeysView, Trouble>) -> bool {
    match model {
        Ok(keys) => r matches Ok(found) && found@ == keys,
        Err(t) => r matches Err(e) && e@ == t,
    }
}

/// Finds the key files with which the remote is opened.
///
/// `public` and `private` are the file system's answers for the canonical
/// forms of the expanded paths of the two keys. The answer for the public
/// key is not read where `pc` names none.
pub fn get_remote_callbacks(
    pc: &PathConfig,
    cwd: &str,
    env: &Env,
    public: &Result<String, IoError>,
    private: &Result<String, IoError>,
) -> (r: Result<Keys, Error>)
    ensures
        keys_result(
            r,
            keys_of(
                text_of(pc.config.ssh.public),
                pc.config.ssh.private@,
                cwd@,
                env@,
                answer_view(*public),
                answer_view(*private),
            ),
        ),
{
    let public_path = match &pc.config.ssh.public {
        Some(path) => match resolve(path.as_str(), cwd, env, public) {
            Ok(found) => Some(found),
            Err(e) => {
                return Err(Error::from_path(e));
            },
        },
        None => None,
    };
    match resolve(pc.config.ssh.private.as_str(), cwd, env, private) {
        Ok(key) => Ok(Keys { public: public_path, private: key }),
        Err(e) => Err(Error::from_path(e)),
    }
}

/// The full name of the branch called `branch`.
pub open spec fn branch_ref(branch: Seq<char>) -> Seq<char> {
    "refs/heads/"@ + branch
}

/// The full name of the branch called `branch`.
pub fn branch_refspec(branch: &str) -> (name: String)
    ensures
        name@ == branch_ref(branch@),
{
    let mut name = "refs/heads/".to_owned();
    name.append(branch);
    name
}

/// The rule by which the branch `branch` of the remote is fetched into the
/// reference that tracks it.
pub open spec fn fetch_rule(branch: Seq<char>, tracking: Seq<char>) -> Seq<char> {
    "+refs/heads/"@ + branch + ":refs/remotes/"@ + tracking
}

/// The rule by which the branch `branch` of the remote is fetched into the
/// reference that tracks it.
pub fn fetch_refspec(branch: &str, tracking: &str) -> (rule: String)
    ensures
        rule@ == fetch_rule(branch@, tracking@),
{
    let mut rule = "+refs/heads/".to_owned();
    rule.append(branch);
    rule.append(":refs/remotes/");
    rule.append(tracking);
    rule
}

/// The rule by which the branch `branch` is pushed to the branch of the
/// same name on the remote.
pub open spec fn push_rule(branch: Seq<char>) -> Seq<char> {
    branch_ref(branch) + seq![':'] + branch_ref(branch)
}

/// The rule by which the branch `branch` is pushed to the branch of the
/// same name on the remote.
pub fn push_refspec(branch: &str) -> (rule: String)
    ensures
        rule@ == push_rule(branch@),
{
    proof {
        reveal_strlit(":");
    }
    let mut rule = branch_refspec(branch);
    rule.append(":");
    rule.append(branch_refspec(branch).as_str());
    rule
}

/// How the working tree and the index differ from what is committed.
#[derive(Clone, Copy, Debug, PartialEq, Eq, Structural)]
pub enum Changes {
    /// HEAD stands on a commit; the counts compare the working tree, with
    /// everything in it added to the index, to the tree of that commit.
    AgainstHead { files_changed: usize, insertions: usize, deletions: usize },
    /// HEAD stands on no commit yet; all that is known is whether the
    /// index, with everything added, holds anything.
    Unborn { index_empty: bool },
}

/// Whether there is anything to commit.
pub open spec fn has_changes(changes: Changes) -> bool {
    match changes {
        Changes::AgainstHead { files_changed, insertions, deletions } => files_changed != 0
            || insertions != 0 || deletions != 0,
        Changes::Unborn { index_empty } => !index_empty,
    }
}

/// Whether HEAD stands on a commit.
pub open spec fn has_head(changes: Changes) -> bool {
    changes is AgainstHead
}

/// Decides whether the index, with every file of the working tree added, is
/// worth a commit: answers the changes where there are any, and nothing
/// where the tree holds no more than what is committed.
pub fn index_with_all(changes: Changes) -> (index: Option<Changes>)
    ensures
        index == if has_changes(changes) {
            Some(changes)
        } else {
            None
        },
{
    let has_diff = match changes {
        Changes::AgainstHead { files_changed, insertions, deletions } => files_changed != 0
            || insertions != 0 || deletions != 0,
        Changes::Unborn { index_empty } => !index_empty,
    };
    if has_diff {
        Some(changes)
    } else {
        None
    }
}

/// The position of the first of `stashes` that is the stash `id`; the
/// length of the list where it is not among them.
pub open spec fn stash_position(stashes: Seq<Seq<char>>, id: Seq<char>) -> int
    decreases stashes.len(),
{
    if stashes.len() == 0 || stashes[0] == id {
        0
    } else {
        1 + stash_position(stashes.drop_first(), id)
    }
}

proof fn lemma_stash_position(stashes: Seq<Seq<char>>, id: Seq<char>, i: int)
    requires
        0 <= i <= stashes.len(),
        forall|j: int| 0 <= j < i ==> stashes[j] != id,
    ensures
        stash_position(stashes, id) == i + stash_position(stashes.skip(i), id),
    decreases i,
{
    if i == 0 {
        assert(stashes.skip(0) == stashes);
    } else {
        lemma_stash_position(stashes.drop_first(), id, i - 1);
        assert(stashes.drop_first().skip(i - 1) == stashes.skip(i));
    }
}

/// Finds the stash `id` among `stashes`, which are listed from the top of
/// the stack down: the stash is told by its id, not by where it was put.
pub fn find_stash(stashes: &Vec<String>, id: &str) -> (index: Option<usize>)
    ensures
        match index {
            Some(i) => i == stash_position(texts(stashes@), id@) && i < stashes@.len(),
            None => stash_position(texts(stashes@), id@) == stashes@.len(),
        },
{
    let ghost all = texts(stashes@);
    let mut i: usize = 0;
    while i < stashes.len()
        invariant
            i <= stashes.len(),
            all == texts(stashes@),
            forall|j: int| 0 <= j < i ==> all[j] != id@,
        decreases stashes.len() - i,
    {
        proof {
            lemma_stash_position(all, id@, i as int);
            assert(all.skip(i as int)[0] == all[i as int]);
        }
        if same_text(stashes[i].as_str(), id) {
            return Some(i);
        }
        i = i + 1;
    }
    proof {
        lemma_stash_position(all, id@, i as int);
        assert(all.skip(i as int).len() == 0);
    }
    None
}

/// The `k`-th name to try for the branch that saves what the tree held:
/// the branch's name and `-tmp`, then the same with `-1`, `-2` and so on
/// behind it.
pub open spec fn candidate(branch: Seq<char>, k: nat) -> Seq<char> {
    if k == 0 {
        branch + "-tmp"@
    } else {
        branch + "-tmp-"@ + decimal(k)
    }
}

/// Whether the `k`-th name is free and every one before it is taken.
pub open spec fn is_first_free(branch: Seq<char>, names: Seq<Seq<char>>, k: nat) -> bool {
    &&& !taken(names, candidate(branch, k))
    &&& forall|j: nat| j < k ==> taken(names, #[trigger] candidate(branch, j))
}

/// Different numbers give different names.
pub proof fn lemma_candidate_injective(branch: Seq<char>, a: nat, b: nat)
    requires
        candidate(branch, a) == candidate(branch, b),
    ensures
        a == b,
{
    reveal_strlit("-tmp");
    reveal_strlit("-tmp-");
    lemma_decimal_value(a);
    lemma_decimal_value(b);
    if a == 0 && b == 0 {
    } else if a == 0 || b == 0 {
        assert("-tmp"@.len() == 4);
        assert("-tmp-"@.len() == 5);
        assert((branch + "-tmp"@).len() == branch.len() + 4);
        if a == 0 {
            assert(candidate(branch, b).len() == branch.len() + 5 + decimal(b).len());
        } else {
            assert(candidate(branch, a).len() == branch.len() + 5 + decimal(a).len());
        }
        assert(candidate(branch, a).len() != candidate(branch, b).len());
    } else {
        let prefix = branch + "-tmp-"@;
        assert((prefix + decimal(a)).skip(prefix.len() as int) == decimal(a));
        assert((prefix + decimal(b)).skip(prefix.len() as int) == decimal(b));
        lemma_decimal_injective(a, b);
    }
}

/// Not more names can be taken than there are names.
pub proof fn lemma_taken_names_are_few(branch: Seq<char>, names: Seq<Seq<char>>, n: nat)
    requires
        forall|j: nat| j < n ==> taken(names, #[trigger] candidate(branch, j)),
    ensures
        n <= names.len(),
{
    let f = |j: int| candidate(branch, j as nat);
    let x = set_int_range(0, n as int);
    let y = x.map(f);
    lemma_int_range(0, n as int);
    assert(vstd::relations::injective_on(f, x)) by {
        assert forall|a: int, b: int| x.contains(a) && x.contains(b) && #[trigger] f(a)
            == #[trigger] f(b) implies a == b by {
            lemma_candidate_injective(branch, a as nat, b as nat);
        }
    }
    lemma_map_size(x, y, f);
    seq_to_set_is_finite(names);
    assert(y.subset_of(names.to_set())) by {
        assert forall|name: Seq<char>| y.contains(name) implies names.to_set().contains(name) by {
            let j = choose|j: int| x.contains(j) && f(j) == name;
            assert(taken(names, candidate(branch, j as nat)));
            let i = choose|i: int| 0 <= i < names.len() && names[i] == name;
            assert(names.contains(names[i]));
        }
    }
    lemma_len_subset(y, names.to_set());
    names.lemma_cardinality_of_set();
}

/// The first of the candidate names that is none of `names`.
pub open spec fn temporary_name(branch: Seq<char>, names: Seq<Seq<char>>) -> Seq<char> {
    candidate(branch, choose|k: nat| is_first_free(branch, names, k))
}

/// Only one candidate is the first free one.
pub proof fn lemma_first_free_is_unique(branch: Seq<char>, names: Seq<Seq<char>>, a: nat, b: nat)
    requires
        is_first_free(branch, names, a),
        is_first_free(branch, names, b),
    ensures
        a == b,
{
    if a < b {
        assert(taken(names, candidate(branch, a)));
    } else if b < a {
        assert(taken(names, candidate(branch, b)));
    }
}

/// Picks the name of the branch that saves what the tree held before the
/// remote's history is adopted: the first of the candidate names that no
/// local branch has yet.
pub fn temporary_branch_name(branch: &str, names: &Vec<String>) -> (name: String)
    ensures
        name@ == temporary_name(branch@, texts(names@)),
        !taken(texts(names@), name@),
        exists|k: nat| name@ == candidate(branch@, k) && is_first_free(branch@, texts(names@), k),
{
    let mut count: usize = 0;
    let mut temp = branch.to_owned();
    temp.append("-tmp");
    while is_taken(names, temp.as_str())
        invariant
            count <= names.len(),
            temp@ == candidate(branch@, count as nat),
            forall|j: nat| j < count ==> taken(texts(names@), #[trigger] candidate(branch@, j)),
        decreases names.len() - count,
    {
        proof {
            assert forall|j: nat| j < count + 1 implies taken(
                texts(names@),
                #[trigger] candidate(branch@, j),
            ) by {
                if j == count {
                }
            }
            lemma_taken_names_are_few(branch@, texts(names@), (count + 1) as nat);
        }
        count = count + 1;
        temp = branch.to_owned();
        temp.append("-tmp-");
        temp.append(decimal_of(count as u64).as_str());
    }
    assert(is_first_free(branch@, texts(names@), count as nat));
    proof {
        let k = choose|k: nat| is_first_free(branch@, texts(names@), k);
        lemma_first_free_is_unique(branch@, texts(names@), k, count as nat);
    }
    temp
}

/// How a run of operations on the repository ended.
#[derive(Clone, Copy, Debug, PartialEq, Eq, Structural)]
pub enum Outcome {
    /// The local repository was there and has been opened.
    Opened,
    /// The remote repository has been cloned to the local path.
    Cloned,
    /// A fresh, empty repository has been made at the local path.
    Created,
    /// The local branch holds what the remote branch holds.
    Pulled,
    /// As `Pulled`, but the changes that were stashed away beforehand were
    /// no longer among the stashes and have not been put back.
    PulledWithoutStash,
    /// The working tree holds nothing that is not committed.
    NothingToPush,
    /// The local branch has been published to the remote.
    Pushed,
}

/// What the caller is to do next, in the model.
pub enum ActionView {
    Open { path: Seq<char> },
    Clone { url: Seq<char>, into: Seq<char> },
    Create { path: Seq<char> },
    CheckWorkdir,
    FindBranch { name: Seq<char> },
    Stash { name: Seq<char>, email: Seq<char>, message: Seq<char>, include_untracked: bool },
    ConfigureRemote { name: Seq<char>, url: Seq<char>, refspec: Seq<char> },
    Fetch { remote: Seq<char>, branch: Seq<char> },
    Rebase { branch: Seq<char>, onto: Seq<char>, name: Seq<char>, email: Seq<char> },
    ListStashes,
    ApplyStash { index: int, ours: bool },
    IndexAll,
    ListBranches,
    Commit {
        update_ref: Seq<char>,
        message: Seq<char>,
        on_head: bool,
        write_index: bool,
        name: Seq<char>,
        email: Seq<char>,
    },
    CreateBranch { name: Seq<char>, from: Seq<char> },
    SetHead { name: Seq<char> },
    Publish { remote: Seq<char>, refspec: Seq<char> },
    Done(Outcome),
    Fail(Trouble),
}

/// What the caller is to do next. Every operation is one on the repository
/// at hand; its outcome is handed to the next step.
#[derive(Debug)]
pub enum Action {
    /// Open the repository at `path`.
    Open { path: String },
    /// Clone the repository at `url` into `into`, with the keys.
    Clone { url: String, into: String },
    /// Make a fresh repository at `path`.
    Create { path: String },
    /// Tell whether the repository has a working tree.
    CheckWorkdir,
    /// Tell whether there is a local branch called `name`.
    FindBranch { name: String },
    /// Stash the changes of the working tree away, signed by `name` and
    /// `email`; where `include_untracked` says so, files that git does not
    /// track yet are stashed away with them.
    Stash { name: String, email: String, message: String, include_untracked: bool },
    /// Set the address of the remote `name` to `url`, and add `refspec` to
    /// what is fetched from it.
    ConfigureRemote { name: String, url: String, refspec: String },
    /// Fetch `branch` from `remote`, with the keys.
    Fetch { remote: String, branch: String },
    /// Rebase the local branch `branch` onto the remote branch `onto`.
    Rebase { branch: String, onto: String, name: String, email: String },
    /// List the ids of the stashes, from the top of the stack down.
    ListStashes,
    /// Apply the stash at `index`. Where `ours` says so and a stashed file
    /// clashes with the working tree, the file of the working tree stays.
    ApplyStash { index: usize, ours: bool },
    /// Add every file of the working tree to the index, and tell how that
    /// differs from what is committed.
    IndexAll,
    /// List the names of the local branches.
    ListBranches,
    /// Write the index as a tree and commit it to `update_ref`, on top of
    /// the commit at HEAD where `on_head` says so and on nothing otherwise.
    /// Where `write_index` says so the index is written to disk as well.
    Commit {
        update_ref: String,
        message: String,
        on_head: bool,
        write_index: bool,
        name: String,
        email: String,
    },
    /// Make the local branch `name` where the remote branch `from` stands,
    /// without force.
    CreateBranch { name: String, from: String },
    /// Point HEAD at `name`.
    SetHead { name: String },
    /// Connect to `remote` with the keys and push `refspec`.
    Publish { remote: String, refspec: String },
    /// Nothing: the run is over.
    Done(Outcome),
    /// Nothing: the run has failed.
    Fail(Error),
}

impl View for Action {
    type V = ActionView;

    open spec fn view(&self) -> ActionView {
        match self {
            Action::Open { path } => ActionView::Open { path: path@ },
            Action::Clone { url, into } => ActionView::Clone { url: url@, into: into@ },
            Action::Create { path } => ActionView::Create { path: path@ },
            Action::CheckWorkdir => ActionView::CheckWorkdir,
            Action::FindBranch { name } => ActionView::FindBranch { name: name@ },
            Action::Stash { name, email, message, include_untracked } => ActionView::Stash {
                name: name@,
                email: email@,
                message: message@,
                include_untracked: *include_untracked,
            },
            Action::ConfigureRemote { name, url, refspec } => ActionView::ConfigureRemote {
                name: name@,
                url: url@,
                refspec: refspec@,
            },
            Action::Fetch { remote, branch } => ActionView::Fetch {
                remote: remote@,
                branch: branch@,
            },
            Action::Rebase { branch, onto, name, email } => ActionView::Rebase {
                branch: branch@,
                onto: onto@,
                name: name@,
                email: email@,
            },
            Action::ListStashes => ActionView::ListStashes,
            Action::ApplyStash { index, ours } => ActionView::ApplyStash {
                index: *index as int,
                ours: *ours,
            },
            Action::IndexAll => ActionView::IndexAll,
            Action::ListBranches => ActionView::ListBranches,
            Action::Commit { update_ref, message, on_head, write_index, name, email } =>
                ActionView::Commit {
                update_ref: update_ref@,
                message: message@,
                on_head: *on_head,
                write_index: *write_index,
                name: name@,
                email: email@,
            },
            Action::CreateBranch { name, from } => ActionView::CreateBranch {
                name: name@,
                from: from@,
            },
            Action::SetHead { name } => ActionView::SetHead { name: name@ },
            Action::Publish { remote, refspec } => ActionView::Publish {
                remote: remote@,
                refspec: refspec@,
            },
            Action::Done(outcome) => ActionView::Done(*outcome),
            Action::Fail(e) => ActionView::Fail(e@),
        }
    }
}

/// What the last operation came to.
#[derive(Debug)]
pub enum Event {
    /// Nothing has been done yet.
    Start,
    /// An operation that gives nothing back has ended.
    Finished(Result<(), GitError>),
    /// A question has been answered with yes or no.
    Flag(bool),
    /// An operation has given back the id of what it made.
    Id(Result<String, GitError>),
    /// An operation has given back a list of names or ids.
    Names(Result<Vec<String>, GitError>),
    /// The index has been compared with what is committed.
    Index(Result<Changes, GitError>),
}

/// The failure of an answer that does not fit the operation asked for.
pub open spec fn unexpected() -> Trouble {
    Trouble::Io(ErrorKind::InvalidInput, "Unexpected answer from the repository."@)
}

/// The failure of an answer that does not fit the operation asked for.
fn unexpected_answer() -> (e: Error)
    ensures
        e@ == unexpected(),
{
    Error::IOError(IoError::new(ErrorKind::InvalidInput, "Unexpected answer from the repository."))
}

/// Where the acquiring of the local repository stands.
#[derive(Clone, Copy, Debug, PartialEq, Eq, Structural)]
pub enum InitPhase {
    Start,
    Opening,
    Cloning,
    Creating,
    Done,
    Failed,
}

/// Where the acquiring of the local repository stands, and the expanded
/// path of the repository once it is known.
#[derive(Debug)]
pub struct InitState {
    pub phase: InitPhase,
    pub path: String,
}

impl View for InitState {
    type V = (InitPhase, Seq<char>);

    open spec fn view(&self) -> (InitPhase, Seq<char>) {
        (self.phase, self.path@)
    }
}

impl InitState {
    /// Before anything has been done.
    pub fn new() -> (state: InitState)
        ensures
            state@ == (InitPhase::Start, Seq::<char>::empty()),
    {
        InitState { phase: InitPhase::Start, path: String::new() }
    }
}

/// Whether a failed clone lets a fresh repository be made in its place:
/// where the remote refused the keys or has no such repository. Over SSH
/// both show as a connection that the other side closed early.
pub open spec fn falls_back(e: GitError) -> bool {
    e.code == ErrorCode::Auth || e.code == ErrorCode::NotFound || (e.class == ErrorClass::Ssh
        && e.code == ErrorCode::Eof)
}

/// Where a failure leaves the acquiring of the repository.
pub open spec fn init_failed(path: Seq<char>, t: Trouble) -> ((InitPhase, Seq<char>), ActionView) {
    ((InitPhase::Failed, path), ActionView::Fail(t))
}

/// The next step in acquiring the local repository.
///
/// The repository at the configured local path is opened. Where none is
/// found there the remote is cloned to that path, and where the clone fails
/// because the remote refuses the keys or has no such repository, a fresh
/// repository is made. Every other failure ends the run as it is.
pub open spec fn init_next(
    local: Seq<char>,
    url: Seq<char>,
    cwd: Seq<char>,
    env: Map<Seq<char>, Option<Seq<char>>>,
    keys: Result<Keys, Error>,
    state: InitState,
    event: Event,
) -> ((InitPhase, Seq<char>), ActionView) {
    match state.phase {
        InitPhase::Start => match crate::path::expansion(local, cwd, env) {
            Ok(path) => ((InitPhase::Opening, path), ActionView::Open { path }),
            Err(f) => init_failed(state.path@, trouble_of(f)),
        },
        InitPhase::Opening => match event {
            Event::Finished(Ok(_)) => ((InitPhase::Done, state.path@), ActionView::Done(Outcome::Opened)),
            Event::Finished(Err(e)) => if e.code == ErrorCode::NotFound {
                match keys {
                    Ok(_) => (
                        (InitPhase::Cloning, state.path@),
                        ActionView::Clone { url, into: state.path@ },
                    ),
                    Err(k) => init_failed(state.path@, k@),
                }
            } else {
                init_failed(state.path@, git_trouble(e))
            },
            _ => init_failed(state.path@, unexpected()),
        },
        InitPhase::Cloning => match event {
            Event::Finished(Ok(_)) => ((InitPhase::Done, state.path@), ActionView::Done(Outcome::Cloned)),
            Event::Finished(Err(e)) => if falls_back(e) {
                ((InitPhase::Creating, state.path@), ActionView::Create { path: state.path@ })
            } else {
                init_failed(state.path@, git_trouble(e))
            },
            _ => init_failed(state.path@, unexpected()),
        },
        InitPhase::Creating => match event {
            Event::Finished(Ok(_)) => (
                (InitPhase::Done, state.path@),
                ActionView::Done(Outcome::Created),
            ),
            Event::Finished(Err(e)) => init_failed(state.path@, git_trouble(e)),
            _ => init_failed(state.path@, unexpected()),
        },
        InitPhase::Done => init_failed(state.path@, unexpected()),
        InitPhase::Failed => init_failed(state.path@, unexpected()),
    }
}

/// Where a failure leaves the acquiring of the repository.
fn fail_init(state: &InitState, e: Error) -> (r: (InitState, Action))
    ensures
        (r.0@, r.1@) == init_failed(state.path@, e@),
{
    (InitState { phase: InitPhase::Failed, path: state.path.clone() }, Action::Fail(e))
}

/// Takes the next step in acquiring the local repository that `pc` names.
///
/// `state` is where the run stands, `event` what the operation asked for
/// last came to, and `keys` the keys of `get_remote_callbacks`, which are
/// needed once the remote is to be cloned.
pub fn init(
    pc: &PathConfig,
    cwd: &str,
    env: &Env,
    keys: &Result<Keys, Error>,
    state: &InitState,
    event: &Event,
) -> (r: (InitState, Action))
    ensures
        (r.0@, r.1@) == init_next(
            pc.config.repos.local@,
            pc.config.repos.remote.url@,
            cwd@,
            env@,
            *keys,
            *state,
            *event,
        ),
{
    match state.phase {
        InitPhase::Start => match crate::path::expand(pc.config.repos.local.as_str(), cwd, env) {
            Ok(path) => (
                InitState { phase: InitPhase::Opening, path: path.clone() },
                Action::Open { path },
            ),
            Err(e) => fail_init(state, Error::from_path(e)),
        },
        InitPhase::Opening => match event {
            Event::Finished(Ok(_)) => (
                InitState { phase: InitPhase::Done, path: state.path.clone() },
                Action::Done(Outcome::Opened),
            ),
            Event::Finished(Err(e)) => {
                if e.code == ErrorCode::NotFound {
                    match keys {
                        Ok(_) => (
                            InitState { phase: InitPhase::Cloning, path: state.path.clone() },
                            Action::Clone {
                                url: pc.config.repos.remote.url.clone(),
                                into: state.path.clone(),
                            },
                        ),
                        Err(k) => fail_init(state, k.clone()),
                    }
                } else {
                    fail_init(state, Error::GitError(e.clone()))
                }
            },
            _ => fail_init(state, unexpected_answer()),
        },
        InitPhase::Cloning => match event {
            Event::Finished(Ok(_)) => (
                InitState { phase: InitPhase::Done, path: state.path.clone() },
                Action::Done(Outcome::Cloned),
            ),
            Event::Finished(Err(e)) => {
                if e.code == ErrorCode::Auth || e.code == ErrorCode::NotFound || (e.class
                    == ErrorClass::Ssh && e.code == ErrorCode::Eof) {
                    (
                        InitState { phase: InitPhase::Creating, path: state.path.clone() },
                        Action::Create { path: state.path.clone() },
                    )
                } else {
                    fail_init(state, Error::GitError(e.clone()))
                }
            },
            _ => fail_init(state, unexpected_answer()),
        },
        InitPhase::Creating => match event {
            Event::Finished(Ok(_)) => (
                InitState { phase: InitPhase::Done, path: state.path.clone() },
                Action::Done(Outcome::Created),
            ),
            Event::Finished(Err(e)) => fail_init(state, Error::GitError(e.clone())),
            _ => fail_init(state, unexpected_answer()),
        },
        InitPhase::Done => fail_init(state, unexpected_answer()),
        InitPhase::Failed => fail_init(state, unexpected_answer()),
    }
}

/// What a run of operations is for.
#[derive(Clone, Copy, Debug, PartialEq, Eq, Structural)]
pub enum Goal {
    /// To bring the local branch up to the remote branch.
    Pull,
    /// To do that, and then to commit the working tree and publish it.
    Push,
}

/// Where a pull or a push stands: which operation was asked for last.
#[derive(Clone, Copy, Debug, PartialEq, Eq, Structural)]
pub enum Phase {
    Start,
    Workdir,
    Branch,
    Stash,
    ConfigureForRebase,
    FetchForRebase,
    Rebase,
    Stashes,
    Unstash,
    Index,
    Names,
    Save,
    ConfigureForBranch,
    FetchForBranch,
    Create,
    Head,
    Stage,
    Commit,
    ConfigureForPublish,
    Publish,
    Done,
    Failed,
}

/// Where a pull or a push stands, and the id of the stash that holds the
/// changes of the working tree while the branch is rebased.
#[derive(Debug)]
pub struct State {
    pub phase: Phase,
    pub stash: Option<String>,
}

impl View for State {
    type V = (Phase, Option<Seq<char>>);

    open spec fn view(&self) -> (Phase, Option<Seq<char>>) {
        (self.phase, text_of(self.stash))
    }
}

impl State {
    /// Before anything has been done.
    pub fn new() -> (state: State)
        ensures
            state@ == (Phase::Start, None::<Seq<char>>),
    {
        State { phase: Phase::Start, stash: None }
    }
}

/// The message of the stash that holds the working tree during a pull.
pub open spec fn stash_message() -> Seq<char> {
    "Temporary stash during pull"@
}

/// The message of the commit that saves what the tree held before the
/// remote's history is adopted.
pub open spec fn save_message() -> Seq<char> {
    "Save potentially conflicting files here."@
}

/// The message of the commit that a push makes.
pub open spec fn commit_message() -> Seq<char> {
    "Automated homesync commit."@
}

/// The name under which the remote branch is tracked.
pub open spec fn tracking(remote: Remote) -> Seq<char> {
    remote.name@ + seq!['/'] + remote.branch@
}

/// The operation that points the remote at its address and has its branch
/// fetched into the reference that tracks it.
pub open spec fn configure(remote: Remote) -> ActionView {
    ActionView::ConfigureRemote {
        name: remote.name@,
        url: remote.url@,
        refspec: fetch_rule(remote.branch@, tracking(remote)),
    }
}

/// Where a failure leaves a pull or a push.
pub open spec fn failed(stash: Option<Seq<char>>, t: Trouble) -> (
    (Phase, Option<Seq<char>>),
    ActionView,
) {
    ((Phase::Failed, stash), ActionView::Fail(t))
}

/// What follows once the remote is configured: the fetch, for which the
/// keys have to be there.
pub open spec fn fetch_after(
    next: Phase,
    remote: Remote,
    keys: Result<Keys, Error>,
    stash: Option<Seq<char>>,
) -> ((Phase, Option<Seq<char>>), ActionView) {
    match keys {
        Ok(_) => (
            (next, stash),
            ActionView::Fetch { remote: remote.name@, branch: remote.branch@ },
        ),
        Err(k) => failed(stash, k@),
    }
}

/// What follows once the local branch holds what the remote branch holds:
/// a pull is over, a push goes on to point HEAD at the branch.
pub open spec fn pulled(goal: Goal, remote: Remote, stash: Option<Seq<char>>, outcome: Outcome) -> (
    (Phase, Option<Seq<char>>),
    ActionView,
) {
    match goal {
        Goal::Pull => ((Phase::Done, stash), ActionView::Done(outcome)),
        Goal::Push => ((Phase::Head, stash), ActionView::SetHead { name: branch_ref(remote.branch@) }),
    }
}

/// Whether a failed stash only says that there was nothing to stash.
pub open spec fn nothing_to_stash(e: GitError) -> bool {
    e.class == ErrorClass::Stash && e.code == ErrorCode::NotFound
}

/// The next step of a pull or a push.
///
/// A pull needs a working tree. Where the local branch exists, the changes
/// of the working tree are stashed away, untracked files included, the
/// branch is rebased onto what was fetched from the remote, and the stash,
/// found again by its id, is applied in such a way that the working tree
/// wins wherever the two clash. Where the local branch does not exist, what the working tree
/// holds is committed out of harm's way first, on top of HEAD or else on a
/// branch of its own, and the local branch is made from the remote one.
///
/// A push pulls first. Then it points HEAD at the branch, commits the
/// working tree where it holds anything new, and publishes the branch.
pub open spec fn sync_next(
    goal: Goal,
    remote: Remote,
    user: User,
    keys: Result<Keys, Error>,
    state: State,
    event: Event,
) -> ((Phase, Option<Seq<char>>), ActionView) {
    let stash = text_of(state.stash);
    match state.phase {
        Phase::Start => ((Phase::Workdir, stash), ActionView::CheckWorkdir),
        Phase::Workdir => match event {
            Event::Flag(true) => (
                (Phase::Branch, stash),
                ActionView::FindBranch { name: remote.branch@ },
            ),
            Event::Flag(false) => failed(stash, Trouble::BareRepo),
            _ => failed(stash, unexpected()),
        },
        Phase::Branch => match event {
            Event::Flag(true) => (
                (Phase::Stash, stash),
                ActionView::Stash {
                    name: user.name@,
                    email: user.email@,
                    message: stash_message(),
                    include_untracked: true,
                },
            ),
            Event::Flag(false) => ((Phase::Index, stash), ActionView::IndexAll),
            _ => failed(stash, unexpected()),
        },
        Phase::Stash => match event {
            Event::Id(Ok(id)) => ((Phase::ConfigureForRebase, Some(id@)), configure(remote)),
            Event::Id(Err(e)) => if nothing_to_stash(e) {
                ((Phase::ConfigureForRebase, None), configure(remote))
            } else {
                failed(stash, git_trouble(e))
            },
            _ => failed(stash, unexpected()),
        },
        Phase::ConfigureForRebase => match event {
            Event::Finished(Ok(_)) => fetch_after(Phase::FetchForRebase, remote, keys, stash),
            Event::Finished(Err(e)) => failed(stash, git_trouble(e)),
            _ => failed(stash, unexpected()),
        },
        Phase::FetchForRebase => match event {
            Event::Finished(Ok(_)) => (
                (Phase::Rebase, stash),
                ActionView::Rebase {
                    branch: remote.branch@,
                    onto: tracking(remote),
                    name: user.name@,
                    email: user.email@,
                },
            ),
            Event::Finished(Err(e)) => failed(stash, git_trouble(e)),
            _ => failed(stash, unexpected()),
        },
        Phase::Rebase => match event {
            Event::Finished(Ok(_)) => match stash {
                Some(_) => ((Phase::Stashes, stash), ActionView::ListStashes),
                None => pulled(goal, remote, stash, Outcome::Pulled),
            },
            Event::Finished(Err(e)) => failed(stash, git_trouble(e)),
            _ => failed(stash, unexpected()),
        },
        Phase::Stashes => match event {
            Event::Names(Ok(stashes)) => match stash {
                Some(id) => {
                    let index = stash_position(texts(stashes@), id);
                    if index < stashes@.len() {
                        ((Phase::Unstash, stash), ActionView::ApplyStash { index, ours: true })
                    } else {
                        pulled(goal, remote, stash, Outcome::PulledWithoutStash)
                    }
                },
                None => pulled(goal, remote, stash, Outcome::PulledWithoutStash),
            },
            Event::Names(Err(e)) => failed(stash, git_trouble(e)),
            _ => failed(stash, unexpected()),
        },
        Phase::Unstash => match event {
            Event::Finished(Ok(_)) => pulled(goal, remote, stash, Outcome::Pulled),
            Event::Finished(Err(e)) => failed(stash, git_trouble(e)),
            _ => failed(stash, unexpected()),
        },
        Phase::Index => match event {
            Event::Index(Ok(changes)) => if !has_changes(changes) {
                ((Phase::ConfigureForBranch, stash), configure(remote))
            } else if has_head(changes) {
                (
                    (Phase::Save, stash),
                    ActionView::Commit {
                        update_ref: "HEAD"@,
                        message: save_message(),
                        on_head: true,
                        write_index: false,
                        name: user.name@,
                        email: user.email@,
                    },
                )
            } else {
                ((Phase::Names, stash), ActionView::ListBranches)
            },
            Event::Index(Err(e)) => failed(stash, git_trouble(e)),
            _ => failed(stash, unexpected()),
        },
        Phase::Names => match event {
            Event::Names(Ok(names)) => (
                (Phase::Save, stash),
                ActionView::Commit {
                    update_ref: branch_ref(temporary_name(remote.branch@, texts(names@))),
                    message: save_message(),
                    on_head: false,
                    write_index: false,
                    name: user.name@,
                    email: user.email@,
                },
            ),
            Event::Names(Err(e)) => failed(stash, git_trouble(e)),
            _ => failed(stash, unexpected()),
        },
        Phase::Save => match event {
            Event::Finished(Ok(_)) => ((Phase::ConfigureForBranch, stash), configure(remote)),
            Event::Finished(Err(e)) => failed(stash, git_trouble(e)),
            _ => failed(stash, unexpected()),
        },
        Phase::ConfigureForBranch => match event {
            Event::Finished(Ok(_)) => fetch_after(Phase::FetchForBranch, remote, keys, stash),
            Event::Finished(Err(e)) => failed(stash, git_trouble(e)),
            _ => failed(stash, unexpected()),
        },
        Phase::FetchForBranch => match event {
            Event::Finished(Ok(_)) => (
                (Phase::Create, stash),
                ActionView::CreateBranch { name: remote.branch@, from: tracking(remote) },
            ),
            Event::Finished(Err(e)) => failed(stash, git_trouble(e)),
            _ => failed(stash, unexpected()),
        },
        Phase::Create => match event {
            Event::Finished(Ok(_)) => pulled(goal, remote, stash, Outcome::Pulled),
            Event::Finished(Err(e)) => failed(stash, git_trouble(e)),
            _ => failed(stash, unexpected()),
        },
        Phase::Head => match event {
            Event::Finished(Ok(_)) => ((Phase::Stage, stash), ActionView::IndexAll),
            Event::Finished(Err(e)) => failed(stash, git_trouble(e)),
            _ => failed(stash, unexpected()),
        },
        Phase::Stage => match event {
            Event::Index(Ok(changes)) => if !has_changes(changes) {
                ((Phase::Done, stash), ActionView::Done(Outcome::NothingToPush))
            } else {
                (
                    (Phase::Commit, stash),
                    ActionView::Commit {
                        update_ref: branch_ref(remote.branch@),
                        message: commit_message(),
                        on_head: has_head(changes),
                        write_index: true,
                        name: user.name@,
                        email: user.email@,
                    },
                )
            },
            Event::Index(Err(e)) => failed(stash, git_trouble(e)),
            _ => failed(stash, unexpected()),
        },
        Phase::Commit => match event {
            Event::Finished(Ok(_)) => ((Phase::ConfigureForPublish, stash), configure(remote)),
            Event::Finished(Err(e)) => failed(stash, git_trouble(e)),
            _ => failed(stash, unexpected()),
        },
        Phase::ConfigureForPublish => match event {
            Event::Finished(Ok(_)) => match keys {
                Ok(_) => (
                    (Phase::Publish, stash),
                    ActionView::Publish { remote: remote.name@, refspec: push_rule(remote.branch@) },
                ),
                Err(k) => failed(stash, k@),
            },
            Event::Finished(Err(e)) => failed(stash, git_trouble(e)),
            _ => failed(stash, unexpected()),
        },
        Phase::Publish => match event {
            Event::Finished(Ok(_)) => ((Phase::Done, stash), ActionView::Done(Outcome::Pushed)),
            Event::Finished(Err(e)) => failed(stash, git_trouble(e)),
            _ => failed(stash, unexpected()),
        },
        Phase::Done => failed(stash, unexpected()),
        Phase::Failed => failed(stash, unexpected()),
    }
}

/// A copy of the id of the stash.
fn copy_id(id: &Option<String>) -> (copy: Option<String>)
    ensures
        text_of(copy) == text_of(*id),
{
    match id {
        Some(text) => Some(text.clone()),
        None => None,
    }
}

/// Where a failure leaves a pull or a push.
fn fail(state: &State, e: Error) -> (r: (State, Action))
    ensures
        (r.0@, r.1@) == failed(text_of(state.stash), e@),
{
    (State { phase: Phase::Failed, stash: copy_id(&state.stash) }, Action::Fail(e))
}

/// Goes on to `phase` with `action`.
fn go(state: &State, phase: Phase, action: Action) -> (r: (State, Action))
    ensures
        r.0@ == (phase, text_of(state.stash)),
        r.1 == action,
{
    (State { phase, stash: copy_id(&state.stash) }, action)
}

/// The operation that points the remote at its address and has its branch
/// fetched into the reference that tracks it.
pub fn find_remote(pc: &PathConfig) -> (action: Action)
    ensures
        action@ == configure(pc.config.repos.remote),
{
    let remote = &pc.config.repos.remote;
    let tracking_branch = remote.tracking_branch();
    Action::ConfigureRemote {
        name: remote.name.clone(),
        url: remote.url.clone(),
        refspec: fetch_refspec(remote.branch.as_str(), tracking_branch.as_str()),
    }
}

/// The fetch of the configured branch from the remote, for which the keys
/// have to be there.
pub fn fetch_remote(pc: &PathConfig, keys: &Result<Keys, Error>) -> (r: Result<Action, Error>)
    ensures
        match *keys {
            Ok(_) => r matches Ok(action) && action@ == (ActionView::Fetch {
                remote: pc.config.repos.remote.name@,
                branch: pc.config.repos.remote.branch@,
            }),
            Err(k) => r matches Err(e) && e@ == k@,
        },
{
    match keys {
        Ok(_) => Ok(
            Action::Fetch {
                remote: pc.config.repos.remote.name.clone(),
                branch: pc.config.repos.remote.branch.clone(),
            },
        ),
        Err(k) => Err(k.clone()),
    }
}

/// The rebase of the local branch onto what was fetched from the remote.
pub fn local_rebase_remote(pc: &PathConfig) -> (action: Action)
    ensures
        action@ == (ActionView::Rebase {
            branch: pc.config.repos.remote.branch@,
            onto: tracking(pc.config.repos.remote),
            name: pc.config.user.name@,
            email: pc.config.user.email@,
        }),
{
    Action::Rebase {
        branch: pc.config.repos.remote.branch.clone(),
        onto: pc.config.repos.remote.tracking_branch(),
        name: pc.config.user.name.clone(),
        email: pc.config.user.email.clone(),
    }
}

/// The making of the local branch from what was fetched from the remote.
pub fn local_from_remote(pc: &PathConfig) -> (action: Action)
    ensures
        action@ == (ActionView::CreateBranch {
            name: pc.config.repos.remote.branch@,
            from: tracking(pc.config.repos.remote),
        }),
{
    Action::CreateBranch {
        name: pc.config.repos.remote.branch.clone(),
        from: pc.config.repos.remote.tracking_branch(),
    }
}

/// What follows once the remote is configured.
fn then_fetch(pc: &PathConfig, keys: &Result<Keys, Error>, state: &State, next: Phase) -> (r: (
    State,
    Action,
))
    ensures
        (r.0@, r.1@) == fetch_after(next, pc.config.repos.remote, *keys, text_of(state.stash)),
{
    match fetch_remote(pc, keys) {
        Ok(action) => go(state, next, action),
        Err(e) => fail(state, e),
    }
}

/// What follows once the local branch holds what the remote branch holds.
fn then_pulled(goal: Goal, pc: &PathConfig, state: &State, outcome: Outcome) -> (r: (State, Action))
    ensures
        (r.0@, r.1@) == pulled(goal, pc.config.repos.remote, text_of(state.stash), outcome),
{
    match goal {
        Goal::Pull => go(state, Phase::Done, Action::Done(outcome)),
        Goal::Push => go(
            state,
            Phase::Head,
            Action::SetHead { name: branch_refspec(pc.config.repos.remote.branch.as_str()) },
        ),
    }
}

/// A commit of the index, signed by the configured user.
fn commit(pc: &PathConfig, update_ref: String, message: &str, on_head: bool, write_index: bool) -> (action:
    Action)
    ensures
        action@ == (ActionView::Commit {
            update_ref: update_ref@,
            message: message@,
            on_head,
            write_index,
            name: pc.config.user.name@,
            email: pc.config.user.email@,
        }),
{
    Action::Commit {
        update_ref,
        message: message.to_owned(),
        on_head,
        write_index,
        name: pc.config.user.name.clone(),
        email: pc.config.user.email.clone(),
    }
}

/// The steps that set the changes of the working tree aside while the
/// branch is rebased, and put them back afterwards.
fn with_stash(
    goal: Goal,
    pc: &PathConfig,
    keys: &Result<Keys, Error>,
    state: &State,
    event: &Event,
) -> (r: (State, Action))
    requires
        state.phase == Phase::Stash || state.phase == Phase::ConfigureForRebase || state.phase
            == Phase::FetchForRebase || state.phase == Phase::Rebase || state.phase
            == Phase::Stashes || state.phase == Phase::Unstash,
    ensures
        (r.0@, r.1@) == sync_next(
            goal,
            pc.config.repos.remote,
            pc.config.user,
            *keys,
            *state,
            *event,
        ),
{
    match state.phase {
        Phase::Stash => match event {
            Event::Id(Ok(id)) => (
                State { phase: Phase::ConfigureForRebase, stash: Some(id.clone()) },
                find_remote(pc),
            ),
            Event::Id(Err(e)) => {
                if e.class == ErrorClass::Stash && e.code == ErrorCode::NotFound {
                    (State { phase: Phase::ConfigureForRebase, stash: None }, find_remote(pc))
                } else {
                    fail(state, Error::GitError(e.clone()))
                }
            },
            _ => fail(state, unexpected_answer()),
        },
        Phase::ConfigureForRebase => match event {
            Event::Finished(Ok(_)) => then_fetch(pc, keys, state, Phase::FetchForRebase),
            Event::Finished(Err(e)) => fail(state, Error::GitError(e.clone())),
            _ => fail(state, unexpected_answer()),
        },
        Phase::FetchForRebase => match event {
            Event::Finished(Ok(_)) => go(state, Phase::Rebase, local_rebase_remote(pc)),
            Event::Finished(Err(e)) => fail(state, Error::GitError(e.clone())),
            _ => fail(state, unexpected_answer()),
        },
        Phase::Rebase => match event {
            Event::Finished(Ok(_)) => match &state.stash {
                Some(_) => go(state, Phase::Stashes, Action::ListStashes),
                None => then_pulled(goal, pc, state, Outcome::Pulled),
            },
            Event::Finished(Err(e)) => fail(state, Error::GitError(e.clone())),
            _ => fail(state, unexpected_answer()),
        },
        Phase::Stashes => match event {
            Event::Names(Ok(stashes)) => match &state.stash {
                Some(id) => match find_stash(stashes, id.as_str()) {
                    Some(index) => go(
                        state,
                        Phase::Unstash,
                        Action::ApplyStash { index, ours: true },
                    ),
                    None => then_pulled(goal, pc, state, Outcome::PulledWithoutStash),
                },
                None => then_pulled(goal, pc, state, Outcome::PulledWithoutStash),
            },
            Event::Names(Err(e)) => fail(state, Error::GitError(e.clone())),
            _ => fail(state, unexpected_answer()),
        },
        _ => match event {
            Event::Finished(Ok(_)) => then_pulled(goal, pc, state, Outcome::Pulled),
            Event::Finished(Err(e)) => fail(state, Error::GitError(e.clone())),
            _ => fail(state, unexpected_answer()),
        },
    }
}

/// Takes the next step of a pull or a push.
fn advance(goal: Goal, pc: &PathConfig, keys: &Result<Keys, Error>, state: &State, event: &Event) -> (r:
    (State, Action))
    ensures
        (r.0@, r.1@) == sync_next(
            goal,
            pc.config.repos.remote,
            pc.config.user,
            *keys,
            *state,
            *event,
        ),
{
    let remote = &pc.config.repos.remote;
    match state.phase {
        Phase::Start => go(state, Phase::Workdir, Action::CheckWorkdir),
        Phase::Workdir => match event {
            Event::Flag(true) => go(
                state,
                Phase::Branch,
                Action::FindBranch { name: remote.branch.clone() },
            ),
            Event::Flag(false) => fail(state, Error::InvalidBareRepo),
            _ => fail(state, unexpected_answer()),
        },
        Phase::Branch => match event {
            Event::Flag(true) => go(
                state,
                Phase::Stash,
                Action::Stash {
                    name: pc.config.user.name.clone(),
                    email: pc.config.user.email.clone(),
                    message: "Temporary stash during pull".to_owned(),
                    include_untracked: true,
                },
            ),
            Event::Flag(false) => go(state, Phase::Index, Action::IndexAll),
            _ => fail(state, unexpected_answer()),
        },
        Phase::Stash | Phase::ConfigureForRebase | Phase::FetchForRebase | Phase::Rebase
        | Phase::Stashes | Phase::Unstash => with_stash(goal, pc, keys, state, event),
        Phase::Index => match event {
            Event::Index(Ok(changes)) => match index_with_all(*changes) {
                None => go(state, Phase::ConfigureForBranch, find_remote(pc)),
                Some(Changes::AgainstHead { .. }) => go(
                    state,
                    Phase::Save,
                    commit(
                        pc,
                        "HEAD".to_owned(),
                        "Save potentially conflicting files here.",
                        true,
                        false,
                    ),
                ),
                Some(Changes::Unborn { .. }) => go(state, Phase::Names, Action::ListBranches),
            },
            Event::Index(Err(e)) => fail(state, Error::GitError(e.clone())),
            _ => fail(state, unexpected_answer()),
        },
        Phase::Names => match event {
            Event::Names(Ok(names)) => {
                let temp = temporary_branch_name(remote.branch.as_str(), names);
                go(
                    state,
                    Phase::Save,
                    commit(
                        pc,
                        branch_refspec(temp.as_str()),
                        "Save potentially conflicting files here.",
                        false,
                        false,
                    ),
                )
            },
            Event::Names(Err(e)) => fail(state, Error::GitError(e.clone())),
            _ => fail(state, unexpected_answer()),
        },
        Phase::Save => match event {
            Event::Finished(Ok(_)) => go(state, Phase::ConfigureForBranch, find_remote(pc)),
            Event::Finished(Err(e)) => fail(state, Error::GitError(e.clone())),
            _ => fail(state, unexpected_answer()),
        },
        Phase::ConfigureForBranch => match event {
            Event::Finished(Ok(_)) => then_fetch(pc, keys, state, Phase::FetchForBranch),
            Event::Finished(Err(e)) => fail(state, Error::GitError(e.clone())),
            _ => fail(state, unexpected_answer()),
        },
        Phase::FetchForBranch => match event {
            Event::Finished(Ok(_)) => go(state, Phase::Create, local_from_remote(pc)),
            Event::Finished(Err(e)) => fail(state, Error::GitError(e.clone())),
            _ => fail(state, unexpected_answer()),
        },
        Phase::Create => match event {
            Event::Finished(Ok(_)) => then_pulled(goal, pc, state, Outcome::Pulled),
            Event::Finished(Err(e)) => fail(state, Error::GitError(e.clone())),
            _ => fail(state, unexpected_answer()),
        },
        Phase::Head => match event {
            Event::Finished(Ok(_)) => go(state, Phase::Stage, Action::IndexAll),
            Event::Finished(Err(e)) => fail(state, Error::GitError(e.clone())),
            _ => fail(state, unexpected_answer()),
        },
        Phase::Stage => match event {
            Event::Index(Ok(changes)) => match index_with_all(*changes) {
                None => go(state, Phase::Done, Action::Done(Outcome::NothingToPush)),
                Some(found) => {
                    let on_head = match found {
                        Changes::AgainstHead { .. } => true,
                        Changes::Unborn { .. } => false,
                    };
                    go(
                        state,
                        Phase::Commit,
                        commit(
                            pc,
                            branch_refspec(remote.branch.as_str()),
                            "Automated homesync commit.",
                            on_head,
                            true,
                        ),
                    )
                },
            },
            Event::Index(Err(e)) => fail(state, Error::GitError(e.clone())),
            _ => fail(state, unexpected_answer()),
        },
        Phase::Commit => match event {
            Event::Finished(Ok(_)) => go(state, Phase::ConfigureForPublish, find_remote(pc)),
            Event::Finished(Err(e)) => fail(state, Error::GitError(e.clone())),
            _ => fail(state, unexpected_answer()),
        },
        Phase::ConfigureForPublish => match event {
            Event::Finished(Ok(_)) => match keys {
                Ok(_) => go(
                    state,
                    Phase::Publish,
                    Action::Publish {
                        remote: remote.name.clone(),
                        refspec: push_refspec(remote.branch.as_str()),
                    },
                ),
                Err(k) => fail(state, k.clone()),
            },
            Event::Finished(Err(e)) => fail(state, Error::GitError(e.clone())),
            _ => fail(state, unexpected_answer()),
        },
        Phase::Publish => match event {
            Event::Finished(Ok(_)) => go(state, Phase::Done, Action::Done(Outcome::Pushed)),
            Event::Finished(Err(e)) => fail(state, Error::GitError(e.clone())),
            _ => fail(state, unexpected_answer()),
        },
        Phase::Done => fail(state, unexpected_answer()),
        Phase::Failed => fail(state, unexpected_answer()),
    }
}

/// Takes the next step in bringing the local branch up to the remote one.
///
/// `state` is where the run stands, `event` what the operation asked for
/// last came to, and `keys` the keys of `get_remote_callbacks`, which are
/// needed once the remote is to be fetched from.
pub fn pull(pc: &PathConfig, keys: &Result<Keys, Error>, state: &State, event: &Event) -> (r: (
    State,
    Action,
))
    ensures
        (r.0@, r.1@) == sync_next(
            Goal::Pull,
            pc.config.repos.remote,
            pc.config.user,
            *keys,
            *state,
            *event,
        ),
{
    advance(Goal::Pull, pc, keys, state, event)
}

/// Takes the next step in publishing the working tree: a pull, a commit of
/// what the working tree holds, and a push of the branch to the remote.
///
/// `state`, `event` and `keys` are read as by `pull`.
pub fn push(pc: &PathConfig, keys: &Result<Keys, Error>, state: &State, event: &Event) -> (r: (
    State,
    Action,
))
    ensures
        (r.0@, r.1@) == sync_next(
            Goal::Push,
            pc.config.repos.remote,
            pc.config.user,
            *keys,
            *state,
            *event,
        ),
{
    advance(Goal::Push, pc, keys, state, event)
}

/// How far a pull or a push has come: every step of a run that is not over
/// leads to a phase that is further on.
pub open spec fn progress(phase: Phase) -> nat {
    match phase {
        Phase::Start => 0,
        Phase::Workdir => 1,
        Phase::Branch => 2,
        Phase::Stash => 3,
        Phase::ConfigureForRebase => 4,
        Phase::FetchForRebase => 5,
        Phase::Rebase => 6,
        Phase::Stashes => 7,
        Phase::Unstash => 8,
        Phase::Index => 3,
        Phase::Names => 4,
        Phase::Save => 5,
        Phase::ConfigureForBranch => 6,
        Phase::FetchForBranch => 7,
        Phase::Create => 8,
        Phase::Head => 9,
        Phase::Stage => 10,
        Phase::Commit => 11,
        Phase::ConfigureForPublish => 12,
        Phase::Publish => 13,
        Phase::Done => 14,
        Phase::Failed => 14,
    }
}

/// Whether a run is over in this phase.
pub open spec fn is_over(phase: Phase) -> bool {
    phase == Phase::Done || phase == Phase::Failed
}

/// Every step of a pull or a push leads further on, so that no run takes
/// more than fourteen steps; and the run is over exactly when the step asks
/// for nothing more.
pub proof fn lemma_every_step_leads_on(
    goal: Goal,
    remote: Remote,
    user: User,
    keys: Result<Keys, Error>,
    state: State,
    event: Event,
)
    requires
        !is_over(state.phase),
    ensures
        progress(sync_next(goal, remote, user, keys, state, event).0.0) > progress(state.phase),
        sync_next(goal, remote, user, keys, state, event).0.0 == Phase::Done <==> sync_next(
            goal,
            remote,
            user,
            keys,
            state,
            event,
        ).1 is Done,
        sync_next(goal, remote, user, keys, state, event).0.0 == Phase::Failed <==> sync_next(
            goal,
            remote,
            user,
            keys,
            state,
            event,
        ).1 is Fail,
{
}

/// A pull asks for nothing that belongs to a push: it never points HEAD
/// elsewhere, commits to the branch or publishes.
pub proof fn lemma_pull_asks_for_no_push(
    remote: Remote,
    user: User,
    keys: Result<Keys, Error>,
    state: State,
    event: Event,
)
    requires
        progress(state.phase) < progress(Phase::Head),
    ensures
        ({
            let next = sync_next(Goal::Pull, remote, user, keys, state, event);
            &&& progress(next.0.0) < progress(Phase::Head) || is_over(next.0.0)
            &&& !(next.1 is SetHead)
            &&& !(next.1 is Publish)
        }),
{
}

/// The failure that an event brings, if it brings one.
pub open spec fn failure_of(event: Event) -> Option<GitError> {
    match event {
        Event::Finished(Err(e)) => Some(e),
        Event::Id(Err(e)) => Some(e),
        Event::Names(Err(e)) => Some(e),
        Event::Index(Err(e)) => Some(e),
        _ => None,
    }
}

/// Whether the event is an answer to the operation that the phase asked
/// for.
pub open spec fn answers(phase: Phase, event: Event) -> bool {
    match phase {
        Phase::Start => true,
        Phase::Workdir => event is Flag,
        Phase::Branch => event is Flag,
        Phase::Stash => event is Id,
        Phase::Stashes => event is Names,
        Phase::Names => event is Names,
        Phase::Index => event is Index,
        Phase::Stage => event is Index,
        Phase::Done => false,
        Phase::Failed => false,
        _ => event is Finished,
    }
}

/// A failure of the repository ends a pull or a push as it is. The one
/// failure that is passed over is that of a stash that found nothing to
/// stash away.
pub proof fn lemma_failures_end_the_run(
    goal: Goal,
    remote: Remote,
    user: User,
    keys: Result<Keys, Error>,
    state: State,
    event: Event,
)
    requires
        state.phase != Phase::Start,
        answers(state.phase, event),
        failure_of(event) is Some,
        !(state.phase == Phase::Stash && nothing_to_stash(failure_of(event)->0)),
    ensures
        sync_next(goal, remote, user, keys, state, event) == failed(
            text_of(state.stash),
            git_trouble(failure_of(event)->0),
        ),
{
}

/// An answer that does not fit the operation asked for ends the run.
pub proof fn lemma_misfits_end_the_run(
    goal: Goal,
    remote: Remote,
    user: User,
    keys: Result<Keys, Error>,
    state: State,
    event: Event,
)
    requires
        !answers(state.phase, event),
    ensures
        sync_next(goal, remote, user, keys, state, event) == failed(
            text_of(state.stash),
            unexpected(),
        ),
{
}

/// Where the stash is among the stashes, it is found at its first place.
pub proof fn lemma_stash_position_bounds(stashes: Seq<Seq<char>>, id: Seq<char>)
    ensures
        0 <= stash_position(stashes, id) <= stashes.len(),
        stash_position(stashes, id) < stashes.len() ==> stashes[stash_position(stashes, id)] == id,
        forall|j: int| 0 <= j < stash_position(stashes, id) ==> stashes[j] != id,
    decreases stashes.len(),
{
    if stashes.len() == 0 || stashes[0] == id {
    } else {
        let rest = stashes.drop_first();
        lemma_stash_position_bounds(rest, id);
        assert forall|j: int| 0 <= j < stash_position(stashes, id) implies stashes[j] != id by {
            if j > 0 {
                assert(stashes[j] == rest[j - 1]);
            }
        }
    }
}

/// The changes that were stashed away are put back from the stash that has
/// their id, wherever in the stack it has come to stand; and where no stash
/// has their id, none is applied.
pub proof fn lemma_the_stash_is_found_by_its_id(
    goal: Goal,
    remote: Remote,
    user: User,
    keys: Result<Keys, Error>,
    state: State,
    stashes: Vec<String>,
)
    requires
        state.phase == Phase::Stashes,
        state.stash is Some,
    ensures
        ({
            let next = sync_next(goal, remote, user, keys, state, Event::Names(Ok(stashes)));
            let id = state.stash->0@;
            if taken(texts(stashes@), id) {
                &&& next.0.0 == Phase::Unstash
                &&& next.1 matches ActionView::ApplyStash { index, ours }
                &&& ours
                &&& 0 <= index < stashes@.len()
                &&& stashes@[index]@ == id
            } else {
                !(next.1 is ApplyStash)
            }
        }),
{
    let all = texts(stashes@);
    let id = state.stash->0@;
    lemma_stash_position_bounds(all, id);
    if taken(all, id) {
        let i = choose|i: int| 0 <= i < all.len() && all[i] == id;
        if stash_position(all, id) >= all.len() {
            assert(all[i] != id);
        }
    } else {
        if stash_position(all, id) < all.len() {
            assert(all[stash_position(all, id)] == id);
        }
    }
}

/// How far the acquiring of the repository has come.
pub open spec fn init_progress(phase: InitPhase) -> nat {
    match phase {
        InitPhase::Start => 0,
        InitPhase::Opening => 1,
        InitPhase::Cloning => 2,
        InitPhase::Creating => 3,
        InitPhase::Done => 4,
        InitPhase::Failed => 4,
    }
}

/// Every step in acquiring the repository leads further on, and the one
/// failure that is not handed on as it is, is that of opening a repository
/// that is not there and that of a clone that the remote refuses.
pub proof fn lemma_init_leads_on(
    local: Seq<char>,
    url: Seq<char>,
    cwd: Seq<char>,
    env: Map<Seq<char>, Option<Seq<char>>>,
    keys: Result<Keys, Error>,
    state: InitState,
    event: Event,
)
    requires
        state.phase != InitPhase::Done,
        state.phase != InitPhase::Failed,
    ensures
        ({
            let next = init_next(local, url, cwd, env, keys, state, event);
            &&& init_progress(next.0.0) > init_progress(state.phase)
            &&& next.0.0 == InitPhase::Done <==> next.1 is Done
            &&& next.0.0 == InitPhase::Failed <==> next.1 is Fail
            &&& (state.phase != InitPhase::Start && failure_of(event) is Some && event is Finished
                && !(state.phase == InitPhase::Opening && failure_of(event)->0.code
                == ErrorCode::NotFound) && !(state.phase == InitPhase::Cloning && falls_back(
                failure_of(event)->0,
            ))) ==> next.1 == ActionView::Fail(git_trouble(failure_of(event)->0))
        }),
{
}

} // verus!
