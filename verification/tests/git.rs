use homesync::config::{Config, Packages, PathConfig, Remote, Repos, User, SSH};
use homesync::copy::DirEntry;
use homesync::git::{
    branch_refspec, check_working_repo, fetch_refspec, find_stash, get_commit_at_head,
    get_remote_callbacks, index_with_all, push_refspec, temporary_branch_name, Action, Changes,
    Error, ErrorClass, ErrorCode, Event, GitError, InitPhase, InitState, Keys, Outcome, Phase,
    State,
};
use homesync::io::{ErrorKind, IoError};
use homesync::path::ResPathBuf;
use homesync::vars::{Env, VarError};
use homesync::{run_pull, run_push, RunState};

fn config() -> PathConfig {
    let config = Config {
        user: User {
            name: "name".to_owned(),
            email: "email@email.com".to_owned(),
        },
        ssh: SSH {
            public: Some("$HOME/.ssh/id_ed25519.pub".to_owned()),
            private: "$HOME/.ssh/id_ed25519".to_owned(),
        },
        repos: Repos {
            local: "$HOME/.homesync".to_owned(),
            remote: Remote {
                name: "origin".to_owned(),
                branch: "main".to_owned(),
                url: "git@github.com:owner/repo.git".to_owned(),
            },
        },
        unmanaged: None,
        packages: Packages::new(),
    };
    let file = ResPathBuf::new("/home/owner/.homesync.yml", "$HOME/.homesync.yml").unwrap();
    PathConfig::new(&file, config)
}

fn env() -> Env {
    let mut env = Env::new();
    env.set("HOME", "/home/owner");
    env
}

fn keys() -> Result<Keys, Error> {
    Ok(Keys {
        public: None,
        private: ResPathBuf::new("/home/owner/.ssh/id_ed25519", "$HOME/.ssh/id_ed25519").unwrap(),
    })
}

fn no_keys() -> Result<Keys, Error> {
    Err(Error::IOError(IoError::new(ErrorKind::NotFound, "no key")))
}

fn failure(code: ErrorCode, class: ErrorClass) -> GitError {
    GitError { code, class, message: "failed".to_owned() }
}

fn ok() -> Event {
    Event::Finished(Ok(()))
}

fn failed(code: ErrorCode, class: ErrorClass) -> Event {
    Event::Finished(Err(failure(code, class)))
}

/// Feeds a pull the events in turn and gathers what it asks for.
fn pull_run(keys: &Result<Keys, Error>, events: Vec<Event>) -> (State, Vec<String>) {
    let pc = config();
    let mut state = State::new();
    let mut asked = vec![];
    for event in events {
        let (next, action) = homesync::git::pull(&pc, keys, &state, &event);
        state = next;
        asked.push(format!("{:?}", action));
    }
    (state, asked)
}

fn push_run(keys: &Result<Keys, Error>, events: Vec<Event>) -> (State, Vec<String>) {
    let pc = config();
    let mut state = State::new();
    let mut asked = vec![];
    for event in events {
        let (next, action) = homesync::git::push(&pc, keys, &state, &event);
        state = next;
        asked.push(format!("{:?}", action));
    }
    (state, asked)
}

fn init_run(keys: &Result<Keys, Error>, events: Vec<Event>) -> (InitState, Vec<String>) {
    let pc = config();
    let env = env();
    let mut state = InitState::new();
    let mut asked = vec![];
    for event in events {
        let (next, action) = homesync::git::init(&pc, "/work", &env, keys, &state, &event);
        state = next;
        asked.push(format!("{:?}", action));
    }
    (state, asked)
}

const CONFIGURE: &str = "ConfigureRemote { name: \"origin\", url: \"git@github.com:owner/repo.git\", refspec: \"+refs/heads/main:refs/remotes/origin/main\" }";
const FETCH: &str = "Fetch { remote: \"origin\", branch: \"main\" }";
const STASH: &str = "Stash { name: \"name\", email: \"email@email.com\", message: \"Temporary stash during pull\", include_untracked: true }";
const REBASE: &str = "Rebase { branch: \"main\", onto: \"origin/main\", name: \"name\", email: \"email@email.com\" }";

#[test]
fn refspecs() {
    assert_eq!(branch_refspec("main"), "refs/heads/main");
    assert_eq!(
        fetch_refspec("main", "origin/main"),
        "+refs/heads/main:refs/remotes/origin/main"
    );
    assert_eq!(push_refspec("main"), "refs/heads/main:refs/heads/main");
}

#[test]
fn temporary_branch_name_is_the_first_that_is_free() {
    let names = |v: &[&str]| -> Vec<String> { v.iter().map(|s| s.to_string()).collect() };
    assert_eq!(temporary_branch_name("main", &names(&[])), "main-tmp");
    assert_eq!(temporary_branch_name("main", &names(&["main", "tmp"])), "main-tmp");
    assert_eq!(temporary_branch_name("main", &names(&["main-tmp"])), "main-tmp-1");
    assert_eq!(
        temporary_branch_name("main", &names(&["main-tmp-1", "main-tmp", "main-tmp-3"])),
        "main-tmp-2"
    );
    assert_eq!(temporary_branch_name("main", &names(&["main-tmp-1"])), "main-tmp");
    let mut many = names(&["main-tmp"]);
    for k in 1..=11 {
        many.push(format!("main-tmp-{}", k));
    }
    assert_eq!(temporary_branch_name("main", &many), "main-tmp-12");
    assert_eq!(temporary_branch_name("", &names(&["-tmp", "-tmp-1"])), "-tmp-2");
}

#[test]
fn find_stash_goes_by_the_id() {
    let stashes = vec!["c".to_owned(), "b".to_owned(), "a".to_owned(), "b".to_owned()];
    assert_eq!(find_stash(&stashes, "c"), Some(0));
    assert_eq!(find_stash(&stashes, "b"), Some(1));
    assert_eq!(find_stash(&stashes, "a"), Some(2));
    assert_eq!(find_stash(&stashes, "d"), None);
    assert_eq!(find_stash(&vec![], "a"), None);
}

#[test]
fn index_with_all_is_worth_a_commit_where_something_changed() {
    let quiet = Changes::AgainstHead { files_changed: 0, insertions: 0, deletions: 0 };
    assert_eq!(index_with_all(quiet), None);
    for changes in [
        Changes::AgainstHead { files_changed: 1, insertions: 0, deletions: 0 },
        Changes::AgainstHead { files_changed: 0, insertions: 2, deletions: 0 },
        Changes::AgainstHead { files_changed: 0, insertions: 0, deletions: 3 },
        Changes::Unborn { index_empty: false },
    ] {
        assert_eq!(index_with_all(changes), Some(changes));
    }
    assert_eq!(index_with_all(Changes::Unborn { index_empty: true }), None);
}

#[test]
fn working_repo_and_head() {
    assert_eq!(check_working_repo(Some("/repo/")).unwrap(), "/repo/");
    match check_working_repo(None) {
        Err(Error::InvalidBareRepo) => {}
        other => panic!("unexpected: {:?}", other),
    }
    assert_eq!(get_commit_at_head(&Ok("abc".to_owned())), Some("abc".to_owned()));
    assert_eq!(
        get_commit_at_head(&Err(failure(ErrorCode::UnbornBranch, ErrorClass::Reference))),
        None
    );
}

#[test]
fn remote_callbacks_need_both_keys() {
    let pc = config();
    let env = env();
    let found = |path: &str| -> Result<String, IoError> { Ok(path.to_owned()) };
    let missing = || -> Result<String, IoError> { Err(IoError::new(ErrorKind::NotFound, "gone")) };
    let keys = get_remote_callbacks(&pc, "/", &env, &found("/pub"), &found("/priv")).unwrap();
    assert_eq!(keys.public.unwrap().resolved(), "/pub");
    assert_eq!(keys.private.resolved(), "/priv");
    assert_eq!(keys.private.unresolved(), "$HOME/.ssh/id_ed25519");
    match get_remote_callbacks(&pc, "/", &env, &missing(), &found("/priv")) {
        Err(Error::IOError(e)) => assert_eq!(e.kind, ErrorKind::NotFound),
        other => panic!("unexpected: {:?}", other),
    }
    match get_remote_callbacks(&pc, "/", &env, &found("/pub"), &missing()) {
        Err(Error::IOError(e)) => assert_eq!(e.message, "gone"),
        other => panic!("unexpected: {:?}", other),
    }
    match get_remote_callbacks(&pc, "/", &Env::new(), &found("/pub"), &found("/priv")) {
        Err(Error::VarError(VarError::NotPresent)) => {}
        other => panic!("unexpected: {:?}", other),
    }
    let mut pc = config();
    pc.config.ssh.public = None;
    let keys = get_remote_callbacks(&pc, "/", &env, &missing(), &found("/priv")).unwrap();
    assert!(keys.public.is_none());
}

#[test]
fn init_opens_what_is_there() {
    let (state, asked) = init_run(&keys(), vec![Event::Start, ok()]);
    assert_eq!(state.phase, InitPhase::Done);
    assert_eq!(
        asked,
        vec!["Open { path: \"/home/owner/.homesync\" }", "Done(Opened)"]
    );
}

#[test]
fn init_clones_where_nothing_is_found() {
    let (state, asked) = init_run(
        &keys(),
        vec![Event::Start, failed(ErrorCode::NotFound, ErrorClass::Repository), ok()],
    );
    assert_eq!(state.phase, InitPhase::Done);
    assert_eq!(
        asked,
        vec![
            "Open { path: \"/home/owner/.homesync\" }",
            "Clone { url: \"git@github.com:owner/repo.git\", into: \"/home/owner/.homesync\" }",
            "Done(Cloned)",
        ]
    );
}

#[test]
fn init_makes_a_fresh_repository_where_the_clone_is_refused() {
    for (code, class) in [
        (ErrorCode::Eof, ErrorClass::Ssh),
        (ErrorCode::Auth, ErrorClass::Http),
        (ErrorCode::NotFound, ErrorClass::Net),
    ] {
        let (state, asked) = init_run(
            &keys(),
            vec![
                Event::Start,
                failed(ErrorCode::NotFound, ErrorClass::Repository),
                failed(code, class),
                ok(),
            ],
        );
        assert_eq!(state.phase, InitPhase::Done);
        assert_eq!(asked[2], "Create { path: \"/home/owner/.homesync\" }");
        assert_eq!(asked[3], "Done(Created)");
    }
}

#[test]
fn init_hands_every_other_failure_on() {
    let (state, asked) = init_run(
        &keys(),
        vec![Event::Start, failed(ErrorCode::Locked, ErrorClass::Repository)],
    );
    assert_eq!(state.phase, InitPhase::Failed);
    assert_eq!(
        asked[1],
        "Fail(GitError(GitError { code: Locked, class: Repository, message: \"failed\" }))"
    );
    let (state, asked) = init_run(
        &keys(),
        vec![
            Event::Start,
            failed(ErrorCode::NotFound, ErrorClass::Repository),
            failed(ErrorCode::Eof, ErrorClass::Net),
        ],
    );
    assert_eq!(state.phase, InitPhase::Failed);
    assert_eq!(
        asked[2],
        "Fail(GitError(GitError { code: Eof, class: Net, message: \"failed\" }))"
    );
    let (state, asked) = init_run(
        &keys(),
        vec![
            Event::Start,
            failed(ErrorCode::NotFound, ErrorClass::Repository),
            failed(ErrorCode::Eof, ErrorClass::Ssh),
            failed(ErrorCode::Exists, ErrorClass::Os),
        ],
    );
    assert_eq!(state.phase, InitPhase::Failed);
    assert_eq!(
        asked[3],
        "Fail(GitError(GitError { code: Exists, class: Os, message: \"failed\" }))"
    );
    let (state, asked) = init_run(
        &no_keys(),
        vec![Event::Start, failed(ErrorCode::NotFound, ErrorClass::Repository)],
    );
    assert_eq!(state.phase, InitPhase::Failed);
    assert_eq!(
        asked[1],
        "Fail(IOError(IoError { kind: NotFound, message: \"no key\" }))"
    );
    let (_, asked) = init_run(&keys(), vec![Event::Start, Event::Flag(true)]);
    assert!(asked[1].starts_with("Fail(IOError(IoError { kind: InvalidInput"));
}

#[test]
fn init_fails_where_the_path_does_not_expand() {
    let pc = config();
    let state = InitState::new();
    let (state, action) =
        homesync::git::init(&pc, "/work", &Env::new(), &keys(), &state, &Event::Start);
    assert_eq!(state.phase, InitPhase::Failed);
    match action {
        Action::Fail(Error::VarError(VarError::NotPresent)) => {}
        other => panic!("unexpected: {:?}", other),
    }
}

#[test]
fn pull_rebases_and_puts_the_stash_back() {
    let (state, asked) = pull_run(
        &keys(),
        vec![
            Event::Start,
            Event::Flag(true),
            Event::Flag(true),
            Event::Id(Ok("s1".to_owned())),
            ok(),
            ok(),
            ok(),
            Event::Names(Ok(vec!["s2".to_owned(), "s1".to_owned()])),
            ok(),
        ],
    );
    assert_eq!(state.phase, Phase::Done);
    assert_eq!(state.stash, Some("s1".to_owned()));
    assert_eq!(
        asked,
        vec![
            "CheckWorkdir",
            "FindBranch { name: \"main\" }",
            STASH,
            CONFIGURE,
            FETCH,
            REBASE,
            "ListStashes",
            "ApplyStash { index: 1, ours: true }",
            "Done(Pulled)",
        ]
    );
}

#[test]
fn pull_without_changes_stashes_nothing() {
    let (state, asked) = pull_run(
        &keys(),
        vec![
            Event::Start,
            Event::Flag(true),
            Event::Flag(true),
            Event::Id(Err(failure(ErrorCode::NotFound, ErrorClass::Stash))),
            ok(),
            ok(),
            ok(),
        ],
    );
    assert_eq!(state.phase, Phase::Done);
    assert_eq!(state.stash, None);
    assert_eq!(
        asked,
        vec![
            "CheckWorkdir",
            "FindBranch { name: \"main\" }",
            STASH,
            CONFIGURE,
            FETCH,
            REBASE,
            "Done(Pulled)",
        ]
    );
}

#[test]
fn pull_says_so_where_the_stash_is_lost() {
    let (state, asked) = pull_run(
        &keys(),
        vec![
            Event::Start,
            Event::Flag(true),
            Event::Flag(true),
            Event::Id(Ok("s1".to_owned())),
            ok(),
            ok(),
            ok(),
            Event::Names(Ok(vec!["s2".to_owned()])),
        ],
    );
    assert_eq!(state.phase, Phase::Done);
    assert_eq!(asked[7], "Done(PulledWithoutStash)");
}

#[test]
fn pull_needs_a_working_tree() {
    let (state, asked) = pull_run(&keys(), vec![Event::Start, Event::Flag(false)]);
    assert_eq!(state.phase, Phase::Failed);
    assert_eq!(asked, vec!["CheckWorkdir", "Fail(InvalidBareRepo)"]);
}

#[test]
fn pull_hands_failures_on() {
    let (state, asked) = pull_run(
        &keys(),
        vec![
            Event::Start,
            Event::Flag(true),
            Event::Flag(true),
            Event::Id(Err(failure(ErrorCode::NotFound, ErrorClass::Odb))),
        ],
    );
    assert_eq!(state.phase, Phase::Failed);
    assert_eq!(
        asked[3],
        "Fail(GitError(GitError { code: NotFound, class: Odb, message: \"failed\" }))"
    );
    let (state, asked) = pull_run(
        &no_keys(),
        vec![
            Event::Start,
            Event::Flag(true),
            Event::Flag(true),
            Event::Id(Ok("s1".to_owned())),
            ok(),
        ],
    );
    assert_eq!(state.phase, Phase::Failed);
    assert_eq!(state.stash, Some("s1".to_owned()));
    assert_eq!(asked[3], CONFIGURE);
    assert_eq!(
        asked[4],
        "Fail(IOError(IoError { kind: NotFound, message: \"no key\" }))"
    );
    let (state, asked) = pull_run(
        &keys(),
        vec![
            Event::Start,
            Event::Flag(true),
            Event::Flag(true),
            Event::Id(Ok("s1".to_owned())),
            ok(),
            ok(),
            failed(ErrorCode::Conflict, ErrorClass::Rebase),
        ],
    );
    assert_eq!(state.phase, Phase::Failed);
    assert_eq!(
        asked[6],
        "Fail(GitError(GitError { code: Conflict, class: Rebase, message: \"failed\" }))"
    );
    let (state, asked) = pull_run(&keys(), vec![Event::Start, ok()]);
    assert_eq!(state.phase, Phase::Failed);
    assert!(asked[1].starts_with("Fail(IOError(IoError { kind: InvalidInput"));
}

#[test]
fn pull_into_an_empty_repository_makes_the_branch() {
    let (state, asked) = pull_run(
        &keys(),
        vec![
            Event::Start,
            Event::Flag(true),
            Event::Flag(false),
            Event::Index(Ok(Changes::Unborn { index_empty: true })),
            ok(),
            ok(),
            ok(),
        ],
    );
    assert_eq!(state.phase, Phase::Done);
    assert_eq!(
        asked,
        vec![
            "CheckWorkdir",
            "FindBranch { name: \"main\" }",
            "IndexAll",
            CONFIGURE,
            FETCH,
            "CreateBranch { name: \"main\", from: \"origin/main\" }",
            "Done(Pulled)",
        ]
    );
}

#[test]
fn pull_saves_what_the_tree_holds_on_a_branch_of_its_own() {
    let (state, asked) = pull_run(
        &keys(),
        vec![
            Event::Start,
            Event::Flag(true),
            Event::Flag(false),
            Event::Index(Ok(Changes::Unborn { index_empty: false })),
            Event::Names(Ok(vec!["main-tmp".to_owned()])),
            ok(),
            ok(),
            ok(),
            ok(),
        ],
    );
    assert_eq!(state.phase, Phase::Done);
    assert_eq!(asked[3], "ListBranches");
    assert_eq!(
        asked[4],
        "Commit { update_ref: \"refs/heads/main-tmp-1\", message: \"Save potentially conflicting files here.\", on_head: false, write_index: false, name: \"name\", email: \"email@email.com\" }"
    );
    assert_eq!(asked[5], CONFIGURE);
    assert_eq!(asked[6], FETCH);
    assert_eq!(asked[7], "CreateBranch { name: \"main\", from: \"origin/main\" }");
    assert_eq!(asked[8], "Done(Pulled)");
}

#[test]
fn pull_saves_what_the_tree_holds_on_top_of_head() {
    let (state, asked) = pull_run(
        &keys(),
        vec![
            Event::Start,
            Event::Flag(true),
            Event::Flag(false),
            Event::Index(Ok(Changes::AgainstHead {
                files_changed: 1,
                insertions: 1,
                deletions: 0,
            })),
            ok(),
        ],
    );
    assert_eq!(state.phase, Phase::ConfigureForBranch);
    assert_eq!(
        asked[3],
        "Commit { update_ref: \"HEAD\", message: \"Save potentially conflicting files here.\", on_head: true, write_index: false, name: \"name\", email: \"email@email.com\" }"
    );
    assert_eq!(asked[4], CONFIGURE);
}

#[test]
fn push_pulls_commits_and_publishes() {
    let (state, asked) = push_run(
        &keys(),
        vec![
            Event::Start,
            Event::Flag(true),
            Event::Flag(true),
            Event::Id(Err(failure(ErrorCode::NotFound, ErrorClass::Stash))),
            ok(),
            ok(),
            ok(),
            ok(),
            Event::Index(Ok(Changes::AgainstHead {
                files_changed: 2,
                insertions: 0,
                deletions: 0,
            })),
            ok(),
            ok(),
            ok(),
        ],
    );
    assert_eq!(state.phase, Phase::Done);
    assert_eq!(
        asked,
        vec![
            "CheckWorkdir",
            "FindBranch { name: \"main\" }",
            STASH,
            CONFIGURE,
            FETCH,
            REBASE,
            "SetHead { name: \"refs/heads/main\" }",
            "IndexAll",
            "Commit { update_ref: \"refs/heads/main\", message: \"Automated homesync commit.\", on_head: true, write_index: true, name: \"name\", email: \"email@email.com\" }",
            CONFIGURE,
            "Publish { remote: \"origin\", refspec: \"refs/heads/main:refs/heads/main\" }",
            "Done(Pushed)",
        ]
    );
}

#[test]
fn push_with_nothing_new_publishes_nothing() {
    let (state, asked) = push_run(
        &keys(),
        vec![
            Event::Start,
            Event::Flag(true),
            Event::Flag(false),
            Event::Index(Ok(Changes::Unborn { index_empty: true })),
            ok(),
            ok(),
            ok(),
            ok(),
            Event::Index(Ok(Changes::AgainstHead {
                files_changed: 0,
                insertions: 0,
                deletions: 0,
            })),
        ],
    );
    assert_eq!(state.phase, Phase::Done);
    assert_eq!(asked[6], "SetHead { name: \"refs/heads/main\" }");
    assert_eq!(asked[7], "IndexAll");
    assert_eq!(asked[8], "Done(NothingToPush)");
}

#[test]
fn push_commits_on_nothing_where_head_is_unborn() {
    let pc = config();
    let state = State { phase: Phase::Stage, stash: None };
    let (state, action) = homesync::git::push(
        &pc,
        &keys(),
        &state,
        &Event::Index(Ok(Changes::Unborn { index_empty: false })),
    );
    assert_eq!(state.phase, Phase::Commit);
    match action {
        Action::Commit { on_head, write_index, .. } => {
            assert!(!on_head);
            assert!(write_index);
        }
        other => panic!("unexpected: {:?}", other),
    }
    let (state, action) = homesync::git::push(&pc, &no_keys(), &state, &ok());
    assert_eq!(state.phase, Phase::ConfigureForPublish);
    assert_eq!(format!("{:?}", action), CONFIGURE);
    let (state, action) = homesync::git::push(&pc, &no_keys(), &state, &ok());
    assert_eq!(state.phase, Phase::Failed);
    match action {
        Action::Fail(Error::IOError(e)) => assert_eq!(e.message, "no key"),
        other => panic!("unexpected: {:?}", other),
    }
}

#[test]
fn run_pull_acquires_the_repository_first() {
    let pc = config();
    let env = env();
    let keys = keys();
    let mut state = RunState::new();
    let mut asked = vec![];
    for event in [
        Event::Start,
        failed(ErrorCode::NotFound, ErrorClass::Repository),
        ok(),
        Event::Flag(true),
        Event::Flag(false),
    ] {
        let (next, action) = run_pull(&pc, "/work", &env, &keys, &state, &event);
        state = next;
        asked.push(format!("{:?}", action));
    }
    assert_eq!(state.init.phase, InitPhase::Done);
    assert_eq!(state.sync.phase, Phase::Index);
    assert_eq!(
        asked,
        vec![
            "Open { path: \"/home/owner/.homesync\" }",
            "Clone { url: \"git@github.com:owner/repo.git\", into: \"/home/owner/.homesync\" }",
            "CheckWorkdir",
            "FindBranch { name: \"main\" }",
            "IndexAll",
        ]
    );
}

#[test]
fn run_push_stops_where_the_repository_cannot_be_had() {
    let pc = config();
    let env = env();
    let keys = keys();
    let state = RunState::new();
    let (state, action) = run_push(&pc, "/work", &env, &keys, &state, &Event::Start);
    assert_eq!(format!("{:?}", action), "Open { path: \"/home/owner/.homesync\" }");
    let (state, action) = run_push(
        &pc,
        "/work",
        &env,
        &keys,
        &state,
        &failed(ErrorCode::Locked, ErrorClass::Os),
    );
    assert_eq!(state.init.phase, InitPhase::Failed);
    assert_eq!(state.sync.phase, Phase::Start);
    match action {
        Action::Fail(Error::GitError(e)) => {
            assert_eq!(e.code, ErrorCode::Locked);
            assert_eq!(e.class, ErrorClass::Os);
        }
        other => panic!("unexpected: {:?}", other),
    }
}

#[test]
fn git_error_messages() {
    assert_eq!(
        Error::InvalidBareRepo.message(),
        "Local repository should be a working directory. Did you manually initialize with `--bare`?"
    );
    assert_eq!(
        Error::GitError(failure(ErrorCode::Auth, ErrorClass::Ssh)).message(),
        "failed"
    );
    assert_eq!(Outcome::Pushed, Outcome::Pushed);
}

#[test]
fn sentinel_marks_a_managed_repository() {
    let entries = vec![
        DirEntry { name: ".git".to_owned(), is_dir: true },
        DirEntry { name: ".homesync".to_owned(), is_dir: false },
        DirEntry { name: "marker".to_owned(), is_dir: true },
    ];
    assert!(homesync::git::check_sentinel(&entries, None).is_ok());
    assert!(homesync::git::check_sentinel(&entries, Some(".homesync")).is_ok());
    match homesync::git::check_sentinel(&entries, Some("marker")) {
        Err(Error::NotHomesyncRepo) => {}
        other => panic!("unexpected: {:?}", other),
    }
    match homesync::git::check_sentinel(&vec![], Some(".homesync")) {
        Err(e) => assert_eq!(e.message(), "Local repository is not managed by homesync."),
        other => panic!("unexpected: {:?}", other),
    }
}
