use homesync::config::{Config, Packages, PathConfig, Remote, Repos, User, SSH};
use homesync::daemon::{
    launch, poll_pending, Level, Poll, PollEvent, Polled, Poller, Received, WatchEvent, WatchOp,
    WatchState,
};
use homesync::io::{ErrorKind, IoError};
use homesync::path::ResPathBuf;
use homesync::vars::Env;
use homesync::{run_daemon, Step};

fn config(paths: Vec<&str>) -> PathConfig {
    let mut packages = Packages::new();
    packages.insert("homesync", paths.iter().map(|p| p.to_string()).collect());
    let config = Config {
        user: User {
            name: "name".to_owned(),
            email: "email@email.com".to_owned(),
        },
        ssh: SSH {
            public: None,
            private: "$HOME/.ssh/id_ed25519".to_owned(),
        },
        repos: Repos {
            local: "$HOME/.homesync".to_owned(),
            remote: Remote {
                name: "origin".to_owned(),
                branch: "main".to_owned(),
                url: "git@github.com:owner/repo.git".to_owned(),
            },
        },
        unmanaged: None,
        packages,
    };
    let file = ResPathBuf::new("/home/owner/.homesync.yml", "$HOME/.homesync.yml").unwrap();
    PathConfig::new(&file, config)
}

fn env() -> Env {
    let mut env = Env::new();
    env.set("HOME", "/home/owner");
    env
}

fn found(path: &str) -> Result<String, IoError> {
    Ok(path.to_owned())
}

fn missing() -> Result<String, IoError> {
    Err(IoError::new(ErrorKind::NotFound, "missing"))
}

fn denied() -> Result<String, IoError> {
    Err(IoError::new(ErrorKind::PermissionDenied, "denied"))
}

fn shown(ops: &Vec<WatchOp>) -> Vec<String> {
    ops.iter()
        .map(|op| match op {
            WatchOp::Poll(PollEvent::Clear) => "clear".to_owned(),
            WatchOp::Poll(PollEvent::Pending(path)) => format!("pending {}", path),
            WatchOp::Unwatch(path) => format!("unwatch {}", path.resolved()),
            WatchOp::Watch(path) => format!("watch {} as {}", path.resolved(), path.unresolved()),
        })
        .collect()
}

#[test]
fn poller_holds_each_path_once() {
    let mut poller = Poller::new();
    poller.receive(PollEvent::Pending("$HOME/a".to_owned()));
    poller.receive(PollEvent::Pending("$HOME//a/".to_owned()));
    poller.receive(PollEvent::Pending("$HOME/b".to_owned()));
    assert_eq!(poller.pending, vec!["$HOME/a".to_owned(), "$HOME/b".to_owned()]);
    assert!(poller.contains("$HOME/./b"));
    assert!(!poller.contains("$HOME/c"));
    poller.receive(PollEvent::Clear);
    assert!(poller.pending.is_empty());
}

#[test]
fn poll_pending_takes_word_scans_in_silence_and_ends_with_the_watcher() {
    let mut poller = Poller::new();
    assert_eq!(
        poll_pending(&mut poller, Received::Event(PollEvent::Pending("a".to_owned()))),
        Poll::Again
    );
    assert_eq!(poller.pending, vec!["a".to_owned()]);
    assert_eq!(poll_pending(&mut poller, Received::Empty), Poll::Scan);
    assert_eq!(poller.pending, vec!["a".to_owned()]);
    assert_eq!(poll_pending(&mut poller, Received::Disconnected), Poll::Abort);
    assert_eq!(poller.pending, vec!["a".to_owned()]);
    assert_eq!(poll_pending(&mut poller, Received::Event(PollEvent::Clear)), Poll::Again);
    assert!(poller.pending.is_empty());
}

#[test]
fn resolve_pending_reports_what_leaves_and_keeps_the_rest() {
    let env = env();
    let mut poller = Poller::new();
    for path in ["$HOME/now", "$HOME/later", "$HOME/never", "$UNSET/x", "$HOME/unasked"] {
        poller.receive(PollEvent::Pending(path.to_owned()));
    }
    let out = poller.resolve_pending(
        "/",
        &env,
        &vec![found("/home/owner/now"), missing(), denied(), found("/x")],
    );
    assert_eq!(
        poller.pending,
        vec!["$HOME/later".to_owned(), "$UNSET/x".to_owned(), "$HOME/unasked".to_owned()]
    );
    assert_eq!(out.len(), 2);
    match &out[0] {
        Polled::Created(path) => {
            assert_eq!(path.resolved(), "/home/owner/now");
            assert_eq!(path.unresolved(), "$HOME/now");
        }
        other => panic!("unexpected: {:?}", other),
    }
    match &out[1] {
        Polled::Dropped(path, homesync::path::Error::IOError(e)) => {
            assert_eq!(path, "$HOME/never");
            assert_eq!(e.kind, ErrorKind::PermissionDenied);
        }
        other => panic!("unexpected: {:?}", other),
    }
    let out = poller.resolve_pending("/", &env, &vec![missing(), missing(), missing()]);
    assert!(out.is_empty());
    assert_eq!(poller.pending.len(), 3);
}

#[test]
fn watch_state_holds_each_file_once() {
    let mut state = WatchState::new();
    let a = ResPathBuf::new("/a", "one").unwrap();
    let same = ResPathBuf::new("/a/", "two").unwrap();
    let b = ResPathBuf::new("/b", "three").unwrap();
    state.watch(a.clone(), true);
    state.watch(same, true);
    state.watch(b.clone(), false);
    assert_eq!(state.watching.len(), 1);
    assert_eq!(state.watching[0].unresolved(), "one");
    assert!(state.contains(&a));
    assert!(!state.contains(&b));
    state.watch(b.clone(), true);
    assert_eq!(state.watching.len(), 2);
}

#[test]
fn update_rebuilds_the_watches_from_nothing() {
    let pc = config(vec!["$HOME/there", "$HOME/later", "$HOME/never", "$UNSET/x", "$HOME/there"]);
    let env = env();
    let mut state = WatchState::new();
    state.watch(ResPathBuf::new("/old/one", "one").unwrap(), true);
    state.watch(ResPathBuf::new("/old/two", "two").unwrap(), true);
    let plan = state.update(
        &pc,
        "/",
        &env,
        &vec![
            found("/home/owner/there"),
            missing(),
            denied(),
            found("/x"),
            found("/home/owner/there"),
        ],
    );
    assert!(state.watching.is_empty());
    assert_eq!(
        shown(&plan),
        vec![
            "clear",
            "unwatch /old/one",
            "unwatch /old/two",
            "watch /home/owner/there as $HOME/there",
            "pending $HOME/later",
            "pending $UNSET/x",
            "watch /home/owner/there as $HOME/there",
        ]
    );
    for op in plan {
        if let WatchOp::Watch(path) = op {
            state.watch(path, true);
        }
    }
    assert_eq!(state.watching.len(), 1);
    let plan = state.update(&pc, "/", &env, &vec![]);
    assert_eq!(
        shown(&plan),
        vec![
            "clear",
            "unwatch /home/owner/there",
            "pending $HOME/there",
            "pending $HOME/later",
            "pending $HOME/never",
            "pending $UNSET/x",
            "pending $HOME/there",
        ]
    );
}

#[test]
fn launch_reloads_on_a_change_of_the_configuration_only() {
    let pc = config(vec![]);
    let own = "/home/owner/.homesync.yml".to_owned();
    let other = "/home/owner/other".to_owned();
    for event in [WatchEvent::Create(own.clone()), WatchEvent::Write(own.clone())] {
        let reaction = launch(&pc, &event);
        assert!(reaction.reload);
        assert_eq!(reaction.level, Level::Trace);
    }
    let reaction = launch(&pc, &WatchEvent::Write("/home//owner/.homesync.yml".to_owned()));
    assert!(reaction.reload);
    assert_eq!(reaction.message, "Write '/home//owner/.homesync.yml'");
    for event in [
        WatchEvent::Create(other.clone()),
        WatchEvent::Write(other.clone()),
        WatchEvent::NoticeWrite(own.clone()),
        WatchEvent::NoticeRemove(own.clone()),
        WatchEvent::Chmod(own.clone()),
        WatchEvent::Remove(own.clone()),
        WatchEvent::Rename(own.clone(), other.clone()),
        WatchEvent::Rescan,
        WatchEvent::Error("lost".to_owned(), Some(own.clone())),
        WatchEvent::Disconnected("closed".to_owned()),
    ] {
        assert!(!launch(&pc, &event).reload);
    }
}

#[test]
fn launch_warns_where_the_configuration_is_lost() {
    let pc = config(vec![]);
    let own = "/home/owner/.homesync.yml".to_owned();
    let other = "/home/owner/other".to_owned();
    let reaction = launch(&pc, &WatchEvent::Remove(own.clone()));
    assert_eq!(reaction.level, Level::Warn);
    assert_eq!(
        reaction.message,
        "Removed primary config '/home/owner/.homesync.yml'. Continuing to use last loaded state"
    );
    let reaction = launch(&pc, &WatchEvent::Remove(other.clone()));
    assert_eq!(reaction.level, Level::Trace);
    assert_eq!(reaction.message, "Remove '/home/owner/other'");
    let reaction = launch(&pc, &WatchEvent::Rename(own.clone(), other.clone()));
    assert_eq!(reaction.level, Level::Warn);
    assert_eq!(
        reaction.message,
        "Renamed primary config '/home/owner/.homesync.yml'. Continuing to use last loaded state"
    );
    let reaction = launch(&pc, &WatchEvent::Rename(own.clone(), own.clone()));
    assert_eq!(reaction.level, Level::Trace);
    assert_eq!(
        reaction.message,
        "Renamed '/home/owner/.homesync.yml' to '/home/owner/.homesync.yml'"
    );
    let reaction = launch(&pc, &WatchEvent::Rename(other.clone(), own.clone()));
    assert_eq!(reaction.level, Level::Trace);
}

#[test]
fn launch_logs_everything_else() {
    let pc = config(vec![]);
    let path = "/p".to_owned();
    let line = |event: WatchEvent| -> (Level, String) {
        let reaction = launch(&pc, &event);
        (reaction.level, reaction.message)
    };
    assert_eq!(line(WatchEvent::NoticeWrite(path.clone())), (Level::Trace, "NoticeWrite '/p'".to_owned()));
    assert_eq!(line(WatchEvent::NoticeRemove(path.clone())), (Level::Trace, "NoticeRemove '/p'".to_owned()));
    assert_eq!(line(WatchEvent::Create(path.clone())), (Level::Trace, "Create '/p'".to_owned()));
    assert_eq!(line(WatchEvent::Chmod(path.clone())), (Level::Trace, "Chmod '/p'".to_owned()));
    assert_eq!(line(WatchEvent::Rescan), (Level::Trace, "Rescanning".to_owned()));
    assert_eq!(
        line(WatchEvent::Error("lost".to_owned(), Some(path.clone()))),
        (Level::Warn, "Error lost at '/p'".to_owned())
    );
    assert_eq!(
        line(WatchEvent::Error("lost".to_owned(), None)),
        (Level::Warn, "Error lost at 'N/A'".to_owned())
    );
    assert_eq!(
        line(WatchEvent::Disconnected("closed".to_owned())),
        (Level::Error, "Watch error: closed".to_owned())
    );
}

#[test]
fn run_daemon_stages_in_every_turn() {
    let pc = config(vec![]);
    let shown = |steps: Vec<Step>| -> Vec<String> {
        steps.iter().map(|s| format!("{:?}", s)).collect()
    };
    assert_eq!(
        shown(run_daemon(&pc, 5, None)),
        vec!["Setup(5, \"/home/owner/.homesync.yml\")", "Update", "Stage", "Receive"]
    );
    assert_eq!(
        shown(run_daemon(&pc, 5, Some(&WatchEvent::Write("/home/owner/.homesync.yml".to_owned())))),
        vec![
            "Log(Trace, \"Write '/home/owner/.homesync.yml'\")",
            "Reload",
            "Update",
            "Stage",
            "Receive",
        ]
    );
    assert_eq!(
        shown(run_daemon(&pc, 5, Some(&WatchEvent::Rescan))),
        vec!["Log(Trace, \"Rescanning\")", "Stage", "Receive"]
    );
    assert_eq!(
        shown(run_daemon(&pc, 5, Some(&WatchEvent::Disconnected("closed".to_owned())))),
        vec!["Log(Error, \"Watch error: closed\")", "Stage", "Receive"]
    );
}
