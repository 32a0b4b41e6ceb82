use homesync::config::{
    default_paths, list_packages, load, loaded, reload, Config, Error, Load, Packages, PathConfig,
    Remote, Repos, User, SSH,
};
use homesync::io::{ErrorKind, IoError};
use homesync::path::ResPathBuf;

fn config(packages: Packages) -> Config {
    Config {
        user: User {
            name: "name".to_owned(),
            email: "email@email.com".to_owned(),
        },
        ssh: SSH {
            public: None,
            private: "$HOME/.ssh/id_ed25519".to_owned(),
        },
        repos: Repos {
            local: "$HOME/.homesync".to_owned(),
            remote: Remote {
                name: "origin".to_owned(),
                branch: "master".to_owned(),
                url: "https://github.com/owner/repo.git".to_owned(),
            },
        },
        unmanaged: None,
        packages,
    }
}

fn candidates() -> Vec<ResPathBuf> {
    vec![
        ResPathBuf::new("/home/owner/.homesync.yml", "$HOME/.homesync.yml").unwrap(),
        ResPathBuf::new("/home/owner/.config/homesync/homesync.yml", "x").unwrap(),
    ]
}

fn missing() -> Result<String, IoError> {
    Err(IoError::new(ErrorKind::NotFound, "missing"))
}

#[test]
fn tracking_branch_joins_remote_and_branch() {
    let remote = Remote {
        name: "origin".to_owned(),
        branch: "main".to_owned(),
        url: "".to_owned(),
    };
    assert_eq!(remote.tracking_branch(), "origin/main");
}

#[test]
fn default_paths_in_order_of_priority() {
    assert_eq!(
        default_paths(),
        vec![
            "$HOME/.homesync.yml",
            "$HOME/.config/homesync/homesync.yml",
            "$XDG_CONFIG_HOME/homesync.yml",
            "$XDG_CONFIG_HOME/homesync/homesync.yml",
        ]
    );
}

#[test]
fn packages_hold_each_name_once() {
    let mut packages = Packages::new();
    assert_eq!(packages.len(), 0);
    packages.insert("b", vec!["x".to_owned()]);
    packages.insert("a", vec!["y".to_owned(), "z".to_owned()]);
    packages.insert("b", vec!["w".to_owned()]);
    assert_eq!(packages.len(), 2);
    assert_eq!(packages.at(0).name, "a");
    assert_eq!(packages.at(1).name, "b");
    assert_eq!(packages.at(1).configs, vec!["w".to_owned()]);
    assert_eq!(packages.find("a"), Some(0));
    assert_eq!(packages.find("c"), None);
    for name in ["", "ab", "aa", "B", "\u{e9}", "a\u{0}", "abc"] {
        packages.insert(name, vec![]);
    }
    let names: Vec<String> = (0..packages.len()).map(|i| packages.at(i).name.clone()).collect();
    let mut sorted = names.clone();
    sorted.sort();
    assert_eq!(names, sorted);
    assert_eq!(names, vec!["", "B", "a", "a\u{0}", "aa", "ab", "abc", "b", "\u{e9}"]);
    assert!(homesync::text::comes_before("a", "ab"));
    assert!(!homesync::text::comes_before("ab", "a"));
    assert!(!homesync::text::comes_before("a", "a"));
    assert!(homesync::text::comes_before("Z", "a"));
    assert_eq!(packages.get("a"), Some(&vec!["y".to_owned(), "z".to_owned()]));
    assert_eq!(packages.get("c"), None);
}

#[test]
fn load_reads_candidates_until_one_is_there() {
    let candidates = candidates();
    match load(&candidates, &vec![]) {
        Load::Read(0) => {}
        other => panic!("unexpected: {:?}", other),
    }
    match load(&candidates, &vec![missing()]) {
        Load::Read(1) => {}
        other => panic!("unexpected: {:?}", other),
    }
    match load(&candidates, &vec![missing(), Ok("text".to_owned())]) {
        Load::Parse(1) => {}
        other => panic!("unexpected: {:?}", other),
    }
    match load(&candidates, &vec![Ok("text".to_owned())]) {
        Load::Parse(0) => {}
        other => panic!("unexpected: {:?}", other),
    }
    match load(&candidates, &vec![Ok("first".to_owned()), Ok("second".to_owned())]) {
        Load::Parse(0) => {}
        other => panic!("unexpected: {:?}", other),
    }
}

#[test]
fn load_fails_on_the_first_failure_that_is_not_a_missing_file() {
    let candidates = candidates();
    let denied = || Err(IoError::new(ErrorKind::PermissionDenied, "denied"));
    match load(&candidates, &vec![denied()]) {
        Load::Fail(Error::IOError(e)) => {
            assert_eq!(e.kind, ErrorKind::PermissionDenied);
            assert_eq!(e.message, "denied");
        }
        other => panic!("unexpected: {:?}", other),
    }
    match load(&candidates, &vec![missing(), denied()]) {
        Load::Fail(Error::IOError(e)) => assert_eq!(e.kind, ErrorKind::PermissionDenied),
        other => panic!("unexpected: {:?}", other),
    }
    match load(&candidates, &vec![denied(), Ok("text".to_owned())]) {
        Load::Fail(Error::IOError(_)) => {}
        other => panic!("unexpected: {:?}", other),
    }
}

#[test]
fn load_without_a_file_is_a_missing_configuration() {
    let candidates = candidates();
    match load(&candidates, &vec![missing(), missing()]) {
        Load::Fail(Error::MissingConfig) => {}
        other => panic!("unexpected: {:?}", other),
    }
    match load(&candidates, &vec![missing(), missing(), Ok("late".to_owned())]) {
        Load::Fail(Error::MissingConfig) => {}
        other => panic!("unexpected: {:?}", other),
    }
    match load(&vec![], &vec![]) {
        Load::Fail(e) => assert_eq!(e.message(), "Could not find configuration file"),
        other => panic!("unexpected: {:?}", other),
    }
}

#[test]
fn reload_reads_the_file_of_the_configuration_only() {
    let pc = PathConfig::new(&candidates()[0], config(Packages::new()));
    match reload(&pc, &vec![]) {
        Load::Read(0) => {}
        other => panic!("unexpected: {:?}", other),
    }
    match reload(&pc, &vec![missing()]) {
        Load::Fail(Error::MissingConfig) => {}
        other => panic!("unexpected: {:?}", other),
    }
    match reload(&pc, &vec![Ok("text".to_owned())]) {
        Load::Parse(0) => {}
        other => panic!("unexpected: {:?}", other),
    }
}

#[test]
fn loaded_pairs_the_configuration_with_its_file() {
    let candidate = &candidates()[1];
    let pc = loaded(candidate, Ok(config(Packages::new()))).unwrap();
    assert_eq!(pc.homesync_yml.resolved(), "/home/owner/.config/homesync/homesync.yml");
    assert_eq!(pc.homesync_yml.unresolved(), "x");
    assert_eq!(pc.config.user.name, "name");
    match loaded(candidate, Err("bad yaml".to_owned())) {
        Err(Error::SerdeError(text)) => assert_eq!(text, "bad yaml"),
        other => panic!("unexpected: {:?}", other),
    }
}

#[test]
fn list_packages_names_the_file_and_each_package() {
    let mut packages = Packages::new();
    packages.insert("homesync", vec!["$HOME/.homesync.yml".to_owned()]);
    packages.insert("alacritty", vec![]);
    let pc = PathConfig::new(&candidates()[0], config(packages));
    let lines = list_packages(&pc);
    assert_eq!(
        lines,
        vec![
            "Listing packages in \u{1b}[36m$HOME/.homesync.yml\u{1b}[0m...\n".to_owned(),
            "\u{2022} alacritty".to_owned(),
            "\u{2022} homesync".to_owned(),
        ]
    );
    assert_eq!(homesync::run_list(&pc), lines);
}

#[test]
fn config_error_messages() {
    assert_eq!(Error::MissingConfig.message(), "Could not find configuration file");
    assert_eq!(Error::SerdeError("bad".to_owned()).message(), "bad");
    let from = Error::from_path(homesync::path::Error::IOError(IoError::new(
        ErrorKind::NotFound,
        "gone",
    )));
    match from {
        Error::IOError(e) => {
            assert_eq!(e.kind, ErrorKind::NotFound);
            assert_eq!(e.message, "gone");
        }
        other => panic!("unexpected: {:?}", other),
    }
}

#[test]
fn find_candidates_keeps_the_files_that_are_there() {
    let mut env = homesync::vars::Env::new();
    env.set("HOME", "/home/owner");
    let found = |path: &str| -> Result<String, IoError> { Ok(path.to_owned()) };
    let files = homesync::config::find_candidates(
        None,
        "/",
        &env,
        &vec![
            missing(),
            found("/home/owner/.config/homesync/homesync.yml"),
            found("/never/asked"),
            missing(),
        ],
    )
    .unwrap();
    assert_eq!(files.len(), 1);
    assert_eq!(files[0].resolved(), "/home/owner/.config/homesync/homesync.yml");
    assert_eq!(files[0].unresolved(), "$HOME/.config/homesync/homesync.yml");
    let files =
        homesync::config::find_candidates(Some("my.yml"), "/work", &env, &vec![found("/work/my.yml")])
            .unwrap();
    assert_eq!(files[0].resolved(), "/work/my.yml");
    assert_eq!(files[0].unresolved(), "my.yml");
}

#[test]
fn find_candidates_fails_where_no_file_is_there() {
    let env = homesync::vars::Env::new();
    match homesync::config::find_candidates(Some("my.yml"), "/work", &env, &vec![missing()]) {
        Err(e) => {
            assert_eq!(e.kind, ErrorKind::NotFound);
            assert_eq!(e.message, "my.yml is not a valid config path.");
        }
        other => panic!("unexpected: {:?}", other),
    }
    let denied = Err(IoError::new(ErrorKind::PermissionDenied, "denied"));
    match homesync::config::find_candidates(Some("my.yml"), "/work", &env, &vec![denied]) {
        Err(e) => assert_eq!(e.kind, ErrorKind::NotFound),
        other => panic!("unexpected: {:?}", other),
    }
    match homesync::config::find_candidates(None, "/work", &env, &vec![]) {
        Err(e) => assert_eq!(
            e.message,
            "Could not find a suitable configuration path. Is $XDG_CONFIG_PATH or $HOME defined?"
        ),
        other => panic!("unexpected: {:?}", other),
    }
}

#[test]
fn config_errors_take_over_the_failures_of_paths() {
    let from = Error::from_path(homesync::path::Error::VarError(
        homesync::vars::VarError::NotPresent,
    ));
    match &from {
        Error::VarError(homesync::vars::VarError::NotPresent) => {}
        other => panic!("unexpected: {:?}", other),
    }
    assert_eq!(from.message(), "environment variable not found");
}
