use homesync::homesync::config::{
    candidate_paths, find_config, generate_config, get_document, read_optional_config, Config,
    Error, ErrorKind, Find, Key, Node,
};
use homesync::io::{ErrorKind as IoKind, IoError};
use homesync::vars::Env;

fn flaw(r: Result<Config, Error>) -> String {
    match r {
        Err(e) => e.message(),
        Ok(config) => panic!("unexpected: {:?}", config),
    }
}

#[test]
fn config_needs_the_remote() {
    let config = Config::new("/f.yml", "remote:\n  owner: me\n  name: repo\nother: 1\n").unwrap();
    assert_eq!(config.path, "/f.yml");
    assert_eq!(config.remote.owner, "");
    assert_eq!(config.remote.name, "");
    assert!(config.packages.is_empty());
    assert_eq!(
        flaw(Config::new("/f.yml", "packages:\n  a: []\n")),
        "File /f.yml failed with error: missing key 'remote'"
    );
    assert_eq!(
        flaw(Config::new("/f.yml", "1: x\nRemote: y\n")),
        "File /f.yml failed with error: missing key 'remote'"
    );
}

#[test]
fn config_needs_one_document_that_is_a_dictionary() {
    assert_eq!(
        flaw(Config::new("/f.yml", "")),
        "File /f.yml failed with error: has no YAML document"
    );
    assert_eq!(
        flaw(Config::new("/f.yml", "---\nremote: a\n---\nremote: b\n")),
        "File /f.yml failed with error: has multiple YAML documents"
    );
    assert_eq!(
        flaw(Config::new("/f.yml", "- remote\n- packages\n")),
        "File /f.yml failed with error: expected dictionary"
    );
    assert_eq!(
        flaw(Config::new("/f.yml", "remote")),
        "File /f.yml failed with error: expected dictionary"
    );
    let scan = flaw(Config::new("/f.yml", "remote: [a, b\nother: }"));
    assert!(scan.starts_with("File /f.yml failed with error: "), "{}", scan);
    assert!(scan.contains("line"), "{}", scan);
}

#[test]
fn config_is_read_from_what_was_loaded() {
    let remote = || (Node::Text("remote".to_owned()), Node::Null);
    let config = Config::read("p", Ok(vec![Node::Hash(vec![remote()])])).unwrap();
    assert_eq!(config.path, "p");
    assert_eq!(
        flaw(Config::read("p", Ok(vec![Node::Hash(vec![])]))),
        "File p failed with error: missing key 'remote'"
    );
    assert_eq!(
        flaw(Config::read("p", Ok(vec![Node::Hash(vec![(Node::Integer(1), Node::Null)])]))),
        "File p failed with error: missing key 'remote'"
    );
    assert_eq!(
        flaw(Config::read("p", Ok(vec![Node::Array(vec![Node::Text("remote".to_owned())])]))),
        "File p failed with error: expected dictionary"
    );
    assert_eq!(
        flaw(Config::read("p", Err("bad at line 1".to_owned()))),
        "File p failed with error: bad at line 1"
    );
    match get_document("p", Ok(vec![Node::Boolean(true)])) {
        Ok(Node::Boolean(true)) => {}
        other => panic!("unexpected: {:?}", other),
    }
    match get_document("p", Ok(vec![Node::Null, Node::Null])) {
        Err(Error::WithFile(e)) => assert_eq!(
            e.message(),
            "File p failed with error: has multiple YAML documents"
        ),
        other => panic!("unexpected: {:?}", other),
    }
}

#[test]
fn keys_and_flaws_in_words() {
    assert_eq!(Key::Packages.name(), "packages");
    assert_eq!(Key::Remote.name(), "remote");
    assert_eq!(Key::RemoteName.name(), "name");
    assert_eq!(Key::RemoteOwner.name(), "owner");
    match Key::Remote.to_yaml() {
        Node::Text(text) => assert_eq!(text, "remote"),
        other => panic!("unexpected: {:?}", other),
    }
    assert_eq!(ErrorKind::InvalidHash.message(), "expected dictionary");
    assert_eq!(ErrorKind::MissingKey(Key::RemoteOwner).message(), "missing key 'owner'");
    assert_eq!(ErrorKind::NoDocument.message(), "has no YAML document");
    assert_eq!(
        Error::new("/f", ErrorKind::MultipleDocuments).message(),
        "File /f failed with error: has multiple YAML documents"
    );
    assert!(Error::MissingConfig
        .message()
        .starts_with("Could not find a valid configuration file. Looked in \n\n- `$HOME/.homesync.yml` \n"));
}

#[test]
fn candidate_paths_follow_the_environment() {
    let mut env = Env::new();
    assert!(candidate_paths(&env).is_empty());
    env.set("XDG_CONFIG_HOME", "/xdg/");
    assert_eq!(
        candidate_paths(&env),
        vec!["/xdg/homesync.yml", "/xdg/homesync/homesync.yml"]
    );
    env.set("HOME", "/home/owner");
    assert_eq!(
        candidate_paths(&env),
        vec![
            "/home/owner/.homesync.yml",
            "/home/owner/.config/homesync/homesync.yml",
            "/xdg/homesync.yml",
            "/xdg/homesync/homesync.yml",
        ]
    );
    env.set("HOME", "");
    assert_eq!(candidate_paths(&env)[0], ".homesync.yml");
    assert_eq!(candidate_paths(&env)[1], ".config/homesync/homesync.yml");
}

#[test]
fn find_config_takes_the_first_file_that_can_be_read() {
    let mut env = Env::new();
    env.set("HOME", "/home/owner");
    let missing = || Err(IoError::new(IoKind::NotFound, "missing"));
    let denied = || Err(IoError::new(IoKind::PermissionDenied, "denied"));
    match find_config(&env, &vec![]) {
        Find::Read(path) => assert_eq!(path, "/home/owner/.homesync.yml"),
        other => panic!("unexpected: {:?}", other),
    }
    match find_config(&env, &vec![denied()]) {
        Find::Read(path) => assert_eq!(path, "/home/owner/.config/homesync/homesync.yml"),
        other => panic!("unexpected: {:?}", other),
    }
    match find_config(&env, &vec![missing(), Ok("remote: x".to_owned())]) {
        Find::Parse(1, path) => assert_eq!(path, "/home/owner/.config/homesync/homesync.yml"),
        other => panic!("unexpected: {:?}", other),
    }
    match find_config(&env, &vec![Ok("a".to_owned()), Ok("b".to_owned())]) {
        Find::Parse(0, path) => assert_eq!(path, "/home/owner/.homesync.yml"),
        other => panic!("unexpected: {:?}", other),
    }
    match find_config(&env, &vec![missing(), denied()]) {
        Find::Missing => {}
        other => panic!("unexpected: {:?}", other),
    }
    match find_config(&env, &vec![missing(), denied(), Ok("late".to_owned())]) {
        Find::Missing => {}
        other => panic!("unexpected: {:?}", other),
    }
    match find_config(&Env::new(), &vec![]) {
        Find::Missing => {}
        other => panic!("unexpected: {:?}", other),
    }
}

#[test]
fn read_optional_config_forgives_a_missing_file() {
    assert_eq!(
        read_optional_config(Ok("text".to_owned())).unwrap(),
        Some("text".to_owned())
    );
    assert_eq!(
        read_optional_config(Err(IoError::new(IoKind::NotFound, "missing"))).unwrap(),
        None
    );
    match read_optional_config(Err(IoError::new(IoKind::PermissionDenied, "denied"))) {
        Err(e) => {
            assert_eq!(e.kind, IoKind::PermissionDenied);
            assert_eq!(e.message, "denied");
        }
        other => panic!("unexpected: {:?}", other),
    }
}

#[test]
fn generate_config_is_blank() {
    let config = generate_config();
    assert_eq!(config.path, "");
    assert_eq!(config.remote.owner, "");
    assert_eq!(config.remote.name, "");
    assert!(config.packages.is_empty());
}

fn nested(levels: usize) -> String {
    let mut text = String::new();
    for _ in 0..levels {
        text.push_str("- ");
    }
    text.push_str("a\n");
    text
}

#[test]
fn config_is_not_read_where_it_may_nest_too_deeply() {
    assert_eq!(homesync::homesync::config::MAX_OPENERS, 128);
    assert!(homesync::homesync::config::check_readable(&nested(128)));
    assert_eq!(
        flaw(Config::new("/f.yml", &nested(128))),
        "File /f.yml failed with error: expected dictionary"
    );
    assert!(!homesync::homesync::config::check_readable(&nested(129)));
    assert_eq!(
        flaw(Config::new("/f.yml", &nested(129))),
        "File /f.yml failed with error: may nest or repeat its values too much"
    );
    match Config::new("/f.yml", &nested(200000)) {
        Err(Error::WithFile(_)) => {}
        other => panic!("unexpected: {:?}", other),
    }
    let mut wide = "remote: x\npackages:\n".to_owned();
    for i in 0..125 {
        wide.push_str(&format!("  - path{}\n", i));
    }
    assert!(Config::new("/f.yml", &wide).is_ok());
    wide.push_str("  - a-b\n");
    assert_eq!(
        flaw(Config::new("/f.yml", &wide)),
        "File /f.yml failed with error: may nest or repeat its values too much"
    );
    let mixed = "remote: {a: [1, {b: 2}]}\n? c\n: d\n";
    assert!(homesync::homesync::config::check_readable(mixed));
    assert!(Config::new("/f.yml", mixed).is_ok());
}

#[test]
fn config_is_not_read_where_it_may_repeat_too_much() {
    let mut text = "remote: &r [x, x]\n".to_owned();
    for i in 0..8 {
        text.push_str(&format!("k{}: *r\n", i));
    }
    assert!(homesync::homesync::config::check_readable(&text));
    assert!(Config::new("/f.yml", &text).is_ok());
    text.push_str("last: *r\n");
    assert!(!homesync::homesync::config::check_readable(&text));
    assert_eq!(
        flaw(Config::new("/f.yml", &text)),
        "File /f.yml failed with error: may nest or repeat its values too much"
    );
    assert_eq!(
        ErrorKind::TooDeep.message(),
        "may nest or repeat its values too much"
    );
}

