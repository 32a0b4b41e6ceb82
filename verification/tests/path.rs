use homesync::io::{ErrorKind, IoError};
use homesync::path::{expand, Error, ResPathBuf};
use homesync::vars::{Env, VarError};
use std::collections::HashSet;
use tempfile::NamedTempFile;

/// Asks the file system for the canonical form of a path.
fn canonical(path: &str) -> Result<String, IoError> {
    match std::path::Path::new(path).canonicalize() {
        Ok(found) => Ok(found.to_str().unwrap().to_owned()),
        Err(e) => Err(IoError {
            kind: match e.kind() {
                std::io::ErrorKind::NotFound => ErrorKind::NotFound,
                std::io::ErrorKind::PermissionDenied => ErrorKind::PermissionDenied,
                _ => ErrorKind::Other,
            },
            message: e.to_string(),
        }),
    }
}

/// Resolves a path against the disk, from the root, with nothing set.
fn resolve_on_disk(path: &str) -> Result<ResPathBuf, Error> {
    let env = Env::new();
    let answer = match expand(path, "/", &env) {
        Ok(expanded) => canonical(&expanded),
        Err(_) => Err(IoError::new(ErrorKind::Other, "not asked")),
    };
    homesync::path::resolve(path, "/", &env, &answer)
}

fn soft_resolve_on_disk(path: &str) -> Result<Option<ResPathBuf>, Error> {
    let env = Env::new();
    let answer = match expand(path, "/", &env) {
        Ok(expanded) => canonical(&expanded),
        Err(_) => Err(IoError::new(ErrorKind::Other, "not asked")),
    };
    homesync::path::soft_resolve(path, "/", &env, &answer)
}

#[test]
fn respath_absolute() {
    let abs = "/home/jrpotter/example";
    let rel = "home/jrpotter/example";
    assert!(ResPathBuf::new(abs, rel).is_ok());
    assert!(ResPathBuf::new(rel, rel).is_err());
}

#[test]
fn respath_equality() {
    let path = "/home/jrpotter/example";
    let res1 = ResPathBuf::new(path, "rel1").unwrap();
    let res2 = ResPathBuf::new(path, "rel2").unwrap();
    assert_eq!(res1, res2);
}

#[test]
fn respath_hash() {
    let mut set = HashSet::new();
    let path = "/home/jrpotter/example";
    let res1 = ResPathBuf::new(path, "rel1").unwrap();
    let res2 = ResPathBuf::new(path, "rel2").unwrap();
    set.insert(res1);
    set.insert(res2);
    assert_eq!(set.len(), 1);
}

#[test]
fn expand_root_dir() {
    let env = Env::new();
    let current = "/home/jrpotter/project";
    let expanded = expand("", current, &env).unwrap();
    assert_eq!(current, expanded);
    let expanded = expand("/", current, &env).unwrap();
    assert_eq!("/", expanded);
}

#[test]
fn expand_component() {
    let mut env = Env::new();
    env.set("EXAMPLE", "example");
    let expanded = expand("/a/b/$EXAMPLE/c", "/", &env).unwrap();
    assert_eq!("/a/b/example/c", expanded);
    let expanded = expand("/a/b/pre$EXAMPLE/c", "/", &env).unwrap();
    assert_eq!("/a/b/pre$EXAMPLE/c", expanded);
}

#[test]
fn resolve() {
    let path: String;
    {
        let temp = NamedTempFile::new().unwrap();
        path = temp.path().to_str().unwrap().to_owned();
        assert!(resolve_on_disk(&path).is_ok());
    }
    assert!(resolve_on_disk(&path).is_err());
}

#[test]
fn soft_resolve() {
    let path: String;
    {
        let temp = NamedTempFile::new().unwrap();
        path = temp.path().to_str().unwrap().to_owned();
        assert!(soft_resolve_on_disk(&path).unwrap().is_some());
    }
    assert!(soft_resolve_on_disk(&path).unwrap().is_none());
}

#[test]
fn expand_longer_name_is_another_variable() {
    let mut env = Env::new();
    env.set("EXAMPLE", "example");
    match expand("/a/$EXAMPLEFOO/c", "/", &env) {
        Err(Error::VarError(VarError::NotPresent)) => {}
        other => panic!("unexpected: {:?}", other),
    }
}

#[test]
fn expand_steps_up_and_fails_above_the_root() {
    let env = Env::new();
    assert_eq!(expand("../x", "/a/b", &env).unwrap(), "/a/x");
    assert_eq!(expand("./x/./y/", "/a/b", &env).unwrap(), "/a/b/x/y");
    assert_eq!(expand("x//y", "/a//b/", &env).unwrap(), "/a/b/x/y");
    assert_eq!(expand("/a/../b", "/c", &env).unwrap(), "/b");
    match expand("/..", "/a", &env) {
        Err(Error::IOError(e)) => {
            assert_eq!(e.kind, ErrorKind::InvalidInput);
            assert_eq!(e.message, "Cannot take parent of root.");
        }
        other => panic!("unexpected: {:?}", other),
    }
    match expand("../../..", "/a/b", &env) {
        Err(Error::IOError(e)) => assert_eq!(e.kind(), ErrorKind::InvalidInput),
        other => panic!("unexpected: {:?}", other),
    }
    assert_eq!(expand("..", "a", &env).unwrap(), "");
    match expand("..", "", &env) {
        Err(Error::IOError(e)) => assert_eq!(e.kind, ErrorKind::InvalidInput),
        other => panic!("unexpected: {:?}", other),
    }
}

#[test]
fn expand_pushes_the_value_of_a_variable_as_a_path() {
    let mut env = Env::new();
    env.set("HOME", "/home/owner");
    env.set("EMPTY", "");
    env.set("SUB", "x/../y/");
    env.set("HERE", "./z");
    assert_eq!(expand("$HOME/.homesync.yml", "/work", &env).unwrap(), "/home/owner/.homesync.yml");
    assert_eq!(expand("a/$HOME/b", "/work", &env).unwrap(), "/home/owner/b");
    assert_eq!(expand("$EMPTY/homesync.yml", "/work", &env).unwrap(), "/work/homesync.yml");
    assert_eq!(expand("$SUB/f", "/work", &env).unwrap(), "/work/x/../y/f");
    assert_eq!(expand("$HERE", "/work", &env).unwrap(), "/work/z");
    assert_eq!(expand("$HERE", "", &env).unwrap(), "./z");
    assert_eq!(expand("a$HOME", "/work", &env).unwrap(), "/work/a$HOME");
}

#[test]
fn expand_reports_the_variable_that_has_no_value() {
    let mut env = Env::new();
    env.set("SET", "value");
    env.set_unreadable("BROKEN");
    match expand("$UNSET/x", "/", &env) {
        Err(Error::VarError(VarError::NotPresent)) => {}
        other => panic!("unexpected: {:?}", other),
    }
    match expand("$BROKEN/x", "/", &env) {
        Err(Error::VarError(VarError::NotUnicode)) => {}
        other => panic!("unexpected: {:?}", other),
    }
    match expand("$/x", "/", &env) {
        Err(Error::VarError(VarError::NotPresent)) => {}
        other => panic!("unexpected: {:?}", other),
    }
    match expand("$SET$SET", "/", &env) {
        Err(Error::VarError(VarError::NotPresent)) => {}
        other => panic!("unexpected: {:?}", other),
    }
    env.set("BROKEN", "mended");
    assert_eq!(expand("$BROKEN/x", "/", &env).unwrap(), "/mended/x");
    assert_eq!(env.var("SET").unwrap(), "value");
    assert_eq!(env.var("UNSET"), Err(VarError::NotPresent));
}

#[test]
fn path_error_messages() {
    assert_eq!(
        Error::VarError(VarError::NotPresent).message(),
        "environment variable not found"
    );
    assert_eq!(
        Error::VarError(VarError::NotUnicode).message(),
        "environment variable was not valid unicode"
    );
    match ResPathBuf::new("rel", "rel") {
        Err(e) => assert_eq!(e.message(), "Path 'rel' should be fully resolved."),
        Ok(_) => panic!("a relative path was taken for a resolved one"),
    }
    let e = homesync::path::unresolved_error("a/b");
    assert_eq!(e.kind, ErrorKind::Other);
    assert_eq!(e.message, "Path 'a/b' should be fully resolved.");
}

#[test]
fn split_and_join() {
    let shown = |path: &str| -> String { format!("{:?}", homesync::path::split(path)) };
    assert_eq!(shown(""), "[]");
    assert_eq!(shown("/"), "[RootDir]");
    assert_eq!(shown("."), "[CurDir]");
    assert_eq!(shown("./a/./b/"), "[CurDir, Normal(\"a\"), Normal(\"b\")]");
    assert_eq!(shown("//a//..//.b"), "[RootDir, Normal(\"a\"), ParentDir, Normal(\".b\")]");
    assert_eq!(shown("..."), "[Normal(\"...\")]");
    assert_eq!(shown("a/.."), "[Normal(\"a\"), ParentDir]");
    let again = |path: &str| -> String { homesync::path::join(&homesync::path::split(path)) };
    assert_eq!(again(""), "");
    assert_eq!(again("/"), "/");
    assert_eq!(again("./a/./b/"), "./a/b");
    assert_eq!(again("//a//..//.b"), "/a/../.b");
    assert_eq!(again("a/b"), "a/b");
    assert!(homesync::path::same_path("a//b/", "a/b"));
    assert!(!homesync::path::same_path("./a", "a"));
    assert!(homesync::path::has_root("/a"));
    assert!(!homesync::path::has_root("a/"));
    assert!(!homesync::path::has_root(""));
    assert_eq!(homesync::path::parent(&homesync::path::split("/a/b")), Some("/a".to_owned()));
    assert_eq!(homesync::path::parent(&homesync::path::split("a")), Some("".to_owned()));
    assert_eq!(homesync::path::parent(&homesync::path::split("/")), None);
    assert_eq!(homesync::path::parent(&homesync::path::split("")), None);
}

#[test]
fn respath_equality_is_by_the_resolved_path() {
    let res1 = ResPathBuf::new("/home/jrpotter/example", "rel").unwrap();
    let res2 = ResPathBuf::new("/home//jrpotter/example/", "rel").unwrap();
    let res3 = ResPathBuf::new("/home/jrpotter/other", "rel").unwrap();
    assert_eq!(res1, res2);
    assert_ne!(res1, res3);
    assert!(res1.is_at("/home/jrpotter/./example"));
    assert!(!res1.is_at("home/jrpotter/example"));
    assert_eq!(res2.resolved(), "/home//jrpotter/example/");
    assert_eq!(res2.unresolved(), "rel");
    assert_eq!(res2.clone().into_resolved(), "/home//jrpotter/example/");
    let mut set = HashSet::new();
    set.insert(res1);
    set.insert(res2);
    set.insert(res3);
    assert_eq!(set.len(), 2);
}

#[test]
fn resolve_goes_by_the_answer_of_the_file_system() {
    let mut env = Env::new();
    env.set("HOME", "/home/owner");
    let found = homesync::path::resolve(
        "$HOME/link",
        "/work",
        &env,
        &Ok("/data/file".to_owned()),
    )
    .unwrap();
    assert_eq!(found.resolved(), "/data/file");
    assert_eq!(found.unresolved(), "$HOME/link");
    let denied = Err(IoError::new(ErrorKind::PermissionDenied, "denied"));
    match homesync::path::resolve("$HOME/link", "/work", &env, &denied) {
        Err(Error::IOError(e)) => {
            assert_eq!(e.kind, ErrorKind::PermissionDenied);
            assert_eq!(e.message, "denied");
        }
        other => panic!("unexpected: {:?}", other),
    }
    match homesync::path::resolve("$NONE/link", "/work", &env, &Ok("/data/file".to_owned())) {
        Err(Error::VarError(VarError::NotPresent)) => {}
        other => panic!("unexpected: {:?}", other),
    }
    match homesync::path::resolve("x", "/work", &env, &Ok("data/file".to_owned())) {
        Err(Error::IOError(e)) => assert_eq!(e.kind, ErrorKind::Other),
        other => panic!("unexpected: {:?}", other),
    }
}

#[test]
fn resolve_of_a_resolved_path_is_the_same_file() {
    let env = Env::new();
    let temp = NamedTempFile::new().unwrap();
    let path = temp.path().to_str().unwrap().to_owned();
    let once = resolve_on_disk(&path).unwrap();
    assert_eq!(expand(once.resolved(), "/elsewhere", &env).unwrap(), *once.resolved());
    let twice = resolve_on_disk(once.resolved()).unwrap();
    assert_eq!(once, twice);
    assert_eq!(once.resolved(), twice.resolved());
}

#[test]
fn soft_resolve_tells_not_yet_from_never() {
    let mut env = Env::new();
    env.set("HOME", "/home/owner");
    let missing = Err(IoError::new(ErrorKind::NotFound, "missing"));
    assert!(homesync::path::soft_resolve("$HOME/f", "/", &env, &missing)
        .unwrap()
        .is_none());
    assert!(homesync::path::soft_resolve("$NONE/f", "/", &env, &Ok("/f".to_owned()))
        .unwrap()
        .is_none());
    let denied = Err(IoError::new(ErrorKind::PermissionDenied, "denied"));
    match homesync::path::soft_resolve("$HOME/f", "/", &env, &denied) {
        Err(Error::IOError(e)) => assert_eq!(e.kind, ErrorKind::PermissionDenied),
        other => panic!("unexpected: {:?}", other),
    }
    match homesync::path::soft_resolve("/..", "/", &env, &Ok("/f".to_owned())) {
        Err(Error::IOError(e)) => assert_eq!(e.kind, ErrorKind::InvalidInput),
        other => panic!("unexpected: {:?}", other),
    }
    let found = homesync::path::soft_resolve("$HOME/f", "/", &env, &Ok("/home/owner/f".to_owned()))
        .unwrap()
        .unwrap();
    assert_eq!(found.resolved(), "/home/owner/f");
}

#[test]
fn soft_resolve_finds_the_file_once_it_is_there() {
    let dir = tempfile::tempdir().unwrap();
    let path = format!("{}/later", dir.path().to_str().unwrap());
    assert!(soft_resolve_on_disk(&path).unwrap().is_none());
    let _file = tempfile::Builder::new()
        .prefix("later")
        .rand_bytes(0)
        .tempfile_in(dir.path())
        .unwrap();
    assert!(soft_resolve_on_disk(&path).unwrap().is_some());
}

#[test]
fn expand_refuses_the_prefixes_of_windows() {
    let env = Env::new();
    for path in ["C:", "C:\\Users\\owner", "c:/Users", "z:relative", "\\\\server\\share\\f", "\\\\?\\C:\\f"] {
        match expand(path, "/work", &env) {
            Err(Error::IOError(e)) => {
                assert_eq!(e.kind, ErrorKind::InvalidInput);
                assert_eq!(e.message, "We do not support Windows.");
            }
            other => panic!("unexpected for {}: {:?}", path, other),
        }
        match homesync::path::resolve(path, "/work", &env, &Ok("/found".to_owned())) {
            Err(Error::IOError(e)) => assert_eq!(e.kind, ErrorKind::InvalidInput),
            other => panic!("unexpected for {}: {:?}", path, other),
        }
        match homesync::path::soft_resolve(path, "/work", &env, &Ok("/found".to_owned())) {
            Err(Error::IOError(e)) => assert_eq!(e.kind, ErrorKind::InvalidInput),
            other => panic!("unexpected for {}: {:?}", path, other),
        }
        assert!(homesync::path::is_prefixed(path));
    }
    for path in ["", "C", ":C", "1:", "/C:", "a/C:", "\\a", "CC:", "\u{e9}:"] {
        assert!(!homesync::path::is_prefixed(path), "{}", path);
        assert!(expand(path, "/work", &env).is_ok(), "{}", path);
    }
    assert_eq!(expand("a/C:", "/work", &env).unwrap(), "/work/a/C:");
}

