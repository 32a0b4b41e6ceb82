//! Paths as they are written and paths as they are found.

use vstd::prelude::*;
use vstd::std_specs::cmp::{PartialEqSpec, PartialEqSpecImpl};
use std::hash::{Hash, Hasher};
use crate::io::{ErrorKind, IoError};
use crate::text::{chars_of, same_text};
use crate::vars::{lookup, Env, VarError};

verus! {

/// One component of a path, in the mathematical model.
pub enum Part {
    /// The root directory, written as a leading separator.
    Root,
    /// The directory itself, written `.`; kept only where it leads a path.
    Cur,
    /// The directory above, written `..`.
    Parent,
    /// Any other name.
    Normal(Seq<char>),
}

/// One component of a path.
#[derive(Debug)]
pub enum Component {
    RootDir,
    CurDir,
    ParentDir,
    Normal(String),
}

impl View for Component {
    type V = Part;

    open spec fn view(&self) -> Part {
        match self {
            Component::RootDir => Part::Root,
            Component::CurDir => Part::Cur,
            Component::ParentDir => Part::Parent,
            Component::Normal(name) => Part::Normal(name@),
        }
    }
}

impl Clone for Component {
    fn clone(&self) -> (c: Component)
        ensures
            c@ == self@,
    {
        match self {
            Component::RootDir => Component::RootDir,
            Component::CurDir => Component::CurDir,
            Component::ParentDir => Component::ParentDir,
            Component::Normal(name) => Component::Normal(name.clone()),
        }
    }
}

/// The model of a list of components.
pub open spec fn parts(v: Seq<Component>) -> Seq<Part> {
    v.map_values(|c: Component| c@)
}

/// The characters `.`.
pub open spec fn dot() -> Seq<char> {
    seq!['.']
}

/// The characters `..`.
pub open spec fn dot_dot() -> Seq<char> {
    seq!['.', '.']
}

/// What a finished name between two separators contributes: nothing where it
/// is empty or `.`, the parent for `..`, itself otherwise.
pub open spec fn flush(name: Seq<char>) -> Seq<Part> {
    if name.len() == 0 || name == dot() {
        Seq::empty()
    } else if name == dot_dot() {
        seq![Part::Parent]
    } else {
        seq![Part::Normal(name)]
    }
}

/// The components that follow position `from` of `s`, where `name` holds the
/// characters read since the last separator.
pub open spec fn scan(s: Seq<char>, from: int, name: Seq<char>) -> Seq<Part>
    decreases s.len() - from,
{
    if from >= s.len() {
        flush(name)
    } else if s[from] == '/' {
        flush(name) + scan(s, from + 1, Seq::empty())
    } else {
        scan(s, from + 1, name.push(s[from]))
    }
}

/// Whether `s` starts at the root.
pub open spec fn is_absolute(s: Seq<char>) -> bool {
    s.len() > 0 && s[0] == '/'
}

/// Whether the first name of `s` is `.`.
pub open spec fn leads_with_cur(s: Seq<char>) -> bool {
    s.len() > 0 && s[0] == '.' && (s.len() == 1 || s[1] == '/')
}

/// The component that the start of `s` stands for, if any.
pub open spec fn lead(s: Seq<char>) -> Seq<Part> {
    if is_absolute(s) {
        seq![Part::Root]
    } else if leads_with_cur(s) {
        seq![Part::Cur]
    } else {
        Seq::empty()
    }
}

/// The names of `s` in order, without the empty ones and without `.`.
pub open spec fn body(s: Seq<char>) -> Seq<Part> {
    scan(s, 0, Seq::empty())
}

/// The components of the path written `s`: the names between separators,
/// where repeated and trailing separators count for nothing, `.` counts only
/// at the very start, and a leading separator is the root. The separator is
/// the slash alone; a prefix of Windows is no component of its own, and
/// `expand` refuses a path that begins with one.
pub open spec fn components(s: Seq<char>) -> Seq<Part> {
    lead(s) + body(s)
}

/// The characters a component is written with.
pub open spec fn part_text(p: Part) -> Seq<char> {
    match p {
        Part::Root => seq!['/'],
        Part::Cur => dot(),
        Part::Parent => dot_dot(),
        Part::Normal(name) => name,
    }
}

/// Whether a separator has to stand between the rendering of `cs` and a
/// component that follows.
pub open spec fn needs_separator(cs: Seq<Part>) -> bool {
    cs.len() > 0 && !(cs.last() is Root)
}

/// The path that a list of components is written as. A root starts the path
/// anew, as it does when one path is pushed onto another.
pub open spec fn render(cs: Seq<Part>) -> Seq<char>
    decreases cs.len(),
{
    if cs.len() == 0 {
        Seq::empty()
    } else if cs.last() is Root {
        seq!['/']
    } else if needs_separator(cs.drop_last()) {
        render(cs.drop_last()) + seq!['/'] + part_text(cs.last())
    } else {
        render(cs.drop_last()) + part_text(cs.last())
    }
}

/// Turns the name that ends a run of characters into its component, if it is one.
fn flush_name(path: &str, start: usize, end: usize, out: &mut Vec<Component>)
    requires
        start <= end <= path@.len(),
    ensures
        parts(final(out)@) == parts(old(out)@) + flush(path@.subrange(start as int, end as int)),
{
    let ghost name = path@.subrange(start as int, end as int);
    if start == end {
        assert(name.len() == 0);
        assert(parts(out@) + flush(name) == parts(out@));
        return ;
    }
    let first = path.get_char(start);
    assert(first == name[0]);
    if end - start == 1 && first == '.' {
        assert(name == dot());
        assert(parts(out@) + flush(name) == parts(out@));
        return ;
    }
    if end - start == 2 && first == '.' && path.get_char(start + 1) == '.' {
        assert(name[1] == '.');
        assert(name == dot_dot());
        out.push(Component::ParentDir);
        assert(parts(out@) == parts(old(out)@) + flush(name));
        return ;
    }
    let text = path.substring_char(start, end).to_owned();
    assert(name != dot()) by {
        if name == dot() {
            assert(name.len() == 1);
        }
    }
    assert(name != dot_dot()) by {
        if name == dot_dot() {
            assert(name.len() == 2);
            assert(name[1] == '.');
        }
    }
    out.push(Component::Normal(text));
    assert(parts(out@) == parts(old(out)@) + flush(name));
}

/// Splits a path into its components.
pub fn split(path: &str) -> (v: Vec<Component>)
    ensures
        parts(v@) == components(path@),
        well_formed(parts(v@)),
{
    proof {
        lemma_components_are_well_formed(path@);
    }
    let chars = chars_of(path);
    let n = chars.len();
    let mut v: Vec<Component> = Vec::new();
    if n > 0 && chars[0] == '/' {
        v.push(Component::RootDir);
    } else if n > 0 && chars[0] == '.' && (n == 1 || chars[1] == '/') {
        v.push(Component::CurDir);
    }
    assert(parts(v@) == lead(path@));
    assert(path@.subrange(0, 0) == Seq::<char>::empty());
    let mut start: usize = 0;
    let mut i: usize = 0;
    while i < n
        invariant
            start <= i <= n,
            n == path@.len(),
            chars@ == path@,
            parts(v@) + scan(path@, i as int, path@.subrange(start as int, i as int)) == components(
                path@,
            ),
        decreases n - i,
    {
        let ghost name = path@.subrange(start as int, i as int);
        if chars[i] == '/' {
            flush_name(path, start, i, &mut v);
            start = i + 1;
            assert(path@.subrange(start as int, start as int) == Seq::<char>::empty());
        } else {
            assert(path@.subrange(start as int, i + 1) == name.push(path@[i as int]));
        }
        i = i + 1;
    }
    flush_name(path, start, n, &mut v);
    v
}

/// Whether two lists of components are the same.
pub fn same_components(a: &Vec<Component>, b: &Vec<Component>) -> (r: bool)
    ensures
        r == (parts(a@) == parts(b@)),
{
    if a.len() != b.len() {
        assert(parts(a@).len() != parts(b@).len());
        return false;
    }
    let mut i: usize = 0;
    while i < a.len()
        invariant
            i <= a.len(),
            a.len() == b.len(),
            parts(a@).take(i as int) == parts(b@).take(i as int),
        decreases a.len() - i,
    {
        let same = match (&a[i], &b[i]) {
            (Component::RootDir, Component::RootDir) => true,
            (Component::CurDir, Component::CurDir) => true,
            (Component::ParentDir, Component::ParentDir) => true,
            (Component::Normal(x), Component::Normal(y)) => same_text(x.as_str(), y.as_str()),
            _ => false,
        };
        assert(same == (parts(a@)[i as int] == parts(b@)[i as int]));
        if !same {
            return false;
        }
        assert(parts(a@).take(i + 1) == parts(a@).take(i as int).push(parts(a@)[i as int]));
        assert(parts(b@).take(i + 1) == parts(b@).take(i as int).push(parts(b@)[i as int]));
        i = i + 1;
    }
    assert(parts(a@) == parts(a@).take(i as int));
    assert(parts(b@) == parts(b@).take(i as int));
    true
}

/// Writes a list of components as a path.
pub fn join(comps: &Vec<Component>) -> (s: String)
    ensures
        s@ == render(parts(comps@)),
{
    let mut out = String::new();
    let mut separate = false;
    let mut i: usize = 0;
    proof {
        reveal_strlit("/");
        reveal_strlit(".");
        reveal_strlit("..");
    }
    assert(parts(comps@).take(0) == Seq::<Part>::empty());
    while i < comps.len()
        invariant
            i <= comps.len(),
            out@ == render(parts(comps@).take(i as int)),
            separate == needs_separator(parts(comps@).take(i as int)),
            "/"@ == seq!['/'],
            "."@ == dot(),
            ".."@ == dot_dot(),
        decreases comps.len() - i,
    {
        let ghost before = parts(comps@).take(i as int);
        let ghost after = parts(comps@).take(i + 1);
        assert(after.drop_last() == before);
        assert(after.last() == comps@[i as int]@);
        match &comps[i] {
            Component::RootDir => {
                out = "/".to_owned();
                separate = false;
            },
            other => {
                if separate {
                    out.append("/");
                }
                match other {
                    Component::CurDir => {
                        out.append(".");
                    },
                    Component::ParentDir => {
                        out.append("..");
                    },
                    Component::Normal(name) => {
                        out.append(name.as_str());
                    },
                    Component::RootDir => {},
                }
                separate = true;
            },
        }
        i = i + 1;
    }
    assert(parts(comps@).take(i as int) == parts(comps@));
    out
}

/// Why a path could not be expanded or resolved, in the model.
pub enum Failure {
    /// The file system refused, with this kind and this text.
    Io(ErrorKind, Seq<char>),
    /// A variable that the path names has no usable value.
    Var(VarError),
}

/// Why a path could not be expanded or resolved.
#[derive(Debug)]
pub enum Error {
    IOError(IoError),
    VarError(VarError),
}

impl View for Error {
    type V = Failure;

    open spec fn view(&self) -> Failure {
        match self {
            Error::IOError(e) => Failure::Io(e.kind, e.message@),
            Error::VarError(e) => Failure::Var(*e),
        }
    }
}

impl Clone for Error {
    fn clone(&self) -> (e: Error)
        ensures
            e@ == self@,
    {
        match self {
            Error::IOError(e) => Error::IOError(e.clone()),
            Error::VarError(e) => Error::VarError(*e),
        }
    }
}

impl Error {
    /// The failure in words.
    pub fn message(&self) -> (text: String)
        ensures
            text@ == failure_text(self@),
    {
        match self {
            Error::IOError(e) => e.message.clone(),
            Error::VarError(VarError::NotPresent) => "environment variable not found".to_owned(),
            Error::VarError(VarError::NotUnicode) =>
                "environment variable was not valid unicode".to_owned(),
        }
    }
}

/// How a failure reads.
pub open spec fn failure_text(f: Failure) -> Seq<char> {
    match f {
        Failure::Io(_, text) => text,
        Failure::Var(VarError::NotPresent) => "environment variable not found"@,
        Failure::Var(VarError::NotUnicode) => "environment variable was not valid unicode"@,
    }
}

/// The failure of stepping above the root.
pub open spec fn parent_of_root() -> Failure {
    Failure::Io(ErrorKind::InvalidInput, "Cannot take parent of root."@)
}

/// The components without the last one; nothing where there is no last one to
/// take away: on the empty path and on one that ends in the root.
pub open spec fn pop(stack: Seq<Part>) -> Option<Seq<Part>> {
    if stack.len() == 0 || stack.last() is Root {
        None
    } else {
        Some(stack.drop_last())
    }
}

/// The components of `stack` with the path written `p` pushed onto them: an
/// absolute `p` replaces what was there, any other is appended.
pub open spec fn push_path(stack: Seq<Part>, p: Seq<char>) -> Seq<Part> {
    if is_absolute(p) || stack.len() == 0 {
        components(p)
    } else {
        stack + body(p)
    }
}

/// Whether a name asks for the value of a variable.
pub open spec fn is_variable(name: Seq<char>) -> bool {
    name.len() > 0 && name[0] == '$'
}

/// What one component of the path being expanded does to the components
/// gathered so far.
pub open spec fn expand_step(
    stack: Seq<Part>,
    part: Part,
    env: Map<Seq<char>, Option<Seq<char>>>,
) -> Result<Seq<Part>, Failure> {
    match part {
        Part::Root => Ok(seq![Part::Root]),
        Part::Cur => Ok(stack),
        Part::Parent => match pop(stack) {
            Some(rest) => Ok(rest),
            None => Err(parent_of_root()),
        },
        Part::Normal(name) => if is_variable(name) {
            match lookup(env, name.skip(1)) {
                Ok(value) => Ok(push_path(stack, value)),
                Err(e) => Err(Failure::Var(e)),
            }
        } else {
            Ok(stack.push(Part::Normal(name)))
        },
    }
}

/// What the components `ahead`, taken in order, make of `stack`.
pub open spec fn expand_parts(
    stack: Seq<Part>,
    ahead: Seq<Part>,
    env: Map<Seq<char>, Option<Seq<char>>>,
) -> Result<Seq<Part>, Failure>
    decreases ahead.len(),
{
    if ahead.len() == 0 {
        Ok(stack)
    } else {
        match expand_step(stack, ahead[0], env) {
            Ok(next) => expand_parts(next, ahead.drop_first(), env),
            Err(f) => Err(f),
        }
    }
}

/// Whether the character is a letter that can name a drive.
pub open spec fn is_drive_letter(c: char) -> bool {
    ('a' <= c && c <= 'z') || ('A' <= c && c <= 'Z')
}

/// Whether the path begins the way paths of Windows do: with the letter of
/// a drive and a colon, as in `C:`, or with two backslashes, as the paths of
/// network shares, devices and the verbatim form do.
pub open spec fn has_prefix(s: Seq<char>) -> bool {
    s.len() >= 2 && ((is_drive_letter(s[0]) && s[1] == ':') || (s[0] == '\\' && s[1] == '\\'))
}

/// The failure of a path that begins the way paths of Windows do.
pub open spec fn windows_path() -> Failure {
    Failure::Io(ErrorKind::InvalidInput, "We do not support Windows."@)
}

/// The components that `path` expands to as seen from the directory `cwd`
/// with the variables `env`. A path with a prefix of Windows is refused;
/// the components of any other are applied in order to those of `cwd`.
pub open spec fn expand_path(
    path: Seq<char>,
    cwd: Seq<char>,
    env: Map<Seq<char>, Option<Seq<char>>>,
) -> Result<Seq<Part>, Failure> {
    if has_prefix(path) {
        Err(windows_path())
    } else {
        expand_parts(components(cwd), components(path), env)
    }
}

/// Tells whether the path begins the way paths of Windows do.
pub fn is_prefixed(path: &str) -> (r: bool)
    ensures
        r == has_prefix(path@),
{
    if path.unicode_len() < 2 {
        return false;
    }
    let first = path.get_char(0);
    let second = path.get_char(1);
    let letter = ('a' <= first && first <= 'z') || ('A' <= first && first <= 'Z');
    (letter && second == ':') || (first == '\\' && second == '\\')
}

/// The expansion of `path` as seen from the directory `cwd` with the
/// variables `env`. A path that begins with a prefix of Windows is refused.
/// The components of any other are applied in order to those of
/// `cwd`. The root starts anew, `.` changes nothing, `..` takes the last
/// component away and fails on the root, a name that begins with `$` is
/// replaced by the value of the variable that the rest of the name spells,
/// and any other name is appended.
pub open spec fn expansion(
    path: Seq<char>,
    cwd: Seq<char>,
    env: Map<Seq<char>, Option<Seq<char>>>,
) -> Result<Seq<char>, Failure> {
    match expand_path(path, cwd, env) {
        Ok(stack) => Ok(render(stack)),
        Err(f) => Err(f),
    }
}

/// Whether a result of the library stands for a result of the model.
pub open spec fn text_result(r: Result<String, Error>, model: Result<Seq<char>, Failure>) -> bool {
    match model {
        Ok(text) => r matches Ok(found) && found@ == text,
        Err(f) => r matches Err(e) && e@ == f,
    }
}

/// Pushes the path written `value` onto `stack`.
pub fn push_value(stack: &mut Vec<Component>, value: &str)
    ensures
        parts(final(stack)@) == push_path(parts(old(stack)@), value@),
{
    let comps = split(value);
    let chars = chars_of(value);
    let absolute = chars.len() > 0 && chars[0] == '/';
    if absolute || stack.len() == 0 {
        *stack = comps;
        return ;
    }
    let skip: usize = if chars.len() > 0 && chars[0] == '.' && (chars.len() == 1 || chars[1] == '/') {
        1
    } else {
        0
    };
    assert(lead(value@).len() == skip);
    assert(parts(comps@).skip(skip as int) == body(value@));
    let mut i: usize = skip;
    while i < comps.len()
        invariant
            skip <= i <= comps.len(),
            parts(stack@) == parts(old(stack)@) + parts(comps@).subrange(skip as int, i as int),
        decreases comps.len() - i,
    {
        let ghost before = parts(stack@);
        stack.push(comps[i].clone());
        assert(parts(stack@) == before.push(comps@[i as int]@));
        assert(parts(comps@).subrange(skip as int, i + 1) == parts(comps@).subrange(
            skip as int,
            i as int,
        ).push(comps@[i as int]@));
        i = i + 1;
    }
    assert(parts(comps@).subrange(skip as int, i as int) == parts(comps@).skip(skip as int));
}

/// Whether a list of components of the library stands for a result of the model.
pub open spec fn parts_result(r: Result<Vec<Component>, Error>, model: Result<Seq<Part>, Failure>) -> bool {
    match model {
        Ok(stack) => r matches Ok(found) && parts(found@) == stack,
        Err(f) => r matches Err(e) && e@ == f,
    }
}

/// Expands `path` as `expand` does, and leaves the result in components.
pub fn expand_components(path: &str, cwd: &str, env: &Env) -> (r: Result<Vec<Component>, Error>)
    ensures
        parts_result(r, expand_path(path@, cwd@, env@)),
{
    if is_prefixed(path) {
        return Err(
            Error::IOError(IoError::new(ErrorKind::InvalidInput, "We do not support Windows.")),
        );
    }
    let ahead = split(path);
    let mut stack = split(cwd);
    let mut i: usize = 0;
    assert(parts(ahead@).skip(0) == parts(ahead@));
    while i < ahead.len()
        invariant
            i <= ahead.len(),
            !has_prefix(path@),
            expand_parts(parts(stack@), parts(ahead@).skip(i as int), env@) == expand_parts(
                components(cwd@),
                components(path@),
                env@,
            ),
        decreases ahead.len() - i,
    {
        let ghost rest = parts(ahead@).skip(i as int);
        assert(rest[0] == ahead@[i as int]@);
        assert(rest.drop_first() == parts(ahead@).skip(i + 1));
        let ghost before = parts(stack@);
        match &ahead[i] {
            Component::RootDir => {
                stack = Vec::new();
                stack.push(Component::RootDir);
                assert(parts(stack@) == seq![Part::Root]);
            },
            Component::CurDir => {},
            Component::ParentDir => {
                let at_root = stack.len() == 0 || match &stack[stack.len() - 1] {
                    Component::RootDir => true,
                    _ => false,
                };
                assert(at_root == (pop(before) is None));
                if at_root {
                    return Err(
                        Error::IOError(
                            IoError::new(ErrorKind::InvalidInput, "Cannot take parent of root."),
                        ),
                    );
                }
                stack.pop();
                assert(parts(stack@) == before.drop_last());
            },
            Component::Normal(name) => {
                let len = name.as_str().unicode_len();
                if len > 0 && name.as_str().get_char(0) == '$' {
                    let variable = name.as_str().substring_char(1, len);
                    assert(variable@ == name@.skip(1));
                    match env.var(variable) {
                        Ok(value) => {
                            push_value(&mut stack, value.as_str());
                        },
                        Err(e) => {
                            return Err(Error::VarError(e));
                        },
                    }
                } else {
                    stack.push(Component::Normal(name.clone()));
                    assert(parts(stack@) == before.push(Part::Normal(name@)));
                }
            },
        }
        i = i + 1;
    }
    Ok(stack)
}

/// Finds environment variables within the path and expands them, and makes
/// the path absolute as seen from `cwd`.
///
/// Fails where the path begins with a prefix of Windows, where a variable
/// that the path names has no value, and where the path steps above the
/// root.
pub fn expand(path: &str, cwd: &str, env: &Env) -> (r: Result<String, Error>)
    ensures
        text_result(r, expansion(path@, cwd@, env@)),
{
    match expand_components(path, cwd, env) {
        Ok(stack) => Ok(join(&stack)),
        Err(e) => Err(e),
    }
}

/// Whether two paths have the same components.
pub fn same_path(a: &str, b: &str) -> (r: bool)
    ensures
        r == (components(a@) == components(b@)),
{
    let x = split(a);
    let y = split(b);
    same_components(&x, &y)
}

/// The directory that holds the last component, where there is one.
pub fn parent(comps: &Vec<Component>) -> (dir: Option<String>)
    ensures
        match pop(parts(comps@)) {
            Some(rest) => dir matches Some(text) && text@ == render(rest),
            None => dir is None,
        },
{
    let at_root = comps.len() == 0 || match &comps[comps.len() - 1] {
        Component::RootDir => true,
        _ => false,
    };
    if at_root {
        return None;
    }
    let mut rest: Vec<Component> = Vec::new();
    let mut i: usize = 0;
    while i < comps.len() - 1
        invariant
            i <= comps.len() - 1,
            parts(rest@) == parts(comps@).take(i as int),
        decreases comps.len() - i,
    {
        let ghost before = parts(rest@);
        rest.push(comps[i].clone());
        assert(parts(rest@) == before.push(comps@[i as int]@));
        assert(parts(comps@).take(i + 1) == parts(comps@).take(i as int).push(comps@[i as int]@));
        i = i + 1;
    }
    assert(parts(comps@).take(i as int) == parts(comps@).drop_last());
    Some(join(&rest))
}

/// The two faces of a resolved path, in the model.
pub struct ResPath {
    /// Where the file is: absolute, with every variable and link followed.
    pub resolved: Seq<char>,
    /// The path as it was written.
    pub unresolved: Seq<char>,
}

/// A path as it was written, together with the absolute path of the file that
/// it was found to stand for.
#[derive(Debug)]
pub struct ResPathBuf {
    inner: String,
    unresolved: String,
}

impl View for ResPathBuf {
    type V = ResPath;

    closed spec fn view(&self) -> ResPath {
        ResPath { resolved: self.inner@, unresolved: self.unresolved@ }
    }
}

/// How the refusal of a path that is not absolute reads.
pub open spec fn unresolved_text(path: Seq<char>) -> Seq<char> {
    "Path '"@ + path + "' should be fully resolved."@
}

/// The failure that refuses `path` as the resolved face of a path.
pub fn unresolved_error(path: &str) -> (e: IoError)
    ensures
        e@ == (ErrorKind::Other, unresolved_text(path@)),
{
    let mut message = "Path '".to_owned();
    message.append(path);
    message.append("' should be fully resolved.");
    IoError { kind: ErrorKind::Other, message }
}

/// Whether the path starts at the root.
pub fn has_root(path: &str) -> (r: bool)
    ensures
        r == is_absolute(path@),
{
    path.unicode_len() > 0 && path.get_char(0) == '/'
}

impl ResPathBuf {
    #[verifier::type_invariant]
    spec fn well_formed(self) -> bool {
        is_absolute(self.inner@)
    }

    /// Pairs the path `unresolved` with the absolute path `inner` that it
    /// stands for. A path `inner` that is not absolute is refused.
    pub fn new(inner: &str, unresolved: &str) -> (r: Result<ResPathBuf, Error>)
        ensures
            is_absolute(inner@) ==> (r matches Ok(p) && p@ == (ResPath {
                resolved: inner@,
                unresolved: unresolved@,
            })),
            !is_absolute(inner@) ==> (r matches Err(e) && e@ == Failure::Io(
                ErrorKind::Other,
                unresolved_text(inner@),
            )),
    {
        if !has_root(inner) {
            return Err(Error::IOError(unresolved_error(inner)));
        }
        Ok(ResPathBuf { inner: inner.to_owned(), unresolved: unresolved.to_owned() })
    }

    /// The absolute path of the file.
    pub fn resolved(&self) -> (path: &String)
        ensures
            path@ == self@.resolved,
            is_absolute(path@),
    {
        proof {
            use_type_invariant(self);
        }
        &self.inner
    }

    /// The path as it was written.
    pub fn unresolved(&self) -> (path: &String)
        ensures
            path@ == self@.unresolved,
    {
        &self.unresolved
    }

    /// Gives up the pair for the absolute path alone.
    pub fn into_resolved(self) -> (path: String)
        ensures
            path@ == self@.resolved,
            is_absolute(path@),
    {
        proof {
            use_type_invariant(&self);
        }
        self.inner
    }

    /// Whether this is the file at `path`: whether the resolved path and
    /// `path` have the same components.
    pub fn is_at(&self, path: &str) -> (r: bool)
        ensures
            r == (components(self@.resolved) == components(path@)),
    {
        let mine = split(self.inner.as_str());
        let theirs = split(path);
        same_components(&mine, &theirs)
    }
}

impl Clone for ResPathBuf {
    fn clone(&self) -> (p: ResPathBuf)
        ensures
            p@ == self@,
    {
        proof {
            use_type_invariant(self);
        }
        ResPathBuf { inner: self.inner.clone(), unresolved: self.unresolved.clone() }
    }
}

impl PartialEq for ResPathBuf {
    /// Two resolved paths are equal where they stand for the same file,
    /// however each was written.
    fn eq(&self, other: &ResPathBuf) -> (r: bool) {
        self.is_at(other.inner.as_str())
    }
}

impl PartialEqSpecImpl for ResPathBuf {
    open spec fn obeys_eq_spec() -> bool {
        true
    }

    open spec fn eq_spec(&self, other: &ResPathBuf) -> bool {
        components(self@.resolved) == components(other@.resolved)
    }
}

impl Eq for ResPathBuf {

}

impl Hash for ResPathBuf {
    /// `std::path::Path`'s `hash`, on the resolved path alone: it feeds the
    /// hasher the path's components, so paths that are equal hash alike.
    #[verifier::external_body]
    fn hash<H: Hasher>(&self, state: &mut H) {
        std::path::Path::new(&self.inner).hash(state)
    }
}

/// What the file system answered, in the model.
pub open spec fn answer_view(answer: Result<String, IoError>) -> Result<
    Seq<char>,
    (ErrorKind, Seq<char>),
> {
    match answer {
        Ok(found) => Ok(found@),
        Err(e) => Err(e@),
    }
}

/// The resolution of `path`: its expansion has to succeed, and then the file
/// system's answer for the canonical form of the expanded path decides.
pub open spec fn resolution(
    path: Seq<char>,
    cwd: Seq<char>,
    env: Map<Seq<char>, Option<Seq<char>>>,
    canonical: Result<Seq<char>, (ErrorKind, Seq<char>)>,
) -> Result<ResPath, Failure> {
    match expansion(path, cwd, env) {
        Err(f) => Err(f),
        Ok(_) => match canonical {
            Err((kind, text)) => Err(Failure::Io(kind, text)),
            Ok(found) => if is_absolute(found) {
                Ok(ResPath { resolved: found, unresolved: path })
            } else {
                Err(Failure::Io(ErrorKind::Other, unresolved_text(found)))
            },
        },
    }
}

/// Whether a result of the library stands for a result of the model.
pub open spec fn path_result(r: Result<ResPathBuf, Error>, model: Result<ResPath, Failure>) -> bool {
    match model {
        Ok(p) => r matches Ok(found) && found@ == p,
        Err(f) => r matches Err(e) && e@ == f,
    }
}

/// Resolves `path` to the file that it stands for.
///
/// `canonical` is what the file system answered when it was asked for the
/// canonical form of `expand(path, cwd, env)`: the absolute path with every
/// link followed, or why there is none. It is not read where the expansion
/// fails.
pub fn resolve(path: &str, cwd: &str, env: &Env, canonical: &Result<String, IoError>) -> (r: Result<
    ResPathBuf,
    Error,
>)
    ensures
        path_result(r, resolution(path@, cwd@, env@, answer_view(*canonical))),
{
    match expand(path, cwd, env) {
        Err(e) => Err(e),
        Ok(_) => match canonical {
            Err(e) => Err(Error::IOError(e.clone())),
            Ok(found) => ResPathBuf::new(found.as_str(), path),
        },
    }
}

/// The resolution of `path` where a file that is missing and a variable that
/// has no value count as "not yet": both may be there later.
pub open spec fn soft_resolution(
    path: Seq<char>,
    cwd: Seq<char>,
    env: Map<Seq<char>, Option<Seq<char>>>,
    canonical: Result<Seq<char>, (ErrorKind, Seq<char>)>,
) -> Result<Option<ResPath>, Failure> {
    match resolution(path, cwd, env, canonical) {
        Ok(p) => Ok(Some(p)),
        Err(Failure::Io(kind, text)) => if kind == ErrorKind::NotFound {
            Ok(None)
        } else {
            Err(Failure::Io(kind, text))
        },
        Err(Failure::Var(_)) => Ok(None),
    }
}

/// Whether a result of the library stands for a result of the model.
pub open spec fn soft_result(
    r: Result<Option<ResPathBuf>, Error>,
    model: Result<Option<ResPath>, Failure>,
) -> bool {
    match model {
        Ok(Some(p)) => r matches Ok(Some(found)) && found@ == p,
        Ok(None) => r matches Ok(None),
        Err(f) => r matches Err(e) && e@ == f,
    }
}

/// Resolves `path` as `resolve` does, but answers `None` in place of a
/// failure where the file does not exist or a variable is not set: the path
/// may become resolvable later. Every other failure is handed on.
pub fn soft_resolve(path: &str, cwd: &str, env: &Env, canonical: &Result<String, IoError>) -> (r:
    Result<Option<ResPathBuf>, Error>)
    ensures
        soft_result(r, soft_resolution(path@, cwd@, env@, answer_view(*canonical))),
{
    match resolve(path, cwd, env, canonical) {
        Ok(resolved) => Ok(Some(resolved)),
        Err(Error::IOError(e)) => {
            if e.kind == ErrorKind::NotFound {
                Ok(None)
            } else {
                Err(Error::IOError(e))
            }
        },
        Err(Error::VarError(_)) => Ok(None),
    }
}

/// Whether none of the components is anything but a name, and none of the
/// names asks for a variable.
pub open spec fn plain_names(cs: Seq<Part>) -> bool {
    forall|i: int| 0 <= i < cs.len() ==> (#[trigger] cs[i] matches Part::Normal(name) && !is_variable(name))
}

/// Whether `path` is written in canonical form: it starts at the root, the
/// root is followed by names only, and it is written the way its components
/// are rendered, with no separator too many.
pub open spec fn is_canonical(path: Seq<char>) -> bool {
    &&& is_absolute(path)
    &&& forall|i: int| 1 <= i < components(path).len() ==> #[trigger] components(path)[i] is Normal
    &&& render(components(path)) == path
}

/// Whether none of the names of `path` asks for a variable.
pub open spec fn free_of_variables(path: Seq<char>) -> bool {
    forall|i: int|
        0 <= i < components(path).len() ==> (#[trigger] components(path)[i] matches Part::Normal(name)
            ==> !is_variable(name))
}

/// Names that ask for no variable are appended as they are.
pub proof fn lemma_expand_plain_names(
    stack: Seq<Part>,
    ahead: Seq<Part>,
    env: Map<Seq<char>, Option<Seq<char>>>,
)
    requires
        plain_names(ahead),
    ensures
        expand_parts(stack, ahead, env) == Ok::<Seq<Part>, Failure>(stack + ahead),
    decreases ahead.len(),
{
    if ahead.len() == 0 {
        assert(stack + ahead == stack);
    } else {
        let first = ahead[0];
        assert(first matches Part::Normal(name) && !is_variable(name));
        let rest = ahead.drop_first();
        assert forall|i: int| 0 <= i < rest.len() implies (#[trigger] rest[i] matches Part::Normal(name)
            && !is_variable(name)) by {
            assert(rest[i] == ahead[i + 1]);
        }
        lemma_expand_plain_names(stack.push(first), rest, env);
        assert(stack.push(first) + rest == stack + ahead);
    }
}

/// A canonical path without variables expands to itself, from wherever it
/// is looked at.
pub proof fn lemma_canonical_expands_to_itself(
    path: Seq<char>,
    cwd: Seq<char>,
    env: Map<Seq<char>, Option<Seq<char>>>,
)
    requires
        is_canonical(path),
        free_of_variables(path),
    ensures
        expansion(path, cwd, env) == Ok::<Seq<char>, Failure>(path),
{
    let cs = components(path);
    assert(cs[0] == Part::Root);
    let rest = cs.drop_first();
    assert forall|i: int| 0 <= i < rest.len() implies (#[trigger] rest[i] matches Part::Normal(name)
        && !is_variable(name)) by {
        assert(rest[i] == cs[i + 1]);
        assert(cs[i + 1] is Normal);
    }
    lemma_expand_plain_names(seq![Part::Root], rest, env);
    assert(seq![Part::Root] + rest == cs);
}

/// Resolving is idempotent: the resolved path of a file resolves to itself.
///
/// `canonical` is the canonical form that the file system gave for `path`.
/// It is its own canonical form, so the file system gives it again when it
/// is asked about the resolved path. The claim is made for canonical forms
/// in which no name begins with `$`: such a name would be read as a
/// variable the second time.
pub proof fn lemma_resolve_is_idempotent(
    path: Seq<char>,
    cwd: Seq<char>,
    env: Map<Seq<char>, Option<Seq<char>>>,
    canonical: Seq<char>,
)
    requires
        resolution(path, cwd, env, Ok(canonical)) is Ok,
        is_canonical(canonical),
        free_of_variables(canonical),
    ensures
        expansion(canonical, cwd, env) == Ok::<Seq<char>, Failure>(canonical),
        resolution(canonical, cwd, env, Ok(canonical)) is Ok,
        resolution(canonical, cwd, env, Ok(canonical))->Ok_0.resolved == resolution(
            path,
            cwd,
            env,
            Ok(canonical),
        )->Ok_0.resolved,
{
    lemma_canonical_expands_to_itself(canonical, cwd, env);
}

/// What the components `ahead` make of components that start at the root
/// starts at the root again.
pub proof fn lemma_expand_keeps_the_root(
    stack: Seq<Part>,
    ahead: Seq<Part>,
    env: Map<Seq<char>, Option<Seq<char>>>,
)
    requires
        stack.len() > 0,
        stack[0] is Root,
        expand_parts(stack, ahead, env) is Ok,
    ensures
        expand_parts(stack, ahead, env)->Ok_0.len() > 0,
        expand_parts(stack, ahead, env)->Ok_0[0] is Root,
    decreases ahead.len(),
{
    if ahead.len() > 0 {
        let next = expand_step(stack, ahead[0], env)->Ok_0;
        match ahead[0] {
            Part::Normal(name) => {
                if is_variable(name) {
                    let value = lookup(env, name.skip(1))->Ok_0;
                    if !is_absolute(value) {
                        assert(next == stack + body(value));
                    }
                }
            },
            _ => {},
        }
        lemma_expand_keeps_the_root(next, ahead.drop_first(), env);
    }
}

/// What components that start at the root are written as starts with a
/// separator.
pub proof fn lemma_render_is_absolute(cs: Seq<Part>)
    requires
        cs.len() > 0,
        cs[0] is Root,
    ensures
        is_absolute(render(cs)),
    decreases cs.len(),
{
    if cs.len() > 1 && !(cs.last() is Root) {
        lemma_render_is_absolute(cs.drop_last());
    }
}

/// Seen from an absolute directory, every path expands to an absolute path.
pub proof fn lemma_expansion_is_absolute(
    path: Seq<char>,
    cwd: Seq<char>,
    env: Map<Seq<char>, Option<Seq<char>>>,
)
    requires
        is_absolute(cwd),
        expansion(path, cwd, env) is Ok,
    ensures
        is_absolute(expansion(path, cwd, env)->Ok_0),
{
    lemma_expand_keeps_the_root(components(cwd), components(path), env);
    lemma_render_is_absolute(expand_path(path, cwd, env)->Ok_0);
}

/// Two resolved paths that stand for the same file are equal, however each
/// of them was written.
pub proof fn lemma_same_file_is_equal(a: ResPathBuf, b: ResPathBuf)
    requires
        a@.resolved == b@.resolved,
    ensures
        PartialEqSpec::eq_spec(&a, &b),
        PartialEqSpec::eq_spec(&b, &a),
{
}

/// Whether the text holds no separator.
pub open spec fn is_name(text: Seq<char>) -> bool {
    forall|i: int| 0 <= i < text.len() ==> text[i] != '/'
}

/// Whether the components are such as a path has them: the root and `.`
/// stand nowhere but first, and a name is a text without separators that is
/// neither empty nor `.` nor `..`.
pub open spec fn well_formed(cs: Seq<Part>) -> bool {
    forall|i: int|
        0 <= i < cs.len() ==> match #[trigger] cs[i] {
            Part::Root => i == 0,
            Part::Cur => i == 0,
            Part::Parent => true,
            Part::Normal(name) => name.len() > 0 && is_name(name) && name != dot() && name
                != dot_dot(),
        }
}

/// The components without the root or the `.` that leads them.
pub open spec fn names_of(cs: Seq<Part>) -> Seq<Part> {
    if cs.len() > 0 && (cs[0] is Root || cs[0] is Cur) {
        cs.skip(1)
    } else {
        cs
    }
}

/// Scanning goes by what lies ahead alone.
pub proof fn lemma_scan_ahead(before: Seq<char>, s: Seq<char>, from: int, name: Seq<char>)
    requires
        0 <= from <= s.len(),
    ensures
        scan(before + s, before.len() + from, name) == scan(s, from, name),
    decreases s.len() - from,
{
    if from < s.len() {
        assert((before + s)[before.len() + from] == s[from]);
        if s[from] == '/' {
            lemma_scan_ahead(before, s, from + 1, Seq::empty());
        } else {
            lemma_scan_ahead(before, s, from + 1, name.push(s[from]));
        }
    }
}

/// A text without separators is scanned as one name.
pub proof fn lemma_scan_of_name(text: Seq<char>, from: int, name: Seq<char>)
    requires
        0 <= from <= text.len(),
        is_name(text),
    ensures
        scan(text, from, name) == flush(name + text.skip(from)),
    decreases text.len() - from,
{
    if from < text.len() {
        lemma_scan_of_name(text, from + 1, name.push(text[from]));
        assert(name.push(text[from]) + text.skip(from + 1) == name + text.skip(from));
    } else {
        assert(name + text.skip(from) == name);
    }
}

/// A separator parts what stands before it from what stands behind it.
pub proof fn lemma_scan_of_joined(x: Seq<char>, y: Seq<char>, from: int, name: Seq<char>)
    requires
        0 <= from <= x.len(),
    ensures
        scan(x + seq!['/'] + y, from, name) == scan(x, from, name) + body(y),
    decreases x.len() - from,
{
    let s = x + seq!['/'] + y;
    if from == x.len() {
        assert(s[from] == '/');
        lemma_scan_ahead(x + seq!['/'], y, 0, Seq::empty());
    } else {
        assert(s[from] == x[from]);
        if x[from] == '/' {
            lemma_scan_of_joined(x, y, from + 1, Seq::empty());
            assert(flush(name) + (scan(x, from + 1, Seq::empty()) + body(y)) == (flush(name) + scan(
                x,
                from + 1,
                Seq::empty(),
            )) + body(y));
        } else {
            lemma_scan_of_joined(x, y, from + 1, name.push(x[from]));
        }
    }
}

/// Scanning yields nothing but `..` and names.
pub proof fn lemma_scan_is_well_formed(s: Seq<char>, from: int, name: Seq<char>)
    requires
        0 <= from <= s.len(),
        is_name(name),
    ensures
        forall|i: int|
            0 <= i < scan(s, from, name).len() ==> match #[trigger] scan(s, from, name)[i] {
                Part::Root => false,
                Part::Cur => false,
                Part::Parent => true,
                Part::Normal(text) => text.len() > 0 && is_name(text) && text != dot() && text
                    != dot_dot(),
            },
    decreases s.len() - from,
{
    if from < s.len() {
        if s[from] == '/' {
            lemma_scan_is_well_formed(s, from + 1, Seq::empty());
        } else {
            lemma_scan_is_well_formed(s, from + 1, name.push(s[from]));
        }
    }
}

/// The components of a path are well formed, however the path is written.
pub proof fn lemma_components_are_well_formed(s: Seq<char>)
    ensures
        well_formed(components(s)),
{
    lemma_scan_is_well_formed(s, 0, Seq::empty());
    let cs = components(s);
    assert forall|i: int| 0 <= i < cs.len() implies match #[trigger] cs[i] {
        Part::Root => i == 0,
        Part::Cur => i == 0,
        Part::Parent => true,
        Part::Normal(name) => name.len() > 0 && is_name(name) && name != dot() && name
            != dot_dot(),
    } by {
        if i >= lead(s).len() {
            assert(cs[i] == body(s)[i - lead(s).len()]);
        }
    }
}

/// The text of a component that is neither the root nor `.` is scanned as
/// that component.
pub proof fn lemma_text_is_scanned_back(cs: Seq<Part>, i: int)
    requires
        well_formed(cs),
        0 <= i < cs.len(),
        !(cs[i] is Root),
        !(cs[i] is Cur),
    ensures
        is_name(part_text(cs[i])),
        part_text(cs[i]).len() > 0,
        body(part_text(cs[i])) == seq![cs[i]],
{
    let text = part_text(cs[i]);
    match cs[i] {
        Part::Parent => {
            assert(text == dot_dot());
            assert(text.len() == 2);
            assert(text != dot()) by {
                assert(dot().len() == 1);
            }
        },
        _ => {},
    }
    lemma_scan_of_name(text, 0, Seq::empty());
    assert(Seq::<char>::empty() + text.skip(0) == text);
}

/// What well-formed components are written as is scanned back as the
/// components, the leading root or `.` left aside.
pub proof fn lemma_body_of_rendered(cs: Seq<Part>)
    requires
        well_formed(cs),
    ensures
        body(render(cs)) == names_of(cs),
    decreases cs.len(),
{
    if cs.len() == 0 {
    } else {
        let init = cs.drop_last();
        let last = cs.last();
        assert(well_formed(init)) by {
            assert forall|i: int| 0 <= i < init.len() implies match #[trigger] init[i] {
                Part::Root => i == 0,
                Part::Cur => i == 0,
                Part::Parent => true,
                Part::Normal(name) => name.len() > 0 && is_name(name) && name != dot() && name
                    != dot_dot(),
            } by {
                assert(init[i] == cs[i]);
            }
        }
        lemma_body_of_rendered(init);
        if last is Root {
            assert(cs.len() == 1);
            reveal_with_fuel(scan, 3);
            assert(body(seq!['/']) == Seq::<Part>::empty());
            assert(names_of(cs) == Seq::<Part>::empty());
        } else if last is Cur {
            assert(cs.len() == 1);
            assert(init == Seq::<Part>::empty());
            assert(render(cs) == dot()) by {
                assert(render(init) + dot() == dot());
            }
            lemma_scan_of_name(dot(), 0, Seq::empty());
            assert(Seq::<char>::empty() + dot().skip(0) == dot());
            assert(names_of(cs) == Seq::<Part>::empty());
        } else {
            lemma_text_is_scanned_back(cs, cs.len() - 1);
            let text = part_text(last);
            if needs_separator(init) {
                lemma_scan_of_joined(render(init), text, 0, Seq::empty());
                assert(names_of(cs) == names_of(init).push(last)) by {
                    if init[0] is Root || init[0] is Cur {
                        assert(cs[0] == init[0]);
                        assert(cs.skip(1) == init.skip(1).push(last));
                    } else {
                        assert(cs[0] == init[0]);
                        assert(cs == init.push(last));
                    }
                }
            } else if init.len() == 0 {
                assert(render(cs) == text) by {
                    assert(render(init) + text == text);
                }
                assert(cs == seq![last]);
            } else {
                assert(init.len() == 1) by {
                    assert(init.last() is Root);
                    assert(init[init.len() - 1] is Root);
                }
                assert(render(init) == seq!['/']);
                assert(render(cs) == Seq::<char>::empty() + seq!['/'] + text);
                lemma_scan_of_joined(Seq::empty(), text, 0, Seq::empty());
                assert(cs[0] is Root);
                assert(cs.skip(1) == seq![last]);
            }
        }
    }
}

/// What well-formed components are written as starts the way their first
/// component says.
pub proof fn lemma_lead_of_rendered(cs: Seq<Part>)
    requires
        well_formed(cs),
    ensures
        lead(render(cs)) == if cs.len() > 0 && (cs[0] is Root || cs[0] is Cur) {
            seq![cs[0]]
        } else {
            Seq::<Part>::empty()
        },
        cs.len() > 0 ==> render(cs).len() > 0,
        cs.len() > 0 && !(cs[0] is Root) ==> render(cs).len() >= part_text(cs[0]).len()
            && render(cs).take(part_text(cs[0]).len() as int) == part_text(cs[0]) && (render(
            cs,
        ).len() > part_text(cs[0]).len() ==> render(cs)[part_text(cs[0]).len() as int] == '/'),
    decreases cs.len(),
{
    if cs.len() == 0 {
    } else if cs.len() == 1 {
        let only = cs[0];
        assert(cs.drop_last() == Seq::<Part>::empty());
        if !(only is Root) {
            assert(render(cs) == part_text(only)) by {
                assert(render(cs.drop_last()) + part_text(only) == part_text(only));
            }
            assert(render(cs).take(part_text(only).len() as int) == part_text(only));
            match only {
                Part::Normal(name) => {
                    assert(name[0] != '/');
                    if name[0] == '.' {
                        assert(name.len() >= 2) by {
                            if name.len() == 1 {
                                assert(name == dot());
                            }
                        }
                        assert(name[1] != '/');
                    }
                },
                _ => {},
            }
        }
    } else {
        let init = cs.drop_last();
        let last = cs.last();
        assert(well_formed(init)) by {
            assert forall|i: int| 0 <= i < init.len() implies match #[trigger] init[i] {
                Part::Root => i == 0,
                Part::Cur => i == 0,
                Part::Parent => true,
                Part::Normal(name) => name.len() > 0 && is_name(name) && name != dot() && name
                    != dot_dot(),
            } by {
                assert(init[i] == cs[i]);
            }
        }
        lemma_lead_of_rendered(init);
        assert(init[0] == cs[0]);
        assert(!(last is Root));
        let r = render(init);
        let joined = render(cs);
        if needs_separator(init) {
            assert(joined == r + seq!['/'] + part_text(last));
        } else {
            assert(joined == r + part_text(last));
            assert(init.len() == 1 && init[0] is Root) by {
                assert(init[init.len() - 1] is Root);
            }
        }
        assert(joined.len() > r.len());
        assert(forall|k: int| 0 <= k < r.len() ==> joined[k] == r[k]);
        if cs[0] is Root {
            lemma_render_is_absolute(init);
        } else {
            let first = part_text(cs[0]);
            assert(joined.take(first.len() as int) == first) by {
                assert(r.take(first.len() as int) == first);
                assert forall|k: int| 0 <= k < first.len() implies joined.take(
                    first.len() as int,
                )[k] == first[k] by {
                    assert(r.take(first.len() as int)[k] == r[k]);
                }
            }
            assert(needs_separator(init));
            if r.len() == first.len() {
                assert(joined[first.len() as int] == '/');
            } else {
                assert(joined[first.len() as int] == r[first.len() as int]);
            }
            assert(joined[0] == first[0]) by {
                assert(joined.take(first.len() as int)[0] == joined[0]);
            }
            match cs[0] {
                Part::Normal(name) => {
                    assert(name[0] != '/');
                    if name[0] == '.' {
                        assert(name.len() >= 2) by {
                            if name.len() == 1 {
                                assert(name == dot());
                            }
                        }
                        assert(joined[1] == name[1]) by {
                            assert(joined.take(first.len() as int)[1] == joined[1]);
                        }
                        assert(name[1] != '/');
                    }
                },
                Part::Parent => {
                    assert(joined[1] == '.') by {
                        assert(joined.take(first.len() as int)[1] == joined[1]);
                    }
                },
                _ => {},
            }
        }
    }
}

/// Splitting what was joined gives back what was joined: the components of
/// the path that well-formed components are written as are those
/// components.
pub proof fn lemma_split_of_joined(cs: Seq<Part>)
    requires
        well_formed(cs),
    ensures
        components(render(cs)) == cs,
{
    lemma_body_of_rendered(cs);
    lemma_lead_of_rendered(cs);
    if cs.len() > 0 && (cs[0] is Root || cs[0] is Cur) {
        assert(seq![cs[0]] + cs.skip(1) == cs);
    }
}

/// The root followed by names is written in canonical form.
pub proof fn lemma_names_below_the_root_are_canonical(cs: Seq<Part>)
    requires
        well_formed(cs),
        cs.len() > 0,
        cs[0] is Root,
        forall|i: int| 1 <= i < cs.len() ==> #[trigger] cs[i] is Normal,
    ensures
        is_canonical(render(cs)),
{
    lemma_split_of_joined(cs);
    lemma_render_is_absolute(cs);
}

/// Every path has one way of being written that stands for all ways of
/// writing it: the path that its components are written as has the same
/// components, and writing it anew changes nothing.
pub proof fn lemma_rendering_is_a_normal_form(s: Seq<char>)
    ensures
        components(render(components(s))) == components(s),
        render(components(render(components(s)))) == render(components(s)),
{
    lemma_components_are_well_formed(s);
    lemma_split_of_joined(components(s));
}

} // verus!
