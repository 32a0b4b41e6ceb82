//! The decisions of the daemon that watches the declared files.
//!
//! Two loops run side by side. The watching loop holds the files that are
//! under watch and reacts to what is seen of them. The polling loop holds
//! the paths that stand for no file yet and tries them again and again.
//! Neither loop is run here: each hands its caller what to do.

use vstd::prelude::*;
use crate::config::PathConfig;
use crate::copy::{declared, declared_paths, path_views};
use crate::io::IoError;
use crate::path::{
    answer_view, components, soft_resolution, soft_resolve, same_path, Failure, ResPath,
    ResPathBuf,
};
use crate::text::texts;
use crate::vars::Env;

verus! {

/// What the watching loop tells the polling loop.
#[derive(Debug)]
pub enum PollEvent {
    /// This path stands for no file yet: keep trying it.
    Pending(String),
    /// Forget every path.
    Clear,
}

/// Whether the path `path` is among `paths`, component for component.
pub open spec fn holds(paths: Seq<Seq<char>>, path: Seq<char>) -> bool {
    exists|i: int| 0 <= i < paths.len() && components(paths[i]) == components(path)
}

/// Whether no path stands in the list twice.
pub open spec fn distinct_paths(paths: Seq<Seq<char>>) -> bool {
    forall|i: int, j: int|
        0 <= i < j < paths.len() ==> components(#[trigger] paths[i]) != components(
            #[trigger] paths[j],
        )
}

/// What the polling loop received.
#[derive(Debug)]
pub enum Received {
    /// Word from the watching loop.
    Event(PollEvent),
    /// No word is waiting.
    Empty,
    /// The watching loop is gone.
    Disconnected,
}

/// What the polling loop is to do next.
#[derive(Clone, Copy, Debug, PartialEq, Eq, Structural)]
pub enum Poll {
    /// Receive again at once.
    Again,
    /// Try the pending paths, report what became of them, then sleep until
    /// the next round.
    Scan,
    /// Give up: nobody is left to report to.
    Abort,
}

/// What trying one pending path came to, in the model.
pub enum PolledView {
    /// The path stands for a file now.
    Created(ResPath),
    /// The path cannot be tried any further.
    Dropped(Seq<char>, Failure),
}

/// What trying one pending path came to.
#[derive(Debug)]
pub enum Polled {
    /// The path stands for a file now; the watching loop is to be told that
    /// the file at the resolved path was created.
    Created(ResPathBuf),
    /// The path cannot be tried any further, for the reason given.
    Dropped(String, crate::path::Error),
}

impl View for Polled {
    type V = PolledView;

    open spec fn view(&self) -> PolledView {
        match self {
            Polled::Created(p) => PolledView::Created(p@),
            Polled::Dropped(path, e) => PolledView::Dropped(path@, e@),
        }
    }
}

/// The model of a list of outcomes.
pub open spec fn polled_views(v: Seq<Polled>) -> Seq<PolledView> {
    v.map_values(|p: Polled| p@)
}

/// What trying the path at position `k` comes to. A path without an answer
/// is not tried.
pub open spec fn tried(
    paths: Seq<Seq<char>>,
    answers: Seq<Result<String, IoError>>,
    k: int,
    cwd: Seq<char>,
    env: Map<Seq<char>, Option<Seq<char>>>,
) -> Result<Option<ResPath>, Failure> {
    if 0 <= k < answers.len() {
        soft_resolution(paths[k], cwd, env, answer_view(answers[k]))
    } else {
        Ok(None)
    }
}

/// The paths among the first `n` that stay pending: those that still stand
/// for no file.
pub open spec fn still_pending(
    paths: Seq<Seq<char>>,
    answers: Seq<Result<String, IoError>>,
    n: int,
    cwd: Seq<char>,
    env: Map<Seq<char>, Option<Seq<char>>>,
) -> Seq<Seq<char>>
    decreases n,
{
    if n <= 0 {
        Seq::empty()
    } else {
        let rest = still_pending(paths, answers, n - 1, cwd, env);
        match tried(paths, answers, n - 1, cwd, env) {
            Ok(None) => rest.push(paths[n - 1]),
            _ => rest,
        }
    }
}

/// What became of the paths among the first `n` that do not stay pending.
pub open spec fn reported(
    paths: Seq<Seq<char>>,
    answers: Seq<Result<String, IoError>>,
    n: int,
    cwd: Seq<char>,
    env: Map<Seq<char>, Option<Seq<char>>>,
) -> Seq<PolledView>
    decreases n,
{
    if n <= 0 {
        Seq::empty()
    } else {
        let rest = reported(paths, answers, n - 1, cwd, env);
        match tried(paths, answers, n - 1, cwd, env) {
            Ok(Some(p)) => rest.push(PolledView::Created(p)),
            Ok(None) => rest,
            Err(f) => rest.push(PolledView::Dropped(paths[n - 1], f)),
        }
    }
}

/// The paths that stay pending are some of the paths that were pending, in
/// the order in which they stood.
pub proof fn lemma_still_pending_is_a_choice(
    paths: Seq<Seq<char>>,
    answers: Seq<Result<String, IoError>>,
    n: int,
    cwd: Seq<char>,
    env: Map<Seq<char>, Option<Seq<char>>>,
) -> (from: Seq<int>)
    requires
        0 <= n <= paths.len(),
    ensures
        from.len() == still_pending(paths, answers, n, cwd, env).len(),
        forall|i: int|
            0 <= i < from.len() ==> 0 <= #[trigger] from[i] < n && still_pending(
                paths,
                answers,
                n,
                cwd,
                env,
            )[i] == paths[from[i]],
        forall|i: int, j: int| 0 <= i < j < from.len() ==> #[trigger] from[i] < #[trigger] from[j],
    decreases n,
{
    if n <= 0 {
        Seq::empty()
    } else {
        let rest = lemma_still_pending_is_a_choice(paths, answers, n - 1, cwd, env);
        match tried(paths, answers, n - 1, cwd, env) {
            Ok(None) => rest.push(n - 1),
            _ => rest,
        }
    }
}

/// Trying the pending paths leaves no path pending twice.
pub proof fn lemma_still_pending_is_distinct(
    paths: Seq<Seq<char>>,
    answers: Seq<Result<String, IoError>>,
    cwd: Seq<char>,
    env: Map<Seq<char>, Option<Seq<char>>>,
)
    requires
        distinct_paths(paths),
    ensures
        distinct_paths(still_pending(paths, answers, paths.len() as int, cwd, env)),
{
    let stay = still_pending(paths, answers, paths.len() as int, cwd, env);
    let from = lemma_still_pending_is_a_choice(paths, answers, paths.len() as int, cwd, env);
    assert forall|i: int, j: int| 0 <= i < j < stay.len() implies components(#[trigger] stay[i])
        != components(#[trigger] stay[j]) by {
        assert(from[i] < from[j]);
        assert(stay[i] == paths[from[i]]);
        assert(stay[j] == paths[from[j]]);
    }
}

/// The paths that stand for no file yet: a list that holds each path once
/// (`distinct_paths`), where a path is told from another by its components.
#[derive(Debug)]
pub struct Poller {
    pub pending: Vec<String>,
}

impl View for Poller {
    type V = Seq<Seq<char>>;

    open spec fn view(&self) -> Seq<Seq<char>> {
        texts(self.pending@)
    }
}

/// The pending paths after word from the watching loop: a path joins them
/// unless it is among them already, and a clearing leaves none.
pub open spec fn after_word(pending: Seq<Seq<char>>, event: PollEvent) -> Seq<Seq<char>> {
    match event {
        PollEvent::Pending(path) => if holds(pending, path@) {
            pending
        } else {
            pending.push(path@)
        },
        PollEvent::Clear => Seq::empty(),
    }
}

impl Poller {
    /// No paths.
    pub fn new() -> (poller: Poller)
        ensures
            poller@.len() == 0,
    {
        Poller { pending: Vec::new() }
    }

    /// Whether `path` is pending.
    pub fn contains(&self, path: &str) -> (r: bool)
        ensures
            r == holds(self@, path@),
    {
        let mut i: usize = 0;
        while i < self.pending.len()
            invariant
                i <= self.pending.len(),
                forall|k: int| 0 <= k < i ==> components(self@[k]) != components(path@),
            decreases self.pending.len() - i,
        {
            if same_path(self.pending[i].as_str(), path) {
                assert(components(self@[i as int]) == components(path@));
                return true;
            }
            i = i + 1;
        }
        false
    }

    /// Takes word from the watching loop.
    pub fn receive(&mut self, event: PollEvent)
        ensures
            final(self)@ == after_word(old(self)@, event),
            distinct_paths(old(self)@) ==> distinct_paths(final(self)@),
    {
        let ghost before = self@;
        match event {
            PollEvent::Pending(path) => {
                if !self.contains(path.as_str()) {
                    self.pending.push(path);
                    assert(self@ == before.push(path@));
                    assert(distinct_paths(before) ==> distinct_paths(self@)) by {
                        if distinct_paths(before) {
                            assert forall|i: int, j: int| 0 <= i < j < self@.len() implies components(
                                #[trigger] self@[i],
                            ) != components(#[trigger] self@[j]) by {
                                if j < before.len() {
                                    assert(self@[i] == before[i]);
                                    assert(self@[j] == before[j]);
                                } else {
                                    assert(self@[i] == before[i]);
                                }
                            }
                        }
                    }
                }
            },
            PollEvent::Clear => {
                self.pending = Vec::new();
                assert(self@ == Seq::<Seq<char>>::empty());
            },
        }
    }

    /// Tries every pending path again.
    ///
    /// `answers` holds, for each pending path in turn, the file system's
    /// answer for the canonical form of the expanded path. A path that
    /// stands for a file now, and one that fails for good, leave the pending
    /// paths and are reported; one that may still come to stand for a file
    /// stays.
    pub fn resolve_pending(&mut self, cwd: &str, env: &Env, answers: &Vec<Result<String, IoError>>) -> (out:
        Vec<Polled>)
        ensures
            final(self)@ == still_pending(
                old(self)@,
                answers@,
                old(self)@.len() as int,
                cwd@,
                env@,
            ),
            polled_views(out@) == reported(
                old(self)@,
                answers@,
                old(self)@.len() as int,
                cwd@,
                env@,
            ),
            distinct_paths(old(self)@) ==> distinct_paths(final(self)@),
    {
        let ghost paths = self@;
        proof {
            if distinct_paths(paths) {
                lemma_still_pending_is_distinct(paths, answers@, cwd@, env@);
            }
        }
        let mut stay: Vec<String> = Vec::new();
        let mut out: Vec<Polled> = Vec::new();
        let mut k: usize = 0;
        assert(texts(stay@) == Seq::<Seq<char>>::empty());
        assert(polled_views(out@) == Seq::<PolledView>::empty());
        while k < self.pending.len()
            invariant
                k <= self.pending.len(),
                paths == self@,
                texts(stay@) == still_pending(paths, answers@, k as int, cwd@, env@),
                polled_views(out@) == reported(paths, answers@, k as int, cwd@, env@),
            decreases self.pending.len() - k,
        {
            let path = &self.pending[k];
            let ghost stay_before = texts(stay@);
            let ghost out_before = polled_views(out@);
            if k < answers.len() {
                match soft_resolve(path.as_str(), cwd, env, &answers[k]) {
                    Ok(Some(resolved)) => {
                        out.push(Polled::Created(resolved));
                        assert(polled_views(out@) == out_before.push(
                            PolledView::Created(resolved@),
                        ));
                    },
                    Ok(None) => {
                        stay.push(path.clone());
                        assert(texts(stay@) == stay_before.push(path@));
                    },
                    Err(e) => {
                        out.push(Polled::Dropped(path.clone(), e));
                        assert(polled_views(out@) == out_before.push(
                            PolledView::Dropped(path@, e@),
                        ));
                    },
                }
            } else {
                stay.push(path.clone());
                assert(texts(stay@) == stay_before.push(path@));
            }
            k = k + 1;
        }
        self.pending = stay;
        out
    }
}

/// Decides what the polling loop does with what it received: word from the
/// watching loop is taken in, silence is the time to try the pending paths,
/// and a watching loop that is gone ends the polling.
pub fn poll_pending(poller: &mut Poller, received: Received) -> (next: Poll)
    ensures
        match received {
            Received::Event(event) => next == Poll::Again && final(poller)@ == after_word(
                old(poller)@,
                event,
            ),
            Received::Empty => next == Poll::Scan && final(poller)@ == old(poller)@,
            Received::Disconnected => next == Poll::Abort && final(poller)@ == old(poller)@,
        },
{
    match received {
        Received::Event(event) => {
            poller.receive(event);
            Poll::Again
        },
        Received::Empty => Poll::Scan,
        Received::Disconnected => Poll::Abort,
    }
}

/// One thing to do about the watches, in the model.
pub enum WatchOpView {
    Poll(PollView),
    Unwatch(ResPath),
    Watch(ResPath),
}

/// Word to the polling loop, in the model.
pub enum PollView {
    Pending(Seq<char>),
    Clear,
}

/// One thing to do about the watches, for the caller to carry out.
#[derive(Debug)]
pub enum WatchOp {
    /// Send this word to the polling loop.
    Poll(PollEvent),
    /// Take the watch off the file.
    Unwatch(ResPathBuf),
    /// Put a watch on the file, and tell `WatchState::watch` how it went.
    Watch(ResPathBuf),
}

impl View for WatchOp {
    type V = WatchOpView;

    open spec fn view(&self) -> WatchOpView {
        match self {
            WatchOp::Poll(PollEvent::Pending(path)) => WatchOpView::Poll(PollView::Pending(path@)),
            WatchOp::Poll(PollEvent::Clear) => WatchOpView::Poll(PollView::Clear),
            WatchOp::Unwatch(p) => WatchOpView::Unwatch(p@),
            WatchOp::Watch(p) => WatchOpView::Watch(p@),
        }
    }
}

/// The model of a list of things to do about the watches.
pub open spec fn watch_op_views(v: Seq<WatchOp>) -> Seq<WatchOpView> {
    v.map_values(|op: WatchOp| op@)
}

/// The taking off of every watch, watch after watch.
pub open spec fn unwatch_all(watching: Seq<ResPath>) -> Seq<WatchOpView> {
    watching.map_values(|p: ResPath| WatchOpView::Unwatch(p))
}

/// What is done about the first `n` declared paths: a path that stands for
/// a file is watched, one that may come to stand for a file is handed to
/// the polling loop, and one that fails for good is passed over. A path
/// without an answer is handed to the polling loop.
pub open spec fn rewatch(
    paths: Seq<Seq<char>>,
    answers: Seq<Result<String, IoError>>,
    n: int,
    cwd: Seq<char>,
    env: Map<Seq<char>, Option<Seq<char>>>,
) -> Seq<WatchOpView>
    decreases n,
{
    if n <= 0 {
        Seq::empty()
    } else {
        let rest = rewatch(paths, answers, n - 1, cwd, env);
        match tried(paths, answers, n - 1, cwd, env) {
            Ok(Some(p)) => rest.push(WatchOpView::Watch(p)),
            Ok(None) => rest.push(WatchOpView::Poll(PollView::Pending(paths[n - 1]))),
            Err(_) => rest,
        }
    }
}

/// What a change of configuration asks for: the polling loop forgets its
/// paths, every watch is taken off, and the declared paths are gone through
/// anew.
pub open spec fn update_plan(
    watching: Seq<ResPath>,
    paths: Seq<Seq<char>>,
    answers: Seq<Result<String, IoError>>,
    cwd: Seq<char>,
    env: Map<Seq<char>, Option<Seq<char>>>,
) -> Seq<WatchOpView> {
    seq![WatchOpView::Poll(PollView::Clear)] + unwatch_all(watching) + rewatch(
        paths,
        answers,
        paths.len() as int,
        cwd,
        env,
    )
}

/// Whether the file of `path` is among `watching`.
pub open spec fn watched(watching: Seq<ResPath>, path: ResPath) -> bool {
    exists|i: int|
        0 <= i < watching.len() && components(watching[i].resolved) == components(path.resolved)
}

/// Whether no file is among `watching` twice.
pub open spec fn distinct_files(watching: Seq<ResPath>) -> bool {
    forall|i: int, j: int|
        0 <= i < j < watching.len() ==> components((#[trigger] watching[i]).resolved)
            != components((#[trigger] watching[j]).resolved)
}

/// The files under watch: a list that holds each file once
/// (`distinct_files`), where a file is told from another by the components
/// of its resolved path.
#[derive(Debug)]
pub struct WatchState {
    pub watching: Vec<ResPathBuf>,
}

impl View for WatchState {
    type V = Seq<ResPath>;

    open spec fn view(&self) -> Seq<ResPath> {
        path_views(self.watching@)
    }
}

impl WatchState {
    /// Nothing under watch.
    pub fn new() -> (state: WatchState)
        ensures
            state@.len() == 0,
    {
        WatchState { watching: Vec::new() }
    }

    /// Whether the file of `path` is under watch.
    pub fn contains(&self, path: &ResPathBuf) -> (r: bool)
        ensures
            r == watched(self@, path@),
    {
        let mut i: usize = 0;
        while i < self.watching.len()
            invariant
                i <= self.watching.len(),
                forall|k: int|
                    0 <= k < i ==> components(self@[k].resolved) != components(path@.resolved),
            decreases self.watching.len() - i,
        {
            if self.watching[i].is_at(path.resolved().as_str()) {
                assert(components(self@[i as int].resolved) == components(path@.resolved));
                return true;
            }
            i = i + 1;
        }
        false
    }

    /// Records how putting a watch on the file of `path` went: a file that
    /// is watched now joins the files under watch, unless it is among them
    /// already.
    pub fn watch(&mut self, path: ResPathBuf, succeeded: bool)
        ensures
            final(self)@ == if succeeded && !watched(old(self)@, path@) {
                old(self)@.push(path@)
            } else {
                old(self)@
            },
            distinct_files(old(self)@) ==> distinct_files(final(self)@),
    {
        let ghost before = self@;
        if succeeded && !self.contains(&path) {
            self.watching.push(path);
            assert(self@ == before.push(path@));
            assert(distinct_files(before) ==> distinct_files(self@)) by {
                if distinct_files(before) {
                    assert forall|i: int, j: int| 0 <= i < j < self@.len() implies components(
                        (#[trigger] self@[i]).resolved,
                    ) != components((#[trigger] self@[j]).resolved) by {
                        if j < before.len() {
                            assert(self@[i] == before[i]);
                            assert(self@[j] == before[j]);
                        } else {
                            assert(self@[i] == before[i]);
                        }
                    }
                }
            }
        }
    }

    /// Rebuilds the watches for the configuration `pc`: nothing of what was
    /// under watch or pending before stays.
    ///
    /// `answers` holds, for each path of `declared(pc)` in turn, the file
    /// system's answer for the canonical form of the expanded path. The
    /// files under watch are none afterwards; each joins them again when
    /// `watch` is told that its watch is in place.
    pub fn update(
        &mut self,
        pc: &PathConfig,
        cwd: &str,
        env: &Env,
        answers: &Vec<Result<String, IoError>>,
    ) -> (plan: Vec<WatchOp>)
        ensures
            final(self)@.len() == 0,
            watch_op_views(plan@) == update_plan(
                old(self)@,
                declared_paths(pc.config.packages@),
                answers@,
                cwd@,
                env@,
            ),
    {
        let ghost before = self@;
        let mut plan: Vec<WatchOp> = Vec::new();
        plan.push(WatchOp::Poll(PollEvent::Clear));
        assert(watch_op_views(plan@) == seq![WatchOpView::Poll(PollView::Clear)]);
        let mut i: usize = 0;
        while i < self.watching.len()
            invariant
                i <= self.watching.len(),
                before == self@,
                watch_op_views(plan@) == seq![WatchOpView::Poll(PollView::Clear)] + unwatch_all(
                    before,
                ).take(i as int),
            decreases self.watching.len() - i,
        {
            let ghost sofar = watch_op_views(plan@);
            plan.push(WatchOp::Unwatch(self.watching[i].clone()));
            assert(watch_op_views(plan@) == sofar.push(WatchOpView::Unwatch(before[i as int])));
            assert(unwatch_all(before).take(i + 1) == unwatch_all(before).take(i as int).push(
                WatchOpView::Unwatch(before[i as int]),
            ));
            i = i + 1;
        }
        assert(unwatch_all(before).take(i as int) == unwatch_all(before));
        self.watching = Vec::new();
        let paths = declared(pc);
        let ghost all = texts(paths@);
        let ghost base = watch_op_views(plan@);
        let mut k: usize = 0;
        while k < paths.len()
            invariant
                k <= paths.len(),
                all == texts(paths@),
                self.watching@.len() == 0,
                watch_op_views(plan@) == base + rewatch(all, answers@, k as int, cwd@, env@),
            decreases paths.len() - k,
        {
            let path = &paths[k];
            let ghost sofar = watch_op_views(plan@);
            if k < answers.len() {
                match soft_resolve(path.as_str(), cwd, env, &answers[k]) {
                    Ok(Some(resolved)) => {
                        plan.push(WatchOp::Watch(resolved));
                        assert(watch_op_views(plan@) == sofar.push(WatchOpView::Watch(resolved@)));
                    },
                    Ok(None) => {
                        plan.push(WatchOp::Poll(PollEvent::Pending(path.clone())));
                        assert(watch_op_views(plan@) == sofar.push(
                            WatchOpView::Poll(PollView::Pending(path@)),
                        ));
                    },
                    Err(_) => {},
                }
            } else {
                plan.push(WatchOp::Poll(PollEvent::Pending(path.clone())));
                assert(watch_op_views(plan@) == sofar.push(
                    WatchOpView::Poll(PollView::Pending(path@)),
                ));
            }
            k = k + 1;
        }
        plan
    }
}

/// What the file watcher reports.
#[derive(Debug)]
pub enum WatchEvent {
    /// A write to the file has been noticed; more may follow.
    NoticeWrite(String),
    /// A removal of the file has been noticed.
    NoticeRemove(String),
    /// The file was created.
    Create(String),
    /// The file was written to, and has been left alone since.
    Write(String),
    /// The file's attributes were changed.
    Chmod(String),
    /// The file was removed.
    Remove(String),
    /// The file at the first path was moved to the second.
    Rename(String, String),
    /// The watcher lost track and looks at everything again.
    Rescan,
    /// The watcher ran into a failure, at the path if one is given.
    Error(String, Option<String>),
    /// The watcher is gone; the text says how the receiving failed.
    Disconnected(String),
}

/// How loud a line of the log is.
#[derive(Clone, Copy, Debug, PartialEq, Eq, Structural)]
pub enum Level {
    Trace,
    Warn,
    Error,
}

/// What the daemon does about an event, before it stages again.
#[derive(Debug)]
pub struct Reaction {
    /// Whether the configuration is to be read anew and the watches rebuilt.
    pub reload: bool,
    /// How loud the line in the log is.
    pub level: Level,
    /// The line in the log.
    pub message: String,
}

/// Whether `path` is the file that the configuration was read from.
pub open spec fn is_primary(pc: PathConfig, path: Seq<char>) -> bool {
    components(pc.homesync_yml@.resolved) == components(path)
}

/// Whether an event calls for the configuration to be read anew: only the
/// creation of the configuration's own file, or a finished write to it.
pub open spec fn calls_for_reload(pc: PathConfig, event: WatchEvent) -> bool {
    match event {
        WatchEvent::Create(p) => is_primary(pc, p@),
        WatchEvent::Write(p) => is_primary(pc, p@),
        _ => false,
    }
}

/// How loud the line about an event is: the loss of the configuration's own
/// file and a failure of the watcher are warnings, the loss of the watcher
/// itself is an error, and everything else is only traced.
pub open spec fn level_of(pc: PathConfig, event: WatchEvent) -> Level {
    match event {
        WatchEvent::Remove(p) => if is_primary(pc, p@) {
            Level::Warn
        } else {
            Level::Trace
        },
        WatchEvent::Rename(src, dst) => if is_primary(pc, src@) && !is_primary(pc, dst@) {
            Level::Warn
        } else {
            Level::Trace
        },
        WatchEvent::Error(_, _) => Level::Warn,
        WatchEvent::Disconnected(_) => Level::Error,
        _ => Level::Trace,
    }
}

/// The line about an event.
pub open spec fn line_of(pc: PathConfig, event: WatchEvent) -> Seq<char> {
    match event {
        WatchEvent::NoticeWrite(p) => "NoticeWrite '"@ + p@ + "'"@,
        WatchEvent::NoticeRemove(p) => "NoticeRemove '"@ + p@ + "'"@,
        WatchEvent::Create(p) => "Create '"@ + p@ + "'"@,
        WatchEvent::Write(p) => "Write '"@ + p@ + "'"@,
        WatchEvent::Chmod(p) => "Chmod '"@ + p@ + "'"@,
        WatchEvent::Remove(p) => if is_primary(pc, p@) {
            "Removed primary config '"@ + p@ + "'. Continuing to use last loaded state"@
        } else {
            "Remove '"@ + p@ + "'"@
        },
        WatchEvent::Rename(src, dst) => if is_primary(pc, src@) && !is_primary(pc, dst@) {
            "Renamed primary config '"@ + src@ + "'. Continuing to use last loaded state"@
        } else {
            "Renamed '"@ + src@ + "' to '"@ + dst@ + "'"@
        },
        WatchEvent::Rescan => "Rescanning"@,
        WatchEvent::Error(e, path) => "Error "@ + e@ + " at '"@ + match path {
            Some(p) => p@,
            None => "N/A"@,
        } + "'"@,
        WatchEvent::Disconnected(e) => "Watch error: "@ + e@,
    }
}

/// The line that names one path.
fn line(before: &str, path: &str, after: &str) -> (text: String)
    ensures
        text@ == before@ + path@ + after@,
{
    let mut text = before.to_owned();
    text.append(path);
    text.append(after);
    text
}

/// Decides what the daemon does about an event of the file watcher.
///
/// The daemon stages after every event, whatever it was. Before that it
/// reads the configuration anew where its own file was created or written
/// to. Where that file is removed or moved away it goes on with what it has
/// loaded, and says so. No event ends the daemon.
pub fn launch(pc: &PathConfig, event: &WatchEvent) -> (reaction: Reaction)
    ensures
        reaction.reload == calls_for_reload(*pc, *event),
        reaction.level == level_of(*pc, *event),
        reaction.message@ == line_of(*pc, *event),
{
    match event {
        WatchEvent::NoticeWrite(p) => Reaction {
            reload: false,
            level: Level::Trace,
            message: line("NoticeWrite '", p.as_str(), "'"),
        },
        WatchEvent::NoticeRemove(p) => Reaction {
            reload: false,
            level: Level::Trace,
            message: line("NoticeRemove '", p.as_str(), "'"),
        },
        WatchEvent::Create(p) => Reaction {
            reload: pc.homesync_yml.is_at(p.as_str()),
            level: Level::Trace,
            message: line("Create '", p.as_str(), "'"),
        },
        WatchEvent::Write(p) => Reaction {
            reload: pc.homesync_yml.is_at(p.as_str()),
            level: Level::Trace,
            message: line("Write '", p.as_str(), "'"),
        },
        WatchEvent::Chmod(p) => Reaction {
            reload: false,
            level: Level::Trace,
            message: line("Chmod '", p.as_str(), "'"),
        },
        WatchEvent::Remove(p) => {
            if pc.homesync_yml.is_at(p.as_str()) {
                Reaction {
                    reload: false,
                    level: Level::Warn,
                    message: line(
                        "Removed primary config '",
                        p.as_str(),
                        "'. Continuing to use last loaded state",
                    ),
                }
            } else {
                Reaction {
                    reload: false,
                    level: Level::Trace,
                    message: line("Remove '", p.as_str(), "'"),
                }
            }
        },
        WatchEvent::Rename(src, dst) => {
            if pc.homesync_yml.is_at(src.as_str()) && !pc.homesync_yml.is_at(dst.as_str()) {
                Reaction {
                    reload: false,
                    level: Level::Warn,
                    message: line(
                        "Renamed primary config '",
                        src.as_str(),
                        "'. Continuing to use last loaded state",
                    ),
                }
            } else {
                let mut message = line("Renamed '", src.as_str(), "' to '");
                message.append(dst.as_str());
                message.append("'");
                Reaction { reload: false, level: Level::Trace, message }
            }
        },
        WatchEvent::Rescan => Reaction {
            reload: false,
            level: Level::Trace,
            message: "Rescanning".to_owned(),
        },
        WatchEvent::Error(e, path) => {
            let mut message = line("Error ", e.as_str(), " at '");
            match path {
                Some(p) => {
                    message.append(p.as_str());
                },
                None => {
                    message.append("N/A");
                },
            }
            message.append("'");
            Reaction { reload: false, level: Level::Warn, message }
        },
        WatchEvent::Disconnected(e) => {
            let mut message = "Watch error: ".to_owned();
            message.append(e.as_str());
            Reaction { reload: false, level: Level::Error, message }
        },
    }
}

} // verus!
