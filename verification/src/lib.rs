//! Keeps configuration files that are scattered over a machine in step with
//! one local git repository, and that repository in step with a remote.
//!
//! The library decides; it performs no input or output itself. Whoever calls
//! it reads the environment, the file system and the repository, hands what
//! was found to the functions here, and carries out what they return.
//!
//! Throughout, the "local repository" is the git repository that holds the
//! managed files, and the "remote repository" the one at the address that
//! the configuration names.

pub mod text;
pub mod io;
pub mod vars;
pub mod path;
pub mod config;
pub mod copy;
pub mod git;
pub mod daemon;
pub mod homesync;

use vstd::prelude::*;
use crate::config::{listing_head, listing_line, PathConfig};
use crate::copy::{
    apply_plan, declared_paths, lookup_of, op_views, path_views, stage_plan, workdir_of, FileOp,
    Obstacle, Op, Probe,
};
use crate::daemon::{calls_for_reload, level_of, line_of, Level, WatchEvent};
use crate::git::{
    init_next, sync_next, Action, ActionView, Event, Goal, InitPhase, InitState, Keys, Phase,
    State,
};
use crate::io::IoError;
use crate::path::{answer_view, ResPathBuf};
use crate::text::str_of;
use crate::vars::Env;

verus! {

/// Whether a plan of the library stands for a plan of the model.
pub open spec fn ops_result(r: Result<Vec<FileOp>, copy::Error>, model: Result<Seq<Op>, Obstacle>) -> bool {
    match model {
        Ok(ops) => r matches Ok(found) && op_views(found@) == ops,
        Err(f) => r matches Err(e) && e@ == f,
    }
}

/// Whether a plan of the library stands for a plan of the model.
pub open spec fn apply_result(
    r: Result<Option<Vec<FileOp>>, copy::Error>,
    model: Result<Option<Seq<Op>>, Obstacle>,
) -> bool {
    match model {
        Ok(Some(ops)) => r matches Ok(Some(found)) && op_views(found@) == ops,
        Ok(None) => r matches Ok(None),
        Err(f) => r matches Err(e) && e@ == f,
    }
}

/// Plans the copying of files from the working tree of the local repository
/// back to their places on the machine; see `copy::apply`.
///
/// `local` and `probe` are read as by `copy::get_workdir`, `answers` as by
/// `copy::get_package_lookup`, and `repo_files` and `present` as by
/// `copy::apply`.
pub fn run_apply(
    config: &PathConfig,
    package: Option<&str>,
    cwd: &str,
    env: &Env,
    local: &Result<String, IoError>,
    probe: Probe,
    repo_files: &Vec<ResPathBuf>,
    answers: &Vec<Result<String, IoError>>,
    present: &Vec<bool>,
) -> (r: Result<Option<Vec<FileOp>>, copy::Error>)
    ensures
        apply_result(
            r,
            match workdir_of(config.config.repos.local@, cwd@, env@, answer_view(*local), probe) {
                Err(f) => Err(f),
                Ok(workdir) => Ok(
                    apply_plan(
                        config.config.packages@,
                        str_of(package),
                        workdir.resolved,
                        path_views(repo_files@),
                        lookup_of(declared_paths(config.config.packages@), answers@, cwd@, env@),
                        present@,
                        cwd@,
                        env@,
                    ),
                ),
            },
        ),
{
    let workdir = match copy::get_workdir(config, cwd, env, local, probe) {
        Ok(workdir) => workdir,
        Err(e) => {
            return Err(e);
        },
    };
    let lookup = copy::get_package_lookup(config, cwd, env, answers);
    Ok(copy::apply(config, package, &workdir, repo_files, &lookup, present, cwd, env))
}

/// Plans how to bring the working tree of the local repository in step with
/// the files that the configuration declares; see `copy::stage`.
///
/// `local` and `probe` are read as by `copy::get_workdir`, `answers` as by
/// `copy::get_package_lookup`, and `repo_files` as by `copy::stage`.
pub fn run_stage(
    config: &PathConfig,
    cwd: &str,
    env: &Env,
    local: &Result<String, IoError>,
    probe: Probe,
    repo_files: &Vec<ResPathBuf>,
    answers: &Vec<Result<String, IoError>>,
) -> (r: Result<Vec<FileOp>, copy::Error>)
    ensures
        ops_result(
            r,
            match workdir_of(config.config.repos.local@, cwd@, env@, answer_view(*local), probe) {
                Err(f) => Err(f),
                Ok(workdir) => Ok(
                    stage_plan(
                        workdir.resolved,
                        path_views(repo_files@),
                        lookup_of(declared_paths(config.config.packages@), answers@, cwd@, env@),
                    ),
                ),
            },
        ),
{
    let workdir = match copy::get_workdir(config, cwd, env, local, probe) {
        Ok(workdir) => workdir,
        Err(e) => {
            return Err(e);
        },
    };
    let lookup = copy::get_package_lookup(config, cwd, env, answers);
    Ok(copy::stage(&workdir, repo_files, &lookup))
}

/// The lines that list the packages of the configuration; see
/// `config::list_packages`.
pub fn run_list(config: &PathConfig) -> (lines: Vec<String>)
    ensures
        lines@.len() == 1 + config.config.packages@.len(),
        lines@[0]@ == listing_head(config.homesync_yml@.unresolved),
        forall|i: int|
            0 <= i < config.config.packages@.len() ==> (#[trigger] lines@[i + 1])@ == listing_line(
                config.config.packages@[i].name,
            ),
{
    config::list_packages(config)
}

/// Where a run that acquires the local repository and then pulls or pushes
/// stands.
#[derive(Debug)]
pub struct RunState {
    pub init: InitState,
    pub sync: State,
}

impl RunState {
    /// Before anything has been done.
    pub fn new() -> (state: RunState)
        ensures
            state.init@ == (InitPhase::Start, Seq::<char>::empty()),
            state.sync@ == (Phase::Start, None::<Seq<char>>),
    {
        RunState { init: InitState::new(), sync: State::new() }
    }
}

/// The next step of a run that acquires the local repository and then pulls
/// or pushes: while the repository is not acquired the step is one of
/// `git::init`; with the step that acquires it the pull begins; from then on
/// the step is one of the pull or the push.
pub open spec fn run_next(
    goal: Goal,
    config: PathConfig,
    cwd: Seq<char>,
    env: Map<Seq<char>, Option<Seq<char>>>,
    keys: Result<Keys, git::Error>,
    state: RunState,
    event: Event,
) -> ((InitPhase, Seq<char>), (Phase, Option<Seq<char>>), ActionView) {
    if state.init.phase == InitPhase::Done {
        let next = sync_next(
            goal,
            config.config.repos.remote,
            config.config.user,
            keys,
            state.sync,
            event,
        );
        (state.init@, next.0, next.1)
    } else {
        let first = init_next(
            config.config.repos.local@,
            config.config.repos.remote.url@,
            cwd,
            env,
            keys,
            state.init,
            event,
        );
        match first.1 {
            ActionView::Done(_) => {
                let next = sync_next(
                    goal,
                    config.config.repos.remote,
                    config.config.user,
                    keys,
                    state.sync,
                    Event::Start,
                );
                (first.0, next.0, next.1)
            },
            _ => (first.0, state.sync@, first.1),
        }
    }
}

/// Takes the next step of a run towards `goal`.
fn run(
    goal: Goal,
    config: &PathConfig,
    cwd: &str,
    env: &Env,
    keys: &Result<Keys, git::Error>,
    state: &RunState,
    event: &Event,
) -> (r: (RunState, Action))
    ensures
        (r.0.init@, r.0.sync@, r.1@) == run_next(goal, *config, cwd@, env@, *keys, *state, *event),
{
    if state.init.phase == InitPhase::Done {
        let (sync, action) = match goal {
            Goal::Pull => git::pull(config, keys, &state.sync, event),
            Goal::Push => git::push(config, keys, &state.sync, event),
        };
        (
            RunState {
                init: InitState { phase: state.init.phase, path: state.init.path.clone() },
                sync,
            },
            action,
        )
    } else {
        let (init, first) = git::init(config, cwd, env, keys, &state.init, event);
        match first {
            Action::Done(_) => {
                let start = Event::Start;
                let (sync, action) = match goal {
                    Goal::Pull => git::pull(config, keys, &state.sync, &start),
                    Goal::Push => git::push(config, keys, &state.sync, &start),
                };
                (RunState { init, sync }, action)
            },
            other => {
                let sync = State {
                    phase: state.sync.phase,
                    stash: match &state.sync.stash {
                        Some(id) => Some(id.clone()),
                        None => None,
                    },
                };
                (RunState { init, sync }, other)
            },
        }
    }
}

/// Takes the next step of acquiring the local repository and publishing the
/// working tree to the remote; see `git::init` and `git::push`.
pub fn run_push(
    config: &PathConfig,
    cwd: &str,
    env: &Env,
    keys: &Result<Keys, git::Error>,
    state: &RunState,
    event: &Event,
) -> (r: (RunState, Action))
    ensures
        (r.0.init@, r.0.sync@, r.1@) == run_next(
            Goal::Push,
            *config,
            cwd@,
            env@,
            *keys,
            *state,
            *event,
        ),
{
    run(Goal::Push, config, cwd, env, keys, state, event)
}

/// Takes the next step of acquiring the local repository and bringing its
/// branch up to the remote one; see `git::init` and `git::pull`.
pub fn run_pull(
    config: &PathConfig,
    cwd: &str,
    env: &Env,
    keys: &Result<Keys, git::Error>,
    state: &RunState,
    event: &Event,
) -> (r: (RunState, Action))
    ensures
        (r.0.init@, r.0.sync@, r.1@) == run_next(
            Goal::Pull,
            *config,
            cwd@,
            env@,
            *keys,
            *state,
            *event,
        ),
{
    run(Goal::Pull, config, cwd, env, keys, state, event)
}

/// One thing for the daemon to do, in the model.
pub enum StepView {
    Setup(int, Seq<char>),
    Log(Level, Seq<char>),
    Reload,
    Update,
    Stage,
    Receive,
}

/// One thing for the daemon to do.
#[derive(Debug)]
pub enum Step {
    /// Start the polling loop and the file watcher, both with a period of
    /// so many seconds, and put a watch on the configuration's own file.
    Setup(u64, String),
    /// Write a line to the log.
    Log(Level, String),
    /// Read the configuration anew, and go on with what was read.
    Reload,
    /// Rebuild the watches; see `daemon::WatchState::update`.
    Update,
    /// Stage; see `run_stage`.
    Stage,
    /// Wait for the next event of the file watcher.
    Receive,
}

impl View for Step {
    type V = StepView;

    open spec fn view(&self) -> StepView {
        match self {
            Step::Setup(period, path) => StepView::Setup(*period as int, path@),
            Step::Log(level, text) => StepView::Log(*level, text@),
            Step::Reload => StepView::Reload,
            Step::Update => StepView::Update,
            Step::Stage => StepView::Stage,
            Step::Receive => StepView::Receive,
        }
    }
}

/// The model of a list of steps.
pub open spec fn step_views(v: Seq<Step>) -> Seq<StepView> {
    v.map_values(|s: Step| s@)
}

/// What the daemon does in one turn. It begins by setting itself up and
/// building its watches. After an event it writes its line to the log, and
/// reads the configuration anew and rebuilds the watches where the event
/// calls for it. Every turn ends with staging and waiting for an event.
pub open spec fn daemon_turn(config: PathConfig, freq_secs: u64, event: Option<WatchEvent>) -> Seq<
    StepView,
> {
    match event {
        None => seq![
            StepView::Setup(freq_secs as int, config.homesync_yml@.resolved),
            StepView::Update,
            StepView::Stage,
            StepView::Receive,
        ],
        Some(e) => if calls_for_reload(config, e) {
            seq![
                StepView::Log(level_of(config, e), line_of(config, e)),
                StepView::Reload,
                StepView::Update,
                StepView::Stage,
                StepView::Receive,
            ]
        } else {
            seq![
                StepView::Log(level_of(config, e), line_of(config, e)),
                StepView::Stage,
                StepView::Receive,
            ]
        },
    }
}

/// Plans one turn of the daemon: the first where `event` is none, and the
/// one after `event` otherwise; see `daemon::launch`.
pub fn run_daemon(config: &PathConfig, freq_secs: u64, event: Option<&WatchEvent>) -> (steps: Vec<
    Step,
>)
    ensures
        step_views(steps@) == daemon_turn(
            *config,
            freq_secs,
            match event {
                Some(e) => Some(*e),
                None => None,
            },
        ),
{
    let mut steps: Vec<Step> = Vec::new();
    match event {
        None => {
            steps.push(Step::Setup(freq_secs, config.homesync_yml.resolved().clone()));
            steps.push(Step::Update);
        },
        Some(e) => {
            let reaction = daemon::launch(config, e);
            steps.push(Step::Log(reaction.level, reaction.message));
            if reaction.reload {
                steps.push(Step::Reload);
                steps.push(Step::Update);
            }
        },
    }
    steps.push(Step::Stage);
    steps.push(Step::Receive);
    assert(step_views(steps@) == daemon_turn(
        *config,
        freq_secs,
        match event {
            Some(e) => Some(*e),
            None => None,
        },
    ));
    steps
}

} // verus!
