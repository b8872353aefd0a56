//! The worker of a queue: it takes up what was interrupted, runs one job after the other, and
//! says what became of each.

use crate::clock::Moment;
use crate::copied::{opt_view, Copied};
use crate::jobs::{Job, JobView, State};
use crate::numbers::{decimal, decimal_text, signed_decimal, signed_text};
use crate::paths::{join_path, parent, parent_of, path_join};
use crate::steps::{seen, Pause, PauseView, Step, StepView};
use crate::text::{opt, pieces, split, texts};
use vstd::prelude::*;
use vstd::string::StringExecFns;

verus! {

/// How often a job that was interrupted is started again: one that dies at once every time
/// must not go on forever.
pub const MAX_RESUMES: u32 = 5;

/// How long is waited between two looks at a job, in milliseconds.
pub const POLL_MS: u64 = 500;

/// How long a worker without work stays, in milliseconds.
pub const IDLE_EXIT_MS: u64 = 300_000;

/// How long a job has to end by itself, in milliseconds.
pub const KILL_GRACE_MS: u64 = 5_000;

/// The variables of the environment that name providers.
pub open spec fn provider_variables() -> Seq<Seq<char>> {
    seq![
        "ANTHROPIC_API_KEY"@,
        "GROQ_API_KEY"@,
        "OPENAI_API_KEY"@,
        "GEMINI_API_KEY"@,
        "REWRITER_LMSTUDIO_HOST"@,
        "REWRITER_LMSTUDIO_MODEL"@,
        "REWRITER_CLAUDE_CLI_MODEL"@,
        "REWRITER_USE_CLAUDE_CLI"@,
    ]
}

/// The variables of the environment that a job must not see.
pub fn hidden_variables(inherit_env: bool) -> (r: Vec<String>)
    ensures
        texts(r@) == (if inherit_env {
            Seq::empty()
        } else {
            provider_variables()
        }),
{
    if inherit_env {
        let none: Vec<String> = Vec::new();
        assert(texts(none@) =~= Seq::<Seq<char>>::empty());
        return none;
    }
    let list = vec![
        "ANTHROPIC_API_KEY".to_owned(),
        "GROQ_API_KEY".to_owned(),
        "OPENAI_API_KEY".to_owned(),
        "GEMINI_API_KEY".to_owned(),
        "REWRITER_LMSTUDIO_HOST".to_owned(),
        "REWRITER_LMSTUDIO_MODEL".to_owned(),
        "REWRITER_CLAUDE_CLI_MODEL".to_owned(),
        "REWRITER_USE_CLAUDE_CLI".to_owned(),
    ];
    assert(texts(list@) =~= provider_variables());
    list
}

/// What is done about a job that a new worker finds.
#[derive(Debug)]
pub struct Recovery {
    /// The group of processes to kill.
    pub kill: Option<u32>,
    /// The job as it is from then on.
    pub job: Job,
    /// Whether that is to be written down.
    pub save: bool,
    /// What is added to its log.
    pub note: Option<String>,
}

/// A job that is over.
pub open spec fn finished(
    job: JobView,
    state: State,
    exit_code: Option<i32>,
    error: Option<Seq<char>>,
    now: Moment,
) -> JobView {
    JobView { state, exit_code, error, finished_at: Some(now), ..job }
}

/// A job that was interrupted and waits again.
pub open spec fn requeued(job: JobView) -> JobView {
    JobView {
        resume_count: (job.resume_count + 1) as u32,
        state: State::Queued,
        pid: None,
        started_at: None,
        ..job
    }
}

pub const GIVING_UP: &'static str =
    "interrupted and already resumed 5 times — giving up rather than risk a crash loop";

/// What is added to the log of a job that waits again.
pub open spec fn resume_note(count: u32) -> Seq<char> {
    "\n[worker] interrupted (crash or restart) — requeued for automatic resume "@ + decimal(
        count as nat,
    ) + "/"@ + decimal(MAX_RESUMES as nat)
        + ", relaunching against the existing workspace so completed stages are skipped\n"@
}

/// Whether a job was interrupted: it is marked as running when a new worker starts.
pub open spec fn is_interrupted(job: JobView) -> bool {
    job.state == State::Running
}

/// What a job becomes when a new worker starts. One that was not interrupted stays as it is.
pub open spec fn recovered(job: JobView, now: Moment) -> JobView {
    if !is_interrupted(job) {
        job
    } else if job.resume_count >= MAX_RESUMES {
        finished(job, State::Failed, None, Some(GIVING_UP@), now)
    } else {
        requeued(job)
    }
}

fn finish(
    job: Job,
    state: State,
    exit_code: Option<i32>,
    error: Option<String>,
    now: Moment,
) -> (r: Job)
    ensures
        r@ == finished(job@, state, exit_code, opt_view(error), now),
{
    Job { state, exit_code, error, finished_at: Some(now), ..job }
}

/// Whether `r` is what is done about `job`: of one that was interrupted, whatever is left of it is
/// killed, and its log tells that it waits again. Of any other, nothing.
pub open spec fn is_recovery(r: Recovery, job: JobView, now: Moment) -> bool {
    &&& r.job@ == recovered(job, now)
    &&& r.save == is_interrupted(job)
    &&& r.kill == (if is_interrupted(job) {
        job.pid
    } else {
        None
    })
    &&& opt(r.note) == (if is_interrupted(job) && job.resume_count < MAX_RESUMES {
        Some(resume_note((job.resume_count + 1) as u32))
    } else {
        None
    })
}

/// What is done about a job that a new worker finds: whatever is left of one that is marked as
/// running is killed, so that no two of them write to one workspace, and it waits again. What it
/// had done is kept in its workspace, so that only what was interrupted is done again.
pub fn recover_orphan(job: Job, now: Moment) -> (r: Recovery)
    ensures
        is_recovery(r, job@, now),
{
    match job.state {
        State::Running => {},
        _ => {
            return Recovery { kill: None, job, save: false, note: None };
        },
    }
    let kill = job.pid;
    if job.resume_count >= MAX_RESUMES {
        return Recovery {
            kill,
            job: finish(job, State::Failed, None, Some(GIVING_UP.to_owned()), now),
            save: true,
            note: None,
        };
    }
    let count: u32 = job.resume_count + 1;
    let note = "\n[worker] interrupted (crash or restart) — requeued for automatic resume ".to_owned().concat(
        decimal_text(count as u64).as_str(),
    ).concat("/").concat(decimal_text(MAX_RESUMES as u64).as_str()).concat(
        ", relaunching against the existing workspace so completed stages are skipped\n",
    );
    Recovery {
        kill,
        job: Job {
            resume_count: count,
            state: State::Queued,
            pid: None,
            started_at: None,
            ..job
        },
        save: true,
        note: Some(note),
    }
}

/// What is done about each of the jobs that a new worker finds.
pub fn recover_orphans(jobs: Vec<Job>, now: Moment) -> (r: Vec<Recovery>)
    ensures
        r@.len() == jobs@.len(),
        forall|i: int| 0 <= i < jobs@.len() ==> is_recovery(#[trigger] r@[i], jobs@[i]@, now),
{
    let mut out: Vec<Recovery> = Vec::new();
    let mut i: usize = 0;
    while i < jobs.len()
        invariant
            i <= jobs@.len(),
            out@.len() == i,
            forall|k: int| 0 <= k < i ==> is_recovery(#[trigger] out@[k], jobs@[k]@, now),
        decreases jobs@.len() - i,
    {
        out.push(recover_orphan(jobs[i].copied(), now));
        i += 1;
    }
    out
}

/// What a worker does next.
#[derive(Debug, PartialEq, Eq, Structural, Clone, Copy)]
pub enum Idle {
    Run,
    Leave,
    Sleep,
}

/// What a worker does next, by whether a job waits and how long there has been none. One with
/// no limit stays.
pub fn serve(waiting: bool, idle_ms: u64, limit_ms: Option<u64>) -> (r: Idle)
    ensures
        r == (if waiting {
            Idle::Run
        } else {
            match limit_ms {
                Some(limit) => if idle_ms > limit {
                    Idle::Leave
                } else {
                    Idle::Sleep
                },
                None => Idle::Sleep,
            }
        }),
{
    if waiting {
        return Idle::Run;
    }
    match limit_ms {
        Some(limit) => if idle_ms > limit {
            Idle::Leave
        } else {
            Idle::Sleep
        },
        None => Idle::Sleep,
    }
}

/// What is done about a job that has been asked to end.
#[derive(Debug, PartialEq, Eq, Structural, Clone, Copy)]
pub enum Ending {
    Over,
    Wait,
    Kill,
}

/// What is done about a job that was asked to end so many milliseconds ago: it has a while to
/// do so by itself.
pub fn terminate(elapsed_ms: u64, ended: bool) -> (r: Ending)
    ensures
        r == (if elapsed_ms >= KILL_GRACE_MS {
            Ending::Kill
        } else if ended {
            Ending::Over
        } else {
            Ending::Wait
        }),
{
    if elapsed_ms >= KILL_GRACE_MS {
        Ending::Kill
    } else if ended {
        Ending::Over
    } else {
        Ending::Wait
    }
}

/// Where the orchestrator may be: beside the program `exe`, and along the search path.
pub open spec fn orchestrator_places(exe: Option<Seq<char>>, path: Seq<char>) -> Seq<Seq<char>> {
    let along = pieces(path, ':').map_values(
        |dir: Seq<char>| path_join(dir, "ai-org-orchestrator"@),
    );
    match exe {
        None => along,
        Some(exe) => match parent_of(exe) {
            None => along,
            Some(dir) => seq![path_join(dir, "ai-org-orchestrator"@)] + along,
        },
    }
}

/// Where the orchestrator may be, in the order in which it is looked for.
pub fn find_orchestrator(exe: Option<String>, path: &str) -> (r: Vec<String>)
    ensures
        texts(r@) == orchestrator_places(opt_view(exe), path@),
{
    let mut out: Vec<String> = Vec::new();
    assert(texts(out@) =~= Seq::<Seq<char>>::empty());
    if let Some(exe) = exe {
        if let Some(dir) = parent(exe.as_str()) {
            let place = join_path(dir.as_str(), "ai-org-orchestrator");
            out.push(place);
            assert(texts(out@) =~= seq![place@]);
        }
    }
    let ghost first = texts(out@);
    let dirs = split(path, ':');
    let ghost along = pieces(path@, ':').map_values(
        |dir: Seq<char>| path_join(dir, "ai-org-orchestrator"@),
    );
    let mut i: usize = 0;
    assert(first + along.take(0) =~= first);
    while i < dirs.len()
        invariant
            i <= dirs@.len(),
            texts(dirs@) == pieces(path@, ':'),
            along == pieces(path@, ':').map_values(
                |dir: Seq<char>| path_join(dir, "ai-org-orchestrator"@),
            ),
            texts(out@) == first + along.take(i as int),
        decreases dirs@.len() - i,
    {
        let ghost had = out@;
        assert(pieces(path@, ':')[i as int] == dirs@[i as int]@);
        let place = join_path(dirs[i].as_str(), "ai-org-orchestrator");
        out.push(place);
        assert(texts(out@) =~= texts(had).push(place@));
        assert(first + along.take(i + 1) =~= (first + along.take(i as int)).push(place@));
        i += 1;
    }
    assert(along.take(i as int) =~= along);
    assert(Seq::<Seq<char>>::empty() + along =~= along);
    out
}

/// The arguments of the orchestrator for a job.
pub open spec fn orchestrator_arguments(job: JobView) -> Seq<Seq<char>> {
    let args = seq!["--workspace"@, job.workspace, "--source"@, job.source];
    match job.max_iter {
        Some(n) => args + seq!["--max-iter"@, decimal(n as nat)],
        None => args,
    }
}

/// The arguments of the orchestrator for a job.
pub fn arguments_for(job: &Job) -> (r: Vec<String>)
    ensures
        texts(r@) == orchestrator_arguments(job@),
{
    let mut args = vec![
        "--workspace".to_owned(),
        job.workspace.clone(),
        "--source".to_owned(),
        job.source.clone(),
    ];
    if let Some(n) = job.max_iter {
        args.push("--max-iter".to_owned());
        args.push(decimal_text(n as u64));
    }
    assert(texts(args@) =~= orchestrator_arguments(job@));
    args
}

/// The search path that a job gets: however the worker was started, the Rust tools are on it.
pub fn search_path(home: &str, existing: &str) -> (r: String)
    ensures
        r@ == home@ + "/.cargo/bin"@ + ":"@ + existing@,
{
    home.to_owned().concat("/.cargo/bin").concat(":").concat(existing)
}

/// How a process ended.
#[derive(Debug, Clone, Copy, PartialEq, Eq, Structural)]
pub struct Exit {
    pub code: Option<i32>,
    pub signal: Option<i32>,
}

/// What is said of a process that did not end well.
pub open spec fn exit_text(e: Exit) -> Seq<char> {
    match e.code {
        Some(code) => "exited with code "@ + signed_decimal(code as int),
        None => match e.signal {
            Some(signal) => "killed by signal "@ + signed_decimal(signal as int),
            None => "exited abnormally"@,
        },
    }
}

/// What is said of a process that did not end well.
pub fn describe_exit(e: Exit) -> (r: String)
    ensures
        r@ == exit_text(e),
{
    match e.code {
        Some(code) => "exited with code ".to_owned().concat(signed_text(code).as_str()),
        None => match e.signal {
            Some(signal) => "killed by signal ".to_owned().concat(signed_text(signal).as_str()),
            None => "exited abnormally".to_owned(),
        },
    }
}

/// A question of the worker.
#[derive(Debug)]
pub enum WorkEffect {
    /// Is the job to be cancelled?
    Cancelled,
    /// Where is the orchestrator?
    Find,
    /// What time is it?
    Now,
    /// Write the job down.
    Save { job: Job },
    /// Start the orchestrator at `program` for the job.
    Start { program: String, job: Job },
    /// Has it ended?
    Look,
    /// End it.
    Terminate,
    /// Wait a little.
    Sleep,
}

/// A question of the worker, by its contents.
pub enum WorkEffectView {
    Cancelled,
    Find,
    Now,
    Save { job: JobView },
    Start { program: Seq<char>, job: JobView },
    Look,
    Terminate,
    Sleep,
}

impl View for WorkEffect {
    type V = WorkEffectView;

    open spec fn view(&self) -> WorkEffectView {
        match self {
            WorkEffect::Cancelled => WorkEffectView::Cancelled,
            WorkEffect::Find => WorkEffectView::Find,
            WorkEffect::Now => WorkEffectView::Now,
            WorkEffect::Save { job } => WorkEffectView::Save { job: job@ },
            WorkEffect::Start { program, job } => WorkEffectView::Start {
                program: program@,
                job: job@,
            },
            WorkEffect::Look => WorkEffectView::Look,
            WorkEffect::Terminate => WorkEffectView::Terminate,
            WorkEffect::Sleep => WorkEffectView::Sleep,
        }
    }
}

/// An answer to a question of the worker.
#[derive(Debug)]
pub enum WorkReply {
    Flag(bool),
    Program(Option<String>),
    Time(Moment),
    Done,
    /// The process, or why there is none.
    Started(Result<u32, String>),
    /// How the process ended, once it has.
    Ended(Option<Exit>),
}

/// What the work on a job comes to.
pub type Labor<T> = Step<T, WorkEffect>;

/// What the work on a job comes to, by its contents.
pub type LaborView<V> = StepView<V, WorkEffectView>;

/// A yes or no to `e`.
pub open spec fn told(e: WorkEffectView, log: Seq<WorkReply>, at: int) -> LaborView<bool> {
    if 0 <= at < log.len() && log[at] is Flag {
        Ok((log[at]->Flag_0, at + 1))
    } else {
        Err(PauseView::Ask(e))
    }
}

/// The assurance that `e` was done.
pub open spec fn performed(e: WorkEffectView, log: Seq<WorkReply>, at: int) -> LaborView<()> {
    if 0 <= at < log.len() && log[at] is Done {
        Ok(((), at + 1))
    } else {
        Err(PauseView::Ask(e))
    }
}

/// The time.
pub open spec fn time_at(log: Seq<WorkReply>, at: int) -> LaborView<Moment> {
    if 0 <= at < log.len() && log[at] is Time {
        Ok((log[at]->Time_0, at + 1))
    } else {
        Err(PauseView::Ask(WorkEffectView::Now))
    }
}

/// The job, over and written down.
pub open spec fn closed_out(
    job: JobView,
    state: State,
    exit_code: Option<i32>,
    error: Option<Seq<char>>,
    log: Seq<WorkReply>,
    at: int,
) -> LaborView<JobView> {
    match time_at(log, at) {
        Err(p) => Err(p),
        Ok((now, at)) => {
            let over = finished(job, state, exit_code, error, now);
            match performed(WorkEffectView::Save { job: over }, log, at) {
                Err(p) => Err(p),
                Ok((_, at)) => Ok((over, at)),
            }
        },
    }
}

/// What becomes of a job that runs: it ends, or is ended because that was asked for.
pub open spec fn watched_from(job: JobView, log: Seq<WorkReply>, at: int) -> LaborView<JobView>
    decreases log.len() - at,
{
    if !(0 <= at < log.len() && log[at] is Ended) {
        Err(PauseView::Ask(WorkEffectView::Look))
    } else {
        match log[at]->Ended_0 {
            Some(exit) => if exit.code == Some(0i32) {
                closed_out(job, State::Succeeded, exit.code, None, log, at + 1)
            } else {
                closed_out(job, State::Failed, exit.code, Some(exit_text(exit)), log, at + 1)
            },
            None => match told(WorkEffectView::Cancelled, log, at + 1) {
                Err(p) => Err(p),
                Ok((cancel, at)) => if cancel {
                    match performed(WorkEffectView::Terminate, log, at) {
                        Err(p) => Err(p),
                        Ok((_, at)) => closed_out(job, State::Cancelled, None, None, log, at),
                    }
                } else {
                    match performed(WorkEffectView::Sleep, log, at) {
                        Err(p) => Err(p),
                        Ok((_, at)) => watched_from(job, log, at),
                    }
                },
            },
        }
    }
}

/// What becomes of a job once the orchestrator has been found at `program`.
pub open spec fn launched(
    job: JobView,
    program: Seq<char>,
    log: Seq<WorkReply>,
    at: int,
) -> LaborView<JobView> {
    match time_at(log, at) {
        Err(p) => Err(p),
        Ok((now, at)) => {
            let running = JobView { state: State::Running, started_at: Some(now), ..job };
            match performed(WorkEffectView::Save { job: running }, log, at) {
                Err(p) => Err(p),
                Ok((_, at)) => if !(0 <= at < log.len() && log[at] is Started) {
                    Err(PauseView::Ask(WorkEffectView::Start { program, job: running }))
                } else {
                    match log[at]->Started_0 {
                        Err(e) => closed_out(
                            running,
                            State::Failed,
                            None,
                            Some(e@),
                            log,
                            at + 1,
                        ),
                        Ok(pid) => {
                            let known = JobView { pid: Some(pid), ..running };
                            match performed(WorkEffectView::Save { job: known }, log, at + 1) {
                                Err(p) => Err(p),
                                Ok((_, at)) => watched_from(known, log, at),
                            }
                        },
                    }
                },
            }
        },
    }
}

/// What becomes of a job.
pub open spec fn worked_on(job: JobView, log: Seq<WorkReply>, at: int) -> LaborView<JobView> {
    match told(WorkEffectView::Cancelled, log, at) {
        Err(p) => Err(p),
        Ok((cancel, at)) => if cancel {
            closed_out(job, State::Cancelled, None, None, log, at)
        } else if !(0 <= at < log.len() && log[at] is Program) {
            Err(PauseView::Ask(WorkEffectView::Find))
        } else {
            match opt_view(log[at]->Program_0) {
                None => closed_out(
                    job,
                    State::Failed,
                    None,
                    Some("ai-org-orchestrator not found"@),
                    log,
                    at + 1,
                ),
                Some(program) => launched(job, program, log, at + 1),
            }
        },
    }
}

fn ask_flag(e: WorkEffect, log: &[WorkReply], at: usize) -> (r: Labor<bool>)
    ensures
        seen(r) == told(e@, log@, at as int),
{
    if at < log.len() {
        if let WorkReply::Flag(b) = &log[at] {
            return Ok((*b, at + 1));
        }
    }
    Err(Pause::Ask(e))
}

fn perform(e: WorkEffect, log: &[WorkReply], at: usize) -> (r: Labor<()>)
    ensures
        seen(r) == performed(e@, log@, at as int),
{
    if at < log.len() {
        if let WorkReply::Done = &log[at] {
            return Ok(((), at + 1));
        }
    }
    Err(Pause::Ask(e))
}

fn ask_time(log: &[WorkReply], at: usize) -> (r: Labor<Moment>)
    ensures
        seen(r) == time_at(log@, at as int),
{
    if at < log.len() {
        if let WorkReply::Time(now) = &log[at] {
            return Ok((*now, at + 1));
        }
    }
    Err(Pause::Ask(WorkEffect::Now))
}

fn close_out(
    job: Job,
    state: State,
    exit_code: Option<i32>,
    error: Option<String>,
    log: &[WorkReply],
    at: usize,
) -> (r: Labor<Job>)
    ensures
        seen(r) == closed_out(job@, state, exit_code, opt_view(error), log@, at as int),
{
    let (now, at) = ask_time(log, at)?;
    let over = finish(job, state, exit_code, error, now);
    let (_, at) = perform(WorkEffect::Save { job: over.copied() }, log, at)?;
    Ok((over, at))
}

fn watch(job: Job, log: &[WorkReply], at: usize) -> (r: Labor<Job>)
    ensures
        seen(r) == watched_from(job@, log@, at as int),
{
    let mut now: usize = at;
    loop
        invariant
            watched_from(job@, log@, now as int) == watched_from(job@, log@, at as int),
        decreases log@.len() - now,
    {
        if now >= log.len() {
            return Err(Pause::Ask(WorkEffect::Look));
        }
        match &log[now] {
            WorkReply::Ended(Some(exit)) => {
                let over = *exit;
                let well = match over.code {
                    Some(code) => code == 0,
                    None => false,
                };
                return if well {
                    close_out(job, State::Succeeded, over.code, None, log, now + 1)
                } else {
                    close_out(
                        job,
                        State::Failed,
                        over.code,
                        Some(describe_exit(over)),
                        log,
                        now + 1,
                    )
                };
            },
            WorkReply::Ended(None) => {},
            _ => {
                return Err(Pause::Ask(WorkEffect::Look));
            },
        }
        let (cancel, at1) = ask_flag(WorkEffect::Cancelled, log, now + 1)?;
        if cancel {
            let (_, at2) = perform(WorkEffect::Terminate, log, at1)?;
            return close_out(job, State::Cancelled, None, None, log, at2);
        }
        let (_, at2) = perform(WorkEffect::Sleep, log, at1)?;
        now = at2;
    }
}

fn launch(job: Job, program: String, log: &[WorkReply], at: usize) -> (r: Labor<Job>)
    ensures
        seen(r) == launched(job@, program@, log@, at as int),
{
    let (now, at) = ask_time(log, at)?;
    let running = Job { state: State::Running, started_at: Some(now), ..job };
    let (_, at) = perform(WorkEffect::Save { job: running.copied() }, log, at)?;
    if at < log.len() {
        if let WorkReply::Started(outcome) = &log[at] {
            return match outcome {
                Err(e) => close_out(running, State::Failed, None, Some(e.clone()), log, at + 1),
                Ok(pid) => {
                    let known = Job { pid: Some(*pid), ..running };
                    let (_, at) = perform(
                        WorkEffect::Save { job: known.copied() },
                        log,
                        at + 1,
                    )?;
                    watch(known, log, at)
                },
            };
        }
    }
    Err(Pause::Ask(WorkEffect::Start { program, job: running }))
}

/// Runs a job: unless it is to be cancelled, starts the orchestrator for it and waits until
/// that has ended or is to be ended. Every step is written down before the next.
pub fn run_job(job: Job, log: &[WorkReply], at: usize) -> (r: Labor<Job>)
    ensures
        seen(r) == worked_on(job@, log@, at as int),
{
    let (cancel, at) = ask_flag(WorkEffect::Cancelled, log, at)?;
    if cancel {
        return close_out(job, State::Cancelled, None, None, log, at);
    }
    if at < log.len() {
        if let WorkReply::Program(found) = &log[at] {
            return match found {
                None => close_out(
                    job,
                    State::Failed,
                    None,
                    Some("ai-org-orchestrator not found".to_owned()),
                    log,
                    at + 1,
                ),
                Some(program) => launch(job, program.clone(), log, at + 1),
            };
        }
    }
    Err(Pause::Ask(WorkEffect::Find))
}

/// Whether a job is over.
pub open spec fn is_over(s: State) -> bool {
    s == State::Succeeded || s == State::Failed || s == State::Cancelled
}

/// A job that was interrupted either waits again or, after so many times, has failed: it is
/// never left running, and never tried more often. Any other job stays as it is.
pub proof fn law_interrupted_jobs_are_resumed_up_to_the_cap(job: JobView, now: Moment)
    ensures
        !is_interrupted(recovered(job, now)),
        !is_interrupted(job) ==> recovered(job, now) == job,
        job.resume_count <= MAX_RESUMES ==> recovered(job, now).resume_count <= MAX_RESUMES,
        is_interrupted(job) && job.resume_count < MAX_RESUMES ==> recovered(job, now) == (JobView {
            state: State::Queued,
            resume_count: (job.resume_count + 1) as u32,
            pid: None,
            started_at: None,
            ..job
        }),
        is_interrupted(job) && job.resume_count >= MAX_RESUMES ==> recovered(job, now).state
            == State::Failed && recovered(job, now).resume_count == job.resume_count && recovered(
            job,
            now,
        ).error == Some(GIVING_UP@),
        recovered(job, now).id == job.id && recovered(job, now).workspace == job.workspace
            && recovered(job, now).source == job.source,
{
}

proof fn lemma_watched(job: JobView, log: Seq<WorkReply>, at: int)
    ensures
        watched_from(job, log, at) matches Ok((over, end)) ==> is_over(over.state)
            && over.finished_at is Some && over.id == job.id,
    decreases log.len() - at,
{
    if 0 <= at < log.len() && log[at] is Ended && log[at]->Ended_0 is None {
        if told(WorkEffectView::Cancelled, log, at + 1) is Ok && performed(
            WorkEffectView::Sleep,
            log,
            at + 2,
        ) is Ok {
            lemma_watched(job, log, at + 3);
        }
    }
}

/// A job that was worked on is over, whatever happened: it succeeded, failed or was cancelled,
/// and it is known when.
pub proof fn law_jobs_that_ran_are_over(job: JobView, log: Seq<WorkReply>, at: int)
    ensures
        worked_on(job, log, at) matches Ok((over, end)) ==> is_over(over.state)
            && over.finished_at is Some && over.id == job.id,
{
    if told(WorkEffectView::Cancelled, log, at) is Ok {
        let cancel = log[at]->Flag_0;
        let at = at + 1;
        if !cancel && 0 <= at < log.len() && log[at] is Program && log[at]->Program_0 is Some {
            let at = at + 1;
            if time_at(log, at) is Ok {
                let now = log[at]->Time_0;
                let running = JobView { state: State::Running, started_at: Some(now), ..job };
                let at = at + 2;
                if 0 <= at < log.len() && log[at] is Started && log[at]->Started_0 is Ok {
                    let known = JobView { pid: Some(log[at]->Started_0->Ok_0), ..running };
                    lemma_watched(known, log, at + 2);
                }
            }
        }
    }
}

/// Whether `r` is a kind of answer to `e`.
pub open spec fn answers(e: WorkEffectView, r: WorkReply) -> bool {
    match e {
        WorkEffectView::Cancelled => r is Flag,
        WorkEffectView::Find => r is Program,
        WorkEffectView::Now => r is Time,
        WorkEffectView::Save { job: _ } => r is Done,
        WorkEffectView::Start { program: _, job: _ } => r is Started,
        WorkEffectView::Look => r is Ended,
        WorkEffectView::Terminate => r is Done,
        WorkEffectView::Sleep => r is Done,
    }
}

/// Whether every answer from `at` on was given to the question that the answers before it lead to.
pub open spec fn is_record(job: JobView, log: Seq<WorkReply>, at: int) -> bool {
    &&& 0 <= at <= log.len()
    &&& forall|k: int|
        at <= k < log.len() ==> (#[trigger] worked_on(job, log.take(k), at) matches Err(
            PauseView::Ask(e),
        ) && answers(e, log[k]))
}

/// What work comes to, had it used `n` answers more.
pub open spec fn moved(r: LaborView<JobView>, n: int) -> LaborView<JobView> {
    match r {
        Ok((job, at)) => Ok((job, at + n)),
        Err(p) => Err(p),
    }
}

/// What becomes of a job that runs depends only on the answers that are still to be read.
proof fn lemma_watched_elsewhere(
    job: JobView,
    a: Seq<WorkReply>,
    i: int,
    b: Seq<WorkReply>,
    j: int,
)
    requires
        0 <= i <= a.len(),
        0 <= j <= b.len(),
        a.skip(i) == b.skip(j),
    ensures
        watched_from(job, a, i) == moved(watched_from(job, b, j), i - j),
    decreases a.len() - i,
{
    assert(a.skip(i).len() == a.len() - i);
    assert(b.skip(j).len() == b.len() - j);
    assert forall|k: int| 0 <= k < a.len() - i implies #[trigger] a[i + k] == b[j + k] by {
        assert(a.skip(i)[k] == a[i + k]);
        assert(b.skip(j)[k] == b[j + k]);
    }
    if i < a.len() {
        assert(a[i + 0] == b[j + 0]);
        if i + 1 < a.len() {
            assert(a[i + 1] == b[j + 1]);
            if i + 2 < a.len() {
                assert(a[i + 2] == b[j + 2]);
                if i + 3 < a.len() {
                    assert(a[i + 3] == b[j + 3]);
                    if i + 4 < a.len() {
                        assert(a[i + 4] == b[j + 4]);
                    }
                }
                assert(a.skip(i + 3) =~= a.skip(i).skip(3));
                assert(b.skip(j + 3) =~= b.skip(j).skip(3));
                lemma_watched_elsewhere(job, a, i + 3, b, j + 3);
            }
        }
    }
}

/// Where a running job is to be waited for, the last two answers were that it still runs and that
/// it is not to be cancelled, and what follows the wait does not depend on them.
proof fn lemma_wait(job: JobView, log: Seq<WorkReply>, at: int, more: Seq<WorkReply>)
    requires
        0 <= at <= log.len(),
        forall|k: int|
            at <= k < log.len() ==> (#[trigger] watched_from(job, log.take(k), at) matches Err(
                PauseView::Ask(e),
            ) && answers(e, log[k])),
        watched_from(job, log, at) == Err::<(JobView, int), PauseView<WorkEffectView>>(
            PauseView::Ask(WorkEffectView::Sleep),
        ),
    ensures
        log.len() >= at + 2,
        watched_from(job, log.push(WorkReply::Done) + more, at) == moved(
            watched_from(job, log.take(log.len() - 2) + more, at),
            3,
        ),
    decreases log.len() - at,
{
    let n = log.len() as int;
    let long = log.push(WorkReply::Done) + more;
    let short = log.take(n - 2) + more;
    assert(at < n);
    assert(watched_from(job, log.take(at), at) == Err::<
        (JobView, int),
        PauseView<WorkEffectView>,
    >(PauseView::Ask(WorkEffectView::Look)));
    assert(log[at] is Ended && log[at]->Ended_0 is None);
    assert(at + 1 < n);
    assert(log.take(at + 1)[at] == log[at]);
    assert(watched_from(job, log.take(at + 1), at) == Err::<
        (JobView, int),
        PauseView<WorkEffectView>,
    >(PauseView::Ask(WorkEffectView::Cancelled)));
    assert(log[at + 1] is Flag && !log[at + 1]->Flag_0);
    assert(long[at] == log[at]);
    assert(long[at + 1] == log[at + 1]);
    if at + 2 == n {
        assert(long[at + 2] == WorkReply::Done);
        assert(watched_from(job, long, at) == watched_from(job, long, at + 3));
        assert(long.skip(at + 3) =~= more);
        assert(short.skip(at) =~= more);
        lemma_watched_elsewhere(job, long, at + 3, short, at);
    } else {
        assert(log.take(at + 2)[at] == log[at]);
        assert(log.take(at + 2)[at + 1] == log[at + 1]);
        assert(watched_from(job, log.take(at + 2), at) == Err::<
            (JobView, int),
            PauseView<WorkEffectView>,
        >(PauseView::Ask(WorkEffectView::Sleep)));
        assert(log[at + 2] is Done);
        assert(long[at + 2] == log[at + 2]);
        assert(watched_from(job, log, at) == watched_from(job, log, at + 3));
        assert forall|k: int| at + 3 <= k < n implies (#[trigger] watched_from(
            job,
            log.take(k),
            at + 3,
        ) matches Err(PauseView::Ask(e)) && answers(e, log[k])) by {
            let part = log.take(k);
            assert(part[at] == log[at] && part[at + 1] == log[at + 1] && part[at + 2] == log[at
                + 2]);
            assert(watched_from(job, part, at) == watched_from(job, part, at + 3));
        }
        lemma_wait(job, log, at + 3, more);
        assert(short[at] == log[at] && short[at + 1] == log[at + 1] && short[at + 2] == log[at
            + 2]);
    }
}

/// The place in the answers from which a job that was started is watched, and the job as it then
/// is.
spec fn watch_place(job: JobView, log: Seq<WorkReply>, at: int) -> (JobView, int) {
    (
        JobView {
            state: State::Running,
            started_at: Some(log[at + 2]->Time_0),
            pid: Some(log[at + 4]->Started_0->Ok_0),
            ..job
        },
        at + 6,
    )
}

/// A job whose first answers lead up to the watch is watched from there.
proof fn lemma_watch_begins(job: JobView, log: Seq<WorkReply>, other: Seq<WorkReply>, at: int)
    requires
        0 <= at,
        at + 6 <= log.len(),
        at + 6 <= other.len(),
        forall|k: int| at <= k < at + 6 ==> #[trigger] log[k] == other[k],
        log[at] is Flag && !log[at]->Flag_0,
        log[at + 1] is Program && log[at + 1]->Program_0 is Some,
        log[at + 2] is Time,
        log[at + 3] is Done,
        log[at + 4] is Started && log[at + 4]->Started_0 is Ok,
        log[at + 5] is Done,
    ensures
        worked_on(job, other, at) == watched_from(watch_place(job, log, at).0, other, at + 6),
{
    assert(other[at] == log[at]);
    assert(other[at + 1] == log[at + 1]);
    assert(other[at + 2] == log[at + 2]);
    assert(other[at + 3] == log[at + 3]);
    assert(other[at + 4] == log[at + 4]);
    assert(other[at + 5] == log[at + 5]);
}

/// Waiting for a running job leads back to where the last look at it began: the look, the question
/// whether the job is to be cancelled and the wait can be struck from the record, and the work
/// asks the same questions and comes to the same result.
pub proof fn law_waiting_leaves_no_trace(
    job: JobView,
    log: Seq<WorkReply>,
    at: int,
    more: Seq<WorkReply>,
)
    requires
        is_record(job, log, at),
        worked_on(job, log, at) == Err::<(JobView, int), PauseView<WorkEffectView>>(
            PauseView::Ask(WorkEffectView::Sleep),
        ),
    ensures
        log.len() >= at + 2,
        is_record(job, log.take(log.len() - 2), at),
        worked_on(job, log.push(WorkReply::Done) + more, at) == moved(
            worked_on(job, log.take(log.len() - 2) + more, at),
            3,
        ),
{
    let n = log.len() as int;
    assert(at < n);
    assert(worked_on(job, log.take(at), at) is Err);
    assert(log[at] is Flag);
    assert(!log[at]->Flag_0);
    assert(at + 1 < n);
    let b = log.take(at + 1);
    assert(b[at] == log[at]);
    assert(worked_on(job, b, at) is Err);
    assert(log[at + 1] is Program);
    assert(log[at + 1]->Program_0 is Some);
    assert(at + 2 < n);
    let c = log.take(at + 2);
    assert(c[at] == log[at] && c[at + 1] == log[at + 1]);
    assert(worked_on(job, c, at) is Err);
    assert(log[at + 2] is Time);
    assert(at + 3 < n);
    let d = log.take(at + 3);
    assert(d[at] == log[at] && d[at + 1] == log[at + 1] && d[at + 2] == log[at + 2]);
    assert(worked_on(job, d, at) is Err);
    assert(log[at + 3] is Done);
    assert(at + 4 < n);
    let e = log.take(at + 4);
    assert(e[at] == log[at] && e[at + 1] == log[at + 1] && e[at + 2] == log[at + 2] && e[at + 3]
        == log[at + 3]);
    assert(worked_on(job, e, at) is Err);
    assert(log[at + 4] is Started);
    assert(log[at + 4]->Started_0 is Ok);
    assert(at + 5 < n);
    let f = log.take(at + 5);
    assert(f[at] == log[at] && f[at + 1] == log[at + 1] && f[at + 2] == log[at + 2] && f[at + 3]
        == log[at + 3] && f[at + 4] == log[at + 4]);
    assert(worked_on(job, f, at) is Err);
    assert(log[at + 5] is Done);
    let known = watch_place(job, log, at).0;
    lemma_watch_begins(job, log, log, at);
    assert forall|k: int| at + 6 <= k < n implies (#[trigger] watched_from(
        known,
        log.take(k),
        at + 6,
    ) matches Err(PauseView::Ask(e)) && answers(e, log[k])) by {
        lemma_watch_begins(job, log, log.take(k), at);
        assert(worked_on(job, log.take(k), at) is Err);
    }
    lemma_wait(known, log, at + 6, more);
    lemma_watch_begins(job, log, log.push(WorkReply::Done) + more, at);
    lemma_watch_begins(job, log, log.take(n - 2) + more, at);
    let short = log.take(n - 2);
    assert forall|k: int| at <= k < short.len() implies (#[trigger] worked_on(
        job,
        short.take(k),
        at,
    ) matches Err(PauseView::Ask(e)) && answers(e, short[k])) by {
        assert(short.take(k) =~= log.take(k));
        assert(worked_on(job, log.take(k), at) is Err);
    }
}

/// A job that is to be cancelled before it runs is never started: it is written down as cancelled.
/// Any other is written down as running before the orchestrator is started for it, and again with
/// the process that it runs in before that is looked at.
pub proof fn law_jobs_are_written_down_before_they_run(
    job: JobView,
    log: Seq<WorkReply>,
    at: int,
)
    requires
        0 <= at <= log.len(),
    ensures
        log.len() == at ==> worked_on(job, log, at) == Err::<
            (JobView, int),
            PauseView<WorkEffectView>,
        >(PauseView::Ask(WorkEffectView::Cancelled)),
        log.len() == at + 2 && log[at] == WorkReply::Flag(true) && log[at + 1] is Time ==> worked_on(
            job,
            log,
            at,
        ) == Err::<(JobView, int), PauseView<WorkEffectView>>(
            PauseView::Ask(
                WorkEffectView::Save {
                    job: JobView {
                        state: State::Cancelled,
                        exit_code: None,
                        error: None,
                        finished_at: Some(log[at + 1]->Time_0),
                        ..job
                    },
                },
            ),
        ),
        log.len() >= at + 3 && log[at] == WorkReply::Flag(false) && log[at + 1] is Program
            && log[at + 1]->Program_0 is Some && log[at + 2] is Time ==> {
            let r = worked_on(job, log, at);
            let running = JobView {
                state: State::Running,
                started_at: Some(log[at + 2]->Time_0),
                ..job
            };
            &&& log.len() == at + 3 ==> r == Err::<(JobView, int), PauseView<WorkEffectView>>(
                PauseView::Ask(WorkEffectView::Save { job: running }),
            )
            &&& log.len() == at + 4 && log[at + 3] is Done ==> r == Err::<
                (JobView, int),
                PauseView<WorkEffectView>,
            >(
                PauseView::Ask(
                    WorkEffectView::Start {
                        program: log[at + 1]->Program_0->Some_0@,
                        job: running,
                    },
                ),
            )
            &&& log.len() == at + 5 && log[at + 3] is Done && log[at + 4] is Started
                && log[at + 4]->Started_0 is Ok ==> r == Err::<
                (JobView, int),
                PauseView<WorkEffectView>,
            >(
                PauseView::Ask(
                    WorkEffectView::Save {
                        job: JobView { pid: Some(log[at + 4]->Started_0->Ok_0), ..running },
                    },
                ),
            )
            &&& log.len() == at + 6 && log[at + 3] is Done && log[at + 4] is Started
                && log[at + 4]->Started_0 is Ok && log[at + 5] is Done ==> r == Err::<
                (JobView, int),
                PauseView<WorkEffectView>,
            >(PauseView::Ask(WorkEffectView::Look))
        },
{
    reveal_with_fuel(watched_from, 2);
}

/// A running job succeeded if its process ended with code 0, and only then; with any other code, or
/// by a signal, it failed, and it says how. One that goes on is ended where that is asked for, and
/// then is cancelled; else it is waited for.
pub proof fn law_the_exit_tells_the_outcome(job: JobView, log: Seq<WorkReply>, at: int)
    requires
        0 <= at < log.len(),
        log[at] is Ended,
    ensures
        log[at]->Ended_0 matches Some(exit) ==> (watched_from(job, log, at) matches Ok((over, _))
            ==> {
            &&& over.state == (if exit.code == Some(0i32) {
                State::Succeeded
            } else {
                State::Failed
            })
            &&& over.exit_code == exit.code
            &&& over.error is None <==> exit.code == Some(0i32)
            &&& log[at + 1] is Time && over.finished_at == Some(log[at + 1]->Time_0)
            &&& over.id == job.id && over.workspace == job.workspace && over.source == job.source
        }),
        log[at]->Ended_0 is None && log.len() == at + 1 ==> watched_from(job, log, at) == Err::<
            (JobView, int),
            PauseView<WorkEffectView>,
        >(PauseView::Ask(WorkEffectView::Cancelled)),
        log[at]->Ended_0 is None && log.len() == at + 2 && log[at + 1] == WorkReply::Flag(true)
            ==> watched_from(job, log, at) == Err::<(JobView, int), PauseView<WorkEffectView>>(
            PauseView::Ask(WorkEffectView::Terminate),
        ),
        log[at]->Ended_0 is None && log.len() == at + 2 && log[at + 1] == WorkReply::Flag(false)
            ==> watched_from(job, log, at) == Err::<(JobView, int), PauseView<WorkEffectView>>(
            PauseView::Ask(WorkEffectView::Sleep),
        ),
{
}

} // verus!
