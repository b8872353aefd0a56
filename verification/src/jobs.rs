//! The jobs of a queue: their states, their files, and the order in which they come.

use crate::clock::Moment;
use crate::copied::{opt_view, views, Copied};
use crate::numbers::{decimal, decimal_text, pad_start, padded_start};
use crate::paths::{join_path, path_join};
use crate::ranking::{by_key, lemma_by_key, no_higher, sort_by_key};
use crate::steps::{seen, Pause, PauseView, Step, StepView};
use crate::text::{
    after_prefix, is_space, join, joined, lemma_trimmed_is_kept, lines, lines_of, opt, strip_prefix,
    texts, trim, trimmed,
};
use vstd::prelude::*;
use vstd::string::StringExecFns;

verus! {

/// How far a job has come.
#[derive(Debug, Clone, Copy, PartialEq, Eq, Structural)]
pub enum State {
    Queued,
    Running,
    Succeeded,
    Failed,
    Cancelled,
}

/// What a state is called.
pub open spec fn label_of(s: State) -> Seq<char> {
    match s {
        State::Queued => "queued"@,
        State::Running => "running"@,
        State::Succeeded => "succeeded"@,
        State::Failed => "failed"@,
        State::Cancelled => "cancelled"@,
    }
}

impl State {
    /// What this state is called.
    pub fn label(self) -> (r: &'static str)
        ensures
            r@ == label_of(self),
    {
        match self {
            State::Queued => "queued",
            State::Running => "running",
            State::Succeeded => "succeeded",
            State::Failed => "failed",
            State::Cancelled => "cancelled",
        }
    }
}

/// A job.
#[derive(Debug, PartialEq)]
pub struct Job {
    pub id: u32,
    pub name: Option<String>,
    pub workspace: String,
    pub source: String,
    pub max_iter: Option<u32>,
    pub inherit_env: bool,
    pub state: State,
    pub submitted_at: Moment,
    pub started_at: Option<Moment>,
    pub finished_at: Option<Moment>,
    pub pid: Option<u32>,
    pub exit_code: Option<i32>,
    pub error: Option<String>,
    /// How often the job has been started again after it was interrupted.
    pub resume_count: u32,
}

/// A job, by its contents.
pub struct JobView {
    pub id: u32,
    pub name: Option<Seq<char>>,
    pub workspace: Seq<char>,
    pub source: Seq<char>,
    pub max_iter: Option<u32>,
    pub inherit_env: bool,
    pub state: State,
    pub submitted_at: Moment,
    pub started_at: Option<Moment>,
    pub finished_at: Option<Moment>,
    pub pid: Option<u32>,
    pub exit_code: Option<i32>,
    pub error: Option<Seq<char>>,
    pub resume_count: u32,
}

impl View for Job {
    type V = JobView;

    open spec fn view(&self) -> JobView {
        JobView {
            id: self.id,
            name: opt_view(self.name),
            workspace: self.workspace@,
            source: self.source@,
            max_iter: self.max_iter,
            inherit_env: self.inherit_env,
            state: self.state,
            submitted_at: self.submitted_at,
            started_at: self.started_at,
            finished_at: self.finished_at,
            pid: self.pid,
            exit_code: self.exit_code,
            error: opt_view(self.error),
            resume_count: self.resume_count,
        }
    }
}

/// An optional text, once more.
pub fn same_text(o: &Option<String>) -> (r: Option<String>)
    ensures
        opt_view(r) == opt_view(*o),
{
    match o {
        Some(s) => Some(s.clone()),
        None => None,
    }
}

impl Copied for Job {
    fn copied(&self) -> (r: Job) {
        Job {
            id: self.id,
            name: same_text(&self.name),
            workspace: self.workspace.clone(),
            source: self.source.clone(),
            max_iter: self.max_iter,
            inherit_env: self.inherit_env,
            state: self.state,
            submitted_at: self.submitted_at,
            started_at: self.started_at,
            finished_at: self.finished_at,
            pid: self.pid,
            exit_code: self.exit_code,
            error: same_text(&self.error),
            resume_count: self.resume_count,
        }
    }
}

/// What is asked for when a job is submitted.
#[derive(Debug)]
pub struct Spec {
    pub name: Option<String>,
    pub workspace: String,
    pub source: String,
    pub max_iter: Option<u32>,
    pub inherit_env: bool,
}

/// A job that has just been submitted.
pub open spec fn submitted(id: u32, spec: Spec, now: Moment) -> JobView {
    JobView {
        id,
        name: opt_view(spec.name),
        workspace: spec.workspace@,
        source: spec.source@,
        max_iter: spec.max_iter,
        inherit_env: spec.inherit_env,
        state: State::Queued,
        submitted_at: now,
        started_at: None,
        finished_at: None,
        pid: None,
        exit_code: None,
        error: None,
        resume_count: 0,
    }
}

impl Job {
    /// A job that has just been submitted.
    pub fn new(id: u32, spec: &Spec, now: Moment) -> (r: Job)
        ensures
            r@ == submitted(id, *spec, now),
    {
        Job {
            id,
            name: same_text(&spec.name),
            workspace: spec.workspace.clone(),
            source: spec.source.clone(),
            max_iter: spec.max_iter,
            inherit_env: spec.inherit_env,
            state: State::Queued,
            submitted_at: now,
            started_at: None,
            finished_at: None,
            pid: None,
            exit_code: None,
            error: None,
            resume_count: 0,
        }
    }
}

/// The most of a log that is looked at, in bytes.
pub const STAGE_SCAN_BYTES: u64 = 262_144;

/// A queue, which is a directory.
#[derive(Debug)]
pub struct Queue {
    pub root: String,
}

/// The number of a job as its files are called.
pub open spec fn file_number(id: u32) -> Seq<char> {
    padded_start(decimal(id as nat), 4, '0')
}

fn file_digits(id: u32) -> (r: String)
    ensures
        r@ == file_number(id),
{
    pad_start(decimal_text(id as u64).as_str(), 4, '0')
}

/// The directory of a queue, by the environment: `chosen` for `REWRITER_QUEUE_DIR`.
pub open spec fn queue_root(chosen: Option<Seq<char>>, home: Option<Seq<char>>) -> Option<
    Seq<char>,
> {
    match chosen {
        Some(dir) => Some(dir),
        None => match home {
            Some(dir) => Some(path_join(dir, ".local/share/rewriter/queue"@)),
            None => None,
        },
    }
}

/// Jobs with their numbers as keys.
pub open spec fn numbered_jobs(jobs: Seq<JobView>) -> Seq<(u64, usize)> {
    Seq::new(jobs.len(), |i: int| (jobs[i].id as u64, i as usize))
}

/// Jobs in the order of their numbers.
pub open spec fn by_number(jobs: Seq<JobView>) -> Seq<JobView> {
    by_key(numbered_jobs(jobs)).map_values(|p: (u64, usize)| jobs[p.1 as int])
}

/// The first job from `i` on that waits to be run.
pub open spec fn first_queued(jobs: Seq<JobView>, i: int) -> Option<JobView>
    decreases jobs.len() - i,
{
    if i < 0 || i >= jobs.len() {
        None
    } else if jobs[i].state == State::Queued {
        Some(jobs[i])
    } else {
        first_queued(jobs, i + 1)
    }
}

/// The state of a job as it is shown: one that waits and is to be cancelled will never run.
pub open spec fn effective(state: State, cancel_requested: bool) -> State {
    if state == State::Queued && cancel_requested {
        State::Cancelled
    } else {
        state
    }
}

/// The last `n` lines of a text.
pub open spec fn last_lines(text: Seq<char>, n: nat) -> Seq<char> {
    let all = lines_of(text);
    joined(
        if all.len() > n {
            all.skip(all.len() - n)
        } else {
            all
        },
        "\n"@,
    )
}

/// The stage that the last of some lines to name one names.
pub open spec fn stage_in(lines: Seq<Seq<char>>) -> Option<Seq<char>>
    decreases lines.len(),
{
    if lines.len() == 0 {
        None
    } else {
        match after_prefix(lines.last(), "==> "@) {
            Some(name) => Some(trimmed(name)),
            None => stage_in(lines.drop_last()),
        }
    }
}

/// Whether a number could be had for a new job.
#[derive(Debug)]
pub enum Claim {
    Taken,
    Claimed,
}

/// The number that is asked for next.
#[derive(Debug)]
pub struct ClaimId {
    pub id: u32,
}

impl View for ClaimId {
    type V = u32;

    open spec fn view(&self) -> u32 {
        self.id
    }
}

pub const NO_NUMBER_LEFT: &'static str = "no job number is left";

/// The number of a new job from `id` on, asking for one after the other.
pub open spec fn claimed_from(id: nat, log: Seq<Claim>, at: int) -> StepView<u32, u32>
    decreases log.len() - at,
{
    if id > u32::MAX {
        Err(PauseView::Fail(NO_NUMBER_LEFT@))
    } else if at < 0 || at >= log.len() {
        Err(PauseView::Ask(id as u32))
    } else if log[at] is Claimed {
        Ok((id as u32, at + 1))
    } else {
        claimed_from(id + 1, log, at + 1)
    }
}

/// One more than the number of the last job, and one for the first.
pub open spec fn next_number(jobs: Seq<JobView>) -> nat {
    if jobs.len() == 0 {
        1
    } else {
        jobs.last().id as nat + 1
    }
}

impl Queue {
    /// The directory of a queue.
    pub fn open(chosen: Option<String>, home: Option<String>) -> (r: Result<Queue, &'static str>)
        ensures
            match r {
                Ok(queue) => queue_root(opt_view(chosen), opt_view(home)) == Some(queue.root@),
                Err(e) => queue_root(opt_view(chosen), opt_view(home)) is None && e@
                    == "HOME is not set"@,
            },
    {
        match chosen {
            Some(dir) => Ok(Queue { root: dir }),
            None => match home {
                Some(dir) => Ok(
                    Queue { root: join_path(dir.as_str(), ".local/share/rewriter/queue") },
                ),
                None => Err("HOME is not set"),
            },
        }
    }

    /// The directory that the jobs stand in.
    pub fn jobs_dir(&self) -> (r: String)
        ensures
            r@ == path_join(self.root@, "jobs"@),
    {
        join_path(self.root.as_str(), "jobs")
    }

    /// The directory that the logs stand in.
    pub fn logs_dir(&self) -> (r: String)
        ensures
            r@ == path_join(self.root@, "logs"@),
    {
        join_path(self.root.as_str(), "logs")
    }

    /// Where a job stands.
    pub fn job_path(&self, id: u32) -> (r: String)
        ensures
            r@ == path_join(path_join(self.root@, "jobs"@), file_number(id) + ".json"@),
    {
        join_path(self.jobs_dir().as_str(), file_digits(id).concat(".json").as_str())
    }

    /// What stands there where a job is to be cancelled.
    pub fn cancel_path(&self, id: u32) -> (r: String)
        ensures
            r@ == path_join(path_join(self.root@, "jobs"@), file_number(id) + ".cancel"@),
    {
        join_path(self.jobs_dir().as_str(), file_digits(id).concat(".cancel").as_str())
    }

    /// Where the log of a job stands.
    pub fn log_path(&self, id: u32) -> (r: String)
        ensures
            r@ == path_join(path_join(self.root@, "logs"@), file_number(id) + ".log"@),
    {
        join_path(self.logs_dir().as_str(), file_digits(id).concat(".log").as_str())
    }

    /// A directory for what was uploaded, by the time and the process that took it.
    pub fn new_work_dir(&self, nanos: u64, pid: u32) -> (r: String)
        ensures
            r@ == path_join(
                path_join(self.root@, "work"@),
                decimal(nanos as nat) + "-"@ + decimal(pid as nat),
            ),
    {
        join_path(
            join_path(self.root.as_str(), "work").as_str(),
            decimal_text(nanos).concat("-").concat(decimal_text(pid as u64).as_str()).as_str(),
        )
    }

    /// What the one worker of a queue holds locked.
    pub fn lock_path(&self) -> (r: String)
        ensures
            r@ == path_join(self.root@, "worker.lock"@),
    {
        join_path(self.root.as_str(), "worker.lock")
    }

    /// Where the log of the worker stands.
    pub fn worker_log_path(&self) -> (r: String)
        ensures
            r@ == path_join(self.root@, "worker.log"@),
    {
        join_path(self.root.as_str(), "worker.log")
    }

    /// Where a job is written before it is put in its place.
    pub fn submit_draft(&self, pid: u32) -> (r: String)
        ensures
            r@ == path_join(self.root@, "submit-"@ + decimal(pid as nat) + ".tmp"@),
    {
        join_path(
            self.root.as_str(),
            "submit-".to_owned().concat(decimal_text(pid as u64).as_str()).concat(".tmp").as_str(),
        )
    }

    /// Where a job is written before it replaces what is in its place.
    pub fn save_draft(&self, id: u32) -> (r: String)
        ensures
            r@ == path_join(self.root@, "save-"@ + decimal(id as nat) + ".tmp"@),
    {
        join_path(
            self.root.as_str(),
            "save-".to_owned().concat(decimal_text(id as u64).as_str()).concat(".tmp").as_str(),
        )
    }

    /// The number of a new job, given those that there are in order. A number that somebody
    /// else took meanwhile is passed over.
    pub fn submit(jobs: &[Job], log: &[Claim]) -> (r: Step<u32, ClaimId>)
        ensures
            seen(r) == claimed_from(next_number(views(jobs@)), log@, 0),
    {
        let mut id: u64 = if jobs.len() == 0 {
            1
        } else {
            jobs[jobs.len() - 1].id as u64 + 1
        };
        let mut at: usize = 0;
        while at < log.len()
            invariant
                at <= log@.len(),
                id <= u32::MAX as u64 + 1,
                claimed_from(id as nat, log@, at as int) == claimed_from(
                    next_number(views(jobs@)),
                    log@,
                    0,
                ),
            decreases log@.len() - at,
        {
            if id > u32::MAX as u64 {
                return Err(Pause::Fail(NO_NUMBER_LEFT.to_owned()));
            }
            if let Claim::Claimed = &log[at] {
                return Ok((id as u32, at + 1));
            }
            id += 1;
            at += 1;
        }
        if id > u32::MAX as u64 {
            return Err(Pause::Fail(NO_NUMBER_LEFT.to_owned()));
        }
        Err(Pause::Ask(ClaimId { id: id as u32 }))
    }

    /// What is said where a job cannot be read.
    pub fn missing_text(id: u32, reason: &str) -> (r: String)
        ensures
            r@ == "no job "@ + decimal(id as nat) + ": "@ + reason@,
    {
        "no job ".to_owned().concat(decimal_text(id as u64).as_str()).concat(": ").concat(reason)
    }

    /// Jobs in the order of their numbers.
    pub fn list(jobs: &[Job]) -> (r: Vec<Job>)
        ensures
            views(r@) == by_number(views(jobs@)),
    {
        let ghost all = views(jobs@);
        let mut pairs: Vec<(u64, usize)> = Vec::new();
        let mut i: usize = 0;
        while i < jobs.len()
            invariant
                i <= jobs@.len(),
                all == views(jobs@),
                pairs@ =~= numbered_jobs(all).take(i as int),
            decreases jobs@.len() - i,
        {
            pairs.push((jobs[i].id as u64, i));
            i += 1;
        }
        assert(pairs@ =~= numbered_jobs(all));
        let sorted = sort_by_key(pairs.as_slice());
        let mut out: Vec<Job> = Vec::new();
        let mut k: usize = 0;
        proof {
            lemma_places(all);
        }
        while k < sorted.len()
            invariant
                k <= sorted@.len(),
                all == views(jobs@),
                sorted@ == by_key(numbered_jobs(all)),
                forall|j: int| 0 <= j < sorted@.len() ==> (#[trigger] sorted@[j]).1 < jobs@.len(),
                views(out@) =~= by_number(all).take(k as int),
            decreases sorted@.len() - k,
        {
            let ghost had = out@;
            let job = jobs[sorted[k].1].copied();
            out.push(job);
            assert(views(out@) =~= views(had).push(job@));
            k += 1;
        }
        assert(by_number(all).take(k as int) =~= by_number(all));
        out
    }

    /// The first job that waits to be run, of jobs in order.
    pub fn next_queued(jobs: &[Job]) -> (r: Option<&Job>)
        ensures
            match r {
                Some(job) => first_queued(views(jobs@), 0) == Some(job@),
                None => first_queued(views(jobs@), 0) is None,
            },
    {
        let ghost all = views(jobs@);
        let mut i: usize = 0;
        while i < jobs.len()
            invariant
                i <= jobs@.len(),
                all == views(jobs@),
                first_queued(all, 0) == first_queued(all, i as int),
            decreases jobs@.len() - i,
        {
            assert(all[i as int] == jobs@[i as int]@);
            if let State::Queued = jobs[i].state {
                return Some(&jobs[i]);
            }
            i += 1;
        }
        None
    }

    /// The state of a job as it is shown.
    pub fn effective_state(job: &Job, cancel_requested: bool) -> (r: State)
        ensures
            r == effective(job.state, cancel_requested),
    {
        match job.state {
            State::Queued => if cancel_requested {
                State::Cancelled
            } else {
                State::Queued
            },
            other => other,
        }
    }

    /// Whether a job can be cancelled: while it waits or runs.
    pub fn request_cancel(job: &Job, cancel_requested: bool) -> (r: Result<(), String>)
        ensures
            ({
                let shown = effective(job.state, cancel_requested);
                match r {
                    Ok(_) => shown == State::Queued || shown == State::Running,
                    Err(e) => shown != State::Queued && shown != State::Running && e@ == "job "@
                        + decimal(job.id as nat) + " is already "@ + label_of(shown),
                }
            }),
    {
        match Self::effective_state(job, cancel_requested) {
            State::Queued => Ok(()),
            State::Running => Ok(()),
            shown => Err(
                "job ".to_owned().concat(decimal_text(job.id as u64).as_str()).concat(
                    " is already ",
                ).concat(shown.label()),
            ),
        }
    }

    /// Where to start reading a log of `len` bytes.
    pub fn tail_start(len: u64) -> (r: u64)
        ensures
            r == (if len > STAGE_SCAN_BYTES {
                len - STAGE_SCAN_BYTES
            } else {
                0
            }),
    {
        if len > STAGE_SCAN_BYTES {
            len - STAGE_SCAN_BYTES
        } else {
            0
        }
    }

    /// The last lines of a log.
    pub fn log_tail(tail: &str, count: usize) -> (r: String)
        ensures
            r@ == last_lines(tail@, count as nat),
    {
        let all = lines(tail);
        let ghost views_of = lines_of(tail@);
        let n: usize = all.len();
        assert(n == views_of.len());
        let start: usize = if n > count {
            n - count
        } else {
            0
        };
        let mut out: Vec<String> = Vec::new();
        let mut i: usize = start;
        assert(texts(out@) =~= views_of.subrange(start as int, i as int));
        while i < n
            invariant
                start <= i <= n == all@.len(),
                texts(all@) == views_of,
                texts(out@) =~= views_of.subrange(start as int, i as int),
            decreases n - i,
        {
            let ghost had = out@;
            let line = all[i].clone();
            out.push(line);
            assert(texts(out@) =~= texts(had).push(line@));
            assert(views_of[i as int] == line@);
            i += 1;
        }
        assert(views_of.subrange(start as int, n as int) =~= views_of.skip(start as int));
        assert(views_of.skip(0) =~= views_of);
        join(out.as_slice(), "\n")
    }

    /// The stage that a log has come to: that of the last line that names one.
    pub fn stage(tail: &str) -> (r: Option<String>)
        ensures
            opt(r) == stage_in(lines_of(tail@)),
    {
        let all = lines(tail);
        let ghost views_of = lines_of(tail@);
        let mut i: usize = all.len();
        assert(views_of.take(i as int) =~= views_of);
        while i > 0
            invariant
                i <= all@.len(),
                texts(all@) == views_of,
                views_of == lines_of(tail@),
                stage_in(views_of.take(i as int)) == stage_in(views_of),
            decreases i,
        {
            i -= 1;
            assert(views_of.take(i + 1).drop_last() =~= views_of.take(i as int));
            assert(views_of.take(i + 1).last() == all@[i as int]@);
            if let Some(name) = strip_prefix(all[i].as_str(), "==> ") {
                return Some(trim(name.as_str()));
            }
        }
        None
    }
}

proof fn lemma_places(jobs: Seq<JobView>)
    requires
        jobs.len() <= usize::MAX,
    ensures
        by_key(numbered_jobs(jobs)).len() == jobs.len(),
        forall|j: int|
            0 <= j < jobs.len() ==> (#[trigger] by_key(numbered_jobs(jobs))[j]).1 < jobs.len(),
{
    broadcast use vstd::seq_lib::group_to_multiset_ensures;

    let pairs = numbered_jobs(jobs);
    lemma_by_key(pairs);
    assert forall|j: int| 0 <= j < jobs.len() implies (#[trigger] by_key(pairs)[j]).1
        < jobs.len() by {
        let p = by_key(pairs)[j];
        assert(by_key(pairs).contains(p));
        assert(pairs.to_multiset().count(p) > 0);
        assert(pairs.contains(p));
    }
}

/// Jobs are listed from the lowest number to the highest.
pub proof fn law_jobs_are_listed_in_order(jobs: Seq<JobView>, i: int, j: int)
    requires
        jobs.len() <= usize::MAX,
        0 <= i < j < jobs.len(),
    ensures
        by_number(jobs).len() == jobs.len(),
        by_number(jobs)[i].id <= by_number(jobs)[j].id,
{
    broadcast use vstd::seq_lib::group_to_multiset_ensures;

    let pairs = numbered_jobs(jobs);
    lemma_places(jobs);
    lemma_by_key(pairs);
    let a = by_key(pairs)[i];
    let b = by_key(pairs)[j];
    assert(no_higher()(a, b));
    assert(by_key(pairs).contains(a) && by_key(pairs).contains(b));
    assert(pairs.to_multiset().count(a) > 0 && pairs.to_multiset().count(b) > 0);
    assert(pairs.contains(a) && pairs.contains(b));
    assert(a.0 == jobs[a.1 as int].id);
    assert(b.0 == jobs[b.1 as int].id);
}

/// A new job gets a higher number than every job that there was.
pub proof fn law_numbers_grow(jobs: Seq<JobView>, log: Seq<Claim>, i: int)
    requires
        0 <= i < jobs.len(),
        forall|a: int, b: int|
            0 <= a < b < jobs.len() ==> (#[trigger] jobs[a]).id <= (#[trigger] jobs[b]).id,
    ensures
        claimed_from(next_number(jobs), log, 0) matches Ok((id, _)) ==> id > jobs[i].id,
{
    lemma_claims_grow(next_number(jobs), log, 0);
}

proof fn lemma_claims_grow(first: nat, log: Seq<Claim>, at: int)
    ensures
        claimed_from(first, log, at) matches Ok((id, _)) ==> id >= first,
    decreases log.len() - at,
{
    if first <= u32::MAX && 0 <= at < log.len() && log[at] is Taken {
        lemma_claims_grow(first + 1, log, at + 1);
    }
}

/// A job that waits is cancelled as soon as that is asked for, and then cannot be cancelled
/// again.
pub proof fn law_waiting_jobs_are_cancelled_at_once(state: State)
    ensures
        state == State::Queued ==> effective(state, true) == State::Cancelled,
        state != State::Queued ==> effective(state, true) == state,
        effective(state, false) == state,
{
}

/// The job that is run next waits, no job before it does, and there is one where any job waits.
pub proof fn law_the_first_waiting_job_is_next(jobs: Seq<JobView>, i: int)
    requires
        0 <= i <= jobs.len(),
    ensures
        match first_queued(jobs, i) {
            Some(job) => exists|k: int|
                {
                    &&& i <= k < jobs.len()
                    &&& #[trigger] jobs[k] == job
                    &&& job.state == State::Queued
                    &&& forall|j: int| i <= j < k ==> (#[trigger] jobs[j]).state != State::Queued
                },
            None => forall|j: int| i <= j < jobs.len() ==> (#[trigger] jobs[j]).state != State::Queued,
        },
    decreases jobs.len() - i,
{
    if i < jobs.len() {
        if jobs[i].state == State::Queued {
            assert(jobs[i] == first_queued(jobs, i)->Some_0);
        } else {
            law_the_first_waiting_job_is_next(jobs, i + 1);
            if let Some(job) = first_queued(jobs, i + 1) {
                let k = choose|k: int|
                    {
                        &&& i + 1 <= k < jobs.len()
                        &&& #[trigger] jobs[k] == job
                        &&& job.state == State::Queued
                        &&& forall|j: int|
                            i + 1 <= j < k ==> (#[trigger] jobs[j]).state != State::Queued
                    };
                assert(jobs[k] == job);
            }
        }
    }
}

/// Jobs that are listed are the jobs that there are: none is lost, and none is made up.
pub proof fn law_all_jobs_are_listed(jobs: Seq<JobView>, job: JobView)
    requires
        jobs.len() <= usize::MAX,
    ensures
        by_number(jobs).len() == jobs.len(),
        by_number(jobs).contains(job) <==> jobs.contains(job),
{
    broadcast use vstd::seq_lib::group_to_multiset_ensures;

    let pairs = numbered_jobs(jobs);
    let out = by_key(pairs);
    let listed = by_number(jobs);
    lemma_by_key(pairs);
    if jobs.contains(job) {
        let i = choose|i: int| 0 <= i < jobs.len() && jobs[i] == job;
        assert(pairs.contains(pairs[i]));
        assert(pairs.to_multiset().count(pairs[i]) > 0);
        assert(out.contains(pairs[i]));
        let k = choose|k: int| 0 <= k < out.len() && out[k] == pairs[i];
        assert(listed[k] == jobs[i]);
    }
    if listed.contains(job) {
        let k = choose|k: int| 0 <= k < listed.len() && listed[k] == job;
        assert(out.contains(out[k]));
        assert(out.to_multiset().count(out[k]) > 0);
        assert(pairs.contains(out[k]));
        let i = choose|i: int| 0 <= i < pairs.len() && pairs[i] == out[k];
        assert(jobs[i] == job);
    }
}

/// The stage of a log is what the last line that begins with an arrow names.
pub proof fn law_the_last_arrow_names_the_stage(
    before: Seq<Seq<char>>,
    line: Seq<char>,
    name: Seq<char>,
    behind: Seq<Seq<char>>,
)
    requires
        line == "==> "@ + name,
        name.len() > 0,
        !is_space(name[0]) && !is_space(name.last()),
        forall|i: int| 0 <= i < behind.len() ==> !("==> "@.is_prefix_of(#[trigger] behind[i])),
    ensures
        stage_in(before + seq![line] + behind) == Some(name),
    decreases behind.len(),
{
    let all = before + seq![line] + behind;
    if behind.len() == 0 {
        reveal_strlit("==> ");
        assert(all.last() == line);
        assert("==> "@.is_prefix_of(line));
        assert(line.skip(4) =~= name);
        lemma_trimmed_is_kept(name);
    } else {
        let less = behind.drop_last();
        assert forall|i: int| 0 <= i < less.len() implies !("==> "@.is_prefix_of(
            #[trigger] less[i],
        )) by {
            assert(less[i] == behind[i]);
        }
        law_the_last_arrow_names_the_stage(before, line, name, less);
        assert(all.drop_last() =~= before + seq![line] + less);
        assert(all.last() == behind[behind.len() - 1]);
    }
}

/// A new job is what was asked for, and waits.
pub proof fn law_new_jobs_wait(id: u32, spec: Spec, now: Moment)
    ensures
        submitted(id, spec, now).id == id,
        submitted(id, spec, now).state == State::Queued,
        submitted(id, spec, now).name == opt_view(spec.name),
        submitted(id, spec, now).workspace == spec.workspace@,
        submitted(id, spec, now).source == spec.source@,
        submitted(id, spec, now).max_iter == spec.max_iter,
        submitted(id, spec, now).inherit_env == spec.inherit_env,
        submitted(id, spec, now).submitted_at == now,
        submitted(id, spec, now).resume_count == 0,
        submitted(id, spec, now).pid is None,
{
}

} // verus!
