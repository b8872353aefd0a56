//! How jobs are shown.

use crate::clock::{seconds, seconds_between, write_time, written, Moment, TIME_OF_DAY};
use crate::copied::opt_view;
use crate::jobs::{effective, file_number, label_of, last_lines, Job, JobView, Queue, State};
use crate::numbers::{decimal, decimal_text, pad_end, pad_start, padded_end, padded_start};
use crate::paths::{base_name, file_name, path_join};
use crate::text::{chars_of, opt, same, string_of, trim_end, trimmed_end};
use vstd::prelude::*;
use vstd::string::StringExecFns;

verus! {

/// Two digits.
pub open spec fn two_digits(n: nat) -> Seq<char> {
    padded_start(decimal(n), 2, '0')
}

/// A number of seconds: in seconds, in minutes and seconds, or in hours and minutes.
pub open spec fn duration_text(secs: nat) -> Seq<char> {
    if secs < 60 {
        decimal(secs) + "s"@
    } else if secs < 3600 {
        decimal(secs / 60) + "m"@ + two_digits(secs % 60) + "s"@
    } else {
        decimal(secs / 3600) + "h"@ + two_digits((secs % 3600) / 60) + "m"@
    }
}

fn two(n: u64) -> (r: String)
    ensures
        r@ == two_digits(n as nat),
{
    pad_start(decimal_text(n).as_str(), 2, '0')
}

fn show_duration(s: u64) -> (r: String)
    ensures
        r@ == duration_text(s as nat),
{
    if s < 60 {
        decimal_text(s).concat("s")
    } else if s < 3600 {
        decimal_text(s / 60).concat("m").concat(two(s % 60).as_str()).concat("s")
    } else {
        decimal_text(s / 3600).concat("h").concat(two((s % 3600) / 60).as_str()).concat("m")
    }
}

/// A number of seconds, as it is shown. What lies in the past counts as no time.
pub fn duration(secs: i64) -> (r: String)
    ensures
        r@ == duration_text(if secs > 0 { secs as nat } else { 0 }),
{
    if secs > 0 {
        show_duration(secs as u64)
    } else {
        show_duration(0)
    }
}

/// How long a job has run or waited, `now` being the time.
pub open spec fn elapsed_text(job: JobView, state: State, now: Moment) -> Seq<char> {
    match job.started_at {
        Some(start) => match job.finished_at {
            Some(end) => duration_text(seconds_between(start, end)),
            None => if state == State::Running {
                duration_text(seconds_between(start, now))
            } else {
                "-"@
            },
        },
        None => if state == State::Queued {
            "waiting "@ + duration_text(seconds_between(job.submitted_at, now))
        } else {
            "-"@
        },
    }
}

/// How long a job has run or waited.
pub fn elapsed(job: &Job, state: State, now: Moment) -> (r: String)
    ensures
        r@ == elapsed_text(job@, state, now),
{
    match job.started_at {
        Some(start) => match job.finished_at {
            Some(end) => show_duration(seconds(start, end)),
            None => match state {
                State::Running => show_duration(seconds(start, now)),
                _ => "-".to_owned(),
            },
        },
        None => match state {
            State::Queued => "waiting ".to_owned().concat(
                show_duration(seconds(job.submitted_at, now)).as_str(),
            ),
            _ => "-".to_owned(),
        },
    }
}

/// What the source of a job is called: its name, the last part of its path, or the path.
pub open spec fn source_label(job: JobView) -> Seq<char> {
    match job.name {
        Some(name) => name,
        None => match last_part(job.source) {
            Some(name) => name,
            None => job.source,
        },
    }
}

/// The last part of a path: none where it ends in `..` or has only `.` to name.
pub open spec fn last_part(path: Seq<char>) -> Option<Seq<char>> {
    let name = file_name(plain_path(path));
    if name.len() == 0 || name == "."@ || name == ".."@ {
        None
    } else {
        Some(name)
    }
}

/// `path` without the slashes that it ends with, and without the parts `.` at its end that only
/// point back at it.
pub open spec fn plain_path(path: Seq<char>) -> Seq<char>
    decreases path.len(),
{
    if path.len() > 0 && path.last() == '/' {
        plain_path(path.drop_last())
    } else if path.len() > 1 && path.last() == '.' && path[path.len() - 2] == '/' {
        plain_path(path.drop_last())
    } else {
        path
    }
}

/// What is shown of a job beside the job itself.
#[derive(Debug)]
pub struct Shown {
    pub job: Job,
    pub cancel_requested: bool,
    /// The stage that its log has come to.
    pub stage: Option<String>,
}

/// The last part of a path, if it has one.
pub fn find_last_part(path: &str) -> (r: Option<String>)
    ensures
        opt(r) == last_part(path@),
{
    let v = chars_of(path);
    let mut m: usize = v.len();
    assert(v@.take(m as int) =~= v@);
    while m > 0 && (v[m - 1] == '/' || (m > 1 && v[m - 1] == '.' && v[m - 2] == '/'))
        invariant
            m <= v@.len(),
            v@ == path@,
            plain_path(v@.take(m as int)) == plain_path(path@),
        decreases m,
    {
        assert(v@.take(m as int).drop_last() =~= v@.take(m - 1));
        m -= 1;
    }
    assert(v@.subrange(0, m as int) =~= v@.take(m as int));
    let name = base_name(string_of(v.as_slice(), 0, m).as_str());
    if name.as_str().is_empty() || same(name.as_str(), ".") || same(name.as_str(), "..") {
        None
    } else {
        Some(name)
    }
}

/// What the source of a job is called.
pub fn source_name(job: &Job) -> (r: String)
    ensures
        r@ == source_label(job@),
{
    if let Some(name) = &job.name {
        return name.clone();
    }
    match find_last_part(job.source.as_str()) {
        Some(name) => name,
        None => job.source.clone(),
    }
}

/// A text in at most `max` characters: what is too long ends in a dot of dots.
pub open spec fn truncated(s: Seq<char>, max: nat) -> Seq<char> {
    if s.len() <= max {
        s
    } else {
        s.take(max - 1) + "…"@
    }
}

/// A text in at most `max` characters.
pub fn truncate(s: &str, max: usize) -> (r: String)
    requires
        max > 0,
    ensures
        r@ == truncated(s@, max as nat),
{
    let v = chars_of(s);
    if v.len() <= max {
        return s.to_owned();
    }
    assert(v@.subrange(0, max - 1) =~= v@.take(max - 1));
    string_of(v.as_slice(), 0, max - 1).concat("…")
}

/// The state of a job as it is shown.
pub open spec fn shown_state(s: Shown) -> State {
    effective(s.job.state, s.cancel_requested)
}

/// A stage as it is shown, or that there is none yet.
pub open spec fn stage_label(stage: Option<Seq<char>>) -> Seq<char> {
    match stage {
        Some(name) => name,
        None => "starting"@,
    }
}

fn stage_text(stage: &Option<String>) -> (r: String)
    ensures
        r@ == stage_label(opt_view(*stage)),
{
    match stage {
        Some(name) => name.clone(),
        None => "starting".to_owned(),
    }
}

/// A row of the table of jobs.
pub open spec fn row(
    id: Seq<char>,
    state: Seq<char>,
    stage: Seq<char>,
    time: Seq<char>,
    source: Seq<char>,
) -> Seq<char> {
    padded_end(id, 5, ' ') + " "@ + padded_end(state, 10, ' ') + " "@ + padded_end(stage, 24, ' ')
        + " "@ + padded_end(time, 14, ' ') + " "@ + source + "\n"@
}

fn make_row(id: &str, state: &str, stage: &str, time: &str, source: &str) -> (r: String)
    ensures
        r@ == row(id@, state@, stage@, time@, source@),
{
    pad_end(id, 5, ' ').concat(" ").concat(pad_end(state, 10, ' ').as_str()).concat(" ").concat(
        pad_end(stage, 24, ' ').as_str(),
    ).concat(" ").concat(pad_end(time, 14, ' ').as_str()).concat(" ").concat(source).concat("\n")
}

/// The row of a job.
pub open spec fn job_row(s: Shown, now: Moment) -> Seq<char> {
    let state = shown_state(s);
    row(
        "#"@ + decimal(s.job.id as nat),
        label_of(state),
        truncated(
            if state == State::Running {
                stage_label(opt_view(s.stage))
            } else {
                "-"@
            },
            24,
        ),
        elapsed_text(s.job@, state, now),
        source_label(s.job@),
    )
}

/// The rows of some jobs.
pub open spec fn job_rows(list: Seq<Shown>, now: Moment) -> Seq<char>
    decreases list.len(),
{
    if list.len() == 0 {
        Seq::empty()
    } else {
        job_rows(list.drop_last(), now) + job_row(list.last(), now)
    }
}

/// The table of jobs.
pub open spec fn table(list: Seq<Shown>, now: Moment) -> Seq<char> {
    if list.len() == 0 {
        "queue is empty"@
    } else {
        trimmed_end(row("ID"@, "STATE"@, "STAGE"@, "TIME"@, "SOURCE"@) + job_rows(list, now))
    }
}

fn make_job_row(s: &Shown, now: Moment) -> (r: String)
    ensures
        r@ == job_row(*s, now),
{
    let state = Queue::effective_state(&s.job, s.cancel_requested);
    let stage = match state {
        State::Running => stage_text(&s.stage),
        _ => "-".to_owned(),
    };
    make_row(
        "#".to_owned().concat(decimal_text(s.job.id as u64).as_str()).as_str(),
        state.label(),
        truncate(stage.as_str(), 24).as_str(),
        elapsed(&s.job, state, now).as_str(),
        source_name(&s.job).as_str(),
    )
}

/// The table of jobs.
pub fn list(jobs: &[Shown], now: Moment) -> (r: String)
    ensures
        r@ == table(jobs@, now),
{
    if jobs.len() == 0 {
        return "queue is empty".to_owned();
    }
    let mut out = make_row("ID", "STATE", "STAGE", "TIME", "SOURCE");
    let ghost head = out@;
    let mut i: usize = 0;
    assert(jobs@.take(0) =~= Seq::<Shown>::empty());
    assert(head + Seq::<char>::empty() =~= head);
    while i < jobs.len()
        invariant
            i <= jobs@.len(),
            out@ == head + job_rows(jobs@.take(i as int), now),
        decreases jobs@.len() - i,
    {
        let next = make_job_row(&jobs[i], now);
        let ghost had = out@;
        out.append(next.as_str());
        proof {
            let part = jobs@.take(i + 1);
            assert(part.drop_last() =~= jobs@.take(i as int));
            assert(part.last() == jobs@[i as int]);
            assert(out@ =~= head + (job_rows(jobs@.take(i as int), now) + next@));
        }
        i += 1;
    }
    assert(jobs@.take(i as int) =~= jobs@);
    trim_end(out.as_str())
}

/// All that is shown of one job, `log` being where its log stands.
pub open spec fn details(s: Shown, log: Seq<char>, now: Moment) -> Seq<char> {
    let state = shown_state(s);
    let head = "job #"@ + decimal(s.job.id as nat) + " — "@ + label_of(state) + "\n"@
        + "source:    "@ + s.job.source@ + "\n"@ + "workspace: "@ + s.job.workspace@ + "\n"@
        + "providers: "@ + (if s.job.inherit_env {
        "config + shell environment"@
    } else {
        "config file only"@
    }) + "\n"@;
    let limited = match s.job.max_iter {
        Some(n) => head + "max iter:  "@ + decimal(n as nat) + "\n"@,
        None => head,
    };
    let timed = limited + "time:      "@ + elapsed_text(s.job@, state, now) + "\n"@;
    let staged = if state == State::Running {
        timed + "stage:     "@ + stage_label(opt_view(s.stage)) + "\n"@
    } else {
        timed
    };
    let resumed = if s.job.resume_count > 0 {
        staged + "resumed:   "@ + decimal(s.job.resume_count as nat)
            + " time(s) after interruption"@ + "\n"@
    } else {
        staged
    };
    let failed = match opt_view(s.job.error) {
        Some(e) => resumed + "error:     "@ + e + "\n"@,
        None => resumed,
    };
    failed + "log:       "@ + log
}

/// Where the log of a job stands.
pub open spec fn log_file(root: Seq<char>, id: u32) -> Seq<char> {
    path_join(path_join(root, "logs"@), file_number(id) + ".log"@)
}

/// All that is shown of one job.
pub fn detail(queue: &Queue, s: &Shown, now: Moment) -> (r: String)
    ensures
        r@ == details(*s, log_file(queue.root@, s.job.id), now),
{
    let state = Queue::effective_state(&s.job, s.cancel_requested);
    let providers = if s.job.inherit_env {
        "config + shell environment"
    } else {
        "config file only"
    };
    let mut out = "job #".to_owned().concat(decimal_text(s.job.id as u64).as_str()).concat(
        " — ",
    ).concat(state.label()).concat("\n").concat("source:    ").concat(
        s.job.source.as_str(),
    ).concat("\n").concat("workspace: ").concat(s.job.workspace.as_str()).concat("\n").concat(
        "providers: ",
    ).concat(providers).concat("\n");
    if let Some(n) = s.job.max_iter {
        out = out.concat("max iter:  ").concat(decimal_text(n as u64).as_str()).concat("\n");
    }
    out = out.concat("time:      ").concat(elapsed(&s.job, state, now).as_str()).concat("\n");
    if let State::Running = state {
        out = out.concat("stage:     ").concat(stage_text(&s.stage).as_str()).concat("\n");
    }
    if s.job.resume_count > 0 {
        out = out.concat("resumed:   ").concat(
            decimal_text(s.job.resume_count as u64).as_str(),
        ).concat(" time(s) after interruption").concat("\n");
    }
    if let Some(e) = &s.job.error {
        out = out.concat("error:     ").concat(e.as_str()).concat("\n");
    }
    out.concat("log:       ").concat(queue.log_path(s.job.id).as_str())
}

/// The first job from `i` on that runs.
pub open spec fn first_running(list: Seq<Shown>, i: int) -> Option<u32>
    decreases list.len() - i,
{
    if i < 0 || i >= list.len() {
        None
    } else if list[i].job.state == State::Running {
        Some(list[i].job.id)
    } else {
        first_running(list, i + 1)
    }
}

/// The job whose log is shown: the first that runs.
pub fn running(list: &[Shown]) -> (r: Option<u32>)
    ensures
        r == first_running(list@, 0),
{
    let mut i: usize = 0;
    while i < list.len()
        invariant
            i <= list@.len(),
            first_running(list@, 0) == first_running(list@, i as int),
        decreases list@.len() - i,
    {
        if let State::Running = list[i].job.state {
            return Some(list[i].job.id);
        }
        i += 1;
    }
    None
}

/// The live view of a queue, `tail` being the end of the log of the job that runs.
pub open spec fn frame(list: Seq<Shown>, tail: Seq<char>, now: Moment) -> Seq<char> {
    let head = "rewriter queue — "@ + written(now.secs, TIME_OF_DAY@) + "\n\n"@ + table(list, now)
        + "\n"@;
    match first_running(list, 0) {
        Some(id) => head + "\n── #"@ + decimal(id as nat) + " log ──\n"@ + last_lines(tail, 12)
            + "\n"@,
        None => head,
    }
}

/// The live view of a queue.
pub fn watch_frame(jobs: &[Shown], tail: &str, now: Moment) -> (r: String)
    ensures
        r@ == frame(jobs@, tail@, now),
{
    let head = "rewriter queue — ".to_owned().concat(
        write_time(now.secs, TIME_OF_DAY).as_str(),
    ).concat("\n\n").concat(list(jobs, now).as_str()).concat("\n");
    match running(jobs) {
        Some(id) => head.concat("\n── #").concat(decimal_text(id as u64).as_str()).concat(
            " log ──\n",
        ).concat(Queue::log_tail(tail, 12).as_str()).concat("\n"),
        None => head,
    }
}

} // verus!
