use rewriter_queue::clock::Moment;
use rewriter_queue::jobs::{Claim, Job, Queue, Spec, State};
use rewriter_queue::steps::Pause;
use rewriter_queue::view::{
    detail, duration, list, running, source_name, truncate, watch_frame, Shown,
};
use rewriter_queue::worker::{
    arguments_for, describe_exit, find_orchestrator, hidden_variables, recover_orphan,
    recover_orphans, run_job, search_path, serve, terminate, Ending, Exit, Idle, WorkEffect, WorkReply, IDLE_EXIT_MS,
    KILL_GRACE_MS, MAX_RESUMES,
};
use std::collections::BTreeMap;

fn now(secs: i64) -> Moment {
    Moment { secs, nanos: 0 }
}

fn spec() -> Spec {
    Spec {
        name: None,
        workspace: "/w".into(),
        source: "/s".into(),
        max_iter: None,
        inherit_env: false,
    }
}

/// A queue whose jobs and marks are kept in memory.
#[derive(Default)]
struct Store {
    jobs: BTreeMap<u32, Job>,
    cancelled: Vec<u32>,
    taken: Vec<u32>,
}

fn same(job: &Job) -> Job {
    Job {
        id: job.id,
        name: job.name.clone(),
        workspace: job.workspace.clone(),
        source: job.source.clone(),
        max_iter: job.max_iter,
        inherit_env: job.inherit_env,
        state: job.state,
        submitted_at: job.submitted_at,
        started_at: job.started_at,
        finished_at: job.finished_at,
        pid: job.pid,
        exit_code: job.exit_code,
        error: job.error.clone(),
        resume_count: job.resume_count,
    }
}

impl Store {
    fn all(&self) -> Vec<Job> {
        let unsorted: Vec<Job> = self.jobs.values().rev().map(same).collect();
        Queue::list(&unsorted)
    }

    fn submit(&mut self, spec: Spec) -> u32 {
        let mut log: Vec<Claim> = Vec::new();
        loop {
            match Queue::submit(&self.all(), &log) {
                Ok((id, _)) => {
                    self.jobs.insert(id, Job::new(id, &spec, now(100)));
                    return id;
                }
                Err(Pause::Fail(e)) => panic!("{e}"),
                Err(Pause::Ask(claim)) => log.push(if self.taken.contains(&claim.id) {
                    Claim::Taken
                } else {
                    Claim::Claimed
                }),
            }
        }
    }

    fn request_cancel(&mut self, id: u32) -> Result<(), String> {
        Queue::request_cancel(&self.jobs[&id], self.cancelled.contains(&id))?;
        self.cancelled.push(id);
        Ok(())
    }

    fn effective_state(&self, id: u32) -> State {
        Queue::effective_state(&self.jobs[&id], self.cancelled.contains(&id))
    }
}

#[test]
fn ids_are_sequential_and_ordered() {
    let mut q = Store::default();
    let a = q.submit(spec());
    let b = q.submit(spec());
    assert_eq!((a, b), (1, 2));
    assert_eq!(Queue::next_queued(&q.all()).unwrap().id, 1);
}

#[test]
fn cancelling_a_queued_job_is_effective_immediately() {
    let mut q = Store::default();
    let id = q.submit(spec());
    q.request_cancel(id).unwrap();
    assert_eq!(q.effective_state(id), State::Cancelled);
}

#[test]
fn finished_jobs_cannot_be_cancelled() {
    let mut q = Store::default();
    let id = q.submit(spec());
    q.jobs.get_mut(&id).unwrap().state = State::Succeeded;
    assert!(q.request_cancel(id).is_err());
    assert_eq!(q.request_cancel(id), Err("job 1 is already succeeded".to_string()));
}

#[test]
fn stage_is_the_last_arrow_line() {
    let log = "==> Schema\nnoise\n==> V2 synthesis\nmore\n";
    assert_eq!(Queue::stage(log).as_deref(), Some("V2 synthesis"));
    assert_eq!(Queue::log_tail(log, 2), "==> V2 synthesis\nmore");
    assert_eq!(Queue::stage("nothing yet"), None);
}

#[test]
fn interrupted_job_is_requeued_up_to_the_cap() {
    let mut job = Job::new(1, &spec(), now(0));
    job.state = State::Running;
    job.pid = Some(999_999);
    let r = recover_orphan(job, now(5));

    assert_eq!(r.kill, Some(999_999));
    assert_eq!(r.job.state, State::Queued);
    assert_eq!(r.job.resume_count, 1);
    assert!(r.job.pid.is_none());
    assert!(r.note.unwrap().contains("resume 1/5"));
}

#[test]
fn job_fails_after_exceeding_max_resumes() {
    let mut job = Job::new(1, &spec(), now(0));
    job.state = State::Running;
    job.pid = Some(999_999);
    job.resume_count = MAX_RESUMES;
    let after = recover_orphan(job, now(5)).job;

    assert_eq!(after.state, State::Failed);
    assert!(after.error.unwrap().contains("giving up"));
    assert_eq!(after.finished_at, Some(now(5)));
}

#[test]
fn a_number_that_someone_else_took_is_passed_over() {
    let mut q = Store::default();
    q.submit(spec());
    q.taken = vec![2, 3];
    assert_eq!(q.submit(spec()), 4);
    let mut last = Job::new(u32::MAX, &spec(), now(0));
    last.state = State::Queued;
    assert!(matches!(Queue::submit(&[last], &[]), Err(Pause::Fail(_))));
}

#[test]
fn files_of_a_queue_stand_under_its_root() {
    let q = Queue::open(Some("/q".into()), None).unwrap();
    assert_eq!(q.job_path(7), "/q/jobs/0007.json");
    assert_eq!(q.log_path(7), "/q/logs/0007.log");
    assert!(q.cancel_path(7).starts_with("/q/jobs/"));
    assert!(Queue::open(None, Some("/home/u".into())).unwrap().root.starts_with("/home/u/"));
    assert!(Queue::open(None, None).is_err());
    assert_eq!(Queue::tail_start(10), 0);
    assert_eq!(Queue::tail_start(262_145), 1);
}

/// Runs a job on scripted answers, and tells what was saved on the way.
fn run(
    cancel_after: usize,
    program: Option<&str>,
    started: Result<u32, String>,
    exit: Exit,
) -> (Job, Vec<State>, usize) {
    let mut job = Job::new(1, &spec(), now(0));
    job.state = State::Queued;
    let mut log: Vec<WorkReply> = Vec::new();
    let mut saved = Vec::new();
    let mut asked = 0;
    let mut looks = 0;
    let mut sleeps = 0;
    loop {
        match run_job(same(&job), &log, 0) {
            Ok((done, _)) => return (done, saved, sleeps),
            Err(Pause::Fail(e)) => panic!("{e}"),
            Err(Pause::Ask(effect)) => log.push(match effect {
                WorkEffect::Cancelled => {
                    asked += 1;
                    WorkReply::Flag(asked > cancel_after)
                }
                WorkEffect::Find => WorkReply::Program(program.map(str::to_string)),
                WorkEffect::Now => WorkReply::Time(now(50)),
                WorkEffect::Save { job } => {
                    saved.push(job.state);
                    WorkReply::Done
                }
                WorkEffect::Start { .. } => WorkReply::Started(started.clone()),
                WorkEffect::Look => {
                    looks += 1;
                    WorkReply::Ended(if looks > 2 { Some(exit) } else { None })
                }
                WorkEffect::Terminate => WorkReply::Done,
                WorkEffect::Sleep => {
                    sleeps += 1;
                    WorkReply::Done
                }
            }),
        }
    }
}

const FINE: Exit = Exit { code: Some(0), signal: None };

#[test]
fn a_job_that_runs_is_saved_as_it_goes() {
    let (job, saved, sleeps) = run(100, Some("/bin/o"), Ok(42), FINE);
    assert_eq!(job.state, State::Succeeded);
    assert_eq!(job.exit_code, Some(0));
    assert_eq!(job.finished_at, Some(now(50)));
    assert_eq!(saved.first(), Some(&State::Running));
    assert_eq!(saved.last(), Some(&State::Succeeded));
    assert_eq!(sleeps, 2);
}

#[test]
fn a_job_that_fails_says_why() {
    let (job, _, _) = run(100, Some("/bin/o"), Ok(42), Exit { code: Some(3), signal: None });
    assert_eq!(job.state, State::Failed);
    assert_eq!(job.error.as_deref(), Some("exited with code 3"));
    let (job, _, _) = run(100, None, Ok(42), FINE);
    assert_eq!(job.state, State::Failed);
    let (job, _, _) = run(100, Some("/bin/o"), Err("denied".into()), FINE);
    assert_eq!(job.state, State::Failed);
    assert!(job.error.unwrap().contains("denied"));
}

#[test]
fn a_job_that_is_cancelled_is_not_run() {
    let (job, _, _) = run(0, Some("/bin/o"), Ok(42), FINE);
    assert_eq!(job.state, State::Cancelled);
    let (job, _, _) = run(1, Some("/bin/o"), Ok(42), FINE);
    assert_eq!(job.state, State::Cancelled);
}

#[test]
fn an_exit_is_described() {
    assert_eq!(describe_exit(Exit { code: Some(-1), signal: None }), "exited with code -1");
    assert_eq!(describe_exit(Exit { code: None, signal: Some(9) }), "killed by signal 9");
    assert_eq!(describe_exit(Exit { code: None, signal: None }), "exited abnormally");
}

#[test]
fn a_worker_leaves_once_it_has_been_idle_for_long() {
    assert_eq!(serve(true, u64::MAX, Some(IDLE_EXIT_MS)), Idle::Run);
    assert_eq!(serve(false, IDLE_EXIT_MS, Some(IDLE_EXIT_MS)), Idle::Sleep);
    assert_eq!(serve(false, IDLE_EXIT_MS + 1, Some(IDLE_EXIT_MS)), Idle::Leave);
    assert_eq!(serve(false, u64::MAX, None), Idle::Sleep);
    assert_eq!(terminate(0, true), Ending::Over);
    assert_eq!(terminate(KILL_GRACE_MS - 1, false), Ending::Wait);
    assert_eq!(terminate(KILL_GRACE_MS, false), Ending::Kill);
}

#[test]
fn the_orchestrator_gets_its_arguments_and_its_path() {
    let mut job = Job::new(1, &spec(), now(0));
    job.max_iter = Some(4);
    assert_eq!(
        arguments_for(&job),
        vec!["--workspace", "/w", "--source", "/s", "--max-iter", "4"]
    );
    assert_eq!(
        find_orchestrator(Some("/opt/bin/queue".into()), "/usr/bin"),
        vec!["/opt/bin/ai-org-orchestrator", "/usr/bin/ai-org-orchestrator"]
    );
    assert!(search_path("/home/u", "/usr/bin").contains("/home/u/.cargo/bin"));
    assert!(search_path("/home/u", "/usr/bin").contains("/usr/bin"));
    assert!(hidden_variables(true).is_empty());
    assert!(hidden_variables(false).contains(&"ANTHROPIC_API_KEY".to_string()));
}

fn shown(job: Job, stage: Option<&str>) -> Shown {
    Shown { job, cancel_requested: false, stage: stage.map(str::to_string) }
}

#[test]
fn times_are_shown_in_the_units_that_fit() {
    assert_eq!(duration(-5), "0s");
    assert_eq!(duration(59), "59s");
    assert_eq!(duration(61), "1m01s");
    assert_eq!(duration(3_660), "1h01m");
}

#[test]
fn the_table_shows_every_job() {
    assert_eq!(list(&[], now(0)), "queue is empty");
    let mut first = Job::new(1, &spec(), now(0));
    first.state = State::Running;
    first.started_at = Some(now(10));
    let second = Job::new(2, &spec(), now(20));
    let jobs = vec![shown(first, Some("V2 synthesis")), shown(second, None)];
    let table = list(&jobs, now(75));
    let lines: Vec<&str> = table.lines().collect();
    assert_eq!(lines.len(), 3);
    assert_eq!(lines[1], "#1    running    V2 synthesis             1m05s          s");
    assert_eq!(lines[2], "#2    queued     -                        waiting 55s    s");
    assert_eq!(running(&jobs), Some(1));
    assert!(watch_frame(&jobs, "last words", now(75)).contains("last words"));
}

#[test]
fn one_job_is_shown_in_full() {
    let q = Queue::open(Some("/q".into()), None).unwrap();
    let mut job = Job::new(3, &spec(), now(0));
    job.max_iter = Some(2);
    job.resume_count = 1;
    assert_eq!(
        detail(&q, &shown(job, None), now(4)),
        "job #3 — queued\nsource:    /s\nworkspace: /w\nproviders: config file only\nmax iter:  2\ntime:      waiting 4s\nresumed:   1 time(s) after interruption\nlog:       /q/logs/0003.log"
    );
}

#[test]
fn a_source_is_called_by_the_last_part_of_its_path() {
    let mut job = Job::new(1, &spec(), now(0));
    job.source = "/a/b/./".into();
    assert_eq!(source_name(&job), "b");
    job.source = "/".into();
    assert_eq!(source_name(&job), "/");
    job.name = Some("mine".into());
    assert_eq!(source_name(&job), "mine");
    assert_eq!(truncate("abcdef", 4), "abc…");
    assert_eq!(truncate("abcd", 4), "abcd");
}

#[test]
fn only_running_jobs_are_recovered() {
    let mut running = Job::new(1, &spec(), now(0));
    running.state = State::Running;
    running.pid = Some(7);
    running.started_at = Some(now(1));
    let mut over = Job::new(2, &spec(), now(0));
    over.state = State::Succeeded;
    over.pid = Some(8);
    let waiting = Job::new(3, &spec(), now(0));
    let r = recover_orphans(vec![running, over, waiting], now(5));
    assert_eq!(r.len(), 3);
    assert_eq!((r[0].kill, r[0].save), (Some(7), true));
    assert_eq!((r[0].job.state, r[0].job.started_at), (State::Queued, None));
    assert_eq!((r[1].kill, r[1].save, &r[1].note), (None, false, &None));
    assert_eq!((r[1].job.state, r[1].job.pid), (State::Succeeded, Some(8)));
    assert_eq!((r[2].job.state, r[2].job.resume_count, r[2].save), (State::Queued, 0, false));
}

#[test]
fn a_wait_leaves_no_trace_in_the_work_on_a_job() {
    let begun = || {
        vec![
            WorkReply::Flag(false),
            WorkReply::Program(Some("/bin/o".into())),
            WorkReply::Time(now(1)),
            WorkReply::Done,
            WorkReply::Started(Ok(9)),
            WorkReply::Done,
        ]
    };
    let waited = || {
        let mut log = begun();
        log.extend([WorkReply::Ended(None), WorkReply::Flag(false)]);
        log
    };
    let job = || Job::new(1, &spec(), now(0));
    assert!(matches!(run_job(job(), &waited(), 0), Err(Pause::Ask(WorkEffect::Sleep))));
    let rest = || {
        vec![
            WorkReply::Ended(Some(Exit { code: Some(3), signal: None })),
            WorkReply::Time(now(2)),
            WorkReply::Done,
        ]
    };
    let mut long = waited();
    long.push(WorkReply::Done);
    long.extend(rest());
    let mut short = begun();
    short.extend(rest());
    let a = run_job(job(), &long, 0);
    let b = run_job(job(), &short, 0);
    match (a, b) {
        (Ok((x, i)), Ok((y, j))) => {
            assert_eq!((x.state, x.exit_code), (State::Failed, Some(3)));
            assert_eq!((x.state, x.exit_code, x.error), (y.state, y.exit_code, y.error));
            assert_eq!(i, j + 3);
        }
        _ => panic!("both runs are over"),
    }
}
