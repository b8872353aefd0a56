//! How a plan is carried out: milestone by milestone, wave by wave, splitting what is too
//! large.

use crate::agents::{
    chosen, implementer_pattern_catalog, pattern_catalog, resolve_implementer_patterns,
    unknown_names, unknown_patterns, ImplementerPattern, Skills,
};
use crate::copied::{views, Copied};
use crate::effects::{
    ask_done, checkpoint_name, checkpointed, done_for, kept_under, lemma_kept_under_part, recalls,
    Branch, BranchView, Effect, EffectView, Reply, Work, WorkView,
};
use crate::glyphs::{quote, quoted};
use crate::manager::Manager;
use crate::milestones::{parse_milestone_plan, plan_of, Milestone, MilestoneView, Risk};
use crate::numbers::{decimal, decimal_text};
use crate::quality::sections_of;
use crate::repair::{agreed, lemma_agreed_recalls, opt_str, owned, DualReview, NextCallView};
use crate::sections::Sections;
use crate::steps::{seen, Pause, PauseView};
use crate::text::{join, joined, texts};
use crate::waves::{
    law_every_milestone_is_built_once, schedule_waves, wave_view, waves_of, waves_view,
};
use crate::workspace::Workspace;
use vstd::prelude::*;
use vstd::string::StringExecFns;

verus! {

/// How many times a piece of work can be split further before it is taken as it is.
pub const MAX_SPLIT_DEPTH: usize = 3;

/// How many turns an agent with tools has before it must answer. This has nothing to do with
/// how often a worker may revise: looking around a source tree takes turns, too.
pub const AGENTIC_MAX_TURNS: usize = 20;

/// What all agents of a synthesis are given.
pub struct Brief<'a> {
    pub skills: &'a Skills,
    pub worker_system: &'a str,
    pub contract: &'a str,
    pub schema: &'a str,
    pub max_iter: usize,
}

/// What all agents of a synthesis are given, by its contents.
pub struct BriefView {
    pub skills: Skills,
    pub worker_system: Seq<char>,
    pub contract: Seq<char>,
    pub schema: Seq<char>,
    pub max_iter: nat,
}

impl View for Brief<'_> {
    type V = BriefView;

    open spec fn view(&self) -> BriefView {
        BriefView {
            skills: *self.skills,
            worker_system: self.worker_system@,
            contract: self.contract@,
            schema: self.schema@,
            max_iter: self.max_iter as nat,
        }
    }
}

pub const PATTERN_GUIDE: &'static str =
    "\n\n# Available Implementer Patterns\nFor each milestone, if its work genuinely touches one of these domains, prescribe it with a `PATTERNS:` line (comma-separated names, or omit the line entirely — most milestones need none of these beyond the implementer's core rules):\n";

pub const SOURCE_GUIDE: &'static str =
    "\n\n# Source Access\nV1 source has not been pasted in — read whatever files you need with list_files/read_file, and read prior artifacts (objective_contract.md, schema.rs, inductive_analysis.md) with read_artifact rather than assuming their content. For a large source tree, use fan_out to analyze independent subsystems concurrently before planning.";

pub const SCOPE_GUIDE: &'static str =
    "\n\n# Scope\nImplement only the file(s) this milestone owns. Do not add or edit a `mod` declaration for this milestone's own module in `main.rs`/`lib.rs` — that wiring is added automatically after every milestone is done, specifically so that milestones implemented independently never collide by both editing the same shared entry file.";

/// The task of planning milestones for `task`.
pub open spec fn plan_task(task: Seq<char>, max_iter: nat) -> Seq<char> {
    task + "\n\n# Iteration Budget\nN = "@ + decimal(max_iter) + PATTERN_GUIDE@ + pattern_catalog()
        + SOURCE_GUIDE@
}

/// What every task on the crate begins with.
pub open spec fn contract_and_schema(b: BriefView) -> Seq<char> {
    "# ObjectiveContract\n"@ + b.contract + "\n\n# Schema\n```rust\n"@ + b.schema + "\n```\n\n"@
}

/// What every task on the crate begins with.
pub fn contract_and_schema_text(b: &Brief) -> (r: String)
    ensures
        r@ == contract_and_schema(b@),
{
    "# ObjectiveContract\n".to_owned().concat(b.contract).concat(
        "\n\n# Schema\n```rust\n",
    ).concat(b.schema).concat("\n```\n\n")
}

/// The task of building one milestone.
pub open spec fn milestone_task(b: BriefView, m: MilestoneView) -> Seq<char> {
    contract_and_schema(b) + "# Milestone: "@ + m.name + "\n"@ + m.task + SCOPE_GUIDE@
}

/// Names as they are listed in a record: quoted, in brackets.
pub open spec fn quoted_list(names: Seq<Seq<char>>) -> Seq<char> {
    "["@ + joined(names.map_values(|n: Seq<char>| quoted(n)), ", "@) + "]"@
}

/// The names of patterns, in the order of the catalog.
pub open spec fn names_of(patterns: Seq<ImplementerPattern>) -> Seq<Seq<char>> {
    patterns.map_values(|p: ImplementerPattern| p.name@)
}

/// What is recorded of pattern names that mean nothing.
pub open spec fn unknown_patterns_note(
    name: Seq<char>,
    unknown: Seq<Seq<char>>,
    patterns: Seq<ImplementerPattern>,
) -> Seq<char> {
    "Milestone '"@ + name + "' prescribed unknown pattern name(s) "@ + quoted_list(unknown)
        + " — ignored (known patterns: "@ + quoted_list(names_of(patterns)) + ")"@
}

/// What an implementer is told for a milestone: the core rules, and the guidance of the
/// patterns that are prescribed. Names that mean nothing are recorded and passed over.
pub open spec fn instructed(b: BriefView, m: MilestoneView, log: Seq<Reply>, at: int) -> WorkView<
    Seq<char>,
> {
    let unknown = unknown_names(m.patterns, b.skills.patterns@);
    let guidance = b.worker_system + "\n\n# Additional Guidance for This Milestone\n"@ + joined(
        chosen(m.patterns, b.skills.patterns@),
        "\n\n"@,
    );
    if m.patterns.len() == 0 {
        Ok((b.worker_system, at))
    } else if unknown.len() == 0 {
        Ok((guidance, at))
    } else {
        match done_for(
            EffectView::Deviation {
                agent: "MilestonePlanner"@,
                text: unknown_patterns_note(m.name, unknown, b.skills.patterns@),
            },
            log,
            at,
        ) {
            Err(p) => Err(p),
            Ok((_, at)) => Ok((guidance, at)),
        }
    }
}

/// What is recorded of a milestone that is split because it was planned as hard.
pub open spec fn hard_note(name: Seq<char>, max_iter: nat, depth: nat) -> Seq<char> {
    "Milestone '"@ + name + "' estimated HARD for a "@ + decimal(max_iter)
        + "-iteration budget — splitting into sub-milestones (depth "@ + decimal(depth) + ")"@
}

/// What is recorded of a milestone that is split because it did not pass.
pub open spec fn split_note(name: Seq<char>, max_iter: nat, depth: nat) -> Seq<char> {
    "Milestone '"@ + name + "' did not pass its quality gate within "@ + decimal(max_iter)
        + " iterations as a single unit — splitting further (depth "@ + decimal(depth) + ")"@
}

/// What is recorded of a milestone that did not pass and cannot be split further.
pub open spec fn best_effort_note(name: Seq<char>, depth: nat) -> Seq<char> {
    "Milestone '"@ + name + "' still failing its quality gate at max split depth "@ + decimal(depth)
        + " — accepting best effort"@
}

/// The task of planning a milestone that did not pass as one unit.
pub open spec fn split_task(task: Seq<char>, max_iter: nat) -> Seq<char> {
    task
        + "\n\n# Why This Needs Splitting\nA previous attempt implemented this as one unit and did not pass its quality gate within "@
        + decimal(max_iter)
        + " iterations. Split it into two or more smaller, independently-implementable pieces."@
}

/// What a milestone is known by: as a checkpoint and as a workspace.
pub open spec fn milestone_id(id_prefix: Seq<char>, name: Seq<char>) -> Seq<char> {
    id_prefix + "/"@ + name
}

/// The files of one milestone: built, or split and its parts built.
pub open spec fn built_one(
    b: BriefView,
    id_prefix: Seq<char>,
    m: MilestoneView,
    depth: nat,
    variant: Option<Seq<char>>,
    log: Seq<Reply>,
    at: int,
) -> WorkView<Map<Seq<char>, Seq<char>>>
    decreases 4 - depth, 0nat, 0int,
{
    let id = milestone_id(id_prefix, m.name);
    if m.risk == Risk::Hard && depth < MAX_SPLIT_DEPTH {
        match done_for(
            EffectView::Deviation {
                agent: "MilestonePlanner"@,
                text: hard_note(m.name, b.max_iter, depth),
            },
            log,
            at,
        ) {
            Err(p) => Err(p),
            Ok((_, at)) => built(b, id, m.task, depth + 1, variant, log, at),
        }
    } else {
        match instructed(b, m, log, at) {
            Err(p) => Err(p),
            Ok((system, at)) => match agreed(
                DualReview {
                    skills: b.skills,
                    id_prefix: id,
                    worker_name: "TargetImplementer"@,
                    worker_system: system,
                    base_task: milestone_task(b, m),
                    max_iter: b.max_iter,
                    variant,
                },
                log,
                at,
            ) {
                Err(p) => Err(p),
                Ok(((code, passed), at)) => if passed {
                    Ok((sections_of(code), at))
                } else if depth < MAX_SPLIT_DEPTH {
                    match done_for(
                        EffectView::Deviation {
                            agent: "MilestonePlanner"@,
                            text: split_note(m.name, b.max_iter, depth),
                        },
                        log,
                        at,
                    ) {
                        Err(p) => Err(p),
                        Ok((_, at)) => built(
                            b,
                            id,
                            split_task(m.task, b.max_iter),
                            depth + 1,
                            variant,
                            log,
                            at,
                        ),
                    }
                } else {
                    match done_for(
                        EffectView::Decision {
                            agent: "MilestonePlanner"@,
                            text: best_effort_note(m.name, depth),
                        },
                        log,
                        at,
                    ) {
                        Err(p) => Err(p),
                        Ok((_, at)) => Ok((sections_of(code), at)),
                    }
                },
            },
        }
    }
}

/// The assurance that each milestone of a wave from `k` on has a workspace of its own.
pub open spec fn seeded(
    id_prefix: Seq<char>,
    plan: Seq<MilestoneView>,
    wave: Seq<int>,
    k: int,
    variant: Option<Seq<char>>,
    log: Seq<Reply>,
    at: int,
) -> WorkView<()>
    decreases wave.len() - k,
{
    if k < 0 || k >= wave.len() {
        Ok(((), at))
    } else {
        match done_for(
            EffectView::Seed { from: variant, to: milestone_id(id_prefix, plan[wave[k]].name) },
            log,
            at,
        ) {
            Err(p) => Err(p),
            Ok((_, at)) => seeded(id_prefix, plan, wave, k + 1, variant, log, at),
        }
    }
}

/// The milestones of a wave, each for a workspace of its own.
pub open spec fn branches_of(
    b: BriefView,
    id_prefix: Seq<char>,
    plan: Seq<MilestoneView>,
    wave: Seq<int>,
    depth: nat,
) -> Seq<BranchView> {
    wave.map_values(
        |i: int|
            BranchView {
                id_prefix,
                milestone: plan[i],
                depth: depth as int,
                variant: milestone_id(id_prefix, plan[i].name),
                worker_system: b.worker_system,
                contract: b.contract,
                schema: b.schema,
                max_iter: b.max_iter,
            },
    )
}

/// `files` with what the branches came to, later ones over earlier ones; the first failure
/// among them is a failure of the whole.
pub open spec fn merged(
    files: Map<Seq<char>, Seq<char>>,
    results: Seq<Result<Sections, String>>,
) -> Result<Map<Seq<char>, Seq<char>>, Seq<char>>
    decreases results.len(),
{
    if results.len() == 0 {
        Ok(files)
    } else {
        match merged(files, results.drop_last()) {
            Err(e) => Err(e),
            Ok(less) => match results.last() {
                Ok(more) => Ok(less.union_prefer_right(more@)),
                Err(e) => Err(e@),
            },
        }
    }
}

/// `files` with what the branches that `e` asks for came to.
pub open spec fn merged_for(
    e: EffectView,
    files: Map<Seq<char>, Seq<char>>,
    log: Seq<Reply>,
    at: int,
) -> WorkView<Map<Seq<char>, Seq<char>>> {
    if 0 <= at < log.len() && log[at] is Files {
        match merged(files, log[at]->Files_0@) {
            Ok(all) => Ok((all, at + 1)),
            Err(e) => Err(PauseView::Fail(e)),
        }
    } else {
        Err(PauseView::Ask(e))
    }
}

/// `files` with those of the waves from `k` on. A wave of one milestone is built in place; the
/// milestones of a larger one side by side, each in a workspace of its own.
pub open spec fn waves_built(
    b: BriefView,
    id_prefix: Seq<char>,
    plan: Seq<MilestoneView>,
    waves: Seq<Seq<int>>,
    k: int,
    depth: nat,
    variant: Option<Seq<char>>,
    files: Map<Seq<char>, Seq<char>>,
    log: Seq<Reply>,
    at: int,
) -> WorkView<Map<Seq<char>, Seq<char>>>
    decreases 4 - depth, 1nat, waves.len() - k,
{
    if k < 0 || k >= waves.len() {
        Ok((files, at))
    } else if waves[k].len() == 1 {
        match built_one(b, id_prefix, plan[waves[k][0]], depth, variant, log, at) {
            Err(p) => Err(p),
            Ok((more, at)) => waves_built(
                b,
                id_prefix,
                plan,
                waves,
                k + 1,
                depth,
                variant,
                files.union_prefer_right(more),
                log,
                at,
            ),
        }
    } else {
        match seeded(id_prefix, plan, waves[k], 0, variant, log, at) {
            Err(p) => Err(p),
            Ok((_, at)) => match merged_for(
                EffectView::Branches { branches: branches_of(b, id_prefix, plan, waves[k], depth) },
                files,
                log,
                at,
            ) {
                Err(p) => Err(p),
                Ok((all, at)) => waves_built(
                    b,
                    id_prefix,
                    plan,
                    waves,
                    k + 1,
                    depth,
                    variant,
                    all,
                    log,
                    at,
                ),
            },
        }
    }
}

/// The question for a plan.
pub open spec fn plan_question(b: BriefView, task: Seq<char>) -> EffectView {
    EffectView::Agentic {
        agent: "MilestonePlanner"@,
        system: b.skills.milestone_planner@,
        task: plan_task(task, b.max_iter),
        max_turns: AGENTIC_MAX_TURNS as int,
    }
}

/// The files of all milestones that are planned for `task`.
pub open spec fn built(
    b: BriefView,
    id_prefix: Seq<char>,
    task: Seq<char>,
    depth: nat,
    variant: Option<Seq<char>>,
    log: Seq<Reply>,
    at: int,
) -> WorkView<Map<Seq<char>, Seq<char>>>
    decreases 4 - depth, 2nat, 0int,
{
    match checkpointed(id_prefix + "/plan"@, plan_question(b, task), log, at) {
        Err(p) => Err(p),
        Ok((text, at)) => {
            let plan = plan_of(text);
            waves_built(
                b,
                id_prefix,
                plan,
                waves_of(plan),
                0,
                depth,
                variant,
                Map::empty(),
                log,
                at,
            )
        },
    }
}

fn list_quoted(names: &[String]) -> (r: String)
    ensures
        r@ == quoted_list(texts(names@)),
{
    let ghost all = texts(names@).map_values(|n: Seq<char>| quoted(n));
    let mut out: Vec<String> = Vec::new();
    let mut i: usize = 0;
    while i < names.len()
        invariant
            i <= names@.len(),
            all == texts(names@).map_values(|n: Seq<char>| quoted(n)),
            texts(out@) =~= all.take(i as int),
        decreases names@.len() - i,
    {
        let ghost had = out@;
        out.push(quote(names[i].as_str()));
        assert(texts(out@) =~= texts(had).push(all[i as int]));
        i += 1;
    }
    assert(all.take(i as int) =~= all);
    "[".to_owned().concat(join(out.as_slice(), ", ").as_str()).concat("]")
}

fn list_names(patterns: &[ImplementerPattern]) -> (r: Vec<String>)
    ensures
        texts(r@) == names_of(patterns@),
{
    let mut out: Vec<String> = Vec::new();
    let mut i: usize = 0;
    while i < patterns.len()
        invariant
            i <= patterns@.len(),
            texts(out@) =~= names_of(patterns@).take(i as int),
        decreases patterns@.len() - i,
    {
        let ghost had = out@;
        out.push(patterns[i].name.to_owned());
        assert(texts(out@) =~= texts(had).push(patterns@[i as int].name@));
        i += 1;
    }
    assert(names_of(patterns@).take(i as int) =~= names_of(patterns@));
    out
}

fn instruct(b: &Brief, m: &Milestone, log: &[Reply], at: usize) -> (r: Work<String>)
    ensures
        seen(r) == instructed(b@, m@, log@, at as int),
{
    assert(texts(m.patterns@).len() == m.patterns@.len());
    if m.patterns.len() == 0 {
        return Ok((b.worker_system.to_owned(), at));
    }
    let unknown = unknown_patterns(m.patterns.as_slice(), b.skills.patterns.as_slice());
    assert(texts(unknown@).len() == unknown@.len());
    let guidance = b.worker_system.to_owned().concat(
        "\n\n# Additional Guidance for This Milestone\n",
    ).concat(
        resolve_implementer_patterns(
            m.patterns.as_slice(),
            b.skills.patterns.as_slice(),
        ).as_str(),
    );
    if unknown.len() == 0 {
        return Ok((guidance, at));
    }
    let note = "Milestone '".to_owned().concat(m.name.as_str()).concat(
        "' prescribed unknown pattern name(s) ",
    ).concat(list_quoted(unknown.as_slice()).as_str()).concat(
        " — ignored (known patterns: ",
    ).concat(
        list_quoted(list_names(b.skills.patterns.as_slice()).as_slice()).as_str(),
    ).concat(")");
    let (_, at) = ask_done(
        Effect::Deviation { agent: "MilestonePlanner".to_owned(), text: note },
        log,
        at,
    )?;
    Ok((guidance, at))
}

fn seed(
    id_prefix: &str,
    milestones: &[Milestone],
    wave: &[usize],
    variant: Option<&str>,
    log: &[Reply],
    at: usize,
) -> (r: Work<()>)
    requires
        forall|k: int| 0 <= k < wave@.len() ==> (#[trigger] wave@[k]) < milestones@.len(),
    ensures
        seen(r) == seeded(
            id_prefix@,
            views(milestones@),
            wave_view(wave@),
            0,
            opt_str(variant),
            log@,
            at as int,
        ),
{
    let ghost plan = views(milestones@);
    let ghost view = wave_view(wave@);
    let mut now: usize = at;
    let mut k: usize = 0;
    while k < wave.len()
        invariant
            k <= wave@.len(),
            plan == views(milestones@),
            view == wave_view(wave@),
            forall|j: int| 0 <= j < wave@.len() ==> (#[trigger] wave@[j]) < milestones@.len(),
            seeded(id_prefix@, plan, view, k as int, opt_str(variant), log@, now as int) == seeded(
                id_prefix@,
                plan,
                view,
                0,
                opt_str(variant),
                log@,
                at as int,
            ),
        decreases wave@.len() - k,
    {
        assert(view[k as int] == wave@[k as int]);
        let m = &milestones[wave[k]];
        assert(plan[wave@[k as int] as int] == m@);
        let (_, next) = ask_done(
            Effect::Seed {
                from: owned(variant),
                to: id_prefix.to_owned().concat("/").concat(m.name.as_str()),
            },
            log,
            now,
        )?;
        now = next;
        k += 1;
    }
    Ok(((), now))
}

fn branch_out(
    b: &Brief,
    id_prefix: &str,
    milestones: &[Milestone],
    wave: &[usize],
    depth: usize,
) -> (r: Vec<Branch>)
    requires
        forall|k: int| 0 <= k < wave@.len() ==> (#[trigger] wave@[k]) < milestones@.len(),
    ensures
        views(r@) == branches_of(
            b@,
            id_prefix@,
            views(milestones@),
            wave_view(wave@),
            depth as nat,
        ),
{
    let ghost plan = views(milestones@);
    let ghost all = branches_of(b@, id_prefix@, plan, wave_view(wave@), depth as nat);
    let mut out: Vec<Branch> = Vec::new();
    let mut k: usize = 0;
    while k < wave.len()
        invariant
            k <= wave@.len(),
            plan == views(milestones@),
            all == branches_of(b@, id_prefix@, plan, wave_view(wave@), depth as nat),
            forall|j: int| 0 <= j < wave@.len() ==> (#[trigger] wave@[j]) < milestones@.len(),
            views(out@) =~= all.take(k as int),
        decreases wave@.len() - k,
    {
        let ghost had = out@;
        let m = &milestones[wave[k]];
        assert(plan[wave@[k as int] as int] == m@);
        let branch = Branch {
            id_prefix: id_prefix.to_owned(),
            milestone: m.copied(),
            depth,
            variant: id_prefix.to_owned().concat("/").concat(m.name.as_str()),
            worker_system: b.worker_system.to_owned(),
            contract: b.contract.to_owned(),
            schema: b.schema.to_owned(),
            max_iter: b.max_iter,
        };
        let ghost view = branch@;
        out.push(branch);
        assert(views(out@) =~= views(had).push(view));
        assert(all[k as int] == view);
        k += 1;
    }
    assert(all.take(k as int) =~= all);
    out
}

fn merge(files: Sections, results: &[Result<Sections, String>]) -> (r: Result<Sections, String>)
    ensures
        match r {
            Ok(all) => merged(files@, results@) == Ok::<Map<Seq<char>, Seq<char>>, Seq<char>>(
                all@,
            ),
            Err(e) => merged(files@, results@) == Err::<Map<Seq<char>, Seq<char>>, Seq<char>>(e@),
        },
{
    let mut all = files;
    let mut k: usize = 0;
    assert(results@.take(0) =~= Seq::<Result<Sections, String>>::empty());
    while k < results.len()
        invariant
            k <= results@.len(),
            merged(files@, results@.take(k as int)) == Ok::<Map<Seq<char>, Seq<char>>, Seq<char>>(
                all@,
            ),
        decreases results@.len() - k,
    {
        assert(results@.take(k + 1).drop_last() =~= results@.take(k as int));
        match &results[k] {
            Ok(more) => {
                all.extend(more);
            },
            Err(e) => {
                proof {
                    lemma_merged_fails(files@, results@, k as int);
                }
                return Err(e.clone());
            },
        }
        k += 1;
    }
    assert(results@.take(k as int) =~= results@);
    Ok(all)
}

proof fn lemma_merged_fails(
    files: Map<Seq<char>, Seq<char>>,
    results: Seq<Result<Sections, String>>,
    k: int,
)
    requires
        0 <= k < results.len(),
        merged(files, results.take(k + 1)) is Err,
    ensures
        merged(files, results) == merged(files, results.take(k + 1)),
    decreases results.len() - k,
{
    if k + 1 == results.len() {
        assert(results.take(k + 1) =~= results);
    } else {
        assert(results.take(k + 2).drop_last() =~= results.take(k + 1));
        lemma_merged_fails(files, results, k + 1);
    }
}

fn ask_merged(e: Effect, files: Sections, log: &[Reply], at: usize) -> (r: Work<Sections>)
    ensures
        seen(r) == merged_for(e@, files@, log@, at as int),
{
    if at < log.len() {
        if let Reply::Files(results) = &log[at] {
            return match merge(files, results.as_slice()) {
                Ok(all) => Ok((all, at + 1)),
                Err(e) => Err(Pause::Fail(e)),
            };
        }
    }
    Err(Pause::Ask(e))
}

/// The members of waves are milestones of the plan.
proof fn lemma_waves_in_range(plan: Seq<MilestoneView>, k: int, j: int)
    requires
        0 <= k < waves_of(plan).len(),
        0 <= j < waves_of(plan)[k].len(),
    ensures
        0 <= waves_of(plan)[k][j] < plan.len(),
{
    crate::waves::lemma_wave_members(plan, k);
    assert(waves_of(plan)[k].contains(waves_of(plan)[k][j]));
}

impl Manager {
    /// Plans milestones for `task`, and builds them wave by wave. A wave of one milestone is
    /// built in the workspace of `variant`; the milestones of a larger wave are built side by
    /// side, each in a workspace of its own, so that their builds cannot get in each other's
    /// way.
    pub fn implement_milestones(
        b: &Brief,
        id_prefix: &str,
        task: &str,
        depth: usize,
        variant: Option<&str>,
        log: &[Reply],
        at: usize,
    ) -> (r: Work<Sections>)
        ensures
            seen(r) == built(
                b@,
                id_prefix@,
                task@,
                depth as nat,
                opt_str(variant),
                log@,
                at as int,
            ),
        decreases 4 - depth, 1nat,
    {
        let question = Effect::Agentic {
            agent: "MilestonePlanner".to_owned(),
            system: b.skills.milestone_planner.clone(),
            task: task.to_owned().concat("\n\n# Iteration Budget\nN = ").concat(
                decimal_text(b.max_iter as u64).as_str(),
            ).concat(PATTERN_GUIDE).concat(implementer_pattern_catalog().as_str()).concat(
                SOURCE_GUIDE,
            ),
            max_turns: AGENTIC_MAX_TURNS,
        };
        let (text, planned) = Workspace::checkpoint(
            id_prefix.to_owned().concat("/plan").as_str(),
            question,
            log,
            at,
        )?;
        let milestones = parse_milestone_plan(text.as_str());
        let waves = schedule_waves(milestones.as_slice());
        let ghost plan = views(milestones@);
        let ghost all = waves_view(waves@);
        let mut files = Sections::new();
        let mut now: usize = planned;
        let mut k: usize = 0;
        while k < waves.len()
            invariant
                k <= waves@.len(),
                plan == views(milestones@),
                all == waves_view(waves@),
                all == waves_of(plan),
                waves_built(
                    b@,
                    id_prefix@,
                    plan,
                    all,
                    k as int,
                    depth as nat,
                    opt_str(variant),
                    files@,
                    log@,
                    now as int,
                ) == built(
                    b@,
                    id_prefix@,
                    task@,
                    depth as nat,
                    opt_str(variant),
                    log@,
                    at as int,
                ),
            decreases waves@.len() - k,
        {
            let wave = &waves[k];
            assert(all[k as int] == wave_view(wave@));
            proof {
                assert forall|j: int| 0 <= j < wave@.len() implies (#[trigger] wave@[j])
                    < milestones@.len() by {
                    lemma_waves_in_range(plan, k as int, j);
                    assert(all[k as int][j] == wave@[j]);
                }
            }
            if wave.len() == 1 {
                let m = &milestones[wave[0]];
                assert(plan[wave@[0] as int] == m@);
                assert(all[k as int][0] == wave@[0]);
                let (more, next) = Self::implement_one_milestone(
                    b,
                    id_prefix,
                    m,
                    depth,
                    variant,
                    log,
                    now,
                )?;
                files.extend(&more);
                now = next;
            } else {
                let (_, ready) = seed(
                    id_prefix,
                    milestones.as_slice(),
                    wave.as_slice(),
                    variant,
                    log,
                    now,
                )?;
                let (more, next) = ask_merged(
                    Effect::Branches {
                        branches: branch_out(
                            b,
                            id_prefix,
                            milestones.as_slice(),
                            wave.as_slice(),
                            depth,
                        ),
                    },
                    files,
                    log,
                    ready,
                )?;
                files = more;
                now = next;
            }
            k += 1;
        }
        Ok((files, now))
    }

    /// Builds one milestone, or splits it: at once where it was planned as hard, and after the
    /// attempt where it did not pass, as long as the depth allows it. It makes no difference
    /// whether the milestone is alone in its wave.
    pub fn implement_one_milestone(
        b: &Brief,
        id_prefix: &str,
        milestone: &Milestone,
        depth: usize,
        variant: Option<&str>,
        log: &[Reply],
        at: usize,
    ) -> (r: Work<Sections>)
        ensures
            seen(r) == built_one(
                b@,
                id_prefix@,
                milestone@,
                depth as nat,
                opt_str(variant),
                log@,
                at as int,
            ),
        decreases 4 - depth, 0nat,
    {
        let name = milestone.name.as_str();
        let id = id_prefix.to_owned().concat("/").concat(name);
        if milestone.risk == Risk::Hard && depth < MAX_SPLIT_DEPTH {
            let note = "Milestone '".to_owned().concat(name).concat(
                "' estimated HARD for a ",
            ).concat(decimal_text(b.max_iter as u64).as_str()).concat(
                "-iteration budget — splitting into sub-milestones (depth ",
            ).concat(decimal_text(depth as u64).as_str()).concat(")");
            let (_, now) = ask_done(
                Effect::Deviation { agent: "MilestonePlanner".to_owned(), text: note },
                log,
                at,
            )?;
            return Self::implement_milestones(
                b,
                id.as_str(),
                milestone.task.as_str(),
                depth + 1,
                variant,
                log,
                now,
            );
        }
        let base_task = contract_and_schema_text(b).concat("# Milestone: ").concat(name).concat(
            "\n",
        ).concat(milestone.task.as_str()).concat(SCOPE_GUIDE);
        let (system, now) = instruct(b, milestone, log, at)?;
        let ((code, passed), now) = Self::run_with_dual_review(
            b.skills,
            id.as_str(),
            "TargetImplementer",
            system.as_str(),
            base_task.as_str(),
            b.max_iter,
            variant,
            log,
            now,
        )?;
        if passed {
            return Ok((Self::parse_file_sections(code.as_str()), now));
        }
        if depth < MAX_SPLIT_DEPTH {
            let note = "Milestone '".to_owned().concat(name).concat(
                "' did not pass its quality gate within ",
            ).concat(decimal_text(b.max_iter as u64).as_str()).concat(
                " iterations as a single unit — splitting further (depth ",
            ).concat(decimal_text(depth as u64).as_str()).concat(")");
            let (_, now) = ask_done(
                Effect::Deviation { agent: "MilestonePlanner".to_owned(), text: note },
                log,
                now,
            )?;
            let task = milestone.task.as_str().to_owned().concat(
                "\n\n# Why This Needs Splitting\nA previous attempt implemented this as one unit and did not pass its quality gate within ",
            ).concat(decimal_text(b.max_iter as u64).as_str()).concat(
                " iterations. Split it into two or more smaller, independently-implementable pieces.",
            );
            return Self::implement_milestones(
                b,
                id.as_str(),
                task.as_str(),
                depth + 1,
                variant,
                log,
                now,
            );
        }
        let note = "Milestone '".to_owned().concat(name).concat(
            "' still failing its quality gate at max split depth ",
        ).concat(decimal_text(depth as u64).as_str()).concat(" — accepting best effort");
        let (_, now) = ask_done(
            Effect::Decision { agent: "MilestonePlanner".to_owned(), text: note },
            log,
            now,
        )?;
        Ok((Self::parse_file_sections(code.as_str()), now))
    }
}

/// The work on one milestone recalls only what is kept under the prefix of its plan.
pub proof fn lemma_built_one_recalls(
    b: BriefView,
    id_prefix: Seq<char>,
    m: MilestoneView,
    depth: nat,
    variant: Option<Seq<char>>,
    log: Seq<Reply>,
    at: int,
)
    ensures
        recalls(built_one(b, id_prefix, m, depth, variant, log, at)) matches Some(name)
            ==> kept_under(id_prefix, name),
    decreases 4 - depth, 0nat, 0int,
{
    let id = milestone_id(id_prefix, m.name);
    let r = built_one(b, id_prefix, m, depth, variant, log, at);
    if recalls(r) is Some {
        let name = recalls(r)->Some_0;
        if m.risk == Risk::Hard && depth < MAX_SPLIT_DEPTH {
            lemma_built_recalls(b, id, m.task, depth + 1, variant, log, at + 1);
        } else if let Ok((system, at1)) = instructed(b, m, log, at) {
            let d = DualReview {
                skills: b.skills,
                id_prefix: id,
                worker_name: "TargetImplementer"@,
                worker_system: system,
                base_task: milestone_task(b, m),
                max_iter: b.max_iter,
                variant,
            };
            lemma_agreed_recalls(d, 0, NextCallView::Full(d.base_task), Seq::empty(), log, at1);
            if let Ok((_, at2)) = agreed(d, log, at1) {
                if depth < MAX_SPLIT_DEPTH {
                    lemma_built_recalls(
                        b,
                        id,
                        split_task(m.task, b.max_iter),
                        depth + 1,
                        variant,
                        log,
                        at2 + 1,
                    );
                }
            }
        }
        assert(kept_under(id, name));
        lemma_kept_under_part(id_prefix, m.name, name);
    }
}

proof fn lemma_seeded_recalls(
    id_prefix: Seq<char>,
    plan: Seq<MilestoneView>,
    wave: Seq<int>,
    k: int,
    variant: Option<Seq<char>>,
    log: Seq<Reply>,
    at: int,
)
    ensures
        recalls(seeded(id_prefix, plan, wave, k, variant, log, at)) is None,
    decreases wave.len() - k,
{
    if 0 <= k < wave.len() {
        lemma_seeded_recalls(id_prefix, plan, wave, k + 1, variant, log, at + 1);
    }
}

proof fn lemma_waves_recall(
    b: BriefView,
    id_prefix: Seq<char>,
    plan: Seq<MilestoneView>,
    waves: Seq<Seq<int>>,
    k: int,
    depth: nat,
    variant: Option<Seq<char>>,
    files: Map<Seq<char>, Seq<char>>,
    log: Seq<Reply>,
    at: int,
)
    ensures
        recalls(
            waves_built(b, id_prefix, plan, waves, k, depth, variant, files, log, at),
        ) matches Some(name) ==> kept_under(id_prefix, name),
    decreases 4 - depth, 1nat, waves.len() - k,
{
    if 0 <= k < waves.len() {
        if waves[k].len() == 1 {
            let m = plan[waves[k][0]];
            lemma_built_one_recalls(b, id_prefix, m, depth, variant, log, at);
            if let Ok((more, at1)) = built_one(b, id_prefix, m, depth, variant, log, at) {
                lemma_waves_recall(
                    b,
                    id_prefix,
                    plan,
                    waves,
                    k + 1,
                    depth,
                    variant,
                    files.union_prefer_right(more),
                    log,
                    at1,
                );
            }
        } else {
            lemma_seeded_recalls(id_prefix, plan, waves[k], 0, variant, log, at);
            if let Ok((_, at1)) = seeded(id_prefix, plan, waves[k], 0, variant, log, at) {
                let e = EffectView::Branches {
                    branches: branches_of(b, id_prefix, plan, waves[k], depth),
                };
                if let Ok((all, at2)) = merged_for(e, files, log, at1) {
                    lemma_waves_recall(
                        b,
                        id_prefix,
                        plan,
                        waves,
                        k + 1,
                        depth,
                        variant,
                        all,
                        log,
                        at2,
                    );
                }
            }
        }
    }
}

/// The work on a plan recalls only what is kept under its prefix.
pub proof fn lemma_built_recalls(
    b: BriefView,
    id_prefix: Seq<char>,
    task: Seq<char>,
    depth: nat,
    variant: Option<Seq<char>>,
    log: Seq<Reply>,
    at: int,
)
    ensures
        recalls(built(b, id_prefix, task, depth, variant, log, at)) matches Some(name)
            ==> kept_under(id_prefix, name),
    decreases 4 - depth, 2nat, 0int,
{
    reveal_strlit("/plan");
    reveal_strlit("/");
    reveal_strlit("plan");
    assert(id_prefix + "/plan"@ =~= id_prefix + "/"@ + "plan"@);
    assert(kept_under(id_prefix, checkpoint_name(id_prefix + "/plan"@)));
    if let Ok((text, at1)) = checkpointed(id_prefix + "/plan"@, plan_question(b, task), log, at) {
        let plan = plan_of(text);
        lemma_waves_recall(
            b,
            id_prefix,
            plan,
            waves_of(plan),
            0,
            depth,
            variant,
            Map::empty(),
            log,
            at1,
        );
    }
}

/// The files that each milestone of a wave came to, by what the branches answered.
pub open spec fn branch_results(wave: Seq<int>, results: Seq<Result<Sections, String>>) -> Seq<
    (int, Map<Seq<char>, Seq<char>>),
> {
    Seq::new(
        results.len(),
        |j: int|
            (
                wave[j],
                match results[j] {
                    Ok(files) => files@,
                    Err(_) => Map::empty(),
                },
            ),
    )
}

/// The milestones of the waves from `k` on, in the order in which they are done, each with the files
/// that it came to on its own.
pub open spec fn came_to(
    b: BriefView,
    id_prefix: Seq<char>,
    plan: Seq<MilestoneView>,
    waves: Seq<Seq<int>>,
    k: int,
    depth: nat,
    variant: Option<Seq<char>>,
    log: Seq<Reply>,
    at: int,
) -> Seq<(int, Map<Seq<char>, Seq<char>>)>
    decreases waves.len() - k,
{
    if k < 0 || k >= waves.len() {
        Seq::empty()
    } else if waves[k].len() == 1 {
        match built_one(b, id_prefix, plan[waves[k][0]], depth, variant, log, at) {
            Err(_) => Seq::empty(),
            Ok((more, next)) => seq![(waves[k][0], more)] + came_to(
                b,
                id_prefix,
                plan,
                waves,
                k + 1,
                depth,
                variant,
                log,
                next,
            ),
        }
    } else {
        match seeded(id_prefix, plan, waves[k], 0, variant, log, at) {
            Err(_) => Seq::empty(),
            Ok((_, next)) => if 0 <= next < log.len() && log[next] is Files {
                branch_results(waves[k], log[next]->Files_0@) + came_to(
                    b,
                    id_prefix,
                    plan,
                    waves,
                    k + 1,
                    depth,
                    variant,
                    log,
                    next + 1,
                )
            } else {
                Seq::empty()
            },
        }
    }
}

/// Whether `all` is `files` with what the members of `list` came to: every path of any of them, and
/// no other, each with the content that the last to hold it gave it.
pub open spec fn is_assembled(
    all: Map<Seq<char>, Seq<char>>,
    files: Map<Seq<char>, Seq<char>>,
    list: Seq<(int, Map<Seq<char>, Seq<char>>)>,
) -> bool {
    &&& forall|p: Seq<char>| #[trigger]
        all.contains_key(p) <==> files.contains_key(p) || exists|j: int|
            0 <= j < list.len() && (#[trigger] list[j]).1.contains_key(p)
    &&& forall|j: int, p: Seq<char>|
        #![trigger list[j].1.contains_key(p)]
        0 <= j < list.len() && list[j].1.contains_key(p) && (forall|i: int|
            j < i < list.len() ==> !(#[trigger] list[i]).1.contains_key(p)) ==> all[p] == list[j].1[p]
    &&& forall|p: Seq<char>|
        #![trigger all[p]]
        files.contains_key(p) && (forall|i: int|
            0 <= i < list.len() ==> !(#[trigger] list[i]).1.contains_key(p)) ==> all[p] == files[p]
}

proof fn lemma_assembled_one(
    files: Map<Seq<char>, Seq<char>>,
    one: (int, Map<Seq<char>, Seq<char>>),
)
    ensures
        is_assembled(files.union_prefer_right(one.1), files, seq![one]),
{
    let all = files.union_prefer_right(one.1);
    let list = seq![one];
    assert(list[0] == one);
    assert forall|p: Seq<char>| #[trigger] all.contains_key(p) <==> files.contains_key(p) || exists|
        j: int,
    |
        0 <= j < list.len() && (#[trigger] list[j]).1.contains_key(p) by {
        if one.1.contains_key(p) {
            assert(list[0].1.contains_key(p));
        }
    }
    assert forall|p: Seq<char>|
        #![trigger all[p]]
        files.contains_key(p) && (forall|i: int|
            0 <= i < list.len() ==> !(#[trigger] list[i]).1.contains_key(p)) implies all[p]
        == files[p] by {
        assert(!list[0].1.contains_key(p));
    }
}

/// What is assembled in two goes is assembled.
proof fn lemma_assembled_parts(
    files: Map<Seq<char>, Seq<char>>,
    first: Seq<(int, Map<Seq<char>, Seq<char>>)>,
    some: Map<Seq<char>, Seq<char>>,
    second: Seq<(int, Map<Seq<char>, Seq<char>>)>,
    all: Map<Seq<char>, Seq<char>>,
)
    requires
        is_assembled(some, files, first),
        is_assembled(all, some, second),
    ensures
        is_assembled(all, files, first + second),
{
    let list = first + second;
    let n = first.len() as int;
    assert forall|p: Seq<char>| #[trigger] all.contains_key(p) <==> files.contains_key(p) || exists|
        j: int,
    |
        0 <= j < list.len() && (#[trigger] list[j]).1.contains_key(p) by {
        if exists|j: int| 0 <= j < first.len() && (#[trigger] first[j]).1.contains_key(p) {
            let j = choose|j: int| 0 <= j < first.len() && (#[trigger] first[j]).1.contains_key(p);
            assert(list[j].1.contains_key(p));
            assert(some.contains_key(p));
        }
        if exists|j: int| 0 <= j < second.len() && (#[trigger] second[j]).1.contains_key(p) {
            let j = choose|j: int|
                0 <= j < second.len() && (#[trigger] second[j]).1.contains_key(p);
            assert(list[n + j].1.contains_key(p));
        }
        if exists|j: int| 0 <= j < list.len() && (#[trigger] list[j]).1.contains_key(p) {
            let j = choose|j: int| 0 <= j < list.len() && (#[trigger] list[j]).1.contains_key(p);
            if j < n {
                assert(first[j].1.contains_key(p));
                assert(some.contains_key(p));
            } else {
                assert(second[j - n].1.contains_key(p));
            }
        }
        assert(files.contains_key(p) ==> some.contains_key(p));
        assert(some.contains_key(p) ==> all.contains_key(p));
    }
    assert forall|j: int, p: Seq<char>|
        #![trigger list[j].1.contains_key(p)]
        0 <= j < list.len() && list[j].1.contains_key(p) && (forall|i: int|
            j < i < list.len() ==> !(#[trigger] list[i]).1.contains_key(p)) implies all[p]
        == list[j].1[p] by {
        if j >= n {
            assert(second[j - n].1.contains_key(p));
            assert forall|i: int| j - n < i < second.len() implies !(
            #[trigger] second[i]).1.contains_key(p) by {
                assert(list[n + i] == second[i]);
            }
        } else {
            assert(first[j].1.contains_key(p));
            assert forall|i: int| j < i < first.len() implies !(#[trigger] first[i]).1.contains_key(
                p,
            ) by {
                assert(list[i] == first[i]);
            }
            assert(some[p] == first[j].1[p]);
            assert(some.contains_key(p));
            assert forall|i: int| 0 <= i < second.len() implies !(
            #[trigger] second[i]).1.contains_key(p) by {
                assert(list[n + i] == second[i]);
            }
            assert(all[p] == some[p]);
        }
    }
    assert forall|p: Seq<char>|
        #![trigger all[p]]
        files.contains_key(p) && (forall|i: int|
            0 <= i < list.len() ==> !(#[trigger] list[i]).1.contains_key(p)) implies all[p]
        == files[p] by {
        assert forall|i: int| 0 <= i < first.len() implies !(#[trigger] first[i]).1.contains_key(
            p,
        ) by {
            assert(list[i] == first[i]);
        }
        assert forall|i: int| 0 <= i < second.len() implies !(#[trigger] second[i]).1.contains_key(
            p,
        ) by {
            assert(list[n + i] == second[i]);
        }
        assert(some[p] == files[p]);
        assert(some.contains_key(p));
    }
}

proof fn lemma_merged_is_assembled(
    wave: Seq<int>,
    files: Map<Seq<char>, Seq<char>>,
    results: Seq<Result<Sections, String>>,
)
    requires
        merged(files, results) is Ok,
    ensures
        is_assembled(merged(files, results)->Ok_0, files, branch_results(wave, results)),
    decreases results.len(),
{
    let list = branch_results(wave, results);
    if results.len() > 0 {
        let n = results.len() - 1;
        let less = results.drop_last();
        lemma_merged_is_assembled(wave, files, less);
        let some = merged(files, less)->Ok_0;
        assert(list[n].1 == results.last()->Ok_0@);
        lemma_assembled_one(some, list[n]);
        lemma_assembled_parts(
            files,
            branch_results(wave, less),
            some,
            seq![list[n]],
            merged(files, results)->Ok_0,
        );
        assert(branch_results(wave, less) + seq![list[n]] =~= list);
    }
}

proof fn lemma_waves_are_assembled(
    b: BriefView,
    id_prefix: Seq<char>,
    plan: Seq<MilestoneView>,
    waves: Seq<Seq<int>>,
    k: int,
    depth: nat,
    variant: Option<Seq<char>>,
    files: Map<Seq<char>, Seq<char>>,
    log: Seq<Reply>,
    at: int,
)
    requires
        0 <= k,
    ensures
        waves_built(b, id_prefix, plan, waves, k, depth, variant, files, log, at) matches Ok((all, _))
            ==> is_assembled(
            all,
            files,
            came_to(b, id_prefix, plan, waves, k, depth, variant, log, at),
        ),
    decreases waves.len() - k,
{
    if k < waves.len() && waves_built(
        b,
        id_prefix,
        plan,
        waves,
        k,
        depth,
        variant,
        files,
        log,
        at,
    ) is Ok {
        let all = waves_built(
            b,
            id_prefix,
            plan,
            waves,
            k,
            depth,
            variant,
            files,
            log,
            at,
        )->Ok_0.0;
        if waves[k].len() == 1 {
            let (more, next) = built_one(
                b,
                id_prefix,
                plan[waves[k][0]],
                depth,
                variant,
                log,
                at,
            )->Ok_0;
            let some = files.union_prefer_right(more);
            lemma_waves_are_assembled(
                b,
                id_prefix,
                plan,
                waves,
                k + 1,
                depth,
                variant,
                some,
                log,
                next,
            );
            lemma_assembled_one(files, (waves[k][0], more));
            lemma_assembled_parts(
                files,
                seq![(waves[k][0], more)],
                some,
                came_to(b, id_prefix, plan, waves, k + 1, depth, variant, log, next),
                all,
            );
        } else {
            let next = seeded(id_prefix, plan, waves[k], 0, variant, log, at)->Ok_0.1;
            let results = log[next]->Files_0@;
            let some = merged(files, results)->Ok_0;
            lemma_waves_are_assembled(
                b,
                id_prefix,
                plan,
                waves,
                k + 1,
                depth,
                variant,
                some,
                log,
                next + 1,
            );
            lemma_merged_is_assembled(waves[k], files, results);
            lemma_assembled_parts(
                files,
                branch_results(waves[k], results),
                some,
                came_to(b, id_prefix, plan, waves, k + 1, depth, variant, log, next + 1),
                all,
            );
        }
    }
}

/// Whether each of the waves from `k` on whose milestones are built side by side was answered with
/// as many results as it has milestones.
pub open spec fn answered_in_full(
    b: BriefView,
    id_prefix: Seq<char>,
    plan: Seq<MilestoneView>,
    waves: Seq<Seq<int>>,
    k: int,
    depth: nat,
    variant: Option<Seq<char>>,
    log: Seq<Reply>,
    at: int,
) -> bool
    decreases waves.len() - k,
{
    if k < 0 || k >= waves.len() {
        true
    } else if waves[k].len() == 1 {
        match built_one(b, id_prefix, plan[waves[k][0]], depth, variant, log, at) {
            Err(_) => false,
            Ok((_, next)) => answered_in_full(
                b,
                id_prefix,
                plan,
                waves,
                k + 1,
                depth,
                variant,
                log,
                next,
            ),
        }
    } else {
        match seeded(id_prefix, plan, waves[k], 0, variant, log, at) {
            Err(_) => false,
            Ok((_, next)) => 0 <= next < log.len() && log[next] is Files
                && log[next]->Files_0@.len() == waves[k].len() && answered_in_full(
                b,
                id_prefix,
                plan,
                waves,
                k + 1,
                depth,
                variant,
                log,
                next + 1,
            ),
        }
    }
}

proof fn lemma_all_waves_come_to_something(
    b: BriefView,
    id_prefix: Seq<char>,
    plan: Seq<MilestoneView>,
    waves: Seq<Seq<int>>,
    k: int,
    depth: nat,
    variant: Option<Seq<char>>,
    log: Seq<Reply>,
    at: int,
    w: int,
    i: int,
)
    requires
        0 <= k <= w < waves.len(),
        waves[w].contains(i),
        answered_in_full(b, id_prefix, plan, waves, k, depth, variant, log, at),
    ensures
        ({
            let list = came_to(b, id_prefix, plan, waves, k, depth, variant, log, at);
            exists|j: int| 0 <= j < list.len() && (#[trigger] list[j]).0 == i
        }),
    decreases waves.len() - k,
{
    let list = came_to(b, id_prefix, plan, waves, k, depth, variant, log, at);
    let wave = waves[k];
    let (part, next) = if wave.len() == 1 {
        let (more, next) = built_one(b, id_prefix, plan[wave[0]], depth, variant, log, at)->Ok_0;
        (seq![(wave[0], more)], next)
    } else {
        let next = seeded(id_prefix, plan, wave, 0, variant, log, at)->Ok_0.1;
        (branch_results(wave, log[next]->Files_0@), next + 1)
    };
    let rest = came_to(b, id_prefix, plan, waves, k + 1, depth, variant, log, next);
    assert(list == part + rest);
    if k == w {
        let j = choose|j: int| 0 <= j < wave.len() && wave[j] == i;
        assert(part[j].0 == i);
        assert(list[j].0 == i);
    } else {
        lemma_all_waves_come_to_something(
            b,
            id_prefix,
            plan,
            waves,
            k + 1,
            depth,
            variant,
            log,
            next,
            w,
            i,
        );
        let j = choose|j: int| 0 <= j < rest.len() && (#[trigger] rest[j]).0 == i;
        assert(list[part.len() + j].0 == i);
    }
}

/// The files of a plan are those of all its milestones: every path that any of them came to, with
/// the content that the last of them to write it gave it, and nothing else.
pub proof fn law_all_milestones_are_assembled(
    b: BriefView,
    id_prefix: Seq<char>,
    task: Seq<char>,
    depth: nat,
    variant: Option<Seq<char>>,
    log: Seq<Reply>,
    at: int,
    text: Seq<char>,
    start: int,
)
    requires
        checkpointed(id_prefix + "/plan"@, plan_question(b, task), log, at) == Ok::<
            (Seq<char>, int),
            PauseView<EffectView>,
        >((text, start)),
        built(b, id_prefix, task, depth, variant, log, at) is Ok,
    ensures
        ({
            let plan = plan_of(text);
            let waves = waves_of(plan);
            let all = built(b, id_prefix, task, depth, variant, log, at)->Ok_0.0;
            let list = came_to(b, id_prefix, plan, waves, 0, depth, variant, log, start);
            &&& is_assembled(all, Map::empty(), list)
        }),
{
    let plan = plan_of(text);
    let waves = waves_of(plan);
    let none = Map::<Seq<char>, Seq<char>>::empty();
    lemma_waves_are_assembled(b, id_prefix, plan, waves, 0, depth, variant, none, log, start);
    let list = came_to(b, id_prefix, plan, waves, 0, depth, variant, log, start);
}

/// No milestone of a plan is left out: where all that was built side by side was answered for, each
/// is among those whose files are assembled.
pub proof fn law_no_milestone_is_left_out(
    b: BriefView,
    id_prefix: Seq<char>,
    plan: Seq<MilestoneView>,
    depth: nat,
    variant: Option<Seq<char>>,
    log: Seq<Reply>,
    start: int,
    i: int,
)
    requires
        0 <= i < plan.len(),
        answered_in_full(b, id_prefix, plan, waves_of(plan), 0, depth, variant, log, start),
    ensures
        ({
            let list = came_to(
                b,
                id_prefix,
                plan,
                waves_of(plan),
                0,
                depth,
                variant,
                log,
                start,
            );
            exists|j: int| 0 <= j < list.len() && (#[trigger] list[j]).0 == i
        }),
{
    let waves = waves_of(plan);
    law_every_milestone_is_built_once(plan, i);
    let w = choose|w: int| 0 <= w < waves.len() && #[trigger] waves[w].contains(i);
    lemma_all_waves_come_to_something(
        b,
        id_prefix,
        plan,
        waves,
        0,
        depth,
        variant,
        log,
        start,
        w,
        i,
    );
}

} // verus!
