//! The synthesis of a crate: planned, built, integrated, reviewed.

use crate::agents::Skills;
use crate::building::{
    built, contract_and_schema, contract_and_schema_text, lemma_built_recalls, Brief, BriefView,
};
use crate::chunks::{chunks_of, law_at_most_target_chunks, SPLIT_THRESHOLD};
use crate::copied::views;
use crate::effects::{
    ask_done, ask_gated, checkpoint_name, checkpointed, done_for, gated_for,
    law_checkpoints_do_not_collide, pinned, recall, recalled, recalls, store, stored, ChunkTask,
    ChunkTaskView, Effect, EffectView, Reply, Work, WorkView,
};
use crate::ids::{
    counted, fix_id, fix_name, law_fixes_do_not_collide, law_repairs_do_not_collide,
    law_soundness_rounds_do_not_collide, repair_id, repair_name, soundness_repair_id,
    soundness_repair_name, soundness_review_id, soundness_review_name,
};
use crate::manager::Manager;
use crate::numbers::{decimal, decimal_text};
use crate::quality::{multi_file, sections_of, unfenced};
use crate::repair::{patch_tried, review_task};
use crate::sections::{listing, Sections};
use crate::steps::{seen, Pause, PauseView};
use crate::text::{byte_len, bytes, is_blank, join, joined, texts, trimmed};
use crate::verdicts::{opens_with, verdict};
use crate::wiring::{ensure_module_declarations, wired};
use crate::workspace::Workspace;
use vstd::prelude::*;
use vstd::string::StringExecFns;

verus! {

/// How many times the integration can go back to the planner before it fails.
pub const MAX_INTEGRATION_ESCALATIONS: usize = 2;

/// How many times the planner is asked what is still missing.
pub const MAX_GAP_FILL_ROUNDS: usize = 3;

pub const INTEGRATION_GUIDE: &'static str =
    "You are fixing build/lint/test failures in the FULLY ASSEMBLED crate, produced by merging several independently-implemented pieces. A failure here can be cross-file in a way no single piece's own author could have seen: two pieces may each define their own version of the same type, or one module may reference another that was never produced under the name it expects. Fix the actual cause — prefer removing or merging a duplicate/conflicting definition over patching around it.";

/// The stage in which the crate is integrated.
pub const INTEGRATION_STAGE: &'static str =
    "Final integration check (build + clippy + test on the fully assembled crate)";

pub const SOUNDNESS_GUIDE: &'static str =
    "FormalMethodsReviewer found a soundness violation in the implementation below — a real panic on valid input, or a violation of a totality/determinism guarantee the contract implies. Fix the actual defect, not just the specific input FormalMethodsReviewer happened to construct to demonstrate it.";

pub const GAP_GUIDE: &'static str =
    "\n```\n\nCompare what's already implemented above against the ObjectiveContract and Schema. If every type, method, and behavior the schema requires already exists in the code above, emit no milestones at all — respond with exactly the single word NONE and nothing else. Otherwise, plan milestones — in the exact same format as before — covering ONLY what's still missing. Do not re-plan, re-describe, or duplicate anything already implemented above.";

pub const FIX_GUIDE: &'static str =
    "\n\nPlan milestones to fix EXACTLY these failures. Do not redesign, re-implement, or re-describe anything the failures above don't implicate.";

pub const CHUNK_GUIDE: &'static str =
    "\n```\n\nImplement ONLY the items in this chunk. Other modules handled separately.";

pub const INTEGRATOR: &'static str = "TargetImplementer-Integration";

pub const SOUNDNESS_WORKER: &'static str = "TargetImplementer-Soundness";

// Acceptance tests.

/// The task of turning acceptance criteria into tests.
pub open spec fn system_test_task(
    contract: Seq<char>,
    gherkin: Seq<char>,
    files: Map<Seq<char>, Seq<char>>,
) -> Seq<char> {
    "# ObjectiveContract\n"@ + contract + "\n\n# Acceptance Criteria (Gherkin)\n```gherkin\n"@
        + gherkin + "\n```\n\n# Current V2 Implementation\n```rust\n"@ + multi_file(files)
        + "\n```"@
}

/// A crate with tests for its acceptance criteria. Without criteria nothing is asked.
pub open spec fn system_tested(
    b: BriefView,
    files: Map<Seq<char>, Seq<char>>,
    gherkin: Seq<char>,
    log: Seq<Reply>,
    at: int,
) -> WorkView<Map<Seq<char>, Seq<char>>> {
    if trimmed(gherkin).len() == 0 {
        Ok((files, at))
    } else {
        match checkpointed(
            "system_tests/write"@,
            EffectView::Agent {
                agent: "SystemTestWriter"@,
                system: b.skills.system_test_writer@,
                task: system_test_task(b.contract, gherkin, files),
                slot: None,
            },
            log,
            at,
        ) {
            Err(p) => Err(p),
            Ok((raw, at)) => Ok((files.union_prefer_right(sections_of(unfenced(raw))), at)),
        }
    }
}

// Integration.

/// An attempt to patch a draft, under a checkpoint.
pub open spec fn patched_under(
    id: Seq<char>,
    worker: Seq<char>,
    system: Seq<char>,
    base_task: Seq<char>,
    draft: Seq<char>,
    errors: Seq<char>,
    label: Seq<char>,
    log: Seq<Reply>,
    at: int,
) -> WorkView<Seq<char>> {
    match recalled(id, log, at) {
        Err(p) => Err(p),
        Ok((Some(text), at)) => Ok((text, at)),
        Ok((None, at)) => match patch_tried(
            worker,
            system,
            base_task,
            draft,
            errors,
            label,
            log,
            at,
        ) {
            Err(p) => Err(p),
            Ok((text, at)) => stored(id, text, log, at),
        },
    }
}

/// The task of planning a fix for failures that patches did not clear.
pub open spec fn fix_task(b: BriefView, clean: Seq<char>, errors: Seq<char>) -> Seq<char> {
    contract_and_schema(b) + "# Current V2 Implementation\n```rust\n"@ + clean
        + "\n```\n\n# Build/Test Failures Repeated Patch Attempts Could Not Fix\n"@ + errors
        + FIX_GUIDE@
}

/// What is recorded of an integration that failed for good.
pub open spec fn integration_note(max: nat, escalation: nat, errors: Seq<char>) -> Seq<char> {
    "Fully assembled crate still fails its quality gate after "@ + decimal(max)
        + " integration repair attempts and "@ + decimal(escalation)
        + " escalation(s) to MilestonePlanner — failing the run instead of delivering a crate that does not build:\n"@
        + errors
}

/// Why a run fails whose crate could not be integrated.
pub open spec fn integration_failure(max: nat, escalation: nat, errors: Seq<char>) -> Seq<char> {
    "V2 crate does not build/pass tests after "@ + decimal(max)
        + " integration repair attempts and "@ + decimal(escalation)
        + " escalation(s) to MilestonePlanner:\n"@ + errors
}

/// What is recorded when the planner is asked to fix what patches did not clear.
pub open spec fn escalation_note(max: nat, escalation: nat, errors: Seq<char>) -> Seq<char> {
    "Integration escalation "@ + decimal(escalation)
        + ": patch-based repair did not clear these failures after "@ + decimal(max)
        + " attempts:\n"@ + errors
}

/// The assembled crate, once the quality gate finds nothing wrong with it. Failures are patched, at
/// most `max_iter` times; then the planner is asked for a fix and it all begins again, at most
/// `MAX_INTEGRATION_ESCALATIONS` times; then the run fails. `round` is that of the soundness repair
/// that the integration follows, if it follows one.
pub open spec fn integrated_from(
    b: BriefView,
    round: Option<nat>,
    files: Map<Seq<char>, Seq<char>>,
    attempt: nat,
    escalation: nat,
    log: Seq<Reply>,
    at: int,
) -> WorkView<Map<Seq<char>, Seq<char>>>
    decreases MAX_INTEGRATION_ESCALATIONS - escalation, b.max_iter - attempt,
{
    match gated_for(EffectView::Gate { code: multi_file(files), variant: None }, log, at) {
        Err(p) => Err(p),
        Ok(((clean, errors), at)) => if errors.len() == 0 {
            Ok((sections_of(clean), at))
        } else if attempt < b.max_iter {
            match done_for(
                EffectView::Deviation {
                    agent: INTEGRATOR@,
                    text: "Integration attempt "@ + decimal(attempt)
                        + " — full-crate quality gate failed:\n"@ + errors,
                },
                log,
                at,
            ) {
                Err(p) => Err(p),
                Ok((_, at)) => match patched_under(
                    repair_id(round, escalation, attempt),
                    INTEGRATOR@,
                    b.worker_system,
                    contract_and_schema(b) + INTEGRATION_GUIDE@,
                    clean,
                    errors,
                    "integration attempt "@ + decimal(attempt),
                    log,
                    at,
                ) {
                    Err(p) => Err(p),
                    Ok((raw, at)) => integrated_from(
                        b,
                        round,
                        sections_of(raw),
                        attempt + 1,
                        escalation,
                        log,
                        at,
                    ),
                },
            }
        } else if escalation >= MAX_INTEGRATION_ESCALATIONS {
            match done_for(
                EffectView::Decision {
                    agent: INTEGRATOR@,
                    text: integration_note(b.max_iter, escalation, errors),
                },
                log,
                at,
            ) {
                Err(p) => Err(p),
                Ok((_, at)) => Err(
                    PauseView::Fail(integration_failure(b.max_iter, escalation, errors)),
                ),
            }
        } else {
            match done_for(
                EffectView::Deviation {
                    agent: "MilestonePlanner"@,
                    text: escalation_note(b.max_iter, escalation, errors),
                },
                log,
                at,
            ) {
                Err(p) => Err(p),
                Ok((_, at)) => match built(
                    b,
                    fix_id(round, escalation),
                    fix_task(b, clean, errors),
                    0,
                    None,
                    log,
                    at,
                ) {
                    Err(p) => Err(p),
                    Ok((fix, at)) => integrated_from(
                        b,
                        round,
                        wired(sections_of(clean).union_prefer_right(fix)),
                        0,
                        escalation + 1,
                        log,
                        at,
                    ),
                },
            }
        },
    }
}

// Reviews of the finished crate.

/// What the review panel is asked of.
pub open spec fn panel_task(contract: Seq<char>, code: Seq<char>) -> Seq<char> {
    "# ObjectiveContract\n"@ + contract + "\n\n# V2 Implementation\n```rust\n"@ + code + "\n```"@
}

/// What is recorded of a crate that stays unsound.
pub open spec fn unsound_note(max: nat, finding: Seq<char>) -> Seq<char> {
    "Still UNSOUND after "@ + decimal(max)
        + " repair attempts — failing the run instead of delivering code with a known soundness violation:\n"@
        + finding
}

/// Why a run fails whose crate stays unsound.
pub open spec fn unsound_failure(max: nat, finding: Seq<char>) -> Seq<char> {
    "V2 implementation still fails FormalMethodsReviewer's soundness check after "@ + decimal(max)
        + " repair attempts:\n"@ + finding
}

/// The crate, once it is found sound. What is found against it is patched and integrated
/// again, at most `max_iter` times; then the run fails.
pub open spec fn sound_from(
    b: BriefView,
    code: Seq<char>,
    attempt: nat,
    log: Seq<Reply>,
    at: int,
) -> WorkView<Seq<char>>
    decreases b.max_iter - attempt,
{
    match checkpointed(
        soundness_review_id(attempt),
        EffectView::Agent {
            agent: "FormalMethodsReviewer"@,
            system: b.skills.formal_methods_reviewer@,
            task: panel_task(b.contract, code),
            slot: None,
        },
        log,
        at,
    ) {
        Err(p) => Err(p),
        Ok((finding, at)) => if opens_with(finding, "SOUND"@) {
            Ok((code, at))
        } else if attempt < b.max_iter {
            match done_for(
                EffectView::Deviation {
                    agent: "FormalMethodsReviewer"@,
                    text: "Attempt "@ + decimal(attempt)
                        + " — soundness violation, repairing:\n"@ + finding,
                },
                log,
                at,
            ) {
                Err(p) => Err(p),
                Ok((_, at)) => match patched_under(
                    soundness_repair_id(attempt),
                    SOUNDNESS_WORKER@,
                    b.worker_system,
                    contract_and_schema(b) + SOUNDNESS_GUIDE@,
                    code,
                    finding,
                    "soundness attempt "@ + decimal(attempt),
                    log,
                    at,
                ) {
                    Err(p) => Err(p),
                    Ok((raw, at)) => match integrated_from(
                        b,
                        Some(attempt),
                        sections_of(raw),
                        0,
                        0,
                        log,
                        at,
                    ) {
                        Err(p) => Err(p),
                        Ok((files, at)) => sound_from(b, multi_file(files), attempt + 1, log, at),
                    },
                },
            }
        } else {
            match done_for(
                EffectView::Decision {
                    agent: "FormalMethodsReviewer"@,
                    text: unsound_note(b.max_iter, finding),
                },
                log,
                at,
            ) {
                Err(p) => Err(p),
                Ok((_, at)) => Err(PauseView::Fail(unsound_failure(b.max_iter, finding))),
            }
        },
    }
}

/// A review that is recorded where it does not open with `word`, and never blocks.
pub open spec fn noted(
    id: Seq<char>,
    agent: Seq<char>,
    system: Seq<char>,
    task: Seq<char>,
    word: Seq<char>,
    concern: Seq<char>,
    log: Seq<Reply>,
    at: int,
) -> WorkView<()> {
    match checkpointed(id, EffectView::Agent { agent, system, task, slot: None }, log, at) {
        Err(p) => Err(p),
        Ok((review, at)) => if opens_with(review, word) {
            Ok(((), at))
        } else {
            done_for(EffectView::Deviation { agent, text: concern + review }, log, at)
        },
    }
}

/// The crate after the review panel. What counsel and the readiness review hold against it is
/// recorded; soundness is enforced.
pub open spec fn paneled(b: BriefView, code: Seq<char>, log: Seq<Reply>, at: int) -> WorkView<
    Seq<char>,
> {
    match noted(
        "review_panel/ip_counsel"@,
        "IpCounsel"@,
        b.skills.ip_counsel@,
        panel_task(b.contract, code),
        "CLEAR"@,
        "IP concerns (deferred):\n"@,
        log,
        at,
    ) {
        Err(p) => Err(p),
        Ok((_, at)) => match sound_from(b, code, 0, log, at) {
            Err(p) => Err(p),
            Ok((code, at)) => match noted(
                "review_panel/production_readiness"@,
                "ProductionReadinessReviewer"@,
                b.skills.production_readiness_reviewer@,
                panel_task(b.contract, code),
                "READY"@,
                "Production-readiness concerns (deferred):\n"@,
                log,
                at,
            ) {
                Err(p) => Err(p),
                Ok((_, at)) => Ok((code, at)),
            },
        },
    }
}

// Scope.

/// The task of planning what is still missing.
pub open spec fn gap_task(b: BriefView, files: Map<Seq<char>, Seq<char>>) -> Seq<char> {
    contract_and_schema(b) + "# Already Implemented\n```rust\n"@ + multi_file(files) + GAP_GUIDE@
}

/// What is recorded of a round that added to the plan.
pub open spec fn gap_note(round: nat, added: nat) -> Seq<char> {
    "Gap-fill round "@ + decimal(round)
        + ": the milestone plan did not cover the full contract/schema scope on its own — added "@
        + decimal(added) + " file(s) worth of milestones to close the gap."@
}

/// What is recorded where the last round still added to the plan.
pub open spec fn incomplete_note() -> Seq<char> {
    "Scope may still be incomplete after "@ + decimal(MAX_GAP_FILL_ROUNDS as nat)
        + " gap-fill rounds — proceeding with what was implemented rather than looping indefinitely."@
}

/// The crate with what its first plan left out. The planner is asked what is missing until it
/// finds nothing, at most `MAX_GAP_FILL_ROUNDS` times.
pub open spec fn filled_from(
    b: BriefView,
    files: Map<Seq<char>, Seq<char>>,
    round: nat,
    log: Seq<Reply>,
    at: int,
) -> WorkView<Map<Seq<char>, Seq<char>>>
    decreases MAX_GAP_FILL_ROUNDS - round,
{
    if round >= MAX_GAP_FILL_ROUNDS {
        match done_for(
            EffectView::Deviation { agent: "MilestonePlanner"@, text: incomplete_note() },
            log,
            at,
        ) {
            Err(p) => Err(p),
            Ok((_, at)) => Ok((files, at)),
        }
    } else {
        match built(
            b,
            "root/gap-fill-"@ + decimal(round),
            gap_task(b, files),
            0,
            None,
            log,
            at,
        ) {
            Err(p) => Err(p),
            Ok((added, at)) => if added == Map::<Seq<char>, Seq<char>>::empty() {
                Ok((files, at))
            } else {
                match done_for(
                    EffectView::Decision {
                        agent: "MilestonePlanner"@,
                        text: gap_note(round, listing(added).len()),
                    },
                    log,
                    at,
                ) {
                    Err(p) => Err(p),
                    Ok((_, at)) => filled_from(
                        b,
                        wired(files.union_prefer_right(added)),
                        round + 1,
                        log,
                        at,
                    ),
                }
            },
        }
    }
}

// The whole.

/// A crate that is built from a plan: its milestones, what the plan left out, the acceptance
/// tests, and all of it integrated.
pub open spec fn planned(
    b: BriefView,
    root_task: Seq<char>,
    gherkin: Seq<char>,
    log: Seq<Reply>,
    at: int,
) -> WorkView<Seq<char>> {
    match built(b, "root"@, root_task, 0, None, log, at) {
        Err(p) => Err(p),
        Ok((files, at)) => match filled_from(b, wired(files), 0, log, at) {
            Err(p) => Err(p),
            Ok((files, at)) => match system_tested(b, files, gherkin, log, at) {
                Err(p) => Err(p),
                Ok((files, at)) => match done_for(
                    EffectView::Stage { title: INTEGRATION_STAGE@ },
                    log,
                    at,
                ) {
                    Err(p) => Err(p),
                    Ok((_, at)) => match integrated_from(b, None, files, 0, 0, log, at) {
                        Err(p) => Err(p),
                        Ok((files, at)) => Ok((multi_file(files), at)),
                    },
                },
            },
        },
    }
}

/// The task that a whole crate is planned from.
pub open spec fn full_task(b: BriefView, test_matrix: Seq<char>, inductive: Seq<char>) -> Seq<
    char,
> {
    "# ObjectiveContract\n"@ + b.contract + "\n\n# Inductive Analysis\n"@ + inductive
        + "\n\n# Schema\n```rust\n"@ + b.schema + "\n```\n\n# Test Matrix\n"@ + test_matrix
}

/// The task of writing one chunk anew.
pub open spec fn chunk_task(
    b: BriefView,
    inductive: Seq<char>,
    chunk: Seq<char>,
    i: nat,
    n: nat,
) -> Seq<char> {
    "# ObjectiveContract\n"@ + b.contract + "\n\n# Inductive Analysis\n"@ + inductive
        + "\n\n# Schema\n```rust\n"@ + b.schema + "\n```\n\n# V1 Chunk "@ + decimal(i + 1) + "/"@
        + decimal(n) + "\n```rust\n"@ + chunk + CHUNK_GUIDE@
}

/// The work on all chunks.
pub open spec fn chunk_tasks(b: BriefView, inductive: Seq<char>, chunks: Seq<Seq<char>>) -> Seq<
    ChunkTaskView,
> {
    Seq::new(
        chunks.len(),
        |i: int|
            ChunkTaskView {
                index: i,
                agent: "TargetImplementer-"@ + decimal((i + 1) as nat),
                system: b.worker_system,
                task: chunk_task(b, inductive, chunks[i], i as nat, chunks.len()),
                id: "chunk/"@ + decimal(i as nat) + "/implement"@,
            },
    )
}

/// What was said of all chunks; the first failure among them is a failure of the whole.
pub open spec fn partials(results: Seq<Result<String, String>>) -> Result<
    Seq<Seq<char>>,
    Seq<char>,
>
    decreases results.len(),
{
    if results.len() == 0 {
        Ok(Seq::empty())
    } else {
        match partials(results.drop_last()) {
            Err(e) => Err(e),
            Ok(less) => match results.last() {
                Ok(text) => Ok(less.push(text@)),
                Err(e) => Err(e@),
            },
        }
    }
}

/// What was said of all chunks that `e` hands out.
pub open spec fn partials_for(e: EffectView, log: Seq<Reply>, at: int) -> WorkView<Seq<Seq<char>>> {
    if 0 <= at < log.len() && log[at] is Texts {
        match partials(log[at]->Texts_0@) {
            Ok(all) => Ok((all, at + 1)),
            Err(e) => Err(PauseView::Fail(e)),
        }
    } else {
        Err(PauseView::Ask(e))
    }
}

/// One partial implementation under its heading.
pub open spec fn part(text: Seq<char>, i: nat) -> Seq<char> {
    "## Part "@ + decimal(i + 1) + "\n```rust\n"@ + text + "\n```"@
}

/// The task of merging partial implementations.
pub open spec fn merge_task(b: BriefView, parts: Seq<Seq<char>>) -> Seq<char> {
    contract_and_schema(b) + "# Partial Implementations\n"@ + joined(
        Seq::new(parts.len(), |i: int| part(parts[i], i as nat)),
        "\n\n"@,
    )
}

/// A crate that is merged from chunks that were written side by side. Reviews of the merged
/// crate are recorded and never block.
pub open spec fn fanned_out(
    b: BriefView,
    v1_source: Seq<char>,
    inductive: Seq<char>,
    gherkin: Seq<char>,
    degree: nat,
    log: Seq<Reply>,
    at: int,
) -> WorkView<Seq<char>> {
    match partials_for(
        EffectView::Chunks { chunks: chunk_tasks(b, inductive, chunks_of(v1_source, degree)) },
        log,
        at,
    ) {
        Err(p) => Err(p),
        Ok((parts, at)) => match checkpointed(
            "merge/raw"@,
            EffectView::Agent {
                agent: "MergeAgent"@,
                system: b.skills.merge_agent@,
                task: merge_task(b, parts),
                slot: None,
            },
            log,
            at,
        ) {
            Err(p) => Err(p),
            Ok((raw, at)) => match system_tested(b, sections_of(unfenced(raw)), gherkin, log, at) {
                Err(p) => Err(p),
                Ok((files, at)) => match integrated_from(b, None, files, 0, 0, log, at) {
                    Err(p) => Err(p),
                    Ok((files, at)) => merged_reviewed(b, multi_file(files), log, at),
                },
            },
        },
    }
}

/// The task of reviewing a merged crate for compliance.
pub open spec fn compliance_task(contract: Seq<char>, code: Seq<char>) -> Seq<char> {
    "# ObjectiveContract\n"@ + contract + "\n\n# V2\n```rust\n"@ + code + "\n```"@
}

/// A merged crate after its reviews.
pub open spec fn merged_reviewed(
    b: BriefView,
    code: Seq<char>,
    log: Seq<Reply>,
    at: int,
) -> WorkView<Seq<char>> {
    match noted(
        "security/single"@,
        "SecurityReviewer"@,
        b.skills.security_reviewer@,
        compliance_task(b.contract, code),
        "COMPLIANT"@,
        "Non-compliant items deferred to next phase:\n"@,
        log,
        at,
    ) {
        Err(p) => Err(p),
        Ok((_, at)) => match noted(
            "maintenance/verdict"@,
            "MaintenanceReviewer"@,
            b.skills.maintenance_reviewer@,
            review_task(code),
            "APPROVE"@,
            "Readability concerns on merged output (deferred):\n"@,
            log,
            at,
        ) {
            Err(p) => Err(p),
            Ok((_, at)) => paneled(b, code, log, at),
        },
    }
}

/// The crate that a synthesis comes to. A large source is split among the slots that can write
/// code, where there are several; any other is planned as a whole. How many slots there are is
/// pinned at first.
pub open spec fn synthesized(
    b: BriefView,
    v1_source: Seq<char>,
    test_matrix: Seq<char>,
    inductive: Seq<char>,
    gherkin: Seq<char>,
    log: Seq<Reply>,
    at: int,
) -> WorkView<Seq<char>> {
    match pinned("fanout_degree"@, EffectView::Slots, 1, log, at) {
        Err(p) => Err(p),
        Ok((degree, at)) => if degree == 1 || byte_len(v1_source) <= SPLIT_THRESHOLD {
            match planned(b, full_task(b, test_matrix, inductive), gherkin, log, at) {
                Err(p) => Err(p),
                Ok((code, at)) => paneled(b, code, log, at),
            }
        } else {
            fanned_out(b, v1_source, inductive, gherkin, degree as nat, log, at)
        },
    }
}

fn patch_under(
    id: &str,
    worker: &str,
    system: &str,
    base_task: &str,
    draft: &str,
    errors: &str,
    label: &str,
    log: &[Reply],
    at: usize,
) -> (r: Work<String>)
    ensures
        seen(r) == patched_under(
            id@,
            worker@,
            system@,
            base_task@,
            draft@,
            errors@,
            label@,
            log@,
            at as int,
        ),
{
    let (kept, at) = recall(id, log, at)?;
    if let Some(text) = kept {
        return Ok((text, at));
    }
    let (text, at) = Manager::try_patch(worker, system, base_task, draft, errors, label, log, at)?;
    store(id, text, log, at)
}

fn note(
    id: &str,
    agent: &str,
    system: &str,
    task: String,
    word: &str,
    concern: &str,
    log: &[Reply],
    at: usize,
) -> (r: Work<()>)
    ensures
        seen(r) == noted(id@, agent@, system@, task@, word@, concern@, log@, at as int),
{
    let (review, at) = Workspace::checkpoint(
        id,
        Effect::Agent { agent: agent.to_owned(), system: system.to_owned(), task, slot: None },
        log,
        at,
    )?;
    if verdict(review.as_str(), word) {
        return Ok(((), at));
    }
    ask_done(
        Effect::Deviation {
            agent: agent.to_owned(),
            text: concern.to_owned().concat(review.as_str()),
        },
        log,
        at,
    )
}

fn panel_text(contract: &str, code: &str) -> (r: String)
    ensures
        r@ == panel_task(contract@, code@),
{
    "# ObjectiveContract\n".to_owned().concat(contract).concat(
        "\n\n# V2 Implementation\n```rust\n",
    ).concat(code).concat("\n```")
}

fn hand_out(b: &Brief, inductive: &str, chunks: &[String]) -> (r: Vec<ChunkTask>)
    ensures
        views(r@) == chunk_tasks(b@, inductive@, texts(chunks@)),
{
    let ghost all = chunk_tasks(b@, inductive@, texts(chunks@));
    let n: usize = chunks.len();
    let mut out: Vec<ChunkTask> = Vec::new();
    let mut i: usize = 0;
    while i < n
        invariant
            i <= n == chunks@.len(),
            all == chunk_tasks(b@, inductive@, texts(chunks@)),
            views(out@) =~= all.take(i as int),
        decreases n - i,
    {
        let ghost had = out@;
        let number = decimal_text(i as u64 + 1);
        let task = "# ObjectiveContract\n".to_owned().concat(b.contract).concat(
            "\n\n# Inductive Analysis\n",
        ).concat(inductive).concat("\n\n# Schema\n```rust\n").concat(b.schema).concat(
            "\n```\n\n# V1 Chunk ",
        ).concat(number.as_str()).concat("/").concat(decimal_text(n as u64).as_str()).concat(
            "\n```rust\n",
        ).concat(chunks[i].as_str()).concat(CHUNK_GUIDE);
        let chunk = ChunkTask {
            index: i,
            agent: "TargetImplementer-".to_owned().concat(number.as_str()),
            system: b.worker_system.to_owned(),
            task,
            id: "chunk/".to_owned().concat(decimal_text(i as u64).as_str()).concat("/implement"),
        };
        let ghost view = chunk@;
        out.push(chunk);
        assert(views(out@) =~= views(had).push(view));
        assert(texts(chunks@)[i as int] == chunks@[i as int]@);
        assert(all[i as int] == view);
        i += 1;
    }
    assert(all.take(i as int) =~= all);
    out
}

proof fn lemma_partials_fail(results: Seq<Result<String, String>>, k: int)
    requires
        0 <= k < results.len(),
        partials(results.take(k + 1)) is Err,
    ensures
        partials(results) == partials(results.take(k + 1)),
    decreases results.len() - k,
{
    if k + 1 == results.len() {
        assert(results.take(k + 1) =~= results);
    } else {
        assert(results.take(k + 2).drop_last() =~= results.take(k + 1));
        lemma_partials_fail(results, k + 1);
    }
}

fn collect(results: &[Result<String, String>]) -> (r: Result<Vec<String>, String>)
    ensures
        match r {
            Ok(all) => partials(results@) == Ok::<Seq<Seq<char>>, Seq<char>>(texts(all@)),
            Err(e) => partials(results@) == Err::<Seq<Seq<char>>, Seq<char>>(e@),
        },
{
    let mut all: Vec<String> = Vec::new();
    let mut k: usize = 0;
    assert(results@.take(0) =~= Seq::<Result<String, String>>::empty());
    assert(texts(all@) =~= Seq::<Seq<char>>::empty());
    while k < results.len()
        invariant
            k <= results@.len(),
            partials(results@.take(k as int)) == Ok::<Seq<Seq<char>>, Seq<char>>(texts(all@)),
        decreases results@.len() - k,
    {
        assert(results@.take(k + 1).drop_last() =~= results@.take(k as int));
        match &results[k] {
            Ok(text) => {
                let ghost had = all@;
                all.push(text.clone());
                assert(texts(all@) =~= texts(had).push(text@));
            },
            Err(e) => {
                proof {
                    lemma_partials_fail(results@, k as int);
                }
                return Err(e.clone());
            },
        }
        k += 1;
    }
    assert(results@.take(k as int) =~= results@);
    Ok(all)
}

fn ask_partials(e: Effect, log: &[Reply], at: usize) -> (r: Work<Vec<String>>)
    ensures
        match r {
            Ok((all, next)) => partials_for(e@, log@, at as int) == Ok::<
                (Seq<Seq<char>>, int),
                PauseView<EffectView>,
            >((texts(all@), next as int)),
            Err(p) => partials_for(e@, log@, at as int) == Err::<
                (Seq<Seq<char>>, int),
                PauseView<EffectView>,
            >(p@),
        },
{
    if at < log.len() {
        if let Reply::Texts(results) = &log[at] {
            return match collect(results.as_slice()) {
                Ok(all) => Ok((all, at + 1)),
                Err(e) => Err(Pause::Fail(e)),
            };
        }
    }
    Err(Pause::Ask(e))
}

fn merge_text(b: &Brief, parts: &[String]) -> (r: String)
    ensures
        r@ == merge_task(b@, texts(parts@)),
{
    let ghost views = texts(parts@);
    let ghost all = Seq::new(views.len(), |i: int| part(views[i], i as nat));
    let mut out: Vec<String> = Vec::new();
    let mut i: usize = 0;
    while i < parts.len()
        invariant
            i <= parts@.len(),
            views == texts(parts@),
            all == Seq::new(views.len(), |i: int| part(views[i], i as nat)),
            texts(out@) =~= all.take(i as int),
        decreases parts@.len() - i,
    {
        let ghost had = out@;
        let text = "## Part ".to_owned().concat(decimal_text(i as u64 + 1).as_str()).concat(
            "\n```rust\n",
        ).concat(parts[i].as_str()).concat("\n```");
        out.push(text);
        assert(texts(out@) =~= texts(had).push(text@));
        assert(views[i as int] == parts@[i as int]@);
        i += 1;
    }
    assert(all.take(i as int) =~= all);
    contract_and_schema_text(b).concat("# Partial Implementations\n").concat(
        join(out.as_slice(), "\n\n").as_str(),
    )
}

impl Manager {
    /// Lets acceptance criteria become tests of the crate. What they demand then counts as
    /// much as that the crate builds, since both are checked when it is integrated.
    pub fn write_system_tests(
        b: &Brief,
        sections: Sections,
        gherkin: &str,
        log: &[Reply],
        at: usize,
    ) -> (r: Work<Sections>)
        ensures
            seen(r) == system_tested(b@, sections@, gherkin@, log@, at as int),
    {
        if is_blank(gherkin) {
            return Ok((sections, at));
        }
        let task = "# ObjectiveContract\n".to_owned().concat(b.contract).concat(
            "\n\n# Acceptance Criteria (Gherkin)\n```gherkin\n",
        ).concat(gherkin).concat("\n```\n\n# Current V2 Implementation\n```rust\n").concat(
            Self::format_multi_file(&sections).as_str(),
        ).concat("\n```");
        let (raw, at) = Workspace::checkpoint(
            "system_tests/write",
            Effect::Agent {
                agent: "SystemTestWriter".to_owned(),
                system: b.skills.system_test_writer.clone(),
                task,
                slot: None,
            },
            log,
            at,
        )?;
        let mut sections = sections;
        sections.extend(&Self::parse_file_sections(Self::strip_fences(raw.as_str()).as_str()));
        Ok((sections, at))
    }

    /// Builds, lints and tests the assembled crate and repairs it. This is the only place at
    /// which pieces that were built on their own meet, so the only one at which trouble between
    /// them can be seen. It is a hard gate: a crate that does not pass fails the run. `round` is
    /// that of the soundness repair that it follows, if it follows one.
    pub fn integration_check_and_repair(
        b: &Brief,
        round: Option<usize>,
        sections: Sections,
        escalation_depth: usize,
        log: &[Reply],
        at: usize,
    ) -> (r: Work<Sections>)
        ensures
            seen(r) == integrated_from(
                b@,
                counted(round),
                sections@,
                0,
                escalation_depth as nat,
                log@,
                at as int,
            ),
        decreases MAX_INTEGRATION_ESCALATIONS - escalation_depth,
    {
        let base_task = contract_and_schema_text(b).concat(INTEGRATION_GUIDE);
        let max: usize = b.max_iter;
        let mut files = sections;
        let mut now: usize = at;
        let mut attempt: usize = 0;
        loop
            invariant
                attempt <= max,
                max == b.max_iter,
                base_task@ == contract_and_schema(b@) + INTEGRATION_GUIDE@,
                integrated_from(
                    b@,
                    counted(round),
                    files@,
                    attempt as nat,
                    escalation_depth as nat,
                    log@,
                    now as int,
                ) == integrated_from(
                    b@,
                    counted(round),
                    sections@,
                    0,
                    escalation_depth as nat,
                    log@,
                    at as int,
                ),
            decreases max - attempt,
        {
            let ((clean, errors), at1) = ask_gated(
                Effect::Gate { code: Self::format_multi_file(&files), variant: None },
                log,
                now,
            )?;
            if errors.as_str().is_empty() {
                return Ok((Self::parse_file_sections(clean.as_str()), at1));
            }
            if attempt < max {
                let number = decimal_text(attempt as u64);
                let (_, at2) = ask_done(
                    Effect::Deviation {
                        agent: INTEGRATOR.to_owned(),
                        text: "Integration attempt ".to_owned().concat(number.as_str()).concat(
                            " — full-crate quality gate failed:\n",
                        ).concat(errors.as_str()),
                    },
                    log,
                    at1,
                )?;
                let (raw, at3) = patch_under(
                    repair_name(round, escalation_depth, attempt).as_str(),
                    INTEGRATOR,
                    b.worker_system,
                    base_task.as_str(),
                    clean.as_str(),
                    errors.as_str(),
                    "integration attempt ".to_owned().concat(number.as_str()).as_str(),
                    log,
                    at2,
                )?;
                files = Self::parse_file_sections(raw.as_str());
                now = at3;
                attempt += 1;
                continue ;
            }
            let attempts = decimal_text(max as u64);
            let depth = decimal_text(escalation_depth as u64);
            if escalation_depth >= MAX_INTEGRATION_ESCALATIONS {
                let record = "Fully assembled crate still fails its quality gate after ".to_owned().concat(
                    attempts.as_str(),
                ).concat(" integration repair attempts and ").concat(depth.as_str()).concat(
                    " escalation(s) to MilestonePlanner — failing the run instead of delivering a crate that does not build:\n",
                ).concat(errors.as_str());
                let (_, _) = ask_done(
                    Effect::Decision { agent: INTEGRATOR.to_owned(), text: record },
                    log,
                    at1,
                )?;
                return Err(
                    Pause::Fail(
                        "V2 crate does not build/pass tests after ".to_owned().concat(
                            attempts.as_str(),
                        ).concat(" integration repair attempts and ").concat(
                            depth.as_str(),
                        ).concat(" escalation(s) to MilestonePlanner:\n").concat(errors.as_str()),
                    ),
                );
            }
            let record = "Integration escalation ".to_owned().concat(depth.as_str()).concat(
                ": patch-based repair did not clear these failures after ",
            ).concat(attempts.as_str()).concat(" attempts:\n").concat(errors.as_str());
            let (_, at2) = ask_done(
                Effect::Deviation { agent: "MilestonePlanner".to_owned(), text: record },
                log,
                at1,
            )?;
            let task = contract_and_schema_text(b).concat(
                "# Current V2 Implementation\n```rust\n",
            ).concat(clean.as_str()).concat(
                "\n```\n\n# Build/Test Failures Repeated Patch Attempts Could Not Fix\n",
            ).concat(errors.as_str()).concat(FIX_GUIDE);
            let (fix, at3) = Self::implement_milestones(
                b,
                fix_name(round, escalation_depth).as_str(),
                task.as_str(),
                0,
                None,
                log,
                at2,
            )?;
            let mut next = Self::parse_file_sections(clean.as_str());
            next.extend(&fix);
            ensure_module_declarations(&mut next);
            return Self::integration_check_and_repair(
                b,
                round,
                next,
                escalation_depth + 1,
                log,
                at3,
            );
        }
    }

    /// Lets the review panel look at the crate.
    pub fn run_review_panel(b: &Brief, code: String, log: &[Reply], at: usize) -> (r: Work<String>)
        ensures
            seen(r) == paneled(b@, code@, log@, at as int),
    {
        let (_, at) = note(
            "review_panel/ip_counsel",
            "IpCounsel",
            b.skills.ip_counsel.as_str(),
            panel_text(b.contract, code.as_str()),
            "CLEAR",
            "IP concerns (deferred):\n",
            log,
            at,
        )?;
        let (code, at) = Self::enforce_soundness(b, code, log, at)?;
        let (_, at) = note(
            "review_panel/production_readiness",
            "ProductionReadinessReviewer",
            b.skills.production_readiness_reviewer.as_str(),
            panel_text(b.contract, code.as_str()),
            "READY",
            "Production-readiness concerns (deferred):\n",
            log,
            at,
        )?;
        Ok((code, at))
    }

    /// Lets the formal methods critic look at the crate, and repairs what is found. Unlike
    /// the rest of the panel this is a hard gate: what is unsound is a defect, no matter of
    /// judgment.
    pub fn enforce_soundness(b: &Brief, code: String, log: &[Reply], at: usize) -> (r: Work<String>)
        ensures
            seen(r) == sound_from(b@, code@, 0, log@, at as int),
    {
        let base_task = contract_and_schema_text(b).concat(SOUNDNESS_GUIDE);
        let max: usize = b.max_iter;
        let mut draft = code;
        let mut now: usize = at;
        let mut attempt: usize = 0;
        loop
            invariant
                attempt <= max,
                max == b.max_iter,
                base_task@ == contract_and_schema(b@) + SOUNDNESS_GUIDE@,
                sound_from(b@, draft@, attempt as nat, log@, now as int) == sound_from(
                    b@,
                    code@,
                    0,
                    log@,
                    at as int,
                ),
            decreases max - attempt,
        {
            let number = decimal_text(attempt as u64);
            let (finding, at1) = Workspace::checkpoint(
                soundness_review_name(attempt).as_str(),
                Effect::Agent {
                    agent: "FormalMethodsReviewer".to_owned(),
                    system: b.skills.formal_methods_reviewer.clone(),
                    task: panel_text(b.contract, draft.as_str()),
                    slot: None,
                },
                log,
                now,
            )?;
            if verdict(finding.as_str(), "SOUND") {
                return Ok((draft, at1));
            }
            if attempt >= max {
                let attempts = decimal_text(max as u64);
                let record = "Still UNSOUND after ".to_owned().concat(attempts.as_str()).concat(
                    " repair attempts — failing the run instead of delivering code with a known soundness violation:\n",
                ).concat(finding.as_str());
                let (_, _) = ask_done(
                    Effect::Decision { agent: "FormalMethodsReviewer".to_owned(), text: record },
                    log,
                    at1,
                )?;
                return Err(
                    Pause::Fail(
                        "V2 implementation still fails FormalMethodsReviewer's soundness check after ".to_owned().concat(
                            attempts.as_str(),
                        ).concat(" repair attempts:\n").concat(finding.as_str()),
                    ),
                );
            }
            let (_, at2) = ask_done(
                Effect::Deviation {
                    agent: "FormalMethodsReviewer".to_owned(),
                    text: "Attempt ".to_owned().concat(number.as_str()).concat(
                        " — soundness violation, repairing:\n",
                    ).concat(finding.as_str()),
                },
                log,
                at1,
            )?;
            let (raw, at3) = patch_under(
                soundness_repair_name(attempt).as_str(),
                SOUNDNESS_WORKER,
                b.worker_system,
                base_task.as_str(),
                draft.as_str(),
                finding.as_str(),
                "soundness attempt ".to_owned().concat(number.as_str()).as_str(),
                log,
                at2,
            )?;
            let (files, at4) = Self::integration_check_and_repair(
                b,
                Some(attempt),
                Self::parse_file_sections(raw.as_str()),
                0,
                log,
                at3,
            )?;
            draft = Self::format_multi_file(&files);
            now = at4;
            attempt += 1;
        }
    }

    /// Goes back to the planner with what has been built and asks what is missing. That each
    /// milestone of a plan was built does not show that the plan was complete.
    pub fn fill_scope_gaps(b: &Brief, sections: Sections, log: &[Reply], at: usize) -> (r: Work<
        Sections,
    >)
        ensures
            seen(r) == filled_from(b@, sections@, 0, log@, at as int),
    {
        let mut files = sections;
        let mut now: usize = at;
        let mut round: usize = 0;
        while round < MAX_GAP_FILL_ROUNDS
            invariant
                round <= MAX_GAP_FILL_ROUNDS,
                filled_from(b@, files@, round as nat, log@, now as int) == filled_from(
                    b@,
                    sections@,
                    0,
                    log@,
                    at as int,
                ),
            decreases MAX_GAP_FILL_ROUNDS - round,
        {
            let number = decimal_text(round as u64);
            let task = contract_and_schema_text(b).concat(
                "# Already Implemented\n```rust\n",
            ).concat(Self::format_multi_file(&files).as_str()).concat(GAP_GUIDE);
            let (added, at1) = Self::implement_milestones(
                b,
                "root/gap-fill-".to_owned().concat(number.as_str()).as_str(),
                task.as_str(),
                0,
                None,
                log,
                now,
            )?;
            if added.is_empty() {
                return Ok((files, at1));
            }
            let record = "Gap-fill round ".to_owned().concat(number.as_str()).concat(
                ": the milestone plan did not cover the full contract/schema scope on its own — added ",
            ).concat(decimal_text(added.len() as u64).as_str()).concat(
                " file(s) worth of milestones to close the gap.",
            );
            let (_, at2) = ask_done(
                Effect::Decision { agent: "MilestonePlanner".to_owned(), text: record },
                log,
                at1,
            )?;
            files.extend(&added);
            ensure_module_declarations(&mut files);
            now = at2;
            round += 1;
        }
        let record = "Scope may still be incomplete after ".to_owned().concat(
            decimal_text(MAX_GAP_FILL_ROUNDS as u64).as_str(),
        ).concat(
            " gap-fill rounds — proceeding with what was implemented rather than looping indefinitely.",
        );
        let (_, now) = ask_done(
            Effect::Deviation { agent: "MilestonePlanner".to_owned(), text: record },
            log,
            now,
        )?;
        Ok((files, now))
    }

    /// Plans the work in milestones that fit the budget, builds them, fills what the plan left
    /// out, adds the acceptance tests and integrates the whole.
    pub fn synthesize_by_milestones(
        b: &Brief,
        root_task: &str,
        gherkin: &str,
        log: &[Reply],
        at: usize,
    ) -> (r: Work<String>)
        ensures
            seen(r) == planned(b@, root_task@, gherkin@, log@, at as int),
    {
        let (files, at) = Self::implement_milestones(b, "root", root_task, 0, None, log, at)?;
        let mut files = files;
        ensure_module_declarations(&mut files);
        let (files, at) = Self::fill_scope_gaps(b, files, log, at)?;
        let (files, at) = Self::write_system_tests(b, files, gherkin, log, at)?;
        let (_, at) = ask_done(
            Effect::Stage { title: INTEGRATION_STAGE.to_owned() },
            log,
            at,
        )?;
        let (files, at) = Self::integration_check_and_repair(b, None, files, 0, log, at)?;
        Ok((Self::format_multi_file(&files), at))
    }

    /// The work on one chunk, which is kept under a checkpoint of its own.
    pub fn implement_chunk(chunk: &ChunkTask, log: &[Reply], at: usize) -> (r: Work<String>)
        ensures
            seen(r) == checkpointed(
                chunk.id@,
                (EffectView::Agent {
                    agent: chunk.agent@,
                    system: chunk.system@,
                    task: chunk.task@,
                    slot: Some(chunk.index),
                }),
                log@,
                at as int,
            ),
    {
        Workspace::checkpoint(
            chunk.id.as_str(),
            Effect::Agent {
                agent: chunk.agent.clone(),
                system: chunk.system.clone(),
                task: chunk.task.clone(),
                slot: Some(chunk.index),
            },
            log,
            at,
        )
    }

    fn synthesize_by_chunks(
        b: &Brief,
        v1_source: &str,
        inductive: &str,
        gherkin: &str,
        degree: usize,
        log: &[Reply],
        at: usize,
    ) -> (r: Work<String>)
        ensures
            seen(r) == fanned_out(
                b@,
                v1_source@,
                inductive@,
                gherkin@,
                degree as nat,
                log@,
                at as int,
            ),
    {
        let chunks = Self::split_source_n(v1_source, degree);
        let (parts, at) = ask_partials(
            Effect::Chunks { chunks: hand_out(b, inductive, chunks.as_slice()) },
            log,
            at,
        )?;
        let (raw, at) = Workspace::checkpoint(
            "merge/raw",
            Effect::Agent {
                agent: "MergeAgent".to_owned(),
                system: b.skills.merge_agent.clone(),
                task: merge_text(b, parts.as_slice()),
                slot: None,
            },
            log,
            at,
        )?;
        let files = Self::parse_file_sections(Self::strip_fences(raw.as_str()).as_str());
        let (files, at) = Self::write_system_tests(b, files, gherkin, log, at)?;
        let (files, at) = Self::integration_check_and_repair(b, None, files, 0, log, at)?;
        let code = Self::format_multi_file(&files);
        let task = "# ObjectiveContract\n".to_owned().concat(b.contract).concat(
            "\n\n# V2\n```rust\n",
        ).concat(code.as_str()).concat("\n```");
        let (_, at) = note(
            "security/single",
            "SecurityReviewer",
            b.skills.security_reviewer.as_str(),
            task,
            "COMPLIANT",
            "Non-compliant items deferred to next phase:\n",
            log,
            at,
        )?;
        let (_, at) = note(
            "maintenance/verdict",
            "MaintenanceReviewer",
            b.skills.maintenance_reviewer.as_str(),
            "Review this output:\n\n".to_owned().concat(code.as_str()),
            "APPROVE",
            "Readability concerns on merged output (deferred):\n",
            log,
            at,
        )?;
        Self::run_review_panel(b, code, log, at)
    }

    /// Synthesizes the crate.
    pub fn synthesize(
        skills: &Skills,
        worker_system: &str,
        contract: &str,
        schema: &str,
        v1_source: &str,
        test_matrix: &str,
        inductive: &str,
        gherkin: &str,
        max_iter: usize,
        log: &[Reply],
        at: usize,
    ) -> (r: Work<String>)
        ensures
            seen(r) == synthesized(
                (BriefView {
                    skills: *skills,
                    worker_system: worker_system@,
                    contract: contract@,
                    schema: schema@,
                    max_iter: max_iter as nat,
                }),
                v1_source@,
                test_matrix@,
                inductive@,
                gherkin@,
                log@,
                at as int,
            ),
    {
        let b = Brief { skills, worker_system, contract, schema, max_iter };
        let (degree, at) = Workspace::gate_usize("fanout_degree", Effect::Slots, 1, log, at)?;
        if degree == 1 || bytes(v1_source) <= SPLIT_THRESHOLD {
            let task = "# ObjectiveContract\n".to_owned().concat(contract).concat(
                "\n\n# Inductive Analysis\n",
            ).concat(inductive).concat("\n\n# Schema\n```rust\n").concat(schema).concat(
                "\n```\n\n# Test Matrix\n",
            ).concat(test_matrix);
            let (code, at) = Self::synthesize_by_milestones(&b, task.as_str(), gherkin, log, at)?;
            return Self::run_review_panel(&b, code, log, at);
        }
        Self::synthesize_by_chunks(&b, v1_source, inductive, gherkin, degree, log, at)
    }
}

/// Whether the quality gate found nothing wrong with the files that `code` shows.
pub open spec fn passed_gate(code: Seq<char>, log: Seq<Reply>) -> bool {
    exists|g: int|
        {
            &&& 0 <= g < log.len()
            &&& #[trigger] log[g] is Gated
            &&& log[g]->errors@.len() == 0
            &&& code == multi_file(sections_of(log[g]->clean@))
        }
}

/// An integrated crate is what the last answer of the quality gate shows, and the quality gate found nothing
/// wrong with it.
pub proof fn law_integrated_crates_pass_the_gate(
    b: BriefView,
    round: Option<nat>,
    files: Map<Seq<char>, Seq<char>>,
    attempt: nat,
    escalation: nat,
    log: Seq<Reply>,
    at: int,
)
    ensures
        integrated_from(b, round, files, attempt, escalation, log, at) matches Ok((done, end)) ==> {
            &&& 1 <= end <= log.len()
            &&& log[end - 1] is Gated
            &&& log[end - 1]->errors@.len() == 0
            &&& done == sections_of(log[end - 1]->clean@)
            &&& passed_gate(multi_file(done), log)
        },
    decreases MAX_INTEGRATION_ESCALATIONS - escalation, b.max_iter - attempt,
{
    if integrated_from(b, round, files, attempt, escalation, log, at) is Ok {
        let gate = EffectView::Gate { code: multi_file(files), variant: None };
        let ((clean, errors), at1) = gated_for(gate, log, at)->Ok_0;
        if errors.len() == 0 {
            assert(log[at] is Gated);
        } else if attempt < b.max_iter {
            let (raw, at2) = patched_under(
                repair_id(round, escalation, attempt),
                INTEGRATOR@,
                b.worker_system,
                contract_and_schema(b) + INTEGRATION_GUIDE@,
                clean,
                errors,
                "integration attempt "@ + decimal(attempt),
                log,
                at1 + 1,
            )->Ok_0;
            law_integrated_crates_pass_the_gate(
                b,
                round,
                sections_of(raw),
                attempt + 1,
                escalation,
                log,
                at2,
            );
        } else {
            let (fix, at2) = built(
                b,
                fix_id(round, escalation),
                fix_task(b, clean, errors),
                0,
                None,
                log,
                at1 + 1,
            )->Ok_0;
            law_integrated_crates_pass_the_gate(
                b,
                round,
                wired(sections_of(clean).union_prefer_right(fix)),
                0,
                escalation + 1,
                log,
                at2,
            );
        }
    }
}

/// Whether the formal methods critic, asked about exactly this code, found it sound.
pub open spec fn found_sound(b: BriefView, code: Seq<char>, log: Seq<Reply>) -> bool {
    exists|attempt: nat, start: int|
        #[trigger] soundness_review(b, code, attempt, log, start) matches Ok((finding, _))
            && opens_with(finding, "SOUND"@)
}

/// The formal methods review of `code`.
pub open spec fn soundness_review(
    b: BriefView,
    code: Seq<char>,
    attempt: nat,
    log: Seq<Reply>,
    at: int,
) -> WorkView<Seq<char>> {
    checkpointed(
        soundness_review_id(attempt),
        EffectView::Agent {
            agent: "FormalMethodsReviewer"@,
            system: b.skills.formal_methods_reviewer@,
            task: panel_task(b.contract, code),
            slot: None,
        },
        log,
        at,
    )
}

/// Where soundness is enforced, what comes out was found sound as it is, and where the crate
/// had passed the quality gate, so has what comes out.
pub proof fn law_soundness_is_enforced(
    b: BriefView,
    code: Seq<char>,
    attempt: nat,
    log: Seq<Reply>,
    at: int,
)
    ensures
        sound_from(b, code, attempt, log, at) matches Ok((done, end)) ==> {
            &&& found_sound(b, done, log)
            &&& passed_gate(code, log) ==> passed_gate(done, log)
        },
    decreases b.max_iter - attempt,
{
    if sound_from(b, code, attempt, log, at) is Ok {
        let (finding, at1) = soundness_review(b, code, attempt, log, at)->Ok_0;
        if !opens_with(finding, "SOUND"@) && attempt < b.max_iter {
            let (raw, at2) = patched_under(
                soundness_repair_id(attempt),
                SOUNDNESS_WORKER@,
                b.worker_system,
                contract_and_schema(b) + SOUNDNESS_GUIDE@,
                code,
                finding,
                "soundness attempt "@ + decimal(attempt),
                log,
                at1 + 1,
            )->Ok_0;
            law_integrated_crates_pass_the_gate(b, Some(attempt), sections_of(raw), 0, 0, log, at2);
            let (files, at3) = integrated_from(
                b,
                Some(attempt),
                sections_of(raw),
                0,
                0,
                log,
                at2,
            )->Ok_0;
            law_soundness_is_enforced(b, multi_file(files), attempt + 1, log, at3);
        }
    }
}

/// What a synthesis delivers builds, is clean and passes its tests, and was found sound: the
/// gate found nothing wrong with exactly these files, and the formal methods critic approved
/// of exactly this code.
pub proof fn law_delivered_crates_are_good(
    b: BriefView,
    v1_source: Seq<char>,
    test_matrix: Seq<char>,
    inductive: Seq<char>,
    gherkin: Seq<char>,
    log: Seq<Reply>,
    at: int,
)
    ensures
        synthesized(b, v1_source, test_matrix, inductive, gherkin, log, at) matches Ok((code, _))
            ==> passed_gate(code, log) && found_sound(b, code, log),
{
    if synthesized(b, v1_source, test_matrix, inductive, gherkin, log, at) is Ok {
        let (degree, at1) = pinned("fanout_degree"@, EffectView::Slots, 1, log, at)->Ok_0;
        if degree == 1 || byte_len(v1_source) <= SPLIT_THRESHOLD {
            let root = full_task(b, test_matrix, inductive);
            let (code, at2) = planned(b, root, gherkin, log, at1)->Ok_0;
            lemma_planned_passes(b, root, gherkin, log, at1);
            lemma_paneled(b, code, log, at2);
        } else {
            lemma_fanned_out(b, v1_source, inductive, gherkin, degree as nat, log, at1);
        }
    }
}

proof fn lemma_planned_passes(
    b: BriefView,
    root_task: Seq<char>,
    gherkin: Seq<char>,
    log: Seq<Reply>,
    at: int,
)
    ensures
        planned(b, root_task, gherkin, log, at) matches Ok((code, _)) ==> passed_gate(code, log),
{
    if planned(b, root_task, gherkin, log, at) is Ok {
        let (files, at1) = built(b, "root"@, root_task, 0, None, log, at)->Ok_0;
        let (files, at2) = filled_from(b, wired(files), 0, log, at1)->Ok_0;
        let (files, at3) = system_tested(b, files, gherkin, log, at2)->Ok_0;
        law_integrated_crates_pass_the_gate(b, None, files, 0, 0, log, at3 + 1);
    }
}

/// Opinions do not block: whatever counsel and the readiness review say, the panel delivers what
/// the soundness check makes of the crate, and fails only where that check fails.
pub proof fn law_opinions_do_not_block(b: BriefView, code: Seq<char>, log: Seq<Reply>, at: int)
    ensures
        paneled(b, code, log, at) matches Ok((done, _)) ==> exists|i: int|
            #[trigger] sound_from(b, code, 0, log, i) matches Ok((checked, _)) && checked == done,
        paneled(b, code, log, at) matches Err(PauseView::Fail(e)) ==> exists|i: int|
            #[trigger] sound_from(b, code, 0, log, i) == Err::<
                (Seq<char>, int),
                PauseView<EffectView>,
            >(PauseView::Fail(e)),
{
    let first = noted(
        "review_panel/ip_counsel"@,
        "IpCounsel"@,
        b.skills.ip_counsel@,
        panel_task(b.contract, code),
        "CLEAR"@,
        "IP concerns (deferred):\n"@,
        log,
        at,
    );
    if first is Ok {
        let checked = sound_from(b, code, 0, log, first->Ok_0.1);
    }
}

proof fn lemma_paneled(b: BriefView, code: Seq<char>, log: Seq<Reply>, at: int)
    requires
        passed_gate(code, log),
    ensures
        paneled(b, code, log, at) matches Ok((done, _)) ==> passed_gate(done, log) && found_sound(
            b,
            done,
            log,
        ),
{
    if paneled(b, code, log, at) is Ok {
        let (_, at1) = noted(
            "review_panel/ip_counsel"@,
            "IpCounsel"@,
            b.skills.ip_counsel@,
            panel_task(b.contract, code),
            "CLEAR"@,
            "IP concerns (deferred):\n"@,
            log,
            at,
        )->Ok_0;
        law_soundness_is_enforced(b, code, 0, log, at1);
    }
}

proof fn lemma_fanned_out(
    b: BriefView,
    v1_source: Seq<char>,
    inductive: Seq<char>,
    gherkin: Seq<char>,
    degree: nat,
    log: Seq<Reply>,
    at: int,
)
    ensures
        fanned_out(b, v1_source, inductive, gherkin, degree, log, at) matches Ok((done, _))
            ==> passed_gate(done, log) && found_sound(b, done, log),
{
    if fanned_out(b, v1_source, inductive, gherkin, degree, log, at) is Ok {
        let tasks = chunk_tasks(b, inductive, chunks_of(v1_source, degree));
        let (parts, at1) = partials_for(EffectView::Chunks { chunks: tasks }, log, at)->Ok_0;
        let merge = EffectView::Agent {
            agent: "MergeAgent"@,
            system: b.skills.merge_agent@,
            task: merge_task(b, parts),
            slot: None,
        };
        let (raw, at2) = checkpointed("merge/raw"@, merge, log, at1)->Ok_0;
        let (files, at3) = system_tested(b, sections_of(unfenced(raw)), gherkin, log, at2)->Ok_0;
        law_integrated_crates_pass_the_gate(b, None, files, 0, 0, log, at3);
        let (files, at4) = integrated_from(b, None, files, 0, 0, log, at3)->Ok_0;
        let code = multi_file(files);
        let (_, at5) = noted(
            "security/single"@,
            "SecurityReviewer"@,
            b.skills.security_reviewer@,
            compliance_task(b.contract, code),
            "COMPLIANT"@,
            "Non-compliant items deferred to next phase:\n"@,
            log,
            at4,
        )->Ok_0;
        let (_, at6) = noted(
            "maintenance/verdict"@,
            "MaintenanceReviewer"@,
            b.skills.maintenance_reviewer@,
            review_task(code),
            "APPROVE"@,
            "Readability concerns on merged output (deferred):\n"@,
            log,
            at5,
        )->Ok_0;
        lemma_paneled(b, code, log, at6);
    }
}

/// Without acceptance criteria the crate stays as it is, and nothing is asked.
pub proof fn law_no_criteria_no_questions(
    b: BriefView,
    files: Map<Seq<char>, Seq<char>>,
    gherkin: Seq<char>,
    log: Seq<Reply>,
    at: int,
)
    requires
        trimmed(gherkin).len() == 0,
    ensures
        system_tested(b, files, gherkin, log, at) == Ok::<
            (Map<Seq<char>, Seq<char>>, int),
            PauseView<EffectView>,
        >((files, at)),
{
}

/// A merged crate is reviewed in one piece: split into one chunk, it is one chunk.
pub proof fn law_a_crate_is_reviewed_in_one_piece(code: Seq<char>)
    ensures
        chunks_of(code, 1).len() == 1,
{
    law_at_most_target_chunks(code, 1);
}

/// No repair is asked for twice: from an attempt on, an integration recalls neither the repair of
/// an earlier attempt or escalation, nor anything of an earlier fix, nor anything of another
/// integration.
pub proof fn law_repairs_are_asked_for_once(
    b: BriefView,
    round: Option<nat>,
    files: Map<Seq<char>, Seq<char>>,
    attempt: nat,
    escalation: nat,
    log: Seq<Reply>,
    at: int,
    other_round: Option<nat>,
    other_escalation: nat,
    other_attempt: nat,
    x: Seq<char>,
)
    ensures
        other_round != round || other_escalation < escalation || (other_escalation == escalation
            && other_attempt < attempt) ==> recalls(
            integrated_from(b, round, files, attempt, escalation, log, at),
        ) != Some(checkpoint_name(repair_id(other_round, other_escalation, other_attempt))),
        other_round != round || other_escalation < escalation ==> recalls(
            integrated_from(b, round, files, attempt, escalation, log, at),
        ) != Some(checkpoint_name(fix_id(other_round, other_escalation) + "/"@ + x)),
    decreases MAX_INTEGRATION_ESCALATIONS - escalation, b.max_iter - attempt,
{
    let repair = repair_id(other_round, other_escalation, other_attempt);
    let fix = fix_id(other_round, other_escalation) + "/"@ + x;
    let gate = EffectView::Gate { code: multi_file(files), variant: None };
    if let Ok(((clean, errors), at1)) = gated_for(gate, log, at) {
        if errors.len() > 0 && attempt < b.max_iter {
            let id = repair_id(round, escalation, attempt);
            if (round, escalation, attempt) != (other_round, other_escalation, other_attempt) {
                law_repairs_do_not_collide(
                    round,
                    escalation,
                    attempt,
                    other_round,
                    other_escalation,
                    other_attempt,
                );
            }
            law_fixes_do_not_collide(
                other_round,
                other_escalation,
                x,
                round,
                escalation,
                x,
                attempt,
            );
            law_checkpoints_do_not_collide(id, fix);
            let tried = patched_under(
                id,
                INTEGRATOR@,
                b.worker_system,
                contract_and_schema(b) + INTEGRATION_GUIDE@,
                clean,
                errors,
                "integration attempt "@ + decimal(attempt),
                log,
                at1 + 1,
            );
            if let Ok((raw, at2)) = tried {
                law_repairs_are_asked_for_once(
                    b,
                    round,
                    sections_of(raw),
                    attempt + 1,
                    escalation,
                    log,
                    at2,
                    other_round,
                    other_escalation,
                    other_attempt,
                    x,
                );
            }
        } else if errors.len() > 0 && escalation < MAX_INTEGRATION_ESCALATIONS {
            let prefix = fix_id(round, escalation);
            let task = fix_task(b, clean, errors);
            let r = built(b, prefix, task, 0, None, log, at1 + 1);
            lemma_built_recalls(b, prefix, task, 0, None, log, at1 + 1);
            if let Some(name) = recalls(r) {
                let y = choose|y: Seq<char>| name == #[trigger] checkpoint_name(prefix + "/"@ + y);
                law_fixes_do_not_collide(
                    round,
                    escalation,
                    y,
                    other_round,
                    other_escalation,
                    x,
                    other_attempt,
                );
                law_checkpoints_do_not_collide(prefix + "/"@ + y, repair);
                if other_round != round || other_escalation < escalation {
                    law_checkpoints_do_not_collide(prefix + "/"@ + y, fix);
                }
            }
            if let Ok((more, at2)) = r {
                law_repairs_are_asked_for_once(
                    b,
                    round,
                    wired(sections_of(clean).union_prefer_right(more)),
                    0,
                    escalation + 1,
                    log,
                    at2,
                    other_round,
                    other_escalation,
                    other_attempt,
                    x,
                );
            }
        }
    }
}

/// No round of soundness repairs is gone through twice: from a round on, neither the review nor
/// the repair of an earlier one is recalled, nor anything of the integration that followed it or
/// of the one before all rounds.
pub proof fn law_soundness_rounds_are_asked_for_once(
    b: BriefView,
    code: Seq<char>,
    round: nat,
    log: Seq<Reply>,
    at: int,
    earlier: nat,
    integration: Option<nat>,
    escalation: nat,
    attempt: nat,
    x: Seq<char>,
)
    requires
        integration matches Some(i) ==> i < round,
    ensures
        ({
            let next = recalls(sound_from(b, code, round, log, at));
            &&& earlier < round ==> next != Some(checkpoint_name(soundness_review_id(earlier)))
            &&& earlier < round ==> next != Some(checkpoint_name(soundness_repair_id(earlier)))
            &&& next != Some(checkpoint_name(repair_id(integration, escalation, attempt)))
            &&& next != Some(checkpoint_name(fix_id(integration, escalation) + "/"@ + x))
        }),
    decreases b.max_iter - round,
{
    let review = soundness_review_id(round);
    let repair = soundness_repair_id(round);
    let a = soundness_review_id(earlier);
    let c = soundness_repair_id(earlier);
    let d = repair_id(integration, escalation, attempt);
    let e = fix_id(integration, escalation) + "/"@ + x;
    law_soundness_rounds_do_not_collide(round, earlier, integration, escalation, attempt, x);
    law_soundness_rounds_do_not_collide(earlier, round, integration, escalation, attempt, x);
    law_checkpoints_do_not_collide(review, c);
    law_checkpoints_do_not_collide(review, d);
    law_checkpoints_do_not_collide(review, e);
    law_checkpoints_do_not_collide(repair, a);
    if earlier < round {
        law_checkpoints_do_not_collide(review, a);
        law_checkpoints_do_not_collide(repair, c);
    }
    law_checkpoints_do_not_collide(repair, d);
    law_checkpoints_do_not_collide(repair, e);
    if let Ok((finding, at1)) = soundness_review(b, code, round, log, at) {
        if !opens_with(finding, "SOUND"@) && round < b.max_iter {
            let tried = patched_under(
                repair,
                SOUNDNESS_WORKER@,
                b.worker_system,
                contract_and_schema(b) + SOUNDNESS_GUIDE@,
                code,
                finding,
                "soundness attempt "@ + decimal(round),
                log,
                at1 + 1,
            );
            if let Ok((raw, at2)) = tried {
                let files = sections_of(raw);
                let whole = integrated_from(b, Some(round), files, 0, 0, log, at2);
                law_repairs_are_asked_for_once(
                    b,
                    Some(round),
                    files,
                    0,
                    0,
                    log,
                    at2,
                    integration,
                    escalation,
                    attempt,
                    x,
                );
                lemma_integration_recalls(b, Some(round), files, 0, 0, log, at2);
                if let Some(name) = recalls(whole) {
                    if exists|i: nat, j: nat|
                        name == #[trigger] checkpoint_name(repair_id(Some(round), i, j)) {
                        let (i, j) = choose|i: nat, j: nat|
                            name == #[trigger] checkpoint_name(repair_id(Some(round), i, j));
                        law_soundness_rounds_do_not_collide(earlier, round, Some(round), i, j, x);
                        law_checkpoints_do_not_collide(repair_id(Some(round), i, j), a);
                        law_checkpoints_do_not_collide(repair_id(Some(round), i, j), c);
                    } else {
                        let (i, y) = choose|i: nat, y: Seq<char>|
                            name == #[trigger] checkpoint_name(
                                fix_id(Some(round), i) + "/"@ + y,
                            );
                        law_soundness_rounds_do_not_collide(earlier, round, Some(round), i, 0, y);
                        law_checkpoints_do_not_collide(fix_id(Some(round), i) + "/"@ + y, a);
                        law_checkpoints_do_not_collide(fix_id(Some(round), i) + "/"@ + y, c);
                    }
                }
                if let Ok((done, at3)) = whole {
                    law_soundness_rounds_are_asked_for_once(
                        b,
                        multi_file(done),
                        round + 1,
                        log,
                        at3,
                        earlier,
                        integration,
                        escalation,
                        attempt,
                        x,
                    );
                }
            }
        }
    }
}

/// An integration recalls only its own repairs and fixes.
proof fn lemma_integration_recalls(
    b: BriefView,
    round: Option<nat>,
    files: Map<Seq<char>, Seq<char>>,
    attempt: nat,
    escalation: nat,
    log: Seq<Reply>,
    at: int,
)
    ensures
        recalls(integrated_from(b, round, files, attempt, escalation, log, at)) matches Some(name)
            ==> {
            ||| exists|i: nat, j: nat| name == #[trigger] checkpoint_name(repair_id(round, i, j))
            ||| exists|i: nat, y: Seq<char>|
                name == #[trigger] checkpoint_name(fix_id(round, i) + "/"@ + y)
        },
    decreases MAX_INTEGRATION_ESCALATIONS - escalation, b.max_iter - attempt,
{
    let gate = EffectView::Gate { code: multi_file(files), variant: None };
    if let Ok(((clean, errors), at1)) = gated_for(gate, log, at) {
        if errors.len() > 0 && attempt < b.max_iter {
            let tried = patched_under(
                repair_id(round, escalation, attempt),
                INTEGRATOR@,
                b.worker_system,
                contract_and_schema(b) + INTEGRATION_GUIDE@,
                clean,
                errors,
                "integration attempt "@ + decimal(attempt),
                log,
                at1 + 1,
            );
            if let Ok((raw, at2)) = tried {
                lemma_integration_recalls(
                    b,
                    round,
                    sections_of(raw),
                    attempt + 1,
                    escalation,
                    log,
                    at2,
                );
            }
        } else if errors.len() > 0 && escalation < MAX_INTEGRATION_ESCALATIONS {
            let prefix = fix_id(round, escalation);
            let task = fix_task(b, clean, errors);
            lemma_built_recalls(b, prefix, task, 0, None, log, at1 + 1);
            if let Ok((more, at2)) = built(b, prefix, task, 0, None, log, at1 + 1) {
                lemma_integration_recalls(
                    b,
                    round,
                    wired(sections_of(clean).union_prefer_right(more)),
                    0,
                    escalation + 1,
                    log,
                    at2,
                );
            }
        }
    }
}

} // verus!
