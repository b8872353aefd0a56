//! What a synthesis asks for next, and of whom: the laws of its single steps.

use crate::building::{
    branches_of, built, built_one, contract_and_schema, hard_note, milestone_task, plan_task,
    BriefView,
};
use crate::chunks::chunks_of;
use crate::documents::{document_patch_task, reviewed_from, Review};
use crate::effects::{kept_number, EffectView, Reply, WorkView};
use crate::milestones::{MilestoneView, Risk};
use crate::numbers::decimal;
use crate::patch::patched;
use crate::quality::{multi_file, sections_of, unfenced};
use crate::repair::{
    agreed_from, feedback, patch_failure, patch_task, patch_tried, revision_task, rewrite_task,
    worked, DualReview, NextCallView,
};
use crate::steps::PauseView;
use crate::synthesis::{
    chunk_tasks, filled_from, fix_task, full_task, gap_task, integrated_from, panel_task, planned,
    sound_from, synthesized, system_test_task, system_tested, INTEGRATION_GUIDE, SOUNDNESS_GUIDE,
};
use crate::telling::{law_failed_patches_are_told, lemma_stands};
use crate::text::{byte_len, has, trimmed};
use crate::verdicts::opens_with;
use crate::wiring::{entry_path, wired};
use vstd::prelude::*;

verus! {

/// Whether a piece of work asks for `e` next.
pub open spec fn asks<V>(r: WorkView<V>, e: EffectView) -> bool {
    r matches Err(PauseView::Ask(asked)) && asked == e
}

/// Whether a piece of work asks that a deviation of `who` is recorded that tells `what`.
pub open spec fn records<V>(r: WorkView<V>, who: Seq<char>, what: Seq<char>) -> bool {
    r matches Err(PauseView::Ask(EffectView::Deviation { agent, text })) && agent == who && has(
        text,
        what,
    )
}

/// An agent that is to answer a task.
pub open spec fn agent_for(agent: Seq<char>, system: Seq<char>, task: Seq<char>) -> EffectView {
    EffectView::Agent { agent, system, task, slot: None }
}

/// A draft that fails is first to be patched, by the same worker; where the patch does not apply,
/// that is recorded and the worker is to write the draft again; where it applies, the patched draft
/// is the result, and nobody else is asked.
pub proof fn law_patching_goes_before_rewriting(
    worker: Seq<char>,
    system: Seq<char>,
    base_task: Seq<char>,
    draft: Seq<char>,
    errors: Seq<char>,
    label: Seq<char>,
    log: Seq<Reply>,
    at: int,
)
    requires
        0 <= at <= log.len(),
    ensures
        ({
            let r = patch_tried(worker, system, base_task, draft, errors, label, log, at);
            let files = sections_of(draft);
            &&& log.len() == at ==> asks(
                r,
                agent_for(worker, system, patch_task(base_task, files, errors, label)),
            )
            &&& log.len() > at && log[at] is Text ==> match patched(
                files,
                unfenced(log[at]->Text_0@),
            ) {
                Ok(updated) => r == Ok::<(Seq<char>, int), PauseView<EffectView>>(
                    (multi_file(updated), at + 1),
                ),
                Err(reason) => {
                    &&& log.len() == at + 1 ==> records(r, worker, reason)
                    &&& log.len() == at + 2 && log[at + 1] is Done ==> asks(
                        r,
                        agent_for(worker, system, rewrite_task(base_task, errors, label)),
                    )
                    &&& log.len() > at + 2 && log[at + 1] is Done && log[at + 2] is Text ==> r == Ok::<
                        (Seq<char>, int),
                        PauseView<EffectView>,
                    >((log[at + 2]->Text_0@, at + 3))
                },
            }
        }),
{
    if log.len() > at && log[at] is Text {
        if let Err(reason) = patched(sections_of(draft), unfenced(log[at]->Text_0@)) {
            law_failed_patches_are_told(label, reason);
        }
    }
}

/// What a worker has written goes to the quality gate as it is. What fails there is recorded and is
/// to be patched by the worker, formatted as it then is and against what was found. The critics are
/// not asked about it.
pub proof fn law_failing_drafts_are_patched(
    d: DualReview,
    iteration: nat,
    next: NextCallView,
    last: Seq<char>,
    log: Seq<Reply>,
    at: int,
    raw: Seq<char>,
    p: int,
)
    requires
        iteration < d.max_iter,
        worked(d, iteration, next, last, log, at) == Ok::<(Seq<char>, int), PauseView<EffectView>>(
            (raw, p),
        ),
        0 <= p <= log.len(),
    ensures
        ({
            let r = agreed_from(d, iteration, next, last, log, at);
            &&& log.len() == p ==> asks(r, EffectView::Gate { code: raw, variant: d.variant })
            &&& log.len() > p && log[p] is Gated && log[p]->errors@.len() > 0 ==> {
                &&& log.len() == p + 1 ==> records(r, d.worker_name, log[p]->errors@)
                &&& log.len() == p + 3 && log[p + 1] is Done && log[p + 2] == Reply::Found(None)
                    && iteration + 1 < d.max_iter ==> asks(
                    r,
                    agent_for(
                        d.worker_name,
                        d.worker_system,
                        patch_task(
                            d.base_task,
                            sections_of(log[p]->clean@),
                            log[p]->errors@,
                            "iteration "@ + decimal(iteration + 1),
                        ),
                    ),
                )
                &&& log.len() == p + 2 && log[p + 1] is Done && iteration + 1 >= d.max_iter ==> r
                    == Ok::<((Seq<char>, bool), int), PauseView<EffectView>>(
                    ((log[p]->clean@, false), p + 2),
                )
            }
        }),
{
    reveal_with_fuel(agreed_from, 2);
    if log.len() > p && log[p] is Gated {
        let errors = log[p]->errors@;
        let text = "Iteration "@ + decimal(iteration) + " — quality gate failed:\n"@ + errors;
        lemma_stands(
            text,
            "Iteration "@ + decimal(iteration) + " — quality gate failed:\n"@,
            errors,
            Seq::<char>::empty(),
        );
    }
}

/// What passes the quality gate is shown to both critics, formatted as it then is. Where both approve
/// it is the result; else it is to be written again, against what they hold against it.
pub proof fn law_rejected_drafts_are_written_again(
    d: DualReview,
    iteration: nat,
    next: NextCallView,
    last: Seq<char>,
    log: Seq<Reply>,
    at: int,
    raw: Seq<char>,
    p: int,
)
    requires
        iteration < d.max_iter,
        worked(d, iteration, next, last, log, at) == Ok::<(Seq<char>, int), PauseView<EffectView>>(
            (raw, p),
        ),
        0 <= p < log.len(),
        log[p] is Gated,
        log[p]->errors@.len() == 0,
    ensures
        ({
            let r = agreed_from(d, iteration, next, last, log, at);
            let clean = log[p]->clean@;
            &&& log.len() == p + 2 && log[p + 1] == Reply::Found(None) ==> asks(
                r,
                agent_for(
                    "SecurityReviewer"@,
                    d.skills.security_reviewer@,
                    "Review this output:\n\n"@ + clean,
                ),
            )
            &&& log.len() == p + 3 && log[p + 1] is Found && log[p + 1]->Found_0 is Some && log[p + 2]
                == Reply::Found(None) ==> asks(
                r,
                agent_for(
                    "MaintenanceReviewer"@,
                    d.skills.maintenance_reviewer@,
                    "Review this output:\n\n"@ + clean,
                ),
            )
            &&& log.len() >= p + 3 && log[p + 1] is Found && log[p + 1]->Found_0 is Some && log[p + 2]
                is Found && log[p + 2]->Found_0 is Some ==> {
                let security = log[p + 1]->Found_0->Some_0@;
                let maintenance = log[p + 2]->Found_0->Some_0@;
                if opens_with(security, "COMPLIANT"@) && opens_with(maintenance, "APPROVE"@) {
                    r == Ok::<((Seq<char>, bool), int), PauseView<EffectView>>(
                        ((clean, true), p + 3),
                    )
                } else {
                    log.len() == p + 5 && log[p + 3] is Done && log[p + 4] == Reply::Found(None)
                        && iteration + 1 < d.max_iter ==> asks(
                        r,
                        agent_for(
                            d.worker_name,
                            d.worker_system,
                            revision_task(d.base_task, iteration, feedback(security, maintenance)),
                        ),
                    )
                }
            }
        }),
{
    reveal_with_fuel(agreed_from, 2);
}

/// A milestone that is thought to be hard is not built but planned again, in smaller pieces, up to
/// three levels deep. Any other is built, by the implementer, under its own name.
pub proof fn law_hard_milestones_are_split(
    b: BriefView,
    id_prefix: Seq<char>,
    m: MilestoneView,
    depth: nat,
    variant: Option<Seq<char>>,
    log: Seq<Reply>,
    at: int,
)
    requires
        0 <= at <= log.len(),
        b.max_iter > 0,
    ensures
        ({
            let r = built_one(b, id_prefix, m, depth, variant, log, at);
            let id = id_prefix + "/"@ + m.name;
            if m.risk == Risk::Hard && depth < 3 {
                &&& log.len() == at ==> records(r, "MilestonePlanner"@, m.name)
                &&& log.len() == at + 1 && log[at] is Done ==> asks(
                    r,
                    EffectView::Recall { name: "synthesis/"@ + (id + "/plan"@) + ".md"@ },
                )
                &&& log.len() == at + 2 && log[at] is Done && log[at + 1] == Reply::Found(None)
                    ==> asks(
                    r,
                    EffectView::Agentic {
                        agent: "MilestonePlanner"@,
                        system: b.skills.milestone_planner@,
                        task: plan_task(m.task, b.max_iter),
                        max_turns: 20,
                    },
                )
            } else {
                m.patterns.len() == 0 ==> {
                    &&& log.len() == at ==> asks(
                        r,
                        EffectView::Recall {
                            name: "synthesis/"@ + (id + "/iter/"@ + decimal(0) + "/"@ + "worker"@)
                                + ".md"@,
                        },
                    )
                    &&& log.len() == at + 1 && log[at] == Reply::Found(None) ==> asks(
                        r,
                        agent_for("TargetImplementer"@, b.worker_system, milestone_task(b, m)),
                    )
                    &&& log.len() == at + 2 && log[at] is Found && log[at]->Found_0 is Some
                        && log[at + 1] is Gated && log[at + 1]->errors@.len() == 0 ==> !(r is Ok)
                }
            }
        }),
{
    lemma_stands(
        hard_note(m.name, b.max_iter, depth),
        "Milestone '"@,
        m.name,
        "' estimated HARD for a "@ + decimal(b.max_iter)
            + "-iteration budget — splitting into sub-milestones (depth "@ + decimal(depth) + ")"@,
    );
    reveal_with_fuel(built, 2);
    reveal_with_fuel(agreed_from, 2);
}

/// A plan is asked of the planner, with tools, for exactly the task.
pub proof fn law_the_planner_is_asked(
    b: BriefView,
    id_prefix: Seq<char>,
    task: Seq<char>,
    depth: nat,
    variant: Option<Seq<char>>,
    log: Seq<Reply>,
    at: int,
)
    requires
        0 <= at <= log.len(),
    ensures
        ({
            let r = built(b, id_prefix, task, depth, variant, log, at);
            let name = "synthesis/"@ + (id_prefix + "/plan"@) + ".md"@;
            &&& log.len() == at ==> asks(r, EffectView::Recall { name })
            &&& log.len() == at + 1 && log[at] == Reply::Found(None) ==> asks(
                r,
                EffectView::Agentic {
                    agent: "MilestonePlanner"@,
                    system: b.skills.milestone_planner@,
                    task: plan_task(task, b.max_iter),
                    max_turns: 20,
                },
            )
            &&& log.len() == at + 2 && log[at] == Reply::Found(None) && log[at + 1] is Text ==> asks(
                r,
                EffectView::Store { name, content: log[at + 1]->Text_0@ },
            )
        }),
{
    reveal_with_fuel(built, 2);
}

/// Milestones that are built side by side are each given as they are planned, a workspace of their
/// own, and all that the others are given.
pub proof fn law_branches_are_given_everything(
    b: BriefView,
    id_prefix: Seq<char>,
    plan: Seq<MilestoneView>,
    wave: Seq<int>,
    depth: nat,
    j: int,
)
    requires
        0 <= j < wave.len(),
    ensures
        ({
            let list = branches_of(b, id_prefix, plan, wave, depth);
            &&& list.len() == wave.len()
            &&& list[j].id_prefix == id_prefix
            &&& list[j].milestone == plan[wave[j]]
            &&& list[j].depth == depth
            &&& list[j].variant == id_prefix + "/"@ + plan[wave[j]].name
            &&& list[j].worker_system == b.worker_system
            &&& list[j].contract == b.contract
            &&& list[j].schema == b.schema
            &&& list[j].max_iter == b.max_iter
        }),
{
}

/// An integration looks at all files of the crate together. What fails is recorded and is to be
/// patched, against what was found; after `max_iter` attempts the planner is asked for a fix, twice at
/// most; then the run fails.
pub proof fn law_integration_repairs_what_fails(
    b: BriefView,
    round: Option<nat>,
    files: Map<Seq<char>, Seq<char>>,
    attempt: nat,
    escalation: nat,
    log: Seq<Reply>,
    at: int,
)
    requires
        0 <= at <= log.len(),
    ensures
        ({
            let r = integrated_from(b, round, files, attempt, escalation, log, at);
            &&& log.len() == at ==> asks(
                r,
                EffectView::Gate { code: multi_file(files), variant: None },
            )
            &&& log.len() > at && log[at] is Gated ==> {
                let clean = log[at]->clean@;
                let errors = log[at]->errors@;
                if errors.len() == 0 {
                    r == Ok::<(Map<Seq<char>, Seq<char>>, int), PauseView<EffectView>>(
                        (sections_of(clean), at + 1),
                    )
                } else if attempt < b.max_iter {
                    log.len() == at + 3 && log[at + 1] is Done && log[at + 2] == Reply::Found(None)
                        ==> asks(
                        r,
                        agent_for(
                            "TargetImplementer-Integration"@,
                            b.worker_system,
                            patch_task(
                                contract_and_schema(b) + INTEGRATION_GUIDE@,
                                sections_of(clean),
                                errors,
                                "integration attempt "@ + decimal(attempt),
                            ),
                        ),
                    )
                } else if escalation >= 2 {
                    log.len() > at + 1 && log[at + 1] is Done ==> r matches Err(PauseView::Fail(_))
                } else {
                    log.len() == at + 3 && log[at + 1] is Done && log[at + 2] == Reply::Found(None)
                        ==> asks(
                        r,
                        EffectView::Agentic {
                            agent: "MilestonePlanner"@,
                            system: b.skills.milestone_planner@,
                            task: plan_task(fix_task(b, clean, errors), b.max_iter),
                            max_turns: 20,
                        },
                    )
                }
            }
        }),
{
    reveal_with_fuel(integrated_from, 2);
    reveal_with_fuel(built, 2);
}

/// A repair is integrated anew: what a patch made of a crate that failed is what the quality gate is
/// asked about next.
pub proof fn law_repaired_crates_are_looked_at_again(
    b: BriefView,
    round: Option<nat>,
    files: Map<Seq<char>, Seq<char>>,
    attempt: nat,
    escalation: nat,
    log: Seq<Reply>,
    at: int,
)
    requires
        0 <= at,
        attempt < b.max_iter,
        log.len() == at + 3,
        log[at] is Gated && log[at]->errors@.len() > 0,
        log[at + 1] is Done,
        log[at + 2] is Found && log[at + 2]->Found_0 is Some,
    ensures
        asks(
            integrated_from(b, round, files, attempt, escalation, log, at),
            EffectView::Gate {
                code: multi_file(sections_of(log[at + 2]->Found_0->Some_0@)),
                variant: None,
            },
        ),
{
    reveal_with_fuel(integrated_from, 2);
}

/// The formal methods critic is shown the crate. One that it finds sound is delivered as it is; one
/// that it does not is to be patched, against what it found.
pub proof fn law_unsound_crates_are_repaired(
    b: BriefView,
    code: Seq<char>,
    attempt: nat,
    log: Seq<Reply>,
    at: int,
)
    requires
        0 <= at <= log.len(),
    ensures
        ({
            let r = sound_from(b, code, attempt, log, at);
            &&& log.len() == at + 1 && log[at] == Reply::Found(None) ==> asks(
                r,
                agent_for(
                    "FormalMethodsReviewer"@,
                    b.skills.formal_methods_reviewer@,
                    panel_task(b.contract, code),
                ),
            )
            &&& log.len() > at && log[at] is Found && log[at]->Found_0 is Some ==> {
                let finding = log[at]->Found_0->Some_0@;
                if opens_with(finding, "SOUND"@) {
                    r == Ok::<(Seq<char>, int), PauseView<EffectView>>((code, at + 1))
                } else if attempt < b.max_iter {
                    &&& log.len() == at + 3 && log[at + 1] is Done && log[at + 2] == Reply::Found(
                        None,
                    ) ==> asks(
                        r,
                        agent_for(
                            "TargetImplementer-Soundness"@,
                            b.worker_system,
                            patch_task(
                                contract_and_schema(b) + SOUNDNESS_GUIDE@,
                                sections_of(code),
                                finding,
                                "soundness attempt "@ + decimal(attempt),
                            ),
                        ),
                    )
                    &&& log.len() == at + 3 && log[at + 1] is Done && log[at + 2] is Found
                        && log[at + 2]->Found_0 is Some ==> asks(
                        r,
                        EffectView::Gate {
                            code: multi_file(sections_of(log[at + 2]->Found_0->Some_0@)),
                            variant: None,
                        },
                    )
                } else {
                    log.len() > at + 1 && log[at + 1] is Done ==> r matches Err(PauseView::Fail(_))
                }
            }
        }),
{
    reveal_with_fuel(sound_from, 2);
    reveal_with_fuel(integrated_from, 2);
}

/// Wiring loses no file, and changes none but the entry file.
pub proof fn law_wiring_keeps_files(files: Map<Seq<char>, Seq<char>>, path: Seq<char>)
    ensures
        entry_path(files) matches Some(entry) ==> files.contains_key(entry),
        wired(files).contains_key(path) <==> files.contains_key(path),
        files.contains_key(path) && entry_path(files) != Some(path) ==> wired(files)[path]
            == files[path],
{
}

/// Filling gaps loses nothing: every file that was there is there still, and so is every file that a
/// round added.
pub proof fn law_filling_gaps_keeps_files(
    b: BriefView,
    files: Map<Seq<char>, Seq<char>>,
    round: nat,
    log: Seq<Reply>,
    at: int,
    path: Seq<char>,
)
    ensures
        filled_from(b, files, round, log, at) matches Ok((all, _)) ==> {
            &&& files.contains_key(path) ==> all.contains_key(path)
            &&& round < 3 ==> {
                let added = built(
                    b,
                    "root/gap-fill-"@ + decimal(round),
                    gap_task(b, files),
                    0,
                    None,
                    log,
                    at,
                );
                added is Ok && (added->Ok_0.0.contains_key(path) ==> all.contains_key(path))
            }
        },
    decreases 3 - round,
{
    if round < 3 {
        let r = built(
            b,
            "root/gap-fill-"@ + decimal(round),
            gap_task(b, files),
            0,
            None,
            log,
            at,
        );
        if let Ok((added, at1)) = r {
            let more = files.union_prefer_right(added);
            law_wiring_keeps_files(more, path);
            law_filling_gaps_keeps_files(b, wired(more), round + 1, log, at1 + 1, path);
        }
    }
}

/// The acceptance tests are added to the crate: nothing of it is lost, and all files of the answer
/// are in it.
pub proof fn law_tests_are_added(
    b: BriefView,
    files: Map<Seq<char>, Seq<char>>,
    gherkin: Seq<char>,
    log: Seq<Reply>,
    at: int,
    path: Seq<char>,
)
    requires
        0 <= at < log.len(),
        trimmed(gherkin).len() > 0,
    ensures
        ({
            let r = system_tested(b, files, gherkin, log, at);
            &&& log.len() == at + 1 && log[at] == Reply::Found(None) ==> asks(
                r,
                agent_for(
                    "SystemTestWriter"@,
                    b.skills.system_test_writer@,
                    system_test_task(b.contract, gherkin, files),
                ),
            )
            &&& log[at] is Found && log[at]->Found_0 is Some ==> {
                let more = sections_of(unfenced(log[at]->Found_0->Some_0@));
                &&& r is Ok && r->Ok_0.1 == at + 1
                &&& files.contains_key(path) || more.contains_key(path)
                    <==> r->Ok_0.0.contains_key(path)
                &&& more.contains_key(path) ==> r->Ok_0.0[path] == more[path]
                &&& files.contains_key(path) && !more.contains_key(path) ==> r->Ok_0.0[path]
                    == files[path]
            }
        }),
{
}

/// Whether a crate is written in chunks side by side is decided by how many can write and how large
/// the source is: with one that can, or with at most 100000 bytes, it is planned in milestones.
pub proof fn law_only_large_sources_are_split(
    b: BriefView,
    source: Seq<char>,
    matrix: Seq<char>,
    inductive: Seq<char>,
    gherkin: Seq<char>,
    log: Seq<Reply>,
    at: int,
    degree: usize,
    kept: String,
)
    requires
        0 <= at < log.len(),
        log[at] == Reply::Found(Some(kept)),
        kept_number(Some(kept@)) == Some(degree),
    ensures
        ({
            let r = synthesized(b, source, matrix, inductive, gherkin, log, at);
            if degree == 1 || byte_len(source) <= 100_000 {
                &&& planned(b, full_task(b, matrix, inductive), gherkin, log, at + 1) matches Err(p)
                    ==> r == Err::<(Seq<char>, int), PauseView<EffectView>>(p)
                &&& log.len() == at + 2 && log[at + 1] == Reply::Found(None) ==> asks(
                    r,
                    EffectView::Agentic {
                        agent: "MilestonePlanner"@,
                        system: b.skills.milestone_planner@,
                        task: plan_task(full_task(b, matrix, inductive), b.max_iter),
                        max_turns: 20,
                    },
                )
            } else {
                log.len() == at + 1 ==> asks(
                    r,
                    EffectView::Chunks {
                        chunks: chunk_tasks(b, inductive, chunks_of(source, degree as nat)),
                    },
                )
            }
        }),
{
    reveal_with_fuel(built, 2);
}

/// A document is first written with tools, from its task; after a rejection it is to be patched,
/// against that review. The critic is shown the document, and an approved document is the result.
pub proof fn law_documents_are_patched_after_a_rejection(
    v: Review,
    iteration: nat,
    last: Seq<char>,
    log: Seq<Reply>,
    at: int,
)
    requires
        0 <= at < log.len(),
        iteration < v.max_iter,
    ensures
        log.len() == at + 1 && log[at] == Reply::Found(None) ==> asks(
            reviewed_from(v, iteration, None, last, log, at),
            EffectView::Agentic {
                agent: v.worker_name,
                system: v.worker_system,
                task: v.base_task,
                max_turns: 20,
            },
        ),
        log[at] is Found && log[at]->Found_0 is Some ==> {
            let r = reviewed_from(v, iteration, None, last, log, at);
            let document = log[at]->Found_0->Some_0@;
            &&& log.len() == at + 2 && log[at + 1] == Reply::Found(None) ==> asks(
                r,
                agent_for(
                    v.reviewer_name,
                    v.reviewer_system,
                    "Review this output:\n\n"@ + document,
                ),
            )
            &&& log.len() > at + 1 && log[at + 1] is Found && log[at + 1]->Found_0 is Some ==> {
                let review = log[at + 1]->Found_0->Some_0@;
                if opens_with(review, v.approved_prefix) {
                    r == Ok::<(Seq<char>, int), PauseView<EffectView>>((document, at + 2))
                } else {
                    log.len() == at + 4 && log[at + 2] is Done && log[at + 3] == Reply::Found(None)
                        && iteration + 1 < v.max_iter ==> asks(
                        r,
                        agent_for(
                            v.worker_name,
                            v.worker_system,
                            document_patch_task(
                                v.base_task,
                                document,
                                review,
                                "iteration "@ + decimal(iteration + 1),
                            ),
                        ),
                    )
                }
            }
        },
{
    reveal_with_fuel(reviewed_from, 2);
}

} // verus!
