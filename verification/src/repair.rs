//! How a draft is repaired: by a patch where one applies, else by writing it again; and how a
//! worker and its critics come to an agreement.

use crate::agents::Skills;
use crate::copied::opt_view;
use crate::effects::{
    ask_done, ask_gated, ask_text, checkpoint_name, checkpointed, done_for, gated_for, kept_under,
    law_checkpoints_do_not_collide, recall, recalled, recalls, store, stored, text_for, Effect,
    EffectView, Reply, Work, WorkView,
};
use crate::ids::lemma_number_parts;
use crate::manager::Manager;
use crate::numbers::{decimal, decimal_text};
use crate::patch::{
    apply_patch, format_multi_file_numbered, patched, rendered_numbered, PATCH_FORMAT_INSTRUCTIONS,
};
use crate::quality::{multi_file, sections_of, unfenced};
use crate::sections::listing;
use crate::steps::seen;
use crate::text::{join, joined, texts};
use crate::verdicts::{opens_with, verdict};
use crate::workspace::Workspace;
use vstd::prelude::*;
use vstd::string::StringExecFns;

verus! {

/// The task of patching a draft against the failures of the quality gate.
pub open spec fn patch_task(
    base_task: Seq<char>,
    files: Map<Seq<char>, Seq<char>>,
    errors: Seq<char>,
    label: Seq<char>,
) -> Seq<char> {
    base_task
        + "\n\n# Current Implementation (line numbers shown for reference — not part of the file)\n"@
        + rendered_numbered(listing(files)) + "\n\n# Quality Gate Failures ("@ + label + ")\n"@ + errors
        + "\n\nFix ALL issues above with a minimal patch instead of rewriting the file(s). "@
        + PATCH_FORMAT_INSTRUCTIONS@
}

/// The task of writing a draft again, against the failures of the quality gate.
pub open spec fn rewrite_task(base_task: Seq<char>, errors: Seq<char>, label: Seq<char>) -> Seq<
    char,
> {
    base_task + "\n\n# Quality Gate Failures ("@ + label + ")\n"@ + errors
        + "\n\nFix ALL issues above. The code must compile, pass `clippy -D warnings`, pass all tests, and keep every file ≤500 lines. Return only the complete corrected Rust source."@
}

/// What is recorded of a patch that does not apply.
pub open spec fn patch_failure(label: Seq<char>, reason: Seq<char>) -> Seq<char> {
    "Patch failed to apply ("@ + label + "), fell back to full regeneration:\n"@ + reason
}

/// A draft after an attempt to patch it. Where the patch does not apply, this is recorded and
/// the draft is written again.
pub open spec fn patch_tried(
    worker_name: Seq<char>,
    worker_system: Seq<char>,
    base_task: Seq<char>,
    last_output: Seq<char>,
    errors: Seq<char>,
    label: Seq<char>,
    log: Seq<Reply>,
    at: int,
) -> WorkView<Seq<char>> {
    let files = sections_of(last_output);
    match text_for(
        EffectView::Agent {
            agent: worker_name,
            system: worker_system,
            task: patch_task(base_task, files, errors, label),
            slot: None,
        },
        log,
        at,
    ) {
        Err(p) => Err(p),
        Ok((patch, at)) => match patched(files, unfenced(patch)) {
            Ok(updated) => Ok((multi_file(updated), at)),
            Err(reason) => match done_for(
                EffectView::Deviation { agent: worker_name, text: patch_failure(label, reason) },
                log,
                at,
            ) {
                Err(p) => Err(p),
                Ok((_, at)) => text_for(
                    EffectView::Agent {
                        agent: worker_name,
                        system: worker_system,
                        task: rewrite_task(base_task, errors, label),
                        slot: None,
                    },
                    log,
                    at,
                ),
            },
        },
    }
}

/// What a review is asked of.
pub open spec fn review_task(output: Seq<char>) -> Seq<char> {
    "Review this output:\n\n"@ + output
}

/// What a worker and its two critics are given.
pub struct DualReview {
    pub skills: Skills,
    pub id_prefix: Seq<char>,
    pub worker_name: Seq<char>,
    pub worker_system: Seq<char>,
    pub base_task: Seq<char>,
    pub max_iter: nat,
    pub variant: Option<Seq<char>>,
}

struct Team<'a> {
    skills: &'a Skills,
    id_prefix: &'a str,
    worker_name: &'a str,
    worker_system: &'a str,
    base_task: &'a str,
    max_iter: usize,
    variant: Option<&'a str>,
}

impl View for Team<'_> {
    type V = DualReview;

    closed spec fn view(&self) -> DualReview {
        DualReview {
            skills: *self.skills,
            id_prefix: self.id_prefix@,
            worker_name: self.worker_name@,
            worker_system: self.worker_system@,
            base_task: self.base_task@,
            max_iter: self.max_iter as nat,
            variant: opt_str(self.variant),
        }
    }
}

/// What a worker does next.
pub enum NextCallView {
    /// Answer a task.
    Full(Seq<char>),
    /// Patch the last output against the failures of the quality gate.
    Patch(Seq<char>),
}

enum NextCall {
    Full(String),
    Patch(String),
}

impl View for NextCall {
    type V = NextCallView;

    closed spec fn view(&self) -> NextCallView {
        match self {
            NextCall::Full(task) => NextCallView::Full(task@),
            NextCall::Patch(errors) => NextCallView::Patch(errors@),
        }
    }
}

/// The view of an optional text that is borrowed.
pub open spec fn opt_str(o: Option<&str>) -> Option<Seq<char>> {
    match o {
        Some(s) => Some(s@),
        None => None,
    }
}

/// An owned copy of an optional text.
pub fn owned(o: Option<&str>) -> (r: Option<String>)
    ensures
        opt_view(r) == opt_str(o),
{
    match o {
        Some(s) => Some(s.to_owned()),
        None => None,
    }
}

/// The checkpoint of one agent in one iteration.
pub open spec fn iteration_id(prefix: Seq<char>, iteration: nat, who: Seq<char>) -> Seq<char> {
    prefix + "/iter/"@ + decimal(iteration) + "/"@ + who
}

/// The checkpoint of one agent in one iteration.
pub fn iter_id(prefix: &str, iteration: usize, who: &str) -> (r: String)
    ensures
        r@ == iteration_id(prefix@, iteration as nat, who@),
{
    prefix.to_owned().concat("/iter/").concat(decimal_text(iteration as u64).as_str()).concat(
        "/",
    ).concat(who)
}

/// A worker's output in one iteration, under its checkpoint.
pub open spec fn worked(
    d: DualReview,
    iteration: nat,
    next: NextCallView,
    last: Seq<char>,
    log: Seq<Reply>,
    at: int,
) -> WorkView<Seq<char>> {
    let id = iteration_id(d.id_prefix, iteration, "worker"@);
    match recalled(id, log, at) {
        Err(p) => Err(p),
        Ok((Some(text), at)) => Ok((text, at)),
        Ok((None, at)) => match match next {
            NextCallView::Full(task) => text_for(
                EffectView::Agent {
                    agent: d.worker_name,
                    system: d.worker_system,
                    task,
                    slot: None,
                },
                log,
                at,
            ),
            NextCallView::Patch(errors) => patch_tried(
                d.worker_name,
                d.worker_system,
                d.base_task,
                last,
                errors,
                "iteration "@ + decimal(iteration),
                log,
                at,
            ),
        } {
            Err(p) => Err(p),
            Ok((text, at)) => stored(id, text, log, at),
        },
    }
}

/// What the critics hold against an output; empty where they hold nothing.
pub open spec fn feedback(security: Seq<char>, maintenance: Seq<char>) -> Seq<char> {
    let from_security = if opens_with(security, "COMPLIANT"@) {
        Seq::<Seq<char>>::empty()
    } else {
        seq!["# SecurityReviewer\n"@ + security]
    };
    let from_maintenance = if opens_with(maintenance, "APPROVE"@) {
        Seq::<Seq<char>>::empty()
    } else {
        seq!["# MaintenanceReviewer\n"@ + maintenance]
    };
    joined(from_security + from_maintenance, "\n\n"@)
}

/// The task of the next iteration, with what the critics held against the last one.
pub open spec fn revision_task(base_task: Seq<char>, iteration: nat, feedback: Seq<char>) -> Seq<
    char,
> {
    base_task + "\n\n# Review Feedback (iteration "@ + decimal(iteration) + ")\n"@ + feedback
        + "\n\nAddress all feedback above. Record any new deviations — do not implement them."@
}

/// The agreement from `iteration` on. The quality gate comes first; the critics see only what passes
/// it. What fails the quality gate is patched; what the critics reject is written again.
pub open spec fn agreed_from(
    d: DualReview,
    iteration: nat,
    next: NextCallView,
    last: Seq<char>,
    log: Seq<Reply>,
    at: int,
) -> WorkView<(Seq<char>, bool)>
    decreases d.max_iter - iteration,
{
    if iteration >= d.max_iter {
        Ok(((last, false), at))
    } else {
        match worked(d, iteration, next, last, log, at) {
            Err(p) => Err(p),
            Ok((raw, at)) => match gated_for(
                EffectView::Gate { code: raw, variant: d.variant },
                log,
                at,
            ) {
                Err(p) => Err(p),
                Ok(((clean, errors), at)) => if errors.len() > 0 {
                    match done_for(
                        EffectView::Deviation {
                            agent: d.worker_name,
                            text: "Iteration "@ + decimal(iteration)
                                + " — quality gate failed:\n"@ + errors,
                        },
                        log,
                        at,
                    ) {
                        Err(p) => Err(p),
                        Ok((_, at)) => agreed_from(
                            d,
                            iteration + 1,
                            NextCallView::Patch(errors),
                            clean,
                            log,
                            at,
                        ),
                    }
                } else {
                    match checkpointed(
                        iteration_id(d.id_prefix, iteration, "security"@),
                        EffectView::Agent {
                            agent: "SecurityReviewer"@,
                            system: d.skills.security_reviewer@,
                            task: review_task(clean),
                            slot: None,
                        },
                        log,
                        at,
                    ) {
                        Err(p) => Err(p),
                        Ok((security, at)) => match checkpointed(
                            iteration_id(d.id_prefix, iteration, "maintenance"@),
                            EffectView::Agent {
                                agent: "MaintenanceReviewer"@,
                                system: d.skills.maintenance_reviewer@,
                                task: review_task(clean),
                                slot: None,
                            },
                            log,
                            at,
                        ) {
                            Err(p) => Err(p),
                            Ok((maintenance, at)) => if opens_with(security, "COMPLIANT"@)
                                && opens_with(maintenance, "APPROVE"@) {
                                Ok(((clean, true), at))
                            } else {
                                let held = feedback(security, maintenance);
                                match done_for(
                                    EffectView::Deviation {
                                        agent: d.worker_name,
                                        text: "Iteration "@ + decimal(iteration)
                                            + " — LLM review rejected:\n"@ + held,
                                    },
                                    log,
                                    at,
                                ) {
                                    Err(p) => Err(p),
                                    Ok((_, at)) => agreed_from(
                                        d,
                                        iteration + 1,
                                        NextCallView::Full(
                                            revision_task(d.base_task, iteration, held),
                                        ),
                                        clean,
                                        log,
                                        at,
                                    ),
                                }
                            },
                        },
                    }
                },
            },
        }
    }
}

/// What a worker and its critics come to: the last output, and whether it passed.
pub open spec fn agreed(d: DualReview, log: Seq<Reply>, at: int) -> WorkView<(Seq<char>, bool)> {
    agreed_from(d, 0, NextCallView::Full(d.base_task), Seq::empty(), log, at)
}

fn work(
    d: &Team,
    iteration: usize,
    next: &NextCall,
    last: &str,
    log: &[Reply],
    at: usize,
) -> (r: Work<String>)
    ensures
        seen(r) == worked(d@, iteration as nat, next@, last@, log@, at as int),
{
    let id = iter_id(d.id_prefix, iteration, "worker");
    let (kept, at) = recall(id.as_str(), log, at)?;
    if let Some(text) = kept {
        return Ok((text, at));
    }
    let (text, at) = match next {
        NextCall::Full(task) => ask_text(
            Effect::Agent {
                agent: d.worker_name.to_owned(),
                system: d.worker_system.to_owned(),
                task: task.clone(),
                slot: None,
            },
            log,
            at,
        ),
        NextCall::Patch(errors) => Manager::try_patch(
            d.worker_name,
            d.worker_system,
            d.base_task,
            last,
            errors.as_str(),
            "iteration ".to_owned().concat(decimal_text(iteration as u64).as_str()).as_str(),
            log,
            at,
        ),
    }?;
    store(id.as_str(), text, log, at)
}

fn gather(security: &str, maintenance: &str) -> (r: String)
    ensures
        r@ == feedback(security@, maintenance@),
{
    let mut parts: Vec<String> = Vec::new();
    let ghost mut expected = Seq::<Seq<char>>::empty();
    if !verdict(security, "COMPLIANT") {
        parts.push("# SecurityReviewer\n".to_owned().concat(security));
        proof {
            expected = seq!["# SecurityReviewer\n"@ + security@];
        }
    }
    assert(texts(parts@) =~= expected);
    if !verdict(maintenance, "APPROVE") {
        let ghost had = parts@;
        parts.push("# MaintenanceReviewer\n".to_owned().concat(maintenance));
        assert(texts(parts@) =~= texts(had) + seq!["# MaintenanceReviewer\n"@ + maintenance@]);
    } else {
        assert(expected + Seq::<Seq<char>>::empty() =~= expected);
    }
    join(parts.as_slice(), "\n\n")
}

impl Manager {
    /// Asks for a minimal patch against `last_output` and applies it. Where it does not apply,
    /// this is recorded as a deviation and the draft is written again, so a bad patch neither
    /// spoils a file nor stalls the work.
    pub fn try_patch(
        worker_name: &str,
        worker_system: &str,
        base_task: &str,
        last_output: &str,
        quality_errors: &str,
        label: &str,
        log: &[Reply],
        at: usize,
    ) -> (r: Work<String>)
        ensures
            seen(r) == patch_tried(
                worker_name@,
                worker_system@,
                base_task@,
                last_output@,
                quality_errors@,
                label@,
                log@,
                at as int,
            ),
    {
        let sections = Self::parse_file_sections(last_output);
        let task = base_task.to_owned().concat(
            "\n\n# Current Implementation (line numbers shown for reference — not part of the file)\n",
        ).concat(format_multi_file_numbered(&sections).as_str()).concat(
            "\n\n# Quality Gate Failures (",
        ).concat(label).concat(")\n").concat(quality_errors).concat(
            "\n\nFix ALL issues above with a minimal patch instead of rewriting the file(s). ",
        ).concat(PATCH_FORMAT_INSTRUCTIONS);
        let (patch, at) = ask_text(
            Effect::Agent {
                agent: worker_name.to_owned(),
                system: worker_system.to_owned(),
                task,
                slot: None,
            },
            log,
            at,
        )?;
        match apply_patch(&sections, Self::strip_fences(patch.as_str()).as_str()) {
            Ok(updated) => Ok((Self::format_multi_file(&updated), at)),
            Err(reason) => {
                let (_, at) = ask_done(
                    Effect::Deviation {
                        agent: worker_name.to_owned(),
                        text: "Patch failed to apply (".to_owned().concat(label).concat(
                            "), fell back to full regeneration:\n",
                        ).concat(reason.as_str()),
                    },
                    log,
                    at,
                )?;
                let task = base_task.to_owned().concat("\n\n# Quality Gate Failures (").concat(
                    label,
                ).concat(")\n").concat(quality_errors).concat(
                    "\n\nFix ALL issues above. The code must compile, pass `clippy -D warnings`, pass all tests, and keep every file ≤500 lines. Return only the complete corrected Rust source.",
                );
                ask_text(
                    Effect::Agent {
                        agent: worker_name.to_owned(),
                        system: worker_system.to_owned(),
                        task,
                        slot: None,
                    },
                    log,
                    at,
                )
            },
        }
    }

    /// Lets a worker and its critics come to an agreement, in at most `max_iter` iterations.
    /// Returns the last output and whether it passed the quality gate and both reviews, so that a
    /// caller can tell what is done from what was given up on.
    pub fn run_with_dual_review(
        skills: &Skills,
        id_prefix: &str,
        worker_name: &str,
        worker_system: &str,
        base_task: &str,
        max_iter: usize,
        variant: Option<&str>,
        log: &[Reply],
        at: usize,
    ) -> (r: Work<(String, bool)>)
        ensures
            seen(r) == agreed(
                (DualReview {
                    skills: *skills,
                    id_prefix: id_prefix@,
                    worker_name: worker_name@,
                    worker_system: worker_system@,
                    base_task: base_task@,
                    max_iter: max_iter as nat,
                    variant: opt_str(variant),
                }),
                log@,
                at as int,
            ),
    {
        let d = Team {
            skills,
            id_prefix,
            worker_name,
            worker_system,
            base_task,
            max_iter,
            variant,
        };
        let mut next = NextCall::Full(base_task.to_owned());
        let mut last = String::new();
        let mut now: usize = at;
        let mut iteration: usize = 0;
        assert(last@ =~= Seq::<char>::empty());
        while iteration < max_iter
            invariant
                iteration <= max_iter,
                d@ == (DualReview {
                    skills: *skills,
                    id_prefix: id_prefix@,
                    worker_name: worker_name@,
                    worker_system: worker_system@,
                    base_task: base_task@,
                    max_iter: max_iter as nat,
                    variant: opt_str(variant),
                }),
                agreed_from(d@, iteration as nat, next@, last@, log@, now as int) == agreed(
                    d@,
                    log@,
                    at as int,
                ),
            decreases max_iter - iteration,
        {
            let (raw, at1) = work(&d, iteration, &next, last.as_str(), log, now)?;
            let ((clean, errors), at2) = ask_gated(
                Effect::Gate { code: raw, variant: owned(variant) },
                log,
                at1,
            )?;
            if !errors.as_str().is_empty() {
                let (_, at3) = ask_done(
                    Effect::Deviation {
                        agent: worker_name.to_owned(),
                        text: "Iteration ".to_owned().concat(
                            decimal_text(iteration as u64).as_str(),
                        ).concat(" — quality gate failed:\n").concat(errors.as_str()),
                    },
                    log,
                    at2,
                )?;
                now = at3;
                next = NextCall::Patch(errors);
                last = clean;
                iteration += 1;
                continue ;
            }
            let (security, at3) = Workspace::checkpoint(
                iter_id(id_prefix, iteration, "security").as_str(),
                Effect::Agent {
                    agent: "SecurityReviewer".to_owned(),
                    system: skills.security_reviewer.clone(),
                    task: "Review this output:\n\n".to_owned().concat(clean.as_str()),
                    slot: None,
                },
                log,
                at2,
            )?;
            let (maintenance, at4) = Workspace::checkpoint(
                iter_id(id_prefix, iteration, "maintenance").as_str(),
                Effect::Agent {
                    agent: "MaintenanceReviewer".to_owned(),
                    system: skills.maintenance_reviewer.clone(),
                    task: "Review this output:\n\n".to_owned().concat(clean.as_str()),
                    slot: None,
                },
                log,
                at3,
            )?;
            if verdict(security.as_str(), "COMPLIANT") && verdict(maintenance.as_str(), "APPROVE") {
                return Ok(((clean, true), at4));
            }
            let held = gather(security.as_str(), maintenance.as_str());
            let (_, at5) = ask_done(
                Effect::Deviation {
                    agent: worker_name.to_owned(),
                    text: "Iteration ".to_owned().concat(
                        decimal_text(iteration as u64).as_str(),
                    ).concat(" — LLM review rejected:\n").concat(held.as_str()),
                },
                log,
                at4,
            )?;
            now = at5;
            next = NextCall::Full(
                base_task.to_owned().concat("\n\n# Review Feedback (iteration ").concat(
                    decimal_text(iteration as u64).as_str(),
                ).concat(")\n").concat(held.as_str()).concat(
                    "\n\nAddress all feedback above. Record any new deviations — do not implement them.",
                ),
            );
            last = clean;
            iteration += 1;
        }
        Ok(((last, false), now))
    }
}

/// What an answer says: an agent's words, given now or kept under a checkpoint.
pub open spec fn said(reply: Reply) -> Option<Seq<char>> {
    match reply {
        Reply::Text(text) => Some(text@),
        Reply::Found(Some(text)) => Some(text@),
        _ => None,
    }
}

/// An answer under a checkpoint is one of the answers given, and takes at most three of them.
pub proof fn lemma_checkpointed(id: Seq<char>, e: EffectView, log: Seq<Reply>, at: int)
    requires
        0 <= at,
    ensures
        checkpointed(id, e, log, at) matches Ok((text, end)) ==> {
            &&& at < end <= at + 3
            &&& end <= log.len()
            &&& exists|i: int| at <= i < end && #[trigger] said(log[i]) == Some(text)
        },
{
    if let Ok((text, end)) = checkpointed(id, e, log, at) {
        if said(log[at]) == Some(text) {
        } else {
            assert(said(log[at + 1]) == Some(text));
        }
    }
}

proof fn lemma_worked(
    d: DualReview,
    iteration: nat,
    next: NextCallView,
    last: Seq<char>,
    log: Seq<Reply>,
    at: int,
)
    requires
        0 <= at,
    ensures
        worked(d, iteration, next, last, log, at) matches Ok((_, end)) ==> at < end <= at + 5 && end
            <= log.len(),
{
}

/// A patch that does not apply is never used: what comes of an attempt to patch is either the
/// patched files or what the worker wrote instead.
pub proof fn law_a_bad_patch_is_never_used(
    worker_name: Seq<char>,
    worker_system: Seq<char>,
    base_task: Seq<char>,
    last_output: Seq<char>,
    errors: Seq<char>,
    label: Seq<char>,
    log: Seq<Reply>,
    at: int,
)
    requires
        0 <= at,
    ensures
        patch_tried(worker_name, worker_system, base_task, last_output, errors, label, log, at) matches Ok(
            (text, end),
        ) ==> {
            ||| end == at + 1 && log[at] is Text && (patched(
                sections_of(last_output),
                unfenced(log[at]->Text_0@),
            ) matches Ok(updated) && text == multi_file(updated))
            ||| end == at + 3 && log[at] is Text && patched(
                sections_of(last_output),
                unfenced(log[at]->Text_0@),
            ) is Err && log[at + 2] is Text && text == log[at + 2]->Text_0@
        },
{
}

/// Whether the answers from `at` to `end` hold the approval of `code`: the quality gate formatted it
/// so and found nothing wrong with it, and after that both critics approved.
pub open spec fn approved_in(code: Seq<char>, log: Seq<Reply>, at: int, end: int) -> bool {
    exists|g: int, s: int, m: int|
        {
            &&& at <= g < s < m < end <= log.len()
            &&& #[trigger] log[g] is Gated
            &&& log[g]->clean@ == code
            &&& log[g]->errors@.len() == 0
            &&& #[trigger] said(log[s]) is Some
            &&& opens_with(said(log[s])->Some_0, "COMPLIANT"@)
            &&& #[trigger] said(log[m]) is Some
            &&& opens_with(said(log[m])->Some_0, "APPROVE"@)
        }
}

/// What is said to have passed has passed: the quality gate found nothing wrong with exactly this
/// output, and then both critics approved. And an agreement takes at most 13 answers for
/// each iteration.
pub proof fn law_passing_means_approval(
    d: DualReview,
    iteration: nat,
    next: NextCallView,
    last: Seq<char>,
    log: Seq<Reply>,
    at: int,
)
    requires
        0 <= at <= log.len(),
        iteration <= d.max_iter,
    ensures
        agreed_from(d, iteration, next, last, log, at) matches Ok(((code, passed), end)) ==> {
            &&& at <= end <= log.len()
            &&& end <= at + 13 * (d.max_iter - iteration)
            &&& passed ==> approved_in(code, log, at, end)
        },
    decreases d.max_iter - iteration,
{
    if agreed_from(d, iteration, next, last, log, at) is Ok && iteration < d.max_iter {
        lemma_worked(d, iteration, next, last, log, at);
        let (raw, at1) = worked(d, iteration, next, last, log, at)->Ok_0;
        let gate = EffectView::Gate { code: raw, variant: d.variant };
        let ((clean, errors), at2) = gated_for(gate, log, at1)->Ok_0;
        if errors.len() > 0 {
            law_passing_means_approval(
                d,
                iteration + 1,
                NextCallView::Patch(errors),
                clean,
                log,
                at2 + 1,
            );
        } else {
            let security_id = iteration_id(d.id_prefix, iteration, "security"@);
            let security_ask = EffectView::Agent {
                agent: "SecurityReviewer"@,
                system: d.skills.security_reviewer@,
                task: review_task(clean),
                slot: None,
            };
            let maintenance_id = iteration_id(d.id_prefix, iteration, "maintenance"@);
            let maintenance_ask = EffectView::Agent {
                agent: "MaintenanceReviewer"@,
                system: d.skills.maintenance_reviewer@,
                task: review_task(clean),
                slot: None,
            };
            lemma_checkpointed(security_id, security_ask, log, at2);
            let (security, at3) = checkpointed(security_id, security_ask, log, at2)->Ok_0;
            lemma_checkpointed(maintenance_id, maintenance_ask, log, at3);
            let (maintenance, at4) = checkpointed(maintenance_id, maintenance_ask, log, at3)->Ok_0;
            let s = choose|s: int| at2 <= s < at3 && #[trigger] said(log[s]) == Some(security);
            let m = choose|m: int| at3 <= m < at4 && #[trigger] said(log[m]) == Some(maintenance);
            if opens_with(security, "COMPLIANT"@) && opens_with(maintenance, "APPROVE"@) {
                assert(log[at1] is Gated);
                assert(approved_in(clean, log, at, at4));
            } else {
                let held = feedback(security, maintenance);
                law_passing_means_approval(
                    d,
                    iteration + 1,
                    NextCallView::Full(revision_task(d.base_task, iteration, held)),
                    clean,
                    log,
                    at4 + 1,
                );
            }
        }
    }
}

proof fn lemma_iteration_is_under(prefix: Seq<char>, iteration: nat, who: Seq<char>)
    ensures
        kept_under(prefix, checkpoint_name(iteration_id(prefix, iteration, who))),
{
    reveal_strlit("/iter/");
    reveal_strlit("/");
    let x = "iter/"@ + decimal(iteration) + "/"@ + who;
    reveal_strlit("iter/");
    assert(iteration_id(prefix, iteration, who) =~= prefix + "/"@ + x);
}

/// A worker and its critics recall only what is kept under their own prefix.
pub proof fn lemma_agreed_recalls(
    d: DualReview,
    iteration: nat,
    next: NextCallView,
    last: Seq<char>,
    log: Seq<Reply>,
    at: int,
)
    ensures
        recalls(agreed_from(d, iteration, next, last, log, at)) matches Some(name) ==> kept_under(
            d.id_prefix,
            name,
        ),
    decreases d.max_iter - iteration,
{
    if iteration < d.max_iter {
        lemma_iteration_is_under(d.id_prefix, iteration, "worker"@);
        lemma_iteration_is_under(d.id_prefix, iteration, "security"@);
        lemma_iteration_is_under(d.id_prefix, iteration, "maintenance"@);
        if let Ok((raw, at1)) = worked(d, iteration, next, last, log, at) {
            if let Ok(((clean, errors), at2)) = gated_for(
                EffectView::Gate { code: raw, variant: d.variant },
                log,
                at1,
            ) {
                lemma_agreed_recalls(
                    d,
                    iteration + 1,
                    NextCallView::Patch(errors),
                    clean,
                    log,
                    at2 + 1,
                );
                let security = checkpointed(
                    iteration_id(d.id_prefix, iteration, "security"@),
                    EffectView::Agent {
                        agent: "SecurityReviewer"@,
                        system: d.skills.security_reviewer@,
                        task: review_task(clean),
                        slot: None,
                    },
                    log,
                    at2,
                );
                if let Ok((first, at3)) = security {
                    let maintenance = checkpointed(
                        iteration_id(d.id_prefix, iteration, "maintenance"@),
                        EffectView::Agent {
                            agent: "MaintenanceReviewer"@,
                            system: d.skills.maintenance_reviewer@,
                            task: review_task(clean),
                            slot: None,
                        },
                        log,
                        at3,
                    );
                    if let Ok((second, at4)) = maintenance {
                        lemma_agreed_recalls(
                            d,
                            iteration + 1,
                            NextCallView::Full(
                                revision_task(d.base_task, iteration, feedback(first, second)),
                            ),
                            clean,
                            log,
                            at4 + 1,
                        );
                    }
                }
            }
        }
    }
}

/// Each agent of each iteration has a checkpoint of its own.
proof fn lemma_iterations_differ(prefix: Seq<char>, i: nat, who: Seq<char>, j: nat, other: Seq<char>)
    requires
        i != j,
    ensures
        checkpoint_name(iteration_id(prefix, i, who)) != checkpoint_name(
            iteration_id(prefix, j, other),
        ),
{
    reveal_strlit("/");
    let a = iteration_id(prefix, i, who);
    let b = iteration_id(prefix, j, other);
    let head = prefix + "/iter/"@;
    assert(a =~= head + decimal(i) + ("/"@ + who));
    assert(b =~= head + decimal(j) + ("/"@ + other));
    if a == b {
        lemma_number_parts(head, i, "/"@ + who, j, "/"@ + other);
    }
    law_checkpoints_do_not_collide(a, b);
}

/// No iteration is gone through twice: from one on, nothing of an earlier one is recalled.
pub proof fn law_iterations_are_asked_for_once(
    d: DualReview,
    iteration: nat,
    next: NextCallView,
    last: Seq<char>,
    log: Seq<Reply>,
    at: int,
    earlier: nat,
    who: Seq<char>,
)
    requires
        earlier < iteration,
    ensures
        recalls(agreed_from(d, iteration, next, last, log, at)) != Some(
            checkpoint_name(iteration_id(d.id_prefix, earlier, who)),
        ),
    decreases d.max_iter - iteration,
{
    if iteration < d.max_iter {
        lemma_iterations_differ(d.id_prefix, iteration, "worker"@, earlier, who);
        lemma_iterations_differ(d.id_prefix, iteration, "security"@, earlier, who);
        lemma_iterations_differ(d.id_prefix, iteration, "maintenance"@, earlier, who);
        if let Ok((raw, at1)) = worked(d, iteration, next, last, log, at) {
            if let Ok(((clean, errors), at2)) = gated_for(
                EffectView::Gate { code: raw, variant: d.variant },
                log,
                at1,
            ) {
                law_iterations_are_asked_for_once(
                    d,
                    iteration + 1,
                    NextCallView::Patch(errors),
                    clean,
                    log,
                    at2 + 1,
                    earlier,
                    who,
                );
                let security = checkpointed(
                    iteration_id(d.id_prefix, iteration, "security"@),
                    EffectView::Agent {
                        agent: "SecurityReviewer"@,
                        system: d.skills.security_reviewer@,
                        task: review_task(clean),
                        slot: None,
                    },
                    log,
                    at2,
                );
                if let Ok((first, at3)) = security {
                    let maintenance = checkpointed(
                        iteration_id(d.id_prefix, iteration, "maintenance"@),
                        EffectView::Agent {
                            agent: "MaintenanceReviewer"@,
                            system: d.skills.maintenance_reviewer@,
                            task: review_task(clean),
                            slot: None,
                        },
                        log,
                        at3,
                    );
                    if let Ok((second, at4)) = maintenance {
                        law_iterations_are_asked_for_once(
                            d,
                            iteration + 1,
                            NextCallView::Full(
                                revision_task(d.base_task, iteration, feedback(first, second)),
                            ),
                            clean,
                            log,
                            at4 + 1,
                            earlier,
                            who,
                        );
                    }
                }
            }
        }
    }
}

} // verus!
