//! How a document is written under review: by a worker that revises it until one critic
//! approves or the iterations run out.

use crate::building::AGENTIC_MAX_TURNS;
use crate::effects::{
    ask_done, ask_text, checkpointed, done_for, recall, recalled, store, stored, text_for, Effect,
    EffectView, Reply, Work, WorkView,
};
use crate::manager::Manager;
use crate::numbers::{decimal, decimal_text};
use crate::patch::{
    apply_patch, diff_applied, diffs_applied, diffs_of, format_multi_file_numbered, patched,
    rendered_numbered, FileDiffView, PATCH_FORMAT_INSTRUCTIONS,
};
use crate::quality::unfenced;
use crate::repair::{iter_id, iteration_id, patch_failure, review_task};
use crate::sections::{listing, Sections};
use crate::steps::{seen, PauseView};
use crate::text::opt;
use crate::verdicts::{opens_with, verdict};
use crate::workspace::Workspace;
use vstd::prelude::*;
use vstd::string::StringExecFns;

verus! {

/// A document as the one file of a draft.
pub open spec fn as_file(document: Seq<char>) -> Map<Seq<char>, Seq<char>> {
    Map::empty().insert("document"@, document)
}

/// The task of patching a document against a review.
pub open spec fn document_patch_task(
    base_task: Seq<char>,
    document: Seq<char>,
    review: Seq<char>,
    label: Seq<char>,
) -> Seq<char> {
    base_task
        + "\n\n# Current Output (line numbers shown for reference — not part of the document)\n"@
        + rendered_numbered(listing(as_file(document))) + "\n\n# Review Feedback ("@ + label + ")\n"@
        + review
        + "\n\nAddress the feedback above with a minimal patch instead of rewriting the whole document. "@
        + PATCH_FORMAT_INSTRUCTIONS@
}

/// The task of writing a document again, against a review.
pub open spec fn document_rewrite_task(
    base_task: Seq<char>,
    review: Seq<char>,
    label: Seq<char>,
) -> Seq<char> {
    base_task + "\n\n# Previous Review Feedback ("@ + label + ")\n"@ + review
        + "\n\nAddress the feedback above. Record any new deviations you observe — do not implement them."@
}

/// A document after an attempt to patch it. Where the patch does not apply, this is recorded
/// and the document is written again.
pub open spec fn document_patched(
    worker_name: Seq<char>,
    worker_system: Seq<char>,
    base_task: Seq<char>,
    document: Seq<char>,
    review: Seq<char>,
    label: Seq<char>,
    log: Seq<Reply>,
    at: int,
) -> WorkView<Seq<char>> {
    match text_for(
        EffectView::Agent {
            agent: worker_name,
            system: worker_system,
            task: document_patch_task(base_task, document, review, label),
            slot: None,
        },
        log,
        at,
    ) {
        Err(p) => Err(p),
        Ok((patch, at)) => match patched(as_file(document), unfenced(patch)) {
            Ok(updated) => Ok((updated["document"@], at)),
            Err(reason) => match done_for(
                EffectView::Deviation { agent: worker_name, text: patch_failure(label, reason) },
                log,
                at,
            ) {
                Err(p) => Err(p),
                Ok((_, at)) => text_for(
                    EffectView::Agent {
                        agent: worker_name,
                        system: worker_system,
                        task: document_rewrite_task(base_task, review, label),
                        slot: None,
                    },
                    log,
                    at,
                ),
            },
        },
    }
}

/// What a worker and its critic are given.
pub struct Review {
    pub worker_name: Seq<char>,
    pub worker_system: Seq<char>,
    pub reviewer_name: Seq<char>,
    pub reviewer_system: Seq<char>,
    pub base_task: Seq<char>,
    pub approved_prefix: Seq<char>,
    pub max_iter: nat,
}

/// A worker's document in one iteration, under its checkpoint: written with tools at first,
/// patched after a review.
pub open spec fn drafted(
    v: Review,
    iteration: nat,
    feedback: Option<Seq<char>>,
    last: Seq<char>,
    log: Seq<Reply>,
    at: int,
) -> WorkView<Seq<char>> {
    let id = iteration_id(v.worker_name, iteration, "worker"@);
    match recalled(id, log, at) {
        Err(p) => Err(p),
        Ok((Some(text), at)) => Ok((text, at)),
        Ok((None, at)) => match match feedback {
            None => text_for(
                EffectView::Agentic {
                    agent: v.worker_name,
                    system: v.worker_system,
                    task: v.base_task,
                    max_turns: AGENTIC_MAX_TURNS as int,
                },
                log,
                at,
            ),
            Some(review) => document_patched(
                v.worker_name,
                v.worker_system,
                v.base_task,
                last,
                review,
                "iteration "@ + decimal(iteration),
                log,
                at,
            ),
        } {
            Err(p) => Err(p),
            Ok((text, at)) => stored(id, text, log, at),
        },
    }
}

/// The question for a review of `document`.
pub open spec fn review_question(v: Review, document: Seq<char>) -> EffectView {
    EffectView::Agent {
        agent: v.reviewer_name,
        system: v.reviewer_system,
        task: review_task(document),
        slot: None,
    }
}

/// The document from `iteration` on: the first that is approved, or the last one.
pub open spec fn reviewed_from(
    v: Review,
    iteration: nat,
    feedback: Option<Seq<char>>,
    last: Seq<char>,
    log: Seq<Reply>,
    at: int,
) -> WorkView<Seq<char>>
    decreases v.max_iter - iteration,
{
    if iteration >= v.max_iter {
        match done_for(
            EffectView::Decision {
                agent: v.reviewer_name,
                text: "max iterations reached — accepting last output"@,
            },
            log,
            at,
        ) {
            Err(p) => Err(p),
            Ok((_, at)) => Ok((last, at)),
        }
    } else {
        match drafted(v, iteration, feedback, last, log, at) {
            Err(p) => Err(p),
            Ok((document, at)) => match checkpointed(
                iteration_id(v.worker_name, iteration, "review"@),
                review_question(v, document),
                log,
                at,
            ) {
                Err(p) => Err(p),
                Ok((review, at)) => if opens_with(review, v.approved_prefix) {
                    Ok((document, at))
                } else {
                    match done_for(
                        EffectView::Deviation {
                            agent: v.reviewer_name,
                            text: "Iteration "@ + decimal(iteration)
                                + " rejection (continuing as planned):\n"@ + review,
                        },
                        log,
                        at,
                    ) {
                        Err(p) => Err(p),
                        Ok((_, at)) => reviewed_from(
                            v,
                            iteration + 1,
                            Some(review),
                            document,
                            log,
                            at,
                        ),
                    }
                },
            },
        }
    }
}

proof fn lemma_files_are_kept(
    files: Map<Seq<char>, Seq<char>>,
    diffs: Seq<FileDiffView>,
    path: Seq<char>,
)
    requires
        diffs_applied(files, diffs) is Ok,
        files.dom().contains(path),
    ensures
        diffs_applied(files, diffs)->Ok_0.dom().contains(path),
    decreases diffs.len(),
{
    if diffs.len() > 0 {
        let next = diff_applied(files, diffs[0])->Ok_0;
        lemma_files_are_kept(next, diffs.skip(1), path);
    }
}

impl Manager {
    /// Asks for a minimal patch of a document and applies it. Where it does not apply, this is
    /// recorded as a deviation and the document is written again.
    pub fn try_patch_document(
        worker_name: &str,
        worker_system: &str,
        base_task: &str,
        last_output: &str,
        review_feedback: &str,
        label: &str,
        log: &[Reply],
        at: usize,
    ) -> (r: Work<String>)
        ensures
            seen(r) == document_patched(
                worker_name@,
                worker_system@,
                base_task@,
                last_output@,
                review_feedback@,
                label@,
                log@,
                at as int,
            ),
    {
        let mut sections = Sections::new();
        sections.insert("document".to_owned(), last_output.to_owned());
        let task = base_task.to_owned().concat(
            "\n\n# Current Output (line numbers shown for reference — not part of the document)\n",
        ).concat(format_multi_file_numbered(&sections).as_str()).concat(
            "\n\n# Review Feedback (",
        ).concat(label).concat(")\n").concat(review_feedback).concat(
            "\n\nAddress the feedback above with a minimal patch instead of rewriting the whole document. ",
        ).concat(PATCH_FORMAT_INSTRUCTIONS);
        let (patch, at) = ask_text(
            Effect::Agent {
                agent: worker_name.to_owned(),
                system: worker_system.to_owned(),
                task,
                slot: None,
            },
            log,
            at,
        )?;
        let text = Self::strip_fences(patch.as_str());
        match apply_patch(&sections, text.as_str()) {
            Ok(updated) => {
                proof {
                    let diffs = diffs_of(text@)->Ok_0;
                    lemma_files_are_kept(as_file(last_output@), diffs, "document"@);
                }
                match updated.get("document") {
                    Some(document) => Ok((document.clone(), at)),
                    None => Ok((String::new(), at)),
                }
            },
            Err(reason) => {
                let (_, at) = ask_done(
                    Effect::Deviation {
                        agent: worker_name.to_owned(),
                        text: "Patch failed to apply (".to_owned().concat(label).concat(
                            "), fell back to full regeneration:\n",
                        ).concat(reason.as_str()),
                    },
                    log,
                    at,
                )?;
                let task = base_task.to_owned().concat("\n\n# Previous Review Feedback (").concat(
                    label,
                ).concat(")\n").concat(review_feedback).concat(
                    "\n\nAddress the feedback above. Record any new deviations you observe — do not implement them.",
                );
                ask_text(
                    Effect::Agent {
                        agent: worker_name.to_owned(),
                        system: worker_system.to_owned(),
                        task,
                        slot: None,
                    },
                    log,
                    at,
                )
            },
        }
    }

    /// Lets a worker write a document and a critic look at it, in at most `max_iter`
    /// iterations. Each iteration is kept under checkpoints of its own.
    pub fn run_with_review(
        worker_name: &str,
        worker_system: &str,
        reviewer_name: &str,
        reviewer_system: &str,
        base_task: &str,
        approved_prefix: &str,
        max_iter: usize,
        log: &[Reply],
        at: usize,
    ) -> (r: Work<String>)
        ensures
            seen(r) == reviewed_from(
                (Review {
                    worker_name: worker_name@,
                    worker_system: worker_system@,
                    reviewer_name: reviewer_name@,
                    reviewer_system: reviewer_system@,
                    base_task: base_task@,
                    approved_prefix: approved_prefix@,
                    max_iter: max_iter as nat,
                }),
                0,
                None,
                Seq::empty(),
                log@,
                at as int,
            ),
    {
        let ghost v = Review {
            worker_name: worker_name@,
            worker_system: worker_system@,
            reviewer_name: reviewer_name@,
            reviewer_system: reviewer_system@,
            base_task: base_task@,
            approved_prefix: approved_prefix@,
            max_iter: max_iter as nat,
        };
        let mut feedback: Option<String> = None;
        let mut last = String::new();
        let mut now: usize = at;
        let mut iteration: usize = 0;
        assert(last@ =~= Seq::<char>::empty());
        while iteration < max_iter
            invariant
                iteration <= max_iter,
                v == (Review {
                    worker_name: worker_name@,
                    worker_system: worker_system@,
                    reviewer_name: reviewer_name@,
                    reviewer_system: reviewer_system@,
                    base_task: base_task@,
                    approved_prefix: approved_prefix@,
                    max_iter: max_iter as nat,
                }),
                reviewed_from(v, iteration as nat, opt(feedback), last@, log@, now as int)
                    == reviewed_from(v, 0, None, Seq::empty(), log@, at as int),
            decreases max_iter - iteration,
        {
            let id = iter_id(worker_name, iteration, "worker");
            let (kept, at1) = recall(id.as_str(), log, now)?;
            let (document, at2) = match kept {
                Some(text) => (text, at1),
                None => {
                    let (text, at2) = match &feedback {
                        None => ask_text(
                            Effect::Agentic {
                                agent: worker_name.to_owned(),
                                system: worker_system.to_owned(),
                                task: base_task.to_owned(),
                                max_turns: AGENTIC_MAX_TURNS,
                            },
                            log,
                            at1,
                        ),
                        Some(review) => Self::try_patch_document(
                            worker_name,
                            worker_system,
                            base_task,
                            last.as_str(),
                            review.as_str(),
                            "iteration ".to_owned().concat(
                                decimal_text(iteration as u64).as_str(),
                            ).as_str(),
                            log,
                            at1,
                        ),
                    }?;
                    store(id.as_str(), text, log, at2)?
                },
            };
            let (review, at3) = Workspace::checkpoint(
                iter_id(worker_name, iteration, "review").as_str(),
                Effect::Agent {
                    agent: reviewer_name.to_owned(),
                    system: reviewer_system.to_owned(),
                    task: "Review this output:\n\n".to_owned().concat(document.as_str()),
                    slot: None,
                },
                log,
                at2,
            )?;
            if verdict(review.as_str(), approved_prefix) {
                return Ok((document, at3));
            }
            let (_, at4) = ask_done(
                Effect::Deviation {
                    agent: reviewer_name.to_owned(),
                    text: "Iteration ".to_owned().concat(
                        decimal_text(iteration as u64).as_str(),
                    ).concat(" rejection (continuing as planned):\n").concat(review.as_str()),
                },
                log,
                at3,
            )?;
            feedback = Some(review);
            last = document;
            now = at4;
            iteration += 1;
        }
        let (_, now) = ask_done(
            Effect::Decision {
                agent: reviewer_name.to_owned(),
                text: "max iterations reached — accepting last output".to_owned(),
            },
            log,
            now,
        )?;
        Ok((last, now))
    }
}

/// Whether the answers hold a review of exactly `document` that approves of it.
pub open spec fn approved(v: Review, document: Seq<char>, log: Seq<Reply>) -> bool {
    exists|iteration: nat, start: int|
        #[trigger] checkpointed(
            iteration_id(v.worker_name, iteration, "review"@),
            review_question(v, document),
            log,
            start,
        ) matches Ok((review, _)) && opens_with(review, v.approved_prefix)
}

/// A document is either one that the critic approved of as it is, or what was there when the
/// iterations ran out, which is then recorded.
pub proof fn law_documents_are_approved_or_recorded(
    v: Review,
    iteration: nat,
    feedback: Option<Seq<char>>,
    last: Seq<char>,
    log: Seq<Reply>,
    at: int,
)
    requires
        iteration <= v.max_iter,
    ensures
        reviewed_from(v, iteration, feedback, last, log, at) matches Ok((document, end)) ==> {
            ||| approved(v, document, log)
            ||| 1 <= end <= log.len() && log[end - 1] is Done && reviewed_from(
                v,
                iteration,
                feedback,
                last,
                log.take(end - 1),
                at,
            ) == Err::<(Seq<char>, int), PauseView<EffectView>>(
                PauseView::Ask(
                    EffectView::Decision {
                        agent: v.reviewer_name,
                        text: "max iterations reached — accepting last output"@,
                    },
                ),
            )
        },
    decreases v.max_iter - iteration,
{
    if reviewed_from(v, iteration, feedback, last, log, at) is Ok {
        let end = reviewed_from(v, iteration, feedback, last, log, at)->Ok_0.1;
        if iteration < v.max_iter {
            let (document, at1) = drafted(v, iteration, feedback, last, log, at)->Ok_0;
            let id = iteration_id(v.worker_name, iteration, "review"@);
            let ask = review_question(v, document);
            let (review, at2) = checkpointed(id, ask, log, at1)->Ok_0;
            if !opens_with(review, v.approved_prefix) {
                law_documents_are_approved_or_recorded(
                    v,
                    iteration + 1,
                    Some(review),
                    document,
                    log,
                    at2 + 1,
                );
                lemma_reviewed_end(v, iteration + 1, Some(review), document, log, at2 + 1);
                let less = log.take(end - 1);
                assert(drafted(v, iteration, feedback, last, less, at) == drafted(
                    v,
                    iteration,
                    feedback,
                    last,
                    log,
                    at,
                ));
                assert(checkpointed(id, ask, less, at1) == checkpointed(id, ask, log, at1));
                assert(less[at2] == log[at2]);
            }
        }
    }
}

proof fn lemma_reviewed_end(
    v: Review,
    iteration: nat,
    feedback: Option<Seq<char>>,
    last: Seq<char>,
    log: Seq<Reply>,
    at: int,
)
    ensures
        reviewed_from(v, iteration, feedback, last, log, at) matches Ok((_, end)) ==> at < end
            <= log.len(),
    decreases v.max_iter - iteration,
{
    if reviewed_from(v, iteration, feedback, last, log, at) is Ok && iteration < v.max_iter {
        let (document, at1) = drafted(v, iteration, feedback, last, log, at)->Ok_0;
        let id = iteration_id(v.worker_name, iteration, "review"@);
        let (review, at2) = checkpointed(id, review_question(v, document), log, at1)->Ok_0;
        if !opens_with(review, v.approved_prefix) {
            lemma_reviewed_end(v, iteration + 1, Some(review), document, log, at2 + 1);
        }
    }
}

} // verus!
