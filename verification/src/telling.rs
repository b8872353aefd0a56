//! What the agents of a synthesis are told: nothing that they need is left out.

use crate::agents::pattern_catalog;
use crate::building::{
    milestone_task, plan_task, split_task, BriefView, PATTERN_GUIDE, SCOPE_GUIDE, SOURCE_GUIDE,
};
use crate::documents::{as_file, document_patch_task, document_rewrite_task};
use crate::milestones::MilestoneView;
use crate::numbers::{decimal, padded_start};
use crate::patch::{numbered, rendered_numbered, PATCH_FORMAT_INSTRUCTIONS};
use crate::quality::multi_file;
use crate::repair::{
    feedback, patch_failure, patch_task, review_task, revision_task, rewrite_task,
};
use crate::sections::{listing, Listed};
use crate::synthesis::{
    chunk_task, compliance_task, fix_task, full_task, gap_task, integration_failure, merge_task,
    panel_task, part, system_test_task, unsound_failure, CHUNK_GUIDE, FIX_GUIDE, GAP_GUIDE,
};
use crate::text::{
    has, joined, lemma_has_itself, lemma_has_through, lemma_joined_has, lemma_part_has, lines_of,
};
use crate::verdicts::opens_with;
use vstd::prelude::*;

verus! {

/// A part of a text stands in it.
pub proof fn lemma_stands(whole: Seq<char>, before: Seq<char>, part: Seq<char>, behind: Seq<char>)
    requires
        whole =~= before + part + behind,
    ensures
        has(whole, part),
{
    lemma_has_itself(part);
    lemma_part_has(before, part, behind, part);
}

/// A planner is told the task, how many iterations there are, and which patterns there are.
pub proof fn law_planners_are_told(task: Seq<char>, max_iter: nat)
    ensures
        has(plan_task(task, max_iter), task),
        has(plan_task(task, max_iter), decimal(max_iter)),
        has(plan_task(task, max_iter), pattern_catalog()),
        has(plan_task(task, max_iter), SOURCE_GUIDE@),
{
    let whole = plan_task(task, max_iter);
    lemma_stands(
        whole,
        Seq::<char>::empty(),
        task,
        "\n\n# Iteration Budget\nN = "@ + decimal(max_iter) + PATTERN_GUIDE@ + pattern_catalog()
            + SOURCE_GUIDE@,
    );
    lemma_stands(
        whole,
        task + "\n\n# Iteration Budget\nN = "@,
        decimal(max_iter),
        PATTERN_GUIDE@ + pattern_catalog() + SOURCE_GUIDE@,
    );
    lemma_stands(
        whole,
        task + "\n\n# Iteration Budget\nN = "@ + decimal(max_iter) + PATTERN_GUIDE@,
        pattern_catalog(),
        SOURCE_GUIDE@,
    );
    lemma_stands(
        whole,
        task + "\n\n# Iteration Budget\nN = "@ + decimal(max_iter) + PATTERN_GUIDE@
            + pattern_catalog(),
        SOURCE_GUIDE@,
        Seq::<char>::empty(),
    );
}

/// Who builds a milestone is told the contract, the schema, the name of the milestone and its task.
pub proof fn law_implementers_are_told(b: BriefView, m: MilestoneView)
    ensures
        has(milestone_task(b, m), b.contract),
        has(milestone_task(b, m), b.schema),
        has(milestone_task(b, m), m.name),
        has(milestone_task(b, m), m.task),
        has(milestone_task(b, m), SCOPE_GUIDE@),
{
    let whole = milestone_task(b, m);
    lemma_stands(
        whole,
        "# ObjectiveContract\n"@,
        b.contract,
        "\n\n# Schema\n```rust\n"@ + b.schema + "\n```\n\n"@ + "# Milestone: "@ + m.name + "\n"@
            + m.task + SCOPE_GUIDE@,
    );
    lemma_stands(
        whole,
        "# ObjectiveContract\n"@ + b.contract + "\n\n# Schema\n```rust\n"@,
        b.schema,
        "\n```\n\n"@ + "# Milestone: "@ + m.name + "\n"@ + m.task + SCOPE_GUIDE@,
    );
    lemma_stands(
        whole,
        "# ObjectiveContract\n"@ + b.contract + "\n\n# Schema\n```rust\n"@ + b.schema
            + "\n```\n\n"@ + "# Milestone: "@,
        m.name,
        "\n"@ + m.task + SCOPE_GUIDE@,
    );
    lemma_stands(
        whole,
        "# ObjectiveContract\n"@ + b.contract + "\n\n# Schema\n```rust\n"@ + b.schema
            + "\n```\n\n"@ + "# Milestone: "@ + m.name + "\n"@,
        m.task,
        SCOPE_GUIDE@,
    );
    lemma_stands(
        whole,
        "# ObjectiveContract\n"@ + b.contract + "\n\n# Schema\n```rust\n"@ + b.schema
            + "\n```\n\n"@ + "# Milestone: "@ + m.name + "\n"@ + m.task,
        SCOPE_GUIDE@,
        Seq::<char>::empty(),
    );
}

/// Who splits a milestone is told its task.
pub proof fn law_splitters_are_told(task: Seq<char>, max_iter: nat)
    ensures
        has(split_task(task, max_iter), task),
        has(split_task(task, max_iter), decimal(max_iter)),
{
    let whole = split_task(task, max_iter);
    lemma_stands(
        whole,
        Seq::<char>::empty(),
        task,
        "\n\n# Why This Needs Splitting\nA previous attempt implemented this as one unit and did not pass its quality gate within "@
            + decimal(max_iter)
            + " iterations. Split it into two or more smaller, independently-implementable pieces."@,
    );
    lemma_stands(
        whole,
        task
            + "\n\n# Why This Needs Splitting\nA previous attempt implemented this as one unit and did not pass its quality gate within "@,
        decimal(max_iter),
        " iterations. Split it into two or more smaller, independently-implementable pieces."@,
    );
}

/// Who patches a draft is told what it was to do, the draft, what is wrong with it, and how a patch
/// is written.
pub proof fn law_patchers_are_told(
    base_task: Seq<char>,
    files: Map<Seq<char>, Seq<char>>,
    errors: Seq<char>,
    label: Seq<char>,
)
    ensures
        has(patch_task(base_task, files, errors, label), base_task),
        has(patch_task(base_task, files, errors, label), rendered_numbered(listing(files))),
        has(patch_task(base_task, files, errors, label), errors),
        has(patch_task(base_task, files, errors, label), PATCH_FORMAT_INSTRUCTIONS@),
{
    let whole = patch_task(base_task, files, errors, label);
    lemma_stands(
        whole,
        Seq::<char>::empty(),
        base_task,
        "\n\n# Current Implementation (line numbers shown for reference — not part of the file)\n"@
            + rendered_numbered(listing(files)) + "\n\n# Quality Gate Failures ("@ + label
            + ")\n"@ + errors
            + "\n\nFix ALL issues above with a minimal patch instead of rewriting the file(s). "@
            + PATCH_FORMAT_INSTRUCTIONS@,
    );
    lemma_stands(
        whole,
        base_task
            + "\n\n# Current Implementation (line numbers shown for reference — not part of the file)\n"@,
        rendered_numbered(listing(files)),
        "\n\n# Quality Gate Failures ("@ + label + ")\n"@ + errors
            + "\n\nFix ALL issues above with a minimal patch instead of rewriting the file(s). "@
            + PATCH_FORMAT_INSTRUCTIONS@,
    );
    lemma_stands(
        whole,
        base_task
            + "\n\n# Current Implementation (line numbers shown for reference — not part of the file)\n"@
            + rendered_numbered(listing(files)) + "\n\n# Quality Gate Failures ("@ + label
            + ")\n"@,
        errors,
        "\n\nFix ALL issues above with a minimal patch instead of rewriting the file(s). "@
            + PATCH_FORMAT_INSTRUCTIONS@,
    );
    lemma_stands(
        whole,
        base_task
            + "\n\n# Current Implementation (line numbers shown for reference — not part of the file)\n"@
            + rendered_numbered(listing(files)) + "\n\n# Quality Gate Failures ("@ + label
            + ")\n"@ + errors
            + "\n\nFix ALL issues above with a minimal patch instead of rewriting the file(s). "@,
        PATCH_FORMAT_INSTRUCTIONS@,
        Seq::<char>::empty(),
    );
}

/// Who writes a draft again is told what it was to do and what is wrong with it.
pub proof fn law_rewriters_are_told(base_task: Seq<char>, errors: Seq<char>, label: Seq<char>)
    ensures
        has(rewrite_task(base_task, errors, label), base_task),
        has(rewrite_task(base_task, errors, label), errors),
{
    let whole = rewrite_task(base_task, errors, label);
    lemma_stands(
        whole,
        Seq::<char>::empty(),
        base_task,
        "\n\n# Quality Gate Failures ("@ + label + ")\n"@ + errors
            + "\n\nFix ALL issues above. The code must compile, pass `clippy -D warnings`, pass all tests, and keep every file ≤500 lines. Return only the complete corrected Rust source."@,
    );
    lemma_stands(
        whole,
        base_task + "\n\n# Quality Gate Failures ("@ + label + ")\n"@,
        errors,
        "\n\nFix ALL issues above. The code must compile, pass `clippy -D warnings`, pass all tests, and keep every file ≤500 lines. Return only the complete corrected Rust source."@,
    );
}

/// A critic is shown the output.
pub proof fn law_critics_are_told(output: Seq<char>)
    ensures
        has(review_task(output), output),
{
    let whole = review_task(output);
    lemma_stands(whole, "Review this output:\n\n"@, output, Seq::<char>::empty());
}

/// Who revises an output is told what it was to do and what the critics hold against it.
pub proof fn law_revisers_are_told(base_task: Seq<char>, iteration: nat, held: Seq<char>)
    ensures
        has(revision_task(base_task, iteration, held), base_task),
        has(revision_task(base_task, iteration, held), held),
{
    let whole = revision_task(base_task, iteration, held);
    lemma_stands(
        whole,
        Seq::<char>::empty(),
        base_task,
        "\n\n# Review Feedback (iteration "@ + decimal(iteration) + ")\n"@ + held
            + "\n\nAddress all feedback above. Record any new deviations — do not implement them."@,
    );
    lemma_stands(
        whole,
        base_task + "\n\n# Review Feedback (iteration "@ + decimal(iteration) + ")\n"@,
        held,
        "\n\nAddress all feedback above. Record any new deviations — do not implement them."@,
    );
}

/// What is recorded of a patch that does not apply says why.
pub proof fn law_failed_patches_are_told(label: Seq<char>, reason: Seq<char>)
    ensures
        has(patch_failure(label, reason), label),
        has(patch_failure(label, reason), reason),
{
    let whole = patch_failure(label, reason);
    lemma_stands(
        whole,
        "Patch failed to apply ("@,
        label,
        "), fell back to full regeneration:\n"@ + reason,
    );
    lemma_stands(
        whole,
        "Patch failed to apply ("@ + label + "), fell back to full regeneration:\n"@,
        reason,
        Seq::<char>::empty(),
    );
}

/// Who writes the acceptance tests is told the contract, the criteria and the crate.
pub proof fn law_test_writers_are_told(
    contract: Seq<char>,
    gherkin: Seq<char>,
    files: Map<Seq<char>, Seq<char>>,
)
    ensures
        has(system_test_task(contract, gherkin, files), contract),
        has(system_test_task(contract, gherkin, files), gherkin),
        has(system_test_task(contract, gherkin, files), multi_file(files)),
{
    let whole = system_test_task(contract, gherkin, files);
    lemma_stands(
        whole,
        "# ObjectiveContract\n"@,
        contract,
        "\n\n# Acceptance Criteria (Gherkin)\n```gherkin\n"@ + gherkin
            + "\n```\n\n# Current V2 Implementation\n```rust\n"@ + multi_file(files) + "\n```"@,
    );
    lemma_stands(
        whole,
        "# ObjectiveContract\n"@ + contract + "\n\n# Acceptance Criteria (Gherkin)\n```gherkin\n"@,
        gherkin,
        "\n```\n\n# Current V2 Implementation\n```rust\n"@ + multi_file(files) + "\n```"@,
    );
    lemma_stands(
        whole,
        "# ObjectiveContract\n"@ + contract + "\n\n# Acceptance Criteria (Gherkin)\n```gherkin\n"@
            + gherkin + "\n```\n\n# Current V2 Implementation\n```rust\n"@,
        multi_file(files),
        "\n```"@,
    );
}

/// Who plans a fix is told the contract, the schema, the crate and what is wrong with it.
pub proof fn law_fixers_are_told(b: BriefView, clean: Seq<char>, errors: Seq<char>)
    ensures
        has(fix_task(b, clean, errors), b.contract),
        has(fix_task(b, clean, errors), b.schema),
        has(fix_task(b, clean, errors), clean),
        has(fix_task(b, clean, errors), errors),
{
    let whole = fix_task(b, clean, errors);
    lemma_stands(
        whole,
        "# ObjectiveContract\n"@,
        b.contract,
        "\n\n# Schema\n```rust\n"@ + b.schema + "\n```\n\n"@
            + "# Current V2 Implementation\n```rust\n"@ + clean
            + "\n```\n\n# Build/Test Failures Repeated Patch Attempts Could Not Fix\n"@ + errors
            + FIX_GUIDE@,
    );
    lemma_stands(
        whole,
        "# ObjectiveContract\n"@ + b.contract + "\n\n# Schema\n```rust\n"@,
        b.schema,
        "\n```\n\n"@ + "# Current V2 Implementation\n```rust\n"@ + clean
            + "\n```\n\n# Build/Test Failures Repeated Patch Attempts Could Not Fix\n"@ + errors
            + FIX_GUIDE@,
    );
    lemma_stands(
        whole,
        "# ObjectiveContract\n"@ + b.contract + "\n\n# Schema\n```rust\n"@ + b.schema
            + "\n```\n\n"@ + "# Current V2 Implementation\n```rust\n"@,
        clean,
        "\n```\n\n# Build/Test Failures Repeated Patch Attempts Could Not Fix\n"@ + errors
            + FIX_GUIDE@,
    );
    lemma_stands(
        whole,
        "# ObjectiveContract\n"@ + b.contract + "\n\n# Schema\n```rust\n"@ + b.schema
            + "\n```\n\n"@ + "# Current V2 Implementation\n```rust\n"@ + clean
            + "\n```\n\n# Build/Test Failures Repeated Patch Attempts Could Not Fix\n"@,
        errors,
        FIX_GUIDE@,
    );
}

/// The review panel is told the contract and shown the crate.
pub proof fn law_the_panel_is_told(contract: Seq<char>, code: Seq<char>)
    ensures
        has(panel_task(contract, code), contract),
        has(panel_task(contract, code), code),
{
    let whole = panel_task(contract, code);
    lemma_stands(
        whole,
        "# ObjectiveContract\n"@,
        contract,
        "\n\n# V2 Implementation\n```rust\n"@ + code + "\n```"@,
    );
    lemma_stands(
        whole,
        "# ObjectiveContract\n"@ + contract + "\n\n# V2 Implementation\n```rust\n"@,
        code,
        "\n```"@,
    );
}

/// Who looks for what is missing is told the contract, the schema and the crate so far.
pub proof fn law_gap_planners_are_told(b: BriefView, files: Map<Seq<char>, Seq<char>>)
    ensures
        has(gap_task(b, files), b.contract),
        has(gap_task(b, files), b.schema),
        has(gap_task(b, files), multi_file(files)),
        has(gap_task(b, files), GAP_GUIDE@),
{
    let whole = gap_task(b, files);
    lemma_stands(
        whole,
        "# ObjectiveContract\n"@,
        b.contract,
        "\n\n# Schema\n```rust\n"@ + b.schema + "\n```\n\n"@ + "# Already Implemented\n```rust\n"@
            + multi_file(files) + GAP_GUIDE@,
    );
    lemma_stands(
        whole,
        "# ObjectiveContract\n"@ + b.contract + "\n\n# Schema\n```rust\n"@,
        b.schema,
        "\n```\n\n"@ + "# Already Implemented\n```rust\n"@ + multi_file(files) + GAP_GUIDE@,
    );
    lemma_stands(
        whole,
        "# ObjectiveContract\n"@ + b.contract + "\n\n# Schema\n```rust\n"@ + b.schema
            + "\n```\n\n"@ + "# Already Implemented\n```rust\n"@,
        multi_file(files),
        GAP_GUIDE@,
    );
    lemma_stands(
        whole,
        "# ObjectiveContract\n"@ + b.contract + "\n\n# Schema\n```rust\n"@ + b.schema
            + "\n```\n\n"@ + "# Already Implemented\n```rust\n"@ + multi_file(files),
        GAP_GUIDE@,
        Seq::<char>::empty(),
    );
}

/// A whole crate is planned from the contract, the analysis, the schema and the test matrix.
pub proof fn law_the_whole_task_is_told(b: BriefView, test_matrix: Seq<char>, inductive: Seq<char>)
    ensures
        has(full_task(b, test_matrix, inductive), b.contract),
        has(full_task(b, test_matrix, inductive), inductive),
        has(full_task(b, test_matrix, inductive), b.schema),
        has(full_task(b, test_matrix, inductive), test_matrix),
{
    let whole = full_task(b, test_matrix, inductive);
    lemma_stands(
        whole,
        "# ObjectiveContract\n"@,
        b.contract,
        "\n\n# Inductive Analysis\n"@ + inductive + "\n\n# Schema\n```rust\n"@ + b.schema
            + "\n```\n\n# Test Matrix\n"@ + test_matrix,
    );
    lemma_stands(
        whole,
        "# ObjectiveContract\n"@ + b.contract + "\n\n# Inductive Analysis\n"@,
        inductive,
        "\n\n# Schema\n```rust\n"@ + b.schema + "\n```\n\n# Test Matrix\n"@ + test_matrix,
    );
    lemma_stands(
        whole,
        "# ObjectiveContract\n"@ + b.contract + "\n\n# Inductive Analysis\n"@ + inductive
            + "\n\n# Schema\n```rust\n"@,
        b.schema,
        "\n```\n\n# Test Matrix\n"@ + test_matrix,
    );
    lemma_stands(
        whole,
        "# ObjectiveContract\n"@ + b.contract + "\n\n# Inductive Analysis\n"@ + inductive
            + "\n\n# Schema\n```rust\n"@ + b.schema + "\n```\n\n# Test Matrix\n"@,
        test_matrix,
        Seq::<char>::empty(),
    );
}

/// Who writes a chunk anew is told the contract, the analysis, the schema and the chunk.
pub proof fn law_chunk_writers_are_told(
    b: BriefView,
    inductive: Seq<char>,
    chunk: Seq<char>,
    i: nat,
    n: nat,
)
    ensures
        has(chunk_task(b, inductive, chunk, i, n), b.contract),
        has(chunk_task(b, inductive, chunk, i, n), inductive),
        has(chunk_task(b, inductive, chunk, i, n), b.schema),
        has(chunk_task(b, inductive, chunk, i, n), decimal(i + 1)),
        has(chunk_task(b, inductive, chunk, i, n), decimal(n)),
        has(chunk_task(b, inductive, chunk, i, n), chunk),
{
    let whole = chunk_task(b, inductive, chunk, i, n);
    lemma_stands(
        whole,
        "# ObjectiveContract\n"@,
        b.contract,
        "\n\n# Inductive Analysis\n"@ + inductive + "\n\n# Schema\n```rust\n"@ + b.schema
            + "\n```\n\n# V1 Chunk "@ + decimal(i + 1) + "/"@ + decimal(n) + "\n```rust\n"@
            + chunk + CHUNK_GUIDE@,
    );
    lemma_stands(
        whole,
        "# ObjectiveContract\n"@ + b.contract + "\n\n# Inductive Analysis\n"@,
        inductive,
        "\n\n# Schema\n```rust\n"@ + b.schema + "\n```\n\n# V1 Chunk "@ + decimal(i + 1) + "/"@
            + decimal(n) + "\n```rust\n"@ + chunk + CHUNK_GUIDE@,
    );
    lemma_stands(
        whole,
        "# ObjectiveContract\n"@ + b.contract + "\n\n# Inductive Analysis\n"@ + inductive
            + "\n\n# Schema\n```rust\n"@,
        b.schema,
        "\n```\n\n# V1 Chunk "@ + decimal(i + 1) + "/"@ + decimal(n) + "\n```rust\n"@ + chunk
            + CHUNK_GUIDE@,
    );
    lemma_stands(
        whole,
        "# ObjectiveContract\n"@ + b.contract + "\n\n# Inductive Analysis\n"@ + inductive
            + "\n\n# Schema\n```rust\n"@ + b.schema + "\n```\n\n# V1 Chunk "@,
        decimal(i + 1),
        "/"@ + decimal(n) + "\n```rust\n"@ + chunk + CHUNK_GUIDE@,
    );
    lemma_stands(
        whole,
        "# ObjectiveContract\n"@ + b.contract + "\n\n# Inductive Analysis\n"@ + inductive
            + "\n\n# Schema\n```rust\n"@ + b.schema + "\n```\n\n# V1 Chunk "@ + decimal(i + 1)
            + "/"@,
        decimal(n),
        "\n```rust\n"@ + chunk + CHUNK_GUIDE@,
    );
    lemma_stands(
        whole,
        "# ObjectiveContract\n"@ + b.contract + "\n\n# Inductive Analysis\n"@ + inductive
            + "\n\n# Schema\n```rust\n"@ + b.schema + "\n```\n\n# V1 Chunk "@ + decimal(i + 1)
            + "/"@ + decimal(n) + "\n```rust\n"@,
        chunk,
        CHUNK_GUIDE@,
    );
}

/// The reviews of a merged crate are told the contract and shown the crate.
pub proof fn law_compliance_is_asked_of_the_crate(contract: Seq<char>, code: Seq<char>)
    ensures
        has(compliance_task(contract, code), contract),
        has(compliance_task(contract, code), code),
{
    let whole = compliance_task(contract, code);
    lemma_stands(
        whole,
        "# ObjectiveContract\n"@,
        contract,
        "\n\n# V2\n```rust\n"@ + code + "\n```"@,
    );
    lemma_stands(
        whole,
        "# ObjectiveContract\n"@ + contract + "\n\n# V2\n```rust\n"@,
        code,
        "\n```"@,
    );
}

/// Who patches a document is told what it was to be, the document, and the review.
pub proof fn law_document_patchers_are_told(
    base_task: Seq<char>,
    document: Seq<char>,
    review: Seq<char>,
    label: Seq<char>,
)
    ensures
        has(document_patch_task(base_task, document, review, label), base_task),
        has(document_patch_task(base_task, document, review, label), rendered_numbered(listing(as_file(document)))),
        has(document_patch_task(base_task, document, review, label), review),
        has(document_patch_task(base_task, document, review, label), PATCH_FORMAT_INSTRUCTIONS@),
{
    let whole = document_patch_task(base_task, document, review, label);
    lemma_stands(
        whole,
        Seq::<char>::empty(),
        base_task,
        "\n\n# Current Output (line numbers shown for reference — not part of the document)\n"@
            + rendered_numbered(listing(as_file(document))) + "\n\n# Review Feedback ("@ + label
            + ")\n"@ + review
            + "\n\nAddress the feedback above with a minimal patch instead of rewriting the whole document. "@
            + PATCH_FORMAT_INSTRUCTIONS@,
    );
    lemma_stands(
        whole,
        base_task
            + "\n\n# Current Output (line numbers shown for reference — not part of the document)\n"@,
        rendered_numbered(listing(as_file(document))),
        "\n\n# Review Feedback ("@ + label + ")\n"@ + review
            + "\n\nAddress the feedback above with a minimal patch instead of rewriting the whole document. "@
            + PATCH_FORMAT_INSTRUCTIONS@,
    );
    lemma_stands(
        whole,
        base_task
            + "\n\n# Current Output (line numbers shown for reference — not part of the document)\n"@
            + rendered_numbered(listing(as_file(document))) + "\n\n# Review Feedback ("@ + label
            + ")\n"@,
        review,
        "\n\nAddress the feedback above with a minimal patch instead of rewriting the whole document. "@
            + PATCH_FORMAT_INSTRUCTIONS@,
    );
    lemma_stands(
        whole,
        base_task
            + "\n\n# Current Output (line numbers shown for reference — not part of the document)\n"@
            + rendered_numbered(listing(as_file(document))) + "\n\n# Review Feedback ("@ + label
            + ")\n"@ + review
            + "\n\nAddress the feedback above with a minimal patch instead of rewriting the whole document. "@,
        PATCH_FORMAT_INSTRUCTIONS@,
        Seq::<char>::empty(),
    );
}

/// Who writes a document again is told what it was to be and the review.
pub proof fn law_document_rewriters_are_told(
    base_task: Seq<char>,
    review: Seq<char>,
    label: Seq<char>,
)
    ensures
        has(document_rewrite_task(base_task, review, label), base_task),
        has(document_rewrite_task(base_task, review, label), review),
{
    let whole = document_rewrite_task(base_task, review, label);
    lemma_stands(
        whole,
        Seq::<char>::empty(),
        base_task,
        "\n\n# Previous Review Feedback ("@ + label + ")\n"@ + review
            + "\n\nAddress the feedback above. Record any new deviations you observe — do not implement them."@,
    );
    lemma_stands(
        whole,
        base_task + "\n\n# Previous Review Feedback ("@ + label + ")\n"@,
        review,
        "\n\nAddress the feedback above. Record any new deviations you observe — do not implement them."@,
    );
}

/// A run that fails because its crate could not be integrated says what is wrong with it.
pub proof fn law_failed_integrations_are_told(max: nat, escalation: nat, errors: Seq<char>)
    ensures
        has(integration_failure(max, escalation, errors), errors),
{
    let whole = integration_failure(max, escalation, errors);
    lemma_stands(
        whole,
        "V2 crate does not build/pass tests after "@ + decimal(max)
            + " integration repair attempts and "@ + decimal(escalation)
            + " escalation(s) to MilestonePlanner:\n"@,
        errors,
        Seq::<char>::empty(),
    );
}

/// A run that fails because its crate stays unsound says why it is.
pub proof fn law_unsound_crates_are_told(max: nat, finding: Seq<char>)
    ensures
        has(unsound_failure(max, finding), finding),
{
    let whole = unsound_failure(max, finding);
    lemma_stands(
        whole,
        "V2 implementation still fails FormalMethodsReviewer's soundness check after "@
            + decimal(max) + " repair attempts:\n"@,
        finding,
        Seq::<char>::empty(),
    );
}

/// A part of a crate is shown as it is.
pub proof fn law_parts_are_shown(text: Seq<char>, i: nat)
    ensures
        has(part(text, i), decimal(i + 1)),
        has(part(text, i), text),
{
    let whole = part(text, i);
    lemma_stands(whole, "## Part "@, decimal(i + 1), "\n```rust\n"@ + text + "\n```"@);
    lemma_stands(whole, "## Part "@ + decimal(i + 1) + "\n```rust\n"@, text, "\n```"@);
}

/// What the critics hold against an output is handed on, the words of each that does not approve;
/// where both approve, nothing is.
pub proof fn law_rejections_are_handed_on(security: Seq<char>, maintenance: Seq<char>)
    ensures
        !opens_with(security, "COMPLIANT"@) ==> has(feedback(security, maintenance), security),
        !opens_with(maintenance, "APPROVE"@) ==> has(feedback(security, maintenance), maintenance),
        opens_with(security, "COMPLIANT"@) && opens_with(maintenance, "APPROVE"@) ==> feedback(
            security,
            maintenance,
        ).len() == 0,
{
    let a = "# SecurityReviewer\n"@ + security;
    let b = "# MaintenanceReviewer\n"@ + maintenance;
    let none = Seq::<char>::empty();
    let all = feedback(security, maintenance);
    lemma_stands(a, "# SecurityReviewer\n"@, security, none);
    lemma_stands(b, "# MaintenanceReviewer\n"@, maintenance, none);
    let first = if opens_with(security, "COMPLIANT"@) {
        Seq::<Seq<char>>::empty()
    } else {
        seq![a]
    };
    let second = if opens_with(maintenance, "APPROVE"@) {
        Seq::<Seq<char>>::empty()
    } else {
        seq![b]
    };
    let list = first + second;
    if !opens_with(security, "COMPLIANT"@) {
        assert(list[0] == a);
        lemma_joined_has(list, "\n\n"@, 0);
        lemma_has_through(all, a, security);
    }
    if !opens_with(maintenance, "APPROVE"@) {
        assert(list[first.len() as int] == b);
        lemma_joined_has(list, "\n\n"@, first.len() as int);
        lemma_has_through(all, b, maintenance);
    }
}

/// Who merges a crate is told the contract and the schema, and shown every part.
pub proof fn law_mergers_are_told(b: BriefView, parts: Seq<Seq<char>>, i: int)
    requires
        0 <= i < parts.len(),
    ensures
        has(merge_task(b, parts), b.contract),
        has(merge_task(b, parts), b.schema),
        has(merge_task(b, parts), parts[i]),
{
    let whole = merge_task(b, parts);
    let shown = Seq::new(parts.len(), |i: int| part(parts[i], i as nat));
    let tail = joined(shown, "\n\n"@);
    let none = Seq::<char>::empty();
    lemma_stands(
        whole,
        "# ObjectiveContract\n"@,
        b.contract,
        "\n\n# Schema\n```rust\n"@ + b.schema + "\n```\n\n"@ + "# Partial Implementations\n"@ + tail,
    );
    lemma_stands(
        whole,
        "# ObjectiveContract\n"@ + b.contract + "\n\n# Schema\n```rust\n"@,
        b.schema,
        "\n```\n\n"@ + "# Partial Implementations\n"@ + tail,
    );
    lemma_stands(
        whole,
        "# ObjectiveContract\n"@ + b.contract + "\n\n# Schema\n```rust\n"@ + b.schema
            + "\n```\n\n"@ + "# Partial Implementations\n"@,
        tail,
        none,
    );
    lemma_joined_has(shown, "\n\n"@, i);
    law_parts_are_shown(parts[i], i as nat);
    lemma_has_through(tail, shown[i], parts[i]);
    lemma_has_through(whole, tail, parts[i]);
}

/// A file is shown line by line, each line as it is, behind its number.
pub proof fn law_lines_are_shown(lines: Seq<Seq<char>>, n: int, j: int)
    requires
        0 <= j < n <= lines.len(),
    ensures
        has(
            numbered(lines, n),
            padded_start(decimal((j + 1) as nat), 4, ' ') + " | "@ + lines[j] + "\n"@,
        ),
    decreases n,
{
    let less = numbered(lines, n - 1);
    let number = padded_start(decimal(n as nat), 4, ' ');
    let last = number + " | "@ + lines[n - 1] + "\n"@;
    let none = Seq::<char>::empty();
    if j == n - 1 {
        lemma_stands(numbered(lines, n), less, last, none);
    } else {
        law_lines_are_shown(lines, n - 1, j);
        lemma_stands(numbered(lines, n), none, less, last);
        lemma_has_through(
            numbered(lines, n),
            less,
            padded_start(decimal((j + 1) as nat), 4, ' ') + " | "@ + lines[j] + "\n"@,
        );
    }
}

/// All files of a draft are shown, each under its path and with all its lines.
pub proof fn law_files_are_shown(list: Seq<Listed>, i: int)
    requires
        0 <= i < list.len(),
    ensures
        has(rendered_numbered(list), "// === "@ + list[i].0 + " ===\n"@),
        has(
            rendered_numbered(list),
            numbered(lines_of(list[i].1), lines_of(list[i].1).len() as int),
        ),
    decreases list.len(),
{
    let all = rendered_numbered(list);
    let less = rendered_numbered(list.drop_last());
    let file = list.last();
    let title = "// === "@ + file.0 + " ===\n"@;
    let body = numbered(lines_of(file.1), lines_of(file.1).len() as int);
    let none = Seq::<char>::empty();
    if i == list.len() - 1 {
        lemma_stands(all, less, title, body + "\n"@);
        lemma_stands(all, less + title, body, "\n"@);
    } else {
        law_files_are_shown(list.drop_last(), i);
        lemma_stands(all, none, less, title + body + "\n"@);
        let old = list[i];
        lemma_has_through(all, less, "// === "@ + old.0 + " ===\n"@);
        lemma_has_through(all, less, numbered(lines_of(old.1), lines_of(old.1).len() as int));
    }
}

} // verus!
