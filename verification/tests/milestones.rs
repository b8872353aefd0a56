use rewriter_queue::milestones::{parse_milestone_plan, Milestone, Risk};
use rewriter_queue::waves::schedule_waves;

#[test]
fn parses_multiple_milestones_with_multiline_tasks() {
    let text = "\
## MILESTONE: research-database
RISK: EASY
TASK: Implement the ResearchDatabase struct and its add/get/verify methods,
covering the edge cases in section 3.1 of the contract.

## MILESTONE: research-workflow
RISK: HARD
TASK: Implement the whole workflow orchestration.
";
    let milestones = parse_milestone_plan(text);
    assert_eq!(milestones.len(), 2);
    assert_eq!(milestones[0].name, "research-database");
    assert_eq!(milestones[0].risk, Risk::Easy);
    assert!(milestones[0].task.contains("add/get/verify"));
    assert!(milestones[0].task.contains("edge cases"));
    assert_eq!(milestones[1].name, "research-workflow");
    assert_eq!(milestones[1].risk, Risk::Hard);
}

#[test]
fn missing_or_garbled_risk_line_defaults_to_hard() {
    let text = "\
## MILESTONE: mystery
TASK: No RISK line was given at all.
";
    let milestones = parse_milestone_plan(text);
    assert_eq!(milestones.len(), 1);
    assert_eq!(milestones[0].risk, Risk::Hard);
}

#[test]
fn text_before_any_milestone_marker_is_discarded() {
    let text = "Some preamble the model wrote before the first marker.\n\n\
## MILESTONE: only-one\nRISK: EASY\nTASK: Just this.\n";
    let milestones = parse_milestone_plan(text);
    assert_eq!(milestones.len(), 1);
    assert_eq!(milestones[0].task, "Just this.");
}

/// The whole plan is wrapped in one fence, with commentary behind the closing fence.
#[test]
fn trailing_prose_after_a_whole_plan_fence_does_not_leak_into_the_last_task() {
    let text = "Here's the decomposition:\n\n\
```\n\
## MILESTONE: first-one\n\
RISK: EASY\n\
TASK: Do the first thing.\n\
\n\
## MILESTONE: last-one\n\
RISK: EASY\n\
TASK: Do the last thing.\n\
```\n\
\n\
Each milestone is focused and independently implementable.\n";
    let milestones = parse_milestone_plan(text);
    assert_eq!(milestones.len(), 2);
    assert_eq!(milestones[1].name, "last-one");
    assert_eq!(milestones[1].task, "Do the last thing.");
    assert!(!milestones[1].task.contains("independently implementable"));
}

/// A model that fences each milestone separately (rather than the whole plan at once)
/// must still parse all of them, not just the first.
#[test]
fn per_milestone_fencing_does_not_truncate_the_plan() {
    let text = "\
## MILESTONE: first-one\n\
RISK: EASY\n\
TASK: Do the first thing.\n\
```\n\
\n\
## MILESTONE: last-one\n\
RISK: EASY\n\
TASK: Do the last thing.\n\
```\n";
    let milestones = parse_milestone_plan(text);
    assert_eq!(milestones.len(), 2);
    assert_eq!(milestones[0].task, "Do the first thing.");
    assert_eq!(milestones[1].task, "Do the last thing.");
}

#[test]
fn omitted_depends_on_defaults_to_the_previous_milestone() {
    let text = "\
## MILESTONE: first\nRISK: EASY\nTASK: First thing.\n\n\
## MILESTONE: second\nRISK: EASY\nTASK: Second thing.\n";
    let milestones = parse_milestone_plan(text);
    assert!(milestones[0].depends_on.is_empty());
    assert_eq!(milestones[1].depends_on, vec!["first".to_string()]);
}

#[test]
fn depends_on_none_is_explicit_independence_not_the_default_chain() {
    let text = "\
## MILESTONE: first\nRISK: EASY\nTASK: First thing.\n\n\
## MILESTONE: second\nRISK: EASY\nDEPENDS_ON: none\nTASK: Second thing.\n";
    let milestones = parse_milestone_plan(text);
    assert!(milestones[1].depends_on.is_empty());
}

#[test]
fn depends_on_parses_a_comma_separated_list_of_named_milestones() {
    let text = "\
## MILESTONE: a\nRISK: EASY\nDEPENDS_ON: none\nTASK: A.\n\n\
## MILESTONE: b\nRISK: EASY\nDEPENDS_ON: none\nTASK: B.\n\n\
## MILESTONE: c\nRISK: EASY\nDEPENDS_ON: a, b\nTASK: C needs both a and b.\n";
    let milestones = parse_milestone_plan(text);
    assert_eq!(milestones[2].depends_on, vec!["a".to_string(), "b".to_string()]);
}

#[test]
fn patterns_line_parses_a_comma_separated_list() {
    let text = "\
## MILESTONE: a\nRISK: EASY\nPATTERNS: trait-objects, error-handling\nTASK: A.\n";
    let milestones = parse_milestone_plan(text);
    assert_eq!(
        milestones[0].patterns,
        vec!["trait-objects".to_string(), "error-handling".to_string()]
    );
}

#[test]
fn patterns_line_is_absent_by_default() {
    let text = "## MILESTONE: a\nRISK: EASY\nTASK: A.\n";
    let milestones = parse_milestone_plan(text);
    assert!(milestones[0].patterns.is_empty());
}

#[test]
fn patterns_none_is_explicitly_empty() {
    let text = "## MILESTONE: a\nRISK: EASY\nPATTERNS: none\nTASK: A.\n";
    let milestones = parse_milestone_plan(text);
    assert!(milestones[0].patterns.is_empty());
}

#[test]
fn patterns_do_not_leak_between_milestones() {
    let text = "\
## MILESTONE: a\nRISK: EASY\nPATTERNS: trait-objects\nTASK: A.\n\n\
## MILESTONE: b\nRISK: EASY\nTASK: B.\n";
    let milestones = parse_milestone_plan(text);
    assert_eq!(milestones[0].patterns, vec!["trait-objects".to_string()]);
    assert!(milestones[1].patterns.is_empty());
}

fn milestone(name: &str, depends_on: &[&str]) -> Milestone {
    Milestone {
        name: name.to_string(),
        risk: Risk::Easy,
        task: String::new(),
        depends_on: depends_on.iter().map(|s| s.to_string()).collect(),
        patterns: Vec::new(),
    }
}

#[test]
fn no_dependencies_at_all_schedules_one_wave_per_milestone_by_default() {
    // This is the shape parse_milestone_plan actually produces for an unmodified plan:
    // each milestone (after the first) explicitly depends on the one before it.
    let ms = [milestone("a", &[]), milestone("b", &["a"]), milestone("c", &["b"])];
    let waves = schedule_waves(&ms);
    assert_eq!(waves, vec![vec![0], vec![1], vec![2]]);
}

#[test]
fn independent_milestones_with_no_dependency_relationship_share_one_wave() {
    let ms = [milestone("a", &[]), milestone("b", &[]), milestone("c", &[])];
    let waves = schedule_waves(&ms);
    assert_eq!(waves.len(), 1);
    assert_eq!(waves[0].len(), 3);
}

#[test]
fn a_milestone_depending_on_two_independent_ones_waits_for_both() {
    // a and b are independent (wave 1, parallel); c depends on both (wave 2, alone).
    let ms = [milestone("a", &[]), milestone("b", &[]), milestone("c", &["a", "b"])];
    let waves = schedule_waves(&ms);
    assert_eq!(waves.len(), 2);
    let mut first = waves[0].clone();
    first.sort();
    assert_eq!(first, vec![0, 1]);
    assert_eq!(waves[1], vec![2]);
}

#[test]
fn an_unresolvable_dependency_name_does_not_deadlock_scheduling() {
    // "typo-name" doesn't match any milestone -- must not block "a" forever.
    let ms = [milestone("a", &["typo-name"])];
    let waves = schedule_waves(&ms);
    assert_eq!(waves, vec![vec![0]]);
}

#[test]
fn a_genuine_dependency_cycle_still_terminates_and_schedules_everything() {
    let ms = [milestone("a", &["b"]), milestone("b", &["a"])];
    let waves = schedule_waves(&ms);
    let scheduled: Vec<usize> = waves.iter().flatten().copied().collect();
    assert_eq!(scheduled.len(), 2);
}

#[test]
fn a_plan_keeps_its_own_chain_where_a_middle_milestone_stands_alone() {
    let text = "## MILESTONE: a\nRISK: easy\nTASK: A.\n\n\
## MILESTONE: b\nRISK: EASY\nDEPENDS_ON: NONE\nTASK: B.\n\n\
## MILESTONE: c\nRISK: odd\nTASK: C.\n";
    let ms = parse_milestone_plan(text);
    assert_eq!(ms[0].risk, Risk::Easy);
    assert_eq!(ms[2].risk, Risk::Hard);
    assert!(ms[1].depends_on.is_empty());
    assert_eq!(ms[2].depends_on, vec!["b".to_string()]);
    assert_eq!(schedule_waves(&ms), vec![vec![0, 1], vec![2]]);
}

#[test]
fn text_without_a_milestone_is_an_empty_plan() {
    assert!(parse_milestone_plan("NONE").is_empty());
    assert!(parse_milestone_plan("").is_empty());
    assert!(schedule_waves(&[]).is_empty());
}

#[test]
fn an_unknown_name_is_never_met_and_its_milestone_is_built_last_and_alone() {
    let ms = [milestone("a", &["typo-name"]), milestone("b", &[])];
    assert_eq!(schedule_waves(&ms), vec![vec![1], vec![0]]);
    let ms = [milestone("a", &["typo"]), milestone("b", &["a"]), milestone("c", &[])];
    assert_eq!(schedule_waves(&ms), vec![vec![2], vec![0], vec![1]]);
}

#[test]
fn nothing_before_the_first_marker_reaches_a_milestone() {
    let text = "DEPENDS_ON: ghost\nPATTERNS: trait-objects\nRISK: EASY\nTASK: No.\n\
## MILESTONE: a\nTASK: Yes.\n";
    let ms = parse_milestone_plan(text);
    assert_eq!(ms.len(), 1);
    assert!(ms[0].depends_on.is_empty() && ms[0].patterns.is_empty());
    assert_eq!((ms[0].risk, ms[0].task.as_str()), (Risk::Hard, "Yes."));
}
