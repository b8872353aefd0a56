use rewriter_queue::agents::{implementer_patterns, Skills};
use rewriter_queue::building::Brief;
use rewriter_queue::effects::{Effect, Reply, Work};
use rewriter_queue::gate::{GateEffect, GateReply, Output, Written};
use rewriter_queue::ids::{fix_name, repair_name};
use rewriter_queue::manager::Manager;
use rewriter_queue::milestones::{Milestone, Risk};
use rewriter_queue::pipeline::{completion_note, emit_v2_source, stage_line, stage_names};
use rewriter_queue::sections::Sections;
use rewriter_queue::steps::Pause;
use rewriter_queue::synthesis::MAX_GAP_FILL_ROUNDS;
use rewriter_queue::wiring::ensure_module_declarations;
use rewriter_queue::workspace::Workspace;
use std::collections::BTreeMap;

fn skills() -> Skills {
    Skills {
        mission_architect: "mission architect".into(),
        contract_reviewer: "contract critic".into(),
        test_engineer: "test engineer".into(),
        inductive_reasoner: "inductive reasoner".into(),
        schema_architect: "schema architect".into(),
        target_implementer: "target implementer".into(),
        merge_agent: "merge agent".into(),
        security_reviewer: "security critic".into(),
        security_reviewer_final: "security critic, final".into(),
        maintenance_reviewer: "maintenance critic".into(),
        ip_counsel: "ip counsel".into(),
        formal_methods_reviewer: "formal methods critic".into(),
        production_readiness_reviewer: "production readiness critic".into(),
        milestone_planner: "milestone planner".into(),
        system_test_writer: "system test writer".into(),
        patterns: implementer_patterns(
            "how to handle paths".into(),
            "how to move".into(),
            "how to handle errors".into(),
            "how to hold trait objects".into(),
        ),
    }
}

fn brief<'a>(skills: &'a Skills, worker_system: &'a str, max_iter: usize) -> Brief<'a> {
    Brief { skills, worker_system, contract: "contract", schema: "schema", max_iter }
}

fn sections(pairs: &[(&str, &str)]) -> Sections {
    let mut s = Sections::new();
    for (path, content) in pairs {
        s.insert(path.to_string(), content.to_string());
    }
    s
}

fn at<'a>(s: &'a Sections, path: &str) -> &'a String {
    s.get(path).expect("the file stands in the sections")
}

/// What the effects are carried out on: a workspace in memory, and a scripted answer to each
/// system prompt and task.
struct World {
    ws: Workspace,
    disk: BTreeMap<String, String>,
    artifacts: BTreeMap<String, String>,
    deviations: Vec<String>,
    decisions: Vec<String>,
    stages: Vec<String>,
    systems: Vec<String>,
    slots: usize,
    agent: Box<dyn FnMut(&str, &str) -> String>,
}

impl World {
    fn new(agent: Box<dyn FnMut(&str, &str) -> String>) -> World {
        let ws = Workspace::new("/ws".to_string());
        let manifest = ws.emit_artifact(
            "v2/Cargo.toml",
            "[package]\nname = \"t\"\nversion = \"0.1.0\"\nedition = \"2021\"\n",
        );
        let mut disk = BTreeMap::new();
        disk.insert(manifest.path, manifest.content);
        World {
            ws,
            disk,
            artifacts: BTreeMap::new(),
            deviations: Vec::new(),
            decisions: Vec::new(),
            stages: Vec::new(),
            systems: Vec::new(),
            slots: 1,
            agent,
        }
    }

    fn fixed(text: &str) -> World {
        let text = text.to_string();
        World::new(Box::new(move |_, _| text.clone()))
    }

    fn say(&mut self, system: String, task: String) -> String {
        let text = (self.agent)(&system, &task);
        self.systems.push(system);
        text
    }

    /// Stands in for the compiler: a call of a function that nothing defines and a path that
    /// leads nowhere do not build, and a wrong sum fails its test.
    fn cargo(&self, args: &[String]) -> Output {
        let manifest = args.iter().find(|a| a.ends_with("Cargo.toml")).expect("a manifest");
        let dir = manifest.strip_suffix("Cargo.toml").unwrap();
        let sources: Vec<&String> =
            self.disk.iter().filter(|(p, _)| p.starts_with(dir)).map(|(_, c)| c).collect();
        let holds = |text: &str| sources.iter().any(|c| c.contains(text));
        let fault = match args[0].as_str() {
            "build" => {
                if holds("undefined_fn()") {
                    Some("error[E0425]: cannot find function `undefined_fn` in this scope")
                } else if holds("use crate::Error") && !holds("pub use error::*;") {
                    Some("error[E0432]: unresolved import: no `Error` in the root")
                } else {
                    None
                }
            }
            "test" if holds("assert_eq!(1 + 1, 3)") => Some("test result: FAILED"),
            _ => None,
        };
        Output {
            success: fault.is_none(),
            stdout: fault.unwrap_or("").to_string(),
            stderr: fault.unwrap_or("").to_string(),
        }
    }

    fn answer_gate(&mut self, effect: GateEffect) -> GateReply {
        match effect {
            GateEffect::Exists { path } => GateReply::Flag(self.disk.contains_key(&path)),
            GateEffect::Sources { dir, from } => GateReply::Paths(
                self.disk
                    .keys()
                    .filter(|p| p.starts_with(&format!("{dir}/")))
                    .map(|p| p[from.len() + 1..].to_string())
                    .collect(),
            ),
            GateEffect::Remove { path } => {
                self.disk.remove(&path);
                GateReply::Done
            }
            GateEffect::Put { path, content } => {
                self.disk.insert(path, content);
                GateReply::Put(Written::Done)
            }
            GateEffect::Get { path } => GateReply::Found(self.disk.get(&path).cloned()),
            GateEffect::Cargo { args } => GateReply::Ran(Ok(self.cargo(&args))),
            GateEffect::Scan { .. } => GateReply::Ran(Err("no such program".to_string())),
            GateEffect::Deviation { text, .. } => {
                self.deviations.push(text);
                GateReply::Done
            }
        }
    }

    fn gate(&mut self, code: &str, variant: Option<&str>) -> (String, String) {
        let mut log: Vec<GateReply> = Vec::new();
        loop {
            let asked = Manager::quality_gate(&self.ws, None, code, variant, &log, 0);
            match asked {
                Ok((outcome, end)) => {
                    assert_eq!(end, log.len());
                    return outcome;
                }
                Err(Pause::Fail(e)) => panic!("the quality gate gave up: {e}"),
                Err(Pause::Ask(effect)) => {
                    let reply = self.answer_gate(effect);
                    log.push(reply);
                }
            }
        }
    }

    fn answer(&mut self, b: &Brief, effect: Effect) -> Reply {
        match effect {
            Effect::Agent { system, task, .. } => Reply::Text(self.say(system, task)),
            Effect::Agentic { system, task, .. } => Reply::Text(self.say(system, task)),
            Effect::Gate { code, variant } => {
                let (clean, errors) = self.gate(&code, variant.as_deref());
                Reply::Gated { clean, errors }
            }
            Effect::Recall { name } => Reply::Found(self.artifacts.get(&name).cloned()),
            Effect::Store { name, content } => {
                self.artifacts.insert(name, content);
                Reply::Done
            }
            Effect::Deviation { text, .. } => {
                self.deviations.push(text);
                Reply::Done
            }
            Effect::Decision { text, .. } => {
                self.decisions.push(text);
                Reply::Done
            }
            Effect::Stage { title } => {
                self.stages.push(title);
                Reply::Done
            }
            Effect::Slots => Reply::Count(self.slots),
            Effect::Seed { from, to } => {
                let seeding = self.ws.seed_variant_workspace(from.as_deref(), &to);
                if let Some(content) = self.disk.get(&seeding.from).cloned() {
                    self.disk.insert(seeding.to, content);
                }
                Reply::Done
            }
            Effect::Chunks { chunks } => Reply::Texts(
                chunks
                    .iter()
                    .map(|c| self.drive(b, &|log| Manager::implement_chunk(c, log, 0)))
                    .collect(),
            ),
            Effect::Branches { branches } => Reply::Files(
                branches
                    .iter()
                    .map(|x| {
                        let own = Brief {
                            skills: b.skills,
                            worker_system: &x.worker_system,
                            contract: &x.contract,
                            schema: &x.schema,
                            max_iter: x.max_iter,
                        };
                        self.drive(&own, &|log| {
                            Manager::implement_one_milestone(
                                &own,
                                &x.id_prefix,
                                &x.milestone,
                                x.depth,
                                Some(&x.variant),
                                log,
                                0,
                            )
                        })
                    })
                    .collect(),
            ),
            Effect::Matrix => Reply::Text("matrix".to_string()),
            Effect::Source => Reply::Text("fn v1() {}\n".to_string()),
        }
    }

    fn drive<T>(&mut self, b: &Brief, f: &dyn Fn(&[Reply]) -> Work<T>) -> Result<T, String> {
        let mut log: Vec<Reply> = Vec::new();
        loop {
            match f(&log) {
                Ok((value, end)) => {
                    assert_eq!(end, log.len());
                    return Ok(value);
                }
                Err(Pause::Fail(e)) => return Err(e),
                Err(Pause::Ask(effect)) => {
                    let reply = self.answer(b, effect);
                    log.push(reply);
                }
            }
        }
    }
}

#[test]
fn repairs_a_broken_assembled_crate_within_the_attempt_budget() {
    let mut world = World::fixed(
        "## FILE: src/main.rs\n\
         <<<<<<< SEARCH\n    undefined_fn();\n=======\n    println!(\"fixed\");\n\
         >>>>>>> REPLACE\n",
    );
    let s = skills();
    let b = brief(&s, "worker system", 3);
    let broken = sections(&[("src/main.rs", "fn main() {\n    undefined_fn();\n}\n")]);
    let fixed = world
        .drive(&b, &|log| Manager::integration_check_and_repair(&b, None, broken.clone(), 0, log, 0))
        .expect("an assembled crate the model can actually fix should succeed");

    assert!(at(&fixed, "src/main.rs").contains("println!(\"fixed\")"));
    // One patch call fixes it -- the quality gate passes on the very next check, no further calls.
    assert_eq!(world.systems.len(), 1);
}

#[test]
fn a_unified_diff_repairs_a_broken_crate_too() {
    let mut world = World::fixed(
        "--- a/src/main.rs\n+++ b/src/main.rs\n@@ ... @@\n-    undefined_fn();\n+    println!(\"fixed\");\n",
    );
    let s = skills();
    let b = brief(&s, "worker system", 3);
    let broken = sections(&[("src/main.rs", "fn main() {\n    undefined_fn();\n}\n")]);
    let fixed = world
        .drive(&b, &|log| Manager::integration_check_and_repair(&b, None, broken.clone(), 0, log, 0))
        .expect("the patch applies and the crate builds");
    assert_eq!(at(&fixed, "src/main.rs"), "fn main() {\n    println!(\"fixed\");\n}\n");
    assert_eq!(world.systems.len(), 1);
}

#[test]
fn fails_the_run_after_exhausting_repair_attempts_on_an_unfixable_crate() {
    // Nothing that could be read as a patch: every attempt falls back to full regeneration,
    // which is answered with the same broken source.
    let broken_src = "fn main() {\n    undefined_fn();\n}\n";
    let mut world = World::fixed(broken_src);
    let s = skills();
    let b = brief(&s, "worker system", 2);
    let broken = sections(&[("src/main.rs", broken_src)]);
    let err = world
        .drive(&b, &|log| Manager::integration_check_and_repair(&b, None, broken.clone(), 0, log, 0))
        .expect_err("a crate that can never be fixed must fail the run, not succeed");

    assert!(err.contains("does not build"), "expected a build-failure message, got: {err}");
}

#[test]
fn ensure_module_declarations_plus_the_gate_resolves_a_real_cross_milestone_type_reference() {
    // One milestone's file uses a type by its flat path, another defines that type in a module
    // of its own.
    let mut world = World::fixed("");
    let mut merged = sections(&[
        ("src/main.rs", "fn main() {}\n"),
        ("src/error.rs", "#[derive(Debug)]\npub struct Error;\n"),
        (
            "src/collector.rs",
            "use crate::Error;\n\npub fn fails() -> Result<(), Error> {\n    Ok(())\n}\n",
        ),
    ]);
    let (_, before) = world.gate(&Manager::format_multi_file(&merged), None);
    assert!(!before.is_empty());
    ensure_module_declarations(&mut merged);

    let (_, errors) = world.gate(&Manager::format_multi_file(&merged), None);
    assert!(errors.is_empty(), "expected the crate to build cleanly, got:\n{errors}");
}

/// Answers the critic of soundness with one reply after the other, the last one for good, and
/// everyone else with a patch.
fn reviewed(replies: &'static [&'static str], patch: &'static str) -> World {
    let mut asked: usize = 0;
    World::new(Box::new(move |system, _| {
        if system == "formal methods critic" {
            let n = asked.min(replies.len() - 1);
            asked += 1;
            replies[n].to_string()
        } else {
            patch.to_string()
        }
    }))
}

#[test]
fn repairs_an_unsound_program_and_confirms_soundness_before_returning() {
    let mut world = reviewed(
        &["UNSOUND\n\ntotality: panics", "SOUND\n\nno issues"],
        "## FILE: src/main.rs\n\
         <<<<<<< SEARCH\n    println!(\"unsound\");\n=======\n    println!(\"sound\");\n\
         >>>>>>> REPLACE\n",
    );
    let s = skills();
    let b = brief(&s, "worker system", 2);
    let code = "// === src/main.rs ===\nfn main() {\n    println!(\"unsound\");\n}\n".to_string();
    let result = world
        .drive(&b, &|log| Manager::enforce_soundness(&b, code.clone(), log, 0))
        .expect("a soundness violation the model can fix should succeed");

    assert!(result.contains("println!(\"sound\")"));
}

#[test]
fn fails_the_run_when_the_program_is_still_unsound_after_every_repair_attempt() {
    let mut world = reviewed(
        &["UNSOUND\n\ntotality: still panics"],
        "## FILE: src/main.rs\n\
         <<<<<<< SEARCH\n    println!(\"v1\");\n=======\n    println!(\"v2\");\n\
         >>>>>>> REPLACE\n",
    );
    let s = skills();
    let b = brief(&s, "worker system", 1);
    let code = "// === src/main.rs ===\nfn main() {\n    println!(\"v1\");\n}\n".to_string();
    let err = world
        .drive(&b, &|log| Manager::enforce_soundness(&b, code.clone(), log, 0))
        .expect_err("a soundness violation that never resolves must fail the run");

    assert!(err.contains("soundness check"), "expected a soundness-failure message, got: {err}");
}

const MILESTONE_PLAN: &str =
    "## MILESTONE: extra-module\nRISK: EASY\nTASK: Add a missing helper module.\n";

/// The planner answers with one reply after the other, the critics approve, and the
/// implementer writes a small crate.
fn planned(replies: &'static [&'static str]) -> World {
    let mut asked: usize = 0;
    World::new(Box::new(move |system, _| {
        let text = match system {
            "milestone planner" => {
                let n = asked.min(replies.len() - 1);
                asked += 1;
                replies[n]
            }
            "security critic" => "COMPLIANT",
            "maintenance critic" => "APPROVE",
            _ => {
                "// === src/main.rs ===\nfn main() {}\n\
                 // === src/extra.rs ===\npub fn helper() -> i32 { 42 }\n"
            }
        };
        text.to_string()
    }))
}

fn plans(world: &World) -> usize {
    world.systems.iter().filter(|s| *s == "milestone planner").count()
}

#[test]
fn adds_a_missing_milestone_the_original_plan_left_out_then_stops() {
    let mut world = planned(&[MILESTONE_PLAN, "NONE"]);
    let s = skills();
    let b = brief(&s, "worker system", 3);
    let initial = sections(&[("src/main.rs", "fn main() {}\n")]);
    let result = world
        .drive(&b, &|log| Manager::fill_scope_gaps(&b, initial.clone(), log, 0))
        .expect("a fixable gap should resolve, not error");

    assert!(result.contains_key("src/extra.rs"));
    assert!(
        at(&result, "src/main.rs").contains("mod extra;"),
        "gap-fill milestone's module was never wired into the entry file: {}",
        at(&result, "src/main.rs")
    );
    // The first round found the gap and planned it; the second found nothing missing.
    assert_eq!(plans(&world), 2);
}

#[test]
fn does_not_replan_at_all_when_the_first_round_already_says_nothing_is_missing() {
    let mut world = planned(&["NONE"]);
    let s = skills();
    let b = brief(&s, "worker system", 3);
    let initial = sections(&[("src/main.rs", "fn main() {}\n")]);
    let result = world
        .drive(&b, &|log| Manager::fill_scope_gaps(&b, initial.clone(), log, 0))
        .expect("an already-complete plan must not error");

    assert_eq!(result, initial);
    assert_eq!(plans(&world), 1);
}

#[test]
fn gives_up_after_max_rounds_instead_of_replanning_forever() {
    let mut world = planned(&[MILESTONE_PLAN]);
    let s = skills();
    let b = brief(&s, "worker system", 3);
    let initial = sections(&[("src/main.rs", "fn main() {}\n")]);
    let result = world
        .drive(&b, &|log| Manager::fill_scope_gaps(&b, initial.clone(), log, 0))
        .expect("exhausting gap-fill rounds must not fail the whole run");

    assert!(result.contains_key("src/extra.rs"));
    assert_eq!(plans(&world), MAX_GAP_FILL_ROUNDS);
    assert!(world.deviations.iter().any(|d| d.contains("may still be incomplete")));
}

/// The critics approve, and the implementer writes a one-file crate.
fn approving() -> World {
    World::new(Box::new(|system, _| {
        let text = match system {
            "security critic" => "COMPLIANT",
            "maintenance critic" => "APPROVE",
            _ => "fn main() {}\n",
        };
        text.to_string()
    }))
}

fn milestone(name: &str, patterns: &[&str]) -> Milestone {
    Milestone {
        name: name.to_string(),
        risk: Risk::Easy,
        task: "Do the thing.".to_string(),
        depends_on: Vec::new(),
        patterns: patterns.iter().map(|p| p.to_string()).collect(),
    }
}

fn implement(world: &mut World, ms: &Milestone) -> Result<Sections, String> {
    let s = skills();
    let b = brief(&s, "target implementer", 3);
    world.drive(&b, &|log| Manager::implement_one_milestone(&b, "root", ms, 0, None, log, 0))
}

fn implementer_system(world: &World) -> &str {
    world
        .systems
        .iter()
        .map(String::as_str)
        .find(|s| *s != "security critic" && *s != "maintenance critic")
        .expect("expected at least one TargetImplementer call")
}

#[test]
fn a_prescribed_pattern_is_appended_to_the_implementer_system_prompt() {
    let mut world = approving();
    implement(&mut world, &milestone("needs-trait-objects", &["trait-objects"]))
        .expect("milestone should implement cleanly");

    let sent = implementer_system(&world);
    assert!(sent.contains("how to hold trait objects"));
    // A pattern that wasn't prescribed must not ride along for free.
    assert!(!sent.contains("how to move"));
}

#[test]
fn no_prescribed_patterns_means_just_the_core_skill() {
    let mut world = approving();
    implement(&mut world, &milestone("plain", &[])).expect("milestone should implement cleanly");
    assert_eq!(implementer_system(&world), "target implementer");
}

#[test]
fn an_unrecognized_pattern_name_is_dropped_and_logged_as_a_deviation() {
    let mut world = approving();
    // The trailing 's' is missing.
    implement(&mut world, &milestone("typo", &["trait-object"]))
        .expect("an unknown pattern name must not fail the milestone");
    assert!(world.deviations.iter().any(|d| d.contains("unknown pattern")));
}

#[test]
fn blank_gherkin_is_a_no_op_with_zero_provider_calls() {
    let mut world = World::fixed("should never be called");
    let s = skills();
    let b = brief(&s, "worker system", 1);
    let original = sections(&[("src/lib.rs", "pub fn hello() {}\n")]);
    let result = world
        .drive(&b, &|log| Manager::write_system_tests(&b, original.clone(), "   \n", log, 0))
        .unwrap();

    assert_eq!(result, original);
    assert_eq!(world.systems.len(), 0);
}

#[test]
fn non_blank_gherkin_merges_the_returned_test_file() {
    let mut world = World::fixed(
        "// === tests/system_tests.rs ===\n#[test]\nfn it_works() {\n    assert!(true);\n}\n",
    );
    let s = skills();
    let b = brief(&s, "worker system", 1);
    let original = sections(&[("src/lib.rs", "pub fn hello() {}\n")]);
    let gherkin = "Feature: hello\n  Scenario: it works\n    Given nothing\n    When hello() is called\n    Then it does not panic\n";
    let result = world
        .drive(&b, &|log| Manager::write_system_tests(&b, original.clone(), gherkin, log, 0))
        .unwrap();

    assert_eq!(world.systems.len(), 1);
    assert!(result.contains_key("tests/system_tests.rs"));
    assert!(at(&result, "tests/system_tests.rs").contains("fn it_works"));
    // The implementation file must be untouched.
    assert_eq!(at(&result, "src/lib.rs"), "pub fn hello() {}\n");
}

fn check_with_tests(test_file: &str) -> Result<Sections, String> {
    let mut world = World::fixed(test_file);
    let s = skills();
    let b = brief(&s, "worker system", 1);
    let original = sections(&[("src/lib.rs", "pub fn hello() {}\n")]);
    let with_tests = world
        .drive(&b, &|log| Manager::write_system_tests(&b, original.clone(), "Feature: x\n", log, 0))
        .unwrap();
    world.drive(&b, &|log| {
        Manager::integration_check_and_repair(&b, None, with_tests.clone(), 0, log, 0)
    })
}

#[test]
fn a_passing_system_test_lets_the_integration_gate_succeed() {
    let result = check_with_tests(
        "// === tests/system_tests.rs ===\n#[test]\nfn increments_from_zero() {\n    assert_eq!(1 + 1, 2);\n}\n",
    );
    assert!(result.is_ok(), "expected success, got: {result:?}");
}

#[test]
fn a_failing_system_test_fails_the_run_the_same_as_a_build_failure() {
    // A crate that compiles but does not satisfy its own acceptance scenario is a failed run.
    let err = check_with_tests(
        "// === tests/system_tests.rs ===\n#[test]\nfn wrong_expectation() {\n    assert_eq!(1 + 1, 3);\n}\n",
    )
    .expect_err("a failing system test must fail the run");
    assert!(err.contains("does not build"), "got: {err}");
}

#[test]
fn a_document_is_patched_until_the_reviewer_approves() {
    let mut reviews: usize = 0;
    let mut world = World::new(Box::new(move |system, _| {
        if system == "critic" {
            reviews += 1;
            if reviews == 1 {
                "Rejected: line two is wrong.".to_string()
            } else {
                "  approved, thank you".to_string()
            }
        } else if reviews == 0 {
            "one\ntwo\nthree".to_string()
        } else {
            "--- a/document\n+++ b/document\n@@ ... @@\n one\n-two\n+TWO\n three\n".to_string()
        }
    }));
    let s = skills();
    let b = brief(&s, "worker", 3);
    let text = world
        .drive(&b, &|log| {
            Manager::run_with_review(
                "Writer", "worker", "Reader", "critic", "Write it.", "APPROVED", 3, log, 0,
            )
        })
        .unwrap();
    assert_eq!(text, "one\nTWO\nthree");
    assert_eq!(world.deviations.len(), 1);
    assert!(world.deviations[0].contains("line two is wrong"));
}

#[test]
fn a_document_without_an_approval_is_recorded_and_kept() {
    let mut world = World::new(Box::new(|system, _| {
        if system == "critic" { "No.".to_string() } else { "draft".to_string() }
    }));
    let s = skills();
    let b = brief(&s, "worker", 2);
    let text = world
        .drive(&b, &|log| {
            Manager::run_with_review(
                "Writer", "worker", "Reader", "critic", "Write it.", "APPROVED", 2, log, 0,
            )
        })
        .unwrap();
    assert_eq!(text, "draft");
    assert!(world.deviations.iter().any(|d| d.contains("Iteration 1 rejection")));
}

/// Approves of everything, plans a single milestone, and writes a one-file crate.
fn agreeable() -> World {
    World::new(Box::new(|system, task| {
        let text = match system {
            "security critic" | "security critic, final" => "COMPLIANT",
            "maintenance critic" => "APPROVE",
            "contract critic" => "APPROVED",
            "formal methods critic" => "SOUND",
            "milestone planner" if task.contains("Compare what's already implemented") => "NONE",
            "milestone planner" => "## MILESTONE: all\nRISK: EASY\nTASK: All of it.\n",
            "mission architect" => "the contract",
            "inductive reasoner" => "the analysis",
            "schema architect" => "the schema",
            "test engineer" => "the matrix",
            "target implementer" => "fn main() {}\n",
            _ => "no concerns",
        };
        text.to_string()
    }))
}

#[test]
fn a_finished_run_is_not_run_again() {
    let mut world = agreeable();
    let s = skills();
    let b = brief(&s, "target implementer", 2);
    let first =
        world.drive(&b, &|log| Manager::run_pipeline(&s, "Rewrite it.", 2, log, 0)).unwrap();
    assert!(first.contains("fn main() {}"), "got: {first}");
    assert_eq!(world.artifacts["objective_contract.md"], "the contract");
    assert_eq!(world.artifacts["inductive_analysis.md"], "the analysis");
    assert_eq!(world.artifacts["schema.rs"], "the schema");
    assert_eq!(world.artifacts["refined_test_matrix.json"], "the matrix");
    assert_eq!(
        world.stages,
        vec!["Final integration check (build + clippy + test on the fully assembled crate)"]
    );
    let calls = world.systems.len();
    let second =
        world.drive(&b, &|log| Manager::run_pipeline(&s, "Rewrite it.", 2, log, 0)).unwrap();
    assert_eq!(second, first);
    assert_eq!(world.systems.len(), calls);
}

#[test]
fn a_run_that_was_interrupted_asks_only_for_what_is_missing() {
    let mut world = agreeable();
    let s = skills();
    let b = brief(&s, "target implementer", 2);
    world.artifacts.insert("objective_contract.md".into(), "kept".into());
    world.drive(&b, &|log| Manager::run_pipeline(&s, "Rewrite it.", 2, log, 0)).unwrap();
    assert!(!world.systems.iter().any(|s| s == "mission architect"));
    assert_eq!(world.artifacts["objective_contract.md"], "kept");
}

#[test]
fn independent_milestones_are_built_on_branches_and_merged() {
    let mut world = World::new(Box::new(|system, task| {
        let text = match system {
            "security critic" => "COMPLIANT",
            "maintenance critic" => "APPROVE",
            "milestone planner" => {
                "## MILESTONE: left\nRISK: EASY\nDEPENDS_ON: none\nTASK: Write the left side.\n\n\
                 ## MILESTONE: right\nRISK: EASY\nDEPENDS_ON: none\nTASK: Write the right side.\n"
            }
            _ if task.contains("Write the left side.") => {
                "// === src/main.rs ===\nfn main() {}\n// === src/left.rs ===\npub fn l() {}\n"
            }
            _ => "// === src/main.rs ===\nfn main() {}\n// === src/right.rs ===\npub fn r() {}\n",
        };
        text.to_string()
    }));
    let s = skills();
    let b = brief(&s, "target implementer", 2);
    let built = world
        .drive(&b, &|log| Manager::implement_milestones(&b, "root", "Do it.", 0, None, log, 0))
        .unwrap();
    assert_eq!(at(&built, "src/left.rs").trim_end(), "pub fn l() {}");
    assert_eq!(at(&built, "src/right.rs").trim_end(), "pub fn r() {}");
}

#[test]
fn the_crate_is_written_out_one_artifact_for_each_file() {
    let out = emit_v2_source("```rust\n// === src/main.rs ===\nfn main() {}\n// === src/a.rs ===\nfn a() {}\n```\n");
    let mut written: Vec<(String, String)> =
        out.into_iter().map(|f| (f.path, f.content)).collect();
    written.sort();
    assert_eq!(
        written,
        vec![
            ("v2/src/a.rs".to_string(), "fn a() {}\n".to_string()),
            ("v2/src/main.rs".to_string(), "fn main() {}\n".to_string()),
        ]
    );
    assert_eq!(
        completion_note("m", 12, 3),
        "Synthesis complete. Model: m. Tokens: 12in/3out. Artifacts: objective_contract.md, schema.rs, refined_test_matrix.json, v2/. Deviations recorded in deviations.md (deferred to next phase)."
    );
}

#[test]
fn a_hard_milestone_is_planned_again_in_smaller_pieces() {
    let mut plans_asked = 0;
    let mut world = World::new(Box::new(move |system, _| {
        let text = match system {
            "security critic" => "COMPLIANT",
            "maintenance critic" => "APPROVE",
            "milestone planner" => {
                plans_asked += 1;
                if plans_asked == 1 {
                    "## MILESTONE: big\nRISK: HARD\nTASK: All of it.\n"
                } else {
                    "## MILESTONE: one\nRISK: EASY\nTASK: First.\n\n\
                     ## MILESTONE: two\nRISK: EASY\nTASK: Second.\n"
                }
            }
            _ => "// === src/main.rs ===\nfn main() {}\n// === src/a.rs ===\npub fn a() {}\n",
        };
        text.to_string()
    }));
    let s = skills();
    let b = brief(&s, "target implementer", 2);
    let built = world
        .drive(&b, &|log| Manager::implement_milestones(&b, "root", "Do it.", 0, None, log, 0))
        .unwrap();
    assert_eq!(plans(&world), 2);
    assert!(built.contains_key("src/a.rs"));
    let written = world.systems.iter().filter(|s| *s == "target implementer").count();
    assert_eq!(written, 2);
}

#[test]
fn a_large_source_is_written_in_chunks_and_merged() {
    let mut world = World::new(Box::new(|system, task| {
        let text = match system {
            "security critic" | "security critic, final" => "COMPLIANT",
            "maintenance critic" => "APPROVE",
            "formal methods critic" => "SOUND",
            "milestone planner" => "NONE",
            "merge agent" => "// === src/main.rs ===\nfn main() {}\n// === src/merged.rs ===\npub fn m() {}\n",
            "target implementer" if task.contains("Implement ONLY the items in this chunk") => {
                "pub fn part() {}\n"
            }
            _ => "// === src/main.rs ===\nfn main() {}\n// === src/merged.rs ===\npub fn m() {}\n",
        };
        text.to_string()
    }));
    world.slots = 2;
    let s = skills();
    let b = brief(&s, "target implementer", 2);
    let item = format!("fn f() {{\n{}}}\n", "    work();\n".repeat(1_000));
    let source = item.repeat(10);
    let code = world
        .drive(&b, &|log| {
            Manager::synthesize(
                &s, "target implementer", "contract", "schema", &source, "matrix", "analysis", "",
                2, log, 0,
            )
        })
        .unwrap();
    assert!(code.contains("// === src/merged.rs ==="), "got: {code}");
    assert!(world.systems.iter().any(|s| s == "merge agent"));
    let chunked = world.artifacts.keys().filter(|k| k.contains("chunk")).count();
    assert!(chunked >= 2, "got: {:?}", world.artifacts.keys());
}

#[test]
fn stages_go_by_their_own_names() {
    assert_eq!(stage_names("schema.rs"), Some(("Schema", "schema done")));
    assert_eq!(stage_names("v2.rs"), Some(("V2 synthesis", "v2 done")));
    assert_eq!(stage_names("synthesis/x.md"), None);
    assert_eq!(stage_line("Schema", false), "==> Schema");
    assert_eq!(stage_line("Schema", true), "==> Schema (resuming from checkpoint)");
}

#[test]
fn repairs_after_an_escalation_are_not_answered_with_earlier_ones() {
    assert_eq!(repair_name(None, 0, 1), "integration/repair/1");
    assert_eq!(repair_name(None, 2, 1), "integration/escalation/2/repair/1");
    assert_eq!(
        repair_name(Some(3), 0, 1),
        "review_panel/soundness_repair/3/integration/repair/1"
    );
    assert_eq!(fix_name(None, 1), "integration-fix/1");
    assert_eq!(fix_name(Some(0), 1), "review_panel/soundness_repair/0/integration-fix/1");

    // Nothing ever helps, so every attempt after every escalation asks anew.
    let mut world = World::new(Box::new(|system, _| {
        let text = match system {
            "milestone planner" => "NONE",
            _ => "// === src/main.rs ===\nfn main() {\n    undefined_fn();\n}\n",
        };
        text.to_string()
    }));
    let s = skills();
    let b = brief(&s, "target implementer", 2);
    let broken = Manager::parse_file_sections("fn main() {\n    undefined_fn();\n}\n");
    world
        .drive(&b, &|log| Manager::integration_check_and_repair(&b, None, broken.clone(), 0, log, 0))
        .unwrap_err();
    let kept: Vec<&String> = world.artifacts.keys().filter(|k| k.contains("/repair/")).collect();
    assert!(kept.contains(&&"synthesis/integration/repair/0.md".to_string()), "got: {kept:?}");
    assert!(
        kept.contains(&&"synthesis/integration/escalation/1/repair/1.md".to_string()),
        "got: {kept:?}"
    );
}

