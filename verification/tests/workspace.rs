use rewriter_queue::chunks::CHUNK_TARGET;
use rewriter_queue::effects::{Effect, Reply, Work};
use rewriter_queue::manager::Manager;
use rewriter_queue::manifests::{
    find_workspace_cargo, parse_workspace_deps, resolve_cargo_toml, v2_manifest, Candidate,
    BARE_MANIFEST,
};
use rewriter_queue::sections::{Section, Sections};
use rewriter_queue::steps::Pause;
use rewriter_queue::workspace::{ignored, read_source_dir, Workspace};
use std::collections::BTreeMap;

/// Carries out a checkpoint on artifacts in memory; `answer` is asked where none is kept.
fn run<T>(
    artifacts: &mut BTreeMap<String, String>,
    f: &dyn Fn(&[Reply]) -> Work<T>,
    answer: &mut dyn FnMut(&Effect) -> Reply,
) -> T {
    let mut log: Vec<Reply> = Vec::new();
    loop {
        match f(&log) {
            Ok((value, _)) => return value,
            Err(Pause::Fail(e)) => panic!("{e}"),
            Err(Pause::Ask(effect)) => {
                let reply = match effect {
                    Effect::Recall { name } => Reply::Found(artifacts.get(&name).cloned()),
                    Effect::Store { name, content } => {
                        artifacts.insert(name, content);
                        Reply::Done
                    }
                    other => answer(&other),
                };
                log.push(reply);
            }
        }
    }
}

fn ask() -> Effect {
    Effect::Agent { agent: "A".into(), system: "s".into(), task: "t".into(), slot: None }
}

fn checkpoint(artifacts: &mut BTreeMap<String, String>, id: &str, text: &str, calls: &mut u32) -> String {
    run(artifacts, &|log| Workspace::checkpoint(id, ask(), log, 0), &mut |_| {
        *calls += 1;
        Reply::Text(text.to_string())
    })
}

#[test]
fn checkpoint_runs_once_then_replays_from_cache() {
    let mut artifacts = BTreeMap::new();
    let mut calls = 0;
    assert_eq!(checkpoint(&mut artifacts, "step", "first", &mut calls), "first");
    assert_eq!(calls, 1);
    // The second time nothing is asked: this is how a run is resumed.
    assert_eq!(checkpoint(&mut artifacts, "step", "second", &mut calls), "first");
    assert_eq!(calls, 1);
}

#[test]
fn distinct_ids_do_not_collide() {
    let mut artifacts = BTreeMap::new();
    let mut calls = 0;
    assert_eq!(checkpoint(&mut artifacts, "chunk/0/implement", "a", &mut calls), "a");
    assert_eq!(checkpoint(&mut artifacts, "chunk/1/implement", "b", &mut calls), "b");
}

fn gate(artifacts: &mut BTreeMap<String, String>, live: usize) -> usize {
    run(
        artifacts,
        &|log| Workspace::gate_usize("fanout_degree", Effect::Slots, 1, log, 0),
        &mut |_| Reply::Count(live),
    )
}

#[test]
fn gate_pins_the_first_answer_despite_a_different_later_closure() {
    let mut artifacts = BTreeMap::new();
    assert_eq!(gate(&mut artifacts, 4), 4);
    // Live state would now answer differently; the recorded value still counts.
    assert_eq!(gate(&mut artifacts, 99), 4);
}

#[test]
fn a_gate_is_never_less_than_its_least_value() {
    assert_eq!(gate(&mut BTreeMap::new(), 0), 1);
}

#[test]
fn records_are_stamped_with_the_time() {
    let ws = Workspace::new("/ws".to_string());
    let w = ws.log_deviation("Agent", "it differs", 0);
    assert_eq!(w.path, ws.deviations_path());
    assert_eq!(
        w.content,
        "\n---\n**[1970-01-01T00:00:00Z] Agent**\n\nit differs\n\n*Status: deferred — continue as planned*\n"
    );
    let d = ws.log_agent_decision("Agent", "go on", 1_767_225_600);
    assert_eq!(d.content, "\n---\n**[2026-01-01T00:00:00Z]** go on\n");
    let r = ws.log_retrospective("done", 1);
    assert_eq!(r.content, "\n---\n**[1970-01-01T00:00:01Z]**\n\ndone\n");
    assert_eq!(
        ws.log_retrospective("far", i64::MAX).content,
        "\n---\n**[]**\n\nfar\n"
    );
}

#[test]
fn files_stand_under_the_root() {
    let ws = Workspace::new("/ws".to_string());
    assert_eq!(ws.emit_artifact("schema.rs", "x").path, "/ws/artifacts/schema.rs");
    assert_eq!(ws.get_artifact("schema.rs"), "/ws/artifacts/schema.rs");
    assert_eq!(ws.v2_dir(None), "/ws/artifacts/v2");
    assert_eq!(ws.v2_dir(Some("a")), "/ws/artifacts/fanout/a");
    let seeding = ws.seed_variant_workspace(None, "a");
    assert_eq!(seeding.from, "/ws/artifacts/v2/Cargo.toml");
    assert_eq!(seeding.to, "/ws/artifacts/fanout/a/Cargo.toml");
}

#[test]
fn test_cases_are_put_together_in_order_up_to_a_limit() {
    assert_eq!(Workspace::read_test_matrix(None), "*(no test matrix)*");
    let mut cases = Sections::new();
    cases.insert("b.md".into(), "two".into());
    cases.insert("a.md".into(), "one".into());
    assert_eq!(Workspace::read_test_matrix(Some(&cases)), "one\n---\n\ntwo\n---\n\n");
    cases.insert("c.md".into(), "x".repeat(50_001));
    assert!(Workspace::read_test_matrix(Some(&cases)).ends_with("size limit]\n"));
}

fn file(path: &str, content: String) -> Section {
    Section { path: path.to_string(), content }
}

#[test]
fn source_files_stand_in_the_order_of_their_paths() {
    let out = read_source_dir(&[
        file("src/main.rs", "fn main() {}".into()),
        file("src/a/deep.rs", "x".into()),
        file("src/a.rs", "y".repeat(200_000)),
    ]);
    let deep = out.find("// === src/a/deep.rs ===").unwrap();
    let a = out.find("// === src/a.rs ===").unwrap();
    let main = out.find("// === src/main.rs ===").unwrap();
    assert!(deep < a && a < main);
    assert!(out.contains("// === src/a.rs ===\n// [omitted: combined source size limit reached]\n"));
    assert!(out.contains("fn main() {}\n"));
    assert!(ignored("target") && ignored(".git") && !ignored("src"));
}

#[test]
fn a_large_source_is_split_where_items_begin() {
    let item = format!("fn f() {{\n{}}}\n", "    work();\n".repeat(400));
    let source = item.repeat(6);
    let parts = Manager::split_source_n(&source, 3);
    assert!(parts.len() > 1);
    assert_eq!(parts.concat(), source);
    assert!(parts.iter().all(|p| p.starts_with("fn f()")));
    assert!(parts[0].len() >= CHUNK_TARGET);
    assert_eq!(Manager::split_source_n("fn a() {}\n", 4), vec!["fn a() {}\n".to_string()]);
}

#[test]
fn inherited_dependencies_are_written_out() {
    let root = "[workspace]\nmembers = [\"a\"]\n\n[workspace.dependencies]\nserde = { version = \"1\", features = [\"derive\"] }\nlibc = \"0.2\"\n";
    let deps = parse_workspace_deps(root);
    assert_eq!(deps.get("libc").map(String::as_str), Some("\"0.2\""));
    let source = "[package]\nname = \"old\"\nversion = \"0.1.0\"\n\n[dependencies]\nserde = { workspace = true }\nlibc = { workspace = true }\n";
    let out = resolve_cargo_toml(source, root, "v2");
    assert!(out.contains("name = \"v2\""), "got: {out}");
    assert!(!out.contains("workspace = true"), "got: {out}");
    assert!(out.contains("libc = \"0.2\""), "got: {out}");
    assert!(v2_manifest(source, None).len() > 0);
    assert!(BARE_MANIFEST.contains("name = \"v2\""));
}

#[test]
fn the_nearest_workspace_manifest_is_taken() {
    let found = find_workspace_cargo(&[
        Candidate::Missing,
        Candidate::Read("[package]\n".into()),
        Candidate::Read("[workspace]\nmembers = []\n".into()),
        Candidate::Read("[workspace]\nmembers = [\"x\"]\n".into()),
    ]);
    assert_eq!(found, Some("[workspace]\nmembers = []\n".to_string()));
    assert_eq!(find_workspace_cargo(&[Candidate::Missing]), None);
}
