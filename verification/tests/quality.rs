use rewriter_queue::gate::{GateEffect, GateReply, Output, Written};
use rewriter_queue::json::{parse_json, Json};
use rewriter_queue::manager::Manager;
use rewriter_queue::sections::Sections;
use rewriter_queue::steps::Pause;
use rewriter_queue::verdicts::verdict;
use rewriter_queue::workspace::Workspace;
use std::collections::BTreeMap;

fn at<'a>(s: &'a Sections, path: &str) -> &'a String {
    s.get(path).expect("the file stands in the sections")
}

/// A `.rs` file, then a marker for the manifest, then trailing prose: three separate things.
#[test]
fn cargo_toml_marker_and_trailing_prose_do_not_leak_into_the_previous_rs_file() {
    let raw = "// === src/lib.rs ===\n\
               pub mod research_database;\n\
               pub use research_database::ResearchDatabase;\n\
               ```\n\
               \n\
               ```rust\n\
               // === Cargo.toml ===\n\
               [package]\n\
               name = \"async_footguns_research\"\n\
               version = \"0.1.0\"\n\
               ```\n\
               \n\
               This implementation provides a complete Rust solution.\n";

    let sections = Manager::parse_file_sections(raw);

    let lib_rs = at(&sections, "src/lib.rs");
    assert!(lib_rs.contains("pub mod research_database;"));
    assert!(!lib_rs.contains("Cargo.toml"), "Cargo.toml leaked into lib.rs:\n{lib_rs}");
    assert!(!lib_rs.contains("[package]"), "Cargo.toml content leaked into lib.rs:\n{lib_rs}");
    assert!(
        !lib_rs.contains("complete Rust solution"),
        "trailing prose leaked into lib.rs:\n{lib_rs}"
    );

    let cargo_toml = at(&sections, "Cargo.toml");
    assert!(cargo_toml.contains("name = \"async_footguns_research\""));
}

#[test]
fn unrecognized_marker_ends_the_previous_section_without_starting_a_new_one() {
    let raw = "// === src/main.rs ===\n\
               fn main() {}\n\
               // === notes.txt ===\n\
               some commentary that should be discarded\n";
    let sections = Manager::parse_file_sections(raw);
    assert_eq!(at(&sections, "src/main.rs"), "fn main() {}\n");
    assert!(!sections.contains_key("notes.txt"));
    assert!(!at(&sections, "src/main.rs").contains("commentary"));
}

/// A closing fence, prose, and an opening fence, with no marker in between.
#[test]
fn stray_fences_and_trailing_prose_do_not_leak_into_the_previous_rs_file() {
    let raw = "// === src/main.rs ===\n\
               fn main() {\n\
               \x20   println!(\"hi\");\n\
               }\n\
               ```\n\
               \n\
               Now let's implement each module:\n\
               \n\
               ```\n\
               // === src/database.rs ===\n\
               pub struct Db;\n";

    let sections = Manager::parse_file_sections(raw);

    let main_rs = at(&sections, "src/main.rs");
    assert!(main_rs.contains("println!"));
    assert!(!main_rs.contains("```"), "stray fence leaked into main.rs:\n{main_rs}");
    assert!(
        !main_rs.contains("implement each module"),
        "trailing prose leaked into main.rs:\n{main_rs}"
    );
    assert_eq!(at(&sections, "src/database.rs"), "pub struct Db;\n");
}

#[test]
fn files_read_back_from_their_markers() {
    let mut s = Sections::new();
    s.insert("src/main.rs".into(), "fn main() {}\n".into());
    s.insert("Cargo.toml".into(), "[package]\n".into());
    s.insert("src/a.rs".into(), "pub fn a() {}\n\npub fn b() {}\n".into());
    let again = Manager::parse_file_sections(&Manager::format_multi_file(&s));
    assert_eq!(again.len(), 3);
    for path in ["src/main.rs", "Cargo.toml", "src/a.rs"] {
        // The newline between two files belongs to the first.
        assert_eq!(at(&again, path), &format!("{}\n", at(&s, path)));
    }
}

#[test]
fn code_without_markers_is_the_main_file() {
    let s = Manager::parse_file_sections("fn main() {}\n");
    assert_eq!(s.len(), 1);
    assert_eq!(at(&s, "src/main.rs"), "fn main() {}\n");
}

#[test]
fn fences_round_an_answer_are_taken_off() {
    assert_eq!(Manager::strip_fences("```rust\nfn a() {}\n```"), "fn a() {}");
    assert_eq!(Manager::strip_fences("fn a() {}"), "fn a() {}");
}

#[test]
fn long_output_is_cut_and_the_rest_counted() {
    assert_eq!(Manager::cap_output("a\nb\nc\nd\n", 2), "a\nb\n[... 2 more lines omitted]");
    assert_eq!(Manager::cap_output("a\nb\n", 2), "a\nb\n");
}

#[test]
fn a_verdict_is_read_whatever_its_case() {
    assert!(verdict("  Approved — fine", "APPROVED"));
    assert!(verdict("straße", "STRASSE"));
    assert!(!verdict("Not approved", "APPROVED"));
    assert!(!verdict("", "APPROVED"));
}

fn lint(rule: &str, file: &str, line: &str) -> Json {
    parse_json(&format!(
        "{{\"ruleId\": \"{rule}\", \"file\": \"{file}\", \"message\": \"Arc<Mutex<_>> field.\", \"lines\": \"{line}\"}}"
    ))
    .unwrap()
}

#[test]
fn groups_matches_by_rule_and_file_into_one_deviation_each() {
    let matches = vec![
        lint("reflexive-multi-mutex", "src/main.rs", "pub a: Arc<Mutex<A>>,"),
        lint("reflexive-multi-mutex", "src/main.rs", "pub b: Arc<Mutex<B>>,"),
        lint("reflexive-multi-mutex", "src/lib.rs", "pub c: Arc<Mutex<C>>,"),
    ];
    let notes = Manager::report_lint_matches(&matches);
    let deviations: String = notes.iter().map(|(agent, text)| format!("{agent}\n{text}\n")).collect();
    // One entry per rule and file: the two hits in main.rs are told together.
    assert_eq!(deviations.matches("ast-grep:reflexive-multi-mutex").count(), 2);
    assert!(deviations.contains("src/main.rs \u{2014} 2 match(es)"));
    assert!(deviations.contains("src/lib.rs \u{2014} 1 match(es)"));
    assert!(deviations.contains("pub a: Arc<Mutex<A>>,"));
    assert!(deviations.contains("pub b: Arc<Mutex<B>>,"));
    assert!(deviations.contains("pub c: Arc<Mutex<C>>,"));
}

#[test]
fn no_matches_means_no_deviation_written() {
    assert!(Manager::report_lint_matches(&[]).is_empty());
}

#[test]
fn lints_config_path_points_at_the_repo_lints_dir() {
    let path = Manager::lints_config_path("/repo/target/release/orchestrator").unwrap();
    assert!(path.ends_with("ai-org-orchestrator/lints/sgconfig.yml"));
    assert_eq!(path, "/repo/ai-org-orchestrator/lints/sgconfig.yml");
    assert_eq!(Manager::lints_config_path("orchestrator"), None);
}

/// Runs the quality gate on files in memory; `cargo` says what each command leaves behind.
fn gate(
    disk: &mut BTreeMap<String, String>,
    code: &str,
    cargo: &dyn Fn(&[String]) -> Result<Output, String>,
    scan: &dyn Fn() -> Result<Output, String>,
    notes: &mut Vec<String>,
) -> (String, String) {
    let ws = Workspace::new("/ws".to_string());
    let mut log: Vec<GateReply> = Vec::new();
    loop {
        match Manager::quality_gate(&ws, Some("/lints/sgconfig.yml"), code, None, &log, 0) {
            Ok((outcome, _)) => return outcome,
            Err(Pause::Fail(e)) => panic!("the quality gate gave up: {e}"),
            Err(Pause::Ask(effect)) => log.push(match effect {
                GateEffect::Exists { path } => GateReply::Flag(disk.contains_key(&path)),
                GateEffect::Sources { dir, from } => GateReply::Paths(
                    disk.keys()
                        .filter(|p| p.starts_with(&dir))
                        .map(|p| p[from.len() + 1..].to_string())
                        .collect(),
                ),
                GateEffect::Remove { path } => {
                    disk.remove(&path);
                    GateReply::Done
                }
                GateEffect::Put { path, content } => {
                    disk.insert(path, content);
                    GateReply::Put(Written::Done)
                }
                GateEffect::Get { path } => GateReply::Found(disk.get(&path).cloned()),
                GateEffect::Cargo { args } => GateReply::Ran(cargo(&args)),
                GateEffect::Scan { .. } => GateReply::Ran(scan()),
                GateEffect::Deviation { agent, text } => {
                    notes.push(format!("{agent}: {text}"));
                    GateReply::Done
                }
            }),
        }
    }
}

fn fine() -> Result<Output, String> {
    Ok(Output { success: true, stdout: String::new(), stderr: String::new() })
}

fn disk() -> BTreeMap<String, String> {
    let mut disk = BTreeMap::new();
    disk.insert("/ws/artifacts/v2/Cargo.toml".to_string(), "[package]\n".to_string());
    disk
}

#[test]
fn a_crate_without_a_manifest_is_not_built() {
    let mut empty = BTreeMap::new();
    let (clean, errors) = gate(
        &mut empty,
        "```rust\nfn a() {}\n```",
        &|_| panic!("nothing to build"),
        &fine,
        &mut Vec::new(),
    );
    assert_eq!(clean, "fn a() {}");
    assert_eq!(errors, "");
}

#[test]
fn stale_sources_are_swept_before_a_draft_is_built() {
    let mut disk = disk();
    disk.insert("/ws/artifacts/v2/src/old.rs".into(), "gone".into());
    let (clean, errors) =
        gate(&mut disk, "fn main() {}\n", &|_| fine(), &|| Err("none".into()), &mut Vec::new());
    assert_eq!(clean, "fn main() {}");
    assert_eq!(errors, "");
    assert!(!disk.contains_key("/ws/artifacts/v2/src/old.rs"));
    assert_eq!(disk["/ws/artifacts/v2/src/main.rs"], "fn main() {}");
}

#[test]
fn a_manifest_that_does_not_parse_is_an_issue() {
    let (_, errors) = gate(
        &mut disk(),
        "// === src/main.rs ===\nfn main() {}\n// === Cargo.toml ===\n[package\n",
        &|_| fine(),
        &|| Err("none".into()),
        &mut Vec::new(),
    );
    assert!(errors.contains("did not parse as valid TOML"), "got: {errors}");
    let (_, errors) = gate(
        &mut disk(),
        "// === src/main.rs ===\nfn main() {}\n// === Cargo.toml ===\n[package]\nname = \"t\"\n",
        &|_| fine(),
        &|| Err("none".into()),
        &mut Vec::new(),
    );
    assert_eq!(errors, "");
}

#[test]
fn a_file_that_is_too_long_is_an_issue() {
    let long = "// line\n".repeat(501);
    let (_, errors) =
        gate(&mut disk(), &long, &|_| fine(), &|| Err("none".into()), &mut Vec::new());
    assert!(errors.contains("500-line limit"), "got: {errors}");
    let just = "// line\n".repeat(500);
    let (_, errors) =
        gate(&mut disk(), &just, &|_| fine(), &|| Err("none".into()), &mut Vec::new());
    assert_eq!(errors, "");
}

#[test]
fn lint_findings_are_noted_and_fail_nothing() {
    let mut notes = Vec::new();
    let mut disk = disk();
    disk.insert("/lints/sgconfig.yml".into(), String::new());
    let (_, errors) = gate(
        &mut disk,
        "fn main() {}\n",
        &|_| fine(),
        &|| {
            Ok(Output {
                success: true,
                stdout: "[{\"ruleId\":\"r\",\"file\":\"f.rs\",\"message\":\"m\",\"lines\":\"l\"}]".into(),
                stderr: String::new(),
            })
        },
        &mut notes,
    );
    assert_eq!(errors, "");
    assert_eq!(notes.len(), 1);
    assert_eq!(notes[0], "ast-grep:r: m\n\nf.rs \u{2014} 1 match(es):\nl");
}

#[test]
fn a_build_that_cannot_be_run_is_an_issue() {
    let (_, errors) = gate(
        &mut disk(),
        "fn main() {}\n",
        &|args| if args[0] == "build" { Err("no cargo".into()) } else { fine() },
        &fine,
        &mut Vec::new(),
    );
    assert_eq!(errors, "cargo build not available: no cargo");
}

#[test]
fn a_carriage_return_inside_a_path_or_a_line_reads_back() {
    let mut s = Sections::new();
    s.insert("src/a\rb.rs".to_string(), "x\ry\n".to_string());
    let again = Manager::parse_file_sections(&Manager::format_multi_file(&s));
    assert_eq!(again.len(), 1);
    assert_eq!(again.get("src/a\rb.rs").map(String::as_str), Some("x\ry\n\n"));
}

#[test]
fn whatever_the_rules_answer_the_outcome_is_the_same() {
    let code = "fn main() {}\n";
    let hit = "[{\"ruleId\": \"r\", \"file\": \"src/main.rs\", \"lines\": \"fn main() {}\"}]";
    let failing = |args: &[String]| {
        let well = args[0] != "test";
        Ok(Output { success: well, stdout: "1 failed".into(), stderr: String::new() })
    };
    let mut outcomes = Vec::new();
    for answer in [Some(hit), Some("[]"), Some("nonsense"), None] {
        let scan = || match answer {
            Some(text) => {
                Ok(Output { success: true, stdout: text.to_string(), stderr: String::new() })
            }
            None => Err("no such program".to_string()),
        };
        let mut files = disk();
        files.insert("/lints/sgconfig.yml".into(), String::new());
        let mut notes = Vec::new();
        outcomes.push(gate(&mut files, code, &failing, &scan, &mut notes));
    }
    let mut files = disk();
    outcomes.push(gate(&mut files, code, &failing, &fine, &mut Vec::new()));
    assert!(outcomes[0].1.contains("1 failed"), "got: {}", outcomes[0].1);
    assert!(outcomes.iter().all(|o| *o == outcomes[0]), "got: {outcomes:?}");
}
