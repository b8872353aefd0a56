use rewriter_queue::archive::{archived_name, skipped};
use rewriter_queue::json::{list, object, parse_json, text, Json};
use rewriter_queue::paths::join_path;
use rewriter_queue::tools::{PipelineToolbox, ToolRequest, MAX_LISTING_ENTRIES, MAX_READ_BYTES};
use rewriter_queue::workspace::Workspace;
use std::collections::BTreeMap;

/// A source tree and a workspace in memory.
struct World {
    source: BTreeMap<String, String>,
    disk: BTreeMap<String, String>,
    ws: Workspace,
    handed_out: Vec<String>,
}

fn world(files: &[(&str, &str)]) -> World {
    World {
        source: files.iter().map(|(p, c)| (join_path("/src", p), c.to_string())).collect(),
        disk: BTreeMap::new(),
        ws: Workspace::new("/ws".to_string()),
        handed_out: Vec::new(),
    }
}

/// What a path comes to once its `..` parts are resolved.
fn canonical(path: &str) -> String {
    let mut parts: Vec<&str> = Vec::new();
    for part in path.split('/').filter(|p| !p.is_empty() && *p != ".") {
        if part == ".." {
            parts.pop();
        } else {
            parts.push(part);
        }
    }
    format!("/{}", parts.join("/"))
}

impl World {
    fn resolve(&self, rel: &str) -> Result<String, String> {
        let root = PipelineToolbox::source_root(Ok("/src".to_string()))?;
        let path = canonical(&PipelineToolbox::candidate(&root, rel));
        let there = self.source.keys().any(|p| p == &path || p.starts_with(&format!("{path}/")))
            || !path.starts_with("/src");
        let found = if there { Ok(path) } else { Err("No such file or directory".to_string()) };
        PipelineToolbox::resolve_in_source(rel, &root, found)
    }

    fn call(&mut self, name: &str, arguments: &Json) -> String {
        match PipelineToolbox::call(name, arguments) {
            ToolRequest::Refused(text) => text,
            ToolRequest::ListFiles(rel) => {
                let dir = if rel.is_empty() { Ok("/src".to_string()) } else { self.resolve(&rel) };
                match dir {
                    Err(e) => e,
                    Ok(dir) => {
                        let files: Vec<String> = self
                            .source
                            .keys()
                            .filter_map(|p| p.strip_prefix(&format!("{dir}/")))
                            .map(str::to_string)
                            .collect();
                        let start = dir.rsplit('/').next().unwrap();
                        let at = dir.strip_prefix("/src").unwrap().trim_start_matches('/');
                        PipelineToolbox::list_files(start, at, &files)
                    }
                }
            }
            ToolRequest::ReadFile(rel) => match self.resolve(&rel) {
                Err(e) => e,
                Ok(path) => {
                    PipelineToolbox::read_file(&rel, Ok(self.source[&path].clone()))
                }
            },
            ToolRequest::ReadArtifact(name) => {
                let found = self.disk.get(&self.ws.get_artifact(&name)).cloned();
                PipelineToolbox::read_artifact(&name, found)
            }
            ToolRequest::WriteArtifact { name, content } => {
                let w = self.ws.emit_artifact(&name, &content);
                self.disk.insert(w.path, w.content);
                PipelineToolbox::write_artifact(&name, &content, Ok(()))
            }
            ToolRequest::FanOut(tasks) => {
                let results: Vec<Result<String, String>> =
                    tasks.iter().map(|t| Ok(format!("answer to: {t}"))).collect();
                self.handed_out.extend(tasks);
                PipelineToolbox::fan_out(&results)
            }
        }
    }
}

fn args(members: &str) -> Json {
    parse_json(members).unwrap()
}

#[test]
fn list_files_finds_every_file_and_skips_ignored_dirs() {
    let mut w = world(&[
        ("src/main.rs", "fn main() {}"),
        ("target/debug/foo", "binary junk"),
        (".git/HEAD", "ref: refs/heads/main"),
    ]);
    let out = w.call("list_files", &args("{}"));
    assert!(out.contains("src/main.rs"), "got: {out}");
    assert!(!out.contains("target/"), "got: {out}");
    assert!(!out.contains(".git"), "got: {out}");
}

#[test]
fn list_files_can_be_scoped_to_a_subdirectory() {
    let mut w = world(&[("src/main.rs", "a"), ("docs/readme.md", "b")]);
    let out = w.call("list_files", &args("{\"path\": \"src\"}"));
    assert!(out.contains("src/main.rs"), "got: {out}");
    assert!(!out.contains("docs/readme.md"), "got: {out}");
}

#[test]
fn read_file_returns_content() {
    let mut w = world(&[("src/main.rs", "fn main() {}\n")]);
    assert_eq!(w.call("read_file", &args("{\"path\": \"src/main.rs\"}")), "fn main() {}\n");
}

#[test]
fn read_file_rejects_path_traversal_outside_the_source_dir() {
    let mut w = world(&[("src/main.rs", "fn main() {}\n")]);
    let out = w.call("read_file", &args("{\"path\": \"../../etc/passwd\"}"));
    assert!(
        out.contains("escapes") || out.contains("not found"),
        "expected a refusal, got: {out}"
    );
}

#[test]
fn read_file_errors_clearly_for_a_missing_file() {
    let mut w = world(&[]);
    assert!(w.call("read_file", &args("{\"path\": \"nope.rs\"}")).contains("not found"));
}

#[test]
fn write_then_read_artifact_round_trips() {
    let mut w = world(&[]);
    let write_result = w.call(
        "write_artifact",
        &args("{\"name\": \"schema.rs\", \"content\": \"pub struct X;\"}"),
    );
    assert!(write_result.contains("wrote"), "got: {write_result}");
    assert_eq!(w.call("read_artifact", &args("{\"name\": \"schema.rs\"}")), "pub struct X;");
}

#[test]
fn read_artifact_reports_a_missing_artifact_clearly() {
    let mut w = world(&[]);
    assert!(w.call("read_artifact", &args("{\"name\": \"nope.md\"}")).contains("no artifact"));
}

#[test]
fn unknown_tool_name_is_a_clear_error() {
    let mut w = world(&[]);
    assert!(w.call("frobnicate", &args("{}")).contains("unknown tool"));
}

#[test]
fn tool_defs_names_match_what_call_dispatches_on() {
    let defs = PipelineToolbox::tool_defs();
    let names: Vec<&str> = defs.iter().map(|t| t.name.as_str()).collect();
    assert_eq!(
        names,
        vec!["list_files", "read_file", "read_artifact", "write_artifact", "fan_out"]
    );
}

#[test]
fn fan_out_runs_tasks_concurrently_and_labels_each_result() {
    let mut w = world(&[]);
    let out = w.call("fan_out", &args("{\"tasks\": [\"task A\", \"task B\"]}"));
    assert_eq!(w.handed_out.len(), 2);
    assert!(out.contains("## Result 1"), "got: {out}");
    assert!(out.contains("## Result 2"), "got: {out}");
    assert!(out.contains("answer to: task"), "got: {out}");
}

#[test]
fn arguments_that_are_missing_are_refused() {
    for (name, said) in [
        ("read_file", "error: \"path\" argument is required"),
        ("read_artifact", "error: \"name\" argument is required"),
        ("write_artifact", "error: \"name\" and \"content\" arguments are both required"),
        ("fan_out", "error: \"tasks\" argument (an array of task strings) is required"),
    ] {
        assert_eq!(PipelineToolbox::call(name, &args("{}")), ToolRequest::Refused(said.into()));
    }
    let none = object(vec![("tasks", list(vec![Json::Flag(true)]))]);
    assert_eq!(
        PipelineToolbox::call("fan_out", &none),
        ToolRequest::Refused("error: \"tasks\" must contain at least one task string".into())
    );
    let some = object(vec![("tasks", list(vec![text("a"), Json::Null, text("b")]))]);
    assert_eq!(
        PipelineToolbox::call("fan_out", &some),
        ToolRequest::FanOut(vec!["a".into(), "b".into()])
    );
}

#[test]
fn a_long_list_is_cut_and_a_long_file_truncated() {
    let files: Vec<String> = (0..MAX_LISTING_ENTRIES + 3).map(|i| format!("f{i:05}")).collect();
    let out = PipelineToolbox::list_files("src", "", &files);
    assert!(out.ends_with(
        "... [3 more file(s) omitted — list a subdirectory to narrow this down]"
    ));
    assert_eq!(out.lines().count(), MAX_LISTING_ENTRIES + 1);
    assert_eq!(PipelineToolbox::list_files("src", "", &[]), "(no files found)");
    let shown = PipelineToolbox::read_file("f", Ok("x".repeat(MAX_READ_BYTES + 1)));
    assert!(shown.starts_with(&"x".repeat(MAX_READ_BYTES)));
    assert!(shown.contains("truncated at 60000 bytes"));
    let failed = PipelineToolbox::read_file("f", Err("bad".into()));
    assert!(failed.starts_with("error reading \"f\": bad"), "got: {failed}");
}

#[test]
fn one_failed_answer_does_not_hide_the_others() {
    let out = PipelineToolbox::fan_out(&[Ok("fine".into()), Err("lost".into())]);
    assert_eq!(out, "## Result 1\nfine\n\n## Result 2 (failed)\nlost");
}

#[test]
fn build_output_is_not_archived() {
    assert!(skipped("target") && !skipped("src"));
    assert_eq!(archived_name("source", "nested/mod.rs"), Some("source/nested/mod.rs".into()));
    assert_eq!(archived_name("source", "target/junk"), None);
    assert_eq!(archived_name("source", ""), None);
}

#[test]
fn listing_a_file_names_the_file() {
    let itself = vec![String::new()];
    assert_eq!(PipelineToolbox::list_files("main.rs", "src/main.rs", &itself), "src/main.rs");
    assert_eq!(PipelineToolbox::list_files(".env", ".env", &itself), "(no files found)");
}
