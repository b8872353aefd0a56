//! The tools that agents are given: to look around the source, to read and write artifacts,
//! and to hand out work.

use crate::copied::views;
use crate::json::{
    as_list, as_text, field, json_views, lemma_json_views, list, object, pairs, text, Json,
    JsonView,
};
use crate::numbers::{decimal, decimal_text};
use crate::order::{sort, sorted};
use crate::paths::{join_path, path_join, unroot, unrooted};
use crate::text::{
    byte_len, bytes, has, join, joined, lemma_joined_has, opt, pieces, same, split, starts_with,
    texts,
};
use crate::types::{ToolDef, ToolDefView};
use crate::workspace::{ignored, is_ignored};
use vstd::prelude::*;
use vstd::string::StringExecFns;
use vstd::utf8::{decode_utf8, encode_utf8, is_char_boundary};

verus! {

/// The most files that a listing names.
pub const MAX_LISTING_ENTRIES: usize = 2000;

/// The most bytes of a file that are shown.
pub const MAX_READ_BYTES: usize = 60_000;

pub const LIST_FILES: &'static str = "List file paths under the V1 source directory, optionally scoped to a subdirectory. Use this to see the project's shape before deciding what to read.";

pub const LIST_PATH: &'static str = "Subdirectory to list, relative to the source root. Omit to list the whole tree.";

pub const READ_FILE: &'static str = "Read one file's full text content from the V1 source directory.";

pub const READ_PATH: &'static str = "File path relative to the source root.";

pub const READ_ARTIFACT: &'static str = "Read a pipeline artifact another stage already produced — e.g. objective_contract.md, schema.rs, inductive_analysis.md, refined_test_matrix.json — instead of needing it pasted into your prompt.";

pub const ARTIFACT_NAME: &'static str = "Artifact name, e.g. \"schema.rs\".";

pub const WRITE_ARTIFACT: &'static str = "Write (or overwrite) a named pipeline artifact directly, instead of only returning it as your final answer.";

pub const FAN_OUT: &'static str = "Delegate two or more genuinely independent sub-tasks (e.g. analyzing unrelated subsystems of a large source tree) to concurrent copies of yourself, each with the same role, and get their answers back. Not for a single sequential train of thought — only for work that's actually separable.";

pub const FAN_OUT_TASKS: &'static str = "Independent sub-task descriptions to run in parallel.";

/// What a tool call asks for.
#[derive(Debug, PartialEq)]
pub enum ToolRequest {
    /// The files under a directory; under the whole source where none is named.
    ListFiles(String),
    ReadFile(String),
    ReadArtifact(String),
    WriteArtifact { name: String, content: String },
    FanOut(Vec<String>),
    /// Nothing but to be told this.
    Refused(String),
}

/// What a tool call asks for, by its contents.
pub enum ToolRequestView {
    ListFiles(Seq<char>),
    ReadFile(Seq<char>),
    ReadArtifact(Seq<char>),
    WriteArtifact { name: Seq<char>, content: Seq<char> },
    FanOut(Seq<Seq<char>>),
    Refused(Seq<char>),
}

impl View for ToolRequest {
    type V = ToolRequestView;

    open spec fn view(&self) -> ToolRequestView {
        match self {
            ToolRequest::ListFiles(s) => ToolRequestView::ListFiles(s@),
            ToolRequest::ReadFile(s) => ToolRequestView::ReadFile(s@),
            ToolRequest::ReadArtifact(s) => ToolRequestView::ReadArtifact(s@),
            ToolRequest::WriteArtifact { name, content } => ToolRequestView::WriteArtifact {
                name: name@,
                content: content@,
            },
            ToolRequest::FanOut(tasks) => ToolRequestView::FanOut(texts(tasks@)),
            ToolRequest::Refused(s) => ToolRequestView::Refused(s@),
        }
    }
}

/// The texts in a list; what is no text is passed over.
pub open spec fn texts_in(items: Seq<JsonView>) -> Seq<Seq<char>>
    decreases items.len(),
{
    if items.len() == 0 {
        Seq::empty()
    } else {
        match as_text(items.last()) {
            Some(s) => texts_in(items.drop_last()).push(s),
            None => texts_in(items.drop_last()),
        }
    }
}

/// The schema of an argument that is a text.
pub open spec fn a_text() -> JsonView {
    JsonView::Object(seq![("type"@, JsonView::Text("string"@))])
}

/// The schema of an argument that is a text and says what it is for.
pub open spec fn described_text(description: Seq<char>) -> JsonView {
    JsonView::Object(
        seq![
            ("description"@, JsonView::Text(description)),
            ("type"@, JsonView::Text("string"@)),
        ],
    )
}

/// The schema of the arguments of a tool, those that it cannot do without named.
pub open spec fn schema(
    properties: Seq<(Seq<char>, JsonView)>,
    required: Seq<Seq<char>>,
) -> JsonView {
    JsonView::Object(
        seq![
            ("properties"@, JsonView::Object(properties)),
            ("required"@, JsonView::List(required.map_values(|s: Seq<char>| JsonView::Text(s)))),
            ("type"@, JsonView::Text("object"@)),
        ],
    )
}

/// The tools that an agent is told of.
pub open spec fn offered_tools() -> Seq<ToolDefView> {
    seq![
        ToolDefView {
            name: "list_files"@,
            description: LIST_FILES@,
            parameters: JsonView::Object(
                seq![
                    (
                        "properties"@,
                        JsonView::Object(seq![("path"@, described_text(LIST_PATH@))]),
                    ),
                    ("type"@, JsonView::Text("object"@)),
                ],
            ),
        },
        ToolDefView {
            name: "read_file"@,
            description: READ_FILE@,
            parameters: schema(seq![("path"@, described_text(READ_PATH@))], seq!["path"@]),
        },
        ToolDefView {
            name: "read_artifact"@,
            description: READ_ARTIFACT@,
            parameters: schema(seq![("name"@, described_text(ARTIFACT_NAME@))], seq!["name"@]),
        },
        ToolDefView {
            name: "write_artifact"@,
            description: WRITE_ARTIFACT@,
            parameters: schema(
                seq![("content"@, a_text()), ("name"@, a_text())],
                seq!["name"@, "content"@],
            ),
        },
        ToolDefView {
            name: "fan_out"@,
            description: FAN_OUT@,
            parameters: schema(
                seq![
                    (
                        "tasks"@,
                        JsonView::Object(
                            seq![
                                ("description"@, JsonView::Text(FAN_OUT_TASKS@)),
                                ("items"@, a_text()),
                                ("type"@, JsonView::Text("array"@)),
                            ],
                        ),
                    ),
                ],
                seq!["tasks"@],
            ),
        },
    ]
}

/// What a call of tool `name` asks for.
pub open spec fn requested(name: Seq<char>, arguments: JsonView) -> ToolRequestView {
    if name == "list_files"@ {
        match as_text(field(arguments, "path"@)) {
            Some(path) => ToolRequestView::ListFiles(path),
            None => ToolRequestView::ListFiles(Seq::empty()),
        }
    } else if name == "read_file"@ {
        match as_text(field(arguments, "path"@)) {
            Some(path) => ToolRequestView::ReadFile(path),
            None => ToolRequestView::Refused("error: \"path\" argument is required"@),
        }
    } else if name == "read_artifact"@ {
        match as_text(field(arguments, "name"@)) {
            Some(name) => ToolRequestView::ReadArtifact(name),
            None => ToolRequestView::Refused("error: \"name\" argument is required"@),
        }
    } else if name == "write_artifact"@ {
        match (as_text(field(arguments, "name"@)), as_text(field(arguments, "content"@))) {
            (Some(name), Some(content)) => ToolRequestView::WriteArtifact { name, content },
            _ => ToolRequestView::Refused(
                "error: \"name\" and \"content\" arguments are both required"@,
            ),
        }
    } else if name == "fan_out"@ {
        match as_list(field(arguments, "tasks"@)) {
            None => ToolRequestView::Refused(
                "error: \"tasks\" argument (an array of task strings) is required"@,
            ),
            Some(items) => if texts_in(items).len() == 0 {
                ToolRequestView::Refused(
                    "error: \"tasks\" must contain at least one task string"@,
                )
            } else {
                ToolRequestView::FanOut(texts_in(items))
            },
        }
    } else {
        ToolRequestView::Refused(unknown_tool(name))
    }
}

/// What is said of a tool that there is not.
pub open spec fn unknown_tool(name: Seq<char>) -> Seq<char> {
    "error: unknown tool \""@ + name + "\""@
}

/// Whether no part of a path is ignored.
pub open spec fn visible(path: Seq<char>) -> bool {
    forall|i: int|
        0 <= i < pieces(path, '/').len() ==> !is_ignored(#[trigger] pieces(path, '/')[i])
}

/// The path from the root of what stands at `rel` from the place `at`: the place itself, where
/// `rel` is empty.
pub open spec fn from_root(at: Seq<char>, rel: Seq<char>) -> Seq<char> {
    if rel.len() == 0 {
        at
    } else {
        path_join(at, rel)
    }
}

/// The files under a directory of name `start` that are source, each under its path from the
/// root, `at` being the directory's own path from there. Where `start` is itself a file, it is
/// listed alone, its path from there being empty.
pub open spec fn source_files(
    start: Seq<char>,
    at: Seq<char>,
    files: Seq<Seq<char>>,
) -> Seq<Seq<char>>
    decreases files.len(),
{
    if files.len() == 0 || is_ignored(start) {
        Seq::empty()
    } else {
        let rest = source_files(start, at, files.drop_last());
        if visible(files.last()) {
            rest.push(from_root(at, files.last()))
        } else {
            rest
        }
    }
}

/// What a list of files says: the files in order, at most `MAX_LISTING_ENTRIES` of them.
pub open spec fn listed_files(entries: Seq<Seq<char>>) -> Seq<char> {
    let all = sorted(entries);
    if entries.len() == 0 {
        "(no files found)"@
    } else if entries.len() > MAX_LISTING_ENTRIES {
        joined(
            all.take(MAX_LISTING_ENTRIES as int).push(
                "... ["@ + decimal((entries.len() - MAX_LISTING_ENTRIES) as nat)
                    + " more file(s) omitted — list a subdirectory to narrow this down]"@,
            ),
            "\n"@,
        )
    } else {
        joined(all, "\n"@)
    }
}

/// What is shown of a file: its first `MAX_READ_BYTES` bytes.
pub open spec fn shown_file(rel: Seq<char>, read: Result<Seq<char>, Seq<char>>) -> Seq<char> {
    match read {
        Ok(content) => if byte_len(content) > MAX_READ_BYTES {
            decode_utf8(encode_utf8(content).subrange(0, MAX_READ_BYTES as int))
                + "\n... [truncated at "@ + decimal(MAX_READ_BYTES as nat)
                + " bytes — read a narrower range or a different file if you need more]"@
        } else {
            content
        },
        Err(e) => "error reading \""@ + rel + "\": "@ + e
            + " (binary or non-UTF-8 files can't be read this way)"@,
    }
}

/// Whether `path` is `root` or stands under it.
pub open spec fn is_under(path: Seq<char>, root: Seq<char>) -> bool {
    ||| path == root
    ||| root == "/"@ && "/"@.is_prefix_of(path)
    ||| (root + "/"@).is_prefix_of(path)
}

/// The file that `rel` names, given what its path under `root` comes to once it is resolved:
/// nothing outside `root`.
pub open spec fn resolved(
    rel: Seq<char>,
    root: Seq<char>,
    canonical: Result<Seq<char>, Seq<char>>,
) -> Result<Seq<char>, Seq<char>> {
    match canonical {
        Err(e) => Err("\""@ + rel + "\" not found under the source directory: "@ + e),
        Ok(path) => if is_under(path, root) {
            Ok(path)
        } else {
            Err("\""@ + rel + "\" escapes the source directory — refusing to read it"@)
        },
    }
}

/// One answer of several, under its number.
pub open spec fn labelled(result: Result<String, String>, i: nat) -> Seq<char> {
    match result {
        Ok(text) => "## Result "@ + decimal(i + 1) + "\n"@ + text@,
        Err(e) => "## Result "@ + decimal(i + 1) + " (failed)\n"@ + e@,
    }
}

/// The answers to work that was handed out, each under its number.
pub open spec fn labelled_all(results: Seq<Result<String, String>>) -> Seq<char> {
    joined(Seq::new(results.len(), |i: int| labelled(results[i], i as nat)), "\n\n"@)
}

/// The view of a result that is text in either case.
pub open spec fn either(r: Result<String, String>) -> Result<Seq<char>, Seq<char>> {
    match r {
        Ok(s) => Ok(s@),
        Err(e) => Err(e@),
    }
}

fn task_texts(items: &[Json]) -> (r: Vec<String>)
    ensures
        texts(r@) == texts_in(json_views(items@)),
{
    let ghost all = json_views(items@);
    proof {
        lemma_json_views(items@);
    }
    let mut out: Vec<String> = Vec::new();
    let mut i: usize = 0;
    assert(texts(out@) =~= Seq::<Seq<char>>::empty());
    assert(all.take(0) =~= Seq::<JsonView>::empty());
    while i < items.len()
        invariant
            i <= items@.len(),
            all == json_views(items@),
            all.len() == items@.len(),
            forall|k: int| 0 <= k < items@.len() ==> #[trigger] all[k] == items@[k]@,
            texts(out@) == texts_in(all.take(i as int)),
        decreases items@.len() - i,
    {
        let ghost had = out@;
        assert(all.take(i + 1).drop_last() =~= all.take(i as int));
        assert(all.take(i + 1).last() == items@[i as int]@);
        if let Some(s) = items[i].as_text() {
            out.push(s.clone());
            assert(texts(out@) =~= texts(had).push(s@));
        }
        i += 1;
    }
    assert(all.take(i as int) =~= all);
    out
}

fn text_schema() -> (r: Json)
    ensures
        r@ == a_text(),
{
    let members = vec![("type", text("string"))];
    assert(pairs(members@) =~= seq![("type"@, JsonView::Text("string"@))]);
    object(members)
}

fn described_schema(description: &str) -> (r: Json)
    ensures
        r@ == described_text(description@),
{
    let members = vec![("description", text(description)), ("type", text("string"))];
    assert(pairs(members@) =~= seq![
        ("description"@, JsonView::Text(description@)),
        ("type"@, JsonView::Text("string"@)),
    ]);
    object(members)
}

fn schema_of(properties: Json, required: Vec<Json>) -> (r: Json)
    ensures
        r@ == JsonView::Object(
            seq![
                ("properties"@, properties@),
                ("required"@, JsonView::List(views(required@))),
                ("type"@, JsonView::Text("object"@)),
            ],
        ),
{
    let ghost needed = views(required@);
    let members = vec![
        ("properties", properties),
        ("required", list(required)),
        ("type", text("object")),
    ];
    assert(pairs(members@) =~= seq![
        ("properties"@, properties@),
        ("required"@, JsonView::List(needed)),
        ("type"@, JsonView::Text("object"@)),
    ]);
    object(members)
}

fn list_files_tool() -> (r: ToolDef)
    ensures
        r@ == offered_tools()[0],
{
    let one = vec![("path", described_schema(LIST_PATH))];
    assert(pairs(one@) =~= seq![("path"@, described_text(LIST_PATH@))]);
    let members = vec![("properties", object(one)), ("type", text("object"))];
    assert(pairs(members@) =~= seq![
        ("properties"@, JsonView::Object(seq![("path"@, described_text(LIST_PATH@))])),
        ("type"@, JsonView::Text("object"@)),
    ]);
    ToolDef {
        name: "list_files".to_owned(),
        description: LIST_FILES.to_owned(),
        parameters: object(members),
    }
}

fn read_file_tool() -> (r: ToolDef)
    ensures
        r@ == offered_tools()[1],
{
    let one = vec![("path", described_schema(READ_PATH))];
    assert(pairs(one@) =~= seq![("path"@, described_text(READ_PATH@))]);
    let required = vec![text("path")];
    assert(views(required@) =~= seq!["path"@].map_values(|s: Seq<char>| JsonView::Text(s)));
    ToolDef {
        name: "read_file".to_owned(),
        description: READ_FILE.to_owned(),
        parameters: schema_of(object(one), required),
    }
}

fn read_artifact_tool() -> (r: ToolDef)
    ensures
        r@ == offered_tools()[2],
{
    let one = vec![("name", described_schema(ARTIFACT_NAME))];
    assert(pairs(one@) =~= seq![("name"@, described_text(ARTIFACT_NAME@))]);
    let required = vec![text("name")];
    assert(views(required@) =~= seq!["name"@].map_values(|s: Seq<char>| JsonView::Text(s)));
    ToolDef {
        name: "read_artifact".to_owned(),
        description: READ_ARTIFACT.to_owned(),
        parameters: schema_of(object(one), required),
    }
}

fn write_artifact_tool() -> (r: ToolDef)
    ensures
        r@ == offered_tools()[3],
{
    let two = vec![("content", text_schema()), ("name", text_schema())];
    assert(pairs(two@) =~= seq![("content"@, a_text()), ("name"@, a_text())]);
    let required = vec![text("name"), text("content")];
    assert(views(required@) =~= seq!["name"@, "content"@].map_values(
        |s: Seq<char>| JsonView::Text(s),
    ));
    ToolDef {
        name: "write_artifact".to_owned(),
        description: WRITE_ARTIFACT.to_owned(),
        parameters: schema_of(object(two), required),
    }
}

fn fan_out_tool() -> (r: ToolDef)
    ensures
        r@ == offered_tools()[4],
{
    let tasks = vec![
        ("description", text(FAN_OUT_TASKS)),
        ("items", text_schema()),
        ("type", text("array")),
    ];
    let ghost array = seq![
        ("description"@, JsonView::Text(FAN_OUT_TASKS@)),
        ("items"@, a_text()),
        ("type"@, JsonView::Text("array"@)),
    ];
    assert(pairs(tasks@) =~= array);
    let one = vec![("tasks", object(tasks))];
    assert(pairs(one@) =~= seq![("tasks"@, JsonView::Object(array))]);
    let required = vec![text("tasks")];
    assert(views(required@) =~= seq!["tasks"@].map_values(|s: Seq<char>| JsonView::Text(s)));
    ToolDef {
        name: "fan_out".to_owned(),
        description: FAN_OUT.to_owned(),
        parameters: schema_of(object(one), required),
    }
}

/// Whether no part of a path is ignored.
fn is_visible(path: &str) -> (r: bool)
    ensures
        r == visible(path@),
{
    let parts = split(path, '/');
    let ghost all = pieces(path@, '/');
    let mut i: usize = 0;
    while i < parts.len()
        invariant
            i <= parts@.len(),
            all == pieces(path@, '/'),
            texts(parts@) == all,
            forall|j: int| 0 <= j < i ==> !is_ignored(#[trigger] all[j]),
        decreases parts@.len() - i,
    {
        assert(all[i as int] == parts@[i as int]@);
        if ignored(parts[i].as_str()) {
            return false;
        }
        i += 1;
    }
    true
}

fn find_source_files(start: &str, at: &str, files: &[String]) -> (r: Vec<String>)
    ensures
        texts(r@) == source_files(start@, at@, texts(files@)),
{
    let mut out: Vec<String> = Vec::new();
    assert(texts(out@) =~= Seq::<Seq<char>>::empty());
    if ignored(start) {
        return out;
    }
    let ghost all = texts(files@);
    assert(all.take(0) =~= Seq::<Seq<char>>::empty());
    let mut i: usize = 0;
    while i < files.len()
        invariant
            i <= files@.len(),
            !is_ignored(start@),
            all == texts(files@),
            texts(out@) == source_files(start@, at@, all.take(i as int)),
        decreases files@.len() - i,
    {
        let ghost had = out@;
        assert(all.take(i + 1).drop_last() =~= all.take(i as int));
        assert(all.take(i + 1).last() == files@[i as int]@);
        if is_visible(files[i].as_str()) {
            let path = if files[i].as_str().is_empty() {
                at.to_owned()
            } else {
                join_path(at, files[i].as_str())
            };
            out.push(path);
            assert(texts(out@) =~= texts(had).push(path@));
        }
        i += 1;
    }
    assert(all.take(i as int) =~= all);
    out
}

/// The toolbox that every stage of a run has: it reads the source instead of having it pasted
/// in, shares artifacts with the other stages, and can hand out work to copies of itself.
#[derive(Debug)]
pub struct PipelineToolbox {
    pub source_dir: String,
    /// Who answers work that is handed out.
    pub agent: String,
    pub system: String,
    pub max_turns: usize,
}

impl PipelineToolbox {
    /// A toolbox on a source directory.
    pub fn new(source_dir: String, agent: String, system: String, max_turns: usize) -> (r:
        PipelineToolbox)
        ensures
            r.source_dir@ == source_dir@,
            r.agent@ == agent@,
            r.system@ == system@,
            r.max_turns == max_turns,
    {
        PipelineToolbox { source_dir, agent, system, max_turns }
    }

    /// The tools that an agent is told of.
    pub fn tool_defs() -> (r: Vec<ToolDef>)
        ensures
            views(r@) == offered_tools(),
    {
        let tools = vec![
            list_files_tool(),
            read_file_tool(),
            read_artifact_tool(),
            write_artifact_tool(),
            fan_out_tool(),
        ];
        assert(views(tools@) =~= offered_tools());
        tools
    }

    /// What a call of a tool asks for.
    pub fn call(name: &str, arguments: &Json) -> (r: ToolRequest)
        ensures
            r@ == requested(name@, arguments@),
    {
        if same(name, "list_files") {
            match arguments.field("path").as_text() {
                Some(path) => ToolRequest::ListFiles(path.clone()),
                None => {
                    let whole = String::new();
                    assert(whole@ =~= Seq::<char>::empty());
                    ToolRequest::ListFiles(whole)
                },
            }
        } else if same(name, "read_file") {
            match arguments.field("path").as_text() {
                Some(path) => ToolRequest::ReadFile(path.clone()),
                None => ToolRequest::Refused("error: \"path\" argument is required".to_owned()),
            }
        } else if same(name, "read_artifact") {
            match arguments.field("name").as_text() {
                Some(name) => ToolRequest::ReadArtifact(name.clone()),
                None => ToolRequest::Refused("error: \"name\" argument is required".to_owned()),
            }
        } else if same(name, "write_artifact") {
            match (arguments.field("name").as_text(), arguments.field("content").as_text()) {
                (Some(name), Some(content)) => ToolRequest::WriteArtifact {
                    name: name.clone(),
                    content: content.clone(),
                },
                _ => ToolRequest::Refused(
                    "error: \"name\" and \"content\" arguments are both required".to_owned(),
                ),
            }
        } else if same(name, "fan_out") {
            match arguments.field("tasks").as_list() {
                None => ToolRequest::Refused(
                    "error: \"tasks\" argument (an array of task strings) is required".to_owned(),
                ),
                Some(items) => {
                    let tasks = task_texts(items.as_slice());
                    assert(texts(tasks@).len() == tasks@.len());
                    if tasks.len() == 0 {
                        ToolRequest::Refused(
                            "error: \"tasks\" must contain at least one task string".to_owned(),
                        )
                    } else {
                        ToolRequest::FanOut(tasks)
                    }
                },
            }
        } else {
            ToolRequest::Refused("error: unknown tool \"".to_owned().concat(name).concat("\""))
        }
    }

    /// What the listing of a directory says: `start` is the directory's name, `at` its path
    /// from the root, and `files` are the paths from it of all files under it. Of a file, that is
    /// one empty path.
    pub fn list_files(start: &str, at: &str, files: &[String]) -> (r: String)
        ensures
            r@ == listed_files(source_files(start@, at@, texts(files@))),
    {
        let entries = find_source_files(start, at, files);
        let n: usize = entries.len();
        assert(texts(entries@).len() == n);
        if n == 0 {
            return "(no files found)".to_owned();
        }
        let ghost all = sorted(texts(entries@));
        proof {
            crate::order::lemma_sorted(texts(entries@));
        }
        let mut ordered = sort(entries);
        assert(texts(ordered@).len() == ordered@.len());
        if n > MAX_LISTING_ENTRIES {
            ordered.truncate(MAX_LISTING_ENTRIES);
            assert(texts(ordered@) =~= all.take(MAX_LISTING_ENTRIES as int));
            let ghost had = ordered@;
            let note = "... [".to_owned().concat(
                decimal_text((n - MAX_LISTING_ENTRIES) as u64).as_str(),
            ).concat(" more file(s) omitted — list a subdirectory to narrow this down]");
            ordered.push(note);
            assert(texts(ordered@) =~= texts(had).push(note@));
        }
        join(ordered.as_slice(), "\n")
    }

    /// The directory that the source stands in, once its path is resolved.
    pub fn source_root(canonical: Result<String, String>) -> (r: Result<String, String>)
        ensures
            either(r) == (match either(canonical) {
                Ok(root) => Ok(root),
                Err(e) => Err("cannot resolve source directory: "@ + e),
            }),
    {
        match canonical {
            Ok(root) => Ok(root),
            Err(e) => Err("cannot resolve source directory: ".to_owned().concat(e.as_str())),
        }
    }

    /// Where `rel` would stand under `root`.
    pub fn candidate(root: &str, rel: &str) -> (r: String)
        ensures
            r@ == path_join(root@, unrooted(rel@)),
    {
        join_path(root, unroot(rel).as_str())
    }

    /// The file that `rel` names, given what its path comes to once it is resolved. Nothing
    /// outside the source directory is ever read: what a model asks for is not to be trusted.
    pub fn resolve_in_source(rel: &str, root: &str, canonical: Result<String, String>) -> (r:
        Result<String, String>)
        ensures
            either(r) == resolved(rel@, root@, either(canonical)),
    {
        match canonical {
            Err(e) => Err(
                "\"".to_owned().concat(rel).concat(
                    "\" not found under the source directory: ",
                ).concat(e.as_str()),
            ),
            Ok(path) => {
                let p = path.as_str();
                if same(p, root) || (same(root, "/") && starts_with(p, "/")) || starts_with(
                    p,
                    root.to_owned().concat("/").as_str(),
                ) {
                    Ok(path)
                } else {
                    Err(
                        "\"".to_owned().concat(rel).concat(
                            "\" escapes the source directory — refusing to read it",
                        ),
                    )
                }
            },
        }
    }

    /// What is shown of a file. A character may not straddle the place at which a long file is
    /// cut.
    pub fn read_file(rel: &str, read: Result<String, String>) -> (r: String)
        requires
            read matches Ok(content) ==> (byte_len(content@) > MAX_READ_BYTES ==> is_char_boundary(
                encode_utf8(content@),
                MAX_READ_BYTES as int,
            )),
        ensures
            r@ == shown_file(rel@, either(read)),
    {
        match read {
            Ok(content) => {
                if bytes(content.as_str()) > MAX_READ_BYTES {
                    let (head, _) = content.as_str().split_at(MAX_READ_BYTES);
                    proof {
                        vstd::utf8::encode_utf8_decode_utf8(head@);
                    }
                    head.to_owned().concat("\n... [truncated at ").concat(
                        decimal_text(MAX_READ_BYTES as u64).as_str(),
                    ).concat(
                        " bytes — read a narrower range or a different file if you need more]",
                    )
                } else {
                    content
                }
            },
            Err(e) => "error reading \"".to_owned().concat(rel).concat("\": ").concat(
                e.as_str(),
            ).concat(" (binary or non-UTF-8 files can't be read this way)"),
        }
    }

    /// What is said of an artifact.
    pub fn read_artifact(name: &str, found: Option<String>) -> (r: String)
        ensures
            r@ == (match opt(found) {
                Some(content) => content,
                None => "no artifact named \""@ + name@ + "\" exists yet"@,
            }),
    {
        match found {
            Some(content) => content,
            None => "no artifact named \"".to_owned().concat(name).concat("\" exists yet"),
        }
    }

    /// What is said of the writing of an artifact.
    pub fn write_artifact(name: &str, content: &str, outcome: Result<(), String>) -> (r: String)
        ensures
            r@ == (match outcome {
                Ok(_) => "wrote "@ + decimal(byte_len(content@)) + " byte(s) to artifact \""@
                    + name@ + "\""@,
                Err(e) => "error writing artifact \""@ + name@ + "\": "@ + e@,
            }),
    {
        match outcome {
            Ok(_) => "wrote ".to_owned().concat(decimal_text(bytes(content) as u64).as_str()).concat(
                " byte(s) to artifact \"",
            ).concat(name).concat("\""),
            Err(e) => "error writing artifact \"".to_owned().concat(name).concat("\": ").concat(
                e.as_str(),
            ),
        }
    }

    /// What is said of work that was handed out.
    pub fn fan_out(results: &[Result<String, String>]) -> (r: String)
        ensures
            r@ == labelled_all(results@),
    {
        let ghost all = Seq::new(results@.len(), |i: int| labelled(results@[i], i as nat));
        let mut out: Vec<String> = Vec::new();
        let mut i: usize = 0;
        while i < results.len()
            invariant
                i <= results@.len(),
                all == Seq::new(results@.len(), |i: int| labelled(results@[i], i as nat)),
                texts(out@) =~= all.take(i as int),
            decreases results@.len() - i,
        {
            let ghost had = out@;
            let head = "## Result ".to_owned().concat(decimal_text(i as u64 + 1).as_str());
            let entry = match &results[i] {
                Ok(text) => head.concat("\n").concat(text.as_str()),
                Err(e) => head.concat(" (failed)\n").concat(e.as_str()),
            };
            out.push(entry);
            assert(texts(out@) =~= texts(had).push(entry@));
            assert(all[i as int] == entry@);
            i += 1;
        }
        assert(all.take(i as int) =~= all);
        join(out.as_slice(), "\n\n")
    }
}

/// The tools that an agent is told of are those that there are: a call is unknown if and only
/// if no tool of that name is offered.
pub proof fn law_offered_tools_are_known(name: Seq<char>, arguments: JsonView)
    ensures
        (exists|i: int| 0 <= i < offered_tools().len() && #[trigger] offered_tools()[i].name
            == name) <==> requested(name, arguments) != ToolRequestView::Refused(
            unknown_tool(name),
        ),
{
    let tools = offered_tools();
    reveal_strlit("error: unknown tool \"");
    reveal_strlit("error: \"path\" argument is required");
    reveal_strlit("error: \"name\" argument is required");
    reveal_strlit("error: \"name\" and \"content\" arguments are both required");
    reveal_strlit("error: \"tasks\" argument (an array of task strings) is required");
    reveal_strlit("error: \"tasks\" must contain at least one task string");
    assert(unknown_tool(name)[7] == 'u');
    assert(tools[0].name == "list_files"@);
    assert(tools[1].name == "read_file"@);
    assert(tools[2].name == "read_artifact"@);
    assert(tools[3].name == "write_artifact"@);
    assert(tools[4].name == "fan_out"@);
}

/// Files that are ignored are never listed.
pub proof fn law_ignored_files_are_not_listed(
    start: Seq<char>,
    at: Seq<char>,
    files: Seq<Seq<char>>,
    i: int,
)
    requires
        0 <= i < source_files(start, at, files).len(),
    ensures
        !is_ignored(start),
        exists|f: Seq<char>|
            files.contains(f) && visible(f) && source_files(start, at, files)[i] == from_root(
                at,
                f,
            ),
    decreases files.len(),
{
    let rest = source_files(start, at, files.drop_last());
    if i < rest.len() {
        law_ignored_files_are_not_listed(start, at, files.drop_last(), i);
        let f = choose|f: Seq<char>|
            files.drop_last().contains(f) && visible(f) && rest[i] == from_root(at, f);
        let k = choose|k: int| 0 <= k < files.len() - 1 && files.drop_last()[k] == f;
        assert(files[k] == f);
        assert(files.contains(f) && visible(f) && source_files(start, at, files)[i] == from_root(
            at,
            f,
        ));
    } else {
        let f = files.last();
        assert(files.contains(f) && visible(f) && source_files(start, at, files)[i] == from_root(
            at,
            f,
        ));
    }
}

/// A request that is resolved names nothing outside the source directory.
pub proof fn law_nothing_outside_the_source_is_read(
    rel: Seq<char>,
    root: Seq<char>,
    canonical: Result<Seq<char>, Seq<char>>,
)
    ensures
        resolved(rel, root, canonical) matches Ok(path) ==> is_under(path, root),
{
}

/// Every file under a directory that is source is listed, under its path from the root.
pub proof fn law_source_files_are_listed(
    start: Seq<char>,
    at: Seq<char>,
    files: Seq<Seq<char>>,
    i: int,
)
    requires
        0 <= i < files.len(),
        !is_ignored(start),
        files[i].len() > 0,
        forall|k: int|
            0 <= k < pieces(files[i], '/').len() ==> !is_ignored(#[trigger] pieces(files[i], '/')[k]),
    ensures
        source_files(start, at, files).contains(path_join(at, files[i])),
    decreases files.len(),
{
    let path = path_join(at, files[i]);
    let all = source_files(start, at, files);
    if i == files.len() - 1 {
        assert(visible(files.last()));
        assert(all.last() == path);
    } else {
        let less = files.drop_last();
        assert(less[i] == files[i]);
        law_source_files_are_listed(start, at, less, i);
        let rest = source_files(start, at, less);
        let k = choose|k: int| 0 <= k < rest.len() && rest[k] == path;
        assert(all[k] == path);
    }
}

/// A listing names every file, one to a line, as long as there are not too many.
pub proof fn law_listings_name_every_file(entries: Seq<Seq<char>>, i: int)
    requires
        0 <= i < entries.len() <= MAX_LISTING_ENTRIES,
    ensures
        has(listed_files(entries), entries[i]),
{
    crate::order::lemma_sorted(entries);
    let all = sorted(entries);
    assert(entries.contains(entries[i]));
    assert(all.contains(entries[i]));
    let k = choose|k: int| 0 <= k < all.len() && all[k] == entries[i];
    lemma_joined_has(all, "\n"@, k);
}

/// A tool that is called does what it is named after, with the arguments of the call.
pub proof fn law_calls_ask_for_what_they_name(arguments: JsonView, path: Seq<char>, content: Seq<char>)
    ensures
        field(arguments, "path"@) == JsonView::Text(path) ==> requested("list_files"@, arguments)
            == ToolRequestView::ListFiles(path) && requested("read_file"@, arguments)
            == ToolRequestView::ReadFile(path),
        field(arguments, "name"@) == JsonView::Text(path) ==> requested("read_artifact"@, arguments)
            == ToolRequestView::ReadArtifact(path),
        field(arguments, "name"@) == JsonView::Text(path) && field(arguments, "content"@)
            == JsonView::Text(content) ==> requested("write_artifact"@, arguments) == (
        ToolRequestView::WriteArtifact { name: path, content }),
        !(as_text(field(arguments, "path"@)) is Some) ==> requested("read_file"@, arguments) is Refused,
{
    reveal_strlit("list_files");
    reveal_strlit("read_file");
    reveal_strlit("read_artifact");
    reveal_strlit("write_artifact");
    assert("read_file"@.len() == 9 && "list_files"@.len() == 10);
    assert("read_artifact"@.len() == 13 && "write_artifact"@.len() == 14);
}

/// A file that is not too long is shown as it is.
pub proof fn law_files_are_shown_whole(rel: Seq<char>, content: Seq<char>)
    requires
        byte_len(content) <= MAX_READ_BYTES,
    ensures
        shown_file(rel, Ok(content)) == content,
{
}

} // verus!
