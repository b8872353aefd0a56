//! The queue as a server of tools, over lines of JSON.

use crate::copied::{views, Copied};
use crate::json::{
    as_text, field, json_read, lemma_list_is_ordered, lemma_object_is_ordered, list, member,
    object, ordered, pairs, parse_json, signed_number_of, text, Json, JsonView,
};
use crate::order::lemma_before_at;
use crate::requests::{call, missing_field, tool_request, QueueRequest, QueueRequestView};
use crate::text::{is_blank, same, starts_with, trimmed};
use crate::tools::either;
use vstd::prelude::*;
use vstd::string::StringExecFns;

verus! {

pub const METHOD_NOT_FOUND: i64 = -32601;

pub const PARSE_ERROR: i64 = -32700;

pub const QUEUE_SUBMIT: &'static str =
    "Queue a synthesis run. Jobs run one at a time in submission order. Paths are on this machine; with a queue server configured, both directories are uploaded to it.";

pub const QUEUE_SUBMIT_INHERIT_ENV: &'static str = "Also use providers from the queue worker's shell environment (API keys); default is its config file only";

pub const QUEUE_SUBMIT_MAX_ITER: &'static str = "Max review iterations per stage";

pub const QUEUE_SUBMIT_SOURCE: &'static str = "Source directory to rewrite";

pub const QUEUE_SUBMIT_WORKSPACE: &'static str = "Workspace directory for the run";

pub const QUEUE_LIST: &'static str =
    "Show every job with its state, current stage and elapsed time.";

pub const QUEUE_STATUS: &'static str =
    "Detailed status of one job, including the last lines of its log.";

pub const QUEUE_STATUS_LOG_LINES: &'static str = "Log lines to include (default 20)";

pub const QUEUE_FETCH: &'static str =
    "Download a job's whole uploaded workspace from the queue server into a local directory. Heavy — includes the project tree as submitted (node_modules, build output, etc). For just the orchestrator's own generated artifacts, use queue_artifacts / queue_artifact instead.";

pub const QUEUE_FETCH_OUT: &'static str = "Local directory to write the workspace into";

pub const QUEUE_DOWNLOAD: &'static str =
    "Download everything a job has produced in one shot, like `cargo fetch` or `bundle install` — no need to list or pick individual files first. Pulls the job's whole artifacts/ tree (objective_contract.md, refined_test_matrix.json, inductive_analysis.md, schema.rs, the v2/ crate, synthesis/ checkpoints) into a local directory. Lighter than queue_fetch, which also drags in the originally-uploaded project tree (node_modules, .env, build output, etc).";

pub const QUEUE_DOWNLOAD_OUT: &'static str = "Local directory to write the artifacts tree into";

pub const QUEUE_ARTIFACTS: &'static str =
    "List the artifact files a job has emitted so far (objective_contract.md, refined_test_matrix.json, inductive_analysis.md, v2/Cargo.toml, ...). Works on a running job, not just a finished one.";

pub const QUEUE_ARTIFACT: &'static str =
    "Read one artifact a job has emitted, by the path queue_artifacts printed (e.g. \"objective_contract.md\"). Without `out`, returns the raw content inline. With `out`, instead downloads it to that local file path and returns a confirmation. Works on a running job, not just a finished one.";

pub const QUEUE_ARTIFACT_OUT: &'static str = "Local file path to save the artifact to, instead of returning its content inline";

pub const QUEUE_ARTIFACT_PATH: &'static str = "Artifact path relative to the job's artifacts/ dir";

pub const QUEUE_CANCEL: &'static str =
    "Cancel a queued or running job.";

/// The schema of an argument, with what it is for where that is said.
pub open spec fn argument_schema(kind: Seq<char>, description: Option<Seq<char>>) -> JsonView {
    match description {
        Some(d) => JsonView::Object(
            seq![("description"@, JsonView::Text(d)), ("type"@, JsonView::Text(kind))],
        ),
        None => JsonView::Object(seq![("type"@, JsonView::Text(kind))]),
    }
}

/// The schema of the arguments of a tool. Where none is needed, nothing is said of that.
pub open spec fn arguments_schema(
    properties: Seq<(Seq<char>, JsonView)>,
    required: Seq<Seq<char>>,
) -> JsonView {
    let described = ("properties"@, JsonView::Object(properties));
    let kind = ("type"@, JsonView::Text("object"@));
    JsonView::Object(
        if required.len() == 0 {
            seq![described, kind]
        } else {
            seq![
                described,
                (
                    "required"@,
                    JsonView::List(required.map_values(|s: Seq<char>| JsonView::Text(s))),
                ),
                kind,
            ]
        },
    )
}

/// A tool as it is listed.
pub open spec fn listed_tool(name: Seq<char>, description: Seq<char>, schema: JsonView) -> JsonView {
    JsonView::Object(
        seq![
            ("description"@, JsonView::Text(description)),
            ("inputSchema"@, schema),
            ("name"@, JsonView::Text(name)),
        ],
    )
}

/// The tools of the queue.
pub open spec fn queue_tools() -> Seq<JsonView> {
    seq![
        listed_tool(
            "queue_submit"@,
            QUEUE_SUBMIT@,
            arguments_schema(
                seq![("inherit_env"@, argument_schema("boolean"@, Some(QUEUE_SUBMIT_INHERIT_ENV@))), ("max_iter"@, argument_schema("integer"@, Some(QUEUE_SUBMIT_MAX_ITER@))), ("source"@, argument_schema("string"@, Some(QUEUE_SUBMIT_SOURCE@))), ("workspace"@, argument_schema("string"@, Some(QUEUE_SUBMIT_WORKSPACE@)))],
                seq!["source"@, "workspace"@],
            ),
        ),
        listed_tool(
            "queue_list"@,
            QUEUE_LIST@,
            arguments_schema(
                Seq::empty(),
                Seq::empty(),
            ),
        ),
        listed_tool(
            "queue_status"@,
            QUEUE_STATUS@,
            arguments_schema(
                seq![("id"@, argument_schema("integer"@, None)), ("log_lines"@, argument_schema("integer"@, Some(QUEUE_STATUS_LOG_LINES@)))],
                seq!["id"@],
            ),
        ),
        listed_tool(
            "queue_fetch"@,
            QUEUE_FETCH@,
            arguments_schema(
                seq![("id"@, argument_schema("integer"@, None)), ("out"@, argument_schema("string"@, Some(QUEUE_FETCH_OUT@)))],
                seq!["id"@, "out"@],
            ),
        ),
        listed_tool(
            "queue_download"@,
            QUEUE_DOWNLOAD@,
            arguments_schema(
                seq![("id"@, argument_schema("integer"@, None)), ("out"@, argument_schema("string"@, Some(QUEUE_DOWNLOAD_OUT@)))],
                seq!["id"@, "out"@],
            ),
        ),
        listed_tool(
            "queue_artifacts"@,
            QUEUE_ARTIFACTS@,
            arguments_schema(
                seq![("id"@, argument_schema("integer"@, None))],
                seq!["id"@],
            ),
        ),
        listed_tool(
            "queue_artifact"@,
            QUEUE_ARTIFACT@,
            arguments_schema(
                seq![("id"@, argument_schema("integer"@, None)), ("out"@, argument_schema("string"@, Some(QUEUE_ARTIFACT_OUT@))), ("path"@, argument_schema("string"@, Some(QUEUE_ARTIFACT_PATH@)))],
                seq!["id"@, "path"@],
            ),
        ),
        listed_tool(
            "queue_cancel"@,
            QUEUE_CANCEL@,
            arguments_schema(
                seq![("id"@, argument_schema("integer"@, None))],
                seq!["id"@],
            ),
        ),
    ]
}

fn make_argument(kind: &str, description: Option<&str>) -> (r: Json)
    ensures
        r@ == argument_schema(
            kind@,
            match description {
                Some(d) => Some(d@),
                None => None,
            },
        ),
        ordered(r@),
{
    proof {
        reveal_strlit("description");
        reveal_strlit("type");
        lemma_before_at("description"@, "type"@, 0);
    }
    match description {
        Some(d) => {
            let members = vec![("description", text(d)), ("type", text(kind))];
            let ghost keys = argument_schema(kind@, Some(d@))->Object_0;
            assert(pairs(members@) =~= keys);
            proof {
                lemma_object_is_ordered(keys);
            }
            object(members)
        },
        None => {
            let members = vec![("type", text(kind))];
            let ghost keys = argument_schema(kind@, None)->Object_0;
            assert(pairs(members@) =~= keys);
            proof {
                lemma_object_is_ordered(keys);
            }
            object(members)
        },
    }
}

/// Texts as JSON.
pub open spec fn text_items(list: Seq<&str>) -> Seq<JsonView> {
    list.map_values(|s: &str| JsonView::Text(s@))
}

fn make_texts(list_of: Vec<&str>) -> (r: Vec<Json>)
    ensures
        views(r@) == text_items(list_of@),
{
    let mut out: Vec<Json> = Vec::new();
    let mut i: usize = 0;
    while i < list_of.len()
        invariant
            i <= list_of@.len(),
            out@.len() == i,
            forall|j: int| 0 <= j < i ==> (#[trigger] out@[j])@ == JsonView::Text(list_of@[j]@),
        decreases list_of@.len() - i,
    {
        out.push(text(list_of[i]));
        i += 1;
    }
    assert(views(out@) =~= text_items(list_of@));
    out
}

fn make_tool(name: &str, description: &str, properties: Json, required: Vec<&str>) -> (r: Json)
    requires
        properties@ is Object,
        ordered(properties@),
    ensures
        r@ == listed_tool(
            name@,
            description@,
            arguments_schema(
                properties@->Object_0,
                required@.map_values(|s: &str| s@),
            ),
        ),
        ordered(r@),
{
    let ghost needed = required@.map_values(|s: &str| s@);
    let ghost inner = arguments_schema(properties@->Object_0, needed)->Object_0;
    let ghost keys = listed_tool(name@, description@, JsonView::Object(inner))->Object_0;
    let none = required.len() == 0;
    let names = make_texts(required);
    proof {
        reveal_strlit("properties");
        reveal_strlit("required");
        reveal_strlit("type");
        reveal_strlit("description");
        reveal_strlit("inputSchema");
        reveal_strlit("name");
        lemma_before_at("properties"@, "required"@, 0);
        lemma_before_at("properties"@, "type"@, 0);
        lemma_before_at("required"@, "type"@, 0);
        lemma_before_at("description"@, "inputSchema"@, 0);
        lemma_before_at("inputSchema"@, "name"@, 0);
        assert(views(names@) =~= needed.map_values(|s: Seq<char>| JsonView::Text(s)));
        lemma_list_is_ordered(views(names@));
        lemma_object_is_ordered(inner);
        lemma_object_is_ordered(keys);
    }
    let schema = if none {
        let members = vec![("properties", properties), ("type", text("object"))];
        assert(pairs(members@) =~= inner);
        object(members)
    } else {
        let members = vec![
            ("properties", properties),
            ("required", list(names)),
            ("type", text("object")),
        ];
        assert(pairs(members@) =~= inner);
        object(members)
    };
    let members = vec![
        ("description", text(description)),
        ("inputSchema", schema),
        ("name", text(name)),
    ];
    assert(pairs(members@) =~= keys);
    object(members)
}

fn make_submit_tool() -> (r: Json)
    ensures
        r@ == queue_tools()[0],
        ordered(r@),
{
    let members = vec![
        ("inherit_env", make_argument("boolean", Some(QUEUE_SUBMIT_INHERIT_ENV))),
        ("max_iter", make_argument("integer", Some(QUEUE_SUBMIT_MAX_ITER))),
        ("source", make_argument("string", Some(QUEUE_SUBMIT_SOURCE))),
        ("workspace", make_argument("string", Some(QUEUE_SUBMIT_WORKSPACE))),
    ];
    let ghost keys = seq![("inherit_env"@, argument_schema("boolean"@, Some(QUEUE_SUBMIT_INHERIT_ENV@))), ("max_iter"@, argument_schema("integer"@, Some(QUEUE_SUBMIT_MAX_ITER@))), ("source"@, argument_schema("string"@, Some(QUEUE_SUBMIT_SOURCE@))), ("workspace"@, argument_schema("string"@, Some(QUEUE_SUBMIT_WORKSPACE@)))];
    assert(pairs(members@) =~= keys);
    proof {
        reveal_strlit("inherit_env");
        reveal_strlit("max_iter");
        reveal_strlit("source");
        reveal_strlit("workspace");
        lemma_before_at("inherit_env"@, "max_iter"@, 0);
        lemma_before_at("max_iter"@, "source"@, 0);
        lemma_before_at("source"@, "workspace"@, 0);
        assert(ordered(members@[0].1@));
        assert(ordered(members@[1].1@));
        assert(ordered(members@[2].1@));
        assert(ordered(members@[3].1@));
        lemma_object_is_ordered(keys);
    }
    let required = vec!["source", "workspace"];
    assert(required@.map_values(|s: &str| s@) =~= seq!["source"@, "workspace"@]);
    make_tool("queue_submit", QUEUE_SUBMIT, object(members), required)
}

fn make_list_tool() -> (r: Json)
    ensures
        r@ == queue_tools()[1],
        ordered(r@),
{
    let members: Vec<(&str, Json)> = Vec::new();
    let ghost keys = Seq::<(Seq<char>, JsonView)>::empty();
    assert(pairs(members@) =~= keys);
    proof {
        lemma_object_is_ordered(keys);
    }
    let required: Vec<&str> = Vec::new();
    assert(required@.map_values(|s: &str| s@) =~= Seq::<Seq<char>>::empty());
    make_tool("queue_list", QUEUE_LIST, object(members), required)
}

fn make_status_tool() -> (r: Json)
    ensures
        r@ == queue_tools()[2],
        ordered(r@),
{
    let members = vec![
        ("id", make_argument("integer", None)),
        ("log_lines", make_argument("integer", Some(QUEUE_STATUS_LOG_LINES))),
    ];
    let ghost keys = seq![("id"@, argument_schema("integer"@, None)), ("log_lines"@, argument_schema("integer"@, Some(QUEUE_STATUS_LOG_LINES@)))];
    assert(pairs(members@) =~= keys);
    proof {
        reveal_strlit("id");
        reveal_strlit("log_lines");
        lemma_before_at("id"@, "log_lines"@, 0);
        assert(ordered(members@[0].1@));
        assert(ordered(members@[1].1@));
        lemma_object_is_ordered(keys);
    }
    let required = vec!["id"];
    assert(required@.map_values(|s: &str| s@) =~= seq!["id"@]);
    make_tool("queue_status", QUEUE_STATUS, object(members), required)
}

fn make_fetch_tool() -> (r: Json)
    ensures
        r@ == queue_tools()[3],
        ordered(r@),
{
    let members = vec![
        ("id", make_argument("integer", None)),
        ("out", make_argument("string", Some(QUEUE_FETCH_OUT))),
    ];
    let ghost keys = seq![("id"@, argument_schema("integer"@, None)), ("out"@, argument_schema("string"@, Some(QUEUE_FETCH_OUT@)))];
    assert(pairs(members@) =~= keys);
    proof {
        reveal_strlit("id");
        reveal_strlit("out");
        lemma_before_at("id"@, "out"@, 0);
        assert(ordered(members@[0].1@));
        assert(ordered(members@[1].1@));
        lemma_object_is_ordered(keys);
    }
    let required = vec!["id", "out"];
    assert(required@.map_values(|s: &str| s@) =~= seq!["id"@, "out"@]);
    make_tool("queue_fetch", QUEUE_FETCH, object(members), required)
}

fn make_download_tool() -> (r: Json)
    ensures
        r@ == queue_tools()[4],
        ordered(r@),
{
    let members = vec![
        ("id", make_argument("integer", None)),
        ("out", make_argument("string", Some(QUEUE_DOWNLOAD_OUT))),
    ];
    let ghost keys = seq![("id"@, argument_schema("integer"@, None)), ("out"@, argument_schema("string"@, Some(QUEUE_DOWNLOAD_OUT@)))];
    assert(pairs(members@) =~= keys);
    proof {
        reveal_strlit("id");
        reveal_strlit("out");
        lemma_before_at("id"@, "out"@, 0);
        assert(ordered(members@[0].1@));
        assert(ordered(members@[1].1@));
        lemma_object_is_ordered(keys);
    }
    let required = vec!["id", "out"];
    assert(required@.map_values(|s: &str| s@) =~= seq!["id"@, "out"@]);
    make_tool("queue_download", QUEUE_DOWNLOAD, object(members), required)
}

fn make_artifacts_tool() -> (r: Json)
    ensures
        r@ == queue_tools()[5],
        ordered(r@),
{
    let members = vec![
        ("id", make_argument("integer", None)),
    ];
    let ghost keys = seq![("id"@, argument_schema("integer"@, None))];
    assert(pairs(members@) =~= keys);
    proof {
        assert(ordered(members@[0].1@));
        lemma_object_is_ordered(keys);
    }
    let required = vec!["id"];
    assert(required@.map_values(|s: &str| s@) =~= seq!["id"@]);
    make_tool("queue_artifacts", QUEUE_ARTIFACTS, object(members), required)
}

fn make_artifact_tool() -> (r: Json)
    ensures
        r@ == queue_tools()[6],
        ordered(r@),
{
    let members = vec![
        ("id", make_argument("integer", None)),
        ("out", make_argument("string", Some(QUEUE_ARTIFACT_OUT))),
        ("path", make_argument("string", Some(QUEUE_ARTIFACT_PATH))),
    ];
    let ghost keys = seq![("id"@, argument_schema("integer"@, None)), ("out"@, argument_schema("string"@, Some(QUEUE_ARTIFACT_OUT@))), ("path"@, argument_schema("string"@, Some(QUEUE_ARTIFACT_PATH@)))];
    assert(pairs(members@) =~= keys);
    proof {
        reveal_strlit("id");
        reveal_strlit("out");
        reveal_strlit("path");
        lemma_before_at("id"@, "out"@, 0);
        lemma_before_at("out"@, "path"@, 0);
        assert(ordered(members@[0].1@));
        assert(ordered(members@[1].1@));
        assert(ordered(members@[2].1@));
        lemma_object_is_ordered(keys);
    }
    let required = vec!["id", "path"];
    assert(required@.map_values(|s: &str| s@) =~= seq!["id"@, "path"@]);
    make_tool("queue_artifact", QUEUE_ARTIFACT, object(members), required)
}

fn make_cancel_tool() -> (r: Json)
    ensures
        r@ == queue_tools()[7],
        ordered(r@),
{
    let members = vec![
        ("id", make_argument("integer", None)),
    ];
    let ghost keys = seq![("id"@, argument_schema("integer"@, None))];
    assert(pairs(members@) =~= keys);
    proof {
        assert(ordered(members@[0].1@));
        lemma_object_is_ordered(keys);
    }
    let required = vec!["id"];
    assert(required@.map_values(|s: &str| s@) =~= seq!["id"@]);
    make_tool("queue_cancel", QUEUE_CANCEL, object(members), required)
}

/// The tools of the queue.
pub fn tools() -> (r: Json)
    ensures
        r@ == JsonView::List(queue_tools()),
        ordered(r@),
{
    let all = vec![
        make_submit_tool(),
        make_list_tool(),
        make_status_tool(),
        make_fetch_tool(),
        make_download_tool(),
        make_artifacts_tool(),
        make_artifact_tool(),
        make_cancel_tool(),
    ];
    proof {
        assert(views(all@) =~= queue_tools());
        assert(ordered(all@[0]@));
        assert(ordered(all@[1]@));
        assert(ordered(all@[2]@));
        assert(ordered(all@[3]@));
        assert(ordered(all@[4]@));
        assert(ordered(all@[5]@));
        assert(ordered(all@[6]@));
        assert(ordered(all@[7]@));
        lemma_list_is_ordered(queue_tools());
    }
    list(all)
}

/// A reply with a result.
pub open spec fn result_reply(id: JsonView, result: JsonView) -> JsonView {
    JsonView::Object(
        seq![("id"@, id), ("jsonrpc"@, JsonView::Text("2.0"@)), ("result"@, result)],
    )
}

/// A reply with an error.
pub open spec fn error_reply(id: JsonView, code: i64, message: Seq<char>) -> JsonView {
    JsonView::Object(
        seq![
            (
                "error"@,
                JsonView::Object(
                    seq![
                        ("code"@, JsonView::Number(signed_number_of(code))),
                        ("message"@, JsonView::Text(message)),
                    ],
                ),
            ),
            ("id"@, id),
            ("jsonrpc"@, JsonView::Text("2.0"@)),
        ],
    )
}

/// What the server says of itself.
pub open spec fn introduction() -> JsonView {
    JsonView::Object(
        seq![
            (
                "capabilities"@,
                JsonView::Object(seq![("tools"@, JsonView::Object(Seq::empty()))]),
            ),
            ("protocolVersion"@, JsonView::Text("2024-11-05"@)),
            (
                "serverInfo"@,
                JsonView::Object(
                    seq![
                        ("name"@, JsonView::Text("rewriter-queue"@)),
                        ("version"@, JsonView::Text("0.1.0"@)),
                    ],
                ),
            ),
        ],
    )
}

/// The result of a tool call: what was said, or what went wrong.
pub open spec fn tool_result(outcome: Result<Seq<char>, Seq<char>>) -> JsonView {
    let (said, is_error) = match outcome {
        Ok(said) => (said, false),
        Err(e) => ("Error: "@ + e, true),
    };
    JsonView::Object(
        seq![
            (
                "content"@,
                JsonView::List(
                    seq![
                        JsonView::Object(
                            seq![
                                ("text"@, JsonView::Text(said)),
                                ("type"@, JsonView::Text("text"@)),
                            ],
                        ),
                    ],
                ),
            ),
            ("isError"@, JsonView::Flag(is_error)),
        ],
    )
}

/// What is done about a line.
#[derive(Debug)]
pub enum Handling {
    /// Nothing.
    Silent,
    /// This is said in return.
    Reply(Json),
    /// This is asked of the queue, and what it says is the result of call `id`.
    Call { id: Json, request: QueueRequest },
}

/// What is done about a line, by its contents.
pub enum HandlingView {
    Silent,
    Reply(JsonView),
    Call { id: JsonView, request: QueueRequestView },
}

impl View for Handling {
    type V = HandlingView;

    open spec fn view(&self) -> HandlingView {
        match self {
            Handling::Silent => HandlingView::Silent,
            Handling::Reply(j) => HandlingView::Reply(j@),
            Handling::Call { id, request } => HandlingView::Call { id: id@, request: request@ },
        }
    }
}

/// The text under `key`, or none.
pub open spec fn text_or_none(j: JsonView, key: Seq<char>) -> Seq<char> {
    match as_text(field(j, key)) {
        Some(s) => s,
        None => Seq::empty(),
    }
}

/// What is done about a message.
pub open spec fn handled(req: JsonView) -> HandlingView {
    let id = field(req, "id"@);
    let method = text_or_none(req, "method"@);
    if method == "initialize"@ {
        HandlingView::Reply(result_reply(id, introduction()))
    } else if method == "tools/list"@ {
        HandlingView::Reply(
            result_reply(id, JsonView::Object(seq![("tools"@, JsonView::List(queue_tools()))])),
        )
    } else if method == "tools/call"@ {
        let params = field(req, "params"@);
        match tool_request(text_or_none(params, "name"@), field(params, "arguments"@)) {
            Ok(request) => HandlingView::Call { id, request },
            Err(e) => HandlingView::Reply(result_reply(id, tool_result(Err(e)))),
        }
    } else if "notifications/"@.is_prefix_of(method) {
        HandlingView::Silent
    } else {
        HandlingView::Reply(error_reply(id, METHOD_NOT_FOUND, "Method not found: "@ + method))
    }
}

/// What is done about a line: nothing, where it is blank.
pub open spec fn received(line: Seq<char>) -> HandlingView {
    if trimmed(line).len() == 0 {
        HandlingView::Silent
    } else {
        match json_read(line) {
            Ok(req) => handled(req),
            Err(e) => HandlingView::Reply(
                error_reply(JsonView::Null, PARSE_ERROR, "Parse error: "@ + e),
            ),
        }
    }
}

fn make_result_reply(id: &Json, result: Json) -> (r: Json)
    ensures
        r@ == result_reply(id@, result@),
        ordered(id@) && ordered(result@) ==> ordered(r@),
{
    let members = vec![("id", id.copied()), ("jsonrpc", text("2.0")), ("result", result)];
    let ghost keys = result_reply(id@, result@)->Object_0;
    assert(pairs(members@) =~= keys);
    proof {
        reveal_strlit("id");
        reveal_strlit("jsonrpc");
        reveal_strlit("result");
        lemma_before_at("id"@, "jsonrpc"@, 0);
        lemma_before_at("jsonrpc"@, "result"@, 0);
        if ordered(id@) && ordered(result@) {
            lemma_object_is_ordered(keys);
        }
    }
    object(members)
}

fn make_error_reply(id: &Json, code: i64, message: &str) -> (r: Json)
    ensures
        r@ == error_reply(id@, code, message@),
        ordered(id@) ==> ordered(r@),
{
    let ghost keys = error_reply(id@, code, message@)->Object_0;
    let ghost inner = keys[0].1->Object_0;
    let error = vec![("code", Json::signed(code)), ("message", text(message))];
    assert(pairs(error@) =~= inner);
    let members = vec![
        ("error", object(error)),
        ("id", id.copied()),
        ("jsonrpc", text("2.0")),
    ];
    assert(pairs(members@) =~= keys);
    proof {
        reveal_strlit("code");
        reveal_strlit("message");
        reveal_strlit("error");
        reveal_strlit("id");
        reveal_strlit("jsonrpc");
        lemma_before_at("code"@, "message"@, 0);
        lemma_before_at("error"@, "id"@, 0);
        lemma_before_at("id"@, "jsonrpc"@, 0);
        lemma_object_is_ordered(inner);
        if ordered(id@) {
            lemma_object_is_ordered(keys);
        }
    }
    object(members)
}

fn make_introduction() -> (r: Json)
    ensures
        r@ == introduction(),
        ordered(r@),
{
    let ghost keys = introduction()->Object_0;
    let nothing: Vec<(&str, Json)> = Vec::new();
    assert(pairs(nothing@) =~= Seq::<(Seq<char>, JsonView)>::empty());
    let able = vec![("tools", object(nothing))];
    assert(pairs(able@) =~= keys[0].1->Object_0);
    let named = vec![("name", text("rewriter-queue")), ("version", text("0.1.0"))];
    assert(pairs(named@) =~= keys[2].1->Object_0);
    let members = vec![
        ("capabilities", object(able)),
        ("protocolVersion", text("2024-11-05")),
        ("serverInfo", object(named)),
    ];
    assert(pairs(members@) =~= keys);
    proof {
        reveal_strlit("name");
        reveal_strlit("version");
        reveal_strlit("capabilities");
        reveal_strlit("protocolVersion");
        reveal_strlit("serverInfo");
        lemma_before_at("name"@, "version"@, 0);
        lemma_before_at("capabilities"@, "protocolVersion"@, 0);
        lemma_before_at("protocolVersion"@, "serverInfo"@, 0);
        lemma_object_is_ordered(Seq::empty());
        lemma_object_is_ordered(keys[0].1->Object_0);
        lemma_object_is_ordered(keys[2].1->Object_0);
        lemma_object_is_ordered(keys);
    }
    object(members)
}

fn make_tool_result(outcome: &Result<String, String>) -> (r: Json)
    ensures
        r@ == tool_result(either(*outcome)),
        ordered(r@),
{
    let ghost keys = tool_result(either(*outcome))->Object_0;
    let ghost part = keys[0].1->List_0[0]->Object_0;
    let is_error = outcome.is_err();
    let said = match outcome {
        Ok(said) => said.clone(),
        Err(e) => "Error: ".to_owned().concat(e.as_str()),
    };
    let shown = vec![("text", text(said.as_str())), ("type", text("text"))];
    assert(pairs(shown@) =~= part);
    let items = vec![object(shown)];
    assert(views(items@) =~= keys[0].1->List_0);
    let members = vec![("content", list(items)), ("isError", Json::Flag(is_error))];
    assert(pairs(members@) =~= keys);
    proof {
        reveal_strlit("text");
        reveal_strlit("type");
        reveal_strlit("content");
        reveal_strlit("isError");
        lemma_before_at("text"@, "type"@, 1);
        lemma_before_at("content"@, "isError"@, 0);
        lemma_object_is_ordered(part);
        lemma_list_is_ordered(keys[0].1->List_0);
        lemma_object_is_ordered(keys);
    }
    object(members)
}

/// The reply to a tool call, by what the queue said.
pub fn tool_reply(id: &Json, outcome: &Result<String, String>) -> (r: Json)
    ensures
        r@ == result_reply(id@, tool_result(either(*outcome))),
        ordered(id@) ==> ordered(r@),
{
    make_result_reply(id, make_tool_result(outcome))
}

fn text_under(j: &Json, key: &str) -> (r: String)
    ensures
        r@ == text_or_none(j@, key@),
{
    match j.field(key).as_text() {
        Some(s) => s.clone(),
        None => {
            let none = String::new();
            assert(none@ =~= Seq::<char>::empty());
            none
        },
    }
}

proof fn lemma_field_is_ordered(j: JsonView, key: Seq<char>)
    requires
        ordered(j),
    ensures
        ordered(field(j, key)),
{
    if let JsonView::Object(members) = j {
        assert(j->Object_0 == members);
        lemma_member_is_ordered(members, key);
    }
}

proof fn lemma_member_is_ordered(members: Seq<(Seq<char>, JsonView)>, key: Seq<char>)
    requires
        forall|i: int| 0 <= i < members.len() ==> ordered((#[trigger] members[i]).1),
    ensures
        member(members, key) matches Some(v) ==> ordered(v),
    decreases members.len(),
{
    if members.len() > 0 && members.last().0 != key {
        assert forall|i: int| 0 <= i < members.drop_last().len() implies ordered(
            (#[trigger] members.drop_last()[i]).1,
        ) by {
            assert(ordered(members[i].1));
        }
        lemma_member_is_ordered(members.drop_last(), key);
    } else if members.len() > 0 {
        assert(ordered(members[members.len() - 1].1));
    }
}

/// What is done about a message.
pub fn handle(req: &Json) -> (r: Handling)
    ensures
        r@ == handled(req@),
        r matches Handling::Reply(j) ==> (ordered(req@) ==> ordered(j@)),
        r matches Handling::Call { id, .. } ==> (ordered(req@) ==> ordered(id@)),
{
    let id = req.field("id");
    proof {
        if ordered(req@) {
            lemma_field_is_ordered(req@, "id"@);
        }
    }
    let method = text_under(req, "method");
    if same(method.as_str(), "initialize") {
        Handling::Reply(make_result_reply(id, make_introduction()))
    } else if same(method.as_str(), "tools/list") {
        let members = vec![("tools", tools())];
        let ghost keys = seq![("tools"@, JsonView::List(queue_tools()))];
        assert(pairs(members@) =~= keys);
        proof {
            lemma_object_is_ordered(keys);
        }
        Handling::Reply(make_result_reply(id, object(members)))
    } else if same(method.as_str(), "tools/call") {
        let params = req.field("params");
        match call(text_under(params, "name").as_str(), params.field("arguments")) {
            Ok(request) => Handling::Call { id: id.copied(), request },
            Err(e) => Handling::Reply(tool_reply(id, &Err(e))),
        }
    } else if starts_with(method.as_str(), "notifications/") {
        Handling::Silent
    } else {
        Handling::Reply(
            make_error_reply(
                id,
                METHOD_NOT_FOUND,
                "Method not found: ".to_owned().concat(method.as_str()).as_str(),
            ),
        )
    }
}

/// What is done about a line.
pub fn receive(line: &str) -> (r: Handling)
    ensures
        r@ == received(line@),
        r matches Handling::Reply(j) ==> ordered(j@),
        r matches Handling::Call { id, .. } ==> ordered(id@),
{
    if is_blank(line) {
        return Handling::Silent;
    }
    match parse_json(line) {
        Ok(req) => handle(&req),
        Err(e) => Handling::Reply(
            make_error_reply(
                &Json::Null,
                PARSE_ERROR,
                "Parse error: ".to_owned().concat(e.as_str()).as_str(),
            ),
        ),
    }
}

/// The tools that are listed are those that there are: a call is of an unknown tool if and only
/// if no tool of that name is listed.
pub proof fn law_listed_tools_are_known(name: Seq<char>, args: JsonView)
    ensures
        (exists|i: int|
            0 <= i < queue_tools().len() && #[trigger] field(queue_tools()[i], "name"@)
                == JsonView::Text(name)) <==> tool_request(name, args) != Err::<
            QueueRequestView,
            Seq<char>,
        >("unknown tool: "@ + name),
{
    reveal_strlit("description");
    reveal_strlit("inputSchema");
    reveal_strlit("name");
    reveal_strlit("unknown tool: ");
    reveal_strlit("missing required field: ");
    let tools = queue_tools();
    assert forall|i: int| 0 <= i < tools.len() implies #[trigger] field(tools[i], "name"@)
        == tools[i]->Object_0[2].1 by {
        let members = tools[i]->Object_0;
        assert(members.last() == members[2]);
        assert(members.last().0 == "name"@);
    }
    assert(field(tools[0], "name"@) == JsonView::Text("queue_submit"@));
    assert(field(tools[1], "name"@) == JsonView::Text("queue_list"@));
    assert(field(tools[2], "name"@) == JsonView::Text("queue_status"@));
    assert(field(tools[3], "name"@) == JsonView::Text("queue_fetch"@));
    assert(field(tools[4], "name"@) == JsonView::Text("queue_download"@));
    assert(field(tools[5], "name"@) == JsonView::Text("queue_artifacts"@));
    assert(field(tools[6], "name"@) == JsonView::Text("queue_artifact"@));
    assert(field(tools[7], "name"@) == JsonView::Text("queue_cancel"@));
    assert(("unknown tool: "@ + name)[0] == 'u');
    assert(forall|s: Seq<char>| (#[trigger] missing_field(s))[0] == 'm');
}

} // verus!
