use rewriter_queue::clock::{seconds, Moment};
use rewriter_queue::jobs::{Job, Spec};
use rewriter_queue::json::{json_text, parse_json, Json};
use rewriter_queue::mcp::{receive, tool_reply, tools, Handling};
use rewriter_queue::remote::{
    authorization, config_dir, list_artifacts_at, queued_text, read_artifact_at, refused_text,
    saved_text, server_url, target, token, unreachable_text, workspace_manifest, written_text,
};
use rewriter_queue::requests::{
    call, context_server_command, flag, id_arg, parse_command, Command, QueueRequest,
};
use rewriter_queue::server::{artifact_named, authorized, fail, route, Failure, ServerRequest};
use rewriter_queue::view::Shown;

fn words(line: &str) -> Vec<String> {
    line.split_whitespace().map(str::to_string).collect()
}

fn headers(token: &str) -> Vec<(String, String)> {
    vec![
        ("Host".to_string(), "x".to_string()),
        ("AUTHORIZATION".to_string(), authorization(token)),
    ]
}

fn refused(code: u16, message: &str) -> Result<ServerRequest, Failure> {
    Err(Failure { code, message: message.to_string() })
}

#[test]
fn only_the_token_opens_the_server() {
    assert!(authorized(&headers("t"), "t"));
    assert!(!authorized(&headers("t"), "other"));
    assert!(!authorized(&[], "t"));
    assert_eq!(route("t", "GET", "/jobs", &headers("wrong")).unwrap_err().code, 401);
}

#[test]
fn a_path_leads_to_what_it_names() {
    let h = headers("t");
    assert_eq!(route("t", "GET", "/jobs", &h), Ok(ServerRequest::List));
    assert_eq!(route("t", "GET", "/watch", &h), Ok(ServerRequest::Watch));
    assert_eq!(
        route("t", "GET", "/jobs/7?lines=3", &h),
        Ok(ServerRequest::Status { id: 7, lines: 3 })
    );
    assert_eq!(route("t", "GET", "/jobs/7", &h), Ok(ServerRequest::Status { id: 7, lines: 20 }));
    assert_eq!(route("t", "POST", "/jobs/7/cancel", &h), Ok(ServerRequest::Cancel { id: 7 }));
    assert_eq!(route("t", "GET", "/jobs/7/result", &h), Ok(ServerRequest::Result { id: 7 }));
    assert_eq!(route("t", "GET", "/jobs/x/result", &h), refused(400, "bad job id: x"));
    assert_eq!(route("t", "GET", "/jobs/7/cancel", &h), refused(404, "not found"));
    assert_eq!(route("t", "DELETE", "/jobs", &h), refused(404, "not found"));
}

#[test]
fn a_query_is_decoded() {
    let h = headers("t");
    assert_eq!(
        route("t", "POST", "/jobs?name=a%20b&inherit_env=true&max_iter=4", &h),
        Ok(ServerRequest::Submit {
            name: Some("a b".into()),
            max_iter: Some(4),
            inherit_env: true
        })
    );
    assert_eq!(
        route("t", "POST", "/jobs?name=&inherit_env=false", &h),
        Ok(ServerRequest::Submit { name: None, max_iter: None, inherit_env: false })
    );
    assert_eq!(
        route("t", "GET", "/jobs/2/artifact?path=v2%2Fsrc%2Fmain.rs", &h),
        Ok(ServerRequest::Artifact { id: 2, path: Some("v2/src/main.rs".into()) })
    );
    assert_eq!(artifact_named(Some("a".into())), Ok("a".to_string()));
    assert_eq!(artifact_named(None).unwrap_err().code, 400);
    assert_eq!(fail(true, "gone".into()).code, 404);
    assert_ne!(fail(false, "gone".into()).code, 404);
}

#[test]
fn what_a_client_sends_arrives() {
    let h = headers("t");
    for (sent, arrives) in [
        (QueueRequest::List, ServerRequest::List),
        (QueueRequest::Status { id: 9, lines: 5 }, ServerRequest::Status { id: 9, lines: 5 }),
        (QueueRequest::Cancel { id: 9 }, ServerRequest::Cancel { id: 9 }),
        (QueueRequest::Fetch { id: 9, out: "/o".into() }, ServerRequest::Result { id: 9 }),
        (
            QueueRequest::Download { id: 9, out: "/o".into() },
            ServerRequest::ArtifactsArchive { id: 9 },
        ),
        (QueueRequest::Artifacts { id: 9 }, ServerRequest::Artifacts { id: 9 }),
    ] {
        let t = target(&sent);
        assert!(t.query.is_empty());
        assert_eq!(route("t", t.method, &t.path, &h), Ok(arrives));
    }
    let t = target(&QueueRequest::Submit {
        source: "/a/b/".into(),
        workspace: "/w".into(),
        max_iter: Some(2),
        inherit_env: true,
    });
    assert_eq!((t.method, t.path.as_str()), ("POST", "/jobs"));
    assert_eq!(t.query[0], ("name".to_string(), "b".to_string()));
    assert_eq!(t.query[2], ("max_iter".to_string(), "2".to_string()));
}

#[test]
fn the_server_and_its_token_are_chosen() {
    assert_eq!(server_url(Some("http://a/".into()), None).as_deref(), Some("http://a"));
    assert_eq!(server_url(Some(String::new()), Some("http://b".into())), None);
    assert_eq!(server_url(None, Some("http://b".into())).as_deref(), Some("http://b"));
    assert_eq!(token(Some(" t ".into()), None, "/p"), Ok("t".to_string()));
    assert_eq!(token(None, Some("t\n".into()), "/p"), Ok("t".to_string()));
    assert_eq!(
        token(None, Some(" \n".into()), "/p"),
        Err("no queue token: set REWRITER_QUEUE_TOKEN or put one in /p".to_string())
    );
    assert_eq!(config_dir(None, Some("/home/u".into())), "/home/u/.config/rewriter");
    assert_eq!(refused_text(404, " gone\n"), "queue server replied 404: gone");
    assert_eq!(unreachable_text("http://a", "no route"), "cannot reach queue server at http://a: no route");
    assert_eq!(written_text("workspace", 3, "/o"), "workspace for job #3 written to /o");
    assert_eq!(workspace_manifest(&[None, Some("[package]".into()), Some("[workspace]".into())]), Some(2));
    assert!(saved_text(12, "/o").contains("12"));
}

#[test]
fn an_artifact_stands_inside_its_directory() {
    assert_eq!(read_artifact_at("/w", "v2/a.rs"), Ok("/w/artifacts/v2/a.rs".to_string()));
    assert!(read_artifact_at("/w", "../secret").is_err());
    assert!(read_artifact_at("/w", "a/../../b").is_err());
    assert!(read_artifact_at("/w", "/etc/passwd").is_err());
    assert_eq!(list_artifacts_at(Some(vec!["b".into(), "a".into()])), "a\nb");
    assert_ne!(list_artifacts_at(None), "");
}

#[test]
fn a_queued_job_is_told_how_many_are_ahead() {
    let spec = Spec {
        name: None,
        workspace: "/w".into(),
        source: "/s".into(),
        max_iter: None,
        inherit_env: false,
    };
    let at = Moment { secs: 0, nanos: 0 };
    let shown = |id: u32, cancel_requested: bool| Shown {
        job: Job::new(id, &spec, at),
        cancel_requested,
        stage: None,
    };
    assert_eq!(
        queued_text(3, &[shown(1, false), shown(2, true), shown(3, false)]),
        "queued job #3 (1 ahead)"
    );
    assert_eq!(seconds(at, Moment { secs: 5, nanos: 0 }), 5);
    assert_eq!(seconds(Moment { secs: 5, nanos: 0 }, at), 0);
}

#[test]
fn the_command_line_is_read() {
    assert_eq!(
        parse_command(&words("submit --source /s --workspace /w --max-iter 3 --inherit-env")),
        Command::Submit {
            source: "/s".into(),
            workspace: "/w".into(),
            max_iter: Some(3),
            inherit_env: true
        }
    );
    assert_eq!(parse_command(&words("submit --source /s")), Command::Usage);
    assert_eq!(parse_command(&words("list")), Command::List);
    assert_eq!(parse_command(&words("status #12")), Command::Status { id: Some(12) });
    assert_eq!(parse_command(&words("cancel x")), Command::Cancel { id: None });
    assert_eq!(
        parse_command(&words("fetch 2 --out /o")),
        Command::Fetch { id: Some(2), out: "/o".into() }
    );
    assert_eq!(
        parse_command(&words("artifact 2 v2/a.rs")),
        Command::Artifact { job: 2, path: "v2/a.rs".into() }
    );
    assert_eq!(parse_command(&words("mcp")), Command::Mcp);
    assert_eq!(parse_command(&[]), Command::Usage);
    assert_eq!(parse_command(&words("nonsense")), Command::Usage);
    assert_eq!(flag(&words("--a --b c"), "--a").as_deref(), Some("--b"));
    assert_eq!(id_arg(&words("##7")), Some(7));
}

#[test]
fn a_tool_call_asks_something_of_the_queue() {
    let args = parse_json("{\"id\": 3, \"log_lines\": 7, \"out\": \"/o\"}").unwrap();
    assert_eq!(call("queue_status", &args), Ok(QueueRequest::Status { id: 3, lines: 7 }));
    assert_eq!(call("queue_fetch", &args), Ok(QueueRequest::Fetch { id: 3, out: "/o".into() }));
    assert_eq!(call("queue_cancel", &args), Ok(QueueRequest::Cancel { id: 3 }));
    assert_eq!(call("queue_artifact", &args), Err("missing required field: path".to_string()));
    assert_eq!(call("queue_cancel", &Json::Null), Err("missing required field: id".to_string()));
    assert_eq!(call("queue_dance", &args), Err("unknown tool: queue_dance".to_string()));
    let (command, arguments) = context_server_command(None, None);
    assert!(!command.is_empty());
    assert_eq!(arguments, vec!["mcp".to_string()]);
}

#[test]
fn a_line_of_the_protocol_is_answered() {
    assert!(matches!(receive("  "), Handling::Silent));
    assert!(matches!(
        receive("{\"jsonrpc\":\"2.0\",\"method\":\"notifications/initialized\"}"),
        Handling::Silent
    ));
    let reply = |line: &str| match receive(line) {
        Handling::Reply(j) => json_text(&j),
        other => panic!("no reply: {other:?}"),
    };
    assert_eq!(
        reply("{\"id\":1,\"method\":\"dance\"}"),
        "{\"error\":{\"code\":-32601,\"message\":\"Method not found: dance\"},\"id\":1,\"jsonrpc\":\"2.0\"}"
    );
    assert!(reply("{").contains("-32700"));
    assert!(reply("{\"id\":1,\"method\":\"initialize\"}").contains("\"protocolVersion\":\"2024-11-05\""));
    assert!(reply("{\"id\":1,\"method\":\"tools/list\"}").contains("queue_submit"));
    assert!(reply("{\"id\":1,\"method\":\"tools/call\",\"params\":{\"name\":\"nope\"}}")
        .contains("Error: unknown tool: nope"));
    match receive("{\"id\":\"a\",\"method\":\"tools/call\",\"params\":{\"name\":\"queue_list\",\"arguments\":{}}}") {
        Handling::Call { id, request } => {
            assert_eq!(request, QueueRequest::List);
            assert_eq!(
                json_text(&tool_reply(&id, &Ok("queue is empty".to_string()))),
                "{\"id\":\"a\",\"jsonrpc\":\"2.0\",\"result\":{\"content\":[{\"text\":\"queue is empty\",\"type\":\"text\"}],\"isError\":false}}"
            );
        }
        other => panic!("no call: {other:?}"),
    }
}

#[test]
fn every_listed_tool_can_be_called() {
    let listed = tools();
    let names: Vec<String> = listed
        .as_list()
        .unwrap()
        .iter()
        .map(|t| t.field("name").as_text().unwrap().clone())
        .collect();
    assert_eq!(names.len(), 8);
    let args = parse_json("{\"id\":1,\"source\":\"s\",\"workspace\":\"w\",\"out\":\"o\",\"path\":\"p\"}").unwrap();
    for name in names {
        assert!(call(&name, &args).is_ok(), "{name}");
    }
}
