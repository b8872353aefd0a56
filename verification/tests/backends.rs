use rewriter_queue::arguments::{parse_args, Environment};
use rewriter_queue::backends::{
    AnthropicProvider, ClaudeCliProvider, CliRun, GeminiProvider, HttpReply, OllamaProvider,
    OpenAiCompatProvider,
};
use rewriter_queue::json::{json_text, parse_json, Json};
use rewriter_queue::types::{InferenceRequest, ModelTier, ProviderError};

/// A name that begins with that of the family of models.
fn named(rest: &str) -> String {
    format!("acme{rest}")
}

fn request() -> InferenceRequest {
    InferenceRequest::new("be brief".into(), "say \"hi\"".into(), 64, ModelTier::Heavy, 0)
}

fn header<'a>(headers: &'a [(String, String)], name: &str) -> Option<&'a str> {
    headers.iter().find(|h| h.0.eq_ignore_ascii_case(name)).map(|h| h.1.as_str())
}

#[test]
fn json_is_read_and_printed_the_same() {
    let written = "{\"a\":[1,-2,true,null],\"b\":{\"c\":\"x\\ny\"}}";
    let j = parse_json(written).unwrap();
    assert_eq!(json_text(&j), written);
    assert_eq!(j.field("a").item(0).as_whole(), Some(1));
    assert_eq!(j.field("a").item(1).as_whole(), None);
    assert_eq!(j.field("a").item(2).as_flag(), Some(true));
    assert_eq!(j.field("b").field("c").as_text().unwrap(), "x\ny");
    assert_eq!(j.field("z"), &Json::Null);
    assert_eq!(json_text(&Json::number(u64::MAX)), "18446744073709551615");
    assert_eq!(json_text(&Json::signed(-32601)), "-32601");
    assert!(parse_json("{").unwrap_err().contains("EOF"));
}

#[test]
fn anthropic_is_asked_with_its_own_headers() {
    let p = AnthropicProvider::new("acme".into(), "k".into(), vec![named("-opus-4-7")]);
    assert!(p.is_available());
    let r = p.request(&request());
    assert_eq!(r.url, "https://api.anthropic.com/v1/messages");
    assert_eq!(header(&r.headers, "x-api-key"), Some("k"));
    assert_eq!(
        json_text(&r.body),
        [
            "{\"max_tokens\":64,\"messages\":[{\"content\":\"say \\\"hi\\\"\",\"role\":\"user\"}],\"model\":\"",
            &named("-opus-4-7"),
            "\",\"system\":\"be brief\"}",
        ]
        .concat()
    );
    assert!(!AnthropicProvider::new("acme".into(), String::new(), Vec::new()).is_available());
}

#[test]
fn an_answer_of_anthropic_is_read() {
    let p = AnthropicProvider::new("acme".into(), "k".into(), vec!["m".into()]);
    let body = "{\"content\":[{\"type\":\"text\",\"text\":\"hello\"}],\"usage\":{\"input_tokens\":3,\"output_tokens\":4294967297}}";
    let a = p.interpret(&HttpReply::Success(body.into()), 9).unwrap();
    assert_eq!(a.text, "hello");
    assert_eq!((a.input_tokens, a.output_tokens, a.latency_ms), (3, 1, 9));
    assert_eq!((a.provider.as_str(), a.model.as_str()), ("anthropic", "m"));
    assert_eq!(p.interpret(&HttpReply::Status(429, String::new()), 1), Err(ProviderError::RateLimit));
    assert_eq!(
        p.interpret(&HttpReply::Status(500, "oops".into()), 1),
        Err(ProviderError::Unavailable("HTTP 500: oops".into()))
    );
    assert_eq!(
        p.interpret(&HttpReply::Failed("no route".into()), 1),
        Err(ProviderError::Unavailable("no route".into()))
    );
    assert_eq!(
        p.interpret(&HttpReply::Success("{\"x\":1}".into()), 1),
        Err(ProviderError::BadResponse("unexpected: {\"x\":1}".into()))
    );
    assert_eq!(
        p.interpret(&HttpReply::Unread("cut off".into()), 1),
        Err(ProviderError::BadResponse("Failed to read JSON: cut off".into()))
    );
    let unread = p.interpret(&HttpReply::Success("<html>".into()), 1).unwrap_err();
    assert!(unread.text().contains("Failed to read JSON"), "got: {}", unread.text());
}

#[test]
fn a_compatible_service_is_asked_under_its_url() {
    let p = OpenAiCompatProvider::new(
        "groq".into(),
        "https://api.groq.com/openai/v1/".into(),
        "k".into(),
        vec!["llama-3.3-70b-versatile".into()],
    );
    let r = p.request(&request());
    assert_eq!(r.url, "https://api.groq.com/openai/v1/chat/completions");
    assert_eq!(header(&r.headers, "authorization"), Some("Bearer k"));
    let body = "{\"choices\":[{\"message\":{\"content\":\"yes\"}}],\"usage\":{\"prompt_tokens\":1,\"completion_tokens\":2}}";
    let a = p.interpret(&HttpReply::Success(body.into()), 1).unwrap();
    assert_eq!((a.text.as_str(), a.provider.as_str()), ("yes", "groq"));
    assert_eq!(p.interpret(&HttpReply::Status(413, String::new()), 1), Err(ProviderError::RateLimit));
    let open = OpenAiCompatProvider::new("lmstudio".into(), "http://x/v1".into(), String::new(), Vec::new());
    assert_eq!(header(&open.request(&request()).headers, "authorization"), None);
}

#[test]
fn a_local_server_is_asked_and_its_context_noted() {
    let mut p = OllamaProvider::new("http://localhost:11434".into(), vec!["llama3:8b".into()]);
    assert!(p.health_url().starts_with("http://localhost:11434/"));
    assert!(p.request(&request()).url.starts_with("http://localhost:11434/api/"));
    let body = "{\"message\":{\"content\":\"ok\"},\"prompt_eval_count\":5,\"eval_count\":6}";
    let a = p.interpret(&HttpReply::Success(body.into()), 1).unwrap();
    assert_eq!((a.text.as_str(), a.input_tokens, a.output_tokens), ("ok", 5, 6));
    p.set_context_ok("llama3:8b", false);
    assert_eq!(p.models[0].context_limit, 3_500);
    p.set_context_ok("llama3:8b", true);
    assert_eq!(p.models[0].context_limit, 128_000);
}

#[test]
fn a_used_up_quota_is_a_rate_limit_wherever_it_is_reported() {
    let p = GeminiProvider::new("k".into(), vec!["gemini-2.0-flash".into()]);
    let r = p.request(&request());
    assert!(r.url.ends_with("/gemini-2.0-flash:generateContent"));
    assert_eq!(header(&r.headers, "x-goog-api-key"), Some("k"));
    for reply in [
        HttpReply::Status(429, String::new()),
        HttpReply::Status(503, "RESOURCE_EXHAUSTED".into()),
        HttpReply::Success("{\"error\":{\"status\":\"RESOURCE_EXHAUSTED\"}}".into()),
    ] {
        assert_eq!(p.interpret(&reply, 1), Err(ProviderError::RateLimit));
    }
    assert_eq!(
        p.interpret(
            &HttpReply::Success("{\"error\":{\"status\":\"X\",\"message\":\"why\"}}".into()),
            1
        ),
        Err(ProviderError::Unavailable("why".into()))
    );
    let body = "{\"candidates\":[{\"content\":{\"parts\":[{\"text\":\"hey\"}]}}],\"usageMetadata\":{\"promptTokenCount\":1,\"candidatesTokenCount\":2}}";
    assert_eq!(p.interpret(&HttpReply::Success(body.into()), 1).unwrap().text, "hey");
}

#[test]
fn the_program_is_looked_for_along_the_path() {
    assert_eq!(
        ClaudeCliProvider::new("acme".into(), "m".into()).candidates("/usr/bin:/opt/x"),
        vec![format!("/usr/bin/{}", named("")), format!("/opt/x/{}", named(""))]
    );
    let p = ClaudeCliProvider::new("acme".into(), "m".into());
    let ended = |success: bool, stdout: &str, stderr: &str| CliRun::Ended {
        success,
        status: "exit status: 1".into(),
        stdout: stdout.into(),
        stderr: stderr.into(),
    };
    let a = p.interpret(&request(), &ended(true, " fine \n", ""), 5).unwrap();
    assert_eq!((a.text.as_str(), a.input_tokens, a.output_tokens), ("fine", 4, 1));
    assert_eq!(
        p.interpret(&request(), &ended(false, "", "RATE limited"), 5),
        Err(ProviderError::RateLimit)
    );
    assert_eq!(
        p.interpret(&request(), &ended(false, "", "boom"), 5),
        Err(ProviderError::Unavailable(named(" exited exit status: 1: boom")))
    );
    assert_eq!(
        p.interpret(&request(), &ended(true, " \n", ""), 5),
        Err(ProviderError::BadResponse(named(" returned empty output")))
    );
    assert_eq!(
        p.interpret(&request(), &CliRun::Missing, 5),
        Err(ProviderError::Unavailable(named(" not found on PATH")))
    );
    assert!(p.arguments(&request()).contains(&"m".to_string()));
}

fn environment() -> Environment {
    Environment {
        family: "acme".into(),
        lmstudio_host: None,
        lmstudio_model: None,
        claude_cli_model: None,
        use_claude_cli: None,
        gemini_key: None,
    }
}

fn words(line: &str) -> Vec<String> {
    line.split_whitespace().map(str::to_string).collect()
}

#[test]
fn arguments_are_read_with_their_defaults() {
    let a = parse_args(&words("-w /w --source /s"), environment()).unwrap();
    assert_eq!((a.workspace.as_str(), a.source.as_str()), ("/w", "/s"));
    assert_eq!(a.model, named("-opus-4-7"));
    assert_eq!(a.max_iter, 10);
    assert_eq!(a.claude_cli_model, None);
    let a = parse_args(&words(&format!("-w /w -s /s --{} --max-iter 3", named("-cli"))), environment()).unwrap();
    assert_eq!(a.claude_cli_model, Some(named("-haiku-4-5-20251001")));
    assert_eq!(a.max_iter, 3);
    let a = parse_args(&words(&format!("-w /w -s /s --{} opus --max-iter x", named("-cli"))), environment()).unwrap();
    assert_eq!(a.claude_cli_model.as_deref(), Some("opus"));
    assert_eq!(a.max_iter, 10);
    let mut env = environment();
    env.use_claude_cli = Some("1".into());
    env.gemini_key = Some("g".into());
    let a = parse_args(&words("-w /w -s /s"), env).unwrap();
    assert_eq!(a.claude_cli_model, Some(named("-haiku-4-5-20251001")));
    assert_eq!(a.gemini_key.as_deref(), Some("g"));
}

#[test]
fn a_workspace_and_a_source_are_needed() {
    assert!(parse_args(&words("--source /s"), environment()).is_err());
    assert!(parse_args(&words("--workspace /w"), environment()).is_err());
    assert_ne!(
        parse_args(&words("--source /s"), environment()),
        parse_args(&words("--workspace /w"), environment())
    );
}
