use rewriter_queue::conversation::{TurnEffect, TurnReply};
use rewriter_queue::json::{object, text, Json};
use rewriter_queue::manager::Manager;
use rewriter_queue::steps::{Pause, Step};
use rewriter_queue::types::{InferenceRequest, InferenceResponse, ToolCall, ToolDef, Turn};

fn echo_tool() -> Vec<ToolDef> {
    vec![ToolDef {
        name: "echo".into(),
        description: "echoes its input back".into(),
        parameters: object(vec![
            ("properties", object(vec![("text", object(vec![("type", text("string"))]))])),
            ("type", text("object")),
        ]),
    }]
}

fn echo(name: &str, arguments: &Json) -> String {
    assert_eq!(name, "echo");
    format!("echoed: {}", arguments.field("text").as_text().map(String::as_str).unwrap_or(""))
}

fn response(provider: &str, said: &str, call: Option<&str>) -> InferenceResponse {
    InferenceResponse {
        text: said.into(),
        tool_calls: call
            .map(|t| {
                vec![ToolCall {
                    id: "call-1".into(),
                    name: "echo".into(),
                    arguments: object(vec![("text", text(t))]),
                }]
            })
            .unwrap_or_default(),
        input_tokens: 1,
        output_tokens: 1,
        provider: provider.into(),
        model: "mock".into(),
        latency_ms: 1,
    }
}

/// What a conversation leaves behind.
#[derive(Default)]
struct Trace {
    manager: Option<Manager>,
    outputs: Vec<String>,
    decisions: Vec<String>,
    pins: Vec<Option<String>>,
}

fn converse(
    trace: &mut Trace,
    f: &dyn Fn(&[TurnReply]) -> Step<String, TurnEffect>,
    infer: &mut dyn FnMut(&InferenceRequest, Option<&str>) -> InferenceResponse,
) -> Result<String, String> {
    let mut manager = Manager::new();
    let mut log: Vec<TurnReply> = Vec::new();
    let outcome = loop {
        match f(&log) {
            Ok((value, end)) => {
                assert_eq!(end, log.len());
                break Ok(value);
            }
            Err(Pause::Fail(e)) => break Err(e),
            Err(Pause::Ask(effect)) => log.push(match effect {
                TurnEffect::Task { .. } => TurnReply::Done,
                TurnEffect::Infer { request, provider } => {
                    trace.pins.push(provider.clone());
                    TurnReply::Answer(infer(&request, provider.as_deref()))
                }
                TurnEffect::Tally { input, output } => {
                    manager.spend(input, output);
                    TurnReply::Totals {
                        input: manager.total_input_tokens(),
                        output: manager.total_output_tokens(),
                    }
                }
                TurnEffect::Decision { text, .. } => {
                    trace.decisions.push(text);
                    TurnReply::Done
                }
                TurnEffect::Output { text, .. } => {
                    trace.outputs.push(text);
                    TurnReply::Done
                }
                TurnEffect::Tool { name, arguments } => TurnReply::Text(echo(&name, &arguments)),
            }),
        }
    };
    trace.manager = Some(manager);
    outcome
}

fn agentic(
    trace: &mut Trace,
    max_turns: usize,
    infer: &mut dyn FnMut(&InferenceRequest, Option<&str>) -> InferenceResponse,
) -> Result<String, String> {
    let tools = echo_tool();
    converse(
        trace,
        &|log| Manager::run_agentic("TestAgent", "system", "task", &tools, max_turns, log, 0),
        infer,
    )
}

#[test]
fn run_agentic_executes_a_tool_call_and_feeds_the_result_back_into_the_conversation() {
    let mut n = 0;
    let mut trace = Trace::default();
    let result = agentic(&mut trace, 5, &mut |req, _| {
        n += 1;
        if n == 1 {
            return response("mock", "", Some("hello"));
        }
        let saw_result = req.history.iter().any(|t| {
            matches!(t, Turn::ToolResults(rs) if rs.iter().any(|r| r.content == "echoed: hello"))
        });
        response("mock", if saw_result { "done" } else { "MISSING RESULT" }, None)
    })
    .unwrap();
    assert_eq!(result, "done");
    assert_eq!(trace.outputs, vec!["done".to_string()]);
    assert_eq!(trace.manager.unwrap().total_input_tokens(), 2);
}

#[test]
fn run_agentic_gives_up_after_max_turns_instead_of_looping_forever() {
    let mut trace = Trace::default();
    let err = agentic(&mut trace, 3, &mut |_, _| response("mock", "", Some("again"))).unwrap_err();
    assert!(err.contains("did not produce a final answer"));
    assert_eq!(trace.pins.len(), 3);
}

#[test]
fn run_agentic_pins_every_turn_after_the_first_to_the_same_provider() {
    let mut n = 0;
    let mut trace = Trace::default();
    let result = agentic(&mut trace, 5, &mut |_, pinned| {
        n += 1;
        match (n, pinned) {
            (1, None) => response("first", "", Some("hello")),
            (_, Some("first")) => response("first", "done-from-first", None),
            _ => response("second", "WRONG PROVIDER", None),
        }
    })
    .unwrap();
    assert_eq!(result, "done-from-first");
    assert_eq!(trace.pins, vec![None, Some("first".to_string())]);
}

#[test]
fn a_single_turn_carries_the_task_and_the_slot() {
    let mut trace = Trace::default();
    let result = converse(
        &mut trace,
        &|log| Manager::run_on_slot("TargetImplementer-2", "sys", "do it", Some(7), log, 0),
        &mut |req, _| {
            assert_eq!(req.system, "sys");
            assert_eq!(req.user, "do it");
            assert_eq!(req.slot_hint, Some(7));
            assert_eq!(req.max_tokens, 16_000);
            assert_eq!(req.hora_depth, 1);
            assert!(req.tools.is_empty() && req.history.is_empty());
            response("mock", "fine", None)
        },
    )
    .unwrap();
    assert_eq!(result, "fine");
    let again = converse(
        &mut Trace::default(),
        &|log| Manager::run("Agent", "sys", "do it", log, 0),
        &mut |req, _| {
            assert_eq!(req.slot_hint, None);
            response("mock", "fine too", None)
        },
    );
    assert_eq!(again, Ok("fine too".to_string()));
}
