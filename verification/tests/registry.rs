use rewriter_queue::arguments::Args;
use rewriter_queue::backends::Answer;
use rewriter_queue::config::{
    any_provider, default_config_path, Keys, ProviderConfig, ProviderKind,
};
use rewriter_queue::json::Json;
use rewriter_queue::metrics::{
    latency_median, ErrorSample, ProviderMetrics, QqOutcome, Quality,
};
use rewriter_queue::models::{
    anthropic_info, infer_local_tier, infer_tier, ollama_info, tier_compatible,
};
use rewriter_queue::qualification::probe;
use rewriter_queue::ranking::{sort_by_key, sort_numbers};
use rewriter_queue::registry::{
    attempt_order, capable_heavy_slots, find_candidates, Outcome, Registry, RouteEffect,
    RouteReply, SlotState,
};
use rewriter_queue::steps::Pause;
use rewriter_queue::types::{
    InferenceRequest, InferenceResponse, ModelTier, ProviderError, ToolDef,
};

/// A name that begins with that of the family of models.
fn named(rest: &str) -> String {
    format!("acme{rest}")
}

const FULL: Quality = Quality { parts: 6, whole: 6 };

type Handler = Box<dyn Fn(&InferenceRequest) -> Result<InferenceResponse, ProviderError>>;

struct Mock {
    name: String,
    tier: ModelTier,
    price: u64,
    available: bool,
    metrics: ProviderMetrics,
    calls: usize,
    outcomes: Vec<Outcome>,
    handler: Handler,
}

fn reply(text: &str, latency_ms: u64) -> Result<InferenceResponse, ProviderError> {
    Ok(InferenceResponse {
        text: text.into(),
        tool_calls: Vec::new(),
        input_tokens: 0,
        output_tokens: 0,
        provider: "mock".into(),
        model: "mock".into(),
        latency_ms,
    })
}

#[derive(Default)]
struct World {
    mocks: Vec<Mock>,
    log: Vec<String>,
    waits: Vec<u64>,
}

impl World {
    fn add(
        mut self,
        name: &str,
        tier: ModelTier,
        price: u64,
        available: bool,
        handler: impl Fn(&InferenceRequest) -> Result<InferenceResponse, ProviderError> + 'static,
    ) -> World {
        self.mocks.push(Mock {
            name: name.into(),
            tier,
            price,
            available,
            metrics: ProviderMetrics::new(),
            calls: 0,
            outcomes: Vec::new(),
            handler: Box::new(handler),
        });
        self
    }

    fn ok(self, name: &str, tier: ModelTier, price: u64) -> World {
        self.add(name, tier, price, true, |_| reply("ok", 2000))
    }

    fn states(&self) -> Vec<SlotState> {
        self.mocks
            .iter()
            .map(|m| SlotState {
                name: m.name.clone(),
                available: m.available,
                context_ok: m.metrics.context_ok,
                quality: m.metrics.quality,
                supports_tools: false,
                tiers: vec![m.tier],
            })
            .collect()
    }

    fn answer(&mut self, effect: RouteEffect, req: &InferenceRequest) -> RouteReply {
        match effect {
            RouteEffect::Survey => RouteReply::Slots(self.states()),
            RouteEffect::Rank { slots, .. } => {
                RouteReply::Keys(slots.iter().map(|i| self.mocks[*i].price).collect())
            }
            RouteEffect::Call { slot } => {
                self.mocks[slot].calls += 1;
                self.log.push(self.mocks[slot].name.clone());
                RouteReply::Answered(Answer { result: (self.mocks[slot].handler)(req) })
            }
            RouteEffect::Record { slot, outcome } => {
                self.mocks[slot].outcomes.push(outcome);
                RouteReply::Done
            }
            RouteEffect::Wait { secs } => {
                self.waits.push(secs);
                RouteReply::Done
            }
        }
    }

    fn try_complete(
        &mut self,
        req: &InferenceRequest,
    ) -> Result<InferenceResponse, ProviderError> {
        let mut log: Vec<RouteReply> = Vec::new();
        loop {
            match Registry::try_complete(req, None, &log, 0) {
                Ok((answer, _)) => return answer.result,
                Err(Pause::Fail(e)) => panic!("no answer at all: {e}"),
                Err(Pause::Ask(effect)) => {
                    let reply = self.answer(effect, req);
                    log.push(reply);
                }
            }
        }
    }

    fn complete(&mut self, req: &InferenceRequest) -> Result<InferenceResponse, ProviderError> {
        let mut log: Vec<RouteReply> = Vec::new();
        loop {
            match Registry::complete(req, None, &log, 0) {
                Ok((answer, _)) => return answer.result,
                Err(Pause::Fail(e)) => panic!("no answer at all: {e}"),
                Err(Pause::Ask(effect)) => {
                    let reply = self.answer(effect, req);
                    log.push(reply);
                }
            }
        }
    }

    /// Asks the qualification questions of provider `i`, and takes in what they come to.
    fn qualify(&mut self, i: usize) -> QqOutcome {
        let mut log: Vec<Answer> = Vec::new();
        loop {
            match probe(&log, 0) {
                Ok((outcome, _)) => {
                    self.mocks[i].metrics.qualify(&outcome);
                    return outcome;
                }
                Err(Pause::Fail(e)) => panic!("no outcome: {e}"),
                Err(Pause::Ask(request)) => {
                    self.mocks[i].calls += 1;
                    log.push(Answer { result: (self.mocks[i].handler)(&request) });
                }
            }
        }
    }
}

fn req(tier: ModelTier, input_chars: usize, depth: u8) -> InferenceRequest {
    InferenceRequest::new(String::new(), "x".repeat(input_chars), 64, tier, depth)
}

const TIERS: [ModelTier; 3] = [ModelTier::Micro, ModelTier::Light, ModelTier::Heavy];

fn rank(t: ModelTier) -> u8 {
    match t {
        ModelTier::Micro => 0,
        ModelTier::Light => 1,
        ModelTier::Heavy => 2,
    }
}

#[test]
fn tier_compatibility_is_downward_closure_of_chain() {
    for m in TIERS {
        for r in TIERS {
            assert_eq!(tier_compatible(m, r), rank(r) <= rank(m), "model {m:?} request {r:?}");
        }
    }
}

#[test]
fn gate_is_sound_and_complete_over_all_combinations() {
    for model_tier in TIERS {
        for req_tier in TIERS {
            for available in [true, false] {
                for context_ok in [true, false] {
                    for chars in [0usize, 13_996, 14_000, 40_000] {
                        let mut w = World::default()
                            .add("p", model_tier, 0, available, |_| reply("ok", 1));
                        w.mocks[0].metrics.context_ok = context_ok;

                        let est_input = chars as u32 / 4;
                        let eligible = available
                            && (context_ok || est_input < 3500)
                            && rank(req_tier) <= rank(model_tier);

                        let result = w.try_complete(&req(req_tier, chars, 0));
                        assert_eq!(result.is_ok(), eligible);
                        assert_eq!(w.mocks[0].calls, eligible as usize);
                        if !eligible {
                            assert!(matches!(result, Err(ProviderError::Unavailable(_))));
                        }
                    }
                }
            }
        }
    }
}

#[test]
fn context_limited_provider_is_bypassed_at_3500_token_boundary() {
    let mut w = World::default()
        .ok("free-small", ModelTier::Heavy, 0)
        .ok("paid-large", ModelTier::Heavy, 1);
    w.mocks[0].metrics.context_ok = false;

    w.try_complete(&req(ModelTier::Heavy, 13_996, 0)).unwrap();
    assert_eq!(w.mocks[0].calls, 1);

    w.try_complete(&req(ModelTier::Heavy, 14_000, 0)).unwrap();
    assert_eq!(w.mocks[0].calls, 1);
    assert_eq!(w.mocks[1].calls, 1);
}

#[test]
fn rolling_windows_hold_last_twenty_samples() {
    let mut m = ProviderMetrics::new();
    assert_eq!(m.latency_p50_ms(), 2000);
    assert!(m.recent_errors.is_empty());
    for ms in 1..=100u64 {
        m.record_latency(ms);
        m.push_error_sample(ms <= 90, 0);
    }
    assert_eq!(m.latency_samples.len(), 20);
    assert_eq!(m.latency_p50_ms(), 91);
    // Half of what is left are errors.
    assert_eq!(m.recent_errors.len(), 20);
    assert_eq!(m.recent_errors.iter().filter(|s| s.is_error).count(), 10);
    assert_eq!(m.recent_errors[19], ErrorSample { is_error: false, at_ms: 0 });
}

#[test]
fn fallthrough_tries_in_score_order_until_success() {
    let mut w = World::default()
        .add("c-ok", ModelTier::Heavy, 2, true, |_| reply("ok", 1))
        .add("a-429", ModelTier::Heavy, 0, true, |_| Err(ProviderError::RateLimit))
        .add("b-err", ModelTier::Heavy, 1, true, |_| {
            Err(ProviderError::Unavailable("down".into()))
        });

    let resp = w.try_complete(&req(ModelTier::Heavy, 0, 0)).unwrap();
    assert_eq!(resp.text, "ok");
    assert_eq!(w.log, vec!["a-429", "b-err", "c-ok"]);

    // The limit and the failure are each held against the one that they came from.
    assert_eq!(w.mocks[1].outcomes, vec![Outcome::RateLimited]);
    assert_eq!(w.mocks[2].outcomes, vec![Outcome::Failed]);
    assert_eq!(w.mocks[0].outcomes, vec![Outcome::Answered { latency_ms: 1 }]);
}

#[test]
fn fallthrough_succeeds_whenever_any_eligible_provider_succeeds() {
    for n in 1..=6usize {
        for good in 0..n {
            let mut w = World::default();
            for i in 0..n {
                let handler = move |_: &InferenceRequest| {
                    if i == good {
                        reply("ok", 1)
                    } else {
                        Err(ProviderError::BadResponse("x".into()))
                    }
                };
                w = w.add(&format!("p{i}"), ModelTier::Heavy, i as u64, true, handler);
            }
            assert!(w.try_complete(&req(ModelTier::Heavy, 0, 0)).is_ok());
            for (i, m) in w.mocks.iter().enumerate() {
                assert_eq!(m.calls, (i <= good) as usize, "n={n} good={good} i={i}");
            }
        }
    }
}

#[test]
fn all_failures_return_last_error() {
    let mut w = World::default()
        .add("a", ModelTier::Heavy, 0, true, |_| Err(ProviderError::RateLimit))
        .add("b", ModelTier::Heavy, 1, true, |_| Err(ProviderError::RateLimit));
    assert!(matches!(
        w.try_complete(&req(ModelTier::Heavy, 0, 0)),
        Err(ProviderError::RateLimit)
    ));
}

#[test]
fn slot_hint_rotation_gives_each_provider_first_position_once_per_cycle() {
    let n = 4usize;
    let mut firsts = Vec::new();
    for hint in 0..2 * n {
        let mut w = World::default();
        for i in 0..n {
            w = w.ok(&format!("p{i}"), ModelTier::Heavy, i as u64);
        }
        let mut rq = req(ModelTier::Heavy, 0, 0);
        rq.slot_hint = Some(hint);
        w.try_complete(&rq).unwrap();
        firsts.push(w.log[0].clone());
    }
    let expected: Vec<String> = (0..2 * n).map(|h| format!("p{}", h % n)).collect();
    assert_eq!(firsts, expected);
}

#[test]
fn capable_heavy_slots_counts_only_qualified_providers() {
    let mut w = World::default()
        .ok("heavy-good", ModelTier::Heavy, 0)
        .ok("heavy-low-quality", ModelTier::Heavy, 0)
        .ok("heavy-ctx-limited", ModelTier::Heavy, 0)
        .ok("light", ModelTier::Light, 0)
        .add("heavy-offline", ModelTier::Heavy, 0, false, |_| reply("ok", 1));
    w.mocks[1].metrics.quality = Quality { parts: 49, whole: 100 };
    w.mocks[2].metrics.context_ok = false;
    assert_eq!(capable_heavy_slots(&w.states()), 1);
}

fn qq_answer(user: &str, truncate: bool) -> String {
    if user.contains("last number") {
        if truncate {
            return "1024".into();
        }
        let list = user.split("\n\n").next().unwrap();
        return list.rsplit(", ").next().unwrap().to_string();
    }
    if user.contains("days of the week") {
        return "Monday\nTuesday\nWednesday\nThursday\nFriday\nSaturday\nSunday".into();
    }
    if user.contains("CORRECT or INCORRECT") {
        return "INCORRECT\nIt subtracts.".into();
    }
    "use std::collections::HashMap;\nstruct M(HashMap<String,String>);\nimpl Store for M { fn get(&self, k: &str) -> Option<String> { self.0.get(k).cloned() } }".into()
}

fn qq_provider(truncate: bool) -> World {
    let latency = std::cell::Cell::new(0u64);
    World::default().add("qq", ModelTier::Heavy, 0, true, move |rq| {
        let ms = 100 * latency.get();
        latency.set(latency.get() + 1);
        reply(&qq_answer(&rq.user, truncate), ms)
    })
}

fn score(q: Quality) -> f64 {
    f64::from(q.parts) / f64::from(q.whole)
}

#[test]
fn qq_perfect_provider_scores_one_with_median_latency() {
    let out = qq_provider(false).qualify(0);
    assert!(out.context_ok);
    assert!(!out.rate_limited);
    assert_eq!(score(out.quality), 1.0);
    // Context probe is call 0; quality probes run at 100, 200, 300 ms.
    assert_eq!(out.latency_p50_ms, 200);
}

#[test]
fn qq_detects_truncating_context_window() {
    let out = qq_provider(true).qualify(0);
    assert!(!out.context_ok);
    assert_eq!(score(out.quality), 1.0);
}

#[test]
fn qq_wrong_answers_score_zero_and_unparseable_verdict_scores_half() {
    let mut w = World::default()
        .add("wrong", ModelTier::Heavy, 0, true, |rq| {
            if rq.user.contains("CORRECT or INCORRECT") {
                reply("CORRECT", 1)
            } else {
                reply("", 1)
            }
        })
        .add("hedge", ModelTier::Heavy, 0, true, |rq| {
            if rq.user.contains("CORRECT or INCORRECT") {
                reply("It depends.", 1)
            } else {
                reply("", 1)
            }
        });
    assert_eq!(score(w.qualify(0).quality), 0.0);
    assert!((score(w.qualify(1).quality) - 0.5 / 3.0).abs() < 1e-12);
}

#[test]
fn qq_rate_limit_leaves_metrics_at_defaults() {
    let mut w = World::default()
        .add("throttled", ModelTier::Heavy, 0, true, |_| Err(ProviderError::RateLimit));
    w.qualify(0);
    assert_eq!(w.mocks[0].calls, 1);
    let m = &w.mocks[0].metrics;
    assert!(m.context_ok);
    assert_eq!(score(m.quality), 1.0);
    assert!(m.latency_samples.is_empty());
}

#[test]
fn qq_non_rate_limit_failure_is_penalised() {
    let mut w = World::default().add("broken", ModelTier::Heavy, 0, true, |_| {
        Err(ProviderError::Unavailable("500".into()))
    });
    w.qualify(0);
    let m = &w.mocks[0].metrics;
    assert!(!m.context_ok);
    assert_eq!(score(m.quality), 0.0);
}

#[test]
fn a_rate_limit_everywhere_is_waited_out() {
    let limited = std::cell::Cell::new(true);
    let mut w = World::default().add("p", ModelTier::Heavy, 0, true, move |_| {
        if limited.replace(false) { Err(ProviderError::RateLimit) } else { reply("ok", 1) }
    });
    assert_eq!(w.complete(&req(ModelTier::Heavy, 0, 0)).unwrap().text, "ok");
    assert_eq!(w.waits, vec![65]);
}

#[test]
fn waiting_ends_after_four_rounds() {
    let mut w =
        World::default().add("p", ModelTier::Heavy, 0, true, |_| Err(ProviderError::RateLimit));
    assert!(matches!(w.complete(&req(ModelTier::Heavy, 0, 0)), Err(ProviderError::RateLimit)));
    assert_eq!(w.mocks[0].calls, w.waits.len() + 1);
    assert!(w.waits.iter().all(|s| *s == 65));
}

#[test]
fn tools_and_a_pinned_provider_narrow_the_choice() {
    let w = World::default().ok("a", ModelTier::Heavy, 0).ok("b", ModelTier::Heavy, 0);
    let mut states = w.states();
    let mut rq = req(ModelTier::Heavy, 0, 0);
    assert_eq!(find_candidates(&states, &rq, None), vec![0, 1]);
    assert_eq!(find_candidates(&states, &rq, Some("b")), vec![1]);
    rq.tools.push(ToolDef { name: "t".into(), description: String::new(), parameters: Json::Null });
    assert!(find_candidates(&states, &rq, None).is_empty());
    states[1].supports_tools = true;
    assert_eq!(find_candidates(&states, &rq, None), vec![1]);
}

#[test]
fn cheaper_providers_come_first_and_equals_keep_their_order() {
    assert_eq!(attempt_order(&[3, 5, 7], &[9, 1, 9], None), vec![5, 3, 7]);
    assert_eq!(attempt_order(&[3, 5, 7], &[9, 1, 9], Some(1)), vec![3, 7, 5]);
    assert!(attempt_order(&[], &[], Some(3)).is_empty());
    assert_eq!(sort_numbers(&[3, 1, 2]), vec![1, 2, 3]);
    assert_eq!(sort_by_key(&[(2, 0), (1, 1), (2, 2)]), vec![(1, 1), (2, 0), (2, 2)]);
}

#[test]
fn the_median_stands_in_the_middle() {
    assert_eq!(latency_median(&[]), 2000);
    assert_eq!(latency_median(&[7]), 7);
    assert_eq!(latency_median(&[30, 10, 20]), 20);
    assert_eq!(latency_median(&[40, 10, 30, 20]), 30);
    assert!(Quality { parts: 1, whole: 2 }.is_capable());
    assert!(!Quality { parts: 49, whole: 100 }.is_capable());
}

#[test]
fn a_qualification_is_taken_in() {
    let mut m = ProviderMetrics::new();
    m.qualify(&QqOutcome {
        context_ok: false,
        quality: Quality { parts: 2, whole: 6 },
        latency_p50_ms: 77,
        rate_limited: false,
    });
    assert!(!m.context_ok);
    assert_eq!(m.quality, Quality { parts: 2, whole: 6 });
    assert_eq!(m.latency_p50_ms(), 77);
    assert!(FULL.is_capable());
}

#[test]
fn models_are_placed_by_their_names() {
    assert_eq!(anthropic_info("acme", &named("-opus-4-7")).tier, ModelTier::Heavy);
    assert_eq!(anthropic_info("acme", &named("-haiku-4-5-20251001")).tier, ModelTier::Light);
    assert_eq!(anthropic_info("acme", "unknown").output_cents_per_million, 7500);
    let info = ollama_info("llama3:8b");
    assert_eq!((info.provider.as_str(), info.tier), ("ollama", ModelTier::Light));
    assert_eq!(info.input_cents_per_million, 0);
}

#[test]
fn a_local_model_is_placed_by_its_size_and_its_purpose() {
    assert_eq!(infer_local_tier("qwen-32b"), ModelTier::Heavy);
    assert_eq!(infer_local_tier("qwen-7b"), ModelTier::Light);
    assert_eq!(infer_local_tier("qwen-coder-7b"), ModelTier::Heavy);
    assert_eq!(infer_local_tier("qwen-3b"), ModelTier::Micro);
    assert_eq!(infer_local_tier("qwen"), ModelTier::Light);
    assert_eq!(infer_local_tier("qwen-coder"), ModelTier::Heavy);
    // A letter of any alphabet belongs to the word.
    assert_eq!(infer_local_tier("qwen-é3b"), ModelTier::Light);
    assert_eq!(infer_tier("Mixtral:8x7B"), ModelTier::Heavy);
    assert_eq!(infer_tier("LLAMA3:8B-Instruct"), ModelTier::Light);
    assert_eq!(infer_tier("phi:3b"), ModelTier::Micro);
    assert_eq!(infer_tier("mystery"), ModelTier::Light);
}

#[test]
fn a_size_is_read_with_its_fraction() {
    assert_eq!(infer_tier("phi:2.7b"), ModelTier::Micro);
    assert_eq!(infer_tier("phi:2.70b"), ModelTier::Micro);
    assert_eq!(infer_tier("m:7.1b-chat"), ModelTier::Light);
    assert_eq!(infer_tier("m:32.5b"), ModelTier::Heavy);
    assert_eq!(infer_tier("llama3.1:8b"), ModelTier::Light);
    assert_eq!(infer_local_tier("phi-2.7b"), ModelTier::Micro);
    assert_eq!(infer_local_tier("qwen1.8b"), ModelTier::Micro);
    assert_eq!(infer_local_tier("qwen2.5-7b"), ModelTier::Light);
    assert_eq!(infer_local_tier("big.70b"), ModelTier::Heavy);
}

#[test]
fn a_model_for_code_counts_one_tier_higher() {
    assert_eq!(infer_local_tier("qwen2.5-coder-3b"), ModelTier::Light);
    assert_eq!(infer_local_tier("qwen2.5-coder-14b"), ModelTier::Heavy);
    assert_eq!(infer_local_tier("qwen2.5-coder-32b"), ModelTier::Heavy);
    assert_eq!(infer_local_tier("qwen2.5-3b"), ModelTier::Micro);
}

fn args() -> Args {
    Args {
        workspace: "/w".into(),
        source: "/s".into(),
        model: "m".into(),
        local_model: None,
        ollama_host: None,
        lmstudio_host: None,
        lmstudio_model: None,
        claude_cli_model: None,
        gemini_key: None,
        max_iter: 10,
    }
}

#[test]
fn providers_are_set_up_from_the_configuration() {
    let configured = vec![
        ProviderConfig {
            name: "cloud".into(),
            kind: ProviderKind::Anthropic,
            api_key_env: Some("KEY".into()),
            base_url: None,
            models: vec![named("-opus-4-7")],
        },
        ProviderConfig {
            name: "here".into(),
            kind: ProviderKind::Ollama,
            api_key_env: None,
            base_url: Some("http://box:1".into()),
            models: vec!["llama3:8b".into()],
        },
    ];
    let r = Registry::from_config("acme", &configured, &[Some("secret".into()), None]);
    assert_eq!(r.slots.len(), 2);
    assert_eq!(r.slots[0].backend.name(), "anthropic");
    let state = r.state(1, true);
    assert_eq!(state.name, "ollama");
    assert!(state.available && state.context_ok && !state.supports_tools);
    assert_eq!(state.quality.parts, state.quality.whole);
}

#[test]
fn a_run_needs_a_provider_from_somewhere() {
    let none = Keys { anthropic: None, groq: None, openai: None };
    assert!(!any_provider(&none, &args(), 0));
    assert!(any_provider(&none, &args(), 1));
    let some = Keys { anthropic: None, groq: Some("k".into()), openai: None };
    assert!(any_provider(&some, &args(), 0));
    let mut local = args();
    local.local_model = Some("llama3".into());
    assert!(any_provider(&none, &local, 0));
}

#[test]
fn the_configuration_stands_under_the_configuration_home() {
    assert_eq!(
        default_config_path(Some("/cfg".into()), Some("/home/u".into())),
        default_config_path(Some("/cfg".into()), None)
    );
    assert!(default_config_path(None, Some("/home/u".into())).starts_with("/home/u/.config/"));
}

#[test]
fn further_providers_are_added_by_the_arguments() {
    let mut r = Registry::from_env("acme", None, None, Vec::new());
    assert_eq!(r.slots.len(), 0);
    let mut a = args();
    a.gemini_key = Some("g".into());
    a.claude_cli_model = Some(named("-haiku-4-5-20251001"));
    r.add_further("acme", &Keys { anthropic: None, groq: Some("q".into()), openai: None }, &a);
    let names: Vec<String> = r.slots.iter().map(|s| s.backend.name()).collect();
    assert!(names.contains(&"gemini".to_string()), "got: {names:?}");
    assert!(names.contains(&"groq".to_string()), "got: {names:?}");
    assert!(names.contains(&named("-cli")), "got: {names:?}");
}

#[test]
fn a_limit_at_any_question_voids_the_qualification() {
    let mut w = World::default().add("busy", ModelTier::Heavy, 0, true, |rq| {
        if rq.user.contains("CORRECT or INCORRECT") {
            Err(ProviderError::RateLimit)
        } else {
            reply("nothing of use", 1)
        }
    });
    let out = w.qualify(0);
    assert!(out.rate_limited && out.context_ok);
    assert_eq!(score(out.quality), 1.0);
    assert_eq!(w.mocks[0].calls, 4);
    assert!(w.mocks[0].metrics.context_ok);
}
