//! The registry of providers: which of them can take a request, in which order they are tried,
//! and what becomes of their failures.

use crate::arguments::Args;
use crate::backends::{
    anthropic_with, cli_with, compatible_with, gemini_with, ollama_with, Answer, AnswerView,
    AnthropicProvider, Backend, BackendView, ClaudeCliProvider, GeminiProvider, OllamaProvider,
    OpenAiCompatProvider,
};
use crate::config::{configured, Keys, ProviderConfig};
use crate::copied::{opt_view, Copied};
use crate::metrics::{ProviderMetrics, Quality};
use crate::models::{rank, tier_compatible};
use crate::names::{kin, kin_name};
use crate::numbers::{decimal, decimal_text};
use crate::paths::{bare, bare_url};
use crate::ranking::{by_key, lemma_by_key, no_higher, sort_by_key};
use crate::repair::opt_str;
use crate::steps::{seen, Pause, PauseView, Step, StepView};
use crate::text::{byte_len, bytes, lemma_byte_len_of_parts, same, texts};
use crate::types::{InferenceRequest, ModelTier, ProviderError, ProviderErrorView, RequestView};
use vstd::prelude::*;
use vstd::string::StringExecFns;

verus! {

/// How often a request is tried again when every provider says that it is asked too often.
pub const MAX_GLOBAL_RETRIES: u32 = 4;

/// How long is waited before a request is tried again, in seconds.
pub const RETRY_WAIT_SECS: u64 = 65;

/// From how many input tokens on a provider must have been seen to take a long context.
pub const LONG_CONTEXT: u32 = 3500;

/// What is known of a provider when a request comes in.
#[derive(Debug)]
pub struct SlotState {
    pub name: String,
    pub available: bool,
    pub context_ok: bool,
    pub quality: Quality,
    pub supports_tools: bool,
    /// The tiers of its models.
    pub tiers: Vec<ModelTier>,
}

/// How a call to a provider went.
#[derive(Debug, Clone, Copy, PartialEq, Eq, Structural)]
pub enum Outcome {
    Answered { latency_ms: u64 },
    RateLimited,
    Failed,
}

/// A question of the registry.
#[derive(Debug)]
pub enum RouteEffect {
    /// Look at every provider.
    Survey,
    /// Say how dear each of these providers is right now, as a number: the lower, the sooner
    /// it is tried.
    Rank { slots: Vec<usize>, est_input: u32, est_output: u32, hora_depth: u8 },
    /// Let a provider answer the request.
    Call { slot: usize },
    /// Remember how a call went.
    Record { slot: usize, outcome: Outcome },
    /// Wait.
    Wait { secs: u64 },
}

/// A question of the registry, by its contents.
pub enum RouteEffectView {
    Survey,
    Rank { slots: Seq<usize>, est_input: u32, est_output: u32, hora_depth: u8 },
    Call { slot: usize },
    Record { slot: usize, outcome: Outcome },
    Wait { secs: u64 },
}

impl View for RouteEffect {
    type V = RouteEffectView;

    open spec fn view(&self) -> RouteEffectView {
        match self {
            RouteEffect::Survey => RouteEffectView::Survey,
            RouteEffect::Rank { slots, est_input, est_output, hora_depth } => RouteEffectView::Rank {
                slots: slots@,
                est_input: *est_input,
                est_output: *est_output,
                hora_depth: *hora_depth,
            },
            RouteEffect::Call { slot } => RouteEffectView::Call { slot: *slot },
            RouteEffect::Record { slot, outcome } => RouteEffectView::Record {
                slot: *slot,
                outcome: *outcome,
            },
            RouteEffect::Wait { secs } => RouteEffectView::Wait { secs: *secs },
        }
    }
}

/// An answer to a question of the registry.
#[derive(Debug)]
pub enum RouteReply {
    Slots(Vec<SlotState>),
    Keys(Vec<u64>),
    Answered(Answer),
    Done,
}

/// What a request comes to.
pub type Route<T> = Step<T, RouteEffect>;

/// What a request comes to, by its contents.
pub type RouteView<V> = StepView<V, RouteEffectView>;

/// About how many tokens a request has: a fourth of its bytes, as 32 bits hold them.
pub open spec fn estimated_input(req: RequestView) -> u32 {
    (((byte_len(req.user) + byte_len(req.system)) % 0x1_0000_0000) / 4) as u32
}

/// About how many tokens an answer has.
pub open spec fn estimated_output(tier: ModelTier) -> u32 {
    match tier {
        ModelTier::Micro => 256,
        ModelTier::Light => 1024,
        ModelTier::Heavy => 8000,
    }
}

/// Whether a provider can take a request: it is there, it takes the context, one of its models
/// is of the tier or above, and it can be offered the tools, where there are any. A
/// conversation stays with the provider that it began with.
pub open spec fn eligible(s: SlotState, req: RequestView, pinned: Option<Seq<char>>) -> bool {
    &&& s.available
    &&& s.context_ok || estimated_input(req) < LONG_CONTEXT
    &&& exists|i: int| 0 <= i < s.tiers@.len() && rank(req.tier) <= rank(#[trigger] s.tiers@[i])
    &&& req.tools.len() == 0 || s.supports_tools
    &&& pinned is None || pinned == Some(s.name@)
}

/// The first `n` providers that can take a request.
pub open spec fn candidates_to(
    slots: Seq<SlotState>,
    n: int,
    req: RequestView,
    pinned: Option<Seq<char>>,
) -> Seq<usize>
    decreases n,
{
    if n <= 0 {
        Seq::empty()
    } else {
        let rest = candidates_to(slots, n - 1, req, pinned);
        if eligible(slots[n - 1], req, pinned) {
            rest.push((n - 1) as usize)
        } else {
            rest
        }
    }
}

/// The providers that can take a request.
pub open spec fn candidates(
    slots: Seq<SlotState>,
    req: RequestView,
    pinned: Option<Seq<char>>,
) -> Seq<usize> {
    candidates_to(slots, slots.len() as int, req, pinned)
}

/// What a tier is called.
pub open spec fn tier_name(t: ModelTier) -> Seq<char> {
    match t {
        ModelTier::Heavy => "Heavy"@,
        ModelTier::Light => "Light"@,
        ModelTier::Micro => "Micro"@,
    }
}

/// What is said where no provider can take a request.
pub open spec fn nobody(req: RequestView) -> ProviderErrorView {
    ProviderErrorView::Unavailable(
        "no provider available for tier "@ + tier_name(req.tier) + " with ~"@ + decimal(
            estimated_input(req) as nat,
        ) + " input tokens"@,
    )
}

/// Providers with their keys.
pub open spec fn keyed(slots: Seq<usize>, keys: Seq<u64>) -> Seq<(u64, usize)> {
    Seq::new(slots.len(), |i: int| (keys[i], slots[i]))
}

/// Providers from the lowest key to the highest.
pub open spec fn ranked(slots: Seq<usize>, keys: Seq<u64>) -> Seq<usize> {
    by_key(keyed(slots, keys)).map_values(|p: (u64, usize)| p.1)
}

/// `order` begun at the place that is hinted at, counted round and round.
pub open spec fn rotated(order: Seq<usize>, hint: Option<usize>) -> Seq<usize> {
    match hint {
        Some(h) => if order.len() == 0 {
            order
        } else {
            let k = h as int % order.len() as int;
            order.skip(k) + order.take(k)
        },
        None => order,
    }
}

/// How a call went, by its answer.
pub open spec fn outcome_of(answer: AnswerView) -> Outcome {
    match answer {
        Ok(response) => Outcome::Answered { latency_ms: response.latency_ms },
        Err(ProviderErrorView::RateLimit) => Outcome::RateLimited,
        Err(_) => Outcome::Failed,
    }
}

/// The state of the providers.
pub open spec fn surveyed(log: Seq<RouteReply>, at: int) -> RouteView<Seq<SlotState>> {
    if 0 <= at < log.len() && log[at] is Slots {
        Ok((log[at]->Slots_0@, at + 1))
    } else {
        Err(PauseView::Ask(RouteEffectView::Survey))
    }
}

/// A key for each of the providers that `e` speaks of.
pub open spec fn keys_for(e: RouteEffectView, n: nat, log: Seq<RouteReply>, at: int) -> RouteView<
    Seq<u64>,
> {
    if 0 <= at < log.len() && log[at] is Keys && log[at]->Keys_0@.len() == n {
        Ok((log[at]->Keys_0@, at + 1))
    } else {
        Err(PauseView::Ask(e))
    }
}

/// A provider's answer.
pub open spec fn called(slot: usize, log: Seq<RouteReply>, at: int) -> RouteView<AnswerView> {
    if 0 <= at < log.len() && log[at] is Answered {
        Ok((log[at]->Answered_0@, at + 1))
    } else {
        Err(PauseView::Ask(RouteEffectView::Call { slot }))
    }
}

/// The assurance that `e` was done.
pub open spec fn settled(e: RouteEffectView, log: Seq<RouteReply>, at: int) -> RouteView<()> {
    if 0 <= at < log.len() && log[at] is Done {
        Ok(((), at + 1))
    } else {
        Err(PauseView::Ask(e))
    }
}

/// What comes of trying the providers in `order` from `i` on: the first answer, or the last
/// failure.
pub open spec fn tried_from(
    order: Seq<usize>,
    i: int,
    last: ProviderErrorView,
    log: Seq<RouteReply>,
    at: int,
) -> RouteView<AnswerView>
    decreases order.len() - i,
{
    if i < 0 || i >= order.len() {
        Ok((Err(last), at))
    } else {
        match called(order[i], log, at) {
            Err(p) => Err(p),
            Ok((answer, at)) => match settled(
                RouteEffectView::Record { slot: order[i], outcome: outcome_of(answer) },
                log,
                at,
            ) {
                Err(p) => Err(p),
                Ok((_, at)) => match answer {
                    Ok(_) => Ok((answer, at)),
                    Err(e) => tried_from(order, i + 1, e, log, at),
                },
            },
        }
    }
}

/// What comes of one attempt at a request.
pub open spec fn attempted(
    req: RequestView,
    pinned: Option<Seq<char>>,
    log: Seq<RouteReply>,
    at: int,
) -> RouteView<AnswerView> {
    match surveyed(log, at) {
        Err(p) => Err(p),
        Ok((slots, at)) => {
            let able = candidates(slots, req, pinned);
            if able.len() == 0 {
                Ok((Err(nobody(req)), at))
            } else {
                match keys_for(
                    RouteEffectView::Rank {
                        slots: able,
                        est_input: estimated_input(req),
                        est_output: estimated_output(req.tier),
                        hora_depth: req.hora_depth,
                    },
                    able.len(),
                    log,
                    at,
                ) {
                    Err(p) => Err(p),
                    Ok((keys, at)) => tried_from(
                        rotated(ranked(able, keys), req.slot_hint),
                        0,
                        ProviderErrorView::Unavailable("all providers failed"@),
                        log,
                        at,
                    ),
                }
            }
        },
    }
}

/// What comes of a request from attempt `attempt` on. Only a limit is worth waiting for.
pub open spec fn routed_from(
    attempt: nat,
    req: RequestView,
    pinned: Option<Seq<char>>,
    log: Seq<RouteReply>,
    at: int,
) -> RouteView<AnswerView>
    decreases MAX_GLOBAL_RETRIES - attempt,
{
    match attempted(req, pinned, log, at) {
        Err(p) => Err(p),
        Ok((answer, at)) => if answer == Err::<crate::types::ResponseView, ProviderErrorView>(
            ProviderErrorView::RateLimit,
        ) && attempt < MAX_GLOBAL_RETRIES {
            match settled(RouteEffectView::Wait { secs: RETRY_WAIT_SECS }, log, at) {
                Err(p) => Err(p),
                Ok((_, at)) => routed_from(attempt + 1, req, pinned, log, at),
            }
        } else {
            Ok((answer, at))
        },
    }
}

fn estimate_input(req: &InferenceRequest) -> (r: u32)
    ensures
        r == estimated_input(req@),
{
    let total: u128 = bytes(req.user.as_str()) as u128 + bytes(req.system.as_str()) as u128;
    ((total % 0x1_0000_0000) / 4) as u32
}

fn estimate_output(tier: ModelTier) -> (r: u32)
    ensures
        r == estimated_output(tier),
{
    match tier {
        ModelTier::Micro => 256,
        ModelTier::Light => 1024,
        ModelTier::Heavy => 8000,
    }
}

fn has_tier(tiers: &[ModelTier], tier: ModelTier) -> (r: bool)
    ensures
        r == exists|i: int| 0 <= i < tiers@.len() && rank(tier) <= rank(#[trigger] tiers@[i]),
{
    let mut i: usize = 0;
    while i < tiers.len()
        invariant
            i <= tiers@.len(),
            forall|j: int| 0 <= j < i ==> rank(tier) > rank(#[trigger] tiers@[j]),
        decreases tiers@.len() - i,
    {
        if tier_compatible(tiers[i], tier) {
            assert(rank(tier) <= rank(tiers@[i as int]));
            return true;
        }
        i += 1;
    }
    false
}

/// Whether a provider can take a request.
pub fn is_eligible(s: &SlotState, req: &InferenceRequest, pinned: Option<&str>) -> (r: bool)
    ensures
        r == eligible(*s, req@, opt_str(pinned)),
{
    let named = match pinned {
        None => true,
        Some(name) => same(name, s.name.as_str()),
    };
    assert(req@.tools.len() == req.tools@.len());
    s.available && (s.context_ok || estimate_input(req) < LONG_CONTEXT) && has_tier(
        s.tiers.as_slice(),
        req.tier,
    ) && (req.tools.len() == 0 || s.supports_tools) && named
}

/// The providers that can take a request.
pub fn find_candidates(slots: &[SlotState], req: &InferenceRequest, pinned: Option<&str>) -> (r:
    Vec<usize>)
    ensures
        r@ == candidates(slots@, req@, opt_str(pinned)),
{
    let mut out: Vec<usize> = Vec::new();
    let mut i: usize = 0;
    while i < slots.len()
        invariant
            i <= slots@.len(),
            out@ == candidates_to(slots@, i as int, req@, opt_str(pinned)),
        decreases slots@.len() - i,
    {
        if is_eligible(&slots[i], req, pinned) {
            out.push(i);
        }
        i += 1;
    }
    out
}

/// Providers in the order in which they are tried.
pub fn attempt_order(slots: &[usize], keys: &[u64], hint: Option<usize>) -> (r: Vec<usize>)
    requires
        slots@.len() == keys@.len(),
    ensures
        r@ == rotated(ranked(slots@, keys@), hint),
        r@.len() == slots@.len(),
{
    let mut pairs: Vec<(u64, usize)> = Vec::new();
    let mut i: usize = 0;
    while i < slots.len()
        invariant
            slots@.len() == keys@.len(),
            i <= slots@.len(),
            pairs@ =~= keyed(slots@, keys@).take(i as int),
        decreases slots@.len() - i,
    {
        pairs.push((keys[i], slots[i]));
        i += 1;
    }
    assert(pairs@ =~= keyed(slots@, keys@));
    let sorted = sort_by_key(pairs.as_slice());
    proof {
        lemma_by_key(keyed(slots@, keys@));
    }
    let ghost order = ranked(slots@, keys@);
    let n: usize = sorted.len();
    let start: usize = match hint {
        Some(h) => if n == 0 {
            0
        } else {
            h % n
        },
        None => 0,
    };
    let mut out: Vec<usize> = Vec::new();
    let mut k: usize = start;
    while k < n
        invariant
            start <= k <= n == sorted@.len(),
            order == sorted@.map_values(|p: (u64, usize)| p.1),
            out@ =~= order.subrange(start as int, k as int),
        decreases n - k,
    {
        out.push(sorted[k].1);
        k += 1;
    }
    let mut k: usize = 0;
    while k < start
        invariant
            k <= start <= n == sorted@.len(),
            order == sorted@.map_values(|p: (u64, usize)| p.1),
            out@ =~= order.skip(start as int) + order.take(k as int),
        decreases start - k,
    {
        out.push(sorted[k].1);
        k += 1;
    }
    assert(order.skip(0) + order.take(0) =~= order);
    out
}

fn look(log: &[RouteReply], at: usize) -> (r: Result<(&Vec<SlotState>, usize), Pause<RouteEffect>>)
    ensures
        match r {
            Ok((slots, next)) => surveyed(log@, at as int) == Ok::<
                (Seq<SlotState>, int),
                PauseView<RouteEffectView>,
            >((slots@, next as int)),
            Err(p) => surveyed(log@, at as int) == Err::<
                (Seq<SlotState>, int),
                PauseView<RouteEffectView>,
            >(p@),
        },
{
    if at < log.len() {
        if let RouteReply::Slots(slots) = &log[at] {
            return Ok((slots, at + 1));
        }
    }
    Err(Pause::Ask(RouteEffect::Survey))
}

fn ask_keys(e: RouteEffect, n: usize, log: &[RouteReply], at: usize) -> (r: Route<Vec<u64>>)
    ensures
        seen(r) == keys_for(e@, n as nat, log@, at as int),
{
    if at < log.len() {
        if let RouteReply::Keys(keys) = &log[at] {
            if keys.len() == n {
                let mut copy: Vec<u64> = Vec::new();
                let mut i: usize = 0;
                while i < keys.len()
                    invariant
                        i <= keys@.len(),
                        copy@ =~= keys@.take(i as int),
                    decreases keys@.len() - i,
                {
                    copy.push(keys[i]);
                    i += 1;
                }
                assert(copy@ =~= keys@);
                return Ok((copy, at + 1));
            }
        }
    }
    Err(Pause::Ask(e))
}

fn call(slot: usize, log: &[RouteReply], at: usize) -> (r: Route<Answer>)
    ensures
        seen(r) == called(slot, log@, at as int),
{
    if at < log.len() {
        if let RouteReply::Answered(answer) = &log[at] {
            return Ok((answer.copied(), at + 1));
        }
    }
    Err(Pause::Ask(RouteEffect::Call { slot }))
}

fn settle(e: RouteEffect, log: &[RouteReply], at: usize) -> (r: Route<()>)
    ensures
        seen(r) == settled(e@, log@, at as int),
{
    if at < log.len() {
        if let RouteReply::Done = &log[at] {
            return Ok(((), at + 1));
        }
    }
    Err(Pause::Ask(e))
}

fn outcome(answer: &Answer) -> (r: Outcome)
    ensures
        r == outcome_of(answer@),
{
    match &answer.result {
        Ok(response) => Outcome::Answered { latency_ms: response.latency_ms },
        Err(ProviderError::RateLimit) => Outcome::RateLimited,
        Err(_) => Outcome::Failed,
    }
}

fn try_in_order(order: &[usize], log: &[RouteReply], at: usize) -> (r: Route<Answer>)
    ensures
        seen(r) == tried_from(
            order@,
            0,
            ProviderErrorView::Unavailable("all providers failed"@),
            log@,
            at as int,
        ),
{
    let mut last = ProviderError::Unavailable("all providers failed".to_owned());
    let ghost first = last@;
    let mut now: usize = at;
    let mut i: usize = 0;
    while i < order.len()
        invariant
            i <= order@.len(),
            first == ProviderErrorView::Unavailable("all providers failed"@),
            tried_from(order@, i as int, last@, log@, now as int) == tried_from(
                order@,
                0,
                first,
                log@,
                at as int,
            ),
        decreases order@.len() - i,
    {
        let (answer, at1) = call(order[i], log, now)?;
        let (_, at2) = settle(
            RouteEffect::Record { slot: order[i], outcome: outcome(&answer) },
            log,
            at1,
        )?;
        let ghost seen_answer = answer@;
        match answer.result {
            Ok(response) => {
                return Ok((Answer { result: Ok(response) }, at2));
            },
            Err(e) => {
                last = e;
            },
        }
        now = at2;
        i += 1;
    }
    Ok((Answer { result: Err(last) }, now))
}

/// A provider, and what is remembered of it.
#[derive(Debug)]
pub struct Slot {
    pub backend: Backend,
    pub metrics: ProviderMetrics,
}

/// The providers that there are.
#[derive(Debug)]
pub struct Registry {
    pub slots: Vec<Slot>,
}

impl Registry {
    /// One attempt at a request: the providers that can take it, from the cheapest on, until
    /// one answers. Work that runs side by side starts at different ones.
    pub fn try_complete(
        req: &InferenceRequest,
        pinned: Option<&str>,
        log: &[RouteReply],
        at: usize,
    ) -> (r: Route<Answer>)
        ensures
            seen(r) == attempted(req@, opt_str(pinned), log@, at as int),
    {
        let (slots, at) = look(log, at)?;
        let able = find_candidates(slots.as_slice(), req, pinned);
        let est_input: u32 = estimate_input(req);
        if able.len() == 0 {
            let tier = match req.tier {
                ModelTier::Heavy => "Heavy",
                ModelTier::Light => "Light",
                ModelTier::Micro => "Micro",
            };
            return Ok(
                (
                    Answer {
                        result: Err(
                            ProviderError::Unavailable(
                                "no provider available for tier ".to_owned().concat(tier).concat(
                                    " with ~",
                                ).concat(decimal_text(est_input as u64).as_str()).concat(
                                    " input tokens",
                                ),
                            ),
                        ),
                    },
                    at,
                ),
            );
        }
        let n: usize = able.len();
        let mut asked: Vec<usize> = Vec::new();
        let mut i: usize = 0;
        while i < n
            invariant
                i <= n == able@.len(),
                asked@ =~= able@.take(i as int),
            decreases n - i,
        {
            asked.push(able[i]);
            i += 1;
        }
        assert(asked@ =~= able@);
        let (keys, at) = ask_keys(
            RouteEffect::Rank {
                slots: asked,
                est_input,
                est_output: estimate_output(req.tier),
                hora_depth: req.hora_depth,
            },
            n,
            log,
            at,
        )?;
        let order = attempt_order(able.as_slice(), keys.as_slice(), req.slot_hint);
        try_in_order(order.as_slice(), log, at)
    }

    /// The answer to a request. When every provider says that it is asked too often, the
    /// request waits and is tried again, a few times.
    pub fn complete(
        req: &InferenceRequest,
        pinned: Option<&str>,
        log: &[RouteReply],
        at: usize,
    ) -> (r: Route<Answer>)
        ensures
            seen(r) == routed_from(0, req@, opt_str(pinned), log@, at as int),
    {
        let mut now: usize = at;
        let mut attempt: u32 = 0;
        while attempt < MAX_GLOBAL_RETRIES
            invariant
                attempt <= MAX_GLOBAL_RETRIES,
                routed_from(attempt as nat, req@, opt_str(pinned), log@, now as int)
                    == routed_from(0, req@, opt_str(pinned), log@, at as int),
            decreases MAX_GLOBAL_RETRIES - attempt,
        {
            let (answer, at1) = Self::try_complete(req, pinned, log, now)?;
            let limited = match &answer.result {
                Err(ProviderError::RateLimit) => true,
                _ => false,
            };
            if !limited {
                return Ok((answer, at1));
            }
            let (_, at2) = settle(RouteEffect::Wait { secs: RETRY_WAIT_SECS }, log, at1)?;
            now = at2;
            attempt += 1;
        }
        Self::try_complete(req, pinned, log, now)
    }
}

/// Whether a provider can write code: it is there, serves a heavy model, takes a long context,
/// and at least half of what it says is right.
pub open spec fn capable(s: SlotState) -> bool {
    &&& s.available
    &&& exists|i: int| 0 <= i < s.tiers@.len() && #[trigger] s.tiers@[i] == ModelTier::Heavy
    &&& s.context_ok
    &&& 2 * s.quality.parts >= s.quality.whole
}

/// How many of some providers can write code.
pub open spec fn capable_count(slots: Seq<SlotState>) -> nat
    decreases slots.len(),
{
    if slots.len() == 0 {
        0
    } else if capable(slots.last()) {
        capable_count(slots.drop_last()) + 1
    } else {
        capable_count(slots.drop_last())
    }
}

fn has_heavy(tiers: &[ModelTier]) -> (r: bool)
    ensures
        r == exists|i: int| 0 <= i < tiers@.len() && #[trigger] tiers@[i] == ModelTier::Heavy,
{
    let mut i: usize = 0;
    while i < tiers.len()
        invariant
            i <= tiers@.len(),
            forall|j: int| 0 <= j < i ==> #[trigger] tiers@[j] != ModelTier::Heavy,
        decreases tiers@.len() - i,
    {
        if let ModelTier::Heavy = tiers[i] {
            assert(tiers@[i as int] == ModelTier::Heavy);
            return true;
        }
        i += 1;
    }
    false
}

/// How many of some providers can write code. It decides how far work is spread.
pub fn capable_heavy_slots(slots: &[SlotState]) -> (r: usize)
    ensures
        r == capable_count(slots@),
{
    let mut count: usize = 0;
    let mut i: usize = 0;
    assert(slots@.take(0) =~= Seq::<SlotState>::empty());
    while i < slots.len()
        invariant
            i <= slots@.len(),
            count <= i,
            count == capable_count(slots@.take(i as int)),
        decreases slots@.len() - i,
    {
        let s = &slots[i];
        assert(slots@.take(i + 1).drop_last() =~= slots@.take(i as int));
        assert(slots@.take(i + 1).last() == slots@[i as int]);
        if s.available && has_heavy(s.tiers.as_slice()) && s.context_ok && s.quality.is_capable() {
            count += 1;
        }
        i += 1;
    }
    assert(slots@.take(i as int) =~= slots@);
    count
}

/// Whether nothing is known of a provider yet.
pub open spec fn fresh(m: ProviderMetrics) -> bool {
    &&& m.latency_samples@.len() == 0
    &&& m.recent_errors@.len() == 0
    &&& m.quality == (Quality { parts: 1, whole: 1 })
    &&& m.context_ok
}

/// The providers that the environment alone speaks of.
pub open spec fn environment_backends(
    family: Seq<char>,
    anthropic_key: Option<Seq<char>>,
    ollama_host: Option<Seq<char>>,
    ollama_models: Seq<Seq<char>>,
) -> Seq<BackendView> {
    let first = match anthropic_key {
        Some(key) => seq![
            anthropic_with(
                family,
                key,
                seq![kin(family, "-opus-4-7"@), kin(family, "-sonnet-4-6"@)],
            ),
        ],
        None => Seq::empty(),
    };
    if ollama_models.len() == 0 {
        first
    } else {
        first.push(
            ollama_with(
                match ollama_host {
                    Some(host) => host,
                    None => "http://localhost:11434"@,
                },
                ollama_models,
            ),
        )
    }
}

/// The providers that keys and arguments add to those that are there.
pub open spec fn further_backends(family: Seq<char>, keys: Keys, args: Args) -> Seq<
    BackendView,
> {
    let a = match opt_view(keys.groq) {
        Some(key) => seq![
            compatible_with(
                "groq"@,
                "https://api.groq.com/openai/v1"@,
                key,
                seq!["llama-3.3-70b-versatile"@, "llama-3.1-8b-instant"@],
            ),
        ],
        None => Seq::empty(),
    };
    let b = match opt_view(keys.openai) {
        Some(key) => a.push(
            compatible_with(
                "openai"@,
                "https://api.openai.com/v1"@,
                key,
                seq!["gpt-4o"@, "gpt-4o-mini"@],
            ),
        ),
        None => a,
    };
    let c = match opt_view(args.lmstudio_host) {
        Some(host) => b.push(
            compatible_with(
                "lmstudio"@,
                bare(host) + "/v1"@,
                Seq::empty(),
                seq![
                    match opt_view(args.lmstudio_model) {
                        Some(model) => model,
                        None => "qwen2.5-coder:32b"@,
                    },
                ],
            ),
        ),
        None => b,
    };
    let d = match opt_view(args.claude_cli_model) {
        Some(model) => c.push(cli_with(family, model)),
        None => c,
    };
    match opt_view(args.gemini_key) {
        Some(key) => d.push(gemini_with(key, seq!["gemini-2.0-flash"@])),
        None => d,
    }
}

impl Registry {
    /// The providers that there are.
    pub open spec fn backends(self) -> Seq<BackendView> {
        self.slots@.map_values(|s: Slot| s.backend@)
    }

    /// Whether what is remembered of every provider is in order.
    pub open spec fn valid(self) -> bool {
        forall|i: int| 0 <= i < self.slots@.len() ==> (#[trigger] self.slots@[i]).metrics.valid()
    }

    /// Whether nothing is known of any provider yet.
    pub open spec fn untried(self) -> bool {
        forall|i: int| 0 <= i < self.slots@.len() ==> fresh((#[trigger] self.slots@[i]).metrics)
    }

    /// A registry without providers.
    pub fn new() -> (r: Registry)
        ensures
            r.backends() == Seq::<BackendView>::empty(),
            r.valid(),
            r.untried(),
    {
        let r = Registry { slots: Vec::new() };
        assert(r.backends() =~= Seq::<BackendView>::empty());
        r
    }

    /// Adds a provider of which nothing is known.
    pub fn push(&mut self, backend: Backend)
        requires
            old(self).valid(),
        ensures
            final(self).valid(),
            final(self).slots@.len() == old(self).slots@.len() + 1,
            final(self).slots@.drop_last() == old(self).slots@,
            final(self).backends() == old(self).backends().push(backend@),
            fresh(final(self).slots@.last().metrics),
            old(self).untried() ==> final(self).untried(),
    {
        self.slots.push(Slot { backend, metrics: ProviderMetrics::new() });
        assert(self.slots@.drop_last() =~= old(self).slots@);
        assert(self.backends() =~= old(self).backends().push(backend@));
        assert forall|i: int| 0 <= i < self.slots@.len() implies (
        #[trigger] self.slots@[i]).metrics.valid() by {
            if i < self.slots@.len() - 1 {
                assert(self.slots@[i] == old(self).slots@[i]);
            }
        }
        assert forall|i: int| old(self).untried() && 0 <= i < self.slots@.len() implies fresh(
            (#[trigger] self.slots@[i]).metrics,
        ) by {
            if i < self.slots@.len() - 1 {
                assert(self.slots@[i] == old(self).slots@[i]);
            }
        }
    }

    /// The configured providers, each with the key that its variable holds.
    pub fn from_config(
        family: &str,
        providers: &[ProviderConfig],
        keys: &[Option<String>],
    ) -> (r: Registry)
        requires
            providers@.len() == keys@.len(),
        ensures
            r.backends() == Seq::new(
                providers@.len(),
                |i: int| configured(family@, providers@[i], opt_view(keys@[i])),
            ),
            r.valid(),
            r.untried(),
    {
        let ghost all = Seq::new(
            providers@.len(),
            |i: int| configured(family@, providers@[i], opt_view(keys@[i])),
        );
        let mut r = Registry::new();
        let mut i: usize = 0;
        assert(all.take(0) =~= r.backends());
        while i < providers.len()
            invariant
                providers@.len() == keys@.len(),
                i <= providers@.len(),
                all == Seq::new(
                    providers@.len(),
                    |i: int| configured(family@, providers@[i], opt_view(keys@[i])),
                ),
                r.backends() == all.take(i as int),
                r.valid(),
                r.untried(),
            decreases providers@.len() - i,
        {
            let key = match &keys[i] {
                Some(key) => Some(key.clone()),
                None => None,
            };
            r.push(providers[i].backend(family, key));
            assert(all.take(i + 1) =~= all.take(i as int).push(all[i as int]));
            i += 1;
        }
        assert(all.take(i as int) =~= all);
        r
    }

    /// The providers that the environment alone speaks of.
    pub fn from_env(
        family: &str,
        anthropic_key: Option<String>,
        ollama_host: Option<String>,
        ollama_models: Vec<String>,
    ) -> (r: Registry)
        ensures
            r.backends() == environment_backends(
                family@,
                opt_view(anthropic_key),
                opt_view(ollama_host),
                texts(ollama_models@),
            ),
            r.valid(),
            r.untried(),
    {
        let mut r = Registry::new();
        if let Some(key) = anthropic_key {
            let models = vec![kin_name(family, "-opus-4-7"), kin_name(family, "-sonnet-4-6")];
            assert(texts(models@) =~= seq![
                kin(family@, "-opus-4-7"@),
                kin(family@, "-sonnet-4-6"@),
            ]);
            r.push(Backend::Anthropic(AnthropicProvider::new(family.to_owned(), key, models)));
            assert(r.backends() =~= environment_backends(
                family@,
                opt_view(anthropic_key),
                None,
                Seq::empty(),
            ));
        }
        assert(texts(ollama_models@).len() == ollama_models@.len());
        if ollama_models.len() > 0 {
            let host = match ollama_host {
                Some(host) => host,
                None => "http://localhost:11434".to_owned(),
            };
            r.push(Backend::Ollama(OllamaProvider::new(host, ollama_models)));
        }
        r
    }

    /// Adds Gemini.
    pub fn add_gemini(&mut self, api_key: String, models: Vec<String>)
        requires
            old(self).valid(),
        ensures
            final(self).valid(),
            final(self).slots@.drop_last() == old(self).slots@,
            final(self).backends() == old(self).backends().push(
                gemini_with(
                    api_key@,
                    if models@.len() == 0 {
                        seq!["gemini-2.0-flash"@]
                    } else {
                        texts(models@)
                    },
                ),
            ),
            fresh(final(self).slots@.last().metrics),
            old(self).untried() ==> final(self).untried(),
    {
        let list = if models.len() == 0 {
            vec!["gemini-2.0-flash".to_owned()]
        } else {
            models
        };
        assert(models@.len() == 0 ==> texts(list@) =~= seq!["gemini-2.0-flash"@]);
        self.push(Backend::Gemini(GeminiProvider::new(api_key, list)));
    }

    /// Adds the command-line program.
    pub fn add_claude_cli(&mut self, family: &str, model: String)
        requires
            old(self).valid(),
        ensures
            final(self).valid(),
            final(self).slots@.drop_last() == old(self).slots@,
            final(self).backends() == old(self).backends().push(cli_with(family@, model@)),
            fresh(final(self).slots@.last().metrics),
            old(self).untried() ==> final(self).untried(),
    {
        self.push(Backend::ClaudeCli(ClaudeCliProvider::new(family.to_owned(), model)));
    }

    /// Adds a service in the way of OpenAI.
    pub fn add_openai_compat(
        &mut self,
        name: String,
        base_url: String,
        api_key: String,
        models: Vec<String>,
    )
        requires
            old(self).valid(),
        ensures
            final(self).valid(),
            final(self).slots@.drop_last() == old(self).slots@,
            final(self).backends() == old(self).backends().push(
                compatible_with(name@, base_url@, api_key@, texts(models@)),
            ),
            fresh(final(self).slots@.last().metrics),
            old(self).untried() ==> final(self).untried(),
    {
        self.push(
            Backend::OpenAiCompat(OpenAiCompatProvider::new(name, base_url, api_key, models)),
        );
    }

    /// Adds what keys and arguments speak of.
    pub fn add_further(&mut self, family: &str, keys: &Keys, args: &Args)
        requires
            old(self).valid(),
        ensures
            final(self).valid(),
            final(self).backends() == old(self).backends() + further_backends(family@, *keys, *args),
            final(self).slots@.take(old(self).slots@.len() as int) == old(self).slots@,
            forall|i: int|
                old(self).slots@.len() <= i < final(self).slots@.len() ==> fresh(
                    (#[trigger] final(self).slots@[i]).metrics,
                ),
            old(self).untried() ==> final(self).untried(),
    {
        let ghost before = self.backends();
        if let Some(key) = &keys.groq {
            let models = vec![
                "llama-3.3-70b-versatile".to_owned(),
                "llama-3.1-8b-instant".to_owned(),
            ];
            assert(texts(models@) =~= seq!["llama-3.3-70b-versatile"@, "llama-3.1-8b-instant"@]);
            self.add_openai_compat(
                "groq".to_owned(),
                "https://api.groq.com/openai/v1".to_owned(),
                key.clone(),
                models,
            );
        }
        if let Some(key) = &keys.openai {
            let models = vec!["gpt-4o".to_owned(), "gpt-4o-mini".to_owned()];
            assert(texts(models@) =~= seq!["gpt-4o"@, "gpt-4o-mini"@]);
            self.add_openai_compat(
                "openai".to_owned(),
                "https://api.openai.com/v1".to_owned(),
                key.clone(),
                models,
            );
        }
        if let Some(host) = &args.lmstudio_host {
            let model = match &args.lmstudio_model {
                Some(model) => model.clone(),
                None => "qwen2.5-coder:32b".to_owned(),
            };
            let ghost name = model@;
            let models = vec![model];
            assert(texts(models@) =~= seq![name]);
            let none = String::new();
            assert(none@ =~= Seq::<char>::empty());
            self.add_openai_compat(
                "lmstudio".to_owned(),
                bare_url(host.as_str()).concat("/v1"),
                none,
                models,
            );
        }
        if let Some(model) = &args.claude_cli_model {
            self.add_claude_cli(family, model.clone());
        }
        if let Some(key) = &args.gemini_key {
            self.add_gemini(key.clone(), Vec::new());
        }
        assert(self.backends() =~= before + further_backends(family@, *keys, *args));
    }

    /// What is known of the provider at `i` when a request comes in, given whether it is there.
    pub fn state(&self, i: usize, available: bool) -> (r: SlotState)
        requires
            i < self.slots@.len(),
        ensures
            ({
                let slot = self.slots@[i as int];
                &&& r.name@ == slot.backend.named()
                &&& r.available == available
                &&& r.context_ok == slot.metrics.context_ok
                &&& r.quality == slot.metrics.quality
                &&& !r.supports_tools
                &&& r.tiers@ == slot.backend.served().map_values(|m: crate::types::ModelInfo| m.tier)
            }),
    {
        let slot = &self.slots[i];
        let models = slot.backend.models();
        let mut tiers: Vec<ModelTier> = Vec::new();
        let mut k: usize = 0;
        while k < models.len()
            invariant
                k <= models@.len(),
                tiers@.len() == k,
                forall|j: int| 0 <= j < k ==> #[trigger] tiers@[j] == models@[j].tier,
            decreases models@.len() - k,
        {
            tiers.push(models[k].tier);
            k += 1;
        }
        assert(tiers@ =~= slot.backend.served().map_values(|m: crate::types::ModelInfo| m.tier));
        SlotState {
            name: slot.backend.name(),
            available,
            context_ok: slot.metrics.context_ok,
            quality: slot.metrics.quality,
            supports_tools: slot.backend.supports_tools(),
            tiers,
        }
    }
}

/// The candidates for a request are exactly the providers that can take it, each once, in their
/// order.
pub proof fn law_candidates_are_the_eligible(
    slots: Seq<SlotState>,
    n: int,
    req: RequestView,
    pinned: Option<Seq<char>>,
)
    requires
        0 <= n <= slots.len() <= usize::MAX,
    ensures
        forall|i: usize|
            candidates_to(slots, n, req, pinned).contains(i) <==> i < n && eligible(
                slots[i as int],
                req,
                pinned,
            ),
        forall|a: int, b: int|
            0 <= a < b < candidates_to(slots, n, req, pinned).len() ==> #[trigger] candidates_to(
                slots,
                n,
                req,
                pinned,
            )[a] < #[trigger] candidates_to(slots, n, req, pinned)[b],
    decreases n,
{
    if n > 0 {
        law_candidates_are_the_eligible(slots, n - 1, req, pinned);
        let rest = candidates_to(slots, n - 1, req, pinned);
        let all = candidates_to(slots, n, req, pinned);
        assert forall|i: usize| all.contains(i) <==> i < n && eligible(
            slots[i as int],
            req,
            pinned,
        ) by {
            if all.contains(i) {
                let k = all.index_of(i);
                if k < rest.len() {
                    assert(rest[k] == i);
                    assert(rest.contains(i));
                }
            }
            if i < n && eligible(slots[i as int], req, pinned) {
                if i < n - 1 {
                    assert(rest.contains(i));
                    let k = rest.index_of(i);
                    assert(all[k] == i);
                } else {
                    assert(all[all.len() - 1] == i);
                }
            }
        }
        assert forall|a: int, b: int| 0 <= a < b < all.len() implies #[trigger] all[a]
            < #[trigger] all[b] by {
            assert(rest.contains(rest[a]));
            if b < rest.len() {
                assert(rest[a] < rest[b]);
            }
        }
    }
}

/// Providers are tried from the lowest key to the highest. Each is tried once, and those of the
/// same key in their order.
pub proof fn law_cheaper_providers_come_first(slots: Seq<usize>, keys: Seq<u64>)
    requires
        slots.len() == keys.len(),
    ensures
        ranked(slots, keys).len() == slots.len(),
        by_key(keyed(slots, keys)).to_multiset() == keyed(slots, keys).to_multiset(),
        forall|i: int, j: int|
            0 <= i < j < slots.len() ==> no_higher()(
                #[trigger] by_key(keyed(slots, keys))[i],
                #[trigger] by_key(keyed(slots, keys))[j],
            ),
        forall|i: int|
            0 <= i < slots.len() ==> #[trigger] ranked(slots, keys)[i] == by_key(
                keyed(slots, keys),
            )[i].1,
{
    lemma_by_key(keyed(slots, keys));
}

/// A hint only turns the order round: the provider that it points at comes first, and all the
/// others follow.
pub proof fn law_hints_spread_work(order: Seq<usize>, hint: usize)
    requires
        order.len() > 0,
    ensures
        rotated(order, Some(hint)).len() == order.len(),
        forall|i: int|
            0 <= i < order.len() ==> #[trigger] rotated(order, Some(hint))[i] == order[(hint
                + i) % order.len() as int],
{
    let n = order.len() as int;
    let k = hint as int % n;
    assert forall|i: int| 0 <= i < n implies #[trigger] rotated(order, Some(hint))[i]
        == order[(hint + i) % n] by {
        vstd::arithmetic::div_mod::lemma_add_mod_noop(hint as int, i, n);
        vstd::arithmetic::div_mod::lemma_small_mod(i as nat, n as nat);
        assert((hint + i) % n == (k + i) % n);
        if i < n - k {
            vstd::arithmetic::div_mod::lemma_small_mod((k + i) as nat, n as nat);
        } else {
            vstd::arithmetic::div_mod::lemma_mod_sub_multiples_vanish(k + i, n);
            vstd::arithmetic::div_mod::lemma_small_mod((k + i - n) as nat, n as nat);
        }
    }
}

/// An answer is that of the first provider in the order that gives one: all before it failed,
/// and none behind it was asked. Where every provider fails, the last failure is given.
pub proof fn law_the_first_answer_counts(
    order: Seq<usize>,
    i: int,
    last: ProviderErrorView,
    log: Seq<RouteReply>,
    at: int,
)
    requires
        0 <= i <= order.len(),
        0 <= at <= log.len(),
    ensures
        tried_from(order, i, last, log, at) matches Ok((answer, end)) ==> {
            &&& at <= end <= log.len()
            &&& (end - at) % 2 == 0
            &&& (end - at) / 2 <= order.len() - i
            &&& answer is Ok ==> at < end && log[end - 2] is Answered && log[end - 2]->Answered_0@
                == answer && forall|k: int|
                0 <= k < (end - at) / 2 - 1 ==> log[at + 2 * k] is Answered && (#[trigger] log[at
                    + 2 * k]->Answered_0@) is Err
            &&& answer is Err ==> end == at + 2 * (order.len() - i) && (forall|k: int|
                0 <= k < order.len() - i ==> log[at + 2 * k] is Answered && (#[trigger] log[at + 2
                    * k]->Answered_0@) is Err) && answer == (if i == order.len() {
                Err(last)
            } else {
                log[end - 2]->Answered_0@
            })
        },
    decreases order.len() - i,
{
    if i < order.len() && tried_from(order, i, last, log, at) is Ok {
        let answer = log[at]->Answered_0@;
        if answer is Err {
            law_the_first_answer_counts(order, i + 1, answer->Err_0, log, at + 2);
            let (result, end) = tried_from(order, i + 1, answer->Err_0, log, at + 2)->Ok_0;
            let count = (end - at) / 2;
            assert forall|k: int| 0 <= k < count && (result is Err || k < count - 1) implies log[at
                + 2 * k] is Answered && (#[trigger] log[at + 2 * k]->Answered_0@) is Err by {
                if k > 0 {
                    let j = k - 1;
                    assert(at + 2 * k == (at + 2) + 2 * j);
                    assert(log[(at + 2) + 2 * j]->Answered_0@ is Err);
                }
            }
        }
    }
}

/// A provider is a candidate for a request if and only if it is there; it was found to take a long
/// context, or what the request says beforehand and asks has fewer than 14000 bytes together; one
/// of its models is of the tier that is asked for or above; it can be offered tools, where there
/// are any; and it is the one that the conversation began with, where it began with one.
pub proof fn law_candidates_have_what_a_request_needs(
    slots: Seq<SlotState>,
    req: RequestView,
    pinned: Option<Seq<char>>,
    i: usize,
)
    requires
        i < slots.len() <= usize::MAX,
        byte_len(req.user) + byte_len(req.system) < 0x1_0000_0000,
    ensures
        candidates(slots, req, pinned).contains(i) <==> {
            &&& slots[i as int].available
            &&& slots[i as int].context_ok || byte_len(req.user) + byte_len(req.system) < 14_000
            &&& exists|k: int|
                0 <= k < slots[i as int].tiers@.len() && match #[trigger] slots[i as int].tiers@[k] {
                    ModelTier::Heavy => true,
                    ModelTier::Light => req.tier != ModelTier::Heavy,
                    ModelTier::Micro => req.tier == ModelTier::Micro,
                }
            &&& req.tools.len() == 0 || slots[i as int].supports_tools
            &&& pinned is None || pinned == Some(slots[i as int].name@)
        },
{
    law_candidates_are_the_eligible(slots, slots.len() as int, req, pinned);
    let s = slots[i as int];
    if exists|k: int| 0 <= k < s.tiers@.len() && rank(req.tier) <= rank(#[trigger] s.tiers@[k]) {
        let k = choose|k: int|
            0 <= k < s.tiers@.len() && rank(req.tier) <= rank(#[trigger] s.tiers@[k]);
        assert(match s.tiers@[k] {
            ModelTier::Heavy => true,
            ModelTier::Light => req.tier != ModelTier::Heavy,
            ModelTier::Micro => req.tier == ModelTier::Micro,
        });
    }
    if exists|k: int|
        0 <= k < s.tiers@.len() && match #[trigger] s.tiers@[k] {
            ModelTier::Heavy => true,
            ModelTier::Light => req.tier != ModelTier::Heavy,
            ModelTier::Micro => req.tier == ModelTier::Micro,
        } {
        let k = choose|k: int|
            0 <= k < s.tiers@.len() && match #[trigger] s.tiers@[k] {
                ModelTier::Heavy => true,
                ModelTier::Light => req.tier != ModelTier::Heavy,
                ModelTier::Micro => req.tier == ModelTier::Micro,
            };
        assert(rank(req.tier) <= rank(s.tiers@[k]));
    }
}

/// The tokens of a request are estimated from all of its text: a fourth of its bytes, whether they
/// are said beforehand or asked, and the same when text is moved from the one to the other.
pub proof fn law_all_text_counts(
    req: RequestView,
    user: Seq<char>,
    moved: Seq<char>,
    system: Seq<char>,
)
    ensures
        byte_len(req.user) + byte_len(req.system) < 0x1_0000_0000 ==> 4 * estimated_input(req)
            <= byte_len(req.user) + byte_len(req.system) < 4 * estimated_input(req) + 4,
        estimated_input(RequestView { user: user + moved, system, ..req }) == estimated_input(
            RequestView { user, system: moved + system, ..req },
        ),
{
    lemma_byte_len_of_parts(user, moved);
    lemma_byte_len_of_parts(moved, system);
}

/// What is asked when `k` providers have failed: the next one in the order, and then that its own
/// answer is remembered, as what it was.
pub proof fn law_providers_are_called_in_order(
    order: Seq<usize>,
    i: int,
    last: ProviderErrorView,
    log: Seq<RouteReply>,
    at: int,
    k: int,
)
    requires
        0 <= i,
        0 <= k < order.len() - i,
        0 <= at,
        at + 2 * k <= log.len() <= at + 2 * k + 1,
        forall|j: int|
            0 <= j < k ==> (#[trigger] log[at + 2 * j]) is Answered && log[at + 2 * j]->Answered_0@
                is Err && log[at + 2 * j + 1] is Done,
        log.len() == at + 2 * k + 1 ==> log[at + 2 * k] is Answered,
    ensures
        log.len() == at + 2 * k ==> tried_from(order, i, last, log, at) == Err::<
            (AnswerView, int),
            PauseView<RouteEffectView>,
        >(PauseView::Ask(RouteEffectView::Call { slot: order[i + k] })),
        log.len() == at + 2 * k + 1 ==> tried_from(order, i, last, log, at) == Err::<
            (AnswerView, int),
            PauseView<RouteEffectView>,
        >(
            PauseView::Ask(
                RouteEffectView::Record {
                    slot: order[i + k],
                    outcome: match log[at + 2 * k]->Answered_0@ {
                        Ok(response) => Outcome::Answered { latency_ms: response.latency_ms },
                        Err(ProviderErrorView::RateLimit) => Outcome::RateLimited,
                        Err(_) => Outcome::Failed,
                    },
                },
            ),
        ),
    decreases k,
{
    if k > 0 {
        assert(log[at + 2 * 0] is Answered);
        let e = log[at]->Answered_0@->Err_0;
        assert forall|j: int| 0 <= j < k - 1 implies (#[trigger] log[at + 2 + 2 * j]) is Answered
            && log[at + 2 + 2 * j]->Answered_0@ is Err && log[at + 2 + 2 * j + 1] is Done by {
            let m = j + 1;
            assert(at + 2 * m == at + 2 + 2 * j);
            assert(log[at + 2 * m] is Answered);
        }
        law_providers_are_called_in_order(order, i + 1, e, log, at + 2, k - 1);
    }
}

/// An attempt first looks at all providers. Where some can take the request it has them ranked, by
/// what the request and its answer are estimated at, and then calls the one with the lowest key,
/// unless there is a hint. Where none can, nobody is called.
pub proof fn law_the_cheapest_candidate_is_called_first(
    req: RequestView,
    pinned: Option<Seq<char>>,
    log: Seq<RouteReply>,
    at: int,
)
    requires
        0 <= at <= log.len(),
    ensures
        log.len() == at ==> attempted(req, pinned, log, at) == Err::<
            (AnswerView, int),
            PauseView<RouteEffectView>,
        >(PauseView::Ask(RouteEffectView::Survey)),
        log.len() == at + 1 && log[at] is Slots ==> {
            let able = candidates(log[at]->Slots_0@, req, pinned);
            if able.len() == 0 {
                attempted(req, pinned, log, at) matches Ok((Err(ProviderErrorView::Unavailable(_)), _))
            } else {
                attempted(req, pinned, log, at) == Err::<
                    (AnswerView, int),
                    PauseView<RouteEffectView>,
                >(
                    PauseView::Ask(
                        RouteEffectView::Rank {
                            slots: able,
                            est_input: estimated_input(req),
                            est_output: match req.tier {
                                ModelTier::Micro => 256,
                                ModelTier::Light => 1024,
                                ModelTier::Heavy => 8000,
                            },
                            hora_depth: req.hora_depth,
                        },
                    ),
                )
            }
        },
        log.len() == at + 2 && log[at] is Slots && log[at + 1] is Keys && req.slot_hint is None ==> {
            let able = candidates(log[at]->Slots_0@, req, pinned);
            let keys = log[at + 1]->Keys_0@;
            able.len() > 0 && keys.len() == able.len() ==> exists|j: int|
                {
                    &&& 0 <= j < able.len()
                    &&& attempted(req, pinned, log, at) == Err::<
                        (AnswerView, int),
                        PauseView<RouteEffectView>,
                    >(PauseView::Ask(RouteEffectView::Call { slot: #[trigger] able[j] }))
                    &&& forall|m: int| 0 <= m < keys.len() ==> keys[j] <= #[trigger] keys[m]
                }
        },
{
    if log.len() == at + 2 && log[at] is Slots && log[at + 1] is Keys && req.slot_hint is None {
        let able = candidates(log[at]->Slots_0@, req, pinned);
        let keys = log[at + 1]->Keys_0@;
        if able.len() > 0 && keys.len() == able.len() {
            broadcast use vstd::seq_lib::group_to_multiset_ensures;

            let pairs = keyed(able, keys);
            let out = by_key(pairs);
            lemma_by_key(pairs);
            assert(out.contains(out[0]));
            assert(out.to_multiset().count(out[0]) > 0);
            assert(pairs.contains(out[0]));
            let j = choose|j: int| 0 <= j < pairs.len() && pairs[j] == out[0];
            assert(able[j] == ranked(able, keys)[0]);
            assert forall|m: int| 0 <= m < keys.len() implies keys[j] <= #[trigger] keys[m] by {
                assert(pairs.contains(pairs[m]));
                assert(pairs.to_multiset().count(pairs[m]) > 0);
                assert(out.contains(pairs[m]));
                let n = choose|n: int| 0 <= n < out.len() && out[n] == pairs[m];
                if n > 0 {
                    assert(no_higher()(out[0], out[n]));
                }
            }
        }
    }
}

/// A request that every provider refuses for its rate is tried again after 65 seconds, four times
/// at most; any other outcome of an attempt is that of the request.
pub proof fn law_only_limits_are_waited_for(
    attempt: nat,
    req: RequestView,
    pinned: Option<Seq<char>>,
    log: Seq<RouteReply>,
    at: int,
)
    ensures
        attempted(req, pinned, log, at) matches Ok((answer, end)) ==> {
            let limited = answer matches Err(e) && e == ProviderErrorView::RateLimit;
            &&& !limited || attempt >= 4 ==> routed_from(attempt, req, pinned, log, at) == Ok::<
                (AnswerView, int),
                PauseView<RouteEffectView>,
            >((answer, end))
            &&& limited && attempt < 4 && end == log.len() ==> routed_from(
                attempt,
                req,
                pinned,
                log,
                at,
            ) == Err::<(AnswerView, int), PauseView<RouteEffectView>>(
                PauseView::Ask(RouteEffectView::Wait { secs: 65 }),
            )
            &&& limited && attempt < 4 && 0 <= end < log.len() && log[end] is Done ==> routed_from(
                attempt,
                req,
                pinned,
                log,
                at,
            ) == routed_from(attempt + 1, req, pinned, log, end + 1)
        },
{
}

} // verus!
