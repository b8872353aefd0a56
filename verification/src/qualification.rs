//! Qualification queries: what a provider is asked at the start, to see how much context it
//! takes and how good its answers are.

use crate::backends::{Answer, AnswerView};
use crate::copied::Copied;
use crate::glyphs::{lowercase, to_lowercase, to_uppercase, uppercase};
use crate::metrics::{latency_median, median_latency, QqOutcome, Quality, DEFAULT_LATENCY_MS};
use crate::numbers::{decimal, decimal_text, lemma_decimal_digits};
use crate::steps::{seen, Pause, PauseView, Step, StepView};
use crate::text::{chars_of, contains, has, lines, lines_of, starts_with, trim, trimmed};
use crate::types::{
    InferenceRequest, ModelTier, ProviderError, ProviderErrorView, RequestView, ResponseView,
};
use vstd::prelude::*;
use vstd::string::StringExecFns;

verus! {

/// How many characters the list of the context probe has at least: more than 4096 tokens.
pub const TARGET_CHARS: usize = 16_800;

pub const LIST_OPENING: &'static str = "The following is a list of numbers: ";

pub const LAST_NUMBER: &'static str =
    "\n\nWhat is the last number in the list above? Respond with only that number.";

pub const WEEK_DAYS: &'static str = "List the days of the week, one per line. No other text.";

pub const FIND_BUG: &'static str =
    "Review this Rust function for correctness:\nfn add(a: i32, b: i32) -> i32 { a - b }\nRespond with exactly CORRECT or INCORRECT on the first line.";

pub const WRITE_STORE: &'static str =
    "Given: trait Store { fn get(&self, key: &str) -> Option<String>; }\nWrite a HashMap-backed Rust implementation. Code only, no prose.";

/// A question to a provider, which is answered or not.
pub type Probe<T> = Step<T, InferenceRequest>;

/// A question to a provider, by its contents.
pub type ProbeView<V> = StepView<V, RequestView>;

/// The answer to a request.
pub open spec fn answer_to(req: RequestView, log: Seq<Answer>, at: int) -> ProbeView<AnswerView> {
    if 0 <= at < log.len() {
        Ok((log[at]@, at + 1))
    } else {
        Err(PauseView::Ask(req))
    }
}

fn ask(req: InferenceRequest, log: &[Answer], at: usize) -> (r: Probe<Answer>)
    ensures
        seen(r) == answer_to(req@, log@, at as int),
{
    if at < log.len() {
        return Ok((log[at].copied(), at + 1));
    }
    Err(Pause::Ask(req))
}

/// A list that goes on behind number `n`, until it is long enough, and its last number.
pub open spec fn list_from(s: Seq<char>, n: nat) -> (Seq<char>, nat)
    decreases TARGET_CHARS + 2 - s.len(),
{
    if s.len() >= TARGET_CHARS {
        (s, n)
    } else {
        proof {
            lemma_decimal_digits(n + 1);
            reveal_strlit(", ");
        }
        let longer = s + decimal(n + 1);
        if longer.len() < TARGET_CHARS {
            list_from(longer + ", "@, n + 1)
        } else {
            (longer, n + 1)
        }
    }
}

/// The list of the context probe, and its last number.
pub open spec fn long_list() -> (Seq<char>, nat) {
    list_from(LIST_OPENING@, 0)
}

/// A question without anything told beforehand.
pub open spec fn plain_question(user: Seq<char>, max_tokens: u32, tier: ModelTier) -> RequestView {
    RequestView {
        system: Seq::empty(),
        user,
        max_tokens,
        tier,
        hora_depth: 0,
        slot_hint: None,
        tools: Seq::empty(),
        history: Seq::empty(),
    }
}

/// Whether an answer names the last number of the list.
pub open spec fn saw_the_end(answer: AnswerView) -> bool {
    match answer {
        Ok(response) => has(trimmed(response.text), decimal(long_list().1)),
        Err(_) => false,
    }
}

/// One for a day that is named.
pub open spec fn named(lower: Seq<char>, day: Seq<char>) -> nat {
    if has(lower, day) {
        1
    } else {
        0
    }
}

/// How many days of the week are named.
pub open spec fn days_named(lower: Seq<char>) -> nat {
    named(lower, "monday"@) + named(lower, "tuesday"@) + named(lower, "wednesday"@) + named(
        lower,
        "thursday"@,
    ) + named(lower, "friday"@) + named(lower, "saturday"@) + named(lower, "sunday"@)
}

/// The first line of an answer, in upper case.
pub open spec fn first_line(said: Seq<char>) -> Seq<char> {
    let all = lines_of(trimmed(said));
    uppercase(
        if all.len() > 0 {
            all[0]
        } else {
            Seq::empty()
        },
    )
}

/// What an answer about the days of the week is worth, in parts of 42.
pub open spec fn days_points(said: Seq<char>) -> nat {
    6 * days_named(lowercase(said))
}

/// What a verdict on the faulty function is worth, in parts of 42: nothing for the wrong one,
/// half for none.
pub open spec fn verdict_points(said: Seq<char>) -> nat {
    if "INCORRECT"@.is_prefix_of(first_line(said)) {
        42
    } else if "CORRECT"@.is_prefix_of(first_line(said)) {
        0
    } else {
        21
    }
}

/// What the code that was asked for is worth, in parts of 42.
pub open spec fn code_points(said: Seq<char>) -> nat {
    14 * (named(said, "impl Store"@) + named(said, "HashMap"@) + named(said, "fn get"@))
}

/// What the answers to the three questions are worth together, how many there are, and how long
/// they took.
pub open spec fn grades(days: AnswerView, verdict: AnswerView, code: AnswerView) -> (
    nat,
    nat,
    Seq<u64>,
) {
    let a = match days {
        Ok(r) => (days_points(r.text), 1nat, seq![r.latency_ms]),
        Err(_) => (0nat, 0nat, Seq::<u64>::empty()),
    };
    let b = match verdict {
        Ok(r) => (a.0 + verdict_points(r.text), a.1 + 1, a.2.push(r.latency_ms)),
        Err(_) => a,
    };
    match code {
        Ok(r) => (b.0 + code_points(r.text), b.1 + 1, b.2.push(r.latency_ms)),
        Err(_) => b,
    }
}

/// The mean of what the answers are worth. A provider that answers nothing is worth nothing.
pub open spec fn mean_quality(points: nat, count: nat) -> Quality {
    if count == 0 {
        Quality { parts: 0, whole: 1 }
    } else {
        Quality { parts: points as u32, whole: (42 * count) as u32 }
    }
}

/// Whether a provider says that it is asked too often.
pub open spec fn is_limited(answer: AnswerView) -> bool {
    answer == Err::<ResponseView, ProviderErrorView>(ProviderErrorView::RateLimit)
}

/// What a qualification comes to that met a limit: all is as if nothing had been asked.
pub open spec fn limited_outcome() -> QqOutcome {
    QqOutcome {
        context_ok: true,
        quality: Quality { parts: 1, whole: 1 },
        latency_p50_ms: DEFAULT_LATENCY_MS,
        rate_limited: true,
    }
}

/// What a qualification comes to. One that meets a limit does not count.
pub open spec fn probed(log: Seq<Answer>, at: int) -> ProbeView<QqOutcome> {
    match answer_to(
        plain_question(long_list().0 + LAST_NUMBER@, 16, ModelTier::Light),
        log,
        at,
    ) {
        Err(p) => Err(p),
        Ok((context, at)) => if is_limited(context) {
            Ok((limited_outcome(), at))
        } else {
            match answer_to(plain_question(WEEK_DAYS@, 64, ModelTier::Micro), log, at) {
                Err(p) => Err(p),
                Ok((days, at)) => match answer_to(
                    plain_question(FIND_BUG@, 64, ModelTier::Light),
                    log,
                    at,
                ) {
                    Err(p) => Err(p),
                    Ok((verdict, at)) => match answer_to(
                        plain_question(WRITE_STORE@, 300, ModelTier::Heavy),
                        log,
                        at,
                    ) {
                        Err(p) => Err(p),
                        Ok((code, at)) => if is_limited(days) || is_limited(verdict) || is_limited(
                            code,
                        ) {
                            Ok((limited_outcome(), at))
                        } else {
                            let (points, count, latencies) = grades(days, verdict, code);
                            Ok(
                                (
                                    QqOutcome {
                                        context_ok: saw_the_end(context),
                                        quality: mean_quality(points, count),
                                        latency_p50_ms: median_latency(latencies),
                                        rate_limited: false,
                                    },
                                    at,
                                ),
                            )
                        },
                    },
                },
            }
        },
    }
}

impl View for QqOutcome {
    type V = QqOutcome;

    open spec fn view(&self) -> QqOutcome {
        *self
    }
}

fn plain(user: String, max_tokens: u32, tier: ModelTier) -> (r: InferenceRequest)
    ensures
        r@ == plain_question(user@, max_tokens, tier),
{
    let nothing = String::new();
    assert(nothing@ =~= Seq::<char>::empty());
    InferenceRequest::new(nothing, user, max_tokens, tier, 0)
}

fn make_list() -> (r: (String, u64))
    ensures
        r.0@ == long_list().0,
        r.1 == long_list().1,
{
    let mut s = LIST_OPENING.to_owned();
    let mut len: usize = chars_of(LIST_OPENING).len();
    let mut n: u64 = 0;
    while len < TARGET_CHARS
        invariant
            len == s@.len(),
            n <= len,
            list_from(s@, n as nat) == long_list(),
        decreases TARGET_CHARS + 2 - len,
    {
        proof {
            lemma_decimal_digits(n as nat + 1);
            reveal_strlit(", ");
        }
        n += 1;
        let next = decimal_text(n);
        let size: usize = chars_of(next.as_str()).len();
        s.append(next.as_str());
        if size < TARGET_CHARS - len {
            s.append(", ");
            len = len + size + 2;
        } else {
            return (s, n);
        }
    }
    (s, n)
}

fn one_if(b: bool) -> (r: u32)
    ensures
        r == (if b { 1int } else { 0int }),
{
    if b {
        1
    } else {
        0
    }
}

fn grade_days(said: &str) -> (r: u32)
    ensures
        r == days_points(said@),
        r <= 42,
{
    let lower = to_lowercase(said);
    let s = lower.as_str();
    6 * (one_if(contains(s, "monday")) + one_if(contains(s, "tuesday")) + one_if(
        contains(s, "wednesday"),
    ) + one_if(contains(s, "thursday")) + one_if(contains(s, "friday")) + one_if(
        contains(s, "saturday"),
    ) + one_if(contains(s, "sunday")))
}

fn grade_verdict(said: &str) -> (r: u32)
    ensures
        r == verdict_points(said@),
        r <= 42,
{
    let all = lines(trim(said).as_str());
    let ghost views = lines_of(trimmed(said@));
    let first = if all.len() > 0 {
        assert(views[0] == all@[0]@);
        all[0].clone()
    } else {
        let none = String::new();
        assert(none@ =~= Seq::<char>::empty());
        none
    };
    let upper = to_uppercase(first.as_str());
    if starts_with(upper.as_str(), "INCORRECT") {
        42
    } else if starts_with(upper.as_str(), "CORRECT") {
        0
    } else {
        21
    }
}

fn grade_code(said: &str) -> (r: u32)
    ensures
        r == code_points(said@),
        r <= 42,
{
    14 * (one_if(contains(said, "impl Store")) + one_if(contains(said, "HashMap")) + one_if(
        contains(said, "fn get"),
    ))
}

fn grade(days: &Answer, verdict: &Answer, code: &Answer) -> (r: (u32, u32, Vec<u64>))
    ensures
        (r.0 as nat, r.1 as nat, r.2@) == grades(days@, verdict@, code@),
        r.0 <= 42 * r.1,
        r.1 <= 3,
{
    let mut points: u32 = 0;
    let mut count: u32 = 0;
    let mut latencies: Vec<u64> = Vec::new();
    if let Ok(response) = &days.result {
        points = grade_days(response.text.as_str());
        count = 1;
        latencies.push(response.latency_ms);
        assert(latencies@ =~= seq![response.latency_ms]);
    }
    if let Ok(response) = &verdict.result {
        points += grade_verdict(response.text.as_str());
        count += 1;
        latencies.push(response.latency_ms);
    }
    if let Ok(response) = &code.result {
        points += grade_code(response.text.as_str());
        count += 1;
        latencies.push(response.latency_ms);
    }
    (points, count, latencies)
}

fn limited(answer: &Answer) -> (r: bool)
    ensures
        r == is_limited(answer@),
{
    match &answer.result {
        Err(ProviderError::RateLimit) => true,
        _ => false,
    }
}

fn no_outcome() -> (r: QqOutcome)
    ensures
        r == limited_outcome(),
{
    QqOutcome {
        context_ok: true,
        quality: Quality { parts: 1, whole: 1 },
        latency_p50_ms: DEFAULT_LATENCY_MS,
        rate_limited: true,
    }
}

/// Asks a provider for a number far down a long list and then three questions of growing
/// weight. A provider that says it is asked too often is left as it was.
pub fn probe(log: &[Answer], at: usize) -> (r: Probe<QqOutcome>)
    ensures
        seen(r) == probed(log@, at as int),
        r matches Ok((outcome, _)) ==> outcome.quality.valid(),
{
    let (long, last) = make_list();
    let (context, at) = ask(plain(long.concat(LAST_NUMBER), 16, ModelTier::Light), log, at)?;
    if limited(&context) {
        return Ok((no_outcome(), at));
    }
    let mut context_ok = false;
    if let Ok(response) = &context.result {
        context_ok = contains(trim(response.text.as_str()).as_str(), decimal_text(last).as_str());
    }
    let (days, at) = ask(plain(WEEK_DAYS.to_owned(), 64, ModelTier::Micro), log, at)?;
    let (verdict, at) = ask(plain(FIND_BUG.to_owned(), 64, ModelTier::Light), log, at)?;
    let (code, at) = ask(plain(WRITE_STORE.to_owned(), 300, ModelTier::Heavy), log, at)?;
    if limited(&days) || limited(&verdict) || limited(&code) {
        return Ok((no_outcome(), at));
    }
    let (points, count, latencies) = grade(&days, &verdict, &code);
    let quality = if count == 0 {
        Quality { parts: 0, whole: 1 }
    } else {
        Quality { parts: points, whole: 42 * count }
    };
    Ok(
        (
            QqOutcome {
                context_ok,
                quality,
                latency_p50_ms: latency_median(latencies.as_slice()),
                rate_limited: false,
            },
            at,
        ),
    )
}

/// A qualification that meets a limit, at whichever question, says so and changes nothing. A
/// provider is asked one question if it meets the limit there, and four otherwise.
pub proof fn law_a_limit_voids_the_qualification(log: Seq<Answer>, at: int)
    requires
        0 <= at <= log.len() - 4,
    ensures
        probed(log, at) is Ok,
        probed(log, at)->Ok_0.0.rate_limited <==> exists|i: int|
            at <= i < at + 4 && is_limited(#[trigger] log[i]@),
        probed(log, at)->Ok_0.0.rate_limited ==> probed(log, at)->Ok_0.0 == limited_outcome(),
        probed(log, at)->Ok_0.1 == (if is_limited(log[at]@) {
            at + 1
        } else {
            at + 4
        }),
{
    if probed(log, at)->Ok_0.0.rate_limited {
        assert(is_limited(log[at]@) || is_limited(log[at + 1]@) || is_limited(log[at + 2]@)
            || is_limited(log[at + 3]@));
    }
    assert forall|i: int| at <= i < at + 4 && is_limited(#[trigger] log[i]@) implies probed(
        log,
        at,
    )->Ok_0.0.rate_limited by {
        assert(i == at || i == at + 1 || i == at + 2 || i == at + 3);
    }
}

} // verus!
