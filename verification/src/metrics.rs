//! What is remembered of a provider: how fast, how reliable and how good it has been.

use crate::ranking::{in_order, lemma_in_order, sort_numbers};
use vstd::prelude::*;

verus! {

/// How many samples are remembered.
pub const WINDOW: usize = 20;

/// The latency that is assumed of a provider that has not been asked yet.
pub const DEFAULT_LATENCY_MS: u64 = 2000;

/// How good a provider's answers are: `parts` of `whole`.
#[derive(Debug, Clone, Copy, PartialEq, Eq, Structural)]
pub struct Quality {
    pub parts: u32,
    pub whole: u32,
}

impl Quality {
    /// Whether this is a fraction between nothing and all.
    pub open spec fn valid(self) -> bool {
        self.parts <= self.whole && self.whole > 0
    }

    /// Whether this is a half at least.
    pub fn is_capable(&self) -> (r: bool)
        ensures
            r == (2 * self.parts >= self.whole),
    {
        2 * (self.parts as u64) >= self.whole as u64
    }
}

/// Whether a call failed, and when it was made, in milliseconds of some clock.
#[derive(Debug, Clone, Copy, PartialEq, Eq, Structural)]
pub struct ErrorSample {
    pub is_error: bool,
    pub at_ms: u64,
}

/// What is remembered of a provider.
#[derive(Debug)]
pub struct ProviderMetrics {
    pub latency_samples: Vec<u64>,
    pub recent_errors: Vec<ErrorSample>,
    pub quality: Quality,
    /// Whether the provider was seen to take a long context.
    pub context_ok: bool,
}

/// The last `WINDOW` of some samples.
pub open spec fn latest<T>(samples: Seq<T>) -> Seq<T> {
    if samples.len() > WINDOW {
        samples.skip(samples.len() - WINDOW)
    } else {
        samples
    }
}

/// The median of some numbers, the upper one where there are two in the middle.
pub open spec fn median(samples: Seq<u64>) -> u64 {
    in_order(samples)[(samples.len() / 2) as int]
}

/// The median of some latencies, or the one that is assumed where there are none.
pub open spec fn median_latency(samples: Seq<u64>) -> u64 {
    if samples.len() == 0 {
        DEFAULT_LATENCY_MS
    } else {
        median(samples)
    }
}

/// The median of some latencies, or the one that is assumed where there are none.
pub fn latency_median(samples: &[u64]) -> (r: u64)
    ensures
        r == median_latency(samples@),
{
    if samples.len() == 0 {
        return DEFAULT_LATENCY_MS;
    }
    proof {
        lemma_in_order(samples@);
    }
    let sorted = sort_numbers(samples);
    sorted[sorted.len() / 2]
}

impl ProviderMetrics {
    /// Whether no more samples are kept than there is room for.
    pub open spec fn valid(self) -> bool {
        &&& self.latency_samples@.len() <= WINDOW
        &&& self.recent_errors@.len() <= WINDOW
        &&& self.quality.valid()
    }

    /// A provider of which nothing is known is taken for a good one.
    pub fn new() -> (r: ProviderMetrics)
        ensures
            r.latency_samples@ == Seq::<u64>::empty(),
            r.recent_errors@ == Seq::<ErrorSample>::empty(),
            r.quality == (Quality { parts: 1, whole: 1 }),
            r.context_ok,
            r.valid(),
    {
        ProviderMetrics {
            latency_samples: Vec::new(),
            recent_errors: Vec::new(),
            quality: Quality { parts: 1, whole: 1 },
            context_ok: true,
        }
    }

    /// The latency to expect.
    pub fn latency_p50_ms(&self) -> (r: u64)
        ensures
            r == median_latency(self.latency_samples@),
    {
        latency_median(self.latency_samples.as_slice())
    }

    /// Remembers how long a call took.
    pub fn record_latency(&mut self, ms: u64)
        requires
            old(self).valid(),
        ensures
            final(self).valid(),
            final(self).latency_samples@ == latest(old(self).latency_samples@.push(ms)),
            final(self).recent_errors@ == old(self).recent_errors@,
            final(self).quality == old(self).quality,
            final(self).context_ok == old(self).context_ok,
    {
        self.latency_samples.push(ms);
        if self.latency_samples.len() > WINDOW {
            self.latency_samples.remove(0);
        }
        assert(self.latency_samples@ =~= latest(old(self).latency_samples@.push(ms)));
    }

    /// Remembers whether a call failed.
    pub fn push_error_sample(&mut self, is_error: bool, at_ms: u64)
        requires
            old(self).valid(),
        ensures
            final(self).valid(),
            final(self).recent_errors@ == latest(
                old(self).recent_errors@.push(ErrorSample { is_error, at_ms }),
            ),
            final(self).latency_samples@ == old(self).latency_samples@,
            final(self).quality == old(self).quality,
            final(self).context_ok == old(self).context_ok,
    {
        let sample = ErrorSample { is_error, at_ms };
        self.recent_errors.push(sample);
        if self.recent_errors.len() > WINDOW {
            self.recent_errors.remove(0);
        }
        assert(self.recent_errors@ =~= latest(old(self).recent_errors@.push(sample)));
    }

    /// Takes over what a qualification came to. One that was cut short by a limit says nothing
    /// of the provider.
    pub fn qualify(&mut self, outcome: &QqOutcome)
        requires
            old(self).valid(),
            outcome.quality.valid(),
        ensures
            final(self).valid(),
            final(self).recent_errors@ == old(self).recent_errors@,
            if outcome.rate_limited {
                &&& final(self).latency_samples@ == old(self).latency_samples@
                &&& final(self).quality == old(self).quality
                &&& final(self).context_ok == old(self).context_ok
            } else {
                &&& final(self).latency_samples@ == latest(
                    old(self).latency_samples@.push(outcome.latency_p50_ms),
                )
                &&& final(self).quality == outcome.quality
                &&& final(self).context_ok == outcome.context_ok
            },
    {
        if !outcome.rate_limited {
            self.record_latency(outcome.latency_p50_ms);
            self.context_ok = outcome.context_ok;
            self.quality = outcome.quality;
        }
    }
}

/// What a qualification of a provider came to.
#[derive(Debug, PartialEq)]
pub struct QqOutcome {
    pub context_ok: bool,
    pub quality: Quality,
    pub latency_p50_ms: u64,
    /// Whether a limit kept the provider from answering.
    pub rate_limited: bool,
}

/// However many samples are recorded, what is kept is the last `WINDOW` of them.
pub proof fn law_windows_hold_the_latest<T>(kept: Seq<T>, all: Seq<T>, next: T)
    requires
        kept == latest(all),
    ensures
        latest(kept.push(next)) == latest(all.push(next)),
{
    assert(latest(kept.push(next)) =~= latest(all.push(next)));
}

/// Half of the numbers at most stand below the median, and half at most above.
pub proof fn law_the_median_stands_in_the_middle(samples: Seq<u64>)
    requires
        samples.len() > 0,
    ensures
        samples.contains(median(samples)),
        forall|i: int|
            0 <= i <= samples.len() / 2 ==> #[trigger] in_order(samples)[i] <= median(samples),
        forall|i: int|
            samples.len() / 2 <= i < samples.len() ==> median(samples) <= #[trigger] in_order(
                samples,
            )[i],
{
    broadcast use vstd::seq_lib::group_to_multiset_ensures;

    lemma_in_order(samples);
    let out = in_order(samples);
    let m = median(samples);
    assert(out.contains(m));
    assert(out.to_multiset().count(m) > 0);
    assert(samples.to_multiset().count(m) > 0);
}

} // verus!
