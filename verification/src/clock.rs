//! Times as text.

use crate::text::opt;
use vstd::prelude::*;

verus! {

/// A time: whole seconds since the start of 1970, and nanoseconds on top of them.
#[derive(Debug, Clone, Copy, PartialEq, Eq, Structural)]
pub struct Moment {
    pub secs: i64,
    pub nanos: u32,
}

impl View for Moment {
    type V = Moment;

    open spec fn view(&self) -> Moment {
        *self
    }
}

/// The whole seconds from one time to a later one; none to an earlier one.
pub open spec fn seconds_between(from: Moment, to: Moment) -> nat {
    let d = to.secs - from.secs - (if to.nanos < from.nanos {
        1int
    } else {
        0int
    });
    if d > 0 {
        d as nat
    } else {
        0
    }
}

/// The whole seconds from one time to a later one.
pub fn seconds(from: Moment, to: Moment) -> (r: u64)
    ensures
        r == seconds_between(from, to),
{
    let short: i128 = if to.nanos < from.nanos {
        1
    } else {
        0
    };
    let d: i128 = to.secs as i128 - from.secs as i128 - short;
    if d > 0 {
        d as u64
    } else {
        0
    }
}

pub const DATE_AND_TIME: &'static str = "%Y-%m-%dT%H:%M:%SZ";

pub const TIME_OF_DAY: &'static str = "%H:%M:%S";

/// The time that many seconds after the start of 1970, as `pattern` writes it; none where no
/// date is that far away.
pub uninterp spec fn stamped(secs: i64, pattern: Seq<char>) -> Option<Seq<char>>;

/// `chrono::DateTime::from_timestamp` and `format`: a function of the seconds and the pattern
/// alone, for a pattern that `format` can write.
#[verifier::external_body]
fn format_time(secs: i64, pattern: &str) -> (r: Option<String>)
    requires
        pattern@ == DATE_AND_TIME@ || pattern@ == TIME_OF_DAY@,
    ensures
        opt(r) == stamped(secs, pattern@),
{
    chrono::DateTime::from_timestamp(secs, 0).map(
        |t: chrono::DateTime<chrono::Utc>| t.format(pattern).to_string(),
    )
}

/// A time as `pattern` writes it; nothing where no date is that far away.
pub open spec fn written(secs: i64, pattern: Seq<char>) -> Seq<char> {
    match stamped(secs, pattern) {
        Some(t) => t,
        None => Seq::empty(),
    }
}

/// A time as `pattern` writes it.
pub fn write_time(secs: i64, pattern: &str) -> (r: String)
    requires
        pattern@ == DATE_AND_TIME@ || pattern@ == TIME_OF_DAY@,
    ensures
        r@ == written(secs, pattern@),
{
    match format_time(secs, pattern) {
        Some(t) => t,
        None => {
            let none = String::new();
            assert(none@ =~= Seq::<char>::empty());
            none
        },
    }
}

} // verus!
