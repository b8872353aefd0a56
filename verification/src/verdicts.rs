//! What a critic's answer comes to.

use crate::glyphs::{ascii_upper, to_uppercase, uppercase};
use crate::text::{starts_with, trim_start, trimmed_start};
use vstd::prelude::*;
use vstd::utf8::is_ascii_chars;

verus! {

/// Whether a review opens with `word`, which is in upper case; the case of the review and the
/// white space before it do not matter.
pub open spec fn opens_with(review: Seq<char>, word: Seq<char>) -> bool {
    word.is_prefix_of(uppercase(trimmed_start(review)))
}

/// Whether a review opens with `word`.
pub fn verdict(review: &str, word: &str) -> (r: bool)
    ensures
        r == opens_with(review@, word@),
        is_ascii_chars(trimmed_start(review@)) ==> r == word@.is_prefix_of(
            trimmed_start(review@).map_values(|c: char| ascii_upper(c)),
        ),
{
    starts_with(to_uppercase(trim_start(review).as_str()).as_str(), word)
}

} // verus!
