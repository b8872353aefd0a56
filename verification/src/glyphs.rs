//! What the standard library alone knows about characters: letter case and escapes.

use vstd::prelude::*;
use vstd::utf8::is_ascii_chars;

verus! {

/// The Unicode upper case of a text.
pub uninterp spec fn uppercase(s: Seq<char>) -> Seq<char>;

/// The Unicode lower case of a text.
pub uninterp spec fn lowercase(s: Seq<char>) -> Seq<char>;

/// A text in double quotes, with escapes, as the `Debug` format writes it.
pub uninterp spec fn quoted(s: Seq<char>) -> Seq<char>;

/// Whether a character is alphabetic or numeric by Unicode.
pub uninterp spec fn is_alphanumeric(c: char) -> bool;

/// The upper case of an ASCII character; any other character as it is.
pub open spec fn ascii_upper(c: char) -> char {
    if 97 <= c as int <= 122 {
        (c as int - 32) as char
    } else {
        c
    }
}

/// The lower case of an ASCII character; any other character as it is.
pub open spec fn ascii_lower(c: char) -> char {
    if 65 <= c as int <= 90 {
        (c as int + 32) as char
    } else {
        c
    }
}

/// Whether `c` is an ASCII letter or digit.
pub open spec fn is_ascii_alphanumeric(c: char) -> bool {
    48 <= c as int <= 57 || 65 <= c as int <= 90 || 97 <= c as int <= 122
}

/// `str::to_uppercase`: a function of the text alone, which on ASCII text raises each of the
/// letters `a` to `z` and keeps every other character.
#[verifier::external_body]
pub(crate) fn to_uppercase(s: &str) -> (r: String)
    ensures
        r@ == uppercase(s@),
        is_ascii_chars(s@) ==> r@ == s@.map_values(|c: char| ascii_upper(c)),
{
    s.to_uppercase()
}

/// `str::to_lowercase`: a function of the text alone, which on ASCII text lowers each of the
/// letters `A` to `Z` and keeps every other character.
#[verifier::external_body]
pub(crate) fn to_lowercase(s: &str) -> (r: String)
    ensures
        r@ == lowercase(s@),
        is_ascii_chars(s@) ==> r@ == s@.map_values(|c: char| ascii_lower(c)),
{
    s.to_lowercase()
}

/// The `Debug` format of `str`: a function of the text alone.
#[verifier::external_body]
pub(crate) fn quote(s: &str) -> (r: String)
    ensures
        r@ == quoted(s@),
{
    format!("{:?}", s)
}

/// `char::is_alphanumeric`: a function of the character alone, which on ASCII characters
/// holds of the letters and digits.
#[verifier::external_body]
pub(crate) fn alphanumeric(c: char) -> (r: bool)
    ensures
        r == is_alphanumeric(c),
        (c as int) < 128 ==> r == is_ascii_alphanumeric(c),
{
    c.is_alphanumeric()
}

} // verus!
