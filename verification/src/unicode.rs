//! The Unicode character classes and case mappings of `std`, which depend on
//! Unicode data tables rather than on anything this crate decides.

use vstd::prelude::*;

verus! {

/// Whether `char::is_alphanumeric` holds of a character.
pub uninterp spec fn alphanumeric(c: char) -> bool;

/// `str::to_lowercase` of a string.
pub uninterp spec fn lowercase(s: Seq<char>) -> Seq<char>;

/// Calls `char::is_alphanumeric`. Claims only that the answer is the named
/// predicate of the character, and that inside ASCII it holds of exactly the
/// letters and digits, as the Unicode Alphabetic and Numeric properties have it.
#[verifier::external_body]
pub(crate) fn is_alphanumeric(c: char) -> (r: bool)
    ensures
        r == alphanumeric(c),
        (c as u32) < 128 ==> (r <==> (('0' <= c <= '9') || ('a' <= c <= 'z') || ('A' <= c <= 'Z'))),
{
    c.is_alphanumeric()
}

/// Calls `str::to_lowercase`. Claims only that the result is the named
/// lowercase mapping of the argument.
#[verifier::external_body]
pub(crate) fn to_lowercase(s: &str) -> (r: String)
    ensures
        r@ == lowercase(s@),
{
    s.to_lowercase()
}

} // verus!
