//! Trusted text conversions from the standard library.
//!
//! Pattern matching in the tracker is case-insensitive, and kernel-trace
//! records carry paths as UTF-16 units; both conversions are done by std and
//! named here so that contracts can speak about their results exactly.

use vstd::prelude::*;

verus! {

/// The lower-case folding of a character sequence, as `str::to_lowercase`
/// computes it.  The result depends on the characters alone.
pub uninterp spec fn lower_of(s: Seq<char>) -> Seq<char>;

/// Relies on `str::to_lowercase`: Unicode lower-case folding, a function of
/// the characters alone; an empty string stays empty.
#[verifier::external_body]
pub(crate) fn lowercase(s: &str) -> (r: String)
    ensures
        r@ == lower_of(s@),
        s@.len() == 0 ==> r@.len() == 0,
{
    s.to_lowercase()
}

/// The character sequence that `String::from_utf16_lossy` decodes from a
/// sequence of UTF-16 units.  The result depends on the units alone.
pub uninterp spec fn utf16_decoded(units: Seq<u16>) -> Seq<char>;

/// Relies on `String::from_utf16_lossy`: UTF-16 decoding with replacement
/// characters for unpaired surrogates, a function of the units alone; an
/// empty input decodes to an empty string.
#[verifier::external_body]
pub(crate) fn decode_utf16(units: &Vec<u16>) -> (r: String)
    ensures
        r@ == utf16_decoded(units@),
        units@.len() == 0 ==> r@.len() == 0,
{
    String::from_utf16_lossy(units.as_slice())
}

} // verus!
