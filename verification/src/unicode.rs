//! The crate's view of the Unicode tables.
//!
//! Grapheme-cluster segmentation and display width are table lookups that
//! no contract could restate in a few lines, so both are named and taken
//! on trust from their crates; everything built on them is verified
//! against those names.

use vstd::prelude::*;

use unicode_segmentation::UnicodeSegmentation;
use unicode_width::UnicodeWidthStr;

verus! {

/// The first extended grapheme cluster of a character sequence, as UAX #29
/// draws the boundaries; empty when the sequence is empty.
pub uninterp spec fn first_egc(s: Seq<char>) -> Seq<char>;

/// The displayed width in terminal columns of a character sequence.
pub uninterp spec fn egc_width(s: Seq<char>) -> usize;

/// Relies on `unicode_segmentation::UnicodeSegmentation::graphemes`: the
/// extended grapheme clusters partition the string in order, so the first
/// cluster is a prefix of it, and is nonempty exactly when the string is.
#[verifier::external_body]
pub fn first_grapheme(s: &str) -> (r: String)
    ensures
        r@ == first_egc(s@),
        r@.len() <= s@.len(),
        r@ == s@.subrange(0, r@.len() as int),
        s@.len() > 0 ==> r@.len() > 0,
        s@.len() == 0 ==> r@.len() == 0,
{
    match s.graphemes(true).next() {
        Some(g) => g.to_owned(),
        None => String::new(),
    }
}

/// Relies on `unicode_width::UnicodeWidthStr::width`: the displayed width
/// of a string is a function of its characters alone, and an empty string
/// is zero columns wide.
#[verifier::external_body]
pub fn grapheme_width(s: &str) -> (r: usize)
    ensures
        r == egc_width(s@),
        s@.len() == 0 ==> r == 0,
{
    UnicodeWidthStr::width(s)
}

/// Relies on `char::from_u32`: every value below `0xD800`, and every value
/// in `0xE000..=0x10FFFF`, is the scalar value of exactly one `char`.
#[verifier::external_body]
pub fn char_of(v: u32) -> (r: char)
    requires
        v < 0xD800 || (0xE000 <= v && v <= 0x10FFFF),
    ensures
        r as u32 == v,
{
    char::from_u32(v).unwrap()
}

/// Relies on `String::from` for `char`: the returned string holds exactly
/// that character.
#[verifier::external_body]
pub fn char_to_string(c: char) -> (r: String)
    ensures
        r@ == seq![c],
{
    String::from(c)
}

/// The character whose scalar value is `v`; meaningful when `v` is a
/// Unicode scalar value.
pub open spec fn scalar_char(v: u32) -> char {
    v as char
}

/// Every character is recovered from its own scalar value.
pub proof fn lemma_scalar_char(c: char)
    ensures
        scalar_char(c as u32) == c,
{
    assert((c as u32) as char == c);
}

} // verus!
