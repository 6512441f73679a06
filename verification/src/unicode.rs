//! Character classification and case folding used by the fragment filters
//! and the lexical validator.
//!
//! The whitespace and ASCII-punctuation sets are small and fixed, so they
//! are implemented and verified here. Full Unicode case classification and
//! case folding rest on the standard library.

use vstd::prelude::*;

verus! {

/// The characters with the Unicode `White_Space` property, as listed in the
/// documentation of `char::is_whitespace`.
pub open spec fn is_space_char(c: char) -> bool {
    c == ' ' || c == '\t' || c == '\n' || c == '\u{b}' || c == '\u{c}' || c == '\r'
        || c == '\u{85}' || c == '\u{a0}' || c == '\u{1680}' || c == '\u{2000}'
        || c == '\u{2001}' || c == '\u{2002}' || c == '\u{2003}' || c == '\u{2004}'
        || c == '\u{2005}' || c == '\u{2006}' || c == '\u{2007}' || c == '\u{2008}'
        || c == '\u{2009}' || c == '\u{200a}' || c == '\u{2028}' || c == '\u{2029}'
        || c == '\u{202f}' || c == '\u{205f}' || c == '\u{3000}'
}

pub fn is_space(c: char) -> (r: bool)
    ensures
        r == is_space_char(c),
{
    c == ' ' || c == '\t' || c == '\n' || c == '\u{b}' || c == '\u{c}' || c == '\r'
        || c == '\u{85}' || c == '\u{a0}' || c == '\u{1680}' || c == '\u{2000}'
        || c == '\u{2001}' || c == '\u{2002}' || c == '\u{2003}' || c == '\u{2004}'
        || c == '\u{2005}' || c == '\u{2006}' || c == '\u{2007}' || c == '\u{2008}'
        || c == '\u{2009}' || c == '\u{200a}' || c == '\u{2028}' || c == '\u{2029}'
        || c == '\u{202f}' || c == '\u{205f}' || c == '\u{3000}'
}

/// ASCII punctuation: the four ASCII ranges `!..=/`, `:..=@`, `[..=`` ` ``
/// and `{..=~`, as documented for `char::is_ascii_punctuation`.
pub open spec fn is_ascii_punct_char(c: char) -> bool {
    (0x21 <= c as u32 && c as u32 <= 0x2f) || (0x3a <= c as u32 && c as u32 <= 0x40)
        || (0x5b <= c as u32 && c as u32 <= 0x60) || (0x7b <= c as u32 && c as u32 <= 0x7e)
}

pub fn is_ascii_punct(c: char) -> (r: bool)
    ensures
        r == is_ascii_punct_char(c),
{
    let u = c as u32;
    (0x21 <= u && u <= 0x2f) || (0x3a <= u && u <= 0x40) || (0x5b <= u && u <= 0x60) || (0x7b
        <= u && u <= 0x7e)
}

/// Whether `c` has the Unicode `Uppercase` property. The full table is far
/// too large to state, so the classification is named and left abstract.
pub uninterp spec fn is_upper_char(c: char) -> bool;

/// Whether `c` lies in a Unicode numeric general category (`Nd`, `Nl`,
/// `No`). Named and left abstract for the same reason as `is_upper_char`.
pub uninterp spec fn is_numeric_char(c: char) -> bool;

/// The Unicode lowercase mapping of a character sequence, as produced by
/// `str::to_lowercase`: a pure function of the characters alone, far too
/// large to state, so it is named and left abstract.
pub uninterp spec fn lower_of(s: Seq<char>) -> Seq<char>;

/// Relies on `char::is_uppercase`: true exactly for characters with the
/// Unicode `Uppercase` property, a function of the character alone.
#[verifier::external_body]
pub fn char_is_uppercase(c: char) -> (r: bool)
    ensures
        r == is_upper_char(c),
{
    c.is_uppercase()
}

/// Relies on `char::is_numeric`: true exactly for characters in a Unicode
/// numeric general category, a function of the character alone.
#[verifier::external_body]
pub fn char_is_numeric(c: char) -> (r: bool)
    ensures
        r == is_numeric_char(c),
{
    c.is_numeric()
}

/// Relies on `str::to_lowercase`: the result depends on the characters
/// alone, and an empty string stays empty.
#[verifier::external_body]
pub fn lowercase(s: &str) -> (r: String)
    ensures
        r@ == lower_of(s@),
        s@.len() == 0 ==> r@.len() == 0,
{
    s.to_lowercase()
}

} // verus!
