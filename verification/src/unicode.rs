//! What the standard library and the normalisation tables know of Unicode.
//!
//! Over ASCII every operation here has its meaning written out, and white space everywhere.
//! Beyond ASCII the other results are properties of the Unicode tables, and carry names.

use crate::text::{is_capital, is_small};
use unicode_normalization::UnicodeNormalization;
use vstd::prelude::*;
use vstd::utf8::*;

verus! {

/// The small letter of an ASCII capital; any other character as it is.
pub open spec fn ascii_lower(c: char) -> char {
    if is_capital(c) {
        (c as u32 + 32) as u8 as char
    } else {
        c
    }
}

/// The capital of a small ASCII letter; any other character as it is.
pub open spec fn ascii_upper(c: char) -> char {
    if is_small(c) {
        (c as u32 - 32) as u8 as char
    } else {
        c
    }
}

/// What `str::to_lowercase` gives on a string that is not all ASCII.
pub uninterp spec fn lowercase_beyond_ascii(s: Seq<char>) -> Seq<char>;

/// What `str::to_uppercase` gives on a string that is not all ASCII.
pub uninterp spec fn uppercase_beyond_ascii(s: Seq<char>) -> Seq<char>;

/// What `char::to_lowercase` gives on a character that is not ASCII.
pub uninterp spec fn small_letters_beyond_ascii(c: char) -> Seq<char>;

/// What `char::to_uppercase` gives on a character that is not ASCII.
pub uninterp spec fn capital_letters_beyond_ascii(c: char) -> Seq<char>;

/// Whether a character that is not ASCII has the Unicode property `Alphabetic`.
pub uninterp spec fn alphabetic_beyond_ascii(c: char) -> bool;

/// Whether a character that is not ASCII has the Unicode property `Uppercase`.
pub uninterp spec fn upper_case_beyond_ascii(c: char) -> bool;

/// Whether a character that is not ASCII has the Unicode property `Lowercase`.
pub uninterp spec fn lower_case_beyond_ascii(c: char) -> bool;

/// The normalisation form KC of a string that is not all ASCII.
pub uninterp spec fn compatible_form_beyond_ascii(s: Seq<char>) -> Seq<char>;

/// A string in small letters.
pub open spec fn lowercase(s: Seq<char>) -> Seq<char> {
    if is_ascii_chars(s) {
        s.map_values(|c: char| ascii_lower(c))
    } else {
        lowercase_beyond_ascii(s)
    }
}

/// A string in capitals.
pub open spec fn uppercase(s: Seq<char>) -> Seq<char> {
    if is_ascii_chars(s) {
        s.map_values(|c: char| ascii_upper(c))
    } else {
        uppercase_beyond_ascii(s)
    }
}

/// One character in small letters.
pub open spec fn char_lowercase(c: char) -> Seq<char> {
    if (c as u32) < 128 {
        seq![ascii_lower(c)]
    } else {
        small_letters_beyond_ascii(c)
    }
}

/// One character in capitals.
pub open spec fn char_uppercase(c: char) -> Seq<char> {
    if (c as u32) < 128 {
        seq![ascii_upper(c)]
    } else {
        capital_letters_beyond_ascii(c)
    }
}

/// A letter.
pub open spec fn alphabetic(c: char) -> bool {
    if (c as u32) < 128 {
        is_small(c) || is_capital(c)
    } else {
        alphabetic_beyond_ascii(c)
    }
}

/// A capital letter.
pub open spec fn upper_case(c: char) -> bool {
    if (c as u32) < 128 {
        is_capital(c)
    } else {
        upper_case_beyond_ascii(c)
    }
}

/// A small letter.
pub open spec fn lower_case(c: char) -> bool {
    if (c as u32) < 128 {
        is_small(c)
    } else {
        lower_case_beyond_ascii(c)
    }
}

/// White space: the space and the five controls from tab to carriage return, and the other
/// spaces and line separators of Unicode.
pub open spec fn white_space(c: char) -> bool {
    let v = c as u32;
    ||| 9 <= v <= 13
    ||| v == 0x20 || v == 0x85 || v == 0xa0 || v == 0x1680
    ||| 0x2000 <= v <= 0x200a
    ||| v == 0x2028 || v == 0x2029 || v == 0x202f || v == 0x205f || v == 0x3000
}

/// Normalisation form KC, which leaves ASCII text as it is.
pub open spec fn compatible_form(s: Seq<char>) -> Seq<char> {
    if is_ascii_chars(s) {
        s
    } else {
        compatible_form_beyond_ascii(s)
    }
}

/// `str::to_lowercase`: ASCII capitals become small letters and other ASCII characters
/// stay. On other text the result is named, and nothing more is claimed of it.
#[verifier::external_body]
pub(crate) fn to_lowercase(s: &str) -> (r: String)
    ensures
        is_ascii_chars(s@) ==> r@ == s@.map_values(|c: char| ascii_lower(c)),
        !is_ascii_chars(s@) ==> r@ == lowercase_beyond_ascii(s@),
{
    s.to_lowercase()
}

/// `str::to_uppercase`: small ASCII letters become capitals and other ASCII characters
/// stay. On other text the result is named, and nothing more is claimed of it.
#[verifier::external_body]
pub(crate) fn to_uppercase(s: &str) -> (r: String)
    ensures
        is_ascii_chars(s@) ==> r@ == s@.map_values(|c: char| ascii_upper(c)),
        !is_ascii_chars(s@) ==> r@ == uppercase_beyond_ascii(s@),
{
    s.to_uppercase()
}

/// `char::to_lowercase`, collected: one character in ASCII, and a named result beyond it.
#[verifier::external_body]
pub(crate) fn char_to_lowercase(c: char) -> (r: String)
    ensures
        (c as u32) < 128 ==> r@ == seq![ascii_lower(c)],
        (c as u32) >= 128 ==> r@ == small_letters_beyond_ascii(c),
{
    c.to_lowercase().collect()
}

/// `char::to_uppercase`, collected: one character in ASCII, and a named result beyond it.
#[verifier::external_body]
pub(crate) fn char_to_uppercase(c: char) -> (r: String)
    ensures
        (c as u32) < 128 ==> r@ == seq![ascii_upper(c)],
        (c as u32) >= 128 ==> r@ == capital_letters_beyond_ascii(c),
{
    c.to_uppercase().collect()
}

/// `char::is_alphabetic`: the letters in ASCII, and a named property beyond it.
#[verifier::external_body]
pub(crate) fn is_alphabetic(c: char) -> (r: bool)
    ensures
        (c as u32) < 128 ==> r == (is_small(c) || is_capital(c)),
        (c as u32) >= 128 ==> r == alphabetic_beyond_ascii(c),
{
    c.is_alphabetic()
}

/// `char::is_uppercase`: the capitals in ASCII, and a named property beyond it.
#[verifier::external_body]
pub(crate) fn is_uppercase(c: char) -> (r: bool)
    ensures
        (c as u32) < 128 ==> r == is_capital(c),
        (c as u32) >= 128 ==> r == upper_case_beyond_ascii(c),
{
    c.is_uppercase()
}

/// `char::is_lowercase`: the small letters in ASCII, and a named property beyond it.
#[verifier::external_body]
pub(crate) fn is_lowercase(c: char) -> (r: bool)
    ensures
        (c as u32) < 128 ==> r == is_small(c),
        (c as u32) >= 128 ==> r == lower_case_beyond_ascii(c),
{
    c.is_lowercase()
}

/// `char::is_whitespace`: the characters with the Unicode property `White_Space`, of which there
/// are twenty-five.
#[verifier::external_body]
pub(crate) fn is_whitespace(c: char) -> (r: bool)
    ensures
        r == white_space(c),
{
    c.is_whitespace()
}

/// `UnicodeNormalization::nfkc`, collected: ASCII text has no decomposition and comes back
/// unchanged. On other text the result is named, and nothing more is claimed of it.
#[verifier::external_body]
pub(crate) fn nfkc(s: &str) -> (r: String)
    ensures
        is_ascii_chars(s@) ==> r@ == s@,
        !is_ascii_chars(s@) ==> r@ == compatible_form_beyond_ascii(s@),
{
    s.nfkc().collect()
}

/// A string in small letters.
pub fn lower(s: &str) -> (r: String)
    ensures
        r@ == lowercase(s@),
{
    to_lowercase(s)
}

/// A string in capitals.
pub fn upper(s: &str) -> (r: String)
    ensures
        r@ == uppercase(s@),
{
    to_uppercase(s)
}

/// A string with its first letter a capital and the rest small, letter by letter.
pub open spec fn capitalized(s: Seq<char>) -> Seq<char> {
    if s.len() == 0 {
        s
    } else {
        char_uppercase(s[0]) + small_letters(s.skip(1))
    }
}

/// Every character in small letters, one after the other.
pub open spec fn small_letters(s: Seq<char>) -> Seq<char>
    decreases s.len(),
{
    if s.len() == 0 {
        Seq::empty()
    } else {
        small_letters(s.drop_last()) + char_lowercase(s.last())
    }
}

} // verus!
