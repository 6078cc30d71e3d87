//! Character classes used by the line classifier: Unicode whitespace, the
//! marker delimiters, and the numeric/alphabetic tests of std.

use vstd::prelude::*;

verus! {

/// A character with the Unicode `White_Space` property: what `str::trim`
/// removes at either end of a line, and what may separate a marker body
/// from its delimiter.
pub open spec fn is_space_char(c: char) -> bool {
    let u = c as u32;
    u == 0x20 || (0x09 <= u && u <= 0x0D) || u == 0x85 || u == 0xA0 || u == 0x1680
        || (0x2000 <= u && u <= 0x200A)
        || u == 0x2028 || u == 0x2029 || u == 0x202F || u == 0x205F || u == 0x3000
}

pub fn is_space(c: char) -> (r: bool)
    ensures
        r == is_space_char(c),
{
    let u = c as u32;
    u == 0x20 || (0x09 <= u && u <= 0x0D) || u == 0x85 || u == 0xA0 || u == 0x1680
        || (0x2000 <= u && u <= 0x200A)
        || u == 0x2028 || u == 0x2029 || u == 0x202F || u == 0x205F || u == 0x3000
}

/// A delimiter that may close a line marker: `)`, `.` or `-`.
pub open spec fn is_delim_char(c: char) -> bool {
    c == ')' || c == '.' || c == '-'
}

pub fn is_delim(c: char) -> (r: bool)
    ensures
        r == is_delim_char(c),
{
    c == ')' || c == '.' || c == '-'
}

/// Whether `char::is_numeric` holds of a character; it depends on the
/// character alone (the Unicode number categories).
pub uninterp spec fn char_is_numeric(c: char) -> bool;

/// Whether `char::is_alphabetic` holds of a character; it depends on the
/// character alone (the Unicode `Alphabetic` property).
pub uninterp spec fn char_is_alphabetic(c: char) -> bool;

/// Relies on `char::is_numeric` from std: a pure test on one character.
#[verifier::external_body]
pub(crate) fn is_numeric_char(c: char) -> (r: bool)
    ensures
        r == char_is_numeric(c),
{
    c.is_numeric()
}

/// Relies on `char::is_alphabetic` from std: a pure test on one character.
#[verifier::external_body]
pub(crate) fn is_alphabetic_char(c: char) -> (r: bool)
    ensures
        r == char_is_alphabetic(c),
{
    c.is_alphabetic()
}

} // verus!
