//! Character classes of the grammar, and the few string conversions the
//! parser needs.

use vstd::prelude::*;

verus! {

/// Unicode whitespace: the characters with the `White_Space` property.
pub open spec fn is_space_char(c: char) -> bool {
    let u = c as u32;
    u == 0x20 || (0x09 <= u && u <= 0x0d) || u == 0x85 || u == 0xa0 || u == 0x1680 || (0x2000
        <= u && u <= 0x200a) || u == 0x2028 || u == 0x2029 || u == 0x202f || u == 0x205f || u
        == 0x3000
}

/// Whitespace that stays within a line: any whitespace but the newline.
pub open spec fn is_inline_space(c: char) -> bool {
    is_space_char(c) && c != '\n'
}

/// Unicode control characters: C0, delete, and C1.
pub open spec fn is_control_char(c: char) -> bool {
    let u = c as u32;
    u < 0x20 || (0x7f <= u && u <= 0x9f)
}

/// Whether `c` is whitespace that stays within a line.
pub fn inline_space(c: char) -> (r: bool)
    ensures
        r == is_inline_space(c),
{
    let u = c as u32;
    u == 0x20 || u == 0x09 || (0x0b <= u && u <= 0x0d) || u == 0x85 || u == 0xa0 || u == 0x1680
        || (0x2000 <= u && u <= 0x200a) || u == 0x2028 || u == 0x2029 || u == 0x202f || u
        == 0x205f || u == 0x3000
}

/// Whether `c` is a control character.
pub fn control_char(c: char) -> (r: bool)
    ensures
        r == is_control_char(c),
{
    let u = c as u32;
    u < 0x20 || (0x7f <= u && u <= 0x9f)
}

/// The class of characters `char::is_alphanumeric` accepts: the Unicode
/// letter and number categories. The tables are too large to restate, so the
/// class is only named here.
pub uninterp spec fn alnum_class(c: char) -> bool;

/// Relies on char::is_alphanumeric: whether a character is in the Unicode
/// letter or number categories, a function of the character alone.
#[verifier::external_body]
pub fn alnum(c: char) -> (r: bool)
    ensures
        r == alnum_class(c),
{
    c.is_alphanumeric()
}

/// Relies on String's FromIterator over chars: collecting characters yields
/// the string of exactly those characters, in order.
#[verifier::external_body]
pub fn chars_to_string(v: &Vec<char>) -> (s: String)
    ensures
        s@ == v@,
{
    v.iter().collect()
}

} // verus!
