//! Building strings character by character.

use vstd::prelude::*;

verus! {

/// Appends `c` to `s` with `String::push`.  Claimed: the characters of `s`
/// gain `c` at the end.
#[verifier::external_body]
pub(crate) fn push_char(s: &mut String, c: char)
    ensures
        final(s)@ == old(s)@.push(c),
{
    s.push(c);
}

/// Whether `v` is a Unicode scalar value.
pub open spec fn is_scalar_value(v: int) -> bool {
    (0 <= v < 0xD800) || (0xE000 <= v <= 0x10FFFF)
}

/// Converts a code point with `char::from_u32`.  Claimed, as its
/// documentation states: `Some` exactly for Unicode scalar values, holding
/// the char with that value.
#[verifier::external_body]
pub(crate) fn char_from_u32(v: u32) -> (c: Option<char>)
    ensures
        c is Some <==> is_scalar_value(v as int),
        c matches Some(ch) ==> ch as int == v as int,
{
    char::from_u32(v)
}

} // verus!
