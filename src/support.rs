//! Support routines that the host provides to running programs.
use vstd::prelude::*;
use rand::Rng;

verus! {

/// `v` is a Unicode scalar value.
pub open spec fn is_scalar_value(v: int) -> bool {
    (0 <= v < 0xD800) || (0xE000 <= v <= 0x10FFFF)
}

/// Relies on `char::from_u32`: it returns `Some` exactly for the Unicode scalar
/// values, holding the character of that code point.
#[verifier::external_body]
fn char_from_u32(v: u32) -> (r: Option<char>)
    ensures
        r is Some <==> is_scalar_value(v as int),
        r is Some ==> r->0 as u32 == v,
{
    char::from_u32(v)
}

/// The character whose code point is `value`, if there is one.
pub fn character_of(value: i32) -> (r: Option<char>)
    ensures
        r is Some <==> is_scalar_value(value as int),
        r is Some ==> r->0 as u32 as int == value as int,
{
    if value < 0 {
        None
    } else {
        char_from_u32(value as u32)
    }
}

/// Returns a random number between 0 and 9 (inclusive).
/// Relies on rand's `Rng::gen_range`, which returns a value of the range it is given.
#[verifier::external_body]
pub fn randomize() -> (r: i32)
    ensures
        0 <= r < 10,
{
    rand::thread_rng().gen_range(0..10)
}

} // verus!
