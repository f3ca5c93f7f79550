//! Arithmetic on 16-bit sequence numbers (ticks, packet indices) that wrap.

use vstd::prelude::*;

verus! {

/// The signed distance from `a` to `b` on the 16-bit circle: the integer `d`
/// in `[-32768, 32767]` with `d ≡ b - a (mod 65536)`.
pub open spec fn spec_wrapping_diff(a: u16, b: u16) -> int {
    let d = (b as int - a as int) % 65536;
    if d >= 32768 {
        d - 65536
    } else {
        d
    }
}

/// `a` is later than `b` on the 16-bit circle.
pub open spec fn spec_sequence_greater_than(a: u16, b: u16) -> bool {
    spec_wrapping_diff(a, b) < 0
}

/// `a` is earlier than `b` on the 16-bit circle.
pub open spec fn spec_sequence_less_than(a: u16, b: u16) -> bool {
    spec_wrapping_diff(a, b) > 0
}

/// The signed 16-bit value of `b - a`, taken modulo 2^16.
pub fn wrapping_diff(a: u16, b: u16) -> (d: i16)
    ensures
        d as int == spec_wrapping_diff(a, b),
{
    let x: i32 = b as i32 - a as i32;
    if x >= 32768 {
        (x - 65536) as i16
    } else if x < -32768 {
        (x + 65536) as i16
    } else {
        x as i16
    }
}

/// Whether `a` comes after `b`, where the numbers wrap.
pub fn sequence_greater_than(a: u16, b: u16) -> (r: bool)
    ensures
        r == spec_sequence_greater_than(a, b),
{
    wrapping_diff(a, b) < 0
}

/// Whether `a` comes before `b`, where the numbers wrap.
pub fn sequence_less_than(a: u16, b: u16) -> (r: bool)
    ensures
        r == spec_sequence_less_than(a, b),
{
    wrapping_diff(a, b) > 0
}

/// The sign of an integer: -1, 0 or 1.
pub open spec fn spec_sign(d: int) -> int {
    if d < 0 {
        -1
    } else if d == 0 {
        0
    } else {
        1
    }
}

/// A number is at distance zero from itself.
pub proof fn lemma_wrapping_diff_same(a: u16)
    ensures
        spec_wrapping_diff(a, a) == 0,
{
}

/// Away from the antipode, swapping the arguments negates the distance, so
/// exactly one of two distinct numbers is the later one.
pub proof fn lemma_wrapping_diff_antisymmetric(a: u16, b: u16)
    requires
        a != b,
        (a as int - b as int) % 65536 != 32768,
    ensures
        spec_wrapping_diff(a, b) == -spec_wrapping_diff(b, a),
        spec_sign(spec_wrapping_diff(a, b)) == -spec_sign(spec_wrapping_diff(b, a)),
        spec_sign(spec_wrapping_diff(a, b)) != 0,
        spec_sequence_greater_than(a, b) <==> spec_sequence_less_than(b, a),
        spec_sequence_greater_than(a, b) <==> !spec_sequence_greater_than(b, a),
{
}

} // verus!
