//! Rounding, and the narrowing of integers with what it keeps.
use vstd::prelude::*;

verus! {

/// `a / b` to the nearest integer, halves upwards where `b` is even.
pub open spec fn nearest(a: int, b: int) -> int {
    (a + b / 2) / b
}

/// `v` modulo 2^16, in the signed range.
pub open spec fn wrapped16(v: int) -> int {
    (v + 0x8000) % 0x1_0000 - 0x8000
}

/// The low 32 bits.
pub fn low32(x: u64) -> (r: u32)
    ensures
        r == x as int % 0x1_0000_0000,
{
    assert(x as u32 == x % 0x1_0000_0000) by (bit_vector);
    x as u32
}

/// The low 16 bits.
pub fn low16(x: u32) -> (r: u16)
    ensures
        r == x as int % 0x1_0000,
{
    assert(x as u16 == x % 0x1_0000) by (bit_vector);
    x as u16
}

/// The low 16 bits, taken as a signed number.
pub fn signed16(x: i32) -> (r: i16)
    ensures
        r == wrapped16(x as int),
{
    let shifted: i64 = x as i64 + 0x8000;
    let rest: i64 = if shifted >= 0 {
        shifted % 0x1_0000
    } else {
        let up: i64 = (-shifted) % 0x1_0000;
        if up == 0 {
            0
        } else {
            0x1_0000 - up
        }
    };
    (rest - 0x8000) as i16
}

/// The nearest integer: no more than half a divisor away.
pub proof fn lemma_nearest(a: int, b: int)
    requires
        b > 0,
    ensures
        -b <= 2 * (nearest(a, b) * b - a) <= b,
{
    let h = b / 2;
    let q = (a + h) / b;
    assert(q * b <= a + h < q * b + b) by (nonlinear_arith)
        requires
            b > 0,
            q == (a + h) / b,
    ;
}

/// A number brought into the signed range differs from it by whole turns.
pub proof fn lemma_wrapped(v: int)
    ensures
        -0x8000 <= wrapped16(v) < 0x8000,
        (wrapped16(v) - v) % 0x1_0000 == 0,
        -0x8000 <= v < 0x8000 ==> wrapped16(v) == v,
{
}

} // verus!
