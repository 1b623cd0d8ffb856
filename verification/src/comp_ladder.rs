//! Arithmetic of the Comp_E reference ladder.
//!
//! A resistor string divides its source into 32 equal steps; tap `n` is the
//! point `(n + 1) / 32`, so that tap 31 is the full source voltage.
use vstd::prelude::*;

verus! {

/// The number of taps.
pub const LADDER_TAPS: u8 = 32;

/// The voltage at `tap`, to the nearest millivolt; a tap past the last is the
/// last.
pub open spec fn tap_voltage(tap: int, source_mv: int) -> int {
    crate::num::nearest(source_mv * (if tap >= LADDER_TAPS { LADDER_TAPS as int } else { tap + 1 }), 32)
}

/// The tap for a wanted voltage.
pub open spec fn tap_for(target_mv: int, source_mv: int) -> int {
    if source_mv == 0 {
        0
    } else {
        let steps = crate::num::nearest(target_mv * 32, source_mv);
        if steps < 1 {
            0
        } else if steps > LADDER_TAPS {
            LADDER_TAPS - 1
        } else {
            steps - 1
        }
    }
}

/// The voltage at ladder tap `tap`, in millivolts.
pub fn ladder_millivolts(tap: u8, source_mv: u16) -> (r: u16)
    ensures
        r == tap_voltage(tap as int, source_mv as int),
{
    let tap: u8 = if tap >= LADDER_TAPS { LADDER_TAPS - 1 } else { tap };
    let steps: u32 = tap as u32 + 1;
    let source: u32 = source_mv as u32;
    assert(0 <= source * steps <= 65535 * 32) by (nonlinear_arith)
        requires
            0 <= source <= 65535,
            1 <= steps <= 32,
    ;
    assert(source * steps + 16 < 32 * 65536);
    ((source * steps + LADDER_TAPS as u32 / 2) / LADDER_TAPS as u32) as u16
}

/// The ladder tap whose voltage is closest to `target_mv`. A target of half a
/// step or less selects tap 0, one at or above the source tap 31, a tie the
/// higher tap. Without a source there is only tap 0.
pub fn tap_for_millivolts(target_mv: u16, source_mv: u16) -> (r: u8)
    ensures
        r == tap_for(target_mv as int, source_mv as int),
{
    if source_mv == 0 {
        return 0;
    }
    let steps: u32 = (target_mv as u32 * 32 + source_mv as u32 / 2)
        / source_mv as u32;
    if steps < 1 {
        0
    } else if steps > LADDER_TAPS as u32 {
        LADDER_TAPS - 1
    } else {
        (steps - 1) as u8
    }
}

/// A tap and its exact voltage differ from the target by this much, in
/// thirty-seconds of a millivolt.
pub open spec fn distance(tap: int, target_mv: int, source_mv: int) -> int {
    let d = 32 * target_mv - source_mv * (tap + 1);
    if d < 0 {
        -d
    } else {
        d
    }
}

/// No tap is closer to the target than the one chosen.
pub proof fn lemma_closest_tap(target_mv: u16, source_mv: u16, other: int)
    requires
        0 <= other < LADDER_TAPS,
    ensures
        source_mv > 0 ==> distance(
            tap_for(target_mv as int, source_mv as int),
            target_mv as int,
            source_mv as int,
        ) <= distance(other, target_mv as int, source_mv as int),
{
    if source_mv > 0 {
        let t = 32 * (target_mv as int);
        let s = source_mv as int;
        let tap = tap_for(target_mv as int, s);
        let steps = (t + s / 2) / s;
        assert(s * steps <= t + s / 2 < s * steps + s) by (nonlinear_arith)
            requires
                s > 0,
                steps == (t + s / 2) / s,
        ;
        let o = other + 1;
        let c = tap + 1;
        if o < c {
            assert(s * o <= s * c - s) by (nonlinear_arith)
                requires
                    s > 0,
                    o <= c - 1,
            ;
            assert(s * c <= s * steps) by (nonlinear_arith)
                requires
                    s > 0,
                    c <= steps,
            ;
        } else if o > c {
            assert(s * o >= s * c + s) by (nonlinear_arith)
                requires
                    s > 0,
                    o >= c + 1,
            ;
            assert(s * c >= s * steps) by (nonlinear_arith)
                requires
                    s > 0,
                    c >= steps,
            ;
        }
    }
}

/// The tap that was asked for its voltage is the tap for that voltage, as
/// long as neighbouring taps are at least a millivolt apart.
pub proof fn lemma_tap_round_trip(tap: u8, source_mv: u16)
    requires
        tap < LADDER_TAPS,
        source_mv >= 32,
    ensures
        tap_for(tap_voltage(tap as int, source_mv as int), source_mv as int) == tap,
{
    let s = source_mv as int;
    let c = tap as int + 1;
    let p = s * c;
    let v = (p + 16) / 32;
    let e = 32 * v - p;
    if s == 32 {
        assert(p == 32 * c);
        assert(e == 0);
    }
    assert(-15 <= e <= 16);
    assert(0 <= e + s / 2 < s);
    assert((p + (e + s / 2)) / s == c) by (nonlinear_arith)
        requires
            p == s * c,
            s > 0,
            0 <= e + s / 2 < s,
    ;
    assert(v * 32 + s / 2 == p + (e + s / 2));
}

/// Higher taps never have lower voltages.
pub proof fn lemma_taps_ascend(low: u8, high: u8, source_mv: u16)
    requires
        low <= high,
    ensures
        tap_voltage(low as int, source_mv as int) <= tap_voltage(high as int, source_mv as int),
{
    let s = source_mv as int;
    let a: int = if low >= LADDER_TAPS { 32 } else { low + 1 };
    let b: int = if high >= LADDER_TAPS { 32 } else { high + 1 };
    assert(s * a <= s * b) by (nonlinear_arith)
        requires
            0 <= s,
            a <= b,
    ;
}

/// The ladder has 32 steps of equal size: tap `tap` is `tap` + 1 of them, to half
/// a millivolt, and the last one is the source itself.
pub proof fn lemma_equal_steps(tap: u8, source_mv: u16)
    requires
        tap < 32,
    ensures
        -32 <= 2 * (32 * tap_voltage(tap as int, source_mv as int) - source_mv * (tap + 1)) <= 32,
        tap_voltage(31, source_mv as int) == source_mv,
        LADDER_TAPS == 32,
{
    crate::num::lemma_nearest(source_mv * (tap + 1), 32);
}

} // verus!
