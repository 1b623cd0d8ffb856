//! Calibration and scaling arithmetic of the converter.
use vstd::prelude::*;

use crate::num::{low16, signed16};

verus! {

/// `a / b` to the nearest integer, halves away from zero where `b` is even.
pub open spec fn nearest_symmetric(a: int, b: int) -> int {
    if a >= 0 {
        crate::num::nearest(a, b)
    } else {
        -crate::num::nearest(-a, b)
    }
}

/// Scales a result to millivolts: the fraction `counts / full_scale` of the
/// reference, to the nearest millivolt.
pub fn counts_to_millivolts(counts: u16, full_scale: u16, vref_mv: u16) -> (r: u32)
    requires
        full_scale > 0,
    ensures
        r == crate::num::nearest(counts * vref_mv, full_scale as int),
{
    assert(0 <= counts * vref_mv <= 65535 * 65535) by (nonlinear_arith)
        requires
            0 <= counts <= 65535,
            0 <= vref_mv <= 65535,
    ;
    (counts as u32 * vref_mv as u32 + full_scale as u32 / 2) / full_scale as u32
}

/// The temperature in tenths of a degree by the line through the readings
/// `cal_t30` at 30 degrees and `cal_t85` at 85 degrees, to the nearest tenth.
pub open spec fn deci_celsius(raw: int, cal_t30: int, cal_t85: int) -> int {
    300 + nearest_symmetric((raw - cal_t30) * 550, cal_t85 - cal_t30)
}

/// Interpolates a raw reading of the temperature sensor between its two
/// calibration points. `None` where the readings at these points do not
/// ascend, which no working sensor has.
pub fn temp_deci_celsius(raw: u16, cal_t30: u16, cal_t85: u16) -> (r: Option<i16>)
    ensures
        r == if cal_t85 <= cal_t30 {
            None
        } else {
            Some(
                crate::num::wrapped16(
                    deci_celsius(raw as int, cal_t30 as int, cal_t85 as int),
                ) as i16,
            )
        },
{
    let span: i32 = cal_t85 as i32 - cal_t30 as i32;
    if span <= 0 {
        return None;
    }
    let num: i32 = (raw as i32 - cal_t30 as i32) * 550;
    let half: i32 = span / 2;
    let size: i32 = if num >= 0 { num } else { -num };
    let steps: i32 = (size + half) / span;
    proof {
        assert(0 <= steps <= size + half) by (nonlinear_arith)
            requires
                span >= 1,
                size + half >= 0,
                steps == (size + half) / (span as int),
        ;
    }
    let interp: i32 = if num >= 0 { steps } else { -steps };
    Some(signed16(300 + interp))
}

/// A result with the gain factor, where 2^15 is unity, and then the offset
/// applied, kept within the word.
pub open spec fn gained(raw: int, gain_factor: int, offset: int) -> int {
    let corrected = raw * gain_factor / 0x8000 + offset;
    if corrected < 0 {
        0
    } else if corrected > u16::MAX {
        u16::MAX as int
    } else {
        corrected
    }
}

/// Applies the gain factor, where 2^15 is unity, and then the offset; the
/// result is kept within the word.
pub fn apply_gain_offset(raw: u16, gain_factor: u16, offset: i16) -> (r: u16)
    ensures
        r == gained(raw as int, gain_factor as int, offset as int),
{
    assert(0 <= raw * gain_factor <= 65535 * 65535) by (nonlinear_arith)
        requires
            0 <= raw <= 65535,
            0 <= gain_factor <= 65535,
    ;
    let corrected: i32 = (raw as u32 * gain_factor as u32 / 0x8000) as i32 + offset as i32;
    if corrected < 0 {
        0
    } else if corrected > 0xFFFF {
        0xFFFF
    } else {
        corrected as u16
    }
}

/// A result rescaled by the reference factor, where 2^15 is unity; what the
/// word cannot hold is cut off.
pub open spec fn rescaled(counts: int, factor: int) -> int {
    counts * factor / 0x8000 % 0x1_0000
}

/// Applies the reference factor, where 2^15 is unity.
pub fn apply_ref_factor(counts: u16, factor: u16) -> (r: u16)
    ensures
        r == rescaled(counts as int, factor as int),
{
    assert(0 <= counts * factor <= 65535 * 65535) by (nonlinear_arith)
        requires
            0 <= counts <= 65535,
            0 <= factor <= 65535,
    ;
    low16(counts as u32 * factor as u32 / 0x8000)
}

/// A reading at a calibration point is the temperature of that point.
pub proof fn lemma_calibration_points(cal_t30: u16, cal_t85: u16)
    requires
        cal_t30 < cal_t85,
    ensures
        deci_celsius(cal_t30 as int, cal_t30 as int, cal_t85 as int) == 300,
        deci_celsius(cal_t85 as int, cal_t30 as int, cal_t85 as int) == 850,
{
    let span = cal_t85 - cal_t30;
    assert((0 + span / 2) / span == 0) by (nonlinear_arith)
        requires
            span > 0,
    ;
    assert((span * 550 + span / 2) / span == 550) by (nonlinear_arith)
        requires
            span > 0,
    ;
}

/// A higher reading never means a lower temperature.
pub proof fn lemma_temperature_ascends(a: u16, b: u16, cal_t30: u16, cal_t85: u16)
    requires
        cal_t30 < cal_t85,
        a <= b,
    ensures
        deci_celsius(a as int, cal_t30 as int, cal_t85 as int) <= deci_celsius(
            b as int,
            cal_t30 as int,
            cal_t85 as int,
        ),
{
    let span = cal_t85 - cal_t30;
    let x = (a - cal_t30) * 550;
    let y = (b - cal_t30) * 550;
    if x >= 0 {
        vstd::arithmetic::div_mod::lemma_div_is_ordered(x + span / 2, y + span / 2, span);
    } else if y < 0 {
        vstd::arithmetic::div_mod::lemma_div_is_ordered(-y + span / 2, -x + span / 2, span);
    } else {
        vstd::arithmetic::div_mod::lemma_div_pos_is_pos(y + span / 2, span);
        vstd::arithmetic::div_mod::lemma_div_pos_is_pos(-x + span / 2, span);
    }
}

/// Zero counts are zero millivolts and full-scale counts the reference.
pub proof fn lemma_millivolt_ends(full_scale: u16, vref_mv: u16)
    requires
        full_scale > 0,
    ensures
        crate::num::nearest(0 * vref_mv, full_scale as int) == 0,
        crate::num::nearest(full_scale * vref_mv, full_scale as int) == vref_mv,
{
    let f = full_scale as int;
    let v = vref_mv as int;
    assert((0 * v + f / 2) / f == 0) by (nonlinear_arith)
        requires
            f > 0,
    ;
    assert((f * v + f / 2) / f == v) by (nonlinear_arith)
        requires
            f > 0,
    ;
}

/// Unity gain without offset, and the unity reference factor, change nothing.
pub proof fn lemma_unity(raw: u16)
    ensures
        gained(raw as int, 0x8000, 0) == raw,
        rescaled(raw as int, 0x8000) == raw,
{
}

/// The temperature lies on the line through the two calibration points, at 30.0
/// and 85.0 degrees, to half a tenth of a degree.
pub proof fn lemma_temperature_on_line(raw: u16, cal_t30: u16, cal_t85: u16)
    requires
        cal_t30 < cal_t85,
    ensures
        ({
            let t = deci_celsius(raw as int, cal_t30 as int, cal_t85 as int);
            let span = cal_t85 - cal_t30;
            -span <= 2 * ((t - 300) * span - (raw - cal_t30) * (850 - 300)) <= span
        }),
{
    let span = cal_t85 - cal_t30;
    let a = (raw - cal_t30) * 550;
    if a >= 0 {
        crate::num::lemma_nearest(a, span);
    } else {
        crate::num::lemma_nearest(-a, span);
        let n = crate::num::nearest(-a, span);
        assert((-n) * span == -(n * span)) by (nonlinear_arith);
    }
}

/// A factor is in units of 1/32768: the product is taken to whole counts,
/// downwards, and the offset is added to it.
pub proof fn lemma_correction(raw: u16, gain_factor: u16, offset: i16)
    ensures
        ({
            let whole = rescaled(raw as int, gain_factor as int);
            let exact = raw * gain_factor;
            &&& exact < 0x8000_0000 ==> whole * 32768 <= exact < whole * 32768 + 32768
            &&& exact < 0x8000_0000 && 0 <= whole + offset <= 0xFFFF ==> gained(
                raw as int,
                gain_factor as int,
                offset as int,
            ) == whole + offset
            &&& exact < 0x8000_0000 && whole + offset < 0 ==> gained(
                raw as int,
                gain_factor as int,
                offset as int,
            ) == 0
            &&& exact < 0x8000_0000 && whole + offset > 0xFFFF ==> gained(
                raw as int,
                gain_factor as int,
                offset as int,
            ) == 0xFFFF
        }),
{
    assert(raw * gain_factor >= 0) by (nonlinear_arith)
        requires
            raw >= 0,
            gain_factor >= 0,
    ;
}

} // verus!
