//! From captured tick counts to frequency, duty and ratios.
use vstd::prelude::*;

use crate::num::low32;

verus! {

/// The product of two words.
fn product(a: u32, b: u32) -> (r: u64)
    ensures
        r == a * b,
        r <= 0xFFFF_FFFE_0000_0001,
{
    assert(0 <= a * b <= 0xFFFF_FFFF * 0xFFFF_FFFF) by (nonlinear_arith)
        requires
            0 <= a <= 0xFFFF_FFFF,
            0 <= b <= 0xFFFF_FFFF,
    ;
    a as u64 * b as u64
}

/// The frequency of a signal of which `periods` periods took `total_ticks`; 0
/// where no time passed.
pub fn hz_from_period_ticks(tick_hz: u32, total_ticks: u32, periods: u32) -> (r: u32)
    ensures
        r == if total_ticks == 0 {
            0
        } else {
            crate::num::nearest(tick_hz * periods, total_ticks as int) % 0x1_0000_0000
        },
{
    if total_ticks == 0 {
        return 0;
    }
    let num: u64 = product(tick_hz, periods);
    low32((num + total_ticks as u64 / 2) / total_ticks as u64)
}

/// The duty cycle in thousandths, at most 1000; 0 where the period is 0.
pub fn duty_permille(high_ticks: u32, period_ticks: u32) -> (r: u16)
    ensures
        r == duty(high_ticks as int, period_ticks as int),
{
    if period_ticks == 0 {
        return 0;
    }
    let permille: u64 = (high_ticks as u64 * 1000 + period_ticks as u64 / 2) / period_ticks as u64;
    if permille > 1000 {
        1000
    } else {
        permille as u16
    }
}

/// The duty cycle in thousandths.
pub open spec fn duty(high_ticks: int, period_ticks: int) -> int {
    if period_ticks == 0 {
        0
    } else {
        let permille = crate::num::nearest(high_ticks * 1000, period_ticks);
        if permille > 1000 {
            1000
        } else {
            permille
        }
    }
}

/// How many periods of a signal fit into a span, to the nearest; 0 where the
/// tick rate is 0.
pub fn periods_in_span(delta_ticks: u32, tick_hz: u32, signal_hz: u32) -> (r: u32)
    ensures
        r == if tick_hz == 0 {
            0
        } else {
            crate::num::nearest(delta_ticks * signal_hz, tick_hz as int) % 0x1_0000_0000
        },
{
    if tick_hz == 0 {
        return 0;
    }
    let num: u64 = product(delta_ticks, signal_hz);
    low32((num + tick_hz as u64 / 2) / tick_hz as u64)
}

/// A span against what it should be for `periods` periods, in thousandths; 0
/// where that is nothing. The products stay within 64 bits.
pub fn span_ratio_permille(delta_ticks: u32, periods: u32, tick_hz: u32, signal_hz: u32) -> (r: u32)
    requires
        periods * tick_hz == 0 || delta_ticks * signal_hz * 1000 + periods * tick_hz / 2 <= u64::MAX,
    ensures
        r == if periods * tick_hz == 0 {
            0
        } else {
            crate::num::nearest(delta_ticks * signal_hz * 1000, periods * tick_hz) % 0x1_0000_0000
        },
{
    let den: u64 = product(periods, tick_hz);
    if den == 0 {
        return 0;
    }
    let num: u64 = product(delta_ticks, signal_hz) * 1000;
    low32((num + den / 2) / den)
}

/// Whether `actual` is within so many thousandths of `expected`.
pub fn within_permille(actual: u32, expected: u32, tol_permille: u32) -> (r: bool)
    ensures
        r == (-(expected * tol_permille) <= (actual - expected) * 1000 <= expected * tol_permille),
{
    let diff: u32 = if actual > expected { actual - expected } else { expected - actual };
    diff as u64 * 1000 <= product(expected, tol_permille)
}

/// The frequency of a signal whose period is exactly `period` ticks comes out
/// right where it is a whole number.
pub proof fn lemma_exact_frequency(tick_hz: u32, hz: u32, period: u32, periods: u32)
    requires
        hz * period == tick_hz,
        periods > 0,
        period > 0,
    ensures
        crate::num::nearest(tick_hz * periods, period * periods) == hz,
{
    let d = period * periods;
    assert(d > 0) by (nonlinear_arith)
        requires
            period > 0,
            periods > 0,
            d == period * periods,
    ;
    assert(tick_hz * periods == hz * d) by (nonlinear_arith)
        requires
            hz * period == tick_hz,
            d == period * periods,
    ;
    assert((hz * d + d / 2) / d == hz) by (nonlinear_arith)
        requires
            d > 0,
    ;
}

/// Counting periods by time is exact while the tick clock is off by less than
/// half a period over the span: `delta` ticks that differ from `n` periods by
/// less than half a period count as `n`.
pub proof fn lemma_periods_exact(delta: u32, tick_hz: u32, signal_hz: u32, n: int)
    requires
        tick_hz > 0,
        n >= 0,
        -(tick_hz as int) < 2 * (delta * signal_hz - n * tick_hz) < tick_hz as int,
    ensures
        crate::num::nearest(delta * signal_hz, tick_hz as int) == n,
{
    let f = tick_hz as int;
    let p = delta * signal_hz;
    assert((p + f / 2) / f == n) by (nonlinear_arith)
        requires
            f > 0,
            -f < 2 * (p - n * f) < f,
    ;
}

/// A duty cycle is a share: it is never more than 1000, all of the period is
/// 1000 and none of it 0.
pub proof fn lemma_duty_share(high: u32, period: u32)
    ensures
        0 <= duty(high as int, period as int) <= 1000,
        period > 0 ==> duty(period as int, period as int) == 1000,
        duty(0, period as int) == 0,
{
    let p = period as int;
    if p > 0 {
        assert((p * 1000 + p / 2) / p == 1000) by (nonlinear_arith)
            requires
                p > 0,
        ;
        assert((0 + p / 2) / p == 0) by (nonlinear_arith)
            requires
                p > 0,
        ;
        assert((high * 1000 + p / 2) / p >= 0) by (nonlinear_arith)
            requires
                p > 0,
                high >= 0,
        ;
    }
}

/// A duty cycle is the share of the period in thousandths, to half of one.
pub proof fn lemma_duty_exact(high: u32, period: u32)
    requires
        high <= period,
        period > 0,
    ensures
        -(period as int) <= 2 * (duty(high as int, period as int) * period - high * 1000) <= period as int,
{
    crate::num::lemma_nearest(high * 1000, period as int);
    lemma_duty_share(high, period);
    let q = crate::num::nearest(high * 1000, period as int);
    let p = period as int;
    let h = high as int;
    assert(q <= 1000) by (nonlinear_arith)
        requires
            2 * (q * p - h * 1000) <= p,
            h <= p,
            p > 0,
    ;
}

} // verus!
