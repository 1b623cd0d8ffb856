//! Conversion between timer ticks and time.
use vstd::prelude::*;

use crate::num::low32;

verus! {

/// Whole microseconds in `ticks`.
pub open spec fn us_in(ticks: int, tick_hz: int) -> int {
    ticks * 1_000_000 / tick_hz
}

/// Whole nanoseconds in `ticks`.
pub open spec fn ns_in(ticks: int, tick_hz: int) -> int {
    ticks * 1_000_000_000 / tick_hz
}

/// Microseconds in `ticks`, rounded down; what the word cannot hold is cut
/// off.
pub fn ticks_to_us(ticks: u32, tick_hz: u32) -> (r: u32)
    requires
        tick_hz > 0,
    ensures
        r == us_in(ticks as int, tick_hz as int) % 0x1_0000_0000,
{
    low32(ticks as u64 * 1_000_000 / tick_hz as u64)
}

/// Nanoseconds in `ticks`, rounded down; what the word cannot hold is cut
/// off.
pub fn ticks_to_ns(ticks: u32, tick_hz: u32) -> (r: u32)
    requires
        tick_hz > 0,
    ensures
        r == ns_in(ticks as int, tick_hz as int) % 0x1_0000_0000,
{
    low32(ticks as u64 * 1_000_000_000 / tick_hz as u64)
}

/// Whole ticks in `us` microseconds.
pub open spec fn ticks_in(us: int, tick_hz: int) -> int {
    us * tick_hz / 1_000_000
}

/// Ticks in `us` microseconds, rounded down, or `None` where a 16-bit compare
/// cannot hold them.
pub fn us_to_ticks(us: u32, tick_hz: u32) -> (r: Option<u16>)
    ensures
        r == if ticks_in(us as int, tick_hz as int) <= u16::MAX {
            Some(ticks_in(us as int, tick_hz as int) as u16)
        } else {
            None
        },
{
    assert(0 <= us * tick_hz <= 0xFFFF_FFFF * 0xFFFF_FFFF) by (nonlinear_arith)
        requires
            0 <= us <= 0xFFFF_FFFF,
            0 <= tick_hz <= 0xFFFF_FFFF,
    ;
    let ticks: u64 = us as u64 * tick_hz as u64 / 1_000_000;
    if ticks > 0xFFFF {
        None
    } else {
        Some(ticks as u16)
    }
}

/// The number of overflows and the counter joined to one timestamp.
pub open spec fn joined(overflows: u16, cnt: u16) -> int {
    overflows * 0x1_0000 + cnt
}

/// Joins the number of overflows and the counter to one timestamp.
pub fn assemble_now64(overflows: u16, cnt: u16) -> (r: u32)
    ensures
        r == joined(overflows, cnt),
{
    overflows as u32 * 0x1_0000 + cnt as u32
}

/// Time turned into ticks and back never grows, and what is lost is less than
/// a tick (which is 1 000 000 / `tick_hz` microseconds) and a microsecond.
pub proof fn lemma_us_round_trip(us: u32, tick_hz: u32)
    requires
        tick_hz > 0,
    ensures
        ({
            let t = ticks_in(us as int, tick_hz as int);
            let back = us_in(t, tick_hz as int);
            &&& back <= us
            &&& (us - back) * tick_hz < 1_000_000 + tick_hz
        }),
{
    let u = us as int;
    let f = tick_hz as int;
    let t = u * f / 1_000_000;
    let back = t * 1_000_000 / f;
    assert(1_000_000 * t <= u * f < 1_000_000 * t + 1_000_000);
    assert(f * back <= 1_000_000 * t < f * back + f) by (nonlinear_arith)
        requires
            f > 0,
            back == t * 1_000_000 / f,
    ;
    assert(back <= u) by (nonlinear_arith)
        requires
            f > 0,
            f * back <= u * f,
    ;
    assert((u - back) * f < 1_000_000 + f) by (nonlinear_arith)
        requires
            u * f < 1_000_000 * t + 1_000_000,
            1_000_000 * t < f * back + f,
    ;
}

/// Timestamps are ordered by overflows first and by the counter within one.
pub proof fn lemma_timestamps_ordered(o1: u16, c1: u16, o2: u16, c2: u16)
    ensures
        joined(o1, c1) < joined(o2, c2) <==> o1 < o2 || (o1 == o2 && c1 < c2),
{
}

/// A microsecond is `tick_hz` / 1 000 000 ticks, and a nanosecond a thousandth of
/// that: conversions are exact but for what is less than one of the unit.
pub proof fn lemma_units(n: u32, tick_hz: u32)
    requires
        tick_hz > 0,
    ensures
        us_in(n as int, tick_hz as int) * tick_hz <= n * 1_000_000 < (us_in(
            n as int,
            tick_hz as int,
        ) + 1) * tick_hz,
        ns_in(n as int, tick_hz as int) * tick_hz <= n * 1_000_000_000 < (ns_in(
            n as int,
            tick_hz as int,
        ) + 1) * tick_hz,
        ticks_in(n as int, tick_hz as int) * 1_000_000 <= n * tick_hz < (ticks_in(
            n as int,
            tick_hz as int,
        ) + 1) * 1_000_000,
{
    let h = tick_hz as int;
    let a = n * 1_000_000;
    let b = n * 1_000_000_000;
    let q = a / h;
    let r = b / h;
    assert(q * h <= a < (q + 1) * h) by (nonlinear_arith)
        requires
            h > 0,
            q == a / h,
    ;
    assert(r * h <= b < (r + 1) * h) by (nonlinear_arith)
        requires
            h > 0,
            r == b / h,
    ;
}

/// The count of overflows and the counter are the high and the low word of the
/// time.
pub proof fn lemma_words_of_time(time: int)
    requires
        0 <= time < 0x1_0000_0000,
    ensures
        joined((time / 0x1_0000) as u16, (time % 0x1_0000) as u16) == time,
{
}

} // verus!
