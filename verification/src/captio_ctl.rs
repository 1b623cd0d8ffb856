//! The control word of the capacitive touch block, and frequency from a gated
//! count.
//!
//! The word selects a port (bits 7:4) and a pin (bits 3:1), and enables the
//! oscillator (bit 8). Bit 9 reads as the state of the oscillation.
use vstd::prelude::*;

use crate::num::low32;

verus! {

/// Oscillator enable.
pub const CAPTIOEN: u16 = 0x0100;

/// State of the oscillation.
pub const CAPTIO_STATE: u16 = 0x0200;

/// The word that routes a port and pin.
pub open spec fn routed(posel: int, pisel: int) -> int {
    CAPTIOEN + 16 * posel + 2 * pisel
}

/// The word that enables the oscillator on pin `pisel` of port `posel`, or
/// `None` where one of them exceeds its field.
pub fn ctl_word(posel: u8, pisel: u8) -> (r: Option<u16>)
    ensures
        r == if posel <= 15 && pisel <= 7 {
            Some(routed(posel as int, pisel as int) as u16)
        } else {
            None
        },
{
    if posel > 0x0F || pisel > 0x07 {
        return None;
    }
    Some(CAPTIOEN + 16 * (posel as u16) + 2 * (pisel as u16))
}

/// The frequency of which `counts` cycles came in `gate_ticks` ticks of a clock
/// of `tick_hz`, to the nearest; 0 for a gate of no ticks.
pub fn hz_from_gate(counts: u16, gate_ticks: u16, tick_hz: u32) -> (r: u32)
    ensures
        r == gate_frequency(counts, gate_ticks, tick_hz),
{
    if gate_ticks == 0 {
        return 0;
    }
    assert(0 <= counts * tick_hz <= 0xFFFF * 0xFFFF_FFFF) by (nonlinear_arith)
        requires
            0 <= counts <= 0xFFFF,
            0 <= tick_hz <= 0xFFFF_FFFF,
    ;
    let num: u64 = counts as u64 * tick_hz as u64;
    let den: u64 = gate_ticks as u64;
    low32((num + den / 2) / den)
}

/// The frequency of a gated count.
pub open spec fn gate_frequency(counts: u16, gate_ticks: u16, tick_hz: u32) -> int {
    if gate_ticks == 0 {
        0
    } else {
        crate::num::nearest(counts * tick_hz, gate_ticks as int) % 0x1_0000_0000
    }
}

/// The words of successive pins of a port differ by 2.
pub proof fn lemma_next_pin(posel: int, pisel: int)
    ensures
        routed(posel, pisel + 1) == routed(posel, pisel) + 2,
{
}

/// A word tells its port and pin, and leaves the state bit alone.
pub proof fn lemma_word_tells_pad(posel: int, pisel: int)
    requires
        0 <= posel <= 15,
        0 <= pisel <= 7,
    ensures
        routed(posel, pisel) / 16 % 16 == posel,
        routed(posel, pisel) / 2 % 8 == pisel,
        CAPTIOEN <= routed(posel, pisel) < CAPTIO_STATE,
{
}

/// A gate of exactly one second of the clock counts the frequency itself.
pub proof fn lemma_one_second_gate(counts: u16, gate_ticks: u16)
    requires
        gate_ticks > 0,
    ensures
        gate_frequency(counts, gate_ticks, gate_ticks as u32) == counts,
{
    let g = gate_ticks as int;
    assert((counts * g + g / 2) / g == counts) by (nonlinear_arith)
        requires
            g > 0,
    ;
}

/// What the block makes of a control word: bit 8 lets the pad oscillate, and
/// below it stand the port, in bits 7:4, and the pin, in bits 3:1, and nothing
/// else.
pub proof fn lemma_word_lets_oscillate(posel: int, pisel: int)
    requires
        0 <= posel <= 15,
        0 <= pisel <= 7,
    ensures
        routed(posel, pisel) / 0x100 == 1,
        routed(posel, pisel) % 2 == 0,
        CAPTIO_STATE == 0x0200,
{
}

/// The frequency is what was counted over the time in which it was, to half a
/// hertz.
pub proof fn lemma_gate_frequency(counts: u16, gate_ticks: u16, tick_hz: u32)
    requires
        gate_ticks > 0,
        counts * tick_hz < 0x8000_0000,
    ensures
        -(gate_ticks as int) <= 2 * (gate_frequency(counts, gate_ticks, tick_hz) * gate_ticks
            - counts * tick_hz) <= gate_ticks as int,
{
    let a = counts * tick_hz;
    let b = gate_ticks as int;
    let q = crate::num::nearest(a, b);
    crate::num::lemma_nearest(a, b);
    assert(a >= 0) by (nonlinear_arith)
        requires
            a == counts * tick_hz,
            counts >= 0,
            tick_hz >= 0,
    ;
    assert(0 <= q < 0x1_0000_0000) by (nonlinear_arith)
        requires
            0 <= a < 0x8000_0000,
            b >= 1,
            -b <= 2 * (q * b - a) <= b,
    ;
}

} // verus!
