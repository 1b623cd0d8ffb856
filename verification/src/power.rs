//! Low-power modes.
//!
//! A mode is a set of bits in the status register; the same instruction that
//! sets them lets interrupts in, so that none is lost in between. In LPM3.5 and
//! LPM4.5 the core has no power at all: leaving them is a reset.
use vstd::prelude::*;

use crate::bus::{Bus, Hardware, Stalled, Step};
use crate::memory::Memory;
use crate::pac::Pmm;

verus! {

broadcast use crate::trace::group_growth;

/// Power control, low byte.
pub const PMMCTL0_L: u32 = 0x0120;

/// Power control, key.
pub const PMMCTL0_H: u32 = 0x0121;

/// Opens the power registers.
pub const PMMPW_H: u8 = 0xA5;

/// The regulator goes off with the CPU.
pub const PMMREGOFF: u8 = 0x10;

/// Interrupts in, CPU off.
pub const LPM0_GIE: u16 = 0x0018;

/// Besides, both clock generators off.
pub const LPM3_GIE: u16 = 0x00D8;

/// Besides, the crystal off.
pub const LPM4_GIE: u16 = 0x00F8;

/// Sleeps with the CPU off, until an interrupt wakes it.
pub fn enter_lpm0<H: Hardware>(bus: &mut Bus<H>)
    ensures
        final(bus).ran(*old(bus), seq![Step::Sleep { mode: LPM0_GIE }]),
{
    bus.sleep(LPM0_GIE);
}

/// Sleeps with only the crystal on, until an interrupt wakes the CPU.
pub fn enter_lpm3<H: Hardware>(bus: &mut Bus<H>)
    ensures
        final(bus).ran(*old(bus), seq![Step::Sleep { mode: LPM3_GIE }]),
{
    bus.sleep(LPM3_GIE);
}

/// Sleeps with no clock at all, until a pin wakes the CPU.
pub fn enter_lpm4<H: Hardware>(bus: &mut Bus<H>)
    ensures
        final(bus).ran(*old(bus), seq![Step::Sleep { mode: LPM4_GIE }]),
{
    bus.sleep(LPM4_GIE);
}

/// The regulator set to go off, between opening and closing the registers.
pub open spec fn regulator_off_script() -> Seq<Step> {
    seq![
        Step::Write8 { addr: PMMCTL0_H, value: PMMPW_H },
        Step::Edit8 { addr: PMMCTL0_L, clear: 0, set: PMMREGOFF },
        Step::Write8 { addr: PMMCTL0_H, value: 0 },
    ]
}

/// The power switched off, `times` times in a row.
pub open spec fn power_off_script(mode: u16, times: u64) -> Seq<Step> {
    regulator_off_script() + Seq::new(times as nat, |i: int| Step::Sleep { mode })
}

fn set_regulator_off<H: Hardware>(_pmm: &Pmm, bus: &mut Bus<H>)
    ensures
        final(bus).ran(*old(bus), regulator_off_script()),
{
    bus.write8(PMMCTL0_H, PMMPW_H);
    bus.edit8(PMMCTL0_L, 0, PMMREGOFF);
    bus.write8(PMMCTL0_H, 0);
}

/// Switches the power off. That takes effect at the first try unless an
/// interrupt comes first; then it is tried again. A return means that the
/// power never went off.
fn power_off<H: Hardware>(pmm: &Pmm, bus: &mut Bus<H>, mode: u16) -> (r: Stalled)
    ensures
        final(bus).ran(*old(bus), power_off_script(mode, old(bus).patience())),
{
    let tries: u64 = bus.attempts();
    set_regulator_off(pmm, bus);
    let mut i: u64 = 0;
    assert(power_off_script(mode, 0) =~= regulator_off_script());
    while i < tries
        invariant
            i <= tries,
            bus.ran(*old(bus), power_off_script(mode, i)),
        decreases tries - i,
    {
        bus.sleep(mode);
        assert(power_off_script(mode, (i + 1) as u64) =~= power_off_script(mode, i).push(
            Step::Sleep { mode },
        ));
        i = i + 1;
    }
    Stalled
}

/// Switches off everything but the real-time clock, which can wake the chip by
/// a reset.
pub fn enter_lpm3_5<H: Hardware>(pmm: &Pmm, bus: &mut Bus<H>) -> (r: Stalled)
    ensures
        final(bus).ran(*old(bus), power_off_script(LPM3_GIE, old(bus).patience())),
{
    power_off(pmm, bus, LPM3_GIE)
}

/// Switches off everything; only a pin can wake the chip, by a reset.
pub fn enter_lpm4_5<H: Hardware>(pmm: &Pmm, bus: &mut Bus<H>) -> (r: Stalled)
    ensures
        final(bus).ran(*old(bus), power_off_script(LPM4_GIE, old(bus).patience())),
{
    power_off(pmm, bus, LPM4_GIE)
}

/// The power control byte is changed only between the key and the write that
/// closes the registers again, and the CPU goes off only after that.
pub proof fn lemma_regulator_bracketed(mode: u16, times: u64, i: int)
    requires
        0 <= i < power_off_script(mode, times).len(),
    ensures
        ({
            let script = power_off_script(mode, times);
            &&& script[0] == (Step::Write8 { addr: PMMCTL0_H, value: PMMPW_H })
            &&& script[2] == (Step::Write8 { addr: PMMCTL0_H, value: 0 })
            &&& script[i] matches Step::Edit8 { .. } ==> i == 1
            &&& script[i] matches Step::Sleep { .. } ==> i > 2
        }),
{
}

/// The sleep modes as bits of the status register: all let interrupts wake the
/// CPU (bit 3) and stop it (bit 4); from mode 3 on the generators and the fast
/// clocks stop too (bits 6 and 7), and in mode 4 also the slow clock (bit 5).
pub proof fn lemma_sleep_modes()
    ensures
        LPM0_GIE == 8 + 16,
        LPM3_GIE == LPM0_GIE + 64 + 128,
        LPM4_GIE == LPM3_GIE + 32,
{
}

/// The regulator goes off: bit 4 of the control byte at 0x0120 is set, its other
/// bits stay, and the registers, opened with 0xA5 at 0x0121, are closed again.
pub proof fn lemma_regulator_on_registers(m: Memory)
    ensures
        ({
            let script = regulator_off_script();
            let after = crate::memory::memory_after(m, script);
            &&& script[0] == (Step::Write8 { addr: 0x0121, value: 0xA5 })
            &&& after(0x0120) == m(0x0120) | 16
            &&& after(0x0121) == 0
        }),
{
    let script = regulator_off_script();
    crate::memory::lemma_memory_at(m, script);
    reveal_with_fuel(crate::memory::memory_at, 4);
    let p = m(0x0120);
    assert((p & !0u8) | 16 == p | 16) by (bit_vector);
}

/// Where the registers lie, and which bits and values they have.
pub proof fn lemma_layout()
    ensures
        PMMCTL0_L == 0x0120,
        PMMCTL0_H == 0x0121,
        PMMPW_H == 165,
        PMMREGOFF == 16,
        LPM0_GIE == 24,
        LPM3_GIE == 216,
        LPM4_GIE == 248,
{
}

} // verus!
