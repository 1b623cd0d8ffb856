//! The first call of a program: the watchdog, then the peripherals.
use vstd::prelude::*;

use crate::bus::{Bus, Hardware, Step};
use crate::pac::Peripherals;
use crate::watchdog::WdtMode;

verus! {

broadcast use crate::trace::group_growth;

/// What is done about the watchdog.
pub open spec fn watchdog_script(wdt: WdtMode) -> Seq<Step> {
    match wdt {
        WdtMode::Hold => seq![crate::watchdog::keyed(crate::watchdog::HOLD)],
        WdtMode::LeaveRunning => Seq::empty(),
        WdtMode::Arm { source, interval } => seq![
            crate::watchdog::keyed(crate::watchdog::armed(source, interval)),
        ],
    }
}

/// Deals with the watchdog and hands the peripherals out, in that order: the
/// watchdog may be about to reset the chip. The peripherals come on the first
/// call only; the watchdog is dealt with on every one.
pub fn take<H: Hardware>(bus: &mut Bus<H>, wdt: WdtMode) -> (p: Option<Peripherals>)
    ensures
        p is Some <==> !old(bus).taken(),
        final(bus).taken(),
        final(bus)@ == old(bus)@ + watchdog_script(wdt),
        crate::trace::grew(
            old(bus).raw(),
            old(bus).hardware().trace(),
            final(bus).raw(),
            final(bus).hardware().trace(),
        ),
        final(bus).patience() == old(bus).patience(),
        old(bus).traced() ==> final(bus).traced(),
{
    match wdt {
        WdtMode::Hold => {
            crate::watchdog::disable(bus);
        },
        WdtMode::LeaveRunning => {},
        WdtMode::Arm { source, interval } => {
            crate::watchdog::arm(bus, source, interval);
        },
    }
    Peripherals::take(bus)
}

/// What becomes of the watchdog, which is written at 0x015C with 0x5A as the upper
/// byte: it is held (bit 7), left alone, or armed.
pub proof fn lemma_watchdog_modes(wdt: WdtMode)
    ensures
        match wdt {
            WdtMode::Hold => watchdog_script(wdt) =~= seq![
                Step::Write16 { addr: 0x015C, value: (0x5A00 + 0x80) as u16 },
            ],
            WdtMode::LeaveRunning => watchdog_script(wdt) =~= Seq::empty(),
            WdtMode::Arm { source, interval } => {
                &&& watchdog_script(wdt).len() == 1
                &&& watchdog_script(wdt)[0] matches Step::Write16 { addr, value }
                &&& addr == 0x015C
                &&& value as int / 0x100 == 0x5A
                &&& value as int % 0x100 < 0x80
            },
        },
{
    match wdt {
        WdtMode::Arm { source, interval } => {
            crate::watchdog::lemma_armed_decoded(source, interval);
        },
        _ => {},
    }
}

} // verus!
