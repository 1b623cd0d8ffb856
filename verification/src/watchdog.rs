//! The watchdog, which resets the chip unless it is fed in time.
//!
//! It runs from power-up, for about 32 ms, so it has to be dealt with first.
//! Each write to its register must carry a key in the high byte or it resets
//! the chip, and a read returns something else there; so all writes here are
//! whole words made from the key.
use vstd::prelude::*;

use crate::bus::{Bus, Hardware, Step};
use crate::pac::WatchdogTimer;

verus! {

broadcast use crate::trace::group_growth;

/// The register.
pub const WDTCTL: u32 = 0x015C;

/// The key of a write.
pub const PASSWORD: u16 = 0x5A00;

/// Stopped.
pub const HOLD: u8 = 0x80;

/// Count from zero.
pub const CNTCL: u8 = 0x08;

/// What is done about the watchdog at boot.
#[derive(Clone, Copy, PartialEq, Eq, Structural, Debug)]
pub enum WdtMode {
    /// It is stopped.
    Hold,
    /// It is left alone.
    LeaveRunning,
    /// It is started anew.
    Arm {
        /// From this clock.
        source: ClockSource,
        /// For this long.
        interval: Interval,
    },
}

/// What the watchdog counts.
#[derive(Clone, Copy, PartialEq, Eq, Structural, Debug)]
pub enum ClockSource {
    /// SMCLK, which stops in LPM3.
    Smclk,
    /// ACLK.
    Aclk,
    /// The slow internal oscillator.
    Vloclk,
}

impl ClockSource {
    /// The selection field.
    pub open spec fn field(self) -> u8 {
        match self {
            ClockSource::Smclk => 0x00,
            ClockSource::Aclk => 0x20,
            ClockSource::Vloclk => 0x40,
        }
    }
}

/// How long the watchdog counts.
#[derive(Clone, Copy, PartialEq, Eq, Structural, Debug)]
pub enum Interval {
    /// 2^31 cycles.
    Cycles2G,
    /// 2^27 cycles.
    Cycles128M,
    /// 2^23 cycles.
    Cycles8192K,
    /// 2^19 cycles.
    Cycles512K,
    /// 2^15 cycles.
    Cycles32K,
    /// 2^13 cycles.
    Cycles8192,
    /// 2^9 cycles.
    Cycles512,
    /// 2^6 cycles.
    Cycles64,
}

impl Interval {
    /// The selection field.
    pub open spec fn field(self) -> u8 {
        match self {
            Interval::Cycles2G => 0,
            Interval::Cycles128M => 1,
            Interval::Cycles8192K => 2,
            Interval::Cycles512K => 3,
            Interval::Cycles32K => 4,
            Interval::Cycles8192 => 5,
            Interval::Cycles512 => 6,
            Interval::Cycles64 => 7,
        }
    }
}

/// A write of this configuration.
pub open spec fn keyed(low: u8) -> Step {
    Step::Write16 { addr: WDTCTL, value: (PASSWORD + low) as u16 }
}

/// The configuration that counts from zero.
pub open spec fn armed(source: ClockSource, interval: Interval) -> u8 {
    (source.field() + interval.field() + CNTCL) as u8
}

/// The configuration read and written back with `more` bits.
pub open spec fn update_script(config: u8, more: u8) -> Seq<Step> {
    seq![Step::Low8 { addr: WDTCTL, value: config }, keyed(config | more)]
}

fn write_ctl<H: Hardware>(bus: &mut Bus<H>, low: u8)
    ensures
        final(bus).ran(*old(bus), seq![keyed(low)]),
{
    bus.write16(WDTCTL, PASSWORD + low as u16);
}

fn cfg_bits(source: ClockSource, interval: Interval) -> (r: u8)
    ensures
        r == source.field() + interval.field(),
        r <= 0x47,
{
    let source: u8 = match source {
        ClockSource::Smclk => 0x00,
        ClockSource::Aclk => 0x20,
        ClockSource::Vloclk => 0x40,
    };
    let interval: u8 = match interval {
        Interval::Cycles2G => 0,
        Interval::Cycles128M => 1,
        Interval::Cycles8192K => 2,
        Interval::Cycles512K => 3,
        Interval::Cycles32K => 4,
        Interval::Cycles8192 => 5,
        Interval::Cycles512 => 6,
        Interval::Cycles64 => 7,
    };
    source + interval
}

/// Stops the watchdog. It needs no peripheral, so that it can come first.
pub fn disable<H: Hardware>(bus: &mut Bus<H>)
    ensures
        final(bus).ran(*old(bus), seq![keyed(HOLD)]),
{
    write_ctl(bus, HOLD);
}

/// Starts the watchdog anew, before there is a peripheral.
pub(crate) fn arm<H: Hardware>(bus: &mut Bus<H>, source: ClockSource, interval: Interval)
    ensures
        final(bus).ran(*old(bus), seq![keyed(armed(source, interval))]),
{
    write_ctl(bus, cfg_bits(source, interval) + CNTCL);
}

/// Resets the chip, by a write without the key. A return means that the chip
/// has not reset yet.
pub fn force_reset<H: Hardware>(bus: &mut Bus<H>)
    ensures
        final(bus).ran(*old(bus), seq![Step::Write16 { addr: WDTCTL, value: 0 }]),
{
    bus.write16(WDTCTL, 0);
}

/// The watchdog.
pub struct Watchdog {
    wdt: WatchdogTimer,
}

impl Watchdog {
    /// The peripheral.
    pub closed spec fn owned(self) -> WatchdogTimer {
        self.wdt
    }

    /// Takes the watchdog, as it is.
    pub fn new(wdt: WatchdogTimer) -> (r: Self)
        ensures
            r.owned() == wdt,
    {
        Watchdog { wdt }
    }

    fn read_cfg<H: Hardware>(&self, bus: &mut Bus<H>) -> (r: u8)
        ensures
            final(bus).ran(*old(bus), seq![Step::Low8 { addr: WDTCTL, value: r }]),
    {
        bus.low8(WDTCTL)
    }

    /// Starts counting from zero. It has to be fed in time from now on.
    pub fn start<H: Hardware>(&mut self, bus: &mut Bus<H>, source: ClockSource, interval: Interval)
        ensures
            *final(self) == *old(self),
            final(bus).ran(*old(bus), seq![keyed(armed(source, interval))]),
    {
        write_ctl(bus, cfg_bits(source, interval) + CNTCL);
    }

    /// Counts from zero again.
    pub fn feed<H: Hardware>(&mut self, bus: &mut Bus<H>)
        ensures
            *final(self) == *old(self),
            exists|config: u8| final(bus).ran(*old(bus), #[trigger] update_script(config, CNTCL)),
    {
        let config: u8 = self.read_cfg(bus);
        write_ctl(bus, config | CNTCL);
        assert(bus.ran(*old(bus), update_script(config, CNTCL)));
    }

    /// Stops it and keeps its configuration.
    pub fn stop<H: Hardware>(&mut self, bus: &mut Bus<H>)
        ensures
            *final(self) == *old(self),
            exists|config: u8| final(bus).ran(*old(bus), #[trigger] update_script(config, HOLD)),
    {
        let config: u8 = self.read_cfg(bus);
        write_ctl(bus, config | HOLD);
        assert(bus.ran(*old(bus), update_script(config, HOLD)));
    }

    /// Stops it, because nobody will feed it, and gives the peripheral back.
    pub fn free<H: Hardware>(self, bus: &mut Bus<H>) -> (r: WatchdogTimer)
        ensures
            r == self.owned(),
            exists|config: u8| final(bus).ran(*old(bus), #[trigger] update_script(config, HOLD)),
    {
        let mut this = self;
        this.stop(bus);
        this.wdt
    }
}

/// Every configuration is written with the key, whatever it is: the high byte
/// of the word is the key and the low byte the configuration.
pub proof fn lemma_writes_keyed(low: u8)
    ensures
        keyed(low) matches Step::Write16 { addr, value } && addr == WDTCTL && value / 256 == 0x5A
            && value % 256 == low,
{
}

/// Feeding keeps the clock, the interval and whether it is stopped; stopping
/// keeps the clock and the interval; starting lets it run.
pub proof fn lemma_updates_keep(config: u8, source: ClockSource, interval: Interval)
    ensures
        (config | CNTCL) & 0xE7 == config & 0xE7,
        (config | HOLD) & 0x67 == config & 0x67,
        (config | HOLD) & HOLD == HOLD,
        armed(source, interval) < HOLD,
{
    assert((config | 0x08) & 0xE7 == config & 0xE7 && (config | 0x80) & 0x67 == config & 0x67 && (
    config | 0x80) & 0x80 == 0x80) by (bit_vector);
}

/// The written configuration tells the clock and the interval.
pub proof fn lemma_configuration_told(
    source1: ClockSource,
    interval1: Interval,
    source2: ClockSource,
    interval2: Interval,
)
    requires
        armed(source1, interval1) == armed(source2, interval2),
    ensures
        source1 == source2,
        interval1 == interval2,
{
}

/// What the watchdog makes of an armed configuration: it runs (bit 7 clear) as a
/// watchdog (bit 4 clear), from zero (bit 3), from SMCLK (0 in bits 6:5), ACLK (1)
/// or the slow oscillator (2), and for as many cycles as two to the power that
/// bits 2:0 stand for. It is written to 0x015C, with 0x5A as the upper byte.
pub proof fn lemma_armed_decoded(source: ClockSource, interval: Interval)
    ensures
        ({
            let config = armed(source, interval) as int;
            &&& config / 32 == match source {
                ClockSource::Smclk => 0int,
                ClockSource::Aclk => 1,
                ClockSource::Vloclk => 2,
            }
            &&& config / 8 % 4 == 1
            &&& cycle_power(config % 8) == match interval {
                Interval::Cycles2G => 31int,
                Interval::Cycles128M => 27,
                Interval::Cycles8192K => 23,
                Interval::Cycles512K => 19,
                Interval::Cycles32K => 15,
                Interval::Cycles8192 => 13,
                Interval::Cycles512 => 9,
                Interval::Cycles64 => 6,
            }
        }),
        keyed(armed(source, interval)) == (Step::Write16 {
            addr: 0x015C,
            value: (0x5A00 + armed(source, interval)) as u16,
        }),
{
}

/// The power of two that an interval field stands for.
pub open spec fn cycle_power(field: int) -> int {
    if field == 0 {
        31
    } else if field == 1 {
        27
    } else if field == 2 {
        23
    } else if field == 3 {
        19
    } else if field == 4 {
        15
    } else if field == 5 {
        13
    } else if field == 6 {
        9
    } else {
        6
    }
}

/// An update reads the configuration and writes it back with the key and the new
/// bits: bit 3 starts the count again, bit 7 holds it.
pub proof fn lemma_update_steps(config: u8, more: u8)
    ensures
        update_script(config, more) =~= seq![
            Step::Low8 { addr: 0x015C, value: config },
            Step::Write16 { addr: 0x015C, value: (0x5A00 + (config | more)) as u16 },
        ],
        CNTCL == 8,
        HOLD == 128,
{
}

} // verus!
