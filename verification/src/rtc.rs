//! The real-time clock: a calendar in hardware.
//!
//! It keeps correct time only from the 32768 Hz crystal, so it is refused on
//! any other clock. The fields are binary and the hour is out of 24. The
//! registers change together once a second; a flag says when they do not, and
//! [`Rtc::now`] reads only under it.
use vstd::prelude::*;

use crate::bus::{Bus, Cond, Hardware, Stalled, Step};
use crate::memory::Memory;
use crate::clocks::Clocks;
use crate::pac::RtcBRealTimeClock;
pub use crate::rtc_alarm::{alarm_matches, Alarm, AlarmError};

verus! {

broadcast use crate::trace::group_growth;

/// Control.
pub const RTCCTL01: u32 = 0x04A0;

/// Interrupt vector.
pub const RTCIV: u32 = 0x04AE;

/// Second.
pub const RTCSEC: u32 = 0x04B0;

/// Minute.
pub const RTCMIN: u32 = 0x04B1;

/// Hour.
pub const RTCHOUR: u32 = 0x04B2;

/// Day of the week.
pub const RTCDOW: u32 = 0x04B3;

/// Day of the month.
pub const RTCDAY: u32 = 0x04B4;

/// Month.
pub const RTCMON: u32 = 0x04B5;

/// Year.
pub const RTCYEAR: u32 = 0x04B6;

/// Alarm minute.
pub const RTCAMIN: u32 = 0x04B8;

/// Alarm hour.
pub const RTCAHOUR: u32 = 0x04B9;

/// Alarm day of the week.
pub const RTCADOW: u32 = 0x04BA;

/// Alarm day of the month.
pub const RTCADAY: u32 = 0x04BB;

/// The alarm went off.
pub const RTCAIFG: u16 = 0x0002;

/// A time event came.
pub const RTCTEVIFG: u16 = 0x0004;

/// Interrupt once a second.
pub const RTCRDYIE: u16 = 0x0010;

/// Interrupt at the alarm.
pub const RTCAIE: u16 = 0x0020;

/// Interrupt at the time event.
pub const RTCTEVIE: u16 = 0x0040;

/// Selection of the time event.
pub const RTCTEV_MASK: u16 = 0x0300;

/// The registers may be read.
pub const RTCRDY: u16 = 0x1000;

/// The calendar stands still.
pub const RTCHOLD: u16 = 0x4000;

/// The fields are decimal.
pub const RTCBCD: u16 = 0x8000;

/// The clock that the calendar needs.
pub const CRYSTAL_HZ: u32 = 32_768;

/// A date and time.
#[derive(Clone, Copy, PartialEq, Eq, Structural, Debug)]
pub struct DateTime {
    /// Year, up to 4095.
    pub year: u16,
    /// Month, from 1 to 12.
    pub month: u8,
    /// Day of the month, from 1 to 31.
    pub day: u8,
    /// Day of the week, up to 6.
    pub weekday: u8,
    /// Hour, up to 23.
    pub hour: u8,
    /// Minute, up to 59.
    pub minute: u8,
    /// Second, up to 59.
    pub second: u8,
}

/// Why the calendar was not started.
#[derive(Clone, Copy, PartialEq, Eq, Structural, Debug)]
pub enum Error {
    /// ACLK is not at 32768 Hz.
    ClockNot32768,
}

/// A recurring event.
#[derive(Clone, Copy, PartialEq, Eq, Structural, Debug)]
pub enum Event {
    /// Each change of minute.
    MinuteChanged,
    /// Each change of hour.
    HourChanged,
    /// Midnight.
    Midnight,
    /// Noon.
    Noon,
}

impl Event {
    /// The selection field.
    pub open spec fn field(self) -> u16 {
        match self {
            Event::MinuteChanged => 0x0000,
            Event::HourChanged => 0x0100,
            Event::Midnight => 0x0200,
            Event::Noon => 0x0300,
        }
    }

    fn bits(self) -> (r: u16)
        ensures
            r == self.field(),
    {
        match self {
            Event::MinuteChanged => 0x0000,
            Event::HourChanged => 0x0100,
            Event::Midnight => 0x0200,
            Event::Noon => 0x0300,
        }
    }
}

/// The calendar stopped; `other` are further bits to clear.
pub open spec fn hold_step(other: u16) -> Step {
    Step::Edit16 { addr: RTCCTL01, clear: other, set: RTCHOLD }
}

/// The calendar started.
pub open spec fn run_step() -> Step {
    Step::Edit16 { addr: RTCCTL01, clear: RTCHOLD, set: 0 }
}

/// The calendar written.
pub open spec fn calendar_writes(dt: DateTime) -> Seq<Step> {
    seq![
        Step::Write8 { addr: RTCSEC, value: dt.second },
        Step::Write8 { addr: RTCMIN, value: dt.minute },
        Step::Write8 { addr: RTCHOUR, value: dt.hour },
        Step::Write8 { addr: RTCDOW, value: dt.weekday },
        Step::Write8 { addr: RTCDAY, value: dt.day },
        Step::Write8 { addr: RTCMON, value: dt.month },
        Step::Write16 { addr: RTCYEAR, value: dt.year },
    ]
}

/// The calendar read.
pub open spec fn calendar_reads(dt: DateTime) -> Seq<Step> {
    seq![
        Step::Read8 { addr: RTCSEC, value: dt.second },
        Step::Read8 { addr: RTCMIN, value: dt.minute },
        Step::Read8 { addr: RTCHOUR, value: dt.hour },
        Step::Read8 { addr: RTCDOW, value: dt.weekday },
        Step::Read8 { addr: RTCDAY, value: dt.day },
        Step::Read8 { addr: RTCMON, value: dt.month },
        Step::Read16 { addr: RTCYEAR, value: dt.year },
    ]
}

/// The calendar stopped, written and started.
pub open spec fn load_script(dt: DateTime, other: u16) -> Seq<Step> {
    seq![hold_step(other)] + calendar_writes(dt) + seq![run_step()]
}

/// The alarm registers written. The alarm interrupt is off meanwhile, and what
/// a mix of old and new fields may have set off is dropped at the end.
pub open spec fn alarm_script(regs: crate::rtc_alarm::AlarmRegs) -> Seq<Step> {
    seq![
        Step::Edit16 { addr: RTCCTL01, clear: RTCAIE, set: 0 },
        Step::Write8 { addr: RTCAMIN, value: regs.minute },
        Step::Write8 { addr: RTCAHOUR, value: regs.hour },
        Step::Write8 { addr: RTCADOW, value: regs.weekday },
        Step::Write8 { addr: RTCADAY, value: regs.day },
        Step::Edit16 { addr: RTCCTL01, clear: RTCAIFG, set: 0 },
    ]
}

/// The look at whether the registers may be read.
pub open spec fn ready_look(ready: bool) -> Step {
    Step::Test16 { addr: RTCCTL01, cond: Cond::all_set(RTCRDY), holds: ready }
}

/// A reading of the calendar that cannot be used: the registers were about to
/// change, or changed while they were read.
pub enum Miss {
    /// Not read.
    Changing,
    /// Read, but changed meanwhile.
    Torn(DateTime),
}

/// The steps of such a reading.
pub open spec fn miss_script(miss: Miss) -> Seq<Step> {
    match miss {
        Miss::Changing => seq![ready_look(false)],
        Miss::Torn(dt) => seq![ready_look(true)] + calendar_reads(dt) + seq![ready_look(false)],
    }
}

/// The steps of several such readings.
pub open spec fn misses_script(misses: Seq<Miss>) -> Seq<Step>
    decreases misses.len(),
{
    if misses.len() == 0 {
        Seq::empty()
    } else {
        misses_script(misses.drop_last()) + miss_script(misses.last())
    }
}

/// A reading that can be used, after some that cannot: the registers were
/// stable before it and after it.
pub open spec fn now_script(misses: Seq<Miss>, dt: DateTime) -> Seq<Step> {
    misses_script(misses) + seq![ready_look(true)] + calendar_reads(dt) + seq![ready_look(true)]
}

/// The calendar.
pub struct Rtc {
    rtc: RtcBRealTimeClock,
}

impl Rtc {
    /// The peripheral.
    pub closed spec fn owned(self) -> RtcBRealTimeClock {
        self.rtc
    }

    /// Sets the calendar and starts it.
    pub fn new<H: Hardware>(
        rtc: RtcBRealTimeClock,
        bus: &mut Bus<H>,
        clocks: &Clocks,
        init: &DateTime,
    ) -> (r: Result<Self, Error>)
        ensures
            clocks@.aclk == CRYSTAL_HZ <==> r is Ok,
            r matches Ok(this) ==> this.owned() == rtc,
            final(bus).ran(
                *old(bus),
                if clocks@.aclk == CRYSTAL_HZ {
                    load_script(*init, RTCBCD)
                } else {
                    Seq::empty()
                },
            ),
    {
        if clocks.aclk() != CRYSTAL_HZ {
            return Err(Error::ClockNot32768);
        }
        bus.edit16(RTCCTL01, RTCBCD, RTCHOLD);
        let this = Rtc { rtc };
        this.write_calendar(bus, init);
        bus.edit16(RTCCTL01, RTCHOLD, 0);
        Ok(this)
    }

    /// Takes over a calendar that ran through LPM3.5 and stood still since the
    /// wake-up, and starts it again.
    pub fn attach<H: Hardware>(rtc: RtcBRealTimeClock, bus: &mut Bus<H>, clocks: &Clocks) -> (r:
        Result<Self, Error>)
        ensures
            clocks@.aclk == CRYSTAL_HZ <==> r is Ok,
            r matches Ok(this) ==> this.owned() == rtc,
            final(bus).ran(
                *old(bus),
                if clocks@.aclk == CRYSTAL_HZ {
                    seq![run_step()]
                } else {
                    Seq::empty()
                },
            ),
    {
        if clocks.aclk() != CRYSTAL_HZ {
            return Err(Error::ClockNot32768);
        }
        bus.edit16(RTCCTL01, RTCHOLD, 0);
        Ok(Rtc { rtc })
    }

    /// Sets the calendar.
    pub fn set<H: Hardware>(&mut self, bus: &mut Bus<H>, dt: &DateTime)
        ensures
            *final(self) == *old(self),
            final(bus).ran(*old(bus), load_script(*dt, 0)),
    {
        bus.edit16(RTCCTL01, 0, RTCHOLD);
        self.write_calendar(bus, dt);
        bus.edit16(RTCCTL01, RTCHOLD, 0);
    }

    /// The date and time, read while the registers were stable.
    pub fn now<H: Hardware>(&self, bus: &mut Bus<H>) -> (r: Result<DateTime, Stalled>)
        ensures
            r matches Ok(dt) ==> exists|misses: Seq<Miss>|
                misses.len() < old(bus).patience() && final(bus).ran(
                    *old(bus),
                    #[trigger] now_script(misses, dt),
                ),
            r is Err ==> exists|misses: Seq<Miss>|
                misses.len() == old(bus).patience() && final(bus).ran(
                    *old(bus),
                    #[trigger] misses_script(misses),
                ),
    {
        let tries: u64 = bus.attempts();
        let mut tried: u64 = 0;
        let ghost mut misses: Seq<Miss> = Seq::empty();
        while tried < tries
            invariant
                tried <= tries,
                tries == old(bus).patience(),
                misses.len() == tried,
                bus.ran(*old(bus), misses_script(misses)),
            decreases tries - tried,
        {
            let ghost so_far = misses;
            if self.ready(bus) {
                let snapshot = self.read_calendar(bus);
                if self.ready(bus) {
                    let r: Result<DateTime, Stalled> = Ok(snapshot);
                    assert(r matches Ok(dt) && bus.ran(*old(bus), now_script(misses, dt)));
                    return r;
                }
                proof {
                    misses = misses.push(Miss::Torn(snapshot));
                }
            } else {
                proof {
                    misses = misses.push(Miss::Changing);
                }
            }
            assert(misses.drop_last() =~= so_far);
            assert(bus.ran(*old(bus), misses_script(misses)));
            tried = tried + 1;
        }
        Err(Stalled)
    }

    /// Whether the registers may be read.
    pub fn ready<H: Hardware>(&self, bus: &mut Bus<H>) -> (r: bool)
        ensures
            final(bus).ran(*old(bus), seq![ready_look(r)]),
    {
        bus.is_set16(RTCCTL01, RTCRDY)
    }

    /// Interrupts at each event of a kind.
    pub fn enable_event_interrupt<H: Hardware>(&self, bus: &mut Bus<H>, event: Event)
        ensures
            final(bus).ran(
                *old(bus),
                seq![
                    Step::Edit16 {
                        addr: RTCCTL01,
                        clear: RTCTEV_MASK,
                        set: (event.field() + RTCTEVIE) as u16,
                    },
                ],
            ),
    {
        bus.edit16(RTCCTL01, RTCTEV_MASK, event.bits() + RTCTEVIE);
    }

    /// Interrupts once a second.
    pub fn enable_second_interrupt<H: Hardware>(&self, bus: &mut Bus<H>)
        ensures
            final(bus).ran(
                *old(bus),
                seq![Step::Edit16 { addr: RTCCTL01, clear: 0, set: RTCRDYIE }],
            ),
    {
        bus.edit16(RTCCTL01, 0, RTCRDYIE);
    }

    /// Sets the alarm. Nothing is changed where it is refused.
    pub fn set_alarm<H: Hardware>(&mut self, bus: &mut Bus<H>, alarm: &Alarm) -> (r: Result<
        (),
        AlarmError,
    >)
        ensures
            *final(self) == *old(self),
            match alarm.fault() {
                Some(e) => r == Err::<(), AlarmError>(e) && final(bus).ran(
                    *old(bus),
                    Seq::empty(),
                ),
                None => r is Ok && final(bus).ran(*old(bus), alarm_script(alarm.registers())),
            },
    {
        let regs = match crate::rtc_alarm::encode_alarm(alarm) {
            Ok(regs) => regs,
            Err(e) => {
                return Err(e);
            },
        };
        bus.edit16(RTCCTL01, RTCAIE, 0);
        bus.write8(RTCAMIN, regs.minute);
        bus.write8(RTCAHOUR, regs.hour);
        bus.write8(RTCADOW, regs.weekday);
        bus.write8(RTCADAY, regs.day);
        bus.edit16(RTCCTL01, RTCAIFG, 0);
        Ok(())
    }

    /// Takes the alarm off.
    pub fn disable_alarm<H: Hardware>(&mut self, bus: &mut Bus<H>)
        ensures
            *final(self) == *old(self),
            final(bus).ran(
                *old(bus),
                alarm_script(
                    (crate::rtc_alarm::AlarmRegs { minute: 0, hour: 0, weekday: 0, day: 0 }),
                ),
            ),
    {
        bus.edit16(RTCCTL01, RTCAIE, 0);
        bus.write8(RTCAMIN, 0);
        bus.write8(RTCAHOUR, 0);
        bus.write8(RTCADOW, 0);
        bus.write8(RTCADAY, 0);
        bus.edit16(RTCCTL01, RTCAIFG, 0);
    }

    /// Interrupts at the alarm.
    pub fn enable_alarm_interrupt<H: Hardware>(&self, bus: &mut Bus<H>)
        ensures
            final(bus).ran(
                *old(bus),
                seq![Step::Edit16 { addr: RTCCTL01, clear: 0, set: RTCAIE }],
            ),
    {
        bus.edit16(RTCCTL01, 0, RTCAIE);
    }

    /// Gives the peripheral back; the calendar runs on.
    pub fn free(self) -> (r: RtcBRealTimeClock)
        ensures
            r == self.owned(),
    {
        self.rtc
    }

    fn write_calendar<H: Hardware>(&self, bus: &mut Bus<H>, dt: &DateTime)
        ensures
            final(bus).ran(*old(bus), calendar_writes(*dt)),
    {
        bus.write8(RTCSEC, dt.second);
        bus.write8(RTCMIN, dt.minute);
        bus.write8(RTCHOUR, dt.hour);
        bus.write8(RTCDOW, dt.weekday);
        bus.write8(RTCDAY, dt.day);
        bus.write8(RTCMON, dt.month);
        bus.write16(RTCYEAR, dt.year);
    }

    fn read_calendar<H: Hardware>(&self, bus: &mut Bus<H>) -> (r: DateTime)
        ensures
            final(bus).ran(*old(bus), calendar_reads(r)),
    {
        let second: u8 = bus.read8(RTCSEC);
        let minute: u8 = bus.read8(RTCMIN);
        let hour: u8 = bus.read8(RTCHOUR);
        let weekday: u8 = bus.read8(RTCDOW);
        let day: u8 = bus.read8(RTCDAY);
        let month: u8 = bus.read8(RTCMON);
        let year: u16 = bus.read16(RTCYEAR);
        DateTime { year, month, day, weekday, hour, minute, second }
    }
}

/// Reads the vector register, which clears the flag that it reports: 2 for the
/// second, 4 for a time event, 6 for the alarm, 8 and 10 for the prescalers, 12
/// for a failed oscillator.
pub fn read_iv<H: Hardware>(bus: &mut Bus<H>) -> (iv: u16)
    ensures
        final(bus).ran(*old(bus), seq![Step::Read16 { addr: RTCIV, value: iv }]),
{
    bus.read16(RTCIV)
}

/// Whether a time event came. The vector register does not tell after a
/// wake-up from LPM3.5, because that switches the interrupts off.
pub fn event_irq_pending<H: Hardware>(bus: &mut Bus<H>) -> (r: bool)
    ensures
        final(bus).ran(
            *old(bus),
            seq![Step::Test16 { addr: RTCCTL01, cond: Cond::all_set(RTCTEVIFG), holds: r }],
        ),
{
    bus.is_set16(RTCCTL01, RTCTEVIFG)
}

/// Drops a time event.
pub fn clear_event_irq<H: Hardware>(bus: &mut Bus<H>)
    ensures
        final(bus).ran(
            *old(bus),
            seq![Step::Edit16 { addr: RTCCTL01, clear: RTCTEVIFG, set: 0 }],
        ),
{
    bus.edit16(RTCCTL01, RTCTEVIFG, 0);
}

/// Whether the alarm went off.
pub fn alarm_irq_pending<H: Hardware>(bus: &mut Bus<H>) -> (r: bool)
    ensures
        final(bus).ran(
            *old(bus),
            seq![Step::Test16 { addr: RTCCTL01, cond: Cond::all_set(RTCAIFG), holds: r }],
        ),
{
    bus.is_set16(RTCCTL01, RTCAIFG)
}

/// Drops that; the alarm stays set.
pub fn clear_alarm_irq<H: Hardware>(bus: &mut Bus<H>)
    ensures
        final(bus).ran(
            *old(bus),
            seq![Step::Edit16 { addr: RTCCTL01, clear: RTCAIFG, set: 0 }],
        ),
{
    bus.edit16(RTCCTL01, RTCAIFG, 0);
}

/// Whether the calendar stands still before step `k`.
pub open spec fn held(script: Seq<Step>, k: int) -> bool
    decreases k,
{
    if k <= 0 {
        false
    } else {
        match script[k - 1] {
            Step::Edit16 { addr: RTCCTL01, clear, set } => if set == RTCHOLD {
                true
            } else if clear == RTCHOLD {
                false
            } else {
                held(script, k - 1)
            },
            _ => held(script, k - 1),
        }
    }
}

/// Whether a step writes the calendar.
pub open spec fn sets_calendar(step: Step) -> bool {
    match step {
        Step::Write8 { addr, .. } => RTCSEC <= addr <= RTCMON,
        Step::Write16 { addr, .. } => addr == RTCYEAR,
        _ => false,
    }
}

/// The calendar is written only while it stands still, and it runs afterwards.
pub proof fn lemma_written_while_held(dt: DateTime, other: u16, k: int)
    requires
        0 <= k < load_script(dt, other).len(),
    ensures
        sets_calendar(load_script(dt, other)[k]) ==> held(load_script(dt, other), k),
        !held(load_script(dt, other), load_script(dt, other).len() as int),
{
    reveal_with_fuel(held, 10);
}

/// Until the calendar moves on, a reading gives back what was set, whatever the
/// registers held before.
pub proof fn lemma_set_then_read(memory: Memory, set_to: DateTime, other: u16, got: DateTime)
    requires
        forall|i: int|
            0 <= i < calendar_reads(got).len() ==> crate::memory::found(
                crate::memory::memory_after(memory, load_script(set_to, other)),
                #[trigger] calendar_reads(got)[i],
            ),
    ensures
        got == set_to,
{
    let script = load_script(set_to, other);
    let s8 = script.drop_last();
    let s7 = s8.drop_last();
    let s6 = s7.drop_last();
    let s5 = s6.drop_last();
    let s4 = s5.drop_last();
    let s3 = s4.drop_last();
    let s2 = s3.drop_last();
    assert(script.last() == run_step());
    assert(s8.last() == (Step::Write16 { addr: RTCYEAR, value: set_to.year }));
    assert(s7.last() == (Step::Write8 { addr: RTCMON, value: set_to.month }));
    assert(s6.last() == (Step::Write8 { addr: RTCDAY, value: set_to.day }));
    assert(s5.last() == (Step::Write8 { addr: RTCDOW, value: set_to.weekday }));
    assert(s4.last() == (Step::Write8 { addr: RTCHOUR, value: set_to.hour }));
    assert(s3.last() == (Step::Write8 { addr: RTCMIN, value: set_to.minute }));
    assert(s2.last() == (Step::Write8 { addr: RTCSEC, value: set_to.second }));
    reveal_with_fuel(crate::memory::memory_after, 9);
    let m = crate::memory::memory_after(memory, script);
    let reads = calendar_reads(got);
    assert(crate::memory::found(m, reads[0]) && crate::memory::found(m, reads[1]));
    assert(crate::memory::found(m, reads[2]) && crate::memory::found(m, reads[3]));
    assert(crate::memory::found(m, reads[4]) && crate::memory::found(m, reads[5]));
    assert(crate::memory::found(m, reads[6]));
}

/// What the registers hold once a time is loaded: the seconds at 0x04B0, the
/// minutes, hours, day of the week, day and month in the five bytes after it, and
/// the year in the word at 0x04B6. The clock stands still while they are written
/// (bit 14 of the control word at 0x04A0 is set) and runs afterwards.
pub proof fn lemma_calendar_on_registers(m: Memory, dt: DateTime, other: u16)
    ensures
        ({
            let script = load_script(dt, other);
            let after = crate::memory::memory_after(m, script);
            &&& after(0x04B0) == dt.second
            &&& after(0x04B1) == dt.minute
            &&& after(0x04B2) == dt.hour
            &&& after(0x04B3) == dt.weekday
            &&& after(0x04B4) == dt.day
            &&& after(0x04B5) == dt.month
            &&& crate::memory::word_in(after, 0x04B6) == dt.year
            &&& crate::memory::word_in(after, 0x04A0) == crate::memory::word_in(m, 0x04A0) & !other
                & 0xBFFF
            &&& crate::memory::word_in(crate::memory::memory_at(m, script, 1), 0x04A0) & 0x4000
                == 0x4000
        }),
{
    broadcast use crate::memory::group_memory;

    let script = load_script(dt, other);
    crate::memory::lemma_memory_at(m, script);
    reveal_with_fuel(crate::memory::memory_at, 10);
    assert(script.len() == 9);
    assert(script[1] == (Step::Write8 { addr: RTCSEC, value: dt.second }));
    assert(script[2] == (Step::Write8 { addr: RTCMIN, value: dt.minute }));
    assert(script[3] == (Step::Write8 { addr: RTCHOUR, value: dt.hour }));
    assert(script[4] == (Step::Write8 { addr: RTCDOW, value: dt.weekday }));
    assert(script[5] == (Step::Write8 { addr: RTCDAY, value: dt.day }));
    assert(script[6] == (Step::Write8 { addr: RTCMON, value: dt.month }));
    assert(script[7] == (Step::Write16 { addr: RTCYEAR, value: dt.year }));
    let w = crate::memory::word_in(m, 0x04A0);
    let on = crate::bus::edited16(w, other, 0x4000);
    let m1 = crate::memory::put16(m, 0x04A0, on);
    assert(crate::memory::word_in(m1, 0x04A0) == on);
    assert(crate::memory::memory_at(m, script, 1) == m1);
    let m7 = crate::memory::memory_at(m, script, 7);
    assert(m7(0x04A0) == m1(0x04A0) && m7(0x04A1) == m1(0x04A1));
    assert(crate::memory::word_in(m7, 0x04A0) == on);
    let m8 = crate::memory::put16(m7, 0x04B6, dt.year);
    assert(crate::memory::word_in(m8, 0x04A0) == on);
    assert(crate::memory::word_in(m8, 0x04B6) == dt.year);
    assert(crate::memory::memory_at(m, script, 8) == m8);
    let off = crate::bus::edited16(on, 0x4000, 0);
    let m9 = crate::memory::put16(m8, 0x04A0, off);
    assert(crate::memory::memory_at(m, script, 9) == m9);
    assert(crate::memory::word_in(m9, 0x04B6) == dt.year);
    assert(crate::memory::word_in(m9, 0x04A0) == off);
    assert((((w & !other) | 0x4000) & !0x4000u16) | 0 == w & !other & 0xBFFF && ((w & !other)
        | 0x4000) & 0x4000 == 0x4000) by (bit_vector);
}

/// When an alarm goes off by what its registers hold, from 0x04B8 on: a byte with
/// bit 7 set is compared in its other bits, and one with it clear is not. At least
/// one must be compared.
pub open spec fn goes_off(m: Memory, minute: u8, hour: u8, weekday: u8, day: u8) -> bool {
    &&& m(0x04B8) >= 128 || m(0x04B9) >= 128 || m(0x04BA) >= 128 || m(0x04BB) >= 128
    &&& m(0x04B8) >= 128 ==> m(0x04B8) - 128 == minute
    &&& m(0x04B9) >= 128 ==> m(0x04B9) - 128 == hour
    &&& m(0x04BA) >= 128 ==> m(0x04BA) - 128 == weekday
    &&& m(0x04BB) >= 128 ==> m(0x04BB) - 128 == day
}

/// An accepted alarm goes off exactly when the time agrees with each of its
/// fields. Its interrupt is off meanwhile (bit 5) and no earlier alarm is left
/// pending (bit 1).
pub proof fn lemma_alarm_goes_off(
    m: Memory,
    alarm: Alarm,
    minute: u8,
    hour: u8,
    weekday: u8,
    day: u8,
)
    requires
        alarm.fault() is None,
    ensures
        ({
            let after = crate::memory::memory_after(m, alarm_script(alarm.registers()));
            &&& goes_off(after, minute, hour, weekday, day) <==> {
                &&& alarm.minute matches Some(v) ==> v == minute
                &&& alarm.hour matches Some(v) ==> v == hour
                &&& alarm.weekday matches Some(v) ==> v == weekday
                &&& alarm.day matches Some(v) ==> v == day
            }
            &&& crate::memory::word_in(after, 0x04A0) == crate::memory::word_in(m, 0x04A0) & 0xFFDD
        }),
{
    lemma_alarm_written(m, alarm.registers());
}

/// No time makes a cleared alarm go off.
pub proof fn lemma_cleared_alarm(m: Memory, minute: u8, hour: u8, weekday: u8, day: u8)
    ensures
        !goes_off(
            crate::memory::memory_after(
                m,
                alarm_script(
                    (crate::rtc_alarm::AlarmRegs { minute: 0, hour: 0, weekday: 0, day: 0 }),
                ),
            ),
            minute,
            hour,
            weekday,
            day,
        ),
{
    lemma_alarm_written(
        m,
        (crate::rtc_alarm::AlarmRegs { minute: 0, hour: 0, weekday: 0, day: 0 }),
    );
}

proof fn lemma_alarm_written(m: Memory, regs: crate::rtc_alarm::AlarmRegs)
    ensures
        ({
            let after = crate::memory::memory_after(m, alarm_script(regs));
            &&& after(0x04B8) == regs.minute
            &&& after(0x04B9) == regs.hour
            &&& after(0x04BA) == regs.weekday
            &&& after(0x04BB) == regs.day
            &&& crate::memory::word_in(after, 0x04A0) == crate::memory::word_in(m, 0x04A0) & 0xFFDD
        }),
{
    broadcast use crate::memory::group_memory;

    let script = alarm_script(regs);
    crate::memory::lemma_memory_at(m, script);
    reveal_with_fuel(crate::memory::memory_at, 7);
    let w = crate::memory::word_in(m, 0x04A0);
    let a = crate::bus::edited16(w, 0x20, 0);
    let m1 = crate::memory::put16(m, 0x04A0, a);
    assert(crate::memory::word_in(m1, 0x04A0) == a);
    let m5 = crate::memory::memory_at(m, script, 5);
    assert(m5(0x04A0) == m1(0x04A0) && m5(0x04A1) == m1(0x04A1));
    assert(crate::memory::word_in(m5, 0x04A0) == a);
    let b = crate::bus::edited16(a, 2, 0);
    let m6 = crate::memory::put16(m5, 0x04A0, b);
    assert(crate::memory::memory_at(m, script, 6) == m6);
    assert(crate::memory::word_in(m6, 0x04A0) == b);
    assert((((w & !0x20u16) | 0) & !2u16) | 0 == w & 0xFFDD) by (bit_vector);
}

/// The events by the number that bits 9:8 of the control word give them: each
/// minute, each hour, midnight and noon.
pub proof fn lemma_event_numbers(event: Event)
    ensures
        event.field() as int == 0x100 * match event {
            Event::MinuteChanged => 0int,
            Event::HourChanged => 1,
            Event::Midnight => 2,
            Event::Noon => 3,
        },
        RTCTEV_MASK == 3 * 0x100,
{
}

/// A time is taken only between two looks at bit 12 of the control word that both
/// find it set.
pub proof fn lemma_read_when_ready(misses: Seq<Miss>, dt: DateTime)
    ensures
        ({
            let script = now_script(misses, dt);
            let look = Step::Test16 {
                addr: 0x04A0,
                cond: Cond::Bits { mask: 0x1000, want: 0x1000 },
                holds: true,
            };
            let n = misses_script(misses).len() as int;
            &&& script.len() == n + 9
            &&& script[n] == look
            &&& script[n + 8] == look
            &&& script.subrange(n + 1, n + 8) =~= calendar_reads(dt)
        }),
{
}

/// Where the registers lie, and which bits and values they have.
pub proof fn lemma_layout()
    ensures
        RTCCTL01 == 0x04A0,
        RTCIV == 0x04AE,
        RTCSEC == 0x04B0,
        RTCMIN == 0x04B1,
        RTCHOUR == 0x04B2,
        RTCDOW == 0x04B3,
        RTCDAY == 0x04B4,
        RTCMON == 0x04B5,
        RTCYEAR == 0x04B6,
        RTCAMIN == 0x04B8,
        RTCAHOUR == 0x04B9,
        RTCADOW == 0x04BA,
        RTCADAY == 0x04BB,
        CRYSTAL_HZ == 32_768,
        RTCAIFG == 2,
        RTCTEVIFG == 4,
        RTCRDYIE == 16,
        RTCAIE == 32,
        RTCTEVIE == 64,
        RTCTEV_MASK == 0x0300,
        RTCRDY == 0x1000,
        RTCHOLD == 0x4000,
        RTCBCD == 0x8000,
{
}

} // verus!
