//! Timer0_A3 as a free-running counter: timestamps, an overflow count, a
//! software-triggered capture, and a compare that wakes the CPU.
//!
//! On SMCLK the counter stops in LPM3; on ACLK it keeps running and can wake
//! the CPU from there.
use vstd::prelude::*;

use crate::bus::{Bus, Cond, Hardware, Step};
use crate::clocks::Clocks;
use crate::memory::Memory;
use crate::pac::Timer0A3;

verus! {

broadcast use crate::trace::group_growth;

/// Timer control.
pub const TA0CTL: u32 = 0x0340;

/// Compare control 0.
pub const TA0CCTL0: u32 = 0x0342;

/// Capture control 1.
pub const TA0CCTL1: u32 = 0x0344;

/// Counter.
pub const TA0R: u32 = 0x0350;

/// Compare value 0.
pub const TA0CCR0: u32 = 0x0352;

/// Captured value 1.
pub const TA0CCR1: u32 = 0x0354;

/// Count ACLK.
pub const TASSEL_ACLK: u16 = 0x0100;

/// Count SMCLK.
pub const TASSEL_SMCLK: u16 = 0x0200;

/// Count through all values.
pub const MC_CONTINUOUS: u16 = 0x0020;

/// Reset of counter and divider.
pub const TACLR: u16 = 0x0004;

/// Overflow interrupt enable.
pub const TAIE: u16 = 0x0002;

/// Overflow.
pub const TAIFG: u16 = 0x0001;

/// Rising edge.
pub const CM_RISING: u16 = 0x4000;

/// Capture input field.
pub const CCIS_MASK: u16 = 0x3000;

/// Capture input low.
pub const CCIS_GND: u16 = 0x2000;

/// Capture input high.
pub const CCIS_VCC: u16 = 0x3000;

/// Capture synchronized to the timer clock.
pub const SCS: u16 = 0x0800;

/// Capture rather than compare.
pub const CAP: u16 = 0x0100;

/// Channel interrupt enable.
pub const CCIE: u16 = 0x0010;

/// A capture was overwritten.
pub const COV: u16 = 0x0002;

/// Division of the counted clock.
#[derive(Clone, Copy, PartialEq, Eq, Structural, Debug)]
pub enum Divider {
    /// By 1.
    Div1,
    /// By 2.
    Div2,
    /// By 4.
    Div4,
    /// By 8.
    Div8,
}

impl Divider {
    /// The divisor.
    pub open spec fn divisor(self) -> u32 {
        match self {
            Divider::Div1 => 1,
            Divider::Div2 => 2,
            Divider::Div4 => 4,
            Divider::Div8 => 8,
        }
    }

    /// The divisor.
    pub fn value(self) -> (r: u32)
        ensures
            r == self.divisor(),
            1 <= r <= 8,
    {
        match self {
            Divider::Div1 => 1,
            Divider::Div2 => 2,
            Divider::Div4 => 4,
            Divider::Div8 => 8,
        }
    }

    /// The field of the control word.
    pub open spec fn field(self) -> u16 {
        match self {
            Divider::Div1 => 0,
            Divider::Div2 => 0x40,
            Divider::Div4 => 0x80,
            Divider::Div8 => 0xC0,
        }
    }

    /// The field of the control word.
    pub(crate) fn bits(self) -> (r: u16)
        ensures
            r == self.field(),
    {
        match self {
            Divider::Div1 => 0,
            Divider::Div2 => 0x40,
            Divider::Div4 => 0x80,
            Divider::Div8 => 0xC0,
        }
    }
}

/// The control word that starts a free run from zero.
pub open spec fn run_word(source: u16, div: Divider) -> u16 {
    (source + div.field() + MC_CONTINUOUS + TACLR) as u16
}

/// A free-running 16-bit counter.
pub struct Counter {
    timer: Timer0A3,
    tick_hz: u32,
}

impl Counter {
    /// Ticks per second.
    pub closed spec fn rate(&self) -> u32 {
        self.tick_hz
    }

    /// The peripheral.
    pub closed spec fn owned(&self) -> Timer0A3 {
        self.timer
    }

    /// Starts counting SMCLK, divided.
    pub fn new_smclk<H: Hardware>(
        timer: Timer0A3,
        bus: &mut Bus<H>,
        clocks: &Clocks,
        div: Divider,
    ) -> (r: Self)
        ensures
            r.rate() == clocks@.smclk / div.divisor(),
            r.owned() == timer,
            final(bus).ran(
                *old(bus),
                seq![Step::Write16 { addr: TA0CTL, value: run_word(TASSEL_SMCLK, div) }],
            ),
    {
        bus.write16(TA0CTL, TASSEL_SMCLK + div.bits() + MC_CONTINUOUS + TACLR);
        Counter { timer, tick_hz: clocks.smclk() / div.value() }
    }

    /// Starts counting ACLK, divided.
    pub fn new_aclk<H: Hardware>(
        timer: Timer0A3,
        bus: &mut Bus<H>,
        clocks: &Clocks,
        div: Divider,
    ) -> (r: Self)
        ensures
            r.rate() == clocks@.aclk / div.divisor(),
            r.owned() == timer,
            final(bus).ran(
                *old(bus),
                seq![Step::Write16 { addr: TA0CTL, value: run_word(TASSEL_ACLK, div) }],
            ),
    {
        bus.write16(TA0CTL, TASSEL_ACLK + div.bits() + MC_CONTINUOUS + TACLR);
        Counter { timer, tick_hz: clocks.aclk() / div.value() }
    }

    /// Ticks per second.
    pub fn tick_hz(&self) -> (r: u32)
        ensures
            r == self.rate(),
    {
        self.tick_hz
    }

    /// The counter.
    pub fn now<H: Hardware>(&self, bus: &mut Bus<H>) -> (r: u16)
        ensures
            final(bus).ran(*old(bus), seq![Step::Read16 { addr: TA0R, value: r }]),
    {
        bus.read16(TA0R)
    }

    /// Ticks since `start`, for less than a full round of the counter.
    pub fn elapsed_since<H: Hardware>(&self, bus: &mut Bus<H>, start: u16) -> (r: u16)
        ensures
            exists|now: u16|
                r == now.wrapping_sub(start) && final(bus).ran(
                    *old(bus),
                    seq![#[trigger] counter_read(now)],
                ),
    {
        let now: u16 = self.now(bus);
        assert(bus.ran(*old(bus), seq![counter_read(now)]));
        now.wrapping_sub(start)
    }

    /// Microseconds in `ticks`.
    pub fn ticks_to_us(&self, ticks: u32) -> (r: u32)
        requires
            self.rate() > 0,
        ensures
            r == crate::ticks::us_in(ticks as int, self.rate() as int) % 0x1_0000_0000,
    {
        crate::ticks::ticks_to_us(ticks, self.tick_hz)
    }

    /// Nanoseconds in `ticks`.
    pub fn ticks_to_ns(&self, ticks: u32) -> (r: u32)
        requires
            self.rate() > 0,
        ensures
            r == crate::ticks::ns_in(ticks as int, self.rate() as int) % 0x1_0000_0000,
    {
        crate::ticks::ticks_to_ns(ticks, self.tick_hz)
    }

    /// Ticks in `us` microseconds, or `None` where a compare cannot hold them.
    pub fn ticks_in_us(&self, us: u32) -> (r: Option<u16>)
        ensures
            r == if crate::ticks::ticks_in(us as int, self.rate() as int) <= u16::MAX {
                Some(crate::ticks::ticks_in(us as int, self.rate() as int) as u16)
            } else {
                None
            },
    {
        crate::ticks::us_to_ticks(us, self.tick_hz)
    }

    /// Lets each overflow of the counter fire the vector.
    pub fn enable_overflow_interrupt<H: Hardware>(&self, bus: &mut Bus<H>)
        ensures
            final(bus).ran(*old(bus), seq![Step::Edit16 { addr: TA0CTL, clear: 0, set: TAIE }]),
    {
        bus.edit16(TA0CTL, 0, TAIE);
    }

    /// Whether an overflow is pending.
    pub fn overflow_pending<H: Hardware>(&self, bus: &mut Bus<H>) -> (r: bool)
        ensures
            final(bus).ran(*old(bus), seq![overflow_look(r)]),
    {
        bus.is_set16(TA0CTL, TAIFG)
    }

    /// A 32-bit timestamp from the number of overflows counted so far and the
    /// counter, to be taken with interrupts masked. An overflow that is
    /// pending is not counted yet: it is added, and the counter read again
    /// after it.
    pub fn now32<H: Hardware>(&self, bus: &mut Bus<H>, overflows: u16) -> (r: u32)
        ensures
            exists|first: u16, second: Option<u16>|
                {
                    &&& final(bus).ran(*old(bus), #[trigger] timestamp_script(first, second))
                    &&& r == timestamp(overflows, first, second)
                },
    {
        let first: u16 = self.now(bus);
        if self.overflow_pending(bus) {
            let second: u16 = self.now(bus);
            assert(bus.ran(*old(bus), timestamp_script(first, Some(second))));
            return crate::ticks::assemble_now64(overflows.wrapping_add(1), second);
        }
        assert(bus.ran(*old(bus), timestamp_script(first, None)));
        crate::ticks::assemble_now64(overflows, first)
    }

    /// Sets channel 1 up for captures that software triggers: on a rising edge
    /// of its input, which is held low.
    pub fn configure_capture<H: Hardware>(&self, bus: &mut Bus<H>)
        ensures
            final(bus).ran(
                *old(bus),
                seq![
                    Step::Write16 { addr: TA0CCTL1, value: (CM_RISING + CCIS_GND + SCS + CAP) as u16 },
                ],
            ),
    {
        bus.write16(TA0CCTL1, CM_RISING + CCIS_GND + SCS + CAP);
    }

    /// Captures the counter now: raises the capture input, lowers it again,
    /// and returns what was captured.
    pub fn software_capture<H: Hardware>(&self, bus: &mut Bus<H>) -> (r: u16)
        ensures
            final(bus).ran(
                *old(bus),
                seq![
                    Step::Edit16 { addr: TA0CCTL1, clear: CCIS_MASK, set: CCIS_VCC },
                    Step::Edit16 { addr: TA0CCTL1, clear: CCIS_MASK, set: CCIS_GND },
                    Step::Read16 { addr: TA0CCR1, value: r },
                ],
            ),
    {
        bus.edit16(TA0CCTL1, CCIS_MASK, CCIS_VCC);
        bus.edit16(TA0CCTL1, CCIS_MASK, CCIS_GND);
        self.capture_value(bus)
    }

    /// What was captured last.
    pub fn capture_value<H: Hardware>(&self, bus: &mut Bus<H>) -> (r: u16)
        ensures
            final(bus).ran(*old(bus), seq![Step::Read16 { addr: TA0CCR1, value: r }]),
    {
        bus.read16(TA0CCR1)
    }

    /// Whether a capture was overwritten before it was read.
    pub fn capture_overflowed<H: Hardware>(&self, bus: &mut Bus<H>) -> (r: bool)
        ensures
            final(bus).ran(
                *old(bus),
                seq![Step::Test16 { addr: TA0CCTL1, cond: Cond::all_set(COV), holds: r }],
            ),
    {
        bus.is_set16(TA0CCTL1, COV)
    }

    /// Clears that flag.
    pub fn clear_capture_overflow<H: Hardware>(&self, bus: &mut Bus<H>)
        ensures
            final(bus).ran(*old(bus), seq![Step::Edit16 { addr: TA0CCTL1, clear: COV, set: 0 }]),
    {
        bus.edit16(TA0CCTL1, COV, 0);
    }

    /// Arms a wake-up `interval` ticks from now.
    pub fn schedule_wake_in<H: Hardware>(&self, bus: &mut Bus<H>, interval: u16)
        ensures
            exists|now: u16|
                final(bus).ran(*old(bus), #[trigger] schedule_script(now, interval)),
    {
        let now: u16 = self.now(bus);
        bus.write16(TA0CCR0, now.wrapping_add(interval));
        bus.write16(TA0CCTL0, CCIE);
        assert(bus.ran(*old(bus), schedule_script(now, interval)));
    }

    /// Disarms the wake-up.
    pub fn cancel_wake<H: Hardware>(&self, bus: &mut Bus<H>)
        ensures
            final(bus).ran(*old(bus), seq![Step::Write16 { addr: TA0CCTL0, value: 0 }]),
    {
        bus.write16(TA0CCTL0, 0);
    }

    /// Gives the peripheral back; the counter runs on.
    pub fn free(self) -> (r: Timer0A3)
        ensures
            r == self.owned(),
    {
        self.timer
    }
}

/// The counter read as `now`.
pub open spec fn counter_read(now: u16) -> Step {
    Step::Read16 { addr: TA0R, value: now }
}

/// The look at whether an overflow is pending.
pub open spec fn overflow_look(pending: bool) -> Step {
    Step::Test16 { addr: TA0CTL, cond: Cond::all_set(TAIFG), holds: pending }
}

/// The reads of a timestamp; a second one of the counter only where an
/// overflow was pending.
pub open spec fn timestamp_script(first: u16, second: Option<u16>) -> Seq<Step> {
    match second {
        None => seq![counter_read(first), overflow_look(false)],
        Some(again) => seq![counter_read(first), overflow_look(true), counter_read(again)],
    }
}

/// The timestamp of these reads.
pub open spec fn timestamp(overflows: u16, first: u16, second: Option<u16>) -> int {
    match second {
        None => crate::ticks::joined(overflows, first),
        Some(again) => crate::ticks::joined(overflows.wrapping_add(1), again),
    }
}

/// The arming of a wake-up at `interval` ticks after `now`.
pub open spec fn schedule_script(now: u16, interval: u16) -> Seq<Step> {
    seq![
        counter_read(now),
        Step::Write16 { addr: TA0CCR0, value: now.wrapping_add(interval) },
        Step::Write16 { addr: TA0CCTL0, value: CCIE },
    ]
}

/// Disarms the wake-up from inside the interrupt handler.
pub fn clear_wake_irq<H: Hardware>(bus: &mut Bus<H>)
    ensures
        final(bus).ran(*old(bus), seq![Step::Edit16 { addr: TA0CCTL0, clear: CCIE, set: 0 }]),
{
    bus.edit16(TA0CCTL0, CCIE, 0);
}

/// Clears a pending overflow from inside the interrupt handler.
pub fn clear_overflow_irq<H: Hardware>(bus: &mut Bus<H>)
    ensures
        final(bus).ran(*old(bus), seq![Step::Edit16 { addr: TA0CTL, clear: TAIFG, set: 0 }]),
{
    bus.edit16(TA0CTL, TAIFG, 0);
}

/// The elapsed ticks are right across one overflow of the counter: `ticks`
/// after `start`, at whatever value the counter then has.
pub proof fn lemma_elapsed_across_overflow(start: u16, ticks: u16)
    ensures
        start.wrapping_add(ticks).wrapping_sub(start) == ticks,
{
}

/// A wake-up armed at `now` for `interval` is due exactly when `interval`
/// ticks have elapsed.
pub proof fn lemma_wake_is_due(now: u16, interval: u16, later: u16)
    ensures
        later == now.wrapping_add(interval) <==> later.wrapping_sub(now) == interval,
{
}

/// A timestamp taken just after an overflow that nobody has counted yet is
/// later than one taken just before it.
pub proof fn lemma_timestamps_across_overflow(
    overflows: u16,
    before: u16,
    first: u16,
    after: u16,
)
    requires
        overflows < u16::MAX,
    ensures
        timestamp(overflows, before, None) < timestamp(overflows, first, Some(after)),
{
}

/// What the control word of a timer means: the source in bits 9:8 (1 ACLK, 2
/// SMCLK, 3 the inverted input), a divider of two to the power of bits 7:6, which
/// is the divisor that the tick rate goes by, counting up for ever (2 in bits
/// 5:4), and a start from zero (bit 2), with the overflow flag and its enable
/// clear.
pub proof fn lemma_run_word(source: u16, div: Divider)
    requires
        source == 0x0100 || source == 0x0200,
    ensures
        ({
            let word = run_word(source, div) as int;
            &&& word / 0x100 == source / 0x100
            &&& div.divisor() == crate::clocks::divided_by(word / 0x40 % 4)
            &&& word % 0x40 == 2 * 0x10 + 4
        }),
        TASSEL_ACLK == 0x0100,
        TASSEL_SMCLK == 0x0200,
{
}

/// A timestamp is the time, where `overflows` is how often the counter has run
/// over so far as was counted: a pending overflow is one more.
pub proof fn lemma_timestamp_is_time(time: int, overflows: u16, first: u16, second: Option<u16>)
    requires
        0 <= time < 0x1_0000_0000,
        match second {
            None => overflows == time / 0x1_0000 && first == time % 0x1_0000,
            Some(again) => overflows + 1 == time / 0x1_0000 && again == time % 0x1_0000,
        },
    ensures
        timestamp(overflows, first, second) == time,
        timestamp_script(first, second)[0] == (Step::Read16 { addr: 0x0350, value: first }),
        timestamp_script(first, second)[1] == (Step::Test16 {
            addr: 0x0340,
            cond: Cond::Bits { mask: 1, want: 1 },
            holds: second is Some,
        }),
        second matches Some(again) ==> timestamp_script(first, second)[2] == (Step::Read16 {
            addr: 0x0350,
            value: again,
        }),
{
}

/// A wake-up is due `interval` ticks after the counter was read: the compare
/// register then holds that time, and its interrupt (bit 4) is on.
pub proof fn lemma_wake_on_registers(m: Memory, now: u16, interval: u16)
    ensures
        ({
            let script = schedule_script(now, interval);
            let after = crate::memory::memory_after(m, script);
            &&& script[0] == (Step::Read16 { addr: 0x0350, value: now })
            &&& crate::memory::word_in(after, 0x0352) == (now + interval) % 0x1_0000
            &&& crate::memory::word_in(after, 0x0342) == 16
        }),
{
    broadcast use crate::memory::group_memory;

    let script = schedule_script(now, interval);
    crate::memory::lemma_memory_at(m, script);
    reveal_with_fuel(crate::memory::memory_at, 4);
    let due = now.wrapping_add(interval);
    let m1 = crate::memory::put16(m, 0x0352, due);
    let m2 = crate::memory::put16(m1, 0x0342, 16);
    assert(crate::memory::word_in(m1, 0x0352) == due);
    assert(crate::memory::word_in(m2, 0x0352) == due);
    assert(crate::memory::memory_at(m, script, 3) == m2);
}

/// Where the registers lie, and which bits and values they have.
pub proof fn lemma_layout()
    ensures
        TA0CTL == 0x0340,
        TA0CCTL0 == 0x0342,
        TA0CCTL1 == 0x0344,
        TA0R == 0x0350,
        TA0CCR0 == 0x0352,
        TA0CCR1 == 0x0354,
        TASSEL_ACLK == 0x0100,
        TASSEL_SMCLK == 0x0200,
        MC_CONTINUOUS == 32,
        TACLR == 4,
        TAIE == 2,
        TAIFG == 1,
        CM_RISING == 0x4000,
        CCIS_MASK == 0x3000,
        CCIS_GND == 0x2000,
        CCIS_VCC == 0x3000,
        SCS == 0x0800,
        CAP == 0x0100,
        CCIE == 16,
        COV == 2,
{
}

} // verus!
