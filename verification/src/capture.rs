//! Input capture on the Timer_A blocks: the timer latches its counter when an
//! edge comes.
//!
//! A [`CaptureTimer`] runs freely and hands out channels that watch a pin, the
//! comparator, ACLK or a software-made edge. Every wait is bounded by ticks of
//! the timer itself.
//!
//! The read of the vector register in an interrupt handler clears flags, so
//! every change to a control register from thread mode runs inside a critical
//! section.
use vstd::prelude::*;

use core::marker::PhantomData;

use crate::bus::{Bus, Cond, Edit, Hardware, Outcome, Step};
use crate::clocks::Clocks;
use crate::gpio::{Pin, TimerA, P1};
use crate::pac::{Timer0A3, Timer1A3};
use crate::timer::Divider;
pub use crate::capture_math::{
    duty_permille, hz_from_period_ticks, periods_in_span, span_ratio_permille, within_permille,
};

verus! {

broadcast use crate::trace::group_growth;

/// Timer control, as an offset from the base of a timer.
pub const CTL: u32 = 0x00;

/// First channel control; the others follow.
pub const CCTL0: u32 = 0x02;

/// Counter.
pub const R: u32 = 0x10;

/// First captured value; the others follow.
pub const CCR0: u32 = 0x12;

/// Interrupt vector.
pub const IV: u32 = 0x2E;

/// Count ACLK.
pub const TASSEL_ACLK: u16 = 0x0100;

/// Count SMCLK.
pub const TASSEL_SMCLK: u16 = 0x0200;

/// Count through all values.
pub const MC_CONTINUOUS: u16 = 0x0020;

/// Reset of counter and divider.
pub const TACLR: u16 = 0x0004;

/// Overflow interrupt enable.
pub const TAIE: u16 = 0x0002;

/// Overflow.
pub const TAIFG: u16 = 0x0001;

/// Edge selection field.
pub const CM_MASK: u16 = 0xC000;

/// Rising edge.
pub const CM_RISING: u16 = 0x4000;

/// Falling edge.
pub const CM_FALLING: u16 = 0x8000;

/// Both edges.
pub const CM_BOTH: u16 = 0xC000;

/// Input selection field.
pub const CCIS_MASK: u16 = 0x3000;

/// The pin.
pub const CCIS_A: u16 = 0x0000;

/// The internal input.
pub const CCIS_B: u16 = 0x1000;

/// Constant low.
pub const CCIS_GND: u16 = 0x2000;

/// Constant high.
pub const CCIS_VCC: u16 = 0x3000;

/// Capture synchronized to the timer clock.
pub const SCS: u16 = 0x0800;

/// Capture rather than compare.
pub const CAP: u16 = 0x0100;

/// Channel interrupt enable.
pub const CCIE: u16 = 0x0010;

/// Input level.
pub const CCI: u16 = 0x0008;

/// A capture was overwritten.
pub const COV: u16 = 0x0002;

/// A capture is waiting.
pub const CCIFG: u16 = 0x0001;

/// Both capture flags.
pub const CAPTURE_FLAGS: u16 = 0x0003;

/// Marks the timers and pins that the device has.
pub trait Sealed {

}

/// A timer block with capture pins.
pub trait Instance: Sealed {
    /// Base address of the registers.
    const BASE: u32;

    /// All registers lie in the low 64 KB.
    proof fn base_fits()
        ensures
            Self::BASE <= 0xF000,
    ;
}

impl Sealed for Timer0A3 {

}

impl Instance for Timer0A3 {
    const BASE: u32 = 0x0340;

    proof fn base_fits() {
    }
}

impl Sealed for Timer1A3 {

}

impl Instance for Timer1A3 {
    const BASE: u32 = 0x0380;

    proof fn base_fits() {
    }
}

/// A pin that the package wires to a capture channel of timer `T`.
pub trait CapturePin<T: Instance>: Sealed {
    /// The channel.
    const CHANNEL: u8;
}

impl Sealed for Pin<P1, 0, TimerA> {

}

impl CapturePin<Timer0A3> for Pin<P1, 0, TimerA> {
    const CHANNEL: u8 = 1;
}

impl Sealed for Pin<P1, 1, TimerA> {

}

impl CapturePin<Timer0A3> for Pin<P1, 1, TimerA> {
    const CHANNEL: u8 = 2;
}

impl Sealed for Pin<P1, 2, TimerA> {

}

impl CapturePin<Timer1A3> for Pin<P1, 2, TimerA> {
    const CHANNEL: u8 = 1;
}

impl Sealed for Pin<P1, 3, TimerA> {

}

impl CapturePin<Timer1A3> for Pin<P1, 3, TimerA> {
    const CHANNEL: u8 = 2;
}

/// Which edge is captured.
#[derive(Clone, Copy, PartialEq, Eq, Structural, Debug)]
pub enum Edge {
    /// Low to high.
    Rising,
    /// High to low.
    Falling,
    /// Every one.
    Both,
}

impl Edge {
    /// The edge selection field.
    pub open spec fn field(self) -> u16 {
        match self {
            Edge::Rising => CM_RISING,
            Edge::Falling => CM_FALLING,
            Edge::Both => CM_BOTH,
        }
    }

    fn cm_bits(self) -> (r: u16)
        ensures
            r == self.field(),
    {
        match self {
            Edge::Rising => CM_RISING,
            Edge::Falling => CM_FALLING,
            Edge::Both => CM_BOTH,
        }
    }
}

/// The channel of a software-made capture.
#[derive(Clone, Copy, PartialEq, Eq, Structural, Debug)]
pub enum Slot {
    /// Channel 1.
    Ccr1,
    /// Channel 2.
    Ccr2,
}

impl Slot {
    /// The number of the channel.
    pub open spec fn channel(self) -> u8 {
        match self {
            Slot::Ccr1 => 1,
            Slot::Ccr2 => 2,
        }
    }

    fn number(self) -> (r: u8)
        ensures
            r == self.channel(),
    {
        match self {
            Slot::Ccr1 => 1,
            Slot::Ccr2 => 2,
        }
    }
}

/// Why a measurement failed.
#[derive(Clone, Copy, PartialEq, Eq, Structural, Debug)]
pub enum Error {
    /// No edge came in time.
    Timeout,
    /// An edge was overwritten before it was collected.
    Overcapture,
    /// The level after an edge is not what the edge should have left.
    LevelSync,
    /// The counter does not advance.
    Stalled,
}

/// A register of timer `T`.
pub open spec fn reg<T: Instance>(offset: u32) -> u32 {
    (T::BASE + offset) as u32
}

/// Control register of channel `n`.
pub open spec fn cctl<T: Instance>(n: u8) -> u32 {
    (T::BASE + CCTL0 + 2 * n) as u32
}

/// Captured value of channel `n`.
pub open spec fn ccr<T: Instance>(n: u8) -> u32 {
    (T::BASE + CCR0 + 2 * n) as u32
}

fn reg_of<T: Instance>(offset: u32) -> (r: u32)
    requires
        offset <= 0x300,
    ensures
        r == T::BASE + offset,
        r == reg::<T>(offset),
{
    proof {
        T::base_fits();
    }
    T::BASE + offset
}

fn cctl_of<T: Instance>(n: u8) -> (r: u32)
    ensures
        r == cctl::<T>(n),
{
    reg_of::<T>(CCTL0 + 2 * (n as u32))
}

fn ccr_of<T: Instance>(n: u8) -> (r: u32)
    ensures
        r == ccr::<T>(n),
{
    reg_of::<T>(CCR0 + 2 * (n as u32))
}

/// A change to a control register inside a critical section.
pub open spec fn change(addr: u32, clear: u16, set: u16) -> Step {
    Step::Masked { first: Edit::Update { addr, clear, set }, second: None }
}

/// The set-up of channel `n`.
pub open spec fn channel_step<T: Instance>(n: u8, input: u16, edge: u16) -> Step {
    Step::Write16 { addr: cctl::<T>(n), value: (edge + input + SCS + CAP) as u16 }
}

/// A free-running timer that captures.
pub struct CaptureTimer<T: Instance> {
    timer: T,
    tick_hz: u32,
}

impl<T: Instance> CaptureTimer<T> {
    /// Ticks per second.
    pub closed spec fn rate(&self) -> u32 {
        self.tick_hz
    }

    /// Starts counting SMCLK, divided.
    pub fn new_smclk<H: Hardware>(
        timer: T,
        bus: &mut Bus<H>,
        clocks: &Clocks,
        div: Divider,
    ) -> (r: Self)
        ensures
            r.rate() == clocks@.smclk / div.divisor(),
            r.owned() == timer,
            final(bus).ran(
                *old(bus),
                seq![
                    Step::Write16 {
                        addr: reg::<T>(CTL),
                        value: crate::timer::run_word(TASSEL_SMCLK, div),
                    },
                ],
            ),
    {
        Self::new(timer, bus, TASSEL_SMCLK, clocks.smclk(), div)
    }

    /// Starts counting ACLK, divided.
    pub fn new_aclk<H: Hardware>(
        timer: T,
        bus: &mut Bus<H>,
        clocks: &Clocks,
        div: Divider,
    ) -> (r: Self)
        ensures
            r.rate() == clocks@.aclk / div.divisor(),
            r.owned() == timer,
            final(bus).ran(
                *old(bus),
                seq![
                    Step::Write16 {
                        addr: reg::<T>(CTL),
                        value: crate::timer::run_word(TASSEL_ACLK, div),
                    },
                ],
            ),
    {
        Self::new(timer, bus, TASSEL_ACLK, clocks.aclk(), div)
    }

    fn new<H: Hardware>(
        timer: T,
        bus: &mut Bus<H>,
        tassel: u16,
        source_hz: u32,
        div: Divider,
    ) -> (r: Self)
        requires
            tassel <= 0x300,
        ensures
            r.rate() == source_hz / div.divisor(),
            r.owned() == timer,
            final(bus).ran(
                *old(bus),
                seq![
                    Step::Write16 {
                        addr: reg::<T>(CTL),
                        value: crate::timer::run_word(tassel, div),
                    },
                ],
            ),
    {
        bus.write16(reg_of::<T>(CTL), tassel + div.bits() + MC_CONTINUOUS + TACLR);
        CaptureTimer { timer, tick_hz: source_hz / div.value() }
    }

    /// Ticks per second.
    pub fn tick_hz(&self) -> (r: u32)
        ensures
            r == self.rate(),
    {
        self.tick_hz
    }

    /// The counter.
    pub fn now<H: Hardware>(&self, bus: &mut Bus<H>) -> (r: u16)
        ensures
            final(bus).ran(*old(bus), seq![Step::Read16 { addr: reg::<T>(R), value: r }]),
    {
        bus.read16(reg_of::<T>(R))
    }

    /// Watches a pin.
    pub fn capture_pin<H: Hardware, P: CapturePin<T>>(
        &self,
        bus: &mut Bus<H>,
        _pin: P,
        edge: Edge,
    ) -> (r: CaptureChannel<T>)
        ensures
            r.is_new(P::CHANNEL, false, self.rate()),
            final(bus).ran(
                *old(bus),
                seq![channel_step::<T>(P::CHANNEL, CCIS_A, edge.field())],
            ),
    {
        self.channel(bus, P::CHANNEL, CCIS_A, edge.cm_bits(), false)
    }

    /// Watches the comparator output, on channel 1.
    pub fn capture_comparator<H: Hardware>(&self, bus: &mut Bus<H>, edge: Edge) -> (r:
        CaptureChannel<T>)
        ensures
            r.is_new(1, false, self.rate()),
            final(bus).ran(*old(bus), seq![channel_step::<T>(1, CCIS_B, edge.field())]),
    {
        self.channel(bus, 1, CCIS_B, edge.cm_bits(), false)
    }

    /// Watches ACLK, on channel 2.
    pub fn capture_aclk<H: Hardware>(&self, bus: &mut Bus<H>, edge: Edge) -> (r: CaptureChannel<T>)
        ensures
            r.is_new(2, false, self.rate()),
            final(bus).ran(*old(bus), seq![channel_step::<T>(2, CCIS_B, edge.field())]),
    {
        self.channel(bus, 2, CCIS_B, edge.cm_bits(), false)
    }

    /// Watches edges that software makes.
    pub fn capture_software<H: Hardware>(&self, bus: &mut Bus<H>, slot: Slot) -> (r:
        CaptureChannel<T>)
        ensures
            r.is_new(slot.channel(), true, self.rate()),
            final(bus).ran(
                *old(bus),
                seq![channel_step::<T>(slot.channel(), CCIS_GND, CM_RISING)],
            ),
    {
        self.channel(bus, slot.number(), CCIS_GND, CM_RISING, true)
    }

    fn channel<H: Hardware>(
        &self,
        bus: &mut Bus<H>,
        channel: u8,
        ccis: u16,
        cm: u16,
        software: bool,
    ) -> (r: CaptureChannel<T>)
        requires
            ccis <= CCIS_MASK,
            cm <= CM_MASK,
        ensures
            r.is_new(channel, software, self.rate()),
            final(bus).ran(*old(bus), seq![channel_step::<T>(channel, ccis, cm)]),
    {
        bus.write16(cctl_of::<T>(channel), cm + ccis + SCS + CAP);
        CaptureChannel {
            channel,
            software,
            tick_hz: self.tick_hz,
            fresh_arm: true,
            _instance: PhantomData,
        }
    }

    /// Lets each overflow of the counter fire the vector. A stale overflow is
    /// dropped first.
    pub fn enable_overflow_interrupt<H: Hardware>(&self, bus: &mut Bus<H>)
        ensures
            final(bus).ran(*old(bus), seq![change(reg::<T>(CTL), TAIFG, TAIE)]),
    {
        bus.masked_edit16(reg_of::<T>(CTL), TAIFG, TAIE);
    }

    /// Stops that, and drops a pending overflow.
    pub fn disable_overflow_interrupt<H: Hardware>(&self, bus: &mut Bus<H>)
        ensures
            final(bus).ran(*old(bus), seq![change(reg::<T>(CTL), TAIE | TAIFG, 0)]),
    {
        bus.masked_edit16(reg_of::<T>(CTL), TAIE | TAIFG, 0);
    }

    /// Gives the timer back; it runs on.
    pub fn free(self) -> (r: T)
        ensures
            r == self.owned(),
    {
        self.timer
    }

    /// The timer peripheral.
    pub closed spec fn owned(self) -> T {
        self.timer
    }
}

/// How the wait for an edge went.
#[derive(Clone, Copy)]
pub enum EdgeEnd {
    /// None came.
    Missed(Outcome),
    /// One came at `ts`; `over` says that another one had overwritten it.
    Stamp { ts: u16, over: bool },
}

/// The wait for one edge, from the counter value `start` on.
#[derive(Clone, Copy)]
pub struct EdgeLog {
    pub start: u16,
    pub end: EdgeEnd,
}

/// What the wait results in. The first edge after arming can latch twice by
/// itself, so there being overwritten is no error.
pub open spec fn edge_result(log: EdgeLog, fresh: bool) -> Result<u16, Error> {
    match log.end {
        EdgeEnd::Missed(Outcome::Tripped) => Err(Error::Timeout),
        EdgeEnd::Missed(_) => Err(Error::Stalled),
        EdgeEnd::Stamp { ts, over } => if over && !fresh {
            Err(Error::Overcapture)
        } else {
            Ok(ts)
        },
    }
}

/// The watched wait for a capture on channel `n`.
pub open spec fn capture_wait<T: Instance>(
    n: u8,
    start: u16,
    timeout: u16,
    patience: u64,
    outcome: Outcome,
) -> Step {
    Step::Guard16 {
        addr: cctl::<T>(n),
        fail: Cond::Never,
        done: Cond::all_set(CCIFG),
        watch: reg::<T>(R),
        trip: Cond::Elapsed { start, ticks: timeout },
        budget: patience,
        outcome,
    }
}

/// What is pending dropped, and the counter read.
pub open spec fn fresh_start<T: Instance>(n: u8, start: u16) -> Seq<Step> {
    seq![
        change(cctl::<T>(n), CAPTURE_FLAGS, 0),
        Step::Read16 { addr: reg::<T>(R), value: start },
    ]
}

/// The steps of the wait for one edge.
pub open spec fn edge_script<T: Instance>(
    n: u8,
    timeout: u16,
    patience: u64,
    log: EdgeLog,
) -> Seq<Step> {
    fresh_start::<T>(n, log.start) + match log.end {
        EdgeEnd::Missed(o) => seq![capture_wait::<T>(n, log.start, timeout, patience, o)],
        EdgeEnd::Stamp { ts, over } => seq![
            capture_wait::<T>(n, log.start, timeout, patience, Outcome::Ready),
            Step::Read16 { addr: ccr::<T>(n), value: ts },
            Step::Test16 { addr: cctl::<T>(n), cond: Cond::all_set(COV), holds: over },
            change(
                cctl::<T>(n),
                if over {
                    CAPTURE_FLAGS
                } else {
                    CCIFG
                },
                0,
            ),
        ],
    }
}

/// The log is one that a wait can have.
pub open spec fn log_fits(log: EdgeLog) -> bool {
    log.end matches EdgeEnd::Missed(o) ==> o == Outcome::Tripped || o == Outcome::Exhausted
}

/// The steps of several waits in a row.
pub open spec fn edges_script<T: Instance>(
    n: u8,
    timeout: u16,
    patience: u64,
    logs: Seq<EdgeLog>,
) -> Seq<Step>
    decreases logs.len(),
{
    if logs.len() == 0 {
        Seq::empty()
    } else {
        edges_script::<T>(n, timeout, patience, logs.drop_last()) + edge_script::<T>(
            n,
            timeout,
            patience,
            logs.last(),
        )
    }
}

/// The times between neighbouring edges, added up.
pub open spec fn total_ticks(stamps: Seq<u16>) -> int
    decreases stamps.len(),
{
    if stamps.len() < 2 {
        0
    } else {
        total_ticks(stamps.drop_last()) + stamps.last().wrapping_sub(stamps[stamps.len() - 2])
    }
}

/// The stamp of a wait that got one.
pub open spec fn stamp(log: EdgeLog) -> u16 {
    match log.end {
        EdgeEnd::Stamp { ts, .. } => ts,
        EdgeEnd::Missed(_) => 0,
    }
}

/// The stamps of several waits.
pub open spec fn stamps(logs: Seq<EdgeLog>) -> Seq<u16> {
    logs.map_values(|log: EdgeLog| stamp(log))
}

/// All waits got their edge; only the first is the first after arming.
pub open spec fn all_good(logs: Seq<EdgeLog>, fresh: bool) -> bool {
    forall|k: int|
        0 <= k < logs.len() ==> log_fits(#[trigger] logs[k]) && edge_result(
            logs[k],
            fresh && k == 0,
        ) is Ok
}

/// Whether a channel is still as armed after these waits: it was before, and
/// the only edge waited for could not be collected.
pub open spec fn fresh_after(logs: Seq<EdgeLog>, fresh: bool) -> bool {
    fresh && logs.len() == 1 && edge_result(logs[0], true) is Err
}

/// The measurement of `periods` periods: it took one edge more than that, or
/// it ended at the first that failed.
pub open spec fn period_outcome(
    logs: Seq<EdgeLog>,
    periods: u16,
    fresh: bool,
    r: Result<u32, Error>,
) -> bool {
    &&& 1 <= logs.len() <= periods + 1
    &&& all_good(logs.drop_last(), fresh)
    &&& log_fits(logs.last())
    &&& match edge_result(logs.last(), fresh && logs.len() == 1) {
        Ok(_) => {
            &&& logs.len() == periods + 1
            &&& r matches Ok(total)
            &&& total == total_ticks(stamps(logs))
        },
        Err(e) => r == Err::<u32, Error>(e),
    }
}

/// The wait for a stamp at one end of a span; being overwritten does not
/// matter there.
pub open spec fn bracket_script<T: Instance>(
    n: u8,
    timeout: u16,
    patience: u64,
    log: EdgeLog,
) -> Seq<Step> {
    fresh_start::<T>(n, log.start) + match log.end {
        EdgeEnd::Missed(o) => seq![capture_wait::<T>(n, log.start, timeout, patience, o)],
        EdgeEnd::Stamp { ts, .. } => seq![
            capture_wait::<T>(n, log.start, timeout, patience, Outcome::Ready),
            Step::Read16 { addr: ccr::<T>(n), value: ts },
            change(cctl::<T>(n), CAPTURE_FLAGS, 0),
        ],
    }
}

/// How the measurement of a span went.
pub enum SpanLog {
    /// It ended at the first edge.
    First(EdgeLog),
    /// The time between the edges never passed.
    Waiting(EdgeLog),
    /// It came to the second edge.
    Second(EdgeLog, EdgeLog),
}

/// The steps of the measurement of a span.
pub open spec fn span_script<T: Instance>(
    n: u8,
    min_wait: u16,
    timeout: u16,
    patience: u64,
    log: SpanLog,
) -> Seq<Step> {
    match log {
        SpanLog::First(a) => bracket_script::<T>(n, timeout, patience, a),
        SpanLog::Waiting(a) => bracket_script::<T>(n, timeout, patience, a).push(
            span_wait::<T>(stamp(a), min_wait, patience, false),
        ),
        SpanLog::Second(a, b) => bracket_script::<T>(n, timeout, patience, a).push(
            span_wait::<T>(stamp(a), min_wait, patience, true),
        ) + bracket_script::<T>(n, timeout, patience, b),
    }
}

/// The wait inside a span.
pub open spec fn span_wait<T: Instance>(
    from: u16,
    min_wait: u16,
    patience: u64,
    met: bool,
) -> Step {
    Step::Poll16 {
        addr: reg::<T>(R),
        until: Cond::Elapsed { start: from, ticks: min_wait },
        budget: patience,
        met,
    }
}

/// What the measurement of a span results in.
pub open spec fn span_outcome(log: SpanLog, r: Result<u16, Error>) -> bool {
    match log {
        SpanLog::First(a) => {
            &&& log_fits(a)
            &&& edge_result(a, true) matches Err(e)
            &&& r == Err::<u16, Error>(e)
        },
        SpanLog::Waiting(a) => a.end is Stamp && r == Err::<u16, Error>(Error::Stalled),
        SpanLog::Second(a, b) => {
            &&& a.end is Stamp
            &&& log_fits(b)
            &&& match edge_result(b, true) {
                Ok(ts) => r == Ok::<u16, Error>(ts.wrapping_sub(stamp(a))),
                Err(e) => r == Err::<u16, Error>(e),
            }
        },
    }
}

/// The look at the input level.
pub open spec fn level_look<T: Instance>(n: u8, high: bool) -> Step {
    Step::Test16 { addr: cctl::<T>(n), cond: Cond::all_set(CCI), holds: high }
}

/// Edges, each followed by a look at the level as far as `levels` goes.
pub open spec fn duty_script<T: Instance>(
    n: u8,
    timeout: u16,
    patience: u64,
    logs: Seq<EdgeLog>,
    levels: Seq<bool>,
) -> Seq<Step>
    decreases logs.len(),
{
    if logs.len() == 0 {
        Seq::empty()
    } else {
        let front = duty_script::<T>(
            n,
            timeout,
            patience,
            logs.drop_last(),
            if levels.len() == logs.len() {
                levels.drop_last()
            } else {
                levels
            },
        ) + edge_script::<T>(n, timeout, patience, logs.last());
        if levels.len() == logs.len() {
            front.push(level_look::<T>(n, levels.last()))
        } else {
            front
        }
    }
}

/// The levels so far are those of a measurement that goes well: up and down,
/// after one edge too early at most.
pub open spec fn in_step(levels: Seq<bool>) -> bool {
    ||| levels =~= Seq::<bool>::empty()
    ||| levels =~= seq![true]
    ||| levels =~= seq![true, false]
    ||| levels =~= seq![false]
    ||| levels =~= seq![false, true]
    ||| levels =~= seq![false, true, false]
}

/// The number of the edge that went up.
pub open spec fn rise_at(levels: Seq<bool>) -> int {
    if levels[0] {
        0
    } else {
        1
    }
}

/// The measurement of a duty cycle: edge by edge until one fails, a level is
/// out of step, or the second rise has come.
pub open spec fn duty_outcome(
    logs: Seq<EdgeLog>,
    levels: Seq<bool>,
    fresh: bool,
    r: Result<u16, Error>,
) -> bool {
    &&& 1 <= logs.len() <= 4
    &&& all_good(logs.drop_last(), fresh)
    &&& log_fits(logs.last())
    &&& match edge_result(logs.last(), fresh && logs.len() == 1) {
        Err(e) => {
            &&& levels.len() == logs.len() - 1
            &&& in_step(levels)
            &&& r == Err::<u16, Error>(e)
        },
        Ok(_) => if levels.len() == logs.len() {
            &&& in_step(levels.drop_last())
            &&& !in_step(levels)
            &&& r == Err::<u16, Error>(Error::LevelSync)
        } else {
            &&& levels.len() == logs.len() - 1
            &&& in_step(levels)
            &&& levels.len() == rise_at(levels) + 2
            &&& r matches Ok(permille)
            &&& ({
                let up = stamp(logs[rise_at(levels)]);
                let down = stamp(logs[rise_at(levels) + 1]);
                let again = stamp(logs[rise_at(levels) + 2]);
                permille == crate::capture_math::duty(
                    down.wrapping_sub(up) as int,
                    again.wrapping_sub(up) as int,
                )
            })
        },
    }
}

/// One capture channel.
pub struct CaptureChannel<T: Instance> {
    channel: u8,
    software: bool,
    tick_hz: u32,
    fresh_arm: bool,
    _instance: PhantomData<T>,
}

impl<T: Instance> CaptureChannel<T> {
    /// The number of the channel.
    pub closed spec fn number(&self) -> u8 {
        self.channel
    }

    /// Whether software makes its edges.
    pub closed spec fn is_software(&self) -> bool {
        self.software
    }

    /// Ticks per second.
    pub closed spec fn rate(&self) -> u32 {
        self.tick_hz
    }

    /// Whether no edge was collected since the arming.
    pub closed spec fn fresh(&self) -> bool {
        self.fresh_arm
    }

    /// A channel as the timer hands it out.
    pub open spec fn is_new(&self, channel: u8, software: bool, rate: u32) -> bool {
        &&& self.number() == channel
        &&& self.is_software() == software
        &&& self.rate() == rate
        &&& self.fresh()
    }

    /// The same channel, but for whether an edge was collected.
    pub open spec fn same(&self, before: Self) -> bool {
        &&& self.number() == before.number()
        &&& self.is_software() == before.is_software()
        &&& self.rate() == before.rate()
    }

    /// Ticks per second.
    pub fn tick_hz(&self) -> (r: u32)
        ensures
            r == self.rate(),
    {
        self.tick_hz
    }

    /// Whether a capture is waiting.
    pub fn pending<H: Hardware>(&self, bus: &mut Bus<H>) -> (r: bool)
        ensures
            final(bus).ran(
                *old(bus),
                seq![
                    Step::Test16 {
                        addr: cctl::<T>(self.number()),
                        cond: Cond::all_set(CCIFG),
                        holds: r,
                    },
                ],
            ),
    {
        bus.is_set16(cctl_of::<T>(self.channel), CCIFG)
    }

    /// Collects the waiting capture.
    pub fn take<H: Hardware>(&mut self, bus: &mut Bus<H>) -> (r: Option<u16>)
        ensures
            *final(self) == *old(self),
            ({
                let n = old(self).number();
                let look = Step::Test16 {
                    addr: cctl::<T>(n),
                    cond: Cond::all_set(CCIFG),
                    holds: r is Some,
                };
                final(bus).ran(
                    *old(bus),
                    match r {
                        None => seq![look],
                        Some(ts) => seq![
                            look,
                            Step::Read16 { addr: ccr::<T>(n), value: ts },
                            change(cctl::<T>(n), CCIFG, 0),
                        ],
                    },
                )
            }),
    {
        if !self.pending(bus) {
            return None;
        }
        let ts: u16 = bus.read16(ccr_of::<T>(self.channel));
        bus.masked_edit16(cctl_of::<T>(self.channel), CCIFG, 0);
        Some(ts)
    }

    /// Whether a capture was overwritten before it was collected.
    pub fn overcaptured<H: Hardware>(&self, bus: &mut Bus<H>) -> (r: bool)
        ensures
            final(bus).ran(
                *old(bus),
                seq![
                    Step::Test16 {
                        addr: cctl::<T>(self.number()),
                        cond: Cond::all_set(COV),
                        holds: r,
                    },
                ],
            ),
    {
        bus.is_set16(cctl_of::<T>(self.channel), COV)
    }

    /// Clears that flag.
    pub fn clear_overcapture<H: Hardware>(&mut self, bus: &mut Bus<H>)
        ensures
            *final(self) == *old(self),
            final(bus).ran(*old(bus), seq![change(cctl::<T>(old(self).number()), COV, 0)]),
    {
        bus.masked_edit16(cctl_of::<T>(self.channel), COV, 0);
    }

    /// The level of the input.
    pub fn input_level<H: Hardware>(&self, bus: &mut Bus<H>) -> (r: bool)
        ensures
            final(bus).ran(*old(bus), seq![level_look::<T>(self.number(), r)]),
    {
        bus.is_set16(cctl_of::<T>(self.channel), CCI)
    }

    /// Changes the edge. Capturing is off in between, because the change could
    /// itself be captured; what is pending is dropped.
    pub fn set_edge<H: Hardware>(&mut self, bus: &mut Bus<H>, edge: Edge)
        ensures
            final(self).same(*old(self)),
            final(self).fresh(),
            final(bus).ran(
                *old(bus),
                seq![
                    change(cctl::<T>(old(self).number()), CM_MASK, 0),
                    change(cctl::<T>(old(self).number()), CAPTURE_FLAGS, edge.field()),
                ],
            ),
    {
        bus.masked_edit16(cctl_of::<T>(self.channel), CM_MASK, 0);
        bus.masked_edit16(cctl_of::<T>(self.channel), CAPTURE_FLAGS, edge.cm_bits());
        self.fresh_arm = true;
    }

    /// Makes one rising edge, on a channel for software-made edges; on another
    /// nothing is done.
    pub fn fire_software<H: Hardware>(&mut self, bus: &mut Bus<H>)
        ensures
            *final(self) == *old(self),
            final(bus).ran(
                *old(bus),
                if old(self).is_software() {
                    seq![
                        change(cctl::<T>(old(self).number()), CCIS_MASK, CCIS_VCC),
                        change(cctl::<T>(old(self).number()), CCIS_MASK, CCIS_GND),
                    ]
                } else {
                    Seq::empty()
                },
            ),
    {
        if !self.software {
            return;
        }
        bus.masked_edit16(cctl_of::<T>(self.channel), CCIS_MASK, CCIS_VCC);
        bus.masked_edit16(cctl_of::<T>(self.channel), CCIS_MASK, CCIS_GND);
    }

    /// Waits for an edge and says how it went.
    fn edge<H: Hardware>(&mut self, bus: &mut Bus<H>, timeout_ticks: u16) -> (r: (
        EdgeLog,
        Result<u16, Error>,
    ))
        ensures
            final(self).same(*old(self)),
            log_fits(r.0),
            r.1 == edge_result(r.0, old(self).fresh()),
            final(self).fresh() == (old(self).fresh() && r.1 is Err),
            final(bus).ran(
                *old(bus),
                edge_script::<T>(old(self).number(), timeout_ticks, old(bus).patience(), r.0),
            ),
    {
        let cctl: u32 = cctl_of::<T>(self.channel);
        let counter: u32 = reg_of::<T>(R);
        let rounds: u64 = bus.attempts();
        bus.masked_edit16(cctl, CAPTURE_FLAGS, 0);
        let start: u16 = bus.read16(counter);
        let outcome = bus.guard16(
            cctl,
            Cond::Never,
            Cond::Bits { mask: CCIFG, want: CCIFG },
            counter,
            Cond::Elapsed { start, ticks: timeout_ticks },
            rounds,
        );
        match outcome {
            Outcome::Ready => {},
            Outcome::Tripped => {
                return (
                    EdgeLog { start, end: EdgeEnd::Missed(outcome) },
                    Err(Error::Timeout),
                );
            },
            _ => {
                return (
                    EdgeLog { start, end: EdgeEnd::Missed(outcome) },
                    Err(Error::Stalled),
                );
            },
        }
        let ts: u16 = bus.read16(ccr_of::<T>(self.channel));
        let over: bool = bus.is_set16(cctl, COV);
        let log = EdgeLog { start, end: EdgeEnd::Stamp { ts, over } };
        if over {
            bus.masked_edit16(cctl, CAPTURE_FLAGS, 0);
            if !self.fresh_arm {
                return (log, Err(Error::Overcapture));
            }
        } else {
            bus.masked_edit16(cctl, CCIFG, 0);
        }
        self.fresh_arm = false;
        (log, Ok(ts))
    }

    /// Waits for an edge that comes after the call and returns its time. Fails
    /// after `timeout_ticks`, or where a second edge came before the first was
    /// collected.
    pub fn wait_edge<H: Hardware>(&mut self, bus: &mut Bus<H>, timeout_ticks: u16) -> (r: Result<
        u16,
        Error,
    >)
        ensures
            final(self).same(*old(self)),
            final(self).fresh() == (old(self).fresh() && r is Err),
            exists|log: EdgeLog|
                {
                    &&& log_fits(log)
                    &&& r == edge_result(log, old(self).fresh())
                    &&& final(bus).ran(
                        *old(bus),
                        #[trigger] edge_script::<T>(
                            old(self).number(),
                            timeout_ticks,
                            old(bus).patience(),
                            log,
                        ),
                    )
                },
    {
        let (_log, r) = self.edge(bus, timeout_ticks);
        r
    }

    /// Adds up the times between `periods + 1` edges, every one of which is
    /// waited for.
    pub fn measure_period_ticks<H: Hardware>(
        &mut self,
        bus: &mut Bus<H>,
        periods: u16,
        per_edge_timeout: u16,
    ) -> (r: Result<u32, Error>)
        ensures
            final(self).same(*old(self)),
            exists|logs: Seq<EdgeLog>|
                {
                    &&& period_outcome(logs, periods, old(self).fresh(), r)
                    &&& final(self).fresh() == fresh_after(logs, old(self).fresh())
                    &&& final(bus).ran(
                        *old(bus),
                        #[trigger] edges_script::<T>(
                            old(self).number(),
                            per_edge_timeout,
                            old(bus).patience(),
                            logs,
                        ),
                    )
                },
    {
        let ghost n = self.number();
        let ghost patience = bus.patience();
        let ghost fresh = self.fresh();
        let ghost mut logs: Seq<EdgeLog> = Seq::empty();
        let (log, r) = self.edge(bus, per_edge_timeout);
        proof {
            assert(logs.push(log).drop_last() =~= logs);
            assert(edges_script::<T>(n, per_edge_timeout, patience, logs) =~= Seq::empty());
            logs = logs.push(log);
            assert(bus.ran(*old(bus), edges_script::<T>(n, per_edge_timeout, patience, logs)));
        }
        let mut prev: u16 = match r {
            Ok(t) => t,
            Err(e) => {
                assert(period_outcome(logs, periods, fresh, Err(e)));
                return Err(e);
            },
        };
        let mut total: u32 = 0;
        let mut done: u16 = 0;
        while done < periods
            invariant
                done <= periods,
                self.same(*old(self)),
                n == old(self).number(),
                patience == old(bus).patience(),
                fresh == old(self).fresh(),
                !self.fresh(),
                logs.len() == done + 1,
                all_good(logs, fresh),
                prev == stamp(logs.last()),
                total == total_ticks(stamps(logs)),
                total <= done * 0xFFFF,
                bus.ran(*old(bus), edges_script::<T>(n, per_edge_timeout, patience, logs)),
            decreases periods - done,
        {
            let ghost so_far = logs;
            let (log, r) = self.edge(bus, per_edge_timeout);
            proof {
                logs = logs.push(log);
                assert(logs.drop_last() =~= so_far);
                assert(bus.ran(*old(bus), edges_script::<T>(n, per_edge_timeout, patience, logs)));
            }
            let t: u16 = match r {
                Ok(t) => t,
                Err(e) => {
                    assert(period_outcome(logs, periods, fresh, Err(e)));
                    return Err(e);
                },
            };
            proof {
                assert(stamps(logs).drop_last() =~= stamps(so_far));
                assert(stamps(logs).last() == t);
                assert(stamps(logs)[logs.len() - 2] == prev);
                assert(all_good(logs, fresh)) by {
                    assert forall|k: int| 0 <= k < logs.len() implies log_fits(
                        #[trigger] logs[k],
                    ) && edge_result(logs[k], fresh && k == 0) is Ok by {
                        if k < so_far.len() {
                            assert(logs[k] == so_far[k]);
                        }
                    }
                }
            }
            total = total + t.wrapping_sub(prev) as u32;
            prev = t;
            done = done + 1;
        }
        proof {
            let front = logs.drop_last();
            assert forall|k: int| 0 <= k < front.len() implies log_fits(#[trigger] front[k])
                && edge_result(front[k], fresh && k == 0) is Ok by {
                assert(front[k] == logs[k]);
            }
            assert(edge_result(logs[logs.len() - 1], fresh && logs.len() == 1) is Ok);
            assert(period_outcome(logs, periods, fresh, Ok(total)));
        }
        Ok(total)
    }

    /// The frequency of the input over `periods` periods.
    pub fn frequency_hz<H: Hardware>(
        &mut self,
        bus: &mut Bus<H>,
        periods: u16,
        per_edge_timeout: u16,
    ) -> (r: Result<u32, Error>)
        ensures
            final(self).same(*old(self)),
            exists|logs: Seq<EdgeLog>, total: Result<u32, Error>|
                {
                    &&& #[trigger] period_outcome(logs, periods, old(self).fresh(), total)
                    &&& final(self).fresh() == fresh_after(logs, old(self).fresh())
                    &&& final(bus).ran(
                        *old(bus),
                        edges_script::<T>(
                            old(self).number(),
                            per_edge_timeout,
                            old(bus).patience(),
                            logs,
                        ),
                    )
                    &&& match total {
                        Err(e) => r == Err::<u32, Error>(e),
                        Ok(ticks) => r matches Ok(hz) && hz == if ticks == 0 {
                            0
                        } else {
                            crate::num::nearest(
                                old(self).rate() * periods,
                                ticks as int,
                            ) % 0x1_0000_0000
                        },
                    }
                },
    {
        match self.measure_period_ticks(bus, periods, per_edge_timeout) {
            Ok(total) => Ok(hz_from_period_ticks(self.tick_hz, total, periods as u32)),
            Err(e) => Err(e),
        }
    }

    /// The time between an edge and the first one that comes at least
    /// `min_wait_ticks` later; the edges between them are not looked at.
    pub fn measure_span_ticks<H: Hardware>(
        &mut self,
        bus: &mut Bus<H>,
        min_wait_ticks: u16,
        per_edge_timeout: u16,
    ) -> (r: Result<u16, Error>)
        ensures
            *final(self) == *old(self),
            exists|log: SpanLog|
                span_outcome(log, r) && final(bus).ran(
                    *old(bus),
                    #[trigger] span_script::<T>(
                        old(self).number(),
                        min_wait_ticks,
                        per_edge_timeout,
                        old(bus).patience(),
                        log,
                    ),
                ),
    {
        let ghost n = self.number();
        let ghost patience = bus.patience();
        let (a, r) = self.wait_fresh_stamp(bus, per_edge_timeout);
        let t0: u16 = match r {
            Ok(t) => t,
            Err(e) => {
                assert(bus.ran(
                    *old(bus),
                    span_script::<T>(
                        n,
                        min_wait_ticks,
                        per_edge_timeout,
                        patience,
                        SpanLog::First(a),
                    ),
                ));
                return Err(e);
            },
        };
        if !bus.poll16(reg_of::<T>(R), Cond::Elapsed { start: t0, ticks: min_wait_ticks }) {
            assert(bus.ran(
                *old(bus),
                span_script::<T>(
                    n,
                    min_wait_ticks,
                    per_edge_timeout,
                    patience,
                    SpanLog::Waiting(a),
                ),
            ));
            return Err(Error::Stalled);
        }
        let (b, r) = self.wait_fresh_stamp(bus, per_edge_timeout);
        assert(bus.ran(
            *old(bus),
            span_script::<T>(
                n,
                min_wait_ticks,
                per_edge_timeout,
                patience,
                SpanLog::Second(a, b),
            ),
        ));
        match r {
            Ok(t1) => Ok(t1.wrapping_sub(t0)),
            Err(e) => Err(e),
        }
    }

    fn wait_fresh_stamp<H: Hardware>(&mut self, bus: &mut Bus<H>, timeout_ticks: u16) -> (r: (
        EdgeLog,
        Result<u16, Error>,
    ))
        ensures
            *final(self) == *old(self),
            log_fits(r.0),
            r.1 == edge_result(r.0, true),
            final(bus).ran(
                *old(bus),
                bracket_script::<T>(old(self).number(), timeout_ticks, old(bus).patience(), r.0),
            ),
    {
        let cctl: u32 = cctl_of::<T>(self.channel);
        let counter: u32 = reg_of::<T>(R);
        let rounds: u64 = bus.attempts();
        bus.masked_edit16(cctl, CAPTURE_FLAGS, 0);
        let start: u16 = bus.read16(counter);
        let outcome = bus.guard16(
            cctl,
            Cond::Never,
            Cond::Bits { mask: CCIFG, want: CCIFG },
            counter,
            Cond::Elapsed { start, ticks: timeout_ticks },
            rounds,
        );
        match outcome {
            Outcome::Ready => {},
            Outcome::Tripped => {
                return (
                    EdgeLog { start, end: EdgeEnd::Missed(outcome) },
                    Err(Error::Timeout),
                );
            },
            _ => {
                return (
                    EdgeLog { start, end: EdgeEnd::Missed(outcome) },
                    Err(Error::Stalled),
                );
            },
        }
        let ts: u16 = bus.read16(ccr_of::<T>(self.channel));
        bus.masked_edit16(cctl, CAPTURE_FLAGS, 0);
        (EdgeLog { start, end: EdgeEnd::Stamp { ts, over: false } }, Ok(ts))
    }

    /// The duty cycle in thousandths, from three edges in a row: up, down, up.
    /// The channel captures both edges; the level after each one tells which
    /// it was. An input that does not move times out.
    pub fn measure_duty_permille<H: Hardware>(
        &mut self,
        bus: &mut Bus<H>,
        per_edge_timeout: u16,
    ) -> (r: Result<u16, Error>)
        ensures
            final(self).same(*old(self)),
            exists|logs: Seq<EdgeLog>, levels: Seq<bool>|
                {
                    &&& duty_outcome(logs, levels, old(self).fresh(), r)
                    &&& final(self).fresh() == fresh_after(logs, old(self).fresh())
                    &&& final(bus).ran(
                        *old(bus),
                        #[trigger] duty_script::<T>(
                            old(self).number(),
                            per_edge_timeout,
                            old(bus).patience(),
                            logs,
                            levels,
                        ),
                    )
                },
    {
        let ghost n = self.number();
        let ghost patience = bus.patience();
        let ghost fresh = self.fresh();
        let ghost mut logs: Seq<EdgeLog> = Seq::empty();
        let ghost mut levels: Seq<bool> = Seq::empty();
        let mut t_rise: u16 = 0;
        let mut t_fall: u16 = 0;
        let mut rises: u8 = 0;
        let mut falls: u8 = 0;
        let mut edges: u8 = 0;
        assert(duty_script::<T>(n, per_edge_timeout, patience, logs, levels) =~= Seq::empty());
        while edges < 4
            invariant
                edges <= 3,
                self.same(*old(self)),
                n == old(self).number(),
                patience == old(bus).patience(),
                fresh == old(self).fresh(),
                self.fresh() == (fresh && edges == 0),
                logs.len() == edges,
                levels.len() == edges,
                all_good(logs, fresh),
                in_step(levels),
                rises == 0 ==> levels =~= Seq::<bool>::empty() || levels =~= seq![false],
                rises == 1 ==> levels.len() > 0 && t_rise == stamp(logs[rise_at(levels)]),
                rises == 1 && falls == 0 ==> levels.len() == rise_at(levels) + 1,
                rises == 1 && falls == 1 ==> levels.len() == rise_at(levels) + 2 && t_fall == stamp(
                    logs[rise_at(levels) + 1],
                ),
                rises <= 1,
                falls <= rises,
                bus.ran(
                    *old(bus),
                    duty_script::<T>(n, per_edge_timeout, patience, logs, levels),
                ),
            decreases 4 - edges,
        {
            let ghost logs0 = logs;
            let ghost levels0 = levels;
            let (log, r) = self.edge(bus, per_edge_timeout);
            proof {
                logs = logs.push(log);
                assert(logs.drop_last() =~= logs0);
                assert(bus.ran(
                    *old(bus),
                    duty_script::<T>(n, per_edge_timeout, patience, logs, levels),
                ));
            }
            let t: u16 = match r {
                Ok(t) => t,
                Err(e) => {
                    assert(duty_outcome(logs, levels, fresh, Err(e)));
                    return Err(e);
                },
            };
            if falls == 1 {
                let high: u32 = t_fall.wrapping_sub(t_rise) as u32;
                let period: u32 = t.wrapping_sub(t_rise) as u32;
                let permille: u16 = duty_permille(high, period);
                assert(duty_outcome(logs, levels, fresh, Ok(permille)));
                return Ok(permille);
            }
            let level: bool = self.input_level(bus);
            proof {
                levels = levels.push(level);
                assert(levels.drop_last() =~= levels0);
                assert(bus.ran(
                    *old(bus),
                    duty_script::<T>(n, per_edge_timeout, patience, logs, levels),
                ));
                assert(all_good(logs, fresh)) by {
                    assert forall|k: int| 0 <= k < logs.len() implies log_fits(
                        #[trigger] logs[k],
                    ) && edge_result(logs[k], fresh && k == 0) is Ok by {
                        if k < logs0.len() {
                            assert(logs[k] == logs0[k]);
                        }
                    }
                }
            }
            if rises == 0 {
                if level {
                    t_rise = t;
                    rises = 1;
                } else if edges > 0 {
                    assert(duty_outcome(logs, levels, fresh, Err(Error::LevelSync)));
                    return Err(Error::LevelSync);
                }
            } else {
                if level {
                    assert(duty_outcome(logs, levels, fresh, Err(Error::LevelSync)));
                    return Err(Error::LevelSync);
                }
                t_fall = t;
                falls = 1;
            }
            edges = edges + 1;
        }
        Err(Error::LevelSync)
    }

    /// Lets each capture fire the vector.
    pub fn enable_interrupt<H: Hardware>(&mut self, bus: &mut Bus<H>)
        ensures
            *final(self) == *old(self),
            final(bus).ran(*old(bus), seq![change(cctl::<T>(old(self).number()), 0, CCIE)]),
    {
        bus.masked_edit16(cctl_of::<T>(self.channel), 0, CCIE);
    }

    /// Stops that, and drops a waiting capture.
    pub fn disable_interrupt<H: Hardware>(&mut self, bus: &mut Bus<H>)
        ensures
            *final(self) == *old(self),
            final(bus).ran(
                *old(bus),
                seq![change(cctl::<T>(old(self).number()), CCIE | CCIFG, 0)],
            ),
    {
        bus.masked_edit16(cctl_of::<T>(self.channel), CCIE | CCIFG, 0);
    }
}

/// Vector value: a capture on channel 1.
pub const IV_CCR1: u16 = 0x0002;

/// Vector value: a capture on channel 2.
pub const IV_CCR2: u16 = 0x0004;

/// Vector value: an overflow of the counter.
pub const IV_OVERFLOW: u16 = 0x000E;

/// Reads the vector register, which clears the flag that it reports.
pub fn read_iv<T: Instance, H: Hardware>(bus: &mut Bus<H>) -> (iv: u16)
    ensures
        final(bus).ran(*old(bus), seq![Step::Read16 { addr: reg::<T>(IV), value: iv }]),
{
    bus.read16(reg_of::<T>(IV))
}

/// Stops the captures of a channel from firing the vector, from inside the
/// interrupt handler: a source faster than its handler would otherwise keep
/// the main program from ever running.
pub fn isr_disable_interrupt<T: Instance, H: Hardware>(bus: &mut Bus<H>, slot: Slot)
    ensures
        final(bus).ran(
            *old(bus),
            seq![Step::Edit16 { addr: cctl::<T>(slot.channel()), clear: CCIE, set: 0 }],
        ),
{
    bus.edit16(cctl_of::<T>(slot.number()), CCIE, 0);
}

/// A measurement that succeeds uses up the allowance of the first edge, so that
/// the next edge that is overwritten is reported.
pub proof fn lemma_success_ends_arming(
    logs: Seq<EdgeLog>,
    levels: Seq<bool>,
    periods: u16,
    fresh: bool,
    ticks: u32,
    permille: u16,
)
    requires
        period_outcome(logs, periods, fresh, Ok(ticks)) || duty_outcome(
            logs,
            levels,
            fresh,
            Ok(permille),
        ),
    ensures
        !fresh_after(logs, fresh),
{
}

/// In a measurement that succeeds every wait got its edge, and none but the
/// first after arming may have been overwritten.
pub proof fn lemma_only_first_overwritten(
    logs: Seq<EdgeLog>,
    periods: u16,
    fresh: bool,
    total: u32,
    k: int,
)
    requires
        period_outcome(logs, periods, fresh, Ok(total)),
        0 <= k < logs.len(),
    ensures
        logs[k].end matches EdgeEnd::Stamp { over, .. } && (over ==> fresh && k == 0),
{
    if k < logs.len() - 1 {
        assert(logs.drop_last()[k] == logs[k]);
    } else {
        assert(logs.last() == logs[k]);
    }
}

/// The measured time is right however often the counter ran over: where each
/// stamp is the low half of a time and neighbouring times are less than one
/// round of the counter apart, the total is the time from the first to the
/// last.
pub proof fn lemma_total_across_overflow(times: Seq<int>, stamps: Seq<u16>)
    requires
        times.len() == stamps.len() > 0,
        forall|k: int| 0 <= k < times.len() ==> #[trigger] stamps[k] == times[k] % 0x1_0000,
        forall|k: int|
            #![trigger times[k]]
            0 < k < times.len() ==> 0 <= times[k] - times[k - 1] < 0x1_0000,
    ensures
        total_ticks(stamps) == times.last() - times[0],
    decreases times.len(),
{
    if times.len() > 1 {
        let n = times.len() as int;
        assert forall|k: int| 0 <= k < n - 1 implies #[trigger] stamps.drop_last()[k]
            == times.drop_last()[k] % 0x1_0000 by {
            assert(stamps[k] == times[k] % 0x1_0000);
        }
        lemma_total_across_overflow(times.drop_last(), stamps.drop_last());
        let a = times[n - 2];
        let b = times[n - 1];
        assert(stamps[n - 2] == a % 0x1_0000);
        assert(stamps[n - 1] == b % 0x1_0000);
        assert(0 <= b - a < 0x1_0000);
        assert(stamps.last().wrapping_sub(stamps[n - 2]) == b - a);
    }
}

/// What a channel makes of its control word: it captures (bit 8), in step with
/// the counter (bit 11), its input `input` (in bits 13:12), on the rising edge (1
/// in bits 15:14), the falling edge (2) or both (3), with no flag set and no
/// interrupt.
pub proof fn lemma_channel_word<T: Instance>(n: u8, input: u16, edge: Edge)
    requires
        input == 0 || input == 0x1000 || input == 0x2000 || input == 0x3000,
        n < 3,
        T::BASE <= 0xF000,
    ensures
        channel_step::<T>(n, input, edge.field()) matches Step::Write16 { addr, value } && {
            &&& addr == T::BASE + 2 + 2 * n
            &&& value as int / 0x4000 == match edge {
                Edge::Rising => 1int,
                Edge::Falling => 2,
                Edge::Both => 3,
            }
            &&& value as int / 0x1000 % 4 == input as int / 0x1000
            &&& value as int % 0x1000 == 0x0800 + 0x0100
        },
{
}

/// The timers that capture, and the channels on which their pins arrive.
pub proof fn lemma_capture_pins()
    ensures
        Timer0A3::BASE == 0x0340,
        Timer1A3::BASE == 0x0380,
        <Pin<P1, 0, TimerA> as CapturePin<Timer0A3>>::CHANNEL == 1,
        <Pin<P1, 1, TimerA> as CapturePin<Timer0A3>>::CHANNEL == 2,
        <Pin<P1, 2, TimerA> as CapturePin<Timer1A3>>::CHANNEL == 1,
        <Pin<P1, 3, TimerA> as CapturePin<Timer1A3>>::CHANNEL == 2,
        Slot::Ccr1.channel() == 1,
        Slot::Ccr2.channel() == 2,
{
}

/// How an edge is waited for and collected: both flags of the channel (bits 1:0)
/// are cleared first, the counter (at 0x10 of the timer) is read for the timeout,
/// and the wait is for bit 0 of the channel. The stamp is the capture register
/// (at 0x12 of the timer for channel 0), read before bit 1 tells whether a later
/// edge overwrote it.
pub proof fn lemma_edge_steps<T: Instance>(
    n: u8,
    timeout: u16,
    patience: u64,
    start: u16,
    ts: u16,
    over: bool,
)
    requires
        n < 3,
        T::BASE <= 0xF000,
    ensures
        ({
            let log = EdgeLog { start, end: EdgeEnd::Stamp { ts, over } };
            let script = edge_script::<T>(n, timeout, patience, log);
            let control = (T::BASE + 2 + 2 * n) as u32;
            &&& script =~= seq![
                Step::Masked {
                    first: Edit::Update { addr: control, clear: 3, set: 0 },
                    second: None,
                },
                Step::Read16 { addr: (T::BASE + 0x10) as u32, value: start },
                Step::Guard16 {
                    addr: control,
                    fail: Cond::Never,
                    done: Cond::Bits { mask: 1, want: 1 },
                    watch: (T::BASE + 0x10) as u32,
                    trip: Cond::Elapsed { start, ticks: timeout },
                    budget: patience,
                    outcome: Outcome::Ready,
                },
                Step::Read16 { addr: (T::BASE + 0x12 + 2 * n) as u32, value: ts },
                Step::Test16 {
                    addr: control,
                    cond: Cond::Bits { mask: 2, want: 2 },
                    holds: over,
                },
                Step::Masked {
                    first: Edit::Update {
                        addr: control,
                        clear: if over {
                            3
                        } else {
                            1
                        },
                        set: 0,
                    },
                    second: None,
                },
            ]
        }),
{
}

/// What is reported of an edge: its stamp, unless none came, for which the timer
/// is at fault if it did not advance, or one was overwritten that was not the
/// first since the channel was armed.
pub proof fn lemma_edge_reported(log: EdgeLog, fresh: bool)
    requires
        log_fits(log),
    ensures
        match edge_result(log, fresh) {
            Ok(ts) => log.end matches EdgeEnd::Stamp { ts: t, over } && t == ts && (over ==> fresh),
            Err(Error::Timeout) => log.end == EdgeEnd::Missed(Outcome::Tripped),
            Err(Error::Stalled) => log.end == EdgeEnd::Missed(Outcome::Exhausted),
            Err(Error::Overcapture) => log.end matches EdgeEnd::Stamp { over, .. } && over && !fresh,
            Err(Error::LevelSync) => false,
        },
{
}

/// The span between two edges is the time between them, also where the counter
/// ran over meanwhile, if it is less than a round.
pub proof fn lemma_span_is_time(a: EdgeLog, b: EdgeLog, ticks: u16, from: int, to: int)
    requires
        span_outcome(SpanLog::Second(a, b), Ok(ticks)),
        0 <= from <= to < from + 0x1_0000,
        a.end matches EdgeEnd::Stamp { ts, .. } && ts == from % 0x1_0000,
        b.end matches EdgeEnd::Stamp { ts, .. } && ts == to % 0x1_0000,
    ensures
        ticks == to - from,
{
}

/// Between the two edges of a span the counter goes on by at least the wait: it
/// is measured from the stamp of the first, on the counter itself.
pub proof fn lemma_span_waits<T: Instance>(
    n: u8,
    min_wait: u16,
    timeout: u16,
    patience: u64,
    a: EdgeLog,
    b: EdgeLog,
)
    requires
        n < 3,
        T::BASE <= 0xF000,
        a.end is Stamp,
    ensures
        ({
            let script = span_script::<T>(n, min_wait, timeout, patience, SpanLog::Second(a, b));
            let ts = a.end->ts;
            &&& script[3] == (Step::Read16 { addr: (T::BASE + 0x12 + 2 * n) as u32, value: ts })
            &&& script[5] == (Step::Poll16 {
                addr: (T::BASE + 0x10) as u32,
                until: Cond::Elapsed { start: ts, ticks: min_wait },
                budget: patience,
                met: true,
            })
        }),
{
}

/// A duty cycle is the share of the time from a rising edge to the next in which
/// the input was high, in thousandths and to half of one. `up`, `down` and
/// `again` are the times of the rising, the falling and the next rising edge,
/// less than a round of the counter apart; after the rising edge the input was
/// seen high and after the falling one low.
#[verifier::rlimit(40)]
#[verifier::spinoff_prover]
pub proof fn lemma_duty_is_share(
    logs: Seq<EdgeLog>,
    levels: Seq<bool>,
    fresh: bool,
    permille: u16,
    up: int,
    down: int,
    again: int,
)
    requires
        duty_outcome(logs, levels, fresh, Ok(permille)),
        0 <= up < down < again < up + 0x1_0000,
        stamp(logs[logs.len() - 3]) == up % 0x1_0000,
        stamp(logs[logs.len() - 2]) == down % 0x1_0000,
        stamp(logs[logs.len() - 1]) == again % 0x1_0000,
    ensures
        levels.len() == logs.len() - 1,
        levels[levels.len() - 2],
        !levels[levels.len() - 1],
        -(again - up) <= 2 * (permille * (again - up) - 1000 * (down - up)) <= again - up,
{
    let n = levels.len() as int;
    if levels[0] {
        assert(n == 2);
        assert(levels =~= seq![true, false]);
    } else {
        assert(n == 3);
        assert(levels =~= seq![false, true, false]);
    }
    assert(rise_at(levels) == logs.len() - 3);
    let high = stamp(logs[logs.len() - 2]).wrapping_sub(stamp(logs[logs.len() - 3]));
    let period = stamp(logs[logs.len() - 1]).wrapping_sub(stamp(logs[logs.len() - 3]));
    assert(high == down - up);
    assert(period == again - up);
    crate::capture_math::lemma_duty_exact(high as u32, period as u32);
}

/// The level is bit 3 of the channel.
pub proof fn lemma_level_bit<T: Instance>(n: u8, high: bool)
    requires
        n < 3,
        T::BASE <= 0xF000,
    ensures
        level_look::<T>(n, high) == (Step::Test16 {
            addr: (T::BASE + 2 + 2 * n) as u32,
            cond: Cond::Bits { mask: 8, want: 8 },
            holds: high,
        }),
{
}

/// Where the registers lie, and which bits and values they have.
pub proof fn lemma_layout()
    ensures
        CTL == 0x00,
        CCTL0 == 0x02,
        R == 0x10,
        CCR0 == 0x12,
        IV == 0x2E,
        TASSEL_ACLK == 0x0100,
        TASSEL_SMCLK == 0x0200,
        MC_CONTINUOUS == 32,
        TACLR == 4,
        TAIE == 2,
        TAIFG == 1,
        CM_MASK == 0xC000,
        CM_RISING == 0x4000,
        CM_FALLING == 0x8000,
        CM_BOTH == 0xC000,
        CCIS_MASK == 0x3000,
        CCIS_A == 0,
        CCIS_B == 0x1000,
        CCIS_GND == 0x2000,
        CCIS_VCC == 0x3000,
        SCS == 0x0800,
        CAP == 0x0100,
        CCIE == 16,
        CCI == 8,
        COV == 2,
        CCIFG == 1,
        CAPTURE_FLAGS == 3,
        IV_CCR1 == 2,
        IV_CCR2 == 4,
        IV_OVERFLOW == 14,
{
}

/// The stamps that some steps take from the capture register of a channel, at
/// 0x12 of the timer for channel 0.
pub open spec fn stamps_taken<T: Instance>(n: u8, script: Seq<Step>) -> Seq<u16>
    decreases script.len(),
{
    if script.len() == 0 {
        Seq::empty()
    } else {
        let front = stamps_taken::<T>(n, script.drop_last());
        match script.last() {
            Step::Read16 { addr, value } => if addr == T::BASE + 0x12 + 2 * n {
                front.push(value)
            } else {
                front
            },
            _ => front,
        }
    }
}

proof fn lemma_stamps_join<T: Instance>(n: u8, a: Seq<Step>, b: Seq<Step>)
    ensures
        stamps_taken::<T>(n, a + b) =~= stamps_taken::<T>(n, a) + stamps_taken::<T>(n, b),
    decreases b.len(),
{
    if b.len() == 0 {
        assert(a + b =~= a);
    } else {
        assert((a + b).drop_last() =~= a + b.drop_last());
        lemma_stamps_join::<T>(n, a, b.drop_last());
    }
}

proof fn lemma_edge_stamp<T: Instance>(n: u8, timeout: u16, patience: u64, log: EdgeLog)
    requires
        n < 3,
        T::BASE <= 0xF000,
        log.end is Stamp,
    ensures
        stamps_taken::<T>(n, edge_script::<T>(n, timeout, patience, log)) =~= seq![stamp(log)],
{
    let script = edge_script::<T>(n, timeout, patience, log);
    let s5 = script.drop_last();
    let s4 = s5.drop_last();
    let s3 = s4.drop_last();
    let s2 = s3.drop_last();
    let s1 = s2.drop_last();
    assert(script.last() is Masked);
    assert(s5.last() is Test16);
    assert(s4.last() == (Step::Read16 { addr: ccr::<T>(n), value: stamp(log) }));
    assert(s3.last() is Guard16);
    assert(s2.last() == (Step::Read16 { addr: reg::<T>(R), value: log.start }));
    assert(s1.last() is Masked);
    assert(s1.drop_last() =~= Seq::empty());
    reveal_with_fuel(stamps_taken, 7);
}

/// The period that is measured is the time that the edges took: the stamps are
/// those that the channel captured, one for each edge, and `times` are the times
/// of the edges, each less than a round of the counter after the one before.
pub proof fn lemma_period_is_time<T: Instance>(
    n: u8,
    timeout: u16,
    patience: u64,
    logs: Seq<EdgeLog>,
    periods: u16,
    fresh: bool,
    total: u32,
    times: Seq<int>,
)
    requires
        n < 3,
        T::BASE <= 0xF000,
        period_outcome(logs, periods, fresh, Ok(total)),
        times.len() == periods + 1,
        ({
            let taken = stamps_taken::<T>(n, edges_script::<T>(n, timeout, patience, logs));
            taken =~= Seq::new(times.len(), |k: int| (times[k] % 0x1_0000) as u16)
        }),
        forall|k: int|
            #![trigger times[k]]
            0 < k < times.len() ==> 0 <= times[k] - times[k - 1] < 0x1_0000,
    ensures
        total == times.last() - times[0],
{
    assert forall|k: int| 0 <= k < logs.len() implies (#[trigger] logs[k]).end is Stamp by {
        lemma_only_first_overwritten(logs, periods, fresh, total, k);
    }
    lemma_edges_stamps::<T>(n, timeout, patience, logs);
    assert forall|k: int| 0 <= k < times.len() implies #[trigger] stamps(logs)[k] == times[k]
        % 0x1_0000 by {
        let taken = stamps_taken::<T>(n, edges_script::<T>(n, timeout, patience, logs));
        assert(taken[k] == (times[k] % 0x1_0000) as u16);
    }
    lemma_total_across_overflow(times, stamps(logs));
}

proof fn lemma_edges_stamps<T: Instance>(n: u8, timeout: u16, patience: u64, logs: Seq<EdgeLog>)
    requires
        n < 3,
        T::BASE <= 0xF000,
        forall|k: int| 0 <= k < logs.len() ==> (#[trigger] logs[k]).end is Stamp,
    ensures
        stamps_taken::<T>(n, edges_script::<T>(n, timeout, patience, logs)) =~= stamps(logs),
    decreases logs.len(),
{
    if logs.len() > 0 {
        let front = logs.drop_last();
        assert forall|k: int| 0 <= k < front.len() implies (#[trigger] front[k]).end is Stamp by {
            assert(front[k] == logs[k]);
        }
        lemma_edges_stamps::<T>(n, timeout, patience, front);
        let s1 = edges_script::<T>(n, timeout, patience, front);
        let s2 = edge_script::<T>(n, timeout, patience, logs.last());
        assert(logs[logs.len() - 1] == logs.last());
        lemma_edge_stamp::<T>(n, timeout, patience, logs.last());
        lemma_stamps_join::<T>(n, s1, s2);
        assert(stamps(logs) =~= stamps(front) + seq![stamp(logs.last())]);
    }
}

} // verus!
