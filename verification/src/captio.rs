//! Capacitive touch: a pad made to oscillate at a rate that falls when it is
//! touched, and the timer that counts the oscillation.
//!
//! Each of the two instances feeds one internal timer. [`TouchSense`] owns both
//! and lets the timer count; a frequency is a count over a time that a
//! [`Counter`] measures.
use vstd::prelude::*;

use crate::bus::{Bus, Cond, Edit, Hardware, Stalled, Step};
use crate::gpio::{Floating, Input, Pin, P1, P2, P3, P4};
use crate::pac::{CapacitiveTouchIo0, CapacitiveTouchIo1, Timer2A2, Timer3A2};
use crate::timer::{Counter, TA0R};
pub use crate::captio_ctl::{ctl_word, hz_from_gate, CAPTIOEN, CAPTIO_STATE};

verus! {

broadcast use crate::trace::group_growth;

/// Timer control, as an offset from the base of a timer.
pub const CTL: u32 = 0x00;

/// Counter.
pub const R: u32 = 0x10;

/// Interrupt vector.
pub const IV: u32 = 0x2E;

/// Overflow interrupt enable.
pub const TAIE: u16 = 0x0002;

/// Overflow.
pub const TAIFG: u16 = 0x0001;

/// Count the oscillation through all values, from zero.
pub const RUN_FROM_ZERO: u16 = 0x0324;

/// Marks the instances and ports that the device has.
pub trait Sealed {

}

/// A touch block with the timer that it feeds.
pub trait Instance: Sealed {
    /// Address of the control register.
    const CTL_ADDR: u32;

    /// Base address of the timer.
    const TIMER_BASE: u32;

    /// The timer.
    type Timer;

    /// All registers of the timer lie in the low 64 KB.
    proof fn base_fits()
        ensures
            Self::TIMER_BASE <= 0xF000,
    ;
}

impl Sealed for CapacitiveTouchIo0 {

}

impl Instance for CapacitiveTouchIo0 {
    const CTL_ADDR: u32 = 0x043E;

    const TIMER_BASE: u32 = 0x0400;

    type Timer = Timer2A2;

    proof fn base_fits() {
    }
}

impl Sealed for CapacitiveTouchIo1 {

}

impl Instance for CapacitiveTouchIo1 {
    const CTL_ADDR: u32 = 0x047E;

    const TIMER_BASE: u32 = 0x0440;

    type Timer = Timer3A2;

    proof fn base_fits() {
    }
}

/// A port that a touch block can select.
pub trait CaptioPort: Sealed {
    /// Its selection code.
    const POSEL: u8;
}

impl Sealed for P1 {

}

impl CaptioPort for P1 {
    const POSEL: u8 = 1;
}

impl Sealed for P2 {

}

impl CaptioPort for P2 {
    const POSEL: u8 = 2;
}

impl Sealed for P3 {

}

impl CaptioPort for P3 {
    const POSEL: u8 = 3;
}

impl Sealed for P4 {

}

impl CaptioPort for P4 {
    const POSEL: u8 = 4;
}

/// The ports by name.
#[derive(Clone, Copy, PartialEq, Eq, Structural, Debug)]
pub enum Port {
    /// Port J; its pins 4 and 5 carry the crystal.
    PJ,
    /// Port 1.
    P1,
    /// Port 2.
    P2,
    /// Port 3.
    P3,
    /// Port 4.
    P4,
}

impl Port {
    /// The selection code.
    pub open spec fn code(self) -> u8 {
        match self {
            Port::PJ => 0,
            Port::P1 => 1,
            Port::P2 => 2,
            Port::P3 => 3,
            Port::P4 => 4,
        }
    }

    fn posel(self) -> (r: u8)
        ensures
            r == self.code(),
    {
        match self {
            Port::PJ => 0,
            Port::P1 => 1,
            Port::P2 => 2,
            Port::P3 => 3,
            Port::P4 => 4,
        }
    }
}

/// A port has no pin of that number.
#[derive(Clone, Copy, PartialEq, Eq, Structural, Debug)]
pub struct InvalidPin;

/// A register of the timer of `C`.
pub open spec fn reg<C: Instance>(offset: u32) -> u32 {
    (C::TIMER_BASE + offset) as u32
}

fn reg_of<C: Instance>(offset: u32) -> (r: u32)
    requires
        offset <= 0x100,
    ensures
        r == reg::<C>(offset),
{
    proof {
        C::base_fits();
    }
    C::TIMER_BASE + offset
}

/// The word stored in the control register.
pub open spec fn route_step<C: Instance>(word: u16) -> Step {
    Step::Write16 { addr: C::CTL_ADDR, value: word }
}

/// The count started from zero.
pub open spec fn restart_step<C: Instance>() -> Step {
    Step::Write16 { addr: reg::<C>(CTL), value: RUN_FROM_ZERO }
}

/// What a gated count saw.
pub struct Gate {
    /// The counter at the start.
    pub start: u16,
    /// The counter at the end.
    pub end: u16,
    /// The control word while the pad oscillated.
    pub ctl: u16,
    /// The count.
    pub counts: u16,
    /// The count ran over.
    pub wrapped: bool,
}

/// The beginning of a gated count; `met` says whether the time passed.
pub open spec fn gate_open_script<C: Instance>(
    start: u16,
    gate_ticks: u16,
    patience: u64,
    met: bool,
) -> Seq<Step> {
    seq![
        restart_step::<C>(),
        Step::Read16 { addr: TA0R, value: start },
        Step::Poll16 {
            addr: TA0R,
            until: Cond::Elapsed { start, ticks: gate_ticks },
            budget: patience,
            met,
        },
    ]
}

/// A whole gated count. The oscillation is stopped before the count is read
/// and started again as it was routed.
pub open spec fn gate_script<C: Instance>(gate: Gate, gate_ticks: u16, patience: u64) -> Seq<Step> {
    gate_open_script::<C>(gate.start, gate_ticks, patience, true) + seq![
        Step::Read16 { addr: C::CTL_ADDR, value: gate.ctl },
        route_step::<C>(0),
        Step::Read16 { addr: TA0R, value: gate.end },
        Step::Read16 { addr: reg::<C>(R), value: gate.counts },
        Step::Test16 { addr: reg::<C>(CTL), cond: Cond::all_set(TAIFG), holds: gate.wrapped },
        route_step::<C>(gate.ctl & !CAPTIO_STATE),
    ]
}

/// A touch block and its timer.
pub struct TouchSense<C: Instance> {
    captio: C,
    timer: C::Timer,
}

impl<C: Instance> TouchSense<C> {
    /// The touch block.
    pub closed spec fn block(self) -> C {
        self.captio
    }

    /// The timer.
    pub closed spec fn counts_with(self) -> C::Timer {
        self.timer
    }

    /// Takes the block and its timer. No pad is routed, so the count stays at
    /// zero.
    pub fn new<H: Hardware>(captio: C, timer: C::Timer, bus: &mut Bus<H>) -> (r: Self)
        ensures
            r.block() == captio,
            r.counts_with() == timer,
            final(bus).ran(*old(bus), seq![route_step::<C>(0), restart_step::<C>()]),
    {
        bus.write16(C::CTL_ADDR, 0);
        bus.write16(reg_of::<C>(CTL), RUN_FROM_ZERO);
        TouchSense { captio, timer }
    }

    /// Lets a pin oscillate. It is borrowed as a floating input: a driver or a
    /// pull resistor would work against the oscillation.
    pub fn route_pin<H: Hardware, PORT: CaptioPort, const N: u8>(
        &mut self,
        bus: &mut Bus<H>,
        _pin: &Pin<PORT, N, Input<Floating>>,
    )
        ensures
            *final(self) == *old(self),
            final(bus).ran(
                *old(bus),
                seq![
                    route_step::<C>(
                        if PORT::POSEL <= 15 && N <= 7 {
                            crate::captio_ctl::routed(PORT::POSEL as int, N as int) as u16
                        } else {
                            0
                        },
                    ),
                ],
            ),
    {
        let word: u16 = match ctl_word(PORT::POSEL, N) {
            Some(w) => w,
            None => 0,
        };
        bus.write16(C::CTL_ADDR, word);
    }

    /// Lets a pad oscillate that is given by port and number. Nothing is done
    /// where the port has no such pin.
    pub fn route_raw<H: Hardware>(&mut self, bus: &mut Bus<H>, port: Port, pin: u8) -> (r: Result<
        (),
        InvalidPin,
    >)
        ensures
            *final(self) == *old(self),
            r is Ok <==> pin <= 7,
            final(bus).ran(
                *old(bus),
                if pin <= 7 {
                    seq![
                        route_step::<C>(
                            crate::captio_ctl::routed(port.code() as int, pin as int) as u16,
                        ),
                    ]
                } else {
                    Seq::empty()
                },
            ),
    {
        match ctl_word(port.posel(), pin) {
            Some(word) => {
                bus.write16(C::CTL_ADDR, word);
                Ok(())
            },
            None => Err(InvalidPin),
        }
    }

    /// Stops the oscillation; the count stays where it is.
    pub fn disable<H: Hardware>(&mut self, bus: &mut Bus<H>)
        ensures
            *final(self) == *old(self),
            final(bus).ran(*old(bus), seq![route_step::<C>(0)]),
    {
        bus.write16(C::CTL_ADDR, 0);
    }

    /// The control register.
    pub fn ctl<H: Hardware>(&self, bus: &mut Bus<H>) -> (r: u16)
        ensures
            final(bus).ran(*old(bus), seq![Step::Read16 { addr: C::CTL_ADDR, value: r }]),
    {
        bus.read16(C::CTL_ADDR)
    }

    /// The state of the oscillation.
    pub fn state<H: Hardware>(&self, bus: &mut Bus<H>) -> (r: bool)
        ensures
            final(bus).ran(
                *old(bus),
                seq![
                    Step::Test16 {
                        addr: C::CTL_ADDR,
                        cond: Cond::all_set(CAPTIO_STATE),
                        holds: r,
                    },
                ],
            ),
    {
        bus.is_set16(C::CTL_ADDR, CAPTIO_STATE)
    }

    /// The count. It may be read in the middle of a change.
    pub fn count<H: Hardware>(&self, bus: &mut Bus<H>) -> (r: u16)
        ensures
            final(bus).ran(*old(bus), seq![Step::Read16 { addr: reg::<C>(R), value: r }]),
    {
        bus.read16(reg_of::<C>(R))
    }

    /// Counts from zero again; an armed overflow interrupt is disarmed.
    pub fn restart_count<H: Hardware>(&self, bus: &mut Bus<H>)
        ensures
            final(bus).ran(*old(bus), seq![restart_step::<C>()]),
    {
        bus.write16(reg_of::<C>(CTL), RUN_FROM_ZERO);
    }

    /// The frequency of the oscillation, from a count over at least
    /// `gate_ticks` of `counter`; `None` where the count ran over, because
    /// what is left of it would look like a low frequency.
    pub fn measure_hz<H: Hardware>(
        &self,
        bus: &mut Bus<H>,
        counter: &Counter,
        gate_ticks: u16,
    ) -> (r: Result<Option<u32>, Stalled>)
        ensures
            match r {
                Err(_) => exists|start: u16|
                    final(bus).ran(
                        *old(bus),
                        #[trigger] gate_open_script::<C>(
                            start,
                            gate_ticks,
                            old(bus).patience(),
                            false,
                        ),
                    ),
                Ok(hz) => exists|gate: Gate|
                    {
                        &&& final(bus).ran(
                            *old(bus),
                            #[trigger] gate_script::<C>(gate, gate_ticks, old(bus).patience()),
                        )
                        &&& hz == if gate.wrapped {
                            None
                        } else {
                            Some(
                                crate::captio_ctl::gate_frequency(
                                    gate.counts,
                                    gate.end.wrapping_sub(gate.start),
                                    counter.rate(),
                                ) as u32,
                            )
                        }
                    },
            },
    {
        self.restart_count(bus);
        let start: u16 = counter.now(bus);
        if !bus.poll16(TA0R, Cond::Elapsed { start, ticks: gate_ticks }) {
            assert(bus.ran(
                *old(bus),
                gate_open_script::<C>(start, gate_ticks, old(bus).patience(), false),
            ));
            return Err(Stalled);
        }
        let ctl: u16 = self.ctl(bus);
        bus.write16(C::CTL_ADDR, 0);
        let end: u16 = counter.now(bus);
        let counts: u16 = self.count(bus);
        let wrapped: bool = bus.is_set16(reg_of::<C>(CTL), TAIFG);
        bus.write16(C::CTL_ADDR, ctl & !CAPTIO_STATE);
        assert(bus.ran(
            *old(bus),
            gate_script::<C>(
                Gate { start, end, ctl, counts, wrapped },
                gate_ticks,
                old(bus).patience(),
            ),
        ));
        if wrapped {
            return Ok(None);
        }
        Ok(Some(hz_from_gate(counts, end.wrapping_sub(start), counter.tick_hz())))
    }

    /// Lets each overflow of the count fire the vector. A stale overflow is
    /// dropped first.
    pub fn enable_overflow_interrupt<H: Hardware>(&mut self, bus: &mut Bus<H>)
        ensures
            *final(self) == *old(self),
            final(bus).ran(
                *old(bus),
                seq![
                    Step::Masked {
                        first: Edit::Update { addr: reg::<C>(CTL), clear: TAIFG, set: TAIE },
                        second: None,
                    },
                ],
            ),
    {
        bus.masked_edit16(reg_of::<C>(CTL), TAIFG, TAIE);
    }

    /// Stops that, and drops a pending overflow.
    pub fn disable_overflow_interrupt<H: Hardware>(&mut self, bus: &mut Bus<H>)
        ensures
            *final(self) == *old(self),
            final(bus).ran(
                *old(bus),
                seq![
                    Step::Masked {
                        first: Edit::Update { addr: reg::<C>(CTL), clear: TAIE | TAIFG, set: 0 },
                        second: None,
                    },
                ],
            ),
    {
        bus.masked_edit16(reg_of::<C>(CTL), TAIE | TAIFG, 0);
    }

    /// Gives the block and the timer back, as they are.
    pub fn free(self) -> (r: (C, C::Timer))
        ensures
            r == (self.block(), self.counts_with()),
    {
        (self.captio, self.timer)
    }
}

/// Vector value: an overflow of the count.
pub const IV_OVERFLOW: u16 = 0x000E;

/// Reads the vector register of the timer, which clears the flag that it
/// reports.
pub fn read_timer_iv<C: Instance, H: Hardware>(bus: &mut Bus<H>) -> (iv: u16)
    ensures
        final(bus).ran(*old(bus), seq![Step::Read16 { addr: reg::<C>(IV), value: iv }]),
{
    bus.read16(reg_of::<C>(IV))
}

/// Stops the overflows from firing the vector, from inside the interrupt
/// handler.
pub fn isr_disable_overflow_interrupt<C: Instance, H: Hardware>(bus: &mut Bus<H>)
    ensures
        final(bus).ran(
            *old(bus),
            seq![Step::Edit16 { addr: reg::<C>(CTL), clear: TAIE, set: 0 }],
        ),
{
    bus.edit16(reg_of::<C>(CTL), TAIE, 0);
}

/// Whatever a gated count finds, the pad ends up routed as it was: the last
/// step stores the control word that was read, without the state bit.
pub proof fn lemma_gate_restores_route<C: Instance>(gate: Gate, gate_ticks: u16, patience: u64)
    ensures
        gate_script::<C>(gate, gate_ticks, patience).last() == route_step::<C>(
            gate.ctl & !CAPTIO_STATE,
        ),
{
}

/// How a pad is counted: its timer starts from zero on the oscillation (source 3
/// in bits 9:8, 2 in bits 5:4, bit 2), the time is taken on the other timer's
/// counter, then the pad is stopped, and the count and the overflow flag are read
/// from the pad's timer before the pad goes on with bit 9 clear.
pub proof fn lemma_gate_steps<C: Instance>(gate: Gate, gate_ticks: u16, patience: u64)
    requires
        C::TIMER_BASE <= 0xF000,
    ensures
        ({
            let script = gate_script::<C>(gate, gate_ticks, patience);
            let base = C::TIMER_BASE;
            &&& script.len() == 9
            &&& script[0] == (Step::Write16 {
                addr: base,
                value: (3 * 0x0100 + 2 * 0x0010 + 4) as u16,
            })
            &&& script[1] == (Step::Read16 { addr: 0x0350, value: gate.start })
            &&& script[2] == (Step::Poll16 {
                addr: 0x0350,
                until: Cond::Elapsed { start: gate.start, ticks: gate_ticks },
                budget: patience,
                met: true,
            })
            &&& script[3] == (Step::Read16 { addr: C::CTL_ADDR, value: gate.ctl })
            &&& script[4] == (Step::Write16 { addr: C::CTL_ADDR, value: 0 })
            &&& script[5] == (Step::Read16 { addr: 0x0350, value: gate.end })
            &&& script[6] == (Step::Read16 { addr: (base + 0x10) as u32, value: gate.counts })
            &&& script[7] == (Step::Test16 {
                addr: base,
                cond: Cond::Bits { mask: 1, want: 1 },
                holds: gate.wrapped,
            })
            &&& script[8] == (Step::Write16 { addr: C::CTL_ADDR, value: gate.ctl & !0x0200u16 })
        }),
{
}

/// The blocks and their timers, and the numbers of the ports.
pub proof fn lemma_blocks()
    ensures
        CapacitiveTouchIo0::CTL_ADDR == 0x043E,
        CapacitiveTouchIo0::TIMER_BASE == 0x0400,
        CapacitiveTouchIo1::CTL_ADDR == 0x047E,
        CapacitiveTouchIo1::TIMER_BASE == 0x0440,
        P1::POSEL == 1 && P2::POSEL == 2 && P3::POSEL == 3 && P4::POSEL == 4,
        Port::PJ.code() == 0 && Port::P1.code() == P1::POSEL && Port::P2.code() == P2::POSEL,
        Port::P3.code() == P3::POSEL && Port::P4.code() == P4::POSEL,
{
}

/// Where the registers lie, and which bits and values they have.
pub proof fn lemma_layout()
    ensures
        CTL == 0x00,
        R == 0x10,
        IV == 0x2E,
        TAIE == 2,
        TAIFG == 1,
        RUN_FROM_ZERO == 0x0324,
        IV_OVERFLOW == 14,
{
}

} // verus!
