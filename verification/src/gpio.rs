//! General-purpose port pins, typed by port, number and mode.
//!
//! A [`Pin`] is a value without data: its type says which pin it is and how
//! the pin is configured, and each mode change is a method that consumes the
//! pin and returns it under its new type.
use vstd::prelude::*;

use core::marker::PhantomData;

use crate::bus::{Bus, Hardware, Step};
use crate::memory::Memory;
use crate::pac::{Pmm, Port1_2, Port3_4};

verus! {

broadcast use crate::trace::group_growth;

/// Input mode; the parameter names the pull resistor.
pub struct Input<PULL = Floating> {
    _pull: PhantomData<PULL>,
}

/// Push-pull output mode.
pub struct Output;

/// Analog mode: the digital path is disconnected.
pub struct Analog;

/// The capture input of a Timer_A.
pub struct TimerA;

/// No pull resistor.
pub struct Floating;

/// Pull-up resistor.
pub struct PullUp;

/// Pull-down resistor.
pub struct PullDown;

/// Port 1.
pub struct P1;

/// Port 2.
pub struct P2;

/// Port 3.
pub struct P3;

/// Port 4.
pub struct P4;

/// The addresses of a port's byte registers.
pub trait PortRegs {
    /// Input.
    const IN: u32;

    /// Output.
    const OUT: u32;

    /// Direction.
    const DIR: u32;

    /// Pull resistor enable.
    const REN: u32;

    /// Function select, low bit.
    const SEL0: u32;

    /// Function select, high bit.
    const SEL1: u32;
}

impl PortRegs for P1 {
    const IN: u32 = 0x0200;

    const OUT: u32 = 0x0202;

    const DIR: u32 = 0x0204;

    const REN: u32 = 0x0206;

    const SEL0: u32 = 0x020A;

    const SEL1: u32 = 0x020C;
}

impl PortRegs for P2 {
    const IN: u32 = 0x0201;

    const OUT: u32 = 0x0203;

    const DIR: u32 = 0x0205;

    const REN: u32 = 0x0207;

    const SEL0: u32 = 0x020B;

    const SEL1: u32 = 0x020D;
}

impl PortRegs for P3 {
    const IN: u32 = 0x0220;

    const OUT: u32 = 0x0222;

    const DIR: u32 = 0x0224;

    const REN: u32 = 0x0226;

    const SEL0: u32 = 0x022A;

    const SEL1: u32 = 0x022C;
}

impl PortRegs for P4 {
    const IN: u32 = 0x0221;

    const OUT: u32 = 0x0223;

    const DIR: u32 = 0x0225;

    const REN: u32 = 0x0227;

    const SEL0: u32 = 0x022B;

    const SEL1: u32 = 0x022D;
}

/// Setting one bit of a port register.
pub open spec fn set_bit(addr: u32, bit: u8) -> Step {
    Step::Edit8 { addr, clear: 0, set: 1u8 << bit }
}

/// Clearing one bit of a port register.
pub open spec fn clear_bit(addr: u32, bit: u8) -> Step {
    Step::Edit8 { addr, clear: 1u8 << bit, set: 0 }
}

/// Reading one bit of a port register.
pub open spec fn read_bit(addr: u32, bit: u8, is_set: bool) -> Step {
    Step::Test8 { addr, mask: 1u8 << bit, any: is_set }
}

/// One pin of a port.
pub struct Pin<PORT, const N: u8, MODE> {
    _port: PhantomData<PORT>,
    _mode: PhantomData<MODE>,
}

impl<PORT, const N: u8, MODE> Pin<PORT, N, MODE> {
    fn new() -> Self {
        Pin { _port: PhantomData, _mode: PhantomData }
    }
}

impl<PORT: PortRegs, const N: u8, MODE> Pin<PORT, N, MODE> {
    /// Configures the pin as an input without a pull resistor.
    pub fn into_floating_input<H: Hardware>(self, bus: &mut Bus<H>) -> (r: Pin<
        PORT,
        N,
        Input<Floating>,
    >)
        requires
            N < 8,
        ensures
            final(bus).ran(
                *old(bus),
                seq![
                    clear_bit(PORT::DIR, N),
                    clear_bit(PORT::REN, N),
                    clear_bit(PORT::SEL0, N),
                    clear_bit(PORT::SEL1, N),
                ],
            ),
    {
        bus.edit8(PORT::DIR, 1u8 << N, 0);
        bus.edit8(PORT::REN, 1u8 << N, 0);
        bus.edit8(PORT::SEL0, 1u8 << N, 0);
        bus.edit8(PORT::SEL1, 1u8 << N, 0);
        Pin::new()
    }

    /// Configures the pin as an input with pull-up.
    pub fn into_pull_up_input<H: Hardware>(self, bus: &mut Bus<H>) -> (r: Pin<
        PORT,
        N,
        Input<PullUp>,
    >)
        requires
            N < 8,
        ensures
            final(bus).ran(
                *old(bus),
                seq![
                    clear_bit(PORT::DIR, N),
                    set_bit(PORT::OUT, N),
                    set_bit(PORT::REN, N),
                    clear_bit(PORT::SEL0, N),
                    clear_bit(PORT::SEL1, N),
                ],
            ),
    {
        bus.edit8(PORT::DIR, 1u8 << N, 0);
        bus.edit8(PORT::OUT, 0, 1u8 << N);
        bus.edit8(PORT::REN, 0, 1u8 << N);
        bus.edit8(PORT::SEL0, 1u8 << N, 0);
        bus.edit8(PORT::SEL1, 1u8 << N, 0);
        Pin::new()
    }

    /// Configures the pin as an input with pull-down.
    pub fn into_pull_down_input<H: Hardware>(self, bus: &mut Bus<H>) -> (r: Pin<
        PORT,
        N,
        Input<PullDown>,
    >)
        requires
            N < 8,
        ensures
            final(bus).ran(
                *old(bus),
                seq![
                    clear_bit(PORT::DIR, N),
                    clear_bit(PORT::OUT, N),
                    set_bit(PORT::REN, N),
                    clear_bit(PORT::SEL0, N),
                    clear_bit(PORT::SEL1, N),
                ],
            ),
    {
        bus.edit8(PORT::DIR, 1u8 << N, 0);
        bus.edit8(PORT::OUT, 1u8 << N, 0);
        bus.edit8(PORT::REN, 0, 1u8 << N);
        bus.edit8(PORT::SEL0, 1u8 << N, 0);
        bus.edit8(PORT::SEL1, 1u8 << N, 0);
        Pin::new()
    }

    /// Configures the pin as a push-pull output.
    pub fn into_output<H: Hardware>(self, bus: &mut Bus<H>) -> (r: Pin<PORT, N, Output>)
        requires
            N < 8,
        ensures
            final(bus).ran(
                *old(bus),
                seq![
                    set_bit(PORT::DIR, N),
                    clear_bit(PORT::REN, N),
                    clear_bit(PORT::SEL0, N),
                    clear_bit(PORT::SEL1, N),
                ],
            ),
    {
        bus.edit8(PORT::DIR, 0, 1u8 << N);
        bus.edit8(PORT::REN, 1u8 << N, 0);
        bus.edit8(PORT::SEL0, 1u8 << N, 0);
        bus.edit8(PORT::SEL1, 1u8 << N, 0);
        Pin::new()
    }

    /// Hands the pin to its analog function (select bits 11).
    pub fn into_analog<H: Hardware>(self, bus: &mut Bus<H>) -> (r: Pin<PORT, N, Analog>)
        requires
            N < 8,
        ensures
            final(bus).ran(*old(bus), seq![set_bit(PORT::SEL0, N), set_bit(PORT::SEL1, N)]),
    {
        bus.edit8(PORT::SEL0, 0, 1u8 << N);
        bus.edit8(PORT::SEL1, 0, 1u8 << N);
        Pin::new()
    }

    /// Hands the pin to the capture input of its timer: an input whose select
    /// bits are 01.
    pub fn into_timer_a_capture<H: Hardware>(self, bus: &mut Bus<H>) -> (r: Pin<PORT, N, TimerA>)
        requires
            N < 8,
        ensures
            final(bus).ran(
                *old(bus),
                seq![
                    clear_bit(PORT::DIR, N),
                    set_bit(PORT::SEL0, N),
                    clear_bit(PORT::SEL1, N),
                ],
            ),
    {
        bus.edit8(PORT::DIR, 1u8 << N, 0);
        bus.edit8(PORT::SEL0, 0, 1u8 << N);
        bus.edit8(PORT::SEL1, 1u8 << N, 0);
        Pin::new()
    }
}

impl<PORT: PortRegs, const N: u8, PULL> Pin<PORT, N, Input<PULL>> {
    /// Whether the pin reads high.
    pub fn is_high<H: Hardware>(&mut self, bus: &mut Bus<H>) -> (high: bool)
        requires
            N < 8,
        ensures
            final(bus).ran(*old(bus), seq![read_bit(PORT::IN, N, high)]),
    {
        bus.test8(PORT::IN, 1u8 << N)
    }

    /// Whether the pin reads low.
    pub fn is_low<H: Hardware>(&mut self, bus: &mut Bus<H>) -> (low: bool)
        requires
            N < 8,
        ensures
            final(bus).ran(*old(bus), seq![read_bit(PORT::IN, N, !low)]),
    {
        !bus.test8(PORT::IN, 1u8 << N)
    }
}

impl<PORT: PortRegs, const N: u8> Pin<PORT, N, Output> {
    /// Drives the pin high.
    pub fn set_high<H: Hardware>(&mut self, bus: &mut Bus<H>)
        requires
            N < 8,
        ensures
            final(bus).ran(*old(bus), seq![set_bit(PORT::OUT, N)]),
    {
        bus.edit8(PORT::OUT, 0, 1u8 << N);
    }

    /// Drives the pin low.
    pub fn set_low<H: Hardware>(&mut self, bus: &mut Bus<H>)
        requires
            N < 8,
        ensures
            final(bus).ran(*old(bus), seq![clear_bit(PORT::OUT, N)]),
    {
        bus.edit8(PORT::OUT, 1u8 << N, 0);
    }

    /// Whether the pin is driven high.
    pub fn is_set_high<H: Hardware>(&mut self, bus: &mut Bus<H>) -> (high: bool)
        requires
            N < 8,
        ensures
            final(bus).ran(*old(bus), seq![read_bit(PORT::OUT, N, high)]),
    {
        bus.test8(PORT::OUT, 1u8 << N)
    }

    /// Whether the pin is driven low.
    pub fn is_set_low<H: Hardware>(&mut self, bus: &mut Bus<H>) -> (low: bool)
        requires
            N < 8,
        ensures
            final(bus).ran(*old(bus), seq![read_bit(PORT::OUT, N, !low)]),
    {
        !bus.test8(PORT::OUT, 1u8 << N)
    }
}

/// The pins of port 1.
pub struct Port1Parts {
    pub pin0: Pin<P1, 0, Input<Floating>>,
    pub pin1: Pin<P1, 1, Input<Floating>>,
    pub pin2: Pin<P1, 2, Input<Floating>>,
    pub pin3: Pin<P1, 3, Input<Floating>>,
    pub pin4: Pin<P1, 4, Input<Floating>>,
    pub pin5: Pin<P1, 5, Input<Floating>>,
    pub pin6: Pin<P1, 6, Input<Floating>>,
    pub pin7: Pin<P1, 7, Input<Floating>>,
}

impl Port1Parts {
    fn new() -> Self {
        Port1Parts {
            pin0: Pin::new(),
            pin1: Pin::new(),
            pin2: Pin::new(),
            pin3: Pin::new(),
            pin4: Pin::new(),
            pin5: Pin::new(),
            pin6: Pin::new(),
            pin7: Pin::new(),
        }
    }
}

/// The pins of port 2.
pub struct Port2Parts {
    pub pin0: Pin<P2, 0, Input<Floating>>,
    pub pin1: Pin<P2, 1, Input<Floating>>,
    pub pin2: Pin<P2, 2, Input<Floating>>,
    pub pin3: Pin<P2, 3, Input<Floating>>,
    pub pin4: Pin<P2, 4, Input<Floating>>,
    pub pin5: Pin<P2, 5, Input<Floating>>,
    pub pin6: Pin<P2, 6, Input<Floating>>,
    pub pin7: Pin<P2, 7, Input<Floating>>,
}

impl Port2Parts {
    fn new() -> Self {
        Port2Parts {
            pin0: Pin::new(),
            pin1: Pin::new(),
            pin2: Pin::new(),
            pin3: Pin::new(),
            pin4: Pin::new(),
            pin5: Pin::new(),
            pin6: Pin::new(),
            pin7: Pin::new(),
        }
    }
}

/// The pins of port 3.
pub struct Port3Parts {
    pub pin0: Pin<P3, 0, Input<Floating>>,
    pub pin1: Pin<P3, 1, Input<Floating>>,
    pub pin2: Pin<P3, 2, Input<Floating>>,
    pub pin3: Pin<P3, 3, Input<Floating>>,
    pub pin4: Pin<P3, 4, Input<Floating>>,
    pub pin5: Pin<P3, 5, Input<Floating>>,
    pub pin6: Pin<P3, 6, Input<Floating>>,
    pub pin7: Pin<P3, 7, Input<Floating>>,
}

impl Port3Parts {
    fn new() -> Self {
        Port3Parts {
            pin0: Pin::new(),
            pin1: Pin::new(),
            pin2: Pin::new(),
            pin3: Pin::new(),
            pin4: Pin::new(),
            pin5: Pin::new(),
            pin6: Pin::new(),
            pin7: Pin::new(),
        }
    }
}

/// The pins of port 4.
pub struct Port4Parts {
    pub pin0: Pin<P4, 0, Input<Floating>>,
    pub pin1: Pin<P4, 1, Input<Floating>>,
    pub pin2: Pin<P4, 2, Input<Floating>>,
    pub pin3: Pin<P4, 3, Input<Floating>>,
    pub pin4: Pin<P4, 4, Input<Floating>>,
    pub pin5: Pin<P4, 5, Input<Floating>>,
    pub pin6: Pin<P4, 6, Input<Floating>>,
    pub pin7: Pin<P4, 7, Input<Floating>>,
}

impl Port4Parts {
    fn new() -> Self {
        Port4Parts {
            pin0: Pin::new(),
            pin1: Pin::new(),
            pin2: Pin::new(),
            pin3: Pin::new(),
            pin4: Pin::new(),
            pin5: Pin::new(),
            pin6: Pin::new(),
            pin7: Pin::new(),
        }
    }
}

/// Splits a pair of ports into their pins.
pub trait GpioExt: Sized {
    /// The pins of both ports.
    type Parts;

    /// Consumes the ports and hands out their pins.
    fn split(self) -> Self::Parts;
}

impl GpioExt for Port1_2 {
    type Parts = (Port1Parts, Port2Parts);

    fn split(self) -> (Port1Parts, Port2Parts) {
        (Port1Parts::new(), Port2Parts::new())
    }
}

impl GpioExt for Port3_4 {
    type Parts = (Port3Parts, Port4Parts);

    fn split(self) -> (Port3Parts, Port4Parts) {
        (Port3Parts::new(), Port4Parts::new())
    }
}

/// Power mode 5 control register.
pub const PM5CTL0: u32 = 0x0130;

/// Keeps the pins in the state they had before the power-up.
pub const LOCKLPM5: u16 = 0x0001;

/// Puts the configured pin settings into effect: after every power-up the
/// pins stay frozen until this is called.
pub fn unlock_pins<H: Hardware>(_pmm: &Pmm, bus: &mut Bus<H>)
    ensures
        final(bus).ran(*old(bus), seq![Step::Edit16 { addr: PM5CTL0, clear: LOCKLPM5, set: 0 }]),
{
    bus.edit16(PM5CTL0, LOCKLPM5, 0);
}

/// No two ports share a register, and no port has one register twice.
pub proof fn lemma_ports_apart()
    ensures
        seq![
            P1::IN, P1::OUT, P1::DIR, P1::REN, P1::SEL0, P1::SEL1,
            P2::IN, P2::OUT, P2::DIR, P2::REN, P2::SEL0, P2::SEL1,
            P3::IN, P3::OUT, P3::DIR, P3::REN, P3::SEL0, P3::SEL1,
            P4::IN, P4::OUT, P4::DIR, P4::REN, P4::SEL0, P4::SEL1,
        ].no_duplicates(),
{
}

/// A pin's edits leave the other pins of the port alone.
pub proof fn lemma_other_pins_kept(before: u8, n: u8, other: u8)
    requires
        n < 8,
        other < 8,
        n != other,
    ensures
        crate::bus::edited8(before, 0, 1u8 << n) & (1u8 << other) == before & (1u8 << other),
        crate::bus::edited8(before, 1u8 << n, 0) & (1u8 << other) == before & (1u8 << other),
{
    assert(n < 8 && other < 8 && n != other ==> ((before & !0u8) | (1u8 << n)) & (1u8 << other)
        == before & (1u8 << other) && ((before & !(1u8 << n)) | 0u8) & (1u8 << other) == before & (
    1u8 << other)) by (bit_vector);
}

/// A bit set reads 1 afterwards and a bit cleared reads 0; no other bit of the
/// register and no other register changes.
pub proof fn lemma_bit_steps(m: Memory, addr: u32, bit: u8, other: u8)
    requires
        bit < 8,
        other < 8,
    ensures
        ({
            let on = crate::memory::stored(m, set_bit(addr, bit));
            let off = crate::memory::stored(m, clear_bit(addr, bit));
            let before = m(addr as int);
            &&& (on(addr as int) >> other) & 1 == if other == bit {
                1
            } else {
                (before >> other) & 1
            }
            &&& (off(addr as int) >> other) & 1 == if other == bit {
                0
            } else {
                (before >> other) & 1
            }
            &&& forall|a: int| a != addr ==> #[trigger] on(a) == m(a)
            &&& forall|a: int| a != addr ==> #[trigger] off(a) == m(a)
        }),
{
    let v = m(addr as int);
    assert(bit < 8 && other < 8 ==> ((((v & !0u8) | (1u8 << bit)) >> other) & 1 == if other == bit {
        1u8
    } else {
        (v >> other) & 1
    }) && ((((v & !(1u8 << bit)) | 0) >> other) & 1 == if other == bit {
        0u8
    } else {
        (v >> other) & 1
    })) by (bit_vector);
}

/// A level is read as the bit of the pin.
pub proof fn lemma_bit_read(m: Memory, addr: u32, bit: u8, is_set: bool)
    requires
        bit < 8,
        crate::memory::found(m, read_bit(addr, bit, is_set)),
    ensures
        is_set == ((m(addr as int) >> bit) & 1 == 1),
{
    let v = m(addr as int);
    assert(bit < 8 ==> ((v & (1u8 << bit) != 0) == ((v >> bit) & 1 == 1))) by (bit_vector);
}

/// Ports 1 and 2 share the words from 0x0200 on and ports 3 and 4 those from
/// 0x0220 on, the even port in the high bytes. In each the input is first, the
/// output, the direction and the pull follow, and the select registers stand at
/// 10 and 12.
pub proof fn lemma_port_layout()
    ensures
        P1::IN == 0x0200 && P2::IN == 0x0201 && P3::IN == 0x0220 && P4::IN == 0x0221,
        P1::OUT == P1::IN + 2 && P2::OUT == P2::IN + 2 && P3::OUT == P3::IN + 2 && P4::OUT == P4::IN
            + 2,
        P1::DIR == P1::IN + 4 && P2::DIR == P2::IN + 4 && P3::DIR == P3::IN + 4 && P4::DIR == P4::IN
            + 4,
        P1::REN == P1::IN + 6 && P2::REN == P2::IN + 6 && P3::REN == P3::IN + 6 && P4::REN == P4::IN
            + 6,
        P1::SEL0 == P1::IN + 10 && P2::SEL0 == P2::IN + 10 && P3::SEL0 == P3::IN + 10 && P4::SEL0
            == P4::IN + 10,
        P1::SEL1 == P1::IN + 12 && P2::SEL1 == P2::IN + 12 && P3::SEL1 == P3::IN + 12 && P4::SEL1
            == P4::IN + 12,
{
}

/// Where the registers lie, and which bits and values they have.
pub proof fn lemma_layout()
    ensures
        PM5CTL0 == 0x0130,
        LOCKLPM5 == 1,
{
}

} // verus!
