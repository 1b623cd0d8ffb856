//! The eUSCI modules as SPI masters.
//!
//! An exchange is full duplex: while a byte is shifted out, one is shifted in.
//! Every transfer waits for the byte that comes back before it sends the next,
//! so that none can be overrun and nothing is left in flight.
use vstd::prelude::*;

use core::marker::PhantomData;

use crate::bus::{Bus, Cond, Hardware, Stalled, Step};
use crate::memory::Memory;
use crate::pac::{UsciA0SpiMode, UsciA1SpiMode, UsciB0SpiMode};

verus! {

broadcast use crate::trace::group_growth;

/// Control word, as an offset from the base of a module.
pub const CTLW0: u32 = 0x00;

/// Prescaler.
pub const BRW: u32 = 0x06;

/// Receive buffer.
pub const RXBUF: u32 = 0x0C;

/// Transmit buffer.
pub const TXBUF: u32 = 0x0E;

/// Software reset.
pub const UCSWRST: u16 = 0x0001;

/// Clock from SMCLK.
pub const UCSSEL_SMCLK: u16 = 0x0080;

/// Synchronous mode.
pub const UCSYNC: u16 = 0x0100;

/// Master mode.
pub const UCMST: u16 = 0x0800;

/// Most significant bit first.
pub const UCMSB: u16 = 0x2000;

/// The clock idles high.
pub const UCCKPL: u16 = 0x4000;

/// Data is captured on the first edge.
pub const UCCKPH: u16 = 0x8000;

/// A byte has arrived.
pub const UCRXIFG: u16 = 0x0001;

/// The transmit buffer is empty.
pub const UCTXIFG: u16 = 0x0002;

/// Port 1 function select, low bit.
pub const P1SEL0: u32 = 0x020A;

/// Port 1 function select, high bit.
pub const P1SEL1: u32 = 0x020C;

/// Port 2 function select, low bit.
pub const P2SEL0: u32 = 0x020B;

/// Port 2 function select, high bit.
pub const P2SEL1: u32 = 0x020D;

/// Marks the modules that the device has.
pub trait Sealed {

}

/// One eUSCI module: where its registers are and which pins it has.
pub trait Instance: Sealed {
    /// Base address of the registers.
    const BASE: u32;

    /// Offset of the interrupt flags.
    const IFG: u32;

    /// Its pins on port 1.
    const P1_PINS: u8;

    /// Its pins on port 2.
    const P2_PINS: u8;

    /// All registers lie in the low 64 KB.
    proof fn base_fits()
        ensures
            Self::BASE <= 0xFF00,
            Self::IFG <= 0x2C,
    ;
}

/// eUSCI_A0: SIMO P2.0, SOMI P2.1, CLK P1.5.
pub struct UsciA0;

/// eUSCI_A1: SIMO P2.5, SOMI P2.6, CLK P2.4.
pub struct UsciA1;

/// eUSCI_B0: SIMO P1.6, SOMI P1.7, CLK P2.2.
pub struct UsciB0;

impl Sealed for UsciA0 {

}

impl Instance for UsciA0 {
    const BASE: u32 = 0x05C0;

    const IFG: u32 = 0x1C;

    const P1_PINS: u8 = 0x20;

    const P2_PINS: u8 = 0x03;

    proof fn base_fits() {
    }
}

impl Sealed for UsciA1 {

}

impl Instance for UsciA1 {
    const BASE: u32 = 0x05E0;

    const IFG: u32 = 0x1C;

    const P1_PINS: u8 = 0;

    const P2_PINS: u8 = 0x70;

    proof fn base_fits() {
    }
}

impl Sealed for UsciB0 {

}

impl Instance for UsciB0 {
    const BASE: u32 = 0x0640;

    const IFG: u32 = 0x2C;

    const P1_PINS: u8 = 0xC0;

    const P2_PINS: u8 = 0x04;

    proof fn base_fits() {
    }
}

/// Clock polarity (CPOL) and phase (CPHA), numbered as usual.
#[derive(Clone, Copy, PartialEq, Eq, Structural, Debug)]
pub enum SpiMode {
    /// CPOL 0, CPHA 0.
    Mode0,
    /// CPOL 0, CPHA 1.
    Mode1,
    /// CPOL 1, CPHA 0.
    Mode2,
    /// CPOL 1, CPHA 1.
    Mode3,
}

impl SpiMode {
    /// Whether the clock idles high.
    pub open spec fn cpol(self) -> bool {
        self == SpiMode::Mode2 || self == SpiMode::Mode3
    }

    /// Whether data is captured on the second edge.
    pub open spec fn cpha(self) -> bool {
        self == SpiMode::Mode1 || self == SpiMode::Mode3
    }

    /// The phase bit, which is the inverse of CPHA, and the polarity bit.
    fn ckph_ckpl(self) -> (r: (bool, bool))
        ensures
            r.0 == !self.cpha(),
            r.1 == self.cpol(),
    {
        match self {
            SpiMode::Mode0 => (true, false),
            SpiMode::Mode1 => (false, false),
            SpiMode::Mode2 => (true, true),
            SpiMode::Mode3 => (false, true),
        }
    }
}

/// Which bit of a byte goes first.
#[derive(Clone, Copy, PartialEq, Eq, Structural, Debug)]
pub enum BitOrder {
    /// The most significant.
    MsbFirst,
    /// The least significant.
    LsbFirst,
}

/// Clock, bit rate and frame format.
#[derive(Clone, Copy, Debug)]
pub struct Config {
    /// Frequency of SMCLK, which feeds the bit-rate generator, in Hz.
    pub clock_freq: u32,
    /// Desired bit rate in Hz; the actual one is
    /// `clock_freq / round(clock_freq / bit_rate)`.
    pub bit_rate: u32,
    /// Clock polarity and phase.
    pub mode: SpiMode,
    /// Bit order.
    pub bit_order: BitOrder,
}

impl Config {
    /// The divider from the source clock to the bit rate: the rounded ratio of
    /// the two, kept within what the prescaler register can hold.
    pub open spec fn divider(self) -> int {
        let rate = if self.bit_rate == 0 { 1 } else { self.bit_rate as int };
        let ratio = (2 * self.clock_freq + rate) / (2 * rate);
        if ratio < 1 {
            1
        } else if ratio > u16::MAX {
            u16::MAX as int
        } else {
            ratio
        }
    }

    /// 1 MHz, mode 0, most significant bit first.
    pub fn new(clock_freq: u32) -> (r: Self)
        ensures
            r == (Config {
                clock_freq,
                bit_rate: 1_000_000,
                mode: SpiMode::Mode0,
                bit_order: BitOrder::MsbFirst,
            }),
    {
        Config {
            clock_freq,
            bit_rate: 1_000_000,
            mode: SpiMode::Mode0,
            bit_order: BitOrder::MsbFirst,
        }
    }

    /// Sets the bit rate.
    pub fn bit_rate(self, bit_rate: u32) -> (r: Self)
        ensures
            r == (Config { bit_rate, ..self }),
    {
        let mut r = self;
        r.bit_rate = bit_rate;
        r
    }

    /// Sets clock polarity and phase.
    pub fn mode(self, mode: SpiMode) -> (r: Self)
        ensures
            r == (Config { mode, ..self }),
    {
        let mut r = self;
        r.mode = mode;
        r
    }

    /// Sets the bit order.
    pub fn bit_order(self, bit_order: BitOrder) -> (r: Self)
        ensures
            r == (Config { bit_order, ..self }),
    {
        let mut r = self;
        r.bit_order = bit_order;
        r
    }

    /// The prescaler value.
    pub fn prescaler(&self) -> (r: u16)
        ensures
            r == self.divider(),
    {
        let rate: u64 = if self.bit_rate == 0 { 1 } else { self.bit_rate as u64 };
        let ratio: u64 = (2 * self.clock_freq as u64 + rate) / (2 * rate);
        if ratio < 1 {
            1
        } else if ratio > 0xFFFF {
            0xFFFF
        } else {
            ratio as u16
        }
    }

    /// The control word, out of reset.
    pub open spec fn word(self) -> int {
        UCSYNC + UCMST + UCSSEL_SMCLK + (if self.bit_order == BitOrder::MsbFirst {
            UCMSB as int
        } else {
            0
        }) + (if self.mode.cpha() {
            0
        } else {
            UCCKPH as int
        }) + (if self.mode.cpol() {
            UCCKPL as int
        } else {
            0
        })
    }
}

/// A register of module `U`.
pub open spec fn reg<U: Instance>(offset: u32) -> u32 {
    (U::BASE + offset) as u32
}

fn reg_of<U: Instance>(offset: u32) -> (r: u32)
    requires
        offset <= 0x2C,
    ensures
        r == reg::<U>(offset),
{
    proof {
        U::base_fits();
    }
    U::BASE + offset
}

/// The pins of one port handed to the module (select bits 10); nothing where
/// it has none there.
pub open spec fn mux_script(sel1: u32, sel0: u32, pins: u8) -> Seq<Step> {
    if pins == 0 {
        Seq::empty()
    } else {
        seq![
            Step::Edit8 { addr: sel1, clear: 0, set: pins },
            Step::Edit8 { addr: sel0, clear: pins, set: 0 },
        ]
    }
}

/// The set-up of a master: held in reset, bit rate, pins, released.
pub open spec fn init_script<U: Instance>(config: Config) -> Seq<Step> {
    seq![
        Step::Write16 { addr: reg::<U>(CTLW0), value: (config.word() + UCSWRST) as u16 },
        Step::Write16 { addr: reg::<U>(BRW), value: config.divider() as u16 },
    ] + mux_script(P1SEL1, P1SEL0, U::P1_PINS) + mux_script(P2SEL1, P2SEL0, U::P2_PINS) + seq![
        Step::Write16 { addr: reg::<U>(CTLW0), value: config.word() as u16 },
    ]
}

/// The wait for room in the transmit buffer.
pub open spec fn room<U: Instance>(patience: u64, met: bool) -> Step {
    Step::Poll16 {
        addr: reg::<U>(U::IFG),
        until: Cond::all_set(UCTXIFG),
        budget: patience,
        met,
    }
}

/// The wait for the byte that comes back.
pub open spec fn reply<U: Instance>(patience: u64, met: bool) -> Step {
    Step::Poll16 {
        addr: reg::<U>(U::IFG),
        until: Cond::all_set(UCRXIFG),
        budget: patience,
        met,
    }
}

/// A byte put into the transmit buffer.
pub open spec fn send<U: Instance>(byte: u8) -> Step {
    Step::Write16 { addr: reg::<U>(TXBUF), value: byte as u16 }
}

/// Bytes `rx` received while the bytes `tx` were sent.
pub open spec fn exchange_script<U: Instance>(
    tx: Seq<u8>,
    rx: Seq<u8>,
    patience: u64,
) -> Seq<Step> {
    Seq::new(
        4 * rx.len(),
        |i: int|
            if i % 4 == 0 {
                room::<U>(patience, true)
            } else if i % 4 == 1 {
                send::<U>(tx[i / 4])
            } else if i % 4 == 2 {
                reply::<U>(patience, true)
            } else {
                Step::Low8 { addr: reg::<U>(RXBUF), value: rx[i / 4] }
            },
    )
}

/// A wait that was given up before or after sending `byte`.
pub open spec fn stall_script<U: Instance>(byte: u8, sent: bool, patience: u64) -> Seq<Step> {
    if sent {
        seq![room::<U>(patience, true), send::<U>(byte), reply::<U>(patience, false)]
    } else {
        seq![room::<U>(patience, false)]
    }
}

/// What the exchange of `tx` did, of which `rx` came back: all of it if
/// `done`, else it stalled at the byte after.
pub open spec fn exchanged<U: Instance, H: Hardware>(
    pre: Bus<H>,
    post: Bus<H>,
    tx: Seq<u8>,
    rx: Seq<u8>,
    done: bool,
) -> bool {
    if done {
        &&& rx.len() == tx.len()
        &&& post.ran(pre, exchange_script::<U>(tx, rx, pre.patience()))
    } else {
        &&& rx.len() < tx.len()
        &&& exists|sent: bool|
            post.ran(
                pre,
                exchange_script::<U>(tx, rx, pre.patience()) + #[trigger] stall_script::<U>(
                    tx[rx.len() as int],
                    sent,
                    pre.patience(),
                ),
            )
    }
}

/// What was received over the beginning of a buffer.
pub open spec fn overlaid(before: Seq<u8>, rx: Seq<u8>) -> Seq<u8> {
    Seq::new(
        before.len(),
        |i: int|
            if i < rx.len() {
                rx[i]
            } else {
                before[i]
            },
    )
}

/// `bytes` followed by zeros up to `len`.
pub open spec fn padded(bytes: Seq<u8>, len: nat) -> Seq<u8> {
    Seq::new(
        len,
        |i: int|
            if i < bytes.len() {
                bytes[i]
            } else {
                0
            },
    )
}

/// The longer of two lengths.
pub open spec fn longer(a: nat, b: nat) -> nat {
    if a > b {
        a
    } else {
        b
    }
}

/// An SPI master.
pub struct Spi<USCI> {
    _usci: PhantomData<USCI>,
}

impl<USCI: Instance> Spi<USCI> {
    /// Configures the module as a three-pin master.
    fn init<H: Hardware>(bus: &mut Bus<H>, config: Config) -> (r: Self)
        ensures
            final(bus).ran(*old(bus), init_script::<USCI>(config)),
    {
        let (ckph, ckpl) = config.mode.ckph_ckpl();
        let order: u16 = match config.bit_order {
            BitOrder::MsbFirst => UCMSB,
            BitOrder::LsbFirst => 0,
        };
        let phase: u16 = if ckph { UCCKPH } else { 0 };
        let polarity: u16 = if ckpl { UCCKPL } else { 0 };
        let word: u16 = UCSYNC + UCMST + UCSSEL_SMCLK + order + phase + polarity;
        let prescaler: u16 = config.prescaler();
        bus.write16(reg_of::<USCI>(CTLW0), word + UCSWRST);
        bus.write16(reg_of::<USCI>(BRW), prescaler);
        if USCI::P1_PINS != 0 {
            bus.edit8(P1SEL1, 0, USCI::P1_PINS);
            bus.edit8(P1SEL0, USCI::P1_PINS, 0);
        }
        if USCI::P2_PINS != 0 {
            bus.edit8(P2SEL1, 0, USCI::P2_PINS);
            bus.edit8(P2SEL0, USCI::P2_PINS, 0);
        }
        bus.write16(reg_of::<USCI>(CTLW0), word);
        Spi { _usci: PhantomData }
    }

    /// Exchanges one byte.
    pub fn transfer_byte<H: Hardware>(&mut self, bus: &mut Bus<H>, byte: u8) -> (r: Result<
        u8,
        Stalled,
    >)
        ensures
            match r {
                Ok(back) => final(bus).ran(
                    *old(bus),
                    seq![
                        room::<USCI>(old(bus).patience(), true),
                        send::<USCI>(byte),
                        reply::<USCI>(old(bus).patience(), true),
                        Step::Low8 { addr: reg::<USCI>(RXBUF), value: back },
                    ],
                ),
                Err(_) => exists|sent: bool|
                    final(bus).ran(
                        *old(bus),
                        #[trigger] stall_script::<USCI>(byte, sent, old(bus).patience()),
                    ),
            },
    {
        proof {
            USCI::base_fits();
        }
        let ifg: u32 = reg_of::<USCI>(USCI::IFG);
        let ghost patience = bus.patience();
        if !bus.poll16(ifg, Cond::Bits { mask: UCTXIFG, want: UCTXIFG }) {
            assert(bus.ran(*old(bus), stall_script::<USCI>(byte, false, patience)));
            return Err(Stalled);
        }
        bus.write16(reg_of::<USCI>(TXBUF), byte as u16);
        if !bus.poll16(ifg, Cond::Bits { mask: UCRXIFG, want: UCRXIFG }) {
            assert(bus.ran(*old(bus), stall_script::<USCI>(byte, true, patience)));
            return Err(Stalled);
        }
        Ok(bus.low8(reg_of::<USCI>(RXBUF)))
    }

    /// Exchanges `tx[i]` and appends what came back to `rx`.
    fn exchange_next<H: Hardware>(
        &mut self,
        bus: &mut Bus<H>,
        byte: u8,
        Ghost(start): Ghost<Bus<H>>,
        Ghost(tx): Ghost<Seq<u8>>,
        Ghost(rx): Ghost<Seq<u8>>,
    ) -> (r: Result<u8, Stalled>)
        requires
            rx.len() < tx.len(),
            tx[rx.len() as int] == byte,
            old(bus).ran(start, exchange_script::<USCI>(tx, rx, start.patience())),
        ensures
            match r {
                Ok(back) => final(bus).ran(
                    start,
                    exchange_script::<USCI>(tx, rx.push(back), start.patience()),
                ),
                Err(_) => exchanged::<USCI, H>(start, *final(bus), tx, rx, false),
            },
    {
        let ghost so_far = *bus;
        let ghost patience = start.patience();
        let r = self.transfer_byte(bus, byte);
        proof {
            match r {
                Ok(back) => {
                    assert(exchange_script::<USCI>(tx, rx.push(back), patience)
                        =~= exchange_script::<USCI>(tx, rx, patience) + seq![
                        room::<USCI>(patience, true),
                        send::<USCI>(byte),
                        reply::<USCI>(patience, true),
                        Step::Low8 { addr: reg::<USCI>(RXBUF), value: back },
                    ]);
                },
                Err(_) => {
                    let sent = choose|sent: bool|
                        bus.ran(so_far, #[trigger] stall_script::<USCI>(byte, sent, patience));
                    assert(bus.ran(
                        start,
                        exchange_script::<USCI>(tx, rx, patience) + stall_script::<USCI>(
                            tx[rx.len() as int],
                            sent,
                            patience,
                        ),
                    ));
                },
            }
        }
        r
    }

    /// Receives into a buffer, sending zeros.
    pub fn read<H: Hardware>(&mut self, bus: &mut Bus<H>, words: &mut [u8]) -> (r: Result<
        (),
        Stalled,
    >)
        ensures
            exists|rx: Seq<u8>| #[trigger]
                exchanged::<USCI, H>(
                    *old(bus),
                    *final(bus),
                    padded(Seq::empty(), old(words)@.len()),
                    rx,
                    r is Ok,
                ) && final(words)@ == overlaid(old(words)@, rx),
    {
        let ghost before = words@;
        let ghost tx = padded(Seq::empty(), before.len());
        let ghost mut rx: Seq<u8> = Seq::empty();
        let len: usize = words.len();
        let mut i: usize = 0;
        assert(exchange_script::<USCI>(tx, rx, bus.patience()) =~= Seq::empty());
        assert(words@ =~= overlaid(before, rx));
        while i < len
            invariant
                i <= len,
                len == before.len(),
                before == old(words)@,
                tx == padded(Seq::empty(), before.len()),
                rx.len() == i,
                words@ =~= overlaid(before, rx),
                bus.ran(*old(bus), exchange_script::<USCI>(tx, rx, old(bus).patience())),
            decreases len - i,
        {
            match self.exchange_next(bus, 0, Ghost(*old(bus)), Ghost(tx), Ghost(rx)) {
                Ok(back) => {
                    words[i] = back;
                    proof {
                        rx = rx.push(back);
                    }
                },
                Err(e) => {
                    return Err(e);
                },
            }
            i = i + 1;
        }
        let r: Result<(), Stalled> = Ok(());
        assert(exchanged::<USCI, H>(*old(bus), *bus, tx, rx, r is Ok));
        r
    }

    /// Sends a buffer; what comes back is dropped.
    pub fn write<H: Hardware>(&mut self, bus: &mut Bus<H>, words: &[u8]) -> (r: Result<(), Stalled>)
        ensures
            exists|rx: Seq<u8>| #[trigger]
                exchanged::<USCI, H>(*old(bus), *final(bus), words@, rx, r is Ok),
    {
        let ghost mut rx: Seq<u8> = Seq::empty();
        let mut i: usize = 0;
        assert(exchange_script::<USCI>(words@, rx, bus.patience()) =~= Seq::empty());
        while i < words.len()
            invariant
                i <= words@.len(),
                rx.len() == i,
                bus.ran(*old(bus), exchange_script::<USCI>(words@, rx, old(bus).patience())),
            decreases words@.len() - i,
        {
            match self.exchange_next(bus, words[i], Ghost(*old(bus)), Ghost(words@), Ghost(rx)) {
                Ok(back) => {
                    proof {
                        rx = rx.push(back);
                    }
                },
                Err(e) => {
                    return Err(e);
                },
            }
            i = i + 1;
        }
        let r: Result<(), Stalled> = Ok(());
        assert(exchanged::<USCI, H>(*old(bus), *bus, words@, rx, r is Ok));
        r
    }

    /// Sends one buffer while receiving into the other. Where the first is
    /// shorter zeros are sent, where the second is shorter the rest that comes
    /// back is dropped.
    pub fn transfer<H: Hardware>(
        &mut self,
        bus: &mut Bus<H>,
        read: &mut [u8],
        write: &[u8],
    ) -> (r: Result<(), Stalled>)
        ensures
            exists|rx: Seq<u8>| #[trigger]
                exchanged::<USCI, H>(
                    *old(bus),
                    *final(bus),
                    padded(write@, longer(old(read)@.len(), write@.len())),
                    rx,
                    r is Ok,
                ) && final(read)@ == overlaid(old(read)@, rx),
    {
        let ghost before = read@;
        let len: usize = read.len();
        let n: usize = if len > write.len() { len } else { write.len() };
        let ghost tx = padded(write@, n as nat);
        let ghost mut rx: Seq<u8> = Seq::empty();
        let mut i: usize = 0;
        assert(exchange_script::<USCI>(tx, rx, bus.patience()) =~= Seq::empty());
        assert(read@ =~= overlaid(before, rx));
        while i < n
            invariant
                i <= n,
                len == before.len(),
                before == old(read)@,
                n == longer(len as nat, write@.len()),
                tx == padded(write@, n as nat),
                rx.len() == i,
                read@ =~= overlaid(before, rx),
                bus.ran(*old(bus), exchange_script::<USCI>(tx, rx, old(bus).patience())),
            decreases n - i,
        {
            let byte: u8 = if i < write.len() { write[i] } else { 0 };
            match self.exchange_next(bus, byte, Ghost(*old(bus)), Ghost(tx), Ghost(rx)) {
                Ok(back) => {
                    if i < len {
                        read[i] = back;
                    }
                    proof {
                        rx = rx.push(back);
                    }
                },
                Err(e) => {
                    return Err(e);
                },
            }
            i = i + 1;
        }
        let r: Result<(), Stalled> = Ok(());
        assert(exchanged::<USCI, H>(*old(bus), *bus, tx, rx, r is Ok));
        r
    }

    /// Sends a buffer and puts what comes back in its place.
    pub fn transfer_in_place<H: Hardware>(&mut self, bus: &mut Bus<H>, words: &mut [u8]) -> (r:
        Result<(), Stalled>)
        ensures
            exists|rx: Seq<u8>| #[trigger]
                exchanged::<USCI, H>(*old(bus), *final(bus), old(words)@, rx, r is Ok) && final(
                    words)@ == overlaid(old(words)@, rx),
    {
        let ghost before = words@;
        let ghost mut rx: Seq<u8> = Seq::empty();
        let len: usize = words.len();
        let mut i: usize = 0;
        assert(exchange_script::<USCI>(before, rx, bus.patience()) =~= Seq::empty());
        assert(words@ =~= overlaid(before, rx));
        while i < len
            invariant
                i <= len,
                len == before.len(),
                before == old(words)@,
                rx.len() == i,
                words@ =~= overlaid(before, rx),
                bus.ran(*old(bus), exchange_script::<USCI>(before, rx, old(bus).patience())),
            decreases len - i,
        {
            let byte: u8 = words[i];
            match self.exchange_next(bus, byte, Ghost(*old(bus)), Ghost(before), Ghost(rx)) {
                Ok(back) => {
                    words[i] = back;
                    proof {
                        rx = rx.push(back);
                    }
                },
                Err(e) => {
                    return Err(e);
                },
            }
            i = i + 1;
        }
        let r: Result<(), Stalled> = Ok(());
        assert(exchanged::<USCI, H>(*old(bus), *bus, before, rx, r is Ok));
        r
    }

    /// Nothing is ever left in flight, so there is nothing to wait for.
    pub fn flush<H: Hardware>(&mut self, bus: &mut Bus<H>)
        ensures
            final(bus).ran(*old(bus), Seq::empty()),
    {
    }
}

/// Turns the peripheral into an SPI master.
pub trait SpiExt: Sized {
    /// The module.
    type Instance: Instance;

    /// Consumes the peripheral and configures it as a three-pin master.
    fn into_spi<H: Hardware>(self, bus: &mut Bus<H>, config: Config) -> Spi<Self::Instance>;
}

impl SpiExt for UsciB0SpiMode {
    type Instance = UsciB0;

    fn into_spi<H: Hardware>(self, bus: &mut Bus<H>, config: Config) -> (r: Spi<UsciB0>)
        ensures
            final(bus).ran(*old(bus), init_script::<UsciB0>(config)),
    {
        Spi::<UsciB0>::init(bus, config)
    }
}

impl SpiExt for UsciA0SpiMode {
    type Instance = UsciA0;

    fn into_spi<H: Hardware>(self, bus: &mut Bus<H>, config: Config) -> (r: Spi<UsciA0>)
        ensures
            final(bus).ran(*old(bus), init_script::<UsciA0>(config)),
    {
        Spi::<UsciA0>::init(bus, config)
    }
}

impl SpiExt for UsciA1SpiMode {
    type Instance = UsciA1;

    fn into_spi<H: Hardware>(self, bus: &mut Bus<H>, config: Config) -> (r: Spi<UsciA1>)
        ensures
            final(bus).ran(*old(bus), init_script::<UsciA1>(config)),
    {
        Spi::<UsciA1>::init(bus, config)
    }
}

/// The word last put into the transmit buffer of module `U` in `steps`.
pub open spec fn last_sent<U: Instance>(steps: Seq<Step>) -> Option<u16>
    decreases steps.len(),
{
    if steps.len() == 0 {
        None
    } else {
        match steps.last() {
            Step::Write16 { addr, value } => if addr == reg::<U>(TXBUF) {
                Some(value)
            } else {
                last_sent::<U>(steps.drop_last())
            },
            _ => last_sent::<U>(steps.drop_last()),
        }
    }
}

/// SIMO of module `U` is wired to its SOMI: a byte taken out of the receive
/// buffer is the one last put into the transmit buffer.
pub open spec fn wired_back<U: Instance>(steps: Seq<Step>) -> bool {
    forall|i: int|
        0 <= i < steps.len() ==> (#[trigger] steps[i] matches Step::Low8 { addr, value } ==> addr
            == reg::<U>(RXBUF) ==> last_sent::<U>(steps.take(i)) == Some(value as u16))
}

/// Byte `k` of an exchange is taken out of the receive buffer after byte `k`
/// was put into the transmit buffer, and before any other was.
proof fn lemma_byte_back<U: Instance>(tx: Seq<u8>, rx: Seq<u8>, patience: u64, k: int)
    requires
        0 <= k < rx.len() <= tx.len(),
    ensures
        ({
            let script = exchange_script::<U>(tx, rx, patience);
            let i = 4 * k + 3;
            &&& i < script.len()
            &&& script[i] == (Step::Low8 { addr: reg::<U>(RXBUF), value: rx[k] })
            &&& last_sent::<U>(script.take(i)) == Some(tx[k] as u16)
        }),
{
    let script = exchange_script::<U>(tx, rx, patience);
    let i = 4 * k + 3;
    assert(i / 4 == k && i % 4 == 3);
    assert((i - 1) % 4 == 2);
    assert((i - 2) / 4 == k && (i - 2) % 4 == 1);
    let before = script.take(i);
    assert(before.last() == reply::<U>(patience, true));
    assert(before.drop_last().last() == send::<U>(tx[k]));
    reveal_with_fuel(last_sent, 3);
}

/// With SIMO wired to SOMI every byte comes straight back, and a transfer in
/// place leaves the buffer as it was, also where it stalled on the way.
#[verifier::spinoff_prover]
pub proof fn lemma_loopback<U: Instance>(
    tx: Seq<u8>,
    rx: Seq<u8>,
    patience: u64,
    steps: Seq<Step>,
)
    requires
        rx.len() <= tx.len(),
        exchange_script::<U>(tx, rx, patience).is_prefix_of(steps),
        wired_back::<U>(steps),
    ensures
        rx == tx.take(rx.len() as int),
        overlaid(tx, rx) == tx,
{
    let script = exchange_script::<U>(tx, rx, patience);
    assert forall|j: int| 0 <= j < script.len() implies #[trigger] steps[j] == script[j] by {
        assert(steps.subrange(0, script.len() as int)[j] == steps[j]);
    }
    assert forall|k: int| 0 <= k < rx.len() implies rx[k] == tx[k] by {
        lemma_byte_back::<U>(tx, rx, patience, k);
        let i = 4 * k + 3;
        assert(steps[i] == script[i]);
        assert(steps.take(i) =~= script.take(i));
    }
    assert(rx =~= tx.take(rx.len() as int));
    assert(overlaid(tx, rx) =~= tx);
}

/// The words of any two configurations that differ in mode or bit order
/// differ.
pub proof fn lemma_formats_differ(a: Config, b: Config)
    requires
        a.word() == b.word(),
    ensures
        a.mode == b.mode,
        a.bit_order == b.bit_order,
        0 < a.word() <= u16::MAX,
{
}

proof fn lemma_mux_leaves(m: Memory, sel1: u32, sel0: u32, pins: u8)
    requires
        sel1 != sel0,
    ensures
        ({
            let after = crate::memory::memory_after(m, mux_script(sel1, sel0, pins));
            &&& after(sel1 as int) == m(sel1 as int) | pins
            &&& after(sel0 as int) == m(sel0 as int) & !pins
            &&& forall|a: int| a != sel1 && a != sel0 ==> #[trigger] after(a) == m(a)
        }),
{
    crate::memory::lemma_memory_at(m, mux_script(sel1, sel0, pins));
    reveal_with_fuel(crate::memory::memory_at, 3);
    let p = m(sel1 as int);
    let q = m(sel0 as int);
    assert((p & !0u8) | pins == p | pins && (q & !pins) | 0u8 == q & !pins && p | 0u8 == p && q
        & !0u8 == q) by (bit_vector);
}

/// What the registers of a module hold after the set-up, whatever they held
/// before, taken as the module takes them: out of reset, a synchronous three-pin
/// master with bytes of eight bits, clocked by SMCLK. Bit 13 is set where the most
/// significant bit goes first. Bit 14 is the idle level of the clock, which is
/// high in modes 2 and 3. Bit 15 is set where a bit is taken on the first edge,
/// in modes 0 and 2. The pins of the module have select bits 10, and no other pin
/// changed.
pub proof fn lemma_master_set_up<U: Instance>(m: Memory, config: Config)
    requires
        U::BASE == 0x05C0 || U::BASE == 0x05E0 || U::BASE == 0x0640,
    ensures
        ({
            let after = crate::memory::memory_after(m, init_script::<U>(config));
            let control = crate::memory::word_in(after, U::BASE as int) as int;
            &&& crate::memory::word_in(after, U::BASE + 6) == config.divider()
            &&& control % 0x40 == 0
            &&& control / 0x40 % 4 == 2
            &&& control / 0x100 % 2 == 1
            &&& control / 0x200 % 4 == 0
            &&& control / 0x800 % 2 == 1
            &&& control / 0x1000 % 2 == 0
            &&& control / 0x2000 % 2 == match config.bit_order {
                BitOrder::MsbFirst => 1int,
                BitOrder::LsbFirst => 0,
            }
            &&& control / 0x4000 % 2 == match config.mode {
                SpiMode::Mode0 | SpiMode::Mode1 => 0int,
                SpiMode::Mode2 | SpiMode::Mode3 => 1,
            }
            &&& control / 0x8000 == match config.mode {
                SpiMode::Mode0 | SpiMode::Mode2 => 1int,
                SpiMode::Mode1 | SpiMode::Mode3 => 0,
            }
            &&& after(0x020C) == m(0x020C) | U::P1_PINS
            &&& after(0x020A) == m(0x020A) & !U::P1_PINS
            &&& after(0x020D) == m(0x020D) | U::P2_PINS
            &&& after(0x020B) == m(0x020B) & !U::P2_PINS
        }),
{
    broadcast use crate::memory::group_memory;

    let s1 = seq![
        Step::Write16 { addr: reg::<U>(CTLW0), value: (config.word() + UCSWRST) as u16 },
        Step::Write16 { addr: reg::<U>(BRW), value: config.divider() as u16 },
    ];
    let s2 = mux_script(P1SEL1, P1SEL0, U::P1_PINS);
    let s3 = mux_script(P2SEL1, P2SEL0, U::P2_PINS);
    let last = Step::Write16 { addr: reg::<U>(CTLW0), value: config.word() as u16 };
    let s4 = seq![last];
    let m1 = crate::memory::memory_after(m, s1);
    let m2 = crate::memory::memory_after(m1, s2);
    let m3 = crate::memory::memory_after(m2, s3);
    let m4 = crate::memory::memory_after(m3, s4);
    crate::memory::lemma_memory_joins(m, s1, s2);
    crate::memory::lemma_memory_joins(m, s1 + s2, s3);
    crate::memory::lemma_memory_joins(m, s1 + s2 + s3, s4);
    crate::memory::lemma_memory_at(m, s1);
    crate::memory::lemma_memory_at(m3, s4);
    reveal_with_fuel(crate::memory::memory_at, 3);
    lemma_mux_leaves(m1, P1SEL1, P1SEL0, U::P1_PINS);
    lemma_mux_leaves(m2, P2SEL1, P2SEL0, U::P2_PINS);
    assert(reg::<U>(CTLW0) == U::BASE && reg::<U>(BRW) == U::BASE + 6);
    assert(crate::memory::word_in(m1, U::BASE + 6) == config.divider());
    assert(m2(U::BASE + 6) == m1(U::BASE + 6) && m2(U::BASE + 7) == m1(U::BASE + 7));
    assert(m3(U::BASE + 6) == m1(U::BASE + 6) && m3(U::BASE + 7) == m1(U::BASE + 7));
    assert(m1(0x020C) == m(0x020C) && m1(0x020A) == m(0x020A) && m1(0x020D) == m(0x020D)
        && m1(0x020B) == m(0x020B));
    assert(crate::memory::word_in(m4, U::BASE as int) == config.word());
}

/// The modules that the device has, with their registers, their flags and their
/// pins: A0 on P1.5, P2.0 and P2.1, A1 on P2.4, P2.5 and P2.6, B0 on P1.6, P1.7
/// and P2.2.
pub proof fn lemma_modules()
    ensures
        UsciA0::BASE == 0x05C0 && UsciA0::BASE + UsciA0::IFG == 0x05DC,
        UsciA1::BASE == 0x05E0 && UsciA1::BASE + UsciA1::IFG == 0x05FC,
        UsciB0::BASE == 0x0640 && UsciB0::BASE + UsciB0::IFG == 0x066C,
        UsciA0::P1_PINS == 32 && UsciA0::P2_PINS == 1 + 2,
        UsciA1::P1_PINS == 0 && UsciA1::P2_PINS == 16 + 32 + 64,
        UsciB0::P1_PINS == 64 + 128 && UsciB0::P2_PINS == 4,
{
}

/// A module is held in reset while it is set up.
pub proof fn lemma_set_up_in_reset<U: Instance>(config: Config)
    ensures
        ({
            let script = init_script::<U>(config);
            &&& script.first() matches Step::Write16 { addr, value }
            &&& value % 2 == 1
            &&& script.last() matches Step::Write16 { addr: to, value: word }
            &&& to == addr
            &&& word + 1 == value
        }),
{
}

/// Bytes change places in order: byte `k` is written to the transmit buffer (at
/// 0x0E of the module) after bit 1 of the flags was seen set, and the one that
/// came back is read from the receive buffer (at 0x0C) after bit 0 was seen set.
pub proof fn lemma_bytes_change_places<U: Instance>(
    tx: Seq<u8>,
    rx: Seq<u8>,
    patience: u64,
    k: int,
)
    requires
        0 <= k < rx.len(),
        U::BASE <= 0xFF00,
        U::IFG <= 0x2C,
    ensures
        ({
            let script = exchange_script::<U>(tx, rx, patience);
            let flags = (U::BASE + U::IFG) as u32;
            &&& script.len() == 4 * rx.len()
            &&& script[4 * k] == (Step::Poll16 {
                addr: flags,
                until: Cond::Bits { mask: 2, want: 2 },
                budget: patience,
                met: true,
            })
            &&& script[4 * k + 1] == (Step::Write16 {
                addr: (U::BASE + 0x0E) as u32,
                value: tx[k] as u16,
            })
            &&& script[4 * k + 2] == (Step::Poll16 {
                addr: flags,
                until: Cond::Bits { mask: 1, want: 1 },
                budget: patience,
                met: true,
            })
            &&& script[4 * k + 3] == (Step::Low8 { addr: (U::BASE + 0x0C) as u32, value: rx[k] })
        }),
{
    assert((4 * k) % 4 == 0 && (4 * k + 1) % 4 == 1 && (4 * k + 2) % 4 == 2 && (4 * k + 3) % 4 == 3);
    assert((4 * k + 1) / 4 == k && (4 * k + 3) / 4 == k);
}

/// No other whole divider brings the bit rate nearer to the wanted one, as far
/// as the prescaler can hold it.
pub proof fn lemma_nearest_divider(config: Config, other: int)
    requires
        config.bit_rate > 0,
        1 <= other <= 0xFFFF,
    ensures
        1 <= config.divider() <= 0xFFFF,
        ({
            let miss = config.clock_freq as int - config.divider() * config.bit_rate;
            let miss_other = config.clock_freq as int - other * config.bit_rate;
            (if miss < 0 {
                -miss
            } else {
                miss
            }) <= if miss_other < 0 {
                -miss_other
            } else {
                miss_other
            }
        }),
{
    crate::i2c::lemma_nearest_divider(
        crate::i2c::Config { clock_freq: config.clock_freq, scl_freq: config.bit_rate },
        other,
    );
}

/// A transfer of unequal lengths sends zeros past the bytes, and what arrives
/// fills a buffer from the front and leaves its rest alone.
pub proof fn lemma_unequal_lengths(bytes: Seq<u8>, len: nat, before: Seq<u8>, rx: Seq<u8>)
    requires
        bytes.len() <= len,
        rx.len() <= before.len(),
    ensures
        padded(bytes, len) =~= bytes + Seq::new((len - bytes.len()) as nat, |i: int| 0u8),
        overlaid(before, rx) =~= rx + before.skip(rx.len() as int),
        longer(bytes.len(), len) == len,
        longer(len, bytes.len()) == len,
{
}

/// Where the registers lie, and which bits and values they have.
pub proof fn lemma_layout()
    ensures
        CTLW0 == 0x00,
        BRW == 0x06,
        RXBUF == 0x0C,
        TXBUF == 0x0E,
        P1SEL0 == 0x020A,
        P1SEL1 == 0x020C,
        P2SEL0 == 0x020B,
        P2SEL1 == 0x020D,
        UCSWRST == 1,
        UCSSEL_SMCLK == 128,
        UCSYNC == 0x0100,
        UCMST == 0x0800,
        UCMSB == 0x2000,
        UCCKPL == 0x4000,
        UCCKPH == 0x8000,
        UCRXIFG == 1,
        UCTXIFG == 2,
{
}

/// What goes out is what was handed over and what is reported is what came back,
/// byte for byte and in order. An exchange that gives up has received fewer bytes,
/// and sent at most one more than it received.
pub proof fn lemma_exchange_on_wire<U: Instance, H: Hardware>(
    pre: Bus<H>,
    post: Bus<H>,
    tx: Seq<u8>,
    rx: Seq<u8>,
    done: bool,
)
    requires
        U::BASE <= 0xFF00,
        exchanged::<U, H>(pre, post, tx, rx, done),
    ensures
        ({
            let steps = post@.skip(pre@.len() as int);
            let out = crate::serial::bytes_out(U::BASE as int, steps);
            let back = crate::serial::bytes_in(U::BASE as int, steps);
            &&& back =~= crate::serial::values_of(rx)
            &&& out =~= crate::serial::values_of(tx.take(out.len() as int))
            &&& done ==> rx.len() == tx.len() && out.len() == tx.len()
            &&& !done ==> rx.len() < tx.len() && rx.len() <= out.len() <= rx.len() + 1
        }),
{
    let base = U::BASE as int;
    let patience = pre.patience();
    let steps = post@.skip(pre@.len() as int);
    let whole = exchange_script::<U>(tx, rx, patience);
    lemma_exchange_bytes::<U>(tx, rx, patience);
    if done {
        assert(steps =~= whole);
        assert(tx.take(tx.len() as int) =~= tx);
    } else {
        let sent = choose|sent: bool|
            post.ran(
                pre,
                whole + #[trigger] stall_script::<U>(tx[rx.len() as int], sent, patience),
            );
        let byte = tx[rx.len() as int];
        let tail = stall_script::<U>(byte, sent, patience);
        assert(steps =~= whole + tail);
        crate::serial::lemma_bytes_join(base, whole, tail);
        let wait = room::<U>(patience, sent);
        crate::serial::lemma_bytes_of_one(base, wait);
        if sent {
            let put = send::<U>(byte);
            let none = reply::<U>(patience, false);
            assert(tail =~= seq![wait, put] + seq![none]);
            crate::serial::lemma_bytes_join(base, seq![wait, put], seq![none]);
            crate::serial::lemma_bytes_of_two(base, wait, put);
            crate::serial::lemma_bytes_of_one(base, put);
            crate::serial::lemma_bytes_of_one(base, none);
            let out = crate::serial::bytes_out(base, steps);
            assert(out =~= crate::serial::values_of(tx.take(rx.len() + 1int)));
        } else {
            assert(tail =~= seq![wait]);
        }
    }
}

proof fn lemma_exchange_bytes<U: Instance>(tx: Seq<u8>, rx: Seq<u8>, patience: u64)
    requires
        U::BASE <= 0xFF00,
        rx.len() <= tx.len(),
    ensures
        crate::serial::bytes_out(U::BASE as int, exchange_script::<U>(tx, rx, patience))
            =~= crate::serial::values_of(tx.take(rx.len() as int)),
        crate::serial::bytes_in(U::BASE as int, exchange_script::<U>(tx, rx, patience))
            =~= crate::serial::values_of(rx),
    decreases rx.len(),
{
    let base = U::BASE as int;
    let script = exchange_script::<U>(tx, rx, patience);
    if rx.len() == 0 {
        assert(script =~= Seq::empty());
    } else {
        let front = rx.drop_last();
        let k = front.len() as int;
        lemma_exchange_bytes::<U>(tx, front, patience);
        let s0 = exchange_script::<U>(tx, front, patience);
        let a = room::<U>(patience, true);
        let b = send::<U>(tx[k]);
        let c = reply::<U>(patience, true);
        let d = Step::Low8 { addr: reg::<U>(RXBUF), value: rx[k] };
        assert(script =~= s0 + (seq![a, b] + seq![c, d])) by {
            lemma_bytes_change_places_at::<U>(tx, rx, patience, k);
            assert forall|i: int| 0 <= i < 4 * k implies s0[i] == script[i] by {
                assert(0 <= i / 4 < k);
            }
        }
        crate::serial::lemma_bytes_join(base, s0, seq![a, b] + seq![c, d]);
        crate::serial::lemma_bytes_join(base, seq![a, b], seq![c, d]);
        crate::serial::lemma_bytes_of_two(base, a, b);
        crate::serial::lemma_bytes_of_two(base, c, d);
        crate::serial::lemma_bytes_of_one(base, a);
        crate::serial::lemma_bytes_of_one(base, b);
        crate::serial::lemma_bytes_of_one(base, c);
        crate::serial::lemma_bytes_of_one(base, d);
        assert(tx.take(k + 1) =~= tx.take(k).push(tx[k]));
        assert(crate::serial::values_of(tx.take(k + 1)) =~= crate::serial::values_of(tx.take(k))
            + seq![tx[k] as int]);
    }
}

proof fn lemma_bytes_change_places_at<U: Instance>(tx: Seq<u8>, rx: Seq<u8>, patience: u64, k: int)
    requires
        0 <= k < rx.len(),
    ensures
        ({
            let script = exchange_script::<U>(tx, rx, patience);
            &&& script[4 * k] == room::<U>(patience, true)
            &&& script[4 * k + 1] == send::<U>(tx[k])
            &&& script[4 * k + 2] == reply::<U>(patience, true)
            &&& script[4 * k + 3] == (Step::Low8 { addr: reg::<U>(RXBUF), value: rx[k] })
        }),
{
    assert((4 * k) % 4 == 0 && (4 * k + 1) % 4 == 1 && (4 * k + 2) % 4 == 2 && (4 * k + 3) % 4 == 3);
    assert((4 * k + 1) / 4 == k && (4 * k + 3) / 4 == k);
}

} // verus!
