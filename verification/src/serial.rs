//! The eUSCI_A modules as UARTs.
//!
//! A [`Serial`] splits into a transmit half [`Tx`] and a receive half [`Rx`].
//! Bytes can be moved one by one without blocking, as blocking streams, by an
//! interrupt handler, or paced by DMA.
//!
//! DMA triggers are edges. The transmit flag idles high, so a burst arms the
//! channel for all bytes but the first and sends that one by hand; its hand-off
//! is the first edge. The receive flag idles low, but a byte that is already
//! there has spent its edge, so such bytes are taken by hand before arming, and
//! looked for once more after it.
use vstd::prelude::*;

use core::marker::PhantomData;

use crate::baud::{compute_baud, BaudRegs};
use crate::bus::{Bus, Cond, Edit, Hardware, Stalled, Step};
use crate::dma::{AddrMode, ByteSpan, Channel, Job, TriggerSource};
use crate::memory::Memory;
use crate::pac::{UsciA0UartMode, UsciA1UartMode};

verus! {

broadcast use crate::trace::group_growth;

/// Control word, as an offset from the base of a module.
pub const CTLW0: u32 = 0x00;

/// Prescaler.
pub const BRW: u32 = 0x06;

/// Modulation.
pub const MCTLW: u32 = 0x08;

/// Status.
pub const STATW: u32 = 0x0A;

/// Receive buffer.
pub const RXBUF: u32 = 0x0C;

/// Transmit buffer.
pub const TXBUF: u32 = 0x0E;

/// Interrupt enables.
pub const IE: u32 = 0x1A;

/// Interrupt flags.
pub const IFG: u32 = 0x1C;

/// Interrupt vector.
pub const IV: u32 = 0x1E;

/// Software reset.
pub const UCSWRST: u16 = 0x0001;

/// Two stop bits.
pub const UCSPB: u16 = 0x0800;

/// Seven data bits.
pub const UC7BIT: u16 = 0x1000;

/// Even parity.
pub const UCPAR: u16 = 0x4000;

/// Parity enable.
pub const UCPEN: u16 = 0x8000;

/// Oversampling mode.
pub const UCOS16: u16 = 0x0001;

/// Transmission or reception in progress.
pub const UCBUSY: u16 = 0x0001;

/// Some receive error.
pub const UCRXERR: u16 = 0x0004;

/// Break.
pub const UCBRK: u16 = 0x0008;

/// Parity error.
pub const UCPE: u16 = 0x0010;

/// Overrun.
pub const UCOE: u16 = 0x0020;

/// Framing error.
pub const UCFE: u16 = 0x0040;

/// Receive interrupt enable.
pub const UCRXIE: u16 = 0x0001;

/// A byte has arrived.
pub const UCRXIFG: u16 = 0x0001;

/// The transmit buffer is empty.
pub const UCTXIFG: u16 = 0x0002;

/// Port 2 function select, low bit.
pub const P2SEL0: u32 = 0x020B;

/// Port 2 function select, high bit.
pub const P2SEL1: u32 = 0x020D;

/// Marks the modules that the device has.
pub trait Sealed {

}

/// One eUSCI_A module: where its registers are, which pins it has, and which
/// DMA triggers.
pub trait Instance: Sealed {
    /// Base address of the registers.
    const BASE: u32;

    /// Both pins in the port 2 select registers.
    const PIN_MASK: u8;

    /// DMA trigger of reception.
    const DMA_RX_TRIGGER: TriggerSource;

    /// DMA trigger of transmission.
    const DMA_TX_TRIGGER: TriggerSource;

    /// All registers lie in the low 64 KB.
    proof fn base_fits()
        ensures
            Self::BASE <= 0xFF00,
    ;
}

/// eUSCI_A0, on P2.0 and P2.1.
pub struct UsciA0;

/// eUSCI_A1, on P2.5 and P2.6.
pub struct UsciA1;

impl Sealed for UsciA0 {

}

impl Instance for UsciA0 {
    const BASE: u32 = 0x05C0;

    const PIN_MASK: u8 = 0x03;

    const DMA_RX_TRIGGER: TriggerSource = TriggerSource::UcA0Rx;

    const DMA_TX_TRIGGER: TriggerSource = TriggerSource::UcA0Tx;

    proof fn base_fits() {
    }
}

impl Sealed for UsciA1 {

}

impl Instance for UsciA1 {
    const BASE: u32 = 0x05E0;

    const PIN_MASK: u8 = 0x60;

    const DMA_RX_TRIGGER: TriggerSource = TriggerSource::UcA1Rx;

    const DMA_TX_TRIGGER: TriggerSource = TriggerSource::UcA1Tx;

    proof fn base_fits() {
    }
}

/// The clock of the baud-rate generator.
#[derive(Clone, Copy, PartialEq, Eq, Structural, Debug)]
pub enum ClockSource {
    /// ACLK.
    Aclk,
    /// SMCLK.
    Smclk,
}

/// Parity.
#[derive(Clone, Copy, PartialEq, Eq, Structural, Debug)]
pub enum Parity {
    /// No parity bit.
    Off,
    /// Even parity.
    Even,
    /// Odd parity.
    Odd,
}

/// Number of stop bits.
#[derive(Clone, Copy, PartialEq, Eq, Structural, Debug)]
pub enum StopBits {
    /// One.
    One,
    /// Two.
    Two,
}

/// Length of a character.
#[derive(Clone, Copy, PartialEq, Eq, Structural, Debug)]
pub enum DataBits {
    /// Seven bits.
    Seven,
    /// Eight bits.
    Eight,
}

/// Clock, baud rate and frame format.
#[derive(Clone, Copy, Debug)]
pub struct Config {
    /// The clock of the baud-rate generator.
    pub clock_source: ClockSource,
    /// Its frequency in Hz.
    pub clock_freq: u32,
    /// Baud rate.
    pub baud: u32,
    /// Parity.
    pub parity: Parity,
    /// Stop bits.
    pub stop_bits: StopBits,
    /// Character length.
    pub data_bits: DataBits,
}

impl Config {
    /// 9600 baud from SMCLK at the given frequency, eight data bits, no
    /// parity, one stop bit.
    pub fn new(clock_freq: u32) -> (r: Self)
        ensures
            r == (Config {
                clock_source: ClockSource::Smclk,
                clock_freq,
                baud: 9600,
                parity: Parity::Off,
                stop_bits: StopBits::One,
                data_bits: DataBits::Eight,
            }),
    {
        Config {
            clock_source: ClockSource::Smclk,
            clock_freq,
            baud: 9600,
            parity: Parity::Off,
            stop_bits: StopBits::One,
            data_bits: DataBits::Eight,
        }
    }

    /// Sets the baud rate.
    pub fn baud(self, baud: u32) -> (r: Self)
        ensures
            r == (Config { baud, ..self }),
    {
        let mut r = self;
        r.baud = baud;
        r
    }

    /// Selects the clock.
    pub fn clock_source(self, src: ClockSource) -> (r: Self)
        ensures
            r == (Config { clock_source: src, ..self }),
    {
        let mut r = self;
        r.clock_source = src;
        r
    }

    /// Sets the parity.
    pub fn parity(self, parity: Parity) -> (r: Self)
        ensures
            r == (Config { parity, ..self }),
    {
        let mut r = self;
        r.parity = parity;
        r
    }

    /// Sets the number of stop bits.
    pub fn stop_bits(self, stop_bits: StopBits) -> (r: Self)
        ensures
            r == (Config { stop_bits, ..self }),
    {
        let mut r = self;
        r.stop_bits = stop_bits;
        r
    }

    /// Sets the length of a character.
    pub fn data_bits(self, data_bits: DataBits) -> (r: Self)
        ensures
            r == (Config { data_bits, ..self }),
    {
        let mut r = self;
        r.data_bits = data_bits;
        r
    }

    /// The control word of the frame format and the clock.
    pub open spec fn frame(self) -> int {
        (match self.clock_source {
            ClockSource::Aclk => 0x40int,
            ClockSource::Smclk => 0x80,
        }) + (match self.parity {
            Parity::Off => 0,
            Parity::Even => UCPEN + UCPAR,
            Parity::Odd => UCPEN as int,
        }) + (match self.stop_bits {
            StopBits::One => 0,
            StopBits::Two => UCSPB as int,
        }) + (match self.data_bits {
            DataBits::Seven => UC7BIT as int,
            DataBits::Eight => 0,
        })
    }
}

impl Default for Config {
    /// 9600 baud, 8N1, from the 1 MHz that SMCLK has after reset.
    fn default() -> (r: Self)
        ensures
            r == (Config {
                clock_source: ClockSource::Smclk,
                clock_freq: 1_000_000,
                baud: 9600,
                parity: Parity::Off,
                stop_bits: StopBits::One,
                data_bits: DataBits::Eight,
            }),
    {
        Config::new(1_000_000)
    }
}

/// What can be wrong with a received byte.
#[derive(Clone, Copy, PartialEq, Eq, Structural, Debug)]
pub enum Error {
    /// It came before the one before it was read.
    Overrun,
    /// Its parity is wrong.
    Parity,
    /// Its stop bit is missing.
    Framing,
    /// The line was held at break.
    Break,
}

/// Why a byte could not be moved at once.
#[derive(Clone, Copy, PartialEq, Eq, Structural, Debug)]
pub enum NbError {
    /// Not now; try again.
    WouldBlock,
    /// The received byte is bad, and gone.
    Other(Error),
}

/// Why a blocking read failed.
#[derive(Clone, Copy, PartialEq, Eq, Structural, Debug)]
pub enum ReadError {
    /// A received byte is bad.
    Line(Error),
    /// Nothing came.
    Stalled,
}

/// What the status word says about the byte in the receive buffer. Of several
/// errors the one that lost most data counts.
pub open spec fn line_error(status: u16) -> Option<Error> {
    if status & UCRXERR == 0 {
        None
    } else if status & UCOE != 0 {
        Some(Error::Overrun)
    } else if status & UCFE != 0 {
        Some(Error::Framing)
    } else if status & UCPE != 0 {
        Some(Error::Parity)
    } else if status & UCBRK != 0 {
        Some(Error::Break)
    } else {
        Some(Error::Framing)
    }
}

/// A register of module `U`.
pub open spec fn reg<U: Instance>(offset: u32) -> u32 {
    (U::BASE + offset) as u32
}

fn reg_of<U: Instance>(offset: u32) -> (r: u32)
    requires
        offset <= IV,
    ensures
        r == reg::<U>(offset),
        r <= 0xFFFF,
{
    proof {
        U::base_fits();
    }
    U::BASE + offset
}

/// The look at the receive flag.
pub open spec fn rx_look<U: Instance>(ready: bool) -> Step {
    Step::Test16 { addr: reg::<U>(IFG), cond: Cond::all_set(UCRXIFG), holds: ready }
}

/// The look at the transmit flag.
pub open spec fn tx_look<U: Instance>(ready: bool) -> Step {
    Step::Test16 { addr: reg::<U>(IFG), cond: Cond::all_set(UCTXIFG), holds: ready }
}

/// The wait for a byte.
pub open spec fn rx_wait<U: Instance>(patience: u64, met: bool) -> Step {
    Step::Poll16 {
        addr: reg::<U>(IFG),
        until: Cond::all_set(UCRXIFG),
        budget: patience,
        met,
    }
}

/// The wait for room in the transmit buffer.
pub open spec fn tx_wait<U: Instance>(patience: u64, met: bool) -> Step {
    Step::Poll16 {
        addr: reg::<U>(IFG),
        until: Cond::all_set(UCTXIFG),
        budget: patience,
        met,
    }
}

/// The wait until the line is idle.
pub open spec fn idle_wait<U: Instance>(patience: u64, met: bool) -> Step {
    Step::Poll16 {
        addr: reg::<U>(STATW),
        until: Cond::none_set(UCBUSY),
        budget: patience,
        met,
    }
}

/// A byte put into the transmit buffer.
pub open spec fn send<U: Instance>(byte: u8) -> Step {
    Step::Write16 { addr: reg::<U>(TXBUF), value: byte as u16 }
}

/// A byte as it was taken: the status word before it, and the byte.
#[derive(Clone, Copy)]
pub struct Arrival {
    pub status: u16,
    pub byte: u8,
}

/// A byte taken: the status first, because reading the buffer clears it.
pub open spec fn take_script<U: Instance>(a: Arrival) -> Seq<Step> {
    seq![
        Step::Read16 { addr: reg::<U>(STATW), value: a.status },
        Step::Low8 { addr: reg::<U>(RXBUF), value: a.byte },
    ]
}

/// What the taking of `a` results in.
pub open spec fn taken(a: Arrival) -> Result<u8, NbError> {
    match line_error(a.status) {
        None => Ok(a.byte),
        Some(e) => Err(NbError::Other(e)),
    }
}

/// What trying to read a byte does: nothing but the look where there is none.
pub open spec fn tried_read<U: Instance, H: Hardware>(
    pre: Bus<H>,
    post: Bus<H>,
    r: Result<u8, NbError>,
) -> bool {
    if r == Err::<u8, NbError>(NbError::WouldBlock) {
        post.ran(pre, seq![rx_look::<U>(false)])
    } else {
        exists|a: Arrival|
            r == #[trigger] taken(a) && post.ran(
                pre,
                seq![rx_look::<U>(true)] + take_script::<U>(a),
            )
    }
}

/// What trying to write a byte does.
pub open spec fn tried_write<U: Instance, H: Hardware>(
    pre: Bus<H>,
    post: Bus<H>,
    byte: u8,
    r: Result<(), NbError>,
) -> bool {
    match r {
        Ok(_) => post.ran(pre, seq![tx_look::<U>(true), send::<U>(byte)]),
        Err(e) => e == NbError::WouldBlock && post.ran(pre, seq![tx_look::<U>(false)]),
    }
}

/// What trying to flush does.
pub open spec fn tried_flush<U: Instance, H: Hardware>(
    pre: Bus<H>,
    post: Bus<H>,
    r: Result<(), NbError>,
) -> bool {
    &&& r is Err ==> r == Err::<(), NbError>(NbError::WouldBlock)
    &&& post.ran(
        pre,
        seq![
            Step::Test16 {
                addr: reg::<U>(STATW),
                cond: Cond::all_set(UCBUSY),
                holds: r is Err,
            },
        ],
    )
}

/// Reads what the status word says.
fn check_status(status: u16) -> (r: Option<Error>)
    ensures
        r == line_error(status),
{
    if status & UCRXERR == 0 {
        None
    } else if status & UCOE != 0 {
        Some(Error::Overrun)
    } else if status & UCFE != 0 {
        Some(Error::Framing)
    } else if status & UCPE != 0 {
        Some(Error::Parity)
    } else if status & UCBRK != 0 {
        Some(Error::Break)
    } else {
        Some(Error::Framing)
    }
}

/// Takes the byte that the receive flag announced.
fn take<U: Instance, H: Hardware>(bus: &mut Bus<H>) -> (a: Arrival)
    ensures
        final(bus).ran(*old(bus), take_script::<U>(a)),
{
    let status: u16 = bus.read16(reg_of::<U>(STATW));
    let byte: u8 = bus.low8(reg_of::<U>(RXBUF));
    Arrival { status, byte }
}

/// Puts a byte into the transmit buffer if it is empty.
fn try_write_byte<U: Instance, H: Hardware>(bus: &mut Bus<H>, byte: u8) -> (r: Result<(), NbError>)
    ensures
        tried_write::<U, H>(*old(bus), *final(bus), byte, r),
{
    if !bus.is_set16(reg_of::<U>(IFG), UCTXIFG) {
        return Err(NbError::WouldBlock);
    }
    bus.write16(reg_of::<U>(TXBUF), byte as u16);
    Ok(())
}

/// Whether the last byte has left the shift register.
fn try_flush<U: Instance, H: Hardware>(bus: &mut Bus<H>) -> (r: Result<(), NbError>)
    ensures
        tried_flush::<U, H>(*old(bus), *final(bus), r),
{
    if bus.is_set16(reg_of::<U>(STATW), UCBUSY) {
        return Err(NbError::WouldBlock);
    }
    Ok(())
}

/// Takes a byte if there is one.
fn try_read_byte<U: Instance, H: Hardware>(bus: &mut Bus<H>) -> (r: Result<u8, NbError>)
    ensures
        tried_read::<U, H>(*old(bus), *final(bus), r),
{
    if !bus.is_set16(reg_of::<U>(IFG), UCRXIFG) {
        return Err(NbError::WouldBlock);
    }
    let a = take::<U, H>(bus);
    let r = match check_status(a.status) {
        None => Ok(a.byte),
        Some(e) => Err(NbError::Other(e)),
    };
    assert(r == taken(a));
    r
}

/// A UART.
pub struct Serial<USCI> {
    _usci: PhantomData<USCI>,
}

/// The transmit half of a UART.
pub struct Tx<USCI> {
    _usci: PhantomData<USCI>,
}

/// The receive half of a UART.
pub struct Rx<USCI> {
    _usci: PhantomData<USCI>,
}

/// The modulation word.
pub open spec fn modulation(regs: BaudRegs) -> int {
    regs.ucbrs * 0x100 + regs.ucbrf * 0x10 + if regs.oversampling {
        UCOS16 as int
    } else {
        0
    }
}

/// `regs` are the generator settings for `config`.
pub open spec fn baud_fits(config: Config, regs: BaudRegs) -> bool {
    let n = crate::baud::ratio(config.clock_freq, config.baud);
    &&& regs.oversampling == (n >= 16)
    &&& regs.ucbr == if n >= 16 {
        n / 16 % 0x1_0000
    } else {
        n
    }
    &&& regs.ucbrf == if n >= 16 {
        n % 16
    } else {
        0
    }
    &&& exists|row: int|
        #[trigger] crate::baud::table_row(
            row,
            crate::baud::fraction(config.clock_freq, config.baud),
        ) && regs.ucbrs == crate::baud::UCBRS_TABLE@[row].1
}

/// The set-up of a UART: held in reset, baud rate, pins, released.
pub open spec fn init_script<U: Instance>(config: Config, regs: BaudRegs) -> Seq<Step> {
    seq![
        Step::Write16 { addr: reg::<U>(CTLW0), value: (config.frame() + UCSWRST) as u16 },
        Step::Write16 { addr: reg::<U>(BRW), value: regs.ucbr },
        Step::Write16 { addr: reg::<U>(MCTLW), value: modulation(regs) as u16 },
        Step::Edit8 { addr: P2SEL1, clear: 0, set: U::PIN_MASK },
        Step::Edit8 { addr: P2SEL0, clear: U::PIN_MASK, set: 0 },
        Step::Write16 { addr: reg::<U>(CTLW0), value: config.frame() as u16 },
    ]
}

impl<USCI: Instance> Serial<USCI> {
    /// Configures the module as a UART.
    fn init<H: Hardware>(bus: &mut Bus<H>, config: Config) -> (r: Self)
        requires
            config.baud > 0,
        ensures
            exists|regs: BaudRegs|
                baud_fits(config, regs) && final(bus).ran(
                    *old(bus),
                    #[trigger] init_script::<USCI>(config, regs),
                ),
    {
        let regs = compute_baud(config.clock_freq, config.baud);
        let clock: u16 = match config.clock_source {
            ClockSource::Aclk => 0x40,
            ClockSource::Smclk => 0x80,
        };
        let parity: u16 = match config.parity {
            Parity::Off => 0,
            Parity::Even => UCPEN + UCPAR,
            Parity::Odd => UCPEN,
        };
        let stop: u16 = match config.stop_bits {
            StopBits::One => 0,
            StopBits::Two => UCSPB,
        };
        let data: u16 = match config.data_bits {
            DataBits::Seven => UC7BIT,
            DataBits::Eight => 0,
        };
        let frame: u16 = clock + parity + stop + data;
        let mctlw: u16 = regs.ucbrs as u16 * 0x100 + regs.ucbrf as u16 * 0x10
            + if regs.oversampling {
            UCOS16
        } else {
            0
        };
        bus.write16(reg_of::<USCI>(CTLW0), frame + UCSWRST);
        bus.write16(reg_of::<USCI>(BRW), regs.ucbr);
        bus.write16(reg_of::<USCI>(MCTLW), mctlw);
        bus.edit8(P2SEL1, 0, USCI::PIN_MASK);
        bus.edit8(P2SEL0, USCI::PIN_MASK, 0);
        bus.write16(reg_of::<USCI>(CTLW0), frame);
        proof {
            assert(baud_fits(config, regs));
            assert(bus.ran(*old(bus), init_script::<USCI>(config, regs)));
        }
        Serial { _usci: PhantomData }
    }

    /// Splits the UART into its halves.
    pub fn split(self) -> (Tx<USCI>, Rx<USCI>) {
        (Tx { _usci: PhantomData }, Rx { _usci: PhantomData })
    }
}

/// Bytes sent one after the other, each when there was room for it.
pub open spec fn stream_script<U: Instance>(bytes: Seq<u8>, patience: u64) -> Seq<Step> {
    Seq::new(
        2 * bytes.len(),
        |i: int|
            if i % 2 == 0 {
                tx_wait::<U>(patience, true)
            } else {
                send::<U>(bytes[i / 2])
            },
    )
}

/// What a blocking write of `bytes` does.
pub open spec fn streamed<U: Instance, H: Hardware>(
    pre: Bus<H>,
    post: Bus<H>,
    bytes: Seq<u8>,
    r: Result<usize, Stalled>,
) -> bool {
    match r {
        Ok(n) => n == bytes.len() && post.ran(pre, stream_script::<U>(bytes, pre.patience())),
        Err(_) => exists|sent: int|
            0 <= sent < bytes.len() && post.ran(
                pre,
                stream_script::<U>(#[trigger] bytes.take(sent), pre.patience()).push(
                    tx_wait::<U>(pre.patience(), false),
                ),
            ),
    }
}

/// What a blocking flush does.
pub open spec fn flushed<U: Instance, H: Hardware>(
    pre: Bus<H>,
    post: Bus<H>,
    r: Result<(), Stalled>,
) -> bool {
    post.ran(pre, seq![idle_wait::<U>(pre.patience(), r is Ok)])
}

/// How a blocking read ended.
pub enum ReadEnd {
    /// The buffer is full.
    Full,
    /// No further byte was there.
    Quiet,
    /// A bad byte came.
    Bad(Arrival),
    /// No byte came at all.
    Stalled,
}

/// The look or wait before byte number `k` of a blocking read: it waits for
/// the first byte only.
pub open spec fn before_byte<U: Instance>(k: int, patience: u64) -> Step {
    if k == 0 {
        rx_wait::<U>(patience, true)
    } else {
        rx_look::<U>(true)
    }
}

/// The good bytes of a blocking read.
pub open spec fn arrivals_script<U: Instance>(got: Seq<Arrival>, patience: u64) -> Seq<Step>
    decreases got.len(),
{
    if got.len() == 0 {
        Seq::empty()
    } else {
        arrivals_script::<U>(got.drop_last(), patience).push(
            before_byte::<U>(got.len() - 1, patience),
        ) + take_script::<U>(got.last())
    }
}

/// A blocking read that took the good bytes `got` and ended with `end`.
pub open spec fn read_script<U: Instance>(
    got: Seq<Arrival>,
    end: ReadEnd,
    patience: u64,
) -> Seq<Step> {
    arrivals_script::<U>(got, patience) + match end {
        ReadEnd::Full => Seq::empty(),
        ReadEnd::Quiet => seq![rx_look::<U>(false)],
        ReadEnd::Bad(a) => seq![before_byte::<U>(got.len() as int, patience)] + take_script::<U>(a),
        ReadEnd::Stalled => seq![rx_wait::<U>(patience, false)],
    }
}

/// The outcome of such a read on a buffer of `len` bytes.
pub open spec fn read_outcome(
    len: nat,
    got: Seq<Arrival>,
    end: ReadEnd,
    r: Result<usize, ReadError>,
) -> bool {
    &&& got.len() <= len
    &&& forall|i: int| 0 <= i < got.len() ==> line_error((#[trigger] got[i]).status) is None
    &&& match end {
        ReadEnd::Full => got.len() == len && r == Ok::<usize, ReadError>(got.len() as usize),
        ReadEnd::Quiet => 0 < got.len() < len && r == Ok::<usize, ReadError>(got.len() as usize),
        ReadEnd::Bad(a) => {
            &&& got.len() < len
            &&& line_error(a.status) matches Some(e)
            &&& r == Err::<usize, ReadError>(ReadError::Line(e))
        },
        ReadEnd::Stalled => got.len() == 0 && len > 0 && r == Err::<usize, ReadError>(
            ReadError::Stalled,
        ),
    }
}

/// The bytes of the arrivals.
pub open spec fn bytes_of(got: Seq<Arrival>) -> Seq<u8> {
    got.map_values(|a: Arrival| a.byte)
}

/// What a blocking read into a buffer does: the good bytes stand at its
/// beginning, also where a bad one followed; the rest keeps its contents.
pub open spec fn filled<U: Instance, H: Hardware>(
    pre: Bus<H>,
    post: Bus<H>,
    before: Seq<u8>,
    after: Seq<u8>,
    r: Result<usize, ReadError>,
) -> bool {
    exists|got: Seq<Arrival>, end: ReadEnd|
        {
            &&& #[trigger] read_outcome(before.len(), got, end, r)
            &&& after =~= bytes_of(got) + before.skip(got.len() as int)
            &&& post.ran(pre, read_script::<U>(got, end, pre.patience()))
        }
}

/// Sends a whole buffer.
fn io_write<U: Instance, H: Hardware>(bus: &mut Bus<H>, buf: &[u8]) -> (r: Result<usize, Stalled>)
    ensures
        streamed::<U, H>(*old(bus), *final(bus), buf@, r),
{
    let ghost patience = bus.patience();
    let mut i: usize = 0;
    while i < buf.len()
        invariant
            i <= buf@.len(),
            patience == old(bus).patience(),
            bus.ran(*old(bus), stream_script::<U>(buf@.take(i as int), patience)),
        decreases buf@.len() - i,
    {
        if !bus.poll16(reg_of::<U>(IFG), Cond::Bits { mask: UCTXIFG, want: UCTXIFG }) {
            return Err(Stalled);
        }
        let byte: u8 = buf[i];
        bus.write16(reg_of::<U>(TXBUF), byte as u16);
        proof {
            assert(buf@.take(i + 1)[i as int] == byte);
            assert(stream_script::<U>(buf@.take(i + 1), patience) =~= stream_script::<U>(
                buf@.take(i as int),
                patience,
            ) + seq![tx_wait::<U>(patience, true), send::<U>(byte)]);
        }
        i = i + 1;
    }
    assert(buf@.take(i as int) =~= buf@);
    Ok(buf.len())
}

/// Waits until the line is idle.
fn io_flush<U: Instance, H: Hardware>(bus: &mut Bus<H>) -> (r: Result<(), Stalled>)
    ensures
        flushed::<U, H>(*old(bus), *final(bus), r),
{
    if !bus.poll16(reg_of::<U>(STATW), Cond::Bits { mask: UCBUSY, want: 0 }) {
        return Err(Stalled);
    }
    Ok(())
}

/// Waits for a byte and takes whatever else is there.
fn io_read<U: Instance, H: Hardware>(bus: &mut Bus<H>, buf: &mut [u8]) -> (r: Result<
    usize,
    ReadError,
>)
    ensures
        final(buf)@.len() == old(buf)@.len(),
        filled::<U, H>(*old(bus), *final(bus), old(buf)@, final(buf)@, r),
{
    let ghost before = buf@;
    let ghost patience = bus.patience();
    let ghost mut got: Seq<Arrival> = Seq::empty();
    let len: usize = buf.len();
    let mut n: usize = 0;
    while n < len
        invariant
            n <= len,
            len == before.len(),
            before == old(buf)@,
            patience == old(bus).patience(),
            buf@.len() == before.len(),
            got.len() == n,
            forall|i: int| 0 <= i < got.len() ==> line_error((#[trigger] got[i]).status) is None,
            buf@ =~= bytes_of(got) + before.skip(n as int),
            bus.ran(*old(bus), arrivals_script::<U>(got, patience)),
        decreases len - n,
    {
        if n == 0 {
            if !bus.poll16(reg_of::<U>(IFG), Cond::Bits { mask: UCRXIFG, want: UCRXIFG }) {
                assert(read_outcome(before.len(), got, ReadEnd::Stalled, Err(ReadError::Stalled)));
                return Err(ReadError::Stalled);
            }
        } else {
            if !bus.is_set16(reg_of::<U>(IFG), UCRXIFG) {
                assert(read_outcome(before.len(), got, ReadEnd::Quiet, Ok(n)));
                return Ok(n);
            }
        }
        let a = take::<U, H>(bus);
        match check_status(a.status) {
            Some(e) => {
                assert(read_outcome(
                    before.len(),
                    got,
                    ReadEnd::Bad(a),
                    Err(ReadError::Line(e)),
                ));
                return Err(ReadError::Line(e));
            },
            None => {},
        }
        buf[n] = a.byte;
        proof {
            let longer = got.push(a);
            assert(longer.drop_last() =~= got);
            assert(bytes_of(longer) =~= bytes_of(got).push(a.byte));
            got = longer;
        }
        n = n + 1;
    }
    assert(read_outcome(before.len(), got, ReadEnd::Full, Ok(n)));
    Ok(n)
}

impl<USCI: Instance> Serial<USCI> {
    /// Sends a byte if there is room for it.
    pub fn write_byte<H: Hardware>(&mut self, bus: &mut Bus<H>, word: u8) -> (r: Result<
        (),
        NbError,
    >)
        ensures
            tried_write::<USCI, H>(*old(bus), *final(bus), word, r),
    {
        try_write_byte::<USCI, H>(bus, word)
    }

    /// Whether everything is sent.
    pub fn flush_byte<H: Hardware>(&mut self, bus: &mut Bus<H>) -> (r: Result<(), NbError>)
        ensures
            tried_flush::<USCI, H>(*old(bus), *final(bus), r),
    {
        try_flush::<USCI, H>(bus)
    }

    /// Takes a byte if there is one.
    pub fn read_byte<H: Hardware>(&mut self, bus: &mut Bus<H>) -> (r: Result<u8, NbError>)
        ensures
            tried_read::<USCI, H>(*old(bus), *final(bus), r),
    {
        try_read_byte::<USCI, H>(bus)
    }

    /// Sends a whole buffer.
    pub fn write<H: Hardware>(&mut self, bus: &mut Bus<H>, buf: &[u8]) -> (r: Result<
        usize,
        Stalled,
    >)
        ensures
            streamed::<USCI, H>(*old(bus), *final(bus), buf@, r),
    {
        io_write::<USCI, H>(bus, buf)
    }

    /// Waits until everything is sent.
    pub fn flush<H: Hardware>(&mut self, bus: &mut Bus<H>) -> (r: Result<(), Stalled>)
        ensures
            flushed::<USCI, H>(*old(bus), *final(bus), r),
    {
        io_flush::<USCI, H>(bus)
    }

    /// Waits for a byte and takes what else is there.
    pub fn read<H: Hardware>(&mut self, bus: &mut Bus<H>, buf: &mut [u8]) -> (r: Result<
        usize,
        ReadError,
    >)
        ensures
            final(buf)@.len() == old(buf)@.len(),
            filled::<USCI, H>(*old(bus), *final(bus), old(buf)@, final(buf)@, r),
    {
        io_read::<USCI, H>(bus, buf)
    }

    /// Whether a byte could be sent at once.
    pub fn write_ready<H: Hardware>(&mut self, bus: &mut Bus<H>) -> (r: bool)
        ensures
            final(bus).ran(*old(bus), seq![tx_look::<USCI>(r)]),
    {
        bus.is_set16(reg_of::<USCI>(IFG), UCTXIFG)
    }

    /// Whether a byte could be read at once.
    pub fn read_ready<H: Hardware>(&mut self, bus: &mut Bus<H>) -> (r: bool)
        ensures
            final(bus).ran(*old(bus), seq![rx_look::<USCI>(r)]),
    {
        bus.is_set16(reg_of::<USCI>(IFG), UCRXIFG)
    }
}

/// The DMA job of a burst: all bytes but the first.
pub open spec fn burst_job<U: Instance>(buf: ByteSpan) -> Job {
    Job {
        src: (buf.addr + 1) as u16,
        src_mode: AddrMode::Increment,
        dst: reg::<U>(TXBUF) as u16,
        dst_mode: AddrMode::Fixed,
        bytes: true,
        count: (buf.len - 1) as u16,
    }
}

/// How a DMA-paced write ended.
pub enum BurstEnd {
    /// No room for the first byte.
    NoRoom,
    /// The channel did not complete.
    Stuck,
    /// Done.
    Done,
}

/// A DMA-paced write of the bytes in `buf`, of which `first` is the first. Two
/// bytes and more go by DMA.
pub open spec fn burst_script<U: Instance>(
    n: u8,
    buf: ByteSpan,
    first: u8,
    patience: u64,
    end: BurstEnd,
) -> Seq<Step> {
    let fetched = seq![Step::Read8 { addr: buf.addr as u32, value: first }];
    match end {
        BurstEnd::NoRoom => fetched.push(tx_wait::<U>(patience, false)),
        _ => if buf.len == 1 {
            fetched + seq![tx_wait::<U>(patience, true), send::<U>(first)]
        } else {
            fetched + seq![tx_wait::<U>(patience, true)] + crate::dma::arm_script(
                n,
                U::DMA_TX_TRIGGER,
                burst_job::<U>(buf),
            ) + seq![send::<U>(first)] + crate::dma::finish_script(n, patience, end is Done)
        },
    }
}

/// What a DMA-paced write does.
pub open spec fn burst<U: Instance, H: Hardware>(
    pre: Bus<H>,
    post: Bus<H>,
    n: u8,
    buf: ByteSpan,
    done: bool,
) -> bool {
    if buf.len == 0 {
        done && post.ran(pre, Seq::empty())
    } else {
        exists|first: u8, end: BurstEnd|
            {
                &&& done == (end is Done)
                &&& end is Stuck ==> buf.len > 1
                &&& post.ran(
                    pre,
                    #[trigger] burst_script::<U>(n, buf, first, pre.patience(), end),
                )
            }
    }
}

impl<USCI: Instance> Tx<USCI> {
    /// Sends a byte if there is room for it.
    pub fn write_byte<H: Hardware>(&mut self, bus: &mut Bus<H>, word: u8) -> (r: Result<
        (),
        NbError,
    >)
        ensures
            tried_write::<USCI, H>(*old(bus), *final(bus), word, r),
    {
        try_write_byte::<USCI, H>(bus, word)
    }

    /// Whether everything is sent.
    pub fn flush_byte<H: Hardware>(&mut self, bus: &mut Bus<H>) -> (r: Result<(), NbError>)
        ensures
            tried_flush::<USCI, H>(*old(bus), *final(bus), r),
    {
        try_flush::<USCI, H>(bus)
    }

    /// Sends a whole buffer.
    pub fn write<H: Hardware>(&mut self, bus: &mut Bus<H>, buf: &[u8]) -> (r: Result<
        usize,
        Stalled,
    >)
        ensures
            streamed::<USCI, H>(*old(bus), *final(bus), buf@, r),
    {
        io_write::<USCI, H>(bus, buf)
    }

    /// Waits until everything is sent.
    pub fn flush<H: Hardware>(&mut self, bus: &mut Bus<H>) -> (r: Result<(), Stalled>)
        ensures
            flushed::<USCI, H>(*old(bus), *final(bus), r),
    {
        io_flush::<USCI, H>(bus)
    }

    /// Whether a byte could be sent at once.
    pub fn write_ready<H: Hardware>(&mut self, bus: &mut Bus<H>) -> (r: bool)
        ensures
            final(bus).ran(*old(bus), seq![tx_look::<USCI>(r)]),
    {
        bus.is_set16(reg_of::<USCI>(IFG), UCTXIFG)
    }

    /// Sends a buffer paced by DMA, and returns when the last byte is in the
    /// transmit buffer. The transmit buffer is empty before the channel is
    /// armed, so that no edge can come between arming and the first byte.
    pub fn write_all_dma<H: Hardware, const N: u8>(
        &mut self,
        bus: &mut Bus<H>,
        ch: &mut Channel<N>,
        buf: ByteSpan,
    ) -> (r: Result<(), Stalled>)
        requires
            buf.wf(),
        ensures
            burst::<USCI, H>(*old(bus), *final(bus), N, buf, r is Ok),
    {
        if buf.len == 0 {
            return Ok(());
        }
        let ghost patience = bus.patience();
        let first: u8 = bus.read8(buf.addr as u32);
        if !bus.poll16(reg_of::<USCI>(IFG), Cond::Bits { mask: UCTXIFG, want: UCTXIFG }) {
            assert(bus.ran(
                *old(bus),
                burst_script::<USCI>(N, buf, first, patience, BurstEnd::NoRoom),
            ));
            return Err(Stalled);
        }
        if buf.len == 1 {
            bus.write16(reg_of::<USCI>(TXBUF), first as u16);
            assert(bus.ran(
                *old(bus),
                burst_script::<USCI>(N, buf, first, patience, BurstEnd::Done),
            ));
            return Ok(());
        }
        let txbuf: u32 = reg_of::<USCI>(TXBUF);
        ch.arm_single_bytes(
            bus,
            USCI::DMA_TX_TRIGGER,
            buf.addr + 1,
            AddrMode::Increment,
            txbuf as u16,
            AddrMode::Fixed,
            buf.len - 1,
        );
        bus.write16(txbuf, first as u16);
        let r = ch.wait_done(bus);
        let ghost end = if r is Ok {
            BurstEnd::Done
        } else {
            BurstEnd::Stuck
        };
        assert(bus.ran(*old(bus), burst_script::<USCI>(N, buf, first, patience, end)));
        r
    }

    /// Bonds the transmit half to a DMA channel.
    pub fn with_dma<const N: u8>(self, ch: Channel<N>) -> (r: DmaTx<USCI, N>)
        ensures
            r.parts() == (self, ch),
    {
        DmaTx { tx: self, ch }
    }
}

/// A transmit half bonded to a DMA channel.
pub struct DmaTx<USCI, const N: u8> {
    tx: Tx<USCI>,
    ch: Channel<N>,
}

impl<USCI: Instance, const N: u8> DmaTx<USCI, N> {
    /// The two parts.
    pub closed spec fn parts(&self) -> (Tx<USCI>, Channel<N>) {
        (self.tx, self.ch)
    }

    /// Takes both parts back.
    pub fn release(self) -> (r: (Tx<USCI>, Channel<N>))
        ensures
            r == self.parts(),
    {
        (self.tx, self.ch)
    }

    /// Sends the whole buffer by DMA.
    pub fn write<H: Hardware>(&mut self, bus: &mut Bus<H>, buf: ByteSpan) -> (r: Result<
        usize,
        Stalled,
    >)
        requires
            buf.wf(),
        ensures
            burst::<USCI, H>(*old(bus), *final(bus), N, buf, r is Ok),
            r is Ok ==> r == Ok::<usize, Stalled>(buf.len as usize),
    {
        match self.tx.write_all_dma(bus, &mut self.ch, buf) {
            Ok(_) => Ok(buf.len as usize),
            Err(e) => Err(e),
        }
    }

    /// Waits until everything is sent.
    pub fn flush<H: Hardware>(&mut self, bus: &mut Bus<H>) -> (r: Result<(), Stalled>)
        ensures
            flushed::<USCI, H>(*old(bus), *final(bus), r),
    {
        io_flush::<USCI, H>(bus)
    }
}

/// Reads the interrupt vector register of the module: 0 for nothing, 2 for a
/// received byte, 4 for room in the transmit buffer.
pub fn read_iv<USCI: Instance, H: Hardware>(bus: &mut Bus<H>) -> (iv: u16)
    ensures
        final(bus).ran(*old(bus), seq![Step::Read16 { addr: reg::<USCI>(IV), value: iv }]),
{
    bus.read16(reg_of::<USCI>(IV))
}

/// Takes a received byte, from inside the interrupt handler.
pub fn isr_read_byte<USCI: Instance, H: Hardware>(bus: &mut Bus<H>) -> (r: Result<u8, NbError>)
    ensures
        tried_read::<USCI, H>(*old(bus), *final(bus), r),
{
    try_read_byte::<USCI, H>(bus)
}

/// Turns the peripheral into a UART.
pub trait SerialExt: Sized {
    /// The module.
    type Instance: Instance;

    /// Consumes the peripheral and configures it as a UART. The baud rate is
    /// not zero.
    fn into_uart<H: Hardware>(self, bus: &mut Bus<H>, config: Config) -> Serial<Self::Instance>
        requires
            config.baud > 0,
    ;
}

impl SerialExt for UsciA0UartMode {
    type Instance = UsciA0;

    fn into_uart<H: Hardware>(self, bus: &mut Bus<H>, config: Config) -> (r: Serial<UsciA0>)
        ensures
            exists|regs: BaudRegs|
                baud_fits(config, regs) && final(bus).ran(
                    *old(bus),
                    #[trigger] init_script::<UsciA0>(config, regs),
                ),
    {
        Serial::<UsciA0>::init(bus, config)
    }
}

impl SerialExt for UsciA1UartMode {
    type Instance = UsciA1;

    fn into_uart<H: Hardware>(self, bus: &mut Bus<H>, config: Config) -> (r: Serial<UsciA1>)
        ensures
            exists|regs: BaudRegs|
                baud_fits(config, regs) && final(bus).ran(
                    *old(bus),
                    #[trigger] init_script::<UsciA1>(config, regs),
                ),
    {
        Serial::<UsciA1>::init(bus, config)
    }
}

/// The DMA job of a reception: into `buf` from byte `done` on.
pub open spec fn reception_job<U: Instance>(buf: ByteSpan, done: int) -> Job {
    Job {
        src: reg::<U>(RXBUF) as u16,
        src_mode: AddrMode::Fixed,
        dst: (buf.addr + done) as u16,
        dst_mode: AddrMode::Increment,
        bytes: true,
        count: (buf.len - done) as u16,
    }
}

/// Bytes thrown away before a channel is armed: each was announced, and taken
/// unless it was gone by then.
pub open spec fn drain_script<U: Instance>(drops: Seq<Option<Arrival>>) -> Seq<Step>
    decreases drops.len(),
{
    if drops.len() == 0 {
        Seq::empty()
    } else {
        drain_script::<U>(drops.drop_last()) + match drops.last() {
            Some(a) => seq![rx_look::<U>(true), rx_look::<U>(true)] + take_script::<U>(a),
            None => seq![rx_look::<U>(true), rx_look::<U>(false)],
        }
    }
}

/// Bytes taken by hand into `buf` from byte `from` on.
pub open spec fn store_script<U: Instance>(
    buf: ByteSpan,
    from: int,
    got: Seq<Arrival>,
) -> Seq<Step>
    decreases got.len(),
{
    if got.len() == 0 {
        Seq::empty()
    } else {
        store_script::<U>(buf, from, got.drop_last()) + seq![
            rx_look::<U>(true),
            rx_look::<U>(true),
        ] + take_script::<U>(got.last()) + seq![
            Step::Write8 {
                addr: (buf.addr + from + got.len() - 1) as u32,
                value: got.last().byte,
            },
        ]
    }
}

/// How one round of a DMA-paced read ended, after bytes were taken by hand.
#[derive(Clone, Copy)]
pub enum RoundEnd {
    /// The buffer was full without DMA.
    Full,
    /// A byte taken by hand was bad.
    Bad(Arrival),
    /// A byte came between the last look and the arming; the channel was
    /// disarmed again. `gone` says that an announced byte was gone.
    Stale { gone: bool },
    /// The channel was left to move the rest. `left` is the count that was
    /// seen where a byte was there right after the arming.
    Moved { gone: bool, left: Option<u16>, done: bool },
}

/// One round of a DMA-paced read: bytes taken by hand, and how it ended.
#[allow(dead_code)]
pub struct Round {
    pub got: Ghost<Seq<Arrival>>,
    pub end: RoundEnd,
}

/// The look, or the two looks, after which no byte was there.
pub open spec fn no_more<U: Instance>(gone: bool) -> Seq<Step> {
    if gone {
        seq![rx_look::<U>(true), rx_look::<U>(false)]
    } else {
        seq![rx_look::<U>(false)]
    }
}

/// The steps of a round that begins with `from` bytes in the buffer.
pub open spec fn round_script<U: Instance>(
    n: u8,
    buf: ByteSpan,
    from: int,
    patience: u64,
    got: Seq<Arrival>,
    end: RoundEnd,
) -> Seq<Step> {
    let stored = store_script::<U>(buf, from, got);
    let here = from + got.len();
    let job = reception_job::<U>(buf, here);
    let arm = crate::dma::arm_script(n, U::DMA_RX_TRIGGER, job);
    match end {
        RoundEnd::Full => stored,
        RoundEnd::Bad(a) => stored + seq![rx_look::<U>(true), rx_look::<U>(true)]
            + take_script::<U>(a),
        RoundEnd::Stale { gone } => stored + no_more::<U>(gone) + arm + seq![
            rx_look::<U>(true),
            Step::Read16 { addr: crate::dma::sz(n), value: job.count },
            crate::dma::ctl_change(n, crate::dma::DMAEN, 0),
        ],
        RoundEnd::Moved { gone, left, done } => stored + no_more::<U>(gone) + arm + (match left {
            Some(count) => seq![
                rx_look::<U>(true),
                Step::Read16 { addr: crate::dma::sz(n), value: count },
            ],
            None => seq![rx_look::<U>(false)],
        }) + crate::dma::finish_script(n, patience, done),
    }
}

/// A round on a buffer of `len` bytes of which `from` are there can go like
/// this.
pub open spec fn round_fits(len: u16, from: int, got: Seq<Arrival>, end: RoundEnd) -> bool {
    &&& from + got.len() <= len
    &&& forall|i: int| 0 <= i < got.len() ==> line_error((#[trigger] got[i]).status) is None
    &&& match end {
        RoundEnd::Full => from + got.len() == len,
        RoundEnd::Bad(a) => from + got.len() < len && line_error(a.status) is Some,
        RoundEnd::Stale { .. } => from + got.len() < len,
        RoundEnd::Moved { left, .. } => from + got.len() < len && left != Some(
            (len - from - got.len()) as u16,
        ),
    }
}

/// The bytes that the first rounds put into the buffer by hand.
pub open spec fn by_hand(rounds: Seq<Round>) -> int
    decreases rounds.len(),
{
    if rounds.len() == 0 {
        0
    } else {
        by_hand(rounds.drop_last()) + rounds.last().got@.len()
    }
}

/// The steps of all rounds.
pub open spec fn rounds_script<U: Instance>(
    n: u8,
    buf: ByteSpan,
    patience: u64,
    rounds: Seq<Round>,
) -> Seq<Step>
    decreases rounds.len(),
{
    if rounds.len() == 0 {
        Seq::empty()
    } else {
        rounds_script::<U>(n, buf, patience, rounds.drop_last()) + round_script::<U>(
            n,
            buf,
            by_hand(rounds.drop_last()),
            patience,
            rounds.last().got@,
            rounds.last().end,
        )
    }
}

/// The rounds of a DMA-paced read and its result: every round but the last met
/// a stale byte; the last one tells the result, and where it met one too, the
/// patience was used up.
pub open spec fn rounds_outcome(
    len: u16,
    patience: u64,
    rounds: Seq<Round>,
    r: Result<(), ReadError>,
) -> bool {
    &&& rounds.len() <= patience
    &&& forall|k: int|
        0 <= k < rounds.len() ==> round_fits(
            len,
            by_hand(rounds.take(k)),
            (#[trigger] rounds[k]).got@,
            rounds[k].end,
        )
    &&& forall|k: int| 0 <= k < rounds.len() - 1 ==> (#[trigger] rounds[k]).end is Stale
    &&& if rounds.len() == 0 || rounds.last().end is Stale {
        rounds.len() == patience && r == Err::<(), ReadError>(ReadError::Stalled)
    } else {
        match rounds.last().end {
            RoundEnd::Bad(a) => line_error(a.status) matches Some(e) && r == Err::<(), ReadError>(
                ReadError::Line(e),
            ),
            RoundEnd::Moved { done, .. } => r == if done {
                Ok::<(), ReadError>(())
            } else {
                Err(ReadError::Stalled)
            },
            _ => r == Ok::<(), ReadError>(()),
        }
    }
}

impl<USCI: Instance> Rx<USCI> {
    /// Takes a byte if there is one.
    pub fn read_byte<H: Hardware>(&mut self, bus: &mut Bus<H>) -> (r: Result<u8, NbError>)
        ensures
            tried_read::<USCI, H>(*old(bus), *final(bus), r),
    {
        try_read_byte::<USCI, H>(bus)
    }

    /// Waits for a byte and takes what else is there.
    pub fn read<H: Hardware>(&mut self, bus: &mut Bus<H>, buf: &mut [u8]) -> (r: Result<
        usize,
        ReadError,
    >)
        ensures
            final(buf)@.len() == old(buf)@.len(),
            filled::<USCI, H>(*old(bus), *final(bus), old(buf)@, final(buf)@, r),
    {
        io_read::<USCI, H>(bus, buf)
    }

    /// Whether a byte could be read at once.
    pub fn read_ready<H: Hardware>(&mut self, bus: &mut Bus<H>) -> (r: bool)
        ensures
            final(bus).ran(*old(bus), seq![rx_look::<USCI>(r)]),
    {
        bus.is_set16(reg_of::<USCI>(IFG), UCRXIFG)
    }

    /// Lets received bytes fire the vector of the module; the handler takes
    /// them with [`isr_read_byte`].
    pub fn enable_rx_interrupt<H: Hardware>(&mut self, bus: &mut Bus<H>)
        ensures
            final(bus).ran(
                *old(bus),
                seq![
                    Step::Masked {
                        first: Edit::Update { addr: reg::<USCI>(IE), clear: 0, set: UCRXIE },
                        second: None,
                    },
                ],
            ),
    {
        bus.masked_edit16(reg_of::<USCI>(IE), 0, UCRXIE);
    }

    /// Returns reception to polling.
    pub fn disable_rx_interrupt<H: Hardware>(&mut self, bus: &mut Bus<H>)
        ensures
            final(bus).ran(
                *old(bus),
                seq![
                    Step::Masked {
                        first: Edit::Update { addr: reg::<USCI>(IE), clear: UCRXIE, set: 0 },
                        second: None,
                    },
                ],
            ),
    {
        bus.masked_edit16(reg_of::<USCI>(IE), UCRXIE, 0);
    }

    /// Arms a channel to receive a whole buffer and returns: for arming before
    /// the peer sends. What is in the receive buffer already is thrown away.
    /// The buffer belongs to the controller until the channel is done or
    /// disarmed.
    pub fn start_read_dma<H: Hardware, const N: u8>(
        &mut self,
        bus: &mut Bus<H>,
        ch: &mut Channel<N>,
        buf: ByteSpan,
    ) -> (r: Result<(), Stalled>)
        requires
            buf.len > 0,
        ensures
            exists|drops: Seq<Option<Arrival>>|
                if r is Ok {
                    drops.len() < old(bus).patience() && final(bus).ran(
                        *old(bus),
                        #[trigger] drain_script::<USCI>(drops) + seq![rx_look::<USCI>(false)]
                            + crate::dma::arm_script(
                            N,
                            USCI::DMA_RX_TRIGGER,
                            reception_job::<USCI>(buf, 0),
                        ),
                    )
                } else {
                    drops.len() == old(bus).patience() && final(bus).ran(
                        *old(bus),
                        drain_script::<USCI>(drops),
                    )
                },
    {
        let ghost mut drops: Seq<Option<Arrival>> = Seq::empty();
        let mut left: u64 = bus.attempts();
        while left > 0
            invariant
                buf.len > 0,
                drops.len() + left == old(bus).patience(),
                bus.ran(*old(bus), drain_script::<USCI>(drops)),
            decreases left,
        {
            if !bus.is_set16(reg_of::<USCI>(IFG), UCRXIFG) {
                ch.arm_single_bytes(
                    bus,
                    USCI::DMA_RX_TRIGGER,
                    reg_of::<USCI>(RXBUF) as u16,
                    AddrMode::Fixed,
                    buf.addr,
                    AddrMode::Increment,
                    buf.len,
                );
                assert(bus.ran(
                    *old(bus),
                    drain_script::<USCI>(drops) + seq![rx_look::<USCI>(false)]
                        + crate::dma::arm_script(
                        N,
                        USCI::DMA_RX_TRIGGER,
                        reception_job::<USCI>(buf, 0),
                    ),
                ));
                return Ok(());
            }
            if bus.is_set16(reg_of::<USCI>(IFG), UCRXIFG) {
                let a = take::<USCI, H>(bus);
                proof {
                    assert(drops.push(Some(a)).drop_last() =~= drops);
                    drops = drops.push(Some(a));
                }
            } else {
                proof {
                    assert(drops.push(None).drop_last() =~= drops);
                    drops = drops.push(None);
                }
            }
            left = left - 1;
        }
        Err(Stalled)
    }

    /// Receives a whole buffer paced by DMA. Bytes that are already there
    /// count; they are taken by hand, because their edge is spent. Errors of
    /// bytes that the controller moves go unnoticed.
    pub fn read_exact_dma<H: Hardware, const N: u8>(
        &mut self,
        bus: &mut Bus<H>,
        ch: &mut Channel<N>,
        buf: ByteSpan,
    ) -> (r: Result<(), ReadError>)
        requires
            buf.wf(),
        ensures
            buf.len == 0 ==> r is Ok && final(bus).ran(*old(bus), Seq::empty()),
            buf.len > 0 ==> exists|rounds: Seq<Round>| #[trigger]
                rounds_outcome(buf.len, old(bus).patience(), rounds, r) && final(bus).ran(
                    *old(bus),
                    rounds_script::<USCI>(N, buf, old(bus).patience(), rounds),
                ),
    {
        if buf.len == 0 {
            return Ok(());
        }
        let ghost patience = bus.patience();
        let ghost mut rounds: Seq<Round> = Seq::empty();
        let mut done: u16 = 0;
        let mut left: u64 = bus.attempts();
        while left > 0
            invariant
                buf.wf(),
                done < buf.len,
                patience == old(bus).patience(),
                rounds.len() + left == patience,
                done == by_hand(rounds),
                forall|k: int|
                    0 <= k < rounds.len() ==> round_fits(
                        buf.len,
                        by_hand(rounds.take(k)),
                        (#[trigger] rounds[k]).got@,
                        rounds[k].end,
                    ) && rounds[k].end is Stale,
                bus.ran(*old(bus), rounds_script::<USCI>(N, buf, patience, rounds)),
            decreases left,
        {
            left = left - 1;
            let (now, got, end) = self.round(bus, ch, buf, done);
            let ghost round = Round { got, end };
            proof {
                lemma_add_round::<USCI>(N, buf, patience, rounds, round);
                assert forall|k: int| 0 <= k < rounds.push(round).len() implies round_fits(
                    buf.len,
                    by_hand(rounds.push(round).take(k)),
                    (#[trigger] rounds.push(round)[k]).got@,
                    rounds.push(round)[k].end,
                ) by {
                    if k < rounds.len() {
                        assert(rounds.push(round)[k] == rounds[k]);
                    }
                }
            }
            let r = match end {
                RoundEnd::Full => Ok(()),
                RoundEnd::Bad(a) => match check_status(a.status) {
                    Some(e) => Err(ReadError::Line(e)),
                    None => Ok(()),
                },
                RoundEnd::Stale { .. } => {
                    proof {
                        rounds = rounds.push(round);
                    }
                    done = now;
                    continue;
                },
                RoundEnd::Moved { done: moved, .. } => if moved {
                    Ok(())
                } else {
                    Err(ReadError::Stalled)
                },
            };
            assert(rounds_outcome(buf.len, patience, rounds.push(round), r));
            return r;
        }
        assert(rounds_outcome(buf.len, patience, rounds, Err(ReadError::Stalled)));
        Err(ReadError::Stalled)
    }

    /// One round: takes by hand what is there, and arms the channel for the
    /// rest. Returns how many bytes were taken by hand in all.
    #[verifier::rlimit(40)]
    #[verifier::spinoff_prover]
    fn round<H: Hardware, const N: u8>(
        &mut self,
        bus: &mut Bus<H>,
        ch: &mut Channel<N>,
        buf: ByteSpan,
        from: u16,
    ) -> (r: (u16, Ghost<Seq<Arrival>>, RoundEnd))
        requires
            buf.wf(),
            from < buf.len,
        ensures
            r.0 == from + r.1@.len(),
            round_fits(buf.len, from as int, r.1@, r.2),
            final(bus).ran(
                *old(bus),
                round_script::<USCI>(N, buf, from as int, old(bus).patience(), r.1@, r.2),
            ),
    {
        let (done, got, drained) = self.drain_into(bus, buf, from);
        let gone: bool = match drained {
            Drained::Full => {
                return (done, got, RoundEnd::Full);
            },
            Drained::Bad(a, _) => {
                return (done, got, RoundEnd::Bad(a));
            },
            Drained::Empty { gone } => gone,
        };
        let count: u16 = buf.len - done;
        ch.arm_single_bytes(
            bus,
            USCI::DMA_RX_TRIGGER,
            reg_of::<USCI>(RXBUF) as u16,
            AddrMode::Fixed,
            buf.addr + done,
            AddrMode::Increment,
            count,
        );
        let mut left: Option<u16> = None;
        if bus.is_set16(reg_of::<USCI>(IFG), UCRXIFG) {
            let remaining: u16 = ch.remaining(bus);
            if remaining == count {
                ch.disarm(bus);
                return (done, got, RoundEnd::Stale { gone });
            }
            left = Some(remaining);
        }
        let moved: bool = match ch.wait_done(bus) {
            Ok(_) => true,
            Err(_) => false,
        };
        (done, got, RoundEnd::Moved { gone, left, done: moved })
    }

    /// Takes by hand what is there, into `buf` from byte `from` on. Returns
    /// how many bytes are in the buffer then, and why it stopped.
    fn drain_into<H: Hardware>(&mut self, bus: &mut Bus<H>, buf: ByteSpan, from: u16) -> (r: (
        u16,
        Ghost<Seq<Arrival>>,
        Drained,
    ))
        requires
            buf.wf(),
            from < buf.len,
        ensures
            r.0 == from + r.1@.len(),
            r.0 <= buf.len,
            forall|i: int| 0 <= i < r.1@.len() ==> line_error((#[trigger] r.1@[i]).status) is None,
            match r.2 {
                Drained::Full => r.0 == buf.len && final(bus).ran(
                    *old(bus),
                    store_script::<USCI>(buf, from as int, r.1@),
                ),
                Drained::Bad(a, e) => r.0 < buf.len && line_error(a.status) == Some(e) && final(
                    bus).ran(
                    *old(bus),
                    store_script::<USCI>(buf, from as int, r.1@) + seq![
                        rx_look::<USCI>(true),
                        rx_look::<USCI>(true),
                    ] + take_script::<USCI>(a),
                ),
                Drained::Empty { gone } => r.0 < buf.len && final(bus).ran(
                    *old(bus),
                    store_script::<USCI>(buf, from as int, r.1@) + no_more::<USCI>(gone),
                ),
            },
    {
        let ghost mut got: Seq<Arrival> = Seq::empty();
        let mut done: u16 = from;
        while done < buf.len
            invariant
                buf.wf(),
                from <= done <= buf.len,
                done == from + got.len(),
                forall|i: int|
                    0 <= i < got.len() ==> line_error((#[trigger] got[i]).status) is None,
                bus.ran(*old(bus), store_script::<USCI>(buf, from as int, got)),
            decreases buf.len - done,
        {
            if !bus.is_set16(reg_of::<USCI>(IFG), UCRXIFG) {
                return (done, Ghost(got), Drained::Empty { gone: false });
            }
            if !bus.is_set16(reg_of::<USCI>(IFG), UCRXIFG) {
                return (done, Ghost(got), Drained::Empty { gone: true });
            }
            let a = take::<USCI, H>(bus);
            match check_status(a.status) {
                Some(e) => {
                    return (done, Ghost(got), Drained::Bad(a, e));
                },
                None => {},
            }
            bus.write8(buf.addr as u32 + done as u32, a.byte);
            proof {
                assert(got.push(a).drop_last() =~= got);
                got = got.push(a);
            }
            done = done + 1;
        }
        (done, Ghost(got), Drained::Full)
    }
}

/// Why the taking of bytes by hand stopped.
enum Drained {
    /// The buffer is full.
    Full,
    /// A bad byte came.
    Bad(Arrival, Error),
    /// No byte was there; `gone` says that one had been announced.
    Empty { gone: bool },
}

/// One more round.
proof fn lemma_add_round<U: Instance>(
    n: u8,
    buf: ByteSpan,
    patience: u64,
    rounds: Seq<Round>,
    round: Round,
)
    ensures
        rounds.push(round).drop_last() == rounds,
        by_hand(rounds.push(round)) == by_hand(rounds) + round.got@.len(),
        rounds_script::<U>(n, buf, patience, rounds.push(round)) == rounds_script::<U>(
            n,
            buf,
            patience,
            rounds,
        ) + round_script::<U>(n, buf, by_hand(rounds), patience, round.got@, round.end),
        rounds.push(round).take(rounds.len() as int) == rounds,
        forall|k: int|
            0 <= k < rounds.len() ==> #[trigger] rounds.push(round).take(k) == rounds.take(k),
{
    assert(rounds.push(round).drop_last() =~= rounds);
    assert(rounds.push(round).take(rounds.len() as int) =~= rounds);
    assert forall|k: int| 0 <= k < rounds.len() implies #[trigger] rounds.push(round).take(k)
        == rounds.take(k) by {
        assert(rounds.push(round).take(k) =~= rounds.take(k));
    }
}

/// A burst sends the buffer byte for byte: the first by hand, and item `k` of
/// the DMA job is byte `k + 1`; every one goes to the transmit buffer.
pub proof fn lemma_burst_covers<U: Instance>(buf: ByteSpan, k: int)
    requires
        buf.wf(),
        buf.len > 1,
        0 <= k < buf.len - 1,
    ensures
        burst_job::<U>(buf).count == buf.len - 1,
        burst_job::<U>(buf).from(k) == buf.addr + 1 + k,
        burst_job::<U>(buf).to(k) == reg::<U>(TXBUF),
{
    U::base_fits();
}

/// What DMA receives goes right behind what was taken by hand, up to the end
/// of the buffer.
pub proof fn lemma_reception_covers<U: Instance>(buf: ByteSpan, done: int, k: int)
    requires
        buf.wf(),
        0 <= done < buf.len,
        0 <= k < buf.len - done,
    ensures
        reception_job::<U>(buf, done).count == buf.len - done,
        reception_job::<U>(buf, done).from(k) == reg::<U>(RXBUF),
        reception_job::<U>(buf, done).to(k) == buf.addr + done + k,
{
    U::base_fits();
}

proof fn lemma_init_leaves<U: Instance>(m: Memory, config: Config, regs: BaudRegs)
    requires
        regs.ucbrf < 16,
        U::BASE == 0x05C0 || U::BASE == 0x05E0,
    ensures
        ({
            let after = crate::memory::memory_after(m, init_script::<U>(config, regs));
            &&& crate::memory::word_in(after, U::BASE as int) == config.frame()
            &&& crate::memory::word_in(after, U::BASE + 6) == regs.ucbr
            &&& crate::memory::word_in(after, U::BASE + 8) == modulation(regs)
            &&& after(0x020D) == m(0x020D) | U::PIN_MASK
            &&& after(0x020B) == m(0x020B) & !U::PIN_MASK
        }),
{
    broadcast use crate::memory::group_memory;

    let script = init_script::<U>(config, regs);
    let after = crate::memory::memory_after(m, script);
    assert(reg::<U>(CTLW0) == U::BASE && reg::<U>(BRW) == U::BASE + 6 && reg::<U>(MCTLW) == U::BASE
        + 8);
    let m1 = crate::memory::memory_after(m, script.take(1));
    let m2 = crate::memory::memory_after(m, script.take(2));
    let m3 = crate::memory::memory_after(m, script.take(3));
    assert(script.take(2) =~= script.take(1).push(script[1]));
    assert(script.take(3) =~= script.take(2).push(script[2]));
    assert(m2 == crate::memory::put16(m1, U::BASE + 6, regs.ucbr));
    assert(crate::memory::word_in(m2, U::BASE + 6) == regs.ucbr);
    assert(crate::memory::word_in(m3, U::BASE + 6) == regs.ucbr);
    assert(crate::memory::word_in(m3, U::BASE + 8) == modulation(regs));
    assert(script =~= script.take(3).push(script[3]).push(script[4]).push(script[5]));
    assert(crate::memory::word_in(after, U::BASE as int) == config.frame());
    assert(crate::memory::word_in(after, U::BASE + 6) == regs.ucbr);
    assert(crate::memory::word_in(after, U::BASE + 8) == modulation(regs));
    assert(script.take(1) =~= Seq::<Step>::empty().push(script[0]));
    assert(m3(0x020D) == m(0x020D) && m3(0x020B) == m(0x020B));
    let p = m(0x020D);
    let q = m(0x020B);
    let mask = U::PIN_MASK;
    assert(after(0x020D) == crate::bus::edited8(p, 0, mask));
    assert(after(0x020B) == crate::bus::edited8(q, mask, 0));
    assert((p & !0u8) | mask == p | mask && (q & !mask) | 0u8 == q & !mask) by (bit_vector);
}

/// What the registers of a module hold after the set-up, whatever they held
/// before, taken as the module takes them. The generator divides the clock by
/// the whole part of the ratio of clock and baud rate, for every ratio that the
/// prescaler can hold, and lengthens as many of eight bits as the fraction asks
/// for. The module runs, asynchronously and with the lowest bit first, on the
/// chosen clock, with the chosen parity, number of stop bits and length. Its pins
/// have select bits 10, and no other pin changed.
pub proof fn lemma_line_set_up<U: Instance>(m: Memory, config: Config, regs: BaudRegs)
    requires
        config.baud > 0,
        baud_fits(config, regs),
        U::BASE == 0x05C0 || U::BASE == 0x05E0,
    ensures
        ({
            let after = crate::memory::memory_after(m, init_script::<U>(config, regs));
            let control = crate::memory::word_in(after, U::BASE as int) as int;
            let prescaler = crate::memory::word_in(after, U::BASE + 6) as int;
            let modulation = crate::memory::word_in(after, U::BASE + 8) as int;
            let n = config.clock_freq as int / config.baud as int;
            let frac = (config.clock_freq as int % config.baud as int) * 10_000 / (
            config.baud as int);
            &&& n < 16 * 0x1_0000 ==> crate::baud::divisor(prescaler, modulation) == n
            &&& -1250 < crate::baud::ones((modulation / 256) as u8) * 1250 - frac < 1250
            &&& modulation / 2 % 8 == 0
            &&& control % 0x40 == 0
            &&& control / 0x40 % 4 == match config.clock_source {
                ClockSource::Aclk => 1int,
                ClockSource::Smclk => 2,
            }
            &&& control / 0x100 % 8 == 0
            &&& control / 0x800 % 2 == match config.stop_bits {
                StopBits::One => 0int,
                StopBits::Two => 1,
            }
            &&& control / 0x1000 % 2 == match config.data_bits {
                DataBits::Eight => 0int,
                DataBits::Seven => 1,
            }
            &&& control / 0x2000 % 2 == 0
            &&& control / 0x4000 == match config.parity {
                Parity::Off => 0int,
                Parity::Odd => 2,
                Parity::Even => 3,
            }
            &&& after(0x020D) == m(0x020D) | U::PIN_MASK
            &&& after(0x020B) == m(0x020B) & !U::PIN_MASK
        }),
{
    lemma_init_leaves::<U>(m, config, regs);
    lemma_frame_bits(config);
    lemma_generator(config, regs);
}

/// The fields of the control word.
#[verifier::spinoff_prover]
proof fn lemma_frame_bits(config: Config)
    ensures
        ({
            let control = config.frame();
            &&& 0 <= control < 0x1_0000
            &&& control % 0x40 == 0
            &&& control / 0x40 % 4 == match config.clock_source {
                ClockSource::Aclk => 1int,
                ClockSource::Smclk => 2,
            }
            &&& control / 0x100 % 8 == 0
            &&& control / 0x800 % 2 == match config.stop_bits {
                StopBits::One => 0int,
                StopBits::Two => 1,
            }
            &&& control / 0x1000 % 2 == match config.data_bits {
                DataBits::Eight => 0int,
                DataBits::Seven => 1,
            }
            &&& control / 0x2000 % 2 == 0
            &&& control / 0x4000 == match config.parity {
                Parity::Off => 0int,
                Parity::Odd => 2,
                Parity::Even => 3,
            }
        }),
{
}

/// The settings of the generator.
#[verifier::spinoff_prover]
proof fn lemma_generator(config: Config, regs: BaudRegs)
    requires
        config.baud > 0,
        baud_fits(config, regs),
    ensures
        ({
            let word = modulation(regs);
            let n = config.clock_freq as int / config.baud as int;
            let frac = (config.clock_freq as int % config.baud as int) * 10_000 / (
            config.baud as int);
            &&& 0 <= word < 0x1_0000
            &&& n < 16 * 0x1_0000 ==> crate::baud::divisor(regs.ucbr as int, word) == n
            &&& -1250 < crate::baud::ones((word / 256) as u8) * 1250 - frac < 1250
            &&& word / 2 % 8 == 0
        }),
{
    let row = choose|row: int|
        #[trigger] crate::baud::table_row(
            row,
            crate::baud::fraction(config.clock_freq, config.baud),
        ) && regs.ucbrs == crate::baud::UCBRS_TABLE@[row].1;
    let frac = crate::baud::fraction(config.clock_freq, config.baud);
    let rest = config.clock_freq as int % config.baud as int;
    let b = config.baud as int;
    assert(0 <= rest * 10_000 / b < 10_000) by (nonlinear_arith)
        requires
            b > 0,
            0 <= rest < b,
    ;
    crate::baud::lemma_pattern_fits_fraction(row, frac);
    assert(0 <= config.clock_freq as int / b) by (nonlinear_arith)
        requires
            b > 0,
            config.clock_freq >= 0,
    ;
    assert(modulation(regs) == regs.ucbrs * 0x100 + regs.ucbrf * 0x10 + (if regs.oversampling {
        1int
    } else {
        0
    }));
    assert(regs.ucbrf < 16);
}

/// A module is held in reset while it is set up: the first word written to its
/// control register has bit 0 set, the last has it clear, and everything else of
/// the module is written in between.
pub proof fn lemma_set_up_in_reset<U: Instance>(config: Config, regs: BaudRegs)
    ensures
        ({
            let script = init_script::<U>(config, regs);
            &&& script.first() matches Step::Write16 { addr, value }
            &&& addr == U::BASE
            &&& value % 2 == 1
            &&& script.last() matches Step::Write16 { addr: to, value: word }
            &&& to == U::BASE
            &&& word + 1 == value
        }),
{
}

/// The modules that the device has: their registers, their pins (P2.0 and P2.1,
/// P2.5 and P2.6) and their DMA triggers.
pub proof fn lemma_modules()
    ensures
        UsciA0::BASE == 0x05C0,
        UsciA1::BASE == 0x05E0,
        UsciA0::PIN_MASK == 1 + 2,
        UsciA1::PIN_MASK == 32 + 64,
        crate::dma::source_number(UsciA0::DMA_RX_TRIGGER) == 14,
        crate::dma::source_number(UsciA0::DMA_TX_TRIGGER) == 15,
        crate::dma::source_number(UsciA1::DMA_RX_TRIGGER) == 16,
        crate::dma::source_number(UsciA1::DMA_TX_TRIGGER) == 17,
{
}

/// Bytes go out in order, each into the transmit buffer (at 0x0E of the module)
/// after the flag for room (bit 1 of the word at 0x1C) was seen set.
pub proof fn lemma_bytes_go_out<U: Instance>(bytes: Seq<u8>, patience: u64, k: int)
    requires
        0 <= k < bytes.len(),
        U::BASE <= 0xFF00,
    ensures
        ({
            let script = stream_script::<U>(bytes, patience);
            &&& script.len() == 2 * bytes.len()
            &&& script[2 * k] == (Step::Poll16 {
                addr: (U::BASE + 0x1C) as u32,
                until: Cond::Bits { mask: 2, want: 2 },
                budget: patience,
                met: true,
            })
            &&& script[2 * k + 1] matches Step::Write16 { addr, value }
            &&& addr == U::BASE + 0x0E
            &&& value == bytes[k]
        }),
{
    assert((2 * k) % 2 == 0 && (2 * k + 1) % 2 == 1 && (2 * k + 1) / 2 == k);
}

/// A byte comes out of the receive buffer (at 0x0C of the module), after the
/// status of it (at 0x0A) was read, and the flag that announces it is bit 0 of
/// the word at 0x1C; the flag for room is bit 1 there. The line is idle when bit
/// 0 of the status is clear.
pub proof fn lemma_bytes_come_in<U: Instance>(a: Arrival, patience: u64)
    requires
        U::BASE <= 0xFF00,
    ensures
        take_script::<U>(a) == seq![
            Step::Read16 { addr: (U::BASE + 0x0A) as u32, value: a.status },
            Step::Low8 { addr: (U::BASE + 0x0C) as u32, value: a.byte },
        ],
        rx_look::<U>(true) == (Step::Test16 {
            addr: (U::BASE + 0x1C) as u32,
            cond: Cond::Bits { mask: 1, want: 1 },
            holds: true,
        }),
        rx_wait::<U>(patience, true) == (Step::Poll16 {
            addr: (U::BASE + 0x1C) as u32,
            until: Cond::Bits { mask: 1, want: 1 },
            budget: patience,
            met: true,
        }),
        tx_look::<U>(true) == (Step::Test16 {
            addr: (U::BASE + 0x1C) as u32,
            cond: Cond::Bits { mask: 2, want: 2 },
            holds: true,
        }),
        send::<U>(a.byte) == (Step::Write16 {
            addr: (U::BASE + 0x0E) as u32,
            value: a.byte as u16,
        }),
        idle_wait::<U>(patience, true) == (Step::Poll16 {
            addr: (U::BASE + 0x0A) as u32,
            until: Cond::Bits { mask: 1, want: 0 },
            budget: patience,
            met: true,
        }),
{
    assert(take_script::<U>(a) =~= seq![
        Step::Read16 { addr: (U::BASE + 0x0A) as u32, value: a.status },
        Step::Low8 { addr: (U::BASE + 0x0C) as u32, value: a.byte },
    ]);
}

/// What the bits of a status word mean: a byte is good unless bit 2 is set; then
/// bit 5 is an overrun, bit 6 a framing error, bit 4 a parity error and bit 3 a
/// break, of which the first of these counts.
pub proof fn lemma_status_told(status: u16)
    ensures
        (line_error(status) is None) == (status / 4 % 2 == 0),
        status / 4 % 2 == 1 && status / 32 % 2 == 1 ==> line_error(status) == Some(Error::Overrun),
        status / 4 % 2 == 1 && status / 32 % 2 == 0 && status / 64 % 2 == 1 ==> line_error(status)
            == Some(Error::Framing),
        status / 4 % 2 == 1 && status / 32 % 2 == 0 && status / 64 % 2 == 0 && status / 16 % 2 == 1
            ==> line_error(status) == Some(Error::Parity),
        status / 4 % 2 == 1 && status / 32 % 2 == 0 && status / 64 % 2 == 0 && status / 16 % 2 == 0
            && status / 8 % 2 == 1 ==> line_error(status) == Some(Error::Break),
{
    assert((status & 4 == 0) == (status / 4 % 2 == 0) && (status & 8 == 0) == (status / 8 % 2 == 0)
        && (status & 16 == 0) == (status / 16 % 2 == 0) && (status & 32 == 0) == (status / 32 % 2
        == 0) && (status & 64 == 0) == (status / 64 % 2 == 0)) by (bit_vector);
}

/// Where the registers lie, and which bits and values they have.
pub proof fn lemma_layout()
    ensures
        CTLW0 == 0x00,
        BRW == 0x06,
        MCTLW == 0x08,
        STATW == 0x0A,
        RXBUF == 0x0C,
        TXBUF == 0x0E,
        IE == 0x1A,
        IFG == 0x1C,
        IV == 0x1E,
        P2SEL0 == 0x020B,
        P2SEL1 == 0x020D,
        UCSWRST == 1,
        UCSPB == 0x0800,
        UC7BIT == 0x1000,
        UCPAR == 0x4000,
        UCPEN == 0x8000,
        UCOS16 == 1,
        UCBUSY == 1,
        UCRXERR == 4,
        UCBRK == 8,
        UCPE == 16,
        UCOE == 32,
        UCFE == 64,
        UCRXIE == 1,
        UCRXIFG == 1,
        UCTXIFG == 2,
{
}

/// Bytes that are taken by hand lie in the buffer in the order of their arrival.
pub proof fn lemma_arrivals_stored<U: Instance>(
    m: Memory,
    buf: ByteSpan,
    from: int,
    got: Seq<Arrival>,
    k: int,
)
    requires
        0 <= from,
        buf.addr + from + got.len() <= 0x1_0000,
        0 <= k < got.len(),
    ensures
        crate::memory::memory_after(m, store_script::<U>(buf, from, got))(buf.addr + from + k)
            == got[k].byte,
    decreases got.len(),
{
    let front = got.drop_last();
    let s1 = store_script::<U>(buf, from, front);
    let s2 = seq![rx_look::<U>(true), rx_look::<U>(true)];
    let s3 = take_script::<U>(got.last());
    let write = Step::Write8 {
        addr: (buf.addr + from + got.len() - 1) as u32,
        value: got.last().byte,
    };
    let s4 = seq![write];
    let m1 = crate::memory::memory_after(m, s1);
    let m2 = crate::memory::memory_after(m1, s2);
    let m3 = crate::memory::memory_after(m2, s3);
    crate::memory::lemma_memory_joins(m, s1, s2);
    crate::memory::lemma_memory_joins(m, s1 + s2, s3);
    crate::memory::lemma_memory_joins(m, s1 + s2 + s3, s4);
    crate::memory::lemma_memory_at(m1, s2);
    crate::memory::lemma_memory_at(m2, s3);
    crate::memory::lemma_memory_at(m3, s4);
    reveal_with_fuel(crate::memory::memory_at, 3);
    if k < front.len() {
        lemma_arrivals_stored::<U>(m, buf, from, front, k);
    }
}

/// The bytes that some steps hand to a module at `base` to send: they are written
/// to its transmit buffer, at 0x0E.
pub open spec fn bytes_out(base: int, script: Seq<Step>) -> Seq<int>
    decreases script.len(),
{
    if script.len() == 0 {
        Seq::empty()
    } else {
        let front = bytes_out(base, script.drop_last());
        match script.last() {
            Step::Write16 { addr, value } => if addr == base + 0x0E {
                front.push(value as int)
            } else {
                front
            },
            _ => front,
        }
    }
}

/// The bytes that some steps take from a module at `base`: they are read from its
/// receive buffer, at 0x0C.
pub open spec fn bytes_in(base: int, script: Seq<Step>) -> Seq<int>
    decreases script.len(),
{
    if script.len() == 0 {
        Seq::empty()
    } else {
        let front = bytes_in(base, script.drop_last());
        match script.last() {
            Step::Low8 { addr, value } => if addr == base + 0x0C {
                front.push(value as int)
            } else {
                front
            },
            _ => front,
        }
    }
}

/// Bytes as numbers.
pub open spec fn values_of(bytes: Seq<u8>) -> Seq<int> {
    Seq::new(bytes.len(), |i: int| bytes[i] as int)
}

pub(crate) proof fn lemma_bytes_join(base: int, a: Seq<Step>, b: Seq<Step>)
    ensures
        bytes_out(base, a + b) =~= bytes_out(base, a) + bytes_out(base, b),
        bytes_in(base, a + b) =~= bytes_in(base, a) + bytes_in(base, b),
    decreases b.len(),
{
    if b.len() == 0 {
        assert(a + b =~= a);
    } else {
        assert((a + b).drop_last() =~= a + b.drop_last());
        lemma_bytes_join(base, a, b.drop_last());
    }
}

pub(crate) proof fn lemma_bytes_of_one(base: int, step: Step)
    ensures
        bytes_out(base, seq![step]) =~= match step {
            Step::Write16 { addr, value } => if addr == base + 0x0E {
                seq![value as int]
            } else {
                Seq::empty()
            },
            _ => Seq::empty(),
        },
        bytes_in(base, seq![step]) =~= match step {
            Step::Low8 { addr, value } => if addr == base + 0x0C {
                seq![value as int]
            } else {
                Seq::empty()
            },
            _ => Seq::empty(),
        },
{
    assert(seq![step].drop_last() =~= Seq::empty());
    reveal_with_fuel(bytes_out, 2);
    reveal_with_fuel(bytes_in, 2);
}

pub(crate) proof fn lemma_bytes_of_two(base: int, a: Step, b: Step)
    ensures
        bytes_out(base, seq![a, b]) =~= bytes_out(base, seq![a]) + bytes_out(base, seq![b]),
        bytes_in(base, seq![a, b]) =~= bytes_in(base, seq![a]) + bytes_in(base, seq![b]),
{
    assert(seq![a, b] =~= seq![a] + seq![b]);
    lemma_bytes_join(base, seq![a], seq![b]);
}

proof fn lemma_stream_out<U: Instance>(bytes: Seq<u8>, patience: u64)
    requires
        U::BASE <= 0xFF00,
    ensures
        bytes_out(U::BASE as int, stream_script::<U>(bytes, patience)) =~= values_of(bytes),
    decreases bytes.len(),
{
    if bytes.len() == 0 {
        assert(stream_script::<U>(bytes, patience) =~= Seq::empty());
    } else {
        let front = bytes.drop_last();
        lemma_stream_out::<U>(front, patience);
        let wait = tx_wait::<U>(patience, true);
        let put = send::<U>(bytes.last());
        assert(stream_script::<U>(bytes, patience) =~= stream_script::<U>(front, patience) + seq![
            wait,
            put,
        ]) by {
            let n = 2 * front.len() as int;
            assert(n % 2 == 0 && (n + 1) % 2 == 1 && (n + 1) / 2 == front.len());
            assert forall|i: int| 0 <= i < n implies stream_script::<U>(front, patience)[i]
                == stream_script::<U>(bytes, patience)[i] by {
                assert(0 <= i / 2 < front.len());
            }
        }
        lemma_bytes_join(U::BASE as int, stream_script::<U>(front, patience), seq![wait, put]);
        lemma_bytes_of_two(U::BASE as int, wait, put);
        lemma_bytes_of_one(U::BASE as int, wait);
        lemma_bytes_of_one(U::BASE as int, put);
    }
}

/// What goes out is what was handed over: a write that succeeds sends every byte
/// once and in order, and one that gives up has sent the first of them.
pub proof fn lemma_stream_sent<U: Instance, H: Hardware>(
    pre: Bus<H>,
    post: Bus<H>,
    bytes: Seq<u8>,
    r: Result<usize, Stalled>,
)
    requires
        U::BASE <= 0xFF00,
        streamed::<U, H>(pre, post, bytes, r),
    ensures
        ({
            let out = bytes_out(U::BASE as int, post@.skip(pre@.len() as int));
            match r {
                Ok(n) => n == bytes.len() && out =~= values_of(bytes),
                Err(_) => out.len() < bytes.len() && out =~= values_of(
                    bytes.take(out.len() as int),
                ),
            }
        }),
{
    let steps = post@.skip(pre@.len() as int);
    match r {
        Ok(_) => {
            assert(steps =~= stream_script::<U>(bytes, pre.patience()));
            lemma_stream_out::<U>(bytes, pre.patience());
        },
        Err(_) => {
            let sent = choose|sent: int|
                0 <= sent < bytes.len() && post.ran(
                    pre,
                    stream_script::<U>(#[trigger] bytes.take(sent), pre.patience()).push(
                        tx_wait::<U>(pre.patience(), false),
                    ),
                );
            let part = bytes.take(sent);
            let wait = tx_wait::<U>(pre.patience(), false);
            assert(steps =~= stream_script::<U>(part, pre.patience()) + seq![wait]);
            lemma_stream_out::<U>(part, pre.patience());
            lemma_bytes_join(U::BASE as int, stream_script::<U>(part, pre.patience()), seq![wait]);
            lemma_bytes_of_one(U::BASE as int, wait);
        },
    }
}

proof fn lemma_take_in<U: Instance>(a: Arrival)
    requires
        U::BASE <= 0xFF00,
    ensures
        bytes_in(U::BASE as int, take_script::<U>(a)) =~= seq![a.byte as int],
{
    let look = Step::Read16 { addr: reg::<U>(STATW), value: a.status };
    let take = Step::Low8 { addr: reg::<U>(RXBUF), value: a.byte };
    assert(take_script::<U>(a) =~= seq![look, take]);
    lemma_bytes_of_two(U::BASE as int, look, take);
    lemma_bytes_of_one(U::BASE as int, look);
    lemma_bytes_of_one(U::BASE as int, take);
}

proof fn lemma_arrivals_in<U: Instance>(got: Seq<Arrival>, patience: u64)
    requires
        U::BASE <= 0xFF00,
    ensures
        bytes_in(U::BASE as int, arrivals_script::<U>(got, patience)) =~= values_of(bytes_of(got)),
    decreases got.len(),
{
    if got.len() > 0 {
        let front = got.drop_last();
        lemma_arrivals_in::<U>(front, patience);
        let s1 = arrivals_script::<U>(front, patience);
        let before = before_byte::<U>(got.len() - 1, patience);
        let s3 = take_script::<U>(got.last());
        assert(arrivals_script::<U>(got, patience) =~= s1 + seq![before] + s3);
        lemma_bytes_join(U::BASE as int, s1, seq![before]);
        lemma_bytes_join(U::BASE as int, s1 + seq![before], s3);
        lemma_bytes_of_one(U::BASE as int, before);
        lemma_take_in::<U>(got.last());
        assert(values_of(bytes_of(got)) =~= values_of(bytes_of(front)) + seq![
            got.last().byte as int,
        ]);
    }
}

/// What is reported is what came in: a read that succeeds has filled the front of
/// the buffer with the bytes that the module received, in order, and left the rest
/// of it alone; one that gives up has taken nothing.
pub proof fn lemma_read_filled<U: Instance, H: Hardware>(
    pre: Bus<H>,
    post: Bus<H>,
    before: Seq<u8>,
    after: Seq<u8>,
    r: Result<usize, ReadError>,
)
    requires
        U::BASE <= 0xFF00,
        before.len() <= usize::MAX,
        filled::<U, H>(pre, post, before, after, r),
    ensures
        ({
            let came = bytes_in(U::BASE as int, post@.skip(pre@.len() as int));
            &&& after.len() == before.len()
            &&& match r {
                Ok(n) => {
                    &&& n <= before.len()
                    &&& came =~= values_of(after.take(n as int))
                    &&& after.skip(n as int) =~= before.skip(n as int)
                    &&& before.len() > 0 ==> n > 0
                },
                Err(ReadError::Stalled) => came.len() == 0 && after =~= before,
                Err(ReadError::Line(_)) => {
                    &&& 0 < came.len() <= before.len()
                    &&& came.drop_last() =~= values_of(after.take(came.len() - 1))
                },
            }
        }),
{
    let (got, end) = choose|got: Seq<Arrival>, end: ReadEnd|
        {
            &&& #[trigger] read_outcome(before.len(), got, end, r)
            &&& after =~= bytes_of(got) + before.skip(got.len() as int)
            &&& post.ran(pre, read_script::<U>(got, end, pre.patience()))
        };
    let base = U::BASE as int;
    let patience = pre.patience();
    let steps = post@.skip(pre@.len() as int);
    let s1 = arrivals_script::<U>(got, patience);
    assert(steps =~= read_script::<U>(got, end, patience));
    lemma_arrivals_in::<U>(got, patience);
    assert(after.take(got.len() as int) =~= bytes_of(got));
    assert(after.skip(got.len() as int) =~= before.skip(got.len() as int));
    match end {
        ReadEnd::Full => {
            assert(steps =~= s1);
        },
        ReadEnd::Quiet => {
            let look = rx_look::<U>(false);
            lemma_bytes_join(base, s1, seq![look]);
            lemma_bytes_of_one(base, look);
        },
        ReadEnd::Bad(a) => {
            let look = before_byte::<U>(got.len() as int, patience);
            let take = take_script::<U>(a);
            lemma_bytes_join(base, s1, seq![look] + take);
            lemma_bytes_join(base, seq![look], take);
            lemma_bytes_of_one(base, look);
            lemma_take_in::<U>(a);
            let came = bytes_in(base, steps);
            assert(came =~= values_of(bytes_of(got)).push(a.byte as int));
            assert(came.drop_last() =~= values_of(bytes_of(got)));
        },
        ReadEnd::Stalled => {
            let look = rx_wait::<U>(patience, false);
            lemma_bytes_join(base, s1, seq![look]);
            lemma_bytes_of_one(base, look);
        },
    }
}

/// One byte at a time: a byte is sent exactly if that is what is reported, and the
/// byte that is reported is the one that came in.
pub proof fn lemma_single_bytes<U: Instance, H: Hardware>(
    pre: Bus<H>,
    post: Bus<H>,
    byte: u8,
    w: Result<(), NbError>,
    r: Result<u8, NbError>,
)
    requires
        U::BASE <= 0xFF00,
    ensures
        ({
            let steps = post@.skip(pre@.len() as int);
            let out = bytes_out(U::BASE as int, steps);
            let came = bytes_in(U::BASE as int, steps);
            &&& tried_write::<U, H>(pre, post, byte, w) ==> out =~= if w is Ok {
                seq![byte as int]
            } else {
                Seq::empty()
            }
            &&& tried_read::<U, H>(pre, post, r) && r is Ok ==> came =~= seq![r->Ok_0 as int]
            &&& tried_read::<U, H>(pre, post, r) && r == Err::<u8, NbError>(NbError::WouldBlock)
                ==> came.len() == 0
        }),
{
    let base = U::BASE as int;
    let steps = post@.skip(pre@.len() as int);
    if tried_write::<U, H>(pre, post, byte, w) {
        let look = tx_look::<U>(w is Ok);
        let put = send::<U>(byte);
        lemma_bytes_of_one(base, look);
        lemma_bytes_of_one(base, put);
        lemma_bytes_of_two(base, look, put);
        if w is Ok {
            assert(steps =~= seq![look, put]);
        } else {
            assert(steps =~= seq![look]);
        }
    }
    if tried_read::<U, H>(pre, post, r) {
        if r == Err::<u8, NbError>(NbError::WouldBlock) {
            assert(steps =~= seq![rx_look::<U>(false)]);
            lemma_bytes_of_one(base, rx_look::<U>(false));
        } else if r is Ok {
            let a = choose|a: Arrival|
                r == #[trigger] taken(a) && post.ran(
                    pre,
                    seq![rx_look::<U>(true)] + take_script::<U>(a),
                );
            let look = rx_look::<U>(true);
            assert(steps =~= seq![look] + take_script::<U>(a));
            lemma_bytes_join(base, seq![look], take_script::<U>(a));
            lemma_bytes_of_one(base, look);
            lemma_take_in::<U>(a);
        }
    }
}

/// A burst of several bytes arms the channel before it sends the first byte of the
/// buffer by hand, so that the channel is ready when there is room for the second.
pub proof fn lemma_burst_steps<U: Instance>(n: u8, buf: ByteSpan, first: u8, patience: u64)
    requires
        U::BASE <= 0xF000,
        buf.len > 1,
    ensures
        ({
            let script = burst_script::<U>(n, buf, first, patience, BurstEnd::Done);
            let arm = crate::dma::arm_script(n, U::DMA_TX_TRIGGER, burst_job::<U>(buf));
            let k = 2 + arm.len() as int;
            &&& script[0] == (Step::Read8 { addr: buf.addr as u32, value: first })
            &&& script.subrange(2, k) =~= arm
            &&& script[k] == (Step::Write16 { addr: (U::BASE + 0x0E) as u32, value: first as u16 })
            &&& script.skip(k + 1) =~= crate::dma::finish_script(n, patience, true)
        }),
{
}

/// A read by DMA that succeeds has filled the whole buffer: what was not taken by
/// hand, round by round, was left to the channel in the last round, and the
/// channel completed.
pub proof fn lemma_rounds_fill(len: u16, patience: u64, rounds: Seq<Round>, r: Result<(), ReadError>)
    requires
        rounds_outcome(len, patience, rounds, r),
        r is Ok,
    ensures
        rounds.len() > 0,
        match rounds.last().end {
            RoundEnd::Full => by_hand(rounds) == len,
            RoundEnd::Moved { done, .. } => done && by_hand(rounds) < len,
            _ => false,
        },
{
    let last = rounds[rounds.len() - 1];
    assert(rounds.take(rounds.len() - 1) =~= rounds.drop_last());
}

/// How byte `k` of a read is taken: the first is waited for and each later one
/// only looked for, by bit 0 of the flags at 0x1C of the module; then its status
/// is read, at 0x0A, and then the byte, at 0x0C.
pub proof fn lemma_arrival_steps<U: Instance>(got: Seq<Arrival>, patience: u64, k: int)
    requires
        0 <= k < got.len(),
        U::BASE <= 0xFF00,
    ensures
        ({
            let script = arrivals_script::<U>(got, patience);
            let flags = (U::BASE + 0x1C) as u32;
            let there = Cond::Bits { mask: 1, want: 1 };
            &&& script.len() == 3 * got.len()
            &&& script[3 * k] == if k == 0 {
                Step::Poll16 { addr: flags, until: there, budget: patience, met: true }
            } else {
                Step::Test16 { addr: flags, cond: there, holds: true }
            }
            &&& script[3 * k + 1] == (Step::Read16 {
                addr: (U::BASE + 0x0A) as u32,
                value: got[k].status,
            })
            &&& script[3 * k + 2] == (Step::Low8 {
                addr: (U::BASE + 0x0C) as u32,
                value: got[k].byte,
            })
        }),
    decreases got.len(),
{
    let front = got.drop_last();
    lemma_arrivals_length::<U>(front, patience);
    lemma_arrivals_length::<U>(got, patience);
    if k < front.len() {
        lemma_arrival_steps::<U>(front, patience, k);
        let script = arrivals_script::<U>(got, patience);
        let less = arrivals_script::<U>(front, patience);
        assert(script[3 * k] == less[3 * k]);
        assert(script[3 * k + 1] == less[3 * k + 1]);
        assert(script[3 * k + 2] == less[3 * k + 2]);
    }
}

proof fn lemma_arrivals_length<U: Instance>(got: Seq<Arrival>, patience: u64)
    ensures
        arrivals_script::<U>(got, patience).len() == 3 * got.len(),
    decreases got.len(),
{
    if got.len() > 0 {
        lemma_arrivals_length::<U>(got.drop_last(), patience);
    }
}

/// A flush that does not wait tells whether the line is idle, which it is when
/// bit 0 of the status, at 0x0A of the module, is clear, and blocks on nothing
/// else.
pub proof fn lemma_flush_tells<U: Instance, H: Hardware>(
    pre: Bus<H>,
    post: Bus<H>,
    r: Result<(), NbError>,
)
    requires
        U::BASE <= 0xFF00,
        tried_flush::<U, H>(pre, post, r),
    ensures
        r is Ok || r == Err::<(), NbError>(NbError::WouldBlock),
        post@ =~= pre@.push(
            Step::Test16 {
                addr: (U::BASE + 0x0A) as u32,
                cond: Cond::Bits { mask: 1, want: 1 },
                holds: r is Err,
            },
        ),
{
}

} // verus!
