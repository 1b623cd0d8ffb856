//! eUSCI_B0 as an I2C bus master or as an I2C slave, for 7-bit addresses.
//!
//! The two roles share one register block and the pins P1.6 (SDA) and P1.7
//! (SCL), so each consumes the peripheral: [`I2cExt::into_i2c`] makes a
//! polled, blocking [`I2c`] master, [`I2cSlaveExt::into_i2c_slave`] an
//! [`I2cSlave`] that the application polls for events.
//!
//! # Framing
//!
//! Setting `UCTXSTT` makes the module send START, the address and the
//! direction bit; it clears itself when the acknowledge bit of the address
//! has come back, and `UCNACKIFG` then tells whether a device answered.
//! Setting `UCTXSTP` sends STOP. Setting `UCTXSTT` again without a STOP sends
//! a repeated START.
//!
//! # No wait hangs
//!
//! Every wait of the master ends at the latest after [`TIMEOUT_BUDGET`]
//! rounds, and sooner when the clock-low timeout of the module trips. Either
//! way the bus is recovered and the operation fails with [`Error::Timeout`].
use vstd::prelude::*;

use crate::bus::{Bus, Cond, Edit, Hardware, Outcome, Stalled, Step};
use crate::memory::Memory;
use crate::pac::UsciB0I2cMode;
pub use crate::i2c_slave::{
    decode_iv, encode_own_address, AddressError, SlaveIv, IV_ARBITRATION_LOST, IV_BYTE_COUNTER,
    IV_CLOCK_LOW_TIMEOUT, IV_NACK, IV_NINTH_BIT, IV_NONE, IV_RX, IV_START, IV_STOP, IV_TX,
};

verus! {

broadcast use crate::trace::group_growth;

/// Control word 0: reset, mode, START and STOP requests, direction, clock.
pub const CTLW0: u32 = 0x0640;

/// Control word 1: clock-low timeout.
pub const CTLW1: u32 = 0x0642;

/// Bit-rate prescaler.
pub const BRW: u32 = 0x0646;

/// Status word.
pub const STATW: u32 = 0x0648;

/// Receive buffer.
pub const RXBUF: u32 = 0x064C;

/// Transmit buffer.
pub const TXBUF: u32 = 0x064E;

/// Own address 0.
pub const I2COA0: u32 = 0x0654;

/// Address of the slave that the master talks to.
pub const I2CSA: u32 = 0x0660;

/// Interrupt enables.
pub const IE: u32 = 0x066A;

/// Interrupt flags.
pub const IFG: u32 = 0x066C;

/// Interrupt vector.
pub const IV: u32 = 0x066E;

/// Software reset.
pub const UCSWRST: u16 = 0x0001;

/// Send START.
pub const UCTXSTT: u16 = 0x0002;

/// Send STOP.
pub const UCTXSTP: u16 = 0x0004;

/// Slave: NACK the next received byte.
pub const UCTXNACK: u16 = 0x0008;

/// Transmitter (set) or receiver (clear).
pub const UCTR: u16 = 0x0010;

/// Bit clock from SMCLK.
pub const UCSSEL_SMCLK: u16 = 0x0080;

/// Synchronous mode.
pub const UCSYNC: u16 = 0x0100;

/// I2C mode.
pub const UCMODE_I2C: u16 = 0x0600;

/// Master mode.
pub const UCMST: u16 = 0x0800;

/// Clock-low timeout of about 28 ms.
pub const UCCLTO_28MS: u16 = 0x0040;

/// Bus busy.
pub const UCBBUSY: u16 = 0x0010;

/// Addressed by the general call.
pub const UCGC: u16 = 0x0020;

/// A byte has arrived.
pub const UCRXIFG: u16 = 0x0001;

/// The transmit buffer is empty.
pub const UCTXIFG: u16 = 0x0002;

/// Slave: START and own address received.
pub const UCSTTIFG: u16 = 0x0004;

/// Slave: STOP received.
pub const UCSTPIFG: u16 = 0x0008;

/// NACK received.
pub const UCNACKIFG: u16 = 0x0020;

/// The clock was held low too long.
pub const UCCLTOIFG: u16 = 0x0080;

/// Rounds after which a wait of the master gives up on its own. The clock-low
/// timeout catches a clock that is held low; this ends the rarer stall in
/// which the clock idles high.
pub const TIMEOUT_BUDGET: u64 = 2000;

/// Port 1 input.
pub const P1IN: u32 = 0x0200;

/// Port 1 output.
pub const P1OUT: u32 = 0x0202;

/// Port 1 direction.
pub const P1DIR: u32 = 0x0204;

/// Port 1 pull resistor enable.
pub const P1REN: u32 = 0x0206;

/// Port 1 function select, low bit.
pub const P1SEL0: u32 = 0x020A;

/// Port 1 function select, high bit.
pub const P1SEL1: u32 = 0x020C;

/// P1.6, the data line.
pub const P1_SDA: u8 = 0x40;

/// P1.7, the clock line.
pub const P1_SCL: u8 = 0x80;

/// Both lines.
pub const P1_I2C_PINS: u8 = 0xC0;

/// Reads of the input port that make up half a clock of the bus clear.
pub const HALF_CLOCK: u16 = 100;

/// Why an I2C transaction failed.
#[derive(Clone, Copy, PartialEq, Eq, Structural, Debug)]
pub enum Error {
    /// No device acknowledged the address.
    AddressNack,
    /// The device acknowledged its address and then refused a data byte.
    DataNack,
    /// A bus operation did not complete in time; the bus was recovered.
    Timeout,
}

/// One part of a transaction.
pub enum Operation {
    /// Fill the buffer from the device.
    Read(Vec<u8>),
    /// Send the bytes to the device.
    Write(Vec<u8>),
}

/// Master configuration.
#[derive(Clone, Copy, Debug)]
pub struct Config {
    /// Frequency of SMCLK, which feeds the bit-rate generator, in Hz.
    pub clock_freq: u32,
    /// Desired SCL frequency in Hz; the actual one is
    /// `clock_freq / round(clock_freq / scl_freq)`.
    pub scl_freq: u32,
}

/// The quotient `a / b` rounded to the nearest integer, halves upwards.
pub open spec fn rounded_quotient(a: int, b: int) -> int {
    (2 * a + b) / (2 * b)
}

impl Config {
    /// The divider from the source clock to SCL: the rounded ratio of the two
    /// frequencies, kept within what the prescaler register can hold.
    pub open spec fn divider(self) -> int {
        let scl = if self.scl_freq == 0 { 1 } else { self.scl_freq as int };
        let ratio = rounded_quotient(self.clock_freq as int, scl);
        if ratio < 1 {
            1
        } else if ratio > u16::MAX {
            u16::MAX as int
        } else {
            ratio
        }
    }

    /// 100 kHz SCL from the given source clock.
    pub fn new(clock_freq: u32) -> (r: Self)
        ensures
            r == (Config { clock_freq, scl_freq: 100_000 }),
    {
        Config { clock_freq, scl_freq: 100_000 }
    }

    /// The same configuration with another SCL frequency.
    pub fn scl_freq(self, scl_freq: u32) -> (r: Self)
        ensures
            r == (Config { clock_freq: self.clock_freq, scl_freq }),
    {
        Config { clock_freq: self.clock_freq, scl_freq }
    }

    /// The prescaler value.
    pub fn prescaler(&self) -> (r: u16)
        ensures
            r == self.divider(),
    {
        let scl: u64 = if self.scl_freq == 0 { 1 } else { self.scl_freq as u64 };
        let ratio: u64 = (2 * self.clock_freq as u64 + scl) / (2 * scl);
        if ratio < 1 {
            1
        } else if ratio > 0xFFFF {
            0xFFFF
        } else {
            ratio as u16
        }
    }
}

/// What the master waits for.
#[derive(Clone, Copy)]
pub enum Wait {
    /// The address and its acknowledge bit have been sent.
    AddressSent,
    /// The STOP has been sent.
    StopSent,
    /// The transmit buffer can take a byte; a NACK fails the wait.
    RoomToSend,
    /// The receive buffer holds a byte.
    ByteArrived,
}

/// The wait for `wait`, which ended with `outcome`.
pub open spec fn wait_step(wait: Wait, outcome: Outcome) -> Step {
    let (addr, fail, done) = match wait {
        Wait::AddressSent => (CTLW0, Cond::Never, Cond::none_set(UCTXSTT)),
        Wait::StopSent => (CTLW0, Cond::Never, Cond::none_set(UCTXSTP)),
        Wait::RoomToSend => (IFG, Cond::all_set(UCNACKIFG), Cond::all_set(UCTXIFG)),
        Wait::ByteArrived => (IFG, Cond::Never, Cond::all_set(UCRXIFG)),
    };
    Step::Guard16 {
        addr,
        fail,
        done,
        watch: IFG,
        trip: Cond::all_set(UCCLTOIFG),
        budget: TIMEOUT_BUDGET,
        outcome,
    }
}

/// The wait was given up: the clock was held low, or the rounds ran out.
pub open spec fn timed_out(outcome: Outcome) -> bool {
    outcome == Outcome::Tripped || outcome == Outcome::Exhausted
}

/// Bus recovery: the state machine and the pending error flags are reset, the
/// configuration stays.
pub open spec fn recover_script() -> Seq<Step> {
    seq![
        Step::Edit16 { addr: CTLW0, clear: 0, set: UCSWRST },
        Step::Edit16 { addr: IFG, clear: UCCLTOIFG | UCNACKIFG, set: 0 },
        Step::Edit16 { addr: CTLW0, clear: UCSWRST, set: 0 },
    ]
}

/// A wait, and the recovery where it was given up.
pub open spec fn wait_script(wait: Wait, outcome: Outcome) -> Seq<Step> {
    if timed_out(outcome) {
        seq![wait_step(wait, outcome)] + recover_script()
    } else {
        seq![wait_step(wait, outcome)]
    }
}

/// The request for a STOP.
pub open spec fn request_stop() -> Step {
    Step::Edit16 { addr: CTLW0, clear: 0, set: UCTXSTP }
}

/// A STOP, and the wait until it is sent.
pub open spec fn stop_script(outcome: Outcome) -> Seq<Step> {
    seq![request_stop()] + wait_script(Wait::StopSent, outcome)
}

/// The address phase of a run: stale flags dropped, direction set, START
/// requested, and the wait until the address is sent.
pub open spec fn start_script(read: bool, outcome: Outcome) -> Seq<Step> {
    let drop_flags = Step::Edit16 { addr: IFG, clear: UCNACKIFG | UCCLTOIFG, set: 0 };
    let request = if read {
        seq![
            drop_flags,
            Step::Edit16 { addr: CTLW0, clear: UCTR, set: 0 },
            Step::Edit16 { addr: CTLW0, clear: 0, set: UCTXSTT },
        ]
    } else {
        seq![drop_flags, Step::Edit16 { addr: CTLW0, clear: 0, set: UCTR | UCTXSTT }]
    };
    request + wait_script(Wait::AddressSent, outcome)
}

/// The look at whether the address was refused.
pub open spec fn address_check(refused: bool) -> Step {
    Step::Test16 { addr: IFG, cond: Cond::all_set(UCNACKIFG), holds: refused }
}

/// How a run of operations in one direction ended.
#[derive(Clone, Copy, PartialEq, Eq, Structural)]
pub enum RunEnd {
    /// The address phase timed out.
    AddressStall(Outcome),
    /// The address was refused; a STOP was sent, with this outcome.
    AddressNack(Outcome),
    /// After `moved` bytes the wait for the next one timed out.
    ByteStall { moved: usize, at: Outcome },
    /// After `moved` bytes the device refused one; a STOP was sent.
    DataNack { moved: usize, stop: Outcome },
    /// All bytes were moved, and the wait for the STOP timed out.
    StopStall(Outcome),
    /// All bytes were moved. Where a STOP was sent, its outcome.
    Done(Option<Outcome>),
}

impl RunEnd {
    /// What the caller is told.
    pub open spec fn result(self) -> Result<(), Error> {
        match self {
            RunEnd::AddressStall(_) => Err(Error::Timeout),
            RunEnd::AddressNack(_) => Err(Error::AddressNack),
            RunEnd::ByteStall { .. } => Err(Error::Timeout),
            RunEnd::DataNack { .. } => Err(Error::DataNack),
            RunEnd::StopStall(_) => Err(Error::Timeout),
            RunEnd::Done(_) => Ok(()),
        }
    }

    /// The number of bytes moved in a run of `total`.
    pub open spec fn moved(self, total: nat) -> nat {
        match self {
            RunEnd::AddressStall(_) | RunEnd::AddressNack(_) => 0,
            RunEnd::ByteStall { moved, .. } => moved as nat,
            RunEnd::DataNack { moved, .. } => moved as nat,
            RunEnd::StopStall(_) | RunEnd::Done(_) => total,
        }
    }

    /// A run of `total` written bytes can end this way.
    pub open spec fn ends_write(self, total: nat, send_stop: bool) -> bool {
        match self {
            RunEnd::AddressStall(o) => timed_out(o),
            RunEnd::AddressNack(o) => o != Outcome::Failed,
            RunEnd::ByteStall { moved, at } => moved <= total && timed_out(at),
            RunEnd::DataNack { moved, stop } => moved <= total && stop != Outcome::Failed,
            RunEnd::StopStall(_) => false,
            RunEnd::Done(None) => !send_stop,
            RunEnd::Done(Some(o)) => send_stop && o != Outcome::Failed,
        }
    }

    /// A run of `total` bytes to be read can end this way.
    pub open spec fn ends_read(self, total: nat, send_stop: bool) -> bool {
        match self {
            RunEnd::AddressStall(o) => timed_out(o),
            RunEnd::AddressNack(o) => o != Outcome::Failed,
            RunEnd::ByteStall { moved, at } => moved < total && timed_out(at),
            RunEnd::DataNack { .. } => false,
            RunEnd::StopStall(o) => send_stop && timed_out(o),
            RunEnd::Done(None) => !send_stop,
            RunEnd::Done(Some(o)) => send_stop && o == Outcome::Ready,
        }
    }

    /// Hands the outcome to the caller.
    fn report(self) -> (r: Result<(), Error>)
        ensures
            r == self.result(),
    {
        match self {
            RunEnd::AddressStall(_) => Err(Error::Timeout),
            RunEnd::AddressNack(_) => Err(Error::AddressNack),
            RunEnd::ByteStall { .. } => Err(Error::Timeout),
            RunEnd::DataNack { .. } => Err(Error::DataNack),
            RunEnd::StopStall(_) => Err(Error::Timeout),
            RunEnd::Done(_) => Ok(()),
        }
    }
}

/// Bytes sent one after the other, each when there was room for it.
pub open spec fn sent_script(bytes: Seq<u8>) -> Seq<Step> {
    Seq::new(
        2 * bytes.len(),
        |i: int|
            if i % 2 == 0 {
                wait_step(Wait::RoomToSend, Outcome::Ready)
            } else {
                Step::Write16 { addr: TXBUF, value: bytes[i / 2] as u16 }
            },
    )
}

/// A run that writes `bytes` and ends with `end`.
pub open spec fn write_script(bytes: Seq<u8>, end: RunEnd) -> Seq<Step> {
    let addressed = start_script(false, Outcome::Ready);
    match end {
        RunEnd::AddressStall(o) => start_script(false, o),
        RunEnd::AddressNack(o) => addressed + seq![address_check(true)] + stop_script(o),
        RunEnd::ByteStall { moved, at } => addressed + seq![address_check(false)] + sent_script(
            bytes.take(moved as int),
        ) + wait_script(Wait::RoomToSend, at),
        RunEnd::DataNack { moved, stop } => addressed + seq![address_check(false)] + sent_script(
            bytes.take(moved as int),
        ) + wait_script(Wait::RoomToSend, Outcome::Failed) + stop_script(stop),
        RunEnd::StopStall(_) => Seq::empty(),
        RunEnd::Done(stop) => {
            let sent = addressed + seq![address_check(false)] + sent_script(bytes)
                + wait_script(Wait::RoomToSend, Outcome::Ready);
            match stop {
                None => sent,
                Some(o) => sent + stop_script(o),
            }
        },
    }
}

/// The request for a STOP where it precedes byte `k` of `total`: before the
/// last of several bytes, so that the master refuses that one.
pub open spec fn stop_before(k: int, total: nat, send_stop: bool) -> Seq<Step> {
    if send_stop && total > 1 && k == total - 1 {
        seq![request_stop()]
    } else {
        Seq::empty()
    }
}

/// The bytes `data` received as the first of `total`.
pub open spec fn received_script(data: Seq<u8>, total: nat, send_stop: bool) -> Seq<Step>
    decreases data.len(),
{
    if data.len() == 0 {
        Seq::empty()
    } else {
        received_script(data.drop_last(), total, send_stop) + stop_before(
            data.len() - 1,
            total,
            send_stop,
        ) + seq![
            wait_step(Wait::ByteArrived, Outcome::Ready),
            Step::Low8 { addr: RXBUF, value: data.last() },
        ]
    }
}

/// The address phase of a read, answered, and the STOP that a single byte
/// needs at once.
pub open spec fn read_opening(total: nat, send_stop: bool) -> Seq<Step> {
    start_script(true, Outcome::Ready) + seq![address_check(false)] + if send_stop && total == 1 {
        seq![request_stop()]
    } else {
        Seq::empty()
    }
}

/// The end of a read: the STOP of an empty one, and the wait for the STOP.
pub open spec fn read_closing(total: nat, outcome: Outcome) -> Seq<Step> {
    (if total == 0 {
        seq![request_stop()]
    } else {
        Seq::empty()
    }) + wait_script(Wait::StopSent, outcome)
}

/// A run that reads `data` as the first of `total` bytes and ends with `end`.
pub open spec fn read_script(data: Seq<u8>, total: nat, send_stop: bool, end: RunEnd) -> Seq<Step> {
    let opened = read_opening(total, send_stop) + received_script(data, total, send_stop);
    match end {
        RunEnd::AddressStall(o) => start_script(true, o),
        RunEnd::AddressNack(o) => start_script(true, Outcome::Ready) + seq![address_check(true)]
            + stop_script(o),
        RunEnd::ByteStall { moved, at } => opened + stop_before(moved as int, total, send_stop)
            + wait_script(Wait::ByteArrived, at),
        RunEnd::DataNack { .. } => Seq::empty(),
        RunEnd::StopStall(o) => opened + read_closing(total, o),
        RunEnd::Done(None) => opened,
        RunEnd::Done(Some(o)) => opened + read_closing(total, o),
    }
}

impl Operation {
    /// The bytes of the buffer.
    pub open spec fn bytes(self) -> Seq<u8> {
        match self {
            Operation::Read(buffer) => buffer@,
            Operation::Write(bytes) => bytes@,
        }
    }
}

/// The buffers of `ops` joined.
pub open spec fn flat(ops: Seq<Operation>) -> Seq<u8>
    decreases ops.len(),
{
    if ops.len() == 0 {
        Seq::empty()
    } else {
        flat(ops.drop_last()) + ops.last().bytes()
    }
}

/// The end of the run of operations in one direction that begins at `from`.
pub open spec fn run_end(ops: Seq<Operation>, from: int) -> int
    decreases ops.len() - from,
{
    if from + 1 >= ops.len() || (ops[from + 1] is Read) != (ops[from] is Read) {
        from + 1
    } else {
        run_end(ops, from + 1)
    }
}

/// The beginning of run number `k`.
pub open spec fn run_from(ops: Seq<Operation>, k: nat) -> int
    decreases k,
{
    if k == 0 {
        0
    } else {
        run_end(ops, run_from(ops, (k - 1) as nat))
    }
}

/// The operations of the run that begins at `from`, as `ops` holds them where
/// `before` tells the runs apart.
pub open spec fn run_of(before: Seq<Operation>, ops: Seq<Operation>, from: int) -> Seq<Operation> {
    ops.subrange(from, run_end(before, from))
}

/// The steps of the run that begins at `from` and ended with `end`. Only the
/// last run of the transaction sends a STOP; what was read is what `after`
/// holds.
pub open spec fn run_script(
    before: Seq<Operation>,
    after: Seq<Operation>,
    from: int,
    end: RunEnd,
) -> Seq<Step> {
    let wanted = flat(run_of(before, before, from));
    if before[from] is Read {
        read_script(
            flat(run_of(before, after, from)).take(end.moved(wanted.len()) as int),
            wanted.len(),
            run_end(before, from) == before.len(),
            end,
        )
    } else {
        write_script(wanted, end)
    }
}

/// The run that begins at `from` can end with `end` and leave `after`:
/// written bytes stay, and the buffers of a read keep their lengths and,
/// past what was read, their contents.
pub open spec fn run_fits(
    before: Seq<Operation>,
    after: Seq<Operation>,
    from: int,
    end: RunEnd,
) -> bool {
    let wanted = flat(run_of(before, before, from));
    let last = run_end(before, from) == before.len();
    if before[from] is Read {
        let got = run_of(before, after, from);
        let moved = end.moved(wanted.len()) as int;
        &&& end.ends_read(wanted.len(), last)
        &&& flat(got).len() == wanted.len()
        &&& flat(got).skip(moved) =~= wanted.skip(moved)
        &&& forall|i: int|
            from <= i < run_end(before, from) ==> (#[trigger] after[i]) is Read
                && after[i].bytes().len() == before[i].bytes().len()
    } else {
        &&& end.ends_write(wanted.len(), last)
        &&& run_of(before, after, from) == run_of(before, before, from)
    }
}

/// The steps of as many runs as `ends` has entries.
pub open spec fn runs_script(
    before: Seq<Operation>,
    after: Seq<Operation>,
    ends: Seq<RunEnd>,
) -> Seq<Step>
    decreases ends.len(),
{
    if ends.len() == 0 {
        Seq::empty()
    } else {
        runs_script(before, after, ends.drop_last()) + run_script(
            before,
            after,
            run_from(before, (ends.len() - 1) as nat),
            ends.last(),
        )
    }
}

/// The operations `before` were served run by run as far as `ends` goes:
/// every run but the last was completed, and nothing after it was touched.
pub open spec fn served(
    before: Seq<Operation>,
    after: Seq<Operation>,
    ends: Seq<RunEnd>,
) -> bool {
    &&& after.len() == before.len()
    &&& forall|k: int|
        0 <= k < ends.len() ==> {
            &&& run_from(before, k as nat) < before.len()
            &&& run_fits(before, after, run_from(before, k as nat), #[trigger] ends[k])
        }
    &&& forall|k: int| 0 <= k < ends.len() - 1 ==> (#[trigger] ends[k]) is Done
    &&& forall|i: int|
        run_from(before, ends.len()) <= i < before.len() ==> #[trigger] after[i] == before[i]
}

/// The opening of a transaction: the address, and the wait until an earlier
/// STOP is through.
pub open spec fn opening_script(address: u8, idle: Outcome) -> Seq<Step> {
    seq![Step::Write16 { addr: I2CSA, value: address as u16 }] + wait_script(Wait::StopSent, idle)
}

/// What a transaction on at least one operation does and returns, where the
/// bus became idle with `idle` and the runs ended with `ends`.
pub open spec fn transaction_result(
    before: Seq<Operation>,
    after: Seq<Operation>,
    idle: Outcome,
    ends: Seq<RunEnd>,
    r: Result<(), Error>,
) -> bool {
    if idle == Outcome::Ready {
        &&& ends.len() > 0
        &&& served(before, after, ends)
        &&& r == ends.last().result()
        &&& r is Ok ==> run_from(before, ends.len()) == before.len()
    } else {
        &&& timed_out(idle)
        &&& ends.len() == 0
        &&& after == before
        &&& r == Err::<(), Error>(Error::Timeout)
    }
}

/// A run begins before it ends, ends within the operations, and keeps its
/// direction.
proof fn lemma_run_end(ops: Seq<Operation>, from: int)
    requires
        0 <= from < ops.len(),
    ensures
        from < run_end(ops, from) <= ops.len(),
        forall|i: int|
            from <= i < run_end(ops, from) ==> ((#[trigger] ops[i]) is Read) == (ops[from] is Read),
    decreases ops.len() - from,
{
    if !(from + 1 >= ops.len() || (ops[from + 1] is Read) != (ops[from] is Read)) {
        lemma_run_end(ops, from + 1);
    }
}

/// Runs that agree up to where `ends` stops leave the same steps.
proof fn lemma_frame(
    before: Seq<Operation>,
    a: Seq<Operation>,
    b: Seq<Operation>,
    ends: Seq<RunEnd>,
)
    requires
        a.len() == before.len(),
        b.len() == before.len(),
        forall|k: int| 0 <= k < ends.len() ==> #[trigger] run_from(before, k as nat) < before.len(),
        forall|i: int| 0 <= i < run_from(before, ends.len()) ==> a[i] == b[i],
    ensures
        0 <= run_from(before, ends.len()) <= before.len(),
        runs_script(before, a, ends) == runs_script(before, b, ends),
        forall|k: int|
            0 <= k < ends.len() ==> run_fits(
                before,
                a,
                run_from(before, k as nat),
                #[trigger] ends[k],
            ) == run_fits(before, b, run_from(before, k as nat), ends[k]),
    decreases ends.len(),
{
    if ends.len() > 0 {
        let shorter = ends.drop_last();
        let from = run_from(before, shorter.len());
        assert(shorter.len() == ends.len() - 1);
        assert(run_from(before, (ends.len() - 1) as nat) < before.len());
        lemma_run_from(before, shorter.len());
        lemma_run_end(before, from);
        assert(run_from(before, ends.len()) == run_end(before, from));
        lemma_frame(before, a, b, shorter);
        assert(run_of(before, a, from) =~= run_of(before, b, from));
        assert forall|k: int| 0 <= k < ends.len() implies run_fits(
            before,
            a,
            run_from(before, k as nat),
            #[trigger] ends[k],
        ) == run_fits(before, b, run_from(before, k as nat), ends[k]) by {
            if k < shorter.len() {
                assert(shorter[k] == ends[k]);
            } else {
                assert(run_from(before, k as nat) == from);
            }
        }
    }
}

/// The beginning of a run is not negative.
proof fn lemma_run_from(ops: Seq<Operation>, k: nat)
    ensures
        0 <= run_from(ops, k),
    decreases k,
{
    if k > 0 {
        lemma_run_from(ops, (k - 1) as nat);
        let from = run_from(ops, (k - 1) as nat);
        if from < ops.len() {
            lemma_run_end(ops, from);
        }
    }
}

/// Where the operations past `from` are the same, so is the end of the run.
proof fn lemma_same_run(a: Seq<Operation>, b: Seq<Operation>, from: int)
    requires
        a.len() == b.len(),
        0 <= from < a.len(),
        forall|i: int| from <= i < a.len() ==> #[trigger] b[i] == a[i],
    ensures
        run_end(a, from) == run_end(b, from),
    decreases a.len() - from,
{
    assert(b[from] == a[from]);
    if from + 1 < a.len() {
        assert(b[from + 1] == a[from + 1]);
        lemma_same_run(a, b, from + 1);
    }
}

/// The joined bytes of some of the operations are no more than those of all.
proof fn lemma_flat_part(ops: Seq<Operation>, from: int, to: int)
    requires
        0 <= from <= to <= ops.len(),
    ensures
        flat(ops.subrange(from, to)).len() <= flat(ops).len(),
    decreases ops.len() - to, to - from,
{
    if to < ops.len() {
        lemma_flat_step(ops, from, to);
        lemma_flat_part(ops, from, to + 1);
    } else if from == to {
        assert(ops.subrange(from, to) =~= Seq::empty());
    } else {
        let shorter = ops.drop_last();
        assert(shorter.subrange(from, to - 1) =~= ops.subrange(from, to).drop_last());
        assert(ops.subrange(from, to).last() == ops.last());
        lemma_flat_part(shorter, from, to - 1);
    }
}

/// One more operation joins its bytes at the end.
proof fn lemma_flat_step(ops: Seq<Operation>, from: int, to: int)
    requires
        0 <= from <= to < ops.len(),
    ensures
        flat(ops.subrange(from, to + 1)) == flat(ops.subrange(from, to)) + ops[to].bytes(),
{
    let longer = ops.subrange(from, to + 1);
    assert(longer.drop_last() =~= ops.subrange(from, to));
    assert(longer.last() == ops[to]);
}

/// The joined bytes of fewer operations are no more.
proof fn lemma_flat_len(ops: Seq<Operation>, from: int, to: int, end: int)
    requires
        0 <= from <= to <= end <= ops.len(),
    ensures
        flat(ops.subrange(from, to)).len() <= flat(ops.subrange(from, end)).len(),
    decreases end - to,
{
    if to < end {
        lemma_flat_step(ops, from, to);
        lemma_flat_len(ops, from, to + 1, end);
    }
}

/// A configured eUSCI_B0 I2C master.
pub struct I2c {
    _usci: UsciB0I2cMode,
}

impl I2c {
    /// Waits until what `wait` names has come about, the device refused, the
    /// clock-low timeout tripped or the rounds ran out; the last two recover
    /// the bus.
    fn wait<H: Hardware>(&self, bus: &mut Bus<H>, wait: Wait) -> (outcome: Outcome)
        ensures
            final(bus).ran(*old(bus), wait_script(wait, outcome)),
            !(wait is RoomToSend) ==> outcome != Outcome::Failed,
    {
        let (addr, fail, done): (u32, Cond, Cond) = match wait {
            Wait::AddressSent => (CTLW0, Cond::Never, Cond::Bits { mask: UCTXSTT, want: 0 }),
            Wait::StopSent => (CTLW0, Cond::Never, Cond::Bits { mask: UCTXSTP, want: 0 }),
            Wait::RoomToSend => (
                IFG,
                Cond::Bits { mask: UCNACKIFG, want: UCNACKIFG },
                Cond::Bits { mask: UCTXIFG, want: UCTXIFG },
            ),
            Wait::ByteArrived => (IFG, Cond::Never, Cond::Bits { mask: UCRXIFG, want: UCRXIFG }),
        };
        let trip = Cond::Bits { mask: UCCLTOIFG, want: UCCLTOIFG };
        let outcome = bus.guard16(addr, fail, done, IFG, trip, TIMEOUT_BUDGET);
        match outcome {
            Outcome::Tripped | Outcome::Exhausted => self.recover(bus),
            _ => {},
        }
        outcome
    }

    /// Resets the state machine and releases both lines.
    fn recover<H: Hardware>(&self, bus: &mut Bus<H>)
        ensures
            final(bus).ran(*old(bus), recover_script()),
    {
        bus.edit16(CTLW0, 0, UCSWRST);
        bus.edit16(IFG, UCCLTOIFG | UCNACKIFG, 0);
        bus.edit16(CTLW0, UCSWRST, 0);
    }

    /// Sends a STOP and waits until the bus is released.
    fn stop<H: Hardware>(&self, bus: &mut Bus<H>) -> (outcome: Outcome)
        ensures
            final(bus).ran(*old(bus), stop_script(outcome)),
            outcome != Outcome::Failed,
    {
        bus.edit16(CTLW0, 0, UCTXSTP);
        self.wait(bus, Wait::StopSent)
    }

    /// Waits until a byte can be sent. `None` when it can; otherwise how the
    /// run ended after `moved` bytes, the bus being released.
    fn wait_tx_ready<H: Hardware>(&self, bus: &mut Bus<H>, moved: usize) -> (end: Option<RunEnd>)
        ensures
            match end {
                None => final(bus).ran(
                    *old(bus),
                    seq![wait_step(Wait::RoomToSend, Outcome::Ready)],
                ),
                Some(RunEnd::ByteStall { moved: m, at }) => {
                    &&& m == moved
                    &&& timed_out(at)
                    &&& final(bus).ran(*old(bus), wait_script(Wait::RoomToSend, at))
                },
                Some(RunEnd::DataNack { moved: m, stop }) => {
                    &&& m == moved
                    &&& stop != Outcome::Failed
                    &&& final(bus).ran(
                        *old(bus),
                        wait_script(Wait::RoomToSend, Outcome::Failed) + stop_script(stop),
                    )
                },
                Some(_) => false,
            },
    {
        let at = self.wait(bus, Wait::RoomToSend);
        match at {
            Outcome::Ready => None,
            Outcome::Failed => {
                let stop = self.stop(bus);
                Some(RunEnd::DataNack { moved, stop })
            },
            _ => Some(RunEnd::ByteStall { moved, at }),
        }
    }

    /// Sends START and the address. `None` when a device answered.
    fn address<H: Hardware>(&self, bus: &mut Bus<H>, read: bool) -> (end: Option<RunEnd>)
        ensures
            match end {
                None => final(bus).ran(
                    *old(bus),
                    start_script(read, Outcome::Ready) + seq![address_check(false)],
                ),
                Some(RunEnd::AddressStall(o)) => timed_out(o) && final(bus).ran(
                    *old(bus),
                    start_script(read, o),
                ),
                Some(RunEnd::AddressNack(o)) => o != Outcome::Failed && final(bus).ran(
                    *old(bus),
                    start_script(read, Outcome::Ready) + seq![address_check(true)] + stop_script(o),
                ),
                Some(_) => false,
            },
    {
        bus.edit16(IFG, UCNACKIFG | UCCLTOIFG, 0);
        if read {
            bus.edit16(CTLW0, UCTR, 0);
            bus.edit16(CTLW0, 0, UCTXSTT);
        } else {
            bus.edit16(CTLW0, 0, UCTR | UCTXSTT);
        }
        let at = self.wait(bus, Wait::AddressSent);
        match at {
            Outcome::Ready => {},
            _ => {
                return Some(RunEnd::AddressStall(at));
            },
        }
        if bus.is_set16(IFG, UCNACKIFG) {
            let stop = self.stop(bus);
            return Some(RunEnd::AddressNack(stop));
        }
        None
    }

    /// One run of writes: address, every byte, and a STOP if `send_stop`.
    /// Without it the bus stays held for a repeated START.
    fn write_run<H: Hardware>(
        &self,
        bus: &mut Bus<H>,
        bytes: &Vec<u8>,
        send_stop: bool,
    ) -> (end: RunEnd)
        ensures
            end.ends_write(bytes@.len(), send_stop),
            final(bus).ran(*old(bus), write_script(bytes@, end)),
    {
        match self.address(bus, false) {
            Some(end) => {
                return end;
            },
            None => {},
        }
        let ghost opened = start_script(false, Outcome::Ready) + seq![address_check(false)];
        let mut i: usize = 0;
        while i < bytes.len()
            invariant
                i <= bytes.len(),
                opened == start_script(false, Outcome::Ready) + seq![address_check(false)],
                bus.ran(*old(bus), opened + sent_script(bytes@.take(i as int))),
            decreases bytes.len() - i,
        {
            match self.wait_tx_ready(bus, i) {
                Some(end) => {
                    return end;
                },
                None => {},
            }
            bus.write16(TXBUF, bytes[i] as u16);
            proof {
                assert(bytes@.take(i + 1)[i as int] == bytes@[i as int]);
                assert(sent_script(bytes@.take(i + 1)) =~= sent_script(bytes@.take(i as int)) + seq![
                    wait_step(Wait::RoomToSend, Outcome::Ready),
                    Step::Write16 { addr: TXBUF, value: bytes@[i as int] as u16 },
                ]);
            }
            i = i + 1;
        }
        assert(bytes@.take(i as int) =~= bytes@);
        match self.wait_tx_ready(bus, i) {
            Some(end) => {
                return end;
            },
            None => {},
        }
        if send_stop {
            let stop = self.stop(bus);
            RunEnd::Done(Some(stop))
        } else {
            RunEnd::Done(None)
        }
    }

    /// One run of reads of `total` bytes, with a STOP if `send_stop`. Hands
    /// back the bytes that arrived before the run ended.
    fn read_run<H: Hardware>(
        &self,
        bus: &mut Bus<H>,
        total: usize,
        send_stop: bool,
    ) -> (r: (Vec<u8>, RunEnd))
        ensures
            r.1.ends_read(total as nat, send_stop),
            r.0@.len() == r.1.moved(total as nat),
            final(bus).ran(*old(bus), read_script(r.0@, total as nat, send_stop, r.1)),
    {
        let mut data: Vec<u8> = Vec::new();
        match self.address(bus, true) {
            Some(end) => {
                return (data, end);
            },
            None => {},
        }
        if send_stop && total == 1 {
            bus.edit16(CTLW0, 0, UCTXSTP);
        }
        let ghost opened = read_opening(total as nat, send_stop);
        assert(bus.ran(*old(bus), opened + received_script(data@, total as nat, send_stop)));
        while data.len() < total
            invariant
                data@.len() <= total,
                opened == read_opening(total as nat, send_stop),
                bus.ran(*old(bus), opened + received_script(data@, total as nat, send_stop)),
            decreases total - data.len(),
        {
            if send_stop && total > 1 && data.len() == total - 1 {
                bus.edit16(CTLW0, 0, UCTXSTP);
            }
            let at = self.wait(bus, Wait::ByteArrived);
            match at {
                Outcome::Ready => {},
                _ => {
                    let moved: usize = data.len();
                    return (data, RunEnd::ByteStall { moved, at });
                },
            }
            let ghost before = data@;
            let byte: u8 = bus.low8(RXBUF);
            data.push(byte);
            assert(data@.drop_last() =~= before);
        }
        if send_stop {
            if total == 0 {
                bus.edit16(CTLW0, 0, UCTXSTP);
            }
            let at = self.wait(bus, Wait::StopSent);
            match at {
                Outcome::Ready => (data, RunEnd::Done(Some(at))),
                _ => (data, RunEnd::StopStall(at)),
            }
        } else {
            (data, RunEnd::Done(None))
        }
    }
}

/// The end of the run that begins at `from`.
fn find_run_end(ops: &Vec<Operation>, from: usize) -> (to: usize)
    requires
        from < ops@.len(),
    ensures
        to == run_end(ops@, from as int),
        from < to <= ops@.len(),
{
    let count: usize = ops.len();
    let read: bool = matches!(ops[from], Operation::Read(_));
    let mut to: usize = from + 1;
    while to < count && matches!(ops[to], Operation::Read(_)) == read
        invariant
            from < to <= ops@.len(),
            count == ops@.len(),
            read == (ops@[from as int] is Read),
            (ops@[to - 1] is Read) == read,
            run_end(ops@, from as int) == run_end(ops@, to - 1),
        decreases ops@.len() - to,
    {
        to = to + 1;
    }
    to
}

/// The joined bytes of the operations from `from` up to `to`.
fn gather(ops: &Vec<Operation>, from: usize, to: usize) -> (bytes: Vec<u8>)
    requires
        from <= to <= ops@.len(),
    ensures
        bytes@ == flat(ops@.subrange(from as int, to as int)),
{
    let mut bytes: Vec<u8> = Vec::new();
    let mut i: usize = from;
    assert(ops@.subrange(from as int, from as int) =~= Seq::empty());
    while i < to
        invariant
            from <= i <= to <= ops@.len(),
            bytes@ == flat(ops@.subrange(from as int, i as int)),
        decreases to - i,
    {
        let part: &Vec<u8> = match &ops[i] {
            Operation::Read(buffer) => buffer,
            Operation::Write(bytes) => bytes,
        };
        let ghost joined = bytes@;
        let mut k: usize = 0;
        while k < part.len()
            invariant
                k <= part@.len(),
                bytes@ =~= joined + part@.take(k as int),
            decreases part@.len() - k,
        {
            bytes.push(part[k]);
            k = k + 1;
        }
        proof {
            assert(part@.take(k as int) =~= part@);
            lemma_flat_step(ops@, from as int, i as int);
        }
        i = i + 1;
    }
    bytes
}

/// The joined length of the operations from `from` up to `to`.
fn joined_len(ops: &Vec<Operation>, from: usize, to: usize) -> (len: usize)
    requires
        from <= to <= ops@.len(),
        flat(ops@.subrange(from as int, to as int)).len() <= usize::MAX,
    ensures
        len == flat(ops@.subrange(from as int, to as int)).len(),
{
    let mut len: usize = 0;
    let mut i: usize = from;
    assert(ops@.subrange(from as int, from as int) =~= Seq::empty());
    while i < to
        invariant
            from <= i <= to <= ops@.len(),
            flat(ops@.subrange(from as int, to as int)).len() <= usize::MAX,
            len == flat(ops@.subrange(from as int, i as int)).len(),
        decreases to - i,
    {
        proof {
            lemma_flat_step(ops@, from as int, i as int);
            lemma_flat_len(ops@, from as int, i + 1, to as int);
        }
        let part: usize = match &ops[i] {
            Operation::Read(buffer) => buffer.len(),
            Operation::Write(bytes) => bytes.len(),
        };
        len = len + part;
        i = i + 1;
    }
    len
}

/// Puts `data` into the read buffers from `from` up to `to`, in order.
fn deliver(ops: &mut Vec<Operation>, from: usize, to: usize, data: &Vec<u8>)
    requires
        from <= to <= old(ops)@.len(),
        forall|i: int| from <= i < to ==> (#[trigger] old(ops)@[i]) is Read,
        data@.len() <= flat(old(ops)@.subrange(from as int, to as int)).len() <= usize::MAX,
    ensures
        final(ops)@.len() == old(ops)@.len(),
        forall|i: int|
            0 <= i < from || to <= i < old(ops)@.len() ==> #[trigger] final(ops)@[i] == old(
                ops,
            )@[i],
        forall|i: int|
            from <= i < to ==> (#[trigger] final(ops)@[i]) is Read && final(ops)@[i].bytes().len()
                == old(ops)@[i].bytes().len(),
        flat(final(ops)@.subrange(from as int, to as int)) == data@ + flat(
            old(ops)@.subrange(from as int, to as int),
        ).skip(data@.len() as int),
{
    let ghost before = ops@;
    let mut done: usize = 0;
    let mut i: usize = from;
    proof {
        assert(before.subrange(from as int, from as int) =~= Seq::empty());
        assert(data@.take(0) =~= Seq::empty());
    }
    while i < to
        invariant
            from <= i <= to <= before.len(),
            before == old(ops)@,
            ops@.len() == before.len(),
            forall|k: int| from <= k < to ==> (#[trigger] before[k]) is Read,
            forall|k: int| 0 <= k < from || i <= k < before.len() ==> #[trigger] ops@[k] == before[k],
            forall|k: int|
                from <= k < i ==> (#[trigger] ops@[k]) is Read && ops@[k].bytes().len()
                    == before[k].bytes().len(),
            flat(before.subrange(from as int, to as int)).len() <= usize::MAX,
            done == flat(before.subrange(from as int, i as int)).len(),
            flat(ops@.subrange(from as int, i as int)).len() == done,
            forall|k: int|
                0 <= k < done ==> #[trigger] flat(ops@.subrange(from as int, i as int))[k] == if k
                    < data@.len() {
                    data@[k]
                } else {
                    flat(before.subrange(from as int, i as int))[k]
                },
        decreases to - i,
    {
        proof {
            lemma_flat_step(before, from as int, i as int);
            lemma_flat_len(before, from as int, i + 1, to as int);
        }
        let ghost was = ops@;
        let mut filled: Vec<u8> = Vec::new();
        match &ops[i] {
            Operation::Read(buffer) => {
                let len: usize = buffer.len();
                let mut k: usize = 0;
                while k < len
                    invariant
                        k <= len,
                        len == buffer@.len(),
                        done + len <= usize::MAX,
                        filled@.len() == k,
                        forall|m: int|
                            0 <= m < k ==> #[trigger] filled@[m] == if done + m < data@.len() {
                                data@[done + m]
                            } else {
                                buffer@[m]
                            },
                    decreases len - k,
                {
                    if done + k < data.len() {
                        filled.push(data[done + k]);
                    } else {
                        filled.push(buffer[k]);
                    }
                    k = k + 1;
                }
                assert(buffer@ == before[i as int].bytes());
            },
            Operation::Write(_) => {},
        }
        let ghost new = filled@;
        done = done + filled.len();
        ops.set(i, Operation::Read(filled));
        proof {
            assert(was.subrange(from as int, i as int) =~= ops@.subrange(from as int, i as int));
            lemma_flat_step(ops@, from as int, i as int);
        }
        i = i + 1;
    }
    proof {
        let all = flat(before.subrange(from as int, to as int));
        assert(flat(ops@.subrange(from as int, to as int)) =~= data@ + all.skip(data@.len() as int));
    }
}

/// Both lines as plain port pins, SDA an input with pull-up and SCL an output
/// that idles high, and half a clock of settling.
pub open spec fn take_lines_script() -> Seq<Step> {
    seq![
        Step::Edit8 { addr: P1SEL1, clear: P1_I2C_PINS, set: 0 },
        Step::Edit8 { addr: P1SEL0, clear: P1_I2C_PINS, set: 0 },
        Step::Edit8 { addr: P1DIR, clear: P1_SDA, set: 0 },
        Step::Edit8 { addr: P1OUT, clear: 0, set: P1_SDA },
        Step::Edit8 { addr: P1REN, clear: 0, set: P1_SDA },
        Step::Edit8 { addr: P1OUT, clear: 0, set: P1_SCL },
        Step::Edit8 { addr: P1DIR, clear: 0, set: P1_SCL },
        Step::Dwell8 { addr: P1IN, times: HALF_CLOCK },
    ]
}

/// The look at whether SDA is high.
pub open spec fn data_line(high: bool) -> Step {
    Step::Test8 { addr: P1IN, mask: P1_SDA, any: high }
}

/// One clock on SCL, and the look at SDA after it.
pub open spec fn clock_script(high: bool) -> Seq<Step> {
    seq![
        Step::Edit8 { addr: P1OUT, clear: P1_SCL, set: 0 },
        Step::Dwell8 { addr: P1IN, times: HALF_CLOCK },
        Step::Edit8 { addr: P1OUT, clear: 0, set: P1_SCL },
        Step::Dwell8 { addr: P1IN, times: HALF_CLOCK },
        data_line(high),
    ]
}

/// `n` clocks after each of which SDA was still low.
pub open spec fn futile_clocks(n: nat) -> Seq<Step>
    decreases n,
{
    if n == 0 {
        Seq::empty()
    } else {
        futile_clocks((n - 1) as nat) + clock_script(false)
    }
}

/// A bus clear that took `clocks` clocks and found SDA `free` at the end:
/// none where SDA was high to begin with.
pub open spec fn bus_clear_script(clocks: nat, free: bool) -> Seq<Step> {
    take_lines_script() + seq![data_line(clocks == 0)] + (if clocks == 0 {
        Seq::empty()
    } else {
        futile_clocks((clocks - 1) as nat) + clock_script(free)
    }) + seq![
        Step::Edit8 { addr: P1DIR, clear: P1_I2C_PINS, set: 0 },
        Step::Edit8 { addr: P1REN, clear: P1_I2C_PINS, set: 0 },
    ]
}

/// A bus clear stops at the first clock that frees SDA, and after nine at the
/// latest.
pub open spec fn bus_clear_ends(clocks: nat, free: bool) -> bool {
    &&& clocks <= 9
    &&& clocks == 0 ==> free
    &&& !free ==> clocks == 9
}

/// Frees a bus on which a slave, interrupted in the middle of a byte, holds
/// SDA low: gives it the clocks that it waits for. Returns how many that took
/// and whether SDA is free.
fn bus_clear<H: Hardware>(bus: &mut Bus<H>) -> (r: (u8, bool))
    ensures
        bus_clear_ends(r.0 as nat, r.1),
        final(bus).ran(*old(bus), bus_clear_script(r.0 as nat, r.1)),
{
    bus.edit8(P1SEL1, P1_I2C_PINS, 0);
    bus.edit8(P1SEL0, P1_I2C_PINS, 0);
    bus.edit8(P1DIR, P1_SDA, 0);
    bus.edit8(P1OUT, 0, P1_SDA);
    bus.edit8(P1REN, 0, P1_SDA);
    bus.edit8(P1OUT, 0, P1_SCL);
    bus.edit8(P1DIR, 0, P1_SCL);
    bus.dwell8(P1IN, HALF_CLOCK);
    let mut free: bool = bus.test8(P1IN, P1_SDA);
    let mut clocks: u8 = 0;
    let ghost taken = take_lines_script() + seq![data_line(free)];
    let ghost high = free;
    assert(bus.ran(*old(bus), taken));
    while !free && clocks < 9
        invariant
            clocks <= 9,
            clocks == 0 ==> free == high,
            clocks > 0 ==> !high,
            taken == take_lines_script() + seq![data_line(high)],
            bus.ran(
                *old(bus),
                taken + (if clocks == 0 {
                    Seq::empty()
                } else {
                    futile_clocks((clocks - 1) as nat) + clock_script(free)
                }),
            ),
        decreases 9 - clocks,
    {
        let ghost so_far = bus@;
        bus.edit8(P1OUT, P1_SCL, 0);
        bus.dwell8(P1IN, HALF_CLOCK);
        bus.edit8(P1OUT, 0, P1_SCL);
        bus.dwell8(P1IN, HALF_CLOCK);
        free = bus.test8(P1IN, P1_SDA);
        clocks = clocks + 1;
        proof {
            assert(bus@ =~= so_far + clock_script(free));
            assert(so_far =~= old(bus)@ + taken + futile_clocks((clocks - 1) as nat));
        }
    }
    bus.edit8(P1DIR, P1_I2C_PINS, 0);
    bus.edit8(P1REN, P1_I2C_PINS, 0);
    (clocks, free)
}

/// The master control word, held in reset.
pub open spec fn master_word() -> u16 {
    UCSWRST | UCSYNC | UCMODE_I2C | UCMST | UCSSEL_SMCLK
}

/// Programming of the master: held in reset, clock-low timeout, prescaler,
/// pins, and released.
pub open spec fn master_script(config: Config) -> Seq<Step> {
    seq![
        Step::Write16 { addr: CTLW0, value: master_word() },
        Step::Write16 { addr: CTLW1, value: UCCLTO_28MS },
        Step::Write16 { addr: BRW, value: config.divider() as u16 },
        Step::Edit8 { addr: P1SEL1, clear: 0, set: P1_I2C_PINS },
        Step::Edit8 { addr: P1SEL0, clear: P1_I2C_PINS, set: 0 },
        Step::Write16 { addr: CTLW0, value: master_word() & !UCSWRST },
    ]
}

impl I2c {
    /// Clears the bus and configures eUSCI_B0 as its only master.
    fn init<H: Hardware>(usci: UsciB0I2cMode, bus: &mut Bus<H>, config: Config) -> (r: Self)
        ensures
            exists|clocks: nat, free: bool|
                bus_clear_ends(clocks, free) && final(bus).ran(
                    *old(bus),
                    #[trigger] bus_clear_script(clocks, free) + master_script(config),
                ),
    {
        let ctlw0: u16 = UCSWRST | UCSYNC | UCMODE_I2C | UCMST | UCSSEL_SMCLK;
        let (clocks, free) = bus_clear(bus);
        bus.write16(CTLW0, ctlw0);
        bus.write16(CTLW1, UCCLTO_28MS);
        let prescaler: u16 = config.prescaler();
        bus.write16(BRW, prescaler);
        bus.edit8(P1SEL1, 0, P1_I2C_PINS);
        bus.edit8(P1SEL0, P1_I2C_PINS, 0);
        bus.write16(CTLW0, ctlw0 & !UCSWRST);
        assert(bus.ran(
            *old(bus),
            bus_clear_script(clocks as nat, free) + master_script(config),
        ));
        I2c { _usci: usci }
    }

    /// Runs the operations against one address: a START (a repeated one after
    /// the first) before each run of operations in one direction, the bytes of
    /// a run back to back, and one STOP at the end. Read buffers receive what
    /// arrived, also where the transaction fails later; a failure releases
    /// the bus.
    pub fn transaction<H: Hardware>(
        &mut self,
        bus: &mut Bus<H>,
        address: u8,
        operations: &mut Vec<Operation>,
    ) -> (r: Result<(), Error>)
        requires
            flat(old(operations)@).len() <= usize::MAX,
        ensures
            old(operations)@.len() == 0 ==> r is Ok && final(operations)@ == old(operations)@
                && final(bus).ran(*old(bus), Seq::empty()),
            old(operations)@.len() > 0 ==> exists|idle: Outcome, ends: Seq<RunEnd>|
                #[trigger] transaction_result(
                    old(operations)@,
                    final(operations)@,
                    idle,
                    ends,
                    r,
                ) && final(bus).ran(
                    *old(bus),
                    opening_script(address, idle) + runs_script(
                        old(operations)@,
                        final(operations)@,
                        ends,
                    ),
                ),
    {
        let ghost before = operations@;
        let count: usize = operations.len();
        if count == 0 {
            return Ok(());
        }
        bus.write16(I2CSA, address as u16);
        let idle = self.wait(bus, Wait::StopSent);
        let ghost mut ends: Seq<RunEnd> = Seq::empty();
        proof {
            assert(runs_script(before, operations@, ends) =~= Seq::empty());
            assert(bus.ran(
                *old(bus),
                opening_script(address, idle) + runs_script(before, operations@, ends),
            ));
        }
        match idle {
            Outcome::Ready => {},
            _ => {
                assert(transaction_result(before, operations@, idle, ends, Err(Error::Timeout)));
                return Err(Error::Timeout);
            },
        }
        let mut i: usize = 0;
        while i < count
            invariant
                before == old(operations)@,
                flat(before).len() <= usize::MAX,
                count == before.len(),
                0 < count,
                i <= count,
                idle == Outcome::Ready,
                i == run_from(before, ends.len()),
                i > 0 ==> ends.len() > 0,
                served(before, operations@, ends),
                forall|k: int| 0 <= k < ends.len() ==> (#[trigger] ends[k]) is Done,
                bus.ran(
                    *old(bus),
                    opening_script(address, idle) + runs_script(before, operations@, ends),
                ),
            decreases count - i,
        {
            let j: usize = find_run_end(operations, i);
            let ghost was = operations@;
            proof {
                lemma_same_run(before, was, i as int);
                lemma_run_end(before, i as int);
                assert(run_end(was, i as int) == run_end(before, i as int));
                assert(run_of(before, was, i as int) =~= run_of(before, before, i as int));
                lemma_flat_part(before, i as int, j as int);
            }
            let end: RunEnd;
            if matches!(operations[i], Operation::Read(_)) {
                let total: usize = joined_len(operations, i, j);
                let (data, e) = self.read_run(bus, total, j == count);
                assert forall|k: int| i <= k < j implies (#[trigger] was[k]) is Read by {
                    assert(was[k] == before[k]);
                    assert(was[i as int] == before[i as int]);
                }
                deliver(operations, i, j, &data);
                proof {
                    let got = flat(run_of(before, operations@, i as int));
                    let wanted = flat(run_of(before, before, i as int));
                    let moved = e.moved(wanted.len()) as int;
                    assert(got.take(moved) =~= data@);
                    assert(got.skip(moved) =~= wanted.skip(moved));
                    assert forall|k: int| i <= k < j implies (#[trigger] operations@[k]) is Read
                        && operations@[k].bytes().len() == before[k].bytes().len() by {
                        assert(was[k] == before[k]);
                    }
                }
                end = e;
            } else {
                let bytes: Vec<u8> = gather(operations, i, j);
                end = self.write_run(bus, &bytes, j == count);
            }
            proof {
                let now = operations@;
                let longer = ends.push(end);
                assert(was[i as int] == before[i as int]);
                assert(run_fits(before, now, i as int, end));
                assert(longer.drop_last() =~= ends);
                assert forall|k: int| 0 <= k < ends.len() implies #[trigger] run_from(
                    before,
                    k as nat,
                ) < before.len() by {
                    let e = ends[k];
                }
                lemma_frame(before, was, now, ends);
                assert(run_from(before, longer.len()) == j);
                assert(served(before, now, longer)) by {
                    assert forall|k: int| 0 <= k < longer.len() implies {
                        &&& run_from(before, k as nat) < before.len()
                        &&& run_fits(before, now, run_from(before, k as nat), #[trigger] longer[k])
                    } by {
                        if k < ends.len() {
                            assert(longer[k] == ends[k]);
                        }
                    }
                }
                assert(runs_script(before, now, longer) == runs_script(before, now, ends)
                    + run_script(before, now, i as int, end));
                ends = longer;
            }
            let r = end.report();
            match r {
                Ok(_) => {},
                Err(_) => {
                    assert(transaction_result(before, operations@, idle, ends, r));
                    return r;
                },
            }
            i = j;
        }
        assert(transaction_result(before, operations@, idle, ends, Ok(())));
        Ok(())
    }

    /// Whether a device answers at `address`: a write of no bytes, the
    /// building block of a bus scan.
    pub fn probe<H: Hardware>(&mut self, bus: &mut Bus<H>, address: u8) -> (found: bool)
        ensures
            exists|idle: Outcome, end: RunEnd|
                #[trigger] probe_result(idle, end, found) && final(bus).ran(
                    *old(bus),
                    probe_script(address, idle, end),
                ),
    {
        let mut operations: Vec<Operation> = Vec::new();
        operations.push(Operation::Write(Vec::new()));
        let ghost before = operations@;
        assert(flat(before) =~= Seq::empty()) by {
            assert(flat(before.drop_last()) =~= Seq::empty());
        }
        let r = self.transaction(bus, address, &mut operations);
        proof {
            let after = operations@;
            let (idle, ends) = choose|idle: Outcome, ends: Seq<RunEnd>|
                #[trigger] transaction_result(before, after, idle, ends, r) && bus.ran(
                    *old(bus),
                    opening_script(address, idle) + runs_script(before, after, ends),
                );
            assert(run_end(before, 0) == 1);
            assert(run_from(before, 0) == 0);
            if idle == Outcome::Ready {
                assert(run_from(before, 1) == 1) by {
                    reveal_with_fuel(run_from, 2);
                }
                if ends.len() > 1 {
                    let second = ends[1];
                }
                let end = ends[0];
                assert(ends.drop_last() =~= Seq::empty());
                assert(runs_script(before, after, ends.drop_last()) =~= Seq::empty());
                assert(run_of(before, before, 0) =~= before);
                assert(probe_result(idle, end, r is Ok));
            } else {
                assert(runs_script(before, after, ends) =~= Seq::empty());
                assert(probe_result(idle, RunEnd::Done(None), r is Ok));
            }
        }
        match r {
            Ok(_) => true,
            Err(_) => false,
        }
    }
}

/// A write of no bytes to `address`.
pub open spec fn probe_script(address: u8, idle: Outcome, end: RunEnd) -> Seq<Step> {
    if idle == Outcome::Ready {
        opening_script(address, idle) + write_script(Seq::empty(), end)
    } else {
        opening_script(address, idle)
    }
}

/// A device is there if the bus was idle and the run went through.
pub open spec fn probe_result(idle: Outcome, end: RunEnd, found: bool) -> bool {
    if idle == Outcome::Ready {
        end.ends_write(0, true) && found == (end is Done)
    } else {
        timed_out(idle) && !found
    }
}

/// Turns the peripheral into a bus master.
pub trait I2cExt: Sized {
    /// Consumes the peripheral and configures it as an I2C master.
    fn into_i2c<H: Hardware>(self, bus: &mut Bus<H>, config: Config) -> I2c;
}

impl I2cExt for UsciB0I2cMode {
    fn into_i2c<H: Hardware>(self, bus: &mut Bus<H>, config: Config) -> (r: I2c)
        ensures
            exists|clocks: nat, free: bool|
                bus_clear_ends(clocks, free) && final(bus).ran(
                    *old(bus),
                    #[trigger] bus_clear_script(clocks, free) + master_script(config),
                ),
    {
        I2c::init(self, bus, config)
    }
}

/// The last steps left the bus released: by a completed STOP or by recovery.
pub open spec fn released(script: Seq<Step>) -> bool {
    let stop = stop_script(Outcome::Ready);
    let reset = recover_script();
    ||| script.len() >= stop.len() && script.skip(script.len() - stop.len()) =~= stop
    ||| script.len() >= reset.len() && script.skip(script.len() - reset.len()) =~= reset
}

/// A failed write leaves the bus released, whatever went wrong.
pub proof fn lemma_failed_write_releases(bytes: Seq<u8>, send_stop: bool, end: RunEnd)
    requires
        end.ends_write(bytes.len(), send_stop),
        end.result() is Err,
    ensures
        released(write_script(bytes, end)),
{
    let all = write_script(bytes, end);
    assert(stop_script(Outcome::Ready).len() == 2);
    assert(recover_script().len() == 3);
    match end {
        RunEnd::AddressNack(o) => {
            if o == Outcome::Ready {
                assert(all.skip(all.len() - 2) =~= stop_script(o));
            } else {
                assert(all.skip(all.len() - 3) =~= recover_script());
            }
        },
        RunEnd::DataNack { stop, .. } => {
            if stop == Outcome::Ready {
                assert(all.skip(all.len() - 2) =~= stop_script(stop));
            } else {
                assert(all.skip(all.len() - 3) =~= recover_script());
            }
        },
        _ => {
            assert(all.skip(all.len() - 3) =~= recover_script());
        },
    }
}

/// A failed read leaves the bus released, whatever went wrong.
pub proof fn lemma_failed_read_releases(data: Seq<u8>, total: nat, send_stop: bool, end: RunEnd)
    requires
        end.ends_read(total, send_stop),
        end.result() is Err,
    ensures
        released(read_script(data, total, send_stop, end)),
{
    let all = read_script(data, total, send_stop, end);
    assert(stop_script(Outcome::Ready).len() == 2);
    assert(recover_script().len() == 3);
    match end {
        RunEnd::AddressNack(o) => {
            if o == Outcome::Ready {
                assert(all.skip(all.len() - 2) =~= stop_script(o));
            } else {
                assert(all.skip(all.len() - 3) =~= recover_script());
            }
        },
        _ => {
            assert(all.skip(all.len() - 3) =~= recover_script());
        },
    }
}

/// A failed transaction leaves the bus released.
pub proof fn lemma_failed_transaction_releases(
    address: u8,
    before: Seq<Operation>,
    after: Seq<Operation>,
    idle: Outcome,
    ends: Seq<RunEnd>,
    r: Result<(), Error>,
)
    requires
        transaction_result(before, after, idle, ends, r),
        r is Err,
    ensures
        released(opening_script(address, idle) + runs_script(before, after, ends)),
{
    let all = opening_script(address, idle) + runs_script(before, after, ends);
    if idle == Outcome::Ready {
        let k = ends.len() - 1;
        let from = run_from(before, k as nat);
        let run = run_script(before, after, from, ends[k]);
        assert(run_fits(before, after, from, ends[k]));
        let wanted = flat(run_of(before, before, from));
        let last = run_end(before, from) == before.len();
        if before[from] is Read {
            let data = flat(run_of(before, after, from)).take(
                ends[k].moved(wanted.len()) as int,
            );
            lemma_failed_read_releases(data, wanted.len(), last, ends[k]);
        } else {
            lemma_failed_write_releases(wanted, last, ends[k]);
        }
        assert(all =~= (opening_script(address, idle) + runs_script(
            before,
            after,
            ends.drop_last(),
        )) + run);
        lemma_released_suffix(
            opening_script(address, idle) + runs_script(before, after, ends.drop_last()),
            run,
        );
    } else {
        assert(recover_script().len() == 3);
        assert(all.skip(all.len() - 3) =~= recover_script());
    }
}

/// What was done before does not matter to how the steps end.
proof fn lemma_released_suffix(front: Seq<Step>, back: Seq<Step>)
    requires
        released(back),
    ensures
        released(front + back),
{
    let all = front + back;
    let stop = stop_script(Outcome::Ready);
    let reset = recover_script();
    if back.len() >= stop.len() && back.skip(back.len() - stop.len()) =~= stop {
        assert(all.skip(all.len() - stop.len()) =~= back.skip(back.len() - stop.len()));
    } else {
        assert(all.skip(all.len() - reset.len()) =~= back.skip(back.len() - reset.len()));
    }
}

/// A step that requests a STOP.
pub open spec fn requests_stop() -> spec_fn(Step) -> bool {
    |step: Step| step == request_stop()
}

/// Received bytes bring a STOP request only with the last of several.
proof fn lemma_received_stops(data: Seq<u8>, total: nat, send_stop: bool)
    requires
        data.len() <= total,
    ensures
        crate::bus::tally(received_script(data, total, send_stop), requests_stop()) == if send_stop
            && total > 1 && data.len() == total {
            1nat
        } else {
            0
        },
    decreases data.len(),
{
    let p = requests_stop();
    if data.len() > 0 {
        let front = received_script(data.drop_last(), total, send_stop);
        let early = stop_before(data.len() - 1, total, send_stop);
        let rest = seq![
            wait_step(Wait::ByteArrived, Outcome::Ready),
            Step::Low8 { addr: RXBUF, value: data.last() },
        ];
        lemma_received_stops(data.drop_last(), total, send_stop);
        crate::bus::lemma_tally_join(front, early, p);
        crate::bus::lemma_tally_join(front + early, rest, p);
        crate::bus::lemma_tally_zero(rest, p);
        if early.len() > 0 {
            crate::bus::lemma_tally_one(early, p, 0);
        } else {
            crate::bus::lemma_tally_zero(early, p);
        }
    }
}

/// A completed write requests one STOP if it is told to and none otherwise.
pub proof fn lemma_write_stops(bytes: Seq<u8>, stop: Option<Outcome>)
    requires
        RunEnd::Done(stop).ends_write(bytes.len(), stop is Some),
    ensures
        crate::bus::tally(write_script(bytes, RunEnd::Done(stop)), requests_stop()) == if stop is Some {
            1nat
        } else {
            0
        },
{
    let p = requests_stop();
    let sent = write_script(bytes, RunEnd::Done(None));
    assert(UCTR | UCTXSTT != UCTXSTP) by (bit_vector);
    crate::bus::lemma_tally_zero(sent, p);
    match stop {
        None => {},
        Some(o) => {
            crate::bus::lemma_tally_join(sent, stop_script(o), p);
            crate::bus::lemma_tally_one(stop_script(o), p, 0);
        },
    }
}

/// A completed read requests one STOP if it is told to and none otherwise.
pub proof fn lemma_read_stops(data: Seq<u8>, send_stop: bool, stop: Option<Outcome>)
    requires
        RunEnd::Done(stop).ends_read(data.len(), send_stop),
    ensures
        crate::bus::tally(
            read_script(data, data.len(), send_stop, RunEnd::Done(stop)),
            requests_stop(),
        ) == if send_stop {
            1nat
        } else {
            0
        },
{
    let p = requests_stop();
    let total = data.len();
    let addressed = start_script(true, Outcome::Ready) + seq![address_check(false)];
    let opening = read_opening(total, send_stop);
    let received = received_script(data, total, send_stop);
    crate::bus::lemma_tally_zero(addressed, p);
    lemma_received_stops(data, total, send_stop);
    if send_stop && total == 1 {
        crate::bus::lemma_tally_join(addressed, seq![request_stop()], p);
        crate::bus::lemma_tally_one(seq![request_stop()], p, 0);
    } else {
        assert(opening =~= addressed);
    }
    crate::bus::lemma_tally_join(opening, received, p);
    if send_stop {
        let closing = read_closing(total, Outcome::Ready);
        crate::bus::lemma_tally_join(opening + received, closing, p);
        if total == 0 {
            crate::bus::lemma_tally_one(closing, p, 0);
        } else {
            crate::bus::lemma_tally_zero(closing, p);
        }
    }
}

/// Completed runs request a STOP exactly if they reach the last operation.
proof fn lemma_runs_stops(before: Seq<Operation>, after: Seq<Operation>, ends: Seq<RunEnd>)
    requires
        before.len() > 0,
        after.len() == before.len(),
        forall|k: int|
            0 <= k < ends.len() ==> {
                &&& run_from(before, k as nat) < before.len()
                &&& run_fits(before, after, run_from(before, k as nat), #[trigger] ends[k])
                &&& ends[k] is Done
            },
    ensures
        0 <= run_from(before, ends.len()) <= before.len(),
        crate::bus::tally(runs_script(before, after, ends), requests_stop()) == if run_from(
            before,
            ends.len(),
        ) == before.len() {
            1nat
        } else {
            0
        },
    decreases ends.len(),
{
    let p = requests_stop();
    if ends.len() > 0 {
        let shorter = ends.drop_last();
        let k = ends.len() - 1;
        let end = ends[k];
        let from = run_from(before, k as nat);
        assert forall|j: int| 0 <= j < shorter.len() implies {
            &&& run_from(before, j as nat) < before.len()
            &&& run_fits(before, after, run_from(before, j as nat), #[trigger] shorter[j])
            &&& shorter[j] is Done
        } by {
            assert(shorter[j] == ends[j]);
        }
        lemma_runs_stops(before, after, shorter);
        lemma_run_end(before, from);
        crate::bus::lemma_tally_join(
            runs_script(before, after, shorter),
            run_script(before, after, from, end),
            p,
        );
        let wanted = flat(run_of(before, before, from));
        let last = run_end(before, from) == before.len();
        if before[from] is Read {
            let data = flat(run_of(before, after, from)).take(wanted.len() as int);
            lemma_read_stops(data, last, end->Done_0);
        } else {
            lemma_write_stops(wanted, end->Done_0);
        }
    }
}

/// A transaction that succeeds requests exactly one STOP, however many
/// operations and changes of direction it has.
pub proof fn lemma_one_stop(
    address: u8,
    before: Seq<Operation>,
    after: Seq<Operation>,
    idle: Outcome,
    ends: Seq<RunEnd>,
)
    requires
        before.len() > 0,
        transaction_result(before, after, idle, ends, Ok(())),
    ensures
        crate::bus::tally(
            opening_script(address, idle) + runs_script(before, after, ends),
            requests_stop(),
        ) == 1,
{
    let p = requests_stop();
    assert forall|k: int| 0 <= k < ends.len() implies {
        &&& run_from(before, k as nat) < before.len()
        &&& run_fits(before, after, run_from(before, k as nat), #[trigger] ends[k])
        &&& ends[k] is Done
    } by {
        assert(ends.last() is Done);
    }
    lemma_runs_stops(before, after, ends);
    crate::bus::lemma_tally_zero(opening_script(address, idle), p);
    crate::bus::lemma_tally_join(
        opening_script(address, idle),
        runs_script(before, after, ends),
        p,
    );
}

/// Slave configuration.
#[derive(Clone, Copy, Debug)]
pub struct SlaveConfig {
    /// Own 7-bit address, `0x08..=0x77`.
    pub address: u8,
    /// Also answer the general call.
    pub general_call: bool,
}

impl SlaveConfig {
    /// A slave that answers one address.
    pub fn new(address: u8) -> (r: Self)
        ensures
            r == (SlaveConfig { address, general_call: false }),
    {
        SlaveConfig { address, general_call: false }
    }

    /// The same slave, which also answers the general call.
    pub fn general_call(self) -> (r: Self)
        ensures
            r == (SlaveConfig { address: self.address, general_call: true }),
    {
        SlaveConfig { address: self.address, general_call: true }
    }
}

/// One bus event of a slave. A master write arrives as `Start { read: false }`,
/// `Received` for each byte, and `Stop`; a master read as `Start { read: true }`,
/// `TxRequest` for each byte, and `Stop`. A repeated START is a second `Start`
/// with no `Stop` between.
#[derive(Clone, Copy, PartialEq, Eq, Structural, Debug)]
pub enum SlaveEvent {
    /// This slave was addressed; `read` means that it is to transmit.
    Start { read: bool },
    /// A byte arrived.
    Received(u8),
    /// The master waits for a byte; reported until one is supplied.
    TxRequest,
    /// The transaction is over.
    Stop,
}

/// What the interrupt flags call for, in order of precedence: a received byte
/// first, so that it reaches the application before the bus turns around; a
/// STOP before a START, so that transactions stay in order; a transmit
/// request last, and only inside a transaction that reads.
pub enum Pending {
    Byte,
    Stop,
    Start,
    Request,
    Quiet,
}

/// What the flags `ifg` call for.
pub open spec fn pending(ifg: u16, transmitting: bool) -> Pending {
    if ifg & UCRXIFG != 0 {
        Pending::Byte
    } else if ifg & UCSTPIFG != 0 {
        Pending::Stop
    } else if ifg & UCSTTIFG != 0 {
        Pending::Start
    } else if transmitting && ifg & UCTXIFG != 0 {
        Pending::Request
    } else {
        Pending::Quiet
    }
}

/// The event that is reported for what is pending.
pub open spec fn reports(what: Pending, event: Option<SlaveEvent>) -> bool {
    match what {
        Pending::Byte => event matches Some(SlaveEvent::Received(_)),
        Pending::Stop => event == Some(SlaveEvent::Stop),
        Pending::Start => event matches Some(SlaveEvent::Start { .. }),
        Pending::Request => event == Some(SlaveEvent::TxRequest),
        Pending::Quiet => event == None::<SlaveEvent>,
    }
}

/// The removal of a byte that was supplied ahead and never sent: where the
/// transmit buffer is not `empty`, a reset that keeps the interrupt enables.
pub open spec fn flush_script(empty: bool, ie: u16) -> Seq<Step> {
    let look = Step::Test16 { addr: IFG, cond: Cond::all_set(UCTXIFG), holds: empty };
    if empty {
        seq![look]
    } else {
        seq![
            look,
            Step::Read16 { addr: IE, value: ie },
            Step::Edit16 { addr: CTLW0, clear: 0, set: UCSWRST },
            Step::Edit16 { addr: CTLW0, clear: UCSWRST, set: 0 },
            Step::Write16 { addr: IE, value: ie },
        ]
    }
}

/// What a poll does that saw the flags `ifg` and reported `event`.
pub open spec fn poll_script(
    ifg: u16,
    transmitting: bool,
    empty: bool,
    ie: u16,
    event: Option<SlaveEvent>,
) -> Seq<Step> {
    seq![Step::Read16 { addr: IFG, value: ifg }] + match event {
        Some(SlaveEvent::Received(byte)) => seq![Step::Low8 { addr: RXBUF, value: byte }],
        Some(SlaveEvent::Stop) => seq![Step::Edit16 { addr: IFG, clear: UCSTPIFG, set: 0 }] + (
        if transmitting {
            flush_script(empty, ie)
        } else {
            Seq::empty()
        }),
        Some(SlaveEvent::Start { read }) => seq![
            Step::Edit16 { addr: IFG, clear: UCSTTIFG, set: 0 },
            Step::Test16 { addr: CTLW0, cond: Cond::all_set(UCTR), holds: read },
        ],
        Some(SlaveEvent::TxRequest) => Seq::empty(),
        None => Seq::empty(),
    }
}

/// Whether the slave transmits after reporting `event`.
pub open spec fn transmits_after(transmitting: bool, event: Option<SlaveEvent>) -> bool {
    match event {
        Some(SlaveEvent::Start { read }) => read,
        Some(SlaveEvent::Stop) => false,
        _ => transmitting,
    }
}

/// The reads of polls that found nothing to report.
pub open spec fn quiet_script(flags: Seq<u16>) -> Seq<Step> {
    flags.map_values(|ifg: u16| Step::Read16 { addr: IFG, value: ifg })
}

/// The control word of a slave, held in reset.
pub open spec fn slave_word() -> u16 {
    UCSWRST | UCSYNC | UCMODE_I2C
}

/// Programming of a slave with own-address word `own`.
pub open spec fn slave_script(own: u16) -> Seq<Step> {
    seq![
        Step::Write16 { addr: CTLW0, value: slave_word() },
        Step::Write16 { addr: CTLW1, value: 0 },
        Step::Write16 { addr: I2COA0, value: own },
        Step::Edit8 { addr: P1SEL1, clear: 0, set: P1_I2C_PINS },
        Step::Edit8 { addr: P1SEL0, clear: P1_I2C_PINS, set: 0 },
        Step::Write16 { addr: CTLW0, value: slave_word() & !UCSWRST },
    ]
}

/// A configured eUSCI_B0 I2C slave: an event pump. The module acknowledges
/// its address and stretches the clock by itself whenever the application is
/// behind, so that polling late costs throughput and no data.
pub struct I2cSlave {
    transmitting: bool,
    usci: UsciB0I2cMode,
}

impl I2cSlave {
    /// Whether the transaction in progress has this slave transmitting.
    pub closed spec fn transmitting(&self) -> bool {
        self.transmitting
    }

    /// Configures the slave, or refuses the own address and touches nothing.
    fn init<H: Hardware>(usci: UsciB0I2cMode, bus: &mut Bus<H>, config: SlaveConfig) -> (r: Result<
        Self,
        AddressError,
    >)
        ensures
            match crate::i2c_slave::own_address(config.address, config.general_call) {
                Ok(own) => r matches Ok(slave) && !slave.transmitting() && final(bus).ran(
                    *old(bus),
                    slave_script(own),
                ),
                Err(e) => r == Err::<Self, AddressError>(e) && final(bus).ran(
                    *old(bus),
                    Seq::empty(),
                ),
            },
    {
        match encode_own_address(config.address, config.general_call) {
            Ok(own) => {
                let ctlw0: u16 = UCSWRST | UCSYNC | UCMODE_I2C;
                bus.write16(CTLW0, ctlw0);
                bus.write16(CTLW1, 0);
                bus.write16(I2COA0, own);
                bus.edit8(P1SEL1, 0, P1_I2C_PINS);
                bus.edit8(P1SEL0, P1_I2C_PINS, 0);
                bus.write16(CTLW0, ctlw0 & !UCSWRST);
                Ok(I2cSlave { transmitting: false, usci })
            },
            Err(e) => Err(e),
        }
    }

    /// Turns the pending flags into at most one event.
    pub fn poll<H: Hardware>(&mut self, bus: &mut Bus<H>) -> (event: Option<SlaveEvent>)
        ensures
            final(self).transmitting() == transmits_after(old(self).transmitting(), event),
            exists|ifg: u16, empty: bool, ie: u16|
                reports(pending(ifg, old(self).transmitting()), event) && final(bus).ran(
                    *old(bus),
                    #[trigger] poll_script(ifg, old(self).transmitting(), empty, ie, event),
                ),
    {
        let ghost was = self.transmitting;
        let ifg: u16 = bus.read16(IFG);
        if ifg & UCRXIFG != 0 {
            let byte: u8 = bus.low8(RXBUF);
            let event = Some(SlaveEvent::Received(byte));
            assert(bus.ran(*old(bus), poll_script(ifg, was, false, 0, event)));
            return event;
        }
        if ifg & UCSTPIFG != 0 {
            bus.edit16(IFG, UCSTPIFG, 0);
            let was_transmitting: bool = self.transmitting;
            self.transmitting = false;
            let event = Some(SlaveEvent::Stop);
            if was_transmitting {
                let (empty, ie) = self.flush_stale_tx_byte(bus);
                assert(bus.ran(*old(bus), poll_script(ifg, was, empty, ie, event)));
            } else {
                assert(bus.ran(*old(bus), poll_script(ifg, was, false, 0, event)));
            }
            return event;
        }
        if ifg & UCSTTIFG != 0 {
            bus.edit16(IFG, UCSTTIFG, 0);
            let read: bool = bus.is_set16(CTLW0, UCTR);
            self.transmitting = read;
            let event = Some(SlaveEvent::Start { read });
            assert(bus.ran(*old(bus), poll_script(ifg, was, false, 0, event)));
            return event;
        }
        if self.transmitting && ifg & UCTXIFG != 0 {
            let event = Some(SlaveEvent::TxRequest);
            assert(bus.ran(*old(bus), poll_script(ifg, was, false, 0, event)));
            return event;
        }
        assert(bus.ran(*old(bus), poll_script(ifg, was, false, 0, None)));
        None
    }

    /// Polls until there is an event, as often as the bus has patience.
    pub fn wait_event<H: Hardware>(&mut self, bus: &mut Bus<H>) -> (r: Result<SlaveEvent, Stalled>)
        ensures
            match r {
                Ok(event) => final(self).transmitting() == transmits_after(
                    old(self).transmitting(),
                    Some(event),
                ) && exists|quiet: Seq<u16>, ifg: u16, empty: bool, ie: u16|
                    {
                        &&& quiet.len() < old(bus).patience()
                        &&& forall|i: int|
                            0 <= i < quiet.len() ==> pending(
                                #[trigger] quiet[i],
                                old(self).transmitting(),
                            ) == Pending::Quiet
                        &&& reports(pending(ifg, old(self).transmitting()), Some(event))
                        &&& final(bus).ran(
                            *old(bus),
                            #[trigger] quiet_script(quiet) + #[trigger] poll_script(
                                ifg,
                                old(self).transmitting(),
                                empty,
                                ie,
                                Some(event),
                            ),
                        )
                    },
                Err(_) => final(self).transmitting() == old(self).transmitting()
                    && exists|quiet: Seq<u16>|
                    {
                        &&& quiet.len() == old(bus).patience()
                        &&& forall|i: int|
                            0 <= i < quiet.len() ==> pending(
                                #[trigger] quiet[i],
                                old(self).transmitting(),
                            ) == Pending::Quiet
                        &&& final(bus).ran(*old(bus), #[trigger] quiet_script(quiet))
                    },
            },
    {
        let ghost was = self.transmitting;
        let ghost mut quiet: Seq<u16> = Seq::empty();
        let mut left: u64 = bus.attempts();
        while left > 0
            invariant
                self.transmitting == was,
                was == old(self).transmitting(),
                quiet.len() + left == old(bus).patience(),
                forall|i: int|
                    0 <= i < quiet.len() ==> pending(#[trigger] quiet[i], was) == Pending::Quiet,
                bus.ran(*old(bus), quiet_script(quiet)),
            decreases left,
        {
            let ghost before = *bus;
            let event = self.poll(bus);
            left = left - 1;
            let ghost (ifg, empty, ie) = choose|ifg: u16, empty: bool, ie: u16|
                reports(pending(ifg, was), event) && bus.ran(
                    before,
                    #[trigger] poll_script(ifg, was, empty, ie, event),
                );
            match event {
                Some(e) => {
                    assert(bus.ran(
                        *old(bus),
                        quiet_script(quiet) + poll_script(ifg, was, empty, ie, Some(e)),
                    ));
                    return Ok(e);
                },
                None => {
                    proof {
                        assert(quiet_script(quiet.push(ifg)) =~= quiet_script(quiet) + poll_script(
                            ifg,
                            was,
                            empty,
                            ie,
                            None,
                        ));
                        quiet = quiet.push(ifg);
                    }
                },
            }
        }
        Err(Stalled)
    }

    /// Supplies the byte that a transmit request asked for.
    pub fn write_byte<H: Hardware>(&mut self, bus: &mut Bus<H>, byte: u8)
        ensures
            final(self).transmitting() == old(self).transmitting(),
            final(bus).ran(*old(bus), seq![Step::Write16 { addr: TXBUF, value: byte as u16 }]),
    {
        bus.write16(TXBUF, byte as u16);
    }

    /// Refuses the next received byte, which still arrives.
    pub fn nack_next_byte<H: Hardware>(&mut self, bus: &mut Bus<H>)
        ensures
            final(self).transmitting() == old(self).transmitting(),
            final(bus).ran(*old(bus), seq![Step::Edit16 { addr: CTLW0, clear: 0, set: UCTXNACK }]),
    {
        bus.edit16(CTLW0, 0, UCTXNACK);
    }

    /// Whether the transaction in progress came by the general call.
    pub fn addressed_as_general_call<H: Hardware>(&self, bus: &mut Bus<H>) -> (r: bool)
        ensures
            final(bus).ran(
                *old(bus),
                seq![Step::Test16 { addr: STATW, cond: Cond::all_set(UCGC), holds: r }],
            ),
    {
        bus.is_set16(STATW, UCGC)
    }

    /// Whether the bus is between a START and the next STOP.
    pub fn bus_busy<H: Hardware>(&self, bus: &mut Bus<H>) -> (r: bool)
        ensures
            final(bus).ran(
                *old(bus),
                seq![Step::Test16 { addr: STATW, cond: Cond::all_set(UCBBUSY), holds: r }],
            ),
    {
        bus.is_set16(STATW, UCBBUSY)
    }

    /// Drops a byte that was supplied ahead and that the master never
    /// fetched; left there it would open the next transaction.
    fn flush_stale_tx_byte<H: Hardware>(&mut self, bus: &mut Bus<H>) -> (r: (bool, u16))
        ensures
            final(self).transmitting() == old(self).transmitting(),
            final(bus).ran(*old(bus), flush_script(r.0, r.1)),
    {
        if bus.is_set16(IFG, UCTXIFG) {
            return (true, 0);
        }
        let ie: u16 = bus.read16(IE);
        bus.edit16(CTLW0, 0, UCSWRST);
        bus.edit16(CTLW0, UCSWRST, 0);
        bus.write16(IE, ie);
        (false, ie)
    }

    /// Holds the module in reset and gives the peripheral back.
    pub fn free<H: Hardware>(self, bus: &mut Bus<H>) -> (r: UsciB0I2cMode)
        ensures
            final(bus).ran(
                *old(bus),
                seq![
                    Step::Edit16 { addr: CTLW0, clear: 0, set: UCSWRST },
                    Step::Write16 { addr: IE, value: 0 },
                    Step::Write16 { addr: I2COA0, value: 0 },
                ],
            ),
    {
        bus.edit16(CTLW0, 0, UCSWRST);
        bus.write16(IE, 0);
        bus.write16(I2COA0, 0);
        self.usci
    }

    /// Arms the selected sources on the interrupt vector.
    pub fn enable_interrupts<H: Hardware>(&mut self, bus: &mut Bus<H>, which: SlaveInterrupts)
        ensures
            final(self).transmitting() == old(self).transmitting(),
            final(bus).ran(
                *old(bus),
                seq![
                    Step::Masked {
                        first: Edit::Update { addr: IE, clear: 0, set: which.mask() },
                        second: None,
                    },
                ],
            ),
    {
        let mask: u16 = (if which.start {
            UCSTTIFG
        } else {
            0
        }) | (if which.stop {
            UCSTPIFG
        } else {
            0
        }) | (if which.rx {
            UCRXIFG
        } else {
            0
        }) | (if which.tx {
            UCTXIFG
        } else {
            0
        });
        bus.masked_edit16(IE, 0, mask);
    }

    /// Disarms every source.
    pub fn disable_interrupts<H: Hardware>(&mut self, bus: &mut Bus<H>)
        ensures
            final(self).transmitting() == old(self).transmitting(),
            final(bus).ran(
                *old(bus),
                seq![Step::Masked { first: Edit::Store { addr: IE, value: 0 }, second: None }],
            ),
    {
        bus.masked(Edit::Store { addr: IE, value: 0 }, None);
    }
}

/// Which slave events fire the interrupt vector.
#[derive(Clone, Copy, Debug)]
pub struct SlaveInterrupts {
    /// START and own address received.
    pub start: bool,
    /// STOP received.
    pub stop: bool,
    /// A byte has arrived.
    pub rx: bool,
    /// A byte is wanted.
    pub tx: bool,
}

impl SlaveInterrupts {
    /// The enable bits.
    pub open spec fn mask(self) -> u16 {
        (if self.start {
            UCSTTIFG
        } else {
            0
        }) | (if self.stop {
            UCSTPIFG
        } else {
            0
        }) | (if self.rx {
            UCRXIFG
        } else {
            0
        }) | (if self.tx {
            UCTXIFG
        } else {
            0
        })
    }
}

impl Default for SlaveInterrupts {
    /// None of them.
    fn default() -> (r: Self)
        ensures
            r == (SlaveInterrupts { start: false, stop: false, rx: false, tx: false }),
    {
        SlaveInterrupts { start: false, stop: false, rx: false, tx: false }
    }
}

/// Reads the interrupt vector register, which clears the flag that it
/// reports; [`decode_iv`] tells what it means.
pub fn read_iv<H: Hardware>(bus: &mut Bus<H>) -> (iv: u16)
    ensures
        final(bus).ran(*old(bus), seq![Step::Read16 { addr: IV, value: iv }]),
{
    bus.read16(IV)
}

/// Takes the received byte, from inside the interrupt handler.
pub fn isr_read_byte<H: Hardware>(bus: &mut Bus<H>) -> (byte: u8)
    ensures
        final(bus).ran(*old(bus), seq![Step::Low8 { addr: RXBUF, value: byte }]),
{
    bus.low8(RXBUF)
}

/// Supplies a byte to send, from inside the interrupt handler.
pub fn isr_write_byte<H: Hardware>(bus: &mut Bus<H>, byte: u8)
    ensures
        final(bus).ran(*old(bus), seq![Step::Write16 { addr: TXBUF, value: byte as u16 }]),
{
    bus.write16(TXBUF, byte as u16);
}

/// Disarms every source from inside the interrupt handler, where nothing can
/// interfere.
pub fn isr_disable_interrupts<H: Hardware>(bus: &mut Bus<H>)
    ensures
        final(bus).ran(*old(bus), seq![Step::Write16 { addr: IE, value: 0 }]),
{
    bus.write16(IE, 0);
}

/// Turns the peripheral into a slave.
pub trait I2cSlaveExt: Sized {
    /// Consumes the peripheral and configures it as an I2C slave; fails only
    /// on an own address that cannot be used.
    fn into_i2c_slave<H: Hardware>(self, bus: &mut Bus<H>, config: SlaveConfig) -> Result<
        I2cSlave,
        AddressError,
    >;
}

impl I2cSlaveExt for UsciB0I2cMode {
    fn into_i2c_slave<H: Hardware>(self, bus: &mut Bus<H>, config: SlaveConfig) -> (r: Result<
        I2cSlave,
        AddressError,
    >)
        ensures
            match crate::i2c_slave::own_address(config.address, config.general_call) {
                Ok(own) => r matches Ok(slave) && !slave.transmitting() && final(bus).ran(
                    *old(bus),
                    slave_script(own),
                ),
                Err(e) => r == Err::<I2cSlave, AddressError>(e) && final(bus).ran(
                    *old(bus),
                    Seq::empty(),
                ),
            },
    {
        I2cSlave::init(self, bus, config)
    }
}

/// What happens on the bus.
pub enum LineEvent {
    /// A START, repeated or not, with an address and a direction.
    Start { address: int, read: bool },
    /// A byte from the master.
    Sent(int),
    /// A byte from the device.
    Received(int),
    /// A STOP.
    Stop,
    /// The master gives the bus up.
    Reset,
}

/// The master module as the bus sees it: what its control register and its
/// address register hold, and what it has put on the bus.
pub struct Line {
    pub control: u16,
    pub target: u16,
    pub events: Seq<LineEvent>,
}

/// What a change of the control register to `control` asks for, where `set` is
/// newly written: bit 0 resets, bit 1 is a START in the direction that bit 4 then
/// has (1 writes), bit 2 is a STOP.
pub open spec fn asked(control: u16, set: u16, target: u16) -> Seq<LineEvent> {
    (if set & 1 != 0 {
        seq![LineEvent::Reset]
    } else {
        Seq::empty()
    }) + (if set & 2 != 0 {
        seq![LineEvent::Start { address: target as int, read: control & 0x10 == 0 }]
    } else {
        Seq::empty()
    }) + (if set & 4 != 0 {
        seq![LineEvent::Stop]
    } else {
        Seq::empty()
    })
}

/// The line after a step.
pub open spec fn on_line(l: Line, step: Step) -> Line {
    match step {
        Step::Edit16 { addr, clear, set } => if addr == 0x0640 {
            let control = crate::bus::edited16(l.control, clear, set);
            Line { control, events: l.events + asked(control, set, l.target), ..l }
        } else {
            l
        },
        Step::Write16 { addr, value } => if addr == 0x0640 {
            Line { control: value, events: l.events + asked(value, value, l.target), ..l }
        } else if addr == 0x0660 {
            Line { target: value, ..l }
        } else if addr == 0x064E {
            Line { events: l.events.push(LineEvent::Sent(value as int)), ..l }
        } else {
            l
        },
        Step::Low8 { addr, value } => if addr == 0x064C {
            Line { events: l.events.push(LineEvent::Received(value as int)), ..l }
        } else {
            l
        },
        _ => l,
    }
}

/// The line after a script.
pub open spec fn line_after(l: Line, script: Seq<Step>) -> Line
    decreases script.len(),
{
    if script.len() == 0 {
        l
    } else {
        on_line(line_after(l, script.drop_last()), script.last())
    }
}

proof fn lemma_line_joins(l: Line, a: Seq<Step>, b: Seq<Step>)
    ensures
        line_after(l, a + b) == line_after(line_after(l, a), b),
    decreases b.len(),
{
    if b.len() == 0 {
        assert(a + b =~= a);
    } else {
        assert((a + b).drop_last() =~= a + b.drop_last());
        lemma_line_joins(l, a, b.drop_last());
    }
}

proof fn lemma_line_step(l: Line, step: Step)
    ensures
        line_after(l, seq![step]) == on_line(l, step),
{
    assert(seq![step].drop_last() =~= Seq::empty());
    reveal_with_fuel(line_after, 2);
}

/// The reset that ends a wait which was given up.
pub open spec fn given_up(outcome: Outcome) -> Seq<LineEvent> {
    match outcome {
        Outcome::Tripped | Outcome::Exhausted => seq![LineEvent::Reset],
        _ => Seq::empty(),
    }
}

/// Some steps put `events` on the bus, whatever the control register held
/// before, and keep the address.
pub open spec fn puts(script: Seq<Step>, target: u16, events: Seq<LineEvent>) -> bool {
    forall|l: Line|
        l.target == target ==> {
            &&& (#[trigger] line_after(l, script)).events =~= l.events + events
            &&& line_after(l, script).target == target
        }
}

proof fn lemma_puts_joins(
    a: Seq<Step>,
    b: Seq<Step>,
    target: u16,
    first: Seq<LineEvent>,
    second: Seq<LineEvent>,
)
    requires
        puts(a, target, first),
        puts(b, target, second),
    ensures
        puts(a + b, target, first + second),
{
    assert forall|l: Line| l.target == target implies {
        &&& (#[trigger] line_after(l, a + b)).events =~= l.events + (first + second)
        &&& line_after(l, a + b).target == target
    } by {
        lemma_line_joins(l, a, b);
        let mid = line_after(l, a);
        assert(line_after(mid, b).events =~= mid.events + second);
    }
}

proof fn lemma_bits(control: u16)
    ensures
        1u16 & 1 != 0 && 1u16 & 2 == 0 && 1u16 & 4 == 0,
        2u16 & 1 == 0 && 2u16 & 2 != 0 && 2u16 & 4 == 0,
        4u16 & 1 == 0 && 4u16 & 2 == 0 && 4u16 & 4 != 0,
        0u16 & 1 == 0 && 0u16 & 2 == 0 && 0u16 & 4 == 0,
        0x10u16 | 2 == 0x12,
        0x12u16 & 1 == 0 && 0x12u16 & 2 != 0 && 0x12u16 & 4 == 0,
        ((control & !0u16) | 0x12) & 0x10 != 0,
        ((((control & !0x10u16) | 0) & !0u16) | 2) & 0x10 == 0,
{
    assert(1u16 & 1 != 0 && 1u16 & 2 == 0 && 1u16 & 4 == 0 && 2u16 & 1 == 0 && 2u16 & 2 != 0 && 2u16
        & 4 == 0 && 4u16 & 1 == 0 && 4u16 & 2 == 0 && 4u16 & 4 != 0 && 0u16 & 1 == 0 && 0u16 & 2
        == 0 && 0u16 & 4 == 0 && 0x10u16 | 2 == 0x12 && 0x12u16 & 1 == 0 && 0x12u16 & 2 != 0
        && 0x12u16 & 4 == 0 && ((control & !0u16) | 0x12) & 0x10 != 0 && ((((control & !0x10u16) | 0)
        & !0u16) | 2) & 0x10 == 0) by (bit_vector);
}

proof fn lemma_wait_puts(wait: Wait, outcome: Outcome, target: u16)
    ensures
        puts(wait_script(wait, outcome), target, given_up(outcome)),
{
    assert forall|l: Line| l.target == target implies {
        &&& (#[trigger] line_after(l, wait_script(wait, outcome))).events =~= l.events + given_up(
            outcome,
        )
        &&& line_after(l, wait_script(wait, outcome)).target == target
    } by {
        lemma_bits(0);
        lemma_line_step(l, wait_step(wait, outcome));
        if timed_out(outcome) {
            lemma_line_joins(l, seq![wait_step(wait, outcome)], recover_script());
            let r = recover_script();
            let r2 = r.drop_last();
            let r1 = r2.drop_last();
            assert(r.last() == (Step::Edit16 { addr: CTLW0, clear: UCSWRST, set: 0 }));
            assert(r2.last() is Edit16 && r2.last()->Edit16_addr == IFG);
            assert(r1.last() == (Step::Edit16 { addr: CTLW0, clear: 0, set: UCSWRST }));
            assert(r1.drop_last() =~= Seq::empty());
            reveal_with_fuel(line_after, 4);
        }
    }
}

proof fn lemma_stop_puts(outcome: Outcome, target: u16)
    ensures
        puts(seq![request_stop()], target, seq![LineEvent::Stop]),
        puts(stop_script(outcome), target, seq![LineEvent::Stop] + given_up(outcome)),
{
    assert forall|l: Line| l.target == target implies {
        &&& (#[trigger] line_after(l, seq![request_stop()])).events =~= l.events + seq![
            LineEvent::Stop,
        ]
        &&& line_after(l, seq![request_stop()]).target == target
    } by {
        lemma_bits(0);
        lemma_line_step(l, request_stop());
    }
    lemma_wait_puts(Wait::StopSent, outcome, target);
    lemma_puts_joins(
        seq![request_stop()],
        wait_script(Wait::StopSent, outcome),
        target,
        seq![LineEvent::Stop],
        given_up(outcome),
    );
}

/// Every START of a run is in the direction of the run: bit 4 of the control
/// register is clear after the step that requests the START of a read, and set
/// after that of a write, whatever the register held before the run.
pub proof fn lemma_start_direction(read: bool, outcome: Outcome, target: u16)
    ensures
        puts(
            start_script(read, outcome),
            target,
            seq![LineEvent::Start { address: target as int, read }] + given_up(outcome),
        ),
{
    let start = seq![LineEvent::Start { address: target as int, read }];
    let whole = start_script(read, outcome);
    let wait = wait_script(Wait::AddressSent, outcome);
    let request = whole.take(whole.len() - wait.len());
    assert(whole =~= request + wait);
    assert forall|l: Line| l.target == target implies {
        &&& (#[trigger] line_after(l, request)).events =~= l.events + start
        &&& line_after(l, request).target == target
    } by {
        lemma_bits(l.control);
        if read {
            let r2 = request.drop_last();
            let r1 = r2.drop_last();
            assert(request.last() == (Step::Edit16 { addr: CTLW0, clear: 0, set: UCTXSTT }));
            assert(r2.last() == (Step::Edit16 { addr: CTLW0, clear: UCTR, set: 0 }));
            assert(r1.last() is Edit16 && r1.last()->Edit16_addr == IFG);
            assert(r1.drop_last() =~= Seq::empty());
            reveal_with_fuel(line_after, 4);
        } else {
            let r1 = request.drop_last();
            assert(request.last() == (Step::Edit16 { addr: CTLW0, clear: 0, set: UCTR | UCTXSTT }));
            assert(r1.last() is Edit16 && r1.last()->Edit16_addr == IFG);
            assert(r1.drop_last() =~= Seq::empty());
            reveal_with_fuel(line_after, 3);
        }
    }
    lemma_wait_puts(Wait::AddressSent, outcome, target);
    lemma_puts_joins(request, wait, target, start, given_up(outcome));
}

/// Bytes as the master sends them.
pub open spec fn sent(bytes: Seq<u8>) -> Seq<LineEvent> {
    Seq::new(bytes.len(), |i: int| LineEvent::Sent(bytes[i] as int))
}

/// Bytes as the device sends them.
pub open spec fn got(bytes: Seq<u8>) -> Seq<LineEvent> {
    Seq::new(bytes.len(), |i: int| LineEvent::Received(bytes[i] as int))
}

proof fn lemma_sent_puts(bytes: Seq<u8>, target: u16)
    ensures
        puts(sent_script(bytes), target, sent(bytes)),
    decreases bytes.len(),
{
    if bytes.len() == 0 {
        assert(sent_script(bytes) =~= Seq::empty());
        assert forall|l: Line| l.target == target implies {
            &&& (#[trigger] line_after(l, sent_script(bytes))).events =~= l.events + sent(bytes)
            &&& line_after(l, sent_script(bytes)).target == target
        } by {}
    } else {
        let front = bytes.drop_last();
        lemma_sent_puts(front, target);
        let ready = seq![wait_step(Wait::RoomToSend, Outcome::Ready)];
        let write = seq![Step::Write16 { addr: TXBUF, value: bytes.last() as u16 }];
        let event = seq![LineEvent::Sent(bytes.last() as int)];
        assert(wait_script(Wait::RoomToSend, Outcome::Ready) =~= ready);
        lemma_wait_puts(Wait::RoomToSend, Outcome::Ready, target);
        assert forall|l: Line| l.target == target implies {
            &&& (#[trigger] line_after(l, write)).events =~= l.events + event
            &&& line_after(l, write).target == target
        } by {
            lemma_line_step(l, write[0]);
        }
        let none = given_up(Outcome::Ready);
        lemma_puts_joins(sent_script(front), ready, target, sent(front), none);
        lemma_puts_joins(sent_script(front) + ready, write, target, sent(front) + none, event);
        assert(sent_script(front) + ready + write =~= sent_script(bytes)) by {
            let n = 2 * front.len() as int;
            assert(n % 2 == 0 && (n + 1) % 2 == 1 && (n + 1) / 2 == front.len());
            assert forall|i: int| 0 <= i < n implies sent_script(front)[i] == sent_script(
                bytes,
            )[i] by {
                assert(0 <= i / 2 < front.len());
            }
        }
        assert(sent(front) + none + event =~= sent(bytes));
    }
}

/// The look at the answer to an address puts nothing on the bus.
proof fn lemma_check_puts(refused: bool, target: u16)
    ensures
        puts(seq![address_check(refused)], target, Seq::empty()),
{
    assert forall|l: Line| l.target == target implies {
        &&& (#[trigger] line_after(l, seq![address_check(refused)])).events =~= l.events
            + Seq::empty()
        &&& line_after(l, seq![address_check(refused)]).target == target
    } by {
        lemma_line_step(l, address_check(refused));
    }
}

/// What a run that writes puts on the bus: one START that writes to the
/// address, then the bytes that were moved, in order and each once, and then, if
/// it is told to or was refused, one STOP. Where a wait was given up a reset is
/// the end.
pub proof fn lemma_write_on_line(bytes: Seq<u8>, send_stop: bool, end: RunEnd, target: u16)
    requires
        end.ends_write(bytes.len(), send_stop),
    ensures
        puts(
            write_script(bytes, end),
            target,
            seq![LineEvent::Start { address: target as int, read: false }] + match end {
                RunEnd::AddressStall(o) => given_up(o),
                RunEnd::AddressNack(o) => seq![LineEvent::Stop] + given_up(o),
                RunEnd::ByteStall { moved, at } => sent(bytes.take(moved as int)) + given_up(at),
                RunEnd::DataNack { moved, stop } => sent(bytes.take(moved as int)) + seq![
                    LineEvent::Stop,
                ] + given_up(stop),
                RunEnd::StopStall(_) => Seq::empty(),
                RunEnd::Done(None) => sent(bytes),
                RunEnd::Done(Some(o)) => sent(bytes) + seq![LineEvent::Stop] + given_up(o),
            },
        ),
{
    let start = seq![LineEvent::Start { address: target as int, read: false }];
    let none = given_up(Outcome::Ready);
    let addressed = start_script(false, Outcome::Ready);
    lemma_start_direction(false, Outcome::Ready, target);
    match end {
        RunEnd::AddressStall(o) => {
            lemma_start_direction(false, o, target);
        },
        RunEnd::AddressNack(o) => {
            lemma_check_puts(true, target);
            lemma_stop_puts(o, target);
            let check = seq![address_check(true)];
            lemma_puts_joins(addressed, check, target, start + none, Seq::empty());
            lemma_puts_joins(
                addressed + check,
                stop_script(o),
                target,
                start + none + Seq::empty(),
                seq![LineEvent::Stop] + given_up(o),
            );
            assert(start + none + Seq::empty() + (seq![LineEvent::Stop] + given_up(o)) =~= start + (
            seq![LineEvent::Stop] + given_up(o)));
        },
        RunEnd::StopStall(_) => {},
        _ => {
            let moved = end.moved(bytes.len()) as int;
            let part = bytes.take(moved);
            assert(moved == bytes.len() ==> part =~= bytes);
            let check = seq![address_check(false)];
            lemma_check_puts(false, target);
            lemma_sent_puts(part, target);
            lemma_puts_joins(addressed, check, target, start + none, Seq::empty());
            let e1 = start + none + Seq::empty();
            lemma_puts_joins(addressed + check, sent_script(part), target, e1, sent(part));
            let s2 = addressed + check + sent_script(part);
            let e2 = e1 + sent(part);
            match end {
                RunEnd::ByteStall { at, .. } => {
                    lemma_wait_puts(Wait::RoomToSend, at, target);
                    lemma_puts_joins(
                        s2,
                        wait_script(Wait::RoomToSend, at),
                        target,
                        e2,
                        given_up(at),
                    );
                    assert(e2 + given_up(at) =~= start + (sent(part) + given_up(at)));
                },
                RunEnd::DataNack { stop, .. } => {
                    let wait = wait_script(Wait::RoomToSend, Outcome::Failed);
                    let failed = given_up(Outcome::Failed);
                    lemma_wait_puts(Wait::RoomToSend, Outcome::Failed, target);
                    lemma_puts_joins(s2, wait, target, e2, failed);
                    lemma_stop_puts(stop, target);
                    lemma_puts_joins(
                        s2 + wait,
                        stop_script(stop),
                        target,
                        e2 + failed,
                        seq![LineEvent::Stop] + given_up(stop),
                    );
                    assert(e2 + failed + (seq![LineEvent::Stop] + given_up(stop)) =~= start + (sent(
                        part,
                    ) + seq![LineEvent::Stop] + given_up(stop)));
                },
                RunEnd::Done(stop) => {
                    let wait = wait_script(Wait::RoomToSend, Outcome::Ready);
                    lemma_wait_puts(Wait::RoomToSend, Outcome::Ready, target);
                    lemma_puts_joins(s2, wait, target, e2, none);
                    match stop {
                        None => {
                            assert(e2 + none =~= start + sent(bytes));
                        },
                        Some(o) => {
                            lemma_stop_puts(o, target);
                            lemma_puts_joins(
                                s2 + wait,
                                stop_script(o),
                                target,
                                e2 + none,
                                seq![LineEvent::Stop] + given_up(o),
                            );
                            assert(e2 + none + (seq![LineEvent::Stop] + given_up(o)) =~= start + (
                            sent(bytes) + seq![LineEvent::Stop] + given_up(o)));
                        },
                    }
                },
                _ => {},
            }
        },
    }
}

/// Received bytes with the STOP where it belongs: once all of `total` but the
/// last are in.
pub open spec fn got_with_stop(data: Seq<u8>, total: nat, send_stop: bool) -> Seq<LineEvent> {
    if send_stop && total > 0 && data.len() >= total - 1 {
        got(data.take(total - 1)) + seq![LineEvent::Stop] + got(data.skip(total - 1))
    } else {
        got(data)
    }
}

proof fn lemma_arrival_puts(byte: u8, target: u16)
    ensures
        puts(
            seq![
                wait_step(Wait::ByteArrived, Outcome::Ready),
                Step::Low8 { addr: RXBUF, value: byte },
            ],
            target,
            seq![LineEvent::Received(byte as int)],
        ),
{
    let steps = seq![
        wait_step(Wait::ByteArrived, Outcome::Ready),
        Step::Low8 { addr: RXBUF, value: byte },
    ];
    assert forall|l: Line| l.target == target implies {
        &&& (#[trigger] line_after(l, steps)).events =~= l.events + seq![
            LineEvent::Received(byte as int),
        ]
        &&& line_after(l, steps).target == target
    } by {
        let s1 = steps.drop_last();
        assert(steps.last() == (Step::Low8 { addr: RXBUF, value: byte }));
        assert(s1.last() == wait_step(Wait::ByteArrived, Outcome::Ready));
        assert(s1.drop_last() =~= Seq::empty());
        reveal_with_fuel(line_after, 3);
    }
}

/// The received bytes with the STOP that stands in front of the last of several.
proof fn lemma_received_puts(data: Seq<u8>, total: nat, send_stop: bool, target: u16)
    requires
        data.len() <= total,
    ensures
        puts(
            received_script(data, total, send_stop),
            target,
            if send_stop && total > 1 && data.len() == total {
                got(data.drop_last()) + seq![LineEvent::Stop] + got(seq![data.last()])
            } else {
                got(data)
            },
        ),
    decreases data.len(),
{
    if data.len() == 0 {
        assert forall|l: Line| l.target == target implies {
            &&& (#[trigger] line_after(l, received_script(data, total, send_stop))).events
                =~= l.events + got(data)
            &&& line_after(l, received_script(data, total, send_stop)).target == target
        } by {}
    } else {
        let front = data.drop_last();
        lemma_received_puts(front, total, send_stop, target);
        lemma_arrival_puts(data.last(), target);
        let early = stop_before(data.len() - 1, total, send_stop);
        let steps = seq![
            wait_step(Wait::ByteArrived, Outcome::Ready),
            Step::Low8 { addr: RXBUF, value: data.last() },
        ];
        let event = seq![LineEvent::Received(data.last() as int)];
        assert(got(seq![data.last()]) =~= event);
        let fs = received_script(front, total, send_stop);
        if send_stop && total > 1 && data.len() == total {
            lemma_stop_puts(Outcome::Ready, target);
            lemma_puts_joins(fs, early, target, got(front), seq![LineEvent::Stop]);
            lemma_puts_joins(
                fs + early,
                steps,
                target,
                got(front) + seq![LineEvent::Stop],
                event,
            );
        } else {
            assert(fs + early =~= fs);
            lemma_puts_joins(fs, steps, target, got(front), event);
            assert(got(front) + event =~= got(data));
        }
    }
}

/// What a run that reads puts on the bus: one START that reads from the address,
/// then the bytes that arrived, and, if it is told to, one STOP, which is
/// requested when all bytes but the last are in, so that the last is refused.
/// Where a wait was given up a reset is the end.
pub proof fn lemma_read_on_line(
    data: Seq<u8>,
    total: nat,
    send_stop: bool,
    end: RunEnd,
    target: u16,
)
    requires
        end.ends_read(total, send_stop),
        data.len() == end.moved(total),
    ensures
        puts(
            read_script(data, total, send_stop, end),
            target,
            seq![LineEvent::Start { address: target as int, read: true }] + match end {
                RunEnd::AddressStall(o) => given_up(o),
                RunEnd::AddressNack(o) => seq![LineEvent::Stop] + given_up(o),
                RunEnd::ByteStall { at, .. } => got_with_stop(data, total, send_stop) + given_up(at),
                RunEnd::DataNack { .. } => Seq::empty(),
                RunEnd::StopStall(o) => got_with_stop(data, total, send_stop) + (if total == 0 {
                    seq![LineEvent::Stop]
                } else {
                    Seq::empty()
                }) + given_up(o),
                RunEnd::Done(stop) => got_with_stop(data, total, send_stop) + (if total == 0
                    && send_stop {
                    seq![LineEvent::Stop]
                } else {
                    Seq::empty()
                }),
            },
        ),
{
    let start = seq![LineEvent::Start { address: target as int, read: true }];
    let none = given_up(Outcome::Ready);
    let addressed = start_script(true, Outcome::Ready);
    lemma_start_direction(true, Outcome::Ready, target);
    match end {
        RunEnd::AddressStall(o) => {
            lemma_start_direction(true, o, target);
        },
        RunEnd::AddressNack(o) => {
            lemma_check_puts(true, target);
            lemma_stop_puts(o, target);
            let check = seq![address_check(true)];
            lemma_puts_joins(addressed, check, target, start + none, Seq::empty());
            lemma_puts_joins(
                addressed + check,
                stop_script(o),
                target,
                start + none + Seq::empty(),
                seq![LineEvent::Stop] + given_up(o),
            );
            assert(start + none + Seq::empty() + (seq![LineEvent::Stop] + given_up(o)) =~= start + (
            seq![LineEvent::Stop] + given_up(o)));
        },
        RunEnd::DataNack { .. } => {},
        _ => {
            lemma_check_puts(false, target);
            let check = seq![address_check(false)];
            let single = send_stop && total == 1;
            let e0 = if single {
                start + seq![LineEvent::Stop]
            } else {
                start
            };
            lemma_puts_joins(addressed, check, target, start + none, Seq::empty());
            assert(start + none + Seq::empty() =~= start);
            lemma_stop_puts(Outcome::Ready, target);
            if single {
                lemma_puts_joins(
                    addressed + check,
                    seq![request_stop()],
                    target,
                    start,
                    seq![LineEvent::Stop],
                );
            } else {
                assert(read_opening(total, send_stop) =~= addressed + check);
            }
            let opening = read_opening(total, send_stop);
            let received = received_script(data, total, send_stop);
            lemma_received_puts(data, total, send_stop, target);
            let e1 = if send_stop && total > 1 && data.len() == total {
                got(data.drop_last()) + seq![LineEvent::Stop] + got(seq![data.last()])
            } else {
                got(data)
            };
            lemma_puts_joins(opening, received, target, e0, e1);
            let opened = opening + received;
            let e2 = e0 + e1;
            if total > 0 && data.len() == total {
                assert(data.take(total - 1) =~= data.drop_last());
                assert(data.skip(total - 1) =~= seq![data.last()]);
                if single {
                    assert(got(data.take(0)) =~= Seq::empty());
                    assert(data.skip(0) =~= data);
                }
                assert(e2 =~= start + got_with_stop(data, total, send_stop));
            }
            match end {
                RunEnd::ByteStall { moved, at } => {
                    let early = stop_before(moved as int, total, send_stop);
                    let wait = wait_script(Wait::ByteArrived, at);
                    lemma_wait_puts(Wait::ByteArrived, at, target);
                    if early.len() > 0 {
                        lemma_puts_joins(opened, early, target, e2, seq![LineEvent::Stop]);
                        lemma_puts_joins(
                            opened + early,
                            wait,
                            target,
                            e2 + seq![LineEvent::Stop],
                            given_up(at),
                        );
                        assert(data.take(total - 1) =~= data);
                        assert(data.skip(total - 1) =~= Seq::empty());
                        assert(got(Seq::<u8>::empty()) =~= Seq::empty());
                        assert(e2 + seq![LineEvent::Stop] + given_up(at) =~= start + (
                        got_with_stop(data, total, send_stop) + given_up(at)));
                    } else {
                        assert(opened + early =~= opened);
                        lemma_puts_joins(opened, wait, target, e2, given_up(at));
                        if single {
                            assert(data =~= Seq::empty());
                            assert(data.take(0) =~= data);
                            assert(data.skip(0) =~= data);
                        }
                        assert(e2 + given_up(at) =~= start + (got_with_stop(data, total, send_stop)
                            + given_up(at)));
                    }
                },
                RunEnd::StopStall(o) => {
                    lemma_read_closing(opened, data, total, send_stop, o, target, start, e2);
                },
                RunEnd::Done(Some(o)) => {
                    lemma_read_closing(opened, data, total, send_stop, o, target, start, e2);
                    let all = start + (got_with_stop(data, total, send_stop) + (if total == 0 {
                        seq![LineEvent::Stop]
                    } else {
                        Seq::empty()
                    }) + given_up(o));
                    assert(all =~= start + (got_with_stop(data, total, send_stop) + (if total == 0
                        && send_stop {
                        seq![LineEvent::Stop]
                    } else {
                        Seq::empty()
                    })));
                },
                _ => {
                    assert(e2 =~= start + (got_with_stop(data, total, send_stop) + (if total == 0
                        && send_stop {
                        seq![LineEvent::Stop]
                    } else {
                        Seq::empty()
                    })));
                },
            }
        },
    }
}

proof fn lemma_read_closing(
    opened: Seq<Step>,
    data: Seq<u8>,
    total: nat,
    send_stop: bool,
    o: Outcome,
    target: u16,
    start: Seq<LineEvent>,
    e2: Seq<LineEvent>,
)
    requires
        data.len() == total,
        puts(opened, target, e2),
        total > 0 ==> e2 =~= start + got_with_stop(data, total, send_stop),
        total == 0 ==> e2 =~= start + got(data),
    ensures
        puts(
            opened + read_closing(total, o),
            target,
            start + (got_with_stop(data, total, send_stop) + (if total == 0 {
                seq![LineEvent::Stop]
            } else {
                Seq::empty()
            }) + given_up(o)),
        ),
{
    let wait = wait_script(Wait::StopSent, o);
    lemma_wait_puts(Wait::StopSent, o, target);
    if total == 0 {
        lemma_stop_puts(Outcome::Ready, target);
        lemma_puts_joins(
            seq![request_stop()],
            wait,
            target,
            seq![LineEvent::Stop],
            given_up(o),
        );
        lemma_puts_joins(
            opened,
            read_closing(total, o),
            target,
            e2,
            seq![LineEvent::Stop] + given_up(o),
        );
        assert(e2 + (seq![LineEvent::Stop] + given_up(o)) =~= start + (got_with_stop(
            data,
            total,
            send_stop,
        ) + seq![LineEvent::Stop] + given_up(o)));
    } else {
        assert(read_closing(total, o) =~= wait);
        lemma_puts_joins(opened, wait, target, e2, given_up(o));
        assert(e2 + given_up(o) =~= start + (got_with_stop(data, total, send_stop)
            + Seq::<LineEvent>::empty() + given_up(o)));
    }
}

/// The bytes of an operation as they go over the bus.
pub open spec fn moved_over(op: Operation) -> Seq<LineEvent> {
    match op {
        Operation::Read(buffer) => got(buffer@),
        Operation::Write(bytes) => sent(bytes@),
    }
}

/// The first `n` operations on the bus, one after the other and without a STOP:
/// a START in front of the first and of each that goes the other way than the one
/// before it, and the bytes of each.
pub open spec fn on_bus(address: int, ops: Seq<Operation>, n: int) -> Seq<LineEvent>
    decreases n,
{
    if n <= 0 {
        Seq::empty()
    } else {
        on_bus(address, ops, n - 1) + (if n == 1 || (ops[n - 2] is Read) != (ops[n - 1] is Read) {
            seq![LineEvent::Start { address, read: ops[n - 1] is Read }]
        } else {
            Seq::empty()
        }) + moved_over(ops[n - 1])
    }
}

/// The STOP at its place: in front of a received byte that would be the last
/// event, and otherwise at the end, where the wait for it may be given up.
pub open spec fn with_stop(events: Seq<LineEvent>, outcome: Outcome) -> Seq<LineEvent> {
    if events.len() > 0 && events.last() is Received {
        events.drop_last() + seq![LineEvent::Stop, events.last()]
    } else {
        events + seq![LineEvent::Stop] + given_up(outcome)
    }
}

proof fn lemma_run_turns(ops: Seq<Operation>, from: int)
    requires
        0 <= from < ops.len(),
        run_end(ops, from) < ops.len(),
    ensures
        (ops[run_end(ops, from)] is Read) != (ops[from] is Read),
    decreases ops.len() - from,
{
    if !(from + 1 >= ops.len() || (ops[from + 1] is Read) != (ops[from] is Read)) {
        lemma_run_turns(ops, from + 1);
    }
}

/// The operations of one run on the bus: one START and their bytes joined.
proof fn lemma_run_on_bus(address: int, ops: Seq<Operation>, from: int, to: int)
    requires
        0 <= from < to <= ops.len(),
        forall|i: int| from <= i < to ==> ((#[trigger] ops[i]) is Read) == (ops[from] is Read),
        from > 0 ==> (ops[from - 1] is Read) != (ops[from] is Read),
    ensures
        ({
            let joined = flat(ops.subrange(from, to));
            on_bus(address, ops, to) =~= on_bus(address, ops, from) + seq![
                LineEvent::Start { address, read: ops[from] is Read },
            ] + if ops[from] is Read {
                got(joined)
            } else {
                sent(joined)
            }
        }),
    decreases to,
{
    let part = ops.subrange(from, to);
    assert(part.drop_last() =~= ops.subrange(from, to - 1));
    assert(part.last() == ops[to - 1]);
    let joined = flat(part);
    let front = flat(ops.subrange(from, to - 1));
    assert(joined =~= front + ops[to - 1].bytes());
    if to == from + 1 {
        assert(ops.subrange(from, to - 1) =~= Seq::empty());
        assert(joined =~= ops[from].bytes());
    } else {
        lemma_run_on_bus(address, ops, from, to - 1);
        assert((ops[to - 2] is Read) == (ops[to - 1] is Read));
        if ops[from] is Read {
            assert(got(joined) =~= got(front) + got(ops[to - 1].bytes()));
        } else {
            assert(sent(joined) =~= sent(front) + sent(ops[to - 1].bytes()));
        }
    }
}

/// Completed runs on the bus.
#[verifier::rlimit(60)]
#[verifier::spinoff_prover]
proof fn lemma_runs_on_bus(
    before: Seq<Operation>,
    after: Seq<Operation>,
    ends: Seq<RunEnd>,
    target: u16,
)
    requires
        before.len() > 0,
        after.len() == before.len(),
        forall|k: int|
            0 <= k < ends.len() ==> {
                &&& run_from(before, k as nat) < before.len()
                &&& run_fits(before, after, run_from(before, k as nat), #[trigger] ends[k])
                &&& ends[k] is Done
            },
    ensures
        ({
            let n = run_from(before, ends.len());
            let events = on_bus(target as int, after, n);
            &&& 0 <= n <= before.len()
            &&& forall|i: int|
                0 <= i < n ==> ((#[trigger] after[i]) is Read) == (before[i] is Read)
            &&& n > 0 && n < before.len() ==> (before[n - 1] is Read) != (before[n] is Read)
            &&& n < before.len() ==> puts(runs_script(before, after, ends), target, events)
            &&& n == before.len() ==> ends.last() == RunEnd::Done(
                Some(ends.last()->Done_0->0),
            ) && puts(
                runs_script(before, after, ends),
                target,
                with_stop(events, ends.last()->Done_0->0),
            )
        }),
    decreases ends.len(),
{
    if ends.len() == 0 {
        assert forall|l: Line| l.target == target implies {
            &&& (#[trigger] line_after(l, runs_script(before, after, ends))).events =~= l.events
                + on_bus(target as int, after, 0)
            &&& line_after(l, runs_script(before, after, ends)).target == target
        } by {}
    } else {
        let shorter = ends.drop_last();
        let k = ends.len() - 1;
        let end = ends[k];
        let from = run_from(before, k as nat);
        let to = run_end(before, from);
        assert forall|j: int| 0 <= j < shorter.len() implies {
            &&& run_from(before, j as nat) < before.len()
            &&& run_fits(before, after, run_from(before, j as nat), #[trigger] shorter[j])
            &&& shorter[j] is Done
        } by {
            assert(shorter[j] == ends[j]);
        }
        lemma_runs_on_bus(before, after, shorter, target);
        assert(run_from(before, ends.len()) == to);
        lemma_run_end(before, from);
        if to < before.len() {
            lemma_run_turns(before, from);
        }
        let was = run_of(before, before, from);
        let is = run_of(before, after, from);
        assert forall|i: int| from <= i < to implies ((#[trigger] after[i]) is Read) == (
        before[i] is Read) by {
            if before[from] is Read {
                assert(before[i] is Read);
            } else {
                assert(was[i - from] == before[i]);
                assert(is[i - from] == after[i]);
            }
        }
        assert(before[to - 1] is Read == before[from] is Read);
        if from > 0 {
            assert(after[from - 1] is Read == before[from - 1] is Read);
        }
        assert forall|i: int| from <= i < to implies ((#[trigger] after[i]) is Read) == (
        after[from] is Read) by {
            assert((before[i] is Read) == (before[from] is Read));
        }
        lemma_run_on_bus(target as int, after, from, to);
        let head = on_bus(target as int, after, from);
        let start = seq![LineEvent::Start { address: target as int, read: after[from] is Read }];
        let wanted = flat(was);
        let joined = flat(is);
        let last = to == before.len();
        let run = run_script(before, after, from, end);
        let earlier = runs_script(before, after, shorter);
        if before[from] is Read {
            let data = joined.take(wanted.len() as int);
            assert(data =~= joined);
            lemma_read_on_line(data, wanted.len(), last, end, target);
            let tail = got_with_stop(data, wanted.len(), last) + (if wanted.len() == 0 && last {
                seq![LineEvent::Stop]
            } else {
                Seq::empty()
            });
            lemma_puts_joins(earlier, run, target, head, start + tail);
            let all = head + start + got(joined);
            if last {
                let o = end->Done_0->0;
                if wanted.len() == 0 {
                    assert(all =~= head + start);
                    assert(all.last() == start[0]);
                } else {
                    let total = wanted.len();
                    assert(got(joined.take(total - 1)) =~= got(joined).drop_last());
                    assert(got(joined.skip(total - 1)) =~= seq![got(joined).last()]);
                    assert(all.last() == got(joined).last());
                    assert(all.drop_last() =~= head + start + got(joined).drop_last());
                }
                assert(head + (start + tail) =~= with_stop(all, o));
            } else {
                assert(head + (start + tail) =~= all);
            }
        } else {
            assert(is == was);
            lemma_write_on_line(wanted, last, end, target);
            let all = head + start + sent(joined);
            match end {
                RunEnd::Done(None) => {
                    lemma_puts_joins(earlier, run, target, head, start + sent(wanted));
                    assert(head + (start + sent(wanted)) =~= all);
                },
                RunEnd::Done(Some(o)) => {
                    let tail = sent(wanted) + seq![LineEvent::Stop] + given_up(o);
                    lemma_puts_joins(earlier, run, target, head, start + tail);
                    assert(all.last() is Sent || all.last() is Start) by {
                        if wanted.len() == 0 {
                            assert(all =~= head + start);
                        } else {
                            assert(all.last() == sent(wanted).last());
                        }
                    }
                    assert(head + (start + tail) =~= with_stop(all, o));
                },
                _ => {},
            }
        }
    }
}

/// What a transaction that succeeds puts on the bus, whatever the registers held
/// before: the operations in order, against the address, with a START in front of
/// the first and wherever the direction turns, every byte once, and one STOP, in
/// front of the last byte if that one is read and at the end otherwise. What was
/// read is what the buffers then hold.
pub proof fn lemma_transaction_on_line(
    l: Line,
    address: u8,
    before: Seq<Operation>,
    after: Seq<Operation>,
    idle: Outcome,
    ends: Seq<RunEnd>,
)
    requires
        before.len() > 0,
        transaction_result(before, after, idle, ends, Ok(())),
    ensures
        exists|o: Outcome|
            line_after(
                l,
                opening_script(address, idle) + runs_script(before, after, ends),
            ).events =~= l.events + #[trigger] with_stop(
                on_bus(address as int, after, before.len() as int),
                o,
            ),
{
    assert forall|k: int| 0 <= k < ends.len() implies {
        &&& run_from(before, k as nat) < before.len()
        &&& run_fits(before, after, run_from(before, k as nat), #[trigger] ends[k])
        &&& ends[k] is Done
    } by {
        assert(ends.last() is Done);
    }
    lemma_runs_on_bus(before, after, ends, address as u16);
    let o = ends.last()->Done_0->0;
    lemma_opening_on_line(l, address, idle);
    let opened = line_after(l, opening_script(address, idle));
    lemma_line_joins(l, opening_script(address, idle), runs_script(before, after, ends));
    assert(line_after(opened, runs_script(before, after, ends)).events =~= opened.events + with_stop(
        on_bus(address as int, after, before.len() as int),
        o,
    ));
}

/// The opening of a transaction sets the address and puts nothing on the bus but
/// the reset that ends a wait which was given up.
pub proof fn lemma_opening_on_line(l: Line, address: u8, idle: Outcome)
    ensures
        line_after(l, opening_script(address, idle)).target == address,
        line_after(l, opening_script(address, idle)).events =~= l.events + given_up(idle),
{
    let write = Step::Write16 { addr: I2CSA, value: address as u16 };
    lemma_line_joins(l, seq![write], wait_script(Wait::StopSent, idle));
    lemma_line_step(l, write);
    lemma_wait_puts(Wait::StopSent, idle, address as u16);
    let mid = line_after(l, seq![write]);
    assert(line_after(mid, wait_script(Wait::StopSent, idle)).events =~= mid.events + given_up(
        idle,
    ));
}

/// A probe puts the address on the bus as a write of no bytes, and tells whether
/// it was acknowledged.
pub proof fn lemma_probe_on_line(l: Line, address: u8, end: RunEnd, found: bool)
    requires
        probe_result(Outcome::Ready, end, found),
        found,
    ensures
        exists|o: Outcome|
            line_after(l, probe_script(address, Outcome::Ready, end)).events =~= l.events + seq![
                LineEvent::Start { address: address as int, read: false },
                LineEvent::Stop,
            ] + #[trigger] given_up(o),
{
    lemma_opening_on_line(l, address, Outcome::Ready);
    lemma_write_on_line(Seq::empty(), true, end, address as u16);
    let opening = opening_script(address, Outcome::Ready);
    let write = write_script(Seq::empty(), end);
    lemma_line_joins(l, opening, write);
    let mid = line_after(l, opening);
    let o = end->Done_0->0;
    assert(sent(Seq::<u8>::empty()) =~= Seq::empty());
    let events = line_after(mid, write).events;
    assert(events =~= l.events + seq![
        LineEvent::Start { address: address as int, read: false },
        LineEvent::Stop,
    ] + given_up(o));
}

/// Each byte that a run sends waits for room, which is bit 1 of the flags at
/// 0x066C, and fails on bit 5, a refusal; the address and the STOP wait for their
/// request bits, 1 and 2 of the control register at 0x0640, to clear; a byte is
/// there when bit 0 of the flags is set. Bit 7 of the flags, a clock held low,
/// ends every wait.
pub proof fn lemma_waits(wait: Wait, outcome: Outcome)
    ensures
        wait_step(wait, outcome) matches Step::Guard16 { addr, fail, done, watch, trip, .. } && {
            &&& watch == 0x066C
            &&& trip == (Cond::Bits { mask: 0x80, want: 0x80 })
            &&& match wait {
                Wait::AddressSent => addr == 0x0640 && done == (Cond::Bits { mask: 2, want: 0 }),
                Wait::StopSent => addr == 0x0640 && done == (Cond::Bits { mask: 4, want: 0 }),
                Wait::RoomToSend => addr == 0x066C && done == (Cond::Bits { mask: 2, want: 2 }),
                Wait::ByteArrived => addr == 0x066C && done == (Cond::Bits { mask: 1, want: 1 }),
            }
            &&& fail == if wait is RoomToSend {
                Cond::Bits { mask: 0x20, want: 0x20 }
            } else {
                Cond::Never
            }
        },
{
}

/// The clock of the master: the prescaler at 0x0646 divides SMCLK so that no
/// other whole divider brings the clock period nearer to the wanted one, as far
/// as the register can hold it.
pub proof fn lemma_nearest_divider(config: Config, other: int)
    requires
        config.scl_freq > 0,
        1 <= other <= 0xFFFF,
    ensures
        1 <= config.divider() <= 0xFFFF,
        ({
            let miss = config.clock_freq as int - config.divider() * config.scl_freq;
            let miss_other = config.clock_freq as int - other * config.scl_freq;
            (if miss < 0 {
                -miss
            } else {
                miss
            }) <= if miss_other < 0 {
                -miss_other
            } else {
                miss_other
            }
        }),
{
    let c = config.clock_freq as int;
    let s = config.scl_freq as int;
    let q = rounded_quotient(c, s);
    assert(2 * s * q <= 2 * c + s && 2 * c + s < 2 * s * q + 2 * s && q >= 0) by (nonlinear_arith)
        requires
            q == (2 * c + s) / (2 * s),
            s > 0,
            c >= 0,
    ;
    let d = config.divider();
    assert(s * q == q * s && 2 * s * q == 2 * (q * s)) by (nonlinear_arith);
    if other < d {
        assert(other * s <= d * s - s) by (nonlinear_arith)
            requires
                other + 1 <= d,
                s > 0,
        ;
        assert(d * s <= q * s || d == 1) by (nonlinear_arith)
            requires
                d <= q || d == 1,
                s > 0,
        ;
    } else if other > d {
        assert(other * s >= d * s + s) by (nonlinear_arith)
            requires
                other >= d + 1,
                s > 0,
        ;
        assert(d * s >= q * s) by (nonlinear_arith)
            requires
                d >= q,
                s > 0,
        ;
    }
}

/// What the registers hold once the module is a master: released from reset,
/// synchronous, in I2C mode (3 in bits 10:9), master, clocked by SMCLK, with the
/// longest clock-low timeout, and with select bits 10 on both pins (P1.6 and
/// P1.7) and on no other.
pub proof fn lemma_master_registers(m: Memory, config: Config)
    ensures
        ({
            let after = crate::memory::memory_after(m, master_script(config));
            &&& crate::memory::word_in(after, 0x0640) == 0x0100 + 3 * 0x0200 + 0x0800 + 2 * 0x0040
            &&& crate::memory::word_in(after, 0x0642) == 0x0040
            &&& crate::memory::word_in(after, 0x0646) == config.divider()
            &&& after(0x020C) == m(0x020C) | 0xC0
            &&& after(0x020A) == m(0x020A) & 0x3F
            &&& master_script(config)[0] matches Step::Write16 { addr, value }
            &&& addr == 0x0640
            &&& value % 2 == 1
        }),
{
    assert(UCSWRST | UCSYNC | UCMODE_I2C | UCMST | UCSSEL_SMCLK == 0x0F81 && 0x0F81u16 & !1u16
        == 0x0F80) by (bit_vector);
    lemma_pins_taken(m, 0x0F81, 0x0040, 0x0646, config.divider() as u16, 0x0F80);
}

proof fn lemma_pins_taken(m: Memory, held: u16, second: u16, at: u32, third: u16, word: u16)
    requires
        at == 0x0646 || at == 0x0654,
    ensures
        ({
            let script = seq![
                Step::Write16 { addr: 0x0640, value: held },
                Step::Write16 { addr: 0x0642, value: second },
                Step::Write16 { addr: at, value: third },
                Step::Edit8 { addr: 0x020C, clear: 0, set: 0xC0 },
                Step::Edit8 { addr: 0x020A, clear: 0xC0, set: 0 },
                Step::Write16 { addr: 0x0640, value: word },
            ];
            let after = crate::memory::memory_after(m, script);
            &&& crate::memory::word_in(after, 0x0640) == word
            &&& crate::memory::word_in(after, 0x0642) == second
            &&& crate::memory::word_in(after, at as int) == third
            &&& after(0x020C) == m(0x020C) | 0xC0
            &&& after(0x020A) == m(0x020A) & 0x3F
        }),
{
    broadcast use crate::memory::group_memory;

    let script = seq![
        Step::Write16 { addr: 0x0640, value: held },
        Step::Write16 { addr: 0x0642, value: second },
        Step::Write16 { addr: at, value: third },
        Step::Edit8 { addr: 0x020C, clear: 0, set: 0xC0 },
        Step::Edit8 { addr: 0x020A, clear: 0xC0, set: 0 },
        Step::Write16 { addr: 0x0640, value: word },
    ];
    crate::memory::lemma_memory_at(m, script);
    reveal_with_fuel(crate::memory::memory_at, 7);
    let p = m(0x020C);
    let q = m(0x020A);
    assert((p & !0u8) | 0xC0 == p | 0xC0 && (q & !0xC0u8) | 0 == q & 0x3F) by (bit_vector);
    let m1 = crate::memory::put16(m, 0x0640, held);
    let m2 = crate::memory::put16(m1, 0x0642, second);
    let m3 = crate::memory::put16(m2, at as int, third);
    assert(crate::memory::word_in(m2, 0x0642) == second);
    assert(crate::memory::word_in(m3, 0x0642) == second);
    assert(crate::memory::word_in(m3, at as int) == third);
    assert(m3(0x020C) == p && m3(0x020A) == q);
}

/// What the registers hold once the module is a slave: released from reset,
/// synchronous, in I2C mode, not a master, without a timeout, and listening to
/// the address word.
pub proof fn lemma_slave_registers(m: Memory, own: u16)
    ensures
        ({
            let after = crate::memory::memory_after(m, slave_script(own));
            &&& crate::memory::word_in(after, 0x0640) == 0x0100 + 3 * 0x0200
            &&& crate::memory::word_in(after, 0x0642) == 0
            &&& crate::memory::word_in(after, 0x0654) == own
            &&& after(0x020C) == m(0x020C) | 0xC0
            &&& after(0x020A) == m(0x020A) & 0x3F
            &&& slave_script(own)[0] matches Step::Write16 { addr, value }
            &&& addr == 0x0640
            &&& value % 2 == 1
        }),
{
    assert(UCSWRST | UCSYNC | UCMODE_I2C == 0x0701 && 0x0701u16 & !1u16 == 0x0700) by (bit_vector);
    lemma_pins_taken(m, 0x0701, 0, 0x0654, own, 0x0700);
}

/// What the bits of the slave's flags call for: bit 0 a byte, else bit 3 a STOP,
/// else bit 2 a START, else, while it transmits, bit 1 a request.
pub proof fn lemma_flags_told(ifg: u16, transmitting: bool, event: Option<SlaveEvent>)
    requires
        reports(pending(ifg, transmitting), event),
    ensures
        (event matches Some(SlaveEvent::Received(_))) == (ifg % 2 == 1),
        (event == Some(SlaveEvent::Stop)) == (ifg % 2 == 0 && ifg / 8 % 2 == 1),
        (event matches Some(SlaveEvent::Start { .. })) == (ifg % 2 == 0 && ifg / 8 % 2 == 0 && ifg
            / 4 % 2 == 1),
        (event == Some(SlaveEvent::TxRequest)) == (ifg % 2 == 0 && ifg / 8 % 2 == 0 && ifg / 4 % 2
            == 0 && transmitting && ifg / 2 % 2 == 1),
{
    assert((ifg & 1 != 0) == (ifg % 2 == 1) && (ifg & 8 != 0) == (ifg / 8 % 2 == 1) && (ifg & 4 != 0)
        == (ifg / 4 % 2 == 1) && (ifg & 2 != 0) == (ifg / 2 % 2 == 1)) by (bit_vector);
}

/// Where the registers lie, and which bits and values they have.
pub proof fn lemma_layout()
    ensures
        CTLW0 == 0x0640,
        CTLW1 == 0x0642,
        BRW == 0x0646,
        STATW == 0x0648,
        RXBUF == 0x064C,
        TXBUF == 0x064E,
        I2COA0 == 0x0654,
        I2CSA == 0x0660,
        IE == 0x066A,
        IFG == 0x066C,
        IV == 0x066E,
        P1IN == 0x0200,
        P1OUT == 0x0202,
        P1DIR == 0x0204,
        P1REN == 0x0206,
        P1SEL0 == 0x020A,
        P1SEL1 == 0x020C,
        UCSWRST == 1,
        UCTXSTT == 2,
        UCTXSTP == 4,
        UCTXNACK == 8,
        UCTR == 16,
        UCSSEL_SMCLK == 128,
        UCSYNC == 0x0100,
        UCMODE_I2C == 0x0600,
        UCMST == 0x0800,
        UCCLTO_28MS == 64,
        UCBBUSY == 16,
        UCGC == 32,
        UCRXIFG == 1,
        UCTXIFG == 2,
        UCSTTIFG == 4,
        UCSTPIFG == 8,
        UCNACKIFG == 32,
        UCCLTOIFG == 128,
        TIMEOUT_BUDGET == 2000,
        P1_SDA == 64,
        P1_SCL == 128,
        P1_I2C_PINS == 192,
        HALF_CLOCK == 100,
{
}

/// Before a bus clear both lines, P1.6 (data) and P1.7 (clock), are plain port
/// pins, data an input that is pulled up and clock an output at the high level,
/// and no other pin has changed.
pub proof fn lemma_lines_taken(m: Memory)
    ensures
        ({
            let after = crate::memory::memory_after(m, take_lines_script());
            &&& after(0x020C) == m(0x020C) & 0x3F
            &&& after(0x020A) == m(0x020A) & 0x3F
            &&& after(0x0204) == (m(0x0204) & 0xBF) | 0x80
            &&& after(0x0202) == m(0x0202) | 0xC0
            &&& after(0x0206) == m(0x0206) | 0x40
        }),
{
    let script = take_lines_script();
    crate::memory::lemma_memory_at(m, script);
    reveal_with_fuel(crate::memory::memory_at, 9);
    let a = m(0x020C);
    let b = m(0x020A);
    let c = m(0x0204);
    let d = m(0x0202);
    let e = m(0x0206);
    assert((a & !0xC0u8) | 0 == a & 0x3F && (b & !0xC0u8) | 0 == b & 0x3F && (((c & !0x40u8) | 0)
        & !0u8) | 0x80 == (c & 0xBF) | 0x80 && (((d & !0u8) | 0x40) & !0u8) | 0x80 == d | 0xC0 && (e
        & !0u8) | 0x40 == e | 0x40) by (bit_vector);
}

/// A clock of a bus clear takes the clock line low and then high, each for as
/// long as 100 looks at the port, and then looks at the data line.
pub proof fn lemma_clock_pulse(m: Memory, high: bool)
    ensures
        ({
            let script = clock_script(high);
            let low = crate::memory::memory_at(m, script, 1);
            let up = crate::memory::memory_at(m, script, 3);
            &&& low(0x0202) == m(0x0202) & 0x7F
            &&& up(0x0202) == m(0x0202) | 0x80
            &&& script[1] == (Step::Dwell8 { addr: 0x0200, times: 100 })
            &&& script[3] == (Step::Dwell8 { addr: 0x0200, times: 100 })
            &&& script[4] == (Step::Test8 { addr: 0x0200, mask: 0x40, any: high })
            &&& script.len() == 5
        }),
{
    reveal_with_fuel(crate::memory::memory_at, 4);
    let v = m(0x0202);
    assert((v & !0x80u8) | 0 == v & 0x7F && (((v & !0x80u8) | 0) & !0u8) | 0x80 == v | 0x80) by (
    bit_vector);
}

/// A bus clear gives as many clocks as it takes, nine at the most and none where
/// the data line is free, and leaves both lines to the module: neither driven nor
/// pulled.
pub proof fn lemma_bus_clear_steps(clocks: nat, free: bool)
    requires
        bus_clear_ends(clocks, free),
    ensures
        ({
            let script = bus_clear_script(clocks, free);
            let n = script.len() as int;
            &&& n == 8 + 1 + 5 * clocks + 2
            &&& clocks <= 9
            &&& !free ==> clocks == 9
            &&& clocks == 0 ==> free
            &&& script[8] == (Step::Test8 { addr: 0x0200, mask: 0x40, any: clocks == 0 })
            &&& clocks > 0 ==> script[n - 3] == (Step::Test8 {
                addr: 0x0200,
                mask: 0x40,
                any: free,
            })
            &&& script[n - 2] == (Step::Edit8 { addr: 0x0204, clear: 0xC0, set: 0 })
            &&& script[n - 1] == (Step::Edit8 { addr: 0x0206, clear: 0xC0, set: 0 })
        }),
{
    if clocks > 0 {
        lemma_futile_length((clocks - 1) as nat);
        let body = futile_clocks((clocks - 1) as nat) + clock_script(free);
        assert(body[body.len() - 1] == data_line(free));
    }
}

proof fn lemma_futile_length(n: nat)
    ensures
        futile_clocks(n).len() == 5 * n,
    decreases n,
{
    if n > 0 {
        lemma_futile_length((n - 1) as nat);
    }
}

/// The interrupts of a slave by their bits: 0 for a byte, 1 for a request, 2 for a
/// START, 3 for a STOP.
pub proof fn lemma_interrupt_bits(which: SlaveInterrupts)
    ensures
        which.mask() == (if which.rx {
            1int
        } else {
            0
        }) + (if which.tx {
            2int
        } else {
            0
        }) + (if which.start {
            4int
        } else {
            0
        }) + (if which.stop {
            8int
        } else {
            0
        }),
{
    let (a, b, c, d) = (which.start, which.stop, which.rx, which.tx);
    assert(((if a {
        4u16
    } else {
        0
    }) | (if b {
        8u16
    } else {
        0
    }) | (if c {
        1u16
    } else {
        0
    }) | (if d {
        2u16
    } else {
        0
    })) == (if c {
        1u16
    } else {
        0u16
    }) + (if d {
        2u16
    } else {
        0u16
    }) + (if a {
        4u16
    } else {
        0u16
    }) + (if b {
        8u16
    } else {
        0u16
    })) by (bit_vector);
}

/// Whether a slave transmits after some events.
pub open spec fn transmits(events: Seq<SlaveEvent>) -> bool
    decreases events.len(),
{
    if events.len() == 0 {
        false
    } else {
        transmits_after(transmits(events.drop_last()), Some(events.last()))
    }
}

/// A slave transmits from a START that reads on, until the next START or STOP,
/// whatever comes in between.
pub proof fn lemma_transmits_since_start(events: Seq<SlaveEvent>, i: int)
    requires
        0 <= i < events.len(),
        forall|j: int| i < j < events.len() ==> !((#[trigger] events[j]) is Start || events[j] is Stop),
    ensures
        events[i] == (SlaveEvent::Start { read: true }) ==> transmits(events),
        events[i] == (SlaveEvent::Start { read: false }) ==> !transmits(events),
        events[i] == SlaveEvent::Stop ==> !transmits(events),
    decreases events.len(),
{
    if i < events.len() - 1 {
        let front = events.drop_last();
        assert(events.last() == events[events.len() - 1]);
        lemma_transmits_since_start(front, i);
    }
}

/// A poll reads the flags at 0x066C; a byte is taken from 0x064C, a START or STOP
/// is acknowledged by clearing its flag (bit 2 or 3), and the direction of a START
/// is bit 4 of the control register at 0x0640.
pub proof fn lemma_poll_steps(
    ifg: u16,
    transmitting: bool,
    empty: bool,
    ie: u16,
    event: Option<SlaveEvent>,
)
    ensures
        ({
            let script = poll_script(ifg, transmitting, empty, ie, event);
            &&& script[0] == (Step::Read16 { addr: 0x066C, value: ifg })
            &&& event matches Some(SlaveEvent::Received(byte)) ==> script =~= seq![
                script[0],
                Step::Low8 { addr: 0x064C, value: byte },
            ]
            &&& event matches Some(SlaveEvent::Start { read }) ==> script =~= seq![
                script[0],
                Step::Edit16 { addr: 0x066C, clear: 4, set: 0 },
                Step::Test16 {
                    addr: 0x0640,
                    cond: Cond::Bits { mask: 16, want: 16 },
                    holds: read,
                },
            ]
            &&& event == Some(SlaveEvent::Stop) ==> script[1] == (Step::Edit16 {
                addr: 0x066C,
                clear: 8,
                set: 0,
            })
            &&& event == Some(SlaveEvent::Stop) && transmitting ==> script[2] == (Step::Test16 {
                addr: 0x066C,
                cond: Cond::Bits { mask: 2, want: 2 },
                holds: empty,
            })
            &&& event == Some(SlaveEvent::Stop) && transmitting && !empty ==> script.skip(3)
                =~= seq![
                Step::Read16 { addr: 0x066A, value: ie },
                Step::Edit16 { addr: 0x0640, clear: 0, set: 1 },
                Step::Edit16 { addr: 0x0640, clear: 1, set: 0 },
                Step::Write16 { addr: 0x066A, value: ie },
            ]
            &&& event == Some(SlaveEvent::TxRequest) || event is None ==> script.len() == 1
        }),
{
}

/// A step may come right after `before`: a byte is written only when there was
/// seen to be room for it (bit 1 of the flags at 0x066C, and no refusal in bit 5),
/// and read only when one was seen to be there (bit 0); a START is waited for
/// until its bit clears (bit 1 of the control register at 0x0640), and then the
/// refusal flag is looked at; a STOP is requested when all that was written is
/// out or refused, when the address was answered, or after a byte was read.
pub open spec fn in_turn(before: Option<Step>, step: Step) -> bool {
    match step {
        Step::Write16 { addr, .. } => addr == 0x064E ==> waited(before, 0x066C, 2, 2),
        Step::Low8 { addr, .. } => addr == 0x064C ==> waited(before, 0x066C, 1, 1),
        Step::Test16 { addr, .. } => addr == 0x066C ==> waited(before, 0x0640, 2, 0),
        Step::Guard16 { addr, done, .. } => addr == 0x0640 && done == (Cond::Bits {
            mask: 2,
            want: 0,
        }) ==> match before {
            Some(Step::Edit16 { addr: at, set, .. }) => at == 0x0640 && (set == 2 || set == 0x10u16
                | 2u16),
            _ => false,
        },
        Step::Edit16 { addr, set, .. } => addr == 0x0640 && set == 4 ==> match before {
            Some(Step::Guard16 { addr: at, done, outcome, .. }) => at == 0x066C && done == (
            Cond::Bits { mask: 2, want: 2 }) && (outcome == Outcome::Ready || outcome
                == Outcome::Failed),
            Some(Step::Test16 { addr: at, cond, .. }) => at == 0x066C && cond == (Cond::Bits {
                mask: 32,
                want: 32,
            }),
            Some(Step::Low8 { addr: at, .. }) => at == 0x064C,
            _ => false,
        },
        _ => true,
    }
}

/// The step before was a wait for the bits of `mask` at `at` to be `want`, which
/// they were.
pub open spec fn waited(before: Option<Step>, at: u32, mask: u16, want: u16) -> bool {
    match before {
        Some(Step::Guard16 { addr, done, outcome, .. }) => {
            &&& addr == at
            &&& done == (Cond::Bits { mask, want })
            &&& outcome == Outcome::Ready
        },
        _ => false,
    }
}

/// Every step of a script comes in turn, where `before` came before it.
pub open spec fn paced(before: Option<Step>, script: Seq<Step>) -> bool
    decreases script.len(),
{
    script.len() > 0 ==> {
        &&& paced(before, script.drop_last())
        &&& in_turn(last_of(before, script.drop_last()), script.last())
    }
}

/// The last of some steps, or what came before them.
pub open spec fn last_of(before: Option<Step>, script: Seq<Step>) -> Option<Step> {
    if script.len() == 0 {
        before
    } else {
        Some(script.last())
    }
}

proof fn lemma_paced_joins(before: Option<Step>, a: Seq<Step>, b: Seq<Step>)
    requires
        paced(before, a),
        paced(last_of(before, a), b),
    ensures
        paced(before, a + b),
        last_of(before, a + b) == last_of(last_of(before, a), b),
    decreases b.len(),
{
    if b.len() == 0 {
        assert(a + b =~= a);
    } else {
        lemma_paced_joins(before, a, b.drop_last());
        assert((a + b).drop_last() =~= a + b.drop_last());
        assert((a + b).last() == b.last());
    }
}

proof fn lemma_paced_step(before: Option<Step>, script: Seq<Step>, step: Step)
    requires
        paced(before, script),
        in_turn(last_of(before, script), step),
    ensures
        paced(before, script.push(step)),
        last_of(before, script.push(step)) == Some(step),
{
    assert(script.push(step).drop_last() =~= script);
}

proof fn lemma_wait_paced(before: Option<Step>, wait: Wait, o: Outcome)
    requires
        in_turn(before, wait_step(wait, o)),
    ensures
        paced(before, wait_script(wait, o)),
        !timed_out(o) ==> last_of(before, wait_script(wait, o)) == Some(wait_step(wait, o)),
{
    let s0 = Seq::<Step>::empty();
    let s1 = s0.push(wait_step(wait, o));
    lemma_paced_step(before, s0, wait_step(wait, o));
    if timed_out(o) {
        let r = recover_script();
        let s2 = s1.push(r[0]);
        let s3 = s2.push(r[1]);
        lemma_paced_step(before, s1, r[0]);
        lemma_paced_step(before, s2, r[1]);
        lemma_paced_step(before, s3, r[2]);
        assert(wait_script(wait, o) =~= s3.push(r[2]));
    } else {
        assert(wait_script(wait, o) =~= s1);
    }
}

proof fn lemma_stop_paced(before: Option<Step>, o: Outcome)
    requires
        in_turn(before, request_stop()),
    ensures
        paced(before, seq![request_stop()]),
        last_of(before, seq![request_stop()]) == Some(request_stop()),
        paced(before, stop_script(o)),
{
    let s0 = Seq::<Step>::empty();
    lemma_paced_step(before, s0, request_stop());
    assert(seq![request_stop()] =~= s0.push(request_stop()));
    lemma_wait_paced(Some(request_stop()), Wait::StopSent, o);
    lemma_paced_joins(before, seq![request_stop()], wait_script(Wait::StopSent, o));
}

/// The address phase of a run comes in turn: stale flags, a refusal (bit 5) and a
/// clock held low (bit 7), are cleared, and the START is requested and waited for.
pub proof fn lemma_start_paced(read: bool, o: Outcome)
    ensures
        paced(None, start_script(read, o)),
        !timed_out(o) ==> last_of(None, start_script(read, o)) == Some(
            wait_step(Wait::AddressSent, o),
        ),
        start_script(read, o)[0] == (Step::Edit16 { addr: 0x066C, clear: 32u16 | 128u16, set: 0 }),
{
    let script = start_script(read, o);
    let s0 = Seq::<Step>::empty();
    let s1 = s0.push(script[0]);
    let s2 = s1.push(script[1]);
    lemma_paced_step(None, s0, script[0]);
    assert(2u16 != 4 && 0x10u16 | 2u16 != 4) by (bit_vector);
    lemma_paced_step(None, s1, script[1]);
    let wait = wait_script(Wait::AddressSent, o);
    if read {
        let s3 = s2.push(script[2]);
        lemma_paced_step(None, s2, script[2]);
        lemma_wait_paced(Some(script[2]), Wait::AddressSent, o);
        lemma_paced_joins(None, s3, wait);
        assert(script =~= s3 + wait);
    } else {
        lemma_wait_paced(Some(script[1]), Wait::AddressSent, o);
        lemma_paced_joins(None, s2, wait);
        assert(script =~= s2 + wait);
    }
}

/// After the address phase the refusal flag is looked at.
proof fn lemma_checked_paced(read: bool, refused: bool)
    ensures
        ({
            let script = start_script(read, Outcome::Ready) + seq![address_check(refused)];
            &&& paced(None, script)
            &&& last_of(None, script) == Some(address_check(refused))
        }),
{
    lemma_start_paced(read, Outcome::Ready);
    let s1 = start_script(read, Outcome::Ready);
    lemma_paced_step(None, s1, address_check(refused));
    assert(s1 + seq![address_check(refused)] =~= s1.push(address_check(refused)));
}

proof fn lemma_sent_paced(before: Option<Step>, bytes: Seq<u8>)
    ensures
        paced(before, sent_script(bytes)),
    decreases bytes.len(),
{
    if bytes.len() == 0 {
        assert(sent_script(bytes) =~= Seq::empty());
    } else {
        let front = bytes.drop_last();
        lemma_sent_paced(before, front);
        let s0 = sent_script(front);
        let wait = wait_step(Wait::RoomToSend, Outcome::Ready);
        let write = Step::Write16 { addr: TXBUF, value: bytes.last() as u16 };
        lemma_paced_step(before, s0, wait);
        lemma_paced_step(before, s0.push(wait), write);
        assert(sent_script(bytes) =~= s0.push(wait).push(write)) by {
            let n = 2 * front.len() as int;
            assert(n % 2 == 0 && (n + 1) % 2 == 1 && (n + 1) / 2 == front.len());
            assert forall|i: int| 0 <= i < n implies s0[i] == sent_script(bytes)[i] by {
                assert(0 <= i / 2 < front.len());
            }
        }
    }
}

proof fn lemma_wait_stop_paced(before: Option<Step>, at: Outcome, stop: Outcome)
    requires
        at == Outcome::Ready || at == Outcome::Failed,
    ensures
        paced(before, wait_script(Wait::RoomToSend, at) + stop_script(stop)),
{
    let s1 = wait_script(Wait::RoomToSend, at);
    lemma_wait_paced(before, Wait::RoomToSend, at);
    lemma_stop_paced(Some(wait_step(Wait::RoomToSend, at)), stop);
    lemma_paced_joins(before, s1, stop_script(stop));
}

/// Every step of a run that writes comes in turn, however the run ends.
#[verifier::spinoff_prover]
pub proof fn lemma_write_paced(bytes: Seq<u8>, send_stop: bool, end: RunEnd)
    requires
        end.ends_write(bytes.len(), send_stop),
    ensures
        paced(None, write_script(bytes, end)),
{
    let addressed = start_script(false, Outcome::Ready);
    match end {
        RunEnd::AddressStall(o) => {
            lemma_start_paced(false, o);
        },
        RunEnd::AddressNack(o) => {
            lemma_checked_paced(false, true);
            let s1 = addressed + seq![address_check(true)];
            lemma_stop_paced(Some(address_check(true)), o);
            lemma_paced_joins(None, s1, stop_script(o));
        },
        RunEnd::StopStall(_) => {},
        _ => {
            lemma_checked_paced(false, false);
            let s1 = addressed + seq![address_check(false)];
            let part = bytes.take(end.moved(bytes.len()) as int);
            assert(end is Done ==> part =~= bytes);
            lemma_sent_paced(last_of(None, s1), part);
            lemma_paced_joins(None, s1, sent_script(part));
            let s2 = s1 + sent_script(part);
            let before = last_of(None, s2);
            match end {
                RunEnd::ByteStall { at, .. } => {
                    lemma_wait_paced(before, Wait::RoomToSend, at);
                    lemma_paced_joins(None, s2, wait_script(Wait::RoomToSend, at));
                },
                RunEnd::DataNack { stop, .. } => {
                    lemma_wait_stop_paced(before, Outcome::Failed, stop);
                    let tail = wait_script(Wait::RoomToSend, Outcome::Failed) + stop_script(stop);
                    lemma_paced_joins(None, s2, tail);
                    assert(s2 + tail =~= write_script(bytes, end));
                },
                RunEnd::Done(None) => {
                    lemma_wait_paced(before, Wait::RoomToSend, Outcome::Ready);
                    lemma_paced_joins(None, s2, wait_script(Wait::RoomToSend, Outcome::Ready));
                },
                RunEnd::Done(Some(o)) => {
                    lemma_wait_stop_paced(before, Outcome::Ready, o);
                    let tail = wait_script(Wait::RoomToSend, Outcome::Ready) + stop_script(o);
                    lemma_paced_joins(None, s2, tail);
                    assert(s2 + tail =~= write_script(bytes, end));
                },
                _ => {},
            }
        },
    }
}

proof fn lemma_received_paced(before: Option<Step>, data: Seq<u8>, total: nat, send_stop: bool)
    requires
        data.len() <= total,
    ensures
        paced(before, received_script(data, total, send_stop)),
        data.len() > 0 ==> last_of(before, received_script(data, total, send_stop)) == Some(
            Step::Low8 { addr: RXBUF, value: data.last() },
        ),
    decreases data.len(),
{
    if data.len() > 0 {
        let front = data.drop_last();
        lemma_received_paced(before, front, total, send_stop);
        let s1 = received_script(front, total, send_stop);
        let early = stop_before(data.len() - 1, total, send_stop);
        let wait = wait_step(Wait::ByteArrived, Outcome::Ready);
        let take = Step::Low8 { addr: RXBUF, value: data.last() };
        let s2 = s1 + early;
        if early.len() > 0 {
            lemma_stop_paced(last_of(before, s1), Outcome::Ready);
            lemma_paced_joins(before, s1, early);
        } else {
            assert(s2 =~= s1);
        }
        lemma_paced_step(before, s2, wait);
        lemma_paced_step(before, s2.push(wait), take);
        assert(received_script(data, total, send_stop) =~= s2.push(wait).push(take));
    }
}

/// Every step of a run that reads comes in turn, however the run ends.
#[verifier::spinoff_prover]
pub proof fn lemma_read_paced(data: Seq<u8>, total: nat, send_stop: bool, end: RunEnd)
    requires
        end.ends_read(total, send_stop),
        data.len() == end.moved(total),
    ensures
        paced(None, read_script(data, total, send_stop, end)),
{
    match end {
        RunEnd::AddressStall(o) => {
            lemma_start_paced(true, o);
        },
        RunEnd::AddressNack(o) => {
            lemma_checked_paced(true, true);
            let s1 = start_script(true, Outcome::Ready) + seq![address_check(true)];
            lemma_stop_paced(Some(address_check(true)), o);
            lemma_paced_joins(None, s1, stop_script(o));
        },
        RunEnd::DataNack { .. } => {},
        _ => {
            lemma_checked_paced(true, false);
            let s0 = start_script(true, Outcome::Ready) + seq![address_check(false)];
            let single = send_stop && total == 1;
            let s1 = read_opening(total, send_stop);
            lemma_stop_paced(Some(address_check(false)), Outcome::Ready);
            if single {
                lemma_paced_joins(None, s0, seq![request_stop()]);
            } else {
                assert(s1 =~= s0);
            }
            let received = received_script(data, total, send_stop);
            lemma_received_paced(last_of(None, s1), data, total, send_stop);
            lemma_paced_joins(None, s1, received);
            let opened = s1 + received;
            let before = last_of(None, opened);
            match end {
                RunEnd::ByteStall { moved, at } => {
                    let early = stop_before(moved as int, total, send_stop);
                    if early.len() > 0 {
                        lemma_stop_paced(before, Outcome::Ready);
                        lemma_paced_joins(None, opened, early);
                    } else {
                        assert(opened + early =~= opened);
                    }
                    lemma_wait_paced(last_of(None, opened + early), Wait::ByteArrived, at);
                    lemma_paced_joins(None, opened + early, wait_script(Wait::ByteArrived, at));
                },
                RunEnd::StopStall(o) => {
                    lemma_closing_paced(opened, total, o);
                },
                RunEnd::Done(Some(o)) => {
                    lemma_closing_paced(opened, total, o);
                },
                _ => {},
            }
        },
    }
}

proof fn lemma_closing_paced(opened: Seq<Step>, total: nat, o: Outcome)
    requires
        paced(None, opened),
        total == 0 ==> in_turn(last_of(None, opened), request_stop()),
    ensures
        paced(None, opened + read_closing(total, o)),
{
    let before = last_of(None, opened);
    if total == 0 {
        lemma_stop_paced(before, o);
        assert(read_closing(total, o) =~= stop_script(o));
    } else {
        lemma_wait_paced(before, Wait::StopSent, o);
        assert(read_closing(total, o) =~= wait_script(Wait::StopSent, o));
    }
    lemma_paced_joins(None, opened, read_closing(total, o));
}

/// Recovery resets the module and lets it go again (bit 0 of the control
/// register), and clears the flags of a refusal and of a clock held low; nothing
/// else changes.
pub proof fn lemma_recovery_on_registers(m: Memory)
    ensures
        ({
            let script = recover_script();
            let after = crate::memory::memory_after(m, script);
            &&& crate::memory::word_in(crate::memory::memory_at(m, script, 1), 0x0640)
                == crate::memory::word_in(m, 0x0640) | 1
            &&& crate::memory::word_in(after, 0x0640) == crate::memory::word_in(m, 0x0640) & 0xFFFE
            &&& crate::memory::word_in(after, 0x066C) == crate::memory::word_in(m, 0x066C) & 0xFF5F
        }),
{
    broadcast use crate::memory::group_memory;

    let script = recover_script();
    crate::memory::lemma_memory_at(m, script);
    reveal_with_fuel(crate::memory::memory_at, 4);
    let c = crate::memory::word_in(m, 0x0640);
    let f = crate::memory::word_in(m, 0x066C);
    let held = crate::bus::edited16(c, 0, 1);
    let clean = crate::bus::edited16(f, UCCLTOIFG | UCNACKIFG, 0);
    let freed = crate::bus::edited16(held, 1, 0);
    let m1 = crate::memory::put16(m, 0x0640, held);
    let m2 = crate::memory::put16(m1, 0x066C, clean);
    let m3 = crate::memory::put16(m2, 0x0640, freed);
    assert(crate::memory::word_in(m1, 0x0640) == held);
    assert(crate::memory::word_in(m1, 0x066C) == f);
    assert(crate::memory::word_in(m2, 0x0640) == held);
    assert(crate::memory::word_in(m2, 0x066C) == clean);
    assert(crate::memory::memory_at(m, script, 3) == m3);
    assert(crate::memory::word_in(m3, 0x066C) == clean);
    assert(crate::memory::word_in(m3, 0x0640) == freed);
    assert((c & !0u16) | 1 == c | 1 && ((c | 1) & !1u16) | 0 == c & 0xFFFE && (f & !(0x80u16 | 0x20u16))
        | 0 == f & 0xFF5F) by (bit_vector);
}

/// A transaction begins with the address, written to 0x0660, and the wait until an
/// earlier STOP is out: bit 2 of the control register at 0x0640 is clear.
pub proof fn lemma_opening_steps(address: u8)
    ensures
        ({
            let script = opening_script(address, Outcome::Ready);
            &&& script.len() == 2
            &&& script[0] == (Step::Write16 { addr: 0x0660, value: address as u16 })
            &&& script[1] matches Step::Guard16 { addr, done, watch, trip, budget, .. }
            &&& addr == 0x0640
            &&& done == (Cond::Bits { mask: 4, want: 0 })
            &&& watch == 0x066C
            &&& trip == (Cond::Bits { mask: 128, want: 128 })
            &&& budget == 2000
        }),
{
}

} // verus!
