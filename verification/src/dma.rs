//! The DMA controller: three channels that move bytes and words without the
//! CPU.
//!
//! Each channel has a source address, a destination address, a count and a
//! trigger. A *block* transfer on the software trigger halts the CPU until the
//! whole block has moved. A *single* transfer moves one item at each rising
//! edge of a peripheral flag: a flag that is already high when the channel is
//! armed presents no edge.
//!
//! Buffers are named by address and length ([`ByteSpan`], [`WordSpan`]),
//! because the controller reaches them behind the CPU's back; the memory
//! barriers around a transfer keep the accesses of the CPU to the buffers on
//! their side of it.
//!
//! The read of the vector register in an interrupt handler clears completion
//! flags, so every change to a channel control register from thread mode runs
//! inside a critical section.
use vstd::prelude::*;

use core::marker::PhantomData;

use crate::bus::{Bus, Cond, Edit, Hardware, Stalled, Step};
use crate::memory::Memory;
use crate::pac::Dma;

verus! {

broadcast use crate::trace::group_growth;

/// Triggers of channels 0 and 1.
pub const DMACTL0: u32 = 0x0500;

/// Trigger of channel 2.
pub const DMACTL1: u32 = 0x0502;

/// Controller options.
pub const DMACTL4: u32 = 0x0508;

/// Interrupt vector.
pub const DMAIV: u32 = 0x050E;

/// Transfers wait for a read-modify-write of the CPU to end.
pub const DMARMWDIS: u16 = 0x0004;

/// Software trigger.
pub const DMAREQ: u16 = 0x0001;

/// Interrupt enable.
pub const DMAIE: u16 = 0x0004;

/// Transfer complete.
pub const DMAIFG: u16 = 0x0008;

/// Channel enable.
pub const DMAEN: u16 = 0x0010;

/// Level-sensitive trigger.
pub const DMALEVEL: u16 = 0x0020;

/// Byte-wide source and destination.
pub const DMA_BYTES: u16 = 0x00C0;

/// Whole block per trigger.
pub const DMADT_BLOCK: u16 = 0x1000;

/// Reads of the control register that the scrub of a stale trigger waits for.
pub const SCRUB_READS: u64 = 101;

/// Control register of channel `n`.
pub open spec fn ctl(n: u8) -> u32 {
    (0x0510 + 0x10 * n) as u32
}

/// Source address of channel `n`, low word; the high word follows.
pub open spec fn sa(n: u8) -> u32 {
    (ctl(n) + 2) as u32
}

/// Destination address of channel `n`, low word; the high word follows.
pub open spec fn da(n: u8) -> u32 {
    (ctl(n) + 6) as u32
}

/// Transfer count of channel `n`.
pub open spec fn sz(n: u8) -> u32 {
    (ctl(n) + 10) as u32
}

/// What makes a channel move the next item.
#[derive(Clone, Copy, PartialEq, Eq, Structural, Debug)]
pub enum TriggerSource {
    /// The software request bit of the channel.
    DmaReq,
    /// Timer_A0 CCR0.
    Ta0Ccr0,
    /// Timer_A0 CCR2.
    Ta0Ccr2,
    /// Timer_A1 CCR0.
    Ta1Ccr0,
    /// Timer_A1 CCR2.
    Ta1Ccr2,
    /// Timer_A2 CCR0.
    Ta2Ccr0,
    /// Timer_A3 CCR0.
    Ta3Ccr0,
    /// Timer_B0 CCR0.
    Tb0Ccr0,
    /// Timer_B0 CCR2.
    Tb0Ccr2,
    /// eUSCI_A0 receive.
    UcA0Rx,
    /// eUSCI_A0 transmit.
    UcA0Tx,
    /// eUSCI_A1 receive.
    UcA1Rx,
    /// eUSCI_A1 transmit.
    UcA1Tx,
    /// eUSCI_B0 receive 0.
    UcB0Rx0,
    /// eUSCI_B0 transmit 0.
    UcB0Tx0,
    /// eUSCI_B0 receive 1.
    UcB0Rx1,
    /// eUSCI_B0 transmit 1.
    UcB0Tx1,
    /// eUSCI_B0 receive 2.
    UcB0Rx2,
    /// eUSCI_B0 transmit 2.
    UcB0Tx2,
    /// eUSCI_B0 receive 3.
    UcB0Rx3,
    /// eUSCI_B0 transmit 3.
    UcB0Tx3,
    /// End of conversion of the ADC12.
    Adc12,
    /// Hardware multiplier result.
    MpyReady,
    /// Completion of the channel before this one.
    PrevChannelDone,
    /// External trigger.
    DmaE0,
}

impl TriggerSource {
    /// The number of the trigger on this device.
    pub open spec fn number(self) -> u16 {
        match self {
            TriggerSource::DmaReq => 0,
            TriggerSource::Ta0Ccr0 => 1,
            TriggerSource::Ta0Ccr2 => 2,
            TriggerSource::Ta1Ccr0 => 3,
            TriggerSource::Ta1Ccr2 => 4,
            TriggerSource::Ta2Ccr0 => 5,
            TriggerSource::Ta3Ccr0 => 6,
            TriggerSource::Tb0Ccr0 => 7,
            TriggerSource::Tb0Ccr2 => 8,
            TriggerSource::UcA0Rx => 14,
            TriggerSource::UcA0Tx => 15,
            TriggerSource::UcA1Rx => 16,
            TriggerSource::UcA1Tx => 17,
            TriggerSource::UcB0Rx0 => 18,
            TriggerSource::UcB0Tx0 => 19,
            TriggerSource::UcB0Rx1 => 20,
            TriggerSource::UcB0Tx1 => 21,
            TriggerSource::UcB0Rx2 => 22,
            TriggerSource::UcB0Tx2 => 23,
            TriggerSource::UcB0Rx3 => 24,
            TriggerSource::UcB0Tx3 => 25,
            TriggerSource::Adc12 => 26,
            TriggerSource::MpyReady => 29,
            TriggerSource::PrevChannelDone => 30,
            TriggerSource::DmaE0 => 31,
        }
    }

    /// The number of the trigger on this device.
    pub fn code(self) -> (r: u16)
        ensures
            r == self.number(),
            r < 32,
    {
        match self {
            TriggerSource::DmaReq => 0,
            TriggerSource::Ta0Ccr0 => 1,
            TriggerSource::Ta0Ccr2 => 2,
            TriggerSource::Ta1Ccr0 => 3,
            TriggerSource::Ta1Ccr2 => 4,
            TriggerSource::Ta2Ccr0 => 5,
            TriggerSource::Ta3Ccr0 => 6,
            TriggerSource::Tb0Ccr0 => 7,
            TriggerSource::Tb0Ccr2 => 8,
            TriggerSource::UcA0Rx => 14,
            TriggerSource::UcA0Tx => 15,
            TriggerSource::UcA1Rx => 16,
            TriggerSource::UcA1Tx => 17,
            TriggerSource::UcB0Rx0 => 18,
            TriggerSource::UcB0Tx0 => 19,
            TriggerSource::UcB0Rx1 => 20,
            TriggerSource::UcB0Tx1 => 21,
            TriggerSource::UcB0Rx2 => 22,
            TriggerSource::UcB0Tx2 => 23,
            TriggerSource::UcB0Rx3 => 24,
            TriggerSource::UcB0Tx3 => 25,
            TriggerSource::Adc12 => 26,
            TriggerSource::MpyReady => 29,
            TriggerSource::PrevChannelDone => 30,
            TriggerSource::DmaE0 => 31,
        }
    }
}

/// What happens to an address after each item.
#[derive(Clone, Copy, PartialEq, Eq, Structural, Debug)]
pub enum AddrMode {
    /// It stays.
    Fixed,
    /// It goes down by the width of an item.
    Decrement,
    /// It goes up by the width of an item.
    Increment,
}

impl AddrMode {
    /// The field value of the mode.
    pub open spec fn field(self) -> int {
        match self {
            AddrMode::Fixed => 0,
            AddrMode::Decrement => 2,
            AddrMode::Increment => 3,
        }
    }

    /// The field value of the mode.
    fn bits(self) -> (r: u16)
        ensures
            r == self.field(),
    {
        match self {
            AddrMode::Fixed => 0,
            AddrMode::Decrement => 2,
            AddrMode::Increment => 3,
        }
    }

    /// The address of item `k` of a walk in this mode.
    pub open spec fn walk(self, start: int, width: int, k: int) -> int {
        match self {
            AddrMode::Fixed => start,
            AddrMode::Decrement => start - width * k,
            AddrMode::Increment => start + width * k,
        }
    }
}

/// A buffer of bytes.
#[derive(Clone, Copy, PartialEq, Eq, Structural, Debug)]
pub struct ByteSpan {
    /// Address of the first byte.
    pub addr: u16,
    /// Number of bytes.
    pub len: u16,
}

impl ByteSpan {
    /// The buffer lies within the address space.
    pub open spec fn wf(self) -> bool {
        self.addr + self.len <= 0x1_0000
    }
}

/// A buffer of words.
#[derive(Clone, Copy, PartialEq, Eq, Structural, Debug)]
pub struct WordSpan {
    /// Address of the first word.
    pub addr: u16,
    /// Number of words.
    pub len: u16,
}

impl WordSpan {
    /// The buffer is aligned and lies within the address space.
    pub open spec fn wf(self) -> bool {
        self.addr % 2 == 0 && self.addr + 2 * self.len <= 0x1_0000
    }
}

/// One DMA job: where from, where to, how many items of which width.
#[derive(Clone, Copy)]
pub struct Job {
    /// First source address.
    pub src: u16,
    /// Walk of the source.
    pub src_mode: AddrMode,
    /// First destination address.
    pub dst: u16,
    /// Walk of the destination.
    pub dst_mode: AddrMode,
    /// Bytes, or words.
    pub bytes: bool,
    /// Number of items.
    pub count: u16,
}

impl Job {
    /// The width of an item.
    pub open spec fn width(self) -> int {
        if self.bytes {
            1
        } else {
            2
        }
    }

    /// Where item `k` comes from.
    pub open spec fn from(self, k: int) -> int {
        self.src_mode.walk(self.src as int, self.width(), k)
    }

    /// Where item `k` goes to.
    pub open spec fn to(self, k: int) -> int {
        self.dst_mode.walk(self.dst as int, self.width(), k)
    }

    /// The mode bits of the control register, with the channel enabled.
    pub open spec fn control(self) -> int {
        self.src_mode.field() * 0x100 + self.dst_mode.field() * 0x400 + (if self.bytes {
            DMA_BYTES as int
        } else {
            0
        }) + DMAEN
    }

    /// The mode bits of the control register, with the channel enabled.
    fn control_word(&self) -> (r: u16)
        ensures
            r == self.control(),
            r < 0x1000,
            r % 2 == 0,
    {
        self.src_mode.bits() * 0x100 + self.dst_mode.bits() * 0x400 + (if self.bytes {
            DMA_BYTES
        } else {
            0
        }) + DMAEN
    }
}

/// The trigger selection of channel `n`. Channels 0 and 1 share a register, so
/// it is changed inside a critical section.
pub open spec fn trigger_step(n: u8, trigger: TriggerSource) -> Step {
    Step::Masked {
        first: if n == 0 {
            Edit::Update { addr: DMACTL0, clear: 0x001F, set: trigger.number() }
        } else if n == 1 {
            Edit::Update { addr: DMACTL0, clear: 0x1F00, set: (trigger.number() * 0x100) as u16 }
        } else {
            Edit::Update { addr: DMACTL1, clear: 0x001F, set: trigger.number() }
        },
        second: None,
    }
}

/// The addresses and the count of channel `n`.
pub open spec fn address_script(n: u8, src: u16, dst: u16, count: u16) -> Seq<Step> {
    seq![
        Step::Write16 { addr: sa(n), value: src },
        Step::Write16 { addr: (sa(n) + 2) as u32, value: 0 },
        Step::Write16 { addr: da(n), value: dst },
        Step::Write16 { addr: (da(n) + 2) as u32, value: 0 },
        Step::Write16 { addr: sz(n), value: count },
    ]
}

/// A change to the control register of channel `n` inside a critical section.
pub open spec fn ctl_change(n: u8, clear: u16, set: u16) -> Step {
    Step::Masked { first: Edit::Update { addr: ctl(n), clear, set }, second: None }
}

/// The wait for completion on channel `n`.
pub open spec fn completion(n: u8, patience: u64, met: bool) -> Step {
    Step::Poll16 { addr: ctl(n), until: Cond::all_set(DMAIFG), budget: patience, met }
}

/// The wait for completion and, where it came, the acknowledgement.
pub open spec fn finish_script(n: u8, patience: u64, met: bool) -> Seq<Step> {
    if met {
        seq![completion(n, patience, true), ctl_change(n, DMAIFG, 0), Step::Barrier]
    } else {
        seq![completion(n, patience, false)]
    }
}

/// A block transfer on the software trigger.
pub open spec fn block_script(n: u8, job: Job, patience: u64, met: bool) -> Seq<Step> {
    seq![trigger_step(n, TriggerSource::DmaReq)] + address_script(n, job.src, job.dst, job.count)
        + seq![
        Step::Write16 { addr: ctl(n), value: (DMADT_BLOCK + job.control()) as u16 },
        Step::Barrier,
        Step::Write16 { addr: ctl(n), value: (DMADT_BLOCK + job.control() + DMAREQ) as u16 },
    ] + finish_script(n, patience, met)
}

/// The arming of single transfers on `trigger`.
pub open spec fn arm_script(n: u8, trigger: TriggerSource, job: Job) -> Seq<Step> {
    seq![trigger_step(n, trigger)] + address_script(n, job.src, job.dst, job.count) + seq![
        Step::Barrier,
        Step::Write16 { addr: ctl(n), value: job.control() as u16 },
    ]
}

/// The scrub of a stale trigger: one level-sensitive word transfer, a bounded
/// wait for it, the look at whether it fired, and the channel switched off.
pub open spec fn scrub_script(
    n: u8,
    trigger: TriggerSource,
    src: u16,
    dst: u16,
    met: bool,
    fired: bool,
) -> Seq<Step> {
    seq![trigger_step(n, trigger)] + address_script(n, src, dst, 1) + seq![
        Step::Write16 { addr: ctl(n), value: (DMALEVEL + DMAEN) as u16 },
        completion(n, SCRUB_READS, met),
        Step::Test16 { addr: ctl(n), cond: Cond::all_set(DMAIFG), holds: fired },
        Step::Masked { first: Edit::Store { addr: ctl(n), value: 0 }, second: None },
        Step::Barrier,
    ]
}

/// What a transfer that may stall did.
pub open spec fn transferred<H: Hardware>(
    pre: Bus<H>,
    post: Bus<H>,
    n: u8,
    job: Job,
    met: bool,
) -> bool {
    post.ran(pre, block_script(n, job, pre.patience(), met))
}

/// The smaller of two lengths.
pub open spec fn shorter(a: u16, b: u16) -> u16 {
    if a < b {
        a
    } else {
        b
    }
}

/// The copy of `count` bytes.
pub open spec fn copy_job(src: u16, dst: u16, count: u16) -> Job {
    Job {
        src,
        src_mode: AddrMode::Increment,
        dst,
        dst_mode: AddrMode::Increment,
        bytes: true,
        count,
    }
}

/// The copy of `count` words.
pub open spec fn copy_words_job(src: u16, dst: u16, count: u16) -> Job {
    Job {
        src,
        src_mode: AddrMode::Increment,
        dst,
        dst_mode: AddrMode::Increment,
        bytes: false,
        count,
    }
}

/// The copy of `count` bytes in reverse order.
pub open spec fn reverse_job(src: u16, dst: u16, count: u16) -> Job {
    Job {
        src,
        src_mode: AddrMode::Increment,
        dst: (dst + count - 1) as u16,
        dst_mode: AddrMode::Decrement,
        bytes: true,
        count,
    }
}

/// The fill of `count` bytes from one address.
pub open spec fn fill_job(src: u16, dst: u16, count: u16) -> Job {
    Job {
        src,
        src_mode: AddrMode::Fixed,
        dst,
        dst_mode: AddrMode::Increment,
        bytes: true,
        count,
    }
}

/// One DMA channel.
pub struct Channel<const N: u8> {
    _private: PhantomData<()>,
}

/// The three channels.
pub struct Channels {
    pub ch0: Channel<0>,
    pub ch1: Channel<1>,
    pub ch2: Channel<2>,
}

/// Splits the controller into its channels.
pub trait DmaExt: Sized {
    /// Consumes the peripheral and hands out its channels.
    fn split<H: Hardware>(self, bus: &mut Bus<H>) -> Channels;
}

impl DmaExt for Dma {
    /// Keeps transfers from splitting a read-modify-write of the CPU.
    fn split<H: Hardware>(self, bus: &mut Bus<H>) -> (r: Channels)
        ensures
            final(bus).ran(*old(bus), seq![Step::Write16 { addr: DMACTL4, value: DMARMWDIS }]),
    {
        bus.write16(DMACTL4, DMARMWDIS);
        Channels {
            ch0: Channel { _private: PhantomData },
            ch1: Channel { _private: PhantomData },
            ch2: Channel { _private: PhantomData },
        }
    }
}

impl<const N: u8> Channel<N> {
    /// Address of the control register.
    fn base() -> (r: u32)
        ensures
            r == ctl(N),
            r <= 0x1500,
    {
        0x0510 + 0x10 * (N as u32)
    }

    /// Items left in the armed transfer. At completion the count reloads.
    pub fn remaining<H: Hardware>(&self, bus: &mut Bus<H>) -> (r: u16)
        ensures
            final(bus).ran(*old(bus), seq![Step::Read16 { addr: sz(N), value: r }]),
    {
        bus.read16(Self::base() + 10)
    }

    /// Whether the armed transfer has run to completion.
    pub fn is_done<H: Hardware>(&self, bus: &mut Bus<H>) -> (r: bool)
        ensures
            final(bus).ran(
                *old(bus),
                seq![Step::Test16 { addr: ctl(N), cond: Cond::all_set(DMAIFG), holds: r }],
            ),
    {
        bus.is_set16(Self::base(), DMAIFG)
    }

    /// Whether the channel is armed.
    pub fn is_armed<H: Hardware>(&self, bus: &mut Bus<H>) -> (r: bool)
        ensures
            final(bus).ran(
                *old(bus),
                seq![Step::Test16 { addr: ctl(N), cond: Cond::all_set(DMAEN), holds: r }],
            ),
    {
        bus.is_set16(Self::base(), DMAEN)
    }

    /// Selects the trigger.
    fn set_trigger<H: Hardware>(&mut self, bus: &mut Bus<H>, trigger: TriggerSource)
        ensures
            final(bus).ran(*old(bus), seq![trigger_step(N, trigger)]),
    {
        let code: u16 = trigger.code();
        if N == 0 {
            bus.masked_edit16(DMACTL0, 0x001F, code);
        } else if N == 1 {
            bus.masked_edit16(DMACTL0, 0x1F00, code * 0x100);
        } else {
            bus.masked_edit16(DMACTL1, 0x001F, code);
        }
    }

    /// Sets both addresses and the count.
    fn set_addresses<H: Hardware>(&mut self, bus: &mut Bus<H>, src: u16, dst: u16, count: u16)
        ensures
            final(bus).ran(*old(bus), address_script(N, src, dst, count)),
    {
        let base: u32 = Self::base();
        bus.write16(base + 2, src);
        bus.write16(base + 4, 0);
        bus.write16(base + 6, dst);
        bus.write16(base + 8, 0);
        bus.write16(base + 10, count);
    }

    /// Moves a whole block on the software trigger and waits for completion.
    fn block_transfer<H: Hardware>(&mut self, bus: &mut Bus<H>, job: Job) -> (r: Result<
        (),
        Stalled,
    >)
        requires
            job.count > 0,
        ensures
            transferred(*old(bus), *final(bus), N, job, r is Ok),
    {
        let base: u32 = Self::base();
        self.set_trigger(bus, TriggerSource::DmaReq);
        self.set_addresses(bus, job.src, job.dst, job.count);
        let control: u16 = DMADT_BLOCK + job.control_word();
        bus.write16(base, control);
        bus.barrier();
        bus.write16(base, control + DMAREQ);
        self.wait_done(bus)
    }

    /// Copies as many bytes as both buffers have, and returns their number. Of
    /// none nothing is done.
    pub fn copy_bytes<H: Hardware>(
        &mut self,
        bus: &mut Bus<H>,
        src: ByteSpan,
        dst: ByteSpan,
    ) -> (r: Result<usize, Stalled>)
        ensures
            ({
                let n = shorter(src.len, dst.len);
                if n == 0 {
                    r == Ok::<usize, Stalled>(0) && final(bus).ran(*old(bus), Seq::empty())
                } else {
                    &&& transferred(
                        *old(bus),
                        *final(bus),
                        N,
                        copy_job(src.addr, dst.addr, n),
                        r is Ok,
                    )
                    &&& r is Ok ==> r == Ok::<usize, Stalled>(n as usize)
                }
            }),
    {
        let n: u16 = if src.len < dst.len { src.len } else { dst.len };
        if n > 0 {
            let job = Job {
                src: src.addr,
                src_mode: AddrMode::Increment,
                dst: dst.addr,
                dst_mode: AddrMode::Increment,
                bytes: true,
                count: n,
            };
            match self.block_transfer(bus, job) {
                Ok(_) => {},
                Err(e) => {
                    return Err(e);
                },
            }
        }
        Ok(n as usize)
    }

    /// Copies as many words as both buffers have, and returns their number.
    pub fn copy_words<H: Hardware>(
        &mut self,
        bus: &mut Bus<H>,
        src: WordSpan,
        dst: WordSpan,
    ) -> (r: Result<usize, Stalled>)
        ensures
            ({
                let n = shorter(src.len, dst.len);
                if n == 0 {
                    r == Ok::<usize, Stalled>(0) && final(bus).ran(*old(bus), Seq::empty())
                } else {
                    &&& transferred(
                        *old(bus),
                        *final(bus),
                        N,
                        copy_words_job(src.addr, dst.addr, n),
                        r is Ok,
                    )
                    &&& r is Ok ==> r == Ok::<usize, Stalled>(n as usize)
                }
            }),
    {
        let n: u16 = if src.len < dst.len { src.len } else { dst.len };
        if n > 0 {
            let job = Job {
                src: src.addr,
                src_mode: AddrMode::Increment,
                dst: dst.addr,
                dst_mode: AddrMode::Increment,
                bytes: false,
                count: n,
            };
            match self.block_transfer(bus, job) {
                Ok(_) => {},
                Err(e) => {
                    return Err(e);
                },
            }
        }
        Ok(n as usize)
    }

    /// Copies bytes in reverse order: the destination is walked from its end.
    pub fn copy_bytes_reversed<H: Hardware>(
        &mut self,
        bus: &mut Bus<H>,
        src: ByteSpan,
        dst: ByteSpan,
    ) -> (r: Result<usize, Stalled>)
        requires
            dst.wf(),
        ensures
            ({
                let n = shorter(src.len, dst.len);
                if n == 0 {
                    r == Ok::<usize, Stalled>(0) && final(bus).ran(*old(bus), Seq::empty())
                } else {
                    &&& transferred(
                        *old(bus),
                        *final(bus),
                        N,
                        reverse_job(src.addr, dst.addr, n),
                        r is Ok,
                    )
                    &&& r is Ok ==> r == Ok::<usize, Stalled>(n as usize)
                }
            }),
    {
        let n: u16 = if src.len < dst.len { src.len } else { dst.len };
        if n > 0 {
            let job = Job {
                src: src.addr,
                src_mode: AddrMode::Increment,
                dst: dst.addr + (n - 1),
                dst_mode: AddrMode::Decrement,
                bytes: true,
                count: n,
            };
            match self.block_transfer(bus, job) {
                Ok(_) => {},
                Err(e) => {
                    return Err(e);
                },
            }
        }
        Ok(n as usize)
    }

    /// Fills a buffer with `value`, which is read from the scratch word once
    /// for each byte.
    pub fn fill_bytes<H: Hardware>(&mut self, bus: &mut Bus<H>, value: u8, dst: ByteSpan) -> (r:
        Result<usize, Stalled>)
        ensures
            if dst.len == 0 {
                r == Ok::<usize, Stalled>(0) && final(bus).ran(*old(bus), Seq::empty())
            } else {
                &&& r is Ok ==> r == Ok::<usize, Stalled>(dst.len as usize)
                &&& exists|scratch: u16|
                    final(bus).ran(
                        *old(bus),
                        seq![
                            Step::Scratch { addr: scratch },
                            Step::Write8 { addr: scratch as u32, value },
                        ] + block_script(
                            N,
                            #[trigger] fill_job(scratch, dst.addr, dst.len),
                            old(bus).patience(),
                            r is Ok,
                        ),
                    )
            },
    {
        let n: u16 = dst.len;
        if n > 0 {
            let scratch: u16 = bus.scratch();
            bus.write8(scratch as u32, value);
            let job = Job {
                src: scratch,
                src_mode: AddrMode::Fixed,
                dst: dst.addr,
                dst_mode: AddrMode::Increment,
                bytes: true,
                count: n,
            };
            assert(job == fill_job(scratch, dst.addr, dst.len));
            match self.block_transfer(bus, job) {
                Ok(_) => {},
                Err(e) => {
                    return Err(e);
                },
            }
        }
        Ok(n as usize)
    }

    /// Arms the channel to move one byte at each edge of `trigger`, `count` of
    /// them. The buffers belong to the controller until the transfer is done
    /// or the channel disarmed. A trigger that is already high presents no
    /// edge.
    pub fn arm_single_bytes<H: Hardware>(
        &mut self,
        bus: &mut Bus<H>,
        trigger: TriggerSource,
        src: u16,
        src_mode: AddrMode,
        dst: u16,
        dst_mode: AddrMode,
        count: u16,
    )
        requires
            count > 0,
        ensures
            final(bus).ran(
                *old(bus),
                arm_script(N, trigger, Job { src, src_mode, dst, dst_mode, bytes: true, count }),
            ),
    {
        self.arm_single(bus, trigger, Job { src, src_mode, dst, dst_mode, bytes: true, count });
    }

    /// Arms the channel to move one word at each edge of `trigger`.
    pub fn arm_single_words<H: Hardware>(
        &mut self,
        bus: &mut Bus<H>,
        trigger: TriggerSource,
        src: u16,
        src_mode: AddrMode,
        dst: u16,
        dst_mode: AddrMode,
        count: u16,
    )
        requires
            count > 0,
        ensures
            final(bus).ran(
                *old(bus),
                arm_script(N, trigger, Job { src, src_mode, dst, dst_mode, bytes: false, count }),
            ),
    {
        self.arm_single(bus, trigger, Job { src, src_mode, dst, dst_mode, bytes: false, count });
    }

    fn arm_single<H: Hardware>(&mut self, bus: &mut Bus<H>, trigger: TriggerSource, job: Job)
        requires
            job.count > 0,
        ensures
            final(bus).ran(*old(bus), arm_script(N, trigger, job)),
    {
        self.set_trigger(bus, trigger);
        self.set_addresses(bus, job.src, job.dst, job.count);
        let control: u16 = job.control_word();
        bus.barrier();
        bus.write16(Self::base(), control);
    }

    /// Consumes a trigger that is stuck high, which an edge-sensitive channel
    /// never sees: one level-sensitive word transfer services it. Returns
    /// whether it fired.
    pub fn consume_stale_trigger_word<H: Hardware>(
        &mut self,
        bus: &mut Bus<H>,
        trigger: TriggerSource,
        src: u16,
        dst: u16,
    ) -> (fired: bool)
        ensures
            exists|met: bool|
                final(bus).ran(
                    *old(bus),
                    #[trigger] scrub_script(N, trigger, src, dst, met, fired),
                ),
    {
        let base: u32 = Self::base();
        self.set_trigger(bus, trigger);
        self.set_addresses(bus, src, dst, 1);
        bus.write16(base, DMALEVEL + DMAEN);
        let met: bool = bus.poll16_within(
            base,
            Cond::Bits { mask: DMAIFG, want: DMAIFG },
            SCRUB_READS,
        );
        let fired: bool = bus.is_set16(base, DMAIFG);
        bus.masked(Edit::Store { addr: base, value: 0 }, None);
        bus.barrier();
        assert(bus.ran(*old(bus), scrub_script(N, trigger, src, dst, met, fired)));
        fired
    }

    /// Triggers the armed channel by software.
    pub fn request<H: Hardware>(&mut self, bus: &mut Bus<H>)
        ensures
            final(bus).ran(*old(bus), seq![ctl_change(N, 0, DMAREQ)]),
    {
        bus.masked_edit16(Self::base(), 0, DMAREQ);
    }

    /// Disarms the channel.
    pub fn disarm<H: Hardware>(&mut self, bus: &mut Bus<H>)
        ensures
            final(bus).ran(*old(bus), seq![ctl_change(N, DMAEN, 0)]),
    {
        bus.masked_edit16(Self::base(), DMAEN, 0);
    }

    /// Clears the completion flag.
    pub fn clear_done<H: Hardware>(&mut self, bus: &mut Bus<H>)
        ensures
            final(bus).ran(*old(bus), seq![ctl_change(N, DMAIFG, 0)]),
    {
        bus.masked_edit16(Self::base(), DMAIFG, 0);
    }

    /// Waits for completion and clears the flag: once this succeeds the
    /// controller is out of the buffers.
    pub fn wait_done<H: Hardware>(&mut self, bus: &mut Bus<H>) -> (r: Result<(), Stalled>)
        ensures
            final(bus).ran(*old(bus), finish_script(N, old(bus).patience(), r is Ok)),
    {
        if !bus.poll16(Self::base(), Cond::Bits { mask: DMAIFG, want: DMAIFG }) {
            return Err(Stalled);
        }
        self.clear_done(bus);
        bus.barrier();
        Ok(())
    }

    /// Lets completion fire the vector.
    pub fn enable_done_interrupt<H: Hardware>(&mut self, bus: &mut Bus<H>)
        ensures
            final(bus).ran(*old(bus), seq![ctl_change(N, 0, DMAIE)]),
    {
        bus.masked_edit16(Self::base(), 0, DMAIE);
    }

    /// Returns the channel to polled completion.
    pub fn disable_done_interrupt<H: Hardware>(&mut self, bus: &mut Bus<H>)
        ensures
            final(bus).ran(*old(bus), seq![ctl_change(N, DMAIE, 0)]),
    {
        bus.masked_edit16(Self::base(), DMAIE, 0);
    }
}

/// Reads the vector register: 0 for nothing, 2, 4 or 6 for completion on
/// channel 0, 1 or 2. The read clears the flag that it reports.
pub fn read_iv<H: Hardware>(bus: &mut Bus<H>) -> (iv: u16)
    ensures
        final(bus).ran(*old(bus), seq![Step::Read16 { addr: DMAIV, value: iv }]),
{
    bus.read16(DMAIV)
}

/// Where the items of each kind of copy come from and go to: byte for byte,
/// word for word, byte `k` to the mirrored place, or all bytes from one place.
pub proof fn lemma_copies(src: u16, dst: u16, count: u16, k: int)
    requires
        0 <= k < count,
        dst + count <= 0x1_0000,
    ensures
        copy_job(src, dst, count).from(k) == src + k,
        copy_job(src, dst, count).to(k) == dst + k,
        copy_words_job(src, dst, count).from(k) == src + 2 * k,
        copy_words_job(src, dst, count).to(k) == dst + 2 * k,
        reverse_job(src, dst, count).from(k) == src + k,
        reverse_job(src, dst, count).to(k) == dst + (count - 1 - k),
        fill_job(src, dst, count).from(k) == src,
        fill_job(src, dst, count).to(k) == dst + k,
{
}

/// Two items of a copy never go to the same place.
pub proof fn lemma_items_apart(src: u16, dst: u16, count: u16, j: int, k: int)
    requires
        0 <= j < k < count,
        dst + count <= 0x1_0000,
    ensures
        copy_job(src, dst, count).to(j) != copy_job(src, dst, count).to(k),
        copy_words_job(src, dst, count).to(j) != copy_words_job(src, dst, count).to(k),
        reverse_job(src, dst, count).to(j) != reverse_job(src, dst, count).to(k),
        fill_job(src, dst, count).to(j) != fill_job(src, dst, count).to(k),
{
}

/// A trigger selection on channel 0 or 1 leaves the other one's alone.
pub proof fn lemma_triggers_apart(before: u16, trigger: TriggerSource)
    ensures
        crate::bus::edited16(before, 0x001F, trigger.number()) & 0x1F00 == before & 0x1F00,
        crate::bus::edited16(before, 0x1F00, (trigger.number() * 0x100) as u16) & 0x001F == before
            & 0x001F,
{
    let low = trigger.number();
    let high = (trigger.number() * 0x100) as u16;
    assert(low < 32 && high == low * 0x100 ==> ((before & !0x001Fu16) | low) & 0x1F00u16 == before
        & 0x1F00u16 && ((before & !0x1F00u16) | high) & 0x001Fu16 == before & 0x001Fu16)
        by (bit_vector);
}

/// The registers of different channels are different.
pub proof fn lemma_channels_apart(a: u8, b: u8)
    requires
        a < 3,
        b < 3,
        a != b,
    ensures
        sz(a) < ctl(b) || sz(b) < ctl(a),
{
}

/// What the controller does to an address after each item, by the field of its
/// control word: up with 3, down with 2, nothing with 0 or 1.
pub open spec fn stepped(field: int, start: int, width: int, k: int) -> int {
    if field == 3 {
        start + width * k
    } else if field == 2 {
        start - width * k
    } else {
        start
    }
}

/// The registers of a channel: control, source (two words), destination (two
/// words) and count, in a block of sixteen bytes each from 0x0510 on.
pub open spec fn channel_word(m: Memory, n: int, offset: int) -> int {
    crate::memory::word_in(m, 0x0510 + 16 * n + offset) as int
}

/// The address that the controller takes item `k` from, as its registers say.
pub open spec fn visits_from(m: Memory, n: int, k: int) -> int {
    let control = channel_word(m, n, 0);
    let width = if control / 0x40 % 2 == 1 {
        1int
    } else {
        2
    };
    let start = channel_word(m, n, 2) + 0x1_0000 * channel_word(m, n, 4);
    stepped(control / 0x100 % 4, start, width, k)
}

/// The address that the controller puts item `k` at, as its registers say.
pub open spec fn visits_to(m: Memory, n: int, k: int) -> int {
    let control = channel_word(m, n, 0);
    let width = if control / 0x80 % 2 == 1 {
        1int
    } else {
        2
    };
    let start = channel_word(m, n, 6) + 0x1_0000 * channel_word(m, n, 8);
    stepped(control / 0x400 % 4, start, width, k)
}

/// The trigger that a channel waits for, as the controller's registers say.
pub open spec fn triggered_by(m: Memory, n: int) -> int {
    if n == 0 {
        crate::memory::word_in(m, 0x0500) as int % 32
    } else if n == 1 {
        crate::memory::word_in(m, 0x0500) as int / 0x100 % 32
    } else {
        crate::memory::word_in(m, 0x0502) as int % 32
    }
}

/// The registers after a job was set up and the channel enabled.
pub open spec fn set_up(m: Memory, n: u8, trigger: TriggerSource, job: Job, control: u16) -> Memory {
    crate::memory::put16(
        crate::memory::memory_after(
            m,
            seq![trigger_step(n, trigger)] + address_script(n, job.src, job.dst, job.count),
        ),
        ctl(n) as int,
        control,
    )
}

proof fn lemma_set_up(m: Memory, n: u8, trigger: TriggerSource, job: Job, control: u16)
    requires
        n < 3,
    ensures
        ({
            let after = set_up(m, n, trigger, job, control);
            &&& channel_word(after, n as int, 0) == control
            &&& channel_word(after, n as int, 2) == job.src
            &&& channel_word(after, n as int, 4) == 0
            &&& channel_word(after, n as int, 6) == job.dst
            &&& channel_word(after, n as int, 8) == 0
            &&& channel_word(after, n as int, 10) == job.count
            &&& triggered_by(after, n as int) == trigger.number()
        }),
{
    let script = seq![trigger_step(n, trigger)] + address_script(n, job.src, job.dst, job.count);
    let s5 = script.drop_last();
    let s4 = s5.drop_last();
    let s3 = s4.drop_last();
    let s2 = s3.drop_last();
    let s1 = s2.drop_last();
    assert(script.last() == (Step::Write16 { addr: sz(n), value: job.count }));
    assert(s5.last() == (Step::Write16 { addr: (da(n) + 2) as u32, value: 0 }));
    assert(s4.last() == (Step::Write16 { addr: da(n), value: job.dst }));
    assert(s3.last() == (Step::Write16 { addr: (sa(n) + 2) as u32, value: 0 }));
    assert(s2.last() == (Step::Write16 { addr: sa(n), value: job.src }));
    assert(s1.last() == trigger_step(n, trigger));
    assert(s1.drop_last() =~= Seq::empty());
    reveal_with_fuel(crate::memory::memory_after, 7);
    let t = trigger.number();
    assert(t < 32);
    let w0 = crate::memory::word_in(m, 0x0500);
    let w1 = crate::memory::word_in(m, 0x0502);
    assert(t < 32 ==> ((w0 & !0x001Fu16) | t) % 32 == t && ((w1 & !0x001Fu16) | t) % 32 == t && (((
    w0 & !0x1F00u16) | (t * 0x100) as u16) / 0x100) % 32 == t) by (bit_vector);
}

/// What the controller is told to do in a copy by blocks, for any registers that
/// it had before: on the software trigger (0), a whole block at the request, the
/// items from and to the places that the copy is about, byte for byte or word
/// for word, reversed, or all from one place. The places follow from the words
/// in the registers.
pub proof fn lemma_controller_copies(m: Memory, n: u8, src: u16, dst: u16, count: u16, k: int)
    requires
        n < 3,
        0 <= k < count,
        dst + count <= 0x1_0000,
    ensures
        ({
            let after = told(m, n, copy_job(src, dst, count));
            &&& runs_block(after, n as int, count)
            &&& visits_from(after, n as int, k) == src + k
            &&& visits_to(after, n as int, k) == dst + k
        }),
        ({
            let after = told(m, n, copy_words_job(src, dst, count));
            &&& runs_block(after, n as int, count)
            &&& visits_from(after, n as int, k) == src + 2 * k
            &&& visits_to(after, n as int, k) == dst + 2 * k
        }),
        ({
            let after = told(m, n, reverse_job(src, dst, count));
            &&& runs_block(after, n as int, count)
            &&& visits_from(after, n as int, k) == src + k
            &&& visits_to(after, n as int, k) == dst + count - 1 - k
        }),
        ({
            let after = told(m, n, fill_job(src, dst, count));
            &&& runs_block(after, n as int, count)
            &&& visits_from(after, n as int, k) == src
            &&& visits_to(after, n as int, k) == dst + k
        }),
{
    lemma_job_visits(m, n, copy_job(src, dst, count), k);
    lemma_job_visits(m, n, copy_words_job(src, dst, count), k);
    lemma_job_visits(m, n, reverse_job(src, dst, count), k);
    lemma_job_visits(m, n, fill_job(src, dst, count), k);
}

/// The same for any job.
#[verifier::spinoff_prover]
proof fn lemma_job_visits(m: Memory, n: u8, job: Job, k: int)
    requires
        n < 3,
    ensures
        runs_block(told(m, n, job), n as int, job.count),
        visits_from(told(m, n, job), n as int, k) == job.from(k),
        visits_to(told(m, n, job), n as int, k) == job.to(k),
{
    lemma_told(m, n, job);
    let c = 0x1001 + job.control();
    assert(c / 0x100 % 4 == job.src_mode.field() && c / 0x400 % 4 == job.dst_mode.field());
    assert(c / 0x40 % 2 == (if job.bytes {
        1int
    } else {
        0
    }) && c / 0x80 % 2 == c / 0x40 % 2);
    assert(c % 2 == 1 && c / 0x10 % 4 == 1 && c / 0x1000 == 1);
}

/// The registers when the request of a block transfer has been written.
pub open spec fn told(m: Memory, n: u8, job: Job) -> Memory {
    crate::memory::memory_after(m, block_script(n, job, 0, false).take(9))
}

/// A channel is enabled for a whole block of `count` items on the software
/// trigger, and that is requested.
pub open spec fn runs_block(m: Memory, n: int, count: u16) -> bool {
    &&& channel_word(m, n, 0) % 2 == 1
    &&& channel_word(m, n, 0) / 0x10 % 4 == 1
    &&& channel_word(m, n, 0) / 0x1000 == 1
    &&& channel_word(m, n, 10) == count
    &&& triggered_by(m, n) == 0
}

proof fn lemma_told(m: Memory, n: u8, job: Job)
    requires
        n < 3,
    ensures
        told(m, n, job) == crate::memory::put16(
            set_up(m, n, TriggerSource::DmaReq, job, (0x1000 + job.control()) as u16),
            ctl(n) as int,
            (0x1001 + job.control()) as u16,
        ),
        channel_word(told(m, n, job), n as int, 0) == 0x1001 + job.control(),
        channel_word(told(m, n, job), n as int, 2) == job.src,
        channel_word(told(m, n, job), n as int, 4) == 0,
        channel_word(told(m, n, job), n as int, 6) == job.dst,
        channel_word(told(m, n, job), n as int, 8) == 0,
        channel_word(told(m, n, job), n as int, 10) == job.count,
        triggered_by(told(m, n, job), n as int) == 0,
        job.control() < 0x1000,
{
    let first = (0x1000 + job.control()) as u16;
    lemma_set_up(m, n, TriggerSource::DmaReq, job, first);
    let script = block_script(n, job, 0, false).take(9);
    let head = seq![trigger_step(n, TriggerSource::DmaReq)] + address_script(
        n,
        job.src,
        job.dst,
        job.count,
    );
    let s8 = script.drop_last();
    let s7 = s8.drop_last();
    assert(script.last() == (Step::Write16 {
        addr: ctl(n),
        value: (DMADT_BLOCK + job.control() + DMAREQ) as u16,
    }));
    assert(s8.last() == Step::Barrier);
    assert(s7.last() == (Step::Write16 {
        addr: ctl(n),
        value: (DMADT_BLOCK + job.control()) as u16,
    }));
    assert(s7.drop_last() =~= head);
    reveal_with_fuel(crate::memory::memory_after, 4);
}

/// What the controller is told when a channel is armed for single items: one at
/// each edge of the trigger, from and to the places that the job names, as the
/// words in the registers say.
pub proof fn lemma_controller_armed(m: Memory, n: u8, trigger: TriggerSource, job: Job, k: int)
    requires
        n < 3,
        0 <= k,
    ensures
        ({
            let after = crate::memory::memory_after(m, arm_script(n, trigger, job));
            let up = |mode: AddrMode| match mode {
                AddrMode::Increment => 1int,
                AddrMode::Decrement => -1,
                AddrMode::Fixed => 0,
            };
            let width = if job.bytes {
                1int
            } else {
                2
            };
            &&& channel_word(after, n as int, 0) % 0x40 == 0x10
            &&& channel_word(after, n as int, 0) / 0x1000 == 0
            &&& channel_word(after, n as int, 10) == job.count
            &&& source_number(trigger) == triggered_by(after, n as int)
            &&& visits_from(after, n as int, k) == job.src + up(job.src_mode) * width * k
            &&& visits_to(after, n as int, k) == job.dst + up(job.dst_mode) * width * k
        }),
{
    let script = arm_script(n, trigger, job);
    let head = seq![trigger_step(n, trigger)] + address_script(n, job.src, job.dst, job.count);
    let control = job.control() as u16;
    let s7 = script.drop_last();
    assert(script.last() == (Step::Write16 { addr: ctl(n), value: control }));
    assert(s7.last() == Step::Barrier);
    assert(s7.drop_last() =~= head);
    reveal_with_fuel(crate::memory::memory_after, 3);
    lemma_set_up(m, n, trigger, job, control);
    assert(crate::memory::memory_after(m, script) == set_up(m, n, trigger, job, control));
    assert(0int * k == 0 && 0int * 1 * k == 0 && 0int * 2 * k == 0) by (nonlinear_arith);
    assert(1int * 1 * k == k && -1int * 1 * k == -k && 1int * 2 * k == 2 * k && -1int * 2 * k == -(2
        * k)) by (nonlinear_arith);
}

/// The trigger numbers of the device: the timers from 1 on, the serial modules
/// in pairs of receive and transmit from 14 on, then the converter, and the
/// multiplier, the channel before and the pin at the end.
pub open spec fn source_number(source: TriggerSource) -> int {
    match source {
        TriggerSource::DmaReq => 0,
        TriggerSource::Ta0Ccr0 => 1,
        TriggerSource::Ta0Ccr2 => 2,
        TriggerSource::Ta1Ccr0 => 3,
        TriggerSource::Ta1Ccr2 => 4,
        TriggerSource::Ta2Ccr0 => 5,
        TriggerSource::Ta3Ccr0 => 6,
        TriggerSource::Tb0Ccr0 => 7,
        TriggerSource::Tb0Ccr2 => 8,
        TriggerSource::UcA0Rx => 14,
        TriggerSource::UcA0Tx => 15,
        TriggerSource::UcA1Rx => 16,
        TriggerSource::UcA1Tx => 17,
        TriggerSource::UcB0Rx0 => 18,
        TriggerSource::UcB0Tx0 => 19,
        TriggerSource::UcB0Rx1 => 20,
        TriggerSource::UcB0Tx1 => 21,
        TriggerSource::UcB0Rx2 => 22,
        TriggerSource::UcB0Tx2 => 23,
        TriggerSource::UcB0Rx3 => 24,
        TriggerSource::UcB0Tx3 => 25,
        TriggerSource::Adc12 => 26,
        TriggerSource::MpyReady => 29,
        TriggerSource::PrevChannelDone => 30,
        TriggerSource::DmaE0 => 31,
    }
}

/// A transfer is over when the controller says so in bit 3 of the channel's
/// control word; that is then cleared, and nothing else is.
pub proof fn lemma_completion_on_registers(m: Memory, n: u8, patience: u64)
    requires
        n < 3,
    ensures
        finish_script(n, patience, true)[0] == (Step::Poll16 {
            addr: (0x0510 + 16 * n) as u32,
            until: Cond::Bits { mask: 0x0008, want: 0x0008 },
            budget: patience,
            met: true,
        }),
        ({
            let after = crate::memory::memory_after(m, finish_script(n, patience, true));
            &&& channel_word(after, n as int, 0) / 8 % 2 == 0
            &&& channel_word(after, n as int, 0) / 16 == channel_word(m, n as int, 0) / 16
            &&& channel_word(after, n as int, 0) % 8 == channel_word(m, n as int, 0) % 8
        }),
{
    let script = finish_script(n, patience, true);
    let s2 = script.drop_last();
    let s1 = s2.drop_last();
    assert(script.last() == Step::Barrier);
    assert(s2.last() == ctl_change(n, DMAIFG, 0));
    assert(s1.last() == completion(n, patience, true));
    assert(s1.drop_last() =~= Seq::empty());
    reveal_with_fuel(crate::memory::memory_after, 4);
    let w = crate::memory::word_in(m, ctl(n) as int);
    assert(((w & !0x0008u16) | 0u16) / 8 % 2 == 0 && ((w & !0x0008u16) | 0u16) / 16 == w / 16 && ((w
        & !0x0008u16) | 0u16) % 8 == w % 8) by (bit_vector);
}

/// A copy is as long as both buffers allow.
pub proof fn lemma_copy_length(a: u16, b: u16)
    ensures
        shorter(a, b) <= a,
        shorter(a, b) <= b,
        shorter(a, b) == a || shorter(a, b) == b,
{
}

/// Where the registers lie, and which bits and values they have.
pub proof fn lemma_layout()
    ensures
        DMACTL0 == 0x0500,
        DMACTL1 == 0x0502,
        DMACTL4 == 0x0508,
        DMAIV == 0x050E,
        DMARMWDIS == 4,
        DMAREQ == 1,
        DMAIE == 4,
        DMAIFG == 8,
        DMAEN == 16,
        DMALEVEL == 32,
        DMA_BYTES == 192,
        DMADT_BLOCK == 0x1000,
        SCRUB_READS == 101,
{
}

/// A stale trigger is scrubbed by a transfer of one word that nobody needs: the
/// channel is enabled (bit 4) on the level (bit 5) with both addresses standing
/// still, given 101 looks at its flag (bit 3) to fire, and switched off again,
/// flag and all.
pub proof fn lemma_scrub_steps(
    m: Memory,
    n: u8,
    trigger: TriggerSource,
    src: u16,
    dst: u16,
    met: bool,
    fired: bool,
)
    requires
        n < 3,
    ensures
        ({
            let script = scrub_script(n, trigger, src, dst, met, fired);
            let control = (0x0510 + 16 * n) as u32;
            let flag = Cond::Bits { mask: 8, want: 8 };
            &&& script.len() == 11
            &&& script[1] == (Step::Write16 { addr: (control + 2) as u32, value: src })
            &&& script[3] == (Step::Write16 { addr: (control + 6) as u32, value: dst })
            &&& script[5] == (Step::Write16 { addr: (control + 10) as u32, value: 1 })
            &&& script[6] == (Step::Write16 { addr: control, value: 48 })
            &&& script[7] == (Step::Poll16 { addr: control, until: flag, budget: 101, met })
            &&& script[8] == (Step::Test16 { addr: control, cond: flag, holds: fired })
            &&& script[9] == (Step::Masked {
                first: Edit::Store { addr: control, value: 0 },
                second: None,
            })
            &&& script[10] == Step::Barrier
        }),
{
}

/// Memory and channel stay in step: a channel is enabled only after the barrier
/// that lets its buffer be written, and a completed one is followed by the barrier
/// that lets it be read.
pub proof fn lemma_barriers(n: u8, trigger: TriggerSource, job: Job, patience: u64)
    requires
        n < 3,
    ensures
        ({
            let arm = arm_script(n, trigger, job);
            let block = block_script(n, job, patience, true);
            let control = (0x0510 + 16 * n) as u32;
            &&& arm.len() == 8
            &&& arm[6] == Step::Barrier
            &&& arm[7] matches Step::Write16 { addr, value }
            &&& addr == control
            &&& value as int / 16 % 2 == 1
            &&& block[7] == Step::Barrier
            &&& block[8] matches Step::Write16 { addr: to, value: word }
            &&& to == control
            &&& word % 2 == 1
            &&& block.last() == Step::Barrier
        }),
{
    assert(job.control() < 0x1000);
}

} // verus!
