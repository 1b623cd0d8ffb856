//! Storage in FRAM, which is written like RAM and keeps its contents without
//! power.
//!
//! [`InfoFram`] is the 512 bytes of information FRAM, [`HighFram`] the 16 KB
//! above the 16-bit address space. Offsets count from the start of a region.
use vstd::prelude::*;

use crate::bus::{Bus, Hardware, Step};
use crate::fram_addr::{check_bounds, FramError, HIGH_BASE, HIGH_CAPACITY, INFO_BASE, INFO_CAPACITY};
use crate::memory::Memory;
pub use crate::fram_addr::FramError as Error;

verus! {

broadcast use crate::trace::group_growth;

/// The bytes from `addr` on read as `data`.
pub open spec fn read_script(addr: int, data: Seq<u8>) -> Seq<Step> {
    Seq::new(data.len(), |i: int| Step::Read8 { addr: (addr + i) as u32, value: data[i] })
}

/// `data` stored from `addr` on.
pub open spec fn write_script(addr: int, data: Seq<u8>) -> Seq<Step> {
    Seq::new(data.len(), |i: int| Step::Write8 { addr: (addr + i) as u32, value: data[i] })
}

/// A read of a region: all bytes, or none where they are not all in it.
pub open spec fn read_outcome<H: Hardware>(
    base: int,
    capacity: int,
    offset: u32,
    before: Seq<u8>,
    after: Seq<u8>,
    r: Result<(), FramError>,
    bus: Bus<H>,
    old_bus: Bus<H>,
) -> bool {
    &&& after.len() == before.len()
    &&& if offset + before.len() <= capacity {
        r is Ok && bus.ran(old_bus, read_script(base + offset, after))
    } else {
        &&& r == Err::<(), FramError>(FramError::OutOfBounds)
        &&& after == before
        &&& bus.ran(old_bus, Seq::empty())
    }
}

/// A write to a region: all bytes, or none where they do not all fit.
pub open spec fn write_outcome<H: Hardware>(
    base: int,
    capacity: int,
    offset: u32,
    data: Seq<u8>,
    r: Result<(), FramError>,
    bus: Bus<H>,
    old_bus: Bus<H>,
) -> bool {
    if offset + data.len() <= capacity {
        r is Ok && bus.ran(old_bus, write_script(base + offset, data))
    } else {
        r == Err::<(), FramError>(FramError::OutOfBounds) && bus.ran(old_bus, Seq::empty())
    }
}

/// Information FRAM. There is to be one of these.
#[derive(Debug)]
pub struct InfoFram {
    _private: (),
}

impl Default for InfoFram {
    fn default() -> Self {
        InfoFram { _private: () }
    }
}

impl InfoFram {
    /// A handle on the region.
    pub fn new() -> Self {
        InfoFram { _private: () }
    }

    /// Fills `bytes` from `offset` on.
    pub fn read<H: Hardware>(&mut self, bus: &mut Bus<H>, offset: u32, bytes: &mut [u8]) -> (r:
        Result<(), FramError>)
        ensures
            read_outcome(
                INFO_BASE as int,
                INFO_CAPACITY as int,
                offset,
                old(bytes)@,
                final(bytes)@,
                r,
                *final(bus),
                *old(bus),
            ),
    {
        match check_bounds(offset, bytes.len(), INFO_CAPACITY) {
            Ok(()) => {},
            Err(e) => {
                return Err(e);
            },
        }
        load(bus, INFO_BASE as u32 + offset, bytes);
        Ok(())
    }

    /// The size of the region.
    pub fn capacity(&self) -> (r: usize)
        ensures
            r == INFO_CAPACITY,
    {
        INFO_CAPACITY
    }

    /// Stores `bytes` from `offset` on.
    pub fn write<H: Hardware>(&mut self, bus: &mut Bus<H>, offset: u32, bytes: &[u8]) -> (r: Result<
        (),
        FramError,
    >)
        ensures
            write_outcome(
                INFO_BASE as int,
                INFO_CAPACITY as int,
                offset,
                bytes@,
                r,
                *final(bus),
                *old(bus),
            ),
    {
        match check_bounds(offset, bytes.len(), INFO_CAPACITY) {
            Ok(()) => {},
            Err(e) => {
                return Err(e);
            },
        }
        store(bus, INFO_BASE as u32 + offset, bytes);
        Ok(())
    }
}

/// Upper FRAM. There is to be one of these.
#[derive(Debug)]
pub struct HighFram {
    _private: (),
}

impl Default for HighFram {
    fn default() -> Self {
        HighFram { _private: () }
    }
}

impl HighFram {
    /// A handle on the region.
    pub fn new() -> Self {
        HighFram { _private: () }
    }

    /// Fills `bytes` from `offset` on.
    pub fn read<H: Hardware>(&mut self, bus: &mut Bus<H>, offset: u32, bytes: &mut [u8]) -> (r:
        Result<(), FramError>)
        ensures
            read_outcome(
                HIGH_BASE as int,
                HIGH_CAPACITY as int,
                offset,
                old(bytes)@,
                final(bytes)@,
                r,
                *final(bus),
                *old(bus),
            ),
    {
        match check_bounds(offset, bytes.len(), HIGH_CAPACITY) {
            Ok(()) => {},
            Err(e) => {
                return Err(e);
            },
        }
        load(bus, HIGH_BASE + offset, bytes);
        Ok(())
    }

    /// The size of the region.
    pub fn capacity(&self) -> (r: usize)
        ensures
            r == HIGH_CAPACITY,
    {
        HIGH_CAPACITY
    }

    /// Stores `bytes` from `offset` on.
    pub fn write<H: Hardware>(&mut self, bus: &mut Bus<H>, offset: u32, bytes: &[u8]) -> (r: Result<
        (),
        FramError,
    >)
        ensures
            write_outcome(
                HIGH_BASE as int,
                HIGH_CAPACITY as int,
                offset,
                bytes@,
                r,
                *final(bus),
                *old(bus),
            ),
    {
        match check_bounds(offset, bytes.len(), HIGH_CAPACITY) {
            Ok(()) => {},
            Err(e) => {
                return Err(e);
            },
        }
        store(bus, HIGH_BASE + offset, bytes);
        Ok(())
    }
}

/// Fills `bytes` from `addr` on.
fn load<H: Hardware>(bus: &mut Bus<H>, addr: u32, bytes: &mut [u8])
    requires
        addr + old(bytes)@.len() <= 0xF_FFFF,
    ensures
        final(bytes)@.len() == old(bytes)@.len(),
        final(bus).ran(*old(bus), read_script(addr as int, final(bytes)@)),
{
    let len: usize = bytes.len();
    let mut i: usize = 0;
    assert(read_script(addr as int, bytes@.take(0)) =~= Seq::empty());
    while i < len
        invariant
            i <= len,
            len == bytes@.len(),
            len == old(bytes)@.len(),
            addr + len <= 0xF_FFFF,
            bus.ran(*old(bus), read_script(addr as int, bytes@.take(i as int))),
        decreases len - i,
    {
        let ghost before = bytes@;
        let value: u8 = bus.read8(addr + i as u32);
        bytes[i] = value;
        proof {
            assert(bytes@.take(i + 1) =~= before.take(i as int).push(value));
            assert(read_script(addr as int, bytes@.take(i + 1)) =~= read_script(
                addr as int,
                before.take(i as int),
            ).push(Step::Read8 { addr: (addr + i) as u32, value }));
        }
        i = i + 1;
    }
    assert(bytes@.take(i as int) =~= bytes@);
}

/// Stores `bytes` from `addr` on.
fn store<H: Hardware>(bus: &mut Bus<H>, addr: u32, bytes: &[u8])
    requires
        addr + bytes@.len() <= 0xF_FFFF,
    ensures
        final(bus).ran(*old(bus), write_script(addr as int, bytes@)),
{
    let len: usize = bytes.len();
    let mut i: usize = 0;
    assert(write_script(addr as int, bytes@.take(0)) =~= Seq::empty());
    while i < len
        invariant
            i <= len,
            len == bytes@.len(),
            addr + len <= 0xF_FFFF,
            bus.ran(*old(bus), write_script(addr as int, bytes@.take(i as int))),
        decreases len - i,
    {
        bus.write8(addr + i as u32, bytes[i]);
        proof {
            assert(write_script(addr as int, bytes@.take(i + 1)) =~= write_script(
                addr as int,
                bytes@.take(i as int),
            ).push(Step::Write8 { addr: (addr + i) as u32, value: bytes@[i as int] }));
        }
        i = i + 1;
    }
    assert(bytes@.take(i as int) =~= bytes@);
}

/// Every byte read is what the memory holds.
pub open spec fn reads_from(script: Seq<Step>, memory: Memory) -> bool {
    forall|i: int|
        0 <= i < script.len() ==> (#[trigger] script[i] matches Step::Read8 { addr, value }
            ==> value == memory(addr as int))
}

/// Where a write lands, and where not.
pub(crate) proof fn lemma_write_lands(memory: Memory, at: int, data: Seq<u8>, a: int)
    requires
        0 <= at,
        at + data.len() <= 0xF_FFFF,
    ensures
        crate::memory::memory_after(memory, write_script(at, data))(a) == if at <= a < at + data.len() {
            data[a - at]
        } else {
            memory(a)
        },
    decreases data.len(),
{
    if data.len() > 0 {
        lemma_write_lands(memory, at, data.drop_last(), a);
        assert(write_script(at, data).drop_last() =~= write_script(at, data.drop_last()));
        assert(write_script(at, data).last() == (Step::Write8 {
            addr: (at + data.len() - 1) as u32,
            value: data.last(),
        }));
    }
}

/// Reads leave the memory as it is.
pub(crate) proof fn lemma_reads_keep(memory: Memory, script: Seq<Step>)
    requires
        forall|i: int| 0 <= i < script.len() ==> (#[trigger] script[i]) is Read8,
    ensures
        forall|a: int| #[trigger] crate::memory::memory_after(memory, script)(a) == memory(a),
    decreases script.len(),
{
    if script.len() > 0 {
        assert forall|i: int| 0 <= i < script.drop_last().len() implies (
        #[trigger] script.drop_last()[i]) is Read8 by {
            assert(script[i] is Read8);
        }
        lemma_reads_keep(memory, script.drop_last());
        let inner = crate::memory::memory_after(memory, script.drop_last());
        assert(script[script.len() - 1] is Read8);
        assert(crate::memory::memory_after(memory, script) == crate::memory::stored(inner, script.last()));
        assert forall|a: int| #[trigger] crate::memory::memory_after(memory, script)(a) == memory(a) by {
            assert(inner(a) == memory(a));
        }
    }
}

/// A read gives back what was written: after `data` was stored from `at` on, a
/// read of any bytes finds `data` where it was stored and what was there before
/// everywhere else.
pub proof fn lemma_read_back(
    memory: Memory,
    at: int,
    data: Seq<u8>,
    from: int,
    got: Seq<u8>,
)
    requires
        0 <= at,
        at + data.len() <= 0xF_FFFF,
        0 <= from,
        from + got.len() <= 0xF_FFFF,
        reads_from(read_script(from, got), crate::memory::memory_after(memory, write_script(at, data))),
    ensures
        forall|i: int|
            0 <= i < got.len() ==> #[trigger] got[i] == if at <= from + i < at + data.len() {
                data[from + i - at]
            } else {
                memory(from + i)
            },
        at == from && data.len() == got.len() ==> got == data,
{
    let memory2 = crate::memory::memory_after(memory, write_script(at, data));
    assert forall|i: int| 0 <= i < got.len() implies #[trigger] got[i] == if at <= from + i < at
        + data.len() {
        data[from + i - at]
    } else {
        memory(from + i)
    } by {
        assert(read_script(from, got)[i] == (Step::Read8 {
            addr: (from + i) as u32,
            value: got[i],
        }));
        lemma_write_lands(memory, at, data, from + i);
    }
    if at == from && data.len() == got.len() {
        assert(got =~= data);
    }
}

/// Reading finds what is there, byte by byte.
pub(crate) proof fn lemma_reads_found(memory: Memory, from: int, got: Seq<u8>)
    requires
        0 <= from,
        from + got.len() <= 0xF_FFFF,
        crate::memory::remembered(memory, read_script(from, got)),
    ensures
        reads_from(read_script(from, got), memory),
    decreases got.len(),
{
    let script = read_script(from, got);
    if got.len() > 0 {
        let front = got.drop_last();
        assert(script.drop_last() =~= read_script(from, front));
        lemma_reads_found(memory, from, front);
        lemma_reads_keep(memory, read_script(from, front));
        assert forall|i: int| 0 <= i < script.len() implies (#[trigger] script[i] matches Step::Read8 {
            addr,
            value,
        } ==> value == memory(addr as int)) by {
            if i < front.len() {
                assert(script[i] == read_script(from, front)[i]);
            } else {
                assert(script[i] == script.last());
            }
        }
    }
}

/// A write that fits reads back and leaves all other bytes as they were; one
/// that does not fit is refused and changes nothing. `pre`, `mid` and `post` are
/// the bus before the write, between the two and after the read of as many bytes
/// at the same place; the memory holds `memory` at first, and reads find what it
/// holds.
pub proof fn lemma_write_then_read<H: Hardware>(
    base: int,
    capacity: int,
    memory: Memory,
    offset: u32,
    bytes: Seq<u8>,
    written: Result<(), FramError>,
    blank: Seq<u8>,
    got: Seq<u8>,
    read: Result<(), FramError>,
    pre: Bus<H>,
    mid: Bus<H>,
    post: Bus<H>,
)
    requires
        (base == INFO_BASE && capacity == INFO_CAPACITY) || (base == HIGH_BASE && capacity
            == HIGH_CAPACITY),
        write_outcome(base, capacity, offset, bytes, written, mid, pre),
        read_outcome(base, capacity, offset, blank, got, read, post, mid),
        blank.len() == bytes.len(),
        crate::memory::recalled(memory, pre, post),
    ensures
        if offset + bytes.len() > capacity {
            written == Err::<(), FramError>(FramError::OutOfBounds)
        } else {
            written is Ok
        },
        written is Err ==> forall|a: int| #[trigger]
            crate::memory::left(memory, pre, mid)(a) == memory(a),
        written is Ok ==> read is Ok && got == bytes,
        written is Ok ==> forall|a: int|
            #![trigger crate::memory::left(memory, pre, mid)(a)]
            !(base + offset <= a < base + offset + bytes.len()) ==> crate::memory::left(
                memory,
                pre,
                mid,
            )(a) == memory(a),
{
    if offset + bytes.len() <= capacity {
        let at = base + offset;
        let first = write_script(at, bytes);
        let second = read_script(at, got);
        crate::memory::lemma_ran_joins(memory, pre, mid, post, first, second);
        let after = crate::memory::memory_after(memory, first);
        lemma_reads_found(after, at, got);
        lemma_read_back(memory, at, bytes, at, got);
        assert forall|a: int|
            #![trigger crate::memory::left(memory, pre, mid)(a)]
            !(at <= a < at + bytes.len()) implies crate::memory::left(memory, pre, mid)(a)
            == memory(a) by {
            lemma_write_lands(memory, at, bytes, a);
        }
    } else {
        assert(mid@.skip(pre@.len() as int) =~= Seq::empty());
    }
}

/// The regions do not overlap, and no access that is allowed leaves its region.
pub proof fn lemma_regions_apart(offset: u32, len: nat, i: int)
    requires
        0 <= i < len,
    ensures
        offset + len <= INFO_CAPACITY ==> 0x1800 <= INFO_BASE + offset + i < 0x1A00,
        offset + len <= HIGH_CAPACITY ==> 0x1_0000 <= HIGH_BASE + offset + i < 0x1_4000,
        INFO_BASE + INFO_CAPACITY <= HIGH_BASE,
{
}

/// The regions: 512 bytes up to 0x1A00, and 16 KB up to 0x14000, in which an access
/// goes byte after byte from the offset on.
pub proof fn lemma_region_ends(offset: u32, data: Seq<u8>, k: int)
    requires
        0 <= k < data.len(),
        offset + data.len() <= 0x4000,
    ensures
        INFO_BASE + INFO_CAPACITY == 0x1A00 && INFO_CAPACITY == 512,
        HIGH_BASE + HIGH_CAPACITY == 0x1_4000 && HIGH_CAPACITY == 16 * 1024,
        write_script(HIGH_BASE + offset, data)[k] == (Step::Write8 {
            addr: (0x1_0000 + offset + k) as u32,
            value: data[k],
        }),
        read_script(HIGH_BASE + offset, data)[k] == (Step::Read8 {
            addr: (0x1_0000 + offset + k) as u32,
            value: data[k],
        }),
{
}

/// An access that would run past the end of its region is refused and touches
/// neither the memory nor the buffer.
pub proof fn lemma_refused<H: Hardware>(
    base: int,
    capacity: int,
    offset: u32,
    before: Seq<u8>,
    after: Seq<u8>,
    r: Result<(), FramError>,
    pre: Bus<H>,
    post: Bus<H>,
)
    requires
        offset + before.len() > capacity,
    ensures
        read_outcome(base, capacity, offset, before, after, r, post, pre) ==> r is Err && after
            =~= before && post@ =~= pre@,
        write_outcome(base, capacity, offset, before, r, post, pre) ==> r is Err && post@ =~= pre@,
{
}

} // verus!
