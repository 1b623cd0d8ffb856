//! The CRC16 module: a shift register in hardware for the polynomial of
//! [`crate::crc_soft`].
//!
//! One register pair takes the most significant bit of each byte first, the
//! other the least significant one; the result can be read as it is or
//! mirrored. A byte store shifts eight bits in, a word store sixteen, the lower
//! byte first.
use vstd::prelude::*;

use crate::bus::{Bus, Hardware, Step};
use crate::pac::Crc16;
pub use crate::crc_soft::{crc16_ccitt_lsb, crc16_ccitt_msb};

verus! {

broadcast use crate::trace::group_growth;

/// Data, least significant bit first.
pub const CRCDI: u32 = 0x0150;

/// Data, most significant bit first.
pub const CRCDIRB: u32 = 0x0152;

/// Seed and result.
pub const CRCINIRES: u32 = 0x0154;

/// Result mirrored.
pub const CRCRESR: u32 = 0x0156;

/// Each byte stored at `addr`.
pub open spec fn byte_feed(addr: u32, data: Seq<u8>) -> Seq<Step> {
    data.map_values(|value: u8| Step::Write8 { addr, value })
}

/// Each word stored at `addr`.
pub open spec fn word_feed(addr: u32, data: Seq<u16>) -> Seq<Step> {
    data.map_values(|value: u16| Step::Write16 { addr, value })
}

/// A seed stored.
pub open spec fn seed_step(seed: u16) -> Step {
    Step::Write16 { addr: CRCINIRES, value: seed }
}

/// A whole checksum: a seed, the bytes, and a result read.
pub open spec fn checksum_script(
    seed: u16,
    input: u32,
    data: Seq<u8>,
    output: u32,
    value: u16,
) -> Seq<Step> {
    seq![seed_step(seed)] + byte_feed(input, data) + seq![Step::Read16 { addr: output, value }]
}

/// The CRC module.
pub struct Crc {
    crc: Crc16,
}

impl Crc {
    /// The peripheral.
    pub closed spec fn owned(self) -> Crc16 {
        self.crc
    }

    /// Takes the module. There is nothing to configure.
    pub fn new(crc: Crc16) -> (r: Self)
        ensures
            r.owned() == crc,
    {
        Crc { crc }
    }

    /// Gives the peripheral back.
    pub fn free(self) -> (r: Crc16)
        ensures
            r == self.owned(),
    {
        self.crc
    }

    /// Starts a checksum from a seed.
    pub fn begin<H: Hardware>(&mut self, bus: &mut Bus<H>, seed: u16)
        ensures
            *final(self) == *old(self),
            final(bus).ran(*old(bus), seq![seed_step(seed)]),
    {
        bus.write16(CRCINIRES, seed);
    }

    /// Takes bytes in, most significant bit first.
    pub fn write_msb_first<H: Hardware>(&mut self, bus: &mut Bus<H>, data: &[u8])
        ensures
            *final(self) == *old(self),
            final(bus).ran(*old(bus), byte_feed(CRCDIRB, data@)),
    {
        feed(bus, CRCDIRB, data);
    }

    /// Takes bytes in, least significant bit first.
    pub fn write_lsb_first<H: Hardware>(&mut self, bus: &mut Bus<H>, data: &[u8])
        ensures
            *final(self) == *old(self),
            final(bus).ran(*old(bus), byte_feed(CRCDI, data@)),
    {
        feed(bus, CRCDI, data);
    }

    /// Takes words in, the lower byte of each first, and of each byte the most
    /// significant bit.
    pub fn write_words_msb_first<H: Hardware>(&mut self, bus: &mut Bus<H>, data: &[u16])
        ensures
            *final(self) == *old(self),
            final(bus).ran(*old(bus), word_feed(CRCDIRB, data@)),
    {
        let mut i: usize = 0;
        assert(word_feed(CRCDIRB, data@.take(0)) =~= Seq::empty());
        while i < data.len()
            invariant
                i <= data@.len(),
                *self == *old(self),
                bus.ran(*old(bus), word_feed(CRCDIRB, data@.take(i as int))),
            decreases data@.len() - i,
        {
            bus.write16(CRCDIRB, data[i]);
            assert(word_feed(CRCDIRB, data@.take(i + 1)) =~= word_feed(
                CRCDIRB,
                data@.take(i as int),
            ).push(Step::Write16 { addr: CRCDIRB, value: data@[i as int] }));
            i = i + 1;
        }
        assert(data@.take(i as int) =~= data@);
    }

    /// The checksum so far.
    pub fn result<H: Hardware>(&self, bus: &mut Bus<H>) -> (r: u16)
        ensures
            final(bus).ran(*old(bus), seq![Step::Read16 { addr: CRCINIRES, value: r }]),
    {
        bus.read16(CRCINIRES)
    }

    /// The checksum so far, mirrored.
    pub fn result_bit_reversed<H: Hardware>(&self, bus: &mut Bus<H>) -> (r: u16)
        ensures
            final(bus).ran(*old(bus), seq![Step::Read16 { addr: CRCRESR, value: r }]),
    {
        bus.read16(CRCRESR)
    }

    /// CRC-16/CCITT-FALSE of `data`.
    pub fn ccitt_false<H: Hardware>(&mut self, bus: &mut Bus<H>, data: &[u8]) -> (r: u16)
        ensures
            *final(self) == *old(self),
            final(bus).ran(*old(bus), checksum_script(0xFFFF, CRCDIRB, data@, CRCINIRES, r)),
    {
        self.begin(bus, 0xFFFF);
        self.write_msb_first(bus, data);
        self.result(bus)
    }

    /// CRC-16/XMODEM of `data`.
    pub fn xmodem<H: Hardware>(&mut self, bus: &mut Bus<H>, data: &[u8]) -> (r: u16)
        ensures
            *final(self) == *old(self),
            final(bus).ran(*old(bus), checksum_script(0x0000, CRCDIRB, data@, CRCINIRES, r)),
    {
        self.begin(bus, 0x0000);
        self.write_msb_first(bus, data);
        self.result(bus)
    }

    /// CRC-16/KERMIT of `data`.
    pub fn kermit<H: Hardware>(&mut self, bus: &mut Bus<H>, data: &[u8]) -> (r: u16)
        ensures
            *final(self) == *old(self),
            final(bus).ran(*old(bus), checksum_script(0x0000, CRCDI, data@, CRCRESR, r)),
    {
        self.begin(bus, 0x0000);
        self.write_lsb_first(bus, data);
        self.result_bit_reversed(bus)
    }

    /// CRC-16/X-25 of `data`: the result is inverted at the end.
    pub fn x25<H: Hardware>(&mut self, bus: &mut Bus<H>, data: &[u8]) -> (r: u16)
        ensures
            *final(self) == *old(self),
            exists|value: u16|
                r == value ^ 0xFFFF && final(bus).ran(
                    *old(bus),
                    #[trigger] checksum_script(0xFFFF, CRCDI, data@, CRCRESR, value),
                ),
    {
        self.begin(bus, 0xFFFF);
        self.write_lsb_first(bus, data);
        let value: u16 = self.result_bit_reversed(bus);
        assert(bus.ran(*old(bus), checksum_script(0xFFFF, CRCDI, data@, CRCRESR, value)));
        value ^ 0xFFFF
    }
}

/// Stores each byte at `addr`.
fn feed<H: Hardware>(bus: &mut Bus<H>, addr: u32, data: &[u8])
    ensures
        final(bus).ran(*old(bus), byte_feed(addr, data@)),
{
    let mut i: usize = 0;
    assert(byte_feed(addr, data@.take(0)) =~= Seq::empty());
    while i < data.len()
        invariant
            i <= data@.len(),
            bus.ran(*old(bus), byte_feed(addr, data@.take(i as int))),
        decreases data@.len() - i,
    {
        bus.write8(addr, data[i]);
        assert(byte_feed(addr, data@.take(i + 1)) =~= byte_feed(addr, data@.take(i as int)).push(
            Step::Write8 { addr, value: data@[i as int] },
        ));
        i = i + 1;
    }
    assert(data@.take(i as int) =~= data@);
}

/// The shift register after a step.
pub open spec fn shifted(register: u16, step: Step) -> u16 {
    match step {
        Step::Write16 { addr, value } => if addr == CRCINIRES {
            value
        } else if addr == CRCDIRB {
            crate::crc_soft::byte_msb(
                crate::crc_soft::byte_msb(register, (value % 256) as u8),
                (value / 256) as u8,
            )
        } else {
            register
        },
        Step::Write8 { addr, value } => if addr == CRCDIRB {
            crate::crc_soft::byte_msb(register, value)
        } else if addr == CRCDI {
            crate::crc_soft::byte_msb(register, crate::crc_soft::mirror8(value))
        } else {
            register
        },
        _ => register,
    }
}

/// The shift register after a script.
pub open spec fn register_after(register: u16, script: Seq<Step>) -> u16
    decreases script.len(),
{
    if script.len() == 0 {
        register
    } else {
        shifted(register_after(register, script.drop_last()), script.last())
    }
}

/// What the module returns: the shift register, or its mirror image.
pub open spec fn answers(register: u16, output: u32, value: u16) -> bool {
    value == if output == CRCRESR {
        crate::crc_soft::mirror16(register)
    } else {
        register
    }
}

proof fn lemma_register_joins(register: u16, a: Seq<Step>, b: Seq<Step>)
    ensures
        register_after(register, a + b) == register_after(register_after(register, a), b),
    decreases b.len(),
{
    if b.len() == 0 {
        assert(a + b =~= a);
    } else {
        assert((a + b).drop_last() =~= a + b.drop_last());
        lemma_register_joins(register, a, b.drop_last());
    }
}

proof fn lemma_bytes_in(register: u16, data: Seq<u8>)
    ensures
        register_after(register, byte_feed(CRCDIRB, data)) == crate::crc_soft::crc_msb(
            register,
            data,
        ),
        register_after(register, byte_feed(CRCDI, data)) == crate::crc_soft::crc_msb(
            register,
            data.map_values(|b: u8| crate::crc_soft::mirror8(b)),
        ),
    decreases data.len(),
{
    if data.len() > 0 {
        lemma_bytes_in(register, data.drop_last());
        let flipped = data.map_values(|b: u8| crate::crc_soft::mirror8(b));
        assert(byte_feed(CRCDIRB, data).drop_last() =~= byte_feed(CRCDIRB, data.drop_last()));
        assert(byte_feed(CRCDI, data).drop_last() =~= byte_feed(CRCDI, data.drop_last()));
        assert(flipped.drop_last() =~= data.drop_last().map_values(
            |b: u8| crate::crc_soft::mirror8(b),
        ));
    }
}

/// On a module that shifts and answers as it should, the checksums are those
/// that [`crate::crc_soft`] computes, whatever the register held before.
pub proof fn lemma_checksums(before: u16, seed: u16, data: Seq<u8>, value: u16)
    ensures
        ({
            let script = seq![seed_step(seed)] + byte_feed(CRCDIRB, data);
            answers(register_after(before, script), CRCINIRES, value) ==> value
                == crate::crc_soft::crc_msb(seed, data)
        }),
        ({
            let script = seq![seed_step(seed)] + byte_feed(CRCDI, data);
            answers(register_after(before, script), CRCRESR, value) ==> value
                == crate::crc_soft::crc_lsb(crate::crc_soft::mirror16(seed), data)
        }),
        crate::crc_soft::mirror16(0) == 0,
        crate::crc_soft::mirror16(0xFFFF) == 0xFFFF,
{
    let head = seq![seed_step(seed)];
    lemma_register_joins(before, head, byte_feed(CRCDIRB, data));
    lemma_register_joins(before, head, byte_feed(CRCDI, data));
    reveal_with_fuel(register_after, 2);
    assert(register_after(before, head) == seed);
    lemma_bytes_in(seed, data);
    let flipped = data.map_values(|b: u8| crate::crc_soft::mirror8(b));
    crate::crc_soft::lemma_mirror(seed, flipped);
    assert(flipped.map_values(|b: u8| crate::crc_soft::mirror8(b)) =~= data) by {
        assert forall|i: int| 0 <= i < data.len() implies crate::crc_soft::mirror8(
            #[trigger] flipped[i],
        ) == data[i] by {
            let b = data[i];
            assert(crate::crc_soft::mirror8(crate::crc_soft::mirror8(b)) == b) by (bit_vector);
        }
    }
    assert(crate::crc_soft::mirror16(0) == 0 && crate::crc_soft::mirror16(0xFFFF) == 0xFFFF)
        by (bit_vector);
}

/// Taking words in is the same as taking in their bytes, the lower one first.
pub proof fn lemma_words_are_bytes(register: u16, data: Seq<u16>)
    ensures
        register_after(register, word_feed(CRCDIRB, data)) == crate::crc_soft::crc_msb(
            register,
            serialized(data),
        ),
    decreases data.len(),
{
    if data.len() > 0 {
        let front = data.drop_last();
        lemma_words_are_bytes(register, front);
        assert(word_feed(CRCDIRB, data).drop_last() =~= word_feed(CRCDIRB, front));
        let low = (data.last() % 256) as u8;
        let high = (data.last() / 256) as u8;
        assert(serialized(data).drop_last() =~= serialized(front).push(low));
        assert(serialized(front).push(low).drop_last() =~= serialized(front));
        assert(serialized(data).last() == high);
        reveal_with_fuel(crate::crc_soft::crc_msb, 3);
    }
}

/// The bytes of words, the lower one first.
pub open spec fn serialized(data: Seq<u16>) -> Seq<u8> {
    Seq::new(
        2 * data.len(),
        |i: int|
            if i % 2 == 0 {
                (data[i / 2] % 256) as u8
            } else {
                (data[i / 2] / 256) as u8
            },
    )
}

/// Where the registers lie, and which bits and values they have.
pub proof fn lemma_layout()
    ensures
        CRCDI == 0x0150,
        CRCDIRB == 0x0152,
        CRCINIRES == 0x0154,
        CRCRESR == 0x0156,
{
}

/// A checksum by the module is the checksum of the bytes, on a module that shifts
/// as [`shifted`] says: highest bit first through the input at 0x0152 and the
/// result at 0x0154, lowest bit first through the input at 0x0150 and the result
/// at 0x0156, whatever it did before.
pub proof fn lemma_checksum_told(before: u16, seed: u16, data: Seq<u8>, value: u16)
    ensures
        ({
            let script = checksum_script(seed, 0x0152, data, 0x0154, value);
            &&& script.last() == (Step::Read16 { addr: 0x0154, value })
            &&& answers(register_after(before, script.drop_last()), 0x0154, value) ==> value
                == crate::crc_soft::crc_msb(seed, data)
        }),
        ({
            let script = checksum_script(seed, 0x0150, data, 0x0156, value);
            &&& script.last() == (Step::Read16 { addr: 0x0156, value })
            &&& answers(register_after(before, script.drop_last()), 0x0156, value) ==> value
                == crate::crc_soft::crc_lsb(crate::crc_soft::mirror16(seed), data)
        }),
{
    lemma_checksums(before, seed, data, value);
    assert(checksum_script(seed, 0x0152, data, 0x0154, value).drop_last() =~= seq![seed_step(seed)]
        + byte_feed(CRCDIRB, data));
    assert(checksum_script(seed, 0x0150, data, 0x0156, value).drop_last() =~= seq![seed_step(seed)]
        + byte_feed(CRCDI, data));
}

} // verus!
