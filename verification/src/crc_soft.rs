//! CRC-16 with the polynomial x^16 + x^12 + x^5 + 1, computed bit by bit.
//!
//! The checksum is what a 16-bit shift register with feedback holds after the
//! message bits were shifted in. Two conventions are in use: the most
//! significant bit of each byte first, or the least significant one first with
//! the register mirrored.
use vstd::prelude::*;

verus! {

/// The feedback polynomial.
pub const POLY_MSB: u16 = 0x1021;

/// The feedback polynomial mirrored.
pub const POLY_LSB: u16 = 0x8408;

/// The shift register after one message bit, most significant bit first.
pub open spec fn shift_msb(crc: u16, bit: bool) -> u16 {
    if (crc & 0x8000 != 0) != bit {
        (crc << 1) ^ POLY_MSB
    } else {
        crc << 1
    }
}

/// The mirrored shift register after one message bit.
pub open spec fn shift_lsb(crc: u16, bit: bool) -> u16 {
    if (crc & 1 != 0) != bit {
        (crc >> 1) ^ POLY_LSB
    } else {
        crc >> 1
    }
}

/// Bit `i` of a byte.
pub open spec fn bit(byte: u8, i: u8) -> bool {
    byte & (1u8 << i) != 0
}

/// One byte, most significant bit first.
pub open spec fn byte_msb(crc: u16, b: u8) -> u16 {
    let c = shift_msb(shift_msb(shift_msb(shift_msb(crc, bit(b, 7)), bit(b, 6)), bit(b, 5)), bit(b, 4));
    shift_msb(shift_msb(shift_msb(shift_msb(c, bit(b, 3)), bit(b, 2)), bit(b, 1)), bit(b, 0))
}

/// One byte, least significant bit first.
pub open spec fn byte_lsb(crc: u16, b: u8) -> u16 {
    let c = shift_lsb(shift_lsb(shift_lsb(shift_lsb(crc, bit(b, 0)), bit(b, 1)), bit(b, 2)), bit(b, 3));
    shift_lsb(shift_lsb(shift_lsb(shift_lsb(c, bit(b, 4)), bit(b, 5)), bit(b, 6)), bit(b, 7))
}

/// A message, most significant bits first.
pub open spec fn crc_msb(seed: u16, data: Seq<u8>) -> u16
    decreases data.len(),
{
    if data.len() == 0 {
        seed
    } else {
        byte_msb(crc_msb(seed, data.drop_last()), data.last())
    }
}

/// A message, least significant bits first.
pub open spec fn crc_lsb(seed: u16, data: Seq<u8>) -> u16
    decreases data.len(),
{
    if data.len() == 0 {
        seed
    } else {
        byte_lsb(crc_lsb(seed, data.drop_last()), data.last())
    }
}

/// The register after a shift without a message bit.
spec fn advance_msb(crc: u16) -> u16 {
    if crc & 0x8000 != 0 {
        (crc << 1) ^ POLY_MSB
    } else {
        crc << 1
    }
}

spec fn advance_lsb(crc: u16) -> u16 {
    if crc & 1 != 0 {
        (crc >> 1) ^ POLY_LSB
    } else {
        crc >> 1
    }
}

spec fn advance_msb4(crc: u16) -> u16 {
    advance_msb(advance_msb(advance_msb(advance_msb(crc))))
}

spec fn advance_lsb4(crc: u16) -> u16 {
    advance_lsb(advance_lsb(advance_lsb(advance_lsb(crc))))
}

/// Shifting the bits of a byte in one by one is the same as adding the byte to
/// the register and shifting eight times.
proof fn lemma_byte_msb(crc: u16, b: u8)
    ensures
        byte_msb(crc, b) == advance_msb4(advance_msb4(crc ^ ((b as u16) << 8))),
{
    assert(byte_msb(crc, b) == advance_msb4(advance_msb4(crc ^ ((b as u16) << 8)))) by (bit_vector);
}

proof fn lemma_byte_lsb(crc: u16, b: u8)
    ensures
        byte_lsb(crc, b) == advance_lsb4(advance_lsb4(crc ^ (b as u16))),
{
    assert(byte_lsb(crc, b) == advance_lsb4(advance_lsb4(crc ^ (b as u16)))) by (bit_vector);
}

/// `n` shifts without message bits.
spec fn advance_msb_by(crc: u16, n: nat) -> u16
    decreases n,
{
    if n == 0 {
        crc
    } else {
        advance_msb(advance_msb_by(crc, (n - 1) as nat))
    }
}

spec fn advance_lsb_by(crc: u16, n: nat) -> u16
    decreases n,
{
    if n == 0 {
        crc
    } else {
        advance_lsb(advance_lsb_by(crc, (n - 1) as nat))
    }
}

/// Most-significant-bit-first update over `data` from the register value
/// `seed`. CRC-16/CCITT-FALSE starts from `0xFFFF`, XMODEM from 0.
pub fn crc16_ccitt_msb(seed: u16, data: &[u8]) -> (r: u16)
    ensures
        r == crc_msb(seed, data@),
{
    let mut crc: u16 = seed;
    let mut i: usize = 0;
    while i < data.len()
        invariant
            i <= data@.len(),
            crc == crc_msb(seed, data@.take(i as int)),
        decreases data@.len() - i,
    {
        let b: u8 = data[i];
        let ghost before = crc;
        crc = crc ^ ((b as u16) << 8);
        let ghost mixed = crc;
        let mut k: u8 = 0;
        while k < 8
            invariant
                k <= 8,
                crc == advance_msb_by(mixed, k as nat),
            decreases 8 - k,
        {
            crc = if crc & 0x8000 != 0 {
                (crc << 1) ^ POLY_MSB
            } else {
                crc << 1
            };
            k = k + 1;
        }
        proof {
            lemma_byte_msb(before, b);
            reveal_with_fuel(advance_msb_by, 9);
            assert(data@.take(i + 1).drop_last() =~= data@.take(i as int));
        }
        i = i + 1;
    }
    assert(data@.take(i as int) =~= data@);
    crc
}

/// Least-significant-bit-first update over `data` from the mirrored register
/// value `seed`. CRC-16/KERMIT starts from 0, X-25 from `0xFFFF` with the
/// result inverted.
pub fn crc16_ccitt_lsb(seed: u16, data: &[u8]) -> (r: u16)
    ensures
        r == crc_lsb(seed, data@),
{
    let mut crc: u16 = seed;
    let mut i: usize = 0;
    while i < data.len()
        invariant
            i <= data@.len(),
            crc == crc_lsb(seed, data@.take(i as int)),
        decreases data@.len() - i,
    {
        let b: u8 = data[i];
        let ghost before = crc;
        crc = crc ^ (b as u16);
        let ghost mixed = crc;
        let mut k: u8 = 0;
        while k < 8
            invariant
                k <= 8,
                crc == advance_lsb_by(mixed, k as nat),
            decreases 8 - k,
        {
            crc = if crc & 1 != 0 {
                (crc >> 1) ^ POLY_LSB
            } else {
                crc >> 1
            };
            k = k + 1;
        }
        proof {
            lemma_byte_lsb(before, b);
            reveal_with_fuel(advance_lsb_by, 9);
            assert(data@.take(i + 1).drop_last() =~= data@.take(i as int));
        }
        i = i + 1;
    }
    assert(data@.take(i as int) =~= data@);
    crc
}

/// A message can be checked in parts: the checksum of the first part is the
/// seed of the second.
pub proof fn lemma_parts(seed: u16, a: Seq<u8>, b: Seq<u8>)
    ensures
        crc_msb(seed, a + b) == crc_msb(crc_msb(seed, a), b),
        crc_lsb(seed, a + b) == crc_lsb(crc_lsb(seed, a), b),
    decreases b.len(),
{
    if b.len() == 0 {
        assert(a + b =~= a);
    } else {
        assert((a + b).drop_last() =~= a + b.drop_last());
        lemma_parts(seed, a, b.drop_last());
    }
}

/// The word with its bits in reverse order.
pub open spec fn mirror16(x: u16) -> u16 {
    let a = ((x & 0x5555) << 1) | ((x >> 1) & 0x5555);
    let b = ((a & 0x3333) << 2) | ((a >> 2) & 0x3333);
    let c = ((b & 0x0F0F) << 4) | ((b >> 4) & 0x0F0F);
    (c << 8) | (c >> 8)
}

/// The byte with its bits in reverse order.
pub open spec fn mirror8(x: u8) -> u8 {
    let a = ((x & 0x55) << 1) | ((x >> 1) & 0x55);
    let b = ((a & 0x33) << 2) | ((a >> 2) & 0x33);
    (b << 4) | (b >> 4)
}

proof fn lemma_mirror_byte(crc: u16, b: u8)
    ensures
        byte_lsb(mirror16(crc), mirror8(b)) == mirror16(byte_msb(crc, b)),
{
    assert(byte_lsb(mirror16(crc), mirror8(b)) == mirror16(byte_msb(crc, b))) by (bit_vector);
}

/// The two conventions are one computation seen in a mirror: reversed bytes
/// and a reversed seed give the reversed checksum.
pub proof fn lemma_mirror(seed: u16, data: Seq<u8>)
    ensures
        crc_lsb(mirror16(seed), data.map_values(|b: u8| mirror8(b))) == mirror16(
            crc_msb(seed, data),
        ),
    decreases data.len(),
{
    let mirrored = data.map_values(|b: u8| mirror8(b));
    if data.len() > 0 {
        lemma_mirror(seed, data.drop_last());
        assert(mirrored.drop_last() =~= data.drop_last().map_values(|b: u8| mirror8(b)));
        lemma_mirror_byte(crc_msb(seed, data.drop_last()), data.last());
    }
}

/// The shift register of the checksum, x^16 + x^12 + x^5 + 1, bit by bit: each bit
/// moves up, and what leaves at the top, against the message, comes back in at
/// bits 0, 5 and 12.
pub proof fn lemma_taps(crc: u16, message: bool, i: u16)
    requires
        i < 16,
    ensures
        ({
            let back = ((crc >> 15) & 1 == 1) != message;
            let moved = i > 0 && (crc >> ((i - 1) as u16)) & 1 == 1;
            ((shift_msb(crc, message) >> i) & 1 == 1) == if i == 0 || i == 5 || i == 12 {
                moved != back
            } else {
                moved
            }
        }),
{
    let back = ((crc >> 15) & 1 == 1) != message;
    let below = if i > 0 {
        (i - 1) as u16
    } else {
        0
    };
    assert(((crc & 0x8000 != 0) == ((crc >> 15) & 1 == 1)) && (i < 16 && (i > 0 ==> below + 1 == i) ==> ((((crc << 1) >> i) & 1 == 1) == (i > 0 && (crc
        >> below) & 1 == 1)) && (((((crc << 1) ^ 0x1021) >> i) & 1 == 1) == if i == 0 || i == 5 || i
        == 12 {
        !(i > 0 && (crc >> below) & 1 == 1)
    } else {
        i > 0 && (crc >> below) & 1 == 1
    }))) by (bit_vector);
}

/// Mirrored, the lowest bit is the highest and so on.
pub proof fn lemma_mirrors(x: u16, i: u16, b: u8, j: u8)
    requires
        i < 16,
        j < 8,
    ensures
        (mirror16(x) >> i) & 1 == (x >> ((15 - i) as u16)) & 1,
        (mirror8(b) >> j) & 1 == (b >> ((7 - j) as u8)) & 1,
{
    assert((mirror16(x) >> 0) & 1 == (x >> 15) & 1
        && (mirror16(x) >> 1) & 1 == (x >> 14) & 1
        && (mirror16(x) >> 2) & 1 == (x >> 13) & 1
        && (mirror16(x) >> 3) & 1 == (x >> 12) & 1
        && (mirror16(x) >> 4) & 1 == (x >> 11) & 1
        && (mirror16(x) >> 5) & 1 == (x >> 10) & 1
        && (mirror16(x) >> 6) & 1 == (x >> 9) & 1
        && (mirror16(x) >> 7) & 1 == (x >> 8) & 1
        && (mirror16(x) >> 8) & 1 == (x >> 7) & 1
        && (mirror16(x) >> 9) & 1 == (x >> 6) & 1
        && (mirror16(x) >> 10) & 1 == (x >> 5) & 1
        && (mirror16(x) >> 11) & 1 == (x >> 4) & 1
        && (mirror16(x) >> 12) & 1 == (x >> 3) & 1
        && (mirror16(x) >> 13) & 1 == (x >> 2) & 1
        && (mirror16(x) >> 14) & 1 == (x >> 1) & 1
        && (mirror16(x) >> 15) & 1 == (x >> 0) & 1
        && (mirror8(b) >> 0) & 1 == (b >> 7) & 1
        && (mirror8(b) >> 1) & 1 == (b >> 6) & 1
        && (mirror8(b) >> 2) & 1 == (b >> 5) & 1
        && (mirror8(b) >> 3) & 1 == (b >> 4) & 1
        && (mirror8(b) >> 4) & 1 == (b >> 3) & 1
        && (mirror8(b) >> 5) & 1 == (b >> 2) & 1
        && (mirror8(b) >> 6) & 1 == (b >> 1) & 1
        && (mirror8(b) >> 7) & 1 == (b >> 0) & 1) by (bit_vector);
}

/// A message bit by bit, the highest bit of each byte first.
pub open spec fn message_bit(data: Seq<u8>, k: int) -> bool {
    data[k / 8] & (1u8 << ((7 - k % 8) as u8)) != 0
}

/// The register after the first `n` bits of a message.
pub open spec fn clocked(register: u16, data: Seq<u8>, n: int) -> u16
    decreases n,
{
    if n <= 0 {
        register
    } else {
        shift_msb(clocked(register, data, n - 1), message_bit(data, n - 1))
    }
}

/// A checksum is what is left in the register after every bit of every byte, in
/// order.
pub proof fn lemma_bit_by_bit(seed: u16, data: Seq<u8>)
    ensures
        crc_msb(seed, data) == clocked(seed, data, 8 * data.len() as int),
    decreases data.len(),
{
    if data.len() > 0 {
        let front = data.drop_last();
        let n = 8 * front.len() as int;
        lemma_bit_by_bit(seed, front);
        lemma_same_bits(seed, front, data, n);
        assert forall|j: int| 0 <= j < 8 implies #[trigger] message_bit(data, n + j) == bit(
            data.last(),
            (7 - j) as u8,
        ) by {
            assert((n + j) / 8 == front.len() && (n + j) % 8 == j);
        }
        assert(message_bit(data, n + 0) == bit(data.last(), 7));
        assert(message_bit(data, n + 1) == bit(data.last(), 6));
        assert(message_bit(data, n + 2) == bit(data.last(), 5));
        assert(message_bit(data, n + 3) == bit(data.last(), 4));
        assert(message_bit(data, n + 4) == bit(data.last(), 3));
        assert(message_bit(data, n + 5) == bit(data.last(), 2));
        assert(message_bit(data, n + 6) == bit(data.last(), 1));
        assert(message_bit(data, n + 7) == bit(data.last(), 0));
        reveal_with_fuel(clocked, 9);
    }
}

proof fn lemma_same_bits(seed: u16, a: Seq<u8>, b: Seq<u8>, n: int)
    requires
        a.len() <= b.len(),
        forall|i: int| 0 <= i < a.len() ==> a[i] == b[i],
        n <= 8 * a.len(),
    ensures
        clocked(seed, a, n) == clocked(seed, b, n),
    decreases n,
{
    if n > 0 {
        lemma_same_bits(seed, a, b, n - 1);
        assert(0 <= (n - 1) / 8 < a.len());
    }
}

} // verus!
