//! Settings of the eUSCI_A baud-rate generator.
//!
//! With `N` the ratio of clock and baud rate, the generator divides by the
//! whole part of `N` and spreads the fraction over the bits of a character by
//! a modulation pattern, which a table gives for each range of fractions.
use vstd::prelude::*;

use crate::num::low16;

verus! {

/// Register values of the baud-rate generator.
#[derive(Clone, Copy, PartialEq, Eq, Structural, Debug)]
pub struct BaudRegs {
    /// Prescaler.
    pub ucbr: u16,
    /// First modulation stage, in oversampling mode.
    pub ucbrf: u8,
    /// Second modulation stage.
    pub ucbrs: u8,
    /// Oversampling mode.
    pub oversampling: bool,
}

/// Second-stage modulation patterns: the least fraction, in ten-thousandths,
/// from which on the pattern holds.
pub const UCBRS_TABLE: [(u32, u8); 36] = [
    (0, 0x00),
    (529, 0x01),
    (715, 0x02),
    (835, 0x04),
    (1001, 0x08),
    (1252, 0x10),
    (1430, 0x20),
    (1670, 0x11),
    (2147, 0x21),
    (2224, 0x22),
    (2503, 0x44),
    (3000, 0x25),
    (3335, 0x49),
    (3575, 0x4A),
    (3753, 0x52),
    (4003, 0x92),
    (4286, 0x53),
    (4378, 0x55),
    (5002, 0xAA),
    (5715, 0x6B),
    (6003, 0xAD),
    (6254, 0xB5),
    (6432, 0xB6),
    (6667, 0xD6),
    (7001, 0xB7),
    (7147, 0xBB),
    (7503, 0xDD),
    (7861, 0xED),
    (8004, 0xEE),
    (8333, 0xBF),
    (8464, 0xDF),
    (8572, 0xEF),
    (8751, 0xF7),
    (9004, 0xFB),
    (9170, 0xFD),
    (9288, 0xFE),
];

/// `row` is the last row of the table whose fraction is not above `frac`.
pub open spec fn table_row(row: int, frac: int) -> bool {
    &&& 0 <= row < 36
    &&& UCBRS_TABLE@[row].0 <= frac
    &&& row + 1 < 36 ==> frac < UCBRS_TABLE@[row + 1].0
}

/// The pattern for a fraction in ten-thousandths.
pub fn ucbrs_lookup(frac_x10000: u32) -> (r: u8)
    ensures
        exists|row: int|
            #[trigger] table_row(row, frac_x10000 as int) && r == UCBRS_TABLE@[row].1,
{
    let mut i: usize = 0;
    while i + 1 < 36 && UCBRS_TABLE[i + 1].0 <= frac_x10000
        invariant
            i < 36,
            UCBRS_TABLE@[i as int].0 <= frac_x10000,
        decreases 36 - i,
    {
        i = i + 1;
    }
    assert(table_row(i as int, frac_x10000 as int));
    UCBRS_TABLE[i].1
}

/// The whole part of the ratio of clock and baud rate.
pub open spec fn ratio(clock_freq: u32, baud: u32) -> int {
    clock_freq as int / baud as int
}

/// The fraction of that ratio, in whole ten-thousandths.
pub open spec fn fraction(clock_freq: u32, baud: u32) -> int {
    (clock_freq as int % baud as int) * 10_000 / (baud as int)
}

/// The generator settings for a clock and a baud rate. From a ratio of 16 on
/// the generator oversamples: the prescaler takes a sixteenth of the ratio and
/// the first modulation stage what is left.
pub fn compute_baud(clock_freq: u32, baud: u32) -> (r: BaudRegs)
    requires
        baud > 0,
    ensures
        r.oversampling == (ratio(clock_freq, baud) >= 16),
        r.ucbr == if r.oversampling {
            ratio(clock_freq, baud) / 16 % 0x1_0000
        } else {
            ratio(clock_freq, baud)
        },
        r.ucbrf == if r.oversampling {
            ratio(clock_freq, baud) % 16
        } else {
            0
        },
        exists|row: int|
            #[trigger] table_row(row, fraction(clock_freq, baud)) && r.ucbrs
                == UCBRS_TABLE@[row].1,
{
    let n_int: u32 = clock_freq / baud;
    let rest: u32 = clock_freq % baud;
    proof {
        let b = baud as int;
        assert(0 <= rest * 10_000 / b <= rest * 10_000) by (nonlinear_arith)
            requires
                b > 0,
                0 <= rest,
        ;
        assert(rest * 10_000 / b < 10_000) by (nonlinear_arith)
            requires
                b > 0,
                0 <= rest < b,
        ;
    }
    let frac_x10000: u32 = (rest as u64 * 10_000 / baud as u64) as u32;
    assert(frac_x10000 as int == fraction(clock_freq, baud));
    let ucbrs: u8 = ucbrs_lookup(frac_x10000);
    if n_int >= 16 {
        let sixteenth: u32 = n_int / 16;
        BaudRegs {
            ucbr: low16(sixteenth),
            ucbrf: (n_int % 16) as u8,
            ucbrs,
            oversampling: true,
        }
    } else {
        BaudRegs { ucbr: n_int as u16, ucbrf: 0, ucbrs, oversampling: false }
    }
}

/// The table ascends, so that a fraction has exactly one row.
pub proof fn lemma_one_row(a: int, b: int, frac: int)
    requires
        table_row(a, frac),
        table_row(b, frac),
    ensures
        a == b,
{
    lemma_table_ascends();
}

proof fn lemma_table_ascends()
    ensures
        forall|i: int, j: int| 0 <= i < j < 36 ==> UCBRS_TABLE@[i].0 < UCBRS_TABLE@[j].0,
{
}

/// In oversampling mode the two stages make up the whole ratio again, where
/// the prescaler can hold its part.
pub proof fn lemma_stages_make_ratio(clock_freq: u32, baud: u32, r: BaudRegs)
    requires
        baud > 0,
        ratio(clock_freq, baud) >= 16,
        ratio(clock_freq, baud) < 16 * 0x1_0000,
        r.ucbr == ratio(clock_freq, baud) / 16 % 0x1_0000,
        r.ucbrf == ratio(clock_freq, baud) % 16,
    ensures
        16 * r.ucbr + r.ucbrf == ratio(clock_freq, baud),
        r.ucbrf < 16,
{
}

/// How many of the eight bits of a pattern are set.
pub open spec fn ones(pattern: u8) -> int {
    pattern as int % 2 + pattern as int / 2 % 2 + pattern as int / 4 % 2 + pattern as int / 8 % 2
        + pattern as int / 16 % 2 + pattern as int / 32 % 2 + pattern as int / 64 % 2 + pattern as int
        / 128
}

/// The modulation makes up for the fraction: a pattern lengthens as many of
/// eight bits by a clock as the fraction asks for, to less than one bit.
pub proof fn lemma_pattern_fits_fraction(row: int, frac: int)
    requires
        table_row(row, frac),
        0 <= frac < 10_000,
    ensures
        -1250 < ones(UCBRS_TABLE@[row].1) * 1250 - frac < 1250,
{
}

/// The divisor that the generator makes of its settings.
pub open spec fn divisor(prescaler: int, modulation: int) -> int {
    if modulation % 2 == 1 {
        16 * prescaler + modulation / 16 % 16
    } else {
        prescaler
    }
}

/// The rows of the table: from which fraction on, in ten-thousandths, which bits
/// are lengthened.
pub proof fn lemma_table_rows()
    ensures
        UCBRS_TABLE@[0] == (0u32, 0x00u8),
        UCBRS_TABLE@[1] == (529u32, 0x01u8),
        UCBRS_TABLE@[2] == (715u32, 0x02u8),
        UCBRS_TABLE@[3] == (835u32, 0x04u8),
        UCBRS_TABLE@[4] == (1001u32, 0x08u8),
        UCBRS_TABLE@[5] == (1252u32, 0x10u8),
        UCBRS_TABLE@[6] == (1430u32, 0x20u8),
        UCBRS_TABLE@[7] == (1670u32, 0x11u8),
        UCBRS_TABLE@[8] == (2147u32, 0x21u8),
        UCBRS_TABLE@[9] == (2224u32, 0x22u8),
        UCBRS_TABLE@[10] == (2503u32, 0x44u8),
        UCBRS_TABLE@[11] == (3000u32, 0x25u8),
        UCBRS_TABLE@[12] == (3335u32, 0x49u8),
        UCBRS_TABLE@[13] == (3575u32, 0x4Au8),
        UCBRS_TABLE@[14] == (3753u32, 0x52u8),
        UCBRS_TABLE@[15] == (4003u32, 0x92u8),
        UCBRS_TABLE@[16] == (4286u32, 0x53u8),
        UCBRS_TABLE@[17] == (4378u32, 0x55u8),
        UCBRS_TABLE@[18] == (5002u32, 0xAAu8),
        UCBRS_TABLE@[19] == (5715u32, 0x6Bu8),
        UCBRS_TABLE@[20] == (6003u32, 0xADu8),
        UCBRS_TABLE@[21] == (6254u32, 0xB5u8),
        UCBRS_TABLE@[22] == (6432u32, 0xB6u8),
        UCBRS_TABLE@[23] == (6667u32, 0xD6u8),
        UCBRS_TABLE@[24] == (7001u32, 0xB7u8),
        UCBRS_TABLE@[25] == (7147u32, 0xBBu8),
        UCBRS_TABLE@[26] == (7503u32, 0xDDu8),
        UCBRS_TABLE@[27] == (7861u32, 0xEDu8),
        UCBRS_TABLE@[28] == (8004u32, 0xEEu8),
        UCBRS_TABLE@[29] == (8333u32, 0xBFu8),
        UCBRS_TABLE@[30] == (8464u32, 0xDFu8),
        UCBRS_TABLE@[31] == (8572u32, 0xEFu8),
        UCBRS_TABLE@[32] == (8751u32, 0xF7u8),
        UCBRS_TABLE@[33] == (9004u32, 0xFBu8),
        UCBRS_TABLE@[34] == (9170u32, 0xFDu8),
        UCBRS_TABLE@[35] == (9288u32, 0xFEu8),
{
}

} // verus!
