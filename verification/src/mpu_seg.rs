//! The segments of the FRAM protection unit: borders and access rights.
//!
//! Two borders cut main FRAM into three segments; information FRAM is a fourth.
//! A border register holds the address without its low four bits, and the
//! access register holds four bits for each segment.
use vstd::prelude::*;

verus! {

/// First byte of main FRAM.
pub const MAIN_START: u32 = 0x4400;

/// One past the last byte of main FRAM.
pub const MAIN_END: u32 = 0x1_4000;

/// Why a configuration is refused.
#[derive(Clone, Copy, PartialEq, Eq, Structural, Debug)]
pub enum MpuError {
    /// A border is not a multiple of 16 bytes.
    Misaligned,
    /// A border is outside of main FRAM.
    OutOfRange,
    /// The first border is above the second.
    BordersReversed,
    /// The registers are frozen until power is cycled.
    Locked,
}

/// What a forbidden access does besides being noted.
#[derive(Clone, Copy, PartialEq, Eq, Structural, Debug)]
pub enum Violation {
    /// Nothing more, or an NMI.
    Flag,
    /// A reset.
    Puc,
}

impl Default for Violation {
    fn default() -> (r: Self)
        ensures
            r == Violation::Flag,
    {
        Violation::Flag
    }
}

/// The rights of one segment.
#[derive(Clone, Copy, PartialEq, Eq, Structural, Debug)]
pub struct Access {
    /// May be read.
    pub read: bool,
    /// May be written.
    pub write: bool,
    /// May be executed.
    pub execute: bool,
    /// What else happens on a forbidden access.
    pub violation: Violation,
}

impl Access {
    /// The four bits of these rights.
    pub open spec fn code(self) -> int {
        (if self.read {
            1int
        } else {
            0
        }) + (if self.write {
            2int
        } else {
            0
        }) + (if self.execute {
            4int
        } else {
            0
        }) + (if self.violation == Violation::Puc {
            8int
        } else {
            0
        })
    }

    /// Everything, as after a reset.
    pub fn rwx() -> (r: Access)
        ensures
            r == (Access { read: true, write: true, execute: true, violation: Violation::Flag }),
    {
        Access { read: true, write: true, execute: true, violation: Violation::Flag }
    }

    /// Everything but writing.
    pub fn rx() -> (r: Access)
        ensures
            r == (Access { read: true, write: false, execute: true, violation: Violation::Flag }),
    {
        Access { read: true, write: false, execute: true, violation: Violation::Flag }
    }

    /// Only reading.
    pub fn read_only() -> (r: Access)
        ensures
            r == (Access { read: true, write: false, execute: false, violation: Violation::Flag }),
    {
        Access { read: true, write: false, execute: false, violation: Violation::Flag }
    }

    /// Nothing.
    pub fn none() -> (r: Access)
        ensures
            r == (Access { read: false, write: false, execute: false, violation: Violation::Flag }),
    {
        Access { read: false, write: false, execute: false, violation: Violation::Flag }
    }

    /// The same rights, with a reset on a forbidden access.
    pub fn reset_on_violation(self) -> (r: Access)
        ensures
            r == (Access { violation: Violation::Puc, ..self }),
    {
        Access {
            read: self.read,
            write: self.write,
            execute: self.execute,
            violation: Violation::Puc,
        }
    }

    pub(crate) fn nibble(&self) -> (r: u16)
        ensures
            r == self.code(),
            r <= 15,
    {
        let read: u16 = if self.read { 1 } else { 0 };
        let write: u16 = if self.write { 2 } else { 0 };
        let execute: u16 = if self.execute { 4 } else { 0 };
        let violation: u16 = match self.violation {
            Violation::Flag => 0,
            Violation::Puc => 8,
        };
        read + write + execute + violation
    }
}

/// What is wrong with a border, if anything.
pub open spec fn border_fault(addr: u32) -> Option<MpuError> {
    if addr % 16 != 0 {
        Some(MpuError::Misaligned)
    } else if addr < MAIN_START || addr > MAIN_END {
        Some(MpuError::OutOfRange)
    } else {
        None
    }
}

/// What a border register holds for an address.
pub open spec fn border_value(addr: u32) -> u16 {
    (addr / 16) as u16
}

/// The address that a border register stands for.
pub open spec fn border_address(border: u16) -> int {
    border * 16
}

/// The register value of a border.
pub(crate) fn addr_to_border(addr: u32) -> (r: Result<u16, MpuError>)
    ensures
        match border_fault(addr) {
            Some(e) => r == Err::<u16, MpuError>(e),
            None => r == Ok::<u16, MpuError>(border_value(addr)),
        },
{
    if addr % 16 != 0 {
        return Err(MpuError::Misaligned);
    }
    if addr < MAIN_START || addr > MAIN_END {
        return Err(MpuError::OutOfRange);
    }
    Ok((addr / 16) as u16)
}

/// The address of a border.
pub(crate) fn border_to_addr(border: u16) -> (r: u32)
    ensures
        r == border_address(border),
{
    (border as u32) * 16
}

/// The access register for these rights.
pub open spec fn sam(seg1: Access, seg2: Access, seg3: Access, info: Access) -> int {
    seg1.code() + 0x10 * seg2.code() + 0x100 * seg3.code() + 0x1000 * info.code()
}

pub(crate) fn sam_value(seg1: Access, seg2: Access, seg3: Access, info: Access) -> (r: u16)
    ensures
        r == sam(seg1, seg2, seg3, info),
{
    seg1.nibble() + 0x10 * seg2.nibble() + 0x100 * seg3.nibble() + 0x1000 * info.nibble()
}

/// The number of the segment that an address of main FRAM is in. A border
/// belongs to the segment above it.
pub fn segment_containing(border1: u32, border2: u32, addr: u32) -> (r: u8)
    ensures
        r == segment(border1, border2, addr),
{
    if addr < border1 {
        1
    } else if addr < border2 {
        2
    } else {
        3
    }
}

/// The number of the segment.
pub open spec fn segment(border1: u32, border2: u32, addr: u32) -> u8 {
    if addr < border1 {
        1
    } else if addr < border2 {
        2
    } else {
        3
    }
}

/// A border that is accepted comes back from its register value.
pub proof fn lemma_border_round_trip(addr: u32)
    requires
        border_fault(addr) is None,
    ensures
        border_address(border_value(addr)) == addr,
{
}

/// Everything allowed everywhere is what the register holds after a reset.
pub proof fn lemma_reset_value()
    ensures
        ({
            let all = Access {
                read: true,
                write: true,
                execute: true,
                violation: Violation::Flag,
            };
            sam(all, all, all, all) == 0x7777
        }),
{
}

/// The rights of each segment can be told from the register.
pub proof fn lemma_rights_told(
    a1: Access,
    a2: Access,
    a3: Access,
    ai: Access,
    b1: Access,
    b2: Access,
    b3: Access,
    bi: Access,
)
    requires
        sam(a1, a2, a3, ai) == sam(b1, b2, b3, bi),
    ensures
        a1 == b1,
        a2 == b2,
        a3 == b3,
        ai == bi,
{
    lemma_codes_in_sam(a1, a2, a3, ai);
    lemma_codes_in_sam(b1, b2, b3, bi);
    lemma_code_told(a1, b1);
    lemma_code_told(a2, b2);
    lemma_code_told(a3, b3);
    lemma_code_told(ai, bi);
}

/// The codes are the digits of the register, to the base 16.
proof fn lemma_codes_in_sam(seg1: Access, seg2: Access, seg3: Access, info: Access)
    ensures
        0 <= sam(seg1, seg2, seg3, info) <= 0xFFFF,
        seg1.code() == sam(seg1, seg2, seg3, info) % 16,
        seg2.code() == sam(seg1, seg2, seg3, info) / 16 % 16,
        seg3.code() == sam(seg1, seg2, seg3, info) / 256 % 16,
        info.code() == sam(seg1, seg2, seg3, info) / 4096,
{
    lemma_code_fits(seg1);
    lemma_code_fits(seg2);
    lemma_code_fits(seg3);
    lemma_code_fits(info);
    lemma_digits(seg1.code(), seg2.code(), seg3.code(), info.code());
}

proof fn lemma_code_fits(a: Access)
    ensures
        0 <= a.code() < 16,
{
}

/// The digits of a number with four of them, to the base 16.
proof fn lemma_digits(c1: int, c2: int, c3: int, c4: int)
    requires
        0 <= c1 < 16 && 0 <= c2 < 16 && 0 <= c3 < 16 && 0 <= c4 < 16,
    ensures
        ({
            let n = c1 + 0x10 * c2 + 0x100 * c3 + 0x1000 * c4;
            &&& 0 <= n <= 0xFFFF
            &&& n % 16 == c1
            &&& n / 16 % 16 == c2
            &&& n / 256 % 16 == c3
            &&& n / 4096 == c4
        }),
{
    let n = c1 + 0x10 * c2 + 0x100 * c3 + 0x1000 * c4;
    assert(n / 16 == c2 + 0x10 * c3 + 0x100 * c4);
    assert(n / 256 == c3 + 0x10 * c4);
}

proof fn lemma_code_told(a: Access, b: Access)
    requires
        a.code() == b.code(),
    ensures
        a == b,
{
    let c = a.code();
    assert(a.read == (c % 2 == 1) && b.read == (c % 2 == 1));
    assert(a.write == (c / 2 % 2 == 1) && b.write == (c / 2 % 2 == 1));
    assert(a.execute == (c / 4 % 2 == 1) && b.execute == (c / 4 % 2 == 1));
    assert((a.violation == Violation::Puc) == (c / 8 == 1));
    assert((b.violation == Violation::Puc) == (c / 8 == 1));
}

/// The segments follow each other: a higher address is never in a lower
/// segment, and each border is the first address of the segment above it.
pub proof fn lemma_segments_in_order(border1: u32, border2: u32, low: u32, high: u32)
    requires
        border1 <= border2,
        low <= high,
    ensures
        segment(border1, border2, low) <= segment(border1, border2, high),
        segment(border1, border2, border2) == 3,
        border1 < border2 ==> segment(border1, border2, border1) == 2,
        0 < border1 ==> segment(border1, border2, (border1 - 1) as u32) == 1,
{
}

/// A border is accepted exactly if it is a multiple of 16 from the start of main
/// FRAM, at 0x4400, to its end, at 0x14000.
pub proof fn lemma_border_accepted(addr: u32)
    ensures
        border_fault(addr) is None <==> addr % 16 == 0 && 0x4400 <= addr <= 0x1_4000,
        border_fault(addr) == Some(MpuError::Misaligned) <==> addr % 16 != 0,
        border_fault(addr) == Some(MpuError::OutOfRange) <==> addr % 16 == 0 && (addr < 0x4400
            || addr > 0x1_4000),
{
}

/// The rights of a segment in its four bits: read, write, execute, and a reset on
/// a violation.
pub proof fn lemma_rights_decoded(seg1: Access, seg2: Access, seg3: Access, info: Access)
    ensures
        ({
            let word = sam(seg1, seg2, seg3, info);
            &&& grants(word % 16, seg1)
            &&& grants(word / 16 % 16, seg2)
            &&& grants(word / 256 % 16, seg3)
            &&& grants(word / 4096, info)
        }),
{
    lemma_codes_in_sam(seg1, seg2, seg3, info);
}

/// Four bits give the rights `access`.
pub open spec fn grants(bits: int, access: Access) -> bool {
    &&& (bits % 2 == 1) == access.read
    &&& (bits / 2 % 2 == 1) == access.write
    &&& (bits / 4 % 2 == 1) == access.execute
    &&& (bits / 8 == 1) == (access.violation == Violation::Puc)
}

} // verus!
