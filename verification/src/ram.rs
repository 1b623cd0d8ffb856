//! Plain memory in place of the chip, for running drivers without one.
//!
//! Registers and memory alike hold what was stored in them last, and nothing
//! happens by itself.
use vstd::prelude::*;

use crate::bus::{Access, Hardware};

verus! {

/// What an address without a cell reads as.
pub const OPEN_BUS: u8 = 0xFF;

/// The scratch word: the first of the chip's RAM.
pub const SCRATCH: u16 = 0x1C00;

/// Memory from address 0 on.
pub struct Ram {
    cells: Vec<u8>,
    claimed: bool,
    log: Ghost<Seq<Access>>,
}

/// The byte at an address of a memory that holds `bytes`.
pub open spec fn byte_at(bytes: Seq<u8>, addr: u32) -> u8 {
    if addr < bytes.len() {
        bytes[addr as int]
    } else {
        OPEN_BUS
    }
}

/// What a memory that holds `bytes` holds after a store; an address without a
/// cell keeps nothing.
pub open spec fn stored(bytes: Seq<u8>, addr: u32, value: u8) -> Seq<u8> {
    if addr < bytes.len() {
        bytes.update(addr as int, value)
    } else {
        bytes
    }
}

impl Ram {
    /// The bytes.
    pub closed spec fn view(&self) -> Seq<u8> {
        self.cells@
    }

    /// `size` bytes, all zero, and peripherals that nobody has.
    pub fn new(size: usize) -> (r: Self)
        ensures
            r@ == Seq::new(size as nat, |i: int| 0u8),
            r.trace() == Seq::<Access>::empty(),
            !r.claimed(),
    {
        let mut cells: Vec<u8> = Vec::new();
        let mut i: usize = 0;
        while i < size
            invariant
                i <= size,
                cells@ =~= Seq::new(i as nat, |i: int| 0u8),
            decreases size - i,
        {
            cells.push(0);
            i = i + 1;
        }
        Ram { cells, claimed: false, log: Ghost(Seq::empty()) }
    }

    /// The byte at an address, without an access.
    pub fn peek(&self, addr: u32) -> (value: u8)
        ensures
            value == byte_at(self@, addr),
    {
        let at: usize = addr as usize;
        if at < self.cells.len() {
            self.cells[at]
        } else {
            OPEN_BUS
        }
    }

    /// Puts a byte at an address, without an access.
    pub fn poke(&mut self, addr: u32, value: u8)
        ensures
            final(self)@ == stored(old(self)@, addr, value),
            final(self).trace() == old(self).trace(),
            final(self).claimed() == old(self).claimed(),
    {
        let at: usize = addr as usize;
        if at < self.cells.len() {
            self.cells.set(at, value);
        }
    }
}

impl Hardware for Ram {
    closed spec fn trace(&self) -> Seq<Access> {
        self.log@
    }

    closed spec fn claimed(&self) -> bool {
        self.claimed
    }

    fn read8(&mut self, addr: u32) -> (value: u8)
        ensures
            value == byte_at(old(self)@, addr),
            final(self)@ == old(self)@,
    {
        let value: u8 = self.peek(addr);
        self.log = Ghost(self.log@.push(Access::Read8 { addr, value }));
        value
    }

    fn write8(&mut self, addr: u32, value: u8)
        ensures
            final(self)@ == stored(old(self)@, addr, value),
    {
        self.poke(addr, value);
        self.log = Ghost(self.log@.push(Access::Write8 { addr, value }));
    }

    fn read16(&mut self, addr: u32) -> (value: u16)
        ensures
            value == byte_at(old(self)@, addr) + 0x100 * byte_at(old(self)@, addr.wrapping_add(1)),
            final(self)@ == old(self)@,
    {
        let low: u8 = self.peek(addr);
        let high: u8 = self.peek(addr.wrapping_add(1));
        let value: u16 = low as u16 + 0x100 * (high as u16);
        self.log = Ghost(self.log@.push(Access::Read16 { addr, value }));
        value
    }

    fn write16(&mut self, addr: u32, value: u16)
        ensures
            final(self)@ == stored(
                stored(old(self)@, addr, (value % 0x100) as u8),
                addr.wrapping_add(1),
                (value / 0x100) as u8,
            ),
    {
        self.poke(addr, (value % 0x100) as u8);
        self.poke(addr.wrapping_add(1), (value / 0x100) as u8);
        self.log = Ghost(self.log@.push(Access::Write16 { addr, value }));
    }

    fn barrier(&mut self)
        ensures
            final(self)@ == old(self)@,
    {
        self.log = Ghost(self.log@.push(Access::Barrier));
    }

    fn spin(&mut self, iters: u16)
        ensures
            final(self)@ == old(self)@,
    {
        self.log = Ghost(self.log@.push(Access::Spin { iters }));
    }

    fn sleep(&mut self, mode: u16)
        ensures
            final(self)@ == old(self)@,
    {
        self.log = Ghost(self.log@.push(Access::Sleep { mode }));
    }

    fn scratch(&mut self) -> (addr: u16)
        ensures
            addr == SCRATCH,
            final(self)@ == old(self)@,
    {
        self.log = Ghost(self.log@.push(Access::Scratch { addr: SCRATCH }));
        SCRATCH
    }

    fn claim(&mut self) -> (first: bool)
        ensures
            final(self)@ == old(self)@,
    {
        let first: bool = !self.claimed;
        self.claimed = true;
        first
    }
}

/// What was stored is what is there, and nothing else changed; past the end
/// nothing is stored and every byte reads as all ones.
pub proof fn lemma_byte_kept(bytes: Seq<u8>, addr: u32, value: u8, other: u32)
    ensures
        stored(bytes, addr, value).len() == bytes.len(),
        other < bytes.len() ==> byte_at(stored(bytes, addr, value), other) == if other == addr {
            value
        } else {
            bytes[other as int]
        },
        other >= bytes.len() ==> byte_at(stored(bytes, addr, value), other) == 255,
{
}

} // verus!
