//! The peripheral bus: every access that a driver makes to the chip.
//!
//! Drivers never touch memory themselves. They issue *steps* on a [`Bus`],
//! which carries them out on a [`Hardware`]. There are three accounts of that:
//!
//! - [`Hardware::trace`], what the hardware was asked, access by access;
//! - [`Bus::raw`], the same accesses and the ends of critical sections between
//!   them;
//! - [`Bus::view`] (`bus@`), the same again grouped into [`Step`]s: a
//!   read-modify-write is one step, a polling loop is one step that says how
//!   the loop ended.
//!
//! [`means`] says which accesses a step stands for. The contracts of the
//! drivers speak of steps; [`Bus::ran`] is the usual form, and holds all three
//! accounts together.
use vstd::prelude::*;

pub use crate::trace::Access;

verus! {

broadcast use crate::trace::group_growth;

/// The chip as the drivers see it: byte and word accesses on the 20-bit
/// address space, the things the CPU does besides, and the mark that says
/// whether its peripherals have been handed out.
///
/// An implementation does what it is asked, once, and nothing else; `trace` is
/// what it was asked so far. Nothing is assumed of the values that it returns.
///
/// An implementation that takes part in proofs says what its `trace` and its
/// `claimed` are, as [`crate::ram::Ram`] does. One outside of them cannot, and
/// leaves out both.
pub trait Hardware {
    /// All accesses that were made, in order, with what they carried.
    open spec fn trace(&self) -> Seq<Access> {
        arbitrary()
    }

    /// Whether the peripherals have been handed out.
    open spec fn claimed(&self) -> bool {
        arbitrary()
    }

    /// Load the byte at `addr`.
    fn read8(&mut self, addr: u32) -> (value: u8)
        ensures
            final(self).trace() == old(self).trace().push(Access::Read8 { addr, value }),
            final(self).claimed() == old(self).claimed(),
    ;

    /// Store `value` in the byte at `addr`.
    fn write8(&mut self, addr: u32, value: u8)
        ensures
            final(self).trace() == old(self).trace().push(Access::Write8 { addr, value }),
            final(self).claimed() == old(self).claimed(),
    ;

    /// Load the word at `addr`.
    fn read16(&mut self, addr: u32) -> (value: u16)
        ensures
            final(self).trace() == old(self).trace().push(Access::Read16 { addr, value }),
            final(self).claimed() == old(self).claimed(),
    ;

    /// Store `value` in the word at `addr`.
    fn write16(&mut self, addr: u32, value: u16)
        ensures
            final(self).trace() == old(self).trace().push(Access::Write16 { addr, value }),
            final(self).claimed() == old(self).claimed(),
    ;

    /// Keep memory accesses on either side of this point on that side.
    fn barrier(&mut self)
        ensures
            final(self).trace() == old(self).trace().push(Access::Barrier),
            final(self).claimed() == old(self).claimed(),
    ;

    /// Burn `iters` turns of the three-cycle countdown loop.
    fn spin(&mut self, iters: u16)
        ensures
            final(self).trace() == old(self).trace().push(Access::Spin { iters }),
            final(self).claimed() == old(self).claimed(),
    ;

    /// Set the bits of `mode` in the status register, which halts the CPU
    /// until an interrupt handler clears them again.
    fn sleep(&mut self, mode: u16)
        ensures
            final(self).trace() == old(self).trace().push(Access::Sleep { mode }),
            final(self).claimed() == old(self).claimed(),
    ;

    /// The address of one word of RAM that nothing else uses while a driver
    /// call is running.
    fn scratch(&mut self) -> (addr: u16)
        ensures
            final(self).trace() == old(self).trace().push(Access::Scratch { addr }),
            final(self).claimed() == old(self).claimed(),
    ;

    /// Mark the peripherals as handed out; `true` the first time.
    fn claim(&mut self) -> (first: bool)
        ensures
            first == !old(self).claimed(),
            final(self).claimed(),
            final(self).trace() == old(self).trace(),
    ;
}

/// A test on the value of a 16-bit register.
#[derive(Clone, Copy)]
pub enum Cond {
    /// The bits under `mask` equal `want`.
    Bits { mask: u16, want: u16 },
    /// A free-running counter has advanced by at least `ticks` since it read
    /// `start`.
    Elapsed { start: u16, ticks: u16 },
    /// No value passes.
    Never,
}

impl Cond {
    /// The test that every bit of `mask` is set.
    pub open spec fn all_set(mask: u16) -> Self {
        Cond::Bits { mask, want: mask }
    }

    /// The test that no bit of `mask` is set.
    pub open spec fn none_set(mask: u16) -> Self {
        Cond::Bits { mask, want: 0 }
    }

    /// Does `value` pass?
    pub open spec fn passes(self, value: u16) -> bool {
        match self {
            Cond::Bits { mask, want } => value & mask == want,
            Cond::Elapsed { start, ticks } => value.wrapping_sub(start) >= ticks,
            Cond::Never => false,
        }
    }

    /// Evaluates the test on `value`.
    pub fn test(self, value: u16) -> (r: bool)
        ensures
            r == self.passes(value),
    {
        match self {
            Cond::Bits { mask, want } => value & mask == want,
            Cond::Elapsed { start, ticks } => value.wrapping_sub(start) >= ticks,
            Cond::Never => false,
        }
    }
}

/// A change to one register, made inside a critical section.
#[derive(Clone, Copy)]
pub enum Edit {
    /// Read the word, drop the bits of `clear`, add those of `set`, write it
    /// back.
    Update { addr: u32, clear: u16, set: u16 },
    /// Write the whole word.
    Store { addr: u32, value: u16 },
}

/// How a watched wait ended.
#[derive(Clone, Copy, PartialEq, Eq, Structural)]
pub enum Outcome {
    /// The polled register passed the failure test.
    Failed,
    /// The polled register passed the success test.
    Ready,
    /// The watched register passed the trip test.
    Tripped,
    /// The number of rounds was used up.
    Exhausted,
}

/// One thing that a driver did on the bus.
#[allow(inconsistent_fields)]
pub enum Step {
    Read8 { addr: u32, value: u8 },
    Write8 { addr: u32, value: u8 },
    Read16 { addr: u32, value: u16 },
    Write16 { addr: u32, value: u16 },
    /// Read-modify-write of a byte: drop the bits of `clear`, add `set`.
    Edit8 { addr: u32, clear: u8, set: u8 },
    /// Read-modify-write of a word: drop the bits of `clear`, add `set`.
    Edit16 { addr: u32, clear: u16, set: u16 },
    /// One or two register changes inside one critical section.
    Masked { first: Edit, second: Option<Edit> },
    /// One read of `addr`, and whether it passed `cond`.
    Test16 { addr: u32, cond: Cond, holds: bool },
    /// Reads of `addr` until one passes `until`, at most `budget` of them;
    /// `met` says whether one did.
    Poll16 { addr: u32, until: Cond, budget: u64, met: bool },
    /// Rounds of reading `addr` (which may fail or finish the wait) and then
    /// `watch` (which may trip it), at most `budget` of them.
    Guard16 {
        addr: u32,
        fail: Cond,
        done: Cond,
        watch: u32,
        trip: Cond,
        budget: u64,
        outcome: Outcome,
    },
    /// One word read of `addr` of which the low byte, `value`, is kept.
    Low8 { addr: u32, value: u8 },
    /// One read of the byte at `addr`, and whether a bit of `mask` was set.
    Test8 { addr: u32, mask: u8, any: bool },
    /// `times` reads of the byte at `addr`, to pass the time.
    Dwell8 { addr: u32, times: u16 },
    Barrier,
    Spin { iters: u16 },
    Sleep { mode: u16 },
    Scratch { addr: u16 },
}

/// The word that a read-modify-write stores.
pub open spec fn edited16(before: u16, clear: u16, set: u16) -> u16 {
    (before & !clear) | set
}

/// The byte that a read-modify-write stores.
pub open spec fn edited8(before: u8, clear: u8, set: u8) -> u8 {
    (before & !clear) | set
}

/// `accesses` are those of one register change.
pub open spec fn edit_means(edit: Edit, accesses: Seq<Access>) -> bool {
    match edit {
        Edit::Update { addr, clear, set } => {
            &&& accesses.len() == 2
            &&& accesses[0] matches Access::Read16 { addr: a, value: before }
            &&& a == addr
            &&& accesses[1] == Access::Write16 { addr, value: edited16(before, clear, set) }
        },
        Edit::Store { addr, value } => accesses =~= seq![Access::Write16 { addr, value }],
    }
}

/// The number of accesses that a register change makes.
pub open spec fn edit_width(edit: Edit) -> nat {
    match edit {
        Edit::Update { .. } => 2,
        Edit::Store { .. } => 1,
    }
}

/// `accesses` are those of `first` and then of `second`, where there is one.
pub open spec fn edits_mean(first: Edit, second: Option<Edit>, accesses: Seq<Access>) -> bool {
    match second {
        None => edit_means(first, accesses),
        Some(next) => {
            let w = edit_width(first) as int;
            &&& w <= accesses.len()
            &&& edit_means(first, accesses.take(w))
            &&& edit_means(next, accesses.skip(w))
        },
    }
}

/// The value that `access` read from the word at `addr`, if it did.
pub open spec fn word_read(access: Access, addr: u32) -> Option<u16> {
    match access {
        Access::Read16 { addr: a, value } => if a == addr {
            Some(value)
        } else {
            None
        },
        _ => None,
    }
}

/// `access` read the word at `addr` and the value passed `cond`.
pub open spec fn read_passes(access: Access, addr: u32, cond: Cond) -> bool {
    word_read(access, addr) matches Some(value) && cond.passes(value)
}

/// `access` read the word at `addr` and the value did not pass `cond`.
pub open spec fn read_misses(access: Access, addr: u32, cond: Cond) -> bool {
    word_read(access, addr) matches Some(value) && !cond.passes(value)
}

/// Every access read the word at `addr` and found `cond` false.
pub open spec fn all_miss(accesses: Seq<Access>, addr: u32, cond: Cond) -> bool {
    forall|i: int| 0 <= i < accesses.len() ==> read_misses(#[trigger] accesses[i], addr, cond)
}

/// Whole rounds of a watched wait in which nothing was decided.
pub open spec fn idle_rounds(
    accesses: Seq<Access>,
    addr: u32,
    fail: Cond,
    done: Cond,
    watch: u32,
    trip: Cond,
) -> bool {
    &&& accesses.len() % 2 == 0
    &&& forall|i: int|
        0 <= i < accesses.len() ==> {
            if i % 2 == 0 {
                read_misses(#[trigger] accesses[i], addr, fail) && read_misses(
                    accesses[i],
                    addr,
                    done,
                )
            } else {
                read_misses(accesses[i], watch, trip)
            }
        }
}

/// The accesses of a watched wait that ended with `outcome`.
pub open spec fn guard_means(
    accesses: Seq<Access>,
    addr: u32,
    fail: Cond,
    done: Cond,
    watch: u32,
    trip: Cond,
    budget: u64,
    outcome: Outcome,
) -> bool {
    let n = accesses.len() as int;
    match outcome {
        Outcome::Failed => {
            &&& n % 2 == 1
            &&& n / 2 < budget
            &&& idle_rounds(accesses.take(n - 1), addr, fail, done, watch, trip)
            &&& read_passes(accesses[n - 1], addr, fail)
        },
        Outcome::Ready => {
            &&& n % 2 == 1
            &&& n / 2 < budget
            &&& idle_rounds(accesses.take(n - 1), addr, fail, done, watch, trip)
            &&& read_misses(accesses[n - 1], addr, fail)
            &&& read_passes(accesses[n - 1], addr, done)
        },
        Outcome::Tripped => {
            &&& n % 2 == 0
            &&& 2 <= n <= 2 * budget
            &&& idle_rounds(accesses.take(n - 2), addr, fail, done, watch, trip)
            &&& read_misses(accesses[n - 2], addr, fail)
            &&& read_misses(accesses[n - 2], addr, done)
            &&& read_passes(accesses[n - 1], watch, trip)
        },
        Outcome::Exhausted => {
            &&& n == 2 * budget
            &&& idle_rounds(accesses, addr, fail, done, watch, trip)
        },
    }
}

/// `accesses` are exactly what `step` says was done.
pub open spec fn means(step: Step, accesses: Seq<Access>) -> bool {
    match step {
        Step::Read8 { addr, value } => accesses =~= seq![Access::Read8 { addr, value }],
        Step::Write8 { addr, value } => accesses =~= seq![Access::Write8 { addr, value }],
        Step::Read16 { addr, value } => accesses =~= seq![Access::Read16 { addr, value }],
        Step::Write16 { addr, value } => accesses =~= seq![Access::Write16 { addr, value }],
        Step::Edit8 { addr, clear, set } => {
            &&& accesses.len() == 2
            &&& accesses[0] matches Access::Read8 { addr: a, value: before }
            &&& a == addr
            &&& accesses[1] == Access::Write8 { addr, value: edited8(before, clear, set) }
        },
        Step::Edit16 { addr, clear, set } => edit_means(
            Edit::Update { addr, clear, set },
            accesses,
        ),
        Step::Masked { first, second } => {
            let n = accesses.len() as int;
            &&& n >= 2
            &&& accesses[0] == Access::Enter
            &&& edits_mean(first, second, inside(accesses))
            &&& accesses[n - 1] == Access::Exit
        },
        Step::Test16 { addr, cond, holds } => {
            &&& accesses.len() == 1
            &&& if holds {
                read_passes(accesses[0], addr, cond)
            } else {
                read_misses(accesses[0], addr, cond)
            }
        },
        Step::Poll16 { addr, until, budget, met } => {
            if met {
                &&& 1 <= accesses.len() <= budget
                &&& all_miss(accesses.drop_last(), addr, until)
                &&& read_passes(accesses.last(), addr, until)
            } else {
                &&& accesses.len() == budget
                &&& all_miss(accesses, addr, until)
            }
        },
        Step::Guard16 { addr, fail, done, watch, trip, budget, outcome } => guard_means(
            accesses,
            addr,
            fail,
            done,
            watch,
            trip,
            budget,
            outcome,
        ),
        Step::Low8 { addr, value } => {
            &&& accesses.len() == 1
            &&& word_read(accesses[0], addr) matches Some(word)
            &&& value == word as u8
        },
        Step::Test8 { addr, mask, any } => {
            &&& accesses.len() == 1
            &&& accesses[0] matches Access::Read8 { addr: a, value }
            &&& a == addr
            &&& any == (value & mask != 0)
        },
        Step::Dwell8 { addr, times } => {
            &&& accesses.len() == times
            &&& forall|i: int|
                0 <= i < accesses.len() ==> {
                    &&& #[trigger] accesses[i] matches Access::Read8 { addr: a, .. }
                    &&& a == addr
                }
        },
        Step::Barrier => accesses =~= seq![Access::Barrier],
        Step::Spin { iters } => accesses =~= seq![Access::Spin { iters }],
        Step::Sleep { mode } => accesses =~= seq![Access::Sleep { mode }],
        Step::Scratch { addr } => accesses =~= seq![Access::Scratch { addr }],
    }
}

/// The accesses recorded between `before` and `after` are those of `step`.
pub open spec fn explained(before: Seq<Access>, after: Seq<Access>, step: Step) -> bool {
    &&& before.len() <= after.len()
    &&& after.take(before.len() as int) =~= before
    &&& means(step, after.skip(before.len() as int))
}

/// `raw` is made of the accesses of the steps, one step after the other.
pub open spec fn accounts(steps: Seq<Step>, raw: Seq<Access>) -> bool
    decreases steps.len(),
{
    if steps.len() == 0 {
        raw.len() == 0
    } else {
        exists|n: int|
            0 <= n <= raw.len() && means(steps.last(), raw.skip(n)) && accounts(
                steps.drop_last(),
                #[trigger] raw.take(n),
            )
    }
}

/// Accesses that `step` explains extend an account by that step.
proof fn lemma_accounts_push(steps: Seq<Step>, before: Seq<Access>, after: Seq<Access>, step: Step)
    requires
        accounts(steps, before),
        explained(before, after, step),
    ensures
        accounts(steps.push(step), after),
{
    let longer = steps.push(step);
    let n = before.len() as int;
    assert(longer.drop_last() =~= steps);
    assert(after.take(n) =~= before);
    assert(longer.last() == step);
}

/// Of a critical section the hardware sees the register changes.
proof fn lemma_section_on_chip(first: Edit, second: Option<Edit>, all: Seq<Access>)
    requires
        all.len() >= 2,
        all[0] == Access::Enter,
        all.last() == Access::Exit,
        edits_mean(first, second, inside(all)),
    ensures
        crate::trace::on_chip(all) == inside(all),
{
    let inside = inside(all);
    let w = edit_width(first) as int;
    assert forall|i: int| 0 <= i < inside.len() implies !((#[trigger] inside[i]) is Enter) && !(
    inside[i] is Exit) by {
        match second {
            None => {},
            Some(_) => {
                if i < w {
                    assert(inside.take(w)[i] == inside[i]);
                } else {
                    assert(inside.skip(w)[i - w] == inside[i]);
                }
            },
        }
    }
    crate::trace::lemma_all_on_chip(inside);
    let head = seq![Access::Enter];
    assert(all.drop_last() =~= head + inside);
    crate::trace::lemma_on_chip_join(head, inside);
    assert(head.drop_last() =~= Seq::empty());
    assert(crate::trace::on_chip(head) =~= Seq::empty()) by {
        reveal_with_fuel(crate::trace::on_chip, 2);
    }
    assert(crate::trace::on_chip(all) =~= inside);
}

/// The hardware together with the record of what was done to it.
struct Wire<H: Hardware> {
    hw: H,
    log: Ghost<Seq<Access>>,
}

impl<H: Hardware> Wire<H> {
    spec fn view(&self) -> Seq<Access> {
        self.log@
    }

    /// The record and the hardware went on from `pre` together, and the
    /// peripherals were not handed out meanwhile.
    spec fn follows(&self, pre: Self) -> bool {
        &&& crate::trace::grew(pre@, pre.hw.trace(), self@, self.hw.trace())
        &&& self.hw.claimed() == pre.hw.claimed()
    }

    fn read8(&mut self, addr: u32) -> (value: u8)
        ensures
            final(self)@ == old(self)@.push(Access::Read8 { addr, value }),
            final(self).hw.trace() == old(self).hw.trace().push(Access::Read8 { addr, value }),
            final(self).follows(*old(self)),
    {
        let value: u8 = self.hw.read8(addr);
        self.log = Ghost(self.log@.push(Access::Read8 { addr, value }));
        proof {
            crate::trace::lemma_grew_by(old(self)@, old(self).hw.trace(), Access::Read8 { addr, value });
        }
        value
    }

    fn write8(&mut self, addr: u32, value: u8)
        ensures
            final(self)@ == old(self)@.push(Access::Write8 { addr, value }),
            final(self).hw.trace() == old(self).hw.trace().push(Access::Write8 { addr, value }),
            final(self).follows(*old(self)),
    {
        self.hw.write8(addr, value);
        self.log = Ghost(self.log@.push(Access::Write8 { addr, value }));
        proof {
            crate::trace::lemma_grew_by(old(self)@, old(self).hw.trace(), Access::Write8 { addr, value });
        }
    }

    fn read16(&mut self, addr: u32) -> (value: u16)
        ensures
            final(self)@ == old(self)@.push(Access::Read16 { addr, value }),
            final(self).hw.trace() == old(self).hw.trace().push(Access::Read16 { addr, value }),
            final(self).follows(*old(self)),
    {
        let value: u16 = self.hw.read16(addr);
        self.log = Ghost(self.log@.push(Access::Read16 { addr, value }));
        proof {
            crate::trace::lemma_grew_by(old(self)@, old(self).hw.trace(), Access::Read16 { addr, value });
        }
        value
    }

    fn write16(&mut self, addr: u32, value: u16)
        ensures
            final(self)@ == old(self)@.push(Access::Write16 { addr, value }),
            final(self).hw.trace() == old(self).hw.trace().push(Access::Write16 { addr, value }),
            final(self).follows(*old(self)),
    {
        self.hw.write16(addr, value);
        self.log = Ghost(self.log@.push(Access::Write16 { addr, value }));
        proof {
            crate::trace::lemma_grew_by(old(self)@, old(self).hw.trace(), Access::Write16 { addr, value });
        }
    }

    fn barrier(&mut self)
        ensures
            final(self)@ == old(self)@.push(Access::Barrier),
            final(self).hw.trace() == old(self).hw.trace().push(Access::Barrier),
            final(self).follows(*old(self)),
    {
        self.hw.barrier();
        self.log = Ghost(self.log@.push(Access::Barrier));
        proof {
            crate::trace::lemma_grew_by(old(self)@, old(self).hw.trace(), Access::Barrier);
        }
    }

    fn spin(&mut self, iters: u16)
        ensures
            final(self)@ == old(self)@.push(Access::Spin { iters }),
            final(self).hw.trace() == old(self).hw.trace().push(Access::Spin { iters }),
            final(self).follows(*old(self)),
    {
        self.hw.spin(iters);
        self.log = Ghost(self.log@.push(Access::Spin { iters }));
        proof {
            crate::trace::lemma_grew_by(old(self)@, old(self).hw.trace(), Access::Spin { iters });
        }
    }

    fn sleep(&mut self, mode: u16)
        ensures
            final(self)@ == old(self)@.push(Access::Sleep { mode }),
            final(self).hw.trace() == old(self).hw.trace().push(Access::Sleep { mode }),
            final(self).follows(*old(self)),
    {
        self.hw.sleep(mode);
        self.log = Ghost(self.log@.push(Access::Sleep { mode }));
        proof {
            crate::trace::lemma_grew_by(old(self)@, old(self).hw.trace(), Access::Sleep { mode });
        }
    }

    fn scratch(&mut self) -> (addr: u16)
        ensures
            final(self)@ == old(self)@.push(Access::Scratch { addr }),
            final(self).hw.trace() == old(self).hw.trace().push(Access::Scratch { addr }),
            final(self).follows(*old(self)),
    {
        let addr: u16 = self.hw.scratch();
        self.log = Ghost(self.log@.push(Access::Scratch { addr }));
        proof {
            crate::trace::lemma_grew_by(old(self)@, old(self).hw.trace(), Access::Scratch { addr });
        }
        addr
    }

    /// Makes one register change.
    fn edit(&mut self, edit: Edit)
        ensures
            final(self)@.len() == old(self)@.len() + edit_width(edit),
            final(self)@.take(old(self)@.len() as int) =~= old(self)@,
            edit_means(edit, final(self)@.skip(old(self)@.len() as int)),
            final(self).follows(*old(self)),
    {
        match edit {
            Edit::Update { addr, clear, set } => {
                let before: u16 = self.read16(addr);
                self.write16(addr, (before & !clear) | set);
            },
            Edit::Store { addr, value } => {
                self.write16(addr, value);
            },
        }
    }

    /// Makes one register change and then, where there is one, another.
    fn edits(&mut self, first: Edit, second: Option<Edit>)
        ensures
            old(self)@.len() <= final(self)@.len(),
            final(self)@.take(old(self)@.len() as int) =~= old(self)@,
            edits_mean(first, second, final(self)@.skip(old(self)@.len() as int)),
            final(self).follows(*old(self)),
    {
        let ghost n = self@.len() as int;
        let ghost start = self@;
        self.edit(first);
        match second {
            None => {},
            Some(next) => {
                let ghost mid = self@;
                self.edit(next);
                proof {
                    let w = edit_width(first) as int;
                    let all = self@.skip(n);
                    assert(all.take(w) =~= mid.skip(n));
                    assert(all.skip(w) =~= self@.skip(mid.len() as int));
                    assert(self@.take(n) =~= mid.take(n));
                }
            },
        }
    }
}

/// What is between the first and the last access.
pub open spec fn inside(section: Seq<Access>) -> Seq<Access> {
    section.subrange(1, section.len() - 1)
}

/// Runs the register changes with interrupts masked, through
/// `critical_section::with`. Claimed of it: it enters a critical section, calls
/// the closure that it is given exactly once, so that the accesses made are
/// those of the changes, and leaves the critical section. That no interrupt
/// handler runs in between is up to the implementation of critical sections
/// that the program links, and is not stated.
#[verifier::external_body]
fn with_interrupts_masked<H: Hardware>(wire: &mut Wire<H>, first: Edit, second: Option<Edit>)
    ensures
        old(wire)@.len() + 2 <= final(wire)@.len(),
        final(wire)@.take(old(wire)@.len() as int) == old(wire)@,
        final(wire)@[old(wire)@.len() as int] == Access::Enter,
        edits_mean(first, second, inside(final(wire)@.skip(old(wire)@.len() as int))),
        final(wire)@.last() == Access::Exit,
        final(wire).hw.trace() == old(wire).hw.trace() + inside(
            final(wire)@.skip(old(wire)@.len() as int),
        ),
        final(wire).hw.claimed() == old(wire).hw.claimed(),
{
    critical_section::with(|_cs| wire.edits(first, second))
}

/// The peripheral bus.
pub struct Bus<H: Hardware> {
    wire: Wire<H>,
    patience: u64,
    steps: Ghost<Seq<Step>>,
}

impl<H: Hardware> Bus<H> {
    /// The steps done so far.
    pub closed spec fn view(&self) -> Seq<Step> {
        self.steps@
    }

    /// The accesses made so far.
    pub closed spec fn raw(&self) -> Seq<Access> {
        self.wire@
    }

    /// The accesses made so far are those of the steps, in order, and no
    /// others.
    pub closed spec fn traced(&self) -> bool {
        accounts(self.steps@, self.wire@)
    }

    /// The hardware as it is now.
    pub closed spec fn hardware(&self) -> H {
        self.wire.hw
    }

    /// How often a polling loop reads before it gives up.
    pub closed spec fn patience(&self) -> u64 {
        self.patience
    }

    /// Whether the peripherals have been handed out.
    pub open spec fn taken(&self) -> bool {
        self.hardware().claimed()
    }

    /// The bus is `pre` after the steps of `script`, and nothing else was
    /// done: not on the record of steps, and not to the hardware, which saw
    /// exactly the accesses that the steps stand for.
    pub open spec fn ran(&self, pre: Self, script: Seq<Step>) -> bool {
        &&& self@ =~= pre@ + script
        &&& crate::trace::grew(pre.raw(), pre.hardware().trace(), self.raw(), self.hardware().trace())
        &&& self.patience() == pre.patience()
        &&& self.taken() == pre.taken()
        &&& pre.traced() ==> self.traced()
    }

    /// A bus over `hw` whose polling loops read at most `patience` times. With
    /// `u64::MAX` they read for as long as a chip lasts.
    pub fn new(hw: H, patience: u64) -> (bus: Self)
        ensures
            bus@ == Seq::<Step>::empty(),
            bus.raw() == Seq::<Access>::empty(),
            bus.hardware() == hw,
            bus.patience() == patience,
            bus.taken() == hw.claimed(),
            bus.traced(),
    {
        Bus {
            wire: Wire { hw, log: Ghost(Seq::empty()) },
            patience,
            steps: Ghost(Seq::empty()),
        }
    }

    /// How often a polling loop may read.
    pub(crate) fn attempts(&self) -> (n: u64)
        ensures
            n == self.patience(),
    {
        self.patience
    }

    /// Gives the hardware back.
    pub fn release(self) -> (hw: H)
        ensures
            hw == self.hardware(),
    {
        self.wire.hw
    }

    /// Marks the peripherals as handed out; `true` the first time.
    pub(crate) fn claim(&mut self) -> (first: bool)
        ensures
            first == !old(self).taken(),
            final(self).taken(),
            final(self)@ == old(self)@,
            final(self).raw() == old(self).raw(),
            final(self).hardware().trace() == old(self).hardware().trace(),
            final(self).patience() == old(self).patience(),
            final(self).traced() == old(self).traced(),
    {
        self.wire.hw.claim()
    }

    /// Records `step`, which stands for the accesses made since `start`.
    fn note(&mut self, Ghost(step): Ghost<Step>, Ghost(start): Ghost<Seq<Access>>)
        requires
            explained(start, old(self).wire@, step),
        ensures
            final(self).wire == old(self).wire,
            final(self).patience == old(self).patience,
            final(self).steps@ == old(self).steps@.push(step),
            accounts(old(self).steps@, start) ==> final(self).traced(),
    {
        self.steps = Ghost(self.steps@.push(step));
        proof {
            let n = start.len() as int;
            assert(self.steps@.drop_last() =~= old(self).steps@);
            assert(self.wire@.take(n) =~= start);
            if accounts(old(self).steps@, start) {
                lemma_accounts_push(old(self).steps@, start, self.wire@, step);
            }
        }
    }

    /// Load a byte.
    pub fn read8(&mut self, addr: u32) -> (value: u8)
        ensures
            final(self).ran(*old(self), seq![Step::Read8 { addr, value }]),
            explained(old(self).raw(), final(self).raw(), Step::Read8 { addr, value }),
    {
        let value: u8 = self.wire.read8(addr);
        self.note(Ghost(Step::Read8 { addr, value }), Ghost(old(self).raw()));
        value
    }

    /// Store a byte.
    pub fn write8(&mut self, addr: u32, value: u8)
        ensures
            final(self).ran(*old(self), seq![Step::Write8 { addr, value }]),
            explained(old(self).raw(), final(self).raw(), Step::Write8 { addr, value }),
    {
        self.wire.write8(addr, value);
        self.note(Ghost(Step::Write8 { addr, value }), Ghost(old(self).raw()));
    }

    /// Load a word.
    pub fn read16(&mut self, addr: u32) -> (value: u16)
        ensures
            final(self).ran(*old(self), seq![Step::Read16 { addr, value }]),
            explained(old(self).raw(), final(self).raw(), Step::Read16 { addr, value }),
    {
        let value: u16 = self.wire.read16(addr);
        self.note(Ghost(Step::Read16 { addr, value }), Ghost(old(self).raw()));
        value
    }

    /// Store a word.
    pub fn write16(&mut self, addr: u32, value: u16)
        ensures
            final(self).ran(*old(self), seq![Step::Write16 { addr, value }]),
            explained(old(self).raw(), final(self).raw(), Step::Write16 { addr, value }),
    {
        self.wire.write16(addr, value);
        self.note(Ghost(Step::Write16 { addr, value }), Ghost(old(self).raw()));
    }

    /// Read-modify-write of a byte.
    pub fn edit8(&mut self, addr: u32, clear: u8, set: u8)
        ensures
            final(self).ran(*old(self), seq![Step::Edit8 { addr, clear, set }]),
            explained(old(self).raw(), final(self).raw(), Step::Edit8 { addr, clear, set }),
    {
        let before: u8 = self.wire.read8(addr);
        self.wire.write8(addr, (before & !clear) | set);
        self.note(Ghost(Step::Edit8 { addr, clear, set }), Ghost(old(self).raw()));
    }

    /// Read-modify-write of a word.
    pub fn edit16(&mut self, addr: u32, clear: u16, set: u16)
        ensures
            final(self).ran(*old(self), seq![Step::Edit16 { addr, clear, set }]),
            explained(old(self).raw(), final(self).raw(), Step::Edit16 { addr, clear, set }),
    {
        self.wire.edit(Edit::Update { addr, clear, set });
        self.note(Ghost(Step::Edit16 { addr, clear, set }), Ghost(old(self).raw()));
    }

    /// Register changes inside one critical section.
    pub fn masked(&mut self, first: Edit, second: Option<Edit>)
        ensures
            final(self).ran(*old(self), seq![Step::Masked { first, second }]),
            explained(old(self).raw(), final(self).raw(), Step::Masked { first, second }),
    {
        let ghost start = self.wire@;
        with_interrupts_masked(&mut self.wire, first, second);
        proof {
            let all = self.wire@.skip(start.len() as int);
            lemma_section_on_chip(first, second, all);
            assert(crate::trace::grew(start, old(self).wire.hw.trace(), self.wire@, self.wire.hw.trace())) by {
                reveal(crate::trace::grew);
            }
        }
        self.note(Ghost(Step::Masked { first, second }), Ghost(old(self).raw()));
    }

    /// Read-modify-write of a word inside a critical section.
    pub fn masked_edit16(&mut self, addr: u32, clear: u16, set: u16)
        ensures
            final(self).ran(
                *old(self),
                seq![Step::Masked { first: Edit::Update { addr, clear, set }, second: None }],
            ),
    {
        self.masked(Edit::Update { addr, clear, set }, None)
    }

    /// Read a word once and test it.
    pub fn test16(&mut self, addr: u32, cond: Cond) -> (holds: bool)
        ensures
            final(self).ran(*old(self), seq![Step::Test16 { addr, cond, holds }]),
            explained(old(self).raw(), final(self).raw(), Step::Test16 { addr, cond, holds }),
    {
        let value: u16 = self.wire.read16(addr);
        let holds: bool = cond.test(value);
        self.note(Ghost(Step::Test16 { addr, cond, holds }), Ghost(old(self).raw()));
        holds
    }

    /// Whether some bit of `mask` is set, for a mask of one bit.
    pub fn is_set16(&mut self, addr: u32, mask: u16) -> (holds: bool)
        ensures
            final(self).ran(*old(self), seq![Step::Test16 { addr, cond: Cond::all_set(mask), holds }]),
    {
        self.test16(addr, Cond::Bits { mask, want: mask })
    }

    /// Read a word until it passes, at most `budget` times.
    pub fn poll16_within(&mut self, addr: u32, until: Cond, budget: u64) -> (met: bool)
        ensures
            final(self).ran(
                *old(self),
                seq![Step::Poll16 { addr, until, budget, met }],
            ),
            explained(
                old(self).raw(),
                final(self).raw(),
                Step::Poll16 { addr, until, budget, met },
            ),
    {
        let ghost start = self.wire@;
        let ghost n = start.len() as int;
        let mut left: u64 = budget;
        while left > 0
            invariant
                left <= budget,
                self.patience == old(self).patience,
                self.wire.follows(old(self).wire),
                self.steps == old(self).steps,
                n == start.len(),
                start == old(self).raw(),
                self.wire@.len() == n + (budget - left),
                self.wire@.take(n) =~= start,
                all_miss(self.wire@.skip(n), addr, until),
            decreases left,
        {
            let ghost missed = self.wire@.skip(n);
            let value: u16 = self.wire.read16(addr);
            left = left - 1;
            proof {
                let now = self.wire@.skip(n);
                assert(now.drop_last() =~= missed);
                assert forall|i: int| 0 <= i < missed.len() implies #[trigger] now[i]
                    == missed[i] by {}
            }
            if until.test(value) {
                self.note(Ghost(Step::Poll16 { addr, until, budget, met: true }), Ghost(old(self).raw()));
                return true;
            }
        }
        self.note(Ghost(Step::Poll16 { addr, until, budget, met: false }), Ghost(old(self).raw()));
        false
    }

    /// Read a word until it passes, as often as the bus has patience.
    pub fn poll16(&mut self, addr: u32, until: Cond) -> (met: bool)
        ensures
            final(self).ran(
                *old(self),
                seq![Step::Poll16 { addr, until, budget: old(self).patience(), met }],
            ),
    {
        self.poll16_within(addr, until, self.patience)
    }

    /// Poll `addr`, giving up when it passes `fail`, when `watch` passes
    /// `trip`, or after `budget` rounds.
    pub fn guard16(
        &mut self,
        addr: u32,
        fail: Cond,
        done: Cond,
        watch: u32,
        trip: Cond,
        budget: u64,
    ) -> (outcome: Outcome)
        ensures
            final(self).ran(
                *old(self),
                seq![Step::Guard16 { addr, fail, done, watch, trip, budget, outcome }],
            ),
            explained(
                old(self).raw(),
                final(self).raw(),
                Step::Guard16 { addr, fail, done, watch, trip, budget, outcome },
            ),
            fail is Never ==> outcome != Outcome::Failed,
    {
        let ghost start = self.wire@;
        let ghost n = start.len() as int;
        let mut left: u64 = budget;
        while left > 0
            invariant
                left <= budget,
                self.patience == old(self).patience,
                self.wire.follows(old(self).wire),
                self.steps == old(self).steps,
                n == start.len(),
                start == old(self).raw(),
                self.wire@.len() == n + 2 * (budget - left),
                self.wire@.take(n) =~= start,
                idle_rounds(self.wire@.skip(n), addr, fail, done, watch, trip),
            decreases left,
        {
            let ghost idle = self.wire@;
            let value: u16 = self.wire.read16(addr);
            left = left - 1;
            if fail.test(value) {
                let outcome = Outcome::Failed;
                assert(self.wire@.skip(n).take(self.wire@.len() - n - 1) =~= idle.skip(n));
                self.note(
                    Ghost(Step::Guard16 { addr, fail, done, watch, trip, budget, outcome }),
                    Ghost(old(self).raw()),
                );
                return outcome;
            }
            if done.test(value) {
                let outcome = Outcome::Ready;
                assert(self.wire@.skip(n).take(self.wire@.len() - n - 1) =~= idle.skip(n));
                self.note(
                    Ghost(Step::Guard16 { addr, fail, done, watch, trip, budget, outcome }),
                    Ghost(old(self).raw()),
                );
                return outcome;
            }
            let watched: u16 = self.wire.read16(watch);
            if trip.test(watched) {
                let outcome = Outcome::Tripped;
                assert(self.wire@.skip(n).take(self.wire@.len() - n - 2) =~= idle.skip(n));
                self.note(
                    Ghost(Step::Guard16 { addr, fail, done, watch, trip, budget, outcome }),
                    Ghost(old(self).raw()),
                );
                return outcome;
            }
            proof {
                let now = self.wire@.skip(n);
                let was = idle.skip(n);
                assert(now.take(was.len() as int) =~= was);
                assert forall|i: int| 0 <= i < now.len() implies {
                    if i % 2 == 0 {
                        read_misses(#[trigger] now[i], addr, fail) && read_misses(now[i], addr, done)
                    } else {
                        read_misses(now[i], watch, trip)
                    }
                } by {
                    if i < was.len() {
                        assert(now[i] == was[i]);
                    }
                }
            }
        }
        let outcome = Outcome::Exhausted;
        self.note(
                    Ghost(Step::Guard16 { addr, fail, done, watch, trip, budget, outcome }),
                    Ghost(old(self).raw()),
                );
        outcome
    }

    /// Read a word and keep its low byte.
    pub fn low8(&mut self, addr: u32) -> (value: u8)
        ensures
            final(self).ran(*old(self), seq![Step::Low8 { addr, value }]),
            explained(old(self).raw(), final(self).raw(), Step::Low8 { addr, value }),
    {
        let word: u16 = self.wire.read16(addr);
        let value: u8 = word as u8;
        self.note(Ghost(Step::Low8 { addr, value }), Ghost(old(self).raw()));
        value
    }

    /// Read a byte once and look for any bit of `mask`.
    pub fn test8(&mut self, addr: u32, mask: u8) -> (any: bool)
        ensures
            final(self).ran(*old(self), seq![Step::Test8 { addr, mask, any }]),
            explained(old(self).raw(), final(self).raw(), Step::Test8 { addr, mask, any }),
    {
        let value: u8 = self.wire.read8(addr);
        let any: bool = value & mask != 0;
        self.note(Ghost(Step::Test8 { addr, mask, any }), Ghost(old(self).raw()));
        any
    }

    /// Pass the time with `times` reads of a byte.
    pub fn dwell8(&mut self, addr: u32, times: u16)
        ensures
            final(self).ran(*old(self), seq![Step::Dwell8 { addr, times }]),
            explained(old(self).raw(), final(self).raw(), Step::Dwell8 { addr, times }),
    {
        let ghost start = self.wire@;
        let ghost n = start.len() as int;
        let mut done: u16 = 0;
        while done < times
            invariant
                done <= times,
                self.patience == old(self).patience,
                self.wire.follows(old(self).wire),
                self.steps == old(self).steps,
                n == start.len(),
                start == old(self).raw(),
                self.wire@.len() == n + done,
                self.wire@.take(n) =~= start,
                forall|i: int|
                    n <= i < self.wire@.len() ==> {
                        &&& #[trigger] self.wire@[i] matches Access::Read8 { addr: a, .. }
                        &&& a == addr
                    },
            decreases times - done,
        {
            self.wire.read8(addr);
            done = done + 1;
        }
        self.note(Ghost(Step::Dwell8 { addr, times }), Ghost(old(self).raw()));
    }

    /// Order memory accesses around this point.
    pub fn barrier(&mut self)
        ensures
            final(self).ran(*old(self), seq![Step::Barrier]),
            explained(old(self).raw(), final(self).raw(), Step::Barrier),
    {
        self.wire.barrier();
        self.note(Ghost(Step::Barrier), Ghost(old(self).raw()));
    }

    /// Burn `iters` turns of the countdown loop.
    pub fn spin(&mut self, iters: u16)
        ensures
            final(self).ran(*old(self), seq![Step::Spin { iters }]),
            explained(old(self).raw(), final(self).raw(), Step::Spin { iters }),
    {
        self.wire.spin(iters);
        self.note(Ghost(Step::Spin { iters }), Ghost(old(self).raw()));
    }

    /// Enter the low-power mode that the status-register bits select.
    pub fn sleep(&mut self, mode: u16)
        ensures
            final(self).ran(*old(self), seq![Step::Sleep { mode }]),
            explained(old(self).raw(), final(self).raw(), Step::Sleep { mode }),
    {
        self.wire.sleep(mode);
        self.note(Ghost(Step::Sleep { mode }), Ghost(old(self).raw()));
    }

    /// The address of the scratch word.
    pub fn scratch(&mut self) -> (addr: u16)
        ensures
            final(self).ran(*old(self), seq![Step::Scratch { addr }]),
            explained(old(self).raw(), final(self).raw(), Step::Scratch { addr }),
    {
        let addr: u16 = self.wire.scratch();
        self.note(Ghost(Step::Scratch { addr }), Ghost(old(self).raw()));
        addr
    }
}

/// How many steps of `script` pass `p`.
pub open spec fn tally(script: Seq<Step>, p: spec_fn(Step) -> bool) -> nat
    decreases script.len(),
{
    if script.len() == 0 {
        0
    } else {
        tally(script.drop_last(), p) + if p(script.last()) {
            1nat
        } else {
            0
        }
    }
}

/// Tallies of joined scripts add up.
pub(crate) proof fn lemma_tally_join(a: Seq<Step>, b: Seq<Step>, p: spec_fn(Step) -> bool)
    ensures
        tally(a + b, p) == tally(a, p) + tally(b, p),
    decreases b.len(),
{
    if b.len() == 0 {
        assert(a + b =~= a);
    } else {
        assert((a + b).drop_last() =~= a + b.drop_last());
        lemma_tally_join(a, b.drop_last(), p);
    }
}

/// A script of which no step passes has a tally of zero.
pub(crate) proof fn lemma_tally_zero(script: Seq<Step>, p: spec_fn(Step) -> bool)
    requires
        forall|i: int| 0 <= i < script.len() ==> !p(#[trigger] script[i]),
    ensures
        tally(script, p) == 0,
    decreases script.len(),
{
    if script.len() > 0 {
        lemma_tally_zero(script.drop_last(), p);
    }
}

/// A script of which exactly the step at `at` passes has a tally of one.
pub(crate) proof fn lemma_tally_one(script: Seq<Step>, p: spec_fn(Step) -> bool, at: int)
    requires
        0 <= at < script.len(),
        p(script[at]),
        forall|i: int| 0 <= i < script.len() && i != at ==> !p(#[trigger] script[i]),
    ensures
        tally(script, p) == 1,
    decreases script.len(),
{
    if at == script.len() - 1 {
        lemma_tally_zero(script.drop_last(), p);
    } else {
        lemma_tally_one(script.drop_last(), p, at);
    }
}

/// What [`Bus::traced`] says: the two records of a bus agree. It holds of a
/// new bus, and every step keeps it.
pub proof fn lemma_records_agree<H: Hardware>(bus: Bus<H>)
    requires
        bus.traced(),
    ensures
        accounts(bus@, bus.raw()),
{
}

/// What [`Bus::ran`] says of the hardware: while the steps ran, it was asked
/// exactly the accesses that were recorded meanwhile, but for the ends of
/// critical sections, and what was recorded before is as it was.
pub proof fn lemma_hardware_was_asked<H: Hardware>(pre: Bus<H>, post: Bus<H>, script: Seq<Step>)
    requires
        post.ran(pre, script),
    ensures
        pre.raw().len() <= post.raw().len(),
        post.raw().take(pre.raw().len() as int) == pre.raw(),
        post.hardware().trace() == pre.hardware().trace() + crate::trace::on_chip(
            post.raw().skip(pre.raw().len() as int),
        ),
        post.taken() == pre.taken(),
{
    reveal(crate::trace::grew);
}

/// All that patience does is to end a wait in which nothing was decided: a wait
/// that was decided is the same with more patience, and one that was not found
/// nothing in as many rounds as it had.
pub proof fn lemma_patience_only_gives_up(
    accesses: Seq<Access>,
    addr: u32,
    fail: Cond,
    done: Cond,
    watch: u32,
    trip: Cond,
    budget: u64,
    more: u64,
    outcome: Outcome,
)
    requires
        budget <= more,
    ensures
        means(Step::Poll16 { addr, until: done, budget, met: true }, accesses) ==> means(
            Step::Poll16 { addr, until: done, budget: more, met: true },
            accesses,
        ),
        means(Step::Poll16 { addr, until: done, budget, met: false }, accesses) ==> accesses.len()
            == budget && all_miss(accesses, addr, done),
        outcome != Outcome::Exhausted && guard_means(
            accesses,
            addr,
            fail,
            done,
            watch,
            trip,
            budget,
            outcome,
        ) ==> guard_means(accesses, addr, fail, done, watch, trip, more, outcome),
        guard_means(accesses, addr, fail, done, watch, trip, budget, Outcome::Exhausted)
            ==> accesses.len() == 2 * budget && idle_rounds(
            accesses,
            addr,
            fail,
            done,
            watch,
            trip,
        ),
{
}

/// A wait used up its patience: the hardware never reported what was waited
/// for.
#[derive(Clone, Copy, PartialEq, Eq, Structural, Debug)]
pub struct Stalled;

/// A register change bit by bit: what is set is 1, what is cleared and not set is
/// 0, and every other bit is as it was.
pub proof fn lemma_edited_bits(before: u16, clear: u16, set: u16, i: u16)
    requires
        i < 16,
    ensures
        (edited16(before, clear, set) >> i) & 1 == if (set >> i) & 1 == 1 {
            1
        } else if (clear >> i) & 1 == 1 {
            0
        } else {
            (before >> i) & 1
        },
{
    assert(i < 16 ==> ((((before & !clear) | set) >> i) & 1 == if (set >> i) & 1 == 1 {
        1u16
    } else if (clear >> i) & 1 == 1 {
        0u16
    } else {
        (before >> i) & 1
    })) by (bit_vector);
}

/// The same of a byte.
pub proof fn lemma_edited_bits8(before: u8, clear: u8, set: u8, i: u8)
    requires
        i < 8,
    ensures
        (edited8(before, clear, set) >> i) & 1 == if (set >> i) & 1 == 1 {
            1
        } else if (clear >> i) & 1 == 1 {
            0
        } else {
            (before >> i) & 1
        },
{
    assert(i < 8 ==> ((((before & !clear) | set) >> i) & 1 == if (set >> i) & 1 == 1 {
        1u8
    } else if (clear >> i) & 1 == 1 {
        0u8
    } else {
        (before >> i) & 1
    })) by (bit_vector);
}

/// A counter that was `start` and has gone on by `d` since then, round its range
/// or not, passes exactly from `ticks` on. A flag passes when it is set, and its
/// absence when it is not.
pub proof fn lemma_conditions(start: u16, d: u16, ticks: u16, value: u16, flag: u16)
    requires
        value == (start + d) % 0x1_0000,
        flag == 1 || flag == 2 || flag == 4 || flag == 8 || flag == 16 || flag == 32 || flag == 64
            || flag == 128,
    ensures
        (Cond::Elapsed { start, ticks }).passes(value) <==> d >= ticks,
        Cond::all_set(flag).passes(value) <==> value as int / flag as int % 2 == 1,
        Cond::none_set(flag).passes(value) <==> value as int / flag as int % 2 == 0,
        !Cond::Never.passes(value),
{
    assert((value & 1 == 1) == (value / 1 % 2 == 1) && (value & 2 == 2) == (value / 2 % 2 == 1) && (
    value & 4 == 4) == (value / 4 % 2 == 1) && (value & 8 == 8) == (value / 8 % 2 == 1) && (value
        & 16 == 16) == (value / 16 % 2 == 1) && (value & 32 == 32) == (value / 32 % 2 == 1) && (value
        & 64 == 64) == (value / 64 % 2 == 1) && (value & 128 == 128) == (value / 128 % 2 == 1) && (
    value & 1 == 0) == (value / 1 % 2 == 0) && (value & 2 == 0) == (value / 2 % 2 == 0) && (value & 4
        == 0) == (value / 4 % 2 == 0) && (value & 8 == 0) == (value / 8 % 2 == 0) && (value & 16
        == 0) == (value / 16 % 2 == 0) && (value & 32 == 0) == (value / 32 % 2 == 0) && (value & 64
        == 0) == (value / 64 % 2 == 0) && (value & 128 == 0) == (value / 128 % 2 == 0)) by (
    bit_vector);
}

} // verus!
