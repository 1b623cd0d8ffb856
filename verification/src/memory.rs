//! Memory and registers that hold what was stored in them last.
//!
//! Not every register is like that, so nothing is assumed of the hardware:
//! laws that need it say so, with [`recalled`].
use vstd::prelude::*;

use crate::bus::{Bus, Edit, Hardware, Step};

verus! {

/// The byte at each address.
pub type Memory = spec_fn(int) -> u8;

/// The word at an address, the low byte first.
pub open spec fn word_in(m: Memory, addr: int) -> u16 {
    (m(addr) + 0x100 * m(addr + 1)) as u16
}

/// A byte stored.
pub open spec fn put8(m: Memory, addr: int, value: u8) -> Memory {
    |a: int|
        if a == addr {
            value
        } else {
            m(a)
        }
}

/// A word stored, the low byte first.
pub open spec fn put16(m: Memory, addr: int, value: u16) -> Memory {
    |a: int|
        if a == addr {
            (value % 0x100) as u8
        } else if a == addr + 1 {
            (value / 0x100) as u8
        } else {
            m(a)
        }
}

/// A register changed.
pub open spec fn changed(m: Memory, edit: Edit) -> Memory {
    match edit {
        Edit::Update { addr, clear, set } => put16(
            m,
            addr as int,
            crate::bus::edited16(word_in(m, addr as int), clear, set),
        ),
        Edit::Store { addr, value } => put16(m, addr as int, value),
    }
}

/// What a memory holds after a step.
pub open spec fn stored(m: Memory, step: Step) -> Memory {
    match step {
        Step::Write8 { addr, value } => put8(m, addr as int, value),
        Step::Write16 { addr, value } => put16(m, addr as int, value),
        Step::Edit8 { addr, clear, set } => put8(
            m,
            addr as int,
            crate::bus::edited8(m(addr as int), clear, set),
        ),
        Step::Edit16 { addr, clear, set } => changed(m, Edit::Update { addr, clear, set }),
        Step::Masked { first, second } => match second {
            None => changed(m, first),
            Some(next) => changed(changed(m, first), next),
        },
        _ => m,
    }
}

/// A step that reads once reads what the memory holds. A wait says nothing: it
/// is for what changes by itself.
pub open spec fn found(m: Memory, step: Step) -> bool {
    match step {
        Step::Read8 { addr, value } => value == m(addr as int),
        Step::Read16 { addr, value } => value == word_in(m, addr as int),
        Step::Low8 { addr, value } => value == m(addr as int),
        Step::Test8 { addr, mask, any } => any == (m(addr as int) & mask != 0),
        Step::Test16 { addr, cond, holds } => holds == cond.passes(word_in(m, addr as int)),
        _ => true,
    }
}

/// What a memory holds after a script.
pub open spec fn memory_after(m: Memory, script: Seq<Step>) -> Memory
    decreases script.len(),
{
    if script.len() == 0 {
        m
    } else {
        stored(memory_after(m, script.drop_last()), script.last())
    }
}

/// Every step of a script reads what the memory then holds.
pub open spec fn remembered(m: Memory, script: Seq<Step>) -> bool
    decreases script.len(),
{
    script.len() > 0 ==> {
        &&& remembered(m, script.drop_last())
        &&& found(memory_after(m, script.drop_last()), script.last())
    }
}

/// What a memory that held `m` when the bus was `pre` holds now that it is
/// `post`.
pub open spec fn left<H: Hardware>(m: Memory, pre: Bus<H>, post: Bus<H>) -> Memory {
    memory_after(m, post@.skip(pre@.len() as int))
}

/// All that was read between `pre` and `post` is what the memory held, which
/// was `m` at first: nothing else changes it meanwhile.
pub open spec fn recalled<H: Hardware>(m: Memory, pre: Bus<H>, post: Bus<H>) -> bool {
    remembered(m, post@.skip(pre@.len() as int))
}

/// A script of two parts: what the second leaves and finds goes by what the
/// first left.
pub proof fn lemma_memory_joins(m: Memory, a: Seq<Step>, b: Seq<Step>)
    ensures
        memory_after(m, a + b) == memory_after(memory_after(m, a), b),
        remembered(m, a + b) <==> remembered(m, a) && remembered(memory_after(m, a), b),
    decreases b.len(),
{
    if b.len() == 0 {
        assert(a + b =~= a);
    } else {
        assert((a + b).drop_last() =~= a + b.drop_last());
        lemma_memory_joins(m, a, b.drop_last());
    }
}

/// What a bus did last decides what it leaves and finds, after what it left
/// before.
pub proof fn lemma_ran_joins<H: Hardware>(
    m: Memory,
    pre: Bus<H>,
    mid: Bus<H>,
    post: Bus<H>,
    a: Seq<Step>,
    b: Seq<Step>,
)
    requires
        mid.ran(pre, a),
        post.ran(mid, b),
    ensures
        left(m, pre, mid) == memory_after(m, a),
        left(m, pre, post) == memory_after(memory_after(m, a), b),
        recalled(m, pre, mid) <==> remembered(m, a),
        recalled(m, pre, post) <==> remembered(m, a) && remembered(memory_after(m, a), b),
{
    assert(mid@.skip(pre@.len() as int) =~= a);
    assert(post@.skip(pre@.len() as int) =~= a + b);
    lemma_memory_joins(m, a, b);
}

/// One step.
pub(crate) proof fn lemma_one_step(m: Memory, step: Step)
    ensures
        memory_after(m, seq![step]) == stored(m, step),
        remembered(m, seq![step]) <==> found(m, step),
{
    let script = seq![step];
    assert(script.drop_last() =~= Seq::empty());
    reveal_with_fuel(memory_after, 2);
    reveal_with_fuel(remembered, 2);
}

/// What a memory holds after the first `n` steps of a script.
pub open spec fn memory_at(m: Memory, script: Seq<Step>, n: int) -> Memory
    decreases n,
{
    if n <= 0 {
        m
    } else {
        stored(memory_at(m, script, n - 1), script[n - 1])
    }
}

/// A script step by step.
pub proof fn lemma_memory_at(m: Memory, script: Seq<Step>)
    ensures
        memory_after(m, script) == memory_at(m, script, script.len() as int),
    decreases script.len(),
{
    if script.len() > 0 {
        lemma_memory_at(m, script.drop_last());
        lemma_memory_prefix(m, script.drop_last(), script, script.len() - 1);
    }
}

proof fn lemma_memory_prefix(m: Memory, a: Seq<Step>, b: Seq<Step>, n: int)
    requires
        n <= a.len(),
        n <= b.len(),
        forall|i: int| 0 <= i < n ==> a[i] == b[i],
    ensures
        memory_at(m, a, n) == memory_at(m, b, n),
    decreases n,
{
    if n > 0 {
        lemma_memory_prefix(m, a, b, n - 1);
    }
}

/// One step more.
pub broadcast proof fn lemma_memory_step(m: Memory, script: Seq<Step>, step: Step)
    ensures
        #[trigger] memory_after(m, script.push(step)) == stored(memory_after(m, script), step),
{
    assert(script.push(step).drop_last() =~= script);
}

/// A word reads back where it was stored, and the words beside it are as before.
pub broadcast proof fn lemma_word_stored(m: Memory, addr: int, value: u16, at: int)
    ensures
        at == addr ==> #[trigger] word_in(put16(m, addr, value), at) == value,
        at + 1 < addr || addr + 1 < at ==> word_in(put16(m, addr, value), at) == word_in(m, at),
{
}

/// A byte stored leaves the words that do not hold it as before.
pub broadcast proof fn lemma_byte_stored(m: Memory, addr: int, value: u8, at: int)
    ensures
        at + 1 < addr || addr < at ==> #[trigger] word_in(put8(m, addr, value), at) == word_in(
            m,
            at,
        ),
{
}

pub broadcast group group_memory {
    lemma_memory_step,
    lemma_word_stored,
    lemma_byte_stored,
}

} // verus!
