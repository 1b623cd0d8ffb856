//! What was done to the chip, access by access.
use vstd::prelude::*;

verus! {

/// One access to the chip, with what it carried.
#[allow(inconsistent_fields)]
pub enum Access {
    Read8 { addr: u32, value: u8 },
    Write8 { addr: u32, value: u8 },
    Read16 { addr: u32, value: u16 },
    Write16 { addr: u32, value: u16 },
    Barrier,
    Spin { iters: u16 },
    Sleep { mode: u16 },
    Scratch { addr: u16 },
    /// A critical section begins.
    Enter,
    /// The critical section ends.
    Exit,
}

/// The accesses of a record that the hardware sees: all but the ends of
/// critical sections.
pub open spec fn on_chip(raw: Seq<Access>) -> Seq<Access>
    decreases raw.len(),
{
    if raw.len() == 0 {
        Seq::empty()
    } else {
        match raw.last() {
            Access::Enter => on_chip(raw.drop_last()),
            Access::Exit => on_chip(raw.drop_last()),
            _ => on_chip(raw.drop_last()).push(raw.last()),
        }
    }
}

/// A record went on from `raw0` to `raw1` while the trace of the hardware went
/// on from `trace0` to `trace1`: both only grew, and the hardware saw exactly
/// what was recorded meanwhile.
#[verifier::opaque]
pub open spec fn grew(
    raw0: Seq<Access>,
    trace0: Seq<Access>,
    raw1: Seq<Access>,
    trace1: Seq<Access>,
) -> bool {
    &&& raw0.len() <= raw1.len()
    &&& raw1.take(raw0.len() as int) == raw0
    &&& trace1 == trace0 + on_chip(raw1.skip(raw0.len() as int))
}

pub(crate) proof fn lemma_on_chip_join(a: Seq<Access>, b: Seq<Access>)
    ensures
        on_chip(a + b) == on_chip(a) + on_chip(b),
    decreases b.len(),
{
    if b.len() == 0 {
        assert(a + b =~= a);
        assert(on_chip(a) + on_chip(b) =~= on_chip(a));
    } else {
        assert((a + b).drop_last() =~= a + b.drop_last());
        lemma_on_chip_join(a, b.drop_last());
        assert(on_chip(a + b) =~= on_chip(a) + on_chip(b));
    }
}

/// The hardware sees all of a record without critical sections.
pub(crate) proof fn lemma_all_on_chip(raw: Seq<Access>)
    requires
        forall|i: int|
            0 <= i < raw.len() ==> !((#[trigger] raw[i]) is Enter) && !(raw[i] is Exit),
    ensures
        on_chip(raw) == raw,
    decreases raw.len(),
{
    if raw.len() > 0 {
        let front = raw.drop_last();
        assert forall|i: int| 0 <= i < front.len() implies !((#[trigger] front[i]) is Enter) && !(
        front[i] is Exit) by {
            assert(front[i] == raw[i]);
        }
        lemma_all_on_chip(front);
        assert(!(raw[raw.len() - 1] is Enter) && !(raw[raw.len() - 1] is Exit));
        assert(front.push(raw.last()) =~= raw);
    } else {
        assert(raw =~= Seq::empty());
    }
}

/// Nothing done is nothing grown.
pub broadcast proof fn lemma_grew_nothing(raw: Seq<Access>, trace: Seq<Access>)
    ensures
        #[trigger] grew(raw, trace, raw, trace),
{
    reveal(grew);
    assert(raw.skip(raw.len() as int) =~= Seq::empty());
    assert(raw.take(raw.len() as int) =~= raw);
    assert(trace + on_chip(Seq::empty()) =~= trace);
}

/// What grew twice grew.
pub broadcast proof fn lemma_grew_on(
    raw0: Seq<Access>,
    trace0: Seq<Access>,
    raw1: Seq<Access>,
    trace1: Seq<Access>,
    raw2: Seq<Access>,
    trace2: Seq<Access>,
)
    requires
        #[trigger] grew(raw0, trace0, raw1, trace1),
        #[trigger] grew(raw1, trace1, raw2, trace2),
    ensures
        grew(raw0, trace0, raw2, trace2),
{
    reveal(grew);
    let n = raw0.len() as int;
    let m = raw1.len() as int;
    assert(raw2.take(n) =~= raw2.take(m).take(n));
    assert(raw2.skip(n) =~= raw1.skip(n) + raw2.skip(m)) by {
        assert forall|i: int| 0 <= i < raw2.len() - n implies raw2.skip(n)[i] == (raw1.skip(n)
            + raw2.skip(m))[i] by {
            if i < m - n {
                assert(raw2.take(m)[n + i] == raw1[n + i]);
            }
        }
    }
    lemma_on_chip_join(raw1.skip(n), raw2.skip(m));
    assert(trace2 =~= trace0 + on_chip(raw2.skip(n)));
}

/// One access is one access, on the record and on the hardware.
pub(crate) proof fn lemma_grew_by(raw: Seq<Access>, trace: Seq<Access>, access: Access)
    requires
        !(access is Enter),
        !(access is Exit),
    ensures
        grew(raw, trace, raw.push(access), trace.push(access)),
{
    reveal(grew);
    let n = raw.len() as int;
    let more = raw.push(access).skip(n);
    assert(raw.push(access).take(n) =~= raw);
    assert(more =~= seq![access]);
    lemma_all_on_chip(more);
    assert(trace.push(access) =~= trace + more);
}

/// How records and hardware grow together.
pub broadcast group group_growth {
    lemma_grew_nothing,
    lemma_grew_on,
}

} // verus!
