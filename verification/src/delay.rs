//! Blocking delays by a counted busy loop.
//!
//! A delay is a number of cycles of the core clock, so a [`Delay`] is made
//! for a clock frequency. It is approximate: cycles that do not fill a turn of
//! the loop are dropped, and the overhead of the calls is not subtracted.
use vstd::prelude::*;

use crate::bus::{Bus, Hardware, Step};

verus! {

broadcast use crate::trace::group_growth;

/// Cycles of one turn of the busy loop.
pub const CYCLES_PER_ITER: u64 = 3;

/// `iters` turns of the busy loop, whose counter has 16 bits: as many full
/// counts as fit, and the rest.
pub open spec fn spin_script(iters: nat) -> Seq<Step> {
    let full = Seq::new(iters / 0xFFFF, |i: int| Step::Spin { iters: 0xFFFF });
    if iters % 0xFFFF == 0 {
        full
    } else {
        full.push(Step::Spin { iters: (iters % 0xFFFF) as u16 })
    }
}

/// The cycles of the core clock in `count` of the `per_second`-th parts of a
/// second.
pub open spec fn cycles_in(count: u32, hz: u32, per_second: int) -> int {
    count * hz / per_second
}

/// A source of blocking delays for one core clock frequency.
#[derive(Clone, Copy, Debug)]
pub struct Delay {
    hz: u32,
}

impl Delay {
    /// The core clock frequency in Hz.
    pub closed spec fn clock(&self) -> u32 {
        self.hz
    }

    /// A delay source for the given core clock frequency, in Hz.
    pub fn new(mclk_hz: u32) -> (r: Self)
        ensures
            r.clock() == mclk_hz,
    {
        Delay { hz: mclk_hz }
    }

    /// The core clock frequency that the delays are made for, in Hz.
    pub fn freq(&self) -> (r: u32)
        ensures
            r == self.clock(),
    {
        self.hz
    }

    /// Waits for about `cycles` cycles of the core clock.
    fn delay_cycles<H: Hardware>(&self, bus: &mut Bus<H>, cycles: u64)
        ensures
            final(bus).ran(*old(bus), spin_script((cycles / CYCLES_PER_ITER) as nat)),
    {
        let mut iters: u64 = cycles / CYCLES_PER_ITER;
        let ghost total = iters as nat;
        let ghost mut full: nat = 0;
        while iters > 0xFFFF
            invariant
                total == iters + full * 0xFFFF,
                total > 0 ==> iters > 0,
                bus.ran(*old(bus), Seq::new(full, |i: int| Step::Spin { iters: 0xFFFF })),
            decreases iters,
        {
            bus.spin(0xFFFF);
            iters = iters - 0xFFFF;
            proof {
                assert(Seq::new(full + 1, |i: int| Step::Spin { iters: 0xFFFF }) =~= Seq::new(
                    full,
                    |i: int| Step::Spin { iters: 0xFFFF },
                ).push(Step::Spin { iters: 0xFFFF }));
                full = full + 1;
            }
        }
        if iters > 0 {
            bus.spin(iters as u16);
        }
        proof {
            if iters == 0xFFFF {
                assert(total / 0xFFFF == full + 1 && total % 0xFFFF == 0);
                assert(spin_script(total) =~= Seq::new(
                    full,
                    |i: int| Step::Spin { iters: 0xFFFF },
                ).push(Step::Spin { iters: 0xFFFF }));
            } else {
                assert(total / 0xFFFF == full && total % 0xFFFF == iters);
            }
        }
    }

    /// Waits for `ns` nanoseconds.
    pub fn delay_ns<H: Hardware>(&mut self, bus: &mut Bus<H>, ns: u32)
        ensures
            *final(self) == *old(self),
            final(bus).ran(
                *old(bus),
                spin_script((cycles_in(ns, old(self).clock(), 1_000_000_000) / 3) as nat),
            ),
    {
        let cycles: u64 = cycles_of(ns, self.hz) / 1_000_000_000;
        self.delay_cycles(bus, cycles);
    }

    /// Waits for `us` microseconds.
    pub fn delay_us<H: Hardware>(&mut self, bus: &mut Bus<H>, us: u32)
        ensures
            *final(self) == *old(self),
            final(bus).ran(
                *old(bus),
                spin_script((cycles_in(us, old(self).clock(), 1_000_000) / 3) as nat),
            ),
    {
        let cycles: u64 = cycles_of(us, self.hz) / 1_000_000;
        self.delay_cycles(bus, cycles);
    }

    /// Waits for `ms` milliseconds.
    pub fn delay_ms<H: Hardware>(&mut self, bus: &mut Bus<H>, ms: u32)
        ensures
            *final(self) == *old(self),
            final(bus).ran(
                *old(bus),
                spin_script((cycles_in(ms, old(self).clock(), 1_000) / 3) as nat),
            ),
    {
        let cycles: u64 = cycles_of(ms, self.hz) / 1_000;
        self.delay_cycles(bus, cycles);
    }
}

/// The product of a count and a frequency.
fn cycles_of(count: u32, hz: u32) -> (r: u64)
    ensures
        r == count * hz,
{
    assert(0 <= count * hz <= 0xFFFF_FFFF * 0xFFFF_FFFF) by (nonlinear_arith)
        requires
            0 <= count <= 0xFFFF_FFFF,
            0 <= hz <= 0xFFFF_FFFF,
    ;
    count as u64 * hz as u64
}

/// All turns of the busy loop in `script`.
pub open spec fn turns(script: Seq<Step>) -> nat
    decreases script.len(),
{
    if script.len() == 0 {
        0
    } else {
        turns(script.drop_last()) + match script.last() {
            Step::Spin { iters } => iters as nat,
            _ => 0,
        }
    }
}

/// Splitting a delay into counts loses no turn.
pub proof fn lemma_turns(iters: nat)
    ensures
        turns(spin_script(iters)) == iters,
{
    let full = Seq::new(iters / 0xFFFF, |i: int| Step::Spin { iters: 0xFFFF });
    lemma_full_turns(iters / 0xFFFF);
    if iters % 0xFFFF != 0 {
        assert(spin_script(iters).drop_last() =~= full);
    }
}

proof fn lemma_full_turns(n: nat)
    ensures
        turns(Seq::new(n, |i: int| Step::Spin { iters: 0xFFFF })) == n * 0xFFFF,
    decreases n,
{
    let all = Seq::new(n, |i: int| Step::Spin { iters: 0xFFFF });
    if n > 0 {
        lemma_full_turns((n - 1) as nat);
        assert(all.drop_last() =~= Seq::new(
            (n - 1) as nat,
            |i: int| Step::Spin { iters: 0xFFFF },
        ));
    }
}

/// A longer delay never spins less.
pub proof fn lemma_delays_ascend(a: u32, b: u32, hz: u32, per_second: int)
    requires
        a <= b,
        per_second > 0,
    ensures
        cycles_in(a, hz, per_second) / 3 <= cycles_in(b, hz, per_second) / 3,
{
    assert(a * hz <= b * hz) by (nonlinear_arith)
        requires
            a <= b,
            0 <= hz,
    ;
    vstd::arithmetic::div_mod::lemma_div_is_ordered(a * hz, b * hz, per_second);
}

/// A delay takes at most the time asked for and misses less than a cycle of it,
/// before the cycles are taken three at a time.
pub proof fn lemma_cycles_exact(count: u32, hz: u32, per_second: int)
    requires
        per_second > 0,
    ensures
        cycles_in(count, hz, per_second) * per_second <= count * hz < (cycles_in(
            count,
            hz,
            per_second,
        ) + 1) * per_second,
        CYCLES_PER_ITER == 3,
{
    let a = count * hz;
    let q = a / per_second;
    assert(q * per_second <= a < (q + 1) * per_second) by (nonlinear_arith)
        requires
            per_second > 0,
            q == a / per_second,
    ;
}

} // verus!
