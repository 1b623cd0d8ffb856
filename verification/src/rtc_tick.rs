//! The periodic ticks of the real-time clock's prescalers.
//!
//! The first prescaler divides the 32768 Hz crystal, the second what the first
//! leaves of it. Each can tick at eight rates; together they are sixteen, each
//! half of the one before.
use vstd::prelude::*;

verus! {

/// A tick rate.
#[derive(Clone, Copy, PartialEq, Eq, Structural, Debug)]
pub enum TickRate {
    /// 16384 Hz.
    Hz16384,
    /// 8192 Hz.
    Hz8192,
    /// 4096 Hz.
    Hz4096,
    /// 2048 Hz.
    Hz2048,
    /// 1024 Hz.
    Hz1024,
    /// 512 Hz.
    Hz512,
    /// 256 Hz.
    Hz256,
    /// 128 Hz, the slowest of the first prescaler.
    Hz128,
    /// 64 Hz, the fastest of the second prescaler.
    Hz64,
    /// 32 Hz.
    Hz32,
    /// 16 Hz.
    Hz16,
    /// 8 Hz.
    Hz8,
    /// 4 Hz.
    Hz4,
    /// 2 Hz.
    Hz2,
    /// 1 Hz.
    Hz1,
    /// One tick in two seconds.
    HalfHz,
}

impl TickRate {
    /// The place in the list of rates.
    pub open spec fn place(self) -> u8 {
        match self {
            TickRate::Hz16384 => 0,
            TickRate::Hz8192 => 1,
            TickRate::Hz4096 => 2,
            TickRate::Hz2048 => 3,
            TickRate::Hz1024 => 4,
            TickRate::Hz512 => 5,
            TickRate::Hz256 => 6,
            TickRate::Hz128 => 7,
            TickRate::Hz64 => 8,
            TickRate::Hz32 => 9,
            TickRate::Hz16 => 10,
            TickRate::Hz8 => 11,
            TickRate::Hz4 => 12,
            TickRate::Hz2 => 13,
            TickRate::Hz1 => 14,
            TickRate::HalfHz => 15,
        }
    }

    /// Twice the frequency, in hertz.
    pub open spec fn doubled(self) -> u32 {
        match self {
            TickRate::Hz16384 => 32768,
            TickRate::Hz8192 => 16384,
            TickRate::Hz4096 => 8192,
            TickRate::Hz2048 => 4096,
            TickRate::Hz1024 => 2048,
            TickRate::Hz512 => 1024,
            TickRate::Hz256 => 512,
            TickRate::Hz128 => 256,
            TickRate::Hz64 => 128,
            TickRate::Hz32 => 64,
            TickRate::Hz16 => 32,
            TickRate::Hz8 => 16,
            TickRate::Hz4 => 8,
            TickRate::Hz2 => 4,
            TickRate::Hz1 => 2,
            TickRate::HalfHz => 1,
        }
    }

    fn index(self) -> (r: u8)
        ensures
            r == self.place(),
            r <= 15,
    {
        match self {
            TickRate::Hz16384 => 0,
            TickRate::Hz8192 => 1,
            TickRate::Hz4096 => 2,
            TickRate::Hz2048 => 3,
            TickRate::Hz1024 => 4,
            TickRate::Hz512 => 5,
            TickRate::Hz256 => 6,
            TickRate::Hz128 => 7,
            TickRate::Hz64 => 8,
            TickRate::Hz32 => 9,
            TickRate::Hz16 => 10,
            TickRate::Hz8 => 11,
            TickRate::Hz4 => 12,
            TickRate::Hz2 => 13,
            TickRate::Hz1 => 14,
            TickRate::HalfHz => 15,
        }
    }

    /// Whether the second prescaler makes it.
    pub fn uses_rt1ps(self) -> (r: bool)
        ensures
            r == (self.doubled() <= 128),
    {
        self.index() >= 8
    }

    /// The interval code for its prescaler.
    pub fn ip_code(self) -> (r: u8)
        ensures
            r == self.place() % 8,
    {
        self.index() % 8
    }

    /// Twice the frequency, in hertz, which is a whole number for all rates.
    pub fn hz_x2(self) -> (r: u32)
        ensures
            r == self.doubled(),
    {
        let mut hz: u32 = 32768;
        let mut left: u8 = self.index();
        proof {
            reveal_with_fuel(TickRate::halvings, 17);
            assert(TickRate::halvings(32768, self.place() as nat) == self.doubled());
        }
        while left > 0
            invariant
                TickRate::halvings(hz as int, left as nat) == self.doubled(),
            decreases left,
        {
            hz = hz / 2;
            left = left - 1;
        }
        hz
    }

    /// `n` times half of `x`.
    pub open spec fn halvings(x: int, n: nat) -> int
        decreases n,
    {
        if n == 0 {
            x
        } else {
            TickRate::halvings(x / 2, (n - 1) as nat)
        }
    }

    /// Whole microseconds between two ticks.
    pub open spec fn period(self) -> int {
        2_000_000int / (self.doubled() as int)
    }

    /// The time between two ticks in microseconds, rounded down.
    pub fn period_us(self) -> (r: u32)
        ensures
            r == self.period(),
    {
        let doubled: u32 = self.hz_x2();
        assert(doubled >= 1);
        2_000_000 / doubled
    }
}

/// Each rate is half of the one before it in the list, from one prescaler to
/// the other as within one.
pub proof fn lemma_rates_halve(a: TickRate, b: TickRate)
    requires
        b.place() == a.place() + 1,
    ensures
        a.doubled() == 2 * b.doubled(),
{
}

/// With the same interval code the second prescaler ticks 256 times slower.
pub proof fn lemma_banks_chain(a: TickRate, b: TickRate)
    requires
        b.place() == a.place() + 8,
    ensures
        a.doubled() == 256 * b.doubled(),
{
}

/// The rounded period is within one microsecond of the true one.
pub proof fn lemma_period_rounded(rate: TickRate)
    ensures
        rate.period() * rate.doubled() <= 2_000_000 < (rate.period() + 1) * rate.doubled(),
{
    let d = rate.doubled() as int;
    let period = rate.period();
    assert(period * d <= 2_000_000 < (period + 1) * d) by (nonlinear_arith)
        requires
            d > 0,
            period == 2_000_000int / d,
    ;
}

/// Each rate is what its name says, and the prescalers make it: its place in the
/// list is how often 32768 Hz are halved to get twice the rate.
pub proof fn lemma_rates_named(rate: TickRate)
    ensures
        rate.doubled() as int == 2 * match rate {
            TickRate::Hz16384 => 16384int,
            TickRate::Hz8192 => 8192,
            TickRate::Hz4096 => 4096,
            TickRate::Hz2048 => 2048,
            TickRate::Hz1024 => 1024,
            TickRate::Hz512 => 512,
            TickRate::Hz256 => 256,
            TickRate::Hz128 => 128,
            TickRate::Hz64 => 64,
            TickRate::Hz32 => 32,
            TickRate::Hz16 => 16,
            TickRate::Hz8 => 8,
            TickRate::Hz4 => 4,
            TickRate::Hz2 => 2,
            TickRate::Hz1 => 1,
            TickRate::HalfHz => 0,
        } + if rate == TickRate::HalfHz {
            1int
        } else {
            0
        },
        vstd::arithmetic::power2::pow2(rate.place() as nat) * rate.doubled() == 32768,
{
    vstd::arithmetic::power2::lemma2_to64();
}

} // verus!
