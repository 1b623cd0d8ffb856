//! The clock system, and the frequencies that it produces.
//!
//! Two profiles, of which a program picks one: [`configure`] for fine
//! peripheral resolution, [`configure_low_power`] for sleep, with ACLK on the
//! 32.768 kHz crystal, which keeps running in LPM3. Where the crystal does not
//! start, ACLK falls back to the internal low-frequency oscillator.
//!
//! The registers are locked by a password in the high byte of `CSCTL0`; only
//! that byte is written, since the low byte holds factory trim.
use vstd::prelude::*;

use crate::bus::{Bus, Cond, Hardware, Step};
use crate::memory::Memory;
use crate::pac::Cs;

verus! {

broadcast use crate::trace::group_growth;

/// High byte of clock control 0.
pub const CSCTL0_H: u32 = 0x0161;

/// Oscillator frequency.
pub const CSCTL1: u32 = 0x0162;

/// Clock sources.
pub const CSCTL2: u32 = 0x0164;

/// Clock dividers.
pub const CSCTL3: u32 = 0x0166;

/// Crystal oscillators.
pub const CSCTL4: u32 = 0x0168;

/// Oscillator faults.
pub const CSCTL5: u32 = 0x016A;

/// Unlocks the clock registers; any other value locks them.
pub const CSKEY_H: u8 = 0xA5;

/// 8 MHz.
pub const DCOFSEL_6: u16 = 0x000C;

/// MCLK from the DCO.
pub const SELM_DCOCLK: u16 = 0x0003;

/// SMCLK from the DCO.
pub const SELS_DCOCLK: u16 = 0x0030;

/// ACLK from the internal low-frequency oscillator.
pub const SELA_VLOCLK: u16 = 0x0100;

/// ACLK from the crystal.
pub const SELA_LFXTCLK: u16 = 0x0000;

/// MCLK divided by 8.
pub const DIVM_8: u16 = 0x0003;

/// SMCLK undivided.
pub const DIVS_1: u16 = 0x0000;

/// SMCLK divided by 8.
pub const DIVS_8: u16 = 0x0030;

/// ACLK undivided.
pub const DIVA_1: u16 = 0x0000;

/// Crystal oscillator off.
pub const LFXTOFF: u16 = 0x0001;

/// Crystal oscillator fault.
pub const LFXTOFFG: u16 = 0x0001;

/// Special function interrupt flags.
pub const SFRIFG1: u32 = 0x0102;

/// Some oscillator fault.
pub const OFIFG: u16 = 0x0002;

/// Port J function select.
pub const PJSEL0: u32 = 0x032A;

/// The crystal pins PJ.4 and PJ.5.
pub const PJ_XT1: u8 = 0x30;

/// Frequency of the DCO.
pub const DCO_HZ: u32 = 8_000_000;

/// Frequency of the crystal.
pub const LFXT_HZ: u32 = 32_768;

/// Typical frequency of the internal low-frequency oscillator.
pub const VLO_HZ: u32 = 9_400;

/// How often the crystal is given time to start.
pub const LFXT_START_ATTEMPTS: u32 = 16;

/// Turns of the busy loop in one attempt. At three cycles a turn and an MCLK of
/// 1 MHz an attempt takes 30 ms and all of them 480 ms: enough for a
/// healthy crystal, and brief if there is none.
pub const LFXT_SETTLE_ITERS: u16 = 10_000;

/// The oscillator behind ACLK.
#[derive(Clone, Copy, PartialEq, Eq, Structural, Debug)]
pub enum AclkSource {
    /// The 32.768 kHz crystal.
    Lfxt,
    /// The internal low-frequency oscillator, imprecise.
    Vlo,
}

/// The configured frequencies.
#[derive(Clone, Copy, Debug)]
pub struct Clocks {
    mclk: u32,
    smclk: u32,
    aclk: u32,
    aclk_source: AclkSource,
}

/// The configured frequencies, as contracts speak of them.
pub struct ClockRates {
    pub mclk: u32,
    pub smclk: u32,
    pub aclk: u32,
    pub aclk_source: AclkSource,
}

impl Clocks {
    /// All of it.
    pub closed spec fn view(&self) -> ClockRates {
        ClockRates {
            mclk: self.mclk,
            smclk: self.smclk,
            aclk: self.aclk,
            aclk_source: self.aclk_source,
        }
    }

    /// CPU clock in Hz.
    pub fn mclk(&self) -> (r: u32)
        ensures
            r == self@.mclk,
    {
        self.mclk
    }

    /// Peripheral clock in Hz.
    pub fn smclk(&self) -> (r: u32)
        ensures
            r == self@.smclk,
    {
        self.smclk
    }

    /// Auxiliary clock in Hz.
    pub fn aclk(&self) -> (r: u32)
        ensures
            r == self@.aclk,
    {
        self.aclk
    }

    /// The oscillator behind the auxiliary clock.
    pub fn aclk_source(&self) -> (r: AclkSource)
        ensures
            r == self@.aclk_source,
    {
        self.aclk_source
    }
}

/// The clock registers unlocked.
pub open spec fn unlock() -> Step {
    Step::Write8 { addr: CSCTL0_H, value: CSKEY_H }
}

/// The clock registers locked.
pub open spec fn lock() -> Step {
    Step::Write8 { addr: CSCTL0_H, value: 0 }
}

/// The steps of [`configure`].
pub open spec fn performance_script() -> Seq<Step> {
    seq![
        unlock(),
        Step::Write16 { addr: CSCTL1, value: DCOFSEL_6 },
        Step::Write16 { addr: CSCTL2, value: SELM_DCOCLK | SELS_DCOCLK | SELA_VLOCLK },
        Step::Write16 { addr: CSCTL3, value: DIVM_8 | DIVS_1 | DIVA_1 },
        lock(),
    ]
}

/// Performance profile: MCLK 1 MHz, SMCLK 8 MHz, ACLK on the internal
/// low-frequency oscillator.
pub fn configure<H: Hardware>(_cs: Cs, bus: &mut Bus<H>) -> (r: Clocks)
    ensures
        final(bus).ran(*old(bus), performance_script()),
        r@ == (ClockRates {
            mclk: 1_000_000,
            smclk: 8_000_000,
            aclk: VLO_HZ,
            aclk_source: AclkSource::Vlo,
        }),
{
    bus.write8(CSCTL0_H, CSKEY_H);
    bus.write16(CSCTL1, DCOFSEL_6);
    bus.write16(CSCTL2, SELM_DCOCLK | SELS_DCOCLK | SELA_VLOCLK);
    bus.write16(CSCTL3, DIVM_8 | DIVS_1 | DIVA_1);
    bus.write8(CSCTL0_H, 0);
    Clocks { mclk: DCO_HZ / 8, smclk: DCO_HZ, aclk: VLO_HZ, aclk_source: AclkSource::Vlo }
}

/// Both crystal fault flags cleared.
pub open spec fn clear_faults() -> Seq<Step> {
    seq![
        Step::Edit16 { addr: CSCTL5, clear: LFXTOFFG, set: 0 },
        Step::Edit16 { addr: SFRIFG1, clear: OFIFG, set: 0 },
    ]
}

/// One attempt to start the crystal: faults cleared, time to swing, and the
/// look at whether the fault stayed away.
pub open spec fn attempt(started: bool) -> Seq<Step> {
    clear_faults() + seq![
        Step::Spin { iters: LFXT_SETTLE_ITERS },
        Step::Test16 { addr: CSCTL5, cond: Cond::none_set(LFXTOFFG), holds: started },
    ]
}

/// `n` attempts in vain.
pub open spec fn failed_attempts(n: nat) -> Seq<Step>
    decreases n,
{
    if n == 0 {
        Seq::empty()
    } else {
        failed_attempts((n - 1) as nat) + attempt(false)
    }
}

/// Crystal pins, unlocking, and all clocks set up with ACLK on the crystal.
pub open spec fn request_crystal() -> Seq<Step> {
    seq![
        Step::Edit8 { addr: PJSEL0, clear: 0, set: PJ_XT1 },
        unlock(),
        Step::Write16 { addr: CSCTL1, value: DCOFSEL_6 },
        Step::Edit16 { addr: CSCTL4, clear: LFXTOFF, set: 0 },
        Step::Write16 { addr: CSCTL2, value: SELM_DCOCLK | SELS_DCOCLK | SELA_LFXTCLK },
        Step::Write16 { addr: CSCTL3, value: DIVM_8 | DIVS_8 | DIVA_1 },
    ]
}

/// ACLK moved off the crystal, the crystal off, its faults cleared.
pub open spec fn fall_back() -> Seq<Step> {
    seq![
        Step::Write16 { addr: CSCTL2, value: SELM_DCOCLK | SELS_DCOCLK | SELA_VLOCLK },
        Step::Edit16 { addr: CSCTL4, clear: 0, set: LFXTOFF },
    ] + clear_faults()
}

/// The steps of [`configure_low_power`] where the crystal started with attempt
/// number `failed` (counted from 0), or where it never did.
pub open spec fn low_power_script(failed: nat, started: bool) -> Seq<Step> {
    request_crystal() + failed_attempts(failed) + (if started {
        attempt(true)
    } else {
        fall_back()
    }) + seq![lock()]
}

/// Low-power profile: MCLK and SMCLK 1 MHz, ACLK on the crystal, or on the
/// internal oscillator where the crystal does not start in time.
pub fn configure_low_power<H: Hardware>(_cs: Cs, bus: &mut Bus<H>) -> (r: Clocks)
    ensures
        r@.mclk == 1_000_000,
        r@.smclk == 1_000_000,
        match r@.aclk_source {
            AclkSource::Lfxt => r@.aclk == LFXT_HZ && exists|failed: nat|
                failed < LFXT_START_ATTEMPTS && final(bus).ran(
                    *old(bus),
                    #[trigger] low_power_script(failed, true),
                ),
            AclkSource::Vlo => r@.aclk == VLO_HZ && final(bus).ran(
                *old(bus),
                low_power_script(LFXT_START_ATTEMPTS as nat, false),
            ),
        },
{
    bus.edit8(PJSEL0, 0, PJ_XT1);
    bus.write8(CSCTL0_H, CSKEY_H);
    bus.write16(CSCTL1, DCOFSEL_6);
    bus.edit16(CSCTL4, LFXTOFF, 0);
    bus.write16(CSCTL2, SELM_DCOCLK | SELS_DCOCLK | SELA_LFXTCLK);
    bus.write16(CSCTL3, DIVM_8 | DIVS_8 | DIVA_1);
    let mut failed: u32 = 0;
    let mut started: bool = false;
    while failed < LFXT_START_ATTEMPTS && !started
        invariant
            failed <= LFXT_START_ATTEMPTS,
            started ==> failed < LFXT_START_ATTEMPTS,
            bus.ran(
                *old(bus),
                request_crystal() + failed_attempts(failed as nat) + (if started {
                    attempt(true)
                } else {
                    Seq::empty()
                }),
            ),
        decreases LFXT_START_ATTEMPTS - failed + (if started { 0int } else { 1int }),
    {
        let ghost so_far = bus@;
        bus.edit16(CSCTL5, LFXTOFFG, 0);
        bus.edit16(SFRIFG1, OFIFG, 0);
        bus.spin(LFXT_SETTLE_ITERS);
        started = bus.test16(CSCTL5, Cond::Bits { mask: LFXTOFFG, want: 0 });
        assert(bus@ =~= so_far + attempt(started));
        if !started {
            failed = failed + 1;
        }
    }
    if !started {
        bus.write16(CSCTL2, SELM_DCOCLK | SELS_DCOCLK | SELA_VLOCLK);
        bus.edit16(CSCTL4, 0, LFXTOFF);
        bus.edit16(CSCTL5, LFXTOFFG, 0);
        bus.edit16(SFRIFG1, OFIFG, 0);
    }
    bus.write8(CSCTL0_H, 0);
    assert(bus.ran(*old(bus), low_power_script(failed as nat, started)));
    Clocks {
        mclk: DCO_HZ / 8,
        smclk: DCO_HZ / 8,
        aclk: if started {
            LFXT_HZ
        } else {
            VLO_HZ
        },
        aclk_source: if started {
            AclkSource::Lfxt
        } else {
            AclkSource::Vlo
        },
    }
}

/// A write to one of the locked clock registers.
pub open spec fn touches_clocks(step: Step) -> bool {
    match step {
        Step::Write16 { addr, .. } => CSCTL1 <= addr <= CSCTL5,
        Step::Edit16 { addr, .. } => CSCTL1 <= addr <= CSCTL5,
        _ => false,
    }
}

/// Every write to a locked clock register has the unlocking before it and the
/// locking after it, and nothing in between locks.
pub open spec fn bracketed(script: Seq<Step>) -> bool {
    exists|open: int|
        {
            &&& 0 <= open < script.len() - 1
            &&& #[trigger] script[open] == unlock()
            &&& script.last() == lock()
            &&& forall|i: int|
                0 <= i < script.len() && touches_clocks(#[trigger] script[i]) ==> open < i
            &&& forall|i: int|
                open < i < script.len() - 1 ==> !(#[trigger] script[i] matches Step::Write8 {
                    addr,
                    ..
                } && addr == CSCTL0_H)
        }
}

/// No step of the attempts writes a byte.
proof fn lemma_attempts_write_no_byte(n: nat)
    ensures
        forall|i: int|
            0 <= i < failed_attempts(n).len() ==> !((#[trigger] failed_attempts(n)[i]) is Write8),
    decreases n,
{
    if n > 0 {
        lemma_attempts_write_no_byte((n - 1) as nat);
    }
}

/// Both profiles touch the clock registers only while they are unlocked, and
/// leave them locked.
pub proof fn lemma_clock_registers_bracketed(failed: nat, started: bool)
    ensures
        bracketed(performance_script()),
        bracketed(low_power_script(failed, started)),
{
    let fast = performance_script();
    assert(fast[0] == unlock());
    let slow = low_power_script(failed, started);
    lemma_attempts_write_no_byte(failed);
    let head = request_crystal();
    let tries = failed_attempts(failed);
    let tail = if started {
        attempt(true)
    } else {
        fall_back()
    };
    assert(slow[1] == unlock());
    assert(slow.last() == lock());
    assert forall|i: int| 1 < i < slow.len() - 1 implies !(#[trigger] slow[i] matches Step::Write8 {
        addr,
        ..
    } && addr == CSCTL0_H) by {
        if i < head.len() {
            assert(slow[i] == head[i]);
        } else if i < head.len() + tries.len() {
            assert(slow[i] == tries[i - head.len()]);
        } else {
            assert(slow[i] == tail[i - head.len() - tries.len()]);
        }
    }
}

/// Two to the power of a divider field.
pub open spec fn divided_by(field: int) -> int {
    if field == 0 {
        1
    } else if field == 1 {
        2
    } else if field == 2 {
        4
    } else if field == 3 {
        8
    } else if field == 4 {
        16
    } else {
        32
    }
}

/// The rate of the oscillator that a select field names: 0 the crystal, 1 the
/// internal low-frequency oscillator, 3 the digitally controlled one, which in
/// its low range runs at 8 MHz where its own field is 6.
pub open spec fn oscillator_hz(select: int, dco: int) -> int {
    if select == 0 {
        32_768
    } else if select == 1 {
        9_400
    } else if select == 3 && dco / 64 % 2 == 0 && dco / 2 % 8 == 6 {
        8_000_000
    } else {
        0
    }
}

/// The rate of a clock as the registers make it, where its fields stand at
/// `place` of the select word (0x0164) and of the divider word (0x0166).
pub open spec fn clock_hz(m: Memory, place: int) -> int {
    let dco = crate::memory::word_in(m, 0x0162) as int;
    let select = crate::memory::word_in(m, 0x0164) as int / place % 8;
    let field = crate::memory::word_in(m, 0x0166) as int / place % 8;
    oscillator_hz(select, dco) / divided_by(field)
}

/// The clocks run at the rates that the performance profile reports: the
/// registers make 1 MHz for the processor, 8 MHz for the peripherals, and the
/// low-frequency oscillator for the auxiliary clock. They are unlocked first and
/// locked at the end.
pub proof fn lemma_performance_rates(m: Memory)
    ensures
        ({
            let script = performance_script();
            let after = crate::memory::memory_after(m, script);
            &&& clock_hz(after, 1) == 1_000_000
            &&& clock_hz(after, 16) == 8_000_000
            &&& clock_hz(after, 256) == 9_400
            &&& script.first() == (Step::Write8 { addr: 0x0161, value: 0xA5 })
            &&& after(0x0161) == 0
        }),
{
    broadcast use crate::memory::group_memory;

    assert(SELM_DCOCLK | SELS_DCOCLK | SELA_VLOCLK == 0x0133 && DIVM_8 | DIVS_1 | DIVA_1 == 0x0003)
        by (bit_vector);
    let script = performance_script();
    crate::memory::lemma_memory_at(m, script);
    reveal_with_fuel(crate::memory::memory_at, 6);
    let m1 = crate::memory::put8(m, 0x0161, 0xA5);
    let m2 = crate::memory::put16(m1, 0x0162, 0x000C);
    let m3 = crate::memory::put16(m2, 0x0164, 0x0133);
    let m4 = crate::memory::put16(m3, 0x0166, 0x0003);
    let m5 = crate::memory::put8(m4, 0x0161, 0);
    assert(crate::memory::memory_at(m, script, 5) == m5);
    assert(crate::memory::word_in(m2, 0x0162) == 0x000C);
    assert(crate::memory::word_in(m3, 0x0162) == 0x000C);
    assert(crate::memory::word_in(m4, 0x0162) == 0x000C);
    assert(crate::memory::word_in(m5, 0x0162) == 0x000C);
    assert(crate::memory::word_in(m3, 0x0164) == 0x0133);
    assert(crate::memory::word_in(m4, 0x0164) == 0x0133);
    assert(crate::memory::word_in(m5, 0x0164) == 0x0133);
    assert(crate::memory::word_in(m5, 0x0166) == 0x0003);
}

/// Attempts to start the crystal touch the fault flags only.
proof fn lemma_attempts_leave(m: Memory, n: nat)
    ensures
        forall|a: int|
            a != 0x016A && a != 0x016B && a != 0x0102 && a != 0x0103
                ==> #[trigger] crate::memory::memory_after(m, failed_attempts(n))(a) == m(a),
    decreases n,
{
    if n > 0 {
        lemma_attempts_leave(m, (n - 1) as nat);
        let mid = crate::memory::memory_after(m, failed_attempts((n - 1) as nat));
        crate::memory::lemma_memory_joins(m, failed_attempts((n - 1) as nat), attempt(false));
        crate::memory::lemma_memory_at(mid, attempt(false));
        reveal_with_fuel(crate::memory::memory_at, 5);
    }
}

proof fn lemma_crystal_asked(m: Memory)
    ensures
        ({
            let asked = crate::memory::memory_after(m, request_crystal());
            &&& crate::memory::word_in(asked, 0x0162) == 0x000C
            &&& crate::memory::word_in(asked, 0x0164) == 0x0033
            &&& crate::memory::word_in(asked, 0x0166) == 0x0033
            &&& crate::memory::word_in(asked, 0x0168) == crate::memory::word_in(m, 0x0168) & 0xFFFE
            &&& asked(0x032A) == m(0x032A) | 0x30
            &&& asked(0x0161) == 0xA5
        }),
{
    broadcast use crate::memory::group_memory;

    let script = request_crystal();
    crate::memory::lemma_memory_at(m, script);
    reveal_with_fuel(crate::memory::memory_at, 7);
    let p = m(0x032A);
    let w = crate::memory::word_in(m, 0x0168);
    assert((p & !0u8) | 0x30 == p | 0x30 && (w & !1u16) | 0 == w & 0xFFFE && SELM_DCOCLK | SELS_DCOCLK
        | SELA_LFXTCLK == 0x0033 && DIVM_8 | DIVS_8 | DIVA_1 == 0x0033) by (bit_vector);
    let m1 = crate::memory::put8(m, 0x032A, crate::bus::edited8(p, 0, 0x30));
    let m2 = crate::memory::put8(m1, 0x0161, 0xA5);
    let m3 = crate::memory::put16(m2, 0x0162, 0x000C);
    let m4 = crate::memory::put16(m3, 0x0168, crate::bus::edited16(w, 1, 0));
    let m5 = crate::memory::put16(m4, 0x0164, 0x0033);
    let m6 = crate::memory::put16(m5, 0x0166, 0x0033);
    assert(crate::memory::word_in(m1, 0x0168) == w);
    assert(crate::memory::word_in(m2, 0x0168) == w);
    assert(crate::memory::word_in(m3, 0x0168) == w);
    assert(crate::memory::memory_at(m, script, 6) == m6);
    assert(crate::memory::word_in(m3, 0x0162) == 0x000C);
    assert(crate::memory::word_in(m4, 0x0162) == 0x000C);
    assert(crate::memory::word_in(m5, 0x0162) == 0x000C);
    assert(crate::memory::word_in(m4, 0x0168) == w & 0xFFFE);
    assert(crate::memory::word_in(m5, 0x0168) == w & 0xFFFE);
    assert(crate::memory::word_in(m5, 0x0164) == 0x0033);
}

/// The clocks run at the rates that the low-power profile reports: 1 MHz for the
/// processor and the peripherals, and the auxiliary clock from the crystal where
/// it started and from the internal oscillator where it did not, with the crystal
/// off. The crystal has its pins, PJ.4 and PJ.5, and the registers are locked at
/// the end.
pub proof fn lemma_low_power_rates(m: Memory, failed: nat, started: bool)
    ensures
        ({
            let after = crate::memory::memory_after(m, low_power_script(failed, started));
            &&& clock_hz(after, 1) == 1_000_000
            &&& clock_hz(after, 16) == 1_000_000
            &&& clock_hz(after, 256) == if started {
                32_768int
            } else {
                9_400
            }
            &&& crate::memory::word_in(after, 0x0168) == if started {
                crate::memory::word_in(m, 0x0168) & 0xFFFE
            } else {
                crate::memory::word_in(m, 0x0168) | 1
            }
            &&& after(0x032A) == m(0x032A) | 0x30
            &&& after(0x0161) == 0
        }),
{
    broadcast use crate::memory::group_memory;

    let s1 = request_crystal();
    let s2 = failed_attempts(failed);
    let s3 = if started {
        attempt(true)
    } else {
        fall_back()
    };
    let s4 = seq![lock()];
    crate::memory::lemma_memory_joins(m, s1, s2);
    crate::memory::lemma_memory_joins(m, s1 + s2, s3);
    crate::memory::lemma_memory_joins(m, s1 + s2 + s3, s4);
    let asked = crate::memory::memory_after(m, s1);
    let tried = crate::memory::memory_after(asked, s2);
    let ended = crate::memory::memory_after(tried, s3);
    lemma_crystal_asked(m);
    lemma_attempts_leave(asked, failed);
    assert(tried(0x0162) == asked(0x0162) && tried(0x0163) == asked(0x0163));
    assert(tried(0x0164) == asked(0x0164) && tried(0x0165) == asked(0x0165));
    assert(tried(0x0166) == asked(0x0166) && tried(0x0167) == asked(0x0167));
    assert(tried(0x0168) == asked(0x0168) && tried(0x0169) == asked(0x0169));
    assert(tried(0x032A) == asked(0x032A));
    crate::memory::lemma_memory_at(tried, s3);
    crate::memory::lemma_memory_at(ended, s4);
    reveal_with_fuel(crate::memory::memory_at, 5);
    let w = crate::memory::word_in(m, 0x0168);
    assert(((w & 0xFFFE) & !0u16) | 1 == w | 1 && SELM_DCOCLK | SELS_DCOCLK | SELA_VLOCLK == 0x0133) by (
    bit_vector);
    if !started {
        let f1 = crate::memory::put16(tried, 0x0164, 0x0133);
        let f2 = crate::memory::put16(
            f1,
            0x0168,
            crate::bus::edited16(crate::memory::word_in(f1, 0x0168), 0, 1),
        );
        assert(crate::memory::word_in(f1, 0x0168) == w & 0xFFFE);
        assert(crate::memory::word_in(f1, 0x0164) == 0x0133);
        assert(crate::memory::word_in(f2, 0x0164) == 0x0133);
        assert(crate::memory::word_in(f2, 0x0168) == w | 1);
        assert(crate::memory::memory_at(tried, s3, 2) == f2);
        assert(ended(0x0164) == f2(0x0164) && ended(0x0165) == f2(0x0165));
        assert(ended(0x0168) == f2(0x0168) && ended(0x0169) == f2(0x0169));
    } else {
        assert(ended(0x0164) == tried(0x0164) && ended(0x0165) == tried(0x0165));
        assert(ended(0x0168) == tried(0x0168) && ended(0x0169) == tried(0x0169));
    }
    assert(ended(0x0162) == tried(0x0162) && ended(0x0163) == tried(0x0163));
    assert(ended(0x0166) == tried(0x0166) && ended(0x0167) == tried(0x0167));
    assert(ended(0x032A) == tried(0x032A));
}

/// Where the registers lie, and which bits and values they have.
pub proof fn lemma_layout()
    ensures
        CSCTL0_H == 0x0161,
        CSCTL1 == 0x0162,
        CSCTL2 == 0x0164,
        CSCTL3 == 0x0166,
        CSCTL4 == 0x0168,
        CSCTL5 == 0x016A,
        SFRIFG1 == 0x0102,
        PJSEL0 == 0x032A,
        DCO_HZ == 8_000_000,
        LFXT_HZ == 32_768,
        VLO_HZ == 9_400,
        LFXT_START_ATTEMPTS == 16,
        CSKEY_H == 165,
        DCOFSEL_6 == 12,
        SELM_DCOCLK == 3,
        SELS_DCOCLK == 48,
        SELA_VLOCLK == 0x0100,
        SELA_LFXTCLK == 0,
        DIVM_8 == 3,
        DIVS_1 == 0,
        DIVS_8 == 48,
        DIVA_1 == 0,
        LFXTOFF == 1,
        LFXTOFFG == 1,
        OFIFG == 2,
        PJ_XT1 == 48,
        LFXT_SETTLE_ITERS == 10_000,
{
}

/// An attempt to start the crystal clears its fault flag (bit 0 at 0x016A) and the
/// oscillator fault (bit 1 at 0x0102), gives it time to swing, 10000 turns of the
/// countdown loop, and only then looks whether the flag stayed clear. There are 16
/// attempts at the most.
pub proof fn lemma_attempt_steps(started: bool)
    ensures
        attempt(started) =~= seq![
            Step::Edit16 { addr: 0x016A, clear: 1, set: 0 },
            Step::Edit16 { addr: 0x0102, clear: 2, set: 0 },
            Step::Spin { iters: 10_000 },
            Step::Test16 { addr: 0x016A, cond: Cond::Bits { mask: 1, want: 0 }, holds: started },
        ],
        LFXT_START_ATTEMPTS == 16,
{
}

} // verus!
