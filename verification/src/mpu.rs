//! The FRAM protection unit: which parts of FRAM may be read, written and
//! executed.
//!
//! A forbidden access does not happen; it is noted, and either raises an NMI or
//! resets the chip. The registers are behind a key: a write while they are
//! closed resets the chip. Every change here opens them, works and closes them
//! again, through the high byte of the control register, so that the unit goes
//! on protecting meanwhile.
use vstd::prelude::*;

use crate::bus::{Bus, Hardware, Step};
use crate::memory::Memory;
pub use crate::mpu_seg::{
    segment_containing, Access, MpuError as Error, Violation, MAIN_END, MAIN_START,
};

verus! {

broadcast use crate::trace::group_growth;

/// Control: enable, lock and NMI.
pub const MPUCTL0_L: u32 = 0x05A0;

/// Key.
pub const MPUCTL0_H: u32 = 0x05A1;

/// Noted violations.
pub const MPUCTL1: u32 = 0x05A2;

/// Second border.
pub const MPUSEGB2: u32 = 0x05A4;

/// First border.
pub const MPUSEGB1: u32 = 0x05A6;

/// Access rights.
pub const MPUSAM: u32 = 0x05A8;

/// Opens the registers.
pub const KEY_OPEN: u8 = 0xA5;

/// Closes them.
pub const KEY_CLOSE: u8 = 0x00;

/// Enable.
pub const ENA: u8 = 0x01;

/// Lock.
pub const LOCK: u8 = 0x02;

/// NMI enable.
pub const SEGIE: u8 = 0x10;

/// Enable and NMI enable.
pub const MODE: u8 = 0x11;

/// Violation of segment 1.
pub const SEG1IFG: u16 = 0x0001;

/// Violation of segment 2.
pub const SEG2IFG: u16 = 0x0002;

/// Violation of segment 3.
pub const SEG3IFG: u16 = 0x0004;

/// Violation of information FRAM.
pub const SEGIIFG: u16 = 0x0008;

/// Violation of the encapsulated segment.
pub const SEGIPIFG: u16 = 0x0010;

/// Any of these.
pub const ANY_IFG: u16 = 0x001F;

/// The noted violations at one moment.
#[derive(Clone, Copy, PartialEq, Eq, Structural, Debug)]
pub struct Violations {
    bits: u16,
}

impl Violations {
    /// The register.
    pub closed spec fn raw(self) -> u16 {
        self.bits
    }

    /// Segment 1.
    pub fn seg1(&self) -> (r: bool)
        ensures
            r == (self.raw() & SEG1IFG != 0),
    {
        self.bits & SEG1IFG != 0
    }

    /// Segment 2.
    pub fn seg2(&self) -> (r: bool)
        ensures
            r == (self.raw() & SEG2IFG != 0),
    {
        self.bits & SEG2IFG != 0
    }

    /// Segment 3.
    pub fn seg3(&self) -> (r: bool)
        ensures
            r == (self.raw() & SEG3IFG != 0),
    {
        self.bits & SEG3IFG != 0
    }

    /// Information FRAM.
    pub fn info(&self) -> (r: bool)
        ensures
            r == (self.raw() & SEGIIFG != 0),
    {
        self.bits & SEGIIFG != 0
    }

    /// The encapsulated segment.
    pub fn ip(&self) -> (r: bool)
        ensures
            r == (self.raw() & SEGIPIFG != 0),
    {
        self.bits & SEGIPIFG != 0
    }

    /// Any of them.
    pub fn any(&self) -> (r: bool)
        ensures
            r == (self.raw() & ANY_IFG != 0),
    {
        self.bits & ANY_IFG != 0
    }

    /// The register.
    pub fn bits(&self) -> (r: u16)
        ensures
            r == self.raw(),
    {
        self.bits
    }
}

/// A configuration.
#[derive(Clone, Copy, PartialEq, Eq, Structural, Debug)]
pub struct Config {
    /// Where segment 2 begins.
    pub border1: u32,
    /// Where segment 3 begins.
    pub border2: u32,
    /// Rights in segment 1.
    pub seg1: Access,
    /// Rights in segment 2.
    pub seg2: Access,
    /// Rights in segment 3.
    pub seg3: Access,
    /// Rights in information FRAM.
    pub info: Access,
    /// Violations raise an NMI.
    pub nmi: bool,
}

impl Config {
    /// Everything allowed, and the borders at the top.
    pub fn allow_all() -> (r: Config)
        ensures
            r.border1 == MAIN_END,
            r.border2 == MAIN_END,
            crate::mpu_seg::sam(r.seg1, r.seg2, r.seg3, r.info) == 0x7777,
            !r.nmi,
    {
        Config {
            border1: MAIN_END,
            border2: MAIN_END,
            seg1: Access::rwx(),
            seg2: Access::rwx(),
            seg3: Access::rwx(),
            info: Access::rwx(),
            nmi: false,
        }
    }

    /// What is wrong with it, if anything: the first border, then the second,
    /// then their order.
    pub open spec fn fault(self) -> Option<Error> {
        match crate::mpu_seg::border_fault(self.border1) {
            Some(e) => Some(e),
            None => match crate::mpu_seg::border_fault(self.border2) {
                Some(e) => Some(e),
                None => if self.border1 > self.border2 {
                    Some(Error::BordersReversed)
                } else {
                    None
                },
            },
        }
    }
}

/// The registers opened.
pub open spec fn open_step() -> Step {
    Step::Write8 { addr: MPUCTL0_H, value: KEY_OPEN }
}

/// The registers closed.
pub open spec fn close_step() -> Step {
    Step::Write8 { addr: MPUCTL0_H, value: KEY_CLOSE }
}

/// The look at the lock.
pub open spec fn lock_look(locked: bool) -> Step {
    Step::Test8 { addr: MPUCTL0_L, mask: LOCK, any: locked }
}

/// A configuration put in force: the segments first, the enable bit last.
pub open spec fn enable_script(config: Config) -> Seq<Step> {
    seq![
        open_step(),
        Step::Write16 { addr: MPUSEGB1, value: crate::mpu_seg::border_value(config.border1) },
        Step::Write16 { addr: MPUSEGB2, value: crate::mpu_seg::border_value(config.border2) },
        Step::Write16 {
            addr: MPUSAM,
            value: crate::mpu_seg::sam(
                config.seg1,
                config.seg2,
                config.seg3,
                config.info,
            ) as u16,
        },
        Step::Write16 { addr: MPUCTL1, value: 0 },
        Step::Write8 {
            addr: MPUCTL0_L,
            value: mode_of(config),
        },
        close_step(),
    ]
}

/// The control byte replaced.
pub open spec fn mode_script(mode: u8) -> Seq<Step> {
    seq![open_step(), Step::Write8 { addr: MPUCTL0_L, value: mode }, close_step()]
}

/// The violations forgotten.
pub open spec fn clear_script() -> Seq<Step> {
    seq![open_step(), Step::Write16 { addr: MPUCTL1, value: 0 }, close_step()]
}

/// The lock set, on a unit whose control byte read as `mode`.
pub open spec fn lock_script(mode: u8) -> Seq<Step> {
    seq![Step::Read8 { addr: MPUCTL0_L, value: mode }] + mode_script((mode & MODE) | LOCK)
}

/// What putting a configuration in force can result in: a locked unit refuses
/// it, another one refuses what is wrong with it, if anything.
pub open spec fn enable_result(config: Config, r: Result<(), Error>) -> bool {
    ||| r == Err::<(), Error>(Error::Locked)
    ||| match config.fault() {
        Some(e) => r == Err::<(), Error>(e),
        None => r is Ok,
    }
}

/// The steps of putting a configuration in force, by the result.
pub open spec fn enable_steps(config: Config, r: Result<(), Error>) -> Seq<Step> {
    if r == Err::<(), Error>(Error::Locked) {
        seq![lock_look(true)]
    } else if r is Ok {
        seq![lock_look(false)] + enable_script(config)
    } else {
        seq![lock_look(false)]
    }
}

/// The steps of stopping to protect, by the result.
pub open spec fn disable_steps(r: Result<(), Error>) -> Seq<Step> {
    if r is Ok {
        seq![lock_look(false)] + mode_script(0)
    } else {
        seq![lock_look(true)]
    }
}

/// The look at whether the unit protects.
pub open spec fn enable_look(enabled: bool) -> Step {
    Step::Test8 { addr: MPUCTL0_L, mask: ENA, any: enabled }
}

/// Two addresses that the border registers can stand for.
pub open spec fn are_borders(borders: (u32, u32)) -> bool {
    &&& borders.0 % 16 == 0
    &&& borders.1 % 16 == 0
    &&& borders.0 <= 0xF_FFF0
    &&& borders.1 <= 0xF_FFF0
}

/// The borders read.
pub open spec fn border_reads(borders: (u32, u32)) -> Seq<Step> {
    seq![
        Step::Read16 { addr: MPUSEGB1, value: crate::mpu_seg::border_value(borders.0) },
        Step::Read16 { addr: MPUSEGB2, value: crate::mpu_seg::border_value(borders.1) },
    ]
}

/// The noted violations read.
pub open spec fn violation_read(seen: Violations) -> Step {
    Step::Read16 { addr: MPUCTL1, value: seen.raw() }
}

/// The protection unit. There is to be one of these.
#[derive(Debug)]
pub struct Mpu {
    _private: (),
}

impl Default for Mpu {
    fn default() -> Self {
        Mpu { _private: () }
    }
}

impl Mpu {
    /// A handle on the unit.
    pub fn new() -> Self {
        Mpu { _private: () }
    }

    /// Checks a configuration and puts it in force. Violations noted before
    /// are forgotten.
    pub fn enable<H: Hardware>(&mut self, bus: &mut Bus<H>, config: &Config) -> (r: Result<
        (),
        Error,
    >)
        ensures
            enable_result(*config, r),
            final(bus).ran(*old(bus), enable_steps(*config, r)),
    {
        if self.is_locked(bus) {
            return Err(Error::Locked);
        }
        let b1: u16 = match crate::mpu_seg::addr_to_border(config.border1) {
            Ok(b) => b,
            Err(e) => {
                return Err(e);
            },
        };
        let b2: u16 = match crate::mpu_seg::addr_to_border(config.border2) {
            Ok(b) => b,
            Err(e) => {
                return Err(e);
            },
        };
        if b1 > b2 {
            return Err(Error::BordersReversed);
        }
        let sam: u16 = crate::mpu_seg::sam_value(
            config.seg1,
            config.seg2,
            config.seg3,
            config.info,
        );
        open(bus);
        bus.write16(MPUSEGB1, b1);
        bus.write16(MPUSEGB2, b2);
        bus.write16(MPUSAM, sam);
        bus.write16(MPUCTL1, 0);
        bus.write8(
            MPUCTL0_L,
            if config.nmi {
                MODE
            } else {
                ENA
            },
        );
        close(bus);
        Ok(())
    }

    /// Stops protecting. Borders, rights and noted violations stay.
    pub fn disable<H: Hardware>(&mut self, bus: &mut Bus<H>) -> (r: Result<(), Error>)
        ensures
            r is Ok || r == Err::<(), Error>(Error::Locked),
            final(bus).ran(*old(bus), disable_steps(r)),
    {
        if self.is_locked(bus) {
            return Err(Error::Locked);
        }
        open(bus);
        bus.write8(MPUCTL0_L, 0);
        close(bus);
        Ok(())
    }

    /// Freezes all registers until power is cycled.
    pub fn lock<H: Hardware>(&mut self, bus: &mut Bus<H>)
        ensures
            exists|mode: u8| final(bus).ran(*old(bus), #[trigger] lock_script(mode)),
    {
        let mode: u8 = bus.read8(MPUCTL0_L);
        open(bus);
        bus.write8(MPUCTL0_L, (mode & MODE) | LOCK);
        close(bus);
        assert(bus.ran(*old(bus), lock_script(mode)));
    }

    /// Whether it protects.
    pub fn is_enabled<H: Hardware>(&self, bus: &mut Bus<H>) -> (r: bool)
        ensures
            final(bus).ran(*old(bus), seq![enable_look(r)]),
    {
        bus.test8(MPUCTL0_L, ENA)
    }

    /// The borders in force.
    pub fn borders<H: Hardware>(&self, bus: &mut Bus<H>) -> (r: (u32, u32))
        ensures
            are_borders(r),
            final(bus).ran(*old(bus), border_reads(r)),
    {
        let b1: u16 = bus.read16(MPUSEGB1);
        let b2: u16 = bus.read16(MPUSEGB2);
        let r = (crate::mpu_seg::border_to_addr(b1), crate::mpu_seg::border_to_addr(b2));
        assert(r.0 / 16 == b1 && r.1 / 16 == b2);
        r
    }

    /// Whether the registers are frozen.
    pub fn is_locked<H: Hardware>(&self, bus: &mut Bus<H>) -> (r: bool)
        ensures
            final(bus).ran(*old(bus), seq![lock_look(r)]),
    {
        bus.test8(MPUCTL0_L, LOCK)
    }

    /// The noted violations.
    pub fn violations<H: Hardware>(&self, bus: &mut Bus<H>) -> (r: Violations)
        ensures
            final(bus).ran(*old(bus), seq![violation_read(r)]),
    {
        violation_flags(bus)
    }

    /// Forgets them.
    pub fn clear_violations<H: Hardware>(&mut self, bus: &mut Bus<H>)
        ensures
            final(bus).ran(*old(bus), clear_script()),
    {
        clear_violation_flags(bus);
    }
}

fn open<H: Hardware>(bus: &mut Bus<H>)
    ensures
        final(bus).ran(*old(bus), seq![open_step()]),
{
    bus.write8(MPUCTL0_H, KEY_OPEN);
}

fn close<H: Hardware>(bus: &mut Bus<H>)
    ensures
        final(bus).ran(*old(bus), seq![close_step()]),
{
    bus.write8(MPUCTL0_H, KEY_CLOSE);
}

/// The noted violations, from anywhere.
pub fn violation_flags<H: Hardware>(bus: &mut Bus<H>) -> (r: Violations)
    ensures
        final(bus).ran(*old(bus), seq![violation_read(r)]),
{
    Violations { bits: bus.read16(MPUCTL1) }
}

/// Forgets the noted violations, from anywhere. The NMI handler must do so: a
/// violation that stays noted stays pending.
pub fn clear_violation_flags<H: Hardware>(bus: &mut Bus<H>)
    ensures
        final(bus).ran(*old(bus), clear_script()),
{
    open(bus);
    bus.write16(MPUCTL1, 0);
    close(bus);
}

/// Whether the registers are open before step `k`.
pub open spec fn is_open(script: Seq<Step>, k: int) -> bool
    decreases k,
{
    if k <= 0 {
        false
    } else {
        match script[k - 1] {
            Step::Write8 { addr, value } => if addr == MPUCTL0_H {
                value == KEY_OPEN
            } else {
                is_open(script, k - 1)
            },
            _ => is_open(script, k - 1),
        }
    }
}

/// Whether a step writes a register that the key guards.
pub open spec fn writes_guarded(step: Step) -> bool {
    match step {
        Step::Write8 { addr, .. } => MPUCTL0_L <= addr <= MPUSAM + 1 && addr != MPUCTL0_H,
        Step::Write16 { addr, .. } => MPUCTL0_L <= addr <= MPUSAM + 1,
        _ => false,
    }
}

/// Guarded registers are written only while they are open, and they are closed
/// at the end.
pub open spec fn bracketed(script: Seq<Step>) -> bool {
    &&& forall|k: int|
        0 <= k < script.len() && #[trigger] writes_guarded(script[k]) ==> is_open(script, k)
    &&& !is_open(script, script.len() as int)
}

/// Every change to the unit is bracketed by the key, so that none of them
/// resets the chip.
pub proof fn lemma_changes_bracketed(config: Config, mode: u8)
    ensures
        bracketed(seq![lock_look(false)] + enable_script(config)),
        bracketed(seq![lock_look(false)] + mode_script(0)),
        bracketed(lock_script(mode)),
        bracketed(clear_script()),
{
    reveal_with_fuel(is_open, 9);
}

/// The unit is never enabled on half of a configuration: in the script that
/// puts one in force, every segment register is written before the control
/// byte.
pub proof fn lemma_segments_before_enable(config: Config, i: int, j: int)
    requires
        0 <= i < enable_script(config).len(),
        0 <= j < enable_script(config).len(),
        enable_script(config)[i] matches Step::Write16 { addr, .. } && (addr == MPUSEGB1 || addr
            == MPUSEGB2 || addr == MPUSAM),
        enable_script(config)[j] matches Step::Write8 { addr: MPUCTL0_L, .. },
    ensures
        i < j,
{
}

/// The control byte that a configuration asks for.
pub open spec fn mode_of(config: Config) -> u8 {
    if config.nmi {
        MODE
    } else {
        ENA
    }
}

/// The registers of the unit hold this configuration, in force and not locked,
/// no violation is noted, and the key is closed.
pub open spec fn in_force(m: Memory, config: Config) -> bool {
    &&& crate::memory::word_in(m, MPUSEGB1 as int) == crate::mpu_seg::border_value(config.border1)
    &&& crate::memory::word_in(m, MPUSEGB2 as int) == crate::mpu_seg::border_value(config.border2)
    &&& crate::memory::word_in(m, MPUSAM as int) == crate::mpu_seg::sam(
        config.seg1,
        config.seg2,
        config.seg3,
        config.info,
    )
    &&& crate::memory::word_in(m, MPUCTL1 as int) == 0
    &&& m(MPUCTL0_L as int) & ENA != 0
    &&& m(MPUCTL0_L as int) & LOCK == 0
    &&& m(MPUCTL0_L as int) & SEGIE != 0 <==> config.nmi
    &&& m(MPUCTL0_H as int) == KEY_CLOSE
}

/// Whether the unit is locked.
pub open spec fn locked_in(m: Memory) -> bool {
    m(MPUCTL0_L as int) & LOCK != 0
}

/// The script that puts a configuration in force does so.
proof fn lemma_script_enables(m: Memory, config: Config)
    ensures
        in_force(
            crate::memory::memory_after(m, seq![lock_look(false)] + enable_script(config)),
            config,
        ),
{
    let script = seq![lock_look(false)] + enable_script(config);
    let s7 = script.drop_last();
    let s6 = s7.drop_last();
    let s5 = s6.drop_last();
    let s4 = s5.drop_last();
    let s3 = s4.drop_last();
    assert(script.last() == close_step());
    assert(s7.last() == enable_script(config)[5]);
    assert(s6.last() == enable_script(config)[4]);
    assert(s5.last() == enable_script(config)[3]);
    assert(s4.last() == enable_script(config)[2]);
    assert(s3.last() == enable_script(config)[1]);
    reveal_with_fuel(crate::memory::memory_after, 7);
    assert(0 <= crate::mpu_seg::sam(config.seg1, config.seg2, config.seg3, config.info) <= 0xFFFF);
    assert(0x01u8 & 0x01u8 != 0 && 0x11u8 & 0x01u8 != 0 && 0x01u8 & 0x02u8 == 0 && 0x11u8 & 0x02u8
        == 0 && 0x01u8 & 0x10u8 == 0 && 0x11u8 & 0x10u8 != 0) by (bit_vector);
}

/// Putting a configuration in force: a unit that is not locked takes every one
/// that nothing is wrong with, and then its registers hold it. A configuration
/// that is refused, for whatever reason, changes nothing. The registers held
/// `m` when the bus was `pre`, and reads find what they hold.
pub proof fn lemma_enable_takes_effect<H: Hardware>(
    m: Memory,
    config: Config,
    r: Result<(), Error>,
    pre: Bus<H>,
    post: Bus<H>,
)
    requires
        enable_result(config, r),
        post.ran(pre, enable_steps(config, r)),
        crate::memory::recalled(m, pre, post),
    ensures
        if locked_in(m) {
            r == Err::<(), Error>(Error::Locked)
        } else {
            match config.fault() {
                Some(e) => r == Err::<(), Error>(e),
                None => r is Ok,
            }
        },
        r is Ok ==> in_force(crate::memory::left(m, pre, post), config),
        r is Err ==> crate::memory::left(m, pre, post) == m,
{
    let script = enable_steps(config, r);
    assert(post@.skip(pre@.len() as int) =~= script);
    let look = lock_look(r == Err::<(), Error>(Error::Locked));
    let rest = script.skip(1);
    assert(script =~= seq![look] + rest);
    crate::memory::lemma_memory_joins(m, seq![look], rest);
    crate::memory::lemma_one_step(m, look);
    if r is Ok {
        lemma_script_enables(m, config);
    } else {
        assert(script =~= seq![look]);
    }
}

/// What the unit tells of itself is what its registers hold: whether it
/// protects, whether it is locked, the borders and the noted violations.
pub proof fn lemma_looks_tell<H: Hardware>(
    m: Memory,
    enabled: bool,
    locked: bool,
    borders: (u32, u32),
    seen: Violations,
    pre: Bus<H>,
    post: Bus<H>,
)
    requires
        crate::memory::recalled(m, pre, post),
    ensures
        post.ran(pre, seq![enable_look(enabled)]) ==> enabled == (m(MPUCTL0_L as int) & ENA != 0),
        post.ran(pre, seq![lock_look(locked)]) ==> locked == locked_in(m),
        are_borders(borders) && post.ran(pre, border_reads(borders)) ==> {
            &&& borders.0 == crate::mpu_seg::border_address(
                crate::memory::word_in(m, MPUSEGB1 as int),
            )
            &&& borders.1 == crate::mpu_seg::border_address(
                crate::memory::word_in(m, MPUSEGB2 as int),
            )
        },
        post.ran(pre, seq![violation_read(seen)]) ==> seen.raw() == crate::memory::word_in(
            m,
            MPUCTL1 as int,
        ),
        post.ran(pre, seq![enable_look(enabled)]) || post.ran(pre, seq![lock_look(locked)])
            || post.ran(pre, border_reads(borders)) || post.ran(pre, seq![violation_read(seen)])
            ==> crate::memory::left(m, pre, post) == m,
{
    let script = post@.skip(pre@.len() as int);
    crate::memory::lemma_one_step(m, enable_look(enabled));
    crate::memory::lemma_one_step(m, lock_look(locked));
    crate::memory::lemma_one_step(m, violation_read(seen));
    let reads = border_reads(borders);
    crate::memory::lemma_one_step(m, reads[0]);
    crate::memory::lemma_one_step(m, reads[1]);
    crate::memory::lemma_memory_joins(m, seq![reads[0]], seq![reads[1]]);
    assert(reads =~= seq![reads[0]] + seq![reads[1]]);
    if post.ran(pre, seq![enable_look(enabled)]) {
        assert(script =~= seq![enable_look(enabled)]);
    }
    if post.ran(pre, seq![lock_look(locked)]) {
        assert(script =~= seq![lock_look(locked)]);
    }
    if post.ran(pre, border_reads(borders)) {
        assert(script =~= reads);
    }
    if post.ran(pre, seq![violation_read(seen)]) {
        assert(script =~= seq![violation_read(seen)]);
    }
}

/// A configuration that was put in force is the one that reads back: its
/// borders, the enable bit, no lock and no violation.
pub proof fn lemma_in_force_reads_back<H: Hardware>(
    m: Memory,
    config: Config,
    enabled: bool,
    locked: bool,
    borders: (u32, u32),
    seen: Violations,
    pre: Bus<H>,
    post: Bus<H>,
)
    requires
        config.fault() is None,
        in_force(m, config),
        crate::memory::recalled(m, pre, post),
    ensures
        post.ran(pre, seq![enable_look(enabled)]) ==> enabled,
        post.ran(pre, seq![lock_look(locked)]) ==> !locked,
        are_borders(borders) && post.ran(pre, border_reads(borders)) ==> borders == (
            config.border1,
            config.border2,
        ),
        post.ran(pre, seq![violation_read(seen)]) ==> seen.raw() == 0,
{
    lemma_looks_tell(m, enabled, locked, borders, seen, pre, post);
    crate::mpu_seg::lemma_border_round_trip(config.border1);
    crate::mpu_seg::lemma_border_round_trip(config.border2);
}

/// Locking locks, and changes nothing else: the unit protects or not as before,
/// with or without the NMI as before, and all other registers but the key are
/// as they were. The key ends closed.
pub proof fn lemma_lock_takes_effect<H: Hardware>(m: Memory, pre: Bus<H>, post: Bus<H>)
    requires
        exists|mode: u8| post.ran(pre, #[trigger] lock_script(mode)),
        crate::memory::recalled(m, pre, post),
    ensures
        ({
            let after = crate::memory::left(m, pre, post);
            &&& locked_in(after)
            &&& after(MPUCTL0_L as int) & ENA == m(MPUCTL0_L as int) & ENA
            &&& after(MPUCTL0_L as int) & SEGIE == m(MPUCTL0_L as int) & SEGIE
            &&& after(MPUCTL0_H as int) == KEY_CLOSE
            &&& forall|a: int|
                a != MPUCTL0_L && a != MPUCTL0_H ==> #[trigger] after(a) == m(a)
        }),
{
    let mode = choose|mode: u8| post.ran(pre, #[trigger] lock_script(mode));
    let script = lock_script(mode);
    assert(post@.skip(pre@.len() as int) =~= script);
    let read = Step::Read8 { addr: MPUCTL0_L, value: mode };
    let rest = mode_script((mode & MODE) | LOCK);
    crate::memory::lemma_memory_joins(m, seq![read], rest);
    crate::memory::lemma_one_step(m, read);
    let r2 = rest.drop_last();
    let r1 = r2.drop_last();
    assert(rest.last() == close_step());
    assert(r2.last() == (Step::Write8 { addr: MPUCTL0_L, value: (mode & MODE) | LOCK }));
    assert(r1.last() == open_step());
    assert(r1.drop_last() =~= Seq::empty());
    reveal_with_fuel(crate::memory::memory_after, 4);
    assert(((mode & 0x11) | 0x02) & 0x02 != 0 && ((mode & 0x11) | 0x02) & 0x01 == mode & 0x01 && ((
    mode & 0x11) | 0x02) & 0x10 == mode & 0x10) by (bit_vector);
}

/// A locked unit refuses every configuration and refuses to stop protecting,
/// and no register changes; so it stays locked.
pub proof fn lemma_locked_refuses<H: Hardware>(
    m: Memory,
    config: Config,
    r: Result<(), Error>,
    pre: Bus<H>,
    post: Bus<H>,
)
    requires
        locked_in(m),
        crate::memory::recalled(m, pre, post),
        (enable_result(config, r) && post.ran(pre, enable_steps(config, r))) || ((r is Ok || r
            == Err::<(), Error>(Error::Locked)) && post.ran(pre, disable_steps(r))),
    ensures
        r == Err::<(), Error>(Error::Locked),
        crate::memory::left(m, pre, post) == m,
{
    if enable_result(config, r) && post.ran(pre, enable_steps(config, r)) {
        lemma_enable_takes_effect(m, config, r, pre, post);
    } else {
        let script = disable_steps(r);
        assert(post@.skip(pre@.len() as int) =~= script);
        let look = lock_look(r is Err);
        let rest = script.skip(1);
        assert(script =~= seq![look] + rest);
        crate::memory::lemma_memory_joins(m, seq![look], rest);
        crate::memory::lemma_one_step(m, look);
        assert(script =~= seq![look]);
    }
}

/// The rights that the registers give at an address of main FRAM, as the unit
/// reads them: segment 1 is below sixteen times the word at 0x05A6, segment 3
/// begins at sixteen times the word at 0x05A4, and each has four bits of the word
/// at 0x05A8.
pub open spec fn rights_at(m: Memory, addr: int) -> int {
    let word = crate::memory::word_in(m, 0x05A8) as int;
    if addr < 16 * crate::memory::word_in(m, 0x05A6) {
        word % 16
    } else if addr < 16 * crate::memory::word_in(m, 0x05A4) {
        word / 16 % 16
    } else {
        word / 256 % 16
    }
}

/// Once a configuration is in force, every address of main FRAM has the rights of
/// its segment, and information FRAM has its own. The unit is on (bit 0 at
/// 0x05A0), not locked (bit 1), raises an NMI as asked (bit 4), has forgotten
/// earlier violations (at 0x05A2) and is closed (0 at 0x05A1).
pub proof fn lemma_rights_in_force(m: Memory, config: Config, addr: u32)
    requires
        config.fault() is None,
        0x4400 <= addr < 0x1_4000,
    ensures
        ({
            let script = seq![lock_look(false)] + enable_script(config);
            let after = crate::memory::memory_after(m, script);
            &&& crate::mpu_seg::grants(
                rights_at(after, addr as int),
                if addr < config.border1 {
                    config.seg1
                } else if addr < config.border2 {
                    config.seg2
                } else {
                    config.seg3
                },
            )
            &&& crate::mpu_seg::grants(
                crate::memory::word_in(after, 0x05A8) as int / 4096,
                config.info,
            )
            &&& after(0x05A0) == if config.nmi {
                17int
            } else {
                1int
            }
            &&& after(0x05A1) == 0
            &&& crate::memory::word_in(after, 0x05A2) == 0
            &&& script[1] == (Step::Write8 { addr: 0x05A1, value: 0xA5 })
        }),
{
    lemma_script_enables(m, config);
    crate::mpu_seg::lemma_rights_decoded(config.seg1, config.seg2, config.seg3, config.info);
    crate::mpu_seg::lemma_border_round_trip(config.border1);
    crate::mpu_seg::lemma_border_round_trip(config.border2);
    let script = seq![lock_look(false)] + enable_script(config);
    crate::memory::lemma_memory_at(m, script);
    assert(script.len() == 8);
    assert(script[6] == (Step::Write8 { addr: 0x05A0, value: mode_of(config) }));
    assert(script[7] == (Step::Write8 { addr: 0x05A1, value: 0 }));
    reveal_with_fuel(crate::memory::memory_at, 3);
}

/// A configuration is accepted exactly if both borders are multiples of 16 within
/// main FRAM and the first is not above the second.
pub proof fn lemma_accepted(config: Config)
    ensures
        config.fault() is None <==> {
            &&& config.border1 % 16 == 0 && config.border2 % 16 == 0
            &&& 0x4400 <= config.border1 <= config.border2 <= 0x1_4000
        },
        config.fault() == Some(Error::BordersReversed) ==> config.border1 > config.border2,
        config.fault() != Some(Error::Locked),
{
}

/// Where the registers lie, and which bits and values they have.
pub proof fn lemma_layout()
    ensures
        MPUCTL0_L == 0x05A0,
        MPUCTL0_H == 0x05A1,
        MPUCTL1 == 0x05A2,
        MPUSEGB2 == 0x05A4,
        MPUSEGB1 == 0x05A6,
        MPUSAM == 0x05A8,
        KEY_OPEN == 165,
        KEY_CLOSE == 0,
        ENA == 1,
        LOCK == 2,
        SEGIE == 16,
        MODE == 17,
        SEG1IFG == 1,
        SEG2IFG == 2,
        SEG3IFG == 4,
        SEGIIFG == 8,
        SEGIPIFG == 16,
        ANY_IFG == 31,
{
}

/// Locking reads the mode byte at 0x05A0 and writes it back, opened with 0xA5 at
/// 0x05A1, with bit 1 set and with the enable bits 0 and 4 as they were.
pub proof fn lemma_lock_steps(mode: u8)
    ensures
        lock_script(mode) =~= seq![
            Step::Read8 { addr: 0x05A0, value: mode },
            Step::Write8 { addr: 0x05A1, value: 0xA5 },
            Step::Write8 { addr: 0x05A0, value: (mode & 0x11) | 2 },
            Step::Write8 { addr: 0x05A1, value: 0 },
        ],
        mode_script(0) =~= seq![
            Step::Write8 { addr: 0x05A1, value: 0xA5 },
            Step::Write8 { addr: 0x05A0, value: 0 },
            Step::Write8 { addr: 0x05A1, value: 0 },
        ],
        clear_script() =~= seq![
            Step::Write8 { addr: 0x05A1, value: 0xA5 },
            Step::Write16 { addr: 0x05A2, value: 0 },
            Step::Write8 { addr: 0x05A1, value: 0 },
        ],
{
}

/// Disabling looks at the lock (bit 1 at 0x05A0) first and, unless it is set,
/// switches the unit off.
pub proof fn lemma_disable_steps(r: Result<(), Error>)
    ensures
        disable_steps(r) =~= if r is Ok {
            seq![
                Step::Test8 { addr: 0x05A0, mask: 2, any: false },
                Step::Write8 { addr: 0x05A1, value: 0xA5 },
                Step::Write8 { addr: 0x05A0, value: 0 },
                Step::Write8 { addr: 0x05A1, value: 0 },
            ]
        } else {
            seq![Step::Test8 { addr: 0x05A0, mask: 2, any: true }]
        },
{
}

} // verus!
