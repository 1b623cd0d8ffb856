//! Why the chip was reset, and what a system interrupt is about.
//!
//! Every reset source latches a flag that survives the reset. `SYSRSTIV`
//! reports the pending flags one by one in order of priority; each read clears
//! the flag that it reports. So the register is drained once, early, and the
//! result kept.
use vstd::prelude::*;

use crate::bus::{Bus, Hardware, Step};
use crate::pac::Sys;

verus! {

broadcast use crate::trace::group_growth;

/// System interrupt vector.
pub const SYSSNIV: u32 = 0x019C;

/// Reset interrupt vector.
pub const SYSRSTIV: u32 = 0x019E;

/// Why the chip was reset.
#[derive(Clone, Copy, PartialEq, Eq, Structural, Debug)]
pub enum ResetReason {
    /// Brownout.
    Brownout,
    /// The reset pin.
    ResetPin,
    /// A brownout reset requested by software.
    SoftwareBor,
    /// Wake-up from LPM3.5 or LPM4.5.
    Lpm5WakeUp,
    /// Security violation.
    SecurityViolation,
    /// High-side supply supervisor.
    SvsHigh,
    /// A power-on reset requested by software.
    SoftwarePor,
    /// Watchdog timeout.
    WatchdogTimeout,
    /// Wrong watchdog password.
    WatchdogPassword,
    /// Wrong FRAM password.
    FramPassword,
    /// Uncorrectable FRAM bit error.
    FramBitError,
    /// Instruction fetch from a peripheral.
    PeripheralFetch,
    /// Wrong power management password.
    PmmPassword,
    /// Wrong memory protection password.
    MpuPassword,
    /// Wrong clock system password.
    CsPassword,
    /// Violation of the protected code segment.
    MpuSegIp,
    /// Violation of the information memory segment.
    MpuSegInfo,
    /// Violation of memory segment 1.
    MpuSeg1,
    /// Violation of memory segment 2.
    MpuSeg2,
    /// Violation of memory segment 3.
    MpuSeg3,
    /// FRAM accessed too fast.
    FramAccessTime,
    /// Anything else.
    Unknown(u16),
}

impl ResetReason {
    /// The vector value that stands for the reason.
    pub open spec fn value(self) -> u16 {
        match self {
            ResetReason::Brownout => 0x02,
            ResetReason::ResetPin => 0x04,
            ResetReason::SoftwareBor => 0x06,
            ResetReason::Lpm5WakeUp => 0x08,
            ResetReason::SecurityViolation => 0x0A,
            ResetReason::SvsHigh => 0x0E,
            ResetReason::SoftwarePor => 0x14,
            ResetReason::WatchdogTimeout => 0x16,
            ResetReason::WatchdogPassword => 0x18,
            ResetReason::FramPassword => 0x1A,
            ResetReason::FramBitError => 0x1C,
            ResetReason::PeripheralFetch => 0x1E,
            ResetReason::PmmPassword => 0x20,
            ResetReason::MpuPassword => 0x22,
            ResetReason::CsPassword => 0x24,
            ResetReason::MpuSegIp => 0x26,
            ResetReason::MpuSegInfo => 0x28,
            ResetReason::MpuSeg1 => 0x2A,
            ResetReason::MpuSeg2 => 0x2C,
            ResetReason::MpuSeg3 => 0x2E,
            ResetReason::FramAccessTime => 0x30,
            ResetReason::Unknown(iv) => iv,
        }
    }

    /// Only what has no name of its own is unknown.
    pub open spec fn canonical(self) -> bool {
        match self {
            ResetReason::Unknown(iv) => {
                ||| iv % 2 == 1
                ||| iv > 0x30
                ||| iv == 0x0C
                ||| iv == 0x10
                ||| iv == 0x12
            },
            _ => true,
        }
    }

    /// The reason is the one that the vector value `iv` stands for.
    pub open spec fn is_for(self, iv: u16) -> bool {
        self.canonical() && self.value() == iv
    }

    /// A short name.
    pub open spec fn name(self) -> Seq<char> {
        match self {
            ResetReason::Brownout => "brownout"@,
            ResetReason::ResetPin => "reset pin"@,
            ResetReason::SoftwareBor => "software BOR"@,
            ResetReason::Lpm5WakeUp => "LPMx.5 wakeup"@,
            ResetReason::SecurityViolation => "security violation"@,
            ResetReason::SvsHigh => "SVSH event"@,
            ResetReason::SoftwarePor => "software POR"@,
            ResetReason::WatchdogTimeout => "WDT timeout"@,
            ResetReason::WatchdogPassword => "WDT password"@,
            ResetReason::FramPassword => "FRAM password"@,
            ResetReason::FramBitError => "FRAM bit error"@,
            ResetReason::PeripheralFetch => "peripheral fetch"@,
            ResetReason::PmmPassword => "PMM password"@,
            ResetReason::MpuPassword => "MPU password"@,
            ResetReason::CsPassword => "CS password"@,
            ResetReason::MpuSegIp => "MPU seg IP"@,
            ResetReason::MpuSegInfo => "MPU seg info"@,
            ResetReason::MpuSeg1 => "MPU seg 1"@,
            ResetReason::MpuSeg2 => "MPU seg 2"@,
            ResetReason::MpuSeg3 => "MPU seg 3"@,
            ResetReason::FramAccessTime => "FRAM access time"@,
            ResetReason::Unknown(_) => "unknown"@,
        }
    }

    /// Decodes a vector value; 0 stands for no reason.
    pub fn from_iv(iv: u16) -> (r: Option<ResetReason>)
        ensures
            match r {
                None => iv == 0,
                Some(reason) => iv != 0 && reason.is_for(iv),
            },
    {
        match iv {
            0x00 => None,
            0x02 => Some(ResetReason::Brownout),
            0x04 => Some(ResetReason::ResetPin),
            0x06 => Some(ResetReason::SoftwareBor),
            0x08 => Some(ResetReason::Lpm5WakeUp),
            0x0A => Some(ResetReason::SecurityViolation),
            0x0E => Some(ResetReason::SvsHigh),
            0x14 => Some(ResetReason::SoftwarePor),
            0x16 => Some(ResetReason::WatchdogTimeout),
            0x18 => Some(ResetReason::WatchdogPassword),
            0x1A => Some(ResetReason::FramPassword),
            0x1C => Some(ResetReason::FramBitError),
            0x1E => Some(ResetReason::PeripheralFetch),
            0x20 => Some(ResetReason::PmmPassword),
            0x22 => Some(ResetReason::MpuPassword),
            0x24 => Some(ResetReason::CsPassword),
            0x26 => Some(ResetReason::MpuSegIp),
            0x28 => Some(ResetReason::MpuSegInfo),
            0x2A => Some(ResetReason::MpuSeg1),
            0x2C => Some(ResetReason::MpuSeg2),
            0x2E => Some(ResetReason::MpuSeg3),
            0x30 => Some(ResetReason::FramAccessTime),
            other => Some(ResetReason::Unknown(other)),
        }
    }

    /// A short name of the reason.
    pub fn as_str(&self) -> (r: &'static str)
        ensures
            r@ == self.name(),
    {
        match self {
            ResetReason::Brownout => "brownout",
            ResetReason::ResetPin => "reset pin",
            ResetReason::SoftwareBor => "software BOR",
            ResetReason::Lpm5WakeUp => "LPMx.5 wakeup",
            ResetReason::SecurityViolation => "security violation",
            ResetReason::SvsHigh => "SVSH event",
            ResetReason::SoftwarePor => "software POR",
            ResetReason::WatchdogTimeout => "WDT timeout",
            ResetReason::WatchdogPassword => "WDT password",
            ResetReason::FramPassword => "FRAM password",
            ResetReason::FramBitError => "FRAM bit error",
            ResetReason::PeripheralFetch => "peripheral fetch",
            ResetReason::PmmPassword => "PMM password",
            ResetReason::MpuPassword => "MPU password",
            ResetReason::CsPassword => "CS password",
            ResetReason::MpuSegIp => "MPU seg IP",
            ResetReason::MpuSegInfo => "MPU seg info",
            ResetReason::MpuSeg1 => "MPU seg 1",
            ResetReason::MpuSeg2 => "MPU seg 2",
            ResetReason::MpuSeg3 => "MPU seg 3",
            ResetReason::FramAccessTime => "FRAM access time",
            ResetReason::Unknown(_) => "unknown",
        }
    }
}

/// How many reasons are recorded.
pub const CAPACITY: usize = 8;

/// How often the register is read at most.
pub const DRAIN_READS: usize = 32;

/// The reset reasons that were pending, in order of priority.
#[derive(Clone, Copy, Debug)]
pub struct ResetReasons {
    raw: [u16; 8],
    len: u8,
}

/// Reads of the reset vector that returned `ivs`.
pub open spec fn drain_reads(ivs: Seq<u16>) -> Seq<Step> {
    ivs.map_values(|iv: u16| Step::Read16 { addr: SYSRSTIV, value: iv })
}

/// A drain that found `ivs`: it ends with a read of 0, or after the last read
/// allowed.
pub open spec fn drain_script(ivs: Seq<u16>) -> Seq<Step> {
    if ivs.len() < DRAIN_READS {
        drain_reads(ivs).push(Step::Read16 { addr: SYSRSTIV, value: 0 })
    } else {
        drain_reads(ivs)
    }
}

impl ResetReasons {
    /// The recorded vector values.
    pub closed spec fn view(&self) -> Seq<u16> {
        self.raw@.take(self.len as int)
    }

    #[verifier::type_invariant]
    closed spec fn inv(self) -> bool {
        &&& self.len <= 8
        &&& forall|i: int| 0 <= i < self.len ==> #[trigger] self.raw@[i] != 0
    }

    /// Reads and thereby clears every pending reason. All are read, the first
    /// [`CAPACITY`] are recorded.
    pub fn drain<H: Hardware>(_sys: &Sys, bus: &mut Bus<H>) -> (r: ResetReasons)
        ensures
            exists|ivs: Seq<u16>|
                {
                    &&& ivs.len() <= DRAIN_READS
                    &&& forall|i: int| 0 <= i < ivs.len() ==> #[trigger] ivs[i] != 0
                    &&& final(bus).ran(*old(bus), #[trigger] drain_script(ivs))
                    &&& r@ == if ivs.len() < CAPACITY {
                        ivs
                    } else {
                        ivs.take(CAPACITY as int)
                    }
                },
    {
        let mut raw: [u16; 8] = [0u16, 0, 0, 0, 0, 0, 0, 0];
        let mut len: u8 = 0;
        let ghost mut ivs: Seq<u16> = Seq::empty();
        let mut reads: usize = 0;
        assert(drain_reads(ivs) =~= Seq::empty());
        while reads < DRAIN_READS
            invariant
                reads <= DRAIN_READS,
                ivs.len() == reads,
                len == if reads < CAPACITY {
                    reads
                } else {
                    CAPACITY
                },
                forall|i: int| 0 <= i < ivs.len() ==> #[trigger] ivs[i] != 0,
                forall|i: int| 0 <= i < len ==> #[trigger] raw@[i] == ivs[i],
                bus.ran(*old(bus), drain_reads(ivs)),
            decreases DRAIN_READS - reads,
        {
            let iv: u16 = bus.read16(SYSRSTIV);
            if iv == 0 {
                let r = ResetReasons { raw, len };
                proof {
                    assert(bus.ran(*old(bus), drain_script(ivs)));
                    assert(r@ =~= if ivs.len() < CAPACITY {
                        ivs
                    } else {
                        ivs.take(CAPACITY as int)
                    });
                }
                return r;
            }
            if (len as usize) < CAPACITY {
                raw[len as usize] = iv;
                len = len + 1;
            }
            proof {
                assert(drain_reads(ivs.push(iv)) =~= drain_reads(ivs).push(
                    Step::Read16 { addr: SYSRSTIV, value: iv },
                ));
                ivs = ivs.push(iv);
            }
            reads = reads + 1;
        }
        let r = ResetReasons { raw, len };
        proof {
            assert(bus.ran(*old(bus), drain_script(ivs)));
            assert(r@ =~= ivs.take(CAPACITY as int));
        }
        r
    }

    /// The reason of highest priority.
    pub fn primary(&self) -> (r: Option<ResetReason>)
        ensures
            match r {
                None => self@.len() == 0,
                Some(reason) => self@.len() > 0 && reason.is_for(self@[0]),
            },
    {
        proof {
            use_type_invariant(self);
        }
        if self.len == 0 {
            return None;
        }
        ResetReason::from_iv(self.raw[0])
    }

    /// All recorded reasons, in order of priority.
    pub fn iter(&self) -> (r: Vec<ResetReason>)
        ensures
            r@.len() == self@.len(),
            forall|i: int| 0 <= i < r@.len() ==> (#[trigger] r@[i]).is_for(self@[i]),
    {
        proof {
            use_type_invariant(self);
        }
        let mut r: Vec<ResetReason> = Vec::new();
        let mut i: usize = 0;
        while i < self.len as usize
            invariant
                i <= self.len <= 8,
                forall|k: int| 0 <= k < self.len ==> #[trigger] self.raw@[k] != 0,
                r@.len() == i,
                forall|k: int| 0 <= k < i ==> (#[trigger] r@[k]).is_for(self@[k]),
            decreases self.len - i,
        {
            match ResetReason::from_iv(self.raw[i]) {
                Some(reason) => r.push(reason),
                None => {},
            }
            i = i + 1;
        }
        r
    }

    /// Whether `reason` is among the recorded ones.
    pub fn contains(&self, reason: ResetReason) -> (r: bool)
        ensures
            r == (reason.canonical() && self@.contains(reason.value())),
    {
        let all = self.iter();
        let mut i: usize = 0;
        while i < all.len()
            invariant
                i <= all@.len(),
                all@.len() == self@.len(),
                forall|k: int| 0 <= k < all@.len() ==> (#[trigger] all@[k]).is_for(self@[k]),
                forall|k: int| 0 <= k < i ==> #[trigger] all@[k] != reason,
            decreases all@.len() - i,
        {
            if all[i] == reason {
                assert(self@[i as int] == reason.value());
                return true;
            }
            i = i + 1;
        }
        proof {
            if reason.canonical() && self@.contains(reason.value()) {
                let k = choose|k: int| 0 <= k < self@.len() && self@[k] == reason.value();
                lemma_reason_unique(all@[k], reason);
            }
        }
        false
    }

    /// How many reasons are recorded.
    pub fn len(&self) -> (r: usize)
        ensures
            r == self@.len(),
            r <= CAPACITY,
    {
        proof {
            use_type_invariant(self);
        }
        self.len as usize
    }

    /// Whether no reason is recorded.
    pub fn is_empty(&self) -> (r: bool)
        ensures
            r == (self@.len() == 0),
    {
        proof {
            use_type_invariant(self);
        }
        self.len == 0
    }

    /// The recorded vector values.
    pub fn raw(&self) -> (r: &[u16])
        ensures
            r@ == self@,
    {
        proof {
            use_type_invariant(self);
        }
        vstd::slice::slice_subrange(self.raw.as_slice(), 0, self.len as usize)
    }
}

/// A vector value stands for one reason only.
pub proof fn lemma_reason_unique(a: ResetReason, b: ResetReason)
    requires
        a.canonical(),
        b.canonical(),
        a.value() == b.value(),
    ensures
        a == b,
{
}

/// What a system interrupt is about.
#[derive(Clone, Copy, PartialEq, Eq, Structural, Debug)]
pub enum NmiSource {
    /// Uncorrectable FRAM bit error.
    FramUncorrectableBit,
    /// Violation of the protected code segment.
    MpuSegIp,
    /// Violation of the information memory segment.
    MpuSegInfo,
    /// Violation of memory segment 1.
    MpuSeg1,
    /// Violation of memory segment 2.
    MpuSeg2,
    /// Violation of memory segment 3.
    MpuSeg3,
    /// Access to vacant memory.
    VacantMemory,
    /// JTAG mailbox input.
    JtagMailboxIn,
    /// JTAG mailbox output.
    JtagMailboxOut,
    /// Corrected FRAM bit error.
    FramCorrectableBit,
    /// Anything else.
    Unknown(u16),
}

impl NmiSource {
    /// The vector value that stands for the source.
    pub open spec fn value(self) -> u16 {
        match self {
            NmiSource::FramUncorrectableBit => 0x04,
            NmiSource::MpuSegIp => 0x08,
            NmiSource::MpuSegInfo => 0x0A,
            NmiSource::MpuSeg1 => 0x0C,
            NmiSource::MpuSeg2 => 0x0E,
            NmiSource::MpuSeg3 => 0x10,
            NmiSource::VacantMemory => 0x12,
            NmiSource::JtagMailboxIn => 0x14,
            NmiSource::JtagMailboxOut => 0x16,
            NmiSource::FramCorrectableBit => 0x18,
            NmiSource::Unknown(iv) => iv,
        }
    }

    /// Only what has no name of its own is unknown.
    pub open spec fn canonical(self) -> bool {
        match self {
            NmiSource::Unknown(iv) => iv % 2 == 1 || iv > 0x18 || iv == 0x02 || iv == 0x06,
            _ => true,
        }
    }

    /// The source is the one that the vector value `iv` stands for.
    pub open spec fn is_for(self, iv: u16) -> bool {
        self.canonical() && self.value() == iv
    }

    /// A short name.
    pub open spec fn name(self) -> Seq<char> {
        match self {
            NmiSource::FramUncorrectableBit => "FRAM uncorrectable bit"@,
            NmiSource::MpuSegIp => "MPU seg IP"@,
            NmiSource::MpuSegInfo => "MPU seg info"@,
            NmiSource::MpuSeg1 => "MPU seg 1"@,
            NmiSource::MpuSeg2 => "MPU seg 2"@,
            NmiSource::MpuSeg3 => "MPU seg 3"@,
            NmiSource::VacantMemory => "vacant memory"@,
            NmiSource::JtagMailboxIn => "JTAG mailbox in"@,
            NmiSource::JtagMailboxOut => "JTAG mailbox out"@,
            NmiSource::FramCorrectableBit => "FRAM correctable bit"@,
            NmiSource::Unknown(_) => "unknown"@,
        }
    }

    /// Decodes a vector value; 0 stands for nothing.
    pub fn from_iv(iv: u16) -> (r: Option<NmiSource>)
        ensures
            match r {
                None => iv == 0,
                Some(source) => iv != 0 && source.is_for(iv),
            },
    {
        match iv {
            0x00 => None,
            0x04 => Some(NmiSource::FramUncorrectableBit),
            0x08 => Some(NmiSource::MpuSegIp),
            0x0A => Some(NmiSource::MpuSegInfo),
            0x0C => Some(NmiSource::MpuSeg1),
            0x0E => Some(NmiSource::MpuSeg2),
            0x10 => Some(NmiSource::MpuSeg3),
            0x12 => Some(NmiSource::VacantMemory),
            0x14 => Some(NmiSource::JtagMailboxIn),
            0x16 => Some(NmiSource::JtagMailboxOut),
            0x18 => Some(NmiSource::FramCorrectableBit),
            other => Some(NmiSource::Unknown(other)),
        }
    }

    /// A short name of the source.
    pub fn as_str(&self) -> (r: &'static str)
        ensures
            r@ == self.name(),
    {
        match self {
            NmiSource::FramUncorrectableBit => "FRAM uncorrectable bit",
            NmiSource::MpuSegIp => "MPU seg IP",
            NmiSource::MpuSegInfo => "MPU seg info",
            NmiSource::MpuSeg1 => "MPU seg 1",
            NmiSource::MpuSeg2 => "MPU seg 2",
            NmiSource::MpuSeg3 => "MPU seg 3",
            NmiSource::VacantMemory => "vacant memory",
            NmiSource::JtagMailboxIn => "JTAG mailbox in",
            NmiSource::JtagMailboxOut => "JTAG mailbox out",
            NmiSource::FramCorrectableBit => "FRAM correctable bit",
            NmiSource::Unknown(_) => "unknown",
        }
    }
}

/// A vector value stands for one source only.
pub proof fn lemma_source_unique(a: NmiSource, b: NmiSource)
    requires
        a.canonical(),
        b.canonical(),
        a.value() == b.value(),
    ensures
        a == b,
{
}

/// Reads what the system interrupt is about, which clears its flag.
pub fn read_nmi_iv<H: Hardware>(bus: &mut Bus<H>) -> (r: Option<NmiSource>)
    ensures
        r matches Some(source) ==> source.canonical() && source.value() != 0,
        final(bus).ran(
            *old(bus),
            seq![
                Step::Read16 {
                    addr: SYSSNIV,
                    value: match r {
                        None => 0,
                        Some(source) => source.value(),
                    },
                },
            ],
        ),
{
    let iv: u16 = bus.read16(SYSSNIV);
    NmiSource::from_iv(iv)
}

/// What the values of the reset vector register mean.
pub proof fn lemma_reset_values(reason: ResetReason, iv: u16)
    requires
        reason.is_for(iv),
    ensures
        iv == 2 ==> reason == ResetReason::Brownout,
        iv == 4 ==> reason == ResetReason::ResetPin,
        iv == 6 ==> reason == ResetReason::SoftwareBor,
        iv == 8 ==> reason == ResetReason::Lpm5WakeUp,
        iv == 10 ==> reason == ResetReason::SecurityViolation,
        iv == 14 ==> reason == ResetReason::SvsHigh,
        iv == 20 ==> reason == ResetReason::SoftwarePor,
        iv == 22 ==> reason == ResetReason::WatchdogTimeout,
        iv == 24 ==> reason == ResetReason::WatchdogPassword,
        iv == 26 ==> reason == ResetReason::FramPassword,
        iv == 28 ==> reason == ResetReason::FramBitError,
        iv == 30 ==> reason == ResetReason::PeripheralFetch,
        iv == 32 ==> reason == ResetReason::PmmPassword,
        iv == 34 ==> reason == ResetReason::MpuPassword,
        iv == 36 ==> reason == ResetReason::CsPassword,
        iv == 38 ==> reason == ResetReason::MpuSegIp,
        iv == 40 ==> reason == ResetReason::MpuSegInfo,
        iv == 42 ==> reason == ResetReason::MpuSeg1,
        iv == 44 ==> reason == ResetReason::MpuSeg2,
        iv == 46 ==> reason == ResetReason::MpuSeg3,
        iv == 48 ==> reason == ResetReason::FramAccessTime,
        iv > 48 || iv % 2 == 1 || iv == 12 || iv == 16 || iv == 18 ==> reason
            == ResetReason::Unknown(iv),
{
}

/// What the values of the system NMI vector register mean.
pub proof fn lemma_nmi_values(source: NmiSource, iv: u16)
    requires
        source.is_for(iv),
    ensures
        iv == 4 ==> source == NmiSource::FramUncorrectableBit,
        iv == 8 ==> source == NmiSource::MpuSegIp,
        iv == 10 ==> source == NmiSource::MpuSegInfo,
        iv == 12 ==> source == NmiSource::MpuSeg1,
        iv == 14 ==> source == NmiSource::MpuSeg2,
        iv == 16 ==> source == NmiSource::MpuSeg3,
        iv == 18 ==> source == NmiSource::VacantMemory,
        iv == 20 ==> source == NmiSource::JtagMailboxIn,
        iv == 22 ==> source == NmiSource::JtagMailboxOut,
        iv == 24 ==> source == NmiSource::FramCorrectableBit,
        iv > 24 || iv % 2 == 1 || iv == 2 || iv == 6 ==> source == NmiSource::Unknown(iv),
{
}

/// The reset vector register, at 0x019E, is read until it is zero, and 32 times
/// at the most.
pub proof fn lemma_drained(ivs: Seq<u16>, k: int)
    requires
        0 <= k < drain_script(ivs).len(),
    ensures
        drain_script(ivs)[k] == (Step::Read16 {
            addr: 0x019E,
            value: if k < ivs.len() {
                ivs[k]
            } else {
                0
            },
        }),
        ivs.len() < 32 ==> drain_script(ivs).len() == ivs.len() + 1,
        ivs.len() >= 32 ==> drain_script(ivs).len() == ivs.len(),
{
}

/// Where the registers lie, and which bits and values they have.
pub proof fn lemma_layout()
    ensures
        SYSSNIV == 0x019C,
        SYSRSTIV == 0x019E,
        CAPACITY == 8,
        DRAIN_READS == 32,
{
}

/// The name of a segment violation ends in the number of the segment, in both
/// vectors, and the name of a password violation begins as that of its module.
pub proof fn lemma_names_tell()
    ensures
        ResetReason::MpuSeg1.name().last() == '1' && NmiSource::MpuSeg1.name().last() == '1',
        ResetReason::MpuSeg2.name().last() == '2' && NmiSource::MpuSeg2.name().last() == '2',
        ResetReason::MpuSeg3.name().last() == '3' && NmiSource::MpuSeg3.name().last() == '3',
        ResetReason::MpuSegIp.name().last() == 'P' && NmiSource::MpuSegIp.name().last() == 'P',
        ResetReason::MpuSegInfo.name().last() == 'o' && NmiSource::MpuSegInfo.name().last() == 'o',
        ResetReason::WatchdogPassword.name()[0] == 'W',
        ResetReason::FramPassword.name()[0] == 'F',
        ResetReason::PmmPassword.name()[0] == 'P',
        ResetReason::MpuPassword.name()[0] == 'M',
        ResetReason::CsPassword.name()[0] == 'C',
        ResetReason::WatchdogPassword.name().last() == 'd',
        ResetReason::WatchdogTimeout.name().last() == 't',
        ResetReason::FramPassword.name().last() == 'd',
        ResetReason::FramBitError.name().last() == 'r',
        ResetReason::FramAccessTime.name().last() == 'e',
        ResetReason::SoftwareBor.name()[9] == 'B',
        ResetReason::SoftwarePor.name()[9] == 'P',
        NmiSource::JtagMailboxIn.name().last() == 'n',
        NmiSource::JtagMailboxOut.name().last() == 't',
        NmiSource::FramUncorrectableBit.name()[5] == 'u',
        NmiSource::FramCorrectableBit.name()[5] == 'c',
{
    reveal_strlit("MPU seg 1");
    reveal_strlit("MPU seg 2");
    reveal_strlit("MPU seg 3");
    reveal_strlit("MPU seg IP");
    reveal_strlit("MPU seg info");
    reveal_strlit("WDT password");
    reveal_strlit("FRAM password");
    reveal_strlit("PMM password");
    reveal_strlit("MPU password");
    reveal_strlit("CS password");
    reveal_strlit("WDT timeout");
    reveal_strlit("FRAM bit error");
    reveal_strlit("FRAM access time");
    reveal_strlit("software BOR");
    reveal_strlit("software POR");
    reveal_strlit("JTAG mailbox in");
    reveal_strlit("JTAG mailbox out");
    reveal_strlit("FRAM uncorrectable bit");
    reveal_strlit("FRAM correctable bit");
}

} // verus!
