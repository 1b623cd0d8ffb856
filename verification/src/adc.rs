//! The ADC12_B converter: single conversions, waited for or collected later,
//! and runs of conversions that DMA collects.
//!
//! A conversion measures a ratio: the input against the supply, or against the
//! shared reference. Methods that convert against the reference take a
//! [`Ref`], which is proof that it is on and settled.
//!
//! Channel, reference and source routing can be written only while conversions
//! are disabled, so every start disables them first.
use vstd::prelude::*;

use crate::adc_cal::counts_to_millivolts;
use crate::bus::{Bus, Cond, Hardware, Stalled, Step};
use crate::dma::{AddrMode, Channel, Job, TriggerSource, WordSpan};
use crate::gpio::{Analog, Pin, P1, P2, P3, P4};
use crate::memory::Memory;
use crate::pac::Adc12;
use crate::ref_a::Ref;
use crate::tlv::AdcCal;

verus! {

broadcast use crate::trace::group_growth;

/// Control 0: start, enable, power, sample time.
pub const ADC12CTL0: u32 = 0x0800;

/// Control 1: busy, conversion mode, clock.
pub const ADC12CTL1: u32 = 0x0802;

/// Control 2: resolution.
pub const ADC12CTL2: u32 = 0x0804;

/// Control 3: internal sources.
pub const ADC12CTL3: u32 = 0x0806;

/// Interrupt flags.
pub const ADC12IFGR0: u32 = 0x080C;

/// Interrupt enables.
pub const ADC12IER0: u32 = 0x0812;

/// Interrupt vector.
pub const ADC12IV: u32 = 0x0818;

/// Control word of the first result.
pub const ADC12MCTL0: u32 = 0x0820;

/// First result.
pub const ADC12MEM0: u32 = 0x0860;

/// Start.
pub const ADC12SC: u16 = 0x0001;

/// Conversions enabled.
pub const ADC12ENC: u16 = 0x0002;

/// Power.
pub const ADC12ON: u16 = 0x0010;

/// Each conversion starts the next.
pub const ADC12MSC: u16 = 0x0080;

/// Conversion in progress.
pub const ADC12BUSY: u16 = 0x0001;

/// Conversion mode field.
pub const ADC12CONSEQ: u16 = 0x0006;

/// One channel over and over.
pub const CONSEQ_REPEAT: u16 = 0x0004;

/// Sampling by the sample timer.
pub const ADC12SHP: u16 = 0x0200;

/// Supply monitor connected.
pub const ADC12BATMAP: u16 = 0x0040;

/// Temperature sensor connected.
pub const ADC12TCMAP: u16 = 0x0080;

/// End of sequence.
pub const ADC12EOS: u16 = 0x0080;

/// Conversion against the reference.
pub const ADC12VRSEL_VREF: u16 = 0x0100;

/// First result complete.
pub const ADC12IFG0: u16 = 0x0001;

/// Interrupt on the first result.
pub const ADC12IE0: u16 = 0x0001;

/// The source behind a channel.
#[derive(Clone, Copy, PartialEq, Eq, Structural)]
pub enum Internal {
    /// A pin.
    Pin,
    /// Half the supply, on channel 31.
    SupplyHalf,
    /// The temperature sensor, on channel 30.
    Temperature,
}

/// What a conversion measures against.
#[derive(Clone, Copy, PartialEq, Eq, Structural)]
pub enum RefSel {
    /// The supply.
    Avcc,
    /// The shared reference.
    VRef,
}

/// Bits of a result.
#[derive(Clone, Copy, PartialEq, Eq, Structural, Debug)]
pub enum Resolution {
    /// 8 bits.
    Bits8,
    /// 10 bits.
    Bits10,
    /// 12 bits.
    Bits12,
}

impl Resolution {
    /// The largest result.
    pub open spec fn full_scale(self) -> u16 {
        match self {
            Resolution::Bits8 => 255,
            Resolution::Bits10 => 1023,
            Resolution::Bits12 => 4095,
        }
    }

    /// The largest result.
    pub fn max(self) -> (r: u16)
        ensures
            r == self.full_scale(),
    {
        match self {
            Resolution::Bits8 => 255,
            Resolution::Bits10 => 1023,
            Resolution::Bits12 => 4095,
        }
    }
}

/// The conversion clock.
#[derive(Clone, Copy, PartialEq, Eq, Structural, Debug)]
pub enum ClockSource {
    /// The converter's own oscillator.
    ModOsc,
    /// ACLK.
    Aclk,
    /// MCLK.
    Mclk,
    /// SMCLK.
    Smclk,
}

/// Sample time in conversion clocks.
#[derive(Clone, Copy, PartialEq, Eq, Structural, Debug)]
pub enum SampleTime {
    /// 4 clocks.
    Cycles4,
    /// 8 clocks.
    Cycles8,
    /// 16 clocks.
    Cycles16,
    /// 32 clocks.
    Cycles32,
    /// 64 clocks.
    Cycles64,
    /// 128 clocks.
    Cycles128,
    /// 256 clocks.
    Cycles256,
}

impl SampleTime {
    /// The field value of the sample time.
    pub open spec fn field(self) -> u8 {
        match self {
            SampleTime::Cycles4 => 0,
            SampleTime::Cycles8 => 1,
            SampleTime::Cycles16 => 2,
            SampleTime::Cycles32 => 3,
            SampleTime::Cycles64 => 4,
            SampleTime::Cycles128 => 6,
            SampleTime::Cycles256 => 8,
        }
    }

    /// The field value of the sample time.
    fn code(self) -> (r: u8)
        ensures
            r == self.field(),
    {
        match self {
            SampleTime::Cycles4 => 0,
            SampleTime::Cycles8 => 1,
            SampleTime::Cycles16 => 2,
            SampleTime::Cycles32 => 3,
            SampleTime::Cycles64 => 4,
            SampleTime::Cycles128 => 6,
            SampleTime::Cycles256 => 8,
        }
    }
}

/// Converter configuration.
#[derive(Clone, Copy, Debug)]
pub struct Config {
    /// Bits of a result.
    pub resolution: Resolution,
    /// Conversion clock.
    pub clock: ClockSource,
    /// Sample time.
    pub sample_time: SampleTime,
}

impl Default for Config {
    /// 12 bits, own oscillator, 32 clocks.
    fn default() -> (r: Self)
        ensures
            r == (Config {
                resolution: Resolution::Bits12,
                clock: ClockSource::ModOsc,
                sample_time: SampleTime::Cycles32,
            }),
    {
        Config {
            resolution: Resolution::Bits12,
            clock: ClockSource::ModOsc,
            sample_time: SampleTime::Cycles32,
        }
    }
}

impl Config {
    /// 12 bits, own oscillator, 32 clocks.
    pub fn new() -> (r: Self)
        ensures
            r == (Config {
                resolution: Resolution::Bits12,
                clock: ClockSource::ModOsc,
                sample_time: SampleTime::Cycles32,
            }),
    {
        Config {
            resolution: Resolution::Bits12,
            clock: ClockSource::ModOsc,
            sample_time: SampleTime::Cycles32,
        }
    }

    /// Sets the resolution.
    pub fn resolution(self, resolution: Resolution) -> (r: Self)
        ensures
            r == (Config { resolution, ..self }),
    {
        let mut r = self;
        r.resolution = resolution;
        r
    }

    /// Sets the conversion clock.
    pub fn clock(self, clock: ClockSource) -> (r: Self)
        ensures
            r == (Config { clock, ..self }),
    {
        let mut r = self;
        r.clock = clock;
        r
    }

    /// Sets the sample time.
    pub fn sample_time(self, sample_time: SampleTime) -> (r: Self)
        ensures
            r == (Config { sample_time, ..self }),
    {
        let mut r = self;
        r.sample_time = sample_time;
        r
    }
}

/// The set-up of the converter, with conversions disabled.
pub open spec fn init_script(config: Config) -> Seq<Step> {
    seq![
        Step::Edit16 { addr: ADC12CTL0, clear: ADC12ENC, set: 0 },
        Step::Write16 {
            addr: ADC12CTL0,
            value: (config.sample_time.field() * 0x100 + ADC12ON) as u16,
        },
        Step::Write16 {
            addr: ADC12CTL1,
            value: (ADC12SHP + match config.clock {
                ClockSource::ModOsc => 0int,
                ClockSource::Aclk => 0x08,
                ClockSource::Mclk => 0x10,
                ClockSource::Smclk => 0x18,
            }) as u16,
        },
        Step::Write16 {
            addr: ADC12CTL2,
            value: match config.resolution {
                Resolution::Bits8 => 0u16,
                Resolution::Bits10 => 0x10,
                Resolution::Bits12 => 0x20,
            },
        },
    ]
}

/// The word that connects an internal source.
pub open spec fn source_word(internal: Internal) -> u16 {
    match internal {
        Internal::Pin => 0,
        Internal::SupplyHalf => ADC12BATMAP,
        Internal::Temperature => ADC12TCMAP,
    }
}

/// The control word of a single conversion: the low five bits of the channel,
/// the reference, and the end mark.
pub open spec fn channel_word(channel: u8, refsel: RefSel) -> int {
    channel % 32 + ADC12EOS + if refsel == RefSel::VRef {
        ADC12VRSEL_VREF as int
    } else {
        0
    }
}

/// Selection of what to convert, with conversions disabled.
pub open spec fn program_script(channel: u8, internal: Internal, refsel: RefSel) -> Seq<Step> {
    seq![
        Step::Edit16 { addr: ADC12CTL0, clear: ADC12ENC, set: 0 },
        Step::Write16 { addr: ADC12CTL3, value: source_word(internal) },
        Step::Write16 { addr: ADC12MCTL0, value: channel_word(channel, refsel) as u16 },
    ]
}

/// The start of the selected conversion.
pub open spec fn go() -> Step {
    Step::Edit16 { addr: ADC12CTL0, clear: 0, set: ADC12ENC | ADC12SC }
}

/// The selection and the start of a conversion.
pub open spec fn arm_script(channel: u8, internal: Internal, refsel: RefSel) -> Seq<Step> {
    program_script(channel, internal, refsel).push(go())
}

/// The wait until the converter is idle.
pub open spec fn idle(patience: u64, met: bool) -> Step {
    Step::Poll16 { addr: ADC12CTL1, until: Cond::none_set(ADC12BUSY), budget: patience, met }
}

/// What a conversion that was waited for did.
pub open spec fn converted<H: Hardware>(
    pre: Bus<H>,
    post: Bus<H>,
    channel: u8,
    internal: Internal,
    refsel: RefSel,
    r: Result<u16, Stalled>,
) -> bool {
    match r {
        Ok(counts) => post.ran(
            pre,
            arm_script(channel, internal, refsel) + seq![
                idle(pre.patience(), true),
                Step::Read16 { addr: ADC12MEM0, value: counts },
            ],
        ),
        Err(_) => post.ran(
            pre,
            arm_script(channel, internal, refsel).push(idle(pre.patience(), false)),
        ),
    }
}

/// Millivolts of a result against `vref_mv`, to the nearest.
pub open spec fn millivolts_of(counts: u16, resolution: Resolution, vref_mv: u16) -> int {
    crate::num::nearest(counts * vref_mv, resolution.full_scale() as int)
}

/// The DMA job of a run: every result into the buffer.
pub open spec fn run_job(buf: WordSpan) -> Job {
    Job {
        src: ADC12MEM0 as u16,
        src_mode: AddrMode::Fixed,
        dst: buf.addr,
        dst_mode: AddrMode::Increment,
        bytes: false,
        count: buf.len,
    }
}

/// How a run of conversions ended.
pub enum RunEnd {
    /// The DMA channel did not collect every result.
    Uncollected,
    /// The converter did not become idle.
    Busy,
    /// All results are collected; one more came after them and was dropped.
    Done(u16),
}

/// Selection, repetition on, and the scrub of a stale DMA trigger with its
/// outcome.
pub open spec fn run_opening(
    n: u8,
    channel: u8,
    internal: Internal,
    refsel: RefSel,
    scratch: u16,
    met: bool,
    fired: bool,
) -> Seq<Step> {
    program_script(channel, internal, refsel) + seq![
        Step::Edit16 { addr: ADC12CTL1, clear: ADC12CONSEQ, set: CONSEQ_REPEAT },
        Step::Edit16 { addr: ADC12CTL0, clear: 0, set: ADC12MSC },
        Step::Scratch { addr: scratch },
    ] + crate::dma::scrub_script(
        n,
        TriggerSource::Adc12,
        ADC12MEM0 as u16,
        scratch,
        met,
        fired,
    )
}

/// The stop of a run and the return to single conversions.
pub open spec fn run_closing(patience: u64, end: RunEnd) -> Seq<Step> {
    let stop = Step::Edit16 { addr: ADC12CTL0, clear: ADC12ENC, set: 0 };
    match end {
        RunEnd::Uncollected => Seq::empty(),
        RunEnd::Busy => seq![stop, idle(patience, false)],
        RunEnd::Done(extra) => seq![
            stop,
            idle(patience, true),
            Step::Edit16 { addr: ADC12CTL0, clear: ADC12MSC, set: 0 },
            Step::Edit16 { addr: ADC12CTL1, clear: ADC12CONSEQ, set: 0 },
            Step::Read16 { addr: ADC12MEM0, value: extra },
        ],
    }
}

/// A run of conversions collected by DMA: the channel is armed before the
/// converter starts, so that the first result finds it listening.
pub open spec fn run_script(
    n: u8,
    opening: Seq<Step>,
    buf: WordSpan,
    patience: u64,
    end: RunEnd,
) -> Seq<Step> {
    opening + crate::dma::arm_script(n, TriggerSource::Adc12, run_job(buf)) + seq![go()]
        + crate::dma::finish_script(n, patience, !(end is Uncollected)) + run_closing(patience, end)
}

/// What a run of conversions did.
pub open spec fn ran_repeated<H: Hardware>(
    pre: Bus<H>,
    post: Bus<H>,
    n: u8,
    channel: u8,
    internal: Internal,
    refsel: RefSel,
    buf: WordSpan,
    done: bool,
) -> bool {
    if buf.len == 0 {
        done && post.ran(pre, Seq::empty())
    } else {
        exists|scratch: u16, met: bool, fired: bool, end: RunEnd|
            {
                &&& done == (end is Done)
                &&& post.ran(
                    pre,
                    #[trigger] run_script(
                        n,
                        run_opening(n, channel, internal, refsel, scratch, met, fired),
                        buf,
                        pre.patience(),
                        end,
                    ),
                )
            }
    }
}

/// The converter.
pub struct Adc {
    adc: Adc12,
    resolution: Resolution,
}

impl Adc {
    /// The configured resolution.
    pub closed spec fn bits(&self) -> Resolution {
        self.resolution
    }

    /// Configures the converter and turns it on.
    pub fn new<H: Hardware>(adc: Adc12, bus: &mut Bus<H>, config: Config) -> (r: Self)
        ensures
            r.bits() == config.resolution,
            final(bus).ran(*old(bus), init_script(config)),
    {
        bus.edit16(ADC12CTL0, ADC12ENC, 0);
        let sample: u16 = config.sample_time.code() as u16;
        bus.write16(ADC12CTL0, sample * 0x100 + ADC12ON);
        let clock: u16 = match config.clock {
            ClockSource::ModOsc => 0,
            ClockSource::Aclk => 0x08,
            ClockSource::Mclk => 0x10,
            ClockSource::Smclk => 0x18,
        };
        bus.write16(ADC12CTL1, ADC12SHP + clock);
        let bits: u16 = match config.resolution {
            Resolution::Bits8 => 0,
            Resolution::Bits10 => 0x10,
            Resolution::Bits12 => 0x20,
        };
        bus.write16(ADC12CTL2, bits);
        Adc { adc, resolution: config.resolution }
    }

    /// Converts a pin against the supply.
    pub fn read<H: Hardware, P: AdcPin>(&mut self, bus: &mut Bus<H>, _pin: &mut P) -> (r: Result<
        u16,
        Stalled,
    >)
        ensures
            *final(self) == *old(self),
            converted(*old(bus), *final(bus), P::CHANNEL, Internal::Pin, RefSel::Avcc, r),
    {
        self.read_channel(bus, P::CHANNEL)
    }

    /// Converts a pin against the reference.
    pub fn read_vref<H: Hardware, P: AdcPin>(
        &mut self,
        bus: &mut Bus<H>,
        _pin: &mut P,
        _vref: &Ref,
    ) -> (r: Result<u16, Stalled>)
        ensures
            *final(self) == *old(self),
            converted(*old(bus), *final(bus), P::CHANNEL, Internal::Pin, RefSel::VRef, r),
    {
        self.convert(bus, P::CHANNEL, Internal::Pin, RefSel::VRef)
    }

    /// Converts a channel against the supply.
    pub fn read_channel<H: Hardware>(&mut self, bus: &mut Bus<H>, channel: u8) -> (r: Result<
        u16,
        Stalled,
    >)
        ensures
            *final(self) == *old(self),
            converted(*old(bus), *final(bus), channel, Internal::Pin, RefSel::Avcc, r),
    {
        self.convert(bus, channel, Internal::Pin, RefSel::Avcc)
    }

    /// Converts half the supply against the supply: near half scale whatever
    /// the supply is.
    pub fn read_supply_half<H: Hardware>(&mut self, bus: &mut Bus<H>) -> (r: Result<u16, Stalled>)
        ensures
            *final(self) == *old(self),
            converted(*old(bus), *final(bus), 31, Internal::SupplyHalf, RefSel::Avcc, r),
    {
        self.convert(bus, 31, Internal::SupplyHalf, RefSel::Avcc)
    }

    /// Measures the supply in millivolts: half of it against the reference,
    /// doubled.
    pub fn read_supply_millivolts<H: Hardware>(&mut self, bus: &mut Bus<H>, vref: &Ref) -> (r:
        Result<u32, Stalled>)
        ensures
            *final(self) == *old(self),
            exists|counts: Result<u16, Stalled>|
                {
                    &&& #[trigger] converted(
                        *old(bus),
                        *final(bus),
                        31,
                        Internal::SupplyHalf,
                        RefSel::VRef,
                        counts,
                    )
                    &&& match counts {
                        Ok(c) => r matches Ok(mv) && mv == 2 * millivolts_of(
                            c,
                            old(self).bits(),
                            vref.level().nominal(),
                        ),
                        Err(_) => r is Err,
                    }
                },
    {
        match self.read_supply_raw_inner(bus) {
            Ok(counts) => {
                let half: u32 = self.to_millivolts(counts, vref);
                proof {
                    lemma_millivolts_small(counts, self.resolution, vref.level().nominal());
                }
                Ok(half * 2)
            },
            Err(e) => Err(e),
        }
    }

    /// Converts half the supply against the reference.
    pub fn read_supply_raw<H: Hardware>(&mut self, bus: &mut Bus<H>, _vref: &Ref) -> (r: Result<
        u16,
        Stalled,
    >)
        ensures
            *final(self) == *old(self),
            converted(*old(bus), *final(bus), 31, Internal::SupplyHalf, RefSel::VRef, r),
    {
        self.read_supply_raw_inner(bus)
    }

    fn read_supply_raw_inner<H: Hardware>(&mut self, bus: &mut Bus<H>) -> (r: Result<u16, Stalled>)
        ensures
            *final(self) == *old(self),
            converted(*old(bus), *final(bus), 31, Internal::SupplyHalf, RefSel::VRef, r),
    {
        self.convert(bus, 31, Internal::SupplyHalf, RefSel::VRef)
    }

    /// Converts the temperature sensor against the supply. Without the
    /// reference the sensor has no power and reads 0.
    pub fn read_temperature_raw<H: Hardware>(&mut self, bus: &mut Bus<H>) -> (r: Result<
        u16,
        Stalled,
    >)
        ensures
            *final(self) == *old(self),
            converted(*old(bus), *final(bus), 30, Internal::Temperature, RefSel::Avcc, r),
    {
        self.convert(bus, 30, Internal::Temperature, RefSel::Avcc)
    }

    /// Converts the temperature sensor against the reference that powers it.
    pub fn read_temperature<H: Hardware>(&mut self, bus: &mut Bus<H>, _vref: &Ref) -> (r: Result<
        u16,
        Stalled,
    >)
        ensures
            *final(self) == *old(self),
            converted(*old(bus), *final(bus), 30, Internal::Temperature, RefSel::VRef, r),
    {
        self.convert(bus, 30, Internal::Temperature, RefSel::VRef)
    }

    /// Measures the temperature in tenths of a degree, by the calibration
    /// points of the reference voltage; at 12 bits, as these are. `None` where
    /// the points do not ascend.
    pub fn read_temperature_deci_celsius<H: Hardware>(
        &mut self,
        bus: &mut Bus<H>,
        vref: &Ref,
        cal: &AdcCal,
    ) -> (r: Result<Option<i16>, Stalled>)
        ensures
            *final(self) == *old(self),
            exists|raw: Result<u16, Stalled>|
                {
                    &&& #[trigger] converted(
                        *old(bus),
                        *final(bus),
                        30,
                        Internal::Temperature,
                        RefSel::VRef,
                        raw,
                    )
                    &&& match raw {
                        Ok(counts) => r == Ok::<Option<i16>, Stalled>(
                            cal.temperature(vref.level(), counts),
                        ),
                        Err(_) => r is Err,
                    }
                },
    {
        match self.read_temperature(bus, vref) {
            Ok(raw) => Ok(cal.temp_deci_celsius(vref.voltage(), raw)),
            Err(e) => Err(e),
        }
    }

    /// Scales a result against the reference to millivolts.
    pub fn to_millivolts(&self, counts: u16, vref: &Ref) -> (r: u32)
        ensures
            r == millivolts_of(counts, self.bits(), vref.level().nominal()),
    {
        counts_to_millivolts(counts, self.resolution.max(), vref.millivolts())
    }

    fn convert<H: Hardware>(
        &mut self,
        bus: &mut Bus<H>,
        channel: u8,
        internal: Internal,
        refsel: RefSel,
    ) -> (r: Result<u16, Stalled>)
        ensures
            *final(self) == *old(self),
            converted(*old(bus), *final(bus), channel, internal, refsel, r),
    {
        self.arm(bus, channel, internal, refsel);
        if !bus.poll16(ADC12CTL1, Cond::Bits { mask: ADC12BUSY, want: 0 }) {
            return Err(Stalled);
        }
        Ok(bus.read16(ADC12MEM0))
    }

    fn arm<H: Hardware>(
        &mut self,
        bus: &mut Bus<H>,
        channel: u8,
        internal: Internal,
        refsel: RefSel,
    )
        ensures
            *final(self) == *old(self),
            final(bus).ran(*old(bus), arm_script(channel, internal, refsel)),
    {
        self.program(bus, channel, internal, refsel);
        bus.edit16(ADC12CTL0, 0, ADC12ENC | ADC12SC);
    }

    fn program<H: Hardware>(
        &mut self,
        bus: &mut Bus<H>,
        channel: u8,
        internal: Internal,
        refsel: RefSel,
    )
        ensures
            *final(self) == *old(self),
            final(bus).ran(*old(bus), program_script(channel, internal, refsel)),
    {
        bus.edit16(ADC12CTL0, ADC12ENC, 0);
        let source: u16 = match internal {
            Internal::Pin => 0,
            Internal::SupplyHalf => ADC12BATMAP,
            Internal::Temperature => ADC12TCMAP,
        };
        bus.write16(ADC12CTL3, source);
        let reference: u16 = match refsel {
            RefSel::Avcc => 0,
            RefSel::VRef => ADC12VRSEL_VREF,
        };
        bus.write16(ADC12MCTL0, (channel % 32) as u16 + ADC12EOS + reference);
    }

    /// Lets a finished conversion fire the vector.
    pub fn enable_conversion_interrupt<H: Hardware>(&mut self, bus: &mut Bus<H>)
        ensures
            *final(self) == *old(self),
            final(bus).ran(*old(bus), seq![Step::Edit16 { addr: ADC12IER0, clear: 0, set: ADC12IE0 }]),
    {
        bus.edit16(ADC12IER0, 0, ADC12IE0);
    }

    /// Returns to polling; a finished result stays.
    pub fn disable_conversion_interrupt<H: Hardware>(&mut self, bus: &mut Bus<H>)
        ensures
            *final(self) == *old(self),
            final(bus).ran(*old(bus), seq![Step::Edit16 { addr: ADC12IER0, clear: ADC12IE0, set: 0 }]),
    {
        bus.edit16(ADC12IER0, ADC12IE0, 0);
    }

    /// Starts the conversion of a pin against the supply and returns.
    pub fn start_conversion<H: Hardware, P: AdcPin>(&mut self, bus: &mut Bus<H>, _pin: &mut P)
        ensures
            *final(self) == *old(self),
            final(bus).ran(*old(bus), arm_script(P::CHANNEL, Internal::Pin, RefSel::Avcc)),
    {
        self.arm(bus, P::CHANNEL, Internal::Pin, RefSel::Avcc);
    }

    /// Starts the conversion of a channel against the supply and returns.
    pub fn start_channel<H: Hardware>(&mut self, bus: &mut Bus<H>, channel: u8)
        ensures
            *final(self) == *old(self),
            final(bus).ran(*old(bus), arm_script(channel, Internal::Pin, RefSel::Avcc)),
    {
        self.arm(bus, channel, Internal::Pin, RefSel::Avcc);
    }

    /// Starts the conversion of half the supply against the supply and
    /// returns.
    pub fn start_supply_half<H: Hardware>(&mut self, bus: &mut Bus<H>)
        ensures
            *final(self) == *old(self),
            final(bus).ran(*old(bus), arm_script(31, Internal::SupplyHalf, RefSel::Avcc)),
    {
        self.arm(bus, 31, Internal::SupplyHalf, RefSel::Avcc);
    }

    /// Turns the converter off, disabling conversions first, and gives the
    /// peripheral back.
    pub fn free<H: Hardware>(self, bus: &mut Bus<H>) -> (r: Adc12)
        ensures
            final(bus).ran(
                *old(bus),
                seq![
                    Step::Edit16 { addr: ADC12CTL0, clear: ADC12ENC, set: 0 },
                    Step::Edit16 { addr: ADC12CTL0, clear: ADC12ON, set: 0 },
                ],
            ),
    {
        bus.edit16(ADC12CTL0, ADC12ENC, 0);
        bus.edit16(ADC12CTL0, ADC12ON, 0);
        self.adc
    }

    /// Converts a pin against the supply until the buffer is full.
    pub fn read_repeated_dma<H: Hardware, P: AdcPin, const N: u8>(
        &mut self,
        bus: &mut Bus<H>,
        _pin: &mut P,
        ch: &mut Channel<N>,
        buf: WordSpan,
    ) -> (r: Result<(), Stalled>)
        ensures
            *final(self) == *old(self),
            ran_repeated(
                *old(bus),
                *final(bus),
                N,
                P::CHANNEL,
                Internal::Pin,
                RefSel::Avcc,
                buf,
                r is Ok,
            ),
    {
        self.read_repeated_dma_inner(bus, ch, P::CHANNEL, Internal::Pin, RefSel::Avcc, buf)
    }

    /// Converts half the supply against the supply until the buffer is full.
    pub fn read_supply_half_repeated_dma<H: Hardware, const N: u8>(
        &mut self,
        bus: &mut Bus<H>,
        ch: &mut Channel<N>,
        buf: WordSpan,
    ) -> (r: Result<(), Stalled>)
        ensures
            *final(self) == *old(self),
            ran_repeated(
                *old(bus),
                *final(bus),
                N,
                31,
                Internal::SupplyHalf,
                RefSel::Avcc,
                buf,
                r is Ok,
            ),
    {
        self.read_repeated_dma_inner(bus, ch, 31, Internal::SupplyHalf, RefSel::Avcc, buf)
    }

    /// Converts the temperature sensor against the reference until the buffer
    /// is full.
    pub fn read_temperature_repeated_dma<H: Hardware, const N: u8>(
        &mut self,
        bus: &mut Bus<H>,
        _vref: &Ref,
        ch: &mut Channel<N>,
        buf: WordSpan,
    ) -> (r: Result<(), Stalled>)
        ensures
            *final(self) == *old(self),
            ran_repeated(
                *old(bus),
                *final(bus),
                N,
                30,
                Internal::Temperature,
                RefSel::VRef,
                buf,
                r is Ok,
            ),
    {
        self.read_repeated_dma_inner(bus, ch, 30, Internal::Temperature, RefSel::VRef, buf)
    }

    fn read_repeated_dma_inner<H: Hardware, const N: u8>(
        &mut self,
        bus: &mut Bus<H>,
        ch: &mut Channel<N>,
        channel: u8,
        internal: Internal,
        refsel: RefSel,
        buf: WordSpan,
    ) -> (r: Result<(), Stalled>)
        ensures
            *final(self) == *old(self),
            ran_repeated(
                *old(bus),
                *final(bus),
                N,
                channel,
                internal,
                refsel,
                buf,
                r is Ok,
            ),
    {
        if buf.len == 0 {
            return Ok(());
        }
        let ghost patience = bus.patience();
        self.program(bus, channel, internal, refsel);
        bus.edit16(ADC12CTL1, ADC12CONSEQ, CONSEQ_REPEAT);
        bus.edit16(ADC12CTL0, 0, ADC12MSC);
        let scratch: u16 = bus.scratch();
        let ghost before = *bus;
        let fired: bool = ch.consume_stale_trigger_word(
            bus,
            TriggerSource::Adc12,
            ADC12MEM0 as u16,
            scratch,
        );
        let ghost met = choose|met: bool|
            bus.ran(
                before,
                #[trigger] crate::dma::scrub_script(
                    N,
                    TriggerSource::Adc12,
                    ADC12MEM0 as u16,
                    scratch,
                    met,
                    fired,
                ),
            );
        let ghost opening = run_opening(N, channel, internal, refsel, scratch, met, fired);
        assert(bus.ran(*old(bus), opening));
        ch.arm_single_words(
            bus,
            TriggerSource::Adc12,
            ADC12MEM0 as u16,
            AddrMode::Fixed,
            buf.addr,
            AddrMode::Increment,
            buf.len,
        );
        bus.edit16(ADC12CTL0, 0, ADC12ENC | ADC12SC);
        match ch.wait_done(bus) {
            Ok(_) => {},
            Err(e) => {
                assert(bus.ran(
                    *old(bus),
                    run_script(N, opening, buf, patience, RunEnd::Uncollected),
                ));
                return Err(e);
            },
        }
        bus.edit16(ADC12CTL0, ADC12ENC, 0);
        if !bus.poll16(ADC12CTL1, Cond::Bits { mask: ADC12BUSY, want: 0 }) {
            assert(bus.ran(
                *old(bus),
                run_script(N, opening, buf, patience, RunEnd::Busy),
            ));
            return Err(Stalled);
        }
        bus.edit16(ADC12CTL0, ADC12MSC, 0);
        bus.edit16(ADC12CTL1, ADC12CONSEQ, 0);
        let extra: u16 = bus.read16(ADC12MEM0);
        assert(bus.ran(
            *old(bus),
            run_script(N, opening, buf, patience, RunEnd::Done(extra)),
        ));
        Ok(())
    }
}

/// Millivolts stay far below what a word holds.
pub(crate) proof fn lemma_millivolts_small(counts: u16, resolution: Resolution, vref_mv: u16)
    requires
        vref_mv <= 2500,
    ensures
        0 <= millivolts_of(counts, resolution, vref_mv) < 0x4000_0000,
{
    let full = resolution.full_scale() as int;
    let p = counts * vref_mv;
    assert(0 <= p <= 65535 * 2500) by (nonlinear_arith)
        requires
            p == counts * vref_mv,
            0 <= counts <= 65535,
            0 <= vref_mv <= 2500,
    ;
    assert(0 <= (p + full / 2) / full <= p + full / 2) by (nonlinear_arith)
        requires
            p >= 0,
            full >= 1,
    ;
}

/// Reads the vector register: 12 when the first result is complete, 0 when
/// nothing is. The read clears the flag that it reports, without collecting
/// the result.
pub fn read_iv<H: Hardware>(bus: &mut Bus<H>) -> (iv: u16)
    ensures
        final(bus).ran(*old(bus), seq![Step::Read16 { addr: ADC12IV, value: iv }]),
{
    bus.read16(ADC12IV)
}

/// Collects the result, which clears its flag.
pub fn read_result<H: Hardware>(bus: &mut Bus<H>) -> (counts: u16)
    ensures
        final(bus).ran(*old(bus), seq![Step::Read16 { addr: ADC12MEM0, value: counts }]),
{
    bus.read16(ADC12MEM0)
}

/// Whether a conversion is complete.
pub fn conversion_pending<H: Hardware>(bus: &mut Bus<H>) -> (r: bool)
    ensures
        final(bus).ran(
            *old(bus),
            seq![Step::Test16 { addr: ADC12IFGR0, cond: Cond::all_set(ADC12IFG0), holds: r }],
        ),
{
    bus.is_set16(ADC12IFGR0, ADC12IFG0)
}

/// Marks the pins that the package wires to the converter.
pub trait Sealed {

}

/// A pin that feeds a converter channel.
pub trait AdcPin: Sealed {
    /// The channel.
    const CHANNEL: u8;
}

impl Sealed for Pin<P1, 0, Analog> {

}

impl AdcPin for Pin<P1, 0, Analog> {
    const CHANNEL: u8 = 0;
}

impl Sealed for Pin<P1, 1, Analog> {

}

impl AdcPin for Pin<P1, 1, Analog> {
    const CHANNEL: u8 = 1;
}

impl Sealed for Pin<P1, 2, Analog> {

}

impl AdcPin for Pin<P1, 2, Analog> {
    const CHANNEL: u8 = 2;
}

impl Sealed for Pin<P1, 3, Analog> {

}

impl AdcPin for Pin<P1, 3, Analog> {
    const CHANNEL: u8 = 3;
}

impl Sealed for Pin<P1, 4, Analog> {

}

impl AdcPin for Pin<P1, 4, Analog> {
    const CHANNEL: u8 = 4;
}

impl Sealed for Pin<P1, 5, Analog> {

}

impl AdcPin for Pin<P1, 5, Analog> {
    const CHANNEL: u8 = 5;
}

impl Sealed for Pin<P2, 3, Analog> {

}

impl AdcPin for Pin<P2, 3, Analog> {
    const CHANNEL: u8 = 6;
}

impl Sealed for Pin<P2, 4, Analog> {

}

impl AdcPin for Pin<P2, 4, Analog> {
    const CHANNEL: u8 = 7;
}

impl Sealed for Pin<P4, 0, Analog> {

}

impl AdcPin for Pin<P4, 0, Analog> {
    const CHANNEL: u8 = 8;
}

impl Sealed for Pin<P4, 1, Analog> {

}

impl AdcPin for Pin<P4, 1, Analog> {
    const CHANNEL: u8 = 9;
}

impl Sealed for Pin<P4, 2, Analog> {

}

impl AdcPin for Pin<P4, 2, Analog> {
    const CHANNEL: u8 = 10;
}

impl Sealed for Pin<P4, 3, Analog> {

}

impl AdcPin for Pin<P4, 3, Analog> {
    const CHANNEL: u8 = 11;
}

impl Sealed for Pin<P3, 0, Analog> {

}

impl AdcPin for Pin<P3, 0, Analog> {
    const CHANNEL: u8 = 12;
}

impl Sealed for Pin<P3, 1, Analog> {

}

impl AdcPin for Pin<P3, 1, Analog> {
    const CHANNEL: u8 = 13;
}

impl Sealed for Pin<P3, 2, Analog> {

}

impl AdcPin for Pin<P3, 2, Analog> {
    const CHANNEL: u8 = 14;
}

impl Sealed for Pin<P3, 3, Analog> {

}

impl AdcPin for Pin<P3, 3, Analog> {
    const CHANNEL: u8 = 15;
}

/// Whatever a conversion selects is selected while conversions are disabled:
/// the first step disables them, the last one enables them, and none in
/// between touches that.
pub proof fn lemma_selected_while_disabled(channel: u8, internal: Internal, refsel: RefSel)
    ensures
        ({
            let script = arm_script(channel, internal, refsel);
            &&& script.first() == (Step::Edit16 { addr: ADC12CTL0, clear: ADC12ENC, set: 0 })
            &&& script.last() == go()
            &&& forall|i: int| 0 < i < script.len() - 1 ==> match #[trigger] script[i] {
                Step::Write16 { addr, .. } => addr == ADC12CTL3 || addr == ADC12MCTL0,
                _ => false,
            }
        }),
{
}

/// Every result of a run goes to its own place in the buffer, in order.
pub proof fn lemma_run_covers(buf: WordSpan, k: int)
    requires
        0 <= k < buf.len,
    ensures
        run_job(buf).count == buf.len,
        run_job(buf).from(k) == ADC12MEM0,
        run_job(buf).to(k) == buf.addr + 2 * k,
{
}

/// Full scale is the reference voltage and zero is zero, at every resolution.
pub proof fn lemma_scale_ends(resolution: Resolution, vref_mv: u16)
    ensures
        millivolts_of(0, resolution, vref_mv) == 0,
        millivolts_of(resolution.full_scale(), resolution, vref_mv) == vref_mv,
{
    crate::adc_cal::lemma_millivolt_ends(resolution.full_scale(), vref_mv);
}

/// The clocks that the converter samples for, by its four-bit field.
pub open spec fn sampling_clocks(field: int) -> int {
    if field == 0 {
        4
    } else if field == 1 {
        8
    } else if field == 2 {
        16
    } else if field == 3 {
        32
    } else if field == 4 {
        64
    } else if field == 5 {
        96
    } else if field == 6 {
        128
    } else if field == 7 {
        192
    } else {
        256
    }
}

/// What the registers hold once the converter is set up, taken as it takes them:
/// on, not enabled, timed by its own sampling timer; the sample time in bits 11:8
/// of the first register, the clock in bits 4:3 of the second, the resolution in
/// bits 5:4 of the third, where 0 is eight bits and each step is two bits more.
/// Full scale is the largest number of that many bits.
pub proof fn lemma_converter_set_up(m: Memory, config: Config)
    ensures
        ({
            let after = crate::memory::memory_after(m, init_script(config));
            let first = crate::memory::word_in(after, 0x0800) as int;
            let second = crate::memory::word_in(after, 0x0802) as int;
            let third = crate::memory::word_in(after, 0x0804) as int;
            &&& first % 0x100 == 0x10
            &&& first / 0x1000 == 0
            &&& sampling_clocks(first / 0x100 % 16) == match config.sample_time {
                SampleTime::Cycles4 => 4int,
                SampleTime::Cycles8 => 8,
                SampleTime::Cycles16 => 16,
                SampleTime::Cycles32 => 32,
                SampleTime::Cycles64 => 64,
                SampleTime::Cycles128 => 128,
                SampleTime::Cycles256 => 256,
            }
            &&& second % 8 == 0
            &&& second / 8 % 4 == match config.clock {
                ClockSource::ModOsc => 0int,
                ClockSource::Aclk => 1,
                ClockSource::Mclk => 2,
                ClockSource::Smclk => 3,
            }
            &&& second / 32 == 16
            &&& third % 16 == 0
            &&& third / 16 == match config.resolution {
                Resolution::Bits8 => 0int,
                Resolution::Bits10 => 1,
                Resolution::Bits12 => 2,
            }
            &&& config.resolution.full_scale() + 1 == if third / 16 == 0 {
                256int
            } else if third / 16 == 1 {
                1024
            } else {
                4096
            }
        }),
{
    broadcast use crate::memory::group_memory;

    let script = init_script(config);
    crate::memory::lemma_memory_at(m, script);
    reveal_with_fuel(crate::memory::memory_at, 5);
    let first = (config.sample_time.field() * 0x100 + ADC12ON) as u16;
    let second = (ADC12SHP + match config.clock {
        ClockSource::ModOsc => 0int,
        ClockSource::Aclk => 0x08,
        ClockSource::Mclk => 0x10,
        ClockSource::Smclk => 0x18,
    }) as u16;
    let m1 = crate::memory::memory_at(m, script, 1);
    let m2 = crate::memory::put16(m1, 0x0800, first);
    let m3 = crate::memory::put16(m2, 0x0802, second);
    assert(crate::memory::memory_at(m, script, 3) == m3);
    assert(crate::memory::word_in(m2, 0x0800) == first);
    assert(crate::memory::word_in(m3, 0x0800) == first);
    assert(crate::memory::word_in(m3, 0x0802) == second);
}

/// What the registers hold when a conversion is started: the channel in bits 4:0
/// of the word at 0x0820, with bit 7 set, so that it is the only one, and bit 8
/// where it is against the reference; bit 6 of the word at 0x0806 puts half the
/// supply on its channel and bit 7 the temperature sensor. Bits 0 and 1 of the
/// first register are set, and its other bits are as they were.
pub proof fn lemma_conversion_started(m: Memory, channel: u8, internal: Internal, refsel: RefSel)
    requires
        channel <= 31,
    ensures
        ({
            let after = crate::memory::memory_after(m, arm_script(channel, internal, refsel));
            let map = crate::memory::word_in(after, 0x0806) as int;
            let word = crate::memory::word_in(after, 0x0820) as int;
            &&& word % 32 == channel
            &&& word / 32 % 4 == 0
            &&& word / 128 % 2 == 1
            &&& word / 256 == match refsel {
                RefSel::Avcc => 0int,
                RefSel::VRef => 1,
            }
            &&& map == match internal {
                Internal::Pin => 0int,
                Internal::SupplyHalf => 64,
                Internal::Temperature => 128,
            }
            &&& crate::memory::word_in(after, 0x0800) == crate::memory::word_in(m, 0x0800) | 3
        }),
{
    broadcast use crate::memory::group_memory;

    let script = arm_script(channel, internal, refsel);
    crate::memory::lemma_memory_at(m, script);
    reveal_with_fuel(crate::memory::memory_at, 5);
    assert(script.len() == 4);
    let w = crate::memory::word_in(m, 0x0800);
    let off = crate::bus::edited16(w, ADC12ENC, 0);
    let map = source_word(internal);
    let word = channel_word(channel, refsel) as u16;
    let m1 = crate::memory::put16(m, 0x0800, off);
    let m2 = crate::memory::put16(m1, 0x0806, map);
    let m3 = crate::memory::put16(m2, 0x0820, word);
    let m4 = crate::memory::put16(m3, 0x0800, crate::bus::edited16(off, 0, 2u16 | 1u16));
    assert(crate::memory::word_in(m1, 0x0800) == off);
    assert(crate::memory::word_in(m2, 0x0800) == off);
    assert(crate::memory::word_in(m3, 0x0800) == off);
    assert(crate::memory::memory_at(m, script, 4) == m4);
    assert(crate::memory::word_in(m2, 0x0806) == map);
    assert(crate::memory::word_in(m3, 0x0806) == map);
    assert(crate::memory::word_in(m4, 0x0806) == map);
    assert(crate::memory::word_in(m3, 0x0820) == word);
    assert(crate::memory::word_in(m4, 0x0820) == word);
    assert((((w & !2u16) | 0) & !0u16) | (2u16 | 1u16) == w | 3) by (bit_vector);
}

/// A conversion is over when bit 0 of the word at 0x0802 is clear, and its result
/// is the word at 0x0860.
pub proof fn lemma_result_read<H: Hardware>(
    pre: Bus<H>,
    post: Bus<H>,
    channel: u8,
    internal: Internal,
    refsel: RefSel,
    counts: u16,
)
    requires
        converted(pre, post, channel, internal, refsel, Ok(counts)),
    ensures
        post@.len() == pre@.len() + 6,
        post@[pre@.len() + 4int] == (Step::Poll16 {
            addr: 0x0802,
            until: Cond::Bits { mask: 1, want: 0 },
            budget: pre.patience(),
            met: true,
        }),
        post@[pre@.len() + 5int] == (Step::Read16 { addr: 0x0860, value: counts }),
{
}

/// A run repeats one channel by itself (2 in bits 2:1 of the second register,
/// bit 7 of the first), and afterwards the converter is disabled and converts
/// once.
pub proof fn lemma_run_on_registers(
    m: Memory,
    n: u8,
    channel: u8,
    internal: Internal,
    refsel: RefSel,
    scratch: u16,
    met: bool,
    fired: bool,
    patience: u64,
    extra: u16,
)
    ensures
        ({
            let opening = run_opening(n, channel, internal, refsel, scratch, met, fired);
            let opened = crate::memory::memory_after(m, opening.subrange(3, 5));
            let closed = crate::memory::memory_after(
                m,
                run_closing(patience, RunEnd::Done(extra)),
            );
            &&& crate::memory::word_in(opened, 0x0802) & 6 == 4
            &&& crate::memory::word_in(opened, 0x0800) & 0x80 == 0x80
            &&& crate::memory::word_in(closed, 0x0802) & 6 == 0
            &&& crate::memory::word_in(closed, 0x0800) & 0x82 == 0
        }),
{
    broadcast use crate::memory::group_memory;

    let open = run_opening(n, channel, internal, refsel, scratch, met, fired).subrange(3, 5);
    assert(open[0] == (Step::Edit16 { addr: ADC12CTL1, clear: ADC12CONSEQ, set: CONSEQ_REPEAT }));
    assert(open[1] == (Step::Edit16 { addr: ADC12CTL0, clear: 0, set: ADC12MSC }));
    let close = run_closing(patience, RunEnd::Done(extra));
    crate::memory::lemma_memory_at(m, open);
    crate::memory::lemma_memory_at(m, close);
    reveal_with_fuel(crate::memory::memory_at, 6);
    let c0 = crate::memory::word_in(m, 0x0800);
    let c1 = crate::memory::word_in(m, 0x0802);
    let a = crate::bus::edited16(c1, 6, 4);
    let b = crate::bus::edited16(c0, 0, 0x80);
    let o1 = crate::memory::put16(m, 0x0802, a);
    let o2 = crate::memory::put16(o1, 0x0800, b);
    assert(crate::memory::word_in(o1, 0x0800) == c0);
    assert(crate::memory::word_in(o1, 0x0802) == a);
    assert(crate::memory::word_in(o2, 0x0802) == a);
    assert(crate::memory::word_in(o2, 0x0800) == b);
    let p = crate::bus::edited16(c0, 2, 0);
    let q = crate::bus::edited16(p, 0x80, 0);
    let r = crate::bus::edited16(c1, 6, 0);
    let k1 = crate::memory::put16(m, 0x0800, p);
    let k2 = crate::memory::put16(k1, 0x0800, q);
    let k3 = crate::memory::put16(k2, 0x0802, r);
    assert(crate::memory::word_in(k1, 0x0800) == p);
    assert(crate::memory::word_in(k1, 0x0802) == c1);
    assert(crate::memory::word_in(k2, 0x0802) == c1);
    assert(crate::memory::word_in(k2, 0x0800) == q);
    assert(crate::memory::word_in(k3, 0x0800) == q);
    assert(crate::memory::word_in(k3, 0x0802) == r);
    assert(((c1 & !6u16) | 4) & 6 == 4 && ((c0 & !0u16) | 0x80) & 0x80 == 0x80 && ((c1 & !6u16) | 0)
        & 6 == 0 && ((((c0 & !2u16) | 0) & !0x80u16) | 0) & 0x82 == 0) by (bit_vector);
}

/// The channel of each pin that has one.
pub proof fn lemma_pin_channels()
    ensures
        <Pin<P1, 0, Analog> as AdcPin>::CHANNEL == 0,
        <Pin<P1, 1, Analog> as AdcPin>::CHANNEL == 1,
        <Pin<P1, 2, Analog> as AdcPin>::CHANNEL == 2,
        <Pin<P1, 3, Analog> as AdcPin>::CHANNEL == 3,
        <Pin<P1, 4, Analog> as AdcPin>::CHANNEL == 4,
        <Pin<P1, 5, Analog> as AdcPin>::CHANNEL == 5,
        <Pin<P2, 3, Analog> as AdcPin>::CHANNEL == 6,
        <Pin<P2, 4, Analog> as AdcPin>::CHANNEL == 7,
        <Pin<P4, 0, Analog> as AdcPin>::CHANNEL == 8,
        <Pin<P4, 1, Analog> as AdcPin>::CHANNEL == 9,
        <Pin<P4, 2, Analog> as AdcPin>::CHANNEL == 10,
        <Pin<P4, 3, Analog> as AdcPin>::CHANNEL == 11,
        <Pin<P3, 0, Analog> as AdcPin>::CHANNEL == 12,
        <Pin<P3, 1, Analog> as AdcPin>::CHANNEL == 13,
        <Pin<P3, 2, Analog> as AdcPin>::CHANNEL == 14,
        <Pin<P3, 3, Analog> as AdcPin>::CHANNEL == 15,
{
}

/// Millivolts are the share of the reference that the counts are of full scale,
/// to half a millivolt.
pub proof fn lemma_millivolts_share(counts: u16, resolution: Resolution, vref_mv: u16)
    ensures
        ({
            let full = match resolution {
                Resolution::Bits8 => 255int,
                Resolution::Bits10 => 1023,
                Resolution::Bits12 => 4095,
            };
            let mv = millivolts_of(counts, resolution, vref_mv);
            -full <= 2 * (mv * full - counts * vref_mv) <= full
        }),
{
    crate::num::lemma_nearest(counts * vref_mv, resolution.full_scale() as int);
}

/// Where the registers lie, and which bits and values they have.
pub proof fn lemma_layout()
    ensures
        ADC12CTL0 == 0x0800,
        ADC12CTL1 == 0x0802,
        ADC12CTL2 == 0x0804,
        ADC12CTL3 == 0x0806,
        ADC12IFGR0 == 0x080C,
        ADC12IER0 == 0x0812,
        ADC12IV == 0x0818,
        ADC12MCTL0 == 0x0820,
        ADC12MEM0 == 0x0860,
        ADC12SC == 1,
        ADC12ENC == 2,
        ADC12ON == 16,
        ADC12MSC == 128,
        ADC12BUSY == 1,
        ADC12CONSEQ == 6,
        CONSEQ_REPEAT == 4,
        ADC12SHP == 0x0200,
        ADC12BATMAP == 64,
        ADC12TCMAP == 128,
        ADC12EOS == 128,
        ADC12VRSEL_VREF == 0x0100,
        ADC12IFG0 == 1,
        ADC12IE0 == 1,
{
}

/// A run is ended in order: the converter is disabled (bit 1 of the first register),
/// it comes to rest (bit 0 of the second), it goes back to single conversions, and
/// the result that came too late is dropped. Before it a run collects every word
/// from 0x0860 by the converter's own trigger.
pub proof fn lemma_run_ends(patience: u64, extra: u16, buf: WordSpan, k: int)
    requires
        0 <= k < buf.len,
    ensures
        ({
            let script = run_closing(patience, RunEnd::Done(extra));
            &&& script.len() == 5
            &&& script[0] == (Step::Edit16 { addr: 0x0800, clear: 2, set: 0 })
            &&& script[1] == (Step::Poll16 {
                addr: 0x0802,
                until: Cond::Bits { mask: 1, want: 0 },
                budget: patience,
                met: true,
            })
            &&& script[4] == (Step::Read16 { addr: 0x0860, value: extra })
        }),
        run_job(buf).from(k) == 0x0860,
        run_job(buf).to(k) == buf.addr + 2 * k,
        run_job(buf).count == buf.len,
{
}

} // verus!
