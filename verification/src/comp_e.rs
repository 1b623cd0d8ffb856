//! Comp_E, the analog comparator.
//!
//! The comparator needs no clock: it compares in every low-power mode, and an
//! edge of its output can wake the CPU. This driver puts the watched channel
//! on V+ and the threshold on V-, so that [`CompE::output`] reads `true` while
//! the input is above the threshold.
//!
//! The threshold comes from the reference block ([`Threshold`]): a ladder of
//! 32 taps fed by the supply or by the shared reference, or that reference
//! itself. The ladder has two tap registers, one for each state of the
//! output, which gives hysteresis.
//!
//! Flags and enables share `CEINT`; every change to it from thread mode runs
//! inside a critical section, because the read of the vector register in the
//! interrupt handler clears flags at the same time.
use vstd::prelude::*;

use crate::bus::{Bus, Cond, Edit, Hardware, Step};
use crate::gpio::{Analog, Pin, P1, P3};
use crate::memory::Memory;
use crate::pac::ComparatorE;
use crate::ref_a::ReferenceVoltage;
pub use crate::comp_ladder::{ladder_millivolts, tap_for_millivolts, LADDER_TAPS};

verus! {

broadcast use crate::trace::group_growth;

/// Input selection.
pub const CECTL0: u32 = 0x08C0;

/// Mode, filter, polarity, output.
pub const CECTL1: u32 = 0x08C2;

/// Reference selection.
pub const CECTL2: u32 = 0x08C4;

/// Channel connections.
pub const CECTL3: u32 = 0x08C6;

/// Interrupt flags and enables.
pub const CEINT: u32 = 0x08CC;

/// Interrupt vector.
pub const CEIV: u32 = 0x08CE;

/// V+ input enable.
pub const CEIPEN: u16 = 0x0080;

/// Output level.
pub const CEOUT: u16 = 0x0001;

/// Output polarity.
pub const CEOUTPOL: u16 = 0x0002;

/// Output filter.
pub const CEF: u16 = 0x0004;

/// Edge of `CEIFG`: rising when clear.
pub const CEIES: u16 = 0x0008;

/// Exchange of the inputs.
pub const CEEX: u16 = 0x0020;

/// Comparator on.
pub const CEON: u16 = 0x0400;

/// Reference to V-.
pub const CERSEL: u16 = 0x0020;

/// Both tap fields of `CECTL2`.
pub const CEREF_MASK: u16 = 0x1F1F;

/// Both edge flags.
pub const CEINT_FLAGS: u16 = 0x0003;

/// Both edge enables.
pub const CEINT_ENABLES: u16 = 0x0300;

/// The trade between speed and current.
#[derive(Clone, Copy, PartialEq, Eq, Structural, Debug)]
pub enum PowerMode {
    /// Fastest response, highest current.
    HighSpeed,
    /// The middle setting.
    Normal,
    /// Slowest, for watching a threshold during sleep.
    UltraLowPower,
}

/// Suppression of output pulses that are shorter than the delay.
#[derive(Clone, Copy, PartialEq, Eq, Structural, Debug)]
pub enum FilterDelay {
    /// About 450 ns.
    Ns450,
    /// About 900 ns.
    Ns900,
    /// About 1800 ns.
    Ns1800,
    /// About 3600 ns.
    Ns3600,
}

/// What V- compares against.
#[derive(Clone, Copy, PartialEq, Eq, Structural, Debug)]
pub enum Threshold {
    /// The ladder fed by the supply: fractions of it. `rising_tap` holds while
    /// the output is low, `falling_tap` while it is high.
    VccLadder { rising_tap: u8, falling_tap: u8 },
    /// The ladder fed by the shared reference: absolute voltages.
    RefLadder { level: ReferenceVoltage, rising_tap: u8, falling_tap: u8 },
    /// The shared reference itself.
    RefDirect { level: ReferenceVoltage },
}

impl Threshold {
    /// Supply ladder without hysteresis: flips at `(tap + 1) / 32` of it.
    pub fn vcc_ladder(tap: u8) -> (r: Self)
        ensures
            r == (Threshold::VccLadder { rising_tap: tap, falling_tap: tap }),
    {
        Threshold::VccLadder { rising_tap: tap, falling_tap: tap }
    }

    /// Supply ladder with hysteresis.
    pub fn vcc_ladder_hysteresis(rising_tap: u8, falling_tap: u8) -> (r: Self)
        ensures
            r == (Threshold::VccLadder { rising_tap, falling_tap }),
    {
        Threshold::VccLadder { rising_tap, falling_tap }
    }

    /// Reference ladder without hysteresis.
    pub fn ref_ladder(level: ReferenceVoltage, tap: u8) -> (r: Self)
        ensures
            r == (Threshold::RefLadder { level, rising_tap: tap, falling_tap: tap }),
    {
        Threshold::RefLadder { level, rising_tap: tap, falling_tap: tap }
    }

    /// Supply ladder at the tap closest to `threshold_mv` for the given
    /// supply.
    pub fn vcc_ladder_millivolts(threshold_mv: u16, avcc_mv: u16) -> (r: Self)
        ensures
            ({
                let tap = crate::comp_ladder::tap_for(threshold_mv as int, avcc_mv as int) as u8;
                r == (Threshold::VccLadder { rising_tap: tap, falling_tap: tap })
            }),
    {
        Threshold::vcc_ladder(tap_for_millivolts(threshold_mv, avcc_mv))
    }

    /// The word for `CECTL2`: reference to V-, ladder source, reference level,
    /// and the low five bits of each tap.
    pub open spec fn word(self) -> int {
        CERSEL + match self {
            Threshold::VccLadder { rising_tap, falling_tap } => 0x40 + taps_field(
                rising_tap,
                falling_tap,
            ),
            Threshold::RefLadder { level, rising_tap, falling_tap } => 0x80 + level_field(level)
                + taps_field(rising_tap, falling_tap),
            Threshold::RefDirect { level } => 0xC0 + level_field(level),
        }
    }
}

/// Both tap fields.
pub open spec fn taps_field(rising_tap: u8, falling_tap: u8) -> int {
    rising_tap % 32 + 256 * (falling_tap % 32)
}

/// The reference level field.
pub open spec fn level_field(level: ReferenceVoltage) -> int {
    0x2000 * (level.position() + 1)
}

/// Everything about the comparator but its signal routing.
#[derive(Clone, Copy, Debug)]
pub struct Config {
    /// Speed against current.
    pub power_mode: PowerMode,
    /// Output filter.
    pub filter: Option<FilterDelay>,
    /// Whether the output is inverted.
    pub invert_output: bool,
}

impl Default for Config {
    /// Normal power mode, no filter, output not inverted.
    fn default() -> (r: Self)
        ensures
            r == (Config {
                power_mode: PowerMode::Normal,
                filter: None::<FilterDelay>,
                invert_output: false,
            }),
    {
        Config { power_mode: PowerMode::Normal, filter: None, invert_output: false }
    }
}

impl Config {
    /// Selects the power mode.
    pub fn power_mode(self, mode: PowerMode) -> (r: Self)
        ensures
            r == (Config { power_mode: mode, ..self }),
    {
        Config { power_mode: mode, filter: self.filter, invert_output: self.invert_output }
    }

    /// Enables the output filter.
    pub fn filter(self, delay: FilterDelay) -> (r: Self)
        ensures
            r == (Config { filter: Some(delay), ..self }),
    {
        Config {
            power_mode: self.power_mode,
            filter: Some(delay),
            invert_output: self.invert_output,
        }
    }

    /// Inverts the output: it then reads 1 while the input is below the
    /// threshold.
    pub fn invert_output(self) -> (r: Self)
        ensures
            r == (Config { invert_output: true, ..self }),
    {
        Config { power_mode: self.power_mode, filter: self.filter, invert_output: true }
    }

    /// The word for `CECTL1`, with the comparator off.
    pub open spec fn word(self) -> int {
        (match self.power_mode {
            PowerMode::HighSpeed => 0int,
            PowerMode::Normal => 0x100,
            PowerMode::UltraLowPower => 0x200,
        }) + (match self.filter {
            None => 0,
            Some(FilterDelay::Ns450) => CEF as int,
            Some(FilterDelay::Ns900) => CEF + 0x40,
            Some(FilterDelay::Ns1800) => CEF + 0x80,
            Some(FilterDelay::Ns3600) => CEF + 0xC0,
        }) + if self.invert_output {
            CEOUTPOL as int
        } else {
            0
        }
    }
}

/// Routing of a channel: comparator off, channel to V+, channel connected,
/// threshold to V-, comparator on.
pub open spec fn route_script(channel: u8, threshold: Threshold) -> Seq<Step> {
    seq![
        Step::Edit16 { addr: CECTL1, clear: CEON, set: 0 },
        Step::Write16 { addr: CECTL0, value: (channel + CEIPEN) as u16 },
        Step::Edit16 { addr: CECTL3, clear: 0, set: 1u16 << channel },
        Step::Write16 { addr: CECTL2, value: threshold.word() as u16 },
        Step::Edit16 { addr: CECTL1, clear: 0, set: CEON },
    ]
}

/// Both edge enables cleared, inside a critical section.
pub open spec fn disarm_step() -> Step {
    Step::Masked {
        first: Edit::Update { addr: CEINT, clear: CEINT_ENABLES, set: 0 },
        second: None,
    }
}

/// The comparator.
pub struct CompE {
    ce: ComparatorE,
}

impl CompE {
    /// Programs the configuration; the comparator stays off until an input is
    /// watched.
    pub fn new<H: Hardware>(ce: ComparatorE, bus: &mut Bus<H>, config: Config) -> (r: Self)
        ensures
            final(bus).ran(
                *old(bus),
                seq![Step::Write16 { addr: CECTL1, value: config.word() as u16 }],
            ),
    {
        let mode: u16 = match config.power_mode {
            PowerMode::HighSpeed => 0,
            PowerMode::Normal => 0x100,
            PowerMode::UltraLowPower => 0x200,
        };
        let filter: u16 = match config.filter {
            None => 0,
            Some(FilterDelay::Ns450) => CEF,
            Some(FilterDelay::Ns900) => CEF + 0x40,
            Some(FilterDelay::Ns1800) => CEF + 0x80,
            Some(FilterDelay::Ns3600) => CEF + 0xC0,
        };
        let polarity: u16 = if config.invert_output { CEOUTPOL } else { 0 };
        bus.write16(CECTL1, mode + filter + polarity);
        CompE { ce }
    }

    /// Watches a pin in analog mode and turns the comparator on.
    pub fn watch_pin<H: Hardware, P: CompPin>(
        &mut self,
        bus: &mut Bus<H>,
        _pin: &P,
        threshold: Threshold,
    )
        ensures
            final(bus).ran(*old(bus), route_script(P::CHANNEL, threshold)),
    {
        proof {
            P::channel_fits();
        }
        self.route(bus, P::CHANNEL, threshold);
    }

    /// Watches a channel by number without touching the pin; of the number the
    /// low four bits count.
    pub fn watch_channel<H: Hardware>(
        &mut self,
        bus: &mut Bus<H>,
        channel: u8,
        threshold: Threshold,
    )
        ensures
            final(bus).ran(*old(bus), route_script((channel % 16) as u8, threshold)),
    {
        self.route(bus, channel % 16, threshold);
    }

    fn route<H: Hardware>(&mut self, bus: &mut Bus<H>, channel: u8, threshold: Threshold)
        requires
            channel < 16,
        ensures
            final(bus).ran(*old(bus), route_script(channel, threshold)),
    {
        bus.edit16(CECTL1, CEON, 0);
        bus.write16(CECTL0, channel as u16 + CEIPEN);
        bus.edit16(CECTL3, 0, 1u16 << channel);
        let word: u16 = match threshold {
            Threshold::VccLadder { rising_tap, falling_tap } => CERSEL + 0x40 + taps_word(
                rising_tap,
                falling_tap,
            ),
            Threshold::RefLadder { level, rising_tap, falling_tap } => CERSEL + 0x80 + level_word(
                level,
            ) + taps_word(rising_tap, falling_tap),
            Threshold::RefDirect { level } => CERSEL + 0xC0 + level_word(level),
        };
        bus.write16(CECTL2, word);
        bus.edit16(CECTL1, 0, CEON);
    }

    /// Moves both taps of a routed threshold while the comparator runs.
    pub fn set_taps<H: Hardware>(&mut self, bus: &mut Bus<H>, rising_tap: u8, falling_tap: u8)
        ensures
            final(bus).ran(
                *old(bus),
                seq![
                    Step::Edit16 {
                        addr: CECTL2,
                        clear: CEREF_MASK,
                        set: taps_field(rising_tap, falling_tap) as u16,
                    },
                ],
            ),
    {
        bus.edit16(CECTL2, CEREF_MASK, taps_word(rising_tap, falling_tap));
    }

    /// The output level after polarity and filter.
    pub fn output<H: Hardware>(&self, bus: &mut Bus<H>) -> (high: bool)
        ensures
            final(bus).ran(
                *old(bus),
                seq![Step::Test16 { addr: CECTL1, cond: Cond::all_set(CEOUT), holds: high }],
            ),
    {
        bus.is_set16(CECTL1, CEOUT)
    }

    /// Exchanges the inputs and inverts the output with them, which keeps the
    /// comparison and changes the sign of the input offset.
    pub fn exchange_inputs<H: Hardware>(&mut self, bus: &mut Bus<H>, exchange: bool)
        ensures
            final(bus).ran(
                *old(bus),
                seq![
                    Step::Edit16 {
                        addr: CECTL1,
                        clear: CEEX,
                        set: if exchange {
                            CEEX
                        } else {
                            0
                        },
                    },
                ],
            ),
    {
        bus.edit16(CECTL1, CEEX, if exchange { CEEX } else { 0 });
    }

    /// Clears both latched edge flags.
    pub fn clear_pending_interrupts<H: Hardware>(&mut self, bus: &mut Bus<H>)
        ensures
            final(bus).ran(
                *old(bus),
                seq![
                    Step::Masked {
                        first: Edit::Update { addr: CEINT, clear: CEINT_FLAGS, set: 0 },
                        second: None,
                    },
                ],
            ),
    {
        bus.masked_edit16(CEINT, CEINT_FLAGS, 0);
    }

    /// Arms the vector for both output edges: the edge select first, which can
    /// itself latch a flag, then both flags cleared and both enables set.
    pub fn enable_output_interrupts<H: Hardware>(&mut self, bus: &mut Bus<H>)
        ensures
            final(bus).ran(
                *old(bus),
                seq![
                    Step::Masked {
                        first: Edit::Update { addr: CECTL1, clear: CEIES, set: 0 },
                        second: Some(
                            Edit::Update { addr: CEINT, clear: CEINT_FLAGS, set: CEINT_ENABLES },
                        ),
                    },
                ],
            ),
    {
        bus.masked(
            Edit::Update { addr: CECTL1, clear: CEIES, set: 0 },
            Some(Edit::Update { addr: CEINT, clear: CEINT_FLAGS, set: CEINT_ENABLES }),
        );
    }

    /// Disarms both output edges; latched flags stay.
    pub fn disable_output_interrupts<H: Hardware>(&mut self, bus: &mut Bus<H>)
        ensures
            final(bus).ran(*old(bus), seq![disarm_step()]),
    {
        bus.masked_edit16(CEINT, CEINT_ENABLES, 0);
    }

    /// Turns the comparator off, disarms it and gives the peripheral back.
    pub fn free<H: Hardware>(self, bus: &mut Bus<H>) -> (r: ComparatorE)
        ensures
            final(bus).ran(
                *old(bus),
                seq![Step::Edit16 { addr: CECTL1, clear: CEON, set: 0 }, disarm_step()],
            ),
    {
        bus.edit16(CECTL1, CEON, 0);
        bus.masked_edit16(CEINT, CEINT_ENABLES, 0);
        self.ce
    }
}

/// Both tap fields.
fn taps_word(rising_tap: u8, falling_tap: u8) -> (r: u16)
    ensures
        r == taps_field(rising_tap, falling_tap),
        r <= 0x1F1F,
{
    (rising_tap % 32) as u16 + 256 * (falling_tap % 32) as u16
}

/// The reference level field.
fn level_word(level: ReferenceVoltage) -> (r: u16)
    ensures
        r == level_field(level),
{
    match level {
        ReferenceVoltage::V1_2 => 0x2000,
        ReferenceVoltage::V2_0 => 0x4000,
        ReferenceVoltage::V2_5 => 0x6000,
    }
}

/// Vector value: the output rose.
pub const IV_OUTPUT_ROSE: u16 = 0x0002;

/// Vector value: the output fell.
pub const IV_OUTPUT_FELL: u16 = 0x0004;

/// Reads the vector register, which clears the flag that it reports; 0 when
/// nothing is pending.
pub fn read_iv<H: Hardware>(bus: &mut Bus<H>) -> (iv: u16)
    ensures
        final(bus).ran(*old(bus), seq![Step::Read16 { addr: CEIV, value: iv }]),
{
    bus.read16(CEIV)
}

/// Marks the pins that the package wires to the comparator.
pub trait Sealed {

}

/// A pin that feeds a comparator channel.
pub trait CompPin: Sealed {
    /// The channel.
    const CHANNEL: u8;

    /// There are sixteen channels.
    proof fn channel_fits()
        ensures
            Self::CHANNEL < 16,
    ;
}

impl Sealed for Pin<P1, 0, Analog> {

}

impl CompPin for Pin<P1, 0, Analog> {
    const CHANNEL: u8 = 0;

    proof fn channel_fits() {
    }
}

impl Sealed for Pin<P1, 1, Analog> {

}

impl CompPin for Pin<P1, 1, Analog> {
    const CHANNEL: u8 = 1;

    proof fn channel_fits() {
    }
}

impl Sealed for Pin<P1, 2, Analog> {

}

impl CompPin for Pin<P1, 2, Analog> {
    const CHANNEL: u8 = 2;

    proof fn channel_fits() {
    }
}

impl Sealed for Pin<P1, 3, Analog> {

}

impl CompPin for Pin<P1, 3, Analog> {
    const CHANNEL: u8 = 3;

    proof fn channel_fits() {
    }
}

impl Sealed for Pin<P1, 4, Analog> {

}

impl CompPin for Pin<P1, 4, Analog> {
    const CHANNEL: u8 = 4;

    proof fn channel_fits() {
    }
}

impl Sealed for Pin<P1, 5, Analog> {

}

impl CompPin for Pin<P1, 5, Analog> {
    const CHANNEL: u8 = 5;

    proof fn channel_fits() {
    }
}

impl Sealed for Pin<P3, 0, Analog> {

}

impl CompPin for Pin<P3, 0, Analog> {
    const CHANNEL: u8 = 12;

    proof fn channel_fits() {
    }
}

impl Sealed for Pin<P3, 1, Analog> {

}

impl CompPin for Pin<P3, 1, Analog> {
    const CHANNEL: u8 = 13;

    proof fn channel_fits() {
    }
}

impl Sealed for Pin<P3, 2, Analog> {

}

impl CompPin for Pin<P3, 2, Analog> {
    const CHANNEL: u8 = 14;

    proof fn channel_fits() {
    }
}

impl Sealed for Pin<P3, 3, Analog> {

}

impl CompPin for Pin<P3, 3, Analog> {
    const CHANNEL: u8 = 15;

    proof fn channel_fits() {
    }
}

/// The comparator is off whenever its inputs or its reference are rerouted,
/// and on again at the end.
pub proof fn lemma_rerouted_while_off(channel: u8, threshold: Threshold)
    ensures
        ({
            let script = route_script(channel, threshold);
            &&& script.first() == (Step::Edit16 { addr: CECTL1, clear: CEON, set: 0 })
            &&& script.last() == (Step::Edit16 { addr: CECTL1, clear: 0, set: CEON })
            &&& forall|i: int| 0 < i < script.len() - 1 ==> match #[trigger] script[i] {
                Step::Write16 { addr, .. } => addr != CECTL1,
                Step::Edit16 { addr, .. } => addr != CECTL1,
                _ => false,
            }
        }),
{
}

/// The reference word of a threshold fits its register and tells apart any
/// two thresholds with taps in range.
pub proof fn lemma_threshold_words_differ(a: Threshold, b: Threshold)
    requires
        a.word() == b.word(),
        in_range(a),
        in_range(b),
    ensures
        a == b,
        0 <= a.word() <= u16::MAX,
{
}

/// The taps of the threshold exist.
pub open spec fn in_range(threshold: Threshold) -> bool {
    match threshold {
        Threshold::VccLadder { rising_tap, falling_tap } => rising_tap < 32 && falling_tap < 32,
        Threshold::RefLadder { rising_tap, falling_tap, .. } => rising_tap < 32 && falling_tap < 32,
        Threshold::RefDirect { .. } => true,
    }
}

/// What the comparator makes of a threshold's word: the reference goes to the
/// minus input (bit 5), and it is the supply through the ladder (1 in bits 7:6),
/// the shared reference through the ladder (2) or the shared reference itself
/// (3). The shared reference has the voltage that bits 14:13 name (1 is 1.2 V, 2
/// is 2.0 V, 3 is 2.5 V). The tap in bits 4:0 holds while the output is low, that
/// in bits 12:8 while it is high.
pub proof fn lemma_threshold_decoded(threshold: Threshold)
    requires
        in_range(threshold),
    ensures
        ({
            let word = threshold.word();
            let low = word % 32;
            let high = word / 0x100 % 32;
            let level = word / 0x2000;
            &&& word / 32 % 2 == 1
            &&& match threshold {
                Threshold::VccLadder { rising_tap, falling_tap } => {
                    &&& word / 64 % 4 == 1
                    &&& low == rising_tap
                    &&& high == falling_tap
                    &&& level == 0
                },
                Threshold::RefLadder { level: wanted, rising_tap, falling_tap } => {
                    &&& word / 64 % 4 == 2
                    &&& low == rising_tap
                    &&& high == falling_tap
                    &&& level_millivolts(level) == wanted.nominal()
                },
                Threshold::RefDirect { level: wanted } => {
                    &&& word / 64 % 4 == 3
                    &&& level_millivolts(level) == wanted.nominal()
                },
            }
        }),
{
    match threshold {
        Threshold::VccLadder { rising_tap, falling_tap } => {
            lemma_fields(1, rising_tap as int, falling_tap as int, 0);
        },
        Threshold::RefLadder { level, rising_tap, falling_tap } => {
            lemma_fields(2, rising_tap as int, falling_tap as int, level.position() + 1);
        },
        Threshold::RefDirect { level } => {
            lemma_fields(3, 0, 0, level.position() + 1);
        },
    }
}

proof fn lemma_fields(source: int, low: int, high: int, level: int)
    requires
        0 <= source < 4,
        0 <= low < 32,
        0 <= high < 32,
        0 <= level < 4,
    ensures
        ({
            let word = 32 + 64 * source + low + 256 * high + 0x2000 * level;
            &&& word % 32 == low
            &&& word / 32 % 2 == 1
            &&& word / 64 % 4 == source
            &&& word / 0x100 % 32 == high
            &&& word / 0x2000 == level
        }),
{
    let word = 32 + 64 * source + low + 256 * high + 0x2000 * level;
    assert(word / 32 == 1 + 2 * source + 8 * high + 256 * level);
    assert(word / 64 == source + 4 * high + 128 * level);
    assert(word / 0x100 == high + 32 * level);
}

/// The voltage that a level field names.
pub open spec fn level_millivolts(field: int) -> int {
    if field == 1 {
        1200
    } else if field == 2 {
        2000
    } else if field == 3 {
        2500
    } else {
        0
    }
}

/// What the comparator makes of a configuration: the power mode in bits 9:8 (0
/// the fastest, 2 the slowest), the filter on with bit 2 and its delay in bits
/// 7:6, each step twice as long as the one before, and an inverted output with
/// bit 1; off, and nothing else.
pub proof fn lemma_config_decoded(config: Config)
    ensures
        ({
            let word = config.word();
            let step = word / 64 % 4;
            &&& word / 0x100 == match config.power_mode {
                PowerMode::HighSpeed => 0int,
                PowerMode::Normal => 1,
                PowerMode::UltraLowPower => 2,
            }
            &&& word / 4 % 2 == if config.filter is Some {
                1int
            } else {
                0
            }
            &&& config.filter matches Some(delay) ==> 450 * crate::clocks::divided_by(step)
                == match delay {
                FilterDelay::Ns450 => 450int,
                FilterDelay::Ns900 => 900,
                FilterDelay::Ns1800 => 1800,
                FilterDelay::Ns3600 => 3600,
            }
            &&& word / 2 % 2 == if config.invert_output {
                1int
            } else {
                0
            }
            &&& word % 2 == 0
            &&& word / 8 % 8 == 0
        }),
{
}

/// What the registers hold once a channel is routed: it is on the plus input (its
/// number below bit 7 of the first register), its pin is analog, the threshold is
/// set and the comparator is on (bit 10 of the second).
pub proof fn lemma_route_on_registers(m: Memory, channel: u8, threshold: Threshold)
    requires
        channel < 16,
        in_range(threshold),
    ensures
        ({
            let after = crate::memory::memory_after(m, route_script(channel, threshold));
            &&& crate::memory::word_in(after, 0x08C0) == 0x80 + channel
            &&& crate::memory::word_in(after, 0x08C2) == crate::memory::word_in(m, 0x08C2) | 0x0400
            &&& crate::memory::word_in(after, 0x08C4) == threshold.word()
            &&& crate::memory::word_in(after, 0x08C6) == crate::memory::word_in(m, 0x08C6) | (1u16
                << channel)
        }),
{
    broadcast use crate::memory::group_memory;

    lemma_threshold_words_differ(threshold, threshold);
    let script = route_script(channel, threshold);
    crate::memory::lemma_memory_at(m, script);
    reveal_with_fuel(crate::memory::memory_at, 6);
    let c = crate::memory::word_in(m, 0x08C2);
    let d = crate::memory::word_in(m, 0x08C6);
    let bit = 1u16 << channel;
    let off = crate::bus::edited16(c, 0x0400, 0);
    let plus = (channel + CEIPEN) as u16;
    let word = threshold.word() as u16;
    let m1 = crate::memory::put16(m, 0x08C2, off);
    let m2 = crate::memory::put16(m1, 0x08C0, plus);
    let m3 = crate::memory::put16(m2, 0x08C6, crate::bus::edited16(d, 0, bit));
    let m4 = crate::memory::put16(m3, 0x08C4, word);
    let m5 = crate::memory::put16(m4, 0x08C2, crate::bus::edited16(off, 0, 0x0400));
    assert(crate::memory::word_in(m1, 0x08C6) == d);
    assert(crate::memory::word_in(m2, 0x08C6) == d);
    assert(crate::memory::word_in(m1, 0x08C2) == off);
    assert(crate::memory::word_in(m2, 0x08C2) == off);
    assert(crate::memory::word_in(m3, 0x08C2) == off);
    assert(crate::memory::word_in(m4, 0x08C2) == off);
    assert(crate::memory::memory_at(m, script, 5) == m5);
    assert(crate::memory::word_in(m2, 0x08C0) == plus);
    assert(crate::memory::word_in(m3, 0x08C0) == plus);
    assert(crate::memory::word_in(m4, 0x08C0) == plus);
    assert(crate::memory::word_in(m3, 0x08C6) == crate::bus::edited16(d, 0, bit));
    assert(crate::memory::word_in(m4, 0x08C6) == crate::bus::edited16(d, 0, bit));
    assert(crate::memory::word_in(m4, 0x08C4) == word);
    assert((((c & !0x0400u16) | 0) & !0u16) | 0x0400 == c | 0x0400 && (d & !0u16) | bit == d | bit)
        by (bit_vector);
}

/// The channel of each pin that has one.
pub proof fn lemma_pin_channels()
    ensures
        <Pin<P1, 0, Analog> as CompPin>::CHANNEL == 0,
        <Pin<P1, 1, Analog> as CompPin>::CHANNEL == 1,
        <Pin<P1, 2, Analog> as CompPin>::CHANNEL == 2,
        <Pin<P1, 3, Analog> as CompPin>::CHANNEL == 3,
        <Pin<P1, 4, Analog> as CompPin>::CHANNEL == 4,
        <Pin<P1, 5, Analog> as CompPin>::CHANNEL == 5,
        <Pin<P3, 0, Analog> as CompPin>::CHANNEL == 12,
        <Pin<P3, 1, Analog> as CompPin>::CHANNEL == 13,
        <Pin<P3, 2, Analog> as CompPin>::CHANNEL == 14,
        <Pin<P3, 3, Analog> as CompPin>::CHANNEL == 15,
{
}

/// Where the registers lie, and which bits and values they have.
pub proof fn lemma_layout()
    ensures
        CECTL0 == 0x08C0,
        CECTL1 == 0x08C2,
        CECTL2 == 0x08C4,
        CECTL3 == 0x08C6,
        CEINT == 0x08CC,
        CEIV == 0x08CE,
        CEIPEN == 128,
        CEOUT == 1,
        CEOUTPOL == 2,
        CEF == 4,
        CEIES == 8,
        CEEX == 32,
        CEON == 0x0400,
        CERSEL == 32,
        CEREF_MASK == 0x1F1F,
        CEINT_FLAGS == 3,
        CEINT_ENABLES == 0x0300,
        IV_OUTPUT_ROSE == 2,
        IV_OUTPUT_FELL == 4,
{
}

} // verus!
