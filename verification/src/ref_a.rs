//! REF_A, the shared voltage reference.
//!
//! One register, `REFCTL0`, selects 1.2, 2.0 or 2.5 V, turns the generator on
//! and buffers it to pin P1.1. Writes are ignored while the generator is
//! busy, so every write is gated on that flag; after turning it on the output
//! is settled only when the ready flag says so. The temperature sensor of the
//! converter is biased by this generator.
use vstd::prelude::*;

use crate::bus::{Bus, Cond, Hardware, Stalled, Step};
use crate::gpio::{Analog, Pin, P1};
use crate::memory::Memory;
use crate::pac::SharedReference;

verus! {

broadcast use crate::trace::group_growth;

/// Reference control register.
pub const REFCTL0: u32 = 0x01B0;

/// Generator on.
pub const REFON: u16 = 0x0001;

/// Buffer the reference to P1.1.
pub const REFOUT: u16 = 0x0002;

/// Writes are ignored while this is set.
pub const REFGENBUSY: u16 = 0x0400;

/// The output is settled.
pub const REFGENRDY: u16 = 0x1000;

/// The voltages that the reference can produce.
#[derive(Clone, Copy, PartialEq, Eq, Structural, Debug)]
pub enum ReferenceVoltage {
    /// 1.2 V.
    V1_2,
    /// 2.0 V.
    V2_0,
    /// 2.5 V.
    V2_5,
}

impl ReferenceVoltage {
    /// Nominal output in millivolts.
    pub open spec fn nominal(self) -> u16 {
        match self {
            ReferenceVoltage::V1_2 => 1200,
            ReferenceVoltage::V2_0 => 2000,
            ReferenceVoltage::V2_5 => 2500,
        }
    }

    /// Position in the selection field and in the per-voltage calibration
    /// tables.
    pub open spec fn position(self) -> int {
        match self {
            ReferenceVoltage::V1_2 => 0,
            ReferenceVoltage::V2_0 => 1,
            ReferenceVoltage::V2_5 => 2,
        }
    }

    /// Nominal output in millivolts.
    pub fn millivolts(self) -> (r: u16)
        ensures
            r == self.nominal(),
    {
        match self {
            ReferenceVoltage::V1_2 => 1200,
            ReferenceVoltage::V2_0 => 2000,
            ReferenceVoltage::V2_5 => 2500,
        }
    }

    /// Position in the per-voltage calibration tables.
    pub(crate) fn index(self) -> (r: usize)
        ensures
            r == self.position(),
    {
        match self {
            ReferenceVoltage::V1_2 => 0,
            ReferenceVoltage::V2_0 => 1,
            ReferenceVoltage::V2_5 => 2,
        }
    }
}

/// The control word for the generator on at `voltage`.
pub open spec fn reference_word(voltage: ReferenceVoltage, output: bool) -> u16 {
    (voltage.position() * 16 + if output {
        REFOUT as int
    } else {
        0
    } + REFON) as u16
}

/// The wait until writes are heeded.
pub open spec fn write_gate(patience: u64, met: bool) -> Step {
    Step::Poll16 { addr: REFCTL0, until: Cond::none_set(REFGENBUSY), budget: patience, met }
}

/// The wait until the output is settled.
pub open spec fn settling(patience: u64, met: bool) -> Step {
    Step::Poll16 { addr: REFCTL0, until: Cond::all_set(REFGENRDY), budget: patience, met }
}

/// The steps of programming: gate, write, settle.
pub open spec fn program_script(
    voltage: ReferenceVoltage,
    output: bool,
    patience: u64,
    settled: bool,
) -> Seq<Step> {
    seq![
        write_gate(patience, true),
        Step::Write16 { addr: REFCTL0, value: reference_word(voltage, output) },
        settling(patience, settled),
    ]
}

/// How programming ended.
#[derive(Clone, Copy, PartialEq, Eq, Structural, Debug)]
pub enum ProgramEnd {
    /// The register stayed busy, and nothing was written.
    Busy,
    /// It was written, but the voltage did not settle.
    Unsettled,
    /// The voltage settled.
    Settled,
}

/// What programming did, by how it ended.
pub open spec fn programmed<H: Hardware>(
    pre: Bus<H>,
    post: Bus<H>,
    voltage: ReferenceVoltage,
    output: bool,
    end: ProgramEnd,
) -> bool {
    post.ran(
        pre,
        match end {
            ProgramEnd::Busy => seq![write_gate(pre.patience(), false)],
            ProgramEnd::Unsettled => program_script(voltage, output, pre.patience(), false),
            ProgramEnd::Settled => program_script(voltage, output, pre.patience(), true),
        },
    )
}

/// The reference generator, on and settled: holding one is proof that the
/// reference, and the temperature sensor that it biases, are powered. A change
/// that stalls may leave it unsettled.
pub struct Ref {
    ref_a: SharedReference,
    voltage: ReferenceVoltage,
    output_enabled: bool,
}

impl Ref {
    /// The configured voltage.
    pub closed spec fn level(&self) -> ReferenceVoltage {
        self.voltage
    }

    /// Whether the reference is buffered to P1.1.
    pub closed spec fn drives_pin(&self) -> bool {
        self.output_enabled
    }

    /// The peripheral.
    pub closed spec fn owned(self) -> SharedReference {
        self.ref_a
    }

    /// Turns the generator on at `voltage` and waits until it has settled.
    pub fn new<H: Hardware>(
        ref_a: SharedReference,
        bus: &mut Bus<H>,
        voltage: ReferenceVoltage,
    ) -> (r: Result<Ref, Stalled>)
        ensures
            exists|end: ProgramEnd|
                {
                    &&& #[trigger] programmed(*old(bus), *final(bus), voltage, false, end)
                    &&& r is Ok <==> end == ProgramEnd::Settled
                },
            r matches Ok(reference) ==> {
                &&& reference.level() == voltage
                &&& !reference.drives_pin()
                &&& reference.owned() == ref_a
            },
    {
        match program(bus, voltage, false) {
            ProgramEnd::Settled => Ok(Ref { ref_a, voltage, output_enabled: false }),
            _ => Err(Stalled),
        }
    }

    /// Changes the output voltage. Where the register stayed busy the voltage
    /// is as it was.
    pub fn set_voltage<H: Hardware>(
        &mut self,
        bus: &mut Bus<H>,
        voltage: ReferenceVoltage,
    ) -> (r: Result<(), Stalled>)
        ensures
            final(self).owned() == old(self).owned(),
            final(self).drives_pin() == old(self).drives_pin(),
            exists|end: ProgramEnd|
                {
                    &&& #[trigger] programmed(
                        *old(bus),
                        *final(bus),
                        voltage,
                        old(self).drives_pin(),
                        end,
                    )
                    &&& r is Ok <==> end == ProgramEnd::Settled
                    &&& final(self).level() == if end == ProgramEnd::Busy {
                        old(self).level()
                    } else {
                        voltage
                    }
                },
    {
        let end = program(bus, voltage, self.output_enabled);
        assert(programmed(*old(bus), *bus, voltage, old(self).drives_pin(), end));
        match end {
            ProgramEnd::Busy => Err(Stalled),
            ProgramEnd::Unsettled => {
                self.voltage = voltage;
                Err(Stalled)
            },
            ProgramEnd::Settled => {
                self.voltage = voltage;
                Ok(())
            },
        }
    }

    /// The configured output voltage.
    pub fn voltage(&self) -> (r: ReferenceVoltage)
        ensures
            r == self.level(),
    {
        self.voltage
    }

    /// The configured output voltage in millivolts, nominally.
    pub fn millivolts(&self) -> (r: u16)
        ensures
            r == self.level().nominal(),
    {
        self.voltage.millivolts()
    }

    /// Buffers the reference to P1.1, which is in analog mode. The output
    /// follows later changes of the voltage.
    pub fn enable_output<H: Hardware>(
        &mut self,
        bus: &mut Bus<H>,
        _pin: &Pin<P1, 1, Analog>,
    ) -> (r: Result<(), Stalled>)
        ensures
            switched(*old(self), *final(self), *old(bus), *final(bus), true, r),
    {
        self.switch_output(bus, true)
    }

    /// Stops driving P1.1; the reference stays on.
    pub fn disable_output<H: Hardware>(&mut self, bus: &mut Bus<H>) -> (r: Result<(), Stalled>)
        ensures
            switched(*old(self), *final(self), *old(bus), *final(bus), false, r),
    {
        self.switch_output(bus, false)
    }

    /// Drives P1.1, or not.
    fn switch_output<H: Hardware>(&mut self, bus: &mut Bus<H>, output: bool) -> (r: Result<
        (),
        Stalled,
    >)
        ensures
            switched(*old(self), *final(self), *old(bus), *final(bus), output, r),
    {
        let end = program(bus, self.voltage, output);
        match end {
            ProgramEnd::Busy => Err(Stalled),
            ProgramEnd::Unsettled => {
                self.output_enabled = output;
                Err(Stalled)
            },
            ProgramEnd::Settled => {
                self.output_enabled = output;
                Ok(())
            },
        }
    }

    /// Turns the generator off and gives the peripheral back.
    pub fn free<H: Hardware>(self, bus: &mut Bus<H>) -> (r: Result<SharedReference, Stalled>)
        ensures
            r matches Ok(ref_a) ==> ref_a == self.owned() && final(bus).ran(
                *old(bus),
                seq![
                    write_gate(old(bus).patience(), true),
                    Step::Write16 { addr: REFCTL0, value: 0 },
                ],
            ),
            r is Err ==> final(bus).ran(*old(bus), seq![write_gate(old(bus).patience(), false)]),
    {
        if !bus.poll16(REFCTL0, Cond::Bits { mask: REFGENBUSY, want: 0 }) {
            return Err(Stalled);
        }
        bus.write16(REFCTL0, 0);
        Ok(self.ref_a)
    }
}

/// What switching the output on or off does. Where the register stayed busy it
/// is as it was.
pub open spec fn switched<H: Hardware>(
    before: Ref,
    after: Ref,
    pre: Bus<H>,
    post: Bus<H>,
    output: bool,
    r: Result<(), Stalled>,
) -> bool {
    &&& after.owned() == before.owned()
    &&& after.level() == before.level()
    &&& exists|end: ProgramEnd|
        {
            &&& #[trigger] programmed(pre, post, before.level(), output, end)
            &&& r is Ok <==> end == ProgramEnd::Settled
            &&& after.drives_pin() == if end == ProgramEnd::Busy {
                before.drives_pin()
            } else {
                output
            }
        }
}

/// Gate, write, settle.
fn program<H: Hardware>(bus: &mut Bus<H>, voltage: ReferenceVoltage, output: bool) -> (end:
    ProgramEnd)
    ensures
        programmed(*old(bus), *final(bus), voltage, output, end),
{
    if !bus.poll16(REFCTL0, Cond::Bits { mask: REFGENBUSY, want: 0 }) {
        return ProgramEnd::Busy;
    }
    let select: u16 = match voltage {
        ReferenceVoltage::V1_2 => 0,
        ReferenceVoltage::V2_0 => 16,
        ReferenceVoltage::V2_5 => 32,
    };
    let bits: u16 = if output { REFOUT } else { 0 };
    bus.write16(REFCTL0, select + bits + REFON);
    if !bus.poll16(REFCTL0, Cond::Bits { mask: REFGENRDY, want: REFGENRDY }) {
        return ProgramEnd::Unsettled;
    }
    ProgramEnd::Settled
}

/// The control register is never written but behind the write gate: before
/// every write of the programming sequence stands a wait that found the
/// generator idle.
pub proof fn lemma_writes_are_gated(
    voltage: ReferenceVoltage,
    output: bool,
    patience: u64,
    settled: bool,
    i: int,
)
    requires
        0 <= i < program_script(voltage, output, patience, settled).len(),
        program_script(voltage, output, patience, settled)[i] is Write16,
    ensures
        i > 0,
        program_script(voltage, output, patience, settled)[i - 1] == write_gate(patience, true),
{
}

/// What the reference register holds once a voltage is programmed: on, the
/// output as asked for, and the number of the voltage in bits 5:4, by which 0 is
/// 1.2 V, 1 is 2.0 V and 2 is 2.5 V.
pub proof fn lemma_voltage_on_register(
    m: Memory,
    voltage: ReferenceVoltage,
    output: bool,
    patience: u64,
    settled: bool,
)
    ensures
        ({
            let script = program_script(voltage, output, patience, settled);
            let word = crate::memory::word_in(
                crate::memory::memory_after(m, script),
                0x01B0,
            ) as int;
            &&& word % 2 == 1
            &&& word / 2 % 2 == if output {
                1int
            } else {
                0
            }
            &&& word / 4 % 4 == 0
            &&& word < 0x40
            &&& voltage.nominal() == if word / 16 % 4 == 0 {
                1200int
            } else if word / 16 % 4 == 1 {
                2000
            } else {
                2500
            }
            &&& script.first() == (Step::Poll16 {
                addr: 0x01B0,
                until: Cond::Bits { mask: 0x0400, want: 0 },
                budget: patience,
                met: true,
            })
            &&& script.last() == (Step::Poll16 {
                addr: 0x01B0,
                until: Cond::Bits { mask: 0x1000, want: 0x1000 },
                budget: patience,
                met: settled,
            })
        }),
{
    broadcast use crate::memory::group_memory;

    let script = program_script(voltage, output, patience, settled);
    crate::memory::lemma_memory_at(m, script);
    reveal_with_fuel(crate::memory::memory_at, 4);
}

/// The voltages are what their names say, in millivolts, and in ascending order.
pub proof fn lemma_voltages()
    ensures
        ReferenceVoltage::V1_2.nominal() == 1200,
        ReferenceVoltage::V2_0.nominal() == 2000,
        ReferenceVoltage::V2_5.nominal() == 2500,
        ReferenceVoltage::V1_2.position() == 0,
        ReferenceVoltage::V2_0.position() == 1,
        ReferenceVoltage::V2_5.position() == 2,
{
}

/// Where the registers lie, and which bits and values they have.
pub proof fn lemma_layout()
    ensures
        REFCTL0 == 0x01B0,
        REFON == 1,
        REFOUT == 2,
        REFGENBUSY == 0x0400,
        REFGENRDY == 0x1000,
{
}

/// Where the pin's output was switched and the call succeeded, the register says
/// so: it is on, has the voltage that it had, and bit 1 is the output. Where the
/// register stayed busy it was not written, and nothing is taken for changed.
pub proof fn lemma_switch_on_register<H: Hardware>(
    m: Memory,
    before: Ref,
    after: Ref,
    pre: Bus<H>,
    post: Bus<H>,
    output: bool,
    r: Result<(), Stalled>,
)
    requires
        switched(before, after, pre, post, output, r),
    ensures
        after.level() == before.level(),
        r is Ok ==> after.drives_pin() == output && ({
            let word = crate::memory::word_in(crate::memory::left(m, pre, post), 0x01B0) as int;
            &&& word % 2 == 1
            &&& word / 2 % 2 == if output {
                1int
            } else {
                0
            }
            &&& before.level().nominal() == if word / 16 == 0 {
                1200int
            } else if word / 16 == 1 {
                2000
            } else {
                2500
            }
        }),
        after.drives_pin() != before.drives_pin() ==> after.drives_pin() == output && post@.len()
            == pre@.len() + 3,
{
    let end = choose|end: ProgramEnd|
        {
            &&& #[trigger] programmed(pre, post, before.level(), output, end)
            &&& r is Ok <==> end == ProgramEnd::Settled
            &&& after.drives_pin() == if end == ProgramEnd::Busy {
                before.drives_pin()
            } else {
                output
            }
        };
    if end == ProgramEnd::Settled {
        let script = program_script(before.level(), output, pre.patience(), true);
        assert(post@.skip(pre@.len() as int) =~= script);
        lemma_voltage_on_register(m, before.level(), output, pre.patience(), true);
    }
}

} // verus!
