//! Factory calibration from the device descriptor table.
//!
//! The table is a chain of entries of a tag, a length and data. Reads are
//! plain loads from write-protected memory.
use vstd::prelude::*;

use crate::bus::{Bus, Hardware, Step};
use crate::memory::Memory;
use crate::num::signed16;
use crate::ref_a::ReferenceVoltage;

verus! {

broadcast use crate::trace::group_growth;

/// First tag.
pub const TLV_START: u16 = 0x1A08;

/// Last byte of the table.
pub const TLV_END: u16 = 0x1AFF;

/// Tag of the end of the table.
pub const TAG_END: u8 = 0xFF;

/// Tag of the converter calibration.
pub const TAG_ADC12_CAL: u8 = 0x11;

/// Tag of the reference calibration.
pub const TAG_REF_CAL: u8 = 0x12;

/// Calibration of the converter and of its temperature sensor.
#[derive(Clone, Copy, Debug)]
pub struct AdcCal {
    /// Gain correction; 2^15 is unity.
    pub gain_factor: u16,
    /// Correction in counts, after the gain.
    pub offset: i16,
    /// Sensor readings at 30 degrees for each reference voltage.
    pub temp_30: [u16; 3],
    /// Sensor readings at 85 degrees for each reference voltage.
    pub temp_85: [u16; 3],
}

impl AdcCal {
    /// The readings at 30 and at 85 degrees for `voltage`.
    pub fn temp_pair(&self, voltage: ReferenceVoltage) -> (r: (u16, u16))
        ensures
            r.0 == self.temp_30@[voltage.position()],
            r.1 == self.temp_85@[voltage.position()],
    {
        let i: usize = voltage.index();
        (self.temp_30[i], self.temp_85[i])
    }

    /// The temperature in tenths of a degree for a raw sensor reading taken
    /// against `voltage`. The reading is not corrected first: the calibration
    /// points have the same errors. `None` where the points do not ascend.
    pub fn temp_deci_celsius(&self, voltage: ReferenceVoltage, raw: u16) -> (r: Option<i16>)
        ensures
            r == self.temperature(voltage, raw),
    {
        let (t30, t85) = self.temp_pair(voltage);
        crate::adc_cal::temp_deci_celsius(raw, t30, t85)
    }

    /// What [`AdcCal::temp_deci_celsius`] returns.
    pub open spec fn temperature(self, voltage: ReferenceVoltage, raw: u16) -> Option<i16> {
        let t30 = self.temp_30@[voltage.position()];
        let t85 = self.temp_85@[voltage.position()];
        if t85 <= t30 {
            None
        } else {
            Some(
                crate::num::wrapped16(
                    crate::adc_cal::deci_celsius(raw as int, t30 as int, t85 as int),
                ) as i16,
            )
        }
    }

    /// Applies gain and offset to a conversion result.
    pub fn correct_gain_offset(&self, raw: u16) -> (r: u16)
        ensures
            r == crate::adc_cal::gained(raw as int, self.gain_factor as int, self.offset as int),
    {
        crate::adc_cal::apply_gain_offset(raw, self.gain_factor, self.offset)
    }
}

/// Calibration of the reference.
#[derive(Clone, Copy, Debug)]
pub struct RefCal {
    /// Measured against nominal for each reference voltage; 2^15 is unity.
    pub factor: [u16; 3],
}

impl RefCal {
    /// Rescales a result to the nominal reference.
    pub fn correct(&self, voltage: ReferenceVoltage, counts: u16) -> (r: u16)
        ensures
            r == crate::adc_cal::rescaled(
                counts as int,
                self.factor@[voltage.position()] as int,
            ),
    {
        crate::adc_cal::apply_ref_factor(counts, self.factor[voltage.index()])
    }
}

/// The little-endian word at `addr`.
pub open spec fn word_at(m: Memory, addr: int) -> int {
    m(addr) + 256 * m(addr + 1)
}

/// The data of the first entry with `tag` from `addr` on, provided that it has
/// at least `min_len` bytes.
pub open spec fn entry_from(m: Memory, tag: u8, min_len: int, addr: int) -> Option<int>
    decreases 0x1_0000 - addr,
{
    if addr >= TLV_END || m(addr) == TAG_END {
        None
    } else if m(addr) == tag {
        if m(addr + 1) >= min_len {
            Some(addr + 2)
        } else {
            None
        }
    } else {
        entry_from(m, tag, min_len, addr + 2 + m(addr + 1))
    }
}

/// The data of the entry with `tag`.
pub open spec fn entry(m: Memory, tag: u8, min_len: int) -> Option<int> {
    entry_from(m, tag, min_len, TLV_START as int)
}

/// Every step is a byte read in or right behind the table, and every value is
/// what `m` holds.
pub open spec fn reads_of(script: Seq<Step>, m: Memory) -> bool {
    forall|i: int| 0 <= i < script.len() ==> read_matches(#[trigger] script[i], m)
}

/// The step read what `m` holds.
pub open spec fn read_matches(step: Step, m: Memory) -> bool {
    step matches Step::Read8 { addr, value } && value == m(addr as int)
}

/// Every step is a byte read in or right behind the table.
pub open spec fn only_table_reads(script: Seq<Step>) -> bool {
    forall|i: int|
        0 <= i < script.len() ==> {
            &&& (#[trigger] script[i]) matches Step::Read8 { addr, .. }
            &&& TLV_START <= addr <= TLV_END + 16
        }
}

/// `cal` is the converter calibration that `m` holds.
pub open spec fn adc_cal_in(m: Memory, cal: Option<AdcCal>) -> bool {
    match entry(m, TAG_ADC12_CAL, 16) {
        None => cal is None,
        Some(d) => {
            &&& cal matches Some(c)
            &&& c.gain_factor == word_at(m, d)
            &&& c.offset == crate::num::wrapped16(word_at(m, d + 2))
            &&& c.temp_30@ =~= seq![
                word_at(m, d + 4) as u16,
                word_at(m, d + 8) as u16,
                word_at(m, d + 12) as u16,
            ]
            &&& c.temp_85@ =~= seq![
                word_at(m, d + 6) as u16,
                word_at(m, d + 10) as u16,
                word_at(m, d + 14) as u16,
            ]
        },
    }
}

/// `cal` is the reference calibration that `m` holds.
pub open spec fn ref_cal_in(m: Memory, cal: Option<RefCal>) -> bool {
    match entry(m, TAG_REF_CAL, 6) {
        None => cal is None,
        Some(d) => {
            &&& cal matches Some(c)
            &&& c.factor@ =~= seq![
                word_at(m, d) as u16,
                word_at(m, d + 2) as u16,
                word_at(m, d + 4) as u16,
            ]
        },
    }
}

/// One byte of the table.
fn read_u8<H: Hardware>(bus: &mut Bus<H>, addr: u16) -> (value: u8)
    ensures
        final(bus).ran(*old(bus), seq![Step::Read8 { addr: addr as u32, value }]),
{
    bus.read8(addr as u32)
}

/// One word of the table, byte by byte, so that it need not be aligned.
fn read_u16<H: Hardware>(bus: &mut Bus<H>, addr: u16) -> (value: u16)
    requires
        addr < 0xFFFF,
    ensures
        exists|low: u8, high: u8|
            value == low + 256 * high && final(bus).ran(
                *old(bus),
                #[trigger] word_read(addr, low, high),
            ),
{
    let low: u8 = read_u8(bus, addr);
    let high: u8 = read_u8(bus, addr + 1);
    assert(bus.ran(*old(bus), word_read(addr, low, high)));
    low as u16 + 256 * (high as u16)
}

/// The two reads of a word.
pub open spec fn word_read(addr: u16, low: u8, high: u8) -> Seq<Step> {
    seq![
        Step::Read8 { addr: addr as u32, value: low },
        Step::Read8 { addr: (addr + 1) as u32, value: high },
    ]
}

/// Looks for an entry.
fn find<H: Hardware>(bus: &mut Bus<H>, tag: u8, min_len: u8) -> (r: Option<u16>)
    ensures
        exists|script: Seq<Step>| #[trigger]
            only_table_reads(script) && final(bus).ran(*old(bus), script) && forall|m: Memory|
                #[trigger] reads_of(script, m) ==> entry(m, tag, min_len as int) == match r {
                    Some(d) => Some(d as int),
                    None => None,
                },
        r matches Some(d) ==> TLV_START + 2 <= d <= TLV_END + 1,
{
    let ghost mut script: Seq<Step> = Seq::empty();
    let mut addr: u16 = TLV_START;
    assert(bus.ran(*old(bus), script));
    while addr < TLV_END
        invariant
            TLV_START <= addr,
            only_table_reads(script),
            bus.ran(*old(bus), script),
            forall|m: Memory| #[trigger]
                reads_of(script, m) ==> entry(m, tag, min_len as int) == entry_from(
                    m,
                    tag,
                    min_len as int,
                    addr as int,
                ),
        decreases 0x1_0000 - addr,
    {
        let ghost before = script;
        let t: u8 = read_u8(bus, addr);
        proof {
            script = script.push(Step::Read8 { addr: addr as u32, value: t });
            lemma_more_reads(before, Step::Read8 { addr: addr as u32, value: t });
        }
        assert(only_table_reads(script));
        if t == TAG_END {
            return None;
        }
        let ghost middle = script;
        let len: u8 = read_u8(bus, addr + 1);
        proof {
            let step = Step::Read8 { addr: (addr + 1) as u32, value: len };
            script = script.push(step);
            lemma_more_reads(middle, step);
        }
        assert(only_table_reads(script));
        if t == tag {
            return if len >= min_len {
                Some(addr + 2)
            } else {
                None
            };
        }
        addr = addr + 2 + len as u16;
    }
    None
}

/// One more matching read is a read and leaves the others matching.
proof fn lemma_more_reads(script: Seq<Step>, step: Step)
    ensures
        forall|m: Memory| #[trigger]
            reads_of(script.push(step), m) ==> reads_of(script, m) && read_matches(step, m),
{
    assert forall|m: Memory| #[trigger] reads_of(script.push(step), m) implies reads_of(script, m)
        && read_matches(step, m) by {
        let all = script.push(step);
        assert forall|i: int| 0 <= i < script.len() implies read_matches(
            #[trigger] script[i],
            m,
        ) by {
            assert(all[i] == script[i]);
        }
        assert(all[script.len() as int] == step);
    }
}

/// More matching reads leave the others matching.
proof fn lemma_joined_reads(a: Seq<Step>, b: Seq<Step>)
    requires
        only_table_reads(a),
        only_table_reads(b),
    ensures
        only_table_reads(a + b),
        forall|m: Memory| #[trigger] reads_of(a + b, m) ==> reads_of(a, m) && reads_of(b, m),
{
    let all = a + b;
    assert forall|m: Memory| #[trigger] reads_of(all, m) implies reads_of(a, m) && reads_of(
        b,
        m,
    ) by {
        assert forall|i: int| 0 <= i < a.len() implies read_matches(#[trigger] a[i], m) by {
            assert(all[i] == a[i]);
        }
        assert forall|i: int| 0 <= i < b.len() implies read_matches(#[trigger] b[i], m) by {
            assert(all[a.len() + i] == b[i]);
        }
    }
    assert forall|i: int| 0 <= i < all.len() implies {
        &&& (#[trigger] all[i]) matches Step::Read8 { addr, .. }
        &&& TLV_START <= addr <= TLV_END + 16
    } by {
        if i < a.len() {
            assert(all[i] == a[i]);
        } else {
            assert(all[i] == b[i - a.len()]);
        }
    }
}

/// Reads a word of an entry, after the reads of `script`.
fn entry_word<H: Hardware>(
    bus: &mut Bus<H>,
    addr: u16,
    Ghost(start): Ghost<Bus<H>>,
    Ghost(script): Ghost<Seq<Step>>,
) -> (r: (u16, Ghost<Seq<Step>>))
    requires
        TLV_START <= addr <= TLV_END + 15,
        only_table_reads(script),
        old(bus).ran(start, script),
    ensures
        only_table_reads(r.1@),
        final(bus).ran(start, r.1@),
        forall|m: Memory| #[trigger]
            reads_of(r.1@, m) ==> reads_of(script, m) && r.0 == word_at(m, addr as int),
{
    let ghost before = *bus;
    let value: u16 = read_u16(bus, addr);
    let ghost (low, high) = choose|low: u8, high: u8|
        value == low + 256 * high && bus.ran(before, #[trigger] word_read(addr, low, high));
    let ghost more = word_read(addr, low, high);
    proof {
        lemma_joined_reads(script, more);
        assert forall|m: Memory| #[trigger] reads_of(script + more, m) implies reads_of(script, m)
            && value == word_at(m, addr as int) by {
            assert(read_matches(more[0], m));
            assert(read_matches(more[1], m));
        }
    }
    (value, Ghost(script + more))
}

/// The calibration of this die's converter. `None` where the table has no
/// entry of the expected size.
pub fn adc_cal<H: Hardware>(bus: &mut Bus<H>) -> (r: Option<AdcCal>)
    ensures
        exists|script: Seq<Step>| #[trigger]
            only_table_reads(script) && final(bus).ran(*old(bus), script) && forall|m: Memory|
                #[trigger] reads_of(script, m) ==> adc_cal_in(m, r),
{
    let data: u16 = match find(bus, TAG_ADC12_CAL, 16) {
        Some(data) => data,
        None => {
            return None;
        },
    };
    let ghost script = choose|script: Seq<Step>| #[trigger]
        only_table_reads(script) && bus.ran(*old(bus), script) && forall|m: Memory|
            #[trigger] reads_of(script, m) ==> entry(m, TAG_ADC12_CAL, 16) == Some(data as int);
    let s = Ghost(*old(bus));
    let (gain_factor, g) = entry_word(bus, data, s, Ghost(script));
    let (offset, g) = entry_word(bus, data + 2, s, g);
    let (a30, g) = entry_word(bus, data + 4, s, g);
    let (b30, g) = entry_word(bus, data + 8, s, g);
    let (c30, g) = entry_word(bus, data + 12, s, g);
    let (a85, g) = entry_word(bus, data + 6, s, g);
    let (b85, g) = entry_word(bus, data + 10, s, g);
    let (c85, g) = entry_word(bus, data + 14, s, g);
    let cal = AdcCal {
        gain_factor,
        offset: signed16(offset as i32),
        temp_30: [a30, b30, c30],
        temp_85: [a85, b85, c85],
    };
    assert(forall|m: Memory| #[trigger] reads_of(g@, m) ==> adc_cal_in(m, Some(cal)));
    Some(cal)
}

/// The calibration of this die's reference.
pub fn ref_cal<H: Hardware>(bus: &mut Bus<H>) -> (r: Option<RefCal>)
    ensures
        exists|script: Seq<Step>| #[trigger]
            only_table_reads(script) && final(bus).ran(*old(bus), script) && forall|m: Memory|
                #[trigger] reads_of(script, m) ==> ref_cal_in(m, r),
{
    let data: u16 = match find(bus, TAG_REF_CAL, 6) {
        Some(data) => data,
        None => {
            return None;
        },
    };
    let ghost script = choose|script: Seq<Step>| #[trigger]
        only_table_reads(script) && bus.ran(*old(bus), script) && forall|m: Memory|
            #[trigger] reads_of(script, m) ==> entry(m, TAG_REF_CAL, 6) == Some(data as int);
    let s = Ghost(*old(bus));
    let (a, g) = entry_word(bus, data, s, Ghost(script));
    let (b, g) = entry_word(bus, data + 2, s, g);
    let (c, g) = entry_word(bus, data + 4, s, g);
    let cal = RefCal { factor: [a, b, c] };
    assert(forall|m: Memory| #[trigger] reads_of(g@, m) ==> ref_cal_in(m, Some(cal)));
    Some(cal)
}

/// A blank table, in which every byte is erased, holds no calibration.
pub proof fn lemma_blank_table(m: Memory)
    requires
        forall|a: int| #[trigger] m(a) == 0xFF,
    ensures
        entry(m, TAG_ADC12_CAL, 16) is None,
        entry(m, TAG_REF_CAL, 6) is None,
{
}

/// An entry of the table: its tag and its data.
pub struct Entry {
    pub tag: u8,
    pub data: Seq<u8>,
}

/// The bytes of an entry in memory: tag, length, data.
pub open spec fn entry_bytes(e: Entry) -> Seq<u8> {
    seq![e.tag, e.data.len() as u8] + e.data
}

/// `m` holds `bytes` from `addr` on.
pub open spec fn holds(m: Memory, addr: int, bytes: Seq<u8>) -> bool {
    forall|i: int| 0 <= i < bytes.len() ==> #[trigger] m(addr + i) == bytes[i]
}

/// `m` holds the entries of a table one after the other from `addr` on, up to
/// the end of the table at most.
pub open spec fn laid_out(m: Memory, addr: int, entries: Seq<Entry>) -> bool
    decreases entries.len(),
{
    entries.len() > 0 ==> {
        let e = entries[0];
        &&& e.data.len() <= 255
        &&& e.tag != 0xFF
        &&& addr < 0x1AFF
        &&& holds(m, addr, entry_bytes(e))
        &&& laid_out(m, addr + 2 + e.data.len(), entries.skip(1))
    }
}

/// Where entry `i` begins.
pub open spec fn entry_at(addr: int, entries: Seq<Entry>, i: int) -> int
    decreases i,
{
    if i <= 0 {
        addr
    } else {
        entry_at(addr, entries, i - 1) + 2 + entries[i - 1].data.len()
    }
}

/// The search finds the first entry with the tag, however many others stand
/// before it.
proof fn lemma_first_entry(
    m: Memory,
    addr: int,
    entries: Seq<Entry>,
    i: int,
    tag: u8,
    min_len: int,
)
    requires
        laid_out(m, addr, entries),
        0 <= i < entries.len(),
        entries[i].tag == tag,
        forall|j: int| 0 <= j < i ==> (#[trigger] entries[j]).tag != tag,
        entries[i].data.len() >= min_len,
    ensures
        ({
            let found = entry_from(m, tag, min_len, addr);
            &&& found matches Some(d)
            &&& holds(m, d, entries[i].data)
        }),
    decreases i,
{
    let e = entries[0];
    let bytes = entry_bytes(e);
    assert(m(addr + 0) == bytes[0]);
    assert(m(addr + 1) == bytes[1]);
    if i == 0 {
        assert forall|k: int| 0 <= k < e.data.len() implies #[trigger] m(addr + 2 + k)
            == e.data[k] by {
            assert(m(addr + (2 + k)) == bytes[2 + k]);
        }
    } else {
        let rest = entries.skip(1);
        assert(rest[i - 1] == entries[i]);
        assert forall|j: int| 0 <= j < i - 1 implies (#[trigger] rest[j]).tag != tag by {
            assert(rest[j] == entries[j + 1]);
        }
        assert(entries[0].tag != tag);
        lemma_first_entry(m, addr + 2 + e.data.len(), rest, i - 1, tag, min_len);
    }
}

/// Word `j` of the data of an entry, the low byte first.
pub open spec fn data_word(data: Seq<u8>, j: int) -> int {
    data[2 * j] + 256 * data[2 * j + 1]
}

/// The reference voltages in the order in which the table has them.
pub open spec fn place_in_table(voltage: ReferenceVoltage) -> int {
    match voltage {
        ReferenceVoltage::V1_2 => 0,
        ReferenceVoltage::V2_0 => 1,
        ReferenceVoltage::V2_5 => 2,
    }
}

/// The converter calibration that a table holds, from the table itself. The
/// entry with tag 0x11 holds the gain, the offset and then, for each reference
/// voltage from the lowest up, the sensor reading at 30 degrees followed by that
/// at 85 degrees. So a sensor that reads what it read at 30 degrees is at 30
/// degrees, and likewise at 85.
pub proof fn lemma_converter_entry(
    m: Memory,
    entries: Seq<Entry>,
    i: int,
    cal: Option<AdcCal>,
    voltage: ReferenceVoltage,
)
    requires
        laid_out(m, 0x1A08, entries),
        0 <= i < entries.len(),
        entries[i].tag == 0x11,
        forall|j: int| 0 <= j < i ==> (#[trigger] entries[j]).tag != 0x11,
        entries[i].data.len() >= 16,
        adc_cal_in(m, cal),
    ensures
        ({
            let data = entries[i].data;
            let t30 = data_word(data, 2 + 2 * place_in_table(voltage));
            let t85 = data_word(data, 3 + 2 * place_in_table(voltage));
            &&& cal matches Some(c)
            &&& c.gain_factor == data_word(data, 0)
            &&& (c.offset - data_word(data, 1)) % 0x1_0000 == 0
            &&& c.temp_30@[voltage.position()] == t30
            &&& c.temp_85@[voltage.position()] == t85
            &&& t30 < t85 ==> c.temperature(voltage, t30 as u16) == Some(300i16)
            &&& t30 < t85 ==> c.temperature(voltage, t85 as u16) == Some(850i16)
            &&& t30 >= t85 ==> forall|raw: u16| #[trigger] c.temperature(voltage, raw) is None
        }),
{
    lemma_first_entry(m, 0x1A08, entries, i, 0x11, 16);
    let data = entries[i].data;
    let d = entry(m, TAG_ADC12_CAL, 16).unwrap();
    assert forall|j: int| 0 <= j < 8 implies #[trigger] word_at(m, d + 2 * j) == data_word(
        data,
        j,
    ) by {
        assert(m(d + (2 * j)) == data[2 * j]);
        assert(m(d + (2 * j + 1)) == data[2 * j + 1]);
    }
    assert(word_at(m, d + 2 * 0) == data_word(data, 0) && word_at(m, d + 2 * 1) == data_word(
        data,
        1,
    ));
    assert(word_at(m, d + 2 * 2) == data_word(data, 2) && word_at(m, d + 2 * 3) == data_word(
        data,
        3,
    ));
    assert(word_at(m, d + 2 * 4) == data_word(data, 4) && word_at(m, d + 2 * 5) == data_word(
        data,
        5,
    ));
    assert(word_at(m, d + 2 * 6) == data_word(data, 6) && word_at(m, d + 2 * 7) == data_word(
        data,
        7,
    ));
    let c = cal.unwrap();
    let t30 = c.temp_30@[voltage.position()];
    let t85 = c.temp_85@[voltage.position()];
    if t30 < t85 {
        crate::adc_cal::lemma_calibration_points(t30, t85);
    }
}

/// The reference calibration that a table holds: the entry with tag 0x12 has the
/// factor of each reference voltage from the lowest up.
pub proof fn lemma_reference_entry(
    m: Memory,
    entries: Seq<Entry>,
    i: int,
    cal: Option<RefCal>,
    voltage: ReferenceVoltage,
)
    requires
        laid_out(m, 0x1A08, entries),
        0 <= i < entries.len(),
        entries[i].tag == 0x12,
        forall|j: int| 0 <= j < i ==> (#[trigger] entries[j]).tag != 0x12,
        entries[i].data.len() >= 6,
        ref_cal_in(m, cal),
    ensures
        cal matches Some(c) && c.factor@[voltage.position()] == data_word(
            entries[i].data,
            place_in_table(voltage),
        ),
{
    lemma_first_entry(m, 0x1A08, entries, i, 0x12, 6);
    let data = entries[i].data;
    let d = entry(m, TAG_REF_CAL, 6).unwrap();
    assert(m(d + 0) == data[0] && m(d + 1) == data[1] && m(d + 2) == data[2]);
    assert(m(d + 3) == data[3] && m(d + 4) == data[4] && m(d + 5) == data[5]);
}

/// A table without an entry of the kind, closed by an end tag, has no
/// calibration.
pub proof fn lemma_no_entry(m: Memory, addr: int, entries: Seq<Entry>, tag: u8, min_len: int)
    requires
        laid_out(m, addr, entries),
        m(entry_at(addr, entries, entries.len() as int)) == 0xFF,
        forall|j: int| 0 <= j < entries.len() ==> (#[trigger] entries[j]).tag != tag,
    ensures
        entry_from(m, tag, min_len, addr) is None,
    decreases entries.len(),
{
    if entries.len() > 0 {
        let e = entries[0];
        let bytes = entry_bytes(e);
        assert(m(addr + 0) == bytes[0]);
        assert(m(addr + 1) == bytes[1]);
        let rest = entries.skip(1);
        assert forall|j: int| 0 <= j < rest.len() implies (#[trigger] rest[j]).tag != tag by {
            assert(rest[j] == entries[j + 1]);
        }
        lemma_entries_from(addr, entries, rest.len() as int);
        lemma_no_entry(m, addr + 2 + e.data.len(), rest, tag, min_len);
    }
}

proof fn lemma_entries_from(addr: int, entries: Seq<Entry>, i: int)
    requires
        entries.len() > 0,
        0 <= i < entries.len(),
    ensures
        entry_at(addr, entries, i + 1) == entry_at(
            addr + 2 + entries[0].data.len(),
            entries.skip(1),
            i,
        ),
    decreases i,
{
    if i > 0 {
        lemma_entries_from(addr, entries, i - 1);
        assert(entries.skip(1)[i - 1] == entries[i]);
    } else {
        reveal_with_fuel(entry_at, 2);
    }
}

/// Which bits and values the registers have.
pub proof fn lemma_layout()
    ensures
        TLV_START == 0x1A08,
        TLV_END == 0x1AFF,
        TAG_END == 255,
        TAG_ADC12_CAL == 17,
        TAG_REF_CAL == 18,
{
}

/// An entry that is too short for what it should hold is as good as none, and the
/// search goes no further.
pub proof fn lemma_short_entry(m: Memory, addr: int, entries: Seq<Entry>, i: int, tag: u8, min_len: int)
    requires
        laid_out(m, addr, entries),
        0 <= i < entries.len(),
        entries[i].tag == tag,
        forall|j: int| 0 <= j < i ==> (#[trigger] entries[j]).tag != tag,
        entries[i].data.len() < min_len,
    ensures
        entry_from(m, tag, min_len, addr) is None,
    decreases i,
{
    let e = entries[0];
    let bytes = entry_bytes(e);
    assert(m(addr + 0) == bytes[0]);
    assert(m(addr + 1) == bytes[1]);
    if i > 0 {
        let rest = entries.skip(1);
        assert(rest[i - 1] == entries[i]);
        assert forall|j: int| 0 <= j < i - 1 implies (#[trigger] rest[j]).tag != tag by {
            assert(rest[j] == entries[j + 1]);
        }
        assert(entries[0].tag != tag);
        lemma_short_entry(m, addr + 2 + e.data.len(), rest, i - 1, tag, min_len);
    }
}

} // verus!
