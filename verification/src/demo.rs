//! What the demonstration programs decide and measure.
use vstd::prelude::*;

use crate::adc::{Adc, Internal, RefSel};
use crate::bus::{Bus, Hardware, Stalled, Step};
use crate::fram::{HighFram, InfoFram};
use crate::ref_a::Ref;
use crate::spi::{Instance, Spi};
use crate::tlv::{AdcCal, RefCal};

verus! {

broadcast use crate::trace::group_growth;

/// The supply that readings are scaled to, in millivolts.
pub const AVCC_MV: u32 = 3300;

/// Half of the full scale at 12 bits.
pub const HALF_SCALE: u16 = 2048;

/// How far from it half of the supply may read.
pub const WINDOW: u16 = 205;

/// Marks information FRAM as holding a boot count.
pub const MAGIC: u32 = 0xF5A1_0001;

/// A 12-bit reading against the supply, in millivolts.
pub fn avcc_millivolts(counts: u16) -> (r: u32)
    ensures
        r == counts * 3300 / 4095,
{
    (counts as u32 * AVCC_MV) / 4095
}

/// Whether a 12-bit reading is above the middle.
pub fn above_middle(counts: u16) -> (r: bool)
    ensures
        r == (counts > 2047),
{
    counts > 2047
}

/// Whether half of the supply reads as about half of the scale.
pub fn supply_in_window(supply: u16) -> (r: bool)
    ensures
        r == (HALF_SCALE - WINDOW < supply < HALF_SCALE + WINDOW),
{
    supply > HALF_SCALE - WINDOW && supply < HALF_SCALE + WINDOW
}

/// A calibrated supply reading in millivolts.
pub open spec fn calibrated_millivolts(
    cal: AdcCal,
    ref_cal: RefCal,
    adc: Adc,
    vref: Ref,
    raw: u16,
) -> int {
    let corrected = crate::adc_cal::gained(raw as int, cal.gain_factor as int, cal.offset as int);
    let counts = crate::adc_cal::rescaled(
        corrected,
        ref_cal.factor@[vref.level().position()] as int,
    );
    2 * crate::adc::millivolts_of(counts as u16, adc.bits(), vref.level().nominal())
}

/// Measures the supply in millivolts, with all calibration where it is there
/// and by the nominal reference where it is not. The reading that calibration
/// would need is taken in either case.
pub fn measure_supply<H: Hardware>(
    adc: &mut Adc,
    bus: &mut Bus<H>,
    vref: &Ref,
    cal: &Option<AdcCal>,
    ref_cal: &Option<RefCal>,
) -> (r: Result<u32, Stalled>)
    ensures
        *final(adc) == *old(adc),
        exists|raw: Result<u16, Stalled>, between: Bus<H>, again: Result<u16, Stalled>|
            #[trigger] supply_outcome(
                *old(bus),
                between,
                *final(bus),
                *old(adc),
                *vref,
                *cal,
                *ref_cal,
                raw,
                again,
                r,
            ),
{
    let ghost pre = *bus;
    let first = adc.read_supply_raw(bus, vref);
    let ghost between = *bus;
    let raw: u16 = match first {
        Ok(raw) => raw,
        Err(e) => {
            assert(supply_outcome(
                pre,
                between,
                *bus,
                *adc,
                *vref,
                *cal,
                *ref_cal,
                first,
                first,
                Err(e),
            ));
            return Err(e);
        },
    };
    match (cal, ref_cal) {
        (Some(c), Some(r)) => {
            let corrected: u16 = r.correct(vref.voltage(), c.correct_gain_offset(raw));
            let half: u32 = adc.to_millivolts(corrected, vref);
            proof {
                crate::adc::lemma_millivolts_small(
                    corrected,
                    adc.bits(),
                    vref.level().nominal(),
                );
            }
            let mv: u32 = half * 2;
            assert(supply_outcome(
                pre,
                between,
                *bus,
                *adc,
                *vref,
                *cal,
                *ref_cal,
                first,
                first,
                Ok(mv),
            ));
            Ok(mv)
        },
        _ => {
            let r = adc.read_supply_millivolts(bus, vref);
            proof {
                let again = choose|counts: Result<u16, Stalled>|
                    {
                        &&& #[trigger] crate::adc::converted(
                            between,
                            *bus,
                            31,
                            Internal::SupplyHalf,
                            RefSel::VRef,
                            counts,
                        )
                        &&& match counts {
                            Ok(c) => r matches Ok(mv) && mv == 2 * crate::adc::millivolts_of(
                                c,
                                adc.bits(),
                                vref.level().nominal(),
                            ),
                            Err(_) => r is Err,
                        }
                    };
                assert(supply_outcome(
                    pre,
                    between,
                    *bus,
                    *adc,
                    *vref,
                    *cal,
                    *ref_cal,
                    first,
                    again,
                    r,
                ));
            }
            r
        },
    }
}

/// The measurement of the supply: `raw` is its first reading, and `again` the
/// second one that is taken where calibration is missing.
pub open spec fn supply_outcome<H: Hardware>(
    pre: Bus<H>,
    between: Bus<H>,
    post: Bus<H>,
    adc: Adc,
    vref: Ref,
    cal: Option<AdcCal>,
    ref_cal: Option<RefCal>,
    raw: Result<u16, Stalled>,
    again: Result<u16, Stalled>,
    r: Result<u32, Stalled>,
) -> bool {
    &&& crate::adc::converted(pre, between, 31, Internal::SupplyHalf, RefSel::VRef, raw)
    &&& match raw {
        Err(_) => r is Err && post == between,
        Ok(counts) => match (cal, ref_cal) {
            (Some(c), Some(rc)) => {
                &&& post == between
                &&& r matches Ok(mv)
                &&& mv == calibrated_millivolts(c, rc, adc, vref, counts)
            },
            _ => {
                &&& crate::adc::converted(
                    between,
                    post,
                    31,
                    Internal::SupplyHalf,
                    RefSel::VRef,
                    again,
                )
                &&& match again {
                    Ok(c) => r matches Ok(mv) && mv == 2 * crate::adc::millivolts_of(
                        c,
                        adc.bits(),
                        vref.level().nominal(),
                    ),
                    Err(_) => r is Err,
                }
            },
        },
    }
}

/// The sum of the readings that there are.
pub open spec fn total(readings: Seq<Option<u32>>) -> int
    decreases readings.len(),
{
    if readings.len() == 0 {
        0
    } else {
        total(readings.drop_last()) + match readings.last() {
            Some(hz) => hz as int,
            None => 0,
        }
    }
}

/// How many readings there are.
pub open spec fn present(readings: Seq<Option<u32>>) -> int
    decreases readings.len(),
{
    if readings.len() == 0 {
        0
    } else {
        present(readings.drop_last()) + if readings.last() is Some {
            1int
        } else {
            0
        }
    }
}

/// The average of the readings that there are, rounded down; 0 where there is
/// none.
pub open spec fn baseline(readings: Seq<Option<u32>>) -> int {
    if present(readings) == 0 {
        0
    } else {
        total(readings) / present(readings)
    }
}

/// A fifth below the average of the readings.
pub open spec fn threshold_of(readings: Seq<Option<u32>>) -> int {
    baseline(readings) - baseline(readings) / 5
}

/// The frequency below which a pad counts as touched: a fifth below the
/// average of the readings that were taken of it untouched.
pub fn touch_threshold(readings: &[Option<u32>; 8]) -> (r: u32)
    ensures
        r == threshold_of(readings@),
{
    let mut sum: u64 = 0;
    let mut n: u64 = 0;
    let mut i: usize = 0;
    while i < 8
        invariant
            i <= 8,
            sum == total(readings@.take(i as int)),
            n == present(readings@.take(i as int)),
            n <= i,
            sum <= n * 0xFFFF_FFFF,
        decreases 8 - i,
    {
        assert(readings@.take(i + 1).drop_last() =~= readings@.take(i as int));
        match readings[i] {
            Some(hz) => {
                sum = sum + hz as u64;
                n = n + 1;
            },
            None => {},
        }
        i = i + 1;
    }
    assert(readings@.take(8) =~= readings@);
    if n == 0 {
        return 0;
    }
    assert(sum / n <= 0xFFFF_FFFF) by (nonlinear_arith)
        requires
            sum <= n * 0xFFFF_FFFF,
            n > 0,
    ;
    let average: u32 = (sum / n) as u32;
    average - average / 5
}

/// There is a reading, and it is below the threshold.
pub open spec fn touched(reading: Option<u32>, threshold: int) -> bool {
    reading matches Some(hz) && hz < threshold
}

/// Whether a pad is touched. One that oscillates too fast to be measured is
/// not.
pub fn is_touched(reading: Option<u32>, threshold: u32) -> (r: bool)
    ensures
        r == touched(reading, threshold as int),
{
    match reading {
        Some(hz) => hz < threshold,
        None => false,
    }
}

/// A word from its bytes, the lowest first.
pub open spec fn word(bytes: Seq<u8>) -> int {
    bytes[0] + 0x100 * bytes[1] + 0x1_0000 * bytes[2] + 0x100_0000 * bytes[3]
}

/// The bytes of a word, the lowest first.
pub open spec fn bytes_of(value: u32) -> Seq<u8> {
    seq![
        (value % 0x100) as u8,
        (value / 0x100 % 0x100) as u8,
        (value / 0x1_0000 % 0x100) as u8,
        (value / 0x100_0000) as u8,
    ]
}

fn join(b: &[u8; 4]) -> (r: u32)
    ensures
        r == word(b@),
{
    b[0] as u32 + 0x100 * (b[1] as u32) + 0x1_0000 * (b[2] as u32) + 0x100_0000 * (b[3] as u32)
}

fn parts(value: u32) -> (r: [u8; 4])
    ensures
        r@ == bytes_of(value),
        word(r@) == value,
{
    let r: [u8; 4] = [
        (value % 0x100) as u8,
        (value / 0x100 % 0x100) as u8,
        (value / 0x1_0000 % 0x100) as u8,
        (value / 0x100_0000) as u8,
    ];
    assert(r@ =~= bytes_of(value));
    r
}

/// The count of this boot, from what FRAM held.
pub open spec fn next_count(magic: Seq<u8>, count: Seq<u8>) -> int {
    if word(magic) == MAGIC {
        (word(count) + 1) % 0x1_0000_0000
    } else {
        1
    }
}

/// The steps of counting a boot.
pub open spec fn count_script(magic: Seq<u8>, count: Seq<u8>) -> Seq<Step> {
    crate::fram::read_script(0x1800, magic) + crate::fram::read_script(0x1804, count) + (if word(
        magic,
    ) == MAGIC {
        Seq::empty()
    } else {
        crate::fram::write_script(0x1800, bytes_of(MAGIC))
    }) + crate::fram::write_script(0x1804, bytes_of(next_count(magic, count) as u32))
}

/// Two scripts run one after the other are one script.
proof fn lemma_ran_on<H: Hardware>(
    pre: Bus<H>,
    mid: Bus<H>,
    post: Bus<H>,
    a: Seq<Step>,
    b: Seq<Step>,
)
    requires
        mid.ran(pre, a),
        post.ran(mid, b),
    ensures
        post.ran(pre, a + b),
{
}

/// Counts a boot in information FRAM and returns the count. On a chip that was
/// never counted on the count begins with 1.
pub fn count_boot<H: Hardware>(info: &mut InfoFram, bus: &mut Bus<H>) -> (r: u32)
    ensures
        exists|magic: Seq<u8>, count: Seq<u8>|
            {
                &&& magic.len() == 4
                &&& count.len() == 4
                &&& r == next_count(magic, count)
                &&& final(bus).ran(*old(bus), #[trigger] count_script(magic, count))
            },
{
    let mut magic: [u8; 4] = [0u8, 0, 0, 0];
    let mut count: [u8; 4] = [0u8, 0, 0, 0];
    let _ = info.read(bus, 0, &mut magic);
    let ghost first = crate::fram::read_script(0x1800, magic@);
    assert(bus.ran(*old(bus), first));
    let ghost mid = *bus;
    let _ = info.read(bus, 4, &mut count);
    let ghost second = crate::fram::read_script(0x1804, count@);
    proof {
        lemma_ran_on(*old(bus), mid, *bus, first, second);
    }
    let ghost mut third: Seq<Step> = Seq::empty();
    let ghost mid = *bus;
    let next: u32 = if join(&magic) == MAGIC {
        join(&count).wrapping_add(1)
    } else {
        let _ = info.write(bus, 0, &parts(MAGIC));
        proof {
            third = crate::fram::write_script(0x1800, bytes_of(MAGIC));
        }
        1
    };
    assert(next == next_count(magic@, count@));
    proof {
        lemma_ran_on(*old(bus), mid, *bus, first + second, third);
    }
    let ghost mid = *bus;
    let _ = info.write(bus, 4, &parts(next));
    proof {
        lemma_ran_on(
            *old(bus),
            mid,
            *bus,
            first + second + third,
            crate::fram::write_script(0x1804, bytes_of(next)),
        );
    }
    assert(bus.ran(*old(bus), count_script(magic@, count@)));
    next
}

/// A pattern that neither an empty nor a stuck memory would show.
pub const FRAM_PATTERN: [u8; 16] = [
    0xDE, 0xAD, 0xBE, 0xEF, 0x01, 0x23, 0x45, 0x67, 0x89, 0xAB, 0xCD, 0xEF, 0xF0, 0x0D, 0xBA, 0xBE,
];

/// The byte stored at the very end.
pub const TOP_MARK: u8 = 0x5A;

/// The steps of the check of upper FRAM.
pub open spec fn high_check_script(before: Seq<u8>, after: Seq<u8>, top: Seq<u8>) -> Seq<Step> {
    crate::fram::read_script(0x1_0000, before) + crate::fram::write_script(
        0x1_0000,
        FRAM_PATTERN@,
    ) + crate::fram::write_script(0x1_3FFF, seq![TOP_MARK]) + crate::fram::read_script(
        0x1_0000,
        after,
    ) + crate::fram::read_script(0x1_3FFF, top)
}

/// Stores a pattern at both ends of upper FRAM and reads it back. Returns
/// whether that went well, and whether the pattern had been there before.
pub fn check_high_fram<H: Hardware>(high: &mut HighFram, bus: &mut Bus<H>) -> (r: (bool, bool))
    ensures
        exists|before: Seq<u8>, after: Seq<u8>, top: Seq<u8>|
            {
                &&& before.len() == 16
                &&& after.len() == 16
                &&& top.len() == 1
                &&& r.0 == (after == FRAM_PATTERN@ && top[0] == TOP_MARK)
                &&& r.1 == (before == FRAM_PATTERN@)
                &&& final(bus).ran(*old(bus), #[trigger] high_check_script(before, after, top))
            },
{
    let pattern: [u8; 16] = FRAM_PATTERN;
    let mark: [u8; 1] = [TOP_MARK];
    let mut before: [u8; 16] = [0u8, 0, 0, 0, 0, 0, 0, 0, 0, 0, 0, 0, 0, 0, 0, 0];
    let _ = high.read(bus, 0, &mut before);
    let persisted: bool = same(&before, &pattern);
    let _ = high.write(bus, 0, &pattern);
    let _ = high.write(bus, 0x3FFF, &mark);
    let mut after: [u8; 16] = [0u8, 0, 0, 0, 0, 0, 0, 0, 0, 0, 0, 0, 0, 0, 0, 0];
    let _ = high.read(bus, 0, &mut after);
    let mut top: [u8; 1] = [0u8];
    let _ = high.read(bus, 0x3FFF, &mut top);
    let ok: bool = same(&after, &pattern) && top[0] == TOP_MARK;
    assert(mark@ =~= seq![TOP_MARK]);
    assert(bus.ran(*old(bus), high_check_script(before@, after@, top@)));
    (ok, persisted)
}

/// The bytes that the SPI loopback sends.
pub const SPI_PATTERN: [u8; 6] = [0xA5, 0x3C, 0xFF, 0x00, 0x55, 0xAA];

/// Sends the pattern over SPI and returns what came back, and whether all of it
/// came back and it is the pattern again.
pub fn spi_loopback<U: Instance, H: Hardware>(spi: &mut Spi<U>, bus: &mut Bus<H>) -> (r: (
    [u8; 6],
    bool,
))
    ensures
        exists|rx: Seq<u8>, all: bool|
            {
                &&& #[trigger] crate::spi::exchanged::<U, H>(
                    *old(bus),
                    *final(bus),
                    SPI_PATTERN@,
                    rx,
                    all,
                )
                &&& r.0@ == crate::spi::overlaid(SPI_PATTERN@, rx)
                &&& r.1 == (all && r.0@ == SPI_PATTERN@)
            },
{
    let pattern: [u8; 6] = SPI_PATTERN;
    let mut buf: [u8; 6] = SPI_PATTERN;
    let sent = spi.transfer_in_place(bus, &mut buf);
    let all: bool = sent.is_ok();
    assert(exists|rx: Seq<u8>| #[trigger]
        crate::spi::exchanged::<U, H>(*old(bus), *bus, SPI_PATTERN@, rx, all) && buf@
            == crate::spi::overlaid(SPI_PATTERN@, rx));
    let pass: bool = all && same(&buf, &pattern);
    (buf, pass)
}

/// Whether two buffers hold the same bytes.
fn same(a: &[u8], b: &[u8]) -> (r: bool)
    ensures
        r == (a@ == b@),
{
    if a.len() != b.len() {
        return false;
    }
    let mut i: usize = 0;
    while i < a.len()
        invariant
            i <= a@.len(),
            a@.len() == b@.len(),
            forall|k: int| 0 <= k < i ==> a@[k] == b@[k],
        decreases a@.len() - i,
    {
        if a[i] != b[i] {
            return false;
        }
        i = i + 1;
    }
    assert(a@ =~= b@);
    true
}

/// Output of port 1.
pub const P1OUT: u32 = 0x0202;

/// Direction of port 1.
pub const P1DIR: u32 = 0x0204;

/// Output of port 4.
pub const P4OUT: u32 = 0x0223;

/// Direction of port 4.
pub const P4DIR: u32 = 0x0225;

/// The pin lock.
pub const PM5CTL0: u32 = 0x0130;

/// The preparation of the blinking program.
pub open spec fn blink_setup_script() -> Seq<Step> {
    seq![
        crate::watchdog::keyed(crate::watchdog::HOLD),
        Step::Edit16 { addr: PM5CTL0, clear: 0x0001, set: 0 },
        Step::Edit8 { addr: P1DIR, clear: 0, set: 0x01 },
        Step::Edit8 { addr: P4DIR, clear: 0, set: 0x40 },
    ]
}

/// Stops the watchdog, unlocks the pins and makes the two LED pins outputs.
pub fn blink_setup<H: Hardware>(bus: &mut Bus<H>)
    ensures
        final(bus).ran(*old(bus), blink_setup_script()),
{
    crate::watchdog::disable(bus);
    bus.edit16(PM5CTL0, 0x0001, 0);
    bus.edit8(P1DIR, 0, 0x01);
    bus.edit8(P4DIR, 0, 0x40);
}

/// Both LEDs switched over, from the outputs that the ports had.
pub open spec fn blink_script(p1: u8, p4: u8) -> Seq<Step> {
    seq![
        Step::Read8 { addr: P1OUT, value: p1 },
        Step::Write8 { addr: P1OUT, value: p1 ^ 0x01 },
        Step::Read8 { addr: P4OUT, value: p4 },
        Step::Write8 { addr: P4OUT, value: p4 ^ 0x40 },
    ]
}

/// Switches both LEDs over.
pub fn blink<H: Hardware>(bus: &mut Bus<H>)
    ensures
        exists|p1: u8, p4: u8| final(bus).ran(*old(bus), #[trigger] blink_script(p1, p4)),
{
    let p1: u8 = bus.read8(P1OUT);
    bus.write8(P1OUT, p1 ^ 0x01);
    let p4: u8 = bus.read8(P4OUT);
    bus.write8(P4OUT, p4 ^ 0x40);
    assert(bus.ran(*old(bus), blink_script(p1, p4)));
}

proof fn lemma_word_of_bytes(value: u32)
    ensures
        word(bytes_of(value)) == value,
{
}

/// The boots are counted one by one, whatever FRAM held at first: a boot whose
/// reads find what the boot before it left counts one more than that.
pub proof fn lemma_boots_counted(
    memory: spec_fn(int) -> u8,
    magic1: Seq<u8>,
    count1: Seq<u8>,
    magic2: Seq<u8>,
    count2: Seq<u8>,
)
    requires
        magic1.len() == 4 && count1.len() == 4 && magic2.len() == 4 && count2.len() == 4,
        crate::fram::reads_from(crate::fram::read_script(0x1800, magic1), memory),
        crate::fram::reads_from(crate::fram::read_script(0x1804, count1), memory),
        ({
            let left = crate::memory::memory_after(memory, count_script(magic1, count1));
            &&& crate::fram::reads_from(crate::fram::read_script(0x1800, magic2), left)
            &&& crate::fram::reads_from(crate::fram::read_script(0x1804, count2), left)
        }),
    ensures
        next_count(magic2, count2) == (next_count(magic1, count1) + 1) % 0x1_0000_0000,
{
    let next = next_count(magic1, count1) as u32;
    let reads = crate::fram::read_script(0x1800, magic1) + crate::fram::read_script(
        0x1804,
        count1,
    );
    let seed = if word(magic1) == MAGIC {
        Seq::empty()
    } else {
        crate::fram::write_script(0x1800, bytes_of(MAGIC))
    };
    let tail = crate::fram::write_script(0x1804, bytes_of(next));
    let script = count_script(magic1, count1);
    assert(script =~= reads + seed + tail);
    let left = crate::memory::memory_after(memory, script);
    crate::memory::lemma_memory_joins(memory, reads + seed, tail);
    crate::memory::lemma_memory_joins(memory, reads, seed);
    crate::fram::lemma_reads_keep(memory, reads);
    let middle = crate::memory::memory_after(memory, reads + seed);
    assert forall|i: int| 0 <= i < 4 implies #[trigger] count2[i] == bytes_of(next)[i] by {
        crate::fram::lemma_read_back(middle, 0x1804, bytes_of(next), 0x1804, count2);
    }
    assert(count2 =~= bytes_of(next));
    crate::fram::lemma_read_back(middle, 0x1804, bytes_of(next), 0x1800, magic2);
    lemma_word_of_bytes(next);
    lemma_word_of_bytes(MAGIC);
    assert forall|i: int| 0 <= i < 4 implies #[trigger] magic2[i] == middle(0x1800 + i) by {}
    if word(magic1) == MAGIC {
        assert(reads + seed =~= reads);
        assert forall|i: int| 0 <= i < 4 implies #[trigger] magic2[i] == magic1[i] by {
            assert(crate::fram::read_script(0x1800, magic1)[i] == (Step::Read8 {
                addr: (0x1800 + i) as u32,
                value: magic1[i],
            }));
        }
        assert(magic2 =~= magic1);
    } else {
        let clean = crate::memory::memory_after(memory, reads);
        assert forall|i: int| 0 <= i < 4 implies #[trigger] magic2[i] == bytes_of(MAGIC)[i] by {
            crate::fram::lemma_write_lands(clean, 0x1800, bytes_of(MAGIC), 0x1800 + i);
        }
        assert(magic2 =~= bytes_of(MAGIC));
    }
}

/// A pad of which there were no readings never counts as touched, and no pad
/// does at or above the average of the readings taken of it untouched.
pub proof fn lemma_untouched(readings: Seq<Option<u32>>, reading: Option<u32>)
    ensures
        present(readings) == 0 ==> !touched(reading, threshold_of(readings)),
        (reading matches Some(hz) && hz >= baseline(readings)) ==> !touched(
            reading,
            threshold_of(readings),
        ),
        threshold_of(readings) >= 0,
{
    lemma_sums_positive(readings);
    if present(readings) > 0 {
        let t = total(readings);
        let n = present(readings);
        assert(t / n >= 0) by (nonlinear_arith)
            requires
                t >= 0,
                n > 0,
        ;
    }
}

proof fn lemma_sums_positive(readings: Seq<Option<u32>>)
    ensures
        total(readings) >= 0,
        present(readings) >= 0,
    decreases readings.len(),
{
    if readings.len() > 0 {
        lemma_sums_positive(readings.drop_last());
    }
}

/// The lights change places with each blink: P1.0 and P4.6 turn over and no other
/// pin does.
pub proof fn lemma_blink_turns_over(m: crate::memory::Memory, p1: u8, p4: u8)
    requires
        crate::memory::remembered(m, blink_script(p1, p4)),
    ensures
        ({
            let after = crate::memory::memory_after(m, blink_script(p1, p4));
            &&& after(0x0202) == m(0x0202) ^ 1
            &&& after(0x0223) == m(0x0223) ^ 64
        }),
{
    let script = blink_script(p1, p4);
    let s3 = script.drop_last();
    let s2 = s3.drop_last();
    let s1 = s2.drop_last();
    assert(script.last() == (Step::Write8 { addr: P4OUT, value: p4 ^ 0x40 }));
    assert(s3.last() == (Step::Read8 { addr: P4OUT, value: p4 }));
    assert(s2.last() == (Step::Write8 { addr: P1OUT, value: p1 ^ 0x01 }));
    assert(s1.last() == (Step::Read8 { addr: P1OUT, value: p1 }));
    assert(s1.drop_last() =~= Seq::empty());
    reveal_with_fuel(crate::memory::memory_after, 5);
    reveal_with_fuel(crate::memory::remembered, 5);
}

/// The lights are outputs once the pins are unlocked, and the watchdog is held.
pub proof fn lemma_lights_ready(m: crate::memory::Memory)
    ensures
        ({
            let after = crate::memory::memory_after(m, blink_setup_script());
            &&& after(0x0204) == m(0x0204) | 1
            &&& after(0x0225) == m(0x0225) | 64
            &&& crate::memory::word_in(after, 0x0130) == crate::memory::word_in(m, 0x0130) & 0xFFFE
            &&& crate::memory::word_in(after, 0x015C) == 0x5A80
        }),
{
    broadcast use crate::memory::group_memory;

    let script = blink_setup_script();
    crate::memory::lemma_memory_at(m, script);
    reveal_with_fuel(crate::memory::memory_at, 5);
    let a = m(0x0204);
    let b = m(0x0225);
    let w = crate::memory::word_in(m, 0x0130);
    assert((a & !0u8) | 1 == a | 1 && (b & !0u8) | 64 == b | 64 && (w & !1u16) | 0 == w & 0xFFFE)
        by (bit_vector);
    let m1 = crate::memory::put16(m, 0x015C, 0x5A80);
    assert(crate::memory::word_in(m1, 0x0130) == w);
    let m2 = crate::memory::put16(m1, 0x0130, crate::bus::edited16(w, 1, 0));
    assert(crate::memory::memory_at(m, script, 2) == m2);
    assert(crate::memory::word_in(m1, 0x015C) == 0x5A80);
    assert(crate::memory::word_in(m2, 0x015C) == 0x5A80);
    assert(crate::memory::word_in(m2, 0x0130) == w & 0xFFFE);
}

/// A pad is touched when its frequency is a fifth below the mean of the readings
/// that were there.
pub proof fn lemma_threshold_below_mean(readings: Seq<Option<u32>>)
    requires
        present(readings) > 0,
    ensures
        ({
            let n = present(readings);
            let mean = baseline(readings);
            let limit = threshold_of(readings);
            &&& mean * n <= total(readings) < (mean + 1) * n
            &&& 4 * mean <= 5 * limit < 4 * mean + 5
        }),
{
    let t = total(readings);
    let n = present(readings);
    let q = t / n;
    assert(q * n <= t < (q + 1) * n) by (nonlinear_arith)
        requires
            n > 0,
            q == t / n,
    ;
}

/// A count that nothing was kept for begins at 1.
pub proof fn lemma_first_boot(magic: Seq<u8>, count: Seq<u8>)
    requires
        magic.len() == 4,
        count.len() == 4,
    ensures
        !(magic[0] == 0x01 && magic[1] == 0x00 && magic[2] == 0xA1 && magic[3] == 0xF5)
            ==> next_count(magic, count) == 1,
        magic[0] == 0x01 && magic[1] == 0x00 && magic[2] == 0xA1 && magic[3] == 0xF5 && !(count[0]
            == 0xFF && count[1] == 0xFF && count[2] == 0xFF && count[3] == 0xFF) ==> next_count(
            magic,
            count,
        ) == count[0] + 256 * count[1] + 65536 * count[2] + 16777216 * count[3] + 1,
{
}

/// With a calibration that changes nothing the supply is twice what the counts
/// are of the reference.
pub proof fn lemma_plain_calibration(cal: AdcCal, ref_cal: RefCal, adc: Adc, vref: Ref, raw: u16)
    requires
        cal.gain_factor == 0x8000,
        cal.offset == 0,
        ref_cal.factor@[vref.level().position()] == 0x8000,
    ensures
        calibrated_millivolts(cal, ref_cal, adc, vref, raw) == 2 * crate::adc::millivolts_of(
            raw,
            adc.bits(),
            vref.level().nominal(),
        ),
{
    crate::adc_cal::lemma_unity(raw);
}

/// On a memory that keeps what it is given the check of upper FRAM passes, tells
/// what was there before, leaves the pattern at both ends, from 0x10000 on and at
/// 0x13FFF, for the next start to find, and changes nothing else.
pub proof fn lemma_high_check_passes(
    m: crate::memory::Memory,
    before: Seq<u8>,
    after: Seq<u8>,
    top: Seq<u8>,
    a: int,
)
    requires
        before.len() == 16,
        after.len() == 16,
        top.len() == 1,
        crate::memory::remembered(m, high_check_script(before, after, top)),
    ensures
        after =~= FRAM_PATTERN@,
        top[0] == TOP_MARK,
        forall|i: int| 0 <= i < 16 ==> #[trigger] before[i] == m(0x1_0000 + i),
        crate::memory::memory_after(m, high_check_script(before, after, top))(a) == if 0x1_0000 <= a
            < 0x1_0010 {
            FRAM_PATTERN@[a - 0x1_0000]
        } else if a == 0x1_3FFF {
            TOP_MARK
        } else {
            m(a)
        },
{
    let r1 = crate::fram::read_script(0x1_0000, before);
    let w1 = crate::fram::write_script(0x1_0000, FRAM_PATTERN@);
    let w2 = crate::fram::write_script(0x1_3FFF, seq![TOP_MARK]);
    let r2 = crate::fram::read_script(0x1_0000, after);
    let r3 = crate::fram::read_script(0x1_3FFF, top);
    crate::memory::lemma_memory_joins(m, r1, w1);
    crate::memory::lemma_memory_joins(m, r1 + w1, w2);
    crate::memory::lemma_memory_joins(m, r1 + w1 + w2, r2);
    crate::memory::lemma_memory_joins(m, r1 + w1 + w2 + r2, r3);
    let m1 = crate::memory::memory_after(m, r1);
    let m2 = crate::memory::memory_after(m1, w1);
    let m3 = crate::memory::memory_after(m2, w2);
    let m4 = crate::memory::memory_after(m3, r2);
    crate::fram::lemma_reads_keep(m, r1);
    crate::fram::lemma_reads_keep(m3, r2);
    crate::fram::lemma_reads_keep(m4, r3);
    crate::fram::lemma_reads_found(m, 0x1_0000, before);
    crate::fram::lemma_reads_found(m3, 0x1_0000, after);
    crate::fram::lemma_reads_found(m4, 0x1_3FFF, top);
    assert forall|i: int| 0 <= i < 16 implies #[trigger] before[i] == m(0x1_0000 + i) by {
        assert(r1[i] == (Step::Read8 { addr: (0x1_0000 + i) as u32, value: before[i] }));
    }
    assert forall|i: int| 0 <= i < 16 implies #[trigger] after[i] == FRAM_PATTERN@[i] by {
        assert(r2[i] == (Step::Read8 { addr: (0x1_0000 + i) as u32, value: after[i] }));
        crate::fram::lemma_write_lands(m1, 0x1_0000, FRAM_PATTERN@, 0x1_0000 + i);
        crate::fram::lemma_write_lands(m2, 0x1_3FFF, seq![TOP_MARK], 0x1_0000 + i);
    }
    assert(r3[0] == (Step::Read8 { addr: 0x1_3FFF, value: top[0] }));
    crate::fram::lemma_write_lands(m2, 0x1_3FFF, seq![TOP_MARK], 0x1_3FFF);
    crate::fram::lemma_write_lands(m1, 0x1_0000, FRAM_PATTERN@, a);
    crate::fram::lemma_write_lands(m2, 0x1_3FFF, seq![TOP_MARK], a);
}

} // verus!
