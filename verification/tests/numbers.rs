//! The pure parts: text, rates, ladders, checksums, segments, alarms.
use msp430fr5969_hal::adc_seq::{encode_mctl, map_bits, validate, SeqMember, SequenceError};
use msp430fr5969_hal::baud::{compute_baud, ucbrs_lookup};
use msp430fr5969_hal::captio::{ctl_word, hz_from_gate};
use msp430fr5969_hal::capture::{
    duty_permille, hz_from_period_ticks, periods_in_span, span_ratio_permille, within_permille,
};
use msp430fr5969_hal::comp_ladder::{ladder_millivolts, tap_for_millivolts};
use msp430fr5969_hal::crc::{crc16_ccitt_lsb, crc16_ccitt_msb};
use msp430fr5969_hal::demo;
use msp430fr5969_hal::fram_addr::{check_bounds, FramError};
use msp430fr5969_hal::mpu::{segment_containing, Access, Violation};
use msp430fr5969_hal::rtc::{alarm_matches, Alarm};
use msp430fr5969_hal::rtc_tick::TickRate;
use msp430fr5969_hal::rx_queue::RxQueue;
use msp430fr5969_hal::text::{write_dec, write_deci, write_hex};
use msp430fr5969_hal::ticks::{assemble_now64, ticks_to_ns, ticks_to_us, us_to_ticks};

fn dec(n: u32) -> String {
    let mut out = vec![];
    write_dec(&mut out, n);
    String::from_utf8(out).unwrap()
}

fn deci(n: i16) -> String {
    let mut out = vec![];
    write_deci(&mut out, n);
    String::from_utf8(out).unwrap()
}

#[test]
fn decimal_text() {
    assert_eq!(dec(0), "0");
    assert_eq!(dec(7), "7");
    assert_eq!(dec(10), "10");
    assert_eq!(dec(4095), "4095");
    assert_eq!(dec(u32::MAX), "4294967295");
}

#[test]
fn tenths_text() {
    assert_eq!(deci(273), "27.3");
    assert_eq!(deci(-5), "-0.5");
    assert_eq!(deci(0), "0.0");
    assert_eq!(deci(i16::MIN), "-3276.8");
}

#[test]
fn hexadecimal_text() {
    let mut out = vec![b'>'];
    write_hex(&mut out, &[0xA5, 0x09]);
    assert_eq!(out, b">A5 09 ");
}

#[test]
fn crc_catalogue_values() {
    let check = b"123456789";
    assert_eq!(crc16_ccitt_msb(0xFFFF, check), 0x29B1);
    assert_eq!(crc16_ccitt_msb(0x0000, check), 0x31C3);
    assert_eq!(crc16_ccitt_lsb(0x0000, check), 0x2189);
    assert_eq!(crc16_ccitt_lsb(0xFFFF, check) ^ 0xFFFF, 0x906E);
    assert_eq!(crc16_ccitt_msb(crc16_ccitt_msb(0xFFFF, b"1234"), b"56789"), 0x29B1);
}

#[test]
fn crc_conventions_are_mirror_images() {
    let data = [0x12u8, 0x34, 0x56];
    let mirrored: Vec<u8> = data.iter().map(|b| b.reverse_bits()).collect();
    let seed = 0x1D0F;
    assert_eq!(
        crc16_ccitt_lsb(u16::reverse_bits(seed), &mirrored),
        crc16_ccitt_msb(seed, &data).reverse_bits()
    );
}

#[test]
fn baud_rates_of_the_table() {
    let regs = compute_baud(8_000_000, 9600);
    assert!(regs.oversampling);
    assert_eq!((regs.ucbr, regs.ucbrf), (52, 1));
    let slow = compute_baud(32_768, 9600);
    assert!(!slow.oversampling);
    assert_eq!(slow.ucbr, 3);
    assert_eq!(ucbrs_lookup(0), 0x00);
    assert_eq!(ucbrs_lookup(9999), 0xFE);
}

#[test]
fn ladder_taps() {
    assert_eq!(ladder_millivolts(15, 3200), 1600);
    assert_eq!(ladder_millivolts(31, 3300), 3300);
    assert_eq!(tap_for_millivolts(1600, 3200), 15);
    assert_eq!(tap_for_millivolts(0, 3200), 0);
    assert_eq!(tap_for_millivolts(5000, 3200), 31);
    assert_eq!(tap_for_millivolts(5, 0), 0);
}

#[test]
fn tick_conversions() {
    assert_eq!(ticks_to_us(32_768, 32_768), 1_000_000);
    assert_eq!(ticks_to_ns(1, 8_000_000), 125);
    assert_eq!(us_to_ticks(2_000_000, 32_768), None);
    assert_eq!(us_to_ticks(1_000_000, 32_768), Some(32_768));
    assert_eq!(assemble_now64(2, 3), 0x0002_0003);
}

#[test]
fn capture_arithmetic() {
    assert_eq!(hz_from_period_ticks(1_000_000, 0, 5), 0);
    assert_eq!(hz_from_period_ticks(1_000_000, 3000, 3), 1000);
    assert_eq!(duty_permille(250, 1000), 250);
    assert_eq!(duty_permille(3, 2), 1000);
    assert_eq!(duty_permille(3, 0), 0);
    assert_eq!(periods_in_span(1_000_000, 1_000_000, 32_768), 32_768);
    assert_eq!(span_ratio_permille(1_010_000, 32_768, 1_000_000, 32_768), 1010);
    assert!(within_permille(1010, 1000, 10));
    assert!(!within_permille(989, 1000, 10));
}

#[test]
fn touch_words_step_by_two() {
    assert_eq!(ctl_word(1, 0), Some(0x0110));
    assert_eq!(ctl_word(1, 1), Some(0x0112));
    assert_eq!(ctl_word(15, 7), Some(0x01FE));
    assert_eq!(ctl_word(16, 0), None);
    assert_eq!(ctl_word(0, 8), None);
    assert_eq!(hz_from_gate(6400, 2000, 1_000_000), 3_200_000);
    assert_eq!(hz_from_gate(6400, 0, 1_000_000), 0);
    assert_eq!(hz_from_gate(65535, 1, 16_000_000), (65535u64 * 16_000_000) as u32);
}

#[test]
fn touch_threshold_is_a_fifth_below() {
    let mut readings = [None; 8];
    assert_eq!(demo::touch_threshold(&readings), 0);
    readings[2] = Some(1000);
    readings[5] = Some(2001);
    assert_eq!(demo::touch_threshold(&readings), 1200);
    assert!(demo::is_touched(Some(1199), 1200));
    assert!(!demo::is_touched(Some(1200), 1200));
    assert!(!demo::is_touched(None, 1200));
}

#[test]
fn supply_readings() {
    assert_eq!(demo::avcc_millivolts(4095), 3300);
    assert_eq!(demo::avcc_millivolts(2047), 1649);
    assert!(demo::above_middle(2048));
    assert!(!demo::above_middle(2047));
    assert!(demo::supply_in_window(1844));
    assert!(!demo::supply_in_window(1843));
    assert!(!demo::supply_in_window(2253));
}

#[test]
fn fram_bounds() {
    assert_eq!(check_bounds(0, 512, 512), Ok(()));
    assert_eq!(check_bounds(512, 0, 512), Ok(()));
    assert_eq!(check_bounds(1, 512, 512), Err(FramError::OutOfBounds));
    assert_eq!(check_bounds(u32::MAX, usize::MAX, 512), Err(FramError::OutOfBounds));
}

#[test]
fn segments_and_rights() {
    assert_eq!(segment_containing(0x5000, 0x6000, 0x4FFF), 1);
    assert_eq!(segment_containing(0x5000, 0x6000, 0x5000), 2);
    assert_eq!(segment_containing(0x5000, 0x6000, 0x6000), 3);
    assert_eq!(Access::rx().reset_on_violation().violation, Violation::Puc);
    assert_eq!(Violation::default(), Violation::Flag);
    assert!(!Access::none().read);
}

#[test]
fn alarms_match_all_their_fields() {
    let daily = Alarm::daily_at(7, 30);
    assert!(alarm_matches(&daily, 30, 7, 3, 12));
    assert!(!alarm_matches(&daily, 31, 7, 3, 12));
    assert!(!alarm_matches(&Alarm::default(), 0, 0, 0, 1));
    assert!(alarm_matches(&Alarm::hourly_at(5), 5, 23, 6, 31));
}

#[test]
fn tick_rates_halve() {
    assert_eq!(TickRate::Hz16384.hz_x2(), 32768);
    assert_eq!(TickRate::HalfHz.hz_x2(), 1);
    assert_eq!(TickRate::Hz16384.period_us(), 61);
    assert_eq!(TickRate::HalfHz.period_us(), 2_000_000);
    assert!(!TickRate::Hz128.uses_rt1ps());
    assert!(TickRate::Hz64.uses_rt1ps());
    assert_eq!(TickRate::Hz64.ip_code(), 0);
    assert_eq!(TickRate::Hz128.ip_code(), 7);
}

#[test]
fn queue_keeps_order_and_counts_losses() {
    let mut queue: RxQueue<4> = RxQueue::new();
    assert!(queue.is_empty());
    for b in 1..=3u8 {
        assert!(queue.push(b));
    }
    assert!(queue.push(4));
    assert!(!queue.push(5));
    assert_eq!(queue.dropped(), 1);
    assert_eq!(queue.pop(), Some(1));
    assert_eq!(queue.pop(), Some(2));
    assert_eq!(queue.len(), 2);
}

#[test]
fn sequences_are_validated_and_encoded() {
    let members = [SeqMember::channel(4), SeqMember::supply_vref(), SeqMember::temperature()];
    assert_eq!(validate(&members, 3, true), Ok(()));
    assert_eq!(validate(&members, 3, false), Err(SequenceError::NeedsRef));
    assert_eq!(validate(&[], 0, true), Err(SequenceError::Empty));
    assert_eq!(validate(&members, 2, true), Err(SequenceError::BufferTooShort));
    assert_eq!(validate(&[SeqMember::channel(1); 33], 40, true), Err(SequenceError::TooLong));
    assert_eq!(
        validate(&[SeqMember::channel(32)], 1, true),
        Err(SequenceError::ChannelOutOfRange)
    );
    assert_eq!(map_bits(&members), (true, true));
    let mut words = [0u16; 3];
    encode_mctl(&members, &mut words);
    assert_eq!(words, [0x0004, 0x011F, 0x019E]);
    assert!(!members[0].needs_vref());
}
