//! The drivers on a simulated chip that records every access.
use std::collections::{HashMap, VecDeque};

use msp430fr5969_hal::adc::{Adc, Config as AdcConfig, Resolution};
use msp430fr5969_hal::aes::{Aes, Error as AesError, Key};
use msp430fr5969_hal::bus::{Bus, Hardware, Stalled};
use msp430fr5969_hal::captio::{self, InvalidPin, Port, TouchSense};
use msp430fr5969_hal::capture::{self, CaptureTimer, Edge, Error as CaptureError, Slot};
use msp430fr5969_hal::clocks::{self, AclkSource};
use msp430fr5969_hal::comp_e::{self, CompE, Config as CompConfig, Threshold};
use msp430fr5969_hal::crc::Crc;
use msp430fr5969_hal::delay::Delay;
use msp430fr5969_hal::demo;
use msp430fr5969_hal::dma::{ByteSpan, DmaExt, TriggerSource, WordSpan};
use msp430fr5969_hal::fram::{Error as FramError, HighFram, InfoFram};
use msp430fr5969_hal::gpio::{self, GpioExt};
use msp430fr5969_hal::i2c::{
    Config as I2cConfig, Error as I2cError, I2cExt, I2cSlaveExt, Operation, SlaveConfig, SlaveEvent,
};
use msp430fr5969_hal::mpu::{Access, Config as MpuConfig, Error as MpuError, Mpu};
use msp430fr5969_hal::pac::{Peripherals, Timer0A3, Timer1A3};
use msp430fr5969_hal::peripherals;
use msp430fr5969_hal::power;
use msp430fr5969_hal::ram::Ram;
use msp430fr5969_hal::ref_a::{Ref, ReferenceVoltage};
use msp430fr5969_hal::rtc::{self, Alarm, AlarmError, DateTime, Error as RtcError, Event, Rtc};
use msp430fr5969_hal::serial::{
    self, Config as UartConfig, Error as LineError, NbError, ReadError, SerialExt, UsciA0,
};
use msp430fr5969_hal::spi::{Config as SpiConfig, SpiExt};
use msp430fr5969_hal::sys::{self, NmiSource, ResetReason, ResetReasons};
use msp430fr5969_hal::timer::{self, Counter, Divider};
use msp430fr5969_hal::tlv;
use msp430fr5969_hal::watchdog::{self, ClockSource, Interval, Watchdog, WdtMode};

/// One access, as the chip sees it.
#[derive(Clone, Copy, Debug, PartialEq, Eq)]
enum Op {
    R8(u32, u8),
    W8(u32, u8),
    R16(u32, u16),
    W16(u32, u16),
    Barrier,
    Spin(u16),
    Sleep(u16),
}

/// What hangs on the bus besides memory.
enum Model {
    Memory,
    /// The CRC shift register.
    CrcUnit(u16),
    /// A block cipher that adds the first key byte to every byte, or takes it
    /// away again, and answers with the bytes in reverse order.
    Cipher { key: Vec<u8>, input: Vec<u8>, output: VecDeque<u16>, decrypt: bool, loads: usize },
    /// What is sent on the SPI bus comes back.
    Loopback(u8),
}

/// The chip: memory, values that registers are going to return, and a log.
struct Sim {
    mem: Vec<u8>,
    next: HashMap<u32, VecDeque<u16>>,
    log: Vec<Op>,
    model: Model,
    claimed: bool,
}

impl Sim {
    fn new() -> Sim {
        Sim {
            mem: vec![0; 0x1_4000],
            next: HashMap::new(),
            log: Vec::new(),
            model: Model::Memory,
            claimed: false,
        }
    }

    fn with(model: Model) -> Sim {
        let mut sim = Sim::new();
        sim.model = model;
        sim
    }

    /// The register returns these values one after the other, and the last one
    /// for ever.
    fn answers(mut self, addr: u32, values: &[u16]) -> Sim {
        self.next.insert(addr, values.iter().copied().collect());
        self
    }

    fn poke(mut self, addr: u32, bytes: &[u8]) -> Sim {
        for (i, b) in bytes.iter().enumerate() {
            self.mem[addr as usize + i] = *b;
        }
        self
    }

    fn coming(&mut self, addr: u32) -> Option<u16> {
        let queue = self.next.get_mut(&addr)?;
        if queue.len() > 1 {
            queue.pop_front()
        } else {
            queue.front().copied()
        }
    }

    fn word(&self, addr: u32) -> u16 {
        self.mem[addr as usize] as u16 + 256 * self.mem[addr as usize + 1] as u16
    }

    fn writes(&self) -> Vec<Op> {
        self.log
            .iter()
            .copied()
            .filter(|op| matches!(op, Op::W8(..) | Op::W16(..)))
            .collect()
    }
}

fn crc_bits(mut register: u16, byte: u8) -> u16 {
    for i in 0..8 {
        let bit = byte & (0x80 >> i) != 0;
        let top = register & 0x8000 != 0;
        register <<= 1;
        if bit != top {
            register ^= 0x1021;
        }
    }
    register
}

impl Hardware for Sim {
    fn read8(&mut self, addr: u32) -> u8 {
        let value = match self.coming(addr) {
            Some(v) => v as u8,
            None => self.mem[addr as usize],
        };
        self.log.push(Op::R8(addr, value));
        value
    }

    fn write8(&mut self, addr: u32, value: u8) {
        self.log.push(Op::W8(addr, value));
        self.mem[addr as usize] = value;
        if let Model::CrcUnit(register) = &mut self.model {
            if addr == 0x0152 {
                *register = crc_bits(*register, value);
            } else if addr == 0x0150 {
                *register = crc_bits(*register, value.reverse_bits());
            }
        }
    }

    fn read16(&mut self, addr: u32) -> u16 {
        let modelled = match &mut self.model {
            Model::CrcUnit(register) if addr == 0x0154 => Some(*register),
            Model::CrcUnit(register) if addr == 0x0156 => Some(register.reverse_bits()),
            Model::Cipher { output, .. } if addr == 0x09CA => output.pop_front(),
            Model::Cipher { .. } if addr == 0x09C4 => Some(0x0002),
            Model::Loopback(byte) if addr == 0x064C => Some(*byte as u16),
            Model::Loopback(_) if addr == 0x066C => Some(0x0003),
            _ => None,
        };
        let value = match modelled {
            Some(v) => v,
            None => match self.coming(addr) {
                Some(v) => v,
                None => self.word(addr),
            },
        };
        self.log.push(Op::R16(addr, value));
        value
    }

    fn write16(&mut self, addr: u32, value: u16) {
        self.log.push(Op::W16(addr, value));
        self.mem[addr as usize] = value as u8;
        self.mem[addr as usize + 1] = (value >> 8) as u8;
        match &mut self.model {
            Model::CrcUnit(register) if addr == 0x0154 => *register = value,
            Model::CrcUnit(register) if addr == 0x0152 => {
                *register = crc_bits(crc_bits(*register, value as u8), (value >> 8) as u8)
            }
            Model::Cipher { key, loads, decrypt, input, .. } if addr == 0x09C0 => {
                key.clear();
                input.clear();
                *decrypt = value & 1 != 0;
                if value & 0x80 == 0 {
                    *loads += 1;
                }
            }
            Model::Cipher { key, .. } if addr == 0x09C6 => key.extend(value.to_le_bytes()),
            Model::Cipher { key, input, output, decrypt, .. } if addr == 0x09C8 => {
                input.extend(value.to_le_bytes());
                if input.len() == 16 {
                    let k = key[0];
                    let mut block: Vec<u8> = input.drain(..).collect();
                    block.reverse();
                    for b in block.iter_mut() {
                        *b = if *decrypt { b.wrapping_sub(k) } else { b.wrapping_add(k) };
                    }
                    for pair in block.chunks(2) {
                        output.push_back(pair[0] as u16 + 256 * pair[1] as u16);
                    }
                }
            }
            Model::Loopback(byte) if addr == 0x064E => *byte = value as u8,
            // The requests for START and STOP are met at once.
            Model::Memory if addr == 0x0640 => self.mem[0x0640] &= !0x06,
            _ => {}
        }
    }

    fn barrier(&mut self) {
        self.log.push(Op::Barrier);
    }

    fn claim(&mut self) -> bool {
        !std::mem::replace(&mut self.claimed, true)
    }

    fn spin(&mut self, iters: u16) {
        self.log.push(Op::Spin(iters));
    }

    fn sleep(&mut self, mode: u16) {
        self.log.push(Op::Sleep(mode));
    }

    fn scratch(&mut self) -> u16 {
        0x2000
    }
}

fn board(sim: Sim) -> (Bus<Sim>, Peripherals) {
    let mut bus = Bus::new(sim, 10);
    let p = Peripherals::take(&mut bus).unwrap();
    (bus, p)
}

// --- boot -------------------------------------------------------------------

#[test]
fn peripherals_come_once_and_after_the_watchdog() {
    let mut bus = Bus::new(Sim::new(), 10);
    assert!(peripherals::take(&mut bus, WdtMode::Hold).is_some());
    assert!(peripherals::take(&mut bus, WdtMode::LeaveRunning).is_none());
    let arm = WdtMode::Arm { source: ClockSource::Vloclk, interval: Interval::Cycles512K };
    assert!(peripherals::take(&mut bus, arm).is_none());
    let sim = bus.release();
    assert_eq!(sim.log, vec![Op::W16(0x015C, 0x5A80), Op::W16(0x015C, 0x5A4B)]);
}

#[test]
fn peripherals_come_once_per_chip() {
    let (bus, _p) = board(Sim::new());
    let mut again = Bus::new(bus.release(), 10);
    assert!(Peripherals::take(&mut again).is_none());
    assert!(peripherals::take(&mut again, WdtMode::Hold).is_none());
}

#[test]
fn watchdog_keeps_its_configuration_and_key() {
    let (mut bus, p) = board(Sim::new().answers(0x015C, &[0x6924]));
    let mut wdt = Watchdog::new(p.watchdog_timer);
    wdt.start(&mut bus, ClockSource::Aclk, Interval::Cycles32K);
    wdt.feed(&mut bus);
    wdt.stop(&mut bus);
    wdt.free(&mut bus);
    watchdog::force_reset(&mut bus);
    assert_eq!(
        bus.release().writes(),
        vec![
            Op::W16(0x015C, 0x5A2C),
            Op::W16(0x015C, 0x5A2C),
            Op::W16(0x015C, 0x5AA4),
            Op::W16(0x015C, 0x5AA4),
            Op::W16(0x015C, 0x0000),
        ]
    );
}

// --- clocks and time ----------------------------------------------------------

#[test]
fn performance_clocks() {
    let (mut bus, p) = board(Sim::new());
    let clocks = clocks::configure(p.cs, &mut bus);
    assert_eq!((clocks.mclk(), clocks.smclk()), (1_000_000, 8_000_000));
    assert_eq!(clocks.aclk_source(), AclkSource::Vlo);
    let sim = bus.release();
    assert_eq!(sim.writes().first(), Some(&Op::W8(0x0161, 0xA5)));
    assert_eq!(sim.writes().last(), Some(&Op::W8(0x0161, 0x00)));
}

#[test]
fn crystal_that_starts_is_used() {
    let (mut bus, p) = board(Sim::new().answers(0x016A, &[1, 1, 1, 0]));
    let clocks = clocks::configure_low_power(p.cs, &mut bus);
    assert_eq!(clocks.aclk(), 32_768);
    assert_eq!(clocks.aclk_source(), AclkSource::Lfxt);
}

#[test]
fn crystal_that_does_not_start_is_given_up() {
    let (mut bus, p) = board(Sim::new().answers(0x016A, &[1]));
    let clocks = clocks::configure_low_power(p.cs, &mut bus);
    assert_eq!(clocks.aclk_source(), AclkSource::Vlo);
    assert!(clocks.aclk() != 32_768);
    // Tens of milliseconds an attempt at 1 MHz, a few hundred in all.
    let cycles: Vec<u32> = bus
        .release()
        .log
        .iter()
        .filter_map(|op| match op {
            Op::Spin(n) => Some(3 * *n as u32),
            _ => None,
        })
        .collect();
    assert_eq!(cycles, vec![30_000; 16]);
}

#[test]
fn delays_count_three_cycles_a_turn() {
    let mut bus = Bus::new(Sim::new(), 10);
    let mut delay = Delay::new(1_000_000);
    delay.delay_us(&mut bus, 300);
    delay.delay_ms(&mut bus, 300);
    let sim = bus.release();
    assert_eq!(sim.log[0], Op::Spin(100));
    let turns: u32 = sim.log[1..]
        .iter()
        .map(|op| match op {
            Op::Spin(n) => *n as u32,
            _ => 0,
        })
        .sum();
    assert_eq!(turns, 100_000);
}

#[test]
fn counter_measures_across_overflow() {
    let (mut bus, p) = board(Sim::new().answers(0x0350, &[0xFFF0, 0x0010]));
    let clocks = clocks::configure(p.cs, &mut bus);
    let counter = Counter::new_smclk(p.timer_0_a3, &mut bus, &clocks, Divider::Div8);
    assert_eq!(counter.tick_hz(), 1_000_000);
    let start = counter.now(&mut bus);
    assert_eq!(counter.elapsed_since(&mut bus, start), 0x20);
    assert_eq!(bus.release().word(0x0340), 0x02E4);
}

#[test]
fn timestamp_counts_a_pending_overflow() {
    let (mut bus, p) = board(Sim::new().answers(0x0350, &[0xFFFF, 0x0002]).answers(0x0340, &[1]));
    let clocks = clocks::configure(p.cs, &mut bus);
    let counter = Counter::new_aclk(p.timer_0_a3, &mut bus, &clocks, Divider::Div1);
    assert_eq!(counter.now32(&mut bus, 4), 0x0005_0002);
    let mut quiet = Bus::new(Sim::new().answers(0x0350, &[0x1234]), 10);
    assert_eq!(counter.now32(&mut quiet, 4), 0x0004_1234);
}

#[test]
fn wake_is_armed_relative_to_now() {
    let (mut bus, p) = board(Sim::new().answers(0x0350, &[0xFFFE]));
    let clocks = clocks::configure(p.cs, &mut bus);
    let counter = Counter::new_aclk(p.timer_0_a3, &mut bus, &clocks, Divider::Div1);
    counter.schedule_wake_in(&mut bus, 5);
    timer::clear_wake_irq(&mut bus);
    let sim = bus.release();
    assert_eq!(sim.word(0x0352), 3);
    assert_eq!(sim.word(0x0342), 0);
}

// --- power --------------------------------------------------------------------

#[test]
fn sleeping_sets_the_mode_bits() {
    let mut bus = Bus::new(Sim::new(), 10);
    power::enter_lpm0(&mut bus);
    power::enter_lpm3(&mut bus);
    power::enter_lpm4(&mut bus);
    assert_eq!(bus.release().log, vec![Op::Sleep(0x18), Op::Sleep(0xD8), Op::Sleep(0xF8)]);
}

#[test]
fn power_off_opens_and_closes_the_registers() {
    let mut bus = Bus::new(Sim::new(), 2);
    let p = Peripherals::take(&mut bus).unwrap();
    assert_eq!(power::enter_lpm3_5(&p.pmm, &mut bus), Stalled);
    assert_eq!(power::enter_lpm4_5(&p.pmm, &mut bus), Stalled);
    let sim = bus.release();
    assert_eq!(
        sim.log[..6],
        [
            Op::W8(0x0121, 0xA5),
            Op::R8(0x0120, 0x00),
            Op::W8(0x0120, 0x10),
            Op::W8(0x0121, 0x00),
            Op::Sleep(0xD8),
            Op::Sleep(0xD8),
        ]
    );
    assert_eq!(sim.log.last(), Some(&Op::Sleep(0xF8)));
}

// --- pins ---------------------------------------------------------------------

#[test]
fn pins_change_only_their_own_bit() {
    let (mut bus, p) = board(Sim::new().poke(0x0200, &[0xFF; 0x30]).poke(0x0130, &[0x01, 0x00]));
    gpio::unlock_pins(&p.pmm, &mut bus);
    let (port1, port2) = p.port_1_2.split();
    let mut led = port1.pin0.into_output(&mut bus);
    led.set_low(&mut bus);
    assert!(led.is_set_low(&mut bus));
    led.set_high(&mut bus);
    assert!(led.is_set_high(&mut bus));
    let mut button = port2.pin3.into_pull_up_input(&mut bus);
    assert!(button.is_high(&mut bus));
    assert!(!button.is_low(&mut bus));
    let sim = bus.release();
    assert_eq!(sim.word(0x0130), 0);
    assert_eq!(sim.mem[0x0204], 0xFF);
    assert_eq!(sim.mem[0x0206], 0xFE);
    assert_eq!(sim.mem[0x0205], 0xF7);
    assert_eq!(sim.mem[0x0207], 0xFF);
}

// --- capture ------------------------------------------------------------------

const TA1CCTL1: u32 = 0x0384;
const TA1CCR1: u32 = 0x0394;
const TA1R: u32 = 0x0390;

fn capture_timer(bus: &mut Bus<Sim>, p: Timer1A3, cs: msp430fr5969_hal::pac::Cs) -> CaptureTimer<Timer1A3> {
    let clocks = clocks::configure(cs, bus);
    CaptureTimer::new_smclk(p, bus, &clocks, Divider::Div8)
}

#[test]
fn capture_channels_are_set_up() {
    let (mut bus, p) = board(Sim::new());
    let timer = capture_timer(&mut bus, p.timer_1_a3, p.cs);
    assert_eq!(timer.tick_hz(), 1_000_000);
    let (port1, _) = p.port_1_2.split();
    let pin = port1.pin2.into_timer_a_capture(&mut bus);
    let channel = timer.capture_pin(&mut bus, pin, Edge::Both);
    assert_eq!(channel.tick_hz(), 1_000_000);
    assert_eq!(bus.release().word(TA1CCTL1), 0xC900);
}

#[test]
fn capture_sources_select_their_input() {
    let (mut bus, p) = board(Sim::new());
    let timer = capture_timer(&mut bus, p.timer_1_a3, p.cs);
    timer.capture_comparator(&mut bus, Edge::Rising);
    timer.capture_aclk(&mut bus, Edge::Falling);
    let mut soft = timer.capture_software(&mut bus, Slot::Ccr1);
    soft.fire_software(&mut bus);
    let sim = bus.release();
    let writes = sim.writes();
    let n = writes.len();
    assert_eq!(
        writes[n - 5..],
        [
            Op::W16(0x0384, 0x5900),
            Op::W16(0x0386, 0x9900),
            Op::W16(0x0384, 0x6900),
            Op::W16(0x0384, 0x7900),
            Op::W16(0x0384, 0x6900),
        ]
    );
}

#[test]
fn wait_edge_returns_the_stamp() {
    let sim = Sim::new()
        .answers(TA1R, &[100, 101])
        .answers(TA1CCTL1, &[0, 0, 1, 1, 1, 1])
        .answers(TA1CCR1, &[102]);
    let (mut bus, p) = board(sim);
    let timer = capture_timer(&mut bus, p.timer_1_a3, p.cs);
    let mut channel = timer.capture_comparator(&mut bus, Edge::Rising);
    assert_eq!(channel.wait_edge(&mut bus, 50), Ok(102));
}

#[test]
fn wait_edge_times_out_by_the_counter() {
    let sim = Sim::new().answers(TA1R, &[0xFFF0, 0xFFFF, 0x0022]).answers(TA1CCTL1, &[0]);
    let (mut bus, p) = board(sim);
    let timer = capture_timer(&mut bus, p.timer_1_a3, p.cs);
    let mut channel = timer.capture_comparator(&mut bus, Edge::Rising);
    assert_eq!(channel.wait_edge(&mut bus, 50), Err(CaptureError::Timeout));
}

#[test]
fn wait_edge_gives_up_on_a_dead_counter() {
    let sim = Sim::new().answers(TA1R, &[7]).answers(TA1CCTL1, &[0]);
    let (mut bus, p) = board(sim);
    let timer = capture_timer(&mut bus, p.timer_1_a3, p.cs);
    let mut channel = timer.capture_comparator(&mut bus, Edge::Rising);
    assert_eq!(channel.wait_edge(&mut bus, 50), Err(CaptureError::Stalled));
}

#[test]
fn only_the_first_edge_may_be_overwritten() {
    let sim = Sim::new().answers(TA1R, &[5]).answers(TA1CCTL1, &[3]).answers(TA1CCR1, &[9, 10]);
    let (mut bus, p) = board(sim);
    let timer = capture_timer(&mut bus, p.timer_1_a3, p.cs);
    let mut channel = timer.capture_comparator(&mut bus, Edge::Rising);
    assert_eq!(channel.wait_edge(&mut bus, 50), Ok(9));
    assert_eq!(channel.wait_edge(&mut bus, 50), Err(CaptureError::Overcapture));
    channel.set_edge(&mut bus, Edge::Falling);
    assert_eq!(channel.wait_edge(&mut bus, 50), Ok(10));
}

#[test]
fn periods_add_up_across_overflow() {
    let sim = Sim::new()
        .answers(TA1R, &[5])
        .answers(TA1CCTL1, &[1])
        .answers(TA1CCR1, &[0xFF00, 0x0100, 0x0300, 0x0500, 0x0700]);
    let (mut bus, p) = board(sim);
    let timer = capture_timer(&mut bus, p.timer_1_a3, p.cs);
    let mut channel = timer.capture_comparator(&mut bus, Edge::Rising);
    assert_eq!(channel.measure_period_ticks(&mut bus, 3, 1000), Ok(3 * 0x200));
}

#[test]
fn frequency_of_a_512_tick_signal() {
    let sim = Sim::new()
        .answers(TA1R, &[5])
        .answers(TA1CCTL1, &[1])
        .answers(TA1CCR1, &[0, 500, 1000]);
    let (mut bus, p) = board(sim);
    let timer = capture_timer(&mut bus, p.timer_1_a3, p.cs);
    let mut channel = timer.capture_comparator(&mut bus, Edge::Rising);
    assert_eq!(channel.frequency_hz(&mut bus, 2, 1000), Ok(2000));
}

#[test]
fn period_measurement_ends_the_arming() {
    let sim = Sim::new().answers(TA1R, &[5]).answers(TA1CCTL1, &[3]).answers(TA1CCR1, &[9, 10]);
    let (mut bus, p) = board(sim);
    let timer = capture_timer(&mut bus, p.timer_1_a3, p.cs);
    let mut channel = timer.capture_comparator(&mut bus, Edge::Rising);
    assert_eq!(channel.measure_period_ticks(&mut bus, 0, 1000), Ok(0));
    assert_eq!(channel.wait_edge(&mut bus, 1000), Err(CaptureError::Overcapture));
}

#[test]
fn measurement_without_an_edge_leaves_the_channel_armed() {
    let sim = Sim::new()
        .answers(TA1R, &[0, 2000, 0])
        .answers(TA1CCTL1, &[0, 0, 3])
        .answers(TA1CCR1, &[9, 10]);
    let (mut bus, p) = board(sim);
    let timer = capture_timer(&mut bus, p.timer_1_a3, p.cs);
    let mut channel = timer.capture_comparator(&mut bus, Edge::Rising);
    assert_eq!(channel.measure_period_ticks(&mut bus, 1, 1000), Err(CaptureError::Timeout));
    assert_eq!(channel.wait_edge(&mut bus, 1000), Ok(9));
}

#[test]
fn frequency_measurement_ends_the_arming() {
    let sim = Sim::new()
        .answers(TA1R, &[5])
        .answers(TA1CCTL1, &[1, 1, 1, 1, 1, 1, 1, 1, 1, 1, 1, 1, 3])
        .answers(TA1CCR1, &[0, 500, 1000]);
    let (mut bus, p) = board(sim);
    let timer = capture_timer(&mut bus, p.timer_1_a3, p.cs);
    let mut channel = timer.capture_comparator(&mut bus, Edge::Rising);
    assert_eq!(channel.frequency_hz(&mut bus, 2, 1000), Ok(2000));
    assert_eq!(channel.wait_edge(&mut bus, 1000), Err(CaptureError::Overcapture));
}

#[test]
fn span_waits_between_its_edges() {
    let sim = Sim::new()
        .answers(TA1R, &[5, 50, 150, 151])
        .answers(TA1CCTL1, &[1])
        .answers(TA1CCR1, &[20, 420]);
    let (mut bus, p) = board(sim);
    let timer = capture_timer(&mut bus, p.timer_1_a3, p.cs);
    let mut channel = timer.capture_comparator(&mut bus, Edge::Rising);
    assert_eq!(channel.measure_span_ticks(&mut bus, 100, 1000), Ok(400));
}

#[test]
fn duty_from_three_edges() {
    // Each wait reads the control register three times (a change, the poll and
    // the look for an overwritten capture) and once more to drop the capture;
    // after the first two edges the level is read.
    let up = [0u16, 1, 1, 1, 9];
    let down = [0u16, 1, 1, 1, 1];
    let again = [0u16, 1, 1, 1];
    let overwritten = [0u16, 1, 3];
    let mut control: Vec<u16> = vec![];
    control.extend(up);
    control.extend(down);
    control.extend(again);
    control.extend(overwritten);
    let sim = Sim::new()
        .answers(TA1R, &[5])
        .answers(TA1CCTL1, &control)
        .answers(TA1CCR1, &[1000, 1250, 2000]);
    let (mut bus, p) = board(sim);
    let timer = capture_timer(&mut bus, p.timer_1_a3, p.cs);
    let mut channel = timer.capture_comparator(&mut bus, Edge::Both);
    assert_eq!(channel.measure_duty_permille(&mut bus, 1000), Ok(250));
    assert_eq!(channel.wait_edge(&mut bus, 1000), Err(CaptureError::Overcapture));
}

#[test]
fn duty_fails_when_the_level_does_not_follow() {
    let sim = Sim::new().answers(TA1R, &[5]).answers(TA1CCTL1, &[9]).answers(TA1CCR1, &[1, 2, 3]);
    let (mut bus, p) = board(sim);
    let timer = capture_timer(&mut bus, p.timer_1_a3, p.cs);
    let mut channel = timer.capture_comparator(&mut bus, Edge::Both);
    assert_eq!(channel.measure_duty_permille(&mut bus, 1000), Err(CaptureError::LevelSync));
}

#[test]
fn capture_is_taken_and_its_interrupt_masked() {
    let sim = Sim::new().answers(TA1CCR1, &[77]).poke(TA1CCTL1, &[0x00, 0x00]);
    let (mut bus, p) = board(sim);
    let timer = capture_timer(&mut bus, p.timer_1_a3, p.cs);
    let mut channel = timer.capture_comparator(&mut bus, Edge::Rising);
    assert_eq!(channel.take(&mut bus), None);
    assert!(!channel.pending(&mut bus));
    channel.enable_interrupt(&mut bus);
    capture::isr_disable_interrupt::<Timer1A3, Sim>(&mut bus, Slot::Ccr1);
    timer.enable_overflow_interrupt(&mut bus);
    let mut sim = bus.release();
    assert_eq!(sim.word(TA1CCTL1), 0x5900);
    assert_eq!(sim.word(0x0380) & 3, 2);
    sim.mem[TA1CCTL1 as usize] = 0x13;
    let mut bus = Bus::new(sim, 10);
    assert!(channel.overcaptured(&mut bus));
    assert_eq!(channel.take(&mut bus), Some(77));
    channel.clear_overcapture(&mut bus);
    channel.disable_interrupt(&mut bus);
    assert_eq!(capture::read_iv::<Timer0A3, Sim>(&mut bus), 0);
    assert_eq!(bus.release().word(TA1CCTL1), 0x5900);
}

// --- touch --------------------------------------------------------------------

#[test]
fn touch_frequency_from_a_gated_count() {
    let sim = Sim::new()
        .answers(0x0350, &[100, 1100, 2101, 2100])
        .answers(0x043E, &[0x0330])
        .answers(0x0410, &[6400])
        .answers(0x0400, &[0x0320]);
    let (mut bus, p) = board(sim);
    let clocks = clocks::configure(p.cs, &mut bus);
    let counter = Counter::new_smclk(p.timer_0_a3, &mut bus, &clocks, Divider::Div8);
    let mut touch = TouchSense::new(p.capacitive_touch_io_0, p.timer_2_a2, &mut bus);
    let (port3, _) = p.port_3_4.split();
    let pad = port3.pin0.into_floating_input(&mut bus);
    touch.route_pin(&mut bus, &pad);
    assert_eq!(touch.measure_hz(&mut bus, &counter, 2000), Ok(Some(3_200_000)));
    let sim = bus.release();
    assert_eq!(sim.writes().last(), Some(&Op::W16(0x043E, 0x0130)));
}

#[test]
fn touch_count_that_ran_over_is_refused() {
    let sim = Sim::new().answers(0x0350, &[0, 3000]).answers(0x0400, &[0x0321]);
    let (mut bus, p) = board(sim);
    let clocks = clocks::configure(p.cs, &mut bus);
    let counter = Counter::new_smclk(p.timer_0_a3, &mut bus, &clocks, Divider::Div8);
    let touch = TouchSense::new(p.capacitive_touch_io_0, p.timer_2_a2, &mut bus);
    assert_eq!(touch.measure_hz(&mut bus, &counter, 2000), Ok(None));
}

#[test]
fn touch_routes_only_real_pins() {
    let (mut bus, p) = board(Sim::new());
    let mut touch = TouchSense::new(p.capacitive_touch_io_1, p.timer_3_a2, &mut bus);
    assert_eq!(touch.route_raw(&mut bus, Port::PJ, 8), Err(InvalidPin));
    assert_eq!(touch.route_raw(&mut bus, Port::P4, 7), Ok(()));
    assert_eq!(touch.ctl(&mut bus), 0x014E);
    assert!(!touch.state(&mut bus));
    touch.enable_overflow_interrupt(&mut bus);
    captio::isr_disable_overflow_interrupt::<msp430fr5969_hal::pac::CapacitiveTouchIo1, Sim>(&mut bus);
    touch.disable_overflow_interrupt(&mut bus);
    touch.disable(&mut bus);
    let sim = bus.release();
    assert_eq!(sim.word(0x0440), 0x0324);
    assert_eq!(sim.word(0x047E), 0);
}

// --- CRC ----------------------------------------------------------------------

const CHECK: &[u8] = b"123456789";

#[test]
fn crc_unit_gives_the_catalogue_values() {
    let (mut bus, p) = board(Sim::with(Model::CrcUnit(0xBEEF)));
    let mut crc = Crc::new(p.crc16);
    assert_eq!(crc.ccitt_false(&mut bus, CHECK), 0x29B1);
    assert_eq!(crc.xmodem(&mut bus, CHECK), 0x31C3);
    assert_eq!(crc.kermit(&mut bus, CHECK), 0x2189);
    assert_eq!(crc.x25(&mut bus, CHECK), 0x906E);
}

#[test]
fn crc_words_equal_their_bytes() {
    let (mut bus, p) = board(Sim::with(Model::CrcUnit(0)));
    let mut crc = Crc::new(p.crc16);
    crc.begin(&mut bus, 0xFFFF);
    crc.write_words_msb_first(&mut bus, &[0x3231, 0x3433]);
    let words = crc.result(&mut bus);
    assert_eq!(words, crc.ccitt_false(&mut bus, b"1234"));
    assert_eq!(crc.result_bit_reversed(&mut bus), words.reverse_bits());
}

// --- AES ----------------------------------------------------------------------

fn cipher() -> Sim {
    Sim::with(Model::Cipher {
        key: vec![],
        input: vec![],
        output: VecDeque::new(),
        decrypt: false,
        loads: 0,
    })
}

#[test]
fn aes_blocks_round_trip() {
    let (mut bus, p) = board(cipher());
    let mut aes = Aes::new(p.aes_accelerator, &mut bus, Key::Aes128([3; 16]));
    let mut data: Vec<u8> = (0..32).collect();
    assert_eq!(aes.encrypt_blocks(&mut bus, &mut data), Ok(()));
    assert_eq!(data[0], 18);
    assert_eq!(data[31], 19);
    assert_eq!(aes.decrypt_blocks(&mut bus, &mut data), Ok(()));
    assert_eq!(data, (0..32).collect::<Vec<u8>>());
}

#[test]
fn aes_chained_blocks_round_trip() {
    let (mut bus, p) = board(cipher());
    let mut aes = Aes::new(p.aes_accelerator, &mut bus, Key::Aes192([5; 24]));
    let plain = [7u8; 48];
    let iv = [0x55u8; 16];
    let mut data = plain;
    assert_eq!(aes.encrypt_cbc(&mut bus, &iv, &mut data), Ok(()));
    assert!(data[..16] != data[16..32]);
    assert_eq!(data[0], (7 ^ 0x55) + 5);
    assert_eq!(aes.decrypt_cbc(&mut bus, &iv, &mut data), Ok(()));
    assert_eq!(data, plain);
}

#[test]
fn aes_loads_the_key_when_the_direction_changes() {
    let (mut bus, p) = board(cipher());
    let mut aes = Aes::new(p.aes_accelerator, &mut bus, Key::Aes256([1; 32]));
    let mut data = [0u8; 16];
    aes.encrypt_blocks(&mut bus, &mut data).unwrap();
    aes.encrypt_blocks(&mut bus, &mut data).unwrap();
    aes.decrypt_blocks(&mut bus, &mut data).unwrap();
    aes.decrypt_blocks(&mut bus, &mut data).unwrap();
    aes.set_key(Key::Aes128([2; 16]));
    aes.decrypt_blocks(&mut bus, &mut data).unwrap();
    aes.free(&mut bus);
    let sim = bus.release();
    assert!(matches!(sim.model, Model::Cipher { loads: 3, .. }));
    assert_eq!(sim.writes().last(), Some(&Op::W16(0x09C0, 0x0080)));
}

#[test]
fn aes_refuses_parts_of_blocks() {
    let (mut bus, p) = board(cipher());
    let mut aes = Aes::new(p.aes_accelerator, &mut bus, Key::Aes128([3; 16]));
    let mut data = [1u8; 17];
    assert_eq!(aes.encrypt_blocks(&mut bus, &mut data), Err(AesError::NotBlockAligned));
    assert_eq!(data, [1u8; 17]);
    assert_eq!(aes.encrypt_blocks(&mut bus, &mut []), Ok(()));
    assert_eq!(bus.release().log.len(), 1);
}

#[test]
fn aes_that_stays_busy_stalls() {
    let (mut bus, p) = board(Sim::new().answers(0x09C4, &[1]));
    let mut aes = Aes::new(p.aes_accelerator, &mut bus, Key::Aes128([3; 16]));
    let mut data = [1u8; 16];
    assert_eq!(aes.encrypt_blocks(&mut bus, &mut data), Err(AesError::Stalled));
    assert_eq!(data, [1u8; 16]);
}

// --- plain memory ---------------------------------------------------------------

#[test]
fn drivers_run_on_plain_memory() {
    let mut bus = Bus::new(Ram::new(0x1_4000), 10);
    assert!(Peripherals::take(&mut bus).is_some());
    let mut info = InfoFram::new();
    assert_eq!(demo::count_boot(&mut info, &mut bus), 1);
    let mut bus = Bus::new(bus.release(), 10);
    assert!(Peripherals::take(&mut bus).is_none());
    assert_eq!(demo::count_boot(&mut info, &mut bus), 2);
    bus.masked_edit16(0x0500, 0x00F0, 0x1234);
    assert_eq!(bus.read16(0x0500), 0x1234);
    assert_eq!(bus.read8(0x2_0000), 0xFF);
    bus.write16(0x1_3FFF, 0xABCD);
    assert_eq!(bus.read16(0x1_3FFF), 0xFFCD);
    bus.barrier();
    bus.spin(3);
    assert_eq!(bus.scratch(), 0x1C00);
    let mut ram = bus.release();
    assert_eq!((ram.peek(0x0500), ram.peek(0x0501)), (0x34, 0x12));
    ram.poke(0x0500, 0x77);
    assert_eq!(ram.peek(0x0500), 0x77);
}

#[test]
fn protection_holds_on_plain_memory() {
    let mut bus = Bus::new(Ram::new(0x1_4000), 10);
    let mut mpu = Mpu::new();
    assert_eq!(mpu.enable(&mut bus, &guarded()), Ok(()));
    assert_eq!(mpu.borders(&mut bus), (0x1_0000, 0x1_0000));
    mpu.lock(&mut bus);
    assert_eq!(mpu.enable(&mut bus, &MpuConfig::allow_all()), Err(MpuError::Locked));
    assert_eq!(mpu.disable(&mut bus), Err(MpuError::Locked));
    assert!(mpu.is_locked(&mut bus) && mpu.is_enabled(&mut bus));
    assert_eq!(mpu.borders(&mut bus), (0x1_0000, 0x1_0000));
}

// --- FRAM ---------------------------------------------------------------------

#[test]
fn fram_reads_back_what_was_written() {
    let mut bus = Bus::new(Sim::new(), 10);
    let mut info = InfoFram::new();
    let mut high = HighFram::default();
    assert_eq!(info.write(&mut bus, 508, &[1, 2, 3, 4]), Ok(()));
    assert_eq!(high.write(&mut bus, 0x3FFE, &[8, 9]), Ok(()));
    let mut buf = [0u8; 6];
    assert_eq!(info.read(&mut bus, 506, &mut buf), Ok(()));
    assert_eq!(buf, [0, 0, 1, 2, 3, 4]);
    let mut two = [0u8; 2];
    assert_eq!(high.read(&mut bus, 0x3FFE, &mut two), Ok(()));
    assert_eq!(two, [8, 9]);
    assert_eq!((info.capacity(), high.capacity()), (512, 16384));
    let sim = bus.release();
    assert_eq!(sim.mem[0x19FF], 4);
    assert_eq!(sim.mem[0x1_3FFF], 9);
}

#[test]
fn fram_refuses_what_does_not_fit() {
    let mut bus = Bus::new(Sim::new(), 10);
    let mut info = InfoFram::default();
    let mut high = HighFram::new();
    assert_eq!(info.write(&mut bus, 509, &[1, 2, 3, 4]), Err(FramError::OutOfBounds));
    assert_eq!(high.write(&mut bus, u32::MAX, &[1]), Err(FramError::OutOfBounds));
    let mut buf = [7u8; 2];
    assert_eq!(info.read(&mut bus, 511, &mut buf), Err(FramError::OutOfBounds));
    assert_eq!(buf, [7, 7]);
    assert_eq!(info.read(&mut bus, 512, &mut []), Ok(()));
    assert!(bus.release().log.is_empty());
}

// --- MPU ----------------------------------------------------------------------

fn guarded() -> MpuConfig {
    MpuConfig {
        border1: 0x1_0000,
        border2: 0x1_0000,
        seg1: Access::rwx(),
        seg2: Access::none(),
        seg3: Access::rx().reset_on_violation(),
        info: Access::read_only(),
        nmi: true,
    }
}

#[test]
fn mpu_is_enabled_last_and_between_keys() {
    let mut bus = Bus::new(Sim::new(), 10);
    let mut mpu = Mpu::new();
    assert_eq!(mpu.enable(&mut bus, &guarded()), Ok(()));
    assert_eq!(mpu.borders(&mut bus), (0x1_0000, 0x1_0000));
    assert!(mpu.is_enabled(&mut bus));
    assert!(!mpu.is_locked(&mut bus));
    assert!(!mpu.violations(&mut bus).any());
    let sim = bus.release();
    assert_eq!(
        sim.writes(),
        vec![
            Op::W8(0x05A1, 0xA5),
            Op::W16(0x05A6, 0x1000),
            Op::W16(0x05A4, 0x1000),
            Op::W16(0x05A8, 0x1D07),
            Op::W16(0x05A2, 0x0000),
            Op::W8(0x05A0, 0x11),
            Op::W8(0x05A1, 0x00),
        ]
    );
}

#[test]
fn mpu_refuses_bad_borders() {
    let mut bus = Bus::new(Sim::new(), 10);
    let mut mpu = Mpu::default();
    let bad = |border1, border2| MpuConfig { border1, border2, ..MpuConfig::allow_all() };
    assert_eq!(mpu.enable(&mut bus, &bad(0x4408, 0x5000)), Err(MpuError::Misaligned));
    assert_eq!(mpu.enable(&mut bus, &bad(0x43F0, 0x5000)), Err(MpuError::OutOfRange));
    assert_eq!(mpu.enable(&mut bus, &bad(0x4400, 0x1_4010)), Err(MpuError::OutOfRange));
    assert_eq!(mpu.enable(&mut bus, &bad(0x5000, 0x4400)), Err(MpuError::BordersReversed));
    assert!(bus.release().writes().is_empty());
}

#[test]
fn mpu_that_is_locked_is_left_alone() {
    let mut bus = Bus::new(Sim::new(), 10);
    let mut mpu = Mpu::new();
    mpu.enable(&mut bus, &guarded()).unwrap();
    mpu.lock(&mut bus);
    assert!(mpu.is_locked(&mut bus));
    let written = bus.release();
    let count = written.writes().len();
    let mut bus = Bus::new(written, 10);
    assert_eq!(mpu.disable(&mut bus), Err(MpuError::Locked));
    assert_eq!(mpu.enable(&mut bus, &guarded()), Err(MpuError::Locked));
    assert_eq!(mpu.enable(&mut bus, &MpuConfig::allow_all()), Err(MpuError::Locked));
    assert!(mpu.is_locked(&mut bus) && mpu.is_enabled(&mut bus));
    let sim = bus.release();
    assert_eq!(sim.writes().len(), count);
    assert_eq!(sim.mem[0x05A0], 0x13);
}

#[test]
fn mpu_violations_are_told_and_cleared() {
    let mut bus = Bus::new(Sim::new().poke(0x05A2, &[0x0A, 0x00]), 10);
    let mut mpu = Mpu::new();
    let seen = mpu.violations(&mut bus);
    assert!(seen.seg2() && seen.info() && seen.any());
    assert!(!seen.seg1() && !seen.seg3() && !seen.ip());
    assert_eq!(seen.bits(), 0x000A);
    mpu.clear_violations(&mut bus);
    assert!(!mpu.violations(&mut bus).any());
}

// --- RTC ----------------------------------------------------------------------

const NOON: DateTime = DateTime {
    year: 2026,
    month: 6,
    day: 27,
    weekday: 6,
    hour: 12,
    minute: 30,
    second: 15,
};

fn started() -> (Bus<Sim>, Rtc) {
    let (mut bus, p) = board(Sim::new());
    let clocks = clocks::configure_low_power(p.cs, &mut bus);
    let rtc = Rtc::new(p.rtc_b_real_time_clock, &mut bus, &clocks, &NOON).unwrap();
    (bus, rtc)
}

#[test]
fn calendar_reads_back_what_was_set() {
    let (bus, rtc) = started();
    let sim = bus.release().answers(0x04A0, &[0, 0x1000]);
    let mut bus = Bus::new(sim, 10);
    assert_eq!(rtc.now(&mut bus), Ok(NOON));
}

#[test]
fn calendar_that_changes_is_read_again() {
    let (bus, rtc) = started();
    let sim = bus
        .release()
        .answers(0x04A0, &[0x1000, 0, 0x1000, 0x1000])
        .answers(0x04B0, &[60, 16]);
    let mut bus = Bus::new(sim, 10);
    assert_eq!(rtc.now(&mut bus), Ok(DateTime { second: 16, ..NOON }));
}

#[test]
fn calendar_that_never_settles_stalls() {
    let (bus, rtc) = started();
    let mut bus = Bus::new(bus.release().answers(0x04A0, &[0]), 4);
    assert_eq!(rtc.now(&mut bus), Err(Stalled));
}

#[test]
fn calendar_needs_the_crystal() {
    let (mut bus, p) = board(Sim::new());
    let clocks = clocks::configure(p.cs, &mut bus);
    let refused = Rtc::new(p.rtc_b_real_time_clock, &mut bus, &clocks, &NOON);
    assert!(matches!(refused, Err(RtcError::ClockNot32768)));
}

#[test]
fn calendar_is_taken_over_without_a_write_to_it() {
    let (mut bus, p) = board(Sim::new().poke(0x04A0, &[0x00, 0x40]));
    let clocks = clocks::configure_low_power(p.cs, &mut bus);
    assert!(Rtc::attach(p.rtc_b_real_time_clock, &mut bus, &clocks).is_ok());
    assert_eq!(bus.release().word(0x04A0), 0);
}

#[test]
fn alarm_is_written_with_its_interrupt_off() {
    let (mut bus, mut rtc) = started();
    rtc.enable_alarm_interrupt(&mut bus);
    assert_eq!(rtc.set_alarm(&mut bus, &Alarm::daily_at(7, 45)), Ok(()));
    let sim = bus.release();
    assert_eq!(sim.mem[0x04B8..0x04BC], [0xAD, 0x87, 0x00, 0x00]);
    assert_eq!(sim.word(0x04A0) & 0x0022, 0);
}

#[test]
fn alarm_errors_change_nothing() {
    let (mut bus, mut rtc) = started();
    let n = {
        let sim = bus.release();
        let n = sim.log.len();
        bus = Bus::new(sim, 10);
        n
    };
    let none = Alarm::default();
    assert_eq!(rtc.set_alarm(&mut bus, &none), Err(AlarmError::NoFieldEnabled));
    assert_eq!(rtc.set_alarm(&mut bus, &Alarm::hourly_at(60)), Err(AlarmError::MinuteOutOfRange));
    assert_eq!(rtc.set_alarm(&mut bus, &Alarm::daily_at(24, 0)), Err(AlarmError::HourOutOfRange));
    let odd = Alarm { weekday: Some(7), ..none };
    assert_eq!(rtc.set_alarm(&mut bus, &odd), Err(AlarmError::WeekdayOutOfRange));
    let zero = Alarm { day: Some(0), ..none };
    assert_eq!(rtc.set_alarm(&mut bus, &zero), Err(AlarmError::DayOutOfRange));
    assert_eq!(bus.release().log.len(), n);
}

#[test]
fn calendar_interrupts_are_selected() {
    let (mut bus, mut rtc) = started();
    rtc.enable_event_interrupt(&mut bus, Event::Midnight);
    rtc.enable_second_interrupt(&mut bus);
    rtc.set(&mut bus, &NOON);
    let sim = bus.release();
    assert_eq!(sim.word(0x04A0), 0x0250);
    let mut bus = Bus::new(sim.poke(0x04A0, &[0x56, 0x02]).poke(0x04AE, &[6, 0]), 10);
    assert!(rtc::event_irq_pending(&mut bus));
    assert!(rtc::alarm_irq_pending(&mut bus));
    rtc::clear_event_irq(&mut bus);
    rtc::clear_alarm_irq(&mut bus);
    assert_eq!(rtc::read_iv(&mut bus), 6);
    rtc.disable_alarm(&mut bus);
    assert_eq!(bus.release().word(0x04A0), 0x0250);
}

// --- SPI ----------------------------------------------------------------------

#[test]
fn spi_loopback_returns_the_pattern() {
    let (mut bus, p) = board(Sim::with(Model::Loopback(0)));
    let mut spi = p.usci_b0_spi_mode.into_spi(&mut bus, SpiConfig::new(8_000_000).bit_rate(1_000_000));
    assert_eq!(spi.transfer_byte(&mut bus, 0x5A), Ok(0x5A));
    let (back, pass) = demo::spi_loopback(&mut spi, &mut bus);
    assert!(pass);
    assert_eq!(back, [0xA5, 0x3C, 0xFF, 0x00, 0x55, 0xAA]);
    let mut rx = [0u8; 3];
    assert_eq!(spi.transfer(&mut bus, &mut rx, &[1, 2]), Ok(()));
    assert_eq!(rx, [1, 2, 0]);
    assert_eq!(bus.release().word(0x0646), 8);
}

#[test]
fn spi_without_answer_stalls() {
    let (mut bus, p) = board(Sim::new());
    let mut spi = p.usci_b0_spi_mode.into_spi(&mut bus, SpiConfig::new(8_000_000));
    assert_eq!(spi.transfer_byte(&mut bus, 0x5A), Err(Stalled));
    let (back, pass) = demo::spi_loopback(&mut spi, &mut bus);
    assert_eq!(back, demo::SPI_PATTERN);
    assert!(!pass);
}

// --- serial -------------------------------------------------------------------

const UCA0IFG: u32 = 0x05DC;
const UCA0STATW: u32 = 0x05CA;
const UCA0RXBUF: u32 = 0x05CC;
const UCA0TXBUF: u32 = 0x05CE;

#[test]
fn serial_sends_and_receives() {
    let sim = Sim::new().answers(UCA0IFG, &[3]).answers(UCA0RXBUF, &[0x41, 0x42]);
    let (mut bus, p) = board(sim);
    let uart = p.usci_a0_uart_mode.into_uart(&mut bus, UartConfig::new(8_000_000).baud(9600));
    let (mut tx, mut rx) = uart.split();
    assert_eq!(tx.write_byte(&mut bus, 0x55), Ok(()));
    assert_eq!(tx.write(&mut bus, b"hi"), Ok(2));
    assert!(tx.write_ready(&mut bus));
    assert_eq!(rx.read_byte(&mut bus), Ok(0x41));
    assert!(rx.read_ready(&mut bus));
    let sim = bus.release();
    let sent: Vec<Op> = sim.writes().into_iter().filter(|op| matches!(op, Op::W16(UCA0TXBUF, _))).collect();
    assert_eq!(
        sent,
        vec![Op::W16(UCA0TXBUF, 0x55), Op::W16(UCA0TXBUF, 0x68), Op::W16(UCA0TXBUF, 0x69)]
    );
}

#[test]
fn serial_without_room_or_byte_would_block() {
    let (mut bus, p) = board(Sim::new().answers(UCA0IFG, &[0]));
    let uart = p.usci_a0_uart_mode.into_uart(&mut bus, UartConfig::new(8_000_000).baud(9600));
    let (mut tx, mut rx) = uart.split();
    assert_eq!(tx.write_byte(&mut bus, 1), Err(NbError::WouldBlock));
    assert_eq!(rx.read_byte(&mut bus), Err(NbError::WouldBlock));
    assert_eq!(tx.write(&mut bus, &[1]), Err(Stalled));
    let mut buf = [0u8; 1];
    assert_eq!(rx.read(&mut bus, &mut buf), Err(ReadError::Stalled));
}

#[test]
fn serial_reports_line_errors() {
    for (flags, error) in [
        (0x0074u16, LineError::Overrun),
        (0x0054, LineError::Framing),
        (0x001C, LineError::Parity),
        (0x000C, LineError::Break),
        (0x0004, LineError::Framing),
    ] {
        let mut bus = Bus::new(Sim::new().answers(UCA0IFG, &[1]).answers(UCA0STATW, &[flags]), 10);
        assert_eq!(
            serial::isr_read_byte::<UsciA0, Sim>(&mut bus),
            Err(NbError::Other(error))
        );
    }
}

#[test]
fn serial_interrupt_enable_is_a_masked_change() {
    let (mut bus, p) = board(Sim::new());
    let uart = p.usci_a0_uart_mode.into_uart(&mut bus, UartConfig::new(8_000_000).baud(9600));
    let (_tx, mut rx) = uart.split();
    rx.enable_rx_interrupt(&mut bus);
    let sim = bus.release();
    assert_eq!(sim.word(0x05DA) & 1, 1);
    let mut bus = Bus::new(sim, 10);
    rx.disable_rx_interrupt(&mut bus);
    assert_eq!(bus.release().word(0x05DA) & 1, 0);
}

#[test]
fn serial_burst_arms_all_but_the_first_byte() {
    let sim = Sim::new()
        .poke(0x1C00, b"abc")
        .answers(UCA0IFG, &[2])
        .answers(0x0510, &[0x0008]);
    let (mut bus, p) = board(sim);
    let mut channels = p.dma.split(&mut bus);
    let uart = p.usci_a0_uart_mode.into_uart(&mut bus, UartConfig::new(8_000_000).baud(9600));
    let (mut tx, _rx) = uart.split();
    let span = ByteSpan { addr: 0x1C00, len: 3 };
    assert_eq!(tx.write_all_dma(&mut bus, &mut channels.ch0, span), Ok(()));
    let sim = bus.release();
    assert_eq!((sim.word(0x0512), sim.word(0x0516), sim.word(0x051A)), (0x1C01, 0x05CE, 2));
    assert!(sim.writes().contains(&Op::W16(UCA0TXBUF, 0x61)));
}

#[test]
fn serial_reception_of_nothing_is_done_at_once() {
    let (mut bus, p) = board(Sim::new());
    let mut channels = p.dma.split(&mut bus);
    let uart = p.usci_a0_uart_mode.into_uart(&mut bus, UartConfig::new(8_000_000).baud(9600));
    let (_tx, mut rx) = uart.split();
    let none = ByteSpan { addr: 0x1C00, len: 0 };
    assert_eq!(rx.read_exact_dma(&mut bus, &mut channels.ch2, none), Ok(()));
}

#[test]
fn serial_reception_takes_waiting_bytes_by_hand() {
    let sim = Sim::new().answers(UCA0IFG, &[1]).answers(UCA0RXBUF, &[0x61, 0x62]);
    let (mut bus, p) = board(sim);
    let mut channels = p.dma.split(&mut bus);
    let uart = p.usci_a0_uart_mode.into_uart(&mut bus, UartConfig::new(8_000_000).baud(9600));
    let (_tx, mut rx) = uart.split();
    let span = ByteSpan { addr: 0x1C00, len: 2 };
    assert_eq!(rx.read_exact_dma(&mut bus, &mut channels.ch0, span), Ok(()));
    assert_eq!(bus.release().mem[0x1C00..0x1C02], *b"ab");
}

// --- I2C ----------------------------------------------------------------------

const UCB0IFG: u32 = 0x066C;
const UCB0CTLW0: u32 = 0x0640;
const UCB0TXBUF: u32 = 0x064E;

#[test]
fn i2c_write_sends_and_stops() {
    let sim = Sim::new().answers(UCB0IFG, &[2]);
    let (mut bus, p) = board(sim);
    let mut i2c = p.usci_b0_i2c_mode.into_i2c(&mut bus, I2cConfig::new(8_000_000).scl_freq(100_000));
    let mut operations = vec![Operation::Write(vec![0x10, 0x20])];
    assert_eq!(i2c.transaction(&mut bus, 0x48, &mut operations), Ok(()));
    let sim = bus.release();
    let sent: Vec<Op> = sim.writes().into_iter().filter(|op| matches!(op, Op::W16(UCB0TXBUF, _))).collect();
    assert_eq!(sent, vec![Op::W16(UCB0TXBUF, 0x10), Op::W16(UCB0TXBUF, 0x20)]);
    assert_eq!(sim.word(0x0660) & 0x7F, 0x48);
}

#[test]
fn i2c_transaction_has_one_stop() {
    let sim = Sim::new().answers(UCB0IFG, &[3]).answers(0x064C, &[0xA1, 0xA2, 0xA3]);
    let (mut bus, p) = board(sim);
    let mut i2c = p.usci_b0_i2c_mode.into_i2c(&mut bus, I2cConfig::new(8_000_000));
    let mut operations =
        vec![Operation::Write(vec![0x07]), Operation::Read(vec![0; 2]), Operation::Read(vec![0; 1])];
    assert_eq!(i2c.transaction(&mut bus, 0x29, &mut operations), Ok(()));
    assert!(matches!(&operations[1], Operation::Read(data) if *data == [0xA1, 0xA2]));
    assert!(matches!(&operations[2], Operation::Read(data) if *data == [0xA3]));
    let writes = bus.release().writes();
    let stops = writes.iter().filter(|op| matches!(op, Op::W16(UCB0CTLW0, v) if v & 4 != 0)).count();
    let starts = writes.iter().filter(|op| matches!(op, Op::W16(UCB0CTLW0, v) if v & 2 != 0)).count();
    assert_eq!((stops, starts), (1, 2));
}

#[test]
fn i2c_empty_transaction_does_nothing() {
    let (mut bus, p) = board(Sim::new());
    let mut i2c = p.usci_b0_i2c_mode.into_i2c(&mut bus, I2cConfig::new(8_000_000));
    let before = {
        let sim = bus.release();
        let n = sim.log.len();
        bus = Bus::new(sim, 10);
        n
    };
    assert_eq!(i2c.transaction(&mut bus, 0x29, &mut vec![]), Ok(()));
    assert_eq!(bus.release().log.len(), before);
}

#[test]
fn i2c_prescaler_is_rounded() {
    assert_eq!(I2cConfig::new(8_000_000).scl_freq(100_000).prescaler(), 80);
    assert_eq!(I2cConfig::new(1_000_000).scl_freq(400_000).prescaler(), 3);
    assert_eq!(I2cConfig::new(1_000_000).scl_freq(0).prescaler(), 0xFFFF);
    assert_eq!(I2cConfig::new(10).scl_freq(400_000).prescaler(), 1);
    assert_eq!(SpiConfig::new(1_000_000).bit_rate(400_000).prescaler(), 3);
}

#[test]
fn i2c_device_that_does_not_answer_is_reported() {
    let sim = Sim::new().answers(UCB0IFG, &[0x22]);
    let (mut bus, p) = board(sim);
    let mut i2c = p.usci_b0_i2c_mode.into_i2c(&mut bus, I2cConfig::new(8_000_000));
    let mut operations = vec![Operation::Write(vec![1])];
    assert_eq!(i2c.transaction(&mut bus, 0x50, &mut operations), Err(I2cError::AddressNack));
    assert!(!i2c.probe(&mut bus, 0x50));
    assert!(bus.release().writes().iter().any(|op| matches!(op, Op::W16(UCB0CTLW0, v) if v & 4 != 0)));
}

#[test]
fn i2c_bus_that_is_held_times_out() {
    let sim = Sim::new().answers(UCB0IFG, &[0]).answers(0x0648, &[0x0010]);
    let (mut bus, p) = board(sim);
    let mut i2c = p.usci_b0_i2c_mode.into_i2c(&mut bus, I2cConfig::new(8_000_000));
    let mut operations = vec![Operation::Read(vec![0; 2])];
    assert_eq!(i2c.transaction(&mut bus, 0x50, &mut operations), Err(I2cError::Timeout));
}

#[test]
fn i2c_slave_tells_its_events() {
    let sim = Sim::new().answers(UCB0IFG, &[0x04, 0x01, 0x08, 0x00]).answers(0x064C, &[0x5A]);
    let (mut bus, p) = board(sim);
    let made = p.usci_b0_i2c_mode.into_i2c_slave(&mut bus, SlaveConfig::new(0x42));
    let mut slave = match made {
        Ok(slave) => slave,
        Err(_) => panic!("the address is allowed"),
    };
    let mut events = vec![];
    for _ in 0..6 {
        if let Some(event) = slave.poll(&mut bus) {
            events.push(event);
        }
    }
    assert_eq!(events.len(), 2);
    assert_eq!(events[0], SlaveEvent::Start { read: false });
    assert_eq!(bus.release().word(0x0654) & 0x7F, 0x42);
}

#[test]
fn i2c_slave_refuses_reserved_addresses() {
    let (mut bus, p) = board(Sim::new());
    let made = p.usci_b0_i2c_mode.into_i2c_slave(&mut bus, SlaveConfig::new(0x03));
    assert!(made.is_err());
    assert!(bus.release().writes().is_empty());
}

// --- DMA ----------------------------------------------------------------------

#[test]
fn dma_copies_a_block() {
    let (mut bus, p) = board(Sim::new().answers(0x0510, &[0x0008]));
    let mut channels = p.dma.split(&mut bus);
    let src = ByteSpan { addr: 0x1C00, len: 8 };
    let dst = ByteSpan { addr: 0x1D00, len: 5 };
    assert_eq!(channels.ch0.copy_bytes(&mut bus, src, dst), Ok(5));
    let sim = bus.release();
    assert_eq!((sim.word(0x0512), sim.word(0x0516), sim.word(0x051A)), (0x1C00, 0x1D00, 5));
}

#[test]
fn dma_channels_have_registers_of_their_own() {
    let (mut bus, p) = board(Sim::new().answers(0x0530, &[0x0008]));
    let mut channels = p.dma.split(&mut bus);
    let dst = ByteSpan { addr: 0x1D00, len: 4 };
    assert_eq!(channels.ch2.fill_bytes(&mut bus, 0x77, dst), Ok(4));
    let sim = bus.release();
    assert_eq!((sim.word(0x0536), sim.word(0x053A)), (0x1D00, 4));
    assert_eq!((sim.word(0x0516), sim.word(0x0526)), (0, 0));
}

#[test]
fn dma_that_never_finishes_stalls() {
    let (mut bus, p) = board(Sim::new().answers(0x0520, &[0]));
    let mut channels = p.dma.split(&mut bus);
    let span = WordSpan { addr: 0x1C00, len: 2 };
    assert_eq!(channels.ch1.copy_words(&mut bus, span, span), Err(Stalled));
    let none = ByteSpan { addr: 0, len: 0 };
    assert_eq!(channels.ch2.copy_bytes(&mut bus, none, none), Ok(0));
    assert_eq!(TriggerSource::DmaReq.code(), 0);
}

// --- ADC, reference, calibration ------------------------------------------------

#[test]
fn adc_scales_the_supply() {
    let sim = Sim::new().answers(0x01B0, &[0x1000]).answers(0x0860, &[3072]);
    let (mut bus, p) = board(sim);
    let vref = Ref::new(p.shared_reference, &mut bus, ReferenceVoltage::V2_0);
    let vref = match vref {
        Ok(r) => r,
        Err(_) => panic!("the reference settles"),
    };
    assert_eq!(vref.millivolts(), 2000);
    let mut adc = Adc::new(p.adc12, &mut bus, AdcConfig::new().resolution(Resolution::Bits12));
    assert_eq!(adc.read_supply_millivolts(&mut bus, &vref), Ok(3000));
    assert_eq!(demo::measure_supply(&mut adc, &mut bus, &vref, &None, &None), Ok(3000));
    let cal = tlv::AdcCal { gain_factor: 0x8000, offset: 0, temp_30: [1, 2, 3], temp_85: [4, 5, 6] };
    let ref_cal = tlv::RefCal { factor: [0x8000, 0x4000, 0x8000] };
    assert_eq!(demo::measure_supply(&mut adc, &mut bus, &vref, &Some(cal), &Some(ref_cal)), Ok(1500));
}

#[test]
fn reference_that_does_not_settle_stalls() {
    let (mut bus, p) = board(Sim::new().answers(0x01B0, &[0]));
    assert!(Ref::new(p.shared_reference, &mut bus, ReferenceVoltage::V1_2).is_err());
}

#[test]
fn calibration_table_is_found_by_tag() {
    let table = [
        0x08u8, 0x02, 0xAA, 0xBB, // another entry
        0x11, 0x10, 0x00, 0x80, 0xFE, 0xFF, 1, 0, 2, 0, 3, 0, 4, 0, 5, 0, 6, 0, // converter
        0x12, 0x06, 0x11, 0x80, 0x22, 0x80, 0x33, 0x80, // reference
        0xFF,
    ];
    let mut bus = Bus::new(Sim::new().poke(0x1A08, &table), 10);
    let cal = tlv::adc_cal(&mut bus).unwrap();
    assert_eq!((cal.gain_factor, cal.offset), (0x8000, -2));
    let rc = tlv::ref_cal(&mut bus).unwrap();
    assert_eq!(rc.factor, [0x8011, 0x8022, 0x8033]);
    let mut blank = Bus::new(Sim::new().poke(0x1A00, &[0xFF; 0x200]), 10);
    assert!(tlv::adc_cal(&mut blank).is_none());
    assert!(tlv::ref_cal(&mut blank).is_none());
}

#[test]
fn adc_run_fills_the_buffer_by_dma() {
    let sim = Sim::new().answers(0x0510, &[0x0008]);
    let (mut bus, p) = board(sim);
    let mut channels = p.dma.split(&mut bus);
    let mut adc = Adc::new(p.adc12, &mut bus, AdcConfig::new());
    let buf = WordSpan { addr: 0x1C00, len: 4 };
    let run = adc.read_supply_half_repeated_dma(&mut bus, &mut channels.ch0, buf);
    assert_eq!(run, Ok(()));
    let sim = bus.release();
    assert_eq!((sim.word(0x0512), sim.word(0x0516), sim.word(0x051A)), (0x0860, 0x1C00, 4));
}

#[test]
fn adc_that_stays_busy_stalls() {
    let (mut bus, p) = board(Sim::new().answers(0x0802, &[1]));
    let mut adc = Adc::new(p.adc12, &mut bus, AdcConfig::new());
    assert_eq!(adc.read_channel(&mut bus, 4), Err(Stalled));
    assert_eq!(adc.read_supply_half(&mut bus), Err(Stalled));
}

#[test]
fn reference_keeps_its_voltage_where_nothing_was_written() {
    let (mut bus, p) = board(Sim::new().answers(0x01B0, &[0, 0x1000, 0x0400]));
    let mut vref = match Ref::new(p.shared_reference, &mut bus, ReferenceVoltage::V2_0) {
        Ok(r) => r,
        Err(_) => panic!("the reference settles"),
    };
    assert_eq!(vref.set_voltage(&mut bus, ReferenceVoltage::V1_2), Err(Stalled));
    assert_eq!(vref.voltage(), ReferenceVoltage::V2_0);
    assert_eq!(vref.disable_output(&mut bus), Err(Stalled));
    assert_eq!(bus.release().writes(), vec![Op::W16(0x01B0, 0x0011)]);
}

#[test]
fn reference_has_the_voltage_that_was_written() {
    let (mut bus, p) = board(Sim::new().answers(0x01B0, &[0, 0x1000, 0]));
    let mut vref = match Ref::new(p.shared_reference, &mut bus, ReferenceVoltage::V2_0) {
        Ok(r) => r,
        Err(_) => panic!("the reference settles"),
    };
    assert_eq!(vref.set_voltage(&mut bus, ReferenceVoltage::V1_2), Err(Stalled));
    assert_eq!(vref.voltage(), ReferenceVoltage::V1_2);
    assert_eq!(vref.millivolts(), 1200);
}

#[test]
fn reference_is_not_written_while_it_is_busy() {
    let (mut bus, p) = board(Sim::new().answers(0x01B0, &[0x0400]));
    assert!(Ref::new(p.shared_reference, &mut bus, ReferenceVoltage::V2_5).is_err());
    assert!(bus.release().writes().is_empty());
}

#[test]
fn comparator_is_configured_and_read() {
    let (mut bus, p) = board(Sim::new());
    let mut ce = CompE::new(p.comparator_e, &mut bus, CompConfig::default());
    ce.watch_channel(&mut bus, 3, Threshold::vcc_ladder(15));
    assert!(!ce.output(&mut bus));
    assert_eq!(comp_e::read_iv(&mut bus), 0);
}

// --- system -------------------------------------------------------------------

#[test]
fn reset_reasons_are_drained() {
    let (mut bus, p) = board(Sim::new().answers(0x019E, &[0x02, 0x16, 0x00]));
    let reasons = ResetReasons::drain(&p.sys, &mut bus);
    assert_eq!(reasons.len(), 2);
    assert_eq!(reasons.raw(), &[0x02, 0x16]);
    assert_eq!(reasons.primary(), ResetReason::from_iv(0x02));
    assert!(reasons.contains(ResetReason::from_iv(0x16).unwrap()));
    assert!(!reasons.is_empty());
    assert_eq!(reasons.iter().len(), 2);
}

#[test]
fn reset_reasons_have_names_of_their_own() {
    let mut names = vec![];
    for iv in (2..=0x30u16).step_by(2) {
        if let Some(reason) = ResetReason::from_iv(iv) {
            names.push(reason.as_str());
        }
    }
    let n = names.len();
    names.sort();
    names.dedup();
    assert!(n > 10);
    assert!(names.len() >= n - 2);
    assert_eq!(ResetReason::from_iv(0), None);
}

#[test]
fn nmi_source_is_read() {
    let mut bus = Bus::new(Sim::new().answers(0x019C, &[0x00]), 10);
    assert_eq!(sys::read_nmi_iv(&mut bus), None);
    assert_eq!(NmiSource::from_iv(0x00), None);
}

// --- demonstrations -------------------------------------------------------------

#[test]
fn boots_are_counted() {
    let mut bus = Bus::new(Sim::new().poke(0x1800, &[0xFF; 8]), 10);
    let mut info = InfoFram::new();
    assert_eq!(demo::count_boot(&mut info, &mut bus), 1);
    assert_eq!(demo::count_boot(&mut info, &mut bus), 2);
    assert_eq!(demo::count_boot(&mut info, &mut bus), 3);
    let sim = bus.release();
    assert_eq!(sim.mem[0x1800..0x1808], [0x01, 0x00, 0xA1, 0xF5, 3, 0, 0, 0]);
}

#[test]
fn upper_fram_check_finds_its_pattern() {
    let mut bus = Bus::new(Sim::new(), 10);
    let mut high = HighFram::new();
    assert_eq!(demo::check_high_fram(&mut high, &mut bus), (true, false));
    assert_eq!(demo::check_high_fram(&mut high, &mut bus), (true, true));
    let mut stuck = Bus::new(Sim::new().answers(0x1_3FFF, &[0]), 10);
    assert_eq!(demo::check_high_fram(&mut high, &mut stuck), (false, false));
}

#[test]
fn blinking_switches_both_leds() {
    let mut bus = Bus::new(Sim::new().poke(0x0130, &[1, 0]), 10);
    demo::blink_setup(&mut bus);
    demo::blink(&mut bus);
    let sim = bus.release();
    assert_eq!((sim.mem[0x0202], sim.mem[0x0223]), (0x01, 0x40));
    assert_eq!((sim.mem[0x0204], sim.mem[0x0225]), (0x01, 0x40));
    let mut bus = Bus::new(sim, 10);
    demo::blink(&mut bus);
    assert_eq!(bus.release().mem[0x0223], 0x00);
}
