//! The on-chip peripherals as values that can be owned.
//!
//! Each type stands for one peripheral (or one mode view of a shared one).
//! There is no way to make one but [`Peripherals::take`], which hands them out
//! once per chip: the mark is on the hardware, and goes with it from bus to bus.
//! Where a program has one value that stands for its chip, a driver that
//! consumes a peripheral is the only user of its registers.
use vstd::prelude::*;

use crate::bus::{Bus, Hardware};

verus! {

/// The ADC12_B converter.
pub struct Adc12 {
    _private: (),
}

/// The AES256 accelerator.
pub struct AesAccelerator {
    _private: (),
}

/// Capacitive Touch I/O 0.
pub struct CapacitiveTouchIo0 {
    _private: (),
}

/// Capacitive Touch I/O 1.
pub struct CapacitiveTouchIo1 {
    _private: (),
}

/// The Comp_E comparator.
pub struct ComparatorE {
    _private: (),
}

/// The CRC16 module.
pub struct Crc16 {
    _private: (),
}

/// The clock system.
pub struct Cs {
    _private: (),
}

/// The DMA controller.
pub struct Dma {
    _private: (),
}

/// The power management module.
pub struct Pmm {
    _private: (),
}

/// Ports 1 and 2.
pub struct Port1_2 {
    _private: (),
}

/// Ports 3 and 4.
pub struct Port3_4 {
    _private: (),
}

/// The RTC_B real-time clock.
pub struct RtcBRealTimeClock {
    _private: (),
}

/// The REF_A voltage reference.
pub struct SharedReference {
    _private: (),
}

/// The SYS module.
pub struct Sys {
    _private: (),
}

/// Timer TA0.
pub struct Timer0A3 {
    _private: (),
}

/// Timer TA1.
pub struct Timer1A3 {
    _private: (),
}

/// Timer TA2.
pub struct Timer2A2 {
    _private: (),
}

/// Timer TA3.
pub struct Timer3A2 {
    _private: (),
}

/// eUSCI_A0 as an SPI module.
pub struct UsciA0SpiMode {
    _private: (),
}

/// eUSCI_A0 as a UART.
pub struct UsciA0UartMode {
    _private: (),
}

/// eUSCI_A1 as an SPI module.
pub struct UsciA1SpiMode {
    _private: (),
}

/// eUSCI_A1 as a UART.
pub struct UsciA1UartMode {
    _private: (),
}

/// eUSCI_B0 as an I2C module.
pub struct UsciB0I2cMode {
    _private: (),
}

/// eUSCI_B0 as an SPI module.
pub struct UsciB0SpiMode {
    _private: (),
}

/// The watchdog timer.
pub struct WatchdogTimer {
    _private: (),
}

/// Every peripheral of the chip.
pub struct Peripherals {
    pub adc12: Adc12,
    pub aes_accelerator: AesAccelerator,
    pub capacitive_touch_io_0: CapacitiveTouchIo0,
    pub capacitive_touch_io_1: CapacitiveTouchIo1,
    pub comparator_e: ComparatorE,
    pub crc16: Crc16,
    pub cs: Cs,
    pub dma: Dma,
    pub pmm: Pmm,
    pub port_1_2: Port1_2,
    pub port_3_4: Port3_4,
    pub rtc_b_real_time_clock: RtcBRealTimeClock,
    pub shared_reference: SharedReference,
    pub sys: Sys,
    pub timer_0_a3: Timer0A3,
    pub timer_1_a3: Timer1A3,
    pub timer_2_a2: Timer2A2,
    pub timer_3_a2: Timer3A2,
    pub usci_a0_spi_mode: UsciA0SpiMode,
    pub usci_a0_uart_mode: UsciA0UartMode,
    pub usci_a1_spi_mode: UsciA1SpiMode,
    pub usci_a1_uart_mode: UsciA1UartMode,
    pub usci_b0_i2c_mode: UsciB0I2cMode,
    pub usci_b0_spi_mode: UsciB0SpiMode,
    pub watchdog_timer: WatchdogTimer,
}

impl Peripherals {
    /// Hands the peripherals out: `Some` on the first call for a chip, `None`
    /// on every later one, also on another bus. No register is accessed.
    pub fn take<H: Hardware>(bus: &mut Bus<H>) -> (p: Option<Peripherals>)
        ensures
            p is Some <==> !old(bus).taken(),
            final(bus).taken(),
            final(bus)@ == old(bus)@,
            final(bus).raw() == old(bus).raw(),
            final(bus).hardware().trace() == old(bus).hardware().trace(),
            final(bus).patience() == old(bus).patience(),
            final(bus).traced() == old(bus).traced(),
    {
        if !bus.claim() {
            return None;
        }
        Some(
            Peripherals {
                adc12: Adc12 { _private: () },
                aes_accelerator: AesAccelerator { _private: () },
                capacitive_touch_io_0: CapacitiveTouchIo0 { _private: () },
                capacitive_touch_io_1: CapacitiveTouchIo1 { _private: () },
                comparator_e: ComparatorE { _private: () },
                crc16: Crc16 { _private: () },
                cs: Cs { _private: () },
                dma: Dma { _private: () },
                pmm: Pmm { _private: () },
                port_1_2: Port1_2 { _private: () },
                port_3_4: Port3_4 { _private: () },
                rtc_b_real_time_clock: RtcBRealTimeClock { _private: () },
                shared_reference: SharedReference { _private: () },
                sys: Sys { _private: () },
                timer_0_a3: Timer0A3 { _private: () },
                timer_1_a3: Timer1A3 { _private: () },
                timer_2_a2: Timer2A2 { _private: () },
                timer_3_a2: Timer3A2 { _private: () },
                usci_a0_spi_mode: UsciA0SpiMode { _private: () },
                usci_a0_uart_mode: UsciA0UartMode { _private: () },
                usci_a1_spi_mode: UsciA1SpiMode { _private: () },
                usci_a1_uart_mode: UsciA1UartMode { _private: () },
                usci_b0_i2c_mode: UsciB0I2cMode { _private: () },
                usci_b0_spi_mode: UsciB0SpiMode { _private: () },
                watchdog_timer: WatchdogTimer { _private: () },
            },
        )
    }
}

} // verus!
