//! Hardware abstraction for the MSP430FR5969.
//!
//! Drivers make every access to the chip as a step on a [`bus::Bus`], and their
//! contracts say which steps they make. See [`bus`] first, then [`pac`] for the
//! peripherals that drivers own.

pub mod bus;
pub mod memory;
pub mod pac;
pub mod peripherals;
pub mod ram;
pub mod trace;

pub mod clocks;
pub mod delay;
pub mod gpio;
pub mod power;
pub mod sys;
pub mod watchdog;

pub mod adc;
pub mod adc_cal;
pub mod adc_seq;
pub mod aes;
pub mod baud;
pub mod captio;
pub mod captio_ctl;
pub mod capture;
pub mod capture_math;
pub mod comp_e;
pub mod comp_ladder;
pub mod crc;
pub mod crc_soft;
pub mod dma;
pub mod fram;
pub mod fram_addr;
pub mod i2c;
pub mod i2c_slave;
pub mod mpu;
pub mod mpu_seg;
pub mod ref_a;
pub mod rtc;
pub mod rtc_alarm;
pub mod rtc_tick;
pub mod rx_queue;
pub mod serial;
pub mod spi;
pub mod ticks;
pub mod timer;
pub mod tlv;

pub mod demo;
pub mod num;
pub mod text;

/// The front door of a program; see [`peripherals::take`].
pub use crate::peripherals::take as init;
