[package]
name = "msp430fr5969_hal"
version = "0.1.0"
edition = "2021"
publish = false

[dependencies]
critical-section = { version = "1", features = ["std"] }
embedded-hal = "1.0"
embedded-hal-nb = "1.0"
embedded-io = "0.6"
embedded-storage = "0.3"
