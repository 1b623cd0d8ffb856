# msp430fr5969_hal

Drivers for the MSP430FR5969 microcontroller, written in Verus: what each driver
asks of the chip is stated in its contract and proved.

- `src/bus.rs` is the only way to the chip. Every access is a step on a `Bus`;
  contracts say which steps a call makes, in order, and what it returns for each
  outcome of them. The trait `Hardware` stands for the chip. Its contract says
  that it does what it is asked, and the proofs say that it is asked exactly what
  the steps stand for.
- `src/ram.rs` is plain memory in place of the chip.
- Waits are bounded: a `Bus` has a patience, the number of times that a polling
  loop reads before the driver gives up with `Stalled`.
- `src/pac.rs` hands the peripherals of a chip out once, as values that their
  drivers consume.
- `src/memory.rs` says what it means that registers hold what was stored in them;
  laws that need it assume it openly.
- The other modules are one driver each, or the arithmetic of one.
- `app/` has the volatile access to the real chip, the traits of the
  `embedded-hal` family on the drivers, and the demonstration programs.
- `tests/` runs the drivers on a simulated chip.
