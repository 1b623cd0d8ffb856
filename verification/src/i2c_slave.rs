//! eUSCI_B I2C slave-mode register math.
//!
//! A slave answers the address programmed into `UCBxI2COA0`: bits 9:0 hold
//! the address, bit 10 (`UCOAEN`) enables matching, and bit 15 (`UCGCEN`)
//! additionally answers the general call. The `USCI_B0` vector is told apart
//! by `UCBxIV`, whose read clears the flag that it reports.
use vstd::prelude::*;

verus! {

/// `UCOAEN`, the own-address enable (bit 10).
pub const OA_ENABLE: u16 = 0x0400;

/// `UCGCEN`, the general-call enable (bit 15).
pub const OA_GENERAL_CALL: u16 = 0x8000;

/// Why a 7-bit own address is rejected.
#[derive(Clone, Copy, PartialEq, Eq, Structural, Debug)]
pub enum AddressError {
    /// Not a 7-bit address.
    OutOfRange,
    /// A 7-bit address that the bus specification reserves (`0x00..=0x07` and
    /// `0x78..=0x7F`).
    Reserved,
}

/// The `UCBxI2COA0` word for an own address, or why there is none.
pub open spec fn own_address(address: u8, general_call: bool) -> Result<u16, AddressError> {
    if address > 0x7F {
        Err(AddressError::OutOfRange)
    } else if address < 0x08 || address > 0x77 {
        Err(AddressError::Reserved)
    } else {
        Ok((address + OA_ENABLE + if general_call { OA_GENERAL_CALL as int } else { 0 }) as u16)
    }
}

/// Validates a 7-bit own address and encodes the `UCBxI2COA0` word: the
/// address in bits 9:0, `UCOAEN` set, and `UCGCEN` when the slave should also
/// answer the general call.
pub fn encode_own_address(address: u8, general_call: bool) -> (r: Result<u16, AddressError>)
    ensures
        r == own_address(address, general_call),
{
    if address > 0x7F {
        return Err(AddressError::OutOfRange);
    }
    if address < 0x08 || address > 0x77 {
        return Err(AddressError::Reserved);
    }
    let a: u16 = address as u16;
    let mut word: u16 = a | OA_ENABLE;
    assert(a <= 0x77 ==> a | 0x0400 == a + 0x0400 && (a | 0x0400) | 0x8000 == a + 0x8400)
        by (bit_vector);
    if general_call {
        word = word | OA_GENERAL_CALL;
    }
    Ok(word)
}

/// Two accepted settings never share a register word, so the address and the
/// general-call choice can be read back from it.
pub proof fn lemma_own_address_injective(a: u8, b: u8, ga: bool, gb: bool)
    requires
        own_address(a, ga) is Ok,
        own_address(b, gb) is Ok,
        own_address(a, ga) == own_address(b, gb),
    ensures
        a == b,
        ga == gb,
{
}

/// `UCBxIV`: nothing pending.
pub const IV_NONE: u16 = 0x00;

/// Arbitration lost (`UCALIFG`).
pub const IV_ARBITRATION_LOST: u16 = 0x02;

/// NACK received (`UCNACKIFG`).
pub const IV_NACK: u16 = 0x04;

/// START and own address received (`UCSTTIFG`).
pub const IV_START: u16 = 0x06;

/// STOP received (`UCSTPIFG`).
pub const IV_STOP: u16 = 0x08;

/// `UCRXIFG3`.
pub const IV_RX3: u16 = 0x0A;

/// `UCTXIFG3`.
pub const IV_TX3: u16 = 0x0C;

/// `UCRXIFG2`.
pub const IV_RX2: u16 = 0x0E;

/// `UCTXIFG2`.
pub const IV_TX2: u16 = 0x10;

/// `UCRXIFG1`.
pub const IV_RX1: u16 = 0x12;

/// `UCTXIFG1`.
pub const IV_TX1: u16 = 0x14;

/// A data byte is in `RXBUF` (`UCRXIFG0`).
pub const IV_RX: u16 = 0x16;

/// `TXBUF` is empty (`UCTXIFG0`).
pub const IV_TX: u16 = 0x18;

/// Byte-counter threshold (`UCBCNTIFG`).
pub const IV_BYTE_COUNTER: u16 = 0x1A;

/// Clock-low timeout (`UCCLTOIFG`).
pub const IV_CLOCK_LOW_TIMEOUT: u16 = 0x1C;

/// Ninth-bit position (`UCBIT9IFG`).
pub const IV_NINTH_BIT: u16 = 0x1E;

/// A decoded `UCBxIV` value, from the slave's point of view.
#[derive(Clone, Copy, PartialEq, Eq, Structural, Debug)]
pub enum SlaveIv {
    /// No interrupt pending.
    Nothing,
    /// Arbitration lost.
    ArbitrationLost,
    /// NACK received; for a slave transmitter, the master's "last byte".
    Nack,
    /// START and own address received; the direction is in `UCTR`.
    Start,
    /// STOP received.
    Stop,
    /// A data byte is in `RXBUF` (own address 0).
    Rx,
    /// `TXBUF` is empty and the master wants a byte (own address 0).
    Tx,
    /// Receive or transmit for the secondary own addresses 1 to 3.
    SecondaryAddress(u16),
    /// Byte-counter threshold.
    ByteCounter,
    /// Clock-low timeout.
    ClockLowTimeout,
    /// Ninth-bit position.
    NinthBit,
    /// Anything outside the documented table.
    Unknown(u16),
}

impl SlaveIv {
    /// The `UCBxIV` value that stands for this source.
    pub open spec fn value(self) -> u16 {
        match self {
            SlaveIv::Nothing => IV_NONE,
            SlaveIv::ArbitrationLost => IV_ARBITRATION_LOST,
            SlaveIv::Nack => IV_NACK,
            SlaveIv::Start => IV_START,
            SlaveIv::Stop => IV_STOP,
            SlaveIv::Rx => IV_RX,
            SlaveIv::Tx => IV_TX,
            SlaveIv::SecondaryAddress(iv) => iv,
            SlaveIv::ByteCounter => IV_BYTE_COUNTER,
            SlaveIv::ClockLowTimeout => IV_CLOCK_LOW_TIMEOUT,
            SlaveIv::NinthBit => IV_NINTH_BIT,
            SlaveIv::Unknown(iv) => iv,
        }
    }

    /// The carried value belongs under its heading: secondary addresses are
    /// the even values `0x0A..=0x14`, and only what no other heading names is
    /// unknown.
    pub open spec fn canonical(self) -> bool {
        match self {
            SlaveIv::SecondaryAddress(iv) => 0x0A <= iv <= 0x14 && iv % 2 == 0,
            SlaveIv::Unknown(iv) => iv > 0x1E || iv % 2 == 1,
            _ => true,
        }
    }
}

/// Decodes a `UCBxIV` read. Every value maps to something, and nothing that
/// the hardware reports is lost.
pub fn decode_iv(iv: u16) -> (r: SlaveIv)
    ensures
        r.value() == iv,
        r.canonical(),
{
    match iv {
        0x00 => SlaveIv::Nothing,
        0x02 => SlaveIv::ArbitrationLost,
        0x04 => SlaveIv::Nack,
        0x06 => SlaveIv::Start,
        0x08 => SlaveIv::Stop,
        0x0A | 0x0C | 0x0E | 0x10 | 0x12 | 0x14 => SlaveIv::SecondaryAddress(iv),
        0x16 => SlaveIv::Rx,
        0x18 => SlaveIv::Tx,
        0x1A => SlaveIv::ByteCounter,
        0x1C => SlaveIv::ClockLowTimeout,
        0x1E => SlaveIv::NinthBit,
        other => SlaveIv::Unknown(other),
    }
}

/// A `UCBxIV` value has exactly one decoding.
pub proof fn lemma_decoding_unique(a: SlaveIv, b: SlaveIv)
    requires
        a.canonical(),
        b.canonical(),
        a.value() == b.value(),
    ensures
        a == b,
{
}

/// What the module makes of an own-address word: the address in bits 9:0, in use
/// (bit 10), and the general call in bit 15. Addresses that no device may have are
/// refused, and so are numbers that are no addresses.
pub proof fn lemma_own_address_decoded(address: u8, general_call: bool)
    ensures
        own_address(address, general_call) is Ok <==> 8 <= address <= 119,
        own_address(address, general_call) == Err::<u16, AddressError>(AddressError::OutOfRange)
            <==> address >= 128,
        own_address(address, general_call) == Err::<u16, AddressError>(AddressError::Reserved)
            <==> address < 8 || 120 <= address < 128,
        own_address(address, general_call) matches Ok(word) ==> {
            &&& word as int % 0x400 == address
            &&& word as int / 0x400 % 0x20 == 1
            &&& word as int / 0x8000 == if general_call {
                1int
            } else {
                0
            }
        },
{
}

/// What the values of the interrupt vector register mean.
pub proof fn lemma_vector_values(what: SlaveIv)
    requires
        what.canonical(),
    ensures
        what.value() == 0 ==> what == SlaveIv::Nothing,
        what.value() == 2 ==> what == SlaveIv::ArbitrationLost,
        what.value() == 4 ==> what == SlaveIv::Nack,
        what.value() == 6 ==> what == SlaveIv::Start,
        what.value() == 8 ==> what == SlaveIv::Stop,
        10 <= what.value() <= 20 && what.value() % 2 == 0 ==> what == SlaveIv::SecondaryAddress(
            what.value(),
        ),
        what.value() == 22 ==> what == SlaveIv::Rx,
        what.value() == 24 ==> what == SlaveIv::Tx,
        what.value() == 26 ==> what == SlaveIv::ByteCounter,
        what.value() == 28 ==> what == SlaveIv::ClockLowTimeout,
        what.value() == 30 ==> what == SlaveIv::NinthBit,
        what.value() > 30 || what.value() % 2 == 1 ==> what == SlaveIv::Unknown(what.value()),
{
}

} // verus!
