//! Wire-level constants of the protocol and the 7-bit split encoding.
//!
//! Every multi-bit value on the wire is carried in successive 7-bit bytes,
//! low byte first, reassembled as `low | (high << 7)`; the top bit of each
//! payload byte is reserved for framing.

use vstd::prelude::*;

verus! {

// Sysex (extended message) subtype codes.
pub const ENCODER_DATA: u8 = 0x61;
pub const ANALOG_MAPPING_QUERY: u8 = 0x69;
pub const ANALOG_MAPPING_RESPONSE: u8 = 0x6A;
pub const CAPABILITY_QUERY: u8 = 0x6B;
pub const CAPABILITY_RESPONSE: u8 = 0x6C;
pub const PIN_STATE_QUERY: u8 = 0x6D;
pub const PIN_STATE_RESPONSE: u8 = 0x6E;
pub const EXTENDED_ANALOG: u8 = 0x6F;
pub const SERVO_CONFIG: u8 = 0x70;
pub const STRING_DATA: u8 = 0x71;
pub const STEPPER_DATA: u8 = 0x72;
pub const ONEWIRE_DATA: u8 = 0x73;
pub const SHIFT_DATA: u8 = 0x75;
pub const I2C_REQUEST: u8 = 0x76;
pub const I2C_REPLY: u8 = 0x77;
pub const I2C_CONFIG: u8 = 0x78;
pub const I2C_MODE_WRITE: u8 = 0x00;
pub const I2C_MODE_READ: u8 = 0x01;
pub const REPORT_FIRMWARE: u8 = 0x79;
pub const SAMPLING_INTERVAL: u8 = 0x7A;
pub const SCHEDULER_DATA: u8 = 0x7B;
pub const SYSEX_NON_REALTIME: u8 = 0x7E;
pub const SYSEX_REALTIME: u8 = 0x7F;

// Framing markers and fixed message headers.
pub const START_SYSEX: u8 = 0xF0;
pub const END_SYSEX: u8 = 0xF7;
pub const PROTOCOL_VERSION: u8 = 0xF9;
pub const PIN_MODE: u8 = 0xF4;

// Ranged headers; the low nibble carries the pin or port number.
pub const REPORT_DIGITAL: u8 = 0xD0;
pub const REPORT_ANALOG: u8 = 0xC0;
pub const DIGITAL_MESSAGE: u8 = 0x90;
pub const ANALOG_MESSAGE: u8 = 0xE0;

// Pin modes.
pub const INPUT: u8 = 0;
pub const OUTPUT: u8 = 1;
pub const ANALOG: u8 = 2;
pub const PWM: u8 = 3;
pub const SERVO: u8 = 4;
pub const I2C: u8 = 6;
pub const ONEWIRE: u8 = 7;
pub const STEPPER: u8 = 8;
pub const ENCODER: u8 = 9;

/// The capability-response sentinel that closes one pin's capability list.
pub const CAPABILITY_PIN_SEPARATOR: u8 = 127;

/// The analog-mapping sentinel for a pin with no analog channel.
pub const ANALOG_UNSUPPORTED: u8 = 127;

/// Number of digital pins that precede the analog pins in the wire
/// numbering: analog pin N is addressed as digital pin N + 14.
pub const ANALOG_PIN_OFFSET: u8 = 14;

/// The low seven bits of a value, as sent first on the wire.
pub open spec fn split_lo(v: int) -> u8 {
    (v % 128) as u8
}

/// The next seven bits of a value, as sent second on the wire.
pub open spec fn split_hi(v: int) -> u8 {
    ((v / 128) % 128) as u8
}

/// A 14-bit wire word reassembled from its low and high bytes,
/// `low | (high << 7)`.
pub open spec fn word14(lo: u8, hi: u8) -> u32 {
    (lo as u32) | ((hi as u32) << 7)
}

/// One logical byte reassembled from a 7-bit-low/7-bit-high wire pair,
/// `low | (high << 7)` in byte arithmetic.
pub open spec fn byte7(lo: u8, hi: u8) -> u8 {
    lo | (hi << 7)
}

/// A reassembled word is bounded, and when the low byte keeps its top bit
/// clear - as every well-formed wire byte does - reassembly is plain
/// positional arithmetic.
pub proof fn lemma_word14(lo: u8, hi: u8)
    ensures
        word14(lo, hi) < 32768,
        lo < 128 ==> word14(lo, hi) == lo + 128 * (hi as int),
{
    assert((lo as u32) | ((hi as u32) << 7) < 32768) by (bit_vector);
    assert(lo < 128 ==> ((lo as u32) | ((hi as u32) << 7)) == (lo as u32) + 128 * (hi as u32))
        by (bit_vector);
}

/// The byte-pair analogue of `lemma_word14`: a clean low byte makes the
/// reassembled byte `low + 128 * (high mod 2)`.
pub proof fn lemma_byte7(lo: u8, hi: u8)
    ensures
        lo < 128 ==> byte7(lo, hi) == lo + 128 * ((hi as int) % 2),
{
    assert(lo < 128 ==> (lo | (hi << 7)) == lo + 128 * (hi % 2)) by (bit_vector);
}

/// Two to the power `n`, taken as one for `n <= 0`.
pub open spec fn pow2(n: int) -> int
    decreases n,
{
    if n <= 0 {
        1
    } else {
        2 * pow2(n - 1)
    }
}

pub proof fn lemma_pow2_pos(n: int)
    ensures
        pow2(n) >= 1,
    decreases n,
{
    if n > 0 {
        lemma_pow2_pos(n - 1);
    }
}

pub proof fn lemma_pow2_mono(a: int, b: int)
    requires
        a <= b,
    ensures
        pow2(a) <= pow2(b),
    decreases b - a,
{
    if a < b {
        lemma_pow2_mono(a, b - 1);
        lemma_pow2_pos(b - 1);
    }
}

pub proof fn lemma_pow2_8()
    ensures
        pow2(8) == 256,
{
    reveal_with_fuel(pow2, 9);
}

/// Splitting a 14-bit value into its two wire bytes and reassembling them
/// gives the value back.
pub proof fn lemma_split_roundtrip(v: int)
    requires
        0 <= v < 16384,
    ensures
        split_lo(v) < 128,
        split_hi(v) < 128,
        split_lo(v) + 128 * (split_hi(v) as int) == v,
        word14(split_lo(v), split_hi(v)) == v,
{
    assert(v == 128 * (v / 128) + v % 128);
    assert(0 <= v / 128 < 128);
    lemma_word14(split_lo(v), split_hi(v));
}

} // verus!
