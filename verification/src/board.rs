//! The in-memory model of a board and the outbound message encoders.
//!
//! A [`Board`] holds the pin table, the firmware and protocol identity
//! strings and the queue of peripheral replies. Encoder operations update the
//! cached pin state where the protocol requires it and return the exact byte
//! string to put on the wire; the caller owns the transport and writes them.

use vstd::prelude::*;
use crate::protocol::{
    ANALOG_MAPPING_QUERY, ANALOG_MESSAGE, CAPABILITY_QUERY, DIGITAL_MESSAGE, END_SYSEX,
    I2C_CONFIG, I2C_MODE_READ, I2C_MODE_WRITE, I2C_REQUEST, PIN_MODE, REPORT_ANALOG,
    REPORT_DIGITAL, REPORT_FIRMWARE, START_SYSEX, lemma_pow2_8, lemma_pow2_mono, pow2,
    split_hi, split_lo,
};

verus! {

/// One capability a pin supports: a mode and its resolution in bits.
#[derive(Debug, Clone, Copy, PartialEq, Eq, Structural)]
pub struct Mode {
    pub mode: u8,
    pub resolution: u8,
}

/// The current state and configuration of one pin.
#[derive(Debug)]
pub struct Pin {
    /// The capabilities the last capability response listed for this pin.
    pub modes: Vec<Mode>,
    /// Whether an analog-mapping response marked this pin analog-capable.
    pub analog: bool,
    /// The cached value: the last level written to the pin, or the last
    /// value a report for the pin carried.
    pub value: i32,
    /// The mode assigned through the mode-set operation.
    pub mode: u8,
}

/// A reassembled peripheral (I2C) reply.
#[derive(Debug)]
pub struct I2CReply {
    pub address: i32,
    pub register: i32,
    pub data: Vec<u8>,
}

/// Why a decode call failed; the stream itself stays usable afterwards.
#[derive(Debug, Clone, Copy, PartialEq, Eq, Structural)]
pub enum DecodeError {
    /// The leading byte matches no defined header range or marker.
    UnknownHeader(u8),
    /// A sysex frame carries a subtype this decoder does not handle.
    UnknownSysex(u8),
    /// The message is shorter than its kind requires.
    TooShort,
}

impl DecodeError {
    /// A fixed description of the error, for callers that report it.
    pub fn describe(&self) -> (r: &'static str)
        ensures
            r@ == self.describe_spec(),
    {
        match self {
            DecodeError::UnknownHeader(_) => "unrecognized message header",
            DecodeError::UnknownSysex(_) => "unknown sysex code",
            DecodeError::TooShort => "message too short",
        }
    }

    pub open spec fn describe_spec(&self) -> Seq<char> {
        match self {
            DecodeError::UnknownHeader(_) => "unrecognized message header"@,
            DecodeError::UnknownSysex(_) => "unknown sysex code"@,
            DecodeError::TooShort => "message too short"@,
        }
    }
}

/// `p` with its cached value replaced.
pub open spec fn pin_with_value(p: Pin, v: i32) -> Pin {
    Pin { value: v, ..p }
}

/// `p` with its assigned mode replaced.
pub open spec fn pin_with_mode(p: Pin, m: u8) -> Pin {
    Pin { mode: m, ..p }
}

/// `p` marked analog-capable.
pub open spec fn pin_with_analog(p: Pin) -> Pin {
    Pin { analog: true, ..p }
}

/// The 8-bit mask of a digital-port message over the first `n` pins of
/// `port`: bit `i` is set exactly when the cached value of pin
/// `8 * port + i` is nonzero.
pub open spec fn port_mask(pins: Seq<Pin>, port: int, n: int) -> int
    decreases n,
{
    if n <= 0 {
        0
    } else {
        port_mask(pins, port, n - 1) + if pins[8 * port + n - 1].value != 0 {
            pow2(n - 1)
        } else {
            0
        }
    }
}

/// The in-memory model of one attached board.
///
/// The pin list starts empty and is rebuilt wholesale by every decoded
/// capability response; the identity strings are filled in by decoded
/// version and firmware reports; the peripheral reply queue grows at the
/// back and is drained at the front, oldest reply first.
pub struct Board {
    pub pins: Vec<Pin>,
    pub i2c_data: Vec<I2CReply>,
    pub protocol_version: String,
    pub firmware_name: String,
    pub firmware_version: String,
}

impl Board {
    /// A fresh board: no pins, no replies, empty identity strings.
    pub fn new() -> (b: Board)
        ensures
            b.pins@ == Seq::<Pin>::empty(),
            b.i2c_data@ == Seq::<I2CReply>::empty(),
            b.protocol_version@ == Seq::<char>::empty(),
            b.firmware_name@ == Seq::<char>::empty(),
            b.firmware_version@ == Seq::<char>::empty(),
    {
        Board {
            pins: Vec::new(),
            i2c_data: Vec::new(),
            protocol_version: String::new(),
            firmware_name: String::new(),
            firmware_version: String::new(),
        }
    }

    /// The pin table.
    pub fn pins(&self) -> (r: &Vec<Pin>)
        ensures
            r@ == self.pins@,
    {
        &self.pins
    }

    /// The protocol version the board last reported.
    pub fn protocol_version(&self) -> (r: &String)
        ensures
            r@ == self.protocol_version@,
    {
        &self.protocol_version
    }

    /// The firmware name the board last reported.
    pub fn firmware_name(&self) -> (r: &String)
        ensures
            r@ == self.firmware_name@,
    {
        &self.firmware_name
    }

    /// The firmware version the board last reported.
    pub fn firmware_version(&self) -> (r: &String)
        ensures
            r@ == self.firmware_version@,
    {
        &self.firmware_version
    }

    /// The queue of peripheral replies, oldest first.
    pub fn i2c_data(&mut self) -> (r: &mut Vec<I2CReply>)
        ensures
            *r == old(self).i2c_data,
            final(self).i2c_data == *final(r),
            final(self).pins == old(self).pins,
            final(self).protocol_version == old(self).protocol_version,
            final(self).firmware_name == old(self).firmware_name,
            final(self).firmware_version == old(self).firmware_version,
    {
        &mut self.i2c_data
    }

    /// Removes and returns the oldest undrained peripheral reply. This is
    /// the queue's drain discipline: first in, first out.
    pub fn pop_i2c_reply(&mut self) -> (r: Option<I2CReply>)
        ensures
            old(self).i2c_data@.len() == 0 ==> {
                &&& r is None
                &&& final(self).i2c_data@ == old(self).i2c_data@
            },
            old(self).i2c_data@.len() > 0 ==> {
                &&& r == Some(old(self).i2c_data@[0])
                &&& final(self).i2c_data@ == old(self).i2c_data@.skip(1)
            },
            final(self).pins == old(self).pins,
            final(self).protocol_version == old(self).protocol_version,
            final(self).firmware_name == old(self).firmware_name,
            final(self).firmware_version == old(self).firmware_version,
    {
        if self.i2c_data.len() == 0 {
            None
        } else {
            let r = self.i2c_data.remove(0);
            proof {
                assert(self.i2c_data@ =~= old(self).i2c_data@.skip(1));
            }
            Some(r)
        }
    }

    /// The sysex message that asks the board for its analog pin mapping.
    pub fn query_analog_mapping(&self) -> (msg: Vec<u8>)
        ensures
            msg@ == seq![START_SYSEX, ANALOG_MAPPING_QUERY, END_SYSEX],
    {
        let mut msg: Vec<u8> = Vec::new();
        msg.push(START_SYSEX);
        msg.push(ANALOG_MAPPING_QUERY);
        msg.push(END_SYSEX);
        proof {
            assert(msg@ =~= seq![START_SYSEX, ANALOG_MAPPING_QUERY, END_SYSEX]);
        }
        msg
    }

    /// The sysex message that asks the board for its pin capabilities.
    pub fn query_capabilities(&self) -> (msg: Vec<u8>)
        ensures
            msg@ == seq![START_SYSEX, CAPABILITY_QUERY, END_SYSEX],
    {
        let mut msg: Vec<u8> = Vec::new();
        msg.push(START_SYSEX);
        msg.push(CAPABILITY_QUERY);
        msg.push(END_SYSEX);
        proof {
            assert(msg@ =~= seq![START_SYSEX, CAPABILITY_QUERY, END_SYSEX]);
        }
        msg
    }

    /// The sysex message that asks the board for its firmware identity.
    pub fn query_firmware(&self) -> (msg: Vec<u8>)
        ensures
            msg@ == seq![START_SYSEX, REPORT_FIRMWARE, END_SYSEX],
    {
        let mut msg: Vec<u8> = Vec::new();
        msg.push(START_SYSEX);
        msg.push(REPORT_FIRMWARE);
        msg.push(END_SYSEX);
        proof {
            assert(msg@ =~= seq![START_SYSEX, REPORT_FIRMWARE, END_SYSEX]);
        }
        msg
    }

    /// Assigns `mode` to `pin` in the cache and returns the 3-byte
    /// mode-set message.
    pub fn set_pin_mode(&mut self, pin: i32, mode: u8) -> (msg: Vec<u8>)
        requires
            0 <= pin < old(self).pins@.len(),
            pin < 128,
        ensures
            final(self).pins@ == old(self).pins@.update(
                pin as int,
                pin_with_mode(old(self).pins@[pin as int], mode),
            ),
            msg@ == seq![PIN_MODE, pin as u8, mode],
            unchanged_but_pins(*old(self), *final(self)),
    {
        self.pins[pin as usize].mode = mode;
        let mut msg: Vec<u8> = Vec::new();
        msg.push(PIN_MODE);
        msg.push(pin as u8);
        msg.push(mode);
        proof {
            assert(msg@ =~= seq![PIN_MODE, pin as u8, mode]);
        }
        msg
    }

    /// The 2-byte message that turns reporting of the digital port `pin`
    /// on (`state` 1) or off (`state` 0).
    pub fn report_digital(&self, pin: i32, state: i32) -> (msg: Vec<u8>)
        requires
            0 <= pin < 16,
            state == 0 || state == 1,
        ensures
            msg@ == seq![(REPORT_DIGITAL + pin) as u8, state as u8],
    {
        let mut msg: Vec<u8> = Vec::new();
        msg.push(REPORT_DIGITAL + pin as u8);
        msg.push(state as u8);
        proof {
            assert(msg@ =~= seq![(REPORT_DIGITAL + pin) as u8, state as u8]);
        }
        msg
    }

    /// The 2-byte message that turns reporting of the analog pin `pin`
    /// on (`state` 1) or off (`state` 0).
    pub fn report_analog(&self, pin: i32, state: i32) -> (msg: Vec<u8>)
        requires
            0 <= pin < 16,
            state == 0 || state == 1,
        ensures
            msg@ == seq![(REPORT_ANALOG + pin) as u8, state as u8],
    {
        let mut msg: Vec<u8> = Vec::new();
        msg.push(REPORT_ANALOG + pin as u8);
        msg.push(state as u8);
        proof {
            assert(msg@ =~= seq![(REPORT_ANALOG + pin) as u8, state as u8]);
        }
        msg
    }

    /// Caches `level` as the value of `pin` and returns the analog-value
    /// message: the pin's header byte and `level` split into its two 7-bit
    /// wire bytes.
    pub fn analog_write(&mut self, pin: i32, level: i32) -> (msg: Vec<u8>)
        requires
            0 <= pin < old(self).pins@.len(),
            pin < 16,
            0 <= level < 16384,
        ensures
            final(self).pins@ == old(self).pins@.update(
                pin as int,
                pin_with_value(old(self).pins@[pin as int], level),
            ),
            msg@ == seq![(ANALOG_MESSAGE + pin) as u8, split_lo(level as int), split_hi(level as int)],
            msg@[1] < 128 && msg@[2] < 128,
            msg@[1] + 128 * msg@[2] == level,
            unchanged_but_pins(*old(self), *final(self)),
    {
        self.pins[pin as usize].value = level;
        let mut msg: Vec<u8> = Vec::new();
        msg.push(ANALOG_MESSAGE + pin as u8);
        msg.push((level % 128) as u8);
        msg.push(((level / 128) % 128) as u8);
        proof {
            crate::protocol::lemma_split_roundtrip(level as int);
            assert(msg@ =~= seq![
                (ANALOG_MESSAGE + pin) as u8,
                split_lo(level as int),
                split_hi(level as int),
            ]);
        }
        msg
    }

    /// Caches `level` as the value of `pin`, then recomputes the full
    /// 8-pin bitmask of the pin's port from the cached values and returns
    /// the digital-port message carrying that mask, split into two 7-bit
    /// wire bytes. The wire addresses digital pins per port, so the
    /// message always carries all eight pins of `pin / 8`.
    pub fn digital_write(&mut self, pin: i32, level: i32) -> (msg: Vec<u8>)
        requires
            0 <= pin < old(self).pins@.len(),
            pin < 128,
            8 * ((pin as int) / 8) + 8 <= old(self).pins@.len(),
        ensures
            final(self).pins@ == old(self).pins@.update(
                pin as int,
                pin_with_value(old(self).pins@[pin as int], level),
            ),
            msg@.len() == 3,
            msg@[0] == (DIGITAL_MESSAGE + pin / 8) as u8,
            msg@[1] == split_lo(port_mask(final(self).pins@, (pin as int) / 8, 8)),
            msg@[2] == split_hi(port_mask(final(self).pins@, (pin as int) / 8, 8)),
            msg@[1] + 128 * msg@[2] == port_mask(final(self).pins@, (pin as int) / 8, 8),
            unchanged_but_pins(*old(self), *final(self)),
    {
        let port = pin / 8;
        self.pins[pin as usize].value = level;

        let ghost pins_now = self.pins@;
        let mut mask: i32 = 0;
        let mut bit: i32 = 1;
        let mut i: usize = 0;
        while i < 8
            invariant
                0 <= i <= 8,
                0 <= port < 16,
                8 * port + 8 <= pins_now.len(),
                pins_now == self.pins@,
                bit == pow2(i as int),
                0 <= mask < pow2(i as int),
                mask == port_mask(pins_now, port as int, i as int),
            decreases 8 - i,
        {
            proof {
                lemma_pow2_mono(i as int + 1, 8);
                lemma_pow2_8();
            }
            if self.pins[(8 * port) as usize + i].value != 0 {
                mask = mask + bit;
            }
            bit = bit * 2;
            i = i + 1;
        }

        proof {
            lemma_pow2_8();
        }
        let mut msg: Vec<u8> = Vec::new();
        msg.push(DIGITAL_MESSAGE + port as u8);
        msg.push((mask % 128) as u8);
        msg.push(((mask / 128) % 128) as u8);
        proof {
            assert(msg@.len() == 3);
            assert(mask == port_mask(self.pins@, (pin as int) / 8, 8));
            assert(msg@[1] == split_lo(mask as int));
            assert(msg@[2] == split_hi(mask as int));
            crate::protocol::lemma_split_roundtrip(mask as int);
        }
        msg
    }

    /// The sysex message that sets the peripheral read delay, the 14-bit
    /// `delay` split into its two 7-bit wire bytes.
    pub fn i2c_config(&self, delay: i32) -> (msg: Vec<u8>)
        requires
            0 <= delay < 16384,
        ensures
            msg@ == seq![
                START_SYSEX,
                I2C_CONFIG,
                split_lo(delay as int),
                split_hi(delay as int),
                END_SYSEX,
            ],
            msg@[2] + 128 * msg@[3] == delay,
    {
        let mut msg: Vec<u8> = Vec::new();
        msg.push(START_SYSEX);
        msg.push(I2C_CONFIG);
        msg.push((delay % 128) as u8);
        msg.push(((delay / 128) % 128) as u8);
        msg.push(END_SYSEX);
        proof {
            crate::protocol::lemma_split_roundtrip(delay as int);
            assert(msg@ =~= seq![
                START_SYSEX,
                I2C_CONFIG,
                split_lo(delay as int),
                split_hi(delay as int),
                END_SYSEX,
            ]);
        }
        msg
    }

    /// The sysex message that asks to read `size` bytes from the
    /// peripheral at `address`: the address byte, the read-mode flag
    /// shifted into the command nibble, and `size` split into its two
    /// 7-bit wire bytes.
    pub fn i2c_read(&self, address: i32, size: i32) -> (msg: Vec<u8>)
        requires
            0 <= address < 128,
            0 <= size < 16384,
        ensures
            msg@ == seq![
                START_SYSEX,
                I2C_REQUEST,
                address as u8,
                (I2C_MODE_READ * 8) as u8,
                split_lo(size as int),
                split_hi(size as int),
                END_SYSEX,
            ],
            msg@[4] + 128 * msg@[5] == size,
    {
        let mut msg: Vec<u8> = Vec::new();
        msg.push(START_SYSEX);
        msg.push(I2C_REQUEST);
        msg.push(address as u8);
        msg.push(I2C_MODE_READ * 8);
        msg.push((size % 128) as u8);
        msg.push(((size / 128) % 128) as u8);
        msg.push(END_SYSEX);
        proof {
            crate::protocol::lemma_split_roundtrip(size as int);
            assert(msg@ =~= seq![
                START_SYSEX,
                I2C_REQUEST,
                address as u8,
                (I2C_MODE_READ * 8) as u8,
                split_lo(size as int),
                split_hi(size as int),
                END_SYSEX,
            ]);
        }
        msg
    }

    /// The sysex message that writes `data` to the peripheral at
    /// `address`: the address byte, the write-mode flag, and each data
    /// byte re-encoded as its low/high 7-bit wire pair.
    pub fn i2c_write(&self, address: i32, data: &[u8]) -> (msg: Vec<u8>)
        requires
            0 <= address < 128,
            data@.len() < 8192,
        ensures
            msg@.len() == 5 + 2 * data@.len(),
            msg@[0] == START_SYSEX,
            msg@[1] == I2C_REQUEST,
            msg@[2] == address as u8,
            msg@[3] == I2C_MODE_WRITE * 8,
            msg@[msg@.len() - 1] == END_SYSEX,
            forall|k: int|
                #![trigger data@[k]]
                0 <= k < data@.len() ==> {
                    &&& msg@[4 + 2 * k] == split_lo(data@[k] as int)
                    &&& msg@[5 + 2 * k] == split_hi(data@[k] as int)
                    &&& msg@[4 + 2 * k] + 128 * msg@[5 + 2 * k] == data@[k]
                },
    {
        let mut msg: Vec<u8> = Vec::new();
        msg.push(START_SYSEX);
        msg.push(I2C_REQUEST);
        msg.push(address as u8);
        msg.push(I2C_MODE_WRITE * 8);

        let mut i: usize = 0;
        while i < data.len()
            invariant
                0 <= i <= data@.len(),
                data@.len() < 8192,
                msg@.len() == 4 + 2 * i,
                msg@[0] == START_SYSEX,
                msg@[1] == I2C_REQUEST,
                msg@[2] == address as u8,
                msg@[3] == I2C_MODE_WRITE * 8,
                forall|k: int|
                    #![trigger data@[k]]
                    0 <= k < i ==> {
                        &&& msg@[4 + 2 * k] == split_lo(data@[k] as int)
                        &&& msg@[5 + 2 * k] == split_hi(data@[k] as int)
                    },
            decreases data@.len() - i,
        {
            let b = data[i];
            msg.push(b % 128);
            msg.push(b / 128);
            proof {
                assert(msg@[4 + 2 * (i as int)] == b % 128);
                assert(msg@[5 + 2 * (i as int)] == b / 128);
                assert(b % 128 == split_lo(b as int));
                assert(b / 128 == split_hi(b as int)) by {
                    assert(((b as int) / 128) % 128 == (b as int) / 128);
                };
            }
            i = i + 1;
        }
        msg.push(END_SYSEX);
        proof {
            assert forall|k: int| #![trigger data@[k]] 0 <= k < data@.len() implies {
                &&& msg@[4 + 2 * k] == split_lo(data@[k] as int)
                &&& msg@[5 + 2 * k] == split_hi(data@[k] as int)
                &&& msg@[4 + 2 * k] + 128 * msg@[5 + 2 * k] == data@[k]
            } by {
                crate::protocol::lemma_split_roundtrip(data@[k] as int);
            }
        }
        msg
    }
}

/// Everything of the board but the pin table is the same in `a` and `b`.
pub open spec fn unchanged_but_pins(a: Board, b: Board) -> bool {
    &&& a.i2c_data == b.i2c_data
    &&& a.protocol_version == b.protocol_version
    &&& a.firmware_name == b.firmware_name
    &&& a.firmware_version == b.firmware_version
}

} // verus!
