//! The inbound message decoder.
//!
//! One call of [`Board::decode_message`] applies one complete logical
//! message to the board state. The caller assembles the message from the
//! byte stream first: three bytes for the fixed-size kinds, or - when the
//! first byte is the sysex start marker - everything through the end
//! marker. Classification is by the leading byte; an unrecognized leading
//! byte or sysex subtype is reported as an error that leaves the state
//! untouched and the decoder ready for the next message.

use vstd::prelude::*;
use crate::board::{
    Board, DecodeError, I2CReply, Mode, Pin, pin_with_analog, pin_with_value,
    unchanged_but_pins,
};
use crate::protocol::{
    ANALOG_MAPPING_RESPONSE, ANALOG_MESSAGE, ANALOG_PIN_OFFSET, ANALOG_UNSUPPORTED,
    CAPABILITY_PIN_SEPARATOR, CAPABILITY_RESPONSE, DIGITAL_MESSAGE, I2C_REPLY, INPUT,
    PROTOCOL_VERSION, REPORT_FIRMWARE, START_SYSEX, byte7, lemma_pow2_8, lemma_pow2_mono,
    lemma_pow2_pos, lemma_word14, pow2, word14,
};
use crate::text::{push_char, version_chars, version_string};

verus! {

/// Bit `i` of the nonnegative integer `m`.
pub open spec fn mask_bit(m: int, i: int) -> int {
    (m / pow2(i)) % 2
}

/// The capability groups carried by a capability-response body. `s` runs
/// from the first payload byte through the end marker. A sentinel byte
/// closes the current pin's capability list and opens the next pin's; any
/// other byte pairs with its successor as one (mode, resolution)
/// capability. There is always at least the one group that was open when
/// the walk began, so even an empty payload yields one pin.
pub open spec fn cap_groups(s: Seq<u8>) -> Seq<Seq<Mode>>
    decreases s.len(),
{
    if s.len() <= 1 {
        seq![Seq::<Mode>::empty()]
    } else if s[0] == CAPABILITY_PIN_SEPARATOR {
        seq![Seq::<Mode>::empty()] + cap_groups(s.skip(1))
    } else {
        let rest = cap_groups(s.skip(2));
        rest.update(0, seq![Mode { mode: s[0], resolution: s[1] }] + rest[0])
    }
}

pub proof fn lemma_cap_groups_len(s: Seq<u8>)
    ensures
        cap_groups(s).len() >= 1,
    decreases s.len(),
{
    if s.len() <= 1 {
    } else if s[0] == CAPABILITY_PIN_SEPARATOR {
        lemma_cap_groups_len(s.skip(1));
    } else {
        lemma_cap_groups_len(s.skip(2));
    }
}

/// The firmware name a firmware report carries: every byte after the two
/// version bytes and before the end marker, read as one character each.
pub open spec fn firmware_name_chars(b: Seq<u8>) -> Seq<char> {
    b.subrange(4, b.len() - 1).map_values(|x: u8| x as char)
}

/// The reassembled data bytes of a peripheral reply: each complete
/// low/high wire pair after the address and register words and before the
/// end marker yields one byte; an odd trailing byte is dropped.
pub open spec fn i2c_data_bytes(b: Seq<u8>) -> Seq<u8> {
    Seq::new(((b.len() - 7) / 2) as nat, |k: int| byte7(b[6 + 2 * k], b[7 + 2 * k]))
}

/// Whether a complete message decodes without error: its leading byte is a
/// defined header, a sysex frame carries a known subtype, and the kinds
/// with a fixed payload shape are long enough.
pub open spec fn decode_ok(b: Seq<u8>) -> bool {
    &&& b.len() >= 3
    &&& {
        ||| b[0] == PROTOCOL_VERSION
        ||| ANALOG_MESSAGE <= b[0] <= 0xEF
        ||| DIGITAL_MESSAGE <= b[0] <= 0x9F
        ||| (b[0] == START_SYSEX && {
            ||| b[1] == ANALOG_MAPPING_RESPONSE
            ||| b[1] == CAPABILITY_RESPONSE
            ||| (b[1] == REPORT_FIRMWARE && b.len() >= 5)
            ||| (b[1] == I2C_REPLY && b.len() >= 9)
        })
    }
}

/// The error a failing decode reports.
pub open spec fn decode_failure(b: Seq<u8>) -> DecodeError {
    if b.len() < 3 {
        DecodeError::TooShort
    } else if b[0] == START_SYSEX {
        if b[1] == REPORT_FIRMWARE || b[1] == I2C_REPLY {
            DecodeError::TooShort
        } else {
            DecodeError::UnknownSysex(b[1])
        }
    } else {
        DecodeError::UnknownHeader(b[0])
    }
}

impl Board {
    /// Applies one complete inbound message to the board state.
    ///
    /// `buf` must hold exactly one message as read off the wire: its
    /// header byte, and either the two fixed payload bytes or - for a
    /// sysex frame - the subtype and everything through the end marker.
    /// The contract fixes, per message kind, exactly which part of the
    /// state changes and to what; a failing call reports why and changes
    /// nothing.
    pub fn decode_message(&mut self, buf: &Vec<u8>) -> (r: Result<(), DecodeError>)
        ensures
            r is Ok <==> decode_ok(buf@),
            r is Err ==> *final(self) == *old(self) && r == Err::<(), DecodeError>(
                decode_failure(buf@),
            ),
            // Protocol-version report: the two payload bytes become the
            // protocol version string.
            buf@.len() >= 3 && buf@[0] == PROTOCOL_VERSION ==> {
                &&& final(self).protocol_version@ == version_chars(buf@[1], buf@[2])
                &&& final(self).pins == old(self).pins
                &&& final(self).i2c_data == old(self).i2c_data
                &&& final(self).firmware_name == old(self).firmware_name
                &&& final(self).firmware_version == old(self).firmware_version
            },
            // Analog value message: the addressed pin's cached value is
            // replaced if the pin exists; a stale (short) pin list makes
            // the message a no-op.
            buf@.len() >= 3 && ANALOG_MESSAGE <= buf@[0] <= 0xEF ==> {
                let pin = buf@[0] - ANALOG_MESSAGE + ANALOG_PIN_OFFSET;
                &&& pin < old(self).pins@.len() ==> final(self).pins@ == old(self).pins@.update(
                    pin as int,
                    pin_with_value(
                        old(self).pins@[pin as int],
                        word14(buf@[1], buf@[2]) as i32,
                    ),
                )
                &&& pin >= old(self).pins@.len() ==> final(self).pins@ == old(self).pins@
                &&& unchanged_but_pins(*old(self), *final(self))
            },
            // Digital port message: within the addressed port, exactly the
            // pins in input mode take the value of their bit of the mask;
            // every other pin keeps its value.
            buf@.len() >= 3 && DIGITAL_MESSAGE <= buf@[0] <= 0x9F ==> {
                let port = (buf@[0] - DIGITAL_MESSAGE) as int;
                let v = word14(buf@[1], buf@[2]) as int;
                &&& final(self).pins@.len() == old(self).pins@.len()
                &&& forall|k: int|
                    0 <= k < old(self).pins@.len() ==> #[trigger] final(self).pins@[k] == (
                    if 8 * port <= k < 8 * port + 8 && old(self).pins@[k].mode == INPUT {
                        pin_with_value(old(self).pins@[k], mask_bit(v, k - 8 * port) as i32)
                    } else {
                        old(self).pins@[k]
                    })
                &&& unchanged_but_pins(*old(self), *final(self))
            },
            // Analog-mapping response: each pin whose payload byte is not
            // the unsupported sentinel is marked analog-capable; pins
            // beyond the payload, and payload bytes beyond the pin list,
            // are ignored.
            buf@.len() >= 3 && buf@[0] == START_SYSEX && buf@[1] == ANALOG_MAPPING_RESPONSE
                ==> {
                &&& final(self).pins@.len() == old(self).pins@.len()
                &&& forall|k: int|
                    0 <= k < old(self).pins@.len() ==> #[trigger] final(self).pins@[k] == (
                    if k + 2 < buf@.len() - 1 && buf@[k + 2] != ANALOG_UNSUPPORTED {
                        pin_with_analog(old(self).pins@[k])
                    } else {
                        old(self).pins@[k]
                    })
                &&& unchanged_but_pins(*old(self), *final(self))
            },
            // Capability response: the pin list is rebuilt wholesale from
            // the payload's capability groups; every rebuilt pin starts
            // with value 0, mode 0 and no analog mark.
            buf@.len() >= 3 && buf@[0] == START_SYSEX && buf@[1] == CAPABILITY_RESPONSE ==> {
                &&& final(self).pins@.len() == cap_groups(buf@.skip(2)).len()
                &&& forall|k: int|
                    0 <= k < final(self).pins@.len() ==> {
                        &&& (#[trigger] final(self).pins@[k]).modes@ == cap_groups(
                            buf@.skip(2),
                        )[k]
                        &&& final(self).pins@[k].analog == false
                        &&& final(self).pins@[k].value == 0
                        &&& final(self).pins@[k].mode == 0
                    }
                &&& unchanged_but_pins(*old(self), *final(self))
            },
            // Firmware response: the two bytes after the subtype become
            // the firmware version string, the rest of the payload the
            // firmware name.
            buf@.len() >= 5 && buf@[0] == START_SYSEX && buf@[1] == REPORT_FIRMWARE ==> {
                &&& final(self).firmware_version@ == version_chars(buf@[2], buf@[3])
                &&& final(self).firmware_name@ == firmware_name_chars(buf@)
                &&& final(self).pins == old(self).pins
                &&& final(self).i2c_data == old(self).i2c_data
                &&& final(self).protocol_version == old(self).protocol_version
            },
            // Peripheral reply: one reply with the reassembled address,
            // register and data bytes is appended at the back of the
            // queue.
            buf@.len() >= 9 && buf@[0] == START_SYSEX && buf@[1] == I2C_REPLY ==> {
                &&& final(self).i2c_data@.len() == old(self).i2c_data@.len() + 1
                &&& final(self).i2c_data@.subrange(0, old(self).i2c_data@.len() as int)
                    == old(self).i2c_data@
                &&& final(self).i2c_data@.last().address == word14(buf@[2], buf@[3]) as i32
                &&& final(self).i2c_data@.last().register == word14(buf@[4], buf@[5]) as i32
                &&& final(self).i2c_data@.last().data@ == i2c_data_bytes(buf@)
                &&& final(self).pins == old(self).pins
                &&& final(self).protocol_version == old(self).protocol_version
                &&& final(self).firmware_name == old(self).firmware_name
                &&& final(self).firmware_version == old(self).firmware_version
            },
    {
        let n = buf.len();
        if n < 3 {
            return Err(DecodeError::TooShort);
        }
        let header = buf[0];
        if header == PROTOCOL_VERSION {
            self.protocol_version = version_string(buf[1], buf[2]);
            Ok(())
        } else if ANALOG_MESSAGE <= header && header <= 0xEF {
            self.handle_analog(header, buf[1], buf[2]);
            Ok(())
        } else if DIGITAL_MESSAGE <= header && header <= 0x9F {
            self.handle_digital(header, buf[1], buf[2]);
            Ok(())
        } else if header == START_SYSEX {
            let sub = buf[1];
            if sub == ANALOG_MAPPING_RESPONSE {
                self.handle_analog_mapping(buf);
                Ok(())
            } else if sub == CAPABILITY_RESPONSE {
                self.handle_capability(buf);
                Ok(())
            } else if sub == REPORT_FIRMWARE {
                if n < 5 {
                    Err(DecodeError::TooShort)
                } else {
                    self.handle_firmware(buf);
                    Ok(())
                }
            } else if sub == I2C_REPLY {
                if n < 9 {
                    Err(DecodeError::TooShort)
                } else {
                    self.handle_i2c_reply(buf);
                    Ok(())
                }
            } else {
                Err(DecodeError::UnknownSysex(sub))
            }
        } else {
            Err(DecodeError::UnknownHeader(header))
        }
    }

    /// An analog value message: a 14-bit value for the analog pin the
    /// header's low nibble addresses, offset past the digital pins.
    fn handle_analog(&mut self, header: u8, lo: u8, hi: u8)
        requires
            ANALOG_MESSAGE <= header <= 0xEF,
        ensures
            ({
                let pin = header - ANALOG_MESSAGE + ANALOG_PIN_OFFSET;
                &&& pin < old(self).pins@.len() ==> final(self).pins@ == old(self).pins@.update(
                    pin as int,
                    pin_with_value(old(self).pins@[pin as int], word14(lo, hi) as i32),
                )
                &&& pin >= old(self).pins@.len() ==> final(self).pins@ == old(self).pins@
            }),
            unchanged_but_pins(*old(self), *final(self)),
    {
        let pin = (header - ANALOG_MESSAGE + ANALOG_PIN_OFFSET) as usize;
        if pin < self.pins.len() {
            let w: u32 = (lo as u32) | ((hi as u32) << 7);
            proof {
                lemma_word14(lo, hi);
            }
            self.pins[pin].value = w as i32;
        }
    }

    /// A digital port message: an 8-pin bitmask for the port the header's
    /// low nibble addresses. Only pins currently in input mode take their
    /// bit's value; every other pin of the port keeps its cached value.
    fn handle_digital(&mut self, header: u8, lo: u8, hi: u8)
        requires
            DIGITAL_MESSAGE <= header <= 0x9F,
        ensures
            final(self).pins@.len() == old(self).pins@.len(),
            forall|k: int|
                0 <= k < old(self).pins@.len() ==> #[trigger] final(self).pins@[k] == ({
                    let port = (header - DIGITAL_MESSAGE) as int;
                    let v = word14(lo, hi) as int;
                    if 8 * port <= k < 8 * port + 8 && old(self).pins@[k].mode == INPUT {
                        pin_with_value(old(self).pins@[k], mask_bit(v, k - 8 * port) as i32)
                    } else {
                        old(self).pins@[k]
                    }
                }),
            unchanged_but_pins(*old(self), *final(self)),
    {
        let port = (header - DIGITAL_MESSAGE) as usize;
        let w: u32 = (lo as u32) | ((hi as u32) << 7);
        proof {
            lemma_word14(lo, hi);
        }
        let mut p: u32 = 1;
        let mut i: usize = 0;
        while i < 8
            invariant
                i <= 8,
                port <= 15,
                w == word14(lo, hi),
                w < 32768,
                p == pow2(i as int),
                self.pins@.len() == old(self).pins@.len(),
                unchanged_but_pins(*old(self), *self),
                forall|k: int|
                    0 <= k < old(self).pins@.len() ==> #[trigger] self.pins@[k] == (
                    if 8 * (port as int) <= k < 8 * (port as int) + i
                        && old(self).pins@[k].mode == INPUT {
                        pin_with_value(
                            old(self).pins@[k],
                            mask_bit(w as int, k - 8 * (port as int)) as i32,
                        )
                    } else {
                        old(self).pins@[k]
                    }),
            decreases 8 - i,
        {
            proof {
                lemma_pow2_pos(i as int);
                lemma_pow2_mono(i as int + 1, 8);
                lemma_pow2_8();
            }
            let idx = 8 * port + i;
            if idx < self.pins.len() {
                if self.pins[idx].mode == INPUT {
                    let bit = ((w / p) % 2) as i32;
                    self.pins[idx].value = bit;
                }
            }
            p = p * 2;
            i = i + 1;
        }
    }

    /// An analog-mapping response: every pin whose payload byte is not the
    /// unsupported sentinel is marked analog-capable. Payload bytes with
    /// no pin behind them are ignored, as is a pin list longer than the
    /// payload.
    fn handle_analog_mapping(&mut self, buf: &Vec<u8>)
        requires
            buf@.len() >= 3,
        ensures
            final(self).pins@.len() == old(self).pins@.len(),
            forall|k: int|
                0 <= k < old(self).pins@.len() ==> #[trigger] final(self).pins@[k] == (
                if k + 2 < buf@.len() - 1 && buf@[k + 2] != ANALOG_UNSUPPORTED {
                    pin_with_analog(old(self).pins@[k])
                } else {
                    old(self).pins@[k]
                }),
            unchanged_but_pins(*old(self), *final(self)),
    {
        let n = buf.len();
        let mut i: usize = 2;
        while i < n - 1
            invariant
                2 <= i <= n - 1,
                n == buf@.len(),
                n >= 3,
                self.pins@.len() == old(self).pins@.len(),
                unchanged_but_pins(*old(self), *self),
                forall|k: int|
                    0 <= k < old(self).pins@.len() ==> #[trigger] self.pins@[k] == (
                    if k + 2 < i && buf@[k + 2] != ANALOG_UNSUPPORTED {
                        pin_with_analog(old(self).pins@[k])
                    } else {
                        old(self).pins@[k]
                    }),
            decreases n - i,
        {
            if buf[i] != ANALOG_UNSUPPORTED {
                let idx = i - 2;
                if idx < self.pins.len() {
                    self.pins[idx].analog = true;
                }
            }
            i = i + 1;
        }
    }

    /// A capability response: destroys the pin list and rebuilds it from
    /// the payload's capability groups.
    fn handle_capability(&mut self, buf: &Vec<u8>)
        requires
            buf@.len() >= 3,
        ensures
            final(self).pins@.len() == cap_groups(buf@.skip(2)).len(),
            forall|k: int|
                0 <= k < final(self).pins@.len() ==> {
                    &&& (#[trigger] final(self).pins@[k]).modes@ == cap_groups(buf@.skip(2))[k]
                    &&& final(self).pins@[k].analog == false
                    &&& final(self).pins@[k].value == 0
                    &&& final(self).pins@[k].mode == 0
                },
            unchanged_but_pins(*old(self), *final(self)),
    {
        let ghost s = buf@.skip(2);
        let n = buf.len();
        let mut pins: Vec<Pin> = Vec::new();
        let mut modes: Vec<Mode> = Vec::new();
        let mut i: usize = 2;

        proof {
            lemma_cap_groups_len(s);
            assert(Seq::<Mode>::empty() + cap_groups(s)[0] =~= cap_groups(s)[0]);
            assert(merge_open(Seq::<Mode>::empty(), cap_groups(s)) =~~= cap_groups(s));
            assert(s.skip(0) =~= s);
        }
        while i < n - 1
            invariant
                2 <= i <= n,
                n == buf@.len(),
                n >= 3,
                s == buf@.skip(2),
                cap_groups(s) == pin_groups(pins@) + merge_open(
                    modes@,
                    cap_groups(s.skip(i - 2)),
                ),
                forall|k: int|
                    0 <= k < pins@.len() ==> {
                        &&& (#[trigger] pins@[k]).analog == false
                        &&& pins@[k].value == 0
                        &&& pins@[k].mode == 0
                    },
            decreases n - i,
        {
            let ghost j = i - 2;
            proof {
                assert(s.skip(j)[0] == buf@[i as int]);
                assert(s.skip(j).len() == s.len() - j);
            }
            if buf[i] == CAPABILITY_PIN_SEPARATOR {
                proof {
                    lemma_cap_groups_len(s.skip(j + 1));
                    assert(s.skip(j).skip(1) =~= s.skip(j + 1));
                    assert(cap_groups(s.skip(j)) == seq![Seq::<Mode>::empty()] + cap_groups(
                        s.skip(j + 1),
                    ));
                    assert(modes@ + Seq::<Mode>::empty() =~= modes@);
                    assert(merge_open(modes@, cap_groups(s.skip(j))) =~~= seq![modes@]
                        + cap_groups(s.skip(j + 1)));
                    assert(merge_open(Seq::<Mode>::empty(), cap_groups(s.skip(j + 1)))
                        =~~= cap_groups(s.skip(j + 1))) by {
                        lemma_cap_groups_len(s.skip(j + 1));
                        assert(Seq::<Mode>::empty() + cap_groups(s.skip(j + 1))[0]
                            =~= cap_groups(s.skip(j + 1))[0]);
                    };
                }
                let ghost pins_before = pins@;
                pins.push(Pin { modes, analog: false, value: 0, mode: 0 });
                modes = Vec::new();
                proof {
                    assert(pin_groups(pins@) =~~= pin_groups(pins_before).push(
                        pins@.last().modes@,
                    ));
                    assert(pin_groups(pins_before) + (seq![pins@.last().modes@] + cap_groups(
                        s.skip(j + 1),
                    )) =~~= pin_groups(pins@) + cap_groups(s.skip(j + 1)));
                }
                i = i + 1;
            } else {
                let m = Mode { mode: buf[i], resolution: buf[i + 1] };
                proof {
                    assert(s.skip(j)[1] == buf@[i + 1]);
                    lemma_cap_groups_len(s.skip(j).skip(2));
                    assert(s.skip(j).skip(2) =~= s.skip(j + 2));
                    assert(cap_groups(s.skip(j)) == cap_groups(s.skip(j + 2)).update(
                        0,
                        seq![m] + cap_groups(s.skip(j + 2))[0],
                    ));
                    assert(modes@ + (seq![m] + cap_groups(s.skip(j + 2))[0]) =~= (modes@
                        + seq![m]) + cap_groups(s.skip(j + 2))[0]);
                    assert(merge_open(modes@, cap_groups(s.skip(j))) =~~= merge_open(
                        modes@ + seq![m],
                        cap_groups(s.skip(j + 2)),
                    ));
                    assert(modes@.push(m) =~= modes@ + seq![m]);
                }
                modes.push(m);
                i = i + 2;
            }
        }
        proof {
            assert(s.skip(i - 2).len() <= 1);
            assert(cap_groups(s.skip(i - 2)) == seq![Seq::<Mode>::empty()]);
            assert(modes@ + Seq::<Mode>::empty() =~= modes@);
            assert(merge_open(modes@, cap_groups(s.skip(i - 2))) =~~= seq![modes@]);
        }
        let ghost pins_before = pins@;
        pins.push(Pin { modes, analog: false, value: 0, mode: 0 });
        proof {
            assert(pin_groups(pins@) =~~= pin_groups(pins_before).push(pins@.last().modes@));
            assert(cap_groups(s) =~~= pin_groups(pins@));
        }
        self.pins = pins;
    }

    /// A firmware response: the version bytes become the firmware version
    /// string, the remaining payload the firmware name.
    fn handle_firmware(&mut self, buf: &Vec<u8>)
        requires
            buf@.len() >= 5,
        ensures
            final(self).firmware_version@ == version_chars(buf@[2], buf@[3]),
            final(self).firmware_name@ == firmware_name_chars(buf@),
            final(self).pins == old(self).pins,
            final(self).i2c_data == old(self).i2c_data,
            final(self).protocol_version == old(self).protocol_version,
    {
        self.firmware_version = version_string(buf[2], buf[3]);
        let n = buf.len();
        let mut name = String::new();
        let mut i: usize = 4;
        while i < n - 1
            invariant
                4 <= i <= n - 1,
                n == buf@.len(),
                n >= 5,
                name@ == buf@.subrange(4, i as int).map_values(|x: u8| x as char),
            decreases n - i,
        {
            push_char(&mut name, buf[i] as char);
            proof {
                assert(name@ =~= buf@.subrange(4, i + 1).map_values(|x: u8| x as char));
            }
            i = i + 1;
        }
        proof {
            assert(name@ == firmware_name_chars(buf@));
        }
        self.firmware_name = name;
    }

    /// A peripheral reply: reassembles the address and register words and
    /// every complete data byte pair, and appends the reply to the queue.
    fn handle_i2c_reply(&mut self, buf: &Vec<u8>)
        requires
            buf@.len() >= 9,
        ensures
            final(self).i2c_data@.len() == old(self).i2c_data@.len() + 1,
            final(self).i2c_data@.subrange(0, old(self).i2c_data@.len() as int) == old(
                self,
            ).i2c_data@,
            final(self).i2c_data@.last().address == word14(buf@[2], buf@[3]) as i32,
            final(self).i2c_data@.last().register == word14(buf@[4], buf@[5]) as i32,
            final(self).i2c_data@.last().data@ == i2c_data_bytes(buf@),
            final(self).pins == old(self).pins,
            final(self).protocol_version == old(self).protocol_version,
            final(self).firmware_name == old(self).firmware_name,
            final(self).firmware_version == old(self).firmware_version,
    {
        let n = buf.len();
        let address = ((buf[2] as u32) | ((buf[3] as u32) << 7)) as i32;
        let register = ((buf[4] as u32) | ((buf[5] as u32) << 7)) as i32;
        proof {
            lemma_word14(buf@[2], buf@[3]);
            lemma_word14(buf@[4], buf@[5]);
        }
        let npairs = (n - 7) / 2;
        let mut data: Vec<u8> = Vec::new();
        let mut k: usize = 0;
        while k < npairs
            invariant
                k <= npairs,
                npairs == (n - 7) / 2,
                n == buf@.len(),
                n >= 9,
                data@.len() == k,
                forall|m: int|
                    0 <= m < k ==> #[trigger] data@[m] == byte7(buf@[6 + 2 * m], buf@[7 + 2 * m]),
            decreases npairs - k,
        {
            let b = buf[6 + 2 * k] | (buf[7 + 2 * k] << 7);
            data.push(b);
            k = k + 1;
        }
        proof {
            assert(data@ =~= i2c_data_bytes(buf@));
        }
        let ghost queue_before = self.i2c_data@;
        self.i2c_data.push(I2CReply { address, register, data });
        proof {
            assert(self.i2c_data@.subrange(0, queue_before.len() as int) =~= queue_before);
        }
    }
}

/// The capability lists of a pin sequence, one per pin.
pub open spec fn pin_groups(ps: Seq<Pin>) -> Seq<Seq<Mode>> {
    ps.map_values(|p: Pin| p.modes@)
}

/// `g` with the still-open capability list `m` prepended onto its first
/// group: the shape of a capability walk that has closed the groups before
/// `g` and is collecting `m`.
pub open spec fn merge_open(m: Seq<Mode>, g: Seq<Seq<Mode>>) -> Seq<Seq<Mode>> {
    g.update(0, m + g[0])
}

} // verus!
