use firmata::board::{Board, DecodeError, Pin};

fn board_with_pins(n: usize) -> Board {
    let mut b = Board::new();
    for _ in 0..n {
        b.pins.push(Pin { modes: vec![], analog: false, value: 0, mode: 0 });
    }
    b
}

#[test]
fn protocol_version_report_formats_the_string() {
    let mut b = Board::new();
    let r = b.decode_message(&vec![0xF9, 2, 3]);
    assert!(r.is_ok());
    assert_eq!(b.protocol_version(), "2.3");
}

#[test]
fn version_components_are_octal() {
    let mut b = Board::new();
    b.decode_message(&vec![0xF9, 9, 10]).unwrap();
    assert_eq!(b.protocol_version(), "11.12");
    b.decode_message(&vec![0xF9, 255, 0]).unwrap();
    assert_eq!(b.protocol_version(), "377.0");
}

#[test]
fn analog_message_updates_the_offset_pin() {
    let mut b = board_with_pins(16);
    let r = b.decode_message(&vec![0xE1, 104, 7]);
    assert!(r.is_ok());
    // Analog pin 1 is digital pin 15.
    assert_eq!(b.pins[15].value, 1000);
}

#[test]
fn analog_message_out_of_range_pin_is_a_no_op() {
    // A stale pin list shorter than the addressed pin must not crash.
    let mut b = board_with_pins(10);
    let r = b.decode_message(&vec![0xE0, 1, 0]);
    assert!(r.is_ok());
    for p in b.pins() {
        assert_eq!(p.value, 0);
    }
    let mut empty = Board::new();
    assert!(empty.decode_message(&vec![0xE5, 3, 3]).is_ok());
    assert_eq!(empty.pins().len(), 0);
}

#[test]
fn digital_message_updates_only_input_pins() {
    // Port bitmask round trip: pins 8..16 form port 1; pins 8, 9 and 11
    // are in input mode, the rest are outputs with values of their own.
    let mut b = board_with_pins(16);
    b.pins[8].mode = 0;
    b.pins[9].mode = 0;
    b.pins[11].mode = 0;
    b.pins[10].mode = 1;
    b.pins[10].value = 1;
    b.pins[12].mode = 1;
    b.pins[12].value = 7;
    // Mask with bits 0 (pin 8) and 3 (pin 11) set: 0x09.
    let r = b.decode_message(&vec![0x91, 0x09, 0x00]);
    assert!(r.is_ok());
    assert_eq!(b.pins[8].value, 1);
    assert_eq!(b.pins[9].value, 0);
    assert_eq!(b.pins[11].value, 1);
    // Output pins keep their values even though their bits were present.
    assert_eq!(b.pins[10].value, 1);
    assert_eq!(b.pins[12].value, 7);
    // Pins of other ports are untouched.
    assert_eq!(b.pins[0].value, 0);
}

#[test]
fn digital_message_with_short_pin_list_is_safe() {
    let mut b = board_with_pins(3);
    let r = b.decode_message(&vec![0x90, 0x7F, 0x01]);
    assert!(r.is_ok());
    assert_eq!(b.pins[0].value, 1);
    assert_eq!(b.pins[1].value, 1);
    assert_eq!(b.pins[2].value, 1);
}

#[test]
fn analog_mapping_marks_supported_pins() {
    let mut b = board_with_pins(3);
    // Pin 0: unsupported sentinel; pin 1: channel 0; pin 2: channel 1.
    let r = b.decode_message(&vec![0xF0, 0x6A, 127, 0, 1, 0xF7]);
    assert!(r.is_ok());
    assert!(!b.pins[0].analog);
    assert!(b.pins[1].analog);
    assert!(b.pins[2].analog);
}

#[test]
fn analog_mapping_with_empty_pin_list_is_a_no_op() {
    let mut b = Board::new();
    let r = b.decode_message(&vec![0xF0, 0x6A, 0, 0, 0xF7]);
    assert!(r.is_ok());
    assert_eq!(b.pins().len(), 0);
}

#[test]
fn capability_response_rebuilds_two_pins() {
    // Two pins separated by the sentinel, each with two
    // (mode, resolution) pairs.
    let mut b = board_with_pins(5);
    let r = b.decode_message(&vec![
        0xF0, 0x6C, 0, 1, 1, 1, 127, 3, 8, 4, 14, 0xF7,
    ]);
    assert!(r.is_ok());
    assert_eq!(b.pins().len(), 2);
    assert_eq!(b.pins[0].modes.len(), 2);
    assert_eq!(b.pins[0].modes[0].mode, 0);
    assert_eq!(b.pins[0].modes[0].resolution, 1);
    assert_eq!(b.pins[0].modes[1].mode, 1);
    assert_eq!(b.pins[0].modes[1].resolution, 1);
    assert_eq!(b.pins[1].modes.len(), 2);
    assert_eq!(b.pins[1].modes[0].mode, 3);
    assert_eq!(b.pins[1].modes[0].resolution, 8);
    assert_eq!(b.pins[1].modes[1].mode, 4);
    assert_eq!(b.pins[1].modes[1].resolution, 14);
    // The rebuild resets every per-pin field.
    assert_eq!(b.pins[0].value, 0);
    assert_eq!(b.pins[0].mode, 0);
    assert!(!b.pins[0].analog);
}

#[test]
fn capability_response_with_empty_payload_seeds_one_pin() {
    let mut b = board_with_pins(7);
    let r = b.decode_message(&vec![0xF0, 0x6C, 0xF7]);
    assert!(r.is_ok());
    assert_eq!(b.pins().len(), 1);
    assert_eq!(b.pins[0].modes.len(), 0);
}

#[test]
fn firmware_response_yields_version_and_name() {
    let mut b = Board::new();
    let r = b.decode_message(&vec![
        0xF0, 0x79, 2, 3, b'T', b'e', b's', b't', 0xF7,
    ]);
    assert!(r.is_ok());
    assert_eq!(b.firmware_version(), "2.3");
    assert_eq!(b.firmware_name(), "Test");
}

#[test]
fn firmware_response_with_no_name_bytes() {
    let mut b = Board::new();
    let r = b.decode_message(&vec![0xF0, 0x79, 1, 0, 0xF7]);
    assert!(r.is_ok());
    assert_eq!(b.firmware_version(), "1.0");
    assert_eq!(b.firmware_name(), "");
}

#[test]
fn i2c_reply_reassembles_data_pairs() {
    // Address, register and first word, plus one extra complete pair:
    // exactly two data bytes.
    let mut b = Board::new();
    let r = b.decode_message(&vec![
        0xF0, 0x77, 0x68, 0, 0x10, 0, 0x05, 1, 0x7F, 1, 0xF7,
    ]);
    assert!(r.is_ok());
    assert_eq!(b.i2c_data.len(), 1);
    let reply = &b.i2c_data[0];
    assert_eq!(reply.address, 0x68);
    assert_eq!(reply.register, 0x10);
    assert_eq!(reply.data, vec![0x85, 0xFF]);
}

#[test]
fn i2c_reply_drops_an_odd_trailing_byte() {
    let mut b = Board::new();
    let r = b.decode_message(&vec![
        0xF0, 0x77, 0x20, 0, 0x01, 0, 0x02, 0, 0x33, 0xF7,
    ]);
    assert!(r.is_ok());
    assert_eq!(b.i2c_data.len(), 1);
    assert_eq!(b.i2c_data[0].data, vec![0x02]);
}

#[test]
fn unknown_header_is_an_error_and_leaves_state_alone() {
    // A leading byte outside all defined ranges, with the pin list
    // empty: reported, not a crash.
    let mut b = Board::new();
    let r = b.decode_message(&vec![0x00, 0, 0]);
    assert_eq!(r, Err(DecodeError::UnknownHeader(0x00)));
    assert_eq!(b.pins().len(), 0);
    assert_eq!(b.protocol_version(), "");

    let mut c = board_with_pins(2);
    let r = c.decode_message(&vec![0x42, 9, 9]);
    assert_eq!(r, Err(DecodeError::UnknownHeader(0x42)));
    assert_eq!(c.pins[0].value, 0);
}

#[test]
fn unknown_sysex_subtype_is_an_error() {
    let mut b = Board::new();
    let r = b.decode_message(&vec![0xF0, 0x10, 0xF7]);
    assert_eq!(r, Err(DecodeError::UnknownSysex(0x10)));
}

#[test]
fn short_messages_are_errors() {
    let mut b = Board::new();
    assert_eq!(b.decode_message(&vec![]), Err(DecodeError::TooShort));
    assert_eq!(b.decode_message(&vec![0xF9, 2]), Err(DecodeError::TooShort));
    // A firmware frame without its version bytes.
    assert_eq!(
        b.decode_message(&vec![0xF0, 0x79, 0xF7]),
        Err(DecodeError::TooShort)
    );
    // A peripheral reply without its first data word.
    assert_eq!(
        b.decode_message(&vec![0xF0, 0x77, 0x68, 0, 0x10, 0, 0xF7]),
        Err(DecodeError::TooShort)
    );
}

#[test]
fn decode_error_descriptions() {
    assert_eq!(
        DecodeError::UnknownHeader(1).describe(),
        "unrecognized message header"
    );
    assert_eq!(DecodeError::UnknownSysex(1).describe(), "unknown sysex code");
    assert_eq!(DecodeError::TooShort.describe(), "message too short");
}
