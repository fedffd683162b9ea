use firmata::board::{Board, Pin};

fn board_with_pins(n: usize) -> Board {
    let mut b = Board::new();
    for _ in 0..n {
        b.pins.push(Pin { modes: vec![], analog: false, value: 0, mode: 0 });
    }
    b
}

#[test]
fn query_messages_are_fixed_three_byte_sysex() {
    let b = Board::new();
    assert_eq!(b.query_firmware(), vec![0xF0, 0x79, 0xF7]);
    assert_eq!(b.query_capabilities(), vec![0xF0, 0x6B, 0xF7]);
    assert_eq!(b.query_analog_mapping(), vec![0xF0, 0x69, 0xF7]);
}

#[test]
fn set_pin_mode_updates_cache_and_encodes() {
    let mut b = board_with_pins(4);
    let msg = b.set_pin_mode(2, 3);
    assert_eq!(msg, vec![0xF4, 2, 3]);
    assert_eq!(b.pins[2].mode, 3);
    assert_eq!(b.pins[0].mode, 0);
}

#[test]
fn report_digital_and_analog_encode() {
    let b = Board::new();
    assert_eq!(b.report_digital(0, 1), vec![0xD0, 1]);
    assert_eq!(b.report_digital(1, 1), vec![0xD1, 1]);
    assert_eq!(b.report_digital(3, 0), vec![0xD3, 0]);
    assert_eq!(b.report_analog(2, 1), vec![0xC2, 1]);
    assert_eq!(b.report_analog(15, 0), vec![0xCF, 0]);
}

#[test]
fn analog_write_updates_value_and_splits_level() {
    // The mode-set operation then a write: the value is cached and the
    // level leaves split into 7-bit low/high parts.
    let mut b = board_with_pins(16);
    b.set_pin_mode(1, 3);
    let msg = b.analog_write(1, 1000);
    assert_eq!(b.pins[1].value, 1000);
    assert_eq!(msg, vec![0xE1, 104, 7]);
    assert_eq!((msg[1] as i32) | ((msg[2] as i32) << 7), 1000);
}

#[test]
fn analog_write_level_bounds() {
    let mut b = board_with_pins(16);
    let msg = b.analog_write(15, 16383);
    assert_eq!(msg, vec![0xEF, 127, 127]);
    assert_eq!(b.pins[15].value, 16383);
    let msg = b.analog_write(0, 0);
    assert_eq!(msg, vec![0xE0, 0, 0]);
    assert_eq!(b.pins[0].value, 0);
}

#[test]
fn digital_write_rebuilds_the_whole_port_mask() {
    let mut b = board_with_pins(16);
    b.pins[8].value = 1;
    b.pins[10].value = 1;
    b.pins[15].value = 1;
    // Writing pin 9 resends the full mask of port 1 from the cache.
    let msg = b.digital_write(9, 1);
    assert_eq!(b.pins[9].value, 1);
    // Bits 0 (pin 8), 1 (pin 9), 2 (pin 10) and 7 (pin 15): mask 0x87.
    assert_eq!(msg, vec![0x91, 0x07, 0x01]);
    assert_eq!((msg[1] as i32) | ((msg[2] as i32) << 7), 0x87);
}

#[test]
fn digital_write_clearing_a_pin_clears_its_bit() {
    let mut b = board_with_pins(8);
    b.pins[0].value = 1;
    b.pins[1].value = 1;
    let msg = b.digital_write(0, 0);
    assert_eq!(b.pins[0].value, 0);
    assert_eq!(msg, vec![0x90, 0x02, 0x00]);
}

#[test]
fn i2c_config_splits_delay() {
    let b = Board::new();
    let msg = b.i2c_config(500);
    assert_eq!(msg, vec![0xF0, 0x78, 116, 3, 0xF7]);
    assert_eq!((msg[2] as i32) | ((msg[3] as i32) << 7), 500);
}

#[test]
fn i2c_read_encodes_address_flag_and_size() {
    let b = Board::new();
    let msg = b.i2c_read(0x68, 6);
    assert_eq!(msg, vec![0xF0, 0x76, 0x68, 0x08, 6, 0, 0xF7]);
    let msg = b.i2c_read(0x10, 300);
    assert_eq!(msg, vec![0xF0, 0x76, 0x10, 0x08, 44, 2, 0xF7]);
}

#[test]
fn i2c_write_reencodes_each_byte_as_a_pair() {
    let b = Board::new();
    let msg = b.i2c_write(0x68, &[0x00, 0xFF, 0x42]);
    assert_eq!(
        msg,
        vec![0xF0, 0x76, 0x68, 0x00, 0, 0, 127, 1, 0x42, 0, 0xF7]
    );
}

#[test]
fn encoding_is_idempotent() {
    // The encoder has no hidden state beyond the cached pin values it
    // itself updates: repeating an operation with the same arguments
    // produces byte-identical output.
    let mut b = board_with_pins(16);
    let first = b.analog_write(3, 777);
    let second = b.analog_write(3, 777);
    assert_eq!(first, second);

    let first = b.digital_write(5, 1);
    let second = b.digital_write(5, 1);
    assert_eq!(first, second);

    let c = Board::new();
    assert_eq!(c.i2c_write(0x20, &[1, 2, 3]), c.i2c_write(0x20, &[1, 2, 3]));
    assert_eq!(c.i2c_read(0x20, 4), c.i2c_read(0x20, 4));
    assert_eq!(c.i2c_config(100), c.i2c_config(100));
    assert_eq!(c.query_firmware(), c.query_firmware());
}
