use kosmos_core::serial::serial_print_hex_u64;
use kosmos_core::serial::SerialSink;

#[test]
fn prints_sixteen_upper_case_hex_digits() {
    let mut sink = SerialSink::new();
    serial_print_hex_u64(&mut sink, 0xdead_beef);
    assert_eq!(sink.sent().as_slice(), b"00000000DEADBEEF");
}

#[test]
fn zero_and_all_ones() {
    let mut sink = SerialSink::new();
    serial_print_hex_u64(&mut sink, 0);
    serial_print_hex_u64(&mut sink, u64::MAX);
    let expected: Vec<u8> = b"0000000000000000FFFFFFFFFFFFFFFF".to_vec();
    assert_eq!(sink.sent().as_slice(), expected.as_slice());
}

#[test]
fn bytes_accumulate_in_send_order() {
    let mut sink = SerialSink::new();
    sink.send(b'o');
    sink.send(b'k');
    assert_eq!(sink.sent().as_slice(), b"ok");
}
