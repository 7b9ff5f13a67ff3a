use flash_test::pattern::Mismatch;

#[test]
fn mismatch_line() {
    let m = Mismatch {
        address: 0x1A2B0,
        actual: [0, 1, 2, 3, 4, 5, 6, 7, 8, 9, 10, 11, 12, 13, 14, 255],
        expected: [0xAB; 16],
    };
    let expected = "[0x00000000000001A2B0] \
[0x00, 0x01, 0x02, 0x03, 0x04, 0x05, 0x06, 0x07, 0x08, 0x09, 0x0A, 0x0B, 0x0C, 0x0D, 0x0E, 0xFF] != \
[0xAB, 0xAB, 0xAB, 0xAB, 0xAB, 0xAB, 0xAB, 0xAB, 0xAB, 0xAB, 0xAB, 0xAB, 0xAB, 0xAB, 0xAB, 0xAB]";
    assert_eq!(m.describe(), expected);
}

#[test]
fn mismatch_line_matches_std_formatting() {
    let m = Mismatch { address: u64::MAX, actual: [0x5a; 16], expected: [0xc3; 16] };
    let hex = |b: &[u8; 16]| b.iter().map(|a| format!("0x{:02X}", a)).collect::<Vec<_>>().join(", ");
    let std_line = format!("[{:#020X}] [{}] != [{}]", m.address, hex(&m.actual), hex(&m.expected));
    assert_eq!(m.describe(), std_line);
}
