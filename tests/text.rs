use macro_pad::text::{format_u16, format_u32, make_upper_ascii};

#[test]
fn format_u16_values() {
    assert_eq!(format_u16(0), [0, 0, 0, 0, b'0']);
    assert_eq!(format_u16(7), [0, 0, 0, 0, b'7']);
    assert_eq!(format_u16(42), [0, 0, 0, b'4', b'2']);
    assert_eq!(format_u16(10000), *b"10000");
    assert_eq!(format_u16(u16::MAX), *b"65535");
}

#[test]
fn format_u32_values() {
    assert_eq!(format_u32(0), [0, 0, 0, 0, 0, 0, 0, 0, 0, b'0']);
    assert_eq!(format_u32(1234567), [0, 0, 0, b'1', b'2', b'3', b'4', b'5', b'6', b'7']);
    assert_eq!(format_u32(u32::MAX), *b"4294967295");
}

#[test]
fn upper_case_echo() {
    let mut buf = *b"Hello, world! az{`@Z09";
    make_upper_ascii(&mut buf);
    assert_eq!(&buf, b"HELLO, WORLD! AZ{`@Z09");
    let mut empty: [u8; 0] = [];
    make_upper_ascii(&mut empty);
}
