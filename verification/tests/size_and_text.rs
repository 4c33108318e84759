use pitanga::size::{Size, SIZE_LEN};
use pitanga::text::{chars_of, decimal_text, parse_usize, push_text, string_of, text_equals};

#[test]
fn size_header_is_four_bytes() {
    assert_eq!(Size::bytes_no(), 4);
    assert_eq!(SIZE_LEN, 4);
    assert_eq!(Size::zero().slice(), &[0u8, 0, 0, 0]);
}

#[test]
fn size_from_u32_keeps_the_machine_byte_order() {
    let s = Size::from(0x0102_0304u32);
    assert_eq!(s.slice(), &0x0102_0304u32.to_ne_bytes());
    assert!(s.slice() == &[4u8, 3, 2, 1] || s.slice() == &[1u8, 2, 3, 4]);
    let s = Size::from(300usize);
    assert_eq!(s.slice(), &300u32.to_ne_bytes());
}

#[test]
fn size_round_trips() {
    for u in [0u32, 1, 255, 256, 65535, 65536, 0x1234_5678, u32::MAX] {
        assert_eq!(u32::from(Size::from(u)), u);
    }
    for n in [0usize, 7, 4096, u32::MAX as usize] {
        assert_eq!(usize::from(Size::from(n)), n);
    }
}

#[test]
fn size_keeps_low_32_bits_of_long_lengths() {
    let n: u64 = (1u64 << 32) + 5;
    if let Ok(n) = usize::try_from(n) {
        assert_eq!(usize::from(Size::from(n)), 5);
    }
}

#[test]
fn size_header_is_filled_through_mut_slice() {
    let mut s = Size::zero();
    s.mut_slice().copy_from_slice(&[1, 0, 0, 1]);
    assert_eq!(u32::from(s), 16777217);
    let b = Size([9, 0, 0, 0]);
    assert_eq!(usize::from(b), u32::from_ne_bytes([9, 0, 0, 0]) as usize);
    assert!(usize::from(b) == 9 || usize::from(b) == 0x0900_0000);
}

#[test]
fn decimal_text_writes_like_to_string() {
    for n in [0usize, 9, 10, 99, 100, 12345, usize::MAX] {
        assert_eq!(decimal_text(n), n.to_string());
    }
}

#[test]
fn parse_usize_reads_like_str_parse() {
    for t in ["0", "7", "+12", "007", "18446744073709551615", "", "+", "-1", "1 ", " 1", "a", "18446744073709551616", "99999999999999999999999"] {
        assert_eq!(parse_usize(t), t.parse::<usize>().ok(), "{:?}", t);
    }
}

#[test]
fn parse_usize_reads_back_decimal_text() {
    for n in [0usize, 1, 42, 1000, usize::MAX - 1, usize::MAX] {
        assert_eq!(parse_usize(&decimal_text(n)), Some(n));
    }
}

#[test]
fn text_helpers_copy_characters() {
    let v = chars_of("héllo");
    assert_eq!(v, vec!['h', 'é', 'l', 'l', 'o']);
    assert_eq!(string_of(&v), "héllo");
    let mut s = String::from("ab");
    push_text(&mut s, "cd");
    assert_eq!(s, "abcd");
    assert!(text_equals(&s, "abcd"));
    assert!(!text_equals(&s, "abc"));
    assert!(!text_equals(&s, "abce"));
}
