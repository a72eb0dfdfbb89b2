use macrdp::pixels::{blit_rows, copy_rows};
use macrdp::text::{
    append, chars_of, contains, is_control, is_white_space, parse_number, parse_port,
    push_decimal, push_hex4, string_of,
};
use macrdp::wire::{
    copy_range, i32_from_bits, i32_to_bits, push_all, push_be16, push_be32, push_le16, push_le32,
    read_be16, read_le16, read_le32,
};

#[test]
fn numbers_as_bytes() {
    let mut b = Vec::new();
    push_be16(&mut b, 0x0102);
    push_be32(&mut b, 0x0304_0506);
    push_le16(&mut b, 0x0807);
    push_le32(&mut b, 0x0c0b_0a09);
    push_all(&mut b, &[13, 14]);
    assert_eq!(b, (1..=14).collect::<Vec<u8>>());
    assert_eq!(read_be16(&b, 0), 0x0102);
    assert_eq!(read_le16(&b, 6), 0x0807);
    assert_eq!(read_le32(&b, 8), 0x0c0b_0a09);
    assert_eq!(copy_range(&b, 12, 14), vec![13, 14]);
    for x in [0, 1, -1, i32::MIN, i32::MAX] {
        assert_eq!(i32_to_bits(x), x as u32);
        assert_eq!(i32_from_bits(x as u32), x);
    }
}

#[test]
fn texts_are_put_together() {
    let mut s = String::new();
    append(&mut s, "a\u{1f600}");
    s.push('b');
    push_decimal(&mut s, 1_234_567_890);
    push_hex4(&mut s, 0x0fa9);
    assert_eq!(s, "a\u{1f600}b12345678900fa9");
    let chars = chars_of(&s);
    assert_eq!(chars, s.chars().collect::<Vec<char>>());
    assert_eq!(string_of(&chars, 1, 3), "\u{1f600}b");
    assert!(contains("the channel closed again", "channel closed"));
    assert!(!contains("channel", "channel closed"));
    assert!(contains("x", ""));
}

#[test]
fn numbers_read_back() {
    for n in [0, 9, 10, 99, 100, 65_535, u64::MAX] {
        let mut s = String::new();
        push_decimal(&mut s, n);
        assert_eq!(s, n.to_string());
        assert_eq!(parse_number(&s, u64::MAX), Some(n));
    }
    for s in ["", "+", "-1", " 1", "1 ", "1_0", "0x1", "++1", "\u{0661}"] {
        assert_eq!(parse_number(s, u64::MAX), s.parse::<u64>().ok(), "{s:?}");
    }
    assert_eq!(parse_number("+007", 7), Some(7));
    assert_eq!(parse_number("8", 7), None);
    assert_eq!(parse_port(Some("65535"), 1), 65_535);
    assert_eq!(parse_port(Some("65536"), 1), 1);
}

#[test]
fn classes_of_characters() {
    for c in (0..0x11_0000u32).filter_map(char::from_u32) {
        assert_eq!(is_white_space(c), c.is_whitespace());
        assert_eq!(is_control(c), c.is_control());
    }
}

#[test]
fn rows_survive_padding() {
    let src = [1, 2, 3, 0, 4, 5, 6, 0, 7, 8, 9];
    let tight = copy_rows(&src, 0, 4, 3, 3);
    assert_eq!(tight, vec![1, 2, 3, 4, 5, 6, 7, 8, 9]);
    let mut dst = vec![0xee; 15];
    blit_rows(&mut dst, 6, &src, 4, 3, 3);
    assert_eq!(copy_rows(&dst, 0, 6, 3, 3), tight);
    assert_eq!(dst[3], 0xee);
}
