use rosu_mem::decode::{
    i16_array_from_le, i32_from_le, i64_from_le, i8_from_le, le_unsigned, u128_from_le,
    u16_array_from_le, u32_from_le, u64_from_le,
};
use rosu_mem::uleb128::{uleb128_from, ULEB128_MAX_BYTES};
use rosu_mem::utf16::{decode_utf16_lossy, utf16_units_from_le};
use rosu_mem::text::{
    chars_of, contains, digit_of, find_char, holds_at, parse_i32, parse_number, slice, split,
    Separator,
};

fn chars(s: &str) -> Vec<char> {
    s.chars().collect()
}

#[test]
fn test_le_unsigned() {
    let bytes = vec![0x01, 0x02, 0x03, 0x04, 0x05];
    assert_eq!(le_unsigned(&bytes, 0, 0), 0);
    assert_eq!(le_unsigned(&bytes, 0, 1), 0x01);
    assert_eq!(le_unsigned(&bytes, 1, 2), 0x0302);
    assert_eq!(le_unsigned(&bytes, 1, 4), 0x05040302);
    let full = vec![0xFF; 16];
    assert_eq!(le_unsigned(&full, 0, 16), u128::MAX);
}

#[test]
fn test_fixed_width_at_an_offset() {
    let bytes = vec![0xAA, 0x78, 0x56, 0x34, 0x12, 0xFF, 0xFF, 0xFF, 0xFF, 0xFF];
    assert_eq!(u32_from_le(&bytes, 1), 0x12345678);
    assert_eq!(i32_from_le(&bytes, 5), -1);
    assert_eq!(i8_from_le(&bytes, 0), -86);
    assert_eq!(u64_from_le(&bytes, 2), 0xFFFF_FFFF_FF12_3456);
    assert_eq!(i64_from_le(&bytes, 2), -0xED_CBAA);
    let wide = vec![0x01, 0, 0, 0, 0, 0, 0, 0, 0, 0, 0, 0, 0, 0, 0, 0x80];
    assert_eq!(u128_from_le(&wide, 0), (1u128 << 127) + 1);
}

#[test]
fn test_arrays_from_bytes() {
    assert_eq!(
        u16_array_from_le(&vec![0x01, 0x00, 0xFF, 0xFF, 0x00, 0x80]),
        vec![1, 0xFFFF, 0x8000]
    );
    assert_eq!(
        i16_array_from_le(&vec![0x01, 0x00, 0xFF, 0xFF, 0x00, 0x80]),
        vec![1, -1, i16::MIN]
    );
    assert!(u16_array_from_le(&Vec::new()).is_empty());
}

#[test]
fn test_uleb128_from() {
    assert_eq!(ULEB128_MAX_BYTES, 10);
    assert_eq!(uleb128_from(&vec![0x04]), 4);
    assert_eq!(uleb128_from(&vec![0xE5, 0x8E, 0x26]), 624485);
    assert_eq!(uleb128_from(&vec![0x80, 0x80, 0x01]), 1 << 14);
    assert_eq!(uleb128_from(&Vec::new()), 0);
}

#[test]
fn test_utf16_units() {
    assert_eq!(
        utf16_units_from_le(&vec![0x61, 0x00, 0x34, 0xD8, 0x7A]),
        vec![0x0061, 0xD834]
    );
    assert!(utf16_units_from_le(&vec![0x61]).is_empty());
}

#[test]
fn test_utf16_lossy() {
    assert_eq!(decode_utf16_lossy(&vec![0x0068, 0x0069]), chars("hi"));
    assert_eq!(decode_utf16_lossy(&vec![0x20AC, 0xFFFF]), chars("\u{20AC}\u{FFFF}"));
    // a pair, and the first and the last character beyond the first plane
    assert_eq!(decode_utf16_lossy(&vec![0xD834, 0xDD1E]), chars("\u{1D11E}"));
    assert_eq!(decode_utf16_lossy(&vec![0xD800, 0xDC00]), chars("\u{10000}"));
    assert_eq!(decode_utf16_lossy(&vec![0xDBFF, 0xDFFF]), chars("\u{10FFFF}"));
    // surrogates without a partner
    assert_eq!(decode_utf16_lossy(&vec![0xD800]), chars("\u{FFFD}"));
    assert_eq!(decode_utf16_lossy(&vec![0xDC00, 0x0041]), chars("\u{FFFD}A"));
    assert_eq!(decode_utf16_lossy(&vec![0xD800, 0x0041]), chars("\u{FFFD}A"));
    assert_eq!(
        decode_utf16_lossy(&vec![0xD800, 0xD800, 0xDC00]),
        chars("\u{FFFD}\u{10000}")
    );
    assert_eq!(decode_utf16_lossy(&vec![0xDC00, 0xD800]), chars("\u{FFFD}\u{FFFD}"));
    assert!(decode_utf16_lossy(&Vec::new()).is_empty());
}

#[test]
fn test_utf16_lossy_agrees_with_std() {
    let samples: Vec<Vec<u16>> = vec![
        vec![0xD834, 0xDD1E, 0x006d, 0x0075, 0xD800, 0x0069, 0x0063],
        vec![0xDC00, 0xDC00, 0xD800, 0xD800, 0xDC00, 0x0000],
        vec![0xDBFF, 0xDFFF, 0xE000, 0xD7FF],
    ];
    for units in samples {
        let text: String = decode_utf16_lossy(&units).into_iter().collect();
        assert_eq!(text, String::from_utf16_lossy(&units));
    }
}

#[test]
fn test_chars_of() {
    assert_eq!(chars_of("a\u{1D11E}\0z"), vec!['a', '\u{1D11E}', '\0', 'z']);
    assert!(chars_of("").is_empty());
}

#[test]
fn test_split_whitespace() {
    assert_eq!(
        split(&chars("  ab\tc \n\r\x0cdef "), Separator::Whitespace),
        vec![chars("ab"), chars("c"), chars("def")]
    );
    assert!(split(&chars(" \t "), Separator::Whitespace).is_empty());
    assert!(split(&chars(""), Separator::Whitespace).is_empty());
    // a vertical tab is no separator
    assert_eq!(
        split(&chars("a\x0bb"), Separator::Whitespace),
        vec![chars("a\x0bb")]
    );
    assert!(Separator::Whitespace.is_separator(' '));
    assert!(!Separator::Line.is_separator(' '));
}

#[test]
fn test_split_lines() {
    assert_eq!(
        split(&chars("one two\n\nthree\n"), Separator::Line),
        vec![chars("one two"), chars("three")]
    );
}

#[test]
fn test_contains() {
    assert!(contains(&chars("osu!.exe"), &chars("osu!")));
    assert!(contains(&chars("osu!.exe"), &chars(".exe")));
    assert!(contains(&chars("osu!.exe"), &chars("osu!.exe")));
    assert!(contains(&chars("osu!.exe"), &chars("")));
    assert!(contains(&chars(""), &chars("")));
    assert!(!contains(&chars("osu!.exe"), &chars("osu!.exe ")));
    assert!(!contains(&chars("aab"), &chars("abb")));
    assert!(contains(&chars("aaab"), &chars("aab")));
    assert!(holds_at(&chars("aaab"), &chars("aab"), 1));
    assert!(!holds_at(&chars("aaab"), &chars("aab"), 0));
}

#[test]
fn test_find_char_and_slice() {
    assert_eq!(find_char(&chars("ab cd e"), ' '), 2);
    assert_eq!(find_char(&chars("abc"), ' '), 3);
    assert_eq!(find_char(&chars(""), ' '), 0);
    assert_eq!(slice(&chars("abcdef"), 2, 4), chars("cd"));
    assert!(slice(&chars("abcdef"), 3, 3).is_empty());
}

#[test]
fn test_parse_number() {
    assert_eq!(parse_number(&chars("0"), 10, 100), Some(0));
    assert_eq!(parse_number(&chars("0042"), 10, 100), Some(42));
    assert_eq!(parse_number(&chars("100"), 10, 100), Some(100));
    assert_eq!(parse_number(&chars("101"), 10, 100), None);
    assert_eq!(parse_number(&chars("fF"), 16, 255), Some(255));
    assert_eq!(parse_number(&chars("ff"), 10, 255), None);
    assert_eq!(parse_number(&chars(""), 10, 255), None);
    assert_eq!(parse_number(&chars("+1"), 10, 255), None);
    assert_eq!(parse_number(&chars("1 "), 10, 255), None);
    assert_eq!(
        parse_number(&chars("ffffffffffffffff"), 16, u64::MAX),
        Some(u64::MAX)
    );
    assert_eq!(parse_number(&chars("10000000000000000"), 16, u64::MAX), None);
    assert_eq!(parse_number(&chars("18446744073709551616"), 10, u64::MAX), None);
}

#[test]
fn test_digit_of() {
    assert_eq!(digit_of('0', 10), Some(0));
    assert_eq!(digit_of('9', 10), Some(9));
    assert_eq!(digit_of('a', 10), None);
    assert_eq!(digit_of('a', 16), Some(10));
    assert_eq!(digit_of('F', 16), Some(15));
    assert_eq!(digit_of('g', 16), None);
    assert_eq!(digit_of('7', 7), None);
}

#[test]
fn test_parse_i32() {
    assert_eq!(parse_i32(&chars("0")), Some(0));
    assert_eq!(parse_i32(&chars("-0")), Some(0));
    assert_eq!(parse_i32(&chars("+17")), Some(17));
    assert_eq!(parse_i32(&chars("-17")), Some(-17));
    assert_eq!(parse_i32(&chars("2147483647")), Some(i32::MAX));
    assert_eq!(parse_i32(&chars("-2147483648")), Some(i32::MIN));
    assert_eq!(parse_i32(&chars("2147483648")), None);
    assert_eq!(parse_i32(&chars("-2147483649")), None);
    assert_eq!(parse_i32(&chars("99999999999999999999999")), None);
    for text in ["", "-", "+", "+-1", "1-", " 1", "1 ", "0x10", "ff", "1_0"] {
        assert_eq!(parse_i32(&chars(text)), None);
    }
}
