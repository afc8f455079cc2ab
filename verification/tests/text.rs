use wingsvd::text::{
    chars_of, decimal_string, find, is_whitespace, last_field, parse_u32, parse_u64, push_hexadecimal, push_signed,
    same_text, split, split_whitespace, starts_with,
};

#[test]
fn numbers_in_decimal() {
    assert_eq!(decimal_string(0), "0");
    assert_eq!(decimal_string(10), "10");
    assert_eq!(decimal_string(u64::MAX), "18446744073709551615");
    for n in [0u64, 9, 10, 99, 100, 12345678901] {
        assert_eq!(parse_u64(&decimal_string(n)), Some(n));
    }
}

#[test]
fn signed_and_hexadecimal_numbers() {
    let mut text = String::new();
    push_signed(&mut text, i32::MIN);
    text.push(' ');
    push_signed(&mut text, 7);
    text.push(' ');
    push_hexadecimal(&mut text, 0xdeadbeef);
    text.push(' ');
    push_hexadecimal(&mut text, 0);
    assert_eq!(text, "-2147483648 7 deadbeef 0");
}

#[test]
fn numbers_are_parsed_as_the_standard_library_does() {
    for text in ["", "+", "-1", "+0", "007", "1 ", "18446744073709551615", "18446744073709551616", "1a", "\u{661}"] {
        assert_eq!(parse_u64(text), text.parse::<u64>().ok());
        assert_eq!(parse_u32(text), text.parse::<u32>().ok());
    }
    assert_eq!(parse_u32("4294967295"), Some(u32::MAX));
    assert_eq!(parse_u32("4294967296"), None);
}

#[test]
fn texts_are_split_as_the_standard_library_does() {
    for text in ["", " ", "a", " a  b ", "a\tb\nc", "\u{a0}x\u{3000}y\u{2009}", "a,,b,", ","] {
        let words: Vec<&str> = text.split_whitespace().collect();
        assert_eq!(split_whitespace(text), words);
        let columns: Vec<&str> = text.split(',').collect();
        assert_eq!(split(text, ','), columns);
    }
}

#[test]
fn white_space_is_that_of_the_standard_library() {
    for code in 0..0x11_0000u32 {
        if let Some(c) = char::from_u32(code) {
            assert_eq!(is_whitespace(c), c.is_whitespace());
        }
    }
}

#[test]
fn parts_of_texts() {
    assert!(starts_with("abc", "ab") && starts_with("abc", "") && !starts_with("ab", "abc"));
    assert_eq!(find(&chars_of("abcabdabd"), "abd"), Some(3));
    assert_eq!(find(&chars_of(""), ""), Some(0));
    assert_eq!(find(&chars_of("ab"), "ba"), None);
    assert_eq!(last_field(&chars_of("/a/bc/d"), 5, '/'), "bc");
    assert_eq!(last_field(&chars_of("abc"), 2, '/'), "ab");
    assert_eq!(last_field(&chars_of("a/"), 2, '/'), "");
    assert!(same_text("\u{e9}", "\u{e9}") && !same_text("a", "ab") && !same_text("a", "b"));
}
