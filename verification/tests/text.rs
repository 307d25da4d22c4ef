use autodirector_fix::text::{
    characters, is_white_space, push_decimal, push_hex_byte, push_hexadecimal, spells,
    split_at_first, string_of, trim,
};

#[test]
fn white_space_is_that_of_std() {
    for code in 0..=0x10_ffffu32 {
        if let Some(c) = char::from_u32(code) {
            assert_eq!(is_white_space(c), c.is_whitespace());
        }
    }
}

#[test]
fn numbers_are_written_as_std_writes_them() {
    let numbers = [0u64, 7, 9, 10, 15, 16, 99, 100, 255, 256, 0xdead_beef, u64::MAX];
    for n in numbers {
        let mut out = "n=".to_string();
        push_decimal(&mut out, n as u128);
        assert_eq!(out, format!("n={n}"));
        let mut out = "n=".to_string();
        push_hexadecimal(&mut out, n);
        assert_eq!(out, format!("n={n:x}"));
    }
    let mut out = String::new();
    push_decimal(&mut out, u128::MAX);
    assert_eq!(out, format!("{}", u128::MAX));
}

#[test]
fn bytes_are_written_with_two_digits() {
    for b in 0..=255u8 {
        let mut out = String::new();
        push_hex_byte(&mut out, b);
        assert_eq!(out, format!("{b:02x}"));
    }
}

#[test]
fn characters_and_strings_convert() {
    let text = "a\u{e9}\u{20ac}\u{1f3a5}\n";
    let listed = characters(text);
    assert_eq!(listed, text.chars().collect::<Vec<char>>());
    assert_eq!(string_of(&listed), text);
    assert!(spells(&listed, text));
    assert!(!spells(&listed, "a"));
    assert!(!spells(&listed[..1], text));
    assert!(spells(&[], ""));
}

#[test]
fn trimming_and_splitting_are_those_of_std() {
    for text in ["", " ", " a ", "a b", "\t\u{2003}x = y = z\r", "=", "a=", "=b"] {
        let listed = characters(text);
        assert_eq!(string_of(trim(&listed)), text.trim());
        let split = split_at_first(&listed, '=').map(|(a, b)| (string_of(a), string_of(b)));
        let expected = text
            .split_once('=')
            .map(|(a, b)| (a.to_string(), b.to_string()));
        assert_eq!(split, expected);
    }
}
