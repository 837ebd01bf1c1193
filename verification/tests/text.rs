use fairyquery::text::{
    is_ascii_alphabetic, is_ascii_alphanumeric, is_ascii_digit, is_whitespace, to_ascii_lowercase,
    trim,
};

#[test]
fn character_classes_agree_with_std_on_every_char() {
    for code in 0u32..=0x10FFFF {
        if let Some(c) = char::from_u32(code) {
            assert_eq!(is_whitespace(c), c.is_whitespace(), "{:?}", c);
            assert_eq!(is_ascii_digit(c), c.is_ascii_digit(), "{:?}", c);
            assert_eq!(is_ascii_alphabetic(c), c.is_ascii_alphabetic(), "{:?}", c);
            assert_eq!(is_ascii_alphanumeric(c), c.is_ascii_alphanumeric(), "{:?}", c);
            assert_eq!(to_ascii_lowercase(c), c.to_ascii_lowercase(), "{:?}", c);
        }
    }
}

#[test]
fn trim_agrees_with_std() {
    let samples = [
        "", " ", "a", " a ", "\u{85}x\u{3000}", "\t\r\n", "a b c", " \u{2028}z y\u{a0} ", "€ ",
    ];
    for s in samples {
        assert_eq!(trim(s), s.trim());
    }
}
