use crust_trust::text::is_whitespace_char;

#[test]
fn whitespace_is_what_unicode_says() {
    let mut code: u32 = 0;
    let mut count = 0;
    while code <= 0x10FFFF {
        if let Some(c) = char::from_u32(code) {
            assert_eq!(is_whitespace_char(c), c.is_whitespace(), "U+{:04X}", code);
            if is_whitespace_char(c) {
                count += 1;
            }
        }
        code += 1;
    }
    assert_eq!(count, 25);
}

#[test]
fn common_whitespace() {
    for c in [' ', '\t', '\n', '\r', '\u{b}', '\u{c}', '\u{85}', '\u{a0}', '\u{3000}'] {
        assert!(is_whitespace_char(c));
    }
    for c in ['a', '0', '=', '[', '\u{0}', '\u{1f}', '\u{200b}', '\u{180e}', '\u{feff}'] {
        assert!(!is_whitespace_char(c));
    }
}
