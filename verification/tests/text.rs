use json_array_stream::text::is_whitespace;

#[test]
fn white_space_is_what_the_standard_library_takes_for_it() {
    let mut code: u32 = 0;
    let mut seen = 0;
    while code <= 0x10ffff {
        if let Some(c) = char::from_u32(code) {
            assert_eq!(is_whitespace(c), c.is_whitespace(), "U+{:04X}", code);
            if is_whitespace(c) {
                seen += 1;
            }
        }
        code += 1;
    }
    assert_eq!(seen, 25);
}

#[test]
fn structural_characters_are_not_white_space() {
    for c in ['[', ']', '{', '}', '"', '\\', ',', ':', 'a', '0', '\u{0}', '\u{200b}', '\u{feff}'] {
        assert!(!is_whitespace(c));
    }
    for c in [' ', '\t', '\n', '\u{b}', '\u{c}', '\r', '\u{85}', '\u{a0}', '\u{2028}', '\u{3000}'] {
        assert!(is_whitespace(c));
    }
}
