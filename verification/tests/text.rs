use rubic::text::{char_is_alphabetic, char_is_alphanumeric, char_is_numeric, char_is_uppercase,
                  char_is_whitespace};

#[test]
fn the_classes_are_those_of_the_standard_library() {
    let samples = "\u{e9}\u{c9}\u{4e16}\u{663}\u{b2}\u{a0}\u{2003}\u{85}\u{3b1}\u{3a9}\u{1f49d}\u{aa}\u{2160}";
    let all = (0u32..0x3000).filter_map(std::char::from_u32).chain(samples.chars());
    for c in all {
        assert_eq!(char_is_alphabetic(c), c.is_alphabetic(), "{:?}", c);
        assert_eq!(char_is_numeric(c), c.is_numeric(), "{:?}", c);
        assert_eq!(char_is_whitespace(c), c.is_whitespace(), "{:?}", c);
        assert_eq!(char_is_uppercase(c), c.is_uppercase(), "{:?}", c);
        assert_eq!(char_is_alphanumeric(c), c.is_alphanumeric(), "{:?}", c);
    }
}

#[test]
fn the_classes_on_ascii() {
    assert!(char_is_alphabetic('a') && char_is_alphabetic('Z') && !char_is_alphabetic('0'));
    assert!(!char_is_alphabetic('-') && !char_is_alphabetic(' ') && !char_is_alphabetic('_'));
    assert!(char_is_numeric('0') && char_is_numeric('9') && !char_is_numeric('a'));
    assert!(char_is_whitespace(' ') && char_is_whitespace('\t') && char_is_whitespace('\n'));
    assert!(char_is_whitespace('\r') && !char_is_whitespace('x') && !char_is_whitespace('\u{8}'));
    assert!(char_is_uppercase('A') && !char_is_uppercase('a') && !char_is_uppercase('1'));
    assert!(char_is_alphanumeric('a') && char_is_alphanumeric('1') && !char_is_alphanumeric('-'));
}
