use mindurka_bot::text::{
    chars_equal, chars_of, concat_strings, decimal_chars, remove_char, string_from_chars,
    string_from_range, trim_chars,
};

#[test]
fn decimal_digits_match_display() {
    for n in [0u128, 7, 10, 99, 100, 4102, 9876543210, u64::MAX as u128, u128::MAX] {
        let s: String = decimal_chars(n).into_iter().collect();
        assert_eq!(s, n.to_string());
    }
}

#[test]
fn trim_matches_std() {
    for s in ["", "   ", " a ", "\t\nab c\r\n", "\u{2003}x\u{205f}", "\u{200b}x", "x"] {
        let t: String = trim_chars(&chars_of(s)).into_iter().collect();
        assert_eq!(t, s.trim(), "input {:?}", s);
    }
}

#[test]
fn strings_from_characters() {
    let v = chars_of("héllo");
    assert_eq!(v.len(), 5);
    assert_eq!(string_from_chars(&v), "héllo");
    assert_eq!(string_from_range(&v, 1, 4), "éll");
    assert_eq!(concat_strings("ab", "ç"), "abç");
    assert_eq!(string_from_chars(&remove_char(&v, 'l')), "héo");
    assert!(chars_equal(&chars_of("ab"), &chars_of("ab")));
    assert!(!chars_equal(&chars_of("ab"), &chars_of("abc")));
    assert!(!chars_equal(&chars_of("ab"), &chars_of("ac")));
}
