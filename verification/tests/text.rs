use aos_realm::text::{
    chars_of, control, find_from, found_at, holds, join_texts, lines_of, push_decimal, same_text,
    slice_text, space, string_of, trim, width,
};

#[test]
fn lines_are_split_as_the_standard_library_does() {
    for text in ["", "a", "a\n", "a\r\nb", "\n\n", "a\rb\n\r\n", "x\ny\n\nz"] {
        let expected = text.lines().map(str::to_string).collect::<Vec<_>>();
        assert_eq!(lines_of(text), expected, "{text:?}");
    }
}

#[test]
fn trimming_and_classes_match_the_standard_library() {
    for text in ["", "  a b ", "\u{a0}x\u{3000}", "\t\n", "no"] {
        assert_eq!(trim(&chars_of(text)), text.trim(), "{text:?}");
    }
    for code in (0..0x3100_u32).chain([0xfeff, 0x1f600]) {
        if let Some(c) = char::from_u32(code) {
            assert_eq!(control(c), c.is_control(), "{code:x}");
            assert_eq!(space(c), c.is_whitespace(), "{code:x}");
            assert_eq!(width(c), c.len_utf8(), "{code:x}");
        }
    }
}

#[test]
fn searching_and_building() {
    let text = chars_of("abcabc");
    let needle = chars_of("ca");
    assert_eq!(find_from(&text, &needle, 0), Some(2));
    assert_eq!(find_from(&text, &needle, 3), None);
    assert!(found_at(&text, &needle, 2));
    assert!(holds("abc", ""));
    assert!(!holds("abc", "abcd"));
    assert!(same_text("é", "é"));
    assert!(!same_text("é", "e"));
    assert_eq!(slice_text(&text, 1, 4), "bca");
    assert_eq!(string_of(&text), "abcabc");
    assert_eq!(join_texts(&["a".to_string(), "b".to_string()], ", "), "a, b");
    let mut out = String::new();
    push_decimal(&mut out, 0);
    push_decimal(&mut out, u128::MAX);
    assert_eq!(out, format!("0{}", u128::MAX));
}
