use embedded_video::text::{chars_of, joined, text_between, trimmed, with_decimal};

#[test]
fn numbers_are_decimal() {
    for n in [0u32, 7, 9, 10, 99, 100, 1234567890, u32::MAX] {
        assert_eq!(with_decimal("n=", n), format!("n={n}"));
    }
}

#[test]
fn texts_are_joined() {
    assert_eq!(joined("ab", "\u{e9}c"), "ab\u{e9}c");
}

#[test]
fn texts_are_cut_by_characters() {
    let v = chars_of("a\u{e9}\u{1f3b5}z");
    assert_eq!(v.len(), 4);
    assert_eq!(text_between(&v, 1, 3), "\u{e9}\u{1f3b5}");
}

#[test]
fn texts_are_trimmed() {
    let v = chars_of(" \u{a0}\ta b\u{2028}\n");
    assert_eq!(trimmed(&v, 0, v.len()), "a b");
    assert_eq!(trimmed(&v, 0, 3), "");
}
