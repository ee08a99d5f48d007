use cowt::number::{decimal_int_text, decimal_text, parse_u32, parse_unsigned};
use cowt::order::{sort_texts, text_before};
use cowt::text::{find_text, join_text, replace_char, split_lines, split_words, trim_text};

fn all(v: &[&str]) -> Vec<String> {
    v.iter().map(|s| s.to_string()).collect()
}

#[test]
fn texts_are_cut() {
    assert_eq!(split_words(" a\tb\u{3000}c \n"), all(&["a", "b", "c"]));
    assert_eq!(split_lines("a\r\nb\n\nc"), all(&["a", "b", "", "c"]));
    assert!(split_lines("").is_empty());
    assert_eq!(trim_text("\u{a0} x y \n"), "x y");
    assert_eq!(join_text(&all(&["a", "b"]), ", "), "a, b");
    assert_eq!(replace_char("a b", ' ', "\\040"), "a\\040b");
    assert_eq!(find_text("abcabc", "ca"), Some(2));
    assert_eq!(find_text("abc", "cb"), None);
    assert_eq!(find_text("abc", ""), Some(0));
}

#[test]
fn numbers_read_back() {
    assert_eq!(decimal_text(0), "0");
    assert_eq!(decimal_text(u128::MAX), u128::MAX.to_string());
    assert_eq!(decimal_int_text(i32::MIN), i32::MIN.to_string());
    for n in [0u128, 9, 10, 1234567890, u128::MAX] {
        assert_eq!(parse_unsigned(&decimal_text(n), u128::MAX), Some(n));
    }
    assert_eq!(parse_u32("4294967295"), Some(u32::MAX));
    assert_eq!(parse_u32("4294967296"), None);
    for bad in ["", "+", "-1", " 1", "1x"] {
        assert_eq!(parse_u32(bad), None);
    }
    assert_eq!(parse_u32("007"), Some(7));
}

#[test]
fn order_is_by_code_point() {
    assert!(text_before("A", "a") && text_before("a", "aa") && !text_before("a", "a"));
    assert_eq!(sort_texts(all(&["b", "a", "B", "a"])), all(&["B", "a", "a", "b"]));
}
