//! Texts: searching, splitting, ordering, and numbers in decimal.

use hipfire::json::{
    member_double, member_items, member_text, member_truth, member_unsigned,
};
use hipfire::text::{
    chars_of, contains, decimal_text, ends_with, find, holds, insert_ascending, is_before,
    parse_number, replace, same, split, starts_with, text_of, to_ascii_lower, trim,
};

#[test]
fn texts_are_searched_by_characters() {
    assert!(contains("häuser", "äu") && !contains("häuser", "au"));
    assert!(starts_with("layers.1.", "layers.") && ends_with("a.weight", ".weight"));
    assert_eq!(find(&chars_of("aabab"), &chars_of("bab")), Some(2));
    assert_eq!(find(&chars_of("aa"), &chars_of("aaa")), None);
    assert!(same("ß", "ß") && !same("a", "aa"));
    assert_eq!(text_of(&chars_of("größe")), "größe");
}

#[test]
fn texts_are_split_trimmed_and_replaced_as_std_does() {
    for s in ["", "a", ",", "a,b,,c", ",x,"] {
        let want: Vec<String> = s.split(',').map(str::to_owned).collect();
        assert_eq!(split(s, ','), want, "{s:?}");
    }
    for s in ["", "  ", " a b\t\n", "\u{a0}x\u{3000}", "x"] {
        assert_eq!(trim(s), s.trim(), "{s:?}");
    }
    for (s, a, b) in [("aaa", "aa", "b"), ("xyx", "x", "long"), ("none", "zz", "")] {
        assert_eq!(replace(s, a, b), s.replace(a, b));
    }
    assert_eq!(to_ascii_lower("FP32-Ä"), "FP32-Ä".to_ascii_lowercase());
}

#[test]
fn names_are_kept_in_order_without_repeats() {
    let mut list = Vec::new();
    for s in ["b", "a", "c", "a", "ab"] {
        insert_ascending(&mut list, s);
    }
    assert_eq!(list, vec!["a", "ab", "b", "c"]);
    assert!(holds(&list, "ab") && !holds(&list, "x"));
    assert!(is_before("a", "ab") && !is_before("b", "ab") && !is_before("a", "a"));
}

#[test]
fn numbers_are_written_and_read_back() {
    for n in [0u64, 7, 10, 255, 1_000_000, u64::MAX] {
        assert_eq!(decimal_text(n), n.to_string());
        assert_eq!(parse_number(&decimal_text(n), u64::MAX), Some(n));
    }
    for s in ["", "+", "-1", "+5", "007", " 1", "1 ", "18446744073709551616", "x"] {
        assert_eq!(parse_number(s, u64::MAX), s.parse::<u64>().ok(), "{s:?}");
    }
    assert_eq!(parse_number("300", 255), None);
}

#[test]
fn members_are_read_by_their_kind() {
    let v: serde_json::Value = serde_json::from_str(
        "{\"t\":\"x\",\"n\":7,\"b\":true,\"f\":0.5,\"l\":[1,2],\"neg\":-3,\"big\":9007199254740993}",
    )
    .unwrap();
    assert_eq!(member_text(&v, "t"), Some("x"));
    assert_eq!(member_text(&v, "n"), None);
    assert_eq!(member_unsigned(&v, "n"), Some(7));
    assert_eq!(member_unsigned(&v, "neg"), None);
    assert_eq!(member_truth(&v, "b"), Some(true));
    assert_eq!(member_items(&v, "l").map(|l| l.len()), Some(2));
    for key in ["f", "n", "neg", "big", "t"] {
        assert_eq!(
            member_double(&v, key),
            v[key].as_f64().map(f64::to_bits),
            "{key}"
        );
    }
}
