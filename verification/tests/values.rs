use create_dotslash::text;
use create_dotslash::values::{two_different_values, unique_value};

#[test]
fn unique_values_are_found() {
    assert_eq!(unique_value(&["a", "a"]), Some("a"));
    assert_eq!(unique_value(&["a"]), Some("a"));
    assert_eq!(unique_value(&["a", "b", "a"]), None);
    assert_eq!(unique_value::<&str>(&[]), None);
    assert_eq!(unique_value(&[None::<&str>, None]), Some(None));
}

#[test]
fn different_values_are_found() {
    assert_eq!(two_different_values(&["a", "a", "b", "c"]), Some(["a", "b"]));
    assert_eq!(two_different_values(&["a", "a"]), None);
    assert_eq!(two_different_values::<&str>(&[]), None);
    assert_eq!(two_different_values(&[Some("a"), None]), Some([Some("a"), None]));
}

#[test]
fn texts_are_taken_apart() {
    assert_eq!(text::split_at("a,,b", ','), ["a", "", "b"]);
    assert_eq!(text::split("a-b_c", &['-', '_']), ["a", "b", "c"]);
    assert_eq!(text::split_once_at("k=v=w", '='), Some(("k", "v=w")));
    assert_eq!(text::join(&vec!["a", "b", "c"], ", "), "a, b, c");
    assert_eq!(text::join(&vec![], ", "), "");
    assert_eq!(text::find_last("a/b/c", '/'), Some(3));
    assert_eq!(text::strip_prefix("été", "é"), Some("té"));
    assert!(text::contains("hello", "ell"));
    assert!(!text::contains("hello", "elo"));
}

#[test]
fn texts_are_ordered_as_strings_are() {
    let list = ["", "a", "ab", "b", "é", "z", "\u{ffff}", "\u{10000}", "B"];
    for a in list {
        for b in list {
            assert_eq!(text::is_before(a, b), a < b, "{a:?} {b:?}");
        }
    }
}

#[test]
fn numbers_are_read_and_written() {
    assert_eq!(text::parse_number("0"), Some(0));
    assert_eq!(text::parse_number("+18446744073709551615"), Some(u64::MAX));
    assert_eq!(text::parse_number("18446744073709551616"), None);
    assert_eq!(text::parse_number("-1"), None);
    assert_eq!(text::parse_number(""), None);
    assert_eq!(text::parse_number("+"), None);
    let mut out = String::new();
    text::push_decimal(&mut out, 0);
    text::push_decimal(&mut out, u64::MAX);
    text::push_hex(&mut out, &[0, 0x9f]);
    assert_eq!(out, "018446744073709551615009f");
}

#[test]
fn pieces_join_up() {
    for s in ["", "/", "a/b/c", "//a", "a/"] {
        assert_eq!(text::join(&text::split_at(s, '/'), "/"), s);
    }
}
