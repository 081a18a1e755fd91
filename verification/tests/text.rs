use nullstack_swc::loaders::{push_hex_bytes, push_lower_hex};
use nullstack_swc::text::{concat_str, ends_with, eq_ignore_ascii_case, first_is_uppercase, starts_with, str_eq, utf8_bytes};

#[test]
fn lower_hex_has_no_leading_zeros() {
    let mut s = String::new();
    push_lower_hex(&mut s, 0);
    assert_eq!(s, "0");
    let mut s = String::from("x");
    push_lower_hex(&mut s, 0x0badcafe);
    assert_eq!(s, "xbadcafe");
    let mut s = String::new();
    push_lower_hex(&mut s, u32::MAX);
    assert_eq!(s, "ffffffff");
}

#[test]
fn hex_bytes_take_two_digits_each() {
    let mut s = String::new();
    push_hex_bytes(&mut s, &vec![0x00, 0x0f, 0xa0, 0xff]);
    assert_eq!(s, "000fa0ff");
}

#[test]
fn string_comparisons() {
    assert!(starts_with("renderInner", "render"));
    assert!(!starts_with("rend", "render"));
    assert!(ends_with("a.scss", ".scss"));
    assert!(!ends_with("a.css.js", ".css"));
    assert!(eq_ignore_ascii_case("NullStack", "nullstack"));
    assert!(!eq_ignore_ascii_case("nullstacks", "nullstack"));
    assert!(str_eq("a", "a") && !str_eq("a", "b"));
    assert_eq!(concat_str("render", "Inner"), "renderInner");
}

#[test]
fn uppercase_first_letters() {
    assert!(first_is_uppercase("Inner"));
    assert!(first_is_uppercase("Ωmega"));
    assert!(!first_is_uppercase("inner"));
    assert!(!first_is_uppercase("$runtime"));
    assert!(!first_is_uppercase(""));
}

#[test]
fn utf8_bytes_of_text() {
    assert_eq!(utf8_bytes("aé"), vec![0x61, 0xc3, 0xa9]);
}
