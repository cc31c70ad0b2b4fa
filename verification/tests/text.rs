use shell::CharExt;
use shell::StringExt;

#[test]
fn substring_takes_a_character_range() {
    let s = "hello world".to_string();
    assert_eq!(s.substring(0, 5), "hello");
    assert_eq!(s.substring(6, 11), "world");
}

#[test]
fn substring_clips_past_the_end() {
    let s = "abc".to_string();
    assert_eq!(s.substring(1, 10), "bc");
    assert_eq!(s.substring(5, 9), "");
}

#[test]
fn char_at_returns_the_indexed_character() {
    let s = "abc".to_string();
    assert_eq!(s.char_at(0), 'a');
    assert_eq!(s.char_at(2), 'c');
}

#[test]
fn char_at_past_the_end_is_nul() {
    let s = "abc".to_string();
    assert_eq!(s.char_at(3), '\0');
}

#[test]
fn remove_double_spaces_collapses_runs() {
    let s = "a   b  c d".to_string();
    assert_eq!(s.remove_double_spaces(), "a b c d");
}

#[test]
fn remove_double_spaces_trims_the_ends() {
    let s = "  hello   world \n".to_string();
    assert_eq!(s.remove_double_spaces(), "hello world");
    assert_eq!("   ".to_string().remove_double_spaces(), "");
    assert_eq!("".to_string().remove_double_spaces(), "");
}

#[test]
fn remove_double_spaces_trims_unicode_whitespace() {
    let s = "\u{a0} hello  world\u{2003}".to_string();
    assert_eq!(s.remove_double_spaces(), "hello world");
    assert_eq!("\u{85}\u{3000}".to_string().remove_double_spaces(), "");
}

#[test]
fn decimal_string_renders_exact_digits() {
    assert_eq!(shell::text_ext::decimal_string(0), "0");
    assert_eq!(shell::text_ext::decimal_string(9), "9");
    assert_eq!(shell::text_ext::decimal_string(10), "10");
    assert_eq!(shell::text_ext::decimal_string(40960), "40960");
}

#[test]
fn parse_i32_accepts_signed_decimals() {
    assert_eq!(shell::text_ext::parse_i32("42"), Some(42));
    assert_eq!(shell::text_ext::parse_i32("-42"), Some(-42));
    assert_eq!(shell::text_ext::parse_i32("+0"), Some(0));
    assert_eq!(shell::text_ext::parse_i32("-0"), Some(0));
}

#[test]
fn parse_i32_rejects_what_std_rejects() {
    assert_eq!(shell::text_ext::parse_i32(""), None);
    assert_eq!(shell::text_ext::parse_i32("+"), None);
    assert_eq!(shell::text_ext::parse_i32("--1"), None);
    assert_eq!(shell::text_ext::parse_i32("1 2"), None);
    assert_eq!(shell::text_ext::parse_i32("4e3"), None);
    assert_eq!(shell::text_ext::parse_i32("2147483648"), None);
    assert_eq!(shell::text_ext::parse_i32("-2147483649"), None);
    assert_eq!(shell::text_ext::parse_i32("-2147483648"), Some(i32::MIN));
}

#[test]
fn alpha_covers_letters_and_underscore() {
    assert!('a'.is_alpha());
    assert!('Z'.is_alpha());
    assert!('_'.is_alpha());
    assert!(!'0'.is_alpha());
    assert!(!'-'.is_alpha());
}

#[test]
fn alpha_numeric_adds_the_digits() {
    assert!('7'.is_alpha_numeric());
    assert!('q'.is_alpha_numeric());
    assert!(!'.'.is_alpha_numeric());
}
