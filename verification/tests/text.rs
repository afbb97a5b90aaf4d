use stepshot::text::{contains_str, i32_to_string};
use stepshot::text::{char_is_space, replace_str, trim_chars, usize_to_string};

#[test]
fn replace_like_str_replace() {
    assert_eq!(replace_str("aaa", "a", "b"), "bbb");
    assert_eq!(replace_str("aaaa", "aa", "a"), "aa");
    assert_eq!(replace_str("x{n}y{n}", "{n}", "12"), "x12y12");
    assert_eq!(replace_str("abc", "", "-"), "-a-b-c-");
    assert_eq!(replace_str("", "", "-"), "-");
    assert_eq!(replace_str("abc", "z", "-"), "abc");
}

#[test]
fn trim_and_whitespace() {
    let cs: Vec<char> = " \u{3000}a b\t\n".chars().collect();
    assert_eq!(trim_chars(&cs).into_iter().collect::<String>(), "a b");
    assert!(char_is_space('\u{a0}'));
    assert!(char_is_space('\u{85}'));
    assert!(!char_is_space('\u{200b}'));
    assert!(!char_is_space('x'));
}

#[test]
fn decimal_strings() {
    assert_eq!(usize_to_string(0), "0");
    assert_eq!(usize_to_string(12345), "12345");
    assert_eq!(usize_to_string(usize::MAX), usize::MAX.to_string());
}

#[test]
fn contains_and_signed_decimals() {
    assert!(contains_str("push button", "button"));
    assert!(contains_str("abc", ""));
    assert!(!contains_str("butto", "button"));
    assert!(!contains_str("", "a"));
    assert_eq!(i32_to_string(0), "0");
    assert_eq!(i32_to_string(-45), "-45");
    assert_eq!(i32_to_string(i32::MAX), "2147483647");
    assert_eq!(i32_to_string(i32::MIN), "-2147483648");
}
