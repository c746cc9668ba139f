use pkgbuild::text::{
    bytes_are, bytes_eq, bytes_match_at, char_is_alnum, char_is_digit, chars_are, chars_eq,
    chars_match_at, chars_of, digit_to_char, empty_bytes, find_bytes, find_chars, push_chars,
    push_decimal, push_hex, push_text, rfind_chars, string_of, string_of_all,
};

fn chars(text: &str) -> Vec<char> {
    text.chars().collect()
}

#[test]
fn finds_the_first_and_the_last_occurrence() {
    let text = chars("a::b::c");
    assert_eq!(find_chars(&text, &chars("::")), Some(1));
    assert_eq!(rfind_chars(&text, &chars("::")), Some(4));
    assert_eq!(find_chars(&text, &chars("c")), Some(6));
    assert_eq!(find_chars(&text, &chars("d")), None);
    assert_eq!(rfind_chars(&text, &chars("d")), None);
    assert_eq!(find_chars(&text, &chars("a::b::cd")), None);
    assert_eq!(find_chars(&chars(":::"), &chars("::")), Some(0));
    assert_eq!(rfind_chars(&chars(":::"), &chars("::")), Some(1));
    assert_eq!(find_chars(&text, &chars("")), Some(0));
    assert_eq!(rfind_chars(&text, &chars("")), Some(7));
    assert_eq!(find_bytes(b"key:value:x", b":"), Some(3));
    assert_eq!(find_bytes(b"key", b":"), None);
}

#[test]
fn matches_at_an_offset() {
    let text = chars("r.git");
    assert!(chars_match_at(&text, &chars(".git"), 1));
    assert!(!chars_match_at(&text, &chars(".git"), 0));
    assert!(!chars_match_at(&text, &chars(".git"), 2));
    assert!(!chars_match_at(&text, &chars(".git"), 9));
    assert!(bytes_match_at(b"abc", b"bc", 1));
    assert!(!bytes_match_at(b"abc", b"bc", 2));
}

#[test]
fn compares_texts() {
    assert!(chars_eq(&chars("abc"), &chars("abc")));
    assert!(!chars_eq(&chars("abc"), &chars("abd")));
    assert!(!chars_eq(&chars("abc"), &chars("ab")));
    assert!(chars_are(&chars("git"), "git"));
    assert!(!chars_are(&chars("git"), "hg"));
    assert!(bytes_eq(b"END", b"END"));
    assert!(!bytes_eq(b"END", b"ENDE"));
    assert!(bytes_are(b"SKIP", "SKIP"));
    assert!(!bytes_are(b"skip", "SKIP"));
    assert!(empty_bytes().is_empty());
}

#[test]
fn builds_strings() {
    let text = chars("h\u{e9}llo");
    assert_eq!(chars_of("h\u{e9}llo"), text);
    assert_eq!(string_of(&text, 1, 3), "\u{e9}l");
    assert_eq!(string_of_all(&text), "h\u{e9}llo");
    let mut s = String::from("x");
    push_chars(&mut s, &text, 3, 5);
    push_text(&mut s, "!");
    assert_eq!(s, "xlo!");
}

#[test]
fn writes_numbers() {
    let mut s = String::new();
    push_decimal(&mut s, 0);
    s.push(' ');
    push_decimal(&mut s, 7);
    s.push(' ');
    push_decimal(&mut s, 3_456_789_012);
    s.push(' ');
    push_decimal(&mut s, u64::MAX);
    assert_eq!(s, "0 7 3456789012 18446744073709551615");
    let mut h = String::new();
    push_hex(&mut h, &[0x00, 0x0f, 0xa5, 0xff]);
    assert_eq!(h, "000fa5ff");
    assert_eq!(digit_to_char(11), 'b');
}

#[test]
fn tells_digits_and_letters() {
    assert!(char_is_digit('0') && char_is_digit('9'));
    assert!(!char_is_digit('a') && !char_is_digit('\u{663}'));
    assert!(char_is_alnum('z') && char_is_alnum('A') && char_is_alnum('5'));
    assert!(!char_is_alnum('.') && !char_is_alnum('\u{e9}') && !char_is_alnum('_'));
}
