use lib::text::{bytes_eq, find_char, is_whitespace, push_bytes, push_decimal, push_str, trim, utf8_str};

#[test]
fn bytes_that_are_text() {
    assert_eq!(utf8_str(b"abc"), Some("abc"));
    assert_eq!(utf8_str("é".as_bytes()), Some("é"));
    assert_eq!(utf8_str(&[0xc3]), None);
    assert_eq!(utf8_str(&[b'a', 0xff]), None);
    assert_eq!(utf8_str(b""), Some(""));
}

#[test]
fn trimming_white_space() {
    assert_eq!(trim("  a b \t\n"), "a b");
    assert_eq!(trim("\u{3000}x\u{a0}"), "x");
    assert_eq!(trim("   "), "");
    assert_eq!(trim(""), "");
    assert!(is_whitespace('\u{2028}'));
    assert!(!is_whitespace('\u{200b}'));
    assert!(!is_whitespace('x'));
}

#[test]
fn finding_a_character() {
    assert_eq!(find_char("ab>c>", '>'), Some(2));
    assert_eq!(find_char("é>", '>'), Some(1));
    assert_eq!(find_char("abc", '>'), None);
}

#[test]
fn building_byte_strings() {
    let mut out = Vec::new();
    push_decimal(&mut out, 0);
    push_str(&mut out, " ");
    push_decimal(&mut out, 1234567890);
    push_bytes(&mut out, b"!");
    assert_eq!(out, b"0 1234567890!".to_vec());
    let mut big = Vec::new();
    push_decimal(&mut big, u64::MAX);
    assert_eq!(big, u64::MAX.to_string().into_bytes());
    assert!(bytes_eq(b"ab", b"ab"));
    assert!(!bytes_eq(b"ab", b"abc"));
    assert!(!bytes_eq(b"ab", b"ac"));
}
