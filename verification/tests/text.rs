use be_core::text::{bytes_of, char_utf8_len, push_decimal, trim_chars, white_space};

#[test]
fn decimal_digits() {
    let mut buf = b"n=".to_vec();
    push_decimal(&mut buf, 1234);
    assert_eq!(buf, b"n=1234".to_vec());
    let mut zero = vec![];
    push_decimal(&mut zero, 0);
    assert_eq!(zero, b"0".to_vec());
}

#[test]
fn utf8_bytes() {
    assert_eq!(bytes_of("aé"), vec![b'a', 0xc3, 0xa9]);
    assert_eq!(char_utf8_len('a'), 1);
    assert_eq!(char_utf8_len('é'), 2);
    assert_eq!(char_utf8_len('€'), 3);
    assert_eq!(char_utf8_len('😀'), 4);
}

#[test]
fn trimming_white_space() {
    let s: Vec<char> = " \t tab\u{3000}x \n".chars().collect();
    let t: String = trim_chars(&s).into_iter().collect();
    assert_eq!(t, "tab\u{3000}x");
    assert!(white_space('\u{3000}'));
    assert!(!white_space('x'));
    let empty: Vec<char> = "   ".chars().collect();
    assert!(trim_chars(&empty).is_empty());
}
