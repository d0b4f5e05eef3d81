use tinc_rs::text::{find_char_from, parse_unsigned, same_text, trim_text};

#[test]
fn trims_unicode_white_space() {
    assert_eq!(trim_text(" \t a b \u{3000}\r"), "a b");
    assert_eq!(trim_text("   "), "");
    assert_eq!(trim_text("x"), "x");
}

#[test]
fn reads_unsigned_numbers_like_std() {
    for s in ["0", "7", "+12", "255", "256", "", "+", "-1", "1a", " 1", "0000255", "99999999999"] {
        assert_eq!(parse_unsigned(s, 255), s.parse::<u8>().ok().map(u32::from), "{}", s);
        assert_eq!(parse_unsigned(s, 65535), s.parse::<u16>().ok().map(u32::from), "{}", s);
    }
}

#[test]
fn finds_and_compares() {
    assert_eq!(find_char_from("a=b=c", '=', 0), 1);
    assert_eq!(find_char_from("a=b=c", '=', 2), 3);
    assert_eq!(find_char_from("abc", '=', 0), 3);
    assert!(same_text("héllo", "héllo"));
    assert!(!same_text("hello", "hellO"));
    assert!(!same_text("hell", "hello"));
}
