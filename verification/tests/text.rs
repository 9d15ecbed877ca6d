use tpk_whisper::text::{
    chars_of, is_blank_str, is_white_char, join_chars, same_chars, split_chars,
    split_whitespace_str, string_of, strip_trailing_str, trim_str,
};

#[test]
fn whitespace_matches_std() {
    for u in 0u32..=0x10FFFF {
        if let Some(c) = char::from_u32(u) {
            assert_eq!(is_white_char(c), c.is_whitespace(), "U+{:04X}", u);
        }
    }
}

#[test]
fn trim_like_std() {
    for s in ["", "  ", " a ", "\u{3000}key\u{a0}\n", "a b", "\t\r\nx y\u{2028}", "ü "] {
        assert_eq!(trim_str(s), s.trim());
        assert_eq!(is_blank_str(s), s.trim().is_empty());
    }
}

#[test]
fn trim_twice_is_trim_once() {
    let s = "  \u{2003}hello world \t";
    assert_eq!(trim_str(&trim_str(s)), trim_str(s));
}

#[test]
fn split_whitespace_like_std() {
    for s in ["", "   ", "uv run  --python 3.10", " a\tb\nc ", "x\u{3000}y", "single"] {
        let ours = split_whitespace_str(s);
        let std: Vec<String> = s.split_whitespace().map(String::from).collect();
        assert_eq!(ours, std);
    }
}

#[test]
fn strip_trailing_like_trim_end_matches() {
    for s in ["", "/", "https://x/v1/", "a//", "a/b"] {
        assert_eq!(strip_trailing_str(s, '/'), s.trim_end_matches('/'));
    }
}

#[test]
fn split_and_join_like_std() {
    for s in ["", ":", "a::b:", "/usr/bin:/bin"] {
        let parts = split_chars(s, ':');
        let std: Vec<Vec<char>> = s.split(':').map(|p| p.chars().collect()).collect();
        assert_eq!(parts, std);
        assert_eq!(join_chars(&parts, ':'), s);
    }
}

#[test]
fn chars_round_trip() {
    let v = chars_of("héllo");
    assert_eq!(v, vec!['h', 'é', 'l', 'l', 'o']);
    assert_eq!(string_of(&v), "héllo");
    assert!(same_chars(&v, &chars_of("héllo")));
    assert!(!same_chars(&v, &chars_of("hello")));
    assert!(!same_chars(&v, &chars_of("héll")));
}
