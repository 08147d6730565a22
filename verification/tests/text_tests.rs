use workbindr::chat::conversation_key;
use workbindr::text::{byte_prefix, contains_text, decimal_string, text_eq, text_lt, trim};

#[test]
fn decimal_renders_like_format() {
    assert_eq!(decimal_string(0), "0");
    assert_eq!(decimal_string(7), "7");
    assert_eq!(decimal_string(10), "10");
    assert_eq!(decimal_string(1712345678901), "1712345678901");
    assert_eq!(decimal_string(u128::MAX), format!("{}", u128::MAX));
}

#[test]
fn conversation_key_is_order_independent() {
    assert_eq!(conversation_key("0001", "0002"), "0001_0002");
    assert_eq!(conversation_key("0002", "0001"), "0001_0002");
    assert_eq!(conversation_key("0003", "0003"), "0003_0003");
    assert_eq!(conversation_key("b", "ab"), "ab_b");
    assert_eq!(conversation_key("0007", "0010"), conversation_key("0010", "0007"));
}

#[test]
fn ordering_follows_str_order() {
    let words = ["", "a", "ab", "b", "Z", "é", "0001", "0010", "00010"];
    for x in words.iter() {
        for y in words.iter() {
            assert_eq!(text_lt(x, y), x < y, "{} < {}", x, y);
            assert_eq!(text_eq(x, y), x == y);
        }
    }
}

#[test]
fn trim_matches_std() {
    let samples = ["", "   ", "  hi  ", "\t\nhello world\r\n", "\u{3000}x\u{2003}", "a", " a b "];
    for s in samples.iter() {
        assert_eq!(trim(s), s.trim());
    }
}

#[test]
fn contains_matches_std() {
    let hay = "[12] EVENT: UserInput | query_id: id_12 | text: hi";
    assert!(contains_text(hay, "EVENT: UserInput"));
    assert!(!contains_text(hay, "EVENT: MessageSent"));
    assert!(contains_text(hay, ""));
    assert!(!contains_text("", "x"));
    assert!(contains_text("abc", "abc"));
    assert!(!contains_text("ab", "abc"));
}

#[test]
fn byte_prefix_cuts_bytes() {
    assert_eq!(byte_prefix("hello", 3), "hel");
    assert_eq!(byte_prefix("hi", 50), "hi");
    assert_eq!(byte_prefix("héllo", 3), "hé");
}
