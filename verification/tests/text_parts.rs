use true_cyber::text::{chars_of, parse_i8, parse_u64, same_text};

#[test]
fn parse_u64_like_std() {
    for s in ["0", "+7", "18446744073709551615", "18446744073709551616", "", "+", "-1", " 1", "1a", "007"] {
        assert_eq!(parse_u64(s), s.parse::<u64>().ok(), "{s}");
    }
}

#[test]
fn parse_i8_like_std() {
    for s in ["0", "-0", "+5", "127", "128", "-128", "-129", "-", "+", "", "--1", "1-"] {
        assert_eq!(parse_i8(s), s.parse::<i8>().ok(), "{s}");
    }
}

#[test]
fn chars_and_text_equality() {
    assert_eq!(chars_of("aé"), vec!['a', 'é']);
    assert!(same_text("abc", "abc"));
    assert!(!same_text("abc", "abd"));
}
