use hyperpuzzle::text::{parse_i64, str_equal, str_less};

#[test]
fn parse_i64_like_std() {
    for s in ["0", "7", "-7", "+7", "007", "9223372036854775807", "-9223372036854775808"] {
        assert_eq!(parse_i64(s), s.parse::<i64>().ok(), "{s}");
    }
    for s in ["", "-", "+", "1a", " 1", "9223372036854775808", "-9223372036854775809", "--1", "99999999999999999999999"] {
        assert_eq!(parse_i64(s), None, "{s}");
        assert!(s.parse::<i64>().is_err());
    }
}

#[test]
fn string_comparisons() {
    assert!(str_equal("abc", "abc"));
    assert!(!str_equal("abc", "abd"));
    assert!(!str_equal("ab", "abc"));
    assert!(str_less("ab", "abc"));
    assert!(str_less("abc", "abd"));
    assert!(!str_less("abd", "abc"));
    assert!(!str_less("abc", "abc"));
    assert!(str_less("", "a"));
    assert!(str_less("Z", "a"));
}
