use redlimit::text::{chars_of, contains, parse_decimal};

#[test]
fn parse_decimal_reads_numbers() {
    assert_eq!(Some(0), parse_decimal("0"));
    assert_eq!(Some(7), parse_decimal("007"));
    assert_eq!(Some(1700000000123), parse_decimal("1700000000123"));
    assert_eq!(Some(42), parse_decimal("+42"));
    assert_eq!(Some(u64::MAX), parse_decimal("18446744073709551615"));
}

#[test]
fn parse_decimal_refuses_the_rest() {
    assert_eq!(None, parse_decimal(""));
    assert_eq!(None, parse_decimal("+"));
    assert_eq!(None, parse_decimal("-1"));
    assert_eq!(None, parse_decimal("++1"));
    assert_eq!(None, parse_decimal("1+"));
    assert_eq!(None, parse_decimal(" 1"));
    assert_eq!(None, parse_decimal("1 "));
    assert_eq!(None, parse_decimal("12a"));
    assert_eq!(None, parse_decimal("1.5"));
    assert_eq!(None, parse_decimal("1e3"));
    assert_eq!(None, parse_decimal("١٢"));
    assert_eq!(None, parse_decimal("18446744073709551616"));
    assert_eq!(None, parse_decimal("99999999999999999999999"));
}

#[test]
fn parse_decimal_agrees_with_std() {
    for text in [
        "", "0", "+0", "+", "-0", "10", "0010", "18446744073709551615",
        "18446744073709551616", "28446744073709551615", "x", "1x", "+1+",
    ] {
        assert_eq!(text.parse::<u64>().ok(), parse_decimal(text), "{:?}", text);
    }
}

#[test]
fn contains_finds_substrings() {
    assert!(contains("ERR Function not found", "Function not found"));
    assert!(contains("Function not found", "Function not found"));
    assert!(contains("abc", ""));
    assert!(contains("", ""));
    assert!(contains("abc", "c"));
    assert!(contains("aab", "ab"));
    assert!(contains("héllo wörld", "o wö"));
    assert!(!contains("", "a"));
    assert!(!contains("abc", "abcd"));
    assert!(!contains("abc", "ac"));
    assert!(!contains("function not found", "Function not found"));
}

#[test]
fn chars_of_lists_characters() {
    assert_eq!(vec!['a', 'é', '1'], chars_of("aé1"));
    assert!(chars_of("").is_empty());
}
