use datt::text::{chars_of, contains, cut_at_last, parse_usize, to_decimal, to_padded};

#[test]
fn to_decimal_writes_shortest_numeral() {
    assert_eq!(to_decimal(0), "0");
    assert_eq!(to_decimal(7), "7");
    assert_eq!(to_decimal(10), "10");
    assert_eq!(to_decimal(1234567890), "1234567890");
    assert_eq!(to_decimal(usize::MAX), usize::MAX.to_string());
}

#[test]
fn to_padded_fills_with_zeros() {
    assert_eq!(to_padded(5, 3), "005");
    assert_eq!(to_padded(0, 1), "0");
    assert_eq!(to_padded(0, 0), "0");
    assert_eq!(to_padded(1234, 3), "1234");
    assert_eq!(to_padded(12, 8), format!("{:08}", 12));
}

#[test]
fn parse_usize_reads_decimal_numerals() {
    assert_eq!(parse_usize("0"), Some(0));
    assert_eq!(parse_usize("00000042"), Some(42));
    assert_eq!(parse_usize("+17"), Some(17));
    assert_eq!(parse_usize(&usize::MAX.to_string()), Some(usize::MAX));
}

#[test]
fn parse_usize_refuses_what_is_no_numeral() {
    assert_eq!(parse_usize(""), None);
    assert_eq!(parse_usize("+"), None);
    assert_eq!(parse_usize("-1"), None);
    assert_eq!(parse_usize("++1"), None);
    assert_eq!(parse_usize("12a"), None);
    assert_eq!(parse_usize(" 12"), None);
    assert_eq!(parse_usize("1.5"), None);
    assert_eq!(parse_usize("seg"), None);
}

#[test]
fn parse_usize_refuses_what_does_not_fit() {
    let mut too_big = usize::MAX.to_string();
    too_big.push('0');
    assert_eq!(parse_usize(&too_big), None);
    assert_eq!(parse_usize("18446744073709551616"), "18446744073709551616".parse::<usize>().ok());
    assert_eq!(parse_usize("99999999999999999999999999"), None);
}

#[test]
fn parse_usize_agrees_with_std() {
    for text in ["", "0", "007", "+", "+0", "-0", "12", "1 2", "٣", "4294967296", "x"] {
        assert_eq!(parse_usize(text), text.parse::<usize>().ok(), "{:?}", text);
    }
}

#[test]
fn contains_finds_a_pattern_anywhere() {
    assert!(contains("<h1>Page not found</h1>", "Page not found"));
    assert!(contains("Page not found", "Page not found"));
    assert!(contains("abc", ""));
    assert!(contains("", ""));
    assert!(contains("aab", "ab"));
    assert!(!contains("Page not foun", "Page not found"));
    assert!(!contains("", "a"));
    assert!(!contains("page not found", "Page not found"));
}

#[test]
fn cut_at_last_drops_from_the_last_mark() {
    assert_eq!(cut_at_last("a-b-c", '-'), "a-b");
    assert_eq!(cut_at_last("abc", '-'), "");
    assert_eq!(cut_at_last("", '-'), "");
    assert_eq!(cut_at_last("a-", '-'), "a");
    assert_eq!(cut_at_last("-", '-'), "");
    assert_eq!(cut_at_last("é-ü-ß", '-'), "é-ü");
}

#[test]
fn chars_of_gives_every_character() {
    assert_eq!(chars_of("aé-"), vec!['a', 'é', '-']);
    assert_eq!(chars_of(""), Vec::<char>::new());
}
