use ritual::frames::{check_frame_range, parse_i32};

fn chars(s: &str) -> Vec<char> {
    s.chars().collect()
}

#[test]
fn parse_i32_reads_plain_and_signed_numbers() {
    assert_eq!(parse_i32(&chars("12")), Some(12));
    assert_eq!(parse_i32(&chars("+7")), Some(7));
    assert_eq!(parse_i32(&chars("-5")), Some(-5));
    assert_eq!(parse_i32(&chars("007")), Some(7));
}

#[test]
fn parse_i32_refuses_what_str_parse_refuses() {
    for text in ["", "+", "-", "1a", "*", " 1", "1 ", "--1", "+-1", "٣"] {
        assert_eq!(parse_i32(&chars(text)), None, "{:?}", text);
        assert_eq!(parse_i32(&chars(text)), text.parse::<i32>().ok(), "{:?}", text);
    }
}

#[test]
fn parse_i32_keeps_to_the_i32_range() {
    assert_eq!(parse_i32(&chars("2147483647")), Some(i32::MAX));
    assert_eq!(parse_i32(&chars("2147483648")), None);
    assert_eq!(parse_i32(&chars("-2147483648")), Some(i32::MIN));
    assert_eq!(parse_i32(&chars("-2147483649")), None);
    assert_eq!(parse_i32(&chars("99999999999999999999999")), None);
}

#[test]
fn parse_i32_agrees_with_str_parse() {
    for text in ["0", "-0", "+0", "42", "-42", "123456789", "2147483647", "2147483648", "x1", "1x", "-"] {
        assert_eq!(parse_i32(&chars(text)), text.parse::<i32>().ok(), "{:?}", text);
    }
}

#[test]
fn full_range_fits_every_frame_count() {
    for count in [1, 5, 1000] {
        assert!(check_frame_range("0-*", count));
    }
}

#[test]
fn no_range_fits_an_action_without_frames() {
    for range in ["0-*", "0-0", "x-y", "+0-1", "-"] {
        assert!(!check_frame_range(range, 0), "{:?}", range);
    }
}

#[test]
fn range_ends_are_indices_below_the_frame_count() {
    assert!(!check_frame_range("2-*", 2));
    assert!(check_frame_range("2-*", 3));
    assert!(!check_frame_range("0-2", 2));
    assert!(check_frame_range("0-1", 2));
}

#[test]
fn bounded_range_must_fit_the_frames() {
    assert!(check_frame_range("2-10", 11));
    assert!(!check_frame_range("2-10", 10));
    assert!(!check_frame_range("3-2", 3));
    assert!(check_frame_range("3-2", 4));
}

#[test]
fn range_needs_exactly_one_dash() {
    assert!(!check_frame_range("1-2-3", 10));
    assert!(!check_frame_range("5", 10));
    assert!(!check_frame_range("", 10));
    assert!(!check_frame_range("--", 10));
}

#[test]
fn unreadable_range_ends_are_defaults() {
    // An unreadable start counts as 0, an unreadable end as "to the last".
    assert!(check_frame_range("x-y", 1));
    assert!(!check_frame_range("x-y", 0));
    assert!(check_frame_range("-1", 2));
    assert!(!check_frame_range("-1", 1));
    // An end of 0 or below sets no bound.
    assert!(check_frame_range("5-0", 6));
    assert!(!check_frame_range("6-0", 6));
}
