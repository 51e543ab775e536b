use expr_asm::decimal::{decimal_string, parse_i64};

#[test]
fn numerals_are_read() {
    assert_eq!(parse_i64("0"), Some(0));
    assert_eq!(parse_i64("7"), Some(7));
    assert_eq!(parse_i64("42"), Some(42));
    assert_eq!(parse_i64("1234567890"), Some(1234567890));
    assert_eq!(parse_i64("0042"), Some(42));
}

#[test]
fn signs_are_read() {
    assert_eq!(parse_i64("+42"), Some(42));
    assert_eq!(parse_i64("-42"), Some(-42));
    assert_eq!(parse_i64("-0"), Some(0));
}

#[test]
fn bounds_are_read_and_not_passed() {
    assert_eq!(parse_i64("9223372036854775807"), Some(i64::MAX));
    assert_eq!(parse_i64("-9223372036854775808"), Some(i64::MIN));
    assert_eq!(parse_i64("9223372036854775808"), None);
    assert_eq!(parse_i64("-9223372036854775809"), None);
    assert_eq!(parse_i64("92233720368547758070"), None);
    assert_eq!(parse_i64("99999999999999999999999999"), None);
}

#[test]
fn other_text_is_not_read() {
    let texts = [
        "", "+", "-", "+-1", "--1", "1+", "1-1", " 1", "1 ", "1_000", "0x10", "1.5", "one", "１２",
    ];
    for text in texts {
        assert_eq!(parse_i64(text), None, "{:?}", text);
    }
}

#[test]
fn reading_agrees_with_the_standard_library() {
    let texts = [
        "", "0", "00", "5", "-5", "+5", "+", "-", "++5", "+-5", "-+5", "5-", "5+", "12a", "a12",
        " 12", "12 ", "1 2", "９", "٣", "9223372036854775807", "9223372036854775808",
        "-9223372036854775808", "-9223372036854775809", "+9223372036854775807",
        "000000000000000000009223372036854775807", "18446744073709551616", "1e3", "\u{0}",
    ];
    for text in texts {
        assert_eq!(parse_i64(text), text.parse::<i64>().ok(), "{:?}", text);
    }
    for n in -2000i64..2000 {
        let text = n.to_string();
        assert_eq!(parse_i64(&text), Some(n));
    }
}

#[test]
fn numbers_are_written() {
    assert_eq!(decimal_string(0), "0");
    assert_eq!(decimal_string(7), "7");
    assert_eq!(decimal_string(10), "10");
    assert_eq!(decimal_string(42), "42");
    assert_eq!(decimal_string(-1), "-1");
    assert_eq!(decimal_string(-120), "-120");
    assert_eq!(decimal_string(i64::MAX), "9223372036854775807");
    assert_eq!(decimal_string(i64::MIN), "-9223372036854775808");
}

#[test]
fn writing_agrees_with_the_standard_library() {
    for n in -2000i64..2000 {
        assert_eq!(decimal_string(n), n.to_string());
    }
    let mut n: i64 = 1;
    for _ in 0..62 {
        n *= 2;
        for m in [n - 1, n, n + 1, -n, 1 - n, -1 - n] {
            assert_eq!(decimal_string(m), m.to_string());
        }
    }
}

#[test]
fn written_numbers_read_back() {
    for n in [0, 1, -1, 9, 10, -10, 99, 100, 123456789, i64::MAX, i64::MIN, i64::MIN + 1] {
        assert_eq!(parse_i64(&decimal_string(n)), Some(n));
    }
}
