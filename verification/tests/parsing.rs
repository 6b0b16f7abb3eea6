//! Fixed-point parsing and formatting, and book-ticker field extraction.

use lithos::fixed::{
    format_fixed_dp, parse_fixed_dp, parse_fixed_dp_bytes, parse_fixed_dp_checked, parse_px_2dp,
    parse_qty_3dp, pow10,
};
use lithos::ticker::parse_binance_book_ticker_fast;

#[test]
fn parses_fixed_point_decimals() {
    assert_eq!(parse_fixed_dp("123.45", 2), 12345);
    assert_eq!(parse_fixed_dp("-0.5", 2), -50);
    assert_eq!(parse_fixed_dp("12.3", 3), 12300);
    assert_eq!(parse_fixed_dp("7", 2), 700);
}

#[test]
fn parses_px_and_qty_scales() {
    assert_eq!(parse_px_2dp("123.45"), 12345);
    assert_eq!(parse_qty_3dp("12.345"), 12345);
    assert_eq!(parse_px_2dp("0.5"), 50);
    assert_eq!(parse_qty_3dp("0.5"), 500);
}

#[test]
fn truncates_extra_fractional_digits() {
    assert_eq!(parse_fixed_dp("1.2399", 2), 123);
    assert_eq!(parse_fixed_dp("-1.2399", 2), -123);
    assert_eq!(parse_fixed_dp("0.0009", 3), 0);
}

#[test]
fn pow10_small_values() {
    assert_eq!(pow10(0), 1);
    assert_eq!(pow10(2), 100);
    assert_eq!(pow10(3), 1000);
    assert_eq!(pow10(18), 1_000_000_000_000_000_000);
}

#[test]
fn format_then_parse_round_trips() {
    for &x in &[0i64, 1, -1, 7, -50, 12345, -12345, 999_999_999_999, i64::MAX, i64::MIN + 1] {
        for &dp in &[0u32, 2, 3] {
            let text = format_fixed_dp(x, dp);
            assert_eq!(parse_fixed_dp_bytes(text.as_slice(), dp), x);
        }
    }
    assert_eq!(format_fixed_dp(-12345, 2), b"-123.45".to_vec());
    assert_eq!(format_fixed_dp(700, 2), b"7.00".to_vec());
    assert_eq!(format_fixed_dp(0, 3), b"0.000".to_vec());
    assert_eq!(format_fixed_dp(5, 0), b"5".to_vec());
}

#[test]
fn checked_parse_rejects_out_of_grammar_and_oversized_inputs() {
    assert_eq!(parse_fixed_dp_checked(b"123.45", 2), Some(12345));
    assert_eq!(parse_fixed_dp_checked(b"", 2), None);
    assert_eq!(parse_fixed_dp_checked(b"-", 2), None);
    assert_eq!(parse_fixed_dp_checked(b"12a.4", 2), None);
    assert_eq!(parse_fixed_dp_checked(b"1.2.3", 2), None);
    assert_eq!(parse_fixed_dp_checked(b"12345678901234567", 2), None);
    assert_eq!(parse_fixed_dp_checked(b"1234567890123456", 2), Some(123456789012345600));
}

#[test]
fn parses_standard_book_ticker_payload() {
    let msg = r#"{"u":123,"s":"BTCUSDT","b":"12345.67","B":"0.123","a":"12345.68","A":"0.456"}"#;
    let parsed = parse_binance_book_ticker_fast(msg).expect("parser should succeed");
    assert_eq!(parsed.b, b"12345.67".to_vec());
    assert_eq!(parsed.b_qty, b"0.123".to_vec());
    assert_eq!(parsed.a, b"12345.68".to_vec());
    assert_eq!(parsed.a_qty, b"0.456".to_vec());
}

#[test]
fn parses_even_when_field_order_changes() {
    let msg = r#"{"s":"BTCUSDT","a":"12345.68","A":"0.456","u":123,"b":"12345.67","B":"0.123"}"#;
    let parsed = parse_binance_book_ticker_fast(msg).expect("parser should succeed");
    assert_eq!(parsed.b, b"12345.67".to_vec());
    assert_eq!(parsed.b_qty, b"0.123".to_vec());
    assert_eq!(parsed.a, b"12345.68".to_vec());
    assert_eq!(parsed.a_qty, b"0.456".to_vec());
}

#[test]
fn returns_none_for_missing_fields() {
    let msg = r#"{"u":123,"s":"BTCUSDT","b":"1.0","a":"2.0"}"#;
    assert!(parse_binance_book_ticker_fast(msg).is_none());
}

#[test]
fn first_sighting_of_a_key_wins() {
    let msg = r#"{"b":"1.00","b":"9.99","B":"0.5","a":"1.01","A":"0.6"}"#;
    let parsed = parse_binance_book_ticker_fast(msg).expect("parser should succeed");
    assert_eq!(parsed.b, b"1.00".to_vec());
}
