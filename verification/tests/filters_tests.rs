use solvency::filters::{format_money, format_money_neutral, format_money_plain, symbol_for_code};

#[test]
fn test_positive_amount() {
    let result = format_money_plain(12345, "USD", "en-US");
    assert_eq!(result, "+$123.45");
}

#[test]
fn test_negative_amount() {
    let result = format_money_plain(-12345, "USD", "en-US");
    assert_eq!(result, "-$123.45");
}

#[test]
fn test_zero_amount() {
    let result = format_money_plain(0, "USD", "en-US");
    assert_eq!(result, "$0.00");
}

#[test]
fn test_thousands_separator_en() {
    let result = format_money_plain(123456789, "USD", "en-US");
    assert_eq!(result, "+$1,234,567.89");
}

#[test]
fn test_thousands_separator_de() {
    let result = format_money_plain(123456789, "EUR", "de-DE");
    assert_eq!(result, "+\u{20ac}1.234.567,89");
}

#[test]
fn test_color_class_positive() {
    let result = format_money(100, "USD", "en-US");
    assert!(result.contains("text-green-600"));
}

#[test]
fn test_color_class_negative() {
    let result = format_money(-100, "USD", "en-US");
    assert!(result.contains("text-red-600"));
}

#[test]
fn test_color_class_zero() {
    let result = format_money(0, "USD", "en-US");
    assert!(result.contains("text-gray-900"));
}

#[test]
fn test_neutral_no_sign() {
    let result = format_money_neutral(12345, "USD", "en-US");
    assert_eq!(result, "$123.45");
}

#[test]
fn test_neutral_thousands_separator_en() {
    let result = format_money_neutral(123456789, "USD", "en-US");
    assert_eq!(result, "$1,234,567.89");
}

#[test]
fn test_neutral_thousands_separator_de() {
    let result = format_money_neutral(123456789, "EUR", "de-DE");
    assert_eq!(result, "\u{20ac}1.234.567,89");
}

#[test]
fn html_wraps_plain_text_in_colored_span() {
    assert_eq!(
        format_money(-250, "GBP", "en-GB"),
        "<span class=\"text-red-600 dark:text-red-400\">-\u{00a3}2.50</span>"
    );
}

#[test]
fn lower_case_currency_code_is_upper_cased_first() {
    assert_eq!(format_money_neutral(100, "eur", "en-US"), "\u{20ac}1.00");
    assert_eq!(format_money_neutral(100, "chf", "de-CH"), "CHF\u{00a0}1,00");
}

#[test]
fn unknown_currency_falls_back_to_dollar() {
    assert_eq!(format_money_neutral(5, "XYZ", "en-US"), "$0.05");
    assert_eq!(symbol_for_code("usd"), "$");
    assert_eq!(symbol_for_code("THB"), "\u{0e3f}");
}

#[test]
fn neutral_ignores_sign_and_groups_exact_thousands() {
    assert_eq!(format_money_neutral(-100000, "USD", "en-US"), "$1,000.00");
    assert_eq!(format_money_neutral(99999, "USD", "en-US"), "$999.99");
    assert_eq!(format_money_neutral(i64::MAX, "USD", "fr-FR"), "$92.233.720.368.547.758,07");
}

#[test]
fn law_grouping_removal_gives_digits() {
    let s = format_money_neutral(100000001, "USD", "en-US");
    let digits: String = s.chars().filter(|c| *c != ',' && *c != '$' && *c != '.').collect();
    assert_eq!(digits, "100000001");
}
