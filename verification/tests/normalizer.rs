use exchange_rates::rates::Rate;
use exchange_rates::text::{extract_rate, parse_rate_str};
use exchange_rates::dates::parse_year;

fn micros(m: u64) -> Rate {
    Rate { micros: m }
}

#[test]
fn normalizer_comma_grouped_number() {
    assert_eq!(extract_rate("1,234.56 USD"), Some(micros(1_234_560_000)));
}

#[test]
fn normalizer_no_numeric_token() {
    assert_eq!(extract_rate("N/A"), None);
}

#[test]
fn normalizer_first_match_wins() {
    assert_eq!(extract_rate("1.25 USD then 9.99 EUR"), Some(micros(1_250_000)));
}

#[test]
fn normalizer_skips_digitless_runs() {
    assert_eq!(extract_rate("a.b 1.25 USD"), Some(micros(1_250_000)));
}

#[test]
fn normalizer_two_points_is_unparsable() {
    assert_eq!(extract_rate("1.2.3 USD"), None);
}

#[test]
fn normalizer_leading_point() {
    assert_eq!(extract_rate(".5 USD"), Some(micros(500_000)));
}

#[test]
fn normalizer_empty_text() {
    assert_eq!(extract_rate(""), None);
}

#[test]
fn rate_string_whole_token_only() {
    assert_eq!(parse_rate_str("1.10"), Some(micros(1_100_000)));
    assert_eq!(parse_rate_str("abc"), None);
    assert_eq!(parse_rate_str("1.10 USD"), None);
}

#[test]
fn year_parsing() {
    assert_eq!(parse_year("2023"), Some(2023));
    assert_eq!(parse_year("+2023"), Some(2023));
    assert_eq!(parse_year("-5"), Some(-5));
    assert_eq!(parse_year("20x3"), None);
    assert_eq!(parse_year(""), None);
    assert_eq!(parse_year("99999999999999999999"), None);
}
