use exchange_rates::currency::{
    currencies_from_html, current_rate_from_response, parse_currency_option,
};

#[test]
fn currency_option_pattern() {
    let ci = parse_currency_option("US Dollar (usd)").unwrap();
    assert_eq!(ci.name, "US Dollar");
    assert_eq!(ci.code, "USD");
}

#[test]
fn currency_option_trims_name() {
    let ci = parse_currency_option("  Euro   (EUR)").unwrap();
    assert_eq!(ci.name, "Euro");
    assert_eq!(ci.code, "EUR");
}

#[test]
fn currency_option_without_code_is_skipped() {
    assert!(parse_currency_option("US Dollar").is_none());
    assert!(parse_currency_option("(USD)").is_none());
    assert!(parse_currency_option("US Dollar (U S)").is_none());
    assert!(parse_currency_option("US Dollar ()").is_none());
}

#[test]
fn currency_list_through_scraper_document() {
    let html = "<html><body><select id=\"currencyList\">\
        <option>US Dollar (USD)</option>\
        <option>Euro (EUR)</option>\
        <option>malformed entry</option>\
        </select></body></html>";
    let list = currencies_from_html(html);
    assert_eq!(list.len(), 2);
    assert_eq!(list[0].name, "US Dollar");
    assert_eq!(list[0].code, "USD");
    assert_eq!(list[1].name, "Euro");
    assert_eq!(list[1].code, "EUR");
}

#[test]
fn current_rate_error_message_is_surfaced() {
    let r = current_rate_from_response(
        "usd",
        "eur",
        Some("1.08".to_string()),
        Some("2023-03-15T00:00:00Z".to_string()),
        Some("pair not supported".to_string()),
    );
    assert_eq!(r, Err("pair not supported".to_string()));
}

#[test]
fn current_rate_defaults_and_uppercasing() {
    let r = current_rate_from_response("usd", "eur", None, None, None).unwrap();
    assert_eq!(r.rate, "0");
    assert_eq!(r.date, "");
    assert_eq!(r.from, "USD");
    assert_eq!(r.to, "EUR");
}

#[test]
fn current_rate_carries_payload_through() {
    let r = current_rate_from_response(
        "usd",
        "eur",
        Some("1.0852".to_string()),
        Some("2023-03-15T00:00:00Z".to_string()),
        None,
    )
    .unwrap();
    assert_eq!(r.rate, "1.0852");
    assert_eq!(r.date, "2023-03-15T00:00:00Z");
}
