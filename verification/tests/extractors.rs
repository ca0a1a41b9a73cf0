use exchange_rates::rates::Rate;
use exchange_rates::html_extract::{
    extract_monthly, extract_yearly, monthly_from_blocks, yearly_from_rows,
};

fn rows(cells: &[&[&str]]) -> Vec<Vec<String>> {
    cells.iter().map(|row| row.iter().map(|c| c.to_string()).collect()).collect()
}

#[test]
fn yearly_three_labeled_rows() {
    let r = yearly_from_rows(&rows(&[
        &["Highest", "1.25 USD"],
        &["Lowest", "1.10 USD"],
        &["Average", "1.18 USD"],
    ]));
    assert_eq!(r.best, Rate { micros: 1_250_000 });
    assert_eq!(r.worst, Rate { micros: 1_100_000 });
    assert_eq!(r.average, Rate { micros: 1_180_000 });
}

#[test]
fn yearly_no_matching_rows_is_all_zero() {
    let r = yearly_from_rows(&rows(&[&["Median", "1.25 USD"], &["Open", "1.10 USD"]]));
    assert_eq!(r.best, Rate { micros: 0 });
    assert_eq!(r.worst, Rate { micros: 0 });
    assert_eq!(r.average, Rate { micros: 0 });
}

#[test]
fn yearly_last_matching_row_wins() {
    let r = yearly_from_rows(&rows(&[&["Highest", "1.25 USD"], &["highest ever", "2.50 USD"]]));
    assert_eq!(r.best, Rate { micros: 2_500_000 });
}

#[test]
fn yearly_unparsable_value_keeps_earlier_row() {
    let r = yearly_from_rows(&rows(&[&["Highest", "1.25 USD"], &["Highest", "N/A"]]));
    assert_eq!(r.best, Rate { micros: 1_250_000 });
}

#[test]
fn yearly_through_scraper_document() {
    let html = "<html><body><table class=\"history-rate-summary\">\
        <tr><td>Highest</td><td>1.25 USD</td></tr>\
        <tr><td>Lowest</td><td>1.10 USD</td></tr>\
        <tr><td>Average</td><td>1.18 USD</td></tr>\
        </table></body></html>";
    let r = extract_yearly(html);
    assert_eq!(r.best, Rate { micros: 1_250_000 });
    assert_eq!(r.worst, Rate { micros: 1_100_000 });
    assert_eq!(r.average, Rate { micros: 1_180_000 });
}

fn footer_doc(spans: &[&str]) -> String {
    let inner: String = spans
        .iter()
        .map(|s| format!("<span class=\"nowrap\">{}</span>", s))
        .collect::<Vec<String>>()
        .join(" ");
    format!(
        "<html><body><table><tr><td class=\"month-footer\">March 2023 {}</td></tr></table></body></html>",
        inner
    )
}

#[test]
fn monthly_exactly_three_values() {
    let html = footer_doc(&["1 USD = 0.91 EUR", "1 USD = 0.95 EUR", "1 USD = 0.93 EUR"]);
    let r = extract_monthly(&html, "March").unwrap();
    assert_eq!(r.worst, Rate { micros: 910_000 });
    assert_eq!(r.best, Rate { micros: 950_000 });
    assert_eq!(r.average, Rate { micros: 930_000 });
}

#[test]
fn monthly_zero_one_two_or_four_values_is_none() {
    assert!(extract_monthly(&footer_doc(&[]), "March").is_none());
    assert!(extract_monthly(&footer_doc(&["1 USD = 0.91 EUR"]), "March").is_none());
    assert!(
        extract_monthly(&footer_doc(&["1 USD = 0.91 EUR", "1 USD = 0.95 EUR"]), "March").is_none()
    );
    assert!(extract_monthly(
        &footer_doc(&[
            "1 USD = 0.91 EUR",
            "1 USD = 0.95 EUR",
            "1 USD = 0.93 EUR",
            "1 USD = 0.92 EUR"
        ]),
        "March"
    )
    .is_none());
}

#[test]
fn monthly_other_month_is_none() {
    let html = footer_doc(&["1 USD = 0.91 EUR", "1 USD = 0.95 EUR", "1 USD = 0.93 EUR"]);
    assert!(extract_monthly(&html, "April").is_none());
}

#[test]
fn monthly_span_without_equals_is_skipped() {
    let blocks = vec![
        "March <span class=\"nowrap\">1 USD = 0.91 EUR</span>\
         <span class=\"nowrap\">no value here</span>\
         <span class=\"nowrap\">1 USD = 0.95 EUR</span>\
         <span class=\"nowrap\">1 USD = 0.93 EUR</span>"
            .to_string(),
    ];
    let r = monthly_from_blocks(&blocks, "March").unwrap();
    assert_eq!(r.worst, Rate { micros: 910_000 });
    assert_eq!(r.best, Rate { micros: 950_000 });
    assert_eq!(r.average, Rate { micros: 930_000 });
}

#[test]
fn monthly_scanning_continues_past_rejected_block() {
    let blocks = vec![
        "March <span class=\"nowrap\">x = 1</span>".to_string(),
        "March <span class=\"nowrap\">a = 0.91</span>\
         <span class=\"nowrap\">b = 0.95</span>\
         <span class=\"nowrap\">c = 0.93</span>"
            .to_string(),
    ];
    let r = monthly_from_blocks(&blocks, "March").unwrap();
    assert_eq!(r.worst, Rate { micros: 910_000 });
}
