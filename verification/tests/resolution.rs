use exchange_rates::rates::{HistoricalRates, Rate};
use exchange_rates::pipeline::{resolve_from_documents, primary_step, fallback_step, Resolution};

const SUMMARY_HTML: &str = "<html><body><table class=\"history-rate-summary\">\
    <tr><td>Highest</td><td>1.25 USD</td></tr>\
    <tr><td>Lowest</td><td>1.10 USD</td></tr>\
    <tr><td>Average</td><td>1.18 USD</td></tr>\
    </table></body></html>";

const MARCH_CSV: &[u8] =
    b"3/01/2023 00:00,0.91,x,y\n3/15/2023 00:00,0.95,x,y\n3/31/2023 00:00,0.93,x,y\n5/01/2023 00:00,9.90,x,y\n";

#[test]
fn end_to_end_fallback_scenario() {
    let r = resolve_from_documents(SUMMARY_HTML, MARCH_CSV, "2023", "March").unwrap();
    let yearly = r.yearly.unwrap();
    assert_eq!(yearly.best, Rate { micros: 1_250_000 });
    assert_eq!(yearly.worst, Rate { micros: 1_100_000 });
    assert_eq!(yearly.average, Rate { micros: 1_180_000 });
    let monthly = r.monthly.unwrap();
    assert_eq!(monthly.worst, Rate { micros: 910_000 });
    assert_eq!(monthly.best, Rate { micros: 950_000 });
    assert_eq!(monthly.average, Rate { micros: 930_000 });
}

#[test]
fn resolution_is_idempotent() {
    let r1 = resolve_from_documents(SUMMARY_HTML, MARCH_CSV, "2023", "March");
    let r2 = resolve_from_documents(SUMMARY_HTML, MARCH_CSV, "2023", "March");
    assert_eq!(r1, r2);
}

#[test]
fn invalid_year_rejected_before_anything_else() {
    let r = resolve_from_documents(SUMMARY_HTML, MARCH_CSV, "20x3", "March");
    assert_eq!(r, Err("Invalid year format".to_string()));
}

#[test]
fn primary_monthly_skips_fallback() {
    let html = "<html><body><table><tr><td class=\"month-footer\">March 2023 \
        <span class=\"nowrap\">a = 0.91</span>\
        <span class=\"nowrap\">b = 0.95</span>\
        <span class=\"nowrap\">c = 0.93</span></td></tr></table></body></html>";
    let bad_csv = b"3/01/2023,oops,x,y\n";
    let r = resolve_from_documents(html, bad_csv, "2023", "March").unwrap();
    let monthly = r.monthly.unwrap();
    assert_eq!(monthly.worst, Rate { micros: 910_000 });
    assert_eq!(monthly.best, Rate { micros: 950_000 });
    assert_eq!(monthly.average, Rate { micros: 930_000 });
}

#[test]
fn step_api_matches_whole_pipeline() {
    let whole = resolve_from_documents(SUMMARY_HTML, MARCH_CSV, "2023", "March").unwrap();
    let stepped: HistoricalRates = match primary_step(SUMMARY_HTML, "March") {
        Resolution::Complete(h) => h,
        Resolution::NeedsCsv(yearly) => fallback_step(yearly, MARCH_CSV, 2023, "March").unwrap(),
    };
    assert_eq!(whole, stepped);
}

#[test]
fn empty_document_yields_zero_yearly_and_absent_monthly() {
    let r = resolve_from_documents("<html></html>", b"", "2023", "March").unwrap();
    let yearly = r.yearly.unwrap();
    assert_eq!(yearly.best, Rate { micros: 0 });
    assert_eq!(yearly.worst, Rate { micros: 0 });
    assert_eq!(yearly.average, Rate { micros: 0 });
    assert!(r.monthly.is_none());
}
