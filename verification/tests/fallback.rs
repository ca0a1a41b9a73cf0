use exchange_rates::rates::Rate;
use exchange_rates::csv_fallback::{monthly_from_csv, monthly_from_records};

fn records(rows: &[&[&str]]) -> Vec<Vec<String>> {
    rows.iter().map(|row| row.iter().map(|c| c.to_string()).collect()).collect()
}

#[test]
fn fallback_filters_by_year_and_month() {
    let recs = records(&[
        &["3/01/2023 00:00", "1.10", "x", "y"],
        &["3/15/2023 00:00", "1.30", "x", "y"],
        &["3/31/2023 00:00", "1.20", "x", "y"],
        &["4/01/2023 00:00", "9.90", "x", "y"],
        &["3/01/2022 00:00", "9.95", "x", "y"],
    ]);
    let r = monthly_from_csv_records(recs);
    assert_eq!(r.worst, Rate { micros: 1_100_000 });
    assert_eq!(r.best, Rate { micros: 1_300_000 });
    assert_eq!(r.average, Rate { micros: 1_200_000 });
}

fn monthly_from_csv_records(recs: Vec<Vec<String>>) -> exchange_rates::rates::MonthlyRates {
    monthly_from_records(&recs, 2023, "March").unwrap().unwrap()
}

#[test]
fn fallback_short_records_are_skipped() {
    let recs = records(&[
        &["not a date at all"],
        &["3/15/2023", "1.10", "x", "y"],
    ]);
    let r = monthly_from_csv_records(recs);
    assert_eq!(r.worst, Rate { micros: 1_100_000 });
}

#[test]
fn fallback_no_matching_rows_is_absent() {
    let recs = records(&[&["4/01/2023", "1.10", "x", "y"]]);
    assert_eq!(monthly_from_records(&recs, 2023, "March"), Ok(None));
}

#[test]
fn fallback_bad_rate_aborts_even_with_valid_rows() {
    let mut rows: Vec<Vec<String>> = Vec::new();
    for day in 1..=10 {
        rows.push(vec![
            format!("3/{}/2023", day),
            "1.10".to_string(),
            "x".to_string(),
            "y".to_string(),
        ]);
    }
    rows.push(vec![
        "3/11/2023".to_string(),
        "not-a-number".to_string(),
        "x".to_string(),
        "y".to_string(),
    ]);
    let r = monthly_from_records(&rows, 2023, "March");
    assert_eq!(r, Err("Failed to parse rate".to_string()));
}

#[test]
fn fallback_bad_date_aborts() {
    let recs = records(&[&["2/29/2023", "1.10", "x", "y"]]);
    let r = monthly_from_records(&recs, 2023, "February");
    assert_eq!(r, Err("Invalid date format".to_string()));
}

#[test]
fn fallback_leap_day_parses_in_leap_year() {
    let recs = records(&[&["2/29/2024", "1.50", "x", "y"]]);
    let r = monthly_from_records(&recs, 2024, "February").unwrap().unwrap();
    assert_eq!(r.best, Rate { micros: 1_500_000 });
}

#[test]
fn fallback_through_csv_reader() {
    let bytes = b"3/01/2023 00:00,1.10,x,y\n3/15/2023 00:00,1.30,x,y\n3/31/2023 00:00,1.20,x,y\n4/01/2023 00:00,9.90,x,y\n";
    let r = monthly_from_csv(bytes, 2023, "March").unwrap().unwrap();
    assert_eq!(r.worst, Rate { micros: 1_100_000 });
    assert_eq!(r.best, Rate { micros: 1_300_000 });
    assert_eq!(r.average, Rate { micros: 1_200_000 });
}

#[test]
fn fallback_csv_bad_rate_row_aborts_whole_call() {
    let bytes = b"3/01/2023,1.10,x,y\n3/02/2023,oops,x,y\n";
    let r = monthly_from_csv(bytes, 2023, "March");
    assert_eq!(r, Err("Failed to parse rate".to_string()));
}
