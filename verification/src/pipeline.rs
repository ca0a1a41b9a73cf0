//! The resolution orchestrator: validate the year, run the HTML extractors,
//! and fall back to the CSV export only when no monthly figure came out of
//! the primary document.  The two network fetches stay with the caller; the
//! decisions between them are verified here.

use vstd::prelude::*;
use vstd::string::StringExecFns;
use crate::rates::{YearlyRates, MonthlyRates, HistoricalRates};
use crate::dates::{year_of_string, parse_year};
use crate::html_extract::{
    summary_rows_of, footer_blocks_of, yearly_of_rows, monthly_of_blocks, extract_yearly,
    extract_monthly,
};
use crate::csv_fallback::{csv_fallback_spec, monthly_from_csv};

verus! {

/// What one query resolves to, before any fetch happened: either the year
/// string is rejected, or the caller must fetch the summary page.
pub open spec fn resolve_spec(
    html: Seq<char>,
    csv: Seq<u8>,
    year: Seq<char>,
    month: Seq<char>,
) -> Result<HistoricalRates, Seq<char>> {
    match year_of_string(year) {
        None => Err("Invalid year format"@),
        Some(y) => {
            let yearly = yearly_of_rows(summary_rows_of(html));
            match monthly_of_blocks(footer_blocks_of(html), month) {
                Some(m) => Ok(HistoricalRates { yearly: Some(yearly), monthly: Some(m) }),
                None => match csv_fallback_spec(csv, y, month) {
                    Err(msg) => Err(msg),
                    Ok(monthly) => Ok(HistoricalRates { yearly: Some(yearly), monthly }),
                },
            }
        },
    }
}

/// The state after the primary document was read: done, or the CSV export
/// is still needed for the monthly figure.
pub enum Resolution {
    Complete(HistoricalRates),
    NeedsCsv(YearlyRates),
}

/// The primary step on the fetched summary page: the yearly record is always
/// extracted; the result is complete exactly when some footer block yielded
/// the monthly record.
pub fn primary_step(html: &str, month: &str) -> (r: Resolution)
    ensures
        ({
            let yearly = yearly_of_rows(summary_rows_of(html@));
            match monthly_of_blocks(footer_blocks_of(html@), month@) {
                Some(m) => r == Resolution::Complete(
                    HistoricalRates { yearly: Some(yearly), monthly: Some(m) },
                ),
                None => r == Resolution::NeedsCsv(yearly),
            }
        }),
{
    let yearly = extract_yearly(html);
    match extract_monthly(html, month) {
        Some(m) => Resolution::Complete(
            HistoricalRates { yearly: Some(yearly), monthly: Some(m) },
        ),
        None => Resolution::NeedsCsv(yearly),
    }
}

/// The fallback step on the fetched CSV export, completing the result that
/// the primary step left open.
pub fn fallback_step(yearly: YearlyRates, csv: &[u8], year: i32, month: &str) -> (r: Result<
    HistoricalRates,
    String,
>)
    ensures
        r is Ok <==> csv_fallback_spec(csv@, year as int, month@) is Ok,
        r matches Ok(h) ==> csv_fallback_spec(csv@, year as int, month@) matches Ok(m) && h
            == (HistoricalRates { yearly: Some(yearly), monthly: m }),
        r matches Err(e) ==> csv_fallback_spec(csv@, year as int, month@)->Err_0 == e@,
{
    match monthly_from_csv(csv, year, month) {
        Ok(monthly) => Ok(HistoricalRates { yearly: Some(yearly), monthly }),
        Err(e) => Err(e),
    }
}

/// The whole pipeline on already-fetched documents: year validation, primary
/// extraction, fallback only when the monthly figure is absent.
pub fn resolve_from_documents(html: &str, csv: &[u8], year: &str, month: &str) -> (r: Result<
    HistoricalRates,
    String,
>)
    ensures
        r is Ok <==> resolve_spec(html@, csv@, year@, month@) is Ok,
        r matches Ok(h) ==> resolve_spec(html@, csv@, year@, month@) == Ok::<
            HistoricalRates,
            Seq<char>,
        >(h),
        r matches Err(e) ==> resolve_spec(html@, csv@, year@, month@)->Err_0 == e@,
{
    let y = match parse_year(year) {
        Some(y) => y,
        None => {
            return Err(String::from_str("Invalid year format"));
        },
    };
    match primary_step(html, month) {
        Resolution::Complete(h) => Ok(h),
        Resolution::NeedsCsv(yearly) => fallback_step(yearly, csv, y, month),
    }
}

/// The pipeline is a function of its inputs alone: two resolutions of the
/// same documents, year and month are equal — the idempotence law.
pub proof fn lemma_resolution_deterministic(
    r1: Result<HistoricalRates, Seq<char>>,
    r2: Result<HistoricalRates, Seq<char>>,
    html: Seq<char>,
    csv: Seq<u8>,
    year: Seq<char>,
    month: Seq<char>,
)
    requires
        r1 == resolve_spec(html, csv, year, month),
        r2 == resolve_spec(html, csv, year, month),
    ensures
        r1 == r2,
{
}

} // verus!
