//! The CSV fallback extractor.  Reading the comma-delimited export is the
//! work of the `csv` crate behind one trusted wrapper; the record filtering
//! by year and month, the all-or-nothing failure on a malformed date or rate,
//! and the worst/best/average aggregation are verified here.

use vstd::prelude::*;
use vstd::string::StringExecFns;
use crate::rates::{Rate, MonthlyRates, MAX_RATE_MICROS};
use crate::dates::{date_of_token, first_segment, first_segment_exec, month_name_seq,
    month_name_matches, parse_date_token};
use crate::text::{chars_of, token_micros, parse_rate_str};

verus! {

/// The records of the comma-delimited byte stream, read without a header
/// row, each as its column texts; or the reader's error text.
pub uninterp spec fn csv_parse_of(bytes: Seq<u8>) -> Result<Seq<Seq<Seq<char>>>, Seq<char>>;

/// Relies on csv's `ReaderBuilder` and `StringRecord`: reads the byte stream
/// as comma-delimited records with no header row and variable-width rows, and
/// hands back each record's fields, or the first read error's text.
#[verifier::external_body]
fn csv_records(bytes: &[u8]) -> (r: Result<Vec<Vec<String>>, String>)
    ensures
        r is Ok <==> csv_parse_of(bytes@) is Ok,
        r matches Ok(v) ==> v.deep_view() == csv_parse_of(bytes@)->Ok_0,
        r matches Err(e) ==> e@ == csv_parse_of(bytes@)->Err_0,
{
    let rdr = csv::ReaderBuilder::new().delimiter(b',').has_headers(false).flexible(true)
        .from_reader(bytes);
    let mut out: Vec<Vec<String>> = Vec::new();
    for rec in rdr.into_records() {
        match rec {
            Ok(row) => out.push(row.iter().map(|f| f.to_string()).collect()),
            Err(e) => return Err(e.to_string()),
        }
    }
    Ok(out)
}

/// Which step of the fallback failed; each aborts the whole lookup.
#[derive(Clone, Copy, Debug, PartialEq, Eq, Structural)]
pub enum FallbackError {
    Date,
    Rate,
}

pub open spec fn fallback_error_msg(e: FallbackError) -> Seq<char> {
    match e {
        FallbackError::Date => "Invalid date format"@,
        FallbackError::Rate => "Failed to parse rate"@,
    }
}

/// The rates of the records whose date falls in the requested year and
/// month, in order; or the first record whose date or rate does not parse.
/// Records with fewer than four columns are skipped.
pub open spec fn record_rates(records: Seq<Seq<Seq<char>>>, year: int, month: Seq<char>) -> Result<
    Seq<u64>,
    FallbackError,
>
    decreases records.len(),
{
    if records.len() == 0 {
        Ok(Seq::empty())
    } else {
        let rec = records.first();
        let rest = record_rates(records.drop_first(), year, month);
        if rec.len() < 4 {
            rest
        } else {
            match first_segment(rec[0]) {
                None => Err(FallbackError::Date),
                Some(seg) => match date_of_token(seg) {
                    None => Err(FallbackError::Date),
                    Some(d) => match token_micros(rec[1]) {
                        None => Err(FallbackError::Rate),
                        Some(v) => if d.year as int == year && month_name_seq(d.month as int)
                            == month {
                            match rest {
                                Ok(rs) => Ok(seq![v] + rs),
                                Err(e) => Err(e),
                            }
                        } else {
                            rest
                        },
                    },
                },
            }
        }
    }
}

pub open spec fn seq_min(s: Seq<u64>) -> u64
    decreases s.len(),
{
    if s.len() == 0 {
        0
    } else if s.len() == 1 {
        s[0]
    } else {
        let m = seq_min(s.drop_last());
        if s.last() < m {
            s.last()
        } else {
            m
        }
    }
}

pub open spec fn seq_max(s: Seq<u64>) -> u64
    decreases s.len(),
{
    if s.len() == 0 {
        0
    } else if s.len() == 1 {
        s[0]
    } else {
        let m = seq_max(s.drop_last());
        if s.last() > m {
            s.last()
        } else {
            m
        }
    }
}

pub open spec fn seq_sum(s: Seq<u64>) -> int
    decreases s.len(),
{
    if s.len() == 0 {
        0
    } else {
        seq_sum(s.drop_last()) + s.last()
    }
}

/// The monthly record aggregated from the retained rates: minimum, maximum
/// and the arithmetic mean truncated to millionths; absent when no rate was
/// retained.
pub open spec fn monthly_from_rates(rs: Seq<u64>) -> Option<MonthlyRates> {
    if rs.len() == 0 {
        None
    } else {
        Some(
            MonthlyRates {
                worst: Rate { micros: seq_min(rs) },
                best: Rate { micros: seq_max(rs) },
                average: Rate { micros: (seq_sum(rs) / rs.len() as int) as u64 },
            },
        )
    }
}

/// A record the fallback passes over: too few columns, or a well-formed row
/// whose date falls outside the requested year and month.
pub open spec fn excluded_record(rec: Seq<Seq<char>>, year: int, month: Seq<char>) -> bool {
    ||| rec.len() < 4
    ||| {
        &&& first_segment(rec[0]) is Some
        &&& date_of_token(first_segment(rec[0])->Some_0) is Some
        &&& token_micros(rec[1]) is Some
        &&& {
            let d = date_of_token(first_segment(rec[0])->Some_0)->Some_0;
            !(d.year as int == year && month_name_seq(d.month as int) == month)
        }
    }
}

/// Rows outside the target year and month are excluded regardless of their
/// rate value: inserting such a record anywhere leaves the fallback's
/// outcome unchanged.
pub proof fn lemma_excluded_record_has_no_effect(
    records: Seq<Seq<Seq<char>>>,
    i: int,
    rec: Seq<Seq<char>>,
    year: int,
    month: Seq<char>,
)
    requires
        0 <= i <= records.len(),
        excluded_record(rec, year, month),
    ensures
        record_rates(records.insert(i, rec), year, month) == record_rates(records, year, month),
    decreases i,
{
    let inserted = records.insert(i, rec);
    if i == 0 {
        assert(inserted.first() == rec);
        assert(inserted.drop_first() =~= records);
    } else {
        assert(inserted.first() == records.first());
        assert(inserted.drop_first() =~= records.drop_first().insert(i - 1, rec));
        lemma_excluded_record_has_no_effect(records.drop_first(), i - 1, rec, year, month);
    }
}

/// Combine the rates already retained with the outcome of the remaining
/// records.
pub open spec fn combine_rates(acc: Seq<u64>, rem: Result<Seq<u64>, FallbackError>) -> Result<
    Seq<u64>,
    FallbackError,
> {
    match rem {
        Ok(rs) => Ok(acc + rs),
        Err(e) => Err(e),
    }
}

/// Aggregate a non-empty rate series.
#[verifier::loop_isolation(false)]
fn aggregate(rs: &Vec<u64>) -> (r: MonthlyRates)
    requires
        rs@.len() > 0,
        forall|k: int| 0 <= k < rs@.len() ==> rs@[k] <= MAX_RATE_MICROS,
    ensures
        Some(r) == monthly_from_rates(rs@),
{
    let n = rs.len();
    let mut mn: u64 = rs[0];
    let mut mx: u64 = rs[0];
    let mut sum: u128 = rs[0] as u128;
    let mut i: usize = 1;
    proof {
        assert(rs@.take(1) =~= seq![rs@[0]]);
        assert(seq![rs@[0]].drop_last() =~= Seq::<u64>::empty());
        assert(seq_sum(Seq::<u64>::empty()) == 0);
        assert(seq_sum(seq![rs@[0]]) == rs@[0]);
    }
    while i < n
        invariant
            1 <= i <= n,
            mn == seq_min(rs@.take(i as int)),
            mx == seq_max(rs@.take(i as int)),
            sum == seq_sum(rs@.take(i as int)),
            sum <= (i as int) * (MAX_RATE_MICROS as int),
        decreases n - i,
    {
        proof {
            assert(rs@.take(i + 1 as int).drop_last() =~= rs@.take(i as int));
            assert(rs@.take(i + 1 as int).last() == rs@[i as int]);
            vstd::arithmetic::mul::lemma_mul_inequality(
                i + 1 as int,
                0xffff_ffff_ffff_ffff,
                MAX_RATE_MICROS as int,
            );
        }
        let v = rs[i];
        if v < mn {
            mn = v;
        }
        if v > mx {
            mx = v;
        }
        sum = sum + v as u128;
        i += 1;
    }
    proof {
        assert(rs@.take(n as int) =~= rs@);
        vstd::arithmetic::div_mod::lemma_div_is_ordered(
            sum as int,
            (n as int) * (MAX_RATE_MICROS as int),
            n as int,
        );
        vstd::arithmetic::div_mod::lemma_div_multiples_vanish(
            MAX_RATE_MICROS as int,
            n as int,
        );
    }
    let avg = (sum / (n as u128)) as u64;
    MonthlyRates { worst: Rate { micros: mn }, best: Rate { micros: mx }, average: Rate {
        micros: avg,
    } }
}

/// The fallback extractor on parsed records: filter by year and month, then
/// aggregate; a malformed date or rate in any wide-enough record aborts the
/// whole lookup with its error message.
#[verifier::loop_isolation(false)]
pub fn monthly_from_records(records: &Vec<Vec<String>>, year: i32, month: &str) -> (r: Result<
    Option<MonthlyRates>,
    String,
>)
    ensures
        match record_rates(records.deep_view(), year as int, month@) {
            Ok(rs) => r matches Ok(m) && m == monthly_from_rates(rs),
            Err(e) => r matches Err(msg) && msg@ == fallback_error_msg(e),
        },
{
    let ghost dv = records.deep_view();
    let ghost goal = record_rates(dv, year as int, month@);
    let month_chars = chars_of(month);
    let mut acc: Vec<u64> = Vec::new();
    let mut i: usize = 0;
    proof {
        assert(dv.skip(0) =~= dv);
        match record_rates(dv, year as int, month@) {
            Ok(rs) => {
                assert(Seq::<u64>::empty() + rs =~= rs);
            },
            Err(_) => {},
        }
    }
    while i < records.len()
        invariant
            i <= records@.len(),
            goal == combine_rates(acc@, record_rates(dv.skip(i as int), year as int, month@)),
            forall|k: int| 0 <= k < acc@.len() ==> acc@[k] <= MAX_RATE_MICROS,
        decreases records@.len() - i,
    {
        proof {
            assert(dv.skip(i as int).first() == records@[i as int].deep_view());
            assert(dv.skip(i as int).drop_first() =~= dv.skip(i + 1 as int));
        }
        let rec = &records[i];
        let ghost rem = record_rates(dv.skip(i as int), year as int, month@);
        let ghost rem_next = record_rates(dv.skip(i + 1 as int), year as int, month@);
        if rec.len() >= 4 {
            proof {
                assert(dv.skip(i as int).first().len() == rec@.len());
                assert(rec.deep_view()[0] == rec@[0]@);
                assert(rec.deep_view()[1] == rec@[1]@);
            }
            let date_chars = chars_of(rec[0].as_str());
            let seg = match first_segment_exec(&date_chars) {
                Some(t) => t,
                None => {
                    return Err(String::from_str("Invalid date format"));
                },
            };
            let date = match parse_date_token(&seg) {
                Some(d) => d,
                None => {
                    return Err(String::from_str("Invalid date format"));
                },
            };
            let rate = match parse_rate_str(rec[1].as_str()) {
                Some(rt) => rt,
                None => {
                    return Err(String::from_str("Failed to parse rate"));
                },
            };
            let matched = (date.year as i32) == year && month_name_matches(date.month, &month_chars);
            if matched {
                let ghost acc0 = acc@;
                acc.push(rate.micros);
                proof {
                    match rem_next {
                        Ok(rs) => {
                            assert(acc@ + rs =~= acc0 + (seq![rate.micros] + rs));
                        },
                        Err(_) => {},
                    }
                    assert(goal == combine_rates(acc@, rem_next));
                }
            } else {
                proof {
                    assert(rem == rem_next);
                }
            }
        } else {
            proof {
                assert(rem == rem_next);
            }
        }
        i += 1;
    }
    proof {
        assert(dv.skip(records@.len() as int) =~= Seq::<Seq<Seq<char>>>::empty());
        assert(acc@ + Seq::<u64>::empty() =~= acc@);
    }
    if acc.len() == 0 {
        Ok(None)
    } else {
        Ok(Some(aggregate(&acc)))
    }
}

/// What the whole fallback yields from the fetched CSV bytes.
pub open spec fn csv_fallback_spec(bytes: Seq<u8>, year: int, month: Seq<char>) -> Result<
    Option<MonthlyRates>,
    Seq<char>,
> {
    match csv_parse_of(bytes) {
        Err(msg) => Err(msg),
        Ok(records) => match record_rates(records, year, month) {
            Err(e) => Err(fallback_error_msg(e)),
            Ok(rs) => Ok(monthly_from_rates(rs)),
        },
    }
}

/// The CSV fallback: read the export, filter, aggregate.
pub fn monthly_from_csv(bytes: &[u8], year: i32, month: &str) -> (r: Result<
    Option<MonthlyRates>,
    String,
>)
    ensures
        r is Ok <==> csv_fallback_spec(bytes@, year as int, month@) is Ok,
        r matches Ok(m) ==> csv_fallback_spec(bytes@, year as int, month@) == Ok::<
            Option<MonthlyRates>,
            Seq<char>,
        >(m),
        r matches Err(e) ==> csv_fallback_spec(bytes@, year as int, month@)->Err_0 == e@,
{
    let records = match csv_records(bytes) {
        Ok(v) => v,
        Err(e) => {
            return Err(e);
        },
    };
    monthly_from_records(&records, year, month)
}

} // verus!
