//! The HTML extractors.  Parsing the document is the work of the `scraper`
//! crate behind small trusted wrappers; everything done with the selected
//! texts — label matching, numeric extraction, the exactly-three rule of the
//! monthly footer — is verified here.

use vstd::prelude::*;
use crate::rates::{Rate, YearlyRates, MonthlyRates};
use crate::text::{
    chars_of, contains_chars, contains_seq, lower_chars, lower_seq, extract_rate, rate_of_text,
    parse_token, token_micros, keep_numchars, keep_numchars_exec, first_index, find_char, subvec,
};

verus! {

/// The text of every `td` cell of each `tr` row inside the
/// `table.history-rate-summary` element of the document, in document order.
pub uninterp spec fn summary_rows_of(html: Seq<char>) -> Seq<Seq<Seq<char>>>;

/// Relies on scraper's `Html::parse_document`, `Selector::parse`,
/// `Html::select`, `ElementRef::select` and `ElementRef::text`: selects the
/// rows of the history-rate-summary table and hands back each row's cell
/// texts.
#[verifier::external_body]
fn summary_rows(html: &str) -> (r: Vec<Vec<String>>)
    ensures
        r.deep_view() == summary_rows_of(html@),
{
    let doc = scraper::Html::parse_document(html);
    let tr = scraper::Selector::parse("table.history-rate-summary tr").unwrap();
    let td = scraper::Selector::parse("td").unwrap();
    doc.select(&tr)
        .map(|row| row.select(&td).map(|cell| cell.text().collect::<String>()).collect())
        .collect()
}

/// The inner HTML of every `td.month-footer` element of the document, in
/// document order.
pub uninterp spec fn footer_blocks_of(html: Seq<char>) -> Seq<Seq<char>>;

/// Relies on scraper's `Html::parse_document`, `Selector::parse`,
/// `Html::select` and `ElementRef::inner_html`: selects the month footer
/// cells and hands back their inner HTML.
#[verifier::external_body]
fn footer_blocks(html: &str) -> (r: Vec<String>)
    ensures
        r.deep_view() == footer_blocks_of(html@),
{
    let doc = scraper::Html::parse_document(html);
    let footer = scraper::Selector::parse("td.month-footer").unwrap();
    doc.select(&footer).map(|f| f.inner_html()).collect()
}

/// The text of every `span.nowrap` element of an HTML fragment, in order.
pub uninterp spec fn nowrap_texts_of(fragment: Seq<char>) -> Seq<Seq<char>>;

/// Relies on scraper's `Html::parse_fragment`, `Selector::parse`,
/// `Html::select` and `ElementRef::text`: selects the inline spans of a
/// footer fragment and hands back their texts.
#[verifier::external_body]
fn nowrap_texts(fragment: &str) -> (r: Vec<String>)
    ensures
        r.deep_view() == nowrap_texts_of(fragment@),
{
    let doc = scraper::Html::parse_fragment(fragment);
    let span = scraper::Selector::parse("span.nowrap").unwrap();
    doc.select(&span).map(|el| el.text().collect::<String>()).collect()
}

pub open spec fn needle_highest() -> Seq<char> {
    seq!['h', 'i', 'g', 'h', 'e', 's', 't']
}

pub open spec fn needle_lowest() -> Seq<char> {
    seq!['l', 'o', 'w', 'e', 's', 't']
}

pub open spec fn needle_average() -> Seq<char> {
    seq!['a', 'v', 'e', 'r', 'a', 'g', 'e']
}

/// One summary row applied to the yearly record: rows with fewer than two
/// cells or an unparsable value are ignored; the lowercased label assigns the
/// value by case-insensitive substring match, later rows overriding earlier
/// ones.
pub open spec fn row_update(y: YearlyRates, row: Seq<Seq<char>>) -> YearlyRates {
    if row.len() < 2 {
        y
    } else {
        match rate_of_text(row[1]) {
            Some(m) => {
                let label = lower_seq(row[0]);
                if contains_seq(label, needle_highest()) {
                    YearlyRates { best: Rate { micros: m }, average: y.average, worst: y.worst }
                } else if contains_seq(label, needle_lowest()) {
                    YearlyRates { best: y.best, average: y.average, worst: Rate { micros: m } }
                } else if contains_seq(label, needle_average()) {
                    YearlyRates { best: y.best, average: Rate { micros: m }, worst: y.worst }
                } else {
                    y
                }
            },
            None => y,
        }
    }
}

/// The yearly record extracted from the summary rows, all-zero by default.
pub open spec fn yearly_of_rows(rows: Seq<Seq<Seq<char>>>) -> YearlyRates
    decreases rows.len(),
{
    if rows.len() == 0 {
        YearlyRates::spec_default()
    } else {
        row_update(yearly_of_rows(rows.drop_last()), rows.last())
    }
}

/// The yearly extractor on selected row texts.
#[verifier::loop_isolation(false)]
pub fn yearly_from_rows(rows: &Vec<Vec<String>>) -> (r: YearlyRates)
    ensures
        r == yearly_of_rows(rows.deep_view()),
{
    let needle_h: Vec<char> = vec!['h', 'i', 'g', 'h', 'e', 's', 't'];
    let needle_l: Vec<char> = vec!['l', 'o', 'w', 'e', 's', 't'];
    let needle_a: Vec<char> = vec!['a', 'v', 'e', 'r', 'a', 'g', 'e'];
    proof {
        assert(needle_h@ =~= needle_highest());
        assert(needle_l@ =~= needle_lowest());
        assert(needle_a@ =~= needle_average());
    }
    let mut y = YearlyRates::all_zero();
    let mut i: usize = 0;
    while i < rows.len()
        invariant
            i <= rows@.len(),
            y == yearly_of_rows(rows.deep_view().take(i as int)),
        decreases rows@.len() - i,
    {
        proof {
            assert(rows.deep_view().take(i + 1 as int).drop_last() =~= rows.deep_view().take(
                i as int,
            ));
            assert(rows.deep_view().take(i + 1 as int).last() == rows.deep_view()[i as int]);
            assert(rows.deep_view()[i as int] == rows@[i as int].deep_view());
        }
        let row = &rows[i];
        if row.len() >= 2 {
            proof {
                assert(row.deep_view()[1] == row@[1]@);
                assert(row.deep_view()[0] == row@[0]@);
            }
            match extract_rate(row[1].as_str()) {
                Some(rt) => {
                    let label_chars = chars_of(row[0].as_str());
                    let lower = lower_chars(&label_chars);
                    if contains_chars(&lower, &needle_h) {
                        y.best = rt;
                    } else if contains_chars(&lower, &needle_l) {
                        y.worst = rt;
                    } else if contains_chars(&lower, &needle_a) {
                        y.average = rt;
                    }
                },
                None => {},
            }
        }
        i += 1;
    }
    proof {
        assert(rows.deep_view().take(rows@.len() as int) =~= rows.deep_view());
    }
    y
}

/// The numeric value of one inline span: the part after the first equals
/// sign (up to a second one), stripped to its digits and points, parsed.
pub open spec fn span_value(t: Seq<char>) -> Option<u64> {
    if !crate::text::has_char(t, '=') {
        None
    } else {
        let rest = t.skip(first_index(t, '=') + 1);
        let part = if crate::text::has_char(rest, '=') {
            rest.take(first_index(rest, '='))
        } else {
            rest
        };
        token_micros(keep_numchars(part))
    }
}

/// The values recovered from a footer block's spans, in order.
pub open spec fn block_values(spans: Seq<Seq<char>>) -> Seq<u64>
    decreases spans.len(),
{
    if spans.len() == 0 {
        Seq::empty()
    } else {
        let front = block_values(spans.drop_last());
        match span_value(spans.last()) {
            Some(v) => front.push(v),
            None => front,
        }
    }
}

/// The monthly record of the first footer block that names the month and
/// yields exactly three values, positionally (worst, best, average).
pub open spec fn monthly_of_blocks(blocks: Seq<Seq<char>>, month: Seq<char>) -> Option<MonthlyRates>
    decreases blocks.len(),
{
    if blocks.len() == 0 {
        None
    } else {
        let b = blocks.first();
        let vs = block_values(nowrap_texts_of(b));
        if contains_seq(b, month) && vs.len() == 3 {
            Some(
                MonthlyRates {
                    worst: Rate { micros: vs[0] },
                    best: Rate { micros: vs[1] },
                    average: Rate { micros: vs[2] },
                },
            )
        } else {
            monthly_of_blocks(blocks.drop_first(), month)
        }
    }
}

/// One span's value, executable.
fn span_value_exec(span: &str) -> (r: Option<Rate>)
    ensures
        match r {
            Some(rt) => span_value(span@) == Some(rt.micros),
            None => span_value(span@) is None,
        },
{
    let cs = chars_of(span);
    let eq = match find_char(&cs, '=') {
        Some(i) => i,
        None => {
            return None;
        },
    };
    let n = cs.len();
    let rest = subvec(&cs, eq + 1, n);
    proof {
        assert(rest@ =~= cs@.skip(first_index(cs@, '=') + 1));
    }
    let part = match find_char(&rest, '=') {
        Some(j) => {
            let p = subvec(&rest, 0, j);
            proof {
                assert(p@ =~= rest@.take(first_index(rest@, '=')));
            }
            p
        },
        None => rest,
    };
    let cleaned = keep_numchars_exec(&part);
    parse_token(&cleaned)
}

/// The values of a block's spans, executable.
#[verifier::loop_isolation(false)]
fn block_values_exec(spans: &Vec<String>) -> (r: Vec<u64>)
    ensures
        r@ == block_values(spans.deep_view()),
{
    let mut r: Vec<u64> = Vec::new();
    let mut j: usize = 0;
    while j < spans.len()
        invariant
            j <= spans@.len(),
            r@ == block_values(spans.deep_view().take(j as int)),
        decreases spans@.len() - j,
    {
        proof {
            assert(spans.deep_view().take(j + 1 as int).drop_last() =~= spans.deep_view().take(
                j as int,
            ));
            assert(spans.deep_view().take(j + 1 as int).last() == spans@[j as int]@);
        }
        match span_value_exec(spans[j].as_str()) {
            Some(rt) => {
                r.push(rt.micros);
            },
            None => {},
        }
        j += 1;
    }
    proof {
        assert(spans.deep_view().take(spans@.len() as int) =~= spans.deep_view());
    }
    r
}

/// The monthly extractor on footer-block fragments.
#[verifier::loop_isolation(false)]
pub fn monthly_from_blocks(blocks: &Vec<String>, month: &str) -> (r: Option<MonthlyRates>)
    ensures
        r == monthly_of_blocks(blocks.deep_view(), month@),
{
    let month_chars = chars_of(month);
    let mut i: usize = 0;
    proof {
        assert(blocks.deep_view().skip(0) =~= blocks.deep_view());
    }
    while i < blocks.len()
        invariant
            i <= blocks@.len(),
            monthly_of_blocks(blocks.deep_view().skip(i as int), month@) == monthly_of_blocks(
                blocks.deep_view(),
                month@,
            ),
        decreases blocks@.len() - i,
    {
        proof {
            assert(blocks.deep_view().skip(i as int).first() == blocks@[i as int]@);
            assert(blocks.deep_view().skip(i as int).drop_first() =~= blocks.deep_view().skip(
                i + 1 as int,
            ));
        }
        let bchars = chars_of(blocks[i].as_str());
        if contains_chars(&bchars, &month_chars) {
            let spans = nowrap_texts(blocks[i].as_str());
            let values = block_values_exec(&spans);
            if values.len() == 3 {
                return Some(
                    MonthlyRates {
                        worst: Rate { micros: values[0] },
                        best: Rate { micros: values[1] },
                        average: Rate { micros: values[2] },
                    },
                );
            }
        }
        i += 1;
    }
    proof {
        assert(blocks.deep_view().skip(blocks@.len() as int) =~= Seq::<Seq<char>>::empty());
    }
    None
}

/// A summary row whose label matches none of "highest", "lowest", "average"
/// (or that has fewer than two cells).
pub open spec fn row_matches_no_label(row: Seq<Seq<char>>) -> bool {
    row.len() < 2 || (!contains_seq(lower_seq(row[0]), needle_highest()) && !contains_seq(
        lower_seq(row[0]),
        needle_lowest(),
    ) && !contains_seq(lower_seq(row[0]), needle_average()))
}

/// When no summary row matches any of the three labels, the yearly record is
/// all-zero.
pub proof fn lemma_yearly_defaults(rows: Seq<Seq<Seq<char>>>)
    requires
        forall|i: int| 0 <= i < rows.len() ==> #[trigger] row_matches_no_label(rows[i]),
    ensures
        yearly_of_rows(rows) == YearlyRates::spec_default(),
    decreases rows.len(),
{
    if rows.len() > 0 {
        assert(forall|i: int| 0 <= i < rows.drop_last().len() ==> rows.drop_last()[i] == rows[i]);
        lemma_yearly_defaults(rows.drop_last());
        assert(row_matches_no_label(rows.last()));
    }
}

/// When every footer block that names the month yields other than exactly
/// three values, monthly extraction is absent.
pub proof fn lemma_monthly_none_without_three(blocks: Seq<Seq<char>>, month: Seq<char>)
    requires
        forall|i: int|
            #![trigger blocks[i]]
            0 <= i < blocks.len() ==> !contains_seq(blocks[i], month) || block_values(
                nowrap_texts_of(blocks[i]),
            ).len() != 3,
    ensures
        monthly_of_blocks(blocks, month) is None,
    decreases blocks.len(),
{
    if blocks.len() > 0 {
        assert(blocks[0] == blocks.first());
        assert(forall|i: int|
            0 <= i < blocks.drop_first().len() ==> #[trigger] blocks.drop_first()[i]
                == blocks[i + 1]);
        lemma_monthly_none_without_three(blocks.drop_first(), month);
    }
}

/// A present monthly record comes from a block that names the month and
/// yielded exactly three values, mapped positionally to (worst, best,
/// average).
pub proof fn lemma_monthly_some_exactly_three(blocks: Seq<Seq<char>>, month: Seq<char>)
    requires
        monthly_of_blocks(blocks, month) is Some,
    ensures
        exists|i: int|
            #![trigger blocks[i]]
            0 <= i < blocks.len() && contains_seq(blocks[i], month) && block_values(
                nowrap_texts_of(blocks[i]),
            ).len() == 3 && monthly_of_blocks(blocks, month) == Some(
                MonthlyRates {
                    worst: Rate { micros: block_values(nowrap_texts_of(blocks[i]))[0] },
                    best: Rate { micros: block_values(nowrap_texts_of(blocks[i]))[1] },
                    average: Rate { micros: block_values(nowrap_texts_of(blocks[i]))[2] },
                },
            ),
    decreases blocks.len(),
{
    let b = blocks.first();
    let vs = block_values(nowrap_texts_of(b));
    if contains_seq(b, month) && vs.len() == 3 {
        assert(blocks[0] == b);
    } else {
        lemma_monthly_some_exactly_three(blocks.drop_first(), month);
        let i = choose|i: int|
            #![trigger blocks.drop_first()[i]]
            0 <= i < blocks.drop_first().len() && contains_seq(blocks.drop_first()[i], month)
                && block_values(nowrap_texts_of(blocks.drop_first()[i])).len() == 3
                && monthly_of_blocks(blocks.drop_first(), month) == Some(
                MonthlyRates {
                    worst: Rate { micros: block_values(nowrap_texts_of(blocks.drop_first()[i]))[0] },
                    best: Rate { micros: block_values(nowrap_texts_of(blocks.drop_first()[i]))[1] },
                    average: Rate {
                        micros: block_values(nowrap_texts_of(blocks.drop_first()[i]))[2],
                    },
                },
            );
        assert(blocks.drop_first()[i] == blocks[i + 1]);
    }
}

/// The primary extractors run against one fetched HTML document.
pub fn extract_yearly(html: &str) -> (r: YearlyRates)
    ensures
        r == yearly_of_rows(summary_rows_of(html@)),
{
    let rows = summary_rows(html);
    yearly_from_rows(&rows)
}

/// The monthly extractor run against one fetched HTML document.
pub fn extract_monthly(html: &str, month: &str) -> (r: Option<MonthlyRates>)
    ensures
        r == monthly_of_blocks(footer_blocks_of(html@), month@),
{
    let blocks = footer_blocks(html);
    monthly_from_blocks(&blocks, month)
}

} // verus!
