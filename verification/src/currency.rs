//! The external collaborators' plain logic: the supported-currency list
//! scraped from the homepage select-list, and the current-rate lookup
//! response.  Option texts are selected by `scraper` behind a trusted
//! wrapper; the `"<name> (<CODE>)"` grammar and the error surfacing are
//! verified here.

use vstd::prelude::*;
use vstd::string::StringExecFns;
use crate::rates::{CurrencyInfo, CurrentRate};
use crate::text::{
    chars_of, string_from_chars, subvec, is_digit, is_space, is_space_exec, upper_char,
    upper_chars, has_char, find_char,
};

verus! {

/// The first text node of each `option` under the `#currencyList` element,
/// in document order; elements without a text node carry `None`.
pub uninterp spec fn option_texts_of(html: Seq<char>) -> Seq<Option<Seq<char>>>;

/// Relies on scraper's `Html::parse_document`, `Selector::parse`,
/// `Html::select` and `ElementRef::text`: selects the currency-list options
/// and hands back each one's first text node.
#[verifier::external_body]
fn option_texts(html: &str) -> (r: Vec<Option<String>>)
    ensures
        r.deep_view() == option_texts_of(html@),
{
    let doc = scraper::Html::parse_document(html);
    let opt = scraper::Selector::parse("#currencyList option").unwrap();
    doc.select(&opt).map(|el| el.text().next().map(|t| t.to_string())).collect()
}

pub open spec fn is_word_char(c: char) -> bool {
    is_digit(c) || ('a' <= c && c <= 'z') || ('A' <= c && c <= 'Z') || c == '_'
}

/// The greatest index of `c` in `s`, or `-1` when `c` does not occur.
pub open spec fn last_index(s: Seq<char>, c: char) -> int
    decreases s.len(),
{
    if s.len() == 0 {
        -1
    } else if s.last() == c {
        s.len() - 1
    } else {
        last_index(s.drop_last(), c)
    }
}

proof fn lemma_last_index_at(s: Seq<char>, c: char, i: int)
    requires
        0 <= i < s.len(),
        s[i] == c,
        forall|j: int| i < j < s.len() ==> s[j] != c,
    ensures
        last_index(s, c) == i,
    decreases s.len(),
{
    if i < s.len() - 1 {
        lemma_last_index_at(s.drop_last(), c, i);
    }
}

proof fn lemma_last_index_none(s: Seq<char>, c: char)
    requires
        forall|j: int| 0 <= j < s.len() ==> s[j] != c,
    ensures
        last_index(s, c) == -1,
    decreases s.len(),
{
    if s.len() > 0 {
        lemma_last_index_none(s.drop_last(), c);
    }
}

/// The start of the maximal whitespace run that ends just before `p`.
pub open spec fn ws_run_start(s: Seq<char>, p: int) -> int
    decreases p,
{
    if p > 0 && p <= s.len() && is_space(s[p - 1]) {
        ws_run_start(s, p - 1)
    } else {
        p
    }
}

proof fn lemma_ws_run_start_at(s: Seq<char>, p: int, q: int)
    requires
        0 <= q <= p <= s.len(),
        forall|j: int| q <= j < p ==> is_space(s[j]),
        q > 0 ==> !is_space(s[q - 1]),
    ensures
        ws_run_start(s, p) == q,
    decreases p - q,
{
    if p > q {
        lemma_ws_run_start_at(s, p - 1, q);
    }
}

/// Strip leading whitespace.
pub open spec fn trim_start(s: Seq<char>) -> Seq<char>
    decreases s.len(),
{
    if s.len() > 0 && is_space(s[0]) {
        trim_start(s.drop_first())
    } else {
        s
    }
}

/// Strip trailing whitespace.
pub open spec fn trim_end(s: Seq<char>) -> Seq<char>
    decreases s.len(),
{
    if s.len() > 0 && is_space(s.last()) {
        trim_end(s.drop_last())
    } else {
        s
    }
}

pub open spec fn trim_spaces(s: Seq<char>) -> Seq<char> {
    trim_end(trim_start(s))
}

proof fn lemma_trim_start_at(s: Seq<char>, a: int)
    requires
        0 <= a <= s.len(),
        forall|j: int| 0 <= j < a ==> is_space(s[j]),
        a < s.len() ==> !is_space(s[a]),
    ensures
        trim_start(s) == s.skip(a),
    decreases a,
{
    if a == 0 {
        assert(s.skip(0) =~= s);
    } else {
        lemma_trim_start_at(s.drop_first(), a - 1);
        assert(s.drop_first().skip(a - 1) =~= s.skip(a));
    }
}

proof fn lemma_trim_end_at(s: Seq<char>, b: int)
    requires
        0 <= b <= s.len(),
        forall|j: int| b <= j < s.len() ==> is_space(s[j]),
        b > 0 ==> !is_space(s[b - 1]),
    ensures
        trim_end(s) == s.take(b),
    decreases s.len() - b,
{
    if b == s.len() {
        assert(s.take(b) =~= s);
    } else {
        assert(s.drop_last().take(b) =~= s.take(b));
        lemma_trim_end_at(s.drop_last(), b);
    }
}

/// The name and upper-cased code of one option text, matching the pattern
/// `<name> (<CODE>)`: the text ends with a parenthesized word-character code
/// preceded by whitespace; the name is what stands before that whitespace,
/// trimmed, and may not span lines.
pub open spec fn currency_of_text(t: Seq<char>) -> Option<(Seq<char>, Seq<char>)> {
    let n = t.len();
    if n == 0 || t[n - 1] != ')' {
        None
    } else {
        let p = last_index(t.drop_last(), '(');
        if p < 1 {
            None
        } else {
            let code = t.subrange(p + 1, n - 1);
            if code.len() == 0 || !(forall|j: int|
                0 <= j < code.len() ==> is_word_char(code[j])) || !is_space(t[p - 1]) {
                None
            } else {
                let q = ws_run_start(t, p);
                let name = t.take(q);
                if has_char(name, '\n') {
                    None
                } else {
                    Some((trim_spaces(name), code.map_values(|c: char| upper_char(c))))
                }
            }
        }
    }
}

/// The greatest index of `c` below `end`, executable.
fn find_last_below(s: &Vec<char>, end: usize, c: char) -> (r: Option<usize>)
    requires
        end <= s@.len(),
    ensures
        match r {
            Some(i) => i < end && s@[i as int] == c && forall|j: int| i < j < end ==> s@[j] != c,
            None => forall|j: int| 0 <= j < end ==> s@[j] != c,
        },
{
    let mut i: usize = end;
    while i > 0
        invariant
            i <= end <= s@.len(),
            forall|j: int| i <= j < end ==> s@[j] != c,
        decreases i,
    {
        i -= 1;
        if s[i] == c {
            return Some(i);
        }
    }
    None
}

/// Trim ASCII whitespace from both ends.
#[verifier::loop_isolation(false)]
fn trim_chars(s: &Vec<char>) -> (r: Vec<char>)
    ensures
        r@ == trim_spaces(s@),
{
    let n = s.len();
    let mut a: usize = 0;
    while a < n && is_space_exec(s[a])
        invariant
            a <= n,
            n == s@.len(),
            forall|j: int| 0 <= j < a ==> is_space(s@[j]),
        decreases n - a,
    {
        a += 1;
    }
    proof {
        lemma_trim_start_at(s@, a as int);
    }
    let mut b: usize = n;
    while b > a && is_space_exec(s[b - 1])
        invariant
            a <= b <= n,
            n == s@.len(),
            forall|j: int| b <= j < n ==> is_space(s@[j]),
        decreases b,
    {
        b -= 1;
    }
    let r = subvec(s, a, b);
    proof {
        let st = s@.skip(a as int);
        if b > a {
            lemma_trim_end_at(st, b - a);
        } else {
            assert forall|j: int| 0 <= j < st.len() implies is_space(st[j]) by {
                assert(st[j] == s@[a + j]);
            }
            lemma_trim_end_at(st, 0);
        }
        assert(st.take(b - a) =~= s@.subrange(a as int, b as int));
    }
    r
}

/// Parse one select-list option text into a currency entry.
#[verifier::loop_isolation(false)]
pub fn parse_currency_option(text: &str) -> (r: Option<CurrencyInfo>)
    ensures
        match currency_of_text(text@) {
            Some(nc) => r matches Some(ci) && ci.name@ == nc.0 && ci.code@ == nc.1,
            None => r is None,
        },
{
    let t = chars_of(text);
    let n = t.len();
    if n == 0 || t[n - 1] != ')' {
        return None;
    }
    let p = match find_last_below(&t, n - 1, '(') {
        Some(p) => p,
        None => {
            proof {
                assert forall|j: int| 0 <= j < t@.drop_last().len() implies t@.drop_last()[j]
                    != '(' by {
                    assert(t@.drop_last()[j] == t@[j]);
                }
                lemma_last_index_none(t@.drop_last(), '(');
            }
            return None;
        },
    };
    proof {
        assert forall|j: int| p < j < t@.drop_last().len() implies t@.drop_last()[j] != '(' by {
            assert(t@.drop_last()[j] == t@[j]);
        }
        assert(t@.drop_last()[p as int] == t@[p as int]);
        lemma_last_index_at(t@.drop_last(), '(', p as int);
    }
    if p < 1 {
        return None;
    }
    let code_raw = subvec(&t, p + 1, n - 1);
    proof {
        assert(code_raw@ =~= t@.subrange(p + 1 as int, n - 1 as int));
    }
    if code_raw.len() == 0 {
        return None;
    }
    let mut j: usize = 0;
    while j < code_raw.len()
        invariant
            j <= code_raw@.len(),
            forall|k: int| 0 <= k < j ==> is_word_char(code_raw@[k]),
        decreases code_raw@.len() - j,
    {
        let c = code_raw[j];
        let word = ('0' <= c && c <= '9') || ('a' <= c && c <= 'z') || ('A' <= c && c <= 'Z')
            || c == '_';
        if !word {
            return None;
        }
        j += 1;
    }
    if !is_space_exec(t[p - 1]) {
        return None;
    }
    let mut q: usize = p;
    while q > 0 && is_space_exec(t[q - 1])
        invariant
            q <= p,
            forall|k: int| q <= k < p ==> is_space(t@[k]),
        decreases q,
    {
        q -= 1;
    }
    proof {
        lemma_ws_run_start_at(t@, p as int, q as int);
    }
    let name_raw = subvec(&t, 0, q);
    proof {
        assert(name_raw@ =~= t@.take(q as int));
    }
    if let Some(_) = find_char(&name_raw, '\n') {
        return None;
    }
    let name = trim_chars(&name_raw);
    let code = upper_chars(&code_raw);
    Some(CurrencyInfo { name: string_from_chars(&name), code: string_from_chars(&code) })
}

/// The entries of the select-list option texts that match the pattern, in
/// order.
pub open spec fn currencies_of(texts: Seq<Option<Seq<char>>>) -> Seq<(Seq<char>, Seq<char>)>
    decreases texts.len(),
{
    if texts.len() == 0 {
        Seq::empty()
    } else {
        let front = currencies_of(texts.drop_last());
        match texts.last() {
            None => front,
            Some(t) => match currency_of_text(t) {
                None => front,
                Some(nc) => front.push(nc),
            },
        }
    }
}

/// The supported-currency list scraped from the homepage document.
#[verifier::loop_isolation(false)]
pub fn currencies_from_html(html: &str) -> (r: Vec<CurrencyInfo>)
    ensures
        r@.len() == currencies_of(option_texts_of(html@)).len(),
        forall|i: int| 0 <= i < r@.len() ==> r@[i].name@ == currencies_of(option_texts_of(html@))[i].0
            && r@[i].code@ == currencies_of(option_texts_of(html@))[i].1,
{
    let texts = option_texts(html);
    let ghost dv = texts.deep_view();
    let mut r: Vec<CurrencyInfo> = Vec::new();
    let mut i: usize = 0;
    while i < texts.len()
        invariant
            i <= texts@.len(),
            r@.len() == currencies_of(dv.take(i as int)).len(),
            forall|k: int| 0 <= k < r@.len() ==> r@[k].name@ == currencies_of(dv.take(i as int))[k].0
                && r@[k].code@ == currencies_of(dv.take(i as int))[k].1,
        decreases texts@.len() - i,
    {
        proof {
            assert(dv.take(i + 1 as int).drop_last() =~= dv.take(i as int));
            assert(dv.take(i + 1 as int).last() == texts@[i as int].deep_view());
        }
        match &texts[i] {
            Some(text) => {
                match parse_currency_option(text.as_str()) {
                    Some(ci) => {
                        r.push(ci);
                    },
                    None => {},
                }
            },
            None => {},
        }
        i += 1;
    }
    proof {
        assert(dv.take(texts@.len() as int) =~= dv);
    }
    r
}

/// The current-rate response handled at its boundary: an upstream error
/// message is surfaced verbatim as the call's error; otherwise the rate text
/// (defaulting to zero) and timestamp (defaulting to empty) are carried
/// through, with the pair's codes upper-cased.
pub fn current_rate_from_response(
    from: &str,
    to: &str,
    rate: Option<String>,
    date: Option<String>,
    error_message: Option<String>,
) -> (r: Result<CurrentRate, String>)
    ensures
        error_message matches Some(m) ==> (r matches Err(e) && e == m),
        error_message is None ==> (r matches Ok(cr) && cr.from@ == from@.map_values(
            |c: char| upper_char(c),
        ) && cr.to@ == to@.map_values(|c: char| upper_char(c)) && (match rate {
            Some(t) => cr.rate@ == t@,
            None => cr.rate@ == "0"@,
        }) && (match date {
            Some(t) => cr.date@ == t@,
            None => cr.date@ == ""@,
        })),
{
    if let Some(m) = error_message {
        return Err(m);
    }
    let from_chars = chars_of(from);
    let to_chars = chars_of(to);
    let from_upper = upper_chars(&from_chars);
    let to_upper = upper_chars(&to_chars);
    let rate_text = match rate {
        Some(t) => t,
        None => {
            String::from_str("0")
        },
    };
    let date_text = match date {
        Some(t) => t,
        None => {
            String::from_str("")
        },
    };
    Ok(
        CurrentRate {
            rate: rate_text,
            from: string_from_chars(&from_upper),
            to: string_from_chars(&to_upper),
            date: date_text,
        },
    )
}

} // verus!
