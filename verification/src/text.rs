//! The text normalizer: character classes, substring search, and extraction
//! of the first numeric token of a free-form text fragment as a fixed-point
//! rate.  Numbers are digits with at most one decimal point; thousands
//! separators (commas) are stripped before parsing, and only the first match
//! in a fragment is used.

use vstd::prelude::*;
use vstd::string::StrSliceExecFns;
use crate::rates::{Rate, MAX_RATE_MICROS};

verus! {

pub open spec fn is_digit(c: char) -> bool {
    '0' <= c && c <= '9'
}

/// A character that may stand inside a numeric token.
pub open spec fn is_numchar(c: char) -> bool {
    is_digit(c) || c == '.'
}

/// ASCII whitespace, the separator set the pipeline recognizes.
pub open spec fn is_space(c: char) -> bool {
    c == ' ' || c == '\t' || c == '\n' || c == '\r' || c == '\u{b}' || c == '\u{c}'
}

pub open spec fn lower_char(c: char) -> char {
    match c {
        'A' => 'a', 'B' => 'b', 'C' => 'c', 'D' => 'd', 'E' => 'e', 'F' => 'f',
        'G' => 'g', 'H' => 'h', 'I' => 'i', 'J' => 'j', 'K' => 'k', 'L' => 'l',
        'M' => 'm', 'N' => 'n', 'O' => 'o', 'P' => 'p', 'Q' => 'q', 'R' => 'r',
        'S' => 's', 'T' => 't', 'U' => 'u', 'V' => 'v', 'W' => 'w', 'X' => 'x',
        'Y' => 'y', 'Z' => 'z',
        _ => c,
    }
}

pub open spec fn upper_char(c: char) -> char {
    match c {
        'a' => 'A', 'b' => 'B', 'c' => 'C', 'd' => 'D', 'e' => 'E', 'f' => 'F',
        'g' => 'G', 'h' => 'H', 'i' => 'I', 'j' => 'J', 'k' => 'K', 'l' => 'L',
        'm' => 'M', 'n' => 'N', 'o' => 'O', 'p' => 'P', 'q' => 'Q', 'r' => 'R',
        's' => 'S', 't' => 'T', 'u' => 'U', 'v' => 'V', 'w' => 'W', 'x' => 'X',
        'y' => 'Y', 'z' => 'Z',
        _ => c,
    }
}

pub fn lower_char_exec(c: char) -> (r: char)
    ensures
        r == lower_char(c),
{
    match c {
        'A' => 'a', 'B' => 'b', 'C' => 'c', 'D' => 'd', 'E' => 'e', 'F' => 'f',
        'G' => 'g', 'H' => 'h', 'I' => 'i', 'J' => 'j', 'K' => 'k', 'L' => 'l',
        'M' => 'm', 'N' => 'n', 'O' => 'o', 'P' => 'p', 'Q' => 'q', 'R' => 'r',
        'S' => 's', 'T' => 't', 'U' => 'u', 'V' => 'v', 'W' => 'w', 'X' => 'x',
        'Y' => 'y', 'Z' => 'z',
        _ => c,
    }
}

pub fn upper_char_exec(c: char) -> (r: char)
    ensures
        r == upper_char(c),
{
    match c {
        'a' => 'A', 'b' => 'B', 'c' => 'C', 'd' => 'D', 'e' => 'E', 'f' => 'F',
        'g' => 'G', 'h' => 'H', 'i' => 'I', 'j' => 'J', 'k' => 'K', 'l' => 'L',
        'm' => 'M', 'n' => 'N', 'o' => 'O', 'p' => 'P', 'q' => 'Q', 'r' => 'R',
        's' => 'S', 't' => 'T', 'u' => 'U', 'v' => 'V', 'w' => 'W', 'x' => 'X',
        'y' => 'Y', 'z' => 'Z',
        _ => c,
    }
}

pub fn is_digit_exec(c: char) -> (r: bool)
    ensures
        r == is_digit(c),
{
    '0' <= c && c <= '9'
}

pub fn is_numchar_exec(c: char) -> (r: bool)
    ensures
        r == is_numchar(c),
{
    is_digit_exec(c) || c == '.'
}

pub fn is_space_exec(c: char) -> (r: bool)
    ensures
        r == is_space(c),
{
    c == ' ' || c == '\t' || c == '\n' || c == '\r' || c == '\u{b}' || c == '\u{c}'
}

/// The characters of a string slice, in order.
pub fn chars_of(s: &str) -> (r: Vec<char>)
    ensures
        r@ == s@,
{
    let n = s.unicode_len();
    let mut r: Vec<char> = Vec::new();
    let mut i: usize = 0;
    while i < n
        invariant
            i <= n,
            n == s@.len(),
            r@ == s@.take(i as int),
        decreases n - i,
    {
        let c = s.get_char(i);
        r.push(c);
        proof {
            assert(s@.take(i + 1 as int) =~= s@.take(i as int).push(s@[i as int]));
        }
        i += 1;
    }
    proof {
        assert(s@.take(n as int) =~= s@);
    }
    r
}

/// Relies on `String::from_iter` over `char`: the returned string holds
/// exactly the given characters, in order.
#[verifier::external_body]
pub(crate) fn string_from_chars(v: &Vec<char>) -> (r: String)
    ensures
        r@ == v@,
{
    v.iter().collect()
}

pub fn chars_eq(a: &Vec<char>, b: &Vec<char>) -> (r: bool)
    ensures
        r == (a@ == b@),
{
    if a.len() != b.len() {
        return false;
    }
    let mut i: usize = 0;
    while i < a.len()
        invariant
            i <= a.len(),
            a.len() == b.len(),
            forall|j: int| 0 <= j < i ==> a@[j] == b@[j],
        decreases a.len() - i,
    {
        if a[i] != b[i] {
            return false;
        }
        i += 1;
    }
    proof {
        assert(a@ =~= b@);
    }
    true
}

/// The least index of `c` in `s`; meaningful only when `c` occurs.
pub open spec fn first_index(s: Seq<char>, c: char) -> int
    decreases s.len(),
{
    if s.len() == 0 {
        0
    } else if s[0] == c {
        0
    } else {
        1 + first_index(s.drop_first(), c)
    }
}

pub proof fn lemma_first_index_at(s: Seq<char>, c: char, i: int)
    requires
        0 <= i < s.len(),
        s[i] == c,
        forall|j: int| 0 <= j < i ==> s[j] != c,
    ensures
        first_index(s, c) == i,
    decreases i,
{
    if i > 0 {
        lemma_first_index_at(s.drop_first(), c, i - 1);
    }
}

/// The first index of `c` in `s`, if any.
pub fn find_char(s: &Vec<char>, c: char) -> (r: Option<usize>)
    ensures
        match r {
            Some(i) => i < s@.len() && s@[i as int] == c && first_index(s@, c) == i
                && forall|j: int| 0 <= j < i ==> s@[j] != c,
            None => forall|j: int| 0 <= j < s@.len() ==> s@[j] != c,
        },
{
    let mut i: usize = 0;
    while i < s.len()
        invariant
            i <= s.len(),
            forall|j: int| 0 <= j < i ==> s@[j] != c,
        decreases s.len() - i,
    {
        if s[i] == c {
            proof {
                lemma_first_index_at(s@, c, i as int);
            }
            return Some(i);
        }
        i += 1;
    }
    None
}

/// True when `needle` occurs in `hay` starting at `i`.
pub open spec fn match_at(hay: Seq<char>, needle: Seq<char>, i: int) -> bool {
    &&& 0 <= i
    &&& i + needle.len() <= hay.len()
    &&& forall|j: int| 0 <= j < needle.len() ==> hay[i + j] == needle[j]
}

/// Substring containment, verbatim.
pub open spec fn contains_seq(hay: Seq<char>, needle: Seq<char>) -> bool {
    exists|i: int| match_at(hay, needle, i)
}

pub fn contains_chars(hay: &Vec<char>, needle: &Vec<char>) -> (r: bool)
    ensures
        r == contains_seq(hay@, needle@),
{
    if needle.len() > hay.len() {
        proof {
            assert(forall|i: int| !match_at(hay@, needle@, i));
        }
        return false;
    }
    let end = hay.len() - needle.len();
    let mut i: usize = 0;
    loop
        invariant
            i <= end,
            end == hay@.len() - needle@.len(),
            needle@.len() <= hay@.len(),
            forall|k: int| 0 <= k < i ==> !match_at(hay@, needle@, k),
        decreases end - i,
    {
        let mut j: usize = 0;
        let mut hit = true;
        let hn = hay.len();
        let nn = needle.len();
        while j < nn
            invariant
                j <= nn,
                i <= end,
                hn == hay@.len(),
                nn == needle@.len(),
                end == hay@.len() - needle@.len(),
                hit ==> forall|l: int| 0 <= l < j ==> hay@[i + l] == needle@[l],
                !hit ==> !match_at(hay@, needle@, i as int),
            decreases nn - j,
        {
            assert(i + j < hn);
            if hay[i + j] != needle[j] {
                hit = false;
                proof {
                    assert(!match_at(hay@, needle@, i as int));
                }
                j = nn;
            } else {
                j += 1;
            }
        }
        if hit {
            proof {
                assert(match_at(hay@, needle@, i as int));
            }
            return true;
        }
        if i == end {
            proof {
                assert(forall|k: int| !match_at(hay@, needle@, k));
            }
            return false;
        }
        i += 1;
    }
}

/// `s` with every character mapped to its ASCII lower case.
pub open spec fn lower_seq(s: Seq<char>) -> Seq<char> {
    s.map_values(|c: char| lower_char(c))
}

pub fn lower_chars(s: &Vec<char>) -> (r: Vec<char>)
    ensures
        r@ == lower_seq(s@),
{
    let mut r: Vec<char> = Vec::new();
    let mut i: usize = 0;
    while i < s.len()
        invariant
            i <= s.len(),
            r@ == lower_seq(s@.take(i as int)),
        decreases s.len() - i,
    {
        r.push(lower_char_exec(s[i]));
        proof {
            assert(lower_seq(s@.take(i + 1 as int)) =~= lower_seq(s@.take(i as int)).push(
                lower_char(s@[i as int]),
            ));
        }
        i += 1;
    }
    proof {
        assert(s@.take(s@.len() as int) =~= s@);
    }
    r
}

pub fn upper_chars(s: &Vec<char>) -> (r: Vec<char>)
    ensures
        r@ == s@.map_values(|c: char| upper_char(c)),
{
    let mut r: Vec<char> = Vec::new();
    let mut i: usize = 0;
    while i < s.len()
        invariant
            i <= s.len(),
            r@ == s@.take(i as int).map_values(|c: char| upper_char(c)),
        decreases s.len() - i,
    {
        r.push(upper_char_exec(s[i]));
        proof {
            assert(s@.take(i + 1 as int).map_values(|c: char| upper_char(c)) =~= s@.take(
                i as int,
            ).map_values(|c: char| upper_char(c)).push(upper_char(s@[i as int])));
        }
        i += 1;
    }
    proof {
        assert(s@.take(s@.len() as int) =~= s@);
    }
    r
}

/// `s` with all commas removed, the thousands-separator policy.
pub open spec fn strip_commas(s: Seq<char>) -> Seq<char>
    decreases s.len(),
{
    if s.len() == 0 {
        Seq::empty()
    } else if s.last() == ',' {
        strip_commas(s.drop_last())
    } else {
        strip_commas(s.drop_last()).push(s.last())
    }
}

pub fn strip_commas_exec(s: &Vec<char>) -> (r: Vec<char>)
    ensures
        r@ == strip_commas(s@),
{
    let mut r: Vec<char> = Vec::new();
    let mut i: usize = 0;
    while i < s.len()
        invariant
            i <= s.len(),
            r@ == strip_commas(s@.take(i as int)),
        decreases s.len() - i,
    {
        proof {
            assert(s@.take(i + 1 as int).drop_last() =~= s@.take(i as int));
        }
        if s[i] != ',' {
            r.push(s[i]);
        }
        i += 1;
    }
    proof {
        assert(s@.take(s@.len() as int) =~= s@);
    }
    r
}

/// Only the digits and decimal points of `s`, the monthly-span cleanup.
pub open spec fn keep_numchars(s: Seq<char>) -> Seq<char>
    decreases s.len(),
{
    if s.len() == 0 {
        Seq::empty()
    } else if is_numchar(s.last()) {
        keep_numchars(s.drop_last()).push(s.last())
    } else {
        keep_numchars(s.drop_last())
    }
}

pub fn keep_numchars_exec(s: &Vec<char>) -> (r: Vec<char>)
    ensures
        r@ == keep_numchars(s@),
{
    let mut r: Vec<char> = Vec::new();
    let mut i: usize = 0;
    while i < s.len()
        invariant
            i <= s.len(),
            r@ == keep_numchars(s@.take(i as int)),
        decreases s.len() - i,
    {
        proof {
            assert(s@.take(i + 1 as int).drop_last() =~= s@.take(i as int));
        }
        if is_numchar_exec(s[i]) {
            r.push(s[i]);
        }
        i += 1;
    }
    proof {
        assert(s@.take(s@.len() as int) =~= s@);
    }
    r
}

pub open spec fn all_digits(s: Seq<char>) -> bool {
    forall|i: int| 0 <= i < s.len() ==> is_digit(s[i])
}

pub open spec fn all_numchars(s: Seq<char>) -> bool {
    forall|i: int| 0 <= i < s.len() ==> is_numchar(s[i])
}

pub open spec fn has_digit(s: Seq<char>) -> bool {
    exists|i: int| 0 <= i < s.len() && is_digit(s[i])
}

/// The value of a digit string, most significant first.
pub open spec fn digits_val(s: Seq<char>) -> int
    decreases s.len(),
{
    if s.len() == 0 {
        0
    } else {
        digits_val(s.drop_last()) * 10 + (s.last() as u32 - '0' as u32)
    }
}

pub proof fn lemma_digits_val_nonneg(s: Seq<char>)
    requires
        all_digits(s),
    ensures
        digits_val(s) >= 0,
    decreases s.len(),
{
    if s.len() > 0 {
        assert(all_digits(s.drop_last()));
        lemma_digits_val_nonneg(s.drop_last());
    }
}

/// A digit string is worth at least any of its prefixes.
pub proof fn lemma_digits_val_prefix(s: Seq<char>, k: int)
    requires
        all_digits(s),
        0 <= k <= s.len(),
    ensures
        digits_val(s) >= digits_val(s.take(k)),
    decreases s.len() - k,
{
    if k < s.len() {
        lemma_digits_val_prefix(s, k + 1);
        assert(s.take(k + 1).drop_last() =~= s.take(k));
        assert(all_digits(s.take(k)));
        lemma_digits_val_nonneg(s.take(k));
        assert(digits_val(s.take(k + 1)) >= digits_val(s.take(k)) * 10);
    } else {
        assert(s.take(k) =~= s);
    }
}

/// ten to the `n`th.
pub open spec fn pow10(n: int) -> int
    decreases n,
{
    if n <= 0 {
        1
    } else {
        10 * pow10(n - 1)
    }
}

/// The value in millionths of a fractional-digit string, truncated past six
/// digits.
pub open spec fn frac_micros(f: Seq<char>) -> int {
    if f.len() <= 6 {
        digits_val(f) * pow10(6 - f.len())
    } else {
        digits_val(f.take(6))
    }
}

pub open spec fn has_char(s: Seq<char>, c: char) -> bool {
    exists|i: int| 0 <= i < s.len() && s[i] == c
}

/// The rate, in millionths, written in a bare numeric token: digits with at
/// most one decimal point and at least one digit, within the precision cap.
pub open spec fn token_micros(t: Seq<char>) -> Option<u64> {
    if !all_numchars(t) || !has_digit(t) {
        None
    } else if !has_char(t, '.') {
        cap_micros(digits_val(t) * 1000000)
    } else {
        let ip = t.take(first_index(t, '.'));
        let f = t.skip(first_index(t, '.') + 1);
        if has_char(f, '.') {
            None
        } else {
            cap_micros(digits_val(ip) * 1000000 + frac_micros(f))
        }
    }
}

pub open spec fn cap_micros(m: int) -> Option<u64> {
    if m > MAX_RATE_MICROS {
        None
    } else {
        Some(m as u64)
    }
}

/// Digit strings are worth less than ten to their length.
pub proof fn lemma_digits_val_upper(s: Seq<char>)
    requires
        all_digits(s),
    ensures
        digits_val(s) < pow10(s.len() as int),
    decreases s.len(),
{
    if s.len() > 0 {
        assert(all_digits(s.drop_last()));
        lemma_digits_val_upper(s.drop_last());
        assert(s.last() as u32 - '0' as u32 <= 9);
    }
}

pub proof fn lemma_pow10_pos(n: int)
    ensures
        pow10(n) >= 1,
    decreases n,
{
    if n > 0 {
        lemma_pow10_pos(n - 1);
    }
}

pub proof fn lemma_pow10_mul(a: int, b: int)
    requires
        a >= 0,
        b >= 0,
    ensures
        pow10(a) * pow10(b) == pow10(a + b),
    decreases a,
{
    if a == 0 {
        assert(pow10(0) * pow10(b) == pow10(b));
    } else {
        lemma_pow10_mul(a - 1, b);
        assert(pow10(a) * pow10(b) == 10 * (pow10(a - 1) * pow10(b)))
            by (nonlinear_arith)
            requires pow10(a) == 10 * pow10(a - 1),
        ;
    }
}

/// Copy of the characters at `[from, to)`.
pub fn subvec(s: &Vec<char>, from: usize, to: usize) -> (r: Vec<char>)
    requires
        from <= to <= s@.len(),
    ensures
        r@ == s@.subrange(from as int, to as int),
{
    let mut r: Vec<char> = Vec::new();
    let mut i: usize = from;
    while i < to
        invariant
            from <= i <= to <= s@.len(),
            r@ == s@.subrange(from as int, i as int),
        decreases to - i,
    {
        r.push(s[i]);
        proof {
            assert(s@.subrange(from as int, i + 1 as int) =~= s@.subrange(
                from as int,
                i as int,
            ).push(s@[i as int]));
        }
        i += 1;
    }
    r
}

/// The value of an all-digit string, or `None` past the precision cap.
fn digits_parse(s: &Vec<char>) -> (r: Option<u64>)
    requires
        all_digits(s@),
    ensures
        match r {
            Some(v) => v == digits_val(s@) && v <= 1_000_000_000_000u64,
            None => digits_val(s@) > 1_000_000_000_000,
        },
{
    let mut v: u64 = 0;
    let mut k: usize = 0;
    let n = s.len();
    while k < n
        invariant
            k <= n,
            n == s@.len(),
            all_digits(s@),
            v == digits_val(s@.take(k as int)),
            v <= 1_000_000_000_000u64,
        decreases n - k,
    {
        let c = s[k];
        assert(is_digit(c));
        let d = (c as u32 - '0' as u32) as u64;
        proof {
            assert(s@.take(k + 1 as int).drop_last() =~= s@.take(k as int));
            assert(s@.take(k + 1 as int).last() == s@[k as int]);
        }
        v = v * 10 + d;
        if v > 1_000_000_000_000u64 {
            proof {
                lemma_digits_val_prefix(s@, k + 1);
                assert(s@.take(s@.len() as int) =~= s@);
            }
            return None;
        }
        k += 1;
    }
    proof {
        assert(s@.take(n as int) =~= s@);
    }
    Some(v)
}

fn pow10_exec(n: usize) -> (r: u64)
    requires
        n <= 6,
    ensures
        r == pow10(n as int),
{
    proof {
        reveal_with_fuel(pow10, 7);
    }
    match n {
        0 => 1,
        1 => 10,
        2 => 100,
        3 => 1000,
        4 => 10000,
        5 => 100000,
        _ => {
            assert(pow10(6) == 1000000) by {
                reveal_with_fuel(pow10, 7);
            }
            1000000
        },
    }
}

/// The value in millionths of the fractional digits.
fn frac_parse(f: &Vec<char>) -> (r: u64)
    requires
        all_digits(f@),
    ensures
        r == frac_micros(f@),
        r < 1_000_000,
{
    let cnt = if f.len() < 6 {
        f.len()
    } else {
        6
    };
    let six = subvec(f, 0, cnt);
    proof {
        assert(all_digits(six@));
        lemma_digits_val_upper(six@);
        lemma_pow10_pos(6 - cnt as int);
        lemma_pow10_pos(cnt as int);
        lemma_pow10_mul(cnt as int, 6 - cnt as int);
        vstd::arithmetic::mul::lemma_mul_inequality(
            1,
            pow10(6 - cnt as int),
            pow10(cnt as int),
        );
        assert(pow10(6) == 1000000) by {
            reveal_with_fuel(pow10, 7);
        }
        assert(pow10(cnt as int) <= 1000000);
    }
    let v = match digits_parse(&six) {
        Some(v) => v,
        None => {
            proof {
                assert(false);
            }
            0
        },
    };
    if f.len() <= 6 {
        proof {
            assert(six@ =~= f@);
            assert(v * pow10(6 - cnt as int) < 1000000) by (nonlinear_arith)
                requires
                    v < pow10(cnt as int),
                    v >= 0,
                    pow10(cnt as int) * pow10(6 - cnt as int) == 1000000,
                    pow10(6 - cnt as int) >= 1,
            ;
        }
        v * pow10_exec(6 - cnt)
    } else {
        proof {
            assert(six@ =~= f@.take(6));
        }
        v
    }
}

/// Parse a whole character string as one numeric token.
pub fn parse_token(t: &Vec<char>) -> (r: Option<Rate>)
    ensures
        match r {
            Some(rt) => token_micros(t@) == Some(rt.micros) && rt.wf(),
            None => token_micros(t@) is None,
        },
{
    let n = t.len();
    let mut i: usize = 0;
    let mut saw_digit = false;
    while i < n
        invariant
            i <= n,
            n == t@.len(),
            forall|j: int| 0 <= j < i ==> is_numchar(t@[j]),
            saw_digit ==> has_digit(t@),
            !saw_digit ==> forall|j: int| 0 <= j < i ==> !is_digit(t@[j]),
        decreases n - i,
    {
        if !is_numchar_exec(t[i]) {
            return None;
        }
        if is_digit_exec(t[i]) {
            saw_digit = true;
        }
        i += 1;
    }
    if !saw_digit {
        assert(!has_digit(t@));
        return None;
    }
    assert(all_numchars(t@));
    match find_char(t, '.') {
        None => {
            assert(!has_char(t@, '.'));
            let v = match digits_parse(t) {
                Some(v) => v,
                None => {
                    return None;
                },
            };
            if v > 1_000_000_000_000u64 {
                return None;
            }
            let m = v * 1_000_000;
            if m > MAX_RATE_MICROS {
                None
            } else {
                Some(Rate { micros: m })
            }
        },
        Some(i0) => {
            assert(has_char(t@, '.'));
            let frac = subvec(t, i0 + 1, n);
            proof {
                assert(frac@ =~= t@.skip(i0 + 1 as int));
            }
            if let Some(_) = find_char(&frac, '.') {
                assert(has_char(t@.skip(first_index(t@, '.') + 1), '.'));
                return None;
            }
            assert(!has_char(t@.skip(first_index(t@, '.') + 1), '.'));
            let ip = subvec(t, 0, i0);
            proof {
                assert(ip@ =~= t@.take(i0 as int));
                assert(all_digits(ip@));
                assert(all_digits(frac@));
            }
            let v = match digits_parse(&ip) {
                Some(v) => v,
                None => {
                    proof {
                        lemma_digits_val_nonneg(frac@);
                        lemma_pow10_pos(6 - frac@.len() as int);
                        if frac@.len() <= 6 {
                            vstd::arithmetic::mul::lemma_mul_inequality(
                                0,
                                digits_val(frac@),
                                pow10(6 - frac@.len() as int),
                            );
                        } else {
                            assert(all_digits(frac@.take(6)));
                            lemma_digits_val_nonneg(frac@.take(6));
                        }
                    }
                    return None;
                },
            };
            let fr = frac_parse(&frac);
            let m = v * 1_000_000 + fr;
            if m > MAX_RATE_MICROS {
                None
            } else {
                Some(Rate { micros: m })
            }
        },
    }
}

/// The longest all-numeric prefix of `s`.
pub open spec fn leading_numrun(s: Seq<char>) -> Seq<char>
    decreases s.len(),
{
    if s.len() > 0 && is_numchar(s[0]) {
        seq![s[0]] + leading_numrun(s.drop_first())
    } else {
        Seq::empty()
    }
}

pub proof fn lemma_leading_numrun_len(s: Seq<char>)
    ensures
        0 <= leading_numrun(s).len() <= s.len(),
        s.len() > 0 && is_numchar(s[0]) ==> leading_numrun(s).len() >= 1,
    decreases s.len(),
{
    if s.len() > 0 && is_numchar(s[0]) {
        lemma_leading_numrun_len(s.drop_first());
    }
}

pub proof fn lemma_leading_numrun_is(s: Seq<char>, k: int)
    requires
        0 <= k <= s.len(),
        forall|j: int| 0 <= j < k ==> is_numchar(s[j]),
        k < s.len() ==> !is_numchar(s[k]),
    ensures
        leading_numrun(s) == s.take(k),
    decreases k,
{
    if k == 0 {
        assert(leading_numrun(s) =~= s.take(0));
    } else {
        lemma_leading_numrun_is(s.drop_first(), k - 1);
        assert(seq![s[0]] + s.drop_first().take(k - 1) =~= s.take(k));
    }
}

/// The first maximal run of numeric characters that holds a digit, scanning
/// left to right; the first-match-wins policy.
pub open spec fn first_numeric_token(s: Seq<char>) -> Option<Seq<char>>
    decreases s.len(),
    via first_numeric_token_decreases
{
    if s.len() == 0 {
        None
    } else if !is_numchar(s[0]) {
        first_numeric_token(s.drop_first())
    } else {
        let run = leading_numrun(s);
        if has_digit(run) {
            Some(run)
        } else {
            first_numeric_token(s.skip(run.len() as int))
        }
    }
}

#[via_fn]
proof fn first_numeric_token_decreases(s: Seq<char>) {
    lemma_leading_numrun_len(s);
}

/// Scan for the end of the numeric run starting at `i`.
fn run_end(s: &Vec<char>, i: usize) -> (j: usize)
    requires
        i <= s@.len(),
    ensures
        i <= j <= s@.len(),
        forall|k: int| i <= k < j ==> is_numchar(s@[k]),
        j < s@.len() ==> !is_numchar(s@[j as int]),
{
    let mut j: usize = i;
    let n = s.len();
    while j < n
        invariant
            i <= j <= n,
            n == s@.len(),
            forall|k: int| i <= k < j ==> is_numchar(s@[k]),
        decreases n - j,
    {
        if !is_numchar_exec(s[j]) {
            return j;
        }
        j += 1;
    }
    j
}

fn any_digit_in(s: &Vec<char>, i: usize, j: usize) -> (r: bool)
    requires
        i <= j <= s@.len(),
    ensures
        r == exists|k: int| i <= k < j && is_digit(s@[k]),
{
    let mut k: usize = i;
    while k < j
        invariant
            i <= k <= j <= s@.len(),
            forall|l: int| i <= l < k ==> !is_digit(s@[l]),
        decreases j - k,
    {
        if is_digit_exec(s[k]) {
            return true;
        }
        k += 1;
    }
    false
}

/// The first numeric token of the character string, if any.
pub fn first_token(s: &Vec<char>) -> (r: Option<Vec<char>>)
    ensures
        match r {
            Some(t) => first_numeric_token(s@) == Some(t@),
            None => first_numeric_token(s@) is None,
        },
{
    let n = s.len();
    let mut i: usize = 0;
    proof {
        assert(s@.skip(0) =~= s@);
    }
    while i < n
        invariant
            i <= n,
            n == s@.len(),
            first_numeric_token(s@) == first_numeric_token(s@.skip(i as int)),
        decreases n - i,
    {
        if !is_numchar_exec(s[i]) {
            proof {
                assert(s@.skip(i as int).drop_first() =~= s@.skip(i + 1 as int));
            }
            i += 1;
        } else {
            let j = run_end(s, i);
            proof {
                assert forall|l: int| 0 <= l < j - i implies is_numchar(s@.skip(i as int)[l]) by {
                    assert(s@.skip(i as int)[l] == s@[i + l]);
                }
                lemma_leading_numrun_is(s@.skip(i as int), j - i);
                assert(s@.skip(i as int).take(j - i) =~= s@.subrange(i as int, j as int));
            }
            if any_digit_in(s, i, j) {
                let t = subvec(s, i, j);
                proof {
                    let run = leading_numrun(s@.skip(i as int));
                    assert(run == s@.subrange(i as int, j as int));
                    let k = choose|k: int| i <= k < j && is_digit(s@[k]);
                    assert(run[k - i] == s@[k]);
                    assert(has_digit(run));
                }
                return Some(t);
            }
            proof {
                let run = leading_numrun(s@.skip(i as int));
                assert(run == s@.subrange(i as int, j as int));
                assert forall|l: int| 0 <= l < run.len() implies !is_digit(run[l]) by {
                    assert(run[l] == s@[i + l]);
                }
                assert(!has_digit(run));
                assert(s@.skip(i as int).skip(j - i) =~= s@.skip(j as int));
            }
            i = j;
        }
    }
    proof {
        assert(s@.skip(n as int) =~= Seq::<char>::empty());
    }
    None
}

/// What the text normalizer extracts from a free-form fragment, in
/// millionths: commas stripped, first numeric token, parsed.
pub open spec fn rate_of_text(s: Seq<char>) -> Option<u64> {
    match first_numeric_token(strip_commas(s)) {
        Some(t) => token_micros(t),
        None => None,
    }
}

/// The text normalizer: the first numeric token of `text`, with thousands
/// separators stripped, as a fixed-point rate.
pub fn extract_rate(text: &str) -> (r: Option<Rate>)
    ensures
        match r {
            Some(rt) => rate_of_text(text@) == Some(rt.micros) && rt.wf(),
            None => rate_of_text(text@) is None,
        },
{
    let cs = chars_of(text);
    let stripped = strip_commas_exec(&cs);
    match first_token(&stripped) {
        Some(t) => parse_token(&t),
        None => None,
    }
}

/// Parse a whole string as one numeric token, the CSV rate-column policy.
pub fn parse_rate_str(s: &str) -> (r: Option<Rate>)
    ensures
        match r {
            Some(rt) => token_micros(s@) == Some(rt.micros) && rt.wf(),
            None => token_micros(s@) is None,
        },
{
    let cs = chars_of(s);
    parse_token(&cs)
}

} // verus!

