//! Calendar dates as plain values: the month/day/4-digit-year tokens of the
//! CSV export, full month names, and the year string of a query.

use vstd::prelude::*;
use crate::text::{
    all_digits, digits_val, is_digit, is_digit_exec, find_char, first_index, subvec,
    lemma_digits_val_prefix, lemma_digits_val_nonneg, chars_of, chars_eq,
};

verus! {

/// A valid calendar date with a four-digit year.
#[derive(Clone, Copy, Debug, PartialEq, Eq, Structural)]
pub struct Date {
    pub year: u16,
    pub month: u8,
    pub day: u8,
}

pub open spec fn is_leap_year(y: int) -> bool {
    y % 4 == 0 && (y % 100 != 0 || y % 400 == 0)
}

pub open spec fn days_in_month(y: int, m: int) -> int {
    if m == 2 {
        if is_leap_year(y) {
            29
        } else {
            28
        }
    } else if m == 4 || m == 6 || m == 9 || m == 11 {
        30
    } else {
        31
    }
}

impl Date {
    pub open spec fn wf(self) -> bool {
        &&& self.year <= 9999
        &&& 1 <= self.month <= 12
        &&& 1 <= self.day <= days_in_month(self.year as int, self.month as int)
    }
}

/// The full English name of month `m`, as the CSV dates render it.
pub open spec fn month_name_seq(m: int) -> Seq<char> {
    if m == 1 {
        seq!['J', 'a', 'n', 'u', 'a', 'r', 'y']
    } else if m == 2 {
        seq!['F', 'e', 'b', 'r', 'u', 'a', 'r', 'y']
    } else if m == 3 {
        seq!['M', 'a', 'r', 'c', 'h']
    } else if m == 4 {
        seq!['A', 'p', 'r', 'i', 'l']
    } else if m == 5 {
        seq!['M', 'a', 'y']
    } else if m == 6 {
        seq!['J', 'u', 'n', 'e']
    } else if m == 7 {
        seq!['J', 'u', 'l', 'y']
    } else if m == 8 {
        seq!['A', 'u', 'g', 'u', 's', 't']
    } else if m == 9 {
        seq!['S', 'e', 'p', 't', 'e', 'm', 'b', 'e', 'r']
    } else if m == 10 {
        seq!['O', 'c', 't', 'o', 'b', 'e', 'r']
    } else if m == 11 {
        seq!['N', 'o', 'v', 'e', 'm', 'b', 'e', 'r']
    } else if m == 12 {
        seq!['D', 'e', 'c', 'e', 'm', 'b', 'e', 'r']
    } else {
        Seq::empty()
    }
}

/// Whether `month` is exactly the full name of month `m`.
pub fn month_name_matches(m: u8, month: &Vec<char>) -> (r: bool)
    ensures
        r == (month@ == month_name_seq(m as int)),
{
    let name: Vec<char> = match m {
        1 => vec!['J', 'a', 'n', 'u', 'a', 'r', 'y'],
        2 => vec!['F', 'e', 'b', 'r', 'u', 'a', 'r', 'y'],
        3 => vec!['M', 'a', 'r', 'c', 'h'],
        4 => vec!['A', 'p', 'r', 'i', 'l'],
        5 => vec!['M', 'a', 'y'],
        6 => vec!['J', 'u', 'n', 'e'],
        7 => vec!['J', 'u', 'l', 'y'],
        8 => vec!['A', 'u', 'g', 'u', 's', 't'],
        9 => vec!['S', 'e', 'p', 't', 'e', 'm', 'b', 'e', 'r'],
        10 => vec!['O', 'c', 't', 'o', 'b', 'e', 'r'],
        11 => vec!['N', 'o', 'v', 'e', 'm', 'b', 'e', 'r'],
        12 => vec!['D', 'e', 'c', 'e', 'm', 'b', 'e', 'r'],
        _ => Vec::new(),
    };
    proof {
        assert(name@ =~= month_name_seq(m as int));
    }
    chars_eq(month, &name)
}

/// The date written `month/day/4-digit-year`, if the token is one.
pub open spec fn date_of_token(s: Seq<char>) -> Option<Date> {
    if !has_slash(s) {
        None
    } else {
        let a = s.take(first_index(s, '/'));
        let rest = s.skip(first_index(s, '/') + 1);
        if !has_slash(rest) {
            None
        } else {
            let b = rest.take(first_index(rest, '/'));
            let c = rest.skip(first_index(rest, '/') + 1);
            date_of_fields(a, b, c)
        }
    }
}

pub open spec fn has_slash(s: Seq<char>) -> bool {
    exists|i: int| 0 <= i < s.len() && s[i] == '/'
}

pub open spec fn date_of_fields(a: Seq<char>, b: Seq<char>, c: Seq<char>) -> Option<Date> {
    if 1 <= a.len() <= 2 && all_digits(a) && 1 <= b.len() <= 2 && all_digits(b) && c.len() == 4
        && all_digits(c) && !has_slash(c) {
        let m = digits_val(a);
        let d = digits_val(b);
        let y = digits_val(c);
        if 1 <= m <= 12 && 1 <= d <= days_in_month(y, m) {
            Some(Date { year: y as u16, month: m as u8, day: d as u8 })
        } else {
            None
        }
    } else {
        None
    }
}

/// An all-digit field of at most four characters, as a number.
fn small_digits(s: &Vec<char>) -> (r: Option<u16>)
    ensures
        match r {
            Some(v) => all_digits(s@) && v == digits_val(s@) && s@.len() <= 4 && v <= 9999,
            None => !all_digits(s@) || s@.len() > 4,
        },
{
    if s.len() > 4 {
        return None;
    }
    let mut v: u32 = 0;
    let mut k: usize = 0;
    while k < s.len()
        invariant
            k <= s@.len(),
            s@.len() <= 4,
            v == digits_val(s@.take(k as int)),
            v < crate::text::pow10(k as int),
            forall|j: int| 0 <= j < k ==> is_digit(s@[j]),
        decreases s@.len() - k,
    {
        let c = s[k];
        if !is_digit_exec(c) {
            return None;
        }
        proof {
            assert(s@.take(k + 1 as int).drop_last() =~= s@.take(k as int));
            assert(s@.take(k + 1 as int).last() == s@[k as int]);
            assert(crate::text::pow10(0) == 1 && crate::text::pow10(1) == 10
                && crate::text::pow10(2) == 100 && crate::text::pow10(3) == 1000
                && crate::text::pow10(4) == 10000) by {
                reveal_with_fuel(crate::text::pow10, 5);
            }
            assert(v <= 9999);
            assert(crate::text::pow10(k + 1 as int) == 10 * crate::text::pow10(k as int));
        }
        let d = (c as u32 - '0' as u32) as u32;
        v = v * 10 + d;
        k += 1;
    }
    proof {
        assert(s@.take(s@.len() as int) =~= s@);
        assert(crate::text::pow10(0) == 1 && crate::text::pow10(1) == 10
            && crate::text::pow10(2) == 100 && crate::text::pow10(3) == 1000
            && crate::text::pow10(4) == 10000) by {
            reveal_with_fuel(crate::text::pow10, 5);
        }
        assert(v <= 9999);
    }
    Some(v as u16)
}

fn is_leap_year_exec(y: u16) -> (r: bool)
    ensures
        r == is_leap_year(y as int),
{
    y % 4 == 0 && (y % 100 != 0 || y % 400 == 0)
}

fn days_in_month_exec(y: u16, m: u8) -> (r: u8)
    ensures
        r == days_in_month(y as int, m as int),
{
    if m == 2 {
        if is_leap_year_exec(y) {
            29
        } else {
            28
        }
    } else if m == 4 || m == 6 || m == 9 || m == 11 {
        30
    } else {
        31
    }
}

/// Parse a `month/day/4-digit-year` token into a calendar date.
pub fn parse_date_token(s: &Vec<char>) -> (r: Option<Date>)
    ensures
        r == date_of_token(s@),
        r matches Some(d) ==> d.wf(),
{
    let n = s.len();
    let i0 = match find_char(s, '/') {
        Some(i) => i,
        None => {
            return None;
        },
    };
    let rest = subvec(s, i0 + 1, n);
    proof {
        assert(rest@ =~= s@.skip(i0 + 1 as int));
    }
    let j0 = match find_char(&rest, '/') {
        Some(j) => j,
        None => {
            return None;
        },
    };
    let a = subvec(s, 0, i0);
    let b = subvec(&rest, 0, j0);
    let c = subvec(&rest, j0 + 1, rest.len());
    proof {
        assert(a@ =~= s@.take(first_index(s@, '/')));
        assert(b@ =~= rest@.take(first_index(rest@, '/')));
        assert(c@ =~= rest@.skip(first_index(rest@, '/') + 1));
    }
    if a.len() < 1 || a.len() > 2 || b.len() < 1 || b.len() > 2 || c.len() != 4 {
        return None;
    }
    if let Some(_) = find_char(&c, '/') {
        return None;
    }
    let m = match small_digits(&a) {
        Some(v) => v,
        None => {
            return None;
        },
    };
    let d = match small_digits(&b) {
        Some(v) => v,
        None => {
            return None;
        },
    };
    let y = match small_digits(&c) {
        Some(v) => v,
        None => {
            return None;
        },
    };
    proof {
        lemma_digits_val_nonneg(a@);
        lemma_digits_val_nonneg(b@);
        lemma_digits_val_nonneg(c@);
    }
    if m < 1 || m > 12 || d < 1 {
        return None;
    }
    let md = m as u8;
    let dim = days_in_month_exec(y, md);
    if d > dim as u16 {
        return None;
    }
    Some(Date { year: y, month: md, day: d as u8 })
}

/// The first whitespace-delimited segment of `s`, if any; the CSV date cell
/// carries the date token there.
pub open spec fn first_segment(s: Seq<char>) -> Option<Seq<char>>
    decreases s.len(),
    via first_segment_decreases
{
    if s.len() == 0 {
        None
    } else if crate::text::is_space(s[0]) {
        first_segment(s.drop_first())
    } else {
        Some(leading_nonspace(s))
    }
}

/// The longest prefix of `s` without whitespace.
pub open spec fn leading_nonspace(s: Seq<char>) -> Seq<char>
    decreases s.len(),
{
    if s.len() > 0 && !crate::text::is_space(s[0]) {
        seq![s[0]] + leading_nonspace(s.drop_first())
    } else {
        Seq::empty()
    }
}

#[via_fn]
proof fn first_segment_decreases(s: Seq<char>) {
}

proof fn lemma_leading_nonspace_is(s: Seq<char>, k: int)
    requires
        0 <= k <= s.len(),
        forall|j: int| 0 <= j < k ==> !crate::text::is_space(s[j]),
        k < s.len() ==> crate::text::is_space(s[k]),
    ensures
        leading_nonspace(s) == s.take(k),
    decreases k,
{
    if k == 0 {
        assert(leading_nonspace(s) =~= s.take(0));
    } else {
        lemma_leading_nonspace_is(s.drop_first(), k - 1);
        assert(seq![s[0]] + s.drop_first().take(k - 1) =~= s.take(k));
    }
}

/// Scan for the first whitespace at or past `i`.
fn nonspace_end(s: &Vec<char>, i: usize) -> (j: usize)
    requires
        i <= s@.len(),
    ensures
        i <= j <= s@.len(),
        forall|k: int| i <= k < j ==> !crate::text::is_space(s@[k]),
        j < s@.len() ==> crate::text::is_space(s@[j as int]),
{
    let mut j: usize = i;
    let n = s.len();
    while j < n
        invariant
            i <= j <= n,
            n == s@.len(),
            forall|k: int| i <= k < j ==> !crate::text::is_space(s@[k]),
        decreases n - j,
    {
        if crate::text::is_space_exec(s[j]) {
            return j;
        }
        j += 1;
    }
    j
}

/// The first whitespace-delimited segment, executable.
pub fn first_segment_exec(s: &Vec<char>) -> (r: Option<Vec<char>>)
    ensures
        match r {
            Some(t) => first_segment(s@) == Some(t@),
            None => first_segment(s@) is None,
        },
{
    let n = s.len();
    let mut i: usize = 0;
    proof {
        assert(s@.skip(0) =~= s@);
    }
    while i < n
        invariant
            i <= n,
            n == s@.len(),
            first_segment(s@) == first_segment(s@.skip(i as int)),
        decreases n - i,
    {
        if crate::text::is_space_exec(s[i]) {
            proof {
                assert(s@.skip(i as int).drop_first() =~= s@.skip(i + 1 as int));
            }
            i += 1;
        } else {
            let j = nonspace_end(s, i);
            let t = subvec(s, i, j);
            proof {
                assert forall|l: int| 0 <= l < j - i implies !crate::text::is_space(
                    s@.skip(i as int)[l],
                ) by {
                    assert(s@.skip(i as int)[l] == s@[i + l]);
                }
                lemma_leading_nonspace_is(s@.skip(i as int), j - i);
                assert(s@.skip(i as int).take(j - i) =~= s@.subrange(i as int, j as int));
            }
            return Some(t);
        }
    }
    proof {
        assert(s@.skip(n as int) =~= Seq::<char>::empty());
    }
    None
}

/// The query year string as a number: an optional sign and digits, within
/// the range of 32-bit integers.
pub open spec fn year_digits(s: Seq<char>) -> Seq<char> {
    if s.len() > 0 && (s[0] == '+' || s[0] == '-') {
        s.drop_first()
    } else {
        s
    }
}

pub open spec fn year_is_negative(s: Seq<char>) -> bool {
    s.len() > 0 && s[0] == '-'
}

pub open spec fn year_of_string(s: Seq<char>) -> Option<int> {
    let digits = year_digits(s);
    let neg = year_is_negative(s);
    if digits.len() == 0 || !all_digits(digits) {
        None
    } else {
        let v = if neg {
            -digits_val(digits)
        } else {
            digits_val(digits)
        };
        if v < -2147483648 || v > 2147483647 {
            None
        } else {
            Some(v)
        }
    }
}

/// Parse the query year string, the step that rejects malformed input
/// before any fetch.
pub fn parse_year(year: &str) -> (r: Option<i32>)
    ensures
        match r {
            Some(y) => year_of_string(year@) == Some(y as int),
            None => year_of_string(year@) is None,
        },
{
    let cs = chars_of(year);
    let n = cs.len();
    let (neg, start): (bool, usize) = if n > 0 && (cs[0] == '+' || cs[0] == '-') {
        (cs[0] == '-', 1)
    } else {
        (false, 0)
    };
    let digits = subvec(&cs, start, n);
    proof {
        if start == 1 {
            assert(digits@ =~= cs@.drop_first());
        } else {
            assert(digits@ =~= cs@);
        }
        assert(digits@ == year_digits(year@));
        assert(neg == year_is_negative(year@));
    }
    if digits.len() == 0 {
        return None;
    }
    let mut k: usize = 0;
    while k < digits.len()
        invariant
            k <= digits@.len(),
            digits@ == year_digits(year@),
            forall|j: int| 0 <= j < k ==> is_digit(digits@[j]),
        decreases digits@.len() - k,
    {
        if !is_digit_exec(digits[k]) {
            proof {
                assert(!is_digit(digits@[k as int]));
                assert(!all_digits(digits@));
            }
            return None;
        }
        k += 1;
    }
    assert(all_digits(digits@));
    let mut v: u64 = 0;
    k = 0;
    while k < digits.len()
        invariant
            k <= digits@.len(),
            digits@ == year_digits(year@),
            all_digits(digits@),
            v == digits_val(digits@.take(k as int)),
            v <= 2147483648u64,
        decreases digits@.len() - k,
    {
        let c = digits[k];
        proof {
            assert(digits@.take(k + 1 as int).drop_last() =~= digits@.take(k as int));
            assert(digits@.take(k + 1 as int).last() == digits@[k as int]);
        }
        let d = (c as u32 - '0' as u32) as u64;
        v = v * 10 + d;
        if v > 2147483648u64 {
            proof {
                lemma_digits_val_prefix(digits@, k + 1);
                assert(digits@.take(digits@.len() as int) =~= digits@);
                assert(digits_val(digits@) > 2147483648);
            }
            return None;
        }
        k += 1;
    }
    proof {
        assert(digits@.take(digits@.len() as int) =~= digits@);
    }
    if neg {
        if v > 2147483648u64 {
            return None;
        }
        Some((-(v as i64)) as i32)
    } else {
        if v > 2147483647u64 {
            return None;
        }
        Some(v as i32)
    }
}

} // verus!
