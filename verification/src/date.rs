//! Calendar dates, parsed from and printed in the fixed `YYYY-MM-DD` form.

use vstd::prelude::*;
use crate::text::{is_digit, digit_val, digit_char, push_char, push_digit};

verus! {

/// A calendar date with a four-digit year.
#[derive(Clone, Copy, PartialEq, Eq, Structural, Debug)]
pub struct Date {
    pub year: u16,
    pub month: u8,
    pub day: u8,
}

/// Whether `y` is a leap year in the Gregorian calendar.
pub open spec fn is_leap_year(y: int) -> bool {
    y % 4 == 0 && (y % 100 != 0 || y % 400 == 0)
}

/// The number of days in month `m` of year `y`.
pub open spec fn spec_days_in_month(y: int, m: int) -> int {
    if m == 2 {
        if is_leap_year(y) {
            29
        } else {
            28
        }
    } else if m == 4 || m == 6 || m == 9 || m == 11 {
        30
    } else {
        31
    }
}

/// A well-formed date: a real day of the calendar, with a four-digit year.
pub open spec fn date_wf(d: Date) -> bool {
    &&& d.year <= 9999
    &&& 1 <= d.month <= 12
    &&& 1 <= d.day <= spec_days_in_month(d.year as int, d.month as int)
}

/// The year named by the first four characters of a date text.
pub open spec fn year_of(s: Seq<char>) -> int {
    digit_val(s[0]) * 1000 + digit_val(s[1]) * 100 + digit_val(s[2]) * 10 + digit_val(s[3])
}

/// The month named by characters five and six of a date text.
pub open spec fn month_of(s: Seq<char>) -> int {
    digit_val(s[5]) * 10 + digit_val(s[6])
}

/// The day named by the last two characters of a date text.
pub open spec fn day_of(s: Seq<char>) -> int {
    digit_val(s[8]) * 10 + digit_val(s[9])
}

/// Whether `s` matches `YYYY-MM-DD` and names a real calendar date.
pub open spec fn is_date_text(s: Seq<char>) -> bool {
    &&& s.len() == 10
    &&& is_digit(s[0]) && is_digit(s[1]) && is_digit(s[2]) && is_digit(s[3])
    &&& s[4] == '-'
    &&& is_digit(s[5]) && is_digit(s[6])
    &&& s[7] == '-'
    &&& is_digit(s[8]) && is_digit(s[9])
    &&& 1 <= month_of(s) <= 12
    &&& 1 <= day_of(s) <= spec_days_in_month(year_of(s), month_of(s))
}

/// The date named by a valid date text.
pub open spec fn spec_date_of(s: Seq<char>) -> Date {
    Date { year: year_of(s) as u16, month: month_of(s) as u8, day: day_of(s) as u8 }
}

/// The `YYYY-MM-DD` text of a date.
pub open spec fn spec_date_text(d: Date) -> Seq<char> {
    seq![
        digit_char(d.year as int / 1000),
        digit_char(d.year as int / 100 % 10),
        digit_char(d.year as int / 10 % 10),
        digit_char(d.year as int % 10),
        '-',
        digit_char(d.month as int / 10),
        digit_char(d.month as int % 10),
        '-',
        digit_char(d.day as int / 10),
        digit_char(d.day as int % 10),
    ]
}

/// The number of days in month `m` of year `y`.
pub fn days_in_month(y: u16, m: u8) -> (n: u8)
    ensures
        n as int == spec_days_in_month(y as int, m as int),
{
    if m == 2 {
        if y % 4 == 0 && (y % 100 != 0 || y % 400 == 0) {
            29
        } else {
            28
        }
    } else if m == 4 || m == 6 || m == 9 || m == 11 {
        30
    } else {
        31
    }
}

/// Reads the ASCII digit at position `i` of `s`, if there is one.
fn digit_at(s: &str, i: usize) -> (r: Option<u16>)
    requires
        i < s@.len(),
    ensures
        match r {
            Some(v) => is_digit(s@[i as int]) && v as int == digit_val(s@[i as int]) && v <= 9,
            None => !is_digit(s@[i as int]),
        },
{
    let c = s.get_char(i);
    let u = c as u32;
    if 48 <= u && u <= 57 {
        Some((u - 48) as u16)
    } else {
        None
    }
}

/// Parses a date from the fixed `YYYY-MM-DD` pattern. Returns a date exactly
/// when the text matches the pattern and names a real calendar day.
pub fn parse_date(s: &str) -> (r: Option<Date>)
    ensures
        r is Some <==> is_date_text(s@),
        r is Some ==> r->Some_0 == spec_date_of(s@) && date_wf(r->Some_0),
{
    let n = s.unicode_len();
    if n != 10 {
        return None;
    }
    if s.get_char(4) != '-' || s.get_char(7) != '-' {
        return None;
    }
    let (d0, d1, d2, d3) = match (digit_at(s, 0), digit_at(s, 1), digit_at(s, 2), digit_at(s, 3)) {
        (Some(a), Some(b), Some(c), Some(d)) => (a, b, c, d),
        _ => {
            return None;
        },
    };
    let (m0, m1) = match (digit_at(s, 5), digit_at(s, 6)) {
        (Some(a), Some(b)) => (a, b),
        _ => {
            return None;
        },
    };
    let (a0, a1) = match (digit_at(s, 8), digit_at(s, 9)) {
        (Some(a), Some(b)) => (a, b),
        _ => {
            return None;
        },
    };
    let year: u16 = d0 * 1000 + d1 * 100 + d2 * 10 + d3;
    let month: u8 = (m0 * 10 + m1) as u8;
    let day: u8 = (a0 * 10 + a1) as u8;
    if month < 1 || month > 12 {
        return None;
    }
    if day < 1 || day > days_in_month(year, month) {
        return None;
    }
    Some(Date { year, month, day })
}

/// Prints a well-formed date in the fixed `YYYY-MM-DD` pattern.
pub fn date_text(d: &Date) -> (r: String)
    requires
        date_wf(*d),
    ensures
        r@ == spec_date_text(*d),
{
    let mut r = String::new();
    push_digit(&mut r, (d.year / 1000) as u8);
    push_digit(&mut r, (d.year / 100 % 10) as u8);
    push_digit(&mut r, (d.year / 10 % 10) as u8);
    push_digit(&mut r, (d.year % 10) as u8);
    push_char(&mut r, '-');
    push_digit(&mut r, d.month / 10);
    push_digit(&mut r, d.month % 10);
    push_char(&mut r, '-');
    push_digit(&mut r, d.day / 10);
    push_digit(&mut r, d.day % 10);
    proof {
        assert(r@ =~= spec_date_text(*d));
    }
    r
}

/// A date printed in the fixed pattern parses back to itself.
#[verifier::rlimit(50)]
pub proof fn lemma_date_text_parse(d: Date)
    requires
        date_wf(d),
    ensures
        is_date_text(spec_date_text(d)),
        spec_date_of(spec_date_text(d)) == d,
{
    let s = spec_date_text(d);
    assert(digit_val(digit_char(d.year as int / 1000)) == d.year as int / 1000);
    assert(year_of(s) == d.year as int);
    assert(month_of(s) == d.month as int);
    assert(day_of(s) == d.day as int);
}

} // verus!
