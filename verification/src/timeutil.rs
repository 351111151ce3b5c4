//! Calendar arithmetic for the remote's timestamps, which are written as
//! `YYYY-MM-DDTHH:MM:SSZ` in universal time.

use vstd::prelude::*;
use vstd::string::*;
use crate::text::{decimal_nat, push_char, push_decimal_nat};

verus! {

/// The first year that a timestamp can name.
pub const FIRST_YEAR: i64 = 1970;

/// The last year that a timestamp can name.
pub const LAST_YEAR: i64 = 9999;

/// A leap year of the Gregorian calendar.
pub open spec fn leap_year(y: int) -> bool {
    y % 4 == 0 && (y % 100 != 0 || y % 400 == 0)
}

/// Days in the year `y`.
pub open spec fn year_days(y: int) -> int {
    if leap_year(y) {
        366
    } else {
        365
    }
}

/// Days in the month `m` of the year `y`.
pub open spec fn month_days(y: int, m: int) -> int {
    if m == 2 {
        if leap_year(y) {
            29
        } else {
            28
        }
    } else if m == 4 || m == 6 || m == 9 || m == 11 {
        30
    } else {
        31
    }
}

/// Days from the first day of 1970 to the first day of the year `y`.
pub open spec fn days_before_year(y: int) -> int
    decreases y,
{
    if y <= 1970 {
        0
    } else {
        days_before_year(y - 1) + year_days(y - 1)
    }
}

/// Days from the first day of the year `y` to the first day of its month `m`.
pub open spec fn days_before_month(y: int, m: int) -> int
    decreases m,
{
    if m <= 1 {
        0
    } else {
        days_before_month(y, m - 1) + month_days(y, m - 1)
    }
}

/// A date of the calendar, from 1970 to 9999.
pub open spec fn valid_date(y: int, m: int, d: int) -> bool {
    1970 <= y <= 9999 && 1 <= m <= 12 && 1 <= d <= month_days(y, m)
}

/// Days from the first day of 1970 to the date.
pub open spec fn unix_days(y: int, m: int, d: int) -> int {
    days_before_year(y) + days_before_month(y, m) + d - 1
}

fn is_leap(y: i64) -> (r: bool)
    requires
        0 <= y,
    ensures
        r == leap_year(y as int),
{
    y % 4 == 0 && (y % 100 != 0 || y % 400 == 0)
}

fn days_in_month(y: i64, m: i64) -> (r: i64)
    requires
        0 <= y,
    ensures
        r == month_days(y as int, m as int),
        28 <= r <= 31,
{
    if m == 2 {
        if is_leap(y) {
            29
        } else {
            28
        }
    } else if m == 4 || m == 6 || m == 9 || m == 11 {
        30
    } else {
        31
    }
}

/// Days from the first day of 1970 to the date.
fn days_from_civil(y: i64, m: i64, d: i64) -> (r: i64)
    requires
        valid_date(y as int, m as int, d as int),
    ensures
        r == unix_days(y as int, m as int, d as int),
        0 <= r <= 366 * 8031,
{
    let mut days: i64 = 0;
    let mut year: i64 = 1970;
    while year < y
        invariant
            1970 <= year <= y <= 9999,
            days == days_before_year(year as int),
            0 <= days <= 366 * (year - 1970),
        decreases y - year,
    {
        days = days + if is_leap(year) {
            366
        } else {
            365
        };
        year = year + 1;
    }
    let mut month: i64 = 1;
    let ghost base = days;
    while month < m
        invariant
            1 <= month <= m <= 12,
            0 <= y,
            days == base + days_before_month(y as int, month as int),
            0 <= base <= 366 * 8029,
            0 <= days - base <= 31 * (month - 1),
        decreases m - month,
    {
        days = days + days_in_month(y, month);
        month = month + 1;
    }
    days + d - 1
}

/// The numeric value of a decimal digit, if `c` is one.
pub open spec fn digit_value(c: char) -> Option<int> {
    if '0' <= c && c <= '9' {
        Some((c as u32) - 48)
    } else {
        None
    }
}

/// The number that the `n` digits of `s` from `at` write, if they are digits.
pub open spec fn digits_value(s: Seq<char>, at: int, n: int) -> Option<int>
    decreases n,
{
    if n <= 0 {
        Some(0)
    } else if at + n > s.len() || at < 0 {
        None
    } else {
        match (digits_value(s, at, n - 1), digit_value(s[at + n - 1])) {
            (Some(hi), Some(lo)) => Some(hi * 10 + lo),
            _ => None,
        }
    }
}

/// The unix time that the timestamp `s` names, if it is one: the form is
/// `YYYY-MM-DDTHH:MM:SSZ`, the date is a date of the calendar from 1970 on,
/// and the time is a time of day.
pub open spec fn timestamp_value(s: Seq<char>) -> Option<int> {
    if s.len() != 20 || s[4] != '-' || s[7] != '-' || s[10] != 'T' || s[13] != ':' || s[16] != ':'
        || s[19] != 'Z' {
        None
    } else {
        match (
            digits_value(s, 0, 4),
            digits_value(s, 5, 2),
            digits_value(s, 8, 2),
            digits_value(s, 11, 2),
            digits_value(s, 14, 2),
            digits_value(s, 17, 2),
        ) {
            (Some(y), Some(mo), Some(d), Some(h), Some(mi), Some(sec)) => if valid_date(y, mo, d)
                && h < 24 && mi < 60 && sec < 60 {
                Some(unix_days(y, mo, d) * 86400 + h * 3600 + mi * 60 + sec)
            } else {
                None
            },
            _ => None,
        }
    }
}

fn read_digits(s: &str, at: usize, n: usize) -> (r: Option<i64>)
    requires
        s@.len() == 20,
        at + n <= 20,
        n <= 4,
    ensures
        r.is_some() == digits_value(s@, at as int, n as int).is_some(),
        r.is_some() ==> r.unwrap() == digits_value(s@, at as int, n as int).unwrap(),
        r.is_some() ==> 0 <= r.unwrap() <= 9999,
{
    let mut value: i64 = 0;
    let mut k: usize = 0;
    let mut bound: i64 = 1;
    while k < n
        invariant
            k <= n <= 4,
            s@.len() == 20,
            at + n <= 20,
            digits_value(s@, at as int, k as int) == Some(value as int),
            0 <= value < bound,
            bound == (if k == 0 { 1int } else if k == 1 { 10 } else if k == 2 { 100 } else if k == 3 {
                1000
            } else {
                10000
            }),
        decreases n - k,
    {
        let c = s.get_char(at + k);
        if c < '0' || c > '9' {
            proof {
                assert(digits_value(s@, at as int, (k + 1) as int).is_none());
                lemma_digits_prefix(s@, at as int, (k + 1) as int, n as int);
            }
            return None;
        }
        value = value * 10 + ((c as u32) - 48) as i64;
        bound = bound * 10;
        k = k + 1;
    }
    Some(value)
}

/// Digits that cannot be read up to some length cannot be read further.
proof fn lemma_digits_prefix(s: Seq<char>, at: int, k: int, n: int)
    requires
        0 <= k <= n,
        digits_value(s, at, k).is_none(),
    ensures
        digits_value(s, at, n).is_none(),
    decreases n - k,
{
    if k < n {
        lemma_digits_prefix(s, at, k, n - 1);
    }
}

/// The unix time that a timestamp of the remote names.
pub fn parse_github_datetime_to_unix(s: &str) -> (r: Option<i64>)
    ensures
        r.is_some() == timestamp_value(s@).is_some(),
        r.is_some() ==> r.unwrap() == timestamp_value(s@).unwrap(),
{
    if s.unicode_len() != 20 {
        return None;
    }
    if s.get_char(4) != '-' || s.get_char(7) != '-' || s.get_char(10) != 'T' || s.get_char(13)
        != ':' || s.get_char(16) != ':' || s.get_char(19) != 'Z' {
        return None;
    }
    let y = read_digits(s, 0, 4);
    let mo = read_digits(s, 5, 2);
    let d = read_digits(s, 8, 2);
    let h = read_digits(s, 11, 2);
    let mi = read_digits(s, 14, 2);
    let sec = read_digits(s, 17, 2);
    match (y, mo, d, h, mi, sec) {
        (Some(y), Some(mo), Some(d), Some(h), Some(mi), Some(sec)) => {
            if y < 1970 || mo < 1 || mo > 12 || d < 1 || d > days_in_month(y, mo) || h >= 24 || mi
                >= 60 || sec >= 60 {
                return None;
            }
            let days = days_from_civil(y, mo, d);
            Some(days * 86400 + h * 3600 + mi * 60 + sec)
        },
        _ => None,
    }
}

/// The date of a unix time, for times from 1970 to the end of 9999.
pub fn unix_to_ymd(ts: i64) -> (r: Option<(i64, i64, i64)>)
    ensures
        r.is_some() == (0 <= ts && ts / 86400 < days_before_year(10000)),
        r.is_some() ==> valid_date(r.unwrap().0 as int, r.unwrap().1 as int, r.unwrap().2 as int)
            && unix_days(r.unwrap().0 as int, r.unwrap().1 as int, r.unwrap().2 as int) == ts
            / 86400,
{
    if ts < 0 {
        return None;
    }
    let total: i64 = ts / 86400;
    let mut left: i64 = total;
    let mut year: i64 = 1970;
    let mut len: i64 = 365;
    while left >= len && year < 9999
        invariant
            1970 <= year <= 9999,
            0 <= left,
            total == ts / 86400,
            left + days_before_year(year as int) == total,
            len == year_days(year as int),
        decreases 10000 - year,
    {
        left = left - len;
        year = year + 1;
        len = if is_leap(year) {
            366
        } else {
            365
        };
    }
    if left >= len {
        return None;
    }
    proof {
        lemma_days_before_year_monotonic(year as int + 1, 10000);
    }
    let mut month: i64 = 1;
    let ghost in_year = left;
    while month < 12 && left >= days_in_month(year, month)
        invariant
            1 <= month <= 12,
            1970 <= year <= 9999,
            0 <= left,
            left + days_before_month(year as int, month as int) == in_year,
            in_year < year_days(year as int),
        decreases 12 - month,
    {
        left = left - days_in_month(year, month);
        month = month + 1;
    }
    proof {
        if month == 12 {
            lemma_year_is_twelve_months(year as int);
        }
    }
    Some((year, month, left + 1))
}

proof fn lemma_days_before_year_monotonic(a: int, b: int)
    requires
        a <= b,
    ensures
        days_before_year(a) <= days_before_year(b),
    decreases b - a,
{
    if a < b {
        lemma_days_before_year_monotonic(a, b - 1);
    }
}

proof fn lemma_year_is_twelve_months(y: int)
    ensures
        days_before_month(y, 12) + 31 == year_days(y),
{
    reveal_with_fuel(days_before_month, 13);
}

/// A date written as `YYYY-MM-DD`, each part padded with zeros.
pub open spec fn date_text(y: i64, m: i64, d: i64) -> Seq<char> {
    padded_number(y, 4) + "-"@ + padded_number(m, 2) + "-"@ + padded_number(d, 2)
}

/// The decimal form of `n`, with zeros in front up to `width` digits.
pub open spec fn padded_number(n: i64, width: int) -> Seq<char> {
    let digits = decimal_nat(n as nat);
    Seq::new((if digits.len() < width { width - digits.len() } else { 0 }) as nat, |i: int| '0')
        + digits
}

fn push_padded(out: &mut String, n: i64, width: usize)
    requires
        0 <= n <= 9999,
        width <= 4,
    ensures
        final(out)@ == old(out)@ + padded_number(n, width as int),
{
    let digits: usize = if n < 10 {
        1
    } else if n < 100 {
        2
    } else if n < 1000 {
        3
    } else {
        4
    };
    proof {
        reveal_with_fuel(decimal_nat, 5);
        assert(decimal_nat(n as nat).len() == digits);
    }
    let mut k: usize = digits;
    let ghost start = out@;
    assert(out@ =~= start + Seq::new(0nat, |i: int| '0'));
    while k < width
        invariant
            digits <= k,
            k <= 4,
            width <= 4,
            k <= width || k == digits,
            0 <= n <= 9999,
            decimal_nat(n as nat).len() == digits,
            out@ == start + Seq::new((k - digits) as nat, |i: int| '0'),
        decreases width - k,
    {
        push_char(out, '0');
        proof {
            assert((start + Seq::new((k - digits) as nat, |i: int| '0')).push('0') =~= start
                + Seq::new((k + 1 - digits) as nat, |i: int| '0'));
        }
        k = k + 1;
    }
    let ghost zeros = Seq::new((k - digits) as nat, |i: int| '0');
    push_decimal_nat(out, n as u64);
    proof {
        assert(zeros + decimal_nat(n as nat) =~= padded_number(n, width as int));
        assert(out@ =~= start + (zeros + decimal_nat(n as nat)));
    }
}

/// The date `y`-`m`-`d` written as `YYYY-MM-DD`.
pub(crate) fn ymd_string(y: i64, m: i64, d: i64) -> (r: String)
    requires
        valid_date(y as int, m as int, d as int),
    ensures
        r@ == date_text(y, m, d),
{
    let mut out = String::new();
    push_padded(&mut out, y, 4);
    out.append("-");
    push_padded(&mut out, m, 2);
    out.append("-");
    push_padded(&mut out, d, 2);
    proof {
        assert(out@ =~= date_text(y, m, d));
    }
    out
}

} // verus!
