//! Civil-calendar arithmetic: day numbers relative to the Unix epoch,
//! date rendering, and the fixed `YYYY-MM-DD HH:MM:SS` timestamp pattern
//! interpreted as UTC.

use vstd::prelude::*;

use crate::digits::{digit_val, is_digit};

verus! {

pub open spec fn is_leap(y: int) -> bool {
    (y % 4 == 0 && y % 100 != 0) || y % 400 == 0
}

pub open spec fn days_in_year(y: int) -> int {
    if is_leap(y) {
        366
    } else {
        365
    }
}

pub open spec fn days_in_month(y: int, m: int) -> int {
    if m == 1 {
        31
    } else if m == 2 {
        if is_leap(y) {
            29
        } else {
            28
        }
    } else if m == 3 {
        31
    } else if m == 4 {
        30
    } else if m == 5 {
        31
    } else if m == 6 {
        30
    } else if m == 7 {
        31
    } else if m == 8 {
        31
    } else if m == 9 {
        30
    } else if m == 10 {
        31
    } else if m == 11 {
        30
    } else if m == 12 {
        31
    } else {
        0
    }
}

/// Days in all years before `y`, counted from year 0.
pub open spec fn days_before_year(y: nat) -> int
    decreases y,
{
    if y == 0 {
        0
    } else {
        days_before_year((y - 1) as nat) + days_in_year(y - 1)
    }
}

/// Days in all months of year `y` before month `m`.
pub open spec fn days_before_month(y: int, m: int) -> int
    decreases m,
{
    if m <= 1 {
        0
    } else {
        days_before_month(y, m - 1) + days_in_month(y, m - 1)
    }
}

/// Days between year 0 and the Unix epoch, 1970-01-01.
pub const EPOCH_OFFSET_DAYS: i64 = 719528;

/// Day number of a civil date, relative to 1970-01-01.
pub open spec fn spec_day_number(y: int, m: int, d: int) -> int {
    days_before_year(if y >= 0 {
        y as nat
    } else {
        0nat
    }) + days_before_month(y, m) + (d - 1) - EPOCH_OFFSET_DAYS
}

pub open spec fn valid_date(y: int, m: int, d: int) -> bool {
    0 <= y <= 9999 && 1 <= m <= 12 && 1 <= d <= days_in_month(y, m)
}

pub proof fn lemma_days_before_year_bounds(y: nat)
    ensures
        365 * y <= days_before_year(y) <= 366 * y,
    decreases y,
{
    if y > 0 {
        lemma_days_before_year_bounds((y - 1) as nat);
    }
}

pub proof fn lemma_days_before_month_bounds(y: int, m: int)
    requires
        1 <= m <= 13,
    ensures
        0 <= days_before_month(y, m) <= 31 * (m - 1),
    decreases m,
{
    if m > 1 {
        lemma_days_before_month_bounds(y, m - 1);
    }
}

fn leap_exec(y: u64) -> (r: bool)
    ensures
        r == is_leap(y as int),
{
    (y % 4 == 0 && y % 100 != 0) || y % 400 == 0
}

fn days_in_month_exec(y: u64, m: u64) -> (r: u64)
    ensures
        r == days_in_month(y as int, m as int),
{
    if m == 1 {
        31
    } else if m == 2 {
        if leap_exec(y) {
            29
        } else {
            28
        }
    } else if m == 3 {
        31
    } else if m == 4 {
        30
    } else if m == 5 {
        31
    } else if m == 6 {
        30
    } else if m == 7 {
        31
    } else if m == 8 {
        31
    } else if m == 9 {
        30
    } else if m == 10 {
        31
    } else if m == 11 {
        30
    } else if m == 12 {
        31
    } else {
        0
    }
}

/// Day number of a valid civil date, relative to 1970-01-01.
pub fn day_number(y: u64, m: u64, d: u64) -> (z: i64)
    requires
        valid_date(y as int, m as int, d as int),
    ensures
        z == spec_day_number(y as int, m as int, d as int),
        -EPOCH_OFFSET_DAYS <= z <= 2950000,
{
    let mut acc: i64 = 0;
    let mut yy: u64 = 0;
    while yy < y
        invariant
            yy <= y,
            y <= 9999,
            acc == days_before_year(yy as nat),
            0 <= acc <= 366 * yy,
        decreases y - yy,
    {
        proof {
            lemma_days_before_year_bounds(yy as nat);
        }
        if leap_exec(yy) {
            acc = acc + 366;
        } else {
            acc = acc + 365;
        }
        yy += 1;
    }
    let mut mm: u64 = 1;
    while mm < m
        invariant
            1 <= mm <= m,
            m <= 12,
            y <= 9999,
            acc == days_before_year(y as nat) + days_before_month(y as int, mm as int),
            days_before_year(y as nat) <= acc <= days_before_year(y as nat) + 372,
        decreases m - mm,
    {
        proof {
            lemma_days_before_year_bounds(y as nat);
            lemma_days_before_month_bounds(y as int, mm as int);
        }
        acc = acc + days_in_month_exec(y, mm) as i64;
        mm += 1;
    }
    proof {
        lemma_days_before_year_bounds(y as nat);
        lemma_days_before_month_bounds(y as int, m as int);
    }
    acc + (d as i64 - 1) - EPOCH_OFFSET_DAYS
}

/// The last representable day: 9999-12-31.
pub const MAX_DAY_NUMBER: i64 = 2932896;

/// Closed form of the day count before a year, through the leap rule.
#[verifier::rlimit(60)]
pub proof fn lemma_days_before_year_closed(y: nat)
    ensures
        days_before_year(y) == 365 * y + (y + 3) / 4 - (y + 99) / 100 + (y + 399) / 400,
    decreases y,
{
    if y > 0 {
        lemma_days_before_year_closed((y - 1) as nat);
    }
}

/// The civil date of a day number: the unique valid date whose day
/// number is `z`.
pub fn civil_from_days(z: i64) -> (ymd: (u64, u64, u64))
    requires
        -EPOCH_OFFSET_DAYS <= z <= MAX_DAY_NUMBER,
    ensures
        valid_date(ymd.0 as int, ymd.1 as int, ymd.2 as int),
        spec_day_number(ymd.0 as int, ymd.1 as int, ymd.2 as int) == z,
{
    let total: i64 = z + EPOCH_OFFSET_DAYS;
    proof {
        lemma_days_before_year_closed(10000nat);
    }
    let mut y: u64 = 0;
    let mut acc: i64 = 0;
    loop
        invariant
            y <= 9999,
            acc == days_before_year(y as nat),
            acc <= total,
            0 <= total <= 3652424,
        ensures
            y <= 9999,
            acc == days_before_year(y as nat),
            acc <= total,
            total - acc < days_in_year(y as int),
        decreases 10000 - y,
    {
        proof {
            lemma_days_before_year_bounds(y as nat);
        }
        let len: i64 = if leap_exec(y) {
            366
        } else {
            365
        };
        if acc + len <= total {
            acc = acc + len;
            y += 1;
            proof {
                if y >= 10000 {
                    lemma_days_before_year_closed(10000nat);
                    assert(days_before_year(10000nat) == 3652425);
                }
            }
        } else {
            break ;
        }
    }
    let rest_after_years: i64 = total - acc;
    proof {
        assert(rest_after_years < days_in_year(y as int));
    }
    let mut m: u64 = 1;
    let mut md: i64 = 0;
    loop
        invariant
            1 <= m <= 12,
            y <= 9999,
            md == days_before_month(y as int, m as int),
            md <= rest_after_years,
            0 <= rest_after_years,
            rest_after_years < days_in_year(y as int),
        ensures
            1 <= m <= 12,
            md == days_before_month(y as int, m as int),
            md <= rest_after_years,
            rest_after_years - md < days_in_month(y as int, m as int),
        decreases 13 - m,
    {
        let len: i64 = days_in_month_exec(y, m) as i64;
        if md + len <= rest_after_years {
            md = md + len;
            m += 1;
            proof {
                if m >= 13 {
                    lemma_month_total(y as int);
                }
            }
        } else {
            break ;
        }
    }
    let d: u64 = (rest_after_years - md + 1) as u64;
    (y, m, d)
}

/// All twelve months together make the year's days.
proof fn lemma_month_total(y: int)
    ensures
        days_before_month(y, 13) == days_in_year(y),
{
    reveal_with_fuel(days_before_month, 14);
}

/// The `YYYY-MM-DD` rendering of a date.
pub open spec fn spec_date_chars(y: nat, m: nat, d: nat) -> Seq<char> {
    crate::digits::spec_padded(y, 4) + seq!['-'] + crate::digits::spec_padded(m, 2) + seq!['-']
        + crate::digits::spec_padded(d, 2)
}

/// Renders a date as `YYYY-MM-DD`.
pub fn date_string(y: u64, m: u64, d: u64) -> (s: String)
    ensures
        s@ == spec_date_chars(y as nat, m as nat, d as nat),
{
    let mut out = String::new();
    proof {
        reveal_strlit("-");
    }
    crate::digits::push_padded(y, 4, &mut out);
    out.append("-");
    crate::digits::push_padded(m, 2, &mut out);
    out.append("-");
    crate::digits::push_padded(d, 2, &mut out);
    proof {
        assert(out@ =~= spec_date_chars(y as nat, m as nat, d as nat));
    }
    out
}

/// Whether `cs` renders the civil date of day number `z` as
/// `YYYY-MM-DD`.
pub open spec fn is_day_chars(cs: Seq<char>, z: int) -> bool {
    exists|y: int, m: int, d: int|
        valid_date(y, m, d) && #[trigger] spec_day_number(y, m, d) == z && cs == spec_date_chars(
            y as nat,
            m as nat,
            d as nat,
        )
}

/// Renders the civil date of a day number as `YYYY-MM-DD`.
pub fn day_string(z: i64) -> (s: String)
    requires
        -EPOCH_OFFSET_DAYS <= z <= MAX_DAY_NUMBER,
    ensures
        is_day_chars(s@, z as int),
{
    let (y, m, d) = civil_from_days(z);
    date_string(y, m, d)
}

/// Value of the two digits at `i`.
pub open spec fn two_digits(s: Seq<char>, i: int) -> int {
    digit_val(s[i]) * 10 + digit_val(s[i + 1])
}

/// Whether `s` matches the fixed `YYYY-MM-DD HH:MM:SS` pattern.
pub open spec fn naive_pattern_ok(s: Seq<char>) -> bool {
    s.len() == 19 && s[4] == '-' && s[7] == '-' && s[10] == ' ' && s[13] == ':' && s[16] == ':'
        && is_digit(s[0]) && is_digit(s[1]) && is_digit(s[2]) && is_digit(s[3]) && is_digit(s[5])
        && is_digit(s[6]) && is_digit(s[8]) && is_digit(s[9]) && is_digit(s[11]) && is_digit(s[12])
        && is_digit(s[14]) && is_digit(s[15]) && is_digit(s[17]) && is_digit(s[18])
}

/// The epoch milliseconds denoted by a `YYYY-MM-DD HH:MM:SS` string
/// interpreted as UTC, when the pattern matches and the fields are a
/// valid date and time of day.
pub open spec fn spec_parse_naive_ms(s: Seq<char>) -> Option<i64> {
    if naive_pattern_ok(s) {
        let y = two_digits(s, 0) * 100 + two_digits(s, 2);
        let m = two_digits(s, 5);
        let d = two_digits(s, 8);
        let h = two_digits(s, 11);
        let mi = two_digits(s, 14);
        let sec = two_digits(s, 17);
        if valid_date(y, m, d) && h <= 23 && mi <= 59 && sec <= 59 {
            Some(((spec_day_number(y, m, d) * 86400 + h * 3600 + mi * 60 + sec) * 1000) as i64)
        } else {
            None
        }
    } else {
        None
    }
}

fn digit_at(s: &str, i: usize) -> (r: Option<u64>)
    requires
        i < s@.len(),
    ensures
        match r {
            Some(d) => is_digit(s@[i as int]) && d == digit_val(s@[i as int]) && d < 10,
            None => !is_digit(s@[i as int]),
        },
{
    let c = s.get_char(i);
    if c == '0' {
        Some(0)
    } else if c == '1' {
        Some(1)
    } else if c == '2' {
        Some(2)
    } else if c == '3' {
        Some(3)
    } else if c == '4' {
        Some(4)
    } else if c == '5' {
        Some(5)
    } else if c == '6' {
        Some(6)
    } else if c == '7' {
        Some(7)
    } else if c == '8' {
        Some(8)
    } else if c == '9' {
        Some(9)
    } else {
        None
    }
}

fn two_at(s: &str, i: usize) -> (r: Option<u64>)
    requires
        i <= 17,
        i + 1 < s@.len(),
    ensures
        match r {
            Some(v) => is_digit(s@[i as int]) && is_digit(s@[i as int + 1]) && v == two_digits(
                s@,
                i as int,
            ) && v <= 99,
            None => !(is_digit(s@[i as int]) && is_digit(s@[i as int + 1])),
        },
{
    match (digit_at(s, i), digit_at(s, i + 1)) {
        (Some(a), Some(b)) => Some(a * 10 + b),
        _ => None,
    }
}

/// Parses the fixed `YYYY-MM-DD HH:MM:SS` pattern as UTC epoch
/// milliseconds.
pub fn parse_naive_utc_ms(s: &str) -> (r: Option<i64>)
    ensures
        r == spec_parse_naive_ms(s@),
{
    if s.unicode_len() != 19 {
        return None;
    }
    if !(s.get_char(4) == '-' && s.get_char(7) == '-' && s.get_char(10) == ' ' && s.get_char(13)
        == ':' && s.get_char(16) == ':') {
        return None;
    }
    let hi = match two_at(s, 0) {
        Some(v) => v,
        None => {
            return None;
        },
    };
    let lo = match two_at(s, 2) {
        Some(v) => v,
        None => {
            return None;
        },
    };
    let m = match two_at(s, 5) {
        Some(v) => v,
        None => {
            return None;
        },
    };
    let d = match two_at(s, 8) {
        Some(v) => v,
        None => {
            return None;
        },
    };
    let h = match two_at(s, 11) {
        Some(v) => v,
        None => {
            return None;
        },
    };
    let mi = match two_at(s, 14) {
        Some(v) => v,
        None => {
            return None;
        },
    };
    let sec = match two_at(s, 17) {
        Some(v) => v,
        None => {
            return None;
        },
    };
    let y = hi * 100 + lo;
    if !(1 <= m && m <= 12) {
        return None;
    }
    if !(1 <= d && d <= days_in_month_exec(y, m)) {
        return None;
    }
    if !(h <= 23 && mi <= 59 && sec <= 59) {
        return None;
    }
    let day: i64 = day_number(y, m, d);
    Some((day * 86400 + h as i64 * 3600 + mi as i64 * 60 + sec as i64) * 1000)
}

} // verus!
