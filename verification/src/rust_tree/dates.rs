//! Calendar dates: from seconds since 1970 to year, month, day and time of day.

use vstd::prelude::*;
use crate::rust_tree::entry::Timestamp;
use crate::rust_tree::numbers::{decimal, pad_left, push_decimal_padded};
use crate::rust_tree::text::{chars_of, string_of};

verus! {

/// A leap year of the Gregorian calendar.
pub open spec fn is_leap_year(year: int) -> bool {
    (year % 4 == 0 && year % 100 != 0) || year % 400 == 0
}

/// The number of days of the year.
pub open spec fn days_in_year(year: int) -> int {
    if is_leap_year(year) {
        366
    } else {
        365
    }
}

/// The number of days of the month of the year.
pub open spec fn days_in_month(year: int, month: int) -> int {
    if month == 2 {
        if is_leap_year(year) {
            29
        } else {
            28
        }
    } else if month == 4 || month == 6 || month == 9 || month == 11 {
        30
    } else {
        31
    }
}

/// The leap years among the years 1 to `year`.
pub open spec fn leap_years_through(year: int) -> int {
    year / 4 - year / 100 + year / 400
}

/// The days from 1970-01-01 to the first day of `year`.
pub open spec fn days_before_year(year: int) -> int {
    (year - 1970) * 365 + leap_years_through(year - 1) - leap_years_through(1969)
}

/// The days from the first day of `year` to the first day of its `month`.
pub open spec fn days_before_month(year: int, month: int) -> int
    decreases month,
{
    if month <= 1 {
        0
    } else {
        days_before_month(year, month - 1) + days_in_month(year, month - 1)
    }
}

/// A date of the calendar.
#[derive(Clone, Copy, Debug, PartialEq, Eq, Structural)]
pub struct CivilDate {
    pub year: u64,
    pub month: u32,
    pub day: u32,
}

impl CivilDate {
    /// A day that the calendar has, 1970 or later.
    pub open spec fn valid(&self) -> bool {
        &&& self.year >= 1970
        &&& 1 <= self.month <= 12
        &&& 1 <= self.day <= days_in_month(self.year as int, self.month as int)
    }

    /// The days from 1970-01-01 to this date.
    pub open spec fn days_since_epoch(&self) -> int {
        days_before_year(self.year as int) + days_before_month(self.year as int, self.month as int)
            + self.day - 1
    }
}

proof fn lemma_next_year(year: int)
    requires
        year >= 1970,
    ensures
        days_before_year(year + 1) == days_before_year(year) + days_in_year(year),
{
}

proof fn lemma_cycles(cycles: int)
    requires
        cycles >= 0,
    ensures
        days_before_year(1970 + 400 * cycles) == 146097 * cycles,
{
}

proof fn lemma_years_grow(a: int, b: int)
    requires
        1970 <= a <= b,
    ensures
        days_before_year(a) <= days_before_year(b),
    decreases b - a,
{
    if a < b {
        lemma_years_grow(a, b - 1);
        lemma_next_year(b - 1);
    }
}

proof fn lemma_months_grow(year: int, a: int, b: int)
    requires
        1 <= a <= b <= 13,
    ensures
        days_before_month(year, a) <= days_before_month(year, b),
        days_before_month(year, 13) == days_in_year(year),
    decreases b - a,
{
    reveal_with_fuel(days_before_month, 14);
    if a < b {
        lemma_months_grow(year, a, b - 1);
    }
}

/// No two dates lie the same number of days after 1970-01-01.
pub proof fn lemma_date_unique(a: CivilDate, b: CivilDate)
    requires
        a.valid(),
        b.valid(),
        a.days_since_epoch() == b.days_since_epoch(),
    ensures
        a == b,
{
    let (ya, yb) = (a.year as int, b.year as int);
    let (ma, mb) = (a.month as int, b.month as int);
    lemma_months_grow(ya, ma + 1, 13);
    lemma_months_grow(yb, mb + 1, 13);
    lemma_next_year(ya);
    lemma_next_year(yb);
    assert(days_before_month(ya, ma + 1) == days_before_month(ya, ma) + days_in_month(ya, ma));
    assert(days_before_month(yb, mb + 1) == days_before_month(yb, mb) + days_in_month(yb, mb));
    assert(0 <= days_before_month(ya, ma)) by {
        lemma_months_grow(ya, 1, ma);
    }
    assert(0 <= days_before_month(yb, mb)) by {
        lemma_months_grow(yb, 1, mb);
    }
    if ya < yb {
        lemma_years_grow(ya + 1, yb);
    } else if yb < ya {
        lemma_years_grow(yb + 1, ya);
    } else if ma < mb {
        lemma_months_grow(ya, ma + 1, mb);
    } else if mb < ma {
        lemma_months_grow(ya, mb + 1, ma);
    }
}

/// The date that lies `days` days after 1970-01-01.
pub open spec fn date_of_days(days: int) -> CivilDate {
    choose|date: CivilDate| date.valid() && date.days_since_epoch() == days
}

fn leap_check(year: u64) -> (r: bool)
    ensures
        r == is_leap_year(year as int),
{
    (year % 4 == 0 && year % 100 != 0) || year % 400 == 0
}

fn month_length(year: u64, month: u32) -> (r: u64)
    ensures
        r == days_in_month(year as int, month as int),
{
    if month == 2 {
        if leap_check(year) {
            29
        } else {
            28
        }
    } else if month == 4 || month == 6 || month == 9 || month == 11 {
        30
    } else {
        31
    }
}

/// The date that lies `days` days after 1970-01-01.
pub fn civil_from_days(days: u64) -> (date: CivilDate)
    ensures
        date.valid(),
        date.days_since_epoch() == days,
        date == date_of_days(days as int),
{
    let cycles: u64 = days / 146097;
    let mut left: u64 = days % 146097;
    let mut year: u64 = 1970 + 400 * cycles;
    proof {
        lemma_cycles(cycles as int);
    }
    loop
        invariant
            1970 <= year <= 1970 + 400 * cycles + (146097 - left) / 365,
            left <= 146097,
            cycles == days / 146097,
            days_before_year(year as int) + left == days,
        ensures
            left < days_in_year(year as int),
        decreases left,
    {
        let length: u64 = if leap_check(year) {
            366
        } else {
            365
        };
        if left < length {
            break;
        }
        proof {
            lemma_next_year(year as int);
        }
        left = left - length;
        year = year + 1;
    }
    let mut month: u32 = 1;
    loop
        invariant
            1 <= month <= 12,
            year >= 1970,
            left < days_in_year(year as int) - days_before_month(year as int, month as int),
            days_before_year(year as int) + days_before_month(year as int, month as int) + left
                == days,
        ensures
            left < days_in_month(year as int, month as int),
        decreases 12 - month,
    {
        let length = month_length(year, month);
        if left < length {
            break;
        }
        assert(month < 12) by {
            reveal_with_fuel(days_before_month, 13);
        }
        assert(days_before_month(year as int, month + 1) == days_before_month(
            year as int,
            month as int,
        ) + length);
        left = left - length;
        month = month + 1;
    }
    let date = CivilDate { year, month, day: (left + 1) as u32 };
    proof {
        let found = date_of_days(days as int);
        assert(date.valid() && date.days_since_epoch() == days as int);
        assert(found.valid() && found.days_since_epoch() == days as int);
        lemma_date_unique(date, found);
    }
    date
}

/// `n` written with at least two digits.
pub open spec fn two_digits(n: nat) -> Seq<char> {
    pad_left(decimal(n), 2, '0')
}

/// Date and time of day as `YYYY-MM-DD HH:MM:SS`; `second_of_day` counts the
/// seconds since midnight.
pub open spec fn date_time_text(date: CivilDate, second_of_day: nat) -> Seq<char> {
    pad_left(decimal(date.year as nat), 4, '0') + seq!['-'] + two_digits(date.month as nat)
        + seq!['-'] + two_digits(date.day as nat) + seq![' '] + two_digits(second_of_day / 3600)
        + seq![':'] + two_digits((second_of_day / 60) % 60) + seq![':'] + two_digits(
        second_of_day % 60,
    )
}

/// The text of a time: the date and time of day in UTC, to the second, or
/// `Unknown date` for a time before 1970.
pub open spec fn date_text(time: Timestamp) -> Seq<char> {
    if time.secs < 0 {
        "Unknown date"@
    } else {
        date_time_text(date_of_days(time.secs / 86400), (time.secs % 86400) as nat)
    }
}

/// Writes a time as date and time of day in UTC.
pub fn format_date(time: Timestamp) -> (text: String)
    ensures
        text@ == date_text(time),
{
    if time.secs < 0 {
        return string_of(&chars_of("Unknown date"));
    }
    let secs: u64 = time.secs as u64;
    let date = civil_from_days(secs / 86400);
    let second_of_day: u64 = secs % 86400;
    let mut out: Vec<char> = Vec::new();
    push_decimal_padded(&mut out, date.year, 4, '0');
    out.push('-');
    push_decimal_padded(&mut out, date.month as u64, 2, '0');
    out.push('-');
    push_decimal_padded(&mut out, date.day as u64, 2, '0');
    out.push(' ');
    push_decimal_padded(&mut out, second_of_day / 3600, 2, '0');
    out.push(':');
    push_decimal_padded(&mut out, (second_of_day / 60) % 60, 2, '0');
    out.push(':');
    push_decimal_padded(&mut out, second_of_day % 60, 2, '0');
    assert(out@ =~= date_time_text(date, second_of_day as nat));
    string_of(&out)
}

} // verus!
