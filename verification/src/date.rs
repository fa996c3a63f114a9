//! Calendar dates and the date-string formats the tool works with.
//!
//! A photo's capture date is carried in EXIF tags as a string in the
//! pattern `YYYY:MM:DD HH:MM:SS`; the user-facing boundary writes dates
//! as `YYYY-MM-DD`.  This module defines the calendar model (validity,
//! ordering, year and ISO week) and the exact parsers and formatters for
//! both patterns.

use vstd::arithmetic::div_mod::{
    lemma_div_denominator, lemma_div_is_ordered, lemma_div_nonincreasing, lemma_div_pos_is_pos,
    lemma_fundamental_div_mod,
};
use vstd::prelude::*;
use vstd::string::StrSliceExecFns;
use vstd::string::StringExecFns;

verus! {

/// A calendar date with no time component.
#[derive(Clone, Copy, Debug, PartialEq, Eq, Structural)]
pub struct Date {
    pub year: u32,
    pub month: u32,
    pub day: u32,
}

/// Proleptic Gregorian leap-year rule.
pub open spec fn is_leap_year(y: int) -> bool {
    (y % 4 == 0 && y % 100 != 0) || y % 400 == 0
}

/// Length of month `m` (1-based) in year `y`.
pub open spec fn days_in_month(y: int, m: int) -> int {
    if m == 2 {
        if is_leap_year(y) {
            29
        } else {
            28
        }
    } else if m == 4 || m == 6 || m == 9 || m == 11 {
        30
    } else {
        31
    }
}

/// The dates this tool accepts: the years writable as four digits, with a
/// real month and day.
pub open spec fn valid_date(d: Date) -> bool {
    &&& 0 <= d.year <= 9999
    &&& 1 <= d.month <= 12
    &&& 1 <= d.day <= days_in_month(d.year as int, d.month as int)
}

impl Date {
    /// Builds a date after checking it is a real calendar date.
    pub fn from_ymd(year: u32, month: u32, day: u32) -> (r: Option<Date>)
        ensures
            match r {
                Some(d) => d == (Date { year, month, day }) && valid_date(d),
                None => !valid_date(Date { year, month, day }),
            },
    {
        let d = Date { year, month, day };
        if year <= 9999 && 1 <= month && month <= 12 && 1 <= day && day <= days_in_month_exec(
            year,
            month,
        ) {
            Some(d)
        } else {
            None
        }
    }
}

/// Executable twin of `days_in_month`.
pub fn days_in_month_exec(y: u32, m: u32) -> (r: u32)
    ensures
        r == days_in_month(y as int, m as int),
{
    if m == 2 {
        if (y % 4 == 0 && y % 100 != 0) || y % 400 == 0 {
            29
        } else {
            28
        }
    } else if m == 4 || m == 6 || m == 9 || m == 11 {
        30
    } else {
        31
    }
}

/// `a` is on or before `b` in calendar order.
pub open spec fn date_le(a: Date, b: Date) -> bool {
    if a.year != b.year {
        a.year < b.year
    } else if a.month != b.month {
        a.month < b.month
    } else {
        a.day <= b.day
    }
}

/// Executable twin of `date_le`.
pub fn date_le_exec(a: &Date, b: &Date) -> (r: bool)
    ensures
        r == date_le(*a, *b),
{
    if a.year != b.year {
        a.year < b.year
    } else if a.month != b.month {
        a.month < b.month
    } else {
        a.day <= b.day
    }
}

/// The character `c` is a decimal digit.
pub open spec fn is_digit(c: char) -> bool {
    48 <= c as int <= 57
}

/// Numeric value of a decimal digit character.
pub open spec fn dval(c: char) -> int {
    c as int - 48
}

/// The digit character for a value in `0..10`.
pub open spec fn digit_char(v: int) -> char {
    if v == 0 {
        '0'
    } else if v == 1 {
        '1'
    } else if v == 2 {
        '2'
    } else if v == 3 {
        '3'
    } else if v == 4 {
        '4'
    } else if v == 5 {
        '5'
    } else if v == 6 {
        '6'
    } else if v == 7 {
        '7'
    } else if v == 8 {
        '8'
    } else {
        '9'
    }
}

proof fn lemma_digit_char_val(v: int)
    requires
        0 <= v <= 9,
    ensures
        is_digit(digit_char(v)),
        dval(digit_char(v)) == v,
{
}

/// The string has the exact shape `YYYY:MM:DD HH:MM:SS`.
pub open spec fn exif_dt_wellformed(s: Seq<char>) -> bool {
    &&& s.len() == 19
    &&& is_digit(s[0]) && is_digit(s[1]) && is_digit(s[2]) && is_digit(s[3])
    &&& s[4] == ':'
    &&& is_digit(s[5]) && is_digit(s[6])
    &&& s[7] == ':'
    &&& is_digit(s[8]) && is_digit(s[9])
    &&& s[10] == ' '
    &&& is_digit(s[11]) && is_digit(s[12])
    &&& s[13] == ':'
    &&& is_digit(s[14]) && is_digit(s[15])
    &&& s[16] == ':'
    &&& is_digit(s[17]) && is_digit(s[18])
}

pub open spec fn exif_dt_year(s: Seq<char>) -> int {
    dval(s[0]) * 1000 + dval(s[1]) * 100 + dval(s[2]) * 10 + dval(s[3])
}

pub open spec fn exif_dt_month(s: Seq<char>) -> int {
    dval(s[5]) * 10 + dval(s[6])
}

pub open spec fn exif_dt_day(s: Seq<char>) -> int {
    dval(s[8]) * 10 + dval(s[9])
}

pub open spec fn exif_dt_hour(s: Seq<char>) -> int {
    dval(s[11]) * 10 + dval(s[12])
}

pub open spec fn exif_dt_minute(s: Seq<char>) -> int {
    dval(s[14]) * 10 + dval(s[15])
}

pub open spec fn exif_dt_second(s: Seq<char>) -> int {
    dval(s[17]) * 10 + dval(s[18])
}

/// The camera convention for "no date recorded": every field is zero,
/// i.e. the raw value `0000:00:00 00:00:00`.
pub open spec fn exif_dt_is_sentinel(s: Seq<char>) -> bool {
    &&& exif_dt_wellformed(s)
    &&& exif_dt_year(s) == 0
    &&& exif_dt_month(s) == 0
    &&& exif_dt_day(s) == 0
    &&& exif_dt_hour(s) == 0
    &&& exif_dt_minute(s) == 0
    &&& exif_dt_second(s) == 0
}

/// What parsing a raw `DateTimeOriginal` value yields: the calendar date,
/// or nothing for a malformed string, the all-zero sentinel, or an
/// impossible date or time of day.
pub open spec fn parse_exif_datetime_spec(s: Seq<char>) -> Option<Date> {
    if !exif_dt_wellformed(s) {
        None
    } else if exif_dt_is_sentinel(s) {
        None
    } else {
        let d = Date {
            year: exif_dt_year(s) as u32,
            month: exif_dt_month(s) as u32,
            day: exif_dt_day(s) as u32,
        };
        if valid_date(d) && exif_dt_hour(s) <= 23 && exif_dt_minute(s) <= 59 && exif_dt_second(s)
            <= 59 {
            Some(d)
        } else {
            None
        }
    }
}

/// Reads the digit at position `i`, or `None` if another character stands
/// there.
fn digit_at(s: &str, i: usize) -> (r: Option<u32>)
    requires
        i < s@.len(),
    ensures
        match r {
            Some(v) => is_digit(s@[i as int]) && v == dval(s@[i as int]) && v <= 9,
            None => !is_digit(s@[i as int]),
        },
{
    let c = s.get_char(i);
    let v = c as u32;
    if 48 <= v && v <= 57 {
        Some(v - 48)
    } else {
        None
    }
}

/// The character at position `i` equals `c`.
fn char_at_is(s: &str, i: usize, c: char) -> (r: bool)
    requires
        i < s@.len(),
    ensures
        r == (s@[i as int] == c),
{
    s.get_char(i) == c
}

/// Parses a raw EXIF `YYYY:MM:DD HH:MM:SS` value into its calendar date,
/// discarding the time of day.  Malformed values, the all-zero sentinel
/// and impossible dates all yield `None`, never an error.
pub fn parse_exif_datetime(s: &str) -> (r: Option<Date>)
    ensures
        r == parse_exif_datetime_spec(s@),
{
    if s.unicode_len() != 19 {
        return None;
    }
    if !(char_at_is(s, 4, ':') && char_at_is(s, 7, ':') && char_at_is(s, 10, ' ') && char_at_is(
        s,
        13,
        ':',
    ) && char_at_is(s, 16, ':')) {
        return None;
    }
    let d0 = match digit_at(s, 0) {
        Some(v) => v,
        None => { return None },
    };
    let d1 = match digit_at(s, 1) {
        Some(v) => v,
        None => { return None },
    };
    let d2 = match digit_at(s, 2) {
        Some(v) => v,
        None => { return None },
    };
    let d3 = match digit_at(s, 3) {
        Some(v) => v,
        None => { return None },
    };
    let d5 = match digit_at(s, 5) {
        Some(v) => v,
        None => { return None },
    };
    let d6 = match digit_at(s, 6) {
        Some(v) => v,
        None => { return None },
    };
    let d8 = match digit_at(s, 8) {
        Some(v) => v,
        None => { return None },
    };
    let d9 = match digit_at(s, 9) {
        Some(v) => v,
        None => { return None },
    };
    let d11 = match digit_at(s, 11) {
        Some(v) => v,
        None => { return None },
    };
    let d12 = match digit_at(s, 12) {
        Some(v) => v,
        None => { return None },
    };
    let d14 = match digit_at(s, 14) {
        Some(v) => v,
        None => { return None },
    };
    let d15 = match digit_at(s, 15) {
        Some(v) => v,
        None => { return None },
    };
    let d17 = match digit_at(s, 17) {
        Some(v) => v,
        None => { return None },
    };
    let d18 = match digit_at(s, 18) {
        Some(v) => v,
        None => { return None },
    };
    let year = d0 * 1000 + d1 * 100 + d2 * 10 + d3;
    let month = d5 * 10 + d6;
    let day = d8 * 10 + d9;
    let hour = d11 * 10 + d12;
    let minute = d14 * 10 + d15;
    let second = d17 * 10 + d18;
    if year == 0 && month == 0 && day == 0 && hour == 0 && minute == 0 && second == 0 {
        return None;
    }
    let d = Date { year, month, day };
    if 1 <= month && month <= 12 && 1 <= day && day <= days_in_month_exec(year, month) && hour <= 23
        && minute <= 59 && second <= 59 {
        Some(d)
    } else {
        None
    }
}

/// The string has the exact shape `YYYY-MM-DD`.
pub open spec fn iso_date_wellformed(s: Seq<char>) -> bool {
    &&& s.len() == 10
    &&& is_digit(s[0]) && is_digit(s[1]) && is_digit(s[2]) && is_digit(s[3])
    &&& s[4] == '-'
    &&& is_digit(s[5]) && is_digit(s[6])
    &&& s[7] == '-'
    &&& is_digit(s[8]) && is_digit(s[9])
}

pub open spec fn iso_year(s: Seq<char>) -> int {
    dval(s[0]) * 1000 + dval(s[1]) * 100 + dval(s[2]) * 10 + dval(s[3])
}

pub open spec fn iso_month(s: Seq<char>) -> int {
    dval(s[5]) * 10 + dval(s[6])
}

pub open spec fn iso_day(s: Seq<char>) -> int {
    dval(s[8]) * 10 + dval(s[9])
}

/// What parsing a user-supplied `YYYY-MM-DD` string yields: the date if
/// the string has exactly that shape and names a real calendar date.
pub open spec fn parse_iso_date_spec(s: Seq<char>) -> Option<Date> {
    if !iso_date_wellformed(s) {
        None
    } else {
        let d = Date { year: iso_year(s) as u32, month: iso_month(s) as u32, day: iso_day(s) as u32 };
        if valid_date(d) {
            Some(d)
        } else {
            None
        }
    }
}

/// Parses a user-supplied date strictly in the `YYYY-MM-DD` pattern.
pub fn parse_iso_date(s: &str) -> (r: Option<Date>)
    ensures
        r == parse_iso_date_spec(s@),
{
    if s.unicode_len() != 10 {
        return None;
    }
    if !(char_at_is(s, 4, '-') && char_at_is(s, 7, '-')) {
        return None;
    }
    let d0 = match digit_at(s, 0) {
        Some(v) => v,
        None => { return None },
    };
    let d1 = match digit_at(s, 1) {
        Some(v) => v,
        None => { return None },
    };
    let d2 = match digit_at(s, 2) {
        Some(v) => v,
        None => { return None },
    };
    let d3 = match digit_at(s, 3) {
        Some(v) => v,
        None => { return None },
    };
    let d5 = match digit_at(s, 5) {
        Some(v) => v,
        None => { return None },
    };
    let d6 = match digit_at(s, 6) {
        Some(v) => v,
        None => { return None },
    };
    let d8 = match digit_at(s, 8) {
        Some(v) => v,
        None => { return None },
    };
    let d9 = match digit_at(s, 9) {
        Some(v) => v,
        None => { return None },
    };
    let year = d0 * 1000 + d1 * 100 + d2 * 10 + d3;
    let month = d5 * 10 + d6;
    let day = d8 * 10 + d9;
    let d = Date { year, month, day };
    if 1 <= month && month <= 12 && 1 <= day && day <= days_in_month_exec(year, month) {
        Some(d)
    } else {
        None
    }
}

/// The EXIF tag value written when a date is corrected: the date at
/// midnight, in the `YYYY:MM:DD HH:MM:SS` pattern.
pub open spec fn format_exif_midnight_spec(d: Date) -> Seq<char> {
    seq![
        digit_char(d.year as int / 1000),
        digit_char((d.year as int / 100) % 10),
        digit_char((d.year as int / 10) % 10),
        digit_char(d.year as int % 10),
        ':',
        digit_char(d.month as int / 10),
        digit_char(d.month as int % 10),
        ':',
        digit_char(d.day as int / 10),
        digit_char(d.day as int % 10),
        ' ',
        '0',
        '0',
        ':',
        '0',
        '0',
        ':',
        '0',
        '0',
    ]
}

/// The user-facing form of a date: `YYYY-MM-DD`.
pub open spec fn format_iso_spec(d: Date) -> Seq<char> {
    seq![
        digit_char(d.year as int / 1000),
        digit_char((d.year as int / 100) % 10),
        digit_char((d.year as int / 10) % 10),
        digit_char(d.year as int % 10),
        '-',
        digit_char(d.month as int / 10),
        digit_char(d.month as int % 10),
        '-',
        digit_char(d.day as int / 10),
        digit_char(d.day as int % 10),
    ]
}

/// The one-character string for a digit value.
fn digit_str(v: u32) -> (r: &'static str)
    requires
        v <= 9,
    ensures
        r@ =~= seq![digit_char(v as int)],
{
    proof {
        reveal_strlit("0");
        reveal_strlit("1");
        reveal_strlit("2");
        reveal_strlit("3");
        reveal_strlit("4");
        reveal_strlit("5");
        reveal_strlit("6");
        reveal_strlit("7");
        reveal_strlit("8");
        reveal_strlit("9");
    }
    match v {
        0 => "0",
        1 => "1",
        2 => "2",
        3 => "3",
        4 => "4",
        5 => "5",
        6 => "6",
        7 => "7",
        8 => "8",
        _ => "9",
    }
}

/// Appends the four digits of a year in `0..=9999`.
fn push_year(out: &mut String, y: u32)
    requires
        y <= 9999,
    ensures
        final(out)@ =~= old(out)@ + seq![
            digit_char(y as int / 1000),
            digit_char((y as int / 100) % 10),
            digit_char((y as int / 10) % 10),
            digit_char(y as int % 10),
        ],
{
    proof {
        lemma_mod_bound_10(y as int / 100);
        lemma_mod_bound_10(y as int / 10);
        lemma_mod_bound_10(y as int);
    }
    out.append(digit_str(y / 1000));
    out.append(digit_str((y / 100) % 10));
    out.append(digit_str((y / 10) % 10));
    out.append(digit_str(y % 10));
}

/// Appends the two digits of a value in `0..=99`.
fn push_two(out: &mut String, v: u32)
    requires
        v <= 99,
    ensures
        final(out)@ =~= old(out)@ + seq![digit_char(v as int / 10), digit_char(v as int % 10)],
{
    proof {
        lemma_mod_bound_10(v as int);
    }
    out.append(digit_str(v / 10));
    out.append(digit_str(v % 10));
}

proof fn lemma_mod_bound_10(x: int)
    ensures
        0 <= x % 10 <= 9,
{
}

/// Formats a date at midnight in the EXIF `YYYY:MM:DD HH:MM:SS` pattern.
pub fn format_exif_midnight(d: &Date) -> (r: String)
    requires
        valid_date(*d),
    ensures
        r@ == format_exif_midnight_spec(*d),
{
    proof {
        reveal_strlit(":");
        reveal_strlit(" 00:00:00");
    }
    let mut out = String::new();
    push_year(&mut out, d.year);
    out.append(":");
    push_two(&mut out, d.month);
    out.append(":");
    push_two(&mut out, d.day);
    out.append(" 00:00:00");
    proof {
        assert(out@ =~= format_exif_midnight_spec(*d));
    }
    out
}

/// Formats a date in the user-facing `YYYY-MM-DD` pattern.
pub fn format_iso(d: &Date) -> (r: String)
    requires
        valid_date(*d),
    ensures
        r@ == format_iso_spec(*d),
{
    proof {
        reveal_strlit("-");
    }
    let mut out = String::new();
    push_year(&mut out, d.year);
    out.append("-");
    push_two(&mut out, d.month);
    out.append("-");
    push_two(&mut out, d.day);
    proof {
        assert(out@ =~= format_iso_spec(*d));
    }
    out
}

/// Splitting a value in `0..=9999` into its four decimal digits and
/// recomposing them gives the value back.
proof fn lemma_four_digit_recompose(y: int)
    requires
        0 <= y <= 9999,
    ensures
        (y / 1000) * 1000 + ((y / 100) % 10) * 100 + ((y / 10) % 10) * 10 + y % 10 == y,
        y / 1000 <= 9,
    decreases y,
{
    lemma_fundamental_div_mod(y, 10);
    lemma_fundamental_div_mod(y / 10, 10);
    lemma_fundamental_div_mod(y / 100, 10);
    lemma_div_denominator(y, 10, 10);
    lemma_div_denominator(y, 100, 10);
}

/// Splitting a value in `0..=99` into its two decimal digits and
/// recomposing them gives the value back.
proof fn lemma_two_digit_recompose(v: int)
    requires
        0 <= v <= 99,
    ensures
        (v / 10) * 10 + v % 10 == v,
        v / 10 <= 9,
{
    lemma_fundamental_div_mod(v, 10);
}

/// Days in the months of year `y` strictly before month `m`.
pub open spec fn days_before_month(y: int, m: int) -> int
    decreases m,
{
    if m <= 1 {
        0
    } else {
        days_before_month(y, m - 1) + days_in_month(y, m - 1)
    }
}

/// One-based ordinal of the date within its year.
pub open spec fn day_of_year(y: int, m: int, d: int) -> int {
    days_before_month(y, m) + d
}

/// Leap years in `[0, y)`, for `y >= 0`.
pub open spec fn leap_years_before(y: int) -> int {
    (y + 3) / 4 - (y + 99) / 100 + (y + 399) / 400
}

/// Days in the years `[0, y)`, for `y >= 0`.
pub open spec fn days_before_year(y: int) -> int {
    365 * y + leap_years_before(y)
}

/// Days between the date and the first day of year 0 (which is day 0).
pub open spec fn day_number(y: int, m: int, d: int) -> int {
    days_before_year(y) + day_of_year(y, m, d) - 1
}

/// Day of the week, Monday = 1 through Sunday = 7.  Day 0, the first day
/// of year 0, was a Saturday.
pub open spec fn weekday(y: int, m: int, d: int) -> int {
    (day_number(y, m, d) + 5) % 7 + 1
}

/// Number of ISO 8601 weeks in year `y`: 53 when the year starts on a
/// Thursday, or on a Wednesday in a leap year; otherwise 52.
pub open spec fn iso_weeks_in_year(y: int) -> int {
    if weekday(y, 1, 1) == 4 || (is_leap_year(y) && weekday(y, 1, 1) == 3) {
        53
    } else {
        52
    }
}

/// ISO 8601 week number of the date.  A date in the first days of
/// January may belong to the last week of the previous year, and a date
/// in the last days of December to week 1 of the next.
pub open spec fn iso_week_spec(d: Date) -> int {
    let o = day_of_year(d.year as int, d.month as int, d.day as int);
    let wd = weekday(d.year as int, d.month as int, d.day as int);
    let w = (o - wd + 10) / 7;
    if w < 1 {
        if d.year == 0 {
            52
        } else {
            iso_weeks_in_year(d.year as int - 1)
        }
    } else if w > iso_weeks_in_year(d.year as int) {
        1
    } else {
        w
    }
}

/// Executable twin of `days_before_month`.
fn days_before_month_exec(y: u32, m: u32) -> (r: u32)
    requires
        1 <= m <= 12,
    ensures
        r == days_before_month(y as int, m as int),
        r <= 341,
{
    let mut mm: u32 = 1;
    let mut acc: u32 = 0;
    while mm < m
        invariant
            1 <= mm <= m <= 12,
            acc == days_before_month(y as int, mm as int),
            acc <= 31 * (mm - 1),
        decreases m - mm,
    {
        acc = acc + days_in_month_exec(y, mm);
        mm = mm + 1;
    }
    acc
}

proof fn lemma_days_before_year_bounds(y: int)
    requires
        0 <= y <= 10000,
    ensures
        0 <= days_before_year(y) <= 3653000,
{
    lemma_div_pos_is_pos(y + 3, 4);
    lemma_div_pos_is_pos(y + 399, 400);
    lemma_div_nonincreasing(y + 99, 100);
    lemma_div_nonincreasing(y + 3, 4);
    lemma_div_nonincreasing(y + 399, 400);
    if y >= 1 {
        assert((y + 99) / 100 <= y + 99);
    }
}

/// Executable twin of `days_before_year`.
fn days_before_year_exec(y: u32) -> (r: i64)
    requires
        y <= 9999,
    ensures
        r == days_before_year(y as int),
        0 <= r <= 3653000,
{
    proof {
        lemma_days_before_year_bounds(y as int);
    }
    let yy = y as i64;
    365 * yy + (yy + 3) / 4 - (yy + 99) / 100 + (yy + 399) / 400
}

/// Executable twin of `weekday`.
fn weekday_exec(y: u32, m: u32, d: u32) -> (r: i64)
    requires
        y <= 9999,
        1 <= m <= 12,
        1 <= d <= 31,
    ensures
        r == weekday(y as int, m as int, d as int),
        1 <= r <= 7,
{
    let dn: i64 = days_before_year_exec(y) + (days_before_month_exec(y, m) as i64) + (d as i64) - 1;
    (dn + 5) % 7 + 1
}

/// Executable twin of `iso_weeks_in_year`.
fn iso_weeks_in_year_exec(y: u32) -> (r: u32)
    requires
        y <= 9999,
    ensures
        r == iso_weeks_in_year(y as int),
{
    let jan1 = weekday_exec(y, 1, 1);
    let leap = (y % 4 == 0 && y % 100 != 0) || y % 400 == 0;
    if jan1 == 4 || (leap && jan1 == 3) {
        53
    } else {
        52
    }
}

/// ISO 8601 week number of a date, as shown beside its year at the
/// boundary.
pub fn iso_week(d: &Date) -> (r: u32)
    requires
        valid_date(*d),
    ensures
        r == iso_week_spec(*d),
{
    let o: u32 = days_before_month_exec(d.year, d.month) + d.day;
    let wd: i64 = weekday_exec(d.year, d.month, d.day);
    let x: i64 = (o as i64) - wd + 10;
    let w: i64 = x / 7;
    proof {
        lemma_div_pos_is_pos(x as int, 7);
        lemma_div_is_ordered(x as int, 382, 7);
    }
    if w < 1 {
        if d.year == 0 {
            52
        } else {
            iso_weeks_in_year_exec(d.year - 1)
        }
    } else {
        let ww = iso_weeks_in_year_exec(d.year);
        if w > ww as i64 {
            1
        } else {
            w as u32
        }
    }
}

/// A raw value that does not have the exact `YYYY:MM:DD HH:MM:SS`
/// shape never parses to a date, and never to an error either.
pub proof fn lemma_malformed_yields_none(s: Seq<char>)
    ensures
        !exif_dt_wellformed(s) ==> parse_exif_datetime_spec(s) is None,
{
}

/// The all-zero sentinel value never parses to a date.
pub proof fn lemma_sentinel_yields_none(s: Seq<char>)
    ensures
        exif_dt_is_sentinel(s) ==> parse_exif_datetime_spec(s) is None,
{
}

/// Writing a date and reading it back is the identity: the midnight EXIF
/// string formatted from any valid date parses back to exactly that date.
pub proof fn lemma_format_parse_round_trip(d: Date)
    requires
        valid_date(d),
    ensures
        parse_exif_datetime_spec(format_exif_midnight_spec(d)) == Some(d),
{
    let s = format_exif_midnight_spec(d);
    lemma_four_digit_recompose(d.year as int);
    lemma_two_digit_recompose(d.month as int);
    lemma_two_digit_recompose(d.day as int);
    lemma_mod_bound_10(d.year as int);
    lemma_mod_bound_10(d.year as int / 10);
    lemma_mod_bound_10(d.year as int / 100);
    lemma_mod_bound_10(d.month as int);
    lemma_mod_bound_10(d.day as int);
    assert forall|v: int| 0 <= v <= 9 implies is_digit(#[trigger] digit_char(v)) && dval(
        digit_char(v),
    ) == v by {
        lemma_digit_char_val(v);
    }
    assert(exif_dt_wellformed(s));
    assert(exif_dt_year(s) == d.year);
    assert(exif_dt_month(s) == d.month);
    assert(exif_dt_day(s) == d.day);
    assert(exif_dt_hour(s) == 0 && exif_dt_minute(s) == 0 && exif_dt_second(s) == 0);
    assert(!exif_dt_is_sentinel(s));
}

} // verus!
