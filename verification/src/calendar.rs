//! Calendar dates of the proleptic Gregorian calendar.
//!
//! A [`Date`] is held as its day number counted from the common era
//! (0001-01-01 is day 1). Ordering, day differences and adding days are plain
//! integer arithmetic on that number. What needs the calendar itself (years,
//! months, days of the month, month arithmetic, parsing and printing) is
//! computed by `chrono`; the contracts state the calendar (leap years, month
//! lengths, day numbers, month addition, the printed form) and leave only
//! the reading of strftime-style formats to `chrono`.

use vstd::prelude::*;
use chrono::Datelike;
use crate::text::{decimal, digit_char};

verus! {

/// Day number of the earliest representable date, -262143-01-01.
pub const MIN_DAY_NUMBER: i32 = -95746129;

/// Day number of the latest representable date, 262142-12-31.
pub const MAX_DAY_NUMBER: i32 = 95745399;

/// Earliest representable year.
pub const MIN_YEAR: i32 = -262143;

/// Latest representable year.
pub const MAX_YEAR: i32 = 262142;

/// A leap year of the proleptic Gregorian calendar.
pub open spec fn is_leap_year(year: int) -> bool {
    year % 4 == 0 && (year % 100 != 0 || year % 400 == 0)
}

/// The number of days in `month` (1 to 12) of `year`.
pub open spec fn month_length(year: int, month: int) -> int {
    if month == 2 {
        if is_leap_year(year) {
            29
        } else {
            28
        }
    } else if month == 4 || month == 6 || month == 9 || month == 11 {
        30
    } else {
        31
    }
}

/// The days of `year` before the first of `month`.
pub open spec fn days_before_month(year: int, month: int) -> int
    decreases month,
{
    if month <= 1 {
        0
    } else {
        days_before_month(year, month - 1) + month_length(year, month - 1)
    }
}

/// The day number of `year-month-day`, counting 0001-01-01 as day 1: the
/// days of the earlier years (negative before year 1), of the earlier months
/// and the day of the month.
pub open spec fn civil_day_number(year: int, month: int, day: int) -> int {
    let before = year - 1;
    365 * before + before / 4 - before / 100 + before / 400 + days_before_month(year, month) + day
}

/// `year-month-day` is a date of the calendar, in a year that `chrono`
/// represents.
pub open spec fn is_calendar_date(year: int, month: int, day: int) -> bool {
    &&& MIN_YEAR <= year <= MAX_YEAR
    &&& 1 <= month <= 12
    &&& 1 <= day <= month_length(year, month)
}

/// The day number of the calendar date `(year, month, day)`, or `None` where
/// that date does not exist or is out of range.
#[verifier::opaque]
pub open spec fn ymd_day_number(year: i32, month: u32, day: u32) -> Option<i32> {
    if is_calendar_date(year as int, month as int, day as int) {
        Some(civil_day_number(year as int, month as int, day as int) as i32)
    } else {
        None
    }
}

/// The calendar date `(year, month, day)` of a representable day number:
/// the one date whose day number it is.
#[verifier::opaque]
pub open spec fn day_number_ymd(days: i32) -> (i32, u32, u32) {
    choose|t: (i32, u32, u32)| ymd_day_number(t.0, t.1, t.2) == Some(days)
}

/// The day number reached from `days` by adding `months` calendar months,
/// with the day clamped to the end of a shorter month, or `None` when the
/// result is out of range.
#[verifier::opaque]
pub open spec fn months_after(days: i32, months: u32) -> Option<i32> {
    let (year, month, day) = day_number_ymd(days);
    let index = year as int * 12 + month as int - 1 + months as int;
    let y = index / 12;
    let m = index % 12 + 1;
    let d = if day as int > month_length(y, m) {
        month_length(y, m)
    } else {
        day as int
    };
    if is_calendar_date(y, m, d) {
        Some(civil_day_number(y, m, d) as i32)
    } else {
        None
    }
}

/// The date that `chrono` reads from `text` with the strftime-style `format`.
pub uninterp spec fn parsed_day_number(text: Seq<char>, format: Seq<char>) -> Option<i32>;

/// `n` (below 100) as two digits.
pub open spec fn two_digits(n: int) -> Seq<char> {
    seq![digit_char((n / 10) as nat), digit_char((n % 10) as nat)]
}

/// A year as `chrono` prints it: four digits from 0 to 9999, otherwise a
/// sign and at least four digits.
pub open spec fn year_text(year: int) -> Seq<char> {
    if 0 <= year <= 9999 {
        two_digits(year / 100) + two_digits(year % 100)
    } else {
        let magnitude = if year < 0 {
            -year
        } else {
            year
        };
        let digits = decimal(magnitude as nat);
        let padding = if digits.len() < 4 {
            Seq::new((4 - digits.len()) as nat, |i: int| '0')
        } else {
            Seq::empty()
        };
        (if year < 0 {
            seq!['-']
        } else {
            seq!['+']
        }) + padding + digits
    }
}

/// The `YYYY-MM-DD` text that `chrono` prints for a day number.
#[verifier::opaque]
pub open spec fn iso_text(days: i32) -> Seq<char> {
    let (year, month, day) = day_number_ymd(days);
    year_text(year as int) + seq!['-'] + two_digits(month as int) + seq!['-'] + two_digits(
        day as int,
    )
}

pub open spec fn in_range(days: int) -> bool {
    MIN_DAY_NUMBER <= days <= MAX_DAY_NUMBER
}

/// `chrono::NaiveDate::from_ymd_opt`, read back with `num_days_from_ce`.
/// The contract claims what `chrono` documents: `None` for a triple that is
/// not a date of the proleptic Gregorian calendar or lies outside its years,
/// otherwise the days counted with January 1 of year 1 as day 1.
#[verifier::external_body]
fn chrono_from_ymd(year: i32, month: u32, day: u32) -> (r: Option<i32>)
    ensures
        r == ymd_day_number(year, month, day),
        r matches Some(n) ==> in_range(n as int),
{
    match chrono::NaiveDate::from_ymd_opt(year, month, day) {
        Some(date) => Some(date.num_days_from_ce()),
        None => None,
    }
}

/// `chrono::NaiveDate::from_num_days_from_ce_opt` followed by the `year`,
/// `month` and `day` accessors. The contract claims that the triple is the
/// calendar date whose day number is `days`, with the ranges that `chrono`
/// documents for each part.
#[verifier::external_body]
fn chrono_ymd(days: i32) -> (r: (i32, u32, u32))
    requires
        in_range(days as int),
    ensures
        r == day_number_ymd(days),
        MIN_YEAR <= r.0 <= MAX_YEAR,
        1 <= r.1 <= 12,
        1 <= r.2 <= 31,
        ymd_day_number(r.0, r.1, r.2) == Some(days),
{
    let date = chrono::NaiveDate::from_num_days_from_ce_opt(days).unwrap();
    (date.year(), date.month(), date.day())
}

/// `chrono::NaiveDate::checked_add_months`, on day numbers. The contract
/// claims what the source shows: the month index moves by `months`, the day
/// is clamped to the end of a shorter month, `None` outside the years that
/// `chrono` represents; a result is in range, and adding at least one month
/// moves strictly later.
#[verifier::external_body]
fn chrono_add_months(days: i32, months: u32) -> (r: Option<i32>)
    requires
        in_range(days as int),
    ensures
        r == months_after(days, months),
        r matches Some(n) ==> in_range(n as int),
        r matches Some(n) ==> (months > 0 ==> days < n),
        months == 0 ==> r == Some(days),
{
    let date = chrono::NaiveDate::from_num_days_from_ce_opt(days).unwrap();
    match date.checked_add_months(chrono::Months::new(months)) {
        Some(next) => Some(next.num_days_from_ce()),
        None => None,
    }
}

/// `chrono::NaiveDate::parse_from_str`, read back as a day number. Which
/// texts parse under a strftime-style format is not stated here: the
/// contract names the result, and adds that a date it returns is in range.
#[verifier::external_body]
fn chrono_parse(text: &str, format: &str) -> (r: Option<i32>)
    ensures
        r == parsed_day_number(text@, format@),
        r matches Some(n) ==> in_range(n as int),
{
    match chrono::NaiveDate::parse_from_str(text, format) {
        Ok(date) => Some(date.num_days_from_ce()),
        Err(_) => None,
    }
}

/// The `Display` text of a `chrono::NaiveDate`. The contract claims the
/// text that its `Debug` (to which `Display` defers) writes, and what
/// `chrono` documents of it: parsing uses the same format, `%Y-%m-%d`, as
/// `Display`; that is stated for the years 0 to 9999, which print as four
/// digits without a sign.
#[verifier::external_body]
fn chrono_iso_text(days: i32) -> (r: String)
    requires
        in_range(days as int),
    ensures
        r@ == iso_text(days),
        0 <= day_number_ymd(days).0 <= 9999 ==> parsed_day_number(r@, "%Y-%m-%d"@) == Some(days),
{
    chrono::NaiveDate::from_num_days_from_ce_opt(days).unwrap().to_string()
}

/// A calendar date.
#[derive(Clone, Copy, Debug, PartialEq, Eq, Hash)]
pub struct Date {
    days: i32,
}

impl Date {
    #[verifier::type_invariant]
    spec fn representable(self) -> bool {
        in_range(self.days as int)
    }

    /// The day number of this date (0001-01-01 is day 1).
    pub closed spec fn day_number(self) -> int {
        self.days as int
    }

    /// A day number fits in 32 bits.
    pub proof fn lemma_day_number_fits(d: Date)
        ensures
            i32::MIN <= d@ <= i32::MAX,
    {
    }

    /// Two dates are equal exactly when their day numbers are.
    pub proof fn lemma_eq(a: Date, b: Date)
        ensures
            (a == b) <==> (a.day_number() == b.day_number()),
    {
    }

    /// The date with the given day number, if it is representable.
    pub fn from_days_from_ce(days: i32) -> (r: Option<Date>)
        ensures
            r is Some <==> in_range(days as int),
            r matches Some(d) ==> d@ == days,
    {
        if MIN_DAY_NUMBER <= days && days <= MAX_DAY_NUMBER {
            Some(Date { days })
        } else {
            None
        }
    }

    /// The calendar date `year-month-day`, if it exists and is representable.
    pub fn from_ymd(year: i32, month: u32, day: u32) -> (r: Option<Date>)
        ensures
            r is Some <==> ymd_day_number(year, month, day) is Some,
            r matches Some(d) ==> Some(d@ as i32) == ymd_day_number(year, month, day),
    {
        match chrono_from_ymd(year, month, day) {
            Some(n) => Some(Date { days: n }),
            None => None,
        }
    }

    /// Reads a date from `text` with a strftime-style `format`.
    pub fn parse(text: &str, format: &str) -> (r: Option<Date>)
        ensures
            r is Some <==> parsed_day_number(text@, format@) is Some,
            r matches Some(d) ==> Some(d@ as i32) == parsed_day_number(text@, format@),
            r matches Some(d) ==> in_range(d@),
    {
        match chrono_parse(text, format) {
            Some(n) => Some(Date { days: n }),
            None => None,
        }
    }

    /// The day number of this date.
    pub fn days_from_ce(&self) -> (r: i32)
        ensures
            r == self@,
            in_range(r as int),
    {
        proof {
            use_type_invariant(self);
        }
        self.days
    }

    /// Year, month and day of the month.
    pub fn ymd(&self) -> (r: (i32, u32, u32))
        ensures
            r == day_number_ymd(self@ as i32),
            MIN_YEAR <= r.0 <= MAX_YEAR,
            1 <= r.1 <= 12,
            1 <= r.2 <= 31,
    {
        proof {
            use_type_invariant(self);
        }
        chrono_ymd(self.days)
    }

    /// The date `days` days later, or `None` when it is not representable.
    pub fn checked_add_days(&self, days: u64) -> (r: Option<Date>)
        ensures
            r is Some <==> self@ + days <= MAX_DAY_NUMBER,
            r matches Some(d) ==> d@ == self@ + days,
    {
        proof {
            use_type_invariant(self);
        }
        let room: i64 = MAX_DAY_NUMBER as i64 - self.days as i64;
        if days <= room as u64 {
            Some(Date { days: (self.days as i64 + days as i64) as i32 })
        } else {
            None
        }
    }

    /// The date `months` calendar months later (the day is clamped to the
    /// end of a shorter month), or `None` when it is not representable.
    pub fn checked_add_months(&self, months: u32) -> (r: Option<Date>)
        ensures
            r is Some <==> months_after(self@ as i32, months) is Some,
            r matches Some(d) ==> Some(d@ as i32) == months_after(self@ as i32, months),
            r matches Some(d) ==> (months > 0 ==> self@ < d@),
    {
        proof {
            use_type_invariant(self);
        }
        match chrono_add_months(self.days, months) {
            Some(n) => Some(Date { days: n }),
            None => None,
        }
    }

    /// Whole days from `earlier` to `self` (negative when `self` is earlier).
    pub fn days_since(&self, earlier: &Date) -> (r: i64)
        ensures
            r == self@ - earlier@,
            MIN_DAY_NUMBER - MAX_DAY_NUMBER <= r <= MAX_DAY_NUMBER - MIN_DAY_NUMBER,
    {
        proof {
            use_type_invariant(self);
            use_type_invariant(earlier);
        }
        self.days as i64 - earlier.days as i64
    }

    /// `self` lies strictly before `other`.
    pub fn is_before(&self, other: &Date) -> (r: bool)
        ensures
            r == (self@ < other@),
    {
        self.days < other.days
    }

    /// The `YYYY-MM-DD` text of this date.
    pub fn to_iso_string(&self) -> (r: String)
        ensures
            r@ == iso_text(self@ as i32),
            0 <= day_number_ymd(self@ as i32).0 <= 9999 ==> parsed_day_number(r@, "%Y-%m-%d"@)
                == Some(self@ as i32),
    {
        proof {
            use_type_invariant(self);
        }
        chrono_iso_text(self.days)
    }
}

impl View for Date {
    type V = int;

    open spec fn view(&self) -> int {
        self.day_number()
    }
}

} // verus!
