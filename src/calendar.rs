//! Business-day arithmetic on the proleptic Gregorian calendar.
//!
//! A `Date` is a day number: 0001-01-01 is day 1 (a Monday). Weekends are
//! the only non-business days.
use vstd::prelude::*;
use chrono::Datelike;

verus! {

/// Largest day number handled here: 9999-12-31.
pub const MAX_DAYS: i32 = 3652059;

pub open spec fn is_leap(y: int) -> bool {
    (y % 4 == 0 && y % 100 != 0) || y % 400 == 0
}

pub open spec fn days_in_month(y: int, m: int) -> int {
    if m == 2 {
        if is_leap(y) { 29 } else { 28 }
    } else if m == 4 || m == 6 || m == 9 || m == 11 {
        30
    } else {
        31
    }
}

pub open spec fn days_in_year(y: int) -> int {
    if is_leap(y) { 366 } else { 365 }
}

/// Days of year `y` that come before the first of month `m`.
pub open spec fn days_before_month(y: int, m: int) -> int {
    let leap_day: int = if is_leap(y) && m > 2 { 1 } else { 0 };
    let before: int = if m <= 1 { 0 }
    else if m == 2 { 31 }
    else if m == 3 { 59 }
    else if m == 4 { 90 }
    else if m == 5 { 120 }
    else if m == 6 { 151 }
    else if m == 7 { 181 }
    else if m == 8 { 212 }
    else if m == 9 { 243 }
    else if m == 10 { 273 }
    else if m == 11 { 304 }
    else { 334 };
    leap_day + before
}

/// Days in the years before year `y` (from year 1 on).
pub open spec fn days_before_year(y: int) -> int {
    let p = y - 1;
    365 * p + p / 4 - p / 100 + p / 400
}

/// Day number of a civil date: 0001-01-01 is day 1.
pub open spec fn day_number(y: int, m: int, d: int) -> int {
    days_before_year(y) + days_before_month(y, m) + d
}

pub open spec fn valid_civil(y: int, m: int, d: int) -> bool {
    1 <= y <= 9999 && 1 <= m <= 12 && 1 <= d <= days_in_month(y, m)
}

/// The civil date (year, month, day) of a day number.
pub open spec fn civil_of(n: int) -> (int, int, int) {
    choose|c: (int, int, int)| valid_civil(c.0, c.1, c.2) && day_number(c.0, c.1, c.2) == n
}

/// Day of the week, Monday being 0 and Sunday 6.
pub open spec fn weekday_of(n: int) -> int {
    (n + 6) % 7
}

pub open spec fn is_business(n: int) -> bool {
    weekday_of(n) < 5
}

/// The nearest business day at or before day `n`.
pub open spec fn last_business(n: int) -> int {
    if weekday_of(n) == 5 {
        n - 1
    } else if weekday_of(n) == 6 {
        n - 2
    } else {
        n
    }
}

/// The "as of" day for a moment: the day itself from the cutover on,
/// the day before until then, moved back to a business day.
pub open spec fn as_of(today: int, second_of_day: int, cutover: int) -> int {
    if second_of_day < cutover {
        last_business(today - 1)
    } else {
        last_business(today)
    }
}

/// The civil date `n` months before (y, m, d), its day clamped to the
/// length of the month reached.
pub open spec fn months_back(c: (int, int, int), n: int) -> (int, int, int) {
    let total = c.0 * 12 + (c.1 - 1) - n;
    let y = total / 12;
    let m = total % 12 + 1;
    let d = if c.2 <= days_in_month(y, m) { c.2 } else { days_in_month(y, m) };
    (y, m, d)
}

/// A calendar day, as its day number.
#[derive(Clone, Copy, Debug, PartialEq, Eq, Structural)]
pub struct Date {
    pub days: i32,
}

impl Date {
    pub open spec fn wf(self) -> bool {
        1 <= self.days <= MAX_DAYS
    }

    /// The civil date (year, month, day) of this day.
    pub open spec fn civil(self) -> (int, int, int) {
        civil_of(self.days as int)
    }

    /// The day with the given day number, if it is in range.
    pub fn from_days(days: i32) -> (r: Option<Date>)
        ensures
            r == (if 1 <= days <= MAX_DAYS { Some(Date { days }) } else { None::<Date> }),
    {
        if 1 <= days && days <= MAX_DAYS {
            Some(Date { days })
        } else {
            None
        }
    }

    /// The day of a civil date of years 1 to 9999.
    pub fn from_ymd(year: i32, month: u32, day: u32) -> (r: Option<Date>)
        ensures
            r matches Some(d) ==> d.wf(),
            r == (if valid_civil(year as int, month as int, day as int) {
                Some(Date { days: day_number(year as int, month as int, day as int) as i32 })
            } else {
                None::<Date>
            }),
    {
        if year < 1 || year > 9999 {
            return None;
        }
        match ymd_to_days(year, month, day) {
            Some(days) => {
                proof {
                    lemma_day_number_bounds(year as int, month as int, day as int);
                }
                Some(Date { days })
            },
            None => None,
        }
    }

    /// Year, month and day of this day.
    pub fn to_ymd(&self) -> (r: (i32, u32, u32))
        requires
            self.wf(),
        ensures
            valid_civil(r.0 as int, r.1 as int, r.2 as int),
            (r.0 as int, r.1 as int, r.2 as int) == self.civil(),
    {
        let r = days_to_ymd(self.days);
        proof {
            lemma_civil_unique((r.0 as int, r.1 as int, r.2 as int), self.days as int);
        }
        r
    }

    /// Day of the week, Monday being 0 and Sunday 6.
    pub fn weekday(&self) -> (r: u32)
        requires
            self.wf(),
        ensures
            r as int == weekday_of(self.days as int),
    {
        ((self.days as u32 + 6) % 7) as u32
    }

    pub fn is_business_day(&self) -> (r: bool)
        requires
            self.wf(),
        ensures
            r == is_business(self.days as int),
    {
        self.weekday() < 5
    }

    /// The day before this one.
    pub fn previous_day(&self) -> (r: Date)
        requires
            self.wf(),
            self.days > 1,
        ensures
            r.wf(),
            r.days == self.days - 1,
    {
        Date { days: self.days - 1 }
    }
}

/// Relies on chrono's `NaiveDate::from_ymd_opt` (None exactly for a month
/// or day out of range in a year it supports) and
/// `Datelike::num_days_from_ce` (day 1 is 0001-01-01).
#[verifier::external_body]
fn ymd_to_days(year: i32, month: u32, day: u32) -> (r: Option<i32>)
    requires
        1 <= year <= 9999,
    ensures
        r == (if valid_civil(year as int, month as int, day as int) {
            Some(day_number(year as int, month as int, day as int) as i32)
        } else {
            None::<i32>
        }),
{
    match chrono::NaiveDate::from_ymd_opt(year, month, day) {
        Some(d) => Some(d.num_days_from_ce()),
        None => None,
    }
}

/// Relies on chrono's `NaiveDate::from_num_days_from_ce_opt` and the
/// `year`, `month`, `day` accessors of `Datelike`.
#[verifier::external_body]
fn days_to_ymd(days: i32) -> (r: (i32, u32, u32))
    requires
        1 <= days <= MAX_DAYS,
    ensures
        valid_civil(r.0 as int, r.1 as int, r.2 as int),
        day_number(r.0 as int, r.1 as int, r.2 as int) == days,
{
    let d = chrono::NaiveDate::from_num_days_from_ce_opt(days).unwrap();
    (d.year(), d.month(), d.day())
}

pub proof fn lemma_days_before_year_step(y: int)
    requires
        1 <= y,
    ensures
        days_before_year(y + 1) == days_before_year(y) + days_in_year(y),
{
}

pub proof fn lemma_days_before_year_grows(y1: int, y2: int)
    requires
        1 <= y1 < y2,
    ensures
        days_before_year(y2) >= days_before_year(y1) + days_in_year(y1),
    decreases y2 - y1,
{
    lemma_days_before_year_step(y2 - 1);
    if y1 < y2 - 1 {
        lemma_days_before_year_grows(y1, y2 - 1);
    }
}

pub proof fn lemma_day_number_bounds(y: int, m: int, d: int)
    requires
        valid_civil(y, m, d),
    ensures
        days_before_year(y) < day_number(y, m, d) <= days_before_year(y) + days_in_year(y),
        1 <= day_number(y, m, d) <= MAX_DAYS,
{
    if y < 9999 {
        lemma_days_before_year_grows(y, 9999);
    }
}

/// A day number has at most one valid civil date.
pub proof fn lemma_civil_unique(c: (int, int, int), n: int)
    requires
        valid_civil(c.0, c.1, c.2),
        day_number(c.0, c.1, c.2) == n,
    ensures
        civil_of(n) == c,
{
    let e = civil_of(n);
    assert(valid_civil(e.0, e.1, e.2) && day_number(e.0, e.1, e.2) == n);
    lemma_day_number_bounds(c.0, c.1, c.2);
    lemma_day_number_bounds(e.0, e.1, e.2);
    if c.0 < e.0 {
        lemma_days_before_year_grows(c.0, e.0);
    } else if e.0 < c.0 {
        lemma_days_before_year_grows(e.0, c.0);
    }
    assert(c.0 == e.0);
}

/// The nearest business day at or before `d`.
pub fn last_business_day(d: Date) -> (r: Date)
    requires
        d.wf(),
    ensures
        r.wf(),
        r.days == last_business(d.days as int),
{
    let w = d.weekday();
    if w == 5 {
        Date { days: d.days - 1 }
    } else if w == 6 {
        Date { days: d.days - 2 }
    } else {
        d
    }
}

/// The "as of" day for `today` at `second_of_day` seconds after midnight,
/// with the given cutover (seconds after midnight): before the cutover the
/// previous day counts as current. The result is a business day.
pub fn as_of_date(today: Date, second_of_day: u32, cutover: u32) -> (r: Date)
    requires
        today.wf(),
        today.days > 1,
    ensures
        r.wf(),
        r.days == as_of(today.days as int, second_of_day as int, cutover as int),
{
    if second_of_day < cutover {
        last_business_day(today.previous_day())
    } else {
        last_business_day(today)
    }
}

/// The business day `n` calendar months before `d`: the day of the month
/// is clamped to the length of the month reached, then moved back to a
/// business day.
pub fn months_before(d: Date, n: u32) -> (r: Date)
    requires
        d.wf(),
        d.civil().0 * 12 + d.civil().1 - 1 - n >= 12,
    ensures
        r.wf(),
        r.days == last_business(
            day_number(months_back(d.civil(), n as int).0, months_back(d.civil(), n as int).1,
                months_back(d.civil(), n as int).2),
        ),
{
    let (y, m, day) = d.to_ymd();
    let total: i64 = y as i64 * 12 + (m as i64 - 1) - n as i64;
    let y2: i64 = total / 12;
    let m2: i64 = total % 12 + 1;
    let dim = month_length(y2 as i32, m2 as u32);
    let d2: u32 = if day <= dim { day } else { dim };
    let shifted = ymd_to_days(y2 as i32, m2 as u32, d2);
    let target = match shifted {
        Some(days) => {
            proof {
                lemma_day_number_bounds(y2 as int, m2 as int, d2 as int);
            }
            Date { days }
        },
        None => {
            proof {
                assert(false);
            }
            d
        },
    };
    last_business_day(target)
}

/// Number of days of month `m` of year `y`.
pub fn month_length(y: i32, m: u32) -> (r: u32)
    ensures
        r == days_in_month(y as int, m as int),
{
    if m == 2 {
        if (y % 4 == 0 && y % 100 != 0) || y % 400 == 0 {
            29
        } else {
            28
        }
    } else if m == 4 || m == 6 || m == 9 || m == 11 {
        30
    } else {
        31
    }
}

/// The nearest business day at or before a day is a business day.
pub proof fn law_last_business_is_business(n: int)
    ensures
        is_business(last_business(n)),
{
}

/// Moving back to a business day twice is moving back once.
pub proof fn law_last_business_idempotent(n: int)
    ensures
        last_business(last_business(n)) == last_business(n),
{
}

} // verus!
