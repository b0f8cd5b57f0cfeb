//! The clock and the calendar.

use vstd::prelude::*;

use crate::text;

verus! {

/// The first second that chrono's calendar reaches, counted from the Unix epoch.
pub const EARLIEST_SECS: i64 = -8_334_601_228_800;

/// The last second that chrono's calendar reaches, counted from the Unix epoch.
pub const LATEST_SECS: i64 = 8_210_266_876_799;

/// The most days that can be counted back from any moment since the Unix epoch.
pub const MOST_DAYS_BACK: u32 = 96_465_292;

/// Whether the clock can show the second `secs`: it counts from the Unix epoch, and stops where
/// the calendar does.
pub open spec fn shown(secs: int) -> bool {
    0 <= secs <= LATEST_SECS
}

/// Whether the clock can show the millisecond `millis`.
pub open spec fn shown_millis(millis: int) -> bool {
    0 <= millis && shown(millis / 1000)
}

/// `chrono::Utc::now` and `DateTime::timestamp_millis`: the milliseconds since the Unix epoch.
///
/// `Utc::now` refuses a system clock that stands before the epoch or past the calendar, by
/// panicking. Nothing is claimed of which moment it is. The claim is made of the system clock: in a
/// browser, where chrono asks JavaScript for the time, it is not.
#[verifier::external_body]
pub(crate) fn now_millis() -> (millis: i64)
    ensures
        shown_millis(millis as int),
{
    chrono::Utc::now().timestamp_millis()
}

// ---- the calendar ----

/// A day of the proleptic Gregorian calendar.
pub struct Date {
    pub year: int,
    pub month: int,
    pub day: int,
}

/// Whether a year has 366 days.
pub open spec fn leap(year: int) -> bool {
    year % 4 == 0 && (year % 100 != 0 || year % 400 == 0)
}

/// The number of days in a month.
pub open spec fn month_days(year: int, month: int) -> int {
    if month == 2 {
        if leap(year) {
            29
        } else {
            28
        }
    } else if month == 4 || month == 6 || month == 9 || month == 11 {
        30
    } else {
        31
    }
}

/// Whether a date is one that the calendar has.
pub open spec fn on_calendar(date: Date) -> bool {
    1 <= date.month <= 12 && 1 <= date.day <= month_days(date.year, date.month)
}

/// The days of a year that come before a month of it.
pub open spec fn days_before_month(year: int, month: int) -> int
    decreases month,
{
    if month <= 1 {
        0
    } else {
        days_before_month(year, month - 1) + month_days(year, month - 1)
    }
}

/// The days from the start of 1970 to the start of a year.
pub open spec fn days_before_year(year: int) -> int {
    365 * (year - 1970) + (year - 1) / 4 - (year - 1) / 100 + (year - 1) / 400 - 477
}

/// The days from the first of January 1970 to a date.
pub open spec fn epoch_day(date: Date) -> int {
    days_before_year(date.year) + days_before_month(date.year, date.month) + date.day - 1
}

/// The date that is `days` days after the first of January 1970.
pub open spec fn date_of(days: int) -> Date {
    choose|date: Date| on_calendar(date) && #[trigger] epoch_day(date) == days
}

/// `n` in decimal, with zeros in front of it up to `width` digits.
pub open spec fn padded(n: nat, width: nat) -> Seq<char> {
    let digits = text::decimal(n);
    if digits.len() < width {
        Seq::new((width - digits.len()) as nat, |i: int| '0') + digits
    } else {
        digits
    }
}

/// A year in four digits. One before year 0 or after year 9999 has its sign in front.
pub open spec fn year_text(year: int) -> Seq<char> {
    if year < 0 {
        seq!['-'] + padded((-year) as nat, 4)
    } else if year > 9999 {
        seq!['+'] + padded(year as nat, 4)
    } else {
        padded(year as nat, 4)
    }
}

/// A date as year, month and day, with `mark` between them.
pub open spec fn date_text(date: Date, mark: char) -> Seq<char> {
    year_text(date.year).push(mark) + padded(date.month as nat, 2).push(mark) + padded(
        date.day as nat,
        2,
    )
}

/// The date in UTC of the second `secs`, with `mark` between its parts.
pub open spec fn utc_date_text(secs: int, mark: char) -> Seq<char> {
    date_text(date_of(secs / 86400), mark)
}

/// `DateTime::from_timestamp` and `DateTime::format`: the date in UTC of the second `secs`, laid
/// out as `%Y/%m/%d` or as `%Y-%m-%d`. chrono counts in the proleptic Gregorian calendar, writes
/// the year in four digits or more, with a sign where it is not within 0 and 9999, and the month
/// and the day in two digits.
#[verifier::external_body]
pub(crate) fn utc_date(secs: i64, layout: &str) -> (result: String)
    requires
        EARLIEST_SECS <= secs <= LATEST_SECS,
        layout@ == "%Y/%m/%d"@ || layout@ == "%Y-%m-%d"@,
    ensures
        layout@ == "%Y/%m/%d"@ ==> result@ == utc_date_text(secs as int, '/'),
        layout@ == "%Y-%m-%d"@ ==> result@ == utc_date_text(secs as int, '-'),
{
    chrono::DateTime::from_timestamp(secs, 0).unwrap_or_default().format(layout).to_string()
}

/// No two dates are the same number of days after the first of January 1970.
pub proof fn one_date_per_day(left: Date, right: Date)
    requires
        on_calendar(left),
        on_calendar(right),
        epoch_day(left) == epoch_day(right),
    ensures
        left == right,
{
    if left.year < right.year {
        later_year(left, right);
    } else if right.year < left.year {
        later_year(right, left);
    } else if left.month < right.month {
        later_month(left.year, left.month, right.month);
    } else if right.month < left.month {
        later_month(left.year, right.month, left.month);
    }
}

/// `date_of` is the date that is that many days after the first of January 1970.
pub proof fn date_of_is(date: Date)
    requires
        on_calendar(date),
    ensures
        date_of(epoch_day(date)) == date,
{
    one_date_per_day(date_of(epoch_day(date)), date);
}

/// Every day has a date: `date_of` is on the calendar, and is that many days after the first of
/// January 1970.
pub proof fn every_day_has_a_date(days: int)
    ensures
        on_calendar(date_of(days)),
        epoch_day(date_of(days)) == days,
{
    let year = if days >= 0 {
        year_from(days, 1970)
    } else {
        year_back_from(days, 1970)
    };
    year_length(year);
    let month = month_from(year, days - days_before_year(year), 1);
    let date = Date {
        year,
        month,
        day: days - days_before_year(year) - days_before_month(year, month) + 1,
    };
    assert(on_calendar(date) && epoch_day(date) == days);
}

/// A year is as long as its months.
proof fn year_length(year: int)
    ensures
        days_before_year(year + 1) == days_before_year(year) + days_before_month(year, 13),
        365 <= days_before_month(year, 13) <= 366,
{
    reveal_with_fuel(days_before_month, 14);
}

/// The year that a day falls in, from `year` on.
proof fn year_from(days: int, year: int) -> (found: int)
    requires
        days_before_year(year) <= days,
    ensures
        days_before_year(found) <= days < days_before_year(found + 1),
    decreases days - days_before_year(year),
{
    year_length(year);
    if days < days_before_year(year + 1) {
        year
    } else {
        year_from(days, year + 1)
    }
}

/// The year that a day falls in, before `year`.
proof fn year_back_from(days: int, year: int) -> (found: int)
    requires
        days < days_before_year(year),
    ensures
        days_before_year(found) <= days < days_before_year(found + 1),
    decreases days_before_year(year) - days,
{
    year_length(year - 1);
    if days_before_year(year - 1) <= days {
        year - 1
    } else {
        year_back_from(days, year - 1)
    }
}

/// The month that a day of a year falls in, from `month` on.
proof fn month_from(year: int, day: int, month: int) -> (found: int)
    requires
        1 <= month <= 12,
        days_before_month(year, month) <= day < days_before_month(year, 13),
    ensures
        1 <= found <= 12,
        days_before_month(year, found) <= day < days_before_month(year, found) + month_days(
            year,
            found,
        ),
    decreases 13 - month,
{
    if day < days_before_month(year, month + 1) {
        month
    } else {
        month_from(year, day, month + 1)
    }
}

proof fn later_month(year: int, left: int, right: int)
    requires
        1 <= left < right <= 12,
    ensures
        days_before_month(year, left) + month_days(year, left) <= days_before_month(year, right),
    decreases right - left,
{
    if left + 1 < right {
        later_month(year, left, right - 1);
    }
}

proof fn later_year(left: Date, right: Date)
    requires
        on_calendar(left),
        on_calendar(right),
        left.year < right.year,
    ensures
        epoch_day(left) < epoch_day(right),
{
    let year = left.year;
    if left.month < 12 {
        later_month(year, left.month, 12);
    }
    reveal_with_fuel(days_before_month, 13);
    assert(days_before_month(year, 12) + 31 == if leap(year) {
        366int
    } else {
        365int
    });
    assert(days_before_year(year + 1) == days_before_year(year) + if leap(year) {
        366int
    } else {
        365int
    });
    assert(days_before_year(year + 1) <= days_before_year(right.year));
    if right.month > 1 {
        later_month(right.year, 1, right.month);
    }
}

} // verus!
