//! Calendar time: timestamps as dates of the proleptic Gregorian calendar in
//! UTC, and their text form.

use vstd::prelude::*;
use crate::models::common::Timestamp;

verus! {

/// One past the last timestamp that has a text form: the first second of the
/// year 10000.
pub const TIME_LIMIT: i64 = 253_402_300_800;

/// Whether `year` is a leap year.
pub open spec fn is_leap_year(year: int) -> bool {
    year % 4 == 0 && (year % 100 != 0 || year % 400 == 0)
}

/// The number of days of `year`.
pub open spec fn days_in_year(year: int) -> int {
    if is_leap_year(year) {
        366
    } else {
        365
    }
}

/// The number of days of the month `month` (1 to 12) of `year`.
pub open spec fn days_in_month(year: int, month: int) -> int {
    if month == 2 {
        if is_leap_year(year) {
            29
        } else {
            28
        }
    } else if month == 4 || month == 6 || month == 9 || month == 11 {
        30
    } else {
        31
    }
}

/// The number of days from the epoch to the first day of `year`.
pub open spec fn days_before_year(year: int) -> int
    decreases year - 1970,
{
    if year <= 1970 {
        0
    } else {
        days_before_year(year - 1) + days_in_year(year - 1)
    }
}

/// The number of days from the first day of `year` to the first day of its
/// month `month`.
pub open spec fn days_before_month(year: int, month: int) -> int
    decreases month,
{
    if month <= 1 {
        0
    } else {
        days_before_month(year, month - 1) + days_in_month(year, month - 1)
    }
}

/// A date and a time of day.
#[derive(Clone, Copy, Debug, PartialEq, Eq)]
pub struct CivilTime {
    pub year: u32,
    pub month: u32,
    pub day: u32,
    pub hour: u32,
    pub minute: u32,
    pub second: u32,
}

impl CivilTime {
    /// Whether the fields name a second of a day that exists, not before the
    /// epoch.
    pub open spec fn is_valid(&self) -> bool {
        &&& 1970 <= self.year
        &&& 1 <= self.month <= 12
        &&& 1 <= self.day <= days_in_month(self.year as int, self.month as int)
        &&& self.hour < 24
        &&& self.minute < 60
        &&& self.second < 60
    }

    /// The timestamp of this date and time.
    pub open spec fn timestamp(&self) -> int {
        (days_before_year(self.year as int) + days_before_month(
            self.year as int,
            self.month as int,
        ) + self.day - 1) * 86400 + self.hour * 3600 + self.minute * 60 + self.second
    }
}

/// The timestamp that is put into text for `time`: `time` itself where it lies
/// between the epoch and the end of the year 9999, else the nearer of the two.
pub open spec fn reported_time(time: int) -> int {
    if time < 0 {
        0
    } else if time >= TIME_LIMIT {
        TIME_LIMIT - 1
    } else {
        time
    }
}

/// The year of the day that lies `days` days after the first day of `year`.
pub open spec fn year_from(days: int, year: int) -> int
    decreases days,
{
    if days >= days_in_year(year) {
        year_from(days - days_in_year(year), year + 1)
    } else {
        year
    }
}

/// The number of the day within its year, from zero, of the day that lies
/// `days` days after the first day of `year`.
pub open spec fn year_day_from(days: int, year: int) -> int
    decreases days,
{
    if days >= days_in_year(year) {
        year_day_from(days - days_in_year(year), year + 1)
    } else {
        days
    }
}

/// The month of the day that lies `days` days after the first day of the
/// month `month` of `year`, within that year.
pub open spec fn month_from(year: int, days: int, month: int) -> int
    decreases 12 - month,
{
    if month < 12 && days >= days_in_month(year, month) {
        month_from(year, days - days_in_month(year, month), month + 1)
    } else {
        month
    }
}

/// The number of the day within its month, from zero, of the day that lies
/// `days` days after the first day of the month `month` of `year`.
pub open spec fn month_day_from(year: int, days: int, month: int) -> int
    decreases 12 - month,
{
    if month < 12 && days >= days_in_month(year, month) {
        month_day_from(year, days - days_in_month(year, month), month + 1)
    } else {
        days
    }
}

/// The date and time of day of the timestamp `time`, counted up from the
/// epoch.
pub open spec fn civil_of(time: int) -> CivilTime {
    let days = time / 86400;
    let year = year_from(days, 1970);
    let year_day = year_day_from(days, 1970);
    CivilTime {
        year: year as u32,
        month: month_from(year, year_day, 1) as u32,
        day: (month_day_from(year, year_day, 1) + 1) as u32,
        hour: ((time % 86400) / 3600) as u32,
        minute: ((time % 3600) / 60) as u32,
        second: (time % 60) as u32,
    }
}

proof fn lemma_year_from(days: int, year: int)
    requires
        0 <= days,
        1970 <= year,
    ensures
        year <= year_from(days, year),
        365 * (year_from(days, year) - year) <= days,
        0 <= year_day_from(days, year) < days_in_year(year_from(days, year)),
        days_before_year(year_from(days, year)) + year_day_from(days, year) == days_before_year(
            year,
        ) + days,
    decreases days,
{
    if days >= days_in_year(year) {
        lemma_year_from(days - days_in_year(year), year + 1);
    }
}

proof fn lemma_month_from(year: int, days: int, month: int)
    requires
        0 <= days,
        1 <= month <= 12,
        days_before_month(year, month) + days < days_before_month(year, 13),
    ensures
        month <= month_from(year, days, month) <= 12,
        0 <= month_day_from(year, days, month) < days_in_month(
            year,
            month_from(year, days, month),
        ),
        days_before_month(year, month_from(year, days, month)) + month_day_from(year, days, month)
            == days_before_month(year, month) + days,
    decreases 12 - month,
{
    if month < 12 && days >= days_in_month(year, month) {
        lemma_month_from(year, days - days_in_month(year, month), month + 1);
    }
}

proof fn lemma_year_length(year: int)
    ensures
        days_before_month(year, 13) == days_in_year(year),
{
    reveal_with_fuel(days_before_month, 14);
}

/// The date that is counted up from the epoch is a day that exists, and its
/// timestamp is the one it was counted from.
pub proof fn lemma_civil_of_is_the_date(time: int)
    requires
        0 <= time < TIME_LIMIT,
    ensures
        civil_of(time).is_valid(),
        civil_of(time).timestamp() == time,
{
    let days = time / 86400;
    let year = year_from(days, 1970);
    let year_day = year_day_from(days, 1970);
    lemma_year_from(days, 1970);
    lemma_year_length(year);
    lemma_month_from(year, year_day, 1);
}

fn leap(year: u32) -> (r: bool)
    ensures
        r == is_leap_year(year as int),
{
    year % 4 == 0 && (year % 100 != 0 || year % 400 == 0)
}

fn year_length(year: u32) -> (r: i64)
    ensures
        r == days_in_year(year as int),
{
    if leap(year) {
        366
    } else {
        365
    }
}

fn month_length(year: u32, month: u32) -> (r: i64)
    ensures
        r == days_in_month(year as int, month as int),
{
    if month == 2 {
        if leap(year) {
            29
        } else {
            28
        }
    } else if month == 4 || month == 6 || month == 9 || month == 11 {
        30
    } else {
        31
    }
}

/// The date and time of day of a timestamp between the epoch and the end of
/// the year 9999.
pub fn civil_time(time: Timestamp) -> (r: CivilTime)
    requires
        0 <= time < TIME_LIMIT,
    ensures
        r == civil_of(time as int),
{
    let days_total: i64 = time / 86400;
    let mut year: u32 = 1970;
    let mut days: i64 = days_total;
    proof {
        lemma_year_from(days_total as int, 1970);
    }
    while days >= year_length(year)
        invariant
            1970 <= year,
            0 <= days <= days_total,
            days_total < 2932897,
            365 * (year - 1970) <= days_total - days,
            year_from(days as int, year as int) == year_from(days_total as int, 1970),
            year_day_from(days as int, year as int) == year_day_from(days_total as int, 1970),
        decreases days,
    {
        days = days - year_length(year);
        year = year + 1;
    }
    let year_day: i64 = days;
    let mut month: u32 = 1;
    proof {
        lemma_year_length(year as int);
        lemma_month_from(year as int, year_day as int, 1);
    }
    while month < 12 && days >= month_length(year, month)
        invariant
            1 <= month <= 12,
            0 <= days <= year_day,
            month_from(year as int, days as int, month as int) == month_from(
                year as int,
                year_day as int,
                1,
            ),
            month_day_from(year as int, days as int, month as int) == month_day_from(
                year as int,
                year_day as int,
                1,
            ),
        decreases 12 - month,
    {
        days = days - month_length(year, month);
        month = month + 1;
    }
    CivilTime {
        year,
        month,
        day: (days + 1) as u32,
        hour: ((time % 86400) / 3600) as u32,
        minute: ((time % 3600) / 60) as u32,
        second: (time % 60) as u32,
    }
}

/// The character of a decimal digit.
pub open spec fn digit_char(digit: int) -> char {
    if digit == 0 {
        '0'
    } else if digit == 1 {
        '1'
    } else if digit == 2 {
        '2'
    } else if digit == 3 {
        '3'
    } else if digit == 4 {
        '4'
    } else if digit == 5 {
        '5'
    } else if digit == 6 {
        '6'
    } else if digit == 7 {
        '7'
    } else if digit == 8 {
        '8'
    } else {
        '9'
    }
}

/// The last two decimal digits of `value`.
pub open spec fn two_digits(value: int) -> Seq<char> {
    seq![digit_char((value / 10) % 10), digit_char(value % 10)]
}

/// The last four decimal digits of `value`.
pub open spec fn four_digits(value: int) -> Seq<char> {
    two_digits(value / 100) + two_digits(value % 100)
}

/// The text of a date and time: year, month and day, the letter T, hour,
/// minute and second, and the letter Z for UTC.
pub open spec fn civil_text(civil: CivilTime) -> Seq<char> {
    four_digits(civil.year as int) + seq!['-'] + two_digits(civil.month as int) + seq!['-']
        + two_digits(civil.day as int) + seq!['T'] + two_digits(civil.hour as int) + seq![':']
        + two_digits(civil.minute as int) + seq![':'] + two_digits(civil.second as int) + seq!['Z']
}

fn digit_text(digit: u32) -> (r: &'static str)
    requires
        digit < 10,
    ensures
        r@ == seq![digit_char(digit as int)],
{
    proof {
        reveal_strlit("0");
        reveal_strlit("1");
        reveal_strlit("2");
        reveal_strlit("3");
        reveal_strlit("4");
        reveal_strlit("5");
        reveal_strlit("6");
        reveal_strlit("7");
        reveal_strlit("8");
        reveal_strlit("9");
    }
    let text = if digit == 0 {
        "0"
    } else if digit == 1 {
        "1"
    } else if digit == 2 {
        "2"
    } else if digit == 3 {
        "3"
    } else if digit == 4 {
        "4"
    } else if digit == 5 {
        "5"
    } else if digit == 6 {
        "6"
    } else if digit == 7 {
        "7"
    } else if digit == 8 {
        "8"
    } else {
        "9"
    };
    assert(text@ =~= seq![digit_char(digit as int)]);
    text
}

fn push_two_digits(text: &mut String, value: u32)
    ensures
        final(text)@ == old(text)@ + two_digits(value as int),
{
    text.append(digit_text((value / 10) % 10));
    text.append(digit_text(value % 10));
    assert(text@ =~= old(text)@ + two_digits(value as int));
}

/// The text of a date and time.
pub fn format_civil(civil: &CivilTime) -> (r: String)
    ensures
        r@ == civil_text(*civil),
{
    proof {
        reveal_strlit("-");
        reveal_strlit("T");
        reveal_strlit(":");
        reveal_strlit("Z");
        reveal_strlit("");
    }
    let mut text = String::from_str("");
    push_two_digits(&mut text, civil.year / 100);
    push_two_digits(&mut text, civil.year % 100);
    text.append("-");
    push_two_digits(&mut text, civil.month);
    text.append("-");
    push_two_digits(&mut text, civil.day);
    text.append("T");
    push_two_digits(&mut text, civil.hour);
    text.append(":");
    push_two_digits(&mut text, civil.minute);
    text.append(":");
    push_two_digits(&mut text, civil.second);
    text.append("Z");
    assert(text@ =~= civil_text(*civil));
    text
}

/// The text of the date and time that stands for `time`.
pub open spec fn time_text(time: int) -> Seq<char> {
    civil_text(civil_of(reported_time(time)))
}

/// The text form of a timestamp, such as `1970-01-01T00:00:19Z`. A timestamp
/// before the epoch is given as the epoch, one after the year 9999 as the last
/// second of that year.
pub fn format_time(time: Timestamp) -> (r: String)
    ensures
        r@ == time_text(time as int),
{
    let reported: i64 = if time < 0 {
        0
    } else if time >= TIME_LIMIT {
        TIME_LIMIT - 1
    } else {
        time
    };
    let civil = civil_time(reported);
    format_civil(&civil)
}

} // verus!
