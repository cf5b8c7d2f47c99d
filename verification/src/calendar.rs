//! The calendar: the date and the time of day of a moment, and how they are
//! written.

use vstd::prelude::*;
use vstd::string::*;

use crate::text::append_decimal;
use crate::text;

verus! {

/// A date of the Gregorian calendar.
#[derive(Debug, Clone, Copy, PartialEq, Eq, Structural)]
pub struct Date {
    pub year: u64,
    /// From 1 for January to 12 for December.
    pub month: u64,
    /// From 1 on.
    pub day: u64,
}

/// Whether a year has a 29th of February.
pub open spec fn is_leap(year: int) -> bool {
    year % 4 == 0 && (year % 100 != 0 || year % 400 == 0)
}

/// How many days a year has.
pub open spec fn year_days(year: int) -> int {
    if is_leap(year) {
        366
    } else {
        365
    }
}

/// How many of the years from 1 on and before a year are leap years.
pub open spec fn leap_years_before(year: int) -> int {
    (year - 1) / 4 - (year - 1) / 100 + (year - 1) / 400
}

/// How many days lie between the first day of 1970 and the first day of a year.
pub open spec fn days_before_year(year: int) -> int {
    365 * (year - 1970) + leap_years_before(year) - leap_years_before(1970)
}

/// How many days a month has.
pub open spec fn month_days(year: int, month: int) -> int {
    if month == 2 {
        if is_leap(year) {
            29
        } else {
            28
        }
    } else if month == 4 || month == 6 || month == 9 || month == 11 {
        30
    } else {
        31
    }
}

/// How many days of a year lie before a month.
pub open spec fn days_before_month(year: int, month: int) -> int
    decreases month,
{
    if month <= 1 {
        0
    } else {
        days_before_month(year, month - 1) + month_days(year, month - 1)
    }
}

/// Whether there is such a day, not before 1970.
pub open spec fn is_date(date: Date) -> bool {
    &&& 1970 <= date.year
    &&& 1 <= date.month <= 12
    &&& 1 <= date.day <= month_days(date.year as int, date.month as int)
}

/// How many days a date lies after the first day of 1970.
pub open spec fn day_number(date: Date) -> int {
    days_before_year(date.year as int) + days_before_month(date.year as int, date.month as int) + date.day - 1
}

/// The date that lies `days` days after the first day of 1970.
pub open spec fn date_of(days: int) -> Date {
    choose|date: Date| is_date(date) && day_number(date) == days
}

/// The days of a year follow those of the years before it.
proof fn lemma_next_year(year: int)
    requires
        year >= 1970,
    ensures
        days_before_year(year + 1) == days_before_year(year) + year_days(year),
{
}

/// The days of the months make up the year.
proof fn lemma_months(year: int)
    ensures
        days_before_month(year, 13) == year_days(year),
{
    reveal_with_fuel(days_before_month, 14);
}

/// A later month of a year starts after all days of an earlier one.
proof fn lemma_months_ascend(year: int, month: int, later: int)
    requires
        1 <= month < later,
    ensures
        days_before_month(year, month) + month_days(year, month) <= days_before_month(year, later),
    decreases later,
{
    if month + 1 < later {
        lemma_months_ascend(year, month, later - 1);
    }
}

/// A later year starts after all days of an earlier one.
proof fn lemma_years_ascend(year: int, later: int)
    requires
        1970 <= year < later,
    ensures
        days_before_year(year) + year_days(year) <= days_before_year(later),
    decreases later,
{
    lemma_next_year(later - 1);
    if year + 1 < later {
        lemma_years_ascend(year, later - 1);
    }
}

/// A date lies within its year.
proof fn lemma_within_year(date: Date)
    requires
        is_date(date),
    ensures
        days_before_year(date.year as int) <= day_number(date) < days_before_year(date.year as int) + year_days(
            date.year as int,
        ),
{
    let year = date.year as int;
    let month = date.month as int;
    lemma_months(year);
    lemma_months_ascend(year, month, 13);
    if month > 1 {
        lemma_months_ascend(year, 1, month);
    }
}

/// Different dates are different days.
pub proof fn dates_are_distinct_days(a: Date, b: Date)
    requires
        is_date(a),
        is_date(b),
        day_number(a) == day_number(b),
    ensures
        a == b,
{
    lemma_within_year(a);
    lemma_within_year(b);
    if a.year < b.year {
        lemma_years_ascend(a.year as int, b.year as int);
    }
    if b.year < a.year {
        lemma_years_ascend(b.year as int, a.year as int);
    }
    if a.month < b.month {
        lemma_months_ascend(a.year as int, a.month as int, b.month as int);
    }
    if b.month < a.month {
        lemma_months_ascend(a.year as int, b.month as int, a.month as int);
    }
}

/// Every 400 years have the same number of days.
proof fn lemma_cycle(k: int)
    requires
        k >= 0,
    ensures
        days_before_year(1970 + 400 * k) == 146097 * k,
{
    assert((1969 + 400 * k) / 4 == 492 + 100 * k);
    assert((1969 + 400 * k) / 100 == 19 + 4 * k);
    assert((1969 + 400 * k) / 400 == 4 + k);
}

/// How many days a year has.
fn days_of_year(year: u64) -> (days: u64)
    ensures
        days == year_days(year as int),
{
    if year % 4 == 0 && (year % 100 != 0 || year % 400 == 0) {
        366
    } else {
        365
    }
}

/// How many days a month has.
fn days_of_month(year: u64, month: u64) -> (days: u64)
    ensures
        days == month_days(year as int, month as int),
{
    if month == 2 {
        if days_of_year(year) == 366 {
            29
        } else {
            28
        }
    } else if month == 4 || month == 6 || month == 9 || month == 11 {
        30
    } else {
        31
    }
}

/// The date that lies `days` days after the first day of 1970.
pub fn date_after(days: u64) -> (date: Date)
    ensures
        is_date(date),
        day_number(date) == days,
        date == date_of(days as int),
{
    // The calendar repeats itself every 400 years.
    let start: u64 = 1970 + 400 * (days / 146097);
    let mut rest: u64 = days % 146097;
    let mut year: u64 = start;
    proof {
        lemma_cycle((days / 146097) as int);
    }
    while rest >= days_of_year(year)
        invariant
            1970 <= start <= year,
            start <= 0xff_ffff_ffff_ffff,
            rest <= 146097,
            year - start + rest <= 146097,
            days_before_year(year as int) + rest == days,
        ensures
            rest < year_days(year as int),
        decreases rest,
    {
        proof {
            lemma_next_year(year as int);
        }
        rest = rest - days_of_year(year);
        year = year + 1;
    }
    let ghost of_year = rest as int;
    let mut month: u64 = 1;
    while month < 12 && rest >= days_of_month(year, month)
        invariant
            1 <= month <= 12,
            days_before_month(year as int, month as int) + rest == of_year,
        ensures
            1 <= month <= 12,
            days_before_month(year as int, month as int) + rest == of_year,
            month == 12 || rest < month_days(year as int, month as int),
        decreases 12 - month,
    {
        rest = rest - days_of_month(year, month);
        month = month + 1;
    }
    proof {
        lemma_months(year as int);
    }
    let date = Date { year, month, day: rest + 1 };
    proof {
        let found = date_of(days as int);
        assert(is_date(date) && day_number(date) == days as int);
        dates_are_distinct_days(date, found);
    }
    date
}

/// A number in decimal, with a zero before it where it has only one digit.
pub open spec fn two_digits(n: nat) -> Seq<char> {
    if n < 10 {
        "0"@ + text::decimal(n)
    } else {
        text::decimal(n)
    }
}

/// A year in decimal, with a sign before it where it has more than four digits.
pub open spec fn year_text(year: nat) -> Seq<char> {
    if year > 9999 {
        "+"@ + text::decimal(year)
    } else {
        text::decimal(year)
    }
}

/// The ISO 8601 text of the moment that lies `secs` seconds after the start of
/// 1970: the date, a `T`, and the time of day, in UTC.
pub open spec fn iso_text(secs: nat) -> Seq<char> {
    let date = date_of((secs / 86400) as int);
    let of_day = secs % 86400;
    year_text(date.year as nat) + "-"@ + two_digits(date.month as nat) + "-"@ + two_digits(date.day as nat) + "T"@
        + two_digits(of_day / 3600) + ":"@ + two_digits(of_day % 3600 / 60) + ":"@ + two_digits(of_day % 60) + "Z"@
}

/// Appends a number in decimal, with a zero before it where it has only one digit.
fn append_two_digits(text: &mut String, n: u64)
    ensures
        final(text)@ == old(text)@ + two_digits(n as nat),
{
    if n < 10 {
        text.append("0");
    }
    append_decimal(text, n);
    assert(text@ =~= old(text)@ + two_digits(n as nat));
}

/// The ISO 8601 text of the moment that lies `secs` seconds after the start of
/// 1970, in UTC.
pub fn iso_timestamp(secs: u64) -> (timestamp: String)
    ensures
        timestamp@ == iso_text(secs as nat),
{
    let date = date_after(secs / 86400);
    let of_day: u64 = secs % 86400;
    let mut timestamp = String::new();
    if date.year > 9999 {
        timestamp.append("+");
    }
    append_decimal(&mut timestamp, date.year);
    timestamp.append("-");
    append_two_digits(&mut timestamp, date.month);
    timestamp.append("-");
    append_two_digits(&mut timestamp, date.day);
    timestamp.append("T");
    append_two_digits(&mut timestamp, of_day / 3600);
    timestamp.append(":");
    append_two_digits(&mut timestamp, of_day % 3600 / 60);
    timestamp.append(":");
    append_two_digits(&mut timestamp, of_day % 60);
    timestamp.append("Z");
    assert(timestamp@ =~= iso_text(secs as nat));
    timestamp
}

/// The day after a date.
spec fn next_date(date: Date) -> Date {
    if date.day < month_days(date.year as int, date.month as int) {
        Date { day: (date.day + 1) as u64, ..date }
    } else if date.month < 12 {
        Date { month: (date.month + 1) as u64, day: 1, ..date }
    } else {
        Date { year: (date.year + 1) as u64, month: 1, day: 1 }
    }
}

/// The day after a date is a date, and the next day.
proof fn lemma_next_date(date: Date)
    requires
        is_date(date),
        date.year < u64::MAX,
    ensures
        is_date(next_date(date)),
        day_number(next_date(date)) == day_number(date) + 1,
{
    let year = date.year as int;
    let month = date.month as int;
    if date.day == month_days(year, month) && month == 12 {
        lemma_months(year);
        lemma_next_year(year);
        assert(days_before_month(year + 1, 1) == 0);
    } else if date.day == month_days(year, month) {
        assert(days_before_month(year, month + 1) == days_before_month(year, month) + month_days(year, month));
    }
}

/// Every day from 1970 on has its date, in a year that has begun.
proof fn lemma_date_of(days: int)
    requires
        0 <= days < u64::MAX - 1970,
    ensures
        is_date(date_of(days)),
        day_number(date_of(days)) == days,
        date_of(days).year <= 1970 + days,
    decreases days,
{
    let first = Date { year: 1970, month: 1, day: 1 };
    let date = if days == 0 {
        first
    } else {
        lemma_date_of(days - 1);
        lemma_next_date(date_of(days - 1));
        next_date(date_of(days - 1))
    };
    if days == 0 {
        assert(days_before_month(1970, 1) == 0);
    }
    assert(is_date(date) && day_number(date) == days);
    dates_are_distinct_days(date, date_of(days));
}

/// The calendar starts on the first of January 1970, and each day is followed by the next
/// one: by the next day of the month, or, behind the last day of a month, by the first of
/// the next month, or, behind the last of December, by the first of January. February has 29
/// days in every fourth year, but in only every fourth of the years that end a century.
pub proof fn days_follow_each_other(days: int)
    requires
        0 <= days < u64::MAX - 1971,
    ensures
        date_of(0) == (Date { year: 1970, month: 1, day: 1 }),
        ({
            let date = date_of(days);
            let next = date_of(days + 1);
            let leap = (date.year % 4 == 0 && date.year % 100 != 0) || date.year % 400 == 0;
            let last = if date.month == 2 {
                if leap {
                    29int
                } else {
                    28int
                }
            } else if date.month == 4 || date.month == 6 || date.month == 9 || date.month == 11 {
                30int
            } else {
                31int
            };
            &&& date.day < last ==> next.year == date.year && next.month == date.month && next.day == date.day + 1
            &&& date.day >= last && date.month < 12 ==> next.year == date.year && next.month == date.month + 1 && next.day
                == 1
            &&& date.day >= last && date.month == 12 ==> next.year == date.year + 1 && next.month == 1 && next.day == 1
            &&& 1 <= date.day <= last
            &&& 1 <= date.month <= 12
        }),
{
    let first = Date { year: 1970, month: 1, day: 1 };
    assert(days_before_month(1970, 1) == 0);
    assert(is_date(first) && day_number(first) == 0);
    lemma_date_of(0);
    dates_are_distinct_days(first, date_of(0));
    lemma_date_of(days);
    lemma_date_of(days + 1);
    lemma_next_date(date_of(days));
    dates_are_distinct_days(next_date(date_of(days)), date_of(days + 1));
}

proof fn lemma_two_digits(n: nat)
    requires
        n < 100,
    ensures
        two_digits(n).len() == 2,
        two_digits(n)[0] as int == '0' as int + n / 10,
        two_digits(n)[1] as int == '0' as int + n % 10,
{
    reveal_strlit("0");
    text::decimal_is_written_digit_by_digit(n / 10, n % 10);
    if n >= 10 {
        text::decimal_is_written_digit_by_digit(0, n / 10);
    }
}

proof fn lemma_four_digits(n: nat)
    requires
        1000 <= n <= 9999,
    ensures
        text::decimal(n).len() == 4,
{
    text::decimal_is_written_digit_by_digit(n / 10, n % 10);
    text::decimal_is_written_digit_by_digit(n / 100, n / 10 % 10);
    text::decimal_is_written_digit_by_digit(n / 1000, n / 100 % 10);
    text::decimal_is_written_digit_by_digit(0, n / 1000);
}

/// A moment before the year 10000 is written as twenty characters: the year in four digits,
/// the month, the day, the hour, the minute and the second in two, with the signs of ISO 8601
/// between and behind them. Hour, minute and second make up the seconds of the day.
pub proof fn timestamps_are_iso_8601(secs: nat, hour: nat, minute: nat, second: nat)
    requires
        date_of((secs / 86400) as int).year <= 9999,
        secs / 86400 < u64::MAX - 1970,
        hour < 24,
        minute < 60,
        second < 60,
        hour * 3600 + minute * 60 + second == secs % 86400,
    ensures
        ({
            let date = date_of((secs / 86400) as int);
            let s = iso_text(secs);
            &&& s.len() == 20
            &&& s.take(4) == text::decimal(date.year as nat)
            &&& s[4] == '-' && s[7] == '-' && s[10] == 'T' && s[13] == ':' && s[16] == ':' && s[19] == 'Z'
            &&& s[5] as int == '0' as int + date.month / 10 && s[6] as int == '0' as int + date.month % 10
            &&& s[8] as int == '0' as int + date.day / 10 && s[9] as int == '0' as int + date.day % 10
            &&& s[11] as int == '0' as int + hour / 10 && s[12] as int == '0' as int + hour % 10
            &&& s[14] as int == '0' as int + minute / 10 && s[15] as int == '0' as int + minute % 10
            &&& s[17] as int == '0' as int + second / 10 && s[18] as int == '0' as int + second % 10
        }),
{
    let days = (secs / 86400) as int;
    lemma_date_of(days);
    let date = date_of(days);
    let of_day = secs % 86400;
    assert(of_day / 3600 == hour);
    assert(of_day % 3600 / 60 == minute);
    assert(of_day % 60 == second);
    lemma_four_digits(date.year as nat);
    lemma_two_digits(date.month as nat);
    lemma_two_digits(date.day as nat);
    lemma_two_digits(hour);
    lemma_two_digits(minute);
    lemma_two_digits(second);
    reveal_strlit("-");
    reveal_strlit("T");
    reveal_strlit(":");
    reveal_strlit("Z");
    let s = iso_text(secs);
    assert(s.take(4) =~= text::decimal(date.year as nat));
}

} // verus!
