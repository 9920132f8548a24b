//! Days of the Gregorian calendar and how they are written.

use vstd::prelude::*;

use crate::text::{digit_char, digit_value, digits_value, is_digit, is_white_space, trimmed};

verus! {

/// A day of the Gregorian calendar.
#[derive(Debug, Clone, Copy, PartialEq, Eq, Structural)]
pub struct Date {
    /// The year, 0 to 9999.
    pub year: i32,
    /// The month, 1 to 12.
    pub month: u32,
    /// The day of the month, 1 to 31.
    pub day: u32,
}

/// A day of the week.
#[derive(Debug, Clone, Copy, PartialEq, Eq, Structural)]
pub enum Weekday {
    Mon,
    Tue,
    Wed,
    Thu,
    Fri,
    Sat,
    Sun,
}

pub open spec fn is_leap_year(year: int) -> bool {
    year % 4 == 0 && (year % 100 != 0 || year % 400 == 0)
}

pub open spec fn days_in_month(year: int, month: int) -> int {
    if month == 2 {
        if is_leap_year(year) {
            29
        } else {
            28
        }
    } else if month == 4 || month == 6 || month == 9 || month == 11 {
        30
    } else {
        31
    }
}

/// Whether the calendar has this day, in a year that four digits can write.
pub open spec fn is_calendar_day(year: int, month: int, day: int) -> bool {
    &&& 0 <= year <= 9999
    &&& 1 <= month <= 12
    &&& 1 <= day <= days_in_month(year, month)
}

/// The number of days in the year before `month` starts.
pub open spec fn days_before_month(year: int, month: int) -> int
    decreases month,
{
    if month <= 1 {
        0
    } else {
        days_before_month(year, month - 1) + days_in_month(year, month - 1)
    }
}

/// The number of the day, counted from 1 January of year 1, which is day 1.
pub open spec fn day_number(year: int, month: int, day: int) -> int {
    let past = year - 1;
    365 * past + past / 4 - past / 100 + past / 400 + days_before_month(year, month) + day
}

/// The day of the week, 1 for Monday to 7 for Sunday. Day 1 is a Monday.
pub open spec fn weekday_number(year: int, month: int, day: int) -> int {
    (day_number(year, month, day) - 1) % 7 + 1
}

/// A number below a hundred as two digits.
pub open spec fn two_digits(n: int) -> Seq<char> {
    seq![digit_char(n / 10), digit_char(n % 10)]
}

/// A number below ten thousand as four digits.
pub open spec fn four_digits(n: int) -> Seq<char> {
    two_digits(n / 100) + two_digits(n % 100)
}

/// A day written as `YYYY-MM-DD`.
pub open spec fn date_text(year: int, month: int, day: int) -> Seq<char> {
    four_digits(year) + seq!['-'] + two_digits(month) + seq!['-'] + two_digits(day)
}

/// Whether a text has the shape of `YYYY-MM-DD`.
pub open spec fn is_date_shaped(s: Seq<char>) -> bool {
    &&& s.len() == 10
    &&& s[4] == '-'
    &&& s[7] == '-'
    &&& forall|i: int| 0 <= i < 10 && i != 4 && i != 7 ==> is_digit(#[trigger] s[i])
}

/// The year that a text of that shape names.
pub open spec fn year_of(s: Seq<char>) -> int {
    digits_value(s.subrange(0, 4))
}

/// The month that a text of that shape names.
pub open spec fn month_of(s: Seq<char>) -> int {
    digits_value(s.subrange(5, 7))
}

/// The day of the month that a text of that shape names.
pub open spec fn day_of(s: Seq<char>) -> int {
    digits_value(s.subrange(8, 10))
}

/// Whether a text of that shape names a day that the calendar has.
pub open spec fn names_calendar_day(s: Seq<char>) -> bool {
    is_calendar_day(year_of(s), month_of(s), day_of(s))
}

impl Date {
    /// Whether this is a day that the calendar has, in a year of four digits.
    pub open spec fn valid(self) -> bool {
        is_calendar_day(self.year as int, self.month as int, self.day as int)
    }

    /// The day as `YYYY-MM-DD`.
    pub open spec fn written(self) -> Seq<char> {
        date_text(self.year as int, self.month as int, self.day as int)
    }

    /// The day of the week, 1 for Monday to 7 for Sunday.
    pub open spec fn weekday_index(self) -> int {
        weekday_number(self.year as int, self.month as int, self.day as int)
    }

    /// The day as `YYYY-MM-DD`.
    pub fn text(self) -> (r: String)
        requires
            self.valid(),
        ensures
            r@ == self.written(),
    {
        format_ymd(self.year, self.month, self.day)
    }

    /// The day of the week.
    pub fn weekday(self) -> (r: Weekday)
        requires
            self.valid(),
        ensures
            r.number() == self.weekday_index(),
    {
        let n: u32 = weekday_from_monday(self.year, self.month, self.day);
        if n == 1 {
            Weekday::Mon
        } else if n == 2 {
            Weekday::Tue
        } else if n == 3 {
            Weekday::Wed
        } else if n == 4 {
            Weekday::Thu
        } else if n == 5 {
            Weekday::Fri
        } else if n == 6 {
            Weekday::Sat
        } else {
            Weekday::Sun
        }
    }
}

impl Weekday {
    /// 1 for Monday to 7 for Sunday.
    pub open spec fn number(self) -> int {
        match self {
            Weekday::Mon => 1,
            Weekday::Tue => 2,
            Weekday::Wed => 3,
            Weekday::Thu => 4,
            Weekday::Fri => 5,
            Weekday::Sat => 6,
            Weekday::Sun => 7,
        }
    }

    /// 1 for Monday to 7 for Sunday.
    pub fn number_from_monday(self) -> (r: u32)
        ensures
            r == self.number(),
    {
        match self {
            Weekday::Mon => 1,
            Weekday::Tue => 2,
            Weekday::Wed => 3,
            Weekday::Thu => 4,
            Weekday::Fri => 5,
            Weekday::Sat => 6,
            Weekday::Sun => 7,
        }
    }
}

/// `chrono::NaiveDate::parse_from_str` with the format `%Y-%m-%d`, on a text
/// that has that shape: it reads the three numbers, and refuses them with
/// "input is out of range" exactly where the calendar has no such day.
#[verifier::external_body]
pub(crate) fn parse_ymd(s: &str) -> (r: Result<Date, String>)
    requires
        is_date_shaped(s@),
    ensures
        match r {
            Ok(d) => names_calendar_day(s@) && d.year == year_of(s@) && d.month == month_of(s@)
                && d.day == day_of(s@),
            Err(reason) => !names_calendar_day(s@) && reason@ == "input is out of range"@,
        },
{
    match chrono::NaiveDate::parse_from_str(s, "%Y-%m-%d") {
        Ok(d) => Ok(
            Date {
                year: chrono::Datelike::year(&d),
                month: chrono::Datelike::month(&d),
                day: chrono::Datelike::day(&d),
            },
        ),
        Err(e) => Err(e.to_string()),
    }
}

/// `chrono::NaiveDate::format` with `%Y-%m-%d`: four digits for a year up to
/// 9999, two each for the month and the day.
#[verifier::external_body]
pub(crate) fn format_ymd(year: i32, month: u32, day: u32) -> (r: String)
    requires
        is_calendar_day(year as int, month as int, day as int),
    ensures
        r@ == date_text(year as int, month as int, day as int),
{
    chrono::NaiveDate::from_ymd_opt(year, month, day).unwrap().format("%Y-%m-%d").to_string()
}

/// `chrono::Datelike::weekday` and `chrono::Weekday::number_from_monday`: the
/// day of the week in the proleptic Gregorian calendar, 1 for Monday.
#[verifier::external_body]
pub(crate) fn weekday_from_monday(year: i32, month: u32, day: u32) -> (r: u32)
    requires
        is_calendar_day(year as int, month as int, day as int),
    ensures
        r == weekday_number(year as int, month as int, day as int),
{
    let date = chrono::NaiveDate::from_ymd_opt(year, month, day).unwrap();
    chrono::Datelike::weekday(&date).number_from_monday()
}

// ---------------------------------------------------------------- laws

proof fn lemma_two_digits_value(s: Seq<char>)
    requires
        s.len() == 2,
    ensures
        digits_value(s) == digit_value(s[0]) * 10 + digit_value(s[1]),
{
    reveal_with_fuel(digits_value, 3);
}

proof fn lemma_four_digits_value(s: Seq<char>)
    requires
        s.len() == 4,
    ensures
        digits_value(s) == digit_value(s[0]) * 1000 + digit_value(s[1]) * 100 + digit_value(s[2])
            * 10 + digit_value(s[3]),
{
    reveal_with_fuel(digits_value, 5);
}

/// A day can be read back from how it is written.
pub proof fn law_written_day_reads_back(year: int, month: int, day: int)
    requires
        is_calendar_day(year, month, day),
    ensures
        is_date_shaped(date_text(year, month, day)),
        year_of(date_text(year, month, day)) == year,
        month_of(date_text(year, month, day)) == month,
        day_of(date_text(year, month, day)) == day,
{
    let s = date_text(year, month, day);
    lemma_four_digits_value(s.subrange(0, 4));
    lemma_two_digits_value(s.subrange(5, 7));
    lemma_two_digits_value(s.subrange(8, 10));
}

/// Two digits are how the number is written that they stand for.
proof fn lemma_two_digits_written(s: Seq<char>)
    requires
        s.len() == 2,
        is_digit(s[0]),
        is_digit(s[1]),
    ensures
        two_digits(digits_value(s)) == s,
        0 <= digits_value(s) <= 99,
{
    lemma_two_digits_value(s);
    assert(two_digits(digits_value(s)) =~= s);
}

/// Four digits are how the number is written that they stand for.
proof fn lemma_four_digits_written(s: Seq<char>)
    requires
        s.len() == 4,
        is_digit(s[0]),
        is_digit(s[1]),
        is_digit(s[2]),
        is_digit(s[3]),
    ensures
        four_digits(digits_value(s)) == s,
{
    let head = s.subrange(0, 2);
    let tail = s.subrange(2, 4);
    lemma_four_digits_value(s);
    lemma_two_digits_value(head);
    lemma_two_digits_value(tail);
    lemma_two_digits_written(head);
    lemma_two_digits_written(tail);
    assert(digits_value(s) == digits_value(head) * 100 + digits_value(tail));
    assert(four_digits(digits_value(s)) =~= s);
}

/// A text that names a day is how that day is written: each day has one
/// written form.
pub proof fn law_one_written_form(s: Seq<char>)
    requires
        is_date_shaped(s),
    ensures
        date_text(year_of(s), month_of(s), day_of(s)) == s,
{
    assert(is_digit(s[0]) && is_digit(s[1]) && is_digit(s[2]) && is_digit(s[3]));
    assert(is_digit(s[5]) && is_digit(s[6]) && is_digit(s[8]) && is_digit(s[9]));
    lemma_four_digits_written(s.subrange(0, 4));
    lemma_two_digits_written(s.subrange(5, 7));
    lemma_two_digits_written(s.subrange(8, 10));
    assert(s.subrange(0, 4) + seq!['-'] + s.subrange(5, 7) + seq!['-'] + s.subrange(8, 10) =~= s);
}

/// No white space surrounds a text of the shape `YYYY-MM-DD`.
pub proof fn lemma_date_shape_is_trimmed(s: Seq<char>)
    requires
        is_date_shaped(s),
    ensures
        trimmed(s) == s,
{
    assert(is_digit(s[0]) && is_digit(s[9]));
    assert(!is_white_space(s[0]) && !is_white_space(s.last()));
}

/// The day that follows a day.
pub open spec fn next_day(year: int, month: int, day: int) -> (int, int, int) {
    if day < days_in_month(year, month) {
        (year, month, day + 1)
    } else if month < 12 {
        (year, month + 1, 1)
    } else {
        (year + 1, 1, 1)
    }
}

/// A year has 365 days, a leap year 366.
proof fn lemma_days_of_year(year: int)
    ensures
        days_before_month(year, 12) + 31 == if is_leap_year(year) {
            366int
        } else {
            365
        },
{
    reveal_with_fuel(days_before_month, 13);
}

/// Within a month, and from one month to the next, the days are counted on.
proof fn lemma_next_in_year(year: int, month: int, day: int)
    requires
        is_calendar_day(year, month, day),
        day < days_in_month(year, month) || month < 12,
    ensures
        ({
            let next = next_day(year, month, day);
            day_number(next.0, next.1, next.2) == day_number(year, month, day) + 1
        }),
{
    assert(days_before_month(year, month + 1) == days_before_month(year, month) + days_in_month(
        year,
        month,
    ));
}

/// How many leap days there were before a year ends, and before it starts.
#[verifier::spinoff_prover]
proof fn lemma_leap_days(year: int)
    ensures
        year / 4 - (year - 1) / 4 == if year % 4 == 0 {
            1int
        } else {
            0
        },
        year / 100 - (year - 1) / 100 == if year % 100 == 0 {
            1int
        } else {
            0
        },
        year / 400 - (year - 1) / 400 == if year % 400 == 0 {
            1int
        } else {
            0
        },
        year % 400 == 0 ==> year % 100 == 0,
        year % 100 == 0 ==> year % 4 == 0,
{
}

/// From one year to the next, the days are counted on.
#[verifier::spinoff_prover]
proof fn lemma_next_year(year: int)
    ensures
        day_number(year + 1, 1, 1) == day_number(year, 12, 31) + 1,
{
    lemma_days_of_year(year);
    lemma_leap_days(year);
    assert(days_before_month(year + 1, 1) == 0);
}

/// The days of the week follow one another, over the ends of months and years.
pub proof fn law_weekdays_follow(year: int, month: int, day: int)
    requires
        is_calendar_day(year, month, day),
    ensures
        1 <= weekday_number(year, month, day) <= 7,
        ({
            let next = next_day(year, month, day);
            weekday_number(next.0, next.1, next.2) == weekday_number(year, month, day) % 7 + 1
        }),
{
    let next = next_day(year, month, day);
    let n = day_number(year, month, day);
    assert(day_number(next.0, next.1, next.2) == n + 1) by {
        if day < days_in_month(year, month) || month < 12 {
            lemma_next_in_year(year, month, day);
        } else {
            lemma_next_year(year);
        }
    }
    assert(n % 7 + 1 == ((n - 1) % 7 + 1) % 7 + 1);
}

} // verus!
