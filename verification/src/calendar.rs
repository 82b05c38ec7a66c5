//! Calendar dates and wall-clock timestamps, held as plain numbers.

use vstd::prelude::*;
use vstd::string::StringExecFns;
use crate::text::digits;
use crate::text::push_digits;

verus! {

/// The pattern of the export's timestamps, as in
/// `Wed, 10 Jan 2024, 10:30 am`: short weekday, day, short month, year, and
/// the time on a twelve-hour clock.
pub const CLOCK_FORMAT: &'static str = "%a, %d %b %Y, %I:%M %P";

/// The first year that has day counts.
pub const MIN_YEAR: i32 = -262_143;

/// The last year that has day counts.
pub const MAX_YEAR: i32 = 262_142;

/// Whether a year of the proleptic Gregorian calendar is a leap year.
pub open spec fn is_leap_year(year: int) -> bool {
    year % 4 == 0 && (year % 100 != 0 || year % 400 == 0)
}

/// How many days a month of a year has.
pub open spec fn days_in_month(year: int, month: int) -> int {
    if month == 2 {
        if is_leap_year(year) {
            29
        } else {
            28
        }
    } else if month == 4 || month == 6 || month == 9 || month == 11 {
        30
    } else {
        31
    }
}

/// How many days of a year lie before its month `month`.
pub open spec fn days_before_month(year: int, month: int) -> int
    decreases month,
{
    if month <= 1 {
        0
    } else {
        days_before_month(year, month - 1) + days_in_month(year, month - 1)
    }
}

/// How many days lie between the end of the year 0 and the start of
/// `year`: 365 for each year between, and one more for each leap year.
pub open spec fn days_before_year(year: int) -> int {
    let past = year - 1;
    365 * past + past / 4 - past / 100 + past / 400
}

/// Whether the calendar has the day `year-month-day`, in a year that has
/// day counts.
pub open spec fn is_calendar_day(year: int, month: int, day: int) -> bool {
    &&& MIN_YEAR <= year <= MAX_YEAR
    &&& 1 <= month <= 12
    &&& 1 <= day <= days_in_month(year, month)
}

/// The day count of the calendar day `year-month-day` in the proleptic
/// Gregorian calendar, where 0001-01-01 is day 1; `None` where there is no
/// such day.
pub open spec fn day_number(year: i32, month: u32, day: u32) -> Option<i32> {
    if is_calendar_day(year as int, month as int, day as int) {
        Some(
            (days_before_year(year as int) + days_before_month(year as int, month as int)
                + day) as i32,
        )
    } else {
        None
    }
}

/// What `chrono` reads in `text` under the `strftime` pattern `format`:
/// year, month, day, hour, minute and second; `None` where the text does
/// not follow the pattern.
pub uninterp spec fn clock_reading(text: Seq<char>, format: Seq<char>) -> Option<
    (i32, u32, u32, u32, u32, u32),
>;

/// Calls `chrono::NaiveDate::from_ymd_opt` and, on the date it gives,
/// `chrono::Datelike::num_days_from_ce`. The contract claims what their
/// documentation says: the first gives a date exactly for the days that
/// exist in the years from [`MIN_YEAR`] to [`MAX_YEAR`], and the second
/// counts the days of the proleptic Gregorian calendar from 0001-01-01 as
/// day 1. [`day_number`] writes that count out.
#[verifier::external_body]
fn count_days(year: i32, month: u32, day: u32) -> (r: Option<i32>)
    ensures
        r == day_number(year, month, day),
{
    match chrono::NaiveDate::from_ymd_opt(year, month, day) {
        Some(date) => Some(chrono::Datelike::num_days_from_ce(&date)),
        None => None,
    }
}

/// Calls `chrono::NaiveDateTime::parse_from_str` and takes the result apart
/// with the getters of `chrono::Datelike` and `chrono::Timelike`. The
/// contract claims only that the outcome is a function of the two texts,
/// under the name [`clock_reading`]; a parse error becomes `None`. Only
/// the export's pattern is admitted: under it the date is made from year,
/// month and day, which `chrono` range-tests before any arithmetic, while
/// under other patterns the call may not return.
#[verifier::external_body]
fn read_clock(text: &str, format: &str) -> (r: Option<(i32, u32, u32, u32, u32, u32)>)
    requires
        format@ == CLOCK_FORMAT@,
    ensures
        r == clock_reading(text@, format@),
{
    match chrono::NaiveDateTime::parse_from_str(text, format) {
        Ok(t) => Some(
            (
                chrono::Datelike::year(&t),
                chrono::Datelike::month(&t),
                chrono::Datelike::day(&t),
                chrono::Timelike::hour(&t),
                chrono::Timelike::minute(&t),
                chrono::Timelike::second(&t),
            ),
        ),
        Err(_) => None,
    }
}

/// The text of a year: four digits for the years 0 to 9999, else a sign
/// and at least four digits.
pub open spec fn year_text(year: int) -> Seq<char> {
    if 0 <= year <= 9999 {
        digits(year as nat, 4)
    } else if year < 0 {
        seq!['-'] + digits((-year) as nat, 4)
    } else {
        seq!['+'] + digits(year as nat, 4)
    }
}

/// The text of a date: year, month and day with hyphens between them, as
/// in `2024-01-09`.
pub open spec fn date_text(ymd: (i32, u32, u32)) -> Seq<char> {
    year_text(ymd.0 as int) + seq!['-'] + digits(ymd.1 as nat, 2) + seq!['-'] + digits(
        ymd.2 as nat,
        2,
    )
}

/// The text of a time of day, as in `08:05:00`.
pub open spec fn time_text(hour: u32, minute: u32, second: u32) -> Seq<char> {
    digits(hour as nat, 2) + seq![':'] + digits(minute as nat, 2) + seq![':'] + digits(
        second as nat,
        2,
    )
}

/// A day of the calendar: its year, month and day of month, together with
/// its day count, by which dates are compared and subtracted.
#[derive(Clone, Copy, Debug)]
pub struct CalendarDate {
    year: i32,
    month: u32,
    day: u32,
    days: i32,
}

impl CalendarDate {
    /// The day count belongs to the year, month and day.
    #[verifier::type_invariant]
    pub closed spec fn wf(self) -> bool {
        day_number(self.year, self.month, self.day) == Some(self.days)
    }

    /// The day count of this date.
    pub closed spec fn day_count(self) -> i32 {
        self.days
    }

    /// Year, month and day of month.
    pub closed spec fn ymd(self) -> (i32, u32, u32) {
        (self.year, self.month, self.day)
    }

    /// The calendar day `year-month-day`, where there is one.
    pub fn from_ymd(year: i32, month: u32, day: u32) -> (r: Option<CalendarDate>)
        ensures
            r is None <==> day_number(year, month, day) is None,
            r matches Some(date) ==> {
                &&& date.wf()
                &&& date.ymd() == (year, month, day)
                &&& day_number(year, month, day) == Some(date.day_count())
            },
    {
        match count_days(year, month, day) {
            Some(days) => Some(CalendarDate { year, month, day, days }),
            None => None,
        }
    }

    /// The year.
    pub fn year(&self) -> (r: i32)
        ensures
            r == self.ymd().0,
    {
        self.year
    }

    /// The month of the year, from 1.
    pub fn month(&self) -> (r: u32)
        ensures
            r == self.ymd().1,
    {
        self.month
    }

    /// The day of the month, from 1.
    pub fn day(&self) -> (r: u32)
        ensures
            r == self.ymd().2,
    {
        self.day
    }

    /// The day count of the date.
    pub fn days(&self) -> (r: i32)
        ensures
            r == self.day_count(),
    {
        self.days
    }

    /// Writes the date behind a text.
    pub fn push_onto(&self, out: &mut String)
        ensures
            final(out)@ == old(out)@ + date_text(self.ymd()),
    {
        proof {
            reveal_strlit("-");
            reveal_strlit("+");
        }
        if 0 <= self.year && self.year <= 9999 {
            push_digits(out, self.year as u128, 4);
        } else if self.year < 0 {
            out.append("-");
            push_digits(out, (-(self.year as i64)) as u128, 4);
        } else {
            out.append("+");
            push_digits(out, self.year as u128, 4);
        }
        out.append("-");
        push_digits(out, self.month as u128, 2);
        out.append("-");
        push_digits(out, self.day as u128, 2);
        assert(out@ =~= old(out)@ + date_text(self.ymd()));
    }

    /// The date as a text, as in `2024-01-09`.
    pub fn render(&self) -> (r: String)
        ensures
            r@ == date_text(self.ymd()),
    {
        let mut out = String::new();
        self.push_onto(&mut out);
        assert(out@ =~= date_text(self.ymd()));
        out
    }

    /// How many days this date lies after `earlier`; negative where it lies
    /// before.
    pub fn days_since(&self, earlier: &CalendarDate) -> (r: i64)
        ensures
            r == self.day_count() - earlier.day_count(),
    {
        self.days as i64 - earlier.days as i64
    }
}

/// A date with a time of day, as a wall clock shows it.
#[derive(Clone, Copy, Debug)]
pub struct Timestamp {
    pub date: CalendarDate,
    pub hour: u32,
    pub minute: u32,
    pub second: u32,
}

impl Timestamp {
    /// The text of the timestamp: date, a space, and time of day.
    pub open spec fn text(self) -> Seq<char> {
        date_text(self.date.ymd()) + seq![' '] + time_text(self.hour, self.minute, self.second)
    }

    /// Writes the timestamp behind a text.
    pub fn push_onto(&self, out: &mut String)
        ensures
            final(out)@ == old(out)@ + self.text(),
    {
        proof {
            reveal_strlit(" ");
            reveal_strlit(":");
        }
        self.date.push_onto(out);
        out.append(" ");
        push_digits(out, self.hour as u128, 2);
        out.append(":");
        push_digits(out, self.minute as u128, 2);
        out.append(":");
        push_digits(out, self.second as u128, 2);
        assert(out@ =~= old(out)@ + self.text());
    }

    /// The timestamp as a text, as in `2024-01-09 08:05:00`.
    pub fn render(&self) -> (r: String)
        ensures
            r@ == self.text(),
    {
        let mut out = String::new();
        self.push_onto(&mut out);
        assert(out@ =~= self.text());
        out
    }

    /// The timestamp that a reading of the clock stands for.
    pub open spec fn of_reading(
        reading: Option<(i32, u32, u32, u32, u32, u32)>,
        stamp: Option<Timestamp>,
    ) -> bool {
        match reading {
            Some((year, month, day, hour, minute, second)) => {
                &&& stamp is None <==> day_number(year, month, day) is None
                &&& stamp matches Some(t) ==> {
                    &&& t.date.wf()
                    &&& t.date.ymd() == (year, month, day)
                    &&& day_number(year, month, day) == Some(t.date.day_count())
                    &&& t.hour == hour
                    &&& t.minute == minute
                    &&& t.second == second
                }
            },
            None => stamp is None,
        }
    }

    /// The timestamp with the given fields, where the date exists.
    pub fn from_reading(reading: Option<(i32, u32, u32, u32, u32, u32)>) -> (r: Option<Timestamp>)
        ensures
            Self::of_reading(reading, r),
    {
        match reading {
            Some((year, month, day, hour, minute, second)) => {
                match CalendarDate::from_ymd(year, month, day) {
                    Some(date) => Some(Timestamp { date, hour, minute, second }),
                    None => None,
                }
            },
            None => None,
        }
    }

    /// Reads a timestamp of the export, written after [`CLOCK_FORMAT`].
    pub fn parse(text: &str) -> (r: Option<Timestamp>)
        ensures
            Self::of_reading(clock_reading(text@, CLOCK_FORMAT@), r),
    {
        Self::from_reading(read_clock(text, CLOCK_FORMAT))
    }
}

/// One for a leap year, zero for another.
pub open spec fn leap_day(year: int) -> int {
    if is_leap_year(year) {
        1
    } else {
        0
    }
}

/// The days of a year before each of its months, and in the whole year.
pub proof fn lemma_days_before_months(year: int)
    ensures
        days_before_month(year, 1) == 0,
        days_before_month(year, 2) == 31,
        days_before_month(year, 3) == 59 + leap_day(year),
        days_before_month(year, 4) == 90 + leap_day(year),
        days_before_month(year, 5) == 120 + leap_day(year),
        days_before_month(year, 6) == 151 + leap_day(year),
        days_before_month(year, 7) == 181 + leap_day(year),
        days_before_month(year, 8) == 212 + leap_day(year),
        days_before_month(year, 9) == 243 + leap_day(year),
        days_before_month(year, 10) == 273 + leap_day(year),
        days_before_month(year, 11) == 304 + leap_day(year),
        days_before_month(year, 12) == 334 + leap_day(year),
        days_before_month(year, 13) == 365 + leap_day(year),
{
    assert(days_before_month(year, 1) == 0);
    assert(days_before_month(year, 2) == 31);
    assert(days_before_month(year, 3) == 59 + leap_day(year));
    assert(days_before_month(year, 4) == 90 + leap_day(year));
    assert(days_before_month(year, 5) == 120 + leap_day(year));
    assert(days_before_month(year, 6) == 151 + leap_day(year));
    assert(days_before_month(year, 7) == 181 + leap_day(year));
    assert(days_before_month(year, 8) == 212 + leap_day(year));
    assert(days_before_month(year, 9) == 243 + leap_day(year));
    assert(days_before_month(year, 10) == 273 + leap_day(year));
    assert(days_before_month(year, 11) == 304 + leap_day(year));
    assert(days_before_month(year, 12) == 334 + leap_day(year));
    assert(days_before_month(year, 13) == 365 + leap_day(year));
}

/// A year has 365 days, and one more where it is a leap year.
pub proof fn lemma_year_length(year: int)
    ensures
        days_before_year(year + 1) == days_before_year(year) + 365 + leap_day(year),
{
    let past = year - 1;
    assert(year / 4 == past / 4 + if year % 4 == 0 {
        1int
    } else {
        0int
    });
    assert(year / 100 == past / 100 + if year % 100 == 0 {
        1int
    } else {
        0int
    });
    assert(year / 400 == past / 400 + if year % 400 == 0 {
        1int
    } else {
        0int
    });
    assert(year % 400 == 0 ==> year % 100 == 0);
    assert(year % 100 == 0 ==> year % 4 == 0);
}

/// Day counts follow the calendar. The first day of the year 1 is day 1,
/// and the day after any day has the next count: the next day of the
/// month, the first of the next month after a month's last day, the first
/// of January after the last of December.
pub proof fn law_day_counts_follow_the_calendar(year: i32, month: u32, day: u32)
    requires
        is_calendar_day(year as int, month as int, day as int),
    ensures
        day_number(1, 1, 1) == Some(1i32),
        day_number(year, month, day) is Some,
        day < days_in_month(year as int, month as int) ==> day_number(
            year,
            month,
            (day + 1) as u32,
        ) == Some((day_number(year, month, day)->0 + 1) as i32),
        day == days_in_month(year as int, month as int) && month < 12 ==> day_number(
            year,
            (month + 1) as u32,
            1,
        ) == Some((day_number(year, month, day)->0 + 1) as i32),
        day == 31 && month == 12 && year < MAX_YEAR ==> day_number((year + 1) as i32, 1, 1)
            == Some((day_number(year, month, day)->0 + 1) as i32),
{
    lemma_days_before_months(1);
    lemma_days_before_months(year as int);
    lemma_days_before_months(year + 1);
    lemma_year_length(year as int);
    lemma_day_count_fits(year, month, day);
    if year < MAX_YEAR {
        lemma_day_count_fits((year + 1) as i32, 1, 1);
    }
    if day < days_in_month(year as int, month as int) {
        lemma_day_count_fits(year, month, (day + 1) as u32);
    }
    if month < 12 {
        lemma_day_count_fits(year, (month + 1) as u32, 1);
        assert(days_before_month(year as int, month + 1) == days_before_month(
            year as int,
            month as int,
        ) + days_in_month(year as int, month as int));
    }
}

/// The day count of a calendar day is far from the limits of its type.
pub proof fn lemma_day_count_fits(year: i32, month: u32, day: u32)
    requires
        is_calendar_day(year as int, month as int, day as int),
    ensures
        -96_000_000 < days_before_year(year as int) + days_before_month(
            year as int,
            month as int,
        ) + day < 96_000_000,
{
    lemma_days_before_months(year as int);
    let past = year - 1;
    assert(-262_144 <= past <= 262_141);
    assert(-65_536 <= past / 4 <= 65_535);
    assert(-2_622 <= past / 100 <= 2_621);
    assert(-656 <= past / 400 <= 655);
}

} // verus!
