use wayex_ledger::calendar::{CalendarDate, Timestamp, CLOCK_FORMAT, MAX_YEAR, MIN_YEAR};

#[test]
fn dates_carry_their_day_count() {
    let day = CalendarDate::from_ymd(2024, 1, 10).unwrap();
    assert_eq!(day.year(), 2024);
    assert_eq!(day.month(), 1);
    assert_eq!(day.day(), 10);
    assert_eq!(day.days(), 738_895);
    assert_eq!(CalendarDate::from_ymd(1970, 1, 1).unwrap().days(), 719_163);
    assert_eq!(CalendarDate::from_ymd(1, 1, 1).unwrap().days(), 1);
    assert_eq!(CalendarDate::from_ymd(0, 1, 1).unwrap().days(), -365);
}

#[test]
fn days_that_do_not_exist_are_refused() {
    assert!(CalendarDate::from_ymd(2023, 2, 29).is_none());
    assert!(CalendarDate::from_ymd(2024, 2, 29).is_some());
    assert!(CalendarDate::from_ymd(2024, 2, 30).is_none());
    assert!(CalendarDate::from_ymd(2024, 0, 1).is_none());
    assert!(CalendarDate::from_ymd(2024, 13, 1).is_none());
    assert!(CalendarDate::from_ymd(2024, 4, 31).is_none());
    assert!(CalendarDate::from_ymd(400_000, 1, 1).is_none());
}

#[test]
fn day_differences_are_signed() {
    let a = CalendarDate::from_ymd(2024, 1, 10).unwrap();
    let b = CalendarDate::from_ymd(2024, 1, 9).unwrap();
    let c = CalendarDate::from_ymd(2024, 3, 1).unwrap();
    assert_eq!(a.days_since(&b), 1);
    assert_eq!(b.days_since(&a), -1);
    assert_eq!(a.days_since(&c), -51);
    assert_eq!(c.days_since(&a), 51);
    assert_eq!(a.days_since(&a), 0);
}

#[test]
fn day_differences_agree_with_chrono() {
    let ours = CalendarDate::from_ymd(2024, 1, 10)
        .unwrap()
        .days_since(&CalendarDate::from_ymd(2019, 12, 31).unwrap());
    let theirs = (chrono::NaiveDate::from_ymd_opt(2024, 1, 10).unwrap()
        - chrono::NaiveDate::from_ymd_opt(2019, 12, 31).unwrap())
    .num_days();
    assert_eq!(ours, theirs);
}

#[test]
fn dates_are_rendered_year_first() {
    let render = |y, m, d| CalendarDate::from_ymd(y, m, d).unwrap().render();
    assert_eq!(render(2024, 1, 9), "2024-01-09");
    assert_eq!(render(2024, 12, 31), "2024-12-31");
    assert_eq!(render(987, 6, 5), "0987-06-05");
    assert_eq!(render(0, 1, 1), "0000-01-01");
    assert_eq!(render(-1, 1, 1), "-0001-01-01");
    assert_eq!(render(10_000, 1, 1), "+10000-01-01");
    assert_eq!(
        render(2024, 1, 9),
        chrono::NaiveDate::from_ymd_opt(2024, 1, 9).unwrap().to_string()
    );
}

#[test]
fn export_timestamps_are_read() {
    let stamp = Timestamp::parse("Wed, 10 Jan 2024, 10:30 am").unwrap();
    assert_eq!(stamp.date.days(), 738_895);
    assert_eq!((stamp.date.year(), stamp.date.month(), stamp.date.day()), (2024, 1, 10));
    assert_eq!((stamp.hour, stamp.minute, stamp.second), (10, 30, 0));
    assert_eq!(stamp.render(), "2024-01-10 10:30:00");
    let evening = Timestamp::parse("Fri, 01 Mar 2024, 11:05 pm").unwrap();
    assert_eq!(evening.render(), "2024-03-01 23:05:00");
    let midnight = Timestamp::parse("Fri, 01 Mar 2024, 12:00 am").unwrap();
    assert_eq!(midnight.render(), "2024-03-01 00:00:00");
}

#[test]
fn unreadable_timestamps_are_refused() {
    assert!(Timestamp::parse("").is_none());
    assert!(Timestamp::parse("2024-01-10 10:30").is_none());
    assert!(Timestamp::parse("Tue, 10 Jan 2024, 10:30 am").is_none());
    assert!(Timestamp::parse("Wed, 10 Jan 2024, 13:30 am").is_none());
    assert!(Timestamp::parse("Thu, 30 Feb 2023, 10:30 am").is_none());
    assert!(Timestamp::parse("Wed, 10 Jan 2024, 10:30").is_none());
    assert!(Timestamp::parse("Wed, 10 Jan 2024, 10:30 am and more").is_none());
    assert!(Timestamp::parse("Mon, 01 Jan -2147483648, 10:30 am").is_none());
    assert!(Timestamp::parse("Mon, 01 Jan +2147483647, 10:30 am").is_none());
    assert!(Timestamp::parse("Mon, 01 Jan +99999999999999999999, 10:30 am").is_none());
}

#[test]
fn the_pattern_is_the_one_of_the_export() {
    assert_eq!(CLOCK_FORMAT, "%a, %d %b %Y, %I:%M %P");
    let stamp = Timestamp::parse("Sat, 29 Feb 2020, 12:59 pm").unwrap();
    assert_eq!(stamp.render(), "2020-02-29 12:59:00");
}

#[test]
fn readings_become_timestamps() {
    assert_eq!(
        Timestamp::from_reading(Some((2024, 1, 10, 1, 2, 3))).unwrap().render(),
        "2024-01-10 01:02:03"
    );
    assert!(Timestamp::from_reading(Some((2024, 2, 30, 1, 2, 3))).is_none());
    assert!(Timestamp::from_reading(None).is_none());
}

fn leap(year: i64) -> bool {
    year.rem_euclid(4) == 0 && (year.rem_euclid(100) != 0 || year.rem_euclid(400) == 0)
}

fn month_length(year: i64, month: u32) -> u32 {
    match month {
        2 => {
            if leap(year) {
                29
            } else {
                28
            }
        }
        4 | 6 | 9 | 11 => 30,
        _ => 31,
    }
}

fn expected_count(year: i64, month: u32, day: u32) -> i64 {
    let past = year - 1;
    let before_year =
        365 * past + past.div_euclid(4) - past.div_euclid(100) + past.div_euclid(400);
    let before_month: u32 = (1..month).map(|m| month_length(year, m)).sum();
    before_year + before_month as i64 + day as i64
}

#[test]
fn day_counts_are_those_of_the_calendar() {
    let years = [
        MIN_YEAR, MIN_YEAR + 1, -401, -400, -399, -101, -100, -99, -5, -4, -3, -1, 0, 1, 2, 3,
        4, 5, 99, 100, 101, 399, 400, 401, 1582, 1600, 1700, 1899, 1900, 1901, 1969, 1970,
        1999, 2000, 2001, 2023, 2024, 2025, 2100, 9999, 10_000, MAX_YEAR - 1, MAX_YEAR,
    ];
    for year in years {
        for month in 0..=13u32 {
            for day in 0..=32u32 {
                let ours = CalendarDate::from_ymd(year, month, day).map(|d| d.days() as i64);
                let exists = (1..=12).contains(&month)
                    && day >= 1
                    && day <= month_length(year as i64, month);
                let expected =
                    if exists { Some(expected_count(year as i64, month, day)) } else { None };
                assert_eq!(ours, expected, "{year}-{month}-{day}");
            }
        }
    }
}

#[test]
fn day_counts_end_with_the_years_that_have_them() {
    assert_eq!((MIN_YEAR, MAX_YEAR), (-262_143, 262_142));
    assert_eq!(CalendarDate::from_ymd(MAX_YEAR, 12, 31).unwrap().days(), 95_745_399);
    assert_eq!(CalendarDate::from_ymd(MIN_YEAR, 1, 1).unwrap().days(), -95_746_129);
    assert!(CalendarDate::from_ymd(MAX_YEAR + 1, 1, 1).is_none());
    assert!(CalendarDate::from_ymd(MIN_YEAR - 1, 12, 31).is_none());
    assert!(CalendarDate::from_ymd(i32::MAX, 1, 1).is_none());
    assert!(CalendarDate::from_ymd(i32::MIN, 1, 1).is_none());
    assert!(CalendarDate::from_ymd(2024, u32::MAX, 1).is_none());
    assert!(CalendarDate::from_ymd(2024, 1, u32::MAX).is_none());
}

#[test]
fn consecutive_days_have_consecutive_counts() {
    let mut previous = CalendarDate::from_ymd(2023, 12, 30).unwrap().days();
    for (year, month, day) in [
        (2023, 12, 31),
        (2024, 1, 1),
        (2024, 1, 2),
    ] {
        let next = CalendarDate::from_ymd(year, month, day).unwrap().days();
        assert_eq!(next, previous + 1);
        previous = next;
    }
    let feb = CalendarDate::from_ymd(2024, 2, 29).unwrap().days();
    assert_eq!(CalendarDate::from_ymd(2024, 3, 1).unwrap().days(), feb + 1);
    let feb = CalendarDate::from_ymd(2023, 2, 28).unwrap().days();
    assert_eq!(CalendarDate::from_ymd(2023, 3, 1).unwrap().days(), feb + 1);
}
