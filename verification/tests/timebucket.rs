use chrono::{Datelike, Timelike};
use surveillance::timebucket::{CivilDate, TimeBucket, MAX_DAY, MAX_UTC_MS, MIN_DAY, MIN_UTC_MS};

fn millis(text: &str) -> i64 {
    chrono::DateTime::parse_from_rfc3339(text).unwrap().timestamp_millis()
}

#[test]
fn test_time_bucket_from_timestamp() {
    // 2024-01-15 14:37:00 UTC
    let ts = millis("2024-01-15T14:37:00Z");

    let bucket = TimeBucket::from_timestamp(ts, 5);
    assert_eq!(bucket.date, CivilDate::from_ymd_opt(2024, 1, 15).unwrap());
    assert_eq!(bucket.hour, 14);
    assert_eq!(bucket.minute, 35); // Rounded down to 5-minute bucket
}

#[test]
fn test_time_bucket_path_segments() {
    let bucket = TimeBucket {
        date: CivilDate::from_ymd_opt(2024, 1, 15).unwrap(),
        hour: 14,
        minute: 35,
        bucket_minutes: 5,
    };

    let (date, hour) = bucket.path_segments();
    assert_eq!(date, "2024-01-15");
    assert_eq!(hour, "14");
}

#[test]
fn test_time_bucket_file_prefix() {
    let bucket = TimeBucket {
        date: CivilDate::from_ymd_opt(2024, 1, 15).unwrap(),
        hour: 14,
        minute: 35,
        bucket_minutes: 5,
    };

    assert_eq!(bucket.file_prefix(), "snapshots_2024-01-15T14-35");
}

#[test]
fn test_next_bucket() {
    let bucket = TimeBucket {
        date: CivilDate::from_ymd_opt(2024, 1, 15).unwrap(),
        hour: 14,
        minute: 35,
        bucket_minutes: 5,
    };

    let next = bucket.next_bucket();
    assert_eq!(next.minute, 40);
}

#[test]
fn next_bucket_carries_into_hour_and_day() {
    let bucket = TimeBucket {
        date: CivilDate::from_ymd_opt(2024, 2, 28).unwrap(),
        hour: 23,
        minute: 55,
        bucket_minutes: 5,
    };
    let next = bucket.next_bucket();
    assert_eq!(next.date, CivilDate::from_ymd_opt(2024, 2, 29).unwrap());
    assert_eq!(next.hour, 0);
    assert_eq!(next.minute, 0);
    assert_eq!(next.bucket_minutes, 5);
    let after = TimeBucket { hour: 23, minute: 55, ..next }.next_bucket();
    assert_eq!(after.date, CivilDate::from_ymd_opt(2024, 3, 1).unwrap());
}

#[test]
fn next_bucket_is_the_bucket_one_width_later() {
    let ts = millis("2024-01-15T14:37:12Z");
    for width in [1u64, 2, 3, 5, 10, 15, 30, 60] {
        let here = TimeBucket::from_timestamp(ts, width);
        let there = TimeBucket::from_timestamp(ts + (width as i64) * 60_000, width);
        assert_eq!(here.next_bucket(), there);
    }
}

#[test]
fn bucket_fields_agree_with_chrono() {
    for ts in [0i64, -1, 1, 86_399_999, 86_400_000, -86_400_001, 1_705_329_420_000, -62_135_596_800_000] {
        let bucket = TimeBucket::from_timestamp(ts, 1);
        let dt = chrono::DateTime::<chrono::Utc>::from_timestamp_millis(ts).unwrap().naive_utc();
        assert_eq!(bucket.date.days_from_ce, dt.num_days_from_ce());
        assert_eq!(bucket.hour, dt.hour());
        assert_eq!(bucket.minute, dt.minute());
        assert_eq!(
            bucket.date.ymd(),
            Some((dt.year(), dt.month(), dt.day()))
        );
    }
}

#[test]
fn bucket_minute_is_rounded_down_to_the_width() {
    let ts = millis("2024-01-15T14:59:59Z");
    assert_eq!(TimeBucket::from_timestamp(ts, 5).minute, 55);
    assert_eq!(TimeBucket::from_timestamp(ts, 15).minute, 45);
    assert_eq!(TimeBucket::from_timestamp(ts, 60).minute, 0);
    assert_eq!(TimeBucket::from_timestamp(ts, 7).minute, 56);
    assert_eq!(TimeBucket::from_timestamp(ts, 1).minute, 59);
    // The width within the hour is the width modulo 2^32.
    let wide = TimeBucket::from_timestamp(ts, (1u64 << 32) + 5);
    assert_eq!(wide.minute, 55);
    assert_eq!(wide.bucket_minutes, (1u64 << 32) + 5);
}

#[test]
fn timestamps_of_one_bucket_give_equal_buckets() {
    let start = millis("2024-01-15T14:35:00Z");
    let first = TimeBucket::from_timestamp(start, 5);
    assert_eq!(TimeBucket::from_timestamp(start + 1, 5), first);
    assert_eq!(TimeBucket::from_timestamp(start + 299_999, 5), first);
    assert_ne!(TimeBucket::from_timestamp(start + 300_000, 5), first);
    assert_ne!(TimeBucket::from_timestamp(start - 1, 5), first);
}

#[test]
fn shifting_by_whole_widths_keeps_the_width_and_moves_the_start() {
    let ts = millis("2024-01-15T23:58:30Z");
    let shifted = TimeBucket::from_timestamp(ts + 3 * 5 * 60_000, 5);
    assert_eq!(shifted.bucket_minutes, 5);
    assert_eq!(shifted.date, CivilDate::from_ymd_opt(2024, 1, 16).unwrap());
    assert_eq!(shifted.hour, 0);
    assert_eq!(shifted.minute, 10);
    let back = TimeBucket::from_timestamp(ts - 12 * 5 * 60_000, 5);
    assert_eq!((back.hour, back.minute), (22, 55));
}

#[test]
fn a_timestamp_without_a_date_is_replaced_by_the_present() {
    let bucket = TimeBucket::from_timestamp(i64::MAX, 5);
    let now = TimeBucket::from_now(5);
    assert_eq!(bucket.bucket_minutes, 5);
    assert!(bucket.date.days_from_ce >= now.date.days_from_ce - 1);
    assert!(bucket.date.days_from_ce <= now.date.days_from_ce + 1);
    assert!(bucket.hour < 24 && bucket.minute < 60 && bucket.minute % 5 == 0);
    let below = TimeBucket::from_timestamp(MIN_UTC_MS - 1, 5);
    assert!(below.date.days_from_ce >= now.date.days_from_ce - 1);
}

#[test]
fn the_ends_of_the_calendar_have_dates() {
    let first = TimeBucket::from_timestamp(MIN_UTC_MS, 5);
    assert_eq!(first.date.days_from_ce, MIN_DAY);
    assert_eq!(first.date.ymd(), Some((-262143, 1, 1)));
    assert_eq!((first.hour, first.minute), (0, 0));
    let last = TimeBucket::from_timestamp(MAX_UTC_MS, 5);
    assert_eq!(last.date.days_from_ce, MAX_DAY);
    assert_eq!(last.date.ymd(), Some((262142, 12, 31)));
    assert_eq!((last.hour, last.minute), (23, 55));
    assert!(chrono::DateTime::<chrono::Utc>::from_timestamp_millis(MIN_UTC_MS - 1).is_none());
    assert!(chrono::DateTime::<chrono::Utc>::from_timestamp_millis(MAX_UTC_MS + 1).is_none());
    assert_eq!(CivilDate { days_from_ce: MIN_DAY - 1 }.ymd(), None);
    assert_eq!(CivilDate { days_from_ce: MAX_DAY + 1 }.ymd(), None);
}

#[test]
fn dates_that_the_calendar_lacks_are_refused() {
    assert!(CivilDate::from_ymd_opt(2023, 2, 29).is_none());
    assert!(CivilDate::from_ymd_opt(2024, 2, 29).is_some());
    assert!(CivilDate::from_ymd_opt(1900, 2, 29).is_none());
    assert!(CivilDate::from_ymd_opt(2000, 2, 29).is_some());
    assert!(CivilDate::from_ymd_opt(2024, 4, 31).is_none());
    assert!(CivilDate::from_ymd_opt(2024, 13, 1).is_none());
    assert!(CivilDate::from_ymd_opt(2024, 0, 1).is_none());
    assert!(CivilDate::from_ymd_opt(2024, 1, 0).is_none());
    assert!(CivilDate::from_ymd_opt(262143, 1, 1).is_none());
    assert!(CivilDate::from_ymd_opt(-262144, 12, 31).is_none());
    assert_eq!(CivilDate::from_ymd_opt(1970, 1, 1).unwrap().days_from_ce, 719_163);
    assert_eq!(CivilDate::from_ymd_opt(1, 1, 1).unwrap().days_from_ce, 1);
}

#[test]
fn dates_are_written_with_padding_and_sign() {
    let text = |y: i32, m: u32, d: u32| {
        TimeBucket { date: CivilDate::from_ymd_opt(y, m, d).unwrap(), hour: 3, minute: 5, bucket_minutes: 5 }
    };
    assert_eq!(text(2024, 1, 5).path_segments(), ("2024-01-05".to_string(), "03".to_string()));
    assert_eq!(text(987, 12, 31).path_segments().0, "0987-12-31");
    assert_eq!(text(0, 1, 1).path_segments().0, "0000-01-01");
    assert_eq!(text(10000, 1, 1).path_segments().0, "+10000-01-01");
    assert_eq!(text(-1, 1, 1).path_segments().0, "-0001-01-01");
    assert_eq!(text(2024, 1, 5).file_prefix(), "snapshots_2024-01-05T03-05");
    assert_eq!(
        text(2024, 1, 5).display(),
        "date=2024-01-05/hour=03/snapshots_2024-01-05T03-05"
    );
    // The same text as chrono writes.
    for (y, m, d) in [(2024, 1, 5), (987, 12, 31), (0, 1, 1), (10000, 1, 1), (-1, 1, 1), (-262143, 1, 1)] {
        let theirs = chrono::NaiveDate::from_ymd_opt(y, m, d).unwrap().format("%Y-%m-%d").to_string();
        assert_eq!(text(y, m, d).path_segments().0, theirs);
    }
}

#[test]
fn numerals_are_padded_to_any_width() {
    let text = |n: u64, width: usize| {
        let mut out = String::from("x");
        surveillance::text::push_padded(&mut out, n, width);
        out
    };
    assert_eq!(text(7, 2), "x07");
    assert_eq!(text(7, 0), "x7");
    assert_eq!(text(123, 2), "x123");
    assert_eq!(text(0, 6), "x000000");
    assert_eq!(text(12_345, 8), "x00012345");
    assert_eq!(text(u64::MAX, 22), "x0018446744073709551615");
    assert_eq!(text(u64::MAX, 3), "x18446744073709551615");
}

#[test]
fn day_numbers_count_the_days_of_the_calendar() {
    let day = |y: i32, m: u32, d: u32| CivilDate::from_ymd_opt(y, m, d).unwrap().days_from_ce;
    assert_eq!(day(2024, 1, 15), 719_163 + 19_737);
    assert_eq!(day(2000, 3, 1) - day(2000, 2, 28), 2);
    assert_eq!(day(1900, 3, 1) - day(1900, 2, 28), 1);
    assert_eq!(day(0, 12, 31), 0);
    assert_eq!(day(-1, 12, 31), -366);
    assert_eq!(day(-262_143, 1, 1), MIN_DAY);
    assert_eq!(day(262_142, 12, 31), MAX_DAY);
    assert_eq!(CivilDate { days_from_ce: 719_163 + 19_783 }.ymd(), Some((2024, 3, 1)));
    assert!(CivilDate::from_ymd_opt(1900, 2, 29).is_none());
}
