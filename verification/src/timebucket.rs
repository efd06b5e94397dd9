//! Time buckets: the fixed-width windows by which output files are
//! partitioned.
//!
//! A bucket is a calendar day, an hour of it, and the first minute of a
//! window of `bucket_minutes` minutes within that hour. Days are counted in
//! the proleptic Gregorian calendar, with 1 January of year 1 as day 1.

use vstd::prelude::*;
use vstd::string::StringExecFns;
use vstd::arithmetic::div_mod::{lemma_fundamental_div_mod, lemma_fundamental_div_mod_converse};
use crate::text::{padded, push_padded};

verus! {

/// The first and the last millisecond since 1970-01-01T00:00:00Z for which
/// a calendar date exists.
pub const MIN_UTC_MS: i64 = -8_334_601_228_800_000;

pub const MAX_UTC_MS: i64 = 8_210_266_876_799_999;

/// The day numbers of 1 January of year -262143 and of 31 December of year
/// 262142, the first and the last day that has a calendar date.
pub const MIN_DAY: i32 = -95_746_129;

pub const MAX_DAY: i32 = 95_745_399;

/// The day number of 1970-01-01.
pub const EPOCH_DAY: i32 = 719_163;

/// The most minutes that can be added to a moment.
pub const MAX_STEP_MINUTES: u64 = 153_722_867_280_912;

/// A calendar day, by its number.
#[derive(Clone, Copy, Debug, PartialEq, Eq, Hash, Structural)]
pub struct CivilDate {
    pub days_from_ce: i32,
}

/// A bucket of `bucket_minutes` minutes that starts at `hour:minute` of `date`.
#[derive(Clone, Copy, Debug, PartialEq, Eq, Hash, Structural)]
pub struct TimeBucket {
    pub date: CivilDate,
    pub hour: u32,
    pub minute: u32,
    pub bucket_minutes: u64,
}

/// A minute of the UTC calendar.
#[derive(Clone, Copy, Debug, PartialEq, Eq, Structural)]
pub struct UtcMinute {
    pub days_from_ce: i32,
    pub hour: u32,
    pub minute: u32,
}

/// The day number of the day in which millisecond `ts_ms` lies.
pub open spec fn day_of(ts_ms: int) -> int {
    ts_ms / 86_400_000 + EPOCH_DAY
}

/// The hour of the day in which millisecond `ts_ms` lies.
pub open spec fn hour_of(ts_ms: int) -> int {
    (ts_ms / 3_600_000) % 24
}

/// The minute of the hour in which millisecond `ts_ms` lies.
pub open spec fn minute_of(ts_ms: int) -> int {
    (ts_ms / 60_000) % 60
}

/// The width that a bucket of `bucket_minutes` has within an hour.
pub open spec fn width(bucket_minutes: u64) -> int {
    bucket_minutes as int % 0x1_0000_0000
}

/// The number of days of month `month` of year `year`.
pub open spec fn days_in_month(year: int, month: int) -> int {
    if month == 2 {
        if year % 4 == 0 && (year % 100 != 0 || year % 400 == 0) {
            29
        } else {
            28
        }
    } else if month == 4 || month == 6 || month == 9 || month == 11 {
        30
    } else {
        31
    }
}

/// Whether `year`-`month`-`day` is a day of the calendar.
pub open spec fn valid_ymd(year: int, month: int, day: int) -> bool {
    &&& -262_143 <= year <= 262_142
    &&& 1 <= month <= 12
    &&& 1 <= day <= days_in_month(year, month)
}

/// The days of the calendar before 1 January of `year`, counted from
/// 1 January of year 1: every year has 365 days, and one more where its
/// number is a multiple of 4 and not of 100, or a multiple of 400.
pub open spec fn days_before_year(year: int) -> int {
    365 * (year - 1) + (year - 1) / 4 - (year - 1) / 100 + (year - 1) / 400
}

/// The days of `year` before the first of `month`.
pub open spec fn days_before_month(year: int, month: int) -> int {
    (if month <= 1 {
        0int
    } else if month == 2 {
        31
    } else if month == 3 {
        59
    } else if month == 4 {
        90
    } else if month == 5 {
        120
    } else if month == 6 {
        151
    } else if month == 7 {
        181
    } else if month == 8 {
        212
    } else if month == 9 {
        243
    } else if month == 10 {
        273
    } else if month == 11 {
        304
    } else {
        334
    }) + if month > 2 && days_in_month(year, 2) == 29 {
        1int
    } else {
        0
    }
}

/// The number of the day `year`-`month`-`day`: 1 for 1 January of year 1.
pub open spec fn day_of_civil(year: int, month: int, day: int) -> int {
    days_before_year(year) + days_before_month(year, month) + day
}

/// The year, month and day of the day with number `days_from_ce`: the one
/// day of the calendar that has this number.
pub open spec fn civil_of_day(days_from_ce: int) -> (int, int, int) {
    choose|f: (int, int, int)| is_day(f, days_from_ce)
}

/// Whether `f` is the year, month and day of the day with number
/// `days_from_ce`.
pub open spec fn is_day(f: (int, int, int), days_from_ce: int) -> bool {
    valid_ymd(f.0, f.1, f.2) && day_of_civil(f.0, f.1, f.2) == days_from_ce
}

/// A later year begins after the earlier year has ended.
proof fn lemma_years_apart(early: int, late: int)
    requires
        early < late,
    ensures
        days_before_year(early) + 366 <= days_before_year(late) + if days_in_month(early, 2)
            == 29 {
            0int
        } else {
            1
        },
    decreases late - early,
{
    if early + 1 < late {
        lemma_years_apart(early, late - 1);
    }
}

/// No two days of the calendar have one number.
pub proof fn lemma_day_unique(a: (int, int, int), b: (int, int, int))
    requires
        valid_ymd(a.0, a.1, a.2),
        valid_ymd(b.0, b.1, b.2),
        day_of_civil(a.0, a.1, a.2) == day_of_civil(b.0, b.1, b.2),
    ensures
        a == b,
{
    if a.0 < b.0 {
        lemma_years_apart(a.0, b.0);
    } else if b.0 < a.0 {
        lemma_years_apart(b.0, a.0);
    }
}

/// The number of a day of the calendar leads back to its year, month and
/// day, and lies from `MIN_DAY` to `MAX_DAY`.
pub proof fn lemma_civil_of_day(year: int, month: int, day: int)
    requires
        valid_ymd(year, month, day),
    ensures
        civil_of_day(day_of_civil(year, month, day)) == (year, month, day),
        MIN_DAY <= day_of_civil(year, month, day) <= MAX_DAY,
{
    let n = day_of_civil(year, month, day);
    let f = civil_of_day(n);
    assert(is_day((year, month, day), n));
    assert(is_day(f, n));
    lemma_day_unique(f, (year, month, day));
    if -262_143 < year {
        lemma_years_apart(-262_143, year);
    }
    if year < 262_142 {
        lemma_years_apart(year, 262_142);
    }
}

/// The minutes from the start of day 0 to the start of `at`.
pub open spec fn minutes_of(at: UtcMinute) -> int {
    at.days_from_ce * 1440 + at.hour * 60 + at.minute
}

/// The minute that starts `minutes` minutes after the start of day 0.
pub open spec fn minute_at(minutes: int) -> UtcMinute {
    UtcMinute {
        days_from_ce: (minutes / 1440) as i32,
        hour: ((minutes / 60) % 24) as u32,
        minute: (minutes % 60) as u32,
    }
}

/// `chrono::DateTime::<Utc>::from_timestamp_millis`, read through
/// `num_days_from_ce`, `hour` and `minute`. A date exists for the
/// milliseconds from `MIN_UTC_MS` to `MAX_UTC_MS` and for no others; where it
/// exists, day, hour and minute are those of non-leap time counted from
/// 1970-01-01T00:00:00Z.
#[verifier::external_body]
fn utc_minute(ts_ms: i64) -> (out: Option<UtcMinute>)
    ensures
        out is Some <==> MIN_UTC_MS <= ts_ms <= MAX_UTC_MS,
        out matches Some(at) ==> {
            &&& at.days_from_ce == day_of(ts_ms as int)
            &&& at.hour == hour_of(ts_ms as int)
            &&& at.minute == minute_of(ts_ms as int)
        },
{
    let at = chrono::DateTime::<chrono::Utc>::from_timestamp_millis(ts_ms)?.naive_utc();
    Some(
        UtcMinute {
            days_from_ce: chrono::Datelike::num_days_from_ce(&at),
            hour: chrono::Timelike::hour(&at),
            minute: chrono::Timelike::minute(&at),
        },
    )
}

/// `chrono::Utc::now`, read through `timestamp_millis`: some millisecond
/// that has a calendar date. Nothing more is known of it: two readings may
/// differ. The system clock is taken to stand at or after 1970, which
/// chrono asks of it.
#[verifier::external_body]
fn now_millis() -> (out: i64)
    ensures
        MIN_UTC_MS <= out <= MAX_UTC_MS,
{
    chrono::Utc::now().timestamp_millis()
}

/// `chrono::NaiveDate::from_num_days_from_ce_opt`, read through `year`,
/// `month` and `day`. A date exists for the day numbers from `MIN_DAY` to
/// `MAX_DAY` and for no others; it is a day of the proleptic Gregorian
/// calendar, and the day whose number, counted from 1 January of year 1 as
/// day 1, is `days_from_ce`.
#[verifier::external_body]
fn civil_fields(days_from_ce: i32) -> (out: Option<(i32, u32, u32)>)
    ensures
        out is Some <==> MIN_DAY <= days_from_ce <= MAX_DAY,
        out matches Some(f) ==> {
            &&& valid_ymd(f.0 as int, f.1 as int, f.2 as int)
            &&& day_of_civil(f.0 as int, f.1 as int, f.2 as int) == days_from_ce
        },
{
    let date = chrono::NaiveDate::from_num_days_from_ce_opt(days_from_ce)?;
    Some(
        (
            chrono::Datelike::year(&date),
            chrono::Datelike::month(&date),
            chrono::Datelike::day(&date),
        ),
    )
}

/// `chrono::NaiveDate::from_ymd_opt`, read through `num_days_from_ce`. The
/// date exists exactly for a year in range, a month from 1 to 12 and a day
/// of that month; its number counts the days of the proleptic Gregorian
/// calendar, with 1 January of year 1 as day 1.
#[verifier::external_body]
fn day_number(year: i32, month: u32, day: u32) -> (out: Option<i32>)
    ensures
        out is Some <==> valid_ymd(year as int, month as int, day as int),
        out matches Some(n) ==> n == day_of_civil(year as int, month as int, day as int),
{
    let date = chrono::NaiveDate::from_ymd_opt(year, month, day)?;
    Some(chrono::Datelike::num_days_from_ce(&date))
}

/// `chrono::NaiveDateTime::checked_add_signed` with a `TimeDelta` of whole
/// minutes, on the minute `from`: the minute that many minutes later, unless
/// its day lies beyond `MAX_DAY`.
#[verifier::external_body]
fn plus_minutes(from: UtcMinute, minutes: i64) -> (out: Option<UtcMinute>)
    requires
        MIN_DAY <= from.days_from_ce <= MAX_DAY,
        from.hour < 24,
        from.minute < 60,
        0 <= minutes <= MAX_STEP_MINUTES,
    ensures
        out is Some <==> (minutes_of(from) + minutes) / 1440 <= MAX_DAY,
        out matches Some(at) ==> at == minute_at(minutes_of(from) + minutes),
{
    let start = chrono::NaiveDate::from_num_days_from_ce_opt(from.days_from_ce)?.and_hms_opt(
        from.hour,
        from.minute,
        0,
    )?;
    let end = start.checked_add_signed(chrono::TimeDelta::try_minutes(minutes)?)?;
    Some(
        UtcMinute {
            days_from_ce: chrono::Datelike::num_days_from_ce(&end),
            hour: chrono::Timelike::hour(&end),
            minute: chrono::Timelike::minute(&end),
        },
    )
}

impl CivilDate {
    /// Whether the day has a calendar date.
    pub open spec fn in_range(&self) -> bool {
        MIN_DAY <= self.days_from_ce <= MAX_DAY
    }

    /// The day `year`-`month`-`day`, if the calendar has it.
    pub fn from_ymd_opt(year: i32, month: u32, day: u32) -> (out: Option<CivilDate>)
        ensures
            out is Some <==> valid_ymd(year as int, month as int, day as int),
            out matches Some(date) ==> {
                &&& date.days_from_ce == day_of_civil(year as int, month as int, day as int)
                &&& date.in_range()
                &&& civil_of_day(date.days_from_ce as int) == (
                    year as int,
                    month as int,
                    day as int,
                )
            },
    {
        match day_number(year, month, day) {
            Some(n) => {
                proof {
                    lemma_civil_of_day(year as int, month as int, day as int);
                }
                Some(CivilDate { days_from_ce: n })
            },
            None => None,
        }
    }

    /// Year, month and day, if the day has a calendar date.
    pub fn ymd(&self) -> (out: Option<(i32, u32, u32)>)
        ensures
            out is Some <==> self.in_range(),
            out matches Some(f) ==> {
                &&& (f.0 as int, f.1 as int, f.2 as int) == civil_of_day(self.days_from_ce as int)
                &&& valid_ymd(f.0 as int, f.1 as int, f.2 as int)
                &&& day_of_civil(f.0 as int, f.1 as int, f.2 as int) == self.days_from_ce
            },
    {
        let out = civil_fields(self.days_from_ce);
        proof {
            if let Some(f) = out {
                lemma_civil_of_day(f.0 as int, f.1 as int, f.2 as int);
            }
        }
        out
    }
}

/// The numeral of a year: four digits from year 0 to year 9999, else a
/// sign and at least four digits.
pub open spec fn year_text(year: int) -> Seq<char> {
    if 0 <= year <= 9999 {
        padded(year as nat, 4)
    } else if year < 0 {
        seq!['-'] + padded((-year) as nat, 4)
    } else {
        seq!['+'] + padded(year as nat, 4)
    }
}

/// A date as `YYYY-MM-DD`.
pub open spec fn date_text(ymd: (int, int, int)) -> Seq<char> {
    year_text(ymd.0) + seq!['-'] + padded(ymd.1 as nat, 2) + seq!['-'] + padded(ymd.2 as nat, 2)
}

/// The bucket of width `bucket_minutes` in which millisecond `ts_ms` lies.
pub open spec fn bucket_at(ts_ms: int, bucket_minutes: u64) -> TimeBucket {
    TimeBucket {
        date: CivilDate { days_from_ce: day_of(ts_ms) as i32 },
        hour: hour_of(ts_ms) as u32,
        minute: (minute_of(ts_ms) / width(bucket_minutes) * width(bucket_minutes)) as u32,
        bucket_minutes,
    }
}

/// Appends `date` as `YYYY-MM-DD`.
fn push_date(text: &mut String, year: i32, month: u32, day: u32)
    ensures
        final(text)@ == old(text)@ + date_text((year as int, month as int, day as int)),
{
    proof {
        reveal_strlit("-");
        reveal_strlit("+");
    }
    let ghost start = text@;
    if year < 0 {
        text.append("-");
        push_padded(text, (-(year as i64)) as u64, 4);
        assert(text@ =~= start + year_text(year as int));
    } else if year > 9999 {
        text.append("+");
        push_padded(text, year as u64, 4);
        assert(text@ =~= start + year_text(year as int));
    } else {
        push_padded(text, year as u64, 4);
    }
    text.append("-");
    push_padded(text, month as u64, 2);
    text.append("-");
    push_padded(text, day as u64, 2);
    assert(text@ =~= start + date_text((year as int, month as int, day as int)));
}

impl TimeBucket {
    /// The bucket's fields are those of a minute of the calendar.
    pub open spec fn valid(&self) -> bool {
        &&& self.date.in_range()
        &&& self.hour < 24
        &&& self.minute < 60
    }

    /// The bucket that follows can be computed.
    pub open spec fn has_next(&self) -> bool {
        &&& self.valid()
        &&& width(self.bucket_minutes) != 0
        &&& self.bucket_minutes <= MAX_STEP_MINUTES
        &&& (self.date.days_from_ce * 1440 + self.hour * 60 + self.minute + self.bucket_minutes)
            / 1440 <= MAX_DAY
    }

    /// The bucket that starts `bucket_minutes` after this one starts.
    pub open spec fn spec_next(&self) -> TimeBucket {
        let at = minute_at(
            self.date.days_from_ce * 1440 + self.hour * 60 + self.minute + self.bucket_minutes,
        );
        TimeBucket {
            date: CivilDate { days_from_ce: at.days_from_ce },
            hour: at.hour,
            minute: (at.minute as int / width(self.bucket_minutes) * width(
                self.bucket_minutes,
            )) as u32,
            bucket_minutes: self.bucket_minutes,
        }
    }

    /// The text of the date segment of the bucket's path.
    pub open spec fn spec_date_text(&self) -> Seq<char> {
        date_text(civil_of_day(self.date.days_from_ce as int))
    }

    /// The text of the bucket's file prefix.
    pub open spec fn spec_file_prefix(&self) -> Seq<char> {
        "snapshots_"@ + self.spec_date_text() + seq!['T'] + padded(self.hour as nat, 2) + seq![
            '-',
        ] + padded(self.minute as nat, 2)
    }

    /// The bucket of a moment, from its calendar fields.
    fn from_minute(at: UtcMinute, bucket_minutes: u64) -> (out: TimeBucket)
        requires
            width(bucket_minutes) != 0,
            at.minute < 60,
        ensures
            out == (TimeBucket {
                date: CivilDate { days_from_ce: at.days_from_ce },
                hour: at.hour,
                minute: (at.minute as int / width(bucket_minutes) * width(bucket_minutes)) as u32,
                bucket_minutes,
            }),
            out.minute <= at.minute,
    {
        let w: u32 = (bucket_minutes % 0x1_0000_0000) as u32;
        let steps = at.minute / w;
        assert(steps * w <= at.minute) by (nonlinear_arith)
            requires
                steps == at.minute / w,
                w > 0,
        ;
        TimeBucket {
            date: CivilDate { days_from_ce: at.days_from_ce },
            hour: at.hour,
            minute: steps * w,
            bucket_minutes,
        }
    }

    /// The bucket in which millisecond `ts_ms` since 1970-01-01T00:00:00Z
    /// lies. A millisecond without a calendar date is replaced by the
    /// present moment.
    pub fn from_timestamp(ts_ms: i64, bucket_minutes: u64) -> (out: TimeBucket)
        requires
            width(bucket_minutes) != 0,
        ensures
            MIN_UTC_MS <= ts_ms <= MAX_UTC_MS ==> out == bucket_at(ts_ms as int, bucket_minutes),
            exists|at: int|
                {
                    &&& MIN_UTC_MS <= at <= MAX_UTC_MS
                    &&& MIN_UTC_MS <= ts_ms <= MAX_UTC_MS ==> at == ts_ms
                    &&& out == #[trigger] bucket_at(at, bucket_minutes)
                },
            out.valid(),
            out.bucket_minutes == bucket_minutes,
    {
        let at_ms = match utc_minute(ts_ms) {
            Some(_) => ts_ms,
            None => now_millis(),
        };
        let at = utc_minute(at_ms).unwrap();
        let out = Self::from_minute(at, bucket_minutes);
        assert(out == bucket_at(at_ms as int, bucket_minutes));
        out
    }

    /// The bucket in which the present moment lies.
    pub fn from_now(bucket_minutes: u64) -> (out: TimeBucket)
        requires
            width(bucket_minutes) != 0,
        ensures
            exists|at: int|
                MIN_UTC_MS <= at <= MAX_UTC_MS && out == #[trigger] bucket_at(at, bucket_minutes),
            out.valid(),
            out.bucket_minutes == bucket_minutes,
    {
        Self::from_timestamp(now_millis(), bucket_minutes)
    }

    /// The date as `YYYY-MM-DD` and the hour as two digits: the values of the
    /// `date=` and `hour=` segments of the bucket's path.
    pub fn path_segments(&self) -> (out: (String, String))
        requires
            self.date.in_range(),
        ensures
            out.0@ == self.spec_date_text(),
            out.1@ == padded(self.hour as nat, 2),
    {
        let (year, month, day) = self.date.ymd().unwrap();
        let mut date = String::new();
        push_date(&mut date, year, month, day);
        let mut hour = String::new();
        push_padded(&mut hour, self.hour as u64, 2);
        assert(date@ =~= self.spec_date_text());
        assert(hour@ =~= padded(self.hour as nat, 2));
        (date, hour)
    }

    /// The name of the bucket's file, without extension:
    /// `snapshots_YYYY-MM-DDTHH-MM`.
    pub fn file_prefix(&self) -> (out: String)
        requires
            self.date.in_range(),
        ensures
            out@ == self.spec_file_prefix(),
    {
        proof {
            reveal_strlit("T");
            reveal_strlit("-");
        }
        let (date, hour) = self.path_segments();
        let mut out = String::from_str("snapshots_");
        out.append(date.as_str());
        out.append("T");
        out.append(hour.as_str());
        out.append("-");
        push_padded(&mut out, self.minute as u64, 2);
        assert(out@ =~= self.spec_file_prefix());
        out
    }

    /// The bucket as a path: `date=YYYY-MM-DD/hour=HH/` and the file prefix.
    pub fn display(&self) -> (out: String)
        requires
            self.date.in_range(),
        ensures
            out@ == "date="@ + self.spec_date_text() + "/hour="@ + padded(self.hour as nat, 2)
                + seq!['/'] + self.spec_file_prefix(),
    {
        proof {
            reveal_strlit("/");
        }
        let (date, hour) = self.path_segments();
        let prefix = self.file_prefix();
        let mut out = String::from_str("date=");
        out.append(date.as_str());
        out.append("/hour=");
        out.append(hour.as_str());
        out.append("/");
        out.append(prefix.as_str());
        assert(out@ =~= "date="@ + self.spec_date_text() + "/hour="@ + padded(self.hour as nat, 2)
            + seq!['/'] + self.spec_file_prefix());
        out
    }

    /// The bucket that starts `bucket_minutes` after this one starts.
    pub fn next_bucket(&self) -> (out: TimeBucket)
        requires
            self.has_next(),
        ensures
            out == self.spec_next(),
            out.valid(),
    {
        let from = UtcMinute {
            days_from_ce: self.date.days_from_ce,
            hour: self.hour,
            minute: self.minute,
        };
        let at = plus_minutes(from, self.bucket_minutes as i64).unwrap();
        Self::from_minute(at, self.bucket_minutes)
    }
}

/// The first millisecond of the bucket of width `bucket_minutes` in which
/// millisecond `ts_ms` lies, for a width that divides the hour.
pub open spec fn bucket_start(ts_ms: int, bucket_minutes: u64) -> int {
    ts_ms / (width(bucket_minutes) * 60_000) * (width(bucket_minutes) * 60_000)
}

/// Splits a number by a divisor.
proof fn lemma_split(x: int, d: int) -> (qr: (int, int))
    requires
        d > 0,
    ensures
        qr.0 == x / d,
        qr.1 == x % d,
        x == qr.0 * d + qr.1,
        0 <= qr.1 < d,
{
    lemma_fundamental_div_mod(x, d);
    assert(d * (x / d) == (x / d) * d) by (nonlinear_arith);
    (x / d, x % d)
}

/// For a width `w` that divides the hour: the start of the slot of `w`
/// minutes in which `ts` lies has the day and the hour of `ts`, and as its
/// minute the minute of `ts` rounded down to a multiple of `w`.
proof fn lemma_slot(ts: int, w: int)
    requires
        w > 0,
        60int % w == 0,
    ensures
        ({
            let start = ts / (w * 60_000) * (w * 60_000);
            &&& start <= ts < start + w * 60_000
            &&& start / 3_600_000 == ts / 3_600_000
            &&& start / 86_400_000 == ts / 86_400_000
            &&& minute_of(start) == minute_of(ts) / w * w
            &&& minute_of(start) / w * w == minute_of(start)
            &&& start / 60_000 == ts / (w * 60_000) * w
        }),
{
    let s = w * 60_000;
    let (q, e) = lemma_split(ts, s);
    let start = q * s;
    let (c, z) = lemma_split(60, w);
    assert(z == 0);
    assert(c > 0) by (nonlinear_arith)
        requires
            60 == c * w,
            w > 0,
    ;
    let (hq, rq) = lemma_split(q, c);
    let (em, er) = lemma_split(e, 60_000);
    assert(0 <= em < w) by (nonlinear_arith)
        requires
            e == em * 60_000 + er,
            0 <= er < 60_000,
            0 <= e < w * 60_000,
    ;
    // The minute of the start within its hour, and the minutes of `ts` beyond it.
    let low = rq * w;
    assert(0 <= low && low + w <= 60) by (nonlinear_arith)
        requires
            low == rq * w,
            0 <= rq < c,
            60 == c * w,
            w > 0,
    ;
    assert(q * w == hq * 60 + low) by (nonlinear_arith)
        requires
            q == hq * c + rq,
            60 == c * w,
            low == rq * w,
    ;
    assert(start == (q * w) * 60_000) by (nonlinear_arith)
        requires
            start == q * s,
            s == w * 60_000,
    ;
    // Minutes.
    lemma_fundamental_div_mod_converse(start, 60_000, q * w, 0);
    lemma_fundamental_div_mod_converse(ts, 60_000, q * w + em, er);
    lemma_fundamental_div_mod_converse(q * w, 60, hq, low);
    lemma_fundamental_div_mod_converse(q * w + em, 60, hq, low + em);
    lemma_fundamental_div_mod_converse(low + em, w, rq, em);
    lemma_fundamental_div_mod_converse(low, w, rq, 0);
    // Hours.
    lemma_fundamental_div_mod_converse(start, 3_600_000, hq, low * 60_000);
    lemma_fundamental_div_mod_converse(ts, 3_600_000, hq, low * 60_000 + e);
    // Days.
    let (dq, dr) = lemma_split(hq, 24);
    lemma_fundamental_div_mod_converse(start, 86_400_000, dq, dr * 3_600_000 + low * 60_000);
    lemma_fundamental_div_mod_converse(ts, 86_400_000, dq, dr * 3_600_000 + low * 60_000 + e);
}

/// A bucket whose width divides the hour holds the calendar fields of its
/// first millisecond.
pub proof fn lemma_bucket_of_start(ts_ms: int, bucket_minutes: u64)
    requires
        width(bucket_minutes) > 0,
        60int % width(bucket_minutes) == 0,
    ensures
        bucket_start(ts_ms, bucket_minutes) <= ts_ms < bucket_start(ts_ms, bucket_minutes) + width(
            bucket_minutes,
        ) * 60_000,
        bucket_at(ts_ms, bucket_minutes) == bucket_at(
            bucket_start(ts_ms, bucket_minutes),
            bucket_minutes,
        ),
        bucket_at(ts_ms, bucket_minutes).minute == minute_of(bucket_start(ts_ms, bucket_minutes)),
{
    let w = width(bucket_minutes);
    lemma_slot(ts_ms, w);
    lemma_slot(bucket_start(ts_ms, bucket_minutes), w);
    let start = bucket_start(ts_ms, bucket_minutes);
    assert(0 <= minute_of(start) < 60);
}

/// Two milliseconds of one bucket give the same bucket: every millisecond
/// from a bucket's first up to the first of the next lies in that bucket,
/// for a width that divides the hour.
pub proof fn lemma_same_bucket(ts_ms: int, other_ms: int, bucket_minutes: u64)
    requires
        width(bucket_minutes) > 0,
        60int % width(bucket_minutes) == 0,
        bucket_start(ts_ms, bucket_minutes) <= other_ms < bucket_start(ts_ms, bucket_minutes)
            + width(bucket_minutes) * 60_000,
    ensures
        bucket_at(other_ms, bucket_minutes) == bucket_at(ts_ms, bucket_minutes),
{
    let w = width(bucket_minutes);
    let s = w * 60_000;
    let start = bucket_start(ts_ms, bucket_minutes);
    lemma_fundamental_div_mod_converse(other_ms, s, ts_ms / s, other_ms - start);
    lemma_bucket_of_start(ts_ms, bucket_minutes);
    lemma_bucket_of_start(other_ms, bucket_minutes);
}

/// Moving a millisecond by `k` bucket widths moves its bucket by as much and
/// leaves the width alone, for a width that divides the hour.
pub proof fn lemma_bucket_shift(ts_ms: int, k: int, bucket_minutes: u64)
    requires
        width(bucket_minutes) > 0,
        60int % width(bucket_minutes) == 0,
    ensures
        bucket_start(ts_ms + k * (width(bucket_minutes) * 60_000), bucket_minutes) == bucket_start(
            ts_ms,
            bucket_minutes,
        ) + k * (width(bucket_minutes) * 60_000),
        bucket_at(ts_ms + k * (width(bucket_minutes) * 60_000), bucket_minutes) == bucket_at(
            bucket_start(ts_ms, bucket_minutes) + k * (width(bucket_minutes) * 60_000),
            bucket_minutes,
        ),
        bucket_at(ts_ms + k * (width(bucket_minutes) * 60_000), bucket_minutes).bucket_minutes
            == bucket_minutes,
{
    let w = width(bucket_minutes);
    let s = w * 60_000;
    let (q, e) = lemma_split(ts_ms, s);
    assert(ts_ms + k * s == (q + k) * s + e) by (nonlinear_arith)
        requires
            ts_ms == q * s + e,
    ;
    lemma_fundamental_div_mod_converse(ts_ms + k * s, s, q + k, e);
    assert((q + k) * s == q * s + k * s) by (nonlinear_arith);
    lemma_bucket_of_start(ts_ms + k * s, bucket_minutes);
}

/// The calendar fields of the millisecond at which minute `m` since
/// 1970-01-01T00:00Z starts, over the minutes counted from day 0.
proof fn lemma_minute_fields(m: int)
    ensures
        day_of(m * 60_000) == (m + EPOCH_DAY * 1440) / 1440,
        hour_of(m * 60_000) == ((m + EPOCH_DAY * 1440) / 60) % 24,
        minute_of(m * 60_000) == (m + EPOCH_DAY * 1440) % 60,
        m + EPOCH_DAY * 1440 == day_of(m * 60_000) * 1440 + hour_of(m * 60_000) * 60 + minute_of(
            m * 60_000,
        ),
{
    let (h, r) = lemma_split(m, 60);
    let (d, g) = lemma_split(h, 24);
    lemma_fundamental_div_mod_converse(m * 60_000, 60_000, m, 0);
    lemma_fundamental_div_mod_converse(m * 60_000, 3_600_000, h, r * 60_000);
    lemma_fundamental_div_mod_converse(m * 60_000, 86_400_000, d, g * 3_600_000 + r * 60_000);
    let total = m + EPOCH_DAY * 1440;
    lemma_fundamental_div_mod_converse(total, 1440, d + EPOCH_DAY, g * 60 + r);
    lemma_fundamental_div_mod_converse(total, 60, h + EPOCH_DAY * 24, r);
    lemma_fundamental_div_mod_converse(h + EPOCH_DAY * 24, 24, d + EPOCH_DAY, g);
}

/// The minute since 1970-01-01T00:00Z at which the bucket of `ts_ms`
/// starts, with the bucket's fields.
proof fn lemma_bucket_minute(ts_ms: int, bucket_minutes: u64) -> (m: int)
    requires
        width(bucket_minutes) > 0,
        60int % width(bucket_minutes) == 0,
        MIN_UTC_MS <= ts_ms <= MAX_UTC_MS,
    ensures
        m * 60_000 <= ts_ms < (m + width(bucket_minutes)) * 60_000,
        m == ts_ms / (width(bucket_minutes) * 60_000) * width(bucket_minutes),
        MIN_UTC_MS <= m * 60_000,
        bucket_at(ts_ms, bucket_minutes).date.days_from_ce == day_of(m * 60_000),
        bucket_at(ts_ms, bucket_minutes).hour == hour_of(m * 60_000),
        bucket_at(ts_ms, bucket_minutes).minute == minute_of(m * 60_000),
        minute_of(m * 60_000) / width(bucket_minutes) * width(bucket_minutes) == minute_of(
            m * 60_000,
        ),
{
    let w = width(bucket_minutes);
    let s = w * 60_000;
    let m = ts_ms / s * w;
    let start = ts_ms / s * s;
    assert(start == m * 60_000 && (m + w) * 60_000 == start + s) by (nonlinear_arith)
        requires
            start == ts_ms / s * s,
            s == w * 60_000,
            m == ts_ms / s * w,
    ;
    lemma_slot(ts_ms, w);
    assert(MIN_UTC_MS <= start) by {
        assert(start / 86_400_000 == ts_ms / 86_400_000);
    }
    m
}

/// One slot later, the slot's number is one more.
proof fn lemma_next_slot(ts: int, w: int)
    requires
        w > 0,
    ensures
        (ts + w * 60_000) / (w * 60_000) * w == ts / (w * 60_000) * w + w,
{
    let s = w * 60_000;
    let (q, e) = lemma_split(ts, s);
    assert(ts + s == (q + 1) * s + e) by (nonlinear_arith)
        requires
            ts == q * s + e,
    ;
    lemma_fundamental_div_mod_converse(ts + s, s, q + 1, e);
    assert((q + 1) * w == q * w + w) by (nonlinear_arith);
}

/// The bucket after the bucket of a millisecond is the bucket of the
/// millisecond one width later, for a width that divides the hour.
pub proof fn lemma_next_bucket(ts_ms: int, bucket_minutes: u64)
    requires
        0 < bucket_minutes < 0x1_0000_0000,
        60int % (bucket_minutes as int) == 0,
        MIN_UTC_MS <= ts_ms,
        ts_ms + bucket_minutes * 60_000 <= MAX_UTC_MS,
    ensures
        bucket_at(ts_ms, bucket_minutes).has_next(),
        bucket_at(ts_ms, bucket_minutes).spec_next() == bucket_at(
            ts_ms + bucket_minutes * 60_000,
            bucket_minutes,
        ),
{
    let w = width(bucket_minutes);
    assert(w == bucket_minutes);
    let m = lemma_bucket_minute(ts_ms, bucket_minutes);
    let n = lemma_bucket_minute(ts_ms + bucket_minutes * 60_000, bucket_minutes);
    lemma_next_slot(ts_ms, w);
    lemma_minute_fields(m);
    lemma_minute_fields(n);
    let here = bucket_at(ts_ms, bucket_minutes);
    let there = bucket_at(ts_ms + bucket_minutes * 60_000, bucket_minutes);
    lemma_next_fields(here, there, m * 60_000, n * 60_000, m, w);
}

/// The last step of `lemma_next_bucket`, on the fields alone.
proof fn lemma_next_fields(here: TimeBucket, there: TimeBucket, start: int, later: int, m: int, w: int)
    requires
        w > 0,
        w == width(here.bucket_minutes),
        here.bucket_minutes == w,
        here.bucket_minutes <= MAX_STEP_MINUTES,
        there.bucket_minutes == here.bucket_minutes,
        MIN_UTC_MS <= start,
        start <= later <= MAX_UTC_MS,
        start == m * 60_000,
        later == (m + w) * 60_000,
        here.date.days_from_ce == day_of(start),
        here.hour == hour_of(start),
        here.minute == minute_of(start),
        there.date.days_from_ce == day_of(later),
        there.hour == hour_of(later),
        there.minute == minute_of(later),
        minute_of(later) / w * w == minute_of(later),
        m + EPOCH_DAY * 1440 == day_of(start) * 1440 + hour_of(start) * 60 + minute_of(start),
        day_of(later) == (m + w + EPOCH_DAY * 1440) / 1440,
        hour_of(later) == ((m + w + EPOCH_DAY * 1440) / 60) % 24,
        minute_of(later) == (m + w + EPOCH_DAY * 1440) % 60,
    ensures
        here.has_next(),
        here.spec_next() == there,
{
    let total = here.date.days_from_ce * 1440 + here.hour * 60 + here.minute + here.bucket_minutes;
    assert(total == m + w + EPOCH_DAY * 1440);
    let at = minute_at(total);
    assert(at.days_from_ce == there.date.days_from_ce);
    assert(at.hour == there.hour);
    assert(at.minute == there.minute);
}

} // verus!
