//! Where the files of a venue and a day lie under the data directory.

use vstd::prelude::*;
use vstd::string::{StrSliceExecFns, StringExecFns};
use crate::rules::extract::{digit_of, scan};
use crate::text::{padded, push_padded, str_eq};

verus! {

/// The directory of the files of one kind for `venue` on the day `date`:
/// `{data_dir}/{kind}/venue={venue}/date={date}`.
pub open spec fn dated_dir_text(
    data_dir: Seq<char>,
    kind: Seq<char>,
    venue: Seq<char>,
    date: Seq<char>,
) -> Seq<char> {
    data_dir + seq!['/'] + kind + "/venue="@ + venue + "/date="@ + date
}

/// The directory of the files of one kind for `venue` on the day `date`.
pub fn dated_dir(data_dir: &str, kind: &str, venue: &str, date: &str) -> (out: String)
    ensures
        out@ == dated_dir_text(data_dir@, kind@, venue@, date@),
{
    proof {
        reveal_strlit("/");
    }
    let mut out = data_dir.to_owned();
    out.append("/");
    out.append(kind);
    out.append("/venue=");
    out.append(venue);
    out.append("/date=");
    out.append(date);
    assert(out@ =~= dated_dir_text(data_dir@, kind@, venue@, date@));
    out
}

/// A file in a directory.
fn file_in(dir: String, name: &str) -> (out: String)
    ensures
        out@ == dir@ + seq!['/'] + name@,
{
    proof {
        reveal_strlit("/");
    }
    let mut out = dir;
    out.append("/");
    out.append(name);
    assert(out@ =~= dir@ + seq!['/'] + name@);
    out
}

/// The universe file of `venue` on the day `date`:
/// `{data_dir}/metadata/venue={venue}/date={date}/universe.jsonl`.
pub fn universe_file(data_dir: &str, venue: &str, date: &str) -> (out: String)
    ensures
        out@ == dated_dir_text(data_dir@, "metadata"@, venue@, date@) + seq!['/']
            + "universe.jsonl"@,
{
    file_in(dated_dir(data_dir, "metadata", venue, date), "universe.jsonl")
}

/// The stats cache of `venue` on the day `date`:
/// `{data_dir}/stats/venue={venue}/date={date}/stats.parquet`.
pub fn stats_file(data_dir: &str, venue: &str, date: &str) -> (out: String)
    ensures
        out@ == dated_dir_text(data_dir@, "stats"@, venue@, date@) + seq!['/'] + "stats.parquet"@,
{
    file_in(dated_dir(data_dir, "stats", venue, date), "stats.parquet")
}

/// The review queue of `venue` on the day `date`:
/// `{data_dir}/review_queue/venue={venue}/date={date}/queue.jsonl`.
pub fn review_queue_file(data_dir: &str, venue: &str, date: &str) -> (out: String)
    ensures
        out@ == dated_dir_text(data_dir@, "review_queue"@, venue@, date@) + seq!['/']
            + "queue.jsonl"@,
{
    file_in(dated_dir(data_dir, "review_queue", venue, date), "queue.jsonl")
}

/// The rules file of `venue` on the day `date`:
/// `{data_dir}/rules/venue={venue}/date={date}/rules.jsonl`.
pub fn rules_file(data_dir: &str, venue: &str, date: &str) -> (out: String)
    ensures
        out@ == dated_dir_text(data_dir@, "rules"@, venue@, date@) + seq!['/'] + "rules.jsonl"@,
{
    file_in(dated_dir(data_dir, "rules", venue, date), "rules.jsonl")
}

/// The directory of one hour under the directory of a day:
/// `{day_dir}/hour={HH}`.
pub open spec fn hour_dir_text(day_dir: Seq<char>, hour: u32) -> Seq<char> {
    day_dir + "/hour="@ + padded(hour as nat, 2)
}

/// The directory of one hour under the directory of a day.
pub fn hour_dir(day_dir: &str, hour: u32) -> (out: String)
    ensures
        out@ == hour_dir_text(day_dir@, hour),
{
    let mut out = day_dir.to_owned();
    out.append("/hour=");
    push_padded(&mut out, hour as u64, 2);
    assert(out@ =~= hour_dir_text(day_dir@, hour));
    out
}

/// Why a choice of hours cannot be read.
#[derive(Clone, Copy, Debug, PartialEq, Eq, Structural)]
pub enum HoursError {
    /// What stands before the dash is no number.
    InvalidStart,
    /// What stands behind the dash is no number.
    InvalidEnd,
    /// The text is no number.
    InvalidValue,
}

/// The number that a text writes: digits, with or without a plus sign in
/// front, up to the greatest 32-bit number. None for any other text.
pub open spec fn number_of(text: Seq<char>) -> Option<u32> {
    let digits = if text.len() > 0 && text[0] == '+' {
        text.skip(1)
    } else {
        text
    };
    let st = scan(digits);
    if st.ok && !st.point && st.whole_digits > 0 && st.whole <= u32::MAX {
        Some(st.whole as u32)
    } else {
        None
    }
}

/// Reads a number.
pub fn parse_number(text: &str) -> (out: Option<u32>)
    ensures
        out == number_of(text@),
{
    let n = text.unicode_len();
    let from: usize = if n > 0 && text.get_char(0) == '+' {
        1
    } else {
        0
    };
    let ghost digits = text@.skip(from as int);
    assert(text@.skip(0) =~= text@);
    let mut value: u64 = 0;
    let mut i: usize = from;
    assert(digits.take(0) =~= Seq::<char>::empty());
    while i < n
        invariant
            from <= i <= n,
            n == text@.len(),
            digits == text@.skip(from as int),
            digits == if text@.len() > 0 && text@[0] == '+' {
                text@.skip(1)
            } else {
                text@
            },
            scan(digits.take(i - from)).ok,
            !scan(digits.take(i - from)).point,
            scan(digits.take(i - from)).whole_digits == i - from,
            scan(digits.take(i - from)).whole == value,
            value <= u32::MAX,
        decreases n - i,
    {
        let c = text.get_char(i);
        proof {
            assert(digits.take(i - from + 1).drop_last() =~= digits.take(i - from));
            assert(digits.take(i - from + 1).last() == c);
        }
        let ghost read = scan(digits.take(i - from + 1));
        if '0' <= c && c <= '9' {
            let d: u64 = (c as u32 - '0' as u32) as u64;
            assert(read.whole == value * 10 + d && read.ok && !read.point);
            if value * 10 + d > u32::MAX as u64 {
                proof {
                    lemma_number_grows(digits, i - from + 1);
                }
                return None;
            }
            value = value * 10 + d;
        } else {
            proof {
                assert(!read.ok || read.point);
                lemma_scan_refused(digits, i - from + 1);
            }
            return None;
        }
        i += 1;
    }
    assert(digits.take(n - from) =~= digits);
    if n == from {
        None
    } else {
        Some(value as u32)
    }
}

/// Once a character other than a digit was read, the text is no number.
proof fn lemma_scan_refused(text: Seq<char>, n: int)
    requires
        0 <= n <= text.len(),
        !scan(text.take(n)).ok || scan(text.take(n)).point,
    ensures
        !scan(text).ok || scan(text).point,
    decreases text.len() - n,
{
    if n < text.len() {
        assert(text.take(n + 1).drop_last() =~= text.take(n));
        lemma_scan_refused(text, n + 1);
    } else {
        assert(text.take(n) =~= text);
    }
}

/// The number that digits write does not shrink as more is read.
proof fn lemma_number_grows(text: Seq<char>, n: int)
    requires
        0 <= n <= text.len(),
        scan(text.take(n)).whole >= 0,
    ensures
        scan(text).whole >= scan(text.take(n)).whole,
    decreases text.len() - n,
{
    if n < text.len() {
        assert(text.take(n + 1).drop_last() =~= text.take(n));
        let c = text.take(n + 1).last();
        assert(digit_of(c) >= -1);
        lemma_number_grows(text, n + 1);
    } else {
        assert(text.take(n) =~= text);
    }
}

/// The numbers from `start` to `end`, both of them with it.
pub open spec fn span(start: u32, end: u32) -> Seq<u32> {
    if end < start {
        Seq::empty()
    } else {
        Seq::new((end - start + 1) as nat, |i: int| (start + i) as u32)
    }
}

/// Where the first dash of `text` stands.
pub open spec fn first_dash(text: Seq<char>) -> Option<int> {
    if text.contains('-') {
        Some(text.index_of_first('-')->0)
    } else {
        None
    }
}

/// The hours that a choice names: all 24 for `all`; for `a-b` those from
/// `a` to `b`; for a number that hour.
pub open spec fn hours_of(text: Seq<char>) -> Result<Seq<u32>, HoursError> {
    if text == "all"@ {
        Ok(span(0, 23))
    } else {
        match first_dash(text) {
            Some(at) => match number_of(text.take(at)) {
                None => Err(HoursError::InvalidStart),
                Some(start) => match number_of(text.skip(at + 1)) {
                    None => Err(HoursError::InvalidEnd),
                    Some(end) => Ok(span(start, end)),
                },
            },
            None => match number_of(text) {
                Some(hour) => Ok(span(hour, hour)),
                None => Err(HoursError::InvalidValue),
            },
        }
    }
}

/// The numbers from `start` to `end`.
fn list_span(start: u32, end: u32) -> (out: Vec<u32>)
    ensures
        out@ == span(start, end),
{
    let mut out: Vec<u32> = Vec::new();
    if end < start {
        return out;
    }
    let mut next = start;
    while next < end
        invariant
            start <= next <= end,
            out@ =~= Seq::new((next - start) as nat, |i: int| (start + i) as u32),
        decreases end - next,
    {
        out.push(next);
        next += 1;
    }
    out.push(end);
    assert(out@ =~= span(start, end));
    out
}

/// Reads a choice of hours.
pub fn parse_hours(hours: &str) -> (out: Result<Vec<u32>, HoursError>)
    ensures
        match out {
            Ok(list) => hours_of(hours@) == Ok::<Seq<u32>, HoursError>(list@),
            Err(e) => hours_of(hours@) == Err::<Seq<u32>, HoursError>(e),
        },
{
    if str_eq(hours, "all") {
        return Ok(list_span(0, 23));
    }
    let n = hours.unicode_len();
    let mut at: usize = 0;
    while at < n && hours.get_char(at) != '-'
        invariant
            at <= n,
            n == hours@.len(),
            forall|j: int| 0 <= j < at ==> hours@[j] != '-',
        decreases n - at,
    {
        at += 1;
    }
    if at < n {
        proof {
            assert(hours@.contains('-'));
            hours@.index_of_first_ensures('-');
            let first = hours@.index_of_first('-')->0;
            assert(first == at);
        }
        let start = match parse_number(hours.substring_char(0, at)) {
            Some(v) => v,
            None => {
                assert(hours@.subrange(0, at as int) =~= hours@.take(at as int));
                return Err(HoursError::InvalidStart);
            },
        };
        let end = match parse_number(hours.substring_char(at + 1, n)) {
            Some(v) => v,
            None => {
                assert(hours@.subrange(0, at as int) =~= hours@.take(at as int));
                assert(hours@.subrange(at + 1, n as int) =~= hours@.skip(at + 1));
                return Err(HoursError::InvalidEnd);
            },
        };
        assert(hours@.subrange(0, at as int) =~= hours@.take(at as int));
        assert(hours@.subrange(at + 1, n as int) =~= hours@.skip(at + 1));
        Ok(list_span(start, end))
    } else {
        assert(!hours@.contains('-'));
        match parse_number(hours) {
            Some(hour) => Ok(list_span(hour, hour)),
            None => Err(HoursError::InvalidValue),
        }
    }
}

} // verus!
