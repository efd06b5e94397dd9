//! The buffering side of the columnar writer.
//!
//! Rows are gathered in a buffer that belongs to one time bucket. A row of
//! another bucket is taken only once the buffer has been written out. A
//! flush writes one file per venue in the buffer. The writer here decides
//! what is written where; the files themselves are written by whoever runs
//! it, who reports a flush that went well with `flush_done`. Until then the
//! buffer keeps every row.

use vstd::prelude::*;
use vstd::string::StringExecFns;
use crate::config::Config;
use crate::paths::{dated_dir, dated_dir_text};
use crate::schema::{RowView, SnapshotRow};
use crate::text::{padded, str_eq};
use crate::timebucket::{bucket_at, width, TimeBucket, MAX_UTC_MS, MIN_UTC_MS};

verus! {

/// One file to write: the rows of one venue in one bucket.
pub struct FlushJob {
    pub venue: String,
    /// The directory of the file.
    pub dir: String,
    /// Where the file is written first.
    pub temp_file: String,
    /// Where the finished file is moved to, in place of any file there.
    pub final_file: String,
    pub rows: Vec<SnapshotRow>,
}

/// What became of a row handed to `write`.
pub enum WriteStep {
    /// The row belongs to another bucket than the rows in the buffer: the
    /// buffer must be flushed before the row can be taken. Nothing changed.
    FlushFirst(SnapshotRow),
    /// The row is in the buffer. `flush_due` says whether the buffer has
    /// reached `flush_rows`.
    Buffered { flush_due: bool },
}

/// The views of a list of rows.
pub open spec fn row_views(rows: Seq<SnapshotRow>) -> Seq<RowView> {
    rows.map_values(|r: SnapshotRow| r@)
}

/// The venues of `rows`, each once, in the order in which they first occur.
pub open spec fn venues_of(rows: Seq<RowView>) -> Seq<Seq<char>>
    decreases rows.len(),
{
    if rows.len() == 0 {
        Seq::empty()
    } else if venues_of(rows.drop_last()).contains(rows.last().venue) {
        venues_of(rows.drop_last())
    } else {
        venues_of(rows.drop_last()).push(rows.last().venue)
    }
}

/// The rows of `rows` that belong to `venue`, in order.
pub open spec fn rows_of_venue(rows: Seq<RowView>, venue: Seq<char>) -> Seq<RowView>
    decreases rows.len(),
{
    if rows.len() == 0 {
        Seq::empty()
    } else if rows.last().venue == venue {
        rows_of_venue(rows.drop_last(), venue).push(rows.last())
    } else {
        rows_of_venue(rows.drop_last(), venue)
    }
}

/// The directory of the files of `venue` in `bucket`:
/// `{data_dir}/orderbook_snapshots/venue={venue}/date={date}/hour={hour}`.
pub open spec fn dir_text(data_dir: Seq<char>, venue: Seq<char>, bucket: TimeBucket) -> Seq<char> {
    dated_dir_text(data_dir, "orderbook_snapshots"@, venue, bucket.spec_date_text()) + "/hour="@
        + padded(bucket.hour as nat, 2)
}

/// The path of the finished file: the directory, `/`, the bucket's file
/// prefix, `.parquet`.
pub open spec fn final_text(data_dir: Seq<char>, venue: Seq<char>, bucket: TimeBucket) -> Seq<char> {
    dir_text(data_dir, venue, bucket) + seq!['/'] + bucket.spec_file_prefix() + ".parquet"@
}

/// The path of the file while it is written: that of the finished file
/// with `.tmp` behind it.
pub open spec fn temp_text(data_dir: Seq<char>, venue: Seq<char>, bucket: TimeBucket) -> Seq<char> {
    final_text(data_dir, venue, bucket) + ".tmp"@
}

/// The texts of a list of strings.
pub open spec fn texts_of(list: Seq<String>) -> Seq<Seq<char>> {
    list.map_values(|t: String| t@)
}

/// Whether `list` holds the text `text`.
fn has_text(list: &Vec<String>, text: &str) -> (found: bool)
    ensures
        found == texts_of(list@).contains(text@),
{
    let mut i: usize = 0;
    while i < list.len()
        invariant
            i <= list.len(),
            forall|j: int| 0 <= j < i ==> texts_of(list@)[j] != text@,
        decreases list.len() - i,
    {
        if str_eq(list[i].as_str(), text) {
            assert(texts_of(list@)[i as int] == text@);
            return true;
        }
        i += 1;
    }
    false
}

/// The venues of `rows`, each once, in the order in which they first occur.
fn collect_venues(rows: &Vec<SnapshotRow>) -> (out: Vec<String>)
    ensures
        texts_of(out@) == venues_of(row_views(rows@)),
{
    let mut out: Vec<String> = Vec::new();
    let ghost all = row_views(rows@);
    assert(texts_of(out@) =~= Seq::<Seq<char>>::empty());
    assert(all.take(0) =~= Seq::<RowView>::empty());
    let mut i: usize = 0;
    while i < rows.len()
        invariant
            i <= rows.len(),
            all == row_views(rows@),
            texts_of(out@) == venues_of(all.take(i as int)),
        decreases rows.len() - i,
    {
        proof {
            assert(all.take(i + 1).drop_last() =~= all.take(i as int));
            assert(all.take(i + 1).last() == all[i as int]);
        }
        if !has_text(&out, rows[i].venue.as_str()) {
            let venue = rows[i].venue.clone();
            assert(texts_of(out@.push(venue)) =~= texts_of(out@).push(venue@));
            out.push(venue);
        }
        i += 1;
    }
    assert(all.take(rows.len() as int) =~= all);
    out
}

/// Copies of the rows of `rows` that belong to `venue`, in order.
fn collect_rows(rows: &Vec<SnapshotRow>, venue: &str) -> (out: Vec<SnapshotRow>)
    ensures
        row_views(out@) == rows_of_venue(row_views(rows@), venue@),
{
    let mut out: Vec<SnapshotRow> = Vec::new();
    let ghost all = row_views(rows@);
    assert(row_views(out@) =~= Seq::<RowView>::empty());
    assert(all.take(0) =~= Seq::<RowView>::empty());
    let mut i: usize = 0;
    while i < rows.len()
        invariant
            i <= rows.len(),
            all == row_views(rows@),
            row_views(out@) == rows_of_venue(all.take(i as int), venue@),
        decreases rows.len() - i,
    {
        proof {
            assert(all.take(i + 1).drop_last() =~= all.take(i as int));
            assert(all.take(i + 1).last() == all[i as int]);
        }
        if str_eq(rows[i].venue.as_str(), venue) {
            let row = clone_row(&rows[i]);
            assert(row_views(out@.push(row)) =~= row_views(out@).push(row@));
            out.push(row);
        }
        i += 1;
    }
    assert(all.take(rows.len() as int) =~= all);
    out
}

/// A copy of a list of numbers.
fn copy_numbers(list: &Vec<i64>) -> (out: Vec<i64>)
    ensures
        out@ == list@,
{
    let mut out: Vec<i64> = Vec::new();
    let mut i: usize = 0;
    while i < list.len()
        invariant
            i <= list.len(),
            out@ =~= list@.take(i as int),
        decreases list.len() - i,
    {
        out.push(list[i]);
        i += 1;
    }
    assert(list@.take(list.len() as int) =~= list@);
    out
}

/// A copy of a row.
pub fn clone_row(row: &SnapshotRow) -> (out: SnapshotRow)
    ensures
        out@ == row@,
{
    SnapshotRow {
        ts_recv: row.ts_recv,
        venue: row.venue.clone(),
        market_id: row.market_id.clone(),
        outcome_id: row.outcome_id.clone(),
        seq: row.seq,
        best_bid_px: row.best_bid_px,
        best_bid_sz: row.best_bid_sz,
        best_ask_px: row.best_ask_px,
        best_ask_sz: row.best_ask_sz,
        mid: row.mid,
        spread: row.spread,
        bid_px: copy_numbers(&row.bid_px),
        bid_sz: copy_numbers(&row.bid_sz),
        ask_px: copy_numbers(&row.ask_px),
        ask_sz: copy_numbers(&row.ask_sz),
        status: row.status.clone(),
        err: row.err.clone(),
        source_ts: row.source_ts,
    }
}

/// The writer's state as a mathematical value.
pub struct WriterView {
    pub data_dir: Seq<char>,
    pub flush_rows: nat,
    pub bucket_minutes: u64,
    pub buffer: Seq<RowView>,
    pub current_bucket: Option<TimeBucket>,
}

/// The buffer of one writer, with the bucket that its rows belong to.
pub struct ParquetWriter {
    data_dir: String,
    flush_rows: usize,
    flush_seconds: u64,
    bucket_minutes: u64,
    buffer: Vec<SnapshotRow>,
    current_bucket: Option<TimeBucket>,
}

impl View for ParquetWriter {
    type V = WriterView;

    closed spec fn view(&self) -> WriterView {
        WriterView {
            data_dir: self.data_dir@,
            flush_rows: self.flush_rows as nat,
            bucket_minutes: self.bucket_minutes,
            buffer: row_views(self.buffer@),
            current_bucket: self.current_bucket,
        }
    }
}

/// The state after `row`, whose bucket is `bucket`, was handed to `write`:
/// unchanged where the buffer holds rows of another bucket; else the row
/// is the last of the buffer and `bucket` the buffer's bucket.
pub open spec fn written(w: WriterView, row: RowView, bucket: TimeBucket) -> WriterView {
    if w.buffer.len() > 0 && w.current_bucket != Some(bucket) {
        w
    } else {
        WriterView { buffer: w.buffer.push(row), current_bucket: Some(bucket), ..w }
    }
}

/// The state after a flush that wrote every file: the buffer is empty, and
/// the bucket stays.
pub open spec fn flushed(w: WriterView) -> WriterView {
    WriterView { buffer: Seq::empty(), ..w }
}

/// The state after the rows of `rows`, all of bucket `bucket`, were handed
/// to `write` one after the other, with no flush between them.
pub open spec fn written_all(w: WriterView, rows: Seq<RowView>, bucket: TimeBucket) -> WriterView
    decreases rows.len(),
{
    if rows.len() == 0 {
        w
    } else {
        written(written_all(w, rows.drop_last(), bucket), rows.last(), bucket)
    }
}

/// A row of another bucket than the buffer's is not taken before the
/// buffer is flushed: it leaves the state as it is. After the flush the
/// row is the only one of the buffer, and its bucket the writer's.
pub proof fn lemma_rollover(w: WriterView, row: RowView, bucket: TimeBucket)
    requires
        w.buffer.len() > 0,
        w.current_bucket != Some(bucket),
    ensures
        written(w, row, bucket) == w,
        written(flushed(w), row, bucket) == (WriterView {
            buffer: seq![row],
            current_bucket: Some(bucket),
            ..w
        }),
{
    assert(Seq::<RowView>::empty().push(row) =~= seq![row]);
}

/// Rows of one bucket that are handed to a writer with an empty buffer are
/// all taken, in their order: after `k` of them the buffer holds `k` rows,
/// so that it reaches `flush_rows` with the row of that number and with
/// none before it.
pub proof fn lemma_rows_taken(w: WriterView, rows: Seq<RowView>, bucket: TimeBucket)
    requires
        w.buffer.len() == 0,
        rows.len() > 0,
    ensures
        written_all(w, rows, bucket) == (WriterView {
            buffer: rows,
            current_bucket: Some(bucket),
            ..w
        }),
        forall|k: int|
            0 <= k <= rows.len() ==> (#[trigger] written_all(w, rows.take(k), bucket)).buffer.len()
                == k,
    decreases rows.len(),
{
    let fewer = rows.drop_last();
    if fewer.len() > 0 {
        lemma_rows_taken(w, fewer, bucket);
    } else {
        assert(written_all(w, fewer, bucket) == w);
    }
    assert(fewer.push(rows.last()) =~= rows);
    assert(written_all(w, rows, bucket).buffer =~= rows);
    assert forall|k: int| 0 <= k <= rows.len() implies (#[trigger] written_all(
        w,
        rows.take(k),
        bucket,
    )).buffer.len() == k by {
        if k == rows.len() {
            assert(rows.take(k) =~= rows);
        } else if k > 0 {
            assert(rows.take(k) =~= fewer.take(k));
        }
    }
}

impl ParquetWriter {
    /// Buckets have a width, a buffer with rows has a bucket, and the
    /// bucket is one of the calendar.
    pub closed spec fn wf(&self) -> bool {
        &&& width(self.bucket_minutes) != 0
        &&& self.buffer.len() > 0 ==> self.current_bucket is Some
        &&& self.current_bucket matches Some(b) ==> b.valid() && b.bucket_minutes
            == self.bucket_minutes
    }

    /// What `wf` says, over the view.
    pub proof fn lemma_wf(&self)
        requires
            self.wf(),
        ensures
            width(self@.bucket_minutes) != 0,
            self@.buffer.len() > 0 ==> self@.current_bucket is Some,
            self@.current_bucket matches Some(b) ==> b.valid() && b.bucket_minutes
                == self@.bucket_minutes,
    {
    }

    /// The seconds between two flushes by the timer.
    pub closed spec fn flush_seconds(&self) -> u64 {
        self.flush_seconds
    }

    /// A writer with an empty buffer and no bucket yet. The storage
    /// configuration must give buckets a width.
    pub fn new(config: &Config) -> (out: ParquetWriter)
        requires
            width(config.storage.bucket_minutes) != 0,
        ensures
            out.wf(),
            out.flush_seconds() == config.storage.flush_seconds,
            out@ == (WriterView {
                data_dir: config.data_dir@,
                flush_rows: config.storage.flush_rows as nat,
                bucket_minutes: config.storage.bucket_minutes,
                buffer: Seq::empty(),
                current_bucket: None,
            }),
    {
        let out = ParquetWriter {
            data_dir: config.data_dir.clone(),
            flush_rows: config.storage.flush_rows,
            flush_seconds: config.storage.flush_seconds,
            bucket_minutes: config.storage.bucket_minutes,
            buffer: Vec::new(),
            current_bucket: None,
        };
        assert(row_views(out.buffer@) =~= Seq::<RowView>::empty());
        out
    }

    /// The milliseconds between two flushes by the timer.
    pub fn flush_interval_ms(&self) -> (out: u64)
        ensures
            out == if self.flush_seconds() * 1000 > u64::MAX {
                u64::MAX
            } else {
                (self.flush_seconds() * 1000) as u64
            },
    {
        if self.flush_seconds > u64::MAX / 1000 {
            u64::MAX
        } else {
            self.flush_seconds * 1000
        }
    }

    /// The bucket of the rows in the buffer, or of the last rows that were.
    pub fn current_bucket(&self) -> (out: Option<TimeBucket>)
        ensures
            out == self@.current_bucket,
    {
        self.current_bucket
    }

    /// The number of rows in the buffer.
    pub fn buffered(&self) -> (out: usize)
        ensures
            out == self@.buffer.len(),
    {
        self.buffer.len()
    }

    /// Takes `row` into the buffer, unless the buffer holds rows of another
    /// bucket: then the row is handed back, and the buffer must be flushed
    /// first. The bucket of a row is that of its `ts_recv`; a `ts_recv`
    /// without a calendar date counts as the present moment.
    pub fn write(&mut self, row: SnapshotRow) -> (out: WriteStep)
        requires
            old(self).wf(),
        ensures
            final(self).wf(),
            final(self).flush_seconds() == old(self).flush_seconds(),
            exists|at: int|
                {
                    &&& MIN_UTC_MS <= at <= MAX_UTC_MS
                    &&& MIN_UTC_MS <= row.ts_recv <= MAX_UTC_MS ==> at == row.ts_recv
                    &&& final(self)@ == written(
                        old(self)@,
                        row@,
                        #[trigger] bucket_at(at, old(self)@.bucket_minutes),
                    )
                },
            match out {
                WriteStep::FlushFirst(back) => {
                    &&& back@ == row@
                    &&& final(self)@ == old(self)@
                    &&& old(self)@.buffer.len() > 0
                },
                WriteStep::Buffered { flush_due } => {
                    &&& final(self)@.buffer == old(self)@.buffer.push(row@)
                    &&& flush_due == (final(self)@.buffer.len() >= final(self)@.flush_rows)
                },
            },
    {
        let bucket = TimeBucket::from_timestamp(row.ts_recv, self.bucket_minutes);
        let ghost at = choose|at: int|
            {
                &&& MIN_UTC_MS <= at <= MAX_UTC_MS
                &&& MIN_UTC_MS <= row.ts_recv <= MAX_UTC_MS ==> at == row.ts_recv
                &&& bucket == #[trigger] bucket_at(at, self.bucket_minutes)
            };
        let same = match self.current_bucket {
            Some(current) => current == bucket,
            None => false,
        };
        if !same && self.buffer.len() > 0 {
            assert(self@ == written(old(self)@, row@, bucket_at(at, old(self)@.bucket_minutes)));
            return WriteStep::FlushFirst(row);
        }
        self.current_bucket = Some(bucket);
        let ghost before = self.buffer@;
        self.buffer.push(row);
        assert(row_views(self.buffer@) =~= row_views(before).push(row@));
        assert(self@ == written(old(self)@, row@, bucket_at(at, old(self)@.bucket_minutes)));
        WriteStep::Buffered { flush_due: self.buffer.len() >= self.flush_rows }
    }

    /// Empties the buffer, after its rows were written out.
    pub fn flush_done(&mut self)
        requires
            old(self).wf(),
        ensures
            final(self).wf(),
            final(self).flush_seconds() == old(self).flush_seconds(),
            final(self)@ == flushed(old(self)@),
    {
        self.buffer.clear();
        assert(row_views(self.buffer@) =~= Seq::<RowView>::empty());
    }

    /// Takes note of how a flush went. Where every file of `flush_jobs` was
    /// written (`written`), the buffer is emptied; where one failed, the
    /// buffer stays as it is, bucket and all, so that the next flush takes the
    /// same rows again. Says whether the buffer was emptied.
    pub fn after_flush(&mut self, written: bool) -> (emptied: bool)
        requires
            old(self).wf(),
        ensures
            final(self).wf(),
            final(self).flush_seconds() == old(self).flush_seconds(),
            emptied == written,
            final(self)@ == if written {
                flushed(old(self)@)
            } else {
                old(self)@
            },
    {
        if written {
            self.flush_done();
        }
        written
    }

    /// The job that writes the rows of `venue` in the buffer to the file of
    /// `bucket`.
    fn job_for(&self, venue: &String, bucket: &TimeBucket) -> (job: FlushJob)
        requires
            bucket.date.in_range(),
        ensures
            job.venue@ == venue@,
            row_views(job.rows@) == rows_of_venue(self@.buffer, venue@),
            job.dir@ == dir_text(self@.data_dir, venue@, *bucket),
            job.final_file@ == final_text(self@.data_dir, venue@, *bucket),
            job.temp_file@ == temp_text(self@.data_dir, venue@, *bucket),
    {
        proof {
            reveal_strlit("/");
        }
        let (date, hour) = bucket.path_segments();
        let prefix = bucket.file_prefix();
        let mut dir = dated_dir(
            self.data_dir.as_str(),
            "orderbook_snapshots",
            venue.as_str(),
            date.as_str(),
        );
        dir.append("/hour=");
        dir.append(hour.as_str());
        assert(dir@ =~= dir_text(self@.data_dir, venue@, *bucket));
        let mut final_file = dir.clone();
        final_file.append("/");
        final_file.append(prefix.as_str());
        final_file.append(".parquet");
        assert(final_file@ =~= final_text(self@.data_dir, venue@, *bucket));
        let mut temp_file = final_file.clone();
        temp_file.append(".tmp");
        FlushJob {
            venue: venue.clone(),
            dir,
            temp_file,
            final_file,
            rows: collect_rows(&self.buffer, venue.as_str()),
        }
    }

    /// The files that a flush of the buffer writes: one per venue in the
    /// buffer, in the order in which the venues first occur, each with the
    /// rows of its venue in the order of the buffer. The file of a venue in
    /// a bucket has one path; a later flush of the same bucket replaces it.
    /// The buffer is left as it is.
    pub fn flush_jobs(&self) -> (jobs: Vec<FlushJob>)
        requires
            self.wf(),
        ensures
            jobs.len() == venues_of(self@.buffer).len(),
            forall|i: int|
                0 <= i < jobs.len() ==> {
                    let venue = venues_of(self@.buffer)[i];
                    let bucket = self@.current_bucket->0;
                    &&& (#[trigger] jobs[i]).venue@ == venue
                    &&& row_views(jobs[i].rows@) == rows_of_venue(self@.buffer, venue)
                    &&& jobs[i].dir@ == dir_text(self@.data_dir, venue, bucket)
                    &&& jobs[i].final_file@ == final_text(self@.data_dir, venue, bucket)
                    &&& jobs[i].temp_file@ == temp_text(self@.data_dir, venue, bucket)
                },
    {
        let mut jobs: Vec<FlushJob> = Vec::new();
        let bucket = match self.current_bucket {
            Some(b) => b,
            None => {
                assert(row_views(self.buffer@) =~= Seq::<RowView>::empty());
                return jobs;
            },
        };
        let venues = collect_venues(&self.buffer);
        let mut i: usize = 0;
        while i < venues.len()
            invariant
                i <= venues.len(),
                self.wf(),
                self.current_bucket == Some(bucket),
                texts_of(venues@) == venues_of(self@.buffer),
                jobs.len() == i,
                forall|j: int|
                    0 <= j < i ==> {
                        let venue = venues_of(self@.buffer)[j];
                        &&& (#[trigger] jobs[j]).venue@ == venue
                        &&& row_views(jobs[j].rows@) == rows_of_venue(self@.buffer, venue)
                        &&& jobs[j].dir@ == dir_text(self@.data_dir, venue, bucket)
                        &&& jobs[j].final_file@ == final_text(self@.data_dir, venue, bucket)
                        &&& jobs[j].temp_file@ == temp_text(self@.data_dir, venue, bucket)
                    },
            decreases venues.len() - i,
        {
            assert(texts_of(venues@)[i as int] == venues@[i as int]@);
            let job = self.job_for(&venues[i], &bucket);
            jobs.push(job);
            i += 1;
        }
        assert(texts_of(venues@).len() == venues.len());
        jobs
    }
}

/// Every row of a buffer is written by the job of its venue, and a job
/// holds rows of its venue only.
pub proof fn lemma_rows_of_venue(rows: Seq<RowView>, venue: Seq<char>)
    ensures
        forall|i: int|
            0 <= i < rows.len() && (#[trigger] rows[i]).venue == venue ==> rows_of_venue(
                rows,
                venue,
            ).contains(rows[i]),
        forall|r: RowView| #[trigger]
            rows_of_venue(rows, venue).contains(r) ==> r.venue == venue && rows.contains(r),
        forall|i: int| 0 <= i < rows.len() ==> venues_of(rows).contains((#[trigger] rows[i]).venue),
        venues_of(rows).no_duplicates(),
    decreases rows.len(),
{
    if rows.len() > 0 {
        let rest = rows.drop_last();
        let last = rows.last();
        lemma_rows_of_venue(rest, venue);
        let picked = rows_of_venue(rest, venue);
        let out = rows_of_venue(rows, venue);
        assert forall|i: int| 0 <= i < rows.len() && (#[trigger] rows[i]).venue
            == venue implies out.contains(rows[i]) by {
            if i < rest.len() {
                assert(rest[i] == rows[i]);
                let j = choose|j: int| 0 <= j < picked.len() && picked[j] == rest[i];
                assert(out[j] == rows[i]);
            } else {
                assert(out[picked.len() as int] == last);
            }
        }
        assert forall|r: RowView| #[trigger] out.contains(r) implies r.venue == venue
            && rows.contains(r) by {
            let j = choose|j: int| 0 <= j < out.len() && out[j] == r;
            if j < picked.len() {
                assert(picked[j] == r);
                assert(picked.contains(r));
                let k = choose|k: int| 0 <= k < rest.len() && rest[k] == r;
                assert(rows[k] == r);
            } else {
                assert(rows[rows.len() - 1] == r);
            }
        }
        let seen = venues_of(rest);
        let all = venues_of(rows);
        assert forall|i: int| 0 <= i < rows.len() implies all.contains((#[trigger] rows[i]).venue) by {
            if i < rest.len() {
                assert(rest[i] == rows[i]);
                let j = choose|j: int| 0 <= j < seen.len() && seen[j] == rest[i].venue;
                assert(all[j] == rows[i].venue);
            } else if seen.contains(last.venue) {
            } else {
                assert(all[seen.len() as int] == last.venue);
            }
        }
    }
}

} // verus!
