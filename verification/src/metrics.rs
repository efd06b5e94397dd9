//! Feed metrics: counters, rates, and the per-book sequence tracker.
//!
//! Gap detection only observes: nothing is recovered. Times are readings
//! of one monotonic clock, in milliseconds.

use vstd::prelude::*;
use crate::keys::{lemma_views_push, views, KeyView};
use crate::text::str_eq;

verus! {

/// What a sequence tracker has seen, as unbounded numbers.
pub struct SeqState {
    pub last: int,
    pub gaps: int,
    pub out_of_order: int,
}

/// The state before any sequence number came.
pub open spec fn seq_start() -> SeqState {
    SeqState { last: 0, gaps: 0, out_of_order: 0 }
}

/// The state after sequence number `s` came: one more than the last is
/// normal; beyond that, the numbers skipped are a gap; at or below the
/// last, the number is out of order and the last stays.
pub open spec fn seq_step(state: SeqState, s: int) -> SeqState {
    if s <= state.last {
        SeqState { last: state.last, gaps: state.gaps, out_of_order: state.out_of_order + 1 }
    } else {
        SeqState {
            last: s,
            gaps: state.gaps + (s - state.last - 1),
            out_of_order: state.out_of_order,
        }
    }
}

/// The state after the sequence numbers of `stream` came one by one.
pub open spec fn seq_replay(stream: Seq<int>) -> SeqState
    decreases stream.len(),
{
    if stream.len() == 0 {
        seq_start()
    } else {
        seq_step(seq_replay(stream.drop_last()), stream.last())
    }
}

/// The greatest number of `stream`, and at least 0.
pub open spec fn running_max(stream: Seq<int>) -> int
    decreases stream.len(),
{
    if stream.len() == 0 {
        0
    } else if stream.last() > running_max(stream.drop_last()) {
        stream.last()
    } else {
        running_max(stream.drop_last())
    }
}

/// The numbers skipped between `prev` and `s`.
pub open spec fn skipped(prev: int, s: int) -> int {
    if s - prev - 1 > 0 {
        s - prev - 1
    } else {
        0
    }
}

/// The sum over `stream` of the numbers skipped between each item and the
/// one before it; before the first stands 0.
pub open spec fn gap_sum(stream: Seq<int>) -> int
    decreases stream.len(),
{
    if stream.len() == 0 {
        0
    } else {
        gap_sum(stream.drop_last()) + skipped(
            if stream.len() == 1 {
                0
            } else {
                stream[stream.len() - 2]
            },
            stream.last(),
        )
    }
}

/// The sum over `stream` of the numbers skipped between each item and the
/// greatest before it.
pub open spec fn gap_sum_over_max(stream: Seq<int>) -> int
    decreases stream.len(),
{
    if stream.len() == 0 {
        0
    } else {
        gap_sum_over_max(stream.drop_last()) + skipped(
            running_max(stream.drop_last()),
            stream.last(),
        )
    }
}

/// No item of `stream` is negative or below the one before it.
pub open spec fn ascending(stream: Seq<int>) -> bool {
    &&& forall|i: int| 0 <= i < stream.len() ==> stream[i] >= 0
    &&& forall|i: int, j: int| 0 <= i <= j < stream.len() ==> stream[i] <= stream[j]
}

/// For every stream the tracker's last number is the greatest seen, and
/// the gaps it reports are the numbers skipped between each item and the
/// greatest before it.
pub proof fn lemma_replay(stream: Seq<int>)
    ensures
        seq_replay(stream).last == running_max(stream),
        seq_replay(stream).gaps == gap_sum_over_max(stream),
        seq_replay(stream).gaps >= 0,
        0 <= seq_replay(stream).out_of_order <= stream.len(),
    decreases stream.len(),
{
    if stream.len() > 0 {
        lemma_replay(stream.drop_last());
    }
}

/// In a stream that never steps back, the greatest item is the last.
proof fn lemma_ascending_max(stream: Seq<int>)
    requires
        ascending(stream),
    ensures
        running_max(stream) == if stream.len() == 0 {
            0
        } else {
            stream.last()
        },
    decreases stream.len(),
{
    if stream.len() > 0 {
        let rest = stream.drop_last();
        assert(ascending(rest)) by {
            assert forall|i: int, j: int| 0 <= i <= j < rest.len() implies rest[i] <= rest[j] by {
                assert(rest[i] == stream[i] && rest[j] == stream[j]);
            }
            assert forall|i: int| 0 <= i < rest.len() implies rest[i] >= 0 by {
                assert(rest[i] == stream[i]);
            }
        }
        lemma_ascending_max(rest);
        if rest.len() > 0 {
            assert(rest.last() == stream[stream.len() - 2]);
        }
    }
}

/// For a stream that never steps back, the gaps reported are the sum of
/// `max(0, s[i] - s[i-1] - 1)`, and nothing is out of order but a repeated
/// number.
pub proof fn lemma_gaps_reported(stream: Seq<int>)
    requires
        ascending(stream),
    ensures
        seq_replay(stream).gaps == gap_sum(stream),
    decreases stream.len(),
{
    lemma_replay(stream);
    if stream.len() > 0 {
        let rest = stream.drop_last();
        assert(ascending(rest)) by {
            assert forall|i: int, j: int| 0 <= i <= j < rest.len() implies rest[i] <= rest[j] by {
                assert(rest[i] == stream[i] && rest[j] == stream[j]);
            }
            assert forall|i: int| 0 <= i < rest.len() implies rest[i] >= 0 by {
                assert(rest[i] == stream[i]);
            }
        }
        lemma_gaps_reported(rest);
        lemma_replay(rest);
        lemma_ascending_max(rest);
        if rest.len() > 0 {
            assert(rest.last() == stream[stream.len() - 2]);
        }
    }
}

/// `n`, held down to what a `u64` can count.
pub open spec fn capped(n: int) -> u64 {
    if n >= u64::MAX {
        u64::MAX
    } else {
        n as u64
    }
}

/// Adds to a counter that stops at its greatest value.
fn add_capped(count: u64, more: u64) -> (out: u64)
    ensures
        out == capped(count + more),
        forall|n: int| n >= 0 && count == #[trigger] capped(n) ==> out == capped(n + more),
{
    if more > u64::MAX - count {
        u64::MAX
    } else {
        count + more
    }
}

/// Follows the sequence numbers of one book.
pub struct SequenceTracker {
    last_sequence: i64,
    gaps_detected: u64,
    out_of_order: u64,
}

impl SequenceTracker {
    #[verifier::type_invariant]
    spec fn inv(&self) -> bool {
        self.last_sequence >= 0
    }

    /// The greatest sequence number seen, 0 before the first.
    pub closed spec fn last_sequence(&self) -> i64 {
        self.last_sequence
    }

    /// The sequence numbers that were skipped, counted up to `u64::MAX`.
    pub closed spec fn gaps_detected(&self) -> u64 {
        self.gaps_detected
    }

    /// The sequence numbers that came at or below one seen before, counted
    /// up to `u64::MAX`.
    pub closed spec fn out_of_order(&self) -> u64 {
        self.out_of_order
    }

    /// The tracker holds `state`, its counters held down to `u64`.
    pub open spec fn holds(&self, state: SeqState) -> bool {
        &&& self.last_sequence() == state.last
        &&& state.gaps >= 0
        &&& state.out_of_order >= 0
        &&& self.gaps_detected() == capped(state.gaps)
        &&& self.out_of_order() == capped(state.out_of_order)
    }

    /// A tracker that has seen nothing.
    pub fn new() -> (out: SequenceTracker)
        ensures
            out.holds(seq_start()),
            out.last_sequence() == 0,
            out.gaps_detected() == 0,
            out.out_of_order() == 0,
    {
        SequenceTracker { last_sequence: 0, gaps_detected: 0, out_of_order: 0 }
    }

    /// The greatest sequence number seen.
    pub fn last(&self) -> (out: i64)
        ensures
            out == self.last_sequence(),
            out >= 0,
    {
        proof {
            use_type_invariant(self);
        }
        self.last_sequence
    }

    /// The count of skipped sequence numbers.
    pub fn gaps(&self) -> (out: u64)
        ensures
            out == self.gaps_detected(),
    {
        self.gaps_detected
    }

    /// The count of sequence numbers that came out of order.
    pub fn late(&self) -> (out: u64)
        ensures
            out == self.out_of_order(),
    {
        self.out_of_order
    }

    /// Takes the next sequence number. Returns whether it left a gap, and
    /// the size of the gap (0 without one).
    pub fn check_sequence(&mut self, new_sequence: i64) -> (out: (bool, i64))
        ensures
            forall|state: SeqState|
                old(self).holds(state) ==> final(self).holds(
                    #[trigger] seq_step(state, new_sequence as int),
                ),
            final(self).last_sequence() == if new_sequence > old(self).last_sequence() {
                new_sequence
            } else {
                old(self).last_sequence()
            },
            final(self).gaps_detected() == capped(
                old(self).gaps_detected() + skipped(
                    old(self).last_sequence() as int,
                    new_sequence as int,
                ),
            ),
            final(self).out_of_order() == if new_sequence <= old(self).last_sequence() {
                capped(old(self).out_of_order() + 1)
            } else {
                old(self).out_of_order()
            },
            old(self).gaps_detected() + skipped(
                old(self).last_sequence() as int,
                new_sequence as int,
            ) <= u64::MAX ==> final(self).gaps_detected() == old(self).gaps_detected() + skipped(
                old(self).last_sequence() as int,
                new_sequence as int,
            ),
            out.0 == (new_sequence > old(self).last_sequence() + 1),
            out.1 == skipped(old(self).last_sequence() as int, new_sequence as int),
    {
        proof {
            use_type_invariant(&*self);
        }
        if new_sequence <= self.last_sequence {
            self.out_of_order = add_capped(self.out_of_order, 1);
            (false, 0)
        } else {
            let gap: i64 = new_sequence - self.last_sequence - 1;
            self.gaps_detected = add_capped(self.gaps_detected, gap as u64);
            self.last_sequence = new_sequence;
            (gap > 0, gap)
        }
    }
}

/// A rate: `count` events in `per_ms` milliseconds.
#[derive(Clone, Copy, Debug, PartialEq, Eq, Structural)]
pub struct Rate {
    pub count: u64,
    pub per_ms: u64,
}

/// Counts events within a window of a second.
pub struct RateTracker {
    count: u64,
    window_start: u64,
}

/// The milliseconds from `start` to `now_ms`, none where the clock has not
/// moved on.
pub open spec fn elapsed_ms(start: u64, now_ms: u64) -> u64 {
    if now_ms >= start {
        (now_ms - start) as u64
    } else {
        0
    }
}

/// The rate that a window with `count` events, opened at `start`, shows
/// at `now_ms`: over the time passed, and over a tenth of a second at least.
pub open spec fn window_rate(count: u64, start: u64, now_ms: u64) -> Rate {
    Rate {
        count,
        per_ms: if elapsed_ms(start, now_ms) >= 100 {
            elapsed_ms(start, now_ms)
        } else {
            100
        },
    }
}

impl RateTracker {
    /// The events counted in the open window, up to `u64::MAX`.
    pub closed spec fn count(&self) -> u64 {
        self.count
    }

    /// When the open window began.
    pub closed spec fn window_start(&self) -> u64 {
        self.window_start
    }

    /// A tracker whose window opens at `now_ms`.
    pub fn new(now_ms: u64) -> (out: RateTracker)
        ensures
            out.count() == 0,
            out.window_start() == now_ms,
    {
        RateTracker { count: 0, window_start: now_ms }
    }

    /// Counts one event.
    pub fn increment(&mut self)
        ensures
            final(self).count() == capped(old(self).count() + 1),
            final(self).window_start() == old(self).window_start(),
    {
        self.count = add_capped(self.count, 1);
    }

    /// The rate of the open window at `now_ms`. After a full second the
    /// window is closed and a new one opens at `now_ms`; before that the
    /// rate is taken over the time passed, and over a tenth of a second at
    /// least.
    pub fn get_rate(&mut self, now_ms: u64) -> (out: Rate)
        ensures
            out == window_rate(old(self).count(), old(self).window_start(), now_ms),
            out.per_ms >= 100,
            final(self).count() == if elapsed_ms(old(self).window_start(), now_ms) >= 1000 {
                0
            } else {
                old(self).count()
            },
            final(self).window_start() == if elapsed_ms(old(self).window_start(), now_ms) >= 1000 {
                now_ms
            } else {
                old(self).window_start()
            },
    {
        let elapsed = if now_ms >= self.window_start {
            now_ms - self.window_start
        } else {
            0
        };
        let count = self.count;
        if elapsed >= 1000 {
            self.count = 0;
            self.window_start = now_ms;
            Rate { count, per_ms: elapsed }
        } else if elapsed >= 100 {
            Rate { count, per_ms: elapsed }
        } else {
            Rate { count, per_ms: 100 }
        }
    }
}

/// The metrics at one moment.
#[derive(Clone, Copy, Debug, PartialEq, Eq, Structural)]
pub struct MetricsSnapshot {
    pub total_messages: u64,
    pub total_updates: u64,
    pub total_errors: u64,
    pub message_rate: Rate,
    pub update_rate: Rate,
    pub queue_depth: u64,
    pub sequence_gaps: u64,
    pub out_of_order: u64,
    pub markets_with_issues: u64,
}

/// A gap in the sequence numbers of one book.
#[derive(Clone, Copy, Debug, PartialEq, Eq, Structural)]
pub struct GapNotice {
    /// The sequence number that was due.
    pub expected: i64,
    /// The sequence number that came.
    pub got: i64,
    /// How many numbers were skipped.
    pub gap: i64,
    /// The skipped numbers of this book so far.
    pub total_gaps: u64,
}

/// What a tracker holds: its last number and its two counts. A book that
/// was never seen stands as a tracker that has seen nothing.
pub open spec fn counts_of(tracker: Option<SequenceTracker>) -> (i64, u64, u64) {
    match tracker {
        Some(t) => (t.last_sequence(), t.gaps_detected(), t.out_of_order()),
        None => (0i64, 0u64, 0u64),
    }
}

/// What a tracker that held `before` holds after the number `sequence`.
pub open spec fn counts_after(before: (i64, u64, u64), sequence: i64) -> (i64, u64, u64) {
    (
        if sequence > before.0 {
            sequence
        } else {
            before.0
        },
        capped(before.1 + skipped(before.0 as int, sequence as int)),
        if sequence <= before.0 {
            capped(before.2 + 1)
        } else {
            before.2
        },
    )
}

/// The notice that the number `sequence` gives at a tracker that held
/// `before`: one where numbers were skipped, else none.
pub open spec fn notice_of(before: (i64, u64, u64), sequence: i64) -> Option<GapNotice> {
    if sequence > before.0 + 1 {
        Some(
            GapNotice {
                expected: (before.0 + 1) as i64,
                got: sequence,
                gap: skipped(before.0 as int, sequence as int) as i64,
                total_gaps: counts_after(before, sequence).1,
            },
        )
    } else {
        None
    }
}

/// One more, round to 0 after the greatest value.
pub open spec fn wrapped_inc(n: u64) -> u64 {
    if n == u64::MAX {
        0
    } else {
        (n + 1) as u64
    }
}

/// One less, round to the greatest value before 0.
pub open spec fn wrapped_dec(n: u64) -> u64 {
    if n == 0 {
        u64::MAX
    } else {
        (n - 1) as u64
    }
}

fn inc(n: u64) -> (out: u64)
    ensures
        out == wrapped_inc(n),
{
    if n == u64::MAX {
        0
    } else {
        n + 1
    }
}

fn dec(n: u64) -> (out: u64)
    ensures
        out == wrapped_dec(n),
{
    if n == 0 {
        u64::MAX
    } else {
        n - 1
    }
}

/// The sum of the skipped numbers of `trackers`, up to `u64::MAX`.
pub open spec fn total_gaps(trackers: Seq<SequenceTracker>) -> u64
    decreases trackers.len(),
{
    if trackers.len() == 0 {
        0
    } else {
        capped(total_gaps(trackers.drop_last()) + trackers.last().gaps_detected())
    }
}

/// The sum of the out-of-order counts of `trackers`, up to `u64::MAX`.
pub open spec fn total_late(trackers: Seq<SequenceTracker>) -> u64
    decreases trackers.len(),
{
    if trackers.len() == 0 {
        0
    } else {
        capped(total_late(trackers.drop_last()) + trackers.last().out_of_order())
    }
}

/// How many of `trackers` have seen a gap or a number out of order.
pub open spec fn with_issues(trackers: Seq<SequenceTracker>) -> nat
    decreases trackers.len(),
{
    if trackers.len() == 0 {
        0
    } else {
        with_issues(trackers.drop_last()) + if trackers.last().gaps_detected() > 0
            || trackers.last().out_of_order() > 0 {
            1nat
        } else {
            0nat
        }
    }
}

/// The metrics of one venue's feed.
pub struct WebSocketMetrics {
    total_messages_received: u64,
    total_updates_processed: u64,
    total_errors: u64,
    messages_per_second: RateTracker,
    updates_per_second: RateTracker,
    keys: Vec<(String, String)>,
    trackers: Vec<SequenceTracker>,
    queue_depth: u64,
    last_report: u64,
    report_interval_ms: u64,
}

impl WebSocketMetrics {
    /// Each book that was seen has one tracker.
    pub closed spec fn wf(&self) -> bool {
        &&& self.keys.len() == self.trackers.len()
        &&& views(self.keys@).no_duplicates()
    }

    pub closed spec fn total_messages(&self) -> u64 {
        self.total_messages_received
    }

    pub closed spec fn total_updates(&self) -> u64 {
        self.total_updates_processed
    }

    pub closed spec fn total_errors(&self) -> u64 {
        self.total_errors
    }

    pub closed spec fn queue_depth(&self) -> u64 {
        self.queue_depth
    }

    /// The books that were seen, in the order of their first update.
    pub closed spec fn tracked_keys(&self) -> Seq<KeyView> {
        views(self.keys@)
    }

    /// The trackers, each at the position of its book in `tracked_keys`.
    pub closed spec fn trackers(&self) -> Seq<SequenceTracker> {
        self.trackers@
    }

    /// When the last report was made.
    pub closed spec fn last_report(&self) -> u64 {
        self.last_report
    }

    /// The time between two reports, in milliseconds.
    pub closed spec fn report_interval_ms(&self) -> u64 {
        self.report_interval_ms
    }

    /// The events of the open window of messages.
    pub closed spec fn message_window(&self) -> RateTracker {
        self.messages_per_second
    }

    /// The events of the open window of updates.
    pub closed spec fn update_window(&self) -> RateTracker {
        self.updates_per_second
    }

    /// The tracker of `key`, if the book was seen.
    pub open spec fn tracker(&self, key: KeyView) -> Option<SequenceTracker> {
        if self.tracked_keys().contains(key) {
            Some(self.trackers()[self.tracked_keys().index_of(key)])
        } else {
            None
        }
    }

    /// Metrics that have counted nothing, made at `now_ms`, to report every
    /// `report_interval_secs` seconds.
    pub fn new(report_interval_secs: u64, now_ms: u64) -> (out: WebSocketMetrics)
        ensures
            out.wf(),
            out.total_messages() == 0,
            out.total_updates() == 0,
            out.total_errors() == 0,
            out.queue_depth() == 0,
            out.tracked_keys() == Seq::<KeyView>::empty(),
            out.trackers() == Seq::<SequenceTracker>::empty(),
            out.last_report() == now_ms,
            out.report_interval_ms() == capped(report_interval_secs * 1000),
    {
        let out = WebSocketMetrics {
            total_messages_received: 0,
            total_updates_processed: 0,
            total_errors: 0,
            messages_per_second: RateTracker::new(now_ms),
            updates_per_second: RateTracker::new(now_ms),
            keys: Vec::new(),
            trackers: Vec::new(),
            queue_depth: 0,
            last_report: now_ms,
            report_interval_ms: if report_interval_secs > u64::MAX / 1000 {
                u64::MAX
            } else {
                report_interval_secs * 1000
            },
        };
        assert(views(out.keys@) =~= Seq::<KeyView>::empty());
        out
    }

    /// Counts a message received from the feed: one more message, and one
    /// more in the queue.
    pub fn record_message_received(&mut self)
        ensures
            final(self).total_messages() == wrapped_inc(old(self).total_messages()),
            final(self).queue_depth() == wrapped_inc(old(self).queue_depth()),
            final(self).message_window().count() == capped(old(self).message_window().count() + 1),
            final(self).total_updates() == old(self).total_updates(),
            final(self).total_errors() == old(self).total_errors(),
            final(self).tracked_keys() == old(self).tracked_keys(),
            final(self).trackers() == old(self).trackers(),
            final(self).last_report() == old(self).last_report(),
            final(self).report_interval_ms() == old(self).report_interval_ms(),
            final(self).update_window() == old(self).update_window(),
            old(self).wf() ==> final(self).wf(),
    {
        self.total_messages_received = inc(self.total_messages_received);
        self.queue_depth = inc(self.queue_depth);
        self.messages_per_second.increment();
    }

    /// Counts an error.
    pub fn record_error(&mut self)
        ensures
            final(self).total_errors() == wrapped_inc(old(self).total_errors()),
            final(self).total_messages() == old(self).total_messages(),
            final(self).total_updates() == old(self).total_updates(),
            final(self).queue_depth() == old(self).queue_depth(),
            final(self).tracked_keys() == old(self).tracked_keys(),
            final(self).trackers() == old(self).trackers(),
            final(self).last_report() == old(self).last_report(),
            final(self).report_interval_ms() == old(self).report_interval_ms(),
            old(self).wf() ==> final(self).wf(),
    {
        self.total_errors = inc(self.total_errors);
    }

    /// Sets the depth of the queue.
    pub fn set_queue_depth(&mut self, depth: u64)
        ensures
            final(self).queue_depth() == depth,
            final(self).total_errors() == old(self).total_errors(),
            final(self).total_messages() == old(self).total_messages(),
            final(self).total_updates() == old(self).total_updates(),
            final(self).tracked_keys() == old(self).tracked_keys(),
            final(self).trackers() == old(self).trackers(),
            final(self).last_report() == old(self).last_report(),
            final(self).report_interval_ms() == old(self).report_interval_ms(),
            old(self).wf() ==> final(self).wf(),
    {
        self.queue_depth = depth;
    }

    /// The position of the tracker of `(market_id, outcome_id)`.
    fn find(&self, market_id: &str, outcome_id: &str) -> (out: Option<usize>)
        requires
            self.wf(),
        ensures
            match out {
                Some(i) => {
                    &&& i < self.tracked_keys().len()
                    &&& self.tracked_keys().contains((market_id@, outcome_id@))
                    &&& self.tracked_keys().index_of((market_id@, outcome_id@)) == i
                },
                None => !self.tracked_keys().contains((market_id@, outcome_id@)),
            },
    {
        let mut i: usize = 0;
        while i < self.keys.len()
            invariant
                self.wf(),
                i <= self.keys.len(),
                forall|j: int| 0 <= j < i ==> views(self.keys@)[j] != (market_id@, outcome_id@),
            decreases self.keys.len() - i,
        {
            if str_eq(self.keys[i].0.as_str(), market_id) && str_eq(
                self.keys[i].1.as_str(),
                outcome_id,
            ) {
                proof {
                    let list = views(self.keys@);
                    let key = (market_id@, outcome_id@);
                    assert(list[i as int] == key);
                    assert(list.contains(key));
                    let j = list.index_of(key);
                    assert(0 <= j < list.len() && list[j] == key);
                }
                return Some(i);
            }
            i += 1;
        }
        None
    }

    /// Counts an update applied to the book `(market_id, outcome_id)` and
    /// hands its sequence number to the book's tracker, which is made on the
    /// book's first update. Returns a notice where the number left a gap.
    pub fn record_update_processed(&mut self, market_id: &str, outcome_id: &str, sequence: i64) -> (out:
        Option<GapNotice>)
        requires
            old(self).wf(),
        ensures
            final(self).wf(),
            final(self).total_updates() == wrapped_inc(old(self).total_updates()),
            final(self).queue_depth() == wrapped_dec(old(self).queue_depth()),
            final(self).update_window().count() == capped(old(self).update_window().count() + 1),
            final(self).total_messages() == old(self).total_messages(),
            final(self).total_errors() == old(self).total_errors(),
            final(self).last_report() == old(self).last_report(),
            final(self).report_interval_ms() == old(self).report_interval_ms(),
            final(self).message_window() == old(self).message_window(),
            final(self).tracked_keys() == if old(self).tracked_keys().contains(
                (market_id@, outcome_id@),
            ) {
                old(self).tracked_keys()
            } else {
                old(self).tracked_keys().push((market_id@, outcome_id@))
            },
            final(self).trackers().len() == final(self).tracked_keys().len(),
            forall|i: int|
                0 <= i < old(self).trackers().len() && old(self).tracked_keys()[i] != (
                    market_id@,
                    outcome_id@,
                ) ==> final(self).trackers()[i] == old(self).trackers()[i],
            final(self).tracker((market_id@, outcome_id@)) is Some,
            counts_of(final(self).tracker((market_id@, outcome_id@))) == counts_after(
                counts_of(old(self).tracker((market_id@, outcome_id@))),
                sequence,
            ),
            out == notice_of(counts_of(old(self).tracker((market_id@, outcome_id@))), sequence),
    {
        self.total_updates_processed = inc(self.total_updates_processed);
        self.queue_depth = dec(self.queue_depth);
        self.updates_per_second.increment();
        let at = match self.find(market_id, outcome_id) {
            Some(i) => i,
            None => {
                let key = (market_id.to_owned(), outcome_id.to_owned());
                proof {
                    lemma_views_push(self.keys@, key);
                }
                self.keys.push(key);
                self.trackers.push(SequenceTracker::new());
                self.trackers.len() - 1
            },
        };
        proof {
            let list = views(self.keys@);
            let key = (market_id@, outcome_id@);
            assert(list[at as int] == key);
            assert(list.contains(key));
            let j = list.index_of(key);
            assert(0 <= j < list.len() && list[j] == key);
        }
        let tracker = &mut self.trackers[at];
        let expected_before = tracker.last();
        let (gap_detected, gap_size) = tracker.check_sequence(sequence);
        let total = tracker.gaps();
        if gap_detected {
            Some(GapNotice { expected: expected_before + 1, got: sequence, gap: gap_size, total_gaps: total })
        } else {
            None
        }
    }

    /// The greatest sequence number seen of the book `(market_id,
    /// outcome_id)`, if the book was seen.
    pub fn last_sequence(&self, market_id: &str, outcome_id: &str) -> (out: Option<i64>)
        requires
            self.wf(),
        ensures
            out == match self.tracker((market_id@, outcome_id@)) {
                Some(t) => Some(t.last_sequence()),
                None => None,
            },
    {
        match self.find(market_id, outcome_id) {
            Some(i) => Some(self.trackers[i].last()),
            None => None,
        }
    }

    /// The metrics as they stand at `now_ms`. Reading the rates closes each
    /// window that has lasted a second.
    pub fn get_current_stats(&mut self, now_ms: u64) -> (out: MetricsSnapshot)
        ensures
            out.total_messages == old(self).total_messages(),
            out.total_updates == old(self).total_updates(),
            out.total_errors == old(self).total_errors(),
            out.queue_depth == old(self).queue_depth(),
            out.message_rate == window_rate(
                old(self).message_window().count(),
                old(self).message_window().window_start(),
                now_ms,
            ),
            out.update_rate == window_rate(
                old(self).update_window().count(),
                old(self).update_window().window_start(),
                now_ms,
            ),
            final(self).message_window().count() == if elapsed_ms(
                old(self).message_window().window_start(),
                now_ms,
            ) >= 1000 {
                0
            } else {
                old(self).message_window().count()
            },
            final(self).update_window().count() == if elapsed_ms(
                old(self).update_window().window_start(),
                now_ms,
            ) >= 1000 {
                0
            } else {
                old(self).update_window().count()
            },
            out.sequence_gaps == total_gaps(old(self).trackers()),
            out.out_of_order == total_late(old(self).trackers()),
            out.markets_with_issues == with_issues(old(self).trackers()),
            final(self).total_messages() == old(self).total_messages(),
            final(self).total_updates() == old(self).total_updates(),
            final(self).total_errors() == old(self).total_errors(),
            final(self).queue_depth() == old(self).queue_depth(),
            final(self).tracked_keys() == old(self).tracked_keys(),
            final(self).trackers() == old(self).trackers(),
            final(self).last_report() == old(self).last_report(),
            final(self).report_interval_ms() == old(self).report_interval_ms(),
            old(self).wf() ==> final(self).wf(),
    {
        let message_rate = self.messages_per_second.get_rate(now_ms);
        let update_rate = self.updates_per_second.get_rate(now_ms);
        let mut gaps: u64 = 0;
        let mut late: u64 = 0;
        let mut issues: u64 = 0;
        let mut i: usize = 0;
        assert(self.trackers@.take(0) =~= Seq::<SequenceTracker>::empty());
        while i < self.trackers.len()
            invariant
                i <= self.trackers.len(),
                gaps == total_gaps(self.trackers@.take(i as int)),
                late == total_late(self.trackers@.take(i as int)),
                issues == with_issues(self.trackers@.take(i as int)),
                issues <= i,
            decreases self.trackers.len() - i,
        {
            proof {
                assert(self.trackers@.take(i + 1).drop_last() =~= self.trackers@.take(i as int));
                assert(self.trackers@.take(i + 1).last() == self.trackers@[i as int]);
            }
            let tracker = &self.trackers[i];
            if tracker.gaps() > 0 || tracker.late() > 0 {
                issues += 1;
            }
            gaps = add_capped(gaps, tracker.gaps());
            late = add_capped(late, tracker.late());
            i += 1;
        }
        assert(self.trackers@.take(self.trackers.len() as int) =~= self.trackers@);
        MetricsSnapshot {
            total_messages: self.total_messages_received,
            total_updates: self.total_updates_processed,
            total_errors: self.total_errors,
            message_rate,
            update_rate,
            queue_depth: self.queue_depth,
            sequence_gaps: gaps,
            out_of_order: late,
            markets_with_issues: issues,
        }
    }

    /// The metrics to report at `now_ms`, if the report interval has passed
    /// since the last report; the time of the last report is then `now_ms`.
    pub fn maybe_report(&mut self, now_ms: u64) -> (out: Option<MetricsSnapshot>)
        ensures
            out is Some == (elapsed_ms(old(self).last_report(), now_ms) >= old(self).report_interval_ms()),
            out is None ==> final(self).message_window() == old(self).message_window()
                && final(self).update_window() == old(self).update_window(),
            final(self).last_report() == if out is Some {
                now_ms
            } else {
                old(self).last_report()
            },
            out matches Some(stats) ==> {
                &&& stats.message_rate == window_rate(
                    old(self).message_window().count(),
                    old(self).message_window().window_start(),
                    now_ms,
                )
                &&& stats.update_rate == window_rate(
                    old(self).update_window().count(),
                    old(self).update_window().window_start(),
                    now_ms,
                )
                &&& stats.total_messages == old(self).total_messages()
                &&& stats.total_updates == old(self).total_updates()
                &&& stats.total_errors == old(self).total_errors()
                &&& stats.queue_depth == old(self).queue_depth()
                &&& stats.sequence_gaps == total_gaps(old(self).trackers())
                &&& stats.out_of_order == total_late(old(self).trackers())
                &&& stats.markets_with_issues == with_issues(old(self).trackers())
            },
            final(self).total_messages() == old(self).total_messages(),
            final(self).total_updates() == old(self).total_updates(),
            final(self).total_errors() == old(self).total_errors(),
            final(self).queue_depth() == old(self).queue_depth(),
            final(self).tracked_keys() == old(self).tracked_keys(),
            final(self).trackers() == old(self).trackers(),
            final(self).report_interval_ms() == old(self).report_interval_ms(),
            old(self).wf() ==> final(self).wf(),
    {
        let elapsed = if now_ms >= self.last_report {
            now_ms - self.last_report
        } else {
            0
        };
        if elapsed >= self.report_interval_ms {
            let stats = self.get_current_stats(now_ms);
            self.last_report = now_ms;
            Some(stats)
        } else {
            None
        }
    }
}

} // verus!
