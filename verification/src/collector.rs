//! The per-venue composition: book replicas, metrics, subscriptions and
//! sampling, and what each turn of the loops does to them.
//!
//! The loops themselves, with their timers and the venue adaptor, run
//! outside: they hand in what the feed gave or what the clock reads, and
//! act on what comes back.

use vstd::prelude::*;
use crate::book::BookStore;
use crate::config::Config;
use crate::keys::{without, KeyView};
use crate::metrics::{
    capped, counts_after, counts_of, notice_of, wrapped_inc, GapNotice, WebSocketMetrics,
};
use crate::scheduler::{
    hot_markets, hot_target, next_cursor, warm_markets, warm_target, Scheduler, SchedulerError,
};
use crate::schema::SnapshotRow;
use crate::scoring::{cache_view, market_ranking, MarketStats};
use crate::snapshotter::{SnapView, Snapshotter};
use crate::subscriptions::{target_set, SubscriptionManager};
use crate::venue::{MarketInfo, OrderBookUpdate};

verus! {

/// The pause of the feed loop after an idle poll, in milliseconds.
pub const IDLE_SLEEP_MS: u64 = 10;

/// The pause of the feed loop after a feed error, in milliseconds.
pub const ERROR_SLEEP_MS: u64 = 1000;

/// The time between two looks at the rotation, in milliseconds.
pub const ROTATION_TICK_MS: u64 = 10_000;

/// The time between two rounds of sampling, in milliseconds.
pub const SNAPSHOT_TICK_MS: u64 = 100;

/// The time between two cycles of pending subscriptions, in milliseconds.
pub const PENDING_TICK_MS: u64 = 1000;

/// The time between two metrics reports, in seconds.
pub const REPORT_INTERVAL_SECS: u64 = 60;

/// What one poll of the venue feed gave.
pub enum FeedResult {
    /// An update of one book.
    Update(OrderBookUpdate),
    /// Nothing was waiting.
    Idle,
    /// The feed failed.
    Error,
}

/// What the feed loop does after a poll.
#[derive(Clone, Copy, Debug, PartialEq, Eq, Structural)]
pub struct FeedOutcome {
    /// How long to pause before the next poll.
    pub sleep_ms: u64,
    /// The gap that the update left in its book's sequence numbers, if any.
    pub gap: Option<GapNotice>,
}

/// What a rotation changed.
#[derive(Clone, Copy, Debug, PartialEq, Eq, Structural)]
pub struct RotationOutcome {
    pub hot: usize,
    pub warm: usize,
    /// How many keys were queued to be subscribed.
    pub queued_adds: usize,
    /// How many keys were queued to be unsubscribed.
    pub queued_removes: usize,
}

/// The state of one venue's collector.
pub struct Collector {
    pub venue_name: String,
    pub book_store: BookStore,
    pub subscription_manager: SubscriptionManager,
    pub snapshotter: Snapshotter,
    pub metrics: WebSocketMetrics,
}

impl Collector {
    /// Every part is sound, and all parts are of one venue.
    pub open spec fn wf(&self) -> bool {
        &&& self.book_store.wf()
        &&& self.subscription_manager.wf()
        &&& self.snapshotter.wf()
        &&& self.metrics.wf()
        &&& self.snapshotter@.venue == self.venue_name@
        &&& self.subscription_manager.venue_name() == self.venue_name@
    }

    /// A collector for venue `venue_name`, which must be configured, at
    /// `now_ms`: no books, nothing subscribed, empty tiers, all counters 0.
    pub fn new(config: &Config, venue_name: String, now_ms: u64) -> (out: Collector)
        requires
            config.venues.section(venue_name@) is Some,
        ensures
            out.wf(),
            out.venue_name@ == venue_name@,
            out.book_store.key_list() == Seq::<KeyView>::empty(),
            out.subscription_manager.configured(),
            out.subscription_manager@.current == Seq::<KeyView>::empty(),
            out.subscription_manager@.pending_add == Seq::<KeyView>::empty(),
            out.subscription_manager@.pending_remove == Seq::<KeyView>::empty(),
            out.snapshotter@.hot == Set::<KeyView>::empty(),
            out.snapshotter@.warm == Set::<KeyView>::empty(),
            out.metrics.total_messages() == 0,
            out.metrics.total_updates() == 0,
            out.metrics.total_errors() == 0,
            out.metrics.report_interval_ms() == REPORT_INTERVAL_SECS * 1000,
    {
        let snapshotter = Snapshotter::new(config, venue_name.clone());
        let subscription_manager = SubscriptionManager::new(config, venue_name.clone(), now_ms);
        Collector {
            venue_name,
            book_store: BookStore::new(),
            subscription_manager,
            snapshotter,
            metrics: WebSocketMetrics::new(REPORT_INTERVAL_SECS, now_ms),
        }
    }

    /// Takes in what one poll of the feed gave, at wall-clock time
    /// `wall_ms`. An update is counted as a message and as an update, its
    /// sequence number goes to its book's tracker, and it replaces its
    /// book's replica, under its own time or, where it has none, under
    /// `wall_ms`; the next poll follows at once. After an idle poll the loop
    /// pauses shortly. An error is counted and the loop pauses longer.
    pub fn on_feed(&mut self, result: FeedResult, wall_ms: i64) -> (out: FeedOutcome)
        requires
            old(self).wf(),
        ensures
            final(self).wf(),
            final(self).venue_name == old(self).venue_name,
            final(self).snapshotter == old(self).snapshotter,
            final(self).subscription_manager == old(self).subscription_manager,
            match result {
                FeedResult::Update(update) => {
                    let key = (update.market_id@, update.outcome_id@);
                    let books = final(self).book_store;
                    let book = books.book_list()[books.key_list().index_of(key)];
                    &&& out.sleep_ms == 0
                    &&& final(self).metrics.total_messages() == wrapped_inc(
                        old(self).metrics.total_messages(),
                    )
                    &&& final(self).metrics.total_updates() == wrapped_inc(
                        old(self).metrics.total_updates(),
                    )
                    &&& final(self).metrics.total_errors() == old(self).metrics.total_errors()
                    &&& final(self).metrics.queue_depth() == old(self).metrics.queue_depth()
                    &&& final(self).metrics.message_window().count() == capped(
                        old(self).metrics.message_window().count() + 1,
                    )
                    &&& final(self).metrics.update_window().count() == capped(
                        old(self).metrics.update_window().count() + 1,
                    )
                    &&& final(self).metrics.last_report() == old(self).metrics.last_report()
                    &&& final(self).metrics.tracker(key) is Some
                    &&& counts_of(final(self).metrics.tracker(key)) == counts_after(
                        counts_of(old(self).metrics.tracker(key)),
                        update.sequence,
                    )
                    &&& out.gap == notice_of(
                        counts_of(old(self).metrics.tracker(key)),
                        update.sequence,
                    )
                    &&& books.key_list() == if old(self).book_store.key_list().contains(key) {
                        old(self).book_store.key_list()
                    } else {
                        old(self).book_store.key_list().push(key)
                    }
                    &&& books.key_list().contains(key)
                    &&& book.bids == update.bids
                    &&& book.asks == update.asks
                    &&& book.sequence == update.sequence
                    &&& book.last_update_ts == match update.timestamp_ms {
                        Some(ts) => ts,
                        None => wall_ms,
                    }
                    &&& forall|i: int|
                        0 <= i < old(self).book_store.book_list().len() && old(self).book_store.key_list()[i] != key ==> books.book_list()[i] == old(self).book_store.book_list()[i]
                },
                FeedResult::Idle => {
                    &&& out == (FeedOutcome { sleep_ms: IDLE_SLEEP_MS, gap: None })
                    &&& final(self).book_store == old(self).book_store
                    &&& final(self).metrics == old(self).metrics
                },
                FeedResult::Error => {
                    &&& out == (FeedOutcome { sleep_ms: ERROR_SLEEP_MS, gap: None })
                    &&& final(self).book_store == old(self).book_store
                    &&& final(self).metrics.total_errors() == wrapped_inc(
                        old(self).metrics.total_errors(),
                    )
                    &&& final(self).metrics.total_messages() == old(self).metrics.total_messages()
                    &&& final(self).metrics.total_updates() == old(self).metrics.total_updates()
                    &&& final(self).metrics.trackers() == old(self).metrics.trackers()
                },
            },
    {
        match result {
            FeedResult::Update(update) => {
                self.metrics.record_message_received();
                let gap = self.metrics.record_update_processed(
                    update.market_id.as_str(),
                    update.outcome_id.as_str(),
                    update.sequence,
                );
                let ts = match update.timestamp_ms {
                    Some(ts) => ts,
                    None => wall_ms,
                };
                self.book_store.update(
                    update.market_id,
                    update.outcome_id,
                    update.bids,
                    update.asks,
                    ts,
                    update.sequence,
                );
                FeedOutcome { sleep_ms: 0, gap }
            },
            FeedResult::Idle => FeedOutcome { sleep_ms: IDLE_SLEEP_MS, gap: None },
            FeedResult::Error => {
                self.metrics.record_error();
                FeedOutcome { sleep_ms: ERROR_SLEEP_MS, gap: None }
            },
        }
    }

    /// One look at the rotation, at `mono_ms` on the monotonic clock and
    /// `wall_ms` on the wall clock. Where the scheduler says that the venue
    /// is due, new targets are chosen from `markets`, scored at `wall_ms`;
    /// the snapshotter gets the two tiers, the subscription manager their
    /// union as its target, and the rotation is marked. Else nothing changes.
    /// A venue that is due is configured, so the look never fails.
    pub fn rotate(
        &mut self,
        scheduler: &mut Scheduler,
        markets: &[MarketInfo],
        stats_cache: Option<&[MarketStats]>,
        wall_ms: i64,
        mono_ms: u64,
    ) -> (out: Result<Option<RotationOutcome>, SchedulerError>)
        requires
            old(self).wf(),
            old(scheduler).wf(),
        ensures
            final(self).wf(),
            final(scheduler).wf(),
            final(scheduler).config() == old(scheduler).config(),
            final(self).venue_name == old(self).venue_name,
            final(self).book_store == old(self).book_store,
            final(self).metrics == old(self).metrics,
            out is Ok,
            out->Ok_0 is Some == old(scheduler).rotation_due(old(self).venue_name@, mono_ms),
            match out->Ok_0 {
                None => {
                    &&& final(self).snapshotter == old(self).snapshotter
                    &&& final(self).subscription_manager == old(self).subscription_manager
                    &&& final(scheduler).last_rotation() == old(scheduler).last_rotation()
                    &&& final(scheduler).hot() == old(scheduler).hot()
                    &&& final(scheduler).warm() == old(scheduler).warm()
                    &&& final(scheduler).cursor() == old(scheduler).cursor()
                },
                Some(done) => {
                    let cfg = old(scheduler).config().venues.section(old(self).venue_name@)->0;
                    let token_based = old(self).venue_name@ == "polymarket"@;
                    let ranking = market_ranking(markets@, cache_view(stats_cache), wall_ms);
                    let rest = (markets.len() - hot_markets(cfg, markets@.len())) as nat;
                    &&& final(scheduler).last_rotation() == Some(mono_ms)
                    &&& final(scheduler).hot() == hot_target(markets@, ranking, cfg, token_based)
                    &&& final(scheduler).warm() == warm_target(
                        markets@,
                        ranking,
                        cfg,
                        old(scheduler).cursor(),
                        token_based,
                    )
                    &&& final(scheduler).cursor() == next_cursor(
                        rest,
                        old(scheduler).cursor(),
                        warm_markets(cfg, rest),
                    )
                    &&& final(scheduler).hot().len() + final(scheduler).warm().len()
                        <= cfg.max_subs
                    &&& final(scheduler).hot().no_duplicates()
                    &&& final(scheduler).warm().no_duplicates()
                    &&& done.hot == final(scheduler).hot().len()
                    &&& done.warm == final(scheduler).warm().len()
                    &&& done.queued_adds == without(
                        final(scheduler).hot() + final(scheduler).warm(),
                        old(self).subscription_manager@.current,
                    ).len()
                    &&& done.queued_removes == without(
                        old(self).subscription_manager@.current,
                        final(scheduler).hot() + final(scheduler).warm(),
                    ).len()
                    &&& final(self).snapshotter@ == (SnapView {
                        hot: final(scheduler).hot().to_set(),
                        warm: final(scheduler).warm().to_set(),
                        ..old(self).snapshotter@
                    })
                    &&& final(self).subscription_manager@ == target_set(
                        old(self).subscription_manager@,
                        final(scheduler).hot() + final(scheduler).warm(),
                    )
                },
            },
    {
        if !scheduler.should_rotate(self.venue_name.as_str(), mono_ms) {
            return Ok(None);
        }
        let (hot, warm) = match scheduler.get_target_subscriptions(
            self.venue_name.as_str(),
            markets,
            stats_cache,
            wall_ms,
        ) {
            Ok(targets) => targets,
            Err(e) => {
                return Err(e);
            },
        };
        proof {
            hot.lemma_order();
            warm.lemma_order();
        }
        let mut target = hot.cloned();
        target.extend(&warm);
        let done_hot = hot.len();
        let done_warm = warm.len();
        self.snapshotter.update_sets(hot, warm);
        let (queued_adds, queued_removes) = self.subscription_manager.update_target(target);
        scheduler.mark_rotated(mono_ms);
        Ok(Some(RotationOutcome { hot: done_hot, warm: done_warm, queued_adds, queued_removes }))
    }

    /// One round of sampling at `mono_ms`, for the writer's clock `ts_recv`:
    /// the rows of the books that are due.
    pub fn take_snapshots(&mut self, mono_ms: u64, ts_recv: i64) -> (rows: Vec<SnapshotRow>)
        requires
            old(self).wf(),
        ensures
            final(self).wf(),
            final(self).venue_name == old(self).venue_name,
            final(self).book_store == old(self).book_store,
            final(self).metrics == old(self).metrics,
            final(self).subscription_manager == old(self).subscription_manager,
            final(self).snapshotter@ == (SnapView {
                next_sample_at: crate::snapshotter::next_after(
                    old(self).snapshotter@,
                    old(self).book_store.key_list(),
                    mono_ms,
                ),
                ..old(self).snapshotter@
            }),
            rows.len() == crate::snapshotter::sampled_keys(
                old(self).snapshotter@,
                old(self).book_store.key_list(),
                mono_ms,
            ).len(),
            forall|j: int|
                0 <= j < rows.len() ==> (#[trigger] rows[j])@ == crate::schema::capped_view(
                    crate::book::book_row(
                        old(self).book_store.book(
                            crate::snapshotter::sampled_keys(
                                old(self).snapshotter@,
                                old(self).book_store.key_list(),
                                mono_ms,
                            )[j],
                        )->0,
                        old(self).venue_name@,
                        ts_recv,
                        None,
                    ),
                    old(self).snapshotter@.top_k,
                ),
    {
        self.snapshotter.take_snapshots(&self.book_store, mono_ms, ts_recv)
    }
}

} // verus!
