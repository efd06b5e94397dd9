//! The subscription manager: what is subscribed at the venue, what is still
//! to be sent, and how many calls the churn budget allows.
//!
//! The manager never calls the venue. It says which call is due; whoever
//! runs it makes the call and reports back how it ended. One call is one
//! unit of churn, whatever the number of keys in it. Adds go before removes.

use vstd::prelude::*;
use crate::config::Config;
use crate::keys::{
    clone_key, contains_key, fill_tier, lemma_fill_distinct, lemma_views_push, lemma_without,
    lemma_without_all, lemma_without_prefix, views, without, KeySet, KeyView,
};
use crate::text::str_eq;

verus! {

/// The length of a churn window, in milliseconds.
pub const CHURN_WINDOW_MS: u64 = 60_000;

/// The most keys in one call to a venue that takes several keys per call.
pub const BATCH_CAP: usize = 500;

/// Why the manager cannot work.
#[derive(Clone, Copy, Debug, PartialEq, Eq, Structural)]
pub enum SubscriptionError {
    /// The configuration has no section for the venue.
    VenueConfigNotFound,
}

/// What the manager is told.
#[derive(Clone, Copy, Debug, PartialEq, Eq, Structural)]
pub enum PendingEvent {
    /// A processing cycle begins.
    Tick,
    /// The call that was due has been made.
    Done,
    /// The call that was due has failed.
    Failed,
}

/// What is due at the venue.
pub enum PendingAction {
    /// Subscribe to these keys, in one call.
    Subscribe(Vec<(String, String)>),
    /// Unsubscribe from these keys, in one call.
    Unsubscribe(Vec<(String, String)>),
    /// Nothing until the next cycle.
    Wait,
}

/// A call to the venue, as a mathematical value.
pub enum CallView {
    Subscribe(Seq<KeyView>),
    Unsubscribe(Seq<KeyView>),
    Wait,
}

impl View for PendingAction {
    type V = CallView;

    open spec fn view(&self) -> CallView {
        match self {
            PendingAction::Subscribe(keys) => CallView::Subscribe(views(keys@)),
            PendingAction::Unsubscribe(keys) => CallView::Unsubscribe(views(keys@)),
            PendingAction::Wait => CallView::Wait,
        }
    }
}

/// The answer of one step: the call that is due, and how many of the oldest
/// pending adds were dropped because the queue had outgrown `max_subs`.
pub struct PendingStep {
    pub action: PendingAction,
    pub dropped: usize,
}

/// The manager's state as a mathematical value.
pub struct SubView {
    /// Whether the venue takes several keys per call.
    pub batching: bool,
    pub churn_limit: nat,
    pub max_subs: nat,
    /// The tracked set, in the order of the last target.
    pub current: Seq<KeyView>,
    pub pending_add: Seq<KeyView>,
    pub pending_remove: Seq<KeyView>,
    /// The calls made in the open churn window.
    pub churn_count: nat,
    pub churn_window_start: u64,
    /// The call that is due and has not been reported on.
    pub in_flight: CallView,
}

/// The keys of the next call from `queue`: the first `BATCH_CAP` different
/// keys where the venue takes several, else the first key.
pub open spec fn batch_of(queue: Seq<KeyView>, batching: bool) -> Seq<KeyView> {
    if batching {
        fill_tier(Seq::empty(), queue, Set::empty(), BATCH_CAP as nat)
    } else if queue.len() > 0 {
        seq![queue[0]]
    } else {
        Seq::empty()
    }
}

/// `queue` after the call with `sent` was made: without every key of the
/// call where the venue takes several, else without its first key.
pub open spec fn after_call(queue: Seq<KeyView>, sent: Seq<KeyView>, batching: bool) -> Seq<KeyView> {
    if batching {
        without(queue, sent)
    } else if queue.len() > 0 {
        queue.drop_first()
    } else {
        queue
    }
}

/// The call that is due in state `s`: none while the churn budget of the
/// window is used up; else the next adds; else, with no add pending, the
/// next removes.
pub open spec fn due_call(s: SubView) -> CallView {
    if s.churn_count >= s.churn_limit {
        CallView::Wait
    } else if s.pending_add.len() > 0 {
        CallView::Subscribe(batch_of(s.pending_add, s.batching))
    } else if s.pending_remove.len() > 0 {
        CallView::Unsubscribe(batch_of(s.pending_remove, s.batching))
    } else {
        CallView::Wait
    }
}

/// State `s` with the call that is due noted as in flight.
pub open spec fn with_due(s: SubView) -> SubView {
    SubView { in_flight: due_call(s), ..s }
}

/// How many of the oldest pending adds are dropped at the start of a cycle.
pub open spec fn overflow(s: SubView) -> nat {
    if s.pending_add.len() > s.max_subs {
        (s.pending_add.len() - s.max_subs) as nat
    } else {
        0
    }
}

/// The state at the start of a cycle at `now_ms`: a churn window that has
/// lasted a minute is closed and a new one opens; pending adds beyond
/// `max_subs` are dropped, oldest first; no call is in flight.
pub open spec fn cycle_start(s: SubView, now_ms: u64) -> SubView {
    let reset = now_ms >= s.churn_window_start && now_ms - s.churn_window_start >= CHURN_WINDOW_MS;
    SubView {
        churn_count: if reset {
            0
        } else {
            s.churn_count
        },
        churn_window_start: if reset {
            now_ms
        } else {
            s.churn_window_start
        },
        pending_add: s.pending_add.skip(overflow(s) as int),
        in_flight: CallView::Wait,
        ..s
    }
}

/// The state after the call in flight was made: its keys have left their
/// queue and the call is counted.
pub open spec fn call_made(s: SubView) -> SubView {
    match s.in_flight {
        CallView::Subscribe(sent) => SubView {
            pending_add: after_call(s.pending_add, sent, s.batching),
            churn_count: s.churn_count + 1,
            in_flight: CallView::Wait,
            ..s
        },
        CallView::Unsubscribe(sent) => SubView {
            pending_remove: after_call(s.pending_remove, sent, s.batching),
            churn_count: s.churn_count + 1,
            in_flight: CallView::Wait,
            ..s
        },
        CallView::Wait => s,
    }
}

/// The state after `event` at `now_ms`, with the call that is then due
/// noted as in flight. A failed call leaves the queues as they are, and
/// nothing more is due in this cycle.
pub open spec fn pending_step(s: SubView, event: PendingEvent, now_ms: u64) -> SubView {
    match event {
        PendingEvent::Tick => with_due(cycle_start(s, now_ms)),
        PendingEvent::Done => with_due(call_made(s)),
        PendingEvent::Failed => SubView { in_flight: CallView::Wait, ..s },
    }
}

/// The state after the target `target` was set: what the target adds to
/// the tracked set is queued to be added, what it leaves out is queued to be
/// removed, and the target is the tracked set.
pub open spec fn target_set(s: SubView, target: Seq<KeyView>) -> SubView {
    SubView {
        pending_add: s.pending_add + without(target, s.current),
        pending_remove: s.pending_remove + without(s.current, target),
        current: target,
        ..s
    }
}

/// A copy of a list of keys.
fn clone_keys(keys: &Vec<(String, String)>, from: usize) -> (out: Vec<(String, String)>)
    requires
        from <= keys.len(),
    ensures
        views(out@) == views(keys@).skip(from as int),
{
    let mut out: Vec<(String, String)> = Vec::new();
    let mut i: usize = from;
    while i < keys.len()
        invariant
            from <= i <= keys.len(),
            views(out@) =~= views(keys@).subrange(from as int, i as int),
        decreases keys.len() - i,
    {
        let key = clone_key(&keys[i]);
        proof {
            lemma_views_push(out@, key);
        }
        out.push(key);
        i += 1;
    }
    assert(views(keys@).subrange(from as int, keys.len() as int) =~= views(keys@).skip(from as int));
    out
}

/// A copy of an action.
fn clone_action(action: &PendingAction) -> (out: PendingAction)
    ensures
        out@ == action@,
{
    match action {
        PendingAction::Subscribe(keys) => {
            let copy = clone_keys(keys, 0);
            assert(views(keys@).skip(0) =~= views(keys@));
            PendingAction::Subscribe(copy)
        },
        PendingAction::Unsubscribe(keys) => {
            let copy = clone_keys(keys, 0);
            assert(views(keys@).skip(0) =~= views(keys@));
            PendingAction::Unsubscribe(copy)
        },
        PendingAction::Wait => PendingAction::Wait,
    }
}

/// The keys of the next call from `queue`.
fn first_batch(queue: &Vec<(String, String)>, batching: bool) -> (out: Vec<(String, String)>)
    ensures
        views(out@) == batch_of(views(queue@), batching),
{
    let mut out: Vec<(String, String)> = Vec::new();
    let ghost all = views(queue@);
    assert(views(out@) =~= Seq::<KeyView>::empty());
    if !batching {
        if queue.len() > 0 {
            let key = clone_key(&queue[0]);
            proof {
                lemma_views_push(out@, key);
            }
            out.push(key);
        }
        assert(views(out@) =~= batch_of(all, false));
        return out;
    }
    assert(all.skip(0) =~= all);
    let mut i: usize = 0;
    while i < queue.len()
        invariant
            i <= queue.len(),
            all == views(queue@),
            fill_tier(views(out@), all.skip(i as int), Set::empty(), BATCH_CAP as nat) == fill_tier(
                Seq::empty(),
                all,
                Set::empty(),
                BATCH_CAP as nat,
            ),
        decreases queue.len() - i,
    {
        proof {
            assert(all.skip(i as int)[0] == all[i as int]);
            assert(all.skip(i as int).drop_first() =~= all.skip(i + 1));
        }
        if out.len() < BATCH_CAP && !contains_key(&out, &queue[i]) {
            let key = clone_key(&queue[i]);
            proof {
                lemma_views_push(out@, key);
            }
            out.push(key);
        }
        i += 1;
    }
    out
}

/// `queue` without the keys of `sent`.
fn remove_sent(queue: &Vec<(String, String)>, sent: &Vec<(String, String)>) -> (out: Vec<
    (String, String),
>)
    ensures
        views(out@) == without(views(queue@), views(sent@)),
{
    let mut out: Vec<(String, String)> = Vec::new();
    let ghost all = views(queue@);
    assert(views(out@) =~= Seq::<KeyView>::empty());
    assert(all.take(0) =~= Seq::<KeyView>::empty());
    let mut i: usize = 0;
    while i < queue.len()
        invariant
            i <= queue.len(),
            all == views(queue@),
            views(out@) == without(all.take(i as int), views(sent@)),
        decreases queue.len() - i,
    {
        proof {
            assert(all.take(i + 1).drop_last() =~= all.take(i as int));
            assert(all.take(i + 1).last() == all[i as int]);
        }
        if !contains_key(sent, &queue[i]) {
            let key = clone_key(&queue[i]);
            proof {
                lemma_views_push(out@, key);
            }
            out.push(key);
        }
        i += 1;
    }
    assert(all.take(queue.len() as int) =~= all);
    out
}

/// The subscription state of one venue.
pub struct SubscriptionManager {
    venue_name: String,
    batching: bool,
    /// `churn_limit` and `max_subs` of the venue, if it is configured.
    settings: Option<(usize, usize)>,
    current: KeySet,
    pending_add: Vec<(String, String)>,
    pending_remove: Vec<(String, String)>,
    churn_count: usize,
    churn_window_start: u64,
    in_flight: PendingAction,
}

impl View for SubscriptionManager {
    type V = SubView;

    closed spec fn view(&self) -> SubView {
        SubView {
            batching: self.batching,
            churn_limit: match self.settings {
                Some(s) => s.0 as nat,
                None => 0,
            },
            max_subs: match self.settings {
                Some(s) => s.1 as nat,
                None => 0,
            },
            current: self.current.order(),
            pending_add: views(self.pending_add@),
            pending_remove: views(self.pending_remove@),
            churn_count: self.churn_count as nat,
            churn_window_start: self.churn_window_start,
            in_flight: self.in_flight@,
        }
    }
}

impl SubscriptionManager {
    /// Whether the venue is configured.
    pub closed spec fn configured(&self) -> bool {
        self.settings is Some
    }

    /// The name of the venue.
    pub closed spec fn venue_name(&self) -> Seq<char> {
        self.venue_name@
    }

    /// The tracked set holds no key twice, and a call is in flight only
    /// while the churn budget has room for it.
    pub closed spec fn wf(&self) -> bool {
        &&& self.current.wf()
        &&& self.in_flight@ !is Wait ==> self.settings is Some && self.churn_count
            < (self.settings->0).0
    }

    /// What `wf` says, over the view.
    pub proof fn lemma_wf(&self)
        requires
            self.wf(),
        ensures
            self@.current.no_duplicates(),
            self@.in_flight !is Wait ==> self@.churn_count < self@.churn_limit,
    {
        self.current.lemma_order();
    }

    /// A manager for venue `venue_name` that tracks nothing, with nothing
    /// pending, whose first churn window opens at `now_ms`. The venue
    /// `polymarket` takes several keys per call.
    pub fn new(config: &Config, venue_name: String, now_ms: u64) -> (out: SubscriptionManager)
        ensures
            out.wf(),
            out.venue_name() == venue_name@,
            out.configured() == config.venues.section(venue_name@) is Some,
            out@ == (SubView {
                batching: venue_name@ == "polymarket"@,
                churn_limit: match config.venues.section(venue_name@) {
                    Some(cfg) => cfg.subscription_churn_limit_per_minute as nat,
                    None => 0,
                },
                max_subs: match config.venues.section(venue_name@) {
                    Some(cfg) => cfg.max_subs as nat,
                    None => 0,
                },
                current: Seq::empty(),
                pending_add: Seq::empty(),
                pending_remove: Seq::empty(),
                churn_count: 0,
                churn_window_start: now_ms,
                in_flight: CallView::Wait,
            }),
    {
        let settings = match config.get_venue_config(venue_name.as_str()) {
            Some(cfg) => Some((cfg.subscription_churn_limit_per_minute, cfg.max_subs)),
            None => None,
        };
        let batching = str_eq(venue_name.as_str(), "polymarket");
        let out = SubscriptionManager {
            venue_name,
            batching,
            settings,
            current: KeySet::new(),
            pending_add: Vec::new(),
            pending_remove: Vec::new(),
            churn_count: 0,
            churn_window_start: now_ms,
            in_flight: PendingAction::Wait,
        };
        assert(views(out.pending_add@) =~= Seq::<KeyView>::empty());
        assert(views(out.pending_remove@) =~= Seq::<KeyView>::empty());
        out
    }

    /// How many keys wait to be subscribed.
    pub fn pending_adds(&self) -> (out: usize)
        ensures
            out == self@.pending_add.len(),
    {
        self.pending_add.len()
    }

    /// How many keys wait to be unsubscribed.
    pub fn pending_removes(&self) -> (out: usize)
        ensures
            out == self@.pending_remove.len(),
    {
        self.pending_remove.len()
    }

    /// How many calls were made in the open churn window.
    pub fn churn_count(&self) -> (out: usize)
        ensures
            out == self@.churn_count,
    {
        self.churn_count
    }

    /// The tracked set.
    pub fn current(&self) -> (out: &KeySet)
        ensures
            out.order() == self@.current,
            self.wf() ==> out.wf(),
    {
        &self.current
    }

    /// Sets the target: queues what it adds to the tracked set and what it
    /// leaves out of it, and makes it the tracked set. Returns how many keys
    /// were queued to be added and to be removed.
    pub fn update_target(&mut self, target: KeySet) -> (out: (usize, usize))
        requires
            old(self).wf(),
            target.wf(),
        ensures
            final(self).wf(),
            final(self)@ == target_set(old(self)@, target.order()),
            final(self).configured() == old(self).configured(),
            final(self).venue_name() == old(self).venue_name(),
            out.0 == without(target.order(), old(self)@.current).len(),
            out.1 == without(old(self)@.current, target.order()).len(),
    {
        let target_keys = target.to_vec();
        let current_keys = self.current.to_vec();
        let mut to_add = remove_sent(&target_keys, &current_keys);
        let mut to_remove = remove_sent(&current_keys, &target_keys);
        let added = to_add.len();
        let removed = to_remove.len();
        proof {
            lemma_views_concat(self.pending_add@, to_add@);
            lemma_views_concat(self.pending_remove@, to_remove@);
        }
        self.pending_add.append(&mut to_add);
        self.pending_remove.append(&mut to_remove);
        self.current = target;
        (added, removed)
    }

    /// One step of pending processing. At the start of a cycle (`Tick`) the
    /// churn window and the overflow of the add queue are seen to; after a
    /// call was made (`Done`) its keys leave their queue and the call is
    /// counted; then the call that is due next is handed out and noted. A
    /// failed call (`Failed`) leaves the queues intact and ends the cycle.
    /// Without a configuration for the venue nothing changes.
    pub fn process_pending(&mut self, event: PendingEvent, now_ms: u64) -> (out: Result<
        PendingStep,
        SubscriptionError,
    >)
        requires
            old(self).wf(),
        ensures
            final(self).wf(),
            final(self).configured() == old(self).configured(),
            final(self).venue_name() == old(self).venue_name(),
            match out {
                Err(e) => {
                    &&& !old(self).configured()
                    &&& e == SubscriptionError::VenueConfigNotFound
                    &&& final(self)@ == old(self)@
                },
                Ok(step) => {
                    &&& old(self).configured()
                    &&& final(self)@ == pending_step(old(self)@, event, now_ms)
                    &&& step.action@ == final(self)@.in_flight
                    &&& step.dropped == if event is Tick {
                        overflow(old(self)@)
                    } else {
                        0
                    }
                },
            },
    {
        let (limit, max_subs) = match self.settings {
            None => {
                return Err(SubscriptionError::VenueConfigNotFound);
            },
            Some(s) => s,
        };
        let mut flight = PendingAction::Wait;
        core::mem::swap(&mut self.in_flight, &mut flight);
        let mut dropped: usize = 0;
        match event {
            PendingEvent::Tick => {
                if now_ms >= self.churn_window_start && now_ms - self.churn_window_start
                    >= CHURN_WINDOW_MS {
                    self.churn_count = 0;
                    self.churn_window_start = now_ms;
                }
                if self.pending_add.len() > max_subs {
                    dropped = self.pending_add.len() - max_subs;
                    self.pending_add = clone_keys(&self.pending_add, dropped);
                }
                assert(views(old(self).pending_add@).skip(0) =~= views(old(self).pending_add@));
            },
            PendingEvent::Done => {
                match flight {
                    PendingAction::Subscribe(sent) => {
                        self.pending_add = self.queue_after(true, &sent);
                        self.churn_count = self.churn_count + 1;
                    },
                    PendingAction::Unsubscribe(sent) => {
                        self.pending_remove = self.queue_after(false, &sent);
                        self.churn_count = self.churn_count + 1;
                    },
                    PendingAction::Wait => {},
                }
            },
            PendingEvent::Failed => {
                return Ok(PendingStep { action: PendingAction::Wait, dropped: 0 });
            },
        }
        let action = if self.churn_count >= limit {
            PendingAction::Wait
        } else if self.pending_add.len() > 0 {
            PendingAction::Subscribe(first_batch(&self.pending_add, self.batching))
        } else if self.pending_remove.len() > 0 {
            PendingAction::Unsubscribe(first_batch(&self.pending_remove, self.batching))
        } else {
            PendingAction::Wait
        };
        self.in_flight = clone_action(&action);
        Ok(PendingStep { action, dropped })
    }

    /// The add queue (`adds`) or the remove queue after the call with
    /// `sent` was made.
    fn queue_after(&self, adds: bool, sent: &Vec<(String, String)>) -> (out: Vec<(String, String)>)
        ensures
            views(out@) == after_call(
                if adds {
                    views(self.pending_add@)
                } else {
                    views(self.pending_remove@)
                },
                views(sent@),
                self.batching,
            ),
    {
        let queue = if adds {
            &self.pending_add
        } else {
            &self.pending_remove
        };
        if self.batching {
            remove_sent(queue, sent)
        } else if queue.len() > 0 {
            let out = clone_keys(queue, 1);
            assert(views(queue@).skip(1) =~= views(queue@).drop_first());
            out
        } else {
            let out = clone_keys(queue, 0);
            assert(views(queue@).skip(0) =~= views(queue@));
            out
        }
    }
}

/// The views of two lists, one after the other.
proof fn lemma_views_concat(a: Seq<(String, String)>, b: Seq<(String, String)>)
    ensures
        views(a + b) == views(a) + views(b),
{
    assert(views(a + b) =~= views(a) + views(b));
}

/// Setting the target that is already tracked queues nothing: a target set
/// twice leaves the state as it was after the first time.
pub proof fn lemma_target_twice(s: SubView, target: Seq<KeyView>)
    ensures
        target_set(target_set(s, target), target) == target_set(s, target),
{
    assert forall|i: int| 0 <= i < target.len() implies target.contains(#[trigger] target[i]) by {
    }
    lemma_without_all(target, target);
    let once = target_set(s, target);
    assert(once.pending_add + without(target, target) =~= once.pending_add);
    assert(once.pending_remove + without(target, target) =~= once.pending_remove);
}

/// The churn budget holds in state `s`: the calls counted in the open
/// window are within the limit, and a call in flight still has room.
pub open spec fn within_budget(s: SubView) -> bool {
    &&& s.churn_count <= s.churn_limit
    &&& s.in_flight !is Wait ==> s.churn_count < s.churn_limit
}

/// The churn cap. No step leaves the budget; a call is handed out only
/// while the window has room for it; each call made is counted in the open
/// window; and the count starts again only when a cycle begins a minute or
/// more after the window opened.
pub proof fn lemma_churn_cap(s: SubView, event: PendingEvent, now_ms: u64)
    requires
        within_budget(s),
    ensures
        within_budget(pending_step(s, event, now_ms)),
        pending_step(s, event, now_ms).churn_limit == s.churn_limit,
        event is Done && s.in_flight !is Wait ==> pending_step(s, event, now_ms).churn_count
            == s.churn_count + 1,
        event is Done ==> pending_step(s, event, now_ms).churn_window_start
            == s.churn_window_start,
        event is Failed ==> pending_step(s, event, now_ms).churn_count == s.churn_count,
        event is Tick ==> pending_step(s, event, now_ms).churn_count == if now_ms
            >= s.churn_window_start && now_ms - s.churn_window_start >= CHURN_WINDOW_MS {
            0
        } else {
            s.churn_count
        },
{
}

/// Adds go before removes, oldest first. After any step, a call to
/// unsubscribe is in flight only when no add is pending; a call to
/// subscribe carries the keys at the front of the add queue, the oldest
/// one where the venue takes one key per call; and while the window has
/// room and an add is pending, a step that is no failure hands out a call
/// to subscribe.
pub proof fn lemma_adds_first(s: SubView, event: PendingEvent, now_ms: u64)
    ensures
        pending_step(s, event, now_ms).in_flight is Unsubscribe ==> pending_step(
            s,
            event,
            now_ms,
        ).pending_add.len() == 0,
        pending_step(s, event, now_ms).in_flight matches CallView::Subscribe(keys) ==> {
            &&& pending_step(s, event, now_ms).pending_add.len() > 0
            &&& keys == batch_of(
                pending_step(s, event, now_ms).pending_add,
                pending_step(s, event, now_ms).batching,
            )
            &&& !s.batching ==> keys == seq![pending_step(s, event, now_ms).pending_add[0]]
        },
        event !is Failed && pending_step(s, event, now_ms).churn_count < s.churn_limit
            && pending_step(s, event, now_ms).pending_add.len() > 0 ==> pending_step(
            s,
            event,
            now_ms,
        ).in_flight is Subscribe,
{
}

/// The state after the events of `events`, each with the time at which
/// it came.
pub open spec fn run(s: SubView, events: Seq<(PendingEvent, u64)>) -> SubView
    decreases events.len(),
{
    if events.len() == 0 {
        s
    } else {
        pending_step(run(s, events.drop_last()), events.last().0, events.last().1)
    }
}

/// The keys of the call that event `event` reports as made in state `s`:
/// those of the call in flight, where it is of the kind asked for.
pub open spec fn keys_made(s: SubView, event: PendingEvent, subscribe: bool) -> Seq<KeyView> {
    if event is Done {
        match s.in_flight {
            CallView::Subscribe(keys) => if subscribe {
                keys
            } else {
                Seq::empty()
            },
            CallView::Unsubscribe(keys) => if subscribe {
                Seq::empty()
            } else {
                keys
            },
            CallView::Wait => Seq::empty(),
        }
    } else {
        Seq::empty()
    }
}

/// The keys of all subscribe calls (or of all unsubscribe calls) that were
/// made during `events`, in the order of the calls.
pub open spec fn keys_sent(s: SubView, events: Seq<(PendingEvent, u64)>, subscribe: bool) -> Seq<
    KeyView,
>
    decreases events.len(),
{
    if events.len() == 0 {
        Seq::empty()
    } else {
        keys_sent(s, events.drop_last(), subscribe) + keys_made(
            run(s, events.drop_last()),
            events.last().0,
            subscribe,
        )
    }
}

/// How many calls were made during `events`.
pub open spec fn calls_made(s: SubView, events: Seq<(PendingEvent, u64)>) -> nat
    decreases events.len(),
{
    if events.len() == 0 {
        0
    } else {
        calls_made(s, events.drop_last()) + if events.last().0 is Done && run(
            s,
            events.drop_last(),
        ).in_flight !is Wait {
            1nat
        } else {
            0nat
        }
    }
}

/// Whether a cycle that begins at `now_ms` opens a new churn window.
pub open spec fn opens_window(s: SubView, now_ms: u64) -> bool {
    now_ms >= s.churn_window_start && now_ms - s.churn_window_start >= CHURN_WINDOW_MS
}

/// The churn cap over a whole window: as long as no cycle opens a new
/// window, the calls made are counted one by one, and their count never
/// passes the limit. So no window sees more calls than the limit allows.
pub proof fn lemma_window_calls(s: SubView, events: Seq<(PendingEvent, u64)>)
    requires
        within_budget(s),
        forall|i: int|
            0 <= i < events.len() && (#[trigger] events[i]).0 is Tick ==> !opens_window(
                s,
                events[i].1,
            ),
    ensures
        within_budget(run(s, events)),
        run(s, events).churn_window_start == s.churn_window_start,
        run(s, events).churn_limit == s.churn_limit,
        run(s, events).churn_count == s.churn_count + calls_made(s, events),
        s.churn_count + calls_made(s, events) <= s.churn_limit,
    decreases events.len(),
{
    if events.len() > 0 {
        let before = events.drop_last();
        assert forall|i: int| 0 <= i < before.len() && (#[trigger] before[i]).0 is Tick implies
            !opens_window(s, before[i].1) by {
            assert(before[i] == events[i]);
        }
        lemma_window_calls(s, before);
        let last = events[events.len() - 1];
        lemma_churn_cap(run(s, before), last.0, last.1);
    }
}

/// A state in which the queues hold no key twice, the add queue is within
/// `max_subs`, and the call in flight, if any, carries the keys at the
/// front of its queue.
pub open spec fn draining(s: SubView) -> bool {
    &&& s.pending_add.no_duplicates()
    &&& s.pending_remove.no_duplicates()
    &&& s.pending_add.len() <= s.max_subs
    &&& match s.in_flight {
        CallView::Subscribe(keys) => {
            &&& 1 <= keys.len() <= s.pending_add.len()
            &&& keys == s.pending_add.take(keys.len() as int)
            &&& !s.batching ==> keys.len() == 1
        },
        CallView::Unsubscribe(keys) => {
            &&& 1 <= keys.len() <= s.pending_remove.len()
            &&& keys == s.pending_remove.take(keys.len() as int)
            &&& !s.batching ==> keys.len() == 1
        },
        CallView::Wait => true,
    }
}

/// The next call from a queue without repetition carries the keys at the
/// queue's front.
proof fn lemma_batch_is_front(queue: Seq<KeyView>, batching: bool)
    requires
        queue.no_duplicates(),
        queue.len() > 0,
    ensures
        1 <= batch_of(queue, batching).len() <= queue.len(),
        batch_of(queue, batching) == queue.take(batch_of(queue, batching).len() as int),
        !batching ==> batch_of(queue, batching).len() == 1,
{
    if batching {
        assert(Seq::<KeyView>::empty() + queue =~= queue);
        lemma_fill_distinct(Seq::empty(), queue, BATCH_CAP as nat);
    } else {
        assert(batch_of(queue, batching) =~= queue.take(1));
    }
}

/// A rest of a sequence without repetition has none.
proof fn lemma_skip_distinct(queue: Seq<KeyView>, n: int)
    requires
        queue.no_duplicates(),
        0 <= n <= queue.len(),
    ensures
        queue.skip(n).no_duplicates(),
{
    assert forall|a: int, b: int|
        0 <= a < queue.skip(n).len() && 0 <= b < queue.skip(n).len() && a != b implies queue.skip(
        n,
    )[a] != queue.skip(n)[b] by {
        assert(queue.skip(n)[a] == queue[a + n] && queue.skip(n)[b] == queue[b + n]);
    }
}

/// One step of a draining state: the state stays draining, and what the
/// step sends is what leaves the front of its queue.
proof fn lemma_drain_step(s: SubView, event: PendingEvent, now_ms: u64)
    requires
        draining(s),
    ensures
        draining(pending_step(s, event, now_ms)),
        keys_made(s, event, true) + pending_step(s, event, now_ms).pending_add == s.pending_add,
        keys_made(s, event, false) + pending_step(s, event, now_ms).pending_remove
            == s.pending_remove,
        pending_step(s, event, now_ms).max_subs == s.max_subs,
        pending_step(s, event, now_ms).batching == s.batching,
{
    let settled = match event {
        PendingEvent::Tick => cycle_start(s, now_ms),
        PendingEvent::Done => call_made(s),
        PendingEvent::Failed => SubView { in_flight: CallView::Wait, ..s },
    };
    match event {
        PendingEvent::Tick => {
            assert(s.pending_add.skip(0) =~= s.pending_add);
        },
        PendingEvent::Done => {
            match s.in_flight {
                CallView::Subscribe(keys) => {
                    let k = keys.len() as int;
                    lemma_without_prefix(s.pending_add, k);
                    assert(s.pending_add.drop_first() =~= s.pending_add.skip(1));
                    assert(settled.pending_add == s.pending_add.skip(k));
                    lemma_skip_distinct(s.pending_add, k);
                    assert(keys + s.pending_add.skip(k) =~= s.pending_add);
                },
                CallView::Unsubscribe(keys) => {
                    let k = keys.len() as int;
                    lemma_without_prefix(s.pending_remove, k);
                    assert(s.pending_remove.drop_first() =~= s.pending_remove.skip(1));
                    assert(settled.pending_remove == s.pending_remove.skip(k));
                    lemma_skip_distinct(s.pending_remove, k);
                    assert(keys + s.pending_remove.skip(k) =~= s.pending_remove);
                },
                CallView::Wait => {},
            }
        },
        PendingEvent::Failed => {},
    }
    assert(Seq::<KeyView>::empty() + settled.pending_add =~= settled.pending_add);
    assert(Seq::<KeyView>::empty() + settled.pending_remove =~= settled.pending_remove);
    if !(event is Failed) {
        if settled.pending_add.len() > 0 {
            lemma_batch_is_front(settled.pending_add, settled.batching);
        }
        if settled.pending_remove.len() > 0 {
            lemma_batch_is_front(settled.pending_remove, settled.batching);
        }
    }
}

/// Draining, whatever the timing and however often a call fails: from a
/// draining state, the keys of the subscribe calls made so far, followed
/// by the keys still to be added, are the keys that were to be added at
/// the start, in their order; the same holds of the unsubscribe calls and
/// the keys to be removed. Once both queues are empty the calls have
/// carried exactly the keys of the two queues, each key once.
pub proof fn lemma_drain_trace(s: SubView, events: Seq<(PendingEvent, u64)>)
    requires
        draining(s),
    ensures
        draining(run(s, events)),
        keys_sent(s, events, true) + run(s, events).pending_add == s.pending_add,
        keys_sent(s, events, false) + run(s, events).pending_remove == s.pending_remove,
    decreases events.len(),
{
    if events.len() == 0 {
        assert(Seq::<KeyView>::empty() + s.pending_add =~= s.pending_add);
        assert(Seq::<KeyView>::empty() + s.pending_remove =~= s.pending_remove);
    } else {
        let before = events.drop_last();
        let last = events[events.len() - 1];
        lemma_drain_trace(s, before);
        let mid = run(s, before);
        lemma_drain_step(mid, last.0, last.1);
        let end = run(s, events);
        assert(keys_sent(s, events, true) + end.pending_add =~= keys_sent(s, before, true) + (
        keys_made(mid, last.0, true) + end.pending_add));
        assert(keys_sent(s, events, false) + end.pending_remove =~= keys_sent(s, before, false) + (
        keys_made(mid, last.0, false) + end.pending_remove));
    }
}

/// After a target is set on a state with nothing pending and nothing in
/// flight, and the queues have been emptied, the subscribe calls made have
/// carried exactly the keys that the target adds to the tracked set, and
/// the unsubscribe calls exactly the keys that it leaves out: the calls
/// describe the difference between the target and the tracked set. This
/// holds of a target that adds no more keys than `max_subs`; of more, the
/// oldest are dropped unsent.
pub proof fn lemma_target_calls(s: SubView, target: Seq<KeyView>, events: Seq<(PendingEvent, u64)>)
    requires
        s.pending_add.len() == 0,
        s.pending_remove.len() == 0,
        s.in_flight is Wait,
        s.current.no_duplicates(),
        target.no_duplicates(),
        without(target, s.current).len() <= s.max_subs,
        run(target_set(s, target), events).pending_add.len() == 0,
        run(target_set(s, target), events).pending_remove.len() == 0,
    ensures
        keys_sent(target_set(s, target), events, true) == without(target, s.current),
        keys_sent(target_set(s, target), events, false) == without(s.current, target),
        forall|k: KeyView|
            (#[trigger] keys_sent(target_set(s, target), events, true).contains(k) || keys_sent(
                target_set(s, target),
                events,
                false,
            ).contains(k)) <==> (target.contains(k) != s.current.contains(k)),
{
    let start = target_set(s, target);
    lemma_without(target, s.current);
    lemma_without(s.current, target);
    assert(s.pending_add + without(target, s.current) =~= without(target, s.current));
    assert(s.pending_remove + without(s.current, target) =~= without(s.current, target));
    lemma_drain_trace(start, events);
    let end = run(start, events);
    assert(keys_sent(start, events, true) + end.pending_add =~= keys_sent(start, events, true));
    assert(keys_sent(start, events, false) + end.pending_remove =~= keys_sent(
        start,
        events,
        false,
    ));
}

} // verus!
