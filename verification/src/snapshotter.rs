//! Dual-tier sampling: which books are due for a snapshot, and the rows
//! that they give.
//!
//! A book is sampled while its subscription key is in the HOT or in the
//! WARM set, at the interval of its tier. Where the venue subscribes by
//! token, the key of a book is looked up in a map from `(market, outcome)`
//! to token. Times are readings of one monotonic clock, in milliseconds.

use vstd::prelude::*;
use crate::book::{book_row, BookStore};
use crate::config::Config;
use crate::keys::{clone_key, KeyMap, KeySet, KeyView};
use crate::schema::{capped_view, SnapshotRow};
use crate::text::{decimal, push_decimal, str_eq};
use crate::venue::MarketInfo;

verus! {

/// The tier of a subscribed key.
#[derive(Clone, Copy, Debug, PartialEq, Eq, Structural)]
pub enum Tier {
    Hot,
    Warm,
}

/// The snapshotter's state as a mathematical value.
pub struct SnapView {
    pub venue: Seq<char>,
    /// Whether the venue subscribes by token.
    pub token_based: bool,
    pub top_k: nat,
    pub interval_hot_ms: u64,
    pub interval_warm_ms: u64,
    pub hot: Set<KeyView>,
    pub warm: Set<KeyView>,
    /// When each book is next due. A book without entry is due at once.
    pub next_sample_at: Map<KeyView, u64>,
    /// The token of each `(market, outcome)`.
    pub tokens: Map<KeyView, Seq<char>>,
}

/// The subscription key under which the book `key` is watched.
pub open spec fn feed_key(s: SnapView, key: KeyView) -> Option<KeyView> {
    if !s.token_based {
        Some(key)
    } else if s.tokens.dom().contains(key) {
        Some((s.tokens[key], Seq::<char>::empty()))
    } else {
        None
    }
}

/// The tier of the book `key`: HOT before WARM, none for a book that is
/// not subscribed.
pub open spec fn tier_of(s: SnapView, key: KeyView) -> Option<Tier> {
    match feed_key(s, key) {
        Some(fk) => if s.hot.contains(fk) {
            Some(Tier::Hot)
        } else if s.warm.contains(fk) {
            Some(Tier::Warm)
        } else {
            None
        },
        None => None,
    }
}

/// Whether the book `key` is sampled at `now_ms`: it has a tier and is due.
pub open spec fn samples(s: SnapView, key: KeyView, now_ms: u64) -> bool {
    tier_of(s, key) is Some && (!s.next_sample_at.dom().contains(key) || now_ms
        >= s.next_sample_at[key])
}

/// When a book of tier `tier` that is sampled at `now_ms` is due again.
pub open spec fn due_again(s: SnapView, tier: Tier, now_ms: u64) -> u64 {
    let interval = match tier {
        Tier::Hot => s.interval_hot_ms,
        Tier::Warm => s.interval_warm_ms,
    };
    if now_ms + interval > u64::MAX {
        u64::MAX
    } else {
        (now_ms + interval) as u64
    }
}

/// The books of `keys` that are sampled at `now_ms`, in order.
pub open spec fn sampled_keys(s: SnapView, keys: Seq<KeyView>, now_ms: u64) -> Seq<KeyView>
    decreases keys.len(),
{
    if keys.len() == 0 {
        Seq::empty()
    } else if samples(s, keys.last(), now_ms) {
        sampled_keys(s, keys.drop_last(), now_ms).push(keys.last())
    } else {
        sampled_keys(s, keys.drop_last(), now_ms)
    }
}

/// The due times after the books of `keys` were looked at, at `now_ms`.
pub open spec fn next_after(s: SnapView, keys: Seq<KeyView>, now_ms: u64) -> Map<KeyView, u64>
    decreases keys.len(),
{
    if keys.len() == 0 {
        s.next_sample_at
    } else if samples(s, keys.last(), now_ms) {
        next_after(s, keys.drop_last(), now_ms).insert(
            keys.last(),
            due_again(s, tier_of(s, keys.last())->0, now_ms),
        )
    } else {
        next_after(s, keys.drop_last(), now_ms)
    }
}

/// The name of outcome `i` of `market`: its outcome id, or the number `i`
/// where the market has fewer outcome ids than tokens.
pub open spec fn outcome_name(market: MarketInfo, i: int) -> Seq<char> {
    if i < market.outcome_ids.len() {
        market.outcome_ids[i]@
    } else {
        decimal(i as nat)
    }
}

/// `map` with the first `upto` tokens of `market`, each under the market's
/// id and the name of its outcome.
pub open spec fn market_tokens(map: Map<KeyView, Seq<char>>, market: MarketInfo, upto: int) -> Map<
    KeyView,
    Seq<char>,
>
    decreases upto,
{
    if upto <= 0 {
        map
    } else {
        market_tokens(map, market, upto - 1).insert(
            (market.market_id@, outcome_name(market, upto - 1)),
            market.token_ids[upto - 1]@,
        )
    }
}

/// The tokens of a universe, by `(market, outcome)`. Of two tokens under
/// one key the later stands.
pub open spec fn universe_tokens(markets: Seq<MarketInfo>) -> Map<KeyView, Seq<char>>
    decreases markets.len(),
{
    if markets.len() == 0 {
        Map::empty()
    } else {
        market_tokens(
            universe_tokens(markets.drop_last()),
            markets.last(),
            markets.last().token_ids.len() as int,
        )
    }
}

/// The texts of a map of strings.
pub open spec fn texts(map: Map<KeyView, String>) -> Map<KeyView, Seq<char>> {
    map.map_values(|t: String| t@)
}

/// The sampling state of one venue.
pub struct Snapshotter {
    venue_name: String,
    token_based: bool,
    top_k: usize,
    snapshot_interval_hot: u64,
    snapshot_interval_warm: u64,
    hot_set: KeySet,
    warm_set: KeySet,
    next_snapshot: KeyMap<u64>,
    market_to_token: KeyMap<String>,
}

impl View for Snapshotter {
    type V = SnapView;

    closed spec fn view(&self) -> SnapView {
        SnapView {
            venue: self.venue_name@,
            token_based: self.token_based,
            top_k: self.top_k as nat,
            interval_hot_ms: self.snapshot_interval_hot,
            interval_warm_ms: self.snapshot_interval_warm,
            hot: self.hot_set@,
            warm: self.warm_set@,
            next_sample_at: self.next_snapshot@,
            tokens: texts(self.market_to_token@),
        }
    }
}

impl Snapshotter {
    /// The sets and maps of the state are sound.
    pub closed spec fn wf(&self) -> bool {
        &&& self.hot_set.wf()
        &&& self.warm_set.wf()
        &&& self.next_snapshot.wf()
        &&& self.market_to_token.wf()
    }

    /// A snapshotter for venue `venue_name`, which must be configured, with
    /// empty tiers. The venue `polymarket` subscribes by token.
    pub fn new(config: &Config, venue_name: String) -> (out: Snapshotter)
        requires
            config.venues.section(venue_name@) is Some,
        ensures
            out.wf(),
            out@ == (SnapView {
                venue: venue_name@,
                token_based: venue_name@ == "polymarket"@,
                top_k: config.storage.top_k as nat,
                interval_hot_ms: config.venues.section(venue_name@)->0.snapshot_interval_ms_hot,
                interval_warm_ms: config.venues.section(venue_name@)->0.snapshot_interval_ms_warm,
                hot: Set::empty(),
                warm: Set::empty(),
                next_sample_at: Map::empty(),
                tokens: Map::empty(),
            }),
    {
        let (hot, warm) = match config.get_venue_config(venue_name.as_str()) {
            Some(cfg) => (cfg.snapshot_interval_ms_hot, cfg.snapshot_interval_ms_warm),
            None => (0, 0),
        };
        let token_based = str_eq(venue_name.as_str(), "polymarket");
        let out = Snapshotter {
            venue_name,
            token_based,
            top_k: config.storage.top_k,
            snapshot_interval_hot: hot,
            snapshot_interval_warm: warm,
            hot_set: KeySet::new(),
            warm_set: KeySet::new(),
            next_snapshot: KeyMap::new(),
            market_to_token: KeyMap::new(),
        };
        assert(texts(out.market_to_token@) =~= Map::<KeyView, Seq<char>>::empty());
        out
    }

    /// Replaces both tiers at once. Due times stay as they are: the entry of
    /// a book that left its tier is kept, and counts again when the book
    /// comes back.
    pub fn update_sets(&mut self, hot: KeySet, warm: KeySet)
        requires
            old(self).wf(),
            hot.wf(),
            warm.wf(),
        ensures
            final(self).wf(),
            final(self)@ == (SnapView { hot: hot@, warm: warm@, ..old(self)@ }),
    {
        self.hot_set = hot;
        self.warm_set = warm;
    }

    /// Whether the token map is wanted and still empty.
    pub fn needs_token_mapping(&self) -> (out: bool)
        requires
            self.wf(),
        ensures
            out == (self@.token_based && self@.tokens == Map::<KeyView, Seq<char>>::empty()),
    {
        let empty = self.market_to_token.is_empty();
        proof {
            if empty {
                assert(texts(self.market_to_token@) =~= Map::<KeyView, Seq<char>>::empty());
            } else {
                assert(self.market_to_token@.dom() =~= texts(self.market_to_token@).dom());
            }
        }
        self.token_based && empty
    }

    /// Fills the token map from the universe, once: only where the venue
    /// subscribes by token and the map is still empty.
    pub fn load_market_to_token_mapping(&mut self, universe: &[MarketInfo])
        requires
            old(self).wf(),
        ensures
            final(self).wf(),
            final(self)@ == (SnapView {
                tokens: if old(self)@.token_based && old(self)@.tokens == Map::<
                    KeyView,
                    Seq<char>,
                >::empty() {
                    universe_tokens(universe@)
                } else {
                    old(self)@.tokens
                },
                ..old(self)@
            }),
    {
        if !self.needs_token_mapping() {
            return ;
        }
        let mut m: usize = 0;
        assert(universe@.take(0) =~= Seq::<MarketInfo>::empty());
        while m < universe.len()
            invariant
                m <= universe.len(),
                self.wf(),
                self@ == (SnapView { tokens: universe_tokens(universe@.take(m as int)), ..old(self)@ }),
            decreases universe.len() - m,
        {
            let market = &universe[m];
            let ghost base = universe_tokens(universe@.take(m as int));
            let mut i: usize = 0;
            while i < market.token_ids.len()
                invariant
                    i <= market.token_ids.len(),
                    self.wf(),
                    self@ == (SnapView { tokens: market_tokens(base, *market, i as int), ..old(self)@ }),
                decreases market.token_ids.len() - i,
            {
                let outcome = if i < market.outcome_ids.len() {
                    market.outcome_ids[i].clone()
                } else {
                    let mut name = String::new();
                    push_decimal(&mut name, i as u64);
                    assert(name@ =~= decimal(i as nat));
                    name
                };
                let ghost before = self.market_to_token@;
                let token = market.token_ids[i].clone();
                self.market_to_token.insert((market.market_id.clone(), outcome), token);
                proof {
                    let key = (market.market_id@, outcome_name(*market, i as int));
                    assert(texts(before.insert(key, token)) =~= texts(before).insert(key, token@));
                }
                i += 1;
            }
            proof {
                assert(universe@.take(m + 1).drop_last() =~= universe@.take(m as int));
                assert(universe@.take(m + 1).last() == universe@[m as int]);
            }
            m += 1;
        }
        assert(universe@.take(universe.len() as int) =~= universe@);
    }

    /// When the book `key` is next due, if it was ever sampled.
    pub fn next_due(&self, key: &(String, String)) -> (out: Option<u64>)
        requires
            self.wf(),
        ensures
            out == if self@.next_sample_at.dom().contains(key@) {
                Some(self@.next_sample_at[key@])
            } else {
                None
            },
    {
        match self.next_snapshot.get(key) {
            Some(at) => Some(*at),
            None => None,
        }
    }

    /// The tier of the book `key`.
    pub fn tier(&self, key: &(String, String)) -> (out: Option<Tier>)
        requires
            self.wf(),
        ensures
            out == tier_of(self@, key@),
    {
        if self.token_based {
            match self.market_to_token.get(key) {
                Some(token) => {
                    let fk = (token.clone(), String::new());
                    self.tier_of_feed_key(&fk)
                },
                None => None,
            }
        } else {
            self.tier_of_feed_key(key)
        }
    }

    /// The tier of a subscription key.
    fn tier_of_feed_key(&self, fk: &(String, String)) -> (out: Option<Tier>)
        requires
            self.wf(),
        ensures
            out == if self.hot_set@.contains(fk@) {
                Some(Tier::Hot)
            } else if self.warm_set@.contains(fk@) {
                Some(Tier::Warm)
            } else {
                None
            },
    {
        if self.hot_set.contains(fk) {
            Some(Tier::Hot)
        } else if self.warm_set.contains(fk) {
            Some(Tier::Warm)
        } else {
            None
        }
    }

    /// The row of the book `key` at `now_ms`, if the book has a tier, is due
    /// and has a replica in `store`; made for the writer's clock `ts_recv` and
    /// cut down to `top_k` levels a side. Nothing is changed: the book stays
    /// due until `mark_sampled` is called for it.
    pub fn sample_key(&self, store: &BookStore, key: &(String, String), now_ms: u64, ts_recv: i64) -> (out:
        Option<SnapshotRow>)
        requires
            self.wf(),
            store.wf(),
        ensures
            out is Some == (samples(self@, key@, now_ms) && store.book(key@) is Some),
            out matches Some(row) ==> row@ == capped_view(
                book_row(store.book(key@)->0, self@.venue, ts_recv, None),
                self@.top_k,
            ),
    {
        let due = match self.next_snapshot.get(key) {
            Some(next) => now_ms >= *next,
            None => true,
        };
        if !due || self.tier(key).is_none() {
            return None;
        }
        store.snapshot(
            key.0.as_str(),
            key.1.as_str(),
            self.venue_name.as_str(),
            ts_recv,
            None,
            self.top_k,
        )
    }

    /// Notes that the book `key` was sampled at `now_ms`: a book with a tier
    /// is due again one interval of its tier later. A book without a tier is
    /// left as it is.
    pub fn mark_sampled(&mut self, key: &(String, String), now_ms: u64)
        requires
            old(self).wf(),
        ensures
            final(self).wf(),
            final(self)@ == (SnapView {
                next_sample_at: match tier_of(old(self)@, key@) {
                    Some(tier) => old(self)@.next_sample_at.insert(
                        key@,
                        due_again(old(self)@, tier, now_ms),
                    ),
                    None => old(self)@.next_sample_at,
                },
                ..old(self)@
            }),
    {
        match self.tier(key) {
            Some(tier) => {
                let interval = match tier {
                    Tier::Hot => self.snapshot_interval_hot,
                    Tier::Warm => self.snapshot_interval_warm,
                };
                let again = if interval > u64::MAX - now_ms {
                    u64::MAX
                } else {
                    now_ms + interval
                };
                self.next_snapshot.insert(clone_key(key), again);
            },
            None => {},
        }
    }

    /// Samples the books of `store` at `now_ms`. Each book that has a tier
    /// and is due gives one row, made for the writer's clock `ts_recv` and
    /// cut down to `top_k` levels a side, and is due again one interval of
    /// its tier later. The rows come in the order of the store's keys.
    pub fn take_snapshots(&mut self, store: &BookStore, now_ms: u64, ts_recv: i64) -> (rows: Vec<
        SnapshotRow,
    >)
        requires
            old(self).wf(),
            store.wf(),
        ensures
            final(self).wf(),
            final(self)@ == (SnapView {
                next_sample_at: next_after(old(self)@, store.key_list(), now_ms),
                ..old(self)@
            }),
            rows.len() == sampled_keys(old(self)@, store.key_list(), now_ms).len(),
            forall|j: int|
                0 <= j < rows.len() ==> (#[trigger] rows[j])@ == capped_view(
                    book_row(
                        store.book(sampled_keys(old(self)@, store.key_list(), now_ms)[j])->0,
                        old(self)@.venue,
                        ts_recv,
                        None,
                    ),
                    old(self)@.top_k,
                ),
    {
        let keys = store.keys();
        let ghost start = self@;
        let ghost list = store.key_list();
        proof {
            store.lemma_wf();
            assert(list.take(0) =~= Seq::<KeyView>::empty());
        }
        let mut rows: Vec<SnapshotRow> = Vec::new();
        let mut i: usize = 0;
        while i < keys.len()
            invariant
                i <= keys.len(),
                self.wf(),
                store.wf(),
                list == store.key_list(),
                list == crate::keys::views(keys@),
                list.no_duplicates(),
                start.top_k == self.top_k,
                start.venue == self.venue_name@,
                self@ == (SnapView {
                    next_sample_at: next_after(start, list.take(i as int), now_ms),
                    ..start
                }),
                rows.len() == sampled_keys(start, list.take(i as int), now_ms).len(),
                forall|j: int|
                    0 <= j < rows.len() ==> (#[trigger] rows[j])@ == capped_view(
                        book_row(
                            store.book(sampled_keys(start, list.take(i as int), now_ms)[j])->0,
                            start.venue,
                            ts_recv,
                            None,
                        ),
                        start.top_k,
                    ),
            decreases keys.len() - i,
        {
            let key = &keys[i];
            proof {
                assert(list.take(i + 1).drop_last() =~= list.take(i as int));
                assert(list.take(i + 1).last() == list[i as int]);
                assert(key@ == list[i as int]);
                assert(!list.take(i as int).contains(key@)) by {
                    if list.take(i as int).contains(key@) {
                        let j = choose|j: int| 0 <= j < i && list.take(i as int)[j] == key@;
                        assert(list[j] == list[i as int]);
                    }
                }
                lemma_next_untouched(start, list.take(i as int), now_ms, key@);
            }
            let tier = self.tier(key);
            let due = match self.next_snapshot.get(key) {
                Some(next) => now_ms >= *next,
                None => true,
            };
            assert((tier is Some && due) == samples(start, key@, now_ms));
            match tier {
                Some(t) => {
                    if due {
                        assert(list.contains(key@));
                        let book = store.get(key.0.as_str(), key.1.as_str()).unwrap();
                        let row = book.to_snapshot_row(
                            self.venue_name.as_str(),
                            ts_recv,
                            None,
                            self.top_k,
                        );
                        let ghost before = sampled_keys(start, list.take(i as int), now_ms);
                        rows.push(row);
                        let interval = match t {
                            Tier::Hot => self.snapshot_interval_hot,
                            Tier::Warm => self.snapshot_interval_warm,
                        };
                        let again = if interval > u64::MAX - now_ms {
                            u64::MAX
                        } else {
                            now_ms + interval
                        };
                        self.next_snapshot.insert(clone_key(key), again);
                        proof {
                            let after = sampled_keys(start, list.take(i + 1), now_ms);
                            assert(after == before.push(key@));
                            assert forall|j: int| 0 <= j < rows.len() implies (#[trigger] rows[j])@
                                == capped_view(
                                book_row(store.book(after[j])->0, start.venue, ts_recv, None),
                                start.top_k,
                            ) by {
                                if j < before.len() {
                                    assert(after[j] == before[j]);
                                }
                            }
                        }
                    }
                },
                None => {},
            }
            i += 1;
        }
        assert(list.take(keys.len() as int) =~= list);
        rows
    }
}

/// After a round of sampling over books that are listed once each, a
/// book that was sampled is due again one interval of its tier later, and
/// the due time of every other book is as it was.
pub proof fn lemma_due_after_round(s: SnapView, keys: Seq<KeyView>, now_ms: u64, key: KeyView)
    requires
        keys.no_duplicates(),
    ensures
        keys.contains(key) && samples(s, key, now_ms) ==> next_after(
            s,
            keys,
            now_ms,
        ).dom().contains(key) && next_after(s, keys, now_ms)[key] == due_again(
            s,
            tier_of(s, key)->0,
            now_ms,
        ),
        !(keys.contains(key) && samples(s, key, now_ms)) ==> next_after(
            s,
            keys,
            now_ms,
        ).dom().contains(key) == s.next_sample_at.dom().contains(key) && next_after(
            s,
            keys,
            now_ms,
        )[key] == s.next_sample_at[key],
        sampled_keys(s, keys, now_ms).contains(key) <==> keys.contains(key) && samples(
            s,
            key,
            now_ms,
        ),
    decreases keys.len(),
{
    if keys.len() > 0 {
        let rest = keys.drop_last();
        let last = keys.last();
        assert(keys[keys.len() - 1] == last);
        assert(rest.no_duplicates());
        lemma_due_after_round(s, rest, now_ms, key);
        assert(keys.contains(key) <==> rest.contains(key) || key == last) by {
            if rest.contains(key) {
                let j = choose|j: int| 0 <= j < rest.len() && rest[j] == key;
                assert(keys[j] == key);
            }
            if keys.contains(key) {
                let j = choose|j: int| 0 <= j < keys.len() && keys[j] == key;
                if j < rest.len() {
                    assert(rest[j] == key);
                }
            }
        }
        assert(!rest.contains(last)) by {
            if rest.contains(last) {
                let j = choose|j: int| 0 <= j < rest.len() && rest[j] == last;
                assert(keys[j] == keys[keys.len() - 1]);
            }
        }
        let before = sampled_keys(s, rest, now_ms);
        if samples(s, last, now_ms) {
            let all = before.push(last);
            assert(all.contains(key) <==> before.contains(key) || key == last) by {
                if before.contains(key) {
                    let j = choose|j: int| 0 <= j < before.len() && before[j] == key;
                    assert(all[j] == key);
                }
                if all.contains(key) {
                    let j = choose|j: int| 0 <= j < all.len() && all[j] == key;
                    if j < before.len() {
                        assert(before[j] == key);
                    }
                }
                assert(all[before.len() as int] == last);
            }
        }
    }
}

/// One row per interval. A book that was sampled in a round at `now_ms`
/// is sampled again, while its tier stays, exactly in the rounds from one
/// interval of its tier later: two rows of one book are an interval apart
/// or more, and the first round after the interval gives the next row.
pub proof fn lemma_sampled_once_per_interval(
    s: SnapView,
    keys: Seq<KeyView>,
    now_ms: u64,
    key: KeyView,
    later: u64,
)
    requires
        keys.no_duplicates(),
        keys.contains(key),
        samples(s, key, now_ms),
    ensures
        samples(
            SnapView { next_sample_at: next_after(s, keys, now_ms), ..s },
            key,
            later,
        ) == (later >= due_again(s, tier_of(s, key)->0, now_ms)),
{
    lemma_due_after_round(s, keys, now_ms, key);
    let t = SnapView { next_sample_at: next_after(s, keys, now_ms), ..s };
    assert(tier_of(t, key) == tier_of(s, key));
}

/// Looking at books other than `key` leaves the due time of `key` alone.
proof fn lemma_next_untouched(s: SnapView, keys: Seq<KeyView>, now_ms: u64, key: KeyView)
    requires
        !keys.contains(key),
    ensures
        next_after(s, keys, now_ms).dom().contains(key) == s.next_sample_at.dom().contains(key),
        next_after(s, keys, now_ms)[key] == s.next_sample_at[key],
    decreases keys.len(),
{
    if keys.len() > 0 {
        assert(keys[keys.len() - 1] == keys.last());
        assert(!keys.drop_last().contains(key)) by {
            if keys.drop_last().contains(key) {
                let j = choose|j: int| 0 <= j < keys.drop_last().len() && keys.drop_last()[j] == key;
                assert(keys[j] == key);
            }
        }
        lemma_next_untouched(s, keys.drop_last(), now_ms, key);
    }
}

} // verus!
