//! Order-book replicas, one per `(market_id, outcome_id)`.

use vstd::prelude::*;
use crate::keys::{lemma_views_push, views, KeyView};
use crate::schema::{capped_view, first_n, side_order, snapshot_view, RowView, SnapshotRow};
use crate::ranking::arranged;
use crate::text::str_eq;
use crate::venue::OrderBookLevel;

verus! {

/// The replica of one book: the levels of the last update as they came,
/// with its time and sequence number.
pub struct BookState {
    pub market_id: String,
    pub outcome_id: String,
    pub last_update_ts: i64,
    pub bids: Vec<OrderBookLevel>,
    pub asks: Vec<OrderBookLevel>,
    pub sequence: i64,
}

/// The prices of `levels`, in order.
pub open spec fn prices_of(levels: Seq<OrderBookLevel>) -> Seq<i64> {
    levels.map_values(|l: OrderBookLevel| l.price)
}

/// The sizes of `levels`, in order.
pub open spec fn sizes_of(levels: Seq<OrderBookLevel>) -> Seq<i64> {
    levels.map_values(|l: OrderBookLevel| l.size)
}

/// The snapshot row of `book` for venue `venue` at the writer's clock
/// `ts_recv`.
pub open spec fn book_row(book: BookState, venue: Seq<char>, ts_recv: i64, source_ts: Option<i64>) -> RowView {
    snapshot_view(
        ts_recv,
        venue,
        book.market_id@,
        book.outcome_id@,
        book.sequence,
        prices_of(book.bids@),
        sizes_of(book.bids@),
        prices_of(book.asks@),
        sizes_of(book.asks@),
        source_ts,
    )
}

/// The prices and the sizes of `levels`, as two lists.
fn split_levels(levels: &Vec<OrderBookLevel>) -> (out: (Vec<i64>, Vec<i64>))
    ensures
        out.0@ == prices_of(levels@),
        out.1@ == sizes_of(levels@),
{
    let mut prices: Vec<i64> = Vec::new();
    let mut sizes: Vec<i64> = Vec::new();
    let mut i: usize = 0;
    while i < levels.len()
        invariant
            i <= levels.len(),
            prices.len() == i,
            sizes.len() == i,
            forall|j: int| 0 <= j < i ==> prices[j] == levels[j].price,
            forall|j: int| 0 <= j < i ==> sizes[j] == levels[j].size,
        decreases levels.len() - i,
    {
        prices.push(levels[i].price);
        sizes.push(levels[i].size);
        i += 1;
    }
    assert(prices@ =~= prices_of(levels@));
    assert(sizes@ =~= sizes_of(levels@));
    (prices, sizes)
}

impl BookState {
    /// An empty book that has seen no update.
    pub fn new(market_id: String, outcome_id: String) -> (out: BookState)
        ensures
            out.market_id == market_id,
            out.outcome_id == outcome_id,
            out.last_update_ts == 0,
            out.bids@ == Seq::<OrderBookLevel>::empty(),
            out.asks@ == Seq::<OrderBookLevel>::empty(),
            out.sequence == 0,
    {
        BookState {
            market_id,
            outcome_id,
            last_update_ts: 0,
            bids: Vec::new(),
            asks: Vec::new(),
            sequence: 0,
        }
    }

    /// Replaces the book by the levels of an update. The levels are stored
    /// as given, also where they cross.
    pub fn update(&mut self, bids: Vec<OrderBookLevel>, asks: Vec<OrderBookLevel>, ts: i64, seq: i64)
        ensures
            final(self).bids == bids,
            final(self).asks == asks,
            final(self).last_update_ts == ts,
            final(self).sequence == seq,
            final(self).market_id == old(self).market_id,
            final(self).outcome_id == old(self).outcome_id,
    {
        self.bids = bids;
        self.asks = asks;
        self.last_update_ts = ts;
        self.sequence = seq;
    }

    /// The snapshot row of the book as it stands, for the writer's clock
    /// `ts_recv`, with the `top_k` best levels of each side. The book is not
    /// changed.
    pub fn to_snapshot_row(
        &self,
        venue: &str,
        ts_recv: i64,
        source_ts: Option<i64>,
        top_k: usize,
    ) -> (row: SnapshotRow)
        ensures
            row@ == capped_view(book_row(*self, venue@, ts_recv, source_ts), top_k as nat),
            row.ts_recv == ts_recv,
            row.venue@ == venue@,
            row.market_id@ == self.market_id@,
            row.outcome_id@ == self.outcome_id@,
            row.seq == self.sequence,
            row.source_ts == source_ts,
            row.err@ == Seq::<char>::empty(),
            row.bid_px@ == first_n(
                arranged(prices_of(self.bids@), side_order(prices_of(self.bids@), true)),
                top_k as nat,
            ),
            row.bid_sz@ == first_n(
                arranged(sizes_of(self.bids@), side_order(prices_of(self.bids@), true)),
                top_k as nat,
            ),
            row.ask_px@ == first_n(
                arranged(prices_of(self.asks@), side_order(prices_of(self.asks@), false)),
                top_k as nat,
            ),
            row.ask_sz@ == first_n(
                arranged(sizes_of(self.asks@), side_order(prices_of(self.asks@), false)),
                top_k as nat,
            ),
            row.bid_px.len() <= top_k,
            row.ask_px.len() <= top_k,
            row.sides_sorted(),
            row.derived_consistent(),
            top_k >= 1 ==> row.best_is_first(),
    {
        let (bid_px, bid_sz) = split_levels(&self.bids);
        let (ask_px, ask_sz) = split_levels(&self.asks);
        SnapshotRow::with_top_k(
            ts_recv,
            venue.to_owned(),
            self.market_id.clone(),
            self.outcome_id.clone(),
            self.sequence,
            bid_px,
            bid_sz,
            ask_px,
            ask_sz,
            source_ts,
            top_k,
        )
    }
}

/// The replicas of a venue's books, by key. A key has one replica at most.
pub struct BookStore {
    keys: Vec<(String, String)>,
    books: Vec<BookState>,
}

impl BookStore {
    /// The keys that have a replica, in the order in which they were created.
    pub closed spec fn key_list(&self) -> Seq<KeyView> {
        views(self.keys@)
    }

    /// The replicas, each at the position of its key in `key_list`.
    pub closed spec fn book_list(&self) -> Seq<BookState> {
        self.books@
    }

    /// Each key stands once, with its replica.
    pub closed spec fn wf(&self) -> bool {
        &&& self.keys.len() == self.books.len()
        &&& views(self.keys@).no_duplicates()
    }

    /// The replica of `key`, if it has one.
    pub open spec fn book(&self, key: KeyView) -> Option<BookState> {
        if self.key_list().contains(key) {
            Some(self.book_list()[self.key_list().index_of(key)])
        } else {
            None
        }
    }

    /// What `wf` says, over `key_list` and `book_list`.
    pub proof fn lemma_wf(&self)
        requires
            self.wf(),
        ensures
            self.key_list().len() == self.book_list().len(),
            self.key_list().no_duplicates(),
    {
    }

    /// A store without replicas.
    pub fn new() -> (out: BookStore)
        ensures
            out.wf(),
            out.key_list() == Seq::<KeyView>::empty(),
            out.book_list() == Seq::<BookState>::empty(),
    {
        let out = BookStore { keys: Vec::new(), books: Vec::new() };
        assert(views(out.keys@) =~= Seq::<KeyView>::empty());
        out
    }

    /// The position of the key `(market_id, outcome_id)`.
    fn find(&self, market_id: &str, outcome_id: &str) -> (out: Option<usize>)
        requires
            self.wf(),
        ensures
            match out {
                Some(i) => {
                    &&& i < self.key_list().len()
                    &&& self.key_list()[i as int] == (market_id@, outcome_id@)
                    &&& self.key_list().contains((market_id@, outcome_id@))
                    &&& self.key_list().index_of((market_id@, outcome_id@)) == i
                },
                None => !self.key_list().contains((market_id@, outcome_id@)),
            },
    {
        let mut i: usize = 0;
        while i < self.keys.len()
            invariant
                self.wf(),
                i <= self.keys.len(),
                forall|j: int| 0 <= j < i ==> views(self.keys@)[j] != (market_id@, outcome_id@),
            decreases self.keys.len() - i,
        {
            if str_eq(self.keys[i].0.as_str(), market_id) && str_eq(
                self.keys[i].1.as_str(),
                outcome_id,
            ) {
                proof {
                    let list = views(self.keys@);
                    let key = (market_id@, outcome_id@);
                    assert(list[i as int] == key);
                    assert(list.contains(key));
                    let j = list.index_of(key);
                    assert(0 <= j < list.len() && list[j] == key);
                }
                return Some(i);
            }
            i += 1;
        }
        None
    }

    /// The replica of `(market_id, outcome_id)`, if it has one.
    pub fn get(&self, market_id: &str, outcome_id: &str) -> (out: Option<&BookState>)
        requires
            self.wf(),
        ensures
            out == match self.book((market_id@, outcome_id@)) {
                Some(b) => Some(&b),
                None => None,
            },
    {
        match self.find(market_id, outcome_id) {
            Some(i) => Some(&self.books[i]),
            None => None,
        }
    }

    /// The keys that have a replica, in the order in which they were created.
    pub fn keys(&self) -> (out: Vec<(String, String)>)
        requires
            self.wf(),
        ensures
            views(out@) == self.key_list(),
    {
        let mut out: Vec<(String, String)> = Vec::new();
        let mut i: usize = 0;
        while i < self.keys.len()
            invariant
                i <= self.keys.len(),
                views(out@) =~= views(self.keys@).take(i as int),
            decreases self.keys.len() - i,
        {
            let key = crate::keys::clone_key(&self.keys[i]);
            proof {
                lemma_views_push(out@, key);
                assert(views(self.keys@).take(i + 1) =~= views(self.keys@).take(i as int).push(
                    self.keys@[i as int]@,
                ));
            }
            out.push(key);
            i += 1;
        }
        assert(views(self.keys@).take(self.keys.len() as int) =~= views(self.keys@));
        out
    }

    /// The replica of `(market_id, outcome_id)`, created empty if the key had none.
    pub fn get_or_create(&mut self, market_id: String, outcome_id: String) -> (out: &mut BookState)
        requires
            old(self).wf(),
        ensures
            final(self).wf(),
            match old(self).book((market_id@, outcome_id@)) {
                Some(b) => {
                    &&& *out == b
                    &&& final(self).key_list() == old(self).key_list()
                    &&& final(self).book_list() == old(self).book_list().update(
                        old(self).key_list().index_of((market_id@, outcome_id@)),
                        *final(out),
                    )
                },
                None => {
                    &&& out.market_id == market_id
                    &&& out.outcome_id == outcome_id
                    &&& out.last_update_ts == 0
                    &&& out.sequence == 0
                    &&& out.bids@ == Seq::<OrderBookLevel>::empty()
                    &&& out.asks@ == Seq::<OrderBookLevel>::empty()
                    &&& final(self).key_list() == old(self).key_list().push(
                        (market_id@, outcome_id@),
                    )
                    &&& final(self).book_list() == old(self).book_list().push(*final(out))
                },
            },
    {
        let at = match self.find(market_id.as_str(), outcome_id.as_str()) {
            Some(i) => i,
            None => {
                let key = (market_id.clone(), outcome_id.clone());
                proof {
                    lemma_views_push(self.keys@, key);
                }
                self.keys.push(key);
                self.books.push(BookState::new(market_id, outcome_id));
                self.books.len() - 1
            },
        };
        &mut self.books[at]
    }

    /// The replica of `(market_id, outcome_id)`, to change it, if the key has one.
    pub fn get_mut(&mut self, market_id: &str, outcome_id: &str) -> (out: Option<&mut BookState>)
        requires
            old(self).wf(),
        ensures
            final(self).wf(),
            final(self).key_list() == old(self).key_list(),
            match old(self).book((market_id@, outcome_id@)) {
                Some(b) => {
                    &&& out is Some
                    &&& *out->0 == b
                    &&& final(self).book_list() == old(self).book_list().update(
                        old(self).key_list().index_of((market_id@, outcome_id@)),
                        *final(out->0),
                    )
                },
                None => out is None && final(self).book_list() == old(self).book_list(),
            },
    {
        match self.find(market_id, outcome_id) {
            Some(i) => Some(&mut self.books[i]),
            None => None,
        }
    }

    /// Forgets the replica of `(market_id, outcome_id)`, if the key has one.
    pub fn remove(&mut self, market_id: &str, outcome_id: &str)
        requires
            old(self).wf(),
        ensures
            final(self).wf(),
            match old(self).book((market_id@, outcome_id@)) {
                Some(_) => {
                    &&& final(self).key_list() == old(self).key_list().remove(
                        old(self).key_list().index_of((market_id@, outcome_id@)),
                    )
                    &&& final(self).book_list() == old(self).book_list().remove(
                        old(self).key_list().index_of((market_id@, outcome_id@)),
                    )
                },
                None => {
                    &&& final(self).key_list() == old(self).key_list()
                    &&& final(self).book_list() == old(self).book_list()
                },
            },
            final(self).book((market_id@, outcome_id@)) is None,
    {
        match self.find(market_id, outcome_id) {
            Some(i) => {
                let ghost before = views(self.keys@);
                self.keys.remove(i);
                self.books.remove(i);
                proof {
                    assert(views(self.keys@) =~= before.remove(i as int));
                    let after = views(self.keys@);
                    let key = (market_id@, outcome_id@);
                    assert forall|a: int, b: int|
                        0 <= a < after.len() && 0 <= b < after.len() && a != b implies after[a]
                        != after[b] by {
                        let a0 = if a < i { a } else { a + 1 };
                        let b0 = if b < i { b } else { b + 1 };
                        assert(after[a] == before[a0] && after[b] == before[b0]);
                    }
                    assert forall|a: int| 0 <= a < after.len() implies after[a] != key by {
                        let a0 = if a < i { a } else { a + 1 };
                        assert(after[a] == before[a0]);
                    }
                }
            },
            None => {},
        }
    }

    /// Applies an update to the replica of `(market_id, outcome_id)`, which
    /// is created if the key had none: afterwards the replica holds the
    /// levels, the time and the sequence number of the update. No other
    /// replica changes.
    pub fn update(
        &mut self,
        market_id: String,
        outcome_id: String,
        bids: Vec<OrderBookLevel>,
        asks: Vec<OrderBookLevel>,
        ts: i64,
        seq: i64,
    )
        requires
            old(self).wf(),
        ensures
            final(self).wf(),
            final(self).key_list() == if old(self).key_list().contains((market_id@, outcome_id@)) {
                old(self).key_list()
            } else {
                old(self).key_list().push((market_id@, outcome_id@))
            },
            final(self).key_list().contains((market_id@, outcome_id@)),
            final(self).book_list().len() == final(self).key_list().len(),
            forall|i: int|
                0 <= i < old(self).book_list().len() && old(self).key_list()[i] != (
                    market_id@,
                    outcome_id@,
                ) ==> final(self).book_list()[i] == old(self).book_list()[i],
            ({
                let b = final(self).book_list()[final(self).key_list().index_of(
                    (market_id@, outcome_id@),
                )];
                &&& b.bids == bids
                &&& b.asks == asks
                &&& b.last_update_ts == ts
                &&& b.sequence == seq
            }),
    {
        let ghost key = (market_id@, outcome_id@);
        let ghost found = self.key_list().contains(key);
        let ghost at = if found {
            self.key_list().index_of(key)
        } else {
            self.key_list().len() as int
        };
        let book = self.get_or_create(market_id, outcome_id);
        book.update(bids, asks, ts, seq);
        proof {
            let list = self.key_list();
            assert(list[at] == key);
            assert(list.contains(key));
            let j = list.index_of(key);
            assert(0 <= j < list.len() && list[j] == key);
            assert(j == at);
        }
    }

    /// The snapshot row of the replica of `(market_id, outcome_id)` as it
    /// stands, with the `top_k` best levels of each side, if the key has a
    /// replica. Nothing is changed.
    pub fn snapshot(
        &self,
        market_id: &str,
        outcome_id: &str,
        venue: &str,
        ts_recv: i64,
        source_ts: Option<i64>,
        top_k: usize,
    ) -> (out: Option<SnapshotRow>)
        requires
            self.wf(),
        ensures
            out is Some == self.book((market_id@, outcome_id@)) is Some,
            out matches Some(row) ==> {
                &&& row@ == capped_view(
                    book_row(self.book((market_id@, outcome_id@))->0, venue@, ts_recv, source_ts),
                    top_k as nat,
                )
                &&& row.ts_recv == ts_recv
                &&& row.seq == self.book((market_id@, outcome_id@))->0.sequence
                &&& row.source_ts == source_ts
                &&& row.bid_px.len() <= top_k
                &&& row.ask_px.len() <= top_k
                &&& row.sides_sorted()
                &&& row.derived_consistent()
            },
    {
        match self.get(market_id, outcome_id) {
            Some(book) => Some(book.to_snapshot_row(venue, ts_recv, source_ts, top_k)),
            None => None,
        }
    }
}

} // verus!
