//! The normalized snapshot row.
//!
//! Prices and sizes are fixed-point numbers in millionths. A side without
//! quotes has no best price; the row then has no mid and no spread.

use vstd::prelude::*;
use vstd::string::StringExecFns;
use crate::ranking::{arranged, is_stable_order, precedes, ranking, stable_order};

verus! {

/// One snapshot of one book: bids best first (price descending), asks best
/// first (price ascending), and what follows from the best of each side.
pub struct SnapshotRow {
    pub ts_recv: i64,
    pub venue: String,
    pub market_id: String,
    pub outcome_id: String,
    pub seq: i64,
    pub best_bid_px: Option<i64>,
    pub best_bid_sz: i64,
    pub best_ask_px: Option<i64>,
    pub best_ask_sz: i64,
    /// Half the sum of the best prices, rounded down.
    pub mid: Option<i64>,
    /// Best ask less best bid.
    pub spread: Option<i128>,
    pub bid_px: Vec<i64>,
    pub bid_sz: Vec<i64>,
    pub ask_px: Vec<i64>,
    pub ask_sz: Vec<i64>,
    /// `ok`, `partial` or `empty`.
    pub status: String,
    pub err: String,
    pub source_ts: Option<i64>,
}

/// A snapshot row as a mathematical value.
pub struct RowView {
    pub ts_recv: i64,
    pub venue: Seq<char>,
    pub market_id: Seq<char>,
    pub outcome_id: Seq<char>,
    pub seq: i64,
    pub best_bid_px: Option<i64>,
    pub best_bid_sz: i64,
    pub best_ask_px: Option<i64>,
    pub best_ask_sz: i64,
    pub mid: Option<i64>,
    pub spread: Option<i128>,
    pub bid_px: Seq<i64>,
    pub bid_sz: Seq<i64>,
    pub ask_px: Seq<i64>,
    pub ask_sz: Seq<i64>,
    pub status: Seq<char>,
    pub err: Seq<char>,
    pub source_ts: Option<i64>,
}

impl View for SnapshotRow {
    type V = RowView;

    open spec fn view(&self) -> RowView {
        RowView {
            ts_recv: self.ts_recv,
            venue: self.venue@,
            market_id: self.market_id@,
            outcome_id: self.outcome_id@,
            seq: self.seq,
            best_bid_px: self.best_bid_px,
            best_bid_sz: self.best_bid_sz,
            best_ask_px: self.best_ask_px,
            best_ask_sz: self.best_ask_sz,
            mid: self.mid,
            spread: self.spread,
            bid_px: self.bid_px@,
            bid_sz: self.bid_sz@,
            ask_px: self.ask_px@,
            ask_sz: self.ask_sz@,
            status: self.status@,
            err: self.err@,
            source_ts: self.source_ts,
        }
    }
}

/// The row of a book whose levels came as `bid_px`, `bid_sz`, `ask_px` and
/// `ask_sz`: each side sorted, best first, and from the best of each side
/// the mid, the spread and the status.
pub open spec fn snapshot_view(
    ts_recv: i64,
    venue: Seq<char>,
    market_id: Seq<char>,
    outcome_id: Seq<char>,
    seq: i64,
    bid_px: Seq<i64>,
    bid_sz: Seq<i64>,
    ask_px: Seq<i64>,
    ask_sz: Seq<i64>,
    source_ts: Option<i64>,
) -> RowView {
    let bids = arranged(bid_px, side_order(bid_px, true));
    let asks = arranged(ask_px, side_order(ask_px, false));
    let bid_sizes = arranged(bid_sz, side_order(bid_px, true));
    let ask_sizes = arranged(ask_sz, side_order(ask_px, false));
    let has_bid = bid_px.len() > 0;
    let has_ask = ask_px.len() > 0;
    RowView {
        ts_recv,
        venue,
        market_id,
        outcome_id,
        seq,
        best_bid_px: if has_bid {
            Some(bids[0])
        } else {
            None
        },
        best_bid_sz: if has_bid {
            bid_sizes[0]
        } else {
            0
        },
        best_ask_px: if has_ask {
            Some(asks[0])
        } else {
            None
        },
        best_ask_sz: if has_ask {
            ask_sizes[0]
        } else {
            0
        },
        mid: if has_bid && has_ask {
            Some(((bids[0] + asks[0]) / 2) as i64)
        } else {
            None
        },
        spread: if has_bid && has_ask {
            Some((asks[0] - bids[0]) as i128)
        } else {
            None
        },
        bid_px: bids,
        bid_sz: bid_sizes,
        ask_px: asks,
        ask_sz: ask_sizes,
        status: status_text(has_bid, has_ask),
        err: Seq::empty(),
        source_ts,
    }
}

/// The first `n` items of `list`, or all of it where it has no more.
pub open spec fn first_n<T>(list: Seq<T>, n: nat) -> Seq<T> {
    if list.len() > n {
        list.take(n as int)
    } else {
        list
    }
}

/// A row with each side cut down to its `top_k` best levels.
pub open spec fn capped_view(row: RowView, top_k: nat) -> RowView {
    RowView {
        bid_px: first_n(row.bid_px, top_k),
        bid_sz: if row.bid_px.len() > top_k {
            first_n(row.bid_sz, top_k)
        } else {
            row.bid_sz
        },
        ask_px: first_n(row.ask_px, top_k),
        ask_sz: if row.ask_px.len() > top_k {
            first_n(row.ask_sz, top_k)
        } else {
            row.ask_sz
        },
        ..row
    }
}

/// The prices of a side as sorting keys.
pub open spec fn price_keys(prices: Seq<i64>) -> Seq<i128> {
    prices.map_values(|p: i64| p as i128)
}

/// The order in which the levels of a side are listed: by price, bids
/// descending and asks ascending, levels of one price as they came.
pub open spec fn side_order(prices: Seq<i64>, descending: bool) -> Seq<usize> {
    ranking(price_keys(prices), descending)
}

/// The levels of a side, each as its price and its size.
pub open spec fn levels_of(prices: Seq<i64>, sizes: Seq<i64>) -> Seq<(i64, i64)> {
    Seq::new(prices.len(), |i: int| (prices[i], sizes[i]))
}

/// The side of a row as it is listed, before any cut: as many prices as
/// sizes; the best price first, bids descending and asks ascending; and
/// the levels that came, each as often as it came, so that each price
/// still has its own size.
pub proof fn lemma_side_levels(prices: Seq<i64>, sizes: Seq<i64>, descending: bool)
    requires
        prices.len() == sizes.len() <= usize::MAX,
    ensures
        arranged(prices, side_order(prices, descending)).len() == prices.len(),
        arranged(sizes, side_order(prices, descending)).len() == prices.len(),
        forall|i: int, j: int|
            0 <= i < j < prices.len() ==> if descending {
                arranged(prices, side_order(prices, descending))[i] >= arranged(
                    prices,
                    side_order(prices, descending),
                )[j]
            } else {
                arranged(prices, side_order(prices, descending))[i] <= arranged(
                    prices,
                    side_order(prices, descending),
                )[j]
            },
        levels_of(
            arranged(prices, side_order(prices, descending)),
            arranged(sizes, side_order(prices, descending)),
        ).to_multiset() == levels_of(prices, sizes).to_multiset(),
{
    let keys = price_keys(prices);
    let order = side_order(prices, descending);
    crate::ranking::lemma_ranking_exists(keys, descending);
    crate::ranking::lemma_key_order(keys, descending);
    crate::ranking::lemma_rank_no_duplicates(
        crate::ranking::key_order(keys, descending),
        keys.len() as int,
        order,
    );
    assert forall|i: int, j: int| 0 <= i < j < prices.len() implies if descending {
        arranged(prices, order)[i] >= arranged(prices, order)[j]
    } else {
        arranged(prices, order)[i] <= arranged(prices, order)[j]
    } by {
        assert(precedes(keys, descending, order[i] as int, order[j] as int));
    }
    crate::ranking::lemma_arranged_same_items(levels_of(prices, sizes), order);
    assert(levels_of(arranged(prices, order), arranged(sizes, order)) =~= arranged(
        levels_of(prices, sizes),
        order,
    ));
}

/// What a cut to `top_k` levels keeps of a sorted side is at least as good
/// as what it drops: the cut takes levels away from the far end only.
pub proof fn lemma_cut_keeps_best(sorted: Seq<i64>, descending: bool, top_k: nat, i: int, j: int)
    requires
        forall|a: int, b: int|
            0 <= a < b < sorted.len() ==> if descending {
                sorted[a] >= sorted[b]
            } else {
                sorted[a] <= sorted[b]
            },
        0 <= i < first_n(sorted, top_k).len() <= j < sorted.len(),
    ensures
        first_n(sorted, top_k)[i] == sorted[i],
        if descending {
            sorted[i] >= sorted[j]
        } else {
            sorted[i] <= sorted[j]
        },
{
}

/// The status of a book with these sides.
pub open spec fn status_text(has_bid: bool, has_ask: bool) -> Seq<char> {
    if has_bid && has_ask {
        "ok"@
    } else if has_bid || has_ask {
        "partial"@
    } else {
        "empty"@
    }
}

/// The three status texts differ.
pub proof fn lemma_status_texts()
    ensures
        "ok"@ != "partial"@,
        "ok"@ != "empty"@,
        "partial"@ != "empty"@,
{
    reveal_strlit("ok");
    reveal_strlit("partial");
    reveal_strlit("empty");
    assert("ok"@.len() == 2);
    assert("partial"@.len() == 7);
    assert("empty"@.len() == 5);
}

/// The values of `values` at the positions `order`, in that order.
fn gather(values: &Vec<i64>, order: &Vec<usize>) -> (out: Vec<i64>)
    requires
        forall|j: int| 0 <= j < order.len() ==> (#[trigger] order[j]) < values.len(),
    ensures
        out@ == arranged(values@, order@),
{
    let mut out: Vec<i64> = Vec::new();
    let mut i: usize = 0;
    while i < order.len()
        invariant
            i <= order.len(),
            out.len() == i,
            forall|j: int| 0 <= j < order.len() ==> (#[trigger] order[j]) < values.len(),
            forall|j: int| 0 <= j < i ==> out[j] == values[order[j] as int],
        decreases order.len() - i,
    {
        out.push(values[order[i]]);
        i += 1;
    }
    assert(out@ =~= arranged(values@, order@));
    out
}

/// Ranks the levels of a side by price.
fn order_side(prices: &Vec<i64>, descending: bool) -> (order: Vec<usize>)
    ensures
        order@ == side_order(prices@, descending),
        is_stable_order(price_keys(prices@), descending, order@),
        order.len() == prices.len(),
{
    let mut keys: Vec<i128> = Vec::new();
    let mut i: usize = 0;
    while i < prices.len()
        invariant
            i <= prices.len(),
            keys.len() == i,
            forall|j: int| 0 <= j < i ==> keys[j] == prices[j] as i128,
        decreases prices.len() - i,
    {
        keys.push(prices[i] as i128);
        i += 1;
    }
    assert(keys@ =~= price_keys(prices@));
    stable_order(&keys, descending)
}

/// Half of `sum`, rounded down.
fn half(sum: i128) -> (out: i128)
    requires
        -0x1_0000_0000_0000_0000 <= sum <= 0x1_0000_0000_0000_0000,
    ensures
        out == sum / 2,
{
    if sum >= 0 {
        sum / 2
    } else {
        -((1 - sum) / 2)
    }
}

impl SnapshotRow {
    /// The lists of each side are of one length; bids are listed by
    /// descending and asks by ascending price.
    pub open spec fn sides_sorted(&self) -> bool {
        &&& self.bid_px.len() == self.bid_sz.len()
        &&& self.ask_px.len() == self.ask_sz.len()
        &&& forall|i: int, j: int| 0 <= i < j < self.bid_px.len() ==> self.bid_px[i] >= self.bid_px[j]
        &&& forall|i: int, j: int| 0 <= i < j < self.ask_px.len() ==> self.ask_px[i] <= self.ask_px[j]
    }

    /// The status is `ok` exactly when both sides have a best price, and then
    /// mid and spread are those of the two best prices; else there is no
    /// mid and no spread, and the status tells whether one side has quotes
    /// or none.
    pub open spec fn derived_consistent(&self) -> bool {
        &&& self.status@ == status_text(self.best_bid_px is Some, self.best_ask_px is Some)
        &&& (self.status@ == "ok"@) == (self.best_bid_px is Some && self.best_ask_px is Some)
        &&& match (self.best_bid_px, self.best_ask_px) {
            (Some(bid), Some(ask)) => {
                &&& self.mid == Some(((bid + ask) / 2) as i64)
                &&& self.spread == Some((ask - bid) as i128)
            },
            _ => self.mid is None && self.spread is None,
        }
    }

    /// The best of each side is the first of its lists.
    pub open spec fn best_is_first(&self) -> bool {
        &&& self.best_bid_px == if self.bid_px.len() > 0 {
            Some(self.bid_px[0])
        } else {
            None
        }
        &&& self.best_ask_px == if self.ask_px.len() > 0 {
            Some(self.ask_px[0])
        } else {
            None
        }
        &&& self.best_bid_sz == if self.bid_px.len() > 0 && self.bid_sz.len() > 0 {
            self.bid_sz[0]
        } else {
            0
        }
        &&& self.best_ask_sz == if self.ask_px.len() > 0 && self.ask_sz.len() > 0 {
            self.ask_sz[0]
        } else {
            0
        }
    }

    /// Builds the row of a book from its levels as they came: `bid_px[i]` with
    /// `bid_sz[i]` is one bid, `ask_px[i]` with `ask_sz[i]` one ask. Each side
    /// is sorted by price, best first, and levels of one price keep their
    /// order. A crossed book is kept as it is. Every level is kept:
    /// `with_top_k` builds the row with the best levels only.
    pub fn new(
        ts_recv: i64,
        venue: String,
        market_id: String,
        outcome_id: String,
        seq: i64,
        bid_px: Vec<i64>,
        bid_sz: Vec<i64>,
        ask_px: Vec<i64>,
        ask_sz: Vec<i64>,
        source_ts: Option<i64>,
    ) -> (row: SnapshotRow)
        requires
            bid_px.len() <= bid_sz.len(),
            ask_px.len() <= ask_sz.len(),
        ensures
            row@ == snapshot_view(
                ts_recv,
                venue@,
                market_id@,
                outcome_id@,
                seq,
                bid_px@,
                bid_sz@,
                ask_px@,
                ask_sz@,
                source_ts,
            ),
            row.ts_recv == ts_recv,
            row.venue == venue,
            row.market_id == market_id,
            row.outcome_id == outcome_id,
            row.seq == seq,
            row.source_ts == source_ts,
            row.err@ == Seq::<char>::empty(),
            row.bid_px@ == arranged(bid_px@, side_order(bid_px@, true)),
            row.bid_sz@ == arranged(bid_sz@, side_order(bid_px@, true)),
            row.ask_px@ == arranged(ask_px@, side_order(ask_px@, false)),
            row.ask_sz@ == arranged(ask_sz@, side_order(ask_px@, false)),
            row.bid_px.len() == bid_px.len(),
            row.ask_px.len() == ask_px.len(),
            row.sides_sorted(),
            row.best_is_first(),
            row.derived_consistent(),
    {
        let bid_order = order_side(&bid_px, true);
        let ask_order = order_side(&ask_px, false);
        let sorted_bid_px = gather(&bid_px, &bid_order);
        let sorted_bid_sz = gather(&bid_sz, &bid_order);
        let sorted_ask_px = gather(&ask_px, &ask_order);
        let sorted_ask_sz = gather(&ask_sz, &ask_order);
        proof {
            lemma_status_texts();
            assert forall|i: int, j: int| 0 <= i < j < sorted_bid_px.len() implies sorted_bid_px[i]
                >= sorted_bid_px[j] by {
                assert(precedes(
                    price_keys(bid_px@),
                    true,
                    bid_order[i] as int,
                    bid_order[j] as int,
                ));
            }
            assert forall|i: int, j: int| 0 <= i < j < sorted_ask_px.len() implies sorted_ask_px[i]
                <= sorted_ask_px[j] by {
                assert(precedes(
                    price_keys(ask_px@),
                    false,
                    ask_order[i] as int,
                    ask_order[j] as int,
                ));
            }
        }
        let best_bid_px = if sorted_bid_px.len() > 0 {
            Some(sorted_bid_px[0])
        } else {
            None
        };
        let best_bid_sz = if sorted_bid_px.len() > 0 {
            sorted_bid_sz[0]
        } else {
            0
        };
        let best_ask_px = if sorted_ask_px.len() > 0 {
            Some(sorted_ask_px[0])
        } else {
            None
        };
        let best_ask_sz = if sorted_ask_px.len() > 0 {
            sorted_ask_sz[0]
        } else {
            0
        };
        let (mid, spread, status) = match (best_bid_px, best_ask_px) {
            (Some(bid), Some(ask)) => {
                let mid = half(bid as i128 + ask as i128) as i64;
                let spread = ask as i128 - bid as i128;
                (Some(mid), Some(spread), String::from_str("ok"))
            },
            (Some(_), None) => (None, None, String::from_str("partial")),
            (None, Some(_)) => (None, None, String::from_str("partial")),
            (None, None) => (None, None, String::from_str("empty")),
        };
        SnapshotRow {
            ts_recv,
            venue,
            market_id,
            outcome_id,
            seq,
            best_bid_px,
            best_bid_sz,
            best_ask_px,
            best_ask_sz,
            mid,
            spread,
            bid_px: sorted_bid_px,
            bid_sz: sorted_bid_sz,
            ask_px: sorted_ask_px,
            ask_sz: sorted_ask_sz,
            status,
            err: String::new(),
            source_ts,
        }
    }

    /// Builds the row of a book as `new` does, and keeps of each side its
    /// `top_k` best levels only. The best prices, mid, spread and status are
    /// those of the whole book.
    pub fn with_top_k(
        ts_recv: i64,
        venue: String,
        market_id: String,
        outcome_id: String,
        seq: i64,
        bid_px: Vec<i64>,
        bid_sz: Vec<i64>,
        ask_px: Vec<i64>,
        ask_sz: Vec<i64>,
        source_ts: Option<i64>,
        top_k: usize,
    ) -> (row: SnapshotRow)
        requires
            bid_px.len() <= bid_sz.len(),
            ask_px.len() <= ask_sz.len(),
        ensures
            row@ == capped_view(
                snapshot_view(
                    ts_recv,
                    venue@,
                    market_id@,
                    outcome_id@,
                    seq,
                    bid_px@,
                    bid_sz@,
                    ask_px@,
                    ask_sz@,
                    source_ts,
                ),
                top_k as nat,
            ),
            row.ts_recv == ts_recv,
            row.venue == venue,
            row.market_id == market_id,
            row.outcome_id == outcome_id,
            row.seq == seq,
            row.source_ts == source_ts,
            row.err@ == Seq::<char>::empty(),
            row.bid_px@ == first_n(arranged(bid_px@, side_order(bid_px@, true)), top_k as nat),
            row.bid_sz@ == first_n(arranged(bid_sz@, side_order(bid_px@, true)), top_k as nat),
            row.ask_px@ == first_n(arranged(ask_px@, side_order(ask_px@, false)), top_k as nat),
            row.ask_sz@ == first_n(arranged(ask_sz@, side_order(ask_px@, false)), top_k as nat),
            row.bid_px.len() <= top_k,
            row.ask_px.len() <= top_k,
            row.sides_sorted(),
            row.derived_consistent(),
            top_k >= 1 ==> row.best_is_first(),
    {
        let mut row = SnapshotRow::new(
            ts_recv,
            venue,
            market_id,
            outcome_id,
            seq,
            bid_px,
            bid_sz,
            ask_px,
            ask_sz,
            source_ts,
        );
        row.cap_to_top_k(top_k);
        row
    }

    /// Cuts each side down to its `top_k` best levels.
    pub fn cap_to_top_k(&mut self, top_k: usize)
        ensures
            final(self)@ == capped_view(old(self)@, top_k as nat),
            final(self).bid_px@ == if old(self).bid_px.len() > top_k {
                old(self).bid_px@.take(top_k as int)
            } else {
                old(self).bid_px@
            },
            final(self).bid_sz@ == if old(self).bid_px.len() > top_k && old(self).bid_sz.len()
                > top_k {
                old(self).bid_sz@.take(top_k as int)
            } else {
                old(self).bid_sz@
            },
            final(self).ask_px@ == if old(self).ask_px.len() > top_k {
                old(self).ask_px@.take(top_k as int)
            } else {
                old(self).ask_px@
            },
            final(self).ask_sz@ == if old(self).ask_px.len() > top_k && old(self).ask_sz.len()
                > top_k {
                old(self).ask_sz@.take(top_k as int)
            } else {
                old(self).ask_sz@
            },
            final(self).bid_px.len() <= top_k,
            final(self).ask_px.len() <= top_k,
            old(self).sides_sorted() ==> final(self).sides_sorted(),
            old(self).sides_sorted() ==> final(self).bid_sz.len() <= top_k && final(self).ask_sz.len() <= top_k,
            old(self).best_is_first() && old(self).sides_sorted() && top_k >= 1 ==> final(self).best_is_first(),
            final(self).ts_recv == old(self).ts_recv,
            final(self).venue == old(self).venue,
            final(self).market_id == old(self).market_id,
            final(self).outcome_id == old(self).outcome_id,
            final(self).seq == old(self).seq,
            final(self).best_bid_px == old(self).best_bid_px,
            final(self).best_bid_sz == old(self).best_bid_sz,
            final(self).best_ask_px == old(self).best_ask_px,
            final(self).best_ask_sz == old(self).best_ask_sz,
            final(self).mid == old(self).mid,
            final(self).spread == old(self).spread,
            final(self).status == old(self).status,
            final(self).err == old(self).err,
            final(self).source_ts == old(self).source_ts,
    {
        if self.bid_px.len() > top_k {
            self.bid_px.truncate(top_k);
            self.bid_sz.truncate(top_k);
        }
        if self.ask_px.len() > top_k {
            self.ask_px.truncate(top_k);
            self.ask_sz.truncate(top_k);
        }
        proof {
            let want = capped_view(old(self)@, top_k as nat);
            assert(self.bid_px@ =~= want.bid_px);
            assert(self.bid_sz@ =~= want.bid_sz);
            assert(self.ask_px@ =~= want.ask_px);
            assert(self.ask_sz@ =~= want.ask_sz);
        }
    }
}

/// The type of a column of the snapshot file.
#[derive(Clone, Copy, Debug, PartialEq, Eq, Structural)]
pub enum ColumnType {
    Int64,
    Float64,
    Utf8,
    /// A list of `Float64` items, none of them missing.
    Float64List,
}

/// One column of the snapshot file.
pub struct ColumnSpec {
    pub name: &'static str,
    pub data_type: ColumnType,
    pub nullable: bool,
}

/// The names and types of the 18 columns, in file order.
pub open spec fn snapshot_columns() -> Seq<(Seq<char>, ColumnType, bool)> {
    seq![
        ("ts_recv"@, ColumnType::Int64, false),
        ("venue"@, ColumnType::Utf8, false),
        ("market_id"@, ColumnType::Utf8, false),
        ("outcome_id"@, ColumnType::Utf8, false),
        ("seq"@, ColumnType::Int64, false),
        ("best_bid_px"@, ColumnType::Float64, false),
        ("best_bid_sz"@, ColumnType::Float64, false),
        ("best_ask_px"@, ColumnType::Float64, false),
        ("best_ask_sz"@, ColumnType::Float64, false),
        ("mid"@, ColumnType::Float64, false),
        ("spread"@, ColumnType::Float64, false),
        ("bid_px"@, ColumnType::Float64List, false),
        ("bid_sz"@, ColumnType::Float64List, false),
        ("ask_px"@, ColumnType::Float64List, false),
        ("ask_sz"@, ColumnType::Float64List, false),
        ("status"@, ColumnType::Utf8, false),
        ("err"@, ColumnType::Utf8, false),
        ("source_ts"@, ColumnType::Int64, true),
    ]
}

/// Appends one column.
fn push_column(columns: &mut Vec<ColumnSpec>, name: &'static str, data_type: ColumnType, nullable: bool)
    ensures
        final(columns)@.map_values(|c: ColumnSpec| (c.name@, c.data_type, c.nullable)) == old(columns)@.map_values(|c: ColumnSpec| (c.name@, c.data_type, c.nullable)).push(
            (name@, data_type, nullable),
        ),
{
    columns.push(ColumnSpec { name, data_type, nullable });
    assert(columns@.map_values(|c: ColumnSpec| (c.name@, c.data_type, c.nullable)) =~= old(columns)@.map_values(|c: ColumnSpec| (c.name@, c.data_type, c.nullable)).push(
        (name@, data_type, nullable),
    ));
}

/// The columns of the snapshot file, in file order.
pub fn create_snapshot_schema() -> (out: Vec<ColumnSpec>)
    ensures
        out@.map_values(|c: ColumnSpec| (c.name@, c.data_type, c.nullable)) == snapshot_columns(),
{
    let mut out: Vec<ColumnSpec> = Vec::new();
    assert(out@.map_values(|c: ColumnSpec| (c.name@, c.data_type, c.nullable)) =~= Seq::empty());
    push_column(&mut out, "ts_recv", ColumnType::Int64, false);
    push_column(&mut out, "venue", ColumnType::Utf8, false);
    push_column(&mut out, "market_id", ColumnType::Utf8, false);
    push_column(&mut out, "outcome_id", ColumnType::Utf8, false);
    push_column(&mut out, "seq", ColumnType::Int64, false);
    push_column(&mut out, "best_bid_px", ColumnType::Float64, false);
    push_column(&mut out, "best_bid_sz", ColumnType::Float64, false);
    push_column(&mut out, "best_ask_px", ColumnType::Float64, false);
    push_column(&mut out, "best_ask_sz", ColumnType::Float64, false);
    push_column(&mut out, "mid", ColumnType::Float64, false);
    push_column(&mut out, "spread", ColumnType::Float64, false);
    push_column(&mut out, "bid_px", ColumnType::Float64List, false);
    push_column(&mut out, "bid_sz", ColumnType::Float64List, false);
    push_column(&mut out, "ask_px", ColumnType::Float64List, false);
    push_column(&mut out, "ask_sz", ColumnType::Float64List, false);
    push_column(&mut out, "status", ColumnType::Utf8, false);
    push_column(&mut out, "err", ColumnType::Utf8, false);
    push_column(&mut out, "source_ts", ColumnType::Int64, true);
    assert(out@.map_values(|c: ColumnSpec| (c.name@, c.data_type, c.nullable))
        =~= snapshot_columns());
    out
}

} // verus!
