//! The rules of the adaptor of the venue `polymarket`, over plain values:
//! which markets of the venue's listing are taken, what a price change
//! says of a book, which sequence number an update gets, how many tokens
//! one subscription names, and when the trades that were seen are written
//! out.

use vstd::prelude::*;
use vstd::string::StringExecFns;
use crate::keys::{clone_key, KeyMap, KeyView};
use crate::snapshotter::outcome_name;
use crate::text::{decimal, push_decimal, str_eq};
use crate::venue::{MarketInfo, OrderBookLevel};

verus! {

/// The most tokens that one subscription names.
pub const MAX_SUBSCRIBE_BATCH: usize = 500;

/// The number of buffered trades at which they are written out.
pub const TRADE_FLUSH_ROWS: usize = 500;

/// The milliseconds after which buffered trades are written out.
pub const TRADE_FLUSH_MS: u64 = 5000;

/// Whether a market, or an event, of the venue's listing is taken: one that
/// is not closed and not said to be inactive.
pub fn listed(closed: Option<bool>, active: Option<bool>) -> (out: bool)
    ensures
        out == (closed != Some(true) && active != Some(false)),
{
    let is_closed = match closed {
        Some(c) => c,
        None => false,
    };
    let is_active = match active {
        Some(a) => a,
        None => true,
    };
    !is_closed && is_active
}

/// The status of a market with these flags.
pub open spec fn status_of(closed: Option<bool>, active: Option<bool>) -> Seq<char> {
    if closed == Some(true) {
        "closed"@
    } else if active != Some(false) {
        "active"@
    } else {
        "inactive"@
    }
}

/// The status of a market of the venue's listing: `closed`, else `active`
/// unless the venue says otherwise, else `inactive`.
pub fn market_status(closed: Option<bool>, active: Option<bool>) -> (out: String)
    ensures
        out@ == status_of(closed, active),
{
    let is_closed = match closed {
        Some(c) => c,
        None => false,
    };
    let is_active = match active {
        Some(a) => a,
        None => true,
    };
    if is_closed {
        String::from_str("closed")
    } else if is_active {
        String::from_str("active")
    } else {
        String::from_str("inactive")
    }
}

/// The address to use: the configured one, or `fallback` where none is
/// configured.
pub fn endpoint(configured: String, fallback: &str) -> (out: String)
    ensures
        out@ == if configured@.len() == 0 {
            fallback@
        } else {
            configured@
        },
{
    if configured.as_str().unicode_len() == 0 {
        fallback.to_owned()
    } else {
        configured
    }
}

/// The outcome that the token at place `i` of `market` stands for: the
/// outcome id at that place, or the number `i` where the market has fewer
/// outcome ids than tokens.
pub fn outcome_of(market: &MarketInfo, i: usize) -> (out: String)
    ensures
        out@ == outcome_name(*market, i as int),
{
    if i < market.outcome_ids.len() {
        market.outcome_ids[i].clone()
    } else {
        let mut name = String::new();
        push_decimal(&mut name, i as u64);
        assert(name@ =~= decimal(i as nat));
        name
    }
}

/// The best price of a side after a price change: the one that the venue
/// names; without one, the changed price where the change is on this
/// side, else none (0).
pub open spec fn best_after(named: Option<i64>, price: i64, own_side: bool) -> i64 {
    match named {
        Some(best) => best,
        None => if own_side {
            price
        } else {
            0
        },
    }
}

/// The side of a book that holds the one level `price`, or nothing where
/// the price is not positive.
pub open spec fn one_level(price: i64, size: i64) -> Seq<OrderBookLevel> {
    if price > 0 {
        seq![OrderBookLevel { price, size }]
    } else {
        Seq::empty()
    }
}

/// The level of one side after a price change.
fn side_after(named: Option<i64>, price: i64, size: i64, own_side: bool) -> (out: Vec<OrderBookLevel>)
    ensures
        out@ == one_level(best_after(named, price, own_side), size),
{
    let best = match named {
        Some(b) => b,
        None => if own_side {
            price
        } else {
            0
        },
    };
    let mut out: Vec<OrderBookLevel> = Vec::new();
    if best > 0 {
        out.push(OrderBookLevel { price: best, size });
    }
    assert(out@ =~= one_level(best_after(named, price, own_side), size));
    out
}

/// What a price change says of a book, as its bids and its asks: on each
/// side the best price with the changed size, where the side has a best
/// price. `buy` and `sell` say on which side the change is.
pub fn price_change_sides(
    price: i64,
    size: i64,
    buy: bool,
    sell: bool,
    best_bid: Option<i64>,
    best_ask: Option<i64>,
) -> (out: (Vec<OrderBookLevel>, Vec<OrderBookLevel>))
    ensures
        out.0@ == one_level(best_after(best_bid, price, buy), size),
        out.1@ == one_level(best_after(best_ask, price, sell), size),
{
    (side_after(best_bid, price, size, buy), side_after(best_ask, price, size, sell))
}

/// The texts of a list of strings.
pub open spec fn token_texts(tokens: Seq<String>) -> Seq<Seq<char>> {
    tokens.map_values(|t: String| t@)
}

/// The tokens that one subscription names: the first `MAX_SUBSCRIBE_BATCH`
/// of `tokens`, or all of them where they are no more.
pub fn subscribe_batch(tokens: &[String]) -> (out: Vec<String>)
    ensures
        token_texts(out@) == token_texts(
            if tokens@.len() > MAX_SUBSCRIBE_BATCH {
                tokens@.take(MAX_SUBSCRIBE_BATCH as int)
            } else {
                tokens@
            },
        ),
{
    let count = if tokens.len() > MAX_SUBSCRIBE_BATCH {
        MAX_SUBSCRIBE_BATCH
    } else {
        tokens.len()
    };
    let mut out: Vec<String> = Vec::new();
    let mut i: usize = 0;
    while i < count
        invariant
            i <= count <= tokens.len(),
            out.len() == i,
            forall|j: int| 0 <= j < i ==> out[j]@ == tokens[j]@,
        decreases count - i,
    {
        out.push(tokens[i].clone());
        i += 1;
    }
    assert(token_texts(out@) =~= token_texts(tokens@.take(count as int)));
    assert(tokens@.take(tokens.len() as int) =~= tokens@);
    out
}

/// The sequence number of the next update of book `key`: the venue gives
/// none, so the updates of each book are counted, from 1.
pub open spec fn sequence_of(counters: Map<KeyView, i64>, key: KeyView) -> i64 {
    if counters.dom().contains(key) {
        counters[key]
    } else {
        1
    }
}

/// Takes the sequence number of the next update of book `key`, and counts
/// the update. The count stops at the greatest number.
pub fn next_sequence(counters: &mut KeyMap<i64>, key: &(String, String)) -> (out: i64)
    requires
        old(counters).wf(),
    ensures
        final(counters).wf(),
        out == sequence_of(old(counters)@, key@),
        final(counters)@ == old(counters)@.insert(
            key@,
            if out < i64::MAX {
                (out + 1) as i64
            } else {
                i64::MAX
            },
        ),
{
    let out: i64 = match counters.get(key) {
        Some(count) => *count,
        None => 1,
    };
    let next: i64 = if out < i64::MAX {
        out + 1
    } else {
        i64::MAX
    };
    counters.insert(clone_key(key), next);
    out
}

/// Whether a message of this type tells of a trade.
pub fn is_trade_kind(kind: &str) -> (out: bool)
    ensures
        out == (kind@ == "last_trade_price"@ || kind@ == "trade"@ || kind@ == "trade_execution"@),
{
    str_eq(kind, "last_trade_price") || str_eq(kind, "trade") || str_eq(kind, "trade_execution")
}

/// Whether the buffered trades are written out now: there are
/// `TRADE_FLUSH_ROWS` of them, or `TRADE_FLUSH_MS` milliseconds have passed
/// since they were last written.
pub fn trades_due(buffered: usize, since_flush_ms: u64) -> (out: bool)
    ensures
        out == (buffered >= TRADE_FLUSH_ROWS || since_flush_ms >= TRADE_FLUSH_MS),
{
    buffered >= TRADE_FLUSH_ROWS || since_flush_ms >= TRADE_FLUSH_MS
}

} // verus!
