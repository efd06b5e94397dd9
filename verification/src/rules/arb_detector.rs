//! Finding prices that break a constraint.
//!
//! Prices and probabilities are fixed-point numbers in millionths: a
//! probability goes from 0 to 1 000 000.

use vstd::prelude::*;
use crate::keys::{KeyMap, KeyView};
use crate::rules::constraints::Constraint;

verus! {

/// One, as a probability.
pub const PROBABILITY_ONE: i64 = 1_000_000;

/// How violations are looked for.
#[derive(Clone, Copy, Debug, PartialEq, Eq, Structural)]
pub enum DetectionMode {
    /// On the latest snapshot of each market.
    Latest,
    /// Over a rolling window.
    Rolling,
}

/// How violations are looked for.
#[derive(Clone, Copy, Debug, PartialEq, Eq, Structural)]
pub struct ArbDetectorConfig {
    /// By how much the one probability must exceed the other.
    pub margin: i64,
    pub mode: DetectionMode,
    /// The width of the window, in rolling mode.
    pub window_minutes: Option<u32>,
}

impl Default for ArbDetectorConfig {
    fn default() -> (out: ArbDetectorConfig)
        ensures
            out == (ArbDetectorConfig {
                margin: 10_000,
                mode: DetectionMode::Latest,
                window_minutes: None,
            }),
    {
        ArbDetectorConfig { margin: 10_000, mode: DetectionMode::Latest, window_minutes: None }
    }
}

/// The price of one market at one moment.
#[derive(Clone, Copy, Debug, PartialEq, Eq, Structural)]
pub struct MarketPrice {
    pub ts: i64,
    pub mid: Option<i64>,
    pub best_bid: Option<i64>,
    pub best_ask: Option<i64>,
}

impl Default for MarketPrice {
    fn default() -> (out: MarketPrice)
        ensures
            out == (MarketPrice { ts: 0, mid: None, best_bid: None, best_ask: None }),
    {
        MarketPrice { ts: 0, mid: None, best_bid: None, best_ask: None }
    }
}

impl MarketPrice {
    /// The probability that the price implies: the mid where it lies from
    /// 0 to 1; else half the sum of best bid and best ask, rounded down,
    /// where that lies from 0 to 1, and its hundredth where it lies from 1
    /// to 100, as a price in cents; else none.
    pub open spec fn spec_implied(&self) -> Option<i64> {
        if self.mid is Some && 0 <= self.mid->0 <= PROBABILITY_ONE {
            self.mid
        } else {
            match (self.best_bid, self.best_ask) {
                (Some(bid), Some(ask)) => if 0 <= bid + ask <= 2 * PROBABILITY_ONE {
                    Some(((bid + ask) / 2) as i64)
                } else if 0 <= bid + ask <= 200 * PROBABILITY_ONE {
                    Some(((bid + ask) / 200) as i64)
                } else {
                    None
                },
                _ => None,
            }
        }
    }

    /// The probability that the price implies.
    pub fn implied_probability(&self) -> (out: Option<i64>)
        ensures
            out == self.spec_implied(),
            out matches Some(p) ==> 0 <= p <= PROBABILITY_ONE,
    {
        match self.mid {
            Some(mid) => {
                if mid >= 0 && mid <= PROBABILITY_ONE {
                    return Some(mid);
                }
            },
            None => {},
        }
        match (self.best_bid, self.best_ask) {
            (Some(bid), Some(ask)) => {
                let sum: i128 = bid as i128 + ask as i128;
                if sum >= 0 && sum <= 2 * (PROBABILITY_ONE as i128) {
                    Some((sum / 2) as i64)
                } else if sum >= 0 && sum <= 200 * (PROBABILITY_ONE as i128) {
                    Some((sum / 200) as i64)
                } else {
                    None
                }
            },
            _ => None,
        }
    }
}

/// A constraint that the prices break.
#[derive(Clone, Debug)]
pub struct Violation {
    /// When the violation was found, in epoch milliseconds.
    pub ts: i64,
    pub constraint_id: String,
    pub constraint_type: String,
    pub a_market_id: String,
    pub a_outcome_id: Option<String>,
    pub b_market_id: String,
    pub b_outcome_id: Option<String>,
    /// The implied probability of the first market.
    pub p_a: i64,
    /// The implied probability of the second market.
    pub p_b: i64,
    /// `p_a` less `p_b`.
    pub violation_magnitude: i64,
    pub margin: i64,
    pub confidence: i64,
    pub a_bid: Option<i64>,
    pub a_ask: Option<i64>,
    pub b_bid: Option<i64>,
    pub b_ask: Option<i64>,
}

/// The text of an outcome id, and `0` where there is none.
pub open spec fn outcome_text(outcome_id: Option<String>) -> Seq<char> {
    match outcome_id {
        Some(o) => o@,
        None => "0"@,
    }
}

/// The key under which the price of the first market of `c` is held.
pub open spec fn key_a(c: Constraint) -> KeyView {
    (c.a_market_id@, outcome_text(c.a_outcome_id))
}

/// The key under which the price of the second market of `c` is held.
pub open spec fn key_b(c: Constraint) -> KeyView {
    (c.b_market_id@, outcome_text(c.b_outcome_id))
}

/// Whether the prices break the constraint `c`, which asks that the first
/// market be no more probable than the second: both markets have a price
/// with an implied probability, and the first exceeds the second by more
/// than the margin.
pub open spec fn violates(c: Constraint, prices: Map<KeyView, MarketPrice>, margin: i64) -> bool {
    &&& prices.dom().contains(key_a(c))
    &&& prices.dom().contains(key_b(c))
    &&& prices[key_a(c)].spec_implied() is Some
    &&& prices[key_b(c)].spec_implied() is Some
    &&& prices[key_a(c)].spec_implied()->0 > prices[key_b(c)].spec_implied()->0 + margin
}

/// The positions of the constraints that the prices break, in order.
pub open spec fn violating(constraints: Seq<Constraint>, prices: Map<KeyView, MarketPrice>, margin: i64) -> Seq<
    int,
>
    decreases constraints.len(),
{
    if constraints.len() == 0 {
        Seq::empty()
    } else if violates(constraints.last(), prices, margin) {
        violating(constraints.drop_last(), prices, margin).push(constraints.len() - 1)
    } else {
        violating(constraints.drop_last(), prices, margin)
    }
}

/// Whether `v` is the violation of `c` found at `now_ms` under these
/// prices and this margin.
pub open spec fn violation_of(
    v: Violation,
    c: Constraint,
    prices: Map<KeyView, MarketPrice>,
    margin: i64,
    now_ms: i64,
) -> bool {
    let a = prices[key_a(c)];
    let b = prices[key_b(c)];
    &&& v.ts == now_ms
    &&& v.constraint_id@ == c.id@
    &&& v.constraint_type@ == c.constraint_type@
    &&& v.a_market_id@ == c.a_market_id@
    &&& v.b_market_id@ == c.b_market_id@
    &&& v.a_outcome_id is Some == c.a_outcome_id is Some
    &&& v.a_outcome_id is Some ==> v.a_outcome_id->0@ == c.a_outcome_id->0@
    &&& v.b_outcome_id is Some == c.b_outcome_id is Some
    &&& v.b_outcome_id is Some ==> v.b_outcome_id->0@ == c.b_outcome_id->0@
    &&& Some(v.p_a) == a.spec_implied()
    &&& Some(v.p_b) == b.spec_implied()
    &&& v.violation_magnitude == v.p_a - v.p_b
    &&& v.margin == margin
    &&& v.confidence == c.confidence
    &&& v.a_bid == a.best_bid
    &&& v.a_ask == a.best_ask
    &&& v.b_bid == b.best_bid
    &&& v.b_ask == b.best_ask
}

/// A copy of an outcome id.
fn clone_outcome(outcome_id: &Option<String>) -> (out: Option<String>)
    ensures
        out is Some == outcome_id is Some,
        out is Some ==> out->0@ == outcome_id->0@,
{
    match outcome_id {
        Some(o) => Some(o.clone()),
        None => None,
    }
}

/// The outcome id, or `0` where there is none.
fn outcome_or_zero(outcome_id: &Option<String>) -> (out: String)
    ensures
        out@ == outcome_text(*outcome_id),
{
    match outcome_id {
        Some(o) => o.clone(),
        None => "0".to_owned(),
    }
}

/// The constraints that the prices break, in the order of the
/// constraints, as found at `now_ms`. A constraint without a price or
/// without an implied probability on either side is passed over.
pub fn detect_violations(
    constraints: &[Constraint],
    prices: &KeyMap<MarketPrice>,
    config: &ArbDetectorConfig,
    now_ms: i64,
) -> (out: Vec<Violation>)
    requires
        prices.wf(),
    ensures
        out.len() == violating(constraints@, prices@, config.margin).len(),
        forall|k: int|
            0 <= k < out.len() ==> violation_of(
                #[trigger] out[k],
                constraints[violating(constraints@, prices@, config.margin)[k]],
                prices@,
                config.margin,
                now_ms,
            ),
{
    let mut out: Vec<Violation> = Vec::new();
    let mut i: usize = 0;
    assert(constraints@.take(0) =~= Seq::<Constraint>::empty());
    while i < constraints.len()
        invariant
            i <= constraints.len(),
            prices.wf(),
            out.len() == violating(constraints@.take(i as int), prices@, config.margin).len(),
            forall|k: int|
                0 <= k < out.len() ==> {
                    &&& 0 <= (#[trigger] violating(
                        constraints@.take(i as int),
                        prices@,
                        config.margin,
                    )[k]) < i
                    &&& violation_of(
                        out[k],
                        constraints[violating(constraints@.take(i as int), prices@, config.margin)[k]],
                        prices@,
                        config.margin,
                        now_ms,
                    )
                },
        decreases constraints.len() - i,
    {
        let c = &constraints[i];
        proof {
            assert(constraints@.take(i + 1).drop_last() =~= constraints@.take(i as int));
            assert(constraints@.take(i + 1).last() == constraints@[i as int]);
        }
        let ghost before = violating(constraints@.take(i as int), prices@, config.margin);
        let a_key = (c.a_market_id.clone(), outcome_or_zero(&c.a_outcome_id));
        let b_key = (c.b_market_id.clone(), outcome_or_zero(&c.b_outcome_id));
        match (prices.get(&a_key), prices.get(&b_key)) {
            (Some(a), Some(b)) => match (a.implied_probability(), b.implied_probability()) {
                (Some(p_a), Some(p_b)) => {
                    if p_a as i128 > p_b as i128 + config.margin as i128 {
                        out.push(
                            Violation {
                                ts: now_ms,
                                constraint_id: c.id.clone(),
                                constraint_type: c.constraint_type.clone(),
                                a_market_id: c.a_market_id.clone(),
                                a_outcome_id: clone_outcome(&c.a_outcome_id),
                                b_market_id: c.b_market_id.clone(),
                                b_outcome_id: clone_outcome(&c.b_outcome_id),
                                p_a,
                                p_b,
                                violation_magnitude: p_a - p_b,
                                margin: config.margin,
                                confidence: c.confidence,
                                a_bid: a.best_bid,
                                a_ask: a.best_ask,
                                b_bid: b.best_bid,
                                b_ask: b.best_ask,
                            },
                        );
                        proof {
                            let after = violating(
                                constraints@.take(i + 1),
                                prices@,
                                config.margin,
                            );
                            assert(after == before.push(i as int));
                            assert forall|k: int| 0 <= k < out.len() implies 0 <= (
                            #[trigger] after[k]) < i + 1 && violation_of(
                                out[k],
                                constraints[after[k]],
                                prices@,
                                config.margin,
                                now_ms,
                            ) by {
                                if k < before.len() {
                                    assert(after[k] == before[k]);
                                }
                            }
                        }
                    }
                },
                _ => {},
            },
            _ => {},
        }
        i += 1;
    }
    assert(constraints@.take(constraints.len() as int) =~= constraints@);
    out
}

/// Takes `price` as the price of `key`, unless a price of `key` that is as
/// late or later is held already.
pub fn record_price(prices: &mut KeyMap<MarketPrice>, key: (String, String), price: MarketPrice)
    requires
        old(prices).wf(),
    ensures
        final(prices).wf(),
        final(prices)@ == if old(prices)@.dom().contains(key@) && price.ts <= old(prices)@[key@].ts {
            old(prices)@
        } else {
            old(prices)@.insert(key@, price)
        },
{
    let newer = match prices.get(&key) {
        Some(held) => price.ts > held.ts,
        None => true,
    };
    if newer {
        prices.insert(key, price);
    }
}

/// The price that the mock gives a market with probability `p`: `p` as
/// mid, a hundredth below as best bid, a hundredth above as best ask.
pub open spec fn mock_price(p: i64, now_ms: i64) -> MarketPrice {
    MarketPrice {
        ts: now_ms,
        mid: Some(p),
        best_bid: Some((p - 10_000) as i64),
        best_ask: Some((p + 10_000) as i64),
    }
}

/// The mock prices for the first `upto` constraints: those of every
/// other constraint, beginning with the first, break it (0.6 against 0.4),
/// those of the others do not (0.3 against 0.5). A later price of a market
/// takes the place of an earlier one.
pub open spec fn mock_prices(constraints: Seq<Constraint>, upto: int, now_ms: i64) -> Map<
    KeyView,
    MarketPrice,
>
    decreases upto,
{
    if upto <= 0 {
        Map::empty()
    } else {
        let c = constraints[upto - 1];
        let (p_a, p_b) = if (upto - 1) % 2 == 0 {
            (600_000i64, 400_000i64)
        } else {
            (300_000i64, 500_000i64)
        };
        mock_prices(constraints, upto - 1, now_ms).insert(key_a(c), mock_price(p_a, now_ms)).insert(
            key_b(c),
            mock_price(p_b, now_ms),
        )
    }
}

/// Made-up prices for the markets of `constraints`, as of `now_ms`, of
/// which every other constraint is broken.
pub fn generate_mock_prices_with_violations(constraints: &[Constraint], now_ms: i64) -> (out: KeyMap<
    MarketPrice,
>)
    ensures
        out.wf(),
        out@ == mock_prices(constraints@, constraints.len() as int, now_ms),
{
    let mut out: KeyMap<MarketPrice> = KeyMap::new();
    let mut i: usize = 0;
    while i < constraints.len()
        invariant
            i <= constraints.len(),
            out.wf(),
            out@ == mock_prices(constraints@, i as int, now_ms),
        decreases constraints.len() - i,
    {
        let c = &constraints[i];
        let (p_a, p_b): (i64, i64) = if i % 2 == 0 {
            (600_000, 400_000)
        } else {
            (300_000, 500_000)
        };
        out.insert(
            (c.a_market_id.clone(), outcome_or_zero(&c.a_outcome_id)),
            MarketPrice {
                ts: now_ms,
                mid: Some(p_a),
                best_bid: Some(p_a - 10_000),
                best_ask: Some(p_a + 10_000),
            },
        );
        out.insert(
            (c.b_market_id.clone(), outcome_or_zero(&c.b_outcome_id)),
            MarketPrice {
                ts: now_ms,
                mid: Some(p_b),
                best_bid: Some(p_b - 10_000),
                best_ask: Some(p_b + 10_000),
            },
        );
        i += 1;
    }
    out
}

} // verus!
