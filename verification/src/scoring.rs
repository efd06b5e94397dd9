//! Scoring of a market universe.
//!
//! A score is a fixed-point number in millionths. It is the sum of three
//! components, each quotient rounded down:
//!
//! * recency: `1 / (1 + days_until_close / 30)` while the close lies ahead;
//! * status: one half for an active market;
//! * statistics, where known: `avg_depth / 1000`, plus
//!   `1 / (1 + 100 * avg_spread)` for a positive spread, plus
//!   `update_count / 10000`.
//!
//! Markets are ranked by score, the best first; among equal scores by
//! `market_id`, ascending; among equal identifiers by their place in the
//! universe.

use vstd::prelude::*;
use crate::ranking::{
    arranged, is_ranked_by, is_sorted_by, lemma_place, lemma_rank_exists, lemma_rank_unique,
    orders_positions, rank_by,
};
use crate::text::{lemma_text_lt_total, lemma_text_lt_transitive, str_eq, str_lt, text_lt};
use crate::venue::MarketInfo;

verus! {

/// One unit, in millionths.
pub const SCORE_ONE: i128 = 1_000_000;

/// Thirty days, in milliseconds.
pub const DECAY_MS: i128 = 2_592_000_000;

/// A market with its score.
pub struct MarketScore {
    pub market_id: String,
    pub score: i128,
}

/// Historical statistics of one market. Depth and spread are fixed-point, in
/// millionths.
pub struct MarketStats {
    pub market_id: String,
    pub avg_depth: i64,
    pub avg_spread: i64,
    pub update_count: usize,
}

/// The recency component: nothing for a market without a close time or whose
/// close time has come, else the decay over thirty days.
pub open spec fn recency_component(close_ts: Option<i64>, now_ms: i64) -> int {
    match close_ts {
        Some(close) => if close > now_ms {
            (SCORE_ONE * DECAY_MS) / (DECAY_MS + (close - now_ms))
        } else {
            0
        },
        None => 0,
    }
}

/// The status component.
pub open spec fn status_component(status: Seq<char>) -> int {
    if status == "active"@ {
        500_000
    } else {
        0
    }
}

/// The statistics component.
pub open spec fn stats_component(avg_depth: i64, avg_spread: i64, update_count: usize) -> int {
    avg_depth / 1000 + (if avg_spread > 0 {
        (SCORE_ONE * SCORE_ONE) / (SCORE_ONE + 100 * avg_spread)
    } else {
        0
    }) + update_count * 100
}

/// The first entry of `stats` for market `market_id`.
pub open spec fn stats_for(stats: Seq<MarketStats>, market_id: Seq<char>) -> Option<MarketStats>
    decreases stats.len(),
{
    if stats.len() == 0 {
        None
    } else if stats[0].market_id@ == market_id {
        Some(stats[0])
    } else {
        stats_for(stats.drop_first(), market_id)
    }
}

/// The score of one market.
pub open spec fn market_score(market: MarketInfo, stats: Option<Seq<MarketStats>>, now_ms: i64) -> int {
    recency_component(market.close_ts, now_ms) + status_component(market.status@) + match stats {
        Some(list) => match stats_for(list, market.market_id@) {
            Some(s) => stats_component(s.avg_depth, s.avg_spread, s.update_count),
            None => 0,
        },
        None => 0,
    }
}

/// A score stays far inside `i128`.
pub proof fn lemma_score_bounds(market: MarketInfo, stats: Option<Seq<MarketStats>>, now_ms: i64)
    ensures
        -0x80_0000_0000_0000 <= market_score(market, stats, now_ms) <= 0x1000_0000_0000_0000_0000,
{
    lemma_recency_bounds(market.close_ts, now_ms);
    match stats {
        Some(list) => match stats_for(list, market.market_id@) {
            Some(s) => {
                lemma_stats_bounds(s.avg_depth, s.avg_spread, s.update_count);
            },
            None => {},
        },
        None => {},
    }
}

proof fn lemma_recency_bounds(close_ts: Option<i64>, now_ms: i64)
    ensures
        0 <= recency_component(close_ts, now_ms) <= SCORE_ONE,
{
    match close_ts {
        Some(close) => {
            if close > now_ms {
                let d = DECAY_MS + (close - now_ms);
                assert(0 <= (SCORE_ONE * DECAY_MS) / d <= SCORE_ONE) by (nonlinear_arith)
                    requires
                        d > DECAY_MS,
                        DECAY_MS == 2_592_000_000,
                        SCORE_ONE == 1_000_000,
                ;
            }
        },
        None => {},
    }
}

proof fn lemma_stats_bounds(avg_depth: i64, avg_spread: i64, update_count: usize)
    ensures
        -0x40_0000_0000_0000 <= stats_component(avg_depth, avg_spread, update_count)
            <= 0x800_0000_0000_0000_0000,
{
    if avg_spread > 0 {
        let d = SCORE_ONE + 100 * avg_spread;
        assert(0 <= (SCORE_ONE * SCORE_ONE) / d <= SCORE_ONE) by (nonlinear_arith)
            requires
                d > SCORE_ONE,
                SCORE_ONE == 1_000_000,
        ;
    }
}

/// The recency component of one market.
pub fn recency_score(close_ts: Option<i64>, now_ms: i64) -> (out: i128)
    ensures
        out == recency_component(close_ts, now_ms),
        0 <= out <= SCORE_ONE,
        (close_ts matches Some(close) && close > now_ms) || out == 0,
{
    proof {
        lemma_recency_bounds(close_ts, now_ms);
    }
    match close_ts {
        Some(close) => {
            if close > now_ms {
                let ahead: i128 = close as i128 - now_ms as i128;
                (SCORE_ONE * DECAY_MS) / (DECAY_MS + ahead)
            } else {
                0
            }
        },
        None => 0,
    }
}

/// The statistics component of one market.
pub fn stats_score(stats: &MarketStats) -> (out: i128)
    ensures
        out == stats_component(stats.avg_depth, stats.avg_spread, stats.update_count),
{
    proof {
        lemma_stats_bounds(stats.avg_depth, stats.avg_spread, stats.update_count);
    }
    let depth: i128 = stats.avg_depth as i128;
    let depth_part: i128 = if depth >= 0 {
        depth / 1000
    } else {
        -((999 - depth) / 1000)
    };
    assert(depth_part == stats.avg_depth / 1000) by {
        let d = stats.avg_depth as int;
        if d < 0 {
            assert(-((999 - d) / 1000) == d / 1000) by (nonlinear_arith)
                requires
                    d < 0,
            ;
        }
    }
    let spread_part: i128 = if stats.avg_spread > 0 {
        (SCORE_ONE * SCORE_ONE) / (SCORE_ONE + 100 * (stats.avg_spread as i128))
    } else {
        0
    };
    depth_part + spread_part + (stats.update_count as i128) * 100
}

/// Looks up the statistics of market `market_id`.
pub fn find_stats<'a>(stats: &'a [MarketStats], market_id: &str) -> (out: Option<&'a MarketStats>)
    ensures
        out == match stats_for(stats@, market_id@) {
            Some(s) => Some(&s),
            None => None,
        },
{
    let mut i: usize = 0;
    assert(stats@.skip(0) =~= stats@);
    while i < stats.len()
        invariant
            i <= stats.len(),
            stats_for(stats@, market_id@) == stats_for(stats@.skip(i as int), market_id@),
        decreases stats.len() - i,
    {
        if str_eq(stats[i].market_id.as_str(), market_id) {
            assert(stats@.skip(i as int)[0] == stats@[i as int]);
            return Some(&stats[i]);
        }
        assert(stats@.skip(i as int).drop_first() =~= stats@.skip(i + 1));
        i += 1;
    }
    None
}

/// Scores one market at time `now_ms`.
pub fn score_market(market: &MarketInfo, stats_cache: Option<&[MarketStats]>, now_ms: i64) -> (out: i128)
    ensures
        out == market_score(*market, cache_view(stats_cache), now_ms),
{
    proof {
        lemma_score_bounds(*market, cache_view(stats_cache), now_ms);
        lemma_recency_bounds(market.close_ts, now_ms);
    }
    let recency = recency_score(market.close_ts, now_ms);
    let status: i128 = if str_eq(market.status.as_str(), "active") {
        500_000
    } else {
        0
    };
    let extra: i128 = match stats_cache {
        Some(list) => match find_stats(list, market.market_id.as_str()) {
            Some(s) => {
                proof {
                    lemma_stats_bounds(s.avg_depth, s.avg_spread, s.update_count);
                }
                stats_score(s)
            },
            None => 0,
        },
        None => 0,
    };
    recency + status + extra
}

/// The statistics that a call was given, as a mathematical value.
pub open spec fn cache_view(stats_cache: Option<&[MarketStats]>) -> Option<Seq<MarketStats>> {
    match stats_cache {
        Some(list) => Some(list@),
        None => None,
    }
}

/// The scores of `markets`, in the order of `markets`.
pub open spec fn raw_scores(
    markets: Seq<MarketInfo>,
    stats: Option<Seq<MarketStats>>,
    now_ms: i64,
) -> Seq<i128> {
    Seq::new(markets.len(), |i: int| market_score(markets[i], stats, now_ms) as i128)
}

/// The identifiers of `markets`, in the order of `markets`.
pub open spec fn market_ids(markets: Seq<MarketInfo>) -> Seq<Seq<char>> {
    Seq::new(markets.len(), |i: int| markets[i].market_id@)
}

/// Whether the market at position `a` ranks before the one at position `b`:
/// the higher score first; among equal scores the identifier that comes
/// first in the order of strings; among equal identifiers the earlier
/// position.
pub open spec fn ranks_before(scores: Seq<i128>, ids: Seq<Seq<char>>, a: int, b: int) -> bool {
    if scores[a] != scores[b] {
        scores[a] > scores[b]
    } else if ids[a] != ids[b] {
        text_lt(ids[a], ids[b])
    } else {
        a < b
    }
}

/// The order of positions that `ranks_before` gives.
pub open spec fn market_order(scores: Seq<i128>, ids: Seq<Seq<char>>) -> spec_fn(int, int) -> bool {
    |a: int, b: int| ranks_before(scores, ids, a, b)
}

/// The order of markets is a strict total order of the positions.
pub proof fn lemma_market_order(scores: Seq<i128>, ids: Seq<Seq<char>>, n: int)
    ensures
        orders_positions(market_order(scores, ids), n),
{
    let before = market_order(scores, ids);
    assert forall|a: int, b: int| #[trigger] before(a, b) implies !before(b, a) by {
        lemma_text_lt_total(ids[a], ids[b]);
    }
    assert forall|a: int, b: int| a != b implies #[trigger] before(a, b) || before(b, a) by {
        lemma_text_lt_total(ids[a], ids[b]);
    }
    assert forall|a: int, b: int, c: int| #[trigger] before(a, b) && #[trigger] before(b, c) implies before(
        a,
        c,
    ) by {
        lemma_text_lt_total(ids[a], ids[b]);
        lemma_text_lt_total(ids[b], ids[c]);
        lemma_text_lt_total(ids[a], ids[c]);
        if text_lt(ids[a], ids[b]) && text_lt(ids[b], ids[c]) {
            lemma_text_lt_transitive(ids[a], ids[b], ids[c]);
        }
    }
}

/// The positions of `markets` in the order of their rank, best first.
pub open spec fn market_ranking(
    markets: Seq<MarketInfo>,
    stats: Option<Seq<MarketStats>>,
    now_ms: i64,
) -> Seq<usize> {
    rank_by(
        market_order(raw_scores(markets, stats, now_ms), market_ids(markets)),
        markets.len() as int,
    )
}

/// The ranking of a universe lists every position once, each market before
/// all that it ranks before.
pub proof fn lemma_market_ranking(
    markets: Seq<MarketInfo>,
    stats: Option<Seq<MarketStats>>,
    now_ms: i64,
)
    requires
        markets.len() <= usize::MAX,
    ensures
        is_ranked_by(
            market_order(raw_scores(markets, stats, now_ms), market_ids(markets)),
            markets.len() as int,
            market_ranking(markets, stats, now_ms),
        ),
{
    let before = market_order(raw_scores(markets, stats, now_ms), market_ids(markets));
    lemma_market_order(raw_scores(markets, stats, now_ms), market_ids(markets), markets.len() as int);
    lemma_rank_exists(before, markets.len() as int);
}

/// Whether the market at the earlier position `entry` must come after the
/// one at position `at`.
fn ranks_after(markets: &[MarketInfo], scores: &Vec<i128>, entry: usize, at: usize) -> (out: bool)
    requires
        entry < at < markets.len(),
        scores.len() == markets.len(),
    ensures
        out == ranks_before(scores@, market_ids(markets@), at as int, entry as int),
{
    if scores[at] != scores[entry] {
        scores[at] > scores[entry]
    } else {
        let less = str_lt(markets[at].market_id.as_str(), markets[entry].market_id.as_str());
        proof {
            lemma_text_lt_total(markets@[at as int].market_id@, markets@[entry as int].market_id@);
        }
        less
    }
}

/// Ranks `markets`: by score, best first; among equal scores by `market_id`,
/// ascending; among equal identifiers by position.
pub fn rank_markets(markets: &[MarketInfo], stats_cache: Option<&[MarketStats]>, now_ms: i64) -> (order:
    Vec<usize>)
    ensures
        order@ == market_ranking(markets@, cache_view(stats_cache), now_ms),
        order.len() == markets.len(),
        forall|j: int| 0 <= j < order.len() ==> (#[trigger] order[j]) < markets.len(),
        is_ranked_by(
            market_order(
                raw_scores(markets@, cache_view(stats_cache), now_ms),
                market_ids(markets@),
            ),
            markets.len() as int,
            order@,
        ),
{
    let mut scores: Vec<i128> = Vec::new();
    let mut i: usize = 0;
    while i < markets.len()
        invariant
            i <= markets.len(),
            scores.len() == i,
            forall|j: int|
                0 <= j < i ==> scores[j] == market_score(
                    markets@[j],
                    cache_view(stats_cache),
                    now_ms,
                ),
        decreases markets.len() - i,
    {
        scores.push(score_market(&markets[i], stats_cache, now_ms));
        i += 1;
    }
    assert(scores@ =~= raw_scores(markets@, cache_view(stats_cache), now_ms));
    let ghost before = market_order(scores@, market_ids(markets@));
    let ghost n = markets.len() as int;
    proof {
        lemma_market_order(scores@, market_ids(markets@), n);
    }
    let mut order: Vec<usize> = Vec::new();
    let mut i: usize = 0;
    while i < markets.len()
        invariant
            i <= markets.len(),
            n == markets.len(),
            scores.len() == markets.len(),
            before == market_order(scores@, market_ids(markets@)),
            orders_positions(before, n),
            order.len() == i,
            is_sorted_by(before, n, order@),
            forall|j: int| 0 <= j < order.len() ==> (#[trigger] order[j]) < i,
            forall|v: usize| v < i ==> #[trigger] order@.contains(v),
        decreases markets.len() - i,
    {
        // The new position goes behind every entry that it does not rank before.
        let mut p: usize = order.len();
        while p > 0 && ranks_after(markets, &scores, order[p - 1], i)
            invariant
                p <= order.len(),
                order.len() == i,
                i < markets.len(),
                scores.len() == markets.len(),
                before == market_order(scores@, market_ids(markets@)),
                forall|j: int| 0 <= j < order.len() ==> (#[trigger] order[j]) < i,
                forall|j: int| p <= j < order.len() ==> before(i as int, #[trigger] order[j] as int),
            decreases p,
        {
            p -= 1;
        }
        proof {
            if p > 0 {
                assert(order[p - 1] < i);
                assert(!before(i as int, order[p - 1] as int));
            }
            lemma_place(before, n, order@, i as int, p as int);
        }
        order.insert(p, i);
        i += 1;
    }
    proof {
        lemma_market_ranking(markets@, cache_view(stats_cache), now_ms);
        lemma_rank_unique(
            before,
            n,
            order@,
            market_ranking(markets@, cache_view(stats_cache), now_ms),
        );
    }
    order
}

/// Scores `markets` and lists them by rank: the best score first, equal
/// scores by `market_id`, ascending.
pub fn score_markets(markets: &[MarketInfo], stats_cache: Option<&[MarketStats]>, now_ms: i64) -> (out:
    Vec<MarketScore>)
    ensures
        out.len() == markets.len(),
        forall|i: int|
            0 <= i < out.len() ==> {
                &&& (#[trigger] out[i]).market_id@ == arranged(
                    markets@,
                    market_ranking(markets@, cache_view(stats_cache), now_ms),
                )[i].market_id@
                &&& out[i].score == market_score(
                    arranged(
                        markets@,
                        market_ranking(markets@, cache_view(stats_cache), now_ms),
                    )[i],
                    cache_view(stats_cache),
                    now_ms,
                )
            },
        forall|i: int, j: int|
            0 <= i < j < out.len() ==> {
                ||| out[i].score > out[j].score
                ||| (out[i].score == out[j].score && !text_lt(
                    out[j].market_id@,
                    out[i].market_id@,
                ))
            },
{
    let order = rank_markets(markets, stats_cache, now_ms);
    let ghost scores = raw_scores(markets@, cache_view(stats_cache), now_ms);
    let ghost before = market_order(scores, market_ids(markets@));
    let mut out: Vec<MarketScore> = Vec::new();
    let mut i: usize = 0;
    while i < order.len()
        invariant
            i <= order.len(),
            out.len() == i,
            order.len() == markets.len(),
            forall|j: int| 0 <= j < order.len() ==> (#[trigger] order[j]) < markets.len(),
            forall|k: int|
                0 <= k < i ==> {
                    &&& (#[trigger] out[k]).market_id@ == markets@[order[k] as int].market_id@
                    &&& out[k].score == market_score(
                        markets@[order[k] as int],
                        cache_view(stats_cache),
                        now_ms,
                    )
                },
        decreases order.len() - i,
    {
        let at = order[i];
        let market = &markets[at];
        out.push(
            MarketScore {
                market_id: market.market_id.clone(),
                score: score_market(market, stats_cache, now_ms),
            },
        );
        i += 1;
    }
    proof {
        assert forall|i: int, j: int| 0 <= i < j < out.len() implies {
            ||| out[i].score > out[j].score
            ||| (out[i].score == out[j].score && !text_lt(out[j].market_id@, out[i].market_id@))
        } by {
            lemma_score_bounds(markets@[order[i] as int], cache_view(stats_cache), now_ms);
            lemma_score_bounds(markets@[order[j] as int], cache_view(stats_cache), now_ms);
            assert(before(order[i] as int, order[j] as int));
            lemma_text_lt_total(
                markets@[order[i] as int].market_id@,
                markets@[order[j] as int].market_id@,
            );
        }
    }
    out
}

} // verus!
