//! Choice of the subscription targets of a venue.
//!
//! The markets of a universe are ranked by score. The best of them form the
//! HOT tier. The WARM tier is a window that moves round the others, one step
//! per rotation, so that each of them is watched in its turn. Each chosen
//! market contributes its subscription keys until its tier is full.

use vstd::prelude::*;
use crate::config::{Config, VenueConfig};
use crate::keys::{fill_tier, lemma_fill_tier, KeySet, KeyView};
use crate::scoring::{
    cache_view, lemma_market_ranking, market_ids, market_order, market_ranking, rank_markets,
    ranks_before, raw_scores, MarketStats,
};
use crate::text::str_eq;
use crate::venue::MarketInfo;

verus! {

/// Why no targets could be chosen.
#[derive(Clone, Copy, Debug, PartialEq, Eq, Structural)]
pub enum SchedulerError {
    /// The configuration has no section for the venue.
    VenueConfigNotFound,
}

/// The number of markets in the HOT tier: the configured count, or a tenth
/// of `max_subs` and at least one where none is configured.
pub open spec fn spec_hot_count(cfg: VenueConfig) -> usize {
    if cfg.hot_count > 0 {
        cfg.hot_count
    } else if cfg.max_subs / 10 >= 1 {
        (cfg.max_subs / 10) as usize
    } else {
        1
    }
}

/// The subscription keys of one market: one per token where the venue
/// subscribes by token, else one per outcome.
pub open spec fn market_keys(market: MarketInfo, token_based: bool) -> Seq<KeyView> {
    if token_based {
        market.token_ids@.map_values(|token: String| (token@, Seq::<char>::empty()))
    } else {
        market.outcome_ids@.map_values(|outcome: String| (market.market_id@, outcome@))
    }
}

/// Takes the keys of the markets at `picks`, one market after the other.
pub open spec fn fill_from_markets(
    tier: Seq<KeyView>,
    markets: Seq<MarketInfo>,
    picks: Seq<usize>,
    token_based: bool,
    excluded: Set<KeyView>,
    cap: nat,
) -> Seq<KeyView>
    decreases picks.len(),
{
    if picks.len() == 0 {
        tier
    } else {
        fill_from_markets(
            fill_tier(tier, market_keys(markets[picks[0] as int], token_based), excluded, cap),
            markets,
            picks.drop_first(),
            token_based,
            excluded,
            cap,
        )
    }
}

/// How many of `ranked` markets go to the HOT tier.
pub open spec fn hot_markets(cfg: VenueConfig, ranked: nat) -> nat {
    if spec_hot_count(cfg) <= ranked {
        spec_hot_count(cfg) as nat
    } else {
        ranked
    }
}

/// How many markets one rotation takes into the WARM tier, of `rest` that
/// are not HOT.
pub open spec fn warm_markets(cfg: VenueConfig, rest: nat) -> nat {
    let capacity = if cfg.max_subs > spec_hot_count(cfg) {
        (cfg.max_subs - spec_hot_count(cfg)) as nat
    } else {
        0
    };
    if capacity <= rest {
        capacity
    } else {
        rest
    }
}

/// The markets of the WARM window: `count` of the `rest`, going round from
/// where the cursor stands.
pub open spec fn warm_picks(rest: Seq<usize>, cursor: usize, count: nat) -> Seq<usize> {
    if rest.len() == 0 {
        Seq::empty()
    } else {
        Seq::new(count, |i: int| rest[(cursor as int % rest.len() as int + i) % rest.len() as int])
    }
}

/// Where the cursor stands after a rotation that took `count` markets.
pub open spec fn next_cursor(rest: nat, cursor: usize, count: nat) -> usize {
    if rest == 0 || count == 0 {
        cursor
    } else {
        ((cursor as int % rest as int + count) % rest as int) as usize
    }
}

/// The keys of the HOT tier, for markets ranked as `order` says.
pub open spec fn hot_target(
    markets: Seq<MarketInfo>,
    order: Seq<usize>,
    cfg: VenueConfig,
    token_based: bool,
) -> Seq<KeyView> {
    let cap = if spec_hot_count(cfg) <= cfg.max_subs {
        spec_hot_count(cfg)
    } else {
        cfg.max_subs
    };
    fill_from_markets(
        Seq::empty(),
        markets,
        order.take(hot_markets(cfg, order.len()) as int),
        token_based,
        Set::empty(),
        cap as nat,
    )
}

/// The keys of the WARM tier. A key of the HOT tier is never taken again.
pub open spec fn warm_target(
    markets: Seq<MarketInfo>,
    order: Seq<usize>,
    cfg: VenueConfig,
    cursor: usize,
    token_based: bool,
) -> Seq<KeyView> {
    let hot = hot_target(markets, order, cfg, token_based);
    let rest = order.skip(hot_markets(cfg, order.len()) as int);
    fill_from_markets(
        Seq::empty(),
        markets,
        warm_picks(rest, cursor, warm_markets(cfg, rest.len())),
        token_based,
        hot.to_set(),
        (cfg.max_subs - hot.len()) as nat,
    )
}

/// Takes the keys of `market` into `tier`: each key that is new to the tier
/// and not in `excluded`, as long as the tier holds fewer than `cap` keys.
fn fill_from_market(
    tier: &mut KeySet,
    market: &MarketInfo,
    token_based: bool,
    excluded: &KeySet,
    cap: usize,
)
    requires
        old(tier).wf(),
        excluded.wf(),
    ensures
        final(tier).wf(),
        final(tier).order() == fill_tier(
            old(tier).order(),
            market_keys(*market, token_based),
            excluded@,
            cap as nat,
        ),
{
    let ids = if token_based {
        &market.token_ids
    } else {
        &market.outcome_ids
    };
    let ghost keys = market_keys(*market, token_based);
    let ghost start = tier.order();
    assert(keys.skip(0) =~= keys);
    let mut i: usize = 0;
    while i < ids.len()
        invariant
            tier.wf(),
            excluded.wf(),
            i <= ids.len(),
            keys.len() == ids.len(),
            keys == market_keys(*market, token_based),
            ids@ == if token_based {
                market.token_ids@
            } else {
                market.outcome_ids@
            },
            fill_tier(tier.order(), keys.skip(i as int), excluded@, cap as nat) == fill_tier(
                start,
                keys,
                excluded@,
                cap as nat,
            ),
        decreases ids.len() - i,
    {
        let key = if token_based {
            (ids[i].clone(), String::new())
        } else {
            (market.market_id.clone(), ids[i].clone())
        };
        assert(key@ == keys[i as int]);
        assert(keys.skip(i as int)[0] == keys[i as int]);
        assert(keys.skip(i as int).drop_first() =~= keys.skip(i + 1));
        if tier.len() < cap && !excluded.contains(&key) && !tier.contains(&key) {
            tier.insert(key);
        }
        i += 1;
    }
}

/// Unfolds `fill_from_markets` at position `i` of `picks`.
proof fn lemma_fill_step(
    tier: Seq<KeyView>,
    markets: Seq<MarketInfo>,
    picks: Seq<usize>,
    i: int,
    token_based: bool,
    excluded: Set<KeyView>,
    cap: nat,
)
    requires
        0 <= i < picks.len(),
    ensures
        fill_from_markets(tier, markets, picks.skip(i), token_based, excluded, cap)
            == fill_from_markets(
            fill_tier(tier, market_keys(markets[picks[i] as int], token_based), excluded, cap),
            markets,
            picks.skip(i + 1),
            token_based,
            excluded,
            cap,
        ),
{
    assert(picks.skip(i)[0] == picks[i]);
    assert(picks.skip(i).drop_first() =~= picks.skip(i + 1));
}

/// Whether some market at `picks` has `key` among its keys.
pub open spec fn offered(
    markets: Seq<MarketInfo>,
    picks: Seq<usize>,
    token_based: bool,
    key: KeyView,
) -> bool {
    exists|j: int|
        0 <= j < picks.len() && #[trigger] market_keys(
            markets[picks[j] as int],
            token_based,
        ).contains(key)
}

/// Whether some market of the universe has `key` among its keys.
pub open spec fn in_universe(markets: Seq<MarketInfo>, token_based: bool, key: KeyView) -> bool {
    exists|i: int|
        0 <= i < markets.len() && #[trigger] market_keys(markets[i], token_based).contains(key)
}

/// The same of a tier filled from several markets.
pub proof fn lemma_fill_from_markets(
    tier: Seq<KeyView>,
    markets: Seq<MarketInfo>,
    picks: Seq<usize>,
    token_based: bool,
    excluded: Set<KeyView>,
    cap: nat,
)
    ensures
        tier.len() <= fill_from_markets(tier, markets, picks, token_based, excluded, cap).len(),
        fill_from_markets(tier, markets, picks, token_based, excluded, cap).len() <= cap
            || fill_from_markets(tier, markets, picks, token_based, excluded, cap).len()
            == tier.len(),
        forall|k: KeyView| #[trigger]
            fill_from_markets(tier, markets, picks, token_based, excluded, cap).contains(k)
                ==> tier.contains(k) || (offered(markets, picks, token_based, k)
                && !excluded.contains(k)),
    decreases picks.len(),
{
    if picks.len() > 0 {
        let keys = market_keys(markets[picks[0] as int], token_based);
        let next = fill_tier(tier, keys, excluded, cap);
        lemma_fill_tier(tier, keys, excluded, cap);
        lemma_fill_from_markets(next, markets, picks.drop_first(), token_based, excluded, cap);
        assert forall|k: KeyView| #[trigger]
            fill_from_markets(tier, markets, picks, token_based, excluded, cap).contains(
                k,
            ) implies tier.contains(k) || (offered(markets, picks, token_based, k)
            && !excluded.contains(k)) by {
            if next.contains(k) {
                if !tier.contains(k) {
                    assert(market_keys(markets[picks[0] as int], token_based).contains(k));
                }
            } else {
                assert(offered(markets, picks.drop_first(), token_based, k));
                let j = choose|j: int|
                    0 <= j < picks.drop_first().len() && #[trigger] market_keys(
                        markets[picks.drop_first()[j] as int],
                        token_based,
                    ).contains(k);
                assert(market_keys(markets[picks[j + 1] as int], token_based).contains(k));
            }
        }
    }
}

/// Takes the keys of the markets at `picks` into `tier`, one market after
/// the other.
fn fill_from_picks(
    tier: &mut KeySet,
    markets: &[MarketInfo],
    picks: &Vec<usize>,
    token_based: bool,
    excluded: &KeySet,
    cap: usize,
)
    requires
        old(tier).wf(),
        excluded.wf(),
        forall|j: int| 0 <= j < picks.len() ==> (#[trigger] picks[j]) < markets.len(),
    ensures
        final(tier).wf(),
        final(tier).order() == fill_from_markets(
            old(tier).order(),
            markets@,
            picks@,
            token_based,
            excluded@,
            cap as nat,
        ),
{
    let ghost start = tier.order();
    assert(picks@.skip(0) =~= picks@);
    let mut i: usize = 0;
    while i < picks.len()
        invariant
            tier.wf(),
            excluded.wf(),
            i <= picks.len(),
            forall|j: int| 0 <= j < picks.len() ==> (#[trigger] picks[j]) < markets.len(),
            fill_from_markets(
                tier.order(),
                markets@,
                picks@.skip(i as int),
                token_based,
                excluded@,
                cap as nat,
            ) == fill_from_markets(start, markets@, picks@, token_based, excluded@, cap as nat),
        decreases picks.len() - i,
    {
        proof {
            lemma_fill_step(
                tier.order(),
                markets@,
                picks@,
                i as int,
                token_based,
                excluded@,
                cap as nat,
            );
        }
        fill_from_market(tier, &markets[picks[i]], token_based, excluded, cap);
        i += 1;
    }
}

/// A number below twice the modulus wraps round at most once.
proof fn lemma_wrap(x: int, r: int)
    requires
        0 <= x < 2 * r,
    ensures
        x % r == if x < r {
            x
        } else {
            x - r
        },
{
    if x < r {
        vstd::arithmetic::div_mod::lemma_small_mod(x as nat, r as nat);
    } else {
        vstd::arithmetic::div_mod::lemma_small_mod((x - r) as nat, r as nat);
        vstd::arithmetic::div_mod::lemma_mod_sub_multiples_vanish(x, r);
    }
}

/// The targets of a rotation stay within the subscription budget, the two
/// tiers share no key, no tier holds a key twice, and every key is a key of
/// some market of the universe.
pub proof fn lemma_targets_sound(
    markets: Seq<MarketInfo>,
    order: Seq<usize>,
    cfg: VenueConfig,
    cursor: usize,
    token_based: bool,
)
    requires
        forall|j: int| 0 <= j < order.len() ==> (#[trigger] order[j]) < markets.len(),
    ensures
        hot_target(markets, order, cfg, token_based).len() + warm_target(
            markets,
            order,
            cfg,
            cursor,
            token_based,
        ).len() <= cfg.max_subs,
        forall|k: KeyView|
            !(hot_target(markets, order, cfg, token_based).contains(k) && #[trigger] warm_target(
                markets,
                order,
                cfg,
                cursor,
                token_based,
            ).contains(k)),
        forall|k: KeyView| #[trigger]
            hot_target(markets, order, cfg, token_based).contains(k) ==> in_universe(
                markets,
                token_based,
                k,
            ),
        forall|k: KeyView| #[trigger]
            warm_target(markets, order, cfg, cursor, token_based).contains(k) ==> in_universe(
                markets,
                token_based,
                k,
            ),
{
    let hn = hot_markets(cfg, order.len()) as int;
    let hot_cap = if spec_hot_count(cfg) <= cfg.max_subs {
        spec_hot_count(cfg)
    } else {
        cfg.max_subs
    };
    let hot_picks = order.take(hn);
    let hot = hot_target(markets, order, cfg, token_based);
    lemma_fill_from_markets(
        Seq::empty(),
        markets,
        hot_picks,
        token_based,
        Set::empty(),
        hot_cap as nat,
    );
    let rest = order.skip(hn);
    let picks = warm_picks(rest, cursor, warm_markets(cfg, rest.len()));
    let warm = warm_target(markets, order, cfg, cursor, token_based);
    lemma_fill_from_markets(
        Seq::empty(),
        markets,
        picks,
        token_based,
        hot.to_set(),
        (cfg.max_subs - hot.len()) as nat,
    );
    assert forall|k: KeyView| #[trigger] hot.contains(k) implies in_universe(
        markets,
        token_based,
        k,
    ) by {
        assert(offered(markets, hot_picks, token_based, k));
        let j = choose|j: int|
            0 <= j < hot_picks.len() && #[trigger] market_keys(
                markets[hot_picks[j] as int],
                token_based,
            ).contains(k);
        assert(hot_picks[j] == order[j]);
    }
    assert forall|k: KeyView| #[trigger] warm.contains(k) implies in_universe(
        markets,
        token_based,
        k,
    ) && !hot.contains(k) by {
        assert(offered(markets, picks, token_based, k));
        let j = choose|j: int|
            0 <= j < picks.len() && #[trigger] market_keys(
                markets[picks[j] as int],
                token_based,
            ).contains(k);
        let at = (cursor as int % rest.len() as int + j) % rest.len() as int;
        assert(0 <= at < rest.len()) by (nonlinear_arith)
            requires
                rest.len() > 0,
                at == (cursor as int % rest.len() as int + j) % rest.len() as int,
        ;
        assert(picks[j] == rest[at]);
        assert(rest[at] == order[hn + at]);
    }
}

/// Where the cursor stands after `rotations` rotations of `count` markets
/// each, round `rest` markets.
pub open spec fn cursor_after(rest: nat, cursor: usize, count: nat, rotations: nat) -> usize
    decreases rotations,
{
    if rotations == 0 {
        cursor
    } else {
        next_cursor(rest, cursor_after(rest, cursor, count, (rotations - 1) as nat), count)
    }
}

/// The tiers go by rank. With `h` markets in the HOT tier, every HOT key
/// is a key of one of the `h` best-ranked markets, every WARM key is a key
/// of a market behind them and no HOT key, and each of the `h` best-ranked
/// markets ranks before each market behind them: by score, among equal
/// scores by `market_id`, among equal identifiers by position.
pub proof fn lemma_tiers_by_rank(
    markets: Seq<MarketInfo>,
    stats: Option<Seq<MarketStats>>,
    now_ms: i64,
    cfg: VenueConfig,
    cursor: usize,
    token_based: bool,
)
    requires
        markets.len() <= usize::MAX,
    ensures
        ({
            let order = market_ranking(markets, stats, now_ms);
            let h = hot_markets(cfg, markets.len()) as int;
            let hot = hot_target(markets, order, cfg, token_based);
            let warm = warm_target(markets, order, cfg, cursor, token_based);
            &&& order.len() == markets.len()
            &&& forall|k: KeyView| #[trigger]
                hot.contains(k) ==> offered(markets, order.take(h), token_based, k)
            &&& forall|k: KeyView| #[trigger]
                warm.contains(k) ==> offered(markets, order.skip(h), token_based, k)
                    && !hot.contains(k)
            &&& forall|p: int, q: int|
                0 <= p < h && h <= q < markets.len() ==> ranks_before(
                    raw_scores(markets, stats, now_ms),
                    market_ids(markets),
                    #[trigger] order[p] as int,
                    #[trigger] order[q] as int,
                )
        }),
{
    let order = market_ranking(markets, stats, now_ms);
    let h = hot_markets(cfg, markets.len()) as int;
    let hot = hot_target(markets, order, cfg, token_based);
    let warm = warm_target(markets, order, cfg, cursor, token_based);
    lemma_market_ranking(markets, stats, now_ms);
    let hot_cap = if spec_hot_count(cfg) <= cfg.max_subs {
        spec_hot_count(cfg)
    } else {
        cfg.max_subs
    };
    lemma_fill_from_markets(
        Seq::empty(),
        markets,
        order.take(h),
        token_based,
        Set::empty(),
        hot_cap as nat,
    );
    let rest = order.skip(h);
    let picks = warm_picks(rest, cursor, warm_markets(cfg, rest.len()));
    lemma_fill_from_markets(
        Seq::empty(),
        markets,
        picks,
        token_based,
        hot.to_set(),
        (cfg.max_subs - hot.len()) as nat,
    );
    assert forall|k: KeyView| #[trigger] warm.contains(k) implies offered(
        markets,
        rest,
        token_based,
        k,
    ) && !hot.contains(k) by {
        assert(offered(markets, picks, token_based, k));
        let j = choose|j: int|
            0 <= j < picks.len() && #[trigger] market_keys(
                markets[picks[j] as int],
                token_based,
            ).contains(k);
        let at = (cursor as int % rest.len() as int + j) % rest.len() as int;
        vstd::arithmetic::div_mod::lemma_mod_bound(
            cursor as int % rest.len() as int + j,
            rest.len() as int,
        );
        assert(picks[j] == rest[at]);
        assert(market_keys(markets[rest[at] as int], token_based).contains(k));
    }
    assert forall|p: int, q: int| 0 <= p < h && h <= q < markets.len() implies ranks_before(
        raw_scores(markets, stats, now_ms),
        market_ids(markets),
        #[trigger] order[p] as int,
        #[trigger] order[q] as int,
    ) by {
        let before = market_order(raw_scores(markets, stats, now_ms), market_ids(markets));
        assert(before(order[p] as int, order[q] as int));
    }
}

/// After `k` rotations the cursor has moved on by `k` times `count`, round
/// the `rest` markets.
proof fn lemma_cursor_after(rest: nat, cursor: usize, count: nat, k: nat)
    requires
        0 < count <= rest <= usize::MAX,
    ensures
        cursor_after(rest, cursor, count, k) as int % rest as int == (cursor as int % rest as int + k
            * count) % rest as int,
    decreases k,
{
    let r = rest as int;
    let s = cursor as int % r;
    vstd::arithmetic::div_mod::lemma_mod_bound(cursor as int, r);
    if k == 0 {
        vstd::arithmetic::div_mod::lemma_small_mod(s as nat, rest);
        assert(k * count == 0) by (nonlinear_arith)
            requires
                k == 0,
        ;
        assert((s + k * count) % r == s);
    } else {
        lemma_cursor_after(rest, cursor, count, (k - 1) as nat);
        let before = cursor_after(rest, cursor, count, (k - 1) as nat);
        let x = s + (k - 1) * count;
        assert(before as int % r == x % r);
        let moved = (before as int % r + count) % r;
        vstd::arithmetic::div_mod::lemma_mod_bound(before as int % r + count, r);
        assert(cursor_after(rest, cursor, count, k) as int == moved);
        vstd::arithmetic::div_mod::lemma_small_mod(moved as nat, rest);
        vstd::arithmetic::div_mod::lemma_add_mod_noop_right(count as int, x, r);
        assert(moved == (count + x) % r);
        assert(count + x == s + k * count) by (nonlinear_arith)
            requires
                x == s + (k - 1) * count,
        ;
    }
}

/// Rotation reaches every market that is not HOT: while the ranking
/// stays as it is, each of the `rest` markets is in the WARM window of one
/// of the first `rotations` rotations, as soon as these take as many
/// markets together as there are.
pub proof fn lemma_rotation_covers(
    rest: Seq<usize>,
    cursor: usize,
    count: nat,
    rotations: nat,
    p: int,
)
    requires
        0 < count <= rest.len() <= usize::MAX,
        rotations * count >= rest.len(),
        0 <= p < rest.len(),
    ensures
        exists|k: int|
            0 <= k < rotations && (#[trigger] warm_picks(
                rest,
                cursor_after(rest.len(), cursor, count, k as nat),
                count,
            )).contains(rest[p]),
{
    let r = rest.len() as int;
    let s = cursor as int % r;
    vstd::arithmetic::div_mod::lemma_mod_bound(cursor as int, r);
    let t = (p - s) % r;
    vstd::arithmetic::div_mod::lemma_mod_bound(p - s, r);
    let k = t / (count as int);
    let i = t % (count as int);
    vstd::arithmetic::div_mod::lemma_fundamental_div_mod(t, count as int);
    vstd::arithmetic::div_mod::lemma_mod_bound(t, count as int);
    assert(0 <= k < rotations) by (nonlinear_arith)
        requires
            0 <= t < r,
            r <= rotations * count,
            count > 0,
            t == count * k + i,
            0 <= i < count,
    ;
    lemma_cursor_after(rest.len(), cursor, count, k as nat);
    let c = cursor_after(rest.len(), cursor, count, k as nat);
    // (c % r + i) % r == (s + k * count + i) % r == (s + t) % r == p
    vstd::arithmetic::div_mod::lemma_add_mod_noop_right(i, s + k * count, r);
    assert((c as int % r + i) % r == (i + (s + k * count)) % r);
    assert(i + (s + k * count) == s + t) by (nonlinear_arith)
        requires
            t == count * k + i,
    ;
    vstd::arithmetic::div_mod::lemma_add_mod_noop_right(s, p - s, r);
    vstd::arithmetic::div_mod::lemma_small_mod(p as nat, r as nat);
    assert((s + t) % r == p);
    let picks = warm_picks(rest, c, count);
    assert(picks[i] == rest[(c as int % r + i) % r]);
    assert(picks.contains(rest[p]));
    assert(0 <= k < rotations && warm_picks(
        rest,
        cursor_after(rest.len(), cursor, count, k as nat),
        count,
    ).contains(rest[p]));
}

/// The number of markets in the HOT tier.
pub fn hot_count(cfg: &VenueConfig) -> (out: usize)
    ensures
        out == spec_hot_count(*cfg),
        out >= 1,
{
    if cfg.hot_count > 0 {
        cfg.hot_count
    } else if cfg.max_subs / 10 >= 1 {
        cfg.max_subs / 10
    } else {
        1
    }
}

/// Chooses the HOT and the WARM keys of one rotation, and says where the
/// rotation cursor stands after it. `order` ranks the markets, best first.
pub fn choose_targets(
    cfg: &VenueConfig,
    token_based: bool,
    markets: &[MarketInfo],
    order: &Vec<usize>,
    cursor: usize,
) -> (out: (KeySet, KeySet, usize))
    requires
        forall|j: int| 0 <= j < order.len() ==> (#[trigger] order[j]) < markets.len(),
    ensures
        out.0.wf(),
        out.1.wf(),
        out.0.order() == hot_target(markets@, order@, *cfg, token_based),
        out.1.order() == warm_target(markets@, order@, *cfg, cursor, token_based),
        out.2 == next_cursor(
            (order.len() - hot_markets(*cfg, order@.len())) as nat,
            cursor,
            warm_markets(*cfg, (order.len() - hot_markets(*cfg, order@.len())) as nat),
        ),
        out.0@.len() + out.1@.len() <= cfg.max_subs,
        out.0@.disjoint(out.1@),
        forall|k: KeyView|
            out.0@.contains(k) || out.1@.contains(k) ==> in_universe(markets@, token_based, k),
{
    let wanted = hot_count(cfg);
    let ranked = order.len();
    let hot_len = if wanted <= ranked {
        wanted
    } else {
        ranked
    };
    let hot_cap = if wanted <= cfg.max_subs {
        wanted
    } else {
        cfg.max_subs
    };
    let mut hot_picks: Vec<usize> = Vec::new();
    let mut i: usize = 0;
    while i < hot_len
        invariant
            i <= hot_len <= order.len(),
            hot_picks@ =~= order@.take(i as int),
        decreases hot_len - i,
    {
        hot_picks.push(order[i]);
        i += 1;
    }
    let mut hot = KeySet::new();
    let nothing = KeySet::new();
    fill_from_picks(&mut hot, markets, &hot_picks, token_based, &nothing, hot_cap);
    proof {
        lemma_fill_from_markets(
            Seq::empty(),
            markets@,
            hot_picks@,
            token_based,
            Set::empty(),
            hot_cap as nat,
        );
        hot.lemma_order();
    }
    let rest_len = ranked - hot_len;
    let capacity = if cfg.max_subs > wanted {
        cfg.max_subs - wanted
    } else {
        0
    };
    let count = if capacity <= rest_len {
        capacity
    } else {
        rest_len
    };
    let ghost rest = order@.skip(hot_len as int);
    let mut picks: Vec<usize> = Vec::new();
    let mut next = cursor;
    if rest_len > 0 && count > 0 {
        let start = cursor % rest_len;
        let mut i: usize = 0;
        while i < count
            invariant
                i <= count <= rest_len,
                rest_len == ranked - hot_len,
                ranked == order.len(),
                start < rest_len,
                rest == order@.skip(hot_len as int),
                picks.len() == i,
                forall|j: int|
                    0 <= j < i ==> picks[j] == rest[(start as int + j) % rest_len as int],
            decreases count - i,
        {
            let at = if i < rest_len - start {
                start + i
            } else {
                i - (rest_len - start)
            };
            proof {
                lemma_wrap(start as int + i as int, rest_len as int);
            }
            picks.push(order[hot_len + at]);
            i += 1;
        }
        next =
        if count < rest_len - start {
            start + count
        } else {
            count - (rest_len - start)
        };
        proof {
            lemma_wrap(start as int + count as int, rest_len as int);
        }
    }
    assert(picks@ =~= warm_picks(rest, cursor, count as nat));
    assert forall|j: int| 0 <= j < picks.len() implies (#[trigger] picks[j]) < markets.len() by {
        let at = (cursor as int % rest_len as int + j) % rest_len as int;
        assert(0 <= at < rest_len) by (nonlinear_arith)
            requires
                rest_len > 0,
                at == (cursor as int % rest_len as int + j) % rest_len as int,
        ;
        assert(picks[j] == rest[at]);
        assert(rest[at] == order[hot_len + at]);
    }
    let mut warm = KeySet::new();
    fill_from_picks(&mut warm, markets, &picks, token_based, &hot, cfg.max_subs - hot.len());
    proof {
        lemma_targets_sound(markets@, order@, *cfg, cursor, token_based);
        warm.lemma_order();
        assert forall|k: KeyView| !(hot@.contains(k) && warm@.contains(k)) by {
            if hot@.contains(k) && warm@.contains(k) {
                assert(hot.order().contains(k));
                assert(warm.order().contains(k));
            }
        }
    }
    (hot, warm, next)
}

/// Per-venue scheduling state: the tiers chosen last, when the last rotation
/// was, and where the rotation cursor stands.
pub struct Scheduler {
    config: Config,
    last_rotation: Option<u64>,
    current_hot: KeySet,
    current_warm: KeySet,
    rotation_cursor: usize,
}

/// Whole seconds from `last` to `now_ms`, both on one monotonic clock in
/// milliseconds; none where the clock has not moved on.
pub open spec fn elapsed_secs(last: u64, now_ms: u64) -> int {
    if now_ms >= last {
        (now_ms - last) / 1000
    } else {
        0
    }
}

impl Scheduler {
    /// The configuration that the scheduler was made with.
    pub closed spec fn config(&self) -> Config {
        self.config
    }

    /// The HOT keys chosen last, in the order in which they were taken.
    pub closed spec fn hot(&self) -> Seq<KeyView> {
        self.current_hot.order()
    }

    /// The WARM keys chosen last, in the order in which they were taken.
    pub closed spec fn warm(&self) -> Seq<KeyView> {
        self.current_warm.order()
    }

    /// Where the rotation cursor stands.
    pub closed spec fn cursor(&self) -> usize {
        self.rotation_cursor
    }

    /// When the last rotation was marked, on the caller's monotonic clock.
    pub closed spec fn last_rotation(&self) -> Option<u64> {
        self.last_rotation
    }

    /// The two tiers hold no key twice and share none.
    pub closed spec fn wf(&self) -> bool {
        &&& self.current_hot.wf()
        &&& self.current_warm.wf()
        &&& self.current_hot@.disjoint(self.current_warm@)
    }

    /// What `wf` says, over `hot` and `warm`.
    pub proof fn lemma_wf(&self)
        requires
            self.wf(),
        ensures
            self.hot().no_duplicates(),
            self.warm().no_duplicates(),
            forall|k: KeyView| !(self.hot().contains(k) && self.warm().contains(k)),
    {
        self.current_hot.lemma_order();
        self.current_warm.lemma_order();
        assert forall|k: KeyView| !(self.hot().contains(k) && self.warm().contains(k)) by {
            if self.hot().contains(k) && self.warm().contains(k) {
                assert(self.current_hot@.contains(k));
                assert(self.current_warm@.contains(k));
            }
        }
    }

    /// A scheduler that has chosen nothing yet and has never rotated.
    pub fn new(config: Config) -> (out: Scheduler)
        ensures
            out.wf(),
            out.config() == config,
            out.hot() == Seq::<KeyView>::empty(),
            out.warm() == Seq::<KeyView>::empty(),
            out.cursor() == 0,
            out.last_rotation() == None::<u64>,
    {
        Scheduler {
            config,
            last_rotation: None,
            current_hot: KeySet::new(),
            current_warm: KeySet::new(),
            rotation_cursor: 0,
        }
    }

    /// Where the rotation cursor stands.
    pub fn rotation_cursor(&self) -> (out: usize)
        ensures
            out == self.cursor(),
    {
        self.rotation_cursor
    }

    /// The HOT keys chosen last.
    pub fn current_hot(&self) -> (out: &KeySet)
        ensures
            out.order() == self.hot(),
            self.wf() ==> out.wf(),
    {
        &self.current_hot
    }

    /// The WARM keys chosen last.
    pub fn current_warm(&self) -> (out: &KeySet)
        ensures
            out.order() == self.warm(),
            self.wf() ==> out.wf(),
    {
        &self.current_warm
    }

    /// Chooses the `(HOT, WARM)` targets of venue `venue_name` from its
    /// universe `markets`, scored at time `now_ms` with the statistics that
    /// are known, and remembers them. The venue `polymarket` subscribes by
    /// token, the others by outcome. Without a configuration for the venue
    /// nothing changes.
    pub fn get_target_subscriptions(
        &mut self,
        venue_name: &str,
        markets: &[MarketInfo],
        stats_cache: Option<&[MarketStats]>,
        now_ms: i64,
    ) -> (out: Result<(KeySet, KeySet), SchedulerError>)
        requires
            old(self).wf(),
        ensures
            final(self).wf(),
            final(self).config() == old(self).config(),
            final(self).last_rotation() == old(self).last_rotation(),
            match old(self).config().venues.section(venue_name@) {
                None => {
                    &&& out == Err::<(KeySet, KeySet), SchedulerError>(
                        SchedulerError::VenueConfigNotFound,
                    )
                    &&& final(self).hot() == old(self).hot()
                    &&& final(self).warm() == old(self).warm()
                    &&& final(self).cursor() == old(self).cursor()
                },
                Some(cfg) => {
                    &&& out is Ok
                    &&& out->Ok_0.0.wf()
                    &&& out->Ok_0.1.wf()
                    &&& final(self).hot() == out->Ok_0.0.order()
                    &&& final(self).warm() == out->Ok_0.1.order()
                    &&& out->Ok_0.0.order() == hot_target(
                        markets@,
                        market_ranking(markets@, cache_view(stats_cache), now_ms),
                        cfg,
                        venue_name@ == "polymarket"@,
                    )
                    &&& out->Ok_0.1.order() == warm_target(
                        markets@,
                        market_ranking(markets@, cache_view(stats_cache), now_ms),
                        cfg,
                        old(self).cursor(),
                        venue_name@ == "polymarket"@,
                    )
                    &&& final(self).cursor() == next_cursor(
                        (markets.len() - hot_markets(cfg, markets@.len())) as nat,
                        old(self).cursor(),
                        warm_markets(cfg, (markets.len() - hot_markets(cfg, markets@.len())) as nat),
                    )
                    &&& out->Ok_0.0@.len() + out->Ok_0.1@.len() <= cfg.max_subs
                    &&& out->Ok_0.0@.disjoint(out->Ok_0.1@)
                    &&& forall|k: KeyView|
                        out->Ok_0.0@.contains(k) || out->Ok_0.1@.contains(k) ==> in_universe(
                            markets@,
                            venue_name@ == "polymarket"@,
                            k,
                        )
                },
            },
    {
        let token_based = str_eq(venue_name, "polymarket");
        let (hot, warm, cursor) = match self.config.get_venue_config(venue_name) {
            None => {
                return Err(SchedulerError::VenueConfigNotFound);
            },
            Some(cfg) => {
                let order = rank_markets(markets, stats_cache, now_ms);
                choose_targets(cfg, token_based, markets, &order, self.rotation_cursor)
            },
        };
        self.current_hot = hot.cloned();
        self.current_warm = warm.cloned();
        self.rotation_cursor = cursor;
        Ok((hot, warm))
    }

    /// Whether the venue `venue_name` is due for a rotation at `now_ms`:
    /// rotation is enabled, the venue is configured, and either no rotation
    /// was ever marked or `rotation_period_secs` whole seconds have passed
    /// since the last one.
    pub open spec fn rotation_due(&self, venue_name: Seq<char>, now_ms: u64) -> bool {
        self.config().rotation.enabled && match self.config().venues.section(venue_name) {
            None => false,
            Some(cfg) => match self.last_rotation() {
                None => true,
                Some(last) => elapsed_secs(last, now_ms) >= cfg.rotation_period_secs,
            },
        }
    }

    /// Whether the venue is due for a rotation at `now_ms`.
    pub fn should_rotate(&self, venue_name: &str, now_ms: u64) -> (due: bool)
        ensures
            due == self.rotation_due(venue_name@, now_ms),
    {
        if !self.config.rotation.enabled {
            return false;
        }
        match self.config.get_venue_config(venue_name) {
            None => false,
            Some(cfg) => match self.last_rotation {
                None => true,
                Some(last) => {
                    let elapsed = if now_ms >= last {
                        (now_ms - last) / 1000
                    } else {
                        0
                    };
                    elapsed >= cfg.rotation_period_secs
                },
            },
        }
    }

    /// Marks a rotation at `now_ms`.
    pub fn mark_rotated(&mut self, now_ms: u64)
        ensures
            final(self).last_rotation() == Some(now_ms),
            final(self).config() == old(self).config(),
            final(self).hot() == old(self).hot(),
            final(self).warm() == old(self).warm(),
            final(self).cursor() == old(self).cursor(),
            old(self).wf() ==> final(self).wf(),
    {
        self.last_rotation = Some(now_ms);
    }
}

} // verus!
