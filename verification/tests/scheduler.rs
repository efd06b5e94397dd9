use surveillance::config::{
    default_bucket_minutes, default_flush_rows, default_flush_seconds, default_hot_count,
    default_markets_per_venue, default_max_subs, default_rotation_period_secs,
    default_snapshot_interval_ms_hot, default_snapshot_interval_ms_warm,
    default_subscription_churn_limit, default_top_k, default_true, default_false,
    default_universe_size, Config, MockConfig, RotationConfig, StorageConfig, VenueConfig,
    VenuesConfig,
};
use surveillance::keys::KeySet;
use surveillance::ranking::stable_order;
use surveillance::scheduler::{choose_targets, hot_count, Scheduler, SchedulerError};
use surveillance::scoring::{
    find_stats, rank_markets, recency_score, score_market, score_markets, stats_score, MarketStats,
};
use surveillance::venue::MarketInfo;

fn venue_config(max_subs: usize, hot_count: usize) -> VenueConfig {
    VenueConfig {
        enabled: true,
        api_key: String::new(),
        api_secret: String::new(),
        ws_url: None,
        rest_url: None,
        max_subs,
        hot_count,
        rotation_period_secs: 1, // 1 second for testing
        snapshot_interval_ms_hot: 2000,
        snapshot_interval_ms_warm: 10000,
        subscription_churn_limit_per_minute: 20,
    }
}

fn config(polymarket: Option<VenueConfig>, kalshi: Option<VenueConfig>) -> Config {
    Config {
        data_dir: "data".to_string(),
        venues: VenuesConfig { polymarket, kalshi },
        storage: StorageConfig { top_k: 50, flush_rows: 50000, flush_seconds: 5, bucket_minutes: 5 },
        rotation: RotationConfig { enabled: true },
        mock: MockConfig { enabled: true, universe_size: 1000, markets_per_venue: 500 },
    }
}

fn market(id: &str, outcomes: &[&str], tokens: &[&str], close_ts: Option<i64>, status: &str) -> MarketInfo {
    MarketInfo {
        market_id: id.to_string(),
        title: format!("Market {id}"),
        outcome_ids: outcomes.iter().map(|s| s.to_string()).collect(),
        close_ts,
        status: status.to_string(),
        tags: vec![],
        token_ids: tokens.iter().map(|s| s.to_string()).collect(),
    }
}

fn keys(set: &KeySet) -> Vec<(String, String)> {
    set.to_vec()
}

fn pairs(items: &[(&str, &str)]) -> Vec<(String, String)> {
    items.iter().map(|(a, b)| (a.to_string(), b.to_string())).collect()
}

#[test]
fn test_scheduler_should_rotate() {
    let config = config(Some(venue_config(200, 40)), None);

    let mut scheduler = Scheduler::new(config);
    assert!(scheduler.should_rotate("polymarket", 5_000));
    scheduler.mark_rotated(5_000);
    assert!(!scheduler.should_rotate("polymarket", 5_000));
}

#[test]
fn rotation_is_due_after_the_period() {
    let mut scheduler = Scheduler::new(config(Some(venue_config(200, 40)), None));
    scheduler.mark_rotated(5_000);
    assert!(!scheduler.should_rotate("polymarket", 5_999));
    assert!(scheduler.should_rotate("polymarket", 6_000));
    assert!(!scheduler.should_rotate("polymarket", 4_000));
    // A venue without configuration never rotates, nor any venue with rotation off.
    assert!(!scheduler.should_rotate("kalshi", 6_000));
    assert!(!scheduler.should_rotate("other", 6_000));
    let mut off = config(Some(venue_config(200, 40)), None);
    off.rotation.enabled = false;
    let scheduler = Scheduler::new(off);
    assert!(!scheduler.should_rotate("polymarket", 0));
}

#[test]
fn test_score_markets() {
    let now = chrono::Utc::now().timestamp_millis();
    let markets = vec![
        market("market1", &["yes", "no"], &[], Some(now + 86400_000), "active"),
        market("market2", &["yes", "no"], &[], Some(now - 86400_000), "closed"),
    ];

    let scores = score_markets(&markets, None, now);
    assert_eq!(scores.len(), 2);
    assert!(scores[0].score > scores[1].score); // Active market should score higher
    assert_eq!(scores[0].market_id, "market1");
}

#[test]
fn scores_in_millionths() {
    // One day ahead: 1 / (1 + 1/30) = 30/31.
    assert_eq!(recency_score(Some(86_400_000), 0), 967_741);
    // Thirty days ahead: one half.
    assert_eq!(recency_score(Some(2_592_000_000), 0), 500_000);
    assert_eq!(recency_score(Some(1), 0), 999_999);
    assert_eq!(recency_score(Some(i64::MAX), i64::MIN), 0);
    // A close that has come gives nothing.
    assert_eq!(recency_score(Some(0), 0), 0);
    assert_eq!(recency_score(Some(-1), 0), 0);
    assert_eq!(recency_score(Some(i64::MIN), i64::MAX), 0);
    assert_eq!(recency_score(None, 0), 0);

    let stats = |avg_depth: i64, avg_spread: i64, update_count: usize| MarketStats {
        market_id: "m".to_string(),
        avg_depth,
        avg_spread,
        update_count,
    };
    // depth 500 -> 0.5; spread 0.01 -> 1/(1+1) = 0.5; 2500 updates -> 0.25
    assert_eq!(stats_score(&stats(500_000_000, 10_000, 2500)), 1_250_000);
    assert_eq!(stats_score(&stats(0, 0, 0)), 0);
    assert_eq!(stats_score(&stats(0, -5, 0)), 0);
    assert_eq!(stats_score(&stats(999, 0, 0)), 0);
    assert_eq!(stats_score(&stats(-1, 0, 0)), -1);
    assert_eq!(stats_score(&stats(-1000, 0, 0)), -1);
    assert_eq!(stats_score(&stats(-1001, 0, 0)), -2);
    assert_eq!(stats_score(&stats(0, 1, 0)), 999_900);
    assert_eq!(stats_score(&stats(0, 0, 1)), 100);
    assert_eq!(
        stats_score(&stats(i64::MAX, i64::MAX, usize::MAX)),
        (i64::MAX / 1000) as i128 + 0 + (usize::MAX as i128) * 100
    );

    let m = market("m", &["yes"], &[], Some(2_592_000_000), "active");
    assert_eq!(score_market(&m, None, 0), 1_000_000);
    let cache = vec![stats(0, 0, 7), stats(0, 0, 9)];
    assert_eq!(score_market(&m, Some(&cache), 0), 1_000_700);
    assert_eq!(find_stats(&cache, "m").unwrap().update_count, 7);
    assert!(find_stats(&cache, "n").is_none());
    let other = market("n", &["yes"], &[], None, "Active");
    assert_eq!(score_market(&other, Some(&cache), 0), 0);
}

#[test]
fn markets_of_equal_score_go_by_their_id() {
    let markets = vec![
        market("c", &["yes"], &[], None, "closed"),
        market("b", &["yes"], &[], None, "active"),
        market("d", &["yes"], &[], None, "closed"),
        market("a", &["yes"], &[], None, "active"),
    ];
    assert_eq!(rank_markets(&markets, None, 0), vec![3, 1, 0, 2]);
    let scores = score_markets(&markets, None, 0);
    let ids: Vec<&str> = scores.iter().map(|s| s.market_id.as_str()).collect();
    assert_eq!(ids, vec!["a", "b", "c", "d"]);
    assert_eq!(scores.iter().map(|s| s.score).collect::<Vec<_>>(), vec![500_000, 500_000, 0, 0]);
    assert!(score_markets(&[], None, 0).is_empty());

    // Two markets b, a of equal score: a comes first.
    let pair = vec![market("b", &["yes"], &[], None, "active"), market("a", &["yes"], &[], None, "active")];
    assert_eq!(rank_markets(&pair, None, 0), vec![1, 0]);
    let mut scheduler = Scheduler::new(config(None, Some(venue_config(2, 1))));
    let (hot, warm) = scheduler.get_target_subscriptions("kalshi", &pair, None, 0).unwrap();
    assert_eq!(keys(&hot), pairs(&[("a", "yes")]));
    assert_eq!(keys(&warm), pairs(&[("b", "yes")]));

    // Identifiers go by the order of strings; equal identifiers by position.
    let texts = vec![
        market("m2", &[], &[], None, "active"),
        market("m10", &[], &[], None, "active"),
        market("m", &[], &[], None, "active"),
        market("m10", &[], &[], None, "active"),
        market("M2", &[], &[], None, "active"),
        market("é", &[], &[], None, "active"),
        market("z", &[], &[], None, "active"),
        market("", &[], &[], None, "active"),
    ];
    assert_eq!(rank_markets(&texts, None, 0), vec![7, 4, 2, 1, 3, 0, 6, 5]);
    // The score decides before the identifier does.
    let scored = vec![
        market("a", &[], &[], None, "closed"),
        market("b", &[], &[], Some(5), "closed"),
        market("c", &[], &[], Some(5), "closed"),
    ];
    assert_eq!(rank_markets(&scored, None, 0), vec![1, 2, 0]);
}

#[test]
fn stable_ranking() {
    assert_eq!(stable_order(&vec![], true), Vec::<usize>::new());
    assert_eq!(stable_order(&vec![5, 7, 5, 7, 1], true), vec![1, 3, 0, 2, 4]);
    assert_eq!(stable_order(&vec![5, 7, 5, 7, 1], false), vec![4, 0, 2, 1, 3]);
    assert_eq!(stable_order(&vec![i128::MIN, i128::MAX, 0], true), vec![1, 2, 0]);
    assert_eq!(stable_order(&vec![3, 3, 3], true), vec![0, 1, 2]);
}

#[test]
fn empty_universe_gives_empty_targets() {
    let mut scheduler = Scheduler::new(config(Some(venue_config(10, 2)), Some(venue_config(10, 2))));
    for venue in ["polymarket", "kalshi"] {
        let (hot, warm) = scheduler.get_target_subscriptions(venue, &[], None, 0).unwrap();
        assert!(hot.is_empty() && warm.is_empty());
        assert_eq!(scheduler.rotation_cursor(), 0);
    }
}

#[test]
fn a_venue_without_configuration_is_refused() {
    let mut scheduler = Scheduler::new(config(Some(venue_config(10, 2)), None));
    let markets = vec![market("m", &["yes"], &["t"], None, "active")];
    scheduler.get_target_subscriptions("polymarket", &markets, None, 0).unwrap();
    assert_eq!(scheduler.current_hot().len(), 1);
    for venue in ["kalshi", "other", ""] {
        let result = scheduler.get_target_subscriptions(venue, &markets, None, 0);
        assert_eq!(result.err(), Some(SchedulerError::VenueConfigNotFound));
        assert_eq!(scheduler.current_hot().len(), 1);
    }
}

#[test]
fn rotation_exhaustiveness() {
    let markets: Vec<MarketInfo> = (0..30)
        .map(|i| market(&format!("m{i:02}"), &["yes"], &[], Some(1_000_000 + 30 - i), "active"))
        .collect();
    let mut scheduler = Scheduler::new(config(None, Some(venue_config(10, 2))));
    let mut seen: Vec<(String, String)> = Vec::new();
    let mut hot_keys = Vec::new();
    for rotation in 0..4 {
        let (hot, warm) = scheduler.get_target_subscriptions("kalshi", &markets, None, 0).unwrap();
        assert_eq!(hot.len(), 2);
        assert_eq!(warm.len(), 8);
        hot_keys = keys(&hot);
        for key in keys(&warm) {
            assert!(!hot.contains(&key));
            if !seen.contains(&key) {
                seen.push(key);
            }
        }
        // Each rotation takes the next eight of the 28 that are not HOT.
        assert_eq!(seen.len(), (8 * (rotation + 1)).min(28));
    }
    assert_eq!(hot_keys, pairs(&[("m00", "yes"), ("m01", "yes")]));
    assert_eq!(seen.len(), 28);
    for i in 2..30 {
        assert!(seen.contains(&(format!("m{i:02}"), "yes".to_string())));
    }
    assert_eq!(scheduler.rotation_cursor(), 32 % 28);
}

#[test]
fn targets_by_outcome() {
    let markets = vec![
        market("low", &["yes", "no"], &["t1", "t2"], None, "closed"),
        market("top", &["yes", "no", "yes"], &[], Some(10), "active"),
        market("none", &[], &[], None, "active"),
        market("other", &["a"], &[], None, "active"),
    ];
    let cfg = venue_config(4, 2);
    let order = rank_markets(&markets, None, 0);
    assert_eq!(order, vec![1, 2, 3, 0]);
    let (hot, warm, cursor) = choose_targets(&cfg, false, &markets, &order, 0);
    // HOT: the two best markets, two keys at most, no key twice. A market
    // without outcomes gives nothing.
    assert_eq!(keys(&hot), pairs(&[("top", "yes"), ("top", "no")]));
    // WARM: the others, round from the cursor, up to what is left of max_subs.
    assert_eq!(keys(&warm), pairs(&[("other", "a"), ("low", "yes")]));
    assert_eq!(cursor, 0);
    let (_, warm, cursor) = choose_targets(&cfg, false, &markets, &order, 1);
    assert_eq!(keys(&warm), pairs(&[("low", "yes"), ("low", "no")]));
    assert_eq!(cursor, 1);
    let (_, warm, cursor) = choose_targets(&cfg, false, &markets, &order, 7);
    assert_eq!(keys(&warm), pairs(&[("low", "yes"), ("low", "no")]));
    assert_eq!(cursor, 1);
}

#[test]
fn targets_by_token() {
    let markets = vec![
        market("a", &["yes", "no"], &["t1", "t2"], None, "active"),
        market("b", &["yes", "no"], &[], None, "active"),
        market("c", &["yes", "no"], &["t3", "t1", "t4"], None, "active"),
    ];
    let mut scheduler = Scheduler::new(config(Some(venue_config(10, 1)), None));
    let (hot, warm) = scheduler.get_target_subscriptions("polymarket", &markets, None, 0).unwrap();
    assert_eq!(keys(&hot), pairs(&[("t1", "")]));
    // A market without tokens is skipped; a key of the HOT tier is not taken again.
    assert_eq!(keys(&warm), pairs(&[("t3", ""), ("t4", "")]));
    assert_eq!(keys(scheduler.current_hot()), keys(&hot));
    assert_eq!(keys(scheduler.current_warm()), keys(&warm));
}

#[test]
fn the_budget_holds_whatever_the_configuration() {
    let markets: Vec<MarketInfo> =
        (0..6).map(|i| market(&format!("m{i}"), &["yes", "no"], &[], None, "active")).collect();
    let order: Vec<usize> = (0..6).collect();
    for (max_subs, hot) in [(0, 0), (0, 3), (1, 0), (1, 1), (3, 5), (5, 3), (4, 4), (100, 0), (12, 12), (7, 2)] {
        let cfg = venue_config(max_subs, hot);
        for cursor in [0usize, 1, 5, usize::MAX] {
            let (hot_set, warm_set, next) = choose_targets(&cfg, false, &markets, &order, cursor);
            assert!(hot_set.len() + warm_set.len() <= max_subs, "{max_subs} {hot}");
            for key in keys(&warm_set) {
                assert!(!hot_set.contains(&key));
                assert!(markets.iter().any(|m| m.market_id == key.0 && m.outcome_ids.contains(&key.1)));
            }
            if max_subs <= hot_count(&cfg) {
                assert!(warm_set.is_empty());
                assert_eq!(next, cursor);
            }
        }
    }
    // Without a configured count the HOT tier is a tenth of max_subs, and one at least.
    assert_eq!(hot_count(&venue_config(200, 0)), 20);
    assert_eq!(hot_count(&venue_config(9, 0)), 1);
    assert_eq!(hot_count(&venue_config(0, 0)), 1);
    assert_eq!(hot_count(&venue_config(200, 40)), 40);
}

#[test]
fn default_values() {
    assert_eq!(default_max_subs(), 200);
    assert_eq!(default_hot_count(), 40);
    assert_eq!(default_rotation_period_secs(), 180);
    assert_eq!(default_snapshot_interval_ms_hot(), 2000);
    assert_eq!(default_snapshot_interval_ms_warm(), 10000);
    assert_eq!(default_subscription_churn_limit(), 20);
    assert_eq!(default_top_k(), 50);
    assert_eq!(default_flush_rows(), 50_000);
    assert_eq!(default_flush_seconds(), 5);
    assert_eq!(default_bucket_minutes(), 5);
    assert!(default_true());
    assert!(!default_false());
    assert_eq!(default_universe_size(), 1000);
    assert_eq!(default_markets_per_venue(), 500);
}

#[test]
fn venue_sections_go_by_name() {
    let config = config(Some(venue_config(1, 1)), Some(venue_config(2, 2)));
    assert_eq!(config.get_venue_config("polymarket").unwrap().max_subs, 1);
    assert_eq!(config.get_venue_config("kalshi").unwrap().max_subs, 2);
    assert!(config.get_venue_config("Polymarket").is_none());
    assert!(config.get_venue_config("").is_none());
    let partial = self::config(None, Some(venue_config(2, 2)));
    assert!(partial.get_venue_config("polymarket").is_none());
}
