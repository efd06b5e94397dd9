use surveillance::keys::KeyMap;
use surveillance::rules::arb_detector::{
    detect_violations, generate_mock_prices_with_violations, record_price, ArbDetectorConfig,
    DetectionMode, MarketPrice,
};
use surveillance::rules::constraints::{
    generate_constraints, generate_monotonic_ladder_constraints, ladder_pairs, Constraint,
    ConstraintConfig, LadderGroupKey,
};
use surveillance::rules::ingest::{generate_mock_universe, MockIngestor};
use surveillance::rules::normalize::normalize_batch;
use surveillance::rules::proposition::{
    Comparator, NormalizedProposition, PriceMeasure, PriceSource, PropositionKind, TimeWindow,
    Underlier,
};

fn fixed(x: f64) -> i64 {
    (x * 1_000_000.0).round() as i64
}

fn make_btc_prop(market_id: &str, strike: f64, comparator: Comparator) -> NormalizedProposition {
    NormalizedProposition {
        venue: "test".to_string(),
        market_id: market_id.to_string(),
        outcome_id: None,
        title: format!("BTC {} ${:.0}", if comparator.is_upward() { ">=" } else { "<=" }, strike),
        raw_rules_hash: "test".to_string(),
        proposition: PropositionKind::PriceBarrier {
            underlier: Underlier::new("BTC"),
            comparator,
            level: fixed(strike),
            measure: PriceMeasure::Spot,
            window: TimeWindow::any_time_before(1234567890000),
            source: PriceSource::Exchange("Coinbase".to_string()),
        },
        confidence: fixed(0.9),
        parse_notes: vec![],
    }
}

#[test]
fn test_monotonic_ladder_constraints() {
    let props = vec![
        make_btc_prop("btc-80k", 80000.0, Comparator::GE),
        make_btc_prop("btc-90k", 90000.0, Comparator::GE),
        make_btc_prop("btc-100k", 100000.0, Comparator::GE),
    ];

    let constraints = generate_monotonic_ladder_constraints(&props);

    // Should have 3 constraints: 80-90, 80-100, 90-100
    assert_eq!(constraints.len(), 3);

    // Each constraint should have P(higher) <= P(lower)
    for c in &constraints {
        assert_eq!(c.constraint_type, "monotonic_ladder");
        assert!(c.relation.contains("<="));
    }
}

#[test]
fn test_downward_ladder() {
    let props = vec![
        make_btc_prop("btc-le-80k", 80000.0, Comparator::LE),
        make_btc_prop("btc-le-90k", 90000.0, Comparator::LE),
        make_btc_prop("btc-le-100k", 100000.0, Comparator::LE),
    ];

    let constraints = generate_monotonic_ladder_constraints(&props);

    assert_eq!(constraints.len(), 3);
}

#[test]
fn test_separate_groups() {
    let props = vec![
        make_btc_prop("btc-80k", 80000.0, Comparator::GE),
        make_btc_prop("btc-90k", 90000.0, Comparator::GE),
        // Different underlier
        NormalizedProposition {
            venue: "test".to_string(),
            market_id: "eth-4k".to_string(),
            outcome_id: None,
            title: "ETH >= $4000".to_string(),
            raw_rules_hash: "test".to_string(),
            proposition: PropositionKind::PriceBarrier {
                underlier: Underlier::new("ETH"),
                comparator: Comparator::GE,
                level: fixed(4000.0),
                measure: PriceMeasure::Spot,
                window: TimeWindow::any_time_before(1234567890000),
                source: PriceSource::Exchange("Coinbase".to_string()),
            },
            confidence: fixed(0.9),
            parse_notes: vec![],
        },
    ];

    let constraints = generate_monotonic_ladder_constraints(&props);

    // Only BTC pair should generate constraint
    assert_eq!(constraints.len(), 1);
}

#[test]
fn a_ladder_constraint_in_full() {
    let mut low = make_btc_prop("btc-80k", 80000.4, Comparator::GT);
    low.outcome_id = Some("yes".to_string());
    low.confidence = 700_001;
    let mut high = make_btc_prop("btc-90k", 90000.5, Comparator::GE);
    high.venue = "other".to_string();
    high.confidence = 900_000;
    let constraints = generate_monotonic_ladder_constraints(&[high.clone(), low.clone()]);
    assert_eq!(constraints.len(), 1);
    let c = &constraints[0];
    // Going up the higher level is the harder one.
    assert_eq!((c.a_market_id.as_str(), c.b_market_id.as_str()), ("btc-90k", "btc-80k"));
    assert_eq!((c.a_outcome_id.as_deref(), c.b_outcome_id.as_deref()), (None, Some("yes")));
    assert_eq!(c.venue, "other");
    assert_eq!(c.constraint_type, "monotonic_ladder");
    assert_eq!(c.relation, "P(BTC >= $90000) <= P(BTC >= $80000)");
    assert_eq!(c.confidence, 800_000);
    assert_eq!(
        c.notes,
        vec!["Underlier: BTC", "Window: \"AnyTimeBefore\"", "Direction: up"]
    );
    assert_eq!(c.id, Constraint::generate_id("other", "btc-90k", "btc-80k", "monotonic_ladder"));
    assert_eq!(c.group_key, LadderGroupKey::from_proposition(&low.proposition).unwrap().to_hash());
    assert_eq!(c.relation, format!("P(BTC >= ${:.0}) <= P(BTC >= ${:.0})", 90000.5f64, 80000.4f64));
}

#[test]
fn ladders_pair_each_rung_with_every_rung_above() {
    let event = NormalizedProposition {
        proposition: PropositionKind::YesNoEvent { description: String::new(), window: TimeWindow::default() },
        ..make_btc_prop("event", 1.0, Comparator::GE)
    };
    let props = vec![
        make_btc_prop("up-3", 3.0, Comparator::GE),   // 0
        make_btc_prop("down-2", 2.0, Comparator::LT), // 1
        event,                                        // 2
        make_btc_prop("up-1", 1.0, Comparator::GT),   // 3
        make_btc_prop("down-1", 1.0, Comparator::LE), // 4
        make_btc_prop("up-2", 2.0, Comparator::GE),   // 5
        make_btc_prop("up-1b", 1.0, Comparator::GE),  // 6
        make_btc_prop("down-3", -3.0, Comparator::LE), // 7
    ];
    // The ladder going up: rungs 3, 6 (one level, in their order), 5, 0.
    // The ladder going down: rungs 7, 4, 1.
    assert_eq!(
        ladder_pairs(&props),
        vec![(6, 3), (5, 3), (0, 3), (5, 6), (0, 6), (0, 5), (7, 4), (7, 1), (4, 1)]
    );
    let constraints = generate_monotonic_ladder_constraints(&props);
    assert_eq!(constraints.len(), 9);
    assert_eq!(constraints[6].relation, "P(BTC <= $-3) <= P(BTC <= $1)");
    assert_eq!((constraints[8].a_market_id.as_str(), constraints[8].b_market_id.as_str()), ("down-1", "down-2"));
    assert!(ladder_pairs(&[]).is_empty());
    assert!(ladder_pairs(&props[..1]).is_empty());
    assert!(generate_monotonic_ladder_constraints(&props[1..3]).is_empty());
}

#[test]
fn strikes_are_written_in_whole_dollars() {
    let relation = |a: i64, b: i64| {
        let mut low = make_btc_prop("a", 0.0, Comparator::LE);
        let mut high = make_btc_prop("b", 0.0, Comparator::LE);
        if let PropositionKind::PriceBarrier { level, .. } = &mut low.proposition {
            *level = a;
        }
        if let PropositionKind::PriceBarrier { level, .. } = &mut high.proposition {
            *level = b;
        }
        generate_monotonic_ladder_constraints(&[low, high])[0].relation.clone()
    };
    assert_eq!(relation(499_999, 500_001), "P(BTC <= $0) <= P(BTC <= $1)");
    assert_eq!(relation(500_000, 1_500_000), "P(BTC <= $0) <= P(BTC <= $2)");
    assert_eq!(relation(2_500_000, 3_500_000), "P(BTC <= $2) <= P(BTC <= $4)");
    assert_eq!(relation(-1_500_000, -400_000), "P(BTC <= $-2) <= P(BTC <= $-0)");
    assert_eq!(
        relation(i64::MIN, i64::MAX),
        "P(BTC <= $-9223372036855) <= P(BTC <= $9223372036855)"
    );
}

#[test]
fn constraints_leave_out_propositions_of_low_confidence() {
    let mut props = vec![
        make_btc_prop("btc-80k", 80000.0, Comparator::GE),
        make_btc_prop("btc-90k", 90000.0, Comparator::GE),
        make_btc_prop("btc-100k", 100000.0, Comparator::GE),
    ];
    props[1].confidence = 499_999;
    let config = ConstraintConfig::default();
    let constraints = generate_constraints(&props, &config);
    assert_eq!(constraints.len(), 1);
    assert_eq!(
        (constraints[0].a_market_id.as_str(), constraints[0].b_market_id.as_str()),
        ("btc-100k", "btc-80k")
    );
    props[1].confidence = 500_000;
    assert_eq!(generate_constraints(&props, &config).len(), 3);
    assert!(generate_constraints(&props, &ConstraintConfig { min_confidence: 900_001, ..config }).is_empty());
}

fn make_test_constraint() -> Constraint {
    Constraint {
        id: "test-1".to_string(),
        venue: "test".to_string(),
        constraint_type: "monotonic_ladder".to_string(),
        a_market_id: "btc-100k".to_string(),
        a_outcome_id: Some("0".to_string()),
        b_market_id: "btc-90k".to_string(),
        b_outcome_id: Some("0".to_string()),
        relation: "P(BTC >= 100k) <= P(BTC >= 90k)".to_string(),
        confidence: fixed(0.9),
        notes: vec![],
        group_key: "test".to_string(),
    }
}

fn price(mid: f64, bid: f64, ask: f64) -> MarketPrice {
    MarketPrice { ts: 0, mid: Some(fixed(mid)), best_bid: Some(fixed(bid)), best_ask: Some(fixed(ask)) }
}

fn key(a: &str, b: &str) -> (String, String) {
    (a.to_string(), b.to_string())
}

#[test]
fn test_implied_probability() {
    let price = price(0.5, 0.49, 0.51);

    assert_eq!(price.implied_probability(), Some(fixed(0.5)));
}

#[test]
fn test_detect_violation() {
    let constraint = make_test_constraint();
    let constraints = vec![constraint];

    let mut prices = KeyMap::new();
    prices.insert(key("btc-100k", "0"), price(0.7, 0.69, 0.71)); // Higher than should be
    prices.insert(key("btc-90k", "0"), price(0.5, 0.49, 0.51));

    let config = ArbDetectorConfig::default();
    let violations = detect_violations(&constraints, &prices, &config, 42);

    assert_eq!(violations.len(), 1);
    let v = &violations[0];
    assert_eq!(v.p_a, fixed(0.7));
    assert_eq!(v.p_b, fixed(0.5));
    assert!((v.violation_magnitude as f64 / 1_000_000.0 - 0.2).abs() < 0.001);
    assert_eq!(v.ts, 42);
    assert_eq!((v.constraint_id.as_str(), v.constraint_type.as_str()), ("test-1", "monotonic_ladder"));
    assert_eq!((v.a_market_id.as_str(), v.b_market_id.as_str()), ("btc-100k", "btc-90k"));
    assert_eq!((v.a_outcome_id.as_deref(), v.b_outcome_id.as_deref()), (Some("0"), Some("0")));
    assert_eq!((v.margin, v.confidence), (10_000, 900_000));
    assert_eq!((v.a_bid, v.a_ask, v.b_bid, v.b_ask), (Some(690_000), Some(710_000), Some(490_000), Some(510_000)));
}

#[test]
fn test_no_violation() {
    let constraint = make_test_constraint();
    let constraints = vec![constraint];

    let mut prices = KeyMap::new();
    prices.insert(key("btc-100k", "0"), price(0.3, 0.29, 0.31)); // Lower as expected
    prices.insert(key("btc-90k", "0"), price(0.5, 0.49, 0.51));

    let config = ArbDetectorConfig::default();
    let violations = detect_violations(&constraints, &prices, &config, 0);

    assert_eq!(violations.len(), 0);
}

#[test]
fn test_mock_prices_with_violations() {
    let constraints = vec![
        make_test_constraint(),
        Constraint {
            id: "test-2".to_string(),
            a_market_id: "btc-110k".to_string(),
            b_market_id: "btc-100k".to_string(),
            ..make_test_constraint()
        },
    ];

    let prices = generate_mock_prices_with_violations(&constraints, 9);

    // Should have prices for all markets
    assert!(prices.get(&key("btc-100k", "0")).is_some());
    assert!(prices.get(&key("btc-90k", "0")).is_some());
    assert_eq!(prices.len(), 3);
    assert_eq!(
        prices.get(&key("btc-90k", "0")),
        Some(&MarketPrice { ts: 9, mid: Some(400_000), best_bid: Some(390_000), best_ask: Some(410_000) })
    );
    // The later price of a market stands.
    assert_eq!(prices.get(&key("btc-100k", "0")).unwrap().mid, Some(500_000));
    assert_eq!(prices.get(&key("btc-110k", "0")).unwrap().mid, Some(300_000));
}

#[test]
fn implied_probabilities() {
    let p = |mid: Option<i64>, bid: Option<i64>, ask: Option<i64>| {
        MarketPrice { ts: 0, mid, best_bid: bid, best_ask: ask }.implied_probability()
    };
    assert_eq!(p(Some(0), None, None), Some(0));
    assert_eq!(p(Some(1_000_000), None, None), Some(1_000_000));
    assert_eq!(p(Some(1_000_001), None, None), None);
    assert_eq!(p(Some(-1), Some(1), None), None);
    // Without a usable mid, half the sum of bid and ask.
    assert_eq!(p(None, Some(400_000), Some(500_001)), Some(450_000));
    assert_eq!(p(Some(2_000_000), Some(1_000_000), Some(1_000_000)), Some(1_000_000));
    // From 1 to 100 the price is in cents.
    assert_eq!(p(None, Some(1_000_000), Some(1_000_001)), Some(10_000));
    assert_eq!(p(None, Some(60_000_000), Some(70_000_000)), Some(650_000));
    assert_eq!(p(None, Some(100_000_000), Some(100_000_000)), Some(1_000_000));
    assert_eq!(p(None, Some(100_000_000), Some(100_000_001)), None);
    assert_eq!(p(None, Some(-1), Some(0)), None);
    assert_eq!(p(None, Some(i64::MAX), Some(i64::MAX)), None);
    assert_eq!(p(None, Some(i64::MIN), Some(i64::MAX)), None);
    assert_eq!(MarketPrice::default().implied_probability(), None);
    assert_eq!(
        ArbDetectorConfig::default(),
        ArbDetectorConfig { margin: 10_000, mode: DetectionMode::Latest, window_minutes: None }
    );
}

#[test]
fn violations_need_prices_on_both_sides_and_more_than_the_margin() {
    let first = make_test_constraint();
    let second = Constraint {
        id: "test-2".to_string(),
        a_market_id: "x".to_string(),
        a_outcome_id: None,
        b_market_id: "y".to_string(),
        b_outcome_id: Some("no".to_string()),
        ..make_test_constraint()
    };
    let third = Constraint { id: "test-3".to_string(), b_market_id: "missing".to_string(), ..make_test_constraint() };
    let constraints = vec![first, second, third];
    let mut prices = KeyMap::new();
    prices.insert(key("btc-100k", "0"), price(0.51, 0.0, 0.0));
    prices.insert(key("btc-90k", "0"), price(0.5, 0.0, 0.0));
    // A market without outcome goes by the outcome 0.
    prices.insert(key("x", "0"), price(0.9, 0.0, 0.0));
    prices.insert(key("y", "no"), price(0.1, 0.0, 0.0));
    prices.insert(key("y", "0"), price(1.0, 0.0, 0.0));
    let config = ArbDetectorConfig::default();
    let found = detect_violations(&constraints, &prices, &config, 0);
    // 0.51 against 0.5 is within the margin of 0.01.
    assert_eq!(found.iter().map(|v| v.constraint_id.as_str()).collect::<Vec<_>>(), vec!["test-2"]);
    assert_eq!((found[0].a_outcome_id.as_deref(), found[0].violation_magnitude), (None, 800_000));
    let tight = ArbDetectorConfig { margin: 9_999, ..config };
    assert_eq!(detect_violations(&constraints, &prices, &tight, 0).len(), 2);
    let huge = ArbDetectorConfig { margin: i64::MAX, ..config };
    assert!(detect_violations(&constraints, &prices, &huge, 0).is_empty());
    let negative = ArbDetectorConfig { margin: i64::MIN, ..config };
    assert_eq!(detect_violations(&constraints, &prices, &negative, 0).len(), 2);
    prices.insert(key("x", "0"), MarketPrice { ts: 0, mid: Some(-5), best_bid: None, best_ask: None });
    assert!(detect_violations(&constraints, &prices, &config, 0).is_empty());
    let mock = generate_mock_prices_with_violations(&constraints[1..2], 0);
    assert_eq!(detect_violations(&constraints[1..2], &mock, &config, 0).len(), 1);
    let mixed = generate_mock_prices_with_violations(&constraints[..2], 0);
    assert_eq!(
        detect_violations(&constraints[..2], &mixed, &config, 0).iter().map(|v| v.constraint_id.as_str()).collect::<Vec<_>>(),
        vec!["test-1"]
    );
}

#[test]
fn the_mock_universe_is_a_ladder_of_five() {
    let universe = generate_mock_universe(1_000);
    assert_eq!(universe.len(), 5);
    for (i, (market, strike)) in universe.iter().zip([80000.0f64, 90000.0, 100000.0, 110000.0, 120000.0]).enumerate() {
        assert_eq!(market.market_id, format!("mock-btc-{}", i));
        assert_eq!(market.title, format!("Will BTC reach ${:.0} by next week?", strike));
        assert_eq!(market.outcome_ids, vec!["0", "1"]);
        assert_eq!(market.close_ts, Some(1_000 + 7 * 86_400_000));
        assert_eq!(market.status, "active");
        assert_eq!(market.tags, vec!["btc", "crypto"]);
        assert!(market.token_ids.is_empty());
    }
    assert_eq!(generate_mock_universe(i64::MAX)[0].close_ts, Some(i64::MAX));
    // Through the whole pipeline the five markets give one ladder of ten pairs.
    let ingestor = MockIngestor::new("mock");
    let records: Vec<_> = universe.iter().map(|m| ingestor.fetch_rules(m, 0)).collect();
    let propositions = normalize_batch(&records);
    assert!(propositions.iter().all(|p| p.proposition.is_price_barrier()));
    let constraints = generate_constraints(&propositions, &ConstraintConfig::default());
    assert_eq!(constraints.len(), 10);
    assert_eq!(constraints[0].relation, "P(BTC >= $90000) <= P(BTC >= $80000)");
    let prices = generate_mock_prices_with_violations(&constraints, 0);
    assert_eq!(prices.len(), 5);
    let violations = detect_violations(&constraints, &prices, &ArbDetectorConfig::default(), 0);
    assert!(!violations.is_empty());
}

#[test]
fn the_latest_price_of_a_market_stands() {
    let at = |ts: i64, mid: i64| MarketPrice { ts, mid: Some(mid), best_bid: None, best_ask: None };
    let mut prices = KeyMap::new();
    record_price(&mut prices, key("m", "0"), at(5, 1));
    record_price(&mut prices, key("m", "0"), at(5, 2));
    assert_eq!(prices.get(&key("m", "0")), Some(&at(5, 1)));
    record_price(&mut prices, key("m", "0"), at(4, 3));
    assert_eq!(prices.get(&key("m", "0")), Some(&at(5, 1)));
    record_price(&mut prices, key("m", "0"), at(6, 4));
    assert_eq!(prices.get(&key("m", "0")), Some(&at(6, 4)));
    record_price(&mut prices, key("m", "1"), at(i64::MIN, 5));
    assert_eq!(prices.get(&key("m", "1")), Some(&at(i64::MIN, 5)));
    assert_eq!(prices.len(), 2);
}
