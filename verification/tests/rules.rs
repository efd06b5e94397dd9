use surveillance::rules::confidence::{compute_confidence, needs_review, ConfidenceLevel};
use surveillance::rules::constraints::{
    end_bucket, measure_name, source_name, window_kind_name, Constraint, ConstraintConfig,
    LadderGroupKey,
};
use surveillance::rules::extract::{
    build_proposition, check_conflicts, extract_comparator, extract_level, extract_measure,
    extract_proposition, extract_source, extract_time_window, extract_underlier, normalize_text,
    parse_micros, ExtractionResult,
};
use surveillance::rules::ingest::{
    extract_strike_from_title, IngestConfig, KalshiIngestor, MockIngestor, RulesRecord,
    UniverseMarket,
};
use surveillance::rules::normalize::{
    filter_by_confidence, get_price_barriers, group_by_underlier, normalize_batch, normalize_rules,
};
use surveillance::rules::proposition::{
    Comparator, NormalizedProposition, PriceMeasure, PriceSource, PropositionKind, TimeWindow,
    TimeWindowKind, Underlier,
};
use surveillance::rules::review_queue::{
    create_review_item, filter_for_review, ReviewItem, ReviewStats, ReviewStatus,
};

fn conf(x: f64) -> i64 {
    (x * 1_000_000.0).round() as i64
}

fn usd(x: f64) -> i64 {
    (x * 1_000_000.0).round() as i64
}

fn make_extraction(
    has_underlier: bool,
    has_level: bool,
    has_comparator: bool,
    has_window: bool,
    has_measure: bool,
    has_source: bool,
) -> ExtractionResult {
    let mut result = ExtractionResult::new();

    if has_underlier {
        result.underlier = Some(Underlier::new("BTC"));
    }
    if has_level {
        result.level = Some(usd(100000.0));
    }
    if has_comparator {
        result.comparator = Some(Comparator::GE);
    }
    if has_window {
        result.window = TimeWindow::any_time_before(1234567890000);
    }
    if has_measure {
        result.measure = PriceMeasure::Spot;
    }
    if has_source {
        result.source = PriceSource::Exchange("Coinbase".to_string());
    }

    result
}

fn full_barrier() -> PropositionKind {
    PropositionKind::PriceBarrier {
        underlier: Underlier::new("BTC"),
        comparator: Comparator::GE,
        level: usd(100000.0),
        measure: PriceMeasure::Spot,
        window: TimeWindow::any_time_before(1234567890000),
        source: PriceSource::Exchange("Coinbase".to_string()),
    }
}

#[test]
fn test_base_score() {
    let extraction = make_extraction(false, false, false, false, false, false);
    let prop = PropositionKind::Unknown;
    let score = compute_confidence(&prop, &extraction);

    // Base 0.2 - 0.3 (unknown penalty) = clamped to 0.0
    assert!(score < conf(0.2));
    assert_eq!(score, 0);
}

#[test]
fn test_full_extraction_score() {
    let extraction = make_extraction(true, true, true, true, true, true);
    let prop = full_barrier();
    let score = compute_confidence(&prop, &extraction);

    // 0.2 base + 0.2 + 0.2 + 0.2 + 0.1 + 0.1 + 0.1 + 0.1 (completeness) = 1.2 clamped to 1.0
    assert_eq!(score, conf(1.0));
}

#[test]
fn test_partial_extraction_score() {
    let extraction = make_extraction(true, true, true, false, false, false);
    let prop = PropositionKind::PriceBarrier {
        underlier: Underlier::new("BTC"),
        comparator: Comparator::GE,
        level: usd(100000.0),
        measure: PriceMeasure::Unknown,
        window: TimeWindow::default(),
        source: PriceSource::Unknown,
    };
    let score = compute_confidence(&prop, &extraction);

    // 0.2 base + 0.2 + 0.2 + 0.2 = 0.8
    assert!(score >= conf(0.7) && score <= conf(0.9));
    assert_eq!(score, 800_000);
}

#[test]
fn test_conflict_penalty() {
    // Without conflict
    let extraction_clean = make_extraction(true, true, true, true, true, true);
    let prop = full_barrier();
    let score_clean = compute_confidence(&prop, &extraction_clean);

    // With conflict
    let mut extraction_conflict = make_extraction(true, true, true, true, true, true);
    extraction_conflict.conflicts.push("Conflicting time window".to_string());
    extraction_conflict.conflicts.push("Multiple price levels".to_string());

    let score_conflict = compute_confidence(&prop, &extraction_conflict);

    // Conflict should reduce score
    assert!(score_conflict < score_clean);
    assert!(score_conflict <= conf(1.0));
    assert_eq!(score_conflict, 800_000);
}

#[test]
fn test_confidence_level() {
    assert_eq!(ConfidenceLevel::from_score(conf(0.9)), ConfidenceLevel::High);
    assert_eq!(ConfidenceLevel::from_score(conf(0.7)), ConfidenceLevel::Medium);
    assert_eq!(ConfidenceLevel::from_score(conf(0.5)), ConfidenceLevel::Low);
    assert_eq!(ConfidenceLevel::from_score(conf(0.2)), ConfidenceLevel::VeryLow);
}

#[test]
fn test_needs_review() {
    assert!(!needs_review(conf(0.8)));
    assert!(!needs_review(conf(0.6)));
    assert!(needs_review(conf(0.59)));
    assert!(needs_review(conf(0.3)));
}

#[test]
fn confidence_levels_have_names_and_sharp_bounds() {
    assert_eq!(ConfidenceLevel::High.as_str(), "high");
    assert_eq!(ConfidenceLevel::Medium.as_str(), "medium");
    assert_eq!(ConfidenceLevel::Low.as_str(), "low");
    assert_eq!(ConfidenceLevel::VeryLow.as_str(), "very_low");
    assert_eq!(ConfidenceLevel::from_score(800_000), ConfidenceLevel::High);
    assert_eq!(ConfidenceLevel::from_score(799_999), ConfidenceLevel::Medium);
    assert_eq!(ConfidenceLevel::from_score(600_000), ConfidenceLevel::Medium);
    assert_eq!(ConfidenceLevel::from_score(599_999), ConfidenceLevel::Low);
    assert_eq!(ConfidenceLevel::from_score(400_000), ConfidenceLevel::Low);
    assert_eq!(ConfidenceLevel::from_score(399_999), ConfidenceLevel::VeryLow);
    assert_eq!(ConfidenceLevel::from_score(i64::MIN), ConfidenceLevel::VeryLow);
}

#[test]
fn confidence_counts_each_find_and_each_conflict() {
    let event = PropositionKind::YesNoEvent { description: String::new(), window: TimeWindow::default() };
    // 0.2 - 0.1 for the event.
    assert_eq!(compute_confidence(&event, &make_extraction(false, false, false, false, false, false)), 100_000);
    // 0.2 + 0.2 - 0.1
    assert_eq!(compute_confidence(&event, &make_extraction(true, false, false, false, false, false)), 300_000);
    // 0.2 + 0.1 + 0.1 + 0.1 - 0.1
    assert_eq!(compute_confidence(&event, &make_extraction(false, false, false, true, true, true)), 400_000);
    let range = PropositionKind::RangePartition {
        underlier: Underlier::new("BTC"),
        low: None,
        high: Some(5),
        window: TimeWindow::default(),
        source: PriceSource::Unknown,
    };
    assert_eq!(compute_confidence(&range, &make_extraction(false, false, false, false, false, false)), 200_000);
    let mut noisy = make_extraction(true, true, true, false, false, false);
    noisy.conflicts.push("something else".to_string());
    assert_eq!(compute_confidence(&range, &noisy), 700_000);
    noisy.conflicts.push("Ambiguous comparator".to_string());
    assert_eq!(compute_confidence(&range, &noisy), 500_000);
    for _ in 0..10 {
        noisy.conflicts.push("time window".to_string());
    }
    assert_eq!(compute_confidence(&range, &noisy), 0);
}

fn make_btc_prop(market_id: &str, strike: f64, comparator: Comparator) -> NormalizedProposition {
    NormalizedProposition {
        venue: "test".to_string(),
        market_id: market_id.to_string(),
        outcome_id: None,
        title: format!("BTC {} ${:.0}", if comparator.is_upward() { ">=" } else { "<=" }, strike),
        raw_rules_hash: "test".to_string(),
        proposition: PropositionKind::PriceBarrier {
            underlier: Underlier::new("BTC"),
            comparator,
            level: usd(strike),
            measure: PriceMeasure::Spot,
            window: TimeWindow::any_time_before(1234567890000),
            source: PriceSource::Exchange("Coinbase".to_string()),
        },
        confidence: conf(0.9),
        parse_notes: vec![],
    }
}

#[test]
fn test_ladder_group_key() {
    let prop = make_btc_prop("1", 100000.0, Comparator::GE);
    let key = LadderGroupKey::from_proposition(&prop.proposition).unwrap();

    assert_eq!(key.underlier, "BTC");
    assert_eq!(key.comparator_direction, "up");
}

#[test]
fn a_ladder_key_holds_what_the_ladder_shares() {
    let prop = make_btc_prop("1", 100000.0, Comparator::LT);
    let key = LadderGroupKey::from_proposition(&prop.proposition).unwrap();
    assert_eq!(key.comparator_direction, "down");
    assert_eq!(key.window_kind, "AnyTimeBefore");
    assert_eq!(key.window_end_bucket, Some(1234567890000 / 300000));
    assert_eq!(key.source, "Exchange(\"Coinbase\")");
    assert_eq!(key.measure, "Spot");
    let other = LadderGroupKey::from_proposition(&make_btc_prop("2", 90000.0, Comparator::LE).proposition).unwrap();
    assert_eq!(key, other);
    assert_eq!(key.to_hash(), other.to_hash());
    assert_eq!(key.to_hash().len(), 16);
    let up = LadderGroupKey::from_proposition(&make_btc_prop("3", 90000.0, Comparator::GT).proposition).unwrap();
    assert_ne!(key, up);
    assert_ne!(key.to_hash(), up.to_hash());
    assert!(LadderGroupKey::from_proposition(&PropositionKind::Unknown).is_none());
    let event = PropositionKind::YesNoEvent { description: "x".to_string(), window: TimeWindow::default() };
    assert!(LadderGroupKey::from_proposition(&event).is_none());
}

#[test]
fn hashes_are_those_of_sha256() {
    // SHA-256 of "abc" begins ba7816bf8f01cfea.
    assert_eq!(Constraint::generate_id("a", "b", "c", ""), "ba7816bf8f01cfea");
    assert_eq!(Constraint::generate_id("", "ab", "", "c"), "ba7816bf8f01cfea");
    assert_ne!(Constraint::generate_id("a", "b", "c", "d"), "ba7816bf8f01cfea");
    let key = LadderGroupKey {
        underlier: "a".to_string(),
        comparator_direction: "b".to_string(),
        window_kind: "c".to_string(),
        window_end_bucket: None,
        source: String::new(),
        measure: String::new(),
    };
    assert_eq!(key.to_hash(), "ba7816bf8f01cfea");
    // With a bucket its eight bytes, lowest first, stand behind the window kind.
    let with_bucket = LadderGroupKey { window_end_bucket: Some(0x6463), window_kind: String::new(), ..key.clone() };
    let same_bytes = LadderGroupKey {
        underlier: "abcd\0\0\0\0\0\0".to_string(),
        comparator_direction: String::new(),
        window_kind: String::new(),
        window_end_bucket: None,
        source: String::new(),
        measure: String::new(),
    };
    assert_eq!(with_bucket.to_hash(), same_bytes.to_hash());
    let negative = LadderGroupKey { window_end_bucket: Some(-1), ..same_bytes.clone() };
    let all_ones = LadderGroupKey { window_end_bucket: Some(-2), ..same_bytes.clone() };
    assert_ne!(negative.to_hash(), all_ones.to_hash());
}

#[test]
fn names_are_those_that_debug_writes() {
    for kind in [
        TimeWindowKind::Unknown,
        TimeWindowKind::AnyTimeBefore,
        TimeWindowKind::AtClose,
        TimeWindowKind::AtTime,
        TimeWindowKind::DuringInterval,
    ] {
        assert_eq!(window_kind_name(kind), format!("{:?}", kind));
    }
    for measure in [
        PriceMeasure::Unknown,
        PriceMeasure::Spot,
        PriceMeasure::Close,
        PriceMeasure::VWAP,
        PriceMeasure::TWAP,
    ] {
        assert_eq!(measure_name(measure), format!("{:?}", measure));
    }
    for source in [
        PriceSource::Unknown,
        PriceSource::Exchange("Coinbase".to_string()),
        PriceSource::Index("Coin \"Gecko\"\n".to_string()),
        PriceSource::VenueDefined(String::new()),
    ] {
        assert_eq!(source_name(&source), format!("{:?}", source));
    }
    assert_eq!(end_bucket(299_999), 0);
    assert_eq!(end_bucket(300_000), 1);
    assert_eq!(end_bucket(-1), 0);
    assert_eq!(end_bucket(-300_000), -1);
    assert_eq!(end_bucket(i64::MIN), i64::MIN / 300_000);
    assert_eq!(
        ConstraintConfig::default(),
        ConstraintConfig { min_confidence: 500_000, time_tolerance_ms: 300_000 }
    );
}

#[test]
fn test_extract_underlier() {
    assert_eq!(extract_underlier("bitcoin price").unwrap().kind, "BTC");
    assert_eq!(extract_underlier("BTC will reach").unwrap().kind, "BTC");
    assert_eq!(extract_underlier("ethereum dips").unwrap().kind, "ETH");
    assert_eq!(extract_underlier("no crypto here"), None);
}

#[test]
fn test_extract_level() {
    assert_eq!(extract_level("price above $100000"), Some(usd(100000.0)));
    assert_eq!(extract_level("reach 100k"), Some(usd(100000.0)));
    assert_eq!(extract_level("no number"), None);
}

#[test]
fn test_extract_comparator() {
    assert_eq!(extract_comparator("at or above"), Some(Comparator::GE));
    assert_eq!(extract_comparator("above"), Some(Comparator::GT));
    assert_eq!(extract_comparator("below"), Some(Comparator::LT));
    assert_eq!(extract_comparator("at or below"), Some(Comparator::LE));
    assert_eq!(extract_comparator("dip to"), Some(Comparator::LT));
}

#[test]
fn test_extract_time_window() {
    let close_ts = Some(1234567890000i64);

    let w = extract_time_window("at any time before the deadline", close_ts);
    assert!(matches!(w.kind, TimeWindowKind::AnyTimeBefore));

    let w = extract_time_window("closing price on january 20", close_ts);
    assert!(matches!(w.kind, TimeWindowKind::AtClose));
}

#[test]
fn test_extract_source() {
    assert!(matches!(extract_source("according to coinbase"), PriceSource::Exchange(s) if s == "Coinbase"));
    assert!(matches!(extract_source("coingecko price"), PriceSource::Index(s) if s == "CoinGecko"));
}

#[test]
fn test_full_extraction() {
    let record = RulesRecord {
        venue: "test".to_string(),
        market_id: "1".to_string(),
        outcome_id: None,
        url: None,
        fetched_ts: 0,
        title: "BTC >= $100k".to_string(),
        close_ts: Some(1234567890000),
        raw_rules_text: "This market resolves Yes if Bitcoin is at or above $100000 at any time before close according to Coinbase.".to_string(),
        raw_resolution_source: None,
        raw_json: None,
    };

    let (prop, result) = extract_proposition(&record);

    if let PropositionKind::PriceBarrier { underlier, comparator, level, source, window, .. } = prop {
        assert_eq!(underlier.kind, "BTC");
        assert_eq!(comparator, Comparator::GE);
        assert_eq!(level, usd(100000.0));
        assert!(matches!(source, PriceSource::Exchange(s) if s == "Coinbase"));
        assert!(matches!(window.kind, TimeWindowKind::AnyTimeBefore));
    } else {
        panic!("Expected PriceBarrier");
    }

    assert!(!result.notes.is_empty());
}

#[test]
fn extraction_notes_what_it_finds_in_order() {
    let record = RulesRecord {
        venue: "test".to_string(),
        market_id: "1".to_string(),
        outcome_id: None,
        url: None,
        fetched_ts: 0,
        title: "t".to_string(),
        close_ts: None,
        raw_rules_text: "  The SPOT price   of Ethereum is ABOVE $4,000.50 before expiration, by Kraken. ".to_string(),
        raw_resolution_source: None,
        raw_json: None,
    };
    let (prop, result) = extract_proposition(&record);
    assert_eq!(
        result.notes,
        vec![
            "Underlier extracted",
            "Price level extracted",
            "Comparator extracted",
            "Price measure extracted",
            "Time window extracted",
            "Price source extracted",
        ]
    );
    assert!(result.conflicts.is_empty());
    assert_eq!(result.level, Some(4_000_500_000));
    assert_eq!(result.comparator, Some(Comparator::GT));
    assert_eq!(result.measure, PriceMeasure::Spot);
    assert_eq!(result.window, TimeWindow { kind: TimeWindowKind::AnyTimeBefore, start_ts: None, end_ts: None });
    assert_eq!(result.source, PriceSource::Exchange("Kraken".to_string()));
    assert!(prop.is_price_barrier());
    assert_eq!(prop.underlier().unwrap().kind, "ETH");
    assert_eq!(prop.time_window().unwrap().kind, TimeWindowKind::AnyTimeBefore);
}

#[test]
fn text_is_normalized_before_it_is_parsed() {
    assert_eq!(normalize_text("  BTC   at\n$100,000\tNOW "), "btc at $100000 now");
    assert_eq!(normalize_text("a,b 1,2 3, 4"), "a,b 12 3, 4");
    assert_eq!(normalize_text(""), "");
}

#[test]
fn measures_windows_and_sources_go_by_their_first_phrase() {
    assert_eq!(extract_measure("the closing price"), PriceMeasure::Close);
    assert_eq!(extract_measure("close price or spot price"), PriceMeasure::Close);
    assert_eq!(extract_measure("spot rate"), PriceMeasure::Spot);
    assert_eq!(extract_measure("vwap and twap"), PriceMeasure::VWAP);
    assert_eq!(extract_measure("volume weighted"), PriceMeasure::VWAP);
    assert_eq!(extract_measure("time weighted"), PriceMeasure::TWAP);
    assert_eq!(extract_measure("twap"), PriceMeasure::TWAP);
    assert_eq!(extract_measure("price"), PriceMeasure::Unknown);
    assert_eq!(extract_measure("Spot Price"), PriceMeasure::Unknown);

    let some = Some(5i64);
    assert_eq!(extract_time_window("at any point before", some), TimeWindow::any_time_before(5));
    assert_eq!(extract_time_window("at close", some), TimeWindow::at_close(5));
    assert_eq!(extract_time_window("at market close", None).kind, TimeWindowKind::AtClose);
    assert_eq!(extract_time_window("before the market closes", some), TimeWindow::any_time_before(5));
    assert_eq!(extract_time_window("before expiration", None).kind, TimeWindowKind::AnyTimeBefore);
    assert_eq!(extract_time_window("before market close", None).end_ts, None);
    assert_eq!(
        extract_time_window("some day", some),
        TimeWindow { kind: TimeWindowKind::Unknown, start_ts: None, end_ts: some }
    );
    assert_eq!(extract_time_window("some day", None), TimeWindow::unknown());
    assert_eq!(TimeWindow::at_time(9), TimeWindow { kind: TimeWindowKind::AtTime, start_ts: None, end_ts: Some(9) });

    assert_eq!(extract_source("binance or coinbase"), PriceSource::Exchange("Coinbase".to_string()));
    assert_eq!(extract_source("bybit"), PriceSource::Exchange("Bybit".to_string()));
    assert_eq!(extract_source("okx"), PriceSource::Exchange("OKX".to_string()));
    assert_eq!(extract_source("cryptocompare"), PriceSource::Index("CryptoCompare".to_string()));
    assert_eq!(extract_source("coinmarketcap and kalshi"), PriceSource::Index("CoinMarketCap".to_string()));
    assert_eq!(extract_source("uma oracle"), PriceSource::VenueDefined("UMA Oracle".to_string()));
    assert_eq!(extract_source("polymarket and kalshi"), PriceSource::VenueDefined("UMA Oracle".to_string()));
    assert_eq!(extract_source("kalshi"), PriceSource::VenueDefined("Kalshi".to_string()));
    assert_eq!(extract_source("nobody"), PriceSource::Unknown);
    assert_eq!(extract_source(""), PriceSource::Unknown);
}

#[test]
fn underliers_and_comparators_go_by_their_first_expression() {
    assert_eq!(extract_underlier("s&p 500 closes").unwrap().kind, "SP500");
    assert_eq!(extract_underlier("sp500").unwrap().kind, "SP500");
    assert_eq!(extract_underlier("dow jones").unwrap().kind, "DJI");
    assert_eq!(extract_underlier("Gold and silver").unwrap().kind, "GOLD");
    assert_eq!(extract_underlier("ripple or doge").unwrap().kind, "XRP");
    assert_eq!(extract_underlier("solana beats bitcoin").unwrap().kind, "BTC");
    assert!(extract_underlier("method").is_none());
    assert!(extract_underlier("soil").is_none());
    assert_eq!(extract_underlier("oil").unwrap().venue_symbol, None);
    assert_eq!(extract_comparator("price >= 5"), Some(Comparator::GE));
    assert_eq!(extract_comparator("at most 5"), Some(Comparator::LE));
    assert_eq!(extract_comparator("≤ 5"), Some(Comparator::LE));
    assert_eq!(extract_comparator("at least"), Some(Comparator::GE));
    assert_eq!(extract_comparator("will hit"), Some(Comparator::GT));
    assert_eq!(extract_comparator("under 5"), Some(Comparator::LT));
    assert_eq!(extract_comparator("below or above"), Some(Comparator::GT));
    assert_eq!(extract_comparator("equal"), None);
    assert!(Comparator::GE.is_upward() && !Comparator::GE.is_downward());
    assert!(!Comparator::LT.is_upward() && Comparator::LT.is_downward());
}

#[test]
fn levels_are_read_in_millionths() {
    assert_eq!(extract_level("$ 0.5"), Some(500_000));
    assert_eq!(extract_level("$1.2345678"), Some(1_234_567));
    assert_eq!(extract_level("2.5k or $3"), Some(3_000_000));
    assert_eq!(extract_level("2.5k"), Some(2_500_000_000));
    assert_eq!(extract_level("2.5 K"), Some(2_500_000_000));
    assert_eq!(extract_level("exceed 42"), Some(42_000_000));
    assert_eq!(extract_level("hit  7.25 soon"), Some(7_250_000));
    assert_eq!(extract_level("around 42"), None);
    // Beyond the range the next pattern has its turn.
    assert_eq!(extract_level("$99999999999999999999 or 1k"), Some(1_000_000_000));
    assert_eq!(extract_level("$9223372036854"), Some(9_223_372_036_854_000_000));
    assert_eq!(extract_level("$9223372036855"), None);

    assert_eq!(parse_micros("0", 1), Some(0));
    assert_eq!(parse_micros("007", 1), Some(7_000_000));
    assert_eq!(parse_micros("1.5", 1000), Some(1_500_000_000));
    assert_eq!(parse_micros("1.000001", 1), Some(1_000_001));
    assert_eq!(parse_micros("1.0000019", 1), Some(1_000_001));
    assert_eq!(parse_micros("9223372036854.775807", 1), Some(i64::MAX));
    assert_eq!(parse_micros("9223372036854.775808", 1), None);
    assert_eq!(parse_micros("9223372036.854775", 1000), Some(9_223_372_036_854_775_000));
    assert_eq!(parse_micros("9223372036.854776", 1000), None);
    // Any factor is taken.
    assert_eq!(parse_micros("2.5", 0), Some(0));
    assert_eq!(parse_micros("99999999999999999999", 0), Some(0));
    assert_eq!(parse_micros("99999999999999999999", 1), None);
    assert_eq!(parse_micros("99999999999999999999", -1), None);
    assert_eq!(parse_micros("2.5", -3), Some(-7_500_000));
    assert_eq!(parse_micros("0.000001", i64::MAX), Some(i64::MAX));
    assert_eq!(parse_micros("0.000001", i64::MIN), Some(i64::MIN));
    assert_eq!(parse_micros("0.000002", i64::MIN), None);
    assert_eq!(parse_micros("9223372036854.775808", -1), Some(i64::MIN));
    assert_eq!(parse_micros("9223372036854.775809", -1), None);
    assert_eq!(parse_micros("x", 0), None);
    for bad in ["", ".", "1.", ".5", "1.2.3", "1,5", "-1", "+1", "1e3", " 1", "1 ", "١"] {
        assert_eq!(parse_micros(bad, 1), None, "{bad:?}");
    }
}

#[test]
fn conflicts_are_noted_in_order() {
    let mut result = ExtractionResult::new();
    result.add_conflict("old");
    result.add_note("n");
    check_conflicts("at any point above $1 or below $2 at close", &mut result);
    assert_eq!(
        result.conflicts,
        vec![
            "old",
            "Conflicting time window: 'any time' and 'at close'",
            "Multiple price levels found",
            "Ambiguous comparator: both 'above' and 'below' present",
        ]
    );
    assert_eq!(result.notes, vec!["n"]);
    let mut clean = ExtractionResult::new();
    check_conflicts("any time above $1", &mut clean);
    assert!(clean.conflicts.is_empty());
    check_conflicts("reach $1 then fall", &mut clean);
    assert_eq!(clean.conflicts, vec!["Ambiguous comparator: both 'above' and 'below' present"]);
    let mut two = ExtractionResult::new();
    check_conflicts("$1 $ 2", &mut two);
    assert_eq!(two.conflicts, vec!["Multiple price levels found"]);
}

#[test]
fn a_proposition_is_a_barrier_only_with_all_three_finds() {
    let full = make_extraction(true, true, true, true, true, true);
    match build_proposition(&full) {
        PropositionKind::PriceBarrier { underlier, comparator, level, measure, window, source } => {
            assert_eq!(underlier, Underlier::new("BTC"));
            assert_eq!(comparator, Comparator::GE);
            assert_eq!(level, usd(100000.0));
            assert_eq!(measure, PriceMeasure::Spot);
            assert_eq!(window, TimeWindow::any_time_before(1234567890000));
            assert_eq!(source, PriceSource::Exchange("Coinbase".to_string()));
        }
        other => panic!("{other:?}"),
    }
    for missing in 0..3 {
        let part = make_extraction(missing != 0, missing != 1, missing != 2, true, true, true);
        match build_proposition(&part) {
            PropositionKind::YesNoEvent { description, window } => {
                assert_eq!(description, "");
                assert_eq!(window, TimeWindow::any_time_before(1234567890000));
            }
            other => panic!("{other:?}"),
        }
    }
}

#[test]
fn test_extract_strike() {
    assert_eq!(extract_strike_from_title("BTC >= $100,000"), Some(usd(100000.0)));
    assert_eq!(extract_strike_from_title("BTC above $90000"), Some(usd(90000.0)));
    assert_eq!(extract_strike_from_title("Will reach 100k"), Some(usd(100000.0)));
    assert_eq!(extract_strike_from_title("No number here"), None);
}

#[test]
fn a_strike_in_dollars_that_cannot_be_read_gives_none() {
    assert_eq!(extract_strike_from_title("$,,, or 5k"), None);
    assert_eq!(extract_strike_from_title("$1,2,3.5"), Some(123_500_000));
    assert_eq!(extract_strike_from_title("2K"), Some(2_000_000_000));
}

#[test]
fn test_mock_ingestor() {
    let ingestor = MockIngestor::new("mock");
    let market = UniverseMarket {
        market_id: "test-1".to_string(),
        title: "Will BTC reach $100,000?".to_string(),
        outcome_ids: vec!["0".to_string(), "1".to_string()],
        close_ts: Some(1234567890000),
        status: "active".to_string(),
        tags: vec![],
        token_ids: vec![],
    };

    let record = ingestor.fetch_rules(&market, 5);
    assert!(record.raw_rules_text.contains("at or above"));
    assert!(record.raw_rules_text.contains("100000"));
}

#[test]
fn mock_rules_follow_the_title() {
    let ingestor = MockIngestor::new("mock");
    assert_eq!(ingestor.venue(), "mock");
    let market = |title: &str| UniverseMarket {
        market_id: "id".to_string(),
        title: title.to_string(),
        outcome_ids: vec![],
        close_ts: None,
        status: "active".to_string(),
        tags: vec![],
        token_ids: vec![],
    };
    assert_eq!(
        ingestor.generate_btc_ladder_rules(&market("ETH below $4,000.5")),
        "This market will resolve to \"Yes\" if the price of Ethereum (ETH) is below $4000 at any time before the market closes, according to the spot price on Coinbase. Otherwise, it will resolve to \"No\"."
    );
    assert!(ingestor.generate_btc_ladder_rules(&market("Sol > $1.5")).contains("Solana (SOL) is above $2 "));
    assert!(ingestor.generate_btc_ladder_rules(&market("x <= $2.5")).contains("Bitcoin (BTC) is at or below $2 "));
    assert!(ingestor.generate_btc_ladder_rules(&market("x $2.500001")).contains("is at or above $3 "));
    assert_eq!(
        ingestor.generate_btc_ladder_rules(&market("Rain Tomorrow")),
        "This market will resolve to \"Yes\" if Rain Tomorrow occurs before the market closes. Otherwise, it will resolve to \"No\"."
    );
    let record = ingestor.fetch_rules(&market("Rain"), 77);
    assert_eq!(record.venue, "mock");
    assert_eq!(record.url.as_deref(), Some("https://mock.venue/id"));
    assert_eq!(record.fetched_ts, 77);
    assert_eq!(record.raw_resolution_source.as_deref(), Some("Coinbase"));
    let kalshi = KalshiIngestor::new();
    assert_eq!(kalshi.api_url(), "https://trading-api.kalshi.com");
    let theirs = kalshi.fetch_rules(&market("Rain"), 78);
    assert_eq!((theirs.venue.as_str(), theirs.raw_rules_text.as_str()), ("kalshi", "Rain"));
    assert_eq!(theirs.url.as_deref(), Some("https://kalshi.com/markets/id"));
    let config = IngestConfig::default();
    assert_eq!((config.venue.as_str(), config.data_dir.as_str()), ("polymarket", "data"));
    assert_eq!((config.concurrency, config.rate_limit_ms, config.limit, config.force_refetch), (2, 100, None, false));
    assert_eq!(config.date, chrono::Utc::now().format("%Y-%m-%d").to_string());
}

#[test]
fn test_rules_hash() {
    let record = RulesRecord {
        venue: "test".to_string(),
        market_id: "1".to_string(),
        outcome_id: None,
        url: None,
        fetched_ts: 0,
        title: "Test".to_string(),
        close_ts: None,
        raw_rules_text: "Test rules".to_string(),
        raw_resolution_source: None,
        raw_json: None,
    };

    let hash = record.rules_hash();
    assert_eq!(hash.len(), 64); // SHA256 hex
}

#[test]
fn the_rules_hash_is_the_sha256_of_the_text() {
    let record = |text: &str| RulesRecord {
        venue: String::new(),
        market_id: String::new(),
        outcome_id: None,
        url: None,
        fetched_ts: 0,
        title: String::new(),
        close_ts: None,
        raw_rules_text: text.to_string(),
        raw_resolution_source: None,
        raw_json: None,
    };
    assert_eq!(
        record("abc").rules_hash(),
        "ba7816bf8f01cfea414140de5dae2223b00361a396177a9cb410ff61f20015ad"
    );
    assert_eq!(
        record("").rules_hash(),
        "e3b0c44298fc1c149afbf4c8996fb92427ae41e4649b934ca495991b7852b855"
    );
}

fn make_test_record(title: &str, rules: &str) -> RulesRecord {
    RulesRecord {
        venue: "test".to_string(),
        market_id: format!("test-{}", title.len()),
        outcome_id: None,
        url: None,
        fetched_ts: 0,
        title: title.to_string(),
        close_ts: Some(1234567890000),
        raw_rules_text: rules.to_string(),
        raw_resolution_source: None,
        raw_json: None,
    }
}

#[test]
fn test_normalize_btc_barrier() {
    let record = make_test_record(
        "BTC >= $100k",
        "This market resolves Yes if Bitcoin is at or above $100000 at any time before close according to Coinbase.",
    );

    let np = normalize_rules(&record);

    assert!(np.proposition.is_price_barrier());
    assert!(np.confidence > conf(0.6));
    assert!(!np.needs_review());
}

#[test]
fn test_normalize_unknown() {
    let record = make_test_record("Random event", "Something happens.");

    let np = normalize_rules(&record);

    assert!(matches!(np.proposition, PropositionKind::YesNoEvent { .. }));
    assert!(np.confidence < conf(0.6));
    assert!(np.needs_review());
}

#[test]
fn test_filter_by_confidence() {
    let records = vec![
        make_test_record("BTC >= $100k", "Bitcoin at or above $100000 any time before close on Coinbase"),
        make_test_record("Unknown", "Something"),
    ];

    let props = normalize_batch(&records);
    let (high, low) = filter_by_confidence(&props, conf(0.6));

    assert_eq!(high.len(), 1);
    assert_eq!(low.len(), 1);
    assert_eq!((high[0], low[0]), (0, 1));
}

#[test]
fn test_group_by_underlier() {
    let records = vec![
        make_test_record("BTC $100k", "Bitcoin above $100000"),
        make_test_record("BTC $110k", "Bitcoin above $110000"),
        make_test_record("ETH $4k", "Ethereum above $4000"),
    ];

    let props = normalize_batch(&records);
    let groups = group_by_underlier(&props);
    let get = |kind: &str| groups.iter().find(|g| g.underlier == kind).map(|g| g.members.len());

    assert_eq!(get("BTC"), Some(2));
    assert_eq!(get("ETH"), Some(1));
    assert_eq!(groups.len(), 2);
    assert_eq!(groups[0].members, vec![0, 1]);
    assert_eq!(groups[1].members, vec![2]);
    assert_eq!(get_price_barriers(&props), vec![0, 1, 2]);
}

#[test]
fn normalizing_keeps_the_record_and_notes_conflicts() {
    let mut record = make_test_record("Rain", "Bitcoin above $1 or below $2");
    record.outcome_id = Some("yes".to_string());
    record.venue = "kalshi".to_string();
    let np = normalize_rules(&record);
    assert_eq!((np.venue.as_str(), np.market_id.as_str(), np.title.as_str()), ("kalshi", "test-4", "Rain"));
    assert_eq!(np.outcome_id.as_deref(), Some("yes"));
    assert_eq!(np.raw_rules_hash, record.rules_hash());
    assert_eq!(
        np.parse_notes,
        vec![
            "Underlier extracted",
            "Price level extracted",
            "Comparator extracted",
            "CONFLICT: Multiple price levels found",
            "CONFLICT: Ambiguous comparator: both 'above' and 'below' present",
        ]
    );
    // 0.2 + 3 * 0.2 - 2 * 0.2
    assert_eq!(np.confidence, 400_000);
    let event = normalize_rules(&make_test_record("Rain", "it rains"));
    match &event.proposition {
        PropositionKind::YesNoEvent { description, window } => {
            assert_eq!(description, "Rain");
            assert_eq!(window.end_ts, Some(1234567890000));
        }
        other => panic!("{other:?}"),
    }
    // 0.2 - 0.1
    assert_eq!(event.confidence, 100_000);
    assert!(get_price_barriers(&[event]).is_empty());
}

#[test]
fn test_comparator_direction() {
    assert!(Comparator::GE.is_upward());
    assert!(Comparator::GT.is_upward());
    assert!(Comparator::LE.is_downward());
    assert!(Comparator::LT.is_downward());
}

#[test]
fn test_price_barrier() {
    let prop = full_barrier();

    assert!(prop.is_price_barrier());
    assert_eq!(prop.underlier().unwrap().kind, "BTC");
}

#[test]
fn test_normalized_proposition() {
    let np = NormalizedProposition::new("polymarket", "0x123", "BTC > 100k", "abc123")
        .with_confidence(conf(0.8))
        .add_note("Parsed successfully");

    assert!(!np.needs_review());
    assert_eq!(np.confidence, conf(0.8));
}

#[test]
fn propositions_are_built_step_by_step() {
    let np = NormalizedProposition::new("v", "m", "t", "h");
    assert_eq!((np.venue.as_str(), np.market_id.as_str(), np.title.as_str(), np.raw_rules_hash.as_str()), ("v", "m", "t", "h"));
    assert!(np.outcome_id.is_none() && np.parse_notes.is_empty());
    assert_eq!(np.proposition, PropositionKind::Unknown);
    assert!(np.needs_review());
    let np = np.with_outcome("yes").with_proposition(full_barrier()).with_confidence(2_000_000);
    assert_eq!(np.outcome_id.as_deref(), Some("yes"));
    assert_eq!(np.confidence, 1_000_000);
    assert!(np.proposition.is_price_barrier());
    let np = np.with_confidence(-5).add_note("a").add_note("b");
    assert_eq!(np.confidence, 0);
    assert_eq!(np.parse_notes, vec!["a", "b"]);
    assert_eq!(np.with_confidence(599_999).needs_review(), true);
    assert_eq!(Underlier::new("btc").kind, "BTC");
    assert_eq!(Underlier::new("straße").kind, "STRASSE");
    let with = Underlier::with_symbol("eth", "ETH-usd");
    assert_eq!((with.kind.as_str(), with.venue_symbol.as_deref()), ("ETH", Some("ETH-usd")));
    assert_eq!(Underlier::default(), Underlier { kind: String::new(), venue_symbol: None });
    assert_eq!(PriceSource::default(), PriceSource::Unknown);
    assert_eq!(PriceMeasure::default(), PriceMeasure::Unknown);
    assert_eq!(TimeWindowKind::default(), TimeWindowKind::Unknown);
    assert_eq!(PropositionKind::default(), PropositionKind::Unknown);
    assert_eq!(PropositionKind::Unknown.kind_name(), "unknown");
    assert_eq!(full_barrier().kind_name(), "price_barrier");
    assert!(PropositionKind::Unknown.underlier().is_none());
    assert!(PropositionKind::Unknown.time_window().is_none());
    let range = PropositionKind::RangePartition {
        underlier: Underlier::new("sol"),
        low: Some(1),
        high: None,
        window: TimeWindow::at_close(3),
        source: PriceSource::Unknown,
    };
    assert_eq!(range.underlier().unwrap().kind, "SOL");
    assert_eq!(range.time_window(), Some(&TimeWindow::at_close(3)));
    assert!(!range.is_price_barrier());
    assert_eq!(range.kind_name(), "range_partition");
    let event = PropositionKind::YesNoEvent { description: String::new(), window: TimeWindow::default() };
    assert_eq!(event.kind_name(), "yes_no_event");
}

fn make_low_confidence_prop() -> NormalizedProposition {
    NormalizedProposition {
        venue: "test".to_string(),
        market_id: "test-1".to_string(),
        outcome_id: None,
        title: "Unknown event".to_string(),
        raw_rules_hash: "abc".to_string(),
        proposition: PropositionKind::YesNoEvent {
            description: "Something".to_string(),
            window: TimeWindow::default(),
        },
        confidence: conf(0.3),
        parse_notes: vec!["Low confidence".to_string()],
    }
}

#[test]
fn test_filter_for_review() {
    let props = vec![
        make_low_confidence_prop(),
        NormalizedProposition { confidence: conf(0.9), ..make_low_confidence_prop() },
    ];

    let for_review = filter_for_review(&props, None);
    assert_eq!(for_review.len(), 1);
    assert_eq!(props[for_review[0]].confidence, conf(0.3));
}

#[test]
fn review_goes_by_the_threshold_given() {
    let props: Vec<NormalizedProposition> = [0.3, 0.6, 0.59, 0.9, 0.0]
        .iter()
        .map(|c| NormalizedProposition { confidence: conf(*c), ..make_low_confidence_prop() })
        .collect();
    assert_eq!(filter_for_review(&props, None), vec![0, 2, 4]);
    assert_eq!(filter_for_review(&props, Some(conf(0.95))), vec![0, 1, 2, 3, 4]);
    assert_eq!(filter_for_review(&props, Some(0)), Vec::<usize>::new());
    assert_eq!(filter_for_review(&[], None), Vec::<usize>::new());
    let (high, low) = filter_by_confidence(&props, conf(0.6));
    assert_eq!((high, low), (vec![1, 3], vec![0, 2, 4]));
}

#[test]
fn test_create_review_item() {
    let prop = make_low_confidence_prop();
    let item = create_review_item(&prop, "Raw rules text here", "null".to_string(), 12);

    assert_eq!(item.market_id, "test-1");
    assert_eq!(item.confidence, conf(0.3));
    assert_eq!(item.status, ReviewStatus::Pending);
    assert_eq!(item.raw_rules_text, "Raw rules text here");
    assert_eq!(item.parse_notes, vec!["Low confidence"]);
    assert_eq!((item.created_at, item.extracted_proposition.as_str()), (12, "null"));
}

#[test]
fn test_review_stats() {
    let items = vec![
        ReviewItem {
            venue: "test".to_string(),
            market_id: "1".to_string(),
            outcome_id: None,
            title: "Test".to_string(),
            raw_rules_text: "".to_string(),
            extracted_proposition: "null".to_string(),
            confidence: conf(0.3),
            parse_notes: vec![],
            status: ReviewStatus::Pending,
            created_at: 0,
        },
        ReviewItem { confidence: conf(0.5), status: ReviewStatus::Approved, ..Default::default() },
    ];

    let stats = ReviewStats::from_items(&items);
    assert_eq!(stats.total, 2);
    assert_eq!(stats.pending, 1);
    assert_eq!(stats.approved, 1);
    assert_eq!(stats.avg_confidence, conf(0.4));
}

#[test]
fn review_stats_count_every_status_and_round_the_mean_down() {
    let item = |confidence: i64, status: ReviewStatus| ReviewItem { confidence, status, ..Default::default() };
    assert_eq!(
        ReviewStats::from_items(&[]),
        ReviewStats { total: 0, pending: 0, approved: 0, rejected: 0, modified: 0, avg_confidence: 0 }
    );
    let items = vec![
        item(1, ReviewStatus::Rejected),
        item(2, ReviewStatus::Modified),
        item(2, ReviewStatus::Modified),
        item(0, ReviewStatus::Pending),
    ];
    assert_eq!(
        ReviewStats::from_items(&items),
        ReviewStats { total: 4, pending: 1, approved: 0, rejected: 1, modified: 2, avg_confidence: 1 }
    );
    assert_eq!(ReviewStats::from_items(&[item(-1, ReviewStatus::Pending), item(-2, ReviewStatus::Pending)]).avg_confidence, -2);
    assert_eq!(ReviewStats::from_items(&[item(i64::MAX, ReviewStatus::Pending), item(i64::MAX, ReviewStatus::Pending)]).avg_confidence, i64::MAX);
    assert_eq!(ReviewStats::from_items(&[item(i64::MIN, ReviewStatus::Pending), item(i64::MIN, ReviewStatus::Pending)]).avg_confidence, i64::MIN);
    assert_eq!(ReviewStatus::default(), ReviewStatus::Pending);
}
