use surveillance::schema::{create_snapshot_schema, ColumnType, SnapshotRow};

fn px(x: f64) -> i64 {
    (x * 1_000_000.0).round() as i64
}

fn pxs(xs: &[f64]) -> Vec<i64> {
    xs.iter().map(|x| px(*x)).collect()
}

fn unit(v: i64) -> f64 {
    v as f64 / 1_000_000.0
}

#[test]
fn test_snapshot_row_creation() {
    let row = SnapshotRow::new(
        1000,
        "polymarket".to_string(),
        "market1".to_string(),
        "outcome1".to_string(),
        1,
        pxs(&[0.5, 0.6, 0.4]),
        pxs(&[100.0, 200.0, 50.0]),
        pxs(&[0.7, 0.8, 0.65]),
        pxs(&[150.0, 100.0, 200.0]),
        None,
    );

    // Bids should be sorted descending
    assert_eq!(row.bid_px[0], px(0.6));
    assert_eq!(row.bid_px[1], px(0.5));
    assert_eq!(row.bid_px[2], px(0.4));

    // Asks should be sorted ascending
    assert_eq!(row.ask_px[0], px(0.65));
    assert_eq!(row.ask_px[1], px(0.7));
    assert_eq!(row.ask_px[2], px(0.8));

    // Best bid/ask should be correct
    assert_eq!(row.best_bid_px, Some(px(0.6)));
    assert_eq!(row.best_ask_px, Some(px(0.65)));
    assert!((unit(row.mid.unwrap()) - 0.625).abs() < 0.001);
    assert!((row.spread.unwrap() as f64 / 1_000_000.0 - 0.05).abs() < 0.001);
    assert_eq!(row.status, "ok");
}

#[test]
fn test_snapshot_row_partial() {
    let row = SnapshotRow::new(
        1000,
        "polymarket".to_string(),
        "market1".to_string(),
        "outcome1".to_string(),
        1,
        pxs(&[0.5]),
        pxs(&[100.0]),
        vec![],
        vec![],
        None,
    );

    assert_eq!(row.status, "partial");
    assert!(row.mid.is_none());
}

#[test]
fn test_cap_to_top_k() {
    let mut row = SnapshotRow::new(
        1000,
        "polymarket".to_string(),
        "market1".to_string(),
        "outcome1".to_string(),
        1,
        (0..100).map(|i| px(i as f64)).collect(),
        (0..100).map(|i| px(i as f64)).collect(),
        (0..100).map(|i| px(i as f64)).collect(),
        (0..100).map(|i| px(i as f64)).collect(),
        None,
    );

    row.cap_to_top_k(10);
    assert_eq!(row.bid_px.len(), 10);
    assert_eq!(row.ask_px.len(), 10);
}

#[test]
fn row_sizes_follow_their_prices() {
    let row = SnapshotRow::new(
        7,
        "v".to_string(),
        "m".to_string(),
        "o".to_string(),
        3,
        vec![500_000, 600_000, 400_000],
        vec![100, 200, 50],
        vec![700_000, 800_000, 650_000],
        vec![150, 100, 200],
        Some(5),
    );
    assert_eq!(row.bid_px, vec![600_000, 500_000, 400_000]);
    assert_eq!(row.bid_sz, vec![200, 100, 50]);
    assert_eq!(row.ask_px, vec![650_000, 700_000, 800_000]);
    assert_eq!(row.ask_sz, vec![200, 150, 100]);
    assert_eq!(row.best_bid_sz, 200);
    assert_eq!(row.best_ask_sz, 200);
    assert_eq!(row.mid, Some(625_000));
    assert_eq!(row.spread, Some(50_000));
    assert_eq!(row.ts_recv, 7);
    assert_eq!(row.seq, 3);
    assert_eq!(row.source_ts, Some(5));
    assert_eq!(row.err, "");
}

#[test]
fn levels_of_one_price_keep_their_order() {
    let row = SnapshotRow::new(
        0,
        "v".to_string(),
        "m".to_string(),
        "o".to_string(),
        0,
        vec![5, 7, 5, 7, 5],
        vec![1, 2, 3, 4, 5],
        vec![9, 8, 9, 8],
        vec![1, 2, 3, 4],
        None,
    );
    assert_eq!(row.bid_px, vec![7, 7, 5, 5, 5]);
    assert_eq!(row.bid_sz, vec![2, 4, 1, 3, 5]);
    assert_eq!(row.ask_px, vec![8, 8, 9, 9]);
    assert_eq!(row.ask_sz, vec![2, 4, 1, 3]);
}

#[test]
fn row_status_follows_the_sides() {
    let make = |bids: Vec<i64>, asks: Vec<i64>| {
        let bs = bids.clone();
        let az = asks.clone();
        SnapshotRow::new(0, "v".to_string(), "m".to_string(), "o".to_string(), 0, bids, bs, asks, az, None)
    };
    let both = make(vec![1], vec![2]);
    assert_eq!(both.status, "ok");
    assert!(both.mid.is_some() && both.spread.is_some());
    let bid_only = make(vec![1], vec![]);
    assert_eq!(bid_only.status, "partial");
    assert_eq!((bid_only.best_ask_px, bid_only.best_ask_sz), (None, 0));
    assert!(bid_only.mid.is_none() && bid_only.spread.is_none());
    let ask_only = make(vec![], vec![2]);
    assert_eq!(ask_only.status, "partial");
    assert_eq!((ask_only.best_bid_px, ask_only.best_bid_sz), (None, 0));
    let neither = make(vec![], vec![]);
    assert_eq!(neither.status, "empty");
    assert!(neither.mid.is_none() && neither.spread.is_none());
}

#[test]
fn a_crossed_book_is_kept_as_it_is() {
    let row = SnapshotRow::new(
        0,
        "v".to_string(),
        "m".to_string(),
        "o".to_string(),
        0,
        vec![700_000],
        vec![1],
        vec![600_000],
        vec![1],
        None,
    );
    assert_eq!(row.status, "ok");
    assert_eq!(row.spread, Some(-100_000));
    assert_eq!(row.mid, Some(650_000));
}

#[test]
fn mid_is_rounded_down_and_spread_is_exact_at_the_ends() {
    let make = |bid: i64, ask: i64| {
        SnapshotRow::new(0, "v".to_string(), "m".to_string(), "o".to_string(), 0, vec![bid], vec![1], vec![ask], vec![1], None)
    };
    assert_eq!(make(1, 2).mid, Some(1));
    assert_eq!(make(-2, -1).mid, Some(-2));
    assert_eq!(make(-1, 0).mid, Some(-1));
    assert_eq!(make(i64::MAX, i64::MAX).mid, Some(i64::MAX));
    assert_eq!(make(i64::MIN, i64::MIN).mid, Some(i64::MIN));
    assert_eq!(make(i64::MIN, i64::MAX).mid, Some(-1));
    assert_eq!(make(i64::MIN, i64::MAX).spread, Some(i64::MAX as i128 - i64::MIN as i128));
    assert_eq!(make(i64::MAX, i64::MIN).spread, Some(i64::MIN as i128 - i64::MAX as i128));
}

#[test]
fn sizes_beyond_the_prices_are_left_out() {
    let row = SnapshotRow::new(
        0,
        "v".to_string(),
        "m".to_string(),
        "o".to_string(),
        0,
        vec![1, 2],
        vec![10, 20, 30],
        vec![],
        vec![5],
        None,
    );
    assert_eq!(row.bid_px, vec![2, 1]);
    assert_eq!(row.bid_sz, vec![20, 10]);
    assert!(row.ask_px.is_empty() && row.ask_sz.is_empty());
}

#[test]
fn cap_keeps_the_best_levels_and_the_rest_of_the_row() {
    let mut row = SnapshotRow::new(
        1,
        "v".to_string(),
        "m".to_string(),
        "o".to_string(),
        2,
        vec![1, 3, 2],
        vec![10, 30, 20],
        vec![6, 4, 5],
        vec![60, 40, 50],
        None,
    );
    row.cap_to_top_k(5);
    assert_eq!(row.bid_px.len(), 3);
    row.cap_to_top_k(3);
    assert_eq!(row.bid_px.len(), 3);
    row.cap_to_top_k(2);
    assert_eq!(row.bid_px, vec![3, 2]);
    assert_eq!(row.bid_sz, vec![30, 20]);
    assert_eq!(row.ask_px, vec![4, 5]);
    assert_eq!(row.ask_sz, vec![40, 50]);
    assert_eq!((row.best_bid_px, row.best_ask_px), (Some(3), Some(4)));
    assert_eq!(row.status, "ok");
    row.cap_to_top_k(0);
    assert!(row.bid_px.is_empty() && row.ask_sz.is_empty());
    assert_eq!(row.mid, Some(3));
}

#[test]
fn the_schema_has_the_columns_of_the_file() {
    let schema = create_snapshot_schema();
    let names: Vec<&str> = schema.iter().map(|c| c.name).collect();
    assert_eq!(
        names,
        vec![
            "ts_recv", "venue", "market_id", "outcome_id", "seq", "best_bid_px", "best_bid_sz",
            "best_ask_px", "best_ask_sz", "mid", "spread", "bid_px", "bid_sz", "ask_px", "ask_sz",
            "status", "err", "source_ts",
        ]
    );
    assert_eq!(schema[0].data_type, ColumnType::Int64);
    assert_eq!(schema[1].data_type, ColumnType::Utf8);
    assert_eq!(schema[5].data_type, ColumnType::Float64);
    assert_eq!(schema[11].data_type, ColumnType::Float64List);
    assert!(schema.iter().take(17).all(|c| !c.nullable));
    assert!(schema[17].nullable);
    assert_eq!(schema[17].data_type, ColumnType::Int64);
}

#[test]
fn a_row_is_made_with_its_best_levels_only() {
    let make = |top_k: usize| {
        SnapshotRow::with_top_k(
            1000,
            "kalshi".to_string(),
            "m".to_string(),
            "yes".to_string(),
            7,
            pxs(&[0.5, 0.6, 0.4, 0.6]),
            pxs(&[100.0, 200.0, 50.0, 10.0]),
            pxs(&[0.7, 0.8, 0.65]),
            pxs(&[150.0, 100.0, 200.0]),
            Some(5),
            top_k,
        )
    };
    let row = make(2);
    assert_eq!(row.bid_px, pxs(&[0.6, 0.6]));
    assert_eq!(row.bid_sz, pxs(&[200.0, 10.0]));
    assert_eq!(row.ask_px, pxs(&[0.65, 0.7]));
    assert_eq!(row.ask_sz, pxs(&[200.0, 150.0]));
    assert_eq!((row.best_bid_px, row.best_ask_px), (Some(px(0.6)), Some(px(0.65))));
    assert_eq!(row.mid, Some(px(0.625)));
    assert_eq!(row.status, "ok");
    assert_eq!((row.seq, row.source_ts, row.ts_recv), (7, Some(5), 1000));
    // A cap that no side reaches changes nothing.
    let whole = make(4);
    assert_eq!(whole.bid_px, pxs(&[0.6, 0.6, 0.5, 0.4]));
    assert_eq!(whole.ask_px, pxs(&[0.65, 0.7, 0.8]));
    // With no level kept the best prices are still those of the book.
    let none = make(0);
    assert!(none.bid_px.is_empty() && none.ask_sz.is_empty());
    assert_eq!(none.best_bid_px, Some(px(0.6)));
    assert_eq!(none.status, "ok");
}
