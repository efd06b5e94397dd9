use surveillance::collector::{
    Collector, FeedOutcome, FeedResult, ERROR_SLEEP_MS, IDLE_SLEEP_MS,
};
use surveillance::config::{
    Config, MockConfig, RotationConfig, StorageConfig, VenueConfig, VenuesConfig,
};
use surveillance::keys::KeySet;
use surveillance::paths::{
    dated_dir, hour_dir, parse_hours, parse_number, review_queue_file, rules_file, stats_file,
    universe_file, HoursError,
};
use surveillance::scheduler::{Scheduler, SchedulerError};
use surveillance::schema::SnapshotRow;
use surveillance::snapshotter::{Snapshotter, Tier};
use surveillance::storage::{clone_row, FlushJob, ParquetWriter, WriteStep};
use surveillance::timebucket::{CivilDate, TimeBucket};
use surveillance::venue::{KalshiVenue, MarketInfo, OrderBookLevel, OrderBookUpdate};

fn venue(max_subs: usize, hot_ms: u64, warm_ms: u64) -> VenueConfig {
    VenueConfig {
        enabled: true,
        api_key: String::new(),
        api_secret: String::new(),
        ws_url: None,
        rest_url: None,
        max_subs,
        hot_count: 1,
        rotation_period_secs: 180,
        snapshot_interval_ms_hot: hot_ms,
        snapshot_interval_ms_warm: warm_ms,
        subscription_churn_limit_per_minute: 20,
    }
}

fn config(flush_rows: usize, hot_ms: u64, warm_ms: u64, top_k: usize) -> Config {
    Config {
        data_dir: "/var/data".to_string(),
        venues: VenuesConfig {
            polymarket: Some(venue(10, hot_ms, warm_ms)),
            kalshi: Some(venue(10, hot_ms, warm_ms)),
        },
        storage: StorageConfig { top_k, flush_rows, flush_seconds: 5, bucket_minutes: 5 },
        rotation: RotationConfig { enabled: true },
        mock: MockConfig { enabled: false, universe_size: 0, markets_per_venue: 0 },
    }
}

fn millis(text: &str) -> i64 {
    chrono::DateTime::parse_from_rfc3339(text).unwrap().timestamp_millis()
}

fn row(venue: &str, market: &str, ts_recv: i64) -> SnapshotRow {
    SnapshotRow::new(
        ts_recv,
        venue.to_string(),
        market.to_string(),
        "yes".to_string(),
        1,
        vec![400_000],
        vec![1_000_000],
        vec![600_000],
        vec![2_000_000],
        None,
    )
}

fn key(a: &str, b: &str) -> (String, String) {
    (a.to_string(), b.to_string())
}

fn set(keys: &[(String, String)]) -> KeySet {
    let mut out = KeySet::new();
    for k in keys {
        out.insert(k.clone());
    }
    out
}

fn markets_of(jobs: &[FlushJob]) -> Vec<Vec<&str>> {
    jobs.iter().map(|j| j.rows.iter().map(|r| r.market_id.as_str()).collect()).collect()
}

fn buffered(step: WriteStep) -> bool {
    match step {
        WriteStep::Buffered { flush_due } => flush_due,
        WriteStep::FlushFirst(_) => panic!("the row was handed back"),
    }
}

#[test]
fn bucket_rollover_scenario() {
    let mut writer = ParquetWriter::new(&config(1000, 1000, 1000, 50));
    let times = ["2024-01-15T10:04:30Z", "2024-01-15T10:04:59Z", "2024-01-15T10:05:00Z", "2024-01-15T10:05:30Z"];
    let mut files: Vec<(String, Vec<i64>)> = Vec::new();
    for (i, time) in times.iter().enumerate() {
        let mut next = row("polymarket", &format!("m{i}"), millis(time));
        loop {
            match writer.write(next) {
                WriteStep::Buffered { flush_due } => {
                    assert!(!flush_due);
                    break;
                }
                WriteStep::FlushFirst(back) => {
                    // The buffer is flushed before the new bucket is adopted.
                    for job in writer.flush_jobs() {
                        files.push((job.final_file, job.rows.iter().map(|r| r.ts_recv).collect()));
                    }
                    writer.flush_done();
                    next = back;
                }
            }
        }
    }
    for job in writer.flush_jobs() {
        files.push((job.final_file, job.rows.iter().map(|r| r.ts_recv).collect()));
    }
    writer.flush_done();
    assert_eq!(
        files,
        vec![
            (
                "/var/data/orderbook_snapshots/venue=polymarket/date=2024-01-15/hour=10/snapshots_2024-01-15T10-00.parquet".to_string(),
                vec![millis(times[0]), millis(times[1])],
            ),
            (
                "/var/data/orderbook_snapshots/venue=polymarket/date=2024-01-15/hour=10/snapshots_2024-01-15T10-05.parquet".to_string(),
                vec![millis(times[2]), millis(times[3])],
            ),
        ]
    );
    assert!(writer.flush_jobs().is_empty());
}

#[test]
fn a_row_of_another_bucket_is_handed_back_unchanged() {
    let mut writer = ParquetWriter::new(&config(1000, 1000, 1000, 50));
    assert_eq!(writer.current_bucket(), None);
    assert!(!buffered(writer.write(row("kalshi", "a", millis("2024-01-15T10:04:30Z")))));
    let first = writer.current_bucket().unwrap();
    assert_eq!(
        first,
        TimeBucket { date: CivilDate::from_ymd_opt(2024, 1, 15).unwrap(), hour: 10, minute: 0, bucket_minutes: 5 }
    );
    let late = row("kalshi", "b", millis("2024-01-15T11:04:30Z"));
    match writer.write(clone_row(&late)) {
        WriteStep::FlushFirst(back) => {
            assert_eq!(back.market_id, "b");
            assert_eq!(back.ts_recv, late.ts_recv);
            assert_eq!(back.bid_px, late.bid_px);
        }
        WriteStep::Buffered { .. } => panic!("the row was taken"),
    }
    assert_eq!(writer.buffered(), 1);
    assert_eq!(writer.current_bucket(), Some(first));
    // An earlier bucket is another bucket too.
    assert!(matches!(
        writer.write(row("kalshi", "c", millis("2024-01-15T09:59:59Z"))),
        WriteStep::FlushFirst(_)
    ));
    writer.flush_done();
    assert!(!buffered(writer.write(late)));
    assert_eq!(writer.current_bucket().unwrap().hour, 11);
}

#[test]
fn the_buffer_is_due_at_flush_rows_and_a_later_flush_has_the_same_file() {
    let mut writer = ParquetWriter::new(&config(3, 1000, 1000, 50));
    let at = millis("2024-01-15T10:04:30Z");
    assert!(!buffered(writer.write(row("kalshi", "a", at))));
    assert!(!buffered(writer.write(row("kalshi", "b", at + 1))));
    assert!(buffered(writer.write(row("kalshi", "c", at + 2))));
    let first = writer.flush_jobs();
    assert_eq!(markets_of(&first), vec![vec!["a", "b", "c"]]);
    writer.flush_done();
    assert_eq!(writer.buffered(), 0);
    assert!(!buffered(writer.write(row("kalshi", "d", at + 3))));
    let second = writer.flush_jobs();
    assert_eq!(markets_of(&second), vec![vec!["d"]]);
    // The later file takes the place of the earlier one.
    assert_eq!(second[0].final_file, first[0].final_file);
    assert_eq!(second[0].temp_file, first[0].temp_file);
    // A buffer that is not flushed stays due.
    assert!(!buffered(writer.write(row("kalshi", "e", at + 4))));
    assert!(buffered(writer.write(row("kalshi", "f", at + 5))));
    assert!(buffered(writer.write(row("kalshi", "g", at + 6))));
    assert_eq!(writer.buffered(), 4);
    let zero = ParquetWriter::new(&config(0, 1000, 1000, 50));
    assert_eq!(zero.flush_interval_ms(), 5000);
}

#[test]
fn a_flush_that_is_not_reported_keeps_every_row() {
    let mut writer = ParquetWriter::new(&config(100, 1000, 1000, 50));
    let at = millis("2024-01-15T10:04:30Z");
    writer.write(row("kalshi", "a", at));
    writer.write(row("kalshi", "b", at));
    let failed = writer.flush_jobs();
    assert_eq!(failed[0].temp_file, format!("{}.tmp", failed[0].final_file));
    assert!(failed[0].temp_file.ends_with("/snapshots_2024-01-15T10-00.parquet.tmp"));
    assert_eq!(failed[0].dir, "/var/data/orderbook_snapshots/venue=kalshi/date=2024-01-15/hour=10");
    // The write failed between the temporary file and the rename: nothing is reported.
    writer.write(row("kalshi", "c", at));
    let retry = writer.flush_jobs();
    assert_eq!(markets_of(&retry), vec![vec!["a", "b", "c"]]);
    assert_eq!(retry[0].final_file, failed[0].final_file);
    writer.flush_done();
    assert!(writer.flush_jobs().is_empty());
}

#[test]
fn a_flush_writes_one_file_per_venue() {
    let mut writer = ParquetWriter::new(&config(100, 1000, 1000, 50));
    let at = millis("2024-12-31T23:59:59Z");
    for (venue, market) in [("kalshi", "a"), ("polymarket", "b"), ("kalshi", "c"), ("mock", "d"), ("polymarket", "e")] {
        writer.write(row(venue, market, at));
    }
    let jobs = writer.flush_jobs();
    assert_eq!(jobs.iter().map(|j| j.venue.as_str()).collect::<Vec<_>>(), vec!["kalshi", "polymarket", "mock"]);
    assert_eq!(markets_of(&jobs), vec![vec!["a", "c"], vec!["b", "e"], vec!["d"]]);
    assert_eq!(
        jobs[1].final_file,
        "/var/data/orderbook_snapshots/venue=polymarket/date=2024-12-31/hour=23/snapshots_2024-12-31T23-55.parquet"
    );
    assert_eq!(jobs[2].rows[0].bid_px, vec![400_000]);
    assert_eq!(jobs[2].rows[0].status, "ok");
}

fn update(market: &str, seq: i64, ts: Option<i64>) -> OrderBookUpdate {
    OrderBookUpdate {
        market_id: market.to_string(),
        outcome_id: "yes".to_string(),
        bids: vec![OrderBookLevel { price: 400_000, size: 1 }, OrderBookLevel { price: 450_000, size: 2 }],
        asks: vec![OrderBookLevel { price: 600_000, size: 3 }],
        timestamp_ms: ts,
        sequence: seq,
    }
}

#[test]
fn monotone_updates_scenario() {
    let config = config(1000, 1000, 10_000, 50);
    let mut collector = Collector::new(&config, "kalshi".to_string(), 0);
    collector.snapshotter.update_sets(set(&[key("M", "yes")]), KeySet::new());
    let mut writer = ParquetWriter::new(&config);
    let wall = millis("2024-01-15T10:00:00Z");
    let mut seq_to_send = vec![(2400u64, 3i64), (1200, 2), (0, 1)];
    let mut rows: Vec<SnapshotRow> = Vec::new();
    let mut now = 0u64;
    while now <= 3500 {
        while seq_to_send.last().map(|(at, _)| *at <= now).unwrap_or(false) {
            let (_, seq) = seq_to_send.pop().unwrap();
            let outcome = collector.on_feed(FeedResult::Update(update("M", seq, None)), wall + now as i64);
            assert_eq!(outcome, FeedOutcome { sleep_ms: 0, gap: None });
        }
        for row in collector.take_snapshots(now, wall + now as i64) {
            assert!(!buffered(writer.write(clone_row(&row))));
            rows.push(row);
        }
        now += 100;
    }
    assert!(rows.len() >= 3);
    assert_eq!(rows.len(), 4);
    assert!(rows.iter().all(|r| r.status == "ok"));
    assert_eq!(rows.iter().map(|r| r.seq).collect::<Vec<_>>(), vec![1, 1, 2, 3]);
    assert!(rows.windows(2).all(|w| w[0].seq <= w[1].seq));
    assert_eq!(rows.iter().map(|r| r.ts_recv - wall).collect::<Vec<_>>(), vec![0, 1000, 2000, 3000]);
    assert_eq!(rows[0].bid_px, vec![450_000, 400_000]);
    assert_eq!((rows[0].venue.as_str(), rows[0].market_id.as_str()), ("kalshi", "M"));
    assert_eq!(writer.buffered(), 4);
    assert_eq!(collector.metrics.last_sequence("M", "yes"), Some(3));
}

#[test]
fn tiers_have_their_intervals() {
    let config = config(1000, 200, 500, 1);
    let mut collector = Collector::new(&config, "kalshi".to_string(), 0);
    for market in ["hot", "warm", "cold"] {
        collector.on_feed(FeedResult::Update(update(market, 1, Some(5))), 0);
    }
    collector.snapshotter.update_sets(set(&[key("hot", "yes")]), set(&[key("warm", "yes"), key("hot", "yes")]));
    assert_eq!(collector.snapshotter.tier(&key("hot", "yes")), Some(Tier::Hot));
    assert_eq!(collector.snapshotter.tier(&key("warm", "yes")), Some(Tier::Warm));
    assert_eq!(collector.snapshotter.tier(&key("cold", "yes")), None);
    let mut sampled: Vec<(u64, String)> = Vec::new();
    for now in (1000..=2000).step_by(100) {
        for row in collector.take_snapshots(now, 0) {
            // Rows are cut down to top_k levels a side.
            assert_eq!(row.bid_px, vec![450_000]);
            assert_eq!(row.bid_sz, vec![2]);
            sampled.push((now, row.market_id));
        }
    }
    let times = |market: &str| sampled.iter().filter(|(_, m)| m == market).map(|(t, _)| *t).collect::<Vec<_>>();
    assert_eq!(times("hot"), vec![1000, 1200, 1400, 1600, 1800, 2000]);
    assert_eq!(times("warm"), vec![1000, 1500, 2000]);
    assert!(times("cold").is_empty());
    assert_eq!(collector.snapshotter.next_due(&key("hot", "yes")), Some(2200));
    assert_eq!(collector.snapshotter.next_due(&key("cold", "yes")), None);
    // A book that left its tier keeps its due time, which counts again when it comes back.
    collector.snapshotter.update_sets(KeySet::new(), KeySet::new());
    assert!(collector.take_snapshots(5000, 0).is_empty());
    assert_eq!(collector.snapshotter.next_due(&key("warm", "yes")), Some(2500));
    collector.snapshotter.update_sets(KeySet::new(), set(&[key("warm", "yes")]));
    assert!(collector.take_snapshots(2499, 0).is_empty());
    assert_eq!(collector.take_snapshots(2500, 0).len(), 1);
    assert_eq!(collector.take_snapshots(u64::MAX, 0).len(), 1);
    assert_eq!(collector.snapshotter.next_due(&key("warm", "yes")), Some(u64::MAX));
}

#[test]
fn a_token_venue_looks_books_up_by_their_token() {
    let config = config(1000, 200, 500, 50);
    let mut snapshotter = Snapshotter::new(&config, "polymarket".to_string());
    assert!(snapshotter.needs_token_mapping());
    let universe = vec![
        MarketInfo {
            market_id: "m1".to_string(),
            title: String::new(),
            outcome_ids: vec!["yes".to_string(), "no".to_string()],
            close_ts: None,
            status: "active".to_string(),
            tags: vec![],
            token_ids: vec!["t1".to_string(), "t2".to_string(), "t3".to_string()],
        },
        MarketInfo {
            market_id: "m2".to_string(),
            title: String::new(),
            outcome_ids: vec![],
            close_ts: None,
            status: "active".to_string(),
            tags: vec![],
            token_ids: vec!["t4".to_string()],
        },
    ];
    snapshotter.load_market_to_token_mapping(&universe);
    assert!(!snapshotter.needs_token_mapping());
    snapshotter.update_sets(set(&[key("t1", ""), key("t3", "")]), set(&[key("t4", ""), key("m1", "no")]));
    assert_eq!(snapshotter.tier(&key("m1", "yes")), Some(Tier::Hot));
    assert_eq!(snapshotter.tier(&key("m1", "no")), None);
    // A token beyond the outcome ids goes by its number.
    assert_eq!(snapshotter.tier(&key("m1", "2")), Some(Tier::Hot));
    assert_eq!(snapshotter.tier(&key("m2", "0")), Some(Tier::Warm));
    assert_eq!(snapshotter.tier(&key("t1", "")), None);
    // The map is loaded once.
    snapshotter.load_market_to_token_mapping(&universe[1..]);
    assert_eq!(snapshotter.tier(&key("m1", "yes")), Some(Tier::Hot));
    let mut by_outcome = Snapshotter::new(&config, "kalshi".to_string());
    assert!(!by_outcome.needs_token_mapping());
    by_outcome.load_market_to_token_mapping(&universe);
    by_outcome.update_sets(set(&[key("m1", "yes")]), KeySet::new());
    assert_eq!(by_outcome.tier(&key("m1", "yes")), Some(Tier::Hot));
}

#[test]
fn the_feed_loop_pauses_after_idle_polls_and_errors() {
    let config = config(1000, 200, 500, 50);
    let mut collector = Collector::new(&config, "kalshi".to_string(), 0);
    assert_eq!(collector.on_feed(FeedResult::Idle, 0), FeedOutcome { sleep_ms: IDLE_SLEEP_MS, gap: None });
    assert_eq!(collector.on_feed(FeedResult::Error, 0), FeedOutcome { sleep_ms: ERROR_SLEEP_MS, gap: None });
    assert_eq!((IDLE_SLEEP_MS, ERROR_SLEEP_MS), (10, 1000));
    let gap = collector.on_feed(FeedResult::Update(update("m", 3, Some(9))), 100).gap.unwrap();
    assert_eq!((gap.expected, gap.got, gap.gap), (1, 3, 2));
    collector.on_feed(FeedResult::Update(update("m", 4, None)), 100);
    let book = collector.book_store.get("m", "yes").unwrap();
    assert_eq!((book.sequence, book.last_update_ts), (4, 100));
    let stats = collector.metrics.get_current_stats(0);
    assert_eq!((stats.total_messages, stats.total_updates, stats.total_errors), (2, 2, 1));
}

#[test]
fn a_rotation_feeds_the_snapshotter_and_the_manager() {
    let config = config(1000, 200, 500, 50);
    let mut scheduler = Scheduler::new(config.clone());
    let mut collector = Collector::new(&config, "kalshi".to_string(), 0);
    let universe: Vec<MarketInfo> = (0..4)
        .map(|i| MarketInfo {
            market_id: format!("m{i}"),
            title: String::new(),
            outcome_ids: vec!["yes".to_string()],
            close_ts: Some(1000 - i),
            status: "active".to_string(),
            tags: vec![],
            token_ids: vec![],
        })
        .collect();
    let done = collector.rotate(&mut scheduler, &universe, None, 0, 50).unwrap().unwrap();
    assert_eq!((done.hot, done.warm, done.queued_adds, done.queued_removes), (1, 3, 4, 0));
    assert_eq!(collector.snapshotter.tier(&key("m0", "yes")), Some(Tier::Hot));
    assert_eq!(collector.snapshotter.tier(&key("m3", "yes")), Some(Tier::Warm));
    assert_eq!(
        collector.subscription_manager.current().to_vec(),
        vec![key("m0", "yes"), key("m1", "yes"), key("m2", "yes"), key("m3", "yes")]
    );
    assert_eq!(collector.subscription_manager.pending_adds(), 4);
    // Before the period has passed nothing changes.
    assert_eq!(collector.rotate(&mut scheduler, &universe[..1], None, 0, 179_999 + 50).unwrap(), None);
    assert_eq!(collector.subscription_manager.pending_removes(), 0);
    let again = collector.rotate(&mut scheduler, &universe[..1], None, 0, 180_000 + 50).unwrap().unwrap();
    assert_eq!((again.hot, again.warm, again.queued_adds, again.queued_removes), (1, 0, 0, 3));
    assert_eq!(collector.snapshotter.tier(&key("m3", "yes")), None);
    let mut other = Collector::new(&config, "polymarket".to_string(), 0);
    let mut unconfigured = Scheduler::new(Config {
        venues: VenuesConfig { polymarket: None, kalshi: None },
        ..config.clone()
    });
    assert_eq!(other.rotate(&mut unconfigured, &universe, None, 0, 0).unwrap(), None);
    let mut partly = Scheduler::new(Config {
        venues: VenuesConfig { polymarket: None, kalshi: config.venues.kalshi.clone() },
        ..config.clone()
    });
    assert_eq!(other.rotate(&mut partly, &universe, None, 0, 0).unwrap(), None);
    let _ = SchedulerError::VenueConfigNotFound;
}

#[test]
fn the_kalshi_adaptor_is_made_unconnected() {
    let mut venue = KalshiVenue::new(
        "kalshi".to_string(),
        "key".to_string(),
        "secret".to_string(),
        "wss://feed".to_string(),
        "https://rest".to_string(),
    );
    assert_eq!((venue.name(), venue.api_key(), venue.api_secret()), ("kalshi", "key", "secret"));
    assert_eq!((venue.ws_url(), venue.rest_url()), ("wss://feed", "https://rest"));
    assert!(!venue.is_connected());
    venue.set_connected(true);
    assert!(venue.is_connected());
    assert_eq!(venue.name(), "kalshi");
    assert_eq!(
        KalshiVenue::choose_credentials("", "", "file-key".to_string(), "file-secret".to_string()),
        ("file-key".to_string(), "file-secret".to_string())
    );
    assert_eq!(
        KalshiVenue::choose_credentials("k", "", "file-key".to_string(), "file-secret".to_string()),
        ("k".to_string(), "file-secret".to_string())
    );
    assert_eq!(
        KalshiVenue::choose_credentials("k", "s", "file-key".to_string(), "file-secret".to_string()),
        ("k".to_string(), "s".to_string())
    );
}

#[test]
fn files_of_a_venue_and_a_day() {
    assert_eq!(
        dated_dir("/data", "logic", "kalshi", "2024-01-15"),
        "/data/logic/venue=kalshi/date=2024-01-15"
    );
    assert_eq!(dated_dir("", "", "", ""), "//venue=/date=");
    assert_eq!(
        universe_file("data", "polymarket", "2024-01-15"),
        "data/metadata/venue=polymarket/date=2024-01-15/universe.jsonl"
    );
    assert_eq!(
        stats_file("data", "polymarket", "2024-01-15"),
        "data/stats/venue=polymarket/date=2024-01-15/stats.parquet"
    );
    assert_eq!(
        review_queue_file("data", "kalshi", "2024-01-15"),
        "data/review_queue/venue=kalshi/date=2024-01-15/queue.jsonl"
    );
    assert_eq!(
        rules_file("data", "kalshi", "2024-01-15"),
        "data/rules/venue=kalshi/date=2024-01-15/rules.jsonl"
    );
}

#[test]
fn hours_are_chosen_by_name_span_or_number() {
    assert_eq!(parse_hours("all"), Ok((0..=23).collect::<Vec<u32>>()));
    assert_eq!(parse_hours("3-6"), Ok(vec![3, 4, 5, 6]));
    assert_eq!(parse_hours("6-3"), Ok(vec![]));
    assert_eq!(parse_hours("7-7"), Ok(vec![7]));
    assert_eq!(parse_hours("+1-+2"), Ok(vec![1, 2]));
    assert_eq!(parse_hours("4294967294-4294967295"), Ok(vec![u32::MAX - 1, u32::MAX]));
    assert_eq!(parse_hours("23"), Ok(vec![23]));
    assert_eq!(parse_hours("007"), Ok(vec![7]));
    assert_eq!(parse_hours("x-3"), Err(HoursError::InvalidStart));
    assert_eq!(parse_hours("-3"), Err(HoursError::InvalidStart));
    assert_eq!(parse_hours("3-"), Err(HoursError::InvalidEnd));
    assert_eq!(parse_hours("3-4-5"), Err(HoursError::InvalidEnd));
    assert_eq!(parse_hours("3-4294967296"), Err(HoursError::InvalidEnd));
    assert_eq!(parse_hours(""), Err(HoursError::InvalidValue));
    assert_eq!(parse_hours("All"), Err(HoursError::InvalidValue));
    assert_eq!(parse_hours("1.5"), Err(HoursError::InvalidValue));
    assert_eq!(hour_dir("/d/x", 5), "/d/x/hour=05");
    assert_eq!(hour_dir("", 23), "/hour=23");
    assert_eq!(hour_dir("a", 123), "a/hour=123");
}

#[test]
fn numbers_are_read_as_the_standard_library_reads_them() {
    for text in [
        "", "+", "0", "+0", "00", "7", "+7", "42", "4294967295", "4294967296", "+4294967295",
        "99999999999999999999", "-1", "1-", " 1", "1 ", "1.0", "1e3", "++1", "+-1", "١", "0x10",
        "1_000", "12a",
    ] {
        assert_eq!(parse_number(text), text.parse::<u32>().ok(), "{text:?}");
    }
}

#[test]
fn a_book_stays_due_until_it_is_marked() {
    let config = config(1000, 200, 500, 50);
    let mut collector = Collector::new(&config, "kalshi".to_string(), 0);
    collector.on_feed(FeedResult::Update(update("hot", 1, Some(5))), 0);
    collector.on_feed(FeedResult::Update(update("cold", 1, Some(5))), 0);
    collector.snapshotter.update_sets(set(&[key("hot", "yes"), key("gone", "yes")]), KeySet::new());
    let hot = key("hot", "yes");
    let row = collector.snapshotter.sample_key(&collector.book_store, &hot, 100, 7).unwrap();
    assert_eq!((row.market_id.as_str(), row.ts_recv, row.seq), ("hot", 7, 1));
    // Not marked: due again at once.
    assert!(collector.snapshotter.sample_key(&collector.book_store, &hot, 100, 7).is_some());
    collector.snapshotter.mark_sampled(&hot, 100);
    assert_eq!(collector.snapshotter.next_due(&hot), Some(300));
    assert!(collector.snapshotter.sample_key(&collector.book_store, &hot, 299, 7).is_none());
    assert!(collector.snapshotter.sample_key(&collector.book_store, &hot, 300, 7).is_some());
    // A book without a tier, or a key without a book, gives no row and is not marked.
    assert!(collector.snapshotter.sample_key(&collector.book_store, &key("cold", "yes"), 300, 7).is_none());
    assert!(collector.snapshotter.sample_key(&collector.book_store, &key("gone", "yes"), 300, 7).is_none());
    collector.snapshotter.mark_sampled(&key("cold", "yes"), 300);
    assert_eq!(collector.snapshotter.next_due(&key("cold", "yes")), None);
}

#[test]
fn a_failed_flush_leaves_the_buffer_in_place() {
    let mut writer = ParquetWriter::new(&config(100, 1000, 1000, 50));
    let at = millis("2024-01-15T10:04:30Z");
    writer.write(row("kalshi", "a", at));
    writer.write(row("polymarket", "b", at));
    let bucket = writer.current_bucket();
    let first = writer.flush_jobs();
    assert!(!writer.after_flush(false));
    assert_eq!(writer.buffered(), 2);
    assert_eq!(writer.current_bucket(), bucket);
    let again = writer.flush_jobs();
    assert_eq!(markets_of(&again), markets_of(&first));
    assert_eq!(again[1].final_file, first[1].final_file);
    assert!(writer.after_flush(true));
    assert_eq!(writer.buffered(), 0);
    assert_eq!(writer.current_bucket(), bucket);
    assert!(writer.flush_jobs().is_empty());
}
