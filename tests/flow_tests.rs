use daliatrac::backfill::{daily_series_from_provider, is_error_body, DailyClose, ProviderReading};
use daliatrac::calendar::Date;
use daliatrac::error::SyncError;
use daliatrac::heatmap::{build_heatmap, HeatAsset, HeatmapCache, QuoteResult, HEATMAP_TTL_SECS};
use daliatrac::reconcile::{backfill_event, coverage_event, existence_event, intraday_window, reconcile_step, Action, Event, Phase, INTRADAY_CUTOVER, QUOTE_CUTOVER};
use daliatrac::statement::{build_statement_record, PeriodBucket, ProviderItem, StatementKind};
use daliatrac::store::{PriceStore, StatementStore};
use daliatrac::ticker::ticker_variants;

fn day(y: i32, m: u32, d: u32) -> Date {
    Date::from_ymd(y, m, d).unwrap()
}

#[test]
fn repeated_upsert_leaves_one_row() {
    let mut s = PriceStore::new();
    s.upsert("AMXB", day(2024, 3, 1), 17_000_000);
    s.upsert("AMXB", day(2024, 3, 1), 17_000_000);
    assert_eq!(s.rows.len(), 1);
    s.upsert("AMXB", day(2024, 3, 1), 18_000_000);
    assert_eq!(s.rows.len(), 1);
    assert_eq!(s.rows[0].price, 18_000_000);
    s.upsert("AMXB", day(2024, 3, 2), 0);
    assert_eq!(s.rows.len(), 1);
}

#[test]
fn store_selects_by_key_and_range_in_order() {
    let mut s = PriceStore::new();
    s.upsert("AMXB", day(2024, 3, 5), 3);
    s.upsert("WALMEX*", day(2024, 3, 4), 9);
    s.upsert("AMXB", day(2024, 3, 1), 1);
    s.upsert("AMXB", day(2024, 3, 4), 2);
    s.upsert("AMXB", day(2024, 3, 8), 4);
    let r = s.select_range("AMXB", day(2024, 3, 1), day(2024, 3, 5));
    assert_eq!(
        r,
        vec![
            DailyClose { date: day(2024, 3, 1), close: 1 },
            DailyClose { date: day(2024, 3, 4), close: 2 },
            DailyClose { date: day(2024, 3, 5), close: 3 },
        ]
    );
    let range = s.stored_range("AMXB").unwrap();
    assert_eq!(range.first, day(2024, 3, 1));
    assert_eq!(range.last, day(2024, 3, 8));
    assert!(s.stored_range("GFNORTEO").is_none());
}

#[test]
fn coverage_decides_between_read_and_backfill() {
    let mut s = PriceStore::new();
    let stored = s.stored_range("AMXB");
    let c = daliatrac::coverage::check_intraday_coverage(stored, day(2024, 3, 1), day(2024, 3, 8));
    assert_eq!(coverage_event(c), Event::NotCovered);
    s.upsert("AMXB", day(2024, 2, 1), 1);
    s.upsert("AMXB", day(2024, 3, 8), 1);
    let c = daliatrac::coverage::check_intraday_coverage(s.stored_range("AMXB"), day(2024, 3, 1), day(2024, 3, 8));
    assert_eq!(coverage_event(c), Event::Covered);
}

#[test]
fn step_transitions() {
    assert_eq!(reconcile_step(Phase::CheckCoverage, Event::Covered, 3), Some((Phase::Reread, Action::ReadStore)));
    assert_eq!(reconcile_step(Phase::CheckCoverage, Event::NotCovered, 3), Some((Phase::Backfill { attempt: 0 }, Action::Fetch { attempt: 0 })));
    assert_eq!(reconcile_step(Phase::Backfill { attempt: 0 }, Event::Fetched { rows: 0 }, 3), Some((Phase::Backfill { attempt: 1 }, Action::Fetch { attempt: 1 })));
    assert_eq!(reconcile_step(Phase::Backfill { attempt: 1 }, Event::Fetched { rows: 4 }, 3), Some((Phase::Reread, Action::ReadStore)));
    assert_eq!(reconcile_step(Phase::Backfill { attempt: 2 }, Event::FetchFailed, 3), Some((Phase::Reread, Action::ReadStore)));
    assert_eq!(reconcile_step(Phase::Reread, Event::Read, 3), Some((Phase::Done, Action::Respond)));
    assert_eq!(reconcile_step(Phase::Done, Event::Read, 3), None);
    assert_eq!(reconcile_step(Phase::CheckCoverage, Event::Read, 3), None);
    assert_eq!(existence_event(true), Event::Covered);
    assert_eq!(backfill_event(true, 5), Event::FetchFailed);
    assert_eq!(backfill_event(false, 5), Event::Fetched { rows: 5 });
}

#[test]
fn error_bodies_for_every_spelling_give_an_empty_series() {
    let store = PriceStore::new();
    let variants = ticker_variants("AMXB");
    let (start, end) = (day(2024, 1, 2), day(2024, 3, 1));
    let mut phase = Phase::CheckCoverage;
    let mut event = coverage_event(daliatrac::coverage::check_intraday_coverage(store.stored_range("AMXB"), start, end));
    let mut fetches = 0;
    let mut result: Option<Vec<DailyClose>> = None;
    loop {
        let (next, action) = reconcile_step(phase, event, variants.len()).unwrap();
        phase = next;
        match action {
            Action::Fetch { attempt } => {
                assert!(attempt < variants.len());
                fetches += 1;
                let body = "{\"message\": \"Internal Server Error\"}";
                event = backfill_event(is_error_body(body), 0);
            }
            Action::ReadStore => {
                result = Some(store.select_range("AMXB", start, end));
                event = Event::Read;
            }
            Action::Respond => break,
        }
    }
    assert_eq!(fetches, 3);
    assert_eq!(result, Some(vec![]));
}

#[test]
fn first_spelling_with_data_ends_the_backfill() {
    let mut store = PriceStore::new();
    let variants = ticker_variants("WALMEX");
    let (start, end) = (day(2024, 2, 1), day(2024, 3, 1));
    let mut phase = Phase::CheckCoverage;
    let mut event = Event::NotCovered;
    let mut tried = Vec::new();
    let mut result = Vec::new();
    loop {
        let (next, action) = reconcile_step(phase, event, variants.len()).unwrap();
        phase = next;
        match action {
            Action::Fetch { attempt } => {
                tried.push(variants[attempt].clone());
                let readings = if attempt == 1 {
                    vec![ProviderReading { timestamp: "2024-02-29 14:00:00".to_string(), price: Some(60_000_000) }]
                } else {
                    vec![]
                };
                let closes = daily_series_from_provider(&readings);
                for c in &closes {
                    store.upsert("WALMEX", c.date, c.close);
                }
                event = backfill_event(false, closes.len());
            }
            Action::ReadStore => {
                result = store.select_range("WALMEX", start, end);
                event = Event::Read;
            }
            Action::Respond => break,
        }
    }
    assert_eq!(tried, vec!["WALMEX".to_string(), "WALMEX*".to_string()]);
    assert_eq!(result, vec![DailyClose { date: day(2024, 2, 29), close: 60_000_000 }]);
}

#[test]
fn absent_statement_backfills_once_then_reads() {
    let mut store = StatementStore::new();
    let mut phase = Phase::CheckCoverage;
    let mut event = existence_event(store.contains_statement("AMX", "1T_2025", StatementKind::Position));
    let mut backfills = 0;
    let mut reads = 0;
    let mut served = Vec::new();
    loop {
        let (next, action) = reconcile_step(phase, event, 1).unwrap();
        phase = next;
        match action {
            Action::Fetch { .. } => {
                backfills += 1;
                let buckets = vec![PeriodBucket {
                    label: "1T_2025_2025-03-31".to_string(),
                    items: vec![ProviderItem { name: "currentassets".to_string(), value: Some(500) }],
                }];
                let rec = build_statement_record(StatementKind::Position, "AMX", "1T_2025", &buckets).unwrap();
                store.upsert_statement(rec);
                event = backfill_event(false, 1);
            }
            Action::ReadStore => {
                reads += 1;
                served = store.read_statement("AMX", "1T_2025", StatementKind::Position);
                event = Event::Read;
            }
            Action::Respond => break,
        }
    }
    assert_eq!(backfills, 1);
    assert_eq!(reads, 1);
    assert_eq!(served.len(), 24);
    assert_eq!(served[0].name, "currentassets");
    assert_eq!(served[0].value, 500);
    assert_eq!(served[1].value, 0);
    assert!(store.contains_statement("AMX", "1T_2025", StatementKind::Position));
    assert!(store.read_statement("AMX", "1T_2025", StatementKind::CashFlow).is_empty());
}

#[test]
fn statement_upsert_replaces() {
    let mut store = StatementStore::new();
    let mk = |v: i64| {
        let b = vec![PeriodBucket { label: "x_2025-03-31".to_string(), items: vec![ProviderItem { name: "revenue".to_string(), value: Some(v) }] }];
        build_statement_record(StatementKind::QuarterlyIncome, "AMX", "1T_2025", &b).unwrap()
    };
    store.upsert_statement(mk(1));
    store.upsert_statement(mk(2));
    assert_eq!(store.records.len(), 1);
    assert_eq!(store.read_statement("AMX", "1T_2025", StatementKind::QuarterlyIncome)[0].value, 2);
}

#[test]
fn intraday_window_ends_on_as_of_day() {
    // Tuesday 2024-03-05, before the 20:30 cutover: the window ends Monday.
    let (start, end) = intraday_window(day(2024, 3, 5), 10 * 3600, 2, INTRADAY_CUTOVER).unwrap();
    assert_eq!(end, day(2024, 3, 4));
    assert_eq!(start, day(2024, 1, 4));
    // Sunday after the quote cutover: Friday.
    let (_, end) = intraday_window(day(2024, 3, 3), 16 * 3600, 1, QUOTE_CUTOVER).unwrap();
    assert_eq!(end, day(2024, 3, 1));
    assert!(intraday_window(day(1, 3, 5), 16 * 3600, 2, QUOTE_CUTOVER).is_ok());
    assert!(matches!(intraday_window(day(1, 3, 5), 16 * 3600, 3, QUOTE_CUTOVER), Err(SyncError::ValidationError)));
}

fn quote(t: &str, p: Option<i64>, c: Option<i64>) -> QuoteResult {
    QuoteResult { ticker: t.to_string(), quote: Some((p, c)) }
}

#[test]
fn heatmap_is_sorted_by_change_and_skips_failures() {
    let qs = vec![
        quote("AMXB", Some(17), Some(-1_500_000)),
        QuoteResult { ticker: "FAIL".to_string(), quote: None },
        quote("WALMEX*", Some(60), Some(2_000_000)),
        quote("GFNORTEO", None, None),
        quote("BIMBOA", Some(40), Some(2_000_000)),
    ];
    let h = build_heatmap(&qs);
    let names: Vec<&str> = h.iter().map(|a| a.ticker.as_str()).collect();
    assert_eq!(names, vec!["WALMEX*", "BIMBOA", "GFNORTEO", "AMXB"]);
    assert_eq!(h[2].price, 0);
    assert_eq!(h[2].change, 0);
}

#[test]
fn cache_serves_same_snapshot_within_ttl() {
    let mut cache = HeatmapCache::new(HEATMAP_TTL_SECS);
    assert!(cache.lookup(1000).is_none());
    let tiles = vec![HeatAsset { ticker: "AMXB".to_string(), price: 17, change: 3 }];
    let stored = cache.store(tiles, 1000);
    let a = cache.lookup(1000).unwrap();
    let b = cache.lookup(1000 + HEATMAP_TTL_SECS - 1).unwrap();
    assert_eq!(a.len(), 1);
    assert_eq!(a[0].ticker, stored[0].ticker);
    assert_eq!((a[0].price, a[0].change), (b[0].price, b[0].change));
    assert_eq!(a[0].ticker, b[0].ticker);
    assert!(cache.lookup(1000 + HEATMAP_TTL_SECS).is_none());
    assert!(cache.lookup(500).is_some());
}

#[test]
fn undated_cash_flow_is_persisted_and_read_back() {
    let mut store = StatementStore::new();
    let period = daliatrac::statement::DEFAULT_PERIOD;
    assert_eq!(period, "1T_2025");
    assert!(!store.contains_statement("AMX", period, StatementKind::CashFlow));
    let buckets = vec![PeriodBucket {
        label: "acumulado".to_string(),
        items: vec![ProviderItem { name: "profitloss".to_string(), value: Some(7) }],
    }];
    let rec = build_statement_record(StatementKind::CashFlow, "AMX", period, &buckets).unwrap();
    assert_eq!(rec.effective_date, None);
    store.upsert_statement(rec);
    let served = store.read_statement("AMX", period, StatementKind::CashFlow);
    assert_eq!(served.len(), 23);
    assert_eq!(served[1].name, "utilidad_neta");
    assert_eq!(served[1].value, 7);
    assert_eq!(served[0].value, 0);
}
