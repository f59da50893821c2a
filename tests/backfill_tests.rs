use daliatrac::backfill::{collapse_daily, construir_url_intradia, daily_series_from_provider, is_error_body, sample_from_parsed, DailyClose, PriceSample, ProviderReading};
use daliatrac::calendar::Date;
use daliatrac::coverage::{check_intraday_coverage, validate_range, Coverage, StoredRange};
use daliatrac::error::SyncError;

fn day(y: i32, m: u32, d: u32) -> Date {
    Date::from_ymd(y, m, d).unwrap()
}

#[test]
fn inner_request_is_satisfied_unchanged() {
    let stored = StoredRange { first: day(2024, 1, 1), last: day(2024, 6, 1) };
    let c = check_intraday_coverage(Some(stored), day(2024, 3, 1), day(2024, 4, 1));
    assert_eq!(c, Coverage::Satisfied { start: day(2024, 3, 1), end: day(2024, 4, 1) });
}

#[test]
fn nothing_stored_is_absent() {
    assert_eq!(check_intraday_coverage(None, day(2024, 3, 1), day(2024, 4, 1)), Coverage::Absent);
    assert_eq!(check_intraday_coverage(None, day(2024, 4, 1), day(2024, 3, 1)), Coverage::Absent);
}

#[test]
fn early_start_is_partial_and_clipped() {
    let stored = StoredRange { first: day(2024, 2, 1), last: day(2024, 6, 1) };
    let c = check_intraday_coverage(Some(stored), day(2024, 1, 1), day(2024, 4, 1));
    assert_eq!(c, Coverage::Partial { start: day(2024, 2, 1), end: day(2024, 4, 1) });
}

#[test]
fn stale_end_beyond_two_days_is_partial() {
    let stored = StoredRange { first: day(2024, 1, 1), last: day(2024, 6, 1) };
    let c = check_intraday_coverage(Some(stored), day(2024, 3, 1), day(2024, 6, 4));
    assert_eq!(c, Coverage::Partial { start: day(2024, 3, 1), end: day(2024, 6, 1) });
    let c = check_intraday_coverage(Some(stored), day(2024, 3, 1), day(2024, 6, 3));
    assert_eq!(c, Coverage::Satisfied { start: day(2024, 3, 1), end: day(2024, 6, 3) });
}

#[test]
fn reversed_range_is_a_validation_error() {
    assert!(matches!(validate_range(day(2024, 4, 1), day(2024, 3, 1)), Err(SyncError::ValidationError)));
    assert!(validate_range(day(2024, 3, 1), day(2024, 3, 1)).is_ok());
}

#[test]
fn intraday_url_joins_tickers() {
    let url = construir_url_intradia(&["AMXB", "WALMEX*"], "2024-01-02", "2024-03-01", "KEY").unwrap();
    assert_eq!(
        url,
        "https://api.databursatil.com/v2/intradia?token=KEY&emisora_serie=AMXB,WALMEX*&bolsa=BMV&intervalo=1h&inicio=2024-01-02&final=2024-03-01"
    );
    let one = construir_url_intradia(&["AMXB"], "a", "b", "k").unwrap();
    assert_eq!(one, "https://api.databursatil.com/v2/intradia?token=k&emisora_serie=AMXB&bolsa=BMV&intervalo=1h&inicio=a&final=b");
}

#[test]
fn empty_ticker_list_is_rejected() {
    assert!(matches!(construir_url_intradia(&[], "a", "b", "k"), Err(SyncError::ValidationError)));
}

#[test]
fn error_shaped_bodies_are_recognised() {
    assert!(is_error_body("500 Internal Server Error"));
    assert!(is_error_body("{\"message\": \"no data\"}"));
    assert!(!is_error_body("{\"AMXB\": {\"2024-03-01 10:00:00\": 17.5}}"));
    assert!(!is_error_body(""));
}

fn sample(d: Date, p: Option<i64>) -> PriceSample {
    PriceSample { date: d, price: p }
}

#[test]
fn last_reading_of_a_day_wins() {
    let a = day(2024, 3, 1);
    let b = day(2024, 3, 4);
    let samples = vec![
        sample(b, Some(20_000_000)),
        sample(a, Some(10_000_000)),
        sample(b, Some(21_000_000)),
        sample(a, Some(9_000_000)),
        sample(b, Some(19_500_000)),
    ];
    assert_eq!(
        collapse_daily(&samples),
        vec![DailyClose { date: a, close: 9_000_000 }, DailyClose { date: b, close: 19_500_000 }]
    );
}

#[test]
fn invalid_prices_are_dropped_before_overwriting() {
    let a = day(2024, 3, 1);
    let b = day(2024, 3, 5);
    let samples = vec![
        sample(a, Some(10_000_000)),
        sample(a, Some(0)),
        sample(a, None),
        sample(a, Some(-5)),
        sample(b, None),
    ];
    assert_eq!(collapse_daily(&samples), vec![DailyClose { date: a, close: 10_000_000 }]);
    assert_eq!(collapse_daily(&[]), vec![]);
}

#[test]
fn provider_readings_fold_per_day() {
    let r = |t: &str, p: Option<i64>| ProviderReading { timestamp: t.to_string(), price: p };
    let readings = vec![
        r("2024-03-01 10:00:00", Some(17_000_000)),
        r("2024-03-01 15:00:00", Some(17_500_000)),
        r("garbage", Some(99_000_000)),
        r("2024-02-29 11:00:00", Some(16_000_000)),
    ];
    assert_eq!(
        daily_series_from_provider(&readings),
        vec![
            DailyClose { date: day(2024, 2, 29), close: 16_000_000 },
            DailyClose { date: day(2024, 3, 1), close: 17_500_000 },
        ]
    );
}

#[test]
fn parsed_day_out_of_range_gives_no_sample() {
    assert_eq!(sample_from_parsed(Some(0), Some(1)), None);
    assert_eq!(sample_from_parsed(None, Some(1)), None);
    assert_eq!(sample_from_parsed(Some(5), Some(1)), Some(PriceSample { date: Date { days: 5 }, price: Some(1) }));
}
