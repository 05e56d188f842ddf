use rated::instant::{retention_cutoff, Timestamp};
use rated::models::{CacheInfo, NtfyConfig, CibQuote};
use rated::scraper::{if_modified_since, is_not_modified, sell_rate_from_page, sell_rate_from_page_at, StampSource};
use rated::storage::{after_failed_persist, PersistStep, PERSIST_RETRIES};

const PAGE: &str = "<tr><td class=\"mc\">\n  澳大利亚元 </td>\n<td class=\"x\">480.10</td>\n<td> 482.35\n</td></tr>";

#[test]
fn page_rate_uses_last_modified() {
    let mut cache = None;
    let now = Timestamp { secs: 5, nanos: 0 };
    let found = sell_rate_from_page_at(PAGE, Some("Tue, 01 Jul 2025 08:00:00 GMT".to_string()), &mut cache, now).unwrap();
    assert_eq!(found.record.rate, "482.35");
    assert_eq!(found.record.timestamp, Timestamp { secs: 1_751_356_800, nanos: 0 });
    assert_eq!(found.source, StampSource::LastModified);
    assert_eq!(cache.unwrap().last_modified, "Tue, 01 Jul 2025 08:00:00 GMT");
}

#[test]
fn page_rate_with_offset_is_converted_to_utc() {
    let mut cache = None;
    let now = Timestamp { secs: 5, nanos: 0 };
    let found = sell_rate_from_page_at(PAGE, Some("Tue, 01 Jul 2025 16:00:00 +0800".to_string()), &mut cache, now).unwrap();
    assert_eq!(found.record.timestamp, Timestamp { secs: 1_751_356_800, nanos: 0 });
}

#[test]
fn page_rate_falls_back_to_now() {
    let mut cache = Some(CacheInfo { last_modified: "old".to_string() });
    let now = Timestamp { secs: 77, nanos: 3 };
    let found = sell_rate_from_page_at(PAGE, Some("yesterday".to_string()), &mut cache, now).unwrap();
    assert_eq!(found.record.timestamp, now);
    assert_eq!(found.source, StampSource::UnparsableLastModified);
    assert_eq!(cache.as_ref().unwrap().last_modified, "yesterday");

    let found = sell_rate_from_page_at(PAGE, None, &mut cache, now).unwrap();
    assert_eq!(found.record.timestamp, now);
    assert_eq!(found.source, StampSource::MissingLastModified);
    assert_eq!(cache.unwrap().last_modified, "yesterday");
}

#[test]
fn page_without_aud_row_gives_nothing() {
    let mut cache = Some(CacheInfo { last_modified: "keep".to_string() });
    let now = Timestamp { secs: 5, nanos: 0 };
    let page = "<td class=\"mc\">美元</td><td>700</td><td>710</td>";
    assert!(sell_rate_from_page_at(page, Some("Tue, 01 Jul 2025 08:00:00 GMT".to_string()), &mut cache, now).is_none());
    assert_eq!(cache.unwrap().last_modified, "keep");
}

#[test]
fn page_rate_from_clock_is_recent() {
    let mut cache = None;
    let found = sell_rate_from_page(PAGE, None, &mut cache).unwrap();
    assert!(found.record.timestamp.secs > 1_700_000_000);
    assert!(cache.is_none());
}

#[test]
fn conditional_request_follows_cache() {
    assert_eq!(if_modified_since(&None), None);
    let cache = Some(CacheInfo { last_modified: "Tue, 01 Jul 2025 08:00:00 GMT".to_string() });
    assert_eq!(if_modified_since(&cache), Some("Tue, 01 Jul 2025 08:00:00 GMT".to_string()));
    assert!(is_not_modified(304));
    assert!(!is_not_modified(200));
}

#[test]
fn persist_retries_then_gives_up() {
    assert_eq!(PERSIST_RETRIES, 3);
    assert_eq!(after_failed_persist(0), PersistStep::RetryAfterDelay);
    assert_eq!(after_failed_persist(1), PersistStep::RetryAfterDelay);
    assert_eq!(after_failed_persist(2), PersistStep::GiveUp);
}

#[test]
fn retention_cutoff_is_five_days_earlier() {
    let now = Timestamp { secs: 1_000_000, nanos: 7 };
    assert_eq!(retention_cutoff(now), Timestamp { secs: 568_000, nanos: 7 });
}

#[test]
fn ntfy_config_needs_url() {
    assert!(NtfyConfig::from_values(None, Some("token".to_string())).is_none());
    let config = NtfyConfig::from_values(Some("https://ntfy.sh/x".to_string()), None).unwrap();
    assert_eq!(config.url, "https://ntfy.sh/x");
    assert!(config.auth.is_none());
}

#[test]
fn cib_quote_from_cells_in_documented_order() {
    let cells: Vec<String> = ["澳大利亚元", "AUD", "100", "470.1", "473.2", "455.0", "476.5"]
        .iter()
        .map(|s| s.to_string())
        .collect();
    let quote = CibQuote::from_cells(&cells).unwrap();
    assert_eq!(quote.currency_name, "澳大利亚元");
    assert_eq!(quote.currency_symbol, "AUD");
    assert_eq!(quote.unit, "100");
    assert_eq!(quote.spot_buy, "470.1");
    assert_eq!(quote.spot_sell, "473.2");
    assert_eq!(quote.cash_buy, "455.0");
    assert_eq!(quote.cash_sell, "476.5");
    assert!(CibQuote::from_cells(&cells[..6].to_vec()).is_none());
}

#[test]
fn retention_cutoff_inside_leap_second() {
    // 23:59:60.5 counts from the start of the next second.
    let now = Timestamp { secs: 1_483_228_799, nanos: 1_500_000_000 };
    assert_eq!(retention_cutoff(now), Timestamp { secs: 1_483_228_800 - 432_000, nanos: 500_000_000 });
}
