use rated::history::AppState;
use rated::instant::Timestamp;
use rated::models::{ExtremeValues, Extreme, ParsedRate, RateRecord, RateSample, RATE_KEY_ZERO};

fn ts(secs: i64) -> Timestamp {
    Timestamp { secs, nanos: 0 }
}

fn record(rate: &str, secs: i64) -> RateRecord {
    RateRecord { rate: rate.to_string(), timestamp: ts(secs) }
}

#[test]
fn add_rate_skips_repeated_instant() {
    let mut state = AppState::new();
    assert!(state.add_rate(&record("480.10", 100)));
    assert!(!state.add_rate(&record("480.20", 100)));
    assert!(state.add_rate(&record("480.30", 101)));
    assert_eq!(state.rate_history.len(), 2);
    assert_eq!(state.rate_history[0].rate, "480.10");
    assert_eq!(state.rate_history[1].rate, "480.30");
}

#[test]
fn latest_rate_is_last_added() {
    let mut state = AppState::new();
    assert!(state.get_latest_rate().is_none());
    state.add_rate(&record("480.10", 100));
    state.add_rate(&record("481.00", 200));
    let latest = state.get_latest_rate().unwrap();
    assert_eq!(latest.rate, "481.00");
    assert_eq!(latest.timestamp, ts(200));
}

#[test]
fn history_is_newest_first() {
    let mut state = AppState::new();
    state.add_rate(&record("1", 1));
    state.add_rate(&record("2", 2));
    state.add_rate(&record("3", 3));
    let rates: Vec<String> = state.get_history().into_iter().map(|r| r.rate).collect();
    assert_eq!(rates, vec!["3", "2", "1"]);
}

#[test]
fn load_from_db_round_trips_history() {
    let mut state = AppState::new();
    let rows = vec![record("3", 3), record("2", 2), record("1", 1)];
    state.load_from_db(rows);
    assert_eq!(state.rate_history[0].rate, "1");
    assert_eq!(state.get_latest_rate().unwrap().rate, "3");
    let back: Vec<String> = state.get_history().into_iter().map(|r| r.rate).collect();
    assert_eq!(back, vec!["3", "2", "1"]);
}

#[test]
fn clean_at_keeps_only_last_five_days() {
    let mut state = AppState::new();
    let now = 1_000_000;
    state.add_rate(&record("old", now - 432_001));
    state.add_rate(&record("edge", now - 432_000));
    state.add_rate(&record("fresh", now - 431_999));
    state.add_rate(&record("now", now));
    state.clean_at(ts(now));
    let kept: Vec<String> = state.rate_history.iter().map(|r| r.rate.clone()).collect();
    assert_eq!(kept, vec!["fresh", "now"]);
    state.clean_at(ts(now));
    assert_eq!(state.rate_history.len(), 2);
}

#[test]
fn clean_uses_clock() {
    let mut state = AppState::new();
    state.add_rate(&record("ancient", 0));
    state.add_rate(&record("future", 8_000_000_000_000));
    state.clean();
    assert_eq!(state.rate_history.len(), 1);
    assert_eq!(state.rate_history[0].rate, "future");
}

#[test]
fn records_equal_by_instant() {
    assert!(record("1", 5) == record("2", 5));
    assert!(record("1", 5) != record("1", 6));
}

#[test]
fn extremes_from_rows_find_first_high_and_low() {
    let mut state = AppState::new();
    let cutoff = ts(10);
    let rows = vec![
        RateSample { rate: ParsedRate::Value(50), timestamp: ts(11) },
        RateSample { rate: ParsedRate::Invalid, timestamp: ts(12) },
        RateSample { rate: ParsedRate::Value(70), timestamp: ts(13) },
        RateSample { rate: ParsedRate::Value(30), timestamp: ts(14) },
        RateSample { rate: ParsedRate::Value(70), timestamp: ts(15) },
        RateSample { rate: ParsedRate::NotANumber, timestamp: ts(16) },
        RateSample { rate: ParsedRate::Value(30), timestamp: ts(17) },
    ];
    let found = state.extremes_from_rows(cutoff, &rows).unwrap();
    assert_eq!(found.high_rate, 70);
    assert_eq!(found.high_timestamp, ts(13));
    assert_eq!(found.low_rate, 30);
    assert_eq!(found.low_timestamp, ts(14));
    assert_eq!(state.extreme_values, Some(found));
}

#[test]
fn extremes_high_defaults_to_zero_at_cutoff() {
    let mut state = AppState::new();
    let cutoff = ts(10);
    let rows = vec![
        RateSample { rate: ParsedRate::Value(-5), timestamp: ts(11) },
        RateSample { rate: ParsedRate::Value(-9), timestamp: ts(12) },
    ];
    let found = state.extremes_from_rows(cutoff, &rows).unwrap();
    assert_eq!(found.high_rate, RATE_KEY_ZERO);
    assert_eq!(found.high_timestamp, cutoff);
    assert_eq!(found.low_rate, -9);
}

#[test]
fn extremes_none_without_rows_or_numbers() {
    let mut state = AppState::new();
    assert!(state.extremes_from_rows(ts(0), &Vec::new()).is_none());
    let rows = vec![RateSample { rate: ParsedRate::Invalid, timestamp: ts(1) }];
    assert!(state.extremes_from_rows(ts(0), &rows).is_none());
    assert!(state.extreme_values.is_none());
}

#[test]
fn fresh_extremes_respect_window() {
    let mut state = AppState::new();
    let e = ExtremeValues { high_rate: 9, low_rate: 1, high_timestamp: ts(100), low_timestamp: ts(50) };
    state.extreme_values = Some(e);
    assert_eq!(state.fresh_extremes(ts(50)), Some(e));
    assert_eq!(state.fresh_extremes(ts(51)), None);
}

#[test]
fn check_extremes_reports_and_caches_new_low() {
    let mut state = AppState::new();
    let e = ExtremeValues { high_rate: 90, low_rate: 10, high_timestamp: ts(1), low_timestamp: ts(2) };
    let news = state.check_extremes(ParsedRate::Value(5), ts(3), e);
    assert_eq!(news, Some(Extreme::Low(10, ts(2))));
    let cached = state.extreme_values.unwrap();
    assert_eq!(cached.low_rate, 5);
    assert_eq!(cached.low_timestamp, ts(3));
    assert_eq!(cached.high_rate, 90);
}

#[test]
fn check_extremes_reports_new_high_and_ignores_inside() {
    let mut state = AppState::new();
    let e = ExtremeValues { high_rate: 90, low_rate: 10, high_timestamp: ts(1), low_timestamp: ts(2) };
    assert_eq!(state.check_extremes(ParsedRate::Value(50), ts(3), e), None);
    assert!(state.extreme_values.is_none());
    assert_eq!(state.check_extremes(ParsedRate::NotANumber, ts(3), e), None);
    assert_eq!(state.check_extremes(ParsedRate::Value(91), ts(4), e), Some(Extreme::High(90, ts(1))));
    assert_eq!(state.extreme_values.unwrap().high_rate, 91);
    assert_eq!(state.extreme_values.unwrap().high_timestamp, ts(4));
    assert_eq!(state.extreme_values.unwrap().low_timestamp, ts(2));
}
