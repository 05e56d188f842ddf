use rated::candles::{bucket_start_secs, build_candles, get_candles};
use rated::extremes::scan_extremes;
use rated::feed::{next_reconnect, ConnectionStatus, FeedState};
use rated::instant::Timestamp;
use rated::models::{CibRateRecord, ParsedRate, RateRecord, RateSample, ServerEvent, RATE_KEY_MAX_FINITE};

fn sample(rate: ParsedRate, secs: i64) -> RateSample {
    RateSample { rate, timestamp: Timestamp { secs, nanos: 0 } }
}

fn record(rate: &str, secs: i64) -> RateRecord {
    RateRecord { rate: rate.to_string(), timestamp: Timestamp { secs, nanos: 0 } }
}

#[test]
fn candles_group_by_interval() {
    let samples = vec![
        sample(ParsedRate::Value(5), 14_400),
        sample(ParsedRate::Value(9), 15_000),
        sample(ParsedRate::Invalid, 15_500),
        sample(ParsedRate::Value(2), 16_000),
        sample(ParsedRate::Value(4), 28_800),
    ];
    let candles = build_candles(&samples, 4);
    assert_eq!(candles.len(), 2);
    let first = candles[0];
    assert_eq!(first.open, ParsedRate::Value(5));
    assert_eq!(first.high, ParsedRate::Value(9));
    assert_eq!(first.low, ParsedRate::Value(2));
    assert_eq!(first.close, ParsedRate::Value(2));
    assert_eq!(first.start_timestamp, Timestamp { secs: 14_400, nanos: 0 });
    assert_eq!(first.end_timestamp, Timestamp { secs: 28_800, nanos: 0 });
    assert_eq!(candles[1].open, ParsedRate::Value(4));
    assert_eq!(candles[1].start_timestamp.secs, 28_800);
}

#[test]
fn candles_interval_at_least_one_hour() {
    let samples = vec![sample(ParsedRate::Value(1), 100), sample(ParsedRate::Value(2), 3_700)];
    let candles = build_candles(&samples, 0);
    assert_eq!(candles.len(), 2);
    assert_eq!(candles[0].start_timestamp.secs, 0);
    assert_eq!(candles[0].end_timestamp.secs, 3_600);
    assert_eq!(candles[1].start_timestamp.secs, 3_600);
}

#[test]
fn candles_before_epoch_round_toward_zero() {
    let samples = vec![sample(ParsedRate::Value(1), -100)];
    let candles = build_candles(&samples, 1);
    assert_eq!(candles[0].start_timestamp.secs, 0);
    assert_eq!(candles[0].end_timestamp.secs, 3_600);
}

#[test]
fn candles_nan_open_stays_high() {
    let samples = vec![sample(ParsedRate::NotANumber, 0), sample(ParsedRate::Value(3), 10)];
    let candles = build_candles(&samples, 1);
    assert_eq!(candles[0].high, ParsedRate::NotANumber);
    assert_eq!(candles[0].close, ParsedRate::Value(3));
}

#[test]
fn get_candles_sorts_first() {
    let samples = vec![
        sample(ParsedRate::Value(3), 7_300),
        sample(ParsedRate::Value(8), 3_700),
        sample(ParsedRate::Value(6), 3_650),
    ];
    let candles = get_candles(samples, 1);
    assert_eq!(candles.len(), 2);
    assert_eq!(candles[0].open, ParsedRate::Value(6));
    assert_eq!(candles[0].close, ParsedRate::Value(8));
    assert_eq!(candles[1].open, ParsedRate::Value(3));
}

#[test]
fn scan_extremes_first_occurrence() {
    let rates = vec![ParsedRate::Value(4), ParsedRate::Value(7), ParsedRate::Value(7), ParsedRate::Value(1)];
    let scan = scan_extremes(&rates);
    assert_eq!((scan.high, scan.high_index), (7, Some(1)));
    assert_eq!((scan.low, scan.low_index), (1, Some(3)));
    let none = scan_extremes(&vec![ParsedRate::Value(RATE_KEY_MAX_FINITE)]);
    assert_eq!(none.low_index, None);
    assert_eq!(none.high_index, Some(0));
}

#[test]
fn feed_applies_events() {
    let mut feed = FeedState::new(vec![record("1", 1)], Vec::new());
    feed.apply(ServerEvent::RateUpdate(record("2", 2)));
    assert_eq!(feed.current().unwrap().rate, "2");
    feed.apply(ServerEvent::History(vec![record("9", 9), record("8", 8)]));
    assert_eq!(feed.records.len(), 2);
    assert_eq!(feed.current().unwrap().rate, "8");
    let cib = CibRateRecord { rate: "470".to_string(), timestamp: Timestamp { secs: 3, nanos: 0 } };
    feed.apply(ServerEvent::CibRateUpdate(cib.clone()));
    assert_eq!(feed.cib_history.len(), 1);
    assert_eq!(feed.cib_latest.as_ref().unwrap().rate, "470");
    feed.apply(ServerEvent::CibHistory(Vec::new()));
    assert!(feed.cib_history.is_empty());
    assert_eq!(feed.cib_latest.unwrap().rate, "470");
}

#[test]
fn feed_extremes_pick_records() {
    let feed = FeedState::new(vec![record("a", 1), record("b", 2), record("c", 3)], Vec::new());
    let (high, low) = feed.extremes(&vec![ParsedRate::Value(5), ParsedRate::Value(9), ParsedRate::Value(2)]);
    assert_eq!(high.unwrap().rate, "b");
    assert_eq!(low.unwrap().rate, "c");
    let empty = FeedState::new(Vec::new(), Vec::new());
    let (high, low) = empty.extremes(&Vec::new());
    assert!(high.is_none() && low.is_none());
    let negative = FeedState::new(vec![record("x", 1), record("y", 2)], Vec::new());
    let (high, low) = negative.extremes(&vec![ParsedRate::Value(-3), ParsedRate::Value(-4)]);
    assert_eq!(high.unwrap().rate, "x");
    assert_eq!(low.unwrap().rate, "y");
}

#[test]
fn connection_badges() {
    assert_eq!(ConnectionStatus::Connecting.badge_class(), "badge badge-warning");
    assert_eq!(ConnectionStatus::Connected.badge_class(), "badge badge-success");
    assert_eq!(ConnectionStatus::Closed.badge_class(), "badge badge-info");
    assert_eq!(ConnectionStatus::Error.badge_class(), "badge badge-error");
    assert_eq!(ConnectionStatus::Connecting.text(), "Connecting");
    assert_eq!(ConnectionStatus::Connected.text(), "Live");
    assert_eq!(ConnectionStatus::Closed.text(), "Closed");
    assert_eq!(ConnectionStatus::Error.text(), "Error");
}

#[test]
fn reconnect_backoff() {
    assert_eq!(next_reconnect(0), Some((1, 500)));
    assert_eq!(next_reconnect(1), Some((2, 1_000)));
    assert_eq!(next_reconnect(3), Some((4, 4_000)));
    assert_eq!(next_reconnect(5), Some((6, 16_000)));
    assert_eq!(next_reconnect(6), Some((7, 30_000)));
    assert_eq!(next_reconnect(7), Some((8, 30_000)));
    assert_eq!(next_reconnect(8), Some((9, 30_000)));
    assert_eq!(next_reconnect(9), None);
}

#[test]
fn bucket_starts_round_toward_zero() {
    assert_eq!(bucket_start_secs(7_300, 3_600), 7_200);
    assert_eq!(bucket_start_secs(7_200, 3_600), 7_200);
    assert_eq!(bucket_start_secs(-100, 3_600), 0);
    assert_eq!(bucket_start_secs(-3_700, 3_600), -3_600);
}

#[test]
fn short_intervals_give_hourly_candles() {
    let samples = vec![
        sample(ParsedRate::Value(7), 7_300),
        sample(ParsedRate::Value(3), 100),
        sample(ParsedRate::Value(5), 3_700),
        sample(ParsedRate::Value(6), 200),
    ];
    let hourly = get_candles(samples.clone(), 1);
    assert_eq!(get_candles(samples.clone(), 0), hourly);
    assert_eq!(get_candles(samples, -5), hourly);
    assert_eq!(hourly.len(), 3);
    assert_eq!(hourly[0].open, ParsedRate::Value(3));
    assert_eq!(hourly[0].close, ParsedRate::Value(6));
}

#[test]
fn coarse_candles_merge_fine_candles() {
    let samples = vec![
        sample(ParsedRate::Value(10), 0),
        sample(ParsedRate::Value(14), 1_000),
        sample(ParsedRate::Value(8), 3_600),
        sample(ParsedRate::Value(12), 5_000),
        sample(ParsedRate::Value(20), 7_200),
        sample(ParsedRate::Value(1), 18_000),
    ];
    let fine = get_candles(samples.clone(), 1);
    assert_eq!(fine.len(), 4);
    let coarse = get_candles(samples, 2);
    assert_eq!(coarse.len(), 3);
    // The first two hourly candles make the first two-hour candle.
    assert_eq!(coarse[0].open, fine[0].open);
    assert_eq!(coarse[0].close, fine[1].close);
    assert_eq!(coarse[0].high, ParsedRate::Value(14));
    assert_eq!(coarse[0].low, ParsedRate::Value(8));
    assert_eq!(coarse[0].start_timestamp.secs, 0);
    assert_eq!(coarse[0].end_timestamp.secs, 7_200);
    assert_eq!((coarse[1].open, coarse[1].close), (fine[2].open, fine[2].close));
    assert_eq!(coarse[1].start_timestamp.secs, 7_200);
    assert_eq!((coarse[2].open, coarse[2].start_timestamp.secs), (ParsedRate::Value(1), 14_400));
}

#[test]
fn merge_needs_numbers() {
    // A rate that is not a number opens the second hourly candle; the two-hour
    // candle still sees the rate after it.
    let samples = vec![
        sample(ParsedRate::Value(10), 0),
        sample(ParsedRate::NotANumber, 3_600),
        sample(ParsedRate::Value(20), 3_700),
    ];
    let fine = get_candles(samples.clone(), 1);
    assert_eq!(fine[1].high, ParsedRate::NotANumber);
    let coarse = get_candles(samples, 2);
    assert_eq!(coarse.len(), 1);
    assert_eq!(coarse[0].high, ParsedRate::Value(20));
}

#[test]
fn candles_hold_their_interval_rates() {
    // Out of order on arrival; each candle is the first, highest, lowest and last
    // rate of its hour once sorted by instant.
    let samples = vec![
        sample(ParsedRate::Value(30), 4_000),
        sample(ParsedRate::Value(25), 100),
        sample(ParsedRate::Invalid, 150),
        sample(ParsedRate::Value(21), 3_500),
        sample(ParsedRate::Value(40), 2_000),
        sample(ParsedRate::Value(35), 3_700),
    ];
    let candles = get_candles(samples, 1);
    assert_eq!(candles.len(), 2);
    assert_eq!(
        (candles[0].open, candles[0].high, candles[0].low, candles[0].close),
        (ParsedRate::Value(25), ParsedRate::Value(40), ParsedRate::Value(21), ParsedRate::Value(21))
    );
    assert_eq!(
        (candles[1].open, candles[1].high, candles[1].low, candles[1].close),
        (ParsedRate::Value(35), ParsedRate::Value(35), ParsedRate::Value(30), ParsedRate::Value(30))
    );
}
