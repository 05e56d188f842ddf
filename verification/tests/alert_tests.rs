use rated::alerts::Ntfy;
use rated::instant::Timestamp;
use rated::models::{Extreme, NtfyConfig, RateRecord};

fn config() -> NtfyConfig {
    NtfyConfig { url: "https://ntfy.example/rates".to_string(), auth: Some("Bearer SECRET-REDACTED".to_string()) }
}

// 2024-01-02 10:00:00 in Beijing.
const TEN_AM: i64 = 1_704_160_800;

#[test]
fn test_ntfy() {
    let mut ntfy = Ntfy::new(config());
    let record = RateRecord { rate: "455.50".to_string(), timestamp: Timestamp { secs: TEN_AM, nanos: 0 } };
    let now = Timestamp { secs: TEN_AM + 10, nanos: 0 };
    let pre = Extreme::High(0, Timestamp { secs: TEN_AM - 3600, nanos: 0 });
    let message = ntfy.send_at(&record, pre, "454.1", now).unwrap();
    assert_eq!(message.url, "https://ntfy.example/rates");
    assert_eq!(message.auth.as_deref(), Some("Bearer SECRET-REDACTED"));
    assert_eq!(message.subject, "澳元汇率5日新高: 455.50");
    assert_eq!(
        message.body,
        "当前汇率: 455.50\n时间: 2024-01-02 10:00:00\n\n历史: 454.1 (2024-01-02 09:00:00)"
    );
    assert_eq!(ntfy.last_sent, Some(now));
}

#[test]
fn ntfy_low_subject() {
    let mut ntfy = Ntfy::new(config());
    let record = RateRecord { rate: "440.00".to_string(), timestamp: Timestamp { secs: TEN_AM, nanos: 0 } };
    let pre = Extreme::Low(0, Timestamp { secs: TEN_AM, nanos: 0 });
    let message = ntfy.send_at(&record, pre, "441", Timestamp { secs: TEN_AM, nanos: 0 }).unwrap();
    assert_eq!(message.subject, "澳元汇率5日新低: 440.00");
}

#[test]
fn ntfy_waits_twenty_minutes() {
    let mut ntfy = Ntfy::new(config());
    let record = RateRecord { rate: "455.50".to_string(), timestamp: Timestamp { secs: TEN_AM, nanos: 0 } };
    let pre = Extreme::High(0, Timestamp { secs: TEN_AM, nanos: 0 });
    let first = Timestamp { secs: TEN_AM, nanos: 500 };
    assert!(ntfy.send_at(&record, pre, "1", first).is_some());
    let early = Timestamp { secs: TEN_AM + 1200, nanos: 499 };
    assert!(ntfy.send_at(&record, pre, "1", early).is_none());
    assert_eq!(ntfy.last_sent, Some(first));
    let later = Timestamp { secs: TEN_AM + 1200, nanos: 500 };
    assert!(ntfy.send_at(&record, pre, "1", later).is_some());
    assert_eq!(ntfy.last_sent, Some(later));
}

#[test]
fn ntfy_quiet_outside_trading_hours() {
    let mut ntfy = Ntfy::new(config());
    let pre = Extreme::High(0, Timestamp { secs: TEN_AM, nanos: 0 });
    let now = Timestamp { secs: TEN_AM, nanos: 0 };
    // 09:29 and 23:00 Beijing time.
    let before_open = RateRecord { rate: "1".to_string(), timestamp: Timestamp { secs: TEN_AM - 31 * 60, nanos: 0 } };
    let at_close = RateRecord { rate: "1".to_string(), timestamp: Timestamp { secs: TEN_AM + 13 * 3600, nanos: 0 } };
    assert!(ntfy.send_at(&before_open, pre, "1", now).is_none());
    assert!(ntfy.send_at(&at_close, pre, "1", now).is_none());
    assert!(ntfy.last_sent.is_none());
    // 09:30 Beijing time.
    let open = RateRecord { rate: "1".to_string(), timestamp: Timestamp { secs: TEN_AM - 30 * 60, nanos: 0 } };
    assert!(ntfy.send_at(&open, pre, "1", now).is_some());
}

#[test]
fn ntfy_send_reads_clock() {
    let mut ntfy = Ntfy::new(config());
    let record = RateRecord { rate: "455.50".to_string(), timestamp: Timestamp { secs: TEN_AM, nanos: 0 } };
    let pre = Extreme::High(0, Timestamp { secs: TEN_AM, nanos: 0 });
    assert!(ntfy.send(&record, pre, "1").is_some());
    assert!(ntfy.last_sent.unwrap().secs > 1_700_000_000);
    assert!(ntfy.send(&record, pre, "1").is_none());
}
