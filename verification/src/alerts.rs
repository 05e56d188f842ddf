//! Deciding when a new five-day extreme is announced through ntfy, and what
//! the announcement says.

use vstd::prelude::*;
use crate::instant::{Timestamp, KeptReading, read_clock, shanghai_hour_minute, shanghai_datetime_text, shanghai_clock, format_shanghai};
use crate::models::{RateRecord, Extreme, NtfyConfig};

verus! {

/// The least time between two alerts: twenty minutes, in nanoseconds.
pub open spec fn min_alert_gap_nanos() -> int {
    1_200_000_000_000
}

/// Beijing trading hours, from 9:30 until 23:00.
pub open spec fn in_trading_hours(hour: u32, minute: u32) -> bool {
    (10 <= hour && hour < 23) || (hour == 9 && minute >= 30)
}

/// Whether the record was published during Beijing trading hours.
pub open spec fn published_in_trading_hours(t: Timestamp) -> bool {
    in_trading_hours(shanghai_hour_minute(t.secs, t.nanos).0, shanghai_hour_minute(t.secs, t.nanos).1)
}

/// Whether an alert may go out at `now`: none went out yet, or the last one is
/// at least twenty whole minutes old.
pub open spec fn alert_allowed(last_sent: Option<Timestamp>, now: Timestamp) -> bool {
    match last_sent {
        None => true,
        Some(last) => last.nanos_until(now) >= min_alert_gap_nanos(),
    }
}

/// The alert title: a new five-day low or high, and the current rate.
pub open spec fn alert_subject(rate: Seq<char>, dropping: bool) -> Seq<char> {
    "澳元汇率5日新"@ + (if dropping { "低"@ } else { "高"@ }) + ": "@ + rate
}

/// The alert text: the current rate and its Beijing time, then the extreme it
/// broke and that extreme's Beijing time.
pub open spec fn alert_body(rate: Seq<char>, at: Timestamp, previous: Seq<char>, previous_at: Timestamp) -> Seq<char> {
    "当前汇率: "@ + rate + "\n时间: "@ + shanghai_datetime_text(at.secs, at.nanos) + "\n\n历史: "@ + previous
        + " ("@ + shanghai_datetime_text(previous_at.secs, previous_at.nanos) + ")"@
}

/// Two alerts that both go out are at least twenty minutes apart: once an alert
/// went out at `first`, another may go out at `later` only twenty minutes on.
pub proof fn law_alerts_spaced(first: Timestamp, later: Timestamp)
    ensures
        alert_allowed(Some(first), later) <==> first.nanos_until(later) >= min_alert_gap_nanos(),
        first.nanos_until(later) < min_alert_gap_nanos() ==> !alert_allowed(Some(first), later),
{
}

/// Outside Beijing trading hours (before 9:30 and from 23:00 on) no alert goes out.
pub proof fn law_quiet_outside_trading_hours(hour: u32, minute: u32)
    ensures
        hour < 9 || (hour == 9 && minute < 30) || hour >= 23 ==> !in_trading_hours(hour, minute),
        (hour == 9 && minute >= 30) || (10 <= hour && hour < 23) ==> in_trading_hours(hour, minute),
{
}

/// A message to post to ntfy.
#[derive(Debug)]
pub struct NtfyMessage {
    pub url: String,
    pub subject: String,
    pub body: String,
    pub auth: Option<String>,
}

/// The alert sender: where alerts go, when the last one went out, and the clock
/// reading taken by the latest `send`.
pub struct Ntfy {
    pub config: NtfyConfig,
    pub last_sent: Option<Timestamp>,
    pub last_check: Option<KeptReading>,
}

impl Ntfy {
    /// The instant of the last alert, if any, is a clock reading.
    pub open spec fn well_formed(&self) -> bool {
        self.last_sent matches Some(t) ==> t.is_clock_reading()
    }

    /// A sender that has sent nothing yet.
    pub fn new(config: NtfyConfig) -> (ntfy: Ntfy)
        ensures
            ntfy.config == config,
            ntfy.last_sent is None,
            ntfy.last_check is None,
            ntfy.well_formed(),
    {
        Ntfy { config, last_sent: None, last_check: None }
    }

    /// Decides at `now` whether the new extreme `pre_extreme`, broken by
    /// `current_record`, is announced. It is when the record was published during
    /// Beijing trading hours and no alert went out in the last twenty minutes; then
    /// the message is returned and `now` remembered. `previous_rate` is the text of
    /// the extreme that was broken.
    pub fn send_at(&mut self, current_record: &RateRecord, pre_extreme: Extreme, previous_rate: &str, now: Timestamp)
        -> (message: Option<NtfyMessage>)
        requires
            old(self).well_formed(),
            now.is_clock_reading(),
            current_record.timestamp.is_valid(),
            match pre_extreme {
                Extreme::High(_, t) => t.is_valid(),
                Extreme::Low(_, t) => t.is_valid(),
            },
        ensures
            final(self).well_formed(),
            final(self).config == old(self).config,
            final(self).last_check == old(self).last_check,
            ({
                let (dropping, previous_at) = match pre_extreme {
                    Extreme::High(_, t) => (false, t),
                    Extreme::Low(_, t) => (true, t),
                };
                if published_in_trading_hours(current_record.timestamp) && alert_allowed(old(self).last_sent, now) {
                    &&& message matches Some(m)
                    &&& m.url == old(self).config.url
                    &&& m.auth == old(self).config.auth
                    &&& m.subject@ == alert_subject(current_record.rate@, dropping)
                    &&& m.body@ == alert_body(current_record.rate@, current_record.timestamp, previous_rate@, previous_at)
                    &&& final(self).last_sent == Some(now)
                } else {
                    &&& message is None
                    &&& final(self).last_sent == old(self).last_sent
                }
            }),
    {
        let (hour, minute) = shanghai_clock(current_record.timestamp);
        if !((10 <= hour && hour < 23) || (hour == 9 && minute >= 30)) {
            return None;
        }
        let should_alert = match self.last_sent {
            None => true,
            Some(last) => {
                let secs = now.secs - last.secs;
                secs > 1200 || (secs == 1200 && now.nanos >= last.nanos)
            },
        };
        if !should_alert {
            return None;
        }
        let (dropping, previous_at) = match pre_extreme {
            Extreme::High(_, t) => (false, t),
            Extreme::Low(_, t) => (true, t),
        };
        let mut subject = String::new();
        subject.append("澳元汇率5日新");
        subject.append(if dropping { "低" } else { "高" });
        subject.append(": ");
        subject.append(current_record.rate.as_str());
        let current_at = format_shanghai(current_record.timestamp);
        let previous_at_text = format_shanghai(previous_at);
        let mut body = String::new();
        body.append("当前汇率: ");
        body.append(current_record.rate.as_str());
        body.append("\n时间: ");
        body.append(current_at.as_str());
        body.append("\n\n历史: ");
        body.append(previous_rate);
        body.append(" (");
        body.append(previous_at_text.as_str());
        body.append(")");
        self.last_sent = Some(now);
        Some(NtfyMessage { url: self.config.url.clone(), subject, body, auth: self.config.auth.clone() })
    }

    /// Decides now whether the new extreme `pre_extreme`, broken by
    /// `current_record`, is announced (see `send_at`): reads the clock once,
    /// remembers that reading in `last_check`, and measures the twenty minutes
    /// since the last alert up to it.
    pub fn send(&mut self, current_record: &RateRecord, pre_extreme: Extreme, previous_rate: &str)
        -> (message: Option<NtfyMessage>)
        requires
            old(self).well_formed(),
            current_record.timestamp.is_valid(),
            match pre_extreme {
                Extreme::High(_, t) => t.is_valid(),
                Extreme::Low(_, t) => t.is_valid(),
            },
        ensures
            final(self).well_formed(),
            final(self).config == old(self).config,
            !published_in_trading_hours(current_record.timestamp) ==> message is None && final(self).last_sent == old(self).last_sent,
            match final(self).last_check {
                Some(reading) => {
                    let now = reading@;
                    let (dropping, previous_at) = match pre_extreme {
                        Extreme::High(_, t) => (false, t),
                        Extreme::Low(_, t) => (true, t),
                    };
                    &&& now.is_clock_reading()
                    &&& if published_in_trading_hours(current_record.timestamp) && alert_allowed(old(self).last_sent, now) {
                        &&& message matches Some(m)
                        &&& m.url == old(self).config.url
                        &&& m.auth == old(self).config.auth
                        &&& m.subject@ == alert_subject(current_record.rate@, dropping)
                        &&& m.body@ == alert_body(current_record.rate@, current_record.timestamp, previous_rate@, previous_at)
                        &&& final(self).last_sent == Some(now)
                    } else {
                        &&& message is None
                        &&& final(self).last_sent == old(self).last_sent
                    }
                },
                None => false,
            },
            exists|now: Timestamp| #![auto]
                now.is_clock_reading() && ({
                    let (dropping, previous_at) = match pre_extreme {
                        Extreme::High(_, t) => (false, t),
                        Extreme::Low(_, t) => (true, t),
                    };
                    if published_in_trading_hours(current_record.timestamp) && alert_allowed(old(self).last_sent, now) {
                        &&& message matches Some(m)
                        &&& m.url == old(self).config.url
                        &&& m.auth == old(self).config.auth
                        &&& m.subject@ == alert_subject(current_record.rate@, dropping)
                        &&& m.body@ == alert_body(current_record.rate@, current_record.timestamp, previous_rate@, previous_at)
                        &&& final(self).last_sent == Some(now)
                    } else {
                        &&& message is None
                        &&& final(self).last_sent == old(self).last_sent
                    }
                }),
    {
        let reading = read_clock();
        let now = reading.instant();
        let message = self.send_at(current_record, pre_extreme, previous_rate, now);
        self.last_check = Some(reading.keep());
        message
    }
}

} // verus!
