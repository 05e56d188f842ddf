//! The live view a browser keeps: the rates pushed by the server, the
//! connection badge, and the reconnection schedule.

use vstd::prelude::*;
use crate::models::{RateRecord, CibRateRecord, ServerEvent, ParsedRate};
use crate::extremes::{scan_extremes, is_high_scan, is_low_scan};
use crate::models::{RATE_KEY_ZERO, RATE_KEY_MAX_FINITE};
use crate::history::latest_of;

verus! {

/// The state of the connection to the server's event stream.
#[derive(Clone, Copy, Debug, PartialEq, Eq, Structural)]
pub enum ConnectionStatus {
    Connecting,
    Connected,
    Closed,
    Error,
}

impl ConnectionStatus {
    /// The style classes of the status badge.
    pub fn badge_class(&self) -> (class: &'static str)
        ensures
            class@ == (match *self {
                ConnectionStatus::Connecting => "badge badge-warning"@,
                ConnectionStatus::Connected => "badge badge-success"@,
                ConnectionStatus::Closed => "badge badge-info"@,
                ConnectionStatus::Error => "badge badge-error"@,
            }),
    {
        match self {
            ConnectionStatus::Connecting => "badge badge-warning",
            ConnectionStatus::Connected => "badge badge-success",
            ConnectionStatus::Closed => "badge badge-info",
            ConnectionStatus::Error => "badge badge-error",
        }
    }

    /// The label of the status badge.
    pub fn text(&self) -> (label: &'static str)
        ensures
            label@ == (match *self {
                ConnectionStatus::Connecting => "Connecting"@,
                ConnectionStatus::Connected => "Live"@,
                ConnectionStatus::Closed => "Closed"@,
                ConnectionStatus::Error => "Error"@,
            }),
    {
        match self {
            ConnectionStatus::Connecting => "Connecting",
            ConnectionStatus::Connected => "Live",
            ConnectionStatus::Closed => "Closed",
            ConnectionStatus::Error => "Error",
        }
    }
}

/// How many times the client tries to reach the event stream before it gives up.
pub const MAX_RETRIES: u32 = 10;

/// The longest wait before a reconnection, in milliseconds.
pub const MAX_RECONNECT_DELAY_MS: u32 = 30_000;

/// `2` to the power `n`.
pub open spec fn power_of_two(n: nat) -> nat
    decreases n,
{
    if n == 0 { 1 } else { 2 * power_of_two((n - 1) as nat) }
}

/// The wait (before jitter) after the `retry`-th failed connection: half a second
/// after the first failure, doubled with each further failure, at most thirty
/// seconds; that is `500 * 2^(retry - 1)` capped, written here as `250 * 2^retry`.
pub open spec fn reconnect_delay(retry: nat) -> nat {
    let d = 250 * power_of_two(retry);
    if d < MAX_RECONNECT_DELAY_MS { d } else { MAX_RECONNECT_DELAY_MS as nat }
}

/// After `failures` failed connections, counts one more: `None` when that reaches
/// `MAX_RETRIES` and the client gives up, otherwise the new count and the wait
/// (before jitter) until the next try.
pub fn next_reconnect(failures: u32) -> (next: Option<(u32, u32)>)
    requires
        failures < MAX_RETRIES,
    ensures
        failures + 1 >= MAX_RETRIES ==> next is None,
        failures + 1 < MAX_RETRIES ==> next == Some(((failures + 1) as u32, reconnect_delay((failures + 1) as nat) as u32)),
{
    let retry = failures + 1;
    if retry >= MAX_RETRIES {
        return None;
    }
    let mut p: u32 = 1;
    let mut i: u32 = 0;
    while i < retry
        invariant
            i <= retry,
            retry < MAX_RETRIES,
            p == power_of_two(i as nat),
            p <= 512,
        decreases retry - i,
    {
        p = p * 2;
        i = i + 1;
        assert(power_of_two(i as nat) == 2 * power_of_two((i - 1) as nat));
        assert(p <= 512) by {
            lemma_power_of_two_bound(i as nat);
        }
    }
    let d = 250 * p;
    let delay = if d < MAX_RECONNECT_DELAY_MS { d } else { MAX_RECONNECT_DELAY_MS };
    Some((retry, delay))
}

/// Powers of two up to the ninth stay at or below 512.
proof fn lemma_power_of_two_bound(n: nat)
    requires
        n <= 9,
    ensures
        power_of_two(n) <= 512,
    decreases 9 - n,
{
    if n == 9 {
        reveal_with_fuel(power_of_two, 10);
    } else {
        lemma_power_of_two_bound(n + 1);
        assert(power_of_two(n + 1) == 2 * power_of_two(n));
    }
}

/// The first wait is half a second; each later wait doubles the one before it
/// until the thirty-second cap, and no wait exceeds the cap.
pub proof fn law_reconnect_delays_grow_to_cap(retry: nat)
    ensures
        reconnect_delay(1) == 500,
        retry >= 1 && 2 * reconnect_delay(retry) <= MAX_RECONNECT_DELAY_MS
            ==> reconnect_delay(retry + 1) == 2 * reconnect_delay(retry),
        reconnect_delay(retry) <= reconnect_delay(retry + 1),
        reconnect_delay(retry) <= MAX_RECONNECT_DELAY_MS,
{
    assert(power_of_two(retry + 1) == 2 * power_of_two(retry));
    reveal_with_fuel(power_of_two, 2);
}

/// After a rate update the newest rate shown is the one pushed, and after a
/// history arrives it is that history's last rate.
pub proof fn law_feed_shows_latest(records: Seq<RateRecord>, pushed: RateRecord, history: Seq<RateRecord>)
    ensures
        latest_of(records.push(pushed)) == Some(pushed),
        latest_of(history) == (if history.len() == 0 { None } else { Some(history.last()) }),
{
}

/// What the browser shows: the rates received (in arrival order), the China
/// Industrial Bank history and its latest quotation.
pub struct FeedState {
    pub records: Vec<RateRecord>,
    pub cib_history: Vec<CibRateRecord>,
    pub cib_latest: Option<CibRateRecord>,
}

impl FeedState {
    /// The view first rendered from the server's histories.
    pub fn new(records: Vec<RateRecord>, cib_records: Vec<CibRateRecord>) -> (feed: FeedState)
        ensures
            feed.records@ == records@,
            feed.cib_history@ == cib_records@,
            feed.cib_latest is None,
    {
        FeedState { records, cib_history: cib_records, cib_latest: None }
    }

    /// Takes in one event from the server: a new rate is appended; a new China
    /// Industrial Bank rate is appended and becomes the latest; a history replaces
    /// the one held (a non-empty China Industrial Bank history also sets the latest
    /// to its last quotation).
    pub fn apply(&mut self, event: ServerEvent)
        ensures
            match event {
                ServerEvent::RateUpdate(r) => {
                    &&& final(self).records@ == old(self).records@.push(r)
                    &&& final(self).cib_history@ == old(self).cib_history@
                    &&& final(self).cib_latest == old(self).cib_latest
                },
                ServerEvent::CibRateUpdate(r) => {
                    &&& final(self).records@ == old(self).records@
                    &&& final(self).cib_history@ == old(self).cib_history@.push(r)
                    &&& final(self).cib_latest == Some(r)
                },
                ServerEvent::History(v) => {
                    &&& final(self).records@ == v@
                    &&& final(self).cib_history@ == old(self).cib_history@
                    &&& final(self).cib_latest == old(self).cib_latest
                },
                ServerEvent::CibHistory(v) => {
                    &&& final(self).records@ == old(self).records@
                    &&& final(self).cib_history@ == v@
                    &&& final(self).cib_latest == (if v@.len() > 0 { Some(v@.last()) } else { old(self).cib_latest })
                },
            },
    {
        match event {
            ServerEvent::RateUpdate(record) => {
                self.records.push(record);
            },
            ServerEvent::CibRateUpdate(record) => {
                self.cib_history.push(record.clone());
                self.cib_latest = Some(record);
            },
            ServerEvent::History(records) => {
                self.records = records;
            },
            ServerEvent::CibHistory(records) => {
                let n = records.len();
                if n > 0 {
                    self.cib_latest = Some(records[n - 1].clone());
                }
                self.cib_history = records;
            },
        }
    }

    /// The newest rate received, if any.
    pub fn current(&self) -> (latest: Option<RateRecord>)
        ensures
            latest == latest_of(self.records@),
    {
        let n = self.records.len();
        if n == 0 {
            None
        } else {
            Some(self.records[n - 1].clone())
        }
    }

    /// The records with the highest and the lowest rate, given the parsed rate of
    /// each record: none without records; otherwise the first record with the
    /// highest rate above zero and the first with the lowest rate below the largest
    /// finite number, the first record standing in where there is no such rate.
    pub fn extremes(&self, rates: &Vec<ParsedRate>) -> (found: (Option<RateRecord>, Option<RateRecord>))
        requires
            rates@.len() == self.records@.len(),
            forall|i: int| 0 <= i < rates@.len() ==> !(#[trigger] rates@[i] is Invalid),
        ensures
            self.records@.len() == 0 ==> found == (None::<RateRecord>, None::<RateRecord>),
            self.records@.len() > 0 ==> exists|high: i64, hi: Option<usize>, low: i64, li: Option<usize>|
                #![trigger is_high_scan(rates@, RATE_KEY_ZERO, high, hi), is_low_scan(rates@, RATE_KEY_MAX_FINITE, low, li)]
                is_high_scan(rates@, RATE_KEY_ZERO, high, hi)
                && is_low_scan(rates@, RATE_KEY_MAX_FINITE, low, li)
                && found.0 == Some(self.records@[match hi { Some(i) => i as int, None => 0 }])
                && found.1 == Some(self.records@[match li { Some(i) => i as int, None => 0 }]),
    {
        if self.records.len() == 0 {
            return (None, None);
        }
        let scan = scan_extremes(rates);
        let hi = match scan.high_index {
            Some(i) => i,
            None => 0,
        };
        let li = match scan.low_index {
            Some(i) => i,
            None => 0,
        };
        let found = (Some(self.records[hi].clone()), Some(self.records[li].clone()));
        assert(is_high_scan(rates@, RATE_KEY_ZERO, scan.high, scan.high_index)
            && is_low_scan(rates@, RATE_KEY_MAX_FINITE, scan.low, scan.low_index));
        found
    }
}

} // verus!
