//! The server's memory: the recent rate history and the cached five-day
//! extremes.

use vstd::prelude::*;
use std::collections::VecDeque;
use crate::instant::{Timestamp, ClockReading, read_clock, retention_cutoff, spec_retention_cutoff, has_retention_cutoff};
use crate::models::{
    RateRecord, CibRateRecord, ParsedRate, RateSample, ExtremeValues, Extreme,
    RATE_KEY_ZERO, RATE_KEY_MAX_FINITE,
};
use crate::extremes::{scan_extremes, is_high_scan, is_low_scan};

verus! {

/// The rates of a series of samples.
pub open spec fn sample_rates(rows: Seq<RateSample>) -> Seq<ParsedRate> {
    rows.map_values(|r: RateSample| r.rate)
}

/// Whether a record is still inside the window that starts after `cutoff`.
pub open spec fn is_recent(cutoff: Timestamp) -> spec_fn(RateRecord) -> bool {
    |r: RateRecord| cutoff.precedes(r.timestamp)
}

/// The newest record of a history, if any.
pub open spec fn latest_of(history: Seq<RateRecord>) -> Option<RateRecord> {
    if history.len() == 0 { None } else { Some(history.last()) }
}

/// Whether `add_rate` takes `record`: unless it was published at the same
/// instant as the newest record already held.
pub open spec fn accepts(history: Seq<RateRecord>, record: RateRecord) -> bool {
    !(history.len() > 0 && history.last().timestamp == record.timestamp)
}

/// The extremes found in `rows` for the window that starts at `cutoff`: the
/// highest rate above zero (or zero at the cutoff), the lowest rate below the
/// largest finite number, each with the instant it was first reached. There are
/// none without rows or without any rate below the largest finite number.
pub open spec fn extremes_of_rows(rows: Seq<RateSample>, cutoff: Timestamp, found: Option<ExtremeValues>) -> bool {
    if found is None {
        rows.len() == 0 || is_low_scan(sample_rates(rows), RATE_KEY_MAX_FINITE, RATE_KEY_MAX_FINITE, None)
    } else {
        extremes_found_in(rows, cutoff, found->0)
    }
}

/// `e` holds the extremes of the non-empty `rows` with a low below the largest
/// finite number (see `extremes_of_rows`).
pub open spec fn extremes_found_in(rows: Seq<RateSample>, cutoff: Timestamp, e: ExtremeValues) -> bool {
    &&& rows.len() > 0
    &&& exists|hi: Option<usize>| #![trigger is_high_scan(sample_rates(rows), RATE_KEY_ZERO, e.high_rate, hi)]
        is_high_scan(sample_rates(rows), RATE_KEY_ZERO, e.high_rate, hi)
        && e.high_timestamp == (match hi { Some(i) => rows[i as int].timestamp, None => cutoff })
    &&& exists|li: usize| #![trigger is_low_scan(sample_rates(rows), RATE_KEY_MAX_FINITE, e.low_rate, Some(li))]
        is_low_scan(sample_rates(rows), RATE_KEY_MAX_FINITE, e.low_rate, Some(li))
        && e.low_timestamp == rows[li as int].timestamp
}

/// The low of the extremes does not exceed the high.
pub open spec fn is_ordered(e: ExtremeValues) -> bool {
    e.low_rate <= e.high_rate
}

/// After a record is taken, it is the newest one, and the history shown newest
/// first starts with it.
pub proof fn law_added_record_is_latest(history: Seq<RateRecord>, record: RateRecord)
    requires
        accepts(history, record),
    ensures
        latest_of(history.push(record)) == Some(record),
        history.push(record).reverse()[0] == record,
{
}

/// Only the instant decides whether a record is taken: one published at another
/// instant than the newest record held (or into an empty history) is always
/// taken, whatever its rate text, even the same text as the newest; one published
/// at the newest record's instant never is.
pub proof fn law_new_instant_is_taken(history: Seq<RateRecord>, record: RateRecord, rate: String)
    ensures
        history.len() == 0 ==> accepts(history, record),
        history.len() > 0 && history.last().timestamp != record.timestamp ==> accepts(history, record),
        history.len() > 0 && history.last().timestamp == record.timestamp ==> !accepts(history, record),
        accepts(history, record) == accepts(history, RateRecord { rate, timestamp: record.timestamp }),
{
}

/// A record repeated right after it was taken is not taken again.
pub proof fn law_repeat_is_ignored(history: Seq<RateRecord>, record: RateRecord)
    ensures
        !accepts(history.push(record), record),
{
}

/// The history shown newest first begins with the newest record and holds the
/// same records.
pub proof fn law_history_starts_with_latest(history: Seq<RateRecord>)
    ensures
        history.reverse().len() == history.len(),
        history.len() > 0 ==> latest_of(history) == Some(history.reverse()[0]),
        forall|i: int| 0 <= i < history.len() ==> history.reverse()[i] == history[history.len() - 1 - i],
{
}

/// Loading rows read newest first and showing the history newest first gives the
/// rows back as read.
pub proof fn law_load_then_history_round_trip(rows: Seq<RateRecord>)
    ensures
        rows.reverse().reverse() == rows,
{
    assert(rows.reverse().reverse() =~= rows);
}

/// Cleaning keeps exactly the records published after the cutoff, in their order,
/// and cleaning again with the same cutoff changes nothing.
pub proof fn law_clean_keeps_exactly_recent(history: Seq<RateRecord>, cutoff: Timestamp)
    ensures
        forall|i: int| 0 <= i < history.filter(is_recent(cutoff)).len()
            ==> cutoff.precedes(#[trigger] history.filter(is_recent(cutoff))[i].timestamp),
        forall|i: int| 0 <= i < history.len() && cutoff.precedes(#[trigger] history[i].timestamp)
            ==> history.filter(is_recent(cutoff)).contains(history[i]),
        history.filter(is_recent(cutoff)).filter(is_recent(cutoff)) == history.filter(is_recent(cutoff)),
        history.filter(is_recent(cutoff)).len() <= history.len(),
{
    broadcast use vstd::seq_lib::group_filter_ensures;
    assert forall|i: int| 0 <= i < history.filter(is_recent(cutoff)).len()
        implies cutoff.precedes(#[trigger] history.filter(is_recent(cutoff))[i].timestamp) by {
        history.lemma_filter_pred(is_recent(cutoff), i);
    }
    assert forall|i: int| 0 <= i < history.len() && cutoff.precedes(#[trigger] history[i].timestamp)
        implies history.filter(is_recent(cutoff)).contains(history[i]) by {
        history.lemma_filter_contains(is_recent(cutoff), i);
    }
    lemma_filter_idempotent(history, cutoff);
    history.lemma_filter_len(is_recent(cutoff));
}

/// Filtering twice by recency is filtering once.
proof fn lemma_filter_idempotent(history: Seq<RateRecord>, cutoff: Timestamp)
    ensures
        history.filter(is_recent(cutoff)).filter(is_recent(cutoff)) == history.filter(is_recent(cutoff)),
    decreases history.len(),
{
    if history.len() > 0 {
        let rest = history.drop_last();
        lemma_filter_idempotent(rest, cutoff);
        assert(rest.push(history.last()) =~= history);
        rest.lemma_filter_push(history.last(), is_recent(cutoff));
        if is_recent(cutoff)(history.last()) {
            rest.filter(is_recent(cutoff)).lemma_filter_push(history.last(), is_recent(cutoff));
        }
    } else {
        reveal(Seq::filter);
    }
}

/// Extremes found in rows bound every rate of the rows: none is above the high or
/// below the low.
pub proof fn law_extremes_bound_rows(rows: Seq<RateSample>, cutoff: Timestamp, e: ExtremeValues)
    requires
        extremes_of_rows(rows, cutoff, Some(e)),
    ensures
        forall|i: int| 0 <= i < rows.len() ==> ((#[trigger] rows[i]).rate matches ParsedRate::Value(k)
            ==> e.low_rate <= k && k <= e.high_rate),
        e.low_rate <= e.high_rate,
{
    let s = sample_rates(rows);
    let hi = choose|hi: Option<usize>| #![trigger is_high_scan(s, RATE_KEY_ZERO, e.high_rate, hi)]
        is_high_scan(s, RATE_KEY_ZERO, e.high_rate, hi)
        && e.high_timestamp == (match hi { Some(i) => rows[i as int].timestamp, None => cutoff });
    let li = choose|li: usize| #![trigger is_low_scan(s, RATE_KEY_MAX_FINITE, e.low_rate, Some(li))]
        is_low_scan(s, RATE_KEY_MAX_FINITE, e.low_rate, Some(li))
        && e.low_timestamp == rows[li as int].timestamp;
    assert forall|i: int| 0 <= i < rows.len() implies ((#[trigger] rows[i]).rate matches ParsedRate::Value(k)
        ==> e.low_rate <= k && k <= e.high_rate) by {
        assert(crate::extremes::key_at(s, i) == (match rows[i].rate { ParsedRate::Value(k) => Some(k), _ => None }));
    }
    assert(crate::extremes::key_at(s, li as int) == Some(e.low_rate));
}

/// A rate reported as a new low is below every rate of the window the extremes
/// came from, and a rate reported as a new high is above every one of them.
pub proof fn law_new_extreme_beyond_window(rows: Seq<RateSample>, cutoff: Timestamp, e: ExtremeValues, current: i64)
    requires
        extremes_of_rows(rows, cutoff, Some(e)),
    ensures
        current < e.low_rate ==> forall|i: int| 0 <= i < rows.len() ==>
            ((#[trigger] rows[i]).rate matches ParsedRate::Value(k) ==> current < k),
        current > e.high_rate ==> forall|i: int| 0 <= i < rows.len() ==>
            ((#[trigger] rows[i]).rate matches ParsedRate::Value(k) ==> current > k),
{
    law_extremes_bound_rows(rows, cutoff, e);
}

/// The server state: the rate history (oldest first), the China Industrial
/// Bank history, and the five-day extremes last computed.
pub struct AppState {
    pub rate_history: VecDeque<RateRecord>,
    pub cib_rate_history: VecDeque<CibRateRecord>,
    pub extreme_values: Option<ExtremeValues>,
}

impl AppState {
    /// An empty state: no history and no cached extremes.
    pub fn new() -> (s: AppState)
        ensures
            s.rate_history@ == Seq::<RateRecord>::empty(),
            s.cib_rate_history@ == Seq::<CibRateRecord>::empty(),
            s.extreme_values is None,
    {
        AppState { rate_history: VecDeque::new(), cib_rate_history: VecDeque::new(), extreme_values: None }
    }

    /// Appends a new quotation. A record published at the same instant as the
    /// newest one held is a repeat of it: it is left out and `false` returned.
    pub fn add_rate(&mut self, record: &RateRecord) -> (added: bool)
        ensures
            added == accepts(old(self).rate_history@, *record),
            added ==> final(self).rate_history@ == old(self).rate_history@.push(*record),
            !added ==> final(self).rate_history@ == old(self).rate_history@,
            final(self).cib_rate_history@ == old(self).cib_rate_history@,
            final(self).extreme_values == old(self).extreme_values,
    {
        let n = self.rate_history.len();
        if n > 0 && self.rate_history[n - 1].timestamp == record.timestamp {
            return false;
        }
        self.rate_history.push_back(record.clone());
        true
    }

    /// The newest quotation, if any.
    pub fn get_latest_rate(&self) -> (latest: Option<RateRecord>)
        ensures
            latest == latest_of(self.rate_history@),
    {
        let n = self.rate_history.len();
        if n == 0 {
            None
        } else {
            Some(self.rate_history[n - 1].clone())
        }
    }

    /// The history, newest first.
    pub fn get_history(&self) -> (history: Vec<RateRecord>)
        ensures
            history@ == self.rate_history@.reverse(),
    {
        let n = self.rate_history.len();
        let mut out: Vec<RateRecord> = Vec::new();
        let mut i = n;
        while i > 0
            invariant
                n == self.rate_history@.len(),
                i <= n,
                out@.len() == n - i,
                forall|j: int| 0 <= j < n - i ==> out@[j] == self.rate_history@[n - 1 - j],
            decreases i,
        {
            i = i - 1;
            out.push(self.rate_history[i].clone());
        }
        assert(out@ =~= self.rate_history@.reverse());
        out
    }

    /// The China Industrial Bank history, as held.
    pub fn get_cib_history(&self) -> (history: Vec<CibRateRecord>)
        ensures
            history@ == self.cib_rate_history@,
    {
        let n = self.cib_rate_history.len();
        let mut out: Vec<CibRateRecord> = Vec::new();
        for i in 0..n
            invariant
                n == self.cib_rate_history@.len(),
                out@ == self.cib_rate_history@.take(i as int),
        {
            out.push(self.cib_rate_history[i].clone());
            assert(out@ =~= self.cib_rate_history@.take(i + 1));
        }
        assert(self.cib_rate_history@.take(n as int) =~= self.cib_rate_history@);
        out
    }

    /// Drops the records published at or before `cutoff`, keeping the order of the rest.
    pub fn retain_after(&mut self, cutoff: Timestamp)
        ensures
            final(self).rate_history@ == old(self).rate_history@.filter(is_recent(cutoff)),
            final(self).cib_rate_history@ == old(self).cib_rate_history@,
            final(self).extreme_values == old(self).extreme_values,
    {
        let ghost before = self.rate_history@;
        let n = self.rate_history.len();
        let mut kept: VecDeque<RateRecord> = VecDeque::new();
        for i in 0..n
            invariant
                n == before.len(),
                self.rate_history@ == before,
                kept@ == before.take(i as int).filter(is_recent(cutoff)),
        {
            proof {
                before.take(i as int).lemma_filter_push(before[i as int], is_recent(cutoff));
                assert(before.take(i + 1) =~= before.take(i as int).push(before[i as int]));
            }
            if cutoff.is_before(&self.rate_history[i].timestamp) {
                kept.push_back(self.rate_history[i].clone());
            }
        }
        assert(before.take(n as int) =~= before);
        self.rate_history = kept;
    }

    /// Drops the records that are five days old or older at `now`.
    pub fn clean_at(&mut self, now: Timestamp)
        requires
            has_retention_cutoff(now),
        ensures
            final(self).rate_history@ == old(self).rate_history@.filter(is_recent(spec_retention_cutoff(now))),
            final(self).cib_rate_history@ == old(self).cib_rate_history@,
            final(self).extreme_values == old(self).extreme_values,
    {
        let cutoff = retention_cutoff(now);
        self.retain_after(cutoff);
    }

    /// Drops the records that are five days old or older now: reads the clock
    /// once, keeps exactly the records published after five days before that
    /// reading, and returns the reading.
    pub fn clean(&mut self) -> (reading: ClockReading)
        ensures
            reading@.is_clock_reading(),
            reading@.secs >= 0,
            final(self).rate_history@ == old(self).rate_history@.filter(is_recent(spec_retention_cutoff(reading@))),
            exists|now: Timestamp| #![auto]
                now.is_clock_reading() && now.secs >= 0
                && final(self).rate_history@ == old(self).rate_history@.filter(is_recent(spec_retention_cutoff(now))),
            final(self).cib_rate_history@ == old(self).cib_rate_history@,
            final(self).extreme_values == old(self).extreme_values,
    {
        let reading = read_clock();
        let now = reading.instant();
        self.clean_at(now);
        reading
    }

    /// Replaces the history with the rows read from the database, which come
    /// newest first; the history holds them oldest first.
    pub fn load_from_db(&mut self, rows: Vec<RateRecord>)
        ensures
            final(self).rate_history@ == rows@.reverse(),
            final(self).cib_rate_history@ == old(self).cib_rate_history@,
            final(self).extreme_values == old(self).extreme_values,
    {
        let n = rows.len();
        let mut history: VecDeque<RateRecord> = VecDeque::new();
        let mut i = n;
        while i > 0
            invariant
                n == rows@.len(),
                i <= n,
                history@.len() == n - i,
                forall|j: int| 0 <= j < n - i ==> history@[j] == rows@[n - 1 - j],
            decreases i,
        {
            i = i - 1;
            history.push_back(rows[i].clone());
        }
        assert(history@ =~= rows@.reverse());
        self.rate_history = history;
    }

    /// The cached extremes, when both were reached after `cutoff` or at it.
    pub fn fresh_extremes(&self, cutoff: Timestamp) -> (cached: Option<ExtremeValues>)
        ensures
            cached == (match self.extreme_values {
                Some(e) => if cutoff.not_after(e.high_timestamp) && cutoff.not_after(e.low_timestamp) {
                    Some(e)
                } else {
                    None
                },
                None => None,
            }),
    {
        match self.extreme_values {
            Some(e) => {
                if cutoff.is_not_after(&e.high_timestamp) && cutoff.is_not_after(&e.low_timestamp) {
                    Some(e)
                } else {
                    None
                }
            },
            None => None,
        }
    }

    /// The extremes of the rows read from the database for the window that
    /// starts at `cutoff` (oldest first); when there are any they replace the
    /// cached ones.
    pub fn extremes_from_rows(&mut self, cutoff: Timestamp, rows: &Vec<RateSample>) -> (found: Option<ExtremeValues>)
        ensures
            extremes_of_rows(rows@, cutoff, found),
            found matches Some(e) ==> is_ordered(e),
            final(self).extreme_values == (if found is Some { found } else { old(self).extreme_values }),
            final(self).rate_history@ == old(self).rate_history@,
            final(self).cib_rate_history@ == old(self).cib_rate_history@,
    {
        let n = rows.len();
        if n == 0 {
            return None;
        }
        let mut rates: Vec<ParsedRate> = Vec::new();
        for i in 0..n
            invariant
                n == rows@.len(),
                rates@ == sample_rates(rows@).take(i as int),
        {
            rates.push(rows[i].rate);
            assert(rates@ =~= sample_rates(rows@).take(i + 1));
        }
        assert(sample_rates(rows@).take(n as int) =~= sample_rates(rows@));
        let scan = scan_extremes(&rates);
        let low_index = match scan.low_index {
            Some(li) => li,
            None => {
                return None;
            },
        };
        let high_timestamp = match scan.high_index {
            Some(hi) => rows[hi].timestamp,
            None => cutoff,
        };
        let values = ExtremeValues {
            high_rate: scan.high,
            low_rate: scan.low,
            high_timestamp,
            low_timestamp: rows[low_index].timestamp,
        };
        proof {
            let s = sample_rates(rows@);
            // The low is one of the rates, so it cannot exceed the high.
            assert(crate::extremes::key_at(s, low_index as int) == Some(scan.low));
            assert(is_high_scan(s, RATE_KEY_ZERO, values.high_rate, scan.high_index));
            assert(is_low_scan(s, RATE_KEY_MAX_FINITE, values.low_rate, Some(low_index)));
            assert(extremes_found_in(rows@, cutoff, values));
        }
        self.extreme_values = Some(values);
        Some(values)
    }

    /// Compares the current rate with the five-day extremes. A rate strictly
    /// below the low becomes the new low and is reported as `Low` with the previous
    /// low and the instant it was reached; otherwise a rate strictly above the high
    /// becomes the new high and is reported as `High` with the previous high and its
    /// instant; otherwise nothing changes.
    pub fn check_extremes(&mut self, current_rate: ParsedRate, current_timestamp: Timestamp, extremes: ExtremeValues)
        -> (news: Option<Extreme>)
        ensures
            match current_rate {
                ParsedRate::Value(k) if k < extremes.low_rate => {
                    &&& news == Some(Extreme::Low(extremes.low_rate, extremes.low_timestamp))
                    &&& final(self).extreme_values == Some(ExtremeValues {
                        low_rate: k,
                        low_timestamp: current_timestamp,
                        ..extremes
                    })
                },
                ParsedRate::Value(k) if k > extremes.high_rate => {
                    &&& news == Some(Extreme::High(extremes.high_rate, extremes.high_timestamp))
                    &&& final(self).extreme_values == Some(ExtremeValues {
                        high_rate: k,
                        high_timestamp: current_timestamp,
                        ..extremes
                    })
                },
                _ => news is None && final(self).extreme_values == old(self).extreme_values,
            },
            is_ordered(extremes) && news is Some ==> (final(self).extreme_values matches Some(e) && is_ordered(e)),
            final(self).rate_history@ == old(self).rate_history@,
            final(self).cib_rate_history@ == old(self).cib_rate_history@,
    {
        match current_rate {
            ParsedRate::Value(k) => {
                if k < extremes.low_rate {
                    self.extreme_values = Some(ExtremeValues {
                        low_rate: k,
                        low_timestamp: current_timestamp,
                        ..extremes
                    });
                    Some(Extreme::Low(extremes.low_rate, extremes.low_timestamp))
                } else if k > extremes.high_rate {
                    self.extreme_values = Some(ExtremeValues {
                        high_rate: k,
                        high_timestamp: current_timestamp,
                        ..extremes
                    });
                    Some(Extreme::High(extremes.high_rate, extremes.high_timestamp))
                } else {
                    None
                }
            },
            _ => None,
        }
    }
}

} // verus!
