//! Finding the highest and the lowest rate of a series, as the server does
//! for the five-day window and the client does for its chart.

use vstd::prelude::*;
use crate::models::{ParsedRate, RATE_KEY_ZERO, RATE_KEY_MAX_FINITE};

verus! {

/// The key of `s[i]` when it is a number.
pub open spec fn key_at(s: Seq<ParsedRate>, i: int) -> Option<i64> {
    match s[i] {
        ParsedRate::Value(k) => Some(k),
        _ => None,
    }
}

/// `high` is the running maximum of the series started from `start`, and
/// `index` the first position that raised it (none if nothing exceeded `start`).
pub open spec fn is_high_scan(s: Seq<ParsedRate>, start: i64, high: i64, index: Option<usize>) -> bool {
    match index {
        None => {
            &&& high == start
            &&& forall|j: int| 0 <= j < s.len() ==> !(#[trigger] key_at(s, j) matches Some(k) && k > start)
        },
        Some(i) => {
            &&& i < s.len()
            &&& key_at(s, i as int) == Some(high)
            &&& high > start
            &&& forall|j: int| 0 <= j < s.len() ==> !(#[trigger] key_at(s, j) matches Some(k) && k > high)
            &&& forall|j: int| 0 <= j < i ==> !(#[trigger] key_at(s, j) matches Some(k) && k >= high)
        },
    }
}

/// `low` is the running minimum of the series started from `start`, and
/// `index` the first position that lowered it (none if nothing went below `start`).
pub open spec fn is_low_scan(s: Seq<ParsedRate>, start: i64, low: i64, index: Option<usize>) -> bool {
    match index {
        None => {
            &&& low == start
            &&& forall|j: int| 0 <= j < s.len() ==> !(#[trigger] key_at(s, j) matches Some(k) && k < start)
        },
        Some(i) => {
            &&& i < s.len()
            &&& key_at(s, i as int) == Some(low)
            &&& low < start
            &&& forall|j: int| 0 <= j < s.len() ==> !(#[trigger] key_at(s, j) matches Some(k) && k < low)
            &&& forall|j: int| 0 <= j < i ==> !(#[trigger] key_at(s, j) matches Some(k) && k <= low)
        },
    }
}

/// A series has only one running maximum and one running minimum from a given
/// start, each with one position: the scans are determined by the series.
pub proof fn law_scans_are_unique(
    s: Seq<ParsedRate>,
    start: i64,
    h1: i64,
    i1: Option<usize>,
    h2: i64,
    i2: Option<usize>,
)
    ensures
        is_high_scan(s, start, h1, i1) && is_high_scan(s, start, h2, i2) ==> h1 == h2 && i1 == i2,
        is_low_scan(s, start, h1, i1) && is_low_scan(s, start, h2, i2) ==> h1 == h2 && i1 == i2,
{
    if is_high_scan(s, start, h1, i1) && is_high_scan(s, start, h2, i2) {
        match (i1, i2) {
            (Some(a), Some(b)) => {
                assert(key_at(s, a as int) == Some(h1));
                assert(key_at(s, b as int) == Some(h2));
                if a < b {
                    assert(key_at(s, a as int) matches Some(k) && k >= h2);
                } else if b < a {
                    assert(key_at(s, b as int) matches Some(k) && k >= h1);
                }
            },
            (Some(a), None) => {
                assert(key_at(s, a as int) == Some(h1));
            },
            (None, Some(b)) => {
                assert(key_at(s, b as int) == Some(h2));
            },
            (None, None) => {},
        }
    }
    if is_low_scan(s, start, h1, i1) && is_low_scan(s, start, h2, i2) {
        match (i1, i2) {
            (Some(a), Some(b)) => {
                assert(key_at(s, a as int) == Some(h1));
                assert(key_at(s, b as int) == Some(h2));
                if a < b {
                    assert(key_at(s, a as int) matches Some(k) && k <= h2);
                } else if b < a {
                    assert(key_at(s, b as int) matches Some(k) && k <= h1);
                }
            },
            (Some(a), None) => {
                assert(key_at(s, a as int) == Some(h1));
            },
            (None, Some(b)) => {
                assert(key_at(s, b as int) == Some(h2));
            },
            (None, None) => {},
        }
    }
}

/// The result of one pass over a series: the highest rate above zero and the
/// lowest rate below the largest finite number, with where each was first seen.
pub struct ExtremeScan {
    pub high: i64,
    pub high_index: Option<usize>,
    pub low: i64,
    pub low_index: Option<usize>,
}

/// One pass over the rates, starting the high at zero and the low at the largest
/// finite number; a rate replaces the running extreme only when it is strictly
/// beyond it, so each extreme is found at its first occurrence. Rates that are not
/// numbers change nothing.
pub fn scan_extremes(rates: &Vec<ParsedRate>) -> (scan: ExtremeScan)
    ensures
        is_high_scan(rates@, RATE_KEY_ZERO, scan.high, scan.high_index),
        is_low_scan(rates@, RATE_KEY_MAX_FINITE, scan.low, scan.low_index),
{
    let mut high: i64 = RATE_KEY_ZERO;
    let mut high_index: Option<usize> = None;
    let mut low: i64 = RATE_KEY_MAX_FINITE;
    let mut low_index: Option<usize> = None;
    let n = rates.len();
    for i in 0..n
        invariant
            n == rates@.len(),
            is_high_scan(rates@.take(i as int), RATE_KEY_ZERO, high, high_index),
            is_low_scan(rates@.take(i as int), RATE_KEY_MAX_FINITE, low, low_index),
    {
        let ghost prefix = rates@.take(i as int);
        let ghost next = rates@.take(i + 1);
        assert forall|j: int| 0 <= j < i implies key_at(next, j) == key_at(prefix, j) by {}
        assert(key_at(next, i as int) == key_at(rates@, i as int));
        if let ParsedRate::Value(k) = rates[i] {
            if k > high {
                high = k;
                high_index = Some(i);
            }
            if k < low {
                low = k;
                low_index = Some(i);
            }
        }
        assert(is_high_scan(next, RATE_KEY_ZERO, high, high_index)) by {
            assert forall|j: int| 0 <= j < next.len() implies !(#[trigger] key_at(next, j) matches Some(k) && k > high) by {
                if j < i {
                    assert(key_at(next, j) == key_at(prefix, j));
                }
            }
            if let Some(hi) = high_index {
                assert forall|j: int| 0 <= j < hi implies !(#[trigger] key_at(next, j) matches Some(k) && k >= high) by {
                    if j < i {
                        assert(key_at(next, j) == key_at(prefix, j));
                    }
                }
            }
        }
        assert(is_low_scan(next, RATE_KEY_MAX_FINITE, low, low_index)) by {
            assert forall|j: int| 0 <= j < next.len() implies !(#[trigger] key_at(next, j) matches Some(k) && k < low) by {
                if j < i {
                    assert(key_at(next, j) == key_at(prefix, j));
                }
            }
            if let Some(li) = low_index {
                assert forall|j: int| 0 <= j < li implies !(#[trigger] key_at(next, j) matches Some(k) && k <= low) by {
                    if j < i {
                        assert(key_at(next, j) == key_at(prefix, j));
                    }
                }
            }
        }
    }
    assert(rates@.take(n as int) =~= rates@);
    ExtremeScan { high, high_index, low, low_index }
}

} // verus!
