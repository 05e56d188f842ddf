//! Candlesticks: the history cut into fixed intervals, with the first, highest,
//! lowest and last rate of each.

use vstd::prelude::*;
use crate::instant::{Timestamp, MAX_UTC_SECS};
use crate::models::{ParsedRate, RateSample, rate_above, rate_below};

verus! {

/// The largest number of hours a `chrono::TimeDelta` can hold.
pub const MAX_INTERVAL_HOURS: i64 = 2_562_047_788_015;

/// One candle. The rates are never `Invalid`.
#[derive(Clone, Copy, Debug, PartialEq, Eq, Structural)]
pub struct Candle {
    pub open: ParsedRate,
    pub high: ParsedRate,
    pub low: ParsedRate,
    pub close: ParsedRate,
    pub start_timestamp: Timestamp,
    pub end_timestamp: Timestamp,
}

/// The length of a candle in seconds; intervals shorter than an hour count as one hour.
pub open spec fn interval_secs(hours: i64) -> int {
    (if hours < 1 { 1 } else { hours as int }) * 3600
}

/// A candle lasts the number of hours asked for, counted in seconds; an interval
/// below one hour lasts one hour. No interval of an hour or more is shortened.
pub proof fn law_interval_is_hours(hours: i64)
    ensures
        hours >= 1 ==> interval_secs(hours) == 3600 * hours,
        hours < 1 ==> interval_secs(hours) == 3600,
        interval_secs(hours) >= 3600 * hours,
{
}

/// The remainder of `a / b` rounded toward zero, as Rust's `%` computes it.
pub open spec fn truncated_rem(a: int, b: int) -> int {
    if a >= 0 { a % b } else { -((-a) % b) }
}

/// The whole second at which the candle holding `t` starts.
pub open spec fn bucket_start(t: Timestamp, interval: int) -> int {
    t.secs - truncated_rem(t.secs as int, interval)
}

/// A candle opened by `rate` at `start`.
pub open spec fn opened_candle(rate: ParsedRate, start: int, interval: int) -> Candle {
    Candle {
        open: rate,
        high: rate,
        low: rate,
        close: rate,
        start_timestamp: Timestamp { secs: start as i64, nanos: 0 },
        end_timestamp: Timestamp { secs: (start + interval) as i64, nanos: 0 },
    }
}

/// `c` after one more rate of its interval: the rate is the close, and becomes the
/// high (low) when it is strictly above (below) it.
pub open spec fn extended_candle(c: Candle, rate: ParsedRate) -> Candle {
    Candle {
        high: if rate_above(rate, c.high) { rate } else { c.high },
        low: if rate_below(rate, c.low) { rate } else { c.low },
        close: rate,
        ..c
    }
}

/// The finished candles and the candle still open after reading `samples` in order.
pub open spec fn candle_run(samples: Seq<RateSample>, interval: int) -> (Seq<Candle>, Option<Candle>)
    decreases samples.len(),
{
    if samples.len() == 0 {
        (Seq::empty(), None)
    } else {
        let run = candle_run(samples.drop_last(), interval);
        let s = samples.last();
        if s.rate is Invalid {
            run
        } else {
            let start = bucket_start(s.timestamp, interval);
            match run.1 {
                Some(c) => if c.start_timestamp.secs == start {
                    (run.0, Some(extended_candle(c, s.rate)))
                } else {
                    (run.0.push(c), Some(opened_candle(s.rate, start, interval)))
                },
                None => (run.0, Some(opened_candle(s.rate, start, interval))),
            }
        }
    }
}

/// The candles of `samples` read in order: consecutive rates of the same interval
/// share a candle; rates that are not numbers at all are left out.
pub open spec fn candles_of(samples: Seq<RateSample>, interval: int) -> Seq<Candle> {
    run_candles(candle_run(samples, interval))
}

/// All candles of a run: the finished ones, then the open one.
pub open spec fn run_candles(run: (Seq<Candle>, Option<Candle>)) -> Seq<Candle> {
    match run.1 {
        Some(c) => run.0.push(c),
        None => run.0,
    }
}

/// Every candle the samples open ends within the range of `chrono`.
pub open spec fn candles_fit(samples: Seq<RateSample>, interval: int) -> bool {
    forall|i: int| 0 <= i < samples.len() && !(samples[i].rate is Invalid) ==>
        bucket_start(#[trigger] samples[i].timestamp, interval) + interval <= MAX_UTC_SECS
}

/// Every sample lies in the range of `chrono`.
pub open spec fn samples_valid(samples: Seq<RateSample>) -> bool {
    forall|i: int| 0 <= i < samples.len() ==> (#[trigger] samples[i]).timestamp.is_valid()
}

/// The samples are in chronological order.
pub open spec fn is_chronological(samples: Seq<RateSample>) -> bool {
    forall|i: int, j: int| 0 <= i < j < samples.len() ==> (#[trigger] samples[i]).timestamp.not_after((#[trigger] samples[j]).timestamp)
}

/// Whether a sample was published at `t`.
pub open spec fn published_at(t: Timestamp) -> spec_fn(RateSample) -> bool {
    |s: RateSample| s.timestamp == t
}

/// `after` is `before` sorted stably by instant: chronological, and the samples of
/// each instant in the order they had.
pub open spec fn is_stable_sort(before: Seq<RateSample>, after: Seq<RateSample>) -> bool {
    &&& is_chronological(after)
    &&& forall|t: Timestamp| #[trigger] after.filter(published_at(t)) == before.filter(published_at(t))
}

/// The start of the interval holding `a` is a whole number of intervals, holds
/// `a` (from below for instants after 1970, from above before), and does not
/// decrease as `a` grows.
proof fn lemma_bucket_shape(a: int, interval: int)
    requires
        interval > 0,
    ensures
        a >= 0 ==> 0 <= a - truncated_rem(a, interval) <= a < a - truncated_rem(a, interval) + interval,
        a < 0 ==> a - truncated_rem(a, interval) - interval < a <= a - truncated_rem(a, interval) <= 0,
        exists|q: int| a - truncated_rem(a, interval) == #[trigger] (q * interval),
{
    if a >= 0 {
        let q = a / interval;
        assert(a == q * interval + a % interval) by (nonlinear_arith)
            requires interval > 0, q == a / interval;
        assert(a - truncated_rem(a, interval) == q * interval);
    } else {
        let q = (-a) / interval;
        assert(-a == q * interval + (-a) % interval) by (nonlinear_arith)
            requires interval > 0, q == (-a) / interval;
        assert((-q) * interval == -(q * interval)) by (nonlinear_arith);
        assert(a - truncated_rem(a, interval) == (-q) * interval);
    }
}

/// Interval starts do not decrease as time goes on.
proof fn lemma_bucket_monotone(a: int, b: int, interval: int)
    requires
        interval > 0,
        a <= b,
    ensures
        a - truncated_rem(a, interval) <= b - truncated_rem(b, interval),
{
    lemma_bucket_shape(a, interval);
    lemma_bucket_shape(b, interval);
    let fa = a - truncated_rem(a, interval);
    let fb = b - truncated_rem(b, interval);
    let qa = choose|q: int| fa == #[trigger] (q * interval);
    let qb = choose|q: int| fb == #[trigger] (q * interval);
    if fa > fb {
        assert(qa > qb) by (nonlinear_arith)
            requires fa == qa * interval, fb == qb * interval, fa > fb, interval > 0;
        assert(fa >= fb + interval) by (nonlinear_arith)
            requires fa == qa * interval, fb == qb * interval, qa > qb, interval > 0;
    }
}

/// Interval starts nest: where a coarser interval is a whole number of finer
/// ones, the coarser interval holding an instant is the one holding the start of
/// its finer interval (for instants before 1970 too).
proof fn lemma_bucket_nest(x: int, fine: int, coarse: int)
    requires
        fine > 0,
        coarse > 0,
        coarse % fine == 0,
    ensures
        ({
            let y = x - truncated_rem(x, fine);
            y - truncated_rem(y, coarse) == x - truncated_rem(x, coarse)
        }),
{
    if x >= 0 {
        lemma_bucket_nest_nonneg(x, fine, coarse);
    } else {
        let z = -x;
        lemma_bucket_nest_nonneg(z, fine, coarse);
        let yz = z - z % fine;
        assert(x - truncated_rem(x, fine) == -yz);
        if yz == 0 {
            assert(0int % coarse == 0) by (nonlinear_arith)
                requires coarse > 0;
            assert(z - z % coarse == 0);
        } else {
            assert(truncated_rem(-yz, coarse) == -(yz % coarse));
        }
    }
}

proof fn lemma_bucket_nest_nonneg(x: int, fine: int, coarse: int)
    requires
        x >= 0,
        fine > 0,
        coarse > 0,
        coarse % fine == 0,
    ensures
        (x - x % fine) - (x - x % fine) % coarse == x - x % coarse,
        x - x % fine >= 0,
{
    let k = coarse / fine;
    vstd::arithmetic::div_mod::lemma_fundamental_div_mod(coarse, fine);
    assert(coarse == fine * k);
    assert(k > 0) by (nonlinear_arith)
        requires coarse == fine * k, coarse > 0, fine > 0;
    let q = x / fine;
    vstd::arithmetic::div_mod::lemma_fundamental_div_mod(x, fine);
    let y = x - x % fine;
    assert(y == fine * q);
    assert(q >= 0) by (nonlinear_arith)
        requires x >= 0, fine > 0, q == x / fine;
    assert(y >= 0) by (nonlinear_arith)
        requires y == fine * q, q >= 0, fine > 0;
    assert(y == q * fine + 0) by (nonlinear_arith)
        requires y == fine * q;
    vstd::arithmetic::div_mod::lemma_fundamental_div_mod_converse(y, fine, q, 0);
    vstd::arithmetic::div_mod::lemma_mod_breakdown(x, fine, k);
    vstd::arithmetic::div_mod::lemma_mod_breakdown(y, fine, k);
}

/// Whether a sample holds a rate (even one that is not a number).
pub open spec fn has_rate(s: RateSample) -> bool {
    !(s.rate is Invalid)
}

/// `has_rate` as a predicate.
pub open spec fn rated() -> spec_fn(RateSample) -> bool {
    |s: RateSample| has_rate(s)
}

/// The shape of the candles read so far: each lasts exactly one interval from a
/// whole second; the finished ones start in strictly increasing order and before
/// the open one, and there are no more candles than samples with a rate.
pub open spec fn run_well_shaped(run: (Seq<Candle>, Option<Candle>), samples: Seq<RateSample>, interval: int) -> bool {
    &&& forall|i: int| 0 <= i < run_candles(run).len() ==> {
        &&& (#[trigger] run_candles(run)[i]).end_timestamp.secs == run_candles(run)[i].start_timestamp.secs + interval
        &&& run_candles(run)[i].start_timestamp.nanos == 0
        &&& run_candles(run)[i].end_timestamp.nanos == 0
    }
    &&& forall|i: int, j: int| 0 <= i < j < run_candles(run).len() ==>
        (#[trigger] run_candles(run)[i]).start_timestamp.secs < (#[trigger] run_candles(run)[j]).start_timestamp.secs
    &&& run_candles(run).len() <= samples.filter(rated()).len()
    &&& (run.1 is None <==> samples.filter(rated()).len() == 0)
    &&& run.1 matches Some(c) ==> forall|i: int| 0 <= i < samples.len() && has_rate(#[trigger] samples[i])
        ==> bucket_start(samples[i].timestamp, interval) <= c.start_timestamp.secs
    &&& run.1 matches Some(c) ==> exists|i: int| 0 <= i < samples.len() && has_rate(#[trigger] samples[i])
        && bucket_start(samples[i].timestamp, interval) == c.start_timestamp.secs
}

proof fn lemma_candle_run_shape(samples: Seq<RateSample>, interval: int)
    requires
        samples_valid(samples),
        candles_fit(samples, interval),
        is_chronological(samples),
        interval >= 3600,
    ensures
        run_well_shaped(candle_run(samples, interval), samples, interval),
    decreases samples.len(),
{
    let has = rated();
    if samples.len() == 0 {
        reveal(Seq::filter);
    } else {
        let rest = samples.drop_last();
        let last = samples.last();
        assert(samples_valid(rest));
        assert(candles_fit(rest, interval)) by {
            assert forall|i: int| 0 <= i < rest.len() && !(rest[i].rate is Invalid) implies
                bucket_start(#[trigger] rest[i].timestamp, interval) + interval <= MAX_UTC_SECS by {
                assert(rest[i] == samples[i]);
            }
        }
        assert(is_chronological(rest)) by {
            assert forall|i: int, j: int| 0 <= i < j < rest.len() implies (#[trigger] rest[i]).timestamp.not_after((#[trigger] rest[j]).timestamp) by {
                assert(rest[i] == samples[i] && rest[j] == samples[j]);
            }
        }
        lemma_candle_run_shape(rest, interval);
        assert(rest.push(last) =~= samples);
        rest.lemma_filter_push(last, has);
        let run = candle_run(rest, interval);
        if has_rate(last) {
            let n = samples.len() - 1;
            assert(samples[n] == last);
            let start = bucket_start(last.timestamp, interval);
            lemma_bucket_shape(last.timestamp.secs as int, interval);
            assert(start + interval <= MAX_UTC_SECS);
            assert forall|i: int| 0 <= i < samples.len() && has_rate(#[trigger] samples[i])
                implies bucket_start(samples[i].timestamp, interval) <= start by {
                if i < n {
                    assert(samples[i].timestamp.not_after(samples[n].timestamp));
                    lemma_bucket_monotone(samples[i].timestamp.secs as int, last.timestamp.secs as int, interval);
                }
            }
            let all0 = run_candles(run);
            let new_run = candle_run(samples, interval);
            let all1 = run_candles(new_run);
            let fresh = opened_candle(last.rate, start, interval);
            assert(fresh.end_timestamp.secs == fresh.start_timestamp.secs + interval);
            match run.1 {
                Some(c) => {
                    if c.start_timestamp.secs == start {
                        let c2 = extended_candle(c, last.rate);
                        assert(all1 =~= all0.update(all0.len() - 1, c2));
                        assert(all0[all0.len() - 1] == c);
                        assert forall|i: int| 0 <= i < all1.len() implies {
                            &&& (#[trigger] all1[i]).end_timestamp.secs == all1[i].start_timestamp.secs + interval
                            &&& all1[i].start_timestamp.nanos == 0
                            &&& all1[i].end_timestamp.nanos == 0
                        } by {
                            assert(all0[i].end_timestamp.secs == all0[i].start_timestamp.secs + interval);
                        }
                        assert forall|i: int, j: int| 0 <= i < j < all1.len() implies
                            (#[trigger] all1[i]).start_timestamp.secs < (#[trigger] all1[j]).start_timestamp.secs by {
                            assert(all0[i].start_timestamp.secs < all0[j].start_timestamp.secs);
                        }
                    } else {
                        let k = choose|k: int| 0 <= k < rest.len() && has_rate(#[trigger] rest[k])
                            && bucket_start(rest[k].timestamp, interval) == c.start_timestamp.secs;
                        assert(rest[k] == samples[k]);
                        assert(samples[k].timestamp.not_after(samples[n].timestamp));
                        lemma_bucket_monotone(samples[k].timestamp.secs as int, last.timestamp.secs as int, interval);
                        assert(c.start_timestamp.secs < start);
                        assert(all1 =~= all0.push(fresh));
                        assert(all0[all0.len() - 1] == c);
                        assert forall|i: int| 0 <= i < all1.len() implies {
                            &&& (#[trigger] all1[i]).end_timestamp.secs == all1[i].start_timestamp.secs + interval
                            &&& all1[i].start_timestamp.nanos == 0
                            &&& all1[i].end_timestamp.nanos == 0
                        } by {
                            if i < all0.len() {
                                assert(all0[i].end_timestamp.secs == all0[i].start_timestamp.secs + interval);
                            }
                        }
                        assert forall|i: int, j: int| 0 <= i < j < all1.len() implies
                            (#[trigger] all1[i]).start_timestamp.secs < (#[trigger] all1[j]).start_timestamp.secs by {
                            if j < all0.len() {
                                assert(all0[i].start_timestamp.secs < all0[j].start_timestamp.secs);
                            } else if i < all0.len() - 1 {
                                assert(all0[i].start_timestamp.secs < all0[all0.len() - 1].start_timestamp.secs);
                            }
                        }
                    }
                },
                None => {
                    assert(all0.len() == 0);
                    assert(all1 =~= all0.push(fresh));
                },
            }
            assert(exists|i: int| 0 <= i < samples.len() && has_rate(#[trigger] samples[i])
                && bucket_start(samples[i].timestamp, interval) == start) by {
                assert(has_rate(samples[n]));
            }
        } else {
            assert forall|i: int| 0 <= i < samples.len() && has_rate(#[trigger] samples[i])
                implies (run.1 matches Some(c) ==> bucket_start(samples[i].timestamp, interval) <= c.start_timestamp.secs) by {
                if i < samples.len() - 1 {
                    assert(samples[i] == rest[i]);
                }
            }
            if let Some(c) = run.1 {
                let k = choose|k: int| 0 <= k < rest.len() && has_rate(#[trigger] rest[k])
                    && bucket_start(rest[k].timestamp, interval) == c.start_timestamp.secs;
                assert(rest[k] == samples[k]);
            }
        }
    }
}

/// For samples in chronological order, every candle lasts exactly one interval
/// from a whole second, the candles come in strictly increasing order of their
/// start, and there are no more candles than samples with a rate.
pub proof fn law_candles_ordered(samples: Seq<RateSample>, interval_hours: i64)
    requires
        interval_hours <= MAX_INTERVAL_HOURS,
        samples_valid(samples),
        candles_fit(samples, interval_secs(interval_hours)),
        is_chronological(samples),
    ensures
        ({
            let candles = candles_of(samples, interval_secs(interval_hours));
            &&& forall|i: int| 0 <= i < candles.len() ==>
                (#[trigger] candles[i]).end_timestamp.secs == candles[i].start_timestamp.secs + interval_secs(interval_hours)
                && candles[i].start_timestamp.nanos == 0 && candles[i].end_timestamp.nanos == 0
            &&& interval_hours >= 1 ==> forall|i: int| 0 <= i < candles.len() ==>
                (#[trigger] candles[i]).end_timestamp.secs - candles[i].start_timestamp.secs == 3600 * interval_hours
            &&& forall|i: int, j: int| 0 <= i < j < candles.len() ==>
                (#[trigger] candles[i]).start_timestamp.secs < (#[trigger] candles[j]).start_timestamp.secs
            &&& candles.len() <= samples.filter(rated()).len()
        }),
{
    lemma_candle_run_shape(samples, interval_secs(interval_hours));
}

/// Whether a sample holds a rate published in the interval of length `interval`
/// that starts at `start`.
pub open spec fn in_interval(start: int, interval: int) -> spec_fn(RateSample) -> bool {
    |s: RateSample| has_rate(s) && bucket_start(s.timestamp, interval) == start
}

/// `c` is the candle of the samples `group`, taken in order: it opens at the
/// first rate and closes at the last; its high is one of the rates and none is
/// above it, its low is one of the rates and none is below it.
pub open spec fn candle_of_group(c: Candle, group: Seq<RateSample>) -> bool {
    &&& group.len() > 0
    &&& c.open == group[0].rate
    &&& c.close == group.last().rate
    &&& exists|j: int| 0 <= j < group.len() && (#[trigger] group[j]).rate == c.high
    &&& forall|j: int| 0 <= j < group.len() ==> !rate_above((#[trigger] group[j]).rate, c.high)
    &&& exists|j: int| 0 <= j < group.len() && (#[trigger] group[j]).rate == c.low
    &&& forall|j: int| 0 <= j < group.len() ==> !rate_below((#[trigger] group[j]).rate, c.low)
}

/// A candle extended by one more rate is the candle of its group and that rate.
proof fn lemma_extended_group(c: Candle, group: Seq<RateSample>, x: RateSample)
    requires
        candle_of_group(c, group),
        has_rate(x),
    ensures
        candle_of_group(extended_candle(c, x.rate), group.push(x)),
{
    let g = group.push(x);
    let e = extended_candle(c, x.rate);
    let n = group.len() as int;
    assert(g[0] == group[0]);
    assert(g[n] == x);
    let jh = choose|j: int| 0 <= j < group.len() && (#[trigger] group[j]).rate == c.high;
    let jl = choose|j: int| 0 <= j < group.len() && (#[trigger] group[j]).rate == c.low;
    if rate_above(x.rate, c.high) {
        assert(g[n].rate == e.high);
    } else {
        assert(g[jh].rate == e.high);
    }
    if rate_below(x.rate, c.low) {
        assert(g[n].rate == e.low);
    } else {
        assert(g[jl].rate == e.low);
    }
    assert forall|j: int| 0 <= j < g.len() implies !rate_above((#[trigger] g[j]).rate, e.high) && !rate_below(g[j].rate, e.low) by {
        if j < n {
            assert(g[j] == group[j]);
            assert(!rate_above(group[j].rate, c.high));
            assert(!rate_below(group[j].rate, c.low));
        }
    }
}

/// What `candle_run` builds, said directly: for samples in chronological order,
/// every candle is the candle of the rated samples of its interval, and every
/// rated sample lies in the interval of some candle.
proof fn lemma_candle_run_groups(samples: Seq<RateSample>, interval: int)
    requires
        samples_valid(samples),
        candles_fit(samples, interval),
        is_chronological(samples),
        interval >= 3600,
    ensures
        forall|k: int| 0 <= k < run_candles(candle_run(samples, interval)).len() ==> candle_of_group(
            #[trigger] run_candles(candle_run(samples, interval))[k],
            samples.filter(in_interval(run_candles(candle_run(samples, interval))[k].start_timestamp.secs as int, interval)),
        ),
        forall|i: int| 0 <= i < samples.len() && has_rate(#[trigger] samples[i]) ==> exists|k: int|
            0 <= k < run_candles(candle_run(samples, interval)).len()
            && (#[trigger] run_candles(candle_run(samples, interval))[k]).start_timestamp.secs == bucket_start(samples[i].timestamp, interval),
    decreases samples.len(),
{
    broadcast use vstd::seq_lib::group_filter_ensures;
    if samples.len() > 0 {
        let rest = samples.drop_last();
        let x = samples.last();
        let n = samples.len() - 1;
        assert(samples[n] == x);
        assert(rest.push(x) =~= samples);
        assert(samples_valid(rest));
        assert(candles_fit(rest, interval)) by {
            assert forall|i: int| 0 <= i < rest.len() && !(rest[i].rate is Invalid) implies
                bucket_start(#[trigger] rest[i].timestamp, interval) + interval <= MAX_UTC_SECS by {
                assert(rest[i] == samples[i]);
            }
        }
        assert(is_chronological(rest)) by {
            assert forall|i: int, j: int| 0 <= i < j < rest.len() implies (#[trigger] rest[i]).timestamp.not_after((#[trigger] rest[j]).timestamp) by {
                assert(rest[i] == samples[i] && rest[j] == samples[j]);
            }
        }
        lemma_candle_run_groups(rest, interval);
        lemma_candle_run_shape(rest, interval);
        let run = candle_run(rest, interval);
        let all0 = run_candles(run);
        let all1 = run_candles(candle_run(samples, interval));
        if !has_rate(x) {
            assert(all1 == all0);
            assert forall|k: int| 0 <= k < all1.len() implies candle_of_group(
                #[trigger] all1[k], samples.filter(in_interval(all1[k].start_timestamp.secs as int, interval))) by {
                rest.lemma_filter_push(x, in_interval(all1[k].start_timestamp.secs as int, interval));
            }
            assert forall|i: int| 0 <= i < samples.len() && has_rate(#[trigger] samples[i]) implies exists|k: int|
                0 <= k < all1.len() && (#[trigger] all1[k]).start_timestamp.secs == bucket_start(samples[i].timestamp, interval) by {
                assert(samples[i] == rest[i]);
            }
        } else {
            let b = bucket_start(x.timestamp, interval);
            lemma_bucket_shape(x.timestamp.secs as int, interval);
            assert((b as i64) as int == b);
            let extend = run.1 matches Some(c) && c.start_timestamp.secs == b;
            if extend {
                let c = run.1->0;
                let last = all0.len() - 1;
                assert(all0[last] == c);
                assert(all1 =~= all0.update(last, extended_candle(c, x.rate)));
                assert forall|k: int| 0 <= k < all1.len() implies candle_of_group(
                    #[trigger] all1[k], samples.filter(in_interval(all1[k].start_timestamp.secs as int, interval))) by {
                    let p = in_interval(all1[k].start_timestamp.secs as int, interval);
                    rest.lemma_filter_push(x, p);
                    if k == last {
                        assert(candle_of_group(all0[last], rest.filter(p)));
                        lemma_extended_group(c, rest.filter(p), x);
                    } else {
                        assert(all0[k].start_timestamp.secs < all0[last].start_timestamp.secs);
                        assert(all1[k] == all0[k]);
                    }
                }
            } else {
                let fresh = opened_candle(x.rate, b, interval);
                assert(all1 =~= all0.push(fresh));
                // No earlier rated sample lies in the new candle's interval.
                assert forall|i: int| 0 <= i < rest.len() && has_rate(#[trigger] rest[i]) implies
                    bucket_start(rest[i].timestamp, interval) < b by {
                    assert(rest[i] == samples[i]);
                    assert(samples[i].timestamp.not_after(samples[n].timestamp));
                    lemma_bucket_monotone(samples[i].timestamp.secs as int, x.timestamp.secs as int, interval);
                    if let Some(c) = run.1 {
                        let w = choose|w: int| 0 <= w < rest.len() && has_rate(#[trigger] rest[w])
                            && bucket_start(rest[w].timestamp, interval) == c.start_timestamp.secs;
                        assert(rest[w] == samples[w]);
                        assert(samples[w].timestamp.not_after(samples[n].timestamp));
                        lemma_bucket_monotone(samples[w].timestamp.secs as int, x.timestamp.secs as int, interval);
                    } else {
                        let k = choose|k: int| 0 <= k < all0.len()
                            && (#[trigger] all0[k]).start_timestamp.secs == bucket_start(rest[i].timestamp, interval);
                        assert(all0.len() <= rest.filter(rated()).len());
                    }
                }
                let pb = in_interval(b, interval);
                assert(rest.filter(pb).len() == 0) by {
                    if rest.filter(pb).len() > 0 {
                        let e = rest.filter(pb)[0];
                        assert(pb(e));
                        rest.lemma_filter_contains_rev(pb, e);
                        let i = choose|i: int| 0 <= i < rest.len() && rest[i] == e;
                        assert(has_rate(rest[i]));
                    }
                }
                assert forall|k: int| 0 <= k < all1.len() implies candle_of_group(
                    #[trigger] all1[k], samples.filter(in_interval(all1[k].start_timestamp.secs as int, interval))) by {
                    let p = in_interval(all1[k].start_timestamp.secs as int, interval);
                    rest.lemma_filter_push(x, p);
                    if k == all0.len() {
                        assert(rest.filter(p) =~= Seq::<RateSample>::empty());
                        assert(samples.filter(p) =~= seq![x]);
                    } else {
                        assert(all1[k] == all0[k]);
                        let g = rest.filter(p);
                        assert(candle_of_group(all0[k], g));
                        let w = g[0];
                        assert(p(w));
                        rest.lemma_filter_contains_rev(p, w);
                        let i = choose|i: int| 0 <= i < rest.len() && rest[i] == w;
                        assert(has_rate(rest[i]));
                        assert(!p(x));
                    }
                }
            }
            assert forall|i: int| 0 <= i < samples.len() && has_rate(#[trigger] samples[i]) implies exists|k: int|
                0 <= k < all1.len() && (#[trigger] all1[k]).start_timestamp.secs == bucket_start(samples[i].timestamp, interval) by {
                if i < n {
                    assert(samples[i] == rest[i]);
                    let k = choose|k: int| 0 <= k < all0.len()
                        && (#[trigger] all0[k]).start_timestamp.secs == bucket_start(rest[i].timestamp, interval);
                    assert(all1[k].start_timestamp.secs == all0[k].start_timestamp.secs);
                } else {
                    assert(all1[all1.len() - 1].start_timestamp.secs == b);
                }
            }
        }
    }
}

/// For samples in chronological order, each candle is the candle of the rated
/// samples of its interval: it opens at the first of them and closes at the last,
/// its high is one of their rates with none above it, and its low is one of their
/// rates with none below it. Every rated sample lies in the interval of a candle.
pub proof fn law_candles_are_interval_groups(samples: Seq<RateSample>, interval_hours: i64)
    requires
        interval_hours <= MAX_INTERVAL_HOURS,
        samples_valid(samples),
        candles_fit(samples, interval_secs(interval_hours)),
        is_chronological(samples),
    ensures
        ({
            let interval = interval_secs(interval_hours);
            let candles = candles_of(samples, interval);
            &&& forall|k: int| 0 <= k < candles.len() ==> candle_of_group(
                #[trigger] candles[k],
                samples.filter(in_interval(candles[k].start_timestamp.secs as int, interval)),
            )
            &&& forall|i: int| 0 <= i < samples.len() && has_rate(#[trigger] samples[i]) ==> exists|k: int|
                0 <= k < candles.len()
                && (#[trigger] candles[k]).start_timestamp.secs == bucket_start(samples[i].timestamp, interval)
        }),
{
    lemma_candle_run_groups(samples, interval_secs(interval_hours));
}

/// The last sample of a non-empty chronological sequence is the last one of its instant.
proof fn lemma_last_of_instant(s: Seq<RateSample>)
    requires
        s.len() > 0,
    ensures
        s.filter(published_at(s.last().timestamp)) == s.drop_last().filter(published_at(s.last().timestamp)).push(s.last()),
{
    assert(s.drop_last().push(s.last()) =~= s);
    s.drop_last().lemma_filter_push(s.last(), published_at(s.last().timestamp));
}

/// A sequence sorted stably by instant is determined by what it sorts: two
/// stable sorts of the same samples are equal.
pub proof fn law_stable_sort_is_unique(before: Seq<RateSample>, a: Seq<RateSample>, b: Seq<RateSample>)
    requires
        is_stable_sort(before, a),
        is_stable_sort(before, b),
    ensures
        a == b,
    decreases a.len() + b.len(),
{
    broadcast use vstd::seq_lib::group_filter_ensures;
    if a.len() == 0 && b.len() == 0 {
        assert(a =~= b);
    } else if a.len() == 0 || b.len() == 0 {
        let (e, other, full) = if a.len() == 0 { (b.last(), a, b) } else { (a.last(), b, a) };
        full.lemma_filter_contains(published_at(e.timestamp), full.len() - 1);
        assert(full.filter(published_at(e.timestamp)) == before.filter(published_at(e.timestamp)));
        assert(other.filter(published_at(e.timestamp)) == before.filter(published_at(e.timestamp)));
        reveal(Seq::filter);
        assert(other.filter(published_at(e.timestamp)).len() == 0);
    } else {
        let ta = a.last().timestamp;
        let tb = b.last().timestamp;
        a.lemma_filter_contains(published_at(ta), a.len() - 1);
        b.lemma_filter_contains(published_at(tb), b.len() - 1);
        assert(a.filter(published_at(ta)) == before.filter(published_at(ta)));
        assert(b.filter(published_at(ta)) == before.filter(published_at(ta)));
        assert(a.filter(published_at(tb)) == before.filter(published_at(tb)));
        assert(b.filter(published_at(tb)) == before.filter(published_at(tb)));
        b.lemma_filter_contains_rev(published_at(ta), a.last());
        a.lemma_filter_contains_rev(published_at(tb), b.last());
        let ib = choose|i: int| 0 <= i < b.len() && b[i] == a.last();
        let ia = choose|i: int| 0 <= i < a.len() && a[i] == b.last();
        if ib < b.len() - 1 {
            assert(b[ib].timestamp.not_after(b[b.len() - 1].timestamp));
        }
        if ia < a.len() - 1 {
            assert(a[ia].timestamp.not_after(a[a.len() - 1].timestamp));
        }
        assert(ta == tb);
        lemma_last_of_instant(a);
        lemma_last_of_instant(b);
        assert(a.last() == a.filter(published_at(ta)).last());
        assert(b.last() == b.filter(published_at(ta)).last());
        assert(a.last() == b.last());
        let a2 = a.drop_last();
        let b2 = b.drop_last();
        assert forall|t: Timestamp| #[trigger] a2.filter(published_at(t)) == b2.filter(published_at(t)) by {
            assert(a2.push(a.last()) =~= a);
            assert(b2.push(b.last()) =~= b);
            a2.lemma_filter_push(a.last(), published_at(t));
            b2.lemma_filter_push(b.last(), published_at(t));
            assert(a.filter(published_at(t)) == before.filter(published_at(t)));
            assert(b.filter(published_at(t)) == before.filter(published_at(t)));
            if published_at(t)(a.last()) {
                assert(a2.filter(published_at(t)) =~= a.filter(published_at(t)).drop_last());
                assert(b2.filter(published_at(t)) =~= b.filter(published_at(t)).drop_last());
            }
        }
        assert(is_chronological(a2)) by {
            assert forall|i: int, j: int| 0 <= i < j < a2.len() implies (#[trigger] a2[i]).timestamp.not_after((#[trigger] a2[j]).timestamp) by {
                assert(a2[i] == a[i] && a2[j] == a[j]);
            }
        }
        assert(is_chronological(b2)) by {
            assert forall|i: int, j: int| 0 <= i < j < b2.len() implies (#[trigger] b2[i]).timestamp.not_after((#[trigger] b2[j]).timestamp) by {
                assert(b2[i] == b[i] && b2[j] == b[j]);
            }
        }
        assert(is_stable_sort(a2, a2)) by {
            assert(is_chronological(a2));
        }
        assert(is_stable_sort(a2, b2));
        law_stable_sort_is_unique(a2, a2, b2);
        assert(a =~= b) by {
            assert(a2.push(a.last()) =~= a);
            assert(b2.push(b.last()) =~= b);
        }
    }
}

/// The last sample that holds a rate, if any.
pub open spec fn last_rated(samples: Seq<RateSample>) -> Option<RateSample>
    decreases samples.len(),
{
    if samples.len() == 0 {
        None
    } else if has_rate(samples.last()) {
        Some(samples.last())
    } else {
        last_rated(samples.drop_last())
    }
}

/// The latest candle holds the latest rate: it closes at that rate and starts
/// where that rate's interval starts; without any rate there are no candles.
pub proof fn law_latest_candle_closes_at_latest_rate(samples: Seq<RateSample>, interval: int)
    ensures
        match last_rated(samples) {
            Some(s) => {
                &&& candles_of(samples, interval).len() > 0
                &&& candles_of(samples, interval).last().close == s.rate
                &&& candles_of(samples, interval).last().start_timestamp.secs == (bucket_start(s.timestamp, interval) as i64)
            },
            None => candles_of(samples, interval).len() == 0,
        },
    decreases samples.len(),
{
    if samples.len() > 0 {
        law_latest_candle_closes_at_latest_rate(samples.drop_last(), interval);
    }
}

/// Every sample that holds a rate holds a number.
pub open spec fn numbers_only(samples: Seq<RateSample>) -> bool {
    forall|i: int| 0 <= i < samples.len() ==> !((#[trigger] samples[i]).rate is NotANumber)
}

/// The candle's high and low are numbers.
pub open spec fn numeric_candle(c: Candle) -> bool {
    c.high is Value && c.low is Value
}

/// The candle `c` of a finer interval, moved to the coarser interval of length
/// `interval` that starts at `start`.
pub open spec fn widened_candle(c: Candle, start: int, interval: int) -> Candle {
    Candle {
        start_timestamp: Timestamp { secs: start as i64, nanos: 0 },
        end_timestamp: Timestamp { secs: (start + interval) as i64, nanos: 0 },
        ..c
    }
}

/// The candle `m` joined by a later candle `c` of the same coarser interval: the
/// open and the interval of `m`, the higher high, the lower low, the close of `c`.
pub open spec fn joined_candle(m: Candle, c: Candle) -> Candle {
    Candle {
        high: if rate_above(c.high, m.high) { c.high } else { m.high },
        low: if rate_below(c.low, m.low) { c.low } else { m.low },
        close: c.close,
        ..m
    }
}

/// The merged candles so far, after one more finer candle `c`: it joins the open
/// merged candle when both lie in the same coarser interval, and starts a new one
/// otherwise.
pub open spec fn merge_step(run: (Seq<Candle>, Option<Candle>), c: Candle, interval: int) -> (Seq<Candle>, Option<Candle>) {
    let start = bucket_start(c.start_timestamp, interval);
    match run.1 {
        Some(m) => if m.start_timestamp.secs == start {
            (run.0, Some(joined_candle(m, c)))
        } else {
            (run.0.push(m), Some(widened_candle(c, start, interval)))
        },
        None => (run.0, Some(widened_candle(c, start, interval))),
    }
}

/// The finished and the open merged candles after reading `candles` in order.
pub open spec fn merge_run(candles: Seq<Candle>, interval: int) -> (Seq<Candle>, Option<Candle>)
    decreases candles.len(),
{
    if candles.len() == 0 {
        (Seq::empty(), None)
    } else {
        merge_step(merge_run(candles.drop_last(), interval), candles.last(), interval)
    }
}

/// `candles` merged into intervals of length `interval`: each run of consecutive
/// candles lying in one such interval becomes one candle with the first open, the
/// highest high, the lowest low and the last close.
pub open spec fn merged_candles(candles: Seq<Candle>, interval: int) -> Seq<Candle> {
    run_candles(merge_run(candles, interval))
}

/// Without rates that are not numbers, every candle has a number as its high and low.
proof fn lemma_run_numeric(samples: Seq<RateSample>, interval: int)
    requires
        numbers_only(samples),
    ensures
        forall|i: int| 0 <= i < run_candles(candle_run(samples, interval)).len()
            ==> numeric_candle(#[trigger] run_candles(candle_run(samples, interval))[i]),
    decreases samples.len(),
{
    if samples.len() > 0 {
        let rest = samples.drop_last();
        assert(numbers_only(rest)) by {
            assert forall|i: int| 0 <= i < rest.len() implies !((#[trigger] rest[i]).rate is NotANumber) by {
                assert(rest[i] == samples[i]);
            }
        }
        lemma_run_numeric(rest, interval);
        let x = samples.last();
        assert(!(samples[samples.len() - 1].rate is NotANumber));
        let run = candle_run(rest, interval);
        let all0 = run_candles(run);
        let all1 = run_candles(candle_run(samples, interval));
        if has_rate(x) {
            let start = bucket_start(x.timestamp, interval);
            let fresh = opened_candle(x.rate, start, interval);
            match run.1 {
                Some(c) => {
                    assert(all0[all0.len() - 1] == c);
                    assert(numeric_candle(all0[all0.len() - 1]));
                    if c.start_timestamp.secs == start {
                        assert(all1 =~= all0.update(all0.len() - 1, extended_candle(c, x.rate)));
                    } else {
                        assert(all1 =~= all0.push(fresh));
                    }
                },
                None => {
                    assert(all1 =~= all0.push(fresh));
                },
            }
            assert forall|i: int| 0 <= i < all1.len() implies numeric_candle(#[trigger] all1[i]) by {
                if i < all0.len() {
                    assert(numeric_candle(all0[i]));
                }
            }
        }
    }
}

/// Reading samples into coarser candles keeps pace with reading them into finer
/// candles and merging those: the coarser run is the merge of the finished finer
/// candles followed by the open finer candle.
proof fn lemma_coarse_run(samples: Seq<RateSample>, fine: int, coarse: int)
    requires
        fine > 0,
        coarse > 0,
        coarse % fine == 0,
        numbers_only(samples),
    ensures
        match candle_run(samples, fine).1 {
            Some(f) => candle_run(samples, coarse) == merge_step(merge_run(candle_run(samples, fine).0, coarse), f, coarse),
            None => {
                &&& candle_run(samples, fine).0.len() == 0
                &&& candle_run(samples, coarse).0.len() == 0
                &&& candle_run(samples, coarse).1 is None
            },
        },
    decreases samples.len(),
{
    if samples.len() > 0 {
        let rest = samples.drop_last();
        assert(numbers_only(rest)) by {
            assert forall|i: int| 0 <= i < rest.len() implies !((#[trigger] rest[i]).rate is NotANumber) by {
                assert(rest[i] == samples[i]);
            }
        }
        lemma_coarse_run(rest, fine, coarse);
        lemma_run_numeric(rest, fine);
        lemma_run_numeric(rest, coarse);
        let x = samples.last();
        assert(!(samples[samples.len() - 1].rate is NotANumber));
        if has_rate(x) {
            let r = x.rate;
            assert(r is Value);
            let secs = x.timestamp.secs as int;
            let sa = bucket_start(x.timestamp, fine);
            let sb = bucket_start(x.timestamp, coarse);
            lemma_bucket_nest(secs, fine, coarse);
            lemma_bucket_shape(secs, fine);
            lemma_bucket_shape(secs, coarse);
            assert((sa as i64) as int == sa);
            assert(bucket_start(Timestamp { secs: sa as i64, nanos: 0 }, coarse) == sb);
            let fr = candle_run(rest, fine);
            let cr = candle_run(rest, coarse);
            let mr = merge_run(fr.0, coarse);
            match fr.1 {
                None => {
                    assert(fr.0 =~= Seq::<Candle>::empty());
                    assert(mr == (Seq::<Candle>::empty(), None::<Candle>));
                },
                Some(f) => {
                    let fa = run_candles(fr);
                    assert(fa[fa.len() - 1] == f);
                    assert(numeric_candle(fa[fa.len() - 1]));
                    let ca = run_candles(cr);
                    assert(ca[ca.len() - 1] == cr.1->0);
                    assert(numeric_candle(ca[ca.len() - 1]));
                    if f.start_timestamp.secs == sa {
                        assert(bucket_start(f.start_timestamp, coarse) == sb);
                    } else {
                        assert(fr.0.push(f).drop_last() =~= fr.0);
                    }
                },
            }
        }
    }
}

/// The candles of a coarser interval that is a whole number of finer intervals are
/// the finer candles merged: each run of finer candles within one coarser interval
/// becomes one candle with the first open, the highest high, the lowest low and
/// the last close. This holds when every rate is a number; a rate that is not a
/// number opens a finer candle whose high and low it then keeps, which the merge
/// cannot see past.
pub proof fn law_coarse_candles_merge_fine(samples: Seq<RateSample>, fine_hours: i64, coarse_hours: i64)
    requires
        interval_secs(coarse_hours) % interval_secs(fine_hours) == 0,
        numbers_only(samples),
    ensures
        candles_of(samples, interval_secs(coarse_hours))
            == merged_candles(candles_of(samples, interval_secs(fine_hours)), interval_secs(coarse_hours)),
{
    let fine = interval_secs(fine_hours);
    let coarse = interval_secs(coarse_hours);
    lemma_coarse_run(samples, fine, coarse);
    let fr = candle_run(samples, fine);
    match fr.1 {
        Some(f) => {
            assert(fr.0.push(f).drop_last() =~= fr.0);
        },
        None => {
            assert(fr.0 =~= Seq::<Candle>::empty());
        },
    }
}

/// An interval of an hour or less gives the candles of one hour: whichever stable
/// sorts of the same samples `get_candles` builds them from, the candles of a short
/// interval and those of one hour are the same.
pub proof fn law_short_intervals_are_hourly(
    samples: Seq<RateSample>,
    sorted_short: Seq<RateSample>,
    sorted_hourly: Seq<RateSample>,
    hours: i64,
)
    requires
        hours <= 1,
        is_stable_sort(samples, sorted_short),
        is_stable_sort(samples, sorted_hourly),
    ensures
        candles_of(sorted_short, interval_secs(hours)) == candles_of(sorted_hourly, interval_secs(1)),
{
    law_stable_sort_is_unique(samples, sorted_short, sorted_hourly);
}

/// The merge law for what `get_candles` returns: built from stable sorts of the
/// same samples, all of whose rates are numbers, the candles of a coarser interval
/// that is a whole number of finer intervals are the finer candles merged.
pub proof fn law_sorted_coarse_candles_merge_fine(
    samples: Seq<RateSample>,
    sorted_fine: Seq<RateSample>,
    sorted_coarse: Seq<RateSample>,
    fine_hours: i64,
    coarse_hours: i64,
)
    requires
        interval_secs(coarse_hours) % interval_secs(fine_hours) == 0,
        numbers_only(samples),
        is_stable_sort(samples, sorted_fine),
        is_stable_sort(samples, sorted_coarse),
    ensures
        candles_of(sorted_coarse, interval_secs(coarse_hours))
            == merged_candles(candles_of(sorted_fine, interval_secs(fine_hours)), interval_secs(coarse_hours)),
{
    law_stable_sort_is_unique(samples, sorted_fine, sorted_coarse);
    lemma_sorted_keeps_members(samples, sorted_fine);
    assert(numbers_only(sorted_fine)) by {
        assert forall|i: int| 0 <= i < sorted_fine.len() implies !((#[trigger] sorted_fine[i]).rate is NotANumber) by {
            let j = choose|j: int| 0 <= j < samples.len() && samples[j] == sorted_fine[i];
            assert(!(samples[j].rate is NotANumber));
        }
    }
    law_coarse_candles_merge_fine(sorted_fine, fine_hours, coarse_hours);
}

/// `slice::sort_by_key`, keyed by the instant as the pair (seconds, nanoseconds).
///
/// The contract claims what the standard library documents of this sort: the
/// result is in ascending order of the key, and the sort is stable.
#[verifier::external_body]
fn sort_by_instant(samples: &mut Vec<RateSample>)
    ensures
        is_stable_sort(old(samples)@, final(samples)@),
{
    samples.sort_by_key(|s| (s.timestamp.secs, s.timestamp.nanos));
}

/// Every sample of a stable sort is a sample of the sequence it sorted.
proof fn lemma_sorted_keeps_members(before: Seq<RateSample>, after: Seq<RateSample>)
    requires
        is_stable_sort(before, after),
    ensures
        forall|i: int| 0 <= i < after.len() ==> before.contains(#[trigger] after[i]),
{
    assert forall|i: int| 0 <= i < after.len() implies before.contains(#[trigger] after[i]) by {
        let t = after[i].timestamp;
        after.lemma_filter_contains(published_at(t), i);
        assert(after.filter(published_at(t)) == before.filter(published_at(t)));
        before.lemma_filter_contains_rev(published_at(t), after[i]);
    }
}

/// The whole second at which the candle of length `interval` holding an instant
/// with `secs` whole seconds starts.
pub fn bucket_start_secs(secs: i64, interval: i64) -> (start: i64)
    requires
        interval >= 1,
    ensures
        start == bucket_start(Timestamp { secs, nanos: 0 }, interval as int),
        secs >= 0 ==> 0 <= start <= secs,
        secs < 0 ==> secs <= start <= 0,
{
    proof {
        lemma_bucket_shape(secs as int, interval as int);
    }
    secs - secs % interval
}

/// The candles of samples already in chronological order, each `interval_hours`
/// long (at least one hour).
pub fn build_candles(samples: &Vec<RateSample>, interval_hours: i64) -> (candles: Vec<Candle>)
    requires
        interval_hours <= MAX_INTERVAL_HOURS,
        samples_valid(samples@),
        candles_fit(samples@, interval_secs(interval_hours)),
    ensures
        candles@ == candles_of(samples@, interval_secs(interval_hours)),
{
    let hours: i64 = if interval_hours < 1 { 1 } else { interval_hours };
    let interval: i64 = hours * 3600;
    let ghost iv = interval_secs(interval_hours);
    let mut candles: Vec<Candle> = Vec::new();
    let mut current: Option<Candle> = None;
    let n = samples.len();
    for i in 0..n
        invariant
            n == samples@.len(),
            interval == iv,
            iv >= 3600,
            iv <= MAX_INTERVAL_HOURS * 3600,
            samples_valid(samples@),
            candles_fit(samples@, iv),
            (candles@, current) == candle_run(samples@.take(i as int), iv),
    {
        let s = samples[i];
        proof {
            assert(samples@.take(i + 1).drop_last() =~= samples@.take(i as int));
            assert(samples@.take(i + 1).last() == s);
        }
        match s.rate {
            ParsedRate::Invalid => {},
            rate => {
                let start = bucket_start_secs(s.timestamp.secs, interval);
                proof {
                    assert(s.timestamp.is_valid());
                    assert(bucket_start(s.timestamp, iv) + iv <= MAX_UTC_SECS);
                }
                let open_new = match current {
                    Some(c) => c.start_timestamp.secs != start,
                    None => true,
                };
                if open_new {
                    if let Some(c) = current {
                        candles.push(c);
                    }
                    current = Some(Candle {
                        open: rate,
                        high: rate,
                        low: rate,
                        close: rate,
                        start_timestamp: Timestamp { secs: start, nanos: 0 },
                        end_timestamp: Timestamp { secs: start + interval, nanos: 0 },
                    });
                } else if let Some(c) = current {
                    let high = match (rate, c.high) {
                        (ParsedRate::Value(x), ParsedRate::Value(y)) => if x > y { rate } else { c.high },
                        _ => c.high,
                    };
                    let low = match (rate, c.low) {
                        (ParsedRate::Value(x), ParsedRate::Value(y)) => if x < y { rate } else { c.low },
                        _ => c.low,
                    };
                    current = Some(Candle { high, low, close: rate, ..c });
                }
            },
        }
    }
    assert(samples@.take(n as int) =~= samples@);
    if let Some(c) = current {
        candles.push(c);
    }
    candles
}

/// The candles of the samples, taken in chronological order (a stable sort by
/// instant), each `interval_hours` long (at least one hour).
pub fn get_candles(samples: Vec<RateSample>, interval_hours: i64) -> (candles: Vec<Candle>)
    requires
        interval_hours <= MAX_INTERVAL_HOURS,
        samples_valid(samples@),
        candles_fit(samples@, interval_secs(interval_hours)),
    ensures
        exists|sorted: Seq<RateSample>| #![auto]
            is_stable_sort(samples@, sorted) && candles@ == candles_of(sorted, interval_secs(interval_hours)),
{
    let mut sorted = samples;
    sort_by_instant(&mut sorted);
    proof {
        lemma_sorted_keeps_members(samples@, sorted@);
    }
    build_candles(&sorted, interval_hours)
}

} // verus!
