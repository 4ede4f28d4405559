//! Aggregation of prices from several oracle sources: stale and invalid
//! prices are dropped, outliers around the median are filtered out, and the
//! median of what remains is recorded in a rolling time-weighted average.

use vstd::prelude::*;
use vstd::relations::{sorted_by, total_ordering};

verus! {

broadcast use vstd::seq_lib::group_to_multiset_ensures, vstd::multiset::group_multiset_axioms;

/// Default rolling window for TWAP samples (1 hour).
pub const DEFAULT_TWAP_WINDOW_SECONDS: u64 = 3_600;
/// Reject prices that deviate by this many standard deviations from the median.
pub const STDDEV_MULTIPLIER: i128 = 2;
/// Secondary cap: reject prices that deviate more than 5% from the median.
pub const MAX_DEVIATION_PERCENT: i128 = 5;

#[derive(Copy, Clone, Debug, PartialEq, Eq, Structural)]
pub enum Error {
    NotEnoughSources,
    NotEnoughValidPrices,
    NotEnoughReliableSources,
    InvalidPrice,
    /// Fewer than three non-stale oracle records are available after applying
    /// the `max_age_seconds` threshold.
    OracleStaleness,
    /// `window_seconds` is zero during TWAP initialization.
    InvalidWindow,
    /// The contract traps here (the sum of the two middle prices overflows).
    Overflow,
}

impl Error {
    /// The contract error code (0 for a trap, which has none).
    pub fn code(&self) -> (r: u32)
        ensures
            r == match self {
                Error::NotEnoughSources => 1u32,
                Error::NotEnoughValidPrices => 2,
                Error::NotEnoughReliableSources => 3,
                Error::InvalidPrice => 4,
                Error::OracleStaleness => 5,
                Error::InvalidWindow => 6,
                Error::Overflow => 0,
            },
    {
        match self {
            Error::NotEnoughSources => 1,
            Error::NotEnoughValidPrices => 2,
            Error::NotEnoughReliableSources => 3,
            Error::InvalidPrice => 4,
            Error::OracleStaleness => 5,
            Error::InvalidWindow => 6,
            Error::Overflow => 0,
        }
    }
}

/// A price record returned by an oracle source, with the Unix timestamp
/// (seconds) of its last update.
#[derive(Copy, Clone, Debug, PartialEq, Eq, Structural)]
pub struct OracleRecord {
    pub price: i128,
    pub timestamp: u64,
}

/// A single aggregated price observation used by the rolling TWAP engine.
#[derive(Copy, Clone, Debug, PartialEq, Eq, Structural)]
pub struct TwapSample {
    pub price: i128,
    pub timestamp: u64,
}

pub open spec fn leq() -> spec_fn(i128, i128) -> bool {
    |x: i128, y: i128| x <= y
}

pub open spec fn ascending(s: Seq<i128>) -> bool {
    forall|i: int, j: int| 0 <= i < j < s.len() ==> s[i] <= s[j]
}

/// The prices in ascending order.
pub open spec fn sorted_spec(s: Seq<i128>) -> Seq<i128> {
    s.sort_by(leq())
}

proof fn lemma_sorted_is_sort(r: Seq<i128>, s: Seq<i128>)
    requires
        ascending(r),
        r.to_multiset() == s.to_multiset(),
    ensures
        r == sorted_spec(s),
        ascending(sorted_spec(s)),
{
    assert(total_ordering(leq()));
    s.lemma_sort_by_ensures(leq());
    assert(sorted_by(r, leq())) by {
        assert forall|i: int, j: int| 0 <= i < j < r.len() implies #[trigger] (leq())(r[i], r[j]) by {}
    }
    vstd::seq_lib::lemma_sorted_unique(r, s.sort_by(leq()), leq());
}

proof fn lemma_swap_multiset(s: Seq<i128>, j: int)
    requires
        0 <= j < s.len() - 1,
    ensures
        s.update(j, s[j + 1]).update(j + 1, s[j]).to_multiset() == s.to_multiset(),
{
    let a = s[j];
    let b = s[j + 1];
    let t = s.update(j, b);
    vstd::seq_lib::to_multiset_update(s, j, b);
    vstd::seq_lib::to_multiset_update(t, j + 1, a);
    assert(t[j + 1] == b);
    assert(s.to_multiset().insert(b).remove(a).insert(a).remove(b) =~= s.to_multiset());
}

/// Bubble sort, ascending.
pub fn sort_prices(prices: Vec<i128>) -> (r: Vec<i128>)
    ensures
        r@ == sorted_spec(prices@),
        ascending(r@),
        r@.to_multiset() == prices@.to_multiset(),
{
    let mut prices = prices;
    let ghost orig = prices@;
    let n = prices.len();
    let mut i: usize = 0;
    while i < n
        invariant
            n == prices.len(),
            i <= n,
            prices@.to_multiset() == orig.to_multiset(),
            // the last i elements are in place
            forall|a: int, b: int| n - i <= a < b < n ==> prices@[a] <= prices@[b],
            forall|a: int, b: int| 0 <= a < n - i && n - i <= b < n ==> prices@[a] <= prices@[b],
        decreases n - i,
    {
        let mut j: usize = 0;
        while j < n - i - 1
            invariant
                n == prices.len(),
                i < n,
                j <= n - i - 1,
                prices@.to_multiset() == orig.to_multiset(),
                forall|a: int, b: int| n - i <= a < b < n ==> prices@[a] <= prices@[b],
                forall|a: int, b: int| 0 <= a < n - i && n - i <= b < n ==> prices@[a] <= prices@[b],
                forall|a: int| 0 <= a <= j ==> prices@[a] <= prices@[j as int],
            decreases n - i - 1 - j,
        {
            let current = prices[j];
            let next = prices[j + 1];
            if current > next {
                proof {
                    lemma_swap_multiset(prices@, j as int);
                }
                prices.set(j, next);
                prices.set(j + 1, current);
            }
            j += 1;
        }
        i += 1;
    }
    proof {
        lemma_sorted_is_sort(prices@, orig);
    }
    prices
}

/// The middle price of an ascending list (the truncated mean of the two
/// middle prices when the length is even).
pub open spec fn median_spec(s: Seq<i128>) -> Result<i128, Error> {
    let mid = s.len() / 2;
    if s.len() % 2 == 1 {
        Ok(s[mid as int])
    } else if !(i128::MIN <= s[mid - 1] + s[mid as int] <= i128::MAX) {
        Err(Error::Overflow)
    } else {
        Ok(((s[mid - 1] + s[mid as int]) / 2) as i128)
    }
}

/// The median of a sorted, non-empty list of prices lies between its
/// smallest and its largest price.
pub proof fn law_median_within_range(s: Seq<i128>)
    requires
        s.len() >= 1,
        ascending(s),
    ensures
        median_spec(s) matches Ok(m) ==> s[0] <= m <= s[s.len() - 1],
{
    let mid = s.len() / 2;
    if s.len() % 2 == 0 {
        assert(s[0] <= s[mid - 1]);
        assert(s[mid as int] <= s[s.len() - 1]);
        assert(s[mid - 1] <= s[mid as int]);
    } else {
        assert(s[0] <= s[mid as int]);
        assert(s[mid as int] <= s[s.len() - 1]);
    }
}

pub fn median(prices: &Vec<i128>) -> (r: Result<i128, Error>)
    requires
        prices@.len() >= 1,
        forall|i: int| 0 <= i < prices@.len() ==> prices@[i] > 0,
    ensures
        r == median_spec(prices@),
        r matches Ok(m) ==> m > 0,
{
    let len = prices.len();
    let mid = len / 2;
    if len % 2 == 1 {
        Ok(prices[mid])
    } else {
        let low = prices[mid - 1];
        let high = prices[mid];
        match low.checked_add(high) {
            Some(v) => Ok(v / 2),
            None => Err(Error::Overflow),
        }
    }
}

pub open spec fn sat_mul_i128(a: int, b: int) -> int {
    if a * b > i128::MAX { i128::MAX as int } else if a * b < i128::MIN { i128::MIN as int } else { a * b }
}

pub open spec fn sat_add_i128(a: int, b: int) -> int {
    if a + b > i128::MAX { i128::MAX as int } else if a + b < i128::MIN { i128::MIN as int } else { a + b }
}

/// `a * b`, clamped to the `i128` range.
pub fn saturating_mul(a: i128, b: i128) -> (r: i128)
    ensures
        r == sat_mul_i128(a as int, b as int),
{
    match a.checked_mul(b) {
        Some(v) => v,
        None => {
            if (a < 0) != (b < 0) {
                assert(a * b < 0) by (nonlinear_arith)
                    requires (a < 0) != (b < 0), a != 0, b != 0,
                ;
                i128::MIN
            } else {
                assert(a * b > 0) by (nonlinear_arith)
                    requires (a < 0) == (b < 0), a != 0, b != 0,
                ;
                i128::MAX
            }
        },
    }
}

/// `a + b`, clamped to the `i128` range.
pub fn saturating_add(a: i128, b: i128) -> (r: i128)
    ensures
        r == sat_add_i128(a as int, b as int),
{
    match a.checked_add(b) {
        Some(v) => v,
        None => if a < 0 { i128::MIN } else { i128::MAX },
    }
}

/// The saturated sum of squared distances from `center` of the first `k` prices.
pub open spec fn var_sum(s: Seq<i128>, center: int, k: int) -> int
    decreases k,
{
    if k <= 0 {
        0
    } else {
        let d = if s[k - 1] > center { s[k - 1] - center } else { center - s[k - 1] };
        sat_add_i128(var_sum(s, center, k - 1), sat_mul_i128(d, d))
    }
}

/// The integer standard deviation of positive prices around `center`.
pub open spec fn stddev_spec(s: Seq<i128>, center: int) -> int {
    if s.len() == 0 {
        0
    } else {
        let v = var_sum(s, center, s.len() as int) / (s.len() as int);
        if v <= 0 { 0 } else { crate::hybrid_amm::isqrt(v) }
    }
}

pub fn stddev(prices: &Vec<i128>, center: i128) -> (r: i128)
    requires
        center > 0,
        prices@.len() != 1,
        forall|i: int| 0 <= i < prices@.len() ==> prices@[i] > 0,
    ensures
        r == stddev_spec(prices@, center as int),
{
    let n = prices.len();
    if n == 0 {
        return 0;
    }
    let mut var: i128 = 0;
    let mut i: usize = 0;
    while i < n
        invariant
            n == prices@.len(),
            i <= n,
            center > 0,
            forall|k: int| 0 <= k < prices@.len() ==> prices@[k] > 0,
            var == var_sum(prices@, center as int, i as int),
            var >= 0,
        decreases n - i,
    {
        let diff = OracleAggregator::abs_diff(prices[i], center);
        proof {
            assert(diff * diff >= 0) by (nonlinear_arith);
        }
        var = saturating_add(var, saturating_mul(diff, diff));
        i += 1;
    }
    let q = var / (n as i128);
    proof {
        vstd::arithmetic::div_mod::lemma_div_is_ordered_by_denominator(var as int, 2, n as int);
        assert(q < i128::MAX);
    }
    OracleAggregator::isqrt(q)
}

/// The prices within 2 standard deviations and within 5% of the median
/// (an integer standard deviation of 0 disables the first test).
pub open spec fn kept(price: int, median: int, std: int) -> bool {
    let diff = if price > median { price - median } else { median - price };
    let exceeds_stddev = std > 0 && diff >= sat_mul_i128(std, STDDEV_MULTIPLIER as int);
    let exceeds_pct = sat_mul_i128(diff, 100) > sat_mul_i128(median, MAX_DEVIATION_PERCENT as int);
    !exceeds_stddev && !exceeds_pct
}

pub open spec fn filter_spec(s: Seq<i128>, median: int, std: int) -> Seq<i128> {
    s.filter(|p: i128| kept(p as int, median, std))
}

/// Drops prices that exceed 2 sigma from the median, or that deviate by more
/// than `MAX_DEVIATION_PERCENT` of the median.
pub fn filter_outliers(prices: &Vec<i128>, median: i128) -> (r: Vec<i128>)
    requires
        median > 0,
        prices@.len() != 1,
        forall|i: int| 0 <= i < prices@.len() ==> prices@[i] > 0,
    ensures
        r@ == filter_spec(prices@, median as int, stddev_spec(prices@, median as int)),
        forall|i: int| 0 <= i < r@.len() ==> r@[i] > 0,
{
    let std = stddev(prices, median);
    let ghost pred = |p: i128| kept(p as int, median as int, std as int);
    let mut filtered: Vec<i128> = Vec::new();
    let mut i: usize = 0;
    while i < prices.len()
        invariant
            i <= prices@.len(),
            median > 0,
            forall|k: int| 0 <= k < prices@.len() ==> prices@[k] > 0,
            pred == (|p: i128| kept(p as int, median as int, std as int)),
            filtered@ == prices@.subrange(0, i as int).filter(pred),
            forall|k: int| 0 <= k < filtered@.len() ==> filtered@[k] > 0,
        decreases prices@.len() - i,
    {
        let price = prices[i];
        let diff = OracleAggregator::abs_diff(price, median);
        let exceeds_stddev = std > 0 && diff >= saturating_mul(std, STDDEV_MULTIPLIER);
        let exceeds_pct = saturating_mul(diff, 100) > saturating_mul(median, MAX_DEVIATION_PERCENT);
        proof {
            assert(prices@.subrange(0, i as int + 1).drop_last() =~= prices@.subrange(0, i as int));
            reveal_with_fuel(Seq::filter, 1);
        }
        if !exceeds_stddev && !exceeds_pct {
            filtered.push(price);
        }
        i += 1;
    }
    proof {
        assert(prices@.subrange(0, prices@.len() as int) =~= prices@);
    }
    filtered
}

/// Keep the samples inside the window, plus the last sample that started
/// before `window_start` (the price in effect at the window boundary).
pub open spec fn prune_spec(s: Seq<TwapSample>, window_start: int, k: int) -> (Seq<TwapSample>, Option<TwapSample>)
    decreases k,
{
    if k <= 0 {
        (Seq::empty(), None)
    } else {
        let (pruned, last_before) = prune_spec(s, window_start, k - 1);
        let sample = s[k - 1];
        if sample.timestamp < window_start {
            (pruned, Some(sample))
        } else {
            match last_before {
                Some(prev) => (pruned.push(prev).push(sample), None),
                None => (pruned.push(sample), None),
            }
        }
    }
}

pub open spec fn pruned(s: Seq<TwapSample>, now: u64, window: u64) -> Seq<TwapSample> {
    let window_start = if now >= window { now - window } else { 0 };
    let (p, last_before) = prune_spec(s, window_start, s.len() as int);
    if p.len() == 0 {
        match last_before {
            Some(prev) => seq![prev],
            None => p,
        }
    } else {
        p
    }
}

pub fn prune_samples(samples: &Vec<TwapSample>, now: u64, window: u64) -> (r: Vec<TwapSample>)
    ensures
        r@ == pruned(samples@, now, window),
{
    let window_start = now.saturating_sub(window);
    let mut pruned_v: Vec<TwapSample> = Vec::new();
    let mut last_before: Option<TwapSample> = None;
    let mut idx: usize = 0;
    while idx < samples.len()
        invariant
            idx <= samples@.len(),
            window_start == (if now >= window { now - window } else { 0 }),
            (pruned_v@, last_before) == prune_spec(samples@, window_start as int, idx as int),
        decreases samples@.len() - idx,
    {
        let sample = samples[idx];
        if sample.timestamp < window_start {
            last_before = Some(sample);
        } else {
            match last_before {
                Some(prev) => {
                    pruned_v.push(prev);
                },
                None => {},
            }
            last_before = None;
            pruned_v.push(sample);
        }
        idx += 1;
    }
    if pruned_v.len() == 0 {
        match last_before {
            Some(prev) => {
                pruned_v.push(prev);
                assert(pruned_v@ =~= seq![prev]);
            },
            None => {},
        }
    }
    pruned_v
}

/// The time-weighted sum and duration over the first `k` samples: each
/// sample weighs the seconds from max(its timestamp, window start) until the
/// next sample (or `now` for the last one), with saturating arithmetic.
pub open spec fn twap_acc(s: Seq<TwapSample>, now: int, window_start: int, k: int) -> (int, int)
    decreases k,
{
    if k <= 0 {
        (0, 0)
    } else {
        let (w, d) = twap_acc(s, now, window_start, k - 1);
        let idx = k - 1;
        let sample = s[idx];
        let start = if sample.timestamp < window_start { window_start } else { sample.timestamp as int };
        let end = if idx + 1 < s.len() { s[idx + 1].timestamp as int } else { now };
        if end > start {
            let dt = end - start;
            (sat_add_i128(w, sat_mul_i128(sample.price as int, dt)), sat_add_i128(d, dt))
        } else {
            (w, d)
        }
    }
}

/// The rolling time-weighted average price, 0 with no samples, the latest
/// price when no time is covered.
pub open spec fn twap_spec(s: Seq<TwapSample>, now: u64, window: u64) -> i128 {
    if s.len() == 0 {
        0
    } else {
        let window_start = if now >= window { now - window } else { 0 };
        let (w, d) = twap_acc(s, now as int, window_start as int, s.len() as int);
        if d == 0 {
            s.last().price
        } else {
            crate::hybrid_amm::tdiv(w, d) as i128
        }
    }
}

pub fn compute_twap(samples: &Vec<TwapSample>, now: u64, window: u64) -> (r: i128)
    ensures
        r == twap_spec(samples@, now, window),
{
    if samples.len() == 0 {
        return 0;
    }
    let window_start = now.saturating_sub(window);
    let mut weighted: i128 = 0;
    let mut duration: i128 = 0;
    let mut idx: usize = 0;
    while idx < samples.len()
        invariant
            idx <= samples@.len(),
            window_start == (if now >= window { now - window } else { 0 }),
            (weighted as int, duration as int) == twap_acc(samples@, now as int, window_start as int, idx as int),
            duration >= 0,
        decreases samples@.len() - idx,
    {
        let sample = samples[idx];
        let start = if sample.timestamp < window_start { window_start } else { sample.timestamp };
        let end = if idx + 1 < samples.len() { samples[idx + 1].timestamp } else { now };
        if end > start {
            let dt = (end - start) as i128;
            weighted = saturating_add(weighted, saturating_mul(sample.price, dt));
            duration = saturating_add(duration, dt);
        }
        idx += 1;
    }
    if duration == 0 {
        samples[samples.len() - 1].price
    } else {
        let q = weighted / duration;
        proof {
            assert(q == crate::math::trunc_div(weighted as int, duration as int));
        }
        q
    }
}

/// `twap_acc` without saturation: the exact time-weighted sum and duration.
pub open spec fn twap_exact(s: Seq<TwapSample>, now: int, window_start: int, k: int) -> (int, int)
    decreases k,
{
    if k <= 0 {
        (0, 0)
    } else {
        let (w, d) = twap_exact(s, now, window_start, k - 1);
        let idx = k - 1;
        let sample = s[idx];
        let start = if sample.timestamp < window_start { window_start } else { sample.timestamp as int };
        let end = if idx + 1 < s.len() { s[idx + 1].timestamp as int } else { now };
        if end > start {
            (w + sample.price * (end - start), d + (end - start))
        } else {
            (w, d)
        }
    }
}

proof fn lemma_twap_exact_bounds(s: Seq<TwapSample>, now: int, ws: int, k: int, lo: int, hi: int)
    requires
        0 <= k <= s.len(),
        lo <= hi,
        forall|i: int| 0 <= i < s.len() ==> lo <= #[trigger] s[i].price <= hi,
    ensures
        twap_exact(s, now, ws, k).1 >= 0,
        lo * twap_exact(s, now, ws, k).1 <= twap_exact(s, now, ws, k).0 <= hi * twap_exact(s, now, ws, k).1,
    decreases k,
{
    if k > 0 {
        lemma_twap_exact_bounds(s, now, ws, k - 1, lo, hi);
        let (w, d) = twap_exact(s, now, ws, k - 1);
        let sample = s[k - 1];
        let start = if sample.timestamp < ws { ws } else { sample.timestamp as int };
        let end = if k < s.len() { s[k].timestamp as int } else { now };
        if end > start {
            let dt = end - start;
            let p = sample.price as int;
            assert(lo * dt <= p * dt <= hi * dt) by (nonlinear_arith)
                requires lo <= p <= hi, dt > 0;
            assert(lo * (d + dt) == lo * d + lo * dt) by (nonlinear_arith);
            assert(hi * (d + dt) == hi * d + hi * dt) by (nonlinear_arith);
        }
    }
}

proof fn lemma_twap_acc_in_range(s: Seq<TwapSample>, now: int, ws: int, k: int)
    ensures
        i128::MIN <= twap_acc(s, now, ws, k).0 <= i128::MAX,
        i128::MIN <= twap_acc(s, now, ws, k).1 <= i128::MAX,
    decreases k,
{
    if k > 0 {
        lemma_twap_acc_in_range(s, now, ws, k - 1);
    }
}

proof fn lemma_floor_between(x: int, d: int, a: int, b: int)
    requires
        x >= 0,
        d > 0,
        a * d <= x <= b * d,
    ensures
        a <= x / d <= b,
{
    vstd::arithmetic::div_mod::lemma_fundamental_div_mod(x, d);
    vstd::arithmetic::div_mod::lemma_mod_pos_bound(x, d);
    let q = x / d;
    let m = x % d;
    assert(a <= q <= b) by (nonlinear_arith)
        requires x == d * q + m, 0 <= m < d, a * d <= x, x <= b * d, d > 0;
}

/// The TWAP of samples priced between `lo` and `hi` lies between them
/// (so a constant price is its own TWAP), as long as the time-weighted sums
/// do not saturate.
pub proof fn law_twap_within_price_range(s: Seq<TwapSample>, now: u64, window: u64, lo: int, hi: int)
    requires
        s.len() > 0,
        lo <= hi,
        forall|i: int| 0 <= i < s.len() ==> lo <= #[trigger] s[i].price <= hi,
        ({
            let ws = if now >= window { now - window } else { 0 };
            twap_acc(s, now as int, ws as int, s.len() as int) == twap_exact(s, now as int, ws as int, s.len() as int)
        }),
    ensures
        lo <= twap_spec(s, now, window) <= hi,
{
    let ws: int = if now >= window { now - window } else { 0 };
    let n = s.len() as int;
    lemma_twap_exact_bounds(s, now as int, ws, n, lo, hi);
    lemma_twap_acc_in_range(s, now as int, ws, n);
    let (w, d) = twap_exact(s, now as int, ws, n);
    assert(s.last() == s[n - 1]);
    if d != 0 {
        if w >= 0 {
            lemma_floor_between(w, d, lo, hi);
            assert(0 * d <= w <= w * d) by (nonlinear_arith)
                requires w >= 0, d >= 1;
            lemma_floor_between(w, d, 0, w);
            assert(crate::hybrid_amm::tdiv(w, d) == w / d);
        } else {
            assert(0 * d <= -w <= (-w) * d) by (nonlinear_arith)
                requires w < 0, d >= 1;
            lemma_floor_between(-w, d, 0, -w);
            assert((-hi) * d <= -w <= (-lo) * d) by (nonlinear_arith)
                requires lo * d <= w <= hi * d;
            lemma_floor_between(-w, d, -hi, -lo);
            assert(crate::hybrid_amm::tdiv(w, d) == -((-w) / d));
        }
    }
}

/// Freshness bookkeeping over the first `k` oracle answers: the number of
/// fresh answers and, in order, their positive prices. `None` is a source
/// that did not answer.
pub open spec fn collect(recs: Seq<Option<OracleRecord>>, now: u64, max_age: u64, k: int) -> (int, Seq<i128>)
    decreases k,
{
    if k <= 0 {
        (0, Seq::empty())
    } else {
        let (fresh, prices) = collect(recs, now, max_age, k - 1);
        match recs[k - 1] {
            None => (fresh, prices),
            Some(rec) => {
                let age = if now >= rec.timestamp { now - rec.timestamp } else { 0 };
                if age > max_age {
                    (fresh, prices)
                } else if rec.price > 0 {
                    (fresh + 1, prices.push(rec.price))
                } else {
                    (fresh + 1, prices)
                }
            },
        }
    }
}

/// The outcome of aggregating the answers of the sources.
pub open spec fn aggregate_spec(n_sources: int, recs: Seq<Option<OracleRecord>>, now: u64, max_age: u64) -> Result<i128, Error> {
    let (fresh, prices) = collect(recs, now, max_age, recs.len() as int);
    if n_sources < 3 {
        Err(Error::NotEnoughSources)
    } else if fresh < 3 {
        Err(Error::OracleStaleness)
    } else if prices.len() < 3 {
        Err(Error::NotEnoughValidPrices)
    } else {
        let sorted = sorted_spec(prices);
        match median_spec(sorted) {
            Err(e) => Err(e),
            Ok(m) => {
                let filtered = filter_spec(sorted, m as int, stddev_spec(sorted, m as int));
                if filtered.len() < 3 {
                    Err(Error::NotEnoughReliableSources)
                } else {
                    median_spec(filtered)
                }
            },
        }
    }
}

/// The contract's stored state.
pub struct OracleAggregator {
    pub window_seconds: Option<u64>,
    pub samples: Vec<TwapSample>,
}

impl OracleAggregator {
    /// |left - right|.
    pub fn abs_diff(left: i128, right: i128) -> (r: i128)
        requires
            i128::MIN <= left - right <= i128::MAX,
            i128::MIN <= right - left <= i128::MAX,
        ensures
            r == if left > right { left - right } else { right - left },
    {
        if left > right {
            left - right
        } else {
            right - left
        }
    }

    /// Integer square root of `n` (0 for `n <= 0`).
    pub fn isqrt(n: i128) -> (r: i128)
        requires
            n < i128::MAX,
        ensures
            n <= 0 ==> r == 0,
            n > 0 ==> r == crate::hybrid_amm::isqrt(n as int),
    {
        if n <= 0 {
            return 0;
        }
        crate::hybrid_amm::sqrt(n)
    }

    pub open spec fn window_spec(&self) -> u64 {
        match self.window_seconds {
            Some(w) => w,
            None => DEFAULT_TWAP_WINDOW_SECONDS,
        }
    }

    /// An aggregator with no window configured and no samples.
    pub fn new() -> (r: OracleAggregator)
        ensures
            r.window_seconds is None,
            r.samples@.len() == 0,
    {
        OracleAggregator { window_seconds: None, samples: Vec::new() }
    }

    /// Configures the rolling TWAP window and clears the samples. Optional —
    /// a 1-hour window is used until this is called. `0` is rejected.
    pub fn initialize(&mut self, window_seconds: u64) -> (r: Result<(), Error>)
        ensures
            window_seconds == 0 ==> r == Err::<(), Error>(Error::InvalidWindow) && *final(self) == *old(self),
            window_seconds != 0 ==> r is Ok && final(self).window_seconds == Some(window_seconds)
                && final(self).samples@.len() == 0,
    {
        if window_seconds == 0 {
            return Err(Error::InvalidWindow);
        }
        self.window_seconds = Some(window_seconds);
        self.samples = Vec::new();
        Ok(())
    }

    /// Aggregates the answers of the oracle sources (`records[i]` is the
    /// answer of source `i`, `None` when it did not answer), rejecting
    /// any record older than `max_age_seconds` at ledger time `now`. The
    /// result is recorded as a TWAP sample at `now`.
    pub fn aggregate_price(
        &mut self,
        records: &Vec<Option<OracleRecord>>,
        now: u64,
        max_age_seconds: u64,
    ) -> (r: Result<i128, Error>)
        requires
            records@.len() <= u32::MAX,
        ensures
            r == aggregate_spec(records@.len() as int, records@, now, max_age_seconds),
            r matches Ok(p) ==> final(self).window_seconds == Some(old(self).window_spec())
                && final(self).samples@ == pruned(old(self).samples@.push(TwapSample { price: p, timestamp: now }),
                    now, old(self).window_spec()),
            r is Err ==> *final(self) == *old(self),
    {
        if records.len() < 3 {
            return Err(Error::NotEnoughSources);
        }
        let mut fresh_count: u32 = 0;
        let mut prices: Vec<i128> = Vec::new();
        let mut idx: usize = 0;
        while idx < records.len()
            invariant
                idx <= records@.len(),
                (fresh_count as int, prices@) == collect(records@, now, max_age_seconds, idx as int),
                fresh_count <= idx,
                forall|k: int| 0 <= k < prices@.len() ==> prices@[k] > 0,
                records@.len() <= u32::MAX,
            decreases records@.len() - idx,
        {
            match records[idx] {
                None => {},
                Some(record) => {
                    // A price is stale when its timestamp is older than
                    // `max_age_seconds` before the current ledger time.
                    let age = now.saturating_sub(record.timestamp);
                    if age <= max_age_seconds {
                        fresh_count += 1;
                        if record.price > 0 {
                            prices.push(record.price);
                        }
                    }
                },
            }
            idx += 1;
        }
        if fresh_count < 3 {
            return Err(Error::OracleStaleness);
        }
        if prices.len() < 3 {
            return Err(Error::NotEnoughValidPrices);
        }
        let sorted = sort_prices(prices);
        proof {
            assert forall|k: int| 0 <= k < sorted@.len() implies sorted@[k] > 0 by {
                assert(sorted@.to_multiset().count(sorted@[k]) > 0);
                assert(prices@.contains(sorted@[k]));
            }
        }
        assert(sorted@.len() == prices@.len()) by {
            assert(sorted@.to_multiset().len() == prices@.to_multiset().len());
        }
        let med = median(&sorted)?;
        let filtered = filter_outliers(&sorted, med);
        if filtered.len() < 3 {
            return Err(Error::NotEnoughReliableSources);
        }
        let snapshot = median(&filtered)?;
        self.record_sample(snapshot, now);
        Ok(snapshot)
    }

    fn record_sample(&mut self, price: i128, now: u64)
        ensures
            final(self).window_seconds == Some(old(self).window_spec()),
            final(self).samples@ == pruned(old(self).samples@.push(TwapSample { price, timestamp: now }),
                now, old(self).window_spec()),
    {
        let window = match self.window_seconds {
            Some(w) => w,
            None => DEFAULT_TWAP_WINDOW_SECONDS,
        };
        self.samples.push(TwapSample { price, timestamp: now });
        let pruned_v = prune_samples(&self.samples, now, window);
        self.samples = pruned_v;
        self.window_seconds = Some(window);
    }

    /// Rolling time-weighted average of aggregated prices over the window at
    /// ledger time `now`. 0 before the first observation.
    pub fn get_twap(&self, now: u64) -> (r: i128)
        ensures
            r == twap_spec(self.samples@, now, self.window_spec()),
    {
        let window = match self.window_seconds {
            Some(w) => w,
            None => DEFAULT_TWAP_WINDOW_SECONDS,
        };
        compute_twap(&self.samples, now, window)
    }
}

/// Every price the outlier filter keeps lies within MAX_DEVIATION_PERCENT
/// of the median (`|p - median| * 100 <= median * 5`), and, where the
/// standard deviation is positive, closer than STDDEV_MULTIPLIER standard
/// deviations to it.
pub proof fn law_filter_keeps_only_close_prices(prices: Seq<i128>, median: int, std: int)
    requires
        0 < median,
        median * MAX_DEVIATION_PERCENT <= i128::MAX,
        std * STDDEV_MULTIPLIER <= i128::MAX,
    ensures
        forall|i: int| 0 <= i < filter_spec(prices, median, std).len() ==> {
            let p = #[trigger] filter_spec(prices, median, std)[i] as int;
            let diff = if p > median { p - median } else { median - p };
            &&& diff * 100 <= median * MAX_DEVIATION_PERCENT
            &&& std > 0 ==> diff < std * STDDEV_MULTIPLIER
        },
{
    let pred = |p: i128| kept(p as int, median, std);
    assert forall|i: int| 0 <= i < filter_spec(prices, median, std).len() implies {
        let p = #[trigger] filter_spec(prices, median, std)[i] as int;
        let diff = if p > median { p - median } else { median - p };
        &&& diff * 100 <= median * MAX_DEVIATION_PERCENT
        &&& std > 0 ==> diff < std * STDDEV_MULTIPLIER
    } by {
        prices.lemma_filter_pred(pred, i);
        let p = filter_spec(prices, median, std)[i] as int;
        assert(kept(p, median, std));
        let diff = if p > median { p - median } else { median - p };
        assert(diff >= 0);
        if std > 0 {
            assert(std * STDDEV_MULTIPLIER > 0) by (nonlinear_arith)
                requires std > 0;
        }
    }
}

} // verus!
