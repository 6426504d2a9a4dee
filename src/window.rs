use vstd::prelude::*;

use crate::stats::{
    arrival_gaps, arrival_times, gap_between, lemma_sum_bound, max_of, mean_of, sum_of,
    RunningStatistics,
};

verus! {

/// At most this many bins in a packets-per-time histogram.
pub const MAX_TIME_BINS: usize = 100;

/// One bin of the histogram for every this many samples in the window.
pub const SAMPLES_PER_BIN: usize = 10;

/// The smallest value, or `u64::MAX` for none.
pub open spec fn min_of(g: Seq<u64>) -> u64
    decreases g.len(),
{
    if g.len() == 0 {
        u64::MAX
    } else if g.last() < min_of(g.drop_last()) {
        g.last()
    } else {
        min_of(g.drop_last())
    }
}

/// `first` starts the window of `length_us` that ends at the last timestamp:
/// it is the latest index, not after the second last, whose timestamp is at
/// least `length_us` older than the last one, or 0 when there is none.
pub open spec fn is_window_start(t: Seq<u64>, length_us: u64, first: int) -> bool {
    &&& t.len() >= 2
    &&& 0 <= first <= t.len() - 2
    &&& (first == 0 || t[first] + length_us <= t.last())
    &&& forall|j: int| first < j <= t.len() - 2 ==> #[trigger] t[j] + length_us > t.last()
}

/// The number of histogram bins for a window of `sample_count` samples.
pub open spec fn time_bins(sample_count: nat) -> nat {
    let b = sample_count / SAMPLES_PER_BIN as nat;
    if b < MAX_TIME_BINS {
        b
    } else {
        MAX_TIME_BINS as nat
    }
}

/// The upper edge of bin `b` of `bins` over the window from `start` lasting
/// `window_us`: the window is cut into `bins` equal parts.
pub open spec fn bin_edge(start: u64, window_us: u64, b: nat, bins: nat) -> int {
    start + (window_us * (b + 1)) / bins as int
}

/// How many of the values lie in `[lo, hi)`.
pub open spec fn count_in(s: Seq<u64>, lo: int, hi: int) -> nat
    decreases s.len(),
{
    if s.len() == 0 {
        0
    } else {
        count_in(s.drop_last(), lo, hi) + if lo <= s.last() < hi {
            1nat
        } else {
            0nat
        }
    }
}

/// The samples of bin `b`: below its upper edge and, but for the first bin, at
/// or above the upper edge of the bin before.
pub open spec fn bin_count(s: Seq<u64>, start: u64, window_us: u64, b: nat, bins: nat) -> nat {
    let lo = if b == 0 {
        0
    } else {
        bin_edge(start, window_us, (b - 1) as nat, bins)
    };
    count_in(s, lo, bin_edge(start, window_us, b, bins))
}

/// Statistics over the samples of a recent window.
#[derive(Debug, Clone, Copy, PartialEq, Eq, Structural)]
pub struct WindowSummary {
    /// Index of the first sample in the window.
    pub first: usize,
    /// Samples in the window, the first and the last included.
    pub sample_count: usize,
    /// Time from the first sample of the window to the last.
    pub window_us: u64,
    pub min_gap_us: u64,
    pub max_gap_us: u64,
    /// Mean gap in the window, rounded down.
    pub average_gap_us: u64,
    /// How many bins `packets_per_time` should use for this window.
    pub time_bins: usize,
}

proof fn lemma_mean_bound(g: Seq<u64>)
    ensures
        mean_of(g) <= max_of(g),
    decreases g.len(),
{
    if g.len() > 0 {
        lemma_sum_bound(g);
        assert(sum_of(g) / g.len() <= max_of(g)) by (nonlinear_arith)
            requires
                sum_of(g) <= g.len() * max_of(g),
                g.len() > 0,
        ;
    }
}

/// Finds where the window of `length_us` ending at the last timestamp starts:
/// walks back from the second last sample while the samples are newer than
/// the window's start.
pub fn window_start(times: &[u64], length_us: u64) -> (r: usize)
    requires
        times@.len() >= 2,
    ensures
        is_window_start(times@, length_us, r as int),
{
    let n = times.len();
    let last = times[n - 1];
    let mut first: usize = n - 2;
    while first != 0 && times[first] as u128 + length_us as u128 > last as u128
        invariant
            n == times@.len(),
            n >= 2,
            last == times@.last(),
            first <= n - 2,
            forall|j: int| first < j <= n - 2 ==> #[trigger] times@[j] + length_us > last,
        decreases first,
    {
        first = first - 1;
    }
    first
}

/// The smallest of `gaps[from..]`.
fn min_from(gaps: &[u64], from: usize) -> (r: u64)
    requires
        from <= gaps@.len(),
    ensures
        r == min_of(gaps@.subrange(from as int, gaps@.len() as int)),
{
    let mut m: u64 = u64::MAX;
    let mut i: usize = from;
    while i < gaps.len()
        invariant
            from <= i <= gaps@.len(),
            m == min_of(gaps@.subrange(from as int, i as int)),
        decreases gaps@.len() - i,
    {
        proof {
            let s = gaps@.subrange(from as int, i as int + 1);
            assert(s.drop_last() =~= gaps@.subrange(from as int, i as int));
        }
        if gaps[i] < m {
            m = gaps[i];
        }
        i = i + 1;
    }
    m
}

/// The largest of `gaps[from..]` and the sum of them.
fn max_sum_from(gaps: &[u64], from: usize) -> (r: (u64, u128))
    requires
        from <= gaps@.len(),
    ensures
        r.0 == max_of(gaps@.subrange(from as int, gaps@.len() as int)),
        r.1 == sum_of(gaps@.subrange(from as int, gaps@.len() as int)),
{
    let n = gaps.len();
    let mut m: u64 = 0;
    let mut total: u128 = 0;
    let mut i: usize = from;
    while i < gaps.len()
        invariant
            from <= i <= gaps@.len(),
            n == gaps@.len(),
            m == max_of(gaps@.subrange(from as int, i as int)),
            total == sum_of(gaps@.subrange(from as int, i as int)),
        decreases gaps@.len() - i,
    {
        proof {
            let p = gaps@.subrange(from as int, i as int);
            let s = gaps@.subrange(from as int, i as int + 1);
            assert(s.drop_last() =~= p);
            lemma_sum_bound(p);
            assert(p.len() * max_of(p) <= 0xffff_ffff_ffff_ffff * 0xffff_ffff_ffff_ffffnat)
                by (nonlinear_arith)
                requires
                    p.len() <= n,
                    n <= usize::MAX,
                    usize::MAX <= 0xffff_ffff_ffff_ffffnat,
                    max_of(p) <= 0xffff_ffff_ffff_ffffnat,
            ;
        }
        if gaps[i] > m {
            m = gaps[i];
        }
        total = total + gaps[i] as u128;
        i = i + 1;
    }
    (m, total)
}

impl RunningStatistics {
    /// Statistics over the last `length_us` microseconds of samples (widened
    /// back to the sample at or before the window's start), once more than two
    /// gaps have been recorded; `None` before that.
    pub fn window(&self, length_us: u64) -> (r: Option<WindowSummary>)
        requires
            self.wf(),
        ensures
            arrival_gaps(self@).len() <= 2 ==> r is None,
            arrival_gaps(self@).len() > 2 ==> (r matches Some(w) && {
                let t = arrival_times(self@);
                let g = arrival_gaps(self@);
                let wg = g.subrange(w.first as int, g.len() as int);
                &&& is_window_start(t, length_us, w.first as int)
                &&& w.sample_count == t.len() - w.first
                &&& w.window_us == gap_between(t[w.first as int], t.last())
                &&& w.min_gap_us == min_of(wg)
                &&& w.max_gap_us == max_of(wg)
                &&& w.average_gap_us == mean_of(wg)
                &&& w.time_bins == time_bins(w.sample_count as nat)
            }),
    {
        let times = self.times();
        let gaps = self.gaps();
        if gaps.len() <= 2 {
            return None;
        }
        let n = times.len();
        let first = window_start(times, length_us);
        let last = times[n - 1];
        let start = times[first];
        let window_us: u64 = if last >= start {
            last - start
        } else {
            0
        };
        let min_gap = min_from(gaps, first);
        let (max_gap, total) = max_sum_from(gaps, first);
        let ghost wg = gaps@.subrange(first as int, gaps@.len() as int);
        let count = (gaps.len() - first) as u128;
        proof {
            lemma_mean_bound(wg);
        }
        let average = (total / count) as u64;
        let sample_count = n - first;
        let per_bin = sample_count / SAMPLES_PER_BIN;
        let bins = if per_bin < MAX_TIME_BINS {
            per_bin
        } else {
            MAX_TIME_BINS
        };
        Some(
            WindowSummary {
                first,
                sample_count,
                window_us,
                min_gap_us: min_gap,
                max_gap_us: max_gap,
                average_gap_us: average,
                time_bins: bins,
            },
        )
    }
}

/// How many of `times[from..]` lie in `[lo, hi)`.
fn count_between(times: &[u64], from: usize, lo: u128, hi: u128) -> (r: usize)
    requires
        from <= times@.len(),
    ensures
        r == count_in(times@.subrange(from as int, times@.len() as int), lo as int, hi as int),
{
    let mut c: usize = 0;
    let mut i: usize = from;
    while i < times.len()
        invariant
            from <= i <= times@.len(),
            c == count_in(times@.subrange(from as int, i as int), lo as int, hi as int),
            c <= i - from,
        decreases times@.len() - i,
    {
        proof {
            let s = times@.subrange(from as int, i as int + 1);
            assert(s.drop_last() =~= times@.subrange(from as int, i as int));
        }
        let t = times[i] as u128;
        if lo <= t && t < hi {
            c = c + 1;
        }
        i = i + 1;
    }
    c
}

/// A histogram of the samples `times[first..]` over time: the span from
/// `times[first]` to the last sample is cut into `bins` equal parts, and each
/// count says how many samples fall in its part.
pub fn packets_per_time(times: &[u64], first: usize, bins: usize) -> (r: Vec<usize>)
    requires
        first < times@.len(),
    ensures
        r@.len() == bins,
        forall|b: int|
            0 <= b < bins ==> #[trigger] r@[b] == bin_count(
                times@.subrange(first as int, times@.len() as int),
                times@[first as int],
                gap_between(times@[first as int], times@.last()),
                b as nat,
                bins as nat,
            ),
{
    let ghost s = times@.subrange(first as int, times@.len() as int);
    let start = times[first];
    let last = times[times.len() - 1];
    let window_us: u64 = if last >= start {
        last - start
    } else {
        0
    };
    let mut r: Vec<usize> = Vec::new();
    let mut lo: u128 = 0;
    let mut b: usize = 0;
    while b < bins
        invariant
            b <= bins,
            r@.len() == b,
            s == times@.subrange(first as int, times@.len() as int),
            start == times@[first as int],
            window_us == gap_between(times@[first as int], times@.last()),
            first < times@.len(),
            b == 0 ==> lo == 0,
            b > 0 ==> lo == bin_edge(start, window_us, (b - 1) as nat, bins as nat),
            forall|k: int|
                0 <= k < b ==> #[trigger] r@[k] == bin_count(
                    s,
                    start,
                    window_us,
                    k as nat,
                    bins as nat,
                ),
        decreases bins - b,
    {
        proof {
            assert(window_us * (b + 1) <= 0xffff_ffff_ffff_ffff * 0x1_0000_0000_0000_0000nat)
                by (nonlinear_arith)
                requires
                    window_us <= 0xffff_ffff_ffff_ffffnat,
                    b + 1 <= 0x1_0000_0000_0000_0000nat,
            ;
            assert((window_us * (b + 1)) / (bins as int) <= window_us * (b + 1)) by (
            nonlinear_arith)
                requires
                    bins > 0,
                    window_us * (b + 1) >= 0,
            ;
        }
        let hi: u128 = start as u128 + (window_us as u128 * (b as u128 + 1)) / (bins as u128);
        let c = count_between(times, first, lo, hi);
        r.push(c);
        lo = hi;
        b = b + 1;
    }
    r
}

} // verus!
