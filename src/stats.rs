use vstd::prelude::*;

use crate::payload::{payload_sequence, read_sequence};

verus! {

/// Lower bounds, in microseconds, of the coarse latency bands that gaps are
/// counted in.
pub const BAND_2MS_US: u64 = 2000;

pub const BAND_4MS_US: u64 = 4000;

pub const BAND_8MS_US: u64 = 8000;

pub const BAND_16MS_US: u64 = 16000;

/// One observed packet: when it was sent or received (microseconds on the
/// link's clock), how many bytes it carried, and the sequence counter found in
/// its payload, if any.
#[derive(Debug, Clone, Copy, PartialEq, Eq, Structural)]
pub struct LinkPacketData {
    pub t_us: u64,
    pub payload_size: u32,
    pub sequence: Option<u64>,
}

/// The time from `earlier` to `later`; zero if the clock reading went back.
pub open spec fn gap_between(earlier: u64, later: u64) -> u64 {
    if later >= earlier {
        (later - earlier) as u64
    } else {
        0
    }
}

/// The timestamps of the samples, in the order they were recorded.
pub open spec fn arrival_times(s: Seq<LinkPacketData>) -> Seq<u64> {
    s.map_values(|x: LinkPacketData| x.t_us)
}

/// The gaps between consecutive samples: one fewer than the samples.
pub open spec fn arrival_gaps(s: Seq<LinkPacketData>) -> Seq<u64> {
    Seq::new(
        if s.len() > 0 {
            (s.len() - 1) as nat
        } else {
            0
        },
        |i: int| gap_between(s[i].t_us, s[i + 1].t_us),
    )
}

pub open spec fn sum_of(g: Seq<u64>) -> nat
    decreases g.len(),
{
    if g.len() == 0 {
        0
    } else {
        sum_of(g.drop_last()) + g.last() as nat
    }
}

/// The largest value, or zero for none.
pub open spec fn max_of(g: Seq<u64>) -> u64
    decreases g.len(),
{
    if g.len() == 0 {
        0
    } else if g.last() > max_of(g.drop_last()) {
        g.last()
    } else {
        max_of(g.drop_last())
    }
}

/// The arithmetic mean rounded down, or zero for none.
pub open spec fn mean_of(g: Seq<u64>) -> nat {
    if g.len() == 0 {
        0
    } else {
        sum_of(g) / g.len()
    }
}

/// How many values are at least `threshold`.
pub open spec fn count_at_least(g: Seq<u64>, threshold: u64) -> nat
    decreases g.len(),
{
    if g.len() == 0 {
        0
    } else {
        count_at_least(g.drop_last(), threshold) + if g.last() >= threshold {
            1nat
        } else {
            0nat
        }
    }
}

/// The sequence counter of the last sample that carried one.
pub open spec fn last_sequence(s: Seq<LinkPacketData>) -> Option<u64>
    decreases s.len(),
{
    if s.len() == 0 {
        None
    } else if s.last().sequence is Some {
        s.last().sequence
    } else {
        last_sequence(s.drop_last())
    }
}

/// A reorder: a sequence counter that is not greater than the previous one
/// seen, so the packet arrived after one that was sent later (or twice). A
/// forward jump is no reorder: packets were lost or are still on their way.
/// The first counter seen has nothing before it and is no reorder, whatever
/// its value.
pub open spec fn is_reorder(previous: Option<u64>, current: Option<u64>) -> bool {
    match (previous, current) {
        (Some(p), Some(c)) => c <= p,
        _ => false,
    }
}

/// A forward jump: a sequence counter more than one greater than the previous
/// one seen, so that at least one counter in between is missing so far.
pub open spec fn is_sequence_gap(previous: Option<u64>, current: Option<u64>) -> bool {
    match (previous, current) {
        (Some(p), Some(c)) => c as int > p as int + 1,
        _ => false,
    }
}

pub open spec fn reorders(s: Seq<LinkPacketData>) -> nat
    decreases s.len(),
{
    if s.len() == 0 {
        0
    } else {
        reorders(s.drop_last()) + if is_reorder(last_sequence(s.drop_last()), s.last().sequence) {
            1nat
        } else {
            0nat
        }
    }
}

pub open spec fn sequence_gaps(s: Seq<LinkPacketData>) -> nat
    decreases s.len(),
{
    if s.len() == 0 {
        0
    } else {
        sequence_gaps(s.drop_last()) + if is_sequence_gap(
            last_sequence(s.drop_last()),
            s.last().sequence,
        ) {
            1nat
        } else {
            0nat
        }
    }
}

/// A consistent copy of the statistics at one moment.
#[derive(Debug, Clone, Copy, PartialEq, Eq, Structural)]
pub struct StatsSnapshot {
    pub sample_count: u64,
    pub gap_count: u64,
    pub gap_sum_us: u128,
    pub max_gap_us: u64,
    /// The mean gap rounded down to a microsecond; zero while there is no gap.
    pub average_gap_us: u64,
    pub reorder_count: u64,
    /// Forward jumps of the sequence counter.
    pub sequence_gap_count: u64,
    pub gaps_at_least_2ms: u64,
    pub gaps_at_least_4ms: u64,
    pub gaps_at_least_8ms: u64,
    pub gaps_at_least_16ms: u64,
}

/// What the statistics of the samples `s` are.
pub open spec fn summary_of(s: Seq<LinkPacketData>) -> StatsSnapshot {
    let g = arrival_gaps(s);
    StatsSnapshot {
        sample_count: s.len() as u64,
        gap_count: g.len() as u64,
        gap_sum_us: sum_of(g) as u128,
        max_gap_us: max_of(g),
        average_gap_us: mean_of(g) as u64,
        reorder_count: reorders(s) as u64,
        sequence_gap_count: sequence_gaps(s) as u64,
        gaps_at_least_2ms: count_at_least(g, BAND_2MS_US) as u64,
        gaps_at_least_4ms: count_at_least(g, BAND_4MS_US) as u64,
        gaps_at_least_8ms: count_at_least(g, BAND_8MS_US) as u64,
        gaps_at_least_16ms: count_at_least(g, BAND_16MS_US) as u64,
    }
}

/// The statistics of one link since it was started or last reset. Its model is
/// the sequence of samples recorded, in order; every counter is kept equal to
/// what that sequence gives, and the raw timestamps and gaps are kept too so
/// that a reader can compute statistics over any recent window.
pub struct RunningStatistics {
    samples: Ghost<Seq<LinkPacketData>>,
    times: Vec<u64>,
    gaps: Vec<u64>,
    gap_sum_us: u128,
    max_gap_us: u64,
    reorder_count: u64,
    sequence_gap_count: u64,
    band_2ms: u64,
    band_4ms: u64,
    band_8ms: u64,
    band_16ms: u64,
    last_sequence: Option<u64>,
}

impl View for RunningStatistics {
    type V = Seq<LinkPacketData>;

    closed spec fn view(&self) -> Seq<LinkPacketData> {
        self.samples@
    }
}

proof fn lemma_gaps_push(s: Seq<LinkPacketData>, x: LinkPacketData)
    ensures
        s.len() == 0 ==> arrival_gaps(s.push(x)) == Seq::<u64>::empty(),
        s.len() > 0 ==> arrival_gaps(s.push(x)) == arrival_gaps(s).push(
            gap_between(s.last().t_us, x.t_us),
        ),
{
    if s.len() == 0 {
        assert(arrival_gaps(s.push(x)) =~= Seq::<u64>::empty());
    } else {
        assert(arrival_gaps(s.push(x)) =~= arrival_gaps(s).push(
            gap_between(s.last().t_us, x.t_us),
        ));
    }
}

proof fn lemma_push_drop_last<T>(s: Seq<T>, x: T)
    ensures
        s.push(x).drop_last() == s,
        s.push(x).last() == x,
{
    assert(s.push(x).drop_last() =~= s);
}

pub(crate) proof fn lemma_sum_bound(g: Seq<u64>)
    ensures
        sum_of(g) <= g.len() * max_of(g),
        forall|i: int| 0 <= i < g.len() ==> g[i] <= max_of(g),
    decreases g.len(),
{
    if g.len() > 0 {
        let p = g.drop_last();
        lemma_sum_bound(p);
        let m = max_of(g);
        let mp = max_of(p);
        assert(mp <= m);
        assert(p.len() * mp <= p.len() * m) by (nonlinear_arith)
            requires
                mp <= m,
        ;
        assert(g.len() * m == p.len() * m + m) by (nonlinear_arith)
            requires
                g.len() == p.len() + 1,
        ;
        assert forall|i: int| 0 <= i < g.len() implies g[i] <= max_of(g) by {
            if i < p.len() {
                assert(g[i] == p[i]);
            }
        }
    }
}

proof fn lemma_count_bound(g: Seq<u64>, threshold: u64)
    ensures
        count_at_least(g, threshold) <= g.len(),
    decreases g.len(),
{
    if g.len() > 0 {
        lemma_count_bound(g.drop_last(), threshold);
    }
}

proof fn lemma_reorders_bound(s: Seq<LinkPacketData>)
    ensures
        reorders(s) <= s.len(),
        sequence_gaps(s) <= s.len(),
    decreases s.len(),
{
    if s.len() > 0 {
        lemma_reorders_bound(s.drop_last());
    }
}

impl RunningStatistics {
    /// The invariant: every stored counter and buffer is what the recorded
    /// samples give.
    pub closed spec fn wf(&self) -> bool {
        let s = self.samples@;
        let g = arrival_gaps(s);
        &&& s.len() <= u64::MAX
        &&& self.times@ == arrival_times(s)
        &&& self.gaps@ == g
        &&& self.gap_sum_us == sum_of(g)
        &&& self.max_gap_us == max_of(g)
        &&& self.reorder_count == reorders(s)
        &&& self.sequence_gap_count == sequence_gaps(s)
        &&& self.band_2ms == count_at_least(g, BAND_2MS_US)
        &&& self.band_4ms == count_at_least(g, BAND_4MS_US)
        &&& self.band_8ms == count_at_least(g, BAND_8MS_US)
        &&& self.band_16ms == count_at_least(g, BAND_16MS_US)
        &&& self.last_sequence == last_sequence(s)
    }

    /// The largest gap recorded so far.
    pub open spec fn max_gap(&self) -> u64 {
        max_of(arrival_gaps(self@))
    }

    /// Empty statistics: no samples yet.
    pub fn new() -> (r: RunningStatistics)
        ensures
            r.wf(),
            r@ == Seq::<LinkPacketData>::empty(),
    {
        let r = RunningStatistics {
            samples: Ghost(Seq::empty()),
            times: Vec::new(),
            gaps: Vec::new(),
            gap_sum_us: 0,
            max_gap_us: 0,
            reorder_count: 0,
            sequence_gap_count: 0,
            band_2ms: 0,
            band_4ms: 0,
            band_8ms: 0,
            band_16ms: 0,
            last_sequence: None,
        };
        assert(arrival_gaps(r.samples@) =~= Seq::<u64>::empty());
        assert(arrival_times(r.samples@) =~= Seq::<u64>::empty());
        r
    }

    /// Forgets every sample, as when a rolling window starts again.
    pub fn reset(&mut self)
        ensures
            final(self).wf(),
            final(self)@ == Seq::<LinkPacketData>::empty(),
    {
        *self = RunningStatistics::new();
    }

    /// How many samples have been recorded.
    pub fn len(&self) -> (r: u64)
        requires
            self.wf(),
        ensures
            r == self@.len(),
    {
        self.times.len() as u64
    }

    /// Appends one sample: the gap to the previous sample is added to the sum,
    /// the maximum and the latency bands, and its sequence counter is compared
    /// with the last one seen.
    pub fn record_sample(&mut self, sample: LinkPacketData)
        requires
            old(self).wf(),
            old(self)@.len() < u64::MAX,
        ensures
            final(self).wf(),
            final(self)@ == old(self)@.push(sample),
            final(self).max_gap() >= old(self).max_gap(),
    {
        let ghost s = self.samples@;
        let ghost s2 = s.push(sample);
        proof {
            lemma_gaps_push(s, sample);
            lemma_push_drop_last(s, sample);
            lemma_reorders_bound(s);
            let g = arrival_gaps(s);
            lemma_sum_bound(g);
            lemma_count_bound(g, BAND_2MS_US);
            lemma_count_bound(g, BAND_4MS_US);
            lemma_count_bound(g, BAND_8MS_US);
            lemma_count_bound(g, BAND_16MS_US);
            assert(sum_of(g) <= g.len() * 0xffff_ffff_ffff_ffffnat) by (nonlinear_arith)
                requires
                    sum_of(g) <= g.len() * max_of(g),
                    max_of(g) <= 0xffff_ffff_ffff_ffffnat,
            ;
            assert(g.len() * 0xffff_ffff_ffff_ffffnat + 0xffff_ffff_ffff_ffffnat
                <= 0xffff_ffff_ffff_ffff_ffff_ffff_ffff_ffffnat) by (nonlinear_arith)
                requires
                    g.len() < 0xffff_ffff_ffff_ffffnat,
            ;
        }
        let n = self.times.len();
        if n > 0 {
            let last = self.times[n - 1];
            proof {
                assert(self.times@[n - 1] == s.last().t_us);
            }
            let gap: u64 = if sample.t_us >= last {
                sample.t_us - last
            } else {
                0
            };
            let ghost g = arrival_gaps(s);
            proof {
                lemma_push_drop_last(g, gap);
            }
            self.gaps.push(gap);
            self.gap_sum_us = self.gap_sum_us + gap as u128;
            if gap > self.max_gap_us {
                self.max_gap_us = gap;
            }
            if gap >= BAND_2MS_US {
                self.band_2ms = self.band_2ms + 1;
            }
            if gap >= BAND_4MS_US {
                self.band_4ms = self.band_4ms + 1;
            }
            if gap >= BAND_8MS_US {
                self.band_8ms = self.band_8ms + 1;
            }
            if gap >= BAND_16MS_US {
                self.band_16ms = self.band_16ms + 1;
            }
        }
        match (self.last_sequence, sample.sequence) {
            (Some(p), Some(c)) => {
                if c <= p {
                    self.reorder_count = self.reorder_count + 1;
                } else if c - p > 1 {
                    self.sequence_gap_count = self.sequence_gap_count + 1;
                }
            },
            _ => {},
        }
        if sample.sequence.is_some() {
            self.last_sequence = sample.sequence;
        }
        self.times.push(sample.t_us);
        self.samples = Ghost(s2);
        proof {
            assert(self.times@ =~= arrival_times(s2));
            assert(self.gaps@ =~= arrival_gaps(s2));
        }
    }

    /// Records one received datagram: its arrival time, its size, and the
    /// sequence counter that its first eight bytes hold, if it has eight.
    pub fn record_arrival(&mut self, t_us: u64, payload: &[u8])
        requires
            old(self).wf(),
            old(self)@.len() < u64::MAX,
            payload@.len() <= u32::MAX,
        ensures
            final(self).wf(),
            final(self)@ == old(self)@.push(
                LinkPacketData {
                    t_us,
                    payload_size: payload@.len() as u32,
                    sequence: payload_sequence(payload@),
                },
            ),
    {
        let sample = LinkPacketData {
            t_us,
            payload_size: payload.len() as u32,
            sequence: read_sequence(payload),
        };
        self.record_sample(sample);
    }

    /// A consistent copy of every counter; all zero before the first sample.
    pub fn snapshot(&self) -> (r: StatsSnapshot)
        requires
            self.wf(),
        ensures
            r == summary_of(self@),
    {
        let ghost g = arrival_gaps(self@);
        let count = self.gaps.len() as u64;
        let average: u64 = if count == 0 {
            0
        } else {
            proof {
                lemma_sum_bound(g);
                assert(sum_of(g) / g.len() <= max_of(g)) by (nonlinear_arith)
                    requires
                        sum_of(g) <= g.len() * max_of(g),
                        g.len() > 0,
                ;
            }
            (self.gap_sum_us / (count as u128)) as u64
        };
        StatsSnapshot {
            sample_count: self.times.len() as u64,
            gap_count: count,
            gap_sum_us: self.gap_sum_us,
            max_gap_us: self.max_gap_us,
            average_gap_us: average,
            reorder_count: self.reorder_count,
            sequence_gap_count: self.sequence_gap_count,
            gaps_at_least_2ms: self.band_2ms,
            gaps_at_least_4ms: self.band_4ms,
            gaps_at_least_8ms: self.band_8ms,
            gaps_at_least_16ms: self.band_16ms,
        }
    }

    /// The timestamp of every recorded sample, oldest first.
    pub fn times(&self) -> (r: &[u64])
        requires
            self.wf(),
        ensures
            r@ == arrival_times(self@),
    {
        self.times.as_slice()
    }

    /// The gap before every sample but the first, oldest first.
    pub fn gaps(&self) -> (r: &[u64])
        requires
            self.wf(),
        ensures
            r@ == arrival_gaps(self@),
    {
        self.gaps.as_slice()
    }
}

/// The reported maximum gap is the true maximum: no gap is larger, and when
/// there is a gap, one of them equals it.
pub proof fn lemma_max_gap_is_maximum(s: Seq<LinkPacketData>)
    ensures
        ({
            let g = arrival_gaps(s);
            &&& forall|i: int| 0 <= i < g.len() ==> #[trigger] g[i] <= summary_of(s).max_gap_us
            &&& g.len() > 0 ==> exists|i: int|
                0 <= i < g.len() && #[trigger] g[i] == summary_of(s).max_gap_us
        }),
{
    let g = arrival_gaps(s);
    lemma_sum_bound(g);
    lemma_max_attained(g);
}

proof fn lemma_max_attained(g: Seq<u64>)
    ensures
        g.len() > 0 ==> exists|i: int| 0 <= i < g.len() && #[trigger] g[i] == max_of(g),
    decreases g.len(),
{
    if g.len() > 1 {
        let p = g.drop_last();
        lemma_max_attained(p);
        if g.last() <= max_of(p) {
            let i = choose|i: int| 0 <= i < p.len() && #[trigger] p[i] == max_of(p);
            assert(g[i] == p[i]);
            assert(g[i] == max_of(g));
        } else {
            assert(g[g.len() - 1] == max_of(g));
        }
    } else if g.len() == 1 {
        assert(max_of(g.drop_last()) == 0);
        assert(g[0] == max_of(g));
    }
}

/// The reported average gap is the arithmetic mean of all recorded gaps,
/// rounded down to a microsecond: the sum of the gaps lies between `average`
/// and `average + 1` times their number. The sum itself is reported exactly.
pub proof fn lemma_average_gap_is_mean(s: Seq<LinkPacketData>)
    requires
        s.len() <= u64::MAX,
    ensures
        ({
            let g = arrival_gaps(s);
            let r = summary_of(s);
            &&& r.gap_sum_us == sum_of(g)
            &&& r.gap_count == g.len()
            &&& g.len() > 0 ==> r.average_gap_us * g.len() <= sum_of(g) < (r.average_gap_us + 1)
                * g.len()
        }),
{
    let g = arrival_gaps(s);
    lemma_sum_bound(g);
    assert(sum_of(g) <= g.len() * 0xffff_ffff_ffff_ffffnat) by (nonlinear_arith)
        requires
            sum_of(g) <= g.len() * max_of(g),
            max_of(g) <= 0xffff_ffff_ffff_ffffnat,
    ;
    assert(g.len() * 0xffff_ffff_ffff_ffffnat <= 0xffff_ffff_ffff_ffff_ffff_ffff_ffff_ffffnat)
        by (nonlinear_arith)
        requires
            g.len() <= 0xffff_ffff_ffff_ffffnat,
    ;
    if g.len() > 0 {
        let m = sum_of(g) / g.len();
        assert(m <= max_of(g)) by (nonlinear_arith)
            requires
                sum_of(g) <= g.len() * max_of(g),
                g.len() > 0,
                m == sum_of(g) / g.len(),
        ;
        assert(m * g.len() <= sum_of(g) < (m + 1) * g.len()) by (nonlinear_arith)
            requires
                g.len() > 0,
                m == sum_of(g) / g.len(),
        ;
    }
}

/// With no samples every statistic is zero.
pub proof fn lemma_empty_statistics_are_zero()
    ensures
        summary_of(Seq::<LinkPacketData>::empty()) == (StatsSnapshot {
            sample_count: 0,
            gap_count: 0,
            gap_sum_us: 0,
            max_gap_us: 0,
            average_gap_us: 0,
            reorder_count: 0,
            sequence_gap_count: 0,
            gaps_at_least_2ms: 0,
            gaps_at_least_4ms: 0,
            gaps_at_least_8ms: 0,
            gaps_at_least_16ms: 0,
        }),
{
    assert(arrival_gaps(Seq::<LinkPacketData>::empty()) =~= Seq::<u64>::empty());
}

} // verus!
