use vstd::prelude::*;

verus! {

/// What the pacer asks its caller to do after one reading of the clock.
#[derive(Debug, Clone, Copy, PartialEq, Eq, Structural)]
pub enum PacerDecision {
    /// The next deadline has not come yet: read the clock again.
    Wait,
    /// Send packet number `sequence` now. `overrun` is set when the deadline
    /// was missed by more than one interval, a sign that the requested rate
    /// cannot be kept on this host.
    Send { sequence: u64, overrun: bool },
}

/// Deadline scheduling for a transmitter. Packet `k` (counting from 1) is due
/// `k * interval_us` microseconds after the start, whatever time the earlier
/// packets actually left, so the error of one send never carries into the
/// next.
#[derive(Debug, Clone, Copy, PartialEq, Eq, Structural)]
pub struct Pacer {
    pub interval_us: u64,
    /// Packets sent so far.
    pub sent: u64,
    /// Packets sent more than one interval after their deadline.
    pub overruns: u64,
}

/// When the next packet is due, in microseconds after the start.
pub open spec fn next_deadline(p: Pacer) -> int {
    (p.sent + 1) * p.interval_us
}

/// One reading of the clock, `elapsed_us` after the start: the next state and
/// the decision. Once `u64::MAX` packets are sent the pacer only waits.
pub open spec fn poll_step(p: Pacer, elapsed_us: u64) -> (Pacer, PacerDecision) {
    if p.sent < u64::MAX && elapsed_us >= next_deadline(p) {
        let overrun = elapsed_us - next_deadline(p) > p.interval_us;
        (
            Pacer {
                interval_us: p.interval_us,
                sent: (p.sent + 1) as u64,
                overruns: if overrun {
                    (p.overruns + 1) as u64
                } else {
                    p.overruns
                },
            },
            PacerDecision::Send { sequence: p.sent, overrun },
        )
    } else {
        (p, PacerDecision::Wait)
    }
}

/// The states and decisions of a pacer fed the clock readings `readings`.
pub open spec fn run_pacer(p: Pacer, readings: Seq<u64>) -> (Pacer, Seq<PacerDecision>)
    decreases readings.len(),
{
    if readings.len() == 0 {
        (p, Seq::empty())
    } else {
        let (q, ds) = run_pacer(p, readings.drop_last());
        let (q2, d) = poll_step(q, readings.last());
        (q2, ds.push(d))
    }
}

/// How many of the decisions are sends.
pub open spec fn send_count(ds: Seq<PacerDecision>) -> nat
    decreases ds.len(),
{
    if ds.len() == 0 {
        0
    } else {
        send_count(ds.drop_last()) + if ds.last() is Send {
            1nat
        } else {
            0nat
        }
    }
}

proof fn lemma_send_count_bound(ds: Seq<PacerDecision>)
    ensures
        send_count(ds) <= ds.len(),
    decreases ds.len(),
{
    if ds.len() > 0 {
        lemma_send_count_bound(ds.drop_last());
    }
}

impl Pacer {
    pub open spec fn wf(&self) -> bool {
        self.overruns <= self.sent
    }

    /// A pacer at the start of a run: nothing sent yet.
    pub fn new(send_interval_us: u32) -> (r: Pacer)
        ensures
            r.wf(),
            r.interval_us == send_interval_us,
            r.sent == 0,
            r.overruns == 0,
    {
        Pacer { interval_us: send_interval_us as u64, sent: 0, overruns: 0 }
    }

    /// When the next packet is due, in microseconds after the start.
    pub fn next_deadline_us(&self) -> (r: u128)
        ensures
            r == next_deadline(*self),
    {
        proof {
            assert((self.sent + 1) * self.interval_us <= 0x1_0000_0000_0000_0000 * 0xffff_ffff_ffff_ffff)
                by (nonlinear_arith)
                requires
                    self.sent + 1 <= 0x1_0000_0000_0000_0000,
                    self.interval_us <= 0xffff_ffff_ffff_ffff,
            ;
        }
        (self.sent as u128 + 1) * (self.interval_us as u128)
    }

    /// Takes one reading of the clock, `elapsed_us` microseconds after the
    /// start, and says whether the next packet is due.
    pub fn poll(&mut self, elapsed_us: u64) -> (r: PacerDecision)
        requires
            old(self).wf(),
        ensures
            final(self).wf(),
            (*final(self), r) == poll_step(*old(self), elapsed_us),
    {
        let deadline = self.next_deadline_us();
        if self.sent < u64::MAX && elapsed_us as u128 >= deadline {
            let overrun = elapsed_us as u128 - deadline > self.interval_us as u128;
            let sequence = self.sent;
            self.sent = self.sent + 1;
            if overrun {
                self.overruns = self.overruns + 1;
            }
            PacerDecision::Send { sequence, overrun }
        } else {
            PacerDecision::Wait
        }
    }
}

/// Deadlines do not drift: whatever clock readings a pacer is fed, its next
/// deadline afterwards is fixed by the number of packets sent alone, one
/// interval per packet from the start; every packet leaves at or after its
/// own deadline, and a reading that waits comes before the deadline then due.
pub proof fn lemma_schedule_without_drift(p: Pacer, readings: Seq<u64>)
    requires
        p.wf(),
        p.sent + readings.len() < u64::MAX,
    ensures
        ({
            let (q, ds) = run_pacer(p, readings);
            &&& q.wf()
            &&& ds.len() == readings.len()
            &&& q.interval_us == p.interval_us
            &&& q.sent == p.sent + send_count(ds)
            &&& next_deadline(q) == (p.sent + send_count(ds) + 1) * p.interval_us
            &&& forall|i: int|
                0 <= i < ds.len() ==> {
                    let before = send_count(ds.subrange(0, i));
                    &&& ((#[trigger] ds[i]) is Send <==> readings[i] >= (p.sent + before + 1) * p.interval_us)
                    &&& (ds[i] is Send ==> ds[i]->sequence == p.sent + before)
                }
        }),
    decreases readings.len(),
{
    if readings.len() > 0 {
        let rs = readings.drop_last();
        lemma_schedule_without_drift(p, rs);
        let (q, ds) = run_pacer(p, rs);
        let (q2, d) = poll_step(q, readings.last());
        let ds2 = ds.push(d);
        assert(ds2.drop_last() =~= ds);
        assert(ds2.subrange(0, ds.len() as int) =~= ds);
        lemma_send_count_bound(ds);
        assert(readings[ds.len() as int] == readings.last());
        assert forall|i: int| 0 <= i < ds2.len() implies {
            let before = send_count(ds2.subrange(0, i));
            &&& ((#[trigger] ds2[i]) is Send <==> readings[i] >= (p.sent + before + 1) * p.interval_us)
            &&& (ds2[i] is Send ==> ds2[i]->sequence == p.sent + before)
        } by {
            if i < ds.len() {
                assert(ds2.subrange(0, i) =~= ds.subrange(0, i));
                assert(ds2[i] == ds[i]);
                assert(readings[i] == rs[i]);
            }
        }
    }
}

/// Bounded lateness: when the clock is read at least once every `step`
/// microseconds (a step no longer than the interval), starting from a fresh
/// pacer, every packet `k` leaves less than `step` after its deadline
/// `(k + 1) * interval_us`, none is flagged as an overrun, and the reading
/// after a send is always before the next deadline. The bound is the same
/// for every packet: the error does not grow with `k`.
pub proof fn lemma_sends_within_one_step(interval_us: u32, step: nat, readings: Seq<u64>)
    requires
        0 < step <= interval_us,
        readings.len() < u64::MAX,
        readings.len() > 0 ==> readings[0] <= step,
        forall|i: int| 0 < i < readings.len() ==> #[trigger] readings[i] <= readings[i - 1] + step,
    ensures
        ({
            let p = Pacer { interval_us: interval_us as u64, sent: 0, overruns: 0 };
            let (q, ds) = run_pacer(p, readings);
            &&& q.overruns == 0
            &&& q.interval_us == interval_us
            &&& q.sent <= readings.len()
            &&& ds.len() == readings.len()
            &&& readings.len() > 0 ==> readings.last() < next_deadline(q)
            &&& forall|i: int|
                0 <= i < ds.len() && (#[trigger] ds[i]) is Send ==> {
                    &&& readings[i] < (ds[i]->sequence + 1) * interval_us + step
                    &&& !ds[i]->overrun
                }
        }),
    decreases readings.len(),
{
    let p = Pacer { interval_us: interval_us as u64, sent: 0, overruns: 0 };
    if readings.len() > 0 {
        let rs = readings.drop_last();
        assert forall|i: int| 0 < i < rs.len() implies #[trigger] rs[i] <= rs[i - 1] + step by {
            assert(rs[i] == readings[i] && rs[i - 1] == readings[i - 1]);
        }
        lemma_sends_within_one_step(interval_us, step, rs);
        let (q, ds) = run_pacer(p, rs);
        let (q2, d) = poll_step(q, readings.last());
        let ds2 = ds.push(d);
        assert(run_pacer(p, readings) == (q2, ds2));
        let r = readings.last();
        let previous: int = if rs.len() > 0 {
            rs.last() as int
        } else {
            0
        };
        assert(previous < next_deadline(q)) by {
            if rs.len() == 0 {
                assert(q == p);
                assert(next_deadline(q) == interval_us as int) by (nonlinear_arith)
                    requires
                        q.sent == 0,
                        q.interval_us == interval_us,
                        next_deadline(q) == (q.sent + 1) * q.interval_us,
                ;
            }
        }
        assert(r <= previous + step) by {
            if rs.len() > 0 {
                assert(readings[readings.len() - 1] <= readings[readings.len() - 2] + step);
            }
        }
        if d is Send {
            assert(next_deadline(q2) == next_deadline(q) + interval_us) by (nonlinear_arith)
                requires
                    next_deadline(q) == (q.sent + 1) * q.interval_us,
                    next_deadline(q2) == (q2.sent + 1) * q2.interval_us,
                    q2.sent == q.sent + 1,
                    q2.interval_us == q.interval_us,
                    q.interval_us == interval_us,
            ;
        }
        assert forall|i: int| 0 <= i < ds2.len() && (#[trigger] ds2[i]) is Send implies {
            &&& readings[i] < (ds2[i]->sequence + 1) * interval_us + step
            &&& !ds2[i]->overrun
        } by {
            if i < ds.len() {
                assert(ds2[i] == ds[i]);
                assert(readings[i] == rs[i]);
            } else {
                assert(readings[i] == r);
            }
        }
    }
}

} // verus!
