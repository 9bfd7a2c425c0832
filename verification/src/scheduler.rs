//! The periodic-job registry.
//!
//! The reconciliation and chunk jobs are driven by timers owned by the
//! hosting runtime; this registry records which jobs are meant to run and
//! at which interval. Registration and deregistration are idempotent:
//! starting a job that already runs keeps it as it is, and cancelling an
//! absent job is treated as success, never as an error.

use vstd::prelude::*;

verus! {

/// The periodic jobs the core schedules.
#[derive(Clone, Copy, Debug, PartialEq, Eq, Structural)]
pub enum JobKind {
    /// Drains the buffered position updates.
    PositionUpdates,
    /// Drains the buffered rotation updates.
    RotationUpdates,
    /// Recomputes the chunk cell of every online entity.
    ChunkRecompute,
}

/// A registered periodic job.
#[derive(Clone, Copy, Debug, PartialEq, Eq, Structural)]
pub struct PeriodicJob {
    pub kind: JobKind,
    pub interval_ms: u64,
}

/// Some job of kind `k` is registered.
pub open spec fn has_job(s: Seq<PeriodicJob>, k: JobKind) -> bool {
    exists|i: int| 0 <= i < s.len() && (#[trigger] s[i]).kind == k
}

/// What starting a job does to the registry: a no-op when the kind is
/// already registered, else a registration at the given interval.
pub open spec fn spec_start_job(s: Seq<PeriodicJob>, k: JobKind, interval_ms: u64) -> Seq<PeriodicJob> {
    if has_job(s, k) {
        s
    } else {
        s.push(PeriodicJob { kind: k, interval_ms })
    }
}

/// What stopping a job does to the registry: every job of that kind is
/// removed, and removing an absent kind changes nothing.
pub open spec fn spec_stop_job(s: Seq<PeriodicJob>, k: JobKind) -> Seq<PeriodicJob>
    decreases s.len(),
{
    if s.len() == 0 {
        Seq::empty()
    } else if s.last().kind == k {
        spec_stop_job(s.drop_last(), k)
    } else {
        spec_stop_job(s.drop_last(), k).push(s.last())
    }
}

/// What stopping keeps and drops.
pub proof fn lemma_spec_stop_job(s: Seq<PeriodicJob>, k: JobKind)
    ensures
        !has_job(spec_stop_job(s, k), k),
        forall|k2: JobKind| k2 != k
            ==> (#[trigger] has_job(spec_stop_job(s, k), k2) <==> has_job(s, k2)),
        !has_job(s, k) ==> spec_stop_job(s, k) == s,
    decreases s.len(),
{
    let w = spec_stop_job(s, k);
    if s.len() == 0 {
        assert(w =~= s);
    } else {
        let t = s.drop_last();
        let wt = spec_stop_job(t, k);
        lemma_spec_stop_job(t, k);
        assert forall|k2: JobKind| has_job(t, k2) implies has_job(s, k2) by {
            let i = choose|i: int| 0 <= i < t.len() && (#[trigger] t[i]).kind == k2;
            assert(s[i].kind == k2);
        }
        assert forall|k2: JobKind| has_job(s, k2) && s.last().kind != k2
            implies has_job(t, k2) by {
            let i = choose|i: int| 0 <= i < s.len() && (#[trigger] s[i]).kind == k2;
            assert(i < s.len() - 1);
            assert(t[i].kind == k2);
        }
        if s.last().kind == k {
            assert(w == wt);
        } else {
            assert(w == wt.push(s.last()));
            assert forall|k2: JobKind| #[trigger] has_job(w, k2)
                implies has_job(wt, k2) || s.last().kind == k2 by {
                let i = choose|i: int| 0 <= i < w.len() && (#[trigger] w[i]).kind == k2;
                if i < w.len() - 1 {
                    assert(wt[i].kind == k2);
                }
            }
            assert forall|k2: JobKind| has_job(wt, k2) implies #[trigger] has_job(w, k2) by {
                let i = choose|i: int| 0 <= i < wt.len() && (#[trigger] wt[i]).kind == k2;
                assert(w[i].kind == k2);
            }
            assert(w[w.len() - 1] == s.last());
        }
        if !has_job(s, k) {
            assert(s[s.len() - 1] == s.last());
            assert(s.last().kind != k);
            assert(!has_job(t, k));
            assert(w =~= s);
        }
    }
}

/// Starting twice is the same as starting once: registration is
/// idempotent, and a second start never changes the interval of a job
/// that already runs.
pub proof fn lemma_start_idempotent(s: Seq<PeriodicJob>, k: JobKind, i1: u64, i2: u64)
    ensures
        spec_start_job(spec_start_job(s, k, i1), k, i2) == spec_start_job(s, k, i1),
{
    let s1 = spec_start_job(s, k, i1);
    if !has_job(s, k) {
        assert(s1[s1.len() - 1].kind == k);
        assert(has_job(s1, k));
    }
}

/// Stopping twice is the same as stopping once: deregistration is
/// idempotent.
pub proof fn lemma_stop_idempotent(s: Seq<PeriodicJob>, k: JobKind)
    ensures
        spec_stop_job(spec_stop_job(s, k), k) == spec_stop_job(s, k),
{
    lemma_spec_stop_job(s, k);
    lemma_spec_stop_job(spec_stop_job(s, k), k);
}

/// The registry of periodic jobs.
pub struct Scheduler {
    pub jobs: Vec<PeriodicJob>,
}

impl Scheduler {
    /// At most one job per kind.
    pub open spec fn wf(self) -> bool {
        forall|i: int, j: int| 0 <= i < j < self.jobs@.len()
            ==> (#[trigger] self.jobs@[i]).kind != (#[trigger] self.jobs@[j]).kind
    }

    /// A registry with no jobs.
    pub fn new() -> (r: Scheduler)
        ensures
            r.wf(),
            r.jobs@.len() == 0,
    {
        Scheduler { jobs: Vec::new() }
    }

    /// Whether a job of this kind is registered.
    pub fn is_running(&self, kind: JobKind) -> (b: bool)
        ensures
            b == has_job(self.jobs@, kind),
    {
        let n = self.jobs.len();
        let mut i: usize = 0;
        while i < n
            invariant
                i <= n,
                n == self.jobs@.len(),
                forall|j: int| 0 <= j < i ==> (#[trigger] self.jobs@[j]).kind != kind,
            decreases n - i,
        {
            if self.jobs[i].kind == kind {
                assert(self.jobs@[i as int].kind == kind);
                return true;
            }
            i = i + 1;
        }
        false
    }

    /// Registers a job unless one of the kind already runs; returns
    /// whether this call started it. Double-starting is a safe no-op.
    pub fn start_job(&mut self, kind: JobKind, interval_ms: u64) -> (started: bool)
        requires
            old(self).wf(),
        ensures
            final(self).wf(),
            final(self).jobs@ == spec_start_job(old(self).jobs@, kind, interval_ms),
            started == !has_job(old(self).jobs@, kind),
            has_job(final(self).jobs@, kind),
    {
        if self.is_running(kind) {
            proof {
                assert(has_job(self.jobs@, kind));
            }
            false
        } else {
            self.jobs.push(PeriodicJob { kind, interval_ms });
            proof {
                let post = self.jobs@;
                let pre = old(self).jobs@;
                assert(post[post.len() - 1].kind == kind);
                assert forall|i: int, j: int| 0 <= i < j < post.len()
                    implies (#[trigger] post[i]).kind != (#[trigger] post[j]).kind by {
                    if j == post.len() - 1 {
                        assert(post[i] == pre[i]);
                        assert(!has_job(pre, kind));
                    }
                }
            }
            true
        }
    }

    /// Deregisters the job of this kind; cancelling one that is not
    /// running is treated as success. Returns whether it was running.
    pub fn stop_job(&mut self, kind: JobKind) -> (was_running: bool)
        requires
            old(self).wf(),
        ensures
            final(self).wf(),
            final(self).jobs@ == spec_stop_job(old(self).jobs@, kind),
            was_running == has_job(old(self).jobs@, kind),
            !has_job(final(self).jobs@, kind),
    {
        proof {
            lemma_spec_stop_job(self.jobs@, kind);
        }
        let was_running = self.is_running(kind);
        let mut kept: Vec<PeriodicJob> = Vec::new();
        let n = self.jobs.len();
        let mut i: usize = 0;
        while i < n
            invariant
                i <= n,
                n == self.jobs@.len(),
                self == old(self),
                kept@ == spec_stop_job(self.jobs@.subrange(0, i as int), kind),
            decreases n - i,
        {
            proof {
                let pre = self.jobs@.subrange(0, i as int);
                let cur = self.jobs@.subrange(0, i as int + 1);
                assert(cur.drop_last() =~= pre);
                assert(cur.last() == self.jobs@[i as int]);
            }
            let job = self.jobs[i];
            if !(job.kind == kind) {
                kept.push(job);
            }
            i = i + 1;
        }
        proof {
            assert(self.jobs@.subrange(0, n as int) =~= self.jobs@);
        }
        self.jobs = kept;
        proof {
            let post = self.jobs@;
            let pre = old(self).jobs@;
            assert forall|i2: int, j2: int| 0 <= i2 < j2 < post.len()
                implies (#[trigger] post[i2]).kind != (#[trigger] post[j2]).kind by {
                lemma_stop_kept_pairwise(pre, kind, i2, j2);
            }
        }
        was_running
    }
}

/// Any two distinct surviving jobs come from distinct entries of the
/// registry before the stop, so their kinds still differ when that
/// registry had unique kinds.
proof fn lemma_stop_kept_pairwise(s: Seq<PeriodicJob>, k: JobKind, a: int, b: int)
    requires
        forall|i: int, j: int| 0 <= i < j < s.len()
            ==> (#[trigger] s[i]).kind != (#[trigger] s[j]).kind,
        0 <= a < b < spec_stop_job(s, k).len(),
    ensures
        spec_stop_job(s, k)[a].kind != spec_stop_job(s, k)[b].kind,
    decreases s.len(),
{
    let w = spec_stop_job(s, k);
    let t = s.drop_last();
    let wt = spec_stop_job(t, k);
    if s.last().kind == k {
        lemma_stop_kept_pairwise(t, k, a, b);
    } else {
        if b < w.len() - 1 {
            lemma_stop_kept_pairwise(t, k, a, b);
        } else {
            assert(w[b] == s.last());
            assert(w[a] == wt[a]);
            lemma_stop_member(t, k, a);
            let i = choose|i: int| 0 <= i < t.len() && t[i] == wt[a];
            assert(s[i] == t[i]);
            assert(s[i].kind != s[s.len() - 1].kind);
        }
    }
}

/// Every surviving job occurs in the registry before the stop.
proof fn lemma_stop_member(s: Seq<PeriodicJob>, k: JobKind, a: int)
    requires
        0 <= a < spec_stop_job(s, k).len(),
    ensures
        exists|i: int| 0 <= i < s.len() && s[i] == spec_stop_job(s, k)[a],
    decreases s.len(),
{
    let w = spec_stop_job(s, k);
    let t = s.drop_last();
    let wt = spec_stop_job(t, k);
    if s.last().kind == k {
        lemma_stop_member(t, k, a);
        let i = choose|i: int| 0 <= i < t.len() && t[i] == wt[a];
        assert(s[i] == w[a]);
    } else {
        if a < w.len() - 1 {
            lemma_stop_member(t, k, a);
            let i = choose|i: int| 0 <= i < t.len() && t[i] == wt[a];
            assert(s[i] == w[a]);
        } else {
            assert(s[s.len() - 1] == w[a]);
        }
    }
}

} // verus!
