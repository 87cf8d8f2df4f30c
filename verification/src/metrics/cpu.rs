//! CPU%: diffs the per-process on-CPU nanosecond counter (`CPU_NS`, read in
//! batch) between ticks. Returns a per-pid map; the backend selects and
//! enriches, the renderer sorts. The system total is normalised by core count
//! in the backend.

use std::collections::HashMap;

use vstd::prelude::*;

use crate::counters;
use crate::metrics;
use crate::metrics::{Deltas, Snapshot};
use crate::percent::Percent;

verus! {

broadcast use vstd::std_specs::hash::group_hash_axioms;

/// CPU share over the last interval, in top's convention: 100% is one core, so
/// a process running K threads flat out reads about K*100.
#[derive(Debug, Clone, Copy, Default, PartialEq)]
pub struct CpuMetrics {
    pub cpu_percent: Percent,
}

/// What `pid` is charged for the interval between two readings: nothing where it
/// has no baseline or no time has passed.
pub open spec fn charged(
    prev: metrics::Reading,
    current: metrics::Reading,
    pid: u32,
) -> u64 {
    if prev.by_pid.contains_key(pid) && current.elapsed_since(prev) > 0 {
        current.grown(prev, pid)
    } else {
        0
    }
}

/// What every process that `current` holds is charged for the interval.
pub open spec fn charges(prev: metrics::Reading, current: metrics::Reading) -> Map<u32, u64> {
    Map::new(|pid: u32| current.by_pid.contains_key(pid), |pid: u32| charged(prev, current, pid))
}

/// What a collector whose baseline is `prev` makes of `current`: its next baseline, the
/// time that has passed, and what each process is counted over it.
pub open spec fn taken_up(prev: metrics::Reading, current: metrics::Reading) -> (
    metrics::Reading,
    nat,
    Map<u32, u64>,
) {
    (current, current.elapsed_since(prev), charges(prev, current))
}

#[derive(Debug)]
pub struct CpuCollector {
    pub prev: Snapshot,
}

impl CpuCollector {
    /// A collector with no baseline.
    pub fn new() -> (out: CpuCollector)
        ensures
            out.prev@ == metrics::Reading::none(),
    {
        CpuCollector { prev: Snapshot::default() }
    }

    /// Per-process CPU% for the interval, keyed by pid. First-sight pids read 0%
    /// (no baseline); multithreaded processes can exceed 100%.
    ///
    /// A counter that goes backwards reads 0% for one interval and then reports
    /// normally. Two things do that: an entry evicted from a full LRU map and
    /// re-created when its process next runs, and a recycled pid inheriting the
    /// larger total of the dead process that held it. Both resolve themselves on
    /// the following tick.
    pub fn deltas(&mut self, current: Snapshot) -> (out: Deltas)
        ensures
            final(self).prev == current,
            out.whole == current@.elapsed_since(old(self).prev@),
            out.parts@ == charges(old(self).prev@, current@),
            (final(self).prev@, out.whole as nat, out.parts@) == taken_up(
                old(self).prev@,
                current@,
            ),
    {
        let elapsed = current.elapsed_ns_since(&self.prev);
        let all = counters::entries(&current.by_pid);
        let mut parts: HashMap<u32, u64> = HashMap::new();
        let ghost prev = self.prev@;
        for i in 0..all.len()
            invariant
                prev == self.prev@,
                elapsed == current@.elapsed_since(prev),
                counters::lists(all@, current.by_pid@),
                forall|pid: u32| #[trigger]
                    parts@.contains_key(pid) <==> exists|j: int|
                        0 <= j < i && (#[trigger] all@[j]).0 == pid,
                forall|pid: u32| #[trigger]
                    parts@.contains_key(pid) ==> parts@[pid] == charged(prev, current@, pid),
        {
            let (pid, total) = all[i];
            assert(all@[i as int].0 == pid);
            let part = match self.prev.by_pid.get(&pid) {
                Some(was) => if elapsed > 0 {
                    total.saturating_sub(*was)
                } else {
                    0
                },
                None => 0,
            };
            parts.insert(pid, part);
        }
        assert(parts@ =~= charges(prev, current@)) by {
            assert forall|pid: u32| current.by_pid@.contains_key(pid) implies #[trigger]
                parts@.contains_key(pid) by {
                assert(current@.by_pid.contains_key(pid));
            }
        }
        self.prev = current;
        Deltas { whole: elapsed, parts }
    }
}

// ── Laws ─────────────────────────────────────────────────────────────────────

/// `readings` are taken one after the other and all hold a counter for `pid`.
pub open spec fn follows(readings: Seq<metrics::Reading>, pid: u32) -> bool {
    forall|i: int|
        0 <= i < readings.len() ==> (#[trigger] readings[i]).by_pid.contains_key(pid) && (i > 0
            ==> readings[i].elapsed_since(readings[i - 1]) > 0)
}

/// What `pid` is charged over all intervals between `readings`.
pub open spec fn charged_over(readings: Seq<metrics::Reading>, pid: u32) -> nat
    decreases readings.len(),
{
    if readings.len() < 2 {
        0
    } else {
        charged_over(readings.drop_last(), pid) + charged(
            readings[readings.len() - 2],
            readings.last(),
            pid,
        ) as nat
    }
}

/// Nothing is lost and nothing charged twice: while a counter only grows, the
/// intervals add up to what it grew by.
pub proof fn intervals_add_up(readings: Seq<metrics::Reading>, pid: u32)
    requires
        readings.len() > 0,
        follows(readings, pid),
        forall|i: int|
            0 < i < readings.len() ==> readings[i - 1].by_pid[pid] <= (
            #[trigger] readings[i]).by_pid[pid],
    ensures
        charged_over(readings, pid) == readings.last().by_pid[pid] - readings[0].by_pid[pid],
    decreases readings.len(),
{
    if readings.len() >= 2 {
        let shorter = readings.drop_last();
        assert(follows(shorter, pid)) by {
            assert forall|i: int| 0 <= i < shorter.len() implies (
            #[trigger] shorter[i]).by_pid.contains_key(pid) && (i > 0
                ==> shorter[i].elapsed_since(shorter[i - 1]) > 0) by {
                assert(shorter[i] == readings[i]);
            }
        }
        assert forall|i: int| 0 < i < shorter.len() implies shorter[i - 1].by_pid[pid] <= (
        #[trigger] shorter[i]).by_pid[pid] by {
            assert(shorter[i] == readings[i]);
        }
        intervals_add_up(shorter, pid);
        assert(readings[readings.len() - 1] == readings.last());
        assert(readings[readings.len() - 2].by_pid.contains_key(pid));
    }
}

/// A counter that goes backwards reads zero for one interval, and reports what it
/// grew by from there on.
pub proof fn a_reset_reads_zero_once(
    first: metrics::Reading,
    reset: metrics::Reading,
    next: metrics::Reading,
    pid: u32,
)
    requires
        follows(seq![first, reset, next], pid),
        reset.by_pid[pid] < first.by_pid[pid],
        reset.by_pid[pid] <= next.by_pid[pid],
    ensures
        charged(first, reset, pid) == 0,
        charged(reset, next, pid) == next.by_pid[pid] - reset.by_pid[pid],
{
    let all = seq![first, reset, next];
    assert(all[0] == first && all[1] == reset && all[2] == next);
}

/// Every process of the reading is charged, and nobody else: what its counter grew by
/// since the last reading, or nothing where that did not hold it, where it went
/// backwards, or where no time lies between the two.
pub proof fn what_is_charged_is_what_was_run(
    prev: metrics::Reading,
    current: metrics::Reading,
    pid: u32,
)
    ensures
        charges(prev, current).contains_key(pid) <==> current.by_pid.contains_key(pid),
        current.by_pid.contains_key(pid) ==> {
            let charge = charges(prev, current)[pid];
            if prev.by_pid.contains_key(pid) && prev.by_pid[pid] <= current.by_pid[pid]
                && prev.at is Some && current.at is Some && prev.at->0 < current.at->0 {
                prev.by_pid[pid] + charge == current.by_pid[pid]
            } else {
                charge == 0
            }
        },
{
}

/// The baseline of a collector that started from `prev` and has taken `readings` up.
pub open spec fn baseline(prev: metrics::Reading, readings: Seq<metrics::Reading>) -> metrics::Reading
    decreases readings.len(),
{
    if readings.len() == 0 {
        prev
    } else {
        taken_up(baseline(prev, readings.drop_last()), readings.last()).0
    }
}

/// What a collector that started from `prev` has charged `pid` over `readings`.
pub open spec fn counted(prev: metrics::Reading, readings: Seq<metrics::Reading>, pid: u32) -> nat
    decreases readings.len(),
{
    if readings.len() == 0 {
        0
    } else {
        let before = readings.drop_last();
        counted(prev, before, pid) + taken_up(baseline(prev, before), readings.last()).2[pid] as nat
    }
}

/// `readings` are taken at later and later times and all hold a counter for `pid` that
/// only grows.
pub open spec fn only_grows(readings: Seq<metrics::Reading>, pid: u32) -> bool {
    forall|i: int|
        0 <= i < readings.len() ==> {
            &&& (#[trigger] readings[i]).by_pid.contains_key(pid)
            &&& readings[i].at is Some
            &&& i > 0 ==> readings[i - 1].at->0 < readings[i].at->0 && readings[i - 1].by_pid[pid]
                <= readings[i].by_pid[pid]
        }
}

/// A collector counts on from each reading to the next: over any number of them, while
/// the counter of a process only grows, it charges what that grew by from where it
/// started.
pub proof fn a_collector_charges_all_growth(
    prev: metrics::Reading,
    readings: Seq<metrics::Reading>,
    pid: u32,
)
    requires
        only_grows(seq![prev] + readings, pid),
        readings.len() > 0,
    ensures
        counted(prev, readings, pid) + prev.by_pid[pid] == readings.last().by_pid[pid],
        baseline(prev, readings) == readings.last(),
        taken_up(baseline(prev, readings.drop_last()), readings.last()).1 > 0,
    decreases readings.len(),
{
    let before = readings.drop_last();
    let all = seq![prev] + readings;
    let n = all.len() - 1;
    assert(all[n] == readings.last());
    assert(all[0] == prev);
    if before.len() > 0 {
        let fewer = seq![prev] + before;
        assert forall|i: int| 0 <= i < fewer.len() implies #[trigger] fewer[i] == all[i] by {}
        assert(only_grows(fewer, pid));
        a_collector_charges_all_growth(prev, before, pid);
        assert(all[n - 1] == before.last());
    } else {
        assert(all[n - 1] == prev);
        assert(counted(prev, before, pid) == 0);
    }
}

} // verus!
