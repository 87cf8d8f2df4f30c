//! I/O wait per process: share of the interval spent blocked in uninterruptible
//! (D-state) sleep. Mirrors `cpu` - diffs the per-tgid nanosecond counter
//! (`IOWAIT_NS`) between ticks into a per-pid map.

use std::collections::HashMap;

use vstd::prelude::*;

use crate::counters;
use crate::metrics;
use crate::metrics::{Deltas, Snapshot};
use crate::percent::Percent;

verus! {

broadcast use vstd::std_specs::hash::group_hash_axioms;

/// Share of the last interval spent in uninterruptible I/O sleep. Summed over
/// threads, so it can exceed 100 when several block concurrently.
#[derive(Debug, Clone, Copy, Default, PartialEq)]
pub struct IoMetrics {
    pub io_wait_percent: Percent,
}

/// `pid` is measured over the interval between two readings: time has passed and
/// both of them hold it.
pub open spec fn measured(
    prev: metrics::Reading,
    current: metrics::Reading,
    pid: u32,
) -> bool {
    current.elapsed_since(prev) > 0 && prev.by_pid.contains_key(pid)
        && current.by_pid.contains_key(pid)
}

/// What every process that is measured over the interval waited.
pub open spec fn waits(prev: metrics::Reading, current: metrics::Reading) -> Map<u32, u64> {
    Map::new(|pid: u32| measured(prev, current, pid), |pid: u32| current.grown(prev, pid))
}

/// What a collector whose baseline is `prev` makes of `current`: its next baseline, the
/// time that has passed, and what each process is counted over it.
pub open spec fn taken_up(prev: metrics::Reading, current: metrics::Reading) -> (
    metrics::Reading,
    nat,
    Map<u32, u64>,
) {
    (current, current.elapsed_since(prev), waits(prev, current))
}

#[derive(Debug)]
pub struct IoWaitCollector {
    pub prev: Snapshot,
}

impl IoWaitCollector {
    /// A collector with no baseline.
    pub fn new() -> (out: IoWaitCollector)
        ensures
            out.prev@ == metrics::Reading::none(),
    {
        IoWaitCollector { prev: Snapshot::default() }
    }

    /// Per-process I/O-wait share for the interval, keyed by pid. Only pids with
    /// a baseline appear (first-sight pids wait until the next tick).
    pub fn deltas(&mut self, current: Snapshot) -> (out: Deltas)
        ensures
            final(self).prev == current,
            out.whole == current@.elapsed_since(old(self).prev@),
            out.parts@ == waits(old(self).prev@, current@),
            (final(self).prev@, out.whole as nat, out.parts@) == taken_up(
                old(self).prev@,
                current@,
            ),
    {
        let elapsed = current.elapsed_ns_since(&self.prev);
        let all = counters::entries(&current.by_pid);
        let mut parts: HashMap<u32, u64> = HashMap::new();
        let ghost prev = self.prev@;
        if elapsed > 0 {
            for i in 0..all.len()
                invariant
                    prev == self.prev@,
                    elapsed > 0,
                    elapsed == current@.elapsed_since(prev),
                    counters::lists(all@, current.by_pid@),
                    forall|pid: u32| #[trigger]
                        parts@.contains_key(pid) <==> measured(prev, current@, pid) && exists|
                            j: int,
                        |
                            0 <= j < i && (#[trigger] all@[j]).0 == pid,
                    forall|pid: u32| #[trigger]
                        parts@.contains_key(pid) ==> parts@[pid] == current@.grown(prev, pid),
            {
                let (pid, now) = all[i];
                assert(all@[i as int].0 == pid);
                if let Some(was) = self.prev.by_pid.get(&pid) {
                    parts.insert(pid, now.saturating_sub(*was));
                }
            }
        }
        proof {
            assert forall|pid: u32| measured(prev, current@, pid) implies #[trigger]
                parts@.contains_key(pid) by {
                assert(current.by_pid@.contains_key(pid));
            }
            assert(parts@ =~= waits(prev, current@));
        }
        self.prev = current;
        Deltas { whole: elapsed, parts }
    }
}

// ── Laws ─────────────────────────────────────────────────────────────────────

/// What `pid` waited over the intervals between `readings`.
pub open spec fn waited_over(readings: Seq<metrics::Reading>, pid: u32) -> nat
    decreases readings.len(),
{
    if readings.len() < 2 {
        0
    } else {
        waited_over(readings.drop_last(), pid) + waits(
            readings[readings.len() - 2],
            readings.last(),
        )[pid] as nat
    }
}

/// `readings` are taken at later and later times and all hold a counter for `pid` that
/// only grows.
pub open spec fn only_grows(readings: Seq<metrics::Reading>, pid: u32) -> bool {
    forall|i: int|
        0 <= i < readings.len() ==> {
            &&& (#[trigger] readings[i]).by_pid.contains_key(pid)
            &&& readings[i].at is Some
            &&& i > 0 ==> readings[i - 1].at->0 < readings[i].at->0 && readings[i - 1].by_pid[pid]
                <= readings[i].by_pid[pid]
        }
}

/// Nothing is lost and nothing counted twice: while a counter only grows, the waits of
/// the intervals add up to what it grew by from the first reading to the last.
pub proof fn waits_add_up(readings: Seq<metrics::Reading>, pid: u32)
    requires
        readings.len() > 0,
        only_grows(readings, pid),
    ensures
        waited_over(readings, pid) == readings.last().by_pid[pid] - readings[0].by_pid[pid],
    decreases readings.len(),
{
    if readings.len() >= 2 {
        let shorter = readings.drop_last();
        let n = readings.len() - 1;
        assert forall|i: int| 0 <= i < shorter.len() implies {
            &&& (#[trigger] shorter[i]).by_pid.contains_key(pid)
            &&& shorter[i].at is Some
            &&& i > 0 ==> shorter[i - 1].at->0 < shorter[i].at->0 && shorter[i - 1].by_pid[pid]
                <= shorter[i].by_pid[pid]
        } by {
            assert(shorter[i] == readings[i]);
        }
        waits_add_up(shorter, pid);
        assert(readings[n] == readings.last());
        assert(readings[n - 1].by_pid.contains_key(pid));
        assert(waits(readings[n - 1], readings[n]).contains_key(pid));
    }
}

/// A counter that stands still has not waited, and one that went backwards reads
/// nothing for that interval.
pub proof fn a_counter_that_does_not_grow_has_not_waited(
    prev: metrics::Reading,
    current: metrics::Reading,
    pid: u32,
)
    requires
        prev.by_pid.contains_key(pid),
        current.by_pid.contains_key(pid),
        current.by_pid[pid] <= prev.by_pid[pid],
        prev.at is Some,
        current.at is Some,
        prev.at->0 < current.at->0,
    ensures
        waits(prev, current).contains_key(pid),
        waits(prev, current)[pid] == 0,
{
}

/// A wait is shown of exactly those processes that both readings hold, and of nobody
/// where no time lies between them.
pub proof fn a_wait_takes_two_readings(
    prev: metrics::Reading,
    current: metrics::Reading,
    pid: u32,
)
    ensures
        waits(prev, current).contains_key(pid) <==> {
            &&& prev.by_pid.contains_key(pid)
            &&& current.by_pid.contains_key(pid)
            &&& prev.at matches Some(was) && current.at matches Some(now) && was < now
        },
{
}

/// The baseline of a collector that started from `prev` and has taken `readings` up.
pub open spec fn baseline(prev: metrics::Reading, readings: Seq<metrics::Reading>) -> metrics::Reading
    decreases readings.len(),
{
    if readings.len() == 0 {
        prev
    } else {
        taken_up(baseline(prev, readings.drop_last()), readings.last()).0
    }
}

/// What a collector that started from `prev` has counted `pid` over `readings`.
pub open spec fn counted(prev: metrics::Reading, readings: Seq<metrics::Reading>, pid: u32) -> nat
    decreases readings.len(),
{
    if readings.len() == 0 {
        0
    } else {
        let before = readings.drop_last();
        counted(prev, before, pid) + taken_up(baseline(prev, before), readings.last()).2[pid] as nat
    }
}

/// A collector counts on from each reading to the next: over any number of them, while
/// the counter of a process only grows, it counts what that grew by from where it
/// started.
pub proof fn a_collector_counts_all_growth(
    prev: metrics::Reading,
    readings: Seq<metrics::Reading>,
    pid: u32,
)
    requires
        only_grows(seq![prev] + readings, pid),
        readings.len() > 0,
    ensures
        counted(prev, readings, pid) + prev.by_pid[pid] == readings.last().by_pid[pid],
        baseline(prev, readings) == readings.last(),
        taken_up(baseline(prev, readings.drop_last()), readings.last()).1 > 0,
    decreases readings.len(),
{
    let before = readings.drop_last();
    let all = seq![prev] + readings;
    let n = all.len() - 1;
    assert(all[n] == readings.last());
    assert(all[0] == prev);
    if before.len() > 0 {
        let fewer = seq![prev] + before;
        assert forall|i: int| 0 <= i < fewer.len() implies #[trigger] fewer[i] == all[i] by {}
        assert(only_grows(fewer, pid));
        a_collector_counts_all_growth(prev, before, pid);
        assert(all[n - 1] == before.last());
    } else {
        assert(all[n - 1] == prev);
        assert(counted(prev, before, pid) == 0);
    }
}

} // verus!
