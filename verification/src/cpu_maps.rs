//! Correcting the accumulated `CPU_NS` counter for the threads still running when
//! a tick reads it.
//!
//! The `sched_switch` hotpath only bills a thread's on-CPU slice when it
//! switches out (`kernel::cpu::charge_out`), so a thread that runs a whole tick
//! without ever being preempted is never billed - it would read 0% forever.
//! `START_TIME` and `CURRENT_TGID` (one slot per CPU) record who is running
//! and since when; [`add_inflight`] adds that in-flight slice to the accumulated
//! counter before the backend diffs it, so the correction lives entirely on the
//! read path and the hotpath stays untouched.

use std::collections::HashMap;

use vstd::prelude::*;

verus! {

broadcast use vstd::std_specs::hash::group_hash_axioms;

/// The two per-CPU slots, one entry per CPU each: who runs there and since when.
#[derive(Debug)]
pub struct Running {
    pub tgids: Vec<u32>,
    pub starts: Vec<u64>,
}

/// The slice a CPU has not billed yet: none where it idles, where nothing is
/// stamped, and where the stamp is not in the past.
pub open spec fn slice(tgid: u32, start: u64, now: u64) -> nat {
    if tgid != 0 && start != 0 && now > start {
        (now - start) as nat
    } else {
        0
    }
}

/// What the first `n` CPUs have not billed to `pid` yet.
pub open spec fn owed(tgids: Seq<u32>, starts: Seq<u64>, now: u64, pid: u32, n: nat) -> nat
    decreases n,
{
    if n == 0 {
        0
    } else {
        owed(tgids, starts, now, pid, (n - 1) as nat) + if tgids[n - 1] == pid {
            slice(tgids[n - 1], starts[n - 1], now)
        } else {
            0
        }
    }
}

impl Running {
    /// The CPUs of which both slots were read.
    pub open spec fn cpus(self) -> nat {
        if self.tgids@.len() <= self.starts@.len() {
            self.tgids@.len()
        } else {
            self.starts@.len()
        }
    }

    /// What all CPUs have not billed to `pid` yet.
    pub open spec fn unbilled(self, now: u64, pid: u32) -> nat {
        owed(self.tgids@, self.starts@, now, pid, self.cpus())
    }

    fn len(&self) -> (out: usize)
        ensures
            out == self.cpus(),
    {
        if self.tgids.len() <= self.starts.len() {
            self.tgids.len()
        } else {
            self.starts.len()
        }
    }
}

/// What `m` holds for `pid`, or nothing.
pub open spec fn held(m: Map<u32, u64>, pid: u32) -> nat {
    if m.contains_key(pid) {
        m[pid] as nat
    } else {
        0
    }
}

/// Every counter still fits once the in-flight slices are added.
pub open spec fn fits(by_pid: Map<u32, u64>, running: Running, now: u64) -> bool {
    forall|pid: u32| held(by_pid, pid) + #[trigger] running.unbilled(now, pid) <= u64::MAX
}

/// Looking at more CPUs never finds less owed.
proof fn lemma_owed_grows(tgids: Seq<u32>, starts: Seq<u64>, now: u64, pid: u32, i: nat, n: nat)
    requires
        i <= n,
    ensures
        owed(tgids, starts, now, pid, i) <= owed(tgids, starts, now, pid, n),
    decreases n,
{
    if i < n {
        lemma_owed_grows(tgids, starts, now, pid, i, (n - 1) as nat);
    }
}

/// Nothing is owed to a process that runs nowhere.
proof fn lemma_owed_none(tgids: Seq<u32>, starts: Seq<u64>, now: u64, pid: u32, n: nat)
    requires
        forall|i: int| 0 <= i < n ==> tgids[i] != pid,
    ensures
        owed(tgids, starts, now, pid, n) == 0,
    decreases n,
{
    if n > 0 {
        lemma_owed_none(tgids, starts, now, pid, (n - 1) as nat);
    }
}

/// Whether every counter still fits once the in-flight slices are added.
pub fn can_add(by_pid: &HashMap<u32, u64>, running: &Running, now: u64) -> (r: bool)
    ensures
        r == fits(by_pid@, *running, now),
{
    let n = running.len();
    for i in 0..n
        invariant
            n == running.cpus(),
            forall|k: int|
                0 <= k < i ==> held(by_pid@, #[trigger] running.tgids@[k]) + running.unbilled(
                    now,
                    running.tgids@[k],
                ) <= u64::MAX,
    {
        let pid = running.tgids[i];
        let mut total: u64 = match by_pid.get(&pid) {
            Some(count) => *count,
            None => 0,
        };
        for j in 0..n
            invariant
                n == running.cpus(),
                total == held(by_pid@, pid) + owed(
                    running.tgids@,
                    running.starts@,
                    now,
                    pid,
                    j as nat,
                ),
        {
            let (tgid, start) = (running.tgids[j], running.starts[j]);
            if tgid == pid && tgid != 0 && start != 0 && now > start {
                match total.checked_add(now - start) {
                    Some(next) => total = next,
                    None => {
                        proof {
                            lemma_owed_grows(
                                running.tgids@,
                                running.starts@,
                                now,
                                pid,
                                (j + 1) as nat,
                                n as nat,
                            );
                            assert(held(by_pid@, pid) + running.unbilled(now, pid) > u64::MAX);
                        }
                        return false;
                    },
                }
            }
        }
    }
    proof {
        assert forall|pid: u32| held(by_pid@, pid) + #[trigger] running.unbilled(now, pid)
            <= u64::MAX by {
            if exists|k: int| 0 <= k < n && #[trigger] running.tgids@[k] == pid {
            } else {
                lemma_owed_none(running.tgids@, running.starts@, now, pid, n as nat);
            }
        }
    }
    true
}

/// What `pid` shows once the in-flight slices are added: nothing where it had nothing
/// and runs nowhere.
pub open spec fn brought_up(
    by_pid: Map<u32, u64>,
    running: Option<Running>,
    now: u64,
    pid: u32,
) -> Option<nat> {
    let more = match running {
        Some(r) => r.unbilled(now, pid),
        None => 0,
    };
    if by_pid.contains_key(pid) || more > 0 {
        Some(held(by_pid, pid) + more)
    } else {
        None
    }
}

/// Add to each process the slices its threads have run and not been billed for.
/// `running` is `None` where the slots could not be read: the counters then stay
/// as they are.
pub fn add_inflight(by_pid: &mut HashMap<u32, u64>, running: &Option<Running>, now: u64)
    requires
        running matches Some(r) ==> fits(old(by_pid)@, *r, now),
    ensures
        match running {
            Some(r) => forall|pid: u32|
                {
                    &&& #[trigger] final(by_pid)@.contains_key(pid) <==> (old(by_pid)@.contains_key(
                        pid,
                    ) || r.unbilled(now, pid) > 0)
                    &&& held(final(by_pid)@, pid) == held(old(by_pid)@, pid) + r.unbilled(now, pid)
                },
            None => final(by_pid)@ == old(by_pid)@,
        },
        forall|pid: u32|
            #![trigger final(by_pid)@.contains_key(pid)]
            #![trigger final(by_pid)@[pid]]
            brought_up(old(by_pid)@, *running, now, pid) == if final(by_pid)@.contains_key(pid) {
                Some(final(by_pid)@[pid] as nat)
            } else {
                None
            },
{
    let running = match running {
        Some(running) => running,
        None => return ,
    };
    let n = running.len();
    let ghost before = by_pid@;
    for i in 0..n
        invariant
            n == running.cpus(),
            fits(before, *running, now),
            forall|pid: u32|
                {
                    &&& #[trigger] by_pid@.contains_key(pid) <==> (before.contains_key(pid) || owed(
                        running.tgids@,
                        running.starts@,
                        now,
                        pid,
                        i as nat,
                    ) > 0)
                    &&& held(by_pid@, pid) == held(before, pid) + owed(
                        running.tgids@,
                        running.starts@,
                        now,
                        pid,
                        i as nat,
                    )
                },
    {
        let (tgid, start) = (running.tgids[i], running.starts[i]);
        let ghost was = by_pid@;
        if tgid != 0 && start != 0 && now > start {
            proof {
                lemma_owed_grows(
                    running.tgids@,
                    running.starts@,
                    now,
                    tgid,
                    (i + 1) as nat,
                    n as nat,
                );
                assert(held(before, tgid) + running.unbilled(now, tgid) <= u64::MAX);
                assert(was.contains_key(tgid) || !was.contains_key(tgid));
            }
            let billed = match by_pid.get(&tgid) {
                Some(count) => *count,
                None => 0,
            };
            by_pid.insert(tgid, billed + (now - start));
        }
        assert forall|pid: u32|
            {
                &&& #[trigger] by_pid@.contains_key(pid) <==> (before.contains_key(pid) || owed(
                    running.tgids@,
                    running.starts@,
                    now,
                    pid,
                    (i + 1) as nat,
                ) > 0)
                &&& held(by_pid@, pid) == held(before, pid) + owed(
                    running.tgids@,
                    running.starts@,
                    now,
                    pid,
                    (i + 1) as nat,
                )
            } by {
            assert(was.contains_key(pid) || !was.contains_key(pid));
        }
    }
}

/// The nanoseconds of a clock reading.
pub open spec fn nanoseconds_of(seconds: int, nanoseconds: int) -> int {
    seconds * 1_000_000_000 + nanoseconds
}

/// The nanoseconds of a clock reading, as the hotpath counts them.
pub fn monotonic_ns(seconds: i64, nanoseconds: i64) -> (out: u64)
    requires
        seconds >= 0,
        nanoseconds >= 0,
        seconds * 1_000_000_000 + nanoseconds <= u64::MAX,
    ensures
        out == seconds * 1_000_000_000 + nanoseconds,
        out == nanoseconds_of(seconds as int, nanoseconds as int),
{
    seconds as u64 * 1_000_000_000 + nanoseconds as u64
}

// ── Laws ─────────────────────────────────────────────────────────────────────

/// Every CPU adds the slice it has not billed to the process that runs there, and to no
/// other: the time since its stamp. One that idles adds nothing, nor does one without a
/// stamp or with one that is not in the past; no CPUs owe nothing.
pub proof fn each_cpu_owes_who_runs_there(
    tgids: Seq<u32>,
    starts: Seq<u64>,
    now: u64,
    pid: u32,
    n: nat,
)
    ensures
        owed(tgids, starts, now, pid, 0) == 0,
        ({
            let more = owed(tgids, starts, now, pid, n + 1) - owed(tgids, starts, now, pid, n);
            let (tgid, start) = (tgids[n as int], starts[n as int]);
            if tgid == pid && pid != 0 && start != 0 && start < now {
                start + more == now
            } else {
                more == 0
            }
        }),
{
}

/// Every CPU of which both slots were read is looked at, and no further one.
pub proof fn every_cpu_is_looked_at(running: Running, now: u64, pid: u32)
    ensures
        running.tgids@.len() <= running.starts@.len() ==> running.unbilled(now, pid) == owed(
            running.tgids@,
            running.starts@,
            now,
            pid,
            running.tgids@.len(),
        ),
        running.starts@.len() <= running.tgids@.len() ==> running.unbilled(now, pid) == owed(
            running.tgids@,
            running.starts@,
            now,
            pid,
            running.starts@.len(),
        ),
{
}

/// A process shows what it was billed and what it is owed; one with neither does not
/// show, and where the slots could not be read all stays as it is.
pub proof fn what_is_in_flight_is_added(
    by_pid: Map<u32, u64>,
    running: Running,
    now: u64,
    pid: u32,
)
    ensures
        by_pid.contains_key(pid) ==> brought_up(by_pid, Some(running), now, pid) == Some(
            by_pid[pid] as nat + running.unbilled(now, pid),
        ),
        !by_pid.contains_key(pid) && running.unbilled(now, pid) > 0 ==> brought_up(
            by_pid,
            Some(running),
            now,
            pid,
        ) == Some(running.unbilled(now, pid)),
        !by_pid.contains_key(pid) && running.unbilled(now, pid) == 0 ==> brought_up(
            by_pid,
            Some(running),
            now,
            pid,
        ) is None,
        by_pid.contains_key(pid) ==> brought_up(by_pid, None, now, pid) == Some(by_pid[pid] as nat),
        !by_pid.contains_key(pid) ==> brought_up(by_pid, None, now, pid) is None,
{
}

/// A second is a billion nanoseconds, and a nanosecond is one.
pub proof fn a_second_is_a_billion(seconds: int, nanoseconds: int)
    ensures
        nanoseconds_of(0, 0) == 0,
        nanoseconds_of(seconds + 1, nanoseconds) == nanoseconds_of(seconds, nanoseconds)
            + 1_000_000_000,
        nanoseconds_of(seconds, nanoseconds + 1) == nanoseconds_of(seconds, nanoseconds) + 1,
{
}

/// The slices can be added exactly where no process would then show more than a 64-bit
/// count.
pub proof fn slices_fit_where_every_sum_does(by_pid: Map<u32, u64>, running: Running, now: u64)
    ensures
        fits(by_pid, running, now) <==> forall|pid: u32| #[trigger]
            brought_up(by_pid, Some(running), now, pid) matches Some(count) ==> count <= u64::MAX,
{
    if forall|pid: u32| #[trigger]
        brought_up(by_pid, Some(running), now, pid) matches Some(count) ==> count <= u64::MAX {
        assert forall|pid: u32| held(by_pid, pid) + #[trigger] running.unbilled(now, pid)
            <= u64::MAX by {
            assert(brought_up(by_pid, Some(running), now, pid) matches Some(count) ==> count
                <= u64::MAX);
        }
    }
    if fits(by_pid, running, now) {
        assert forall|pid: u32| #[trigger]
            brought_up(by_pid, Some(running), now, pid) is Some implies brought_up(
            by_pid,
            Some(running),
            now,
            pid,
        )->0 <= u64::MAX by {
            assert(held(by_pid, pid) + running.unbilled(now, pid) <= u64::MAX);
        }
    }
}

} // verus!
