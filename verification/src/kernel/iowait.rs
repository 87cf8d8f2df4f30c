//! I/O wait: time in uninterruptible (D-state) sleep, charged to the task that
//! actually blocks. A synchronous read charges the process that issued it;
//! deferred writeback charges the flush kworker, since that is the task the
//! kernel puts to sleep. Stamp on D switch-out, charge tgid on the next
//! switch-in.
//!
//! `SLEEP_SINCE` is global, not per-CPU: a D interval spans CPUs, so per-CPU
//! storage cannot pair its edges.

use std::collections::HashMap;

use vstd::prelude::*;

use crate::kernel::cpu;
use crate::kernel::cpu::{grow_total, look_up, Cpu};

verus! {

broadcast use vstd::std_specs::hash::group_hash_axioms;

// include/linux/sched.h; NOLOAD excluded to skip TASK_IDLE kthreads.
pub const TASK_UNINTERRUPTIBLE: u32 = 0x2;

pub const TASK_NOLOAD: u32 = 0x400;

/// A task that leaves the CPU in `state` is blocked: it sleeps uninterruptibly,
/// and not as an idle kernel thread does.
pub open spec fn blocked(state: u32) -> bool {
    (state / TASK_UNINTERRUPTIBLE) % 2 == 1 && (state / TASK_NOLOAD) % 2 == 0
}

/// Whether to stamp thread `tid` as it leaves the CPU in `state`.
pub fn sleep_out(state: u32, tid: u32) -> (stamp: bool)
    ensures
        stamp == (tid != 0 && blocked(state)),
{
    assert((state & (0x2u32 | 0x400u32) == 0x2u32) == ((state / 0x2) % 2 == 1 && (state / 0x400) % 2
        == 0)) by (bit_vector);
    tid != 0 && state & (TASK_UNINTERRUPTIBLE | TASK_NOLOAD) == TASK_UNINTERRUPTIBLE
}

/// What to do as a thread comes onto a CPU.
#[derive(Clone, Copy, Debug, PartialEq, Eq, Structural)]
pub struct Wake {
    /// Drop the thread's stamp.
    pub unstamp: bool,
    /// The wait total to write for its process.
    pub total: Option<u64>,
}

/// What to do as thread `tid` of process `tgid` comes onto a CPU, where `since`
/// is its stamp and `total` what its process has waited: a stamp is dropped, and
/// billed unless the process is unknown.
pub open spec fn wake(
    tgid: u32,
    tid: u32,
    since: Option<u64>,
    total: Option<u64>,
    now: u64,
) -> Wake {
    match since {
        Some(since) if tid != 0 => Wake {
            unstamp: true,
            total: if tgid == 0 {
                None
            } else {
                Some(cpu::grown_total(total, cpu::time_since(since, now)))
            },
        },
        _ => Wake { unstamp: false, total: None },
    }
}

/// What to do as thread `tid` of process `tgid` comes onto a CPU.
pub fn wake_in(
    tgid: u32,
    tid: u32,
    since: Option<u64>,
    total: Option<u64>,
    now: u64,
) -> (out: Wake)
    ensures
        out == wake(tgid, tid, since, total, now),
{
    if tid == 0 {
        return Wake { unstamp: false, total: None };
    }
    let since = match since {
        Some(since) => since,
        None => return Wake { unstamp: false, total: None },
    };
    if tgid == 0 {
        return Wake { unstamp: true, total: None };
    }
    Wake { unstamp: true, total: Some(grow_total(total, now.saturating_sub(since))) }
}

// ── The sleepers, and the books of one CPU ───────────────────────────────────

/// tid → D-state switch-out timestamp. An entry lives only from a D switch-out
/// to the next switch-in.
#[derive(Debug)]
pub struct Sleepers {
    pub since: HashMap<u32, u64>,
}

impl View for Sleepers {
    type V = Map<u32, u64>;

    open spec fn view(&self) -> Map<u32, u64> {
        self.since@
    }
}

/// The stamps once thread `tid` has left a CPU in `state`.
pub open spec fn slept(since: Map<u32, u64>, state: u32, tid: u32, now: u64) -> Map<u32, u64> {
    if tid != 0 && blocked(state) {
        since.insert(tid, now)
    } else {
        since
    }
}

/// The wake-up of thread `tid` of process `tgid`, as the books have it.
pub open spec fn wake_of(
    books: cpu::Books,
    since: Map<u32, u64>,
    tgid: u32,
    tid: u32,
    now: u64,
) -> Wake {
    wake(tgid, tid, cpu::looked_up(since, tid), cpu::looked_up(books.iowait_ns, tgid), now)
}

/// The books and the stamps once thread `tid` of process `tgid` has come onto a
/// CPU.
pub open spec fn woken(
    books: cpu::Books,
    since: Map<u32, u64>,
    tgid: u32,
    tid: u32,
    now: u64,
) -> (cpu::Books, Map<u32, u64>) {
    let wake = wake_of(books, since, tgid, tid, now);
    (
        match wake.total {
            Some(total) => cpu::Books { iowait_ns: books.iowait_ns.insert(tgid, total), ..books },
            None => books,
        },
        if wake.unstamp {
            since.remove(tid)
        } else {
            since
        },
    )
}

impl Sleepers {
    /// Nobody sleeps.
    pub fn new() -> (out: Sleepers)
        ensures
            out@ == Map::<u32, u64>::empty(),
    {
        Sleepers { since: HashMap::new() }
    }

    /// Stamp the outgoing thread if it is blocked.
    pub fn sleep_out(&mut self, state: u32, tid: u32, now: u64)
        ensures
            final(self)@ == slept(old(self)@, state, tid, now),
    {
        if sleep_out(state, tid) {
            self.since.insert(tid, now);
        }
    }

    /// Bill the incoming thread's sleep, if it was stamped, to its process.
    pub fn wake_in(&mut self, cpu: &mut Cpu, tgid: u32, tid: u32, now: u64)
        ensures
            (final(cpu)@, final(self)@) == woken(old(cpu)@, old(self)@, tgid, tid, now),
    {
        let since = look_up(&self.since, tid);
        let total = look_up(&cpu.iowait_ns, tgid);
        let wake = wake_in(tgid, tid, since, total, now);
        if wake.unstamp {
            self.since.remove(&tid);
        }
        if let Some(total) = wake.total {
            cpu.iowait_ns.insert(tgid, total);
        }
    }

    /// Drop a departed thread's sleep stamp. The wait total is not touched here:
    /// it is per-process accounting that user space reaps once it has read the
    /// final total.
    pub fn forget_thread(&mut self, tid: u32)
        ensures
            final(self)@ == old(self)@.remove(tid),
    {
        self.since.remove(&tid);
    }
}

// ── Laws ─────────────────────────────────────────────────────────────────────

/// A blocked thread is billed exactly the time from its switch-out to its next
/// switch-in, on whichever CPU that happens; the stamp is gone with it, so
/// waking again bills nothing.
pub proof fn a_sleep_is_billed_once(
    books: cpu::Books,
    since: Map<u32, u64>,
    state: u32,
    tgid: u32,
    tid: u32,
    from: u64,
    to: u64,
    later: u64,
)
    requires
        tid != 0,
        tgid != 0,
        blocked(state),
        from <= to,
        cpu::looked_up(books.iowait_ns, tgid) matches Some(total) ==> total + (to - from)
            <= u64::MAX,
    ensures
        ({
            let (after, stamps) = woken(books, slept(since, state, tid, from), tgid, tid, to);
            let already = match cpu::looked_up(books.iowait_ns, tgid) {
                Some(total) => total as nat,
                None => 0,
            };
            &&& after.iowait_ns.contains_key(tgid)
            &&& after.iowait_ns[tgid] == already + (to - from)
            &&& !stamps.contains_key(tid)
            &&& woken(after, stamps, tgid, tid, later) == (after, stamps)
        }),
{
}

/// A thread that leaves the CPU in any other state is not stamped, and so not
/// billed for the time it is away.
pub proof fn other_sleeps_are_free(
    books: cpu::Books,
    since: Map<u32, u64>,
    state: u32,
    tgid: u32,
    tid: u32,
    from: u64,
    to: u64,
)
    requires
        !blocked(state),
        !since.contains_key(tid),
    ensures
        slept(since, state, tid, from) == since,
        woken(books, since, tgid, tid, to) == (books, since),
{
}

/// A state is a blocked one exactly where the bit for uninterruptible sleep is set and
/// the bit of an idle kernel thread is not; no other bit matters.
pub proof fn two_bits_decide(state: u32)
    ensures
        blocked(state) <==> state & 0x2 == 0x2 && state & 0x400 == 0,
{
    assert(((state / 0x2) % 2 == 1) == (state & 0x2 == 0x2) && ((state / 0x400) % 2 == 0) == (state
        & 0x400 == 0)) by (bit_vector);
}

/// Whether a leaving thread is stamped, and what an arriving one is billed: nobody but
/// idle is passed over, and the thread of no process is unstamped and not billed.
pub proof fn only_idle_is_passed_over(
    books: cpu::Books,
    since: Map<u32, u64>,
    state: u32,
    tgid: u32,
    tid: u32,
    now: u64,
)
    ensures
        slept(since, state, tid, now).contains_key(tid) && slept(since, state, tid, now)[tid] == now
            <==> (tid != 0 && state & 0x2 == 0x2 && state & 0x400 == 0) || (since.contains_key(tid)
            && since[tid] == now),
        forall|other: u32|
            other != tid ==> slept(since, state, tid, now).contains_key(other)
                == since.contains_key(other) && #[trigger] slept(since, state, tid, now)[other]
                == since[other],
        tid != 0 ==> !woken(books, since, tgid, tid, now).1.contains_key(tid),
        tid == 0 ==> woken(books, since, tgid, tid, now) == (books, since),
        tgid == 0 ==> woken(books, since, tgid, tid, now).0 == books,
{
    two_bits_decide(state);
}

} // verus!
