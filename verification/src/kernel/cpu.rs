//! CPU utilisation. Per-CPU, add-only counters driven from the shared
//! `sched_switch` hook (`sched`); user space derives percentages from cross-tick
//! deltas.
//!
//! Time is charged per thread but accumulated per process. A CPU runs exactly
//! one thread at a time and a thread cannot migrate while on-CPU, so the
//! schedule-in stopwatch is a single per-CPU slot (`START_TIME`), not a
//! tid-keyed map: `mark_in` stamps it, and the next `charge_out` on the same CPU
//! reads it back and bills the slice to the process total (`CPU_NS`, keyed by
//! tgid), matching top/btop. Idle (tid 0) is neither stamped nor charged, so a
//! real `prev` always finds its own schedule-in time in the slot.

use std::collections::HashMap;

use vstd::prelude::*;

verus! {

broadcast use vstd::std_specs::hash::group_hash_axioms;

/// `a + b`, or the largest count where that is larger.
pub open spec fn capped_sum(a: u64, b: u64) -> u64 {
    if a + b <= u64::MAX {
        (a + b) as u64
    } else {
        u64::MAX
    }
}

/// The time from `since` to `now`; none where the clock reads earlier.
pub open spec fn time_since(since: u64, now: u64) -> u64 {
    if now >= since {
        (now - since) as u64
    } else {
        0
    }
}

/// `total` grown by `slice`, or begun with it where there is none.
pub open spec fn grown_total(total: Option<u64>, slice: u64) -> u64 {
    match total {
        Some(total) => capped_sum(total, slice),
        None => slice,
    }
}

/// `total` grown by `slice`, or begun with it where there is none.
pub fn grow_total(total: Option<u64>, slice: u64) -> (out: u64)
    ensures
        out == grown_total(total, slice),
{
    match total {
        Some(total) => total.saturating_add(slice),
        None => slice,
    }
}

/// The process total to write when thread `tid` leaves the CPU, where `start` is
/// the stamp of that CPU and `total` what its process has been billed: none for
/// idle, and none where nothing is stamped.
pub open spec fn charge(tid: u32, start: Option<u64>, total: Option<u64>, now: u64) -> Option<u64> {
    match start {
        Some(start) if tid != 0 && start != 0 => Some(grown_total(total, time_since(start, now))),
        _ => None,
    }
}

/// The slice the outgoing thread just ran, added to its process total.
pub fn charge_out(tid: u32, start: Option<u64>, total: Option<u64>, now: u64) -> (out: Option<u64>)
    ensures
        out == charge(tid, start, total, now),
{
    if tid == 0 {
        return None;
    }
    let start: u64 = match start {
        Some(start) => start,
        None => 0,
    };
    if start == 0 {
        return None;
    }
    Some(grow_total(total, now.saturating_sub(start)))
}

/// The stamp to write when thread `tid` comes onto the CPU: none for idle.
pub fn mark_in(tid: u32, now: u64) -> (out: Option<u64>)
    ensures
        out == if tid != 0 {
            Some(now)
        } else {
            None
        },
{
    if tid != 0 {
        Some(now)
    } else {
        None
    }
}

// ── The books of one CPU ─────────────────────────────────────────────────────

/// What the kernel's per-CPU maps hold of one CPU.
#[derive(Debug)]
pub struct Cpu {
    /// Schedule-in timestamp of the thread on this CPU; 0 means nothing is
    /// stamped yet, so there is no baseline to charge from.
    pub start_time: u64,
    /// tgid of the thread on this CPU (0 = idle).
    pub current_tgid: u32,
    /// tgid → accumulated on-CPU nanoseconds.
    pub cpu_ns: HashMap<u32, u64>,
    /// tgid → accumulated D-sleep nanoseconds.
    pub iowait_ns: HashMap<u32, u64>,
}

/// [`Cpu`] over mathematical maps.
#[verifier::ext_equal]
pub ghost struct Books {
    pub start_time: u64,
    pub current_tgid: u32,
    pub cpu_ns: Map<u32, u64>,
    pub iowait_ns: Map<u32, u64>,
}

impl View for Cpu {
    type V = Books;

    open spec fn view(&self) -> Books {
        Books {
            start_time: self.start_time,
            current_tgid: self.current_tgid,
            cpu_ns: self.cpu_ns@,
            iowait_ns: self.iowait_ns@,
        }
    }
}

/// What `m` holds for `key`.
pub open spec fn looked_up(m: Map<u32, u64>, key: u32) -> Option<u64> {
    if m.contains_key(key) {
        Some(m[key])
    } else {
        None
    }
}

/// What `m` holds for `key`.
pub fn look_up(m: &HashMap<u32, u64>, key: u32) -> (out: Option<u64>)
    ensures
        out == looked_up(m@, key),
{
    match m.get(&key) {
        Some(count) => Some(*count),
        None => None,
    }
}

impl Books {
    /// Nothing has been seen of this CPU yet.
    pub open spec fn blank() -> Books {
        Books { start_time: 0, current_tgid: 0, cpu_ns: Map::empty(), iowait_ns: Map::empty() }
    }

    /// Once thread `tid` of process `tgid` has left the CPU.
    pub open spec fn charged_out(self, tid: u32, tgid: u32, now: u64) -> Books {
        match charge(tid, Some(self.start_time), looked_up(self.cpu_ns, tgid), now) {
            Some(total) => Books { cpu_ns: self.cpu_ns.insert(tgid, total), ..self },
            None => self,
        }
    }

    /// Once thread `tid` of process `tgid` has come onto the CPU.
    pub open spec fn marked_in(self, tid: u32, tgid: u32, now: u64) -> Books {
        Books {
            start_time: if tid != 0 {
                now
            } else {
                self.start_time
            },
            current_tgid: tgid,
            ..self
        }
    }
}

impl Cpu {
    /// A CPU nothing has been seen of.
    pub fn new() -> (out: Cpu)
        ensures
            out@ == Books::blank(),
    {
        Cpu {
            start_time: 0,
            current_tgid: 0,
            cpu_ns: HashMap::new(),
            iowait_ns: HashMap::new(),
        }
    }

    /// Add the slice the outgoing thread just ran to its process total.
    pub fn charge_out(&mut self, tid: u32, tgid: u32, now: u64)
        ensures
            final(self)@ == old(self)@.charged_out(tid, tgid, now),
    {
        let total = look_up(&self.cpu_ns, tgid);
        if let Some(total) = charge_out(tid, Some(self.start_time), total, now) {
            self.cpu_ns.insert(tgid, total);
        }
    }

    /// Record the incoming thread as the one now on this CPU.
    pub fn mark_in(&mut self, tid: u32, tgid: u32, now: u64)
        ensures
            final(self)@ == old(self)@.marked_in(tid, tgid, now),
    {
        // The stamp first: a read landing between these two writes then pairs the
        // outgoing tgid with a fresh timestamp - a sliver of nanoseconds
        // misattributed - instead of the incoming tgid with a stale one, which on a
        // CPU waking from a long idle could bill it the whole idle gap.
        if let Some(stamp) = mark_in(tid, now) {
            self.start_time = stamp;
        }
        self.current_tgid = tgid;
    }
}

// ── Laws ─────────────────────────────────────────────────────────────────────

/// A CPU nothing has been seen of has billed nobody, holds no stamp to charge from and
/// belongs to idle.
pub proof fn a_blank_cpu_has_billed_nobody(pid: u32, tid: u32, now: u64)
    ensures
        looked_up(Books::blank().cpu_ns, pid) is None,
        looked_up(Books::blank().iowait_ns, pid) is None,
        Books::blank().current_tgid == 0,
        Books::blank().charged_out(tid, pid, now) == Books::blank(),
{
}

/// A total grows by what is added to it, up to the largest count there is, and begins
/// with it where there was none.
pub proof fn a_total_grows_by_what_is_added(total: u64, slice: u64)
    ensures
        total + slice <= u64::MAX ==> grown_total(Some(total), slice) == total + slice,
        total + slice > u64::MAX ==> grown_total(Some(total), slice) == u64::MAX,
        grown_total(None, slice) == slice,
{
}

/// Time passes from a stamp to now, and never backwards.
pub proof fn time_never_runs_backwards(since: u64, now: u64)
    ensures
        since <= now ==> since + time_since(since, now) == now,
        now <= since ==> time_since(since, now) == 0,
{
}

} // verus!
