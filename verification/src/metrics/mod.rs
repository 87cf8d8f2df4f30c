//! Per-process metrics: one module per metric, each owning its type and its
//! collection logic. `backend` orchestrates them.
//!
//! Two shapes. Counter metrics (`cpu`, `iowait`) diff an eBPF nanosecond
//! counter between ticks via [`Snapshot`]; lookup metrics (`mem`, `identity`)
//! are read per pid, for the visible rows only.

use std::collections::HashMap;

use vstd::prelude::*;

use crate::percent;
use crate::percent::Percent;

pub mod cpu;
pub mod identity;
pub mod iowait;
pub mod mem;

pub use cpu::{CpuCollector, CpuMetrics};
pub use identity::Resolver;
pub use iowait::{IoMetrics, IoWaitCollector};
pub use mem::{MemMetrics, MemReader};

verus! {

broadcast use vstd::std_specs::hash::group_hash_axioms;

/// One process as the renderer sees it: identity plus one slot per subsystem.
/// Raw values only - the renderer formats them lazily for the visible rows
/// it draws.
#[derive(Debug, Clone, Default, PartialEq)]
pub struct ProcessMetrics {
    pub pid: u32,
    pub name: String,
    pub user: Option<String>,
    pub cpu: CpuMetrics,
    pub mem: Option<MemMetrics>,
    pub io: Option<IoMetrics>,
}

/// A per-process counter snapshot at one instant. Counter metrics derive a
/// per-interval value from the delta between two snapshots over the elapsed
/// time.
#[derive(Clone, Debug)]
pub struct Snapshot {
    /// When it was taken, in nanoseconds of a clock that never goes backwards.
    pub at: Option<u64>,
    pub by_pid: HashMap<u32, u64>,
}

/// [`Snapshot`] over a mathematical map.
pub ghost struct Reading {
    pub at: Option<u64>,
    pub by_pid: Map<u32, u64>,
}

impl View for Snapshot {
    type V = Reading;

    open spec fn view(&self) -> Reading {
        Reading { at: self.at, by_pid: self.by_pid@ }
    }
}

impl Reading {
    /// Before anything was read.
    pub open spec fn none() -> Reading {
        Reading { at: None, by_pid: Map::empty() }
    }

    /// `by_pid` as read at `now`.
    pub open spec fn taken(by_pid: Map<u32, u64>, now: u64) -> Reading {
        Reading { at: Some(now), by_pid }
    }

    /// Nanoseconds since `prev`; zero without a baseline, and where the clock
    /// reads earlier than it did.
    pub open spec fn elapsed_since(self, prev: Reading) -> nat {
        match (self.at, prev.at) {
            (Some(now), Some(was)) => if now > was {
                (now - was) as nat
            } else {
                0
            },
            _ => 0,
        }
    }

    /// What the counter of `pid` grew by since `prev`; zero where it went
    /// backwards.
    pub open spec fn grown(self, prev: Reading, pid: u32) -> u64 {
        if self.by_pid[pid] > prev.by_pid[pid] {
            (self.by_pid[pid] - prev.by_pid[pid]) as u64
        } else {
            0
        }
    }
}

impl Snapshot {
    /// `by_pid` as read at `now`.
    pub fn new(by_pid: HashMap<u32, u64>, now: u64) -> (out: Snapshot)
        ensures
            out.at == Some(now),
            out.by_pid == by_pid,
            out@ == Reading::taken(by_pid@, now),
    {
        Snapshot { at: Some(now), by_pid }
    }

    /// Nanoseconds since `prev`, or 0 without a baseline (first tick).
    pub fn elapsed_ns_since(&self, prev: &Snapshot) -> (out: u64)
        ensures
            out == self@.elapsed_since(prev@),
    {
        match (self.at, prev.at) {
            (Some(now), Some(was)) => now.saturating_sub(was),
            _ => 0,
        }
    }
}

impl Default for Snapshot {
    fn default() -> (out: Snapshot)
        ensures
            out@ == Reading::none(),
    {
        Snapshot { at: None, by_pid: HashMap::new() }
    }
}

/// What each process's counter grew by over one interval: nanoseconds, all
/// counted against the same `whole`.
#[derive(Debug)]
pub struct Deltas {
    pub whole: u64,
    pub parts: HashMap<u32, u64>,
}

impl Deltas {
    /// The share of the interval that `pid` took, if it was counted.
    pub fn get(&self, pid: u32) -> (out: Option<Percent>)
        ensures
            out is Some == self.parts@.contains_key(pid),
            out matches Some(p) ==> p.reads(
                percent::share(self.parts@[pid] as nat, self.whole as nat),
            ),
    {
        match self.parts.get(&pid) {
            Some(part) => Some(Percent::new(*part, self.whole)),
            None => None,
        }
    }
}

// ── Laws ─────────────────────────────────────────────────────────────────────

/// Intervals join up: from a first reading to a last passes what passes from the first
/// to one in between and from there to the last. Without a baseline, and where the clock
/// did not move, none passes.
pub proof fn intervals_join_up(first: Reading, middle: Reading, last: Reading)
    requires
        first.at is Some,
        middle.at is Some,
        last.at is Some,
        first.at->0 <= middle.at->0 <= last.at->0,
    ensures
        last.elapsed_since(first) == last.elapsed_since(middle) + middle.elapsed_since(first),
        first.at->0 + last.elapsed_since(first) == last.at->0,
        first.elapsed_since(last) == 0,
        last.elapsed_since(Reading::none()) == 0,
        Reading::none().elapsed_since(first) == 0,
{
}

/// What a counter grew by is what has to be added to come from one reading to the
/// next; going backwards is no growth.
pub proof fn growth_leads_from_one_reading_to_the_next(prev: Reading, current: Reading, pid: u32)
    ensures
        prev.by_pid[pid] <= current.by_pid[pid] ==> prev.by_pid[pid] + current.grown(prev, pid)
            == current.by_pid[pid],
        prev.by_pid[pid] >= current.by_pid[pid] ==> current.grown(prev, pid) == 0,
{
}

/// Between two readings passes what passes on the clock, and each holds the counters it
/// was taken of.
pub proof fn a_reading_holds_its_moment(
    before: Map<u32, u64>,
    after: Map<u32, u64>,
    from: u64,
    to: u64,
    pid: u32,
)
    requires
        from <= to,
    ensures
        from + Reading::taken(after, to).elapsed_since(Reading::taken(before, from)) == to,
        Reading::taken(after, to).by_pid == after,
        before[pid] <= after[pid] ==> before[pid] + Reading::taken(after, to).grown(
            Reading::taken(before, from),
            pid,
        ) == after[pid],
{
}

} // verus!
