//! Closing the books on departed processes.
//!
//! The exit tracepoint leaves each process's final CPU and I/O-wait totals in
//! the counter maps and announces the departure on a ring buffer. A collector tick
//! reads those totals like any other, so a process that died between two ticks is
//! still charged what it ran since the first; one that also started in that interval
//! has no earlier total to subtract and reads nothing. Only after that read does the
//! reaper have the entries deleted.

use vstd::prelude::*;

use crate::common;
use crate::common::ExitEvent;
use crate::metrics::identity;
use crate::metrics::Resolver;

verus! {

/// Departed processes cleared per tick. Three map operations each, so an
/// exit storm would otherwise queue tens of thousands of syscalls ahead of
/// the snapshot. Keeps up with the heaviest churn we benchmark, ~3,300
/// exits/s.
pub const BUDGET: usize = 4096;

/// The records a tick may take.
pub open spec fn budget() -> nat {
    BUDGET as nat
}

/// The records it may still take once it has taken `record`: one fewer, whatever that
/// holds.
pub open spec fn left_after(left: nat, record: Seq<u8>) -> nat {
    (left - 1) as nat
}

/// One tick's reaping: how many more records it may take off the ring. Records
/// past the budget wait in the ring for the next tick, and any the ring drops leave
/// a cold entry for eviction to reclaim.
#[derive(Debug)]
pub struct Reaper {
    left: usize,
}

impl Reaper {
    /// The records it may still take.
    pub closed spec fn left(self) -> nat {
        self.left as nat
    }

    /// A fresh budget.
    pub fn new() -> (out: Reaper)
        ensures
            out.left() == BUDGET,
            out.left() == budget(),
    {
        Reaper { left: BUDGET }
    }

    /// Whether it may take another record off the ring.
    pub fn wants_more(&self) -> (r: bool)
        ensures
            r == (self.left() > 0),
    {
        self.left > 0
    }

    /// Take one record off the ring: the process whose entries are now to be
    /// deleted from the accounting maps, with its name forgotten. `None` for a
    /// record too short to name one, which still counts against the budget.
    ///
    /// Run after the tick has read this interval's totals, so a process that just
    /// ended is charged its final slice before its entry goes.
    pub fn reap(&mut self, record: &[u8], names: &mut Resolver) -> (out: Option<u32>)
        requires
            old(self).left() > 0,
        ensures
            final(self).left() == old(self).left() - 1,
            final(self).left() == left_after(old(self).left(), record@),
            out is Some == (record@.len() >= 4),
            match out {
                Some(tgid) => {
                    &&& tgid == common::word_value(record@.take(4), common::big_endian())
                    &&& final(names)@ == (identity::Known {
                        seed: old(names)@.seed.remove(tgid),
                        ..old(names)@
                    })
                },
                None => final(names)@ == old(names)@,
            },
            out matches Some(tgid) ==> final(names)@ == old(names)@.without(tgid),
            out == match common::decoded(record@, common::big_endian()) {
                Some(event) => Some(event.tgid),
                None => None,
            },
    {
        self.left = self.left - 1;
        match ExitEvent::from_bytes(record) {
            Some(event) => {
                names.forget(event.tgid);
                Some(event.tgid)
            },
            None => None,
        }
    }
}

// ── Laws ─────────────────────────────────────────────────────────────────────

/// What is left of a budget once `records` have been taken.
pub open spec fn spent(left: nat, records: Seq<Seq<u8>>) -> nat
    decreases records.len(),
{
    if records.len() == 0 {
        left
    } else {
        left_after(spent(left, records.drop_last()), records.last())
    }
}

/// Every record costs one, however short it is.
pub proof fn every_record_costs_one(left: nat, records: Seq<Seq<u8>>)
    requires
        records.len() <= left,
    ensures
        spent(left, records) + records.len() == left,
    decreases records.len(),
{
    if records.len() > 0 {
        every_record_costs_one(left, records.drop_last());
    }
}

/// A tick takes 4096 records and no more.
pub proof fn a_budget_is_spent_to_the_last_record(records: Seq<Seq<u8>>)
    requires
        records.len() <= 4096,
    ensures
        spent(budget(), records) == 0 <==> records.len() == 4096,
{
    every_record_costs_one(budget(), records);
}

} // verus!
