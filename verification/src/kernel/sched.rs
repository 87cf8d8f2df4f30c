//! The `sched_switch` hotpath. One program, fanned out to every metric that
//! feeds off scheduler edges (`cpu`, `iowait`), so adding a metric never adds
//! a second program to the same tracepoint.

use vstd::prelude::*;

use crate::batch;
use crate::cpu_maps;
use crate::kernel::cpu;
use crate::kernel::cpu::Cpu;
use crate::kernel::iowait;
use crate::kernel::iowait::Sleepers;

verus! {

/// One context switch.
#[derive(Clone, Copy, Debug, PartialEq, Eq, Structural)]
pub struct Switch {
    pub prev_tid: u32,
    pub prev_tgid: u32,
    pub prev_state: u32,
    pub next_tid: u32,
    pub next_tgid: u32,
    pub now: u64,
}

/// The two ids that a `tgid:pid` word holds: the tid low, the tgid high.
pub open spec fn ids_of(word: u64) -> (u32, u32) {
    ((word % 0x1_0000_0000) as u32, (word / 0x1_0000_0000) as u32)
}

/// The two ids that a `tgid:pid` word holds: the tid low, the tgid high.
pub fn tid_and_tgid(word: u64) -> (out: (u32, u32))
    ensures
        out.0 == word % 0x1_0000_0000,
        out.1 == word / 0x1_0000_0000,
        out == ids_of(word),
{
    assert(word as u32 == word % 0x1_0000_0000 && (word >> 32) as u32 == word / 0x1_0000_0000)
        by (bit_vector);
    (word as u32, (word >> 32) as u32)
}

/// The state `prev` left the CPU in.
pub open spec fn left_in(has_prev_state: u32, argument: u32, field: u32) -> u32 {
    if has_prev_state != 0 {
        argument
    } else {
        field
    }
}

/// The state `prev` left the CPU in: the tracepoint's own argument where the
/// kernel has one, else the field that was read from the task.
pub fn prev_state(has_prev_state: u32, argument: u32, field: u32) -> (out: u32)
    ensures
        out == if has_prev_state != 0 {
            argument
        } else {
            field
        },
        out == left_in(has_prev_state, argument, field),
{
    if has_prev_state != 0 {
        argument
    } else {
        field
    }
}

/// The books and the stamps after a context switch: `prev` is charged, `next`
/// marked, then `prev` stamped if it is blocked and `next` billed if it was.
pub open spec fn switched(books: cpu::Books, since: Map<u32, u64>, s: Switch) -> (
    cpu::Books,
    Map<u32, u64>,
) {
    let charged = books.charged_out(s.prev_tid, s.prev_tgid, s.now);
    let marked = charged.marked_in(s.next_tid, s.next_tgid, s.now);
    iowait::woken(
        marked,
        iowait::slept(since, s.prev_state, s.prev_tid, s.now),
        s.next_tgid,
        s.next_tid,
        s.now,
    )
}

/// Account for one context switch on `cpu`.
pub fn sched_switch(cpu: &mut Cpu, sleepers: &mut Sleepers, s: Switch)
    ensures
        (final(cpu)@, final(sleepers)@) == switched(old(cpu)@, old(sleepers)@, s),
{
    cpu.charge_out(s.prev_tid, s.prev_tgid, s.now);
    cpu.mark_in(s.next_tid, s.next_tgid, s.now);
    sleepers.sleep_out(s.prev_state, s.prev_tid, s.now);
    sleepers.wake_in(cpu, s.next_tgid, s.next_tid, s.now);
}

// ── Laws ─────────────────────────────────────────────────────────────────────

/// What a reader makes of `pid` on this CPU at `now`: what it has been billed,
/// and the slice it has run and not been billed for.
pub open spec fn corrected(books: cpu::Books, pid: u32, now: u64) -> nat {
    cpu_maps::held(books.cpu_ns, pid) + if books.current_tgid == pid {
        cpu_maps::slice(books.current_tgid, books.start_time, now)
    } else {
        0
    }
}

/// The switch is one this CPU can make: the thread that leaves is the one that
/// came, idle is the thread of no process, and time has not gone back.
pub open spec fn can_happen(books: cpu::Books, s: Switch) -> bool {
    &&& s.prev_tgid == books.current_tgid
    &&& s.prev_tid == 0 <==> s.prev_tgid == 0
    &&& s.next_tid == 0 <==> s.next_tgid == 0
    &&& books.start_time <= s.now
}

/// A context switch moves time from running to billed and neither makes nor
/// loses any: read right before and right after it, every process shows the
/// same.
pub proof fn a_switch_moves_no_time(
    books: cpu::Books,
    since: Map<u32, u64>,
    s: Switch,
    pid: u32,
)
    requires
        can_happen(books, s),
        corrected(books, s.prev_tgid, s.now) <= u64::MAX,
    ensures
        corrected(switched(books, since, s).0, pid, s.now) == corrected(books, pid, s.now),
{
}

/// While a thread stays on a CPU, its process gains exactly the time that passes
/// and no other process gains any - so one that is never switched out is still
/// accounted for.
pub proof fn running_time_is_counted_as_it_passes(
    books: cpu::Books,
    pid: u32,
    now: u64,
    later: u64,
)
    requires
        0 < books.start_time <= now <= later,
    ensures
        corrected(books, pid, later) - corrected(books, pid, now) == if pid == books.current_tgid
            && pid != 0 {
            later - now
        } else {
            0
        },
{
}

/// What a reader makes of `pid` on all of `cpus` together.
pub open spec fn corrected_over(cpus: Seq<cpu::Books>, pid: u32, now: u64) -> nat
    decreases cpus.len(),
{
    if cpus.len() == 0 {
        0
    } else {
        corrected_over(cpus.drop_last(), pid, now) + corrected(cpus.last(), pid, now)
    }
}

/// What the batched read finds for `pid`: one slot per CPU, zero on those that have
/// billed it nothing.
pub open spec fn slots(cpus: Seq<cpu::Books>, pid: u32) -> Seq<u64> {
    cpus.map_values(|books: cpu::Books| cpu_maps::held(books.cpu_ns, pid) as u64)
}

/// Who runs on each of `cpus`.
pub open spec fn tgids(cpus: Seq<cpu::Books>) -> Seq<u32> {
    cpus.map_values(|books: cpu::Books| books.current_tgid)
}

/// Since when, on each of `cpus`.
pub open spec fn starts(cpus: Seq<cpu::Books>) -> Seq<u64> {
    cpus.map_values(|books: cpu::Books| books.start_time)
}

/// Summing the slots and adding the slices in flight finds every process's time on
/// every CPU, billed or not.
pub proof fn a_read_finds_all_time(cpus: Seq<cpu::Books>, pid: u32, now: u64)
    ensures
        batch::sum_of(slots(cpus, pid)) + cpu_maps::owed(
            tgids(cpus),
            starts(cpus),
            now,
            pid,
            cpus.len(),
        ) == corrected_over(cpus, pid, now),
    decreases cpus.len(),
{
    if cpus.len() > 0 {
        let (fewer, n) = (cpus.drop_last(), (cpus.len() - 1) as nat);
        a_read_finds_all_time(fewer, pid, now);
        assert(slots(cpus, pid).drop_last() == slots(fewer, pid));
        lemma_owed_by_the_first(cpus, pid, now, n);
    }
}

/// What the first `n` CPUs owe does not depend on the others.
proof fn lemma_owed_by_the_first(cpus: Seq<cpu::Books>, pid: u32, now: u64, n: nat)
    requires
        n < cpus.len(),
    ensures
        cpu_maps::owed(tgids(cpus), starts(cpus), now, pid, n) == cpu_maps::owed(
            tgids(cpus.drop_last()),
            starts(cpus.drop_last()),
            now,
            pid,
            n,
        ),
    decreases n,
{
    if n > 0 {
        lemma_owed_by_the_first(cpus, pid, now, (n - 1) as nat);
    }
}

/// Idle time is nobody's: a CPU that comes out of idle has billed no one for it.
pub proof fn idle_is_never_charged(books: cpu::Books, since: Map<u32, u64>, s: Switch)
    requires
        s.prev_tid == 0,
    ensures
        switched(books, since, s).0.cpu_ns == books.cpu_ns,
{
}

/// What one switch does to the wait totals: only the process of the thread that comes
/// on is billed, whoever left, and only if that thread was stamped - by the time since
/// then, up to the largest count there is.
pub proof fn a_switch_bills_the_sleep_of_who_comes(
    books: cpu::Books,
    since: Map<u32, u64>,
    s: Switch,
    pid: u32,
)
    requires
        s.prev_tid != s.next_tid,
    ensures
        ({
            let (was, is) = (books.iowait_ns, switched(books, since, s).0.iowait_ns);
            let already = if was.contains_key(pid) {
                was[pid] as int
            } else {
                0
            };
            let slept = s.now - since[s.next_tid];
            if pid == s.next_tgid && pid != 0 && s.next_tid != 0 && since.contains_key(s.next_tid) {
                &&& is.contains_key(pid)
                &&& slept <= 0 ==> is[pid] == already
                &&& slept >= 0 && already + slept <= u64::MAX ==> is[pid] == already + slept
                &&& already + slept > u64::MAX ==> is[pid] == u64::MAX
            } else {
                is.contains_key(pid) == was.contains_key(pid) && is[pid] == was[pid]
            }
        }),
{
}

/// What one switch does to the stamps: the thread that comes on has none any more, the
/// thread that leaves is stamped with the time if it is blocked, and nobody else's
/// changes.
pub proof fn a_switch_stamps_who_leaves_blocked(
    books: cpu::Books,
    since: Map<u32, u64>,
    s: Switch,
    tid: u32,
)
    requires
        s.prev_tid != s.next_tid,
    ensures
        ({
            let stamps = switched(books, since, s).1;
            if tid != 0 && tid == s.next_tid {
                !stamps.contains_key(tid)
            } else if tid != 0 && tid == s.prev_tid && s.prev_state & 0x2 == 0x2 && s.prev_state
                & 0x400 == 0 {
                stamps.contains_key(tid) && stamps[tid] == s.now
            } else {
                stamps.contains_key(tid) == since.contains_key(tid) && stamps[tid] == since[tid]
            }
        }),
{
    iowait::two_bits_decide(s.prev_state);
}

/// What one switch does to the CPU totals: only the process of the thread that leaves
/// is billed, and only if it is not idle and something is stamped - by the time since
/// then, up to the largest count there is. The CPU then belongs to the process that
/// comes, since now; coming to idle leaves the stamp as it is.
pub proof fn a_switch_bills_the_slice_of_who_leaves(
    books: cpu::Books,
    since: Map<u32, u64>,
    s: Switch,
    pid: u32,
)
    ensures
        ({
            let after = switched(books, since, s).0;
            let (was, is) = (books.cpu_ns, after.cpu_ns);
            let already = if was.contains_key(pid) {
                was[pid] as int
            } else {
                0
            };
            let ran = s.now - books.start_time;
            &&& if pid == s.prev_tgid && s.prev_tid != 0 && books.start_time != 0 {
                &&& is.contains_key(pid)
                &&& ran <= 0 ==> is[pid] == already
                &&& ran >= 0 && already + ran <= u64::MAX ==> is[pid] == already + ran
                &&& already + ran > u64::MAX ==> is[pid] == u64::MAX
            } else {
                is.contains_key(pid) == was.contains_key(pid) && is[pid] == was[pid]
            }
            &&& after.current_tgid == s.next_tgid
            &&& s.next_tid != 0 ==> after.start_time == s.now
            &&& s.next_tid == 0 ==> after.start_time == books.start_time
        }),
{
}

/// The CPUs of a machine and the stamps they share.
#[verifier::ext_equal]
pub ghost struct Machine {
    pub cpus: Seq<cpu::Books>,
    pub since: Map<u32, u64>,
}

/// The machine once `steps` have happened, each a switch on one of its CPUs.
pub open spec fn ran(machine: Machine, steps: Seq<(int, Switch)>) -> Machine
    decreases steps.len(),
{
    if steps.len() == 0 {
        machine
    } else {
        let was = ran(machine, steps.drop_last());
        let (cpu, s) = steps.last();
        let (books, since) = switched(was.cpus[cpu], was.since, s);
        Machine { cpus: was.cpus.update(cpu, books), since }
    }
}

/// Every step is a switch from one thread to another, on a CPU of the machine.
pub open spec fn steps_fit(machine: Machine, steps: Seq<(int, Switch)>) -> bool {
    forall|k: int|
        0 <= k < steps.len() ==> 0 <= (#[trigger] steps[k]).0 < machine.cpus.len()
            && steps[k].1.prev_tid != steps[k].1.next_tid
}

/// Thread `tid` leaves a CPU with the first step, and no other but the last takes it on
/// or off one.
pub open spec fn is_away(steps: Seq<(int, Switch)>, tid: u32) -> bool {
    &&& steps.len() >= 2
    &&& steps[0].1.prev_tid == tid
    &&& forall|k: int|
        0 < k < steps.len() - 1 ==> (#[trigger] steps[k]).1.prev_tid != tid
            && steps[k].1.next_tid != tid
    &&& steps.last().1.prev_tid != tid
    &&& steps.last().1.next_tid == tid
}

/// A thread that leaves a CPU blocked and comes on again, on whichever CPU and whatever
/// thread it follows there, has cost its process exactly the time in between: its wait
/// total on that CPU grows by that much. The stamp is gone.
pub proof fn a_blocked_thread_is_billed_when_it_comes_back(
    machine: Machine,
    steps: Seq<(int, Switch)>,
    tid: u32,
)
    requires
        steps_fit(machine, steps),
        is_away(steps, tid),
        tid != 0,
        steps[0].1.prev_state & 0x2 == 0x2,
        steps[0].1.prev_state & 0x400 == 0,
        steps.last().1.next_tgid != 0,
        steps[0].1.now <= steps.last().1.now,
    ensures
        ({
            let (cpu, s) = steps.last();
            let was = ran(machine, steps.drop_last()).cpus[cpu].iowait_ns;
            let is = ran(machine, steps).cpus[cpu].iowait_ns;
            let already = if was.contains_key(s.next_tgid) {
                was[s.next_tgid] as int
            } else {
                0
            };
            let away = s.now - steps[0].1.now;
            &&& is.contains_key(s.next_tgid)
            &&& already + away <= u64::MAX ==> is[s.next_tgid] == already + away
            &&& already + away > u64::MAX ==> is[s.next_tgid] == u64::MAX
            &&& !ran(machine, steps).since.contains_key(tid)
        }),
{
    let before = steps.drop_last();
    assert forall|k: int| 0 <= k < before.len() implies #[trigger] before[k] == steps[k] by {}
    lemma_stamp_stays(machine, before, tid);
    lemma_cpus(machine, before);
    let (cpu, s) = steps.last();
    let was = ran(machine, before);
    assert(steps[steps.len() - 1] == steps.last());
    a_switch_bills_the_sleep_of_who_comes(was.cpus[cpu], was.since, s, s.next_tgid);
    a_switch_stamps_who_leaves_blocked(was.cpus[cpu], was.since, s, tid);
}

proof fn lemma_stamp_stays(machine: Machine, steps: Seq<(int, Switch)>, tid: u32)
    requires
        steps_fit(machine, steps),
        steps.len() >= 1,
        tid != 0,
        steps[0].1.prev_tid == tid,
        steps[0].1.prev_state & 0x2 == 0x2,
        steps[0].1.prev_state & 0x400 == 0,
        forall|k: int|
            0 < k < steps.len() ==> (#[trigger] steps[k]).1.prev_tid != tid
                && steps[k].1.next_tid != tid,
    ensures
        ran(machine, steps).since.contains_key(tid),
        ran(machine, steps).since[tid] == steps[0].1.now,
    decreases steps.len(),
{
    let before = steps.drop_last();
    let (cpu, s) = steps.last();
    let was = ran(machine, before);
    assert(steps[steps.len() - 1] == steps.last());
    a_switch_stamps_who_leaves_blocked(was.cpus[cpu], was.since, s, tid);
    if steps.len() > 1 {
        assert forall|k: int| 0 <= k < before.len() implies #[trigger] before[k] == steps[k] by {}
        lemma_stamp_stays(machine, before, tid);
    }
}

proof fn lemma_cpus(machine: Machine, steps: Seq<(int, Switch)>)
    requires
        steps_fit(machine, steps),
    ensures
        ran(machine, steps).cpus.len() == machine.cpus.len(),
    decreases steps.len(),
{
    if steps.len() > 0 {
        let before = steps.drop_last();
        assert forall|k: int| 0 <= k < before.len() implies #[trigger] before[k] == steps[k] by {}
        assert(steps[steps.len() - 1] == steps.last());
        lemma_cpus(machine, before);
    }
}

/// Through any number of switches, a process none of whose threads comes on waits for
/// nothing: its wait total stays as it is on every CPU.
pub proof fn who_does_not_come_on_waits_for_nothing(
    machine: Machine,
    steps: Seq<(int, Switch)>,
    pid: u32,
    cpu: int,
)
    requires
        steps_fit(machine, steps),
        forall|k: int| 0 <= k < steps.len() ==> (#[trigger] steps[k]).1.next_tgid != pid,
        0 <= cpu < machine.cpus.len(),
    ensures
        ({
            let (was, is) = (machine.cpus[cpu].iowait_ns, ran(machine, steps).cpus[cpu].iowait_ns);
            is.contains_key(pid) == was.contains_key(pid) && is[pid] == was[pid]
        }),
    decreases steps.len(),
{
    if steps.len() > 0 {
        let before = steps.drop_last();
        assert forall|k: int| 0 <= k < before.len() implies #[trigger] before[k] == steps[k] by {}
        who_does_not_come_on_waits_for_nothing(machine, before, pid, cpu);
        lemma_cpus(machine, before);
        let was = ran(machine, before);
        let (i, s) = steps.last();
        assert(steps[steps.len() - 1] == steps.last());
        a_switch_bills_the_sleep_of_who_comes(was.cpus[i], was.since, s, pid);
    }
}

/// A thread that comes onto a CPU and leaves it, with no switch on that CPU in between,
/// has run all that time: the total of its process grows by exactly that much there,
/// and nobody else's does, whatever the other CPUs do meanwhile.
pub proof fn a_thread_is_billed_what_it_ran(
    machine: Machine,
    steps: Seq<(int, Switch)>,
    pid: u32,
)
    requires
        steps_fit(machine, steps),
        steps.len() >= 2,
        steps.last().0 == steps[0].0,
        forall|k: int| 0 < k < steps.len() - 1 ==> (#[trigger] steps[k]).0 != steps[0].0,
        steps[0].1.next_tid != 0,
        steps.last().1.prev_tid == steps[0].1.next_tid,
        0 < steps[0].1.now <= steps.last().1.now,
    ensures
        ({
            let (cpu, s) = steps.last();
            let was = ran(machine, steps.take(1)).cpus[cpu].cpu_ns;
            let is = ran(machine, steps).cpus[cpu].cpu_ns;
            let already = if was.contains_key(pid) {
                was[pid] as int
            } else {
                0
            };
            let ran = s.now - steps[0].1.now;
            if pid == s.prev_tgid {
                &&& is.contains_key(pid)
                &&& already + ran <= u64::MAX ==> is[pid] == already + ran
                &&& already + ran > u64::MAX ==> is[pid] == u64::MAX
            } else {
                is.contains_key(pid) == was.contains_key(pid) && is[pid] == was[pid]
            }
        }),
{
    let before = steps.drop_last();
    let (cpu, s) = steps.last();
    assert forall|k: int| 0 <= k < before.len() implies #[trigger] before[k] == steps[k] by {}
    lemma_left_alone(machine, before);
    assert(before.take(1) =~= steps.take(1));
    let was = ran(machine, before);
    assert(steps[steps.len() - 1] == steps.last());
    lemma_cpus(machine, before);
    a_switch_bills_the_slice_of_who_leaves(was.cpus[cpu], was.since, s, pid);
}

proof fn lemma_left_alone(machine: Machine, steps: Seq<(int, Switch)>)
    requires
        steps_fit(machine, steps),
        steps.len() >= 1,
        steps[0].1.next_tid != 0,
        forall|k: int| 0 < k < steps.len() ==> (#[trigger] steps[k]).0 != steps[0].0,
    ensures
        ran(machine, steps).cpus[steps[0].0] == ran(machine, steps.take(1)).cpus[steps[0].0],
        ran(machine, steps).cpus[steps[0].0].start_time == steps[0].1.now,
    decreases steps.len(),
{
    let before = steps.drop_last();
    let (i, s) = steps.last();
    let was = ran(machine, before);
    assert(steps[steps.len() - 1] == steps.last());
    assert forall|k: int| 0 <= k < before.len() implies #[trigger] before[k] == steps[k] by {}
    lemma_cpus(machine, before);
    if steps.len() > 1 {
        lemma_left_alone(machine, before);
        assert(before.take(1) =~= steps.take(1));
    } else {
        assert(steps.take(1) =~= steps);
        a_switch_bills_the_slice_of_who_leaves(was.cpus[i], was.since, s, 0);
    }
}

/// The ids of a `tgid:pid` word are the two it was put together from.
pub proof fn both_ids_come_apart(tid: u32, tgid: u32)
    ensures
        ids_of((tgid * 0x1_0000_0000 + tid) as u64) == (tid, tgid),
{
}

/// The state comes from the tracepoint's argument exactly where there is one.
pub proof fn the_argument_is_taken_where_there_is_one(argument: u32, field: u32, flag: u32)
    ensures
        left_in(0, argument, field) == field,
        flag != 0 ==> left_in(flag, argument, field) == argument,
{
}

/// A thread that is switched for itself has not been away: it is left without a stamp,
/// it is billed no wait if it was blocked, and nobody else is touched.
pub proof fn a_thread_switched_for_itself_was_not_away(
    books: cpu::Books,
    since: Map<u32, u64>,
    s: Switch,
    tid: u32,
    pid: u32,
)
    requires
        s.prev_tid == s.next_tid,
        s.next_tid != 0,
    ensures
        ({
            let (after, stamps) = switched(books, since, s);
            let (was, is) = (books.iowait_ns, after.iowait_ns);
            &&& !stamps.contains_key(s.next_tid)
            &&& tid != s.next_tid ==> stamps.contains_key(tid) == since.contains_key(tid)
                && stamps[tid] == since[tid]
            &&& pid != s.next_tgid ==> is.contains_key(pid) == was.contains_key(pid) && is[pid]
                == was[pid]
            &&& s.prev_state & 0x2 == 0x2 && s.prev_state & 0x400 == 0 ==> cpu_maps::held(is, pid)
                == cpu_maps::held(was, pid)
        }),
{
    iowait::two_bits_decide(s.prev_state);
}

} // verus!
