//! Collector (backend) - producer side of the double-buffer. Each tick diffs the
//! CPU and I/O-wait counters into per-pid maps ([`Collector::measure`]), enriches
//! the union of the top rows of each with name/user/RSS, and publishes an immutable
//! snapshot of raw values ([`Collector::tick`]). In between, the binary looks up
//! what the selected rows are enriched with. Sorting and formatting are the
//! renderer's job.

use std::collections::VecDeque;

use vstd::prelude::*;

use crate::accuracy;
use crate::common::Identity;
use crate::counters;
use crate::double;
use crate::double::Binary;
use crate::metrics;
use crate::metrics::{
    CpuCollector, CpuMetrics, Deltas, IoMetrics, IoWaitCollector, MemReader, ProcessMetrics,
    Resolver, Snapshot,
};
use crate::percent;
use crate::percent::Percent;
use crate::ranking;
use crate::system;
use crate::system::CpuCounts;
use crate::text;

verus! {

broadcast use vstd::std_specs::hash::group_hash_axioms;

/// Rows enriched (name/user/RSS via `/proc`) per sortable metric. The renderer
/// truncates further to the viewport; enriching only the top of each metric
/// keeps `/proc` reads bounded, not O(process count).
pub const MAX_ROWS: usize = 256;

/// Chart history depth, in ticks.
pub const HISTORY: usize = 120;

/// One tick's snapshot, published whole and never mutated. Raw values only; the
/// renderer formats them, and only for the rows it draws.
#[derive(Clone, Debug)]
pub struct SystemState {
    /// The rows worth enriching - the top of each metric, not every process.
    pub processes: Vec<ProcessMetrics>,
    /// Machine-wide CPU over the last `HISTORY` ticks, oldest first.
    pub cpu_history: VecDeque<Percent>,
    /// The same for I/O wait.
    pub io_history: VecDeque<Percent>,
    /// CPU used this tick, as a share of the online cores.
    pub total_cpu_percent: Percent,
    /// I/O wait this tick, summed across processes rather than normalised.
    pub total_io_percent: Percent,
    /// Memory in use: total minus available, the figure `free` reports as used.
    pub memory_used_bytes: u64,
    /// Installed memory.
    pub memory_total_bytes: u64,
    /// The one-minute load average, with two decimals.
    pub load_average: String,
    /// Processes the kernel is accounting for, which is all of them that have
    /// run, not just the rows above.
    pub accounted: usize,
    /// The counter map is full, so it is evicting to make room. Accounting stays
    /// honest, but a process that has been idle a while may report 0% for one
    /// tick after it runs again.
    pub at_capacity: bool,
}

impl Default for SystemState {
    /// The snapshot before the first tick: nothing is known.
    fn default() -> (out: SystemState)
        ensures
            out.processes@.len() == 0,
            out.cpu_history@.len() == 0,
            out.io_history@.len() == 0,
            out.total_cpu_percent.reads(Binary::zero()),
            out.total_io_percent.reads(Binary::zero()),
            out.memory_used_bytes == 0,
            out.memory_total_bytes == 0,
            out.load_average@ == "0.00"@,
            out.accounted == 0,
            !out.at_capacity,
    {
        SystemState {
            processes: Vec::new(),
            cpu_history: VecDeque::new(),
            io_history: VecDeque::new(),
            total_cpu_percent: Percent::zero(),
            total_io_percent: Percent::zero(),
            memory_used_bytes: 0,
            memory_total_bytes: 0,
            load_average: "0.00".to_owned(),
            accounted: 0,
            at_capacity: false,
        }
    }
}

// ── Selecting rows ───────────────────────────────────────────────────────────

/// `pids` are `cap` of the highest counters in `parts`, or all of them where they
/// are fewer: none that is left out is higher than one that is not.
pub open spec fn is_top(pids: Seq<u32>, parts: Map<u32, u64>, cap: nat) -> bool {
    &&& pids.no_duplicates()
    &&& pids.len() == if cap <= parts.dom().len() {
        cap
    } else {
        parts.dom().len()
    }
    &&& forall|i: int| 0 <= i < pids.len() ==> parts.contains_key(#[trigger] pids[i])
    &&& forall|i: int, left: u32|
        0 <= i < pids.len() && #[trigger] parts.contains_key(left) && !pids.contains(left)
            ==> parts[left] <= parts[#[trigger] pids[i]]
}

/// The `cap` highest-valued pids. Which of several equal ones make the cut is
/// left open.
pub fn top_pids(values: &Deltas, cap: usize) -> (out: Vec<u32>)
    ensures
        is_top(out@, values.parts@, cap as nat),
{
    let all = counters::entries(&values.parts);
    let mut keys: Vec<u128> = Vec::new();
    for i in 0..all.len()
        invariant
            keys.len() == i,
            forall|k: int| 0 <= k < i ==> #[trigger] keys@[k] == all@[k].1,
    {
        keys.push(all[i].1 as u128);
    }
    let order = ranking::rank(&keys);
    let count: usize = if cap <= all.len() { cap } else { all.len() };
    let mut out: Vec<u32> = Vec::new();
    for a in 0..count
        invariant
            count <= all.len(),
            all.len() == keys.len(),
            ranking::is_ranking(order@, keys@),
            out.len() == a,
            forall|b: int| 0 <= b < a ==> #[trigger] out@[b] == all@[order@[b] as int].0,
    {
        assert(order@[a as int] < keys@.len());
        out.push(all[order[a]].0);
    }
    proof {
        let parts = values.parts@;
        ranking::a_ranking_repeats_nothing(order@, keys@);
        assert forall|a: int, b: int| 0 <= a < b < out.len() implies out@[a] != out@[b] by {
            assert(order@[a] != order@[b]);
            assert(order@[a] < all.len() && order@[b] < all.len());
            assert(all@[order@[a] as int].0 != all@[order@[b] as int].0);
        }
        assert forall|i: int| 0 <= i < out.len() implies parts.contains_key(#[trigger] out@[i]) by {
            assert(order@[i] < all.len());
            assert(all@[order@[i] as int].0 == out@[i]);
        }
        assert forall|i: int, left: u32|
            0 <= i < out.len() && #[trigger] parts.contains_key(left) && !out@.contains(
                left,
            ) implies parts[left] <= parts[#[trigger] out@[i]] by {
            let x = choose|x: int| 0 <= x < all.len() && (#[trigger] all@[x]).0 == left;
            assert(order@.contains(x as usize));
            let b = choose|b: int| 0 <= b < order.len() && order@[b] == x as usize;
            if b < count {
                assert(out@[b] == left);
                assert(false);
            }
            assert(ranking::before(keys@, order@[i] as int, order@[b] as int));
            assert(order@[i] < all.len());
            assert(all@[order@[i] as int].0 == out@[i]);
            assert(keys@[order@[i] as int] == parts[out@[i]]);
            assert(keys@[x] == parts[left]);
        }
    }
    out
}

/// Whether `pid` is among `pids`.
fn holds(pids: &Vec<u32>, pid: u32) -> (r: bool)
    ensures
        r == pids@.contains(pid),
{
    for i in 0..pids.len()
        invariant
            forall|j: int| 0 <= j < i ==> pids@[j] != pid,
    {
        if pids[i] == pid {
            assert(pids@[i as int] == pid);
            return true;
        }
    }
    false
}

/// `pids` are those of `a` and those of `b`, each once.
pub open spec fn merges(pids: Seq<u32>, a: Seq<u32>, b: Seq<u32>) -> bool {
    &&& pids.no_duplicates()
    &&& forall|pid: u32| #[trigger] pids.contains(pid) <==> a.contains(pid) || b.contains(pid)
    &&& pids.len() <= a.len() + b.len()
}

/// `pids` merge a top `cap` of one metric with a top `cap` of the other.
pub open spec fn is_selection(
    pids: Seq<u32>,
    cpu: Map<u32, u64>,
    io: Map<u32, u64>,
    cap: nat,
) -> bool {
    exists|a: Seq<u32>, b: Seq<u32>| #[trigger]
        merges(pids, a, b) && is_top(a, cpu, cap) && is_top(b, io, cap)
}

/// The union of the top-`cap` pids by CPU and by I/O wait: whatever the renderer
/// sorts by, the true top of that metric is present and enriched.
pub fn select_candidates(cpu: &Deltas, io: &Deltas, cap: usize) -> (out: Vec<u32>)
    ensures
        is_selection(out@, cpu.parts@, io.parts@, cap as nat),
        out@.no_duplicates(),
        out@.len() <= 2 * cap,
{
    let mut out = top_pids(cpu, cap);
    let more = top_pids(io, cap);
    let ghost a = out@;
    for i in 0..more.len()
        invariant
            out@.no_duplicates(),
            out.len() <= a.len() + i,
            forall|pid: u32| #[trigger]
                out@.contains(pid) <==> a.contains(pid) || more@.take(i as int).contains(pid),
    {
        let pid = more[i];
        let ghost was = out@;
        proof {
            let (fewer, now) = (more@.take(i as int), more@.take(i + 1));
            assert(now == fewer.push(pid));
            assert forall|x: u32| #[trigger] now.contains(x) <==> fewer.contains(x) || x
                == pid by {
                if fewer.contains(x) {
                    let j = choose|j: int| 0 <= j < fewer.len() && fewer[j] == x;
                    assert(now[j] == x);
                }
                if x == pid {
                    assert(now[i as int] == x);
                }
                if now.contains(x) && x != pid {
                    let j = choose|j: int| 0 <= j < now.len() && now[j] == x;
                    assert(fewer[j] == x);
                }
            }
        }
        if !holds(&out, pid) {
            out.push(pid);
            proof {
                assert forall|x: u32| #[trigger] out@.contains(x) <==> was.contains(x) || x
                    == pid by {
                    if was.contains(x) {
                        let j = choose|j: int| 0 <= j < was.len() && was[j] == x;
                        assert(out@[j] == x);
                    }
                    if x == pid {
                        assert(out@[was.len() as int] == x);
                    }
                    if out@.contains(x) && x != pid {
                        let j = choose|j: int| 0 <= j < out@.len() && out@[j] == x;
                        assert(was[j] == x);
                    }
                }
            }
        }
    }
    proof {
        assert(more@.take(more.len() as int) == more@);
        assert(merges(out@, a, more@));
    }
    out
}

// ── History ──────────────────────────────────────────────────────────────────

/// `history` with one more sample, the oldest dropped where it is full.
pub open spec fn capped(history: Seq<Percent>, value: Percent) -> Seq<Percent> {
    if history.len() >= HISTORY {
        history.drop_first().push(value)
    } else {
        history.push(value)
    }
}

/// Add a sample to `buf`, dropping the oldest where it is full.
pub fn push_capped(buf: &mut VecDeque<Percent>, value: Percent)
    ensures
        final(buf)@ == capped(old(buf)@, value),
{
    if buf.len() >= HISTORY {
        buf.pop_front();
        assert(buf@ == old(buf)@.drop_first());
    }
    buf.push_back(value);
}

/// `history` is as deep as it gets, of nothing yet.
pub open spec fn is_flat(history: Seq<Percent>) -> bool {
    &&& history.len() == HISTORY
    &&& forall|i: int|
        0 <= i < history.len() ==> (#[trigger] history[i]).reads(Binary::zero())
}

/// A history of nothing yet, as deep as it gets, so the charts span their panel
/// from the first tick instead of drawing into a mostly empty axis.
fn flat_history() -> (out: VecDeque<Percent>)
    ensures
        is_flat(out@),
{
    let mut out: VecDeque<Percent> = VecDeque::new();
    for i in 0..HISTORY
        invariant
            out@.len() == i,
            forall|k: int| 0 <= k < i ==> (#[trigger] out@[k]).reads(Binary::zero()),
    {
        out.push_back(Percent::zero());
    }
    out
}

fn copy_history(history: &VecDeque<Percent>) -> (out: VecDeque<Percent>)
    ensures
        out@ == history@,
{
    let mut out: VecDeque<Percent> = VecDeque::new();
    for i in 0..history.len()
        invariant
            out@ == history@.take(i as int),
    {
        out.push_back(history[i]);
        assert(history@.take(i + 1) == history@.take(i as int).push(history@[i as int]));
    }
    assert(history@.take(history@.len() as int) == history@);
    out
}

// ── The collector ────────────────────────────────────────────────────────────

/// Owns the per-metric collectors; each tick turns what was read from the maps
/// into the next snapshot.
#[derive(Debug)]
pub struct Collector {
    pub cpu: CpuCollector,
    pub iowait: IoWaitCollector,
    pub names: Resolver,
    pub mem: MemReader,
    pub online_cpus: usize,
    pub capacity: usize,
    pub memory_total_bytes: u64,
    pub cpu_history: VecDeque<Percent>,
    pub io_history: VecDeque<Percent>,
}

/// What the counters say of one tick, and the rows to look up.
#[derive(Debug)]
pub struct Measured {
    pub accounted: usize,
    pub cpu: Deltas,
    pub io: Deltas,
    pub candidates: Vec<u32>,
}

/// What was looked up for one row: the identity the kernel holds of it, and its
/// `statm`.
#[derive(Debug)]
pub struct Lookup {
    pub live: Option<Identity>,
    pub statm: Option<String>,
}

/// `pid`'s share in `deltas`; nothing where it is not in them.
pub open spec fn share(deltas: Deltas, pid: u32) -> Binary {
    if deltas.parts@.contains_key(pid) {
        percent::share(deltas.parts@[pid] as nat, deltas.whole as nat)
    } else {
        Binary::zero()
    }
}

/// `row` is `pid`'s: its counter values, with its name, user and RSS.
pub open spec fn is_row(
    row: ProcessMetrics,
    pid: u32,
    known: metrics::identity::Known,
    page_size: nat,
    cpu: Deltas,
    io: Deltas,
    lookup: Lookup,
) -> bool {
    &&& row.pid == pid
    &&& row.name@ == known.name(pid, lookup.live)
    &&& text::content(row.user) == known.owner(pid, lookup.live)
    &&& row.cpu.cpu_percent.reads(share(cpu, pid))
    &&& row.mem == metrics::mem::resident(text::content(lookup.statm), page_size)
    &&& match row.io {
        Some(wait) => {
            &&& io.parts@.contains_key(pid)
            &&& wait.io_wait_percent.reads(share(io, pid))
        },
        None => !io.parts@.contains_key(pid),
    }
}

/// `sum` is what the shares of all in `deltas` add up to, in the order in which its
/// map was walked.
pub open spec fn is_sum(sum: Binary, deltas: Deltas) -> bool {
    exists|walk: Seq<(u32, u64)>| #[trigger]
        counters::lists(walk, deltas.parts@) && sum == percent::summed(walk, deltas.whole as nat)
}

/// `share` is what the shares of all in `deltas` add up to, shared among `cores`.
pub open spec fn is_average(share: Binary, deltas: Deltas, cores: nat) -> bool {
    exists|sum: Binary| #[trigger] is_sum(sum, deltas) && share == sum.div(double::whole(cores))
}

/// `out` has seen no tick yet.
pub open spec fn is_fresh(
    out: Collector,
    cpus: CpuCounts,
    capacity: u32,
    memory_total_bytes: u64,
) -> bool {
    &&& out.cpu.prev@ == metrics::Reading::none()
    &&& out.iowait.prev@ == metrics::Reading::none()
    &&& out.online_cpus == cpus.online
    &&& out.capacity == capacity
    &&& out.memory_total_bytes == memory_total_bytes
    &&& is_flat(out.cpu_history@)
    &&& is_flat(out.io_history@)
}

/// `out` is what the counters say of a tick whose two readings follow two others.
pub open spec fn is_measured(
    out: Measured,
    cpu: (metrics::Reading, metrics::Reading),
    io: (metrics::Reading, metrics::Reading),
) -> bool {
    &&& out.accounted == cpu.1.by_pid.dom().len()
    &&& out.cpu.whole == cpu.1.elapsed_since(cpu.0)
    &&& out.cpu.parts@ == metrics::cpu::charges(cpu.0, cpu.1)
    &&& out.io.whole == io.1.elapsed_since(io.0)
    &&& out.io.parts@ == metrics::iowait::waits(io.0, io.1)
    &&& is_selection(out.candidates@, out.cpu.parts@, out.io.parts@, MAX_ROWS as nat)
}

/// `out` is the snapshot of a tick that measured `measured`, behind the two histories.
pub open spec fn is_snapshot(
    out: SystemState,
    measured: Measured,
    cpu_history: Seq<Percent>,
    io_history: Seq<Percent>,
    cores: nat,
) -> bool {
    &&& out.processes@.len() == measured.candidates@.len()
    &&& forall|i: int|
        0 <= i < out.processes@.len() ==> (#[trigger] out.processes@[i]).pid
            == measured.candidates@[i]
    &&& is_average(out.total_cpu_percent.value(), measured.cpu, cores)
    &&& is_sum(out.total_io_percent.value(), measured.io)
    &&& out.cpu_history@ == capped(cpu_history, out.total_cpu_percent)
    &&& out.io_history@ == capped(io_history, out.total_io_percent)
    &&& out.accounted == measured.accounted
}

/// The counter map holds as many as it has room for.
pub open spec fn is_full(accounted: usize, capacity: usize) -> bool {
    accounted >= capacity
}

impl Collector {
    pub fn new(
        names: Resolver,
        mem: MemReader,
        cpus: CpuCounts,
        capacity: u32,
        memory_total_bytes: u64,
    ) -> (out: Collector)
        ensures
            out.cpu.prev@ == metrics::Reading::none(),
            out.iowait.prev@ == metrics::Reading::none(),
            out.names == names,
            out.mem == mem,
            out.online_cpus == cpus.online,
            out.capacity == capacity,
            out.memory_total_bytes == memory_total_bytes,
            is_flat(out.cpu_history@),
            is_flat(out.io_history@),
            is_fresh(out, cpus, capacity, memory_total_bytes),
    {
        Collector {
            cpu: CpuCollector::new(),
            iowait: IoWaitCollector::new(),
            names,
            mem,
            online_cpus: cpus.online,
            capacity: capacity as usize,
            memory_total_bytes,
            cpu_history: flat_history(),
            io_history: flat_history(),
        }
    }

    /// The first half of a tick: diff what was just read of the two counter maps
    /// against the last tick, and pick the rows to look up.
    pub fn measure(&mut self, cpu_snap: Snapshot, io_snap: Snapshot) -> (out: Measured)
        ensures
            *final(self) == (Collector {
                cpu: CpuCollector { prev: cpu_snap },
                iowait: IoWaitCollector { prev: io_snap },
                ..*old(self)
            }),
            out.accounted == cpu_snap.by_pid@.dom().len(),
            out.cpu.whole == cpu_snap@.elapsed_since(old(self).cpu.prev@),
            out.cpu.parts@ == metrics::cpu::charges(old(self).cpu.prev@, cpu_snap@),
            out.io.whole == io_snap@.elapsed_since(old(self).iowait.prev@),
            out.io.parts@ == metrics::iowait::waits(old(self).iowait.prev@, io_snap@),
            is_selection(out.candidates@, out.cpu.parts@, out.io.parts@, MAX_ROWS as nat),
            out.candidates@.no_duplicates(),
            out.candidates@.len() <= 2 * MAX_ROWS,
            is_measured(
                out,
                (old(self).cpu.prev@, cpu_snap@),
                (old(self).iowait.prev@, io_snap@),
            ),
    {
        // Reads a handful high: the in-flight correction can add a running tgid
        // the map has not seen. Noise against a five-figure capacity.
        let accounted = cpu_snap.by_pid.len();
        let cpu = self.cpu.deltas(cpu_snap);
        let io = self.iowait.deltas(io_snap);
        let candidates = select_candidates(&cpu, &io, MAX_ROWS);
        Measured { accounted, cpu, io, candidates }
    }

    /// One candidate pid to a full row: its counter values plus name, user, RSS.
    pub fn enrich(&self, pid: u32, cpu: &Deltas, io: &Deltas, lookup: &Lookup) -> (out:
        ProcessMetrics)
        requires
            self.mem.fits(text::content(lookup.statm)),
        ensures
            is_row(out, pid, self.names@, self.mem.page_size as nat, *cpu, *io, *lookup),
    {
        ProcessMetrics {
            pid,
            name: self.names.resolve(pid, &lookup.live),
            user: self.names.user(pid, &lookup.live),
            cpu: CpuMetrics {
                cpu_percent: match cpu.get(pid) {
                    Some(percent) => percent,
                    None => Percent::zero(),
                },
            },
            mem: self.mem.for_pid(&lookup.statm),
            io: match io.get(pid) {
                Some(percent) => Some(IoMetrics { io_wait_percent: percent }),
                None => None,
            },
        }
    }

    /// The second half of a tick: the rows picked by [`Collector::measure`],
    /// enriched with what was looked up for each, and the machine-wide figures.
    pub fn tick(
        &mut self,
        measured: &Measured,
        lookups: &Vec<Lookup>,
        meminfo: &Option<String>,
        load_average: String,
    ) -> (out: SystemState)
        requires
            old(self).online_cpus > 0,
            lookups@.len() == measured.candidates@.len(),
            forall|i: int|
                0 <= i < lookups@.len() ==> old(self).mem.fits(
                    text::content((#[trigger] lookups@[i]).statm),
                ),
            system::row_fits(text::content(*meminfo), "MemAvailable:"@),
        ensures
            out.processes@.len() == measured.candidates@.len(),
            forall|i: int|
                0 <= i < out.processes@.len() ==> is_row(
                    #[trigger] out.processes@[i],
                    measured.candidates@[i],
                    old(self).names@,
                    old(self).mem.page_size as nat,
                    measured.cpu,
                    measured.io,
                    lookups@[i],
                ),
            is_average(
                out.total_cpu_percent.value(),
                measured.cpu,
                old(self).online_cpus as nat,
            ),
            is_sum(out.total_io_percent.value(), measured.io),
            out.total_cpu_percent.minus() == (measured.cpu.parts@.dom().len() == 0),
            out.total_io_percent.minus() == (measured.io.parts@.dom().len() == 0),
            out.total_cpu_percent.minus() == percent::is_signed(measured.cpu.parts@.dom().len()),
            out.total_io_percent.minus() == percent::is_signed(measured.io.parts@.dom().len()),
            out.cpu_history@ == capped(old(self).cpu_history@, out.total_cpu_percent),
            out.io_history@ == capped(old(self).io_history@, out.total_io_percent),
            final(self).cpu_history@ == out.cpu_history@,
            final(self).io_history@ == out.io_history@,
            *final(self) == (Collector {
                cpu_history: final(self).cpu_history,
                io_history: final(self).io_history,
                ..*old(self)
            }),
            out.memory_used_bytes == system::used(
                old(self).memory_total_bytes as nat,
                text::content(*meminfo),
            ),
            out.memory_total_bytes == old(self).memory_total_bytes,
            out.load_average == load_average,
            out.accounted == measured.accounted,
            out.at_capacity == (measured.accounted >= old(self).capacity),
            out.at_capacity == is_full(measured.accounted, old(self).capacity),
            is_snapshot(
                out,
                *measured,
                old(self).cpu_history@,
                old(self).io_history@,
                old(self).online_cpus as nat,
            ),
    {
        let mut processes: Vec<ProcessMetrics> = Vec::new();
        for i in 0..measured.candidates.len()
            invariant
                lookups@.len() == measured.candidates@.len(),
                forall|k: int|
                    0 <= k < lookups@.len() ==> self.mem.fits(
                        text::content((#[trigger] lookups@[k]).statm),
                    ),
                processes@.len() == i,
                forall|k: int|
                    0 <= k < i ==> is_row(
                        #[trigger] processes@[k],
                        measured.candidates@[k],
                        self.names@,
                        self.mem.page_size as nat,
                        measured.cpu,
                        measured.io,
                        lookups@[k],
                    ),
        {
            let lookup = &lookups[i];
            assert(self.mem.fits(text::content(lookups@[i as int].statm)));
            processes.push(
                self.enrich(measured.candidates[i], &measured.cpu, &measured.io, lookup),
            );
        }

        let cpu = counters::entries(&measured.cpu.parts);
        let total_cpu_percent = Percent::average(
            &cpu,
            measured.cpu.whole,
            self.online_cpus as u64,
        );
        assert(is_sum(percent::summed(cpu@, measured.cpu.whole as nat), measured.cpu));
        let io = counters::entries(&measured.io.parts);
        let total_io_percent = Percent::sum(&io, measured.io.whole);
        assert(is_sum(total_io_percent.value(), measured.io));
        push_capped(&mut self.cpu_history, total_cpu_percent);
        push_capped(&mut self.io_history, total_io_percent);

        SystemState {
            processes,
            cpu_history: copy_history(&self.cpu_history),
            io_history: copy_history(&self.io_history),
            total_cpu_percent,
            total_io_percent,
            memory_used_bytes: system::memory_used_bytes(self.memory_total_bytes, meminfo),
            memory_total_bytes: self.memory_total_bytes,
            load_average,
            accounted: measured.accounted,
            at_capacity: measured.accounted >= self.capacity,
        }
    }
}

/// The line a headless run prints of a tick.
pub open spec fn tick_line(i: nat, ticks: nat, accounted: nat) -> Seq<char> {
    "tick "@ + text::decimal(i) + "/"@ + text::decimal(ticks) + ": "@ + text::decimal(accounted)
        + " processes"@
}

/// The line a headless run prints of its `i`th tick. `accounted`, not the row count:
/// the rows stop at [`MAX_ROWS`] of each metric however many processes are running.
pub fn headless_line(i: u32, ticks: u32, accounted: usize) -> (out: String)
    ensures
        out@ == "tick "@ + text::decimal(i as nat) + "/"@ + text::decimal(ticks as nat) + ": "@
            + text::decimal(accounted as nat) + " processes"@,
        out@ == tick_line(i as nat, ticks as nat, accounted as nat),
{
    let mut out = "tick ".to_owned();
    out.append(text::to_decimal(i as u128).as_str());
    out.append("/");
    out.append(text::to_decimal(ticks as u128).as_str());
    out.append(": ");
    out.append(text::to_decimal(accounted as u128).as_str());
    out.append(" processes");
    out
}

// ── Laws ─────────────────────────────────────────────────────────────────────

/// The true top of each metric is in the selection: whoever is left out is
/// outranked by as many who are not as the metric has room for.
pub proof fn what_is_left_out_is_outranked(
    pids: Seq<u32>,
    cpu: Map<u32, u64>,
    io: Map<u32, u64>,
    cap: nat,
    pid: u32,
)
    requires
        is_selection(pids, cpu, io, cap),
        cpu.dom().finite(),
        io.dom().finite(),
        !pids.contains(pid),
    ensures
        cpu.contains_key(pid) ==> outranked(pids, cpu, cap, pid),
        io.contains_key(pid) ==> outranked(pids, io, cap, pid),
{
    let (a, b) = choose|a: Seq<u32>, b: Seq<u32>| #[trigger]
        merges(pids, a, b) && is_top(a, cpu, cap) && is_top(b, io, cap);
    assert(!a.contains(pid) && !b.contains(pid));
    assert forall|i: int| 0 <= i < a.len() implies pids.contains(#[trigger] a[i]) by {
        assert(a.contains(a[i]));
    }
    assert forall|i: int| 0 <= i < b.len() implies pids.contains(#[trigger] b[i]) by {
        assert(b.contains(b[i]));
    }
    if cpu.contains_key(pid) {
        lemma_full(a, cpu, cap, pid);
        assert(outranks(a, pids, cpu, pid));
    }
    if io.contains_key(pid) {
        lemma_full(b, io, cap, pid);
        assert(outranks(b, pids, io, pid));
    }
}

/// Processes rank by their counters as they do by what they are shown to have taken:
/// a top of the counters is one of the shares.
pub proof fn a_top_by_counter_is_one_by_share(
    pids: Seq<u32>,
    parts: Map<u32, u64>,
    whole: u64,
    cap: nat,
    left: u32,
    i: int,
)
    requires
        is_top(pids, parts, cap),
        parts.contains_key(left),
        !pids.contains(left),
        0 <= i < pids.len(),
    ensures
        !percent::share(parts[pids[i]] as nat, whole as nat).below(
            percent::share(parts[left] as nat, whole as nat),
        ),
{
    assert(parts[left] <= parts[pids[i]]);
    percent::larger_counts_are_larger_shares(
        parts[left] as nat,
        parts[pids[i]] as nat,
        whole as nat,
    );
}

/// `above` are different processes among `pids`, none with a smaller counter than
/// `pid` has.
pub open spec fn outranks(above: Seq<u32>, pids: Seq<u32>, parts: Map<u32, u64>, pid: u32) -> bool {
    &&& above.no_duplicates()
    &&& forall|i: int|
        0 <= i < above.len() ==> pids.contains(#[trigger] above[i]) && parts.contains_key(above[i])
            && parts[pid] <= parts[above[i]]
}

/// `cap` different processes among `pids` have no smaller counter than `pid` has.
pub open spec fn outranked(pids: Seq<u32>, parts: Map<u32, u64>, cap: nat, pid: u32) -> bool {
    exists|above: Seq<u32>| #[trigger]
        outranks(above, pids, parts, pid) && above.len() == cap
}

/// A top that leaves someone out is full.
proof fn lemma_full(top: Seq<u32>, parts: Map<u32, u64>, cap: nat, pid: u32)
    requires
        is_top(top, parts, cap),
        parts.dom().finite(),
        parts.contains_key(pid),
        !top.contains(pid),
    ensures
        top.len() == cap,
{
    top.unique_seq_to_set();
    let rest = parts.dom().remove(pid);
    assert forall|x: u32| top.to_set().contains(x) implies rest.contains(x) by {
        let i = choose|i: int| 0 <= i < top.len() && top[i] == x;
        assert(parts.contains_key(top[i]));
    }
    vstd::set_lib::lemma_len_subset(top.to_set(), rest);
}

/// A process seen for the first time has no earlier sample to subtract from: it
/// reads no CPU, and no I/O wait at all, until the next tick.
pub proof fn first_sight_is_not_charged(
    prev: metrics::Reading,
    current: metrics::Reading,
    pid: u32,
)
    requires
        !prev.by_pid.contains_key(pid),
    ensures
        current.by_pid.contains_key(pid) ==> metrics::cpu::charges(prev, current).contains_key(pid)
            && metrics::cpu::charges(prev, current)[pid] == 0,
        !metrics::iowait::waits(prev, current).contains_key(pid),
{
}

/// A process that ends between two reads is charged on the read that follows what
/// it ran since the one before; once its entries are deleted it is in no selection
/// any more.
pub proof fn the_departed_are_charged_then_gone(
    cpu: Seq<metrics::Reading>,
    io: Seq<metrics::Reading>,
    pids: Seq<u32>,
    cap: nat,
    pid: u32,
)
    requires
        cpu.len() == 3,
        io.len() == 3,
        cpu[0].by_pid.contains_key(pid),
        cpu[1].by_pid.contains_key(pid),
        cpu[1].elapsed_since(cpu[0]) > 0,
        cpu[0].by_pid[pid] <= cpu[1].by_pid[pid],
        !cpu[2].by_pid.contains_key(pid),
        !io[2].by_pid.contains_key(pid),
        is_selection(
            pids,
            metrics::cpu::charges(cpu[1], cpu[2]),
            metrics::iowait::waits(io[1], io[2]),
            cap,
        ),
    ensures
        metrics::cpu::charges(cpu[0], cpu[1])[pid] == cpu[1].by_pid[pid] - cpu[0].by_pid[pid],
        !pids.contains(pid),
{
    let (x, y) = (metrics::cpu::charges(cpu[1], cpu[2]), metrics::iowait::waits(io[1], io[2]));
    let (a, b) = choose|a: Seq<u32>, b: Seq<u32>| #[trigger]
        merges(pids, a, b) && is_top(a, x, cap) && is_top(b, y, cap);
    if a.contains(pid) {
        let i = choose|i: int| 0 <= i < a.len() && a[i] == pid;
        assert(x.contains_key(a[i]));
    }
    if b.contains(pid) {
        let i = choose|i: int| 0 <= i < b.len() && b[i] == pid;
        assert(y.contains_key(b[i]));
    }
}

/// A history keeps its depth once it has reached it, and ends with the latest
/// sample.
pub proof fn history_keeps_its_depth(history: Seq<Percent>, value: Percent)
    requires
        history.len() <= HISTORY,
    ensures
        capped(history, value).len() == if history.len() < HISTORY {
            history.len() + 1
        } else {
            HISTORY as nat
        },
        capped(history, value).last() == value,
{
}

/// A full history drops its oldest sample and no other; one that is not keeps all.
pub proof fn only_the_oldest_sample_goes(history: Seq<Percent>, value: Percent, i: int)
    requires
        0 <= i < history.len() <= 120,
    ensures
        history.len() < 120 ==> capped(history, value)[i] == history[i],
        history.len() == 120 && i > 0 ==> capped(history, value)[i - 1] == history[i],
        capped(history, value).len() <= 120,
{
}

/// The map is full from its last entry on.
pub proof fn the_last_entry_fills_the_map(accounted: usize, capacity: usize)
    ensures
        is_full(accounted, capacity) <==> !(accounted < capacity),
        is_full(capacity, capacity),
{
}

/// A top takes as many as there is room for, each once, and nobody it leaves out has a
/// higher counter than anybody it takes.
pub proof fn a_top_leaves_out_the_lower(
    pids: Seq<u32>,
    parts: Map<u32, u64>,
    cap: nat,
    taken: u32,
    left: u32,
)
    requires
        is_top(pids, parts, cap),
    ensures
        pids.len() <= cap,
        pids.len() < cap ==> pids.len() == parts.dom().len(),
        pids.no_duplicates(),
        pids.contains(taken) ==> parts.contains_key(taken),
        pids.contains(taken) && parts.contains_key(left) && parts[left] > parts[taken]
            ==> pids.contains(left),
{
    if pids.contains(taken) {
        let i = choose|i: int| 0 <= i < pids.len() && pids[i] == taken;
        assert(parts.contains_key(pids[i]));
    }
}

/// Everyone in a selection has a counter in one metric or the other, and nobody is in it
/// twice.
pub proof fn a_selection_holds_nobody_else(
    pids: Seq<u32>,
    cpu: Map<u32, u64>,
    io: Map<u32, u64>,
    cap: nat,
    pid: u32,
)
    requires
        is_selection(pids, cpu, io, cap),
    ensures
        pids.no_duplicates(),
        pids.len() <= 2 * cap,
        pids.contains(pid) ==> cpu.contains_key(pid) || io.contains_key(pid),
{
    let (a, b) = choose|a: Seq<u32>, b: Seq<u32>| #[trigger]
        merges(pids, a, b) && is_top(a, cpu, cap) && is_top(b, io, cap);
    if a.contains(pid) {
        let i = choose|i: int| 0 <= i < a.len() && a[i] == pid;
        assert(cpu.contains_key(a[i]));
    }
    if b.contains(pid) {
        let i = choose|i: int| 0 <= i < b.len() && b[i] == pid;
        assert(io.contains_key(b[i]));
    }
}

/// What a row shows of a process is a hundred times what its counter grew by, over the
/// interval, but for a part in `2^50`; of a process that was not counted it shows no CPU
/// and no I/O wait at all.
pub proof fn a_row_shows_its_own_counters(
    row: ProcessMetrics,
    pid: u32,
    known: metrics::identity::Known,
    page_size: nat,
    cpu: Deltas,
    io: Deltas,
    lookup: Lookup,
)
    requires
        is_row(row, pid, known, page_size, cpu, io, lookup),
    ensures
        row.pid == pid,
        cpu.parts@.contains_key(pid) && cpu.whole > 0 ==> is_share(
            row.cpu.cpu_percent,
            cpu.parts@[pid],
            cpu.whole,
        ),
        !cpu.parts@.contains_key(pid) || cpu.whole == 0 ==> row.cpu.cpu_percent.value().mant == 0,
        io.parts@.contains_key(pid) <==> row.io is Some,
        io.parts@.contains_key(pid) && io.whole > 0 ==> is_share(
            row.io->0.io_wait_percent,
            io.parts@[pid],
            io.whole,
        ),
        row.mem == metrics::mem::resident(text::content(lookup.statm), page_size),
        row.name@ == known.name(pid, lookup.live),
        text::content(row.user) == known.owner(pid, lookup.live),
{
    if cpu.parts@.contains_key(pid) && cpu.whole > 0 {
        accuracy::a_share_is_what_it_is_of_a_hundred(cpu.parts@[pid] as nat, cpu.whole as nat);
    }
    if io.parts@.contains_key(pid) && io.whole > 0 {
        accuracy::a_share_is_what_it_is_of_a_hundred(io.parts@[pid] as nat, io.whole as nat);
    }
}

/// `shown` is `part` of `whole` in percent, but for a part in `2^50`.
pub open spec fn is_share(shown: Percent, part: u64, whole: u64) -> bool {
    let computed = (accuracy::amount(shown.value()) * whole) as int;
    let exact = (100 * (part as nat) * accuracy::one()) as int;
    -computed <= (exact - computed) * 0x4_0000_0000_0000 <= computed
}

/// The machine's CPU share is what all processes add up to, over the cores: that many
/// times it is the sum, but for a part in `2^53`. Where nobody was counted it is nothing.
pub proof fn the_total_is_shared_among_the_cores(share: Binary, deltas: Deltas, cores: u64)
    requires
        is_average(share, deltas, cores as nat),
        cores > 0,
    ensures
        exists|walk: Seq<(u32, u64)>| #[trigger]
            counters::lists(walk, deltas.parts@) && accuracy::is_near(
                (accuracy::amount(double::whole(cores as nat)) * accuracy::amount(share)) as int,
                (accuracy::amount(percent::summed(walk, deltas.whole as nat))
                    * accuracy::one()) as int,
            ),
{
    let sum = choose|sum: Binary| #[trigger]
        is_sum(sum, deltas) && share == sum.div(double::whole(cores as nat));
    let walk = choose|walk: Seq<(u32, u64)>| #[trigger]
        counters::lists(walk, deltas.parts@) && sum == percent::summed(walk, deltas.whole as nat);
    counters::lemma_few(walk, deltas.parts@);
    percent::lemma_summed_within(walk, deltas.whole as nat);
    double::lemma_whole_within(cores as nat);
    accuracy::a_quotient_is_near(sum, double::whole(cores as nat));
}

/// A tick counts every process that the CPU map holds, not the rows it picks; what it
/// says of CPU comes from the CPU counters and what it says of I/O wait from those, each
/// against its own last reading.
pub proof fn a_tick_measures_both_maps(
    out: Measured,
    cpu: (metrics::Reading, metrics::Reading),
    io: (metrics::Reading, metrics::Reading),
    pid: u32,
)
    requires
        is_measured(out, cpu, io),
    ensures
        out.accounted == cpu.1.by_pid.dom().len(),
        out.cpu.parts@.contains_key(pid) <==> cpu.1.by_pid.contains_key(pid),
        out.io.parts@.contains_key(pid) ==> io.0.by_pid.contains_key(pid) && io.1.by_pid.contains_key(
            pid,
        ),
        cpu.0.at is Some && cpu.1.at is Some && cpu.0.at->0 <= cpu.1.at->0 ==> cpu.0.at->0
            + out.cpu.whole == cpu.1.at->0,
        io.0.at is Some && io.1.at is Some && io.0.at->0 <= io.1.at->0 ==> io.0.at->0
            + out.io.whole == io.1.at->0,
        cpu.0.by_pid.contains_key(pid) && cpu.1.by_pid.contains_key(pid) && cpu.0.by_pid[pid]
            <= cpu.1.by_pid[pid] && out.cpu.whole > 0 ==> cpu.0.by_pid[pid] + out.cpu.parts@[pid]
            == cpu.1.by_pid[pid],
        out.io.parts@.contains_key(pid) && io.0.by_pid[pid] <= io.1.by_pid[pid]
            ==> io.0.by_pid[pid] + out.io.parts@[pid] == io.1.by_pid[pid],
        out.candidates@.no_duplicates(),
        out.candidates@.len() <= 512,
{
    a_selection_holds_nobody_else(
        out.candidates@,
        out.cpu.parts@,
        out.io.parts@,
        MAX_ROWS as nat,
        pid,
    );
}

/// Where no more than 256 processes are counted, every one of them is looked up.
pub proof fn few_processes_are_all_looked_up(
    out: Measured,
    cpu: (metrics::Reading, metrics::Reading),
    io: (metrics::Reading, metrics::Reading),
    pid: u32,
)
    requires
        is_measured(out, cpu, io),
        cpu.1.by_pid.dom().finite(),
        out.io.parts@.dom().finite(),
        out.accounted <= 256,
        cpu.1.by_pid.contains_key(pid),
    ensures
        out.candidates@.contains(pid),
{
    let parts = out.cpu.parts@;
    assert(parts.dom() =~= cpu.1.by_pid.dom());
    let (a, b) = choose|a: Seq<u32>, b: Seq<u32>| #[trigger]
        merges(out.candidates@, a, b) && is_top(a, parts, MAX_ROWS as nat) && is_top(
            b,
            out.io.parts@,
            MAX_ROWS as nat,
        );
    assert(parts.contains_key(pid));
    if !a.contains(pid) {
        lemma_full(a, parts, MAX_ROWS as nat, pid);
        lemma_left_out(a, parts, pid);
    }
}

/// A top that leaves someone out is smaller than what it is a top of.
proof fn lemma_left_out(top: Seq<u32>, parts: Map<u32, u64>, pid: u32)
    requires
        top.no_duplicates(),
        forall|i: int| 0 <= i < top.len() ==> parts.contains_key(#[trigger] top[i]),
        parts.dom().finite(),
        parts.contains_key(pid),
        !top.contains(pid),
    ensures
        top.len() < parts.dom().len(),
{
    top.unique_seq_to_set();
    let rest = parts.dom().remove(pid);
    assert forall|x: u32| top.to_set().contains(x) implies rest.contains(x) by {
        let i = choose|i: int| 0 <= i < top.len() && top[i] == x;
        assert(parts.contains_key(top[i]));
    }
    vstd::set_lib::lemma_len_subset(top.to_set(), rest);
}

/// A snapshot has one row for every process that was looked up, in that order; each
/// history ends with the total of its own metric; and it counts all processes, not the
/// rows.
pub proof fn a_snapshot_ends_its_histories(
    out: SystemState,
    measured: Measured,
    cpu_history: Seq<Percent>,
    io_history: Seq<Percent>,
    cores: nat,
)
    requires
        is_snapshot(out, measured, cpu_history, io_history, cores),
    ensures
        out.cpu_history@.last() == out.total_cpu_percent,
        out.io_history@.last() == out.total_io_percent,
        out.accounted == measured.accounted,
        out.processes@.map_values(|row: ProcessMetrics| row.pid) == measured.candidates@,
        cpu_history.len() > 0 && cpu_history.len() < 120 ==> out.cpu_history@.first()
            == cpu_history.first(),
        io_history.len() > 0 && io_history.len() < 120 ==> out.io_history@.first()
            == io_history.first(),
{
    assert(out.processes@.map_values(|row: ProcessMetrics| row.pid) =~= measured.candidates@);
}

/// A headless tick says which of how many it is, and how many processes it counted.
pub proof fn a_headless_tick_says_its_numbers(i: nat, ticks: nat, accounted: nat)
    ensures
        text::begins(tick_line(i, ticks, accounted), "tick "@ + text::decimal(i) + "/"@),
        text::occurs(tick_line(i, ticks, accounted), "/"@ + text::decimal(ticks) + ": "@),
        text::occurs(tick_line(i, ticks, accounted), text::decimal(accounted) + " processes"@),
{
    let (a, b, c) = (text::decimal(i), text::decimal(ticks), text::decimal(accounted));
    let line = tick_line(i, ticks, accounted);
    let none = Seq::<char>::empty();
    let front = "tick "@ + a + "/"@;
    text::a_text_begins_with_its_front(front, b + ": "@ + c + " processes"@, front);
    assert(line =~= front + (b + ": "@ + c + " processes"@));
    text::what_is_put_in_is_found("tick "@ + a, "/"@ + b + ": "@, c + " processes"@);
    assert(line =~= "tick "@ + a + ("/"@ + b + ": "@) + (c + " processes"@));
    text::what_is_put_in_is_found(front + b + ": "@, c + " processes"@, none);
    assert(line =~= front + b + ": "@ + (c + " processes"@) + none);
}

/// A fresh collector shares the load among the CPUs that are online, not those that are
/// possible; it has no baseline, so its first tick charges nobody, and its charts span
/// their panel, at nothing, from the first frame.
pub proof fn a_fresh_collector_charges_nobody(
    collector: Collector,
    cpus: CpuCounts,
    capacity: u32,
    memory_total_bytes: u64,
    current: metrics::Reading,
    pid: u32,
    i: int,
)
    requires
        is_fresh(collector, cpus, capacity, memory_total_bytes),
        0 <= i < 120,
    ensures
        collector.online_cpus == cpus.online,
        collector.capacity == capacity,
        collector.memory_total_bytes == memory_total_bytes,
        current.by_pid.contains_key(pid) ==> metrics::cpu::charges(
            collector.cpu.prev@,
            current,
        )[pid] == 0,
        !metrics::iowait::waits(collector.iowait.prev@, current).contains_key(pid),
        collector.cpu_history@.len() == 120 && collector.io_history@.len() == 120,
        collector.cpu_history@[i].value().mant == 0 && !collector.cpu_history@[i].minus(),
        collector.io_history@[i].value().mant == 0 && !collector.io_history@[i].minus(),
{
}

} // verus!
