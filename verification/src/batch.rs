//! Draining a per-CPU `u32 → u64` kernel map in batches: what each reply of the
//! kernel means, and the sum it leaves for every key. `BPF_MAP_LOOKUP_BATCH` reads
//! such a map in O(1) syscalls instead of one lookup per key; making the call is
//! left to the binary, which hands the reply back here.

use std::collections::HashMap;

use vstd::prelude::*;

verus! {

broadcast use vstd::std_specs::hash::group_hash_axioms;

/// Entries per `BPF_MAP_LOOKUP_BATCH` call.
pub const BATCH: usize = 4096;

/// The error that ends a walk: no such entry.
pub const ENOENT: i32 = 2;

// ── Summing ──────────────────────────────────────────────────────────────────

/// `s` added up.
pub open spec fn sum_of(s: Seq<u64>) -> nat
    decreases s.len(),
{
    if s.len() == 0 {
        0
    } else {
        sum_of(s.drop_last()) + s.last() as nat
    }
}

/// The slots of the `i`th key: `nr_cpus` of them, one row after the other.
pub open spec fn row(values: Seq<u64>, i: int, nr_cpus: nat) -> Seq<u64> {
    values.subrange(i * nr_cpus, (i + 1) * nr_cpus)
}

/// The first `count` rows lie within `values` and each adds up to a 64-bit sum.
pub open spec fn summable(values: Seq<u64>, count: nat, nr_cpus: nat) -> bool {
    &&& count * nr_cpus <= values.len()
    &&& forall|i: int| 0 <= i < count ==> sum_of(#[trigger] row(values, i, nr_cpus)) <= u64::MAX
}

/// `totals` with the sums of the first `count` keys put in, in order.
pub open spec fn folded(
    totals: Map<u32, u64>,
    keys: Seq<u32>,
    values: Seq<u64>,
    count: nat,
    nr_cpus: nat,
) -> Map<u32, u64>
    decreases count,
{
    if count == 0 {
        totals
    } else {
        folded(totals, keys, values, (count - 1) as nat, nr_cpus).insert(
            keys[count - 1],
            sum_of(row(values, count - 1, nr_cpus)) as u64,
        )
    }
}

/// Adding more never makes a sum smaller.
pub proof fn lemma_sum_grows(s: Seq<u64>, n: int)
    requires
        0 <= n <= s.len(),
    ensures
        sum_of(s.take(n)) <= sum_of(s),
    decreases s.len() - n,
{
    if n < s.len() {
        assert(s.drop_last().take(n) == s.take(n));
        lemma_sum_grows(s.drop_last(), n);
    } else {
        assert(s.take(n) == s);
    }
}

/// The `i`th of `count` rows lies within `values`.
proof fn lemma_row(len: nat, i: nat, count: nat, nr_cpus: nat)
    requires
        i < count,
        count * nr_cpus <= len,
    ensures
        0 <= i * nr_cpus <= (i + 1) * nr_cpus <= len,
        (i + 1) * nr_cpus == i * nr_cpus + nr_cpus,
{
    assert((i + 1) * nr_cpus <= count * nr_cpus) by (nonlinear_arith)
        requires
            i + 1 <= count,
    ;
    assert((i + 1) * nr_cpus == i * nr_cpus + nr_cpus) by (nonlinear_arith);
}

/// Sum each key's per-CPU slots into `totals`. `values` is row-major: `nr_cpus`
/// contiguous slots per key; only the first `count` keys are live.
pub fn fold(
    keys: &[u32],
    values: &[u64],
    count: usize,
    nr_cpus: usize,
    totals: &mut HashMap<u32, u64>,
)
    requires
        count <= keys@.len(),
        summable(values@, count as nat, nr_cpus as nat),
    ensures
        final(totals)@ == folded(old(totals)@, keys@, values@, count as nat, nr_cpus as nat),
{
    let ghost before = totals@;
    let len = values.len();
    for i in 0..count
        invariant
            len == values@.len(),
            count <= keys@.len(),
            summable(values@, count as nat, nr_cpus as nat),
            totals@ == folded(before, keys@, values@, i as nat, nr_cpus as nat),
    {
        proof {
            lemma_row(values@.len(), i as nat, count as nat, nr_cpus as nat);
        }
        let ghost slots = row(values@, i as int, nr_cpus as nat);
        let start: usize = i * nr_cpus;
        let mut sum: u64 = 0;
        assert(sum_of(slots) <= u64::MAX);
        for j in 0..nr_cpus
            invariant
                start == i * nr_cpus,
                len == values@.len(),
                start + nr_cpus <= len,
                slots == values@.subrange(start as int, start + nr_cpus),
                slots.len() == nr_cpus,
                sum_of(slots) <= u64::MAX,
                sum == sum_of(slots.take(j as int)),
        {
            assert(slots.take(j + 1).drop_last() == slots.take(j as int));
            assert(slots.take(j + 1).last() == values@[start + j]);
            proof {
                lemma_sum_grows(slots, j + 1);
            }
            sum = sum + values[start + j];
        }
        assert(slots.take(nr_cpus as int) == slots);
        totals.insert(keys[i], sum);
    }
}

/// Whether the first `count` rows of `values` lie within it and each adds up to a
/// 64-bit sum.
pub fn can_fold(values: &[u64], count: usize, nr_cpus: usize) -> (r: bool)
    ensures
        r == summable(values@, count as nat, nr_cpus as nat),
{
    let len = values.len();
    match count.checked_mul(nr_cpus) {
        Some(used) => if used > len {
            return false;
        },
        None => return false,
    }
    for i in 0..count
        invariant
            len == values@.len(),
            count * nr_cpus <= len,
            forall|k: int|
                0 <= k < i ==> sum_of(#[trigger] row(values@, k, nr_cpus as nat)) <= u64::MAX,
    {
        proof {
            lemma_row(values@.len(), i as nat, count as nat, nr_cpus as nat);
        }
        let ghost slots = row(values@, i as int, nr_cpus as nat);
        let start: usize = i * nr_cpus;
        let mut sum: u64 = 0;
        for j in 0..nr_cpus
            invariant
                start == i * nr_cpus,
                i < count,
                len == values@.len(),
                start + nr_cpus <= len,
                slots == row(values@, i as int, nr_cpus as nat),
                slots == values@.subrange(start as int, start + nr_cpus),
                slots.len() == nr_cpus,
                sum == sum_of(slots.take(j as int)),
        {
            assert(slots.take(j + 1).drop_last() == slots.take(j as int));
            assert(slots.take(j + 1).last() == values@[start + j]);
            match sum.checked_add(values[start + j]) {
                Some(next) => sum = next,
                None => {
                    proof {
                        lemma_sum_grows(slots, j + 1);
                    }
                    return false;
                },
            }
        }
        assert(slots.take(nr_cpus as int) == slots);
    }
    true
}

// ── Walking ──────────────────────────────────────────────────────────────────

/// What the kernel made of one batch call: its return value, the error it left
/// where that is not zero, and the entries it says it wrote.
#[derive(Clone, Copy, Debug, PartialEq, Eq, Structural)]
pub struct Reply {
    pub ret: i64,
    pub errno: Option<i32>,
    pub count: u32,
}

impl Reply {
    /// The entries written, and whether the map is exhausted; `None` where the
    /// call failed.
    pub open spec fn meaning(self) -> Option<(nat, bool)> {
        if self.ret == 0 {
            Some((self.count as nat, false))
        } else if self.errno == Some(ENOENT) {
            Some((self.count as nat, true))
        } else {
            None
        }
    }

    /// The walk goes on.
    pub open spec fn goes_on(self) -> bool {
        self.meaning() matches Some((count, exhausted)) && !exhausted && count > 0
    }
}

/// One batch call: the entries written, and whether the kernel reported the
/// map exhausted. `None` if the call failed, leaving the buffers meaningless.
///
/// A short batch is *not* exhaustion. The kernel copies whole buckets and
/// stops when the next one will not fit the buffer, leaving the cursor on it;
/// only `ENOENT` ends the walk, and that tail still carries entries.
pub fn next_batch(reply: Reply) -> (out: Option<(usize, bool)>)
    ensures
        match reply.meaning() {
            Some((count, exhausted)) => out matches Some((n, end)) && n == count && end
                == exhausted,
            None => out is None,
        },
{
    if reply.ret == 0 {
        return Some((reply.count as usize, false));
    }
    match reply.errno {
        Some(code) => if code == ENOENT {
            Some((reply.count as usize, true))
        } else {
            None
        },
        None => None,
    }
}

/// Reusable scratch, so draining the maps costs no allocation per tick. The
/// kernel writes keys and values into it, the values one slot per possible CPU.
#[derive(Debug)]
pub struct BatchReader {
    pub nr_cpus: usize,
    pub keys: Vec<u32>,
    pub values: Vec<u64>,
}

impl BatchReader {
    /// The scratch has the room one batch takes.
    pub open spec fn roomy(self) -> bool {
        &&& self.keys@.len() == BATCH
        &&& self.values@.len() == BATCH * self.nr_cpus
    }

    /// `nr_cpus` must be the *possible* CPU count (`CpuCounts::possible`): the
    /// kernel writes one value slot per possible CPU per key.
    pub fn new(nr_cpus: usize) -> (out: BatchReader)
        requires
            BATCH * nr_cpus * 8 <= isize::MAX,
        ensures
            out.roomy(),
            out.nr_cpus == nr_cpus,
            out.keys@ == Seq::new(BATCH as nat, |i: int| 0u32),
            out.values@ == Seq::new((BATCH * nr_cpus) as nat, |i: int| 0u64),
    {
        BatchReader { nr_cpus, keys: vec![0; BATCH], values: vec![0; BATCH * nr_cpus] }
    }

    /// The kernel's reply, with what it wrote into the scratch, can be summed: it
    /// does not claim more entries than were asked for.
    pub open spec fn readable(self, reply: Reply) -> bool {
        match reply.meaning() {
            Some((count, _)) => count <= BATCH && summable(
                self.values@,
                count,
                self.nr_cpus as nat,
            ),
            None => true,
        }
    }

    /// Whether the kernel's reply can be summed.
    pub fn can_read(&self, reply: Reply) -> (r: bool)
        ensures
            r == self.readable(reply),
    {
        match next_batch(reply) {
            Some((count, _)) => count <= BATCH && can_fold(
                self.values.as_slice(),
                count,
                self.nr_cpus,
            ),
            None => true,
        }
    }

    /// Put what one batch call wrote into `totals`, and say whether to make the
    /// next. Repeated until it says no, this reads every entry, summing each key's
    /// per-CPU slots into `tgid → ns`.
    pub fn sum_per_cpu(&self, reply: Reply, totals: &mut HashMap<u32, u64>) -> (more: bool)
        requires
            self.roomy(),
            self.readable(reply),
        ensures
            match reply.meaning() {
                Some((count, exhausted)) => {
                    &&& final(totals)@ == folded(
                        old(totals)@,
                        self.keys@,
                        self.values@,
                        count,
                        self.nr_cpus as nat,
                    )
                    &&& more == (!exhausted && count > 0)
                },
                None => final(totals)@ == old(totals)@ && !more,
            },
            more == reply.goes_on(),
    {
        match next_batch(reply) {
            Some((count, exhausted)) => {
                fold(self.keys.as_slice(), self.values.as_slice(), count, self.nr_cpus, totals);
                // A zero-entry batch that is not the tail would spin.
                !(exhausted || count == 0)
            },
            None => false,
        }
    }
}

// ── Laws ─────────────────────────────────────────────────────────────────────

/// Every live key ends up with the sum of its own slots; of a key that occurs twice
/// the later sum stays.
pub proof fn each_key_gets_its_row(
    totals: Map<u32, u64>,
    keys: Seq<u32>,
    values: Seq<u64>,
    count: nat,
    nr_cpus: nat,
    i: int,
)
    requires
        0 <= i < count,
        forall|j: int| i < j < count ==> keys[j] != keys[i],
    ensures
        folded(totals, keys, values, count, nr_cpus).contains_key(keys[i]),
        folded(totals, keys, values, count, nr_cpus)[keys[i]] == sum_of(
            row(values, i, nr_cpus),
        ) as u64,
    decreases count,
{
    if i < count - 1 {
        each_key_gets_its_row(totals, keys, values, (count - 1) as nat, nr_cpus, i);
    }
}

/// A key that is not among the live ones keeps what it had, whatever stale slots
/// lie beyond them.
pub proof fn other_keys_are_left_alone(
    totals: Map<u32, u64>,
    keys: Seq<u32>,
    values: Seq<u64>,
    count: nat,
    nr_cpus: nat,
    key: u32,
)
    requires
        forall|j: int| 0 <= j < count ==> keys[j] != key,
    ensures
        folded(totals, keys, values, count, nr_cpus).contains_key(key) == totals.contains_key(key),
        totals.contains_key(key) ==> folded(totals, keys, values, count, nr_cpus)[key]
            == totals[key],
    decreases count,
{
    if count > 0 {
        other_keys_are_left_alone(totals, keys, values, (count - 1) as nat, nr_cpus, key);
    }
}

/// One batch of a walk: the kernel's reply, and what it left in the scratch.
pub ghost struct Batch {
    pub reply: Reply,
    pub keys: Seq<u32>,
    pub values: Seq<u64>,
}

impl Batch {
    /// The live entries.
    pub open spec fn count(self) -> nat {
        match self.reply.meaning() {
            Some((count, _)) => count,
            None => 0,
        }
    }

    /// `key` is among the live entries from the `from`th on.
    pub open spec fn holds(self, key: u32, from: int) -> bool {
        exists|i: int| from <= i < self.count() && #[trigger] self.keys[i] == key
    }
}

/// What a walk over `batches` leaves.
pub open spec fn walked(batches: Seq<Batch>, nr_cpus: nat) -> Map<u32, u64>
    decreases batches.len(),
{
    if batches.len() == 0 {
        Map::empty()
    } else {
        let last = batches.last();
        folded(walked(batches.drop_last(), nr_cpus), last.keys, last.values, last.count(), nr_cpus)
    }
}

/// A walk finds every entry of every batch: the `i`th key of the `b`th has the sum of
/// its slots, unless the key came again later.
pub proof fn a_walk_finds_every_entry(batches: Seq<Batch>, nr_cpus: nat, b: int, i: int)
    requires
        0 <= b < batches.len(),
        0 <= i < batches[b].count(),
        !batches[b].holds(batches[b].keys[i], i + 1),
        forall|c: int| b < c < batches.len() ==> !(#[trigger] batches[c]).holds(
            batches[b].keys[i],
            0,
        ),
    ensures
        walked(batches, nr_cpus).contains_key(batches[b].keys[i]),
        walked(batches, nr_cpus)[batches[b].keys[i]] == sum_of(
            row(batches[b].values, i, nr_cpus),
        ) as u64,
    decreases batches.len(),
{
    let (last, before) = (batches.last(), batches.drop_last());
    let key = batches[b].keys[i];
    if b == batches.len() - 1 {
        each_key_gets_its_row(
            walked(before, nr_cpus),
            last.keys,
            last.values,
            last.count(),
            nr_cpus,
            i,
        );
    } else {
        assert(before[b] == batches[b]);
        assert forall|c: int| b < c < before.len() implies !(#[trigger] before[c]).holds(key, 0) by {
            assert(before[c] == batches[c]);
        }
        a_walk_finds_every_entry(before, nr_cpus, b, i);
        assert(!batches[batches.len() - 1].holds(key, 0));
        other_keys_are_left_alone(
            walked(before, nr_cpus),
            last.keys,
            last.values,
            last.count(),
            nr_cpus,
            key,
        );
    }
}

/// A walk makes no entry up: a key no batch holds is not found.
pub proof fn a_walk_finds_nothing_else(batches: Seq<Batch>, nr_cpus: nat, key: u32)
    requires
        forall|c: int| 0 <= c < batches.len() ==> !(#[trigger] batches[c]).holds(key, 0),
    ensures
        !walked(batches, nr_cpus).contains_key(key),
    decreases batches.len(),
{
    if batches.len() > 0 {
        let (last, before) = (batches.last(), batches.drop_last());
        assert forall|c: int| 0 <= c < before.len() implies !(#[trigger] before[c]).holds(key, 0) by {
            assert(before[c] == batches[c]);
        }
        a_walk_finds_nothing_else(before, nr_cpus, key);
        assert(!batches[batches.len() - 1].holds(key, 0));
        other_keys_are_left_alone(
            walked(before, nr_cpus),
            last.keys,
            last.values,
            last.count(),
            nr_cpus,
            key,
        );
    }
}

/// A sum is all of its terms: nothing adds up to nothing, one term to itself, and two
/// lists one after the other to what both add up to.
pub proof fn sums_add_up(a: Seq<u64>, b: Seq<u64>, term: u64)
    ensures
        sum_of(Seq::<u64>::empty()) == 0,
        sum_of(seq![term]) == term,
        sum_of(a + b) == sum_of(a) + sum_of(b),
    decreases b.len(),
{
    assert(seq![term].drop_last() =~= Seq::<u64>::empty());
    reveal_with_fuel(sum_of, 2);
    if b.len() > 0 {
        assert((a + b).drop_last() =~= a + b.drop_last());
        sums_add_up(a, b.drop_last(), term);
    } else {
        assert(a + b =~= a);
    }
}

/// A key's row holds one slot for every CPU, and no slot of another key.
pub proof fn a_row_is_one_slot_per_cpu(values: Seq<u64>, i: int, nr_cpus: nat, cpu: int)
    requires
        0 <= i,
        0 <= cpu < nr_cpus,
        (i + 1) * nr_cpus <= values.len(),
    ensures
        row(values, i, nr_cpus).len() == nr_cpus,
        row(values, i, nr_cpus)[cpu] == values[i * nr_cpus + cpu],
{
    assert((i + 1) * nr_cpus == i * nr_cpus + nr_cpus) by (nonlinear_arith);
    assert(0 <= i * nr_cpus) by (nonlinear_arith)
        requires
            0 <= i,
            0 <= nr_cpus,
    ;
}

/// A call that succeeded wrote its entries and leaves more to come, as long as it wrote
/// any; one that found no further entry wrote its last ones; any other failure wrote
/// nothing. Only the first lets the walk go on.
pub proof fn only_no_such_entry_is_the_end(reply: Reply)
    ensures
        reply.ret == 0 ==> reply.meaning() == Some((reply.count as nat, false)),
        reply.ret != 0 && reply.errno == Some(2i32) ==> reply.meaning() == Some(
            (reply.count as nat, true),
        ),
        reply.ret != 0 && reply.errno != Some(2i32) ==> reply.meaning() is None,
        reply.goes_on() <==> reply.ret == 0 && reply.count > 0,
{
}

/// A reply can be summed where the call failed, or where it claims no more entries than
/// were asked for, 4096, and the slots of each add up to a 64-bit sum.
pub proof fn a_reply_can_be_summed_where_its_sums_fit(reader: BatchReader, reply: Reply)
    requires
        reader.roomy(),
    ensures
        reader.keys@.len() == 4096,
        reader.values@.len() == 4096 * reader.nr_cpus,
        reply.ret != 0 && reply.errno != Some(2i32) ==> reader.readable(reply),
        reply.ret == 0 || reply.errno == Some(2i32) ==> (reader.readable(reply) <==> reply.count
            <= 4096 && forall|i: int|
            0 <= i < reply.count ==> sum_of(
                #[trigger] row(reader.values@, i, reader.nr_cpus as nat),
            ) <= u64::MAX),
{
    let (n, c) = (reply.count as nat, reader.nr_cpus as nat);
    if n <= 4096 {
        assert(n * c <= 4096 * c) by (nonlinear_arith)
            requires
                n <= 4096,
        ;
    }
}

} // verus!
