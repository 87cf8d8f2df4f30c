//! Collection-cost models for the `scaling` benchmark.

use vstd::prelude::*;

use crate::batch;
use crate::text;

verus! {

/// Per-CPU on-CPU nanosecond slots for one pid, as a batched map read yields it.
pub type PerCpuSample = Vec<u64>;

// ── eBPF ─────────────────────────────────────────────────────────────────────

/// All slots of all samples added up.
pub open spec fn sum_samples(samples: Seq<(u32, PerCpuSample)>) -> nat
    decreases samples.len(),
{
    if samples.len() == 0 {
        0
    } else {
        sum_samples(samples.drop_last()) + batch::sum_of(samples.last().1@)
    }
}

proof fn lemma_samples_grow(samples: Seq<(u32, PerCpuSample)>, n: int)
    requires
        0 <= n <= samples.len(),
    ensures
        sum_samples(samples.take(n)) <= sum_samples(samples),
    decreases samples.len() - n,
{
    if n < samples.len() {
        assert(samples.drop_last().take(n) == samples.take(n));
        lemma_samples_grow(samples.drop_last(), n);
    } else {
        assert(samples.take(n) == samples);
    }
}

/// eBPF path: sum the per-CPU slots already pulled in one batched read - zero
/// per-process syscalls.
pub fn collect_batched(samples: &[(u32, PerCpuSample)]) -> (out: u64)
    requires
        sum_samples(samples@) <= u64::MAX,
    ensures
        out == sum_samples(samples@),
{
    let mut total: u64 = 0;
    for i in 0..samples.len()
        invariant
            sum_samples(samples@) <= u64::MAX,
            total == sum_samples(samples@.take(i as int)),
    {
        assert(samples@.take(i + 1).drop_last() == samples@.take(i as int));
        proof {
            lemma_samples_grow(samples@, i + 1);
        }
        let slots = &samples[i].1;
        let mut sum: u64 = 0;
        assert(slots@.take(slots@.len() as int) == slots@);
        for j in 0..slots.len()
            invariant
                sum == batch::sum_of(slots@.take(j as int)),
                batch::sum_of(slots@) <= u64::MAX,
        {
            assert(slots@.take(j + 1).drop_last() == slots@.take(j as int));
            proof {
                batch::lemma_sum_grows(slots@, j + 1);
            }
            sum = sum + slots[j];
        }
        total = total + sum;
    }
    assert(samples@.take(samples@.len() as int) == samples@);
    total
}

// ── procfs ───────────────────────────────────────────────────────────────────

/// What follows the last `c` in `s`; all of it where there is none.
pub open spec fn after_last(s: Seq<char>, c: char) -> Seq<char>
    decreases s.len(),
{
    if s.len() == 0 || s.last() == c {
        seq![]
    } else {
        after_last(s.drop_last(), c).push(s.last())
    }
}

/// The number the `n`th word of `s` writes; 0 where it writes none.
pub open spec fn word_number(s: Seq<char>, n: nat) -> nat {
    match text::nth_word(s, n) {
        Some(word) => match text::parsed(word, u64::MAX as nat) {
            Some(number) => number,
            None => 0,
        },
        None => 0,
    }
}

/// The CPU ticks a `/proc/<pid>/stat` states: user and system time, the 12th and
/// 13th words after the name, which may itself hold spaces and parentheses.
pub open spec fn stated_ticks(stat: Seq<char>) -> nat {
    let fields = after_last(stat, ')');
    word_number(fields, 11) + word_number(fields, 12)
}

/// What stands in for a file that could not be read.
pub open spec fn or_empty(stat: Option<Seq<char>>) -> Seq<char> {
    match stat {
        Some(stat) => stat,
        None => seq![],
    }
}

fn number_at(fields: &Vec<char>, n: usize) -> (out: u64)
    ensures
        out == word_number(fields@, n as nat),
{
    match text::word_at(fields, n) {
        Some(word) => match text::parse_number(&word, u64::MAX) {
            Some(number) => number,
            None => 0,
        },
        None => 0,
    }
}

/// What follows the name in a `/proc/<pid>/stat`; nothing where it could not be
/// read.
fn fields_of(stat: &Option<String>) -> (out: Vec<char>)
    ensures
        out@ == after_last(or_empty(text::content(*stat)), ')'),
{
    let chars = match stat {
        Some(stat) => text::to_chars(stat.as_str()),
        None => Vec::new(),
    };
    let ghost all = or_empty(text::content(*stat));
    assert(chars@ == all);
    let mut from: usize = chars.len();
    assert(all.take(from as int) == all);
    assert(all.skip(from as int) == Seq::<char>::empty());
    while from > 0 && chars[from - 1] != ')'
        invariant
            chars@ == all,
            from <= chars.len(),
            after_last(all, ')') == after_last(all.take(from as int), ')') + all.skip(
                from as int,
            ),
        decreases from,
    {
        let ghost head = all.take(from as int);
        assert(head.drop_last() == all.take(from - 1));
        assert(head.last() == all[from - 1]);
        assert(after_last(head.drop_last(), ')').push(head.last()) + all.skip(from as int)
            == after_last(head.drop_last(), ')') + all.skip(from - 1));
        from -= 1;
    }
    let fields = text::part(&chars, from, chars.len());
    assert(fields@ == after_last(all, ')')) by {
        assert(after_last(all.take(from as int), ')') == Seq::<char>::empty()) by {
            if from > 0 {
                assert(all.take(from as int).last() == all[from - 1]);
            }
        }
        assert(fields@ == all.skip(from as int));
    }
    fields
}

/// The CPU ticks a `/proc/<pid>/stat` states; none where it could not be read.
pub fn read_self_cpu_ns(stat: &Option<String>) -> (out: u64)
    requires
        stated_ticks(or_empty(text::content(*stat))) <= u64::MAX,
    ensures
        out == stated_ticks(or_empty(text::content(*stat))),
{
    let fields = fields_of(stat);
    number_at(&fields, 11) + number_at(&fields, 12)
}

/// The ticks of all of `stats` added up.
pub open spec fn sum_ticks(stats: Seq<Option<String>>) -> nat
    decreases stats.len(),
{
    if stats.len() == 0 {
        0
    } else {
        sum_ticks(stats.drop_last()) + stated_ticks(or_empty(text::content(stats.last())))
    }
}

proof fn lemma_ticks_grow(stats: Seq<Option<String>>, n: int)
    requires
        0 <= n <= stats.len(),
    ensures
        sum_ticks(stats.take(n)) <= sum_ticks(stats),
    decreases stats.len() - n,
{
    if n < stats.len() {
        assert(stats.drop_last().take(n) == stats.take(n));
        lemma_ticks_grow(stats.drop_last(), n);
    } else {
        assert(stats.take(n) == stats);
    }
}

/// Whether the ticks of all of `stats` add up to a 64-bit count.
pub fn can_collect(stats: &Vec<Option<String>>) -> (r: bool)
    ensures
        r == (sum_ticks(stats@) <= u64::MAX),
{
    let mut total: u64 = 0;
    for i in 0..stats.len()
        invariant
            total == sum_ticks(stats@.take(i as int)),
    {
        assert(stats@.take(i + 1).drop_last() == stats@.take(i as int));
        proof {
            lemma_ticks_grow(stats@, i + 1);
        }
        let fields = fields_of(&stats[i]);
        let ticks: u128 = number_at(&fields, 11) as u128 + number_at(&fields, 12) as u128;
        if ticks > u64::MAX as u128 || ticks as u64 > u64::MAX - total {
            return false;
        }
        total = total + ticks as u64;
    }
    assert(stats@.take(stats@.len() as int) == stats@);
    true
}

/// procfs path: parse one `/proc/<pid>/stat` per process - O(N) syscalls to read
/// them.
pub fn collect_procfs(stats: &Vec<Option<String>>) -> (out: u64)
    requires
        sum_ticks(stats@) <= u64::MAX,
    ensures
        out == sum_ticks(stats@),
{
    let mut total: u64 = 0;
    for i in 0..stats.len()
        invariant
            sum_ticks(stats@) <= u64::MAX,
            total == sum_ticks(stats@.take(i as int)),
    {
        assert(stats@.take(i + 1).drop_last() == stats@.take(i as int));
        proof {
            lemma_ticks_grow(stats@, i + 1);
        }
        total = total + read_self_cpu_ns(&stats[i]);
    }
    assert(stats@.take(stats@.len() as int) == stats@);
    total
}

/// Where a fork left its caller.
#[derive(Clone, Copy, Debug, PartialEq, Eq, Structural)]
pub enum Forked {
    /// In the child, which naps so that it is scheduled before it exits.
    Child,
    /// Nowhere: a limit was hit. Back off briefly and retry.
    Refused,
    /// In the parent, with a child to wait for.
    Parent(i32),
}

/// Where a fork that returned `pid` left its caller.
pub open spec fn landed(pid: i32) -> Forked {
    if pid == 0 {
        Forked::Child
    } else if pid == -1 {
        Forked::Refused
    } else {
        Forked::Parent(pid)
    }
}

/// Where a fork that returned `pid` left its caller.
pub fn after_fork(pid: i32) -> (out: Forked)
    ensures
        out == if pid == 0 {
            Forked::Child
        } else if pid == -1 {
            Forked::Refused
        } else {
            Forked::Parent(pid)
        },
        out == landed(pid),
{
    if pid == 0 {
        Forked::Child
    } else if pid == -1 {
        Forked::Refused
    } else {
        Forked::Parent(pid)
    }
}

/// The count a benchmark's first argument asks for, or `otherwise`.
pub open spec fn counted(argument: Option<Seq<char>>, otherwise: nat) -> nat {
    match argument {
        Some(argument) => match text::parsed(argument, usize::MAX as nat) {
            Some(n) => n,
            None => otherwise,
        },
        None => otherwise,
    }
}

/// The count a benchmark's first argument asks for, or `otherwise`.
pub fn count_argument(argument: &Option<String>, otherwise: usize) -> (out: usize)
    ensures
        out == match argument {
            Some(argument) => match text::parsed(argument@, usize::MAX as nat) {
                Some(n) => n,
                None => otherwise as nat,
            },
            None => otherwise as nat,
        },
        out == counted(text::content(*argument), otherwise as nat),
{
    match argument {
        Some(argument) => match text::parse_number(
            &text::to_chars(argument.as_str()),
            usize::MAX as u64,
        ) {
            Some(n) => n as usize,
            None => otherwise,
        },
        None => otherwise,
    }
}

// ── Laws ─────────────────────────────────────────────────────────────────────

/// Every slot of every sample is counted once: of nothing there is nothing, and each
/// sample more adds what its own slots add up to.
pub proof fn every_sample_is_added(samples: Seq<(u32, PerCpuSample)>, sample: (u32, PerCpuSample))
    ensures
        sum_samples(Seq::empty()) == 0,
        sum_samples(samples.push(sample)) == sum_samples(samples) + batch::sum_of(sample.1@),
{
    assert(samples.push(sample).drop_last() =~= samples);
}

/// Every file is counted once, and one that could not be read counts nothing.
pub proof fn every_file_is_added(stats: Seq<Option<String>>, stat: Option<String>)
    ensures
        sum_ticks(Seq::empty()) == 0,
        stat matches Some(content) ==> sum_ticks(stats.push(stat)) == sum_ticks(stats)
            + stated_ticks(content@),
        stat is None ==> sum_ticks(stats.push(stat)) == sum_ticks(stats),
{
    assert(stats.push(stat).drop_last() =~= stats);
    if stat is None {
        let none = Seq::<char>::empty();
        assert(after_last(none, ')') == none);
        text::only_the_gaps_are_trimmed(none, none, none);
        assert(text::trim_start(none) == none);
        assert(text::words(none) == Seq::<Seq<char>>::empty());
    }
}

/// What follows the last parenthesis is taken, whatever the name before it holds -
/// parentheses too.
pub proof fn the_name_may_hold_anything(name: Seq<char>, fields: Seq<char>)
    requires
        text::lacks(fields, ')'),
    ensures
        after_last(name + seq![')'] + fields, ')') == fields,
    decreases fields.len(),
{
    let all = name + seq![')'] + fields;
    if fields.len() > 0 {
        let fewer = fields.drop_last();
        assert(all.drop_last() =~= name + seq![')'] + fewer);
        assert(all.last() == fields.last());
        assert(fields[fields.len() - 1] != ')');
        assert forall|i: int| 0 <= i < fewer.len() implies #[trigger] fewer[i] != ')' by {
            assert(fewer[i] == fields[i]);
        }
        the_name_may_hold_anything(name, fewer);
        assert(fewer.push(fields.last()) =~= fields);
    } else {
        assert(all.last() == ')');
        assert(after_last(all, ')') =~= fields);
    }
}

/// The ticks of a process are its user and its system time: the twelfth and the
/// thirteenth word behind its name.
pub proof fn ticks_are_user_and_system_time(
    name: Seq<char>,
    fields: Seq<char>,
    user: u64,
    system: u64,
)
    requires
        text::lacks(fields, ')'),
        text::words(fields).len() > 12,
        text::words(fields)[11] == text::decimal(user as nat),
        text::words(fields)[12] == text::decimal(system as nat),
    ensures
        stated_ticks(name + seq![')'] + fields) == user + system,
{
    the_name_may_hold_anything(name, fields);
    text::decimal_reads_back(user as nat, u64::MAX as nat);
    text::decimal_reads_back(system as nat, u64::MAX as nat);
}

/// A fork returns twice: zero to the child, and the child to its parent; it is refused
/// exactly where it returns minus one.
pub proof fn a_fork_returns_twice(pid: i32)
    ensures
        landed(pid) == Forked::Child <==> pid == 0,
        landed(pid) == Forked::Refused <==> pid == -1,
        landed(pid) matches Forked::Parent(child) ==> child == pid,
{
}

/// A count that is given is taken, and where none is, the other.
pub proof fn a_count_reads_back(n: usize, otherwise: nat, argument: Seq<char>)
    ensures
        counted(Some(text::decimal(n as nat)), otherwise) == n,
        counted(None, otherwise) == otherwise,
        text::parsed(argument, usize::MAX as nat) is None ==> counted(Some(argument), otherwise)
            == otherwise,
{
    text::decimal_reads_back(n as nat, usize::MAX as nat);
}

/// A field that is not there, or is no number, counts nothing.
pub proof fn a_missing_field_counts_nothing(name: Seq<char>, fields: Seq<char>, system: u64)
    requires
        text::lacks(fields, ')'),
    ensures
        text::words(fields).len() <= 11 ==> stated_ticks(name + seq![')'] + fields) == 0,
        text::words(fields).len() > 12 && text::parsed(text::words(fields)[11], u64::MAX as nat)
            is None && text::words(fields)[12] == text::decimal(system as nat) ==> stated_ticks(
            name + seq![')'] + fields,
        ) == system,
{
    the_name_may_hold_anything(name, fields);
    text::decimal_reads_back(system as nat, u64::MAX as nat);
}

} // verus!
