//! Counters keyed by process: hash maps from a 32-bit id to a 64-bit count, and
//! what can be said of them without an order of their entries.

use std::collections::HashMap;

use vstd::prelude::*;
use vstd::set_lib::*;

verus! {

broadcast use vstd::std_specs::hash::group_hash_axioms;

/// The entries of `m`, each once, in some order.
pub open spec fn lists(s: Seq<(u32, u64)>, m: Map<u32, u64>) -> bool {
    &&& forall|i: int|
        0 <= i < s.len() ==> m.contains_key((#[trigger] s[i]).0) && m[s[i].0] == s[i].1
    &&& forall|i: int, j: int| 0 <= i < j < s.len() ==> (#[trigger] s[i]).0 != (#[trigger] s[j]).0
    &&& forall|k: u32| #[trigger]
        m.contains_key(k) ==> exists|i: int| 0 <= i < s.len() && (#[trigger] s[i]).0 == k
}

/// The entries of `m`, each once.
pub fn entries(m: &HashMap<u32, u64>) -> (out: Vec<(u32, u64)>)
    ensures
        lists(out@, m@),
        out@.len() == m@.dom().len(),
        out@.len() <= 0x1_0000_0000,
{
    let mut out: Vec<(u32, u64)> = Vec::new();
    let ghost seen = vstd::std_specs::iter::IteratorSpec::remaining(
        &vstd::std_specs::hash::spec_hash_map_iter(m),
    );
    for entry in it: m.iter()
        invariant
            it.seq().no_duplicates(),
            it.seq().len() == m@.dom().len(),
            forall|i: int|
                0 <= i < it.seq().len() ==> m@.contains_key(*(#[trigger] it.seq()[i]).0)
                    && m@[*it.seq()[i].0] == *it.seq()[i].1,
            forall|k: u32| #[trigger] m@.contains_key(k) ==> it.seq().contains((&k, &m@[k])),
            out.len() == it.index(),
            forall|i: int|
                0 <= i < out.len() ==> (#[trigger] out@[i]).0 == *it.seq()[i].0 && out@[i].1
                    == *it.seq()[i].1,
            seen == it.seq(),
    {
        let (pid, count) = entry;
        out.push((*pid, *count));
    }
    proof {
        assert forall|i: int, j: int| 0 <= i < j < out.len() implies (#[trigger] out@[i]).0 != (
        #[trigger] out@[j]).0 by {
            if out@[i].0 == out@[j].0 {
                assert(seen[i] == seen[j]);
            }
        }
        assert forall|k: u32| #[trigger] m@.contains_key(k) implies exists|i: int|
            0 <= i < out.len() && (#[trigger] out@[i]).0 == k by {
            let i = choose|i: int| 0 <= i < seen.len() && seen[i] == (&k, &m@[k]);
            assert(out@[i].0 == k);
        }
        lemma_few(out@, m@);
    }
    out
}

/// Entries told apart by a 32-bit key are at most that many.
pub proof fn lemma_few(s: Seq<(u32, u64)>, m: Map<u32, u64>)
    requires
        lists(s, m),
    ensures
        s.len() <= 0x1_0000_0000,
{
    let keys = s.map_values(|e: (u32, u64)| e.0 as int);
    assert(keys.no_duplicates());
    keys.unique_seq_to_set();
    lemma_int_range(0, 0x1_0000_0000);
    assert forall|k: int| keys.to_set().contains(k) implies set_int_range(
        0,
        0x1_0000_0000,
    ).contains(k) by {
        let i = choose|i: int| 0 <= i < keys.len() && keys[i] == k;
        assert(keys[i] == s[i].0);
    }
    lemma_len_subset(keys.to_set(), set_int_range(0, 0x1_0000_0000));
}

// ── Laws ─────────────────────────────────────────────────────────────────────

/// A list of a map's entries is the map: whatever the map holds is in the list, once and
/// with its count, and nothing else is.
pub proof fn a_list_is_the_map(s: Seq<(u32, u64)>, m: Map<u32, u64>, key: u32, count: u64)
    requires
        lists(s, m),
    ensures
        s.contains((key, count)) <==> m.contains_key(key) && m[key] == count,
        s.no_duplicates(),
{
    if s.contains((key, count)) {
        let i = choose|i: int| 0 <= i < s.len() && s[i] == (key, count);
        assert(m.contains_key(s[i].0));
    }
    if m.contains_key(key) && m[key] == count {
        let i = choose|i: int| 0 <= i < s.len() && (#[trigger] s[i]).0 == key;
        assert(s[i] == (key, count));
    }
    assert forall|i: int, j: int| 0 <= i < j < s.len() implies s[i] != s[j] by {
        assert(s[i].0 != s[j].0);
    }
}

} // verus!
