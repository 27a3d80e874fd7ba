//! The numbers of the parts of an upload, in order.

use crate::s3::model::{lists_numbers, sorted_numbers};
use std::collections::BTreeMap;
use vstd::prelude::*;
use vstd::std_specs::btree::increasing_seq;
use vstd::std_specs::cmp::OrdSpec;
use vstd::std_specs::iter::IteratorSpec;

verus! {

/// There is only one ascending listing of a set of numbers.
pub proof fn lemma_numbers_unique(x: Seq<u32>, y: Seq<u32>, set: Set<u32>)
    requires
        lists_numbers(x, set),
        lists_numbers(y, set),
    ensures
        x == y,
    decreases x.len(),
{
    if x.len() == 0 {
        if y.len() > 0 {
            assert(set.contains(y[0]));
            assert(x.contains(y[0]));
        }
        assert(x =~= y);
    } else {
        assert(set.contains(x[0]));
        assert(y.contains(x[0]));
        assert(set.contains(y[0]));
        assert(x.contains(y[0]));
        assert(x[0] == y[0]);
        lemma_numbers_tail(x, set);
        lemma_numbers_tail(y, set);
        lemma_numbers_unique(x.drop_first(), y.drop_first(), set.remove(x[0]));
        assert(x =~= seq![x[0]] + x.drop_first());
        assert(y =~= seq![y[0]] + y.drop_first());
    }
}

/// A listing without its first number lists the set without it.
proof fn lemma_numbers_tail(x: Seq<u32>, set: Set<u32>)
    requires
        lists_numbers(x, set),
        x.len() > 0,
    ensures
        lists_numbers(x.drop_first(), set.remove(x[0])),
{
    let t = x.drop_first();
    let rest = set.remove(x[0]);
    assert forall|i: int| 0 <= i < t.len() implies rest.contains(#[trigger] t[i]) by {
        assert(set.contains(x[i + 1]));
    }
    assert forall|n: u32| #[trigger] rest.contains(n) implies t.contains(n) by {
        assert(x.contains(n));
        let i = choose|i: int| 0 <= i < x.len() && x[i] == n;
        assert(t[i - 1] == n);
    }
}

/// An ascending listing of a set is the sorted sequence of its numbers.
pub proof fn lemma_sorted_numbers_is(numbers: Seq<u32>, set: Set<u32>)
    requires
        lists_numbers(numbers, set),
    ensures
        sorted_numbers(set) == numbers,
{
    lemma_numbers_unique(sorted_numbers(set), numbers, set);
}

/// Keys that come in order ascend.
proof fn lemma_increasing(keys: Seq<u32>)
    requires
        increasing_seq(keys),
    ensures
        forall|i: int, j: int| 0 <= i < j < keys.len() ==> keys[i] < keys[j],
{
    assert forall|i: int, j: int| 0 <= i < j < keys.len() implies keys[i] < keys[j] by {
        assert(keys[i].cmp_spec(&keys[j]) is Less);
    }
}

/// The keys of a map, in ascending order.
pub fn sorted_keys<V>(m: &BTreeMap<u32, V>) -> (numbers: Vec<u32>)
    ensures
        lists_numbers(numbers@, m@.dom()),
        numbers@ == sorted_numbers(m@.dom()),
{
    let mut numbers: Vec<u32> = Vec::new();
    let entries = m.iter();
    let ghost keys = entries.remaining().map_values(|kv: (&u32, &V)| *kv.0);
    proof {
        let v = entries.remaining();
        assert forall|i: int| 0 <= i < keys.len() implies m@.dom().contains(#[trigger] keys[i]) by {
            assert(m@.contains_key(*v[i].0));
        }
        assert forall|n: u32| #[trigger] m@.dom().contains(n) implies keys.contains(n) by {
            assert(v.contains((&n, &m@[n])));
            let i = choose|i: int| 0 <= i < v.len() && v[i] == (&n, &m@[n]);
            assert(keys[i] == n);
        }
        lemma_increasing(keys);
        assert(lists_numbers(keys, m@.dom()));
        lemma_sorted_numbers_is(keys, m@.dom());
    }
    for kv in it: entries
        invariant
            keys == it.seq().map_values(|kv: (&u32, &V)| *kv.0),
            numbers@ == keys.take(it.index() as int),
    {
        numbers.push(*kv.0);
        assert(numbers@ =~= keys.take(it.index() as int + 1));
    }
    assert(numbers@ =~= keys);
    numbers
}

} // verus!
