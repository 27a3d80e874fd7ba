//! The order of texts, and the sorted listing of a set of texts.

use crate::text::{chars_of, occurs_at, starts_with, texts};
use vstd::prelude::*;
use vstd::relations::total_ordering;

verus! {

/// Lexicographic order by code point.
pub open spec fn text_le(a: Seq<char>, b: Seq<char>) -> bool
    decreases a.len(),
{
    if a.len() == 0 {
        true
    } else if b.len() == 0 {
        false
    } else if a[0] == b[0] {
        text_le(a.drop_first(), b.drop_first())
    } else {
        a[0] < b[0]
    }
}

/// Strict lexicographic order by code point.
pub open spec fn text_lt(a: Seq<char>, b: Seq<char>) -> bool {
    text_le(a, b) && a != b
}

/// Whether each text is strictly below the next ones.
pub open spec fn ascending(keys: Seq<Seq<char>>) -> bool {
    forall|i: int, j: int| 0 <= i < j < keys.len() ==> #[trigger] text_lt(keys[i], keys[j])
}

/// Whether `keys` lists the texts of `set` in ascending order, each once.
pub open spec fn lists(keys: Seq<Seq<char>>, set: Set<Seq<char>>) -> bool {
    &&& ascending(keys)
    &&& forall|i: int| 0 <= i < keys.len() ==> set.contains(#[trigger] keys[i])
    &&& forall|k: Seq<char>| #[trigger] set.contains(k) ==> keys.contains(k)
}

/// The texts of a finite set in ascending order.
pub open spec fn sorted(set: Set<Seq<char>>) -> Seq<Seq<char>> {
    choose|keys: Seq<Seq<char>>| lists(keys, set)
}

/// Every text is at most itself.
pub proof fn lemma_le_reflexive(a: Seq<char>)
    ensures
        text_le(a, a),
    decreases a.len(),
{
    if a.len() > 0 {
        lemma_le_reflexive(a.drop_first());
    }
}

/// Two texts that are at most each other are the same.
pub proof fn lemma_le_antisymmetric(a: Seq<char>, b: Seq<char>)
    requires
        text_le(a, b),
        text_le(b, a),
    ensures
        a == b,
    decreases a.len(),
{
    if a.len() > 0 && b.len() > 0 {
        lemma_le_antisymmetric(a.drop_first(), b.drop_first());
        assert(a =~= seq![a[0]] + a.drop_first());
        assert(b =~= seq![b[0]] + b.drop_first());
    } else {
        assert(a =~= b);
    }
}

/// The order of texts is transitive.
pub proof fn lemma_le_transitive(a: Seq<char>, b: Seq<char>, c: Seq<char>)
    requires
        text_le(a, b),
        text_le(b, c),
    ensures
        text_le(a, c),
    decreases a.len(),
{
    if a.len() > 0 && b.len() > 0 && c.len() > 0 && a[0] == b[0] && b[0] == c[0] {
        lemma_le_transitive(a.drop_first(), b.drop_first(), c.drop_first());
    }
}

/// Of two texts, one is at most the other.
pub proof fn lemma_le_total(a: Seq<char>, b: Seq<char>)
    ensures
        text_le(a, b) || text_le(b, a),
    decreases a.len(),
{
    if a.len() > 0 && b.len() > 0 && a[0] == b[0] {
        lemma_le_total(a.drop_first(), b.drop_first());
    }
}

/// A text is above another where it is not at most the other.
pub proof fn lemma_lt_is_not_le(a: Seq<char>, b: Seq<char>)
    ensures
        text_lt(b, a) == !text_le(a, b),
{
    lemma_le_total(a, b);
    lemma_le_reflexive(a);
    if text_lt(b, a) && text_le(a, b) {
        lemma_le_antisymmetric(a, b);
    }
}

/// The strict order of texts is transitive.
pub proof fn lemma_lt_transitive(a: Seq<char>, b: Seq<char>, c: Seq<char>)
    requires
        text_lt(a, b),
        text_lt(b, c),
    ensures
        text_lt(a, c),
{
    lemma_le_transitive(a, b, c);
    if a == c {
        lemma_le_antisymmetric(a, b);
    }
}

/// What lies between two texts with a common prefix has that prefix too.
pub proof fn lemma_prefix_between(a: Seq<char>, b: Seq<char>, c: Seq<char>, p: Seq<char>)
    requires
        text_le(a, b),
        text_le(b, c),
        starts_with(a, p),
        starts_with(c, p),
    ensures
        starts_with(b, p),
    decreases p.len(),
{
    if p.len() == 0 {
        assert(b.subrange(0, 0) =~= p);
    } else {
        assert(a.subrange(0, p.len() as int)[0] == p[0]);
        assert(c.subrange(0, p.len() as int)[0] == p[0]);
        assert(b.len() > 0 && b[0] == p[0]);
        let q = p.drop_first();
        assert(a.drop_first().subrange(0, q.len() as int) =~= a.subrange(
            0,
            p.len() as int,
        ).drop_first());
        assert(c.drop_first().subrange(0, q.len() as int) =~= c.subrange(
            0,
            p.len() as int,
        ).drop_first());
        lemma_prefix_between(a.drop_first(), b.drop_first(), c.drop_first(), q);
        let d = b.drop_first();
        assert(occurs_at(d, q, 0));
        assert forall|i: int| 0 <= i < p.len() implies b[i] == p[i] by {
            if i > 0 {
                assert(d.subrange(0, q.len() as int)[i - 1] == q[i - 1]);
            }
        }
        assert(b.subrange(0, p.len() as int) =~= p);
    }
}

/// There is only one ascending listing of a set.
pub proof fn lemma_lists_unique(x: Seq<Seq<char>>, y: Seq<Seq<char>>, set: Set<Seq<char>>)
    requires
        lists(x, set),
        lists(y, set),
    ensures
        x == y,
    decreases x.len(),
{
    if x.len() == 0 {
        if y.len() > 0 {
            assert(set.contains(y[0]));
            assert(x.contains(y[0]));
        }
        assert(x =~= y);
    } else {
        assert(set.contains(x[0]));
        assert(y.contains(x[0]));
        assert(set.contains(y[0]));
        assert(x.contains(y[0]));
        let i = choose|i: int| 0 <= i < y.len() && y[i] == x[0];
        let j = choose|j: int| 0 <= j < x.len() && x[j] == y[0];
        if i > 0 && j > 0 {
            assert(text_lt(y[0], y[i]));
            assert(text_lt(x[0], x[j]));
            lemma_le_antisymmetric(x[0], y[0]);
        }
        assert(x[0] == y[0]);
        let rest = set.remove(x[0]);
        lemma_lists_tail(x, set);
        lemma_lists_tail(y, set);
        lemma_lists_unique(x.drop_first(), y.drop_first(), rest);
        assert(x =~= seq![x[0]] + x.drop_first());
        assert(y =~= seq![y[0]] + y.drop_first());
    }
}

/// A listing without its first text lists the set without it.
proof fn lemma_lists_tail(x: Seq<Seq<char>>, set: Set<Seq<char>>)
    requires
        lists(x, set),
        x.len() > 0,
    ensures
        lists(x.drop_first(), set.remove(x[0])),
{
    let t = x.drop_first();
    let rest = set.remove(x[0]);
    assert forall|i: int, j: int| 0 <= i < j < t.len() implies #[trigger] text_lt(t[i], t[j]) by {
        assert(text_lt(x[i + 1], x[j + 1]));
    }
    assert forall|i: int| 0 <= i < t.len() implies rest.contains(#[trigger] t[i]) by {
        assert(text_lt(x[0], x[i + 1]));
        assert(set.contains(x[i + 1]));
    }
    assert forall|k: Seq<char>| #[trigger] rest.contains(k) implies t.contains(k) by {
        assert(set.contains(k));
        assert(x.contains(k));
        let i = choose|i: int| 0 <= i < x.len() && x[i] == k;
        assert(t[i - 1] == k);
    }
}

/// An ascending listing of a set is the sorted sequence of its texts.
pub proof fn lemma_sorted_is(keys: Seq<Seq<char>>, set: Set<Seq<char>>)
    requires
        lists(keys, set),
    ensures
        sorted(set) == keys,
{
    lemma_lists_unique(sorted(set), keys, set);
}

/// The order of texts is a total order.
proof fn lemma_le_total_ordering()
    ensures
        total_ordering(|a: Seq<char>, b: Seq<char>| text_le(a, b)),
{
    let leq = |a: Seq<char>, b: Seq<char>| text_le(a, b);
    assert forall|a: Seq<char>| #[trigger] leq(a, a) by {
        lemma_le_reflexive(a);
    }
    assert forall|a: Seq<char>, b: Seq<char>| #[trigger] leq(a, b) && #[trigger] leq(
        b,
        a,
    ) implies a == b by {
        lemma_le_antisymmetric(a, b);
    }
    assert forall|a: Seq<char>, b: Seq<char>, c: Seq<char>| #[trigger] leq(a, b) && #[trigger] leq(
        b,
        c,
    ) implies leq(a, c) by {
        lemma_le_transitive(a, b, c);
    }
    assert forall|a: Seq<char>, b: Seq<char>| #[trigger] leq(a, b) || #[trigger] leq(b, a) by {
        lemma_le_total(a, b);
    }
}

/// Every finite set has an ascending listing.
pub proof fn lemma_sorted_lists(set: Set<Seq<char>>)
    requires
        set.finite(),
    ensures
        lists(sorted(set), set),
    decreases set.len(),
{
    if set.len() == 0 {
        assert(set =~= Set::empty());
        assert(lists(Seq::empty(), set));
    } else {
        let leq = |a: Seq<char>, b: Seq<char>| text_le(a, b);
        lemma_le_total_ordering();
        set.find_unique_minimal_ensures(leq);
        let least = set.find_unique_minimal(leq);
        let rest = set.remove(least);
        lemma_sorted_lists(rest);
        let tail = sorted(rest);
        let keys = seq![least] + tail;
        assert forall|k: Seq<char>| set.contains(k) && k != least implies text_lt(least, k) by {
            lemma_le_total(least, k);
            assert(leq(least, k) == text_le(least, k));
            assert(leq(k, least) == text_le(k, least));
        }
        assert forall|i: int| 0 <= i < keys.len() implies set.contains(#[trigger] keys[i]) by {
            if i > 0 {
                assert(rest.contains(tail[i - 1]));
            }
        }
        assert forall|i: int, j: int| 0 <= i < j < keys.len() implies #[trigger] text_lt(
            keys[i],
            keys[j],
        ) by {
            assert(rest.contains(tail[j - 1]));
            if i > 0 {
                assert(text_lt(tail[i - 1], tail[j - 1]));
            }
        }
        assert forall|k: Seq<char>| #[trigger] set.contains(k) implies keys.contains(k) by {
            if k == least {
                assert(keys[0] == k);
            } else {
                assert(rest.contains(k));
                let i = choose|i: int| 0 <= i < tail.len() && tail[i] == k;
                assert(keys[i + 1] == k);
            }
        }
        assert(lists(keys, set));
    }
}

/// Whether `a` is at most `b` in the order of texts.
pub fn at_most(a: &str, b: &str) -> (r: bool)
    ensures
        r == text_le(a@, b@),
{
    let x = chars_of(a);
    let y = chars_of(b);
    let mut i: usize = 0;
    assert(x@.skip(0) =~= x@);
    assert(y@.skip(0) =~= y@);
    while i < x.len() && i < y.len() && x[i] == y[i]
        invariant
            i <= x.len(),
            i <= y.len(),
            text_le(x@, y@) == text_le(x@.skip(i as int), y@.skip(i as int)),
        decreases x.len() - i,
    {
        assert(x@.skip(i as int).drop_first() =~= x@.skip(i as int + 1));
        assert(y@.skip(i as int).drop_first() =~= y@.skip(i as int + 1));
        i += 1;
    }
    if i == x.len() {
        true
    } else if i == y.len() {
        false
    } else {
        assert(x@.skip(i as int)[0] == x@[i as int]);
        assert(y@.skip(i as int)[0] == y@[i as int]);
        x[i] < y[i]
    }
}

/// `Vec::sort` on strings puts them in ascending order, by the order that `String` documents:
/// by bytes, which is the order by code points. No string is added or lost.
#[verifier::external_body]
pub(crate) fn sort_strings(v: &mut Vec<String>)
    ensures
        final(v).len() == old(v).len(),
        texts(final(v)@).to_multiset() == texts(old(v)@).to_multiset(),
        forall|i: int, j: int|
            0 <= i < j < final(v).len() ==> #[trigger] text_le(final(v)@[i]@, final(v)@[j]@),
{
    v.sort()
}

/// Sorts strings that are all different: the ascending listing of the set that they make up.
pub fn sort_distinct(v: &mut Vec<String>)
    requires
        texts(old(v)@).no_duplicates(),
    ensures
        texts(final(v)@) == sorted(texts(old(v)@).to_set()),
{
    let ghost before = texts(v@);
    sort_strings(v);
    proof {
        broadcast use vstd::seq_lib::group_to_multiset_ensures;

        let after = texts(v@);
        before.lemma_multiset_has_no_duplicates();
        after.lemma_multiset_has_no_duplicates_conv();
        assert forall|i: int, j: int| 0 <= i < j < after.len() implies #[trigger] text_lt(
            after[i],
            after[j],
        ) by {
            assert(text_le(v@[i]@, v@[j]@));
        }
        assert forall|i: int| 0 <= i < after.len() implies before.to_set().contains(
            #[trigger] after[i],
        ) by {
            assert(after.to_multiset().contains(after[i]));
            assert(before.contains(after[i]));
        }
        assert forall|k: Seq<char>| #[trigger] before.to_set().contains(k) implies after.contains(
            k,
        ) by {
            assert(before.contains(k));
            assert(before.to_multiset().contains(k));
        }
        lemma_sorted_is(after, before.to_set());
    }
}

} // verus!
