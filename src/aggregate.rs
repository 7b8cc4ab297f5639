use std::collections::HashSet;
use vstd::std_specs::hash::spec_hash_keys_iter;
use vstd::std_specs::iter::IteratorSpec;
use vstd::prelude::*;

verus! {

broadcast use vstd::std_specs::hash::group_hash_axioms;

/// The union of every set in `sets`.
pub open spec fn union_all(sets: Seq<Set<u16>>) -> Set<u16>
    decreases sets.len(),
{
    if sets.len() == 0 {
        Set::empty()
    } else {
        union_all(sets.drop_last()).union(sets.last())
    }
}

/// Adds every port of `src` to `dst`.
fn add_all(dst: &mut HashSet<u16>, src: &HashSet<u16>)
    ensures
        final(dst)@ == old(dst)@.union(src@),
{
    let ghost start = dst@;
    let ghost keys = spec_hash_keys_iter(src).remaining().unref();
    let ghost mut count: int = 0;
    for p in it: src.iter()
        invariant
            start == old(dst)@,
            keys == spec_hash_keys_iter(src).remaining().unref(),
            it.seq().unref() == keys,
            count == it.index(),
            dst@ == start.union(keys.take(count).to_set()),
    {
        proof {
            let a = keys.take(count);
            let b = keys.take(count + 1);
            assert(b =~= a.push(*p));
            assert(b.to_set() =~= a.to_set().insert(*p)) by {
                assert forall|x: u16| b.to_set().contains(x) implies a.to_set().insert(*p).contains(
                    x,
                ) by {
                    let k = choose|k: int| 0 <= k < b.len() && b[k] == x;
                    if k < a.len() {
                        assert(a[k] == x);
                    }
                }
                assert forall|x: u16| a.to_set().insert(*p).contains(x) implies b.to_set().contains(
                    x,
                ) by {
                    if x == *p {
                        assert(b[a.len() as int] == x);
                    } else {
                        let k = choose|k: int| 0 <= k < a.len() && a[k] == x;
                        assert(b[k] == x);
                    }
                }
            }
        }
        dst.insert(*p);
        proof {
            count = count + 1;
        }
    }
    proof {
        assert(keys.take(count) =~= keys);
    }
    assert(dst@ =~= start.union(src@));
}

/// The sets that `v` holds, as their views.
pub open spec fn set_views(v: Seq<HashSet<u16>>) -> Seq<Set<u16>> {
    v.map_values(|s: HashSet<u16>| s@)
}

/// The exclusion set of a run: the union of the forbidden-port sets of every
/// source consulted.
pub fn aggregate(sets: &Vec<HashSet<u16>>) -> (r: HashSet<u16>)
    ensures
        r@ == union_all(set_views(sets@)),
{
    let ghost all = set_views(sets@);
    let mut out: HashSet<u16> = HashSet::new();
    let mut j: usize = 0;
    proof {
        assert(all.take(0) =~= seq![]);
        assert(out@ =~= Set::<u16>::empty());
    }
    while j < sets.len()
        invariant
            j <= sets.len(),
            all == set_views(sets@),
            out@ == union_all(all.take(j as int)),
        decreases sets.len() - j,
    {
        add_all(&mut out, &sets[j]);
        proof {
            assert(all.take(j + 1).drop_last() =~= all.take(j as int));
        }
        j = j + 1;
    }
    proof {
        assert(all.take(j as int) =~= all);
    }
    out
}

/// A port is in the union exactly when one of the sets holds it.
pub proof fn lemma_union_all_contains(sets: Seq<Set<u16>>, x: u16)
    ensures
        union_all(sets).contains(x) <==> exists|i: int|
            0 <= i < sets.len() && (#[trigger] sets[i]).contains(x),
    decreases sets.len(),
{
    if sets.len() > 0 {
        lemma_union_all_contains(sets.drop_last(), x);
        if union_all(sets).contains(x) {
            if !sets.last().contains(x) {
                let i = choose|i: int|
                    0 <= i < sets.len() - 1 && (#[trigger] sets.drop_last()[i]).contains(x);
                assert(sets[i] == sets.drop_last()[i]);
            }
        }
        if exists|i: int| 0 <= i < sets.len() && (#[trigger] sets[i]).contains(x) {
            let i = choose|i: int| 0 <= i < sets.len() && (#[trigger] sets[i]).contains(x);
            if i < sets.len() - 1 {
                assert(sets.drop_last()[i] == sets[i]);
            }
        }
    }
}

/// Aggregation ignores the order and the repetition of its sources: two lists
/// that hold the same sets give the same union.
pub proof fn aggregate_ignores_order(a: Seq<Set<u16>>, b: Seq<Set<u16>>)
    requires
        a.to_set() == b.to_set(),
    ensures
        union_all(a) == union_all(b),
{
    assert forall|x: u16| union_all(a).contains(x) implies union_all(b).contains(x) by {
        lemma_union_all_contains(a, x);
        lemma_union_all_contains(b, x);
        let i = choose|i: int| 0 <= i < a.len() && (#[trigger] a[i]).contains(x);
        assert(a.to_set().contains(a[i]));
        assert(b.to_set().contains(a[i]));
    }
    assert forall|x: u16| union_all(b).contains(x) implies union_all(a).contains(x) by {
        lemma_union_all_contains(a, x);
        lemma_union_all_contains(b, x);
        let i = choose|i: int| 0 <= i < b.len() && (#[trigger] b[i]).contains(x);
        assert(b.to_set().contains(b[i]));
        assert(a.to_set().contains(b[i]));
    }
    assert(union_all(a) =~= union_all(b));
}

proof fn lemma_union_pair(a: Set<u16>, b: Set<u16>)
    ensures
        union_all(seq![a, b]) == a.union(b),
{
    let one = seq![a];
    let two = seq![a, b];
    assert(two.drop_last() =~= one);
    assert(two.last() == b);
    assert(one.drop_last() =~= Seq::<Set<u16>>::empty());
    assert(one.last() == a);
    assert(union_all(Seq::<Set<u16>>::empty()) == Set::<u16>::empty());
    assert(union_all(one) == Set::<u16>::empty().union(a));
    assert(Set::<u16>::empty().union(a) =~= a);
    assert(union_all(two) == union_all(one).union(b));
}

/// Aggregation is commutative: `[x, y]` and `[y, x]` give the same set.
pub proof fn aggregate_commutes(x: Set<u16>, y: Set<u16>)
    ensures
        union_all(seq![x, y]) == union_all(seq![y, x]),
{
    lemma_union_pair(x, y);
    lemma_union_pair(y, x);
    assert(x.union(y) =~= y.union(x));
}

/// Aggregation is associative: aggregating `[x, y]` first and then with `z`
/// gives what aggregating `x` with the aggregate of `[y, z]` gives.
pub proof fn aggregate_associates(x: Set<u16>, y: Set<u16>, z: Set<u16>)
    ensures
        union_all(seq![union_all(seq![x, y]), z]) == union_all(seq![x, union_all(seq![y, z])]),
{
    lemma_union_pair(x, y);
    lemma_union_pair(y, z);
    lemma_union_pair(x.union(y), z);
    lemma_union_pair(x, y.union(z));
    assert(x.union(y).union(z) =~= x.union(y.union(z)));
}

} // verus!
