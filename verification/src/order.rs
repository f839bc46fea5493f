//! Ascending lists of numbers.

use std::collections::BTreeMap;
use vstd::prelude::*;
use vstd::std_specs::cmp::OrdSpec;
use vstd::std_specs::iter::IteratorSpec;

verus! {

/// Whether a list is ascending and so free of repetitions.
pub open spec fn ascending(list: Seq<u32>) -> bool {
    forall|i: int, j: int| 0 <= i < j < list.len() ==> list[i] < list[j]
}

/// The numbers of an ascending list without its last one.
proof fn lemma_ascending_rest(list: Seq<u32>, t: u32)
    requires
        ascending(list),
        list.len() > 0,
    ensures
        list.drop_last().contains(t) <==> list.contains(t) && t != list.last(),
        list.contains(t) ==> t <= list.last(),
{
    if list.contains(t) {
        let i = list.index_of(t);
        if t != list.last() {
            assert(list.drop_last()[i] == t);
        }
    }
    if list.drop_last().contains(t) {
        let i = list.drop_last().index_of(t);
        assert(list[i] == t);
    }
}

/// Two ascending lists of the same numbers are the same list.
pub proof fn lemma_ascending_determined(a: Seq<u32>, b: Seq<u32>)
    requires
        ascending(a),
        ascending(b),
        forall|t: u32| #[trigger] a.contains(t) <==> b.contains(t),
    ensures
        a == b,
    decreases a.len(),
{
    if a.len() == 0 {
        if b.len() > 0 {
            assert(a.contains(b[0]));
        }
        assert(a =~= b);
    } else {
        assert(a.contains(a.last()));
        if b.len() == 0 {
            assert(b.contains(a.last()));
        }
        assert(b.contains(b.last()));
        assert(a.contains(b.last()));
        lemma_ascending_rest(a, b.last());
        lemma_ascending_rest(b, a.last());
        assert forall|t: u32| #[trigger] a.drop_last().contains(t) <==> b.drop_last().contains(
            t,
        ) by {
            lemma_ascending_rest(a, t);
            lemma_ascending_rest(b, t);
            assert(a.contains(t) <==> b.contains(t));
        }
        lemma_ascending_determined(a.drop_last(), b.drop_last());
        assert(a =~= a.drop_last().push(a.last()));
        assert(b =~= b.drop_last().push(b.last()));
    }
}

/// Adds a number to an ascending list, unless it is in it.
pub fn insert_ascending(list: &mut Vec<u32>, n: u32)
    requires
        ascending(old(list)@),
    ensures
        ascending(final(list)@),
        forall|t: u32|
            #![trigger final(list)@.contains(t)]
            final(list)@.contains(t) <==> old(list)@.contains(t) || t == n,
{
    let mut p: usize = 0;
    while p < list.len() && list[p] < n
        invariant
            list@ == old(list)@,
            p <= list@.len(),
            forall|j: int| 0 <= j < p ==> list@[j] < n,
        ensures
            list@ == old(list)@,
            p <= list@.len(),
            forall|j: int| 0 <= j < p ==> list@[j] < n,
            p < list@.len() ==> list@[p as int] >= n,
        decreases list@.len() - p,
    {
        p += 1;
    }
    if p < list.len() && list[p] == n {
        assert(list@[p as int] == n);
        return;
    }
    let ghost before = list@;
    list.insert(p, n);
    proof {
        let after = list@;
        assert(after == before.insert(p as int, n));
        assert forall|t: u32| #[trigger] after.contains(t) <==> before.contains(t) || t == n by {
            if before.contains(t) {
                let q = before.index_of(t);
                let aq = if q < p { q } else { q + 1 };
                assert(after[aq] == t);
            }
            if t == n {
                assert(after[p as int] == t);
            }
            if after.contains(t) && t != n {
                let a = after.index_of(t);
                let q = if a < p { a } else { a - 1 };
                assert(before[q] == t);
            }
        }
    }
}

/// Whether `keys` lists the keys of `map`, each once, in ascending order.
pub open spec fn lists_keys<V>(keys: Seq<u32>, map: Map<u32, V>) -> bool {
    &&& ascending(keys)
    &&& forall|k: u32| #[trigger] map.dom().contains(k) <==> keys.contains(k)
}

/// The keys of a map in ascending order.
pub open spec fn keys_of<V>(map: Map<u32, V>) -> Seq<u32> {
    choose|keys: Seq<u32>| lists_keys(keys, map)
}

/// There is one list of a map's keys.
proof fn lemma_keys_of<V>(keys: Seq<u32>, map: Map<u32, V>)
    requires
        lists_keys(keys, map),
    ensures
        keys == keys_of(map),
        lists_keys(keys_of(map), map),
{
    let chosen = keys_of(map);
    assert(lists_keys(chosen, map));
    assert forall|k: u32| #[trigger] keys.contains(k) <==> chosen.contains(k) by {
        assert(map.dom().contains(k) <==> keys.contains(k));
        assert(map.dom().contains(k) <==> chosen.contains(k));
    }
    lemma_ascending_determined(keys, chosen);
}

/// The order in which a map of the standard library lists numbers.
proof fn lemma_increasing(list: Seq<u32>)
    requires
        vstd::std_specs::btree::increasing_seq(list),
    ensures
        ascending(list),
{
    broadcast use vstd::std_specs::btree::group_btree_axioms;

    assert forall|i: int, j: int| 0 <= i < j < list.len() implies list[i] < list[j] by {
        assert(list[i].cmp_spec(&list[j]) is Less);
    }
}

/// Lists the keys of a map.
pub fn ascending_keys<V>(map: &BTreeMap<u32, V>) -> (keys: Vec<u32>)
    ensures
        keys@ == keys_of(map@),
        lists_keys(keys@, map@),
{
    broadcast use vstd::std_specs::btree::group_btree_axioms;

    let mut keys: Vec<u32> = Vec::new();
    let iter = map.iter();
    let ghost entries = iter.remaining();
    let ghost first = |e: (&u32, &V)| *e.0;
    for entry in it: iter
        invariant
            it.seq() == entries,
            first == (|e: (&u32, &V)| *e.0),
            keys@ == entries.take(it.index()).map_values(first),
    {
        assert(entries.take(it.index() + 1).map_values(first) =~= keys@.push(*entry.0));
        keys.push(*entry.0);
    }
    assert(entries.take(entries.len() as int) =~= entries);
    proof {
        assert forall|k: u32| #[trigger] map@.dom().contains(k) <==> keys@.contains(k) by {
            if map@.contains_key(k) {
                assert(entries.contains((&k, &map@[k])));
                let i = entries.index_of((&k, &map@[k]));
                assert(keys@[i] == k);
            }
            if keys@.contains(k) {
                let i = keys@.index_of(k);
                assert(map@.contains_key(*entries[i].0));
            }
        }
        assert(entries.map_values(first) =~= keys@);
        lemma_increasing(keys@);
        lemma_keys_of(keys@, map@);
    }
    keys
}

/// The keys of a map are listed each once, ascending, and no others.
pub proof fn law_each_key_is_listed_once<V>(keys: Seq<u32>, map: Map<u32, V>, key: u32)
    requires
        lists_keys(keys, map),
    ensures
        keys == keys_of(map),
        keys.contains(key) <==> map.dom().contains(key),
        forall|i: int, j: int| 0 <= i < j < keys.len() ==> (#[trigger] keys[i]) < (#[trigger] keys[j]),
{
    lemma_keys_of(keys, map);
    assert(map.dom().contains(key) <==> keys.contains(key));
}

} // verus!
