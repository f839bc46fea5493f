//! Maps from names to values, held in the order of the names.

use crate::text;
use vstd::prelude::*;

verus! {

/// A map from names to values that lists its entries in the order of strings.
pub struct NameMap<V> {
    entries: Vec<(String, V)>,
}

/// Whether `names` lists the names of `map`, each once, in the order of strings.
pub open spec fn lists_names<V>(names: Seq<Seq<char>>, map: Map<Seq<char>, V>) -> bool {
    &&& forall|i: int, j: int|
        0 <= i < j < names.len() ==> text::text_less(#[trigger] names[i], #[trigger] names[j])
    &&& forall|i: int| 0 <= i < names.len() ==> map.dom().contains(#[trigger] names[i])
    &&& forall|k: Seq<char>| #[trigger] map.dom().contains(k) ==> names.contains(k)
}

spec fn sorted<V>(entries: Seq<(String, V)>) -> bool {
    forall|i: int, j: int|
        0 <= i < j < entries.len() ==> text::text_less(
            #[trigger] entries[i].0@,
            #[trigger] entries[j].0@,
        )
}

spec fn holds<V>(entries: Seq<(String, V)>, k: Seq<char>) -> bool {
    exists|i: int| 0 <= i < entries.len() && #[trigger] entries[i].0@ == k
}

spec fn place<V>(entries: Seq<(String, V)>, k: Seq<char>) -> int {
    choose|i: int| 0 <= i < entries.len() && #[trigger] entries[i].0@ == k
}

spec fn as_map<V>(entries: Seq<(String, V)>) -> Map<Seq<char>, V> {
    Map::new(|k: Seq<char>| holds(entries, k), |k: Seq<char>| entries[place(entries, k)].1)
}

proof fn lemma_entry<V>(entries: Seq<(String, V)>, i: int)
    requires
        sorted(entries),
        0 <= i < entries.len(),
    ensures
        as_map(entries).dom().contains(entries[i].0@),
        as_map(entries)[entries[i].0@] == entries[i].1,
{
    let k = entries[i].0@;
    assert(holds(entries, k));
    let p = place(entries, k);
    text::lemma_text_less_irreflexive(k);
    assert(p == i);
}

proof fn lemma_same_map<V>(entries: Seq<(String, V)>, map: Map<Seq<char>, V>)
    requires
        sorted(entries),
        forall|i: int|
            0 <= i < entries.len() ==> map.dom().contains(#[trigger] entries[i].0@)
                && map[entries[i].0@] == entries[i].1,
        forall|k: Seq<char>| #[trigger] map.dom().contains(k) ==> holds(entries, k),
    ensures
        as_map(entries) == map,
{
    assert forall|k: Seq<char>| #[trigger] as_map(entries).dom().contains(k) implies as_map(
        entries,
    )[k] == map[k] && map.dom().contains(k) by {
        lemma_entry(entries, place(entries, k));
    }
    assert forall|k: Seq<char>| #[trigger] map.dom().contains(k) implies as_map(
        entries,
    ).dom().contains(k) by {}
    assert(as_map(entries) =~= map);
}

impl<V> View for NameMap<V> {
    type V = Map<Seq<char>, V>;

    closed spec fn view(&self) -> Map<Seq<char>, V> {
        as_map(self.entries@)
    }
}

impl<V> NameMap<V> {
    #[verifier::type_invariant]
    spec fn in_order(self) -> bool {
        sorted(self.entries@)
    }

    /// The names in order.
    pub closed spec fn names(self) -> Seq<Seq<char>> {
        self.entries@.map_values(|e: (String, V)| e.0@)
    }

    pub fn new() -> (m: Self)
        ensures
            m@ == Map::<Seq<char>, V>::empty(),
            m.names().len() == 0,
    {
        let entries: Vec<(String, V)> = Vec::new();
        assert(as_map(entries@) =~= Map::<Seq<char>, V>::empty());
        NameMap { entries }
    }

    /// How many names there are.
    pub fn len(&self) -> (n: usize)
        ensures
            n == self.names().len(),
            lists_names(self.names(), self@),
    {
        proof {
            use_type_invariant(self);
            let names = self.names();
            assert forall|i: int| 0 <= i < names.len() implies self@.dom().contains(
                #[trigger] names[i],
            ) by {
                lemma_entry(self.entries@, i);
            }
            assert forall|k: Seq<char>| #[trigger] self@.dom().contains(k) implies names.contains(
                k,
            ) by {
                assert(names[place(self.entries@, k)] == k);
            }
            assert forall|i: int, j: int| 0 <= i < j < names.len() implies text::text_less(
                #[trigger] names[i],
                #[trigger] names[j],
            ) by {
                assert(names[i] == self.entries@[i].0@ && names[j] == self.entries@[j].0@);
            }
        }
        self.entries.len()
    }

    /// The name at a place in the order.
    pub fn name_at(&self, i: usize) -> (name: &String)
        requires
            i < self.names().len(),
        ensures
            name@ == self.names()[i as int],
    {
        &self.entries[i].0
    }

    /// The value of the name at a place in the order.
    pub fn value_at(&self, i: usize) -> (value: &V)
        requires
            i < self.names().len(),
        ensures
            self@.dom().contains(self.names()[i as int]),
            *value == self@[self.names()[i as int]],
    {
        proof {
            use_type_invariant(self);
            lemma_entry(self.entries@, i as int);
        }
        &self.entries[i].1
    }

    /// The first place whose name does not stand before the given one.
    fn position(&self, name: &str) -> (p: usize)
        ensures
            p <= self.entries@.len(),
            forall|j: int|
                0 <= j < p ==> text::text_less(#[trigger] self.entries@[j].0@, name@),
            p < self.entries@.len() ==> !text::text_less(self.entries@[p as int].0@, name@),
    {
        let mut p: usize = 0;
        while p < self.entries.len() && text::is_text_less(self.entries[p].0.as_str(), name)
            invariant
                p <= self.entries@.len(),
                forall|j: int|
                    0 <= j < p ==> text::text_less(#[trigger] self.entries@[j].0@, name@),
            ensures
                p <= self.entries@.len(),
                forall|j: int|
                    0 <= j < p ==> text::text_less(#[trigger] self.entries@[j].0@, name@),
                p < self.entries@.len() ==> !text::text_less(self.entries@[p as int].0@, name@),
            decreases self.entries@.len() - p,
        {
            p += 1;
        }
        p
    }

    proof fn lemma_absent(entries: Seq<(String, V)>, p: int, name: Seq<char>)
        requires
            sorted(entries),
            0 <= p <= entries.len(),
            forall|j: int| 0 <= j < p ==> text::text_less(#[trigger] entries[j].0@, name),
            p < entries.len() ==> !text::text_less(entries[p].0@, name) && entries[p].0@ != name,
        ensures
            !holds(entries, name),
            forall|j: int|
                p <= j < entries.len() ==> text::text_less(name, #[trigger] entries[j].0@),
    {
        if p < entries.len() {
            text::lemma_text_less_total(entries[p].0@, name);
            assert forall|j: int| p <= j < entries.len() implies text::text_less(
                name,
                #[trigger] entries[j].0@,
            ) by {
                if p < j {
                    text::lemma_text_less_transitive(name, entries[p].0@, entries[j].0@);
                }
            }
        }
        text::lemma_text_less_irreflexive(name);
    }

    pub fn get(&self, name: &str) -> (r: Option<&V>)
        ensures
            match r {
                Some(v) => self@.dom().contains(name@) && *v == self@[name@],
                None => !self@.dom().contains(name@),
            },
    {
        proof {
            use_type_invariant(self);
        }
        let p: usize = self.position(name);
        if p < self.entries.len() && text::same_text(self.entries[p].0.as_str(), name) {
            proof {
                lemma_entry(self.entries@, p as int);
            }
            Some(&self.entries[p].1)
        } else {
            proof {
                Self::lemma_absent(self.entries@, p as int, name@);
            }
            None
        }
    }

    pub fn contains(&self, name: &str) -> (r: bool)
        ensures
            r == self@.dom().contains(name@),
    {
        self.get(name).is_some()
    }

    pub fn insert(&mut self, name: String, value: V)
        ensures
            final(self)@ == old(self)@.insert(name@, value),
    {
        proof {
            use_type_invariant(&*self);
        }
        let p: usize = self.position(name.as_str());
        let found: bool = p < self.entries.len() && text::same_text(
            self.entries[p].0.as_str(),
            name.as_str(),
        );
        let ghost before = self.entries@;
        let ghost key = name@;
        let mut entries: Vec<(String, V)> = Vec::new();
        std::mem::swap(&mut entries, &mut self.entries);
        if found {
            entries.set(p, (name, value));
            proof {
                let after = entries@;
                assert forall|i: int, j: int| 0 <= i < j < after.len() implies text::text_less(
                    #[trigger] after[i].0@,
                    #[trigger] after[j].0@,
                ) by {
                    assert(after[i].0@ == before[i].0@ && after[j].0@ == before[j].0@);
                }
                assert forall|i: int| 0 <= i < after.len() implies as_map(before).insert(
                    key,
                    value,
                ).dom().contains(#[trigger] after[i].0@) && as_map(before).insert(
                    key,
                    value,
                )[after[i].0@] == after[i].1 by {
                    assert(after[i].0@ == before[i].0@);
                    lemma_entry(before, i);
                    if i != p {
                        text::lemma_text_less_irreflexive(key);
                        assert(before[i].0@ != before[p as int].0@);
                    }
                }
                assert forall|k: Seq<char>| #[trigger] as_map(before).insert(
                    key,
                    value,
                ).dom().contains(k) implies holds(after, k) by {
                    if k == key {
                        assert(after[p as int].0@ == k);
                    } else {
                        let q = place(before, k);
                        assert(after[q].0@ == before[q].0@);
                    }
                }
                lemma_same_map(after, as_map(before).insert(key, value));
            }
        } else {
            proof {
                Self::lemma_absent(before, p as int, key);
            }
            entries.insert(p, (name, value));
            proof {
                let after = entries@;
                assert(after == before.insert(p as int, (name, value)));
                assert forall|i: int, j: int| 0 <= i < j < after.len() implies text::text_less(
                    #[trigger] after[i].0@,
                    #[trigger] after[j].0@,
                ) by {
                    let bi = if i < p { i } else { i - 1 };
                    let bj = if j < p { j } else { j - 1 };
                    if i != p {
                        assert(after[i] == before[bi]);
                    }
                    if j != p {
                        assert(after[j] == before[bj]);
                    }
                }
                let want = as_map(before).insert(key, value);
                assert forall|i: int| 0 <= i < after.len() implies want.dom().contains(
                    #[trigger] after[i].0@,
                ) && want[after[i].0@] == after[i].1 by {
                    if i != p {
                        let bi = if i < p { i } else { i - 1 };
                        assert(after[i] == before[bi]);
                        lemma_entry(before, bi);
                        assert(before[bi].0@ != key);
                    }
                }
                assert forall|k: Seq<char>| #[trigger] want.dom().contains(k) implies holds(
                    after,
                    k,
                ) by {
                    if k == key {
                        assert(after[p as int].0@ == k);
                    } else {
                        let q = place(before, k);
                        let aq = if q < p { q } else { q + 1 };
                        assert(after[aq].0@ == before[q].0@);
                    }
                }
                lemma_same_map(after, want);
            }
        }
        self.entries = entries;
    }

    pub fn remove(&mut self, name: &str) -> (r: Option<V>)
        ensures
            final(self)@ == old(self)@.remove(name@),
            match r {
                Some(v) => old(self)@.dom().contains(name@) && v == old(self)@[name@],
                None => !old(self)@.dom().contains(name@),
            },
    {
        proof {
            use_type_invariant(&*self);
        }
        let p: usize = self.position(name);
        let ghost before = self.entries@;
        if p < self.entries.len() && text::same_text(self.entries[p].0.as_str(), name) {
            let mut entries: Vec<(String, V)> = Vec::new();
            std::mem::swap(&mut entries, &mut self.entries);
            let removed: (String, V) = entries.remove(p);
            proof {
                lemma_entry(before, p as int);
                let after = entries@;
                assert(after == before.remove(p as int));
                assert forall|i: int, j: int| 0 <= i < j < after.len() implies text::text_less(
                    #[trigger] after[i].0@,
                    #[trigger] after[j].0@,
                ) by {
                    let bi = if i < p { i } else { i + 1 };
                    let bj = if j < p { j } else { j + 1 };
                    assert(after[i] == before[bi] && after[j] == before[bj]);
                }
                let want = as_map(before).remove(name@);
                assert forall|i: int| 0 <= i < after.len() implies want.dom().contains(
                    #[trigger] after[i].0@,
                ) && want[after[i].0@] == after[i].1 by {
                    let bi = if i < p { i } else { i + 1 };
                    assert(after[i] == before[bi]);
                    lemma_entry(before, bi);
                    text::lemma_text_less_irreflexive(name@);
                    assert(before[bi].0@ != before[p as int].0@);
                }
                assert forall|k: Seq<char>| #[trigger] want.dom().contains(k) implies holds(
                    after,
                    k,
                ) by {
                    let q = place(before, k);
                    let aq = if q < p { q } else { q - 1 };
                    assert(after[aq].0@ == before[q].0@);
                }
                lemma_same_map(after, want);
            }
            self.entries = entries;
            Some(removed.1)
        } else {
            proof {
                Self::lemma_absent(before, p as int, name@);
                assert(self@.remove(name@) =~= self@);
            }
            None
        }
    }
    /// Removes the names whose value `keep` refuses.
    pub fn retain<F: Fn(&V) -> bool>(&mut self, keep: F)
        requires
            forall|v: V| call_requires(keep, (&v,)),
        ensures
            forall|k: Seq<char>| #[trigger]
                final(self)@.dom().contains(k) ==> old(self)@.dom().contains(k) && final(self)@[k]
                    == old(self)@[k] && call_ensures(keep, (&old(self)@[k],), true),
            forall|k: Seq<char>|
                #[trigger] old(self)@.dom().contains(k) && !final(self)@.dom().contains(k)
                    ==> call_ensures(keep, (&old(self)@[k],), false),
    {
        let mut refused: Vec<String> = Vec::new();
        let len: usize = self.len();
        let ghost listed = self.names();
        let ghost before = self@;
        let mut i: usize = 0;
        while i < len
            invariant
                i <= len == listed.len(),
                listed == self.names(),
                before == self@,
                lists_names(listed, before),
                forall|v: V| call_requires(keep, (&v,)),
                forall|j: int|
                    0 <= j < i ==> text::texts(refused@).contains(#[trigger] listed[j])
                        || call_ensures(keep, (&before[listed[j]],), true),
                forall|j: int|
                    0 <= j < refused@.len() ==> before.dom().contains(
                        (#[trigger] refused@[j])@,
                    ) && call_ensures(keep, (&before[refused@[j]@],), false),
            decreases len - i,
        {
            let ghost seen = refused@;
            if !keep(self.value_at(i)) {
                refused.push(self.name_at(i).clone());
            }
            proof {
                let now = text::texts(refused@);
                assert forall|j: int| 0 <= j < i + 1 implies now.contains(#[trigger] listed[j])
                    || call_ensures(keep, (&before[listed[j]],), true) by {
                    if j < i && text::texts(seen).contains(listed[j]) {
                        let q = text::texts(seen).index_of(listed[j]);
                        assert(now[q] == listed[j]);
                    }
                    if j == i && refused@.len() > seen.len() {
                        assert(now[seen.len() as int] == listed[j]);
                    }
                }
            }
            i += 1;
        }
        let mut n: usize = 0;
        while n < refused.len()
            invariant
                n <= refused@.len(),
                before == old(self)@,
                forall|k: Seq<char>| #[trigger]
                    self@.dom().contains(k) <==> before.dom().contains(k) && !text::texts(
                        refused@.take(n as int),
                    ).contains(k),
                forall|k: Seq<char>| #[trigger]
                    self@.dom().contains(k) ==> self@[k] == before[k],
            decreases refused@.len() - n,
        {
            let ghost gone = text::texts(refused@.take(n as int));
            let ghost next = text::texts(refused@.take(n + 1));
            assert forall|k: Seq<char>| next.contains(k) <==> gone.contains(k) || k
                == refused@[n as int]@ by {
                if gone.contains(k) {
                    let q = gone.index_of(k);
                    assert(next[q] == k);
                }
                assert(next[n as int] == refused@[n as int]@);
                if next.contains(k) && k != refused@[n as int]@ {
                    let q = next.index_of(k);
                    assert(gone[q] == k);
                }
            }
            self.remove(refused[n].as_str());
            n += 1;
        }
        proof {
            assert(refused@.take(n as int) =~= refused@);
            let all = text::texts(refused@);
            assert forall|k: Seq<char>| #[trigger] self@.dom().contains(k) implies call_ensures(
                keep,
                (&before[k],),
                true,
            ) by {
                let j = listed.index_of(k);
                assert(listed[j] == k);
            }
            assert forall|k: Seq<char>|
                #[trigger] before.dom().contains(k) && !self@.dom().contains(k) implies call_ensures(
                keep,
                (&before[k],),
                false,
            ) by {
                let q = all.index_of(k);
                assert(refused@[q]@ == k);
            }
        }
    }
}

/// The names of a map are listed each once, each before those that are
/// greater, and no others.
pub proof fn law_each_name_is_listed_once<V>(
    names: Seq<Seq<char>>,
    map: Map<Seq<char>, V>,
    name: Seq<char>,
)
    requires
        lists_names(names, map),
    ensures
        names.contains(name) <==> map.dom().contains(name),
        forall|i: int, j: int|
            0 <= i < j < names.len() ==> (#[trigger] names[i]) != (#[trigger] names[j])
                && text::text_less(names[i], names[j]),
{
    assert forall|i: int, j: int| 0 <= i < j < names.len() implies (#[trigger] names[i]) != (
    #[trigger] names[j]) && text::text_less(names[i], names[j]) by {
        text::lemma_text_less_irreflexive(names[i]);
    }
}

} // verus!
