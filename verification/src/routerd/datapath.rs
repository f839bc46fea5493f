//! What the router tells its packet program, and what that counts.

use crate::common;
use crate::common::{COUNTER_SLOTS, CTR_TAGGED, CTR_UNTAGGED};
use crate::packet::ByteOrder;
use crate::steer;
use crate::steer::SteerCounter;
use crate::xdp;
use std::collections::{HashMap, HashSet};
use vstd::prelude::*;

verus! {

/// How many packets were and were not tagged.
#[derive(Debug, Clone, Copy, PartialEq, Eq, Structural)]
pub struct Counters {
    pub tagged: u64,
    pub untagged: u64,
}

impl Default for Counters {
    fn default() -> (c: Self)
        ensures
            c == (Counters { tagged: 0, untagged: 0 }),
    {
        Counters { tagged: 0, untagged: 0 }
    }
}

/// The sum of the counts of all processors.
pub open spec fn total_of(per_cpu: Seq<u64>) -> int
    decreases per_cpu.len(),
{
    if per_cpu.len() == 0 {
        0
    } else {
        total_of(per_cpu.drop_last()) + per_cpu.last()
    }
}

proof fn lemma_total_grows(per_cpu: Seq<u64>, n: int)
    requires
        0 <= n <= per_cpu.len(),
    ensures
        0 <= total_of(per_cpu.take(n)) <= total_of(per_cpu),
    decreases per_cpu.len(),
{
    if n == per_cpu.len() {
        assert(per_cpu.take(n) =~= per_cpu);
        if n > 0 {
            lemma_total_grows(per_cpu.drop_last(), n - 1);
            assert(per_cpu.drop_last().take(n - 1) =~= per_cpu.drop_last());
        }
    } else {
        lemma_total_grows(per_cpu.drop_last(), n);
        assert(per_cpu.drop_last().take(n) =~= per_cpu.take(n));
    }
}

/// Adds up the counts of all processors.
fn total(per_cpu: &Vec<u64>) -> (sum: u64)
    requires
        total_of(per_cpu@) <= u64::MAX,
    ensures
        sum == total_of(per_cpu@),
{
    let mut sum: u64 = 0;
    let mut i: usize = 0;
    while i < per_cpu.len()
        invariant
            i <= per_cpu@.len(),
            total_of(per_cpu@) <= u64::MAX,
            sum == total_of(per_cpu@.take(i as int)),
        decreases per_cpu@.len() - i,
    {
        assert(per_cpu@.take(i + 1).drop_last() =~= per_cpu@.take(i as int));
        proof {
            lemma_total_grows(per_cpu@, i + 1);
        }
        sum = sum + per_cpu[i];
        i += 1;
    }
    assert(per_cpu@.take(i as int) =~= per_cpu@);
    sum
}

/// Reads the counters out of the counts of all processors, slot by slot.
pub fn counters(slots: &Vec<Vec<u64>>) -> (c: Counters)
    requires
        slots@.len() == COUNTER_SLOTS,
        forall|i: int| 0 <= i < slots@.len() ==> total_of((#[trigger] slots@[i])@) <= u64::MAX,
    ensures
        c.tagged == total_of(slots@[CTR_TAGGED as int]@),
        c.untagged == total_of(slots@[CTR_UNTAGGED as int]@),
        c.tagged == total_of(slots@[0]@),
        c.untagged == total_of(slots@[1]@),
{
    assert(total_of(slots@[0]@) <= u64::MAX);
    assert(total_of(slots@[1]@) <= u64::MAX);
    Counters {
        tagged: total(&slots[CTR_TAGGED as usize]),
        untagged: total(&slots[CTR_UNTAGGED as usize]),
    }
}

/// How the table of identifiers has to change.
pub struct IdSync {
    pub removals: Vec<u8>,
    /// Each identifier and its mark.
    pub inserts: Vec<(u8, u32)>,
}

/// Plans how the table of identifiers comes to hold `ids` alone, each with
/// itself as its mark.
pub fn sync_ids(existing: &Vec<u8>, ids: &HashSet<u8>) -> (sync: IdSync)
    ensures
        sync.removals@ == existing@.filter(|id: u8| !ids@.contains(id)),
        forall|id: u8, mark: u32| #[trigger]
            sync.inserts@.contains((id, mark)) <==> ids@.contains(id) && mark == id as u32,
        forall|i: int, j: int|
            0 <= i < j < sync.inserts@.len() ==> (#[trigger] sync.inserts@[i]).0 < (
            #[trigger] sync.inserts@[j]).0,
{
    broadcast use vstd::std_specs::hash::group_hash_axioms;

    let mut removals: Vec<u8> = Vec::new();
    let mut i: usize = 0;
    let ghost unwanted = |id: u8| !ids@.contains(id);
    reveal(Seq::filter);
    assert(existing@.take(0).filter(unwanted) =~= Seq::<u8>::empty());
    while i < existing.len()
        invariant
            i <= existing@.len(),
            unwanted == (|id: u8| !ids@.contains(id)),
            removals@ == existing@.take(i as int).filter(unwanted),
        decreases existing@.len() - i,
    {
        let id: u8 = existing[i];
        assert(existing@.take(i + 1).drop_last() =~= existing@.take(i as int));
        reveal(Seq::filter);
        if !ids.contains(&id) {
            removals.push(id);
        }
        i += 1;
    }
    assert(existing@.take(i as int) =~= existing@);
    let mut inserts: Vec<(u8, u32)> = Vec::new();
    let mut next: u16 = 0;
    while next < 256
        invariant
            next <= 256,
            forall|id: u8, mark: u32| #[trigger]
                inserts@.contains((id, mark)) <==> ids@.contains(id) && mark == id as u32 && id
                    < next,
            forall|a: int, b: int|
                0 <= a < b < inserts@.len() ==> (#[trigger] inserts@[a]).0 < (
                #[trigger] inserts@[b]).0,
        decreases 256 - next,
    {
        let id: u8 = next as u8;
        let ghost before = inserts@;
        if ids.contains(&id) {
            inserts.push((id, id as u32));
            proof {
                assert forall|x: u8, mark: u32| #[trigger] inserts@.contains(
                    (x, mark),
                ) <==> before.contains((x, mark)) || (x == id && mark == id as u32) by {
                    if before.contains((x, mark)) {
                        let k = before.index_of((x, mark));
                        assert(inserts@[k] == (x, mark));
                    }
                    assert(inserts@[before.len() as int] == (id, id as u32));
                    if inserts@.contains((x, mark)) && !(x == id && mark == id as u32) {
                        let k = inserts@.index_of((x, mark));
                        assert(before[k] == (x, mark));
                    }
                }
                assert forall|a: int, b: int| 0 <= a < b < inserts@.len() implies (
                #[trigger] inserts@[a]).0 < (#[trigger] inserts@[b]).0 by {
                    if b == before.len() {
                        assert(before.contains((before[a].0, before[a].1)));
                    }
                }
            }
        }
        next += 1;
    }
    IdSync { removals, inserts }
}

/// The table once the planned removals and inserts were made.
pub open spec fn synced(table: Map<u8, u32>, removals: Seq<u8>, inserts: Seq<(u8, u32)>) -> Map<
    u8,
    u32,
>
    decreases removals.len() + inserts.len(),
{
    if inserts.len() > 0 {
        synced(table, removals, inserts.drop_last()).insert(inserts.last().0, inserts.last().1)
    } else if removals.len() > 0 {
        synced(table, removals.drop_last(), inserts).remove(removals.last())
    } else {
        table
    }
}

proof fn lemma_removed(table: Map<u8, u32>, removals: Seq<u8>, id: u8)
    ensures
        ({
            let after = synced(table, removals, Seq::empty());
            &&& after.dom().contains(id) <==> table.dom().contains(id) && !removals.contains(id)
            &&& after.dom().contains(id) ==> after[id] == table[id]
        }),
    decreases removals.len(),
{
    if removals.len() > 0 {
        let rest = removals.drop_last();
        lemma_removed(table, rest, id);
        if removals.contains(id) && id != removals.last() {
            let k = removals.index_of(id);
            assert(rest[k] == id);
        }
        if rest.contains(id) {
            let k = rest.index_of(id);
            assert(removals[k] == id);
        }
        assert(removals[removals.len() - 1] == removals.last());
    }
}

proof fn lemma_inserted(
    table: Map<u8, u32>,
    removals: Seq<u8>,
    inserts: Seq<(u8, u32)>,
    id: u8,
)
    requires
        forall|i: int| 0 <= i < inserts.len() ==> (#[trigger] inserts[i]).1 == inserts[i].0 as u32,
    ensures
        ({
            let after = synced(table, removals, inserts);
            let before = synced(table, removals, Seq::empty());
            if inserts.contains((id, id as u32)) {
                after.dom().contains(id) && after[id] == id as u32
            } else {
                after.dom().contains(id) == before.dom().contains(id) && (before.dom().contains(id)
                    ==> after[id] == before[id])
            }
        }),
    decreases inserts.len(),
{
    if inserts.len() > 0 {
        let rest = inserts.drop_last();
        assert forall|i: int| 0 <= i < rest.len() implies (#[trigger] rest[i]).1
            == rest[i].0 as u32 by {
            assert(inserts[i].1 == inserts[i].0 as u32);
        }
        lemma_inserted(table, removals, rest, id);
        assert(inserts[inserts.len() - 1].1 == inserts.last().0 as u32);
        if rest.contains((id, id as u32)) {
            let k = rest.index_of((id, id as u32));
            assert(inserts[k] == (id, id as u32));
        }
        if inserts.contains((id, id as u32)) && inserts.last().0 != id {
            let k = inserts.index_of((id, id as u32));
            assert(rest[k] == (id, id as u32));
        }
    } else {
        assert(inserts =~= Seq::<(u8, u32)>::empty());
    }
}

/// Once the planned changes are made, the table holds each wanted identifier
/// with itself as its mark, and nothing else.
pub proof fn law_synced_table_holds_the_ids(
    table: Map<u8, u32>,
    existing: Seq<u8>,
    ids: Set<u8>,
    removals: Seq<u8>,
    inserts: Seq<(u8, u32)>,
    id: u8,
)
    requires
        forall|x: u8| #[trigger] table.dom().contains(x) <==> existing.contains(x),
        removals == existing.filter(|x: u8| !ids.contains(x)),
        forall|x: u8, mark: u32| #[trigger]
            inserts.contains((x, mark)) <==> ids.contains(x) && mark == x as u32,
    ensures
        ({
            let after = synced(table, removals, inserts);
            &&& after.dom().contains(id) <==> ids.contains(id)
            &&& ids.contains(id) ==> after[id] == id as u32
        }),
{
    assert forall|i: int| 0 <= i < inserts.len() implies (#[trigger] inserts[i]).1
        == inserts[i].0 as u32 by {
        assert(inserts.contains((inserts[i].0, inserts[i].1)));
    }
    lemma_removed(table, removals, id);
    lemma_inserted(table, removals, inserts, id);
    assert(inserts.contains((id, id as u32)) <==> ids.contains(id));
    if !ids.contains(id) && existing.contains(id) {
        let unwanted = |x: u8| !ids.contains(x);
        let k = existing.index_of(id);
        existing.lemma_filter_contains(unwanted, k);
        assert(removals.contains(id));
    }
}

/// A packet that a daemon tagged gets the daemon's identifier as its mark on
/// every router that knows the identifier.
pub proof fn law_tagged_packets_get_their_mark(
    table: Map<u8, u32>,
    ids: Set<u8>,
    frame: Seq<u8>,
    id: u8,
    order: ByteOrder,
)
    requires
        ids.contains(id),
        1 <= id <= 63,
        forall|x: u8| #[trigger] ids.contains(x) ==> table.dom().contains(x) && table[x] == x as u32,
    ensures
        ({
            let tos = xdp::tagged_tos(frame, id);
            let dscp = (tos / 4) as u8;
            &&& table.dom().contains(dscp)
            &&& steer::steered(
                steer::ipv4_protocol(order),
                order,
                Some(tos),
                Some(table[dscp]),
            ) == (Some(id as u32), SteerCounter::Tagged)
        }),
{
    common::law_retagging_keeps_ecn(frame[15], id);
}

/// The source addresses in the mark table that have lost their mark.
pub fn stale_sources(existing: &Vec<u32>, marks: &HashMap<u32, u32>) -> (r: Vec<u32>)
    ensures
        r@ == existing@.filter(|src: u32| !marks@.dom().contains(src)),
{
    broadcast use vstd::std_specs::hash::group_hash_axioms;

    let mut r: Vec<u32> = Vec::new();
    let mut i: usize = 0;
    let ghost unwanted = |src: u32| !marks@.dom().contains(src);
    reveal(Seq::filter);
    assert(existing@.take(0).filter(unwanted) =~= Seq::<u32>::empty());
    while i < existing.len()
        invariant
            i <= existing@.len(),
            unwanted == (|src: u32| !marks@.dom().contains(src)),
            r@ == existing@.take(i as int).filter(unwanted),
        decreases existing@.len() - i,
    {
        let src: u32 = existing[i];
        assert(existing@.take(i + 1).drop_last() =~= existing@.take(i as int));
        reveal(Seq::filter);
        if !marks.contains_key(&src) {
            r.push(src);
        }
        i += 1;
    }
    assert(existing@.take(i as int) =~= existing@);
    r
}

/// The counts of all processors add up.
pub proof fn law_counts_add_up(first: Seq<u64>, second: Seq<u64>, one: u64)
    ensures
        total_of(first + second) == total_of(first) + total_of(second),
        total_of(seq![one]) == one,
    decreases second.len(),
{
    reveal_with_fuel(total_of, 2);
    assert(seq![one].drop_last() =~= Seq::<u64>::empty());
    if second.len() > 0 {
        law_counts_add_up(first, second.drop_last(), one);
        assert((first + second).drop_last() =~= first + second.drop_last());
        assert((first + second).last() == second.last());
    } else {
        assert(first + second =~= first);
    }
}

} // verus!
