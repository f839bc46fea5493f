//! Bringing the address pools of the cluster to what the hosts lease.

use crate::k8s::crd::{CiliumLoadBalancerIPPoolIPBlock, CiliumLoadBalancerIPPoolSpec};
use crate::names::NameMap;
use crate::net;
use crate::net::Ipv4Addr;
use crate::order;
use crate::text;
use crate::time;
use crate::time::UtcTime;
use std::collections::BTreeMap;
use vstd::prelude::*;

verus! {

/// The label that marks the pools of this controller, and its value.
pub const MANAGED_BY_LABEL: &'static str = "app.kubernetes.io/managed-by";

pub const MANAGED_BY_VALUE: &'static str = "dumbarp-k8s";

/// The annotation that holds a pool's address.
pub const IP_ANNOTATION: &'static str = "dumbarp.k8s/ip";

/// The annotation that holds when a pool's address was last seen leased.
pub const LAST_SEEN_ANNOTATION: &'static str = "dumbarp.k8s/last-seen-at";

/// A pool as the cluster lists it.
pub struct PoolItem {
    pub name: Option<String>,
    pub annotations: Option<NameMap<String>>,
}

/// A pool of this controller.
#[derive(Debug)]
pub struct ExistingPool {
    pub name: String,
    pub last_seen: Option<UtcTime>,
}

#[verifier::ext_equal]
pub struct ExistingPoolView {
    pub name: Seq<char>,
    pub last_seen: Option<UtcTime>,
}

impl View for ExistingPool {
    type V = ExistingPoolView;

    open spec fn view(&self) -> ExistingPoolView {
        ExistingPoolView { name: self.name@, last_seen: self.last_seen }
    }
}

/// The leased addresses, whether every host answered, and how many did not.
pub struct Desired {
    pub ips: Vec<u32>,
    pub all_hosts_ok: bool,
    pub errors: usize,
}

/// Whether a host that answered leases an address.
pub open spec fn leased(results: Seq<Option<Vec<Ipv4Addr>>>, bits: u32) -> bool {
    exists|i: int|
        0 <= i < results.len() && (#[trigger] results[i]) is Some && results[i].unwrap()@.contains(
            Ipv4Addr { bits },
        )
}

/// How many hosts did not answer.
pub open spec fn failures(results: Seq<Option<Vec<Ipv4Addr>>>) -> int
    decreases results.len(),
{
    if results.len() == 0 {
        0
    } else {
        failures(results.drop_last()) + if results.last() is None {
            1int
        } else {
            0
        }
    }
}

/// The hosts that did not answer are counted one by one: there are as many as
/// there are answers missing, and none exactly if every host answered.
pub proof fn law_failures_are_counted(results: Seq<Option<Vec<Ipv4Addr>>>)
    ensures
        failures(results) == results.filter(|r: Option<Vec<Ipv4Addr>>| r is None).len(),
        failures(results) == 0 <==> forall|i: int|
            0 <= i < results.len() ==> (#[trigger] results[i]) is Some,
    decreases results.len(),
{
    reveal(Seq::filter);
    if results.len() > 0 {
        let rest = results.drop_last();
        law_failures_are_counted(rest);
        assert(results.last() == results[results.len() - 1]);
        assert forall|i: int| 0 <= i < rest.len() implies rest[i] == #[trigger] results[i] by {}
        if forall|i: int| 0 <= i < results.len() ==> (#[trigger] results[i]) is Some {
            assert forall|i: int| 0 <= i < rest.len() implies (#[trigger] rest[i]) is Some by {
                assert(results[i] is Some);
            }
        }
        if failures(results) == 0 {
            assert forall|i: int| 0 <= i < results.len() implies (#[trigger] results[i]) is Some by {
                if i < rest.len() {
                    assert(rest[i] is Some);
                }
            }
        }
    }
}

/// Adds the addresses of one host to an ascending list.
fn note_ips(ips: &mut Vec<u32>, found: &Vec<Ipv4Addr>)
    requires
        order::ascending(old(ips)@),
    ensures
        order::ascending(final(ips)@),
        forall|n: u32|
            #![trigger final(ips)@.contains(n)]
            final(ips)@.contains(n) <==> old(ips)@.contains(n) || found@.contains(
                Ipv4Addr { bits: n },
            ),
{
    let mut i: usize = 0;
    while i < found.len()
        invariant
            i <= found@.len(),
            order::ascending(ips@),
            forall|n: u32|
                #![trigger ips@.contains(n)]
                ips@.contains(n) <==> old(ips)@.contains(n) || exists|k: int|
                    0 <= k < i && #[trigger] found@[k] == (Ipv4Addr { bits: n }),
        decreases found@.len() - i,
    {
        order::insert_ascending(ips, found[i].bits);
        i += 1;
    }
    proof {
        assert forall|n: u32| (exists|k: int|
            0 <= k < found@.len() && #[trigger] found@[k] == (Ipv4Addr { bits: n }))
            <==> #[trigger] found@.contains(Ipv4Addr { bits: n }) by {}
    }
}

/// Collects what the hosts lease, each address once, in ascending order.
pub fn collect_desired(results: &Vec<Option<Vec<Ipv4Addr>>>) -> (d: Desired)
    ensures
        order::ascending(d.ips@),
        forall|n: u32| #[trigger] d.ips@.contains(n) <==> leased(results@, n),
        d.errors == failures(results@),
        d.errors == results@.filter(|r: Option<Vec<Ipv4Addr>>| r is None).len(),
        d.all_hosts_ok == (d.errors == 0),
        d.all_hosts_ok <==> forall|i: int|
            0 <= i < results@.len() ==> (#[trigger] results@[i]) is Some,
        forall|i: int, j: int|
            #![trigger results@[i].unwrap()@[j]]
            0 <= i < results@.len() && results@[i] is Some && 0 <= j < results@[i].unwrap()@.len()
                ==> d.ips@.contains(results@[i].unwrap()@[j].bits),
        forall|k: int|
            0 <= k < d.ips@.len() ==> exists|i: int|
                0 <= i < results@.len() && (#[trigger] results@[i]) is Some
                    && results@[i].unwrap()@.contains(Ipv4Addr { bits: #[trigger] d.ips@[k] }),
{
    let mut ips: Vec<u32> = Vec::new();
    let mut errors: usize = 0;
    let mut i: usize = 0;
    while i < results.len()
        invariant
            i <= results@.len(),
            order::ascending(ips@),
            forall|n: u32| #[trigger]
                ips@.contains(n) <==> leased(results@.take(i as int), n),
            errors == failures(results@.take(i as int)),
            errors <= i,
        decreases results@.len() - i,
    {
        let ghost before = results@.take(i as int);
        let ghost after = results@.take(i + 1);
        assert(after.drop_last() =~= before);
        let ghost listed = ips@;
        match &results[i] {
            Some(found) => note_ips(&mut ips, found),
            None => {
                errors += 1;
            },
        }
        proof {
            assert forall|n: u32| #[trigger] ips@.contains(n) <==> leased(after, n) by {
                assert(listed.contains(n) <==> leased(before, n));
                if leased(before, n) {
                    let k = choose|k: int|
                        0 <= k < before.len() && (#[trigger] before[k]) is Some
                            && before[k].unwrap()@.contains(Ipv4Addr { bits: n });
                    assert(after[k] == before[k]);
                }
                if leased(after, n) {
                    let k = choose|k: int|
                        0 <= k < after.len() && (#[trigger] after[k]) is Some
                            && after[k].unwrap()@.contains(Ipv4Addr { bits: n });
                    if k < i {
                        assert(before[k] == after[k]);
                    }
                }
                assert(after[i as int] == results@[i as int]);
            }
        }
        i += 1;
    }
    assert(results@.take(i as int) =~= results@);
    proof {
        law_failures_are_counted(results@);
        assert forall|i: int, j: int|
            #![trigger results@[i].unwrap()@[j]]
            0 <= i < results@.len() && results@[i] is Some && 0 <= j < results@[i].unwrap()@.len()
                implies ips@.contains(results@[i].unwrap()@[j].bits) by {
            let ip = results@[i].unwrap()@[j];
            assert(ip == Ipv4Addr { bits: ip.bits });
            assert(results@[i].unwrap()@.contains(ip));
            assert(leased(results@, ip.bits));
        }
        assert forall|k: int| 0 <= k < ips@.len() implies exists|i: int|
            0 <= i < results@.len() && (#[trigger] results@[i]) is Some
                && results@[i].unwrap()@.contains(Ipv4Addr { bits: #[trigger] ips@[k] }) by {
            assert(ips@.contains(ips@[k]));
            assert(leased(results@, ips@[k]));
        }
    }
    Desired { ips, all_hosts_ok: errors == 0, errors }
}

/// The time that a text tells, if it tells one.
pub open spec fn time_told(s: Seq<char>) -> Option<UtcTime> {
    match time::rfc3339_time(s) {
        Some((secs, nanos)) => Some(UtcTime { secs, nanos }),
        None => None,
    }
}

/// The address and the pool that a listed pool stands for, if its annotations
/// name an address.
pub open spec fn pool_told(item: PoolItem) -> Option<(u32, ExistingPoolView)> {
    match item.annotations {
        Some(a) if a@.dom().contains(IP_ANNOTATION@) => match net::address_of(
            a@[IP_ANNOTATION@]@,
        ) {
            Some(ip) => Some(
                (
                    ip.bits,
                    ExistingPoolView {
                        name: match item.name {
                            Some(name) => name@,
                            None => Seq::empty(),
                        },
                        last_seen: if a@.dom().contains(LAST_SEEN_ANNOTATION@) {
                            time_told(a@[LAST_SEEN_ANNOTATION@]@)
                        } else {
                            None
                        },
                    },
                ),
            ),
            None => None,
        },
        _ => None,
    }
}

/// The pools by their address, the last one of an address counting.
pub open spec fn pools_told(items: Seq<PoolItem>) -> Map<u32, ExistingPoolView>
    decreases items.len(),
{
    if items.len() == 0 {
        Map::empty()
    } else {
        let before = pools_told(items.drop_last());
        match pool_told(items.last()) {
            Some((bits, pool)) => before.insert(bits, pool),
            None => before,
        }
    }
}

/// Reads one listed pool.
fn read_pool(item: &PoolItem) -> (r: Option<(u32, ExistingPool)>)
    ensures
        match r {
            Some((bits, pool)) => pool_told(*item) == Some((bits, pool@)),
            None => pool_told(*item) is None,
        },
{
    let annotations: &NameMap<String> = match &item.annotations {
        Some(a) => a,
        None => return None,
    };
    let raw_ip: &String = match annotations.get(IP_ANNOTATION) {
        Some(raw) => raw,
        None => return None,
    };
    let ip: Ipv4Addr = match Ipv4Addr::parse(raw_ip.as_str()) {
        Some(ip) => ip,
        None => return None,
    };
    let last_seen: Option<UtcTime> = match annotations.get(LAST_SEEN_ANNOTATION) {
        Some(raw) => UtcTime::parse_rfc3339(raw.as_str()),
        None => None,
    };
    let name: String = match &item.name {
        Some(name) => name.clone(),
        None => String::new(),
    };
    proof {
        assert(item.name is None ==> name@ =~= Seq::<char>::empty());
    }
    Some((ip.bits, ExistingPool { name, last_seen }))
}

/// The views of the pools.
pub open spec fn pool_views(pools: Map<u32, ExistingPool>) -> Map<u32, ExistingPoolView> {
    pools.map_values(|p: ExistingPool| p@)
}

/// Reads the listed pools of this controller; those without a readable
/// address are skipped.
pub fn list_current(items: &Vec<PoolItem>) -> (pools: BTreeMap<u32, ExistingPool>)
    ensures
        pool_views(pools@) == pools_told(items@),
{
    broadcast use vstd::std_specs::btree::group_btree_axioms;

    let mut pools: BTreeMap<u32, ExistingPool> = BTreeMap::new();
    let mut i: usize = 0;
    assert(pool_views(pools@) =~= Map::<u32, ExistingPoolView>::empty());
    while i < items.len()
        invariant
            i <= items@.len(),
            pool_views(pools@) == pools_told(items@.take(i as int)),
        decreases items@.len() - i,
    {
        assert(items@.take(i + 1).drop_last() =~= items@.take(i as int));
        let ghost before = pools@;
        if let Some((bits, pool)) = read_pool(&items[i]) {
            let ghost said = pool@;
            pools.insert(bits, pool);
            assert(pool_views(pools@) =~= pool_views(before).insert(bits, said));
        }
        i += 1;
    }
    assert(items@.take(i as int) =~= items@);
    pools
}

/// One change of the cluster.
#[derive(Debug)]
pub enum PoolAction {
    Create(Ipv4Addr),
    Touch(Ipv4Addr),
    Delete(String),
}

#[verifier::ext_equal]
pub enum PoolActionView {
    Create(Ipv4Addr),
    Touch(Ipv4Addr),
    Delete(Seq<char>),
}

impl View for PoolAction {
    type V = PoolActionView;

    open spec fn view(&self) -> PoolActionView {
        match self {
            PoolAction::Create(ip) => PoolActionView::Create(*ip),
            PoolAction::Touch(ip) => PoolActionView::Touch(*ip),
            PoolAction::Delete(name) => PoolActionView::Delete(name@),
        }
    }
}

pub open spec fn action_views(actions: Seq<PoolAction>) -> Seq<PoolActionView> {
    actions.map_values(|a: PoolAction| a@)
}

/// What happens for a leased address: its pool is created, or touched if it
/// exists.
pub open spec fn upkeep(bits: u32, current: Map<u32, ExistingPoolView>) -> PoolActionView {
    if current.dom().contains(bits) {
        PoolActionView::Touch(Ipv4Addr { bits })
    } else {
        PoolActionView::Create(Ipv4Addr { bits })
    }
}

/// Whether a pool without a lease goes: always if every host answered, and
/// otherwise if it was not seen since the threshold or never.
pub open spec fn prunes(pool: ExistingPoolView, all_hosts_ok: bool, threshold: UtcTime) -> bool {
    all_hosts_ok || match pool.last_seen {
        Some(seen) => seen.precedes(threshold),
        None => true,
    }
}

/// The deletions of pools without a lease, in the order of the addresses.
pub open spec fn deletions(
    keys: Seq<u32>,
    current: Map<u32, ExistingPoolView>,
    desired: Seq<u32>,
    all_hosts_ok: bool,
    threshold: UtcTime,
) -> Seq<PoolActionView>
    decreases keys.len(),
{
    if keys.len() == 0 {
        Seq::empty()
    } else {
        let k = keys.last();
        let before = deletions(keys.drop_last(), current, desired, all_hosts_ok, threshold);
        if !desired.contains(k) && prunes(current[k], all_hosts_ok, threshold) {
            before.push(PoolActionView::Delete(current[k].name))
        } else {
            before
        }
    }
}

/// The changes of a pass, and how many there are of each sort.
pub struct PoolPlan {
    pub actions: Vec<PoolAction>,
    pub added: usize,
    pub touched: usize,
    pub removed: usize,
    pub kept: usize,
}

/// Whether an ascending list holds a number.
fn holds(list: &Vec<u32>, n: u32) -> (r: bool)
    ensures
        r == list@.contains(n),
{
    let mut i: usize = 0;
    while i < list.len()
        invariant
            i <= list@.len(),
            forall|k: int| 0 <= k < i ==> list@[k] != n,
        decreases list@.len() - i,
    {
        if list[i] == n {
            assert(list@[i as int] == n);
            return true;
        }
        i += 1;
    }
    false
}

/// Plans a pass: first the leased addresses in ascending order, then the pools
/// without a lease.
pub fn plan_pools(
    desired: &Desired,
    current: &BTreeMap<u32, ExistingPool>,
    threshold: UtcTime,
) -> (plan: PoolPlan)
    ensures
        ({
            let pools = pool_views(current@);
            let keys = order::keys_of(current@);
            let ups = desired.ips@.map_values(|n: u32| upkeep(n, pools));
            let gone = deletions(
                keys,
                pools,
                desired.ips@,
                desired.all_hosts_ok,
                threshold,
            );
            &&& order::lists_keys(keys, current@)
            &&& action_views(plan.actions@) == ups + gone
            &&& plan.added + plan.touched == desired.ips@.len()
            &&& plan.touched == desired.ips@.filter(|n: u32| pools.dom().contains(n)).len()
            &&& plan.removed == gone.len()
            &&& plan.kept == keys.filter(|n: u32| !desired.ips@.contains(n)).len() - gone.len()
        }),
{
    broadcast use vstd::std_specs::btree::group_btree_axioms;

    let ghost pools = pool_views(current@);
    let ghost wanted = desired.ips@;
    let ghost known = |n: u32| pools.dom().contains(n);
    let ghost idle = |n: u32| !wanted.contains(n);
    let ghost lift = |n: u32| upkeep(n, pools);
    let mut actions: Vec<PoolAction> = Vec::new();
    let mut added: usize = 0;
    let mut touched: usize = 0;
    let mut i: usize = 0;
    let len: usize = desired.ips.len();
    proof {
        reveal(Seq::filter);
        assert(wanted.take(0).filter(known) =~= Seq::<u32>::empty());
        assert(action_views(actions@) =~= wanted.take(0).map_values(lift));
    }
    while i < len
        invariant
            i <= len == wanted.len(),
            wanted == desired.ips@,
            pools == pool_views(current@),
            known == (|n: u32| pools.dom().contains(n)),
            lift == (|n: u32| upkeep(n, pools)),
            action_views(actions@) == wanted.take(i as int).map_values(lift),
            added + touched == i,
            touched == wanted.take(i as int).filter(known).len(),
        decreases len - i,
    {
        let bits: u32 = desired.ips[i];
        let ghost before = actions@;
        assert(wanted.take(i + 1).drop_last() =~= wanted.take(i as int));
        assert(wanted.take(i + 1).last() == bits);
        if current.get(&bits).is_some() {
            actions.push(PoolAction::Touch(Ipv4Addr { bits }));
            touched += 1;
        } else {
            actions.push(PoolAction::Create(Ipv4Addr { bits }));
            added += 1;
        }
        proof {
            reveal(Seq::filter);
            assert(action_views(actions@) =~= action_views(before).push(lift(bits)));
            assert(wanted.take(i + 1).map_values(lift) =~= wanted.take(i as int).map_values(
                lift,
            ).push(lift(bits)));
        }
        i += 1;
    }
    assert(wanted.take(i as int) =~= wanted);
    let ghost ups = wanted.map_values(lift);
    let addresses: Vec<u32> = order::ascending_keys(current);
    let n: usize = addresses.len();
    let ghost keys = addresses@;
    let mut removed: usize = 0;
    let mut kept: usize = 0;
    let mut j: usize = 0;
    proof {
        reveal(Seq::filter);
        assert(keys.take(0).filter(idle) =~= Seq::<u32>::empty());
        assert(action_views(actions@) =~= ups + Seq::<PoolActionView>::empty());
    }
    while j < n
        invariant
            j <= n == keys.len(),
            keys == addresses@,
            order::lists_keys(keys, current@),
            wanted == desired.ips@,
            pools == pool_views(current@),
            idle == (|n: u32| !wanted.contains(n)),
            action_views(actions@) == ups + deletions(
                keys.take(j as int),
                pools,
                wanted,
                desired.all_hosts_ok,
                threshold,
            ),
            removed == deletions(
                keys.take(j as int),
                pools,
                wanted,
                desired.all_hosts_ok,
                threshold,
            ).len(),
            removed + kept == keys.take(j as int).filter(idle).len(),
            removed + kept <= j,
        decreases n - j,
    {
        let bits: u32 = addresses[j];
        assert(keys.contains(bits));
        let pool: &ExistingPool = current.get(&bits).unwrap();
        let ghost before = actions@;
        assert(keys.take(j + 1).drop_last() =~= keys.take(j as int));
        assert(keys.take(j + 1).last() == bits);
        assert(pools[bits] == pool@);
        proof {
            reveal(Seq::filter);
        }
        if !holds(&desired.ips, bits) {
            let prune: bool = if desired.all_hosts_ok {
                true
            } else {
                match pool.last_seen {
                    Some(seen) => seen.before(&threshold),
                    None => true,
                }
            };
            if prune {
                actions.push(PoolAction::Delete(pool.name.clone()));
                proof {
                    let gone = deletions(
                        keys.take(j as int),
                        pools,
                        wanted,
                        desired.all_hosts_ok,
                        threshold,
                    );
                    let act = PoolActionView::Delete(pool.name@);
                    assert(action_views(actions@) =~= action_views(before).push(act));
                    assert(ups + gone.push(act) =~= (ups + gone).push(act));
                }
                removed += 1;
            } else {
                kept += 1;
            }
        }
        j += 1;
    }
    assert(keys.take(j as int) =~= keys);
    PoolPlan { actions, added, touched, removed, kept }
}

/// The seconds of a number of 64 bits taken as signed.
pub open spec fn signed_secs(n: u64) -> int {
    if n < 0x8000_0000_0000_0000 {
        n as int
    } else {
        n - 0x1_0000_0000_0000_0000
    }
}

/// Whether a point that lies so many seconds before `now` can be told: a span
/// has at most as many milliseconds as fit in 64 bits, and the calendar has to
/// have the point.
pub open spec fn threshold_exists(now: UtcTime, stale_after_secs: u64) -> bool {
    let d = signed_secs(stale_after_secs);
    -9223372036854775 <= d <= 9223372036854775 && time::MIN_SECS <= now.secs - d
        <= time::MAX_SECS
}

/// The point before which a pool was last seen too long ago.
pub fn stale_threshold(now: UtcTime, stale_after_secs: u64) -> (t: UtcTime)
    requires
        threshold_exists(now, stale_after_secs),
    ensures
        t.secs == now.secs - signed_secs(stale_after_secs),
        t.nanos == now.nanos,
{
    let d: i64 = stale_after_secs as i64;
    assert(d == if stale_after_secs < 0x8000_0000_0000_0000 {
        stale_after_secs as int
    } else {
        stale_after_secs - 0x1_0000_0000_0000_0000
    }) by (bit_vector)
        requires
            d == stale_after_secs as i64,
    ;
    UtcTime { secs: now.secs - d, nanos: now.nanos }
}

/// The name of an address's pool.
pub open spec fn pool_name_of(ip: Ipv4Addr) -> Seq<char> {
    "dumbarp-"@ + net::joined_octets(ip, '-')
}

pub fn pool_name(ip: Ipv4Addr) -> (s: String)
    ensures
        s@ == pool_name_of(ip),
{
    let mut s: String = String::new();
    text::append(&mut s, "dumbarp-");
    let octets: String = ip.to_text_with('-');
    text::append(&mut s, octets.as_str());
    assert(s@ =~= pool_name_of(ip));
    s
}

/// A pool to create.
pub struct Pool {
    pub name: String,
    pub labels: NameMap<String>,
    pub annotations: NameMap<String>,
    pub spec: CiliumLoadBalancerIPPoolSpec,
}

/// Makes the pool of an address that is leased `now`.
pub fn build_pool(ip: Ipv4Addr, now: UtcTime) -> (pool: Pool)
    requires
        now.on_calendar(),
    ensures
        pool.name@ == pool_name_of(ip),
        pool.labels@.dom() == set![MANAGED_BY_LABEL@],
        pool.labels@[MANAGED_BY_LABEL@]@ == MANAGED_BY_VALUE@,
        pool.annotations@.dom() == set![IP_ANNOTATION@, LAST_SEEN_ANNOTATION@],
        pool.annotations@[IP_ANNOTATION@]@ == ip.text(),
        pool.annotations@[LAST_SEEN_ANNOTATION@]@ == time::rfc3339_text(now.secs, now.nanos),
        -62167219200 <= now.secs <= 253402300799 ==> time::rfc3339_time(
            pool.annotations@[LAST_SEEN_ANNOTATION@]@,
        ) == Some((now.secs, now.nanos)),
        pool.spec.blocks@.len() == 1,
        pool.spec.blocks@[0].cidr is Some,
        pool.spec.blocks@[0].cidr.unwrap()@ == ip.text() + "/32"@,
{
    let mut labels: NameMap<String> = NameMap::new();
    labels.insert(MANAGED_BY_LABEL.to_string(), MANAGED_BY_VALUE.to_string());
    let mut annotations: NameMap<String> = NameMap::new();
    annotations.insert(IP_ANNOTATION.to_string(), ip.to_text());
    annotations.insert(LAST_SEEN_ANNOTATION.to_string(), now.to_rfc3339());
    let mut cidr: String = ip.to_text();
    text::append(&mut cidr, "/32");
    let mut blocks: Vec<CiliumLoadBalancerIPPoolIPBlock> = Vec::new();
    blocks.push(CiliumLoadBalancerIPPoolIPBlock { cidr: Some(cidr) });
    proof {
        lemma_annotations_differ();
        assert(labels@.dom() =~= set![MANAGED_BY_LABEL@]);
        assert(annotations@.dom() =~= set![IP_ANNOTATION@, LAST_SEEN_ANNOTATION@]);
    }
    Pool {
        name: pool_name(ip),
        labels,
        annotations,
        spec: CiliumLoadBalancerIPPoolSpec { blocks },
    }
}

proof fn lemma_annotations_differ()
    ensures
        IP_ANNOTATION@ != LAST_SEEN_ANNOTATION@,
{
    reveal_strlit("dumbarp.k8s/ip");
    reveal_strlit("dumbarp.k8s/last-seen-at");
    assert(IP_ANNOTATION@.len() != LAST_SEEN_ANNOTATION@.len());
}

/// The annotations that touching a pool sets.
pub fn touch_annotations(now: UtcTime) -> (annotations: NameMap<String>)
    requires
        now.on_calendar(),
    ensures
        annotations@.dom() == set![LAST_SEEN_ANNOTATION@],
        annotations@[LAST_SEEN_ANNOTATION@]@ == time::rfc3339_text(now.secs, now.nanos),
{
    let mut annotations: NameMap<String> = NameMap::new();
    annotations.insert(LAST_SEEN_ANNOTATION.to_string(), now.to_rfc3339());
    assert(annotations@.dom() =~= set![LAST_SEEN_ANNOTATION@]);
    annotations
}

/// The selector that lists the pools of this controller.
pub fn managed_selector() -> (s: String)
    ensures
        s@ == MANAGED_BY_LABEL@ + "="@ + MANAGED_BY_VALUE@,
{
    let mut s: String = String::new();
    text::append(&mut s, MANAGED_BY_LABEL);
    text::append(&mut s, "=");
    text::append(&mut s, MANAGED_BY_VALUE);
    assert(s@ =~= MANAGED_BY_LABEL@ + "="@ + MANAGED_BY_VALUE@);
    s
}

/// What a request to the cluster comes to.
#[derive(Debug, Clone, Copy, PartialEq, Eq, Structural)]
pub enum Verdict {
    Done,
    /// The pool exists: touch it.
    Touch,
    Fail,
}

/// What creating a pool comes to; `error` is the status of the cluster's
/// refusal, or none where the request itself failed.
pub fn create_pool(refused: bool, error: Option<u16>) -> (v: Verdict)
    ensures
        v == if !refused {
            Verdict::Done
        } else if error == Some(409u16) {
            Verdict::Touch
        } else {
            Verdict::Fail
        },
{
    if !refused {
        Verdict::Done
    } else {
        match error {
            Some(409) => Verdict::Touch,
            _ => Verdict::Fail,
        }
    }
}

/// What deleting a pool comes to: a pool that is gone already counts as
/// deleted.
pub fn delete_pool(refused: bool, error: Option<u16>) -> (v: Verdict)
    ensures
        v == if !refused || error == Some(404u16) {
            Verdict::Done
        } else {
            Verdict::Fail
        },
{
    if !refused {
        Verdict::Done
    } else {
        match error {
            Some(404) => Verdict::Done,
            _ => Verdict::Fail,
        }
    }
}

/// Reading a pool that was made for an address at a time in the years 0 to
/// 9999 gives the address, the pool's name and the time back.
pub proof fn law_built_pool_is_recognised(item: PoolItem, ip: Ipv4Addr, now: UtcTime)
    requires
        item.name is Some,
        item.name.unwrap()@ == pool_name_of(ip),
        item.annotations is Some,
        item.annotations.unwrap()@.dom() == set![IP_ANNOTATION@, LAST_SEEN_ANNOTATION@],
        item.annotations.unwrap()@[IP_ANNOTATION@]@ == ip.text(),
        time::rfc3339_time(item.annotations.unwrap()@[LAST_SEEN_ANNOTATION@]@) == Some(
            (now.secs, now.nanos),
        ),
    ensures
        pool_told(item) == Some(
            (ip.bits, ExistingPoolView { name: pool_name_of(ip), last_seen: Some(now) }),
        ),
{
    net::law_text_reads_back(ip);
}

/// A pool is deleted exactly if its address is not leased and it prunes; in
/// particular the pool of a leased address never is.
pub proof fn law_only_idle_pools_are_deleted(
    keys: Seq<u32>,
    current: Map<u32, ExistingPoolView>,
    desired: Seq<u32>,
    all_hosts_ok: bool,
    threshold: UtcTime,
    name: Seq<char>,
)
    ensures
        deletions(keys, current, desired, all_hosts_ok, threshold).contains(
            PoolActionView::Delete(name),
        ) <==> exists|i: int|
            0 <= i < keys.len() && current[#[trigger] keys[i]].name == name && !desired.contains(
                keys[i],
            ) && prunes(current[keys[i]], all_hosts_ok, threshold),
    decreases keys.len(),
{
    if keys.len() > 0 {
        let rest = keys.drop_last();
        let all = deletions(keys, current, desired, all_hosts_ok, threshold);
        let before = deletions(rest, current, desired, all_hosts_ok, threshold);
        let last = keys.len() - 1;
        let act = PoolActionView::Delete(name);
        law_only_idle_pools_are_deleted(rest, current, desired, all_hosts_ok, threshold, name);
        if before.contains(act) {
            let k = before.index_of(act);
            assert(all[k] == act);
            let i = choose|i: int|
                0 <= i < rest.len() && current[#[trigger] rest[i]].name == name
                    && !desired.contains(rest[i]) && prunes(
                    current[rest[i]],
                    all_hosts_ok,
                    threshold,
                );
            assert(keys[i] == rest[i]);
        }
        if all.contains(act) && !before.contains(act) {
            let k = all.index_of(act);
            if k < before.len() {
                assert(before[k] == act);
            }
            assert(keys[last] == keys.last());
        }
        if exists|i: int|
            0 <= i < keys.len() && current[#[trigger] keys[i]].name == name && !desired.contains(
                keys[i],
            ) && prunes(current[keys[i]], all_hosts_ok, threshold) {
            let i = choose|i: int|
                0 <= i < keys.len() && current[#[trigger] keys[i]].name == name
                    && !desired.contains(keys[i]) && prunes(
                    current[keys[i]],
                    all_hosts_ok,
                    threshold,
                );
            if i < last {
                assert(rest[i] == keys[i]);
            } else {
                assert(all[before.len() as int] == act);
            }
        }
    }
}

/// Where every host answered and no two pools share a name, the pools that
/// are left or made are those of the leased addresses.
pub proof fn law_healthy_pass_mirrors_the_leases(
    keys: Seq<u32>,
    current: Map<u32, ExistingPoolView>,
    desired: Seq<u32>,
    threshold: UtcTime,
    bits: u32,
)
    requires
        order::lists_keys(keys, current),
        forall|a: u32, b: u32|
            #![trigger current[a], current[b]]
            current.dom().contains(a) && current.dom().contains(b) && a != b ==> current[a].name
                != current[b].name,
    ensures
        ({
            let ups = desired.map_values(|n: u32| upkeep(n, current));
            let gone = deletions(keys, current, desired, true, threshold);
            let made = ups.contains(PoolActionView::Create(Ipv4Addr { bits }));
            let left = current.dom().contains(bits) && !gone.contains(
                PoolActionView::Delete(current[bits].name),
            );
            made || left <==> desired.contains(bits)
        }),
{
    let ups = desired.map_values(|n: u32| upkeep(n, current));
    let act = PoolActionView::Create(Ipv4Addr { bits });
    if ups.contains(act) {
        let i = ups.index_of(act);
        assert(ups[i] == upkeep(desired[i], current));
        assert(desired[i] == bits);
    }
    if desired.contains(bits) && !current.dom().contains(bits) {
        let i = desired.index_of(bits);
        assert(ups[i] == act);
    }
    if current.dom().contains(bits) {
        law_only_idle_pools_are_deleted(
            keys,
            current,
            desired,
            true,
            threshold,
            current[bits].name,
        );
        let k = keys.index_of(bits);
        assert(keys[k] == bits);
        if desired.contains(bits) {
            assert forall|i: int|
                0 <= i < keys.len() && current[#[trigger] keys[i]].name
                    == current[bits].name implies desired.contains(keys[i]) by {
                assert(keys.contains(keys[i]));
                assert(current.dom().contains(keys[i]));
            }
        }
    }
}

/// Pools of different addresses have different names.
pub proof fn law_pool_names_tell_addresses_apart(x: Ipv4Addr, y: Ipv4Addr)
    requires
        pool_name_of(x) == pool_name_of(y),
    ensures
        x == y,
{
    let n = "dumbarp-"@.len() as int;
    assert(net::joined_octets(x, '-') =~= pool_name_of(x).skip(n));
    assert(net::joined_octets(y, '-') =~= pool_name_of(y).skip(n));
    net::law_octets_tell_addresses_apart(x, y, '-');
}

/// A listed pool counts exactly if its annotation `dumbarp.k8s/ip` writes an
/// address. It is then the pool of that address, under its name, last seen
/// when its annotation `dumbarp.k8s/last-seen-at` says, if that tells a time.
pub proof fn law_pools_are_told_by_their_annotations(item: PoolItem)
    ensures
        pool_told(item) is Some <==> {
            &&& item.annotations is Some
            &&& item.annotations.unwrap()@.dom().contains("dumbarp.k8s/ip"@)
            &&& exists|ip: Ipv4Addr|
                item.annotations.unwrap()@["dumbarp.k8s/ip"@]@ == #[trigger] ip.text()
        },
        pool_told(item) is Some ==> ({
            let (bits, pool) = pool_told(item).unwrap();
            let a = item.annotations.unwrap()@;
            let seen = "dumbarp.k8s/last-seen-at"@;
            &&& a["dumbarp.k8s/ip"@]@ == (Ipv4Addr { bits }).text()
            &&& item.name is Some ==> pool.name == item.name.unwrap()@
            &&& item.name is None ==> pool.name.len() == 0
            &&& a.dom().contains(seen) && time::rfc3339_time(a[seen]@) is Some
                ==> pool.last_seen is Some && (
            pool.last_seen.unwrap().secs,
            pool.last_seen.unwrap().nanos,
            ) == time::rfc3339_time(a[seen]@).unwrap()
            &&& !(a.dom().contains(seen) && time::rfc3339_time(a[seen]@) is Some)
                ==> pool.last_seen is None
        }),
{
    if item.annotations is Some && item.annotations.unwrap()@.dom().contains("dumbarp.k8s/ip"@) {
        let s = item.annotations.unwrap()@["dumbarp.k8s/ip"@]@;
        if exists|ip: Ipv4Addr| s == #[trigger] ip.text() {
            let ip = choose|ip: Ipv4Addr| s == #[trigger] ip.text();
            net::law_only_written_addresses_are_read(s, ip);
        }
        if let Some(ip) = net::address_of(s) {
            net::law_only_written_addresses_are_read(s, ip);
            assert(ip == Ipv4Addr { bits: ip.bits });
        }
    }
}

/// Every listed pool that counts is known by its address, the last one of an
/// address counting, and no other pool is.
pub proof fn law_last_pool_of_an_address_counts(items: Seq<PoolItem>, bits: u32)
    ensures
        if pools_told(items).dom().contains(bits) {
            exists|i: int|
                0 <= i < items.len() && pool_told(#[trigger] items[i]) == Some(
                    (bits, pools_told(items)[bits]),
                ) && forall|j: int|
                    i < j < items.len() ==> !stands_for(#[trigger] items[j], bits)
        } else {
            forall|i: int| 0 <= i < items.len() ==> !stands_for(#[trigger] items[i], bits)
        },
    decreases items.len(),
{
    if items.len() > 0 {
        let rest = items.drop_last();
        let last = items.len() - 1;
        law_last_pool_of_an_address_counts(rest, bits);
        assert(items[last] == items.last());
        assert forall|i: int| 0 <= i < last implies #[trigger] items[i] == rest[i] by {}
        if !stands_for(items.last(), bits) {
            if pools_told(rest).dom().contains(bits) {
                let i = choose|i: int|
                    0 <= i < rest.len() && pool_told(#[trigger] rest[i]) == Some(
                        (bits, pools_told(rest)[bits]),
                    ) && forall|j: int|
                        i < j < rest.len() ==> !stands_for(#[trigger] rest[j], bits);
                assert(items[i] == rest[i]);
                assert forall|j: int| i < j < items.len() implies !stands_for(
                    #[trigger] items[j],
                    bits,
                ) by {
                    if j < last {
                        assert(!stands_for(rest[j], bits));
                    }
                }
            } else {
                assert forall|i: int| 0 <= i < items.len() implies !stands_for(
                    #[trigger] items[i],
                    bits,
                ) by {
                    if i < last {
                        assert(!stands_for(rest[i], bits));
                    }
                }
            }
        }
    }
}

/// Whether a listed pool is the pool of an address.
pub open spec fn stands_for(item: PoolItem, bits: u32) -> bool {
    pool_told(item) is Some && pool_told(item).unwrap().0 == bits
}

/// A leased address without a pool gets one, and the pool of another one is
/// touched. A pool without a lease goes if every host answered, if it was
/// never seen, or if it was last seen before the threshold; otherwise it
/// stays.
pub proof fn law_pools_follow_the_leases(
    bits: u32,
    current: Map<u32, ExistingPoolView>,
    pool: ExistingPoolView,
    all_hosts_ok: bool,
    threshold: UtcTime,
)
    ensures
        current.dom().contains(bits) ==> upkeep(bits, current) == PoolActionView::Touch(
            Ipv4Addr { bits },
        ),
        !current.dom().contains(bits) ==> upkeep(bits, current) == PoolActionView::Create(
            Ipv4Addr { bits },
        ),
        prunes(pool, all_hosts_ok, threshold) <==> {
            ||| all_hosts_ok
            ||| pool.last_seen is None
            ||| pool.last_seen.unwrap().secs < threshold.secs
            ||| pool.last_seen.unwrap().secs == threshold.secs && pool.last_seen.unwrap().nanos
                < threshold.nanos
        },
{
}

/// Each pool is looked at once, in order, and each that goes is deleted by
/// its name.
pub proof fn law_every_idle_pool_is_looked_at(
    first: Seq<u32>,
    second: Seq<u32>,
    one: u32,
    current: Map<u32, ExistingPoolView>,
    desired: Seq<u32>,
    all_hosts_ok: bool,
    threshold: UtcTime,
)
    ensures
        deletions(first + second, current, desired, all_hosts_ok, threshold) == deletions(
            first,
            current,
            desired,
            all_hosts_ok,
            threshold,
        ) + deletions(second, current, desired, all_hosts_ok, threshold),
        deletions(seq![one], current, desired, all_hosts_ok, threshold) == if desired.contains(one)
            || !(all_hosts_ok || current[one].last_seen is None
            || current[one].last_seen.unwrap().precedes(threshold)) {
            Seq::empty()
        } else {
            seq![PoolActionView::Delete(current[one].name)]
        },
    decreases second.len(),
{
    reveal_with_fuel(deletions, 2);
    assert(seq![one].drop_last() =~= Seq::<u32>::empty());
    let alone = deletions(seq![one], current, desired, all_hosts_ok, threshold);
    if alone.len() > 0 {
        assert(alone =~= seq![PoolActionView::Delete(current[one].name)]);
    }
    let a = deletions(first, current, desired, all_hosts_ok, threshold);
    let b = deletions(second, current, desired, all_hosts_ok, threshold);
    if second.len() > 0 {
        law_every_idle_pool_is_looked_at(
            first,
            second.drop_last(),
            one,
            current,
            desired,
            all_hosts_ok,
            threshold,
        );
        assert((first + second).drop_last() =~= first + second.drop_last());
        assert((first + second).last() == second.last());
        assert(deletions(first + second, current, desired, all_hosts_ok, threshold) =~= a + b);
    } else {
        assert(first + second =~= first);
        assert(a + b =~= a);
    }
}

/// A span of up to 9223372036854775 seconds is taken as it is, and has a
/// threshold wherever the calendar reaches that far back.
pub proof fn law_thresholds_lie_in_the_past(now: UtcTime, stale_after_secs: u64)
    requires
        stale_after_secs <= 9223372036854775,
        -8334601228800 <= now.secs - stale_after_secs,
        now.secs <= 8210266876799,
    ensures
        signed_secs(stale_after_secs) == stale_after_secs,
        threshold_exists(now, stale_after_secs),
{
}

/// A pool's name is `dumbarp-` and the four octets with hyphens between them,
/// and labels and annotations have fixed names.
pub proof fn law_pools_are_named_after_their_address(ip: Ipv4Addr)
    ensures
        pool_name_of(ip) == "dumbarp-"@ + net::octet_text(ip.bits as int / 16777216) + seq!['-']
            + net::octet_text(ip.bits as int / 65536 % 256) + seq!['-'] + net::octet_text(
            ip.bits as int / 256 % 256,
        ) + seq!['-'] + net::octet_text(ip.bits as int % 256),
        MANAGED_BY_LABEL@ == "app.kubernetes.io/managed-by"@,
        MANAGED_BY_VALUE@ == "dumbarp-k8s"@,
        IP_ANNOTATION@ == "dumbarp.k8s/ip"@,
        LAST_SEEN_ANNOTATION@ == "dumbarp.k8s/last-seen-at"@,
{
    assert(pool_name_of(ip) =~= "dumbarp-"@ + net::octet_text(ip.octet(0)) + seq!['-']
        + net::octet_text(ip.octet(1)) + seq!['-'] + net::octet_text(ip.octet(2)) + seq!['-']
        + net::octet_text(ip.octet(3)));
}

} // verus!
