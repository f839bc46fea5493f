use dumbarp::api::{DaemonRoutes, Leases};
use dumbarp::cache::{Cache, LeaseCache};
use dumbarp::config::DaemonEntry;
use dumbarp::names::NameMap;
use dumbarp::net::Ipv4Addr;
use dumbarp::packet::ByteOrder;
use dumbarp::routerd::datapath::{counters, stale_sources, sync_ids};
use dumbarp::routerd::ids::{resolve_ids, RememberedId};
use dumbarp::routerd::reconcile::{build_gateway_specs, plan_via_daemons, plan_via_gateway, src_marks};
use dumbarp::steer::{steer, SteerCounter};
use std::collections::{HashMap, HashSet};
use std::time::Duration;

fn daemon(name: &str, nexthop: [u8; 4], device: &str, id: Option<u8>, ips: &[[u8; 4]]) -> DaemonRoutes {
    DaemonRoutes {
        name: name.to_string(),
        nexthop: Ipv4Addr::from_octets(nexthop),
        device: device.to_string(),
        dumbarpd_id: id,
        ips: ips.iter().copied().map(Ipv4Addr::from_octets).collect(),
    }
}

fn advertised(daemons: &[DaemonRoutes]) -> Vec<(String, Option<u8>)> {
    daemons
        .iter()
        .map(|d| (d.name.clone(), d.dumbarpd_id))
        .collect()
}

fn secs(n: u64) -> u128 {
    Duration::from_secs(n).as_nanos()
}

fn fresh_ids(daemons: &[DaemonRoutes]) -> NameMap<u8> {
    resolve_ids(&advertised(daemons), &mut NameMap::new(), secs(300), secs(5000))
}

#[test]
fn uses_gateway_device_when_not_overridden() {
    let d = vec![daemon("homelab", [10, 0, 0, 5], "br0", Some(7), &[[110, 110, 110, 110]])];
    let (specs, ids) = build_gateway_specs(&d, &NameMap::new(), &fresh_ids(&d));
    assert_eq!(specs.len(), 1);
    assert_eq!(specs[0].iface, "br0");
    assert_eq!(specs[0].fwmark, Some(7));
    assert_eq!(specs[0].gateway, Ipv4Addr::new(10, 0, 0, 5));
    assert_eq!(ids, HashSet::from([7]));
}

#[test]
fn device_override_wins_for_that_daemon_only() {
    let d = vec![
        daemon("homelab", [10, 0, 0, 5], "br0", Some(7), &[[110, 110, 110, 110]]),
        daemon("edge", [10, 0, 0, 6], "br1", Some(9), &[[120, 120, 120, 120]]),
    ];
    let mut overrides = NameMap::new();
    overrides.insert("homelab".to_string(), "eno1".to_string());
    let (specs, _) = build_gateway_specs(&d, &overrides, &fresh_ids(&d));
    assert_eq!(specs[0].iface, "eno1");
    assert_eq!(specs[1].iface, "br1");
}

#[test]
fn daemon_without_id_is_skipped() {
    let d = vec![daemon("legacy", [10, 0, 0, 7], "br0", None, &[[1, 2, 3, 4]])];
    let (specs, ids) = build_gateway_specs(&d, &NameMap::new(), &fresh_ids(&d));
    assert!(specs.is_empty());
    assert!(ids.is_empty());
}

#[test]
fn out_of_range_and_duplicate_ids_are_dropped() {
    let d = vec![
        daemon("a", [10, 0, 0, 1], "br0", Some(64), &[[1, 1, 1, 1]]),
        daemon("b", [10, 0, 0, 2], "br0", Some(0), &[[2, 2, 2, 2]]),
        daemon("c", [10, 0, 0, 3], "br0", Some(7), &[[3, 3, 3, 3]]),
        daemon("d", [10, 0, 0, 4], "br0", Some(7), &[[4, 4, 4, 4]]),
    ];
    let (specs, ids) = build_gateway_specs(&d, &NameMap::new(), &fresh_ids(&d));
    assert_eq!(ids, HashSet::from([7]));
    assert_eq!(specs.len(), 1);
    assert_eq!(specs[0].src, Ipv4Addr::new(3, 3, 3, 3));
    assert_eq!(specs[0].fwmark, Some(7));
}

#[test]
fn every_emitted_spec_carries_a_fwmark() {
    let d = vec![
        daemon("a", [10, 0, 0, 1], "br0", None, &[[1, 1, 1, 1]]),
        daemon("b", [10, 0, 0, 2], "br0", Some(3), &[[2, 2, 2, 2], [5, 5, 5, 5]]),
        daemon("c", [10, 0, 0, 3], "br0", Some(70), &[[3, 3, 3, 3]]),
    ];
    let (specs, _) = build_gateway_specs(&d, &NameMap::new(), &fresh_ids(&d));
    assert_eq!(specs.len(), 2);
    assert!(specs.iter().all(|s| s.fwmark == Some(3)));
}

#[test]
fn src_marks_cover_every_spec_with_the_same_mark() {
    let d = vec![
        daemon("a", [10, 0, 0, 1], "br0", Some(3), &[[2, 2, 2, 2], [5, 5, 5, 5]]),
        daemon("b", [10, 0, 0, 2], "br1", Some(9), &[[6, 6, 6, 6]]),
        daemon("c", [10, 0, 0, 3], "br2", None, &[[7, 7, 7, 7]]),
    ];
    let (specs, _) = build_gateway_specs(&d, &NameMap::new(), &fresh_ids(&d));
    let marks = src_marks(&specs);

    assert_eq!(marks.len(), specs.len());
    for spec in &specs {
        assert_eq!(marks.get(&spec.src.bits).copied(), spec.fwmark);
    }
    assert_eq!(marks.get(&Ipv4Addr::new(2, 2, 2, 2).bits), Some(&3));
    assert_eq!(marks.get(&Ipv4Addr::new(5, 5, 5, 5).bits), Some(&3));
    assert_eq!(marks.get(&Ipv4Addr::new(6, 6, 6, 6).bits), Some(&9));
    assert_eq!(marks.get(&Ipv4Addr::new(7, 7, 7, 7).bits), None);
}

#[test]
fn idless_response_reuses_remembered_id_inside_the_window() {
    let stale = secs(300);
    let t0 = secs(5000);
    let mut remembered = NameMap::new();

    let first = resolve_ids(&vec![("a".to_string(), Some(4u8))], &mut remembered, stale, t0);
    assert_eq!(first.get("a"), Some(&4));

    let later = t0 + secs(60);
    let second = resolve_ids(&vec![("a".to_string(), None)], &mut remembered, stale, later);
    assert_eq!(second.get("a"), Some(&4));
}

#[test]
fn remembered_id_expires_past_the_window() {
    let stale = secs(300);
    let t0 = secs(5000);
    let mut remembered = NameMap::new();

    resolve_ids(&vec![("a".to_string(), Some(4u8))], &mut remembered, stale, t0);

    let later = t0 + secs(301);
    let out = resolve_ids(&vec![("a".to_string(), None)], &mut remembered, stale, later);
    assert_eq!(out.len(), 0);
    assert_eq!(remembered.len(), 0);
}

#[test]
fn reuse_does_not_slide_the_expiry_window() {
    let stale = secs(300);
    let t0 = secs(5000);
    let mut remembered = NameMap::new();

    resolve_ids(&vec![("a".to_string(), Some(4u8))], &mut remembered, stale, t0);
    for n in [100, 200, 290] {
        let out = resolve_ids(&vec![("a".to_string(), None)], &mut remembered, stale, t0 + secs(n));
        assert_eq!(out.get("a"), Some(&4));
    }

    let out = resolve_ids(&vec![("a".to_string(), None)], &mut remembered, stale, t0 + secs(300));
    assert_eq!(out.len(), 0);
}

#[test]
fn a_changed_id_wins_immediately() {
    let stale = secs(300);
    let t0 = secs(5000);
    let mut remembered = NameMap::new();

    resolve_ids(&vec![("a".to_string(), Some(4u8))], &mut remembered, stale, t0);

    let later = t0 + secs(10);
    let out = resolve_ids(&vec![("a".to_string(), Some(9u8))], &mut remembered, stale, later);
    assert_eq!(out.get("a"), Some(&9));

    let after = t0 + secs(20);
    let out = resolve_ids(&vec![("a".to_string(), None)], &mut remembered, stale, after);
    assert_eq!(out.get("a"), Some(&9));
}

#[test]
fn a_remembered_id_cannot_collide_with_a_live_one() {
    let stale = secs(300);
    let t0 = secs(5000);
    let mut remembered = NameMap::new();

    resolve_ids(&vec![("a".to_string(), Some(4u8))], &mut remembered, stale, t0);

    let later = t0 + secs(10);
    let out = resolve_ids(
        &vec![("b".to_string(), Some(4u8)), ("a".to_string(), None)],
        &mut remembered,
        stale,
        later,
    );
    assert_eq!(out.get("b"), Some(&4));
    assert_eq!(out.get("a"), None);
}

#[test]
fn an_invalid_id_is_not_remembered() {
    let mut remembered = NameMap::new();
    resolve_ids(&vec![("a".to_string(), Some(64u8))], &mut remembered, secs(300), 0);
    assert_eq!(remembered.len(), 0);
    remembered.insert("old".to_string(), RememberedId { id: 3, seen: 0 });
    resolve_ids(&vec![], &mut remembered, secs(300), secs(400));
    assert_eq!(remembered.len(), 0);
}

fn entry(name: &str, last: u8) -> DaemonEntry {
    DaemonEntry {
        name: name.to_string(),
        endpoint: "http://x/".to_string(),
        auth_token: "t".to_string(),
        nexthop: Ipv4Addr::new(10, 0, 0, last),
        device: format!("br{last}"),
    }
}

fn leases(ip: [u8; 4], id: Option<u8>) -> Leases {
    Leases {
        ips: vec![Ipv4Addr::from_octets(ip)],
        dumbarpd_id: id,
    }
}

#[test]
fn a_pass_over_the_daemons_marks_their_leases() {
    let daemons = vec![entry("a", 1), entry("b", 2), entry("c", 3)];
    let mut cache = LeaseCache::new();
    let mut known = NameMap::new();
    let round = vec![
        ("a".to_string(), Some(leases([1, 1, 1, 1], Some(5)))),
        ("b".to_string(), Some(leases([2, 2, 2, 2], None))),
        ("c".to_string(), None),
    ];
    let plan = plan_via_daemons(&daemons, round, &mut cache, &mut known, secs(300), 0, 0);
    assert_eq!(plan.desired.len(), 1);
    assert_eq!(plan.desired[0].iface, "br1");
    assert_eq!(plan.desired[0].fwmark, Some(5));
    assert_eq!(plan.ids, HashSet::from([5]));
    assert_eq!(plan.src_marks, HashMap::from([(0x0101_0101, 5)]));
    assert_eq!((plan.stats.fetched_ok, plan.stats.used_cache, plan.stats.dropped), (2, 0, 1));

    let round = vec![
        ("a".to_string(), None),
        ("b".to_string(), None),
        ("c".to_string(), Some(leases([3, 3, 3, 3], Some(6)))),
    ];
    let plan = plan_via_daemons(&daemons, round, &mut cache, &mut known, secs(300), secs(9), secs(9));
    assert_eq!(plan.desired.len(), 2);
    assert_eq!(plan.ids, HashSet::from([5, 6]));
    assert_eq!(plan.stats.used_cache, 2);
}

#[test]
fn a_pass_over_the_gateway_uses_the_last_good_answer() {
    let mut cache = Cache::new();
    let mut known = NameMap::new();
    let answer = vec![daemon("a", [10, 0, 0, 1], "br0", Some(3), &[[2, 2, 2, 2]])];
    let overrides = NameMap::new();
    let plan = plan_via_gateway(Some(answer), &overrides, &mut cache, &mut known, secs(300), 0, 0);
    assert_eq!(plan.desired.len(), 1);
    let plan = plan_via_gateway(None, &overrides, &mut cache, &mut known, secs(300), secs(299), secs(299));
    assert_eq!(plan.desired.len(), 1);
    assert_eq!(plan.stats.used_cache, 1);
    let plan = plan_via_gateway(None, &overrides, &mut cache, &mut known, secs(300), secs(300), secs(300));
    assert!(plan.desired.is_empty());
    assert!(plan.ids.is_empty());
    assert_eq!(plan.stats.dropped, 1);
}

#[test]
fn identifiers_are_synced() {
    let sync = sync_ids(&vec![9, 3, 5], &HashSet::from([3, 7, 1]));
    assert_eq!(sync.removals, vec![9, 5]);
    assert_eq!(sync.inserts, vec![(1, 1), (3, 3), (7, 7)]);
    assert_eq!(stale_sources(&vec![1, 2, 3], &HashMap::from([(2, 9)])), vec![1, 3]);
}

#[test]
fn counts_of_all_processors_add_up() {
    let c = counters(&vec![vec![1, 2, 3], vec![10, 0, 5], vec![8, 8, 8]]);
    assert_eq!(c.tagged, 6);
    assert_eq!(c.untagged, 15);
}

#[test]
fn tags_become_marks() {
    let ids = |dscp: u8| if dscp == 7 { Some(7u32) } else { None };
    let order = ByteOrder::Little;
    assert_eq!(steer(0x0008, order, || Some(7 << 2 | 1), ids), (Some(7), SteerCounter::Tagged));
    assert_eq!(steer(0x0008, order, || Some(8 << 2), ids), (None, SteerCounter::Untagged));
    assert_eq!(steer(0x0008, order, || Some(3), |_| Some(1)), (None, SteerCounter::Untagged));
    assert_eq!(steer(0x0008, order, || None, ids), (None, SteerCounter::Skipped));
    assert_eq!(steer(0xdd86, order, || Some(7 << 2), ids), (None, SteerCounter::Skipped));
    assert_eq!(steer(0x0800, ByteOrder::Big, || Some(7 << 2), ids), (Some(7), SteerCounter::Tagged));
    assert_eq!(SteerCounter::Tagged.slot(), 0);
    assert_eq!(SteerCounter::Untagged.slot(), 1);
    assert_eq!(SteerCounter::Skipped.slot(), 2);
}
