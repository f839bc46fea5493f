use chrono::{DateTime, TimeZone, Utc};
use dumbarp::k8s::reconcile::{
    build_pool, collect_desired, create_pool, delete_pool, list_current, managed_selector, plan_pools, pool_name,
    stale_threshold, touch_annotations, Desired, ExistingPool, PoolAction, PoolItem, Verdict, IP_ANNOTATION,
    LAST_SEEN_ANNOTATION, MANAGED_BY_LABEL,
};
use dumbarp::names::NameMap;
use dumbarp::net::Ipv4Addr;
use dumbarp::time::UtcTime;
use std::collections::BTreeMap;

fn ip(last: u8) -> Ipv4Addr {
    Ipv4Addr::new(10, 0, 0, last)
}

fn at(secs: i64, nanos: u32) -> UtcTime {
    UtcTime { secs, nanos }
}

#[test]
fn leased_addresses_are_collected_once_in_order() {
    let d = collect_desired(&vec![Some(vec![ip(9), ip(1)]), None, Some(vec![ip(1), ip(5)])]);
    assert_eq!(d.ips, vec![ip(1).bits, ip(5).bits, ip(9).bits]);
    assert!(!d.all_hosts_ok);
    assert_eq!(d.errors, 1);
    let d = collect_desired(&vec![Some(vec![])]);
    assert!(d.ips.is_empty());
    assert!(d.all_hosts_ok);
}

fn item(name: &str, ip: Option<&str>, seen: Option<&str>) -> PoolItem {
    let mut annotations = NameMap::new();
    if let Some(ip) = ip {
        annotations.insert(IP_ANNOTATION.to_string(), ip.to_string());
    }
    if let Some(seen) = seen {
        annotations.insert(LAST_SEEN_ANNOTATION.to_string(), seen.to_string());
    }
    PoolItem {
        name: Some(name.to_string()),
        annotations: Some(annotations),
    }
}

#[test]
fn pools_are_read_by_their_annotations() {
    let pools = list_current(&vec![
        item("one", Some("10.0.0.1"), Some("2026-05-24T21:51:15+02:00")),
        item("skipped", None, None),
        item("skipped", Some("nope"), None),
        PoolItem { name: Some("bare".to_string()), annotations: None },
        item("two", Some("10.0.0.2"), Some("yesterday")),
        item("again", Some("10.0.0.2"), None),
    ]);
    assert_eq!(pools.len(), 2);
    let one = pools.get(&ip(1).bits).unwrap();
    assert_eq!(one.name, "one");
    let expected = Utc.with_ymd_and_hms(2026, 5, 24, 19, 51, 15).unwrap();
    assert_eq!(one.last_seen, Some(at(expected.timestamp(), 0)));
    assert_eq!(pools.get(&ip(2).bits).unwrap().name, "again");
    assert_eq!(pools.get(&ip(2).bits).unwrap().last_seen, None);
}

fn current() -> BTreeMap<u32, ExistingPool> {
    let mut pools = BTreeMap::new();
    for (last, seen) in [(5u8, Some(100i64)), (2, Some(300)), (3, None), (4, Some(299))] {
        pools.insert(
            ip(last).bits,
            ExistingPool {
                name: format!("p{last}"),
                last_seen: seen.map(|s| at(s, 0)),
            },
        );
    }
    pools
}

fn shown(actions: &[PoolAction]) -> Vec<String> {
    actions
        .iter()
        .map(|a| match a {
            PoolAction::Create(ip) => format!("create {}", ip.to_text()),
            PoolAction::Touch(ip) => format!("touch {}", ip.to_text()),
            PoolAction::Delete(name) => format!("delete {name}"),
        })
        .collect()
}

#[test]
fn a_healthy_pass_mirrors_the_leases() {
    let desired = Desired {
        ips: vec![ip(1).bits, ip(2).bits],
        all_hosts_ok: true,
        errors: 0,
    };
    let plan = plan_pools(&desired, &current(), at(300, 0));
    assert_eq!(
        shown(&plan.actions),
        vec!["create 10.0.0.1", "touch 10.0.0.2", "delete p3", "delete p4", "delete p5"]
    );
    assert_eq!((plan.added, plan.touched, plan.removed, plan.kept), (1, 1, 3, 0));
}

#[test]
fn a_failing_host_keeps_its_pools_until_they_are_stale() {
    let desired = Desired {
        ips: vec![],
        all_hosts_ok: false,
        errors: 1,
    };
    let plan = plan_pools(&desired, &current(), at(299, 0));
    assert_eq!(shown(&plan.actions), vec!["delete p3", "delete p5"]);
    assert_eq!((plan.added, plan.touched, plan.removed, plan.kept), (0, 0, 2, 2));
    let plan = plan_pools(&desired, &current(), at(299, 1));
    assert_eq!(shown(&plan.actions), vec!["delete p3", "delete p4", "delete p5"]);
}

#[test]
fn a_built_pool_is_recognised() {
    let now = at(1_779_659_475, 123_456_000);
    let pool = build_pool(ip(7), now);
    assert_eq!(pool.name, "dumbarp-10-0-0-7");
    assert_eq!(pool_name(ip(7)), pool.name);
    assert_eq!(pool.spec.blocks.len(), 1);
    assert_eq!(pool.spec.blocks[0].cidr.as_deref(), Some("10.0.0.7/32"));
    assert_eq!(pool.labels.get(MANAGED_BY_LABEL), Some(&"dumbarp-k8s".to_string()));
    let seen = pool.annotations.get(LAST_SEEN_ANNOTATION).unwrap();
    assert_eq!(seen, "2026-05-24T21:51:15.123456+00:00");
    assert_eq!(
        seen,
        &DateTime::from_timestamp(now.secs, now.nanos).unwrap().to_rfc3339()
    );
    let pools = list_current(&vec![PoolItem {
        name: Some(pool.name),
        annotations: Some(pool.annotations),
    }]);
    assert_eq!(pools.get(&ip(7).bits).unwrap().last_seen, Some(now));
    assert_eq!(
        touch_annotations(at(0, 0)).get(LAST_SEEN_ANNOTATION),
        Some(&"1970-01-01T00:00:00+00:00".to_string())
    );
    assert_eq!(managed_selector(), "app.kubernetes.io/managed-by=dumbarp-k8s");
}

#[test]
fn the_threshold_lies_before_now() {
    assert_eq!(stale_threshold(at(1000, 5), 300), at(700, 5));
    assert_eq!(stale_threshold(at(1000, 5), u64::MAX), at(1001, 5));
}

#[test]
fn refusals_of_the_cluster_are_told_apart() {
    assert_eq!(create_pool(false, None), Verdict::Done);
    assert_eq!(create_pool(true, Some(409)), Verdict::Touch);
    assert_eq!(create_pool(true, Some(500)), Verdict::Fail);
    assert_eq!(create_pool(true, None), Verdict::Fail);
    assert_eq!(delete_pool(false, None), Verdict::Done);
    assert_eq!(delete_pool(true, Some(404)), Verdict::Done);
    assert_eq!(delete_pool(true, Some(409)), Verdict::Fail);
}
