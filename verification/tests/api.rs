use dumbarp::api::{DaemonEntryView, DaemonsResponse, Leases, LeasesResponse, ParseError};
use dumbarp::auth::{auth_layer, authorized, constant_time_eq};
use dumbarp::cache::{Cache, LeaseCache};
use dumbarp::client::{daemons_url, leases_url};
use dumbarp::net::Ipv4Addr;
use serde_json::Value;

fn texts(v: &Value) -> Vec<String> {
    v.as_array()
        .unwrap()
        .iter()
        .map(|s| s.as_str().unwrap().to_string())
        .collect()
}

fn id(v: Option<&Value>) -> Option<u8> {
    v.and_then(|id| id.as_u64()).map(|id| id as u8)
}

fn daemons_response(json: &str) -> DaemonsResponse {
    let v: Value = serde_json::from_str(json).unwrap();
    let daemons = v["daemons"]
        .as_array()
        .unwrap()
        .iter()
        .map(|d| DaemonEntryView {
            name: d["name"].as_str().unwrap().to_string(),
            nexthop: d["nexthop"].as_str().unwrap().to_string(),
            device: d["device"].as_str().unwrap().to_string(),
            dumbarpd_id: id(d.get("dumbarpd_id")),
            ips: texts(&d["ips"]),
        })
        .collect();
    DaemonsResponse { daemons }
}

fn leases_response(json: &str) -> LeasesResponse {
    let v: Value = serde_json::from_str(json).unwrap();
    LeasesResponse {
        ips: texts(&v["ips"]),
        dumbarpd_id: id(v.get("dumbarpd_id")),
    }
}

#[test]
fn daemons_response_round_trips() {
    let json = r#"{"daemons":[{"name":"homelab","nexthop":"10.0.0.5","device":"br0","dumbarpd_id":7,"ips":["110.110.110.110"]}]}"#;
    let parsed = daemons_response(json);
    let routes = parsed.parse("gw").unwrap();
    assert_eq!(routes.len(), 1);
    assert_eq!(routes[0].name, "homelab");
    assert_eq!(routes[0].nexthop, Ipv4Addr::new(10, 0, 0, 5));
    assert_eq!(routes[0].device, "br0");
    assert_eq!(routes[0].dumbarpd_id, Some(7));
    assert_eq!(routes[0].ips, vec![Ipv4Addr::new(110, 110, 110, 110)]);
}

#[test]
fn daemons_response_tolerates_missing_id() {
    let json = r#"{"daemons":[{"name":"edge","nexthop":"10.0.0.6","device":"br1","ips":[]}]}"#;
    let routes = daemons_response(json).parse("gw").unwrap();
    assert_eq!(routes[0].dumbarpd_id, None);
    assert!(routes[0].ips.is_empty());
}

#[test]
fn daemons_response_rejects_bad_nexthop_and_device() {
    let bad_ip = r#"{"daemons":[{"name":"x","nexthop":"not-an-ip","device":"br0","ips":[]}]}"#;
    assert!(daemons_response(bad_ip).parse("gw").is_err());

    let no_dev = r#"{"daemons":[{"name":"x","nexthop":"10.0.0.5","device":"","ips":[]}]}"#;
    assert!(daemons_response(no_dev).parse("gw").is_err());
}

#[test]
fn leases_response_tolerates_daemon_without_id() {
    let old = r#"{"ips":["1.2.3.4"]}"#;
    let leases = leases_response(old).parse("d").unwrap();
    assert_eq!(leases.dumbarpd_id, None);
    assert_eq!(leases.ips, vec![Ipv4Addr::new(1, 2, 3, 4)]);
}

#[test]
fn refused_answers_say_why() {
    let bad = leases_response(r#"{"ips":["1.2.3.4","x","y"]}"#).parse("d").unwrap_err();
    assert_eq!(bad.to_text(), "parsing IP `x` from d");
    let bad = daemons_response(r#"{"daemons":[{"name":"n","nexthop":"h","device":"","ips":[]}]}"#)
        .parse("gw")
        .unwrap_err();
    assert_eq!(bad.to_text(), "parsing nexthop `h` for daemon `n` from gw");
    let bad = daemons_response(r#"{"daemons":[{"name":"n","nexthop":"1.1.1.1","device":"","ips":["z"]}]}"#)
        .parse("gw")
        .unwrap_err();
    assert_eq!(bad.to_text(), "daemon `n` from gw has an empty device");
    let bad = daemons_response(r#"{"daemons":[{"name":"n","nexthop":"1.1.1.1","device":"d","ips":["z"]}]}"#)
        .parse("gw")
        .unwrap_err();
    assert!(matches!(&bad, ParseError::BadIp { raw, label } if raw == "z" && label == "n"));
}

#[test]
fn urls_are_joined_to_the_endpoint() {
    assert_eq!(
        leases_url("http://10.0.0.5:1028").as_deref(),
        Some("http://10.0.0.5:1028/leases")
    );
    assert_eq!(
        daemons_url("http://gw:1029/base/").as_deref(),
        Some("http://gw:1029/base/daemons")
    );
    assert_eq!(daemons_url("http://gw:1029/base").as_deref(), Some("http://gw:1029/daemons"));
    assert_eq!(leases_url("not a url"), None);
    assert_eq!(leases_url("mailto:x@y"), None);
}

#[test]
fn only_the_token_itself_is_authorized() {
    assert!(authorized(Some(b"Bearer secret"), "secret"));
    assert!(authorized(Some(b"Bearer "), ""));
    assert!(!authorized(None, "secret"));
    assert!(!authorized(Some(b"Bearer secre"), "secret"));
    assert!(!authorized(Some(b"Bearer secret2"), "secret"));
    assert!(!authorized(Some(b"bearer secret"), "secret"));
    assert!(!authorized(Some(b"Basic secret"), "secret"));
    assert!(!authorized(Some(b"Bearer"), ""));
    assert!(!authorized(Some(b"Bearer s\xc3\xa9"), "s\u{e9}"));
    assert!(authorized(Some(b"Bearer a\tb"), "a\tb"));
}

#[test]
fn refused_requests_are_answered_with_unauthorized() {
    assert_eq!(auth_layer(Some(b"Bearer t"), "t"), None);
    assert_eq!(auth_layer(None, "t"), Some((401, "unauthorized".to_string())));
}

#[test]
fn equal_bytes_are_equal() {
    assert!(constant_time_eq(b"", b""));
    assert!(constant_time_eq(b"abc", b"abc"));
    assert!(!constant_time_eq(b"abc", b"abd"));
    assert!(!constant_time_eq(b"abc", b"ab"));
}

fn leases(last: u8) -> Leases {
    Leases {
        ips: vec![Ipv4Addr::new(10, 0, 0, last)],
        dumbarpd_id: Some(last),
    }
}

#[test]
fn a_failed_fetch_is_served_from_the_cache_until_it_is_stale() {
    let mut cache = LeaseCache::new();
    let round = vec![("a".to_string(), Some(leases(1))), ("b".to_string(), None)];
    let (stats, view) = cache.apply_round(round, 300, 1000);
    assert_eq!((stats.fetched_ok, stats.used_cache, stats.dropped), (1, 0, 1));
    assert_eq!(view.get("a").unwrap().ips, leases(1).ips);
    assert!(view.get("b").is_none());

    let (stats, view) = cache.apply_round(vec![("a".to_string(), None)], 300, 1299);
    assert_eq!((stats.fetched_ok, stats.used_cache, stats.dropped), (0, 1, 0));
    assert_eq!(view.get("a").unwrap().dumbarpd_id, Some(1));

    let (stats, view) = cache.apply_round(vec![("a".to_string(), None)], 300, 1300);
    assert_eq!((stats.fetched_ok, stats.used_cache, stats.dropped), (0, 0, 1));
    assert_eq!(view.len(), 0);
}

#[test]
fn peers_that_are_not_asked_stay_cached() {
    let mut cache: Cache<u32> = Cache::new();
    cache.apply_results(vec![("a".to_string(), Some(1)), ("b".to_string(), Some(2))], 10, 0);
    cache.apply_results(vec![("b".to_string(), None)], 10, 100);
    assert_eq!(cache.get("a"), Some(&1));
    assert_eq!(cache.get("b"), None);
}

#[test]
fn a_clock_that_went_back_makes_nothing_stale() {
    let mut cache: Cache<u32> = Cache::new();
    cache.apply_results(vec![("a".to_string(), Some(1))], 10, 100);
    let stats = cache.apply_results(vec![("a".to_string(), None)], 10, 50);
    assert_eq!(stats.used_cache, 1);
}
