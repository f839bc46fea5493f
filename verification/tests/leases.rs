use chrono::{TimeZone, Utc};
use dumbarp::dhcp_lease::isc_dhclient::lease_parser::parse_leases;
use dumbarp::dhcp_lease::isc_dhclient::read_lease::IscDhclientRead;
use dumbarp::time::UtcTime;

const SAMPLE: &str = r#"lease {
  interface "wan0";
  fixed-address 192.168.1.104;
  option subnet-mask 255.255.255.0;
  option dhcp-lease-time 43200;
  option routers 192.168.1.1;
  option dhcp-message-type 5;
  option dhcp-server-identifier 192.168.1.1;
  option domain-name-servers 192.168.1.1;
  option dhcp-renewal-time 21600;
  option dhcp-rebinding-time 37800;
  option broadcast-address 192.168.1.255;
  option host-name "zako";
  option domain-name "lan";
  renew 0 2026/05/24 14:49:33;
  rebind 0 2026/05/24 20:21:15;
  expire 0 2026/05/24 21:51:15;
}
lease {
  interface "wan0";
  fixed-address 192.168.1.104;
  option subnet-mask 255.255.255.0;
  option routers 192.168.1.1;
  option dhcp-lease-time 43200;
  option dhcp-message-type 5;
  option domain-name-servers 192.168.1.1;
  option dhcp-server-identifier 192.168.1.1;
  option dhcp-renewal-time 21600;
  option broadcast-address 192.168.1.255;
  option dhcp-rebinding-time 37800;
  option host-name "zako";
  option domain-name "lan";
  renew 0 2026/05/24 16:04:01;
  rebind 0 2026/05/24 21:36:18;
  expire 0 2026/05/24 23:06:18;
}
"#;

fn at(year: i32, month: u32, day: u32, hour: u32, minute: u32, second: u32) -> i64 {
    Utc.with_ymd_and_hms(year, month, day, hour, minute, second).unwrap().timestamp()
}

#[test]
fn parses_sample_leases() {
    let (rest, leases) = parse_leases(SAMPLE);
    assert!(rest.trim().is_empty(), "unparsed remainder: {rest:?}");
    assert_eq!(leases.len(), 2);

    let first = &leases[0];
    assert_eq!(first.interface.as_deref(), Some("wan0"));
    assert_eq!(first.fixed_address.as_deref(), Some("192.168.1.104"));
    assert_eq!(first.options.len(), 11);
    assert_eq!(
        first.options[0],
        ("subnet-mask".to_string(), "255.255.255.0".to_string())
    );
    assert_eq!(
        first.options[9],
        ("host-name".to_string(), "zako".to_string())
    );
    assert_eq!(
        first.options[10],
        ("domain-name".to_string(), "lan".to_string())
    );
    assert_eq!(first.expire, Some(at(2026, 5, 24, 21, 51, 15)));

    assert_eq!(leases[1].renew, Some(at(2026, 5, 24, 16, 4, 1)));
}

#[test]
fn reading_stops_at_the_first_malformed_block() {
    let (rest, leases) = parse_leases("lease { }\nlease { bogus; }\nlease { }");
    assert_eq!(leases.len(), 1);
    assert_eq!(rest, "lease { bogus; }\nlease { }");
    let (rest, leases) = parse_leases("  \n");
    assert!(leases.is_empty());
    assert_eq!(rest, "");
    let (rest, leases) = parse_leases("lease { interface \"a\" }");
    assert!(leases.is_empty());
    assert_eq!(rest, "lease { interface \"a\" }");
}

#[test]
fn the_last_statement_of_each_sort_counts() {
    let text = "lease{interface \"a\";interface \"b\";option x 1 2  ;option x \"3\";}";
    let (rest, leases) = parse_leases(text);
    assert_eq!(rest, "");
    assert_eq!(leases[0].interface.as_deref(), Some("b"));
    assert_eq!(
        leases[0].options,
        vec![
            ("x".to_string(), "1 2".to_string()),
            ("x".to_string(), "3".to_string())
        ]
    );
}

#[test]
fn times_outside_the_calendar_are_malformed() {
    for time in [
        "0 2026/02/29 00:00:00",
        "0 2026/13/01 00:00:00",
        "0 2026/01/01 24:00:00",
        "0 2026/01/01 00:00:60",
        "0 99999999999/01/01 00:00:00",
        "0 4294967295/01/01 00:00",
        "0 300000/01/01 00:00:00",
    ] {
        let (_, leases) = parse_leases(&format!("lease {{ expire {time}; }}"));
        assert!(leases.is_empty(), "{time}");
    }
    let (_, leases) = parse_leases("lease { expire 4 2024/02/29 23:59:59; }");
    assert_eq!(leases[0].expire, Some(at(2024, 2, 29, 23, 59, 59)));
    let (_, leases) = parse_leases("lease { expire 4 4294967295/03/01 00:00:00; }");
    assert_eq!(leases[0].expire, Some(at(-1, 3, 1, 0, 0, 0)));
}

fn now(secs: i64) -> UtcTime {
    UtcTime { secs, nanos: 500 }
}

#[test]
fn the_lease_that_expires_last_is_current() {
    let files = vec![None, Some(SAMPLE.to_string())];
    let lease = IscDhclientRead::current_lease(&files, now(at(2026, 5, 24, 12, 0, 0))).unwrap();
    assert_eq!(lease.interface, "wan0");
    assert_eq!(lease.ip_address, "192.168.1.104");
    assert_eq!(lease.subnet_mask, "255.255.255.0");
    assert_eq!(lease.router, "192.168.1.1");
    assert!(!lease.expired);
    let last = at(2026, 5, 24, 23, 6, 18);
    assert!(IscDhclientRead::current_lease(&files, now(last - 1)).is_some());
    assert!(IscDhclientRead::current_lease(&files, now(last)).is_none());
    assert!(IscDhclientRead::current_lease(&vec![None], now(0)).is_none());
}

#[test]
fn the_last_of_equally_late_leases_is_current() {
    let block = |ip: &str| {
        format!(
            "lease {{ interface \"i\"; fixed-address {ip}; option subnet-mask m; option routers r; expire 0 2030/01/01 00:00:00; }}"
        )
    };
    let files = vec![Some(format!("{}{}", block("1.1.1.1"), block("2.2.2.2")))];
    let lease = IscDhclientRead::current_lease(&files, now(0)).unwrap();
    assert_eq!(lease.ip_address, "2.2.2.2");
}

#[test]
fn a_current_lease_without_a_router_is_none() {
    let files = vec![Some(
        "lease { interface \"i\"; fixed-address 1.1.1.1; option subnet-mask m; expire 0 2030/01/01 00:00:00; }"
            .to_string(),
    )];
    assert!(IscDhclientRead::current_lease(&files, now(0)).is_none());
}
