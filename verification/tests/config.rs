use dumbarp::config::{ConfigError, DaemonEntry, RawDaemon};
use dumbarp::daemon;
use dumbarp::gateway;
use dumbarp::k8s;
use dumbarp::names::NameMap;
use dumbarp::net::Ipv4Addr;
use dumbarp::routerd;
use toml::Table;
use toml::Value;

fn text(t: &Table, key: &str) -> Option<String> {
    t.get(key).map(|v| v.as_str().unwrap().to_string())
}

fn number(t: &Table, key: &str) -> Option<u64> {
    t.get(key).map(|v| v.as_integer().unwrap() as u64)
}

fn texts(t: &Table, key: &str) -> Option<Vec<String>> {
    t.get(key).map(|v| {
        v.as_array()
            .unwrap()
            .iter()
            .map(|s| s.as_str().unwrap().to_string())
            .collect()
    })
}

fn tables(t: &Table, key: &str) -> Option<Vec<Table>> {
    t.get(key).map(|v| {
        v.as_array()
            .unwrap()
            .iter()
            .map(|s| s.as_table().unwrap().clone())
            .collect()
    })
}

fn raw_daemons(t: &Table) -> Option<Vec<RawDaemon>> {
    tables(t, "daemons").map(|list| {
        list.iter()
            .map(|d| RawDaemon {
                name: text(d, "name"),
                endpoint: text(d, "endpoint"),
                auth_token: text(d, "auth_token"),
                nexthop: text(d, "nexthop"),
                device: text(d, "device"),
            })
            .collect()
    })
}

fn base(extra: &str) -> String {
    format!("auth_token = \"t\"\nifaces = [\"eth0\"]\n{extra}")
}

fn load_daemon(raw: &str) -> Result<daemon::config::Config, ConfigError> {
    let t: Table = toml::from_str(raw).unwrap();
    daemon::config::Config::load(daemon::config::RawConfig {
        listen: text(&t, "listen"),
        auth_token: text(&t, "auth_token"),
        refresh_interval_secs: number(&t, "refresh_interval_secs"),
        ifaces: texts(&t, "ifaces"),
        manage_routing: t.get("manage_routing").map(|v| v.as_bool().unwrap()),
        neigh_refresh_interval_secs: number(&t, "neigh_refresh_interval_secs"),
        dumbarpd_id: number(&t, "dumbarpd_id").map(|id| id as u8),
    })
}

#[test]
fn dumbarpd_id_defaults_to_disabled() {
    let cfg = load_daemon(&base("")).unwrap();
    assert_eq!(cfg.dumbarpd_id, 0);
    assert_eq!(cfg.dscp_id(), None);
}

#[test]
fn dumbarpd_id_in_range_is_accepted() {
    for id in [1u8, 7, 63] {
        let cfg = load_daemon(&base(&format!("dumbarpd_id = {id}"))).unwrap();
        assert_eq!(cfg.dscp_id(), Some(id));
    }
}

#[test]
fn dumbarpd_id_out_of_range_is_rejected() {
    for id in [64u8, 100, 255] {
        assert!(load_daemon(&base(&format!("dumbarpd_id = {id}"))).is_err());
    }
}

#[test]
fn daemon_defaults_are_filled_in() {
    let cfg = load_daemon(&base("")).unwrap();
    assert_eq!(cfg.listen, "0.0.0.0:1028");
    assert_eq!(cfg.refresh_interval_secs, 60);
    assert!(cfg.manage_routing);
    assert_eq!(cfg.neigh_refresh_interval_secs, 30);
    assert_eq!(cfg.ifaces, vec!["eth0".to_string()]);
    let cfg = load_daemon(&base("listen = \"[::]:1\"\nmanage_routing = false\n")).unwrap();
    assert_eq!(cfg.listen, "[::]:1");
    assert!(!cfg.manage_routing);
}

#[test]
fn bad_daemon_configurations_say_why() {
    let why = |raw: &str| load_daemon(raw).unwrap_err().to_text();
    assert_eq!(why("ifaces = []"), "config: missing field `auth_token`");
    assert_eq!(why("auth_token = \"t\""), "config: missing field `ifaces`");
    assert_eq!(why("auth_token = \"\"\nifaces = []"), "config: `auth_token` must be non-empty");
    assert_eq!(
        why("auth_token = \"t\"\nifaces = []"),
        "config: `ifaces` must list at least one interface"
    );
    assert_eq!(
        why(&base("refresh_interval_secs = 0")),
        "config: `refresh_interval_secs` must be > 0"
    );
    assert_eq!(
        why(&base("dumbarpd_id = 100")),
        "config: `dumbarpd_id` (100) must be between 1 and 63 (0 disables DSCP mode)"
    );
}

const BASE: &str = r#"
[[daemons]]
name = "homelab"
endpoint = "http://10.0.0.5:1028"
auth_token = "t"
nexthop = "10.0.0.5"
device = "br0"
"#;

const SERVE: &str = r#"
[serve]
listen = "0.0.0.0:1029"
auth_token = "t"
"#;

fn load_gateway(raw: &str) -> Result<gateway::config::Config, ConfigError> {
    let t: Table = toml::from_str(raw).unwrap();
    gateway::config::Config::load(gateway::config::RawConfig {
        refresh_interval_secs: number(&t, "refresh_interval_secs"),
        stale_after_secs: number(&t, "stale_after_secs"),
        manage_routes: t.get("manage_routes").map(|v| v.as_bool().unwrap()),
        daemons: raw_daemons(&t),
        serve: t
            .get("serve")
            .map(|v| v.as_table().unwrap())
            .map(|s| gateway::config::RawServe {
                listen: text(s, "listen"),
                auth_token: text(s, "auth_token"),
            }),
    })
}

#[test]
fn manages_routes_by_default() {
    assert!(load_gateway(BASE).unwrap().manage_routes);
}

#[test]
fn route_management_can_be_ticked_off_alongside_serve() {
    let raw = format!("manage_routes = false\n{BASE}{SERVE}");
    let cfg = load_gateway(&raw).unwrap();
    assert!(!cfg.manage_routes);
    assert!(cfg.serve.is_some());
}

#[test]
fn rejects_route_management_off_without_serve() {
    let raw = format!("manage_routes = false\n{BASE}");
    assert!(load_gateway(&raw).is_err());
}

#[test]
fn bad_gateway_configurations_say_why() {
    let why = |raw: &str| load_gateway(raw).unwrap_err().to_text();
    assert_eq!(why(""), "config: missing field `daemons`");
    assert_eq!(why("daemons = []"), "config: `daemons` must list at least one entry");
    assert_eq!(
        why(&format!("manage_routes = false\n{BASE}")),
        "config: `manage_routes = false` with no `[serve]` leaves nothing for this gateway to do"
    );
    assert_eq!(
        why(&format!("{BASE}\n[serve]\nauth_token = \"\"\n")),
        "config: `[serve].auth_token` must be non-empty"
    );
    assert_eq!(why(&format!("{BASE}\n[serve]\n")), "config: missing field `auth_token`");
    assert_eq!(
        why(&BASE.replace("http://10.0.0.5:1028", "nowhere")),
        "config: `nowhere` is no URL"
    );
    assert_eq!(
        why(&BASE.replace("nexthop = \"10.0.0.5\"", "nexthop = \"10.0.0\"")),
        "config: `10.0.0` is no IPv4 address"
    );
    assert_eq!(
        why(&BASE.replace("name = \"homelab\"", "name = \"\"")),
        "config: every daemon needs a non-empty `name`"
    );
    assert_eq!(
        why(&BASE.replace("br0", "")),
        "config: daemon `homelab` has empty `device`"
    );
    assert_eq!(
        why(&BASE.replace("auth_token = \"t\"", "auth_token = \"\"")),
        "config: daemon `homelab` has empty `auth_token`"
    );
    assert_eq!(
        why(&format!("{BASE}{BASE}")),
        "config: duplicate daemon name `homelab`"
    );
    let cfg = load_gateway(&format!("{BASE}\n[serve]\nauth_token = \"x\"\n")).unwrap();
    assert_eq!(cfg.serve.unwrap().listen, "0.0.0.0:1029");
    assert_eq!(cfg.daemons[0].endpoint, "http://10.0.0.5:1028/");
}

fn load_router(raw: &str) -> Result<routerd::config::Config, ConfigError> {
    let t: Table = toml::from_str(raw).unwrap();
    routerd::config::Config::load(routerd::config::RawConfig {
        refresh_interval_secs: number(&t, "refresh_interval_secs"),
        stale_after_secs: number(&t, "stale_after_secs"),
        daemons: raw_daemons(&t),
        dscp: t
            .get("dscp")
            .map(|v| v.as_table().unwrap())
            .map(|d| routerd::config::RawDscp {
                ifaces: texts(d, "ifaces"),
                max_flows: number(d, "max_flows").map(|n| n as u32),
            }),
        gateway: t
            .get("gateway")
            .map(|v| v.as_table().unwrap())
            .map(|g| {
                let mut device_overrides = NameMap::new();
                if let Some(Value::Table(o)) = g.get("device_overrides") {
                    for (name, device) in o {
                        device_overrides.insert(name.clone(), device.as_str().unwrap().to_string());
                    }
                }
                routerd::config::RawGateway {
                    endpoint: text(g, "endpoint"),
                    auth_token: text(g, "auth_token"),
                    device_overrides,
                }
            }),
    })
}

fn router_refusal(raw: &str) -> String {
    match load_router(raw) {
        Ok(_) => panic!("accepted"),
        Err(e) => e.to_text(),
    }
}

#[test]
fn accepts_minimal_config() {
    let Ok(cfg) = load_router(&format!("{BASE}\n[dscp]\nifaces = [\"eth1\"]\n")) else {
        panic!("refused");
    };
    assert_eq!(cfg.dscp.ifaces, vec!["eth1".to_string()]);
    assert_eq!(cfg.dscp.max_flows, 65536);
    assert_eq!(cfg.refresh_interval_secs, 30);
}

#[test]
fn rejects_empty_dscp_ifaces() {
    assert!(load_router(&format!("{BASE}\n[dscp]\nifaces = []\n")).is_err());
}

#[test]
fn rejects_missing_dscp_section() {
    assert!(load_router(BASE).is_err());
}

#[test]
fn rejects_stale_shorter_than_refresh() {
    let raw = format!(
        "refresh_interval_secs = 60\nstale_after_secs = 30\n{BASE}\n[dscp]\nifaces = [\"eth1\"]\n"
    );
    assert!(load_router(&raw).is_err());
}

#[test]
fn rejects_duplicate_daemon_names() {
    let raw = format!("{BASE}{BASE}\n[dscp]\nifaces = [\"eth1\"]\n");
    assert!(load_router(&raw).is_err());
}

#[test]
fn bad_router_configurations_say_why() {
    let dscp = "\n[dscp]\nifaces = [\"eth1\"]\n";
    assert_eq!(router_refusal(BASE), "config: missing field `dscp`");
    assert_eq!(router_refusal(&format!("{BASE}\n[dscp]\n")), "config: missing field `ifaces`");
    assert_eq!(
        router_refusal(&format!("{BASE}\n[dscp]\nifaces = []\n")),
        "config: `[dscp].ifaces` must list at least one interface"
    );
    assert_eq!(
        router_refusal(&format!("{BASE}{dscp}max_flows = 0\n")),
        "config: `[dscp].max_flows` must be > 0"
    );
    assert_eq!(
        router_refusal(&format!("refresh_interval_secs = 60\nstale_after_secs = 30\n{BASE}{dscp}")),
        "config: `stale_after_secs` (30) must be >= `refresh_interval_secs` (60)"
    );
    assert_eq!(
        router_refusal(&format!("{BASE}{dscp}[gateway]\nendpoint = \"http://gw\"\n")),
        "config: missing field `auth_token`"
    );
}

#[test]
fn a_gateway_can_stand_in_for_the_daemons() {
    let raw = format!(
        "{BASE}\n[dscp]\nifaces = [\"eth1\"]\n[gateway]\nendpoint = \"http://gw:1029\"\nauth_token = \"t\"\n[gateway.device_overrides]\nhomelab = \"eno1\"\n"
    );
    let Ok(cfg) = load_router(&raw) else {
        panic!("refused");
    };
    let gw = cfg.gateway.unwrap();
    assert_eq!(gw.endpoint, "http://gw:1029/");
    assert_eq!(gw.device_overrides.get("homelab"), Some(&"eno1".to_string()));
}

fn load_k8s(raw: &str) -> Result<k8s::config::Config, ConfigError> {
    let t: Table = toml::from_str(raw).unwrap();
    k8s::config::Config::load(k8s::config::RawConfig {
        refresh_interval_secs: number(&t, "refresh_interval_secs"),
        stale_after_secs: number(&t, "stale_after_secs"),
        hosts: tables(&t, "hosts").map(|list| {
            list.iter()
                .map(|h| k8s::config::RawHost {
                    name: text(h, "name"),
                    url: text(h, "url"),
                    auth_token_file: text(h, "auth_token_file"),
                })
                .collect()
        }),
    })
}

const HOST: &str = "[[hosts]]\nname = \"a\"\nurl = \"http://h\"\nauth_token_file = \"/t\"\n";

#[test]
fn hosts_are_read_and_validated() {
    let cfg = load_k8s(HOST).unwrap();
    assert_eq!(cfg.refresh_interval_secs, 30);
    assert_eq!(cfg.stale_after_secs, 300);
    assert_eq!(cfg.hosts[0].url, "http://h/");
    assert_eq!(cfg.hosts[0].auth_token_file, "/t");
    let why = |raw: &str| load_k8s(raw).unwrap_err().to_text();
    assert_eq!(why("hosts = []"), "config: `hosts` must list at least one daemon");
    assert_eq!(why(&format!("{HOST}{HOST}")), "config: duplicate host name `a`");
    assert_eq!(
        why(&HOST.replace("name = \"a\"", "name = \"\"")),
        "config: every host needs a non-empty `name`"
    );
    assert_eq!(
        why(&format!("stale_after_secs = 29\n{HOST}")),
        "config: `stale_after_secs` (29) must be >= `refresh_interval_secs` (30)"
    );
    assert_eq!(why(&HOST.replace("http://h", "h")), "config: `h` is no URL");
}

#[test]
fn tokens_are_trimmed_and_not_empty() {
    assert_eq!(
        k8s::config::HostConfig::read_token(" \u{2003}token x\n").as_deref(),
        Some("token x")
    );
    assert_eq!(k8s::config::HostConfig::read_token(" \n\t"), None);
    let spaces = "\t\n\u{b}\u{c}\r \u{85}\u{a0}\u{1680}\u{2000}\u{200a}\u{2028}\u{2029}\u{202f}\u{205f}\u{3000}";
    assert_eq!(
        k8s::config::HostConfig::read_token(&format!("{spaces}x{spaces}")).as_deref(),
        Some("x")
    );
    assert_eq!(
        k8s::config::HostConfig::read_token("\u{200b}\u{180e}").as_deref(),
        Some("\u{200b}\u{180e}")
    );
}

fn entry(name: &str) -> DaemonEntry {
    DaemonEntry {
        name: name.to_string(),
        endpoint: "http://h/".to_string(),
        auth_token: "t".to_string(),
        nexthop: Ipv4Addr::new(10, 0, 0, 1),
        device: "br0".to_string(),
    }
}

#[test]
fn a_gateway_that_has_been_read_is_validated() {
    let cfg = |daemons: Vec<DaemonEntry>, manage_routes: bool, token: Option<&str>| gateway::config::Config {
        refresh_interval_secs: 30,
        stale_after_secs: 300,
        manage_routes,
        daemons,
        serve: token.map(|t| gateway::config::ServeConfig {
            listen: "0.0.0.0:1029".to_string(),
            auth_token: t.to_string(),
        }),
    };
    assert!(cfg(vec![entry("a")], true, None).validate().is_ok());
    assert!(cfg(vec![entry("a")], false, Some("t")).validate().is_ok());
    assert!(matches!(cfg(vec![], true, None).validate(), Err(ConfigError::NoDaemons)));
    assert!(matches!(
        cfg(vec![entry("a"), entry("a")], true, None).validate(),
        Err(ConfigError::DuplicateDaemon(_))
    ));
    assert!(matches!(
        cfg(vec![entry("a")], true, Some("")).validate(),
        Err(ConfigError::EmptyServeToken)
    ));
    assert!(matches!(cfg(vec![entry("a")], false, None).validate(), Err(ConfigError::NothingToDo)));
    let zero = gateway::config::Config { refresh_interval_secs: 0, ..cfg(vec![entry("a")], true, None) };
    assert!(matches!(zero.validate(), Err(ConfigError::ZeroRefresh)));
}

#[test]
fn a_router_that_has_been_read_is_validated() {
    let cfg = |ifaces: Vec<String>, max_flows: u32| routerd::config::Config {
        refresh_interval_secs: 30,
        stale_after_secs: 300,
        daemons: vec![entry("a")],
        dscp: routerd::config::DscpConfig { ifaces, max_flows },
        gateway: None,
    };
    assert!(cfg(vec!["eth0".to_string()], 1).validate().is_ok());
    assert!(matches!(cfg(vec![], 1).validate(), Err(ConfigError::NoDscpIfaces)));
    assert!(matches!(cfg(vec!["eth0".to_string()], 0).validate(), Err(ConfigError::ZeroMaxFlows)));
}

#[test]
fn hosts_that_have_been_read_are_validated() {
    let host = |name: &str| k8s::config::HostConfig {
        name: name.to_string(),
        url: "http://h/".to_string(),
        auth_token_file: "/t".to_string(),
    };
    assert!(k8s::config::validate_hosts(&vec![host("a"), host("b")]).is_none());
    assert!(matches!(
        k8s::config::validate_hosts(&vec![host("a"), host("a")]),
        Some(ConfigError::DuplicateHost(_))
    ));
    let cfg = |hosts: Vec<k8s::config::HostConfig>, stale_after_secs: u64| k8s::config::Config {
        refresh_interval_secs: 30,
        stale_after_secs,
        hosts,
    };
    assert!(cfg(vec![host("a")], 30).validate().is_ok());
    assert!(matches!(cfg(vec![], 30).validate(), Err(ConfigError::NoHosts)));
    assert!(matches!(
        cfg(vec![host("")], 29).validate(),
        Err(ConfigError::StaleBeforeRefresh { stale: 29, refresh: 30 })
    ));
    assert!(matches!(cfg(vec![host("")], 30).validate(), Err(ConfigError::UnnamedHost)));
}
