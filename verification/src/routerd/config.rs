//! The router's configuration.

pub use crate::config::DaemonEntry;

use crate::client;
use crate::config;
use crate::config::{ConfigError, ConfigErrorView, DaemonEntryFields, RawDaemon};
use crate::config::{DEFAULT_REFRESH, DEFAULT_STALE};
use crate::names::NameMap;
use vstd::prelude::*;

verus! {

/// The default size of the flow table.
pub const DEFAULT_MAX_FLOWS: u32 = 65536;

/// The router's configuration.
pub struct Config {
    pub refresh_interval_secs: u64,
    pub stale_after_secs: u64,
    pub daemons: Vec<DaemonEntry>,
    pub dscp: DscpConfig,
    /// The gateway that is asked in place of the daemons, if there is one.
    pub gateway: Option<GatewayConfig>,
}

/// Where packets are marked by their tag.
#[derive(Debug)]
pub struct DscpConfig {
    pub ifaces: Vec<String>,
    pub max_flows: u32,
}

/// A gateway that is asked for the daemons, and the devices that are used in
/// place of the ones it names.
pub struct GatewayConfig {
    pub endpoint: String,
    pub auth_token: String,
    pub device_overrides: NameMap<String>,
}

/// The configuration as a file gives it, a missing value being none.
pub struct RawConfig {
    pub refresh_interval_secs: Option<u64>,
    pub stale_after_secs: Option<u64>,
    pub daemons: Option<Vec<RawDaemon>>,
    pub dscp: Option<RawDscp>,
    pub gateway: Option<RawGateway>,
}

pub struct RawDscp {
    pub ifaces: Option<Vec<String>>,
    pub max_flows: Option<u32>,
}

pub struct RawGateway {
    pub endpoint: Option<String>,
    pub auth_token: Option<String>,
    pub device_overrides: NameMap<String>,
}

/// Why what a file says of a gateway cannot be read.
pub open spec fn gateway_unreadable(raw: RawGateway) -> Option<ConfigErrorView> {
    match raw.endpoint {
        None => Some(ConfigErrorView::Missing("endpoint"@)),
        Some(endpoint) => if client::parsed_url(endpoint@) is None {
            Some(ConfigErrorView::BadUrl(endpoint@))
        } else if raw.auth_token is None {
            Some(ConfigErrorView::Missing("auth_token"@))
        } else {
            None
        },
    }
}

/// Why a file cannot be read: the first value that is missing or does not fit.
pub open spec fn unreadable(raw: RawConfig) -> Option<ConfigErrorView> {
    match raw.daemons {
        None => Some(ConfigErrorView::Missing("daemons"@)),
        Some(daemons) => match config::read_entries(daemons@) {
            Err(e) => Some(e),
            Ok(_) => match raw.dscp {
                None => Some(ConfigErrorView::Missing("dscp"@)),
                Some(dscp) => if dscp.ifaces is None {
                    Some(ConfigErrorView::Missing("ifaces"@))
                } else {
                    match raw.gateway {
                        Some(gateway) => gateway_unreadable(gateway),
                        None => None,
                    }
                },
            },
        },
    }
}

/// Why a configuration is refused, in the order in which it is looked at.
pub open spec fn refusal(
    refresh: u64,
    stale: u64,
    daemons: Seq<DaemonEntryFields>,
    ifaces: int,
    max_flows: u32,
) -> Option<ConfigErrorView> {
    if daemons.len() == 0 {
        Some(ConfigErrorView::NoDaemons)
    } else if refresh == 0 {
        Some(ConfigErrorView::ZeroRefresh)
    } else if stale < refresh {
        Some(ConfigErrorView::StaleBeforeRefresh { stale, refresh })
    } else if ifaces == 0 {
        Some(ConfigErrorView::NoDscpIfaces)
    } else if max_flows == 0 {
        Some(ConfigErrorView::ZeroMaxFlows)
    } else {
        config::entries_refusal(daemons, daemons.len() as int)
    }
}

/// Why what a file says is refused, the defaults filled in.
pub open spec fn refused(raw: RawConfig) -> Option<ConfigErrorView> {
    refusal(
        config::or_default(raw.refresh_interval_secs, DEFAULT_REFRESH),
        config::or_default(raw.stale_after_secs, DEFAULT_STALE),
        config::read_entries(raw.daemons.unwrap()@)->Ok_0,
        raw.dscp.unwrap().ifaces.unwrap()@.len() as int,
        config::or_default(raw.dscp.unwrap().max_flows, DEFAULT_MAX_FLOWS),
    )
}

impl Config {
    pub open spec fn refused(self) -> Option<ConfigErrorView> {
        refusal(
            self.refresh_interval_secs,
            self.stale_after_secs,
            config::entries_fields(self.daemons@),
            self.dscp.ifaces@.len() as int,
            self.dscp.max_flows,
        )
    }

    /// Whether this is what a file says, the defaults filled in.
    pub open spec fn says(self, raw: RawConfig) -> bool {
        &&& self.refresh_interval_secs == config::or_default(
            raw.refresh_interval_secs,
            DEFAULT_REFRESH,
        )
        &&& self.stale_after_secs == config::or_default(raw.stale_after_secs, DEFAULT_STALE)
        &&& config::read_entries(raw.daemons.unwrap()@) == Ok::<
            Seq<DaemonEntryFields>,
            ConfigErrorView,
        >(config::entries_fields(self.daemons@))
        &&& self.dscp.ifaces == raw.dscp.unwrap().ifaces.unwrap()
        &&& self.dscp.max_flows == config::or_default(
            raw.dscp.unwrap().max_flows,
            DEFAULT_MAX_FLOWS,
        )
        &&& match raw.gateway {
            Some(g) => {
                &&& self.gateway is Some
                &&& client::parsed_url(g.endpoint.unwrap()@) == Some(
                    self.gateway.unwrap().endpoint@,
                )
                &&& self.gateway.unwrap().auth_token == g.auth_token.unwrap()
                &&& self.gateway.unwrap().device_overrides == g.device_overrides
            },
            None => self.gateway is None,
        }
    }

    /// Reads a configuration, fills in the defaults and validates it.
    pub fn load(raw: RawConfig) -> (r: Result<Config, ConfigError>)
        ensures
            match r {
                Ok(cfg) => unreadable(raw) is None && refused(raw) is None && cfg.says(raw),
                Err(e) => match unreadable(raw) {
                    Some(why) => e@ == why,
                    None => refused(raw) == Some(e@),
                },
            },
    {
        let raw_daemons: Vec<RawDaemon> = match raw.daemons {
            Some(daemons) => daemons,
            None => return Err(ConfigError::Missing("daemons".to_string())),
        };
        let daemons: Vec<DaemonEntry> = match config::read_daemons(&raw_daemons) {
            Ok(daemons) => daemons,
            Err(e) => return Err(e),
        };
        let raw_dscp: RawDscp = match raw.dscp {
            Some(dscp) => dscp,
            None => return Err(ConfigError::Missing("dscp".to_string())),
        };
        let ifaces: Vec<String> = match raw_dscp.ifaces {
            Some(ifaces) => ifaces,
            None => return Err(ConfigError::Missing("ifaces".to_string())),
        };
        let gateway: Option<GatewayConfig> = match raw.gateway {
            Some(g) => {
                let endpoint: String = match &g.endpoint {
                    Some(endpoint) => match client::parse_url(endpoint.as_str()) {
                        Some(url) => url,
                        None => return Err(ConfigError::BadUrl(endpoint.clone())),
                    },
                    None => return Err(ConfigError::Missing("endpoint".to_string())),
                };
                let auth_token: String = match g.auth_token {
                    Some(auth_token) => auth_token,
                    None => return Err(ConfigError::Missing("auth_token".to_string())),
                };
                Some(GatewayConfig { endpoint, auth_token, device_overrides: g.device_overrides })
            },
            None => None,
        };
        let cfg = Config {
            refresh_interval_secs: match raw.refresh_interval_secs {
                Some(n) => n,
                None => DEFAULT_REFRESH,
            },
            stale_after_secs: match raw.stale_after_secs {
                Some(n) => n,
                None => DEFAULT_STALE,
            },
            daemons,
            dscp: DscpConfig {
                ifaces,
                max_flows: match raw_dscp.max_flows {
                    Some(n) => n,
                    None => DEFAULT_MAX_FLOWS,
                },
            },
            gateway,
        };
        assert(cfg.says(raw));
        match cfg.validate() {
            Ok(()) => Ok(cfg),
            Err(e) => Err(e),
        }
    }

    /// Validates a configuration that has been read.
    pub fn validate(&self) -> (r: Result<(), ConfigError>)
        ensures
            match r {
                Ok(()) => self.refused() is None,
                Err(e) => self.refused() == Some(e@),
            },
    {
        if self.daemons.len() == 0 {
            return Err(ConfigError::NoDaemons);
        }
        if self.refresh_interval_secs == 0 {
            return Err(ConfigError::ZeroRefresh);
        }
        if self.stale_after_secs < self.refresh_interval_secs {
            return Err(
                ConfigError::StaleBeforeRefresh {
                    stale: self.stale_after_secs,
                    refresh: self.refresh_interval_secs,
                },
            );
        }
        if self.dscp.ifaces.len() == 0 {
            return Err(ConfigError::NoDscpIfaces);
        }
        if self.dscp.max_flows == 0 {
            return Err(ConfigError::ZeroMaxFlows);
        }
        match config::validate_daemons(&self.daemons) {
            Some(e) => Err(e),
            None => Ok(()),
        }
    }
}

/// A configuration is accepted exactly if it names a daemon, refreshes, keeps
/// answers at least as long as it takes to the next refresh, marks packets on
/// an interface, has room for a flow, and has daemons that are all accepted.
pub proof fn law_configurations_are_accepted_without_faults(cfg: Config)
    ensures
        cfg.refused() is None <==> {
            &&& cfg.daemons@.len() > 0
            &&& cfg.refresh_interval_secs > 0
            &&& cfg.stale_after_secs >= cfg.refresh_interval_secs
            &&& cfg.dscp.ifaces@.len() > 0
            &&& cfg.dscp.max_flows > 0
            &&& config::entries_refusal(
                config::entries_fields(cfg.daemons@),
                cfg.daemons@.len() as int,
            ) is None
        },
        match cfg.refused() {
            Some(ConfigErrorView::NoDaemons) => cfg.daemons@.len() == 0,
            Some(ConfigErrorView::ZeroRefresh) => cfg.daemons@.len() > 0
                && cfg.refresh_interval_secs == 0,
            Some(ConfigErrorView::StaleBeforeRefresh { stale, refresh }) => stale
                == cfg.stale_after_secs && refresh == cfg.refresh_interval_secs && stale < refresh,
            Some(ConfigErrorView::NoDscpIfaces) => cfg.dscp.ifaces@.len() == 0,
            Some(ConfigErrorView::ZeroMaxFlows) => cfg.dscp.max_flows == 0,
            Some(e) => config::entries_refusal(
                config::entries_fields(cfg.daemons@),
                cfg.daemons@.len() as int,
            ) == Some(e),
            None => true,
        },
{
    let all = config::entries_fields(cfg.daemons@);
    config::law_daemons_are_accepted_without_faults(all, all.len() as int);
}

/// A file is refused as the configuration that it says is. What it leaves out
/// is half a minute between refreshes, five minutes for an answer, and room
/// for 65536 flows.
pub proof fn law_files_are_filled_in(cfg: Config, raw: RawConfig)
    requires
        unreadable(raw) is None,
        cfg.says(raw),
    ensures
        refused(raw) == cfg.refused(),
        raw.refresh_interval_secs is Some ==> cfg.refresh_interval_secs
            == raw.refresh_interval_secs.unwrap(),
        raw.refresh_interval_secs is None ==> cfg.refresh_interval_secs == 30,
        raw.stale_after_secs is Some ==> cfg.stale_after_secs == raw.stale_after_secs.unwrap(),
        raw.stale_after_secs is None ==> cfg.stale_after_secs == 300,
        raw.daemons is Some && cfg.daemons@.len() == raw.daemons.unwrap()@.len(),
        forall|i: int|
            0 <= i < cfg.daemons@.len() ==> config::read_entry(
                #[trigger] raw.daemons.unwrap()@[i],
            ) == Ok::<DaemonEntryFields, ConfigErrorView>(cfg.daemons@[i]@),
        raw.dscp is Some && raw.dscp.unwrap().ifaces == Some(cfg.dscp.ifaces),
        raw.dscp.unwrap().max_flows is Some ==> cfg.dscp.max_flows
            == raw.dscp.unwrap().max_flows.unwrap(),
        raw.dscp.unwrap().max_flows is None ==> cfg.dscp.max_flows == 65536,
        raw.gateway is Some <==> cfg.gateway is Some,
        raw.gateway is Some ==> ({
            let given = raw.gateway.unwrap();
            let kept = cfg.gateway.unwrap();
            &&& given.endpoint is Some && client::parsed_url(given.endpoint.unwrap()@) == Some(
                kept.endpoint@,
            )
            &&& given.auth_token is Some && given.auth_token.unwrap()@ == kept.auth_token@
            &&& given.device_overrides@ == kept.device_overrides@
        }),
{
    config::law_daemons_are_read_one_by_one(raw.daemons.unwrap()@);
}

/// A file can be read exactly if it lists daemons that can all be read, names
/// the interfaces on which packets are marked, and gives a URL and a token
/// where it names a gateway.
pub proof fn law_files_are_read_without_faults(raw: RawConfig)
    ensures
        unreadable(raw) is None <==> {
            &&& raw.daemons is Some
            &&& forall|i: int|
                0 <= i < raw.daemons.unwrap()@.len() ==> config::read_entry(
                    #[trigger] raw.daemons.unwrap()@[i],
                ) is Ok
            &&& raw.dscp is Some && raw.dscp.unwrap().ifaces is Some
            &&& raw.gateway is Some ==> raw.gateway.unwrap().endpoint is Some
                && client::parsed_url(raw.gateway.unwrap().endpoint.unwrap()@) is Some
                && raw.gateway.unwrap().auth_token is Some
        },
{
    if raw.daemons is Some {
        config::law_daemons_are_read_one_by_one(raw.daemons.unwrap()@);
    }
}

} // verus!
