//! The daemon's configuration.

use crate::common::DSCP_ID_MAX;
use crate::config;
use crate::config::{ConfigError, ConfigErrorView};
use crate::text;
use vstd::prelude::*;

verus! {

/// The default of the refresh interval, in seconds.
pub const DEFAULT_REFRESH: u64 = 60;

/// The default of the interval at which neighbour entries are renewed, in
/// seconds.
pub const DEFAULT_NEIGH_REFRESH: u64 = 30;

/// The daemon's configuration. `dumbarpd_id` is zero where packets are not
/// tagged; `listen` is the text of a socket address.
#[derive(Debug)]
pub struct Config {
    pub listen: String,
    pub auth_token: String,
    pub refresh_interval_secs: u64,
    pub ifaces: Vec<String>,
    pub manage_routing: bool,
    pub neigh_refresh_interval_secs: u64,
    pub dumbarpd_id: u8,
}

/// The configuration as a file gives it, a missing value being none.
#[derive(Debug)]
pub struct RawConfig {
    pub listen: Option<String>,
    pub auth_token: Option<String>,
    pub refresh_interval_secs: Option<u64>,
    pub ifaces: Option<Vec<String>>,
    pub manage_routing: Option<bool>,
    pub neigh_refresh_interval_secs: Option<u64>,
    pub dumbarpd_id: Option<u8>,
}

/// Why a file is refused: a missing value first, then the values in the order
/// in which they are looked at.
pub open spec fn refused(raw: RawConfig) -> Option<ConfigErrorView> {
    match (raw.auth_token, raw.ifaces) {
        (None, _) => Some(ConfigErrorView::Missing("auth_token"@)),
        (_, None) => Some(ConfigErrorView::Missing("ifaces"@)),
        (Some(auth_token), Some(ifaces)) => if auth_token@.len() == 0 {
            Some(ConfigErrorView::EmptyAuthToken)
        } else if ifaces@.len() == 0 {
            Some(ConfigErrorView::NoIfaces)
        } else if raw.refresh_interval_secs == Some(0u64) {
            Some(ConfigErrorView::ZeroRefresh)
        } else if raw.dumbarpd_id is Some && raw.dumbarpd_id.unwrap() > DSCP_ID_MAX {
            Some(ConfigErrorView::IdOutOfRange(raw.dumbarpd_id.unwrap()))
        } else {
            None
        },
    }
}

impl Config {
    /// Whether this is what a file says, the defaults filled in.
    pub open spec fn says(self, raw: RawConfig) -> bool {
        &&& self.listen@ == match raw.listen {
            Some(listen) => listen@,
            None => "0.0.0.0:1028"@,
        }
        &&& raw.auth_token == Some(self.auth_token)
        &&& self.refresh_interval_secs == config::or_default(
            raw.refresh_interval_secs,
            DEFAULT_REFRESH,
        )
        &&& raw.ifaces == Some(self.ifaces)
        &&& self.manage_routing == config::or_default(raw.manage_routing, true)
        &&& self.neigh_refresh_interval_secs == config::or_default(
            raw.neigh_refresh_interval_secs,
            DEFAULT_NEIGH_REFRESH,
        )
        &&& self.dumbarpd_id == config::or_default(raw.dumbarpd_id, 0)
    }

    /// Fills in the defaults of a configuration and validates it.
    pub fn load(raw: RawConfig) -> (r: Result<Config, ConfigError>)
        ensures
            match r {
                Ok(cfg) => refused(raw) is None && cfg.says(raw),
                Err(e) => refused(raw) == Some(e@),
            },
    {
        let auth_token: String = match raw.auth_token {
            Some(auth_token) => auth_token,
            None => return Err(ConfigError::Missing("auth_token".to_string())),
        };
        let ifaces: Vec<String> = match raw.ifaces {
            Some(ifaces) => ifaces,
            None => return Err(ConfigError::Missing("ifaces".to_string())),
        };
        let cfg = Config {
            listen: match raw.listen {
                Some(listen) => listen,
                None => "0.0.0.0:1028".to_string(),
            },
            auth_token,
            refresh_interval_secs: match raw.refresh_interval_secs {
                Some(n) => n,
                None => DEFAULT_REFRESH,
            },
            ifaces,
            manage_routing: match raw.manage_routing {
                Some(b) => b,
                None => true,
            },
            neigh_refresh_interval_secs: match raw.neigh_refresh_interval_secs {
                Some(n) => n,
                None => DEFAULT_NEIGH_REFRESH,
            },
            dumbarpd_id: match raw.dumbarpd_id {
                Some(id) => id,
                None => 0,
            },
        };
        if text::is_empty(cfg.auth_token.as_str()) {
            return Err(ConfigError::EmptyAuthToken);
        }
        if cfg.ifaces.len() == 0 {
            return Err(ConfigError::NoIfaces);
        }
        if cfg.refresh_interval_secs == 0 {
            return Err(ConfigError::ZeroRefresh);
        }
        if cfg.dumbarpd_id > DSCP_ID_MAX {
            return Err(ConfigError::IdOutOfRange(cfg.dumbarpd_id));
        }
        Ok(cfg)
    }

    /// The identifier that packets are tagged with, if they are tagged.
    pub fn dscp_id(&self) -> (r: Option<u8>)
        ensures
            r == if self.dumbarpd_id != 0 {
                Some(self.dumbarpd_id)
            } else {
                None
            },
    {
        if self.dumbarpd_id != 0 {
            Some(self.dumbarpd_id)
        } else {
            None
        }
    }
}

/// A file is taken exactly if it gives a token and interfaces, neither of
/// them empty, no refresh interval of zero and no identifier beyond 63. A
/// value that a refusal names is missing or at fault.
pub proof fn law_files_are_taken_without_faults(raw: RawConfig)
    ensures
        refused(raw) is None <==> {
            &&& raw.auth_token is Some && raw.auth_token.unwrap()@.len() > 0
            &&& raw.ifaces is Some && raw.ifaces.unwrap()@.len() > 0
            &&& raw.refresh_interval_secs != Some(0u64)
            &&& raw.dumbarpd_id is Some ==> raw.dumbarpd_id.unwrap() <= 63
        },
        match refused(raw) {
            None => true,
            Some(ConfigErrorView::Missing(field)) => if raw.auth_token is None {
                field == "auth_token"@
            } else {
                field == "ifaces"@ && raw.ifaces is None
            },
            Some(ConfigErrorView::EmptyAuthToken) => raw.auth_token is Some
                && raw.auth_token.unwrap()@.len() == 0,
            Some(ConfigErrorView::NoIfaces) => raw.ifaces is Some && raw.ifaces.unwrap()@.len()
                == 0,
            Some(ConfigErrorView::ZeroRefresh) => raw.refresh_interval_secs == Some(0u64),
            Some(ConfigErrorView::IdOutOfRange(id)) => raw.dumbarpd_id == Some(id) && id >= 64,
            _ => false,
        },
{
}

/// Given values are kept. What a file leaves out is port 1028 of every
/// address, a minute between refreshes, half a minute between renewals of
/// neighbour entries, managed routes and no tags.
pub proof fn law_files_are_filled_in(cfg: Config, raw: RawConfig)
    requires
        cfg.says(raw),
    ensures
        raw.listen is Some ==> cfg.listen@ == raw.listen.unwrap()@,
        raw.listen is None ==> cfg.listen@ == "0.0.0.0:1028"@,
        raw.auth_token is Some && cfg.auth_token@ == raw.auth_token.unwrap()@,
        raw.ifaces is Some && cfg.ifaces@ == raw.ifaces.unwrap()@,
        raw.refresh_interval_secs is Some ==> cfg.refresh_interval_secs
            == raw.refresh_interval_secs.unwrap(),
        raw.refresh_interval_secs is None ==> cfg.refresh_interval_secs == 60,
        raw.manage_routing is Some ==> cfg.manage_routing == raw.manage_routing.unwrap(),
        raw.manage_routing is None ==> cfg.manage_routing,
        raw.neigh_refresh_interval_secs is Some ==> cfg.neigh_refresh_interval_secs
            == raw.neigh_refresh_interval_secs.unwrap(),
        raw.neigh_refresh_interval_secs is None ==> cfg.neigh_refresh_interval_secs == 30,
        raw.dumbarpd_id is Some ==> cfg.dumbarpd_id == raw.dumbarpd_id.unwrap(),
        raw.dumbarpd_id is None ==> cfg.dumbarpd_id == 0,
{
}

} // verus!
