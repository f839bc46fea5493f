//! The gateway's configuration.

pub use crate::config::DaemonEntry;

use crate::config;
use crate::config::{ConfigError, ConfigErrorView, DaemonEntryFields, RawDaemon};
use crate::config::{DEFAULT_REFRESH, DEFAULT_STALE};
use crate::text;
use vstd::prelude::*;

verus! {

/// The gateway's configuration.
#[derive(Debug)]
pub struct Config {
    pub refresh_interval_secs: u64,
    pub stale_after_secs: u64,
    pub manage_routes: bool,
    pub daemons: Vec<DaemonEntry>,
    pub serve: Option<ServeConfig>,
}

/// Where the gateway tells of its daemons; `listen` is the text of a socket
/// address.
#[derive(Debug)]
pub struct ServeConfig {
    pub listen: String,
    pub auth_token: String,
}

/// The configuration as a file gives it, a missing value being none.
#[derive(Debug)]
pub struct RawConfig {
    pub refresh_interval_secs: Option<u64>,
    pub stale_after_secs: Option<u64>,
    pub manage_routes: Option<bool>,
    pub daemons: Option<Vec<RawDaemon>>,
    pub serve: Option<RawServe>,
}

#[derive(Debug)]
pub struct RawServe {
    pub listen: Option<String>,
    pub auth_token: Option<String>,
}

impl Clone for ServeConfig {
    fn clone(&self) -> (r: Self)
        ensures
            r.listen@ == self.listen@,
            r.auth_token@ == self.auth_token@,
    {
        ServeConfig { listen: self.listen.clone(), auth_token: self.auth_token.clone() }
    }
}

/// Why a file cannot be read: the first value that is missing or does not fit.
pub open spec fn unreadable(raw: RawConfig) -> Option<ConfigErrorView> {
    match raw.daemons {
        None => Some(ConfigErrorView::Missing("daemons"@)),
        Some(daemons) => match config::read_entries(daemons@) {
            Err(e) => Some(e),
            Ok(_) => match raw.serve {
                Some(serve) => if serve.auth_token is None {
                    Some(ConfigErrorView::Missing("auth_token"@))
                } else {
                    None
                },
                None => None,
            },
        },
    }
}

/// Why a configuration is refused, in the order in which it is looked at;
/// `serve_token` is the token of what it serves, if it serves anything.
pub open spec fn refusal(
    refresh: u64,
    stale: u64,
    manage_routes: bool,
    daemons: Seq<DaemonEntryFields>,
    serve_token: Option<Seq<char>>,
) -> Option<ConfigErrorView> {
    if daemons.len() == 0 {
        Some(ConfigErrorView::NoDaemons)
    } else if refresh == 0 {
        Some(ConfigErrorView::ZeroRefresh)
    } else if stale < refresh {
        Some(ConfigErrorView::StaleBeforeRefresh { stale, refresh })
    } else if config::entries_refusal(daemons, daemons.len() as int) is Some {
        config::entries_refusal(daemons, daemons.len() as int)
    } else if serve_token is Some && serve_token.unwrap().len() == 0 {
        Some(ConfigErrorView::EmptyServeToken)
    } else if !manage_routes && serve_token is None {
        Some(ConfigErrorView::NothingToDo)
    } else {
        None
    }
}

/// Why what a file says is refused, the defaults filled in.
pub open spec fn refused(raw: RawConfig) -> Option<ConfigErrorView> {
    refusal(
        config::or_default(raw.refresh_interval_secs, DEFAULT_REFRESH),
        config::or_default(raw.stale_after_secs, DEFAULT_STALE),
        config::or_default(raw.manage_routes, true),
        config::read_entries(raw.daemons.unwrap()@)->Ok_0,
        match raw.serve {
            Some(serve) => Some(serve.auth_token.unwrap()@),
            None => None,
        },
    )
}

impl Config {
    pub open spec fn refused(self) -> Option<ConfigErrorView> {
        refusal(
            self.refresh_interval_secs,
            self.stale_after_secs,
            self.manage_routes,
            config::entries_fields(self.daemons@),
            match self.serve {
                Some(serve) => Some(serve.auth_token@),
                None => None,
            },
        )
    }

    /// Whether this is what a file says, the defaults filled in.
    pub open spec fn says(self, raw: RawConfig) -> bool {
        &&& self.refresh_interval_secs == config::or_default(
            raw.refresh_interval_secs,
            DEFAULT_REFRESH,
        )
        &&& self.stale_after_secs == config::or_default(raw.stale_after_secs, DEFAULT_STALE)
        &&& self.manage_routes == config::or_default(raw.manage_routes, true)
        &&& config::read_entries(raw.daemons.unwrap()@) == Ok::<
            Seq<DaemonEntryFields>,
            ConfigErrorView,
        >(config::entries_fields(self.daemons@))
        &&& match raw.serve {
            Some(serve) => {
                &&& self.serve is Some
                &&& self.serve.unwrap().listen@ == match serve.listen {
                    Some(listen) => listen@,
                    None => "0.0.0.0:1029"@,
                }
                &&& serve.auth_token == Some(self.serve.unwrap().auth_token)
            },
            None => self.serve is None,
        }
    }

    /// Reads a configuration, fills in the defaults and validates it.
    pub fn load(raw: RawConfig) -> (r: Result<Config, ConfigError>)
        ensures
            match r {
                Ok(cfg) => unreadable(raw) is None && refused(raw) is None && cfg.says(raw),
                Err(e) => match unreadable(raw) {
                    Some(why) => e@ == why,
                    None => refused(raw) == Some(e@),
                },
            },
    {
        let raw_daemons: Vec<RawDaemon> = match raw.daemons {
            Some(daemons) => daemons,
            None => return Err(ConfigError::Missing("daemons".to_string())),
        };
        let daemons: Vec<DaemonEntry> = match config::read_daemons(&raw_daemons) {
            Ok(daemons) => daemons,
            Err(e) => return Err(e),
        };
        let serve: Option<ServeConfig> = match raw.serve {
            Some(serve) => {
                let auth_token: String = match serve.auth_token {
                    Some(auth_token) => auth_token,
                    None => return Err(ConfigError::Missing("auth_token".to_string())),
                };
                let listen: String = match serve.listen {
                    Some(listen) => listen,
                    None => "0.0.0.0:1029".to_string(),
                };
                Some(ServeConfig { listen, auth_token })
            },
            None => None,
        };
        let cfg = Config {
            refresh_interval_secs: match raw.refresh_interval_secs {
                Some(n) => n,
                None => DEFAULT_REFRESH,
            },
            stale_after_secs: match raw.stale_after_secs {
                Some(n) => n,
                None => DEFAULT_STALE,
            },
            manage_routes: match raw.manage_routes {
                Some(b) => b,
                None => true,
            },
            daemons,
            serve,
        };
        assert(cfg.says(raw));
        match cfg.validate() {
            Ok(()) => Ok(cfg),
            Err(e) => Err(e),
        }
    }

    /// Validates a configuration that has been read.
    pub fn validate(&self) -> (r: Result<(), ConfigError>)
        ensures
            match r {
                Ok(()) => self.refused() is None,
                Err(e) => self.refused() == Some(e@),
            },
    {
        if self.daemons.len() == 0 {
            return Err(ConfigError::NoDaemons);
        }
        if self.refresh_interval_secs == 0 {
            return Err(ConfigError::ZeroRefresh);
        }
        if self.stale_after_secs < self.refresh_interval_secs {
            return Err(
                ConfigError::StaleBeforeRefresh {
                    stale: self.stale_after_secs,
                    refresh: self.refresh_interval_secs,
                },
            );
        }
        if let Some(e) = config::validate_daemons(&self.daemons) {
            return Err(e);
        }
        if let Some(serve) = &self.serve {
            if text::is_empty(serve.auth_token.as_str()) {
                return Err(ConfigError::EmptyServeToken);
            }
        }
        if !self.manage_routes && self.serve.is_none() {
            return Err(ConfigError::NothingToDo);
        }
        Ok(())
    }
}

/// A configuration is accepted exactly if it names a daemon, refreshes, keeps
/// answers at least as long as it takes to the next refresh, has daemons that
/// are all accepted, asks for a token where it serves anything, and manages
/// routes or serves.
pub proof fn law_configurations_are_accepted_without_faults(cfg: Config)
    ensures
        cfg.refused() is None <==> {
            &&& cfg.daemons@.len() > 0
            &&& cfg.refresh_interval_secs > 0
            &&& cfg.stale_after_secs >= cfg.refresh_interval_secs
            &&& config::entries_refusal(
                config::entries_fields(cfg.daemons@),
                cfg.daemons@.len() as int,
            ) is None
            &&& cfg.serve is Some ==> cfg.serve.unwrap().auth_token@.len() > 0
            &&& cfg.manage_routes || cfg.serve is Some
        },
        match cfg.refused() {
            Some(ConfigErrorView::NoDaemons) => cfg.daemons@.len() == 0,
            Some(ConfigErrorView::ZeroRefresh) => cfg.daemons@.len() > 0
                && cfg.refresh_interval_secs == 0,
            Some(ConfigErrorView::StaleBeforeRefresh { stale, refresh }) => stale
                == cfg.stale_after_secs && refresh == cfg.refresh_interval_secs && stale < refresh,
            Some(ConfigErrorView::EmptyServeToken) => cfg.serve is Some
                && cfg.serve.unwrap().auth_token@.len() == 0,
            Some(ConfigErrorView::NothingToDo) => !cfg.manage_routes && cfg.serve is None,
            Some(e) => config::entries_refusal(
                config::entries_fields(cfg.daemons@),
                cfg.daemons@.len() as int,
            ) == Some(e),
            None => true,
        },
{
    let all = config::entries_fields(cfg.daemons@);
    config::law_daemons_are_accepted_without_faults(all, all.len() as int);
}

/// A file is refused as the configuration that it says is. What it leaves out
/// is half a minute between refreshes, five minutes for an answer, managed
/// routes, and port 1029 of every address where it serves.
pub proof fn law_files_are_filled_in(cfg: Config, raw: RawConfig)
    requires
        unreadable(raw) is None,
        cfg.says(raw),
    ensures
        refused(raw) == cfg.refused(),
        raw.refresh_interval_secs is Some ==> cfg.refresh_interval_secs
            == raw.refresh_interval_secs.unwrap(),
        raw.refresh_interval_secs is None ==> cfg.refresh_interval_secs == 30,
        raw.stale_after_secs is Some ==> cfg.stale_after_secs == raw.stale_after_secs.unwrap(),
        raw.stale_after_secs is None ==> cfg.stale_after_secs == 300,
        raw.manage_routes is Some ==> cfg.manage_routes == raw.manage_routes.unwrap(),
        raw.manage_routes is None ==> cfg.manage_routes,
        raw.daemons is Some && cfg.daemons@.len() == raw.daemons.unwrap()@.len(),
        forall|i: int|
            0 <= i < cfg.daemons@.len() ==> config::read_entry(
                #[trigger] raw.daemons.unwrap()@[i],
            ) == Ok::<DaemonEntryFields, ConfigErrorView>(cfg.daemons@[i]@),
        raw.serve is Some <==> cfg.serve is Some,
        raw.serve is Some ==> raw.serve.unwrap().auth_token is Some
            && cfg.serve.unwrap().auth_token@ == raw.serve.unwrap().auth_token.unwrap()@,
        raw.serve is Some && raw.serve.unwrap().listen is Some ==> cfg.serve.unwrap().listen@
            == raw.serve.unwrap().listen.unwrap()@,
        raw.serve is Some && raw.serve.unwrap().listen is None ==> cfg.serve.unwrap().listen@
            == "0.0.0.0:1029"@,
{
    config::law_daemons_are_read_one_by_one(raw.daemons.unwrap()@);
}

/// A file can be read exactly if it lists daemons that can all be read, and
/// gives a token where it serves anything.
pub proof fn law_files_are_read_without_faults(raw: RawConfig)
    ensures
        unreadable(raw) is None <==> {
            &&& raw.daemons is Some
            &&& forall|i: int|
                0 <= i < raw.daemons.unwrap()@.len() ==> config::read_entry(
                    #[trigger] raw.daemons.unwrap()@[i],
                ) is Ok
            &&& raw.serve is Some ==> raw.serve.unwrap().auth_token is Some
        },
{
    if raw.daemons is Some {
        config::law_daemons_are_read_one_by_one(raw.daemons.unwrap()@);
    }
}

} // verus!
