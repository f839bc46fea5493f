//! The controller's configuration.

use crate::client;
use crate::config;
use crate::config::{ConfigError, ConfigErrorView, DEFAULT_REFRESH, DEFAULT_STALE};
use crate::text;
use vstd::prelude::*;

verus! {

/// The controller's configuration.
#[derive(Debug)]
pub struct Config {
    pub refresh_interval_secs: u64,
    pub stale_after_secs: u64,
    pub hosts: Vec<HostConfig>,
}

/// A host that is asked, and the path of the file that holds its token.
#[derive(Debug)]
pub struct HostConfig {
    pub name: String,
    pub url: String,
    pub auth_token_file: String,
}

#[verifier::ext_equal]
pub struct HostFields {
    pub name: Seq<char>,
    pub url: Seq<char>,
    pub auth_token_file: Seq<char>,
}

/// The configuration as a file gives it, a missing value being none.
#[derive(Debug)]
pub struct RawConfig {
    pub refresh_interval_secs: Option<u64>,
    pub stale_after_secs: Option<u64>,
    pub hosts: Option<Vec<RawHost>>,
}

#[derive(Debug)]
pub struct RawHost {
    pub name: Option<String>,
    pub url: Option<String>,
    pub auth_token_file: Option<String>,
}

impl View for HostConfig {
    type V = HostFields;

    open spec fn view(&self) -> HostFields {
        HostFields {
            name: self.name@,
            url: self.url@,
            auth_token_file: self.auth_token_file@,
        }
    }
}

pub open spec fn hosts_fields(hosts: Seq<HostConfig>) -> Seq<HostFields> {
    hosts.map_values(|h: HostConfig| h@)
}

/// What a file says of a host, or why that cannot be read.
pub open spec fn read_host_fields(raw: RawHost) -> Result<HostFields, ConfigErrorView> {
    match raw.name {
        None => Err(ConfigErrorView::Missing("name"@)),
        Some(name) => match raw.url {
            None => Err(ConfigErrorView::Missing("url"@)),
            Some(url) => match client::parsed_url(url@) {
                None => Err(ConfigErrorView::BadUrl(url@)),
                Some(parsed) => match raw.auth_token_file {
                    None => Err(ConfigErrorView::Missing("auth_token_file"@)),
                    Some(file) => Ok(
                        HostFields { name: name@, url: parsed, auth_token_file: file@ },
                    ),
                },
            },
        },
    }
}

/// What a file says of its hosts, or why the first that cannot be read cannot.
pub open spec fn read_hosts_fields(raw: Seq<RawHost>) -> Result<Seq<HostFields>, ConfigErrorView>
    decreases raw.len(),
{
    if raw.len() == 0 {
        Ok(Seq::empty())
    } else {
        match read_hosts_fields(raw.drop_last()) {
            Ok(before) => match read_host_fields(raw.last()) {
                Ok(h) => Ok(before.push(h)),
                Err(e) => Err(e),
            },
            Err(e) => Err(e),
        }
    }
}

proof fn lemma_unreadable_stays(raw: Seq<RawHost>, n: int)
    requires
        0 <= n <= raw.len(),
        read_hosts_fields(raw.take(n)) is Err,
    ensures
        read_hosts_fields(raw) == read_hosts_fields(raw.take(n)),
    decreases raw.len() - n,
{
    if n < raw.len() {
        assert(raw.take(n + 1).drop_last() =~= raw.take(n));
        lemma_unreadable_stays(raw, n + 1);
    } else {
        assert(raw.take(n) =~= raw);
    }
}

fn read_host(raw: &RawHost) -> (r: Result<HostConfig, ConfigError>)
    ensures
        match r {
            Ok(h) => read_host_fields(*raw) == Ok::<HostFields, ConfigErrorView>(h@),
            Err(e) => read_host_fields(*raw) == Err::<HostFields, ConfigErrorView>(e@),
        },
{
    let name: &String = match &raw.name {
        Some(name) => name,
        None => return Err(ConfigError::Missing("name".to_string())),
    };
    let url: String = match &raw.url {
        Some(url) => match client::parse_url(url.as_str()) {
            Some(parsed) => parsed,
            None => return Err(ConfigError::BadUrl(url.clone())),
        },
        None => return Err(ConfigError::Missing("url".to_string())),
    };
    let auth_token_file: &String = match &raw.auth_token_file {
        Some(file) => file,
        None => return Err(ConfigError::Missing("auth_token_file".to_string())),
    };
    Ok(HostConfig { name: name.clone(), url, auth_token_file: auth_token_file.clone() })
}

fn read_hosts(raw: &Vec<RawHost>) -> (r: Result<Vec<HostConfig>, ConfigError>)
    ensures
        match r {
            Ok(hosts) => read_hosts_fields(raw@) == Ok::<Seq<HostFields>, ConfigErrorView>(
                hosts_fields(hosts@),
            ),
            Err(e) => read_hosts_fields(raw@) == Err::<Seq<HostFields>, ConfigErrorView>(e@),
        },
{
    let mut hosts: Vec<HostConfig> = Vec::new();
    let mut i: usize = 0;
    assert(hosts_fields(hosts@) =~= Seq::<HostFields>::empty());
    while i < raw.len()
        invariant
            i <= raw@.len(),
            read_hosts_fields(raw@.take(i as int)) == Ok::<Seq<HostFields>, ConfigErrorView>(
                hosts_fields(hosts@),
            ),
        decreases raw@.len() - i,
    {
        assert(raw@.take(i + 1).drop_last() =~= raw@.take(i as int));
        match read_host(&raw[i]) {
            Ok(h) => {
                let ghost before = hosts@;
                hosts.push(h);
                assert(hosts_fields(hosts@) =~= hosts_fields(before).push(h@));
            },
            Err(e) => {
                proof {
                    lemma_unreadable_stays(raw@, i + 1);
                }
                return Err(e);
            },
        }
        i += 1;
    }
    assert(raw@.take(i as int) =~= raw@);
    Ok(hosts)
}

/// Why a host is refused: it needs a name that no host before it has.
pub open spec fn host_refusal(hosts: Seq<HostFields>, i: int) -> Option<ConfigErrorView> {
    if hosts[i].name.len() == 0 {
        Some(ConfigErrorView::UnnamedHost)
    } else if exists|j: int| 0 <= j < i && (#[trigger] hosts[j]).name == hosts[i].name {
        Some(ConfigErrorView::DuplicateHost(hosts[i].name))
    } else {
        None
    }
}

/// Why the first of the first `n` hosts that is refused is refused.
pub open spec fn hosts_refusal(hosts: Seq<HostFields>, n: int) -> Option<ConfigErrorView>
    decreases n,
{
    if n <= 0 {
        None
    } else if hosts_refusal(hosts, n - 1) is Some {
        hosts_refusal(hosts, n - 1)
    } else {
        host_refusal(hosts, n - 1)
    }
}

proof fn lemma_refusal_stays(hosts: Seq<HostFields>, n: int, m: int)
    requires
        n <= m,
        hosts_refusal(hosts, n) is Some,
    ensures
        hosts_refusal(hosts, m) == hosts_refusal(hosts, n),
    decreases m - n,
{
    if n < m {
        lemma_refusal_stays(hosts, n, m - 1);
    }
}

/// Whether a host before the given one has its name.
fn named_before(hosts: &Vec<HostConfig>, i: usize) -> (r: bool)
    requires
        i < hosts@.len(),
    ensures
        ({
            let all = hosts_fields(hosts@);
            r == exists|j: int| 0 <= j < i && (#[trigger] all[j]).name == all[i as int].name
        }),
{
    let ghost all = hosts_fields(hosts@);
    let mut j: usize = 0;
    while j < i
        invariant
            j <= i < hosts@.len(),
            all == hosts_fields(hosts@),
            forall|k: int| 0 <= k < j ==> (#[trigger] all[k]).name != all[i as int].name,
        decreases i - j,
    {
        assert(all[j as int].name == hosts@[j as int].name@);
        if text::same_text(hosts[j].name.as_str(), hosts[i].name.as_str()) {
            return true;
        }
        j += 1;
    }
    false
}

/// Finds the first host that is refused.
pub fn validate_hosts(hosts: &Vec<HostConfig>) -> (r: Option<ConfigError>)
    ensures
        match r {
            Some(e) => hosts_refusal(hosts_fields(hosts@), hosts@.len() as int) == Some(e@),
            None => hosts_refusal(hosts_fields(hosts@), hosts@.len() as int) is None,
        },
{
    let ghost all = hosts_fields(hosts@);
    let mut i: usize = 0;
    while i < hosts.len()
        invariant
            i <= hosts@.len(),
            all == hosts_fields(hosts@),
            hosts_refusal(all, i as int) is None,
        decreases hosts@.len() - i,
    {
        let h: &HostConfig = &hosts[i];
        assert(all[i as int] == h@);
        let mut refusal: Option<ConfigError> = None;
        if text::is_empty(h.name.as_str()) {
            refusal = Some(ConfigError::UnnamedHost);
        } else if named_before(hosts, i) {
            refusal = Some(ConfigError::DuplicateHost(h.name.clone()));
        }
        assert(match refusal {
            Some(e) => host_refusal(all, i as int) == Some(e@),
            None => host_refusal(all, i as int) is None,
        });
        if refusal.is_some() {
            proof {
                lemma_refusal_stays(all, i + 1, all.len() as int);
            }
            return refusal;
        }
        i += 1;
    }
    None
}

/// Why a file cannot be read: the first value that is missing or does not fit.
pub open spec fn unreadable(raw: RawConfig) -> Option<ConfigErrorView> {
    match raw.hosts {
        None => Some(ConfigErrorView::Missing("hosts"@)),
        Some(hosts) => match read_hosts_fields(hosts@) {
            Err(e) => Some(e),
            Ok(_) => None,
        },
    }
}

/// Why a configuration is refused, in the order in which it is looked at.
pub open spec fn refusal(refresh: u64, stale: u64, hosts: Seq<HostFields>) -> Option<
    ConfigErrorView,
> {
    if hosts.len() == 0 {
        Some(ConfigErrorView::NoHosts)
    } else if refresh == 0 {
        Some(ConfigErrorView::ZeroRefresh)
    } else if stale < refresh {
        Some(ConfigErrorView::StaleBeforeRefresh { stale, refresh })
    } else {
        hosts_refusal(hosts, hosts.len() as int)
    }
}

/// Why what a file says is refused, the defaults filled in.
pub open spec fn refused(raw: RawConfig) -> Option<ConfigErrorView> {
    refusal(
        config::or_default(raw.refresh_interval_secs, DEFAULT_REFRESH),
        config::or_default(raw.stale_after_secs, DEFAULT_STALE),
        read_hosts_fields(raw.hosts.unwrap()@)->Ok_0,
    )
}

impl Config {
    pub open spec fn refused(self) -> Option<ConfigErrorView> {
        refusal(
            self.refresh_interval_secs,
            self.stale_after_secs,
            hosts_fields(self.hosts@),
        )
    }

    /// Whether this is what a file says, the defaults filled in.
    pub open spec fn says(self, raw: RawConfig) -> bool {
        &&& self.refresh_interval_secs == config::or_default(
            raw.refresh_interval_secs,
            DEFAULT_REFRESH,
        )
        &&& self.stale_after_secs == config::or_default(raw.stale_after_secs, DEFAULT_STALE)
        &&& read_hosts_fields(raw.hosts.unwrap()@) == Ok::<Seq<HostFields>, ConfigErrorView>(
            hosts_fields(self.hosts@),
        )
    }

    /// Reads a configuration, fills in the defaults and validates it.
    pub fn load(raw: RawConfig) -> (r: Result<Config, ConfigError>)
        ensures
            match r {
                Ok(cfg) => unreadable(raw) is None && refused(raw) is None && cfg.says(raw),
                Err(e) => match unreadable(raw) {
                    Some(why) => e@ == why,
                    None => refused(raw) == Some(e@),
                },
            },
    {
        let raw_hosts: Vec<RawHost> = match raw.hosts {
            Some(hosts) => hosts,
            None => return Err(ConfigError::Missing("hosts".to_string())),
        };
        let hosts: Vec<HostConfig> = match read_hosts(&raw_hosts) {
            Ok(hosts) => hosts,
            Err(e) => return Err(e),
        };
        let cfg = Config {
            refresh_interval_secs: match raw.refresh_interval_secs {
                Some(n) => n,
                None => DEFAULT_REFRESH,
            },
            stale_after_secs: match raw.stale_after_secs {
                Some(n) => n,
                None => DEFAULT_STALE,
            },
            hosts,
        };
        assert(cfg.says(raw));
        match cfg.validate() {
            Ok(()) => Ok(cfg),
            Err(e) => Err(e),
        }
    }

    /// Validates a configuration that has been read.
    pub fn validate(&self) -> (r: Result<(), ConfigError>)
        ensures
            match r {
                Ok(()) => self.refused() is None,
                Err(e) => self.refused() == Some(e@),
            },
    {
        if self.hosts.len() == 0 {
            return Err(ConfigError::NoHosts);
        }
        if self.refresh_interval_secs == 0 {
            return Err(ConfigError::ZeroRefresh);
        }
        if self.stale_after_secs < self.refresh_interval_secs {
            return Err(
                ConfigError::StaleBeforeRefresh {
                    stale: self.stale_after_secs,
                    refresh: self.refresh_interval_secs,
                },
            );
        }
        match validate_hosts(&self.hosts) {
            Some(e) => Err(e),
            None => Ok(()),
        }
    }
}

impl HostConfig {
    /// Takes the token out of its file's contents: what is left without the
    /// white space around it, unless that is nothing.
    pub fn read_token(contents: &str) -> (r: Option<String>)
        ensures
            match r {
                Some(token) => token@ == text::trimmed(contents@) && token@.len() > 0,
                None => text::trimmed(contents@).len() == 0,
            },
    {
        let token: String = text::trim_text(contents);
        if text::is_empty(token.as_str()) {
            None
        } else {
            Some(token)
        }
    }
}

/// Where no host is refused, each has a name, and no two have the same.
pub proof fn law_accepted_hosts_are_distinct(hosts: Seq<HostFields>, i: int, j: int)
    requires
        hosts_refusal(hosts, hosts.len() as int) is None,
        0 <= i <= j < hosts.len(),
    ensures
        i < j ==> hosts[i].name != hosts[j].name,
        hosts[j].name.len() > 0,
{
    if hosts_refusal(hosts, j + 1) is Some {
        lemma_refusal_stays(hosts, j + 1, hosts.len() as int);
    }
}

/// A host can be read exactly if all of its values are there and its URL is
/// one; its values are then kept as given, the URL in its normal form.
pub proof fn law_hosts_are_read_as_given(raw: RawHost)
    ensures
        read_host_fields(raw) is Ok <==> {
            &&& raw.name is Some
            &&& raw.url is Some && client::parsed_url(raw.url.unwrap()@) is Some
            &&& raw.auth_token_file is Some
        },
        match read_host_fields(raw) {
            Ok(h) => {
                &&& h.name == raw.name.unwrap()@
                &&& Some(h.url) == client::parsed_url(raw.url.unwrap()@)
                &&& h.auth_token_file == raw.auth_token_file.unwrap()@
            },
            Err(ConfigErrorView::BadUrl(s)) => raw.url is Some && s == raw.url.unwrap()@
                && client::parsed_url(s) is None,
            Err(ConfigErrorView::Missing(field)) => {
                ||| field == "name"@ && raw.name is None
                ||| field == "url"@ && raw.url is None
                ||| field == "auth_token_file"@ && raw.auth_token_file is None
            },
            _ => false,
        },
{
}

/// The hosts of a file are read one by one: all of them, in order, or the
/// fault of the first that cannot be read.
pub proof fn law_hosts_are_read_one_by_one(raw: Seq<RawHost>)
    ensures
        match read_hosts_fields(raw) {
            Ok(hosts) => hosts.len() == raw.len() && forall|i: int|
                0 <= i < raw.len() ==> read_host_fields(#[trigger] raw[i]) == Ok::<
                    HostFields,
                    ConfigErrorView,
                >(hosts[i]),
            Err(e) => exists|i: int|
                0 <= i < raw.len() && read_host_fields(#[trigger] raw[i]) == Err::<
                    HostFields,
                    ConfigErrorView,
                >(e) && (forall|j: int|
                    0 <= j < i ==> read_host_fields(#[trigger] raw[j]) is Ok),
        },
    decreases raw.len(),
{
    if raw.len() > 0 {
        let rest = raw.drop_last();
        let last = raw.len() - 1;
        law_hosts_are_read_one_by_one(rest);
        assert(raw[last] == raw.last());
        assert forall|i: int| 0 <= i < last implies #[trigger] raw[i] == rest[i] by {}
        match read_hosts_fields(rest) {
            Ok(hosts) => {
                assert forall|j: int| 0 <= j < last implies read_host_fields(
                    #[trigger] raw[j],
                ) == Ok::<HostFields, ConfigErrorView>(hosts[j]) by {
                    assert(rest[j] == raw[j]);
                }
            },
            Err(e) => {
                let i = choose|i: int|
                    0 <= i < rest.len() && read_host_fields(#[trigger] rest[i]) == Err::<
                        HostFields,
                        ConfigErrorView,
                    >(e) && (forall|j: int|
                        0 <= j < i ==> read_host_fields(#[trigger] rest[j]) is Ok);
                assert(raw[i] == rest[i]);
                assert forall|j: int| 0 <= j < i implies read_host_fields(
                    #[trigger] raw[j],
                ) is Ok by {
                    assert(rest[j] == raw[j]);
                }
            },
        }
    }
}

/// The hosts are accepted exactly if each has a name and no two have the
/// same. A refusal tells of the first host of which one of these does not
/// hold.
pub proof fn law_hosts_are_accepted_without_faults(hosts: Seq<HostFields>, n: int)
    requires
        0 <= n <= hosts.len(),
    ensures
        hosts_refusal(hosts, n) is None <==> {
            &&& forall|i: int| 0 <= i < n ==> (#[trigger] hosts[i]).name.len() > 0
            &&& forall|i: int, j: int|
                0 <= j < i < n ==> (#[trigger] hosts[i]).name != (#[trigger] hosts[j]).name
        },
        hosts_refusal(hosts, n) is Some ==> exists|i: int|
            0 <= i < n && hosts_refusal(hosts, i) is None && match hosts_refusal(hosts, n).unwrap() {
                ConfigErrorView::UnnamedHost => (#[trigger] hosts[i]).name.len() == 0,
                ConfigErrorView::DuplicateHost(name) => name == hosts[i].name && exists|j: int|
                    0 <= j < i && (#[trigger] hosts[j]).name == name,
                _ => false,
            },
    decreases n,
{
    if n > 0 {
        law_hosts_are_accepted_without_faults(hosts, n - 1);
        let h = hosts[n - 1];
        if hosts_refusal(hosts, n) is None {
            assert forall|i: int, j: int| 0 <= j < i < n implies (#[trigger] hosts[i]).name != (
            #[trigger] hosts[j]).name by {}
        }
    }
}

/// A configuration is accepted exactly if it names a host, refreshes, keeps
/// answers at least as long as it takes to the next refresh, and has hosts
/// that are all accepted.
pub proof fn law_configurations_are_accepted_without_faults(cfg: Config)
    ensures
        cfg.refused() is None <==> {
            &&& cfg.hosts@.len() > 0
            &&& cfg.refresh_interval_secs > 0
            &&& cfg.stale_after_secs >= cfg.refresh_interval_secs
            &&& hosts_refusal(hosts_fields(cfg.hosts@), cfg.hosts@.len() as int) is None
        },
        match cfg.refused() {
            Some(ConfigErrorView::NoHosts) => cfg.hosts@.len() == 0,
            Some(ConfigErrorView::ZeroRefresh) => cfg.hosts@.len() > 0
                && cfg.refresh_interval_secs == 0,
            Some(ConfigErrorView::StaleBeforeRefresh { stale, refresh }) => stale
                == cfg.stale_after_secs && refresh == cfg.refresh_interval_secs && stale < refresh,
            Some(e) => hosts_refusal(hosts_fields(cfg.hosts@), cfg.hosts@.len() as int) == Some(e),
            None => true,
        },
{
    let all = hosts_fields(cfg.hosts@);
    law_hosts_are_accepted_without_faults(all, all.len() as int);
}

/// A file is refused as the configuration that it says is. What it leaves out
/// is half a minute between refreshes and five minutes for an answer.
pub proof fn law_files_are_filled_in(cfg: Config, raw: RawConfig)
    requires
        unreadable(raw) is None,
        cfg.says(raw),
    ensures
        refused(raw) == cfg.refused(),
        raw.refresh_interval_secs is Some ==> cfg.refresh_interval_secs
            == raw.refresh_interval_secs.unwrap(),
        raw.refresh_interval_secs is None ==> cfg.refresh_interval_secs == 30,
        raw.stale_after_secs is Some ==> cfg.stale_after_secs == raw.stale_after_secs.unwrap(),
        raw.stale_after_secs is None ==> cfg.stale_after_secs == 300,
        raw.hosts is Some && cfg.hosts@.len() == raw.hosts.unwrap()@.len(),
        forall|i: int|
            0 <= i < cfg.hosts@.len() ==> read_host_fields(#[trigger] raw.hosts.unwrap()@[i])
                == Ok::<HostFields, ConfigErrorView>(cfg.hosts@[i]@),
{
    law_hosts_are_read_one_by_one(raw.hosts.unwrap()@);
}

/// A file can be read exactly if it lists hosts that can all be read.
pub proof fn law_files_are_read_without_faults(raw: RawConfig)
    ensures
        unreadable(raw) is None <==> {
            &&& raw.hosts is Some
            &&& forall|i: int|
                0 <= i < raw.hosts.unwrap()@.len() ==> read_host_fields(
                    #[trigger] raw.hosts.unwrap()@[i],
                ) is Ok
        },
{
    if raw.hosts is Some {
        law_hosts_are_read_one_by_one(raw.hosts.unwrap()@);
    }
}

} // verus!
