//! What the configurations have in common: daemons to ask, and why a
//! configuration is refused.

use crate::client;
use crate::net;
use crate::net::Ipv4Addr;
use crate::text;
use vstd::prelude::*;

verus! {

/// A daemon and where its traffic goes.
#[derive(Debug)]
pub struct DaemonEntry {
    pub name: String,
    pub endpoint: String,
    pub auth_token: String,
    pub nexthop: Ipv4Addr,
    pub device: String,
}

#[verifier::ext_equal]
pub struct DaemonEntryFields {
    pub name: Seq<char>,
    pub endpoint: Seq<char>,
    pub auth_token: Seq<char>,
    pub nexthop: Ipv4Addr,
    pub device: Seq<char>,
}

/// A daemon as a configuration file gives it, a missing value being none.
#[derive(Debug)]
pub struct RawDaemon {
    pub name: Option<String>,
    pub endpoint: Option<String>,
    pub auth_token: Option<String>,
    pub nexthop: Option<String>,
    pub device: Option<String>,
}

/// Why a configuration is refused.
#[derive(Debug)]
pub enum ConfigError {
    /// A value that has no default is missing.
    Missing(String),
    /// A text that is no URL.
    BadUrl(String),
    /// A text that is no address.
    BadAddress(String),
    EmptyAuthToken,
    NoIfaces,
    NoDaemons,
    NoHosts,
    ZeroRefresh,
    StaleBeforeRefresh { stale: u64, refresh: u64 },
    IdOutOfRange(u8),
    NoDscpIfaces,
    ZeroMaxFlows,
    UnnamedDaemon,
    EmptyDevice(String),
    EmptyDaemonToken(String),
    DuplicateDaemon(String),
    UnnamedHost,
    DuplicateHost(String),
    EmptyServeToken,
    NothingToDo,
}

#[verifier::ext_equal]
pub enum ConfigErrorView {
    Missing(Seq<char>),
    BadUrl(Seq<char>),
    BadAddress(Seq<char>),
    EmptyAuthToken,
    NoIfaces,
    NoDaemons,
    NoHosts,
    ZeroRefresh,
    StaleBeforeRefresh { stale: u64, refresh: u64 },
    IdOutOfRange(u8),
    NoDscpIfaces,
    ZeroMaxFlows,
    UnnamedDaemon,
    EmptyDevice(Seq<char>),
    EmptyDaemonToken(Seq<char>),
    DuplicateDaemon(Seq<char>),
    UnnamedHost,
    DuplicateHost(Seq<char>),
    EmptyServeToken,
    NothingToDo,
}

impl View for ConfigError {
    type V = ConfigErrorView;

    open spec fn view(&self) -> ConfigErrorView {
        match self {
            ConfigError::Missing(s) => ConfigErrorView::Missing(s@),
            ConfigError::BadUrl(s) => ConfigErrorView::BadUrl(s@),
            ConfigError::BadAddress(s) => ConfigErrorView::BadAddress(s@),
            ConfigError::EmptyAuthToken => ConfigErrorView::EmptyAuthToken,
            ConfigError::NoIfaces => ConfigErrorView::NoIfaces,
            ConfigError::NoDaemons => ConfigErrorView::NoDaemons,
            ConfigError::NoHosts => ConfigErrorView::NoHosts,
            ConfigError::ZeroRefresh => ConfigErrorView::ZeroRefresh,
            ConfigError::StaleBeforeRefresh { stale, refresh } =>
                ConfigErrorView::StaleBeforeRefresh { stale: *stale, refresh: *refresh },
            ConfigError::IdOutOfRange(id) => ConfigErrorView::IdOutOfRange(*id),
            ConfigError::NoDscpIfaces => ConfigErrorView::NoDscpIfaces,
            ConfigError::ZeroMaxFlows => ConfigErrorView::ZeroMaxFlows,
            ConfigError::UnnamedDaemon => ConfigErrorView::UnnamedDaemon,
            ConfigError::EmptyDevice(s) => ConfigErrorView::EmptyDevice(s@),
            ConfigError::EmptyDaemonToken(s) => ConfigErrorView::EmptyDaemonToken(s@),
            ConfigError::DuplicateDaemon(s) => ConfigErrorView::DuplicateDaemon(s@),
            ConfigError::UnnamedHost => ConfigErrorView::UnnamedHost,
            ConfigError::DuplicateHost(s) => ConfigErrorView::DuplicateHost(s@),
            ConfigError::EmptyServeToken => ConfigErrorView::EmptyServeToken,
            ConfigError::NothingToDo => ConfigErrorView::NothingToDo,
        }
    }
}

impl View for DaemonEntry {
    type V = DaemonEntryFields;

    open spec fn view(&self) -> DaemonEntryFields {
        DaemonEntryFields {
            name: self.name@,
            endpoint: self.endpoint@,
            auth_token: self.auth_token@,
            nexthop: self.nexthop,
            device: self.device@,
        }
    }
}

impl Clone for DaemonEntry {
    fn clone(&self) -> (r: Self)
        ensures
            r@ == self@,
    {
        DaemonEntry {
            name: self.name.clone(),
            endpoint: self.endpoint.clone(),
            auth_token: self.auth_token.clone(),
            nexthop: self.nexthop,
            device: self.device.clone(),
        }
    }
}

/// The message of a refusal.
pub open spec fn config_error_text(e: ConfigErrorView) -> Seq<char> {
    match e {
        ConfigErrorView::Missing(field) => "config: missing field `"@ + field + "`"@,
        ConfigErrorView::BadUrl(s) => "config: `"@ + s + "` is no URL"@,
        ConfigErrorView::BadAddress(s) => "config: `"@ + s + "` is no IPv4 address"@,
        ConfigErrorView::EmptyAuthToken => "config: `auth_token` must be non-empty"@,
        ConfigErrorView::NoIfaces => "config: `ifaces` must list at least one interface"@,
        ConfigErrorView::NoDaemons => "config: `daemons` must list at least one entry"@,
        ConfigErrorView::NoHosts => "config: `hosts` must list at least one daemon"@,
        ConfigErrorView::ZeroRefresh => "config: `refresh_interval_secs` must be > 0"@,
        ConfigErrorView::StaleBeforeRefresh { stale, refresh } => "config: `stale_after_secs` ("@
            + text::decimal_text(stale as nat) + ") must be >= `refresh_interval_secs` ("@
            + text::decimal_text(refresh as nat) + ")"@,
        ConfigErrorView::IdOutOfRange(id) => "config: `dumbarpd_id` ("@ + text::decimal_text(
            id as nat,
        ) + ") must be between 1 and 63 (0 disables DSCP mode)"@,
        ConfigErrorView::NoDscpIfaces =>
            "config: `[dscp].ifaces` must list at least one interface"@,
        ConfigErrorView::ZeroMaxFlows => "config: `[dscp].max_flows` must be > 0"@,
        ConfigErrorView::UnnamedDaemon => "config: every daemon needs a non-empty `name`"@,
        ConfigErrorView::EmptyDevice(name) => "config: daemon `"@ + name
            + "` has empty `device`"@,
        ConfigErrorView::EmptyDaemonToken(name) => "config: daemon `"@ + name
            + "` has empty `auth_token`"@,
        ConfigErrorView::DuplicateDaemon(name) => "config: duplicate daemon name `"@ + name
            + "`"@,
        ConfigErrorView::UnnamedHost => "config: every host needs a non-empty `name`"@,
        ConfigErrorView::DuplicateHost(name) => "config: duplicate host name `"@ + name + "`"@,
        ConfigErrorView::EmptyServeToken => "config: `[serve].auth_token` must be non-empty"@,
        ConfigErrorView::NothingToDo =>
            "config: `manage_routes = false` with no `[serve]` leaves nothing for this gateway to do"@,
    }
}

/// Three texts in a row.
fn joined(a: &str, b: &str, c: &str) -> (s: String)
    ensures
        s@ == a@ + b@ + c@,
{
    let mut s: String = String::new();
    text::append(&mut s, a);
    text::append(&mut s, b);
    text::append(&mut s, c);
    assert(s@ =~= a@ + b@ + c@);
    s
}

impl ConfigError {
    /// Says why the configuration is refused.
    pub fn to_text(&self) -> (s: String)
        ensures
            s@ == config_error_text(self@),
    {
        match self {
            ConfigError::Missing(field) => joined(
                "config: missing field `",
                field.as_str(),
                "`",
            ),
            ConfigError::BadUrl(raw) => joined("config: `", raw.as_str(), "` is no URL"),
            ConfigError::BadAddress(raw) => joined(
                "config: `",
                raw.as_str(),
                "` is no IPv4 address",
            ),
            ConfigError::EmptyAuthToken => "config: `auth_token` must be non-empty".to_string(),
            ConfigError::NoIfaces =>
                "config: `ifaces` must list at least one interface".to_string(),
            ConfigError::NoDaemons => "config: `daemons` must list at least one entry".to_string(),
            ConfigError::NoHosts => "config: `hosts` must list at least one daemon".to_string(),
            ConfigError::ZeroRefresh => "config: `refresh_interval_secs` must be > 0".to_string(),
            ConfigError::StaleBeforeRefresh { stale, refresh } => {
                let mut s: String = String::new();
                text::append(&mut s, "config: `stale_after_secs` (");
                text::append_number(&mut s, *stale);
                text::append(&mut s, ") must be >= `refresh_interval_secs` (");
                text::append_number(&mut s, *refresh);
                text::append(&mut s, ")");
                assert(s@ =~= config_error_text(self@));
                s
            },
            ConfigError::IdOutOfRange(id) => {
                let mut s: String = String::new();
                text::append(&mut s, "config: `dumbarpd_id` (");
                text::append_number(&mut s, *id as u64);
                text::append(&mut s, ") must be between 1 and 63 (0 disables DSCP mode)");
                assert(s@ =~= config_error_text(self@));
                s
            },
            ConfigError::NoDscpIfaces =>
                "config: `[dscp].ifaces` must list at least one interface".to_string(),
            ConfigError::ZeroMaxFlows => "config: `[dscp].max_flows` must be > 0".to_string(),
            ConfigError::UnnamedDaemon =>
                "config: every daemon needs a non-empty `name`".to_string(),
            ConfigError::EmptyDevice(name) => joined(
                "config: daemon `",
                name.as_str(),
                "` has empty `device`",
            ),
            ConfigError::EmptyDaemonToken(name) => joined(
                "config: daemon `",
                name.as_str(),
                "` has empty `auth_token`",
            ),
            ConfigError::DuplicateDaemon(name) => joined(
                "config: duplicate daemon name `",
                name.as_str(),
                "`",
            ),
            ConfigError::UnnamedHost => "config: every host needs a non-empty `name`".to_string(),
            ConfigError::DuplicateHost(name) => joined(
                "config: duplicate host name `",
                name.as_str(),
                "`",
            ),
            ConfigError::EmptyServeToken =>
                "config: `[serve].auth_token` must be non-empty".to_string(),
            ConfigError::NothingToDo =>
                "config: `manage_routes = false` with no `[serve]` leaves nothing for this gateway to do".to_string(),
        }
    }
}

/// The default of a refresh interval, in seconds.
pub const DEFAULT_REFRESH: u64 = 30;

/// The default of how long an answer counts, in seconds.
pub const DEFAULT_STALE: u64 = 300;

/// A value, or else its default.
pub open spec fn or_default<T>(value: Option<T>, default: T) -> T {
    match value {
        Some(v) => v,
        None => default,
    }
}

/// What a file says of a daemon, or why that cannot be read: the first value
/// that is missing or does not fit, in the order of the fields.
pub open spec fn read_entry(raw: RawDaemon) -> Result<DaemonEntryFields, ConfigErrorView> {
    match raw.name {
        None => Err(ConfigErrorView::Missing("name"@)),
        Some(name) => match raw.endpoint {
            None => Err(ConfigErrorView::Missing("endpoint"@)),
            Some(endpoint) => match client::parsed_url(endpoint@) {
                None => Err(ConfigErrorView::BadUrl(endpoint@)),
                Some(url) => match raw.auth_token {
                    None => Err(ConfigErrorView::Missing("auth_token"@)),
                    Some(auth_token) => match raw.nexthop {
                        None => Err(ConfigErrorView::Missing("nexthop"@)),
                        Some(nexthop) => match net::address_of(nexthop@) {
                            None => Err(ConfigErrorView::BadAddress(nexthop@)),
                            Some(ip) => match raw.device {
                                None => Err(ConfigErrorView::Missing("device"@)),
                                Some(device) => Ok(
                                    DaemonEntryFields {
                                        name: name@,
                                        endpoint: url,
                                        auth_token: auth_token@,
                                        nexthop: ip,
                                        device: device@,
                                    },
                                ),
                            },
                        },
                    },
                },
            },
        },
    }
}

pub fn read_daemon(raw: &RawDaemon) -> (r: Result<DaemonEntry, ConfigError>)
    ensures
        match r {
            Ok(entry) => read_entry(*raw) == Ok::<DaemonEntryFields, ConfigErrorView>(entry@),
            Err(e) => read_entry(*raw) == Err::<DaemonEntryFields, ConfigErrorView>(e@),
        },
{
    let name: &String = match &raw.name {
        Some(name) => name,
        None => return Err(ConfigError::Missing("name".to_string())),
    };
    let endpoint: String = match &raw.endpoint {
        Some(endpoint) => match client::parse_url(endpoint.as_str()) {
            Some(url) => url,
            None => return Err(ConfigError::BadUrl(endpoint.clone())),
        },
        None => return Err(ConfigError::Missing("endpoint".to_string())),
    };
    let auth_token: &String = match &raw.auth_token {
        Some(auth_token) => auth_token,
        None => return Err(ConfigError::Missing("auth_token".to_string())),
    };
    let nexthop: Ipv4Addr = match &raw.nexthop {
        Some(nexthop) => match Ipv4Addr::parse(nexthop.as_str()) {
            Some(ip) => ip,
            None => return Err(ConfigError::BadAddress(nexthop.clone())),
        },
        None => return Err(ConfigError::Missing("nexthop".to_string())),
    };
    let device: &String = match &raw.device {
        Some(device) => device,
        None => return Err(ConfigError::Missing("device".to_string())),
    };
    Ok(
        DaemonEntry {
            name: name.clone(),
            endpoint,
            auth_token: auth_token.clone(),
            nexthop,
            device: device.clone(),
        },
    )
}

pub open spec fn entries_fields(entries: Seq<DaemonEntry>) -> Seq<DaemonEntryFields> {
    entries.map_values(|d: DaemonEntry| d@)
}

/// What a file says of its daemons, or why the first that cannot be read
/// cannot.
pub open spec fn read_entries(raw: Seq<RawDaemon>) -> Result<
    Seq<DaemonEntryFields>,
    ConfigErrorView,
>
    decreases raw.len(),
{
    if raw.len() == 0 {
        Ok(Seq::empty())
    } else {
        match read_entries(raw.drop_last()) {
            Ok(before) => match read_entry(raw.last()) {
                Ok(d) => Ok(before.push(d)),
                Err(e) => Err(e),
            },
            Err(e) => Err(e),
        }
    }
}

proof fn lemma_unreadable_stays(raw: Seq<RawDaemon>, n: int)
    requires
        0 <= n <= raw.len(),
        read_entries(raw.take(n)) is Err,
    ensures
        read_entries(raw) == read_entries(raw.take(n)),
    decreases raw.len() - n,
{
    if n < raw.len() {
        assert(raw.take(n + 1).drop_last() =~= raw.take(n));
        lemma_unreadable_stays(raw, n + 1);
    } else {
        assert(raw.take(n) =~= raw);
    }
}

pub fn read_daemons(raw: &Vec<RawDaemon>) -> (r: Result<Vec<DaemonEntry>, ConfigError>)
    ensures
        match r {
            Ok(entries) => read_entries(raw@) == Ok::<Seq<DaemonEntryFields>, ConfigErrorView>(
                entries_fields(entries@),
            ),
            Err(e) => read_entries(raw@) == Err::<Seq<DaemonEntryFields>, ConfigErrorView>(e@),
        },
{
    let mut entries: Vec<DaemonEntry> = Vec::new();
    let mut i: usize = 0;
    assert(entries_fields(entries@) =~= Seq::<DaemonEntryFields>::empty());
    while i < raw.len()
        invariant
            i <= raw@.len(),
            read_entries(raw@.take(i as int)) == Ok::<Seq<DaemonEntryFields>, ConfigErrorView>(
                entries_fields(entries@),
            ),
        decreases raw@.len() - i,
    {
        assert(raw@.take(i + 1).drop_last() =~= raw@.take(i as int));
        match read_daemon(&raw[i]) {
            Ok(d) => {
                let ghost before = entries@;
                entries.push(d);
                assert(entries_fields(entries@) =~= entries_fields(before).push(d@));
            },
            Err(e) => {
                proof {
                    lemma_unreadable_stays(raw@, i + 1);
                }
                return Err(e);
            },
        }
        i += 1;
    }
    assert(raw@.take(i as int) =~= raw@);
    Ok(entries)
}

/// Why a daemon is refused: it needs a name, a device and a token, and a name
/// that no daemon before it has.
pub open spec fn entry_refusal(entries: Seq<DaemonEntryFields>, i: int) -> Option<
    ConfigErrorView,
> {
    let d = entries[i];
    if d.name.len() == 0 {
        Some(ConfigErrorView::UnnamedDaemon)
    } else if d.device.len() == 0 {
        Some(ConfigErrorView::EmptyDevice(d.name))
    } else if d.auth_token.len() == 0 {
        Some(ConfigErrorView::EmptyDaemonToken(d.name))
    } else if exists|j: int| 0 <= j < i && (#[trigger] entries[j]).name == d.name {
        Some(ConfigErrorView::DuplicateDaemon(d.name))
    } else {
        None
    }
}

/// Why the first of the first `n` daemons that is refused is refused.
pub open spec fn entries_refusal(entries: Seq<DaemonEntryFields>, n: int) -> Option<
    ConfigErrorView,
>
    decreases n,
{
    if n <= 0 {
        None
    } else if entries_refusal(entries, n - 1) is Some {
        entries_refusal(entries, n - 1)
    } else {
        entry_refusal(entries, n - 1)
    }
}

proof fn lemma_refusal_stays(entries: Seq<DaemonEntryFields>, n: int, m: int)
    requires
        n <= m,
        entries_refusal(entries, n) is Some,
    ensures
        entries_refusal(entries, m) == entries_refusal(entries, n),
    decreases m - n,
{
    if n < m {
        lemma_refusal_stays(entries, n, m - 1);
    }
}

/// Looks for the first daemon that is refused.
pub fn validate_daemons(entries: &Vec<DaemonEntry>) -> (r: Option<ConfigError>)
    ensures
        match r {
            Some(e) => entries_refusal(entries_fields(entries@), entries@.len() as int) == Some(
                e@,
            ),
            None => entries_refusal(entries_fields(entries@), entries@.len() as int) is None,
        },
{
    let ghost all = entries_fields(entries@);
    let mut i: usize = 0;
    while i < entries.len()
        invariant
            i <= entries@.len(),
            all == entries_fields(entries@),
            entries_refusal(all, i as int) is None,
        decreases entries@.len() - i,
    {
        let d: &DaemonEntry = &entries[i];
        assert(all[i as int] == d@);
        let mut refusal: Option<ConfigError> = None;
        if text::is_empty(d.name.as_str()) {
            refusal = Some(ConfigError::UnnamedDaemon);
        } else if text::is_empty(d.device.as_str()) {
            refusal = Some(ConfigError::EmptyDevice(d.name.clone()));
        } else if text::is_empty(d.auth_token.as_str()) {
            refusal = Some(ConfigError::EmptyDaemonToken(d.name.clone()));
        } else if named_before(entries, i) {
            refusal = Some(ConfigError::DuplicateDaemon(d.name.clone()));
        }
        assert(match refusal {
            Some(e) => entry_refusal(all, i as int) == Some(e@),
            None => entry_refusal(all, i as int) is None,
        });
        if refusal.is_some() {
            proof {
                lemma_refusal_stays(all, i + 1, all.len() as int);
            }
            return refusal;
        }
        i += 1;
    }
    None
}

/// Whether a daemon before the given one has its name.
fn named_before(entries: &Vec<DaemonEntry>, i: usize) -> (r: bool)
    requires
        i < entries@.len(),
    ensures
        ({
            let all = entries_fields(entries@);
            r == exists|j: int| 0 <= j < i && (#[trigger] all[j]).name == all[i as int].name
        }),
{
    let ghost all = entries_fields(entries@);
    let mut j: usize = 0;
    while j < i
        invariant
            j <= i < entries@.len(),
            all == entries_fields(entries@),
            forall|k: int| 0 <= k < j ==> (#[trigger] all[k]).name != all[i as int].name,
        decreases i - j,
    {
        assert(all[j as int].name == entries@[j as int].name@);
        if text::same_text(entries[j].name.as_str(), entries[i].name.as_str()) {
            return true;
        }
        j += 1;
    }
    false
}

/// Where no daemon is refused, each has a name, a device and a token, and no
/// two have the same name.
pub proof fn law_accepted_daemons_are_distinct(entries: Seq<DaemonEntryFields>, i: int, j: int)
    requires
        entries_refusal(entries, entries.len() as int) is None,
        0 <= i <= j < entries.len(),
    ensures
        i < j ==> entries[i].name != entries[j].name,
        entries[j].name.len() > 0,
        entries[j].device.len() > 0,
        entries[j].auth_token.len() > 0,
{
    if entries_refusal(entries, j + 1) is Some {
        lemma_refusal_stays(entries, j + 1, entries.len() as int);
    }
}

/// A daemon can be read exactly if all of its values are there, its endpoint
/// is a URL and its next hop an address; its values are then kept as given,
/// the endpoint in its normal form.
pub proof fn law_daemons_are_read_as_given(raw: RawDaemon)
    ensures
        read_entry(raw) is Ok <==> {
            &&& raw.name is Some
            &&& raw.endpoint is Some && client::parsed_url(raw.endpoint.unwrap()@) is Some
            &&& raw.auth_token is Some
            &&& raw.nexthop is Some && exists|ip: Ipv4Addr|
                raw.nexthop.unwrap()@ == #[trigger] ip.text()
            &&& raw.device is Some
        },
        match read_entry(raw) {
            Ok(d) => {
                &&& d.name == raw.name.unwrap()@
                &&& Some(d.endpoint) == client::parsed_url(raw.endpoint.unwrap()@)
                &&& d.auth_token == raw.auth_token.unwrap()@
                &&& raw.nexthop.unwrap()@ == d.nexthop.text()
                &&& d.device == raw.device.unwrap()@
            },
            Err(ConfigErrorView::BadUrl(s)) => raw.endpoint is Some && s == raw.endpoint.unwrap()@
                && client::parsed_url(s) is None,
            Err(ConfigErrorView::BadAddress(s)) => raw.nexthop is Some && s
                == raw.nexthop.unwrap()@ && forall|ip: Ipv4Addr| s != #[trigger] ip.text(),
            Err(ConfigErrorView::Missing(field)) => {
                ||| field == "name"@ && raw.name is None
                ||| field == "endpoint"@ && raw.endpoint is None
                ||| field == "auth_token"@ && raw.auth_token is None
                ||| field == "nexthop"@ && raw.nexthop is None
                ||| field == "device"@ && raw.device is None
            },
            _ => false,
        },
{
    if raw.nexthop is Some {
        let s = raw.nexthop.unwrap()@;
        if exists|ip: Ipv4Addr| s == #[trigger] ip.text() {
            let ip = choose|ip: Ipv4Addr| s == #[trigger] ip.text();
            net::law_only_written_addresses_are_read(s, ip);
        }
        if let Some(ip) = net::address_of(s) {
            net::law_only_written_addresses_are_read(s, ip);
        }
    }
}

/// The daemons of a file are read one by one: all of them, in order, or the
/// fault of the first that cannot be read.
pub proof fn law_daemons_are_read_one_by_one(raw: Seq<RawDaemon>)
    ensures
        match read_entries(raw) {
            Ok(entries) => entries.len() == raw.len() && forall|i: int|
                0 <= i < raw.len() ==> read_entry(#[trigger] raw[i]) == Ok::<
                    DaemonEntryFields,
                    ConfigErrorView,
                >(entries[i]),
            Err(e) => exists|i: int|
                0 <= i < raw.len() && read_entry(#[trigger] raw[i]) == Err::<
                    DaemonEntryFields,
                    ConfigErrorView,
                >(e) && (forall|j: int| 0 <= j < i ==> read_entry(#[trigger] raw[j]) is Ok),
        },
    decreases raw.len(),
{
    if raw.len() > 0 {
        let rest = raw.drop_last();
        let last = raw.len() - 1;
        law_daemons_are_read_one_by_one(rest);
        assert(raw[last] == raw.last());
        assert forall|i: int| 0 <= i < last implies #[trigger] raw[i] == rest[i] by {}
        match read_entries(rest) {
            Ok(entries) => {
                assert forall|j: int| 0 <= j < last implies read_entry(#[trigger] raw[j]) == Ok::<
                    DaemonEntryFields,
                    ConfigErrorView,
                >(entries[j]) by {
                    assert(rest[j] == raw[j]);
                }
            },
            Err(e) => {
                let i = choose|i: int|
                    0 <= i < rest.len() && read_entry(#[trigger] rest[i]) == Err::<
                        DaemonEntryFields,
                        ConfigErrorView,
                    >(e) && (forall|j: int| 0 <= j < i ==> read_entry(#[trigger] rest[j]) is Ok);
                assert(raw[i] == rest[i]);
                assert forall|j: int| 0 <= j < i implies read_entry(#[trigger] raw[j]) is Ok by {
                    assert(rest[j] == raw[j]);
                }
            },
        }
    }
}

/// The daemons are accepted exactly if each has a name, a device and a token
/// and no two have the same name. A refusal tells of the first daemon of
/// which one of these does not hold.
pub proof fn law_daemons_are_accepted_without_faults(entries: Seq<DaemonEntryFields>, n: int)
    requires
        0 <= n <= entries.len(),
    ensures
        entries_refusal(entries, n) is None <==> {
            &&& forall|i: int|
                0 <= i < n ==> (#[trigger] entries[i]).name.len() > 0 && entries[i].device.len() > 0
                    && entries[i].auth_token.len() > 0
            &&& forall|i: int, j: int|
                0 <= j < i < n ==> (#[trigger] entries[i]).name != (#[trigger] entries[j]).name
        },
        entries_refusal(entries, n) is Some ==> exists|i: int|
            0 <= i < n && entries_refusal(entries, i) is None && match entries_refusal(
                entries,
                n,
            ).unwrap() {
                ConfigErrorView::UnnamedDaemon => (#[trigger] entries[i]).name.len() == 0,
                ConfigErrorView::EmptyDevice(name) => name == entries[i].name
                    && entries[i].device.len() == 0,
                ConfigErrorView::EmptyDaemonToken(name) => name == entries[i].name
                    && entries[i].auth_token.len() == 0,
                ConfigErrorView::DuplicateDaemon(name) => name == entries[i].name && exists|
                    j: int,
                |
                    0 <= j < i && (#[trigger] entries[j]).name == name,
                _ => false,
            },
    decreases n,
{
    if n > 0 {
        law_daemons_are_accepted_without_faults(entries, n - 1);
        let d = entries[n - 1];
        if entries_refusal(entries, n) is None {
            assert forall|i: int, j: int| 0 <= j < i < n implies (#[trigger] entries[i]).name != (
            #[trigger] entries[j]).name by {}
        }
    }
}

/// The daemons' answers are asked for every half minute, and count for five
/// minutes, unless a file says otherwise; a given value is kept.
pub proof fn law_given_values_are_kept<T>(value: Option<T>, default: T)
    ensures
        value is Some ==> or_default(value, default) == value.unwrap(),
        value is None ==> or_default(value, default) == default,
        DEFAULT_REFRESH == 30,
        DEFAULT_STALE == 300,
{
}

/// A refusal quotes the value that is at fault.
pub proof fn law_refusals_quote_the_fault(s: Seq<char>, id: u8, stale: u64, refresh: u64)
    ensures
        config_error_text(ConfigErrorView::Missing(s)) == "config: missing field `"@ + s + "`"@,
        config_error_text(ConfigErrorView::BadUrl(s)) == "config: `"@ + s + "` is no URL"@,
        config_error_text(ConfigErrorView::BadAddress(s)) == "config: `"@ + s
            + "` is no IPv4 address"@,
        config_error_text(ConfigErrorView::EmptyDevice(s)) == "config: daemon `"@ + s
            + "` has empty `device`"@,
        config_error_text(ConfigErrorView::EmptyDaemonToken(s)) == "config: daemon `"@ + s
            + "` has empty `auth_token`"@,
        config_error_text(ConfigErrorView::DuplicateDaemon(s)) == "config: duplicate daemon name `"@
            + s + "`"@,
        config_error_text(ConfigErrorView::DuplicateHost(s)) == "config: duplicate host name `"@ + s
            + "`"@,
        config_error_text(ConfigErrorView::IdOutOfRange(id)) == "config: `dumbarpd_id` ("@
            + text::decimal_text(id as nat)
            + ") must be between 1 and 63 (0 disables DSCP mode)"@,
        config_error_text(ConfigErrorView::StaleBeforeRefresh { stale, refresh })
            == "config: `stale_after_secs` ("@ + text::decimal_text(stale as nat)
            + ") must be >= `refresh_interval_secs` ("@ + text::decimal_text(refresh as nat) + ")"@,
{
}

} // verus!
