//! What the daemons and the gateway tell each other.

use crate::net;
use crate::net::Ipv4Addr;
use crate::text;
use vstd::prelude::*;

verus! {

/// A daemon's answer: its leased addresses as text, and its identifier if it
/// has one.
#[derive(Debug)]
pub struct LeasesResponse {
    pub ips: Vec<String>,
    pub dumbarpd_id: Option<u8>,
}

/// A daemon's leased addresses, and its identifier if it has one.
#[derive(Debug)]
pub struct Leases {
    pub ips: Vec<Ipv4Addr>,
    pub dumbarpd_id: Option<u8>,
}

#[verifier::ext_equal]
pub struct LeasesView {
    pub ips: Seq<Ipv4Addr>,
    pub dumbarpd_id: Option<u8>,
}

/// A gateway's answer: one entry for each daemon that it has leases of.
#[derive(Debug)]
pub struct DaemonsResponse {
    pub daemons: Vec<DaemonEntryView>,
}

/// A daemon as a gateway describes it.
#[derive(Debug)]
pub struct DaemonEntryView {
    pub name: String,
    pub nexthop: String,
    pub device: String,
    pub dumbarpd_id: Option<u8>,
    pub ips: Vec<String>,
}

#[verifier::ext_equal]
pub struct EntryFields {
    pub name: Seq<char>,
    pub nexthop: Seq<char>,
    pub device: Seq<char>,
    pub dumbarpd_id: Option<u8>,
    pub ips: Seq<Seq<char>>,
}

/// Where the traffic of a daemon's leases goes.
#[derive(Debug)]
pub struct DaemonRoutes {
    pub name: String,
    pub nexthop: Ipv4Addr,
    pub device: String,
    pub dumbarpd_id: Option<u8>,
    pub ips: Vec<Ipv4Addr>,
}

#[verifier::ext_equal]
pub struct DaemonRoutesView {
    pub name: Seq<char>,
    pub nexthop: Ipv4Addr,
    pub device: Seq<char>,
    pub dumbarpd_id: Option<u8>,
    pub ips: Seq<Ipv4Addr>,
}

/// Why an answer was refused.
#[derive(Debug)]
pub enum ParseError {
    /// A leased address that is none.
    BadIp { raw: String, label: String },
    /// A next hop that is no address.
    BadNexthop { raw: String, name: String, label: String },
    /// A daemon without a device.
    EmptyDevice { name: String, label: String },
}

#[verifier::ext_equal]
pub enum ParseErrorView {
    BadIp { raw: Seq<char>, label: Seq<char> },
    BadNexthop { raw: Seq<char>, name: Seq<char>, label: Seq<char> },
    EmptyDevice { name: Seq<char>, label: Seq<char> },
}

impl View for Leases {
    type V = LeasesView;

    open spec fn view(&self) -> LeasesView {
        LeasesView { ips: self.ips@, dumbarpd_id: self.dumbarpd_id }
    }
}

impl View for DaemonEntryView {
    type V = EntryFields;

    open spec fn view(&self) -> EntryFields {
        EntryFields {
            name: self.name@,
            nexthop: self.nexthop@,
            device: self.device@,
            dumbarpd_id: self.dumbarpd_id,
            ips: text::texts(self.ips@),
        }
    }
}

impl View for DaemonRoutes {
    type V = DaemonRoutesView;

    open spec fn view(&self) -> DaemonRoutesView {
        DaemonRoutesView {
            name: self.name@,
            nexthop: self.nexthop,
            device: self.device@,
            dumbarpd_id: self.dumbarpd_id,
            ips: self.ips@,
        }
    }
}

impl View for ParseError {
    type V = ParseErrorView;

    open spec fn view(&self) -> ParseErrorView {
        match self {
            ParseError::BadIp { raw, label } => ParseErrorView::BadIp {
                raw: raw@,
                label: label@,
            },
            ParseError::BadNexthop { raw, name, label } => ParseErrorView::BadNexthop {
                raw: raw@,
                name: name@,
                label: label@,
            },
            ParseError::EmptyDevice { name, label } => ParseErrorView::EmptyDevice {
                name: name@,
                label: label@,
            },
        }
    }
}

pub open spec fn routes_views(routes: Seq<DaemonRoutes>) -> Seq<DaemonRoutesView> {
    routes.map_values(|r: DaemonRoutes| r@)
}

pub open spec fn entry_fields(entries: Seq<DaemonEntryView>) -> Seq<EntryFields> {
    entries.map_values(|e: DaemonEntryView| e@)
}

impl Default for LeasesResponse {
    fn default() -> (r: Self)
        ensures
            r.ips@.len() == 0,
            r.dumbarpd_id is None,
    {
        LeasesResponse { ips: Vec::new(), dumbarpd_id: None }
    }
}

impl Default for Leases {
    fn default() -> (r: Self)
        ensures
            r.ips@.len() == 0,
            r.dumbarpd_id is None,
    {
        Leases { ips: Vec::new(), dumbarpd_id: None }
    }
}

impl Default for DaemonsResponse {
    fn default() -> (r: Self)
        ensures
            r.daemons@.len() == 0,
    {
        DaemonsResponse { daemons: Vec::new() }
    }
}

impl Clone for LeasesResponse {
    fn clone(&self) -> (r: Self)
        ensures
            text::texts(r.ips@) == text::texts(self.ips@),
            r.dumbarpd_id == self.dumbarpd_id,
    {
        LeasesResponse { ips: text::copy_texts(&self.ips), dumbarpd_id: self.dumbarpd_id }
    }
}

impl Clone for Leases {
    fn clone(&self) -> (r: Self)
        ensures
            r@ == self@,
    {
        Leases { ips: net::copy_addresses(&self.ips), dumbarpd_id: self.dumbarpd_id }
    }
}

impl Clone for DaemonEntryView {
    fn clone(&self) -> (r: Self)
        ensures
            r@ == self@,
    {
        DaemonEntryView {
            name: self.name.clone(),
            nexthop: self.nexthop.clone(),
            device: self.device.clone(),
            dumbarpd_id: self.dumbarpd_id,
            ips: text::copy_texts(&self.ips),
        }
    }
}

impl Clone for DaemonRoutes {
    fn clone(&self) -> (r: Self)
        ensures
            r@ == self@,
    {
        DaemonRoutes {
            name: self.name.clone(),
            nexthop: self.nexthop,
            device: self.device.clone(),
            dumbarpd_id: self.dumbarpd_id,
            ips: net::copy_addresses(&self.ips),
        }
    }
}

/// What a daemon's answer means, or why it is refused: every address has to
/// be one.
pub open spec fn leases_of(
    ips: Seq<Seq<char>>,
    dumbarpd_id: Option<u8>,
    label: Seq<char>,
) -> Result<LeasesView, ParseErrorView> {
    match net::addresses_of(ips) {
        Ok(ips) => Ok(LeasesView { ips, dumbarpd_id }),
        Err(raw) => Err(ParseErrorView::BadIp { raw, label }),
    }
}

/// What a gateway says of one daemon, or why it is refused: the next hop is
/// looked at first, then the device, then the addresses.
pub open spec fn routes_of(entry: EntryFields, label: Seq<char>) -> Result<
    DaemonRoutesView,
    ParseErrorView,
> {
    match net::address_of(entry.nexthop) {
        None => Err(
            ParseErrorView::BadNexthop { raw: entry.nexthop, name: entry.name, label },
        ),
        Some(nexthop) => if entry.device.len() == 0 {
            Err(ParseErrorView::EmptyDevice { name: entry.name, label })
        } else {
            match net::addresses_of(entry.ips) {
                Ok(ips) => Ok(
                    DaemonRoutesView {
                        name: entry.name,
                        nexthop,
                        device: entry.device,
                        dumbarpd_id: entry.dumbarpd_id,
                        ips,
                    },
                ),
                Err(raw) => Err(ParseErrorView::BadIp { raw, label: entry.name }),
            }
        },
    }
}

/// What a gateway's answer means, or why its first bad entry is refused.
pub open spec fn all_routes_of(entries: Seq<EntryFields>, label: Seq<char>) -> Result<
    Seq<DaemonRoutesView>,
    ParseErrorView,
>
    decreases entries.len(),
{
    if entries.len() == 0 {
        Ok(Seq::empty())
    } else {
        match all_routes_of(entries.drop_last(), label) {
            Ok(routes) => match routes_of(entries.last(), label) {
                Ok(r) => Ok(routes.push(r)),
                Err(e) => Err(e),
            },
            Err(e) => Err(e),
        }
    }
}

proof fn lemma_bad_entry_stays(entries: Seq<EntryFields>, label: Seq<char>, n: int)
    requires
        0 <= n <= entries.len(),
        all_routes_of(entries.take(n), label) is Err,
    ensures
        all_routes_of(entries, label) == all_routes_of(entries.take(n), label),
    decreases entries.len() - n,
{
    if n < entries.len() {
        assert(entries.take(n + 1).drop_last() =~= entries.take(n));
        lemma_bad_entry_stays(entries, label, n + 1);
    } else {
        assert(entries.take(n) =~= entries);
    }
}

/// Reads leased addresses; `label` says whose they are.
fn parse_ips(raw: &Vec<String>, label: &str) -> (r: Result<Vec<Ipv4Addr>, ParseError>)
    ensures
        match r {
            Ok(ips) => net::addresses_of(text::texts(raw@)) == Ok::<Seq<Ipv4Addr>, Seq<char>>(
                ips@,
            ),
            Err(e) => match net::addresses_of(text::texts(raw@)) {
                Ok(_) => false,
                Err(bad) => e@ == (ParseErrorView::BadIp { raw: bad, label: label@ }),
            },
        },
{
    match net::parse_all(raw) {
        Ok(ips) => Ok(ips),
        Err(i) => Err(ParseError::BadIp { raw: raw[i].clone(), label: label.to_string() }),
    }
}

impl LeasesResponse {
    pub fn parse(self, label: &str) -> (r: Result<Leases, ParseError>)
        ensures
            match r {
                Ok(leases) => leases_of(text::texts(self.ips@), self.dumbarpd_id, label@) == Ok::<
                    LeasesView,
                    ParseErrorView,
                >(leases@),
                Err(e) => leases_of(text::texts(self.ips@), self.dumbarpd_id, label@) == Err::<
                    LeasesView,
                    ParseErrorView,
                >(e@),
            },
    {
        match parse_ips(&self.ips, label) {
            Ok(ips) => Ok(Leases { ips, dumbarpd_id: self.dumbarpd_id }),
            Err(e) => Err(e),
        }
    }
}

impl DaemonEntryView {
    /// Reads one entry of a gateway's answer.
    pub fn parse(&self, label: &str) -> (r: Result<DaemonRoutes, ParseError>)
        ensures
            match r {
                Ok(routes) => routes_of(self@, label@) == Ok::<DaemonRoutesView, ParseErrorView>(
                    routes@,
                ),
                Err(e) => routes_of(self@, label@) == Err::<DaemonRoutesView, ParseErrorView>(e@),
            },
    {
        let nexthop: Ipv4Addr = match Ipv4Addr::parse(self.nexthop.as_str()) {
            Some(ip) => ip,
            None => {
                return Err(
                    ParseError::BadNexthop {
                        raw: self.nexthop.clone(),
                        name: self.name.clone(),
                        label: label.to_string(),
                    },
                );
            },
        };
        if text::is_empty(self.device.as_str()) {
            return Err(
                ParseError::EmptyDevice { name: self.name.clone(), label: label.to_string() },
            );
        }
        match parse_ips(&self.ips, self.name.as_str()) {
            Ok(ips) => Ok(
                DaemonRoutes {
                    name: self.name.clone(),
                    nexthop,
                    device: self.device.clone(),
                    dumbarpd_id: self.dumbarpd_id,
                    ips,
                },
            ),
            Err(e) => Err(e),
        }
    }
}

impl DaemonsResponse {
    pub fn parse(self, label: &str) -> (r: Result<Vec<DaemonRoutes>, ParseError>)
        ensures
            match r {
                Ok(routes) => all_routes_of(entry_fields(self.daemons@), label@) == Ok::<
                    Seq<DaemonRoutesView>,
                    ParseErrorView,
                >(routes_views(routes@)),
                Err(e) => all_routes_of(entry_fields(self.daemons@), label@) == Err::<
                    Seq<DaemonRoutesView>,
                    ParseErrorView,
                >(e@),
            },
    {
        let ghost all = entry_fields(self.daemons@);
        let mut out: Vec<DaemonRoutes> = Vec::new();
        let mut i: usize = 0;
        assert(routes_views(out@) =~= Seq::<DaemonRoutesView>::empty());
        while i < self.daemons.len()
            invariant
                i <= self.daemons@.len(),
                all == entry_fields(self.daemons@),
                all_routes_of(all.take(i as int), label@) == Ok::<
                    Seq<DaemonRoutesView>,
                    ParseErrorView,
                >(routes_views(out@)),
            decreases self.daemons@.len() - i,
        {
            assert(all.take(i + 1).drop_last() =~= all.take(i as int));
            match self.daemons[i].parse(label) {
                Ok(routes) => {
                    let ghost before = out@;
                    out.push(routes);
                    assert(routes_views(out@) =~= routes_views(before).push(routes@));
                },
                Err(e) => {
                    proof {
                        lemma_bad_entry_stays(all, label@, i + 1);
                    }
                    return Err(e);
                },
            }
            i += 1;
        }
        assert(all.take(i as int) =~= all);
        Ok(out)
    }
}

/// The message of a refusal.
pub open spec fn parse_error_text(e: ParseErrorView) -> Seq<char> {
    match e {
        ParseErrorView::BadIp { raw, label } => "parsing IP `"@ + raw + "` from "@ + label,
        ParseErrorView::BadNexthop { raw, name, label } => "parsing nexthop `"@ + raw
            + "` for daemon `"@ + name + "` from "@ + label,
        ParseErrorView::EmptyDevice { name, label } => "daemon `"@ + name + "` from "@ + label
            + " has an empty device"@,
    }
}

impl ParseError {
    /// Says what was refused.
    pub fn to_text(&self) -> (s: String)
        ensures
            s@ == parse_error_text(self@),
    {
        let mut s: String = String::new();
        match self {
            ParseError::BadIp { raw, label } => {
                text::append(&mut s, "parsing IP `");
                text::append(&mut s, raw.as_str());
                text::append(&mut s, "` from ");
                text::append(&mut s, label.as_str());
            },
            ParseError::BadNexthop { raw, name, label } => {
                text::append(&mut s, "parsing nexthop `");
                text::append(&mut s, raw.as_str());
                text::append(&mut s, "` for daemon `");
                text::append(&mut s, name.as_str());
                text::append(&mut s, "` from ");
                text::append(&mut s, label.as_str());
            },
            ParseError::EmptyDevice { name, label } => {
                text::append(&mut s, "daemon `");
                text::append(&mut s, name.as_str());
                text::append(&mut s, "` from ");
                text::append(&mut s, label.as_str());
                text::append(&mut s, " has an empty device");
            },
        }
        assert(s@ =~= parse_error_text(self@));
        s
    }
}

/// A daemon's answer is taken exactly if every address in it is one; it then
/// holds those addresses, one for each text, and the identifier as given.
/// Otherwise the first bad text is told, with the label.
pub proof fn law_leases_are_taken_as_told(
    ips: Seq<Seq<char>>,
    dumbarpd_id: Option<u8>,
    label: Seq<char>,
)
    ensures
        match leases_of(ips, dumbarpd_id, label) {
            Ok(l) => l.dumbarpd_id == dumbarpd_id && l.ips.len() == ips.len() && forall|i: int|
                0 <= i < ips.len() ==> #[trigger] ips[i] == l.ips[i].text(),
            Err(e) => exists|i: int|
                0 <= i < ips.len() && e == (ParseErrorView::BadIp { raw: #[trigger] ips[i], label })
                    && net::address_of(ips[i]) is None && (forall|j: int|
                    0 <= j < i ==> net::address_of(#[trigger] ips[j]) is Some),
        },
{
    net::law_texts_are_read_one_by_one(ips);
}

/// An entry of a gateway's answer is taken exactly if its next hop is an
/// address, its device is named and every leased address is one; name,
/// device and identifier are kept as told. Of several faults the next hop's
/// comes before the device's, and that before those of the addresses.
pub proof fn law_entries_are_taken_as_told(entry: EntryFields, label: Seq<char>)
    ensures
        match routes_of(entry, label) {
            Ok(r) => {
                &&& r.name == entry.name
                &&& entry.nexthop == r.nexthop.text()
                &&& r.device == entry.device && entry.device.len() > 0
                &&& r.dumbarpd_id == entry.dumbarpd_id
                &&& r.ips.len() == entry.ips.len()
                &&& forall|i: int|
                    0 <= i < entry.ips.len() ==> #[trigger] entry.ips[i] == r.ips[i].text()
            },
            Err(ParseErrorView::BadNexthop { raw, name, label: l }) => {
                &&& net::address_of(entry.nexthop) is None
                &&& raw == entry.nexthop && name == entry.name && l == label
            },
            Err(ParseErrorView::EmptyDevice { name, label: l }) => {
                &&& net::address_of(entry.nexthop) is Some
                &&& entry.device.len() == 0
                &&& name == entry.name && l == label
            },
            Err(ParseErrorView::BadIp { raw, label: l }) => {
                &&& net::address_of(entry.nexthop) is Some
                &&& entry.device.len() > 0
                &&& l == entry.name
                &&& exists|i: int|
                    0 <= i < entry.ips.len() && #[trigger] entry.ips[i] == raw && net::address_of(
                        raw,
                    ) is None && (forall|j: int|
                        0 <= j < i ==> net::address_of(#[trigger] entry.ips[j]) is Some)
            },
        },
{
    net::law_texts_are_read_one_by_one(entry.ips);
    if let Some(nexthop) = net::address_of(entry.nexthop) {
        net::law_only_written_addresses_are_read(entry.nexthop, nexthop);
    }
}

/// A gateway's answer is taken entry by entry: all of them, in order, or the
/// fault of the first bad one.
pub proof fn law_answers_are_taken_entry_by_entry(entries: Seq<EntryFields>, label: Seq<char>)
    ensures
        match all_routes_of(entries, label) {
            Ok(routes) => routes.len() == entries.len() && forall|i: int|
                0 <= i < entries.len() ==> routes_of(#[trigger] entries[i], label) == Ok::<
                    DaemonRoutesView,
                    ParseErrorView,
                >(routes[i]),
            Err(e) => exists|i: int|
                0 <= i < entries.len() && routes_of(#[trigger] entries[i], label) == Err::<
                    DaemonRoutesView,
                    ParseErrorView,
                >(e) && (forall|j: int|
                    0 <= j < i ==> routes_of(#[trigger] entries[j], label) is Ok),
        },
    decreases entries.len(),
{
    if entries.len() > 0 {
        let rest = entries.drop_last();
        let last = entries.len() - 1;
        law_answers_are_taken_entry_by_entry(rest, label);
        assert(entries[last] == entries.last());
        assert forall|i: int| 0 <= i < last implies #[trigger] entries[i] == rest[i] by {}
        match all_routes_of(rest, label) {
            Ok(routes) => {
                assert forall|j: int| 0 <= j < last implies routes_of(
                    #[trigger] entries[j],
                    label,
                ) == Ok::<DaemonRoutesView, ParseErrorView>(routes[j]) by {
                    assert(rest[j] == entries[j]);
                }
            },
            Err(e) => {
                let i = choose|i: int|
                    0 <= i < rest.len() && routes_of(#[trigger] rest[i], label) == Err::<
                        DaemonRoutesView,
                        ParseErrorView,
                    >(e) && (forall|j: int|
                        0 <= j < i ==> routes_of(#[trigger] rest[j], label) is Ok);
                assert(entries[i] == rest[i]);
                assert forall|j: int| 0 <= j < i implies routes_of(
                    #[trigger] entries[j],
                    label,
                ) is Ok by {
                    assert(rest[j] == entries[j]);
                }
            },
        }
    }
}

/// A refusal says what was read, and where it comes from.
pub proof fn law_refusals_quote_what_was_read(raw: Seq<char>, name: Seq<char>, label: Seq<char>)
    ensures
        parse_error_text(ParseErrorView::BadIp { raw, label }) == "parsing IP `"@ + raw
            + "` from "@ + label,
        parse_error_text(ParseErrorView::BadNexthop { raw, name, label }) == "parsing nexthop `"@
            + raw + "` for daemon `"@ + name + "` from "@ + label,
        parse_error_text(ParseErrorView::EmptyDevice { name, label }) == "daemon `"@ + name
            + "` from "@ + label + " has an empty device"@,
{
}

} // verus!
