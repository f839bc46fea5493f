//! Source routing: one kernel table per source address, with a rule that
//! leads to it and a default route in it.

pub mod manager;
pub mod message;
pub mod reconcile;
pub mod resolve;

use crate::net::Ipv4Addr;
use vstd::prelude::*;

verus! {

/// The routing protocol number that marks the routes of this system.
pub const DUMBARP_PROTO: u8 = 0x9A;

/// The priority that marks the rules of this system.
pub const DUMBARP_PRIORITY: u32 = 9876;

/// The mask under which a rule compares every bit of the firewall mark.
pub const FWMASK_EXACT: u32 = 0xFFFF_FFFF;

/// A source address and where its traffic leaves.
#[derive(Debug, PartialEq, Eq)]
pub struct RouteSpec {
    pub src: Ipv4Addr,
    pub gateway: Ipv4Addr,
    pub iface: String,
    pub fwmark: Option<u32>,
}

#[verifier::ext_equal]
pub struct RouteSpecView {
    pub src: Ipv4Addr,
    pub gateway: Ipv4Addr,
    pub iface: Seq<char>,
    pub fwmark: Option<u32>,
}

impl View for RouteSpec {
    type V = RouteSpecView;

    open spec fn view(&self) -> RouteSpecView {
        RouteSpecView {
            src: self.src,
            gateway: self.gateway,
            iface: self.iface@,
            fwmark: self.fwmark,
        }
    }
}

impl Clone for RouteSpec {
    fn clone(&self) -> (r: Self)
        ensures
            r@ == self@,
    {
        RouteSpec {
            src: self.src,
            gateway: self.gateway,
            iface: self.iface.clone(),
            fwmark: self.fwmark,
        }
    }
}

/// The views of a list of specs.
pub open spec fn spec_views(specs: Seq<RouteSpec>) -> Seq<RouteSpecView> {
    specs.map_values(|s: RouteSpec| s@)
}

/// A wanted route whose interface is known by its index.
#[derive(Debug, Clone, Copy, PartialEq, Eq)]
pub struct ResolvedSpec {
    pub src: Ipv4Addr,
    pub gateway: Ipv4Addr,
    pub ifindex: u32,
    pub fwmark: Option<u32>,
}

/// A rule of this system as the kernel reports it.
#[derive(Debug, Clone, Copy, PartialEq, Eq)]
pub struct CurrentRule {
    pub src: Ipv4Addr,
    pub fwmark: Option<u32>,
    pub fwmask: Option<u32>,
}

/// A route of this system as the kernel reports it.
#[derive(Debug, Clone, Copy, PartialEq, Eq)]
pub struct CurrentRoute {
    pub gateway: Ipv4Addr,
    pub oif: u32,
    pub onlink: bool,
}

/// The mask that a rule with the given mark is installed with.
pub open spec fn wanted_mask(fwmark: Option<u32>) -> Option<u32> {
    if fwmark is Some {
        Some(FWMASK_EXACT)
    } else {
        None
    }
}

pub fn expected_fwmask(fwmark: Option<u32>) -> (r: Option<u32>)
    ensures
        r == wanted_mask(fwmark),
{
    match fwmark {
        Some(_) => Some(FWMASK_EXACT),
        None => None,
    }
}

impl CurrentRule {
    /// Whether the rule is the one that `want` asks for.
    pub open spec fn fits(self, want: ResolvedSpec) -> bool {
        self.src == want.src && self.fwmark == want.fwmark && self.fwmask == wanted_mask(
            want.fwmark,
        )
    }

    pub fn matches(&self, want: &ResolvedSpec) -> (r: bool)
        ensures
            r == self.fits(*want),
    {
        self.src == want.src && self.fwmark == want.fwmark && self.fwmask == expected_fwmask(
            want.fwmark,
        )
    }
}

impl CurrentRoute {
    /// Whether the route is the one that `want` asks for.
    pub open spec fn fits(self, want: ResolvedSpec) -> bool {
        self.gateway == want.gateway && self.oif == want.ifindex && self.onlink
    }

    pub fn matches(&self, want: &ResolvedSpec) -> (r: bool)
        ensures
            r == self.fits(*want),
    {
        self.gateway == want.gateway && self.oif == want.ifindex && self.onlink
    }
}

/// Whether the kernel reserves a table number: the unspecified table and the
/// default, main and local ones.
pub open spec fn reserved_table(table: int) -> bool {
    table == 0 || table == 253 || table == 254 || table == 255
}

/// The table of a source address: the address as a number, moved up by
/// `0x1_0000` where the kernel reserves that number.
pub open spec fn table_of(ip: Ipv4Addr) -> int {
    if reserved_table(ip.bits as int) {
        ip.bits + 0x1_0000
    } else {
        ip.bits as int
    }
}

pub fn table_id_for(ip: Ipv4Addr) -> (table: u32)
    ensures
        table == table_of(ip),
        !reserved_table(table as int),
{
    match ip.bits {
        0 | 253 | 254 | 255 => ip.bits.wrapping_add(0x1_0000),
        _ => ip.bits,
    }
}

/// Two source addresses share a table only where one of them is a reserved
/// number and the other the number that it is moved to.
pub proof fn law_tables_are_shared_only_by_moved_addresses(x: Ipv4Addr, y: Ipv4Addr)
    requires
        x != y,
        table_of(x) == table_of(y),
    ensures
        (reserved_table(x.bits as int) && y.bits == x.bits + 0x1_0000) || (reserved_table(
            y.bits as int,
        ) && x.bits == y.bits + 0x1_0000),
{
}

/// The last entry of a table.
pub open spec fn last_in<T>(entries: Seq<(u32, T)>, table: u32) -> Option<T>
    decreases entries.len(),
{
    if entries.len() == 0 {
        None
    } else if entries.last().0 == table {
        Some(entries.last().1)
    } else {
        last_in(entries.drop_last(), table)
    }
}

/// All entries of a table, in order.
pub open spec fn all_in<T>(entries: Seq<(u32, T)>, table: u32) -> Seq<T>
    decreases entries.len(),
{
    if entries.len() == 0 {
        Seq::empty()
    } else if entries.last().0 == table {
        all_in(entries.drop_last(), table).push(entries.last().1)
    } else {
        all_in(entries.drop_last(), table)
    }
}

/// Finds the last entry of a table.
pub fn last_of_table<T: Copy>(entries: &Vec<(u32, T)>, table: u32) -> (r: Option<T>)
    ensures
        r == last_in(entries@, table),
{
    let mut i: usize = entries.len();
    assert(entries@.take(i as int) =~= entries@);
    while i > 0
        invariant
            i <= entries@.len(),
            last_in(entries@, table) == last_in(entries@.take(i as int), table),
        decreases i,
    {
        assert(entries@.take(i as int).drop_last() =~= entries@.take(i - 1));
        if entries[i - 1].0 == table {
            return Some(entries[i - 1].1);
        }
        i -= 1;
    }
    None
}

/// Collects all entries of a table, in order.
pub fn all_of_table<T: Copy>(entries: &Vec<(u32, T)>, table: u32) -> (r: Vec<T>)
    ensures
        r@ == all_in(entries@, table),
{
    let mut r: Vec<T> = Vec::new();
    let mut i: usize = 0;
    while i < entries.len()
        invariant
            i <= entries@.len(),
            r@ == all_in(entries@.take(i as int), table),
        decreases entries@.len() - i,
    {
        assert(entries@.take(i + 1).drop_last() =~= entries@.take(i as int));
        if entries[i].0 == table {
            r.push(entries[i].1);
        }
        i += 1;
    }
    assert(entries@.take(i as int) =~= entries@);
    r
}

/// The routes of one daemon's leases.
pub open spec fn specs_for(
    gateway: Ipv4Addr,
    iface: Seq<char>,
    fwmark: Option<u32>,
    ips: Seq<Ipv4Addr>,
) -> Seq<RouteSpecView> {
    ips.map_values(|src: Ipv4Addr| RouteSpecView { src, gateway, iface, fwmark })
}

/// Appends the routes of one daemon's leases.
pub fn push_specs(
    gateway: Ipv4Addr,
    iface: &String,
    fwmark: Option<u32>,
    ips: &Vec<Ipv4Addr>,
    out: &mut Vec<RouteSpec>,
)
    ensures
        spec_views(final(out)@) == spec_views(old(out)@) + specs_for(
            gateway,
            iface@,
            fwmark,
            ips@,
        ),
{
    let mut i: usize = 0;
    assert(spec_views(out@) =~= spec_views(old(out)@) + specs_for(
        gateway,
        iface@,
        fwmark,
        ips@.take(0),
    ));
    while i < ips.len()
        invariant
            i <= ips@.len(),
            spec_views(out@) == spec_views(old(out)@) + specs_for(
                gateway,
                iface@,
                fwmark,
                ips@.take(i as int),
            ),
        decreases ips@.len() - i,
    {
        let ghost before = out@;
        out.push(RouteSpec { src: ips[i], gateway, iface: iface.clone(), fwmark });
        assert(spec_views(out@) =~= spec_views(before).push(out@.last()@));
        assert(spec_views(out@) =~= spec_views(old(out)@) + specs_for(
            gateway,
            iface@,
            fwmark,
            ips@.take(i + 1),
        ));
        i += 1;
    }
    assert(ips@.take(i as int) =~= ips@);
}

/// The table of a source address is the address's number, unless that is 0,
/// 253, 254 or 255, and then that number and 65536. No table is one of those
/// four.
pub proof fn law_sources_have_tables_of_their_own(ip: Ipv4Addr)
    ensures
        ip.bits != 0 && ip.bits != 253 && ip.bits != 254 && ip.bits != 255 ==> table_of(ip)
            == ip.bits,
        ip.bits == 0 || ip.bits == 253 || ip.bits == 254 || ip.bits == 255 ==> table_of(ip)
            == ip.bits + 65536,
        1 <= table_of(ip) <= 4294967295,
        table_of(ip) != 253,
        table_of(ip) != 254,
        table_of(ip) != 255,
{
}

/// A rule is the wanted one exactly if it has the wanted source and mark, and
/// compares all 32 bits of the mark where there is one. A route is exactly if
/// it has the wanted gateway and interface and is on-link.
pub proof fn law_fitting_rules_and_routes_have_the_wanted_fields(
    rule: CurrentRule,
    route: CurrentRoute,
    want: ResolvedSpec,
)
    ensures
        rule.fits(want) <==> rule.src == want.src && rule.fwmark == want.fwmark && rule.fwmask == (
        if want.fwmark is Some {
            Some(4294967295u32)
        } else {
            None
        }),
        route.fits(want) <==> route.gateway == want.gateway && route.oif == want.ifindex
            && route.onlink,
{
}

/// The last entry of a table is an entry of that table behind which there is
/// no other, and there is none exactly if no entry is of that table.
pub proof fn law_last_entry_of_a_table_counts<T>(entries: Seq<(u32, T)>, table: u32)
    ensures
        match last_in(entries, table) {
            Some(t) => exists|i: int|
                0 <= i < entries.len() && #[trigger] entries[i] == (table, t) && forall|j: int|
                    i < j < entries.len() ==> (#[trigger] entries[j]).0 != table,
            None => forall|i: int| 0 <= i < entries.len() ==> (#[trigger] entries[i]).0 != table,
        },
    decreases entries.len(),
{
    if entries.len() > 0 {
        let rest = entries.drop_last();
        let last = entries.len() - 1;
        assert(entries[last] == entries.last());
        if entries.last().0 == table {
            assert(entries[last] == (table, entries.last().1));
        } else {
            law_last_entry_of_a_table_counts(rest, table);
            assert forall|i: int| 0 <= i < last implies #[trigger] entries[i] == rest[i] by {}
            if let Some(t) = last_in(rest, table) {
                let i = choose|i: int|
                    0 <= i < rest.len() && #[trigger] rest[i] == (table, t) && forall|j: int|
                        i < j < rest.len() ==> (#[trigger] rest[j]).0 != table;
                assert(entries[i] == (table, t));
                assert forall|j: int| i < j < entries.len() implies (#[trigger] entries[j]).0
                    != table by {
                    if j < last {
                        assert(rest[j].0 != table);
                    }
                }
            }
        }
    }
}

/// All entries of a table are taken, in their order, and no others.
pub proof fn law_all_entries_of_a_table_count<T>(
    entries: Seq<(u32, T)>,
    more: Seq<(u32, T)>,
    entry: (u32, T),
    table: u32,
)
    ensures
        all_in(entries + more, table) == all_in(entries, table) + all_in(more, table),
        all_in(seq![entry], table) == if entry.0 == table {
            seq![entry.1]
        } else {
            Seq::empty()
        },
    decreases more.len(),
{
    reveal_with_fuel(all_in, 2);
    assert(seq![entry].drop_last() =~= Seq::empty());
    assert(all_in(seq![entry], table) =~= if entry.0 == table {
        seq![entry.1]
    } else {
        Seq::empty()
    });
    if more.len() > 0 {
        law_all_entries_of_a_table_count(entries, more.drop_last(), entry, table);
        assert((entries + more).drop_last() =~= entries + more.drop_last());
        assert((entries + more).last() == more.last());
        assert(all_in(entries + more, table) =~= all_in(entries, table) + all_in(more, table));
    } else {
        assert(entries + more =~= entries);
        assert(all_in(entries, table) + all_in(more, table) =~= all_in(entries, table));
    }
}

/// Each leased address gets a route of its own, with the gateway, the device
/// and the mark that all of them share.
pub proof fn law_each_lease_gets_a_route(
    gateway: Ipv4Addr,
    iface: Seq<char>,
    fwmark: Option<u32>,
    ips: Seq<Ipv4Addr>,
)
    ensures
        ({
            let specs = specs_for(gateway, iface, fwmark, ips);
            &&& specs.len() == ips.len()
            &&& forall|i: int|
                0 <= i < ips.len() ==> (#[trigger] specs[i]).src == ips[i] && specs[i].gateway
                    == gateway && specs[i].iface == iface && specs[i].fwmark == fwmark
        }),
{
}

} // verus!
