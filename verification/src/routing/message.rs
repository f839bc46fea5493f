//! Rules and routes as the kernel's routing messages carry them.

use crate::net::Ipv4Addr;
use crate::routing;
use crate::routing::{CurrentRoute, CurrentRule, DUMBARP_PRIORITY, DUMBARP_PROTO, FWMASK_EXACT};
use vstd::prelude::*;

verus! {

#[derive(Debug, Clone, Copy, PartialEq, Eq, Structural)]
pub enum AddressFamily {
    Inet,
    Other(u8),
}

#[derive(Debug, Clone, Copy, PartialEq, Eq, Structural)]
pub enum RuleAction {
    ToTable,
    Other(u8),
}

/// The attributes of a rule that tell whose it is and what it selects.
#[derive(Debug, Clone, Copy, PartialEq, Eq, Structural)]
pub enum RuleAttribute {
    Priority(u32),
    Source(Ipv4Addr),
    Table(u32),
    FwMark(u32),
    FwMask(u32),
    Other,
}

#[derive(Debug, Clone, Copy, PartialEq, Eq, Structural)]
pub struct RuleHeader {
    pub family: AddressFamily,
    pub src_len: u8,
    pub table: u8,
    pub action: RuleAction,
}

#[derive(Debug)]
pub struct RuleMessage {
    pub header: RuleHeader,
    pub attributes: Vec<RuleAttribute>,
}

/// The attributes of a route that tell where it leads.
#[derive(Debug, Clone, Copy, PartialEq, Eq, Structural)]
pub enum RouteAttribute {
    Gateway(Ipv4Addr),
    Oif(u32),
    Table(u32),
    Other,
}

#[derive(Debug, Clone, Copy, PartialEq, Eq, Structural)]
pub struct RouteHeader {
    pub address_family: AddressFamily,
    pub protocol: u8,
    pub table: u8,
    pub onlink: bool,
}

#[derive(Debug)]
pub struct RouteMessage {
    pub header: RouteHeader,
    pub attributes: Vec<RouteAttribute>,
}

/// A route of this system and the table it stands in.
#[derive(Debug, Clone, Copy, PartialEq, Eq)]
pub struct ParsedRoute {
    pub table: u32,
    pub gateway: Ipv4Addr,
    pub oif: u32,
    pub onlink: bool,
}

impl ParsedRoute {
    pub fn into_value(self) -> (r: CurrentRoute)
        ensures
            r == (CurrentRoute { gateway: self.gateway, oif: self.oif, onlink: self.onlink }),
    {
        CurrentRoute { gateway: self.gateway, oif: self.oif, onlink: self.onlink }
    }
}

/// What the last attribute that `pick` knows carries.
pub open spec fn last_attribute<A, T>(
    attributes: Seq<A>,
    pick: spec_fn(A) -> Option<T>,
) -> Option<T>
    decreases attributes.len(),
{
    if attributes.len() == 0 {
        None
    } else if pick(attributes.last()) is Some {
        pick(attributes.last())
    } else {
        last_attribute(attributes.drop_last(), pick)
    }
}

pub open spec fn rule_priority(attributes: Seq<RuleAttribute>) -> Option<u32> {
    last_attribute(
        attributes,
        |a: RuleAttribute|
            match a {
                RuleAttribute::Priority(p) => Some(p),
                _ => None,
            },
    )
}

pub open spec fn rule_source(attributes: Seq<RuleAttribute>) -> Option<Ipv4Addr> {
    last_attribute(
        attributes,
        |a: RuleAttribute|
            match a {
                RuleAttribute::Source(ip) => Some(ip),
                _ => None,
            },
    )
}

pub open spec fn rule_table(attributes: Seq<RuleAttribute>) -> Option<u32> {
    last_attribute(
        attributes,
        |a: RuleAttribute|
            match a {
                RuleAttribute::Table(t) => Some(t),
                _ => None,
            },
    )
}

pub open spec fn rule_fwmark(attributes: Seq<RuleAttribute>) -> Option<u32> {
    last_attribute(
        attributes,
        |a: RuleAttribute|
            match a {
                RuleAttribute::FwMark(m) => Some(m),
                _ => None,
            },
    )
}

pub open spec fn rule_fwmask(attributes: Seq<RuleAttribute>) -> Option<u32> {
    last_attribute(
        attributes,
        |a: RuleAttribute|
            match a {
                RuleAttribute::FwMask(m) => Some(m),
                _ => None,
            },
    )
}

pub open spec fn route_gateway(attributes: Seq<RouteAttribute>) -> Option<Ipv4Addr> {
    last_attribute(
        attributes,
        |a: RouteAttribute|
            match a {
                RouteAttribute::Gateway(ip) => Some(ip),
                _ => None,
            },
    )
}

pub open spec fn route_oif(attributes: Seq<RouteAttribute>) -> Option<u32> {
    last_attribute(
        attributes,
        |a: RouteAttribute|
            match a {
                RouteAttribute::Oif(i) => Some(i),
                _ => None,
            },
    )
}

pub open spec fn route_table(attributes: Seq<RouteAttribute>) -> Option<u32> {
    last_attribute(
        attributes,
        |a: RouteAttribute|
            match a {
                RouteAttribute::Table(t) => Some(t),
                _ => None,
            },
    )
}

/// The table of a message: its attribute, or else the number in its header.
pub open spec fn table_or(attribute: Option<u32>, header: u8) -> u32 {
    match attribute {
        Some(t) => t,
        None => header as u32,
    }
}

/// A mark that marks something: a mark of zero is no mark.
pub open spec fn effective_mark(fwmark: Option<u32>) -> Option<u32> {
    match fwmark {
        Some(m) if m != 0 => Some(m),
        _ => None,
    }
}

/// Whether a rule is one of this system: an IPv4 rule for a single source
/// address at this system's priority.
pub open spec fn is_dumbarp_rule(header: RuleHeader, attributes: Seq<RuleAttribute>) -> bool {
    &&& header.family == AddressFamily::Inet
    &&& rule_priority(attributes) == Some(DUMBARP_PRIORITY)
    &&& rule_source(attributes) is Some
    &&& header.src_len == 32
}

/// What a rule message says of a rule of this system.
pub open spec fn dumbarp_rule(header: RuleHeader, attributes: Seq<RuleAttribute>) -> Option<
    (u32, CurrentRule),
> {
    if is_dumbarp_rule(header, attributes) {
        let fwmark = effective_mark(rule_fwmark(attributes));
        Some(
            (
                table_or(rule_table(attributes), header.table),
                CurrentRule {
                    src: rule_source(attributes).unwrap(),
                    fwmark,
                    fwmask: if fwmark is Some {
                        rule_fwmask(attributes)
                    } else {
                        None
                    },
                },
            ),
        )
    } else {
        None
    }
}

pub fn parse_dumbarp_rule(msg: &RuleMessage) -> (r: Option<(u32, CurrentRule)>)
    ensures
        r == dumbarp_rule(msg.header, msg.attributes@),
{
    if msg.header.family != AddressFamily::Inet {
        return None;
    }
    let mut priority: Option<u32> = None;
    let mut src: Option<Ipv4Addr> = None;
    let mut table_attr: Option<u32> = None;
    let mut fwmark: Option<u32> = None;
    let mut fwmask: Option<u32> = None;
    let mut i: usize = 0;
    while i < msg.attributes.len()
        invariant
            i <= msg.attributes@.len(),
            priority == rule_priority(msg.attributes@.take(i as int)),
            src == rule_source(msg.attributes@.take(i as int)),
            table_attr == rule_table(msg.attributes@.take(i as int)),
            fwmark == rule_fwmark(msg.attributes@.take(i as int)),
            fwmask == rule_fwmask(msg.attributes@.take(i as int)),
        decreases msg.attributes@.len() - i,
    {
        assert(msg.attributes@.take(i + 1).drop_last() =~= msg.attributes@.take(i as int));
        match msg.attributes[i] {
            RuleAttribute::Priority(p) => priority = Some(p),
            RuleAttribute::Source(v4) => src = Some(v4),
            RuleAttribute::Table(t) => table_attr = Some(t),
            RuleAttribute::FwMark(m) => fwmark = Some(m),
            RuleAttribute::FwMask(m) => fwmask = Some(m),
            RuleAttribute::Other => {},
        }
        i += 1;
    }
    assert(msg.attributes@.take(i as int) =~= msg.attributes@);
    if priority != Some(DUMBARP_PRIORITY) {
        return None;
    }
    let src: Ipv4Addr = match src {
        Some(src) => src,
        None => return None,
    };
    if msg.header.src_len != 32 {
        return None;
    }
    let table: u32 = match table_attr {
        Some(t) => t,
        None => msg.header.table as u32,
    };
    let fwmark: Option<u32> = match fwmark {
        Some(m) => if m != 0 {
            Some(m)
        } else {
            None
        },
        None => None,
    };
    let fwmask: Option<u32> = match fwmark {
        Some(_) => fwmask,
        None => None,
    };
    Some((table, CurrentRule { src, fwmark, fwmask }))
}

/// What a route message says of a route of this system.
pub open spec fn dumbarp_route(header: RouteHeader, attributes: Seq<RouteAttribute>) -> Option<
    ParsedRoute,
> {
    match (route_gateway(attributes), route_oif(attributes)) {
        (Some(gateway), Some(oif)) if header.address_family == AddressFamily::Inet
            && header.protocol == DUMBARP_PROTO => Some(
            ParsedRoute {
                table: table_or(route_table(attributes), header.table),
                gateway,
                oif,
                onlink: header.onlink,
            },
        ),
        _ => None,
    }
}

pub fn parse_dumbarp_route(msg: &RouteMessage) -> (r: Option<ParsedRoute>)
    ensures
        r == dumbarp_route(msg.header, msg.attributes@),
{
    if msg.header.address_family != AddressFamily::Inet {
        return None;
    }
    if msg.header.protocol != DUMBARP_PROTO {
        return None;
    }
    let mut gateway: Option<Ipv4Addr> = None;
    let mut oif: Option<u32> = None;
    let mut table_attr: Option<u32> = None;
    let mut i: usize = 0;
    while i < msg.attributes.len()
        invariant
            i <= msg.attributes@.len(),
            gateway == route_gateway(msg.attributes@.take(i as int)),
            oif == route_oif(msg.attributes@.take(i as int)),
            table_attr == route_table(msg.attributes@.take(i as int)),
        decreases msg.attributes@.len() - i,
    {
        assert(msg.attributes@.take(i + 1).drop_last() =~= msg.attributes@.take(i as int));
        match msg.attributes[i] {
            RouteAttribute::Gateway(v4) => gateway = Some(v4),
            RouteAttribute::Oif(idx) => oif = Some(idx),
            RouteAttribute::Table(t) => table_attr = Some(t),
            RouteAttribute::Other => {},
        }
        i += 1;
    }
    assert(msg.attributes@.take(i as int) =~= msg.attributes@);
    let table: u32 = match table_attr {
        Some(t) => t,
        None => msg.header.table as u32,
    };
    match (gateway, oif) {
        (Some(gateway), Some(oif)) => Some(
            ParsedRoute { table, gateway, oif, onlink: msg.header.onlink },
        ),
        _ => None,
    }
}

/// The rules of this system among the messages, with their tables.
pub open spec fn dumbarp_rules(messages: Seq<RuleMessage>) -> Seq<(u32, CurrentRule)>
    decreases messages.len(),
{
    if messages.len() == 0 {
        Seq::empty()
    } else {
        let m = messages.last();
        let before = dumbarp_rules(messages.drop_last());
        match dumbarp_rule(m.header, m.attributes@) {
            Some(rule) => before.push(rule),
            None => before,
        }
    }
}

/// The routes of this system among the messages, with their tables.
pub open spec fn dumbarp_routes(messages: Seq<RouteMessage>) -> Seq<(u32, CurrentRoute)>
    decreases messages.len(),
{
    if messages.len() == 0 {
        Seq::empty()
    } else {
        let m = messages.last();
        let before = dumbarp_routes(messages.drop_last());
        match dumbarp_route(m.header, m.attributes@) {
            Some(p) => before.push(
                (p.table, CurrentRoute { gateway: p.gateway, oif: p.oif, onlink: p.onlink }),
            ),
            None => before,
        }
    }
}

/// Picks the rules of this system out of a dump of the kernel's rules.
pub fn list_rules(messages: &Vec<RuleMessage>) -> (r: Vec<(u32, CurrentRule)>)
    ensures
        r@ == dumbarp_rules(messages@),
{
    let mut r: Vec<(u32, CurrentRule)> = Vec::new();
    let mut i: usize = 0;
    while i < messages.len()
        invariant
            i <= messages@.len(),
            r@ == dumbarp_rules(messages@.take(i as int)),
        decreases messages@.len() - i,
    {
        assert(messages@.take(i + 1).drop_last() =~= messages@.take(i as int));
        if let Some(rule) = parse_dumbarp_rule(&messages[i]) {
            r.push(rule);
        }
        i += 1;
    }
    assert(messages@.take(i as int) =~= messages@);
    r
}

/// Picks the routes of this system out of a dump of the kernel's routes.
pub fn list_routes(messages: &Vec<RouteMessage>) -> (r: Vec<(u32, CurrentRoute)>)
    ensures
        r@ == dumbarp_routes(messages@),
{
    let mut r: Vec<(u32, CurrentRoute)> = Vec::new();
    let mut i: usize = 0;
    while i < messages.len()
        invariant
            i <= messages@.len(),
            r@ == dumbarp_routes(messages@.take(i as int)),
        decreases messages@.len() - i,
    {
        assert(messages@.take(i + 1).drop_last() =~= messages@.take(i as int));
        if let Some(current) = parse_dumbarp_route(&messages[i]) {
            r.push((current.table, current.into_value()));
        }
        i += 1;
    }
    assert(messages@.take(i as int) =~= messages@);
    r
}

/// The table number that a header shows where an attribute carries the table.
pub const RT_TABLE_MAIN: u8 = 254;

/// Where a request names its table: a number above 255 in an attribute, any
/// other in the header.
pub open spec fn table_fields(table: u32) -> (u8, Option<u32>) {
    if table > 255 {
        (RT_TABLE_MAIN, Some(table))
    } else {
        (table as u8, None)
    }
}

/// The attributes of the request that adds a rule.
pub open spec fn rule_addition_attributes(
    src: Ipv4Addr,
    table: u32,
    fwmark: Option<u32>,
) -> Seq<RuleAttribute> {
    let start = match table_fields(table).1 {
        Some(t) => seq![RuleAttribute::Source(src), RuleAttribute::Table(t)],
        None => seq![RuleAttribute::Source(src)],
    }.push(RuleAttribute::Priority(DUMBARP_PRIORITY));
    match fwmark {
        Some(m) => start.push(RuleAttribute::FwMark(m)).push(RuleAttribute::FwMask(FWMASK_EXACT)),
        None => start,
    }
}

/// The request that adds the rule leading traffic from `src`, with the mark
/// if there is one, to a table.
pub fn rule_addition(src: Ipv4Addr, table: u32, fwmark: Option<u32>) -> (msg: RuleMessage)
    ensures
        msg.header == (RuleHeader {
            family: AddressFamily::Inet,
            src_len: 32,
            table: table_fields(table).0,
            action: RuleAction::ToTable,
        }),
        msg.attributes@ == rule_addition_attributes(src, table, fwmark),
{
    let mut header = RuleHeader {
        family: AddressFamily::Inet,
        src_len: 32,
        table: RT_TABLE_MAIN,
        action: RuleAction::ToTable,
    };
    let mut attributes: Vec<RuleAttribute> = Vec::new();
    attributes.push(RuleAttribute::Source(src));
    if table > 255 {
        attributes.push(RuleAttribute::Table(table));
    } else {
        header.table = table as u8;
    }
    attributes.push(RuleAttribute::Priority(DUMBARP_PRIORITY));
    if let Some(mark) = fwmark {
        attributes.push(RuleAttribute::FwMark(mark));
        attributes.push(RuleAttribute::FwMask(FWMASK_EXACT));
    }
    assert(attributes@ =~= rule_addition_attributes(src, table, fwmark));
    RuleMessage { header, attributes }
}

/// The attributes of the request that deletes a rule.
pub open spec fn rule_deletion_attributes(
    src: Ipv4Addr,
    table: u32,
    fwmark: Option<u32>,
) -> Seq<RuleAttribute> {
    let start = seq![
        RuleAttribute::Source(src),
        RuleAttribute::Table(table),
        RuleAttribute::Priority(DUMBARP_PRIORITY),
    ];
    match fwmark {
        Some(m) => start.push(RuleAttribute::FwMark(m)),
        None => start,
    }
}

/// The request that deletes the rule leading traffic from `src`, with the
/// mark if there is one, to a table.
pub fn rule_deletion(src: Ipv4Addr, table: u32, fwmark: Option<u32>) -> (msg: RuleMessage)
    ensures
        msg.header == (RuleHeader {
            family: AddressFamily::Inet,
            src_len: 32,
            table: 0,
            action: RuleAction::ToTable,
        }),
        msg.attributes@ == rule_deletion_attributes(src, table, fwmark),
{
    let header = RuleHeader {
        family: AddressFamily::Inet,
        src_len: 32,
        table: 0,
        action: RuleAction::ToTable,
    };
    let mut attributes: Vec<RuleAttribute> = Vec::new();
    attributes.push(RuleAttribute::Source(src));
    attributes.push(RuleAttribute::Table(table));
    attributes.push(RuleAttribute::Priority(DUMBARP_PRIORITY));
    if let Some(mark) = fwmark {
        attributes.push(RuleAttribute::FwMark(mark));
    }
    assert(attributes@ =~= rule_deletion_attributes(src, table, fwmark));
    RuleMessage { header, attributes }
}

/// The attributes of a request about a route, before where it leads.
pub open spec fn route_table_attributes(table: u32) -> Seq<RouteAttribute> {
    match table_fields(table).1 {
        Some(t) => seq![RouteAttribute::Table(t)],
        None => Seq::empty(),
    }
}

/// The request that adds the default route of a table.
pub fn route_addition(table: u32, gateway: Ipv4Addr, ifindex: u32) -> (msg: RouteMessage)
    ensures
        msg.header == (RouteHeader {
            address_family: AddressFamily::Inet,
            protocol: DUMBARP_PROTO,
            table: table_fields(table).0,
            onlink: true,
        }),
        msg.attributes@ == route_table_attributes(table).push(RouteAttribute::Oif(ifindex)).push(
            RouteAttribute::Gateway(gateway),
        ),
{
    let mut msg = route_deletion(table);
    msg.header.onlink = true;
    msg.attributes.push(RouteAttribute::Oif(ifindex));
    msg.attributes.push(RouteAttribute::Gateway(gateway));
    msg
}

/// The request that deletes the default route of a table.
pub fn route_deletion(table: u32) -> (msg: RouteMessage)
    ensures
        msg.header == (RouteHeader {
            address_family: AddressFamily::Inet,
            protocol: DUMBARP_PROTO,
            table: table_fields(table).0,
            onlink: false,
        }),
        msg.attributes@ == route_table_attributes(table),
{
    let mut header = RouteHeader {
        address_family: AddressFamily::Inet,
        protocol: DUMBARP_PROTO,
        table: RT_TABLE_MAIN,
        onlink: false,
    };
    let mut attributes: Vec<RouteAttribute> = Vec::new();
    if table > 255 {
        attributes.push(RouteAttribute::Table(table));
    } else {
        header.table = table as u8;
    }
    assert(attributes@ =~= route_table_attributes(table));
    RouteMessage { header, attributes }
}

/// A rule that this system adds is recognised as its own when the kernel
/// reports it as it was asked for, in the same table, with the same source
/// and mark and the exact mask.
pub proof fn law_added_rule_is_recognised(src: Ipv4Addr, table: u32, fwmark: Option<u32>)
    requires
        fwmark != Some(0u32),
    ensures
        ({
            let header = RuleHeader {
                family: AddressFamily::Inet,
                src_len: 32,
                table: table_fields(table).0,
                action: RuleAction::ToTable,
            };
            dumbarp_rule(header, rule_addition_attributes(src, table, fwmark)) == Some(
                (table, CurrentRule { src, fwmark, fwmask: routing::wanted_mask(fwmark) }),
            )
        }),
{
    let attributes = rule_addition_attributes(src, table, fwmark);
    reveal_with_fuel(last_attribute, 6);
    if fwmark is Some {
        let a = attributes.drop_last();
        let b = a.drop_last();
        assert(b.last() == RuleAttribute::Priority(DUMBARP_PRIORITY));
        let c = b.drop_last();
        if table > 255 {
            assert(c.last() == RuleAttribute::Table(table));
            assert(c.drop_last().last() == RuleAttribute::Source(src));
        } else {
            assert(c.last() == RuleAttribute::Source(src));
        }
    } else {
        let c = attributes.drop_last();
        if table > 255 {
            assert(c.last() == RuleAttribute::Table(table));
            assert(c.drop_last().last() == RuleAttribute::Source(src));
        } else {
            assert(c.last() == RuleAttribute::Source(src));
        }
    }
}

/// A route that this system adds is recognised as its own when the kernel
/// reports it as it was asked for.
pub proof fn law_added_route_is_recognised(table: u32, gateway: Ipv4Addr, ifindex: u32)
    ensures
        ({
            let header = RouteHeader {
                address_family: AddressFamily::Inet,
                protocol: DUMBARP_PROTO,
                table: table_fields(table).0,
                onlink: true,
            };
            let attributes = route_table_attributes(table).push(
                RouteAttribute::Oif(ifindex),
            ).push(RouteAttribute::Gateway(gateway));
            dumbarp_route(header, attributes) == Some(
                ParsedRoute { table, gateway, oif: ifindex, onlink: true },
            )
        }),
{
    let attributes = route_table_attributes(table).push(RouteAttribute::Oif(ifindex)).push(
        RouteAttribute::Gateway(gateway),
    );
    reveal_with_fuel(last_attribute, 4);
    let a = attributes.drop_last();
    assert(a.last() == RouteAttribute::Oif(ifindex));
    assert(a.drop_last() =~= route_table_attributes(table));
    if table > 255 {
        assert(a.drop_last().last() == RouteAttribute::Table(table));
    }
}

/// Of several attributes of a kind the last counts, and attributes of other
/// kinds change nothing.
pub proof fn law_later_rule_attributes_count(
    attributes: Seq<RuleAttribute>,
    next: RuleAttribute,
    n: u32,
    ip: Ipv4Addr,
)
    ensures
        ({
            let more = attributes.push(next);
            &&& next == RuleAttribute::Priority(n) ==> rule_priority(more) == Some(n)
            &&& next == RuleAttribute::Source(ip) ==> rule_source(more) == Some(ip)
            &&& next == RuleAttribute::Table(n) ==> rule_table(more) == Some(n)
            &&& next == RuleAttribute::FwMark(n) ==> rule_fwmark(more) == Some(n)
            &&& next == RuleAttribute::FwMask(n) ==> rule_fwmask(more) == Some(n)
            &&& !(next is Priority) ==> rule_priority(more) == rule_priority(attributes)
            &&& !(next is Source) ==> rule_source(more) == rule_source(attributes)
            &&& !(next is Table) ==> rule_table(more) == rule_table(attributes)
            &&& !(next is FwMark) ==> rule_fwmark(more) == rule_fwmark(attributes)
            &&& !(next is FwMask) ==> rule_fwmask(more) == rule_fwmask(attributes)
            &&& attributes.len() == 0 ==> rule_priority(attributes) is None && rule_source(
                attributes,
            ) is None && rule_table(attributes) is None && rule_fwmark(attributes) is None
                && rule_fwmask(attributes) is None
        }),
{
    assert(attributes.push(next).drop_last() =~= attributes);
}

/// Of several attributes of a kind the last counts, and attributes of other
/// kinds change nothing.
pub proof fn law_later_route_attributes_count(
    attributes: Seq<RouteAttribute>,
    next: RouteAttribute,
    n: u32,
    ip: Ipv4Addr,
)
    ensures
        ({
            let more = attributes.push(next);
            &&& next == RouteAttribute::Gateway(ip) ==> route_gateway(more) == Some(ip)
            &&& next == RouteAttribute::Oif(n) ==> route_oif(more) == Some(n)
            &&& next == RouteAttribute::Table(n) ==> route_table(more) == Some(n)
            &&& !(next is Gateway) ==> route_gateway(more) == route_gateway(attributes)
            &&& !(next is Oif) ==> route_oif(more) == route_oif(attributes)
            &&& !(next is Table) ==> route_table(more) == route_table(attributes)
            &&& attributes.len() == 0 ==> route_gateway(attributes) is None && route_oif(
                attributes,
            ) is None && route_table(attributes) is None
        }),
{
    assert(attributes.push(next).drop_last() =~= attributes);
}

/// A rule is of this system exactly if it is an IPv4 rule at priority 9876
/// for one source address of all 32 bits. It stands in the table of its
/// attribute, or else of its header; a mark of zero counts as none, and
/// without a mark there is no mask.
pub proof fn law_own_rules_are_told_by_their_priority(
    header: RuleHeader,
    attributes: Seq<RuleAttribute>,
)
    ensures
        dumbarp_rule(header, attributes) is Some <==> {
            &&& header.family == AddressFamily::Inet
            &&& header.src_len == 32
            &&& rule_priority(attributes) == Some(9876u32)
            &&& rule_source(attributes) is Some
        },
        is_dumbarp_rule(header, attributes) <==> dumbarp_rule(header, attributes) is Some,
        dumbarp_rule(header, attributes) is Some ==> ({
            let (table, rule) = dumbarp_rule(header, attributes).unwrap();
            let marked = rule_fwmark(attributes) is Some && rule_fwmark(attributes) != Some(0u32);
            &&& rule_table(attributes) is Some ==> Some(table) == rule_table(attributes)
            &&& rule_table(attributes) is None ==> table == header.table
            &&& Some(rule.src) == rule_source(attributes)
            &&& marked ==> rule.fwmark == rule_fwmark(attributes) && rule.fwmask == rule_fwmask(
                attributes,
            )
            &&& !marked ==> rule.fwmark is None && rule.fwmask is None
        }),
{
}

/// A route is of this system exactly if it is an IPv4 route of protocol 154
/// that names a gateway and an interface. It stands in the table of its
/// attribute, or else of its header.
pub proof fn law_own_routes_are_told_by_their_protocol(
    header: RouteHeader,
    attributes: Seq<RouteAttribute>,
)
    ensures
        dumbarp_route(header, attributes) is Some <==> {
            &&& header.address_family == AddressFamily::Inet
            &&& header.protocol == 154
            &&& route_gateway(attributes) is Some
            &&& route_oif(attributes) is Some
        },
        dumbarp_route(header, attributes) is Some ==> ({
            let p = dumbarp_route(header, attributes).unwrap();
            &&& route_table(attributes) is Some ==> Some(p.table) == route_table(attributes)
            &&& route_table(attributes) is None ==> p.table == header.table
            &&& Some(p.gateway) == route_gateway(attributes)
            &&& Some(p.oif) == route_oif(attributes)
            &&& p.onlink == header.onlink
        }),
{
}

/// Every rule of this system among the messages is listed, in order.
pub proof fn law_every_own_rule_is_listed(
    first: Seq<RuleMessage>,
    second: Seq<RuleMessage>,
    one: RuleMessage,
)
    ensures
        dumbarp_rules(first + second) == dumbarp_rules(first) + dumbarp_rules(second),
        match dumbarp_rule(one.header, one.attributes@) {
            Some(rule) => dumbarp_rules(seq![one]) == seq![rule],
            None => dumbarp_rules(seq![one]).len() == 0,
        },
    decreases second.len(),
{
    reveal_with_fuel(dumbarp_rules, 2);
    assert(seq![one].drop_last() =~= Seq::<RuleMessage>::empty());
    if let Some(rule) = dumbarp_rule(one.header, one.attributes@) {
        assert(dumbarp_rules(seq![one]) =~= seq![rule]);
    }
    if second.len() > 0 {
        law_every_own_rule_is_listed(first, second.drop_last(), one);
        assert((first + second).drop_last() =~= first + second.drop_last());
        assert((first + second).last() == second.last());
        assert(dumbarp_rules(first + second) =~= dumbarp_rules(first) + dumbarp_rules(second));
    } else {
        assert(first + second =~= first);
        assert(dumbarp_rules(first) + dumbarp_rules(second) =~= dumbarp_rules(first));
    }
}

/// Every route of this system among the messages is listed, in order.
pub proof fn law_every_own_route_is_listed(
    first: Seq<RouteMessage>,
    second: Seq<RouteMessage>,
    one: RouteMessage,
)
    ensures
        dumbarp_routes(first + second) == dumbarp_routes(first) + dumbarp_routes(second),
        match dumbarp_route(one.header, one.attributes@) {
            Some(p) => dumbarp_routes(seq![one]) == seq![
                (p.table, CurrentRoute { gateway: p.gateway, oif: p.oif, onlink: p.onlink }),
            ],
            None => dumbarp_routes(seq![one]).len() == 0,
        },
    decreases second.len(),
{
    reveal_with_fuel(dumbarp_routes, 2);
    assert(seq![one].drop_last() =~= Seq::<RouteMessage>::empty());
    if let Some(p) = dumbarp_route(one.header, one.attributes@) {
        assert(dumbarp_routes(seq![one]) =~= seq![
            (p.table, CurrentRoute { gateway: p.gateway, oif: p.oif, onlink: p.onlink }),
        ]);
    }
    if second.len() > 0 {
        law_every_own_route_is_listed(first, second.drop_last(), one);
        assert((first + second).drop_last() =~= first + second.drop_last());
        assert((first + second).last() == second.last());
        assert(dumbarp_routes(first + second) =~= dumbarp_routes(first) + dumbarp_routes(second));
    } else {
        assert(first + second =~= first);
        assert(dumbarp_routes(first) + dumbarp_routes(second) =~= dumbarp_routes(first));
    }
}

/// A table of at most 255 stands in the header alone; another one stands in
/// an attribute, and the header then names the main table, 254.
pub proof fn law_tables_beyond_a_byte_stand_in_attributes(table: u32)
    ensures
        table <= 255 ==> table_fields(table).0 == table && table_fields(table).1 is None,
        table > 255 ==> table_fields(table).0 == 254 && table_fields(table).1 == Some(table),
        table <= 255 ==> route_table_attributes(table).len() == 0,
        table > 255 ==> route_table_attributes(table) == seq![RouteAttribute::Table(table)],
{
}

/// The request that deletes a rule names its source, its table, priority 9876
/// and its mark, if it has one, and nothing else; the one that adds a rule
/// names the mask of all 32 bits with the mark.
pub proof fn law_rule_requests_name_the_rule(src: Ipv4Addr, table: u32, fwmark: Option<u32>)
    ensures
        ({
            let a = rule_deletion_attributes(src, table, fwmark);
            &&& a.len() == if fwmark is Some {
                4int
            } else {
                3int
            }
            &&& a[0] == RuleAttribute::Source(src)
            &&& a[1] == RuleAttribute::Table(table)
            &&& a[2] == RuleAttribute::Priority(9876)
            &&& fwmark is Some ==> a[3] == RuleAttribute::FwMark(fwmark.unwrap())
        }),
        ({
            let a = rule_addition_attributes(src, table, fwmark);
            &&& a.contains(RuleAttribute::Source(src))
            &&& a.contains(RuleAttribute::Priority(9876))
            &&& table > 255 ==> a.contains(RuleAttribute::Table(table))
            &&& fwmark is Some ==> a.contains(RuleAttribute::FwMark(fwmark.unwrap()))
                && a.contains(RuleAttribute::FwMask(4294967295))
            &&& a.len() == 2 + (if table > 255 {
                1int
            } else {
                0
            }) + (if fwmark is Some {
                2int
            } else {
                0
            })
        }),
{
    let a = rule_addition_attributes(src, table, fwmark);
    assert(a[0] == RuleAttribute::Source(src));
    let k: int = if table > 255 {
        2
    } else {
        1
    };
    if table > 255 {
        assert(a[1] == RuleAttribute::Table(table));
    }
    assert(a[k] == RuleAttribute::Priority(9876));
    if fwmark is Some {
        assert(a[k + 1] == RuleAttribute::FwMark(fwmark.unwrap()));
        assert(a[k + 2] == RuleAttribute::FwMask(4294967295));
    }
}

} // verus!
