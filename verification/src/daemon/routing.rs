//! Source routing without marks: one rule per table, told by its source alone.

use crate::net::Ipv4Addr;
use crate::order;
use crate::routing;
use crate::routing::message;
use crate::routing::message::{
    AddressFamily, RouteMessage, RuleAttribute, RuleHeader, RuleMessage,
};
use crate::routing::reconcile;
use crate::routing::reconcile::{Pass, PassView};
use crate::routing::{CurrentRoute, CurrentRule, ResolvedSpec, RouteSpec, DUMBARP_PRIORITY};
use vstd::prelude::*;

verus! {

/// What a rule message says of a rule of this system, marks aside: the source
/// and the table.
pub open spec fn dumbarp_rule(header: RuleHeader, attributes: Seq<RuleAttribute>) -> Option<
    (Ipv4Addr, u32),
> {
    if message::is_dumbarp_rule(header, attributes) {
        Some(
            (
                message::rule_source(attributes).unwrap(),
                message::table_or(message::rule_table(attributes), header.table),
            ),
        )
    } else {
        None
    }
}

pub fn parse_dumbarp_rule(msg: &RuleMessage) -> (r: Option<(Ipv4Addr, u32)>)
    ensures
        r == dumbarp_rule(msg.header, msg.attributes@),
{
    if msg.header.family != AddressFamily::Inet {
        return None;
    }
    let mut priority: Option<u32> = None;
    let mut src: Option<Ipv4Addr> = None;
    let mut table_attr: Option<u32> = None;
    let mut i: usize = 0;
    while i < msg.attributes.len()
        invariant
            i <= msg.attributes@.len(),
            priority == message::rule_priority(msg.attributes@.take(i as int)),
            src == message::rule_source(msg.attributes@.take(i as int)),
            table_attr == message::rule_table(msg.attributes@.take(i as int)),
        decreases msg.attributes@.len() - i,
    {
        assert(msg.attributes@.take(i + 1).drop_last() =~= msg.attributes@.take(i as int));
        match msg.attributes[i] {
            RuleAttribute::Priority(p) => priority = Some(p),
            RuleAttribute::Source(v4) => src = Some(v4),
            RuleAttribute::Table(t) => table_attr = Some(t),
            _ => {},
        }
        i += 1;
    }
    assert(msg.attributes@.take(i as int) =~= msg.attributes@);
    if priority != Some(DUMBARP_PRIORITY) {
        return None;
    }
    let src: Ipv4Addr = match src {
        Some(src) => src,
        None => return None,
    };
    if msg.header.src_len != 32 {
        return None;
    }
    let table: u32 = match table_attr {
        Some(t) => t,
        None => msg.header.table as u32,
    };
    Some((src, table))
}

/// The unmarked rule of a source.
pub open spec fn unmarked(src: Ipv4Addr) -> CurrentRule {
    CurrentRule { src, fwmark: None, fwmask: None }
}

/// The last rule of this system that the messages report for a table.
pub open spec fn last_rule(messages: Seq<RuleMessage>, table: u32) -> Option<CurrentRule>
    decreases messages.len(),
{
    if messages.len() == 0 {
        None
    } else {
        let m = messages.last();
        match dumbarp_rule(m.header, m.attributes@) {
            Some((src, t)) if t == table => Some(unmarked(src)),
            _ => last_rule(messages.drop_last(), table),
        }
    }
}

/// At most one entry as a list.
pub open spec fn listed<T>(entry: Option<T>) -> Seq<T> {
    match entry {
        Some(e) => seq![e],
        None => Seq::empty(),
    }
}

/// Sets the one entry of a table.
fn set_rule(rules: &mut Vec<(u32, CurrentRule)>, table: u32, rule: CurrentRule)
    ensures
        forall|t: u32| #[trigger]
            routing::all_in(final(rules)@, t) == if t == table {
                seq![rule]
            } else {
                routing::all_in(old(rules)@, t)
            },
{
    let mut kept: Vec<(u32, CurrentRule)> = Vec::new();
    let mut i: usize = 0;
    while i < rules.len()
        invariant
            i <= rules@.len(),
            rules@ == old(rules)@,
            forall|t: u32| #[trigger]
                routing::all_in(kept@, t) == if t == table {
                    Seq::empty()
                } else {
                    routing::all_in(rules@.take(i as int), t)
                },
        decreases rules@.len() - i,
    {
        assert(rules@.take(i + 1).drop_last() =~= rules@.take(i as int));
        let entry: (u32, CurrentRule) = rules[i];
        let ghost before = kept@;
        if entry.0 != table {
            kept.push(entry);
            assert(kept@.drop_last() =~= before);
        }
        proof {
            assert forall|t: u32| #[trigger] routing::all_in(kept@, t) == if t == table {
                Seq::empty()
            } else {
                routing::all_in(rules@.take(i + 1), t)
            } by {
                assert(routing::all_in(before, t) == if t == table {
                    Seq::empty()
                } else {
                    routing::all_in(rules@.take(i as int), t)
                });
            }
        }
        i += 1;
    }
    assert(rules@.take(i as int) =~= rules@);
    let ghost before = kept@;
    kept.push((table, rule));
    assert(kept@.drop_last() =~= before);
    proof {
        assert forall|t: u32| #[trigger] routing::all_in(kept@, t) == if t == table {
            seq![rule]
        } else {
            routing::all_in(old(rules)@, t)
        } by {
            assert(routing::all_in(before, t) == if t == table {
                Seq::empty()
            } else {
                routing::all_in(rules@, t)
            });
            if t == table {
                assert(routing::all_in(kept@, t) =~= seq![rule]);
            }
        }
    }
    *rules = kept;
}

/// Picks the rules of this system out of a dump of the kernel's rules, the
/// last one of each table.
pub fn list_rules(messages: &Vec<RuleMessage>) -> (r: Vec<(u32, CurrentRule)>)
    ensures
        forall|t: u32| #[trigger] routing::all_in(r@, t) == listed(last_rule(messages@, t)),
{
    let mut r: Vec<(u32, CurrentRule)> = Vec::new();
    let mut i: usize = 0;
    while i < messages.len()
        invariant
            i <= messages@.len(),
            forall|t: u32| #[trigger]
                routing::all_in(r@, t) == listed(last_rule(messages@.take(i as int), t)),
        decreases messages@.len() - i,
    {
        assert(messages@.take(i + 1).drop_last() =~= messages@.take(i as int));
        if let Some((src, table)) = parse_dumbarp_rule(&messages[i]) {
            set_rule(&mut r, table, CurrentRule { src, fwmark: None, fwmask: None });
        }
        i += 1;
    }
    assert(messages@.take(i as int) =~= messages@);
    r
}

/// The wanted routes whose interface was found, in order, without marks.
pub open spec fn resolved(specs: Seq<RouteSpec>, found: Seq<Option<u32>>) -> Seq<
    (u32, ResolvedSpec),
>
    decreases specs.len(),
{
    if specs.len() == 0 {
        Seq::empty()
    } else {
        let s = specs.last();
        let before = resolved(specs.drop_last(), found);
        match found[specs.len() - 1] {
            Some(ifindex) => before.push(
                (
                    routing::table_of(s.src) as u32,
                    ResolvedSpec { src: s.src, gateway: s.gateway, ifindex, fwmark: None },
                ),
            ),
            None => before,
        }
    }
}

/// Resolves the wanted routes, given what the lookup of each one's interface
/// found.
pub fn resolve(desired: &Vec<RouteSpec>, found: &Vec<Option<u32>>) -> (r: Vec<(u32, ResolvedSpec)>)
    requires
        desired@.len() == found@.len(),
    ensures
        r@ == resolved(desired@, found@),
{
    let mut r: Vec<(u32, ResolvedSpec)> = Vec::new();
    let mut i: usize = 0;
    while i < desired.len()
        invariant
            i <= desired@.len() == found@.len(),
            r@ == resolved(desired@.take(i as int), found@),
        decreases desired@.len() - i,
    {
        assert(desired@.take(i + 1).drop_last() =~= desired@.take(i as int));
        let spec: &RouteSpec = &desired[i];
        if let Some(ifindex) = found[i] {
            let table: u32 = routing::table_id_for(spec.src);
            r.push(
                (
                    table,
                    ResolvedSpec { src: spec.src, gateway: spec.gateway, ifindex, fwmark: None },
                ),
            );
        }
        i += 1;
    }
    assert(desired@.take(i as int) =~= desired@);
    r
}

/// Whether a list of rules is what the messages report: of each table the last
/// rule alone.
pub open spec fn lists_rules(rules: Seq<(u32, CurrentRule)>, messages: Seq<RuleMessage>) -> bool {
    forall|t: u32| #[trigger] routing::all_in(rules, t) == listed(last_rule(messages, t))
}

/// Plans a pass without marks, given what the lookup of each wanted route's
/// interface found and what the kernel reports. The pass is not strict: what is
/// wanted of a table is added even where a deletion failed.
pub fn plan_pass(
    desired: &Vec<RouteSpec>,
    found: &Vec<Option<u32>>,
    rule_messages: &Vec<RuleMessage>,
    route_messages: &Vec<RouteMessage>,
) -> (pass: Pass)
    requires
        desired@.len() == found@.len(),
    ensures
        pass@.wf(),
        pass@ == PassView::starting(false, pass@.plans, 0),
        ({
            let wanted = resolved(desired@, found@);
            let routes = message::dumbarp_routes(route_messages@);
            exists|tables: Seq<u32>, rules: Seq<(u32, CurrentRule)>|
                {
                    &&& lists_rules(rules, rule_messages@)
                    &&& order::ascending(tables)
                    &&& forall|t: u32| #[trigger]
                        tables.contains(t) <==> reconcile::concerns(wanted, rules, routes, t)
                    &&& pass@.plans == #[trigger] reconcile::plans_for(
                        tables,
                        wanted,
                        rules,
                        routes,
                    )
                }
        }),
{
    let wanted: Vec<(u32, ResolvedSpec)> = resolve(desired, found);
    let rules: Vec<(u32, CurrentRule)> = list_rules(rule_messages);
    let routes: Vec<(u32, CurrentRoute)> = message::list_routes(route_messages);
    assert(lists_rules(rules@, rule_messages@));
    Pass::new(&wanted, &rules, &routes, false)
}

/// The plans of a pass follow from the wanted routes and the messages alone:
/// no two passes from the same ones differ.
pub proof fn law_messages_determine_the_plans(
    wanted: Seq<(u32, ResolvedSpec)>,
    messages: Seq<RuleMessage>,
    routes: Seq<(u32, CurrentRoute)>,
    rules_a: Seq<(u32, CurrentRule)>,
    rules_b: Seq<(u32, CurrentRule)>,
    tables_a: Seq<u32>,
    tables_b: Seq<u32>,
)
    requires
        lists_rules(rules_a, messages),
        lists_rules(rules_b, messages),
        order::ascending(tables_a),
        order::ascending(tables_b),
        forall|t: u32| #[trigger]
            tables_a.contains(t) <==> reconcile::concerns(wanted, rules_a, routes, t),
        forall|t: u32| #[trigger]
            tables_b.contains(t) <==> reconcile::concerns(wanted, rules_b, routes, t),
    ensures
        reconcile::plans_for(tables_a, wanted, rules_a, routes) == reconcile::plans_for(
            tables_b,
            wanted,
            rules_b,
            routes,
        ),
{
    assert forall|t: u32| tables_a.contains(t) <==> tables_b.contains(t) by {
        reconcile::lemma_concerned(wanted, rules_a, routes, t);
        reconcile::lemma_concerned(wanted, rules_b, routes, t);
        assert(routing::all_in(rules_a, t) == listed(last_rule(messages, t)));
        assert(routing::all_in(rules_b, t) == listed(last_rule(messages, t)));
    }
    order::lemma_ascending_determined(tables_a, tables_b);
    lemma_same_plans(tables_a, wanted, messages, routes, rules_a, rules_b);
}

proof fn lemma_same_plans(
    tables: Seq<u32>,
    wanted: Seq<(u32, ResolvedSpec)>,
    messages: Seq<RuleMessage>,
    routes: Seq<(u32, CurrentRoute)>,
    rules_a: Seq<(u32, CurrentRule)>,
    rules_b: Seq<(u32, CurrentRule)>,
)
    requires
        lists_rules(rules_a, messages),
        lists_rules(rules_b, messages),
    ensures
        reconcile::plans_for(tables, wanted, rules_a, routes) == reconcile::plans_for(
            tables,
            wanted,
            rules_b,
            routes,
        ),
    decreases tables.len(),
{
    if tables.len() > 0 {
        let t = tables.last();
        assert(routing::all_in(rules_a, t) == listed(last_rule(messages, t)));
        assert(routing::all_in(rules_b, t) == listed(last_rule(messages, t)));
        lemma_same_plans(tables.drop_last(), wanted, messages, routes, rules_a, rules_b);
    }
}

/// A rule is of this system exactly if it is an IPv4 rule at priority 9876
/// for one source address of all 32 bits, whatever its mark. It stands in the
/// table of its attribute, or else of its header.
pub proof fn law_own_rules_are_told_by_their_priority(
    header: RuleHeader,
    attributes: Seq<RuleAttribute>,
)
    ensures
        dumbarp_rule(header, attributes) is Some <==> {
            &&& header.family == AddressFamily::Inet
            &&& header.src_len == 32
            &&& message::rule_priority(attributes) == Some(9876u32)
            &&& message::rule_source(attributes) is Some
        },
        dumbarp_rule(header, attributes) is Some ==> ({
            let (src, table) = dumbarp_rule(header, attributes).unwrap();
            &&& Some(src) == message::rule_source(attributes)
            &&& message::rule_table(attributes) is Some ==> Some(table) == message::rule_table(
                attributes,
            )
            &&& message::rule_table(attributes) is None ==> table == header.table
        }),
{
}

/// Of the rules of this system in a table the last one counts, unmarked, and
/// there is none exactly if no message reports one.
pub proof fn law_last_rule_of_a_table_counts(messages: Seq<RuleMessage>, table: u32)
    ensures
        match last_rule(messages, table) {
            Some(rule) => rule.fwmark is None && rule.fwmask is None && exists|i: int|
                0 <= i < messages.len() && dumbarp_rule(
                    (#[trigger] messages[i]).header,
                    messages[i].attributes@,
                ) == Some((rule.src, table)) && forall|j: int|
                    i < j < messages.len() ==> !reports(#[trigger] messages[j], table),
            None => forall|i: int|
                0 <= i < messages.len() ==> !reports(#[trigger] messages[i], table),
        },
        listed(last_rule(messages, table)).len() == if last_rule(messages, table) is Some {
            1int
        } else {
            0
        },
        last_rule(messages, table) is Some ==> listed(last_rule(messages, table))[0] == last_rule(
            messages,
            table,
        ).unwrap(),
    decreases messages.len(),
{
    if messages.len() > 0 {
        let rest = messages.drop_last();
        let last = messages.len() - 1;
        law_last_rule_of_a_table_counts(rest, table);
        assert(messages[last] == messages.last());
        assert forall|i: int| 0 <= i < last implies #[trigger] messages[i] == rest[i] by {}
        if !reports(messages.last(), table) {
            if let Some(rule) = last_rule(rest, table) {
                let i = choose|i: int|
                    0 <= i < rest.len() && dumbarp_rule(
                        (#[trigger] rest[i]).header,
                        rest[i].attributes@,
                    ) == Some((rule.src, table)) && forall|j: int|
                        i < j < rest.len() ==> !reports(#[trigger] rest[j], table);
                assert(messages[i] == rest[i]);
                assert forall|j: int| i < j < messages.len() implies !reports(
                    #[trigger] messages[j],
                    table,
                ) by {
                    if j < last {
                        assert(!reports(rest[j], table));
                    }
                }
            } else {
                assert forall|i: int| 0 <= i < messages.len() implies !reports(
                    #[trigger] messages[i],
                    table,
                ) by {
                    if i < last {
                        assert(!reports(rest[i], table));
                    }
                }
            }
        }
    }
}

/// Whether a message reports a rule of this system in a table.
pub open spec fn reports(m: RuleMessage, table: u32) -> bool {
    match dumbarp_rule(m.header, m.attributes@) {
        Some((_, t)) => t == table,
        None => false,
    }
}

/// Every wanted route whose interface was found is resolved into the table of
/// its source: source and gateway as wanted, the interface's index, no mark.
/// There are no others.
pub proof fn law_every_route_of_an_interface_is_resolved(
    specs: Seq<RouteSpec>,
    found: Seq<Option<u32>>,
    i: int,
)
    requires
        specs.len() <= found.len(),
        0 <= i < specs.len(),
    ensures
        resolved(specs, found).len() == found.take(specs.len() as int).filter(
            |f: Option<u32>| f is Some,
        ).len(),
        found[i] is Some ==> resolved(specs, found).contains(
            (
                routing::table_of(specs[i].src) as u32,
                ResolvedSpec {
                    src: specs[i].src,
                    gateway: specs[i].gateway,
                    ifindex: found[i].unwrap(),
                    fwmark: None,
                },
            ),
        ),
    decreases specs.len(),
{
    let rest = specs.drop_last();
    let last = specs.len() - 1;
    let all = resolved(specs, found);
    let before = resolved(rest, found);
    let entry = (
        routing::table_of(specs[i].src) as u32,
        ResolvedSpec {
            src: specs[i].src,
            gateway: specs[i].gateway,
            ifindex: found[i].unwrap(),
            fwmark: None,
        },
    );
    reveal(Seq::filter);
    assert(found.take(specs.len() as int).drop_last() =~= found.take(last));
    if last > 0 {
        law_every_route_of_an_interface_is_resolved(
            rest,
            found,
            if i < last {
                i
            } else {
                0
            },
        );
    } else {
        assert(found.take(0).len() == 0);
    }
    if found[i] is Some {
        if i < last {
            assert(rest[i] == specs[i]);
            let k = before.index_of(entry);
            assert(all[k] == entry);
        } else {
            assert(all[before.len() as int] == entry);
        }
    }
}

} // verus!
