use dumbarp::daemon::routing as unmarked;
use dumbarp::net::Ipv4Addr;
use dumbarp::routing::manager::{Reconcile, Step};
use dumbarp::routing::message::{
    list_routes, list_rules, parse_dumbarp_route, parse_dumbarp_rule, route_addition, route_deletion, rule_addition,
    rule_deletion, AddressFamily, RouteAttribute, RouteMessage, RuleAction, RuleAttribute, RuleHeader, RuleMessage,
};
use dumbarp::routing::reconcile::{Pass, RouteAction};
use dumbarp::routing::resolve::Resolution;
use dumbarp::routing::{
    table_id_for, CurrentRoute, CurrentRule, ResolvedSpec, RouteSpec, DUMBARP_PRIORITY, FWMASK_EXACT,
};

fn rule_msg(src: Ipv4Addr, table: u32, fwmark: Option<u32>, fwmask: Option<u32>) -> RuleMessage {
    let mut msg = RuleMessage {
        header: RuleHeader {
            family: AddressFamily::Inet,
            src_len: 32,
            table: 0,
            action: RuleAction::ToTable,
        },
        attributes: Vec::new(),
    };
    msg.attributes.push(RuleAttribute::Source(src));
    msg.attributes.push(RuleAttribute::Table(table));
    msg.attributes.push(RuleAttribute::Priority(DUMBARP_PRIORITY));
    if let Some(mark) = fwmark {
        msg.attributes.push(RuleAttribute::FwMark(mark));
    }
    if let Some(mask) = fwmask {
        msg.attributes.push(RuleAttribute::FwMask(mask));
    }
    msg
}

fn spec(src: Ipv4Addr, fwmark: Option<u32>) -> ResolvedSpec {
    ResolvedSpec {
        src,
        gateway: Ipv4Addr::new(10, 0, 0, 1),
        ifindex: 2,
        fwmark,
    }
}

#[test]
fn marked_rule_with_exact_mask_matches() {
    let src = Ipv4Addr::new(110, 13, 196, 173);
    let msg = rule_msg(src, 1846396077, Some(2), Some(FWMASK_EXACT));
    let (table, rule) = parse_dumbarp_rule(&msg).unwrap();
    assert_eq!(table, 1846396077);
    assert!(rule.matches(&spec(src, Some(2))));
}

#[test]
fn marked_rule_with_narrow_mask_is_drift() {
    let src = Ipv4Addr::new(110, 13, 196, 173);
    let msg = rule_msg(src, 1846396077, Some(2), Some(0x0F));
    let (_, rule) = parse_dumbarp_rule(&msg).unwrap();
    assert!(!rule.matches(&spec(src, Some(2))));
}

#[test]
fn marked_rule_without_mask_is_drift() {
    let src = Ipv4Addr::new(110, 13, 196, 173);
    let msg = rule_msg(src, 1846396077, Some(2), None);
    let (_, rule) = parse_dumbarp_rule(&msg).unwrap();
    assert!(!rule.matches(&spec(src, Some(2))));
}

#[test]
fn unmarked_rule_never_matches_marked_spec() {
    let src = Ipv4Addr::new(110, 13, 196, 173);
    let msg = rule_msg(src, 1846396077, None, None);
    let (_, rule) = parse_dumbarp_rule(&msg).unwrap();
    assert!(!rule.matches(&spec(src, Some(2))));
    assert!(rule.matches(&spec(src, None)));
}

#[test]
fn zero_fwmark_is_treated_as_unmarked() {
    let src = Ipv4Addr::new(110, 13, 196, 173);
    let msg = rule_msg(src, 1846396077, Some(0), Some(0));
    let (_, rule) = parse_dumbarp_rule(&msg).unwrap();
    assert_eq!(rule.fwmark, None);
    assert_eq!(rule.fwmask, None);
}

#[test]
fn foreign_priority_is_ignored() {
    let src = Ipv4Addr::new(110, 13, 196, 173);
    let mut msg = rule_msg(src, 1846396077, Some(2), Some(FWMASK_EXACT));
    msg.attributes
        .retain(|a| !matches!(a, RuleAttribute::Priority(_)));
    msg.attributes.push(RuleAttribute::Priority(100));
    assert!(parse_dumbarp_rule(&msg).is_none());
}

#[test]
fn rules_of_others_are_ignored() {
    let src = Ipv4Addr::new(1, 2, 3, 4);
    let mut other = rule_msg(src, 7, None, None);
    other.header.family = AddressFamily::Other(10);
    assert!(parse_dumbarp_rule(&other).is_none());
    let mut wide = rule_msg(src, 7, None, None);
    wide.header.src_len = 24;
    assert!(parse_dumbarp_rule(&wide).is_none());
    let mut sourceless = rule_msg(src, 7, None, None);
    sourceless.attributes.remove(0);
    assert!(parse_dumbarp_rule(&sourceless).is_none());
}

#[test]
fn reserved_tables_are_avoided() {
    for n in [0u32, 253, 254, 255] {
        assert_eq!(table_id_for(Ipv4Addr { bits: n }), n + 0x1_0000);
    }
    assert_eq!(table_id_for(Ipv4Addr::new(110, 13, 196, 173)), 1846396077);
    assert_eq!(table_id_for(Ipv4Addr { bits: 252 }), 252);
}

#[test]
fn added_rules_and_routes_are_recognised() {
    let src = Ipv4Addr::new(10, 1, 1, 1);
    for table in [7u32, 255, 256, 1846396077] {
        for mark in [None, Some(3)] {
            let (t, rule) = parse_dumbarp_rule(&rule_addition(src, table, mark)).unwrap();
            assert_eq!(t, table);
            assert!(rule.matches(&spec(src, mark)));
        }
        let route = parse_dumbarp_route(&route_addition(table, Ipv4Addr::new(10, 0, 0, 1), 2)).unwrap();
        assert_eq!(route.table, table);
        assert!(route.into_value().matches(&spec(src, None)));
        assert!(parse_dumbarp_route(&route_deletion(table)).is_none());
        assert_eq!(
            rule_deletion(src, table, Some(9)).attributes,
            vec![
                RuleAttribute::Source(src),
                RuleAttribute::Table(table),
                RuleAttribute::Priority(9876),
                RuleAttribute::FwMark(9)
            ]
        );
    }
}

#[test]
fn routes_of_others_are_ignored() {
    let gw = Ipv4Addr::new(10, 0, 0, 1);
    let mut msg = route_addition(300, gw, 4);
    msg.header.protocol = 4;
    assert!(parse_dumbarp_route(&msg).is_none());
    let mut msg = route_addition(300, gw, 4);
    msg.attributes.retain(|a| !matches!(a, RouteAttribute::Oif(_)));
    assert!(parse_dumbarp_route(&msg).is_none());
    let mut msg = route_addition(300, gw, 4);
    msg.header.onlink = false;
    let routes = list_routes(&vec![msg, route_deletion(9)]);
    assert_eq!(routes, vec![(300, CurrentRoute { gateway: gw, oif: 4, onlink: false })]);
}

fn want(last: u8, iface: &str, fwmark: Option<u32>) -> RouteSpec {
    RouteSpec {
        src: Ipv4Addr::new(110, 0, 0, last),
        gateway: Ipv4Addr::new(10, 0, 0, 1),
        iface: iface.to_string(),
        fwmark,
    }
}

#[test]
fn found_interfaces_are_looked_up_once_and_missing_ones_each_time() {
    let desired = vec![
        want(1, "br0", None),
        want(2, "gone", None),
        want(3, "br0", Some(4)),
        want(4, "gone", None),
    ];
    let mut resolution = Resolution::new(desired);
    let mut asked = Vec::new();
    while let Some(iface) = resolution.pending() {
        let iface = iface.clone();
        resolution.answer(if iface == "br0" { Some(5) } else { None });
        asked.push(iface);
    }
    assert_eq!(asked, vec!["br0", "gone", "gone"]);
    let resolved = resolution.finish();
    assert_eq!(resolved.len(), 2);
    assert_eq!(resolved[0].0, table_id_for(Ipv4Addr::new(110, 0, 0, 1)));
    assert_eq!(resolved[1].1.fwmark, Some(4));
    assert_eq!(resolved[1].1.ifindex, 5);
}

fn run(mut pass: Pass, fail: &[usize]) -> Vec<RouteAction> {
    let mut actions = Vec::new();
    while let Some(action) = pass.next() {
        pass.report(!fail.contains(&actions.len()));
        actions.push(action);
    }
    actions
}

fn rule(last: u8, fwmark: Option<u32>) -> CurrentRule {
    CurrentRule {
        src: Ipv4Addr::new(110, 0, 0, last),
        fwmark,
        fwmask: fwmark.map(|_| FWMASK_EXACT),
    }
}

const ROUTE: CurrentRoute = CurrentRoute {
    gateway: Ipv4Addr { bits: 0x0a00_0001 },
    oif: 2,
    onlink: true,
};

#[test]
fn a_settled_table_is_left_alone() {
    let src = Ipv4Addr::new(110, 0, 0, 1);
    let resolved = vec![(300, spec(src, Some(3)))];
    let pass = Pass::new(&resolved, &vec![(300, rule(1, Some(3)))], &vec![(300, ROUTE)], true);
    assert!(run(pass, &[]).is_empty());
    let drifted = CurrentRoute { onlink: false, ..ROUTE };
    let pass = Pass::new(&resolved, &vec![(300, rule(1, Some(3)))], &vec![(300, drifted)], true);
    assert_eq!(run(pass, &[]).len(), 4);
}

#[test]
fn stale_state_goes_before_wanted_state_comes() {
    let src = Ipv4Addr::new(110, 0, 0, 1);
    let resolved = vec![(300, spec(src, Some(3)))];
    let rules = vec![(300, rule(1, Some(2))), (300, rule(1, None)), (400, rule(9, None))];
    let routes = vec![(300, ROUTE)];
    let actions = run(Pass::new(&resolved, &rules, &routes, true), &[]);
    assert_eq!(
        actions,
        vec![
            RouteAction::DeleteRule { src, table: 300, fwmark: Some(2) },
            RouteAction::DeleteRule { src, table: 300, fwmark: None },
            RouteAction::DeleteRoute { table: 300 },
            RouteAction::AddRule { src, table: 300, fwmark: Some(3) },
            RouteAction::AddRoute { table: 300, gateway: Ipv4Addr::new(10, 0, 0, 1), ifindex: 2 },
            RouteAction::DeleteRule { src: Ipv4Addr::new(110, 0, 0, 9), table: 400, fwmark: None },
        ]
    );
}

#[test]
fn a_failed_deletion_holds_back_the_additions_of_a_strict_pass() {
    let src = Ipv4Addr::new(110, 0, 0, 1);
    let resolved = vec![(300, spec(src, None))];
    let rules = vec![(300, rule(2, None)), (300, rule(3, None))];
    let strict = run(Pass::new(&resolved, &rules, &vec![], true), &[0]);
    assert_eq!(strict.len(), 2);
    let lenient = run(Pass::new(&resolved, &rules, &vec![], false), &[0]);
    assert_eq!(lenient.len(), 4);
}

#[test]
fn a_failed_rule_holds_back_its_route() {
    let resolved = vec![
        (300, spec(Ipv4Addr::new(110, 0, 0, 1), None)),
        (301, spec(Ipv4Addr::new(110, 0, 0, 2), None)),
    ];
    let actions = run(Pass::new(&resolved, &vec![], &vec![], true), &[0]);
    assert_eq!(actions.len(), 3);
    assert!(matches!(actions[1], RouteAction::AddRule { table: 301, .. }));
}

#[test]
fn the_later_of_two_routes_for_a_table_counts() {
    let src = Ipv4Addr::new(110, 0, 0, 1);
    let resolved = vec![(300, spec(src, None)), (300, spec(src, Some(8)))];
    let actions = run(Pass::new(&resolved, &vec![], &vec![], true), &[]);
    assert_eq!(actions[0], RouteAction::AddRule { src, table: 300, fwmark: Some(8) });
    assert_eq!(actions.len(), 2);
}

#[test]
fn unmarked_routing_keeps_one_rule_per_table() {
    let a = Ipv4Addr::new(1, 1, 1, 1);
    let b = Ipv4Addr::new(2, 2, 2, 2);
    let messages = vec![
        rule_msg(a, 500, Some(3), None),
        rule_msg(a, 600, None, None),
        rule_msg(b, 500, None, None),
    ];
    assert_eq!(unmarked::parse_dumbarp_rule(&messages[0]), Some((a, 500)));
    let rules = unmarked::list_rules(&messages);
    assert_eq!(rules.len(), 2);
    assert!(rules.contains(&(500, CurrentRule { src: b, fwmark: None, fwmask: None })));
    assert!(rules.contains(&(600, CurrentRule { src: a, fwmark: None, fwmask: None })));
    assert_eq!(list_rules(&messages).len(), 3);
    let resolved = unmarked::resolve(&vec![want(1, "br0", Some(9)), want(2, "x", None)], &vec![Some(4), None]);
    assert_eq!(resolved.len(), 1);
    assert_eq!(resolved[0].1.fwmark, None);
    assert_eq!(resolved[0].1.ifindex, 4);
}

#[derive(Default)]
struct Kernel {
    rules: Vec<(u32, CurrentRule)>,
    routes: Vec<(u32, CurrentRoute)>,
}

impl Kernel {
    fn rule_messages(&self) -> Vec<RuleMessage> {
        self.rules
            .iter()
            .map(|(table, r)| rule_msg(r.src, *table, r.fwmark, r.fwmask))
            .collect()
    }

    fn route_messages(&self) -> Vec<RouteMessage> {
        self.routes
            .iter()
            .map(|(table, r)| route_addition(*table, r.gateway, r.oif))
            .collect()
    }

    fn apply(&mut self, action: &RouteAction) {
        match *action {
            RouteAction::DeleteRule { src, table, fwmark } => {
                let at = self
                    .rules
                    .iter()
                    .position(|(t, r)| *t == table && r.src == src && (fwmark.is_none() || r.fwmark == fwmark));
                self.rules.remove(at.unwrap());
            }
            RouteAction::DeleteRoute { table } => self.routes.retain(|(t, _)| *t != table),
            RouteAction::AddRule { src, table, fwmark } => {
                let (table, rule) = parse_dumbarp_rule(&rule_addition(src, table, fwmark)).unwrap();
                self.rules.push((table, rule));
            }
            RouteAction::AddRoute { table, gateway, ifindex } => {
                self.routes.push((table, CurrentRoute { gateway, oif: ifindex, onlink: true }));
            }
        }
    }

    fn reconcile(&mut self, desired: Vec<RouteSpec>) -> usize {
        let mut changes = 0;
        let mut run = Reconcile::start(desired);
        loop {
            run = match run.step() {
                Step::LookUp(iface) => run.looked_up(if iface == "br0" { Some(2) } else { None }),
                Step::ListRules => run.rules_listed(Some(self.rule_messages())),
                Step::ListRoutes => run.routes_listed(Some(self.route_messages())),
                Step::Change(action) => {
                    self.apply(&action);
                    changes += 1;
                    run.changed(true)
                }
                Step::Finished => return changes,
                Step::Failed => panic!("failed"),
            };
        }
    }
}

#[test]
fn reconciling_converges_and_then_rests() {
    let mut kernel = Kernel::default();
    kernel.rules.push((700, rule(7, Some(1))));
    kernel.rules.push((700, rule(8, None)));
    kernel.routes.push((800, ROUTE));
    let desired = || {
        vec![
            want(1, "br0", Some(3)),
            want(2, "missing", Some(3)),
            want(3, "br0", None),
            want(1, "br0", Some(4)),
        ]
    };
    assert_eq!(kernel.reconcile(desired()), 7);
    assert_eq!(kernel.rules.len(), 2);
    assert_eq!(kernel.routes.len(), 2);
    let table = table_id_for(Ipv4Addr::new(110, 0, 0, 1));
    assert!(kernel.rules.contains(&(table, rule(1, Some(4)))));
    assert_eq!(kernel.reconcile(desired()), 0);
    assert_eq!(kernel.reconcile(vec![]), 4);
    assert!(kernel.rules.is_empty());
    assert!(kernel.routes.is_empty());
}

#[test]
fn reconciling_fails_where_the_kernel_cannot_be_listed() {
    let run = Reconcile::start(vec![]);
    assert!(matches!(run.step(), Step::ListRules));
    assert!(matches!(run.rules_listed(None).step(), Step::Failed));
    let run = Reconcile::start(vec![]).rules_listed(Some(vec![]));
    assert!(matches!(run.step(), Step::ListRoutes));
    assert!(matches!(run.routes_listed(None).step(), Step::Failed));
    let run = Reconcile::start(vec![]).rules_listed(Some(vec![])).routes_listed(Some(vec![]));
    assert!(matches!(run.step(), Step::Finished));
}

#[test]
fn an_unmarked_pass_adds_after_a_failed_deletion() {
    let src = Ipv4Addr::new(110, 0, 0, 1);
    let table = table_id_for(src);
    let desired = vec![want(1, "br0", None), want(2, "missing", None)];
    let found = vec![Some(2), None];
    let other = Ipv4Addr::new(9, 9, 9, 9);
    let rules = vec![rule_msg(src, table, None, None), rule_msg(other, table, None, None)];
    let gateway = desired[0].gateway;
    let pass = || unmarked::plan_pass(&desired, &found, &rules, &vec![]);
    let expected = vec![
        RouteAction::DeleteRule { src: other, table, fwmark: None },
        RouteAction::AddRule { src, table, fwmark: None },
        RouteAction::AddRoute { table, gateway, ifindex: 2 },
    ];
    assert_eq!(run(pass(), &[]), expected);
    assert_eq!(run(pass(), &[0]), expected);
    let settled = unmarked::plan_pass(
        &desired,
        &found,
        &vec![rule_msg(src, table, Some(7), None)],
        &vec![route_addition(table, gateway, 2)],
    );
    assert!(run(settled, &[]).is_empty());
}
