//! Bringing the kernel's rules and routes to what is wanted, table by table.

use crate::net::Ipv4Addr;
use crate::order;
use crate::routing;
use crate::routing::message;
use crate::routing::{CurrentRoute, CurrentRule, ResolvedSpec};
use vstd::prelude::*;

verus! {

/// One change of the kernel's state.
#[derive(Debug, Clone, Copy, PartialEq, Eq)]
pub enum RouteAction {
    DeleteRule { src: Ipv4Addr, table: u32, fwmark: Option<u32> },
    DeleteRoute { table: u32 },
    AddRule { src: Ipv4Addr, table: u32, fwmark: Option<u32> },
    AddRoute { table: u32, gateway: Ipv4Addr, ifindex: u32 },
}

impl RouteAction {
    pub open spec fn table(self) -> u32 {
        match self {
            RouteAction::DeleteRule { table, .. } => table,
            RouteAction::DeleteRoute { table } => table,
            RouteAction::AddRule { table, .. } => table,
            RouteAction::AddRoute { table, .. } => table,
        }
    }
}

/// What has to happen to one table: first everything in it is deleted, then
/// what is wanted is added.
pub struct TablePlan {
    pub deletes: Vec<RouteAction>,
    pub adds: Vec<RouteAction>,
}

#[verifier::ext_equal]
pub struct TablePlanView {
    pub deletes: Seq<RouteAction>,
    pub adds: Seq<RouteAction>,
}

impl View for TablePlan {
    type V = TablePlanView;

    open spec fn view(&self) -> TablePlanView {
        TablePlanView { deletes: self.deletes@, adds: self.adds@ }
    }
}

/// What the kernel holds of one table.
#[verifier::ext_equal]
pub struct TableState {
    pub rules: Seq<CurrentRule>,
    pub route: Option<CurrentRoute>,
}

/// Whether a table holds what is wanted: one fitting rule and a fitting route.
pub open spec fn in_place(want: Option<ResolvedSpec>, have: TableState) -> bool {
    match (want, have.route) {
        (Some(w), Some(rt)) => have.rules.len() == 1 && have.rules[0].fits(w) && rt.fits(w),
        _ => false,
    }
}

pub open spec fn rule_deletions(table: u32, rules: Seq<CurrentRule>) -> Seq<RouteAction> {
    rules.map_values(
        |r: CurrentRule| RouteAction::DeleteRule { src: r.src, table, fwmark: r.fwmark },
    )
}

/// The changes to a table that does not hold what is wanted.
pub open spec fn table_plan(
    table: u32,
    want: Option<ResolvedSpec>,
    have: TableState,
) -> TablePlanView {
    TablePlanView {
        deletes: if have.route is Some {
            rule_deletions(table, have.rules).push(RouteAction::DeleteRoute { table })
        } else {
            rule_deletions(table, have.rules)
        },
        adds: match want {
            Some(w) => seq![
                RouteAction::AddRule { src: w.src, table, fwmark: w.fwmark },
                RouteAction::AddRoute { table, gateway: w.gateway, ifindex: w.ifindex },
            ],
            None => Seq::empty(),
        },
    }
}

/// What the listed rules and routes say of a table.
pub open spec fn state_in(
    rules: Seq<(u32, CurrentRule)>,
    routes: Seq<(u32, CurrentRoute)>,
    table: u32,
) -> TableState {
    TableState { rules: routing::all_in(rules, table), route: routing::last_in(routes, table) }
}

/// Compares a table with what is wanted of it, and plans the changes.
pub fn plan_table(
    table: u32,
    want: Option<ResolvedSpec>,
    have_rules: &Vec<CurrentRule>,
    have_route: Option<CurrentRoute>,
) -> (r: Option<TablePlan>)
    ensures
        ({
            let have = TableState { rules: have_rules@, route: have_route };
            match r {
                Some(plan) => !in_place(want, have) && plan@ == table_plan(table, want, have),
                None => in_place(want, have),
            }
        }),
{
    let ghost have = TableState { rules: have_rules@, route: have_route };
    let matches: bool = match (want, have_route) {
        (Some(w), Some(rt)) => have_rules.len() == 1 && have_rules[0].matches(&w) && rt.matches(
            &w,
        ),
        _ => false,
    };
    if matches {
        return None;
    }
    let mut deletes: Vec<RouteAction> = Vec::new();
    let mut i: usize = 0;
    while i < have_rules.len()
        invariant
            i <= have_rules@.len(),
            deletes@ == rule_deletions(table, have_rules@.take(i as int)),
        decreases have_rules@.len() - i,
    {
        let rule: CurrentRule = have_rules[i];
        deletes.push(RouteAction::DeleteRule { src: rule.src, table, fwmark: rule.fwmark });
        assert(deletes@ =~= rule_deletions(table, have_rules@.take(i + 1)));
        i += 1;
    }
    assert(have_rules@.take(i as int) =~= have_rules@);
    if have_route.is_some() {
        deletes.push(RouteAction::DeleteRoute { table });
    }
    let mut adds: Vec<RouteAction> = Vec::new();
    if let Some(w) = want {
        adds.push(RouteAction::AddRule { src: w.src, table, fwmark: w.fwmark });
        adds.push(RouteAction::AddRoute { table, gateway: w.gateway, ifindex: w.ifindex });
    }
    let plan = TablePlan { deletes, adds };
    assert(plan@ =~= table_plan(table, want, have));
    Some(plan)
}

/// Whether anything is wanted of a table or stands in it.
pub open spec fn concerns(
    resolved: Seq<(u32, ResolvedSpec)>,
    rules: Seq<(u32, CurrentRule)>,
    routes: Seq<(u32, CurrentRoute)>,
    table: u32,
) -> bool {
    ||| exists|i: int| 0 <= i < resolved.len() && (#[trigger] resolved[i]).0 == table
    ||| exists|i: int| 0 <= i < rules.len() && (#[trigger] rules[i]).0 == table
    ||| exists|i: int| 0 <= i < routes.len() && (#[trigger] routes[i]).0 == table
}

/// Collects the first components.
fn note_tables<T: Copy>(tables: &mut Vec<u32>, entries: &Vec<(u32, T)>)
    requires
        order::ascending(old(tables)@),
    ensures
        order::ascending(final(tables)@),
        forall|t: u32|
            #![trigger final(tables)@.contains(t)]
            final(tables)@.contains(t) <==> old(tables)@.contains(t) || exists|i: int|
                0 <= i < entries@.len() && (#[trigger] entries@[i]).0 == t,
{
    let mut i: usize = 0;
    while i < entries.len()
        invariant
            i <= entries@.len(),
            order::ascending(tables@),
            forall|t: u32|
                #![trigger tables@.contains(t)]
                tables@.contains(t) <==> old(tables)@.contains(t) || exists|k: int|
                    0 <= k < i && (#[trigger] entries@[k]).0 == t,
        decreases entries@.len() - i,
    {
        order::insert_ascending(tables, entries[i].0);
        i += 1;
    }
}

/// The tables that anything is wanted of or that anything stands in, ascending.
pub fn all_tables(
    resolved: &Vec<(u32, ResolvedSpec)>,
    rules: &Vec<(u32, CurrentRule)>,
    routes: &Vec<(u32, CurrentRoute)>,
) -> (tables: Vec<u32>)
    ensures
        order::ascending(tables@),
        forall|t: u32|
            #![trigger tables@.contains(t)]
            tables@.contains(t) <==> concerns(resolved@, rules@, routes@, t),
{
    let mut tables: Vec<u32> = Vec::new();
    note_tables(&mut tables, rules);
    note_tables(&mut tables, routes);
    note_tables(&mut tables, resolved);
    tables
}

/// The plans for the given tables, those left out that hold what is wanted.
pub open spec fn plans_for(
    tables: Seq<u32>,
    resolved: Seq<(u32, ResolvedSpec)>,
    rules: Seq<(u32, CurrentRule)>,
    routes: Seq<(u32, CurrentRoute)>,
) -> Seq<TablePlanView>
    decreases tables.len(),
{
    if tables.len() == 0 {
        Seq::empty()
    } else {
        let t = tables.last();
        let want = routing::last_in(resolved, t);
        let have = state_in(rules, routes, t);
        let before = plans_for(tables.drop_last(), resolved, rules, routes);
        if in_place(want, have) {
            before
        } else {
            before.push(table_plan(t, want, have))
        }
    }
}

pub open spec fn plan_views(plans: Seq<TablePlan>) -> Seq<TablePlanView> {
    plans.map_values(|p: TablePlan| p@)
}

/// The changes of one pass, table by table, and how far it has come.
pub struct Pass {
    strict: bool,
    plans: Vec<TablePlan>,
    at: usize,
    adding: bool,
    step: usize,
    delete_failed: bool,
}

#[verifier::ext_equal]
pub struct PassView {
    /// Whether a failed deletion keeps the additions to its table from being
    /// tried.
    pub strict: bool,
    pub plans: Seq<TablePlanView>,
    /// The plan that is under way.
    pub at: int,
    /// Whether its deletions are over.
    pub adding: bool,
    /// How many of its deletions, or else additions, are done.
    pub step: int,
    /// Whether one of its deletions failed.
    pub delete_failed: bool,
}

impl PassView {
    /// The pass where it takes up a plan.
    pub open spec fn starting(strict: bool, plans: Seq<TablePlanView>, at: int) -> PassView {
        PassView {
            strict,
            plans,
            at,
            adding: at < plans.len() && plans[at].deletes.len() == 0,
            step: 0,
            delete_failed: false,
        }
    }

    /// The change that is due.
    pub open spec fn due(self) -> Option<RouteAction> {
        if self.at < self.plans.len() {
            if self.adding {
                Some(self.plans[self.at].adds[self.step])
            } else {
                Some(self.plans[self.at].deletes[self.step])
            }
        } else {
            None
        }
    }

    /// The pass after the change that was due succeeded or failed.
    ///
    /// Every deletion of a table is tried. In a strict pass one that fails
    /// keeps the table's additions from being tried. A failed addition ends
    /// the table.
    pub open spec fn after(self, ok: bool) -> PassView {
        let plan = self.plans[self.at];
        let failed = self.delete_failed || !ok;
        if !self.adding && self.step + 1 < plan.deletes.len() {
            PassView { step: self.step + 1, delete_failed: failed, ..self }
        } else if !self.adding && !(self.strict && failed) && plan.adds.len() > 0 {
            PassView { adding: true, step: 0, delete_failed: failed, ..self }
        } else if self.adding && ok && self.step + 1 < plan.adds.len() {
            PassView { step: self.step + 1, ..self }
        } else {
            PassView::starting(self.strict, self.plans, self.at + 1)
        }
    }

    pub open spec fn wf(self) -> bool {
        &&& 0 <= self.at <= self.plans.len()
        &&& 0 <= self.step
        &&& self.at < self.plans.len() ==> if self.adding {
            self.step < self.plans[self.at].adds.len()
        } else {
            self.step < self.plans[self.at].deletes.len()
        }
        &&& forall|i: int|
            0 <= i < self.plans.len() ==> (#[trigger] self.plans[i]).deletes.len() > 0
                || self.plans[i].adds.len() > 0
    }
}

impl View for Pass {
    type V = PassView;

    closed spec fn view(&self) -> PassView {
        PassView {
            strict: self.strict,
            plans: plan_views(self.plans@),
            at: self.at as int,
            adding: self.adding,
            step: self.step as int,
            delete_failed: self.delete_failed,
        }
    }
}

impl Pass {
    /// Plans a pass from what is wanted and what the kernel reports. Where a
    /// table is wanted twice, or reported with two routes, the later one counts.
    pub fn new(
        resolved: &Vec<(u32, ResolvedSpec)>,
        rules: &Vec<(u32, CurrentRule)>,
        routes: &Vec<(u32, CurrentRoute)>,
        strict: bool,
    ) -> (pass: Self)
        ensures
            pass@.wf(),
            pass@ == PassView::starting(strict, pass@.plans, 0),
            exists|tables: Seq<u32>|
                {
                    &&& order::ascending(tables)
                    &&& forall|t: u32| #[trigger]
                        tables.contains(t) <==> concerns(resolved@, rules@, routes@, t)
                    &&& pass@.plans == #[trigger] plans_for(tables, resolved@, rules@, routes@)
                },
    {
        let tables: Vec<u32> = all_tables(resolved, rules, routes);
        let mut plans: Vec<TablePlan> = Vec::new();
        let mut i: usize = 0;
        while i < tables.len()
            invariant
                i <= tables@.len(),
                forall|t: u32|
                    #![trigger tables@.contains(t)]
                    tables@.contains(t) <==> concerns(resolved@, rules@, routes@, t),
                plan_views(plans@) == plans_for(
                    tables@.take(i as int),
                    resolved@,
                    rules@,
                    routes@,
                ),
                forall|k: int|
                    0 <= k < plans@.len() ==> (#[trigger] plans@[k])@.deletes.len() > 0
                        || plans@[k]@.adds.len() > 0,
            decreases tables@.len() - i,
        {
            let table: u32 = tables[i];
            let want: Option<ResolvedSpec> = routing::last_of_table(resolved, table);
            let have_rules: Vec<CurrentRule> = routing::all_of_table(rules, table);
            let have_route: Option<CurrentRoute> = routing::last_of_table(routes, table);
            assert(tables@.take(i + 1).drop_last() =~= tables@.take(i as int));
            proof {
                assert(tables@.contains(table));
                lemma_concerned(resolved@, rules@, routes@, table);
                assert(have_rules@ == state_in(rules@, routes@, table).rules);
            }
            if let Some(plan) = plan_table(table, want, &have_rules, have_route) {
                let ghost before = plans@;
                plans.push(plan);
                assert(plan_views(plans@) =~= plan_views(before).push(plan@));
            }
            i += 1;
        }
        assert(tables@.take(i as int) =~= tables@);
        let adding: bool = plans.len() > 0 && plans[0].deletes.len() == 0;
        let pass = Pass { strict, plans, at: 0, adding, step: 0, delete_failed: false };
        proof {
            assert(pass@.plans == plans_for(tables@, resolved@, rules@, routes@));
            assert forall|k: int| 0 <= k < pass@.plans.len() implies (
            #[trigger] pass@.plans[k]).deletes.len() > 0 || pass@.plans[k].adds.len() > 0 by {
                assert(pass@.plans[k] == plans@[k]@);
            }
        }
        pass
    }

    /// The change that is due, if any is left.
    pub fn next(&self) -> (r: Option<RouteAction>)
        requires
            self@.wf(),
        ensures
            r == self@.due(),
    {
        if self.at < self.plans.len() {
            let plan: &TablePlan = &self.plans[self.at];
            assert(self@.plans[self.at as int] == plan@);
            if self.adding {
                Some(plan.adds[self.step])
            } else {
                Some(plan.deletes[self.step])
            }
        } else {
            None
        }
    }

    /// Takes whether the change that was due succeeded.
    pub fn report(&mut self, ok: bool)
        requires
            old(self)@.wf(),
            old(self)@.due() is Some,
        ensures
            final(self)@.wf(),
            final(self)@ == old(self)@.after(ok),
    {
        let len: usize = self.plans.len();
        let plan: &TablePlan = &self.plans[self.at];
        assert(self@.plans[self.at as int] == plan@);
        let deletes: usize = plan.deletes.len();
        let adds: usize = plan.adds.len();
        let failed: bool = self.delete_failed || !ok;
        if !self.adding && self.step + 1 < deletes {
            self.step += 1;
            self.delete_failed = failed;
        } else if !self.adding && !(self.strict && failed) && adds > 0 {
            self.adding = true;
            self.step = 0;
            self.delete_failed = failed;
        } else if self.adding && ok && self.step + 1 < adds {
            self.step += 1;
        } else {
            self.at += 1;
            if self.at < len {
                let next: &TablePlan = &self.plans[self.at];
                assert(self@.plans[self.at as int] == next@);
                self.adding = next.deletes.len() == 0;
            } else {
                self.adding = false;
            }
            self.step = 0;
            self.delete_failed = false;
        }
    }
}

pub proof fn lemma_concerned(
    resolved: Seq<(u32, ResolvedSpec)>,
    rules: Seq<(u32, CurrentRule)>,
    routes: Seq<(u32, CurrentRoute)>,
    table: u32,
)
    ensures
        concerns(resolved, rules, routes, table) <==> routing::last_in(resolved, table) is Some
            || routing::all_in(rules, table).len() > 0 || routing::last_in(
            routes,
            table,
        ) is Some,
{
    lemma_last_in(resolved, table);
    lemma_last_in(routes, table);
    lemma_all_in(rules, table);
}

proof fn lemma_last_in<T>(entries: Seq<(u32, T)>, table: u32)
    ensures
        routing::last_in(entries, table) is Some <==> exists|i: int|
            0 <= i < entries.len() && (#[trigger] entries[i]).0 == table,
    decreases entries.len(),
{
    if entries.len() > 0 {
        let rest = entries.drop_last();
        lemma_last_in(rest, table);
        if entries.last().0 == table {
            assert(entries[entries.len() - 1].0 == table);
        } else {
            if exists|i: int| 0 <= i < rest.len() && (#[trigger] rest[i]).0 == table {
                let i = choose|i: int| 0 <= i < rest.len() && (#[trigger] rest[i]).0 == table;
                assert(entries[i].0 == table);
            }
            if exists|i: int| 0 <= i < entries.len() && (#[trigger] entries[i]).0 == table {
                let i = choose|i: int| 0 <= i < entries.len() && (#[trigger] entries[i]).0 == table;
                assert(rest[i].0 == table);
            }
        }
    }
}

proof fn lemma_all_in<T>(entries: Seq<(u32, T)>, table: u32)
    ensures
        routing::all_in(entries, table).len() > 0 <==> exists|i: int|
            0 <= i < entries.len() && (#[trigger] entries[i]).0 == table,
    decreases entries.len(),
{
    if entries.len() > 0 {
        let rest = entries.drop_last();
        lemma_all_in(rest, table);
        if entries.last().0 == table {
            assert(entries[entries.len() - 1].0 == table);
        } else {
            if exists|i: int| 0 <= i < rest.len() && (#[trigger] rest[i]).0 == table {
                let i = choose|i: int| 0 <= i < rest.len() && (#[trigger] rest[i]).0 == table;
                assert(entries[i].0 == table);
            }
            if exists|i: int| 0 <= i < entries.len() && (#[trigger] entries[i]).0 == table {
                let i = choose|i: int| 0 <= i < entries.len() && (#[trigger] entries[i]).0 == table;
                assert(rest[i].0 == table);
            }
        }
    }
}

/// The changes of a plan, deletions first.
pub open spec fn plan_changes(plan: TablePlanView) -> Seq<RouteAction> {
    plan.deletes + plan.adds
}

/// The changes of all plans in order.
pub open spec fn changes(plans: Seq<TablePlanView>) -> Seq<RouteAction>
    decreases plans.len(),
{
    if plans.len() == 0 {
        Seq::empty()
    } else {
        changes(plans.drop_last()) + plan_changes(plans.last())
    }
}

/// The changes that a pass has yet to make if nothing fails.
pub open spec fn changes_left(v: PassView) -> Seq<RouteAction> {
    if v.at < v.plans.len() {
        let plan = v.plans[v.at];
        (if v.adding {
            plan.adds.skip(v.step)
        } else {
            plan.deletes.skip(v.step) + plan.adds
        }) + changes(v.plans.skip(v.at + 1))
    } else {
        Seq::empty()
    }
}

proof fn lemma_changes_from_front(plans: Seq<TablePlanView>)
    requires
        plans.len() > 0,
    ensures
        changes(plans) == plan_changes(plans[0]) + changes(plans.skip(1)),
    decreases plans.len(),
{
    if plans.len() == 1 {
        assert(plans.drop_last() =~= Seq::<TablePlanView>::empty());
        assert(plans.skip(1) =~= Seq::<TablePlanView>::empty());
        assert(changes(plans) =~= plan_changes(plans[0]) + changes(plans.skip(1)));
    } else {
        lemma_changes_from_front(plans.drop_last());
        assert(plans.drop_last().skip(1) =~= plans.skip(1).drop_last());
        assert(plans.skip(1).last() == plans.last());
        assert(changes(plans) =~= plan_changes(plans[0]) + changes(plans.skip(1)));
    }
}

/// A pass in which nothing fails makes every planned change once, in order,
/// and then ends.
pub proof fn law_unfailing_pass_makes_every_change(v: PassView)
    requires
        v.wf(),
        !v.delete_failed,
    ensures
        v == PassView::starting(v.strict, v.plans, 0) ==> changes_left(v) == changes(v.plans),
        v.due() is None ==> changes_left(v).len() == 0,
        v.due() is Some ==> {
            &&& v.after(true).wf()
            &&& !v.after(true).delete_failed
            &&& v.after(true).plans == v.plans
            &&& changes_left(v) == seq![v.due().unwrap()] + changes_left(v.after(true))
        },
{
    if v == PassView::starting(v.strict, v.plans, 0) && v.plans.len() > 0 {
        lemma_changes_from_front(v.plans);
        let plan = v.plans[0];
        assert(plan.deletes.skip(0) =~= plan.deletes);
        assert(plan.adds.skip(0) =~= plan.adds);
        assert(changes_left(v) =~= changes(v.plans));
    }
    if v.due() is Some {
        let w = v.after(true);
        let plan = v.plans[v.at];
        if w.at == v.at {
            if w.adding && !v.adding {
                assert(plan.adds.skip(0) =~= plan.adds);
            }
            assert(changes_left(v) =~= seq![v.due().unwrap()] + changes_left(w));
        } else {
            let rest = v.plans.skip(v.at + 1);
            if w.at < v.plans.len() {
                lemma_changes_from_front(rest);
                assert(rest[0] == v.plans[w.at]);
                assert(rest.skip(1) =~= v.plans.skip(w.at + 1));
                let next = v.plans[w.at];
                assert(next.deletes.skip(0) =~= next.deletes);
                assert(next.adds.skip(0) =~= next.adds);
            }
            assert(changes_left(v) =~= seq![v.due().unwrap()] + changes_left(w));
        }
    }
}

/// In a strict pass nothing is added to a table while a deletion in it has
/// failed: a pass starts that way and stays that way.
pub proof fn law_strict_pass_adds_only_after_every_deletion(v: PassView, ok: bool)
    requires
        v.wf(),
        v.strict,
        v.due() is Some,
        v.adding ==> !v.delete_failed,
    ensures
        PassView::starting(v.strict, v.plans, 0).adding ==> !PassView::starting(
            v.strict,
            v.plans,
            0,
        ).delete_failed,
        v.after(ok).adding ==> !v.after(ok).delete_failed,
{
}

/// A list of rules without the first one that a deletion selects: a deletion
/// names the source, and the mark if it has one.
pub open spec fn without_first(
    rules: Seq<CurrentRule>,
    src: Ipv4Addr,
    fwmark: Option<u32>,
) -> Seq<CurrentRule>
    decreases rules.len(),
{
    if rules.len() == 0 {
        rules
    } else if rules[0].src == src && (fwmark is None || rules[0].fwmark == fwmark) {
        rules.drop_first()
    } else {
        seq![rules[0]] + without_first(rules.drop_first(), src, fwmark)
    }
}

/// What a change does to its table when it succeeds.
pub open spec fn applied(have: TableState, action: RouteAction) -> TableState {
    match action {
        RouteAction::DeleteRule { src, fwmark, .. } => TableState {
            rules: without_first(have.rules, src, fwmark),
            ..have
        },
        RouteAction::DeleteRoute { .. } => TableState { route: None, ..have },
        RouteAction::AddRule { src, fwmark, .. } => {
            let mark = message::effective_mark(fwmark);
            TableState {
                rules: have.rules.push(
                    CurrentRule { src, fwmark: mark, fwmask: routing::wanted_mask(mark) },
                ),
                ..have
            }
        },
        RouteAction::AddRoute { gateway, ifindex, .. } => TableState {
            route: Some(CurrentRoute { gateway, oif: ifindex, onlink: true }),
            ..have
        },
    }
}

pub open spec fn table_run(have: TableState, actions: Seq<RouteAction>) -> TableState
    decreases actions.len(),
{
    if actions.len() == 0 {
        have
    } else {
        table_run(applied(have, actions[0]), actions.drop_first())
    }
}

/// What the kernel holds of every table after a change that succeeds.
pub open spec fn kernel_applied(
    kernel: spec_fn(u32) -> TableState,
    action: RouteAction,
) -> spec_fn(u32) -> TableState {
    |t: u32|
        if t == action.table() {
            applied(kernel(t), action)
        } else {
            kernel(t)
        }
}

/// What the kernel holds after a series of changes that all succeed.
pub open spec fn kernel_run(
    kernel: spec_fn(u32) -> TableState,
    actions: Seq<RouteAction>,
) -> spec_fn(u32) -> TableState
    decreases actions.len(),
{
    if actions.len() == 0 {
        kernel
    } else {
        kernel_run(kernel_applied(kernel, actions[0]), actions.drop_first())
    }
}

proof fn lemma_kernel_run_joins(
    kernel: spec_fn(u32) -> TableState,
    a: Seq<RouteAction>,
    b: Seq<RouteAction>,
)
    ensures
        kernel_run(kernel, a + b) == kernel_run(kernel_run(kernel, a), b),
    decreases a.len(),
{
    if a.len() == 0 {
        assert(a + b =~= b);
    } else {
        assert((a + b).drop_first() =~= a.drop_first() + b);
        lemma_kernel_run_joins(kernel_applied(kernel, a[0]), a.drop_first(), b);
    }
}

proof fn lemma_kernel_run_of_one_table(
    kernel: spec_fn(u32) -> TableState,
    table: u32,
    actions: Seq<RouteAction>,
)
    requires
        forall|i: int| 0 <= i < actions.len() ==> (#[trigger] actions[i]).table() == table,
    ensures
        kernel_run(kernel, actions)(table) == table_run(kernel(table), actions),
        forall|t: u32| t != table ==> #[trigger] kernel_run(kernel, actions)(t) == kernel(t),
    decreases actions.len(),
{
    if actions.len() > 0 {
        assert(actions[0].table() == table);
        lemma_kernel_run_of_one_table(
            kernel_applied(kernel, actions[0]),
            table,
            actions.drop_first(),
        );
    }
}

proof fn lemma_deletions_empty_the_rules(
    table: u32,
    have: TableState,
    tail: Seq<RouteAction>,
)
    ensures
        table_run(have, rule_deletions(table, have.rules) + tail) == table_run(
            TableState { rules: Seq::empty(), ..have },
            tail,
        ),
    decreases have.rules.len(),
{
    let all = rule_deletions(table, have.rules) + tail;
    if have.rules.len() == 0 {
        assert(all =~= tail);
        assert(have.rules =~= Seq::<CurrentRule>::empty());
    } else {
        let next = TableState { rules: have.rules.drop_first(), ..have };
        assert(applied(have, all[0]) == next);
        assert(all.drop_first() =~= rule_deletions(table, next.rules) + tail);
        lemma_deletions_empty_the_rules(table, next, tail);
    }
}

/// Whether a table holds what is wanted of it, nothing where nothing is.
pub open spec fn settled(want: Option<ResolvedSpec>, have: TableState) -> bool {
    match want {
        Some(_) => in_place(want, have),
        None => have.rules.len() == 0 && have.route is None,
    }
}

/// Whether the kernel reports a rule for what is wanted with the mark that was
/// asked for: one with the mark zero it reports as unmarked.
pub open spec fn markable(want: Option<ResolvedSpec>) -> bool {
    want is Some ==> want.unwrap().fwmark != Some(0u32)
}

proof fn lemma_plan_settles(table: u32, want: Option<ResolvedSpec>, have: TableState)
    requires
        markable(want),
    ensures
        settled(want, table_run(have, plan_changes(table_plan(table, want, have)))),
{
    let plan = table_plan(table, want, have);
    let route_part = if have.route is Some {
        seq![RouteAction::DeleteRoute { table }]
    } else {
        Seq::empty()
    };
    let tail = route_part + plan.adds;
    assert(plan_changes(plan) =~= rule_deletions(table, have.rules) + tail);
    lemma_deletions_empty_the_rules(table, have, tail);
    let bare = TableState { rules: Seq::empty(), ..have };
    let empty = TableState { rules: Seq::empty(), route: None };
    if have.route is Some {
        assert(applied(bare, tail[0]) == empty);
        assert(tail.drop_first() =~= plan.adds);
    } else {
        assert(tail =~= plan.adds);
        assert(bare == empty);
    }
    assert(table_run(bare, tail) == table_run(empty, plan.adds));
    if let Some(w) = want {
        let adds = plan.adds;
        let one = applied(empty, adds[0]);
        let two = applied(one, adds[1]);
        assert(adds.drop_first()[0] == adds[1]);
        assert(adds.drop_first().drop_first().len() == 0);
        assert(table_run(one, adds.drop_first()) == table_run(two, adds.drop_first().drop_first()));
        assert(two.rules =~= seq![
            CurrentRule { src: w.src, fwmark: w.fwmark, fwmask: routing::wanted_mask(w.fwmark) },
        ]);
    }
}

proof fn lemma_plan_stays_in_its_table(
    table: u32,
    want: Option<ResolvedSpec>,
    have: TableState,
    i: int,
)
    requires
        0 <= i < plan_changes(table_plan(table, want, have)).len(),
    ensures
        plan_changes(table_plan(table, want, have))[i].table() == table,
{
}

proof fn lemma_prefix_of_pass(
    kernel: spec_fn(u32) -> TableState,
    tables: Seq<u32>,
    resolved: Seq<(u32, ResolvedSpec)>,
    rules: Seq<(u32, CurrentRule)>,
    routes: Seq<(u32, CurrentRoute)>,
)
    requires
        order::ascending(tables),
        forall|t: u32| #[trigger] kernel(t) == state_in(rules, routes, t),
    ensures
        ({
            let end = kernel_run(kernel, changes(plans_for(tables, resolved, rules, routes)));
            &&& forall|t: u32|
                tables.contains(t) && markable(routing::last_in(resolved, t)) ==> settled(
                    routing::last_in(resolved, t),
                    #[trigger] end(t),
                )
            &&& forall|t: u32| !tables.contains(t) ==> #[trigger] end(t) == kernel(t)
        }),
    decreases tables.len(),
{
    let plans = plans_for(tables, resolved, rules, routes);
    let end = kernel_run(kernel, changes(plans));
    if tables.len() > 0 {
        let rest = tables.drop_last();
        let table = tables.last();
        assert(order::ascending(rest));
        lemma_prefix_of_pass(kernel, rest, resolved, rules, routes);
        let before = plans_for(rest, resolved, rules, routes);
        let mid = kernel_run(kernel, changes(before));
        let want = routing::last_in(resolved, table);
        let have = state_in(rules, routes, table);
        assert(!rest.contains(table)) by {
            if rest.contains(table) {
                let i = rest.index_of(table);
                assert(tables[i] < tables[tables.len() - 1]);
            }
        }
        assert(mid(table) == have);
        assert forall|t: u32| tables.contains(t) <==> rest.contains(t) || t == table by {
            if tables.contains(t) && t != table {
                let i = tables.index_of(t);
                assert(rest[i] == t);
            }
            if rest.contains(t) {
                let i = rest.index_of(t);
                assert(tables[i] == t);
            }
            assert(tables[tables.len() - 1] == table);
        }
        if in_place(want, have) {
            assert(end == mid);
        } else {
            let plan = table_plan(table, want, have);
            let actions = plan_changes(plan);
            assert(plans == before.push(plan));
            assert(plans.drop_last() =~= before);
            lemma_kernel_run_joins(kernel, changes(before), actions);
            assert forall|i: int| 0 <= i < actions.len() implies (#[trigger] actions[i]).table()
                == table by {
                lemma_plan_stays_in_its_table(table, want, have, i);
            }
            lemma_kernel_run_of_one_table(mid, table, actions);
            if markable(want) {
                lemma_plan_settles(table, want, have);
            }
        }
    }
}

/// A pass in which nothing fails leaves every table as wanted: where a route
/// is wanted, one fitting rule and a fitting route, and nothing of this system
/// anywhere else. A table of which the mark zero is wanted is left out: the
/// kernel reports a rule with it as unmarked.
pub proof fn law_unfailing_pass_settles_every_table(
    kernel: spec_fn(u32) -> TableState,
    tables: Seq<u32>,
    resolved: Seq<(u32, ResolvedSpec)>,
    rules: Seq<(u32, CurrentRule)>,
    routes: Seq<(u32, CurrentRoute)>,
    table: u32,
)
    requires
        order::ascending(tables),
        forall|t: u32| #[trigger] tables.contains(t) <==> concerns(resolved, rules, routes, t),
        forall|t: u32| #[trigger] kernel(t) == state_in(rules, routes, t),
        markable(routing::last_in(resolved, table)),
    ensures
        settled(
            routing::last_in(resolved, table),
            kernel_run(kernel, changes(plans_for(tables, resolved, rules, routes)))(table),
        ),
{
    lemma_prefix_of_pass(kernel, tables, resolved, rules, routes);
    lemma_concerned(resolved, rules, routes, table);
    assert(tables.contains(table) <==> concerns(resolved, rules, routes, table));
}

/// A pass that wants nothing and in which nothing fails leaves nothing of this
/// system behind.
pub proof fn law_unfailing_pass_for_nothing_clears_everything(
    kernel: spec_fn(u32) -> TableState,
    tables: Seq<u32>,
    rules: Seq<(u32, CurrentRule)>,
    routes: Seq<(u32, CurrentRoute)>,
    table: u32,
)
    requires
        order::ascending(tables),
        forall|t: u32| #[trigger]
            tables.contains(t) <==> concerns(Seq::empty(), rules, routes, t),
        forall|t: u32| #[trigger] kernel(t) == state_in(rules, routes, t),
    ensures
        ({
            let end = kernel_run(
                kernel,
                changes(plans_for(tables, Seq::empty(), rules, routes)),
            )(table);
            end.rules.len() == 0 && end.route is None
        }),
{
    law_unfailing_pass_settles_every_table(kernel, tables, Seq::empty(), rules, routes, table);
}

/// A pass over tables that are all as wanted changes nothing.
pub proof fn law_settled_tables_are_left_alone(
    tables: Seq<u32>,
    resolved: Seq<(u32, ResolvedSpec)>,
    rules: Seq<(u32, CurrentRule)>,
    routes: Seq<(u32, CurrentRoute)>,
)
    requires
        forall|i: int|
            0 <= i < tables.len() ==> concerns(resolved, rules, routes, #[trigger] tables[i]),
        forall|t: u32|
            settled(routing::last_in(resolved, t), #[trigger] state_in(rules, routes, t)),
    ensures
        plans_for(tables, resolved, rules, routes).len() == 0,
    decreases tables.len(),
{
    if tables.len() > 0 {
        let t = tables.last();
        assert(concerns(resolved, rules, routes, tables[tables.len() - 1]));
        lemma_concerned(resolved, rules, routes, t);
        assert(settled(routing::last_in(resolved, t), state_in(rules, routes, t)));
        assert forall|i: int| 0 <= i < tables.drop_last().len() implies concerns(
            resolved,
            rules,
            routes,
            #[trigger] tables.drop_last()[i],
        ) by {
            assert(concerns(resolved, rules, routes, tables[i]));
        }
        law_settled_tables_are_left_alone(tables.drop_last(), resolved, rules, routes);
    }
}

/// A table is as wanted exactly if it holds one rule, with the wanted source
/// and mark and the mask of all 32 bits where there is a mark, and an on-link
/// route through the wanted gateway and interface.
pub proof fn law_tables_in_place_hold_the_wanted_rule_and_route(
    want: ResolvedSpec,
    rules: Seq<CurrentRule>,
    route: CurrentRoute,
)
    ensures
        in_place(Some(want), TableState { rules, route: Some(route) }) <==> {
            &&& rules.len() == 1
            &&& rules[0].src == want.src
            &&& rules[0].fwmark == want.fwmark
            &&& want.fwmark is Some ==> rules[0].fwmask == Some(4294967295u32)
            &&& want.fwmark is None ==> rules[0].fwmask is None
            &&& route.gateway == want.gateway
            &&& route.oif == want.ifindex
            &&& route.onlink
        },
        !in_place(Some(want), TableState { rules, route: None }),
        !in_place(None, TableState { rules, route: Some(route) }),
        !in_place(None, TableState { rules, route: None }),
{
}

/// A plan deletes each rule that stands in the table, by its source and mark,
/// and then the route if there is one; it adds the wanted rule and then the
/// wanted route, if anything is wanted.
pub proof fn law_plans_replace_the_whole_table(
    table: u32,
    want: Option<ResolvedSpec>,
    have: TableState,
)
    ensures
        ({
            let plan = table_plan(table, want, have);
            let n = have.rules.len() as int;
            &&& plan.deletes.len() == n + if have.route is Some {
                1int
            } else {
                0
            }
            &&& forall|i: int|
                0 <= i < n ==> #[trigger] plan.deletes[i] == (RouteAction::DeleteRule {
                    src: have.rules[i].src,
                    table,
                    fwmark: have.rules[i].fwmark,
                })
            &&& have.route is Some ==> plan.deletes[n] == (RouteAction::DeleteRoute { table })
            &&& want is None ==> plan.adds.len() == 0
            &&& want is Some ==> plan.adds.len() == 2 && plan.adds[0] == (RouteAction::AddRule {
                src: want.unwrap().src,
                table,
                fwmark: want.unwrap().fwmark,
            }) && plan.adds[1] == (RouteAction::AddRoute {
                table,
                gateway: want.unwrap().gateway,
                ifindex: want.unwrap().ifindex,
            })
        }),
{
}

/// Each table that is not as wanted gets its plan, in the order of the
/// tables, and one that is gets none.
pub proof fn law_every_table_out_of_place_is_planned(
    first: Seq<u32>,
    second: Seq<u32>,
    table: u32,
    resolved: Seq<(u32, ResolvedSpec)>,
    rules: Seq<(u32, CurrentRule)>,
    routes: Seq<(u32, CurrentRoute)>,
)
    ensures
        plans_for(first + second, resolved, rules, routes) == plans_for(
            first,
            resolved,
            rules,
            routes,
        ) + plans_for(second, resolved, rules, routes),
        ({
            let want = routing::last_in(resolved, table);
            let have = TableState {
                rules: routing::all_in(rules, table),
                route: routing::last_in(routes, table),
            };
            plans_for(seq![table], resolved, rules, routes) == if in_place(want, have) {
                Seq::empty()
            } else {
                seq![table_plan(table, want, have)]
            }
        }),
    decreases second.len(),
{
    reveal_with_fuel(plans_for, 2);
    assert(seq![table].drop_last() =~= Seq::<u32>::empty());
    let want = routing::last_in(resolved, table);
    let have = state_in(rules, routes, table);
    if !in_place(want, have) {
        assert(plans_for(seq![table], resolved, rules, routes) =~= seq![
            table_plan(table, want, have),
        ]);
    }
    let a = plans_for(first, resolved, rules, routes);
    let b = plans_for(second, resolved, rules, routes);
    if second.len() > 0 {
        law_every_table_out_of_place_is_planned(
            first,
            second.drop_last(),
            table,
            resolved,
            rules,
            routes,
        );
        assert((first + second).drop_last() =~= first + second.drop_last());
        assert((first + second).last() == second.last());
        assert(plans_for(first + second, resolved, rules, routes) =~= a + b);
    } else {
        assert(first + second =~= first);
        assert(a + b =~= a);
    }
}

/// A pass goes through a table's deletions one by one, whether or not they
/// succeed. The additions follow, unless the pass is strict and a deletion
/// failed; an addition that succeeds is followed by the next. In every other
/// case the next table is taken up, with its first deletion or else its first
/// addition.
pub proof fn law_passes_go_on_to_the_next_change(v: PassView, ok: bool)
    requires
        v.wf(),
        v.due() is Some,
    ensures
        ({
            let plan = v.plans[v.at];
            let next = v.after(ok);
            let failed = v.delete_failed || !ok;
            let over = v.step + 1 == if v.adding {
                plan.adds.len()
            } else {
                plan.deletes.len()
            };
            let leaves = if v.adding {
                !ok || over
            } else {
                over && (plan.adds.len() == 0 || (v.strict && failed))
            };
            &&& next.strict == v.strict && next.plans == v.plans
            &&& !v.adding && !over ==> next.due() == Some(plan.deletes[v.step + 1])
                && next.delete_failed == failed
            &&& !v.adding && over && !leaves ==> next.due() == Some(plan.adds[0])
            &&& v.adding && !leaves ==> next.due() == Some(plan.adds[v.step + 1])
            &&& leaves && v.at + 1 == v.plans.len() ==> next.due() is None
            &&& leaves && v.at + 1 < v.plans.len() && v.plans[v.at + 1].deletes.len() > 0
                ==> next.due() == Some(v.plans[v.at + 1].deletes[0]) && !next.delete_failed
            &&& leaves && v.at + 1 < v.plans.len() && v.plans[v.at + 1].deletes.len() == 0
                ==> next.due() == Some(v.plans[v.at + 1].adds[0])
        }),
{
}

} // verus!
