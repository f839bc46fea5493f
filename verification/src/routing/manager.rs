//! One whole reconciliation: looking the interfaces up, listing what the
//! kernel has, and changing it.

use crate::routing;
use crate::routing::message;
use crate::routing::message::{RouteMessage, RuleMessage};
use crate::routing::reconcile;
use crate::routing::reconcile::{Pass, PassView, RouteAction};
use crate::routing::resolve::{Resolution, ResolutionView};
use crate::routing::{CurrentRoute, CurrentRule, ResolvedSpec, RouteSpec};
use vstd::prelude::*;

verus! {

/// A reconciliation and what it waits for.
pub enum Reconcile {
    /// The index of an interface.
    Resolving(Resolution),
    /// The kernel's rules.
    ListingRules { resolved: Vec<(u32, ResolvedSpec)> },
    /// The kernel's routes.
    ListingRoutes { resolved: Vec<(u32, ResolvedSpec)>, rules: Vec<(u32, CurrentRule)> },
    /// A change of the kernel's state.
    Changing(Pass),
    /// Nothing: it is over.
    Finished,
    /// Nothing: the kernel's state could not be listed.
    Failed,
}

/// What has to be done next.
#[derive(Debug)]
pub enum Step {
    LookUp(String),
    ListRules,
    ListRoutes,
    Change(RouteAction),
    Finished,
    Failed,
}

/// The stage of a resolution that stands at `v`.
pub open spec fn resolving(r: Reconcile, v: ResolutionView) -> bool {
    match r {
        Reconcile::Resolving(resolution) => resolution.wf() && resolution@ == v && v.pending()
            is Some,
        Reconcile::ListingRules { resolved } => resolved@ == v.resolved && v.pending() is None,
        _ => false,
    }
}

/// The stage of a pass that stands at `v`.
pub open spec fn changing(r: Reconcile, v: PassView) -> bool {
    match r {
        Reconcile::Changing(pass) => pass@.wf() && pass@ == v && v.due() is Some,
        Reconcile::Finished => v.due() is None,
        _ => false,
    }
}

impl Reconcile {
    pub open spec fn wf(self) -> bool {
        match self {
            Reconcile::Resolving(resolution) => resolution.wf() && resolution@.pending() is Some,
            Reconcile::Changing(pass) => pass@.wf() && pass@.due() is Some,
            _ => true,
        }
    }

    fn after_lookup(resolution: Resolution) -> (r: Self)
        requires
            resolution.wf(),
        ensures
            r.wf(),
            resolving(r, resolution@),
    {
        if resolution.pending().is_some() {
            Reconcile::Resolving(resolution)
        } else {
            Reconcile::ListingRules { resolved: resolution.finish() }
        }
    }

    fn after_change(pass: Pass) -> (r: Self)
        requires
            pass@.wf(),
        ensures
            r.wf(),
            changing(r, pass@),
    {
        if pass.next().is_some() {
            Reconcile::Changing(pass)
        } else {
            Reconcile::Finished
        }
    }

    /// Starts bringing the kernel to the wanted routes.
    pub fn start(desired: Vec<RouteSpec>) -> (r: Self)
        ensures
            r.wf(),
            resolving(
                r,
                (ResolutionView {
                    desired: routing::spec_views(desired@),
                    at: 0,
                    known: Map::empty(),
                    resolved: Seq::empty(),
                }),
            ),
    {
        Self::after_lookup(Resolution::new(desired))
    }

    /// What has to be done next.
    pub fn step(&self) -> (s: Step)
        requires
            self.wf(),
        ensures
            match *self {
                Reconcile::Resolving(resolution) => s is LookUp && resolution@.pending() == Some(
                    s->LookUp_0@,
                ),
                Reconcile::ListingRules { .. } => s == Step::ListRules,
                Reconcile::ListingRoutes { .. } => s == Step::ListRoutes,
                Reconcile::Changing(pass) => s is Change && pass@.due() == Some(s->Change_0),
                Reconcile::Finished => s == Step::Finished,
                Reconcile::Failed => s == Step::Failed,
            },
    {
        match self {
            Reconcile::Resolving(resolution) => match resolution.pending() {
                Some(iface) => Step::LookUp(iface.clone()),
                None => Step::Finished,
            },
            Reconcile::ListingRules { .. } => Step::ListRules,
            Reconcile::ListingRoutes { .. } => Step::ListRoutes,
            Reconcile::Changing(pass) => match pass.next() {
                Some(action) => Step::Change(action),
                None => Step::Finished,
            },
            Reconcile::Finished => Step::Finished,
            Reconcile::Failed => Step::Failed,
        }
    }

    /// Takes the index of the interface that was looked up, or that there is
    /// none.
    pub fn looked_up(self, ifindex: Option<u32>) -> (r: Self)
        requires
            self.wf(),
            self is Resolving,
        ensures
            r.wf(),
            resolving(r, self->Resolving_0@.answered(ifindex)),
    {
        match self {
            Reconcile::Resolving(resolution) => {
                let mut resolution = resolution;
                resolution.answer(ifindex);
                Self::after_lookup(resolution)
            },
            other => other,
        }
    }

    /// Takes the kernel's rules, or that they could not be listed.
    pub fn rules_listed(self, messages: Option<Vec<RuleMessage>>) -> (r: Self)
        requires
            self is ListingRules,
        ensures
            r.wf(),
            match messages {
                Some(m) => r is ListingRoutes && r->ListingRoutes_resolved
                    == self->ListingRules_resolved && r->rules@ == message::dumbarp_rules(m@),
                None => r is Failed,
            },
    {
        match (self, messages) {
            (Reconcile::ListingRules { resolved }, Some(m)) => Reconcile::ListingRoutes {
                resolved,
                rules: message::list_rules(&m),
            },
            _ => Reconcile::Failed,
        }
    }

    /// Takes the kernel's routes, or that they could not be listed, and plans
    /// the changes.
    pub fn routes_listed(self, messages: Option<Vec<RouteMessage>>) -> (r: Self)
        requires
            self is ListingRoutes,
        ensures
            r.wf(),
            match messages {
                Some(m) => {
                    let resolved = self->ListingRoutes_resolved@;
                    let rules = self->rules@;
                    let routes = message::dumbarp_routes(m@);
                    exists|tables: Seq<u32>|
                        {
                            &&& crate::order::ascending(tables)
                            &&& forall|t: u32| #[trigger]
                                tables.contains(t) <==> reconcile::concerns(
                                    resolved,
                                    rules,
                                    routes,
                                    t,
                                )
                            &&& changing(
                                r,
                                PassView::starting(
                                    true,
                                    #[trigger] reconcile::plans_for(
                                        tables,
                                        resolved,
                                        rules,
                                        routes,
                                    ),
                                    0,
                                ),
                            )
                        }
                },
                None => r is Failed,
            },
    {
        match (self, messages) {
            (Reconcile::ListingRoutes { resolved, rules }, Some(m)) => {
                let routes: Vec<(u32, CurrentRoute)> = message::list_routes(&m);
                Self::after_change(Pass::new(&resolved, &rules, &routes, true))
            },
            _ => Reconcile::Failed,
        }
    }

    /// Takes whether the change succeeded.
    pub fn changed(self, ok: bool) -> (r: Self)
        requires
            self.wf(),
            self is Changing,
        ensures
            r.wf(),
            changing(r, self->Changing_0@.after(ok)),
    {
        match self {
            Reconcile::Changing(pass) => {
                let mut pass = pass;
                pass.report(ok);
                Self::after_change(pass)
            },
            other => other,
        }
    }
}

/// While a resolution waits for an interface the stage holds it as it stands;
/// once it waits for none, the rules are to be listed, and what was resolved
/// is held. No other stage follows a lookup.
pub proof fn law_lookups_lead_to_the_listing(r: Reconcile, v: ResolutionView)
    ensures
        resolving(r, v) ==> r is Resolving || r is ListingRules,
        resolving(r, v) && r is Resolving ==> r->Resolving_0@ == v && v.at < v.desired.len(),
        resolving(r, v) && r is ListingRules ==> r->ListingRules_resolved@ == v.resolved && v.at
            >= v.desired.len(),
        resolving(r, v) ==> (r is Resolving <==> v.at < v.desired.len()),
{
}

/// While a change is due the stage holds the pass as it stands; once none is,
/// the reconciliation is over. No other stage follows a change.
pub proof fn law_changes_lead_to_the_end(r: Reconcile, v: PassView)
    ensures
        changing(r, v) ==> r is Changing || r is Finished,
        changing(r, v) && r is Changing ==> r->Changing_0@ == v && v.at < v.plans.len(),
        changing(r, v) ==> (r is Changing <==> v.at < v.plans.len()),
{
}

} // verus!
