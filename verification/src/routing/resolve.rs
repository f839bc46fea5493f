//! Turning interface names into interface indices, one lookup at a time.

use crate::names::NameMap;
use crate::routing;
use crate::routing::{ResolvedSpec, RouteSpec, RouteSpecView};
use vstd::prelude::*;

verus! {

/// The resolution of wanted routes: which interface has to be looked up next,
/// what is known of the interfaces so far, and what has been resolved.
///
/// An interface that was found is not looked up again; one that was not found
/// is, for every route that names it.
pub struct Resolution {
    desired: Vec<RouteSpec>,
    at: usize,
    known: NameMap<u32>,
    resolved: Vec<(u32, ResolvedSpec)>,
}

#[verifier::ext_equal]
pub struct ResolutionView {
    pub desired: Seq<RouteSpecView>,
    pub at: int,
    pub known: Map<Seq<char>, u32>,
    pub resolved: Seq<(u32, ResolvedSpec)>,
}

/// A wanted route in its table, with the index of its interface.
pub open spec fn resolved_spec(spec: RouteSpecView, ifindex: u32) -> (u32, ResolvedSpec) {
    (
        routing::table_of(spec.src) as u32,
        ResolvedSpec { src: spec.src, gateway: spec.gateway, ifindex, fwmark: spec.fwmark },
    )
}

impl ResolutionView {
    /// The interface that has to be looked up next.
    pub open spec fn pending(self) -> Option<Seq<char>> {
        if self.at < self.desired.len() {
            Some(self.desired[self.at].iface)
        } else {
            None
        }
    }

    /// Resolves as many routes as the known interfaces allow.
    pub open spec fn settled(self) -> ResolutionView
        decreases self.desired.len() - self.at,
    {
        if 0 <= self.at < self.desired.len() && self.known.dom().contains(
            self.desired[self.at].iface,
        ) {
            let spec = self.desired[self.at];
            ResolutionView {
                at: self.at + 1,
                resolved: self.resolved.push(resolved_spec(spec, self.known[spec.iface])),
                ..self
            }.settled()
        } else {
            self
        }
    }

    /// The resolution once the pending interface has been looked up.
    pub open spec fn answered(self, ifindex: Option<u32>) -> ResolutionView {
        match ifindex {
            Some(idx) => ResolutionView {
                known: self.known.insert(self.desired[self.at].iface, idx),
                ..self
            }.settled(),
            None => ResolutionView { at: self.at + 1, ..self }.settled(),
        }
    }

    /// Whether everything so far agrees with `lookup` as the one answer to
    /// each question.
    pub open spec fn follows(self, lookup: spec_fn(Seq<char>) -> Option<u32>) -> bool {
        &&& 0 <= self.at <= self.desired.len()
        &&& forall|name: Seq<char>| #[trigger]
            self.known.dom().contains(name) ==> lookup(name) == Some(self.known[name])
        &&& self.resolved == resolved_by(self.desired.take(self.at), lookup)
    }
}

/// The routes whose interface exists, in order, resolved.
pub open spec fn resolved_by(
    specs: Seq<RouteSpecView>,
    lookup: spec_fn(Seq<char>) -> Option<u32>,
) -> Seq<(u32, ResolvedSpec)>
    decreases specs.len(),
{
    if specs.len() == 0 {
        Seq::empty()
    } else {
        let before = resolved_by(specs.drop_last(), lookup);
        match lookup(specs.last().iface) {
            Some(idx) => before.push(resolved_spec(specs.last(), idx)),
            None => before,
        }
    }
}

proof fn lemma_settled_follows(v: ResolutionView, lookup: spec_fn(Seq<char>) -> Option<u32>)
    requires
        v.follows(lookup),
    ensures
        v.settled().follows(lookup),
        v.settled().desired == v.desired,
        v.settled().known == v.known,
        v.settled().at >= v.at,
        v.settled().at < v.desired.len() ==> !v.known.dom().contains(
            v.desired[v.settled().at].iface,
        ),
    decreases v.desired.len() - v.at,
{
    if v.at < v.desired.len() && v.known.dom().contains(v.desired[v.at].iface) {
        let spec = v.desired[v.at];
        let next = ResolutionView {
            at: v.at + 1,
            resolved: v.resolved.push(resolved_spec(spec, v.known[spec.iface])),
            ..v
        };
        assert(v.desired.take(v.at + 1).drop_last() =~= v.desired.take(v.at));
        lemma_settled_follows(next, lookup);
    }
}

/// Where every lookup of an interface gives one and the same answer, the
/// outcome is each route whose interface exists, with that interface's index:
/// the start agrees with this, and so does every answer.
pub proof fn law_resolution_follows_lookup(
    v: ResolutionView,
    lookup: spec_fn(Seq<char>) -> Option<u32>,
)
    requires
        v.follows(lookup),
    ensures
        v.pending() is None ==> v.resolved == resolved_by(v.desired, lookup),
        v.pending() is Some ==> v.answered(lookup(v.pending().unwrap())).follows(lookup),
        v.pending() is Some ==> v.answered(lookup(v.pending().unwrap())).desired == v.desired,
        v.pending() is Some ==> v.answered(lookup(v.pending().unwrap())).at > v.at,
{
    if v.at < v.desired.len() {
        let spec = v.desired[v.at];
        match lookup(spec.iface) {
            Some(idx) => {
                let next = ResolutionView { known: v.known.insert(spec.iface, idx), ..v };
                lemma_settled_follows(next, lookup);
            },
            None => {
                let next = ResolutionView { at: v.at + 1, ..v };
                assert(v.desired.take(v.at + 1).drop_last() =~= v.desired.take(v.at));
                lemma_settled_follows(next, lookup);
            },
        }
    } else {
        assert(v.desired.take(v.at) =~= v.desired);
    }
}

impl View for Resolution {
    type V = ResolutionView;

    closed spec fn view(&self) -> ResolutionView {
        ResolutionView {
            desired: routing::spec_views(self.desired@),
            at: self.at as int,
            known: self.known@,
            resolved: self.resolved@,
        }
    }
}

impl Resolution {
    /// Whether the place stands within the wanted routes.
    pub open spec fn wf(self) -> bool {
        0 <= self@.at <= self@.desired.len()
    }

    /// Starts with nothing known.
    pub fn new(desired: Vec<RouteSpec>) -> (r: Self)
        ensures
            r.wf(),
            r@ == (ResolutionView {
                desired: routing::spec_views(desired@),
                at: 0,
                known: Map::empty(),
                resolved: Seq::empty(),
            }),
            forall|lookup: spec_fn(Seq<char>) -> Option<u32>| #[trigger] r@.follows(lookup),
    {
        let r = Resolution { desired, at: 0, known: NameMap::new(), resolved: Vec::new() };
        assert(r@.desired.take(0) =~= Seq::<RouteSpecView>::empty());
        r
    }

    /// The interface that has to be looked up next, if any is left.
    pub fn pending(&self) -> (r: Option<&String>)
        requires
            self.wf(),
        ensures
            match r {
                Some(iface) => self@.pending() == Some(iface@),
                None => self@.pending() is None,
            },
    {
        if self.at < self.desired.len() {
            Some(&self.desired[self.at].iface)
        } else {
            None
        }
    }

    /// Takes the index of the pending interface, or that there is none.
    pub fn answer(&mut self, ifindex: Option<u32>)
        requires
            old(self).wf(),
            old(self)@.pending() is Some,
        ensures
            final(self).wf(),
            final(self)@ == old(self)@.answered(ifindex),
    {
        match ifindex {
            Some(idx) => {
                let iface: String = self.desired[self.at].iface.clone();
                self.known.insert(iface, idx);
            },
            None => {
                let len: usize = self.desired.len();
                assert(self.at < len);
                self.at += 1;
            },
        }
        self.settle();
    }

    fn settle(&mut self)
        requires
            old(self).wf(),
        ensures
            final(self).wf(),
            final(self)@ == old(self)@.settled(),
    {
        let ghost goal = self@.settled();
        while self.at < self.desired.len()
            invariant
                self.at <= self.desired@.len(),
                self@.settled() == goal,
            ensures
                self.at <= self.desired@.len(),
                self@ == goal,
            decreases self.desired@.len() - self.at,
        {
            let spec: &RouteSpec = &self.desired[self.at];
            let ifindex: u32 = match self.known.get(spec.iface.as_str()) {
                Some(idx) => *idx,
                None => break,
            };
            let table: u32 = routing::table_id_for(spec.src);
            let resolved = ResolvedSpec {
                src: spec.src,
                gateway: spec.gateway,
                ifindex,
                fwmark: spec.fwmark,
            };
            self.resolved.push((table, resolved));
            self.at += 1;
        }
    }

    /// What has been resolved, each route in its table.
    pub fn finish(self) -> (r: Vec<(u32, ResolvedSpec)>)
        ensures
            r@ == self@.resolved,
    {
        self.resolved
    }
}

/// Every route whose interface exists is resolved, in order, into the table
/// of its source: source, gateway and mark as wanted, and the interface's
/// index. A route whose interface does not exist is left out.
pub proof fn law_every_route_of_an_interface_is_resolved(
    first: Seq<RouteSpecView>,
    second: Seq<RouteSpecView>,
    one: RouteSpecView,
    lookup: spec_fn(Seq<char>) -> Option<u32>,
)
    ensures
        resolved_by(first + second, lookup) == resolved_by(first, lookup) + resolved_by(
            second,
            lookup,
        ),
        match lookup(one.iface) {
            Some(ifindex) => ({
                let r = resolved_by(seq![one], lookup);
                &&& r.len() == 1
                &&& r[0].0 == routing::table_of(one.src)
                &&& r[0].1.src == one.src
                &&& r[0].1.gateway == one.gateway
                &&& r[0].1.ifindex == ifindex
                &&& r[0].1.fwmark == one.fwmark
            }),
            None => resolved_by(seq![one], lookup).len() == 0,
        },
    decreases second.len(),
{
    reveal_with_fuel(resolved_by, 2);
    assert(seq![one].drop_last() =~= Seq::<RouteSpecView>::empty());
    routing::law_sources_have_tables_of_their_own(one.src);
    if second.len() > 0 {
        law_every_route_of_an_interface_is_resolved(first, second.drop_last(), one, lookup);
        assert((first + second).drop_last() =~= first + second.drop_last());
        assert((first + second).last() == second.last());
        assert(resolved_by(first + second, lookup) =~= resolved_by(first, lookup) + resolved_by(
            second,
            lookup,
        ));
    } else {
        assert(first + second =~= first);
        assert(resolved_by(first, lookup) + resolved_by(second, lookup) =~= resolved_by(
            first,
            lookup,
        ));
    }
}

/// An interface that was found is not looked up again, and what is known of
/// the others stays; one that was not found becomes no known one. An answer
/// is about the interface that is pending.
pub proof fn law_found_interfaces_are_not_looked_up_again(v: ResolutionView, found: Option<u32>)
    requires
        0 <= v.at < v.desired.len(),
    ensures
        ({
            let asked = v.desired[v.at].iface;
            let next = v.answered(found);
            &&& v.pending() == Some(asked)
            &&& next.desired == v.desired
            &&& next.at > v.at
            &&& next.pending() is Some ==> !next.known.dom().contains(next.pending().unwrap())
            &&& found is None ==> next.known == v.known
            &&& found is Some ==> next.known.dom().contains(asked) && next.known[asked]
                == found.unwrap()
            &&& forall|name: Seq<char>|
                #![trigger next.known.dom().contains(name)]
                name != asked ==> (next.known.dom().contains(name) <==> v.known.dom().contains(
                    name,
                )) && (v.known.dom().contains(name) ==> next.known[name] == v.known[name])
        }),
{
    let start = match found {
        Some(idx) => ResolutionView {
            known: v.known.insert(v.desired[v.at].iface, idx),
            ..v
        },
        None => ResolutionView { at: v.at + 1, ..v },
    };
    lemma_settled(start);
    if found is Some {
        assert(start.known.dom().contains(start.desired[start.at].iface));
    }
}

proof fn lemma_settled(v: ResolutionView)
    requires
        0 <= v.at <= v.desired.len(),
    ensures
        ({
            let s = v.settled();
            &&& s.desired == v.desired && s.known == v.known
            &&& v.at <= s.at <= v.desired.len()
            &&& s.at < s.desired.len() ==> !s.known.dom().contains(s.desired[s.at].iface)
        }),
    decreases v.desired.len() - v.at,
{
    if v.at < v.desired.len() && v.known.dom().contains(v.desired[v.at].iface) {
        let spec = v.desired[v.at];
        lemma_settled(
            ResolutionView {
                at: v.at + 1,
                resolved: v.resolved.push(resolved_spec(spec, v.known[spec.iface])),
                ..v
            },
        );
    }
}

} // verus!
