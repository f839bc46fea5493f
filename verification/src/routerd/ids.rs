//! Which identifier belongs to which daemon.

use crate::cache;
use crate::common::DSCP_ID_MAX;
use crate::names::NameMap;
use std::collections::HashMap;
use vstd::prelude::*;

verus! {

/// An identifier that a daemon advertised, and when, in nanoseconds of a
/// clock that does not go back.
#[derive(Debug, Clone, Copy, PartialEq, Eq, Structural)]
pub struct RememberedId {
    pub id: u8,
    pub seen: u128,
}

/// Whether an identifier can be carried in a packet: nonzero and within six
/// bits.
pub open spec fn valid_id(id: u8) -> bool {
    0 < id <= DSCP_ID_MAX
}

/// The identifiers handed out so far, who claimed which, and what is
/// remembered.
#[verifier::ext_equal]
pub struct IdState {
    pub out: Map<Seq<char>, u8>,
    pub claimed: Set<u8>,
    pub remembered: Map<Seq<char>, RememberedId>,
}

/// The identifier that a daemon could get: the one it advertises, or else the
/// one remembered of it while that is fresh.
pub open spec fn candidate(
    remembered: Map<Seq<char>, RememberedId>,
    name: Seq<char>,
    advertised: Option<u8>,
    stale: u128,
    now: u128,
) -> Option<u8> {
    match advertised {
        Some(id) => Some(id),
        None => if remembered.dom().contains(name) && cache::is_fresh(
            remembered[name].seen,
            now,
            stale,
        ) {
            Some(remembered[name].id)
        } else {
            None
        },
    }
}

impl IdState {
    /// The state once a daemon has been looked at: it gets its candidate if
    /// that is valid and nobody claimed it before. Only an advertised
    /// identifier is remembered anew.
    pub open spec fn after(
        self,
        name: Seq<char>,
        advertised: Option<u8>,
        stale: u128,
        now: u128,
    ) -> IdState {
        match candidate(self.remembered, name, advertised, stale, now) {
            Some(id) if valid_id(id) && !self.claimed.contains(id) => IdState {
                out: self.out.insert(name, id),
                claimed: self.claimed.insert(id),
                remembered: if advertised is Some {
                    self.remembered.insert(name, RememberedId { id, seen: now })
                } else {
                    self.remembered
                },
            },
            _ => self,
        }
    }
}

/// The state once all daemons have been looked at in order.
pub open spec fn ids_of(
    advertised: Seq<(Seq<char>, Option<u8>)>,
    remembered: Map<Seq<char>, RememberedId>,
    stale: u128,
    now: u128,
) -> IdState
    decreases advertised.len(),
{
    if advertised.len() == 0 {
        IdState { out: Map::empty(), claimed: Set::empty(), remembered }
    } else {
        ids_of(advertised.drop_last(), remembered, stale, now).after(
            advertised.last().0,
            advertised.last().1,
            stale,
            now,
        )
    }
}

/// What is still fresh of what is remembered.
pub open spec fn fresh_only(
    remembered: Map<Seq<char>, RememberedId>,
    stale: u128,
    now: u128,
) -> Map<Seq<char>, RememberedId> {
    remembered.restrict(
        remembered.dom().filter(|n: Seq<char>| cache::is_fresh(remembered[n].seen, now, stale)),
    )
}

pub open spec fn advertised_view(advertised: Seq<(String, Option<u8>)>) -> Seq<
    (Seq<char>, Option<u8>),
> {
    advertised.map_values(|a: (String, Option<u8>)| (a.0@, a.1))
}

/// Claims an identifier for a daemon, if it is valid and still free.
pub fn validate_id(name: &str, id: Option<u8>, claimed: &mut HashMap<u8, String>) -> (r: Option<u8>)
    ensures
        match id {
            Some(id) if valid_id(id) && !old(claimed)@.dom().contains(id) => r == Some(id)
                && final(claimed)@.dom() == old(claimed)@.dom().insert(id)
                && final(claimed)@[id]@ == name@ && forall|other: u8|
                #![trigger final(claimed)@[other]]
                other != id && old(claimed)@.dom().contains(other) ==> final(claimed)@[other]
                    == old(claimed)@[other],
            _ => r is None && final(claimed)@ == old(claimed)@,
        },
{
    broadcast use vstd::std_specs::hash::group_hash_axioms;

    let id: u8 = match id {
        Some(id) => id,
        None => return None,
    };
    if id == 0 || id > DSCP_ID_MAX {
        return None;
    }
    if claimed.contains_key(&id) {
        return None;
    }
    claimed.insert(id, name.to_string());
    Some(id)
}

/// Decides which identifier each daemon has, from what the daemons advertise,
/// in order, and what is remembered of them; forgets what is no longer fresh.
pub fn resolve_ids(
    advertised: &Vec<(String, Option<u8>)>,
    remembered: &mut NameMap<RememberedId>,
    stale: u128,
    now: u128,
) -> (out: NameMap<u8>)
    ensures
        ({
            let end = ids_of(advertised_view(advertised@), old(remembered)@, stale, now);
            &&& out@ == end.out
            &&& final(remembered)@ == fresh_only(end.remembered, stale, now)
        }),
{
    let ghost all = advertised_view(advertised@);
    let ghost start = remembered@;
    let mut out: NameMap<u8> = NameMap::new();
    let mut claimed: HashMap<u8, String> = HashMap::new();
    let mut i: usize = 0;
    while i < advertised.len()
        invariant
            i <= advertised@.len(),
            all == advertised_view(advertised@),
            out@ == ids_of(all.take(i as int), start, stale, now).out,
            claimed@.dom() == ids_of(all.take(i as int), start, stale, now).claimed,
            remembered@ == ids_of(all.take(i as int), start, stale, now).remembered,
        decreases advertised@.len() - i,
    {
        assert(all.take(i + 1).drop_last() =~= all.take(i as int));
        let name: &String = &advertised[i].0;
        let offered: Option<u8> = advertised[i].1;
        let candidate: Option<u8> = match offered {
            Some(id) => Some(id),
            None => match remembered.get(name.as_str()) {
                Some(prev) => if cache::fresh(prev.seen, now, stale) {
                    Some(prev.id)
                } else {
                    None
                },
                None => None,
            },
        };
        let accepted: Option<u8> = validate_id(name.as_str(), candidate, &mut claimed);
        if let Some(id) = accepted {
            if offered.is_some() {
                remembered.insert(name.clone(), RememberedId { id, seen: now });
            }
            out.insert(name.clone(), id);
        }
        i += 1;
    }
    assert(all.take(i as int) =~= all);
    let ghost mid = remembered@;
    let keep = |prev: &RememberedId| -> (r: bool)
        ensures
            r == cache::is_fresh(prev.seen, now, stale),
    {
        cache::fresh(prev.seen, now, stale)
    };
    remembered.retain(keep);
    proof {
        let want = fresh_only(mid, stale, now);
        assert forall|k: Seq<char>| #[trigger] want.dom().contains(k) <==> remembered@.dom().contains(
            k,
        ) by {
            if mid.dom().contains(k) && !remembered@.dom().contains(k) {
                assert(!cache::is_fresh(mid[k].seen, now, stale));
            }
        }
        assert(remembered@ =~= want);
    }
    out
}

/// Whether the identifiers handed out are valid, claimed, and each in the
/// hands of one daemon.
spec fn sound(state: IdState) -> bool {
    &&& forall|n: Seq<char>| #[trigger]
        state.out.dom().contains(n) ==> valid_id(state.out[n]) && state.claimed.contains(
            state.out[n],
        )
    &&& forall|n: Seq<char>, m: Seq<char>|
        #![trigger state.out.dom().contains(n), state.out.dom().contains(m)]
        state.out.dom().contains(n) && state.out.dom().contains(m) && n != m ==> state.out[n]
            != state.out[m]
}

proof fn lemma_sound(
    advertised: Seq<(Seq<char>, Option<u8>)>,
    remembered: Map<Seq<char>, RememberedId>,
    stale: u128,
    now: u128,
)
    ensures
        sound(ids_of(advertised, remembered, stale, now)),
    decreases advertised.len(),
{
    if advertised.len() > 0 {
        lemma_sound(advertised.drop_last(), remembered, stale, now);
    }
}

/// Every identifier handed out lies from 1 to 63.
pub proof fn law_ids_are_valid(
    advertised: Seq<(Seq<char>, Option<u8>)>,
    remembered: Map<Seq<char>, RememberedId>,
    stale: u128,
    now: u128,
    name: Seq<char>,
)
    requires
        ids_of(advertised, remembered, stale, now).out.dom().contains(name),
    ensures
        valid_id(ids_of(advertised, remembered, stale, now).out[name]),
        1 <= ids_of(advertised, remembered, stale, now).out[name] <= 63,
{
    lemma_sound(advertised, remembered, stale, now);
}

/// No two daemons have the same identifier, be it advertised or remembered.
pub proof fn law_ids_do_not_collide(
    advertised: Seq<(Seq<char>, Option<u8>)>,
    remembered: Map<Seq<char>, RememberedId>,
    stale: u128,
    now: u128,
    a: Seq<char>,
    b: Seq<char>,
)
    requires
        ids_of(advertised, remembered, stale, now).out.dom().contains(a),
        ids_of(advertised, remembered, stale, now).out.dom().contains(b),
        a != b,
    ensures
        ids_of(advertised, remembered, stale, now).out[a] != ids_of(
            advertised,
            remembered,
            stale,
            now,
        ).out[b],
{
    lemma_sound(advertised, remembered, stale, now);
}

/// A daemon that advertises no identifier, and none of whose entries does,
/// is remembered as before: reuse does not renew the time.
pub proof fn law_reuse_does_not_renew(
    advertised: Seq<(Seq<char>, Option<u8>)>,
    remembered: Map<Seq<char>, RememberedId>,
    stale: u128,
    now: u128,
    name: Seq<char>,
)
    requires
        forall|i: int|
            0 <= i < advertised.len() && (#[trigger] advertised[i]).0 == name
                ==> advertised[i].1 is None,
    ensures
        ({
            let after = ids_of(advertised, remembered, stale, now).remembered;
            &&& after.dom().contains(name) == remembered.dom().contains(name)
            &&& after.dom().contains(name) ==> after[name] == remembered[name]
        }),
    decreases advertised.len(),
{
    if advertised.len() > 0 {
        let rest = advertised.drop_last();
        assert forall|i: int| 0 <= i < rest.len() && (#[trigger] rest[i]).0 == name implies rest[i].1
            is None by {
            assert(advertised[i].0 == name);
        }
        law_reuse_does_not_renew(rest, remembered, stale, now, name);
        assert(advertised[advertised.len() - 1].0 == name ==> advertised.last().1 is None);
    }
}

/// Where each daemon is looked at once, a daemon has an identifier exactly if
/// its candidate is valid and no daemon before it claimed that, and then it
/// has its candidate: a changed identifier counts at once.
pub proof fn law_daemons_get_their_free_candidates(
    advertised: Seq<(Seq<char>, Option<u8>)>,
    remembered: Map<Seq<char>, RememberedId>,
    stale: u128,
    now: u128,
    i: int,
)
    requires
        0 <= i < advertised.len(),
        forall|a: int, b: int|
            0 <= a < b < advertised.len() ==> (#[trigger] advertised[a]).0 != (
            #[trigger] advertised[b]).0,
    ensures
        ({
            let out = ids_of(advertised, remembered, stale, now).out;
            let claimed = ids_of(advertised.take(i), remembered, stale, now).claimed;
            let (name, offered) = advertised[i];
            match candidate(remembered, name, offered, stale, now) {
                Some(id) if valid_id(id) && !claimed.contains(id) => out.dom().contains(name)
                    && out[name] == id,
                _ => !out.dom().contains(name),
            }
        }),
    decreases advertised.len(),
{
    let last = advertised.len() - 1;
    let rest = advertised.drop_last();
    let name = advertised[i].0;
    assert forall|a: int, b: int| 0 <= a < b < rest.len() implies (#[trigger] rest[a]).0 != (
    #[trigger] rest[b]).0 by {
        assert(advertised[a].0 != advertised[b].0);
    }
    if i == last {
        assert(advertised.take(i) =~= rest);
        assert forall|k: int| 0 <= k < rest.len() implies (#[trigger] rest[k]).0 != name by {
            assert(advertised[k].0 != advertised[last].0);
        }
        law_reuse_does_not_renew(rest, remembered, stale, now, name);
        lemma_unseen_has_none(rest, remembered, stale, now, name);
    } else {
        law_daemons_get_their_free_candidates(rest, remembered, stale, now, i);
        assert(advertised.take(i) =~= rest.take(i));
        assert(rest[i] == advertised[i]);
        assert(advertised[i].0 != advertised[last].0);
    }
}

proof fn lemma_unseen_has_none(
    advertised: Seq<(Seq<char>, Option<u8>)>,
    remembered: Map<Seq<char>, RememberedId>,
    stale: u128,
    now: u128,
    name: Seq<char>,
)
    requires
        forall|i: int| 0 <= i < advertised.len() ==> (#[trigger] advertised[i]).0 != name,
    ensures
        !ids_of(advertised, remembered, stale, now).out.dom().contains(name),
    decreases advertised.len(),
{
    if advertised.len() > 0 {
        let rest = advertised.drop_last();
        assert forall|i: int| 0 <= i < rest.len() implies (#[trigger] rest[i]).0 != name by {
            assert(advertised[i].0 != name);
        }
        assert(advertised[advertised.len() - 1].0 != name);
        lemma_unseen_has_none(rest, remembered, stale, now, name);
    }
}

/// What a daemon advertises comes before what is remembered of it, and this
/// counts until its time is over. Identifiers from 1 to 63 are valid.
pub proof fn law_candidates_are_advertised_or_remembered(
    remembered: Map<Seq<char>, RememberedId>,
    name: Seq<char>,
    advertised: Option<u8>,
    stale: u128,
    now: u128,
    id: u8,
)
    ensures
        candidate(remembered, name, advertised, stale, now) == Some(id) <==> {
            ||| advertised == Some(id)
            ||| advertised is None && remembered.dom().contains(name) && remembered[name].id == id
                && stale > 0 && now < remembered[name].seen + stale
        },
        valid_id(id) <==> 1 <= id <= 63,
{
}

/// What is forgotten is what has no time left; the rest stays as it is.
pub proof fn law_only_stale_ids_are_forgotten(
    remembered: Map<Seq<char>, RememberedId>,
    stale: u128,
    now: u128,
    name: Seq<char>,
)
    ensures
        fresh_only(remembered, stale, now).dom().contains(name) <==> remembered.dom().contains(name)
            && stale > 0 && now < remembered[name].seen + stale,
        fresh_only(remembered, stale, now).dom().contains(name) ==> fresh_only(
            remembered,
            stale,
            now,
        )[name] == remembered[name],
{
}

/// Where each daemon is looked at once, the first to have an identifier keeps
/// it: a daemon that advertises one from 1 to 63, or else is remembered with
/// one that has time left, gets it exactly if no daemon before it got the
/// same. Without such an identifier it gets none. An advertised identifier
/// that a daemon gets is remembered as seen now.
pub proof fn law_first_daemon_gets_the_id(
    advertised: Seq<(Seq<char>, Option<u8>)>,
    remembered: Map<Seq<char>, RememberedId>,
    stale: u128,
    now: u128,
    i: int,
    id: u8,
)
    requires
        0 <= i < advertised.len(),
        forall|a: int, b: int|
            0 <= a < b < advertised.len() ==> (#[trigger] advertised[a]).0 != (
            #[trigger] advertised[b]).0,
    ensures
        ({
            let state = ids_of(advertised, remembered, stale, now);
            let (name, offered) = advertised[i];
            let got = state.out.dom().contains(name) && state.out[name] == id;
            &&& got <==> {
                &&& 1 <= id <= 63
                &&& offered == Some(id) || (offered is None && remembered.dom().contains(name)
                    && remembered[name].id == id && stale > 0 && now < remembered[name].seen
                    + stale)
                &&& forall|j: int|
                    0 <= j < i ==> !(state.out.dom().contains((#[trigger] advertised[j]).0)
                        && state.out[advertised[j].0] == id)
            }
            &&& got && offered is Some ==> state.remembered.dom().contains(name)
                && state.remembered[name].id == id && state.remembered[name].seen == now
            &&& !(state.out.dom().contains(name) && offered is Some)
                ==> state.remembered.dom().contains(name) == remembered.dom().contains(name) && (
            remembered.dom().contains(name) ==> state.remembered[name] == remembered[name])
        }),
{
    let state = ids_of(advertised, remembered, stale, now);
    let early = ids_of(advertised.take(i), remembered, stale, now);
    let (name, offered) = advertised[i];
    law_daemons_get_their_free_candidates(advertised, remembered, stale, now, i);
    law_candidates_are_advertised_or_remembered(remembered, name, offered, stale, now, id);
    let head = advertised.take(i);
    assert forall|a: int, b: int| 0 <= a < b < head.len() implies (#[trigger] head[a]).0 != (
    #[trigger] head[b]).0 by {
        assert(advertised[a].0 != advertised[b].0);
    }
    lemma_claimed_are_held(head, remembered, stale, now, id);
    assert forall|j: int| 0 <= j < i implies early.out.dom().contains(
        (#[trigger] advertised[j]).0,
    ) == state.out.dom().contains(advertised[j].0) && (early.out.dom().contains(advertised[j].0)
        ==> early.out[advertised[j].0] == state.out[advertised[j].0]) by {
        lemma_later_daemons_change_nothing(advertised, remembered, stale, now, j, i);
    }
    if early.claimed.contains(id) {
        let j = choose|j: int|
            0 <= j < head.len() && early.out.dom().contains((#[trigger] head[j]).0)
                && early.out[head[j].0] == id;
        assert(head[j] == advertised[j]);
    } else {
        assert forall|j: int| 0 <= j < i implies !(state.out.dom().contains(
            (#[trigger] advertised[j]).0,
        ) && state.out[advertised[j].0] == id) by {
            assert(head[j] == advertised[j]);
        }
    }
    lemma_remembered_of(advertised, remembered, stale, now, i);
}

proof fn lemma_claimed_are_held(
    advertised: Seq<(Seq<char>, Option<u8>)>,
    remembered: Map<Seq<char>, RememberedId>,
    stale: u128,
    now: u128,
    id: u8,
)
    requires
        forall|a: int, b: int|
            0 <= a < b < advertised.len() ==> (#[trigger] advertised[a]).0 != (
            #[trigger] advertised[b]).0,
    ensures
        ({
            let state = ids_of(advertised, remembered, stale, now);
            state.claimed.contains(id) <==> exists|j: int|
                0 <= j < advertised.len() && state.out.dom().contains((#[trigger] advertised[j]).0)
                    && state.out[advertised[j].0] == id
        }),
    decreases advertised.len(),
{
    let state = ids_of(advertised, remembered, stale, now);
    if advertised.len() > 0 {
        let rest = advertised.drop_last();
        let last = advertised.len() - 1;
        let before = ids_of(rest, remembered, stale, now);
        assert forall|a: int, b: int| 0 <= a < b < rest.len() implies (#[trigger] rest[a]).0 != (
        #[trigger] rest[b]).0 by {
            assert(advertised[a].0 != advertised[b].0);
        }
        lemma_claimed_are_held(rest, remembered, stale, now, id);
        let name = advertised.last().0;
        assert(advertised[last].0 == name);
        assert forall|j: int| 0 <= j < rest.len() implies (#[trigger] rest[j]).0 != name by {
            assert(advertised[j].0 != advertised[last].0);
        }
        lemma_unseen_has_none(rest, remembered, stale, now, name);
        if before.claimed.contains(id) {
            let j = choose|j: int|
                0 <= j < rest.len() && before.out.dom().contains((#[trigger] rest[j]).0)
                    && before.out[rest[j].0] == id;
            assert(advertised[j] == rest[j]);
            assert(rest[j].0 != name);
        }
        if exists|j: int|
            0 <= j < advertised.len() && state.out.dom().contains((#[trigger] advertised[j]).0)
                && state.out[advertised[j].0] == id {
            let j = choose|j: int|
                0 <= j < advertised.len() && state.out.dom().contains((#[trigger] advertised[j]).0)
                    && state.out[advertised[j].0] == id;
            if j < last {
                assert(rest[j] == advertised[j]);
                assert(rest[j].0 != name);
            }
        }
    }
}

proof fn lemma_later_daemons_change_nothing(
    advertised: Seq<(Seq<char>, Option<u8>)>,
    remembered: Map<Seq<char>, RememberedId>,
    stale: u128,
    now: u128,
    j: int,
    n: int,
)
    requires
        0 <= j < n <= advertised.len(),
        forall|a: int, b: int|
            0 <= a < b < advertised.len() ==> (#[trigger] advertised[a]).0 != (
            #[trigger] advertised[b]).0,
    ensures
        ({
            let state = ids_of(advertised, remembered, stale, now);
            let early = ids_of(advertised.take(n), remembered, stale, now);
            let name = advertised[j].0;
            &&& early.out.dom().contains(name) == state.out.dom().contains(name)
            &&& early.out.dom().contains(name) ==> early.out[name] == state.out[name]
            &&& early.remembered.dom().contains(name) == state.remembered.dom().contains(name)
            &&& early.remembered.dom().contains(name) ==> early.remembered[name]
                == state.remembered[name]
        }),
    decreases advertised.len(),
{
    if n < advertised.len() {
        let rest = advertised.drop_last();
        assert forall|a: int, b: int| 0 <= a < b < rest.len() implies (#[trigger] rest[a]).0 != (
        #[trigger] rest[b]).0 by {
            assert(advertised[a].0 != advertised[b].0);
        }
        lemma_later_daemons_change_nothing(rest, remembered, stale, now, j, n);
        assert(rest.take(n) =~= advertised.take(n));
        assert(rest[j] == advertised[j]);
        assert(advertised[j].0 != advertised[advertised.len() - 1].0);
    } else {
        assert(advertised.take(n) =~= advertised);
    }
}

proof fn lemma_remembered_of(
    advertised: Seq<(Seq<char>, Option<u8>)>,
    remembered: Map<Seq<char>, RememberedId>,
    stale: u128,
    now: u128,
    i: int,
)
    requires
        0 <= i < advertised.len(),
        forall|a: int, b: int|
            0 <= a < b < advertised.len() ==> (#[trigger] advertised[a]).0 != (
            #[trigger] advertised[b]).0,
    ensures
        ({
            let state = ids_of(advertised, remembered, stale, now);
            let (name, offered) = advertised[i];
            &&& state.out.dom().contains(name) && offered is Some
                ==> state.remembered.dom().contains(name) && state.remembered[name]
                == (RememberedId { id: state.out[name], seen: now })
            &&& !(state.out.dom().contains(name) && offered is Some)
                ==> state.remembered.dom().contains(name) == remembered.dom().contains(name) && (
            remembered.dom().contains(name) ==> state.remembered[name] == remembered[name])
        }),
{
    let (name, offered) = advertised[i];
    let here = advertised.take(i + 1);
    let rest = advertised.take(i);
    lemma_later_daemons_change_nothing(advertised, remembered, stale, now, i, i + 1);
    assert(here.drop_last() =~= rest);
    assert(here.last() == advertised[i]);
    assert forall|k: int| 0 <= k < rest.len() implies (#[trigger] rest[k]).0 != name by {
        assert(advertised[k].0 != advertised[i].0);
    }
    lemma_unseen_has_none(rest, remembered, stale, now, name);
    law_reuse_does_not_renew(rest, remembered, stale, now, name);
}

/// Daemons are looked at in turn, each after those before it: one with an
/// identifier from 1 to 63 that is still free gets it and claims it, whatever
/// it got before. It is remembered with it as seen now if it advertised it.
/// Otherwise nothing changes, and nothing ever changes for other daemons.
pub proof fn law_daemons_are_looked_at_in_turn(
    advertised: Seq<(Seq<char>, Option<u8>)>,
    name: Seq<char>,
    offered: Option<u8>,
    remembered: Map<Seq<char>, RememberedId>,
    stale: u128,
    now: u128,
    id: u8,
)
    ensures
        ids_of(Seq::empty(), remembered, stale, now).out.dom() == Set::<Seq<char>>::empty(),
        ids_of(Seq::empty(), remembered, stale, now).claimed == Set::<u8>::empty(),
        ids_of(Seq::empty(), remembered, stale, now).remembered == remembered,
        ({
            let old_state = ids_of(advertised, remembered, stale, now);
            let new_state = ids_of(advertised.push((name, offered)), remembered, stale, now);
            let kept = old_state.remembered;
            let wanted = offered == Some(id) || (offered is None && kept.dom().contains(name)
                && kept[name].id == id && stale > 0 && now < kept[name].seen + stale);
            &&& wanted && 1 <= id <= 63 && !old_state.claimed.contains(id) ==> {
                &&& new_state.out == old_state.out.insert(name, id)
                &&& new_state.claimed == old_state.claimed.insert(id)
                &&& offered is Some ==> new_state.remembered == kept.insert(
                    name,
                    RememberedId { id, seen: now },
                )
                &&& offered is None ==> new_state.remembered == kept
            }
            &&& wanted && (id == 0 || id >= 64 || old_state.claimed.contains(id)) ==> new_state
                == old_state
            &&& offered is None && !(kept.dom().contains(name) && stale > 0 && now
                < kept[name].seen + stale) ==> new_state == old_state
        }),
{
    assert(advertised.push((name, offered)).drop_last() =~= advertised);
    assert(ids_of(Seq::empty(), remembered, stale, now).out.dom() =~= Set::<Seq<char>>::empty());
}

} // verus!
