//! The last good answer of each peer, served for a while when a peer fails.

use crate::api::Leases;
use crate::names;
use crate::names::NameMap;
use vstd::prelude::*;

verus! {

/// An answer and when it was received, in nanoseconds of a clock that does
/// not go back.
pub struct CachedEntry<T> {
    pub value: T,
    pub last_success: u128,
}

/// The last good answer of each peer.
pub struct Cache<T> {
    cached: NameMap<CachedEntry<T>>,
}

/// The last good leases of each daemon.
pub type LeaseCache = Cache<Leases>;

/// What became of the fetches of one round.
#[derive(Debug, Clone, Copy, PartialEq, Eq, Structural)]
pub struct RoundStats {
    pub fetched_ok: usize,
    pub used_cache: usize,
    pub dropped: usize,
}

impl Default for RoundStats {
    fn default() -> (r: Self)
        ensures
            r == (RoundStats { fetched_ok: 0, used_cache: 0, dropped: 0 }),
    {
        RoundStats { fetched_ok: 0, used_cache: 0, dropped: 0 }
    }
}

/// How long ago `then` was; nothing lies in the future.
pub open spec fn age(then: u128, now: u128) -> int {
    if now >= then {
        now - then
    } else {
        0
    }
}

/// Whether what was seen at `then` still counts at `now`.
pub open spec fn is_fresh(then: u128, now: u128, stale_after: u128) -> bool {
    age(then, now) < stale_after
}

/// Whether what was seen at `then` still counts at `now`.
pub fn fresh(then: u128, now: u128, stale_after: u128) -> (r: bool)
    ensures
        r == is_fresh(then, now, stale_after),
{
    now.saturating_sub(then) < stale_after
}

/// The peers' names and answers of a round.
pub open spec fn round_view<T>(results: Seq<(String, Option<T>)>) -> Seq<(Seq<char>, Option<T>)> {
    results.map_values(|r: (String, Option<T>)| (r.0@, r.1))
}

/// What is cached after the given answers: a good one is kept with the time;
/// a failure leaves a fresh answer alone and drops any other.
pub open spec fn cached_after<T>(
    cached: Map<Seq<char>, CachedEntry<T>>,
    results: Seq<(Seq<char>, Option<T>)>,
    now: u128,
    stale_after: u128,
) -> Map<Seq<char>, CachedEntry<T>>
    decreases results.len(),
{
    if results.len() == 0 {
        cached
    } else {
        let before = cached_after(cached, results.drop_last(), now, stale_after);
        let (name, result) = results.last();
        match result {
            Some(value) => before.insert(name, CachedEntry { value, last_success: now }),
            None => if before.dom().contains(name) && is_fresh(
                before[name].last_success,
                now,
                stale_after,
            ) {
                before
            } else {
                before.remove(name)
            },
        }
    }
}

/// How many fetches of a round succeeded.
pub open spec fn count_ok<T>(results: Seq<(Seq<char>, Option<T>)>) -> int
    decreases results.len(),
{
    if results.len() == 0 {
        0
    } else {
        count_ok(results.drop_last()) + if results.last().1 is Some {
            1int
        } else {
            0
        }
    }
}

/// How many failed fetches of a round were answered from the cache.
pub open spec fn count_cached<T>(
    cached: Map<Seq<char>, CachedEntry<T>>,
    results: Seq<(Seq<char>, Option<T>)>,
    now: u128,
    stale_after: u128,
) -> int
    decreases results.len(),
{
    if results.len() == 0 {
        0
    } else {
        let before = cached_after(cached, results.drop_last(), now, stale_after);
        let (name, result) = results.last();
        count_cached(cached, results.drop_last(), now, stale_after) + if result is None
            && before.dom().contains(name) && is_fresh(
            before[name].last_success,
            now,
            stale_after,
        ) {
            1int
        } else {
            0
        }
    }
}

impl<T> View for Cache<T> {
    type V = Map<Seq<char>, CachedEntry<T>>;

    closed spec fn view(&self) -> Map<Seq<char>, CachedEntry<T>> {
        self.cached@
    }
}

impl<T> Cache<T> {
    pub fn new() -> (c: Self)
        ensures
            c@ == Map::<Seq<char>, CachedEntry<T>>::empty(),
    {
        Cache { cached: NameMap::new() }
    }

    /// Takes the answers of a round, a failed fetch being none.
    pub fn apply_results(
        &mut self,
        results: Vec<(String, Option<T>)>,
        stale_after: u128,
        now: u128,
    ) -> (stats: RoundStats)
        ensures
            final(self)@ == cached_after(old(self)@, round_view(results@), now, stale_after),
            stats.fetched_ok == count_ok(round_view(results@)),
            stats.used_cache == count_cached(
                old(self)@,
                round_view(results@),
                now,
                stale_after,
            ),
            stats.fetched_ok + stats.used_cache + stats.dropped == results@.len(),
    {
        let ghost all = round_view(results@);
        let ghost start = self@;
        let mut stats = RoundStats { fetched_ok: 0, used_cache: 0, dropped: 0 };
        let total: usize = results.len();
        for entry in it: results
            invariant
                all == round_view(it.seq()),
                self@ == cached_after(start, all.take(it.index()), now, stale_after),
                stats.fetched_ok == count_ok(all.take(it.index())),
                stats.used_cache == count_cached(start, all.take(it.index()), now, stale_after),
                stats.fetched_ok + stats.used_cache + stats.dropped == it.index(),
                it.seq().len() == total,
        {
            assert(all.take(it.index() + 1).drop_last() =~= all.take(it.index()));
            let (name, result) = entry;
            match result {
                Some(value) => {
                    self.cached.insert(name, CachedEntry { value, last_success: now });
                    stats.fetched_ok += 1;
                },
                None => {
                    let usable: bool = match self.cached.get(name.as_str()) {
                        Some(cached) => fresh(cached.last_success, now, stale_after),
                        None => false,
                    };
                    if usable {
                        stats.used_cache += 1;
                    } else {
                        self.cached.remove(name.as_str());
                        stats.dropped += 1;
                    }
                },
            }
        }
        assert(all.take(all.len() as int) =~= all);
        stats
    }

    /// The cached answer of a peer.
    pub fn get(&self, name: &str) -> (r: Option<&T>)
        ensures
            match r {
                Some(value) => self@.dom().contains(name@) && *value == self@[name@].value,
                None => !self@.dom().contains(name@),
            },
    {
        match self.cached.get(name) {
            Some(entry) => Some(&entry.value),
            None => None,
        }
    }
}

impl<T: Clone> Cache<T> {
    /// The cached answers of all peers.
    pub fn snapshot(&self) -> (view: NameMap<T>)
        ensures
            view@.dom() == self@.dom(),
            forall|name: Seq<char>| #[trigger]
                view@.dom().contains(name) ==> cloned(self@[name].value, view@[name]),
    {
        let mut view: NameMap<T> = NameMap::new();
        let len: usize = self.cached.len();
        let ghost listed = self.cached.names();
        let mut i: usize = 0;
        while i < len
            invariant
                i <= len == listed.len(),
                listed == self.cached.names(),
                names::lists_names(listed, self.cached@),
                forall|name: Seq<char>| #[trigger]
                    view@.dom().contains(name) <==> listed.take(i as int).contains(name),
                forall|name: Seq<char>| #[trigger]
                    view@.dom().contains(name) ==> cloned(self@[name].value, view@[name]),
            decreases len - i,
        {
            let name: String = self.cached.name_at(i).clone();
            let entry: &CachedEntry<T> = self.cached.value_at(i);
            let value: T = entry.value.clone();
            proof {
                let next = listed.take(i + 1);
                assert forall|n: Seq<char>| next.contains(n) <==> listed.take(i as int).contains(n)
                    || n == name@ by {
                    if next.contains(n) && n != name@ {
                        let k = next.index_of(n);
                        assert(listed.take(i as int)[k] == n);
                    }
                    if listed.take(i as int).contains(n) {
                        let k = listed.take(i as int).index_of(n);
                        assert(next[k] == n);
                    }
                    assert(next[i as int] == name@);
                }
            }
            view.insert(name, value);
            i += 1;
        }
        assert(listed.take(i as int) =~= listed);
        assert(view@.dom() =~= self@.dom());
        view
    }

    /// Takes the answers of a round and hands out what is then cached.
    pub fn apply_round(
        &mut self,
        results: Vec<(String, Option<T>)>,
        stale_after: u128,
        now: u128,
    ) -> (r: (RoundStats, NameMap<T>))
        ensures
            final(self)@ == cached_after(old(self)@, round_view(results@), now, stale_after),
            r.0.fetched_ok == count_ok(round_view(results@)),
            r.0.used_cache == count_cached(old(self)@, round_view(results@), now, stale_after),
            r.0.fetched_ok + r.0.used_cache + r.0.dropped == results@.len(),
            r.1@.dom() == final(self)@.dom(),
            forall|name: Seq<char>| #[trigger]
                r.1@.dom().contains(name) ==> cloned(final(self)@[name].value, r.1@[name]),
    {
        let stats = self.apply_results(results, stale_after, now);
        let view = self.snapshot();
        (stats, view)
    }
}

impl<T> Default for Cache<T> {
    fn default() -> (c: Self)
        ensures
            c@ == Map::<Seq<char>, CachedEntry<T>>::empty(),
    {
        Cache::new()
    }
}

/// Whether no peer answers twice in a round.
pub open spec fn distinct_peers<T>(results: Seq<(Seq<char>, Option<T>)>) -> bool {
    forall|i: int, j: int|
        0 <= i < j < results.len() ==> (#[trigger] results[i]).0 != (#[trigger] results[j]).0
}

/// A peer that was not asked keeps its cached answer, whatever its age.
pub proof fn law_peers_not_asked_are_kept<T>(
    cached: Map<Seq<char>, CachedEntry<T>>,
    results: Seq<(Seq<char>, Option<T>)>,
    now: u128,
    stale_after: u128,
    name: Seq<char>,
)
    requires
        forall|i: int| 0 <= i < results.len() ==> (#[trigger] results[i]).0 != name,
    ensures
        ({
            let after = cached_after(cached, results, now, stale_after);
            &&& after.dom().contains(name) == cached.dom().contains(name)
            &&& cached.dom().contains(name) ==> after[name] == cached[name]
        }),
    decreases results.len(),
{
    if results.len() > 0 {
        assert(results[results.len() - 1].0 != name);
        assert forall|i: int| 0 <= i < results.drop_last().len() implies (
        #[trigger] results.drop_last()[i]).0 != name by {
            assert(results[i].0 != name);
        }
        law_peers_not_asked_are_kept(cached, results.drop_last(), now, stale_after, name);
    }
}

/// A round in which each peer is asked once serves a good answer as received
/// now; after a failure it serves the last good answer, unchanged, until that
/// is `stale_after` old, and then none.
pub proof fn law_round_serves_good_or_fresh_answers<T>(
    cached: Map<Seq<char>, CachedEntry<T>>,
    results: Seq<(Seq<char>, Option<T>)>,
    now: u128,
    stale_after: u128,
    i: int,
)
    requires
        distinct_peers(results),
        0 <= i < results.len(),
    ensures
        ({
            let after = cached_after(cached, results, now, stale_after);
            let (name, result) = results[i];
            match result {
                Some(value) => after.dom().contains(name) && after[name] == (CachedEntry {
                    value,
                    last_success: now,
                }),
                None => if cached.dom().contains(name) && stale_after > 0 && now
                    < cached[name].last_success + stale_after {
                    after.dom().contains(name) && after[name] == cached[name]
                } else {
                    !after.dom().contains(name)
                },
            }
        }),
    decreases results.len(),
{
    let last = results.len() - 1;
    let rest = results.drop_last();
    let (name, result) = results[i];
    assert(distinct_peers(rest)) by {
        assert forall|a: int, b: int| 0 <= a < b < rest.len() implies (#[trigger] rest[a]).0 != (
        #[trigger] rest[b]).0 by {
            assert(results[a].0 != results[b].0);
        }
    }
    if i == last {
        assert forall|k: int| 0 <= k < rest.len() implies (#[trigger] rest[k]).0 != name by {
            assert(results[k].0 != results[last].0);
        }
        law_peers_not_asked_are_kept(cached, rest, now, stale_after, name);
    } else {
        law_round_serves_good_or_fresh_answers(cached, rest, now, stale_after, i);
        assert(rest[i] == results[i]);
        assert(results[i].0 != results[last].0);
    }
}

/// What was seen counts until its time is over, and not at all where it is
/// given no time.
pub proof fn law_freshness_ends_with_the_time(then: u128, now: u128, stale_after: u128)
    ensures
        is_fresh(then, now, stale_after) <==> stale_after > 0 && now < then + stale_after,
{
}

/// A round can be taken in two parts, one after the other.
pub proof fn law_rounds_follow_each_other<T>(
    cached: Map<Seq<char>, CachedEntry<T>>,
    first: Seq<(Seq<char>, Option<T>)>,
    second: Seq<(Seq<char>, Option<T>)>,
    now: u128,
    stale_after: u128,
)
    ensures
        cached_after(cached, first + second, now, stale_after) == cached_after(
            cached_after(cached, first, now, stale_after),
            second,
            now,
            stale_after,
        ),
        count_cached(cached, first + second, now, stale_after) == count_cached(
            cached,
            first,
            now,
            stale_after,
        ) + count_cached(
            cached_after(cached, first, now, stale_after),
            second,
            now,
            stale_after,
        ),
    decreases second.len(),
{
    if second.len() > 0 {
        law_rounds_follow_each_other(cached, first, second.drop_last(), now, stale_after);
        assert((first + second).drop_last() =~= first + second.drop_last());
        assert((first + second).last() == second.last());
    } else {
        assert(first + second =~= first);
    }
}

/// One answer: a good one is cached as received now, whatever was cached
/// before. After a failure the cached answer stays while it has time left and
/// is gone otherwise. Nothing else changes, and only a failure that left a
/// cached answer is counted as answered from the cache.
pub proof fn law_one_answer_at_a_time<T>(
    cached: Map<Seq<char>, CachedEntry<T>>,
    name: Seq<char>,
    result: Option<T>,
    now: u128,
    stale_after: u128,
)
    ensures
        ({
            let after = cached_after(cached, seq![(name, result)], now, stale_after);
            let served = count_cached(cached, seq![(name, result)], now, stale_after);
            &&& result is Some ==> after.dom().contains(name) && after[name].value
                == result.unwrap() && after[name].last_success == now && served == 0
            &&& result is None && cached.dom().contains(name) && stale_after > 0 && now
                < cached[name].last_success + stale_after ==> after.dom().contains(name)
                && after[name] == cached[name] && served == 1
            &&& result is None && !(cached.dom().contains(name) && stale_after > 0 && now
                < cached[name].last_success + stale_after) ==> !after.dom().contains(name) && served
                == 0
            &&& forall|other: Seq<char>|
                #![trigger after.dom().contains(other)]
                #![trigger after[other]]
                other != name ==> (after.dom().contains(other) <==> cached.dom().contains(other))
                    && (cached.dom().contains(other) ==> after[other] == cached[other])
        }),
{
    let one = seq![(name, result)];
    reveal_with_fuel(cached_after, 2);
    reveal_with_fuel(count_cached, 2);
    assert(one.drop_last() =~= Seq::empty());
    assert(one.last() == (name, result));
}

/// The good answers are counted one by one.
pub proof fn law_good_answers_are_counted<T>(results: Seq<(Seq<char>, Option<T>)>)
    ensures
        count_ok(results) == results.filter(|r: (Seq<char>, Option<T>)| r.1 is Some).len(),
    decreases results.len(),
{
    reveal(Seq::filter);
    if results.len() > 0 {
        law_good_answers_are_counted(results.drop_last());
    }
}

/// Where each peer is asked once, the failures answered from the cache are
/// those of the peers whose cached answer has time left.
pub proof fn law_cached_answers_are_counted<T>(
    cached: Map<Seq<char>, CachedEntry<T>>,
    results: Seq<(Seq<char>, Option<T>)>,
    now: u128,
    stale_after: u128,
)
    requires
        distinct_peers(results),
    ensures
        count_cached(cached, results, now, stale_after) == results.filter(
            |r: (Seq<char>, Option<T>)|
                r.1 is None && cached.dom().contains(r.0) && stale_after > 0 && now
                    < cached[r.0].last_success + stale_after,
        ).len(),
    decreases results.len(),
{
    reveal(Seq::filter);
    if results.len() > 0 {
        let rest = results.drop_last();
        let last = results.len() - 1;
        assert forall|a: int, b: int| 0 <= a < b < rest.len() implies (#[trigger] rest[a]).0 != (
        #[trigger] rest[b]).0 by {
            assert(results[a].0 != results[b].0);
        }
        law_cached_answers_are_counted(cached, rest, now, stale_after);
        assert forall|k: int| 0 <= k < rest.len() implies (#[trigger] rest[k]).0
            != results.last().0 by {
            assert(results[k].0 != results[last].0);
        }
        law_peers_not_asked_are_kept(cached, rest, now, stale_after, results.last().0);
    }
}

} // verus!
