//! Which lease of the lease files is the current one.

use crate::dhcp_lease::isc_dhclient::lease_parser;
use crate::dhcp_lease::isc_dhclient::lease_parser::{Lease, LeaseView};
use crate::dhcp_lease::{DhcpLease, DhcpLeaseView};
use crate::text;
use crate::time::UtcTime;
use vstd::prelude::*;

verus! {

/// The lease files of a DHCP client, by their paths.
pub struct IscDhclientRead {
    pub lease_files: Vec<String>,
}

/// Whether a lease runs beyond `now`.
pub open spec fn runs(lease: LeaseView, now: UtcTime) -> bool {
    match lease.expire {
        Some(t) => now.precedes(UtcTime { secs: t, nanos: 0 }),
        None => false,
    }
}

/// The lease among those that run beyond `now` which expires last, the last
/// of them if there are several.
pub open spec fn latest(leases: Seq<LeaseView>, now: UtcTime) -> Option<LeaseView>
    decreases leases.len(),
{
    if leases.len() == 0 {
        None
    } else {
        let l = leases.last();
        match latest(leases.drop_last(), now) {
            Some(best) => if runs(l, now) && best.expire.unwrap() <= l.expire.unwrap() {
                Some(l)
            } else {
                Some(best)
            },
            None => if runs(l, now) {
                Some(l)
            } else {
                None
            },
        }
    }
}

/// The value of the first option of a name.
pub open spec fn first_value(options: Seq<(Seq<char>, Seq<char>)>, key: Seq<char>) -> Option<
    Seq<char>,
>
    decreases options.len(),
{
    if options.len() == 0 {
        None
    } else if options[0].0 == key {
        Some(options[0].1)
    } else {
        first_value(options.drop_first(), key)
    }
}

/// What a lease tells, if it names its interface, address, mask and router.
pub open spec fn told(lease: LeaseView) -> Option<DhcpLeaseView> {
    match (
        lease.interface,
        lease.fixed_address,
        first_value(lease.options, "subnet-mask"@),
        first_value(lease.options, "routers"@),
    ) {
        (Some(interface), Some(ip_address), Some(subnet_mask), Some(router)) => Some(
            DhcpLeaseView { interface, ip_address, subnet_mask, router, expired: false },
        ),
        _ => None,
    }
}

/// The leases of all files that could be read, in order.
pub open spec fn leases_in(contents: Seq<Option<String>>) -> Seq<LeaseView>
    decreases contents.len(),
{
    if contents.len() == 0 {
        Seq::empty()
    } else {
        let before = leases_in(contents.drop_last());
        match contents.last() {
            Some(s) => before + lease_parser::leases_at(s@, 0).0,
            None => before,
        }
    }
}

fn option_value(options: &Vec<(String, String)>, key: &str) -> (r: Option<String>)
    ensures
        lease_parser::optional_text(r) == first_value(
            lease_parser::option_views(options@),
            key@,
        ),
{
    let ghost all = lease_parser::option_views(options@);
    let mut i: usize = 0;
    assert(all.skip(0) =~= all);
    while i < options.len()
        invariant
            i <= options@.len(),
            all == lease_parser::option_views(options@),
            first_value(all, key@) == first_value(all.skip(i as int), key@),
        decreases options@.len() - i,
    {
        assert(all.skip(i as int)[0] == all[i as int]);
        if text::same_text(options[i].0.as_str(), key) {
            return Some(options[i].1.clone());
        }
        assert(all.skip(i as int).drop_first() =~= all.skip(i + 1));
        i += 1;
    }
    None
}

/// Finds the lease that expires last among those that run beyond `now`.
fn latest_lease(leases: Vec<Lease>, now: UtcTime) -> (r: Option<Lease>)
    ensures
        match r {
            Some(lease) => latest(lease_parser::lease_views(leases@), now) == Some(lease@),
            None => latest(lease_parser::lease_views(leases@), now) is None,
        },
{
    let ghost all = lease_parser::lease_views(leases@);
    let mut best: Option<Lease> = None;
    let mut best_expire: i64 = 0;
    for lease in it: leases
        invariant
            all == lease_parser::lease_views(it.seq()),
            match best {
                Some(b) => latest(all.take(it.index()), now) == Some(b@) && b@.expire == Some(
                    best_expire,
                ),
                None => latest(all.take(it.index()), now) is None,
            },
    {
        assert(all.take(it.index() + 1).drop_last() =~= all.take(it.index()));
        assert(all.take(it.index() + 1).last() == lease@);
        if let Some(expire) = lease.expire {
            let ahead: bool = now.before(&UtcTime { secs: expire, nanos: 0 });
            if ahead && (best.is_none() || best_expire <= expire) {
                best = Some(lease);
                best_expire = expire;
            }
        }
    }
    assert(all.take(all.len() as int) =~= all);
    best
}

impl IscDhclientRead {
    /// The current lease, given what each lease file holds, or that it could
    /// not be read.
    pub fn current_lease(contents: &Vec<Option<String>>, now: UtcTime) -> (r: Option<DhcpLease>)
        ensures
            ({
                let want = match latest(leases_in(contents@), now) {
                    Some(lease) => told(lease),
                    None => None,
                };
                match r {
                    Some(lease) => want == Some(lease@),
                    None => want is None,
                }
            }),
    {
        let mut all: Vec<Lease> = Vec::new();
        let mut i: usize = 0;
        assert(lease_parser::lease_views(all@) =~= Seq::<LeaseView>::empty());
        while i < contents.len()
            invariant
                i <= contents@.len(),
                lease_parser::lease_views(all@) == leases_in(contents@.take(i as int)),
            decreases contents@.len() - i,
        {
            assert(contents@.take(i + 1).drop_last() =~= contents@.take(i as int));
            if let Some(file) = &contents[i] {
                let ghost before = all@;
                let (_rest, mut leases) = lease_parser::parse_leases(file.as_str());
                let ghost read = leases@;
                all.append(&mut leases);
                assert(lease_parser::lease_views(all@) =~= lease_parser::lease_views(before)
                    + lease_parser::lease_views(read));
            }
            i += 1;
        }
        assert(contents@.take(i as int) =~= contents@);
        let lease: Lease = match latest_lease(all, now) {
            Some(lease) => lease,
            None => return None,
        };
        let subnet_mask: Option<String> = option_value(&lease.options, "subnet-mask");
        let router: Option<String> = option_value(&lease.options, "routers");
        match (lease.interface, lease.fixed_address, subnet_mask, router) {
            (Some(interface), Some(ip_address), Some(subnet_mask), Some(router)) => Some(
                DhcpLease { interface, ip_address, subnet_mask, router, expired: false },
            ),
            _ => None,
        }
    }
}

/// The lease that is chosen runs beyond `now`, and no lease that does expires
/// later.
pub proof fn law_latest_lease_expires_last(leases: Seq<LeaseView>, now: UtcTime, i: int)
    requires
        0 <= i < leases.len(),
        runs(leases[i], now),
    ensures
        ({
            let best = latest(leases, now);
            &&& best is Some
            &&& runs(best.unwrap(), now)
            &&& leases.contains(best.unwrap())
            &&& leases[i].expire.unwrap() <= best.unwrap().expire.unwrap()
        }),
    decreases leases.len(),
{
    lemma_latest_runs(leases, now);
    if i < leases.len() - 1 {
        law_latest_lease_expires_last(leases.drop_last(), now, i);
        assert(leases.drop_last()[i] == leases[i]);
    }
}

proof fn lemma_latest_runs(leases: Seq<LeaseView>, now: UtcTime)
    ensures
        latest(leases, now) is Some ==> runs(latest(leases, now).unwrap(), now)
            && leases.contains(latest(leases, now).unwrap()),
    decreases leases.len(),
{
    if leases.len() > 0 {
        let rest = leases.drop_last();
        lemma_latest_runs(rest, now);
        if let Some(best) = latest(rest, now) {
            let k = rest.index_of(best);
            assert(leases[k] == best);
        }
        assert(leases[leases.len() - 1] == leases.last());
    }
}

/// A lease counts as long as its end lies after the current second; one
/// without an end does not count.
pub proof fn law_leases_run_until_they_expire(lease: LeaseView, now: UtcTime)
    ensures
        runs(lease, now) <==> lease.expire is Some && now.secs < lease.expire.unwrap(),
{
}

/// Each lease of each file that could be read is among the leases, whichever
/// files stand before and after that one.
pub proof fn law_every_file_counts(contents: Seq<Option<String>>, i: int, k: int)
    requires
        0 <= i < contents.len(),
        contents[i] is Some,
        0 <= k < lease_parser::leases_at(contents[i].unwrap()@, 0).0.len(),
    ensures
        leases_in(contents).contains(lease_parser::leases_at(contents[i].unwrap()@, 0).0[k]),
    decreases contents.len(),
{
    let lease = lease_parser::leases_at(contents[i].unwrap()@, 0).0[k];
    let before = leases_in(contents.drop_last());
    if i < contents.len() - 1 {
        assert(contents.drop_last()[i] == contents[i]);
        law_every_file_counts(contents.drop_last(), i, k);
        let at = before.index_of(lease);
        assert(leases_in(contents)[at] == lease);
    } else {
        assert(leases_in(contents)[before.len() + k] == lease);
    }
}

/// Every lease that is looked at comes from a file that could be read.
pub proof fn law_leases_come_from_the_files(contents: Seq<Option<String>>, n: int)
    requires
        0 <= n < leases_in(contents).len(),
    ensures
        exists|i: int|
            0 <= i < contents.len() && (#[trigger] contents[i]) is Some
                && lease_parser::leases_at(contents[i].unwrap()@, 0).0.contains(
                leases_in(contents)[n],
            ),
    decreases contents.len(),
{
    let rest = contents.drop_last();
    let before = leases_in(rest);
    let lease = leases_in(contents)[n];
    if n < before.len() {
        law_leases_come_from_the_files(rest, n);
        let i = choose|i: int|
            0 <= i < rest.len() && (#[trigger] rest[i]) is Some && lease_parser::leases_at(
                rest[i].unwrap()@,
                0,
            ).0.contains(before[n]);
        assert(contents[i] == rest[i]);
    } else {
        let last = contents.len() - 1;
        assert(contents[last] is Some);
        let here = lease_parser::leases_at(contents[last].unwrap()@, 0).0;
        assert(here[n - before.len()] == lease);
    }
}

/// The leases of two lists of files are those of the first and then those of
/// the second; a single file adds its leases in their order, and a file that
/// could not be read adds none.
pub proof fn law_files_follow_each_other(
    first: Seq<Option<String>>,
    second: Seq<Option<String>>,
    file: String,
)
    ensures
        leases_in(first + second) == leases_in(first) + leases_in(second),
        leases_in(seq![Some(file)]) == lease_parser::leases_at(file@, 0).0,
        leases_in(seq![None::<String>]).len() == 0,
        leases_in(Seq::<Option<String>>::empty()).len() == 0,
    decreases second.len(),
{
    reveal_with_fuel(leases_in, 2);
    let one = seq![Some(file)];
    assert(one.drop_last() =~= Seq::<Option<String>>::empty());
    assert(leases_in(one) =~= lease_parser::leases_at(file@, 0).0);
    let unread = seq![None::<String>];
    assert(unread.drop_last() =~= Seq::<Option<String>>::empty());
    if second.len() > 0 {
        law_files_follow_each_other(first, second.drop_last(), file);
        assert((first + second).drop_last() =~= first + second.drop_last());
        assert((first + second).last() == second.last());
        assert(leases_in(first + second) =~= leases_in(first) + leases_in(second));
    } else {
        assert(first + second =~= first);
        assert(leases_in(first) + leases_in(second) =~= leases_in(first));
    }
}

/// A lease that runs beyond `now`, in whichever file, makes the choice
/// succeed, and what is chosen expires no earlier than it.
pub proof fn law_running_lease_of_any_file_is_found(
    contents: Seq<Option<String>>,
    now: UtcTime,
    i: int,
    k: int,
)
    requires
        0 <= i < contents.len(),
        contents[i] is Some,
        0 <= k < lease_parser::leases_at(contents[i].unwrap()@, 0).0.len(),
        lease_parser::leases_at(contents[i].unwrap()@, 0).0[k].expire is Some,
        lease_parser::leases_at(contents[i].unwrap()@, 0).0[k].expire.unwrap() > now.secs,
    ensures
        ({
            let lease = lease_parser::leases_at(contents[i].unwrap()@, 0).0[k];
            let best = latest(leases_in(contents), now);
            &&& best is Some
            &&& best.unwrap().expire is Some
            &&& best.unwrap().expire.unwrap() >= lease.expire.unwrap()
        }),
{
    let lease = lease_parser::leases_at(contents[i].unwrap()@, 0).0[k];
    law_every_file_counts(contents, i, k);
    let at = leases_in(contents).index_of(lease);
    law_latest_lease_expires_last(leases_in(contents), now, at);
}

/// What is chosen stands in the list and runs beyond `now`; every lease that
/// does expires no later, and none after it as late.
pub proof fn law_latest_lease_is_the_last_of_its_kind(leases: Seq<LeaseView>, now: UtcTime)
    ensures
        match latest(leases, now) {
            Some(best) => exists|j: int|
                0 <= j < leases.len() && #[trigger] leases[j] == best && best.expire is Some
                    && now.secs < best.expire.unwrap() && (forall|i: int|
                    0 <= i < leases.len() && (#[trigger] leases[i]).expire is Some
                        ==> leases[i].expire.unwrap() <= best.expire.unwrap()) && (forall|i: int|
                    j < i < leases.len() && (#[trigger] leases[i]).expire is Some
                        ==> leases[i].expire.unwrap() < best.expire.unwrap()),
            None => forall|i: int|
                0 <= i < leases.len() && (#[trigger] leases[i]).expire is Some
                    ==> leases[i].expire.unwrap() <= now.secs,
        },
    decreases leases.len(),
{
    if leases.len() > 0 {
        let rest = leases.drop_last();
        let last = leases.len() - 1;
        law_latest_lease_is_the_last_of_its_kind(rest, now);
        match latest(rest, now) {
            Some(old_best) => {
                let j = choose|j: int|
                    0 <= j < rest.len() && #[trigger] rest[j] == old_best && old_best.expire is Some
                        && now.secs < old_best.expire.unwrap() && (forall|i: int|
                        0 <= i < rest.len() && (#[trigger] rest[i]).expire is Some
                            ==> rest[i].expire.unwrap() <= old_best.expire.unwrap()) && (forall|
                        i: int,
                    |
                        j < i < rest.len() && (#[trigger] rest[i]).expire is Some
                            ==> rest[i].expire.unwrap() < old_best.expire.unwrap());
                assert(leases[j] == old_best);
                assert forall|i: int| 0 <= i < last implies #[trigger] leases[i] == rest[i] by {}
                assert(leases[last] == leases.last());
            },
            None => {
                assert forall|i: int| 0 <= i < last implies #[trigger] leases[i] == rest[i] by {}
                assert(leases[last] == leases.last());
            },
        }
    }
}

/// The value of an option is that of the first entry of its name, and there
/// is none exactly if no entry has that name.
pub proof fn law_first_option_of_a_name_counts(
    options: Seq<(Seq<char>, Seq<char>)>,
    key: Seq<char>,
)
    ensures
        match first_value(options, key) {
            Some(value) => exists|i: int|
                0 <= i < options.len() && #[trigger] options[i] == (key, value) && forall|j: int|
                    0 <= j < i ==> (#[trigger] options[j]).0 != key,
            None => forall|i: int| 0 <= i < options.len() ==> (#[trigger] options[i]).0 != key,
        },
    decreases options.len(),
{
    if options.len() > 0 && options[0].0 != key {
        let rest = options.drop_first();
        law_first_option_of_a_name_counts(rest, key);
        match first_value(rest, key) {
            Some(value) => {
                let i = choose|i: int|
                    0 <= i < rest.len() && #[trigger] rest[i] == (key, value) && forall|j: int|
                        0 <= j < i ==> (#[trigger] rest[j]).0 != key;
                assert(options[i + 1] == (key, value));
                assert forall|j: int| 0 <= j < i + 1 implies (#[trigger] options[j]).0 != key by {
                    if j > 0 {
                        assert(rest[j - 1] == options[j]);
                    }
                }
            },
            None => {
                assert forall|i: int| 0 <= i < options.len() implies (#[trigger] options[i]).0
                    != key by {
                    if i > 0 {
                        assert(rest[i - 1] == options[i]);
                    }
                }
            },
        }
    } else if options.len() > 0 {
        assert(options[0] == (key, options[0].1));
    }
}

/// A lease tells something exactly if it names its interface and its address
/// and has a mask and a router among its options; it then tells just these.
pub proof fn law_complete_leases_are_told(lease: LeaseView)
    ensures
        told(lease) is Some <==> lease.interface is Some && lease.fixed_address is Some && (exists|
            i: int,
        |
            0 <= i < lease.options.len() && (#[trigger] lease.options[i]).0 == "subnet-mask"@) && (
        exists|i: int|
            0 <= i < lease.options.len() && (#[trigger] lease.options[i]).0 == "routers"@),
        told(lease) is Some ==> ({
            let t = told(lease).unwrap();
            &&& Some(t.interface) == lease.interface
            &&& Some(t.ip_address) == lease.fixed_address
            &&& lease.options.contains(("subnet-mask"@, t.subnet_mask))
            &&& lease.options.contains(("routers"@, t.router))
            &&& !t.expired
        }),
{
    law_first_option_of_a_name_counts(lease.options, "subnet-mask"@);
    law_first_option_of_a_name_counts(lease.options, "routers"@);
}

} // verus!
