//! The packet program of a router: it turns the tag on a packet into a mark.

use crate::common::{COUNTER_SLOTS, CTR_SKIPPED, CTR_TAGGED, CTR_UNTAGGED};
use crate::packet::ByteOrder;
use vstd::prelude::*;

verus! {

/// What a packet counts as.
#[derive(Debug, Clone, Copy, PartialEq, Eq, Structural)]
pub enum SteerCounter {
    Tagged,
    Untagged,
    Skipped,
}

impl SteerCounter {
    /// The counter slot.
    pub fn slot(&self) -> (r: u32)
        ensures
            r == match *self {
                SteerCounter::Tagged => CTR_TAGGED,
                SteerCounter::Untagged => CTR_UNTAGGED,
                SteerCounter::Skipped => CTR_SKIPPED,
            },
            r < COUNTER_SLOTS,
            self is Tagged <==> r == 0,
            self is Untagged <==> r == 1,
            self is Skipped <==> r == 2,
    {
        match *self {
            SteerCounter::Tagged => CTR_TAGGED,
            SteerCounter::Untagged => CTR_UNTAGGED,
            SteerCounter::Skipped => CTR_SKIPPED,
        }
    }
}

/// The protocol field of an IPv4 packet: the EtherType in network order, as
/// it loads on a machine.
pub open spec fn ipv4_protocol(order: ByteOrder) -> u32 {
    match order {
        ByteOrder::Little => 0x0008,
        ByteOrder::Big => 0x0800,
    }
}

/// What becomes of a packet, given its protocol field, its TOS byte if that
/// can be read, and the mark of its tag if there is one: the mark to set and
/// what the packet counts as.
pub open spec fn steered(
    protocol: u32,
    order: ByteOrder,
    tos: Option<u8>,
    mark: Option<u32>,
) -> (Option<u32>, SteerCounter) {
    match tos {
        Some(t) if protocol == ipv4_protocol(order) => match mark {
            Some(m) if t / 4 != 0 => (Some(m), SteerCounter::Tagged),
            _ => (None, SteerCounter::Untagged),
        },
        _ => (None, SteerCounter::Skipped),
    }
}

/// Decides about a packet; `load_tos` reads its TOS byte and `dscp_ids` looks
/// the mark of a tag up. Every packet goes on.
pub fn steer<L: Fn() -> Option<u8>, F: Fn(u8) -> Option<u32>>(
    protocol: u32,
    order: ByteOrder,
    load_tos: L,
    dscp_ids: F,
) -> (r: (Option<u32>, SteerCounter))
    requires
        call_requires(load_tos, ()),
        forall|dscp: u8| call_requires(dscp_ids, (dscp,)),
    ensures
        protocol != ipv4_protocol(order) ==> r == (None::<u32>, SteerCounter::Skipped),
        protocol == ipv4_protocol(order) ==> exists|tos: Option<u8>, mark: Option<u32>|
            #![trigger steered(protocol, order, tos, mark)]
            {
                &&& call_ensures(load_tos, (), tos)
                &&& tos is Some && tos.unwrap() / 4 != 0 ==> call_ensures(
                    dscp_ids,
                    ((tos.unwrap() / 4) as u8,),
                    mark,
                )
                &&& steered(protocol, order, tos, mark) == r
            },
{
    let ipv4: u32 = match order {
        ByteOrder::Little => 0x0008,
        ByteOrder::Big => 0x0800,
    };
    if protocol != ipv4 {
        return (None, SteerCounter::Skipped);
    }
    let tos: Option<u8> = load_tos();
    let dscp: u8 = match tos {
        Some(t) => t / 4,
        None => {
            assert(steered(protocol, order, tos, None).1 is Skipped);
            return (None, SteerCounter::Skipped);
        },
    };
    if dscp == 0 {
        assert(steered(protocol, order, tos, None).1 is Untagged);
        return (None, SteerCounter::Untagged);
    }
    let mark: Option<u32> = dscp_ids(dscp);
    let out = match mark {
        Some(m) => (Some(m), SteerCounter::Tagged),
        None => (None, SteerCounter::Untagged),
    };
    assert(steered(protocol, order, tos, mark) == out);
    out
}

/// A packet is marked exactly if it is IPv4, its TOS byte can be read, its DSCP
/// value is not zero and the value has a mark: then with that mark. It counts
/// as tagged if it is marked, as skipped if it is not IPv4 or cannot be read,
/// and as untagged otherwise.
pub proof fn law_known_tags_become_marks(
    protocol: u32,
    order: ByteOrder,
    tos: Option<u8>,
    mark: Option<u32>,
)
    ensures
        ({
            let ipv4 = (order == ByteOrder::Little && protocol == 8) || (order == ByteOrder::Big
                && protocol == 2048);
            let (set, counter) = steered(protocol, order, tos, mark);
            &&& set is Some <==> ipv4 && tos is Some && tos.unwrap() >= 4 && mark is Some
            &&& set is Some ==> set == mark
            &&& counter == SteerCounter::Tagged <==> set is Some
            &&& counter == SteerCounter::Skipped <==> !ipv4 || tos is None
        }),
{
}

} // verus!
