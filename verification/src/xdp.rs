//! The packet programs of an interface that answers for leased addresses: on
//! the way in they answer ARP requests and tag packets, on the way out they
//! take the tag off again.

use crate::common;
use crate::common::{tos_with_dscp, ArpKey, FlowKey, DSCP_ID_MAX};
use crate::packet;
use crate::packet::{ByteOrder, FrameKind};
use vstd::prelude::*;

verus! {

/// What becomes of a frame on the way in.
#[derive(Debug, Clone, Copy, PartialEq, Eq, Structural)]
pub enum XdpAction {
    /// It goes on to the kernel.
    Pass,
    /// It goes back out of the interface it came from.
    Tx,
}

/// Whether a frame holds an ARP request for an IPv4 address on Ethernet, as its
/// hardware type, protocol type and operation tell.
pub open spec fn is_request(frame: Seq<u8>) -> bool {
    frame.len() >= 42 && packet::be16(frame[14], frame[15]) == 1 && packet::be16(
        frame[16],
        frame[17],
    ) == 0x0800 && packet::be16(frame[20], frame[21]) == 1
}

/// Which entry of the ARP table a frame asks about: the target address of a
/// request, on the interface that it came in on.
pub open spec fn asked(frame: Seq<u8>, ifindex: u32, order: ByteOrder) -> Option<ArpKey> {
    if is_request(frame) {
        Some(ArpKey { ifindex, ip: packet::loaded(order, frame.subrange(38, 42)) as u32 })
    } else {
        None
    }
}

/// The answer to an ARP request: the same frame sent back to its sender as a
/// reply that names `mac` as the owner of the address asked for.
pub open spec fn answer(frame: Seq<u8>, mac: Seq<u8>) -> Seq<u8> {
    frame.subrange(6, 12) + mac + frame.subrange(12, 20) + seq![0u8, 2u8] + mac + frame.subrange(
        38,
        42,
    ) + frame.subrange(22, 28) + frame.subrange(28, 32) + frame.subrange(42, frame.len() as int)
}

/// Whether an identifier can be put on packets.
pub open spec fn usable(id: Option<u8>) -> bool {
    id is Some && 0 < id.unwrap() <= DSCP_ID_MAX
}

/// Which entry of the ARP table tells whether a packet is for a leased
/// address: its destination, on the interface that it came in on.
pub open spec fn destination(frame: Seq<u8>, ifindex: u32, order: ByteOrder) -> Option<ArpKey> {
    if packet::has_ipv4_header(frame) {
        Some(ArpKey { ifindex, ip: packet::loaded(order, frame.subrange(30, 34)) as u32 })
    } else {
        None
    }
}

/// The TOS byte of a packet once it is tagged.
pub open spec fn tagged_tos(frame: Seq<u8>, id: u8) -> u8 {
    common::retagged_tos(frame[15], id) as u8
}

/// Everything that happens to a frame on the way in.
#[verifier::ext_equal]
pub struct Ingress {
    pub action: XdpAction,
    pub frame: Seq<u8>,
    /// What has to be remembered: the DSCP value that the replies of a flow
    /// get back.
    pub remember: Option<(FlowKey, u8)>,
}

pub open spec fn untouched(frame: Seq<u8>) -> Ingress {
    Ingress { action: XdpAction::Pass, frame, remember: None }
}

/// The way in of an ARP frame, given the table entry that it asks about.
pub open spec fn arp_ingress(
    frame: Seq<u8>,
    ifindex: u32,
    order: ByteOrder,
    owner: Option<[u8; 6]>,
) -> Ingress {
    match (asked(frame, ifindex, order), owner) {
        (Some(_), Some(mac)) => Ingress {
            action: XdpAction::Tx,
            frame: answer(frame, mac@),
            remember: None,
        },
        _ => untouched(frame),
    }
}

/// The way in of an IPv4 packet, given the interface's identifier and the
/// table entry of the packet's destination: a packet for a leased address is
/// tagged, unless it carries the tag already, and what it came with is
/// remembered for the replies.
pub open spec fn stamp_ingress(
    frame: Seq<u8>,
    order: ByteOrder,
    id: Option<u8>,
    owner: Option<[u8; 6]>,
) -> Ingress {
    if usable(id) && packet::has_ipv4_header(frame) && owner is Some {
        let tos = tagged_tos(frame, id.unwrap());
        Ingress {
            action: XdpAction::Pass,
            frame: if tos == frame[15] {
                frame
            } else {
                packet::with_tos(frame, tos)
            },
            remember: Some((packet::packet_flow(frame, order).opposite(), frame[15] / 4)),
        }
    } else {
        untouched(frame)
    }
}

/// Answers an ARP request in place.
fn answer_arp(frame: &mut [u8], mac: &[u8; 6])
    requires
        old(frame)@.len() >= 42,
    ensures
        final(frame)@ == answer(old(frame)@, mac@),
{
    let ghost before = frame@;
    frame[20] = 0;
    frame[21] = 2;
    let mut i: usize = 0;
    while i < 6
        invariant
            i <= 6,
            before.len() >= 42,
            frame@.len() == before.len(),
            frame@[20] == 0 && frame@[21] == 2,
            forall|k: int|
                0 <= k < before.len() && k != 20 && k != 21 && !(k < i) && !(6 <= k < 6 + i)
                    && !(22 <= k < 22 + i) && !(32 <= k < 32 + i) ==> frame@[k] == before[k],
            forall|k: int| 0 <= k < i ==> frame@[k] == before[k + 6],
            forall|k: int| 6 <= k < 6 + i ==> frame@[k] == mac@[k - 6],
            forall|k: int| 22 <= k < 22 + i ==> frame@[k] == mac@[k - 22],
            forall|k: int| 32 <= k < 32 + i ==> frame@[k] == before[k - 10],
        decreases 6 - i,
    {
        let sender: u8 = frame[22 + i];
        let source: u8 = frame[6 + i];
        frame[32 + i] = sender;
        frame[22 + i] = mac[i];
        frame[i] = source;
        frame[6 + i] = mac[i];
        i += 1;
    }
    let mut j: usize = 0;
    while j < 4
        invariant
            j <= 4,
            before.len() >= 42,
            frame@.len() == before.len(),
            frame@[20] == 0 && frame@[21] == 2,
            forall|k: int| 12 <= k < 20 ==> frame@[k] == before[k],
            forall|k: int| 42 <= k < before.len() ==> frame@[k] == before[k],
            forall|k: int| 28 + j <= k < 32 ==> frame@[k] == before[k],
            forall|k: int| 38 + j <= k < 42 ==> frame@[k] == before[k],
            forall|k: int| 28 <= k < 28 + j ==> frame@[k] == before[k + 10],
            forall|k: int| 38 <= k < 38 + j ==> frame@[k] == before[k - 10],
            forall|k: int| 0 <= k < 6 ==> frame@[k] == before[k + 6],
            forall|k: int| 6 <= k < 12 ==> frame@[k] == mac@[k - 6],
            forall|k: int| 22 <= k < 28 ==> frame@[k] == mac@[k - 22],
            forall|k: int| 32 <= k < 38 ==> frame@[k] == before[k - 10],
        decreases 4 - j,
    {
        let sender: u8 = frame[28 + j];
        let target: u8 = frame[38 + j];
        frame[28 + j] = target;
        frame[38 + j] = sender;
        j += 1;
    }
    assert(frame@ =~= answer(before, mac@));
}

/// Handles an ARP frame; `arp_table` looks an entry up. Only requests for IPv4
/// addresses on Ethernet are answered.
pub fn try_arp<F: Fn(ArpKey) -> Option<[u8; 6]>>(
    frame: &mut [u8],
    ifindex: u32,
    order: ByteOrder,
    arp_table: F,
) -> (action: XdpAction)
    requires
        forall|key: ArpKey| call_requires(arp_table, (key,)),
    ensures
        match asked(old(frame)@, ifindex, order) {
            Some(key) => exists|owner: Option<[u8; 6]>|
                #![trigger arp_ingress(old(frame)@, ifindex, order, owner)]
                call_ensures(arp_table, (key,), owner) && arp_ingress(
                    old(frame)@,
                    ifindex,
                    order,
                    owner,
                ) == (Ingress { action, frame: final(frame)@, remember: None }),
            None => action == XdpAction::Pass && final(frame)@ == old(frame)@,
        },
{
    if frame.len() < 42 {
        return XdpAction::Pass;
    }
    if !(frame[14] == 0 && frame[15] == 1 && frame[16] == 8 && frame[17] == 0) {
        return XdpAction::Pass;
    }
    if !(frame[20] == 0 && frame[21] == 1) {
        return XdpAction::Pass;
    }
    let key = ArpKey { ifindex, ip: packet::load_u32(order, packet::four_at(frame, 38)) };
    let owner: Option<[u8; 6]> = arp_table(key);
    let ghost out = arp_ingress(frame@, ifindex, order, owner);
    match owner {
        Some(mac) => {
            answer_arp(frame, &mac);
            assert(out.frame == frame@);
            XdpAction::Tx
        },
        None => XdpAction::Pass,
    }
}

/// Handles an IPv4 packet; `dscp_id` looks the identifier of an interface up,
/// `arp_table` an entry of the ARP table. Tells what has to be remembered.
pub fn try_stamp<F: Fn(ArpKey) -> Option<[u8; 6]>, G: Fn(u32) -> Option<u8>>(
    frame: &mut [u8],
    ifindex: u32,
    order: ByteOrder,
    dscp_id: G,
    arp_table: F,
) -> (remember: Option<(FlowKey, u8)>)
    requires
        forall|key: ArpKey| call_requires(arp_table, (key,)),
        call_requires(dscp_id, (ifindex,)),
    ensures
        exists|id: Option<u8>, owner: Option<[u8; 6]>|
            #![trigger stamp_ingress(old(frame)@, order, id, owner)]
            {
                &&& call_ensures(dscp_id, (ifindex,), id)
                &&& usable(id) && packet::has_ipv4_header(old(frame)@) ==> call_ensures(
                    arp_table,
                    (destination(old(frame)@, ifindex, order).unwrap(),),
                    owner,
                )
                &&& stamp_ingress(old(frame)@, order, id, owner) == (Ingress {
                    action: XdpAction::Pass,
                    frame: final(frame)@,
                    remember,
                })
            },
{
    let ghost before = frame@;
    let found: Option<u8> = dscp_id(ifindex);
    let id: u8 = match found {
        Some(id) => id,
        None => {
            assert(stamp_ingress(before, order, found, None) == untouched(before));
            return None;
        },
    };
    if id == 0 || id > DSCP_ID_MAX || frame.len() < 34 {
        assert(stamp_ingress(before, order, found, None) == untouched(before));
        return None;
    }
    let key = ArpKey { ifindex, ip: packet::load_u32(order, packet::four_at(frame, 30)) };
    let owner: Option<[u8; 6]> = arp_table(key);
    let ghost out = stamp_ingress(before, order, found, owner);
    if owner.is_none() {
        assert(out == untouched(before));
        return None;
    }
    let old_tos: u8 = frame[15];
    let new_tos: u8 = tos_with_dscp(old_tos, id);
    let flow: FlowKey = packet::flow_key_of(frame, order);
    let replies: FlowKey = flow.reversed();
    if new_tos != old_tos {
        packet::rewrite_tos(frame, new_tos);
    }
    assert(out.frame == frame@);
    Some((replies, old_tos / 4))
}

/// Handles a frame on the way in. Tells what becomes of it and what has to be
/// remembered.
pub fn try_dumbarp<F: Fn(ArpKey) -> Option<[u8; 6]>, G: Fn(u32) -> Option<u8>>(
    frame: &mut [u8],
    ifindex: u32,
    order: ByteOrder,
    dscp_id: G,
    arp_table: F,
) -> (r: (XdpAction, Option<(FlowKey, u8)>))
    requires
        forall|key: ArpKey| call_requires(arp_table, (key,)),
        call_requires(dscp_id, (ifindex,)),
    ensures
        ({
            let out = Ingress { action: r.0, frame: final(frame)@, remember: r.1 };
            match packet::kind_of(old(frame)@) {
                FrameKind::Arp => match asked(old(frame)@, ifindex, order) {
                    Some(key) => exists|owner: Option<[u8; 6]>|
                        #![trigger arp_ingress(old(frame)@, ifindex, order, owner)]
                        call_ensures(arp_table, (key,), owner) && arp_ingress(
                            old(frame)@,
                            ifindex,
                            order,
                            owner,
                        ) == out,
                    None => out == untouched(old(frame)@),
                },
                FrameKind::Ipv4 => exists|id: Option<u8>, owner: Option<[u8; 6]>|
                    #![trigger stamp_ingress(old(frame)@, order, id, owner)]
                    {
                        &&& call_ensures(dscp_id, (ifindex,), id)
                        &&& usable(id) && packet::has_ipv4_header(old(frame)@) ==> call_ensures(
                            arp_table,
                            (destination(old(frame)@, ifindex, order).unwrap(),),
                            owner,
                        )
                        &&& stamp_ingress(old(frame)@, order, id, owner) == out
                    },
                FrameKind::Other => out == untouched(old(frame)@),
            }
        }),
{
    match packet::frame_kind(frame) {
        FrameKind::Arp => {
            let action = try_arp(frame, ifindex, order, arp_table);
            (action, None)
        },
        FrameKind::Ipv4 => {
            let remember = try_stamp(frame, ifindex, order, dscp_id, arp_table);
            (XdpAction::Pass, remember)
        },
        FrameKind::Other => (XdpAction::Pass, None),
    }
}

/// A new TOS byte for a packet on the way out, with the first header word
/// before and after, by which the checksum is brought up to date.
#[derive(Debug, Clone, Copy, PartialEq, Eq, Structural)]
pub struct TosRewrite {
    pub tos: u8,
    pub old_word: u16,
    pub new_word: u16,
}

/// Whether a packet on the way out carries the interface's own tag.
pub open spec fn carries(frame: Seq<u8>, id: Option<u8>) -> bool {
    packet::kind_of(frame) == FrameKind::Ipv4 && packet::has_ipv4_header(frame) && id is Some
        && id.unwrap() != 0 && frame[15] / 4 == id.unwrap()
}

/// The rewrite of a packet on the way out, given the interface's identifier
/// and what is remembered of the packet's flow: the tag gives way to what the
/// flow carried before, or to zero.
pub open spec fn egress(frame: Seq<u8>, id: Option<u8>, remembered: Option<u8>) -> Option<
    TosRewrite,
> {
    let restored = match remembered {
        Some(dscp) => dscp,
        None => 0,
    };
    let tos = common::retagged_tos(frame[15], restored) as u8;
    if carries(frame, id) && tos != frame[15] {
        Some(
            TosRewrite {
                tos,
                old_word: packet::first_word(frame, frame[15]),
                new_word: packet::first_word(frame, tos),
            },
        )
    } else {
        None
    }
}

/// Decides how a packet is rewritten on the way out; `dscp_id` looks the
/// identifier of an interface up, `orig_dscp` what is remembered of a flow.
pub fn try_terminate<G: Fn(u32) -> Option<u8>, H: Fn(FlowKey) -> Option<u8>>(
    frame: &[u8],
    ifindex: u32,
    order: ByteOrder,
    dscp_id: G,
    orig_dscp: H,
) -> (r: Option<TosRewrite>)
    requires
        call_requires(dscp_id, (ifindex,)),
        forall|key: FlowKey| call_requires(orig_dscp, (key,)),
    ensures
        packet::kind_of(frame@) != FrameKind::Ipv4 || !packet::has_ipv4_header(frame@) ==> r is None,
        packet::kind_of(frame@) == FrameKind::Ipv4 && packet::has_ipv4_header(frame@) ==> exists|
            id: Option<u8>,
            remembered: Option<u8>,
        |
            #![trigger egress(frame@, id, remembered)]
            {
                &&& call_ensures(dscp_id, (ifindex,), id)
                &&& carries(frame@, id) ==> call_ensures(
                    orig_dscp,
                    (packet::packet_flow(frame@, order),),
                    remembered,
                )
                &&& egress(frame@, id, remembered) == r
            },
{
    match packet::frame_kind(frame) {
        FrameKind::Ipv4 => {},
        _ => return None,
    }
    if frame.len() < 34 {
        return None;
    }
    let old_tos: u8 = frame[15];
    let found: Option<u8> = dscp_id(ifindex);
    let id: u8 = match found {
        Some(id) => id,
        None => 0,
    };
    if id == 0 || old_tos / 4 != id {
        assert(egress(frame@, found, None) is None);
        return None;
    }
    let key: FlowKey = packet::flow_key_of(frame, order);
    let remembered: Option<u8> = orig_dscp(key);
    let ghost out = egress(frame@, found, remembered);
    let restored: u8 = match remembered {
        Some(dscp) => dscp,
        None => 0,
    };
    let new_tos: u8 = tos_with_dscp(old_tos, restored);
    if new_tos == old_tos {
        assert(out is None);
        return None;
    }
    let vihl: u8 = frame[14];
    let rewrite = TosRewrite {
        tos: new_tos,
        old_word: vihl as u16 * 256 + old_tos as u16,
        new_word: vihl as u16 * 256 + new_tos as u16,
    };
    assert(out == Some(rewrite));
    Some(rewrite)
}

/// Every ARP request for an IPv4 address on Ethernet, whatever follows it in
/// the frame, asks about its target address on its interface; if the address is
/// answered for it goes back as the reply, and otherwise it goes on as it is.
pub proof fn law_every_request_is_answered(
    frame: Seq<u8>,
    ifindex: u32,
    order: ByteOrder,
    mac: [u8; 6],
)
    requires
        frame.len() >= 42,
        frame[12] == 8 && frame[13] == 6,
        frame[14] == 0 && frame[15] == 1,
        frame[16] == 8 && frame[17] == 0,
        frame[20] == 0 && frame[21] == 1,
    ensures
        ({
            let out = arp_ingress(frame, ifindex, order, Some(mac));
            let none = arp_ingress(frame, ifindex, order, None);
            let key = asked(frame, ifindex, order);
            &&& packet::kind_of(frame) == FrameKind::Arp
            &&& key is Some
            &&& key.unwrap().ifindex == ifindex
            &&& order == ByteOrder::Big ==> key.unwrap().ip == 16777216 * frame[38] + 65536
                * frame[39] + 256 * frame[40] + frame[41]
            &&& order == ByteOrder::Little ==> key.unwrap().ip == frame[38] + 256 * frame[39]
                + 65536 * frame[40] + 16777216 * frame[41]
            &&& out.action == XdpAction::Tx
            &&& out.remember is None
            &&& out.frame.len() == frame.len()
            &&& out.frame.subrange(0, 6) == frame.subrange(6, 12)
            &&& out.frame.subrange(6, 12) == mac@
            &&& out.frame.subrange(12, 20) == frame.subrange(12, 20)
            &&& out.frame[20] == 0 && out.frame[21] == 2
            &&& out.frame.subrange(22, 28) == mac@
            &&& out.frame.subrange(28, 32) == frame.subrange(38, 42)
            &&& out.frame.subrange(32, 38) == frame.subrange(22, 28)
            &&& out.frame.subrange(38, 42) == frame.subrange(28, 32)
            &&& forall|i: int| 42 <= i < frame.len() ==> #[trigger] out.frame[i] == frame[i]
            &&& none.action == XdpAction::Pass
            &&& none.frame == frame
            &&& none.remember is None
        }),
{
    let out = arp_ingress(frame, ifindex, order, Some(mac));
    assert(out.frame == answer(frame, mac@));
    assert(out.frame.subrange(0, 6) =~= frame.subrange(6, 12));
    assert(out.frame.subrange(6, 12) =~= mac@);
    assert(out.frame.subrange(12, 20) =~= frame.subrange(12, 20));
    assert(out.frame.subrange(22, 28) =~= mac@);
    assert(out.frame.subrange(28, 32) =~= frame.subrange(38, 42));
    assert(out.frame.subrange(32, 38) =~= frame.subrange(22, 28));
    assert(out.frame.subrange(38, 42) =~= frame.subrange(28, 32));
}

/// Only requests for IPv4 addresses on Ethernet are answered: a frame that is
/// too short, or has any other hardware type, protocol type or operation, goes
/// on as it is, whatever the ARP table holds.
pub proof fn law_only_ipv4_requests_are_answered(
    frame: Seq<u8>,
    ifindex: u32,
    order: ByteOrder,
    owner: Option<[u8; 6]>,
)
    requires
        frame.len() < 42 || frame[14] != 0 || frame[15] != 1 || frame[16] != 8 || frame[17] != 0
            || frame[20] != 0 || frame[21] != 1,
    ensures
        asked(frame, ifindex, order) is None,
        arp_ingress(frame, ifindex, order, owner) == untouched(frame),
        arp_ingress(frame, ifindex, order, owner).action == XdpAction::Pass,
        arp_ingress(frame, ifindex, order, owner).frame == frame,
        arp_ingress(frame, ifindex, order, owner).remember is None,
{
}

/// Every packet for a leased address on an interface with an identifier from 1
/// to 63 leaves the way in with the identifier as its DSCP value; its ECN bits
/// and everything but the checksum stay. What it came with is remembered for
/// the flow with the ends swapped.
pub proof fn law_every_leased_packet_is_tagged(
    frame: Seq<u8>,
    ifindex: u32,
    order: ByteOrder,
    id: u8,
    owner: [u8; 6],
)
    requires
        frame.len() >= 34,
        1 <= id <= 63,
    ensures
        ({
            let out = stamp_ingress(frame, order, Some(id), Some(owner));
            let flow = packet::packet_flow(frame, order);
            let key = destination(frame, ifindex, order);
            &&& key is Some
            &&& key.unwrap().ifindex == ifindex
            &&& order == ByteOrder::Big ==> key.unwrap().ip == 16777216 * frame[30] + 65536
                * frame[31] + 256 * frame[32] + frame[33]
            &&& order == ByteOrder::Little ==> key.unwrap().ip == frame[30] + 256 * frame[31]
                + 65536 * frame[32] + 16777216 * frame[33]
            &&& out.action == XdpAction::Pass
            &&& out.frame.len() == frame.len()
            &&& out.frame[15] == id * 4 + frame[15] % 4
            &&& forall|i: int|
                0 <= i < frame.len() && i != 15 && i != 24 && i != 25 ==> #[trigger] out.frame[i]
                    == frame[i]
            &&& frame[15] / 4 == id ==> out.frame == frame
            &&& out.remember is Some
            &&& out.remember.unwrap().0.src == flow.dst
            &&& out.remember.unwrap().0.dst == flow.src
            &&& out.remember.unwrap().0.sport == flow.dport
            &&& out.remember.unwrap().0.dport == flow.sport
            &&& out.remember.unwrap().0.proto == flow.proto
            &&& out.remember.unwrap().1 == frame[15] / 4
        }),
{
}

/// A packet goes on as it is, and nothing is remembered, where the interface
/// has no identifier from 1 to 63, where the destination is not answered for
/// and where the header is not whole.
pub proof fn law_other_packets_are_not_tagged(
    frame: Seq<u8>,
    order: ByteOrder,
    id: Option<u8>,
    owner: Option<[u8; 6]>,
)
    requires
        frame.len() < 34 || id is None || id == Some(0u8) || id.unwrap() > 63 || owner is None,
    ensures
        stamp_ingress(frame, order, id, owner).action == XdpAction::Pass,
        stamp_ingress(frame, order, id, owner).frame == frame,
        stamp_ingress(frame, order, id, owner).remember is None,
{
}

/// A packet of the interface's own tag leaves with what is remembered of its
/// flow in the DSCP bits, or zero, and with its own ECN bits; it is rewritten
/// only where that changes it.
pub proof fn law_tagged_packets_leave_without_the_tag(
    frame: Seq<u8>,
    id: u8,
    remembered: Option<u8>,
)
    requires
        frame.len() >= 34,
        frame[12] == 8 && frame[13] == 0,
        id != 0,
        frame[15] / 4 == id,
        remembered is Some ==> remembered.unwrap() <= 63,
    ensures
        ({
            let dscp: u8 = if remembered is Some {
                remembered.unwrap()
            } else {
                0
            };
            let r = egress(frame, Some(id), remembered);
            &&& carries(frame, Some(id))
            &&& r is None <==> dscp == id
            &&& r is Some ==> {
                &&& r.unwrap().tos == dscp * 4 + frame[15] % 4
                &&& r.unwrap().old_word == frame[14] * 256 + frame[15]
                &&& r.unwrap().new_word == frame[14] * 256 + r.unwrap().tos
            }
        }),
{
}

/// Any other packet leaves as it is.
pub proof fn law_other_packets_leave_as_they_are(
    frame: Seq<u8>,
    id: Option<u8>,
    remembered: Option<u8>,
)
    requires
        frame.len() < 34 || frame[12] != 8 || frame[13] != 0 || id is None || id == Some(0u8)
            || frame[15] / 4 != id.unwrap(),
    ensures
        !carries(frame, id),
        egress(frame, id, remembered) is None,
{
}

/// After a packet for a leased address has come in, an answer to it that
/// carries the tag is looked up under what was remembered of it, and leaves
/// with the DSCP value that it had come with and with its own ECN bits.
pub proof fn law_egress_restores_what_came_in(
    inbound: Seq<u8>,
    outbound: Seq<u8>,
    order: ByteOrder,
    id: u8,
    owner: [u8; 6],
)
    requires
        1 <= id <= 63,
        inbound.len() >= 34,
        outbound.len() >= 34,
        outbound[12] == 8 && outbound[13] == 0,
        outbound[15] / 4 == id,
        packet::answers(outbound, inbound) || packet::packet_flow(outbound, order)
            == packet::packet_flow(inbound, order).opposite(),
    ensures
        ({
            let remember = stamp_ingress(inbound, order, Some(id), Some(owner)).remember;
            let (key, dscp) = remember.unwrap();
            let left = match egress(outbound, Some(id), Some(dscp)) {
                Some(rewrite) => rewrite.tos,
                None => outbound[15],
            };
            &&& remember is Some
            &&& key == packet::packet_flow(outbound, order)
            &&& dscp == inbound[15] / 4
            &&& left / 4 == inbound[15] / 4
            &&& left % 4 == outbound[15] % 4
        }),
{
    if packet::answers(outbound, inbound) {
        packet::law_answers_belong_to_the_opposite_flow(outbound, inbound, order);
    }
    common::law_retagging_keeps_ecn(outbound[15], (inbound[15] / 4) as u8);
}

/// A packet that is tagged on the way in carries the identifier in its DSCP
/// bits and keeps its ECN bits; its checksum stays right, and nothing else in
/// it changes.
pub proof fn law_tagging_touches_only_the_tag(
    frame: Seq<u8>,
    order: ByteOrder,
    id: u8,
    owner: [u8; 6],
    n: nat,
)
    requires
        1 <= id <= 63,
        packet::sound_header(frame, n),
    ensures
        ({
            let after = stamp_ingress(frame, order, Some(id), Some(owner)).frame;
            &&& after.len() == frame.len()
            &&& after[15] / 4 == id
            &&& after[15] % 4 == frame[15] % 4
            &&& packet::sound_header(after, n)
            &&& forall|i: int|
                0 <= i < frame.len() && i != 15 && i != 24 && i != 25 ==> #[trigger] after[i]
                    == frame[i]
        }),
{
    let tos = tagged_tos(frame, id);
    common::law_retagging_keeps_ecn(frame[15], id);
    packet::law_new_tos_keeps_the_header_sound(frame, n, tos);
}

} // verus!
