//! Reading and rewriting Ethernet frames that carry IPv4.

use crate::common;
use crate::common::{csum_replace2, FlowKey, IPPROTO_TCP, IPPROTO_UDP};
use crate::common::{IPV4_CHECK_OFFSET, IPV4_TOS_OFFSET};
use vstd::prelude::*;

verus! {

/// The length of an Ethernet header.
pub const ETH_LEN: usize = 14;

/// The length of an IPv4 header without options.
pub const IPV4_LEN: usize = 20;

/// The order in which a machine stores the bytes of a number.
#[derive(Debug, Clone, Copy, PartialEq, Eq, Structural)]
pub enum ByteOrder {
    Little,
    Big,
}

/// The number that four bytes make when a machine loads them.
pub open spec fn loaded(order: ByteOrder, b: Seq<u8>) -> int {
    match order {
        ByteOrder::Big => ((b[0] * 256 + b[1]) * 256 + b[2]) * 256 + b[3],
        ByteOrder::Little => ((b[3] * 256 + b[2]) * 256 + b[1]) * 256 + b[0],
    }
}

/// Loads four bytes as a machine of the given order does.
pub fn load_u32(order: ByteOrder, b: [u8; 4]) -> (n: u32)
    ensures
        n == loaded(order, b@),
{
    match order {
        ByteOrder::Big => ((b[0] as u32 * 256 + b[1] as u32) * 256 + b[2] as u32) * 256
            + b[3] as u32,
        ByteOrder::Little => ((b[3] as u32 * 256 + b[2] as u32) * 256 + b[1] as u32) * 256
            + b[0] as u32,
    }
}

/// Two bytes as a number, the first being the more significant.
pub open spec fn be16(hi: u8, lo: u8) -> int {
    hi * 256 + lo
}

fn join16(hi: u8, lo: u8) -> (n: u16)
    ensures
        n == be16(hi, lo),
{
    hi as u16 * 256 + lo as u16
}

/// The protocols that a frame is looked at for.
#[derive(Debug, Clone, Copy, PartialEq, Eq, Structural)]
pub enum FrameKind {
    Arp,
    Ipv4,
    Other,
}

/// What a frame carries by its Ethernet header; one without a full header
/// carries nothing of interest.
pub open spec fn kind_of(frame: Seq<u8>) -> FrameKind {
    if frame.len() < 14 {
        FrameKind::Other
    } else if be16(frame[12], frame[13]) == 0x0806 {
        FrameKind::Arp
    } else if be16(frame[12], frame[13]) == 0x0800 {
        FrameKind::Ipv4
    } else {
        FrameKind::Other
    }
}

pub fn frame_kind(frame: &[u8]) -> (kind: FrameKind)
    ensures
        kind == kind_of(frame@),
{
    if frame.len() < ETH_LEN {
        return FrameKind::Other;
    }
    let ether_type: u16 = join16(frame[12], frame[13]);
    if ether_type == 0x0806 {
        FrameKind::Arp
    } else if ether_type == 0x0800 {
        FrameKind::Ipv4
    } else {
        FrameKind::Other
    }
}

/// Four bytes of a frame.
pub fn four_at(frame: &[u8], at: usize) -> (b: [u8; 4])
    requires
        at + 4 <= frame@.len(),
    ensures
        b@ == frame@.subrange(at as int, at + 4),
{
    let b: [u8; 4] = [frame[at], frame[at + 1], frame[at + 2], frame[at + 3]];
    assert(b@ =~= frame@.subrange(at as int, at + 4));
    b
}

/// Whether a frame is long enough for an IPv4 header.
pub open spec fn has_ipv4_header(frame: Seq<u8>) -> bool {
    frame.len() >= 34
}

/// Whether the ports of a packet can be read: TCP or UDP behind a header
/// without options, and long enough.
pub open spec fn has_ports(frame: Seq<u8>) -> bool {
    (frame[23] == IPPROTO_TCP || frame[23] == IPPROTO_UDP) && frame[14] % 16 == 5 && frame.len()
        >= 38
}

/// The key of the flow that a packet belongs to; without ports it is the
/// addresses and the protocol.
pub open spec fn packet_flow(frame: Seq<u8>, order: ByteOrder) -> FlowKey {
    common::flow_key(
        loaded(order, frame.subrange(26, 30)) as u32,
        loaded(order, frame.subrange(30, 34)) as u32,
        if has_ports(frame) {
            be16(frame[34], frame[35]) as u16
        } else {
            0
        },
        if has_ports(frame) {
            be16(frame[36], frame[37]) as u16
        } else {
            0
        },
        frame[23],
    )
}

pub fn flow_key_of(frame: &[u8], order: ByteOrder) -> (key: FlowKey)
    requires
        has_ipv4_header(frame@),
    ensures
        key == packet_flow(frame@, order),
        key.padded(),
{
    let src: u32 = load_u32(order, four_at(frame, 26));
    let dst: u32 = load_u32(order, four_at(frame, 30));
    let proto: u8 = frame[23];
    let mut sport: u16 = 0;
    let mut dport: u16 = 0;
    if (proto == IPPROTO_TCP || proto == IPPROTO_UDP) && frame[14] % 16 == 5 && frame.len() >= 38 {
        sport = join16(frame[34], frame[35]);
        dport = join16(frame[36], frame[37]);
    }
    FlowKey::new(src, dst, sport, dport, proto)
}

/// The first word of a packet's IPv4 header with a given TOS byte.
pub open spec fn first_word(frame: Seq<u8>, tos: u8) -> u16 {
    be16(frame[14], tos) as u16
}

/// The checksum of a packet's IPv4 header.
pub open spec fn header_check(frame: Seq<u8>) -> u16 {
    be16(frame[24], frame[25]) as u16
}

/// A packet with another TOS byte and the checksum brought up to date.
pub open spec fn with_tos(frame: Seq<u8>, tos: u8) -> Seq<u8> {
    let check = common::checksum_after(
        header_check(frame),
        first_word(frame, frame[15]),
        first_word(frame, tos),
    );
    frame.update(15, tos).update(24, (check / 256) as u8).update(25, (check % 256) as u8)
}

/// Puts another TOS byte into a packet and brings the checksum up to date.
pub fn rewrite_tos(frame: &mut [u8], tos: u8)
    requires
        has_ipv4_header(old(frame)@),
    ensures
        final(frame)@ == with_tos(old(frame)@, tos),
{
    let vihl: u8 = frame[14];
    let old_word: u16 = join16(vihl, frame[15]);
    let new_word: u16 = join16(vihl, tos);
    let check: u16 = csum_replace2(join16(frame[24], frame[25]), old_word, new_word);
    frame[ETH_LEN + IPV4_TOS_OFFSET] = tos;
    frame[ETH_LEN + IPV4_CHECK_OFFSET] = (check / 256) as u8;
    frame[ETH_LEN + IPV4_CHECK_OFFSET + 1] = (check % 256) as u8;
    assert(frame@ =~= with_tos(old(frame)@, tos));
}

/// The first `n` words of a packet's IPv4 header, the checksum's own being
/// zero.
pub open spec fn header_words(frame: Seq<u8>, n: nat) -> Seq<u16> {
    Seq::new(
        n,
        |i: int|
            if i == 5 {
                0
            } else {
                be16(frame[14 + 2 * i], frame[15 + 2 * i]) as u16
            },
    )
}

/// Whether a packet has a full IPv4 header of `n` words with a checksum that
/// is right.
pub open spec fn sound_header(frame: Seq<u8>, n: nat) -> bool {
    &&& n >= 10
    &&& frame.len() >= 14 + 2 * n
    &&& frame[14] / 16 == 4
    &&& header_check(frame) == common::internet_checksum(header_words(frame, n))
}

/// A new TOS byte leaves the checksum right, whatever the length of the
/// header, and nothing else in the frame changes.
pub proof fn law_new_tos_keeps_the_header_sound(frame: Seq<u8>, n: nat, tos: u8)
    requires
        sound_header(frame, n),
    ensures
        sound_header(with_tos(frame, tos), n),
        with_tos(frame, tos)[15] == tos,
        forall|i: int|
            0 <= i < frame.len() && i != 15 && i != 24 && i != 25 ==> #[trigger] with_tos(
                frame,
                tos,
            )[i] == frame[i],
{
    let after = with_tos(frame, tos);
    let words = header_words(frame, n);
    let new_word = first_word(frame, tos);
    let check = common::checksum_after(
        header_check(frame),
        first_word(frame, frame[15]),
        new_word,
    );
    assert(0 <= check <= 0xffff);
    assert(words[0] == first_word(frame, frame[15]));
    let changed = words.update(0, new_word);
    assert(header_words(after, n) =~= changed);
    assert(changed[0] == new_word);
    assert(new_word > 0);
    common::lemma_word_sum_positive(changed, 0);
    common::law_incremental_checksum_is_full_recompute(words, 0, new_word, header_check(frame));
    assert(header_check(after) == check);
}

/// A frame carries IPv4 or ARP exactly if it has a full Ethernet header with
/// the EtherType 0800 or 0806.
pub proof fn law_ethertype_tells_the_kind(frame: Seq<u8>)
    ensures
        kind_of(frame) == FrameKind::Ipv4 <==> frame.len() >= 14 && frame[12] == 8 && frame[13] == 0,
        kind_of(frame) == FrameKind::Arp <==> frame.len() >= 14 && frame[12] == 8 && frame[13] == 6,
{
}

/// A machine keeps the lowest byte of a number first if it is little-endian,
/// and last if it is big-endian.
pub proof fn law_byte_order_tells_the_number(b: Seq<u8>)
    requires
        b.len() == 4,
    ensures
        loaded(ByteOrder::Big, b) == 16777216 * b[0] + 65536 * b[1] + 256 * b[2] + b[3],
        loaded(ByteOrder::Little, b) == b[0] + 256 * b[1] + 65536 * b[2] + 16777216 * b[3],
{
}

/// Different bytes load as different numbers.
pub proof fn law_loading_tells_bytes_apart(order: ByteOrder, a: Seq<u8>, b: Seq<u8>)
    requires
        a.len() == 4,
        b.len() == 4,
        loaded(order, a) == loaded(order, b),
    ensures
        a == b,
{
    assert(a =~= b);
}

/// The flow key of a TCP or UDP packet behind a header without options holds
/// the two ports that the packet names.
pub proof fn law_tcp_and_udp_keys_hold_the_ports(frame: Seq<u8>, order: ByteOrder)
    requires
        frame.len() >= 38,
        frame[14] % 16 == 5,
        frame[23] == 6 || frame[23] == 17,
    ensures
        packet_flow(frame, order).sport == frame[34] * 256 + frame[35],
        packet_flow(frame, order).dport == frame[36] * 256 + frame[37],
{
}

/// The flow key of any other packet, of one behind a header with options and
/// of one that is cut off has the ports zero.
pub proof fn law_other_keys_hold_no_ports(frame: Seq<u8>, order: ByteOrder)
    requires
        frame.len() >= 34,
        frame.len() < 38 || frame[14] % 16 != 5 || (frame[23] != 6 && frame[23] != 17),
    ensures
        packet_flow(frame, order).sport == 0,
        packet_flow(frame, order).dport == 0,
{
}

/// A flow key holds the source, the destination and the protocol of a packet.
pub proof fn law_flow_key_holds_the_addresses(frame: Seq<u8>, order: ByteOrder)
    requires
        frame.len() >= 34,
    ensures
        ({
            let key = packet_flow(frame, order);
            &&& key.proto == frame[23]
            &&& key.padded()
            &&& order == ByteOrder::Big ==> key.src == 16777216 * frame[26] + 65536 * frame[27]
                + 256 * frame[28] + frame[29]
            &&& order == ByteOrder::Big ==> key.dst == 16777216 * frame[30] + 65536 * frame[31]
                + 256 * frame[32] + frame[33]
            &&& order == ByteOrder::Little ==> key.src == frame[26] + 256 * frame[27] + 65536
                * frame[28] + 16777216 * frame[29]
            &&& order == ByteOrder::Little ==> key.dst == frame[30] + 256 * frame[31] + 65536
                * frame[32] + 16777216 * frame[33]
        }),
{
    let key = packet_flow(frame, order);
    assert(key._pad@ =~= seq![0u8, 0u8, 0u8]);
}

/// Two TCP or UDP packets behind headers without options belong to one flow
/// exactly if they name the same addresses, ports and protocol.
pub proof fn law_flow_keys_tell_flows_apart(a: Seq<u8>, b: Seq<u8>, order: ByteOrder)
    requires
        a.len() >= 38,
        b.len() >= 38,
        a[14] % 16 == 5,
        b[14] % 16 == 5,
        a[23] == 6 || a[23] == 17,
        b[23] == 6 || b[23] == 17,
    ensures
        packet_flow(a, order) == packet_flow(b, order) <==> a[23] == b[23] && forall|i: int|
            26 <= i < 38 ==> #[trigger] a[i] == b[i],
{
    let x = packet_flow(a, order);
    let y = packet_flow(b, order);
    if x == y {
        law_loading_tells_bytes_apart(order, a.subrange(26, 30), b.subrange(26, 30));
        law_loading_tells_bytes_apart(order, a.subrange(30, 34), b.subrange(30, 34));
        assert forall|i: int| 26 <= i < 38 implies #[trigger] a[i] == b[i] by {
            if i < 30 {
                assert(a.subrange(26, 30)[i - 26] == b.subrange(26, 30)[i - 26]);
            } else if i < 34 {
                assert(a.subrange(30, 34)[i - 30] == b.subrange(30, 34)[i - 30]);
            }
        }
    }
    if a[23] == b[23] && forall|i: int| 26 <= i < 38 ==> #[trigger] a[i] == b[i] {
        assert(a.subrange(26, 30) =~= b.subrange(26, 30));
        assert(a.subrange(30, 34) =~= b.subrange(30, 34));
        assert(a[34] == b[34] && a[35] == b[35] && a[36] == b[36] && a[37] == b[37]);
    }
}

/// Whether a packet answers another one: the same protocol, the addresses
/// swapped, and for TCP and UDP without options the ports swapped.
pub open spec fn answers(reply: Seq<u8>, request: Seq<u8>) -> bool {
    &&& request.len() >= 38
    &&& reply.len() >= 38
    &&& request[14] % 16 == 5
    &&& reply[14] % 16 == 5
    &&& reply[23] == request[23]
    &&& reply.subrange(26, 30) == request.subrange(30, 34)
    &&& reply.subrange(30, 34) == request.subrange(26, 30)
    &&& reply.subrange(34, 36) == request.subrange(36, 38)
    &&& reply.subrange(36, 38) == request.subrange(34, 36)
}

/// The flow of an answer is the opposite of the flow of what it answers.
pub proof fn law_answers_belong_to_the_opposite_flow(
    reply: Seq<u8>,
    request: Seq<u8>,
    order: ByteOrder,
)
    requires
        answers(reply, request),
    ensures
        packet_flow(reply, order) == packet_flow(request, order).opposite(),
{
    assert(reply[34] == reply.subrange(34, 36)[0] && reply[35] == reply.subrange(34, 36)[1]);
    assert(reply[36] == reply.subrange(36, 38)[0] && reply[37] == reply.subrange(36, 38)[1]);
    assert(request[34] == request.subrange(34, 36)[0] && request[35] == request.subrange(34, 36)[1]);
    assert(request[36] == request.subrange(36, 38)[0] && request[37] == request.subrange(36, 38)[1]);
}

/// A new TOS byte changes that byte and the checksum, which is brought up to
/// date for the first word of the header, and nothing else, whether or not
/// the checksum was right before.
pub proof fn law_new_tos_brings_the_checksum_up_to_date(frame: Seq<u8>, tos: u8)
    requires
        frame.len() >= 34,
    ensures
        ({
            let after = with_tos(frame, tos);
            &&& after.len() == frame.len()
            &&& after[15] == tos
            &&& 256 * after[24] + after[25] == common::checksum_after(
                (256 * frame[24] + frame[25]) as u16,
                (256 * frame[14] + frame[15]) as u16,
                (256 * frame[14] + tos) as u16,
            )
            &&& forall|i: int|
                0 <= i < frame.len() && i != 15 && i != 24 && i != 25 ==> #[trigger] after[i]
                    == frame[i]
        }),
{
    common::law_checksum_follows_the_word(
        header_check(frame),
        first_word(frame, frame[15]),
        first_word(frame, tos),
    );
}

} // verus!
