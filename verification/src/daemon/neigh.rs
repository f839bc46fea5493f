//! Finding the gateway's hardware address and keeping it in the neighbour
//! table.

use crate::engine;
use crate::mac;
use crate::net;
use crate::net::Ipv4Addr;
use crate::packet;
use crate::text;
use crate::xdp;
use vstd::prelude::*;

verus! {

/// The length of an ARP frame: an Ethernet header and an ARP message for
/// IPv4 over Ethernet.
pub const ARP_FRAME_LEN: usize = 42;

/// How often a gateway is asked before it is given up.
pub const PROBE_ATTEMPTS: u32 = 3;

/// How long to wait after an attempt that failed, in seconds.
pub const PROBE_PAUSE_SECS: u64 = 1;

/// The frame that asks everyone on the link who has `dst_ip`.
pub open spec fn arp_request(src_mac: Seq<u8>, src_ip: Ipv4Addr, dst_ip: Ipv4Addr) -> Seq<u8> {
    seq![0xffu8, 0xffu8, 0xffu8, 0xffu8, 0xffu8, 0xffu8] + src_mac + seq![
        8u8,
        6u8,
        0u8,
        1u8,
        8u8,
        0u8,
        6u8,
        4u8,
        0u8,
        1u8,
    ] + src_mac + src_ip.wire_bytes() + seq![0u8, 0u8, 0u8, 0u8, 0u8, 0u8] + dst_ip.wire_bytes()
}

/// The hardware address in a frame that is an ARP reply from `sender` to
/// `target`.
pub open spec fn reply_mac(frame: Seq<u8>, sender: Ipv4Addr, target: Ipv4Addr) -> Option<Seq<u8>> {
    if frame.len() >= 42 && frame.subrange(12, 14) == seq![8u8, 6u8] && frame.subrange(20, 22)
        == seq![0u8, 2u8] && frame.subrange(28, 32) == sender.wire_bytes() && frame.subrange(
        38,
        42,
    ) == target.wire_bytes() {
        Some(frame.subrange(22, 28))
    } else {
        None
    }
}

pub fn build_arp_request(src_mac: &[u8; 6], src_ip: Ipv4Addr, dst_ip: Ipv4Addr) -> (frame: [u8; 42])
    ensures
        frame@ == arp_request(src_mac@, src_ip, dst_ip),
{
    let src: [u8; 4] = src_ip.octets();
    let dst: [u8; 4] = dst_ip.octets();
    let m: &[u8; 6] = src_mac;
    let frame: [u8; 42] = [
        0xff, 0xff, 0xff, 0xff, 0xff, 0xff, m[0], m[1], m[2], m[3], m[4], m[5], 8, 6, 0, 1, 8, 0, 6,
        4, 0, 1, m[0], m[1], m[2], m[3], m[4], m[5], src[0], src[1], src[2], src[3], 0, 0, 0, 0, 0,
        0, dst[0], dst[1], dst[2], dst[3],
    ];
    assert(frame@ =~= arp_request(src_mac@, src_ip, dst_ip));
    frame
}

/// Whether the four bytes at a place are an address.
fn address_at(frame: &[u8], at: usize, ip: Ipv4Addr) -> (r: bool)
    requires
        at + 4 <= frame@.len(),
    ensures
        r == (frame@.subrange(at as int, at + 4) == ip.wire_bytes()),
{
    let octets: [u8; 4] = ip.octets();
    let r: bool = frame[at] == octets[0] && frame[at + 1] == octets[1] && frame[at + 2] == octets[2]
        && frame[at + 3] == octets[3];
    proof {
        let s = frame@.subrange(at as int, at + 4);
        if r {
            assert(s =~= ip.wire_bytes());
        } else if s == ip.wire_bytes() {
            assert(s[0] == octets@[0] && s[1] == octets@[1] && s[2] == octets@[2] && s[3]
                == octets@[3]);
        }
    }
    r
}

/// Whether the two bytes at a place are the given ones.
fn pair_at(frame: &[u8], at: usize, a: u8, b: u8) -> (r: bool)
    requires
        at + 2 <= frame@.len(),
    ensures
        r == (frame@.subrange(at as int, at + 2) == seq![a, b]),
{
    let r: bool = frame[at] == a && frame[at + 1] == b;
    proof {
        let s = frame@.subrange(at as int, at + 2);
        if r {
            assert(s =~= seq![a, b]);
        } else if s == seq![a, b] {
            assert(s[0] == a && s[1] == b);
        }
    }
    r
}

pub fn parse_arp_reply(
    frame: &[u8],
    expected_sender_ip: Ipv4Addr,
    expected_target_ip: Ipv4Addr,
) -> (r: Option<[u8; 6]>)
    ensures
        match r {
            Some(m) => reply_mac(frame@, expected_sender_ip, expected_target_ip) == Some(m@),
            None => reply_mac(frame@, expected_sender_ip, expected_target_ip) is None,
        },
{
    if frame.len() < 42 {
        return None;
    }
    if !pair_at(frame, 12, 8, 6) {
        return None;
    }
    if !pair_at(frame, 20, 0, 2) {
        return None;
    }
    if !address_at(frame, 28, expected_sender_ip) || !address_at(frame, 38, expected_target_ip) {
        return None;
    }
    let mac: [u8; 6] = [frame[22], frame[23], frame[24], frame[25], frame[26], frame[27]];
    assert(mac@ =~= frame@.subrange(22, 28));
    Some(mac)
}

/// What follows a receive while a probe waits for its reply.
#[derive(Debug, Clone, Copy, PartialEq, Eq)]
pub enum ProbeReceive {
    /// Receive again: the frame is not the reply.
    Again,
    /// The attempt is over, with the address.
    Found([u8; 6]),
    /// The attempt is over: nothing more can be received.
    Fail,
}

/// Takes what a receive brought: a frame, or none where it failed.
pub fn received(frame: Option<&[u8]>, gw_ip: Ipv4Addr, src_ip: Ipv4Addr) -> (r: ProbeReceive)
    ensures
        match frame {
            None => r is Fail,
            Some(f) => match reply_mac(f@, gw_ip, src_ip) {
                Some(m) => r is Found && r->Found_0@ == m,
                None => r is Again,
            },
        },
{
    match frame {
        None => ProbeReceive::Fail,
        Some(f) => match parse_arp_reply(f, gw_ip, src_ip) {
            Some(m) => ProbeReceive::Found(m),
            None => ProbeReceive::Again,
        },
    }
}

/// What the search for the gateway's hardware address does next.
#[derive(Debug, Clone, Copy, PartialEq, Eq)]
pub enum ProbeStep {
    /// Ask.
    Probe,
    /// Wait this many seconds.
    Pause(u64),
    /// Stop, with the address.
    Found([u8; 6]),
    /// Stop, without one.
    GiveUp,
}

/// A search: how many attempts have failed so far.
#[derive(Debug, Clone, Copy, PartialEq, Eq, Structural)]
pub struct ProbeRetry {
    pub failed: u32,
}

impl ProbeRetry {
    pub fn new() -> (r: Self)
        ensures
            r.failed == 0,
    {
        ProbeRetry { failed: 0 }
    }

    /// What comes first, or after a pause.
    pub fn next(&self) -> (step: ProbeStep)
        ensures
            step == if self.failed < PROBE_ATTEMPTS {
                ProbeStep::Probe
            } else {
                ProbeStep::GiveUp
            },
            step is Probe <==> self.failed <= 2,
    {
        if self.failed < PROBE_ATTEMPTS {
            ProbeStep::Probe
        } else {
            ProbeStep::GiveUp
        }
    }

    /// What comes after an attempt: an address ends the search, a failure is
    /// followed by a pause, the last one too.
    pub fn probed(&mut self, result: Option<[u8; 6]>) -> (step: ProbeStep)
        requires
            old(self).failed < PROBE_ATTEMPTS,
        ensures
            match result {
                Some(m) => step == ProbeStep::Found(m) && *final(self) == *old(self),
                None => step == ProbeStep::Pause(PROBE_PAUSE_SECS) && final(self).failed == old(
                    self,
                ).failed + 1,
            },
            final(self).failed <= PROBE_ATTEMPTS,
            result is None ==> step == ProbeStep::Pause(1),
    {
        match result {
            Some(m) => ProbeStep::Found(m),
            None => {
                self.failed += 1;
                ProbeStep::Pause(PROBE_PAUSE_SECS)
            },
        }
    }
}

/// The arguments of the command that makes the gateway's entry permanent.
pub open spec fn neigh_command(iface: Seq<char>, gw_ip: Ipv4Addr, m: Seq<u8>) -> Seq<Seq<char>> {
    seq![
        "neigh"@,
        "replace"@,
        gw_ip.text(),
        "lladdr"@,
        mac::mac_text(m, 6),
        "dev"@,
        iface,
        "nud"@,
        "permanent"@,
    ]
}

/// The arguments with which `ip` makes the gateway's entry permanent.
pub fn permanent_neigh_args(iface: &str, gw_ip: Ipv4Addr, m: &[u8; 6]) -> (args: Vec<String>)
    ensures
        text::texts(args@) == neigh_command(iface@, gw_ip, m@),
        args@.len() == 9,
        args@[0]@ == "neigh"@ && args@[1]@ == "replace"@,
        args@[2]@ == gw_ip.text(),
        args@[3]@ == "lladdr"@ && args@[4]@ == mac::mac_text(m@, 6),
        args@[5]@ == "dev"@ && args@[6]@ == iface@,
        args@[7]@ == "nud"@ && args@[8]@ == "permanent"@,
{
    let mut args: Vec<String> = Vec::new();
    args.push("neigh".to_string());
    args.push("replace".to_string());
    args.push(gw_ip.to_text());
    args.push("lladdr".to_string());
    args.push(mac::format_mac(m));
    args.push("dev".to_string());
    args.push(iface.to_string());
    args.push("nud".to_string());
    args.push("permanent".to_string());
    assert(text::texts(args@) =~= neigh_command(iface@, gw_ip, m@));
    args
}

/// A request that reaches an interface which answers for the address asked
/// for comes back as a frame that is accepted as the reply, with the hardware
/// address that the interface answers with.
pub proof fn law_answered_request_is_accepted(
    src_mac: Seq<u8>,
    src_ip: Ipv4Addr,
    dst_ip: Ipv4Addr,
    ifindex: u32,
    order: packet::ByteOrder,
    owner: [u8; 6],
)
    requires
        src_mac.len() == 6,
    ensures
        ({
            let request = arp_request(src_mac, src_ip, dst_ip);
            let key = engine::arp_key(ifindex, dst_ip, order);
            let out = xdp::arp_ingress(request, ifindex, order, Some(owner));
            &&& packet::kind_of(request) == packet::FrameKind::Arp
            &&& xdp::asked(request, ifindex, order) == Some(key)
            &&& out.action == xdp::XdpAction::Tx
            &&& reply_mac(out.frame, dst_ip, src_ip) == Some(owner@)
        }),
{
    let request = arp_request(src_mac, src_ip, dst_ip);
    assert(request.len() == 42);
    assert(request[12] == 8 && request[13] == 6);
    assert(request[14] == 0 && request[15] == 1 && request[16] == 8 && request[17] == 0);
    assert(request[20] == 0 && request[21] == 1);
    assert(request.subrange(38, 42) =~= dst_ip.wire_bytes());
    assert(request.subrange(28, 32) =~= src_ip.wire_bytes());
    let reply = xdp::answer(request, owner@);
    assert(reply.len() == 42);
    assert(reply.subrange(12, 14) =~= seq![8u8, 6u8]);
    assert(reply.subrange(20, 22) =~= seq![0u8, 2u8]);
    assert(reply.subrange(22, 28) =~= owner@);
    assert(reply.subrange(28, 32) =~= request.subrange(38, 42));
    assert(reply.subrange(38, 42) =~= request.subrange(28, 32));
}

/// A request is a broadcast of 42 bytes: an Ethernet header with EtherType
/// 0806, and an ARP request for IPv4 over Ethernet from the own addresses for
/// the address asked for.
pub proof fn law_requests_ask_everyone(src_mac: Seq<u8>, src_ip: Ipv4Addr, dst_ip: Ipv4Addr)
    requires
        src_mac.len() == 6,
    ensures
        ({
            let f = arp_request(src_mac, src_ip, dst_ip);
            &&& f.len() == 42
            &&& forall|i: int| 0 <= i < 6 ==> #[trigger] f[i] == 255
            &&& f.subrange(6, 12) == src_mac
            &&& f[12] == 8 && f[13] == 6
            &&& f[14] == 0 && f[15] == 1 && f[16] == 8 && f[17] == 0 && f[18] == 6 && f[19] == 4
            &&& f[20] == 0 && f[21] == 1
            &&& f.subrange(22, 28) == src_mac
            &&& 16777216 * f[28] + 65536 * f[29] + 256 * f[30] + f[31] == src_ip.bits
            &&& forall|i: int| 32 <= i < 38 ==> #[trigger] f[i] == 0
            &&& 16777216 * f[38] + 65536 * f[39] + 256 * f[40] + f[41] == dst_ip.bits
        }),
{
    let f = arp_request(src_mac, src_ip, dst_ip);
    assert(f.subrange(6, 12) =~= src_mac);
    assert(f.subrange(22, 28) =~= src_mac);
}

proof fn lemma_pair(frame: Seq<u8>, at: int, a: u8, b: u8)
    requires
        0 <= at,
        at + 2 <= frame.len(),
    ensures
        frame.subrange(at, at + 2) == seq![a, b] <==> frame[at] == a && frame[at + 1] == b,
{
    let s = frame.subrange(at, at + 2);
    assert(s[0] == frame[at] && s[1] == frame[at + 1]);
    if frame[at] == a && frame[at + 1] == b {
        assert(s =~= seq![a, b]);
    }
}

/// A frame is the reply exactly if it has at least 42 bytes, EtherType 0806,
/// the operation 2 and the two addresses as sender and target, whatever else
/// it holds. The hardware address is then the sender's.
pub proof fn law_replies_are_told_by_their_fields(
    frame: Seq<u8>,
    sender: Ipv4Addr,
    target: Ipv4Addr,
)
    ensures
        reply_mac(frame, sender, target) is Some <==> {
            &&& frame.len() >= 42
            &&& frame[12] == 8 && frame[13] == 6
            &&& frame[20] == 0 && frame[21] == 2
            &&& 16777216 * frame[28] + 65536 * frame[29] + 256 * frame[30] + frame[31]
                == sender.bits
            &&& 16777216 * frame[38] + 65536 * frame[39] + 256 * frame[40] + frame[41]
                == target.bits
        },
        reply_mac(frame, sender, target) is Some ==> ({
            let m = reply_mac(frame, sender, target).unwrap();
            m.len() == 6 && forall|i: int| 0 <= i < 6 ==> #[trigger] m[i] == frame[22 + i]
        }),
{
    if frame.len() >= 42 {
        lemma_pair(frame, 12, 8, 6);
        lemma_pair(frame, 20, 0, 2);
        net::law_wire_bytes_are_told_by_their_value(frame.subrange(28, 32), sender);
        net::law_wire_bytes_are_told_by_their_value(frame.subrange(38, 42), target);
    }
}

} // verus!
