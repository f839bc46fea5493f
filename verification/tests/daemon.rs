use dumbarp::api::Leases;
use dumbarp::common::{ArpKey, FlowKey};
use dumbarp::config::DaemonEntry;
use dumbarp::daemon::dhcp::{DhcpAction, DhcpOutcome, DhcpRun};
use dumbarp::daemon::http::{healthz_handler, leases_handler};
use dumbarp::daemon::lease::LeaseInfo;
use dumbarp::daemon::neigh::{
    build_arp_request, parse_arp_reply, permanent_neigh_args, received, ProbeReceive, ProbeRetry,
    ProbeStep,
};
use dumbarp::daemon::state::AppState;
use dumbarp::engine::{enabled_id, AddError, AddStage, Dumbarp, RemoveStage};
use dumbarp::gateway::http::daemons_handler;
use dumbarp::gateway::reconcile::{plan_round, GatewayState};
use dumbarp::iface::{ifindex_path, mac_path, read_iface_index};
use dumbarp::names::NameMap;
use dumbarp::net::Ipv4Addr;
use dumbarp::packet::{rewrite_tos, ByteOrder};
use dumbarp::xdp::{try_arp, try_dumbarp, try_terminate, XdpAction};

const MAC: [u8; 6] = [2, 0, 0, 0, 0, 1];
const OWN: [u8; 6] = [2, 0, 0, 0, 0, 2];

fn ip(last: u8) -> Ipv4Addr {
    Ipv4Addr::new(10, 0, 0, last)
}

#[test]
fn arp_requests_are_built_and_answered() {
    let mut frame = build_arp_request(&MAC, ip(1), ip(2));
    assert_eq!(&frame[..6], &[0xff; 6]);
    assert_eq!(&frame[12..14], &[8, 6]);
    assert_eq!(parse_arp_reply(&frame, ip(2), ip(1)), None);

    let expected = ArpKey {
        ifindex: 3,
        ip: u32::from_le_bytes([10, 0, 0, 2]),
    };
    let table = move |key: ArpKey| if key == expected { Some(OWN) } else { None };
    let (action, remember) = try_dumbarp(&mut frame, 4, ByteOrder::Little, |_| None, table);
    assert_eq!(action, XdpAction::Pass);
    assert!(remember.is_none());
    let (action, _) = try_dumbarp(&mut frame, 3, ByteOrder::Little, |_| None, table);
    assert_eq!(action, XdpAction::Tx);
    assert_eq!(&frame[..6], &MAC);
    assert_eq!(&frame[6..12], &OWN);
    assert_eq!(parse_arp_reply(&frame, ip(2), ip(1)), Some(OWN));
    assert_eq!(parse_arp_reply(&frame, ip(3), ip(1)), None);
    assert_eq!(parse_arp_reply(&frame, ip(2), ip(3)), None);
    assert_eq!(parse_arp_reply(&frame[..41], ip(2), ip(1)), None);
}

#[test]
fn requests_of_another_hardware_type_are_left_alone() {
    for (at, byte) in [(14, 1), (15, 6)] {
        let mut frame = build_arp_request(&MAC, ip(1), ip(2));
        frame[at] = byte;
        let before = frame;
        let out = try_dumbarp(&mut frame, 3, ByteOrder::Little, |_| None, |_| Some(OWN));
        assert_eq!(out, (XdpAction::Pass, None));
        assert_eq!(frame, before);
    }
}

#[test]
fn requests_of_another_protocol_type_are_left_alone() {
    for (at, byte) in [(16, 0x86), (17, 6)] {
        let mut frame = build_arp_request(&MAC, ip(1), ip(2));
        frame[at] = byte;
        let before = frame;
        assert_eq!(try_arp(&mut frame, 3, ByteOrder::Little, |_| Some(OWN)), XdpAction::Pass);
        assert_eq!(frame, before);
    }
}

#[test]
fn a_probe_receives_until_its_reply_comes() {
    let mut frame = build_arp_request(&MAC, ip(1), ip(2));
    assert_eq!(received(Some(&frame), ip(2), ip(1)), ProbeReceive::Again);
    assert_eq!(received(Some(&frame[..10]), ip(2), ip(1)), ProbeReceive::Again);
    assert_eq!(try_arp(&mut frame, 3, ByteOrder::Little, |_| Some(OWN)), XdpAction::Tx);
    assert_eq!(received(Some(&frame), ip(2), ip(1)), ProbeReceive::Found(OWN));
    assert_eq!(received(Some(&frame), ip(3), ip(1)), ProbeReceive::Again);
    assert_eq!(received(None, ip(2), ip(1)), ProbeReceive::Fail);
}

fn checksum(header: &[u8]) -> u16 {
    let mut sum = 0u32;
    for word in header.chunks(2) {
        sum += u32::from(u16::from_be_bytes([word[0], word[1]]));
    }
    while sum >> 16 != 0 {
        sum = (sum & 0xffff) + (sum >> 16);
    }
    !(sum as u16)
}

fn packet(src: [u8; 4], dst: [u8; 4], sport: u16, dport: u16, tos: u8) -> Vec<u8> {
    let mut f = vec![0u8; 54];
    f[12] = 8;
    f[14] = 0x45;
    f[15] = tos;
    f[17] = 40;
    f[22] = 64;
    f[23] = 6;
    f[26..30].copy_from_slice(&src);
    f[30..34].copy_from_slice(&dst);
    f[34..36].copy_from_slice(&sport.to_be_bytes());
    f[36..38].copy_from_slice(&dport.to_be_bytes());
    let c = checksum(&f[14..34]);
    f[24..26].copy_from_slice(&c.to_be_bytes());
    f
}

#[test]
fn packets_are_tagged_and_their_replies_restored() {
    let client = [203, 0, 113, 7];
    let lease = [110, 110, 110, 110];
    let mut inbound = packet(client, lease, 1234, 80, 0b0010_1001);
    let order = ByteOrder::Little;
    let table = move |key: ArpKey| {
        if key.ip == u32::from_le_bytes(lease) {
            Some(OWN)
        } else {
            None
        }
    };
    let (action, remember) = try_dumbarp(&mut inbound, 3, order, |_| Some(7), table);
    assert_eq!(action, XdpAction::Pass);
    assert_eq!(inbound[15], 7 << 2 | 1);
    assert_eq!(checksum(&inbound[14..34]), 0);
    let (key, dscp) = remember.unwrap();
    assert_eq!(dscp, 0b1010);
    assert_eq!(
        key,
        FlowKey::new(u32::from_le_bytes(lease), u32::from_le_bytes(client), 80, 1234, 6)
    );

    let mut reply = packet(lease, client, 80, 1234, 7 << 2 | 2);
    let known = move |k: FlowKey| if k == key { Some(dscp) } else { None };
    let rewrite = try_terminate(&reply, 3, order, |_| Some(7), known).unwrap();
    assert_eq!(rewrite.tos, 0b1010 << 2 | 2);
    assert_eq!(rewrite.old_word, 0x451e);
    assert_eq!(rewrite.new_word, 0x452a);
    rewrite_tos(&mut reply, rewrite.tos);
    assert_eq!(checksum(&reply[14..34]), 0);

    let forgotten = try_terminate(&packet(lease, client, 81, 1234, 7 << 2), 3, order, |_| Some(7), known);
    assert_eq!(forgotten.unwrap().tos, 0);
    assert!(try_terminate(&packet(lease, client, 80, 1234, 8 << 2), 3, order, |_| Some(7), known).is_none());
    assert!(try_terminate(&packet(lease, client, 80, 1234, 7 << 2), 3, order, |_| None, known).is_none());
    assert!(try_terminate(&reply[..33], 3, order, |_| Some(7), known).is_none());
}

#[test]
fn other_packets_are_left_alone() {
    let order = ByteOrder::Big;
    let original = packet([1, 1, 1, 1], [2, 2, 2, 2], 1, 2, 0);
    for id in [None, Some(0), Some(64)] {
        let mut f = original.clone();
        assert_eq!(try_dumbarp(&mut f, 3, order, |_| id, |_| Some(OWN)), (XdpAction::Pass, None));
        assert_eq!(f, original);
    }
    let mut f = original.clone();
    assert_eq!(try_dumbarp(&mut f, 3, order, |_| Some(5), |_| None), (XdpAction::Pass, None));
    assert_eq!(f, original);
    let mut short = original[..33].to_vec();
    assert_eq!(try_dumbarp(&mut short, 3, order, |_| Some(5), |_| Some(OWN)), (XdpAction::Pass, None));
    let mut tiny = vec![0u8; 13];
    assert_eq!(try_dumbarp(&mut tiny, 3, order, |_| Some(5), |_| Some(OWN)), (XdpAction::Pass, None));
}

#[test]
fn a_packet_that_comes_tagged_is_remembered_as_it_came() {
    let order = ByteOrder::Big;
    let (client, lease) = ([1, 1, 1, 1], [2, 2, 2, 2]);
    let tagged = packet(client, lease, 1, 2, 5 << 2 | 1);
    let mut f = tagged.clone();
    let (action, remember) = try_dumbarp(&mut f, 3, order, |_| Some(5), |_| Some(OWN));
    assert_eq!(action, XdpAction::Pass);
    assert_eq!(f, tagged);
    let key = FlowKey::new(u32::from_be_bytes(lease), u32::from_be_bytes(client), 2, 1, 6);
    assert_eq!(remember, Some((key, 5)));

    let reply = packet(lease, client, 2, 1, 5 << 2);
    let known = move |k: FlowKey| if k == key { Some(5) } else { None };
    assert!(try_terminate(&reply, 3, order, |_| Some(5), known).is_none());
}

#[test]
fn a_gateway_is_asked_three_times() {
    let mut retry = ProbeRetry::new();
    for _ in 0..3 {
        assert_eq!(retry.next(), ProbeStep::Probe);
        assert_eq!(retry.probed(None), ProbeStep::Pause(1));
    }
    assert_eq!(retry.next(), ProbeStep::GiveUp);
    let mut retry = ProbeRetry::new();
    assert_eq!(retry.probed(Some(MAC)), ProbeStep::Found(MAC));
}

#[test]
fn the_neighbour_entry_is_permanent() {
    assert_eq!(
        permanent_neigh_args("wan0", ip(1), &MAC),
        vec!["neigh", "replace", "10.0.0.1", "lladdr", "02:00:00:00:00:01", "dev", "wan0", "nud", "permanent"]
    );
}

#[test]
fn interface_files_are_read() {
    assert_eq!(mac_path("eth0"), "/sys/class/net/eth0/address");
    assert_eq!(ifindex_path("eth0"), "/sys/class/net/eth0/ifindex");
    assert_eq!(read_iface_index(" 7\n"), Some(7));
    assert_eq!(read_iface_index("-2147483648"), Some(i32::MIN));
    assert_eq!(read_iface_index("2147483648"), None);
    assert_eq!(read_iface_index("-"), None);
    assert_eq!(read_iface_index(""), None);
}

#[test]
fn attaching_is_undone_when_it_fails() {
    let engine: Dumbarp<u32, u32> = Dumbarp::new();
    let mut a = engine
        .add_interface("eth0", ip(9), Some(5), "02:00:00:00:00:01\n", "12\n", ByteOrder::Little)
        .unwrap();
    assert_eq!(a.mac, MAC);
    assert_eq!(a.ifindex, 12);
    assert_eq!(a.key, ArpKey { ifindex: 12, ip: u32::from_le_bytes([10, 0, 0, 9]) });
    let mut stages = Vec::new();
    while a.stage != AddStage::Failed {
        stages.push(a.stage);
        let ok = a.stage != AddStage::AttachEgress;
        a.report(ok);
    }
    assert_eq!(
        stages,
        vec![
            AddStage::AttachXdp,
            AddStage::OpenArpTable,
            AddStage::InsertArp,
            AddStage::OpenDscpTable,
            AddStage::InsertDscp,
            AddStage::AddQdisc,
            AddStage::AttachEgress,
            AddStage::UndoArp,
            AddStage::UndoDscp,
            AddStage::UndoXdp,
        ]
    );
}

#[test]
fn interfaces_are_attached_and_removed() {
    let mut engine: Dumbarp<u32, u32> = Dumbarp::new();
    let mut a = engine
        .add_interface("eth0", ip(9), None, "02:00:00:00:00:01", "12", ByteOrder::Big)
        .unwrap();
    while a.stage != AddStage::Done {
        a.report(true);
    }
    engine.attach_done("eth0".to_string(), &a, 77, None);
    engine.attach_done("br0".to_string(), &a, 78, Some(1));
    assert_eq!(engine.attached_interfaces(), vec!["br0", "eth0"]);
    assert!(matches!(
        engine.add_interface("eth0", ip(9), None, "", "", ByteOrder::Big),
        Err(AddError::AlreadyAttached)
    ));
    let (gone, stage) = engine.remove_interface("eth0").unwrap();
    assert_eq!(gone.link_id, 77);
    assert_eq!(stage, RemoveStage::ClearArp);
    assert_eq!(stage.next(false), RemoveStage::DetachXdp);
    assert_eq!(stage.next(false).next(false), RemoveStage::Failed);
    assert!(engine.remove_interface("eth0").is_none());
    let (_, stage) = engine.remove_interface("br0").unwrap();
    assert_eq!(stage, RemoveStage::DetachEgress);
    assert_eq!(stage.next(true), RemoveStage::ClearDscp);
    assert_eq!(stage.next(true).next(true).next(true).next(true), RemoveStage::Done);
}

#[test]
fn interfaces_with_bad_files_are_not_attached() {
    let engine: Dumbarp<u32, u32> = Dumbarp::new();
    assert!(matches!(
        engine.add_interface("e", ip(9), None, "junk", "1", ByteOrder::Big),
        Err(AddError::BadMac(_))
    ));
    assert!(matches!(
        engine.add_interface("e", ip(9), None, "1:2:3:4:5:6", "one", ByteOrder::Big),
        Err(AddError::BadIfindex)
    ));
    assert_eq!(enabled_id(Some(0)), None);
    assert_eq!(enabled_id(Some(4)), Some(4));
    assert_eq!(enabled_id(None), None);
}

fn step(run: &mut DhcpRun, outcome: DhcpOutcome) -> DhcpAction {
    run.report(&outcome);
    run.due()
}

fn lease(last: u8) -> DhcpOutcome {
    DhcpOutcome::Lease {
        yiaddr: ip(last),
        gateways: Some(vec![ip(254), ip(253)]),
    }
}

#[test]
fn a_lease_is_attached_recorded_and_kept() {
    let mut run = DhcpRun::new();
    let info = LeaseInfo { ip: ip(1), gateway: ip(254) };
    assert_eq!(run.due(), DhcpAction::StartClient);
    assert_eq!(step(&mut run, DhcpOutcome::Done), DhcpAction::AwaitEvent);
    let bare = DhcpOutcome::Lease { yiaddr: ip(1), gateways: None };
    assert_eq!(step(&mut run, bare), DhcpAction::AwaitEvent);
    let empty = DhcpOutcome::Lease { yiaddr: ip(1), gateways: Some(vec![]) };
    assert_eq!(step(&mut run, empty), DhcpAction::AwaitEvent);
    assert_eq!(step(&mut run, lease(1)), DhcpAction::RemoveInterface);
    assert_eq!(step(&mut run, DhcpOutcome::Failed), DhcpAction::AddInterface(ip(1)));
    assert_eq!(step(&mut run, DhcpOutcome::Done), DhcpAction::RecordLease(info));
    assert_eq!(step(&mut run, DhcpOutcome::Done), DhcpAction::StartNeigh(info));
    assert_eq!(step(&mut run, DhcpOutcome::Done), DhcpAction::AwaitEvent);

    assert_eq!(step(&mut run, lease(1)), DhcpAction::RemoveInterface);
    assert_eq!(step(&mut run, DhcpOutcome::Done), DhcpAction::AddInterface(ip(1)));
    assert_eq!(step(&mut run, DhcpOutcome::Done), DhcpAction::RecordLease(info));
    assert_eq!(step(&mut run, DhcpOutcome::Done), DhcpAction::AbortNeigh);
    assert_eq!(step(&mut run, DhcpOutcome::Done), DhcpAction::StartNeigh(info));
    assert_eq!(step(&mut run, DhcpOutcome::Done), DhcpAction::AwaitEvent);

    assert_eq!(step(&mut run, DhcpOutcome::ClientError), DhcpAction::RemoveInterface);
    assert_eq!(step(&mut run, DhcpOutcome::Done), DhcpAction::ForgetLease);
    assert_eq!(step(&mut run, DhcpOutcome::Done), DhcpAction::AbortNeigh);
    assert_eq!(step(&mut run, DhcpOutcome::Done), DhcpAction::RemoveInterface);
    assert_eq!(step(&mut run, DhcpOutcome::Failed), DhcpAction::ForgetLease);
    assert_eq!(step(&mut run, DhcpOutcome::Done), DhcpAction::Sleep(5));
    assert_eq!(step(&mut run, DhcpOutcome::Done), DhcpAction::StartClient);
    assert_eq!(step(&mut run, DhcpOutcome::Failed), DhcpAction::Sleep(5));
}

#[test]
fn a_lease_that_cannot_be_attached_is_forgotten() {
    let mut run = DhcpRun::new();
    step(&mut run, DhcpOutcome::Done);
    step(&mut run, lease(1));
    step(&mut run, DhcpOutcome::Done);
    assert_eq!(step(&mut run, DhcpOutcome::Failed), DhcpAction::ForgetLease);
    assert_eq!(step(&mut run, DhcpOutcome::Done), DhcpAction::AwaitEvent);
    assert_eq!(step(&mut run, DhcpOutcome::ClientEnded), DhcpAction::RemoveInterface);
}

#[test]
fn leases_are_told_in_the_order_of_the_interfaces() {
    let mut app = AppState::new("t".to_string(), Some(7));
    app.leases.insert("wan1".to_string(), LeaseInfo { ip: ip(1), gateway: ip(254) });
    app.leases.insert("wan0".to_string(), LeaseInfo { ip: ip(2), gateway: ip(253) });
    assert_eq!(app.current_ips(), vec![ip(2), ip(1)]);
    let routes = app.current_routes();
    assert_eq!(routes[0].iface, "wan0");
    assert_eq!(routes[0].gateway, ip(253));
    assert_eq!(routes[0].fwmark, None);
    let answer = leases_handler(&app);
    assert_eq!(answer.ips, vec!["10.0.0.2", "10.0.0.1"]);
    assert_eq!(answer.dumbarpd_id, Some(7));
    let read = answer.parse("d").unwrap();
    assert_eq!(read.ips, app.current_ips());
    assert_eq!(healthz_handler(), "ok");
}

#[test]
fn a_gateway_routes_and_tells_what_it_has() {
    let daemons = vec![
        DaemonEntry {
            name: "a".to_string(),
            endpoint: "http://a/".to_string(),
            auth_token: "t".to_string(),
            nexthop: ip(1),
            device: "br0".to_string(),
        },
        DaemonEntry {
            name: "b".to_string(),
            endpoint: "http://b/".to_string(),
            auth_token: "t".to_string(),
            nexthop: ip(2),
            device: "br1".to_string(),
        },
    ];
    let mut state = GatewayState::new();
    let round = vec![
        ("a".to_string(), None),
        (
            "b".to_string(),
            Some(Leases { ips: vec![ip(7), ip(8)], dumbarpd_id: Some(2) }),
        ),
    ];
    let (stats, desired) = plan_round(&daemons, round, &mut state, 300, 0);
    assert_eq!(stats.dropped, 1);
    assert_eq!(desired.len(), 2);
    assert_eq!(desired[1].src, ip(8));
    assert_eq!(desired[1].gateway, ip(2));
    assert_eq!(desired[1].fwmark, None);

    let answer = daemons_handler(&daemons, &state.snapshot());
    assert_eq!(answer.daemons.len(), 1);
    let routes = answer.parse("gw").unwrap();
    assert_eq!(routes[0].name, "b");
    assert_eq!(routes[0].nexthop, ip(2));
    assert_eq!(routes[0].device, "br1");
    assert_eq!(routes[0].dumbarpd_id, Some(2));
    assert_eq!(routes[0].ips, vec![ip(7), ip(8)]);
}

#[test]
fn names_are_listed_in_order() {
    let mut map: NameMap<u8> = NameMap::new();
    for (i, name) in ["b", "a", "ab", "", "b", "\u{e9}", "c"].iter().enumerate() {
        map.insert(name.to_string(), i as u8);
    }
    let listed: Vec<String> = (0..map.len()).map(|i| map.name_at(i).clone()).collect();
    assert_eq!(listed, vec!["", "a", "ab", "b", "c", "\u{e9}"]);
    assert_eq!(map.get("b"), Some(&4));
    assert_eq!(map.remove("b"), Some(4));
    assert_eq!(map.remove("b"), None);
    map.retain(|v| *v > 1);
    assert_eq!(map.len(), 4);
    assert!(!map.contains("a"));
}
