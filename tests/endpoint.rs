use vitrellogy::misc::vec::Vec2;
use vitrellogy::net::imp::{
    Datagram, NetError, NetworkImp, Outgoing, PeerRecord, PORT_PREFIX, PORT_RANGE,
};
use vitrellogy::net::packet::{
    ConAcknowledgePacket, ConDeletePacket, ConHeartbeatPacket, ConNewPacket, ConRedirectPacket,
    ConRequestPacket, NetID, Packet, PeerAddr, TransformPacket,
};
use vitrellogy::net::NetworkEvent;

fn id(n: u32) -> NetID {
    NetID::new().init(n)
}

fn at(host: u8, port: u16) -> PeerAddr {
    PeerAddr { ip: u32::from_be_bytes([10, 0, 0, host]), port }
}

fn any_local(port: u16) -> PeerAddr {
    PeerAddr { ip: 0, port }
}

fn opened(port: u16, me: u32) -> NetworkImp {
    let mut imp = NetworkImp::new();
    imp.open_as(Some(any_local(port)), me).unwrap();
    imp
}

fn datagram(p: Packet, from: PeerAddr) -> Datagram {
    Datagram { bytes: p.into_bytes(), from }
}

#[test]
fn new_endpoint_is_closed() {
    let imp = NetworkImp::new();
    assert!(imp.socket.is_none());
    assert!(!imp.id.is_shared());
    assert!(!imp.host_id.is_shared());
    assert!(imp.peers.is_empty());
    assert!(!imp.connecting);
}

#[test]
fn open_twice_fails() {
    let mut imp = opened(PORT_PREFIX, 5);
    assert_eq!(imp.open_as(Some(any_local(PORT_PREFIX + 1)), 6), Err(NetError::AlreadyOpen));
    assert_eq!(imp.id, id(5));
    assert_eq!(imp.socket, Some(any_local(PORT_PREFIX)));
}

#[test]
fn open_without_port_fails() {
    let mut imp = NetworkImp::new();
    assert_eq!(imp.open(None), Err(NetError::NoAvailablePorts));
    assert!(imp.socket.is_none());
}

#[test]
fn open_assigns_random_identity() {
    let mut imp = NetworkImp::new();
    assert_eq!(imp.open(Some(any_local(PORT_PREFIX))), Ok(()));
    assert!(imp.id.is_shared());
    assert!(!imp.host_id.is_shared());
    assert!(!imp.connecting);
}

#[test]
fn connect_needs_open_socket() {
    let mut imp = NetworkImp::new();
    let mut out: Vec<Outgoing> = Vec::new();
    assert_eq!(imp.connect(&at(1, PORT_PREFIX), &mut out), Err(NetError::SocketClosed));
    assert!(out.is_empty());
}

#[test]
fn connect_scans_the_range() {
    let mut imp = opened(PORT_PREFIX, 1);
    let mut out: Vec<Outgoing> = Vec::new();
    assert_eq!(imp.connect(&at(2, 0), &mut out), Ok(()));
    assert!(imp.connecting);
    assert_eq!(out.len(), PORT_RANGE as usize);
    for (k, o) in out.iter().enumerate() {
        assert_eq!(o.packet, Packet::ConRequest(ConRequestPacket));
        assert_eq!(o.to, at(2, PORT_PREFIX + k as u16));
    }
}

#[test]
fn connect_skips_own_address() {
    let local = at(3, PORT_PREFIX + 4);
    let mut imp = NetworkImp::new();
    imp.open_as(Some(local), 9).unwrap();
    let mut out: Vec<Outgoing> = Vec::new();
    imp.connect(&at(3, 0), &mut out).unwrap();
    assert_eq!(out.len(), 9);
    assert!(out.iter().all(|o| o.to != local));
}

#[test]
fn close_is_idempotent() {
    let mut imp = opened(PORT_PREFIX, 1);
    imp.close();
    imp.close();
    assert!(imp.socket.is_none());
    assert!(!imp.id.is_shared());
    assert!(imp.peers.is_empty());
    assert!(!imp.connecting);
}

#[test]
fn closed_endpoint_ignores_traffic() {
    let mut imp = NetworkImp::new();
    let mut events = vec![NetworkEvent::PeerConnected(id(1))];
    let mut out: Vec<Outgoing> = Vec::new();
    let inbound = vec![datagram(Packet::ConRequest(ConRequestPacket), at(2, PORT_PREFIX))];
    imp.process_with(&inbound, 0, &vec![1], &mut events, &mut out);
    assert!(events.is_empty());
    assert!(out.is_empty());
    assert!(imp.peers.is_empty());
}

#[test]
fn host_admits_with_the_drawn_id() {
    let mut host = opened(PORT_PREFIX, 100);
    let mut events = Vec::new();
    let mut out = Vec::new();
    host.receive(Packet::ConRequest(ConRequestPacket), at(2, PORT_PREFIX), 10, 555, &mut events, &mut out);
    assert_eq!(events, vec![NetworkEvent::PeerConnected(id(555))]);
    assert_eq!(
        out,
        vec![Outgoing {
            packet: Packet::ConAcknowledge(ConAcknowledgePacket { origin_id: id(100), assigned_id: id(555) }),
            to: at(2, PORT_PREFIX),
        }]
    );
    assert_eq!(host.peers, vec![PeerRecord { id: id(555), addr: at(2, PORT_PREFIX), last_seen: 10 }]);
}

#[test]
fn colliding_draw_moves_to_next_free_id() {
    let mut host = opened(PORT_PREFIX, 100);
    let mut events = Vec::new();
    let mut out = Vec::new();
    host.receive(Packet::ConRequest(ConRequestPacket), at(2, PORT_PREFIX), 0, 101, &mut events, &mut out);
    host.receive(Packet::ConRequest(ConRequestPacket), at(3, PORT_PREFIX), 0, 100, &mut events, &mut out);
    assert_eq!(host.peers[0].id, id(101));
    assert_eq!(host.peers[1].id, id(102));
}

#[test]
fn fresh_id_wraps_around() {
    let host = opened(PORT_PREFIX, u32::MAX);
    assert_eq!(host.fresh_id(u32::MAX), 0);
    assert_eq!(host.fresh_id(8), 8);
}

#[test]
fn admission_introduces_existing_peers() {
    let mut host = opened(PORT_PREFIX, 1);
    let mut events = Vec::new();
    let mut out = Vec::new();
    host.receive(Packet::ConRequest(ConRequestPacket), at(2, PORT_PREFIX), 0, 20, &mut events, &mut out);
    out.clear();
    host.receive(Packet::ConRequest(ConRequestPacket), at(3, PORT_PREFIX), 0, 30, &mut events, &mut out);
    assert_eq!(
        out,
        vec![
            Outgoing {
                packet: Packet::ConAcknowledge(ConAcknowledgePacket { origin_id: id(1), assigned_id: id(30) }),
                to: at(3, PORT_PREFIX),
            },
            Outgoing {
                packet: Packet::ConNew(ConNewPacket { peer_id: id(20), socket: at(2, PORT_PREFIX) }),
                to: at(3, PORT_PREFIX),
            },
            Outgoing {
                packet: Packet::ConNew(ConNewPacket { peer_id: id(30), socket: at(3, PORT_PREFIX) }),
                to: at(2, PORT_PREFIX),
            },
        ]
    );
}

#[test]
fn duplicate_request_admits_once() {
    let mut host = opened(PORT_PREFIX, 1);
    let mut events = Vec::new();
    let mut out = Vec::new();
    let inbound = vec![
        datagram(Packet::ConRequest(ConRequestPacket), at(2, PORT_PREFIX)),
        datagram(Packet::ConRequest(ConRequestPacket), at(2, PORT_PREFIX)),
    ];
    host.process_with(&inbound, 0, &vec![7, 8], &mut events, &mut out);
    assert_eq!(host.peers.len(), 1);
    assert_eq!(events, vec![NetworkEvent::PeerConnected(id(7))]);
}

#[test]
fn connecting_endpoint_ignores_requests() {
    let mut imp = opened(PORT_PREFIX, 1);
    let mut out = Vec::new();
    imp.connect(&at(1, 0), &mut out).unwrap();
    let mut events = Vec::new();
    out.clear();
    imp.receive(Packet::ConRequest(ConRequestPacket), any_local(PORT_PREFIX), 0, 3, &mut events, &mut out);
    assert!(events.is_empty());
    assert!(out.is_empty());
    assert!(imp.peers.is_empty());
}

#[test]
fn acknowledge_adopts_identity_and_host() {
    let mut imp = opened(PORT_PREFIX, 1);
    let mut out = Vec::new();
    imp.connect(&at(2, 0), &mut out).unwrap();
    let mut events = Vec::new();
    let ack = Packet::ConAcknowledge(ConAcknowledgePacket { origin_id: id(50), assigned_id: id(60) });
    imp.receive(ack, at(2, PORT_PREFIX), 4, 0, &mut events, &mut out);
    assert_eq!(imp.id, id(60));
    assert_eq!(imp.host_id, id(50));
    assert!(!imp.connecting);
    assert_eq!(events, vec![NetworkEvent::PeerConnected(id(50))]);
    // a second acknowledgement is ignored
    imp.receive(ack, at(2, PORT_PREFIX), 5, 0, &mut events, &mut out);
    assert_eq!(events.len(), 1);
    assert_eq!(imp.peers.len(), 1);
}

#[test]
fn unsolicited_acknowledge_is_ignored() {
    let mut imp = opened(PORT_PREFIX, 1);
    let mut events = Vec::new();
    let mut out = Vec::new();
    let ack = Packet::ConAcknowledge(ConAcknowledgePacket { origin_id: id(50), assigned_id: id(60) });
    imp.receive(ack, at(2, PORT_PREFIX), 4, 0, &mut events, &mut out);
    assert_eq!(imp.id, id(1));
    assert!(!imp.host_id.is_shared());
    assert!(events.is_empty());
}

fn subordinate() -> NetworkImp {
    let mut imp = opened(PORT_PREFIX, 1);
    let mut out = Vec::new();
    let mut events = Vec::new();
    imp.connect(&at(2, 0), &mut out).unwrap();
    let ack = Packet::ConAcknowledge(ConAcknowledgePacket { origin_id: id(50), assigned_id: id(60) });
    imp.receive(ack, at(2, PORT_PREFIX), 0, 0, &mut events, &mut out);
    imp
}

#[test]
fn subordinate_redirects_requests_to_host() {
    let mut imp = subordinate();
    let mut events = Vec::new();
    let mut out = Vec::new();
    imp.receive(Packet::ConRequest(ConRequestPacket), at(9, PORT_PREFIX), 0, 0, &mut events, &mut out);
    assert_eq!(
        out,
        vec![Outgoing {
            packet: Packet::ConRedirect(ConRedirectPacket { host_socket: at(2, PORT_PREFIX) }),
            to: at(9, PORT_PREFIX),
        }]
    );
    assert!(events.is_empty());
    assert_eq!(imp.peers.len(), 1);
}

#[test]
fn redirect_restarts_scan_at_host() {
    let mut imp = opened(PORT_PREFIX, 1);
    let mut out = Vec::new();
    imp.connect(&at(2, 0), &mut out).unwrap();
    out.clear();
    let mut events = Vec::new();
    let redirect = Packet::ConRedirect(ConRedirectPacket { host_socket: at(7, PORT_PREFIX + 3) });
    imp.receive(redirect, at(2, PORT_PREFIX), 0, 0, &mut events, &mut out);
    assert_eq!(out.len(), PORT_RANGE as usize);
    assert!(out.iter().all(|o| o.to.ip == at(7, 0).ip && o.packet == Packet::ConRequest(ConRequestPacket)));
}

#[test]
fn host_ignores_mesh_introductions_and_deletes() {
    let mut host = opened(PORT_PREFIX, 1);
    let mut events = Vec::new();
    let mut out = Vec::new();
    host.receive(Packet::ConRequest(ConRequestPacket), at(2, PORT_PREFIX), 0, 2, &mut events, &mut out);
    events.clear();
    host.receive(Packet::ConNew(ConNewPacket { peer_id: id(9), socket: at(9, 1) }), at(2, PORT_PREFIX), 0, 0, &mut events, &mut out);
    host.receive(Packet::ConDelete(ConDeletePacket { peer_id: id(2) }), at(2, PORT_PREFIX), 0, 0, &mut events, &mut out);
    assert!(events.is_empty());
    assert_eq!(host.peers.len(), 1);
}

#[test]
fn subordinate_accepts_introductions_and_deletes() {
    let mut imp = subordinate();
    let mut events = Vec::new();
    let mut out = Vec::new();
    imp.receive(Packet::ConNew(ConNewPacket { peer_id: id(70), socket: at(7, PORT_PREFIX) }), at(2, PORT_PREFIX), 3, 0, &mut events, &mut out);
    assert_eq!(imp.peers.len(), 2);
    imp.receive(Packet::ConDelete(ConDeletePacket { peer_id: id(70) }), at(2, PORT_PREFIX), 3, 0, &mut events, &mut out);
    assert_eq!(imp.peers.len(), 1);
    assert_eq!(events, vec![NetworkEvent::PeerConnected(id(70)), NetworkEvent::PeerDisconnected(id(70))]);
}

#[test]
fn heartbeat_refreshes_last_seen() {
    let mut host = opened(PORT_PREFIX, 1);
    let mut events = Vec::new();
    let mut out = Vec::new();
    host.receive(Packet::ConRequest(ConRequestPacket), at(2, PORT_PREFIX), 0, 2, &mut events, &mut out);
    host.receive(Packet::ConHeartbeat(ConHeartbeatPacket { origin_id: id(2) }), at(2, PORT_PREFIX), 1500, 0, &mut events, &mut out);
    assert_eq!(host.peers[0].last_seen, 1500);
    host.receive(Packet::ConHeartbeat(ConHeartbeatPacket { origin_id: id(3) }), at(3, PORT_PREFIX), 1600, 0, &mut events, &mut out);
    assert_eq!(host.peers.len(), 1);
    assert_eq!(host.peers[0].last_seen, 1500);
}

#[test]
fn transform_becomes_move_event() {
    let mut imp = opened(PORT_PREFIX, 1);
    let mut events = Vec::new();
    let mut out = Vec::new();
    let pos = Vec2::new(1, 2);
    imp.receive(Packet::Transform(TransformPacket { origin_id: id(4), pos }), at(4, PORT_PREFIX), 0, 0, &mut events, &mut out);
    assert_eq!(events, vec![NetworkEvent::PeerMoved(id(4), pos)]);
    assert!(imp.peers.is_empty());
}

#[test]
fn sweep_heartbeats_live_peers() {
    let mut host = opened(PORT_PREFIX, 1);
    let mut events = Vec::new();
    let mut out = Vec::new();
    host.receive(Packet::ConRequest(ConRequestPacket), at(2, PORT_PREFIX), 0, 2, &mut events, &mut out);
    events.clear();
    out.clear();
    host.sweep(1999, &mut events, &mut out);
    assert!(events.is_empty());
    assert_eq!(
        out,
        vec![Outgoing { packet: Packet::ConHeartbeat(ConHeartbeatPacket { origin_id: id(1) }), to: at(2, PORT_PREFIX) }]
    );
}

#[test]
fn host_evicts_at_timeout() {
    let mut host = opened(PORT_PREFIX, 1);
    let mut events = Vec::new();
    let mut out = Vec::new();
    host.receive(Packet::ConRequest(ConRequestPacket), at(2, PORT_PREFIX), 0, 2, &mut events, &mut out);
    host.receive(Packet::ConRequest(ConRequestPacket), at(3, PORT_PREFIX), 1000, 3, &mut events, &mut out);
    events.clear();
    out.clear();
    host.sweep(2000, &mut events, &mut out);
    assert_eq!(events, vec![NetworkEvent::PeerDisconnected(id(2))]);
    assert_eq!(host.peers.len(), 1);
    assert_eq!(host.peers[0].id, id(3));
    assert_eq!(
        out,
        vec![
            Outgoing { packet: Packet::ConDelete(ConDeletePacket { peer_id: id(2) }), to: at(3, PORT_PREFIX) },
            Outgoing { packet: Packet::ConHeartbeat(ConHeartbeatPacket { origin_id: id(1) }), to: at(3, PORT_PREFIX) },
        ]
    );
}

#[test]
fn subordinate_never_evicts() {
    let mut imp = subordinate();
    let mut events = Vec::new();
    let mut out = Vec::new();
    imp.sweep(1_000_000, &mut events, &mut out);
    assert_eq!(imp.peers.len(), 1);
    assert!(events.is_empty());
    assert!(out.is_empty());
}

#[test]
fn oversized_datagram_is_dropped() {
    let mut host = opened(PORT_PREFIX, 1);
    let mut events = Vec::new();
    let mut out = Vec::new();
    let mut bytes = vec![1u8];
    bytes.resize(33, 0);
    host.process_with(&vec![Datagram { bytes, from: at(2, PORT_PREFIX) }], 0, &vec![5], &mut events, &mut out);
    assert!(host.peers.is_empty());
    assert!(events.is_empty());
}

#[test]
fn process_clears_events_first() {
    let mut host = opened(PORT_PREFIX, 1);
    let mut events = vec![NetworkEvent::PeerDisconnected(id(8))];
    let mut out = Vec::new();
    host.process(&Vec::new(), 0, &mut events, &mut out);
    assert!(events.is_empty());
}

#[test]
fn broadcast_reaches_every_peer() {
    let mut host = opened(PORT_PREFIX, 1);
    let mut events = Vec::new();
    let mut out = Vec::new();
    host.receive(Packet::ConRequest(ConRequestPacket), at(2, PORT_PREFIX), 0, 2, &mut events, &mut out);
    host.receive(Packet::ConRequest(ConRequestPacket), at(3, PORT_PREFIX), 0, 3, &mut events, &mut out);
    out.clear();
    host.broadcast(Packet::ConRequest(ConRequestPacket), &mut out);
    let to: Vec<PeerAddr> = out.iter().map(|o| o.to).collect();
    assert_eq!(to, vec![at(2, PORT_PREFIX), at(3, PORT_PREFIX)]);
}

#[test]
fn delete_from_non_host_is_ignored() {
    let mut imp = subordinate();
    let mut events = Vec::new();
    let mut out = Vec::new();
    imp.receive(Packet::ConNew(ConNewPacket { peer_id: id(70), socket: at(7, PORT_PREFIX) }), at(2, PORT_PREFIX), 3, 0, &mut events, &mut out);
    events.clear();
    imp.receive(Packet::ConDelete(ConDeletePacket { peer_id: id(70) }), at(7, PORT_PREFIX), 3, 0, &mut events, &mut out);
    imp.receive(Packet::ConDelete(ConDeletePacket { peer_id: id(50) }), at(9, PORT_PREFIX), 3, 0, &mut events, &mut out);
    assert_eq!(imp.peers.len(), 2);
    assert!(events.is_empty());
}
