use vitrellogy::misc::vec::Vec2;
use vitrellogy::net::imp::{Datagram, Outgoing, PORT_PREFIX};
use vitrellogy::net::packet::{ConDeletePacket, ConRedirectPacket, NetID, Packet, PeerAddr};
use vitrellogy::net::{NetworkEvent, NetworkRequest, NetworkSyncSys};

struct Node {
    sys: NetworkSyncSys,
    addr: PeerAddr,
    events: Vec<NetworkEvent>,
    out: Vec<Outgoing>,
}

fn node(host: u8) -> Node {
    let mut sys = NetworkSyncSys::new();
    let mut out = Vec::new();
    sys.request(NetworkRequest::Open, Some(PeerAddr { ip: 0, port: PORT_PREFIX }), &mut out).unwrap();
    Node { sys, addr: PeerAddr { ip: u32::from_be_bytes([10, 0, 0, host]), port: PORT_PREFIX }, events: Vec::new(), out }
}

/// Takes what `from` has queued for `to` and hands it over as datagrams.
fn route(from: &mut Node, to: &Node) -> Vec<Datagram> {
    let mut mail = Vec::new();
    let mut rest = Vec::new();
    for o in from.out.drain(..) {
        if o.to == to.addr {
            mail.push(Datagram { bytes: o.packet.into_bytes(), from: from.addr });
        } else {
            rest.push(o);
        }
    }
    from.out = rest;
    mail
}

fn tick(n: &mut Node, inbound: Vec<Datagram>, now: u64, masters: Vec<Vec2<u32>>) {
    n.sys.run(&inbound, now, &masters, &mut n.events, &mut n.out);
}

fn connected(events: &[NetworkEvent]) -> Vec<NetID> {
    events
        .iter()
        .filter_map(|e| match e {
            NetworkEvent::PeerConnected(id) => Some(*id),
            _ => None,
        })
        .collect()
}

/// A hosts; B joins A directly.
fn pair() -> (Node, Node) {
    let mut a = node(1);
    let mut b = node(2);
    let target = a.addr;
    b.sys.request(NetworkRequest::Connect(target), None, &mut b.out).unwrap();
    let mail = route(&mut b, &a);
    assert_eq!(mail.len(), 1);
    b.out.clear();
    tick(&mut a, mail, 0, vec![]);
    let mail = route(&mut a, &b);
    tick(&mut b, mail, 0, vec![]);
    (a, b)
}

/// A hosts, B joined A, C asks B and is sent on to A.
fn trio() -> (Node, Node, Node) {
    let (mut a, mut b) = pair();
    let mut c = node(3);
    let target = b.addr;
    c.sys.request(NetworkRequest::Connect(target), None, &mut c.out).unwrap();
    let mail = route(&mut c, &b);
    c.out.clear();
    tick(&mut b, mail, 0, vec![]);
    let mail = route(&mut b, &c);
    b.out.clear();
    assert!(mail.iter().any(|d| Packet::from_bytes(d.bytes.clone())
        == Packet::ConRedirect(ConRedirectPacket { host_socket: a.addr })));
    tick(&mut c, mail, 0, vec![]);
    let mail = route(&mut c, &a);
    c.out.clear();
    tick(&mut a, mail, 0, vec![]);
    let to_c = route(&mut a, &c);
    let to_b = route(&mut a, &b);
    tick(&mut c, to_c, 0, vec![]);
    let c_events = c.events.clone();
    tick(&mut b, to_b, 0, vec![]);
    c.events = c_events;
    (a, b, c)
}

#[test]
fn host_admits_first_peer() {
    let mut a = node(1);
    let mut b = node(2);
    let target = a.addr;
    b.sys.request(NetworkRequest::Connect(target), None, &mut b.out).unwrap();
    let mail = route(&mut b, &a);
    b.out.clear();
    tick(&mut a, mail, 0, vec![]);
    let a_joined = connected(&a.events);
    assert_eq!(a_joined.len(), 1);
    assert_ne!(a_joined[0], a.sys.imp.id);
    let mail = route(&mut a, &b);
    tick(&mut b, mail, 0, vec![]);
    assert_eq!(connected(&b.events), vec![a.sys.imp.id]);
    assert_eq!(b.sys.imp.id, a_joined[0]);
    assert_eq!(b.sys.imp.host_id, a.sys.imp.id);
    assert!(!a.sys.imp.host_id.is_shared());
}

#[test]
fn redirected_peer_joins_mesh() {
    let (a, b, c) = trio();
    let addrs = |n: &Node| n.sys.imp.peers.iter().map(|r| r.addr).collect::<Vec<PeerAddr>>();
    assert_eq!(addrs(&a), vec![b.addr, c.addr]);
    assert_eq!(addrs(&b), vec![a.addr, c.addr]);
    assert_eq!(addrs(&c), vec![a.addr, b.addr]);
    assert_eq!(c.sys.imp.host_id, a.sys.imp.id);
    assert_eq!(connected(&c.events), vec![a.sys.imp.id, b.sys.imp.id]);
    let ids = [a.sys.imp.id, b.sys.imp.id, c.sys.imp.id];
    assert!(ids[0] != ids[1] && ids[0] != ids[2] && ids[1] != ids[2]);
}

#[test]
fn silent_peer_is_evicted() {
    let (mut a, mut b, mut c) = trio();
    let b_id = b.sys.imp.id;
    b.out.clear();
    tick(&mut c, vec![], 1500, vec![]);
    let mail = route(&mut c, &a);
    tick(&mut a, mail, 2500, vec![]);
    assert_eq!(a.events, vec![NetworkEvent::PeerDisconnected(b_id)]);
    assert_eq!(a.sys.imp.peers.len(), 1);
    let mail = route(&mut a, &c);
    assert!(mail.iter().any(|d| Packet::from_bytes(d.bytes.clone())
        == Packet::ConDelete(ConDeletePacket { peer_id: b_id })));
    tick(&mut c, mail, 2500, vec![]);
    assert!(c.events.contains(&NetworkEvent::PeerDisconnected(b_id)));
    assert!(c.sys.imp.peers.iter().all(|r| r.id != b_id));
    assert!(c.sys.proxies.iter().all(|p| p.origin != b_id));
}

#[test]
fn authoritative_position_reaches_proxies() {
    let (mut a, mut b, mut c) = trio();
    let a_id = a.sys.imp.id;
    tick(&mut a, vec![], 100, vec![Vec2::new(3.0f32.to_bits(), 4.0f32.to_bits())]);
    let to_b = route(&mut a, &b);
    let to_c = route(&mut a, &c);
    tick(&mut b, to_b, 100, vec![]);
    tick(&mut c, to_c, 100, vec![]);
    for n in [&b, &c] {
        let proxy = n.sys.proxies.iter().find(|p| p.origin == a_id).unwrap();
        assert_eq!(f32::from_bits(proxy.pos.x), 3.0);
        assert_eq!(f32::from_bits(proxy.pos.y), 4.0);
    }
}

#[test]
fn proxies_follow_events() {
    let mut sys = NetworkSyncSys::new();
    let one = NetID::new().init(1);
    let two = NetID::new().init(2);
    sys.apply_events(&vec![
        NetworkEvent::PeerConnected(one),
        NetworkEvent::PeerConnected(two),
        NetworkEvent::PeerMoved(two, Vec2::new(5, 6)),
        NetworkEvent::PeerDisconnected(one),
    ]);
    assert_eq!(sys.proxies.len(), 1);
    assert_eq!(sys.proxies[0].origin, two);
    assert_eq!(sys.proxies[0].pos, Vec2::new(5, 6));
}

#[test]
fn close_request_drops_proxies() {
    let mut sys = NetworkSyncSys::new();
    let mut out = Vec::new();
    sys.request(NetworkRequest::Open, Some(PeerAddr { ip: 0, port: PORT_PREFIX }), &mut out).unwrap();
    sys.apply_events(&vec![NetworkEvent::PeerConnected(NetID::new().init(1))]);
    assert_eq!(sys.request(NetworkRequest::Close, None, &mut out), Ok(()));
    assert!(sys.proxies.is_empty());
    assert!(sys.imp.socket.is_none());
}

#[test]
fn connect_request_on_closed_endpoint_fails() {
    let mut sys = NetworkSyncSys::new();
    let mut out = Vec::new();
    let r = sys.request(NetworkRequest::Connect(PeerAddr { ip: 1, port: PORT_PREFIX }), None, &mut out);
    assert!(r.is_err());
    assert!(out.is_empty());
}
