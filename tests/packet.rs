use vitrellogy::misc::vec::Vec2;
use vitrellogy::net::packet::{
    ConAcknowledgePacket, ConDeletePacket, ConHeartbeatPacket, ConNewPacket, ConRedirectPacket,
    ConRequestPacket, NetID, Packet, PeerAddr, TransformPacket, PACKET_LENGTH,
};

fn id(n: u32) -> NetID {
    NetID::new().init(n)
}

fn addr(a: u8, b: u8, c: u8, d: u8, port: u16) -> PeerAddr {
    PeerAddr { ip: u32::from_be_bytes([a, b, c, d]), port }
}

fn every_variant() -> Vec<Packet> {
    vec![
        Packet::Empty,
        Packet::ConRequest(ConRequestPacket),
        Packet::ConAcknowledge(ConAcknowledgePacket { origin_id: id(0xdeadbeef), assigned_id: id(7) }),
        Packet::ConNew(ConNewPacket { peer_id: id(42), socket: addr(192, 168, 1, 2, 20203) }),
        Packet::ConDelete(ConDeletePacket { peer_id: id(u32::MAX) }),
        Packet::ConRedirect(ConRedirectPacket { host_socket: addr(10, 0, 0, 1, 65535) }),
        Packet::ConHeartbeat(ConHeartbeatPacket { origin_id: id(0) }),
        Packet::Transform(TransformPacket {
            origin_id: id(99),
            pos: Vec2::new(3.0f32.to_bits(), (-4.5f32).to_bits()),
        }),
    ]
}

#[test]
fn round_trip_every_variant() {
    for p in every_variant() {
        let bytes = p.into_bytes();
        assert!(bytes.len() <= PACKET_LENGTH);
        assert_eq!(Packet::from_bytes(bytes), p);
    }
}

#[test]
fn encodes_acknowledge_little_endian() {
    let p = Packet::ConAcknowledge(ConAcknowledgePacket { origin_id: id(0x01020304), assigned_id: id(5) });
    assert_eq!(p.into_bytes(), vec![2, 4, 3, 2, 1, 5, 0, 0, 0]);
}

#[test]
fn encodes_new_with_octets_then_port() {
    let p = Packet::ConNew(ConNewPacket { peer_id: id(7), socket: addr(192, 168, 1, 2, 20200) });
    assert_eq!(p.into_bytes(), vec![3, 7, 0, 0, 0, 192, 168, 1, 2, 0xE8, 0x4E]);
}

#[test]
fn encodes_short_variants() {
    assert_eq!(Packet::Empty.into_bytes(), vec![0]);
    assert_eq!(Packet::ConRequest(ConRequestPacket).into_bytes(), vec![1]);
    assert_eq!(Packet::ConDelete(ConDeletePacket { peer_id: id(0x0A0B0C0D) }).into_bytes(), vec![4, 0x0D, 0x0C, 0x0B, 0x0A]);
    assert_eq!(
        Packet::ConRedirect(ConRedirectPacket { host_socket: addr(127, 0, 0, 1, 258) }).into_bytes(),
        vec![5, 127, 0, 0, 1, 2, 1]
    );
    assert_eq!(Packet::ConHeartbeat(ConHeartbeatPacket { origin_id: id(256) }).into_bytes(), vec![6, 0, 1, 0, 0]);
}

#[test]
fn encodes_transform_bits() {
    let p = Packet::Transform(TransformPacket { origin_id: id(1), pos: Vec2::new(1.0f32.to_bits(), 0) });
    assert_eq!(p.into_bytes(), vec![7, 1, 0, 0, 0, 0, 0, 0x80, 0x3F, 0, 0, 0, 0]);
}

#[test]
fn unassigned_id_goes_out_as_zero() {
    let p = Packet::ConDelete(ConDeletePacket { peer_id: NetID::new() });
    assert_eq!(p.into_bytes(), vec![4, 0, 0, 0, 0]);
    assert_eq!(Packet::from_bytes(p.into_bytes()), Packet::ConDelete(ConDeletePacket { peer_id: id(0) }));
}

#[test]
fn empty_buffer_is_empty() {
    assert_eq!(Packet::from_bytes(vec![]), Packet::Empty);
}

#[test]
fn unknown_tag_is_empty() {
    assert_eq!(Packet::from_bytes(vec![8, 1, 2, 3, 4]), Packet::Empty);
    assert_eq!(Packet::from_bytes(vec![255; 32]), Packet::Empty);
}

#[test]
fn truncated_buffers_are_empty() {
    for p in every_variant() {
        let bytes = p.into_bytes();
        for n in 1..bytes.len() {
            assert_eq!(Packet::from_bytes(bytes[..n].to_vec()), Packet::Empty, "prefix {} of {:?}", n, p);
        }
    }
}

#[test]
fn trailing_bytes_are_ignored() {
    let mut bytes = Packet::ConHeartbeat(ConHeartbeatPacket { origin_id: id(3) }).into_bytes();
    bytes.extend_from_slice(&[9, 9, 9]);
    assert_eq!(Packet::from_bytes(bytes), Packet::ConHeartbeat(ConHeartbeatPacket { origin_id: id(3) }));
}

#[test]
fn net_id_states() {
    let none = NetID::new();
    assert!(!none.is_shared());
    assert_eq!(none.value(), 0);
    let some = none.init(0);
    assert!(some.is_shared());
    assert_eq!(some.value(), 0);
    assert_ne!(none, some);
    assert_eq!(id(17), id(17));
}

#[test]
fn net_id_bytes() {
    assert_eq!(id(0x11223344).to_bytes(), [0x44, 0x33, 0x22, 0x11]);
    assert_eq!(NetID::new().to_bytes(), [0, 0, 0, 0]);
    assert_eq!(NetID::from_bytes(&[0x44, 0x33, 0x22, 0x11]), id(0x11223344));
    assert!(NetID::from_bytes(&[0, 0, 0, 0]).is_shared());
}
