use vstd::prelude::*;

use crate::misc::vec::Vec2;

verus! {

/// Every encoded packet fits in a datagram of this many bytes.
pub const PACKET_LENGTH: usize = 32;

// ---------------------------------------------------------------------------
// Fixed-width integers on the wire
// ---------------------------------------------------------------------------

/// The two little-endian bytes of `x`.
pub open spec fn le16(x: u16) -> Seq<u8> {
    seq![(x % 256) as u8, (x / 256) as u8]
}

/// The four little-endian bytes of `x`.
pub open spec fn le32(x: u32) -> Seq<u8> {
    seq![
        (x % 256) as u8,
        ((x / 256) % 256) as u8,
        ((x / 65536) % 256) as u8,
        (x / 16777216) as u8,
    ]
}

/// The four bytes of an IPv4 address held as a number, most significant
/// (the first octet) first.
pub open spec fn octets(ip: u32) -> Seq<u8> {
    seq![
        (ip / 16777216) as u8,
        ((ip / 65536) % 256) as u8,
        ((ip / 256) % 256) as u8,
        (ip % 256) as u8,
    ]
}

/// The little-endian `u16` that starts at byte `i` of `b`.
pub open spec fn u16_at(b: Seq<u8>, i: int) -> u16 {
    (b[i] + 256 * b[i + 1]) as u16
}

/// The little-endian `u32` that starts at byte `i` of `b`.
pub open spec fn u32_at(b: Seq<u8>, i: int) -> u32 {
    (b[i] + 256 * b[i + 1] + 65536 * b[i + 2] + 16777216 * b[i + 3]) as u32
}

/// The IPv4 address whose octets start at byte `i` of `b`.
pub open spec fn ip_at(b: Seq<u8>, i: int) -> u32 {
    (16777216 * b[i] + 65536 * b[i + 1] + 256 * b[i + 2] + b[i + 3]) as u32
}

proof fn lemma_u16_round_trip(x: u16)
    ensures
        le16(x).len() == 2,
        u16_at(le16(x), 0) == x,
{
}

proof fn lemma_u32_round_trip(x: u32)
    ensures
        le32(x).len() == 4,
        u32_at(le32(x), 0) == x,
        octets(x).len() == 4,
        ip_at(octets(x), 0) == x,
{
}

fn push_u16(buf: &mut Vec<u8>, x: u16)
    ensures
        final(buf)@ == old(buf)@ + le16(x),
{
    buf.push((x % 256) as u8);
    buf.push((x / 256) as u8);
    assert(final(buf)@ =~= old(buf)@ + le16(x));
}

fn push_u32(buf: &mut Vec<u8>, x: u32)
    ensures
        final(buf)@ == old(buf)@ + le32(x),
{
    buf.push((x % 256) as u8);
    buf.push(((x / 256) % 256) as u8);
    buf.push(((x / 65536) % 256) as u8);
    buf.push((x / 16777216) as u8);
    assert(final(buf)@ =~= old(buf)@ + le32(x));
}

fn push_octets(buf: &mut Vec<u8>, ip: u32)
    ensures
        final(buf)@ == old(buf)@ + octets(ip),
{
    buf.push((ip / 16777216) as u8);
    buf.push(((ip / 65536) % 256) as u8);
    buf.push(((ip / 256) % 256) as u8);
    buf.push((ip % 256) as u8);
    assert(final(buf)@ =~= old(buf)@ + octets(ip));
}

fn read_u16(b: &[u8], i: usize) -> (r: u16)
    requires
        i + 2 <= b@.len(),
    ensures
        r == u16_at(b@, i as int),
{
    (b[i] as u16) + 256 * (b[i + 1] as u16)
}

fn read_u32(b: &[u8], i: usize) -> (r: u32)
    requires
        i + 4 <= b@.len(),
    ensures
        r == u32_at(b@, i as int),
{
    (b[i] as u32) + 256 * (b[i + 1] as u32) + 65536 * (b[i + 2] as u32) + 16777216 * (
    b[i + 3] as u32)
}

fn read_ip(b: &[u8], i: usize) -> (r: u32)
    requires
        i + 4 <= b@.len(),
    ensures
        r == ip_at(b@, i as int),
{
    16777216 * (b[i] as u32) + 65536 * (b[i + 1] as u32) + 256 * (b[i + 2] as u32) + (b[i
        + 3] as u32)
}

// ---------------------------------------------------------------------------
// Peer identity
// ---------------------------------------------------------------------------

/// A 32-bit peer identifier, or the unassigned tag ("nobody").
///
/// On the wire and in diagnostics the unassigned tag reads as `0`, but it is
/// a state of its own and never the number `0`.
#[derive(Copy, Clone, Debug, Default, PartialEq, Eq, Structural, Hash)]
pub struct NetID(pub Option<u32>);

impl NetID {
    /// The number that stands for this id on the wire: `0` when unassigned.
    pub open spec fn wire_value(self) -> u32 {
        match self.0 {
            Some(v) => v,
            None => 0,
        }
    }

    /// The unassigned id.
    pub fn new() -> (r: Self)
        ensures
            r.0 == None::<u32>,
    {
        Self(None)
    }

    /// The id assigned the number `id`.
    pub fn init(self, id: u32) -> (r: Self)
        ensures
            r.0 == Some(id),
    {
        Self(Some(id))
    }

    /// Whether an identity has been assigned.
    pub fn is_shared(&self) -> (r: bool)
        ensures
            r == self.0.is_some(),
    {
        self.0.is_some()
    }

    /// The number this id stands for (`0` when unassigned).
    pub fn value(&self) -> (r: u32)
        ensures
            r == self.wire_value(),
    {
        match self.0 {
            Some(v) => v,
            None => 0,
        }
    }

    /// Reads an id from exactly four little-endian bytes; the result is
    /// always assigned.
    pub fn from_bytes(bytes: &[u8]) -> (r: Self)
        requires
            bytes@.len() == 4,
        ensures
            r.0 == Some(u32_at(bytes@, 0)),
    {
        NetID::new().init(read_u32(bytes, 0))
    }

    /// The four little-endian bytes of the id's wire value.
    pub fn to_bytes(self) -> (r: [u8; 4])
        ensures
            r@ == le32(self.wire_value()),
    {
        let x = self.value();
        let r = [(x % 256) as u8, ((x / 256) % 256) as u8, ((x / 65536) % 256) as u8, (x
            / 16777216) as u8];
        assert(r@ =~= le32(self.wire_value()));
        r
    }
}

// ---------------------------------------------------------------------------
// Addresses and packets
// ---------------------------------------------------------------------------

/// An IPv4 socket address: the address as a number (first octet most
/// significant) and a port.
#[derive(Copy, Clone, Debug, PartialEq, Eq, Structural, Hash)]
pub struct PeerAddr {
    pub ip: u32,
    pub port: u16,
}

#[derive(Copy, Clone, Debug, PartialEq, Eq, Structural)]
pub struct ConRequestPacket;

#[derive(Copy, Clone, Debug, PartialEq, Eq, Structural)]
pub struct ConAcknowledgePacket {
    pub origin_id: NetID,
    pub assigned_id: NetID,
}

#[derive(Copy, Clone, Debug, PartialEq, Eq, Structural)]
pub struct ConNewPacket {
    pub peer_id: NetID,
    pub socket: PeerAddr,
}

#[derive(Copy, Clone, Debug, PartialEq, Eq, Structural)]
pub struct ConRedirectPacket {
    pub host_socket: PeerAddr,
}

#[derive(Copy, Clone, Debug, PartialEq, Eq, Structural)]
pub struct ConDeletePacket {
    pub peer_id: NetID,
}

#[derive(Copy, Clone, Debug, PartialEq, Eq, Structural)]
pub struct ConHeartbeatPacket {
    pub origin_id: NetID,
}

/// A position update. Each coordinate is the bit pattern of an IEEE-754
/// single-precision number, carried unchanged.
#[derive(Copy, Clone, Debug, PartialEq, Eq, Structural)]
pub struct TransformPacket {
    pub origin_id: NetID,
    pub pos: Vec2<u32>,
}

/// The closed set of messages of the protocol.
#[derive(Copy, Clone, Debug, PartialEq, Eq, Structural)]
pub enum Packet {
    Empty,
    ConRequest(ConRequestPacket),
    ConAcknowledge(ConAcknowledgePacket),
    ConNew(ConNewPacket),
    ConDelete(ConDeletePacket),
    ConRedirect(ConRedirectPacket),
    ConHeartbeat(ConHeartbeatPacket),
    Transform(TransformPacket),
}

/// The bytes of an id on the wire.
pub open spec fn id_bytes(id: NetID) -> Seq<u8> {
    le32(id.wire_value())
}

/// The bytes of an address on the wire: the four octets, then the port.
pub open spec fn addr_bytes(a: PeerAddr) -> Seq<u8> {
    octets(a.ip) + le16(a.port)
}

/// The id that starts at byte `i` of `b`.
pub open spec fn id_at(b: Seq<u8>, i: int) -> NetID {
    NetID(Some(u32_at(b, i)))
}

/// The address that starts at byte `i` of `b`.
pub open spec fn addr_at(b: Seq<u8>, i: int) -> PeerAddr {
    PeerAddr { ip: ip_at(b, i), port: u16_at(b, i + 4) }
}

/// The encoding of a packet: a tag byte, then the payload fields in order.
pub open spec fn wire(p: Packet) -> Seq<u8> {
    match p {
        Packet::Empty => seq![0u8],
        Packet::ConRequest(_) => seq![1u8],
        Packet::ConAcknowledge(q) => seq![2u8] + id_bytes(q.origin_id) + id_bytes(q.assigned_id),
        Packet::ConNew(q) => seq![3u8] + id_bytes(q.peer_id) + addr_bytes(q.socket),
        Packet::ConDelete(q) => seq![4u8] + id_bytes(q.peer_id),
        Packet::ConRedirect(q) => seq![5u8] + addr_bytes(q.host_socket),
        Packet::ConHeartbeat(q) => seq![6u8] + id_bytes(q.origin_id),
        Packet::Transform(q) => seq![7u8] + id_bytes(q.origin_id) + le32(q.pos.x) + le32(
            q.pos.y,
        ),
    }
}

/// The number of bytes a packet with tag `tag` occupies; `1` for a tag
/// outside the protocol.
pub open spec fn wire_len(tag: u8) -> int {
    if tag == 2 {
        9
    } else if tag == 3 {
        11
    } else if tag == 4 || tag == 6 {
        5
    } else if tag == 5 {
        7
    } else if tag == 7 {
        13
    } else {
        1
    }
}

/// A buffer that holds no packet: empty, with a tag outside the protocol,
/// or shorter than its tag asks for.
pub open spec fn malformed(b: Seq<u8>) -> bool {
    b.len() == 0 || b[0] > 7 || b.len() < wire_len(b[0])
}

/// The packet a buffer holds. Bytes past the packet's length are ignored,
/// and a malformed buffer holds `Empty`.
pub open spec fn parse(b: Seq<u8>) -> Packet {
    if malformed(b) {
        Packet::Empty
    } else if b[0] == 1 {
        Packet::ConRequest(ConRequestPacket)
    } else if b[0] == 2 {
        Packet::ConAcknowledge(
            ConAcknowledgePacket { origin_id: id_at(b, 1), assigned_id: id_at(b, 5) },
        )
    } else if b[0] == 3 {
        Packet::ConNew(ConNewPacket { peer_id: id_at(b, 1), socket: addr_at(b, 5) })
    } else if b[0] == 4 {
        Packet::ConDelete(ConDeletePacket { peer_id: id_at(b, 1) })
    } else if b[0] == 5 {
        Packet::ConRedirect(ConRedirectPacket { host_socket: addr_at(b, 1) })
    } else if b[0] == 6 {
        Packet::ConHeartbeat(ConHeartbeatPacket { origin_id: id_at(b, 1) })
    } else if b[0] == 7 {
        Packet::Transform(
            TransformPacket {
                origin_id: id_at(b, 1),
                pos: Vec2 { x: u32_at(b, 5), y: u32_at(b, 9) },
            },
        )
    } else {
        Packet::Empty
    }
}

/// Whether every id the packet carries is assigned; the ids read off the
/// wire always are.
pub open spec fn ids_assigned(p: Packet) -> bool {
    match p {
        Packet::ConAcknowledge(q) => q.origin_id.0.is_some() && q.assigned_id.0.is_some(),
        Packet::ConNew(q) => q.peer_id.0.is_some(),
        Packet::ConDelete(q) => q.peer_id.0.is_some(),
        Packet::ConHeartbeat(q) => q.origin_id.0.is_some(),
        Packet::Transform(q) => q.origin_id.0.is_some(),
        _ => true,
    }
}

/// The tag byte of a packet.
pub open spec fn tag(p: Packet) -> u8 {
    match p {
        Packet::Empty => 0,
        Packet::ConRequest(_) => 1,
        Packet::ConAcknowledge(_) => 2,
        Packet::ConNew(_) => 3,
        Packet::ConDelete(_) => 4,
        Packet::ConRedirect(_) => 5,
        Packet::ConHeartbeat(_) => 6,
        Packet::Transform(_) => 7,
    }
}

/// Every encoding starts with its tag, has the length that tag asks for and
/// fits in a datagram.
pub proof fn lemma_wire_shape(p: Packet)
    ensures
        wire(p).len() == wire_len(tag(p)),
        wire(p)[0] == tag(p),
        wire(p).len() <= PACKET_LENGTH,
{
    lemma_u32_round_trip(0);
}

/// Decoding an encoded packet gives the packet back, field for field, when
/// each id it carries is assigned (an unassigned id is sent as `0` and
/// comes back as the assigned id `0`).
pub proof fn lemma_round_trip(p: Packet)
    requires
        ids_assigned(p),
    ensures
        parse(wire(p)) == p,
{
    lemma_wire_shape(p);
    let w = wire(p);
    match p {
        Packet::Empty => {},
        Packet::ConRequest(_) => {},
        Packet::ConAcknowledge(q) => {
            lemma_u32_round_trip(q.origin_id.wire_value());
            lemma_u32_round_trip(q.assigned_id.wire_value());
            assert(w.subrange(1, 5) =~= id_bytes(q.origin_id));
            assert(w.subrange(5, 9) =~= id_bytes(q.assigned_id));
        },
        Packet::ConNew(q) => {
            lemma_u32_round_trip(q.peer_id.wire_value());
            lemma_u32_round_trip(q.socket.ip);
            lemma_u16_round_trip(q.socket.port);
        },
        Packet::ConDelete(q) => {
            lemma_u32_round_trip(q.peer_id.wire_value());
        },
        Packet::ConRedirect(q) => {
            lemma_u32_round_trip(q.host_socket.ip);
            lemma_u16_round_trip(q.host_socket.port);
        },
        Packet::ConHeartbeat(q) => {
            lemma_u32_round_trip(q.origin_id.wire_value());
        },
        Packet::Transform(q) => {
            lemma_u32_round_trip(q.origin_id.wire_value());
            lemma_u32_round_trip(q.pos.x);
            lemma_u32_round_trip(q.pos.y);
        },
    }
}

impl Packet {
    /// Encodes the packet: its tag byte, then its fields, little-endian
    /// (an address as its four octets in order, then the port).
    pub fn into_bytes(&self) -> (r: Vec<u8>)
        ensures
            r@ == wire(*self),
            r@.len() <= PACKET_LENGTH,
    {
        proof {
            lemma_wire_shape(*self);
        }
        let mut packet: Vec<u8> = Vec::new();
        match self {
            Packet::ConRequest(_) => {
                packet.push(1);
            },
            Packet::ConAcknowledge(p) => {
                packet.push(2);
                push_u32(&mut packet, p.origin_id.value());
                push_u32(&mut packet, p.assigned_id.value());
            },
            Packet::ConNew(p) => {
                packet.push(3);
                push_u32(&mut packet, p.peer_id.value());
                push_octets(&mut packet, p.socket.ip);
                push_u16(&mut packet, p.socket.port);
            },
            Packet::ConDelete(p) => {
                packet.push(4);
                push_u32(&mut packet, p.peer_id.value());
            },
            Packet::ConRedirect(p) => {
                packet.push(5);
                push_octets(&mut packet, p.host_socket.ip);
                push_u16(&mut packet, p.host_socket.port);
            },
            Packet::ConHeartbeat(p) => {
                packet.push(6);
                push_u32(&mut packet, p.origin_id.value());
            },
            Packet::Transform(p) => {
                packet.push(7);
                push_u32(&mut packet, p.origin_id.value());
                push_u32(&mut packet, p.pos.x);
                push_u32(&mut packet, p.pos.y);
            },
            Packet::Empty => {
                packet.push(0);
            },
        }
        assert(packet@ =~= wire(*self));
        packet
    }

    /// Decodes a buffer. It never fails: a buffer that holds no packet of
    /// the protocol decodes to `Empty`.
    pub fn from_bytes(packet: Vec<u8>) -> (r: Self)
        ensures
            r == parse(packet@),
            malformed(packet@) ==> r == Packet::Empty,
    {
        let b = packet.as_slice();
        let n = b.len();
        if n == 0 {
            return Packet::Empty;
        }
        let t = b[0];
        if t == 1 {
            Packet::ConRequest(ConRequestPacket)
        } else if t == 2 && n >= 9 {
            Packet::ConAcknowledge(
                ConAcknowledgePacket {
                    origin_id: NetID::from_bytes(&b[1..5]),
                    assigned_id: NetID::from_bytes(&b[5..9]),
                },
            )
        } else if t == 3 && n >= 11 {
            Packet::ConNew(
                ConNewPacket {
                    peer_id: NetID::new().init(read_u32(b, 1)),
                    socket: PeerAddr { ip: read_ip(b, 5), port: read_u16(b, 9) },
                },
            )
        } else if t == 4 && n >= 5 {
            Packet::ConDelete(ConDeletePacket { peer_id: NetID::new().init(read_u32(b, 1)) })
        } else if t == 5 && n >= 7 {
            Packet::ConRedirect(
                ConRedirectPacket { host_socket: PeerAddr { ip: read_ip(b, 1), port: read_u16(b, 5) } },
            )
        } else if t == 6 && n >= 5 {
            Packet::ConHeartbeat(
                ConHeartbeatPacket { origin_id: NetID::new().init(read_u32(b, 1)) },
            )
        } else if t == 7 && n >= 13 {
            Packet::Transform(
                TransformPacket {
                    origin_id: NetID::new().init(read_u32(b, 1)),
                    pos: Vec2::new(read_u32(b, 5), read_u32(b, 9)),
                },
            )
        } else {
            Packet::Empty
        }
    }
}

} // verus!
