use vstd::prelude::*;

use crate::net::packet::{
    ids_assigned, parse, PACKET_LENGTH, ConAcknowledgePacket, ConDeletePacket, ConHeartbeatPacket, ConNewPacket,
    ConRedirectPacket, ConRequestPacket, NetID, Packet, PeerAddr,
};
use crate::net::NetworkEvent;

verus! {

/// The first port of the range an endpoint binds in.
pub const PORT_PREFIX: u16 = 20200;

/// How many consecutive ports the range holds.
pub const PORT_RANGE: u16 = 10;

/// Milliseconds of silence after which a peer counts as gone.
pub const DISCONNECT_TIMEOUT: u64 = 2000;

/// A known member of the mesh: its id, its address and when (in
/// milliseconds) something was last heard from it.
#[derive(Copy, Clone, Debug, PartialEq, Eq, Structural)]
pub struct PeerRecord {
    pub id: NetID,
    pub addr: PeerAddr,
    pub last_seen: u64,
}

/// A datagram to send: which packet, and to whom.
#[derive(Copy, Clone, Debug, PartialEq, Eq, Structural)]
pub struct Outgoing {
    pub packet: Packet,
    pub to: PeerAddr,
}

/// The networking endpoint. `socket` is the local address the endpoint is
/// bound to, if it is open; the socket itself lives with the caller.
pub struct NetworkImp {
    pub socket: Option<PeerAddr>,
    pub id: NetID,
    pub host_id: NetID,
    pub peers: Vec<PeerRecord>,
    pub connecting: bool,
}

/// The abstract state of an endpoint.
pub struct EndpointState {
    pub socket: Option<PeerAddr>,
    pub id: NetID,
    pub host_id: NetID,
    pub peers: Seq<PeerRecord>,
    pub connecting: bool,
}

/// What one step of the endpoint does: the state it leaves, the events it
/// reports and the datagrams it sends, in order.
pub struct Reaction {
    pub state: EndpointState,
    pub events: Seq<NetworkEvent>,
    pub sends: Seq<Outgoing>,
}

impl View for NetworkImp {
    type V = EndpointState;

    open spec fn view(&self) -> EndpointState {
        EndpointState {
            socket: self.socket,
            id: self.id,
            host_id: self.host_id,
            peers: self.peers@,
            connecting: self.connecting,
        }
    }
}

impl EndpointState {
    /// The endpoint is the authority of its mesh (or idle): it follows no host.
    pub open spec fn hosting(self) -> bool {
        self.host_id.0.is_none()
    }

    /// A host's table: every id assigned, none equal to its own, no two equal.
    pub open spec fn ids_unique(self) -> bool {
        &&& forall|i: int|
            0 <= i < self.peers.len() ==> (#[trigger] self.peers[i]).id.0.is_some()
                && self.peers[i].id != self.id
        &&& forall|i: int, j: int|
            0 <= i < j < self.peers.len() ==> (#[trigger] self.peers[i]).id != (
            #[trigger] self.peers[j]).id
    }

    /// The identity is assigned exactly while the endpoint is open, and a
    /// host's table holds unique ids.
    pub open spec fn wf(self) -> bool {
        &&& self.socket.is_some() <==> self.id.0.is_some()
        &&& self.hosting() ==> self.ids_unique()
    }

    /// `c` is already in use: as the endpoint's own id or by a known peer.
    pub open spec fn id_taken(self, c: u32) -> bool {
        NetID(Some(c)) == self.id || has_id(self.peers, NetID(Some(c)))
    }

    /// The id handed to a newcomer: the first value from `c` upward
    /// (wrapping) that is not taken, looking at no more than `fuel` values.
    pub open spec fn probe(self, c: u32, fuel: nat) -> u32
        decreases fuel,
    {
        if fuel == 0 || !self.id_taken(c) {
            c
        } else {
            self.probe(c.wrapping_add(1), (fuel - 1) as nat)
        }
    }

    /// The id a host gives a newcomer when the random draw was `draw`.
    pub open spec fn next_free(self, draw: u32) -> u32 {
        self.probe(draw, 0x1_0000_0000)
    }
}

/// Some peer in `peers` has id `id`.
pub open spec fn has_id(peers: Seq<PeerRecord>, id: NetID) -> bool {
    exists|i: int| 0 <= i < peers.len() && (#[trigger] peers[i]).id == id
}

/// Some peer in `peers` has address `a`.
pub open spec fn knows_addr(peers: Seq<PeerRecord>, a: PeerAddr) -> bool {
    exists|i: int| 0 <= i < peers.len() && (#[trigger] peers[i]).addr == a
}

/// `i` is the first index of `peers` with id `id`.
pub open spec fn is_first_id(peers: Seq<PeerRecord>, id: NetID, i: int) -> bool {
    &&& 0 <= i < peers.len()
    &&& peers[i].id == id
    &&& forall|j: int| 0 <= j < i ==> (#[trigger] peers[j]).id != id
}

/// The first index of `peers` with id `id`, or the length when there is none.
pub open spec fn first_id(peers: Seq<PeerRecord>, id: NetID) -> int {
    if exists|i: int| is_first_id(peers, id, i) {
        choose|i: int| is_first_id(peers, id, i)
    } else {
        peers.len() as int
    }
}

/// `origin` is the address of the host the endpoint follows, as its table
/// records it.
pub open spec fn from_host(s: EndpointState, origin: PeerAddr) -> bool {
    let h = first_id(s.peers, s.host_id);
    h < s.peers.len() && s.peers[h].addr == origin
}

/// How long ago, at time `now`, the peer was last heard from (`0` if the
/// clock reads earlier than that).
pub open spec fn age(r: PeerRecord, now: u64) -> int {
    if now >= r.last_seen {
        now - r.last_seen
    } else {
        0
    }
}

/// The peer has been heard from within the disconnect timeout.
pub open spec fn alive(r: PeerRecord, now: u64) -> bool {
    age(r, now) < DISCONNECT_TIMEOUT
}

/// The peers of `peers` that are alive at `now`, in order.
pub open spec fn survivors(peers: Seq<PeerRecord>, now: u64) -> Seq<PeerRecord>
    decreases peers.len(),
{
    if peers.len() == 0 {
        seq![]
    } else if alive(peers.last(), now) {
        survivors(peers.drop_last(), now).push(peers.last())
    } else {
        survivors(peers.drop_last(), now)
    }
}

/// The peers of `peers` that have timed out at `now`, in order.
pub open spec fn expired(peers: Seq<PeerRecord>, now: u64) -> Seq<PeerRecord>
    decreases peers.len(),
{
    if peers.len() == 0 {
        seq![]
    } else if alive(peers.last(), now) {
        expired(peers.drop_last(), now)
    } else {
        expired(peers.drop_last(), now).push(peers.last())
    }
}

/// `p` sent to each of `to`, in order.
pub open spec fn broadcast_to(to: Seq<PeerRecord>, p: Packet) -> Seq<Outgoing> {
    to.map_values(|r: PeerRecord| Outgoing { packet: p, to: r.addr })
}

/// The mesh introductions when `id` joins from `addr`: for each existing
/// peer, that peer is described to the newcomer and the newcomer to that peer.
pub open spec fn introductions(peers: Seq<PeerRecord>, id: NetID, addr: PeerAddr) -> Seq<
    Outgoing,
>
    decreases peers.len(),
{
    if peers.len() == 0 {
        seq![]
    } else {
        let r = peers.last();
        introductions(peers.drop_last(), id, addr) + seq![
            Outgoing { packet: Packet::ConNew(ConNewPacket { peer_id: r.id, socket: r.addr }), to: addr },
            Outgoing { packet: Packet::ConNew(ConNewPacket { peer_id: id, socket: addr }), to: r.addr },
        ]
    }
}

/// Connection requests to the first `n` ports of the range at `ip`,
/// skipping the endpoint's own local address.
pub open spec fn scan(local: Option<PeerAddr>, ip: u32, n: nat) -> Seq<Outgoing>
    decreases n,
{
    if n == 0 {
        seq![]
    } else {
        let port = (PORT_PREFIX + (n - 1)) as u16;
        let rest = scan(local, ip, (n - 1) as nat);
        if local == Some(PeerAddr { ip, port }) {
            rest
        } else {
            rest.push(
                Outgoing {
                    packet: Packet::ConRequest(ConRequestPacket),
                    to: PeerAddr { ip, port },
                },
            )
        }
    }
}

/// The deletion notices a host sends when `gone` are evicted: each one's
/// id, to every peer in `kept`.
pub open spec fn deletions(gone: Seq<PeerRecord>, kept: Seq<PeerRecord>) -> Seq<Outgoing>
    decreases gone.len(),
{
    if gone.len() == 0 {
        seq![]
    } else {
        deletions(gone.drop_last(), kept) + broadcast_to(
            kept,
            Packet::ConDelete(ConDeletePacket { peer_id: gone.last().id }),
        )
    }
}

/// Nothing happens.
pub open spec fn unchanged(s: EndpointState) -> Reaction {
    Reaction { state: s, events: seq![], sends: seq![] }
}

/// The endpoint's reaction to `p` arriving from `origin` at time `now`,
/// when a host would start its search for a fresh id at `draw`.
pub open spec fn on_packet(s: EndpointState, p: Packet, origin: PeerAddr, now: u64, draw: u32) -> Reaction {
    if s.socket.is_none() || !ids_assigned(p) {
        unchanged(s)
    } else {
        match p {
            Packet::ConRequest(_) => {
                if s.connecting || knows_addr(s.peers, origin) {
                    unchanged(s)
                } else if !s.hosting() {
                    let h = first_id(s.peers, s.host_id);
                    if h < s.peers.len() {
                        Reaction {
                            state: s,
                            events: seq![],
                            sends: seq![
                                Outgoing {
                                    packet: Packet::ConRedirect(ConRedirectPacket { host_socket: s.peers[h].addr }),
                                    to: origin,
                                },
                            ],
                        }
                    } else {
                        unchanged(s)
                    }
                } else if s.peers.len() >= 0xFFFF_FFFF {
                    unchanged(s)
                } else {
                    let n = NetID(Some(s.next_free(draw)));
                    Reaction {
                        state: EndpointState {
                            peers: s.peers.push(PeerRecord { id: n, addr: origin, last_seen: now }),
                            ..s
                        },
                        events: seq![NetworkEvent::PeerConnected(n)],
                        sends: seq![
                            Outgoing {
                                packet: Packet::ConAcknowledge(ConAcknowledgePacket { origin_id: s.id, assigned_id: n }),
                                to: origin,
                            },
                        ] + introductions(s.peers, n, origin),
                    }
                }
            },
            Packet::ConAcknowledge(q) => {
                if s.hosting() && s.connecting {
                    Reaction {
                        state: EndpointState {
                            id: q.assigned_id,
                            host_id: q.origin_id,
                            connecting: false,
                            peers: s.peers.push(PeerRecord { id: q.origin_id, addr: origin, last_seen: now }),
                            ..s
                        },
                        events: seq![NetworkEvent::PeerConnected(q.origin_id)],
                        sends: seq![],
                    }
                } else {
                    unchanged(s)
                }
            },
            Packet::ConRedirect(q) => {
                if s.hosting() {
                    Reaction { state: s, events: seq![], sends: scan(s.socket, q.host_socket.ip, PORT_RANGE as nat) }
                } else {
                    unchanged(s)
                }
            },
            Packet::ConNew(q) => {
                if !s.hosting() {
                    Reaction {
                        state: EndpointState {
                            peers: s.peers.push(PeerRecord { id: q.peer_id, addr: q.socket, last_seen: now }),
                            ..s
                        },
                        events: seq![NetworkEvent::PeerConnected(q.peer_id)],
                        sends: seq![],
                    }
                } else {
                    unchanged(s)
                }
            },
            Packet::ConDelete(q) => {
                if !s.hosting() && from_host(s, origin) {
                    let i = first_id(s.peers, q.peer_id);
                    Reaction {
                        state: EndpointState {
                            peers: if i < s.peers.len() { s.peers.remove(i) } else { s.peers },
                            ..s
                        },
                        events: seq![NetworkEvent::PeerDisconnected(q.peer_id)],
                        sends: seq![],
                    }
                } else {
                    unchanged(s)
                }
            },
            Packet::ConHeartbeat(q) => {
                let i = first_id(s.peers, q.origin_id);
                if i < s.peers.len() {
                    Reaction {
                        state: EndpointState {
                            peers: s.peers.update(i, PeerRecord { last_seen: now, ..s.peers[i] }),
                            ..s
                        },
                        events: seq![],
                        sends: seq![],
                    }
                } else {
                    unchanged(s)
                }
            },
            Packet::Transform(q) => Reaction {
                state: s,
                events: seq![NetworkEvent::PeerMoved(q.origin_id, q.pos)],
                sends: seq![],
            },
            Packet::Empty => unchanged(s),
        }
    }
}

/// The heartbeat and eviction sweep at time `now`. A host evicts every
/// timed-out peer, tells each remaining peer about each eviction and reports
/// it; a subordinate evicts nobody. Either way each live peer gets a
/// heartbeat.
pub open spec fn on_sweep(s: EndpointState, now: u64) -> Reaction {
    let kept = survivors(s.peers, now);
    let gone = expired(s.peers, now);
    let beat = Packet::ConHeartbeat(ConHeartbeatPacket { origin_id: s.id });
    if s.socket.is_none() {
        unchanged(s)
    } else if s.hosting() {
        Reaction {
            state: EndpointState { peers: kept, ..s },
            events: gone.map_values(|r: PeerRecord| NetworkEvent::PeerDisconnected(r.id)),
            sends: deletions(gone, kept) + broadcast_to(kept, beat),
        }
    } else {
        Reaction { state: s, events: seq![], sends: broadcast_to(kept, beat) }
    }
}


/// A datagram as it came off the socket: its bytes and its sender.
pub struct Datagram {
    pub bytes: Vec<u8>,
    pub from: PeerAddr,
}

/// What went wrong in an endpoint operation.
#[derive(Copy, Clone, Debug, PartialEq, Eq, Structural)]
pub enum NetError {
    /// `open` on an endpoint that is already open.
    AlreadyOpen,
    /// Every port of the range was taken.
    NoAvailablePorts,
    /// The operation needs an open endpoint.
    SocketClosed,
}

/// The packet a datagram holds; one longer than a packet can be holds
/// `Empty`.
pub open spec fn decode(bytes: Seq<u8>) -> Packet {
    if bytes.len() > PACKET_LENGTH {
        Packet::Empty
    } else {
        parse(bytes)
    }
}

/// One reaction after another.
pub open spec fn then(a: Reaction, b: Reaction) -> Reaction {
    Reaction { state: b.state, events: a.events + b.events, sends: a.sends + b.sends }
}

/// The reaction to the datagrams of `inbound`, handled in order; the
/// `i`-th one is handled with the draw `draws[i]`.
pub open spec fn on_datagrams(s: EndpointState, inbound: Seq<Datagram>, now: u64, draws: Seq<u32>) -> Reaction
    decreases inbound.len(),
{
    if inbound.len() == 0 {
        unchanged(s)
    } else {
        let before = on_datagrams(s, inbound.drop_last(), now, draws);
        let d = inbound.last();
        then(
            before,
            on_packet(before.state, decode(d.bytes@), d.from, now, draws[inbound.len() - 1]),
        )
    }
}

/// One tick of a open endpoint: the pending datagrams, then the sweep.
pub open spec fn on_tick(s: EndpointState, inbound: Seq<Datagram>, now: u64, draws: Seq<u32>) -> Reaction {
    if s.socket.is_none() {
        unchanged(s)
    } else {
        let r = on_datagrams(s, inbound, now, draws);
        then(r, on_sweep(r.state, now))
    }
}

/// The state of an endpoint that has just been opened at `local` with id `id`.
pub open spec fn opened(local: PeerAddr, id: u32) -> EndpointState {
    EndpointState {
        socket: Some(local),
        id: NetID(Some(id)),
        host_id: NetID(None),
        peers: seq![],
        connecting: false,
    }
}

/// The state of a closed endpoint.
pub open spec fn closed() -> EndpointState {
    EndpointState { socket: None, id: NetID(None), host_id: NetID(None), peers: seq![], connecting: false }
}

proof fn lemma_survivors_from(peers: Seq<PeerRecord>, now: u64)
    ensures
        forall|i: int|
            0 <= i < survivors(peers, now).len() ==> exists|j: int|
                0 <= j < peers.len() && #[trigger] survivors(peers, now)[i] == peers[j],
    decreases peers.len(),
{
    if peers.len() > 0 {
        lemma_survivors_from(peers.drop_last(), now);
        let rest = survivors(peers.drop_last(), now);
        assert forall|i: int| 0 <= i < survivors(peers, now).len() implies exists|j: int|
            0 <= j < peers.len() && #[trigger] survivors(peers, now)[i] == peers[j] by {
            if i < rest.len() {
                let j = choose|j: int| 0 <= j < peers.drop_last().len() && #[trigger] rest[i] == peers.drop_last()[j];
                assert(survivors(peers, now)[i] == peers[j]);
            } else {
                assert(survivors(peers, now)[i] == peers[peers.len() - 1]);
            }
        }
    }
}

proof fn lemma_survivors_unique(s: EndpointState, now: u64)
    requires
        s.ids_unique(),
    ensures
        (EndpointState { peers: survivors(s.peers, now), ..s }).ids_unique(),
    decreases s.peers.len(),
{
    if s.peers.len() > 0 {
        let t = EndpointState { peers: s.peers.drop_last(), ..s };
        lemma_survivors_unique(t, now);
        lemma_survivors_from(t.peers, now);
        lemma_survivors_from(s.peers, now);
        let rest = survivors(t.peers, now);
        let all = survivors(s.peers, now);
        if alive(s.peers.last(), now) {
            assert forall|a: int, b: int| 0 <= a < b < all.len() implies (#[trigger] all[a]).id != (
            #[trigger] all[b]).id by {
                if b == all.len() - 1 {
                    let j = choose|j: int| 0 <= j < t.peers.len() && #[trigger] rest[a] == t.peers[j];
                    assert(all[a] == s.peers[j]);
                    assert(all[b] == s.peers[s.peers.len() - 1]);
                } else {
                    assert(all[a] == rest[a]);
                    assert(all[b] == rest[b]);
                }
            }
        }
        assert forall|a: int| 0 <= a < all.len() implies (#[trigger] all[a]).id.0.is_some() && all[a].id != s.id by {
            let j = choose|j: int| 0 <= j < s.peers.len() && #[trigger] all[a] == s.peers[j];
        }
    }
}

proof fn lemma_first_id(peers: Seq<PeerRecord>, id: NetID, i: int)
    requires
        0 <= i <= peers.len(),
        forall|j: int| 0 <= j < i ==> (#[trigger] peers[j]).id != id,
        i < peers.len() ==> peers[i].id == id,
    ensures
        first_id(peers, id) == i,
{
    if i < peers.len() {
        assert(is_first_id(peers, id, i));
        let k = choose|k: int| is_first_id(peers, id, k);
        if k < i {
            assert(peers[k].id != id);
        }
        if k > i {
            assert(peers[i].id != id);
        }
    } else {
        if exists|k: int| is_first_id(peers, id, k) {
            let k = choose|k: int| is_first_id(peers, id, k);
            assert(peers[k].id != id);
        }
    }
}

proof fn lemma_split_step(peers: Seq<PeerRecord>, i: int, now: u64)
    requires
        0 <= i < peers.len(),
    ensures
        survivors(peers.take(i + 1), now) == if alive(peers[i], now) {
            survivors(peers.take(i), now).push(peers[i])
        } else {
            survivors(peers.take(i), now)
        },
        expired(peers.take(i + 1), now) == if alive(peers[i], now) {
            expired(peers.take(i), now)
        } else {
            expired(peers.take(i), now).push(peers[i])
        },
{
    assert(peers.take(i + 1).drop_last() =~= peers.take(i));
}

/// Whether every id `p` carries is assigned.
fn carries_assigned_ids(p: &Packet) -> (r: bool)
    ensures
        r == ids_assigned(*p),
{
    match p {
        Packet::ConAcknowledge(q) => q.origin_id.is_shared() && q.assigned_id.is_shared(),
        Packet::ConNew(q) => q.peer_id.is_shared(),
        Packet::ConDelete(q) => q.peer_id.is_shared(),
        Packet::ConHeartbeat(q) => q.origin_id.is_shared(),
        Packet::Transform(q) => q.origin_id.is_shared(),
        _ => true,
    }
}

/// Appends `p`, addressed to each of `to` in order.
fn push_broadcast(to: &Vec<PeerRecord>, p: Packet, outbox: &mut Vec<Outgoing>)
    ensures
        final(outbox)@ == old(outbox)@ + broadcast_to(to@, p),
{
    let mut i: usize = 0;
    while i < to.len()
        invariant
            i <= to@.len(),
            outbox@ == old(outbox)@ + broadcast_to(to@.take(i as int), p),
        decreases to@.len() - i,
    {
        outbox.push(Outgoing { packet: p, to: to[i].addr });
        i = i + 1;
        assert(outbox@ =~= old(outbox)@ + broadcast_to(to@.take(i as int), p));
    }
    assert(to@.take(i as int) =~= to@);
}

/// Appends connection requests to every port of the range at `ip` but
/// the endpoint's own address `local`.
fn push_scan(local: Option<PeerAddr>, ip: u32, outbox: &mut Vec<Outgoing>)
    ensures
        final(outbox)@ == old(outbox)@ + scan(local, ip, PORT_RANGE as nat),
{
    let mut i: u16 = 0;
    while i < PORT_RANGE
        invariant
            i <= PORT_RANGE,
            outbox@ == old(outbox)@ + scan(local, ip, i as nat),
        decreases PORT_RANGE - i,
    {
        let port = PORT_PREFIX + i;
        let skip = match local {
            Some(l) => l.ip == ip && l.port == port,
            None => false,
        };
        if !skip {
            outbox.push(
                Outgoing { packet: Packet::ConRequest(ConRequestPacket), to: PeerAddr { ip, port } },
            );
        }
        i = i + 1;
        assert(outbox@ =~= old(outbox)@ + scan(local, ip, i as nat));
    }
}

impl NetworkImp {
    /// A closed endpoint with no identity and no peers.
    pub fn new() -> (r: Self)
        ensures
            r@.socket.is_none(),
            r@.id.0.is_none(),
            r@.host_id.0.is_none(),
            r@.peers.len() == 0,
            !r@.connecting,
            r@.wf(),
    {
        Self {
            socket: None,
            id: NetID::new(),
            host_id: NetID::new(),
            peers: Vec::new(),
            connecting: false,
        }
    }

    /// Appends `packet`, addressed to every current peer in table order.
    pub fn broadcast(&self, packet: Packet, outbox: &mut Vec<Outgoing>)
        ensures
            final(outbox)@ == old(outbox)@ + broadcast_to(self.peers@, packet),
    {
        push_broadcast(&self.peers, packet, outbox);
    }

    /// The first index of the table with id `id`, or its length.
    fn find_id(&self, id: NetID) -> (r: usize)
        ensures
            r == first_id(self.peers@, id),
    {
        let mut i: usize = 0;
        while i < self.peers.len()
            invariant
                i <= self.peers@.len(),
                forall|j: int| 0 <= j < i ==> (#[trigger] self.peers@[j]).id != id,
            decreases self.peers@.len() - i,
        {
            if self.peers[i].id == id {
                proof {
                    lemma_first_id(self.peers@, id, i as int);
                }
                return i;
            }
            i = i + 1;
        }
        proof {
            lemma_first_id(self.peers@, id, i as int);
        }
        i
    }

    /// Whether some peer has address `a`.
    fn knows(&self, a: PeerAddr) -> (r: bool)
        ensures
            r == knows_addr(self.peers@, a),
    {
        let mut i: usize = 0;
        while i < self.peers.len()
            invariant
                i <= self.peers@.len(),
                forall|j: int| 0 <= j < i ==> (#[trigger] self.peers@[j]).addr != a,
            decreases self.peers@.len() - i,
        {
            if self.peers[i].addr == a {
                return true;
            }
            i = i + 1;
        }
        false
    }

    /// Whether `c` is the endpoint's own id or a known peer's.
    fn taken(&self, c: u32) -> (r: bool)
        ensures
            r == self@.id_taken(c),
    {
        let n = NetID::new().init(c);
        if n == self.id {
            return true;
        }
        let i = self.find_id(n);
        proof {
            if has_id(self.peers@, n) {
                let k = choose|k: int| 0 <= k < self.peers@.len() && (#[trigger] self.peers@[k]).id == n;
                if i as int == self.peers@.len() {
                    assert(!exists|k: int| is_first_id(self.peers@, n, k));
                    lemma_no_first_means_absent(self.peers@, n, k);
                }
            }
        }
        i < self.peers.len()
    }

    /// A fresh id: starting at the random draw `draw`, the first value
    /// (wrapping upward) that is neither the endpoint's own id nor a peer's.
    pub fn fresh_id(&self, draw: u32) -> (r: u32)
        requires
            self.peers@.len() < 0xFFFF_FFFF,
        ensures
            r == self@.next_free(draw),
            !self@.id_taken(r),
    {
        let ghost s = self@;
        proof {
            lemma_next_free_fresh(s, draw);
        }
        let mut cand = draw;
        let ghost mut k: nat = 0;
        while self.taken(cand)
            invariant
                s == self@,
                k <= 0x1_0000_0000,
                !s.id_taken(s.next_free(draw)),
                s.next_free(draw) == s.probe(cand, (0x1_0000_0000 - k) as nat),
            decreases 0x1_0000_0000 - k,
        {
            proof {
                assert(k < 0x1_0000_0000);
                assert(s.probe(cand, (0x1_0000_0000 - k) as nat) == s.probe(
                    cand.wrapping_add(1),
                    (0x1_0000_0000 - (k + 1)) as nat,
                ));
                k = k + 1;
            }
            cand = cand.wrapping_add(1);
        }
        cand
    }

    /// Reacts to `packet`, which arrived from `origin` at time `now`, as
    /// `on_packet` describes; a host that admits a newcomer starts its search
    /// for a fresh id at `draw`. Events and datagrams are appended.
    pub fn receive(
        &mut self,
        packet: Packet,
        origin: PeerAddr,
        now: u64,
        draw: u32,
        events: &mut Vec<NetworkEvent>,
        outbox: &mut Vec<Outgoing>,
    )
        requires
            old(self)@.wf(),
        ensures
            final(self)@ == on_packet(old(self)@, packet, origin, now, draw).state,
            final(events)@ == old(events)@ + on_packet(old(self)@, packet, origin, now, draw).events,
            final(outbox)@ == old(outbox)@ + on_packet(old(self)@, packet, origin, now, draw).sends,
            final(self)@.wf(),
    {
        if self.socket.is_none() || !carries_assigned_ids(&packet) {
            return;
        }
        let ghost s = self@;
        match packet {
            Packet::ConRequest(_) => {
                if self.connecting || self.knows(origin) {
                    return;
                }
                if self.host_id.is_shared() {
                    let h = self.find_id(self.host_id);
                    if h < self.peers.len() {
                        let host_socket = self.peers[h].addr;
                        outbox.push(
                            Outgoing {
                                packet: Packet::ConRedirect(ConRedirectPacket { host_socket }),
                                to: origin,
                            },
                        );
                    }
                    return;
                }
                if self.peers.len() >= 0xFFFF_FFFF {
                    return;
                }
                let assigned_id = NetID::new().init(self.fresh_id(draw));
                outbox.push(
                    Outgoing {
                        packet: Packet::ConAcknowledge(
                            ConAcknowledgePacket { origin_id: self.id, assigned_id },
                        ),
                        to: origin,
                    },
                );
                let ghost start = outbox@;
                let mut i: usize = 0;
                while i < self.peers.len()
                    invariant
                        self@ == s,
                        i <= self.peers@.len(),
                        outbox@ == start + introductions(self.peers@.take(i as int), assigned_id, origin),
                    decreases self.peers@.len() - i,
                {
                    let r = self.peers[i];
                    outbox.push(
                        Outgoing {
                            packet: Packet::ConNew(ConNewPacket { peer_id: r.id, socket: r.addr }),
                            to: origin,
                        },
                    );
                    outbox.push(
                        Outgoing {
                            packet: Packet::ConNew(ConNewPacket { peer_id: assigned_id, socket: origin }),
                            to: r.addr,
                        },
                    );
                    i = i + 1;
                    assert(self.peers@.take(i as int).drop_last() =~= self.peers@.take(i - 1));
                    assert(outbox@ =~= start + introductions(self.peers@.take(i as int), assigned_id, origin));
                }
                assert(self.peers@.take(i as int) =~= self.peers@);
                self.peers.push(PeerRecord { id: assigned_id, addr: origin, last_seen: now });
                events.push(NetworkEvent::PeerConnected(assigned_id));
                proof {
                    assert forall|a: int| 0 <= a < self.peers@.len() implies (#[trigger] self.peers@[a]).id.0.is_some()
                        && self.peers@[a].id != self.id by {
                        if a < s.peers.len() {
                            assert(self.peers@[a] == s.peers[a]);
                        }
                    }
                    assert forall|a: int, b: int| 0 <= a < b < self.peers@.len() implies (#[trigger] self.peers@[a]).id != (
                        #[trigger] self.peers@[b]).id by {
                        if b == s.peers.len() {
                            assert(self.peers@[a] == s.peers[a]);
                            assert(has_id(s.peers, s.peers[a].id));
                        } else {
                            assert(self.peers@[a] == s.peers[a]);
                            assert(self.peers@[b] == s.peers[b]);
                        }
                    }
                    assert(events@ =~= old(events)@ + on_packet(s, packet, origin, now, draw).events);
                    assert(outbox@ =~= old(outbox)@ + on_packet(s, packet, origin, now, draw).sends);
                }
            },
            Packet::ConAcknowledge(q) => {
                if !self.host_id.is_shared() && self.connecting {
                    self.id = q.assigned_id;
                    self.host_id = q.origin_id;
                    self.connecting = false;
                    self.peers.push(PeerRecord { id: q.origin_id, addr: origin, last_seen: now });
                    events.push(NetworkEvent::PeerConnected(q.origin_id));
                    assert(events@ =~= old(events)@ + on_packet(s, packet, origin, now, draw).events);
                }
            },
            Packet::ConRedirect(q) => {
                if !self.host_id.is_shared() {
                    push_scan(self.socket, q.host_socket.ip, outbox);
                }
            },
            Packet::ConNew(q) => {
                if self.host_id.is_shared() {
                    self.peers.push(PeerRecord { id: q.peer_id, addr: q.socket, last_seen: now });
                    events.push(NetworkEvent::PeerConnected(q.peer_id));
                    assert(events@ =~= old(events)@ + on_packet(s, packet, origin, now, draw).events);
                }
            },
            Packet::ConDelete(q) => {
                if self.host_id.is_shared() {
                    let h = self.find_id(self.host_id);
                    if h >= self.peers.len() || self.peers[h].addr != origin {
                        return;
                    }
                    let i = self.find_id(q.peer_id);
                    if i < self.peers.len() {
                        self.peers.remove(i);
                    }
                    events.push(NetworkEvent::PeerDisconnected(q.peer_id));
                    assert(events@ =~= old(events)@ + on_packet(s, packet, origin, now, draw).events);
                }
            },
            Packet::ConHeartbeat(q) => {
                let i = self.find_id(q.origin_id);
                if i < self.peers.len() {
                    let r = self.peers[i];
                    self.peers.set(i, PeerRecord { last_seen: now, ..r });
                    proof {
                        if s.hosting() {
                            assert forall|a: int| 0 <= a < self.peers@.len() implies (#[trigger] self.peers@[a]).id
                                == s.peers[a].id by {}
                        }
                    }
                }
            },
            Packet::Transform(q) => {
                events.push(NetworkEvent::PeerMoved(q.origin_id, q.pos));
                assert(events@ =~= old(events)@ + on_packet(s, packet, origin, now, draw).events);
            },
            Packet::Empty => {},
        }
    }

    /// The heartbeat and eviction sweep at time `now`, as `on_sweep`
    /// describes. Events and datagrams are appended.
    pub fn sweep(&mut self, now: u64, events: &mut Vec<NetworkEvent>, outbox: &mut Vec<Outgoing>)
        requires
            old(self)@.wf(),
        ensures
            final(self)@ == on_sweep(old(self)@, now).state,
            final(events)@ == old(events)@ + on_sweep(old(self)@, now).events,
            final(outbox)@ == old(outbox)@ + on_sweep(old(self)@, now).sends,
            final(self)@.wf(),
    {
        if self.socket.is_none() {
            return;
        }
        let ghost s = self@;
        let mut kept: Vec<PeerRecord> = Vec::new();
        let mut gone: Vec<PeerRecord> = Vec::new();
        let mut i: usize = 0;
        while i < self.peers.len()
            invariant
                self@ == s,
                i <= s.peers.len(),
                kept@ == survivors(s.peers.take(i as int), now),
                gone@ == expired(s.peers.take(i as int), now),
            decreases s.peers.len() - i,
        {
            let r = self.peers[i];
            let age: u64 = if now >= r.last_seen {
                now - r.last_seen
            } else {
                0
            };
            if age < DISCONNECT_TIMEOUT {
                kept.push(r);
            } else {
                gone.push(r);
            }
            proof {
                lemma_split_step(s.peers, i as int, now);
            }
            i = i + 1;
        }
        assert(s.peers.take(i as int) =~= s.peers);
        let beat = Packet::ConHeartbeat(ConHeartbeatPacket { origin_id: self.id });
        if !self.host_id.is_shared() {
            let mut j: usize = 0;
            while j < gone.len()
                invariant
                    j <= gone@.len(),
                    kept@ == survivors(s.peers, now),
                    gone@ == expired(s.peers, now),
                    outbox@ == old(outbox)@ + deletions(gone@.take(j as int), kept@),
                    events@ == old(events)@ + gone@.take(j as int).map_values(
                        |r: PeerRecord| NetworkEvent::PeerDisconnected(r.id),
                    ),
                decreases gone@.len() - j,
            {
                let id = gone[j].id;
                push_broadcast(&kept, Packet::ConDelete(ConDeletePacket { peer_id: id }), outbox);
                events.push(NetworkEvent::PeerDisconnected(id));
                j = j + 1;
                assert(gone@.take(j as int).drop_last() =~= gone@.take(j - 1));
                assert(outbox@ =~= old(outbox)@ + deletions(gone@.take(j as int), kept@));
                assert(events@ =~= old(events)@ + gone@.take(j as int).map_values(
                    |r: PeerRecord| NetworkEvent::PeerDisconnected(r.id),
                ));
            }
            assert(gone@.take(j as int) =~= gone@);
            push_broadcast(&kept, beat, outbox);
            self.peers = kept;
            proof {
                lemma_survivors_unique(s, now);
                assert(outbox@ =~= old(outbox)@ + on_sweep(s, now).sends);
            }
        } else {
            push_broadcast(&kept, beat, outbox);
            assert(events@ =~= old(events)@ + on_sweep(s, now).events);
        }
    }

    /// Opens the endpoint at the local address the caller managed to bind
    /// (`None` when every port of the range was taken), with the identity
    /// `id`.
    pub fn open_as(&mut self, bound: Option<PeerAddr>, id: u32) -> (r: Result<(), NetError>)
        requires
            old(self)@.wf(),
        ensures
            old(self).socket.is_some() ==> r == Err::<(), NetError>(NetError::AlreadyOpen)
                && final(self)@ == old(self)@,
            old(self).socket.is_none() && bound.is_none() ==> r == Err::<(), NetError>(
                NetError::NoAvailablePorts,
            ) && final(self)@ == old(self)@,
            old(self).socket.is_none() && bound.is_some() ==> r == Ok::<(), NetError>(())
                && final(self)@ == opened(bound.unwrap(), id),
            final(self)@.wf(),
    {
        if self.socket.is_some() {
            return Err(NetError::AlreadyOpen);
        }
        match bound {
            None => Err(NetError::NoAvailablePorts),
            Some(local) => {
                self.socket = Some(local);
                self.id = NetID::new().init(id);
                self.host_id = NetID::new();
                self.peers.clear();
                self.connecting = false;
                assert(self.peers@ =~= seq![]);
                Ok(())
            },
        }
    }

    /// Opens the endpoint at the local address the caller managed to bind,
    /// with a random identity.
    pub fn open(&mut self, bound: Option<PeerAddr>) -> (r: Result<(), NetError>)
        requires
            old(self)@.wf(),
        ensures
            old(self).socket.is_some() ==> r == Err::<(), NetError>(NetError::AlreadyOpen)
                && final(self)@ == old(self)@,
            old(self).socket.is_none() && bound.is_none() ==> r == Err::<(), NetError>(
                NetError::NoAvailablePorts,
            ) && final(self)@ == old(self)@,
            old(self).socket.is_none() && bound.is_some() ==> r == Ok::<(), NetError>(())
                && exists|id: u32| final(self)@ == #[trigger] opened(bound.unwrap(), id),
            final(self)@.wf(),
    {
        let id = random_draw();
        let r = self.open_as(bound, id);
        assert(r is Ok ==> self@ == opened(bound.unwrap(), id));
        r
    }

    /// Starts joining the mesh of the process at `addr`'s IP: forgets all
    /// peers and asks every port of the range there but the endpoint's own
    /// address.
    pub fn connect(&mut self, addr: &PeerAddr, outbox: &mut Vec<Outgoing>) -> (r: Result<(), NetError>)
        requires
            old(self)@.wf(),
        ensures
            old(self).socket.is_none() ==> r == Err::<(), NetError>(NetError::SocketClosed)
                && final(self)@ == old(self)@ && final(outbox)@ == old(outbox)@,
            old(self).socket.is_some() ==> r == Ok::<(), NetError>(())
                && final(self)@ == (EndpointState { peers: seq![], connecting: true, ..old(self)@ })
                && final(outbox)@ == old(outbox)@ + scan(old(self).socket, addr.ip, PORT_RANGE as nat),
            final(self)@.wf(),
    {
        if self.socket.is_none() {
            return Err(NetError::SocketClosed);
        }
        self.peers.clear();
        self.connecting = true;
        push_scan(self.socket, addr.ip, outbox);
        assert(self.peers@ =~= seq![]);
        Ok(())
    }

    /// Drops the socket and forgets identity, host, peers and any
    /// connection attempt. Safe in every state.
    pub fn close(&mut self)
        ensures
            final(self)@ == closed(),
            final(self)@.wf(),
    {
        self.socket = None;
        self.id = NetID::new();
        self.host_id = NetID::new();
        self.peers.clear();
        self.connecting = false;
        assert(self.peers@ =~= seq![]);
    }

    /// One tick with the given draws: clears `events`; then, if the
    /// endpoint is open, handles the datagrams of `inbound` in order and
    /// runs the sweep, as `on_tick` describes.
    pub fn process_with(
        &mut self,
        inbound: &Vec<Datagram>,
        now: u64,
        draws: &Vec<u32>,
        events: &mut Vec<NetworkEvent>,
        outbox: &mut Vec<Outgoing>,
    )
        requires
            old(self)@.wf(),
            draws@.len() == inbound@.len(),
        ensures
            final(self)@ == on_tick(old(self)@, inbound@, now, draws@).state,
            final(events)@ == on_tick(old(self)@, inbound@, now, draws@).events,
            final(outbox)@ == old(outbox)@ + on_tick(old(self)@, inbound@, now, draws@).sends,
            final(self)@.wf(),
    {
        events.clear();
        if self.socket.is_none() {
            assert(events@ =~= seq![]);
            return;
        }
        let ghost s = self@;
        let ghost out0 = outbox@;
        let mut i: usize = 0;
        while i < inbound.len()
            invariant
                i <= inbound@.len(),
                draws@.len() == inbound@.len(),
                self@.wf(),
                s.socket.is_some(),
                self@ == on_datagrams(s, inbound@.take(i as int), now, draws@).state,
                events@ == on_datagrams(s, inbound@.take(i as int), now, draws@).events,
                outbox@ == out0 + on_datagrams(s, inbound@.take(i as int), now, draws@).sends,
            decreases inbound@.len() - i,
        {
            let d = &inbound[i];
            let packet = if d.bytes.len() > PACKET_LENGTH {
                Packet::Empty
            } else {
                let bytes = d.bytes.clone();
                assert(bytes@ =~= d.bytes@);
                Packet::from_bytes(bytes)
            };
            self.receive(packet, d.from, now, draws[i], events, outbox);
            i = i + 1;
            proof {
                assert(inbound@.take(i as int).drop_last() =~= inbound@.take(i - 1));
                assert(events@ =~= on_datagrams(s, inbound@.take(i as int), now, draws@).events);
                assert(outbox@ =~= out0 + on_datagrams(s, inbound@.take(i as int), now, draws@).sends);
            }
        }
        assert(inbound@.take(i as int) =~= inbound@);
        self.sweep(now, events, outbox);
        assert(outbox@ =~= out0 + on_tick(s, inbound@, now, draws@).sends);
    }

    /// One tick: clears `events`; then, if the endpoint is open, handles the
    /// datagrams of `inbound` in order and runs the sweep. A host that admits
    /// a newcomer starts its search for a fresh id at a random draw.
    pub fn process(
        &mut self,
        inbound: &Vec<Datagram>,
        now: u64,
        events: &mut Vec<NetworkEvent>,
        outbox: &mut Vec<Outgoing>,
    )
        requires
            old(self)@.wf(),
        ensures
            exists|draws: Seq<u32>|
                {
                    &&& draws.len() == inbound@.len()
                    &&& final(self)@ == (#[trigger] on_tick(old(self)@, inbound@, now, draws)).state
                    &&& final(events)@ == on_tick(old(self)@, inbound@, now, draws).events
                    &&& final(outbox)@ == old(outbox)@ + on_tick(old(self)@, inbound@, now, draws).sends
                },
            final(self)@.wf(),
    {
        let mut draws: Vec<u32> = Vec::new();
        let mut i: usize = 0;
        while i < inbound.len()
            invariant
                i <= inbound@.len(),
                draws@.len() == i,
            decreases inbound@.len() - i,
        {
            draws.push(random_draw());
            i = i + 1;
        }
        let ghost s = self@;
        self.process_with(inbound, now, &draws, events, outbox);
        assert(self@ == on_tick(s, inbound@, now, draws@).state);
    }
}

/// Relies on rand::random: a value drawn from the thread-local generator.
/// Nothing is promised of it.
#[verifier::external_body]
fn random_draw() -> (r: u32) {
    rand::random::<u32>()
}

/// The `j`-th value probed from `draw`.
spec fn probed(draw: u32, j: int) -> NetID {
    NetID(Some(((draw as int + j) % 0x1_0000_0000) as u32))
}

proof fn lemma_no_first_means_absent(peers: Seq<PeerRecord>, id: NetID, k: int)
    requires
        0 <= k < peers.len(),
        peers[k].id == id,
    ensures
        exists|i: int| is_first_id(peers, id, i),
    decreases k,
{
    if exists|j: int| 0 <= j < k && (#[trigger] peers[j]).id == id {
        let j = choose|j: int| 0 <= j < k && (#[trigger] peers[j]).id == id;
        lemma_no_first_means_absent(peers, id, j);
    } else {
        assert(is_first_id(peers, id, k));
    }
}


proof fn lemma_introductions_are_new(peers: Seq<PeerRecord>, id: NetID, addr: PeerAddr)
    ensures
        forall|i: int|
            0 <= i < introductions(peers, id, addr).len() ==> (#[trigger] introductions(
                peers,
                id,
                addr,
            )[i]).packet is ConNew,
    decreases peers.len(),
{
    if peers.len() > 0 {
        lemma_introductions_are_new(peers.drop_last(), id, addr);
        let rest = introductions(peers.drop_last(), id, addr);
        assert forall|i: int| 0 <= i < introductions(peers, id, addr).len() implies (#[trigger] introductions(
            peers,
            id,
            addr,
        )[i]).packet is ConNew by {
            if i < rest.len() {
                assert(introductions(peers, id, addr)[i] == rest[i]);
            }
        }
    }
}

proof fn lemma_scan_requests(local: Option<PeerAddr>, ip: u32, n: nat)
    ensures
        forall|i: int|
            0 <= i < scan(local, ip, n).len() ==> (#[trigger] scan(local, ip, n)[i]).packet is ConRequest,
    decreases n,
{
    if n > 0 {
        lemma_scan_requests(local, ip, (n - 1) as nat);
    }
}

/// A host's table never holds two equal ids, nor its own id, nor an
/// unassigned one. Every operation of `NetworkImp` keeps its state
/// well-formed, so this holds of every host at every moment.
pub proof fn lemma_host_ids_unique(s: EndpointState)
    requires
        s.wf(),
        s.hosting(),
    ensures
        forall|i: int, j: int|
            0 <= i < j < s.peers.len() ==> (#[trigger] s.peers[i]).id != (#[trigger] s.peers[j]).id,
        forall|i: int| 0 <= i < s.peers.len() ==> (#[trigger] s.peers[i]).id != s.id,
        forall|i: int| 0 <= i < s.peers.len() ==> (#[trigger] s.peers[i]).id.0.is_some(),
{
}

/// An endpoint that follows a host keeps following that host whatever
/// arrives, and never acknowledges (admits) anyone; an acknowledgement is
/// only ever sent by a hosting endpoint and names that endpoint's own id.
/// An endpoint starts following a host only on an acknowledgement that
/// arrives while it is connecting, and then follows the acknowledging id.
/// The sweep never changes whom an endpoint follows.
pub proof fn lemma_role_exclusive(s: EndpointState, p: Packet, origin: PeerAddr, now: u64, draw: u32)
    requires
        s.wf(),
    ensures
        !s.hosting() ==> on_packet(s, p, origin, now, draw).state.host_id == s.host_id,
        !s.hosting() ==> forall|i: int|
            0 <= i < on_packet(s, p, origin, now, draw).sends.len() ==> !((
            #[trigger] on_packet(s, p, origin, now, draw).sends[i]).packet is ConAcknowledge),
        forall|i: int|
            0 <= i < on_packet(s, p, origin, now, draw).sends.len() && ((
            #[trigger] on_packet(s, p, origin, now, draw).sends[i]).packet is ConAcknowledge) ==> s.hosting()
                && on_packet(s, p, origin, now, draw).sends[i].packet->ConAcknowledge_0.origin_id == s.id,
        s.hosting() && !on_packet(s, p, origin, now, draw).state.hosting() ==> {
            &&& s.connecting
            &&& p is ConAcknowledge
            &&& on_packet(s, p, origin, now, draw).state.host_id == p->ConAcknowledge_0.origin_id
        },
        on_sweep(s, now).state.host_id == s.host_id,
{
    let r = on_packet(s, p, origin, now, draw);
    assert forall|i: int| 0 <= i < r.sends.len() && ((#[trigger] r.sends[i]).packet is ConAcknowledge) implies s.hosting()
        && r.sends[i].packet->ConAcknowledge_0.origin_id == s.id by {
        if let Packet::ConRequest(_) = p {
            if i > 0 && s.hosting() {
                lemma_introductions_are_new(s.peers, NetID(Some(s.next_free(draw))), origin);
                assert(r.sends[i] == introductions(s.peers, NetID(Some(s.next_free(draw))), origin)[i - 1]);
            }
            if !s.hosting() {
                assert(r.sends[i].packet is ConRedirect);
            }
        } else if let Packet::ConRedirect(q) = p {
            lemma_scan_requests(s.socket, q.host_socket.ip, PORT_RANGE as nat);
        }
    }
    if !s.hosting() {
        assert forall|i: int| 0 <= i < r.sends.len() implies !((#[trigger] r.sends[i]).packet is ConAcknowledge) by {
            if let Packet::ConRequest(_) = p {
                if !(s.socket.is_none() || s.connecting || knows_addr(s.peers, origin)) {
                    let h = first_id(s.peers, s.host_id);
                    if h < s.peers.len() {
                        assert(r.sends[i].packet is ConRedirect);
                    }
                }
            }
        }
    }
}

/// A second connection request from the same address changes nothing: of
/// the two requests at most one adds a table entry and reports a
/// `PeerConnected`, and when a host admits the first, it adds exactly one
/// entry and reports exactly one connection, for the newcomer.
pub proof fn lemma_duplicate_request(s: EndpointState, origin: PeerAddr, now: u64, d1: u32, d2: u32)
    requires
        s.wf(),
    ensures
        on_packet(
            on_packet(s, Packet::ConRequest(ConRequestPacket), origin, now, d1).state,
            Packet::ConRequest(ConRequestPacket),
            origin,
            now,
            d2,
        ).state == on_packet(s, Packet::ConRequest(ConRequestPacket), origin, now, d1).state,
        on_packet(
            on_packet(s, Packet::ConRequest(ConRequestPacket), origin, now, d1).state,
            Packet::ConRequest(ConRequestPacket),
            origin,
            now,
            d2,
        ).events.len() + on_packet(s, Packet::ConRequest(ConRequestPacket), origin, now, d1).events.len()
            <= 1,
        on_packet(s, Packet::ConRequest(ConRequestPacket), origin, now, d1).state.peers.len()
            <= s.peers.len() + 1,
        s.socket.is_some() && s.hosting() && !s.connecting && !knows_addr(s.peers, origin)
            && s.peers.len() < 0xFFFF_FFFF ==> {
            let r = on_packet(s, Packet::ConRequest(ConRequestPacket), origin, now, d1);
            &&& r.state.peers.len() == s.peers.len() + 1
            &&& r.state.peers.last().addr == origin
            &&& r.events == seq![NetworkEvent::PeerConnected(r.state.peers.last().id)]
        },
{
    let req = Packet::ConRequest(ConRequestPacket);
    let r1 = on_packet(s, req, origin, now, d1);
    if r1.events.len() > 0 {
        let last = r1.state.peers.len() - 1;
        assert(r1.state.peers[last].addr == origin);
        assert(knows_addr(r1.state.peers, origin));
    }
}

/// A subordinate never removes a table entry on its own: whatever arrives
/// but a `ConDelete` from its host's address, every entry stays where it
/// was with the same id and address (only its time may be refreshed), and
/// the sweep leaves its table untouched however long a peer has been
/// silent. A `ConDelete` from the host removes at most the one entry it
/// names.
pub proof fn lemma_eviction_authority(s: EndpointState, p: Packet, origin: PeerAddr, now: u64, draw: u32)
    requires
        s.wf(),
        !s.hosting(),
    ensures
        on_sweep(s, now).state.peers == s.peers,
        on_sweep(s, now).events.len() == 0,
        !(p is ConDelete && from_host(s, origin)) ==> {
            let t = on_packet(s, p, origin, now, draw).state.peers;
            &&& t.len() >= s.peers.len()
            &&& forall|i: int|
                0 <= i < s.peers.len() ==> (#[trigger] t[i]).id == s.peers[i].id && t[i].addr == s.peers[i].addr
        },
        !(p is ConDelete && from_host(s, origin)) ==> forall|i: int|
            0 <= i < on_packet(s, p, origin, now, draw).events.len() ==> !((
            #[trigger] on_packet(s, p, origin, now, draw).events[i]) is PeerDisconnected),
        p is ConDelete && from_host(s, origin) ==> {
            let t = on_packet(s, p, origin, now, draw).state.peers;
            ||| t == s.peers
            ||| exists|k: int|
                0 <= k < s.peers.len() && s.peers[k].id == p->ConDelete_0.peer_id && t == s.peers.remove(k)
        },
{
    let t = on_packet(s, p, origin, now, draw).state.peers;
    if let Packet::ConHeartbeat(q) = p {
        let i = first_id(s.peers, q.origin_id);
        if i < s.peers.len() && s.socket.is_some() && ids_assigned(p) {
            assert(exists|k: int| is_first_id(s.peers, q.origin_id, k));
            assert(is_first_id(s.peers, q.origin_id, i));
        }
    }
    if let Packet::ConDelete(q) = p {
        let i = first_id(s.peers, q.peer_id);
        if i < s.peers.len() && s.socket.is_some() && ids_assigned(p) {
            assert(exists|k: int| is_first_id(s.peers, q.peer_id, k));
            assert(is_first_id(s.peers, q.peer_id, i));
        }
    }
}

proof fn lemma_probe_fresh(s: EndpointState, draw: u32, k: nat, tried: Set<NetID>, pool: Set<NetID>)
    requires
        s.peers.len() < 0xFFFF_FFFF,
        pool == s.peers.map_values(|r: PeerRecord| r.id).to_set().insert(s.id),
        pool.finite(),
        pool.len() <= s.peers.len() + 1,
        tried.finite(),
        tried.subset_of(pool),
        tried.len() == k,
        k < 0x1_0000_0000,
        forall|t: NetID| #[trigger]
            tried.contains(t) ==> exists|j: int| 0 <= j < k && t == #[trigger] probed(draw, j),
    ensures
        !s.id_taken(
            s.probe(((draw as int + k) % 0x1_0000_0000) as u32, (0x1_0000_0000 - k) as nat),
        ),
    decreases pool.len() - tried.len(),
{
    let cand = ((draw as int + k) % 0x1_0000_0000) as u32;
    if s.id_taken(cand) {
        let t = NetID(Some(cand));
        if tried.contains(t) {
            let j = choose|j: int| 0 <= j < k && t == #[trigger] probed(draw, j);
            assert(false);
        }
        assert(pool.contains(t)) by {
            if t != s.id {
                let w = choose|w: int| 0 <= w < s.peers.len() && (#[trigger] s.peers[w]).id == t;
                assert(s.peers.map_values(|r: PeerRecord| r.id)[w] == t);
            }
        }
        let more = tried.insert(t);
        vstd::set_lib::lemma_len_subset(more, pool);
        assert forall|u: NetID| #[trigger]
            more.contains(u) implies exists|j: int| 0 <= j < k + 1 && u == #[trigger] probed(draw, j) by {
            if u == t {
                assert(t == probed(draw, k as int));
            }
        }
        lemma_probe_fresh(s, draw, k + 1, more, pool);
        assert(cand.wrapping_add(1) == ((draw as int + (k + 1)) % 0x1_0000_0000) as u32);
    }
}

/// The id a host hands out is never its own nor a peer's, as long as the
/// 32-bit space cannot be full.
pub proof fn lemma_next_free_fresh(s: EndpointState, draw: u32)
    requires
        s.peers.len() < 0xFFFF_FFFF,
    ensures
        !s.id_taken(s.next_free(draw)),
{
    let pool = s.peers.map_values(|r: PeerRecord| r.id).to_set().insert(s.id);
    s.peers.map_values(|r: PeerRecord| r.id).lemma_cardinality_of_set();
    vstd::seq_lib::seq_to_set_is_finite(s.peers.map_values(|r: PeerRecord| r.id));
    lemma_probe_fresh(s, draw, 0, Set::empty(), pool);
    assert(((draw as int + 0) % 0x1_0000_0000) as u32 == draw);
}

/// Whatever arrives and however much time passes, a well-formed endpoint
/// stays well-formed: in particular every peer a host admits gets an id
/// that differs from the host's own and from every other peer's.
pub proof fn lemma_steps_keep_ids_unique(s: EndpointState, p: Packet, origin: PeerAddr, now: u64, draw: u32)
    requires
        s.wf(),
    ensures
        on_packet(s, p, origin, now, draw).state.wf(),
        on_sweep(s, now).state.wf(),
{
    let t = on_packet(s, p, origin, now, draw).state;
    if s.socket.is_some() && ids_assigned(p) {
        match p {
            Packet::ConRequest(_) => {
                if !s.connecting && !knows_addr(s.peers, origin) && s.hosting() && s.peers.len() < 0xFFFF_FFFF {
                    lemma_next_free_fresh(s, draw);
                    let n = NetID(Some(s.next_free(draw)));
                    assert forall|a: int, b: int| 0 <= a < b < t.peers.len() implies (#[trigger] t.peers[a]).id != (
                        #[trigger] t.peers[b]).id by {
                        assert(t.peers[a] == s.peers[a]);
                        if b == s.peers.len() {
                            assert(has_id(s.peers, s.peers[a].id));
                        } else {
                            assert(t.peers[b] == s.peers[b]);
                        }
                    }
                    assert forall|a: int| 0 <= a < t.peers.len() implies (#[trigger] t.peers[a]).id.0.is_some()
                        && t.peers[a].id != t.id by {
                        if a < s.peers.len() {
                            assert(t.peers[a] == s.peers[a]);
                        }
                    }
                }
            },
            Packet::ConHeartbeat(q) => {
                if s.hosting() {
                    assert forall|a: int| 0 <= a < t.peers.len() implies (#[trigger] t.peers[a]).id == s.peers[a].id by {}
                }
            },
            _ => {},
        }
    }
    if s.socket.is_some() && s.hosting() {
        lemma_survivors_unique(s, now);
    }
}

/// The address of the host entry of `s`'s table.
pub open spec fn host_addr(s: EndpointState) -> PeerAddr {
    s.peers[first_id(s.peers, s.host_id)].addr
}

/// The datagrams of `inbound` hold no `ConDelete` sent from `a`.
pub open spec fn no_delete_from(inbound: Seq<Datagram>, a: PeerAddr) -> bool {
    forall|i: int|
        0 <= i < inbound.len() ==> !(decode((#[trigger] inbound[i]).bytes@) is ConDelete
            && inbound[i].from == a)
}

/// `t` keeps every entry of `peers` at its place, with its id and address.
pub open spec fn keeps_entries(peers: Seq<PeerRecord>, t: Seq<PeerRecord>) -> bool {
    &&& t.len() >= peers.len()
    &&& forall|i: int| 0 <= i < peers.len() ==> (#[trigger] t[i]).id == peers[i].id && t[i].addr == peers[i].addr
}

/// No event of `events` reports a departure.
pub open spec fn no_departures(events: Seq<NetworkEvent>) -> bool {
    forall|i: int| 0 <= i < events.len() ==> !((#[trigger] events[i]) is PeerDisconnected)
}

proof fn lemma_datagrams_roles(s: EndpointState, inbound: Seq<Datagram>, now: u64, draws: Seq<u32>)
    requires
        s.wf(),
        draws.len() >= inbound.len(),
    ensures
        on_datagrams(s, inbound, now, draws).state.wf(),
        on_datagrams(s, inbound, now, draws).state.socket == s.socket,
        !s.connecting ==> !on_datagrams(s, inbound, now, draws).state.connecting,
        s.hosting() && !s.connecting ==> on_datagrams(s, inbound, now, draws).state.hosting(),
        !s.hosting() ==> on_datagrams(s, inbound, now, draws).state.host_id == s.host_id,
        on_datagrams(s, inbound, now, draws).state.host_id != s.host_id ==> exists|i: int|
            0 <= i < inbound.len() && decode((#[trigger] inbound[i]).bytes@) is ConAcknowledge
                && decode(inbound[i].bytes@)->ConAcknowledge_0.origin_id == on_datagrams(
                s,
                inbound,
                now,
                draws,
            ).state.host_id,
    decreases inbound.len(),
{
    if inbound.len() > 0 {
        let pre = inbound.drop_last();
        lemma_datagrams_roles(s, pre, now, draws);
        let r = on_datagrams(s, pre, now, draws).state;
        let d = inbound.last();
        let p = decode(d.bytes@);
        let t = on_packet(r, p, d.from, now, draws[inbound.len() - 1]).state;
        lemma_steps_keep_ids_unique(r, p, d.from, now, draws[inbound.len() - 1]);
        lemma_role_exclusive(r, p, d.from, now, draws[inbound.len() - 1]);
        if t.host_id != s.host_id {
            if r.host_id != s.host_id {
                let i = choose|i: int|
                    0 <= i < pre.len() && decode((#[trigger] pre[i]).bytes@) is ConAcknowledge
                        && decode(pre[i].bytes@)->ConAcknowledge_0.origin_id == r.host_id;
                assert(inbound[i] == pre[i]);
                assert(!r.hosting());
            } else {
                assert(inbound[inbound.len() - 1] == d);
            }
        }
    }
}

/// Over a whole tick, an endpoint that follows a host keeps following that
/// host; an idle or hosting endpoint that is not connecting stays
/// unattached; and an endpoint that ends the tick following another id
/// than before received, in that tick, an acknowledgement from that id.
pub proof fn lemma_tick_roles(s: EndpointState, inbound: Seq<Datagram>, now: u64, draws: Seq<u32>)
    requires
        s.wf(),
        draws.len() == inbound.len(),
    ensures
        !s.hosting() ==> on_tick(s, inbound, now, draws).state.host_id == s.host_id,
        s.hosting() && !s.connecting ==> on_tick(s, inbound, now, draws).state.hosting(),
        on_tick(s, inbound, now, draws).state.host_id != s.host_id ==> exists|i: int|
            0 <= i < inbound.len() && decode((#[trigger] inbound[i]).bytes@) is ConAcknowledge
                && decode(inbound[i].bytes@)->ConAcknowledge_0.origin_id == on_tick(
                s,
                inbound,
                now,
                draws,
            ).state.host_id,
{
    if s.socket.is_some() {
        lemma_datagrams_roles(s, inbound, now, draws);
        let r = on_datagrams(s, inbound, now, draws).state;
        lemma_role_exclusive(r, Packet::Empty, PeerAddr { ip: 0, port: 0 }, now, 0);
        if s.hosting() && !s.connecting {
            if !r.hosting() {
                let i = choose|i: int|
                    0 <= i < inbound.len() && decode((#[trigger] inbound[i]).bytes@) is ConAcknowledge
                        && decode(inbound[i].bytes@)->ConAcknowledge_0.origin_id == r.host_id;
            }
        }
    }
}

proof fn lemma_datagrams_authority(s: EndpointState, inbound: Seq<Datagram>, now: u64, draws: Seq<u32>)
    requires
        s.wf(),
        !s.hosting(),
        draws.len() >= inbound.len(),
        first_id(s.peers, s.host_id) < s.peers.len(),
        no_delete_from(inbound, host_addr(s)),
    ensures
        keeps_entries(s.peers, on_datagrams(s, inbound, now, draws).state.peers),
        no_departures(on_datagrams(s, inbound, now, draws).events),
    decreases inbound.len(),
{
    if inbound.len() > 0 {
        let pre = inbound.drop_last();
        assert(no_delete_from(pre, host_addr(s))) by {
            assert forall|i: int| 0 <= i < pre.len() implies !(decode((#[trigger] pre[i]).bytes@) is ConDelete
                && pre[i].from == host_addr(s)) by {
                assert(pre[i] == inbound[i]);
            }
        }
        lemma_datagrams_authority(s, pre, now, draws);
        lemma_datagrams_roles(s, pre, now, draws);
        let before = on_datagrams(s, pre, now, draws);
        let r = before.state;
        let d = inbound.last();
        let p = decode(d.bytes@);
        let step = on_packet(r, p, d.from, now, draws[inbound.len() - 1]);
        let h = first_id(s.peers, s.host_id);
        assert(is_first_id(s.peers, s.host_id, h)) by {
            assert(exists|k: int| is_first_id(s.peers, s.host_id, k)) by {
                lemma_no_first_means_absent(s.peers, s.host_id, h);
            }
        }
        lemma_first_id(r.peers, r.host_id, h);
        assert(from_host(r, d.from) == (d.from == host_addr(s)));
        assert(inbound[inbound.len() - 1] == d);
        lemma_eviction_authority(r, p, d.from, now, draws[inbound.len() - 1]);
        let all = on_datagrams(s, inbound, now, draws).events;
        assert forall|i: int| 0 <= i < all.len() implies !((#[trigger] all[i]) is PeerDisconnected) by {
            if i < before.events.len() {
                assert(all[i] == before.events[i]);
            } else {
                assert(all[i] == step.events[i - before.events.len()]);
            }
        }
    }
}

/// Over a whole tick, a subordinate whose table holds its host keeps every
/// entry (same place, id and address) and reports no departure, as long as
/// no `ConDelete` arrives from its host's address, however long any peer
/// has been silent.
pub proof fn lemma_tick_eviction_authority(s: EndpointState, inbound: Seq<Datagram>, now: u64, draws: Seq<u32>)
    requires
        s.wf(),
        !s.hosting(),
        draws.len() == inbound.len(),
        first_id(s.peers, s.host_id) < s.peers.len(),
        no_delete_from(inbound, host_addr(s)),
    ensures
        on_tick(s, inbound, now, draws).state.host_id == s.host_id,
        keeps_entries(s.peers, on_tick(s, inbound, now, draws).state.peers),
        no_departures(on_tick(s, inbound, now, draws).events),
{
    lemma_tick_roles(s, inbound, now, draws);
    if s.socket.is_some() {
        lemma_datagrams_authority(s, inbound, now, draws);
        lemma_datagrams_roles(s, inbound, now, draws);
        let r = on_datagrams(s, inbound, now, draws);
        lemma_eviction_authority(r.state, Packet::Empty, PeerAddr { ip: 0, port: 0 }, now, 0);
        let all = on_tick(s, inbound, now, draws).events;
        assert(all =~= r.events + on_sweep(r.state, now).events);
        assert forall|i: int| 0 <= i < all.len() implies !((#[trigger] all[i]) is PeerDisconnected) by {
            assert(all[i] == r.events[i]);
        }
    }
}

/// `k` is the one index of `peers` with address `a`.
pub open spec fn sole_entry(peers: Seq<PeerRecord>, a: PeerAddr, k: int) -> bool {
    &&& 0 <= k < peers.len()
    &&& peers[k].addr == a
    &&& forall|j: int| 0 <= j < peers.len() && (#[trigger] peers[j]).addr == a ==> j == k
}

/// `events` opens with the one connection of `id`; all that follows are
/// departures.
pub open spec fn joined_first(events: Seq<NetworkEvent>, id: NetID) -> bool {
    &&& events.len() >= 1
    &&& events[0] == NetworkEvent::PeerConnected(id)
    &&& forall|i: int| 1 <= i < events.len() ==> (#[trigger] events[i]) is PeerDisconnected
}

/// Two connection requests from the same new address reaching a host in
/// one tick leave exactly one table entry with that address and report
/// exactly one `PeerConnected`, for that entry's id, ahead of any departure
/// the sweep reports.
pub proof fn lemma_tick_duplicate_request(s: EndpointState, inbound: Seq<Datagram>, a: PeerAddr, now: u64, draws: Seq<u32>)
    requires
        s.wf(),
        s.socket.is_some(),
        s.hosting(),
        !s.connecting,
        !knows_addr(s.peers, a),
        s.peers.len() < 0xFFFF_FFFF,
        inbound.len() == 2,
        draws.len() == 2,
        forall|i: int| 0 <= i < 2 ==> decode((#[trigger] inbound[i]).bytes@) == Packet::ConRequest(ConRequestPacket)
            && inbound[i].from == a,
    ensures
        exists|k: int|
            #[trigger] sole_entry(on_tick(s, inbound, now, draws).state.peers, a, k) && joined_first(
                on_tick(s, inbound, now, draws).events,
                on_tick(s, inbound, now, draws).state.peers[k].id,
            ),
{
    let req = Packet::ConRequest(ConRequestPacket);
    let one = inbound.drop_last();
    assert(one.drop_last() =~= Seq::<Datagram>::empty());
    assert(one[0] == inbound[0]);
    let r0 = on_datagrams(s, one.drop_last(), now, draws);
    assert(r0 == unchanged(s));
    let r1 = on_datagrams(s, one, now, draws);
    assert(r1 == then(r0, on_packet(s, req, a, now, draws[0])));
    let n = NetID(Some(s.next_free(draws[0])));
    let rec = PeerRecord { id: n, addr: a, last_seen: now };
    assert(r1.state.peers == s.peers.push(rec));
    assert(r1.events =~= seq![NetworkEvent::PeerConnected(n)]);
    assert(knows_addr(r1.state.peers, a)) by {
        assert(r1.state.peers[s.peers.len() as int].addr == a);
    }
    let r2 = on_datagrams(s, inbound, now, draws);
    assert(r2 == then(r1, on_packet(r1.state, req, a, now, draws[1])));
    assert(r2.state == r1.state);
    assert(r2.events =~= r1.events);
    let peers = r1.state.peers;
    assert(peers.drop_last() =~= s.peers);
    let kept = survivors(peers, now);
    assert(kept == survivors(s.peers, now).push(rec));
    let k = survivors(s.peers, now).len() as int;
    let t = on_tick(s, inbound, now, draws);
    assert(t.state.peers == kept);
    lemma_survivors_from(s.peers, now);
    assert forall|j: int| 0 <= j < t.state.peers.len() && t.state.peers[j].addr == a implies j == k by {
        if j < k {
            let m = choose|m: int| 0 <= m < s.peers.len() && #[trigger] survivors(s.peers, now)[j] == s.peers[m];
            assert(t.state.peers[j] == survivors(s.peers, now)[j]);
            assert(s.peers[m].addr == a);
        }
    }
    let gone = expired(peers, now);
    assert(t.events == r2.events + gone.map_values(|r: PeerRecord| NetworkEvent::PeerDisconnected(r.id)));
    assert(t.state.peers[k] == rec);
    assert(sole_entry(t.state.peers, a, k));
}

proof fn lemma_split_facts(peers: Seq<PeerRecord>, now: u64)
    ensures
        survivors(peers, now).len() + expired(peers, now).len() == peers.len(),
        forall|j: int| 0 <= j < survivors(peers, now).len() ==> alive(#[trigger] survivors(peers, now)[j], now),
        forall|i: int| 0 <= i < peers.len() && alive(peers[i], now) ==> survivors(peers, now).contains(#[trigger] peers[i]),
        forall|i: int|
            0 <= i < peers.len() && !alive(peers[i], now) ==> expired(peers, now).contains(#[trigger] peers[i]),
    decreases peers.len(),
{
    if peers.len() > 0 {
        let pre = peers.drop_last();
        lemma_split_facts(pre, now);
        let last = peers.last();
        assert forall|i: int| 0 <= i < peers.len() && alive(peers[i], now) implies survivors(peers, now).contains(
            #[trigger] peers[i],
        ) by {
            if i < pre.len() {
                assert(pre[i] == peers[i]);
                let j = choose|j: int| 0 <= j < survivors(pre, now).len() && survivors(pre, now)[j] == pre[i];
                if alive(last, now) {
                    assert(survivors(peers, now)[j] == pre[i]);
                }
            } else {
                assert(survivors(peers, now)[survivors(peers, now).len() - 1] == last);
            }
        }
        assert forall|i: int| 0 <= i < peers.len() && !alive(peers[i], now) implies expired(peers, now).contains(
            #[trigger] peers[i],
        ) by {
            if i < pre.len() {
                assert(pre[i] == peers[i]);
                let j = choose|j: int| 0 <= j < expired(pre, now).len() && expired(pre, now)[j] == pre[i];
                if !alive(last, now) {
                    assert(expired(peers, now)[j] == pre[i]);
                }
            } else {
                assert(expired(peers, now)[expired(peers, now).len() - 1] == last);
            }
        }
        assert forall|j: int| 0 <= j < survivors(peers, now).len() implies alive(#[trigger] survivors(peers, now)[j], now) by {
            if j < survivors(pre, now).len() {
                assert(survivors(peers, now)[j] == survivors(pre, now)[j]);
            }
        }
    }
}

proof fn lemma_deletions_facts(gone: Seq<PeerRecord>, kept: Seq<PeerRecord>)
    ensures
        forall|k: int|
            0 <= k < deletions(gone, kept).len() ==> exists|c: int|
                0 <= c < kept.len() && (#[trigger] deletions(gone, kept)[k]).to == kept[c].addr,
        forall|g: int, c: int|
            0 <= g < gone.len() && 0 <= c < kept.len() ==> deletions(gone, kept).contains(
                Outgoing {
                    packet: Packet::ConDelete(ConDeletePacket { peer_id: (#[trigger] gone[g]).id }),
                    to: (#[trigger] kept[c]).addr,
                },
            ),
    decreases gone.len(),
{
    if gone.len() > 0 {
        let pre = gone.drop_last();
        lemma_deletions_facts(pre, kept);
        let head = deletions(pre, kept);
        let tail = broadcast_to(kept, Packet::ConDelete(ConDeletePacket { peer_id: gone.last().id }));
        let all = deletions(gone, kept);
        assert(all == head + tail);
        assert forall|k: int| 0 <= k < all.len() implies exists|c: int|
            0 <= c < kept.len() && (#[trigger] all[k]).to == kept[c].addr by {
            if k < head.len() {
                assert(all[k] == head[k]);
                let c = choose|c: int| 0 <= c < kept.len() && (#[trigger] head[k]).to == kept[c].addr;
            } else {
                assert(all[k] == tail[k - head.len()]);
                assert(all[k].to == kept[k - head.len()].addr);
            }
        }
        assert forall|g: int, c: int| 0 <= g < gone.len() && 0 <= c < kept.len() implies all.contains(
            Outgoing {
                packet: Packet::ConDelete(ConDeletePacket { peer_id: (#[trigger] gone[g]).id }),
                to: (#[trigger] kept[c]).addr,
            },
        ) by {
            let o = Outgoing { packet: Packet::ConDelete(ConDeletePacket { peer_id: gone[g].id }), to: kept[c].addr };
            if g < pre.len() {
                assert(pre[g] == gone[g]);
                let k = choose|k: int| 0 <= k < head.len() && head[k] == o;
                assert(all[k] == o);
            } else {
                assert(all[head.len() + c] == o);
            }
        }
    }
}

/// The host's sweep: a peer silent for the disconnect timeout or longer
/// leaves the table (its id with it) and is reported gone, and each peer
/// that stays is told of each departure and sent a heartbeat; nothing is
/// sent to anyone who does not stay. Everyone else keeps their entry, and
/// the table shrinks by exactly the number of departures.
pub proof fn lemma_host_eviction(s: EndpointState, now: u64)
    requires
        s.wf(),
        s.socket.is_some(),
        s.hosting(),
    ensures
        on_sweep(s, now).state.peers.len() + expired(s.peers, now).len() == s.peers.len(),
        forall|i: int|
            0 <= i < s.peers.len() && alive(s.peers[i], now) ==> on_sweep(s, now).state.peers.contains(
                #[trigger] s.peers[i],
            ),
        forall|i: int|
            0 <= i < s.peers.len() && !alive(s.peers[i], now) ==> {
                &&& !has_id(on_sweep(s, now).state.peers, (#[trigger] s.peers[i]).id)
                &&& on_sweep(s, now).events.contains(NetworkEvent::PeerDisconnected(s.peers[i].id))
            },
        forall|i: int, c: int|
            0 <= i < s.peers.len() && !alive(s.peers[i], now) && 0 <= c < on_sweep(s, now).state.peers.len()
                ==> on_sweep(s, now).sends.contains(
                Outgoing {
                    packet: Packet::ConDelete(ConDeletePacket { peer_id: (#[trigger] s.peers[i]).id }),
                    to: (#[trigger] on_sweep(s, now).state.peers[c]).addr,
                },
            ),
        forall|c: int|
            0 <= c < on_sweep(s, now).state.peers.len() ==> on_sweep(s, now).sends.contains(
                Outgoing {
                    packet: Packet::ConHeartbeat(ConHeartbeatPacket { origin_id: s.id }),
                    to: (#[trigger] on_sweep(s, now).state.peers[c]).addr,
                },
            ),
        forall|k: int|
            0 <= k < on_sweep(s, now).sends.len() ==> exists|c: int|
                0 <= c < on_sweep(s, now).state.peers.len() && (#[trigger] on_sweep(s, now).sends[k]).to
                    == on_sweep(s, now).state.peers[c].addr,
        forall|k: int|
            0 <= k < on_sweep(s, now).events.len() ==> (#[trigger] on_sweep(s, now).events[k]) is PeerDisconnected,
{
    let kept = survivors(s.peers, now);
    let gone = expired(s.peers, now);
    let r = on_sweep(s, now);
    let beat = Packet::ConHeartbeat(ConHeartbeatPacket { origin_id: s.id });
    lemma_split_facts(s.peers, now);
    lemma_deletions_facts(gone, kept);
    lemma_survivors_from(s.peers, now);
    let dels = deletions(gone, kept);
    let beats = broadcast_to(kept, beat);
    assert(r.sends == dels + beats);
    assert forall|i: int| 0 <= i < s.peers.len() && !alive(s.peers[i], now) implies {
        &&& !has_id(r.state.peers, (#[trigger] s.peers[i]).id)
        &&& r.events.contains(NetworkEvent::PeerDisconnected(s.peers[i].id))
    } by {
        if has_id(r.state.peers, s.peers[i].id) {
            let j = choose|j: int| 0 <= j < r.state.peers.len() && (#[trigger] r.state.peers[j]).id == s.peers[i].id;
            let m = choose|m: int| 0 <= m < s.peers.len() && #[trigger] kept[j] == s.peers[m];
            assert(alive(kept[j], now));
            if m != i {
                if m < i {
                    assert(s.peers[m].id != s.peers[i].id);
                } else {
                    assert(s.peers[i].id != s.peers[m].id);
                }
            }
        }
        let g = choose|g: int| 0 <= g < gone.len() && gone[g] == s.peers[i];
        assert(r.events[g] == NetworkEvent::PeerDisconnected(s.peers[i].id));
    }
    assert forall|i: int, c: int|
        0 <= i < s.peers.len() && !alive(s.peers[i], now) && 0 <= c < r.state.peers.len() implies r.sends.contains(
        Outgoing {
            packet: Packet::ConDelete(ConDeletePacket { peer_id: (#[trigger] s.peers[i]).id }),
            to: (#[trigger] r.state.peers[c]).addr,
        },
    ) by {
        let g = choose|g: int| 0 <= g < gone.len() && gone[g] == s.peers[i];
        let o = Outgoing { packet: Packet::ConDelete(ConDeletePacket { peer_id: gone[g].id }), to: kept[c].addr };
        assert(dels.contains(o));
        let k = choose|k: int| 0 <= k < dels.len() && dels[k] == o;
        assert(r.sends[k] == o);
    }
    assert forall|c: int| 0 <= c < r.state.peers.len() implies r.sends.contains(
        Outgoing { packet: beat, to: (#[trigger] r.state.peers[c]).addr },
    ) by {
        assert(r.sends[dels.len() + c] == beats[c]);
    }
    assert forall|k: int| 0 <= k < r.sends.len() implies exists|c: int|
        0 <= c < r.state.peers.len() && (#[trigger] r.sends[k]).to == r.state.peers[c].addr by {
        if k < dels.len() {
            assert(r.sends[k] == dels[k]);
            let c = choose|c: int| 0 <= c < kept.len() && (#[trigger] dels[k]).to == kept[c].addr;
        } else {
            assert(r.sends[k] == beats[k - dels.len()]);
            assert(r.sends[k].to == kept[k - dels.len()].addr);
        }
    }
}

proof fn lemma_scan_reaches(local: Option<PeerAddr>, ip: u32, port: u16, n: nat)
    requires
        PORT_PREFIX <= port < PORT_PREFIX + n,
        n <= PORT_RANGE,
        local != Some(PeerAddr { ip, port }),
    ensures
        scan(local, ip, n).contains(
            Outgoing { packet: Packet::ConRequest(ConRequestPacket), to: PeerAddr { ip, port } },
        ),
    decreases n,
{
    let o = Outgoing { packet: Packet::ConRequest(ConRequestPacket), to: PeerAddr { ip, port } };
    let rest = scan(local, ip, (n - 1) as nat);
    if port < PORT_PREFIX + (n - 1) {
        lemma_scan_reaches(local, ip, port, (n - 1) as nat);
        let k = choose|k: int| 0 <= k < rest.len() && rest[k] == o;
        assert(scan(local, ip, n)[k] == o);
    } else {
        assert(scan(local, ip, n)[rest.len() as int] == o);
    }
}

/// Joining through a follower: a follower that knows its host answers a
/// request from a new address with exactly one redirect to the host's
/// address and changes nothing; an unattached endpoint that gets that
/// redirect asks for a connection at the host's address (when the host's
/// port is in the range and is not its own address) without touching its
/// table or whom it follows; and a host admitting a newcomer acknowledges
/// it with a fresh id, introduces it to every existing peer and every peer
/// to it, appends it to the table and reports it.
pub proof fn lemma_join_through_follower(
    b: EndpointState,
    c: EndpointState,
    a: EndpointState,
    newcomer: PeerAddr,
    now: u64,
    draw: u32,
)
    requires
        b.wf(),
        b.socket.is_some(),
        !b.hosting(),
        !b.connecting,
        first_id(b.peers, b.host_id) < b.peers.len(),
        !knows_addr(b.peers, newcomer),
        c.wf(),
        c.socket.is_some(),
        c.hosting(),
        PORT_PREFIX <= host_addr(b).port < PORT_PREFIX + PORT_RANGE,
        c.socket != Some(host_addr(b)),
        a.wf(),
        a.socket.is_some(),
        a.hosting(),
        !a.connecting,
        !knows_addr(a.peers, newcomer),
        a.peers.len() < 0xFFFF_FFFF,
    ensures
        on_packet(b, Packet::ConRequest(ConRequestPacket), newcomer, now, draw) == (Reaction {
            state: b,
            events: seq![],
            sends: seq![
                Outgoing {
                    packet: Packet::ConRedirect(ConRedirectPacket { host_socket: host_addr(b) }),
                    to: newcomer,
                },
            ],
        }),
        on_packet(
            c,
            Packet::ConRedirect(ConRedirectPacket { host_socket: host_addr(b) }),
            b.socket.unwrap(),
            now,
            draw,
        ).state == c,
        on_packet(
            c,
            Packet::ConRedirect(ConRedirectPacket { host_socket: host_addr(b) }),
            b.socket.unwrap(),
            now,
            draw,
        ).sends.contains(Outgoing { packet: Packet::ConRequest(ConRequestPacket), to: host_addr(b) }),
        ({
            let r = on_packet(a, Packet::ConRequest(ConRequestPacket), newcomer, now, draw);
            let n = r.state.peers.last().id;
            &&& r.state.peers == a.peers.push(PeerRecord { id: n, addr: newcomer, last_seen: now })
            &&& n.0.is_some() && n != a.id && !has_id(a.peers, n)
            &&& r.events == seq![NetworkEvent::PeerConnected(n)]
            &&& r.sends == seq![
                Outgoing {
                    packet: Packet::ConAcknowledge(ConAcknowledgePacket { origin_id: a.id, assigned_id: n }),
                    to: newcomer,
                },
            ] + introductions(a.peers, n, newcomer)
        }),
{
    let h = host_addr(b);
    lemma_scan_reaches(c.socket, h.ip, h.port, PORT_RANGE as nat);
    lemma_next_free_fresh(a, draw);
}

} // verus!
