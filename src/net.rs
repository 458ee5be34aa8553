pub mod imp;
pub mod packet;

use vstd::prelude::*;

use crate::misc::vec::Vec2;
use crate::net::imp::{
    broadcast_to, on_tick, closed, Datagram, EndpointState, NetError, NetworkImp, Outgoing,
    PeerRecord, scan, PORT_RANGE, opened,
};
use crate::net::packet::{NetID, Packet, PeerAddr, TransformPacket};

verus! {

/// What the endpoint tells the rest of the game after a tick.
#[derive(Copy, Clone, Debug, PartialEq, Eq, Structural)]
pub enum NetworkEvent {
    PeerConnected(NetID),
    PeerDisconnected(NetID),
    /// A position update; the coordinates are bit patterns of `f32` values.
    PeerMoved(NetID, Vec2<u32>),
}

/// A command from the game or its user.
#[derive(Copy, Clone, Debug, PartialEq, Eq, Structural)]
pub enum NetworkRequest {
    Open,
    Close,
    Connect(PeerAddr),
    Debug,
}

/// A local stand-in for a remote peer's object: whose it is and where it
/// was last reported (bit patterns of `f32` coordinates).
#[derive(Copy, Clone, Debug, PartialEq, Eq, Structural)]
pub struct NetSlaveTransformCom {
    pub origin: NetID,
    pub pos: Vec2<u32>,
}

/// The networking resource of the game: the endpoint and the proxies of the
/// remote peers' objects.
pub struct NetworkSyncSys {
    pub imp: NetworkImp,
    pub proxies: Vec<NetSlaveTransformCom>,
}

/// `proxies` with every proxy of `id` removed.
pub open spec fn without(proxies: Seq<NetSlaveTransformCom>, id: NetID) -> Seq<NetSlaveTransformCom>
    decreases proxies.len(),
{
    if proxies.len() == 0 {
        seq![]
    } else if proxies.last().origin == id {
        without(proxies.drop_last(), id)
    } else {
        without(proxies.drop_last(), id).push(proxies.last())
    }
}

/// `proxies` with every proxy of `id` moved to `pos`.
pub open spec fn moved(proxies: Seq<NetSlaveTransformCom>, id: NetID, pos: Vec2<u32>) -> Seq<NetSlaveTransformCom> {
    proxies.map_values(
        |p: NetSlaveTransformCom|
            if p.origin == id {
                NetSlaveTransformCom { origin: id, pos }
            } else {
                p
            },
    )
}

/// The proxies after one event: a joined peer gets a proxy at the origin, a
/// departed one loses its proxies, and a move overwrites the position of
/// the mover's proxies.
pub open spec fn apply_event(proxies: Seq<NetSlaveTransformCom>, e: NetworkEvent) -> Seq<NetSlaveTransformCom> {
    match e {
        NetworkEvent::PeerConnected(id) => proxies.push(
            NetSlaveTransformCom { origin: id, pos: Vec2 { x: 0, y: 0 } },
        ),
        NetworkEvent::PeerDisconnected(id) => without(proxies, id),
        NetworkEvent::PeerMoved(id, pos) => moved(proxies, id, pos),
    }
}

/// The proxies after the events of `events`, in order.
pub open spec fn apply_events(proxies: Seq<NetSlaveTransformCom>, events: Seq<NetworkEvent>) -> Seq<NetSlaveTransformCom>
    decreases events.len(),
{
    if events.len() == 0 {
        proxies
    } else {
        apply_event(apply_events(proxies, events.drop_last()), events.last())
    }
}

/// The position updates of one tick: for each authoritative position, in
/// order, a `Transform` from `me` to every peer.
pub open spec fn transforms(peers: Seq<PeerRecord>, me: NetID, masters: Seq<Vec2<u32>>) -> Seq<Outgoing>
    decreases masters.len(),
{
    if masters.len() == 0 {
        seq![]
    } else {
        transforms(peers, me, masters.drop_last()) + broadcast_to(
            peers,
            Packet::Transform(TransformPacket { origin_id: me, pos: masters.last() }),
        )
    }
}

/// A move overwrites, never blends: after a `PeerMoved(id, pos)` every proxy
/// of `id` stands exactly at `pos`, every other proxy keeps its place, and
/// no proxy appears or disappears.
pub proof fn lemma_move_overwrites(proxies: Seq<NetSlaveTransformCom>, events: Seq<NetworkEvent>, id: NetID, pos: Vec2<u32>)
    ensures
        apply_events(proxies, events.push(NetworkEvent::PeerMoved(id, pos))).len() == apply_events(
            proxies,
            events,
        ).len(),
        forall|i: int|
            0 <= i < apply_events(proxies, events).len() ==> {
                let before = apply_events(proxies, events)[i];
                let after = #[trigger] apply_events(proxies, events.push(NetworkEvent::PeerMoved(id, pos)))[i];
                &&& after.origin == before.origin
                &&& before.origin == id ==> after.pos == pos
                &&& before.origin != id ==> after.pos == before.pos
            },
{
    assert(events.push(NetworkEvent::PeerMoved(id, pos)).drop_last() =~= events);
}

impl NetworkSyncSys {
    /// A closed endpoint and no proxies.
    pub fn new() -> (r: Self)
        ensures
            r.imp@ == closed(),
            r.proxies@.len() == 0,
    {
        let imp = NetworkImp::new();
        assert(imp@.peers =~= seq![]);
        Self { imp, proxies: Vec::new() }
    }

    /// Updates the proxies from the events of a tick, in order.
    pub fn apply_events(&mut self, events: &Vec<NetworkEvent>)
        ensures
            final(self).proxies@ == apply_events(old(self).proxies@, events@),
            final(self).imp@ == old(self).imp@,
    {
        let mut i: usize = 0;
        while i < events.len()
            invariant
                i <= events@.len(),
                self.imp@ == old(self).imp@,
                self.proxies@ == apply_events(old(self).proxies@, events@.take(i as int)),
            decreases events@.len() - i,
        {
            let ghost before = self.proxies@;
            match events[i] {
                NetworkEvent::PeerConnected(id) => {
                    self.proxies.push(NetSlaveTransformCom { origin: id, pos: Vec2::new(0, 0) });
                },
                NetworkEvent::PeerDisconnected(id) => {
                    self.remove_proxies(id);
                },
                NetworkEvent::PeerMoved(id, pos) => {
                    self.move_proxies(id, pos);
                },
            }
            i = i + 1;
            assert(events@.take(i as int).drop_last() =~= events@.take(i - 1));
        }
        assert(events@.take(i as int) =~= events@);
    }

    fn remove_proxies(&mut self, id: NetID)
        ensures
            final(self).proxies@ == without(old(self).proxies@, id),
            final(self).imp@ == old(self).imp@,
    {
        let mut kept: Vec<NetSlaveTransformCom> = Vec::new();
        let mut i: usize = 0;
        while i < self.proxies.len()
            invariant
                i <= self.proxies@.len(),
                self.proxies@ == old(self).proxies@,
                kept@ == without(self.proxies@.take(i as int), id),
            decreases self.proxies@.len() - i,
        {
            let p = self.proxies[i];
            if p.origin != id {
                kept.push(p);
            }
            i = i + 1;
            assert(self.proxies@.take(i as int).drop_last() =~= self.proxies@.take(i - 1));
        }
        assert(self.proxies@.take(i as int) =~= self.proxies@);
        self.proxies = kept;
    }

    fn move_proxies(&mut self, id: NetID, pos: Vec2<u32>)
        ensures
            final(self).proxies@ == moved(old(self).proxies@, id, pos),
            final(self).imp@ == old(self).imp@,
    {
        let mut i: usize = 0;
        while i < self.proxies.len()
            invariant
                i <= self.proxies@.len(),
                self.imp@ == old(self).imp@,
                self.proxies@.len() == old(self).proxies@.len(),
                forall|j: int|
                    0 <= j < i ==> #[trigger] self.proxies@[j] == moved(old(self).proxies@, id, pos)[j],
                forall|j: int| i <= j < self.proxies@.len() ==> #[trigger] self.proxies@[j] == old(self).proxies@[j],
            decreases self.proxies@.len() - i,
        {
            if self.proxies[i].origin == id {
                self.proxies.set(i, NetSlaveTransformCom { origin: id, pos });
            }
            i = i + 1;
        }
        assert(self.proxies@ =~= moved(old(self).proxies@, id, pos));
    }

    /// Sends the tick's position updates: for each authoritative position,
    /// in order, a `Transform` from this endpoint to every peer.
    pub fn replicate(&self, masters: &Vec<Vec2<u32>>, outbox: &mut Vec<Outgoing>)
        ensures
            final(outbox)@ == old(outbox)@ + transforms(self.imp@.peers, self.imp@.id, masters@),
    {
        let mut i: usize = 0;
        while i < masters.len()
            invariant
                i <= masters@.len(),
                outbox@ == old(outbox)@ + transforms(self.imp@.peers, self.imp@.id, masters@.take(i as int)),
            decreases masters@.len() - i,
        {
            let packet = Packet::Transform(TransformPacket { origin_id: self.imp.id, pos: masters[i] });
            self.imp.broadcast(packet, outbox);
            i = i + 1;
            assert(masters@.take(i as int).drop_last() =~= masters@.take(i - 1));
            assert(outbox@ =~= old(outbox)@ + transforms(self.imp@.peers, self.imp@.id, masters@.take(i as int)));
        }
        assert(masters@.take(i as int) =~= masters@);
    }

    /// Carries out a command. `Open` closes the endpoint, drops every proxy
    /// and opens again at `bound`, the local address the caller managed to
    /// bind (`None` when the range was full). `Close` closes and drops every
    /// proxy. `Connect` starts joining the process at the address; when the
    /// endpoint is closed it fails and the endpoint stays closed. `Debug`
    /// changes nothing: the caller prints the state.
    pub fn request(&mut self, req: NetworkRequest, bound: Option<PeerAddr>, outbox: &mut Vec<Outgoing>) -> (r: Result<(), NetError>)
        requires
            old(self).imp@.wf(),
        ensures
            final(self).imp@.wf(),
            match req {
                NetworkRequest::Open => {
                    &&& final(self).proxies@.len() == 0
                    &&& final(outbox)@ == old(outbox)@
                    &&& bound.is_none() ==> r == Err::<(), NetError>(NetError::NoAvailablePorts)
                        && final(self).imp@ == closed()
                    &&& bound.is_some() ==> r == Ok::<(), NetError>(())
                        && exists|id: u32| final(self).imp@ == #[trigger] opened(bound.unwrap(), id)
                },
                NetworkRequest::Close => {
                    &&& r == Ok::<(), NetError>(())
                    &&& final(self).imp@ == closed()
                    &&& final(self).proxies@.len() == 0
                    &&& final(outbox)@ == old(outbox)@
                },
                NetworkRequest::Connect(a) => {
                    &&& final(self).proxies@ == old(self).proxies@
                    &&& old(self).imp.socket.is_none() ==> r == Err::<(), NetError>(NetError::SocketClosed)
                        && final(self).imp@ == closed() && final(outbox)@ == old(outbox)@
                    &&& old(self).imp.socket.is_some() ==> r == Ok::<(), NetError>(())
                        && final(self).imp@ == (EndpointState { peers: seq![], connecting: true, ..old(self).imp@ })
                        && final(outbox)@ == old(outbox)@ + scan(old(self).imp.socket, a.ip, PORT_RANGE as nat)
                },
                NetworkRequest::Debug => {
                    &&& r == Ok::<(), NetError>(())
                    &&& final(self).imp@ == old(self).imp@
                    &&& final(self).proxies@ == old(self).proxies@
                    &&& final(outbox)@ == old(outbox)@
                },
            },
    {
        match req {
            NetworkRequest::Open => {
                self.imp.close();
                self.proxies.clear();
                self.imp.open(bound)
            },
            NetworkRequest::Close => {
                self.imp.close();
                self.proxies.clear();
                Ok(())
            },
            NetworkRequest::Connect(a) => {
                let r = self.imp.connect(&a, outbox);
                if r.is_err() {
                    self.imp.close();
                }
                r
            },
            NetworkRequest::Debug => Ok(()),
        }
    }

    /// One tick: the endpoint handles `inbound` and runs its sweep, the
    /// events it reports update the proxies, and each authoritative
    /// position in `masters` goes out to every peer.
    pub fn run(
        &mut self,
        inbound: &Vec<Datagram>,
        now: u64,
        masters: &Vec<Vec2<u32>>,
        events: &mut Vec<NetworkEvent>,
        outbox: &mut Vec<Outgoing>,
    )
        requires
            old(self).imp@.wf(),
        ensures
            final(self).imp@.wf(),
            exists|draws: Seq<u32>|
                {
                    let t = #[trigger] on_tick(old(self).imp@, inbound@, now, draws);
                    &&& draws.len() == inbound@.len()
                    &&& final(self).imp@ == t.state
                    &&& final(events)@ == t.events
                    &&& final(self).proxies@ == apply_events(old(self).proxies@, t.events)
                    &&& final(outbox)@ == old(outbox)@ + t.sends + transforms(t.state.peers, t.state.id, masters@)
                },
    {
        let ghost s = self.imp@;
        let ghost o0 = outbox@;
        self.imp.process(inbound, now, events, outbox);
        let ghost o1 = outbox@;
        self.apply_events(events);
        self.replicate(masters, outbox);
        proof {
            let draws = choose|draws: Seq<u32>|
                {
                    &&& draws.len() == inbound@.len()
                    &&& self.imp@ == (#[trigger] on_tick(s, inbound@, now, draws)).state
                    &&& events@ == on_tick(s, inbound@, now, draws).events
                    &&& o1 == o0 + on_tick(s, inbound@, now, draws).sends
                };
            assert(outbox@ =~= o0 + on_tick(s, inbound@, now, draws).sends + transforms(
                self.imp@.peers,
                self.imp@.id,
                masters@,
            ));
        }
    }
}

} // verus!
