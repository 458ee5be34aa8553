//! Peer-to-peer networking core of a small co-op game: a fixed-size wire
//! codec, peer identities, the host-authoritative endpoint state machine and
//! the replication of authoritative positions onto proxies.
pub mod input;
pub mod misc;
pub mod net;
