//! Connection-related types: the network address of a peer, the state of a
//! tracked connection, and the pair a caller hands in when dialing a peer
//! whose identity is already known.

use crate::identity::public_id::PublicId;
use vstd::prelude::*;

verus! {

/// Network address of a peer: an IPv4 address and a port.
#[derive(Clone, Copy, PartialEq, Eq, Structural, Debug)]
pub struct NetAddr {
    /// The IPv4 address, as a big-endian integer.
    pub ip: u32,
    /// The port.
    pub port: u16,
}

/// Connection state
#[derive(Debug, Eq, PartialEq, Clone, Copy, Structural)]
pub enum ConnectionState {
    /// Initialized outgoing connection
    Connecting,
    /// Incoming connection from a peer
    Incoming,
    /// Connection established
    Connected,
}

/// Connection information for a node
#[derive(Debug, Clone)]
pub struct ConnectionInfo {
    /// Public identity of the node
    pub public_id: PublicId,
    /// Address of the node
    pub socket_addr: NetAddr,
}

/// One tracked connection: the peer's address, its identity once an
/// Identification message has set it, and the connection state.
#[derive(Debug, Clone)]
pub struct ConnEntry {
    /// Address of the peer.
    pub addr: NetAddr,
    /// The peer's identity; `None` until the peer identifies itself.
    pub id: Option<PublicId>,
    /// State of the connection.
    pub state: ConnectionState,
}

} // verus!
