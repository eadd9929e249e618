//! Node and network-related events surfaced to the embedding application.

use crate::connection::connection_types::NetAddr;
use crate::identity::public_id::PublicId;
use vstd::prelude::*;

verus! {

/// Types of peer-to-peer events
#[derive(Debug, Clone, PartialEq)]
pub enum Event {
    /// Events regarding the receipt of a new message
    NewMessage(Vec<u8>),
    /// Events regarding the sending of a new user message
    SentUserMessage {
        /// Intended recipient
        peer: PublicId,
        /// Payload
        message: Vec<u8>,
    },
    /// Unsent user messages
    UnsentUserMessage {
        /// Payload
        message: Vec<u8>,
        /// Tag
        token: u64,
    },
    /// Events regarding a successful connection
    ConnectedTo(PublicId),
    /// Events regarding a failed connection
    ConnectionFailure {
        /// Address of the lost peer
        peer: NetAddr,
        /// Error
        err: String,
    },
}

} // verus!
