//! A peer-to-peer node substrate: bounded connection management, a
//! distance-vector routing table gossiped in redacted form, and a
//! retry-bounded random-walk dissemination protocol for application
//! payloads, over an external encrypted transport.

/// Configuration of a node
pub mod config;
/// Routing and connection protocol
pub mod connection;
/// Cryptographic primitives
pub mod crypto;
/// Implements error types
pub mod error;
/// Node and network-related events
pub mod event;
/// Identity of a node
pub mod identity;
/// Messaging protocol
pub mod messaging;
/// Functionality of a node on the network
pub mod node;
/// Low-level wire encoding primitives.
pub mod wire;

pub use config::Config;
pub use connection::routing::RoutingTable;
pub use connection::routing::SharedRoutingTable;
pub use connection::Connection;
pub use event::Event;
pub use identity::public_id::PublicId;
pub use identity::Identity;
pub use messaging::message::Message;
pub use messaging::Messaging;

