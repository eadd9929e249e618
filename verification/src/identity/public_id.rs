//! The public identity of a node: its identifier and the public keys a
//! peer needs to encrypt for it and to check its signatures. Key material
//! carried over the wire is held as plain bytes; it is validated only at
//! the point of use.

use crate::crypto::hash;
use crate::wire::clone_bytes;
use vstd::prelude::*;

verus! {

/// The mathematical value of a `PublicId`: the identifier and the key
/// material as byte strings.
pub struct PublicIdView {
    /// Node id
    pub node_id: hash::Hash,
    /// Public key for BLS encryption
    pub public_key: Seq<u8>,
    /// Public key for Diffie-Hellman key agreement
    pub encryption_public_key: Seq<u8>,
    /// Public key for signing messages
    pub signing_public_key: Seq<u8>,
}

/// Represents the various public keys belonging to a node
#[derive(Debug, PartialEq, Eq)]
pub struct PublicId {
    /// Node id
    pub node_id: hash::Hash,
    /// Public key for BLS encryption
    pub public_key: Vec<u8>,
    /// Public key for Diffie-Hellman key agreement
    pub encryption_public_key: Vec<u8>,
    /// Public key for signing messages
    pub signing_public_key: Vec<u8>,
}

impl View for PublicId {
    type V = PublicIdView;

    open spec fn view(&self) -> PublicIdView {
        PublicIdView {
            node_id: self.node_id,
            public_key: self.public_key@,
            encryption_public_key: self.encryption_public_key@,
            signing_public_key: self.signing_public_key@,
        }
    }
}

impl Clone for PublicId {
    fn clone(&self) -> (r: Self)
        ensures
            r@ == self@,
            r.node_id == self.node_id,
    {
        PublicId {
            node_id: self.node_id,
            public_key: clone_bytes(&self.public_key),
            encryption_public_key: clone_bytes(&self.encryption_public_key),
            signing_public_key: clone_bytes(&self.signing_public_key),
        }
    }
}

impl PublicId {
    /// Whether the two identities name the same node.
    pub fn same_node(&self, other: &PublicId) -> (r: bool)
        ensures
            r == (self.node_id == other.node_id),
    {
        self.node_id == other.node_id
    }
}

} // verus!
