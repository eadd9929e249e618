//! Error taxonomy of the node. Transport and channel failures are raised by
//! the embedding layer; the library itself raises only the cryptographic and
//! routing variants.

use vstd::prelude::*;

verus! {

/// All error types
#[derive(Debug, Clone, PartialEq, Eq)]
pub enum Error {
    /// Key, signature or ciphertext bytes that the BLS backend rejects
    BlsThresholdCryptoError,
    /// A message could not be sent over the transport
    QuicSendError(String),
    /// A transport connection was lost or could not be made
    QuicConnectionError(String),
    /// Message not sent because the event channel is disconnected
    CrossbeamSendError,
    /// Signing-key bytes that the signing backend rejects
    SigningKeyError,
    /// A signature that does not verify, or a ciphertext that does not open
    VerificationFailed,
    /// No routing information found for this node
    NoRoutingInformation,
}

} // verus!
