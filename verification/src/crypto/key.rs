//! BLS key material under its key-centric name: the same public and
//! private key types that the signature module defines.

pub use crate::crypto::signature::PrivateKey;
pub use crate::crypto::signature::PublicKey;
