//! Cryptographic surface of the node: content hashes and the signing,
//! verification and encryption primitives, each reached through a thin
//! trusted wrapper around the backing cryptography crate.

/// Blake2b hashes of configurable length.
pub mod blake;
/// Blake3 content hashes used as node identifiers.
pub mod hash;
/// Ed25519 and X25519 key material.
pub mod keys;
/// BLS public keys, private keys, and signatures.
pub mod key;
/// BLS signing and encryption key material.
pub mod signature;

use vstd::prelude::*;

verus! {

/// Relies on `rand::thread_rng` and `rand::RngCore::fill_bytes`: fills a
/// buffer with random bytes. Nothing is promised of the values.
#[verifier::external_body]
pub(crate) fn random_bytes(n: usize) -> (r: Vec<u8>)
    ensures
        r@.len() == n,
{
    let mut buf = vec![0u8; n];
    rand::RngCore::fill_bytes(&mut rand::thread_rng(), &mut buf);
    buf
}

} // verus!
