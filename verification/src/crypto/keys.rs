//! Ed25519 signing keys and X25519 encryption keys, backed by
//! `ed25519_dalek` and `x25519_dalek`. Key material is held as plain bytes;
//! the backends are reached through trusted wrappers with named results.

use vstd::prelude::*;

verus! {

/// Number of bytes of an Ed25519 or X25519 key.
pub const KEY_SIZE: usize = 32;

/// Number of bytes of an Ed25519 signature.
pub const ED_SIG_SIZE: usize = 64;

/// The bytes of the public key that `ed25519_dalek::PublicKey::from`
/// derives from the secret key with these bytes.
pub uninterp spec fn ed25519_pk_of(sk: Seq<u8>) -> Seq<u8>;

/// The bytes of the signature that `ed25519_dalek::ExpandedSecretKey::sign`
/// produces; Ed25519 signing is deterministic in the key and the message.
pub uninterp spec fn ed25519_sign_of(sk: Seq<u8>, msg: Seq<u8>) -> Seq<u8>;

/// Whether `ed25519_dalek::PublicKey::verify` accepts the signature bytes
/// for the message under the public-key bytes (false as well when either
/// byte string is rejected by `from_bytes`).
pub uninterp spec fn ed25519_accepts(pk: Seq<u8>, msg: Seq<u8>, sig: Seq<u8>) -> bool;

/// The bytes of the public key that `x25519_dalek::PublicKey::from` derives
/// from the (clamped) secret key with these bytes.
pub uninterp spec fn x25519_pk_of(sk: Seq<u8>) -> Seq<u8>;

/// Relies on `ed25519_dalek::SecretKey::from_bytes` (accepts exactly the
/// 32-byte strings) and `PublicKey::from`: the derived public key depends
/// on the secret key alone and is 32 bytes.
#[verifier::external_body]
pub(crate) fn ed_derive_pk(sk: &Vec<u8>) -> (r: Option<Vec<u8>>)
    ensures
        (r is Some) == (sk@.len() == KEY_SIZE),
        r matches Some(pk) ==> pk@ == ed25519_pk_of(sk@) && pk@.len() == KEY_SIZE,
{
    let secret = ed25519_dalek::SecretKey::from_bytes(sk.as_slice()).ok()?;
    Some(ed25519_dalek::PublicKey::from(&secret).to_bytes().to_vec())
}

/// Relies on `ed25519_dalek::ExpandedSecretKey::sign`: a 64-byte signature
/// that depends on the key and the message alone, and that
/// `PublicKey::verify` accepts under the derived public key.
#[verifier::external_body]
pub(crate) fn ed_sign(sk: &Vec<u8>, msg: &[u8]) -> (r: Option<Vec<u8>>)
    ensures
        (r is Some) == (sk@.len() == KEY_SIZE),
        r matches Some(s) ==> s@ == ed25519_sign_of(sk@, msg@) && s@.len() == ED_SIG_SIZE
            && ed25519_accepts(ed25519_pk_of(sk@), msg@, s@),
{
    let secret = ed25519_dalek::SecretKey::from_bytes(sk.as_slice()).ok()?;
    let public = ed25519_dalek::PublicKey::from(&secret);
    let expanded = ed25519_dalek::ExpandedSecretKey::from(&secret);
    Some(expanded.sign(msg, &public).to_bytes().to_vec())
}

/// Relies on `ed25519_dalek::PublicKey::verify`: deterministic in the key,
/// message and signature bytes; accepts every signature that the matching
/// secret key made for the message.
#[verifier::external_body]
pub(crate) fn ed_verify(pk: &Vec<u8>, msg: &[u8], sig: &Vec<u8>) -> (r: bool)
    ensures
        r == ed25519_accepts(pk@, msg@, sig@),
        forall|sk: Seq<u8>|
            sk.len() == KEY_SIZE && pk@ == ed25519_pk_of(sk) && sig@
                == #[trigger] ed25519_sign_of(sk, msg@) ==> r,
{
    let public = match ed25519_dalek::PublicKey::from_bytes(pk.as_slice()) {
        Ok(p) => p,
        Err(_) => return false,
    };
    let signature = match ed25519_dalek::Signature::from_bytes(sig.as_slice()) {
        Ok(s) => s,
        Err(_) => return false,
    };
    ed25519_dalek::Verifier::verify(&public, msg, &signature).is_ok()
}

/// Relies on `x25519_dalek::StaticSecret::from` and `PublicKey::from`: the
/// derived public key depends on the secret bytes alone and is 32 bytes.
#[verifier::external_body]
pub(crate) fn x_derive_pk(sk: &Vec<u8>) -> (r: Option<Vec<u8>>)
    ensures
        (r is Some) == (sk@.len() == KEY_SIZE),
        r matches Some(pk) ==> pk@ == x25519_pk_of(sk@) && pk@.len() == KEY_SIZE,
{
    let arr = <[u8; 32]>::try_from(sk.as_slice()).ok()?;
    let secret = x25519_dalek::StaticSecret::from(arr);
    Some(x25519_dalek::PublicKey::from(&secret).to_bytes().to_vec())
}

} // verus!
