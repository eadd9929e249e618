//! BLS public keys, private keys, and signatures, backed by `blsttc`. Key
//! and signature material is held as plain bytes; every call into the
//! backend goes through a trusted wrapper whose result is named, so that
//! the protocol logic above is verified against exact contracts.

use crate::error::Error;
use crate::wire::{bytes_eq, clone_bytes};
use vstd::prelude::*;

verus! {

/// Number of bytes of a BLS public key.
pub const PK_SIZE: usize = 48;

/// Number of bytes of a BLS secret key.
pub const SK_SIZE: usize = 32;

/// Number of bytes of a BLS signature.
pub const SIG_SIZE: usize = 96;

/// Whether these 32 bytes are a secret key the whole backend accepts:
/// `blsttc::SecretKey::from_bytes` parses them (a big-endian scalar below
/// the field modulus), and the stricter check of the signing path — the
/// `blst` key check, which also rejects the zero scalar — passes.
pub uninterp spec fn bls_sk_ok(sk: Seq<u8>) -> bool;

/// Whether `blsttc::PublicKey::from_bytes` accepts these 48 bytes.
pub uninterp spec fn bls_pk_ok(pk: Seq<u8>) -> bool;

/// The bytes of the public key that `blsttc::SecretKey::public_key` derives
/// from the secret key with these bytes.
pub uninterp spec fn bls_pk_of(sk: Seq<u8>) -> Seq<u8>;

/// The bytes of the signature that `blsttc::SecretKey::sign` produces; BLS
/// signing is deterministic in the key and the message.
pub uninterp spec fn bls_sign_of(sk: Seq<u8>, msg: Seq<u8>) -> Seq<u8>;

/// Whether `blsttc::PublicKey::verify` accepts the signature bytes for the
/// message under the public-key bytes (false as well when either byte
/// string is rejected by `from_bytes`).
pub uninterp spec fn bls_accepts(pk: Seq<u8>, msg: Seq<u8>, sig: Seq<u8>) -> bool;

/// What `blsttc::SecretKey::decrypt` recovers from the ciphertext bytes
/// under the secret key with these bytes (`None` as well when either byte
/// string is rejected by `from_bytes`); decryption is deterministic.
pub uninterp spec fn bls_decrypt(sk: Seq<u8>, ct: Seq<u8>) -> Option<Seq<u8>>;

/// Relies on `blsttc::SecretKey::random`, `to_bytes` and `sign`: a fresh
/// secret key whose bytes parse back, re-drawn until the signing path's
/// own `blst` key check accepts it (which rejects only the zero scalar).
#[verifier::external_body]
fn bls_random_sk() -> (r: Vec<u8>)
    ensures
        r@.len() == SK_SIZE,
        bls_sk_ok(r@),
{
    loop {
        let key = blsttc::SecretKey::random();
        if key.sign(b"").is_ok() {
            return key.to_bytes().to_vec();
        }
    }
}

/// Relies on `blsttc::PublicKey::from_bytes`: accepts or rejects the bytes
/// deterministically, and only ever accepts 48 of them.
#[verifier::external_body]
fn bls_check_pk(pk: &Vec<u8>) -> (r: bool)
    ensures
        r == (pk@.len() == PK_SIZE && bls_pk_ok(pk@)),
{
    match <[u8; 48]>::try_from(pk.as_slice()) {
        Ok(arr) => blsttc::PublicKey::from_bytes(arr).is_ok(),
        Err(_) => false,
    }
}

/// Relies on `blsttc::SecretKey::from_bytes`, `sign`, `public_key` and
/// `PublicKey::to_bytes`: the bytes are accepted exactly when they parse
/// and the signing path's `blst` key check passes (probed by signing);
/// the derived public key depends on the secret key alone, is 48 bytes,
/// and its own bytes parse back.
#[verifier::external_body]
fn bls_derive_pk(sk: &Vec<u8>) -> (r: Option<Vec<u8>>)
    ensures
        (r is Some) == (sk@.len() == SK_SIZE && bls_sk_ok(sk@)),
        r matches Some(pk) ==> pk@ == bls_pk_of(sk@) && pk@.len() == PK_SIZE && bls_pk_ok(pk@),
{
    let arr = <[u8; 32]>::try_from(sk.as_slice()).ok()?;
    let key = blsttc::SecretKey::from_bytes(arr).ok()?;
    key.sign(b"").ok()?;
    Some(key.public_key().to_bytes().to_vec())
}

/// Relies on `blsttc::SecretKey::sign`: succeeds exactly on the keys the
/// backend accepts (its internal `blst` check is what `bls_sk_ok` names);
/// a 96-byte signature that depends on the key and the message alone, and
/// that `PublicKey::verify` accepts under the derived public key.
#[verifier::external_body]
fn bls_sign_bytes(sk: &Vec<u8>, msg: &[u8]) -> (r: Option<Vec<u8>>)
    ensures
        (r is Some) == (sk@.len() == SK_SIZE && bls_sk_ok(sk@)),
        r matches Some(s) ==> s@ == bls_sign_of(sk@, msg@) && s@.len() == SIG_SIZE
            && bls_accepts(bls_pk_of(sk@), msg@, s@),
{
    let arr = <[u8; 32]>::try_from(sk.as_slice()).ok()?;
    let key = blsttc::SecretKey::from_bytes(arr).ok()?;
    let sig = key.sign(msg).ok()?;
    Some(sig.to_bytes().to_vec())
}

/// Relies on `blsttc::PublicKey::verify`: deterministic in the key, message
/// and signature bytes; accepts every signature that `SecretKey::sign` made
/// for the message with the matching secret key.
#[verifier::external_body]
fn bls_verify_bytes(pk: &Vec<u8>, msg: &[u8], sig: &Vec<u8>) -> (r: bool)
    ensures
        r == bls_accepts(pk@, msg@, sig@),
        forall|sk: Seq<u8>|
            sk.len() == SK_SIZE && bls_sk_ok(sk) && pk@ == bls_pk_of(sk) && sig@
                == #[trigger] bls_sign_of(sk, msg@) ==> r,
{
    let pk_arr = match <[u8; 48]>::try_from(pk.as_slice()) {
        Ok(a) => a,
        Err(_) => return false,
    };
    let sig_arr = match <[u8; 96]>::try_from(sig.as_slice()) {
        Ok(a) => a,
        Err(_) => return false,
    };
    match (blsttc::PublicKey::from_bytes(pk_arr), blsttc::Signature::from_bytes(sig_arr)) {
        (Ok(key), Ok(s)) => key.verify(&s, msg).is_ok(),
        _ => false,
    }
}

/// Relies on `blsttc::PublicKey::encrypt` and `Ciphertext::to_bytes`: the
/// ciphertext is randomized, so nothing is named of it; whatever it is,
/// `SecretKey::decrypt` under any secret key deriving this public key
/// recovers a non-empty message. Nothing is promised of the empty
/// message: its ciphertext image is one byte shorter than the least
/// length `Ciphertext::from_bytes` accepts, so decryption rejects it.
#[verifier::external_body]
pub(crate) fn bls_encrypt(pk: &Vec<u8>, msg: &[u8]) -> (r: Option<Vec<u8>>)
    ensures
        (r is Some) == (pk@.len() == PK_SIZE && bls_pk_ok(pk@)),
        r matches Some(ct) ==> forall|sk: Seq<u8>|
            msg@.len() > 0 && sk.len() == SK_SIZE && bls_sk_ok(sk) && #[trigger] bls_pk_of(sk)
                == pk@ ==> bls_decrypt(sk, ct@) == Some(msg@),
{
    let arr = <[u8; 48]>::try_from(pk.as_slice()).ok()?;
    let key = blsttc::PublicKey::from_bytes(arr).ok()?;
    Some(key.encrypt(msg).to_bytes())
}

/// Relies on `blsttc::SecretKey::decrypt` and `Ciphertext::from_bytes`:
/// deterministic in the secret-key and ciphertext bytes.
#[verifier::external_body]
fn bls_decrypt_bytes(sk: &Vec<u8>, ct: &Vec<u8>) -> (r: Option<Vec<u8>>)
    ensures
        (r is Some) == (bls_decrypt(sk@, ct@) is Some),
        r matches Some(m) ==> bls_decrypt(sk@, ct@) == Some(m@),
{
    let arr = <[u8; 32]>::try_from(sk.as_slice()).ok()?;
    let key = blsttc::SecretKey::from_bytes(arr).ok()?;
    let cipher = blsttc::Ciphertext::from_bytes(ct.as_slice()).ok()?;
    key.decrypt(&cipher)
}

/// A BLS public key.
#[derive(Debug, Clone)]
pub struct PublicKey {
    bytes: Vec<u8>,
}

impl View for PublicKey {
    type V = Seq<u8>;

    closed spec fn view(&self) -> Seq<u8> {
        self.bytes@
    }
}

impl PartialEq for PublicKey {
    fn eq(&self, other: &PublicKey) -> (r: bool) {
        bytes_eq(&self.bytes, &other.bytes)
    }
}

impl vstd::std_specs::cmp::PartialEqSpecImpl for PublicKey {
    open spec fn obeys_eq_spec() -> bool {
        true
    }

    open spec fn eq_spec(&self, other: &PublicKey) -> bool {
        self@ == other@
    }
}

impl PublicKey {
    /// A well-formed public key: 48 bytes that the backend accepts.
    pub open spec fn wf(self) -> bool {
        self@.len() == PK_SIZE && bls_pk_ok(self@)
    }

    /// Generates a `PublicKey` from bytes.
    pub fn from_bytes(data: &[u8]) -> (r: Result<Self, Error>)
        ensures
            (r is Ok) == (data@.len() == PK_SIZE && bls_pk_ok(data@)),
            r matches Ok(pk) ==> pk@ == data@ && pk.wf(),
    {
        let mut bytes: Vec<u8> = Vec::new();
        let mut k: usize = 0;
        while k < data.len()
            invariant
                k <= data@.len(),
                bytes@ == data@.subrange(0, k as int),
            decreases data@.len() - k,
        {
            bytes.push(data[k]);
            assert(bytes@ =~= data@.subrange(0, k + 1 as int));
            k = k + 1;
        }
        proof {
            assert(data@.subrange(0, data@.len() as int) =~= data@);
        }
        if bls_check_pk(&bytes) {
            Ok(PublicKey { bytes })
        } else {
            Err(Error::BlsThresholdCryptoError)
        }
    }

    /// Convert a `PublicKey` to bytes.
    pub fn as_bytes(&self) -> (r: Vec<u8>)
        ensures
            r@ == self@,
    {
        clone_bytes(&self.bytes)
    }

    /// Encrypts a message to this public key. The ciphertext is randomized;
    /// whatever it is, decryption under the matching secret key recovers a
    /// non-empty message (the backend's ciphertext parser rejects the
    /// image of an empty one).
    pub fn encrypt(&self, msg: &[u8]) -> (r: Option<Vec<u8>>)
        ensures
            (r is Some) == (self@.len() == PK_SIZE && bls_pk_ok(self@)),
            r matches Some(ct) ==> forall|sk: Seq<u8>|
                msg@.len() > 0 && sk.len() == SK_SIZE && bls_sk_ok(sk) && #[trigger] bls_pk_of(
                    sk,
                ) == self@ ==> bls_decrypt(sk, ct@) == Some(msg@),
    {
        bls_encrypt(&self.bytes, msg)
    }
}

/// A BLS private key.
#[derive(Debug, Clone)]
pub struct PrivateKey {
    bytes: Vec<u8>,
    pk_bytes: Vec<u8>,
}

impl View for PrivateKey {
    type V = Seq<u8>;

    closed spec fn view(&self) -> Seq<u8> {
        self.bytes@
    }
}

impl PartialEq for PrivateKey {
    fn eq(&self, other: &PrivateKey) -> (r: bool) {
        bytes_eq(&self.bytes, &other.bytes)
    }
}

impl vstd::std_specs::cmp::PartialEqSpecImpl for PrivateKey {
    open spec fn obeys_eq_spec() -> bool {
        true
    }

    open spec fn eq_spec(&self, other: &PrivateKey) -> bool {
        self@ == other@
    }
}

impl PrivateKey {
    /// A well-formed private key: 32 bytes the backend accepts, carrying
    /// the public key derived from them.
    pub closed spec fn wf(self) -> bool {
        self@.len() == SK_SIZE && bls_sk_ok(self@) && self.pk_bytes@ == bls_pk_of(self@)
            && self.pk_bytes@.len() == PK_SIZE && bls_pk_ok(self.pk_bytes@)
    }

    /// Generates a `PrivateKey` from bytes.
    pub fn from_bytes(data: &[u8]) -> (r: Result<Self, Error>)
        ensures
            (r is Ok) == (data@.len() == SK_SIZE && bls_sk_ok(data@)),
            r matches Ok(sk) ==> sk@ == data@ && sk.wf(),
    {
        let mut bytes: Vec<u8> = Vec::new();
        let mut k: usize = 0;
        while k < data.len()
            invariant
                k <= data@.len(),
                bytes@ == data@.subrange(0, k as int),
            decreases data@.len() - k,
        {
            bytes.push(data[k]);
            assert(bytes@ =~= data@.subrange(0, k + 1 as int));
            k = k + 1;
        }
        proof {
            assert(data@.subrange(0, data@.len() as int) =~= data@);
        }
        match bls_derive_pk(&bytes) {
            Some(pk_bytes) => Ok(PrivateKey { bytes, pk_bytes }),
            None => Err(Error::BlsThresholdCryptoError),
        }
    }

    /// Convert a `PrivateKey` to bytes.
    pub fn as_bytes(&self) -> (r: Vec<u8>)
        ensures
            r@ == self@,
    {
        clone_bytes(&self.bytes)
    }

    /// Generates a random `PrivateKey`.
    pub fn random() -> (r: Self)
        ensures
            r.wf(),
            r@.len() == SK_SIZE,
            bls_sk_ok(r@),
    {
        let bytes = bls_random_sk();
        let pk_bytes = match bls_derive_pk(&bytes) {
            Some(pk) => pk,
            None => Vec::new(),
        };
        PrivateKey { bytes, pk_bytes }
    }

    /// Retrieves the associated `PublicKey` of this `PrivateKey`.
    pub fn public_key(&self) -> (r: PublicKey)
        ensures
            self.wf() ==> r@ == bls_pk_of(self@) && r.wf(),
    {
        PublicKey { bytes: clone_bytes(&self.pk_bytes) }
    }

    /// Decrypts a ciphertext with this secret key.
    pub fn decrypt(&self, ct: &Vec<u8>) -> (r: Option<Vec<u8>>)
        ensures
            (r is Some) == (bls_decrypt(self@, ct@) is Some),
            r matches Some(m) ==> bls_decrypt(self@, ct@) == Some(m@),
    {
        bls_decrypt_bytes(&self.bytes, ct)
    }
}

/// A BLS signature.
#[derive(Debug, Clone)]
pub struct Signature {
    bytes: Vec<u8>,
}

impl View for Signature {
    type V = Seq<u8>;

    closed spec fn view(&self) -> Seq<u8> {
        self.bytes@
    }
}

impl PartialEq for Signature {
    fn eq(&self, other: &Signature) -> (r: bool) {
        bytes_eq(&self.bytes, &other.bytes)
    }
}

impl vstd::std_specs::cmp::PartialEqSpecImpl for Signature {
    open spec fn obeys_eq_spec() -> bool {
        true
    }

    open spec fn eq_spec(&self, other: &Signature) -> bool {
        self@ == other@
    }
}

impl Signature {
    /// Creates a new `Signature` carrying the given signature bytes.
    pub fn new(bytes: Vec<u8>) -> (r: Self)
        ensures
            r@ == bytes@,
    {
        Signature { bytes }
    }

    /// Sign a message.
    pub fn sign(private_key: &PrivateKey, data: &[u8]) -> (r: Result<Self, Error>)
        ensures
            (r is Ok) == (private_key@.len() == SK_SIZE && bls_sk_ok(private_key@)),
            r matches Ok(s) ==> s@ == bls_sign_of(private_key@, data@)
                && bls_accepts(bls_pk_of(private_key@), data@, s@),
    {
        match bls_sign_bytes(&private_key.bytes, data) {
            Some(bytes) => Ok(Signature { bytes }),
            None => Err(Error::BlsThresholdCryptoError),
        }
    }

    /// Creates a `Signature` from bytes.
    pub fn from_bytes(data: &[u8]) -> (r: Result<Self, Error>)
        ensures
            r is Ok,
            r matches Ok(s) ==> s@ == data@,
    {
        let mut bytes: Vec<u8> = Vec::new();
        let mut k: usize = 0;
        while k < data.len()
            invariant
                k <= data@.len(),
                bytes@ == data@.subrange(0, k as int),
            decreases data@.len() - k,
        {
            bytes.push(data[k]);
            assert(bytes@ =~= data@.subrange(0, k + 1 as int));
            k = k + 1;
        }
        proof {
            assert(data@.subrange(0, data@.len() as int) =~= data@);
        }
        Ok(Signature { bytes })
    }

    /// Convert a `Signature` to bytes.
    pub fn as_bytes(&self) -> (r: Vec<u8>)
        ensures
            r@ == self@,
    {
        clone_bytes(&self.bytes)
    }

    /// Verify a message.
    pub fn verify(&self, pub_key: &PublicKey, data: &[u8]) -> (r: bool)
        ensures
            r == bls_accepts(pub_key@, data@, self@),
            forall|sk: Seq<u8>|
                sk.len() == SK_SIZE && bls_sk_ok(sk) && pub_key@ == bls_pk_of(sk) && self@
                    == #[trigger] bls_sign_of(sk, data@) ==> r,
    {
        bls_verify_bytes(&pub_key.bytes, data, &self.bytes)
    }
}

} // verus!
