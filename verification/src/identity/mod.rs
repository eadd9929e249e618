//! Identity of a p2p node: its content-hash identifier together with the
//! BLS, Ed25519 and X25519 key material it signs, verifies, encrypts and
//! decrypts with. Authenticated messages are sign-then-encrypt: the
//! plaintext and its Ed25519 signature are framed and BLS-encrypted to the
//! recipient.

use crate::crypto::hash;
use crate::crypto::keys::{
    ed25519_accepts, ed25519_pk_of, ed25519_sign_of, ed_derive_pk, ed_sign, ed_verify,
    x25519_pk_of, x_derive_pk, ED_SIG_SIZE, KEY_SIZE,
};
use crate::crypto::signature::{
    bls_decrypt, bls_pk_of, bls_pk_ok, PrivateKey, PublicKey, PK_SIZE,
};
use crate::error::Error;
use crate::messaging::message::{dec_hash, enc_hash, lemma_dec_hash_round, lemma_hash_view_round};
use crate::wire::{
    bytes_eq, clone_bytes, dec_bytes, enc_bytes, lemma_dec_bytes_round, read_bytes, slice_to_vec,
    write_bytes,
};
use vstd::prelude::*;

/// The various public keys belonging to a node
pub mod public_id;

use public_id::PublicId;

verus! {

/// Identity of a p2p node
pub struct Identity {
    node_id: hash::Hash,
    secret_key: PrivateKey,
    public_key: PublicKey,
    encryption_secret_key: Vec<u8>,
    encryption_public_key: Vec<u8>,
    signing_secret_key: Vec<u8>,
    signing_public_key: Vec<u8>,
}

/// The plaintext recovered from an authenticated frame: the framed message,
/// provided the frame is exactly two byte strings and the second is a
/// signature of the first that verifies under `sign_pk`.
pub open spec fn auth_frame_open(frame: Seq<u8>, sign_pk: Seq<u8>) -> Option<Seq<u8>> {
    match dec_bytes(frame, 0) {
        Some((m, j)) => match dec_bytes(frame, j) {
            Some((sig, k)) => if k == frame.len() && ed25519_accepts(sign_pk, m, sig) {
                Some(m)
            } else {
                None
            },
            None => None,
        },
        None => None,
    }
}

/// The plaintext recovered from an authenticated message: the ciphertext is
/// opened with the recipient's BLS secret key, and the inner frame with the
/// claimed sender's signing key.
pub open spec fn auth_open(sk: Seq<u8>, ct: Seq<u8>, sign_pk: Seq<u8>) -> Option<Seq<u8>> {
    match bls_decrypt(sk, ct) {
        Some(frame) => auth_frame_open(frame, sign_pk),
        None => None,
    }
}

impl Identity {
    /// The node's identifier.
    pub closed spec fn spec_node_id(self) -> hash::Hash {
        self.node_id
    }

    /// The bytes of the node's BLS secret key.
    pub closed spec fn spec_bls_sk(self) -> Seq<u8> {
        self.secret_key@
    }

    /// The bytes of the node's BLS public key.
    pub closed spec fn spec_bls_pk(self) -> Seq<u8> {
        self.public_key@
    }

    /// The bytes of the node's X25519 secret key.
    pub closed spec fn spec_enc_sk(self) -> Seq<u8> {
        self.encryption_secret_key@
    }

    /// The bytes of the node's X25519 public key.
    pub closed spec fn spec_enc_pk(self) -> Seq<u8> {
        self.encryption_public_key@
    }

    /// The bytes of the node's Ed25519 secret key.
    pub closed spec fn spec_sign_sk(self) -> Seq<u8> {
        self.signing_secret_key@
    }

    /// The bytes of the node's Ed25519 public key.
    pub closed spec fn spec_sign_pk(self) -> Seq<u8> {
        self.signing_public_key@
    }

    /// The node's public identity, at its mathematical value.
    pub open spec fn spec_pid(self) -> crate::identity::public_id::PublicIdView {
        crate::identity::public_id::PublicIdView {
            node_id: self.spec_node_id(),
            public_key: self.spec_bls_pk(),
            encryption_public_key: self.spec_enc_pk(),
            signing_public_key: self.spec_sign_pk(),
        }
    }

    /// A well-formed identity: each public key is the one derived from the
    /// secret key beside it, and all key material has its proper length.
    pub closed spec fn wf(self) -> bool {
        &&& self.secret_key.wf()
        &&& self.public_key@ == bls_pk_of(self.secret_key@)
        &&& self.public_key.wf()
        &&& self.encryption_secret_key@.len() == KEY_SIZE
        &&& self.encryption_public_key@ == x25519_pk_of(self.encryption_secret_key@)
        &&& self.signing_secret_key@.len() == KEY_SIZE
        &&& self.signing_public_key@ == ed25519_pk_of(self.signing_secret_key@)
        &&& self.signing_public_key@.len() == KEY_SIZE
    }

    /// Creates a new random `Identity`.
    pub fn new() -> (r: Self)
        ensures
            r.wf(),
            identity_fields_ok(
                r.spec_bls_sk(),
                r.spec_bls_pk(),
                r.spec_enc_sk(),
                r.spec_enc_pk(),
                r.spec_sign_sk(),
                r.spec_sign_pk(),
            ),
            r.spec_sign_sk().len() == KEY_SIZE,
            r.spec_bls_sk().len() == crate::crypto::signature::SK_SIZE,
            crate::crypto::signature::bls_sk_ok(r.spec_bls_sk()),
            r.spec_bls_pk().len() == PK_SIZE,
            bls_pk_ok(r.spec_bls_pk()),
            r.spec_enc_pk().len() == KEY_SIZE,
            r.spec_sign_pk().len() == KEY_SIZE,
    {
        let secret_key = PrivateKey::random();
        let public_key = secret_key.public_key();
        let encryption_secret_key = crate::crypto::random_bytes(KEY_SIZE);
        let encryption_public_key = match x_derive_pk(&encryption_secret_key) {
            Some(pk) => pk,
            None => Vec::new(),
        };
        let signing_secret_key = crate::crypto::random_bytes(KEY_SIZE);
        let signing_public_key = match ed_derive_pk(&signing_secret_key) {
            Some(pk) => pk,
            None => Vec::new(),
        };
        let mut material: Vec<Vec<u8>> = Vec::new();
        material.push(public_key.as_bytes());
        material.push(clone_bytes(&encryption_public_key));
        material.push(clone_bytes(&signing_public_key));
        let node_id = hash::Hash::from_byte_arrays(&material);
        Identity {
            node_id,
            secret_key,
            public_key,
            encryption_secret_key,
            encryption_public_key,
            signing_secret_key,
            signing_public_key,
        }
    }

    /// Verify that a message was sent from the claimed peer to `Self`,
    /// using authenticated (sign-then-encrypt) encryption.
    pub fn verify_message(&self, peer_id: &PublicId, ct: &Vec<u8>) -> (r: Result<Vec<u8>, Error>)
        ensures
            (r is Ok) == (auth_open(
                self.spec_bls_sk(),
                ct@,
                peer_id.signing_public_key@,
            ) is Some),
            r matches Ok(m) ==> Some(m@) == auth_open(
                self.spec_bls_sk(),
                ct@,
                peer_id.signing_public_key@,
            ),
    {
        let frame = match self.secret_key.decrypt(ct) {
            Some(f) => f,
            None => {
                return Err(Error::VerificationFailed);
            },
        };
        let (m, j) = match read_bytes(&frame, 0) {
            Some(p) => p,
            None => {
                return Err(Error::VerificationFailed);
            },
        };
        let (sig, k) = match read_bytes(&frame, j) {
            Some(p) => p,
            None => {
                return Err(Error::VerificationFailed);
            },
        };
        if k == frame.len() && ed_verify(&peer_id.signing_public_key, m.as_slice(), &sig) {
            Ok(m)
        } else {
            Err(Error::VerificationFailed)
        }
    }

    /// Encrypt a message to a peer using authenticated (sign-then-encrypt)
    /// encryption: the plaintext and its signature are framed and
    /// BLS-encrypted to the peer.
    pub fn authenticate_message(&self, peer_id: &PublicId, msg: &[u8]) -> (r: Result<
        Vec<u8>,
        Error,
    >)
        ensures
            (r is Ok) == (self.spec_sign_sk().len() == KEY_SIZE
                && peer_id.public_key@.len() == PK_SIZE && bls_pk_ok(peer_id.public_key@)),
            r matches Ok(ct) ==> forall|sk: Seq<u8>|
                sk.len() == crate::crypto::signature::SK_SIZE
                    && crate::crypto::signature::bls_sk_ok(sk)
                    && #[trigger] bls_pk_of(sk) == peer_id.public_key@ ==> bls_decrypt(sk, ct@)
                    == Some(
                    enc_bytes(msg@) + enc_bytes(
                        ed25519_sign_of(self.spec_sign_sk(), msg@),
                    ),
                ),
    {
        let sig = match ed_sign(&self.signing_secret_key, msg) {
            Some(s) => s,
            None => {
                return Err(Error::SigningKeyError);
            },
        };
        let msg_vec = slice_to_vec(msg);
        let mut frame: Vec<u8> = Vec::new();
        write_bytes(&mut frame, &msg_vec);
        write_bytes(&mut frame, &sig);
        match crate::crypto::signature::bls_encrypt(&peer_id.public_key, frame.as_slice()) {
            Some(ct) => Ok(ct),
            None => Err(Error::BlsThresholdCryptoError),
        }
    }

    /// Sign a given message with the node's Ed25519 signing key.
    pub fn sign_message(&self, msg: &[u8]) -> (r: Result<Vec<u8>, Error>)
        ensures
            (r is Ok) == (self.spec_sign_sk().len() == KEY_SIZE),
            r matches Ok(s) ==> s@ == ed25519_sign_of(self.spec_sign_sk(), msg@)
                && s@.len() == ED_SIG_SIZE
                && ed25519_accepts(ed25519_pk_of(self.spec_sign_sk()), msg@, s@),
    {
        match ed_sign(&self.signing_secret_key, msg) {
            Some(s) => Ok(s),
            None => Err(Error::SigningKeyError),
        }
    }

    /// Verify a message's signature against the node's own signing key.
    pub fn verify_signature(&self, msg: &[u8], sig: &Vec<u8>) -> (r: Result<(), Error>)
        ensures
            (r is Ok) == ed25519_accepts(self.spec_sign_pk(), msg@, sig@),
    {
        if ed_verify(&self.signing_public_key, msg, sig) {
            Ok(())
        } else {
            Err(Error::VerificationFailed)
        }
    }

    /// Returns the BLS public key of this node.
    pub fn public_key(&self) -> (r: &PublicKey)
        ensures
            r@ == self.spec_bls_pk(),
    {
        &self.public_key
    }

    /// Returns the public key for encryption.
    pub fn encryption_public_key(&self) -> (r: &Vec<u8>)
        ensures
            r@ == self.spec_enc_pk(),
    {
        &self.encryption_public_key
    }

    /// Get the set of public keys for this node.
    pub fn public_id(&self) -> (r: PublicId)
        ensures
            r@ == self.spec_pid(),
            r.node_id == self.spec_node_id(),
            r.public_key@ == self.spec_bls_pk(),
            r.encryption_public_key@ == self.spec_enc_pk(),
            r.signing_public_key@ == self.spec_sign_pk(),
    {
        PublicId {
            node_id: self.node_id,
            public_key: self.public_key.as_bytes(),
            encryption_public_key: clone_bytes(&self.encryption_public_key),
            signing_public_key: clone_bytes(&self.signing_public_key),
        }
    }


    /// The byte image of this identity, secret material included: what the
    /// identifier and every key would have to be stored as. The image
    /// decodes back to exactly these fields, so rebuilding with
    /// `from_bytes` succeeds whenever the key material is well-formed.
    pub fn to_bytes(&self) -> (r: Vec<u8>)
        ensures
            r@ == enc_identity(
                self.spec_node_id(),
                self.spec_bls_sk(),
                self.spec_bls_pk(),
                self.spec_enc_sk(),
                self.spec_enc_pk(),
                self.spec_sign_sk(),
                self.spec_sign_pk(),
            ),
            dec_identity(r@) == Some(
                (
                    self.spec_node_id(),
                    self.spec_bls_sk(),
                    self.spec_bls_pk(),
                    self.spec_enc_sk(),
                    self.spec_enc_pk(),
                    self.spec_sign_sk(),
                    self.spec_sign_pk(),
                ),
            ),
    {
        let mut out: Vec<u8> = Vec::new();
        let nid_bytes = self.node_id.to_vec();
        let mut k: usize = 0;
        while k < nid_bytes.len()
            invariant
                k <= nid_bytes@.len(),
                nid_bytes@ == self.spec_node_id()@,
                out@ == nid_bytes@.subrange(0, k as int),
            decreases nid_bytes@.len() - k,
        {
            out.push(nid_bytes[k]);
            assert(out@ =~= nid_bytes@.subrange(0, k + 1 as int));
            k = k + 1;
        }
        proof {
            assert(nid_bytes@.subrange(0, nid_bytes@.len() as int) =~= nid_bytes@);
        }
        let sk = self.secret_key.as_bytes();
        write_bytes(&mut out, &sk);
        let pk = self.public_key.as_bytes();
        write_bytes(&mut out, &pk);
        write_bytes(&mut out, &self.encryption_secret_key);
        write_bytes(&mut out, &self.encryption_public_key);
        write_bytes(&mut out, &self.signing_secret_key);
        write_bytes(&mut out, &self.signing_public_key);
        proof {
            assert(out@ =~= enc_identity(
                self.spec_node_id(),
                self.spec_bls_sk(),
                self.spec_bls_pk(),
                self.spec_enc_sk(),
                self.spec_enc_pk(),
                self.spec_sign_sk(),
                self.spec_sign_pk(),
            ));
            lemma_identity_round(
                self.spec_node_id(),
                self.spec_bls_sk(),
                self.spec_bls_pk(),
                self.spec_enc_sk(),
                self.spec_enc_pk(),
                self.spec_sign_sk(),
                self.spec_sign_pk(),
            );
        }
        out
    }

    /// Rebuilds an identity from its byte image, re-deriving and checking
    /// every public key against the secret key stored beside it.
    pub fn from_bytes(data: &Vec<u8>) -> (r: Result<Identity, Error>)
        ensures
            (r is Ok) == (match dec_identity(data@) {
                Some((nid, sk, pk, esk, epk, ssk, spk)) => identity_fields_ok(
                    sk,
                    pk,
                    esk,
                    epk,
                    ssk,
                    spk,
                ),
                None => false,
            }),
            (match (r, dec_identity(data@)) {
                (Ok(id), Some((nid, sk, pk, esk, epk, ssk, spk))) => {
                    &&& id.spec_node_id() == nid
                    &&& id.spec_bls_sk() == sk
                    &&& id.spec_bls_pk() == pk
                    &&& id.spec_enc_sk() == esk
                    &&& id.spec_enc_pk() == epk
                    &&& id.spec_sign_sk() == ssk
                    &&& id.spec_sign_pk() == spk
                    &&& id.wf()
                },
                (Ok(id), None) => false,
                _ => true,
            }),
    {
        let (node_id, i1) = match crate::messaging::message::read_hash_at(data, 0) {
            Some(x) => x,
            None => {
                return Err(Error::VerificationFailed);
            },
        };
        let (sk, i2) = match read_bytes(data, i1) {
            Some(x) => x,
            None => {
                return Err(Error::VerificationFailed);
            },
        };
        let (pk, i3) = match read_bytes(data, i2) {
            Some(x) => x,
            None => {
                return Err(Error::VerificationFailed);
            },
        };
        let (esk, i4) = match read_bytes(data, i3) {
            Some(x) => x,
            None => {
                return Err(Error::VerificationFailed);
            },
        };
        let (epk, i5) = match read_bytes(data, i4) {
            Some(x) => x,
            None => {
                return Err(Error::VerificationFailed);
            },
        };
        let (ssk, i6) = match read_bytes(data, i5) {
            Some(x) => x,
            None => {
                return Err(Error::VerificationFailed);
            },
        };
        let (spk, i7) = match read_bytes(data, i6) {
            Some(x) => x,
            None => {
                return Err(Error::VerificationFailed);
            },
        };
        if i7 != data.len() {
            return Err(Error::VerificationFailed);
        }
        let secret_key = match PrivateKey::from_bytes(sk.as_slice()) {
            Ok(k) => k,
            Err(e) => {
                return Err(e);
            },
        };
        let public_key = secret_key.public_key();
        if !bytes_eq(&public_key.as_bytes(), &pk) {
            return Err(Error::BlsThresholdCryptoError);
        }
        let derived_epk = match x_derive_pk(&esk) {
            Some(k) => k,
            None => {
                return Err(Error::SigningKeyError);
            },
        };
        if !bytes_eq(&derived_epk, &epk) {
            return Err(Error::SigningKeyError);
        }
        let derived_spk = match ed_derive_pk(&ssk) {
            Some(k) => k,
            None => {
                return Err(Error::SigningKeyError);
            },
        };
        if !bytes_eq(&derived_spk, &spk) {
            return Err(Error::SigningKeyError);
        }
        Ok(Identity {
            node_id,
            secret_key,
            public_key,
            encryption_secret_key: esk,
            encryption_public_key: epk,
            signing_secret_key: ssk,
            signing_public_key: spk,
        })
    }

    /// Encrypt a message to the node's own BLS public key. A non-empty
    /// message is recovered by decryption under the matching secret key;
    /// the backend's ciphertext parser rejects the image of an empty one.
    pub fn encrypt_message(&self, data: &[u8]) -> (r: Result<Vec<u8>, Error>)
        ensures
            (r is Ok) == (self.spec_bls_pk().len() == PK_SIZE && bls_pk_ok(self.spec_bls_pk())),
            r matches Ok(ct) ==> forall|sk: Seq<u8>|
                data@.len() > 0 && sk.len() == crate::crypto::signature::SK_SIZE
                    && crate::crypto::signature::bls_sk_ok(sk)
                    && #[trigger] bls_pk_of(sk) == self.spec_bls_pk() ==> bls_decrypt(sk, ct@)
                    == Some(data@),
    {
        match self.public_key.encrypt(data) {
            Some(ct) => Ok(ct),
            None => Err(Error::BlsThresholdCryptoError),
        }
    }

    /// Decrypt a message with the node's BLS secret key.
    pub fn decrypt_message(&self, data: &Vec<u8>) -> (r: Result<Vec<u8>, Error>)
        ensures
            (r is Ok) == (bls_decrypt(self.spec_bls_sk(), data@) is Some),
            r matches Ok(m) ==> Some(m@) == bls_decrypt(self.spec_bls_sk(), data@),
    {
        match self.secret_key.decrypt(data) {
            Some(m) => Ok(m),
            None => Err(Error::VerificationFailed),
        }
    }
}

impl Default for Identity {
    /// A fresh random identity.
    fn default() -> (r: Self)
        ensures
            r.wf(),
    {
        Identity::new()
    }
}

/// The byte image of an identity: the node identifier, then each key as a
/// length-prefixed byte string, secret material included.
pub open spec fn enc_identity(
    nid: hash::Hash,
    sk: Seq<u8>,
    pk: Seq<u8>,
    esk: Seq<u8>,
    epk: Seq<u8>,
    ssk: Seq<u8>,
    spk: Seq<u8>,
) -> Seq<u8> {
    enc_hash(nid) + enc_bytes(sk) + enc_bytes(pk) + enc_bytes(esk) + enc_bytes(epk) + enc_bytes(
        ssk,
    ) + enc_bytes(spk)
}

/// Decodes the byte image of an identity, consuming the whole input.
pub open spec fn dec_identity(s: Seq<u8>) -> Option<
    (hash::Hash, Seq<u8>, Seq<u8>, Seq<u8>, Seq<u8>, Seq<u8>, Seq<u8>),
> {
    match dec_hash(s, 0) {
        Some((nid, i1)) => match dec_bytes(s, i1) {
            Some((sk, i2)) => match dec_bytes(s, i2) {
                Some((pk, i3)) => match dec_bytes(s, i3) {
                    Some((esk, i4)) => match dec_bytes(s, i4) {
                        Some((epk, i5)) => match dec_bytes(s, i5) {
                            Some((ssk, i6)) => match dec_bytes(s, i6) {
                                Some((spk, i7)) => if i7 == s.len() {
                                    Some((nid, sk, pk, esk, epk, ssk, spk))
                                } else {
                                    None
                                },
                                None => None,
                            },
                            None => None,
                        },
                        None => None,
                    },
                    None => None,
                },
                None => None,
            },
            None => None,
        },
        None => None,
    }
}

/// Key material that makes a well-formed identity: each secret key is
/// accepted by its backend and each public key is the one derived from the
/// secret key beside it.
pub open spec fn identity_fields_ok(
    sk: Seq<u8>,
    pk: Seq<u8>,
    esk: Seq<u8>,
    epk: Seq<u8>,
    ssk: Seq<u8>,
    spk: Seq<u8>,
) -> bool {
    &&& sk.len() == crate::crypto::signature::SK_SIZE
    &&& crate::crypto::signature::bls_sk_ok(sk)
    &&& pk == bls_pk_of(sk)
    &&& esk.len() == KEY_SIZE
    &&& epk == x25519_pk_of(esk)
    &&& ssk.len() == KEY_SIZE
    &&& spk == ed25519_pk_of(ssk)
}

/// Decoding the byte image of an identity yields its fields back.
#[verifier::spinoff_prover]
#[verifier::rlimit(100)]
pub proof fn lemma_identity_round(
    nid: hash::Hash,
    sk: Seq<u8>,
    pk: Seq<u8>,
    esk: Seq<u8>,
    epk: Seq<u8>,
    ssk: Seq<u8>,
    spk: Seq<u8>,
)
    requires
        sk.len() <= u64::MAX,
        pk.len() <= u64::MAX,
        esk.len() <= u64::MAX,
        epk.len() <= u64::MAX,
        ssk.len() <= u64::MAX,
        spk.len() <= u64::MAX,
    ensures
        dec_identity(enc_identity(nid, sk, pk, esk, epk, ssk, spk)) == Some(
            (nid, sk, pk, esk, epk, ssk, spk),
        ),
{
    let s = enc_identity(nid, sk, pk, esk, epk, ssk, spk);
    let b1 = enc_bytes(sk);
    let b2 = enc_bytes(pk);
    let b3 = enc_bytes(esk);
    let b4 = enc_bytes(epk);
    let b5 = enc_bytes(ssk);
    let b6 = enc_bytes(spk);
    assert(s =~= enc_hash(nid) + (b1 + (b2 + (b3 + (b4 + (b5 + (b6 + Seq::<u8>::empty())))))));
    assert(s.subrange(0, s.len() as int) =~= s);
    lemma_dec_hash_round(s, 0, nid, b1 + (b2 + (b3 + (b4 + (b5 + (b6 + Seq::<u8>::empty()))))));
    lemma_hash_view_round(nid);
    let i1: int = 32;
    lemma_dec_bytes_round(s, i1, sk, b2 + (b3 + (b4 + (b5 + (b6 + Seq::<u8>::empty())))));
    let i2: int = i1 + 8 + sk.len();
    lemma_dec_bytes_round(s, i2, pk, b3 + (b4 + (b5 + (b6 + Seq::<u8>::empty()))));
    let i3: int = i2 + 8 + pk.len();
    lemma_dec_bytes_round(s, i3, esk, b4 + (b5 + (b6 + Seq::<u8>::empty())));
    let i4: int = i3 + 8 + esk.len();
    lemma_dec_bytes_round(s, i4, epk, b5 + (b6 + Seq::<u8>::empty()));
    let i5: int = i4 + 8 + epk.len();
    lemma_dec_bytes_round(s, i5, ssk, b6 + Seq::<u8>::empty());
    let i6: int = i5 + 8 + ssk.len();
    assert(b6 + Seq::<u8>::empty() =~= b6);
    lemma_dec_bytes_round(s, i6, spk, Seq::<u8>::empty());
}

} // verus!
