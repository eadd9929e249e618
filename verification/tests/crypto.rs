//! Tests of the cryptographic surface: BLS keys and signatures, content
//! hashes and the Blake2b helpers.

use blockp2p::crypto::blake::Blake;
use blockp2p::crypto::hash;
use blockp2p::crypto::key;
use blockp2p::crypto::signature::{PrivateKey, PublicKey, Signature};
use blockp2p::identity::Identity;

#[test]
fn key_test_public_key() {
    let sk = key::PrivateKey::random();
    let pk = sk.public_key();
    let pk_ser = pk.as_bytes();
    assert!(pk_ser.len() == 48);

    let pk_de = key::PublicKey::from_bytes(&pk_ser);
    assert!(pk_de.is_ok());
    assert_eq!(pk, pk_de.unwrap());
}

#[test]
fn key_test_private_key() {
    let sk = key::PrivateKey::random();
    let sk_ser = sk.as_bytes();
    assert!(sk_ser.len() == 32);

    let sk_de = key::PrivateKey::from_bytes(&sk_ser);
    assert!(sk_de.is_ok());
    assert_eq!(sk, sk_de.unwrap());
}

#[test]
fn test_signature_verification() {
    let sk = PrivateKey::random();
    let pk = sk.public_key();
    let msg = "test message";
    let sig = Signature::sign(&sk, msg.as_bytes()).unwrap();
    assert!(sig.verify(&pk, msg.as_bytes()));
}

#[test]
fn test_signature_serde() {
    let sk = PrivateKey::random();
    let pk = sk.public_key();
    let msg = "test message";
    let sig = Signature::sign(&sk, msg.as_bytes()).unwrap();

    let sig_ser = sig.as_bytes();
    assert!(sig_ser.len() == 96);

    let sig_de = Signature::from_bytes(&sig_ser);
    assert!(sig_de.is_ok());

    let ss = sig_de.unwrap();
    assert_eq!(sig, ss);
    assert!(ss.verify(&pk, msg.as_bytes()));
}

#[test]
fn signature_test_public_key() {
    let sk = PrivateKey::random();
    let pk = sk.public_key();
    let pk_ser = pk.as_bytes();
    assert!(pk_ser.len() == 48);

    let pk_de = PublicKey::from_bytes(&pk_ser);
    assert!(pk_de.is_ok());
    assert_eq!(pk, pk_de.unwrap());
}

#[test]
fn signature_test_private_key() {
    let sk = PrivateKey::random();
    let sk_ser = sk.as_bytes();
    assert!(sk_ser.len() == 32);

    let sk_de = PrivateKey::from_bytes(&sk_ser);
    assert!(sk_de.is_ok());
    assert_eq!(sk, sk_de.unwrap());
}

#[test]
fn test_signature_rejects_wrong_key() {
    let sk = PrivateKey::random();
    let other = PrivateKey::random().public_key();
    let sig = Signature::sign(&sk, b"payload").unwrap();
    assert!(!sig.verify(&other, b"payload"));
    assert!(!sig.verify(&sk.public_key(), b"other payload"));
}

#[test]
fn test_encrypt_decrypt_roundtrip() {
    let sk = PrivateKey::random();
    let pk = sk.public_key();
    let ct = pk.encrypt(b"secret words").unwrap();
    let pt = sk.decrypt(&ct).unwrap();
    assert_eq!(pt, b"secret words".to_vec());
}

#[test]
fn test_hash_hex_matches_backend() {
    // The verified packing and hex encoding agree with the backend's own
    // hex formatting of the same digest.
    let h = hash::Hash::from_bytes(b"");
    assert_eq!(h.to_hex_string(), blake3::hash(b"").to_hex().to_string());
    let h = hash::Hash::from_bytes(b"some longer input with content");
    assert_eq!(
        h.to_hex_string(),
        blake3::hash(b"some longer input with content").to_hex().to_string()
    );
}

#[test]
fn test_hex_string_exact() {
    assert_eq!(hash::hex_string(&vec![0x00, 0x1a, 0xff]), "001aff");
    assert_eq!(hash::hex_string(&Vec::new()), "");
}

#[test]
fn test_hash_from_byte_arrays_is_hash_of_concatenation() {
    let parts = vec![b"ab".to_vec(), b"".to_vec(), b"cde".to_vec()];
    let joined = hash::Hash::from_bytes(b"abcde");
    let split = hash::Hash::from_byte_arrays(&parts);
    assert_eq!(joined, split);
    assert_eq!(joined.to_vec(), split.to_vec());
    assert_ne!(joined, hash::Hash::from_bytes(b"abcdef"));
}

#[test]
fn test_hash_random_distinct() {
    let a = hash::Hash::random();
    let b = hash::Hash::random();
    assert_ne!(a, b);
    assert_eq!(a.to_vec().len(), 32);
}

#[test]
fn test_blake_lengths_and_determinism() {
    let long = Blake::long(b"some input");
    let short = Blake::short(b"some input");
    assert_eq!(long.len(), 32);
    assert_eq!(short.len(), 20);
    assert_eq!(long, Blake::long(b"some input"));
    assert_ne!(Blake::long(b"some input"), Blake::long(b"other input"));
}

#[test]
fn test_identity_bytes_roundtrip() {
    let id = Identity::new();
    let bytes = id.to_bytes();
    let back = Identity::from_bytes(&bytes).unwrap();
    assert_eq!(back.public_id(), id.public_id());
    assert_eq!(back.to_bytes(), bytes);
    // The rebuilt identity signs with the same key.
    let sig = back.sign_message(b"still me").unwrap();
    assert!(id.verify_signature(b"still me", &sig).is_ok());
    // A truncated image is refused.
    let mut cut = bytes.clone();
    cut.pop();
    assert!(Identity::from_bytes(&cut).is_err());
}
