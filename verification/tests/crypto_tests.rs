//! Tests for key agreement, sealing and key encoding.

use waku_a2a::crypto::AgentIdentity;

#[test]
fn roundtrip_encrypt_decrypt() {
    let alice = AgentIdentity::generate();
    let bob = AgentIdentity::generate();

    let key = alice.shared_key(&bob.public);
    let plaintext = b"Hello, encrypted world!";
    let encrypted = key.encrypt(plaintext).unwrap();
    let decrypted = key.decrypt(&encrypted).unwrap();
    assert_eq!(decrypted, plaintext);
}

#[test]
fn ecdh_shared_secret_symmetric() {
    let alice = AgentIdentity::generate();
    let bob = AgentIdentity::generate();

    let key_ab = alice.shared_key(&bob.public);
    let key_ba = bob.shared_key(&alice.public);

    let plaintext = b"symmetric test";
    let encrypted = key_ab.encrypt(plaintext).unwrap();
    let decrypted = key_ba.decrypt(&encrypted).unwrap();
    assert_eq!(decrypted, plaintext);
}

#[test]
fn different_nonce_each_encrypt() {
    let alice = AgentIdentity::generate();
    let bob = AgentIdentity::generate();
    let key = alice.shared_key(&bob.public);

    let e1 = key.encrypt(b"same plaintext").unwrap();
    let e2 = key.encrypt(b"same plaintext").unwrap();
    assert_ne!(e1.nonce, e2.nonce, "nonce must be random each time");
}

#[test]
fn from_hex_roundtrip() {
    let alice = AgentIdentity::generate();
    let hex_pub = alice.public_key_hex();
    let parsed = AgentIdentity::parse_public_key(&hex_pub).unwrap();
    assert_eq!(parsed, alice.public);
}

#[test]
fn wrong_key_cannot_decrypt() {
    let alice = AgentIdentity::generate();
    let bob = AgentIdentity::generate();
    let eve = AgentIdentity::generate();

    let key_ab = alice.shared_key(&bob.public);
    let key_ae = alice.shared_key(&eve.public);

    let encrypted = key_ab.encrypt(b"secret").unwrap();
    assert!(key_ae.decrypt(&encrypted).is_err());
}

#[test]
fn identity_from_hex_reconstructs_public_key() {
    let secret_hex = "77076d0a7318a57d3c16c17251b26645df4c2f87ebc0992ab177fba51db92c2a";
    let id1 = AgentIdentity::from_hex(secret_hex).unwrap();
    let id2 = AgentIdentity::from_hex(secret_hex).unwrap();
    assert_eq!(id1.public, id2.public);
    assert_eq!(id1.public.len(), 32);
    assert!(AgentIdentity::from_hex("not hex").is_err());
    assert!(AgentIdentity::from_hex("aabb").is_err());
}
