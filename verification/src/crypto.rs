//! End-to-end encryption: X25519 key agreement and ChaCha20-Poly1305
//! sealing.  The outside primitives are named by uninterpreted functions;
//! everything around them — key encoding, payload framing, the round trip —
//! is verified against those names.

use vstd::prelude::*;

verus! {

use crate::A2AError;
use crate::encoding::{
    b64_decode, b64_encode, b64_of, b64_open, hex_decode, hex_encode, hex_of, hex_open,
    lemma_b64_round_trip,
};
use crate::model::{EncryptedPayload, EncryptedPayloadView};

/// The X25519 public key derived from a 32-byte secret.
pub uninterp spec fn x25519_public_of(secret: Seq<u8>) -> Seq<u8>;

/// The X25519 shared secret of a secret key and a peer public key.
pub uninterp spec fn x25519_shared(secret: Seq<u8>, their_public: Seq<u8>) -> Seq<u8>;

/// The ChaCha20-Poly1305 sealing of a plaintext under a key and nonce.
pub uninterp spec fn chacha_seal(key: Seq<u8>, nonce: Seq<u8>, plaintext: Seq<u8>) -> Seq<u8>;

/// The compressed SEC1 encoding of the secp256k1 public key derived from a
/// secret scalar.
pub uninterp spec fn secp256k1_public_of(secret: Seq<u8>) -> Seq<u8>;

/// What opening a sealed box yields: the unique preimage under the key and
/// nonce, if the ciphertext authenticates.
pub open spec fn chacha_open(key: Seq<u8>, nonce: Seq<u8>, ct: Seq<u8>) -> Option<Seq<u8>> {
    if exists|pt: Seq<u8>| #[trigger] chacha_seal(key, nonce, pt) == ct {
        Option::Some(choose|pt: Seq<u8>| #[trigger] chacha_seal(key, nonce, pt) == ct)
    } else {
        Option::None
    }
}

/// Relies on `x25519_dalek::StaticSecret::random_from_rng` with the system
/// RNG: 32 fresh random bytes.
#[verifier::external_body]
fn x25519_generate_secret() -> (r: Vec<u8>)
    ensures
        r@.len() == 32,
{
    x25519_dalek::StaticSecret::random_from_rng(rand::rngs::OsRng).to_bytes().to_vec()
}

/// Relies on `x25519_dalek::PublicKey::from(&StaticSecret)`: the X25519
/// basepoint multiple of the clamped secret, a function of the secret bytes
/// alone.
#[verifier::external_body]
fn x25519_public(secret: &Vec<u8>) -> (r: Vec<u8>)
    requires
        secret@.len() == 32,
    ensures
        r@.len() == 32,
        r@ == x25519_public_of(secret@),
{
    let mut arr = [0u8; 32];
    arr.copy_from_slice(secret);
    let s = x25519_dalek::StaticSecret::from(arr);
    x25519_dalek::PublicKey::from(&s).as_bytes().to_vec()
}

/// Relies on `x25519_dalek::StaticSecret::diffie_hellman`: X25519 scalar
/// multiplication of the peer's point by the clamped secret.  Diffie-Hellman
/// is symmetric — `k_a * P_b == k_b * P_a` — which the last clause states for
/// any secret the peer's key derives from.
#[verifier::external_body]
fn x25519_dh(secret: &Vec<u8>, their_public: &Vec<u8>) -> (r: Vec<u8>)
    requires
        secret@.len() == 32,
        their_public@.len() == 32,
    ensures
        r@.len() == 32,
        r@ == x25519_shared(secret@, their_public@),
        forall|other: Seq<u8>|
            #[trigger] x25519_public_of(other) == their_public@ ==> r@ == x25519_shared(
                other,
                x25519_public_of(secret@),
            ),
{
    let mut sa = [0u8; 32];
    sa.copy_from_slice(secret);
    let mut pa = [0u8; 32];
    pa.copy_from_slice(their_public);
    let s = x25519_dalek::StaticSecret::from(sa);
    let p = x25519_dalek::PublicKey::from(pa);
    s.diffie_hellman(&p).as_bytes().to_vec()
}

/// Relies on `rand::thread_rng` and `RngCore::fill_bytes`: 12 fresh random
/// bytes for use as an AEAD nonce.
#[verifier::external_body]
fn random_nonce() -> (r: Vec<u8>)
    ensures
        r@.len() == 12,
{
    let mut nonce = [0u8; 12];
    rand::RngCore::fill_bytes(&mut rand::thread_rng(), &mut nonce);
    nonce.to_vec()
}

/// Relies on `chacha20poly1305::ChaCha20Poly1305`'s `encrypt`: seals the
/// plaintext under the key and nonce, appending the 16-byte Poly1305 tag;
/// it fails only for plaintexts at or beyond the cipher's length limit of
/// about 2^38 bytes.
#[verifier::external_body]
fn chacha_encrypt(key: &Vec<u8>, nonce: &Vec<u8>, plaintext: &[u8]) -> (r: Result<
    Vec<u8>,
    A2AError,
>)
    requires
        key@.len() == 32,
        nonce@.len() == 12,
    ensures
        r matches Ok(ct) ==> ct@ == chacha_seal(key@, nonce@, plaintext@) && ct@.len()
            == plaintext@.len() + 16,
        plaintext@.len() < 0x100000000 ==> r is Ok,
{
    let cipher: chacha20poly1305::ChaCha20Poly1305 =
        match chacha20poly1305::aead::KeyInit::new_from_slice(key) {
            Ok(c) => c,
            Err(_) => return Err(A2AError::Crypto),
        };
    let n = chacha20poly1305::Nonce::from_slice(nonce);
    match chacha20poly1305::aead::Aead::encrypt(&cipher, n, plaintext) {
        Ok(ct) => Ok(ct),
        Err(_) => Err(A2AError::Crypto),
    }
}

/// Relies on `chacha20poly1305::ChaCha20Poly1305`'s `decrypt`: succeeds
/// exactly when the ciphertext authenticates under the key and nonce — that
/// is, on the image of the sealing function — and then returns its preimage.
#[verifier::external_body]
fn chacha_decrypt(key: &Vec<u8>, nonce: &Vec<u8>, ct: &Vec<u8>) -> (r: Result<Vec<u8>, A2AError>)
    requires
        key@.len() == 32,
        nonce@.len() == 12,
    ensures
        r matches Ok(v) ==> chacha_open(key@, nonce@, ct@) == Option::Some(v@),
        r is Err ==> chacha_open(key@, nonce@, ct@) is None,
        forall|pt: Seq<u8>|
            #[trigger] chacha_seal(key@, nonce@, pt) == ct@ ==> r is Ok && r->Ok_0@ == pt,
{
    let cipher: chacha20poly1305::ChaCha20Poly1305 =
        match chacha20poly1305::aead::KeyInit::new_from_slice(key) {
            Ok(c) => c,
            Err(_) => return Err(A2AError::Crypto),
        };
    let n = chacha20poly1305::Nonce::from_slice(nonce);
    match chacha20poly1305::aead::Aead::decrypt(&cipher, n, ct.as_slice()) {
        Ok(pt) => Ok(pt),
        Err(_) => Err(A2AError::Crypto),
    }
}

/// Relies on `k256::ecdsa::SigningKey::random` and
/// `VerifyingKey::to_encoded_point(true)`: a fresh secp256k1 keypair; the
/// public side is the 33-byte compressed SEC1 encoding, a function of the
/// secret scalar alone.
#[verifier::external_body]
pub fn secp_generate() -> (r: (Vec<u8>, Vec<u8>))
    ensures
        r.0@.len() == 32,
        r.1@.len() == 33,
        r.1@ == secp256k1_public_of(r.0@),
{
    let sk = k256::ecdsa::SigningKey::random(&mut rand::rngs::OsRng);
    let pk = sk.verifying_key().to_encoded_point(true).as_bytes().to_vec();
    (sk.to_bytes().to_vec(), pk)
}

/// Big-endian comparison of two byte strings of equal length.
pub open spec fn bytes_lt(a: Seq<u8>, b: Seq<u8>) -> bool
    decreases a.len(),
{
    if a.len() == 0 {
        false
    } else if a[0] < b[0] {
        true
    } else if a[0] > b[0] {
        false
    } else {
        bytes_lt(a.drop_first(), b.drop_first())
    }
}

pub open spec fn bytes_nonzero(s: Seq<u8>) -> bool {
    exists|i: int| 0 <= i < s.len() && s[i] != 0
}

/// The secp256k1 group order, big-endian.
pub open spec fn secp256k1_order() -> Seq<u8> {
    seq![
        0xffu8, 0xff, 0xff, 0xff, 0xff, 0xff, 0xff, 0xff, 0xff, 0xff, 0xff, 0xff, 0xff, 0xff,
        0xff, 0xfe, 0xba, 0xae, 0xdc, 0xe6, 0xaf, 0x48, 0xa0, 0x3b, 0xbf, 0xd2, 0x5e, 0x8c,
        0xd0, 0x36, 0x41, 0x41,
    ]
}

/// A valid signing secret: 32 bytes holding a nonzero big-endian scalar
/// below the secp256k1 group order.
pub open spec fn secp_scalar_valid(s: Seq<u8>) -> bool {
    s.len() == 32 && bytes_nonzero(s) && bytes_lt(s, secp256k1_order())
}

/// Relies on `k256::ecdsa::SigningKey::from_slice`: a 32-byte input is
/// accepted exactly when it is the big-endian encoding of a nonzero scalar
/// below the group order; the public side as in `secp_generate`.  (The
/// source also left-pads 24- to 31-byte inputs; this library only ever
/// passes 32 bytes, and the contract says nothing of other lengths.)
#[verifier::external_body]
pub fn secp_public_of_secret(secret: &Vec<u8>) -> (r: Result<Vec<u8>, A2AError>)
    ensures
        r matches Ok(pk) ==> pk@.len() == 33 && pk@ == secp256k1_public_of(secret@),
        secret@.len() == 32 ==> (r is Ok <==> secp_scalar_valid(secret@)),
{
    match k256::ecdsa::SigningKey::from_slice(secret) {
        Ok(sk) => Ok(sk.verifying_key().to_encoded_point(true).as_bytes().to_vec()),
        Err(_) => Err(A2AError::Crypto),
    }
}

/// An agent's X25519 identity: the long-term secret and its public key.
pub struct AgentIdentity {
    secret: Vec<u8>,
    pub public: Vec<u8>,
}

impl AgentIdentity {
    /// The identity's secret key bytes (opaque to callers).
    pub closed spec fn secret_bytes(&self) -> Seq<u8> {
        self.secret@
    }

    /// The identity's public key bytes.
    pub closed spec fn public_bytes(&self) -> Seq<u8> {
        self.public@
    }

    /// The public key bytes, for callers outside this module.
    pub fn public_ref(&self) -> (r: &Vec<u8>)
        ensures
            r@ == self.public_bytes(),
    {
        &self.public
    }

    /// A well-formed identity: 32-byte secret, public key derived from it.
    pub open spec fn wf(&self) -> bool {
        &&& self.secret_bytes().len() == 32
        &&& self.public_bytes().len() == 32
        &&& self.public_bytes() == x25519_public_of(self.secret_bytes())
    }

    /// Generate a fresh random identity.
    pub fn generate() -> (r: AgentIdentity)
        ensures
            r.wf(),
    {
        let secret = x25519_generate_secret();
        let public = x25519_public(&secret);
        AgentIdentity { secret, public }
    }

    /// The hex encoding of the public key.
    pub fn public_key_hex(&self) -> (r: String)
        ensures
            r@ == hex_of(self.public_bytes()),
    {
        hex_encode(self.public.as_slice())
    }

    /// Reconstruct an identity from a hex-encoded 32-byte secret key.
    pub fn from_hex(secret_hex: &str) -> (r: Result<AgentIdentity, A2AError>)
        ensures
            match hex_open(secret_hex@) {
                Option::Some(b) => {
                    if b.len() == 32 {
                        r matches Ok(id) && id.wf() && id.secret_bytes() == b
                    } else {
                        r is Err
                    }
                },
                Option::None => r is Err,
            },
    {
        let bytes = hex_decode(secret_hex)?;
        if bytes.len() != 32 {
            return Err(A2AError::Crypto);
        }
        let public = x25519_public(&bytes);
        Ok(AgentIdentity { secret: bytes, public })
    }

    /// Parse a hex-encoded 32-byte X25519 public key.
    pub fn parse_public_key(hex_str: &str) -> (r: Result<Vec<u8>, A2AError>)
        ensures
            match hex_open(hex_str@) {
                Option::Some(b) => {
                    if b.len() == 32 {
                        r matches Ok(v) && v@ == b
                    } else {
                        r is Err
                    }
                },
                Option::None => r is Err,
            },
    {
        let bytes = hex_decode(hex_str)?;
        if bytes.len() != 32 {
            return Err(A2AError::Crypto);
        }
        Ok(bytes)
    }

    /// Derive the session key shared with a peer: the raw X25519 shared
    /// secret, used directly as the AEAD key.
    pub fn shared_key(&self, their_pubkey: &Vec<u8>) -> (r: SessionKey)
        requires
            self.wf(),
            their_pubkey@.len() == 32,
        ensures
            r.wf(),
            r.key_bytes() == x25519_shared(self.secret_bytes(), their_pubkey@),
            forall|other: Seq<u8>|
                #[trigger] x25519_public_of(other) == their_pubkey@ ==> r.key_bytes()
                    == x25519_shared(other, x25519_public_of(self.secret_bytes())),
    {
        let key = x25519_dh(&self.secret, their_pubkey);
        SessionKey { key }
    }
}

/// What opening a whole payload under a key yields: decode the nonce and
/// ciphertext from base64, then open the sealed box.
pub open spec fn payload_open(key: Seq<u8>, p: EncryptedPayloadView) -> Option<Seq<u8>> {
    match b64_open(p.nonce) {
        Option::Some(n) => {
            if n.len() == 12 {
                match b64_open(p.ciphertext) {
                    Option::Some(ct) => chacha_open(key, n, ct),
                    Option::None => Option::None,
                }
            } else {
                Option::None
            }
        },
        Option::None => Option::None,
    }
}

/// A symmetric session key derived from X25519 key agreement.
pub struct SessionKey {
    key: Vec<u8>,
}

impl SessionKey {
    /// The key bytes (opaque to callers).
    pub closed spec fn key_bytes(&self) -> Seq<u8> {
        self.key@
    }

    pub open spec fn wf(&self) -> bool {
        self.key_bytes().len() == 32
    }

    /// Seal a plaintext under this key with a fresh random nonce; the
    /// payload carries the nonce and ciphertext in base64.
    pub fn encrypt(&self, plaintext: &[u8]) -> (r: Result<EncryptedPayload, A2AError>)
        requires
            self.wf(),
        ensures
            r matches Ok(p) ==> exists|n: Seq<u8>|
                #[trigger] b64_of(n) == p@.nonce && n.len() == 12 && p@.ciphertext == b64_of(
                    chacha_seal(self.key_bytes(), n, plaintext@),
                ) && chacha_seal(self.key_bytes(), n, plaintext@).len() == plaintext@.len() + 16,
            plaintext@.len() < 0x100000000 ==> r is Ok,
    {
        let nonce = random_nonce();
        let ct = chacha_encrypt(&self.key, &nonce, plaintext)?;
        let p = EncryptedPayload { nonce: b64_encode(nonce.as_slice()), ciphertext: b64_encode(
            ct.as_slice(),
        ) };
        proof {
            assert(b64_of(nonce@) == p@.nonce && nonce@.len() == 12 && p@.ciphertext == b64_of(
                chacha_seal(self.key_bytes(), nonce@, plaintext@),
            ) && chacha_seal(self.key_bytes(), nonce@, plaintext@).len() == plaintext@.len()
                + 16);
        }
        Ok(p)
    }

    /// Open a sealed payload.  Whenever the payload is exactly the sealing of
    /// some plaintext under this key — as `encrypt` produces — that plaintext
    /// comes back; any other payload is rejected or yields bytes that fail
    /// the task decoding downstream.
    pub fn decrypt(&self, payload: &EncryptedPayload) -> (r: Result<Vec<u8>, A2AError>)
        requires
            self.wf(),
        ensures
            r matches Ok(v) ==> payload_open(self.key_bytes(), payload@) == Option::Some(v@),
            r is Err ==> payload_open(self.key_bytes(), payload@) is None,
            forall|n: Seq<u8>, pt: Seq<u8>|
                #![trigger b64_of(n), b64_of(chacha_seal(self.key_bytes(), n, pt))]
                n.len() == 12 && payload@.nonce == b64_of(n) && payload@.ciphertext == b64_of(
                    chacha_seal(self.key_bytes(), n, pt),
                ) ==> r is Ok && r->Ok_0@ == pt,
    {
        let nonce = match b64_decode(payload.nonce.as_str()) {
            Ok(v) => v,
            Err(_) => {
                proof {
                    assert forall|n: Seq<u8>, pt: Seq<u8>|
                        n.len() == 12 && payload@.nonce == #[trigger] b64_of(n)
                            && payload@.ciphertext == #[trigger] b64_of(
                            chacha_seal(self.key_bytes(), n, pt),
                        ) implies false by {
                        lemma_b64_round_trip(n);
                    }
                }
                return Err(A2AError::Crypto);
            },
        };
        if nonce.len() != 12 {
            proof {
                assert forall|n: Seq<u8>, pt: Seq<u8>|
                    n.len() == 12 && payload@.nonce == #[trigger] b64_of(n) && payload@.ciphertext
                        == #[trigger] b64_of(chacha_seal(self.key_bytes(), n, pt)) implies false by {
                    lemma_b64_round_trip(n);
                }
            }
            return Err(A2AError::Crypto);
        }
        let ct = match b64_decode(payload.ciphertext.as_str()) {
            Ok(v) => v,
            Err(_) => {
                proof {
                    assert forall|n: Seq<u8>, pt: Seq<u8>|
                        n.len() == 12 && payload@.nonce == #[trigger] b64_of(n)
                            && payload@.ciphertext == #[trigger] b64_of(
                            chacha_seal(self.key_bytes(), n, pt),
                        ) implies false by {
                        lemma_b64_round_trip(chacha_seal(self.key_bytes(), n, pt));
                    }
                }
                return Err(A2AError::Crypto);
            },
        };
        let r = chacha_decrypt(&self.key, &nonce, &ct);
        proof {
            assert forall|n: Seq<u8>, pt: Seq<u8>|
                n.len() == 12 && payload@.nonce == #[trigger] b64_of(n) && payload@.ciphertext
                    == #[trigger] b64_of(chacha_seal(self.key_bytes(), n, pt)) implies r is Ok
                    && r->Ok_0@ == pt by {
                lemma_b64_round_trip(n);
                lemma_b64_round_trip(chacha_seal(self.key_bytes(), n, pt));
                assert(nonce@ == n);
                assert(ct@ == chacha_seal(self.key_bytes(), n, pt));
            }
        }
        r
    }
}

} // verus!
