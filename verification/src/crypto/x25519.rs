//! X25519 Diffie-Hellman key exchange, with keys held as plain bytes.
use vstd::prelude::*;
use crate::crypto::{lengths, CryptoError};

verus! {

/// The public key of an X25519 secret (`PublicKey::from(&StaticSecret)`).
pub uninterp spec fn x25519_public(secret: Seq<u8>) -> Seq<u8>;

/// The X25519 shared secret of a secret key and a peer's public key
/// (`StaticSecret::diffie_hellman`).
pub uninterp spec fn x25519_shared(secret: Seq<u8>, public: Seq<u8>) -> Seq<u8>;

/// `PublicKey::from(&StaticSecret::from(secret)).to_bytes()`: the public
/// key of a secret, named.
#[verifier::external_body]
fn public_of(secret: &[u8; 32]) -> (r: [u8; 32])
    ensures
        r@ == x25519_public(secret@),
{
    let s = x25519_dalek::StaticSecret::from(*secret);
    x25519_dalek::PublicKey::from(&s).to_bytes()
}

/// `StaticSecret::from(secret).diffie_hellman(&PublicKey::from(public))`:
/// the shared secret, named.
#[verifier::external_body]
fn shared_of(secret: &[u8; 32], public: &[u8; 32]) -> (r: [u8; 32])
    ensures
        r@ == x25519_shared(secret@, public@),
{
    let s = x25519_dalek::StaticSecret::from(*secret);
    s.diffie_hellman(&x25519_dalek::PublicKey::from(*public)).to_bytes()
}

/// `StaticSecret::random_from_rng(OsRng).to_bytes()`: 32 random bytes from
/// the operating system. Nothing is promised of them: they are chance.
#[verifier::external_body]
fn random_secret() -> [u8; 32] {
    x25519_dalek::StaticSecret::random_from_rng(rand::rngs::OsRng).to_bytes()
}

/// X25519 public key.
#[derive(Clone, Copy, Debug)]
pub struct X25519PublicKey {
    bytes: [u8; 32],
}

impl View for X25519PublicKey {
    type V = Seq<u8>;

    closed spec fn view(&self) -> Seq<u8> {
        self.bytes@
    }
}

impl X25519PublicKey {
    /// Create from bytes (32 bytes).
    pub fn from_bytes(bytes: &[u8]) -> (r: Result<Self, CryptoError>)
        ensures
            r is Ok <==> bytes@.len() == 32,
            r matches Ok(k) ==> k@ == bytes@,
            r matches Err(e) ==> e == (CryptoError::InvalidKeyLength {
                expected: 32,
                actual: bytes@.len() as usize,
            }),
    {
        if bytes.len() != lengths::X25519_PUBLIC_KEY {
            return Err(
                CryptoError::InvalidKeyLength {
                    expected: lengths::X25519_PUBLIC_KEY,
                    actual: bytes.len(),
                },
            );
        }
        let a = crate::bytes::copy_array32(bytes);
        Ok(Self { bytes: a })
    }

    /// Get public key bytes.
    pub fn as_bytes(&self) -> (r: &[u8; 32])
        ensures
            r@ == self@,
    {
        &self.bytes
    }
}

/// X25519 shared secret from a DH exchange.
pub struct X25519SharedSecret {
    bytes: [u8; 32],
}

impl View for X25519SharedSecret {
    type V = Seq<u8>;

    closed spec fn view(&self) -> Seq<u8> {
        self.bytes@
    }
}

impl X25519SharedSecret {
    /// Get shared secret bytes.
    pub fn as_bytes(&self) -> (r: &[u8; 32])
        ensures
            r@ == self@,
    {
        &self.bytes
    }
}

/// X25519 key pair for Diffie-Hellman key exchange.
pub struct X25519KeyPair {
    secret: [u8; 32],
    public: [u8; 32],
}

impl X25519KeyPair {
    /// The secret key.
    pub closed spec fn secret(&self) -> Seq<u8> {
        self.secret@
    }

    /// The public key.
    pub closed spec fn public(&self) -> Seq<u8> {
        self.public@
    }

    /// Generate a new random key pair.
    pub fn generate() -> (r: Self)
        ensures
            r.public() == x25519_public(r.secret()),
    {
        let secret = random_secret();
        let public = public_of(&secret);
        Self { secret, public }
    }

    /// Create from secret key bytes (32 bytes).
    pub fn from_bytes(bytes: &[u8]) -> (r: Result<Self, CryptoError>)
        ensures
            r is Ok <==> bytes@.len() == 32,
            r matches Ok(k) ==> k.secret() == bytes@ && k.public() == x25519_public(bytes@),
            r matches Err(e) ==> e == (CryptoError::InvalidKeyLength {
                expected: 32,
                actual: bytes@.len() as usize,
            }),
    {
        if bytes.len() != 32 {
            return Err(CryptoError::InvalidKeyLength { expected: 32, actual: bytes.len() });
        }
        let secret = crate::bytes::copy_array32(bytes);
        let public = public_of(&secret);
        Ok(Self { secret, public })
    }

    /// Get the public key.
    pub fn public_key(&self) -> (r: X25519PublicKey)
        ensures
            r@ == self.public(),
    {
        X25519PublicKey { bytes: self.public }
    }

    /// Get the secret key bytes (for storage).
    pub fn secret_bytes(&self) -> (r: [u8; 32])
        ensures
            r@ == self.secret(),
    {
        self.secret
    }

    /// Perform a Diffie-Hellman key exchange.
    pub fn diffie_hellman(&self, their_public: &X25519PublicKey) -> (r: X25519SharedSecret)
        ensures
            r@ == x25519_shared(self.secret(), their_public@),
    {
        X25519SharedSecret { bytes: shared_of(&self.secret, &their_public.bytes) }
    }
}

} // verus!
