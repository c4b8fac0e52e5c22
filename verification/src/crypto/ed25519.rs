//! Ed25519 signatures, with keys and signatures held as plain bytes.
use vstd::prelude::*;
use crate::bytes::copy_array32;
use crate::crypto::CryptoError;

verus! {

/// The public key of an Ed25519 secret key (`SigningKey::verifying_key`).
pub uninterp spec fn ed25519_public_key(secret: Seq<u8>) -> Seq<u8>;

/// The Ed25519 signature of a message under a secret key
/// (`SigningKey::sign`; RFC 8032 signing is deterministic).
pub uninterp spec fn ed25519_signature(secret: Seq<u8>, message: Seq<u8>) -> Seq<u8>;

/// Whether a signature of a message verifies under a public key
/// (`VerifyingKey::verify`).
pub uninterp spec fn ed25519_verifies(public: Seq<u8>, message: Seq<u8>, signature: Seq<u8>) -> bool;

/// Whether 32 bytes are the compressed encoding of a curve point
/// (`VerifyingKey::from_bytes` succeeds).
pub uninterp spec fn ed25519_point_valid(bytes: Seq<u8>) -> bool;

/// `SigningKey::generate(&mut OsRng).to_bytes()`: a secret key of 32
/// random bytes. Nothing is promised of them: they are chance.
#[verifier::external_body]
fn random_signing_secret() -> [u8; 32] {
    ed25519_dalek::SigningKey::generate(&mut rand::rngs::OsRng).to_bytes()
}

/// `SigningKey::from_bytes(secret).verifying_key().to_bytes()`: the public
/// key of a secret, named.
#[verifier::external_body]
fn public_key_of(secret: &[u8; 32]) -> (r: [u8; 32])
    ensures
        r@ == ed25519_public_key(secret@),
        ed25519_point_valid(r@),
{
    ed25519_dalek::SigningKey::from_bytes(secret).verifying_key().to_bytes()
}

/// `SigningKey::from_bytes(secret).sign(message).to_bytes()`: the signature,
/// named; a signature made with a secret verifies under its public key.
#[verifier::external_body]
fn sign_with(secret: &[u8; 32], message: &[u8]) -> (r: [u8; 64])
    ensures
        r@ == ed25519_signature(secret@, message@),
        ed25519_verifies(ed25519_public_key(secret@), message@, r@),
{
    ed25519_dalek::Signer::sign(&ed25519_dalek::SigningKey::from_bytes(secret), message).to_bytes()
}

/// `VerifyingKey::from_bytes(public)` followed by `verify` with
/// `Signature::from_bytes(signature)`: whether the signature verifies,
/// named.
#[verifier::external_body]
fn verify_with(public: &[u8; 32], message: &[u8], signature: &[u8; 64]) -> (r: bool)
    ensures
        r == ed25519_verifies(public@, message@, signature@),
{
    match ed25519_dalek::VerifyingKey::from_bytes(public) {
        Ok(k) => ed25519_dalek::Verifier::verify(
            &k,
            message,
            &ed25519_dalek::Signature::from_bytes(signature),
        ).is_ok(),
        Err(_) => false,
    }
}

/// `VerifyingKey::from_bytes(bytes).is_ok()`: whether the bytes encode a
/// curve point, named.
#[verifier::external_body]
fn point_valid(bytes: &[u8; 32]) -> (r: bool)
    ensures
        r == ed25519_point_valid(bytes@),
{
    ed25519_dalek::VerifyingKey::from_bytes(bytes).is_ok()
}

/// Ed25519 signature (64 bytes).
#[derive(Clone, Copy, Debug)]
pub struct Ed25519Signature {
    bytes: [u8; 64],
}

impl View for Ed25519Signature {
    type V = Seq<u8>;

    closed spec fn view(&self) -> Seq<u8> {
        self.bytes@
    }
}

impl Ed25519Signature {
    /// A signature from its 64 bytes.
    pub fn from_bytes(bytes: &[u8]) -> (r: Result<Self, CryptoError>)
        ensures
            match r {
                Ok(s) => bytes@.len() == 64 && s@ == bytes@,
                Err(e) => bytes@.len() != 64 && e == CryptoError::InvalidSignature,
            },
    {
        if bytes.len() != 64 {
            return Err(CryptoError::InvalidSignature);
        }
        let mut a = [0u8; 64];
        let mut i: usize = 0;
        while i < 64
            invariant
                bytes@.len() == 64,
                i <= 64,
                forall|j: int| 0 <= j < i ==> a@[j] == bytes@[j],
            decreases 64 - i,
        {
            a[i] = bytes[i];
            i = i + 1;
        }
        assert(a@ =~= bytes@);
        Ok(Self { bytes: a })
    }

    /// The 64 signature bytes.
    pub fn to_bytes(&self) -> (r: [u8; 64])
        ensures
            r@ == self@,
    {
        self.bytes
    }
}

/// Ed25519 public key: the encoding of a curve point.
#[derive(Clone, Copy, Debug)]
pub struct Ed25519PublicKey {
    bytes: [u8; 32],
}

impl View for Ed25519PublicKey {
    type V = Seq<u8>;

    closed spec fn view(&self) -> Seq<u8> {
        self.bytes@
    }
}

impl Ed25519PublicKey {
    /// A public key from 32 bytes that encode a curve point.
    pub fn from_bytes(bytes: &[u8]) -> (r: Result<Self, CryptoError>)
        ensures
            match r {
                Ok(k) => bytes@.len() == 32 && ed25519_point_valid(bytes@) && k@ == bytes@,
                Err(e) => if bytes@.len() != 32 {
                    e == (CryptoError::InvalidKeyLength { expected: 32, actual: bytes@.len() as usize })
                } else {
                    !ed25519_point_valid(bytes@) && e == CryptoError::InvalidPublicKey
                },
            },
    {
        if bytes.len() != 32 {
            return Err(CryptoError::InvalidKeyLength { expected: 32, actual: bytes.len() });
        }
        let a = copy_array32(bytes);
        if !point_valid(&a) {
            return Err(CryptoError::InvalidPublicKey);
        }
        Ok(Self { bytes: a })
    }

    /// The 32 key bytes.
    pub fn as_bytes(&self) -> (r: &[u8; 32])
        ensures
            r@ == self@,
    {
        &self.bytes
    }

    /// Verify a signature of a message.
    pub fn verify(&self, message: &[u8], signature: &Ed25519Signature) -> (r: Result<(), CryptoError>)
        ensures
            match r {
                Ok(_) => ed25519_verifies(self@, message@, signature@),
                Err(e) => !ed25519_verifies(self@, message@, signature@) && e
                    == CryptoError::InvalidSignature,
            },
    {
        if verify_with(&self.bytes, message, &signature.bytes) {
            Ok(())
        } else {
            Err(CryptoError::InvalidSignature)
        }
    }
}

/// Ed25519 key pair: a secret key and its public key.
pub struct Ed25519KeyPair {
    secret: [u8; 32],
    public: [u8; 32],
}

impl Ed25519KeyPair {
    #[verifier::type_invariant]
    spec fn public_matches(self) -> bool {
        self.public@ == ed25519_public_key(self.secret@)
    }

    /// The secret key.
    pub closed spec fn secret(&self) -> Seq<u8> {
        self.secret@
    }

    /// Generate a new random key pair.
    pub fn generate() -> (r: Self)
        ensures
            r.secret().len() == 32,
            ed25519_point_valid(ed25519_public_key(r.secret())),
    {
        let secret = random_signing_secret();
        let public = public_key_of(&secret);
        Self { secret, public }
    }

    /// A key pair from its 32-byte secret key.
    pub fn from_bytes(bytes: &[u8]) -> (r: Result<Self, CryptoError>)
        ensures
            match r {
                Ok(k) => bytes@.len() == 32 && k.secret() == bytes@,
                Err(e) => bytes@.len() != 32 && e == (CryptoError::InvalidKeyLength {
                    expected: 32,
                    actual: bytes@.len() as usize,
                }),
            },
    {
        if bytes.len() != 32 {
            return Err(CryptoError::InvalidKeyLength { expected: 32, actual: bytes.len() });
        }
        let secret = copy_array32(bytes);
        let public = public_key_of(&secret);
        Ok(Self { secret, public })
    }

    /// The public key.
    pub fn public_key(&self) -> (r: Ed25519PublicKey)
        ensures
            r@ == ed25519_public_key(self.secret()),
    {
        proof {
            use_type_invariant(self);
        }
        Ed25519PublicKey { bytes: self.public }
    }

    /// The secret key bytes (for storage).
    pub fn secret_bytes(&self) -> (r: [u8; 32])
        ensures
            r@ == self.secret(),
    {
        self.secret
    }

    /// Sign a message.
    pub fn sign(&self, message: &[u8]) -> (r: Ed25519Signature)
        ensures
            r@ == ed25519_signature(self.secret(), message@),
            ed25519_verifies(ed25519_public_key(self.secret()), message@, r@),
    {
        Ed25519Signature { bytes: sign_with(&self.secret, message) }
    }
}

} // verus!
