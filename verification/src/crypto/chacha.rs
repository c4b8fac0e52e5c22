//! ChaCha20-Poly1305 AEAD (RFC 8439) and its 12-byte nonce.
use vstd::prelude::*;
use crate::crypto::{lengths, CryptoError};
use chacha20poly1305::aead::{Aead, KeyInit, Payload};

verus! {

/// The ciphertext that ChaCha20-Poly1305 produces for a plaintext under a
/// key, nonce and associated data: the encrypted bytes followed by the
/// 16-byte tag.
pub uninterp spec fn chacha20poly1305_seal(
    key: Seq<u8>,
    nonce: Seq<u8>,
    aad: Seq<u8>,
    plaintext: Seq<u8>,
) -> Seq<u8>;

/// The plaintext that ChaCha20-Poly1305 recovers from a ciphertext (with its
/// tag) under a key, nonce and associated data, or `None` when
/// authentication fails.
pub uninterp spec fn chacha20poly1305_open(
    key: Seq<u8>,
    nonce: Seq<u8>,
    aad: Seq<u8>,
    ciphertext: Seq<u8>,
) -> Option<Seq<u8>>;

/// Encrypts with `chacha20poly1305::ChaCha20Poly1305` through
/// `aead::Aead::encrypt` (with a `Payload` carrying the associated data).
///
/// The crate fails only when the plaintext reaches 2^32 - 1 blocks of 64
/// bytes (`cipher.rs`, `MAX_BLOCKS`); below that the result is the sealed
/// message, 16 bytes longer than the plaintext (a postfix tag), and opening
/// it with the same key, nonce and associated data gives the plaintext back,
/// as an AEAD promises. The error is the crate's `aead::Error`, rendered.
#[verifier::external_body]
fn chacha_encrypt(key: &[u8; 32], nonce: &[u8; 12], aad: &[u8], plaintext: &[u8]) -> (r: Result<
    Vec<u8>,
    String,
>)
    ensures
        plaintext@.len() / 64 < 0xFFFF_FFFF ==> r is Ok,
        r matches Ok(c) ==> {
            &&& c@ == chacha20poly1305_seal(key@, nonce@, aad@, plaintext@)
            &&& c@.len() == plaintext@.len() + 16
            &&& chacha20poly1305_open(key@, nonce@, aad@, c@) == Some(plaintext@)
        },
{
    let cipher = chacha20poly1305::ChaCha20Poly1305::new(key.into());
    cipher.encrypt(nonce.into(), Payload { msg: plaintext, aad }).map_err(|e| e.to_string())
}

/// Decrypts with `chacha20poly1305::ChaCha20Poly1305` through
/// `aead::Aead::decrypt` (with a `Payload` carrying the associated data).
///
/// Succeeds exactly when the tag authenticates the ciphertext, giving the
/// plaintext; the error is the crate's `aead::Error`, rendered.
#[verifier::external_body]
fn chacha_decrypt(key: &[u8; 32], nonce: &[u8; 12], aad: &[u8], ciphertext: &[u8]) -> (r: Result<
    Vec<u8>,
    String,
>)
    ensures
        r is Ok <==> chacha20poly1305_open(key@, nonce@, aad@, ciphertext@) is Some,
        r matches Ok(p) ==> Some(p@) == chacha20poly1305_open(key@, nonce@, aad@, ciphertext@),
{
    let cipher = chacha20poly1305::ChaCha20Poly1305::new(key.into());
    cipher.decrypt(nonce.into(), Payload { msg: ciphertext, aad }).map_err(|e| e.to_string())
}

/// 12-byte nonce for ChaCha20-Poly1305.
#[derive(Clone, Copy)]
pub struct Nonce([u8; 12]);

/// The nonce built from a counter: four zero bytes, then the counter
/// little-endian.
pub open spec fn spec_counter_nonce(counter: u64) -> Seq<u8> {
    seq![0u8, 0u8, 0u8, 0u8] + crate::bytes::be_bytes(counter as nat, 8).reverse()
}

impl Nonce {
    /// The nonce bytes.
    pub closed spec fn view(&self) -> Seq<u8> {
        self.0@
    }

    /// Create from bytes; the slice must be 12 bytes long.
    pub fn from_bytes(bytes: &[u8]) -> (r: Result<Self, CryptoError>)
        ensures
            bytes@.len() == 12 <==> r is Ok,
            r matches Ok(n) ==> n.view() == bytes@,
            r matches Err(e) ==> e == (CryptoError::InvalidKeyLength {
                expected: 12,
                actual: bytes@.len() as usize,
            }),
    {
        if bytes.len() != lengths::CHACHA_NONCE {
            return Err(CryptoError::InvalidKeyLength {
                expected: lengths::CHACHA_NONCE,
                actual: bytes.len(),
            });
        }
        let arr = [
            bytes[0],
            bytes[1],
            bytes[2],
            bytes[3],
            bytes[4],
            bytes[5],
            bytes[6],
            bytes[7],
            bytes[8],
            bytes[9],
            bytes[10],
            bytes[11],
        ];
        assert(arr@ =~= bytes@);
        Ok(Self(arr))
    }

    /// Create from a u64 counter (little-endian, after four zero bytes).
    pub fn from_counter(counter: u64) -> (r: Self)
        ensures
            r.view() == spec_counter_nonce(counter),
    {
        let mut v: Vec<u8> = Vec::new();
        crate::bytes::push_be(&mut v, counter, 8);
        proof {
            crate::bytes::lemma_be_bytes_len(counter as nat, 8);
        }
        let arr = [0u8, 0u8, 0u8, 0u8, v[7], v[6], v[5], v[4], v[3], v[2], v[1], v[0]];
        assert(arr@ =~= spec_counter_nonce(counter));
        Self(arr)
    }

    /// Get as bytes.
    pub fn as_bytes(&self) -> (r: &[u8; 12])
        ensures
            r@ == self.view(),
    {
        &self.0
    }
}

/// ChaCha20-Poly1305 AEAD cipher.
pub struct ChaCha20Poly1305Cipher {
    key: [u8; 32],
}

impl ChaCha20Poly1305Cipher {
    /// The key.
    pub closed spec fn key(&self) -> Seq<u8> {
        self.key@
    }

    /// Create a cipher with a 32-byte key.
    pub fn new(key: &[u8]) -> (r: Result<Self, CryptoError>)
        ensures
            key@.len() == 32 <==> r is Ok,
            r matches Ok(c) ==> c.key() == key@,
            r matches Err(e) ==> e == (CryptoError::InvalidKeyLength {
                expected: 32,
                actual: key@.len() as usize,
            }),
    {
        if key.len() != lengths::CHACHA_KEY {
            return Err(CryptoError::InvalidKeyLength {
                expected: lengths::CHACHA_KEY,
                actual: key.len(),
            });
        }
        Ok(Self { key: crate::bytes::copy_array32(key) })
    }

    /// Encrypt with authentication; the result is the ciphertext with the
    /// 16-byte tag appended.
    pub fn encrypt(&self, nonce: &Nonce, plaintext: &[u8]) -> (r: Result<Vec<u8>, CryptoError>)
        ensures
            plaintext@.len() / 64 < 0xFFFF_FFFF ==> r is Ok,
            r matches Ok(c) ==> c@ == chacha20poly1305_seal(
                self.key(),
                nonce.view(),
                Seq::empty(),
                plaintext@,
            ) && c@.len() == plaintext@.len() + 16 && chacha20poly1305_open(
                self.key(),
                nonce.view(),
                Seq::empty(),
                c@,
            ) == Some(plaintext@),
            r matches Err(e) ==> e is EncryptionFailed,
    {
        let empty: [u8; 0] = [];
        proof {
            assert(empty@ =~= Seq::<u8>::empty());
        }
        self.encrypt_with_aad(nonce, empty.as_slice(), plaintext)
    }

    /// Encrypt with associated data.
    pub fn encrypt_with_aad(&self, nonce: &Nonce, aad: &[u8], plaintext: &[u8]) -> (r: Result<
        Vec<u8>,
        CryptoError,
    >)
        ensures
            plaintext@.len() / 64 < 0xFFFF_FFFF ==> r is Ok,
            r matches Ok(c) ==> c@ == chacha20poly1305_seal(
                self.key(),
                nonce.view(),
                aad@,
                plaintext@,
            ) && c@.len() == plaintext@.len() + 16 && chacha20poly1305_open(
                self.key(),
                nonce.view(),
                aad@,
                c@,
            ) == Some(plaintext@),
            r matches Err(e) ==> e is EncryptionFailed,
    {
        match chacha_encrypt(&self.key, &nonce.0, aad, plaintext) {
            Ok(c) => Ok(c),
            Err(msg) => Err(CryptoError::EncryptionFailed(msg)),
        }
    }

    /// Decrypt and verify authentication; the input is the ciphertext with
    /// the 16-byte tag appended.
    pub fn decrypt(&self, nonce: &Nonce, ciphertext: &[u8]) -> (r: Result<Vec<u8>, CryptoError>)
        ensures
            r is Ok <==> chacha20poly1305_open(
                self.key(),
                nonce.view(),
                Seq::empty(),
                ciphertext@,
            ) is Some,
            r matches Ok(p) ==> Some(p@) == chacha20poly1305_open(
                self.key(),
                nonce.view(),
                Seq::empty(),
                ciphertext@,
            ),
            r matches Err(e) ==> e is DecryptionFailed,
    {
        let empty: [u8; 0] = [];
        proof {
            assert(empty@ =~= Seq::<u8>::empty());
        }
        self.decrypt_with_aad(nonce, empty.as_slice(), ciphertext)
    }

    /// Decrypt with associated data.
    pub fn decrypt_with_aad(&self, nonce: &Nonce, aad: &[u8], ciphertext: &[u8]) -> (r: Result<
        Vec<u8>,
        CryptoError,
    >)
        ensures
            r is Ok <==> chacha20poly1305_open(self.key(), nonce.view(), aad@, ciphertext@) is Some,
            r matches Ok(p) ==> Some(p@) == chacha20poly1305_open(
                self.key(),
                nonce.view(),
                aad@,
                ciphertext@,
            ),
            r matches Err(e) ==> e is DecryptionFailed,
    {
        match chacha_decrypt(&self.key, &nonce.0, aad, ciphertext) {
            Ok(p) => Ok(p),
            Err(msg) => Err(CryptoError::DecryptionFailed(msg)),
        }
    }
}

} // verus!
