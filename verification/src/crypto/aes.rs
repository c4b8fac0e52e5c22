//! AES-128 in counter mode (legacy AirPlay audio) and AES-128-GCM.
use vstd::prelude::*;
use crate::crypto::{lengths, xor_seq, CryptoError};
use crate::bytes::copy_array16;
use aes_gcm::aead::{Aead, KeyInit};
use ctr::cipher::{KeyIvInit, StreamCipher, StreamCipherSeek};

verus! {

/// The keystream of AES-128 in CTR mode with a 64-bit big-endian counter
/// (`ctr::Ctr64BE<aes::Aes128>`) under a key and IV, `len` bytes starting at
/// byte offset `offset`.
pub uninterp spec fn aes128_ctr_keystream(key: Seq<u8>, iv: Seq<u8>, offset: nat, len: nat) -> Seq<u8>;

/// The end of the keystream that `ctr_apply` is used within: 2^67 bytes,
/// half of what a 64-bit block counter of 16-byte blocks reaches.
pub const KEYSTREAM_LIMIT: u128 = 0x8_0000_0000_0000_0000;

/// Applies the AES-128-CTR keystream at byte offset `offset` to `data`.
///
/// Builds `ctr::Ctr64BE<aes::Aes128>` from the key and IV, seeks to the
/// offset (`StreamCipherSeek::seek`) and XORs the keystream into the data
/// (`StreamCipher::apply_keystream`). The crates panic only past the end of
/// the keystream (2^64 blocks of 16 bytes), which `requires` keeps well
/// clear of.
#[verifier::external_body]
fn ctr_apply(key: &[u8; 16], iv: &[u8; 16], offset: u128, data: &mut [u8])
    requires
        offset + old(data)@.len() <= KEYSTREAM_LIMIT,
    ensures
        final(data)@ == xor_seq(
            old(data)@,
            aes128_ctr_keystream(key@, iv@, offset as nat, old(data)@.len()),
        ),
{
    let mut cipher = ctr::Ctr64BE::<aes::Aes128>::new(key.into(), iv.into());
    cipher.seek(offset);
    cipher.apply_keystream(data);
}

/// AES-128-CTR stream cipher for audio encryption.
///
/// Holds the key, the IV and the current position in the keystream.
pub struct Aes128Ctr {
    key: [u8; 16],
    iv: [u8; 16],
    position: u128,
}

impl Aes128Ctr {
    /// The key.
    pub closed spec fn key(&self) -> Seq<u8> {
        self.key@
    }

    /// The IV.
    pub closed spec fn iv(&self) -> Seq<u8> {
        self.iv@
    }

    /// The current byte position in the keystream.
    pub closed spec fn position(&self) -> nat {
        self.position as nat
    }

    /// Create cipher with 16-byte key and 16-byte IV, at position 0.
    pub fn new(key: &[u8], iv: &[u8]) -> (r: Result<Self, CryptoError>)
        ensures
            (key@.len() == 16 && iv@.len() == 16) <==> r is Ok,
            r matches Ok(c) ==> c.key() == key@ && c.iv() == iv@ && c.position() == 0,
            key@.len() != 16 ==> r == Err::<Self, CryptoError>(
                CryptoError::InvalidKeyLength { expected: 16, actual: key@.len() as usize },
            ),
            key@.len() == 16 && iv@.len() != 16 ==> r == Err::<Self, CryptoError>(
                CryptoError::InvalidKeyLength { expected: 16, actual: iv@.len() as usize },
            ),
    {
        if key.len() != lengths::AES_128_KEY {
            return Err(CryptoError::InvalidKeyLength {
                expected: lengths::AES_128_KEY,
                actual: key.len(),
            });
        }
        if iv.len() != 16 {
            return Err(CryptoError::InvalidKeyLength { expected: 16, actual: iv.len() });
        }
        Ok(Self { key: copy_array16(key), iv: copy_array16(iv), position: 0 })
    }

    /// Encrypt/decrypt in place (XOR with the keystream at the current
    /// position), advancing the position.
    pub fn apply_keystream(&mut self, data: &mut [u8])
        requires
            old(self).position() + old(data)@.len() <= KEYSTREAM_LIMIT,
        ensures
            final(data)@ == xor_seq(
                old(data)@,
                aes128_ctr_keystream(
                    old(self).key(),
                    old(self).iv(),
                    old(self).position(),
                    old(data)@.len(),
                ),
            ),
            final(self).key() == old(self).key(),
            final(self).iv() == old(self).iv(),
            final(self).position() == old(self).position() + old(data)@.len(),
    {
        let n = data.len();
        ctr_apply(&self.key, &self.iv, self.position, data);
        self.position = self.position + n as u128;
    }

    /// Encrypt/decrypt, returning a new buffer.
    pub fn process(&mut self, data: &[u8]) -> (r: Vec<u8>)
        requires
            old(self).position() + data@.len() <= KEYSTREAM_LIMIT,
        ensures
            r@ == xor_seq(
                data@,
                aes128_ctr_keystream(
                    old(self).key(),
                    old(self).iv(),
                    old(self).position(),
                    data@.len(),
                ),
            ),
            final(self).key() == old(self).key(),
            final(self).iv() == old(self).iv(),
            final(self).position() == old(self).position() + data@.len(),
    {
        let mut output = crate::bytes::copy_bytes(data);
        self.apply_keystream(output.as_mut_slice());
        output
    }

    /// Seek to a byte position in the keystream.
    pub fn seek(&mut self, position: u64)
        ensures
            final(self).key() == old(self).key(),
            final(self).iv() == old(self).iv(),
            final(self).position() == position,
    {
        self.position = position as u128;
    }
}

/// The ciphertext (with its 16-byte tag) that AES-128-GCM produces.
pub uninterp spec fn aes128_gcm_seal(key: Seq<u8>, nonce: Seq<u8>, plaintext: Seq<u8>) -> Seq<u8>;

/// The plaintext that AES-128-GCM recovers, or `None` when authentication
/// fails.
pub uninterp spec fn aes128_gcm_open(key: Seq<u8>, nonce: Seq<u8>, ciphertext: Seq<u8>) -> Option<Seq<u8>>;

/// Encrypts with `aes_gcm::Aes128Gcm` through `aead::Aead::encrypt`.
///
/// The crate fails only for plaintexts of 2^36 bytes or more (`A_MAX` /
/// `P_MAX` in aes-gcm); below that the result is the sealed message, 16
/// bytes longer than the plaintext, and opening it gives the plaintext back.
/// The error is the crate's `aead::Error`, rendered.
#[verifier::external_body]
fn gcm_encrypt(key: &[u8; 16], nonce: &[u8], plaintext: &[u8]) -> (r: Result<Vec<u8>, String>)
    requires
        nonce@.len() == 12,
    ensures
        plaintext@.len() < 0x10_0000_0000 ==> r is Ok,
        r matches Ok(c) ==> {
            &&& c@ == aes128_gcm_seal(key@, nonce@, plaintext@)
            &&& c@.len() == plaintext@.len() + 16
            &&& aes128_gcm_open(key@, nonce@, c@) == Some(plaintext@)
        },
{
    let cipher = aes_gcm::Aes128Gcm::new(key.into());
    cipher.encrypt(aes_gcm::Nonce::from_slice(nonce), plaintext).map_err(|e| e.to_string())
}

/// Decrypts with `aes_gcm::Aes128Gcm` through `aead::Aead::decrypt`;
/// succeeds exactly when the tag authenticates the ciphertext.
#[verifier::external_body]
fn gcm_decrypt(key: &[u8; 16], nonce: &[u8], ciphertext: &[u8]) -> (r: Result<Vec<u8>, String>)
    requires
        nonce@.len() == 12,
    ensures
        r is Ok <==> aes128_gcm_open(key@, nonce@, ciphertext@) is Some,
        r matches Ok(p) ==> Some(p@) == aes128_gcm_open(key@, nonce@, ciphertext@),
{
    let cipher = aes_gcm::Aes128Gcm::new(key.into());
    cipher.decrypt(aes_gcm::Nonce::from_slice(nonce), ciphertext).map_err(|e| e.to_string())
}

/// AES-128-GCM AEAD cipher.
pub struct Aes128Gcm {
    key: [u8; 16],
}

impl Aes128Gcm {
    /// The key.
    pub closed spec fn key(&self) -> Seq<u8> {
        self.key@
    }

    /// Create cipher with a 16-byte key.
    pub fn new(key: &[u8]) -> (r: Result<Self, CryptoError>)
        ensures
            key@.len() == 16 <==> r is Ok,
            r matches Ok(c) ==> c.key() == key@,
            r matches Err(e) ==> e == (CryptoError::InvalidKeyLength {
                expected: 16,
                actual: key@.len() as usize,
            }),
    {
        if key.len() != lengths::AES_128_KEY {
            return Err(CryptoError::InvalidKeyLength {
                expected: lengths::AES_128_KEY,
                actual: key.len(),
            });
        }
        Ok(Self { key: copy_array16(key) })
    }

    /// Encrypt with a 12-byte nonce.
    pub fn encrypt(&self, nonce: &[u8], plaintext: &[u8]) -> (r: Result<Vec<u8>, CryptoError>)
        ensures
            nonce@.len() != 12 ==> r == Err::<Vec<u8>, CryptoError>(
                CryptoError::InvalidKeyLength { expected: 12, actual: nonce@.len() as usize },
            ),
            nonce@.len() == 12 && plaintext@.len() < 0x10_0000_0000 ==> r is Ok,
            r matches Ok(c) ==> c@ == aes128_gcm_seal(self.key(), nonce@, plaintext@)
                && aes128_gcm_open(self.key(), nonce@, c@) == Some(plaintext@),
            nonce@.len() == 12 && r is Err ==> r->Err_0 is EncryptionFailed,
    {
        if nonce.len() != lengths::AES_GCM_NONCE {
            return Err(CryptoError::InvalidKeyLength {
                expected: lengths::AES_GCM_NONCE,
                actual: nonce.len(),
            });
        }
        match gcm_encrypt(&self.key, nonce, plaintext) {
            Ok(c) => Ok(c),
            Err(msg) => Err(CryptoError::EncryptionFailed(msg)),
        }
    }

    /// Decrypt with a 12-byte nonce.
    pub fn decrypt(&self, nonce: &[u8], ciphertext: &[u8]) -> (r: Result<Vec<u8>, CryptoError>)
        ensures
            nonce@.len() != 12 ==> r == Err::<Vec<u8>, CryptoError>(
                CryptoError::InvalidKeyLength { expected: 12, actual: nonce@.len() as usize },
            ),
            nonce@.len() == 12 ==> (r is Ok <==> aes128_gcm_open(
                self.key(),
                nonce@,
                ciphertext@,
            ) is Some),
            r matches Ok(p) ==> Some(p@) == aes128_gcm_open(self.key(), nonce@, ciphertext@),
            nonce@.len() == 12 && r is Err ==> r->Err_0 is DecryptionFailed,
    {
        if nonce.len() != lengths::AES_GCM_NONCE {
            return Err(CryptoError::InvalidKeyLength {
                expected: lengths::AES_GCM_NONCE,
                actual: nonce.len(),
            });
        }
        match gcm_decrypt(&self.key, nonce, ciphertext) {
            Ok(p) => Ok(p),
            Err(msg) => Err(CryptoError::DecryptionFailed(msg)),
        }
    }
}

} // verus!
