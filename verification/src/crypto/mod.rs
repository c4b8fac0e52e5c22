//! Cryptographic primitives used by AirPlay pairing and audio encryption.
//!
//! The primitives themselves come from the RustCrypto and dalek crates; the
//! library holds keys as plain bytes and checks lengths and framing.
use vstd::prelude::*;

pub mod aes;
pub mod chacha;
pub mod ed25519;
pub mod hkdf;
pub mod lengths;
pub mod srp;
pub mod x25519;

verus! {

/// Errors from the cryptographic primitives.
#[derive(Debug, Clone)]
pub enum CryptoError {
    /// A key, IV or nonce of the wrong length.
    InvalidKeyLength {
        /// Expected length.
        expected: usize,
        /// Actual length.
        actual: usize,
    },
    /// Encryption failed.
    EncryptionFailed(String),
    /// Decryption or authentication failed.
    DecryptionFailed(String),
    /// Key derivation failed.
    KeyDerivationFailed(String),
    /// SRP protocol error.
    SrpError(String),
    /// A signature that does not verify, or is not 64 bytes.
    InvalidSignature,
    /// Public key bytes that do not encode a curve point.
    InvalidPublicKey,
}

/// The bytewise exclusive or of two sequences, as long as the first.
pub open spec fn xor_seq(a: Seq<u8>, b: Seq<u8>) -> Seq<u8> {
    Seq::new(a.len(), |i: int| a[i] ^ b[i])
}

/// Exclusive or with the same bytes twice gives the data back.
pub proof fn lemma_xor_twice(a: Seq<u8>, k: Seq<u8>)
    ensures
        xor_seq(xor_seq(a, k), k) =~= a,
{
    assert forall|i: int| 0 <= i < a.len() implies #[trigger] xor_seq(xor_seq(a, k), k)[i]
        == a[i] by {
        let x = a[i];
        let y = k[i];
        assert((x ^ y) ^ y == x) by (bit_vector);
    }
}

} // verus!
