//! HKDF-SHA512 key derivation (RFC 5869) and the AirPlay session keys.
use vstd::prelude::*;
use vstd::utf8::encode_utf8;
use crate::crypto::CryptoError;

verus! {

/// The output key material of HKDF-SHA512 (`hkdf::Hkdf::<sha2::Sha512>`):
/// extract with the salt (`None`: the default all-zero salt) from the input
/// key material, then expand with `info` to `len` bytes.
pub uninterp spec fn hkdf_sha512_okm(salt: Option<Seq<u8>>, ikm: Seq<u8>, info: Seq<u8>, len: nat) -> Seq<u8>;

/// The longest output HKDF-SHA512 can expand to: 255 blocks of 64 bytes.
pub const HKDF_SHA512_MAX_OUTPUT: usize = 16320;

/// The bytes of an optional salt.
pub open spec fn salt_view(salt: Option<&[u8]>) -> Option<Seq<u8>> {
    match salt {
        Some(s) => Some(s@),
        None => None,
    }
}

/// `Hkdf::<Sha512>::new(salt, ikm)` then `expand(info, okm)` into a buffer
/// of `len` bytes. The crate's `expand` fails exactly when the output is
/// longer than 255 hash blocks; otherwise the buffer holds the named output.
#[verifier::external_body]
fn hkdf_sha512_expand(salt: Option<&[u8]>, ikm: &[u8], info: &[u8], len: usize) -> (r: Option<
    Vec<u8>,
>)
    ensures
        r is Some <==> len <= HKDF_SHA512_MAX_OUTPUT,
        r matches Some(okm) ==> okm@ == hkdf_sha512_okm(salt_view(salt), ikm@, info@, len as nat),
        r matches Some(okm) ==> okm@.len() == len,
{
    let hk = hkdf::Hkdf::<sha2::Sha512>::new(salt, ikm);
    let mut okm = vec![0u8; len];
    match hk.expand(info, &mut okm) {
        Ok(()) => Some(okm),
        Err(_) => None,
    }
}

/// The bytes of a vector of exactly `N` bytes, as an array.
fn vec_into_array<const N: usize>(v: Vec<u8>) -> (r: [u8; N])
    requires
        v@.len() == N,
    ensures
        r@ == v@,
{
    broadcast use vstd::array::group_array_axioms;

    let mut a: [u8; N] = vstd::array::array_fill_for_copy_types(0u8);
    let mut i: usize = 0;
    while i < N
        invariant
            i <= N,
            v@.len() == N,
            a@.len() == N,
            forall|j: int| 0 <= j < i ==> a@[j] == v@[j],
        decreases N - i,
    {
        a.set(i, v[i]);
        i = i + 1;
    }
    assert(a@ =~= v@);
    a
}

/// HKDF-SHA512 for key derivation: keeps the salt and input key material.
pub struct HkdfSha512 {
    salt: Option<Vec<u8>>,
    ikm: Vec<u8>,
}

impl HkdfSha512 {
    /// The salt it was made with.
    pub closed spec fn salt(&self) -> Option<Seq<u8>> {
        match self.salt {
            Some(s) => Some(s@),
            None => None,
        }
    }

    /// The input key material it was made with.
    pub closed spec fn ikm(&self) -> Seq<u8> {
        self.ikm@
    }

    /// Create an HKDF instance from an optional salt and input key material.
    pub fn new(salt: Option<&[u8]>, ikm: &[u8]) -> (r: Self)
        ensures
            r.salt() == salt_view(salt),
            r.ikm() == ikm@,
    {
        let salt = match salt {
            Some(s) => Some(crate::bytes::copy_bytes(s)),
            None => None,
        };
        Self { salt, ikm: crate::bytes::copy_bytes(ikm) }
    }

    /// Expand to `length` bytes of output key material.
    pub fn expand(&self, info: &[u8], length: usize) -> (r: Result<Vec<u8>, CryptoError>)
        ensures
            r is Ok <==> length <= HKDF_SHA512_MAX_OUTPUT,
            r matches Ok(okm) ==> okm@ == hkdf_sha512_okm(self.salt(), self.ikm(), info@, length as nat)
                && okm@.len() == length,
            r matches Err(e) ==> e matches CryptoError::KeyDerivationFailed(m) && m@
                == "HKDF expand failed"@,
    {
        let salt = match &self.salt {
            Some(s) => Some(s.as_slice()),
            None => None,
        };
        match hkdf_sha512_expand(salt, self.ikm.as_slice(), info, length) {
            Some(okm) => Ok(okm),
            None => Err(CryptoError::KeyDerivationFailed(String::from_str("HKDF expand failed"))),
        }
    }

    /// Expand into a fixed-size array.
    pub fn expand_fixed<const N: usize>(&self, info: &[u8]) -> (r: Result<[u8; N], CryptoError>)
        ensures
            r is Ok <==> N <= HKDF_SHA512_MAX_OUTPUT,
            r matches Ok(okm) ==> okm@ == hkdf_sha512_okm(self.salt(), self.ikm(), info@, N as nat),
            r matches Err(e) ==> e matches CryptoError::KeyDerivationFailed(m) && m@
                == "HKDF expand failed"@,
    {
        match self.expand(info, N) {
            Ok(okm) => Ok(vec_into_array::<N>(okm)),
            Err(e) => Err(e),
        }
    }
}

/// One-shot key derivation.
pub fn derive_key(salt: Option<&[u8]>, ikm: &[u8], info: &[u8], length: usize) -> (r: Result<
    Vec<u8>,
    CryptoError,
>)
    ensures
        r is Ok <==> length <= HKDF_SHA512_MAX_OUTPUT,
        r matches Ok(okm) ==> okm@ == hkdf_sha512_okm(salt_view(salt), ikm@, info@, length as nat)
            && okm@.len() == length,
        r matches Err(e) ==> e matches CryptoError::KeyDerivationFailed(m) && m@
            == "HKDF expand failed"@,
{
    HkdfSha512::new(salt, ikm).expand(info, length)
}

/// AirPlay session keys derived from a shared secret.
pub struct AirPlayKeys {
    /// Key for encrypting messages to device
    pub output_key: [u8; 32],
    /// Key for decrypting messages from device
    pub input_key: [u8; 32],
}

impl AirPlayKeys {
    /// Derive keys from a shared secret with the AirPlay info strings:
    /// `ServerEncrypt-main` for the output key and `ClientEncrypt-main` for
    /// the input key, each 32 bytes.
    pub fn derive(shared_secret: &[u8], salt: &[u8]) -> (r: Result<Self, CryptoError>)
        ensures
            r is Ok,
            r matches Ok(k) ==> k.output_key@ == hkdf_sha512_okm(
                Some(salt@),
                shared_secret@,
                encode_utf8("ServerEncrypt-main"@),
                32,
            ) && k.input_key@ == hkdf_sha512_okm(
                Some(salt@),
                shared_secret@,
                encode_utf8("ClientEncrypt-main"@),
                32,
            ),
    {
        let hkdf = HkdfSha512::new(Some(salt), shared_secret);
        let output_key = match hkdf.expand_fixed::<32>("ServerEncrypt-main".as_bytes()) {
            Ok(k) => k,
            Err(e) => return Err(e),
        };
        let input_key = match hkdf.expand_fixed::<32>("ClientEncrypt-main".as_bytes()) {
            Ok(k) => k,
            Err(e) => return Err(e),
        };
        Ok(Self { output_key, input_key })
    }
}

} // verus!
