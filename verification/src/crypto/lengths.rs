//! Key and nonce lengths.
use vstd::prelude::*;

verus! {

/// AES-128 key length.
pub const AES_128_KEY: usize = 16;
/// AES-GCM nonce length.
pub const AES_GCM_NONCE: usize = 12;
/// ChaCha20-Poly1305 key length.
pub const CHACHA_KEY: usize = 32;
/// ChaCha20-Poly1305 nonce length.
pub const CHACHA_NONCE: usize = 12;
/// X25519 public key length.
pub const X25519_PUBLIC_KEY: usize = 32;

} // verus!
