//! Pairing error codes carried in the Error item.
use vstd::prelude::*;

verus! {

/// Generic error
pub const UNKNOWN: u8 = 1;

/// Setup code or signature verification failed
pub const AUTHENTICATION: u8 = 2;

/// Too many failed attempts; retry later
pub const BACKOFF: u8 = 3;

/// No more pairings can be added
pub const MAX_PEERS: u8 = 4;

/// Too many failed attempts
pub const MAX_TRIES: u8 = 5;

/// The pairing service is unavailable
pub const UNAVAILABLE: u8 = 6;

/// The accessory is busy pairing with another client
pub const BUSY: u8 = 7;

} // verus!
