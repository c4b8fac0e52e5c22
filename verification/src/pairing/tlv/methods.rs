//! Pairing method codes.
use vstd::prelude::*;

verus! {

/// Pair-Setup
pub const PAIR_SETUP: u8 = 0;

/// Pair-Setup with authentication
pub const PAIR_SETUP_AUTH: u8 = 1;

/// Pair-Verify
pub const PAIR_VERIFY: u8 = 2;

/// Add pairing
pub const ADD_PAIRING: u8 = 3;

/// Remove pairing
pub const REMOVE_PAIRING: u8 = 4;

/// List pairings
pub const LIST_PAIRINGS: u8 = 5;

} // verus!
