//! What an AirPlay receiver session is configured with.
pub mod session;
