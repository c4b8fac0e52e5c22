//! NTP (RFC 5905) packets and the clock offset they give.
pub mod client;
