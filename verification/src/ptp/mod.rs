//! Precision Time Protocol (IEEE 1588) as used by AirPlay 2.
pub mod timestamp;
pub mod clock;
pub mod message;
pub mod addr;
pub mod node;
pub mod handler;
