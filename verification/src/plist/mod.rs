//! Binary property lists (`bplist00`), as AirPlay 2 messages carry them.
pub mod decode;
pub mod encode;
pub mod roundtrip;

pub use decode::{decode, PlistDecodeError, PlistValue};
pub use encode::{encode, PlistEncodeError};
