//! Sans-IO protocol core of an AirPlay 2 audio streaming client.
pub mod bytes;
pub mod daap;
pub mod dacp;
pub mod ntp;
pub mod pairing;
pub mod plist;
pub mod text;
pub mod time;
pub mod ptp;
pub mod rng;
pub mod receiver;
pub mod rtsp;
pub mod sdp;
pub mod rtp;
pub mod crypto;
