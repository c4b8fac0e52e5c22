//! RTP/RAOP protocol for AirPlay audio streaming.
pub mod packet;
pub mod timing;
pub mod control;
pub mod codec;
pub mod ntp_client;
pub mod packet_buffer;
