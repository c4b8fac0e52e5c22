//! DACP (Digital Audio Control Protocol): the remote-control commands a
//! receiver sends back to the sender.
pub mod commands;

pub use commands::DacpCommand;
