//! The verified core of a relay that streams audio between a PC and a phone.

pub mod address;
pub mod audio;
pub mod client;
pub mod endian;
pub mod protocol;
pub mod server;
