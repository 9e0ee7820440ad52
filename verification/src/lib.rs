//! Verified core of a Piranha/Laser protocol game server: the byte stream
//! codec, message framing and message handling rules.

pub mod stream;
pub mod networking;
pub mod message;
pub mod utils;
