//! Line-delimited JSON-RPC protocol engine for a mining pool's stratum
//! connections: message types, envelope codec, line framing decisions, and
//! the protocol facade that a connection-handling layer drives.

pub mod config;
pub mod framer;
pub mod json;
pub mod msgs;
pub mod parse;
pub mod codec;
pub mod proto;
