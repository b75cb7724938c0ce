//! A GDB Remote Serial Protocol (RSP) stub: framing, escaping, checksums,
//! packet parsing, and command dispatch for a debug server that exposes a
//! 32-bit x86 execution target to a GDB-compatible client.

pub mod dispatch;
pub mod frame;
pub mod hex;
pub mod parser;
pub mod query;

pub use hex::ToHex;
