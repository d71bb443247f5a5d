//! Framing, cryptographic, and compression core of a Minecraft Java-Edition
//! (protocol revision 578) wire-protocol bridge.
//!
//! The library mediates between a byte stream and a sequence of framed
//! packets: variable-length integer framing, AES-128 CFB8 stream encryption,
//! and zlib compression of packet bodies above a configurable threshold.
//! Transport I/O is left to the caller; the bridges here consume and produce
//! plain bytes.

pub mod types;
pub mod varint;
pub mod util;
pub mod cfb8;
pub mod zlib;
pub mod bridge;
pub mod reader;
pub mod writer;

pub use types::{State, PacketDirection, Id, RawPacket, Error};
pub use bridge::Bridge;
pub use reader::ReadBridge;
pub use writer::WriteBridge;
pub use util::{get_sized_buf, init_buf};
