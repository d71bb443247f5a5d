//! Core data model: protocol states, packet directions, packet ids, raw
//! packets, and the error taxonomy shared by the reader and writer bridges.

use vstd::prelude::*;

verus! {

/// Protocol phase controlling which packet ids are legal.
#[derive(Clone, Copy, Debug, PartialEq, Eq, Structural)]
pub enum State {
    Handshaking,
    Status,
    Login,
    Play,
}

/// Sense of packet travel relative to the client/server role of the endpoint.
#[derive(Clone, Copy, Debug, PartialEq, Eq, Structural)]
pub enum PacketDirection {
    ServerBound,
    ClientBound,
}

impl PacketDirection {
    /// The direction packets travel on the paired half of a connection.
    pub fn opposite(&self) -> (r: PacketDirection)
        ensures
            r == self.opposite_spec(),
    {
        match self {
            PacketDirection::ServerBound => PacketDirection::ClientBound,
            PacketDirection::ClientBound => PacketDirection::ServerBound,
        }
    }

    pub open spec fn opposite_spec(&self) -> PacketDirection {
        match self {
            PacketDirection::ServerBound => PacketDirection::ClientBound,
            PacketDirection::ClientBound => PacketDirection::ServerBound,
        }
    }
}

/// Identity of a packet type: the protocol numeric id tagged with the state
/// and direction under which it is legal.
#[derive(Clone, Copy, Debug, PartialEq, Eq, Structural)]
pub struct Id {
    pub state: State,
    pub direction: PacketDirection,
    pub id: i32,
}

/// One decoded (or to-be-encoded) packet: its id and its opaque body bytes.
/// The core does not interpret packet contents.
#[derive(Debug, Clone)]
pub struct RawPacket {
    pub id: Id,
    pub body: Vec<u8>,
}

/// Error taxonomy of the bridge core. All errors on a single packet are
/// terminal for the affected direction.
#[derive(Clone, Copy, Debug, PartialEq, Eq, Structural)]
pub enum Error {
    /// Transport read or write failure (raised by the I/O layer around the core).
    IoError,
    /// The stream ended in the middle of a frame.
    UnexpectedEof,
    /// A length or id VarInt carried a continuation bit past its last legal byte.
    VarIntOverflow,
    /// zlib reported a fault while compressing.
    DeflateError,
    /// zlib reported a fault while decompressing, or the output did not fit
    /// the advertised data length.
    InflateError,
    /// The writer was handed a packet whose id direction disagrees with the
    /// writer's configured direction.
    DirectionMismatch,
    /// The writer was handed a packet whose id state disagrees with the
    /// writer's current state.
    StateMismatch,
    /// A key or iv of length other than 16 was supplied to `enable_encryption`.
    InvalidKeyMaterial,
    /// `enable_encryption` was called a second time on the same direction.
    DoubleEnableEncryption,
    /// An external packet decoder or encoder failed (surfaced unchanged by
    /// layers above the core).
    PacketCatalogError,
}

} // verus!
