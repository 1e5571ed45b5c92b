//! Minecraft Java Edition wire format: the data types of the protocol, how
//! they are read from and written to bytes, the framing of packets on a
//! connection, and the decisions that a client makes on a connection.

pub mod arrays;
pub mod assets;
pub mod auth;
pub mod bytes;
pub mod codegen;
pub mod connection;
pub mod containers;
pub mod derive;
pub mod entities;
pub mod error;
pub mod frame;
pub mod json;
pub mod logging;
pub mod network;
pub mod prims;
pub mod std_ext;
pub mod text;
pub mod types;
pub mod uuid;
pub mod serial;
pub mod varint;

use vstd::prelude::*;

verus! {

/// Largest number that the length prefix of a frame may hold.
pub const MAX_PACKET_SIZE: u64 = 2097152;

/// Largest number of bytes that the id and data of one packet may take.
pub const MAX_PACKET_DATA_SIZE: usize = 8388608;

/// Frames whose data is at least this long are compressed.
pub type CompressionThreshold = usize;

/// Zlib compression level, from 0 to 9.
pub type CompressionLevel = u32;

/// A packet as it stands in a frame: its id and the bytes that follow it.
#[derive(Debug)]
pub struct RawPacket {
    pub id: i32,
    pub payload: Vec<u8>,
}

} // verus!
