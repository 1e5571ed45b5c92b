//! Packet frames on a connection: a length, optionally the length of the
//! uncompressed data, then the packet's id and data, compressed or not.
//!
//! Frames here are bytes in memory. Moving them over a stream, encrypting
//! them and running zlib is the work of the caller; what to write, and what
//! the bytes that were read hold, is decided here.

use crate::bytes::{append_bytes, tail};
use crate::error::{ReadErrorKind, ReadingError};
use crate::serial::Serializable;
use crate::varint::{lemma_leb_bytes, varint_bytes, varint_read, VarInt};
use crate::{CompressionLevel, CompressionThreshold, RawPacket, MAX_PACKET_DATA_SIZE, MAX_PACKET_SIZE};
use vstd::prelude::*;

verus! {

/// Why a packet could not be framed.
#[derive(Debug)]
pub enum PacketEncodeError {
    /// The frame, or the packet's data, would be this many bytes: too long.
    TooLong(usize),
    Message(String),
}

/// Why a frame could not be read.
#[derive(Debug)]
pub enum PacketDecodeError {
    /// The input ended before the frame began.
    ConnectionClosed,
    /// A length could not be read.
    MalformedLength(ReadingError),
    /// The frame's length is out of bounds.
    OutOfBounds,
    /// The input ended before as many bytes as the frame's length counts.
    Truncated,
    /// The uncompressed data would be too long.
    TooLong,
    /// The data was sent uncompressed although it is longer than the threshold.
    NotCompressed,
    /// The packet's id could not be read.
    DecodeID,
    /// The data could not be read, or inflated.
    FailedDecompression(String),
}

impl From<ReadingError> for PacketDecodeError {
    fn from(e: ReadingError) -> (r: PacketDecodeError) {
        match e {
            ReadingError::CleanEOF(_) => PacketDecodeError::ConnectionClosed,
            other => PacketDecodeError::MalformedLength(other),
        }
    }
}

impl vstd::std_specs::convert::FromSpecImpl<ReadingError> for PacketDecodeError {
    open spec fn obeys_from_spec() -> bool {
        true
    }

    open spec fn from_spec(e: ReadingError) -> PacketDecodeError {
        match e {
            ReadingError::CleanEOF(_) => PacketDecodeError::ConnectionClosed,
            other => PacketDecodeError::MalformedLength(other),
        }
    }
}

/// The number of bytes of a VarInt.
pub open spec fn varint_len(v: i32) -> nat {
    varint_bytes(v).len()
}

/// The number of bytes of a whole frame whose length prefix is `full`.
pub open spec fn frame_len(full: i32) -> int {
    varint_len(full) + full
}

/// A frame without compression: the length of the data, then the data.
pub open spec fn frame_plain(data: Seq<u8>) -> Seq<u8> {
    varint_bytes(data.len() as i32) + data
}

/// A frame on a compressed connection whose data stays uncompressed: the
/// length of what follows, a zero, then the data.
pub open spec fn frame_uncompressed(data: Seq<u8>) -> Seq<u8> {
    varint_bytes((1 + data.len()) as i32) + varint_bytes(0) + data
}

/// A frame with compressed data: the length of what follows, the length of
/// the uncompressed data, then the compressed data.
pub open spec fn frame_compressed(data_len: nat, compressed: Seq<u8>) -> Seq<u8> {
    varint_bytes((varint_len(data_len as i32) + compressed.len()) as i32) + varint_bytes(
        data_len as i32,
    ) + compressed
}

/// What framing a packet's data calls for.
#[derive(Debug, Clone, Copy, PartialEq, Eq)]
pub enum FramePlan {
    /// No compression on the connection.
    Plain,
    /// The connection compresses, but the data is shorter than the threshold.
    Uncompressed,
    /// The data must be compressed at this level before it is framed.
    Compress(CompressionLevel),
}

/// Decides how to frame `data_len` bytes of packet data, given the
/// connection's compression: the data may not pass the largest size; with
/// compression, data at least as long as the threshold is compressed.
pub fn plan_frame(
    compression: Option<(CompressionThreshold, CompressionLevel)>,
    data_len: usize,
) -> (r: Result<FramePlan, PacketEncodeError>)
    ensures
        data_len > MAX_PACKET_DATA_SIZE ==> r == Err::<FramePlan, PacketEncodeError>(
            PacketEncodeError::TooLong(data_len),
        ),
        data_len <= MAX_PACKET_DATA_SIZE ==> r == Ok::<FramePlan, PacketEncodeError>(
            match compression {
                None => FramePlan::Plain,
                Some((threshold, level)) => if data_len >= threshold {
                    FramePlan::Compress(level)
                } else {
                    FramePlan::Uncompressed
                },
            },
        ),
{
    if data_len > MAX_PACKET_DATA_SIZE {
        return Err(PacketEncodeError::TooLong(data_len));
    }
    match compression {
        None => Ok(FramePlan::Plain),
        Some((threshold, level)) => if data_len >= threshold {
            Ok(FramePlan::Compress(level))
        } else {
            Ok(FramePlan::Uncompressed)
        },
    }
}

/// Frames packet data that is not compressed: plainly, or, on a connection
/// that compresses, with a zero for the uncompressed length. The whole frame
/// may not pass the largest frame size.
pub fn frame_packet(compressing: bool, packet_data: &[u8]) -> (r: Result<
    Vec<u8>,
    PacketEncodeError,
>)
    requires
        packet_data@.len() <= MAX_PACKET_DATA_SIZE,
    ensures
        ({
            let full: int = if compressing {
                1 + packet_data@.len() as int
            } else {
                packet_data@.len() as int
            };
            &&& frame_len(full as i32) > MAX_PACKET_SIZE ==> r is Err && r->Err_0
                == PacketEncodeError::TooLong(frame_len(full as i32) as usize)
            &&& frame_len(full as i32) <= MAX_PACKET_SIZE ==> r is Ok && r->Ok_0@ == if compressing {
                frame_uncompressed(packet_data@)
            } else {
                frame_plain(packet_data@)
            }
        }),
{
    let data_len = packet_data.len();
    let full_len = if compressing {
        VarInt((1 + data_len) as i32)
    } else {
        VarInt(data_len as i32)
    };
    let complete = full_len.written_size() + full_len.0 as usize;
    if complete > MAX_PACKET_SIZE as usize {
        return Err(PacketEncodeError::TooLong(complete));
    }
    let mut out: Vec<u8> = Vec::new();
    full_len.write_to_async(&mut out);
    if compressing {
        VarInt(0).write_to_async(&mut out);
    }
    append_bytes(&mut out, packet_data);
    proof {
        if compressing {
            assert(out@ =~= frame_uncompressed(packet_data@));
        } else {
            assert(out@ =~= frame_plain(packet_data@));
        }
    }
    Ok(out)
}

/// Frames data that was compressed from `data_len` bytes. The length prefix
/// must fit in a VarInt, and the whole frame may not pass the largest frame
/// size.
pub fn frame_compressed_packet(data_len: usize, compressed: &[u8]) -> (r: Result<
    Vec<u8>,
    PacketEncodeError,
>)
    requires
        data_len <= MAX_PACKET_DATA_SIZE,
        compressed@.len() + 5 <= usize::MAX,
    ensures
        ({
            let full = varint_len(data_len as i32) + compressed@.len();
            &&& full > i32::MAX ==> (r matches Err(PacketEncodeError::Message(m)) && m@
                == "Full packet length is too large to fit in VarInt! ("@ + crate::bytes::decimal(
                data_len as nat,
            ) + ")"@)
            &&& full <= i32::MAX && frame_len(full as i32) > MAX_PACKET_SIZE ==> r is Err
                && r->Err_0 == PacketEncodeError::TooLong(frame_len(full as i32) as usize)
            &&& full <= i32::MAX && frame_len(full as i32) <= MAX_PACKET_SIZE ==> r is Ok
                && r->Ok_0@ == frame_compressed(data_len as nat, compressed@)
        }),
{
    let data_len_var_int = VarInt(data_len as i32);
    let ws = data_len_var_int.written_size();
    let full = match VarInt::try_from(ws + compressed.len()) {
        Ok(v) => v,
        Err(_) => {
            let m = crate::bytes::message_with_number(
                "Full packet length is too large to fit in VarInt! (",
                data_len,
            );
            return Err(PacketEncodeError::Message(crate::text::concat_str(m, ")")));
        },
    };
    let complete = full.written_size() + full.0 as usize;
    if complete > MAX_PACKET_SIZE as usize {
        return Err(PacketEncodeError::TooLong(complete));
    }
    let mut out: Vec<u8> = Vec::new();
    full.write_to_async(&mut out);
    data_len_var_int.write_to_async(&mut out);
    append_bytes(&mut out, compressed);
    proof {
        assert(out@ =~= frame_compressed(data_len as nat, compressed@));
    }
    Ok(out)
}

/// What reading a VarInt from a stream that holds `data` and then ends gives:
/// what reading it from a buffer gives, except that running out of input is
/// a clean end before the first byte, and an incomplete VarInt after it.
pub open spec fn stream_varint_read(data: Seq<u8>) -> Result<(i32, nat), ReadErrorKind> {
    match varint_read(data) {
        Err(ReadErrorKind::Io) => if data.len() == 0 {
            Err(ReadErrorKind::CleanEof)
        } else {
            Err(ReadErrorKind::Incomplete)
        },
        other => other,
    }
}

/// Reads a VarInt from a stream that holds `buf` and then ends.
pub fn read_varint_stream(buf: &[u8]) -> (r: Result<(VarInt, usize), ReadingError>)
    ensures
        match r {
            Ok((v, n)) => stream_varint_read(buf@) == Ok::<(i32, nat), ReadErrorKind>(
                (v.0, n as nat),
            ),
            Err(e) => stream_varint_read(buf@) == Err::<(i32, nat), ReadErrorKind>(e.kind()),
        },
        r matches Err(ReadingError::CleanEOF(m)) ==> m@ == "VarInt"@,
        r matches Err(ReadingError::Incomplete(m)) ==> m@ == "early eof"@,
        r matches Err(ReadingError::TooLarge(m)) ==> m@ == "VarInt"@,
{
    match VarInt::read_from(buf) {
        Ok(r) => Ok(r),
        Err(e) => match e {
            ReadingError::IoError(_) => if buf.len() == 0 {
                Err(ReadingError::CleanEOF("VarInt".to_owned()))
            } else {
                Err(ReadingError::Incomplete("early eof".to_owned()))
            },
            other => Err(other),
        },
    }
}

/// Checks the length that starts a frame: read as an unsigned 64-bit number,
/// it may not pass the largest frame size.
pub fn check_frame_length(len: VarInt) -> (r: Result<u64, PacketDecodeError>)
    ensures
        (len.0 as u64) <= MAX_PACKET_SIZE ==> r == Ok::<u64, PacketDecodeError>(len.0 as u64),
        (len.0 as u64) > MAX_PACKET_SIZE ==> r == Err::<u64, PacketDecodeError>(
            PacketDecodeError::OutOfBounds,
        ),
{
    let packet_len = len.0 as u64;
    if packet_len > MAX_PACKET_SIZE {
        return Err(PacketDecodeError::OutOfBounds);
    }
    Ok(packet_len)
}

/// What the body of a frame holds.
#[derive(Debug)]
pub enum FrameBody {
    /// The packet's id and data, as they are.
    Uncompressed(Vec<u8>),
    /// The packet's id and data, compressed with zlib from `data_length` bytes.
    Compressed { data_length: usize, data: Vec<u8> },
}

/// Splits the body of a frame, the `packet_len` bytes after its length, of
/// which fewer may have arrived: then the frame is cut short, an error.
/// Without compression the body is the packet. With
/// compression, a VarInt comes first: zero means that the rest is not
/// compressed, which it may only be for a body no longer than the threshold
/// after that zero; anything else is the length of the uncompressed data,
/// which may not pass the largest size.
pub fn split_frame_body(
    body: &[u8],
    packet_len: u64,
    compression: Option<CompressionThreshold>,
) -> (r: Result<FrameBody, PacketDecodeError>)
    requires
        body@.len() <= packet_len,
    ensures
        r matches Err(PacketDecodeError::MalformedLength(ReadingError::Incomplete(m))) ==> m@
            == "early eof"@,
        r matches Err(PacketDecodeError::MalformedLength(ReadingError::TooLarge(m))) ==> m@
            == "VarInt"@,
        body@.len() < packet_len ==> r == Err::<FrameBody, PacketDecodeError>(
            PacketDecodeError::Truncated,
        ),
        body@.len() == packet_len && compression is None ==> (r matches Ok(
            FrameBody::Uncompressed(d),
        ) && d@ == body@),
        compression matches Some(threshold) ==> body@.len() == packet_len ==> match stream_varint_read(body@) {
            Err(k) => {
                &&& r is Err
                &&& k == ReadErrorKind::CleanEof ==> r->Err_0 is ConnectionClosed
                &&& k != ReadErrorKind::CleanEof ==> (r->Err_0 matches PacketDecodeError::MalformedLength(e) && e.kind() == k)
            },
            Ok((dl, n)) => {
                let rest = body@.subrange(n as int, body@.len() as int);
                if (dl as usize) > MAX_PACKET_DATA_SIZE {
                    r == Err::<FrameBody, PacketDecodeError>(PacketDecodeError::TooLong)
                } else if dl == 0 {
                    if packet_len - 1 > threshold {
                        r == Err::<FrameBody, PacketDecodeError>(PacketDecodeError::NotCompressed)
                    } else {
                        r matches Ok(FrameBody::Uncompressed(d)) && d@ == rest
                    }
                } else {
                    r matches Ok(FrameBody::Compressed { data_length, data }) && data_length == dl as usize
                        && data@ == rest
                }
            },
        },
{
    if (body.len() as u64) < packet_len {
        return Err(PacketDecodeError::Truncated);
    }
    match compression {
        None => Ok(FrameBody::Uncompressed(vstd::slice::slice_to_vec(body))),
        Some(threshold) => {
            let (decompressed_length, n) = match read_varint_stream(body) {
                Ok(r) => r,
                Err(e) => return Err(PacketDecodeError::from(e)),
            };
            proof {
                VarInt::lemma_read_len(body@);
                crate::varint::lemma_canonical_len(body@);
            }
            let raw_packet_length = packet_len - decompressed_length.written_size() as u64;
            proof {
                let x = decompressed_length.0;
                assert(((x as usize) == 0) == (x == 0)) by (bit_vector);
                if decompressed_length.0 == 0 {
                    lemma_leb_bytes(0);
                    assert(varint_bytes(0) =~= seq![0u8]);
                }
            }
            let decompressed_length = decompressed_length.0 as usize;
            if decompressed_length > MAX_PACKET_DATA_SIZE {
                return Err(PacketDecodeError::TooLong);
            }
            let rest = vstd::slice::slice_to_vec(tail(body, n));
            if decompressed_length == 0 {
                if raw_packet_length > threshold as u64 {
                    return Err(PacketDecodeError::NotCompressed);
                }
                Ok(FrameBody::Uncompressed(rest))
            } else {
                Ok(FrameBody::Compressed { data_length: decompressed_length, data: rest })
            }
        },
    }
}

/// Reads a packet from its uncompressed bytes: its id as a VarInt, then its
/// data, all the bytes that are left.
pub fn parse_packet(data: &[u8]) -> (r: Result<RawPacket, PacketDecodeError>)
    ensures
        match varint_read(data@) {
            Ok((id, n)) => r matches Ok(p) && p.id == id && p.payload@ == data@.subrange(
                n as int,
                data@.len() as int,
            ),
            Err(_) => r == Err::<RawPacket, PacketDecodeError>(PacketDecodeError::DecodeID),
        },
{
    let (id, n) = match read_varint_stream(data) {
        Ok(r) => r,
        Err(_) => return Err(PacketDecodeError::DecodeID),
    };
    proof {
        VarInt::lemma_read_len(data@);
    }
    let payload = vstd::slice::slice_to_vec(tail(data, n));
    Ok(RawPacket { id: id.0, payload })
}

/// A frame without compression reads back: its length prefix passes the
/// check and counts exactly the packet's bytes, whatever follows.
pub proof fn lemma_plain_frame_reads_back(data: Seq<u8>, rest: Seq<u8>)
    requires
        data.len() <= MAX_PACKET_DATA_SIZE,
        frame_len(data.len() as i32) <= MAX_PACKET_SIZE,
    ensures
        ({
            let f = frame_plain(data) + rest;
            let w = varint_len(data.len() as i32);
            &&& varint_read(f) == Ok::<(i32, nat), ReadErrorKind>((data.len() as i32, w))
            &&& ((data.len() as i32) as u64) <= MAX_PACKET_SIZE
            &&& f.subrange(w as int, (w + data.len()) as int) == data
        }),
{
    let l = data.len() as i32;
    VarInt::lemma_roundtrip(l, data + rest);
    let f = frame_plain(data) + rest;
    assert(f =~= varint_bytes(l) + (data + rest));
    let w = varint_len(l);
    assert(f.subrange(w as int, (w + data.len()) as int) =~= data);
}

/// A frame whose data was left uncompressed reads back: the prefix counts
/// the zero and the packet's bytes; the zero says that they are not
/// compressed; and, for data not longer than the threshold, the body is
/// accepted and holds the packet's bytes.
pub proof fn lemma_uncompressed_frame_reads_back(
    data: Seq<u8>,
    rest: Seq<u8>,
    threshold: CompressionThreshold,
)
    requires
        data.len() <= threshold,
        data.len() <= MAX_PACKET_DATA_SIZE,
        frame_len((1 + data.len()) as i32) <= MAX_PACKET_SIZE,
    ensures
        ({
            let full = (1 + data.len()) as i32;
            let f = frame_uncompressed(data) + rest;
            let w = varint_len(full);
            let body = f.subrange(w as int, w + full);
            &&& varint_read(f) == Ok::<(i32, nat), ReadErrorKind>((full, w))
            &&& (full as u64) <= MAX_PACKET_SIZE
            &&& stream_varint_read(body) == Ok::<(i32, nat), ReadErrorKind>((0, 1))
            &&& !((full as u64) - 1 > threshold)
            &&& body.subrange(1, body.len() as int) == data
        }),
{
    let full = (1 + data.len()) as i32;
    let zero = varint_bytes(0);
    assert(zero =~= seq![0u8]) by {
        lemma_leb_bytes(0);
    }
    VarInt::lemma_roundtrip(full, zero + data + rest);
    let f = frame_uncompressed(data) + rest;
    assert(f =~= varint_bytes(full) + (zero + data + rest));
    let w = varint_len(full);
    let body = f.subrange(w as int, w + full);
    assert(body =~= zero + data);
    VarInt::lemma_roundtrip(0, data);
    assert(body.subrange(1, body.len() as int) =~= data);
}

/// A frame with compressed data reads back: the prefix counts the length of
/// the uncompressed data and the compressed bytes, and the body gives them
/// back, provided that length is not zero (zero would mean uncompressed).
pub proof fn lemma_compressed_frame_reads_back(data_len: nat, compressed: Seq<u8>, rest: Seq<u8>)
    requires
        0 < data_len <= MAX_PACKET_DATA_SIZE,
        varint_len(data_len as i32) + compressed.len() <= i32::MAX,
        frame_len((varint_len(data_len as i32) + compressed.len()) as i32) <= MAX_PACKET_SIZE,
    ensures
        ({
            let full = (varint_len(data_len as i32) + compressed.len()) as i32;
            let f = frame_compressed(data_len, compressed) + rest;
            let w = varint_len(full);
            let body = f.subrange(w as int, w + full);
            let n = varint_len(data_len as i32);
            &&& varint_read(f) == Ok::<(i32, nat), ReadErrorKind>((full, w))
            &&& (full as u64) <= MAX_PACKET_SIZE
            &&& stream_varint_read(body) == Ok::<(i32, nat), ReadErrorKind>((data_len as i32, n))
            &&& body.subrange(n as int, body.len() as int) == compressed
        }),
{
    let full = (varint_len(data_len as i32) + compressed.len()) as i32;
    let lenb = varint_bytes(data_len as i32);
    VarInt::lemma_roundtrip(full, lenb + compressed + rest);
    let f = frame_compressed(data_len, compressed) + rest;
    assert(f =~= varint_bytes(full) + (lenb + compressed + rest));
    let w = varint_len(full);
    let body = f.subrange(w as int, w + full);
    assert(body =~= lenb + compressed);
    VarInt::lemma_roundtrip(data_len as i32, compressed);
    let n = lenb.len();
    assert(body.subrange(n as int, body.len() as int) =~= compressed);
}

/// The bytes of a packet, its id as a VarInt and then its data, read back.
pub proof fn lemma_packet_reads_back(id: i32, payload: Seq<u8>)
    ensures
        varint_read(varint_bytes(id) + payload) == Ok::<(i32, nat), ReadErrorKind>(
            (id, varint_len(id)),
        ),
        (varint_bytes(id) + payload).subrange(
            varint_len(id) as int,
            (varint_bytes(id) + payload).len() as int,
        ) == payload,
{
    VarInt::lemma_roundtrip(id, payload);
    assert((varint_bytes(id) + payload).subrange(
        varint_len(id) as int,
        (varint_bytes(id) + payload).len() as int,
    ) =~= payload);
}


/// A packet framed by `frame_packet` reads back through the decoder's steps:
/// the length prefix reads, as a stream would give it, and passes the check;
/// the body it counts is what `split_frame_body` takes apart, here without
/// compression or with data below the threshold; and what it yields is the
/// packet's id and payload as `parse_packet` reads them. Whatever follows the
/// frame is left alone.
pub proof fn lemma_frame_round_trip(
    compressing: bool,
    threshold: CompressionThreshold,
    id: i32,
    payload: Seq<u8>,
    rest: Seq<u8>,
)
    requires
        (varint_bytes(id) + payload).len() <= MAX_PACKET_DATA_SIZE,
        compressing ==> (varint_bytes(id) + payload).len() < threshold,
        frame_len(
            (if compressing {
                1 + (varint_bytes(id) + payload).len() as int
            } else {
                (varint_bytes(id) + payload).len() as int
            }) as i32,
        ) <= MAX_PACKET_SIZE,
    ensures
        ({
            let d = varint_bytes(id) + payload;
            let full: int = if compressing {
                1 + d.len() as int
            } else {
                d.len() as int
            };
            let f = (if compressing {
                frame_uncompressed(d)
            } else {
                frame_plain(d)
            }) + rest;
            let w = varint_len(full as i32);
            let body = f.subrange(w as int, w + full);
            &&& stream_varint_read(f) == Ok::<(i32, nat), ReadErrorKind>((full as i32, w))
            &&& ((full as i32) as u64) <= MAX_PACKET_SIZE
            &&& body.len() == full
            &&& f.subrange(w + full, f.len() as int) == rest
            &&& compressing ==> {
                &&& stream_varint_read(body) == Ok::<(i32, nat), ReadErrorKind>((0, 1))
                &&& !((full as u64) - 1 > threshold)
                &&& body.subrange(1, body.len() as int) == d
            }
            &&& !compressing ==> body == d
            &&& varint_read(d) == Ok::<(i32, nat), ReadErrorKind>((id, varint_len(id)))
            &&& d.subrange(varint_len(id) as int, d.len() as int) == payload
        }),
{
    let d = varint_bytes(id) + payload;
    lemma_packet_reads_back(id, payload);
    if compressing {
        lemma_uncompressed_frame_reads_back(d, rest, threshold);
        let full = (1 + d.len()) as i32;
        let f = frame_uncompressed(d) + rest;
        let w = varint_len(full);
        VarInt::lemma_read_len(f);
        assert(f =~= varint_bytes(full) + (varint_bytes(0) + d + rest));
        assert(f.subrange(w + full, f.len() as int) =~= rest);
    } else {
        lemma_plain_frame_reads_back(d, rest);
        let f = frame_plain(d) + rest;
        let w = varint_len(d.len() as i32);
        assert(f =~= varint_bytes(d.len() as i32) + (d + rest));
        assert(f.subrange(w + d.len() as int, f.len() as int) =~= rest);
    }
}

} // verus!
