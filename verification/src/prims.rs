//! The wire format of booleans, fixed-width integers and strings.

use crate::bytes::{
    append_bytes, be_bytes, be_read_u128, be_read_u16, be_read_u32, be_read_u64, be_value,
    be_write_u128, be_write_u16, be_write_u32, be_write_u64, lemma_be_roundtrip,
    lemma_pow256_values, message_with_number, pow256,
};
use crate::error::{eof_error, ReadErrorKind, ReadingError, WritingError};
use crate::serial::{Lengthable, Serializable};
use crate::std_ext::{string_bytes, string_from_utf8};
use crate::varint::{varint_bytes, varint_read, VarInt};
use vstd::prelude::*;
use vstd::utf8::{decode_utf8, encode_utf8, valid_utf8};

verus! {

/// Reading the first `k` bytes of what `be_bytes` wrote, whatever follows,
/// gives back the number modulo `256^k`.
pub proof fn lemma_fixed_roundtrip(v: nat, k: nat, rest: Seq<u8>)
    ensures
        (be_bytes(v, k) + rest).take(k as int) == be_bytes(v, k),
        be_value((be_bytes(v, k) + rest).take(k as int)) == v % pow256(k),
        (be_bytes(v, k) + rest).len() >= k,
{
    lemma_be_roundtrip(v, k);
    assert((be_bytes(v, k) + rest).take(k as int) =~= be_bytes(v, k));
}

impl Serializable for u16 {
    open spec fn spec_read(data: Seq<u8>) -> Result<(u16, nat), ReadErrorKind> {
        if data.len() < 2 {
            Err(ReadErrorKind::Io)
        } else {
            Ok((be_value(data.take(2)) as u16, 2))
        }
    }

    open spec fn spec_write(v: u16) -> Result<Seq<u8>, Seq<u8>> {
        Ok(be_bytes(v as nat, 2))
    }

    open spec fn spec_writable(v: u16) -> bool {
        true
    }

    open spec fn spec_roundtrips(v: u16, rest: Seq<u8>) -> bool {
        true
    }

    proof fn lemma_read_len(data: Seq<u8>) {
    }

    proof fn lemma_roundtrip(v: u16, rest: Seq<u8>) {
        lemma_fixed_roundtrip(v as nat, 2, rest);
        lemma_pow256_values();
    }

    fn read_from(buf: &[u8]) -> (res: Result<(u16, usize), ReadingError>) {
        if buf.len() < 2 {
            return Err(eof_error());
        }
        Ok((be_read_u16(buf), 2))
    }

    fn write_to(&self, buf: &mut Vec<u8>) -> (res: Result<(), WritingError>) {
        let b = be_write_u16(*self);
        append_bytes(buf, b.as_slice());
        Ok(())
    }
}

impl Serializable for u32 {
    open spec fn spec_read(data: Seq<u8>) -> Result<(u32, nat), ReadErrorKind> {
        if data.len() < 4 {
            Err(ReadErrorKind::Io)
        } else {
            Ok((be_value(data.take(4)) as u32, 4))
        }
    }

    open spec fn spec_write(v: u32) -> Result<Seq<u8>, Seq<u8>> {
        Ok(be_bytes(v as nat, 4))
    }

    open spec fn spec_writable(v: u32) -> bool {
        true
    }

    open spec fn spec_roundtrips(v: u32, rest: Seq<u8>) -> bool {
        true
    }

    proof fn lemma_read_len(data: Seq<u8>) {
    }

    proof fn lemma_roundtrip(v: u32, rest: Seq<u8>) {
        lemma_fixed_roundtrip(v as nat, 4, rest);
        lemma_pow256_values();
    }

    fn read_from(buf: &[u8]) -> (res: Result<(u32, usize), ReadingError>) {
        if buf.len() < 4 {
            return Err(eof_error());
        }
        Ok((be_read_u32(buf), 4))
    }

    fn write_to(&self, buf: &mut Vec<u8>) -> (res: Result<(), WritingError>) {
        let b = be_write_u32(*self);
        append_bytes(buf, b.as_slice());
        Ok(())
    }
}

impl Serializable for u64 {
    open spec fn spec_read(data: Seq<u8>) -> Result<(u64, nat), ReadErrorKind> {
        if data.len() < 8 {
            Err(ReadErrorKind::Io)
        } else {
            Ok((be_value(data.take(8)) as u64, 8))
        }
    }

    open spec fn spec_write(v: u64) -> Result<Seq<u8>, Seq<u8>> {
        Ok(be_bytes(v as nat, 8))
    }

    open spec fn spec_writable(v: u64) -> bool {
        true
    }

    open spec fn spec_roundtrips(v: u64, rest: Seq<u8>) -> bool {
        true
    }

    proof fn lemma_read_len(data: Seq<u8>) {
    }

    proof fn lemma_roundtrip(v: u64, rest: Seq<u8>) {
        lemma_fixed_roundtrip(v as nat, 8, rest);
        lemma_pow256_values();
    }

    fn read_from(buf: &[u8]) -> (res: Result<(u64, usize), ReadingError>) {
        if buf.len() < 8 {
            return Err(eof_error());
        }
        Ok((be_read_u64(buf), 8))
    }

    fn write_to(&self, buf: &mut Vec<u8>) -> (res: Result<(), WritingError>) {
        let b = be_write_u64(*self);
        append_bytes(buf, b.as_slice());
        Ok(())
    }
}

impl Serializable for u128 {
    open spec fn spec_read(data: Seq<u8>) -> Result<(u128, nat), ReadErrorKind> {
        if data.len() < 16 {
            Err(ReadErrorKind::Io)
        } else {
            Ok((be_value(data.take(16)) as u128, 16))
        }
    }

    open spec fn spec_write(v: u128) -> Result<Seq<u8>, Seq<u8>> {
        Ok(be_bytes(v as nat, 16))
    }

    open spec fn spec_writable(v: u128) -> bool {
        true
    }

    open spec fn spec_roundtrips(v: u128, rest: Seq<u8>) -> bool {
        true
    }

    proof fn lemma_read_len(data: Seq<u8>) {
    }

    proof fn lemma_roundtrip(v: u128, rest: Seq<u8>) {
        lemma_fixed_roundtrip(v as nat, 16, rest);
        lemma_pow256_values();
    }

    fn read_from(buf: &[u8]) -> (res: Result<(u128, usize), ReadingError>) {
        if buf.len() < 16 {
            return Err(eof_error());
        }
        Ok((be_read_u128(buf), 16))
    }

    fn write_to(&self, buf: &mut Vec<u8>) -> (res: Result<(), WritingError>) {
        let b = be_write_u128(*self);
        append_bytes(buf, b.as_slice());
        Ok(())
    }
}

impl Serializable for i16 {
    open spec fn spec_read(data: Seq<u8>) -> Result<(i16, nat), ReadErrorKind> {
        if data.len() < 2 {
            Err(ReadErrorKind::Io)
        } else {
            Ok(((be_value(data.take(2)) as u16) as i16, 2))
        }
    }

    open spec fn spec_write(v: i16) -> Result<Seq<u8>, Seq<u8>> {
        Ok(be_bytes((v as u16) as nat, 2))
    }

    open spec fn spec_writable(v: i16) -> bool {
        true
    }

    open spec fn spec_roundtrips(v: i16, rest: Seq<u8>) -> bool {
        true
    }

    proof fn lemma_read_len(data: Seq<u8>) {
    }

    proof fn lemma_roundtrip(v: i16, rest: Seq<u8>) {
        lemma_fixed_roundtrip((v as u16) as nat, 2, rest);
        lemma_pow256_values();
        assert((v as u16) as i16 == v) by (bit_vector);
    }

    fn read_from(buf: &[u8]) -> (res: Result<(i16, usize), ReadingError>) {
        if buf.len() < 2 {
            return Err(eof_error());
        }
        Ok((be_read_u16(buf) as i16, 2))
    }

    fn write_to(&self, buf: &mut Vec<u8>) -> (res: Result<(), WritingError>) {
        let b = be_write_u16(*self as u16);
        append_bytes(buf, b.as_slice());
        Ok(())
    }
}

impl Serializable for i32 {
    open spec fn spec_read(data: Seq<u8>) -> Result<(i32, nat), ReadErrorKind> {
        if data.len() < 4 {
            Err(ReadErrorKind::Io)
        } else {
            Ok(((be_value(data.take(4)) as u32) as i32, 4))
        }
    }

    open spec fn spec_write(v: i32) -> Result<Seq<u8>, Seq<u8>> {
        Ok(be_bytes((v as u32) as nat, 4))
    }

    open spec fn spec_writable(v: i32) -> bool {
        true
    }

    open spec fn spec_roundtrips(v: i32, rest: Seq<u8>) -> bool {
        true
    }

    proof fn lemma_read_len(data: Seq<u8>) {
    }

    proof fn lemma_roundtrip(v: i32, rest: Seq<u8>) {
        lemma_fixed_roundtrip((v as u32) as nat, 4, rest);
        lemma_pow256_values();
        assert((v as u32) as i32 == v) by (bit_vector);
    }

    fn read_from(buf: &[u8]) -> (res: Result<(i32, usize), ReadingError>) {
        if buf.len() < 4 {
            return Err(eof_error());
        }
        Ok((be_read_u32(buf) as i32, 4))
    }

    fn write_to(&self, buf: &mut Vec<u8>) -> (res: Result<(), WritingError>) {
        let b = be_write_u32(*self as u32);
        append_bytes(buf, b.as_slice());
        Ok(())
    }
}

impl Serializable for i64 {
    open spec fn spec_read(data: Seq<u8>) -> Result<(i64, nat), ReadErrorKind> {
        if data.len() < 8 {
            Err(ReadErrorKind::Io)
        } else {
            Ok(((be_value(data.take(8)) as u64) as i64, 8))
        }
    }

    open spec fn spec_write(v: i64) -> Result<Seq<u8>, Seq<u8>> {
        Ok(be_bytes((v as u64) as nat, 8))
    }

    open spec fn spec_writable(v: i64) -> bool {
        true
    }

    open spec fn spec_roundtrips(v: i64, rest: Seq<u8>) -> bool {
        true
    }

    proof fn lemma_read_len(data: Seq<u8>) {
    }

    proof fn lemma_roundtrip(v: i64, rest: Seq<u8>) {
        lemma_fixed_roundtrip((v as u64) as nat, 8, rest);
        lemma_pow256_values();
        assert((v as u64) as i64 == v) by (bit_vector);
    }

    fn read_from(buf: &[u8]) -> (res: Result<(i64, usize), ReadingError>) {
        if buf.len() < 8 {
            return Err(eof_error());
        }
        Ok((be_read_u64(buf) as i64, 8))
    }

    fn write_to(&self, buf: &mut Vec<u8>) -> (res: Result<(), WritingError>) {
        let b = be_write_u64(*self as u64);
        append_bytes(buf, b.as_slice());
        Ok(())
    }
}

impl Serializable for u8 {
    open spec fn spec_read(data: Seq<u8>) -> Result<(u8, nat), ReadErrorKind> {
        if data.len() < 1 {
            Err(ReadErrorKind::Io)
        } else {
            Ok((data[0], 1))
        }
    }

    open spec fn spec_write(v: u8) -> Result<Seq<u8>, Seq<u8>> {
        Ok(seq![v])
    }

    open spec fn spec_writable(v: u8) -> bool {
        true
    }

    open spec fn spec_roundtrips(v: u8, rest: Seq<u8>) -> bool {
        true
    }

    proof fn lemma_read_len(data: Seq<u8>) {
    }

    proof fn lemma_roundtrip(v: u8, rest: Seq<u8>) {
        assert((seq![v] + rest)[0] == v);
    }

    fn read_from(buf: &[u8]) -> (res: Result<(u8, usize), ReadingError>) {
        if buf.len() < 1 {
            return Err(eof_error());
        }
        Ok((buf[0], 1))
    }

    fn write_to(&self, buf: &mut Vec<u8>) -> (res: Result<(), WritingError>) {
        buf.push(*self);
        proof {
            assert(buf@ =~= old(buf)@ + seq![*self]);
        }
        Ok(())
    }
}

impl Serializable for i8 {
    open spec fn spec_read(data: Seq<u8>) -> Result<(i8, nat), ReadErrorKind> {
        if data.len() < 1 {
            Err(ReadErrorKind::Io)
        } else {
            Ok((data[0] as i8, 1))
        }
    }

    open spec fn spec_write(v: i8) -> Result<Seq<u8>, Seq<u8>> {
        Ok(seq![v as u8])
    }

    open spec fn spec_writable(v: i8) -> bool {
        true
    }

    open spec fn spec_roundtrips(v: i8, rest: Seq<u8>) -> bool {
        true
    }

    proof fn lemma_read_len(data: Seq<u8>) {
    }

    proof fn lemma_roundtrip(v: i8, rest: Seq<u8>) {
        assert((seq![v as u8] + rest)[0] == v as u8);
        assert((v as u8) as i8 == v) by (bit_vector);
    }

    fn read_from(buf: &[u8]) -> (res: Result<(i8, usize), ReadingError>) {
        if buf.len() < 1 {
            return Err(eof_error());
        }
        Ok((buf[0] as i8, 1))
    }

    fn write_to(&self, buf: &mut Vec<u8>) -> (res: Result<(), WritingError>) {
        buf.push(*self as u8);
        proof {
            assert(buf@ =~= old(buf)@ + seq![*self as u8]);
        }
        Ok(())
    }
}

/// The byte of a boolean: one for true, zero for false.
pub open spec fn bool_byte(b: bool) -> u8 {
    if b {
        1
    } else {
        0
    }
}

impl Serializable for bool {
    open spec fn spec_read(data: Seq<u8>) -> Result<(bool, nat), ReadErrorKind> {
        if data.len() < 1 {
            Err(ReadErrorKind::Io)
        } else {
            Ok((data[0] != 0, 1))
        }
    }

    open spec fn spec_write(v: bool) -> Result<Seq<u8>, Seq<u8>> {
        Ok(seq![bool_byte(v)])
    }

    open spec fn spec_writable(v: bool) -> bool {
        true
    }

    open spec fn spec_roundtrips(v: bool, rest: Seq<u8>) -> bool {
        true
    }

    proof fn lemma_read_len(data: Seq<u8>) {
    }

    proof fn lemma_roundtrip(v: bool, rest: Seq<u8>) {
        assert((seq![bool_byte(v)] + rest)[0] == bool_byte(v));
    }

    fn read_from(buf: &[u8]) -> (res: Result<(bool, usize), ReadingError>) {
        if buf.len() < 1 {
            return Err(eof_error());
        }
        Ok((buf[0] != 0, 1))
    }

    fn write_to(&self, buf: &mut Vec<u8>) -> (res: Result<(), WritingError>) {
        let byte: u8 = if *self {
            1
        } else {
            0
        };
        buf.push(byte);
        proof {
            assert(buf@ =~= old(buf)@ + seq![bool_byte(*self)]);
        }
        Ok(())
    }
}

impl Serializable for () {
    open spec fn spec_read(data: Seq<u8>) -> Result<((), nat), ReadErrorKind> {
        Ok(((), 0))
    }

    open spec fn spec_write(v: ()) -> Result<Seq<u8>, Seq<u8>> {
        Ok(Seq::empty())
    }

    open spec fn spec_writable(v: ()) -> bool {
        true
    }

    open spec fn spec_roundtrips(v: (), rest: Seq<u8>) -> bool {
        true
    }

    proof fn lemma_read_len(data: Seq<u8>) {
    }

    proof fn lemma_roundtrip(v: (), rest: Seq<u8>) {
    }

    fn read_from(buf: &[u8]) -> (res: Result<((), usize), ReadingError>) {
        Ok(((), 0))
    }

    fn write_to(&self, buf: &mut Vec<u8>) -> (res: Result<(), WritingError>) {
        assert(buf@ =~= old(buf)@ + Seq::<u8>::empty());
        Ok(())
    }
}

impl Lengthable for u8 {
    open spec fn spec_from_len(val: usize) -> u8 {
        val as u8
    }

    open spec fn spec_into_len(v: u8) -> usize {
        v as usize
    }

    fn from_len(val: usize) -> (r: u8) {
        val as u8
    }

    fn into_len(self) -> (r: usize) {
        self as usize
    }
}

impl Lengthable for bool {
    open spec fn spec_from_len(val: usize) -> bool {
        val != 0
    }

    open spec fn spec_into_len(v: bool) -> usize {
        if v {
            1
        } else {
            0
        }
    }

    fn from_len(val: usize) -> (r: bool) {
        val != 0
    }

    fn into_len(self) -> (r: usize) {
        if self {
            1
        } else {
            0
        }
    }
}

impl Lengthable for i8 {
    open spec fn spec_from_len(val: usize) -> i8 {
        val as i8
    }

    open spec fn spec_into_len(v: i8) -> usize {
        v as usize
    }

    fn from_len(val: usize) -> (r: i8) {
        val as i8
    }

    fn into_len(self) -> (r: usize) {
        self as usize
    }
}

/// The longest string, in bytes, that the wire format allows.
pub const MAX_STRING_LEN: usize = 32767;

/// The smaller of two numbers.
pub open spec fn min_nat(a: nat, b: nat) -> nat {
    if a < b {
        a
    } else {
        b
    }
}

/// What reading a string from `data` gives. Its length in bytes comes first,
/// as a VarInt, and may not pass 32767; that many bytes must follow, and be
/// UTF-8.
pub open spec fn string_read(data: Seq<u8>) -> Result<(Seq<char>, nat), ReadErrorKind> {
    match varint_read(data) {
        Err(k) => Err(k),
        Ok((len, n)) => {
            if (len as usize) > MAX_STRING_LEN {
                Err(ReadErrorKind::Message)
            } else {
                let m = len as usize as nat;
                if n + m > data.len() {
                    Err(ReadErrorKind::Io)
                } else {
                    let bytes = data.subrange(n as int, (n + m) as int);
                    if valid_utf8(bytes) {
                        Ok((decode_utf8(bytes), n + m))
                    } else {
                        Err(ReadErrorKind::Utf8)
                    }
                }
            }
        },
    }
}

/// What writing a string appends: its length in bytes as a VarInt, then its
/// UTF-8 bytes; nothing if it is longer than 32767 bytes.
pub open spec fn string_write(s: Seq<char>) -> Result<Seq<u8>, Seq<u8>> {
    let bytes = encode_utf8(s);
    if bytes.len() > MAX_STRING_LEN {
        Err(Seq::empty())
    } else {
        Ok(varint_bytes(bytes.len() as i32) + bytes)
    }
}

impl Serializable for String {
    open spec fn spec_read(data: Seq<u8>) -> Result<(Seq<char>, nat), ReadErrorKind> {
        string_read(data)
    }

    open spec fn spec_write(v: Seq<char>) -> Result<Seq<u8>, Seq<u8>> {
        string_write(v)
    }

    open spec fn spec_writable(v: Seq<char>) -> bool {
        true
    }

    open spec fn spec_roundtrips(v: Seq<char>, rest: Seq<u8>) -> bool {
        true
    }

    proof fn lemma_read_len(data: Seq<u8>) {
        VarInt::lemma_read_len(data);
    }

    proof fn lemma_roundtrip(v: Seq<char>, rest: Seq<u8>) {
        let bytes = encode_utf8(v);
        let len = bytes.len() as i32;
        let prefix = varint_bytes(len);
        VarInt::lemma_roundtrip(len, bytes + rest);
        let data = prefix + bytes + rest;
        assert(data =~= prefix + (bytes + rest));
        let n = prefix.len();
        assert(data.subrange(n as int, (n + bytes.len()) as int) =~= bytes);
        vstd::utf8::encode_utf8_valid_utf8(v);
        vstd::utf8::encode_utf8_decode_utf8(v);
    }

    fn read_from(buf: &[u8]) -> (res: Result<(String, usize), ReadingError>)
        ensures
            res matches Err(ReadingError::Message(m)) ==> m@ == "Invalid string size"@,
            res matches Err(ReadingError::TooLarge(m)) ==> m@ == "VarInt"@,
    {
        let (len_prefix, n) = match VarInt::read_from(buf) {
            Ok(r) => r,
            Err(e) => return Err(e),
        };
        proof {
            VarInt::lemma_read_len(buf@);
        }
        let len = len_prefix.into_len();
        if len > MAX_STRING_LEN {
            return Err(ReadingError::Message("Invalid string size".to_owned()));
        }
        let remaining = buf.len() - n;
        if len > remaining {
            return Err(eof_error());
        }
        let bytes = vstd::slice::slice_to_vec(vstd::slice::slice_subrange(buf, n, n + len));
        match string_from_utf8(bytes) {
            Ok(s) => Ok((s, n + len)),
            Err(e) => Err(ReadingError::Utf8Error(e)),
        }
    }

    fn write_to(&self, buf: &mut Vec<u8>) -> (res: Result<(), WritingError>)
        ensures
            res matches Err(WritingError::Message(m)) ==> m@ == "Invalid string size: "@ + crate::bytes::decimal(
                encode_utf8(self@).len(),
            ),
    {
        let bytes = string_bytes(self);
        let len = bytes.len();
        if len > MAX_STRING_LEN {
            assert(buf@ =~= old(buf)@ + Seq::<u8>::empty());
            return Err(WritingError::Message(message_with_number("Invalid string size: ", len)));
        }
        let prefix = VarInt::from_len(len);
        let _ = prefix.write_to(buf);
        append_bytes(buf, bytes.as_slice());
        assert(buf@ =~= old(buf)@ + (varint_bytes(len as i32) + bytes@));
        Ok(())
    }
}

} // verus!
