//! Fixed-size values of the protocol: block positions, angles, and vectors
//! of three or four values.

use crate::bytes::{
    append_bytes, be_bytes, be_read_u64, be_value, be_write_u64, lemma_pow256_values, pow256, tail,
};
use crate::containers::{triple_read, triple_write};
use crate::error::{eof_error, ReadErrorKind, ReadingError, WritingError};
use crate::prims::lemma_fixed_roundtrip;
use crate::serial::Serializable;
use vstd::prelude::*;

verus! {

/// A block position, packed into 64 bits: `x` in the top 26, then `z` in 26,
/// then `y` in the low 12.
#[derive(Debug)]
pub struct Position {
    x: i32,
    y: i32,
    z: i32,
}

impl View for Position {
    type V = (i32, i32, i32);

    closed spec fn view(&self) -> (i32, i32, i32) {
        (self.x, self.y, self.z)
    }
}

impl DeepView for Position {
    type V = (i32, i32, i32);

    closed spec fn deep_view(&self) -> (i32, i32, i32) {
        (self.x, self.y, self.z)
    }
}

/// A field of bits read as a two's complement number: `u`, less `size` when
/// its top bit is set (when it is at least half of `size`).
pub open spec fn signed_field(u: int, size: int) -> int {
    if u >= size / 2 {
        u - size
    } else {
        u
    }
}

/// The coordinates that a packed 64-bit position holds: the top 26 bits,
/// the low 12 bits and the 26 bits between, each a two's complement number.
pub open spec fn position_unpack(v: nat) -> (i32, i32, i32) {
    (
        signed_field((v / 0x40_0000_0000) as int, 0x400_0000) as i32,
        signed_field((v % 0x1000) as int, 0x1000) as i32,
        signed_field(((v / 0x1000) % 0x400_0000) as int, 0x400_0000) as i32,
    )
}

/// The 64 bits that hold a position: the low 26 bits of `x` and of `z`, and
/// the low 12 bits of `y`, each in two's complement.
pub open spec fn position_pack(p: (i32, i32, i32)) -> nat {
    ((p.0 as int) % 0x400_0000) as nat * 0x40_0000_0000 + ((p.2 as int) % 0x400_0000) as nat
        * 0x1000 + ((p.1 as int) % 0x1000) as nat
}

proof fn lemma_unpack_bits(val: u64)
    ensures
        ((val as i64) >> 38) as int == signed_field((val as int) / 0x40_0000_0000, 0x400_0000),
        (((val << 52) as i64) >> 52) as int == signed_field((val as int) % 0x1000, 0x1000),
        (((val << 26) as i64) >> 38) as int == signed_field(
            ((val as int) / 0x1000) % 0x400_0000,
            0x400_0000,
        ),
{
    assert((val >> 38) as int == (val as int) / 0x40_0000_0000) by (bit_vector);
    assert((val & 0xFFF) as int == (val as int) % 0x1000) by (bit_vector);
    assert(((val << 26) >> 38) as int == ((val as int) / 0x1000) % 0x400_0000) by (bit_vector);
    assert(((val as i64) >> 38) as int == (if (val >> 38) >= 0x200_0000 {
        (val >> 38) as int - 0x400_0000
    } else {
        (val >> 38) as int
    })) by (bit_vector);
    assert((((val << 52) as i64) >> 52) as int == (if (val & 0xFFF) >= 0x800 {
        (val & 0xFFF) as int - 0x1000
    } else {
        (val & 0xFFF) as int
    })) by (bit_vector);
    assert((((val << 26) as i64) >> 38) as int == (if ((val << 26) >> 38) >= 0x200_0000 {
        ((val << 26) >> 38) as int - 0x400_0000
    } else {
        ((val << 26) >> 38) as int
    })) by (bit_vector);
}

proof fn lemma_pack_bits(x: i32, y: i32, z: i32)
    ensures
        (((x as u64 & 0x3FFFFFF) << 38) | ((z as u64 & 0x3FFFFFF) << 12) | (y as u64 & 0xFFF))
            as int == ((x as int) % 0x400_0000) * 0x40_0000_0000 + ((z as int) % 0x400_0000)
            * 0x1000 + ((y as int) % 0x1000),
{
    assert(((x as u64) & 0x3FFFFFF) as int == (x as int) % 0x400_0000) by (bit_vector);
    assert(((z as u64) & 0x3FFFFFF) as int == (z as int) % 0x400_0000) by (bit_vector);
    assert(((y as u64) & 0xFFF) as int == (y as int) % 0x1000) by (bit_vector);
    let xs = (x as u64) & 0x3FFFFFF;
    let zs = (z as u64) & 0x3FFFFFF;
    let ys = (y as u64) & 0xFFF;
    assert(((xs << 38) | (zs << 12) | ys) as int == (xs as int) * 0x40_0000_0000 + (zs as int)
        * 0x1000 + (ys as int)) by (bit_vector)
        requires
            xs < 0x400_0000,
            zs < 0x400_0000,
            ys < 0x1000,
    ;
}

proof fn lemma_unpack_pack(x: int, y: int, z: int)
    requires
        0 <= x < 0x400_0000,
        0 <= y < 0x1000,
        0 <= z < 0x400_0000,
    ensures
        (x * 0x40_0000_0000 + z * 0x1000 + y) / 0x40_0000_0000 == x,
        (x * 0x40_0000_0000 + z * 0x1000 + y) % 0x1000 == y,
        ((x * 0x40_0000_0000 + z * 0x1000 + y) / 0x1000) % 0x400_0000 == z,
{
    assert((x * 0x40_0000_0000 + z * 0x1000 + y) / 0x40_0000_0000 == x) by (nonlinear_arith)
        requires
            0 <= x < 0x400_0000,
            0 <= y < 0x1000,
            0 <= z < 0x400_0000,
    ;
    assert((x * 0x40_0000_0000 + z * 0x1000 + y) % 0x1000 == y) by (nonlinear_arith)
        requires
            0 <= y < 0x1000,
            0 <= x,
            0 <= z,
    ;
    assert((x * 0x40_0000_0000 + z * 0x1000 + y) / 0x1000 == x * 0x400_0000 + z)
        by (nonlinear_arith)
        requires
            0 <= y < 0x1000,
            0 <= x,
            0 <= z,
    ;
    assert((x * 0x400_0000 + z) % 0x400_0000 == z) by (nonlinear_arith)
        requires
            0 <= z < 0x400_0000,
            0 <= x,
    ;
}

/// A coordinate that fits a field of `size` values in two's complement comes
/// back from it.
proof fn lemma_signed_field(v: int, size: int)
    requires
        size == 0x1000 || size == 0x400_0000,
        -(size / 2) <= v < size / 2,
    ensures
        0 <= v % size < size,
        signed_field(v % size, size) == v,
{
    if v >= 0 {
        assert(v % size == v);
    } else {
        assert(v % size == v + size);
    }
}

impl Serializable for Position {
    open spec fn spec_read(data: Seq<u8>) -> Result<((i32, i32, i32), nat), ReadErrorKind> {
        if data.len() < 8 {
            Err(ReadErrorKind::Io)
        } else {
            Ok((position_unpack(be_value(data.take(8))), 8))
        }
    }

    open spec fn spec_write(v: (i32, i32, i32)) -> Result<Seq<u8>, Seq<u8>> {
        Ok(be_bytes(position_pack(v), 8))
    }

    open spec fn spec_writable(v: (i32, i32, i32)) -> bool {
        true
    }

    /// Each coordinate fits its field in two's complement: 26 bits for `x`
    /// and `z`, 12 for `y`.
    open spec fn spec_roundtrips(v: (i32, i32, i32), rest: Seq<u8>) -> bool {
        &&& -0x200_0000 <= v.0 < 0x200_0000
        &&& -0x800 <= v.1 < 0x800
        &&& -0x200_0000 <= v.2 < 0x200_0000
    }

    proof fn lemma_read_len(data: Seq<u8>) {
    }

    proof fn lemma_roundtrip(v: (i32, i32, i32), rest: Seq<u8>) {
        let w = position_pack(v);
        lemma_signed_field(v.0 as int, 0x400_0000);
        lemma_signed_field(v.1 as int, 0x1000);
        lemma_signed_field(v.2 as int, 0x400_0000);
        let x = (v.0 as int) % 0x400_0000;
        let y = (v.1 as int) % 0x1000;
        let z = (v.2 as int) % 0x400_0000;
        lemma_unpack_pack(x, y, z);
        lemma_pow256_values();
        assert(w < pow256(8)) by (nonlinear_arith)
            requires
                w == x * 0x40_0000_0000 + z * 0x1000 + y,
                0 <= x < 0x400_0000,
                0 <= y < 0x1000,
                0 <= z < 0x400_0000,
                pow256(8) == 0x1_0000_0000_0000_0000,
        ;
        lemma_fixed_roundtrip(w, 8, rest);
    }

    fn read_from(buf: &[u8]) -> (res: Result<(Self, usize), ReadingError>) {
        if buf.len() < 8 {
            return Err(eof_error());
        }
        let val = be_read_u64(buf);
        proof {
            lemma_unpack_bits(val);
        }
        let x: i32 = ((val as i64) >> 38) as i32;
        let y: i32 = (((val << 52) as i64) >> 52) as i32;
        let z: i32 = (((val << 26) as i64) >> 38) as i32;
        Ok((Position { x, y, z }, 8))
    }

    fn write_to(&self, buf: &mut Vec<u8>) -> (res: Result<(), WritingError>) {
        let mut val: u64 = 0;
        val = val | ((self.x as u64 & 0x3FFFFFF) << 38);
        val = val | ((self.z as u64 & 0x3FFFFFF) << 12);
        val = val | (self.y as u64 & 0xFFF);
        proof {
            let x = self.x;
            let y = self.y;
            let z = self.z;
            assert(val == ((x as u64 & 0x3FFFFFF) << 38) | ((z as u64 & 0x3FFFFFF) << 12) | (y as u64
                & 0xFFF)) by (bit_vector)
                requires
                    val == ((0u64 | ((x as u64 & 0x3FFFFFF) << 38)) | ((z as u64 & 0x3FFFFFF) << 12))
                        | (y as u64 & 0xFFF),
            ;
            lemma_pack_bits(x, y, z);
        }
        let b = be_write_u64(val);
        append_bytes(buf, b.as_slice());
        Ok(())
    }
}

/// An angle in steps of 1/256 of a full turn; its raw value is not
/// accessible.
#[derive(Debug, Clone, Copy, Default)]
pub struct Angle(i8);

impl View for Angle {
    type V = i8;

    closed spec fn view(&self) -> i8 {
        self.0
    }
}

impl DeepView for Angle {
    type V = i8;

    closed spec fn deep_view(&self) -> i8 {
        self.0
    }
}

impl Serializable for Angle {
    open spec fn spec_read(data: Seq<u8>) -> Result<(i8, nat), ReadErrorKind> {
        <i8 as Serializable>::spec_read(data)
    }

    open spec fn spec_write(v: i8) -> Result<Seq<u8>, Seq<u8>> {
        <i8 as Serializable>::spec_write(v)
    }

    open spec fn spec_writable(v: i8) -> bool {
        true
    }

    open spec fn spec_roundtrips(v: i8, rest: Seq<u8>) -> bool {
        true
    }

    proof fn lemma_read_len(data: Seq<u8>) {
    }

    proof fn lemma_roundtrip(v: i8, rest: Seq<u8>) {
        <i8 as Serializable>::lemma_roundtrip(v, rest);
    }

    fn read_from(buf: &[u8]) -> (res: Result<(Self, usize), ReadingError>) {
        match i8::read_from(buf) {
            Ok((v, n)) => Ok((Angle(v), n)),
            Err(e) => Err(e),
        }
    }

    fn write_to(&self, buf: &mut Vec<u8>) -> (res: Result<(), WritingError>) {
        self.0.write_to(buf)
    }
}

/// Three values of one type, written one after the other.
#[derive(Debug, Clone, Copy, Default)]
pub struct Vec3<T: Serializable> {
    pub x: T,
    pub y: T,
    pub z: T,
}

impl<T: Serializable> DeepView for Vec3<T> {
    type V = (T::V, T::V, T::V);

    open spec fn deep_view(&self) -> (T::V, T::V, T::V) {
        (self.x.deep_view(), self.y.deep_view(), self.z.deep_view())
    }
}

impl Vec3<i16> {
    /// This position moved by `offset`, coordinate by coordinate; each sum
    /// must fit.
    pub fn offset(self, offset: Vec3<i16>) -> (r: Vec3<i16>)
        requires
            i16::MIN <= self.x + offset.x <= i16::MAX,
            i16::MIN <= self.y + offset.y <= i16::MAX,
            i16::MIN <= self.z + offset.z <= i16::MAX,
        ensures
            r.x == self.x + offset.x,
            r.y == self.y + offset.y,
            r.z == self.z + offset.z,
    {
        Vec3 { x: self.x + offset.x, y: self.y + offset.y, z: self.z + offset.z }
    }
}

impl Vec3<i32> {
    /// This position moved by `offset`, coordinate by coordinate; each sum
    /// must fit.
    pub fn offset(self, offset: Vec3<i32>) -> (r: Vec3<i32>)
        requires
            i32::MIN <= self.x + offset.x <= i32::MAX,
            i32::MIN <= self.y + offset.y <= i32::MAX,
            i32::MIN <= self.z + offset.z <= i32::MAX,
        ensures
            r.x == self.x + offset.x,
            r.y == self.y + offset.y,
            r.z == self.z + offset.z,
    {
        Vec3 { x: self.x + offset.x, y: self.y + offset.y, z: self.z + offset.z }
    }
}

impl Vec3<i64> {
    /// This position moved by `offset`, coordinate by coordinate; each sum
    /// must fit.
    pub fn offset(self, offset: Vec3<i64>) -> (r: Vec3<i64>)
        requires
            i64::MIN <= self.x + offset.x <= i64::MAX,
            i64::MIN <= self.y + offset.y <= i64::MAX,
            i64::MIN <= self.z + offset.z <= i64::MAX,
        ensures
            r.x == self.x + offset.x,
            r.y == self.y + offset.y,
            r.z == self.z + offset.z,
    {
        Vec3 { x: self.x + offset.x, y: self.y + offset.y, z: self.z + offset.z }
    }
}

impl<T: Serializable> Serializable for Vec3<T> {
    open spec fn spec_read(data: Seq<u8>) -> Result<((T::V, T::V, T::V), nat), ReadErrorKind> {
        triple_read::<T, T, T>(data)
    }

    open spec fn spec_write(v: (T::V, T::V, T::V)) -> Result<Seq<u8>, Seq<u8>> {
        triple_write::<T, T, T>(v)
    }

    open spec fn spec_writable(v: (T::V, T::V, T::V)) -> bool {
        T::spec_writable(v.0) && T::spec_writable(v.1) && T::spec_writable(v.2)
    }

    open spec fn spec_roundtrips(v: (T::V, T::V, T::V), rest: Seq<u8>) -> bool {
        <(T, T, T) as Serializable>::spec_roundtrips(v, rest)
    }

    proof fn lemma_read_len(data: Seq<u8>) {
        <(T, T, T) as Serializable>::lemma_read_len(data);
    }

    proof fn lemma_roundtrip(v: (T::V, T::V, T::V), rest: Seq<u8>) {
        <(T, T, T) as Serializable>::lemma_roundtrip(v, rest);
    }

    fn read_from(buf: &[u8]) -> (res: Result<(Self, usize), ReadingError>) {
        match <(T, T, T)>::read_from(buf) {
            Ok(((x, y, z), n)) => Ok((Vec3 { x, y, z }, n)),
            Err(e) => Err(e),
        }
    }

    fn write_to(&self, buf: &mut Vec<u8>) -> (res: Result<(), WritingError>) {
        let ghost start = buf@;
        match self.x.write_to(buf) {
            Ok(()) => {},
            Err(e) => return Err(e),
        }
        match self.y.write_to(buf) {
            Ok(()) => {},
            Err(e) => {
                assert(buf@ =~= start + (T::spec_write(self.x.deep_view())->Ok_0
                    + T::spec_write(self.y.deep_view())->Err_0));
                return Err(e);
            },
        }
        let r = self.z.write_to(buf);
        proof {
            let pa = T::spec_write(self.x.deep_view())->Ok_0;
            let pb = T::spec_write(self.y.deep_view())->Ok_0;
            match T::spec_write(self.z.deep_view()) {
                Ok(pc) => {
                    assert(buf@ =~= start + (pa + pb + pc));
                },
                Err(pc) => {
                    assert(buf@ =~= start + (pa + pb + pc));
                },
            }
        }
        r
    }
}

/// Four values of one type, written one after the other.
#[derive(Debug)]
pub struct Vec4<T: Serializable> {
    x: T,
    y: T,
    z: T,
    w: T,
}

impl<T: Serializable> DeepView for Vec4<T> {
    type V = (T::V, T::V, T::V, T::V);

    closed spec fn deep_view(&self) -> (T::V, T::V, T::V, T::V) {
        (self.x.deep_view(), self.y.deep_view(), self.z.deep_view(), self.w.deep_view())
    }
}

/// What reading four values in a row gives.
pub open spec fn quad_read<T: Serializable>(data: Seq<u8>) -> Result<
    ((T::V, T::V, T::V, T::V), nat),
    ReadErrorKind,
> {
    match triple_read::<T, T, T>(data) {
        Err(k) => Err(k),
        Ok((t, n)) => match T::spec_read(data.subrange(n as int, data.len() as int)) {
            Err(k) => Err(k),
            Ok((w, m)) => Ok(((t.0, t.1, t.2, w), n + m)),
        },
    }
}

/// What writing four values in a row appends.
pub open spec fn quad_write<T: Serializable>(v: (T::V, T::V, T::V, T::V)) -> Result<
    Seq<u8>,
    Seq<u8>,
> {
    match triple_write::<T, T, T>((v.0, v.1, v.2)) {
        Err(p) => Err(p),
        Ok(p) => match T::spec_write(v.3) {
            Err(q) => Err(p + q),
            Ok(q) => Ok(p + q),
        },
    }
}

impl<T: Serializable> Serializable for Vec4<T> {
    open spec fn spec_read(data: Seq<u8>) -> Result<((T::V, T::V, T::V, T::V), nat), ReadErrorKind> {
        quad_read::<T>(data)
    }

    open spec fn spec_write(v: (T::V, T::V, T::V, T::V)) -> Result<Seq<u8>, Seq<u8>> {
        quad_write::<T>(v)
    }

    open spec fn spec_writable(v: (T::V, T::V, T::V, T::V)) -> bool {
        T::spec_writable(v.0) && T::spec_writable(v.1) && T::spec_writable(v.2) && T::spec_writable(
            v.3,
        )
    }

    open spec fn spec_roundtrips(v: (T::V, T::V, T::V, T::V), rest: Seq<u8>) -> bool {
        &&& T::spec_roundtrips(v.3, rest)
        &&& (T::spec_write(v.3) is Ok ==> <(T, T, T) as Serializable>::spec_roundtrips(
            (v.0, v.1, v.2),
            T::spec_write(v.3)->Ok_0 + rest,
        ))
    }

    proof fn lemma_read_len(data: Seq<u8>) {
        <(T, T, T) as Serializable>::lemma_read_len(data);
        if let Ok((t, n)) = triple_read::<T, T, T>(data) {
            T::lemma_read_len(data.subrange(n as int, data.len() as int));
        }
    }

    proof fn lemma_roundtrip(v: (T::V, T::V, T::V, T::V), rest: Seq<u8>) {
        let p = triple_write::<T, T, T>((v.0, v.1, v.2))->Ok_0;
        let q = T::spec_write(v.3)->Ok_0;
        <(T, T, T) as Serializable>::lemma_roundtrip((v.0, v.1, v.2), q + rest);
        assert(p + q + rest =~= p + (q + rest));
        T::lemma_roundtrip(v.3, rest);
        assert((p + q + rest).subrange(p.len() as int, (p + q + rest).len() as int) =~= q + rest);
    }

    fn read_from(buf: &[u8]) -> (res: Result<(Self, usize), ReadingError>) {
        let ((x, y, z), n) = match <(T, T, T)>::read_from(buf) {
            Ok(r) => r,
            Err(e) => return Err(e),
        };
        proof {
            <(T, T, T) as Serializable>::lemma_read_len(buf@);
        }
        let rest = tail(buf, n);
        match T::read_from(rest) {
            Ok((w, m)) => {
                proof {
                    T::lemma_read_len(rest@);
                }
                Ok((Vec4 { x, y, z, w }, n + m))
            },
            Err(e) => Err(e),
        }
    }

    fn write_to(&self, buf: &mut Vec<u8>) -> (res: Result<(), WritingError>) {
        let ghost start = buf@;
        match self.x.write_to(buf) {
            Ok(()) => {},
            Err(e) => return Err(e),
        }
        match self.y.write_to(buf) {
            Ok(()) => {},
            Err(e) => {
                assert(buf@ =~= start + (T::spec_write(self.x.deep_view())->Ok_0
                    + T::spec_write(self.y.deep_view())->Err_0));
                return Err(e);
            },
        }
        match self.z.write_to(buf) {
            Ok(()) => {},
            Err(e) => {
                assert(buf@ =~= start + (T::spec_write(self.x.deep_view())->Ok_0
                    + T::spec_write(self.y.deep_view())->Ok_0 + T::spec_write(
                    self.z.deep_view(),
                )->Err_0));
                return Err(e);
            },
        }
        let r = self.w.write_to(buf);
        proof {
            let pa = T::spec_write(self.x.deep_view())->Ok_0;
            let pb = T::spec_write(self.y.deep_view())->Ok_0;
            let pc = T::spec_write(self.z.deep_view())->Ok_0;
            match T::spec_write(self.w.deep_view()) {
                Ok(pd) => {
                    assert(buf@ =~= start + (pa + pb + pc + pd));
                },
                Err(pd) => {
                    assert(buf@ =~= start + (pa + pb + pc + pd));
                },
            }
        }
        r
    }
}

} // verus!
