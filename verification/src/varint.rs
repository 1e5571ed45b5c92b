//! Variable-length integers: `VarInt` (at most five bytes) and `VarLong` (at
//! most ten), seven bits per byte, low groups first, the high bit of each
//! byte telling that another byte follows.

use crate::error::{eof_error, ReadErrorKind, ReadingError, WritingError};
use crate::serial::{Lengthable, Serializable};
use crate::std_ext::{bit_len, i32_leading_zeros};
use vstd::prelude::*;

verus! {

/// `128` to the power `k`.
pub open spec fn pow128(k: nat) -> nat
    decreases k,
{
    if k == 0 {
        1
    } else {
        128 * pow128((k - 1) as nat)
    }
}

/// The base-128 digits of `u`, low group first; every byte but the last has
/// its high bit set.
pub open spec fn leb_bytes(u: nat) -> Seq<u8>
    decreases u,
{
    if u < 128 {
        seq![u as u8]
    } else {
        seq![(u % 128 + 128) as u8] + leb_bytes(u / 128)
    }
}

/// The number that a run of base-128 digits stands for, low group first;
/// the high bit of each byte is ignored.
pub open spec fn leb_value(s: Seq<u8>) -> nat
    decreases s.len(),
{
    if s.len() == 0 {
        0
    } else {
        (s[0] % 128) as nat + 128 * leb_value(s.drop_first())
    }
}

/// Where a variable-length integer that starts at the front of `data` ends,
/// looking from index `i` on: the index after the first byte without the high
/// bit. The bytes must run out no sooner, and that byte may stand at index
/// `last` at the latest; else reading fails with `overflow`.
pub open spec fn leb_end(data: Seq<u8>, i: nat, last: nat, overflow: ReadErrorKind) -> Result<
    nat,
    ReadErrorKind,
>
    decreases last - i,
{
    if i >= data.len() {
        Err(ReadErrorKind::Io)
    } else if data[i as int] < 128 {
        Ok(i + 1)
    } else if i >= last {
        Err(overflow)
    } else {
        leb_end(data, i + 1, last, overflow)
    }
}

/// What reading a VarInt from `data` gives: the low 32 bits of the value of
/// its digits, and its length.
pub open spec fn varint_read(data: Seq<u8>) -> Result<(i32, nat), ReadErrorKind> {
    match leb_end(data, 0, 4, ReadErrorKind::TooLarge) {
        Ok(n) => Ok(((leb_value(data.take(n as int)) % 0x1_0000_0000) as u32 as i32, n)),
        Err(k) => Err(k),
    }
}

/// What reading a VarLong from `data` gives: the low 64 bits of the value of
/// its digits, and its length.
pub open spec fn varlong_read(data: Seq<u8>) -> Result<(i64, nat), ReadErrorKind> {
    match leb_end(data, 0, 9, ReadErrorKind::Message) {
        Ok(n) => Ok(
            ((leb_value(data.take(n as int)) % 0x1_0000_0000_0000_0000) as u64 as i64, n),
        ),
        Err(k) => Err(k),
    }
}

/// The bytes of a VarInt: the digits of its 32-bit two's complement form.
pub open spec fn varint_bytes(v: i32) -> Seq<u8> {
    leb_bytes((v as u32) as nat)
}

/// The bytes of a VarLong: the digits of its 64-bit two's complement form.
pub open spec fn varlong_bytes(v: i64) -> Seq<u8> {
    leb_bytes((v as u64) as nat)
}

// ----- facts about the digits -----

/// Each byte of the digits but the last has its high bit set; the last does
/// not; the digits stand for `u`.
pub proof fn lemma_leb_bytes(u: nat)
    ensures
        leb_bytes(u).len() >= 1,
        forall|j: int| 0 <= j < leb_bytes(u).len() - 1 ==> #[trigger] leb_bytes(u)[j] >= 128,
        leb_bytes(u)[leb_bytes(u).len() - 1] < 128,
        leb_value(leb_bytes(u)) == u,
    decreases u,
{
    if u < 128 {
        let s = leb_bytes(u);
        assert(s.drop_first() =~= Seq::<u8>::empty());
        assert(leb_value(Seq::<u8>::empty()) == 0);
        assert(s[0] == u as u8);
    } else {
        lemma_leb_bytes(u / 128);
        let s = leb_bytes(u);
        let t = leb_bytes(u / 128);
        assert(s.drop_first() =~= t);
        assert(s[0] % 128 == u % 128);
        assert(u == u % 128 + 128 * (u / 128));
        assert forall|j: int| 0 <= j < s.len() - 1 implies #[trigger] s[j] >= 128 by {
            if j > 0 {
                assert(s[j] == t[j - 1]);
            }
        }
    }
}

/// Digits of a number below `128^k` take at most `k` bytes.
pub proof fn lemma_leb_bytes_len_bound(u: nat, k: nat)
    requires
        k >= 1,
        u < pow128(k),
    ensures
        leb_bytes(u).len() <= k,
    decreases u,
{
    if u >= 128 {
        if k == 1 {
            assert(pow128(1) == 128) by {
                assert(pow128(0) == 1);
            }
        } else {
            assert(u / 128 < pow128((k - 1) as nat)) by (nonlinear_arith)
                requires
                    u < pow128(k),
                    pow128(k) == 128 * pow128((k - 1) as nat),
            ;
            lemma_leb_bytes_len_bound(u / 128, (k - 1) as nat);
        }
    }
}

/// The length of the digits of a positive `u` follows its bit length.
pub proof fn lemma_leb_len_bits(u: nat)
    requires
        u >= 1,
    ensures
        bit_len(u) >= 1,
        leb_bytes(u).len() == (bit_len(u) - 1) / 7 + 1,
    decreases u,
{
    if u < 128 {
        lemma_bit_len_small(u);
    } else {
        lemma_leb_len_bits(u / 128);
        lemma_bit_len_div128(u);
    }
}

proof fn lemma_bit_len_small(u: nat)
    requires
        1 <= u < 128,
    ensures
        1 <= bit_len(u) <= 7,
{
    reveal_with_fuel(bit_len, 8);
}

proof fn lemma_bit_len_div2(u: nat)
    requires
        u >= 1,
    ensures
        bit_len(u / 2) == bit_len(u) - 1,
{
}

proof fn lemma_bit_len_div128(u: nat)
    requires
        u >= 128,
    ensures
        bit_len(u / 128) == bit_len(u) - 7,
        bit_len(u) >= 8,
{
    let u1 = u / 2;
    let u2 = u1 / 2;
    let u3 = u2 / 2;
    let u4 = u3 / 2;
    let u5 = u4 / 2;
    let u6 = u5 / 2;
    let u7 = u6 / 2;
    assert(u7 == u / 128 && u7 >= 1);
    lemma_bit_len_div2(u);
    lemma_bit_len_div2(u1);
    lemma_bit_len_div2(u2);
    lemma_bit_len_div2(u3);
    lemma_bit_len_div2(u4);
    lemma_bit_len_div2(u5);
    lemma_bit_len_div2(u6);
    lemma_bit_len_div2(u7);
}

/// Appending a byte adds its low seven bits times `128^len`.
pub proof fn lemma_leb_value_push(s: Seq<u8>, b: u8)
    ensures
        leb_value(s.push(b)) == leb_value(s) + (b % 128) as nat * pow128(s.len()),
    decreases s.len(),
{
    if s.len() == 0 {
        let t = s.push(b);
        assert(t.drop_first() =~= Seq::<u8>::empty());
        assert(leb_value(Seq::<u8>::empty()) == 0);
        assert(pow128(0) == 1);
    } else {
        let t = s.push(b);
        assert(t.drop_first() =~= s.drop_first().push(b));
        assert(t[0] == s[0]);
        lemma_leb_value_push(s.drop_first(), b);
        let a = leb_value(s.drop_first());
        let p = pow128(s.drop_first().len());
        assert(pow128(s.len()) == 128 * p);
        assert(leb_value(t) == (s[0] % 128) as nat + 128 * leb_value(t.drop_first()));
        assert(leb_value(s) == (s[0] % 128) as nat + 128 * a);
        assert(leb_value(t.drop_first()) == a + (b % 128) as nat * p);
        assert(128 * (a + (b % 128) as nat * p) == 128 * a + (b % 128) as nat * (128 * p))
            by (nonlinear_arith);
    }
}

/// The value of the first `k` digits is below `128^k`.
pub proof fn lemma_leb_value_bound(s: Seq<u8>)
    ensures
        leb_value(s) < pow128(s.len()),
    decreases s.len(),
{
    if s.len() > 0 {
        lemma_leb_value_bound(s.drop_first());
        let a = leb_value(s.drop_first());
        let p = pow128(s.drop_first().len());
        assert((s[0] % 128) as nat + 128 * a < 128 * p) by (nonlinear_arith)
            requires
                a < p,
                (s[0] % 128) < 128,
        ;
    }
}

/// The end of the digits that `leb_bytes` wrote is found where they end,
/// whatever follows them.
pub proof fn lemma_leb_end_of_bytes(
    u: nat,
    rest: Seq<u8>,
    i: nat,
    last: nat,
    overflow: ReadErrorKind,
)
    requires
        i < leb_bytes(u).len(),
        leb_bytes(u).len() <= last + 1,
    ensures
        leb_end(leb_bytes(u) + rest, i, last, overflow) == Ok::<nat, ReadErrorKind>(
            leb_bytes(u).len(),
        ),
    decreases leb_bytes(u).len() - i,
{
    lemma_leb_bytes(u);
    let s = leb_bytes(u) + rest;
    assert(s[i as int] == leb_bytes(u)[i as int]);
    if i + 1 < leb_bytes(u).len() {
        lemma_leb_end_of_bytes(u, rest, i + 1, last, overflow);
    }
}

// ----- bit-level steps of the executable code -----

proof fn lemma_write_step(val: u32)
    requires
        val > 0x7F,
    ensures
        ((val as u8) | 0x80) == ((val as nat) % 128 + 128) as u8,
        val >> 7 == val / 128,
{
    assert(((val as u8) | 0x80) == ((val % 128) + 128) as u8) by (bit_vector)
        requires
            val > 0x7F,
    ;
    assert(val >> 7 == val / 128) by (bit_vector);
}

proof fn lemma_write_step64(val: u64)
    requires
        (val & !0x7Fu64) != 0,
    ensures
        val >= 128,
        ((val as u8) & 0x7F) | 0x80 == ((val as nat) % 128 + 128) as u8,
        val >> 7 == val / 128,
{
    assert(val >= 128) by (bit_vector)
        requires
            (val & !0x7Fu64) != 0,
    ;
    assert(((val as u8) & 0x7F) | 0x80 == ((val % 128) + 128) as u8) by (bit_vector);
    assert(val >> 7 == val / 128) by (bit_vector);
}

proof fn lemma_last_step64(val: u64)
    requires
        (val & !0x7Fu64) == 0,
    ensures
        val < 128,
{
    assert(val < 128) by (bit_vector)
        requires
            (val & !0x7Fu64) == 0,
    ;
}

proof fn lemma_pow128_values()
    ensures
        pow128(0) == 1,
        pow128(1) == 0x80,
        pow128(2) == 0x4000,
        pow128(3) == 0x20_0000,
        pow128(4) == 0x1000_0000,
        pow128(5) == 0x8_0000_0000,
{
    reveal_with_fuel(pow128, 6);
}

proof fn lemma_pow128_values64()
    ensures
        pow128(6) == 0x400_0000_0000,
        pow128(7) == 0x2_0000_0000_0000,
        pow128(8) == 0x100_0000_0000_0000,
        pow128(9) == 0x8000_0000_0000_0000,
        pow128(10) == 0x40_0000_0000_0000_0000,
{
    lemma_pow128_values();
    reveal_with_fuel(pow128, 6);
}

/// One step of reading a VarInt: or-ing the low seven bits of `b`, shifted
/// to group `i`, into the value of the groups before.
proof fn lemma_read_step(val: u32, b: u8, i: u32)
    requires
        i < 5,
        (val as nat) < pow128(i as nat),
    ensures
        (val | (((b & 0x7F) as u32) << (7 * i))) as int == ((val as int) + (b % 128) as int
            * pow128(i as nat)) % 0x1_0000_0000,
{
    lemma_pow128_values();
    if i == 0 {
        assert((val | (((b & 0x7F) as u32) << (7 * i))) as int == ((val as int) + (b % 128) as int
            * 1) % 0x1_0000_0000) by (bit_vector)
            requires
                i == 0,
                val < 1,
        ;
    } else if i == 1 {
        assert((val | (((b & 0x7F) as u32) << (7 * i))) as int == ((val as int) + (b % 128) as int
            * 0x80) % 0x1_0000_0000) by (bit_vector)
            requires
                i == 1,
                val < 0x80,
        ;
    } else if i == 2 {
        assert((val | (((b & 0x7F) as u32) << (7 * i))) as int == ((val as int) + (b % 128) as int
            * 0x4000) % 0x1_0000_0000) by (bit_vector)
            requires
                i == 2,
                val < 0x4000,
        ;
    } else if i == 3 {
        assert((val | (((b & 0x7F) as u32) << (7 * i))) as int == ((val as int) + (b % 128) as int
            * 0x20_0000) % 0x1_0000_0000) by (bit_vector)
            requires
                i == 3,
                val < 0x20_0000,
        ;
    } else {
        assert((val | (((b & 0x7F) as u32) << (7 * i))) as int == ((val as int) + (b % 128) as int
            * 0x1000_0000) % 0x1_0000_0000) by (bit_vector)
            requires
                i == 4,
                val < 0x1000_0000,
        ;
    }
}

/// One step of reading a VarLong: or-ing the low seven bits of `b`, shifted
/// to group `i`, into the value of the groups before.
proof fn lemma_read_step64(val: u64, b: u8, i: u32)
    requires
        i < 10,
        (val as nat) < pow128(i as nat),
    ensures
        (val | (((b as u64) & 0x7F) << (7 * i))) as int == ((val as int) + (b % 128) as int
            * pow128(i as nat)) % 0x1_0000_0000_0000_0000,
{
    lemma_pow128_values();
    lemma_pow128_values64();
    let p = pow128(i as nat);
    if i == 0 {
        assert((val | (((b as u64) & 0x7F) << (7 * i))) as int == ((val as int) + (b % 128) as int * 1) % 0x1_0000_0000_0000_0000) by (bit_vector)
            requires i == 0, val < 1;
    } else if i == 1 {
        assert((val | (((b as u64) & 0x7F) << (7 * i))) as int == ((val as int) + (b % 128) as int * 0x80) % 0x1_0000_0000_0000_0000) by (bit_vector)
            requires i == 1, val < 0x80;
    } else if i == 2 {
        assert((val | (((b as u64) & 0x7F) << (7 * i))) as int == ((val as int) + (b % 128) as int * 0x4000) % 0x1_0000_0000_0000_0000) by (bit_vector)
            requires i == 2, val < 0x4000;
    } else if i == 3 {
        assert((val | (((b as u64) & 0x7F) << (7 * i))) as int == ((val as int) + (b % 128) as int * 0x20_0000) % 0x1_0000_0000_0000_0000) by (bit_vector)
            requires i == 3, val < 0x20_0000;
    } else if i == 4 {
        assert((val | (((b as u64) & 0x7F) << (7 * i))) as int == ((val as int) + (b % 128) as int * 0x1000_0000) % 0x1_0000_0000_0000_0000) by (bit_vector)
            requires i == 4, val < 0x1000_0000;
    } else if i == 5 {
        assert((val | (((b as u64) & 0x7F) << (7 * i))) as int == ((val as int) + (b % 128) as int * 0x8_0000_0000) % 0x1_0000_0000_0000_0000) by (bit_vector)
            requires i == 5, val < 0x8_0000_0000;
    } else if i == 6 {
        assert((val | (((b as u64) & 0x7F) << (7 * i))) as int == ((val as int) + (b % 128) as int * 0x400_0000_0000) % 0x1_0000_0000_0000_0000) by (bit_vector)
            requires i == 6, val < 0x400_0000_0000;
    } else if i == 7 {
        assert((val | (((b as u64) & 0x7F) << (7 * i))) as int == ((val as int) + (b % 128) as int * 0x2_0000_0000_0000) % 0x1_0000_0000_0000_0000) by (bit_vector)
            requires i == 7, val < 0x2_0000_0000_0000;
    } else if i == 8 {
        assert((val | (((b as u64) & 0x7F) << (7 * i))) as int == ((val as int) + (b % 128) as int * 0x100_0000_0000_0000) % 0x1_0000_0000_0000_0000) by (bit_vector)
            requires i == 8, val < 0x100_0000_0000_0000;
    } else {
        assert((val | (((b as u64) & 0x7F) << (7 * i))) as int == ((val as int) + (b % 128) as int * 0x8000_0000_0000_0000) % 0x1_0000_0000_0000_0000) by (bit_vector)
            requires i == 9, val < 0x8000_0000_0000_0000;
    }
}

/// A step of a reading loop: the first `i + 1` bytes are the first `i`
/// followed by byte `i`, and the value grows accordingly.
proof fn lemma_take_step(data: Seq<u8>, i: nat)
    requires
        i < data.len(),
    ensures
        data.take(i as int + 1) == data.take(i as int).push(data[i as int]),
        leb_value(data.take(i as int + 1)) == leb_value(data.take(i as int)) + (data[i as int]
            % 128) as nat * pow128(i),
        leb_value(data.take(i as int + 1)) < pow128(i + 1),
{
    assert(data.take(i as int + 1) =~= data.take(i as int).push(data[i as int]));
    lemma_leb_value_push(data.take(i as int), data[i as int]);
    lemma_leb_value_bound(data.take(i as int + 1));
}

/// A 32-bit signed integer in the variable-length format: one to five bytes.
#[derive(Debug, Clone, Copy, Default)]
pub struct VarInt(pub i32);

impl View for VarInt {
    type V = i32;

    open spec fn view(&self) -> i32 {
        self.0
    }
}

impl DeepView for VarInt {
    type V = i32;

    open spec fn deep_view(&self) -> i32 {
        self.0
    }
}

impl VarInt {
    /// The most bytes that a VarInt takes.
    pub const MAX_SIZE: u8 = 5;

    /// The number of bytes that writing this VarInt takes.
    pub fn written_size(&self) -> (r: usize)
        ensures
            r == varint_bytes(self.0).len(),
            1 <= r <= 5,
    {
        proof {
            lemma_leb_bytes(((self.0) as u32) as nat);
            lemma_pow128_values();
            lemma_leb_bytes_len_bound(((self.0) as u32) as nat, 5);
        }
        match self.0 {
            0 => {
                assert(varint_bytes(0) == seq![0u8]);
                1
            },
            n => {
                let lz = i32_leading_zeros(n);
                proof {
                    let u = (n as u32) as nat;
                    assert((n as u32) != 0) by (bit_vector)
                        requires
                            n != 0,
                    ;
                    lemma_leb_len_bits(u);
                }
                (31 - lz as usize) / 7 + 1
            },
        }
    }
}

impl From<i32> for VarInt {
    fn from(value: i32) -> (r: VarInt)
        ensures
            r.0 == value,
    {
        VarInt(value)
    }
}

impl vstd::std_specs::convert::FromSpecImpl<i32> for VarInt {
    open spec fn obeys_from_spec() -> bool {
        true
    }

    open spec fn from_spec(v: i32) -> VarInt {
        VarInt(v)
    }
}

impl TryFrom<usize> for VarInt {
    type Error = core::num::TryFromIntError;

    fn try_from(value: usize) -> (r: Result<VarInt, core::num::TryFromIntError>) {
        match i32::try_from(value) {
            Ok(v) => Ok(VarInt(v)),
            Err(e) => Err(e),
        }
    }
}

impl vstd::std_specs::convert::TryFromSpecImpl<usize> for VarInt {
    open spec fn obeys_try_from_spec() -> bool {
        true
    }

    open spec fn try_from_spec(v: usize) -> Result<VarInt, core::num::TryFromIntError> {
        match <i32 as vstd::std_specs::convert::TryFromSpec<usize>>::try_from_spec(v) {
            Ok(x) => Ok(VarInt(x)),
            Err(e) => Err(e),
        }
    }
}

impl Serializable for VarInt {
    open spec fn spec_read(data: Seq<u8>) -> Result<(i32, nat), ReadErrorKind> {
        varint_read(data)
    }

    open spec fn spec_write(v: i32) -> Result<Seq<u8>, Seq<u8>> {
        Ok(varint_bytes(v))
    }

    open spec fn spec_writable(v: i32) -> bool {
        true
    }

    open spec fn spec_roundtrips(v: i32, rest: Seq<u8>) -> bool {
        true
    }

    proof fn lemma_read_len(data: Seq<u8>) {
        lemma_leb_end_len(data, 0, 4, ReadErrorKind::TooLarge);
    }

    proof fn lemma_roundtrip(v: i32, rest: Seq<u8>) {
        let u = (v as u32) as nat;
        let b = leb_bytes(u);
        lemma_leb_bytes(u);
        lemma_pow128_values();
        lemma_leb_bytes_len_bound(u, 5);
        lemma_leb_end_of_bytes(u, rest, 0, 4, ReadErrorKind::TooLarge);
        assert((b + rest).take(b.len() as int) =~= b);
        assert(((u % 0x1_0000_0000) as u32) as i32 == v) by {
            assert((v as u32) as i32 == v) by (bit_vector);
        }
    }

    fn read_from(buf: &[u8]) -> (res: Result<(VarInt, usize), ReadingError>)
        ensures
            res matches Err(ReadingError::TooLarge(m)) ==> m@ == "VarInt"@,
            res matches Err(e) ==> e is TooLarge || e is IoError,
    {
        let ghost data = buf@;
        let mut val: u32 = 0;
        let mut i: usize = 0;
        proof {
            lemma_pow128_values();
            assert(data.take(0) =~= Seq::<u8>::empty());
            assert(leb_value(Seq::<u8>::empty()) == 0);
        }
        while i < 5
            invariant
                data == buf@,
                i <= 5,
                i < 5 ==> leb_end(data, 0, 4, ReadErrorKind::TooLarge) == leb_end(
                    data,
                    i as nat,
                    4,
                    ReadErrorKind::TooLarge,
                ),
                i == 5 ==> leb_end(data, 0, 4, ReadErrorKind::TooLarge) == Err::<
                    nat,
                    ReadErrorKind,
                >(ReadErrorKind::TooLarge),
                i < 5 ==> val as nat == leb_value(data.take(i as int)),
                i < 5 ==> (val as nat) < pow128(i as nat),
                pow128(4) == 0x1000_0000,
            decreases 5 - i,
        {
            if i >= buf.len() {
                return Err(eof_error());
            }
            let byte = buf[i];
            proof {
                lemma_read_step(val, byte, i as u32);
                lemma_take_step(data, i as nat);
                lemma_pow128_values();
            }
            val = val | (((byte & 0x7F) as u32) << (7 * (i as u32)));
            let more = byte & 0x80 != 0;
            assert(more == (byte >= 128)) by (bit_vector)
                requires
                    more == (byte & 0x80 != 0),
            ;
            if !more {
                proof {
                    if i < 4 {
                        assert(pow128(i as nat + 1) <= 0x1000_0000) by {
                            lemma_pow128_values();
                        }
                    }
                }
                return Ok((VarInt(val as i32), i + 1));
            }
            i = i + 1;
        }
        Err(ReadingError::TooLarge("VarInt".to_owned()))
    }

    fn write_to(&self, buf: &mut Vec<u8>) -> (res: Result<(), WritingError>) {
        let ghost start = buf@;
        let ghost orig = (self.0 as u32) as nat;
        let mut val: u32 = self.0 as u32;
        while val > 0x7F
            invariant
                buf@ + leb_bytes(val as nat) == start + leb_bytes(orig),
            decreases val,
        {
            proof {
                lemma_write_step(val);
                assert(leb_bytes(val as nat) == seq![((val as nat) % 128 + 128) as u8] + leb_bytes(
                    (val as nat) / 128,
                ));
            }
            buf.push((val as u8) | 0x80);
            val = val >> 7;
            proof {
                assert(buf@ + leb_bytes(val as nat) =~= start + leb_bytes(orig));
            }
        }
        buf.push(val as u8);
        proof {
            assert(leb_bytes(val as nat) == seq![val as u8]);
            assert(buf@ =~= start + leb_bytes(orig));
        }
        Ok(())
    }
}

/// The end that `leb_end` finds lies within the bytes.
pub proof fn lemma_leb_end_len(data: Seq<u8>, i: nat, last: nat, overflow: ReadErrorKind)
    ensures
        leb_end(data, i, last, overflow) matches Ok(n) ==> i < n <= data.len(),
    decreases last - i,
{
    if i < data.len() && data[i as int] >= 128 && i < last {
        lemma_leb_end_len(data, i + 1, last, overflow);
    }
}

/// A 64-bit signed integer in the variable-length format: one to ten bytes.
#[derive(Debug)]
pub struct VarLong(i64);

impl View for VarLong {
    type V = i64;

    closed spec fn view(&self) -> i64 {
        self.0
    }
}

impl DeepView for VarLong {
    type V = i64;

    closed spec fn deep_view(&self) -> i64 {
        self.0
    }
}

impl Serializable for VarLong {
    open spec fn spec_read(data: Seq<u8>) -> Result<(i64, nat), ReadErrorKind> {
        varlong_read(data)
    }

    open spec fn spec_write(v: i64) -> Result<Seq<u8>, Seq<u8>> {
        Ok(varlong_bytes(v))
    }

    open spec fn spec_writable(v: i64) -> bool {
        true
    }

    open spec fn spec_roundtrips(v: i64, rest: Seq<u8>) -> bool {
        true
    }

    proof fn lemma_read_len(data: Seq<u8>) {
        lemma_leb_end_len(data, 0, 9, ReadErrorKind::Message);
    }

    proof fn lemma_roundtrip(v: i64, rest: Seq<u8>) {
        let u = (v as u64) as nat;
        let b = leb_bytes(u);
        lemma_leb_bytes(u);
        lemma_pow128_values64();
        lemma_leb_bytes_len_bound(u, 10);
        lemma_leb_end_of_bytes(u, rest, 0, 9, ReadErrorKind::Message);
        assert((b + rest).take(b.len() as int) =~= b);
        assert(((u % 0x1_0000_0000_0000_0000) as u64) as i64 == v) by {
            assert((v as u64) as i64 == v) by (bit_vector);
        }
    }

    fn read_from(buf: &[u8]) -> (res: Result<(VarLong, usize), ReadingError>)
        ensures
            res matches Err(ReadingError::Message(m)) ==> m@ == "VarLong is too big"@,
    {
        let ghost data = buf@;
        let mut value: u64 = 0;
        let mut position: u32 = 0;
        let mut i: usize = 0;
        proof {
            lemma_pow128_values();
            assert(data.take(0) =~= Seq::<u8>::empty());
            assert(leb_value(Seq::<u8>::empty()) == 0);
        }
        loop
            invariant
                data == buf@,
                i <= 9,
                position == 7 * i,
                leb_end(data, 0, 9, ReadErrorKind::Message) == leb_end(
                    data,
                    i as nat,
                    9,
                    ReadErrorKind::Message,
                ),
                value as nat == leb_value(data.take(i as int)),
                (value as nat) < pow128(i as nat),
            decreases 9 - i,
        {
            if i >= buf.len() {
                return Err(eof_error());
            }
            let current_byte = buf[i];
            proof {
                lemma_read_step64(value, current_byte, i as u32);
                lemma_take_step(data, i as nat);
                lemma_pow128_values64();
                lemma_pow128_values();
            }
            value = value | (((current_byte as u64) & 0x7F) << position);
            let more = current_byte & 0x80 != 0;
            assert(more == (current_byte >= 128)) by (bit_vector)
                requires
                    more == (current_byte & 0x80 != 0),
            ;
            if !more {
                proof {
                    if i < 9 {
                        assert(pow128(i as nat + 1) <= 0x8000_0000_0000_0000) by {
                            lemma_pow128_values();
                            lemma_pow128_values64();
                        }
                    }
                }
                return Ok((VarLong(value as i64), i + 1));
            }
            position = position + 7;
            if position >= 64 {
                return Err(ReadingError::Message("VarLong is too big".to_owned()));
            }
            proof {
                assert(pow128(i as nat + 1) <= 0x8000_0000_0000_0000) by {
                    lemma_pow128_values();
                    lemma_pow128_values64();
                }
            }
            i = i + 1;
        }
    }

    fn write_to(&self, buf: &mut Vec<u8>) -> (res: Result<(), WritingError>) {
        let ghost start = buf@;
        let ghost orig = (self.0 as u64) as nat;
        let mut value: u64 = self.0 as u64;
        loop
            invariant
                buf@ + leb_bytes(value as nat) == start + leb_bytes(orig),
                orig == (self.0 as u64) as nat,
                start == old(buf)@,
            decreases value,
        {
            if (value & !0x7F) == 0 {
                proof {
                    lemma_last_step64(value);
                    assert(leb_bytes(value as nat) == seq![value as u8]);
                }
                buf.push(value as u8);
                proof {
                    assert(buf@ =~= start + leb_bytes(orig));
                    assert(self.deep_view() == self.0);
                    assert(Self::spec_write(self.deep_view()) == Ok::<Seq<u8>, Seq<u8>>(
                        leb_bytes(orig),
                    ));
                }
                return Ok(());
            }
            proof {
                lemma_write_step64(value);
                assert(leb_bytes(value as nat) == seq![((value as nat) % 128 + 128) as u8]
                    + leb_bytes((value as nat) / 128));
            }
            buf.push(((value as u8) & 0x7F) | 0x80);
            value = value >> 7;
            proof {
                assert(buf@ + leb_bytes(value as nat) =~= start + leb_bytes(orig));
            }
        }
    }
}

impl Lengthable for VarInt {
    open spec fn spec_from_len(val: usize) -> i32 {
        val as i32
    }

    open spec fn spec_into_len(v: i32) -> usize {
        v as usize
    }

    fn from_len(val: usize) -> (r: VarInt) {
        VarInt(val as i32)
    }

    fn into_len(self) -> (r: usize) {
        self.0 as usize
    }
}

impl VarInt {
    /// Appends the bytes of this VarInt, the same bytes as the writer of
    /// the wire format appends.
    pub fn write_to_async(&self, buf: &mut Vec<u8>)
        ensures
            final(buf)@ == old(buf)@ + varint_bytes(self.0),
    {
        let _ = self.write_to(buf);
    }
}

/// Where every byte from `i` up to `k` has its high bit set and lies before
/// `last`, the search for the end goes on from `k`.
pub proof fn lemma_leb_end_walk(data: Seq<u8>, i: nat, k: nat, last: nat, overflow: ReadErrorKind)
    requires
        i <= k,
        k <= data.len(),
        k <= last,
        forall|j: int| i <= j < k ==> #[trigger] data[j] >= 128,
    ensures
        leb_end(data, i, last, overflow) == leb_end(data, k, last, overflow),
    decreases k - i,
{
    if i < k {
        lemma_leb_end_walk(data, i + 1, k, last, overflow);
    }
}

/// The end that the search finds depends only on the bytes up to it: bytes
/// appended after them change nothing.
pub proof fn lemma_leb_end_prefix(
    data: Seq<u8>,
    rest: Seq<u8>,
    i: nat,
    last: nat,
    overflow: ReadErrorKind,
)
    requires
        leb_end(data, i, last, overflow) != Err::<nat, ReadErrorKind>(ReadErrorKind::Io),
    ensures
        leb_end(data + rest, i, last, overflow) == leb_end(data, i, last, overflow),
    decreases last - i,
{
    if i < data.len() {
        assert((data + rest)[i as int] == data[i as int]);
        if data[i as int] >= 128 && i < last {
            lemma_leb_end_prefix(data, rest, i + 1, last, overflow);
        }
    }
}

/// A VarInt reads the same whatever bytes follow it; so does one that is
/// too long.
pub proof fn lemma_varint_read_prefix(data: Seq<u8>, rest: Seq<u8>)
    requires
        varint_read(data) != Err::<(i32, nat), ReadErrorKind>(ReadErrorKind::Io),
    ensures
        varint_read(data + rest) == varint_read(data),
{
    lemma_leb_end_prefix(data, rest, 0, 4, ReadErrorKind::TooLarge);
    lemma_leb_end_len(data, 0, 4, ReadErrorKind::TooLarge);
    if let Ok(n) = leb_end(data, 0, 4, ReadErrorKind::TooLarge) {
        assert((data + rest).take(n as int) =~= data.take(n as int));
    }
}

/// How far reading a VarInt one byte at a time has come.
pub struct VarIntReader {
    val: u32,
    count: usize,
    seen: Ghost<Seq<u8>>,
}

/// What feeding one byte to a [`VarIntReader`] leads to.
pub enum VarIntStep {
    /// Another byte is needed.
    More(VarIntReader),
    /// The VarInt is complete.
    Done(VarInt),
    /// The fifth byte still had its high bit set.
    Failed(ReadingError),
}

impl VarIntReader {
    /// The bytes fed so far.
    pub closed spec fn bytes(&self) -> Seq<u8> {
        self.seen@
    }

    /// The reader holds fewer than five bytes, each with its high bit set,
    /// and the value of their digits.
    pub closed spec fn wf(&self) -> bool {
        &&& self.count == self.seen@.len()
        &&& self.count < 5
        &&& forall|j: int| 0 <= j < self.seen@.len() ==> #[trigger] self.seen@[j] >= 128
        &&& self.val as nat == leb_value(self.seen@)
        &&& (self.val as nat) < pow128(self.count as nat)
    }

    pub fn new() -> (r: VarIntReader)
        ensures
            r.wf(),
            r.bytes() == Seq::<u8>::empty(),
    {
        proof {
            assert(leb_value(Seq::<u8>::empty()) == 0);
            assert(pow128(0) == 1);
        }
        VarIntReader { val: 0, count: 0, seen: Ghost(Seq::empty()) }
    }

    /// Takes the next byte. Reading the bytes fed so far as a buffer gives
    /// what the step says: a VarInt with all of them, or too long a one.
    pub fn feed(self, byte: u8) -> (r: VarIntStep)
        requires
            self.wf(),
        ensures
            match r {
                VarIntStep::More(next) => {
                    &&& next.wf()
                    &&& next.bytes() == self.bytes().push(byte)
                    &&& varint_read(next.bytes()) == Err::<(i32, nat), ReadErrorKind>(
                        ReadErrorKind::Io,
                    )
                },
                VarIntStep::Done(v) => varint_read(self.bytes().push(byte)) == Ok::<
                    (i32, nat),
                    ReadErrorKind,
                >((v.0, self.bytes().len() + 1)),
                VarIntStep::Failed(e) => {
                    &&& e matches ReadingError::TooLarge(m) && m@ == "VarInt"@
                    &&& varint_read(self.bytes().push(byte)) == Err::<(i32, nat), ReadErrorKind>(
                        ReadErrorKind::TooLarge,
                    )
                },
            },
    {
        let ghost s = self.seen@;
        let ghost t = s.push(byte);
        let i = self.count;
        proof {
            lemma_read_step(self.val, byte, i as u32);
            lemma_take_step(t, i as nat);
            assert(t.take(i as int) =~= s);
            assert(t.take(i as int + 1) =~= t);
            lemma_pow128_values();
            assert forall|j: int| 0 <= j < i as int implies #[trigger] t[j] >= 128 by {
                assert(t[j] == s[j]);
            }
            lemma_leb_end_walk(t, 0, i as nat, 4, ReadErrorKind::TooLarge);
        }
        let val = self.val | (((byte & 0x7F) as u32) << (7 * (i as u32)));
        let more = byte & 0x80 != 0;
        assert(more == (byte >= 128)) by (bit_vector)
            requires
                more == (byte & 0x80 != 0),
        ;
        if !more {
            proof {
                if i < 4 {
                    assert(pow128(i as nat + 1) <= 0x1000_0000);
                }
            }
            return VarIntStep::Done(VarInt(val as i32));
        }
        if i + 1 >= 5 {
            return VarIntStep::Failed(ReadingError::TooLarge("VarInt".to_owned()));
        }
        proof {
            assert(pow128(i as nat + 1) <= 0x1000_0000);
            assert forall|j: int| 0 <= j < t.len() implies #[trigger] t[j] >= 128 by {
                if j < i {
                    assert(t[j] == s[j]);
                }
            }
            lemma_leb_end_walk(t, 0, t.len(), 4, ReadErrorKind::TooLarge);
        }
        VarIntStep::More(VarIntReader { val, count: i + 1, seen: Ghost(t) })
    }

    /// The error when the source fails before the VarInt is complete: a
    /// clean end of input if it ended before the first byte, else the
    /// message of the failure.
    pub fn read_failed(&self, unexpected_eof: bool, message: String) -> (e: ReadingError)
        requires
            self.wf(),
        ensures
            self.bytes().len() == 0 && unexpected_eof ==> (e matches ReadingError::CleanEOF(m)
                && m@ == "VarInt"@),
            !(self.bytes().len() == 0 && unexpected_eof) ==> e == ReadingError::Incomplete(
                message,
            ),
    {
        if self.count == 0 && unexpected_eof {
            ReadingError::CleanEOF("VarInt".to_owned())
        } else {
            ReadingError::Incomplete(message)
        }
    }
}

/// The bytes that a VarInt was read from are at least as many as writing
/// its value takes.
pub proof fn lemma_canonical_len(data: Seq<u8>)
    ensures
        varint_read(data) matches Ok((v, n)) ==> varint_bytes(v).len() <= n,
{
    if let Ok((v, n)) = varint_read(data) {
        lemma_leb_end_len(data, 0, 4, ReadErrorKind::TooLarge);
        lemma_leb_end_bound(data, 0);
        let t = data.take(n as int);
        lemma_leb_value_bound(t);
        lemma_pow128_values();
        let u = (v as u32) as nat;
        if n < 5 {
            assert(pow128(n) <= 0x1000_0000) by {
                lemma_pow128_mono(n, 4);
            }
            assert(leb_value(t) % 0x1_0000_0000 == leb_value(t));
            assert(((leb_value(t) as u32) as i32 as u32) as nat == leb_value(t)) by {
                let x = leb_value(t) as u32;
                assert((x as i32) as u32 == x) by (bit_vector);
            }
            if u >= 1 {
                lemma_leb_bytes_len_bound(u, n);
            } else {
                assert(leb_bytes(0).len() == 1);
            }
        } else {
            lemma_leb_bytes_len_bound(u, 5);
        }
    }
}

/// A VarInt is at most five bytes long.
proof fn lemma_leb_end_bound(data: Seq<u8>, i: nat)
    requires
        i <= 4,
    ensures
        leb_end(data, i, 4, ReadErrorKind::TooLarge) matches Ok(n) ==> n <= 5,
    decreases 4 - i,
{
    if i < data.len() && data[i as int] >= 128 && i < 4 {
        lemma_leb_end_bound(data, i + 1);
    }
}

/// Powers of 128 grow with the exponent.
pub proof fn lemma_pow128_mono(a: nat, b: nat)
    requires
        a <= b,
    ensures
        pow128(a) <= pow128(b),
    decreases b,
{
    if a < b {
        lemma_pow128_mono(a, (b - 1) as nat);
    }
}


// ----- what reading and writing VarLongs and VarInts mean, byte by byte -----

/// Looking for the end one byte further on, past a byte put in front, finds
/// the same end one byte further on.
proof fn lemma_leb_end_shift(b: u8, d: Seq<u8>, i: nat, last: nat, overflow: ReadErrorKind)
    ensures
        leb_end(seq![b] + d, i + 1, last + 1, overflow) == match leb_end(d, i, last, overflow) {
            Ok(n) => Ok::<nat, ReadErrorKind>(n + 1),
            Err(k) => Err::<nat, ReadErrorKind>(k),
        },
    decreases last - i,
{
    let bd = seq![b] + d;
    if i < d.len() {
        assert(bd[(i + 1) as int] == d[i as int]);
        if d[i as int] >= 128 && i < last {
            lemma_leb_end_shift(b, d, i + 1, last, overflow);
        }
    }
}

/// An end found before a closer limit is found under that limit too.
proof fn lemma_leb_end_tighter(d: Seq<u8>, i: nat, last: nat, tighter: nat, overflow: ReadErrorKind)
    requires
        tighter <= last,
        leb_end(d, i, last, overflow) matches Ok(n) && n <= tighter + 1,
    ensures
        leb_end(d, i, tighter, overflow) == leb_end(d, i, last, overflow),
    decreases last - i,
{
    if i < d.len() && d[i as int] >= 128 && i < last {
        lemma_leb_end_len(d, i + 1, last, overflow);
        lemma_leb_end_tighter(d, i + 1, last, tighter, overflow);
    }
}

/// A VarLong of one byte, a byte without its high bit, is that byte's value,
/// whatever follows.
pub proof fn lemma_varlong_reads_single_byte(b: u8, rest: Seq<u8>)
    requires
        b < 128,
    ensures
        <VarLong as Serializable>::spec_read(seq![b] + rest) == Ok::<(i64, nat), ReadErrorKind>(
            (b as i64, 1),
        ),
{
    let data = seq![b] + rest;
    assert(data[0] == b);
    assert(data.take(1) =~= seq![b]);
    assert(seq![b].drop_first() =~= Seq::<u8>::empty());
    assert(leb_value(seq![b]) == (b % 128) as nat + 128 * leb_value(Seq::<u8>::empty()));
}

/// A byte with its high bit set, put in front of a VarLong of at most nine
/// bytes, makes a VarLong one byte longer whose value is that byte's low
/// seven bits plus 128 times the old value, in 64-bit two's complement.
pub proof fn lemma_varlong_reads_digit_in_front(b: u8, data: Seq<u8>, v: i64, n: nat)
    requires
        b >= 128,
        <VarLong as Serializable>::spec_read(data) == Ok::<(i64, nat), ReadErrorKind>((v, n)),
        n <= 9,
    ensures
        <VarLong as Serializable>::spec_read(seq![b] + data) == Ok::<(i64, nat), ReadErrorKind>(
            ((((b % 128) as int + 128 * ((v as u64) as int)) % 0x1_0000_0000_0000_0000) as u64 as i64,
            n + 1),
        ),
{
    let bd = seq![b] + data;
    let m: int = 0x1_0000_0000_0000_0000;
    lemma_leb_end_tighter(data, 0, 9, 8, ReadErrorKind::Message);
    lemma_leb_end_shift(b, data, 0, 8, ReadErrorKind::Message);
    assert(bd[0] == b);
    assert(leb_end(bd, 0, 9, ReadErrorKind::Message) == leb_end(bd, 1, 9, ReadErrorKind::Message));
    lemma_leb_end_len(data, 0, 9, ReadErrorKind::Message);
    let t = bd.take((n + 1) as int);
    assert(t[0] == bd[0]);
    assert(t.drop_first() =~= data.take(n as int));
    let l: int = leb_value(data.take(n as int)) as int;
    assert(leb_value(t) == (b % 128) as int + 128 * l);
    let w = (l % m) as u64;
    assert(v == w as i64);
    assert((w as i64) as u64 == w) by (bit_vector);
    assert((v as u64) as int == l % m);
    vstd::arithmetic::div_mod::lemma_mul_mod_noop_right(128, l, m);
    vstd::arithmetic::div_mod::lemma_add_mod_noop_right((b % 128) as int, 128 * l, m);
    vstd::arithmetic::div_mod::lemma_add_mod_noop_right((b % 128) as int, 128 * (l % m), m);
}

/// Writing a VarLong whose 64-bit two's complement form is below 128 writes
/// that one byte.
pub proof fn lemma_varlong_writes_single_byte(v: i64)
    requires
        (v as u64) < 128,
    ensures
        <VarLong as Serializable>::spec_write(v) == Ok::<Seq<u8>, Seq<u8>>(seq![(v as u64) as u8]),
{
}

/// Writing a VarLong whose 64-bit two's complement form `u` is 128 or more
/// writes the low seven bits of `u` with the high bit set, then what writing
/// `u / 128` writes.
pub proof fn lemma_varlong_writes_digit_in_front(v: i64)
    requires
        (v as u64) >= 128,
    ensures
        <VarLong as Serializable>::spec_write(v) == Ok::<Seq<u8>, Seq<u8>>(
            seq![((v as u64) % 128 + 128) as u8] + <VarLong as Serializable>::spec_write(
                ((v as u64) / 128) as i64,
            )->Ok_0,
        ),
{
    let u = v as u64;
    let q = (u / 128) as i64;
    assert(u / 128 < 0x8000_0000_0000_0000);
    assert((q as u64) == u / 128);
}

/// A VarInt of one byte, a byte without its high bit, is that byte's value,
/// whatever follows.
pub proof fn lemma_varint_reads_single_byte(b: u8, rest: Seq<u8>)
    requires
        b < 128,
    ensures
        <VarInt as Serializable>::spec_read(seq![b] + rest) == Ok::<(i32, nat), ReadErrorKind>(
            (b as i32, 1),
        ),
{
    let data = seq![b] + rest;
    assert(data[0] == b);
    assert(data.take(1) =~= seq![b]);
    assert(seq![b].drop_first() =~= Seq::<u8>::empty());
    assert(leb_value(seq![b]) == (b % 128) as nat + 128 * leb_value(Seq::<u8>::empty()));
}

/// A byte with its high bit set, put in front of a VarInt of at most four
/// bytes, makes a VarInt one byte longer whose value is that byte's low
/// seven bits plus 128 times the old value, in 32-bit two's complement.
pub proof fn lemma_varint_reads_digit_in_front(b: u8, data: Seq<u8>, v: i32, n: nat)
    requires
        b >= 128,
        <VarInt as Serializable>::spec_read(data) == Ok::<(i32, nat), ReadErrorKind>((v, n)),
        n <= 4,
    ensures
        <VarInt as Serializable>::spec_read(seq![b] + data) == Ok::<(i32, nat), ReadErrorKind>(
            ((((b % 128) as int + 128 * ((v as u32) as int)) % 0x1_0000_0000) as u32 as i32,
            n + 1),
        ),
{
    let bd = seq![b] + data;
    let m: int = 0x1_0000_0000;
    lemma_leb_end_tighter(data, 0, 4, 3, ReadErrorKind::TooLarge);
    lemma_leb_end_shift(b, data, 0, 3, ReadErrorKind::TooLarge);
    assert(bd[0] == b);
    assert(leb_end(bd, 0, 4, ReadErrorKind::TooLarge) == leb_end(bd, 1, 4, ReadErrorKind::TooLarge));
    lemma_leb_end_len(data, 0, 4, ReadErrorKind::TooLarge);
    let t = bd.take((n + 1) as int);
    assert(t[0] == bd[0]);
    assert(t.drop_first() =~= data.take(n as int));
    let l: int = leb_value(data.take(n as int)) as int;
    assert(leb_value(t) == (b % 128) as int + 128 * l);
    let w = (l % m) as u32;
    assert(v == w as i32);
    assert((w as i32) as u32 == w) by (bit_vector);
    assert((v as u32) as int == l % m);
    vstd::arithmetic::div_mod::lemma_mul_mod_noop_right(128, l, m);
    vstd::arithmetic::div_mod::lemma_add_mod_noop_right((b % 128) as int, 128 * l, m);
    vstd::arithmetic::div_mod::lemma_add_mod_noop_right((b % 128) as int, 128 * (l % m), m);
}

/// Writing a VarInt whose 32-bit two's complement form is below 128 writes
/// that one byte.
pub proof fn lemma_varint_writes_single_byte(v: i32)
    requires
        (v as u32) < 128,
    ensures
        <VarInt as Serializable>::spec_write(v) == Ok::<Seq<u8>, Seq<u8>>(seq![(v as u32) as u8]),
{
}

/// Writing a VarInt whose 32-bit two's complement form `u` is 128 or more
/// writes the low seven bits of `u` with the high bit set, then what writing
/// `u / 128` writes.
pub proof fn lemma_varint_writes_digit_in_front(v: i32)
    requires
        (v as u32) >= 128,
    ensures
        <VarInt as Serializable>::spec_write(v) == Ok::<Seq<u8>, Seq<u8>>(
            seq![((v as u32) % 128 + 128) as u8] + <VarInt as Serializable>::spec_write(
                ((v as u32) / 128) as i32,
            )->Ok_0,
        ),
{
    let u = v as u32;
    let q = (u / 128) as i32;
    assert(u / 128 < 0x8000_0000);
    assert((q as u32) == u / 128);
}


/// Ten bytes in a row with their high bits set make a VarLong too big to
/// read; bytes that run out before one without its high bit make it cut
/// short.
pub proof fn lemma_varlong_fails_without_end(data: Seq<u8>)
    requires
        forall|j: int| 0 <= j < data.len() && j < 10 ==> #[trigger] data[j] >= 128,
    ensures
        data.len() >= 10 ==> <VarLong as Serializable>::spec_read(data) == Err::<(i64, nat), ReadErrorKind>(
            ReadErrorKind::Message,
        ),
        data.len() < 10 ==> <VarLong as Serializable>::spec_read(data) == Err::<(i64, nat), ReadErrorKind>(
            ReadErrorKind::Io,
        ),
{
    if data.len() >= 10 {
        lemma_leb_end_walk(data, 0, 9, 9, ReadErrorKind::Message);
    } else {
        lemma_leb_end_walk(data, 0, data.len(), 9, ReadErrorKind::Message);
    }
}

/// Five bytes in a row with their high bits set make a VarInt too large to
/// read; bytes that run out before one without its high bit make it cut
/// short.
pub proof fn lemma_varint_fails_without_end(data: Seq<u8>)
    requires
        forall|j: int| 0 <= j < data.len() && j < 5 ==> #[trigger] data[j] >= 128,
    ensures
        data.len() >= 5 ==> <VarInt as Serializable>::spec_read(data) == Err::<(i32, nat), ReadErrorKind>(
            ReadErrorKind::TooLarge,
        ),
        data.len() < 5 ==> <VarInt as Serializable>::spec_read(data) == Err::<(i32, nat), ReadErrorKind>(
            ReadErrorKind::Io,
        ),
{
    if data.len() >= 5 {
        lemma_leb_end_walk(data, 0, 4, 4, ReadErrorKind::TooLarge);
    } else {
        lemma_leb_end_walk(data, 0, data.len(), 4, ReadErrorKind::TooLarge);
    }
}

} // verus!
