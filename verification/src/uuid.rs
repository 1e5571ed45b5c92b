//! UUIDs: their wire format, and their text form in hexadecimal digits,
//! through the `hex` crate.

use crate::bytes::{append_bytes, be_bytes, be_value, be_write_u128, lemma_be_value_bound, pow256};
use crate::error::{ReadErrorKind, ReadingError, WritingError};
use crate::serial::Serializable;
use crate::std_ext::string_insert;
use vstd::prelude::*;
use vstd::utf8::{encode_utf8, is_ascii_chars};

verus! {

/// The error that `hex::decode` returns; opaque here.
#[verifier::external_type_specification]
#[verifier::external_body]
pub struct ExFromHexError(hex::FromHexError);

/// Whether `c` is a hexadecimal digit, in either case.
pub open spec fn is_hex_digit(c: u8) -> bool {
    (48 <= c <= 57) || (65 <= c <= 70) || (97 <= c <= 102)
}

/// The value of a hexadecimal digit.
pub open spec fn hex_digit_value(c: u8) -> nat {
    if 48 <= c <= 57 {
        (c - 48) as nat
    } else if 65 <= c <= 70 {
        (c - 55) as nat
    } else {
        (c - 87) as nat
    }
}

/// Whether `d` is an even number of hexadecimal digits.
pub open spec fn is_hex_text(d: Seq<u8>) -> bool {
    d.len() % 2 == 0 && forall|i: int| 0 <= i < d.len() ==> is_hex_digit(#[trigger] d[i])
}

/// The bytes that pairs of hexadecimal digits stand for, high digit first.
pub open spec fn hex_decode_spec(d: Seq<u8>) -> Seq<u8> {
    Seq::new(
        d.len() / 2,
        |i: int| (hex_digit_value(d[2 * i]) * 16 + hex_digit_value(d[2 * i + 1])) as u8,
    )
}

/// The lowercase hexadecimal digit of a value below sixteen.
pub open spec fn hex_char(v: nat) -> char {
    if v < 10 {
        (v + 48) as char
    } else {
        (v + 87) as char
    }
}

/// The lowercase hexadecimal digits of bytes, two per byte, high digit first.
pub open spec fn hex_encode_spec(b: Seq<u8>) -> Seq<char> {
    Seq::new(
        b.len() * 2,
        |i: int|
            if i % 2 == 0 {
                hex_char((b[i / 2] / 16) as nat)
            } else {
                hex_char((b[i / 2] % 16) as nat)
            },
    )
}

/// Calls `hex::decode`: it succeeds exactly on an even number of
/// hexadecimal digits, and gives the bytes that each pair stands for.
#[verifier::external_body]
pub(crate) fn hex_decode(data: &[u8]) -> (r: Result<Vec<u8>, hex::FromHexError>)
    ensures
        r is Ok <==> is_hex_text(data@),
        r matches Ok(v) ==> v@ == hex_decode_spec(data@),
{
    hex::decode(data)
}

/// Calls `hex::encode`: two lowercase hexadecimal digits per byte.
#[verifier::external_body]
pub(crate) fn hex_encode(data: &[u8]) -> (r: String)
    ensures
        r@ == hex_encode_spec(data@),
{
    hex::encode(data)
}

/// A UUID, as one 128-bit number.
#[derive(Debug, Clone, Copy, Default, PartialEq, Eq, Hash)]
pub struct UUID(pub u128);

/// Why text could not be read as a UUID.
#[derive(Debug)]
pub struct UUIDParseError;

impl From<hex::FromHexError> for UUIDParseError {
    fn from(value: hex::FromHexError) -> (r: UUIDParseError) {
        UUIDParseError
    }
}

impl vstd::std_specs::convert::FromSpecImpl<hex::FromHexError> for UUIDParseError {
    open spec fn obeys_from_spec() -> bool {
        true
    }

    open spec fn from_spec(v: hex::FromHexError) -> UUIDParseError {
        UUIDParseError
    }
}

impl View for UUID {
    type V = u128;

    open spec fn view(&self) -> u128 {
        self.0
    }
}

impl DeepView for UUID {
    type V = u128;

    open spec fn deep_view(&self) -> u128 {
        self.0
    }
}

/// The five groups of digits of a UUID's text: the bytes at 0..8, 9..13,
/// 14..18, 19..23 and 24..36. The bytes at 8, 13, 18 and 23 are skipped.
pub open spec fn uuid_groups(b: Seq<u8>) -> Seq<Seq<u8>> {
    seq![
        b.subrange(0, 8),
        b.subrange(9, 13),
        b.subrange(14, 18),
        b.subrange(19, 23),
        b.subrange(24, 36),
    ]
}

/// The number that the text of a UUID stands for: its UTF-8 form must be 36
/// bytes long, and each of its five groups hexadecimal digits.
pub open spec fn uuid_parse(s: Seq<char>) -> Option<u128> {
    let b = encode_utf8(s);
    if b.len() != 36 {
        None
    } else {
        let g = uuid_groups(b);
        if is_hex_text(g[0]) && is_hex_text(g[1]) && is_hex_text(g[2]) && is_hex_text(g[3])
            && is_hex_text(g[4]) {
            Some(
                be_value(
                    hex_decode_spec(g[0]) + hex_decode_spec(g[1]) + hex_decode_spec(g[2])
                        + hex_decode_spec(g[3]) + hex_decode_spec(g[4]),
                ) as u128,
            )
        } else {
            None
        }
    }
}

/// The text of a UUID: the 32 lowercase hexadecimal digits of its sixteen
/// bytes, with a hyphen put in at 9, 14, 19 and 24.
pub open spec fn uuid_text(v: u128) -> Seq<char> {
    hex_encode_spec(be_bytes(v as nat, 16)).insert(9, '-').insert(14, '-').insert(19, '-').insert(
        24,
        '-',
    )
}

proof fn lemma_shift_in(value: u128, b: u8)
    requires
        (value as nat) < 0x1_0000_0000_0000_0000_0000_0000_0000_00,
    ensures
        ((value << 8) | (b as u128)) as nat == (value as nat) * 256 + b as nat,
{
    assert(((value << 8) | (b as u128)) as int == (value as int) * 256 + b as int) by (bit_vector)
        requires
            (value as int) < 0x1_0000_0000_0000_0000_0000_0000_0000_00,
    ;
}

impl UUID {
    /// Reads the text of a UUID: 36 bytes, whose groups at 0..8, 9..13,
    /// 14..18, 19..23 and 24..36 are hexadecimal digits.
    pub fn parse(s: &str) -> (r: Result<UUID, UUIDParseError>)
        ensures
            r is Ok <==> uuid_parse(s@) is Some,
            r matches Ok(u) ==> uuid_parse(s@) == Some(u.0),
    {
        let b: &[u8] = s.as_bytes();
        if b.len() != 36 {
            return Err(UUIDParseError);
        }
        let ghost g = uuid_groups(b@);
        let mut parts = match hex_decode(vstd::slice::slice_subrange(b, 0, 8)) {
            Ok(p) => p,
            Err(e) => return Err(UUIDParseError::from(e)),
        };
        let p2 = match hex_decode(vstd::slice::slice_subrange(b, 9, 13)) {
            Ok(p) => p,
            Err(e) => return Err(UUIDParseError::from(e)),
        };
        append_bytes(&mut parts, p2.as_slice());
        let p3 = match hex_decode(vstd::slice::slice_subrange(b, 14, 18)) {
            Ok(p) => p,
            Err(e) => return Err(UUIDParseError::from(e)),
        };
        append_bytes(&mut parts, p3.as_slice());
        let p4 = match hex_decode(vstd::slice::slice_subrange(b, 19, 23)) {
            Ok(p) => p,
            Err(e) => return Err(UUIDParseError::from(e)),
        };
        append_bytes(&mut parts, p4.as_slice());
        let p5 = match hex_decode(vstd::slice::slice_subrange(b, 24, 36)) {
            Ok(p) => p,
            Err(e) => return Err(UUIDParseError::from(e)),
        };
        append_bytes(&mut parts, p5.as_slice());
        let ghost whole = parts@;
        assert(whole == hex_decode_spec(g[0]) + hex_decode_spec(g[1]) + hex_decode_spec(g[2])
            + hex_decode_spec(g[3]) + hex_decode_spec(g[4]));
        assert(whole.len() == 16);
        let mut value: u128 = 0;
        let mut i: usize = 0;
        proof {
            assert(whole.take(0) =~= Seq::<u8>::empty());
        }
        while i < 16
            invariant
                i <= 16,
                parts@ == whole,
                whole.len() == 16,
                value as nat == be_value(whole.take(i as int)),
            decreases 16 - i,
        {
            proof {
                lemma_be_value_bound(whole.take(i as int));
                assert(pow256(i as nat) <= pow256(15)) by {
                    lemma_pow256_mono(i as nat, 15);
                }
                assert(pow256(15) == 0x1_0000_0000_0000_0000_0000_0000_0000_00) by {
                    reveal_with_fuel(pow256, 16);
                }
                lemma_shift_in(value, parts[i as int]);
                assert(whole.take(i as int + 1).drop_last() =~= whole.take(i as int));
            }
            value = (value << 8) | (parts[i] as u128);
            i = i + 1;
        }
        proof {
            assert(whole.take(16) =~= whole);
        }
        Ok(UUID(value))
    }

    /// The text of this UUID: its 32 hexadecimal digits, with hyphens put in
    /// at 9, 14, 19 and 24.
    pub fn to_text(&self) -> (r: String)
        ensures
            r@ == uuid_text(self.0),
    {
        let bytes = be_write_u128(self.0);
        let mut val = hex_encode(bytes.as_slice());
        proof {
            crate::bytes::lemma_be_roundtrip(self.0 as nat, 16);
            lemma_hex_ascii(bytes@);
            lemma_ascii_insert(val@, 9);
        }
        string_insert(&mut val, 9, '-');
        proof {
            lemma_ascii_insert(val@, 14);
        }
        string_insert(&mut val, 14, '-');
        proof {
            lemma_ascii_insert(val@, 19);
        }
        string_insert(&mut val, 19, '-');
        proof {
            lemma_ascii_insert(val@, 24);
        }
        string_insert(&mut val, 24, '-');
        val
    }
}

/// Powers of 256 grow with the exponent.
pub proof fn lemma_pow256_mono(a: nat, b: nat)
    requires
        a <= b,
    ensures
        pow256(a) <= pow256(b),
    decreases b,
{
    if a < b {
        lemma_pow256_mono(a, (b - 1) as nat);
    }
}

proof fn lemma_hex_ascii(b: Seq<u8>)
    ensures
        is_ascii_chars(hex_encode_spec(b)),
        hex_encode_spec(b).len() == b.len() * 2,
{
    let h = hex_encode_spec(b);
    assert forall|i| 0 <= i < h.len() implies '\0' <= #[trigger] h[i] <= '\u{7f}' by {
        let byte = b[i / 2];
        assert(byte / 16 < 16);
        assert(byte % 16 < 16);
    }
}

proof fn lemma_ascii_insert(s: Seq<char>, idx: int)
    requires
        is_ascii_chars(s),
        0 <= idx <= s.len(),
    ensures
        is_ascii_chars(s.insert(idx, '-')),
{
    let t = s.insert(idx, '-');
    assert forall|i| 0 <= i < t.len() implies '\0' <= #[trigger] t[i] <= '\u{7f}' by {
        if i < idx {
            assert(t[i] == s[i]);
        } else if i > idx {
            assert(t[i] == s[i - 1]);
        }
    }
}

/// The usual text of a UUID: its 32 lowercase hexadecimal digits in groups
/// of 8, 4, 4, 4 and 12, joined by hyphens.
pub open spec fn uuid_standard_text(v: u128) -> Seq<char> {
    let d = hex_encode_spec(be_bytes(v as nat, 16));
    d.subrange(0, 8) + seq!['-'] + d.subrange(8, 12) + seq!['-'] + d.subrange(12, 16) + seq!['-']
        + d.subrange(16, 20) + seq!['-'] + d.subrange(20, 32)
}

/// The bytes of characters that are all below 128.
spec fn char_bytes(s: Seq<char>) -> Seq<u8> {
    s.map_values(|c: char| c as u8)
}

proof fn lemma_hex_char_value(v: nat)
    requires
        v < 16,
    ensures
        is_hex_digit(hex_char(v) as u8),
        hex_digit_value(hex_char(v) as u8) == v,
{
}

/// The digits that encoding gives decode back to the bytes.
proof fn lemma_hex_roundtrip(b: Seq<u8>)
    ensures
        is_hex_text(char_bytes(hex_encode_spec(b))),
        hex_decode_spec(char_bytes(hex_encode_spec(b))) == b,
{
    let d = char_bytes(hex_encode_spec(b));
    assert forall|i: int| 0 <= i < d.len() implies is_hex_digit(#[trigger] d[i]) by {
        lemma_hex_char_value((b[i / 2] / 16) as nat);
        lemma_hex_char_value((b[i / 2] % 16) as nat);
    }
    assert forall|i: int| 0 <= i < b.len() implies #[trigger] hex_decode_spec(d)[i] == b[i] by {
        lemma_hex_char_value((b[i] / 16) as nat);
        lemma_hex_char_value((b[i] % 16) as nat);
        assert((2 * i) / 2 == i);
        assert((2 * i + 1) / 2 == i);
        assert(d[2 * i] == hex_char((b[i] / 16) as nat) as u8);
        assert(d[2 * i + 1] == hex_char((b[i] % 16) as nat) as u8);
        assert((b[i] / 16) * 16 + b[i] % 16 == b[i]);
    }
    assert(hex_decode_spec(d) =~= b);
}

/// The digits of a run of bytes are the matching run of the digits.
proof fn lemma_hex_subrange(b: Seq<u8>, a: int, c: int)
    requires
        0 <= a <= c <= b.len(),
    ensures
        hex_encode_spec(b).subrange(2 * a, 2 * c) == hex_encode_spec(b.subrange(a, c)),
{
    let x = hex_encode_spec(b).subrange(2 * a, 2 * c);
    let y = hex_encode_spec(b.subrange(a, c));
    assert forall|i: int| 0 <= i < x.len() implies x[i] == y[i] by {
        assert((2 * a + i) / 2 == a + i / 2);
        assert((2 * a + i) % 2 == i % 2);
    }
    assert(x =~= y);
}

proof fn lemma_standard_text_shape(v: u128)
    ensures
        ({
            let d = hex_encode_spec(be_bytes(v as nat, 16));
            let t = uuid_standard_text(v);
            &&& d.len() == 32
            &&& t.len() == 36
            &&& is_ascii_chars(t)
            &&& forall|i: int| 0 <= i < 8 ==> #[trigger] t[i] == d[i]
            &&& forall|i: int| 9 <= i < 13 ==> #[trigger] t[i] == d[i - 1]
            &&& forall|i: int| 14 <= i < 18 ==> #[trigger] t[i] == d[i - 2]
            &&& forall|i: int| 19 <= i < 23 ==> #[trigger] t[i] == d[i - 3]
            &&& forall|i: int| 24 <= i < 36 ==> #[trigger] t[i] == d[i - 4]
        }),
{
    let bytes = be_bytes(v as nat, 16);
    crate::bytes::lemma_be_roundtrip(v as nat, 16);
    let d = hex_encode_spec(bytes);
    lemma_hex_ascii(bytes);
    let t = uuid_standard_text(v);
    assert forall|i| 0 <= i < t.len() implies '\0' <= #[trigger] t[i] <= '\u{7f}' by {
        if i < 8 {
            assert(t[i] == d[i]);
        } else if 8 < i < 13 {
            assert(t[i] == d[i - 1]);
        } else if 13 < i < 18 {
            assert(t[i] == d[i - 2]);
        } else if 18 < i < 23 {
            assert(t[i] == d[i - 3]);
        } else if 23 < i {
            assert(t[i] == d[i - 4]);
        }
    }
}

proof fn lemma_group_decodes(v: u128, a: int, c: int, start: int)
    requires
        0 <= a <= c <= 16,
        0 <= start,
        start + 2 * (c - a) <= 36,
        uuid_standard_text(v).len() == 36,
        is_ascii_chars(uuid_standard_text(v)),
        forall|i: int|
            0 <= i < 2 * (c - a) ==> #[trigger] uuid_standard_text(v)[start + i] == hex_encode_spec(
                be_bytes(v as nat, 16),
            )[2 * a + i],
    ensures
        is_hex_text(encode_utf8(uuid_standard_text(v)).subrange(start, start + 2 * (c - a))),
        hex_decode_spec(encode_utf8(uuid_standard_text(v)).subrange(start, start + 2 * (c - a)))
            == be_bytes(v as nat, 16).subrange(a, c),
{
    let bytes = be_bytes(v as nat, 16);
    crate::bytes::lemma_be_roundtrip(v as nat, 16);
    let d = hex_encode_spec(bytes);
    let t = uuid_standard_text(v);
    vstd::utf8::is_ascii_chars_encode_utf8(t);
    let e = encode_utf8(t);
    let run = e.subrange(start, start + 2 * (c - a));
    lemma_hex_subrange(bytes, a, c);
    lemma_hex_roundtrip(bytes.subrange(a, c));
    let h = char_bytes(hex_encode_spec(bytes.subrange(a, c)));
    assert forall|i: int| 0 <= i < h.len() implies #[trigger] run[i] == h[i] by {
        assert(run[i] == e[start + i]);
        assert(e[start + i] == t[start + i] as u8);
        assert(t[start + i] == d[2 * a + i]);
    }
    assert(run =~= h);
}

/// Reading the usual text of a UUID gives the UUID back.
#[verifier::rlimit(60)]
#[verifier::spinoff_prover]
pub proof fn lemma_parse_standard_text(v: u128)
    ensures
        uuid_parse(uuid_standard_text(v)) == Some(v),
{
    let bytes = be_bytes(v as nat, 16);
    crate::bytes::lemma_be_roundtrip(v as nat, 16);
    crate::bytes::lemma_pow256_values();
    lemma_standard_text_shape(v);
    let t = uuid_standard_text(v);
    let d = hex_encode_spec(bytes);
    assert forall|i: int| 0 <= i < 8 implies #[trigger] t[0 + i] == d[2 * 0 + i] by {
        assert(t[i] == d[i]);
    }
    lemma_group_decodes(v, 0, 4, 0);
    assert forall|i: int| 0 <= i < 4 implies #[trigger] t[9 + i] == d[2 * 4 + i] by {
        assert(t[9 + i] == d[9 + i - 1]);
    }
    lemma_group_decodes(v, 4, 6, 9);
    assert forall|i: int| 0 <= i < 4 implies #[trigger] t[14 + i] == d[2 * 6 + i] by {
        assert(t[14 + i] == d[14 + i - 2]);
    }
    lemma_group_decodes(v, 6, 8, 14);
    assert forall|i: int| 0 <= i < 4 implies #[trigger] t[19 + i] == d[2 * 8 + i] by {
        assert(t[19 + i] == d[19 + i - 3]);
    }
    lemma_group_decodes(v, 8, 10, 19);
    assert forall|i: int| 0 <= i < 12 implies #[trigger] t[24 + i] == d[2 * 10 + i] by {
        assert(t[24 + i] == d[24 + i - 4]);
    }
    lemma_group_decodes(v, 10, 16, 24);
    vstd::utf8::is_ascii_chars_encode_utf8(t);
    let e = encode_utf8(t);
    let g = uuid_groups(e);
    assert(g[0] == e.subrange(0, 8));
    assert(g[1] == e.subrange(9, 13));
    assert(g[2] == e.subrange(14, 18));
    assert(g[3] == e.subrange(19, 23));
    assert(g[4] == e.subrange(24, 36));
    let whole = hex_decode_spec(g[0]) + hex_decode_spec(g[1]) + hex_decode_spec(g[2])
        + hex_decode_spec(g[3]) + hex_decode_spec(g[4]);
    assert(whole =~= bytes);
}

impl core::str::FromStr for UUID {
    type Err = UUIDParseError;

    fn from_str(s: &str) -> (r: Result<UUID, UUIDParseError>)
        ensures
            r is Ok <==> uuid_parse(s@) is Some,
            r matches Ok(u) ==> uuid_parse(s@) == Some(u.0),
    {
        UUID::parse(s)
    }
}

impl Serializable for UUID {
    open spec fn spec_read(data: Seq<u8>) -> Result<(u128, nat), ReadErrorKind> {
        <u128 as Serializable>::spec_read(data)
    }

    open spec fn spec_write(v: u128) -> Result<Seq<u8>, Seq<u8>> {
        <u128 as Serializable>::spec_write(v)
    }

    open spec fn spec_writable(v: u128) -> bool {
        true
    }

    open spec fn spec_roundtrips(v: u128, rest: Seq<u8>) -> bool {
        true
    }

    proof fn lemma_read_len(data: Seq<u8>) {
    }

    proof fn lemma_roundtrip(v: u128, rest: Seq<u8>) {
        <u128 as Serializable>::lemma_roundtrip(v, rest);
    }

    fn read_from(buf: &[u8]) -> (res: Result<(Self, usize), ReadingError>) {
        match u128::read_from(buf) {
            Ok((v, n)) => Ok((UUID(v), n)),
            Err(e) => Err(e),
        }
    }

    fn write_to(&self, buf: &mut Vec<u8>) -> (res: Result<(), WritingError>) {
        self.0.write_to(buf)
    }
}

} // verus!
