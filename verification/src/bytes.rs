//! Fixed-width big-endian integers, through `byteorder`, and small helpers
//! on byte vectors.

use byteorder::{BigEndian, ByteOrder};
use vstd::prelude::*;
use vstd::string::{StrSliceExecFns, StringExecFns};

verus! {

/// `256` to the power `k`.
pub open spec fn pow256(k: nat) -> nat
    decreases k,
{
    if k == 0 {
        1
    } else {
        256 * pow256((k - 1) as nat)
    }
}

/// The number that bytes stand for, most significant first.
pub open spec fn be_value(s: Seq<u8>) -> nat
    decreases s.len(),
{
    if s.len() == 0 {
        0
    } else {
        be_value(s.drop_last()) * 256 + s.last() as nat
    }
}

/// The `k` low bytes of `v`, most significant first.
pub open spec fn be_bytes(v: nat, k: nat) -> Seq<u8>
    decreases k,
{
    if k == 0 {
        Seq::empty()
    } else {
        be_bytes(v / 256, (k - 1) as nat).push((v % 256) as u8)
    }
}

/// The decimal digits of `n`, most significant first.
pub open spec fn decimal(n: nat) -> Seq<char>
    decreases n,
{
    if n < 10 {
        seq![(n + 48) as char]
    } else {
        decimal(n / 10).push(((n % 10) + 48) as char)
    }
}

pub proof fn lemma_pow256_values()
    ensures
        pow256(1) == 0x100,
        pow256(2) == 0x1_0000,
        pow256(4) == 0x1_0000_0000,
        pow256(8) == 0x1_0000_0000_0000_0000,
        pow256(16) == 0x1_0000_0000_0000_0000_0000_0000_0000_0000,
{
    reveal_with_fuel(pow256, 17);
}

/// Writing `k` bytes of `v` and reading them back gives `v` modulo `256^k`.
pub proof fn lemma_be_roundtrip(v: nat, k: nat)
    ensures
        be_bytes(v, k).len() == k,
        be_value(be_bytes(v, k)) == v % pow256(k),
    decreases k,
{
    if k == 0 {
    } else {
        lemma_be_roundtrip(v / 256, (k - 1) as nat);
        let s = be_bytes(v, k);
        assert(s.drop_last() =~= be_bytes(v / 256, (k - 1) as nat));
        let p = pow256((k - 1) as nat);
        assert(p > 0) by {
            lemma_pow256_pos((k - 1) as nat);
        }
        vstd::arithmetic::div_mod::lemma_mod_breakdown(v as int, 256, p as int);
        assert(((v / 256) % p) * 256 + v % 256 == v % (256 * p)) by (nonlinear_arith)
            requires
                v % (256 * p) == 256 * ((v / 256) % p) + v % 256,
        ;
    }
}

pub proof fn lemma_pow256_pos(k: nat)
    ensures
        pow256(k) > 0,
    decreases k,
{
    if k > 0 {
        lemma_pow256_pos((k - 1) as nat);
    }
}

/// `k` bytes stand for less than `256^k`.
pub proof fn lemma_be_value_bound(s: Seq<u8>)
    ensures
        be_value(s) < pow256(s.len()),
    decreases s.len(),
{
    if s.len() > 0 {
        lemma_be_value_bound(s.drop_last());
        let a = be_value(s.drop_last());
        let p = pow256(s.drop_last().len());
        assert(a * 256 + s.last() < 256 * p) by (nonlinear_arith)
            requires
                a < p,
                s.last() < 256,
        ;
    }
}

/// Calls `BigEndian::read_u16`: the first two bytes as a big-endian number.
#[verifier::external_body]
pub(crate) fn be_read_u16(buf: &[u8]) -> (r: u16)
    requires
        buf@.len() >= 2,
    ensures
        r as nat == be_value(buf@.take(2)),
{
    BigEndian::read_u16(buf)
}

/// Calls `BigEndian::read_u32`: the first four bytes as a big-endian number.
#[verifier::external_body]
pub(crate) fn be_read_u32(buf: &[u8]) -> (r: u32)
    requires
        buf@.len() >= 4,
    ensures
        r as nat == be_value(buf@.take(4)),
{
    BigEndian::read_u32(buf)
}

/// Calls `BigEndian::read_u64`: the first eight bytes as a big-endian number.
#[verifier::external_body]
pub(crate) fn be_read_u64(buf: &[u8]) -> (r: u64)
    requires
        buf@.len() >= 8,
    ensures
        r as nat == be_value(buf@.take(8)),
{
    BigEndian::read_u64(buf)
}

/// Calls `BigEndian::read_u128`: the first sixteen bytes as a big-endian
/// number.
#[verifier::external_body]
pub(crate) fn be_read_u128(buf: &[u8]) -> (r: u128)
    requires
        buf@.len() >= 16,
    ensures
        r as nat == be_value(buf@.take(16)),
{
    BigEndian::read_u128(buf)
}

/// Calls `BigEndian::write_u16`: the two bytes of `n`, most significant first.
#[verifier::external_body]
pub(crate) fn be_write_u16(n: u16) -> (r: Vec<u8>)
    ensures
        r@ == be_bytes(n as nat, 2),
{
    let mut b = [0u8; 2];
    BigEndian::write_u16(&mut b, n);
    b.to_vec()
}

/// Calls `BigEndian::write_u32`: the four bytes of `n`, most significant first.
#[verifier::external_body]
pub(crate) fn be_write_u32(n: u32) -> (r: Vec<u8>)
    ensures
        r@ == be_bytes(n as nat, 4),
{
    let mut b = [0u8; 4];
    BigEndian::write_u32(&mut b, n);
    b.to_vec()
}

/// Calls `BigEndian::write_u64`: the eight bytes of `n`, most significant
/// first.
#[verifier::external_body]
pub(crate) fn be_write_u64(n: u64) -> (r: Vec<u8>)
    ensures
        r@ == be_bytes(n as nat, 8),
{
    let mut b = [0u8; 8];
    BigEndian::write_u64(&mut b, n);
    b.to_vec()
}

/// Calls `BigEndian::write_u128`: the sixteen bytes of `n`, most significant
/// first.
#[verifier::external_body]
pub(crate) fn be_write_u128(n: u128) -> (r: Vec<u8>)
    ensures
        r@ == be_bytes(n as nat, 16),
{
    let mut b = [0u8; 16];
    BigEndian::write_u128(&mut b, n);
    b.to_vec()
}

/// The decimal digits of `n`, most significant first.
pub fn decimal_string(n: u64) -> (r: String)
    ensures
        r@ == decimal(n as nat),
    decreases n,
{
    let digits = "0123456789";
    proof {
        reveal_strlit("0123456789");
    }
    let d = (n % 10) as usize;
    let last = digits.substring_char(d, d + 1);
    proof {
        let c = ((n % 10) + 48) as char;
        assert(digits@[d as int] == c);
        assert(last@ =~= seq![c]);
    }
    if n < 10 {
        String::from_str(last)
    } else {
        let mut s = decimal_string(n / 10);
        s.append(last);
        proof {
            assert(decimal(n as nat) == decimal((n / 10) as nat).push(((n % 10) + 48) as char));
            assert(s@ =~= decimal(n as nat));
        }
        s
    }
}

/// `prefix` followed by the decimal digits of `n`, as `format!` writes them.
pub(crate) fn message_with_number(prefix: &str, n: usize) -> (r: String)
    ensures
        r@ == prefix@ + decimal(n as nat),
{
    let mut s = String::from_str(prefix);
    let digits = decimal_string(n as u64);
    s.append(digits.as_str());
    s
}

/// Appends the bytes of `src` to `buf`.
pub fn append_bytes(buf: &mut Vec<u8>, src: &[u8])
    ensures
        final(buf)@ == old(buf)@ + src@,
{
    let mut i: usize = 0;
    while i < src.len()
        invariant
            i <= src@.len(),
            buf@ == old(buf)@ + src@.take(i as int),
        decreases src@.len() - i,
    {
        buf.push(src[i]);
        i = i + 1;
        assert(buf@ =~= old(buf)@ + src@.take(i as int));
    }
    assert(src@.take(i as int) =~= src@);
}

/// The bytes of `buf` from index `start` on.
pub(crate) fn tail(buf: &[u8], start: usize) -> (r: &[u8])
    requires
        start <= buf@.len(),
    ensures
        r@ == buf@.subrange(start as int, buf@.len() as int),
        buf@.len() <= usize::MAX,
{
    vstd::slice::slice_subrange(buf, start, buf.len())
}

} // verus!
