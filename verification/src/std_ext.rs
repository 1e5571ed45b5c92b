//! Contracts for the few functions of std that the library calls and that
//! vstd does not specify.

use vstd::prelude::*;
use vstd::utf8::{decode_utf8, encode_utf8, valid_utf8};

verus! {

/// The error that `String::from_utf8` returns; opaque here.
#[verifier::external_type_specification]
#[verifier::external_body]
pub struct ExFromUtf8Error(std::string::FromUtf8Error);

/// Calls `String::from_utf8`. As std documents, it succeeds exactly when the
/// bytes are valid UTF-8, and the string it returns holds those bytes, so
/// its characters are what the bytes decode to.
#[verifier::external_body]
pub(crate) fn string_from_utf8(bytes: Vec<u8>) -> (res: Result<String, std::string::FromUtf8Error>)
    ensures
        res is Ok <==> valid_utf8(bytes@),
        res matches Ok(s) ==> s@ == decode_utf8(bytes@),
{
    String::from_utf8(bytes)
}

/// The number of significant bits of `x`: 0 for 0, else one more than that of `x / 2`.
pub open spec fn bit_len(x: nat) -> nat
    decreases x,
{
    if x == 0 {
        0
    } else {
        1 + bit_len(x / 2)
    }
}

/// Calls `i32::leading_zeros`: the number of zero bits above the highest one
/// bit in the 32-bit two's complement form of `n`.
#[verifier::external_body]
pub(crate) fn i32_leading_zeros(n: i32) -> (r: u32)
    ensures
        r == 32 - bit_len((n as u32) as nat),
{
    n.leading_zeros()
}

/// Calls `String::insert`: puts `ch` before the character at `idx`. The
/// contract covers strings of ASCII characters only, where character and
/// byte positions agree.
#[verifier::external_body]
pub(crate) fn string_insert(s: &mut String, idx: usize, ch: char)
    requires
        vstd::utf8::is_ascii_chars(old(s)@),
        idx <= old(s)@.len(),
    ensures
        final(s)@ == old(s)@.insert(idx as int, ch),
{
    s.insert(idx, ch)
}

/// The UTF-8 bytes of a string, as a vector.
pub fn string_bytes(s: &String) -> (r: Vec<u8>)
    ensures
        r@ == encode_utf8(s@),
{
    let b: &[u8] = s.as_str().as_bytes();
    vstd::slice::slice_to_vec(b)
}

} // verus!
