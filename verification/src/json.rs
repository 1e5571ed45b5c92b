//! JSON values on the wire: their text, written as a string. What the text
//! means is serde_json's work; the library frames it.

use crate::error::{ReadingError, WritingError};
use crate::prims::{string_read, string_write};
use crate::serial::Serializable;
use vstd::prelude::*;

verus! {

#[verifier::external_type_specification]
#[verifier::external_body]
pub struct ExJsonValue(serde_json::Value);

#[verifier::external_type_specification]
#[verifier::external_body]
pub struct ExJsonError(serde_json::Error);

/// What serde_json parses this text to: a JSON value, or nothing if the
/// text is not JSON.
pub uninterp spec fn json_parse(text: Seq<char>) -> Option<serde_json::Value>;

/// Whether serde_json parses this text as a JSON value.
pub open spec fn json_text_valid(text: Seq<char>) -> bool {
    json_parse(text) is Some
}

/// Calls `serde_json::from_str` for a `Value`: its result depends on the
/// text alone and is named `json_parse`.
#[verifier::external_body]
fn json_from_str(text: &str) -> (r: Result<serde_json::Value, serde_json::Error>)
    ensures
        r is Ok <==> json_parse(text@) is Some,
        r matches Ok(v) ==> json_parse(text@) == Some(v),
{
    serde_json::from_str(text)
}

/// Calls `ToString::to_string` on a serde_json error; nothing is stated of
/// the text.
#[verifier::external_body]
fn json_error_text(e: &serde_json::Error) -> (r: String) {
    e.to_string()
}

/// The text serde_json writes for a JSON value.
pub uninterp spec fn json_text_of(v: serde_json::Value) -> Seq<char>;

/// Calls `ToString::to_string` on a JSON value: its text, which depends on
/// the value alone and is named `json_text_of`.
#[verifier::external_body]
fn json_text(v: &serde_json::Value) -> (r: String)
    ensures
        r@ == json_text_of(*v),
{
    v.to_string()
}

/// Reads a JSON value: a string, then its text parsed by serde_json. The
/// bytes consumed are those of the string.
pub fn read_json(buf: &[u8]) -> (r: Result<(serde_json::Value, usize), ReadingError>)
    ensures
        match string_read(buf@) {
            Err(k) => r matches Err(e) && e.kind() == k,
            Ok((s, n)) => if json_text_valid(s) {
                r matches Ok((v, m)) && json_parse(s) == Some(v) && m == n
            } else {
                r matches Err(ReadingError::Serde(_))
            },
        },
{
    let (text, n) = match String::read_from(buf) {
        Ok(x) => x,
        Err(e) => return Err(e),
    };
    match json_from_str(text.as_str()) {
        Ok(v) => Ok((v, n)),
        Err(e) => Err(ReadingError::Serde(json_error_text(&e))),
    }
}

/// Writes a JSON value: its text, as a string: its length and its UTF-8
/// bytes, or nothing and an error if it is too long.
pub fn write_json(value: &serde_json::Value, buf: &mut Vec<u8>) -> (r: Result<(), WritingError>)
    ensures
        match string_write(json_text_of(*value)) {
            Ok(b) => r is Ok && final(buf)@ == old(buf)@ + b,
            Err(p) => r matches Err(WritingError::Message(_)) && final(buf)@ == old(buf)@ + p,
        },
{
    let text = json_text(value);
    text.write_to(buf)
}

/// What `write_json` writes reads back as the value's text: `read_json` on
/// those bytes, whatever follows them, gives serde_json's parse of that text
/// and consumes exactly the bytes written.
pub proof fn lemma_json_reads_back(v: serde_json::Value, rest: Seq<u8>)
    requires
        string_write(json_text_of(v)) is Ok,
    ensures
        string_read(string_write(json_text_of(v))->Ok_0 + rest) == Ok::<(Seq<char>, nat), crate::error::ReadErrorKind>(
            (json_text_of(v), string_write(json_text_of(v))->Ok_0.len()),
        ),
{
    <String as Serializable>::lemma_roundtrip(json_text_of(v), rest);
}

} // verus!
