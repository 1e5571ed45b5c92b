//! The trait of values that have a wire format.

use crate::error::{ReadErrorKind, ReadingError, WritingError};
use vstd::prelude::*;

verus! {

/// A value with a wire format. Reading takes the bytes that start at the
/// front of a slice and tells how many it consumed; writing appends to a
/// vector.
pub trait Serializable: Sized + DeepView {
    /// What reading from `data` gives: the model of the value and the number
    /// of bytes consumed, or the kind of the failure.
    spec fn spec_read(data: Seq<u8>) -> Result<(Self::V, nat), ReadErrorKind>;

    /// What writing a value appends: all of its bytes on success, or the
    /// bytes appended before the failure.
    spec fn spec_write(v: Self::V) -> Result<Seq<u8>, Seq<u8>>;

    /// The values whose writing does not panic.
    spec fn spec_writable(v: Self::V) -> bool;

    /// The values, and the bytes that follow them, for which reading gives
    /// back what writing wrote.
    spec fn spec_roundtrips(v: Self::V, rest: Seq<u8>) -> bool;

    /// Reading never consumes more bytes than there are.
    proof fn lemma_read_len(data: Seq<u8>)
        ensures
            Self::spec_read(data) matches Ok((_, n)) ==> n <= data.len(),
    ;

    /// Reading the bytes that writing `v` appended, followed by `rest`, gives
    /// back `v` and consumes exactly those bytes.
    proof fn lemma_roundtrip(v: Self::V, rest: Seq<u8>)
        requires
            Self::spec_write(v) is Ok,
            Self::spec_roundtrips(v, rest),
        ensures
            Self::spec_read(Self::spec_write(v)->Ok_0 + rest) == Ok::<(Self::V, nat), ReadErrorKind>(
                (v, Self::spec_write(v)->Ok_0.len()),
            ),
    ;

    fn read_from(buf: &[u8]) -> (res: Result<(Self, usize), ReadingError>)
        ensures
            match res {
                Ok((v, n)) => Self::spec_read(buf@) == Ok::<(Self::V, nat), ReadErrorKind>(
                    (v.deep_view(), n as nat),
                ),
                Err(e) => Self::spec_read(buf@) == Err::<(Self::V, nat), ReadErrorKind>(e.kind()),
            },
    ;

    fn write_to(&self, buf: &mut Vec<u8>) -> (res: Result<(), WritingError>)
        requires
            Self::spec_writable(self.deep_view()),
        ensures
            match Self::spec_write(self.deep_view()) {
                Ok(b) => res is Ok && final(buf)@ == old(buf)@ + b,
                Err(p) => res matches Err(WritingError::Message(_)) && final(buf)@ == old(buf)@ + p,
            },
    ;
}

/// A value that can stand for a length: the prefix that tells how many
/// bytes or items follow.
pub trait Lengthable: Serializable {
    /// The value that stands for the length `val`.
    spec fn spec_from_len(val: usize) -> Self::V;

    /// The length that the value `v` stands for.
    spec fn spec_into_len(v: Self::V) -> usize;

    fn from_len(val: usize) -> (r: Self)
        ensures
            r.deep_view() == Self::spec_from_len(val),
    ;

    fn into_len(self) -> (r: usize)
        ensures
            r == Self::spec_into_len(self.deep_view()),
    ;
}

} // verus!
