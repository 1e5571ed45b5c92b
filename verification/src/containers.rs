//! Values built from others: length-prefixed and fixed-length byte strings,
//! optional values, boxes and triples.

use crate::bytes::{append_bytes, tail};
use crate::error::{ReadErrorKind, ReadingError, WritingError};
use crate::prims::{bool_byte, min_nat};
use crate::serial::{Lengthable, Serializable};
use core::marker::PhantomData;
use vstd::prelude::*;

verus! {

/// Bytes preceded by their count, written as an `L`.
pub struct LenPrefixedBytes<L: Lengthable> {
    pub data: Vec<u8>,
    /// The type of the count; it holds nothing.
    pub _phantom_l: PhantomData<L>,
}

impl<L: Lengthable> View for LenPrefixedBytes<L> {
    type V = Seq<u8>;

    open spec fn view(&self) -> Seq<u8> {
        self.data@
    }
}

impl<L: Lengthable> DeepView for LenPrefixedBytes<L> {
    type V = Seq<u8>;

    open spec fn deep_view(&self) -> Seq<u8> {
        self.data@
    }
}

impl<L: Lengthable> LenPrefixedBytes<L> {
    pub fn new(data: Vec<u8>) -> (r: Self)
        ensures
            r.deep_view() == data@,
            r@ == data@,
    {
        LenPrefixedBytes { data, _phantom_l: PhantomData }
    }

    /// How the value shows in debugging output: the number of its bytes.
    pub fn describe(&self) -> (r: String)
        ensures
            r@ == "LenPrefixedBytes ("@ + crate::bytes::decimal(self@.len()) + " bytes)"@,
    {
        let s = crate::bytes::message_with_number("LenPrefixedBytes (", self.data.len());
        crate::text::concat_str(s, " bytes)")
    }
}

impl<L: Lengthable> vstd::std_specs::convert::FromSpecImpl<Vec<u8>> for LenPrefixedBytes<L> {
    open spec fn obeys_from_spec() -> bool {
        false
    }

    open spec fn from_spec(v: Vec<u8>) -> LenPrefixedBytes<L> {
        LenPrefixedBytes::<L>::new_spec(v)
    }
}

impl<L: Lengthable> LenPrefixedBytes<L> {
    /// The value that holds `data`.
    pub closed spec fn new_spec(data: Vec<u8>) -> LenPrefixedBytes<L> {
        LenPrefixedBytes { data, _phantom_l: PhantomData }
    }
}

impl<L: Lengthable> From<Vec<u8>> for LenPrefixedBytes<L> {
    fn from(data: Vec<u8>) -> (r: Self)
        ensures
            r.deep_view() == data@,
            r@ == data@,
    {
        LenPrefixedBytes { data, _phantom_l: PhantomData }
    }
}

/// What reading `L`-prefixed bytes from `data` gives: the prefix, then the
/// bytes it counts, which must all be there.
pub open spec fn len_prefixed_read<L: Lengthable>(data: Seq<u8>) -> Result<(Seq<u8>, nat), ReadErrorKind> {
    match L::spec_read(data) {
        Err(k) => Err(k),
        Ok((lv, n)) => {
            let m = L::spec_into_len(lv) as nat;
            if n + m > data.len() {
                Err(ReadErrorKind::Io)
            } else {
                Ok((data.subrange(n as int, (n + m) as int), n + m))
            }
        },
    }
}

/// What writing `L`-prefixed bytes appends: the count as an `L`, then the
/// bytes.
pub open spec fn len_prefixed_write<L: Lengthable>(d: Seq<u8>) -> Result<Seq<u8>, Seq<u8>> {
    match L::spec_write(L::spec_from_len(d.len() as usize)) {
        Ok(p) => Ok(p + d),
        Err(p) => Err(p),
    }
}

impl<L: Lengthable> Serializable for LenPrefixedBytes<L> {
    open spec fn spec_read(data: Seq<u8>) -> Result<(Seq<u8>, nat), ReadErrorKind> {
        len_prefixed_read::<L>(data)
    }

    open spec fn spec_write(v: Seq<u8>) -> Result<Seq<u8>, Seq<u8>> {
        len_prefixed_write::<L>(v)
    }

    open spec fn spec_writable(v: Seq<u8>) -> bool {
        L::spec_writable(L::spec_from_len(v.len() as usize))
    }

    /// The count survives its trip through `L`, and the prefix reads back.
    open spec fn spec_roundtrips(v: Seq<u8>, rest: Seq<u8>) -> bool {
        &&& v.len() <= usize::MAX
        &&& L::spec_into_len(L::spec_from_len(v.len() as usize)) == v.len()
        &&& L::spec_roundtrips(L::spec_from_len(v.len() as usize), v + rest)
    }

    proof fn lemma_read_len(data: Seq<u8>) {
        L::lemma_read_len(data);
    }

    proof fn lemma_roundtrip(v: Seq<u8>, rest: Seq<u8>) {
        let lv = L::spec_from_len(v.len() as usize);
        let p = L::spec_write(lv)->Ok_0;
        L::lemma_roundtrip(lv, v + rest);
        let data = p + v + rest;
        assert(data =~= p + (v + rest));
        assert(data.subrange(p.len() as int, (p.len() + v.len()) as int) =~= v);
    }

    fn read_from(buf: &[u8]) -> (res: Result<(Self, usize), ReadingError>) {
        let (prefix, n) = match L::read_from(buf) {
            Ok(r) => r,
            Err(e) => return Err(e),
        };
        proof {
            L::lemma_read_len(buf@);
        }
        let len = prefix.into_len();
        let remaining = buf.len() - n;
        if len > remaining {
            return Err(crate::error::eof_error());
        }
        let data = vstd::slice::slice_to_vec(vstd::slice::slice_subrange(buf, n, n + len));
        Ok((LenPrefixedBytes { data, _phantom_l: PhantomData }, n + len))
    }

    fn write_to(&self, buf: &mut Vec<u8>) -> (res: Result<(), WritingError>) {
        let len = self.data.len();
        let prefix = L::from_len(len);
        match prefix.write_to(buf) {
            Ok(()) => {},
            Err(e) => return Err(e),
        }
        append_bytes(buf, self.data.as_slice());
        proof {
            assert(buf@ =~= old(buf)@ + (L::spec_write(L::spec_from_len(len))->Ok_0 + self.data@));
        }
        Ok(())
    }
}

/// What reading an optional value gives: a boolean, then the value if it is
/// true.
pub open spec fn option_read<T: Serializable>(data: Seq<u8>) -> Result<(Option<T::V>, nat), ReadErrorKind> {
    if data.len() < 1 {
        Err(ReadErrorKind::Io)
    } else if data[0] != 0 {
        match T::spec_read(data.subrange(1, data.len() as int)) {
            Ok((v, n)) => Ok((Some(v), n + 1)),
            Err(k) => Err(k),
        }
    } else {
        Ok((None, 1))
    }
}

/// What writing an optional value appends: whether it is there, then the
/// value.
pub open spec fn option_write<T: Serializable>(v: Option<T::V>) -> Result<Seq<u8>, Seq<u8>> {
    match v {
        None => Ok(seq![bool_byte(false)]),
        Some(x) => match T::spec_write(x) {
            Ok(b) => Ok(seq![bool_byte(true)] + b),
            Err(b) => Err(seq![bool_byte(true)] + b),
        },
    }
}

impl<T: Serializable> Serializable for Option<T> {
    open spec fn spec_read(data: Seq<u8>) -> Result<(Option<T::V>, nat), ReadErrorKind> {
        option_read::<T>(data)
    }

    open spec fn spec_write(v: Option<T::V>) -> Result<Seq<u8>, Seq<u8>> {
        option_write::<T>(v)
    }

    open spec fn spec_writable(v: Option<T::V>) -> bool {
        v matches Some(x) ==> T::spec_writable(x)
    }

    open spec fn spec_roundtrips(v: Option<T::V>, rest: Seq<u8>) -> bool {
        v matches Some(x) ==> T::spec_roundtrips(x, rest)
    }

    proof fn lemma_read_len(data: Seq<u8>) {
        if data.len() >= 1 {
            T::lemma_read_len(data.subrange(1, data.len() as int));
        }
    }

    proof fn lemma_roundtrip(v: Option<T::V>, rest: Seq<u8>) {
        match v {
            None => {
                assert((seq![bool_byte(false)] + rest)[0] == 0);
            },
            Some(x) => {
                let b = T::spec_write(x)->Ok_0;
                T::lemma_roundtrip(x, rest);
                let data = seq![bool_byte(true)] + b + rest;
                assert(data[0] == 1);
                assert(data.subrange(1, data.len() as int) =~= b + rest);
            },
        }
    }

    fn read_from(buf: &[u8]) -> (res: Result<(Self, usize), ReadingError>) {
        let (present, _) = match bool::read_from(buf) {
            Ok(r) => r,
            Err(e) => return Err(e),
        };
        if present {
            let rest = tail(buf, 1);
            let (v, n) = match T::read_from(rest) {
                Ok(r) => r,
                Err(e) => return Err(e),
            };
            proof {
                T::lemma_read_len(rest@);
            }
            Ok((Some(v), n + 1))
        } else {
            Ok((None, 1))
        }
    }

    fn write_to(&self, buf: &mut Vec<u8>) -> (res: Result<(), WritingError>) {
        let present = self.is_some();
        let _ = present.write_to(buf);
        match self {
            Some(val) => {
                let r = val.write_to(buf);
                proof {
                    let b = match T::spec_write(val.deep_view()) {
                        Ok(b) => b,
                        Err(b) => b,
                    };
                    assert(buf@ =~= old(buf)@ + (seq![bool_byte(true)] + b));
                }
                r
            },
            None => {
                assert(buf@ =~= old(buf)@ + seq![bool_byte(false)]);
                Ok(())
            },
        }
    }
}

impl<T: Serializable> Serializable for Box<T> {
    open spec fn spec_read(data: Seq<u8>) -> Result<(T::V, nat), ReadErrorKind> {
        T::spec_read(data)
    }

    open spec fn spec_write(v: T::V) -> Result<Seq<u8>, Seq<u8>> {
        T::spec_write(v)
    }

    open spec fn spec_writable(v: T::V) -> bool {
        T::spec_writable(v)
    }

    open spec fn spec_roundtrips(v: T::V, rest: Seq<u8>) -> bool {
        T::spec_roundtrips(v, rest)
    }

    proof fn lemma_read_len(data: Seq<u8>) {
        T::lemma_read_len(data);
    }

    proof fn lemma_roundtrip(v: T::V, rest: Seq<u8>) {
        T::lemma_roundtrip(v, rest);
    }

    fn read_from(buf: &[u8]) -> (res: Result<(Self, usize), ReadingError>) {
        match T::read_from(buf) {
            Ok((v, n)) => Ok((Box::new(v), n)),
            Err(e) => Err(e),
        }
    }

    fn write_to(&self, buf: &mut Vec<u8>) -> (res: Result<(), WritingError>) {
        (**self).write_to(buf)
    }
}

/// What reading three values in a row gives.
pub open spec fn triple_read<A: Serializable, B: Serializable, C: Serializable>(
    data: Seq<u8>,
) -> Result<((A::V, B::V, C::V), nat), ReadErrorKind> {
    match A::spec_read(data) {
        Err(k) => Err(k),
        Ok((a, na)) => match B::spec_read(data.subrange(na as int, data.len() as int)) {
            Err(k) => Err(k),
            Ok((b, nb)) => match C::spec_read(data.subrange((na + nb) as int, data.len() as int)) {
                Err(k) => Err(k),
                Ok((c, nc)) => Ok(((a, b, c), na + nb + nc)),
            },
        },
    }
}

/// What writing three values in a row appends.
pub open spec fn triple_write<A: Serializable, B: Serializable, C: Serializable>(
    v: (A::V, B::V, C::V),
) -> Result<Seq<u8>, Seq<u8>> {
    match A::spec_write(v.0) {
        Err(pa) => Err(pa),
        Ok(pa) => match B::spec_write(v.1) {
            Err(pb) => Err(pa + pb),
            Ok(pb) => match C::spec_write(v.2) {
                Err(pc) => Err(pa + pb + pc),
                Ok(pc) => Ok(pa + pb + pc),
            },
        },
    }
}

impl<A: Serializable, B: Serializable, C: Serializable> Serializable for (A, B, C) {
    open spec fn spec_read(data: Seq<u8>) -> Result<((A::V, B::V, C::V), nat), ReadErrorKind> {
        triple_read::<A, B, C>(data)
    }

    open spec fn spec_write(v: (A::V, B::V, C::V)) -> Result<Seq<u8>, Seq<u8>> {
        triple_write::<A, B, C>(v)
    }

    open spec fn spec_writable(v: (A::V, B::V, C::V)) -> bool {
        A::spec_writable(v.0) && B::spec_writable(v.1) && C::spec_writable(v.2)
    }

    open spec fn spec_roundtrips(v: (A::V, B::V, C::V), rest: Seq<u8>) -> bool {
        &&& C::spec_roundtrips(v.2, rest)
        &&& (C::spec_write(v.2) is Ok ==> B::spec_roundtrips(v.1, C::spec_write(v.2)->Ok_0 + rest))
        &&& (B::spec_write(v.1) is Ok && C::spec_write(v.2) is Ok ==> A::spec_roundtrips(
            v.0,
            B::spec_write(v.1)->Ok_0 + C::spec_write(v.2)->Ok_0 + rest,
        ))
    }

    proof fn lemma_read_len(data: Seq<u8>) {
        A::lemma_read_len(data);
        if let Ok((a, na)) = A::spec_read(data) {
            let d1 = data.subrange(na as int, data.len() as int);
            B::lemma_read_len(d1);
            if let Ok((b, nb)) = B::spec_read(d1) {
                C::lemma_read_len(data.subrange((na + nb) as int, data.len() as int));
            }
        }
    }

    proof fn lemma_roundtrip(v: (A::V, B::V, C::V), rest: Seq<u8>) {
        let pa = A::spec_write(v.0)->Ok_0;
        let pb = B::spec_write(v.1)->Ok_0;
        let pc = C::spec_write(v.2)->Ok_0;
        let data = pa + pb + pc + rest;
        A::lemma_roundtrip(v.0, pb + pc + rest);
        assert(data =~= pa + (pb + pc + rest));
        B::lemma_roundtrip(v.1, pc + rest);
        assert(data.subrange(pa.len() as int, data.len() as int) =~= pb + (pc + rest));
        C::lemma_roundtrip(v.2, rest);
        assert(data.subrange((pa.len() + pb.len()) as int, data.len() as int) =~= pc + rest);
    }

    fn read_from(buf: &[u8]) -> (res: Result<(Self, usize), ReadingError>) {
        let (a, na) = match A::read_from(buf) {
            Ok(r) => r,
            Err(e) => return Err(e),
        };
        proof {
            A::lemma_read_len(buf@);
        }
        let rest_b = tail(buf, na);
        let (b, nb) = match B::read_from(rest_b) {
            Ok(r) => r,
            Err(e) => return Err(e),
        };
        proof {
            B::lemma_read_len(rest_b@);
        }
        let rest_c = tail(buf, na + nb);
        let (c, nc) = match C::read_from(rest_c) {
            Ok(r) => r,
            Err(e) => return Err(e),
        };
        proof {
            C::lemma_read_len(rest_c@);
        }
        Ok(((a, b, c), na + nb + nc))
    }

    fn write_to(&self, buf: &mut Vec<u8>) -> (res: Result<(), WritingError>) {
        let ghost start = buf@;
        match self.0.write_to(buf) {
            Ok(()) => {},
            Err(e) => return Err(e),
        }
        let ghost after_a = buf@;
        match self.1.write_to(buf) {
            Ok(()) => {},
            Err(e) => {
                assert(buf@ =~= start + (A::spec_write(self.0.deep_view())->Ok_0
                    + B::spec_write(self.1.deep_view())->Err_0));
                return Err(e);
            },
        }
        let r = self.2.write_to(buf);
        proof {
            let pa = A::spec_write(self.0.deep_view())->Ok_0;
            let pb = B::spec_write(self.1.deep_view())->Ok_0;
            match C::spec_write(self.2.deep_view()) {
                Ok(pc) => {
                    assert(buf@ =~= start + (pa + pb + pc));
                },
                Err(pc) => {
                    assert(buf@ =~= start + (pa + pb + pc));
                },
            }
        }
        r
    }
}

/// Exactly `L` bytes, with no prefix.
#[derive(Debug)]
pub struct StaticLenBytes<const L: usize> {
    data: Vec<u8>,
}

impl<const L: usize> View for StaticLenBytes<L> {
    type V = Seq<u8>;

    closed spec fn view(&self) -> Seq<u8> {
        self.data@
    }
}

impl<const L: usize> DeepView for StaticLenBytes<L> {
    type V = Seq<u8>;

    closed spec fn deep_view(&self) -> Seq<u8> {
        self.data@
    }
}

impl<const L: usize> Serializable for StaticLenBytes<L> {
    /// As many as `L` of the bytes that are there.
    open spec fn spec_read(data: Seq<u8>) -> Result<(Seq<u8>, nat), ReadErrorKind> {
        let m = min_nat(L as nat, data.len());
        Ok((data.take(m as int), m))
    }

    /// The bytes, if there are exactly `L` of them.
    open spec fn spec_write(v: Seq<u8>) -> Result<Seq<u8>, Seq<u8>> {
        if v.len() != L {
            Err(Seq::empty())
        } else {
            Ok(v)
        }
    }

    open spec fn spec_writable(v: Seq<u8>) -> bool {
        true
    }

    open spec fn spec_roundtrips(v: Seq<u8>, rest: Seq<u8>) -> bool {
        true
    }

    proof fn lemma_read_len(data: Seq<u8>) {
    }

    proof fn lemma_roundtrip(v: Seq<u8>, rest: Seq<u8>) {
        assert((v + rest).take(v.len() as int) =~= v);
    }

    fn read_from(buf: &[u8]) -> (res: Result<(Self, usize), ReadingError>) {
        let m = if L < buf.len() {
            L
        } else {
            buf.len()
        };
        let data = vstd::slice::slice_to_vec(vstd::slice::slice_subrange(buf, 0, m));
        proof {
            assert(data@ =~= buf@.take(m as int));
        }
        Ok((StaticLenBytes { data }, m))
    }

    fn write_to(&self, buf: &mut Vec<u8>) -> (res: Result<(), WritingError>)
        ensures
            res matches Err(WritingError::Message(m)) ==> m@ == "wrong static len bytes length: "@
                + crate::bytes::decimal(L as nat),
    {
        if self.data.len() != L {
            assert(buf@ =~= old(buf)@ + Seq::<u8>::empty());
            return Err(
                WritingError::Message(
                    crate::bytes::message_with_number("wrong static len bytes length: ", L),
                ),
            );
        }
        append_bytes(buf, self.data.as_slice());
        Ok(())
    }
}

/// All the bytes that are left, with no prefix.
pub struct UnsizedBytes(pub Vec<u8>);

impl View for UnsizedBytes {
    type V = Seq<u8>;

    open spec fn view(&self) -> Seq<u8> {
        self.0@
    }
}

impl DeepView for UnsizedBytes {
    type V = Seq<u8>;

    open spec fn deep_view(&self) -> Seq<u8> {
        self.0@
    }
}

impl UnsizedBytes {
    /// How the value shows in debugging output: the number of its bytes.
    pub fn describe(&self) -> (r: String)
        ensures
            r@ == "UnsizedBytes ("@ + crate::bytes::decimal(self.0@.len()) + " bytes)"@,
    {
        let s = crate::bytes::message_with_number("UnsizedBytes (", self.0.len());
        crate::text::concat_str(s, " bytes)")
    }
}

impl Serializable for UnsizedBytes {
    /// All of the bytes.
    open spec fn spec_read(data: Seq<u8>) -> Result<(Seq<u8>, nat), ReadErrorKind> {
        Ok((data, data.len()))
    }

    open spec fn spec_write(v: Seq<u8>) -> Result<Seq<u8>, Seq<u8>> {
        Ok(v)
    }

    open spec fn spec_writable(v: Seq<u8>) -> bool {
        true
    }

    /// Reading takes everything, so nothing may follow.
    open spec fn spec_roundtrips(v: Seq<u8>, rest: Seq<u8>) -> bool {
        rest.len() == 0
    }

    proof fn lemma_read_len(data: Seq<u8>) {
    }

    proof fn lemma_roundtrip(v: Seq<u8>, rest: Seq<u8>) {
        assert(v + rest =~= v);
    }

    fn read_from(buf: &[u8]) -> (res: Result<(Self, usize), ReadingError>) {
        let bytes = vstd::slice::slice_to_vec(buf);
        Ok((UnsizedBytes(bytes), buf.len()))
    }

    fn write_to(&self, buf: &mut Vec<u8>) -> (res: Result<(), WritingError>) {
        append_bytes(buf, self.0.as_slice());
        Ok(())
    }
}

} // verus!
