//! Sequences of values: arrays preceded by their length, sets of ids, and
//! values that are either an id or given in full.

use crate::bytes::tail;
use crate::error::{ReadErrorKind, ReadingError, WritingError};
use crate::serial::{Lengthable, Serializable};
use crate::varint::{varint_bytes, varint_read, VarInt};
use vstd::prelude::*;

verus! {

/// What reading `count` values in a row gives, starting at index `start` of
/// `data`: their models and the index where the last one ends.
pub open spec fn read_many<V: Serializable>(data: Seq<u8>, start: nat, count: nat) -> Result<
    (Seq<V::V>, nat),
    ReadErrorKind,
>
    decreases count,
{
    if count == 0 {
        Ok((Seq::empty(), start))
    } else {
        match read_many::<V>(data, start, (count - 1) as nat) {
            Err(k) => Err(k),
            Ok((items, pos)) => match V::spec_read(data.subrange(pos as int, data.len() as int)) {
                Err(k) => Err(k),
                Ok((v, n)) => Ok((items.push(v), pos + n)),
            },
        }
    }
}

/// What writing values in a row appends: all their bytes, or those up to
/// and including the part that the first failing value wrote.
pub open spec fn write_many<V: Serializable>(items: Seq<V::V>) -> Result<Seq<u8>, Seq<u8>>
    decreases items.len(),
{
    if items.len() == 0 {
        Ok(Seq::empty())
    } else {
        match write_many::<V>(items.drop_last()) {
            Err(p) => Err(p),
            Ok(p) => match V::spec_write(items.last()) {
                Ok(b) => Ok(p + b),
                Err(b) => Err(p + b),
            },
        }
    }
}

/// Reading in a row ends within the bytes, at or after where it started.
pub proof fn lemma_read_many_len<V: Serializable>(data: Seq<u8>, start: nat, count: nat)
    requires
        start <= data.len(),
    ensures
        read_many::<V>(data, start, count) matches Ok((items, pos)) ==> start <= pos <= data.len()
            && items.len() == count,
    decreases count,
{
    if count > 0 {
        lemma_read_many_len::<V>(data, start, (count - 1) as nat);
        if let Ok((items, pos)) = read_many::<V>(data, start, (count - 1) as nat) {
            V::lemma_read_len(data.subrange(pos as int, data.len() as int));
        }
    }
}

/// Once reading in a row fails, reading more values fails the same way.
pub proof fn lemma_read_many_err<V: Serializable>(data: Seq<u8>, start: nat, c: nat, count: nat)
    requires
        c <= count,
        read_many::<V>(data, start, c) is Err,
    ensures
        read_many::<V>(data, start, count) == read_many::<V>(data, start, c),
    decreases count - c,
{
    if c < count {
        lemma_read_many_err::<V>(data, start, c, (count - 1) as nat);
    }
}

/// Once writing in a row fails, writing more values fails the same way.
pub proof fn lemma_write_many_err<V: Serializable>(items: Seq<V::V>, c: nat)
    requires
        c <= items.len(),
        write_many::<V>(items.take(c as int)) is Err,
    ensures
        write_many::<V>(items) == write_many::<V>(items.take(c as int)),
    decreases items.len() - c,
{
    if c < items.len() {
        assert(items.drop_last().take(c as int) =~= items.take(c as int));
        lemma_write_many_err::<V>(items.drop_last(), c);
    } else {
        assert(items.take(c as int) =~= items);
    }
}

/// When writing in a row succeeds, it is the writing of the first `k` values
/// followed by the writing of the others.
pub proof fn lemma_write_many_split<V: Serializable>(items: Seq<V::V>, k: nat)
    requires
        k <= items.len(),
        write_many::<V>(items) is Ok,
    ensures
        write_many::<V>(items.take(k as int)) is Ok,
        write_many::<V>(items.skip(k as int)) is Ok,
        write_many::<V>(items)->Ok_0 == write_many::<V>(items.take(k as int))->Ok_0 + write_many::<
            V,
        >(items.skip(k as int))->Ok_0,
    decreases items.len(),
{
    if k == items.len() {
        assert(items.take(k as int) =~= items);
        assert(items.skip(k as int) =~= Seq::<V::V>::empty());
        assert(write_many::<V>(items)->Ok_0 + Seq::<u8>::empty() =~= write_many::<V>(items)->Ok_0);
    } else {
        let init = items.drop_last();
        lemma_write_many_split::<V>(init, k);
        assert(items.take(k as int) =~= init.take(k as int));
        let s = items.skip(k as int);
        assert(s.drop_last() =~= init.skip(k as int));
        assert(s.last() == items.last());
        let a = write_many::<V>(init.take(k as int))->Ok_0;
        let b = write_many::<V>(init.skip(k as int))->Ok_0;
        let c = V::spec_write(items.last())->Ok_0;
        assert(a + b + c =~= a + (b + c));
    }
}

/// Writing one value in a row is writing that value.
pub proof fn lemma_write_many_one<V: Serializable>(x: V::V)
    ensures
        write_many::<V>(seq![x]) == (match V::spec_write(x) {
            Ok(b) => Ok::<Seq<u8>, Seq<u8>>(b),
            Err(b) => Err::<Seq<u8>, Seq<u8>>(b),
        }),
{
    assert(seq![x].drop_last() =~= Seq::<V::V>::empty());
    assert(seq![x].last() == x);
    assert(write_many::<V>(Seq::<V::V>::empty()) == Ok::<Seq<u8>, Seq<u8>>(Seq::empty()));
    assert(Seq::<u8>::empty() + V::spec_write(x)->Ok_0 =~= V::spec_write(x)->Ok_0);
    assert(Seq::<u8>::empty() + V::spec_write(x)->Err_0 =~= V::spec_write(x)->Err_0);
}

/// The values, and the bytes after them, for which reading in a row gives
/// back what writing in a row wrote: each value reads back when followed by
/// the bytes of the values after it and then `rest`.
pub open spec fn roundtrips_many<V: Serializable>(items: Seq<V::V>, rest: Seq<u8>) -> bool {
    forall|j: int|
        0 <= j < items.len() ==> V::spec_roundtrips(
            #[trigger] items[j],
            write_many::<V>(items.skip(j as int + 1))->Ok_0 + rest,
        )
}

/// Reading back values that were written in a row, after `prefix`.
pub proof fn lemma_read_many_roundtrip<V: Serializable>(
    items: Seq<V::V>,
    prefix: Seq<u8>,
    rest: Seq<u8>,
    k: nat,
)
    requires
        k <= items.len(),
        write_many::<V>(items) is Ok,
        roundtrips_many::<V>(items, rest),
    ensures
        write_many::<V>(items.take(k as int)) is Ok,
        read_many::<V>(prefix + write_many::<V>(items)->Ok_0 + rest, prefix.len(), k) == Ok::<
            (Seq<V::V>, nat),
            ReadErrorKind,
        >((items.take(k as int), prefix.len() + write_many::<V>(items.take(k as int))->Ok_0.len())),
    decreases k,
{
    let data = prefix + write_many::<V>(items)->Ok_0 + rest;
    if k == 0 {
        assert(items.take(0) =~= Seq::<V::V>::empty());
    } else {
        let j = (k - 1) as nat;
        lemma_read_many_roundtrip::<V>(items, prefix, rest, j);
        lemma_write_many_split::<V>(items, j);
        let wj = write_many::<V>(items.take(j as int))->Ok_0;
        let sj = items.skip(j as int);
        lemma_write_many_split::<V>(sj, 1);
        assert(sj.take(1) =~= seq![items[j as int]]);
        assert(sj.skip(1) =~= items.skip(j as int + 1));
        lemma_write_many_one::<V>(items[j as int]);
        let bj = V::spec_write(items[j as int])->Ok_0;
        let after = write_many::<V>(items.skip(j as int + 1))->Ok_0;
        let pos = prefix.len() + wj.len();
        assert(data =~= (prefix + wj) + (bj + after + rest));
        assert(data.subrange(pos as int, data.len() as int) =~= bj + (after + rest));
        V::lemma_roundtrip(items[j as int], after + rest);
        lemma_write_many_split::<V>(items, k);
        let tk = items.take(k as int);
        lemma_write_many_split::<V>(tk, j);
        assert(tk.take(j as int) =~= items.take(j as int));
        assert(tk.skip(j as int) =~= seq![items[j as int]]);
        assert(items.take(j as int).push(items[j as int]) =~= tk);
    }
}

/// The models of a vector's items grow by the model of what is pushed.
pub proof fn lemma_push_deep_view<V: DeepView>(before: Seq<V::V>, after: Vec<V>, old_vec: Vec<V>, v: V)
    requires
        old_vec.deep_view() == before,
        after@ == old_vec@.push(v),
    ensures
        after.deep_view() == before.push(v.deep_view()),
{
    assert(after.deep_view() =~= before.push(v.deep_view()));
}

/// Items preceded by their count, written as a VarInt.
#[derive(Debug, Clone)]
pub struct PrefixedArray<V: Serializable> {
    pub data: Vec<V>,
}

impl<V: Serializable> View for PrefixedArray<V> {
    type V = Seq<V::V>;

    open spec fn view(&self) -> Seq<V::V> {
        self.data.deep_view()
    }
}

impl<V: Serializable> DeepView for PrefixedArray<V> {
    type V = Seq<V::V>;

    open spec fn deep_view(&self) -> Seq<V::V> {
        self.data.deep_view()
    }
}

impl<V: Serializable> PrefixedArray<V> {
    pub fn new(data: Vec<V>) -> (r: Self)
        ensures
            r.data@ == data@,
    {
        PrefixedArray { data }
    }
}

/// What reading an array gives: its count as a VarInt, then that many items.
pub open spec fn prefixed_array_read<V: Serializable>(data: Seq<u8>) -> Result<
    (Seq<V::V>, nat),
    ReadErrorKind,
> {
    match varint_read(data) {
        Err(k) => Err(k),
        Ok((len, n)) => read_many::<V>(data, n, len as usize as nat),
    }
}

/// What writing an array appends: its count as a VarInt, then its items.
pub open spec fn prefixed_array_write<V: Serializable>(items: Seq<V::V>) -> Result<
    Seq<u8>,
    Seq<u8>,
> {
    let prefix = varint_bytes(items.len() as usize as i32);
    match write_many::<V>(items) {
        Ok(p) => Ok(prefix + p),
        Err(p) => Err(prefix + p),
    }
}

impl<V: Serializable> Serializable for PrefixedArray<V> {
    open spec fn spec_read(data: Seq<u8>) -> Result<(Seq<V::V>, nat), ReadErrorKind> {
        prefixed_array_read::<V>(data)
    }

    open spec fn spec_write(v: Seq<V::V>) -> Result<Seq<u8>, Seq<u8>> {
        prefixed_array_write::<V>(v)
    }

    open spec fn spec_writable(v: Seq<V::V>) -> bool {
        forall|j: int| 0 <= j < v.len() ==> V::spec_writable(#[trigger] v[j])
    }

    /// The count fits in a VarInt, and each item reads back.
    open spec fn spec_roundtrips(v: Seq<V::V>, rest: Seq<u8>) -> bool {
        &&& v.len() <= i32::MAX
        &&& roundtrips_many::<V>(v, rest)
    }

    proof fn lemma_read_len(data: Seq<u8>) {
        VarInt::lemma_read_len(data);
        if let Ok((len, n)) = varint_read(data) {
            lemma_read_many_len::<V>(data, n, len as usize as nat);
        }
    }

    proof fn lemma_roundtrip(v: Seq<V::V>, rest: Seq<u8>) {
        let len = v.len() as usize as i32;
        let prefix = varint_bytes(len);
        let w = write_many::<V>(v)->Ok_0;
        VarInt::lemma_roundtrip(len, w + rest);
        assert(prefix + w + rest =~= prefix + (w + rest));
        lemma_read_many_roundtrip::<V>(v, prefix, rest, v.len());
        assert(v.take(v.len() as int) =~= v);
    }

    fn read_from(buf: &[u8]) -> (res: Result<(Self, usize), ReadingError>) {
        let (len_prefix, n) = match VarInt::read_from(buf) {
            Ok(r) => r,
            Err(e) => return Err(e),
        };
        proof {
            VarInt::lemma_read_len(buf@);
        }
        let len = len_prefix.into_len();
        let mut data: Vec<V> = Vec::new();
        let mut pos: usize = n;
        let mut i: usize = 0;
        proof {
            assert(data.deep_view() =~= Seq::<V::V>::empty());
        }
        while i < len
            invariant
                i <= len,
                n <= pos <= buf@.len(),
                len == len_prefix.0 as usize,
                varint_read(buf@) == Ok::<(i32, nat), ReadErrorKind>((len_prefix.0, n as nat)),
                read_many::<V>(buf@, n as nat, i as nat) == Ok::<(Seq<V::V>, nat), ReadErrorKind>(
                    (data.deep_view(), pos as nat),
                ),
            decreases len - i,
        {
            let rest = tail(buf, pos);
            let (v, k) = match V::read_from(rest) {
                Ok(r) => r,
                Err(e) => {
                    proof {
                        lemma_read_many_err::<V>(buf@, n as nat, (i + 1) as nat, len as nat);
                    }
                    return Err(e);
                },
            };
            proof {
                V::lemma_read_len(rest@);
            }
            let ghost before = data.deep_view();
            let ghost old_vec = data;
            data.push(v);
            proof {
                lemma_push_deep_view(before, data, old_vec, v);
            }
            pos = pos + k;
            i = i + 1;
        }
        Ok((PrefixedArray { data }, pos))
    }

    fn write_to(&self, buf: &mut Vec<u8>) -> (res: Result<(), WritingError>) {
        let len = self.data.len();
        let ghost items = self.data.deep_view();
        let prefix = VarInt::from_len(len);
        let _ = prefix.write_to(buf);
        let ghost start = buf@;
        let mut i: usize = 0;
        proof {
            assert(items.take(0) =~= Seq::<V::V>::empty());
            assert(buf@ =~= start + Seq::<u8>::empty());
        }
        while i < len
            invariant
                i <= len,
                len == self.data@.len(),
                items == self.data.deep_view(),
                Self::spec_writable(items),
                start == old(buf)@ + varint_bytes(len as i32),
                write_many::<V>(items.take(i as int)) is Ok,
                buf@ == start + write_many::<V>(items.take(i as int))->Ok_0,
            decreases len - i,
        {
            let ghost before = buf@;
            let item = &self.data[i];
            assert(item.deep_view() == items[i as int]);
            let r = item.write_to(buf);
            proof {
                let t = items.take(i as int + 1);
                assert(t.drop_last() =~= items.take(i as int));
                assert(t.last() == items[i as int]);
            }
            match r {
                Ok(()) => {},
                Err(e) => {
                    proof {
                        lemma_write_many_err::<V>(items, (i + 1) as nat);
                        assert(items.take(len as int) =~= items);
                        let p = write_many::<V>(items.take(i as int))->Ok_0;
                        let b = V::spec_write(items[i as int])->Err_0;
                        assert(buf@ =~= old(buf)@ + (varint_bytes(len as i32) + (p + b)));
                    }
                    return Err(e);
                },
            }
            proof {
                let p = write_many::<V>(items.take(i as int))->Ok_0;
                let b = V::spec_write(items[i as int])->Ok_0;
                assert(buf@ =~= start + (p + b));
            }
            i = i + 1;
        }
        proof {
            assert(items.take(len as int) =~= items);
            assert(buf@ =~= old(buf)@ + (varint_bytes(len as i32) + write_many::<V>(items)->Ok_0));
        }
        Ok(())
    }
}

/// A set of ids: named by a tag, or listed one by one.
#[derive(Debug)]
pub enum IdSet {
    ByTag { tag_name: String },
    IdArray(Vec<VarInt>),
}

/// The model of an [`IdSet`].
pub enum IdSetView {
    ByTag(Seq<char>),
    IdArray(Seq<i32>),
}

impl View for IdSet {
    type V = IdSetView;

    open spec fn view(&self) -> IdSetView {
        self.deep_view()
    }
}

impl DeepView for IdSet {
    type V = IdSetView;

    open spec fn deep_view(&self) -> IdSetView {
        match self {
            IdSet::ByTag { tag_name } => IdSetView::ByTag(tag_name@),
            IdSet::IdArray(ids) => IdSetView::IdArray(ids.deep_view()),
        }
    }
}

/// `v - 1`, wrapping around at the smallest `i32`.
pub open spec fn pred_wrapping(v: i32) -> i32 {
    if v == i32::MIN {
        i32::MAX
    } else {
        (v - 1) as i32
    }
}

/// `v + 1`, wrapping around at the largest `i32`.
pub open spec fn succ_wrapping(v: i32) -> i32 {
    if v == i32::MAX {
        i32::MIN
    } else {
        (v + 1) as i32
    }
}

/// The number of ids that a type tag `ty` other than zero announces: one
/// less than the tag, none if that is negative.
pub open spec fn id_count(ty: i32) -> nat {
    if pred_wrapping(ty) < 0 {
        0
    } else {
        pred_wrapping(ty) as nat
    }
}

/// What reading an id set gives: a VarInt tag, then a tag name if it is zero,
/// else as many VarInt ids as one less than the tag.
pub open spec fn id_set_read(data: Seq<u8>) -> Result<(IdSetView, nat), ReadErrorKind> {
    match varint_read(data) {
        Err(k) => Err(k),
        Ok((ty, n)) => if ty == 0 {
            match crate::prims::string_read(data.subrange(n as int, data.len() as int)) {
                Ok((tag, m)) => Ok((IdSetView::ByTag(tag), n + m)),
                Err(k) => Err(k),
            }
        } else {
            match read_many::<VarInt>(data, n, id_count(ty)) {
                Ok((ids, end)) => Ok((IdSetView::IdArray(ids), end)),
                Err(k) => Err(k),
            }
        },
    }
}

/// What writing an id set appends: the tag zero and the tag name, or one
/// more than the number of ids and then the ids.
pub open spec fn id_set_write(v: IdSetView) -> Result<Seq<u8>, Seq<u8>> {
    match v {
        IdSetView::ByTag(tag) => match crate::prims::string_write(tag) {
            Ok(b) => Ok(varint_bytes(0) + b),
            Err(b) => Err(varint_bytes(0) + b),
        },
        IdSetView::IdArray(ids) => Ok(
            varint_bytes(succ_wrapping(ids.len() as i32)) + write_many::<VarInt>(ids)->Ok_0,
        ),
    }
}

/// Writing VarInts in a row never fails.
pub proof fn lemma_write_many_varints(ids: Seq<i32>)
    ensures
        write_many::<VarInt>(ids) is Ok,
    decreases ids.len(),
{
    if ids.len() > 0 {
        lemma_write_many_varints(ids.drop_last());
    }
}

impl Serializable for IdSet {
    open spec fn spec_read(data: Seq<u8>) -> Result<(IdSetView, nat), ReadErrorKind> {
        id_set_read(data)
    }

    open spec fn spec_write(v: IdSetView) -> Result<Seq<u8>, Seq<u8>> {
        id_set_write(v)
    }

    /// The count of ids plus one must not overflow.
    open spec fn spec_writable(v: IdSetView) -> bool {
        v matches IdSetView::IdArray(ids) ==> (ids.len() as i32) != i32::MAX
    }

    /// There are fewer ids than the largest `i32`.
    open spec fn spec_roundtrips(v: IdSetView, rest: Seq<u8>) -> bool {
        v matches IdSetView::IdArray(ids) ==> ids.len() < i32::MAX
    }

    proof fn lemma_read_len(data: Seq<u8>) {
        VarInt::lemma_read_len(data);
        if let Ok((ty, n)) = varint_read(data) {
            if ty == 0 {
                <String as Serializable>::lemma_read_len(data.subrange(n as int, data.len() as int));
            } else {
                lemma_read_many_len::<VarInt>(data, n, id_count(ty));
            }
        }
    }

    proof fn lemma_roundtrip(v: IdSetView, rest: Seq<u8>) {
        match v {
            IdSetView::ByTag(tag) => {
                let b = crate::prims::string_write(tag)->Ok_0;
                VarInt::lemma_roundtrip(0, b + rest);
                let data = varint_bytes(0) + b + rest;
                assert(data =~= varint_bytes(0) + (b + rest));
                let n = varint_bytes(0).len();
                assert(data.subrange(n as int, data.len() as int) =~= b + rest);
                <String as Serializable>::lemma_roundtrip(tag, rest);
            },
            IdSetView::IdArray(ids) => {
                lemma_write_many_varints(ids);
                let ty = succ_wrapping(ids.len() as i32);
                let w = write_many::<VarInt>(ids)->Ok_0;
                VarInt::lemma_roundtrip(ty, w + rest);
                assert(varint_bytes(ty) + w + rest =~= varint_bytes(ty) + (w + rest));
                assert(id_count(ty) == ids.len());
                lemma_read_many_roundtrip::<VarInt>(ids, varint_bytes(ty), rest, ids.len());
                assert(ids.take(ids.len() as int) =~= ids);
            },
        }
    }

    fn read_from(buf: &[u8]) -> (res: Result<(Self, usize), ReadingError>) {
        let (ty, n) = match VarInt::read_from(buf) {
            Ok(r) => r,
            Err(e) => return Err(e),
        };
        proof {
            VarInt::lemma_read_len(buf@);
        }
        let ty = ty.0;
        if ty == 0 {
            let rest = tail(buf, n);
            let (tag_name, m) = match String::read_from(rest) {
                Ok(r) => r,
                Err(e) => return Err(e),
            };
            proof {
                <String as Serializable>::lemma_read_len(rest@);
            }
            Ok((IdSet::ByTag { tag_name }, n + m))
        } else {
            let mut ids: Vec<VarInt> = Vec::new();
            let len = ty.wrapping_sub(1);
            let mut pos: usize = n;
            let mut i: i32 = 0;
            proof {
                assert(ids.deep_view() =~= Seq::<i32>::empty());
            }
            while i < len
                invariant
                    0 <= i,
                    len == pred_wrapping(ty),
                    i <= len || i == 0,
                    n <= pos <= buf@.len(),
                    varint_read(buf@) == Ok::<(i32, nat), ReadErrorKind>((ty, n as nat)),
                    ty != 0,
                    read_many::<VarInt>(buf@, n as nat, i as nat) == Ok::<
                        (Seq<i32>, nat),
                        ReadErrorKind,
                    >((ids.deep_view(), pos as nat)),
                decreases len - i,
            {
                let rest = tail(buf, pos);
                let (v, k) = match VarInt::read_from(rest) {
                    Ok(r) => r,
                    Err(e) => {
                        proof {
                            lemma_read_many_err::<VarInt>(
                                buf@,
                                n as nat,
                                (i + 1) as nat,
                                id_count(ty),
                            );
                        }
                        return Err(e);
                    },
                };
                proof {
                    VarInt::lemma_read_len(rest@);
                }
                let ghost before = ids.deep_view();
                let ghost old_vec = ids;
                ids.push(v);
                proof {
                    lemma_push_deep_view(before, ids, old_vec, v);
                }
                pos = pos + k;
                i = i + 1;
            }
            Ok((IdSet::IdArray(ids), pos))
        }
    }

    fn write_to(&self, buf: &mut Vec<u8>) -> (res: Result<(), WritingError>) {
        match self {
            IdSet::ByTag { tag_name } => {
                let _ = VarInt(0).write_to(buf);
                let ghost mid = buf@;
                let r = tag_name.write_to(buf);
                proof {
                    match crate::prims::string_write(tag_name@) {
                        Ok(b) => {
                            assert(buf@ =~= old(buf)@ + (varint_bytes(0) + b));
                        },
                        Err(b) => {
                            assert(buf@ =~= old(buf)@ + (varint_bytes(0) + b));
                        },
                    }
                }
                r
            },
            IdSet::IdArray(ids) => {
                let ghost items = ids.deep_view();
                let len = ids.len();
                let _ = VarInt(len as i32 + 1).write_to(buf);
                let ghost start = buf@;
                let mut i: usize = 0;
                proof {
                    lemma_write_many_varints(items);
                    assert(items.take(0) =~= Seq::<i32>::empty());
                    assert(buf@ =~= start + Seq::<u8>::empty());
                }
                while i < len
                    invariant
                        i <= len,
                        len == ids@.len(),
                        items == ids.deep_view(),
                        start == old(buf)@ + varint_bytes(succ_wrapping(len as i32)),
                        buf@ == start + write_many::<VarInt>(items.take(i as int))->Ok_0,
                    decreases len - i,
                {
                    let id = &ids[i];
                    let _ = id.write_to(buf);
                    proof {
                        let t = items.take(i as int + 1);
                        assert(t.drop_last() =~= items.take(i as int));
                        lemma_write_many_varints(items.take(i as int));
                        let p = write_many::<VarInt>(items.take(i as int))->Ok_0;
                        assert(buf@ =~= start + (p + varint_bytes(items[i as int])));
                    }
                    i = i + 1;
                }
                proof {
                    assert(items.take(len as int) =~= items);
                    assert(buf@ =~= old(buf)@ + (varint_bytes(succ_wrapping(len as i32))
                        + write_many::<VarInt>(items)->Ok_0));
                }
                Ok(())
            },
        }
    }
}

/// Either an id, or the value given in full.
#[derive(Debug)]
pub enum IdOrX<T: Serializable> {
    Id(VarInt),
    X(T),
}

/// The model of an [`IdOrX`].
pub enum IdOrXView<V> {
    Id(i32),
    X(V),
}

impl<T: Serializable> View for IdOrX<T> {
    type V = IdOrXView<T::V>;

    open spec fn view(&self) -> IdOrXView<T::V> {
        self.deep_view()
    }
}

impl<T: Serializable> DeepView for IdOrX<T> {
    type V = IdOrXView<T::V>;

    open spec fn deep_view(&self) -> IdOrXView<T::V> {
        match self {
            IdOrX::Id(id) => IdOrXView::Id(id.0),
            IdOrX::X(x) => IdOrXView::X(x.deep_view()),
        }
    }
}

/// What reading an id-or-value gives: a VarInt; zero means the value follows,
/// anything else is one more than the id.
pub open spec fn id_or_x_read<T: Serializable>(data: Seq<u8>) -> Result<
    (IdOrXView<T::V>, nat),
    ReadErrorKind,
> {
    match varint_read(data) {
        Err(k) => Err(k),
        Ok((id, n)) => if id == 0 {
            match T::spec_read(data.subrange(n as int, data.len() as int)) {
                Ok((x, m)) => Ok((IdOrXView::X(x), n + m)),
                Err(k) => Err(k),
            }
        } else {
            Ok((IdOrXView::Id(pred_wrapping(id)), n))
        },
    }
}

/// What writing an id-or-value appends: one more than the id, or zero and
/// the value.
pub open spec fn id_or_x_write<T: Serializable>(v: IdOrXView<T::V>) -> Result<Seq<u8>, Seq<u8>> {
    match v {
        IdOrXView::Id(id) => Ok(varint_bytes(succ_wrapping(id))),
        IdOrXView::X(x) => match T::spec_write(x) {
            Ok(b) => Ok(varint_bytes(0) + b),
            Err(b) => Err(varint_bytes(0) + b),
        },
    }
}

impl<T: Serializable> Serializable for IdOrX<T> {
    open spec fn spec_read(data: Seq<u8>) -> Result<(IdOrXView<T::V>, nat), ReadErrorKind> {
        id_or_x_read::<T>(data)
    }

    open spec fn spec_write(v: IdOrXView<T::V>) -> Result<Seq<u8>, Seq<u8>> {
        id_or_x_write::<T>(v)
    }

    /// One more than the id must not overflow.
    open spec fn spec_writable(v: IdOrXView<T::V>) -> bool {
        match v {
            IdOrXView::Id(id) => id != i32::MAX,
            IdOrXView::X(x) => T::spec_writable(x),
        }
    }

    /// The id `-1` is written as zero, which reads as a value in full.
    open spec fn spec_roundtrips(v: IdOrXView<T::V>, rest: Seq<u8>) -> bool {
        match v {
            IdOrXView::Id(id) => id != -1,
            IdOrXView::X(x) => T::spec_roundtrips(x, rest),
        }
    }

    proof fn lemma_read_len(data: Seq<u8>) {
        VarInt::lemma_read_len(data);
        if let Ok((id, n)) = varint_read(data) {
            T::lemma_read_len(data.subrange(n as int, data.len() as int));
        }
    }

    proof fn lemma_roundtrip(v: IdOrXView<T::V>, rest: Seq<u8>) {
        match v {
            IdOrXView::Id(id) => {
                VarInt::lemma_roundtrip(succ_wrapping(id), rest);
            },
            IdOrXView::X(x) => {
                let b = T::spec_write(x)->Ok_0;
                VarInt::lemma_roundtrip(0, b + rest);
                let data = varint_bytes(0) + b + rest;
                assert(data =~= varint_bytes(0) + (b + rest));
                let n = varint_bytes(0).len();
                assert(data.subrange(n as int, data.len() as int) =~= b + rest);
                T::lemma_roundtrip(x, rest);
            },
        }
    }

    fn read_from(buf: &[u8]) -> (res: Result<(Self, usize), ReadingError>) {
        let (id, n) = match VarInt::read_from(buf) {
            Ok(r) => r,
            Err(e) => return Err(e),
        };
        proof {
            VarInt::lemma_read_len(buf@);
        }
        if id.0 == 0 {
            let rest = tail(buf, n);
            let (x, m) = match T::read_from(rest) {
                Ok(r) => r,
                Err(e) => return Err(e),
            };
            proof {
                T::lemma_read_len(rest@);
            }
            Ok((IdOrX::X(x), n + m))
        } else {
            Ok((IdOrX::Id(VarInt(id.0.wrapping_sub(1))), n))
        }
    }

    fn write_to(&self, buf: &mut Vec<u8>) -> (res: Result<(), WritingError>) {
        match self {
            IdOrX::Id(id) => {
                let _ = VarInt(id.0 + 1).write_to(buf);
                Ok(())
            },
            IdOrX::X(val) => {
                let _ = VarInt(0).write_to(buf);
                let r = val.write_to(buf);
                proof {
                    match T::spec_write(val.deep_view()) {
                        Ok(b) => {
                            assert(buf@ =~= old(buf)@ + (varint_bytes(0) + b));
                        },
                        Err(b) => {
                            assert(buf@ =~= old(buf)@ + (varint_bytes(0) + b));
                        },
                    }
                }
                r
            },
        }
    }
}

} // verus!
