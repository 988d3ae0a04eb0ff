//! Sequences: a varint count followed by the elements in order.
use crate::decoder::{DecodeContext, DecodeError};
use crate::meta_data::Metadata;
use crate::prefab_loader::PrefabLoader;
use crate::serialization::{decoded, Codec, DeSerialization, Serialization, WireTypeTrait};
use crate::unsigned::{
    decode_varint, lemma_decode_varint_len, lemma_varint_len_u64, lemma_varint_round_trip,
    spec_decode_varint, spec_varint, EncodeSize,
};
use crate::wire_type::{fixed_width, is_fixed, WireType};
use vstd::prelude::*;

verus! {

/// The encodings of the elements of `s`, one after the other.
pub open spec fn encode_all<T: Serialization>(s: Seq<T>) -> Seq<u8>
    decreases s.len(),
{
    if s.len() == 0 {
        Seq::empty()
    } else {
        encode_all(s.drop_last()) + s.last().spec_encode()
    }
}

/// The deep views of the elements of `s`.
pub open spec fn deep_seq<T: DeepView>(s: Seq<T>) -> Seq<T::V> {
    Seq::new(s.len(), |i: int| s[i].deep_view())
}

/// How `n` values of `T` are read one after the other from the front of `s`:
/// their deep views and the number of bytes read, or the first error.
pub open spec fn decode_n<T: DeSerialization>(s: Seq<u8>, n: nat) -> Result<
    (Seq<T::V>, nat),
    DecodeError,
>
    decreases n,
{
    if n == 0 {
        Ok((Seq::empty(), 0))
    } else {
        match decode_n::<T>(s, (n - 1) as nat) {
            Ok((vs, c)) => match T::spec_decode(s.subrange(c as int, s.len() as int)) {
                Ok((v, c2)) => Ok((vs.push(v), c + c2)),
                Err(e) => Err(e),
            },
            Err(e) => Err(e),
        }
    }
}

pub proof fn lemma_decode_n_len<T: DeSerialization>(s: Seq<u8>, n: nat)
    ensures
        decode_n::<T>(s, n) is Ok ==> decode_n::<T>(s, n)->Ok_0.1 <= s.len()
            && decode_n::<T>(s, n)->Ok_0.0.len() == n,
    decreases n,
{
    if n > 0 {
        lemma_decode_n_len::<T>(s, (n - 1) as nat);
        if decode_n::<T>(s, (n - 1) as nat) is Ok {
            let c = decode_n::<T>(s, (n - 1) as nat)->Ok_0.1;
            T::lemma_decode_len(s.subrange(c as int, s.len() as int));
        }
    }
}

pub proof fn lemma_encode_all_split<T: Serialization>(s: Seq<T>, i: int)
    requires
        0 <= i <= s.len(),
    ensures
        encode_all(s) == encode_all(s.subrange(0, i)) + encode_all(s.subrange(i, s.len() as int)),
    decreases s.len(),
{
    if i == s.len() {
        assert(s.subrange(0, i) == s);
        assert(s.subrange(i, s.len() as int).len() == 0);
        assert(encode_all(s) + Seq::<u8>::empty() == encode_all(s));
    } else {
        let d = s.drop_last();
        lemma_encode_all_split(d, i);
        assert(d.subrange(0, i) == s.subrange(0, i));
        let t = s.subrange(i, s.len() as int);
        assert(t.drop_last() == d.subrange(i, d.len() as int));
        assert(t.last() == s.last());
    }
}

pub proof fn lemma_encode_all_len<T: Serialization>(s: Seq<T>)
    ensures
        encode_all(s).len() >= s.len(),
        is_fixed(T::spec_wire_type()) ==> encode_all(s).len() == s.len() * fixed_width(
            T::spec_wire_type(),
        ),
    decreases s.len(),
{
    if s.len() > 0 {
        lemma_encode_all_len(s.drop_last());
        s.last().lemma_encode_len();
        assert((s.len() - 1) * fixed_width(T::spec_wire_type()) + fixed_width(T::spec_wire_type())
            == s.len() * fixed_width(T::spec_wire_type())) by (nonlinear_arith);
    }
}

proof fn lemma_encode_all_single<T: Serialization>(s: Seq<T>, j: int)
    requires
        0 <= j < s.len(),
    ensures
        encode_all(s.subrange(j, j + 1)) == s[j].spec_encode(),
{
    let t = s.subrange(j, j + 1);
    assert(t.drop_last() == Seq::<T>::empty());
    assert(t.last() == s[j]);
    assert(encode_all(Seq::<T>::empty()) == Seq::<u8>::empty());
    assert(Seq::<u8>::empty() + s[j].spec_encode() == s[j].spec_encode());
}

/// Once reading some value fails, reading more values fails the same way.
proof fn lemma_decode_n_err<T: DeSerialization>(s: Seq<u8>, i: nat, m: nat)
    requires
        i <= m,
        decode_n::<T>(s, i) is Err,
    ensures
        decode_n::<T>(s, m) == decode_n::<T>(s, i),
    decreases m,
{
    if i < m {
        lemma_decode_n_err::<T>(s, i, (m - 1) as nat);
    }
}

pub proof fn lemma_encode_all_prefix_step<T: Serialization>(s: Seq<T>, i: int)
    requires
        0 <= i < s.len(),
    ensures
        encode_all(s.subrange(0, i + 1)) == encode_all(s.subrange(0, i)) + s[i].spec_encode(),
{
    let t = s.subrange(0, i + 1);
    assert(t.drop_last() == s.subrange(0, i));
    assert(t.last() == s[i]);
}

/// Reading `n` values of `T` back from their encodings, with anything
/// after them, gives their deep views and reads exactly the encodings.
pub proof fn lemma_decode_n_round_trip<T: Codec>(v: Seq<T>, rest: Seq<u8>, i: nat)
    requires
        i <= v.len(),
        forall|j: int| 0 <= j < v.len() ==> (#[trigger] v[j]).spec_encode().len() <= usize::MAX,
    ensures
        decode_n::<T>(encode_all(v) + rest, i) == Ok::<(Seq<T::V>, nat), DecodeError>(
            (deep_seq(v.subrange(0, i as int)), encode_all(v.subrange(0, i as int)).len()),
        ),
    decreases i,
{
    let s = encode_all(v) + rest;
    if i == 0 {
        assert(deep_seq(v.subrange(0, 0)) == Seq::<T::V>::empty());
    } else {
        let k = (i - 1) as int;
        lemma_decode_n_round_trip(v, rest, k as nat);
        let c = encode_all(v.subrange(0, k)).len();
        lemma_encode_all_split(v, k);
        let tail = v.subrange(k, v.len() as int);
        lemma_encode_all_split(tail, 1);
        lemma_encode_all_single(tail, 0);
        assert(tail.subrange(0, 1)[0] == v[k]);
        let after = encode_all(tail.subrange(1, tail.len() as int)) + rest;
        assert(s == encode_all(v.subrange(0, k)) + (v[k].spec_encode() + after));
        assert(s.subrange(c as int, s.len() as int) == v[k].spec_encode() + after);
        T::lemma_round_trip(&v[k], after);
        lemma_encode_all_prefix_step(v, k);
        assert(deep_seq(v.subrange(0, k)).push(v[k].deep_view()) == deep_seq(
            v.subrange(0, k + 1),
        ));
    }
}

impl<T> WireTypeTrait for Vec<T> {
    open spec fn spec_wire_type() -> WireType {
        WireType::LengthDelimited
    }

    fn wire_type() -> (r: WireType) {
        WireType::LengthDelimited
    }
}

/// Whether `m` holds what `encode_slice` reads for the elements `s`:
/// elements of a fixed wire type read nothing; the others each have their
/// node at their index.
pub open spec fn slice_recorded<T: Serialization>(s: Seq<T>, m: Metadata) -> bool {
    is_fixed(T::spec_wire_type()) || (m.children@.len() >= s.len() && forall|i: int|
        0 <= i < s.len() ==> (#[trigger] s[i]).spec_recorded(m.children@[i]))
}

/// Writes the count of `value`, then each element.
pub fn encode_slice<T: Serialization>(value: &[T], out: &mut Vec<u8>, meta_data: &Metadata)
    requires
        slice_recorded(value@, *meta_data),
    ensures
        final(out)@ == old(out)@ + spec_varint(value@.len()) + encode_all(value@),
{
    let n = value.len();
    n.encode_raw(out);
    let fixed = T::wire_type().is_fixed_type();
    let mut i: usize = 0;
    while i < n
        invariant
            n == value@.len(),
            i <= n,
            fixed == is_fixed(T::spec_wire_type()),
            slice_recorded(value@, *meta_data),
            out@ == old(out)@ + spec_varint(n as nat) + encode_all(value@.subrange(0, i as int)),
        decreases n - i,
    {
        proof {
            lemma_encode_all_prefix_step(value@, i as int);
            value@[i as int].lemma_encode_len();
        }
        if fixed {
            value[i].encode(out, meta_data);
        } else {
            value[i].encode(out, meta_data.child(i));
        }
        i = i + 1;
    }
    assert(value@.subrange(0, n as int) == value@);
}

/// Records the size of `value` (its count and its elements) and, for
/// elements that are not of a fixed wire type, each element's node.
pub fn record_slice<T: Serialization>(value: &[T], meta_data: &mut Metadata)
    requires
        spec_varint(value@.len()).len() + encode_all(value@).len() <= usize::MAX,
    ensures
        final(meta_data).size == spec_varint(value@.len()).len() + encode_all(value@).len(),
        slice_recorded(value@, *final(meta_data)),
{
    let n = value.len();
    proof {
        lemma_encode_all_len(value@);
        lemma_varint_len_u64(n as nat);
    }
    let mut size = n.size();
    if T::wire_type().is_fixed_type() {
        let width: usize = match T::wire_type() {
            WireType::Bits8 => 1,
            WireType::Bits16 => 2,
            WireType::Bits32 => 4,
            WireType::Bits64 => 8,
            _ => 16,
        };
        assert(n * width <= encode_all(value@).len());
        size = size + n * width;
    } else {
        let mut i: usize = 0;
        while i < n
            invariant
                n == value@.len(),
                i <= n,
                !is_fixed(T::spec_wire_type()),
                size == spec_varint(n as nat).len() + encode_all(value@.subrange(0, i as int)).len(),
                spec_varint(n as nat).len() + encode_all(value@).len() <= usize::MAX,
                meta_data.children@.len() >= i,
                forall|j: int|
                    0 <= j < i ==> (#[trigger] value@[j]).spec_recorded(meta_data.children@[j]),
            decreases n - i,
        {
            proof {
                lemma_encode_all_split(value@, i as int + 1);
                lemma_encode_all_prefix_step(value@, i as int);
            }
            let ghost before = meta_data.children@;
            {
                let child = meta_data.get(i);
                value[i].record(child);
            }
            size = size + meta_data.children[i].size;
            assert forall|j: int| 0 <= j < i + 1 implies (#[trigger] value@[j]).spec_recorded(
                meta_data.children@[j],
            ) by {
                if j < i {
                    assert(meta_data.children@[j] == before[j]);
                }
            }
            i = i + 1;
        }
        assert(value@.subrange(0, n as int) == value@);
    }
    meta_data.size = size;
}

/// How a sequence is read from the front of `s`: its count, then that
/// many elements.
pub open spec fn spec_decode_seq<T: DeSerialization>(s: Seq<u8>) -> Result<
    (Seq<T::V>, nat),
    DecodeError,
> {
    match spec_decode_varint(s, usize::MAX as nat) {
        Ok((n, k)) => match decode_n::<T>(s.subrange(k as int, s.len() as int), n) {
            Ok((vs, c)) => Ok((vs, k + c)),
            Err(e) => Err(e),
        },
        Err(e) => Err(e),
    }
}

proof fn lemma_decode_seq_len<T: DeSerialization>(s: Seq<u8>)
    ensures
        spec_decode_seq::<T>(s) is Ok ==> spec_decode_seq::<T>(s)->Ok_0.1 <= s.len(),
        spec_decode_seq::<T>(s) is Ok ==> spec_decode_seq::<T>(s)->Ok_0.0.len()
            == spec_decode_varint(s, usize::MAX as nat)->Ok_0.0,
{
    lemma_decode_varint_len(s, usize::MAX as nat);
    if spec_decode_varint(s, usize::MAX as nat) is Ok {
        let (n, k) = spec_decode_varint(s, usize::MAX as nat)->Ok_0;
        lemma_decode_n_len::<T>(s.subrange(k as int, s.len() as int), n);
    }
}

/// Reads a count, then that many elements, into a `Vec`.
pub fn decode_seq<T: DeSerialization, L: PrefabLoader>(
    buf: &[u8],
    pos: &mut usize,
    ctx: &DecodeContext<L>,
) -> (r: Result<Vec<T>, DecodeError>)
    requires
        *old(pos) <= ctx.bound() <= buf@.len(),
    ensures
        *old(pos) <= *final(pos) <= ctx.bound(),
        spec_decode_seq::<T>(buf@.subrange(*old(pos) as int, ctx.bound() as int)) == decoded(
            r,
            *final(pos) - *old(pos),
        ),
{
    let bound = ctx.bounds_checker.bound;
    let counts = decode_varint(buf, pos, bound, usize::MAX as u64)?;
    let counts = counts as usize;
    let start: usize = *pos;
    let ghost s = buf@.subrange(start as int, bound as int);
    let ghost full = buf@.subrange(*old(pos) as int, bound as int);
    let ghost k = (start - *old(pos)) as nat;
    assert(s == full.subrange(k as int, full.len() as int));
    let mut vec: Vec<T> = Vec::new();
    assert(vec.deep_view() == Seq::<T::V>::empty());
    let mut i: usize = 0;
    while i < counts
        invariant
            spec_decode_varint(full, usize::MAX as nat) == Ok::<(nat, nat), DecodeError>(
                (counts as nat, k),
            ),
            s == full.subrange(k as int, full.len() as int),
            full == buf@.subrange(*old(pos) as int, bound as int),
            k == start - *old(pos),
            *old(pos) <= start <= *pos <= bound,
            bound == ctx.bound(),
            bound <= buf@.len(),
            s == buf@.subrange(start as int, bound as int),
            i <= counts,
            vec@.len() == i,
            decode_n::<T>(s, i as nat) == Ok::<(Seq<T::V>, nat), DecodeError>(
                (vec.deep_view(), (*pos - start) as nat),
            ),
        decreases counts - i,
    {
        let ghost before = *pos;
        assert(buf@.subrange(before as int, bound as int) == s.subrange(
            before - start,
            s.len() as int,
        ));
        let element = match T::decode(buf, pos, ctx) {
            Ok(element) => element,
            Err(e) => {
                proof {
                    assert(decode_n::<T>(s, (i + 1) as nat) == Err::<(Seq<T::V>, nat), DecodeError>(e));
                    lemma_decode_n_err::<T>(s, (i + 1) as nat, counts as nat);
                }
                return Err(e);
            },
        };
        let ghost old_vec = vec.deep_view();
        vec.push(element);
        assert(vec.deep_view() == old_vec.push(element.deep_view()));
        i = i + 1;
    }
    Ok(vec)
}

/// Reading a sequence back from its count and its elements' encodings,
/// with anything after them, gives the elements and reads exactly those bytes.
pub proof fn lemma_seq_round_trip<T: Codec>(v: Seq<T>, rest: Seq<u8>)
    requires
        spec_varint(v.len()).len() + encode_all(v).len() <= usize::MAX,
    ensures
        spec_decode_seq::<T>(spec_varint(v.len()) + encode_all(v) + rest) == Ok::<
            (Seq<T::V>, nat),
            DecodeError,
        >((deep_seq(v), spec_varint(v.len()).len() + encode_all(v).len())),
{
    let n = v.len();
    lemma_encode_all_len(v);
    let body = encode_all(v) + rest;
    lemma_varint_round_trip(n, body);
    let s = spec_varint(n) + encode_all(v) + rest;
    assert(s == spec_varint(n) + body);
    let k = spec_varint(n).len();
    assert(s.subrange(k as int, s.len() as int) == body);
    assert forall|j: int| 0 <= j < v.len() implies (#[trigger] v[j]).spec_encode().len()
        <= usize::MAX by {
        lemma_encode_all_split(v, j);
        let tail = v.subrange(j, v.len() as int);
        lemma_encode_all_split(tail, 1);
        lemma_encode_all_single(tail, 0);
        assert(tail[0] == v[j]);
    }
    lemma_decode_n_round_trip(v, rest, n);
    assert(v.subrange(0, n as int) == v);
}

impl<T: Serialization> Serialization for Vec<T> {
    open spec fn spec_encode(&self) -> Seq<u8> {
        spec_varint(self@.len()) + encode_all(self@)
    }

    open spec fn spec_recorded(&self, m: Metadata) -> bool {
        slice_recorded(self@, m)
    }

    proof fn lemma_encode_len(&self) {
        crate::unsigned::lemma_varint_len_pos(self@.len());
    }

    fn record(&self, meta_data: &mut Metadata) {
        record_slice(self.as_slice(), meta_data);
    }

    fn encode(&self, out: &mut Vec<u8>, meta_data: &Metadata) {
        encode_slice(self.as_slice(), out, meta_data);
    }
}

impl<T: DeSerialization> DeSerialization for Vec<T> {
    open spec fn spec_decode(s: Seq<u8>) -> Result<(Seq<T::V>, nat), DecodeError> {
        spec_decode_seq::<T>(s)
    }

    proof fn lemma_decode_len(s: Seq<u8>) {
        lemma_decode_seq_len::<T>(s);
    }

    fn decode<L: PrefabLoader>(buf: &[u8], pos: &mut usize, ctx: &DecodeContext<L>) -> (r: Result<
        Vec<T>,
        DecodeError,
    >) {
        decode_seq(buf, pos, ctx)
    }
}

impl<T: Codec> Codec for Vec<T> {
    proof fn lemma_round_trip(v: &Self, rest: Seq<u8>) {
        lemma_seq_round_trip(v@, rest);
    }
}

/// Relies on `<[T; N]>::try_from(Vec<T>)`: it hands back the elements as
/// an array exactly when there are `N` of them.
#[verifier::external_body]
fn vec_into_array<T, const N: usize>(v: Vec<T>) -> (r: Option<[T; N]>)
    ensures
        r is Some <==> v@.len() == N,
        r is Some ==> r->Some_0@ == v@,
{
    <[T; N]>::try_from(v).ok()
}

impl<T, const N: usize> WireTypeTrait for [T; N] {
    open spec fn spec_wire_type() -> WireType {
        WireType::LengthDelimited
    }

    fn wire_type() -> (r: WireType) {
        WireType::LengthDelimited
    }
}

impl<T: Serialization, const N: usize> Serialization for [T; N] {
    open spec fn spec_encode(&self) -> Seq<u8> {
        spec_varint(self@.len()) + encode_all(self@)
    }

    open spec fn spec_recorded(&self, m: Metadata) -> bool {
        slice_recorded(self@, m)
    }

    proof fn lemma_encode_len(&self) {
        crate::unsigned::lemma_varint_len_pos(self@.len());
    }

    fn record(&self, meta_data: &mut Metadata) {
        record_slice(self.as_slice(), meta_data);
    }

    fn encode(&self, out: &mut Vec<u8>, meta_data: &Metadata) {
        encode_slice(self.as_slice(), out, meta_data);
    }
}

impl<T: DeSerialization, const N: usize> DeSerialization for [T; N] {
    /// As a sequence; a count other than `N` is refused as `InvalidType`.
    open spec fn spec_decode(s: Seq<u8>) -> Result<(Seq<T::V>, nat), DecodeError> {
        match spec_decode_seq::<T>(s) {
            Ok((vs, c)) => if vs.len() == N {
                Ok((vs, c))
            } else {
                Err(DecodeError::InvalidType)
            },
            Err(e) => Err(e),
        }
    }

    proof fn lemma_decode_len(s: Seq<u8>) {
        lemma_decode_seq_len::<T>(s);
    }

    fn decode<L: PrefabLoader>(buf: &[u8], pos: &mut usize, ctx: &DecodeContext<L>) -> (r: Result<
        [T; N],
        DecodeError,
    >) {
        let ghost start = *pos;
        let v: Vec<T> = decode_seq(buf, pos, ctx)?;
        let ghost view = v.deep_view();
        match vec_into_array::<T, N>(v) {
            Some(array) => {
                assert(array.deep_view() == view);
                Ok(array)
            },
            None => Err(DecodeError::InvalidType),
        }
    }
}

impl<T: Codec, const N: usize> Codec for [T; N] {
    proof fn lemma_round_trip(v: &Self, rest: Seq<u8>) {
        lemma_seq_round_trip(v@, rest);
    }
}

} // verus!
