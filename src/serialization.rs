//! The traits that encodable and decodable types implement.
use crate::decoder::{DecodeContext, DecodeError};
use crate::meta_data::Metadata;
use crate::prefab_loader::PrefabLoader;
use crate::signed::{spec_unzigzag, spec_zigzag, lemma_zigzag_involution, UnZigZag, ZigZag};
use crate::unsigned::{decode_varint, lemma_varint_round_trip, lemma_varint_len_u64, spec_decode_varint, spec_varint, EncodeSize};
use crate::wire_type::{fixed_width, is_fixed, WireType};
use vstd::prelude::*;

verus! {

/// The decode result `r` as the spec states it: the value's deep view and
/// the number of bytes read, or the error.
pub open spec fn decoded<T: DeepView>(r: Result<T, DecodeError>, read: int) -> Result<
    (T::V, nat),
    DecodeError,
> {
    match r {
        Ok(v) => Ok((v.deep_view(), read as nat)),
        Err(e) => Err(e),
    }
}

/// The wire type that a type's values carry.
pub trait WireTypeTrait {
    spec fn spec_wire_type() -> WireType;

    fn wire_type() -> (r: WireType)
        ensures
            r == Self::spec_wire_type(),
    ;
}

/// A type whose values can be encoded.
pub trait Serialization: WireTypeTrait + Sized {
    /// The bytes that `encode` writes for this value.
    spec fn spec_encode(&self) -> Seq<u8>;

    /// Whether `m` holds what `encode` reads for this value (the sizes of its parts).
    spec fn spec_recorded(&self, m: Metadata) -> bool;

    /// Every encoding is non-empty; one of a fixed wire type has that width
    /// and reads no recorded sizes; one of the varint wire type is a varint.
    proof fn lemma_encode_len(&self)
        ensures
            self.spec_encode().len() >= 1,
            Self::spec_wire_type() == WireType::Varint ==> exists|x: nat|
                self.spec_encode() == #[trigger] spec_varint(x),
            is_fixed(Self::spec_wire_type()) ==> self.spec_encode().len() == fixed_width(
                Self::spec_wire_type(),
            ),
            is_fixed(Self::spec_wire_type()) ==> forall|m: Metadata| self.spec_recorded(m),
    ;

    /// Stores in `meta_data` the size of the encoding and of its parts.
    fn record(&self, meta_data: &mut Metadata)
        requires
            self.spec_encode().len() <= usize::MAX,
        ensures
            final(meta_data).size == self.spec_encode().len(),
            self.spec_recorded(*final(meta_data)),
    ;

    /// Appends the encoding to `out`, reading the sizes that `record` stored.
    fn encode(&self, out: &mut Vec<u8>, meta_data: &Metadata)
        requires
            self.spec_recorded(*meta_data),
        ensures
            final(out)@ == old(out)@ + self.spec_encode(),
    ;
}

/// A type whose values can be decoded.
pub trait DeSerialization: WireTypeTrait + Sized + DeepView {
    /// What `decode` yields on `s`, the bytes from the cursor to the bound:
    /// the value's deep view and the number of bytes read, or the error.
    spec fn spec_decode(s: Seq<u8>) -> Result<(Self::V, nat), DecodeError>;

    /// Decoding reads no more than it is given.
    proof fn lemma_decode_len(s: Seq<u8>)
        ensures
            Self::spec_decode(s) is Ok ==> Self::spec_decode(s)->Ok_0.1 <= s.len(),
    ;

    /// Reads a value from `buf[*pos..ctx.bound()]` and moves `pos` past what it read.
    fn decode<L: PrefabLoader>(buf: &[u8], pos: &mut usize, ctx: &DecodeContext<L>) -> (r: Result<
        Self,
        DecodeError,
    >)
        requires
            *old(pos) <= ctx.bound() <= buf@.len(),
        ensures
            *old(pos) <= *final(pos) <= ctx.bound(),
            Self::spec_decode(buf@.subrange(*old(pos) as int, ctx.bound() as int)) == decoded(
                r,
                *final(pos) - *old(pos),
            ),
    ;
}

/// A type whose encoding decodes back to the value it came from.
pub trait Codec: Serialization + DeSerialization {
    /// Decoding the encoding of `v`, followed by any bytes, yields `v` and
    /// reads exactly its encoding.
    proof fn lemma_round_trip(v: &Self, rest: Seq<u8>)
        requires
            v.spec_encode().len() <= usize::MAX,
        ensures
            Self::spec_decode(v.spec_encode() + rest) == Ok::<(Self::V, nat), DecodeError>(
                (v.deep_view(), v.spec_encode().len()),
            ),
    ;
}

impl WireTypeTrait for u8 {
    open spec fn spec_wire_type() -> WireType {
        WireType::Varint
    }

    fn wire_type() -> (r: WireType) {
        WireType::Varint
    }
}

impl Serialization for u8 {
    open spec fn spec_encode(&self) -> Seq<u8> {
        spec_varint(*self as nat)
    }

    open spec fn spec_recorded(&self, m: Metadata) -> bool {
        true
    }

    proof fn lemma_encode_len(&self) {
        lemma_varint_len_u64(*self as nat);
        assert(self.spec_encode() == spec_varint(*self as nat));
    }

    fn record(&self, meta_data: &mut Metadata) {
        meta_data.size = self.size();
    }

    fn encode(&self, out: &mut Vec<u8>, meta_data: &Metadata) {
        self.encode_raw(out);
    }
}

impl DeSerialization for u8 {
    open spec fn spec_decode(s: Seq<u8>) -> Result<(u8, nat), DecodeError> {
        match spec_decode_varint(s, u8::MAX as nat) {
            Ok((v, n)) => Ok((v as u8, n)),
            Err(e) => Err(e),
        }
    }

    proof fn lemma_decode_len(s: Seq<u8>) {
        crate::unsigned::lemma_decode_varint_len(s, u8::MAX as nat);
    }

    fn decode<L: PrefabLoader>(buf: &[u8], pos: &mut usize, ctx: &DecodeContext<L>) -> (r: Result<
        u8,
        DecodeError,
    >) {
        let v = decode_varint(buf, pos, ctx.bounds_checker.bound, u8::MAX as u64)?;
        Ok(v as u8)
    }
}

impl Codec for u8 {
    proof fn lemma_round_trip(v: &Self, rest: Seq<u8>) {
        lemma_varint_round_trip(*v as nat, rest);
        assert(spec_decode_varint(v.spec_encode() + rest, u8::MAX as nat) == Ok::<(nat, nat), DecodeError>((*v as nat, v.spec_encode().len())));
    }
}

impl WireTypeTrait for u16 {
    open spec fn spec_wire_type() -> WireType {
        WireType::Varint
    }

    fn wire_type() -> (r: WireType) {
        WireType::Varint
    }
}

impl Serialization for u16 {
    open spec fn spec_encode(&self) -> Seq<u8> {
        spec_varint(*self as nat)
    }

    open spec fn spec_recorded(&self, m: Metadata) -> bool {
        true
    }

    proof fn lemma_encode_len(&self) {
        lemma_varint_len_u64(*self as nat);
        assert(self.spec_encode() == spec_varint(*self as nat));
    }

    fn record(&self, meta_data: &mut Metadata) {
        meta_data.size = self.size();
    }

    fn encode(&self, out: &mut Vec<u8>, meta_data: &Metadata) {
        self.encode_raw(out);
    }
}

impl DeSerialization for u16 {
    open spec fn spec_decode(s: Seq<u8>) -> Result<(u16, nat), DecodeError> {
        match spec_decode_varint(s, u16::MAX as nat) {
            Ok((v, n)) => Ok((v as u16, n)),
            Err(e) => Err(e),
        }
    }

    proof fn lemma_decode_len(s: Seq<u8>) {
        crate::unsigned::lemma_decode_varint_len(s, u16::MAX as nat);
    }

    fn decode<L: PrefabLoader>(buf: &[u8], pos: &mut usize, ctx: &DecodeContext<L>) -> (r: Result<
        u16,
        DecodeError,
    >) {
        let v = decode_varint(buf, pos, ctx.bounds_checker.bound, u16::MAX as u64)?;
        Ok(v as u16)
    }
}

impl Codec for u16 {
    proof fn lemma_round_trip(v: &Self, rest: Seq<u8>) {
        lemma_varint_round_trip(*v as nat, rest);
        assert(spec_decode_varint(v.spec_encode() + rest, u16::MAX as nat) == Ok::<(nat, nat), DecodeError>((*v as nat, v.spec_encode().len())));
    }
}

impl WireTypeTrait for u32 {
    open spec fn spec_wire_type() -> WireType {
        WireType::Varint
    }

    fn wire_type() -> (r: WireType) {
        WireType::Varint
    }
}

impl Serialization for u32 {
    open spec fn spec_encode(&self) -> Seq<u8> {
        spec_varint(*self as nat)
    }

    open spec fn spec_recorded(&self, m: Metadata) -> bool {
        true
    }

    proof fn lemma_encode_len(&self) {
        lemma_varint_len_u64(*self as nat);
        assert(self.spec_encode() == spec_varint(*self as nat));
    }

    fn record(&self, meta_data: &mut Metadata) {
        meta_data.size = self.size();
    }

    fn encode(&self, out: &mut Vec<u8>, meta_data: &Metadata) {
        self.encode_raw(out);
    }
}

impl DeSerialization for u32 {
    open spec fn spec_decode(s: Seq<u8>) -> Result<(u32, nat), DecodeError> {
        match spec_decode_varint(s, u32::MAX as nat) {
            Ok((v, n)) => Ok((v as u32, n)),
            Err(e) => Err(e),
        }
    }

    proof fn lemma_decode_len(s: Seq<u8>) {
        crate::unsigned::lemma_decode_varint_len(s, u32::MAX as nat);
    }

    fn decode<L: PrefabLoader>(buf: &[u8], pos: &mut usize, ctx: &DecodeContext<L>) -> (r: Result<
        u32,
        DecodeError,
    >) {
        let v = decode_varint(buf, pos, ctx.bounds_checker.bound, u32::MAX as u64)?;
        Ok(v as u32)
    }
}

impl Codec for u32 {
    proof fn lemma_round_trip(v: &Self, rest: Seq<u8>) {
        lemma_varint_round_trip(*v as nat, rest);
        assert(spec_decode_varint(v.spec_encode() + rest, u32::MAX as nat) == Ok::<(nat, nat), DecodeError>((*v as nat, v.spec_encode().len())));
    }
}

impl WireTypeTrait for u64 {
    open spec fn spec_wire_type() -> WireType {
        WireType::Varint
    }

    fn wire_type() -> (r: WireType) {
        WireType::Varint
    }
}

impl Serialization for u64 {
    open spec fn spec_encode(&self) -> Seq<u8> {
        spec_varint(*self as nat)
    }

    open spec fn spec_recorded(&self, m: Metadata) -> bool {
        true
    }

    proof fn lemma_encode_len(&self) {
        lemma_varint_len_u64(*self as nat);
        assert(self.spec_encode() == spec_varint(*self as nat));
    }

    fn record(&self, meta_data: &mut Metadata) {
        meta_data.size = self.size();
    }

    fn encode(&self, out: &mut Vec<u8>, meta_data: &Metadata) {
        self.encode_raw(out);
    }
}

impl DeSerialization for u64 {
    open spec fn spec_decode(s: Seq<u8>) -> Result<(u64, nat), DecodeError> {
        match spec_decode_varint(s, u64::MAX as nat) {
            Ok((v, n)) => Ok((v as u64, n)),
            Err(e) => Err(e),
        }
    }

    proof fn lemma_decode_len(s: Seq<u8>) {
        crate::unsigned::lemma_decode_varint_len(s, u64::MAX as nat);
    }

    fn decode<L: PrefabLoader>(buf: &[u8], pos: &mut usize, ctx: &DecodeContext<L>) -> (r: Result<
        u64,
        DecodeError,
    >) {
        let v = decode_varint(buf, pos, ctx.bounds_checker.bound, u64::MAX as u64)?;
        Ok(v as u64)
    }
}

impl Codec for u64 {
    proof fn lemma_round_trip(v: &Self, rest: Seq<u8>) {
        lemma_varint_round_trip(*v as nat, rest);
        assert(spec_decode_varint(v.spec_encode() + rest, u64::MAX as nat) == Ok::<(nat, nat), DecodeError>((*v as nat, v.spec_encode().len())));
    }
}

impl WireTypeTrait for usize {
    open spec fn spec_wire_type() -> WireType {
        WireType::Varint
    }

    fn wire_type() -> (r: WireType) {
        WireType::Varint
    }
}

impl Serialization for usize {
    open spec fn spec_encode(&self) -> Seq<u8> {
        spec_varint(*self as nat)
    }

    open spec fn spec_recorded(&self, m: Metadata) -> bool {
        true
    }

    proof fn lemma_encode_len(&self) {
        lemma_varint_len_u64(*self as nat);
        assert(self.spec_encode() == spec_varint(*self as nat));
    }

    fn record(&self, meta_data: &mut Metadata) {
        meta_data.size = self.size();
    }

    fn encode(&self, out: &mut Vec<u8>, meta_data: &Metadata) {
        self.encode_raw(out);
    }
}

impl DeSerialization for usize {
    open spec fn spec_decode(s: Seq<u8>) -> Result<(usize, nat), DecodeError> {
        match spec_decode_varint(s, usize::MAX as nat) {
            Ok((v, n)) => Ok((v as usize, n)),
            Err(e) => Err(e),
        }
    }

    proof fn lemma_decode_len(s: Seq<u8>) {
        crate::unsigned::lemma_decode_varint_len(s, usize::MAX as nat);
    }

    fn decode<L: PrefabLoader>(buf: &[u8], pos: &mut usize, ctx: &DecodeContext<L>) -> (r: Result<
        usize,
        DecodeError,
    >) {
        let v = decode_varint(buf, pos, ctx.bounds_checker.bound, usize::MAX as u64)?;
        Ok(v as usize)
    }
}

impl Codec for usize {
    proof fn lemma_round_trip(v: &Self, rest: Seq<u8>) {
        lemma_varint_round_trip(*v as nat, rest);
        assert(spec_decode_varint(v.spec_encode() + rest, usize::MAX as nat) == Ok::<(nat, nat), DecodeError>((*v as nat, v.spec_encode().len())));
    }
}

impl WireTypeTrait for i8 {
    open spec fn spec_wire_type() -> WireType {
        WireType::Varint
    }

    fn wire_type() -> (r: WireType) {
        WireType::Varint
    }
}

impl Serialization for i8 {
    open spec fn spec_encode(&self) -> Seq<u8> {
        spec_varint(spec_zigzag(*self as int))
    }

    open spec fn spec_recorded(&self, m: Metadata) -> bool {
        true
    }

    proof fn lemma_encode_len(&self) {
        assert(self.spec_encode() == spec_varint(spec_zigzag(*self as int)));
        lemma_zigzag_involution(*self as int, i8::MAX + 1);
        lemma_varint_len_u64(spec_zigzag(*self as int));
    }

    fn record(&self, meta_data: &mut Metadata) {
        meta_data.size = self.zigzag().size();
    }

    fn encode(&self, out: &mut Vec<u8>, meta_data: &Metadata) {
        self.zigzag().encode_raw(out);
    }
}

impl DeSerialization for i8 {
    open spec fn spec_decode(s: Seq<u8>) -> Result<(i8, nat), DecodeError> {
        match spec_decode_varint(s, u8::MAX as nat) {
            Ok((v, n)) => Ok((spec_unzigzag(v) as i8, n)),
            Err(e) => Err(e),
        }
    }

    proof fn lemma_decode_len(s: Seq<u8>) {
        crate::unsigned::lemma_decode_varint_len(s, u8::MAX as nat);
    }

    fn decode<L: PrefabLoader>(buf: &[u8], pos: &mut usize, ctx: &DecodeContext<L>) -> (r: Result<
        i8,
        DecodeError,
    >) {
        let v = decode_varint(buf, pos, ctx.bounds_checker.bound, u8::MAX as u64)?;
        Ok((v as u8).unzigzag())
    }
}

impl Codec for i8 {
    proof fn lemma_round_trip(v: &Self, rest: Seq<u8>) {
        let z = spec_zigzag(*v as int);
        lemma_zigzag_involution(*v as int, i8::MAX + 1);
        lemma_varint_round_trip(z, rest);
        assert(spec_decode_varint(v.spec_encode() + rest, u8::MAX as nat) == Ok::<(nat, nat), DecodeError>((z, v.spec_encode().len())));
    }
}

impl WireTypeTrait for i16 {
    open spec fn spec_wire_type() -> WireType {
        WireType::Varint
    }

    fn wire_type() -> (r: WireType) {
        WireType::Varint
    }
}

impl Serialization for i16 {
    open spec fn spec_encode(&self) -> Seq<u8> {
        spec_varint(spec_zigzag(*self as int))
    }

    open spec fn spec_recorded(&self, m: Metadata) -> bool {
        true
    }

    proof fn lemma_encode_len(&self) {
        assert(self.spec_encode() == spec_varint(spec_zigzag(*self as int)));
        lemma_zigzag_involution(*self as int, i16::MAX + 1);
        lemma_varint_len_u64(spec_zigzag(*self as int));
    }

    fn record(&self, meta_data: &mut Metadata) {
        meta_data.size = self.zigzag().size();
    }

    fn encode(&self, out: &mut Vec<u8>, meta_data: &Metadata) {
        self.zigzag().encode_raw(out);
    }
}

impl DeSerialization for i16 {
    open spec fn spec_decode(s: Seq<u8>) -> Result<(i16, nat), DecodeError> {
        match spec_decode_varint(s, u16::MAX as nat) {
            Ok((v, n)) => Ok((spec_unzigzag(v) as i16, n)),
            Err(e) => Err(e),
        }
    }

    proof fn lemma_decode_len(s: Seq<u8>) {
        crate::unsigned::lemma_decode_varint_len(s, u16::MAX as nat);
    }

    fn decode<L: PrefabLoader>(buf: &[u8], pos: &mut usize, ctx: &DecodeContext<L>) -> (r: Result<
        i16,
        DecodeError,
    >) {
        let v = decode_varint(buf, pos, ctx.bounds_checker.bound, u16::MAX as u64)?;
        Ok((v as u16).unzigzag())
    }
}

impl Codec for i16 {
    proof fn lemma_round_trip(v: &Self, rest: Seq<u8>) {
        let z = spec_zigzag(*v as int);
        lemma_zigzag_involution(*v as int, i16::MAX + 1);
        lemma_varint_round_trip(z, rest);
        assert(spec_decode_varint(v.spec_encode() + rest, u16::MAX as nat) == Ok::<(nat, nat), DecodeError>((z, v.spec_encode().len())));
    }
}

impl WireTypeTrait for i32 {
    open spec fn spec_wire_type() -> WireType {
        WireType::Varint
    }

    fn wire_type() -> (r: WireType) {
        WireType::Varint
    }
}

impl Serialization for i32 {
    open spec fn spec_encode(&self) -> Seq<u8> {
        spec_varint(spec_zigzag(*self as int))
    }

    open spec fn spec_recorded(&self, m: Metadata) -> bool {
        true
    }

    proof fn lemma_encode_len(&self) {
        assert(self.spec_encode() == spec_varint(spec_zigzag(*self as int)));
        lemma_zigzag_involution(*self as int, i32::MAX + 1);
        lemma_varint_len_u64(spec_zigzag(*self as int));
    }

    fn record(&self, meta_data: &mut Metadata) {
        meta_data.size = self.zigzag().size();
    }

    fn encode(&self, out: &mut Vec<u8>, meta_data: &Metadata) {
        self.zigzag().encode_raw(out);
    }
}

impl DeSerialization for i32 {
    open spec fn spec_decode(s: Seq<u8>) -> Result<(i32, nat), DecodeError> {
        match spec_decode_varint(s, u32::MAX as nat) {
            Ok((v, n)) => Ok((spec_unzigzag(v) as i32, n)),
            Err(e) => Err(e),
        }
    }

    proof fn lemma_decode_len(s: Seq<u8>) {
        crate::unsigned::lemma_decode_varint_len(s, u32::MAX as nat);
    }

    fn decode<L: PrefabLoader>(buf: &[u8], pos: &mut usize, ctx: &DecodeContext<L>) -> (r: Result<
        i32,
        DecodeError,
    >) {
        let v = decode_varint(buf, pos, ctx.bounds_checker.bound, u32::MAX as u64)?;
        Ok((v as u32).unzigzag())
    }
}

impl Codec for i32 {
    proof fn lemma_round_trip(v: &Self, rest: Seq<u8>) {
        let z = spec_zigzag(*v as int);
        lemma_zigzag_involution(*v as int, i32::MAX + 1);
        lemma_varint_round_trip(z, rest);
        assert(spec_decode_varint(v.spec_encode() + rest, u32::MAX as nat) == Ok::<(nat, nat), DecodeError>((z, v.spec_encode().len())));
    }
}

impl WireTypeTrait for i64 {
    open spec fn spec_wire_type() -> WireType {
        WireType::Varint
    }

    fn wire_type() -> (r: WireType) {
        WireType::Varint
    }
}

impl Serialization for i64 {
    open spec fn spec_encode(&self) -> Seq<u8> {
        spec_varint(spec_zigzag(*self as int))
    }

    open spec fn spec_recorded(&self, m: Metadata) -> bool {
        true
    }

    proof fn lemma_encode_len(&self) {
        assert(self.spec_encode() == spec_varint(spec_zigzag(*self as int)));
        lemma_zigzag_involution(*self as int, i64::MAX + 1);
        lemma_varint_len_u64(spec_zigzag(*self as int));
    }

    fn record(&self, meta_data: &mut Metadata) {
        meta_data.size = self.zigzag().size();
    }

    fn encode(&self, out: &mut Vec<u8>, meta_data: &Metadata) {
        self.zigzag().encode_raw(out);
    }
}

impl DeSerialization for i64 {
    open spec fn spec_decode(s: Seq<u8>) -> Result<(i64, nat), DecodeError> {
        match spec_decode_varint(s, u64::MAX as nat) {
            Ok((v, n)) => Ok((spec_unzigzag(v) as i64, n)),
            Err(e) => Err(e),
        }
    }

    proof fn lemma_decode_len(s: Seq<u8>) {
        crate::unsigned::lemma_decode_varint_len(s, u64::MAX as nat);
    }

    fn decode<L: PrefabLoader>(buf: &[u8], pos: &mut usize, ctx: &DecodeContext<L>) -> (r: Result<
        i64,
        DecodeError,
    >) {
        let v = decode_varint(buf, pos, ctx.bounds_checker.bound, u64::MAX as u64)?;
        Ok((v as u64).unzigzag())
    }
}

impl Codec for i64 {
    proof fn lemma_round_trip(v: &Self, rest: Seq<u8>) {
        let z = spec_zigzag(*v as int);
        lemma_zigzag_involution(*v as int, i64::MAX + 1);
        lemma_varint_round_trip(z, rest);
        assert(spec_decode_varint(v.spec_encode() + rest, u64::MAX as nat) == Ok::<(nat, nat), DecodeError>((z, v.spec_encode().len())));
    }
}

impl WireTypeTrait for isize {
    open spec fn spec_wire_type() -> WireType {
        WireType::Varint
    }

    fn wire_type() -> (r: WireType) {
        WireType::Varint
    }
}

impl Serialization for isize {
    open spec fn spec_encode(&self) -> Seq<u8> {
        spec_varint(spec_zigzag(*self as int))
    }

    open spec fn spec_recorded(&self, m: Metadata) -> bool {
        true
    }

    proof fn lemma_encode_len(&self) {
        assert(self.spec_encode() == spec_varint(spec_zigzag(*self as int)));
        lemma_zigzag_involution(*self as int, isize::MAX + 1);
        lemma_varint_len_u64(spec_zigzag(*self as int));
    }

    fn record(&self, meta_data: &mut Metadata) {
        meta_data.size = self.zigzag().size();
    }

    fn encode(&self, out: &mut Vec<u8>, meta_data: &Metadata) {
        self.zigzag().encode_raw(out);
    }
}

impl DeSerialization for isize {
    open spec fn spec_decode(s: Seq<u8>) -> Result<(isize, nat), DecodeError> {
        match spec_decode_varint(s, usize::MAX as nat) {
            Ok((v, n)) => Ok((spec_unzigzag(v) as isize, n)),
            Err(e) => Err(e),
        }
    }

    proof fn lemma_decode_len(s: Seq<u8>) {
        crate::unsigned::lemma_decode_varint_len(s, usize::MAX as nat);
    }

    fn decode<L: PrefabLoader>(buf: &[u8], pos: &mut usize, ctx: &DecodeContext<L>) -> (r: Result<
        isize,
        DecodeError,
    >) {
        let v = decode_varint(buf, pos, ctx.bounds_checker.bound, usize::MAX as u64)?;
        Ok((v as usize).unzigzag())
    }
}

impl Codec for isize {
    proof fn lemma_round_trip(v: &Self, rest: Seq<u8>) {
        let z = spec_zigzag(*v as int);
        lemma_zigzag_involution(*v as int, isize::MAX + 1);
        lemma_varint_round_trip(z, rest);
        assert(spec_decode_varint(v.spec_encode() + rest, usize::MAX as nat) == Ok::<(nat, nat), DecodeError>((z, v.spec_encode().len())));
    }
}

/// Recording `v` into `m` and then encoding it after `before` writes exactly
/// `m.size` bytes.
pub proof fn lemma_record_then_encode<S: Serialization>(
    v: S,
    m: Metadata,
    before: Seq<u8>,
    after: Seq<u8>,
)
    requires
        m.size == v.spec_encode().len(),
        after == before + v.spec_encode(),
    ensures
        after.len() == before.len() + m.size,
{
}

/// Decoding the encoding of `v` gives back `v`, having read all of it.
pub proof fn lemma_encode_decode<S: Codec>(v: S)
    requires
        v.spec_encode().len() <= usize::MAX,
    ensures
        S::spec_decode(v.spec_encode()) == Ok::<(S::V, nat), DecodeError>(
            (v.deep_view(), v.spec_encode().len()),
        ),
{
    S::lemma_round_trip(&v, Seq::empty());
    assert(v.spec_encode() + Seq::<u8>::empty() == v.spec_encode());
}

} // verus!
