//! Encoding: field framing and the encoder that records sizes, then writes.
use crate::meta_data::Metadata;
use crate::serialization::Serialization;
use crate::unsigned::{encode_varint, lemma_varint_len_u64, spec_varint, varint_size};
use crate::wire_type::{spec_wired_id_byte, wired_id_constant_from, WireType};
use vstd::prelude::*;

verus! {

/// The wired id of field `id` with wire type `wire_type`: one byte for ids
/// below 31; otherwise the byte with low bits 31 followed by the varint of `id - 30`.
pub open spec fn spec_wired_id(id: nat, wire_type: WireType) -> Seq<u8> {
    if id < 31 {
        seq![spec_wired_id_byte(id, wire_type)]
    } else {
        seq![spec_wired_id_byte(31, wire_type)] + spec_varint((id - 30) as nat)
    }
}

/// The framing that precedes a value of wire type `wire_type` whose encoding
/// takes `len` bytes: its length, for length-delimited values; nothing otherwise.
pub open spec fn spec_length_prefix(wire_type: WireType, len: nat) -> Seq<u8> {
    if wire_type == WireType::LengthDelimited {
        spec_varint(len)
    } else {
        Seq::empty()
    }
}

/// The bytes of field `id` holding `value`.
pub open spec fn spec_field<S: Serialization>(id: nat, value: S) -> Seq<u8> {
    spec_wired_id(id, S::spec_wire_type()) + spec_length_prefix(
        S::spec_wire_type(),
        value.spec_encode().len(),
    ) + value.spec_encode()
}

/// Appends the wired id of field `id` for values of `S`.
fn encode_wired_id<S: Serialization>(id: usize, out: &mut Vec<u8>)
    ensures
        final(out)@ == old(out)@ + spec_wired_id(id as nat, S::spec_wire_type()),
{
    let wire_type = S::wire_type();
    if crate::branch::likely(id < 31) {
        let wired_id = wired_id_constant_from(id as u8, wire_type);
        out.push(wired_id);
    } else {
        let wired_id = wired_id_constant_from(31, wire_type);
        out.push(wired_id);
        let rest_id: usize = id - 30;
        encode_varint(rest_id as u64, out);
        proof {
            assert(out@ == old(out)@ + spec_wired_id(id as nat, S::spec_wire_type()));
        }
    }
}

/// Number of bytes of the wired id of field `id`.
pub fn size_of_wired_id(id: usize) -> (r: usize)
    ensures
        forall|w: WireType| r == #[trigger] spec_wired_id(id as nat, w).len(),
        1 <= r <= 11,
{
    if crate::branch::likely(id < 31) {
        1
    } else {
        proof {
            lemma_varint_len_u64((id - 30) as nat);
        }
        varint_size((id - 30) as u64) + 1
    }
}

/// Number of bytes of field `id` holding a value of `S` whose recorded size is `metadata.size`.
pub fn size_of_field<S: Serialization>(id: usize, metadata: &Metadata) -> (r: usize)
    requires
        spec_wired_id(id as nat, S::spec_wire_type()).len() + spec_length_prefix(
            S::spec_wire_type(),
            metadata.size as nat,
        ).len() + metadata.size <= usize::MAX,
    ensures
        r == spec_wired_id(id as nat, S::spec_wire_type()).len() + spec_length_prefix(
            S::spec_wire_type(),
            metadata.size as nat,
        ).len() + metadata.size,
{
    let mut size = size_of_wired_id(id);
    size = size + metadata.size;
    if S::wire_type() == WireType::LengthDelimited {
        size = size + varint_size(metadata.size as u64);
    }
    size
}

/// Appends field `id` holding `value`: the wired id, the length for a
/// length-delimited value, then the value.
pub fn encode_field<S: Serialization>(id: usize, value: &S, out: &mut Vec<u8>, meta_data: &Metadata)
    requires
        value.spec_recorded(*meta_data),
        meta_data.size == value.spec_encode().len(),
    ensures
        final(out)@ == old(out)@ + spec_field(id as nat, *value),
{
    encode_wired_id::<S>(id, out);
    if S::wire_type() == WireType::LengthDelimited {
        encode_varint(meta_data.size as u64, out);
    }
    value.encode(out, meta_data);
    proof {
        assert(out@ == old(out)@ + spec_field(id as nat, *value));
    }
}

/// Encodes one value: `from` records the sizes of its parts, `encode` then
/// writes the bytes into a buffer of exactly the recorded size.
pub struct Encoder<'a, S> {
    value: &'a S,
    meta_data: Metadata,
}

impl<'a, S: Serialization> Encoder<'a, S> {
    /// The value being encoded.
    pub closed spec fn spec_value(&self) -> S {
        *self.value
    }

    /// The recorded total size.
    pub closed spec fn spec_size(&self) -> nat {
        self.meta_data.size as nat
    }

    pub closed spec fn wf(&self) -> bool {
        &&& self.value.spec_recorded(self.meta_data)
        &&& self.meta_data.size == self.value.spec_encode().len()
    }

    /// Records the sizes of `value` and of its parts.
    pub fn from(value: &'a S) -> (r: Self)
        requires
            value.spec_encode().len() <= usize::MAX,
        ensures
            r.wf(),
            r.spec_value() == *value,
            r.spec_size() == value.spec_encode().len(),
    {
        let mut meta_data = Metadata::new();
        value.record(&mut meta_data);
        Encoder { value, meta_data }
    }

    /// The number of bytes `encode` returns.
    pub fn size(&self) -> (r: usize)
        ensures
            r == self.spec_size(),
    {
        self.meta_data.size
    }

    /// The encoding of the value, in a buffer of exactly the recorded size.
    pub fn encode(&self) -> (r: Vec<u8>)
        requires
            self.wf(),
        ensures
            r@ == self.spec_value().spec_encode(),
            r@.len() == self.spec_size(),
    {
        let mut buf: Vec<u8> = Vec::with_capacity(self.meta_data.size);
        self.value.encode(&mut buf, &self.meta_data);
        assert(buf@ == Seq::<u8>::empty() + self.value.spec_encode());
        buf
    }
}

} // verus!
