//! Strings: a varint byte count followed by the UTF-8 bytes.
use crate::decoder::{DecodeContext, DecodeError};
use crate::meta_data::Metadata;
use crate::prefab_loader::PrefabLoader;
use crate::serialization::{Codec, DeSerialization, Serialization, WireTypeTrait};
use crate::unsigned::{
    decode_varint, lemma_varint_len_pos, lemma_varint_round_trip,
    spec_decode_varint, spec_varint, EncodeSize,
};
use crate::wire_type::WireType;
use vstd::prelude::*;
use vstd::utf8::{decode_utf8, encode_utf8, encode_utf8_decode_utf8, encode_utf8_valid_utf8, valid_utf8};

verus! {

/// Relies on `String::from_utf8`: it accepts exactly the valid UTF-8 byte
/// sequences, and then holds the characters they encode.
#[verifier::external_body]
fn string_from_utf8(bytes: Vec<u8>) -> (r: Option<String>)
    ensures
        r is Some <==> valid_utf8(bytes@),
        r is Some ==> r->Some_0@ == decode_utf8(bytes@),
{
    String::from_utf8(bytes).ok()
}

/// Appends the bytes of `bytes` to `out`.
fn push_all(bytes: &[u8], out: &mut Vec<u8>)
    ensures
        final(out)@ == old(out)@ + bytes@,
{
    let mut i: usize = 0;
    while i < bytes.len()
        invariant
            i <= bytes@.len(),
            out@ == old(out)@ + bytes@.subrange(0, i as int),
        decreases bytes@.len() - i,
    {
        proof {
            assert(bytes@.subrange(0, i + 1) == bytes@.subrange(0, i as int).push(bytes@[i as int]));
        }
        out.push(bytes[i]);
        i = i + 1;
    }
    assert(bytes@.subrange(0, bytes@.len() as int) == bytes@);
}

/// Writes `s` as its byte count then its UTF-8 bytes.
pub fn encode_str(s: &str, out: &mut Vec<u8>)
    ensures
        final(out)@ == old(out)@ + spec_varint(encode_utf8(s@).len()) + encode_utf8(s@),
{
    let bytes = s.as_bytes();
    bytes.len().encode_raw(out);
    push_all(bytes, out);
}

/// Records the size of `s`: its byte count's varint and its bytes.
pub fn record_str(s: &str, meta_data: &mut Metadata)
    requires
        spec_varint(encode_utf8(s@).len()).len() + encode_utf8(s@).len() <= usize::MAX,
    ensures
        final(meta_data).size == spec_varint(encode_utf8(s@).len()).len() + encode_utf8(s@).len(),
        final(meta_data).children == old(meta_data).children,
{
    let len = s.len();
    meta_data.size = len.size() + len;
}

impl WireTypeTrait for String {
    open spec fn spec_wire_type() -> WireType {
        WireType::LengthDelimited
    }

    fn wire_type() -> (r: WireType) {
        WireType::LengthDelimited
    }
}

impl Serialization for String {
    open spec fn spec_encode(&self) -> Seq<u8> {
        spec_varint(encode_utf8(self@).len()) + encode_utf8(self@)
    }

    open spec fn spec_recorded(&self, m: Metadata) -> bool {
        true
    }

    proof fn lemma_encode_len(&self) {
        lemma_varint_len_pos(encode_utf8(self@).len());
    }

    fn record(&self, meta_data: &mut Metadata) {
        record_str(self.as_str(), meta_data);
    }

    fn encode(&self, out: &mut Vec<u8>, meta_data: &Metadata) {
        encode_str(self.as_str(), out);
    }
}

impl<'a> WireTypeTrait for &'a str {
    open spec fn spec_wire_type() -> WireType {
        WireType::LengthDelimited
    }

    fn wire_type() -> (r: WireType) {
        WireType::LengthDelimited
    }
}

impl<'a> Serialization for &'a str {
    open spec fn spec_encode(&self) -> Seq<u8> {
        spec_varint(encode_utf8((*self)@).len()) + encode_utf8((*self)@)
    }

    open spec fn spec_recorded(&self, m: Metadata) -> bool {
        true
    }

    proof fn lemma_encode_len(&self) {
        lemma_varint_len_pos(encode_utf8((*self)@).len());
    }

    fn record(&self, meta_data: &mut Metadata) {
        record_str(*self, meta_data);
    }

    fn encode(&self, out: &mut Vec<u8>, meta_data: &Metadata) {
        encode_str(*self, out);
    }
}

impl DeSerialization for String {
    /// Bytes that are not valid UTF-8 are refused as `InvalidType`.
    open spec fn spec_decode(s: Seq<u8>) -> Result<(Seq<char>, nat), DecodeError> {
        match spec_decode_varint(s, usize::MAX as nat) {
            Ok((n, k)) => if k + n <= s.len() {
                if valid_utf8(s.subrange(k as int, (k + n) as int)) {
                    Ok((decode_utf8(s.subrange(k as int, (k + n) as int)), k + n))
                } else {
                    Err(DecodeError::InvalidType)
                }
            } else {
                Err(DecodeError::DecodeOutOfBounds)
            },
            Err(e) => Err(e),
        }
    }

    proof fn lemma_decode_len(s: Seq<u8>) {
    }

    fn decode<L: PrefabLoader>(buf: &[u8], pos: &mut usize, ctx: &DecodeContext<L>) -> (r: Result<
        String,
        DecodeError,
    >) {
        let ghost s = buf@.subrange(*old(pos) as int, ctx.bound() as int);
        let bound = ctx.bounds_checker.bound;
        let counts = decode_varint(buf, pos, bound, usize::MAX as u64)?;
        let counts = counts as usize;
        if counts > bound - *pos {
            return Err(DecodeError::DecodeOutOfBounds);
        }
        let start = *pos;
        let end = start + counts;
        let bytes = vstd::slice::slice_to_vec(vstd::slice::slice_subrange(buf, start, end));
        let ghost k = start - *old(pos);
        assert(bytes@ == s.subrange(k as int, k + counts));
        match string_from_utf8(bytes) {
            Some(string) => {
                *pos = end;
                Ok(string)
            },
            None => Err(DecodeError::InvalidType),
        }
    }
}

impl Codec for String {
    proof fn lemma_round_trip(v: &Self, rest: Seq<u8>) {
        let b = encode_utf8(v@);
        lemma_varint_round_trip(b.len(), b + rest);
        let s = v.spec_encode() + rest;
        let k = spec_varint(b.len()).len();
        assert(s == spec_varint(b.len()) + (b + rest));
        assert(s.subrange(k as int, (k + b.len()) as int) == b);
        encode_utf8_valid_utf8(v@);
        encode_utf8_decode_utf8(v@);
    }
}

} // verus!
