//! Fixed-width scalars: the value as little-endian bytes.
use crate::decoder::{DecodeContext, DecodeError};
use crate::meta_data::Metadata;
use crate::prefab_loader::PrefabLoader;
use crate::serialization::{Codec, DeSerialization, Serialization, WireTypeTrait};
use crate::swap_bytes::{
    from_le, le_bytes, lemma_from_le_le_bytes, lemma_le_bytes_len, pow256, push_le_bytes,
};
use crate::wire_type::WireType;
use vstd::prelude::*;

verus! {

/// The value of the `n` bytes of `b` from `p` on, as the weighted sum of the bytes.
proof fn lemma_from_le_window(b: Seq<u8>, p: int, n: nat)
    requires
        0 <= p,
        p + n <= b.len(),
    ensures
        n == 4 ==> from_le(b.subrange(p, p + 4)) == b[p] as nat + 256 * b[p + 1] as nat + 65536
            * b[p + 2] as nat + 16777216 * b[p + 3] as nat,
        n == 8 ==> from_le(b.subrange(p, p + 8)) == b[p] as nat + 256 * b[p + 1] as nat + 65536
            * b[p + 2] as nat + 16777216 * b[p + 3] as nat + 4294967296 * b[p + 4] as nat
            + 1099511627776 * b[p + 5] as nat + 281474976710656 * b[p + 6] as nat
            + 72057594037927936 * b[p + 7] as nat,
{
    if n == 4 || n == 8 {
        lemma_from_le_unfold(b.subrange(p, p + n), n);
    }
}

/// `from_le` of `n` bytes, unfolded into its weighted sum.
proof fn lemma_from_le_unfold(t: Seq<u8>, n: nat)
    requires
        t.len() == n,
        n == 4 || n == 8,
    ensures
        n == 4 ==> from_le(t) == t[0] as nat + 256 * t[1] as nat + 65536 * t[2] as nat + 16777216
            * t[3] as nat,
        n == 8 ==> from_le(t) == t[0] as nat + 256 * t[1] as nat + 65536 * t[2] as nat + 16777216
            * t[3] as nat + 4294967296 * t[4] as nat + 1099511627776 * t[5] as nat
            + 281474976710656 * t[6] as nat + 72057594037927936 * t[7] as nat,
{
    reveal_with_fuel(from_le, 9);
    let t1 = t.drop_first();
    let t2 = t1.drop_first();
    let t3 = t2.drop_first();
    let t4 = t3.drop_first();
    assert(t1[0] == t[1] && t1[1] == t[2] && t1[2] == t[3]);
    assert(t2[0] == t[2] && t2[1] == t[3]);
    assert(t3[0] == t[3]);
    if n == 8 {
        let t5 = t4.drop_first();
        let t6 = t5.drop_first();
        let t7 = t6.drop_first();
        let t8 = t7.drop_first();
        assert(t4[0] == t[4] && t4[1] == t[5] && t4[2] == t[6] && t4[3] == t[7]);
        assert(t5[0] == t[5] && t5[1] == t[6] && t5[2] == t[7]);
        assert(t6[0] == t[6] && t6[1] == t[7]);
        assert(t7[0] == t[7]);
        assert(t8.len() == 0);
    } else {
        assert(t4.len() == 0);
    }
}

/// A 32-bit value written as 4 little-endian bytes: a fixed-width
/// integer, or the bit pattern of a f32.
#[derive(Clone, Copy, Debug, Default, PartialEq, Eq, Structural)]
pub struct Fixed32(pub u32);

impl DeepView for Fixed32 {
    type V = u32;

    open spec fn deep_view(&self) -> u32 {
        self.0
    }
}

impl WireTypeTrait for Fixed32 {
    open spec fn spec_wire_type() -> WireType {
        WireType::Bits32
    }

    fn wire_type() -> (r: WireType) {
        WireType::Bits32
    }
}

impl Serialization for Fixed32 {
    open spec fn spec_encode(&self) -> Seq<u8> {
        le_bytes(self.0 as nat, 4)
    }

    open spec fn spec_recorded(&self, m: Metadata) -> bool {
        true
    }

    proof fn lemma_encode_len(&self) {
        lemma_le_bytes_len(self.0 as nat, 4);
    }

    fn record(&self, meta_data: &mut Metadata) {
        proof {
            lemma_le_bytes_len(self.0 as nat, 4);
        }
        meta_data.size = 4;
    }

    fn encode(&self, out: &mut Vec<u8>, meta_data: &Metadata) {
        push_le_bytes(self.0 as u64, 4, out);
    }
}

impl DeSerialization for Fixed32 {
    open spec fn spec_decode(s: Seq<u8>) -> Result<(u32, nat), DecodeError> {
        if s.len() < 4 {
            Err(DecodeError::DecodeOutOfBounds)
        } else {
            Ok((from_le(s.subrange(0, 4)) as u32, 4))
        }
    }

    proof fn lemma_decode_len(s: Seq<u8>) {
    }

    fn decode<L: PrefabLoader>(buf: &[u8], pos: &mut usize, ctx: &DecodeContext<L>) -> (r: Result<
        Fixed32,
        DecodeError,
    >) {
        let ghost s = buf@.subrange(*old(pos) as int, ctx.bound() as int);
        let p = *pos;
        if 4 > ctx.bounds_checker.bound - p {
            return Err(DecodeError::DecodeOutOfBounds);
        }
        let v: u32 = (buf[p] as u32) + 256 * (buf[p + 1] as u32) + 65536 * (buf[p + 2] as u32) + 16777216 * (buf[p + 3] as u32);
        proof {
            lemma_from_le_window(buf@, p as int, 4);
            assert(s.subrange(0, 4) == buf@.subrange(p as int, p + 4));
        }
        *pos = p + 4;
        Ok(Fixed32(v))
    }
}

impl Codec for Fixed32 {
    proof fn lemma_round_trip(v: &Self, rest: Seq<u8>) {
        reveal_with_fuel(pow256, 5);
        lemma_le_bytes_len(v.0 as nat, 4);
        lemma_from_le_le_bytes(v.0 as nat, 4);
        let s = v.spec_encode() + rest;
        assert(s.subrange(0, 4) == v.spec_encode());
    }
}

/// A 64-bit value written as 8 little-endian bytes: a fixed-width
/// integer, or the bit pattern of a f64.
#[derive(Clone, Copy, Debug, Default, PartialEq, Eq, Structural)]
pub struct Fixed64(pub u64);

impl DeepView for Fixed64 {
    type V = u64;

    open spec fn deep_view(&self) -> u64 {
        self.0
    }
}

impl WireTypeTrait for Fixed64 {
    open spec fn spec_wire_type() -> WireType {
        WireType::Bits64
    }

    fn wire_type() -> (r: WireType) {
        WireType::Bits64
    }
}

impl Serialization for Fixed64 {
    open spec fn spec_encode(&self) -> Seq<u8> {
        le_bytes(self.0 as nat, 8)
    }

    open spec fn spec_recorded(&self, m: Metadata) -> bool {
        true
    }

    proof fn lemma_encode_len(&self) {
        lemma_le_bytes_len(self.0 as nat, 8);
    }

    fn record(&self, meta_data: &mut Metadata) {
        proof {
            lemma_le_bytes_len(self.0 as nat, 8);
        }
        meta_data.size = 8;
    }

    fn encode(&self, out: &mut Vec<u8>, meta_data: &Metadata) {
        push_le_bytes(self.0 as u64, 8, out);
    }
}

impl DeSerialization for Fixed64 {
    open spec fn spec_decode(s: Seq<u8>) -> Result<(u64, nat), DecodeError> {
        if s.len() < 8 {
            Err(DecodeError::DecodeOutOfBounds)
        } else {
            Ok((from_le(s.subrange(0, 8)) as u64, 8))
        }
    }

    proof fn lemma_decode_len(s: Seq<u8>) {
    }

    fn decode<L: PrefabLoader>(buf: &[u8], pos: &mut usize, ctx: &DecodeContext<L>) -> (r: Result<
        Fixed64,
        DecodeError,
    >) {
        let ghost s = buf@.subrange(*old(pos) as int, ctx.bound() as int);
        let p = *pos;
        if 8 > ctx.bounds_checker.bound - p {
            return Err(DecodeError::DecodeOutOfBounds);
        }
        let v: u64 = (buf[p] as u64) + 256 * (buf[p + 1] as u64) + 65536 * (buf[p + 2] as u64) + 16777216 * (buf[p + 3] as u64) + 4294967296 * (buf[p + 4] as u64) + 1099511627776 * (buf[p + 5] as u64) + 281474976710656 * (buf[p + 6] as u64) + 72057594037927936 * (buf[p + 7] as u64);
        proof {
            lemma_from_le_window(buf@, p as int, 8);
            assert(s.subrange(0, 8) == buf@.subrange(p as int, p + 8));
        }
        *pos = p + 8;
        Ok(Fixed64(v))
    }
}

impl Codec for Fixed64 {
    proof fn lemma_round_trip(v: &Self, rest: Seq<u8>) {
        reveal_with_fuel(pow256, 9);
        lemma_le_bytes_len(v.0 as nat, 8);
        lemma_from_le_le_bytes(v.0 as nat, 8);
        let s = v.spec_encode() + rest;
        assert(s.subrange(0, 8) == v.spec_encode());
    }
}

} // verus!
