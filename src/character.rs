//! Characters: the code point as four little-endian bytes.
use crate::decoder::{DecodeContext, DecodeError};
use crate::meta_data::Metadata;
use crate::prefab_loader::PrefabLoader;
use crate::serialization::{Codec, DeSerialization, Serialization, WireTypeTrait};
use crate::swap_bytes::{from_le, le_bytes, lemma_from_le_le_bytes};
use crate::wire_type::WireType;
use vstd::prelude::*;

verus! {

/// Whether `v` is a Unicode scalar value, the code of some `char`.
pub open spec fn is_char_code(v: nat) -> bool {
    v < 0xD800 || (0xE000 <= v && v <= 0x10FFFF)
}

/// The character with code `v`, when `v` is a Unicode scalar value.
pub open spec fn char_with_code(v: nat) -> char {
    v as u32 as char
}

/// Relies on `char::from_u32`: it returns the character with code `v`
/// exactly when `v` is a Unicode scalar value.
#[verifier::external_body]
fn char_from_u32(v: u32) -> (r: Option<char>)
    ensures
        r is Some <==> is_char_code(v as nat),
        r is Some ==> r->Some_0 as u32 == v,
{
    char::from_u32(v)
}

impl WireTypeTrait for char {
    open spec fn spec_wire_type() -> WireType {
        WireType::Bits32
    }

    fn wire_type() -> (r: WireType) {
        WireType::Bits32
    }
}

impl Serialization for char {
    open spec fn spec_encode(&self) -> Seq<u8> {
        le_bytes(*self as u32 as nat, 4)
    }

    open spec fn spec_recorded(&self, m: Metadata) -> bool {
        true
    }

    proof fn lemma_encode_len(&self) {
        crate::swap_bytes::lemma_le_bytes_len(*self as u32 as nat, 4);
    }

    fn record(&self, meta_data: &mut Metadata) {
        proof {
            crate::swap_bytes::lemma_le_bytes_len(*self as u32 as nat, 4);
        }
        meta_data.size = 4;
    }

    fn encode(&self, out: &mut Vec<u8>, meta_data: &Metadata) {
        crate::swap_bytes::push_le_bytes(*self as u32 as u64, 4, out);
    }
}

impl DeSerialization for char {
    /// Four bytes that are not the code of a `char` are refused as `InvalidType`.
    open spec fn spec_decode(s: Seq<u8>) -> Result<(char, nat), DecodeError> {
        if s.len() < 4 {
            Err(DecodeError::DecodeOutOfBounds)
        } else if is_char_code(from_le(s.subrange(0, 4))) {
            Ok((char_with_code(from_le(s.subrange(0, 4))), 4))
        } else {
            Err(DecodeError::InvalidType)
        }
    }

    proof fn lemma_decode_len(s: Seq<u8>) {
    }

    fn decode<L: PrefabLoader>(buf: &[u8], pos: &mut usize, ctx: &DecodeContext<L>) -> (r: Result<
        char,
        DecodeError,
    >) {
        let ghost s = buf@.subrange(*old(pos) as int, ctx.bound() as int);
        let p = *pos;
        if 4 > ctx.bounds_checker.bound - p {
            return Err(DecodeError::DecodeOutOfBounds);
        }
        let v: u32 = buf[p] as u32 + 256 * (buf[p + 1] as u32) + 65536 * (buf[p + 2] as u32)
            + 16777216 * (buf[p + 3] as u32);
        proof {
            reveal_with_fuel(from_le, 5);
            let t = s.subrange(0, 4);
            assert(t[0] == buf@[p as int] && t[1] == buf@[p + 1] && t[2] == buf@[p + 2] && t[3]
                == buf@[p + 3]);
            assert(t.drop_first()[0] == t[1] && t.drop_first()[1] == t[2] && t.drop_first()[2]
                == t[3]);
            assert(t.drop_first().drop_first()[0] == t[2] && t.drop_first().drop_first()[1]
                == t[3]);
            assert(t.drop_first().drop_first().drop_first()[0] == t[3]);
            assert(t.drop_first().drop_first().drop_first().drop_first().len() == 0);
            assert(v == from_le(t));
        }
        match char_from_u32(v) {
            Some(c) => {
                proof {
                    vstd::utf8::char_u32_cast(c, v);
                }
                *pos = p + 4;
                Ok(c)
            },
            None => Err(DecodeError::InvalidType),
        }
    }
}

impl Codec for char {
    proof fn lemma_round_trip(v: &Self, rest: Seq<u8>) {
        let code = *v as u32 as nat;
        reveal_with_fuel(crate::swap_bytes::pow256, 5);
        crate::swap_bytes::lemma_le_bytes_len(code, 4);
        lemma_from_le_le_bytes(code, 4);
        let s = v.spec_encode() + rest;
        assert(s.subrange(0, 4) == v.spec_encode());
        assert(is_char_code(code)) by {
            vstd::utf8::char_is_scalar(*v);
        }
        vstd::utf8::char_u32_cast(*v, *v as u32);
    }
}

} // verus!
