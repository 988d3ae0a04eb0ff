//! Optional values: `0` when absent; otherwise the content's size, then the content.
use crate::decoder::{DecodeContext, DecodeError};
use crate::meta_data::Metadata;
use crate::prefab_loader::PrefabLoader;
use crate::serialization::{Codec, DeSerialization, Serialization, WireTypeTrait};
use crate::unsigned::{
    decode_varint, lemma_decode_varint_len, lemma_varint_len_pos, lemma_varint_round_trip,
    spec_decode_varint, spec_varint, EncodeSize,
};
use crate::wire_type::WireType;
use vstd::prelude::*;

verus! {

impl<T> WireTypeTrait for Option<T> {
    open spec fn spec_wire_type() -> WireType {
        WireType::LengthDelimited
    }

    fn wire_type() -> (r: WireType) {
        WireType::LengthDelimited
    }
}

impl<T: Serialization> Serialization for Option<T> {
    open spec fn spec_encode(&self) -> Seq<u8> {
        match self {
            Some(v) => spec_varint(v.spec_encode().len()) + v.spec_encode(),
            None => spec_varint(0),
        }
    }

    /// The content's node is child `0`.
    open spec fn spec_recorded(&self, m: Metadata) -> bool {
        match self {
            Some(v) => m.children@.len() >= 1 && v.spec_recorded(m.children@[0])
                && m.children@[0].size == v.spec_encode().len(),
            None => true,
        }
    }

    proof fn lemma_encode_len(&self) {
        match self {
            Some(v) => lemma_varint_len_pos(v.spec_encode().len()),
            None => lemma_varint_len_pos(0),
        }
    }

    fn record(&self, meta_data: &mut Metadata) {
        match self {
            Some(v) => {
                proof {
                    lemma_varint_len_pos(v.spec_encode().len());
                }
                {
                    let child = meta_data.get(0);
                    v.record(child);
                }
                let element_size = meta_data.children[0].size;
                meta_data.size = element_size.size() + element_size;
            },
            None => {
                meta_data.size = 1;
            },
        }
    }

    fn encode(&self, out: &mut Vec<u8>, meta_data: &Metadata) {
        match self {
            Some(v) => {
                let child = meta_data.child(0);
                child.size.encode_raw(out);
                v.encode(out, child);
            },
            None => {
                0usize.encode_raw(out);
            },
        }
    }
}

impl<T: DeSerialization> DeSerialization for Option<T> {
    open spec fn spec_decode(s: Seq<u8>) -> Result<(Option<T::V>, nat), DecodeError> {
        match spec_decode_varint(s, usize::MAX as nat) {
            Ok((n, k)) => if n == 0 {
                Ok((None, k))
            } else {
                match T::spec_decode(s.subrange(k as int, s.len() as int)) {
                    Ok((v, c)) => Ok((Some(v), k + c)),
                    Err(e) => Err(e),
                }
            },
            Err(e) => Err(e),
        }
    }

    proof fn lemma_decode_len(s: Seq<u8>) {
        lemma_decode_varint_len(s, usize::MAX as nat);
        if spec_decode_varint(s, usize::MAX as nat) is Ok {
            let k = spec_decode_varint(s, usize::MAX as nat)->Ok_0.1;
            T::lemma_decode_len(s.subrange(k as int, s.len() as int));
        }
    }

    fn decode<L: PrefabLoader>(buf: &[u8], pos: &mut usize, ctx: &DecodeContext<L>) -> (r: Result<
        Option<T>,
        DecodeError,
    >) {
        let ghost s = buf@.subrange(*old(pos) as int, ctx.bound() as int);
        let size = decode_varint(buf, pos, ctx.bounds_checker.bound, usize::MAX as u64)?;
        if size == 0 {
            Ok(None)
        } else {
            let ghost k = *pos - *old(pos);
            assert(buf@.subrange(*pos as int, ctx.bound() as int) == s.subrange(
                k as int,
                s.len() as int,
            ));
            let v = T::decode(buf, pos, ctx)?;
            Ok(Some(v))
        }
    }
}

impl<T: Codec> Codec for Option<T> {
    proof fn lemma_round_trip(v: &Self, rest: Seq<u8>) {
        match v {
            Some(x) => {
                let e = x.spec_encode();
                x.lemma_encode_len();
                lemma_varint_round_trip(e.len(), e + rest);
                let s = v.spec_encode() + rest;
                assert(s == spec_varint(e.len()) + (e + rest));
                let k = spec_varint(e.len()).len();
                assert(s.subrange(k as int, s.len() as int) == e + rest);
                T::lemma_round_trip(x, rest);
            },
            None => {
                lemma_varint_round_trip(0, rest);
            },
        }
    }
}

} // verus!
