//! Boxed values: encoded exactly as the value they hold.
use crate::decoder::{DecodeContext, DecodeError};
use crate::meta_data::Metadata;
use crate::prefab_loader::PrefabLoader;
use crate::serialization::{Codec, DeSerialization, Serialization, WireTypeTrait};
use crate::wire_type::WireType;
use vstd::prelude::*;

verus! {

impl<T: WireTypeTrait> WireTypeTrait for Box<T> {
    open spec fn spec_wire_type() -> WireType {
        T::spec_wire_type()
    }

    fn wire_type() -> (r: WireType) {
        T::wire_type()
    }
}

impl<T: Serialization> Serialization for Box<T> {
    open spec fn spec_encode(&self) -> Seq<u8> {
        (**self).spec_encode()
    }

    open spec fn spec_recorded(&self, m: Metadata) -> bool {
        (**self).spec_recorded(m)
    }

    proof fn lemma_encode_len(&self) {
        (**self).lemma_encode_len();
    }

    fn record(&self, meta_data: &mut Metadata) {
        (**self).record(meta_data);
    }

    fn encode(&self, out: &mut Vec<u8>, meta_data: &Metadata) {
        (**self).encode(out, meta_data);
    }
}

impl<T: DeSerialization> DeSerialization for Box<T> {
    open spec fn spec_decode(s: Seq<u8>) -> Result<(T::V, nat), DecodeError> {
        T::spec_decode(s)
    }

    proof fn lemma_decode_len(s: Seq<u8>) {
        T::lemma_decode_len(s);
    }

    fn decode<L: PrefabLoader>(buf: &[u8], pos: &mut usize, ctx: &DecodeContext<L>) -> (r: Result<
        Box<T>,
        DecodeError,
    >) {
        let t = T::decode(buf, pos, ctx)?;
        Ok(Box::new(t))
    }
}

impl<T: Codec> Codec for Box<T> {
    proof fn lemma_round_trip(v: &Self, rest: Seq<u8>) {
        T::lemma_round_trip(&**v, rest);
    }
}

} // verus!
