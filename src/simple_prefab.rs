//! A prefab field whose token is a numeric id.
use crate::decoder::{DecodeContext, DecodeError};
use crate::meta_data::Metadata;
use crate::prefab_loader::PrefabLoader;
use crate::serialization::{Codec, DeSerialization, Serialization, WireTypeTrait};
use crate::unsigned::spec_varint;
use crate::wire_type::WireType;
use vstd::prelude::*;

verus! {

/// A field that the writer fills with the id of a prefab; the reader's
/// prefab loader resolves the id to the encoded value.
#[derive(Clone, Copy, Debug, Default, PartialEq, Eq)]
pub struct SimplePrefab(u64);

impl SimplePrefab {
    pub closed spec fn spec_index(&self) -> u64 {
        self.0
    }

    /// The prefab with id `index`.
    pub fn new(index: u64) -> (r: SimplePrefab)
        ensures
            r.spec_index() == index,
    {
        SimplePrefab(index)
    }

    /// The prefab's id.
    pub fn index(&self) -> (r: u64)
        ensures
            r == self.spec_index(),
    {
        self.0
    }
}

impl DeepView for SimplePrefab {
    type V = u64;

    closed spec fn deep_view(&self) -> u64 {
        self.0
    }
}

impl WireTypeTrait for SimplePrefab {
    open spec fn spec_wire_type() -> WireType {
        WireType::Prefab
    }

    fn wire_type() -> (r: WireType) {
        WireType::Prefab
    }
}

impl Serialization for SimplePrefab {
    /// The varint of the id.
    closed spec fn spec_encode(&self) -> Seq<u8> {
        spec_varint(self.0 as nat)
    }

    open spec fn spec_recorded(&self, m: Metadata) -> bool {
        true
    }

    proof fn lemma_encode_len(&self) {
        self.0.lemma_encode_len();
    }

    fn record(&self, meta_data: &mut Metadata) {
        self.0.record(meta_data);
    }

    fn encode(&self, out: &mut Vec<u8>, meta_data: &Metadata) {
        self.0.encode(out, meta_data);
    }
}

impl DeSerialization for SimplePrefab {
    open spec fn spec_decode(s: Seq<u8>) -> Result<(u64, nat), DecodeError> {
        u64::spec_decode(s)
    }

    proof fn lemma_decode_len(s: Seq<u8>) {
        u64::lemma_decode_len(s);
    }

    fn decode<L: PrefabLoader>(buf: &[u8], pos: &mut usize, ctx: &DecodeContext<L>) -> (r: Result<
        SimplePrefab,
        DecodeError,
    >) {
        let v = u64::decode(buf, pos, ctx)?;
        Ok(SimplePrefab(v))
    }
}

impl Codec for SimplePrefab {
    proof fn lemma_round_trip(v: &Self, rest: Seq<u8>) {
        u64::lemma_round_trip(&v.0, rest);
    }
}

/// The encoding of a prefab is the varint of its id.
pub proof fn lemma_simple_prefab_encoding(p: SimplePrefab)
    ensures
        p.spec_encode() == spec_varint(p.spec_index() as nat),
{
}

} // verus!
