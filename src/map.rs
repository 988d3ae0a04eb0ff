//! Keyed mappings: a varint entry count, then each key followed by its
//! value, in the order the mapping is walked.
//!
//! A mapping's entries are handed over as a slice of pairs in that order;
//! on the wire an entry is exactly a pair, so a mapping reads back as a
//! sequence of pairs that the caller inserts into the mapping it wants.
use crate::decoder::{DecodeContext, DecodeError};
use crate::meta_data::Metadata;
use crate::prefab_loader::PrefabLoader;
use crate::serialization::{decoded, Codec, DeSerialization, Serialization, WireTypeTrait};
use crate::slice::{
    decode_seq, deep_seq, encode_all, lemma_encode_all_prefix_step,
    lemma_encode_all_split, spec_decode_seq,
};
use crate::unsigned::{lemma_varint_len_u64, spec_varint, EncodeSize};
use crate::wire_type::WireType;
use vstd::prelude::*;

verus! {

impl<K, V> WireTypeTrait for (K, V) {
    open spec fn spec_wire_type() -> WireType {
        WireType::LengthDelimited
    }

    fn wire_type() -> (r: WireType) {
        WireType::LengthDelimited
    }
}

impl<K: Serialization, V: Serialization> Serialization for (K, V) {
    /// The key's encoding, then the value's.
    open spec fn spec_encode(&self) -> Seq<u8> {
        self.0.spec_encode() + self.1.spec_encode()
    }

    /// The key's node is child `0`, the value's child `1`.
    open spec fn spec_recorded(&self, m: Metadata) -> bool {
        m.children@.len() >= 2 && self.0.spec_recorded(m.children@[0]) && self.1.spec_recorded(
            m.children@[1],
        )
    }

    proof fn lemma_encode_len(&self) {
        self.0.lemma_encode_len();
    }

    fn record(&self, meta_data: &mut Metadata) {
        proof {
            self.0.lemma_encode_len();
            self.1.lemma_encode_len();
        }
        {
            let child = meta_data.get(0);
            self.0.record(child);
        }
        {
            let child = meta_data.get(1);
            self.1.record(child);
        }
        meta_data.size = meta_data.children[0].size + meta_data.children[1].size;
    }

    fn encode(&self, out: &mut Vec<u8>, meta_data: &Metadata) {
        self.0.encode(out, meta_data.child(0));
        self.1.encode(out, meta_data.child(1));
        assert(out@ == old(out)@ + self.spec_encode());
    }
}

impl<K: DeSerialization, V: DeSerialization> DeSerialization for (K, V) {
    open spec fn spec_decode(s: Seq<u8>) -> Result<((K::V, V::V), nat), DecodeError> {
        match K::spec_decode(s) {
            Ok((k, c)) => match V::spec_decode(s.subrange(c as int, s.len() as int)) {
                Ok((v, c2)) => Ok(((k, v), c + c2)),
                Err(e) => Err(e),
            },
            Err(e) => Err(e),
        }
    }

    proof fn lemma_decode_len(s: Seq<u8>) {
        K::lemma_decode_len(s);
        if K::spec_decode(s) is Ok {
            let c = K::spec_decode(s)->Ok_0.1;
            V::lemma_decode_len(s.subrange(c as int, s.len() as int));
        }
    }

    fn decode<L: PrefabLoader>(buf: &[u8], pos: &mut usize, ctx: &DecodeContext<L>) -> (r: Result<
        (K, V),
        DecodeError,
    >) {
        let ghost s = buf@.subrange(*old(pos) as int, ctx.bound() as int);
        let key = K::decode(buf, pos, ctx)?;
        assert(buf@.subrange(*pos as int, ctx.bound() as int) == s.subrange(
            *pos - *old(pos),
            s.len() as int,
        ));
        let value = V::decode(buf, pos, ctx)?;
        Ok((key, value))
    }
}

impl<K: Codec, V: Codec> Codec for (K, V) {
    proof fn lemma_round_trip(v: &Self, rest: Seq<u8>) {
        let ek = v.0.spec_encode();
        let ev = v.1.spec_encode();
        let s = v.spec_encode() + rest;
        assert(s == ek + (ev + rest));
        K::lemma_round_trip(&v.0, ev + rest);
        assert(s.subrange(ek.len() as int, s.len() as int) == ev + rest);
        V::lemma_round_trip(&v.1, rest);
    }
}

proof fn lemma_entries_len<K: Serialization, V: Serialization>(entries: Seq<(K, V)>)
    ensures
        encode_all(entries).len() >= 2 * entries.len(),
    decreases entries.len(),
{
    if entries.len() > 0 {
        lemma_entries_len(entries.drop_last());
        entries.last().0.lemma_encode_len();
        entries.last().1.lemma_encode_len();
    }
}

/// Whether `m` holds what `encode_entries` reads: the node of the i-th key
/// at child `2i`, of its value at child `2i + 1`.
pub open spec fn entries_recorded<K: Serialization, V: Serialization>(
    entries: Seq<(K, V)>,
    m: Metadata,
) -> bool {
    &&& m.children@.len() >= 2 * entries.len()
    &&& forall|i: int|
        0 <= i < entries.len() ==> (#[trigger] entries[i]).0.spec_recorded(m.children@[2 * i])
            && entries[i].1.spec_recorded(m.children@[2 * i + 1])
}

/// Writes a mapping given by its entries in walking order: the count,
/// then each key and its value.
pub fn encode_entries<K: Serialization, V: Serialization>(
    entries: &[(K, V)],
    out: &mut Vec<u8>,
    meta_data: &Metadata,
)
    requires
        entries_recorded(entries@, *meta_data),
    ensures
        final(out)@ == old(out)@ + spec_varint(entries@.len()) + encode_all(entries@),
{
    let n = entries.len();
    let slots = meta_data.children.len();
    n.encode_raw(out);
    let mut i: usize = 0;
    while i < n
        invariant
            n == entries@.len(),
            slots == meta_data.children@.len(),
            i <= n,
            entries_recorded(entries@, *meta_data),
            out@ == old(out)@ + spec_varint(n as nat) + encode_all(entries@.subrange(0, i as int)),
        decreases n - i,
    {
        proof {
            lemma_encode_all_prefix_step(entries@, i as int);
        }
        let (key, value) = &entries[i];
        key.encode(out, meta_data.child(2 * i));
        value.encode(out, meta_data.child(2 * i + 1));
        i = i + 1;
    }
    assert(entries@.subrange(0, n as int) == entries@);
}

/// Records the size of a mapping given by its entries, and the node of
/// each key and value.
pub fn record_entries<K: Serialization, V: Serialization>(
    entries: &[(K, V)],
    meta_data: &mut Metadata,
)
    requires
        spec_varint(entries@.len()).len() + encode_all(entries@).len() <= usize::MAX,
    ensures
        final(meta_data).size == spec_varint(entries@.len()).len() + encode_all(entries@).len(),
        entries_recorded(entries@, *final(meta_data)),
{
    let n = entries.len();
    proof {
        lemma_entries_len(entries@);
        lemma_varint_len_u64(n as nat);
    }
    let mut size: usize = 0;
    let mut i: usize = 0;
    while i < n
        invariant
            n == entries@.len(),
            i <= n,
            size == encode_all(entries@.subrange(0, i as int)).len(),
            spec_varint(n as nat).len() + encode_all(entries@).len() <= usize::MAX,
            2 * n <= encode_all(entries@).len(),
            spec_varint(n as nat).len() >= 1,
            meta_data.children@.len() >= 2 * i,
            forall|j: int|
                0 <= j < i ==> (#[trigger] entries@[j]).0.spec_recorded(meta_data.children@[2 * j])
                    && entries@[j].1.spec_recorded(meta_data.children@[2 * j + 1]),
        decreases n - i,
    {
        proof {
            lemma_encode_all_split(entries@, i as int + 1);
            lemma_encode_all_prefix_step(entries@, i as int);
        }
        let (key, value) = &entries[i];
        let ghost before = meta_data.children@;
        {
            let child = meta_data.get(2 * i);
            key.record(child);
        }
        let ghost middle = meta_data.children@;
        {
            let child = meta_data.get(2 * i + 1);
            value.record(child);
        }
        size = size + meta_data.children[2 * i].size + meta_data.children[2 * i + 1].size;
        assert forall|j: int| 0 <= j < i + 1 implies (#[trigger] entries@[j]).0.spec_recorded(
            meta_data.children@[2 * j],
        ) && entries@[j].1.spec_recorded(meta_data.children@[2 * j + 1]) by {
            if j < i {
                assert(meta_data.children@[2 * j] == before[2 * j]);
                assert(meta_data.children@[2 * j + 1] == before[2 * j + 1]);
            } else {
                assert(meta_data.children@[2 * j] == middle[2 * j]);
            }
        }
        i = i + 1;
    }
    assert(entries@.subrange(0, n as int) == entries@);
    meta_data.size = n.size() + size;
}

/// Reads a mapping back as its entries, in the order they were written.
pub fn decode_entries<K: DeSerialization, V: DeSerialization, L: PrefabLoader>(
    buf: &[u8],
    pos: &mut usize,
    ctx: &DecodeContext<L>,
) -> (r: Result<Vec<(K, V)>, DecodeError>)
    requires
        *old(pos) <= ctx.bound() <= buf@.len(),
    ensures
        *old(pos) <= *final(pos) <= ctx.bound(),
        spec_decode_seq::<(K, V)>(buf@.subrange(*old(pos) as int, ctx.bound() as int)) == decoded(
            r,
            *final(pos) - *old(pos),
        ),
{
    decode_seq(buf, pos, ctx)
}

/// A mapping written from its entries reads back as the same entries, in
/// the same order, having read exactly what was written.
pub proof fn lemma_entries_round_trip<K: Codec, V: Codec>(entries: Seq<(K, V)>, rest: Seq<u8>)
    requires
        spec_varint(entries.len()).len() + encode_all(entries).len() <= usize::MAX,
    ensures
        spec_decode_seq::<(K, V)>(spec_varint(entries.len()) + encode_all(entries) + rest) == Ok::<
            (Seq<(K::V, V::V)>, nat),
            DecodeError,
        >((deep_seq(entries), spec_varint(entries.len()).len() + encode_all(entries).len())),
{
    crate::slice::lemma_seq_round_trip(entries, rest);
}

} // verus!
