//! Polymorphic values: a numeric type id followed by the concrete value,
//! decoded through a table from type ids to decode entries.
//!
//! A variant of a tagged union has the same shape: the varint of its
//! discriminant, then its payload, whose node is child `0`.
use crate::decoder::{DecodeContext, DecodeError};
use crate::meta_data::Metadata;
use crate::serialization::{Codec, Serialization};
use crate::unsigned::{
    decode_varint, lemma_varint_len_u64, lemma_varint_round_trip, spec_decode_varint, spec_varint,
    EncodeSize,
};
use vstd::prelude::*;

verus! {

/// The table of one polymorphic interface: for each registered type id, the
/// entry (typically a decode function) that builds values of that type.
/// Each type id has at most one entry.
pub struct VTable<F> {
    entries: Vec<(usize, F)>,
}

impl<F> VTable<F> {
    /// The entries, by type id.
    pub closed spec fn view(&self) -> Map<usize, F> {
        Map::new(
            |id: usize| exists|i: int| 0 <= i < self.entries@.len() && self.entries@[i].0 == id,
            |id: usize|
                self.entries@[choose|i: int| 0 <= i < self.entries@.len() && self.entries@[i].0 == id].1,
        )
    }

    pub closed spec fn wf(&self) -> bool {
        forall|i: int, j: int|
            0 <= i < self.entries@.len() && 0 <= j < self.entries@.len() && self.entries@[i].0
                == self.entries@[j].0 ==> i == j
    }

    /// An empty table.
    pub fn new() -> (r: Self)
        ensures
            r.wf(),
            r@ == Map::<usize, F>::empty(),
    {
        let r = VTable { entries: Vec::new() };
        assert(r@ =~= Map::<usize, F>::empty());
        r
    }

    proof fn lemma_view_at(&self, i: int)
        requires
            self.wf(),
            0 <= i < self.entries@.len(),
        ensures
            self@.contains_key(self.entries@[i].0),
            self@[self.entries@[i].0] == self.entries@[i].1,
    {
        let id = self.entries@[i].0;
        assert(exists|k: int| 0 <= k < self.entries@.len() && self.entries@[k].0 == id);
        let k = choose|k: int| 0 <= k < self.entries@.len() && self.entries@[k].0 == id;
        assert(k == i);
    }

    /// The index of the entry for `id`, if there is one.
    fn find(&self, id: usize) -> (r: Option<usize>)
        requires
            self.wf(),
        ensures
            r is None ==> !self@.contains_key(id),
            r is Some ==> r->Some_0 < self.entries@.len() && self.entries@[r->Some_0 as int].0 == id
                && self@.contains_key(id) && self@[id] == self.entries@[r->Some_0 as int].1,
    {
        let mut i: usize = 0;
        while i < self.entries.len()
            invariant
                self.wf(),
                i <= self.entries@.len(),
                forall|j: int| 0 <= j < i ==> self.entries@[j].0 != id,
            decreases self.entries@.len() - i,
        {
            if self.entries[i].0 == id {
                proof {
                    self.lemma_view_at(i as int);
                }
                return Some(i);
            }
            i = i + 1;
        }
        None
    }

    /// The entry for `id`, if one is registered.
    pub fn get(&self, id: usize) -> (r: Option<&F>)
        requires
            self.wf(),
        ensures
            r is None <==> !self@.contains_key(id),
            r is Some ==> *r->Some_0 == self@[id],
    {
        match self.find(id) {
            Some(i) => Some(&self.entries[i].1),
            None => None,
        }
    }

    /// Registers `entry` for `id`, replacing an earlier one: the last writer wins.
    pub fn register(&mut self, id: usize, entry: F)
        requires
            old(self).wf(),
        ensures
            final(self).wf(),
            final(self)@ == old(self)@.insert(id, entry),
    {
        match self.find(id) {
            Some(i) => {
                let ghost before = self.entries@;
                self.entries.set(i, (id, entry));
                proof {
                    assert forall|k: usize| #[trigger] self@.contains_key(k) == old(self)@.insert(
                        id,
                        entry,
                    ).contains_key(k) by {
                        if old(self)@.contains_key(k) {
                            let j = choose|j: int|
                                0 <= j < before.len() && before[j].0 == k;
                            assert(self.entries@[j].0 == k);
                        }
                        if self@.contains_key(k) {
                            let j = choose|j: int|
                                0 <= j < self.entries@.len() && self.entries@[j].0 == k;
                            if j != i {
                                assert(before[j].0 == k);
                            }
                        }
                    }
                    assert forall|k: usize| #[trigger] self@.contains_key(k) implies self@[k]
                        == old(self)@.insert(id, entry)[k] by {
                        let j = choose|j: int|
                            0 <= j < self.entries@.len() && self.entries@[j].0 == k;
                        self.lemma_view_at(j);
                        if j != i {
                            assert(before[j] == self.entries@[j]);
                            old(self).lemma_view_at(j);
                        }
                    }
                    assert(self@ =~= old(self)@.insert(id, entry));
                }
            },
            None => {
                let ghost before = self.entries@;
                self.entries.push((id, entry));
                proof {
                    let n = before.len() as int;
                    assert forall|k: usize| #[trigger] self@.contains_key(k) == old(self)@.insert(
                        id,
                        entry,
                    ).contains_key(k) by {
                        if old(self)@.contains_key(k) {
                            let j = choose|j: int|
                                0 <= j < before.len() && before[j].0 == k;
                            assert(self.entries@[j].0 == k);
                        }
                        if k == id {
                            assert(self.entries@[n].0 == k);
                        }
                        if self@.contains_key(k) && k != id {
                            let j = choose|j: int|
                                0 <= j < self.entries@.len() && self.entries@[j].0 == k;
                            assert(before[j].0 == k);
                        }
                    }
                    assert forall|k: usize| #[trigger] self@.contains_key(k) implies self@[k]
                        == old(self)@.insert(id, entry)[k] by {
                        let j = choose|j: int|
                            0 <= j < self.entries@.len() && self.entries@[j].0 == k;
                        self.lemma_view_at(j);
                        if j != n {
                            assert(before[j] == self.entries@[j]);
                            old(self).lemma_view_at(j);
                        }
                    }
                    assert(self@ =~= old(self)@.insert(id, entry));
                }
            },
        }
    }
}

impl<F: Copy> VTable<F> {
    /// Copies every entry of `other` into this table; where both hold an id,
    /// `other`'s entry wins.
    pub fn merge_from(&mut self, other: &VTable<F>)
        requires
            old(self).wf(),
            other.wf(),
        ensures
            final(self).wf(),
            final(self)@ == old(self)@.union_prefer_right(other@),
    {
        let mut i: usize = 0;
        while i < other.entries.len()
            invariant
                self.wf(),
                other.wf(),
                i <= other.entries@.len(),
                self@ == old(self)@.union_prefer_right(
                    other@.restrict(
                        Set::new(
                            |k: usize|
                                exists|j: int| 0 <= j < i && other.entries@[j].0 == k,
                        ),
                    ),
                ),
            decreases other.entries@.len() - i,
        {
            let (id, entry) = other.entries[i];
            proof {
                other.lemma_view_at(i as int);
            }
            self.register(id, entry);
            proof {
                let s0 = Set::new(|k: usize| exists|j: int| 0 <= j < i && other.entries@[j].0 == k);
                let s1 = Set::new(
                    |k: usize| exists|j: int| 0 <= j < i + 1 && other.entries@[j].0 == k,
                );
                assert(s1 =~= s0.insert(id)) by {
                    assert forall|k: usize| s1.contains(k) implies #[trigger] s0.insert(id).contains(k) by {
                        let j = choose|j: int| 0 <= j < i + 1 && other.entries@[j].0 == k;
                        if j < i {
                            assert(s0.contains(k));
                        }
                    }
                    assert forall|k: usize| #[trigger] s0.insert(id).contains(k) implies s1.contains(k) by {
                        if k == id {
                            assert(other.entries@[i as int].0 == k);
                        } else {
                            let j = choose|j: int| 0 <= j < i && other.entries@[j].0 == k;
                            assert(0 <= j < i + 1 && other.entries@[j].0 == k);
                        }
                    }
                }
                assert(self@ =~= old(self)@.union_prefer_right(other@.restrict(s1)));
            }
            i = i + 1;
        }
        proof {
            let s = Set::new(
                |k: usize| exists|j: int| 0 <= j < other.entries@.len() && other.entries@[j].0 == k,
            );
            assert(other@.restrict(s) =~= other@);
        }
    }
}

/// The bytes of a polymorphic value: the varint of its type id, then its own encoding.
pub open spec fn spec_dyn_encode<S: Serialization>(type_id: usize, value: S) -> Seq<u8> {
    spec_varint(type_id as nat) + value.spec_encode()
}

/// Records the size of a polymorphic value: the type id's varint and the
/// value, whose node is child `0`.
pub fn record_dyn<S: Serialization>(type_id: usize, value: &S, meta_data: &mut Metadata)
    requires
        spec_dyn_encode(type_id, *value).len() <= usize::MAX,
    ensures
        final(meta_data).size == spec_dyn_encode(type_id, *value).len(),
        final(meta_data).children@.len() >= 1,
        value.spec_recorded(final(meta_data).children@[0]),
        final(meta_data).children@[0].size == value.spec_encode().len(),
{
    proof {
        lemma_varint_len_u64(type_id as nat);
    }
    {
        let child = meta_data.get(0);
        value.record(child);
    }
    meta_data.size = meta_data.children[0].size + type_id.size();
}

/// Writes a polymorphic value: its type id, then the value.
pub fn encode_dyn<S: Serialization>(
    type_id: usize,
    value: &S,
    out: &mut Vec<u8>,
    meta_data: &Metadata,
)
    requires
        meta_data.children@.len() >= 1,
        value.spec_recorded(meta_data.children@[0]),
    ensures
        final(out)@ == old(out)@ + spec_dyn_encode(type_id, *value),
{
    type_id.encode_raw(out);
    value.encode(out, meta_data.child(0));
}

/// How the type id of a polymorphic value is read from the front of `s`
/// and looked up in `table`: the entry and the number of bytes read; an
/// unregistered id is `InvalidType`.
pub open spec fn spec_decode_type_id<F>(table: Map<usize, F>, s: Seq<u8>) -> Result<
    (F, nat),
    DecodeError,
> {
    match spec_decode_varint(s, usize::MAX as nat) {
        Ok((id, k)) => if table.contains_key(id as usize) {
            Ok((table[id as usize], k))
        } else {
            Err(DecodeError::InvalidType)
        },
        Err(e) => Err(e),
    }
}

/// Reads the type id of a polymorphic value and returns its table entry;
/// the caller then decodes the value through that entry.
pub fn decode_type_id<'t, F, L>(
    buf: &[u8],
    pos: &mut usize,
    ctx: &DecodeContext<L>,
    table: &'t VTable<F>,
) -> (r: Result<&'t F, DecodeError>)
    requires
        *old(pos) <= ctx.bound() <= buf@.len(),
        table.wf(),
    ensures
        *old(pos) <= *final(pos) <= ctx.bound(),
        spec_decode_type_id(table@, buf@.subrange(*old(pos) as int, ctx.bound() as int)) == (match r {
            Ok(f) => Ok((*f, (*final(pos) - *old(pos)) as nat)),
            Err(e) => Err::<(F, nat), DecodeError>(e),
        }),
{
    let id = decode_varint(buf, pos, ctx.bounds_checker.bound, usize::MAX as u64)?;
    match table.get(id as usize) {
        Some(entry) => Ok(entry),
        None => Err(DecodeError::InvalidType),
    }
}

/// A polymorphic value of a registered type reads back: the type id leads
/// to its table entry, and the bytes after the id decode to the value.
pub proof fn lemma_dyn_round_trip<C: Codec, F>(
    table: Map<usize, F>,
    type_id: usize,
    value: C,
    rest: Seq<u8>,
)
    requires
        table.contains_key(type_id),
        value.spec_encode().len() <= usize::MAX,
    ensures
        spec_decode_type_id(table, spec_dyn_encode(type_id, value) + rest) == Ok::<
            (F, nat),
            DecodeError,
        >((table[type_id], spec_varint(type_id as nat).len())),
        C::spec_decode(
            (spec_dyn_encode(type_id, value) + rest).subrange(
                spec_varint(type_id as nat).len() as int,
                (spec_dyn_encode(type_id, value) + rest).len() as int,
            ),
        ) == Ok::<(C::V, nat), DecodeError>((value.deep_view(), value.spec_encode().len())),
{
    let s = spec_dyn_encode(type_id, value) + rest;
    let k = spec_varint(type_id as nat).len();
    assert(s == spec_varint(type_id as nat) + (value.spec_encode() + rest));
    lemma_varint_round_trip(type_id as nat, value.spec_encode() + rest);
    assert(s.subrange(k as int, s.len() as int) == value.spec_encode() + rest);
    C::lemma_round_trip(&value, rest);
}

} // verus!
