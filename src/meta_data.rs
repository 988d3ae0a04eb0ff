//! The size cache filled by `record` and read by `encode`.
use vstd::prelude::*;

verus! {

/// The recorded size of a value and, for values with parts, one node per
/// child slot: a field id, an element index, `2i` / `2i + 1` for the i-th
/// key / value of a mapping, `0` for the content of an optional.
///
/// Children are held densely, indexed by slot; a slot that was never
/// filled holds an empty node.
pub struct Metadata {
    /// Number of bytes the value takes when encoded.
    pub size: usize,
    pub children: Vec<Metadata>,
}

impl Metadata {
    /// A node with size 0 and no children.
    pub fn new() -> (r: Metadata)
        ensures
            r.size == 0,
            r.children@.len() == 0,
    {
        Metadata { size: 0, children: Vec::new() }
    }

    /// The child for `index`, created empty (with empty nodes before it) if absent.
    pub fn get(&mut self, index: usize) -> (r: &mut Metadata)
        requires
            index < usize::MAX,
        ensures
            index < old(self).children@.len() ==> *r == old(self).children@[index as int],
            index >= old(self).children@.len() ==> r.size == 0 && r.children@.len() == 0,
            final(self).size == old(self).size,
            final(self).children@.len() == if index < old(self).children@.len() {
                old(self).children@.len() as int
            } else {
                index + 1
            },
            final(self).children@[index as int] == *final(r),
            forall|j: int|
                0 <= j < old(self).children@.len() && j != index ==> final(self).children@[j]
                    == old(self).children@[j],
    {
        while self.children.len() <= index
            invariant
                index < usize::MAX,
                self.size == old(self).size,
                old(self).children@.len() <= self.children@.len(),
                index >= old(self).children@.len() ==> self.children@.len() <= index + 1,
                index < old(self).children@.len() ==> self.children@ == old(self).children@,
                forall|j: int|
                    0 <= j < old(self).children@.len() ==> self.children@[j]
                        == old(self).children@[j],
                forall|j: int|
                    old(self).children@.len() <= j < self.children@.len() ==> self.children@[j].size
                        == 0 && self.children@[j].children@.len() == 0,
            decreases index + 1 - self.children@.len(),
        {
            self.children.push(Metadata::new());
        }
        &mut self.children[index]
    }

    /// The child for `index`, which must exist.
    pub fn child(&self, index: usize) -> (r: &Metadata)
        requires
            index < self.children@.len(),
        ensures
            *r == self.children@[index as int],
    {
        &self.children[index]
    }
}

impl Default for Metadata {
    fn default() -> (r: Metadata)
        ensures
            r.size == 0,
            r.children@.len() == 0,
    {
        Metadata::new()
    }
}

} // verus!
