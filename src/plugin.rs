//! Unifying the polymorphic tables of a host and of a module it loaded.
use crate::decoder::DecodeError;
use crate::dynamic::VTable;
use vstd::prelude::*;
use vstd::utf8::encode_utf8_decode_utf8;

verus! {

/// The version that a host and a module must share to exchange tables.
pub const GS11N_VERSION: &'static str = "0.1.0";

/// `Ok` exactly when `caller_version` is this library's version.
pub fn check_gs11n_version(caller_version: &str) -> (r: Result<(), DecodeError>)
    ensures
        r is Ok <==> caller_version@ == GS11N_VERSION@,
        r is Err ==> r == Err::<(), DecodeError>(DecodeError::VersionNotCompatible),
{
    let a = caller_version.as_bytes();
    let b = GS11N_VERSION.as_bytes();
    proof {
        encode_utf8_decode_utf8(caller_version@);
        encode_utf8_decode_utf8(GS11N_VERSION@);
    }
    assert(caller_version@ == GS11N_VERSION@ ==> a@ == b@);
    if a.len() != b.len() {
        return Err(DecodeError::VersionNotCompatible);
    }
    let mut i: usize = 0;
    while i < a.len()
        invariant
            caller_version@ == GS11N_VERSION@ ==> a@ == b@,
            a@.len() == b@.len(),
            i <= a@.len(),
            forall|j: int| 0 <= j < i ==> a@[j] == b@[j],
        decreases a@.len() - i,
    {
        if a[i] != b[i] {
            return Err(DecodeError::VersionNotCompatible);
        }
        i = i + 1;
    }
    assert(a@ == b@);
    Ok(())
}

/// The table of one polymorphic interface, under the interface's name.
pub struct TraitInfo<F> {
    pub name: String,
    pub vtable: VTable<F>,
}

/// The tables of the interfaces a process knows.
pub struct TraitRegister<F> {
    traits: Vec<TraitInfo<F>>,
}

/// The table registered under `name` in `traits`, the first if several are.
pub open spec fn spec_lookup<F>(traits: Seq<TraitInfo<F>>, name: Seq<char>) -> Option<
    Map<usize, F>,
>
    decreases traits.len(),
{
    if traits.len() == 0 {
        None
    } else if traits[0].name@ == name {
        Some(traits[0].vtable@)
    } else {
        spec_lookup(traits.drop_first(), name)
    }
}

impl<F> TraitRegister<F> {
    /// The registered interfaces, in order of registration.
    pub closed spec fn spec_traits(&self) -> Seq<TraitInfo<F>> {
        self.traits@
    }

    pub open spec fn wf(&self) -> bool {
        forall|i: int| 0 <= i < self.spec_traits().len() ==> (#[trigger] self.spec_traits()[i]).vtable.wf()
    }

    /// A register with no interface.
    pub fn new() -> (r: Self)
        ensures
            r.wf(),
            r.spec_traits().len() == 0,
    {
        TraitRegister { traits: Vec::new() }
    }

    /// Adds the table of interface `name`.
    pub fn insert(&mut self, name: String, vtable: VTable<F>)
        requires
            old(self).wf(),
            vtable.wf(),
        ensures
            final(self).wf(),
            final(self).spec_traits() == old(self).spec_traits().push(TraitInfo { name, vtable }),
    {
        self.traits.push(TraitInfo { name, vtable });
    }

    /// The `i`-th registered interface.
    pub fn get(&self, i: usize) -> (r: Option<&TraitInfo<F>>)
        ensures
            r is Some <==> i < self.spec_traits().len(),
            r is Some ==> *r->Some_0 == self.spec_traits()[i as int],
    {
        if i < self.traits.len() {
            Some(&self.traits[i])
        } else {
            None
        }
    }

    /// The index of the first interface registered under `name`.
    fn position(&self, name: &String) -> (r: Option<usize>)
        ensures
            r is None ==> spec_lookup(self.spec_traits(), name@) is None,
            r is Some ==> r->Some_0 < self.spec_traits().len() && spec_lookup(
                self.spec_traits(),
                name@,
            ) == Some(self.spec_traits()[r->Some_0 as int].vtable@),
    {
        let mut i: usize = 0;
        assert(self.traits@.subrange(0, self.traits@.len() as int) == self.traits@);
        while i < self.traits.len()
            invariant
                i <= self.traits@.len(),
                spec_lookup(self.traits@, name@) == spec_lookup(
                    self.traits@.subrange(i as int, self.traits@.len() as int),
                    name@,
                ),
            decreases self.traits@.len() - i,
        {
            let ghost t = self.traits@.subrange(i as int, self.traits@.len() as int);
            assert(t[0] == self.traits@[i as int]);
            assert(t.drop_first() == self.traits@.subrange(i + 1, self.traits@.len() as int));
            if self.traits[i].name == *name {
                return Some(i);
            }
            i = i + 1;
        }
        None
    }
}

/// Unifies the tables of a module (`callee`) with those of the host that
/// loaded it (`caller`): for every interface both know, the module's entries
/// are merged into the host's table, and where both hold a type id the
/// module's entry wins. Interfaces only one side knows are left alone. The
/// module then decodes through the host's tables.
pub fn sync_traits<F: Copy>(callee: &TraitRegister<F>, caller: &mut TraitRegister<F>)
    requires
        callee.wf(),
        old(caller).wf(),
    ensures
        final(caller).wf(),
        final(caller).spec_traits().len() == old(caller).spec_traits().len(),
        forall|i: int|
            0 <= i < old(caller).spec_traits().len() ==> {
                let before = #[trigger] old(caller).spec_traits()[i];
                let after = final(caller).spec_traits()[i];
                &&& after.name == before.name
                &&& after.vtable@ == match spec_lookup(callee.spec_traits(), before.name@) {
                    Some(t) => before.vtable@.union_prefer_right(t),
                    None => before.vtable@,
                }
            },
{
    let n = caller.traits.len();
    let mut i: usize = 0;
    while i < n
        invariant
            callee.wf(),
            caller.wf(),
            n == caller.traits@.len(),
            n == old(caller).traits@.len(),
            i <= n,
            forall|j: int|
                i <= j < n ==> #[trigger] caller.traits@[j] == old(caller).traits@[j],
            forall|j: int|
                0 <= j < i ==> {
                    let before = #[trigger] old(caller).traits@[j];
                    let after = caller.traits@[j];
                    &&& after.name == before.name
                    &&& after.vtable@ == match spec_lookup(callee.traits@, before.name@) {
                        Some(t) => before.vtable@.union_prefer_right(t),
                        None => before.vtable@,
                    }
                },
        decreases n - i,
    {
        match callee.position(&caller.traits[i].name) {
            Some(k) => {
                assert(caller.spec_traits()[i as int].vtable.wf());
                assert(callee.spec_traits()[k as int].vtable.wf());
                let ghost before = caller.traits@;
                caller.traits[i].vtable.merge_from(&callee.traits[k].vtable);
                assert forall|j: int| 0 <= j < caller.spec_traits().len() implies (
                #[trigger] caller.spec_traits()[j]).vtable.wf() by {
                    if j != i {
                        assert(caller.traits@[j] == before[j]);
                    }
                }
            },
            None => {},
        }
        i = i + 1;
    }
}

} // verus!
