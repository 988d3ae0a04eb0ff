//! The hook through which a decoder resolves prefab fields.
use crate::decoder::{DecodeContext, DecodeError};
use crate::wire_type::NonPrefabWireType;
use vstd::prelude::*;

verus! {

/// Binds the codec to a resource system: a prefab field holds a token on
/// the wire, and the loader turns it into the bytes of the real value.
pub trait PrefabLoader: Sized {
    /// The wire type that a prefab token occupies, so that an unknown
    /// prefab field can be skipped.
    fn skip_wire_type(&self) -> (r: Result<NonPrefabWireType, DecodeError>);

    /// Reads the token at `buf[*pos..]` and returns the encoded bytes it
    /// stands for.
    fn handle_prefab(&self, buf: &[u8], pos: &mut usize, ctx: &DecodeContext<Self>) -> (r: Result<
        Vec<u8>,
        DecodeError,
    >)
        requires
            *old(pos) <= ctx.bound() <= buf@.len(),
        ensures
            *old(pos) <= *final(pos) <= ctx.bound(),
    ;
}

/// The loader of a decoder that was given none: it resolves no prefab.
pub struct DefaultPrefabLoader {}

impl PrefabLoader for DefaultPrefabLoader {
    fn skip_wire_type(&self) -> (r: Result<NonPrefabWireType, DecodeError>) {
        Err(DecodeError::PrefabNotExist)
    }

    fn handle_prefab(&self, buf: &[u8], pos: &mut usize, ctx: &DecodeContext<Self>) -> (r: Result<
        Vec<u8>,
        DecodeError,
    >) {
        Err(DecodeError::PrefabNotExist)
    }
}

} // verus!
