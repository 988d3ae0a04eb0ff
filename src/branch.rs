//! Branch hints.
use vstd::prelude::*;

verus! {

#[inline]
fn cold() {
}

/// Returns `b`; marks the `false` branch as the cold one.
#[inline]
pub fn likely(b: bool) -> (r: bool)
    ensures
        r == b,
{
    if !b {
        cold();
    }
    b
}

/// Returns `b`; marks the `true` branch as the cold one.
#[inline]
pub fn unlikely(b: bool) -> (r: bool)
    ensures
        r == b,
{
    if b {
        cold();
    }
    b
}

} // verus!
