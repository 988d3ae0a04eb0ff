//! Zigzag mapping of signed integers onto unsigned ones, so that values of
//! small magnitude get short varints.
use crate::unsigned::EncodeSize;
use vstd::prelude::*;

verus! {

/// `0, -1, 1, -2, 2, ...` map to `0, 1, 2, 3, 4, ...`.
pub open spec fn spec_zigzag(s: int) -> nat {
    if s >= 0 {
        (2 * s) as nat
    } else {
        (-2 * s - 1) as nat
    }
}

/// The inverse of `spec_zigzag`.
pub open spec fn spec_unzigzag(u: nat) -> int {
    if u % 2 == 0 {
        (u / 2) as int
    } else {
        -((u / 2) as int) - 1
    }
}

/// Zigzag followed by its inverse is the identity, and a signed value of
/// `w` bits maps into the unsigned range of `w` bits.
pub proof fn lemma_zigzag_involution(s: int, half: int)
    requires
        half > 0,
        -half <= s < half,
    ensures
        spec_unzigzag(spec_zigzag(s)) == s,
        spec_zigzag(s) < 2 * half,
{
}

/// Unzigzag followed by zigzag is the identity.
pub proof fn lemma_unzigzag_involution(u: nat)
    ensures
        spec_zigzag(spec_unzigzag(u)) == u,
{
}

/// A signed integer with its zigzag mapping.
pub trait ZigZag {
    type UnsignedTy: EncodeSize;

    /// The integer's value.
    spec fn spec_int(&self) -> int;

    fn zigzag(&self) -> (r: Self::UnsignedTy)
        ensures
            r.spec_value() == spec_zigzag(self.spec_int()),
    ;
}

/// An unsigned integer with the inverse zigzag mapping.
pub trait UnZigZag: EncodeSize {
    type SignedTy: ZigZag;

    fn unzigzag(&self) -> (r: Self::SignedTy)
        ensures
            r.spec_int() == spec_unzigzag(self.spec_value()),
    ;
}

impl ZigZag for i8 {
    type UnsignedTy = u8;

    open spec fn spec_int(&self) -> int {
        *self as int
    }

    fn zigzag(&self) -> (r: u8) {
        let x = *self;
        if x >= 0 {
            (x as u8) * 2
        } else {
            ((-(x + 1)) as u8) * 2 + 1
        }
    }
}

impl UnZigZag for u8 {
    type SignedTy = i8;

    fn unzigzag(&self) -> (r: i8) {
        let u = *self;
        if u % 2 == 0 {
            (u / 2) as i8
        } else {
            -((u / 2) as i8) - 1
        }
    }
}

impl ZigZag for i16 {
    type UnsignedTy = u16;

    open spec fn spec_int(&self) -> int {
        *self as int
    }

    fn zigzag(&self) -> (r: u16) {
        let x = *self;
        if x >= 0 {
            (x as u16) * 2
        } else {
            ((-(x + 1)) as u16) * 2 + 1
        }
    }
}

impl UnZigZag for u16 {
    type SignedTy = i16;

    fn unzigzag(&self) -> (r: i16) {
        let u = *self;
        if u % 2 == 0 {
            (u / 2) as i16
        } else {
            -((u / 2) as i16) - 1
        }
    }
}

impl ZigZag for i32 {
    type UnsignedTy = u32;

    open spec fn spec_int(&self) -> int {
        *self as int
    }

    fn zigzag(&self) -> (r: u32) {
        let x = *self;
        if x >= 0 {
            (x as u32) * 2
        } else {
            ((-(x + 1)) as u32) * 2 + 1
        }
    }
}

impl UnZigZag for u32 {
    type SignedTy = i32;

    fn unzigzag(&self) -> (r: i32) {
        let u = *self;
        if u % 2 == 0 {
            (u / 2) as i32
        } else {
            -((u / 2) as i32) - 1
        }
    }
}

impl ZigZag for i64 {
    type UnsignedTy = u64;

    open spec fn spec_int(&self) -> int {
        *self as int
    }

    fn zigzag(&self) -> (r: u64) {
        let x = *self;
        if x >= 0 {
            (x as u64) * 2
        } else {
            ((-(x + 1)) as u64) * 2 + 1
        }
    }
}

impl UnZigZag for u64 {
    type SignedTy = i64;

    fn unzigzag(&self) -> (r: i64) {
        let u = *self;
        if u % 2 == 0 {
            (u / 2) as i64
        } else {
            -((u / 2) as i64) - 1
        }
    }
}

impl ZigZag for isize {
    type UnsignedTy = usize;

    open spec fn spec_int(&self) -> int {
        *self as int
    }

    fn zigzag(&self) -> (r: usize) {
        let x = *self;
        if x >= 0 {
            (x as usize) * 2
        } else {
            ((-(x + 1)) as usize) * 2 + 1
        }
    }
}

impl UnZigZag for usize {
    type SignedTy = isize;

    fn unzigzag(&self) -> (r: isize) {
        let u = *self;
        if u % 2 == 0 {
            (u / 2) as isize
        } else {
            -((u / 2) as isize) - 1
        }
    }
}

} // verus!
