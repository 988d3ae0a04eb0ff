//! Wire types and the one-byte wired id that packs a wire type with a field id.
use crate::decoder::DecodeError;
use vstd::prelude::*;

verus! {

/// The on-wire shape of a value.
///
/// `BitsN` takes a fixed number of bytes; `Varint` is a base-128 integer;
/// `LengthDelimited` is a varint length followed by that many bytes;
/// `Prefab` is a token that a prefab loader resolves to the real bytes.
#[derive(Clone, Copy, Debug, PartialEq, Eq, Structural)]
pub enum WireType {
    Bits8,
    Bits16,
    Bits32,
    Bits64,
    Bits128,
    Prefab,
    Varint,
    LengthDelimited,
}

/// The stable number of a wire type, as it stands in the top three bits of a wired id.
pub open spec fn wire_type_code(w: WireType) -> u8 {
    match w {
        WireType::Bits8 => 0,
        WireType::Bits16 => 1,
        WireType::Bits32 => 2,
        WireType::Bits64 => 3,
        WireType::Bits128 => 4,
        WireType::Prefab => 5,
        WireType::Varint => 6,
        WireType::LengthDelimited => 7,
    }
}

/// The wire type with number `v`, if there is one.
pub open spec fn wire_type_of_code(v: u8) -> Result<WireType, DecodeError> {
    if v == 0 {
        Ok(WireType::Bits8)
    } else if v == 1 {
        Ok(WireType::Bits16)
    } else if v == 2 {
        Ok(WireType::Bits32)
    } else if v == 3 {
        Ok(WireType::Bits64)
    } else if v == 4 {
        Ok(WireType::Bits128)
    } else if v == 5 {
        Ok(WireType::Prefab)
    } else if v == 6 {
        Ok(WireType::Varint)
    } else if v == 7 {
        Ok(WireType::LengthDelimited)
    } else {
        Err(DecodeError::InvalidType)
    }
}

/// Number of bytes a fixed wire type occupies (0 for the others).
pub open spec fn fixed_width(w: WireType) -> nat {
    match w {
        WireType::Bits8 => 1,
        WireType::Bits16 => 2,
        WireType::Bits32 => 4,
        WireType::Bits64 => 8,
        WireType::Bits128 => 16,
        _ => 0,
    }
}

pub open spec fn is_fixed(w: WireType) -> bool {
    fixed_width(w) > 0
}

pub proof fn lemma_wire_type_code_round_trip(w: WireType)
    ensures
        wire_type_of_code(wire_type_code(w)) == Ok::<WireType, DecodeError>(w),
        wire_type_code(w) < 8,
{
}

impl WireType {
    /// The wire type with number `v`; `InvalidType` unless `v` is in 0..=7.
    pub fn from(v: u8) -> (r: Result<WireType, DecodeError>)
        ensures
            r == wire_type_of_code(v),
            r is Ok <==> v < 8,
            r is Ok ==> wire_type_code(r->Ok_0) == v,
    {
        match v {
            0 => Ok(WireType::Bits8),
            1 => Ok(WireType::Bits16),
            2 => Ok(WireType::Bits32),
            3 => Ok(WireType::Bits64),
            4 => Ok(WireType::Bits128),
            5 => Ok(WireType::Prefab),
            6 => Ok(WireType::Varint),
            7 => Ok(WireType::LengthDelimited),
            _ => Err(DecodeError::InvalidType),
        }
    }

    /// Whether values of this wire type take a fixed number of bytes.
    pub fn is_fixed_type(&self) -> (r: bool)
        ensures
            r == is_fixed(*self),
    {
        match self {
            WireType::Bits8 => true,
            WireType::Bits16 => true,
            WireType::Bits32 => true,
            WireType::Bits64 => true,
            WireType::Bits128 => true,
            WireType::Prefab => false,
            WireType::Varint => false,
            WireType::LengthDelimited => false,
        }
    }

    /// The number of this wire type.
    pub fn code(&self) -> (r: u8)
        ensures
            r == wire_type_code(*self),
    {
        match self {
            WireType::Bits8 => 0,
            WireType::Bits16 => 1,
            WireType::Bits32 => 2,
            WireType::Bits64 => 3,
            WireType::Bits128 => 4,
            WireType::Prefab => 5,
            WireType::Varint => 6,
            WireType::LengthDelimited => 7,
        }
    }
}

/// The wired-id byte for a short field id: the wire type in the top three
/// bits and `id` in the low five.
pub open spec fn spec_wired_id_byte(id: nat, wire_type: WireType) -> u8 {
    (wire_type_code(wire_type) * 32 + id) as u8
}

/// Packs a wire type and a field id below 32 into one byte.
pub fn wired_id_constant_from(id: u8, wire_type: WireType) -> (r: u8)
    requires
        id < 32,
    ensures
        r == spec_wired_id_byte(id as nat, wire_type),
        r / 32 == wire_type_code(wire_type),
        r % 32 == id,
{
    wire_type.code() * 32 + id
}

/// Splits a wired-id byte into its low five bits and its wire type.
pub fn deformmat_wired_id(wired_id: u8) -> (r: Result<(u8, WireType), DecodeError>)
    ensures
        r is Ok,
        r->Ok_0.0 == wired_id % 32,
        wire_type_of_code(wired_id / 32) == Ok::<WireType, DecodeError>(r->Ok_0.1),
        wire_type_code(r->Ok_0.1) == wired_id / 32,
{
    let wire_type = WireType::from(wired_id / 32)?;
    let id = wired_id % 32;
    Ok((id, wire_type))
}

/// A wire type other than `Prefab`: what a prefab occupies on the wire.
#[derive(Clone, Copy, Debug, PartialEq, Eq, Structural)]
pub enum NonPrefabWireType {
    Bits8,
    Bits16,
    Bit32,
    Bit64,
    Bit128,
    Varint,
    LengthDelimited,
}

pub open spec fn spec_to_wire_type(w: NonPrefabWireType) -> WireType {
    match w {
        NonPrefabWireType::Bits8 => WireType::Bits8,
        NonPrefabWireType::Bits16 => WireType::Bits16,
        NonPrefabWireType::Bit32 => WireType::Bits32,
        NonPrefabWireType::Bit64 => WireType::Bits64,
        NonPrefabWireType::Bit128 => WireType::Bits128,
        NonPrefabWireType::Varint => WireType::Varint,
        NonPrefabWireType::LengthDelimited => WireType::LengthDelimited,
    }
}

impl NonPrefabWireType {
    /// The same wire type, as a `WireType`.
    pub fn to_wire_type(&self) -> (r: WireType)
        ensures
            r == spec_to_wire_type(*self),
            r != WireType::Prefab,
    {
        match self {
            NonPrefabWireType::Bits8 => WireType::Bits8,
            NonPrefabWireType::Bits16 => WireType::Bits16,
            NonPrefabWireType::Bit32 => WireType::Bits32,
            NonPrefabWireType::Bit64 => WireType::Bits64,
            NonPrefabWireType::Bit128 => WireType::Bits128,
            NonPrefabWireType::Varint => WireType::Varint,
            NonPrefabWireType::LengthDelimited => WireType::LengthDelimited,
        }
    }
}

} // verus!
