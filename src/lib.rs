//! A tagged, length-prefixed binary codec for structured values.
//!
//! Values are written as fields whose one-byte tag packs a wire type with a
//! field id; integers use base-128 varints (signed ones after zigzag), fixed
//! scalars are little-endian, and containers carry a varint length prefix.
use vstd::prelude::*;

pub use decoder::{DecodeError, Decoder};
pub use encoder::Encoder;
pub use meta_data::Metadata;
pub use serialization::{Codec, DeSerialization, Serialization, WireTypeTrait};

pub mod box_ty;
pub mod branch;
pub mod character;
pub mod decoder;
pub mod dynamic;
pub mod encoder;
pub mod fixed;
pub mod map;
pub mod meta_data;
pub mod option;
pub mod plugin;
pub mod prefab_loader;
pub mod serialization;
pub mod signed;
pub mod simple_prefab;
pub mod slice;
pub mod string;
pub mod swap_bytes;
pub mod unsigned;
pub mod wire_type;
