use gs11n::decoder::{decode_field, decode_wired_id, DecodeError, Decoder};
use gs11n::encoder::{encode_field, size_of_field};
use gs11n::meta_data::Metadata;
use gs11n::prefab_loader::DefaultPrefabLoader;
use gs11n::wire_type::WireType;
use gs11n::{DeSerialization, Serialization};

#[derive(PartialEq, Debug, Default)]
struct Position<T> {
    x: T,
    y: T,
}

fn position_encode<T: Serialization + DeSerialization + Default>(p: &Position<T>) -> Vec<u8> {
    let mut meta_data = Metadata::default();
    p.x.record(meta_data.get(0));
    p.y.record(meta_data.get(1));
    let mut size = size_of_field::<T>(0, meta_data.get(0));
    size += size_of_field::<T>(1, meta_data.get(1));
    meta_data.size = size;
    let mut out: Vec<u8> = Vec::with_capacity(size);
    encode_field(0, &p.x, &mut out, meta_data.child(0));
    encode_field(1, &p.y, &mut out, meta_data.child(1));
    assert_eq!(out.len(), meta_data.size);
    out
}

fn position_decode<T: Serialization + DeSerialization + Default>(
    decoder: &Decoder<DefaultPrefabLoader>,
) -> Result<Position<T>, DecodeError> {
    let ctx = decoder.get_context();
    let buf = decoder.get_buffer();
    let mut pos: usize = 0;
    let mut v = Position::<T>::default();
    while pos < ctx.bounds_checker.get_bound() {
        let (id, wire_type) = decode_wired_id(buf, &mut pos, ctx)?;
        let is_prefab = wire_type == WireType::Prefab;
        match id {
            0 => v.x = decode_field(buf, &mut pos, ctx, is_prefab)?,
            1 => v.y = decode_field(buf, &mut pos, ctx, is_prefab)?,
            _ => ctx.skip(buf, &mut pos, wire_type)?,
        }
    }
    Ok(v)
}

#[test]
fn generic_test() {
    let position: Position<i32> = Position { x: 1, y: -1 };

    let buffer = position_encode(&position);
    assert_eq!(buffer, vec![0b110_00000, 0x2, 0b110_00001, 0x1,]);

    let decoder = Decoder::from_data(buffer);
    let position2: Position<i32> = position_decode(&decoder).unwrap();
    assert_eq!(position2, position);
}
