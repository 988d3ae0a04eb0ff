use gs11n::decoder::{decode_field, decode_wired_id, DecodeError, Decoder};
use gs11n::encoder::{encode_field, size_of_field, Encoder};
use gs11n::fixed::Fixed32;
use gs11n::meta_data::Metadata;
use gs11n::wire_type::WireType;
use gs11n::Serialization;

#[derive(Default)]
struct Foo {
    f_0: i16,
    f_1: f32,
    f_2: u16,
    f_3: Vec<i32>,
    f_30: u16,
    f_31: u32,
}

fn foo_record(foo: &Foo, meta_data: &mut Metadata) {
    foo.f_0.record(meta_data.get(0));
    Fixed32(foo.f_1.to_bits()).record(meta_data.get(1));
    foo.f_2.record(meta_data.get(2));
    foo.f_3.record(meta_data.get(3));
    foo.f_30.record(meta_data.get(30));
    foo.f_31.record(meta_data.get(31));

    let mut size = size_of_field::<i16>(0, meta_data.get(0));
    size += size_of_field::<Fixed32>(1, meta_data.get(1));
    size += size_of_field::<u16>(2, meta_data.get(2));
    size += size_of_field::<Vec<i32>>(3, meta_data.get(3));
    size += size_of_field::<u16>(30, meta_data.get(30));
    size += size_of_field::<u32>(31, meta_data.get(31));
    meta_data.size = size;
}

fn foo_encode(foo: &Foo, out: &mut Vec<u8>, meta_data: &Metadata) {
    encode_field(0, &foo.f_0, out, meta_data.child(0));
    encode_field(1, &Fixed32(foo.f_1.to_bits()), out, meta_data.child(1));
    encode_field(2, &foo.f_2, out, meta_data.child(2));
    encode_field(3, &foo.f_3, out, meta_data.child(3));
    encode_field(30, &foo.f_30, out, meta_data.child(30));
    encode_field(31, &foo.f_31, out, meta_data.child(31));
}

fn foo_decode(decoder: &Decoder<gs11n::prefab_loader::DefaultPrefabLoader>) -> Result<Foo, DecodeError> {
    let ctx = decoder.get_context();
    let buf = decoder.get_buffer();
    let mut pos: usize = 0;
    let mut v = Foo::default();
    while pos < ctx.bounds_checker.get_bound() {
        let (id, wire_type) = decode_wired_id(buf, &mut pos, ctx)?;
        let is_prefab = wire_type == WireType::Prefab;
        match id {
            0 => v.f_0 = decode_field(buf, &mut pos, ctx, is_prefab)?,
            1 => v.f_1 = f32::from_bits(decode_field::<Fixed32, _>(buf, &mut pos, ctx, is_prefab)?.0),
            2 => v.f_2 = decode_field(buf, &mut pos, ctx, is_prefab)?,
            3 => v.f_3 = decode_field(buf, &mut pos, ctx, is_prefab)?,
            30 => v.f_30 = decode_field(buf, &mut pos, ctx, is_prefab)?,
            31 => v.f_31 = decode_field(buf, &mut pos, ctx, is_prefab)?,
            _ => ctx.skip(buf, &mut pos, wire_type)?,
        }
    }
    Ok(v)
}

#[test]
fn struct_serialization_test() {
    let foo = Foo {
        f_0: -1,
        f_1: 0.1,
        f_2: 0x80,
        f_3: vec![1, 10, 100, 1000],
        f_30: 0,
        f_31: 0x80,
    };
    let mut meta = Metadata::default();
    foo_record(&foo, &mut meta);
    let mut real: Vec<u8> = Vec::new();
    foo_encode(&foo, &mut real, &meta);
    assert_eq!(real.len(), meta.size);
    let expected: Vec<u8> = vec![
        0b110_00000,
        0x1,
        0b010_00001,
        0xCD,
        0xCC,
        0xCC,
        0x3D,
        0b110_00010,
        0x80,
        0x1,
        0b111_00011,
        0x7,
        0x4,
        2,
        20,
        200,
        1,
        208,
        15,
        0b110_11110,
        0x0,
        0b110_11111,
        0x1,
        0x80,
        0x1,
    ];
    assert_eq!(real, expected);

    let decoder = Decoder::from_data(real);
    let foo2 = foo_decode(&decoder).unwrap();
    assert_eq!(foo.f_0, foo2.f_0);
    assert_eq!(foo.f_1, foo2.f_1);
    assert_eq!(foo.f_2, foo2.f_2);
    assert_eq!(foo.f_3, foo2.f_3);
    assert_eq!(foo.f_30, foo2.f_30);
    assert_eq!(foo.f_31, foo2.f_31);
}

#[test]
fn struct_reflection_test() {}

#[test]
fn vector_field_encoder_matches_field_framing() {
    let v: Vec<i32> = vec![1, 10, 100, 1000];
    let encoder = Encoder::from(&v);
    assert_eq!(encoder.encode(), vec![0x4, 2, 20, 200, 1, 208, 15]);
}
