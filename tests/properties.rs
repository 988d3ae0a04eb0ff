use gs11n::decoder::{decode_field, decode_wired_id, DecodeError, Decoder};
use gs11n::encoder::{encode_field, size_of_field, size_of_wired_id, Encoder};
use gs11n::meta_data::Metadata;
use gs11n::signed::{UnZigZag, ZigZag};
use gs11n::swap_bytes::SwapBytes;
use gs11n::unsigned::EncodeSize;
use gs11n::wire_type::{deformmat_wired_id, wired_id_constant_from, NonPrefabWireType, WireType};
use gs11n::{DeSerialization, Serialization};

fn encode<S: Serialization>(v: &S) -> Vec<u8> {
    let encoder = Encoder::from(v);
    let bytes = encoder.encode();
    assert_eq!(bytes.len(), encoder.size());
    bytes
}

fn decode<S: DeSerialization>(bytes: Vec<u8>) -> Result<S, DecodeError> {
    Decoder::from_data(bytes).decode()
}

#[test]
fn varint_size_matches_encoding() {
    for x in [0u64, 1, 127, 128, 16383, 16384, 0xFFFF_FFFF, u64::MAX] {
        let mut out = Vec::new();
        x.encode_raw(&mut out);
        assert_eq!(out.len(), x.size());
    }
    assert_eq!(0u64.size(), 1);
    assert_eq!(128u64.size(), 2);
    assert_eq!(u64::MAX.size(), 10);
}

#[test]
fn varint_of_u32_max() {
    let bytes = encode(&0xFFFF_FFFFu32);
    assert_eq!(bytes, vec![0xFF, 0xFF, 0xFF, 0xFF, 0x0F]);
    assert_eq!(decode::<u32>(bytes), Ok(0xFFFF_FFFF));
}

#[test]
fn varint_beyond_type_is_add_overflow() {
    assert_eq!(decode::<u8>(vec![0x80, 0x02]), Err(DecodeError::AddOverflow));
    assert_eq!(decode::<u8>(vec![0xFF, 0x01]), Ok(255));
    assert_eq!(
        decode::<u64>(vec![0xFF, 0xFF, 0xFF, 0xFF, 0xFF, 0xFF, 0xFF, 0xFF, 0xFF, 0x02]),
        Err(DecodeError::AddOverflow)
    );
    assert_eq!(
        decode::<u64>(vec![0xFF, 0xFF, 0xFF, 0xFF, 0xFF, 0xFF, 0xFF, 0xFF, 0xFF, 0x01]),
        Ok(u64::MAX)
    );
}

#[test]
fn truncated_input_is_out_of_bounds() {
    assert_eq!(decode::<u32>(vec![0x80, 0x80]), Err(DecodeError::DecodeOutOfBounds));
    assert_eq!(decode::<u32>(vec![]), Err(DecodeError::DecodeOutOfBounds));
    assert_eq!(decode::<char>(vec![0x41, 0, 0]), Err(DecodeError::DecodeOutOfBounds));
    assert_eq!(decode::<String>(vec![3, b'a', b'b']), Err(DecodeError::DecodeOutOfBounds));
    assert_eq!(decode::<Vec<u8>>(vec![3, 1, 2]), Err(DecodeError::DecodeOutOfBounds));
}

#[test]
fn invalid_content_is_invalid_type() {
    assert_eq!(decode::<char>(vec![0x00, 0xD8, 0, 0]), Err(DecodeError::InvalidType));
    assert_eq!(decode::<String>(vec![2, 0xC3, 0x28]), Err(DecodeError::InvalidType));
}

#[test]
fn zigzag_full_range() {
    assert_eq!(i8::MIN.zigzag(), 255u8);
    assert_eq!(i8::MAX.zigzag(), 254u8);
    assert_eq!(i64::MIN.zigzag(), u64::MAX);
    for v in [i64::MIN, -1, 0, 1, i64::MAX] {
        assert_eq!(v.zigzag().unzigzag(), v);
    }
    for v in [i8::MIN, -1, 0, 1, i8::MAX] {
        assert_eq!(v.zigzag().unzigzag(), v);
    }
    for u in [0u32, 1, 2, u32::MAX] {
        assert_eq!(u.unzigzag().zigzag(), u);
    }
}

#[test]
fn signed_round_trip() {
    for v in [i32::MIN, -65, -64, 0, 63, 64, i32::MAX] {
        assert_eq!(decode::<i32>(encode(&v)), Ok(v));
    }
    assert_eq!(encode(&-1i16), vec![0x01]);
    assert_eq!(encode(&-65i32), vec![0x81, 0x01]);
}

#[test]
fn swap_bytes_involution() {
    assert_eq!(SwapBytes::swap_bytes(&0x1234_5678u32), 0x7856_3412u32);
    assert_eq!(SwapBytes::swap_bytes(&0x1234u16), 0x3412u16);
    assert_eq!(SwapBytes::swap_bytes(&0x0102_0304_0506_0708u64), 0x0807_0605_0403_0201u64);
    for x in [0u32, 1, 0xDEAD_BEEF, u32::MAX] {
        assert_eq!(SwapBytes::swap_bytes(&SwapBytes::swap_bytes(&x)), x);
    }
    for x in [0u64, 0x0102_0304_0506_0708, u64::MAX] {
        assert_eq!(SwapBytes::swap_bytes(&SwapBytes::swap_bytes(&x)), x);
    }
}

#[test]
fn wide_field_ids() {
    let mut out = Vec::new();
    let mut meta = Metadata::default();
    7u8.record(&mut meta);
    encode_field(30, &7u8, &mut out, &meta);
    encode_field(31, &7u8, &mut out, &meta);
    encode_field(100, &7u8, &mut out, &meta);
    assert_eq!(out, vec![0xDE, 7, 0xDF, 1, 7, 0xDF, 70, 7]);
    assert_eq!(size_of_wired_id(30), 1);
    assert_eq!(size_of_wired_id(31), 2);
    assert_eq!(size_of_wired_id(100), 2);
    assert_eq!(size_of_field::<u8>(100, &meta), 3);

    let decoder = Decoder::from_data(out);
    let ctx = decoder.get_context();
    let buf = decoder.get_buffer();
    let mut pos: usize = 0;
    for id in [30usize, 31, 100] {
        let (got, wire_type) = decode_wired_id(buf, &mut pos, ctx).unwrap();
        assert_eq!(got, id);
        assert_eq!(wire_type, WireType::Varint);
        let v: u8 = decode_field(buf, &mut pos, ctx, false).unwrap();
        assert_eq!(v, 7);
    }
    assert_eq!(pos, buf.len());
}

#[test]
fn wired_id_bytes() {
    assert_eq!(wired_id_constant_from(0, WireType::LengthDelimited), 0xE0);
    assert_eq!(wired_id_constant_from(5, WireType::Bits32), 0x45);
    assert_eq!(deformmat_wired_id(0xA3), Ok((3, WireType::Prefab)));
    assert_eq!(WireType::from(8), Err(DecodeError::InvalidType));
    assert_eq!(WireType::from(6), Ok(WireType::Varint));
    assert!(WireType::Bits64.is_fixed_type());
    assert!(!WireType::Varint.is_fixed_type());
    assert_eq!(NonPrefabWireType::Bit32.to_wire_type(), WireType::Bits32);
}

#[test]
fn wide_id_past_usize_is_add_overflow() {
    let mut bytes = vec![0xDF];
    let mut big = Vec::new();
    u64::MAX.encode_raw(&mut big);
    bytes.extend_from_slice(&big);
    let decoder = Decoder::from_data(bytes);
    let mut pos: usize = 0;
    let r = decode_wired_id(decoder.get_buffer(), &mut pos, decoder.get_context());
    assert_eq!(r, Err(DecodeError::AddOverflow));
}

/// A producer writes fields 0 (u32), 1 (String), 2 (fixed 32 bits) and
/// 3 (Vec<i64>); a consumer knowing only field 0 skips the others.
#[test]
fn forward_compatibility() {
    let a = 300u32;
    let b = String::from("skipped");
    let c = gs11n::fixed::Fixed32(0xAABBCCDD);
    let d: Vec<i64> = vec![-1, 5];
    let mut meta = Metadata::default();
    b.record(meta.get(1));
    d.record(meta.get(3));
    let mut out = Vec::new();
    encode_field(1, &b, &mut out, meta.child(1));
    encode_field(0, &a, &mut out, meta.child(0));
    encode_field(2, &c, &mut out, meta.child(0));
    encode_field(3, &d, &mut out, meta.child(3));

    let decoder = Decoder::from_data(out);
    let ctx = decoder.get_context();
    let buf = decoder.get_buffer();
    let mut pos: usize = 0;
    let mut got_a = 0u32;
    while pos < ctx.bounds_checker.get_bound() {
        let (id, wire_type) = decode_wired_id(buf, &mut pos, ctx).unwrap();
        match id {
            0 => got_a = decode_field(buf, &mut pos, ctx, wire_type == WireType::Prefab).unwrap(),
            _ => ctx.skip(buf, &mut pos, wire_type).unwrap(),
        }
    }
    assert_eq!(got_a, 300);
    assert_eq!(pos, buf.len());
}

#[test]
fn skip_past_bound_is_out_of_bounds() {
    let decoder = Decoder::from_data(vec![0x01, 0x02]);
    let mut pos: usize = 0;
    let r = decoder
        .get_context()
        .skip(decoder.get_buffer(), &mut pos, WireType::Bits32);
    assert_eq!(r, Err(DecodeError::DecodeOutOfBounds));
    let mut pos: usize = 0;
    let r = decoder
        .get_context()
        .skip(decoder.get_buffer(), &mut pos, WireType::LengthDelimited);
    assert_eq!(r, Ok(()));
    assert_eq!(pos, 2);
    let decoder = Decoder::from_data(vec![0x05, 0x02]);
    let mut pos: usize = 0;
    let r = decoder
        .get_context()
        .skip(decoder.get_buffer(), &mut pos, WireType::LengthDelimited);
    assert_eq!(r, Err(DecodeError::DecodeOutOfBounds));
}

#[test]
fn containers_round_trip() {
    let strings = vec![String::from("one"), String::from("zwei \u{00e9}\u{1F496}"), String::new()];
    assert_eq!(decode::<Vec<String>>(encode(&strings)), Ok(strings));

    let nested: Vec<Vec<u16>> = vec![vec![], vec![1, 300], vec![65535]];
    assert_eq!(decode::<Vec<Vec<u16>>>(encode(&nested)), Ok(nested));

    let some: Option<u64> = Some(1 << 40);
    assert_eq!(decode::<Option<u64>>(encode(&some)), Ok(some));
    let none: Option<u64> = None;
    assert_eq!(encode(&none), vec![0]);
    assert_eq!(decode::<Option<u64>>(encode(&none)), Ok(none));

    let empty_inside: Option<Vec<u8>> = Some(vec![]);
    assert_eq!(encode(&empty_inside), vec![1, 0]);
    assert_eq!(decode::<Option<Vec<u8>>>(encode(&empty_inside)), Ok(empty_inside));

    let boxed: Box<i64> = Box::new(-123456789);
    assert_eq!(decode::<Box<i64>>(encode(&boxed)), Ok(boxed));

    let c = '\u{1F496}';
    assert_eq!(encode(&c), vec![0x96, 0xF4, 0x01, 0x00]);
    assert_eq!(decode::<char>(encode(&c)), Ok(c));

    let s = String::from("one");
    assert_eq!(encode(&s), vec![3, b'o', b'n', b'e']);
}

#[test]
fn recorded_size_is_written_size() {
    let value: Vec<Option<String>> = vec![Some(String::from("abc")), None, Some(String::new())];
    let encoder = Encoder::from(&value);
    assert_eq!(encoder.size(), 1 + (1 + 4) + 1 + (1 + 1));
    assert_eq!(encoder.encode().len(), encoder.size());
}

#[test]
fn array_round_trip_and_length_mismatch() {
    let a: [u16; 3] = [1, 300, 65535];
    let bytes = encode(&a);
    assert_eq!(bytes, vec![3, 1, 0xAC, 0x02, 0xFF, 0xFF, 0x03]);
    assert_eq!(decode::<[u16; 3]>(bytes.clone()), Ok(a));
    assert_eq!(decode::<[u16; 2]>(bytes), Err(DecodeError::InvalidType));
}

#[test]
fn str_encodes_as_string() {
    let s: &str = "h\u{e9}";
    let bytes = encode(&s);
    assert_eq!(bytes, vec![3, b'h', 0xC3, 0xA9]);
    assert_eq!(decode::<String>(bytes), Ok(String::from("h\u{e9}")));
}

#[test]
fn fixed_width_scalars() {
    let bytes = encode(&gs11n::fixed::Fixed32(0x0102_0304));
    assert_eq!(bytes, vec![4, 3, 2, 1]);
    let bytes64 = encode(&gs11n::fixed::Fixed64(1));
    assert_eq!(bytes64, vec![1, 0, 0, 0, 0, 0, 0, 0]);
    assert_eq!(decode::<gs11n::fixed::Fixed64>(bytes64), Ok(gs11n::fixed::Fixed64(1)));
    let fixed: Vec<gs11n::fixed::Fixed32> = vec![gs11n::fixed::Fixed32(1), gs11n::fixed::Fixed32(2)];
    let encoder = Encoder::from(&fixed);
    assert_eq!(encoder.size(), 9);
    assert_eq!(encoder.encode(), vec![2, 1, 0, 0, 0, 2, 0, 0, 0]);
}

#[test]
fn simple_prefab_is_its_id() {
    let p = gs11n::simple_prefab::SimplePrefab::new(300);
    assert_eq!(p.index(), 300);
    assert_eq!(encode(&p), vec![0xAC, 0x02]);
}
