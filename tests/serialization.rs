use gs11n::decoder::Decoder;
use gs11n::fixed::{Fixed32, Fixed64};
use gs11n::meta_data::Metadata;
use gs11n::signed::{UnZigZag, ZigZag};
use gs11n::swap_bytes::SwapBytes;
use gs11n::unsigned::EncodeSize;
use gs11n::{DeSerialization, Serialization};

#[test]
fn floating_swap_bytes_test() {
    let pi: f32 = std::f32::consts::PI;
    let bits = pi.to_bits();
    assert_eq!(pi, f32::from_bits(SwapBytes::swap_bytes(&SwapBytes::swap_bytes(&bits))));

    let pi: f64 = std::f64::consts::PI;
    let bits = pi.to_bits();
    assert_eq!(pi, f64::from_bits(SwapBytes::swap_bytes(&SwapBytes::swap_bytes(&bits))));
}

#[test]
fn zigzag_test() {
    let i: i32 = 0;
    assert_eq!(0, i.zigzag());
    assert_eq!(i, i.zigzag().unzigzag());
    let i: i8 = -1;
    assert_eq!(1, i.zigzag());
    assert_eq!(i, i.zigzag().unzigzag());
    let i: i16 = 1;
    assert_eq!(2, i.zigzag());
    assert_eq!(i, i.zigzag().unzigzag());
    let i: isize = -2;
    assert_eq!(3, i.zigzag());
    assert_eq!(i, i.zigzag().unzigzag());
    let i: i32 = 2147483647;
    assert_eq!(4294967294, i.zigzag());
    assert_eq!(i, i.zigzag().unzigzag());
    let i: i64 = -2147483648;
    assert_eq!(4294967295, i.zigzag());
    assert_eq!(i, i.zigzag().unzigzag());
}

#[test]
fn integer_test() {
    let mut meta = Metadata::default();

    let mut expected: [u8; 35] = [0; 35];
    let mut real: Vec<u8> = Vec::new();

    let n1 = 0u32;
    expected[0] = 0x0u8;
    n1.record(&mut meta);
    n1.encode(&mut real, &meta);
    assert_eq!(n1.size(), 1);

    let n2 = 0xffffffffu32;
    expected[1..=5].copy_from_slice(&[0xffu8, 0xffu8, 0xffu8, 0xffu8, 0xfu8]);
    n2.encode(&mut real, &meta);
    assert_eq!(n2.size(), 5);

    let n3 = 0b0111_1111_0111_1111_0111_1111_0111_1111_u32;
    expected[6..=10].copy_from_slice(&[0xFF, 0xFE, 0xFD, 0xFB, 0x7]);
    n3.encode(&mut real, &meta);
    assert_eq!(n3.size(), 5);

    let n4 = 0b0111_1111_0111_1111_u16;
    expected[11..=13].copy_from_slice(&[0xFF, 0xFE, 0x1]);
    n4.encode(&mut real, &meta);
    assert_eq!(n4.size(), 3);

    let n5: i32 = -1;
    expected[14] = 0x1;
    n5.encode(&mut real, &meta);

    let n6: i32 = 1;
    expected[15] = 0x2;
    n6.encode(&mut real, &meta);

    let n7 = 0x79u8;
    expected[16] = 0x79;
    n7.encode(&mut real, &meta);
    assert_eq!(n7.size(), 1);

    let n8 = 0x80u8;
    expected[17..=18].copy_from_slice(&[0x80, 0x1]);
    n8.encode(&mut real, &meta);
    assert_eq!(n8.size(), 2);

    let n9: f32 = std::f32::consts::PI;
    expected[19..=22].copy_from_slice(&[0xDB, 0xF, 0x49, 0x40]);
    Fixed32(n9.to_bits()).encode(&mut real, &meta);

    let n10: f64 = std::f64::consts::PI;
    expected[23..=30].copy_from_slice(&[0x18, 0x2D, 0x44, 0x54, 0xFB, 0x21, 0x9, 0x40]);
    Fixed64(n10.to_bits()).encode(&mut real, &meta);

    let n11: char = '\u{1F496}';
    expected[31..=34].copy_from_slice(&[0x96, 0xF4, 0x1, 0x0]);
    n11.encode(&mut real, &meta);

    assert_eq!(real, expected.to_vec());

    let decoder = Decoder::from_data(real.clone());
    let decode_ctx = decoder.get_context();
    let buf = decoder.get_buffer();
    let mut pos: usize = 0;

    let r1 = u32::decode(buf, &mut pos, decode_ctx).unwrap();
    assert_eq!(r1, n1);

    let r2 = u32::decode(buf, &mut pos, decode_ctx).unwrap();
    assert_eq!(r2, n2);

    let r3 = u32::decode(buf, &mut pos, decode_ctx).unwrap();
    assert_eq!(r3, n3);

    let r4 = u16::decode(buf, &mut pos, decode_ctx).unwrap();
    assert_eq!(r4, n4);

    let r5 = i32::decode(buf, &mut pos, decode_ctx).unwrap();
    assert_eq!(r5, n5);

    let r6 = i32::decode(buf, &mut pos, decode_ctx).unwrap();
    assert_eq!(r6, n6);

    let r7 = u8::decode(buf, &mut pos, decode_ctx).unwrap();
    assert_eq!(r7, n7);

    let r8 = u8::decode(buf, &mut pos, decode_ctx).unwrap();
    assert_eq!(r8, n8);

    let r9 = f32::from_bits(Fixed32::decode(buf, &mut pos, decode_ctx).unwrap().0);
    assert_eq!(r9, n9);

    let r10 = f64::from_bits(Fixed64::decode(buf, &mut pos, decode_ctx).unwrap().0);
    assert_eq!(r10, n10);

    let r11 = char::decode(buf, &mut pos, decode_ctx).unwrap();
    assert_eq!(r11, n11);
}
