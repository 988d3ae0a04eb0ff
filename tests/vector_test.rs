use gs11n::decoder::Decoder;
use gs11n::encoder::Encoder;
use gs11n::fixed::Fixed32;

#[test]
fn vector_serialization_test() {
    let vec_f32 = vec![1.0f32, 2.1f32, 3.2f32, 4.3f32];
    let bits: Vec<Fixed32> = vec_f32.iter().map(|f| Fixed32(f.to_bits())).collect();
    let encoder = Encoder::from(&bits);
    let encode_result = encoder.encode();
    let decoder = Decoder::from_data(encode_result);
    let decode_bits: Vec<Fixed32> = decoder.decode().unwrap();
    let decode_f32: Vec<f32> = decode_bits.iter().map(|b| f32::from_bits(b.0)).collect();
    assert_eq!(decode_f32, vec_f32);

    let vec_i32: Vec<i32> = vec![1, 10, 100, 1000];
    let encoder = Encoder::from(&vec_i32);
    let encode_result = encoder.encode();
    let decoder = Decoder::from_data(encode_result);
    let decode_i32: Vec<i32> = decoder.decode().unwrap();
    assert_eq!(decode_i32, vec_i32);
}
