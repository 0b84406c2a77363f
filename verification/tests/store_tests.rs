use polyclass::store::{decode_weights, encode_weights};
use polyclass::ClassifierError;

#[test]
fn round_trip_binary() {
    let floats: Vec<f32> = vec![0.5, -1.25, 0.0375, 0.0, -0.0, 1.0e30, -3.4e38, 1.0e-40];
    let bits: Vec<u32> = floats.iter().map(|f| f.to_bits()).collect();
    let bytes = encode_weights(&bits);
    assert_eq!(bytes.len(), 4 * bits.len());
    let back = decode_weights(&bytes).expect("whole words must decode");
    assert_eq!(back, bits);
    for (b, f) in back.iter().zip(floats.iter()) {
        assert_eq!(f32::from_bits(*b).to_bits(), f.to_bits());
    }
}

#[test]
fn round_trip_nan_pattern() {
    let bits: Vec<u32> = vec![f32::NAN.to_bits(), 0x7fc0_1234, 0xffff_ffff];
    let back = decode_weights(&encode_weights(&bits)).expect("whole words must decode");
    assert_eq!(back, bits);
}

#[test]
fn round_trip_empty() {
    let bits: Vec<u32> = Vec::new();
    let bytes = encode_weights(&bits);
    assert!(bytes.is_empty());
    assert_eq!(decode_weights(&bytes), Ok(Vec::new()));
}

#[test]
fn little_endian_layout_matches_ieee() {
    let one = vec![1.0f32.to_bits()];
    let bytes = encode_weights(&one);
    assert_eq!(bytes, 1.0f32.to_le_bytes().to_vec());
    let pi = vec![3.14159f32.to_bits()];
    assert_eq!(encode_weights(&pi), 3.14159f32.to_le_bytes().to_vec());
}

#[test]
fn bytes_survive_decode_then_encode() {
    let bytes: Vec<u8> = vec![0, 1, 2, 3, 0xff, 0xfe, 0x80, 0x7f, 10, 20, 30, 40];
    let words = decode_weights(&bytes).expect("whole words must decode");
    assert_eq!(encode_weights(&words), bytes);
}

#[test]
fn corrupt_length_is_an_error() {
    for len in [1usize, 2, 3, 5, 6, 7, 9] {
        let bytes: Vec<u8> = vec![0xab; len];
        assert_eq!(decode_weights(&bytes), Err(ClassifierError::CorruptFile));
    }
    let bytes: Vec<u8> = vec![0xab; 8];
    assert!(decode_weights(&bytes).is_ok());
}
