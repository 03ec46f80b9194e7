use packed_grid::{decode, encode, is_valid_exponent, is_valid_tile, MAX_EXPONENT};

#[test]
fn encode_zero_and_powers() {
    assert_eq!(encode(0), Some(0));
    assert_eq!(encode(2), Some(1));
    assert_eq!(encode(16), Some(4));
    assert_eq!(encode(131072), Some(17));
}

#[test]
fn encode_rejects_non_powers_and_large_tiles() {
    assert_eq!(encode(1), None);
    assert_eq!(encode(3), None);
    assert_eq!(encode(9), None);
    assert_eq!(encode(262144), None);
    assert_eq!(encode(u32::MAX), None);
}

#[test]
fn decode_values() {
    assert_eq!(decode(0), Some(0));
    assert_eq!(decode(1), Some(2));
    assert_eq!(decode(11), Some(2048));
    assert_eq!(decode(17), Some(131072));
    assert_eq!(decode(18), None);
    assert_eq!(decode(255), None);
}

#[test]
fn codec_inverse_on_all_values() {
    for e in 0..=MAX_EXPONENT {
        let v = decode(e).unwrap();
        assert_eq!(encode(v), Some(e));
    }
    for k in 1..=17u32 {
        let v = 1u32 << k;
        assert_eq!(decode(encode(v).unwrap()), Some(v));
    }
}

#[test]
fn validity_checks() {
    assert!(is_valid_exponent(17));
    assert!(!is_valid_exponent(18));
    assert!(is_valid_tile(0));
    assert!(is_valid_tile(1024));
    assert!(!is_valid_tile(3));
    assert!(!is_valid_tile(1));
}
