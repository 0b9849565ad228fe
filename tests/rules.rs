use headers_chain::magnitude::u32_from_le;
use headers_chain::{
    assert_eq_256, assert_eq_32, assert_le_256, assert_le_32, bits_to_target, ChainError,
};

#[test]
fn genesis_bits_expand_to_target() {
    let target = bits_to_target(&[0xff, 0xff, 0x00, 0x1d]).unwrap();
    let mut expected = [0u8; 32];
    expected[26] = 0xff;
    expected[27] = 0xff;
    assert_eq!(target, expected);
}

#[test]
fn smallest_and_largest_exponents_expand() {
    let low = bits_to_target(&[1, 2, 3, 3]).unwrap();
    assert_eq!(&low[0..3], &[1, 2, 3]);
    assert!(low[3..].iter().all(|b| *b == 0));
    let high = bits_to_target(&[4, 5, 6, 32]).unwrap();
    assert_eq!(&high[29..32], &[4, 5, 6]);
    assert!(high[0..29].iter().all(|b| *b == 0));
}

#[test]
fn expansion_is_deterministic() {
    let bits = [0x12, 0x34, 0x56, 0x17];
    assert_eq!(bits_to_target(&bits), bits_to_target(&bits));
}

#[test]
fn small_exponents_are_rejected_whatever_the_mantissa() {
    for e in 0u8..3 {
        for mantissa in [[0u8, 0, 0], [0xff, 0xff, 0xff], [1, 2, 3]] {
            let bits = [mantissa[0], mantissa[1], mantissa[2], e];
            assert_eq!(bits_to_target(&bits), Err(ChainError::InvalidDifficultyEncoding));
        }
    }
}

#[test]
fn exponent_past_the_buffer_is_rejected() {
    assert_eq!(bits_to_target(&[1, 1, 1, 33]), Err(ChainError::InvalidDifficultyEncoding));
    assert_eq!(bits_to_target(&[1, 1, 1, 0xff]), Err(ChainError::InvalidDifficultyEncoding));
}

#[test]
fn comparison_weighs_the_last_byte_most() {
    let mut hash = [0u8; 32];
    let mut target = [0u8; 32];
    hash[0] = 0xff;
    target[1] = 0x01;
    assert_eq!(assert_le_256(&hash, target), Ok(()));
    hash[31] = 1;
    assert_eq!(assert_le_256(&hash, target), Err(ChainError::InsufficientWork));
}

#[test]
fn equal_hash_and_target_are_accepted() {
    let buf = [0x5au8; 32];
    assert_eq!(assert_le_256(&buf, buf), Ok(()));
}

#[test]
fn time_comparison_is_little_endian() {
    assert_eq!(assert_le_32([0xff, 0, 0, 0], &[0, 1, 0, 0]), Ok(()));
    assert_eq!(assert_le_32([0, 1, 0, 0], &[0xff, 0, 0, 0]), Err(ChainError::TimeNotMonotonic));
    assert_eq!(assert_le_32([9, 9, 9, 9], &[9, 9, 9, 9]), Ok(()));
}

#[test]
fn version_must_match() {
    assert_eq!(assert_eq_32([1, 0, 0, 0], &[1, 0, 0, 0]), Ok(()));
    assert_eq!(assert_eq_32([1, 0, 0, 0], &[0, 0, 0, 0]), Err(ChainError::UnsupportedVersion));
    assert_eq!(assert_eq_32([1, 0, 0, 0], &[1, 0, 0, 1]), Err(ChainError::UnsupportedVersion));
}

#[test]
fn previous_hash_must_match() {
    let expected = [7u8; 32];
    assert_eq!(assert_eq_256(expected, &[7u8; 32]), Ok(()));
    let mut other = [7u8; 32];
    other[31] = 8;
    assert_eq!(assert_eq_256(expected, &other), Err(ChainError::BrokenChain));
}

#[test]
fn four_bytes_read_little_endian() {
    assert_eq!(u32_from_le(&[0x40, 0x53, 0x5f, 0x49]), 0x495f5340);
    assert_eq!(u32_from_le(&[0xff, 0xff, 0xff, 0xff]), u32::MAX);
}
