use num_bigint_dig::BigUint;
use wnfs::uint256_serde_le::{deserialize, serialize, to_bytes_helper, UINT_BYTE_SIZE};

#[test]
fn number_is_written_least_significant_byte_first() {
    let bytes = to_bytes_helper(&BigUint::from(0x0102_0304u64));
    assert_eq!(bytes[..5], [4, 3, 2, 1, 0]);
    assert!(bytes[5..].iter().all(|byte| *byte == 0));
}

#[test]
fn number_is_read_as_it_was_written() {
    let number = BigUint::from_bytes_be(&[7u8; 200]);
    let bytes = serialize(&number).unwrap();
    assert_eq!(bytes.len(), UINT_BYTE_SIZE);
    assert_eq!(deserialize(&bytes), number);
    assert_eq!(deserialize(&[]), BigUint::from(0u8));
}

#[test]
fn number_that_is_too_large_is_not_written() {
    let largest = BigUint::from_bytes_le(&[0xFFu8; UINT_BYTE_SIZE]);
    assert_eq!(serialize(&largest), Some([0xFFu8; UINT_BYTE_SIZE]));
    assert_eq!(serialize(&(largest + BigUint::from(1u8))), None);
}

#[test]
fn zero_is_written_as_zeros() {
    assert_eq!(to_bytes_helper(&BigUint::from(0u8)), [0u8; UINT_BYTE_SIZE]);
}
