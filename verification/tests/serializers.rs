use binary_codec::serializers::{
    create_mask, next_bits_and_byte, read_bool, read_small_dynamic_signed,
    read_small_dynamic_unsigned, write_bool, write_small_dynamic_signed,
    write_small_dynamic_unsigned,
};
use binary_codec::{DeserializationError, SerializationError};

#[test]
fn serializers_test_write_read_small_dynamic_unsigned() {
    let mut bytes = Vec::new();
    let mut pos = 0;
    let mut bits = 0;
    let bit_count = 4;
    let val: u8 = 0b1010;
    write_small_dynamic_unsigned(val, &mut bytes, &mut pos, &mut bits, bit_count).unwrap();
    pos = 0;
    bits = 0;
    let result = read_small_dynamic_unsigned(&bytes, &mut pos, &mut bits, bit_count).unwrap();
    assert_eq!(result, val);
}

#[test]
fn serializers_test_write_read_small_dynamic_signed() {
    let mut bytes = Vec::new();
    let mut pos = 0;
    let mut bits = 0;
    let bit_count = 4;
    let val: i8 = -3;
    write_small_dynamic_signed(val, &mut bytes, &mut pos, &mut bits, bit_count).unwrap();
    pos = 0;
    bits = 0;
    let result = read_small_dynamic_signed(&bytes, &mut pos, &mut bits, bit_count).unwrap();
    assert_eq!(result, val);
}

#[test]
fn serializers_test_write_read_small_dynamic_unsigned_existing_byte() {
    let mut bytes = vec![0b0000_0111];
    let mut pos = 1;
    let mut bits = 4;
    let bit_count = 4;
    let val: u8 = 5;
    write_small_dynamic_unsigned(val, &mut bytes, &mut pos, &mut bits, bit_count).unwrap();
    assert_eq!(bytes, vec![0b0101_0111]);
    pos = 0;
    bits = 0;
    let result = read_small_dynamic_unsigned(&bytes, &mut pos, &mut bits, bit_count).unwrap();
    assert_eq!(result, 7);
    let result = read_small_dynamic_unsigned(&bytes, &mut pos, &mut bits, bit_count).unwrap();
    assert_eq!(result, 5);
}

#[test]
fn serializers_test_write_small_dynamic_unsigned_out_of_bounds() {
    let mut bytes = Vec::new();
    let mut pos = 0;
    let mut bits = 0;
    let bit_count = 3;
    let val: u8 = 0b1000;
    let result = write_small_dynamic_unsigned(val, &mut bytes, &mut pos, &mut bits, bit_count);
    assert!(result.is_err());
}

#[test]
fn serializers_test_write_small_dynamic_signed_out_of_bounds() {
    let mut bytes = Vec::new();
    let mut pos = 0;
    let mut bits = 0;
    let bit_count = 3;
    let val: i8 = 5;
    let result = write_small_dynamic_signed(val, &mut bytes, &mut pos, &mut bits, bit_count);
    assert!(result.is_err());
}

#[test]
fn serializers_test_write_read_bool_true() {
    let mut bytes = Vec::new();
    let mut pos = 0;
    let mut bits = 0;
    write_bool(true, &mut bytes, &mut pos, &mut bits).unwrap();
    pos = 0;
    bits = 0;
    let result = read_bool(&bytes, &mut pos, &mut bits).unwrap();
    assert_eq!(result, true);
}

#[test]
fn serializers_test_write_read_bool_false() {
    let mut bytes = Vec::new();
    let mut pos = 0;
    let mut bits = 0;
    write_bool(false, &mut bytes, &mut pos, &mut bits).unwrap();
    pos = 0;
    bits = 0;
    let result = read_bool(&bytes, &mut pos, &mut bits).unwrap();
    assert_eq!(result, false);
}

#[test]
fn serializers_test_create_mask_3() {
    let bits = 2u8;
    let bit_count = 3u8;
    let mask = create_mask(&bits, bit_count);
    assert_eq!(mask, 0b0001_1100);
}

#[test]
fn serializers_test_create_mask_2() {
    let bits = 3u8;
    let bit_count = 2u8;
    let mask = create_mask(&bits, bit_count);
    assert_eq!(mask, 0b0001_1000);
}

#[test]
fn test_next_bits_and_byte() {
    let (bits, next_bits, next_byte) = next_bits_and_byte(6, 3);
    assert_eq!((bits, next_bits, next_byte), (0, 3, true));
    let (bits, next_bits, next_byte) = next_bits_and_byte(0, 3);
    assert_eq!((bits, next_bits, next_byte), (0, 3, true));
    let (bits, next_bits, next_byte) = next_bits_and_byte(8, 1);
    assert_eq!((bits, next_bits, next_byte), (0, 1, true));
    let (bits, next_bits, next_byte) = next_bits_and_byte(4, 4);
    assert_eq!((bits, next_bits, next_byte), (4, 0, false));
}

#[test]
fn counted_position_follows_the_started_bytes() {
    let mut bytes = Vec::new();
    let mut pos = 0;
    let mut bits = 0;
    write_small_dynamic_unsigned(5, &mut bytes, &mut pos, &mut bits, 3).unwrap();
    assert_eq!((pos, bits), (1, 3));
    write_small_dynamic_unsigned(9, &mut bytes, &mut pos, &mut bits, 4).unwrap();
    assert_eq!((pos, bits), (1, 7));
    write_small_dynamic_unsigned(6, &mut bytes, &mut pos, &mut bits, 3).unwrap();
    assert_eq!((pos, bits), (2, 3));
    assert_eq!(bytes, vec![0b0100_1101, 0b0000_0110]);
    pos = 0;
    bits = 0;
    assert_eq!(read_small_dynamic_unsigned(&bytes, &mut pos, &mut bits, 3), Ok(5));
    assert_eq!(read_small_dynamic_unsigned(&bytes, &mut pos, &mut bits, 4), Ok(9));
    assert_eq!(read_small_dynamic_unsigned(&bytes, &mut pos, &mut bits, 3), Ok(6));
    assert_eq!((pos, bits), (2, 3));
}

#[test]
fn counted_bounds_are_reported() {
    let mut bytes = Vec::new();
    let mut pos = 0;
    let mut bits = 0;
    assert_eq!(
        write_small_dynamic_unsigned(8, &mut bytes, &mut pos, &mut bits, 3),
        Err(SerializationError::ValueOutOfBounds(8, 0, 7))
    );
    assert_eq!(
        write_small_dynamic_signed(5, &mut bytes, &mut pos, &mut bits, 3),
        Err(SerializationError::ValueOutOfBounds(5, -4, 3))
    );
    assert!(bytes.is_empty());
    assert_eq!((pos, bits), (0, 0));
}

#[test]
fn counted_read_behind_the_buffer_fails() {
    let mut pos = 0;
    let mut bits = 0;
    assert_eq!(
        read_bool(&[], &mut pos, &mut bits),
        Err(DeserializationError::NotEnoughBytes(1))
    );
    assert_eq!((pos, bits), (0, 0));
}
