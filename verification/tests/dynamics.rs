use binary_codec::dynamics::{
    create_mask, read_bool, read_small_dynamic, read_small_dynamic_signed,
    read_small_dynamic_unsigned, write_bool, write_small_dynamic, write_small_dynamic_signed,
    write_small_dynamic_unsigned,
};
use binary_codec::{DeserializationError, SerializationError, SerializerConfig};

#[test]
fn dynamics_test_write_read_small_dynamic_unsigned() {
    let mut bytes = Vec::new();
    let mut config = SerializerConfig::new();
    let bit_count = 4;
    let val: u8 = 0b1010;
    write_small_dynamic_unsigned(val, &mut bytes, &mut config, bit_count).unwrap();
    let mut config = SerializerConfig::new();
    let result = read_small_dynamic_unsigned(&bytes, &mut config, bit_count).unwrap();
    assert_eq!(result, val);
}

#[test]
fn dynamics_test_write_read_small_dynamic_signed() {
    let mut bytes = Vec::new();
    let mut config = SerializerConfig::new();
    let bit_count = 4;
    let val: i8 = -3;
    write_small_dynamic_signed(val, &mut bytes, &mut config, bit_count).unwrap();
    let mut config = SerializerConfig::new();
    let result = read_small_dynamic_signed(&bytes, &mut config, bit_count).unwrap();
    assert_eq!(result, val);
}

#[test]
fn dynamics_test_write_read_small_dynamic_unsigned_existing_byte() {
    let mut bytes = vec![0b0000_0111];
    let mut config = SerializerConfig::new();
    config.pos = 0;
    config.bits = 4;
    let bit_count = 4;
    let val: u8 = 5;
    write_small_dynamic_unsigned(val, &mut bytes, &mut config, bit_count).unwrap();
    assert_eq!(bytes, vec![0b0101_0111]);
    let mut config = SerializerConfig::new();
    let result = read_small_dynamic_unsigned(&bytes, &mut config, bit_count).unwrap();
    assert_eq!(result, 7);
    let result = read_small_dynamic_unsigned(&bytes, &mut config, bit_count).unwrap();
    assert_eq!(result, 5);
}

#[test]
fn dynamics_test_write_small_dynamic_unsigned_out_of_bounds() {
    let mut bytes = Vec::new();
    let mut config = SerializerConfig::new();
    let bit_count = 3;
    let val: u8 = 0b1000;
    let result = write_small_dynamic_unsigned(val, &mut bytes, &mut config, bit_count);
    assert!(result.is_err());
}

#[test]
fn dynamics_test_write_small_dynamic_signed_out_of_bounds() {
    let mut bytes = Vec::new();
    let mut config = SerializerConfig::new();
    let bit_count = 3;
    let val: i8 = 5;
    let result = write_small_dynamic_signed(val, &mut bytes, &mut config, bit_count);
    assert!(result.is_err());
}

#[test]
fn dynamics_test_write_read_bool_true() {
    let mut bytes = Vec::new();
    let mut config = SerializerConfig::new();
    write_bool(true, &mut bytes, &mut config).unwrap();
    let mut config = SerializerConfig::new();
    let result = read_bool(&bytes, &mut config).unwrap();
    assert_eq!(result, true);
}

#[test]
fn dynamics_test_write_read_bool_false() {
    let mut bytes = Vec::new();
    let mut config = SerializerConfig::new();
    write_bool(false, &mut bytes, &mut config).unwrap();
    let mut config = SerializerConfig::new();
    let result = read_bool(&bytes, &mut config).unwrap();
    assert_eq!(result, false);
}

#[test]
fn dynamics_test_create_mask_3() {
    let bits = 2u8;
    let bit_count = 3u8;
    let mask = create_mask(&bits, bit_count);
    assert_eq!(mask, 0b0001_1100);
}

#[test]
fn dynamics_test_create_mask_2() {
    let bits = 3u8;
    let bit_count = 2u8;
    let mask = create_mask(&bits, bit_count);
    assert_eq!(mask, 0b0001_1000);
}

#[test]
fn three_four_three_bits_take_two_bytes() {
    let mut bytes = Vec::new();
    let mut config = SerializerConfig::new();
    write_small_dynamic_unsigned(5, &mut bytes, &mut config, 3).unwrap();
    write_small_dynamic_unsigned(9, &mut bytes, &mut config, 4).unwrap();
    assert_eq!(bytes.len(), 1);
    write_small_dynamic_unsigned(6, &mut bytes, &mut config, 3).unwrap();
    assert_eq!(bytes, vec![0b0100_1101, 0b0000_0110]);
    assert_eq!((config.pos, config.bits), (1, 3));
    let mut config = SerializerConfig::new();
    assert_eq!(read_small_dynamic_unsigned(&bytes, &mut config, 3), Ok(5));
    assert_eq!(read_small_dynamic_unsigned(&bytes, &mut config, 4), Ok(9));
    assert_eq!(read_small_dynamic_unsigned(&bytes, &mut config, 3), Ok(6));
    assert_eq!((config.pos, config.bits), (1, 3));
}

#[test]
fn unsigned_bounds_are_reported() {
    let mut bytes = Vec::new();
    let mut config = SerializerConfig::new();
    assert_eq!(
        write_small_dynamic_unsigned(8, &mut bytes, &mut config, 3),
        Err(SerializationError::ValueOutOfBounds(8, 0, 7))
    );
    assert!(bytes.is_empty());
    assert_eq!(write_small_dynamic_unsigned(7, &mut bytes, &mut config, 3), Ok(()));
    assert_eq!(bytes, vec![7]);
}

#[test]
fn signed_bounds_are_reported() {
    let mut bytes = Vec::new();
    let mut config = SerializerConfig::new();
    assert_eq!(
        write_small_dynamic_signed(5, &mut bytes, &mut config, 3),
        Err(SerializationError::ValueOutOfBounds(5, -4, 3))
    );
    assert_eq!(
        write_small_dynamic_signed(-5, &mut bytes, &mut config, 3),
        Err(SerializationError::ValueOutOfBounds(-5, -4, 3))
    );
    assert_eq!(write_small_dynamic_signed(-4, &mut bytes, &mut config, 3), Ok(()));
    assert_eq!(write_small_dynamic_signed(3, &mut bytes, &mut config, 3), Ok(()));
    assert_eq!(bytes, vec![0b0011_0111]);
    let mut config = SerializerConfig::new();
    assert_eq!(read_small_dynamic_signed(&bytes, &mut config, 3), Ok(-4));
    assert_eq!(read_small_dynamic_signed(&bytes, &mut config, 3), Ok(3));
}

#[test]
fn a_full_byte_is_followed_by_a_new_one() {
    let mut bytes = Vec::new();
    let mut config = SerializerConfig::new();
    write_small_dynamic(0b1111, &mut bytes, &mut config, 4).unwrap();
    write_small_dynamic(0b1010, &mut bytes, &mut config, 4).unwrap();
    assert_eq!((config.pos, config.bits), (0, 8));
    write_bool(true, &mut bytes, &mut config).unwrap();
    assert_eq!(bytes, vec![0b1010_1111, 1]);
    assert_eq!((config.pos, config.bits), (1, 1));
    let mut config = SerializerConfig::new();
    assert_eq!(read_small_dynamic(&bytes, &mut config, 4), Ok(0b1111));
    assert_eq!(read_small_dynamic(&bytes, &mut config, 4), Ok(0b1010));
    assert_eq!(read_bool(&bytes, &mut config), Ok(true));
    assert_eq!((config.pos, config.bits), (1, 1));
}

#[test]
fn reading_bits_behind_the_buffer_fails() {
    let mut config = SerializerConfig::new();
    assert_eq!(read_bool(&[], &mut config), Err(DeserializationError::NotEnoughBytes(1)));
    let bytes = [0xFFu8];
    let mut config = SerializerConfig::new();
    assert_eq!(read_small_dynamic(&bytes, &mut config, 7), Ok(0x7F));
    assert_eq!(
        read_small_dynamic(&bytes, &mut config, 2),
        Err(DeserializationError::NotEnoughBytes(1))
    );
    assert_eq!((config.pos, config.bits), (0, 7));
}

#[test]
fn a_field_written_after_whole_bytes_starts_a_new_byte() {
    let mut bytes = vec![1u8, 2, 3];
    let mut config = SerializerConfig::new();
    config.pos = 3;
    write_small_dynamic(3, &mut bytes, &mut config, 2).unwrap();
    assert_eq!(bytes, vec![1, 2, 3, 3]);
    assert_eq!((config.pos, config.bits), (3, 2));
}
