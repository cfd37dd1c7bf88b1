use binary_codec::dyn_int::{
    decode, encode, encoded_size, read_dynint, read_from_slice, write_dynint,
};
use binary_codec::{DeserializationError, SerializerConfig};

#[test]
fn can_encode_decode_number() {
    let number = 1234567890;
    let encoded = encode(number);
    let decoded = decode(&encoded);
    assert_eq!(number, decoded);
    assert_eq!(5, encoded.len());
}

#[test]
fn can_decode_number() {
    let nr = &[216u8, 4];
    let res = decode(nr);
    assert_eq!(600, res);
}

#[test]
fn can_decode_number_from_larger_slice() {
    let nr = &[216u8, 4, 234, 19, 74];
    let res = read_from_slice(nr).unwrap();
    assert_eq!((600, 2), res);
}

#[test]
fn can_decode_number_in_4_bytes() {
    let max_nr = 268435455;
    let encoded = encode(max_nr);
    assert_eq!(4, encoded.len());
}

#[test]
fn cant_decode_bignr_in_4_bytes() {
    let max_nr = 268435456;
    let encoded = encode(max_nr);
    assert_ne!(4, encoded.len());
}

#[test]
fn cant_decode_slice_that_lies() {
    let slice = &[0b10111110];
    let decoded = read_from_slice(slice);
    assert!(decoded.is_err());
}

#[test]
fn can_encode_nr_lt_128_in_1_byte() {
    let encoded = encode(127);
    assert_eq!(1, encoded.len());
}

#[test]
fn can_guess_encoded_size() {
    let one_byte = 127;
    assert_eq!(1, encoded_size(one_byte));

    let two_bytes = 128;
    assert_eq!(2, encoded_size(two_bytes));

    let four_bytes = 268435455;
    assert_eq!(4, encoded_size(four_bytes));
}

#[test]
fn encodes_600_as_two_bytes() {
    assert_eq!(encode(600), vec![0xD8, 0x04]);
}

#[test]
fn lying_slice_misses_one_byte() {
    assert_eq!(read_from_slice(&[0b10111110]), Err(DeserializationError::NotEnoughBytes(1)));
    assert_eq!(read_from_slice(&[]), Err(DeserializationError::NotEnoughBytes(1)));
}

#[test]
fn zero_has_the_empty_encoding() {
    assert_eq!(encode(0), Vec::<u8>::new());
    assert_eq!(encoded_size(0), 0);
    assert_eq!(decode(&[]), 0);
}

#[test]
fn largest_number_takes_nineteen_bytes() {
    let encoded = encode(u128::MAX);
    assert_eq!(encoded.len(), 19);
    assert_eq!(encoded_size(u128::MAX), 19);
    assert_eq!(decode(&encoded), u128::MAX);
    assert_eq!(read_from_slice(&encoded), Ok((u128::MAX, 19)));
}

#[test]
fn encoding_wider_than_128_bits_is_invalid() {
    let mut bytes = vec![0xFFu8; 18];
    bytes.push(0x04);
    assert!(matches!(read_from_slice(&bytes), Err(DeserializationError::InvalidData(_))));
}

#[test]
fn decode_ignores_the_continuation_flags() {
    assert_eq!(decode(&[0x58, 0x84]), 600);
}

#[test]
fn written_numbers_read_back() {
    for n in [0u128, 1, 127, 128, 600, 16384, u64::MAX as u128, u128::MAX] {
        let mut buffer = Vec::new();
        let mut config = SerializerConfig::new();
        write_dynint(n, &mut buffer, &mut config).unwrap();
        assert_eq!(config.pos, buffer.len());
        let mut config = SerializerConfig::new();
        assert_eq!(read_dynint(&buffer, &mut config), Ok(n));
        assert_eq!(config.pos, buffer.len());
        assert_eq!(config.bits, 0);
    }
}

#[test]
fn zero_is_written_as_one_zero_byte() {
    let mut buffer = Vec::new();
    let mut config = SerializerConfig::new();
    write_dynint(0, &mut buffer, &mut config).unwrap();
    assert_eq!(buffer, vec![0u8]);
}

#[test]
fn read_dynint_steps_over_a_byte_in_progress() {
    let bytes = [0b0000_0001u8, 0xD8, 0x04, 9];
    let mut config = SerializerConfig::new();
    config.bits = 1;
    assert_eq!(read_dynint(&bytes, &mut config), Ok(600));
    assert_eq!(config.pos, 3);
    assert_eq!(config.bits, 0);
}

#[test]
fn read_dynint_behind_the_buffer_fails() {
    let bytes = [1u8];
    let mut config = SerializerConfig::new();
    config.pos = 3;
    assert_eq!(read_dynint(&bytes, &mut config), Err(DeserializationError::NotEnoughBytes(3)));
}
