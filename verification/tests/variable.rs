use binary_codec::dynamics::{read_small_dynamic_unsigned, write_bool};
use binary_codec::fixed_int;
use binary_codec::utils::{bytes_left, ensure_size, get_read_size, slice, write_size};
use binary_codec::variable::{
    frame_object, read_object, read_string, write_object, write_string, ObjectFrame,
};
use binary_codec::{
    BinaryDeserializer, BinarySerializer, DeserializationError, SerializationError,
    SerializerConfig,
};

struct TestObj {
    nr: u16,
}

impl BinaryDeserializer for TestObj {
    fn from_bytes(
        bytes: &[u8],
        config: Option<&mut SerializerConfig>,
    ) -> Result<Self, DeserializationError> {
        let config = config.unwrap();
        let nr = fixed_int::read::<u16, 2>(bytes, config)?;
        Ok(TestObj { nr })
    }
}

impl BinarySerializer for TestObj {
    fn to_bytes(
        &self,
        config: Option<&mut SerializerConfig>,
    ) -> Result<Vec<u8>, SerializationError> {
        let mut bytes = Vec::new();
        self.write_bytes(&mut bytes, config)?;
        Ok(bytes)
    }

    fn write_bytes(
        &self,
        buffer: &mut Vec<u8>,
        config: Option<&mut SerializerConfig>,
    ) -> Result<(), SerializationError> {
        let config = config.unwrap();
        fixed_int::write::<u16, 2>(self.nr, buffer, config)
    }
}

#[test]
fn test_read_number_object_after_reading_few_bits() {
    let bytes = vec![0b0000_0011, 0, 7];
    let mut config = SerializerConfig::new();

    let small_nr = read_small_dynamic_unsigned(&bytes, &mut config, 2).unwrap();
    assert_eq!(small_nr, 3);
    assert_eq!(config.bits, 2);
    assert_eq!(config.pos, 0);

    let obj = read_object::<TestObj>(&bytes, None, &mut config).unwrap();
    assert_eq!(obj.nr, 7);
    assert_eq!(config.bits, 0);
    assert_eq!(config.pos, 3);
}

#[test]
fn text_with_a_prefixed_length_reads_back() {
    let mut buffer = Vec::new();
    let mut config = SerializerConfig::new();
    write_bool(true, &mut buffer, &mut config).unwrap();
    write_string("Hoi", Some("__dynamic"), &mut buffer, &mut config).unwrap();
    assert_eq!(buffer, vec![1, 3, b'H', b'o', b'i']);
    let mut config = SerializerConfig::new();
    config.bits = 1;
    assert_eq!(read_string(&buffer, Some("__dynamic"), &mut config), Ok("Hoi".to_string()));
    assert_eq!((config.pos, config.bits), (5, 0));
}

#[test]
fn text_with_a_declared_length_has_no_prefix() {
    let mut buffer = Vec::new();
    let mut config = SerializerConfig::new();
    config.set_length("len", 3);
    write_string("Hoi", Some("len"), &mut buffer, &mut config).unwrap();
    assert_eq!(buffer, vec![b'H', b'o', b'i']);
    buffer.push(9);
    let mut config = SerializerConfig::new();
    config.set_length("len", 3);
    assert_eq!(read_string(&buffer, Some("len"), &mut config), Ok("Hoi".to_string()));
    assert_eq!(config.pos, 3);
}

#[test]
fn text_that_differs_from_the_declared_length_is_refused() {
    let mut buffer = Vec::new();
    let mut config = SerializerConfig::new();
    config.set_length("len", 3);
    assert_eq!(
        write_string("Hallo", Some("len"), &mut buffer, &mut config),
        Err(SerializationError::UnexpectedLength(3, 5))
    );
    assert!(buffer.is_empty());
}

#[test]
fn text_without_a_length_takes_what_is_left() {
    let buffer = vec![0b101u8, 0xC3, 0xA9, b'!'];
    let mut config = SerializerConfig::new();
    config.bits = 3;
    assert_eq!(read_string(&buffer, None, &mut config), Ok("é!".to_string()));
    assert_eq!((config.pos, config.bits), (4, 0));
}

#[test]
fn malformed_text_is_invalid_data() {
    let buffer = vec![0xFFu8, 0xFE];
    let mut config = SerializerConfig::new();
    assert!(matches!(
        read_string(&buffer, None, &mut config),
        Err(DeserializationError::InvalidData(_))
    ));
}

#[test]
fn text_longer_than_the_buffer_is_missing_bytes() {
    let buffer = vec![5u8, b'a', b'b'];
    let mut config = SerializerConfig::new();
    assert_eq!(
        read_string(&buffer, Some("__dynamic"), &mut config),
        Err(DeserializationError::NotEnoughBytes(3))
    );
}

#[test]
fn ensure_size_counts_from_the_logical_position() {
    let bytes = [0u8; 4];
    let mut config = SerializerConfig::new();
    assert_eq!(ensure_size(&config, &bytes, 4), Ok(true));
    assert_eq!(ensure_size(&config, &bytes, 3), Ok(false));
    assert_eq!(ensure_size(&config, &bytes, 6), Err(DeserializationError::NotEnoughBytes(2)));
    config.bits = 2;
    assert_eq!(ensure_size(&config, &bytes, 3), Ok(true));
    assert_eq!(ensure_size(&config, &bytes, 4), Err(DeserializationError::NotEnoughBytes(1)));
    config.pos = 9;
    config.bits = 0;
    assert_eq!(ensure_size(&config, &bytes, 0), Err(DeserializationError::NotEnoughBytes(5)));
}

#[test]
fn a_byte_in_progress_counts_as_taken() {
    let bytes = [0u8; 4];
    let mut config = SerializerConfig::new();
    assert_eq!(bytes_left(&config, &bytes), 4);
    config.bits = 3;
    assert_eq!(bytes_left(&config, &bytes), 3);
    config.pos = 3;
    assert_eq!(bytes_left(&config, &bytes), 0);
    config.pos = 7;
    assert_eq!(bytes_left(&config, &bytes), 0);
}

#[test]
fn slice_takes_bytes_at_the_cursor() {
    let bytes = [1u8, 2, 3, 4];
    let mut config = SerializerConfig::new();
    config.pos = 1;
    assert_eq!(slice(&mut config, &bytes, 2, false), Ok(&bytes[1..3]));
    assert_eq!(config.pos, 1);
    assert_eq!(slice(&mut config, &bytes, 2, true), Ok(&bytes[1..3]));
    assert_eq!(config.pos, 3);
    assert_eq!(
        slice(&mut config, &bytes, 2, true),
        Err(DeserializationError::NotEnoughBytes(1))
    );
    assert_eq!(config.pos, 3);
}

#[test]
fn read_size_follows_the_key() {
    let bytes = [0xD8u8, 0x04, 1, 2, 3];
    let mut config = SerializerConfig::new();
    assert_eq!(get_read_size(&bytes, Some("__dynamic"), &mut config), Ok(600));
    assert_eq!(config.pos, 2);
    config.set_length("n", 2);
    assert_eq!(get_read_size(&bytes, Some("n"), &mut config), Ok(2));
    assert_eq!(get_read_size(&bytes, Some("unknown"), &mut config), Ok(3));
    assert_eq!(get_read_size(&bytes, None, &mut config), Ok(3));
    config.set_length("big", 4);
    assert_eq!(
        get_read_size(&bytes, Some("big"), &mut config),
        Err(DeserializationError::NotEnoughBytes(1))
    );
    assert_eq!(config.pos, 2);
}

#[test]
fn write_size_prefixes_or_checks() {
    let mut buffer = Vec::new();
    let mut config = SerializerConfig::new();
    write_size(600, Some("__dynamic"), &mut buffer, &mut config).unwrap();
    assert_eq!(buffer, vec![0xD8, 0x04]);
    assert_eq!(config.pos, 2);
    write_size(0, Some("__dynamic"), &mut buffer, &mut config).unwrap();
    assert_eq!(buffer, vec![0xD8, 0x04, 0]);
    config.set_length("n", 3);
    assert_eq!(write_size(3, Some("n"), &mut buffer, &mut config), Ok(()));
    assert_eq!(
        write_size(4, Some("n"), &mut buffer, &mut config),
        Err(SerializationError::UnexpectedLength(3, 4))
    );
    assert_eq!(write_size(4, Some("other"), &mut buffer, &mut config), Ok(()));
    assert_eq!(write_size(4, None, &mut buffer, &mut config), Ok(()));
    assert_eq!(buffer.len(), 3);
}

#[test]
fn object_with_a_length_gets_its_own_bytes() {
    let mut buffer = Vec::new();
    let mut config = SerializerConfig::new();
    write_bool(true, &mut buffer, &mut config).unwrap();
    write_object(&TestObj { nr: 7 }, Some("__dynamic"), &mut buffer, &mut config).unwrap();
    assert_eq!(buffer, vec![1, 2, 0, 7]);
    assert_eq!((config.pos, config.bits), (3, 0));
    buffer.push(0xEE);

    let mut config = SerializerConfig::new();
    config.bits = 1;
    assert_eq!(
        frame_object(&buffer, Some("__dynamic"), &mut config),
        Ok(ObjectFrame::Isolated { start: 2, len: 2 })
    );
    assert_eq!((config.pos, config.bits), (4, 0));

    let mut config = SerializerConfig::new();
    config.bits = 1;
    let obj = read_object::<TestObj>(&buffer, Some("__dynamic"), &mut config).unwrap();
    assert_eq!(obj.nr, 7);
    assert_eq!((config.pos, config.bits), (4, 0));
}

#[test]
fn object_without_a_length_shares_the_buffer() {
    let mut buffer = vec![9u8];
    let mut config = SerializerConfig::new();
    config.pos = 1;
    write_object(&TestObj { nr: 0x0102 }, None, &mut buffer, &mut config).unwrap();
    assert_eq!(buffer, vec![9, 1, 2]);
    assert_eq!(config.pos, 3);
    let mut config = SerializerConfig::new();
    config.pos = 1;
    assert_eq!(frame_object(&buffer, None, &mut config), Ok(ObjectFrame::Shared));
    assert_eq!(config.pos, 1);
    assert_eq!(TestObj { nr: 3 }.to_bytes(Some(&mut SerializerConfig::new())), Ok(vec![0, 3]));
}
