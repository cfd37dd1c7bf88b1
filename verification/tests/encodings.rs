use binary_codec::encodings::{read_zigzag, write_zigzag, FixedInt, ZigZag};
use binary_codec::DeserializationError;

#[test]
fn test_write_read_zigzag_i32() {
    let mut bytes = Vec::new();
    let mut pos = 0;
    let mut bits = 0;
    let val: i32 = -123;
    write_zigzag::<i32, 4>(val, &mut bytes, &mut pos, &mut bits).unwrap();
    pos = 0;
    bits = 0;
    let decoded = read_zigzag::<i32, 4>(&bytes, &mut pos, &mut bits).unwrap();
    assert_eq!(decoded, val);
}

#[test]
fn test_write_read_zigzag_i64() {
    let mut bytes = Vec::new();
    let mut pos = 0;
    let mut bits = 0;
    let val: i64 = 456789;
    write_zigzag::<i64, 8>(val, &mut bytes, &mut pos, &mut bits).unwrap();
    pos = 0;
    bits = 0;
    let decoded = read_zigzag::<i64, 8>(&bytes, &mut pos, &mut bits).unwrap();
    assert_eq!(decoded, val);
}

#[test]
fn test_write_read_fixedint_u32() {
    let mut bytes = Vec::new();
    let mut pos = 0;
    let mut bits = 0;
    let val: u32 = 0b1010_1010_1010_1010_1010_1010_1010_1010;
    val.write(&mut bytes, &mut pos, &mut bits).unwrap();
    pos = 0;
    bits = 0;
    let decoded = u32::read(&bytes, &mut pos, &mut bits).unwrap();
    assert_eq!(decoded, val);
}

#[test]
fn test_write_read_fixedint_u128() {
    let mut bytes = Vec::new();
    let mut pos = 0;
    let mut bits = 0;
    let val: u128 = 0xAAAA_AAAA_AAAA_AAAA_AAAA_AAAA_AAAA_AAAA;
    val.write(&mut bytes, &mut pos, &mut bits).unwrap();
    pos = 0;
    bits = 0;
    let decoded = u128::read(&bytes, &mut pos, &mut bits).unwrap();
    assert_eq!(decoded, val);
}

#[test]
fn zigzag_i16_pos() {
    let val: i16 = 2;
    let encoded: u16 = val.to_unsigned();
    assert_eq!(encoded, 4);
    assert_eq!(i16::to_signed(encoded), val);
}

#[test]
fn zigzag_i16_neg() {
    let val: i16 = -2;
    let encoded: u16 = val.to_unsigned();
    assert_eq!(encoded, 3);
    assert_eq!(i16::to_signed(encoded), val);
}

#[test]
fn zigzag_i32_pos() {
    let val: i32 = 2;
    let encoded: u32 = val.to_unsigned();
    assert_eq!(encoded, 4);
    assert_eq!(i32::to_signed(encoded), val);
}

#[test]
fn zigzag_i32_neg() {
    let val: i32 = -2;
    let encoded: u32 = val.to_unsigned();
    assert_eq!(encoded, 3);
    assert_eq!(i32::to_signed(encoded), val);
}

#[test]
fn zigzag_i64_pos() {
    let val: i64 = 2;
    let encoded: u64 = val.to_unsigned();
    assert_eq!(encoded, 4);
    assert_eq!(i64::to_signed(encoded), val);
}

#[test]
fn zigzag_i64_neg() {
    let val: i64 = -2;
    let encoded: u64 = val.to_unsigned();
    assert_eq!(encoded, 3);
    assert_eq!(i64::to_signed(encoded), val);
}

#[test]
fn zigzag_i128_pos() {
    let val: i128 = 2;
    let encoded: u128 = val.to_unsigned();
    assert_eq!(encoded, 4);
    assert_eq!(i128::to_signed(encoded), val);
}

#[test]
fn zigzag_i128_neg() {
    let val: i128 = -2;
    let encoded: u128 = val.to_unsigned();
    assert_eq!(encoded, 3);
    assert_eq!(i128::to_signed(encoded), val);
}

#[test]
fn zigzag_covers_the_extremes() {
    assert_eq!(0i8.to_unsigned(), 0);
    assert_eq!((-1i8).to_unsigned(), 1);
    assert_eq!(i8::MAX.to_unsigned(), 254);
    assert_eq!(i8::MIN.to_unsigned(), 255);
    assert_eq!(i8::to_signed(255), i8::MIN);
    assert_eq!(i8::to_signed(254), i8::MAX);
    assert_eq!(i128::MIN.to_unsigned(), u128::MAX);
    assert_eq!(i128::to_signed(u128::MAX), i128::MIN);
    let mut x = i16::MIN;
    loop {
        assert_eq!(i16::to_signed(x.to_unsigned()), x);
        if x == i16::MAX {
            break;
        }
        x += 1;
    }
}

#[test]
fn fixedint_u16() {
    let val: u16 = 0b1010_1010_1010_1010;
    let serialized = val.serialize();
    assert_eq!(serialized, [0b1010_1010; 2]);
    assert_eq!(u16::deserialize(&serialized), val);
}

#[test]
fn fixedint_u32() {
    let val: u32 = 0b1010_1010_1010_1010_1010_1010_1010_1010;
    let serialized = val.serialize();
    assert_eq!(serialized, [0b1010_1010; 4]);
    assert_eq!(u32::deserialize(&serialized), val);
}

#[test]
fn fixedint_u64() {
    let val: u64 = 0xAAAA_AAAA_AAAA_AAAA;
    let serialized = val.serialize();
    assert_eq!(serialized, [0b1010_1010; 8]);
    assert_eq!(u64::deserialize(&serialized), val);
}

#[test]
fn fixedint_u128() {
    let val: u128 = 0xAAAA_AAAA_AAAA_AAAA_AAAA_AAAA_AAAA_AAAA;
    let serialized = val.serialize();
    assert_eq!(serialized, [0b1010_1010; 16]);
    assert_eq!(u128::deserialize(&serialized), val);
}

#[test]
fn fixed_integers_are_big_endian() {
    assert_eq!(0x12u8.serialize(), [0x12]);
    assert_eq!(0x1234u16.serialize(), [0x12, 0x34]);
    assert_eq!(0x1234_5678u32.serialize(), [0x12, 0x34, 0x56, 0x78]);
    assert_eq!(
        0x0102_0304_0506_0708u64.serialize(),
        [1, 2, 3, 4, 5, 6, 7, 8]
    );
    assert_eq!(
        0x0102_0304_0506_0708_090A_0B0C_0D0E_0F10u128.serialize(),
        [1, 2, 3, 4, 5, 6, 7, 8, 9, 10, 11, 12, 13, 14, 15, 16]
    );
    assert_eq!(u32::deserialize(&[0x12, 0x34, 0x56, 0x78]), 0x1234_5678);
    assert_eq!(u128::deserialize(&u128::MAX.serialize()), u128::MAX);
}

#[test]
fn fixed_read_reports_the_missing_bytes() {
    let bytes = [1u8, 2, 3];
    let mut pos = 1;
    let mut bits = 0;
    assert_eq!(
        u32::read(&bytes, &mut pos, &mut bits),
        Err(DeserializationError::NotEnoughBytes(2))
    );
    assert_eq!(pos, 1);
    let mut pos = 0;
    let mut bits = 0;
    assert_eq!(
        u16::read(&[], &mut pos, &mut bits),
        Err(DeserializationError::NotEnoughBytes(2))
    );
}

#[test]
fn fixed_write_moves_the_position() {
    let mut bytes = Vec::new();
    let mut pos = 0;
    let mut bits = 3;
    0x0102u16.write(&mut bytes, &mut pos, &mut bits).unwrap();
    assert_eq!(bytes, vec![1, 2]);
    assert_eq!((pos, bits), (2, 0));
}
