//! Fields of one to seven bits that share bytes with their neighbours, read
//! and written at the cursor of a [`SerializerConfig`].

use vstd::prelude::*;
use vstd::arithmetic::power2::{lemma2_to64, pow2};
use crate::config::{ConfigView, SerializerConfig};
use crate::encodings::ZigZag;
use crate::{missing_bytes, shortfall};
use crate::{
    DeserializationError, DeserializationErrorView, SerializationError, SerializationErrorView,
};

verus! {

/// The byte with `bit_count` bits set, the lowest of them at offset `bits`.
pub open spec fn mask_of(bits: u8, bit_count: u8) -> u8 {
    (((1u8 << bit_count) - 1) as u8) << bits
}

/// The field of `bit_count` bits at offset `bits` of `byte`, right-justified.
pub open spec fn take_bits(byte: u8, bits: u8, bit_count: u8) -> u8 {
    (byte & mask_of(bits, bit_count)) >> bits
}

/// `byte` with the low `bit_count` bits of `val` stored at offset `bits`.
pub open spec fn put_bits(byte: u8, bits: u8, bit_count: u8, val: u8) -> u8 {
    (byte & !mask_of(bits, bit_count)) | ((val << bits) & mask_of(bits, bit_count))
}

/// The largest unsigned value of `bit_count` bits.
pub open spec fn highest_unsigned(bit_count: u8) -> int {
    pow2(bit_count as nat) - 1
}

/// The smallest signed value of `bit_count` bits.
pub open spec fn lowest_signed(bit_count: u8) -> int {
    -(pow2((bit_count - 1) as nat) as int)
}

/// The largest signed value of `bit_count` bits.
pub open spec fn highest_signed(bit_count: u8) -> int {
    pow2((bit_count - 1) as nat) - 1
}

/// A field of one to seven bits.
pub open spec fn valid_width(bit_count: u8) -> bool {
    1 <= bit_count <= 7
}

/// Shifting one to the left by less than a byte gives the power of two.
pub proof fn lemma_shift_pow2(k: u8)
    requires
        k < 8,
    ensures
        (1u8 << k) == pow2(k as nat),
        k < 7 ==> (1i8 << k) == pow2(k as nat),
{
    lemma2_to64();
    assert(k < 8 ==> (1u8 << k) == (if k == 0 {
        1u8
    } else if k == 1 {
        2u8
    } else if k == 2 {
        4u8
    } else if k == 3 {
        8u8
    } else if k == 4 {
        16u8
    } else if k == 5 {
        32u8
    } else if k == 6 {
        64u8
    } else {
        128u8
    })) by (bit_vector);
    assert(k < 7 ==> (1i8 << k) == (if k == 0 {
        1i8
    } else if k == 1 {
        2i8
    } else if k == 2 {
        4i8
    } else if k == 3 {
        8i8
    } else if k == 4 {
        16i8
    } else if k == 5 {
        32i8
    } else {
        64i8
    })) by (bit_vector);
}

/// A field reads back as the value that was stored in it.
pub proof fn lemma_take_put(byte: u8, bits: u8, bit_count: u8, val: u8)
    by (bit_vector)
    requires
        1 <= bit_count <= 7,
        bits + bit_count <= 8,
        val <= (1u8 << bit_count) - 1,
    ensures
        take_bits(put_bits(byte, bits, bit_count, val), bits, bit_count) == val,
{
}

/// What reading a field of `bit_count` bits at the cursor `c` yields. A
/// field that does not fit into the rest of the byte in progress starts at
/// the next byte.
pub open spec fn bits_read(bytes: Seq<u8>, c: ConfigView, bit_count: u8) -> Result<
    (u8, ConfigView),
    DeserializationErrorView,
> {
    let fresh = c.bits == 8 || c.bits + bit_count > 8;
    let needed: usize = if fresh {
        2
    } else {
        1
    };
    if c.pos + needed > bytes.len() {
        Err(
            DeserializationErrorView::NotEnoughBytes(
                shortfall(c.pos, needed, bytes.len() as usize),
            ),
        )
    } else if fresh {
        Ok(
            (
                take_bits(bytes[c.pos + 1], 0, bit_count),
                ConfigView { pos: (c.pos + 1) as usize, bits: bit_count, ..c },
            ),
        )
    } else {
        Ok(
            (
                take_bits(bytes[c.pos as int], c.bits, bit_count),
                ConfigView { bits: (c.bits + bit_count) as u8, ..c },
            ),
        )
    }
}

/// The buffer and the cursor after a field of `bit_count` bits has been
/// written. A field that does not fit into the rest of the last byte, or
/// that follows a byte boundary, starts a new zero byte at the end. Any
/// other is stored in the byte at the cursor, where there is one.
pub open spec fn bits_written(buffer: Seq<u8>, c: ConfigView, val: u8, bit_count: u8) -> (
    Seq<u8>,
    ConfigView,
) {
    if c.bits == 0 || c.bits + bit_count > 8 {
        (
            buffer.push(put_bits(0, 0, bit_count, val)),
            ConfigView { pos: buffer.len() as usize, bits: bit_count, ..c },
        )
    } else if c.pos < buffer.len() {
        (
            buffer.update(c.pos as int, put_bits(buffer[c.pos as int], c.bits, bit_count, val)),
            ConfigView { bits: (c.bits + bit_count) as u8, ..c },
        )
    } else {
        (buffer, ConfigView { bits: (c.bits + bit_count) as u8, ..c })
    }
}

/// The mask of a field of `bit_count` bits at offset `bits`.
pub fn create_mask(bits: &u8, bit_count: u8) -> (res: u8)
    requires
        *bits < 8,
        bit_count < 8,
    ensures
        res == mask_of(*bits, bit_count),
{
    proof {
        lemma_shift_pow2(bit_count);
        lemma2_to64();
    }
    let mask: u8 = (1u8 << bit_count) - 1u8;
    return mask << *bits;
}

/// Reads a field of `bit_count` bits at the cursor.
pub fn read_small_dynamic(bytes: &[u8], config: &mut SerializerConfig, bit_count: u8) -> (res:
    Result<u8, DeserializationError>)
    requires
        old(config).wf(),
        valid_width(bit_count),
    ensures
        final(config).wf(),
        match bits_read(bytes@, old(config)@, bit_count) {
            Ok((v, c)) => res == Ok::<u8, DeserializationError>(v) && final(config)@ == c,
            Err(e) => res is Err && res->Err_0@ == e && final(config)@ == old(config)@,
        },
{
    let fresh = config.bits == 8 || config.bits + bit_count > 8;
    let needed: usize = if fresh {
        2
    } else {
        1
    };
    if config.pos >= bytes.len() || needed > bytes.len() - config.pos {
        return Err(
            DeserializationError::NotEnoughBytes(missing_bytes(config.pos, needed, bytes.len())),
        );
    }
    if fresh {
        config.bits = 0;
        config.pos = config.pos + 1;
    }
    let mask = create_mask(&config.bits, bit_count);
    let val = bytes[config.pos];
    let result = (val & mask) >> config.bits;
    config.bits = config.bits + bit_count;
    Ok(result)
}

/// Writes the low `bit_count` bits of `val` as a field at the cursor.
pub fn write_small_dynamic(
    val: u8,
    bytes: &mut Vec<u8>,
    config: &mut SerializerConfig,
    bit_count: u8,
) -> (res: Result<(), SerializationError>)
    requires
        old(config)@.can_write(old(bytes)@),
        valid_width(bit_count),
    ensures
        res is Ok,
        (final(bytes)@, final(config)@) == bits_written(
            old(bytes)@,
            old(config)@,
            val,
            bit_count,
        ),
        final(config)@.can_write(final(bytes)@),
{
    if config.bits == 0 || config.bits + bit_count > 8 {
        config.bits = 0;
        config.pos = bytes.len();
        bytes.push(0u8);
        assert(bytes.len() == config.pos + 1);
    }
    let mask = create_mask(&config.bits, bit_count);
    let stored: u8 = (bytes[config.pos] & !mask) | ((val << config.bits) & mask);
    bytes.set(config.pos, stored);
    config.bits = config.bits + bit_count;
    assert(final(bytes)@ =~= bits_written(old(bytes)@, old(config)@, val, bit_count).0);
    Ok(())
}

/// Reads an unsigned field of `bit_count` bits.
pub fn read_small_dynamic_unsigned(
    bytes: &[u8],
    config: &mut SerializerConfig,
    bit_count: u8,
) -> (res: Result<u8, DeserializationError>)
    requires
        old(config).wf(),
        valid_width(bit_count),
    ensures
        final(config).wf(),
        match bits_read(bytes@, old(config)@, bit_count) {
            Ok((v, c)) => res == Ok::<u8, DeserializationError>(v) && final(config)@ == c,
            Err(e) => res is Err && res->Err_0@ == e && final(config)@ == old(config)@,
        },
{
    read_small_dynamic(bytes, config, bit_count)
}

/// Reads a signed field of `bit_count` bits: the field holds the zig-zag
/// image of the number.
pub fn read_small_dynamic_signed(
    bytes: &[u8],
    config: &mut SerializerConfig,
    bit_count: u8,
) -> (res: Result<i8, DeserializationError>)
    requires
        old(config).wf(),
        valid_width(bit_count),
    ensures
        final(config).wf(),
        match bits_read(bytes@, old(config)@, bit_count) {
            Ok((v, c)) => {
                &&& res == Ok::<i8, DeserializationError>(i8::unzigzag(v))
                &&& final(config)@ == c
            },
            Err(e) => res is Err && res->Err_0@ == e && final(config)@ == old(config)@,
        },
{
    match read_small_dynamic(bytes, config, bit_count) {
        Ok(val) => Ok(i8::to_signed(val)),
        Err(e) => Err(e),
    }
}

/// Writes an unsigned field of `bit_count` bits, or rejects a value that
/// needs more bits.
pub fn write_small_dynamic_unsigned(
    val: u8,
    bytes: &mut Vec<u8>,
    config: &mut SerializerConfig,
    bit_count: u8,
) -> (res: Result<(), SerializationError>)
    requires
        old(config)@.can_write(old(bytes)@),
        valid_width(bit_count),
    ensures
        val > highest_unsigned(bit_count) ==> {
            &&& res is Err
            &&& res->Err_0@ == SerializationErrorView::ValueOutOfBounds(
                val as i32,
                0,
                highest_unsigned(bit_count) as i32,
            )
            &&& final(bytes)@ == old(bytes)@
            &&& final(config)@ == old(config)@
        },
        val <= highest_unsigned(bit_count) ==> {
            &&& res is Ok
            &&& (final(bytes)@, final(config)@) == bits_written(
                old(bytes)@,
                old(config)@,
                val,
                bit_count,
            )
            &&& final(config)@.can_write(final(bytes)@)
        },
{
    proof {
        lemma_shift_pow2(bit_count);
        lemma2_to64();
    }
    let max: u8 = (1u8 << bit_count) - 1;
    if val > max {
        return Err(SerializationError::ValueOutOfBounds(val as i32, 0, max as i32));
    }
    write_small_dynamic(val, bytes, config, bit_count)
}

/// Writes a signed field of `bit_count` bits as the zig-zag image of the
/// number, or rejects a number outside the signed range of that width.
pub fn write_small_dynamic_signed(
    val: i8,
    bytes: &mut Vec<u8>,
    config: &mut SerializerConfig,
    bit_count: u8,
) -> (res: Result<(), SerializationError>)
    requires
        old(config)@.can_write(old(bytes)@),
        valid_width(bit_count),
    ensures
        !(lowest_signed(bit_count) <= val <= highest_signed(bit_count)) ==> {
            &&& res is Err
            &&& res->Err_0@ == SerializationErrorView::ValueOutOfBounds(
                val as i32,
                lowest_signed(bit_count) as i32,
                highest_signed(bit_count) as i32,
            )
            &&& final(bytes)@ == old(bytes)@
            &&& final(config)@ == old(config)@
        },
        lowest_signed(bit_count) <= val <= highest_signed(bit_count) ==> {
            &&& res is Ok
            &&& (final(bytes)@, final(config)@) == bits_written(
                old(bytes)@,
                old(config)@,
                val.zigzag(),
                bit_count,
            )
            &&& final(config)@.can_write(final(bytes)@)
        },
{
    proof {
        lemma_shift_pow2((bit_count - 1) as u8);
        lemma2_to64();
    }
    let min: i8 = -(1i8 << (bit_count - 1));
    let max: i8 = (1i8 << (bit_count - 1)) - 1;
    if val < min || val > max {
        return Err(SerializationError::ValueOutOfBounds(val as i32, min as i32, max as i32));
    }
    write_small_dynamic(val.to_unsigned(), bytes, config, bit_count)
}

/// Writes a flag as a field of one bit.
pub fn write_bool(val: bool, bytes: &mut Vec<u8>, config: &mut SerializerConfig) -> (res: Result<
    (),
    SerializationError,
>)
    requires
        old(config)@.can_write(old(bytes)@),
    ensures
        res is Ok,
        (final(bytes)@, final(config)@) == bits_written(
            old(bytes)@,
            old(config)@,
            if val {
                1u8
            } else {
                0u8
            },
            1,
        ),
        final(config)@.can_write(final(bytes)@),
{
    let val_u8: u8 = if val {
        1
    } else {
        0
    };
    write_small_dynamic(val_u8, bytes, config, 1)
}

/// Reads a flag from a field of one bit.
pub fn read_bool(bytes: &[u8], config: &mut SerializerConfig) -> (res: Result<
    bool,
    DeserializationError,
>)
    requires
        old(config).wf(),
    ensures
        final(config).wf(),
        match bits_read(bytes@, old(config)@, 1) {
            Ok((v, c)) => res == Ok::<bool, DeserializationError>(v != 0) && final(config)@ == c,
            Err(e) => res is Err && res->Err_0@ == e && final(config)@ == old(config)@,
        },
{
    match read_small_dynamic(bytes, config, 1) {
        Ok(val) => Ok(val != 0),
        Err(e) => Err(e),
    }
}

} // verus!
