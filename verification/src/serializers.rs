//! Fields of one to seven bits over a position and a bit offset that the
//! caller holds. The position counts the bytes that have been started: the
//! byte in progress is the one before it.

use vstd::prelude::*;
use vstd::arithmetic::power2::lemma2_to64;
use crate::dynamics::{
    highest_signed, highest_unsigned, lemma_shift_pow2, lowest_signed, mask_of, put_bits,
    take_bits, valid_width,
};
use crate::encodings::ZigZag;
use crate::{missing_bytes, shortfall};
use crate::{
    DeserializationError, DeserializationErrorView, SerializationError, SerializationErrorView,
};

verus! {

/// Where a field of `bits_needed` bits goes when `bits` bits of the byte in
/// progress are used: the offset of the field, the offset behind it (zero
/// when it fills the byte), and whether it starts a new byte.
pub open spec fn next_field(bits: u8, bits_needed: u8) -> (u8, u8, bool) {
    if bits + bits_needed > 8 {
        (0, bits_needed, true)
    } else if bits + bits_needed < 8 {
        (bits, (bits + bits_needed) as u8, bits == 0)
    } else {
        (bits, 0, false)
    }
}

/// The index of the byte that a field is read from: the byte before the
/// position, or the first byte for a reader that has not moved yet.
pub open spec fn field_index(pos: usize, new_byte: bool) -> int {
    if new_byte {
        pos as int
    } else if pos == 0 {
        0
    } else {
        pos - 1
    }
}

/// What reading a field of `bit_count` bits yields: the value, the position
/// and the bit offset behind it.
pub open spec fn field_read(bytes: Seq<u8>, pos: usize, bits: u8, bit_count: u8) -> Result<
    (u8, usize, u8),
    DeserializationErrorView,
> {
    let (current, next, new_byte) = next_field(bits, bit_count);
    let at = field_index(pos, new_byte);
    if at >= bytes.len() {
        Err(
            DeserializationErrorView::NotEnoughBytes(
                shortfall(at as usize, 1, bytes.len() as usize),
            ),
        )
    } else {
        Ok(
            (
                take_bits(bytes[at], current, bit_count),
                if new_byte {
                    (pos + 1) as usize
                } else {
                    pos
                },
                next,
            ),
        )
    }
}

/// Whether a field of `bit_count` bits can be written: the byte in progress
/// exists, or a new one can be counted.
pub open spec fn can_write_field(buffer: Seq<u8>, pos: usize, bits: u8, bit_count: u8) -> bool {
    &&& valid_width(bit_count)
    &&& bits <= 8
    &&& pos <= buffer.len()
    &&& next_field(bits, bit_count).2 || pos >= 1
}

/// The buffer, the position and the bit offset after a field of `bit_count`
/// bits has been written.
pub open spec fn field_written(buffer: Seq<u8>, pos: usize, bits: u8, val: u8, bit_count: u8) -> (
    Seq<u8>,
    usize,
    u8,
) {
    let (current, next, new_byte) = next_field(bits, bit_count);
    let grown = if new_byte {
        buffer.push(0u8)
    } else {
        buffer
    };
    let at: int = if new_byte {
        pos as int
    } else {
        pos - 1
    };
    (grown.update(at, put_bits(grown[at], current, bit_count, val)), (at + 1) as usize, next)
}

/// The mask of a field of `bit_count` bits at offset `bits`.
pub fn create_mask(bits: &u8, bit_count: u8) -> (res: u8)
    requires
        *bits < 8,
        bit_count < 8,
    ensures
        res == mask_of(*bits, bit_count),
{
    proof {
        lemma_shift_pow2(bit_count);
        lemma2_to64();
    }
    let mask: u8 = (1u8 << bit_count) - 1u8;
    return mask << *bits;
}

/// Returns the offset of the next field, the offset behind it and whether
/// it starts a new byte.
pub fn next_bits_and_byte(bits: u8, bits_needed: u8) -> (res: (u8, u8, bool))
    requires
        bits + bits_needed <= u8::MAX,
    ensures
        res == next_field(bits, bits_needed),
{
    let next_bits: u8 = bits + bits_needed;
    if next_bits > 8 {
        (0, bits_needed, true)
    } else if next_bits < 8 {
        (bits, next_bits, bits == 0)
    } else {
        (bits, 0, false)
    }
}

/// Reads a field of `bit_count` bits.
pub fn read_small_dynamic(bytes: &[u8], pos: &mut usize, bits: &mut u8, bit_count: u8) -> (res:
    Result<u8, DeserializationError>)
    requires
        *old(bits) <= 8,
        valid_width(bit_count),
    ensures
        match field_read(bytes@, *old(pos), *old(bits), bit_count) {
            Ok((v, p, b)) => {
                &&& res == Ok::<u8, DeserializationError>(v)
                &&& *final(pos) == p
                &&& *final(bits) == b
            },
            Err(e) => {
                &&& res is Err
                &&& res->Err_0@ == e
                &&& *final(pos) == *old(pos)
                &&& *final(bits) == *old(bits)
            },
        },
{
    let (current_bits, next_bits, next_byte) = next_bits_and_byte(*bits, bit_count);
    let mask = create_mask(&current_bits, bit_count);
    let read_pos: usize = if next_byte || *pos == 0 {
        *pos
    } else {
        *pos - 1
    };
    if read_pos >= bytes.len() {
        return Err(DeserializationError::NotEnoughBytes(missing_bytes(read_pos, 1, bytes.len())));
    }
    if next_byte {
        *pos = *pos + 1;
    }
    let val = bytes[read_pos];
    let result = (val & mask) >> current_bits;
    *bits = next_bits;
    Ok(result)
}

/// Writes the low `bit_count` bits of `val` as a field.
pub fn write_small_dynamic(
    val: u8,
    bytes: &mut Vec<u8>,
    pos: &mut usize,
    bits: &mut u8,
    bit_count: u8,
) -> (res: Result<(), SerializationError>)
    requires
        can_write_field(old(bytes)@, *old(pos), *old(bits), bit_count),
    ensures
        res is Ok,
        (final(bytes)@, *final(pos), *final(bits)) == field_written(
            old(bytes)@,
            *old(pos),
            *old(bits),
            val,
            bit_count,
        ),
{
    let (current_bits, next_bits, next_byte) = next_bits_and_byte(*bits, bit_count);
    let mask = create_mask(&current_bits, bit_count);
    if next_byte {
        bytes.push(0u8);
        assert(bytes.len() == old(bytes).len() + 1);
        *pos = *pos + 1;
    }
    let stored: u8 = (bytes[*pos - 1] & !mask) | ((val << current_bits) & mask);
    bytes.set(*pos - 1, stored);
    *bits = next_bits;
    assert(final(bytes)@ =~= field_written(
        old(bytes)@,
        *old(pos),
        *old(bits),
        val,
        bit_count,
    ).0);
    Ok(())
}

/// Reads an unsigned field of `bit_count` bits.
pub fn read_small_dynamic_unsigned(
    bytes: &[u8],
    pos: &mut usize,
    bits: &mut u8,
    bit_count: u8,
) -> (res: Result<u8, DeserializationError>)
    requires
        *old(bits) <= 8,
        valid_width(bit_count),
    ensures
        match field_read(bytes@, *old(pos), *old(bits), bit_count) {
            Ok((v, p, b)) => {
                &&& res == Ok::<u8, DeserializationError>(v)
                &&& *final(pos) == p
                &&& *final(bits) == b
            },
            Err(e) => {
                &&& res is Err
                &&& res->Err_0@ == e
                &&& *final(pos) == *old(pos)
                &&& *final(bits) == *old(bits)
            },
        },
{
    read_small_dynamic(bytes, pos, bits, bit_count)
}

/// Reads a signed field of `bit_count` bits: the field holds the zig-zag
/// image of the number.
pub fn read_small_dynamic_signed(
    bytes: &[u8],
    pos: &mut usize,
    bits: &mut u8,
    bit_count: u8,
) -> (res: Result<i8, DeserializationError>)
    requires
        *old(bits) <= 8,
        valid_width(bit_count),
    ensures
        match field_read(bytes@, *old(pos), *old(bits), bit_count) {
            Ok((v, p, b)) => {
                &&& res == Ok::<i8, DeserializationError>(i8::unzigzag(v))
                &&& *final(pos) == p
                &&& *final(bits) == b
            },
            Err(e) => {
                &&& res is Err
                &&& res->Err_0@ == e
                &&& *final(pos) == *old(pos)
                &&& *final(bits) == *old(bits)
            },
        },
{
    match read_small_dynamic(bytes, pos, bits, bit_count) {
        Ok(val) => Ok(i8::to_signed(val)),
        Err(e) => Err(e),
    }
}

/// Writes an unsigned field of `bit_count` bits, or rejects a value that
/// needs more bits.
pub fn write_small_dynamic_unsigned(
    val: u8,
    bytes: &mut Vec<u8>,
    pos: &mut usize,
    bits: &mut u8,
    bit_count: u8,
) -> (res: Result<(), SerializationError>)
    requires
        can_write_field(old(bytes)@, *old(pos), *old(bits), bit_count),
    ensures
        val > highest_unsigned(bit_count) ==> {
            &&& res is Err
            &&& res->Err_0@ == SerializationErrorView::ValueOutOfBounds(
                val as i32,
                0,
                highest_unsigned(bit_count) as i32,
            )
            &&& final(bytes)@ == old(bytes)@
            &&& *final(pos) == *old(pos)
            &&& *final(bits) == *old(bits)
        },
        val <= highest_unsigned(bit_count) ==> {
            &&& res is Ok
            &&& (final(bytes)@, *final(pos), *final(bits)) == field_written(
                old(bytes)@,
                *old(pos),
                *old(bits),
                val,
                bit_count,
            )
        },
{
    proof {
        lemma_shift_pow2(bit_count);
        lemma2_to64();
    }
    let max: u8 = (1u8 << bit_count) - 1;
    if val > max {
        return Err(SerializationError::ValueOutOfBounds(val as i32, 0, max as i32));
    }
    write_small_dynamic(val, bytes, pos, bits, bit_count)
}

/// Writes a signed field of `bit_count` bits as the zig-zag image of the
/// number, or rejects a number outside the signed range of that width.
pub fn write_small_dynamic_signed(
    val: i8,
    bytes: &mut Vec<u8>,
    pos: &mut usize,
    bits: &mut u8,
    bit_count: u8,
) -> (res: Result<(), SerializationError>)
    requires
        can_write_field(old(bytes)@, *old(pos), *old(bits), bit_count),
    ensures
        !(lowest_signed(bit_count) <= val <= highest_signed(bit_count)) ==> {
            &&& res is Err
            &&& res->Err_0@ == SerializationErrorView::ValueOutOfBounds(
                val as i32,
                lowest_signed(bit_count) as i32,
                highest_signed(bit_count) as i32,
            )
            &&& final(bytes)@ == old(bytes)@
            &&& *final(pos) == *old(pos)
            &&& *final(bits) == *old(bits)
        },
        lowest_signed(bit_count) <= val <= highest_signed(bit_count) ==> {
            &&& res is Ok
            &&& (final(bytes)@, *final(pos), *final(bits)) == field_written(
                old(bytes)@,
                *old(pos),
                *old(bits),
                val.zigzag(),
                bit_count,
            )
        },
{
    proof {
        lemma_shift_pow2((bit_count - 1) as u8);
        lemma2_to64();
    }
    let min: i8 = -(1i8 << (bit_count - 1));
    let max: i8 = (1i8 << (bit_count - 1)) - 1;
    if val < min || val > max {
        return Err(SerializationError::ValueOutOfBounds(val as i32, min as i32, max as i32));
    }
    write_small_dynamic(val.to_unsigned(), bytes, pos, bits, bit_count)
}

/// Writes a flag as a field of one bit.
pub fn write_bool(val: bool, bytes: &mut Vec<u8>, pos: &mut usize, bits: &mut u8) -> (res: Result<
    (),
    SerializationError,
>)
    requires
        can_write_field(old(bytes)@, *old(pos), *old(bits), 1),
    ensures
        res is Ok,
        (final(bytes)@, *final(pos), *final(bits)) == field_written(
            old(bytes)@,
            *old(pos),
            *old(bits),
            if val {
                1u8
            } else {
                0u8
            },
            1,
        ),
{
    let val_u8: u8 = if val {
        1
    } else {
        0
    };
    write_small_dynamic(val_u8, bytes, pos, bits, 1)
}

/// Reads a flag from a field of one bit.
pub fn read_bool(bytes: &[u8], pos: &mut usize, bits: &mut u8) -> (res: Result<
    bool,
    DeserializationError,
>)
    requires
        *old(bits) <= 8,
    ensures
        match field_read(bytes@, *old(pos), *old(bits), 1) {
            Ok((v, p, b)) => {
                &&& res == Ok::<bool, DeserializationError>(v != 0)
                &&& *final(pos) == p
                &&& *final(bits) == b
            },
            Err(e) => {
                &&& res is Err
                &&& res->Err_0@ == e
                &&& *final(pos) == *old(pos)
                &&& *final(bits) == *old(bits)
            },
        },
{
    match read_small_dynamic(bytes, pos, bits, 1) {
        Ok(val) => Ok(val != 0),
        Err(e) => Err(e),
    }
}

} // verus!
