//! What a reader finds of what a writer has written: the state of a writer
//! that fits its buffer, the state of the reader that follows it, and the
//! buffers that hold what was written up to a state.

use vstd::prelude::*;
use crate::config::ConfigView;
use crate::dyn_int::{
    dyn_read, dyn_value, dyn_written, dynint_read, lemma_encoding_len_u128, lemma_run_of_encoding,
    lemma_value_of_encoding,
};
use crate::dynamics::{
    bits_read, bits_written, highest_unsigned, lemma_shift_pow2, lemma_take_put, mask_of, put_bits,
    take_bits, valid_width,
};
use crate::encodings::{be_bytes, lemma_be_bytes_len, lemma_be_value_of_bytes, pow256};
use crate::fixed_int::{advanced, fixed_read};
use crate::record::published;
use crate::DeserializationErrorView;

verus! {

/// The low `count` bits of `byte`.
pub open spec fn low_bits(byte: u8, count: u8) -> u8 {
    byte & mask_of(0, count)
}

/// The state of a writer fits its buffer: the cursor lies within the
/// buffer, and a byte in progress is the last byte of the buffer.
pub open spec fn steady(buffer: Seq<u8>, c: ConfigView) -> bool {
    &&& c.can_write(buffer)
    &&& c.bits != 0 ==> c.pos + 1 == buffer.len()
}

/// The state of a reader that has read what a writer with the state `c`
/// has written into `buffer`: the same bit offset, the same published
/// values, and the position of the byte in progress or behind the buffer.
pub open spec fn reader_of(buffer: Seq<u8>, c: ConfigView) -> ConfigView {
    ConfigView {
        pos: (if c.bits == 0 {
            buffer.len() as int
        } else {
            buffer.len() - 1
        }) as usize,
        ..c
    }
}

/// The number of bytes of `buffer` that are complete when `bits` bits of
/// its last byte are in use.
pub open spec fn whole_bytes(buffer: Seq<u8>, bits: u8) -> int {
    if 0 < bits < 8 {
        buffer.len() - 1
    } else {
        buffer.len() as int
    }
}

/// `full` holds what has been written into `buffer`: the complete bytes of
/// `buffer`, and the bits in use of its byte in progress.
pub open spec fn agrees(full: Seq<u8>, buffer: Seq<u8>, bits: u8) -> bool {
    &&& buffer.len() <= full.len()
    &&& forall|i: int| 0 <= i < whole_bytes(buffer, bits) ==> full[i] == buffer[i]
    &&& 0 < bits < 8 ==> buffer.len() > 0 && low_bits(full[buffer.len() - 1], bits) == low_bits(
        buffer[buffer.len() - 1],
        bits,
    )
}

/// Bytes that agree in their low bits agree in every field within those
/// bits.
pub proof fn lemma_low_bits_field(x: u8, y: u8, count: u8, at: u8, width: u8)
    by (bit_vector)
    requires
        count < 8,
        1 <= width <= 7,
        at + width <= count,
        low_bits(x, count) == low_bits(y, count),
    ensures
        take_bits(x, at, width) == take_bits(y, at, width),
{
}

/// Bytes that agree in their low bits agree in fewer low bits.
pub proof fn lemma_low_bits_fewer(x: u8, y: u8, count: u8, fewer: u8)
    by (bit_vector)
    requires
        fewer <= count < 8,
        low_bits(x, count) == low_bits(y, count),
    ensures
        low_bits(x, fewer) == low_bits(y, fewer),
{
}

/// Storing a field leaves the bits below it as they were.
pub proof fn lemma_put_keeps_low(byte: u8, bits: u8, bit_count: u8, val: u8)
    by (bit_vector)
    requires
        1 <= bit_count <= 7,
        bits + bit_count <= 8,
    ensures
        low_bits(put_bits(byte, bits, bit_count, val), bits) == low_bits(byte, bits),
{
}

/// A later state of a writer extends an earlier one: what was written
/// before is still there, and the writer has not gone back.
pub open spec fn extends(later: Seq<u8>, bits2: u8, earlier: Seq<u8>, bits1: u8) -> bool {
    &&& agrees(later, earlier, bits1)
    &&& bits1 <= 8
    &&& bits2 <= 8
    &&& later.len() > earlier.len() || bits2 == 0 || bits2 == 8 || 0 < bits1 <= bits2
}

/// What agrees with a later state of a buffer agrees with an earlier one.
pub proof fn lemma_agrees_earlier(
    full: Seq<u8>,
    later: Seq<u8>,
    bits2: u8,
    earlier: Seq<u8>,
    bits1: u8,
)
    requires
        agrees(full, later, bits2),
        extends(later, bits2, earlier, bits1),
    ensures
        agrees(full, earlier, bits1),
{
    if 0 < bits1 < 8 {
        let last = earlier.len() - 1;
        if later.len() > earlier.len() || bits2 == 0 || bits2 == 8 {
            assert(full[last] == later[last]);
        } else {
            lemma_low_bits_fewer(full[last], later[last], bits2, bits1);
        }
    }
}

/// Extension is transitive.
pub proof fn lemma_extends_transitive(
    last: Seq<u8>,
    bits3: u8,
    later: Seq<u8>,
    bits2: u8,
    earlier: Seq<u8>,
    bits1: u8,
)
    requires
        extends(last, bits3, later, bits2),
        extends(later, bits2, earlier, bits1),
    ensures
        extends(last, bits3, earlier, bits1),
{
    lemma_agrees_earlier(last, later, bits2, earlier, bits1);
}

/// A packed field extends the buffer that it is written into.
pub proof fn lemma_bits_extend(buffer: Seq<u8>, c: ConfigView, val: u8, bit_count: u8)
    requires
        steady(buffer, c),
        valid_width(bit_count),
        bits_written(buffer, c, val, bit_count).0.len() <= usize::MAX,
    ensures
        steady(
            bits_written(buffer, c, val, bit_count).0,
            bits_written(buffer, c, val, bit_count).1,
        ),
        extends(
            bits_written(buffer, c, val, bit_count).0,
            bits_written(buffer, c, val, bit_count).1.bits,
            buffer,
            c.bits,
        ),
{
    let (b2, c2) = bits_written(buffer, c, val, bit_count);
    if c.bits == 0 || c.bits + bit_count > 8 {
        assert(b2.len() == buffer.len() + 1);
    } else {
        let at = c.pos as int;
        lemma_put_keeps_low(buffer[at], c.bits, bit_count, val);
        assert(b2[at] == put_bits(buffer[at], c.bits, bit_count, val));
    }
}

/// A packed field that holds a value of its width reads back as that
/// value, whatever is written behind it.
pub proof fn lemma_bits_read_back(
    buffer: Seq<u8>,
    c: ConfigView,
    val: u8,
    bit_count: u8,
    full: Seq<u8>,
)
    requires
        steady(buffer, c),
        valid_width(bit_count),
        val <= highest_unsigned(bit_count),
        agrees(
            full,
            bits_written(buffer, c, val, bit_count).0,
            bits_written(buffer, c, val, bit_count).1.bits,
        ),
        full.len() <= usize::MAX,
    ensures
        bits_read(full, reader_of(buffer, c), bit_count) == Ok::<
            (u8, ConfigView),
            DeserializationErrorView,
        >(
            (
                val,
                reader_of(
                    bits_written(buffer, c, val, bit_count).0,
                    bits_written(buffer, c, val, bit_count).1,
                ),
            ),
        ),
{
    let (b2, c2) = bits_written(buffer, c, val, bit_count);
    let r = reader_of(buffer, c);
    lemma_shift_pow2(bit_count);
    if c.bits == 0 || c.bits + bit_count > 8 {
        let at = buffer.len() as int;
        assert(b2[at] == put_bits(0, 0, bit_count, val));
        lemma_take_put(0, 0, bit_count, val);
        assert(low_bits(full[at], bit_count) == low_bits(b2[at], bit_count));
        assert(take_bits(full[at], 0, bit_count) == take_bits(b2[at], 0, bit_count)) by {
            lemma_low_bits_field(full[at], b2[at], bit_count, 0, bit_count);
        }
    } else {
        let at = c.pos as int;
        assert(b2[at] == put_bits(buffer[at], c.bits, bit_count, val));
        lemma_take_put(buffer[at], c.bits, bit_count, val);
        if c2.bits < 8 {
            lemma_low_bits_field(full[at], b2[at], c2.bits, c.bits, bit_count);
        }
    }
}

/// Bytes that are appended on a byte boundary extend the buffer.
pub proof fn lemma_append_extends(buffer: Seq<u8>, c: ConfigView, data: Seq<u8>)
    requires
        steady(buffer, c),
        buffer.len() + data.len() <= usize::MAX,
    ensures
        steady(buffer + data, advanced(c, data.len() as int)),
        extends(buffer + data, 0, buffer, c.bits),
{
}

/// Bytes that are appended on a byte boundary are the bytes that a reader
/// finds behind its aligned cursor, whatever is written behind them.
pub proof fn lemma_appended_read_back(
    buffer: Seq<u8>,
    c: ConfigView,
    data: Seq<u8>,
    full: Seq<u8>,
)
    requires
        steady(buffer, c),
        agrees(full, buffer + data, 0),
        full.len() <= usize::MAX,
    ensures
        reader_of(buffer, c).aligned(true) == (ConfigView {
            pos: buffer.len() as usize,
            bits: 0,
            ..c
        }),
        full.subrange(buffer.len() as int, (buffer.len() + data.len()) as int) == data,
        reader_of(buffer + data, advanced(c, data.len() as int)) == (ConfigView {
            pos: (buffer.len() + data.len()) as usize,
            bits: 0,
            ..c
        }),
{
    let taken = full.subrange(buffer.len() as int, (buffer.len() + data.len()) as int);
    assert forall|i: int| 0 <= i < data.len() implies taken[i] == data[i] by {
        assert(full[buffer.len() + i] == (buffer + data)[buffer.len() + i]);
    }
    assert(taken =~= data);
}

/// A fixed-width integer reads back, whatever is written behind it.
pub proof fn lemma_fixed_read_back(
    buffer: Seq<u8>,
    c: ConfigView,
    n: nat,
    size: nat,
    full: Seq<u8>,
)
    requires
        steady(buffer, c),
        n < pow256(size),
        agrees(full, buffer + be_bytes(n, size), 0),
        full.len() <= usize::MAX,
    ensures
        fixed_read(full, reader_of(buffer, c), size as usize) == Ok::<
            (nat, ConfigView),
            DeserializationErrorView,
        >((n, reader_of(buffer + be_bytes(n, size), advanced(c, size as int)))),
{
    lemma_be_bytes_len(n, size);
    lemma_be_value_of_bytes(n, size);
    lemma_appended_read_back(buffer, c, be_bytes(n, size), full);
}

/// What reading a written number from the start of a buffer yields: the
/// number and the length of what was written.
pub proof fn lemma_dyn_read_written(n: u128, rest: Seq<u8>)
    ensures
        dyn_read(dyn_written(n as nat) + rest) == Ok::<(u128, usize), DeserializationErrorView>(
            (n, dyn_written(n as nat).len() as usize),
        ),
        1 <= dyn_written(n as nat).len() <= 19,
{
    let written = dyn_written(n as nat);
    let all = written + rest;
    lemma_encoding_len_u128(n);
    if n == 0 {
        assert(all[0] == 0u8);
        assert(all.subrange(0, 1) =~= seq![0u8]);
        assert(seq![0u8].drop_first() =~= Seq::<u8>::empty());
        assert(dyn_value(seq![0u8]) == 0) by {
            reveal_with_fuel(dyn_value, 2);
        }
    } else {
        lemma_run_of_encoding(n as nat, rest);
        lemma_value_of_encoding(n as nat);
        assert(all.subrange(0, written.len() as int) =~= written);
    }
}

/// A variable-length integer reads back, whatever is written behind it.
pub proof fn lemma_dynint_read_back(buffer: Seq<u8>, c: ConfigView, n: u128, full: Seq<u8>)
    requires
        steady(buffer, c),
        agrees(full, buffer + dyn_written(n as nat), 0),
        full.len() <= usize::MAX,
    ensures
        dynint_read(full, reader_of(buffer, c)) == Ok::<
            (u128, ConfigView),
            DeserializationErrorView,
        >(
            (
                n,
                reader_of(
                    buffer + dyn_written(n as nat),
                    advanced(c, dyn_written(n as nat).len() as int),
                ),
            ),
        ),
{
    let written = dyn_written(n as nat);
    lemma_appended_read_back(buffer, c, written, full);
    let start = buffer.len() as int;
    let tail = full.subrange(start, full.len() as int);
    let rest = full.subrange(start + written.len(), full.len() as int);
    assert(tail =~= written + rest) by {
        assert(full.subrange(start, start + written.len()) == written);
        assert forall|i: int| 0 <= i < tail.len() implies tail[i] == (written + rest)[i] by {
            if i < written.len() {
                assert(full.subrange(start, start + written.len())[i] == full[start + i]);
            }
        }
    }
    lemma_dyn_read_written(n, rest);
}

/// A buffer holds what has been written into it.
pub proof fn lemma_agrees_itself(buffer: Seq<u8>, bits: u8)
    requires
        0 < bits < 8 ==> buffer.len() > 0,
    ensures
        agrees(buffer, buffer, bits),
{
}

} // verus!
