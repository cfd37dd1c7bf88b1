//! Variable-length unsigned integers: seven payload bits per byte, the
//! low-order group first, the high bit of a byte set when another follows.

use vstd::prelude::*;
use vstd::slice::slice_subrange;
use vstd::string::StringExecFns;
use crate::config::{ConfigView, SerializerConfig};
use crate::{missing_bytes, read_as, shortfall};
use crate::{DeserializationError, DeserializationErrorView, SerializationError};

verus! {

/// The byte that carries the lowest seven bits of `n`: flagged with the high
/// bit when `n` has more than seven bits.
pub open spec fn dyn_digit(n: nat) -> u8 {
    if n < 128 {
        n as u8
    } else {
        (n % 128 + 128) as u8
    }
}

/// The encoding of `n`. Zero has the empty encoding.
pub open spec fn dyn_encoding(n: nat) -> Seq<u8>
    decreases n,
{
    if n == 0 {
        Seq::empty()
    } else {
        seq![dyn_digit(n)] + dyn_encoding(n / 128)
    }
}

/// The number that the payload bits of `s` spell, low-order group first.
pub open spec fn dyn_value(s: Seq<u8>) -> nat
    decreases s.len(),
{
    if s.len() == 0 {
        0
    } else {
        (s[0] % 128) as nat + 128 * dyn_value(s.drop_first())
    }
}

/// The number of bytes at the start of `s` that are flagged as continued.
pub open spec fn continuation_run(s: Seq<u8>) -> nat
    decreases s.len(),
{
    if s.len() == 0 || s[0] < 128 {
        0
    } else {
        1 + continuation_run(s.drop_first())
    }
}

/// The text of the error for an encoding that spells more than 128 bits.
pub open spec fn too_wide_message() -> Seq<char> {
    "variable-length integer exceeds 128 bits"@
}

/// What reading one number from the start of `s` yields: the number and the
/// count of bytes it occupies.
pub open spec fn dyn_read(s: Seq<u8>) -> Result<(u128, usize), DeserializationErrorView> {
    let run = continuation_run(s) as int;
    if run >= s.len() {
        Err(DeserializationErrorView::NotEnoughBytes(1))
    } else if dyn_value(s.subrange(0, run + 1)) > u128::MAX {
        Err(DeserializationErrorView::InvalidData(too_wide_message()))
    } else {
        Ok((dyn_value(s.subrange(0, run + 1)) as u128, (run + 1) as usize))
    }
}

/// The bytes that a written number occupies: its encoding, and one zero
/// byte for zero, so that every written number can be read back.
pub open spec fn dyn_written(n: nat) -> Seq<u8> {
    if n == 0 {
        seq![0u8]
    } else {
        dyn_encoding(n)
    }
}

/// 128 to the power of `k`.
pub open spec fn pow128(k: nat) -> nat
    decreases k,
{
    if k == 0 {
        1
    } else {
        128 * pow128((k - 1) as nat)
    }
}

/// A number below `128^k` has at most `k` bytes.
pub proof fn lemma_encoding_len(n: nat, k: nat)
    requires
        n < pow128(k),
    ensures
        dyn_encoding(n).len() <= k,
    decreases n,
{
    if n > 0 {
        lemma_encoding_len(n / 128, (k - 1) as nat);
    }
}

/// No 128-bit number takes more than 19 bytes.
pub proof fn lemma_encoding_len_u128(n: u128)
    ensures
        dyn_encoding(n as nat).len() <= 19,
{
    reveal_with_fuel(pow128, 20);
    lemma_encoding_len(n as nat, 19);
}

/// The value of a suffix never exceeds the value of the whole.
pub proof fn lemma_value_suffix(s: Seq<u8>, i: int)
    requires
        0 <= i <= s.len(),
    ensures
        dyn_value(s.subrange(i, s.len() as int)) <= dyn_value(s),
    decreases i,
{
    if i == 0 {
        assert(s.subrange(0, s.len() as int) =~= s);
    } else {
        lemma_value_suffix(s, i - 1);
        let t = s.subrange(i - 1, s.len() as int);
        assert(t.drop_first() =~= s.subrange(i, s.len() as int));
    }
}

/// Decoding inverts encoding.
pub proof fn lemma_value_of_encoding(n: nat)
    ensures
        dyn_value(dyn_encoding(n)) == n,
    decreases n,
{
    if n > 0 {
        lemma_value_of_encoding(n / 128);
        let e = dyn_encoding(n);
        assert(e.drop_first() =~= dyn_encoding(n / 128));
        assert(e[0] == dyn_digit(n));
    }
}

/// In the encoding of a positive number every byte but the last is flagged,
/// whatever follows the encoding.
pub proof fn lemma_run_of_encoding(n: nat, rest: Seq<u8>)
    requires
        n > 0,
    ensures
        continuation_run(dyn_encoding(n) + rest) == dyn_encoding(n).len() - 1,
    decreases n,
{
    let e = dyn_encoding(n);
    let all = e + rest;
    assert(all[0] == dyn_digit(n));
    if n >= 128 {
        lemma_run_of_encoding(n / 128, rest);
        assert(all.drop_first() =~= dyn_encoding(n / 128) + rest);
    } else {
        assert(dyn_encoding(n / 128) =~= Seq::<u8>::empty());
    }
}

/// Gives encoded size in bytes.
pub fn encoded_size(nr: u128) -> (res: usize)
    ensures
        res == dyn_encoding(nr as nat).len(),
{
    let mut res: usize = 0;
    let mut n: u128 = nr;
    proof {
        lemma_encoding_len_u128(nr);
    }
    while n > 0
        invariant
            dyn_encoding(nr as nat).len() == res + dyn_encoding(n as nat).len(),
            dyn_encoding(nr as nat).len() <= 19,
        decreases n,
    {
        n = n / 128;
        res = res + 1;
    }
    res
}

/// Encodes a number into a vector of bytes.
pub fn encode(nr: u128) -> (res: Vec<u8>)
    ensures
        res@ == dyn_encoding(nr as nat),
{
    let mut res: Vec<u8> = Vec::new();
    let mut n: u128 = nr;
    while n > 0
        invariant
            dyn_encoding(nr as nat) == res@ + dyn_encoding(n as nat),
        decreases n,
    {
        let ghost before = res@;
        let ghost m = n as nat;
        let mut encoded: u128 = n % 128;
        n = n / 128;
        if n > 0 {
            encoded = encoded + 128;
        }
        res.push(encoded as u8);
        assert(res@ + dyn_encoding(n as nat) =~= before + dyn_encoding(m));
    }
    assert(res@ + Seq::<u8>::empty() =~= res@);
    res
}

/// Decodes the payload bits of `data`, or returns `None` when they spell
/// more than 128 bits.
pub fn decode_checked(data: &[u8]) -> (res: Option<u128>)
    ensures
        res == (if dyn_value(data@) <= u128::MAX {
            Some(dyn_value(data@) as u128)
        } else {
            None
        }),
{
    let mut num: u128 = 0;
    let mut i: usize = data.len();
    assert(data@.subrange(i as int, data@.len() as int) =~= Seq::<u8>::empty());
    while i > 0
        invariant
            i <= data@.len(),
            num == dyn_value(data@.subrange(i as int, data@.len() as int)),
        decreases i,
    {
        let digit: u128 = (data[i - 1] % 128) as u128;
        proof {
            let t = data@.subrange(i - 1, data@.len() as int);
            assert(t.drop_first() =~= data@.subrange(i as int, data@.len() as int));
            assert(dyn_value(t) == digit + 128 * num);
            lemma_value_suffix(data@, i - 1);
        }
        if num > (u128::MAX - digit) / 128 {
            return None;
        }
        num = num * 128 + digit;
        i = i - 1;
    }
    assert(data@.subrange(0, data@.len() as int) =~= data@);
    Some(num)
}

/// Decodes a number from a slice of bytes: the payload bits of all of
/// `data`, whatever the flags say.
pub fn decode(data: &[u8]) -> (res: u128)
    requires
        dyn_value(data@) <= u128::MAX,
    ensures
        res == dyn_value(data@),
{
    match decode_checked(data) {
        Some(v) => v,
        None => 0,
    }
}

/// Decodes a number from the start of a slice when the size of the encoded
/// number is unknown, returning the number and the number of bytes read.
pub fn read_from_slice(data: &[u8]) -> (res: Result<(u128, usize), DeserializationError>)
    ensures
        read_as(res, dyn_read(data@)),
{
    let mut idx: usize = 0;
    assert(data@.subrange(0, data@.len() as int) =~= data@);
    loop
        invariant
            idx <= data@.len(),
            continuation_run(data@) == idx + continuation_run(
                data@.subrange(idx as int, data@.len() as int),
            ),
        decreases data@.len() - idx,
    {
        if idx >= data.len() {
            return Err(DeserializationError::NotEnoughBytes(1));
        }
        if data[idx] < 128 {
            let head = slice_subrange(data, 0, idx + 1);
            return match decode_checked(head) {
                Some(v) => Ok((v, idx + 1)),
                None => Err(
                    DeserializationError::InvalidData(
                        String::from_str("variable-length integer exceeds 128 bits"),
                    ),
                ),
            };
        }
        assert(data@.subrange(idx as int, data@.len() as int).drop_first() =~= data@.subrange(
            idx + 1,
            data@.len() as int,
        ));
        idx = idx + 1;
    }
}

/// What [`read_dynint`] yields on `bytes` from the cursor `c`: the cursor
/// is aligned first and ends behind the number.
pub open spec fn dynint_read(bytes: Seq<u8>, c: ConfigView) -> Result<
    (u128, ConfigView),
    DeserializationErrorView,
> {
    let a = c.aligned(true);
    if a.pos > bytes.len() {
        Err(DeserializationErrorView::NotEnoughBytes(shortfall(a.pos, 1, bytes.len() as usize)))
    } else {
        match dyn_read(bytes.subrange(a.pos as int, bytes.len() as int)) {
            Ok((v, n)) => Ok((v, ConfigView { pos: (a.pos + n) as usize, ..a })),
            Err(e) => Err(e),
        }
    }
}

/// Reads one variable-length number at the cursor.
pub fn read_dynint(bytes: &[u8], config: &mut SerializerConfig) -> (res: Result<
    u128,
    DeserializationError,
>)
    requires
        old(config).wf(),
    ensures
        final(config).wf(),
        match dynint_read(bytes@, old(config)@) {
            Ok((v, c)) => res == Ok::<u128, DeserializationError>(v) && final(config)@ == c,
            Err(e) => res is Err && res->Err_0@ == e && final(config)@ == old(config)@.aligned(
                true,
            ),
        },
{
    config.reset_bits(true);
    if config.pos > bytes.len() {
        return Err(
            DeserializationError::NotEnoughBytes(missing_bytes(config.pos, 1, bytes.len())),
        );
    }
    let tail = slice_subrange(bytes, config.pos, bytes.len());
    match read_from_slice(tail) {
        Ok((v, n)) => {
            config.pos = config.pos + n;
            Ok(v)
        },
        Err(e) => Err(e),
    }
}

/// Writes one variable-length number at the end of the buffer.
pub fn write_dynint(val: u128, buffer: &mut Vec<u8>, config: &mut SerializerConfig) -> (res:
    Result<(), SerializationError>)
    requires
        old(config)@.can_write(old(buffer)@),
    ensures
        res is Ok,
        final(buffer)@ == old(buffer)@ + dyn_written(val as nat),
        final(config)@ == (ConfigView {
            pos: (old(config)@.pos + dyn_written(val as nat).len()) as usize,
            bits: 0,
            ..old(config)@
        }),
{
    config.reset_bits(false);
    if val == 0 {
        buffer.push(0u8);
        assert(buffer.len() == old(buffer).len() + 1);
        config.pos = config.pos + 1;
        assert(final(buffer)@ =~= old(buffer)@ + dyn_written(0));
    } else {
        let mut encoded = encode(val);
        let n: usize = encoded.len();
        buffer.append(&mut encoded);
        assert(buffer.len() == old(buffer).len() + n);
        config.pos = config.pos + n;
    }
    Ok(())
}

} // verus!
