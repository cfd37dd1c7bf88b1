//! Fixed-width big-endian integers and the zig-zag mapping of signed
//! integers onto unsigned ones, over a position and a bit offset that the
//! caller holds.

use vstd::prelude::*;
use vstd::slice::slice_subrange;
use crate::{missing_bytes, shortfall};
use crate::{DeserializationError, DeserializationErrorView, SerializationError};

verus! {

/// The big-endian representation of `x` in `n` bytes: the low byte of `x`
/// comes last.
pub open spec fn be_bytes(x: nat, n: nat) -> Seq<u8>
    decreases n,
{
    if n == 0 {
        Seq::empty()
    } else {
        be_bytes(x / 256, (n - 1) as nat).push((x % 256) as u8)
    }
}

/// The number that `s` spells when read as big-endian bytes.
pub open spec fn be_value(s: Seq<u8>) -> nat
    decreases s.len(),
{
    if s.len() == 0 {
        0
    } else {
        256 * be_value(s.drop_last()) + s.last() as nat
    }
}

/// 256 to the power of `k`.
pub open spec fn pow256(k: nat) -> nat
    decreases k,
{
    if k == 0 {
        1
    } else {
        256 * pow256((k - 1) as nat)
    }
}

/// The big-endian representation has the width that was asked for.
pub proof fn lemma_be_bytes_len(x: nat, n: nat)
    ensures
        be_bytes(x, n).len() == n,
    decreases n,
{
    if n > 0 {
        lemma_be_bytes_len(x / 256, (n - 1) as nat);
    }
}

/// Reading back the big-endian representation of a number that fits its
/// width gives the number.
pub proof fn lemma_be_value_of_bytes(x: nat, n: nat)
    requires
        x < pow256(n),
    ensures
        be_value(be_bytes(x, n)) == x,
    decreases n,
{
    if n > 0 {
        lemma_be_value_of_bytes(x / 256, (n - 1) as nat);
        lemma_be_bytes_len(x / 256, (n - 1) as nat);
        let s = be_bytes(x, n);
        assert(s.drop_last() =~= be_bytes(x / 256, (n - 1) as nat));
    }
}

/// What `n` bytes spell is below 256 to the power of `n`.
pub proof fn lemma_be_value_bound(s: Seq<u8>)
    ensures
        be_value(s) < pow256(s.len()),
    decreases s.len(),
{
    if s.len() > 0 {
        lemma_be_value_bound(s.drop_last());
    }
}

/// The state of a reader's position and bit offset after it has skipped the
/// rest of a byte in progress: positions here count the bytes that have been
/// started, so only a reader that has not moved yet steps forward.
pub open spec fn aligned_pos(pos: usize, bits: u8) -> int {
    if bits != 0 && pos == 0 {
        1
    } else {
        pos as int
    }
}

/// An unsigned integer with a big-endian representation of exactly `S` bytes.
pub trait FixedInt<const S: usize>: Sized {
    /// The number as a mathematical integer.
    spec fn to_nat(self) -> nat;

    /// The value of this type for a number below 256 to the power of `S`.
    spec fn of_nat(n: nat) -> Self;

    /// The `S` bytes of the number, most significant first.
    fn serialize(self) -> (res: [u8; S])
        ensures
            res@ == be_bytes(self.to_nat(), S as nat),
    ;

    /// The number that `S` bytes spell, most significant first.
    fn deserialize(bytes: &[u8]) -> (res: Self)
        requires
            bytes@.len() == S,
        ensures
            res == Self::of_nat(be_value(bytes@)),
    ;

    /// Appends the number to `bytes` on a byte boundary.
    fn write(self, bytes: &mut Vec<u8>, pos: &mut usize, bits: &mut u8) -> (res: Result<
        (),
        SerializationError,
    >)
        requires
            *old(pos) <= old(bytes)@.len(),
        ensures
            res is Ok,
            final(bytes)@ == old(bytes)@ + be_bytes(self.to_nat(), S as nat),
            *final(pos) == *old(pos) + S,
            *final(bits) == 0,
    {
        *bits = 0;
        let ser = self.serialize();
        bytes.extend_from_slice(ser.as_slice());
        proof {
            lemma_be_bytes_len(self.to_nat(), S as nat);
        }
        assert(bytes.len() == old(bytes).len() + S);
        *pos = *pos + S;
        Ok(())
    }

    /// Reads a number from `bytes` on a byte boundary.
    fn read(bytes: &[u8], pos: &mut usize, bits: &mut u8) -> (res: Result<
        Self,
        DeserializationError,
    >)
        ensures
            *final(bits) == 0,
            aligned_pos(*old(pos), *old(bits)) + S <= bytes@.len() ==> {
                let at = aligned_pos(*old(pos), *old(bits));
                &&& res == Ok::<Self, DeserializationError>(
                    Self::of_nat(be_value(bytes@.subrange(at, at + S))),
                )
                &&& *final(pos) == at + S
            },
            aligned_pos(*old(pos), *old(bits)) + S > bytes@.len() ==> {
                let at = aligned_pos(*old(pos), *old(bits));
                &&& res is Err
                &&& res->Err_0@ == DeserializationErrorView::NotEnoughBytes(
                    shortfall(at as usize, S, bytes@.len() as usize),
                )
                &&& *final(pos) == at
            },
    {
        if *bits != 0 && *pos == 0 {
            *pos = 1;
        }
        *bits = 0;
        if *pos > bytes.len() || S > bytes.len() - *pos {
            return Err(DeserializationError::NotEnoughBytes(missing_bytes(*pos, S, bytes.len())));
        }
        let val = Self::deserialize(slice_subrange(bytes, *pos, *pos + S));
        *pos = *pos + S;
        Ok(val)
    }
}

impl FixedInt<1> for u8 {
    open spec fn to_nat(self) -> nat {
        self as nat
    }

    open spec fn of_nat(n: nat) -> u8 {
        n as u8
    }

    fn serialize(self) -> (res: [u8; 1]) {
        let res = [self];
        proof {
            reveal_with_fuel(be_bytes, 2);
            assert(res@ =~= be_bytes(self as nat, 1));
        }
        res
    }

    fn deserialize(bytes: &[u8]) -> (res: u8) {
        proof {
            reveal_with_fuel(be_value, 2);
        }
        bytes[0]
    }
}

impl FixedInt<2> for u16 {
    open spec fn to_nat(self) -> nat {
        self as nat
    }

    open spec fn of_nat(n: nat) -> u16 {
        n as u16
    }

    fn serialize(self) -> (res: [u8; 2]) {
        let b1: u8 = (self % 256) as u8;
        let b0: u8 = (self / 256) as u8;
        let res = [b0, b1];
        proof {
            reveal_with_fuel(be_bytes, 3);
            assert(res@ =~= be_bytes(self as nat, 2));
        }
        res
    }

    fn deserialize(bytes: &[u8]) -> (res: u16) {
        let v0: u16 = bytes[0] as u16;
        let v1: u16 = v0 * 256 + bytes[1] as u16;
        proof {
            lemma_be_prefix(bytes@, 1);
            lemma_be_prefix(bytes@, 2);
            assert(bytes@.subrange(0, 2) =~= bytes@);
        }
        v1
    }
}

impl FixedInt<4> for u32 {
    open spec fn to_nat(self) -> nat {
        self as nat
    }

    open spec fn of_nat(n: nat) -> u32 {
        n as u32
    }

    fn serialize(self) -> (res: [u8; 4]) {
        let b3: u8 = (self % 256) as u8;
        let x3: u32 = self / 256;
        let b2: u8 = (x3 % 256) as u8;
        let x2: u32 = x3 / 256;
        let b1: u8 = (x2 % 256) as u8;
        let x1: u32 = x2 / 256;
        let b0: u8 = (x1 % 256) as u8;
        let res = [b0, b1, b2, b3];
        proof {
            reveal_with_fuel(be_bytes, 5);
            assert(res@ =~= be_bytes(self as nat, 4));
        }
        res
    }

    fn deserialize(bytes: &[u8]) -> (res: u32) {
        proof {
            lemma_be_prefix(bytes@, 1);
            lemma_be_prefix(bytes@, 2);
            lemma_be_prefix(bytes@, 3);
            lemma_be_prefix(bytes@, 4);
            assert(bytes@.subrange(0, 4) =~= bytes@);
        }
        let v0: u32 = bytes[0] as u32;
        let v1: u32 = v0 * 256 + bytes[1] as u32;
        let v2: u32 = v1 * 256 + bytes[2] as u32;
        let v3: u32 = v2 * 256 + bytes[3] as u32;
        v3
    }
}

impl FixedInt<8> for u64 {
    open spec fn to_nat(self) -> nat {
        self as nat
    }

    open spec fn of_nat(n: nat) -> u64 {
        n as u64
    }

    fn serialize(self) -> (res: [u8; 8]) {
        let b7: u8 = (self % 256) as u8;
        let x7: u64 = self / 256;
        let b6: u8 = (x7 % 256) as u8;
        let x6: u64 = x7 / 256;
        let b5: u8 = (x6 % 256) as u8;
        let x5: u64 = x6 / 256;
        let b4: u8 = (x5 % 256) as u8;
        let x4: u64 = x5 / 256;
        let b3: u8 = (x4 % 256) as u8;
        let x3: u64 = x4 / 256;
        let b2: u8 = (x3 % 256) as u8;
        let x2: u64 = x3 / 256;
        let b1: u8 = (x2 % 256) as u8;
        let x1: u64 = x2 / 256;
        let b0: u8 = (x1 % 256) as u8;
        let res = [b0, b1, b2, b3, b4, b5, b6, b7];
        proof {
            reveal_with_fuel(be_bytes, 9);
            assert(res@ =~= be_bytes(self as nat, 8));
        }
        res
    }

    fn deserialize(bytes: &[u8]) -> (res: u64) {
        proof {
            lemma_be_prefix(bytes@, 1);
            lemma_be_prefix(bytes@, 2);
            lemma_be_prefix(bytes@, 3);
            lemma_be_prefix(bytes@, 4);
            lemma_be_prefix(bytes@, 5);
            lemma_be_prefix(bytes@, 6);
            lemma_be_prefix(bytes@, 7);
            lemma_be_prefix(bytes@, 8);
            assert(bytes@.subrange(0, 8) =~= bytes@);
        }
        let v0: u64 = bytes[0] as u64;
        let v1: u64 = v0 * 256 + bytes[1] as u64;
        let v2: u64 = v1 * 256 + bytes[2] as u64;
        let v3: u64 = v2 * 256 + bytes[3] as u64;
        let v4: u64 = v3 * 256 + bytes[4] as u64;
        let v5: u64 = v4 * 256 + bytes[5] as u64;
        let v6: u64 = v5 * 256 + bytes[6] as u64;
        let v7: u64 = v6 * 256 + bytes[7] as u64;
        v7
    }
}

impl FixedInt<16> for u128 {
    open spec fn to_nat(self) -> nat {
        self as nat
    }

    open spec fn of_nat(n: nat) -> u128 {
        n as u128
    }

    fn serialize(self) -> (res: [u8; 16]) {
        let b15: u8 = (self % 256) as u8;
        let x15: u128 = self / 256;
        let b14: u8 = (x15 % 256) as u8;
        let x14: u128 = x15 / 256;
        let b13: u8 = (x14 % 256) as u8;
        let x13: u128 = x14 / 256;
        let b12: u8 = (x13 % 256) as u8;
        let x12: u128 = x13 / 256;
        let b11: u8 = (x12 % 256) as u8;
        let x11: u128 = x12 / 256;
        let b10: u8 = (x11 % 256) as u8;
        let x10: u128 = x11 / 256;
        let b9: u8 = (x10 % 256) as u8;
        let x9: u128 = x10 / 256;
        let b8: u8 = (x9 % 256) as u8;
        let x8: u128 = x9 / 256;
        let b7: u8 = (x8 % 256) as u8;
        let x7: u128 = x8 / 256;
        let b6: u8 = (x7 % 256) as u8;
        let x6: u128 = x7 / 256;
        let b5: u8 = (x6 % 256) as u8;
        let x5: u128 = x6 / 256;
        let b4: u8 = (x5 % 256) as u8;
        let x4: u128 = x5 / 256;
        let b3: u8 = (x4 % 256) as u8;
        let x3: u128 = x4 / 256;
        let b2: u8 = (x3 % 256) as u8;
        let x2: u128 = x3 / 256;
        let b1: u8 = (x2 % 256) as u8;
        let x1: u128 = x2 / 256;
        let b0: u8 = (x1 % 256) as u8;
        let res = [b0, b1, b2, b3, b4, b5, b6, b7, b8, b9, b10, b11, b12, b13, b14, b15];
        proof {
            reveal_with_fuel(be_bytes, 17);
            assert(res@ =~= be_bytes(self as nat, 16));
        }
        res
    }

    fn deserialize(bytes: &[u8]) -> (res: u128) {
        proof {
            lemma_be_prefix(bytes@, 1);
            lemma_be_prefix(bytes@, 2);
            lemma_be_prefix(bytes@, 3);
            lemma_be_prefix(bytes@, 4);
            lemma_be_prefix(bytes@, 5);
            lemma_be_prefix(bytes@, 6);
            lemma_be_prefix(bytes@, 7);
            lemma_be_prefix(bytes@, 8);
            lemma_be_prefix(bytes@, 9);
            lemma_be_prefix(bytes@, 10);
            lemma_be_prefix(bytes@, 11);
            lemma_be_prefix(bytes@, 12);
            lemma_be_prefix(bytes@, 13);
            lemma_be_prefix(bytes@, 14);
            lemma_be_prefix(bytes@, 15);
            lemma_be_prefix(bytes@, 16);
            assert(bytes@.subrange(0, 16) =~= bytes@);
        }
        let v0: u128 = bytes[0] as u128;
        let v1: u128 = v0 * 256 + bytes[1] as u128;
        let v2: u128 = v1 * 256 + bytes[2] as u128;
        let v3: u128 = v2 * 256 + bytes[3] as u128;
        let v4: u128 = v3 * 256 + bytes[4] as u128;
        let v5: u128 = v4 * 256 + bytes[5] as u128;
        let v6: u128 = v5 * 256 + bytes[6] as u128;
        let v7: u128 = v6 * 256 + bytes[7] as u128;
        let v8: u128 = v7 * 256 + bytes[8] as u128;
        let v9: u128 = v8 * 256 + bytes[9] as u128;
        let v10: u128 = v9 * 256 + bytes[10] as u128;
        let v11: u128 = v10 * 256 + bytes[11] as u128;
        let v12: u128 = v11 * 256 + bytes[12] as u128;
        let v13: u128 = v12 * 256 + bytes[13] as u128;
        let v14: u128 = v13 * 256 + bytes[14] as u128;
        let v15: u128 = v14 * 256 + bytes[15] as u128;
        v15
    }
}

/// The zig-zag image of `x`: non-negative numbers go to the even numbers,
/// negative ones to the odd numbers, small magnitudes first.
pub open spec fn zigzag_of(x: int) -> nat {
    if x >= 0 {
        (2 * x) as nat
    } else {
        (-2 * x - 1) as nat
    }
}

/// The number whose zig-zag image is `n`.
pub open spec fn zigzag_inverse(n: nat) -> int {
    if n % 2 == 0 {
        (n / 2) as int
    } else {
        -((n + 1) / 2)
    }
}

/// The zig-zag mapping is a bijection between the integers and the natural
/// numbers.
pub proof fn lemma_zigzag_bijection(x: int, n: nat)
    ensures
        zigzag_inverse(zigzag_of(x)) == x,
        zigzag_of(zigzag_inverse(n)) == n,
{
}

/// A signed integer that maps onto the unsigned integer of the same width.
pub trait ZigZag: Sized {
    /// The unsigned type of the same width.
    type Unsigned;

    /// The zig-zag image of the number.
    spec fn zigzag(self) -> Self::Unsigned;

    /// The number with the zig-zag image `n`.
    spec fn unzigzag(n: Self::Unsigned) -> Self;

    /// Maps the number to `(x << 1) ^ (x >> (width - 1))`.
    fn to_unsigned(self) -> (res: Self::Unsigned)
        ensures
            res == self.zigzag(),
    ;

    /// Inverts [`ZigZag::to_unsigned`]: the low bit of `n` carries the sign.
    fn to_signed(n: Self::Unsigned) -> (res: Self)
        ensures
            res == Self::unzigzag(n),
    ;
}

impl ZigZag for i8 {
    type Unsigned = u8;

    open spec fn zigzag(self) -> u8 {
        zigzag_of(self as int) as u8
    }

    open spec fn unzigzag(n: u8) -> i8 {
        zigzag_inverse(n as nat) as i8
    }

    fn to_unsigned(self) -> (res: u8) {
        let x = self;
        assert(((x << 1) ^ (x >> 7)) as u8 == (if x >= 0 {
            2 * x
        } else {
            -2 * x - 1
        }) as u8) by (bit_vector);
        ((self << 1) ^ (self >> 7)) as u8
    }

    fn to_signed(n: u8) -> (res: i8) {
        assert({
            let low = (n & 1) as i8;
            &&& (low == 0 || low == 1)
            &&& (((n >> 1) as i8) ^ ((0 - low) as i8)) == (if n % 2 == 0 {
                (n / 2) as int
            } else {
                -((n + 1) / 2)
            }) as i8
        }) by (bit_vector);
        let low: i8 = (n & 1) as i8;
        let sign: i8 = -low;
        ((n >> 1) as i8) ^ sign
    }
}

impl ZigZag for i16 {
    type Unsigned = u16;

    open spec fn zigzag(self) -> u16 {
        zigzag_of(self as int) as u16
    }

    open spec fn unzigzag(n: u16) -> i16 {
        zigzag_inverse(n as nat) as i16
    }

    fn to_unsigned(self) -> (res: u16) {
        let x = self;
        assert(((x << 1) ^ (x >> 15)) as u16 == (if x >= 0 {
            2 * x
        } else {
            -2 * x - 1
        }) as u16) by (bit_vector);
        ((self << 1) ^ (self >> 15)) as u16
    }

    fn to_signed(n: u16) -> (res: i16) {
        assert({
            let low = (n & 1) as i16;
            &&& (low == 0 || low == 1)
            &&& (((n >> 1) as i16) ^ ((0 - low) as i16)) == (if n % 2 == 0 {
                (n / 2) as int
            } else {
                -((n + 1) / 2)
            }) as i16
        }) by (bit_vector);
        let low: i16 = (n & 1) as i16;
        let sign: i16 = -low;
        ((n >> 1) as i16) ^ sign
    }
}

impl ZigZag for i32 {
    type Unsigned = u32;

    open spec fn zigzag(self) -> u32 {
        zigzag_of(self as int) as u32
    }

    open spec fn unzigzag(n: u32) -> i32 {
        zigzag_inverse(n as nat) as i32
    }

    fn to_unsigned(self) -> (res: u32) {
        let x = self;
        assert(((x << 1) ^ (x >> 31)) as u32 == (if x >= 0 {
            2 * x
        } else {
            -2 * x - 1
        }) as u32) by (bit_vector);
        ((self << 1) ^ (self >> 31)) as u32
    }

    fn to_signed(n: u32) -> (res: i32) {
        assert({
            let low = (n & 1) as i32;
            &&& (low == 0 || low == 1)
            &&& (((n >> 1) as i32) ^ ((0 - low) as i32)) == (if n % 2 == 0 {
                (n / 2) as int
            } else {
                -((n + 1) / 2)
            }) as i32
        }) by (bit_vector);
        let low: i32 = (n & 1) as i32;
        let sign: i32 = -low;
        ((n >> 1) as i32) ^ sign
    }
}

impl ZigZag for i64 {
    type Unsigned = u64;

    open spec fn zigzag(self) -> u64 {
        zigzag_of(self as int) as u64
    }

    open spec fn unzigzag(n: u64) -> i64 {
        zigzag_inverse(n as nat) as i64
    }

    fn to_unsigned(self) -> (res: u64) {
        let x = self;
        assert(((x << 1) ^ (x >> 63)) as u64 == (if x >= 0 {
            2 * x
        } else {
            -2 * x - 1
        }) as u64) by (bit_vector);
        ((self << 1) ^ (self >> 63)) as u64
    }

    fn to_signed(n: u64) -> (res: i64) {
        assert({
            let low = (n & 1) as i64;
            &&& (low == 0 || low == 1)
            &&& (((n >> 1) as i64) ^ ((0 - low) as i64)) == (if n % 2 == 0 {
                (n / 2) as int
            } else {
                -((n + 1) / 2)
            }) as i64
        }) by (bit_vector);
        let low: i64 = (n & 1) as i64;
        let sign: i64 = -low;
        ((n >> 1) as i64) ^ sign
    }
}

impl ZigZag for i128 {
    type Unsigned = u128;

    open spec fn zigzag(self) -> u128 {
        zigzag_of(self as int) as u128
    }

    open spec fn unzigzag(n: u128) -> i128 {
        zigzag_inverse(n as nat) as i128
    }

    fn to_unsigned(self) -> (res: u128) {
        let x = self;
        assert(((x << 1) ^ (x >> 127)) as u128 == (if x >= 0 {
            2 * x
        } else {
            -2 * x - 1
        }) as u128) by (bit_vector);
        ((self << 1) ^ (self >> 127)) as u128
    }

    fn to_signed(n: u128) -> (res: i128) {
        assert({
            let low = (n & 1) as i128;
            &&& (low == 0 || low == 1)
            &&& (((n >> 1) as i128) ^ ((0 - low) as i128)) == (if n % 2 == 0 {
                (n / 2) as int
            } else {
                -((n + 1) / 2)
            }) as i128
        }) by (bit_vector);
        let low: i128 = (n & 1) as i128;
        let sign: i128 = -low;
        ((n >> 1) as i128) ^ sign
    }
}

/// The zig-zag mapping loses nothing at any width: mapping back what a
/// number is mapped to gives the number, and every unsigned number is the
/// image of the number that it is mapped back to.
pub proof fn lemma_zigzag_lossless(a: i8, b: i16, c: i32, d: i64, e: i128)
    ensures
        i8::unzigzag(a.zigzag()) == a,
        i16::unzigzag(b.zigzag()) == b,
        i32::unzigzag(c.zigzag()) == c,
        i64::unzigzag(d.zigzag()) == d,
        i128::unzigzag(e.zigzag()) == e,
{
}

/// Mapping an unsigned number back and forth gives the number, at any
/// width.
pub proof fn lemma_unzigzag_lossless(a: u8, b: u16, c: u32, d: u64, e: u128)
    ensures
        i8::unzigzag(a).zigzag() == a,
        i16::unzigzag(b).zigzag() == b,
        i32::unzigzag(c).zigzag() == c,
        i64::unzigzag(d).zigzag() == d,
        i128::unzigzag(e).zigzag() == e,
{
}

/// Writes a signed number as the fixed-width big-endian form of its zig-zag
/// image.
pub fn write_zigzag<T, const S: usize>(
    val: T,
    bytes: &mut Vec<u8>,
    pos: &mut usize,
    bits: &mut u8,
) -> (res: Result<(), SerializationError>) where T: ZigZag, T::Unsigned: FixedInt<S>
    requires
        *old(pos) <= old(bytes)@.len(),
    ensures
        res is Ok,
        final(bytes)@ == old(bytes)@ + be_bytes(val.zigzag().to_nat(), S as nat),
        *final(pos) == *old(pos) + S,
        *final(bits) == 0,
{
    let encoded = val.to_unsigned();
    encoded.write(bytes, pos, bits)
}

/// Reads a signed number from the fixed-width big-endian form of its zig-zag
/// image.
pub fn read_zigzag<T, const S: usize>(bytes: &[u8], pos: &mut usize, bits: &mut u8) -> (res:
    Result<T, DeserializationError>) where T: ZigZag, T::Unsigned: FixedInt<S>
    ensures
        *final(bits) == 0,
        aligned_pos(*old(pos), *old(bits)) + S <= bytes@.len() ==> {
            let at = aligned_pos(*old(pos), *old(bits));
            &&& res == Ok::<T, DeserializationError>(
                T::unzigzag(T::Unsigned::of_nat(be_value(bytes@.subrange(at, at + S)))),
            )
            &&& *final(pos) == at + S
        },
        aligned_pos(*old(pos), *old(bits)) + S > bytes@.len() ==> {
            let at = aligned_pos(*old(pos), *old(bits));
            &&& res is Err
            &&& res->Err_0@ == DeserializationErrorView::NotEnoughBytes(
                shortfall(at as usize, S, bytes@.len() as usize),
            )
            &&& *final(pos) == at
        },
{
    match T::Unsigned::read(bytes, pos, bits) {
        Ok(raw) => Ok(T::to_signed(raw)),
        Err(e) => Err(e),
    }
}

/// The value of the first `k` bytes in terms of the value of the first
/// `k - 1`.
pub proof fn lemma_be_prefix(s: Seq<u8>, k: int)
    requires
        1 <= k <= s.len(),
    ensures
        be_value(s.subrange(0, k)) == 256 * be_value(s.subrange(0, k - 1)) + s[k - 1],
        be_value(s.subrange(0, 0)) == 0,
{
    assert(s.subrange(0, k).drop_last() =~= s.subrange(0, k - 1));
}

} // verus!
