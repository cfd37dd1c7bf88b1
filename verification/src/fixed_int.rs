//! Fixed-width big-endian integers, plain or zig-zag mapped, read and
//! written at the cursor of a [`SerializerConfig`].

use vstd::prelude::*;
use vstd::slice::slice_subrange;
use crate::config::{ConfigView, SerializerConfig};
use crate::encodings::{be_bytes, be_value, lemma_be_bytes_len};
use crate::{missing_bytes, shortfall};
use crate::{DeserializationError, DeserializationErrorView, SerializationError};

pub use crate::encodings::{FixedInt, ZigZag};

verus! {

/// What reading `size` bytes on a byte boundary yields: the number that
/// they spell and the cursor behind them.
pub open spec fn fixed_read(bytes: Seq<u8>, c: ConfigView, size: usize) -> Result<
    (nat, ConfigView),
    DeserializationErrorView,
> {
    let a = c.aligned(true);
    if a.pos + size > bytes.len() {
        Err(
            DeserializationErrorView::NotEnoughBytes(
                shortfall(a.pos, size, bytes.len() as usize),
            ),
        )
    } else {
        Ok(
            (
                be_value(bytes.subrange(a.pos as int, a.pos + size)),
                ConfigView { pos: (a.pos + size) as usize, ..a },
            ),
        )
    }
}

/// The cursor after `size` bytes have been appended on a byte boundary.
pub open spec fn advanced(c: ConfigView, size: int) -> ConfigView {
    ConfigView { pos: (c.pos + size) as usize, bits: 0, ..c }
}

/// Appends the `S` bytes of `val` on a byte boundary. Bits of a byte in
/// progress that are still unused stay zero.
pub fn write<T: FixedInt<S>, const S: usize>(
    val: T,
    bytes: &mut Vec<u8>,
    config: &mut SerializerConfig,
) -> (res: Result<(), SerializationError>)
    requires
        old(config)@.can_write(old(bytes)@),
    ensures
        res is Ok,
        final(bytes)@ == old(bytes)@ + be_bytes(val.to_nat(), S as nat),
        final(config)@ == advanced(old(config)@, S as int),
{
    config.reset_bits(false);
    proof {
        lemma_be_bytes_len(val.to_nat(), S as nat);
    }
    let ser = val.serialize();
    bytes.extend_from_slice(ser.as_slice());
    assert(bytes.len() == old(bytes).len() + S);
    config.pos = config.pos + S;
    Ok(())
}

/// Reads `S` bytes on a byte boundary as a number.
pub fn read<T: FixedInt<S>, const S: usize>(bytes: &[u8], config: &mut SerializerConfig) -> (res:
    Result<T, DeserializationError>)
    requires
        old(config).wf(),
    ensures
        final(config).wf(),
        match fixed_read(bytes@, old(config)@, S) {
            Ok((n, c)) => res == Ok::<T, DeserializationError>(T::of_nat(n)) && final(config)@ == c,
            Err(e) => res is Err && res->Err_0@ == e && final(config)@ == old(config)@.aligned(
                true,
            ),
        },
{
    config.reset_bits(true);
    if config.pos > bytes.len() || S > bytes.len() - config.pos {
        return Err(
            DeserializationError::NotEnoughBytes(missing_bytes(config.pos, S, bytes.len())),
        );
    }
    let val = T::deserialize(slice_subrange(bytes, config.pos, config.pos + S));
    config.pos = config.pos + S;
    Ok(val)
}

/// Writes a signed number as the fixed-width form of its zig-zag image.
pub fn write_zigzag<T, const S: usize>(
    val: T,
    bytes: &mut Vec<u8>,
    config: &mut SerializerConfig,
) -> (res: Result<(), SerializationError>) where T: ZigZag, T::Unsigned: FixedInt<S>
    requires
        old(config)@.can_write(old(bytes)@),
    ensures
        res is Ok,
        final(bytes)@ == old(bytes)@ + be_bytes(val.zigzag().to_nat(), S as nat),
        final(config)@ == advanced(old(config)@, S as int),
{
    let encoded = val.to_unsigned();
    write::<T::Unsigned, S>(encoded, bytes, config)
}

/// Reads a signed number from the fixed-width form of its zig-zag image.
pub fn read_zigzag<T, const S: usize>(bytes: &[u8], config: &mut SerializerConfig) -> (res: Result<
    T,
    DeserializationError,
>) where T: ZigZag, T::Unsigned: FixedInt<S>
    requires
        old(config).wf(),
    ensures
        final(config).wf(),
        match fixed_read(bytes@, old(config)@, S) {
            Ok((n, c)) => {
                &&& res == Ok::<T, DeserializationError>(T::unzigzag(T::Unsigned::of_nat(n)))
                &&& final(config)@ == c
            },
            Err(e) => res is Err && res->Err_0@ == e && final(config)@ == old(config)@.aligned(
                true,
            ),
        },
{
    match read::<T::Unsigned, S>(bytes, config) {
        Ok(raw) => Ok(T::to_signed(raw)),
        Err(e) => Err(e),
    }
}

} // verus!
