//! How many bytes or elements a variable-length field has: declared by an
//! earlier field, prefixed to the field, or all that is left.

use vstd::prelude::*;
use vstd::slice::slice_subrange;
use crate::config::{ConfigView, SerializerConfig};
use crate::dyn_int::{dyn_written, dynint_read, read_dynint, write_dynint};
use crate::{missing_bytes, shortfall};
use crate::{
    DeserializationError, DeserializationErrorView, SerializationError, SerializationErrorView,
};

verus! {

/// The key that stands for a length prefixed to the field itself.
pub open spec fn dynamic_key() -> Seq<char> {
    "__dynamic"@
}

/// Whether `key` asks for a length prefixed to the field itself.
pub fn is_dynamic_key(key: &str) -> (res: bool)
    ensures
        res == (key@ == dynamic_key()),
{
    let given = key.to_owned();
    let wanted = "__dynamic".to_owned();
    given == wanted
}

/// The number of bytes between the logical position of the cursor and the
/// end of the buffer.
pub open spec fn remaining(c: ConfigView, len: int) -> int {
    if c.logical_pos() > len {
        0
    } else {
        len - c.logical_pos()
    }
}

/// Counts the bytes that are left behind the cursor.
pub fn bytes_left(config: &SerializerConfig, bytes: &[u8]) -> (res: usize)
    requires
        config.wf(),
    ensures
        res == remaining(config@, bytes@.len() as int),
{
    let at = config.next_reset_bits_pos();
    if at > bytes.len() {
        0
    } else {
        bytes.len() - at
    }
}

/// Whether `required` bytes are left behind the logical position of the
/// cursor, and if so whether they are all that is left.
pub open spec fn size_ensured(c: ConfigView, len: int, required: usize) -> Result<
    bool,
    DeserializationErrorView,
> {
    if c.logical_pos() + required > len {
        Err(
            DeserializationErrorView::NotEnoughBytes(
                shortfall(c.logical_pos() as usize, required, len as usize),
            ),
        )
    } else {
        Ok(c.logical_pos() + required == len)
    }
}

/// Checks that `required` bytes are left behind the cursor. Returns whether
/// they reach the end of the buffer exactly.
pub fn ensure_size(config: &SerializerConfig, bytes: &[u8], required: usize) -> (res: Result<
    bool,
    DeserializationError,
>)
    requires
        config.wf(),
    ensures
        crate::read_as(res, size_ensured(config@, bytes@.len() as int, required)),
{
    let at = config.next_reset_bits_pos();
    if at > bytes.len() || required > bytes.len() - at {
        return Err(DeserializationError::NotEnoughBytes(missing_bytes(at, required, bytes.len())));
    }
    Ok(required == bytes.len() - at)
}

/// What [`slice`] yields: `length` bytes from the position of the cursor,
/// provided that many are left behind its logical position.
pub open spec fn sliced(bytes: Seq<u8>, c: ConfigView, length: usize, increment: bool) -> Result<
    (Seq<u8>, ConfigView),
    DeserializationErrorView,
> {
    match size_ensured(c, bytes.len() as int, length) {
        Err(e) => Err(e),
        Ok(_) => Ok(
            (
                bytes.subrange(c.pos as int, c.pos + length),
                if increment {
                    ConfigView { pos: (c.pos + length) as usize, ..c }
                } else {
                    c
                },
            ),
        ),
    }
}

/// Takes `length` bytes at the cursor, and moves the cursor behind them if
/// `increment` is set.
pub fn slice<'a>(
    config: &mut SerializerConfig,
    bytes: &'a [u8],
    length: usize,
    increment: bool,
) -> (res: Result<&'a [u8], DeserializationError>)
    requires
        old(config).wf(),
    ensures
        final(config).wf(),
        match sliced(bytes@, old(config)@, length, increment) {
            Ok((s, c)) => res is Ok && res->Ok_0@ == s && final(config)@ == c,
            Err(e) => res is Err && res->Err_0@ == e && final(config)@ == old(config)@,
        },
{
    match ensure_size(config, bytes, length) {
        Err(e) => Err(e),
        Ok(_) => {
            let total: usize = bytes.len();
            assert(size_ensured(config@, total as int, length) is Ok);
            assert(config.pos + length <= total);
            let taken = slice_subrange(bytes, config.pos, config.pos + length);
            if increment {
                config.pos = config.pos + length;
            }
            Ok(taken)
        },
    }
}

/// The count that a variable-length field has when it is read, and the
/// cursor behind what was read to learn it: a prefixed count under the
/// dynamic key, else the length declared under the key, else all that is
/// left behind the cursor.
pub open spec fn read_size(bytes: Seq<u8>, size_key: Option<Seq<char>>, c: ConfigView) -> Result<
    (usize, ConfigView),
    DeserializationErrorView,
> {
    if size_key == Some(dynamic_key()) {
        match dynint_read(bytes, c) {
            Ok((v, after)) => Ok((v as usize, after)),
            Err(e) => Err(e),
        }
    } else {
        let size = declared_size(size_key, c, bytes.len() as int);
        match size_ensured(c, bytes.len() as int, size) {
            Ok(_) => Ok((size, c)),
            Err(e) => Err(e),
        }
    }
}

/// The length declared under the key, or all that is left where no key is
/// given or nothing is declared under it.
pub open spec fn declared_size(size_key: Option<Seq<char>>, c: ConfigView, len: int) -> usize {
    match size_key {
        Some(key) => match c.length(key) {
            Some(n) => n,
            None => remaining(c, len) as usize,
        },
        None => remaining(c, len) as usize,
    }
}

/// The view of an optional key.
pub open spec fn key_view(size_key: Option<&str>) -> Option<Seq<char>> {
    match size_key {
        Some(k) => Some(k@),
        None => None,
    }
}

/// Finds the count of a variable-length field that is about to be read.
pub fn get_read_size<'a>(
    bytes: &'a [u8],
    size_key: Option<&str>,
    config: &mut SerializerConfig,
) -> (res: Result<usize, DeserializationError>)
    requires
        old(config).wf(),
    ensures
        final(config).wf(),
        match read_size(bytes@, key_view(size_key), old(config)@) {
            Ok((n, c)) => res == Ok::<usize, DeserializationError>(n) && final(config)@ == c,
            Err(e) => {
                &&& res is Err
                &&& res->Err_0@ == e
                &&& final(config)@ == (if key_view(size_key) == Some(dynamic_key()) {
                    old(config)@.aligned(true)
                } else {
                    old(config)@
                })
            },
        },
{
    let left: usize = bytes_left(config, bytes);
    let size: usize = match size_key {
        Some(key) => {
            if is_dynamic_key(key) {
                return match read_dynint(bytes, config) {
                    Ok(v) => Ok(v as usize),
                    Err(e) => Err(e),
                };
            }
            match config.get_length(key) {
                Some(n) => n,
                None => left,
            }
        },
        None => left,
    };
    match ensure_size(config, bytes, size) {
        Ok(_) => Ok(size),
        Err(e) => Err(e),
    }
}

/// What writing the count of a variable-length field does: a prefix under
/// the dynamic key; under another key nothing, but a count that differs from
/// the length declared under that key is refused.
pub open spec fn size_written(
    size: usize,
    size_key: Option<Seq<char>>,
    buffer: Seq<u8>,
    c: ConfigView,
) -> Result<(Seq<u8>, ConfigView), SerializationErrorView> {
    match size_key {
        Some(key) => {
            if key == dynamic_key() {
                Ok(
                    (
                        buffer + dyn_written(size as nat),
                        ConfigView {
                            pos: (c.pos + dyn_written(size as nat).len()) as usize,
                            bits: 0,
                            ..c
                        },
                    ),
                )
            } else {
                match c.length(key) {
                    Some(expected) => if expected != size {
                        Err(SerializationErrorView::UnexpectedLength(expected, size))
                    } else {
                        Ok((buffer, c))
                    },
                    None => Ok((buffer, c)),
                }
            }
        },
        None => Ok((buffer, c)),
    }
}

/// Writes or checks the count of a variable-length field that is about to
/// be written.
pub fn write_size(
    size: usize,
    size_key: Option<&str>,
    buffer: &mut Vec<u8>,
    config: &mut SerializerConfig,
) -> (res: Result<(), SerializationError>)
    requires
        old(config)@.can_write(old(buffer)@),
    ensures
        match size_written(size, key_view(size_key), old(buffer)@, old(config)@) {
            Ok((b, c)) => res is Ok && final(buffer)@ == b && final(config)@ == c,
            Err(e) => {
                &&& res is Err
                &&& res->Err_0@ == e
                &&& final(buffer)@ == old(buffer)@
                &&& final(config)@ == old(config)@
            },
        },
{
    if let Some(size_key) = size_key {
        if is_dynamic_key(size_key) {
            return write_dynint(size as u128, buffer, config);
        }
        if let Some(expected) = config.get_length(size_key) {
            if expected != size {
                return Err(SerializationError::UnexpectedLength(expected, size));
            }
        }
    }
    Ok(())
}

} // verus!
