//! Texts and nested objects: fields whose extent in bytes is declared by an
//! earlier field, prefixed to them, or open to the end of the buffer.

use vstd::prelude::*;
use vstd::slice::slice_to_vec;
use vstd::string::StringExecFns;

use vstd::utf8::{decode_utf8, encode_utf8, encode_utf8_decode_utf8, valid_utf8};
use crate::config::{ConfigView, SerializerConfig};
use crate::utils::{
    ensure_size, get_read_size, key_view, read_size, size_ensured, size_written, slice, sliced,
    write_size,
};
use crate::{BinaryDeserializer, BinarySerializer};
use crate::{
    DeserializationError, DeserializationErrorView, SerializationError, SerializationErrorView,
};

verus! {

/// The text of the error for a text field whose bytes are not UTF-8.
pub open spec fn malformed_text_message() -> Seq<char> {
    "text is not valid UTF-8"@
}

/// `String::from_utf8` of the standard library: the text whose UTF-8
/// encoding is `bytes`, or nothing where `bytes` is not valid UTF-8.
#[verifier::external_body]
fn text_from_utf8(bytes: Vec<u8>) -> (res: Option<String>)
    ensures
        res is Some <==> valid_utf8(bytes@),
        res matches Some(s) ==> encode_utf8(s@) == bytes@,
{
    String::from_utf8(bytes).ok()
}

/// The text that `bytes` hold as UTF-8, if they are valid UTF-8.
pub fn text_of(bytes: &[u8]) -> (res: Option<String>)
    ensures
        res is Some <==> valid_utf8(bytes@),
        res matches Some(s) ==> s@ == decode_utf8(bytes@),
{
    match text_from_utf8(slice_to_vec(bytes)) {
        Some(text) => {
            proof {
                encode_utf8_decode_utf8(text@);
            }
            Some(text)
        },
        None => None,
    }
}

/// What reading a text yields: its count of bytes is found first, then the
/// cursor is aligned and the bytes are taken as UTF-8.
pub open spec fn string_read(bytes: Seq<u8>, size_key: Option<Seq<char>>, c: ConfigView) -> Result<
    (Seq<char>, ConfigView),
    DeserializationErrorView,
> {
    match read_size(bytes, size_key, c) {
        Err(e) => Err(e),
        Ok((len, found)) => match sliced(bytes, found.aligned(true), len, true) {
            Err(e) => Err(e),
            Ok((taken, after)) => if valid_utf8(taken) {
                Ok((decode_utf8(taken), after))
            } else {
                Err(DeserializationErrorView::InvalidData(malformed_text_message()))
            },
        },
    }
}

/// Reads a text.
pub fn read_string(bytes: &[u8], size_key: Option<&str>, config: &mut SerializerConfig) -> (res:
    Result<String, DeserializationError>)
    requires
        old(config).wf(),
    ensures
        final(config).wf(),
        match string_read(bytes@, key_view(size_key), old(config)@) {
            Ok((text, c)) => res is Ok && res->Ok_0@ == text && final(config)@ == c,
            Err(e) => res is Err && res->Err_0@ == e,
        },
{
    let len = match get_read_size(bytes, size_key, config) {
        Ok(len) => len,
        Err(e) => {
            return Err(e);
        },
    };
    config.reset_bits(true);
    let taken = match slice(config, bytes, len, true) {
        Ok(taken) => taken,
        Err(e) => {
            return Err(e);
        },
    };
    match text_of(taken) {
        Some(text) => Ok(text),
        None => Err(DeserializationError::InvalidData(String::from_str("text is not valid UTF-8"))),
    }
}

/// What writing a text does: the byte in progress is closed, the count of
/// bytes is written or checked, and the UTF-8 bytes follow.
pub open spec fn string_written(
    text: Seq<char>,
    size_key: Option<Seq<char>>,
    buffer: Seq<u8>,
    c: ConfigView,
) -> Result<(Seq<u8>, ConfigView), SerializationErrorView> {
    let raw = encode_utf8(text);
    match size_written(raw.len() as usize, size_key, buffer, c.aligned(false)) {
        Err(e) => Err(e),
        Ok((b, sized)) => Ok(
            (b + raw, ConfigView { pos: (sized.pos + raw.len()) as usize, ..sized }),
        ),
    }
}

/// Writes a text.
pub fn write_string(
    value: &str,
    size_key: Option<&str>,
    buffer: &mut Vec<u8>,
    config: &mut SerializerConfig,
) -> (res: Result<(), SerializationError>)
    requires
        old(config)@.can_write(old(buffer)@),
    ensures
        match string_written(value@, key_view(size_key), old(buffer)@, old(config)@) {
            Ok((b, c)) => res is Ok && final(buffer)@ == b && final(config)@ == c,
            Err(e) => {
                &&& res is Err
                &&& res->Err_0@ == e
                &&& final(buffer)@ == old(buffer)@
                &&& final(config)@ == old(config)@.aligned(false)
            },
        },
{
    config.reset_bits(false);
    match write_size(value.len(), size_key, buffer, config) {
        Ok(()) => {},
        Err(e) => {
            return Err(e);
        },
    }
    let ghost sized = buffer@;
    buffer.extend_from_slice(value.as_bytes());
    assert(buffer.len() == sized.len() + value.len());
    config.pos = config.pos + value.len();
    Ok(())
}

/// Where a nested object lies in the buffer that holds it.
#[derive(Debug, Clone, Copy, PartialEq, Eq, Structural)]
pub enum ObjectFrame {
    /// The object reaches to the end of the buffer and is read from the
    /// buffer itself, at the cursor of its container.
    Shared,
    /// The object is read from a buffer of its own: `len` bytes that begin
    /// at `start`. The cursor of its container is behind them already.
    Isolated {
        /// Index of the first byte of the object.
        start: usize,
        /// Number of bytes of the object.
        len: usize,
    },
}

/// How a nested object is framed, and the cursor of its container once that
/// is known. The extent of the object is found as for any variable-length
/// field; an object with a key starts on a byte boundary.
pub open spec fn object_framed(
    bytes: Seq<u8>,
    size_key: Option<Seq<char>>,
    c: ConfigView,
) -> Result<
    (ObjectFrame, ConfigView),
    DeserializationErrorView,
> {
    match read_size(bytes, size_key, c) {
        Err(e) => Err(e),
        Ok((len, found)) => {
            let at = if size_key is Some {
                found.aligned(true)
            } else {
                found
            };
            match size_ensured(at, bytes.len() as int, len) {
                Err(e) => Err(e),
                Ok(exact) => if exact {
                    Ok((ObjectFrame::Shared, at))
                } else {
                    let start = at.aligned(true).pos;
                    Ok(
                        (
                            ObjectFrame::Isolated { start, len },
                            ConfigView {
                                pos: (start + len) as usize,
                                discriminator: None,
                                ..at.aligned(true)
                            },
                        ),
                    )
                },
            }
        },
    }
}

/// Decides how the nested object at the cursor is framed, and moves the
/// cursor behind an object that gets a buffer of its own.
pub fn frame_object(bytes: &[u8], size_key: Option<&str>, config: &mut SerializerConfig) -> (res:
    Result<ObjectFrame, DeserializationError>)
    requires
        old(config).wf(),
    ensures
        final(config).wf(),
        match object_framed(bytes@, key_view(size_key), old(config)@) {
            Ok((frame, c)) => {
                &&& res == Ok::<ObjectFrame, DeserializationError>(frame)
                &&& final(config)@ == c
                &&& frame matches ObjectFrame::Isolated { start, len } ==> start + len
                    <= bytes@.len()
            },
            Err(e) => res is Err && res->Err_0@ == e,
        },
{
    let len = match get_read_size(bytes, size_key, config) {
        Ok(len) => len,
        Err(e) => {
            return Err(e);
        },
    };
    if size_key.is_some() {
        config.reset_bits(true);
    }
    let exact = match ensure_size(config, bytes, len) {
        Ok(exact) => exact,
        Err(e) => {
            return Err(e);
        },
    };
    if exact {
        Ok(ObjectFrame::Shared)
    } else {
        config.reset_bits(true);
        let start = config.pos;
        let total: usize = bytes.len();
        assert(start + len <= total);
        config.pos = start + len;
        config.discriminator = None;
        Ok(ObjectFrame::Isolated { start, len })
    }
}

/// Reads a nested object. One that reaches to the end of the buffer is read
/// from the buffer itself, with the state of its container. Any other is
/// read from its own bytes with a state of its own, which holds nothing but
/// a variant index that the container has set for it.
pub fn read_object<T>(bytes: &[u8], size_key: Option<&str>, config: &mut SerializerConfig) -> (res:
    Result<T, DeserializationError>) where T: BinaryDeserializer
    requires
        old(config).wf(),
    ensures
        object_framed(bytes@, key_view(size_key), old(config)@) matches Err(e) ==> res is Err
            && res->Err_0@ == e,
        object_framed(bytes@, key_view(size_key), old(config)@) matches Ok(
            (ObjectFrame::Isolated { start, len }, c),
        ) ==> final(config)@ == c,
{
    let pending = config.discriminator;
    match frame_object(bytes, size_key, config) {
        Err(e) => Err(e),
        Ok(ObjectFrame::Shared) => T::from_bytes(bytes, Some(config)),
        Ok(ObjectFrame::Isolated { start, len }) => {
            let mut child = config.child_scope();
            child.discriminator = pending;
            let total: usize = bytes.len();
            assert(start + len <= total);
            let own = vstd::slice::slice_subrange(bytes, start, start + len);
            T::from_bytes(own, Some(&mut child))
        },
    }
}

/// What appending the bytes of a nested object does: the count is written
/// or checked, the bytes follow, and the cursor ends behind them.
pub open spec fn object_appended(
    nested: Seq<u8>,
    size_key: Option<Seq<char>>,
    buffer: Seq<u8>,
    c: ConfigView,
) -> Result<(Seq<u8>, ConfigView), SerializationErrorView> {
    match size_written(nested.len() as usize, size_key, buffer, c) {
        Err(e) => Err(e),
        Ok((b, sized)) => Ok(
            (b + nested, ConfigView { pos: (sized.pos + nested.len()) as usize, ..sized }),
        ),
    }
}

/// Appends the bytes of a nested object that was written into a buffer of
/// its own.
pub fn append_object(
    nested: &Vec<u8>,
    size_key: Option<&str>,
    buffer: &mut Vec<u8>,
    config: &mut SerializerConfig,
) -> (res: Result<(), SerializationError>)
    requires
        old(config)@.can_write(old(buffer)@),
        old(config)@.bits == 0,
    ensures
        match object_appended(nested@, key_view(size_key), old(buffer)@, old(config)@) {
            Ok((b, c)) => res is Ok && final(buffer)@ == b && final(config)@ == c && c.can_write(b),
            Err(e) => {
                &&& res is Err
                &&& res->Err_0@ == e
                &&& final(buffer)@ == old(buffer)@
                &&& final(config)@ == old(config)@
            },
        },
{
    match write_size(nested.len(), size_key, buffer, config) {
        Ok(()) => {},
        Err(e) => {
            return Err(e);
        },
    }
    let ghost sized = buffer@;
    buffer.extend_from_slice(nested.as_slice());
    assert(buffer.len() == sized.len() + nested.len());
    config.pos = config.pos + nested.len();
    Ok(())
}

/// The state of a container that is about to append a nested object with a
/// frame of its own: on a byte boundary, and with no variant index pending.
pub open spec fn container_at_object(c: ConfigView) -> ConfigView {
    ConfigView { discriminator: None, ..c.aligned(false) }
}

/// Writes a nested object. With a key, the object starts on a byte boundary
/// and is written into a buffer of its own, with a state of its own that
/// holds nothing but a variant index set for it; its bytes are then appended
/// as [`object_appended`] says. Without a key, the object is written into
/// `buffer` with the state of its container.
pub fn write_object<T>(
    value: &T,
    size_key: Option<&str>,
    buffer: &mut Vec<u8>,
    config: &mut SerializerConfig,
) -> (res: Result<(), SerializationError>) where T: BinarySerializer
    requires
        old(config)@.can_write(old(buffer)@),
    ensures
        size_key is Some && res is Ok ==> exists|nested: Seq<u8>|
            #[trigger] object_appended(
                nested,
                key_view(size_key),
                old(buffer)@,
                container_at_object(old(config)@),
            ) == Ok::<(Seq<u8>, ConfigView), SerializationErrorView>(
                (final(buffer)@, final(config)@),
            ),
        size_key is Some && res is Err ==> final(buffer)@ == old(buffer)@,
{
    if size_key.is_some() {
        let mut temp_buffer: Vec<u8> = Vec::new();
        config.reset_bits(false);
        let mut child = config.child_scope();
        child.discriminator = config.discriminator;
        config.discriminator = None;
        match value.write_bytes(&mut temp_buffer, Some(&mut child)) {
            Ok(()) => {},
            Err(e) => {
                return Err(e);
            },
        }
        append_object(&temp_buffer, size_key, buffer, config)
    } else {
        value.write_bytes(buffer, Some(config))
    }
}

} // verus!
