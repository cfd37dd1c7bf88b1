//! The record engine: walks the fields of a schema in the order of their
//! declaration, and writes or reads each by its policy.

use vstd::prelude::*;
use vstd::string::StringExecFns;
use crate::config::{ConfigView, SerializerConfig};
use crate::policy::{FieldSchema, Schema};
use crate::record::{published, schema_read, schema_written, Parsed, Written};
use crate::value::{Value, ValueView};
use crate::{
    DeserializationError, DeserializationErrorView, SerializationError, SerializationErrorView,
};

pub mod reader;
pub mod writer;

pub use reader::{read_field, read_schema};
pub use writer::{write_field, write_schema};

verus! {

/// Publishes the value of a field under the names that the field declares.
/// Returns whether the value is of a kind that can be published so.
pub fn publish(field: &FieldSchema, value: &Value, config: &mut SerializerConfig) -> (res: bool)
    ensures
        final(config)@.pos == old(config)@.pos,
        final(config)@.bits == old(config)@.bits,
        final(config)@.discriminator == old(config)@.discriminator,
        match published(*field, value@, old(config)@) {
            Some(c) => res && final(config)@ == c,
            None => !res,
        },
{
    if let Some(name) = &field.toggles {
        match value {
            Value::Bool(b) => {
                config.set_toggle(name.as_str(), *b);
            },
            _ => {
                return false;
            },
        }
    }
    if let Some(name) = &field.length_for {
        match value {
            Value::Unsigned(n) => {
                config.set_length(name.as_str(), *n as usize);
            },
            Value::Signed(x) => {
                config.set_length(name.as_str(), *x as usize);
            },
            _ => {
                return false;
            },
        }
    }
    if let Some(name) = &field.variant_for {
        match value {
            Value::Unsigned(n) => {
                config.set_variant(name.as_str(), *n as u8);
            },
            Value::Signed(x) => {
                config.set_variant(name.as_str(), *x as u8);
            },
            _ => {
                return false;
            },
        }
    }
    true
}

/// The bytes of a record or tagged union that is written into an empty
/// buffer, with a state in which nothing is published.
pub open spec fn encoding(schema: Schema, v: ValueView) -> Result<Seq<u8>, SerializationErrorView> {
    match schema_written(schema, v, Seq::empty(), ConfigView::empty()) {
        Ok((bytes, _)) => Ok(bytes),
        Err(e) => Err(e),
    }
}

/// The record or tagged union that a buffer holds from its start, read
/// with a state in which nothing is published.
pub open spec fn decoding(schema: Schema, bytes: Seq<u8>) -> Result<
    ValueView,
    DeserializationErrorView,
> {
    match schema_read(schema, bytes, ConfigView::empty()) {
        Ok((v, _)) => Ok(v),
        Err(e) => Err(e),
    }
}

/// Encodes a record or a tagged union.
pub fn to_bytes(schema: &Schema, value: &Value) -> (res: Result<Vec<u8>, SerializationError>)
    ensures
        match encoding(*schema, value@) {
            Ok(bytes) => res is Ok && res->Ok_0@ == bytes,
            Err(e) => res is Err && res->Err_0@ == e,
        },
{
    let mut buffer: Vec<u8> = Vec::new();
    let mut config = SerializerConfig::new();
    match write_schema(schema, value, &mut buffer, &mut config) {
        Ok(()) => Ok(buffer),
        Err(e) => Err(e),
    }
}

/// Decodes a record or a tagged union from the start of a buffer.
pub fn from_bytes(schema: &Schema, bytes: &[u8]) -> (res: Result<Value, DeserializationError>)
    ensures
        match decoding(*schema, bytes@) {
            Ok(v) => res is Ok && res->Ok_0@ == v,
            Err(e) => res is Err && res->Err_0@ == e,
        },
{
    let mut config = SerializerConfig::new();
    read_schema(schema, bytes, &mut config)
}

/// A value together with the schema of its type.
pub struct Typed<'a> {
    /// The schema that the value is written with.
    pub schema: &'a Schema,
    /// The value.
    pub value: &'a Value,
}

/// The text of the error for a state whose cursor lies outside the buffer
/// that it is used with.
pub open spec fn stray_cursor_message() -> Seq<char> {
    "cursor of the state lies outside the buffer"@
}

/// The state that is given, as a mathematical value.
pub open spec fn state_view(config: Option<&mut SerializerConfig>) -> Option<ConfigView> {
    match config {
        Some(given) => Some(given@),
        None => None,
    }
}

/// What writing a typed value at the end of `buffer` yields: with a state
/// given, the write goes on from that state, provided that its cursor lies
/// within the buffer; without one, it starts with nothing published and
/// its cursor at the end of the buffer.
pub open spec fn typed_written(
    schema: Schema,
    v: ValueView,
    buffer: Seq<u8>,
    state: Option<ConfigView>,
) -> Written {
    match state {
        Some(c) => if c.can_write(buffer) {
            schema_written(schema, v, buffer, c)
        } else {
            Err(SerializationErrorView::InvalidData(stray_cursor_message()))
        },
        None => schema_written(
            schema,
            v,
            buffer,
            ConfigView { pos: buffer.len() as usize, ..ConfigView::empty() },
        ),
    }
}

/// Finds out whether a writer can go on from the state with this buffer.
pub fn writable(config: &SerializerConfig, buffer: &Vec<u8>) -> (res: bool)
    ensures
        res == config@.can_write(buffer@),
{
    if config.bits > 8 {
        false
    } else if config.bits == 0 {
        config.pos <= buffer.len()
    } else {
        config.pos < buffer.len()
    }
}

impl<'a> crate::BinarySerializer for Typed<'a> {
    fn to_bytes(&self, config: Option<&mut SerializerConfig>) -> (res: Result<
        Vec<u8>,
        SerializationError,
    >)
        ensures
            match typed_written(*self.schema, self.value@, Seq::empty(), state_view(config)) {
                Ok((bytes, c)) => res is Ok && res->Ok_0@ == bytes,
                Err(e) => res is Err && res->Err_0@ == e,
            },
    {
        let mut bytes: Vec<u8> = Vec::new();
        match self.write_bytes(&mut bytes, config) {
            Ok(()) => Ok(bytes),
            Err(e) => Err(e),
        }
    }

    fn write_bytes(&self, buffer: &mut Vec<u8>, config: Option<&mut SerializerConfig>) -> (res:
        Result<(), SerializationError>)
        ensures
            match typed_written(*self.schema, self.value@, old(buffer)@, state_view(config)) {
                Ok((bytes, c)) => {
                    &&& res is Ok
                    &&& final(buffer)@ == bytes
                    &&& config matches Some(given) ==> final(given)@ == c
                },
                Err(e) => res is Err && res->Err_0@ == e,
            },
    {
        match config {
            Some(given) => {
                if writable(given, buffer) {
                    write_schema(self.schema, self.value, buffer, given)
                } else {
                    Err(
                        SerializationError::InvalidData(
                            String::from_str("cursor of the state lies outside the buffer"),
                        ),
                    )
                }
            },
            None => {
                let mut fresh = SerializerConfig::new();
                fresh.pos = buffer.len();
                write_schema(self.schema, self.value, buffer, &mut fresh)
            },
        }
    }
}

/// The text of the error for a state whose bit offset is more than a byte.
pub open spec fn stray_offset_message() -> Seq<char> {
    "bit offset of the state is more than a byte"@
}

/// What reading a typed value from `bytes` yields: with a state given, the
/// read starts at the cursor of that state, provided that the state is
/// well formed; without one, it starts at the start of the buffer with
/// nothing published.
pub open spec fn typed_read(schema: Schema, bytes: Seq<u8>, state: Option<ConfigView>) -> Parsed<
    ValueView,
> {
    match state {
        Some(c) => if c.wf() {
            schema_read(schema, bytes, c)
        } else {
            Err(DeserializationErrorView::InvalidData(stray_offset_message()))
        },
        None => schema_read(schema, bytes, ConfigView::empty()),
    }
}

/// Reads a record or a tagged union with the state given, or with a fresh
/// one.
pub fn read_typed(schema: &Schema, bytes: &[u8], config: Option<&mut SerializerConfig>) -> (res:
    Result<Value, DeserializationError>)
    ensures
        match typed_read(*schema, bytes@, state_view(config)) {
            Ok((v, c)) => {
                &&& res is Ok
                &&& res->Ok_0@ == v
                &&& config matches Some(given) ==> final(given)@ == c
            },
            Err(e) => res is Err && res->Err_0@ == e,
        },
{
    match config {
        Some(given) => {
            if given.bits <= 8 && (given.bits == 0 || given.pos < usize::MAX) {
                read_schema(schema, bytes, given)
            } else {
                Err(
                    DeserializationError::InvalidData(
                        String::from_str("bit offset of the state is more than a byte"),
                    ),
                )
            }
        },
        None => {
            let mut fresh = SerializerConfig::new();
            read_schema(schema, bytes, &mut fresh)
        },
    }
}

} // verus!
