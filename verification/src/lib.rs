//! A schema-driven binary codec: compact, byte-exact wire encodings for
//! structured records, with sub-byte bit packing, variable-length integers
//! and fields whose presence or length depends on sibling fields.
//!
//! - [`config`] holds the state of one encode or decode: the cursor over
//!   the buffer and the values that fields publish for later fields.
//! - [`dyn_int`], [`dynamics`], [`fixed_int`] and [`variable`] are the
//!   codecs of the single kinds of field, with [`utils`] for the counts of
//!   variable-length fields. [`encodings`] and [`serializers`] offer fixed
//!   integers and packed fields over a position and a bit offset that the
//!   caller holds.
//! - [`syntax`] reads what a declaration says, [`policy`] resolves it to
//!   the policy of each field, and [`engine`] writes and reads the
//!   [`value`]s of records by those policies.
//! - [`record`] says what the bytes of a record are and what record a
//!   buffer holds; the functions of [`engine`] are proved to compute just
//!   that. [`laws`] proves that the two directions fit together.

use vstd::prelude::*;

pub mod config;
pub mod dyn_int;
pub mod dynamics;
pub mod encodings;
pub mod engine;
pub mod fixed_int;
pub mod laws;
pub mod policy;
pub mod record;
pub mod serializers;
pub mod syntax;
pub mod utils;
pub mod value;
pub mod variable;

pub use config::SerializerConfig;

verus! {

/// Why a value could not be written.
#[derive(Debug, PartialEq, Eq)]
pub enum SerializationError {
    /// Value is out of bounds (value, min, max).
    ValueOutOfBounds(i32, i32, i32),
    /// Unexpected size (expected, actual).
    UnexpectedLength(usize, usize),
    /// Missing runtime length key.
    MissingLengthByKey(String),
    /// The value does not fit the schema it is written with.
    InvalidData(String),
}

/// Why a buffer could not be read.
#[derive(Debug, PartialEq, Eq)]
pub enum DeserializationError {
    /// Not enough bytes (bytes missing).
    NotEnoughBytes(usize),
    /// Unexpected size (expected, actual).
    UnexpectedLength(usize, usize),
    /// Unknown enum discriminator.
    UnknownDiscriminant(u8),
    /// Missing runtime length key.
    MissingLengthByKey(String),
    /// The bytes do not form a value of the schema they are read with.
    InvalidData(String),
}

/// A value that can be written in the wire format.
pub trait BinarySerializer {
    /// The bytes of the value. With a state given, fields see what earlier
    /// records have published in it; without one, a fresh state is used.
    fn to_bytes(&self, config: Option<&mut SerializerConfig>) -> Result<
        Vec<u8>,
        SerializationError,
    >;

    /// Appends the bytes of the value to `buffer`.
    fn write_bytes(&self, buffer: &mut Vec<u8>, config: Option<&mut SerializerConfig>) -> Result<
        (),
        SerializationError,
    >;
}

/// A value that can be read from the wire format.
pub trait BinaryDeserializer: Sized {
    /// Reads a value from `bytes`, starting at the cursor of the state
    /// given, or at the start of the buffer without one.
    fn from_bytes(bytes: &[u8], config: Option<&mut SerializerConfig>) -> Result<
        Self,
        DeserializationError,
    >;
}

/// A [`SerializationError`] as a mathematical value: texts become sequences
/// of characters.
pub enum SerializationErrorView {
    /// See [`SerializationError::ValueOutOfBounds`].
    ValueOutOfBounds(i32, i32, i32),
    /// See [`SerializationError::UnexpectedLength`].
    UnexpectedLength(usize, usize),
    /// See [`SerializationError::MissingLengthByKey`].
    MissingLengthByKey(Seq<char>),
    /// See [`SerializationError::InvalidData`].
    InvalidData(Seq<char>),
}

impl View for SerializationError {
    type V = SerializationErrorView;

    open spec fn view(&self) -> SerializationErrorView {
        match *self {
            SerializationError::ValueOutOfBounds(v, lo, hi) =>
                SerializationErrorView::ValueOutOfBounds(v, lo, hi),
            SerializationError::UnexpectedLength(e, a) =>
                SerializationErrorView::UnexpectedLength(e, a),
            SerializationError::MissingLengthByKey(k) =>
                SerializationErrorView::MissingLengthByKey(k@),
            SerializationError::InvalidData(m) => SerializationErrorView::InvalidData(m@),
        }
    }
}

/// A [`DeserializationError`] as a mathematical value: texts become
/// sequences of characters.
pub enum DeserializationErrorView {
    /// See [`DeserializationError::NotEnoughBytes`].
    NotEnoughBytes(usize),
    /// See [`DeserializationError::UnexpectedLength`].
    UnexpectedLength(usize, usize),
    /// See [`DeserializationError::UnknownDiscriminant`].
    UnknownDiscriminant(u8),
    /// See [`DeserializationError::MissingLengthByKey`].
    MissingLengthByKey(Seq<char>),
    /// See [`DeserializationError::InvalidData`].
    InvalidData(Seq<char>),
}

impl View for DeserializationError {
    type V = DeserializationErrorView;

    open spec fn view(&self) -> DeserializationErrorView {
        match *self {
            DeserializationError::NotEnoughBytes(n) => DeserializationErrorView::NotEnoughBytes(n),
            DeserializationError::UnexpectedLength(e, a) =>
                DeserializationErrorView::UnexpectedLength(e, a),
            DeserializationError::UnknownDiscriminant(d) =>
                DeserializationErrorView::UnknownDiscriminant(d),
            DeserializationError::MissingLengthByKey(k) =>
                DeserializationErrorView::MissingLengthByKey(k@),
            DeserializationError::InvalidData(m) => DeserializationErrorView::InvalidData(m@),
        }
    }
}

/// The outcome of a read is the outcome that is expected of it: the same
/// value, or an error with the same view.
pub open spec fn read_as<T>(
    res: Result<T, DeserializationError>,
    expected: Result<T, DeserializationErrorView>,
) -> bool {
    match (res, expected) {
        (Ok(a), Ok(b)) => a == b,
        (Err(e), Err(f)) => e@ == f,
        _ => false,
    }
}

/// The number of bytes by which a buffer of `len` bytes falls short of
/// `required` bytes starting at `pos`, capped at the largest `usize`.
pub open spec fn shortfall(pos: usize, required: usize, len: usize) -> usize {
    if pos + required - len > usize::MAX {
        usize::MAX
    } else if pos + required - len < 0 {
        0usize
    } else {
        (pos + required - len) as usize
    }
}

/// Computes [`shortfall`] without overflow.
pub fn missing_bytes(pos: usize, required: usize, len: usize) -> (res: usize)
    ensures
        res == shortfall(pos, required, len),
{
    if pos >= len {
        let over: usize = pos - len;
        if required > usize::MAX - over {
            usize::MAX
        } else {
            over + required
        }
    } else {
        let room: usize = len - pos;
        if required > room {
            required - room
        } else {
            0
        }
    }
}

} // verus!
