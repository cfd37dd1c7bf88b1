//! What the bytes of a record are, and what record a buffer holds: the
//! wire format as functions from values to bytes and back.

use vstd::prelude::*;
use vstd::utf8::{decode_utf8, encode_utf8, valid_utf8};
use crate::config::ConfigView;
use crate::dyn_int::{dyn_written, dynint_read};
use crate::dynamics::{bits_read, bits_written, highest_signed, highest_unsigned, lowest_signed};
use crate::encodings::{be_bytes, zigzag_inverse, zigzag_of, ZigZag};
use crate::fixed_int::{advanced, fixed_read};
use crate::policy::{ByteWidth, FieldPolicy, FieldSchema, Gate, IntKind, LengthStrategy, Schema};
use crate::utils::{read_size, size_written, sliced};
use crate::variable::malformed_text_message;
use crate::value::ValueView;
use crate::{DeserializationErrorView, SerializationErrorView};

verus! {

/// The buffer and the state after a write, or the reason why nothing
/// more is written.
pub type Written = Result<(Seq<u8>, ConfigView), SerializationErrorView>;

/// The text of the error for a value that does not have the shape or the
/// range that its schema declares.
pub open spec fn mismatch_message() -> Seq<char> {
    "value does not match its schema"@
}

/// The text of the error for an optional field whose flag is set and whose
/// value is absent.
pub open spec fn missing_value_message() -> Seq<char> {
    "toggled field has no value"@
}

/// The text of the error for a tagged union without a discriminant byte
/// for which no variant index is pending.
pub open spec fn missing_variant_message() -> Seq<char> {
    "no variant index is set for a union without discriminant"@
}

/// The text of the error for an open sequence whose elements take no bits.
pub open spec fn stuck_message() -> Seq<char> {
    "element of an open sequence takes no space"@
}

/// The error of a value that does not match its schema, on write.
pub open spec fn write_mismatch() -> SerializationErrorView {
    SerializationErrorView::InvalidData(mismatch_message())
}

/// The error of a value that does not match its schema, on read.
pub open spec fn read_mismatch() -> DeserializationErrorView {
    DeserializationErrorView::InvalidData(mismatch_message())
}

/// Whether `n` is a value of the unsigned type of this width.
pub open spec fn unsigned_fits(n: u128, width: ByteWidth) -> bool {
    n < width.limit()
}

/// Whether `x` is a value of the signed type of this width.
pub open spec fn signed_fits(x: i128, width: ByteWidth) -> bool {
    -(width.limit() / 2) <= x < width.limit() / 2
}

/// The state with nothing published, at the cursor of `c` and with the
/// variant index that is pending in `c`.
pub open spec fn unpublished(c: ConfigView) -> ConfigView {
    ConfigView { toggles: Map::empty(), lengths: Map::empty(), variants: Map::empty(), ..c }
}

/// The state with what `outer` has published, at the cursor of `c` and with
/// the variant index that is pending in `c`.
pub open spec fn republished(outer: ConfigView, c: ConfigView) -> ConfigView {
    ConfigView { toggles: outer.toggles, lengths: outer.lengths, variants: outer.variants, ..c }
}

/// The state of a nested object that has a buffer of its own: nothing
/// published, the cursor at zero, and the variant index that is pending in
/// its container.
pub open spec fn isolated(c: ConfigView) -> ConfigView {
    ConfigView { discriminator: c.discriminator, ..ConfigView::empty() }
}

/// The state in which the variant index published under `source`, if a
/// source is named, is pending.
pub open spec fn with_variant(source: Option<String>, c: ConfigView) -> ConfigView {
    match source {
        Some(name) => ConfigView { discriminator: c.variant(name@), ..c },
        None => c,
    }
}

/// The state once `value` has been published under the names that `field`
/// declares, or nothing where a flag is asked of a value that is none, or a
/// number of a value that is none.
pub open spec fn published(field: FieldSchema, value: ValueView, c: ConfigView) -> Option<
    ConfigView,
> {
    let toggled = match field.toggles {
        None => Some(c),
        Some(name) => match value {
            ValueView::Bool(b) => Some(ConfigView { toggles: c.toggles.insert(name@, b), ..c }),
            _ => None,
        },
    };
    let measured = match (toggled, field.length_for) {
        (None, _) => None,
        (Some(c1), None) => Some(c1),
        (Some(c1), Some(name)) => match value {
            ValueView::Unsigned(n) => Some(
                ConfigView { lengths: c1.lengths.insert(name@, n as usize), ..c1 },
            ),
            ValueView::Signed(x) => Some(
                ConfigView { lengths: c1.lengths.insert(name@, x as usize), ..c1 },
            ),
            _ => None,
        },
    };
    match (measured, field.variant_for) {
        (None, _) => None,
        (Some(c2), None) => Some(c2),
        (Some(c2), Some(name)) => match value {
            ValueView::Unsigned(n) => Some(
                ConfigView { variants: c2.variants.insert(name@, n as u8), ..c2 },
            ),
            ValueView::Signed(x) => Some(
                ConfigView { variants: c2.variants.insert(name@, x as u8), ..c2 },
            ),
            _ => None,
        },
    }
}

/// What writing the count of a variable-length field does: nothing for a
/// count that is part of the type, but another count is refused; else as
/// [`size_written`] says.
pub open spec fn count_written(
    length: LengthStrategy,
    count: usize,
    buffer: Seq<u8>,
    c: ConfigView,
) -> Written {
    match length {
        LengthStrategy::Fixed(n) => if n != count {
            Err(SerializationErrorView::UnexpectedLength(n, count))
        } else {
            Ok((buffer, c))
        },
        _ => size_written(count, length.key(), buffer, c),
    }
}

/// The count of a variable-length field that is about to be read: the
/// count that is part of the type, else as [`read_size`] says.
pub open spec fn count_read(length: LengthStrategy, bytes: Seq<u8>, c: ConfigView) -> Result<
    (usize, ConfigView),
    DeserializationErrorView,
> {
    match length {
        LengthStrategy::Fixed(n) => Ok((n, c)),
        _ => read_size(bytes, length.key(), c),
    }
}

/// Whether a field with this strategy ends where its buffer ends.
pub open spec fn open_ended(length: LengthStrategy) -> bool {
    length is UntilExhausted
}

/// The bytes of an integer that is written at variable length.
pub open spec fn dynint_written(n: nat, buffer: Seq<u8>, c: ConfigView) -> Written {
    Ok((buffer + dyn_written(n), advanced(c, dyn_written(n).len() as int)))
}

/// The bytes of an integer that is written at fixed width.
pub open spec fn fixed_written(
    n: nat,
    width: ByteWidth,
    buffer: Seq<u8>,
    c: ConfigView,
) -> Written {
    Ok((buffer + be_bytes(n, width.bytes()), advanced(c, width.bytes() as int)))
}

/// The bytes of a text: the byte in progress is closed, the count of the
/// UTF-8 bytes is written or checked, and the bytes follow.
pub open spec fn text_written(
    text: Seq<char>,
    length: LengthStrategy,
    buffer: Seq<u8>,
    c: ConfigView,
) -> Written {
    let raw = encode_utf8(text);
    match count_written(length, raw.len() as usize, buffer, c.aligned(false)) {
        Err(e) => Err(e),
        Ok((b, sized)) => Ok(
            (b + raw, ConfigView { pos: (sized.pos + raw.len()) as usize, ..sized }),
        ),
    }
}

/// The buffer and the state once the value `v` of a field with the policy
/// `p` has been written.
pub open spec fn field_written(
    p: FieldPolicy,
    v: ValueView,
    buffer: Seq<u8>,
    c: ConfigView,
) -> Written
    decreases p, 1nat, 0nat,
{
    match p {
        FieldPolicy::Bool => match v {
            ValueView::Bool(b) => Ok(
                bits_written(
                    buffer,
                    c,
                    if b {
                        1u8
                    } else {
                        0u8
                    },
                    1,
                ),
            ),
            _ => Err(write_mismatch()),
        },
        FieldPolicy::PackedBits { bits, signed } => if signed {
            match v {
                ValueView::Signed(x) => if !(i8::MIN <= x <= i8::MAX) {
                    Err(write_mismatch())
                } else if !(lowest_signed(bits.bits()) <= x <= highest_signed(bits.bits())) {
                    Err(
                        SerializationErrorView::ValueOutOfBounds(
                            x as i32,
                            lowest_signed(bits.bits()) as i32,
                            highest_signed(bits.bits()) as i32,
                        ),
                    )
                } else {
                    Ok(bits_written(buffer, c, (x as i8).zigzag(), bits.bits()))
                },
                _ => Err(write_mismatch()),
            }
        } else {
            match v {
                ValueView::Unsigned(n) => if n > u8::MAX {
                    Err(write_mismatch())
                } else if n > highest_unsigned(bits.bits()) {
                    Err(
                        SerializationErrorView::ValueOutOfBounds(
                            n as i32,
                            0,
                            highest_unsigned(bits.bits()) as i32,
                        ),
                    )
                } else {
                    Ok(bits_written(buffer, c, n as u8, bits.bits()))
                },
                _ => Err(write_mismatch()),
            }
        },
        FieldPolicy::FixedInt { width } => match v {
            ValueView::Unsigned(n) => if unsigned_fits(n, width) {
                fixed_written(n as nat, width, buffer, c)
            } else {
                Err(write_mismatch())
            },
            _ => Err(write_mismatch()),
        },
        FieldPolicy::ZigZag { width } => match v {
            ValueView::Signed(x) => if signed_fits(x, width) {
                fixed_written(zigzag_of(x as int), width, buffer, c)
            } else {
                Err(write_mismatch())
            },
            _ => Err(write_mismatch()),
        },
        FieldPolicy::DynInt { kind } => if kind.signed() {
            match v {
                ValueView::Signed(x) => if signed_fits(x, kind.width()) {
                    dynint_written(zigzag_of(x as int), buffer, c)
                } else {
                    Err(write_mismatch())
                },
                _ => Err(write_mismatch()),
            }
        } else {
            match v {
                ValueView::Unsigned(n) => if unsigned_fits(n, kind.width()) {
                    dynint_written(n as nat, buffer, c)
                } else {
                    Err(write_mismatch())
                },
                _ => Err(write_mismatch()),
            }
        },
        FieldPolicy::VariableBytes { length } => match v {
            ValueView::Text(text) => text_written(text, length, buffer, c),
            _ => Err(write_mismatch()),
        },
        FieldPolicy::Sequence { element, length } => match v {
            ValueView::Sequence(items) => match count_written(
                length,
                items.len() as usize,
                buffer,
                c,
            ) {
                Err(e) => Err(e),
                Ok((b, counted)) => items_written(*element, items, 0, b, counted),
            },
            _ => Err(write_mismatch()),
        },
        FieldPolicy::Mapping { key, value, length } => match v {
            ValueView::Mapping(entries) => match count_written(
                length,
                entries.len() as usize,
                buffer,
                c,
            ) {
                Err(e) => Err(e),
                Ok((b, counted)) => entries_written(p, entries, 0, b, counted),
            },
            _ => Err(write_mismatch()),
        },
        FieldPolicy::NestedObject { schema, variant_source, length } => {
            let chosen = with_variant(variant_source, c);
            if open_ended(length) {
                match schema_written(*schema, v, buffer, unpublished(chosen)) {
                    Err(e) => Err(e),
                    Ok((b, after)) => Ok((b, republished(c, after))),
                }
            } else {
                match schema_written(*schema, v, Seq::empty(), isolated(chosen)) {
                    Err(e) => Err(e),
                    Ok((nested, _)) => match count_written(
                        length,
                        nested.len() as usize,
                        buffer,
                        ConfigView { discriminator: None, ..chosen.aligned(false) },
                    ) {
                        Err(e) => Err(e),
                        Ok((b, sized)) => Ok(
                            (
                                b + nested,
                                ConfigView { pos: (sized.pos + nested.len()) as usize, ..sized },
                            ),
                        ),
                    },
                }
            }
        },
        FieldPolicy::Optional { inner, gate } => match v {
            ValueView::Optional(held) => match gate {
                Gate::Toggle(name) => if c.toggle(name@) == Some(true) {
                    match held {
                        Some(x) => field_written(*inner, *x, buffer, c),
                        None => Err(SerializationErrorView::InvalidData(missing_value_message())),
                    }
                } else {
                    Ok((buffer, c))
                },
                Gate::SpaceAvailable => match held {
                    Some(x) => field_written(*inner, *x, buffer, c),
                    None => Ok((buffer, c)),
                },
            },
            _ => Err(write_mismatch()),
        },
    }
}

/// The buffer and the state once the items from index `i` on have been
/// written, one after the other.
pub open spec fn items_written(
    element: FieldPolicy,
    items: Seq<ValueView>,
    i: int,
    buffer: Seq<u8>,
    c: ConfigView,
) -> Written
    decreases element, 2nat, items.len() - i,
{
    if i < 0 || i >= items.len() {
        Ok((buffer, c))
    } else {
        match field_written(element, items[i], buffer, c) {
            Err(e) => Err(e),
            Ok((b, after)) => items_written(element, items, i + 1, b, after),
        }
    }
}

/// The buffer and the state once the entries of a mapping with the policy
/// `p` have been written from index `i` on: each key, then its value.
pub open spec fn entries_written(
    p: FieldPolicy,
    entries: Seq<(ValueView, ValueView)>,
    i: int,
    buffer: Seq<u8>,
    c: ConfigView,
) -> Written
    decreases p, 0nat, entries.len() - i,
{
    match p {
        FieldPolicy::Mapping { key, value, length } => if i < 0 || i >= entries.len() {
            Ok((buffer, c))
        } else {
            match field_written(*key, entries[i].0, buffer, c) {
                Err(e) => Err(e),
                Ok((b, keyed)) => match field_written(*value, entries[i].1, b, keyed) {
                    Err(e) => Err(e),
                    Ok((b2, after)) => entries_written(p, entries, i + 1, b2, after),
                },
            }
        },
        _ => Ok((buffer, c)),
    }
}

/// The buffer and the state once the fields from index `i` on have been
/// written. Each value is published before it is written.
pub open spec fn fields_written(
    fields: Seq<FieldSchema>,
    values: Seq<ValueView>,
    i: int,
    buffer: Seq<u8>,
    c: ConfigView,
) -> Written
    decreases fields, 2nat, fields.len() - i,
{
    if i < 0 || i >= fields.len() {
        Ok((buffer, c))
    } else {
        match published(fields[i], values[i], c) {
            None => Err(write_mismatch()),
            Some(told) => match field_written(fields[i].policy, values[i], buffer, told) {
                Err(e) => Err(e),
                Ok((b, after)) => fields_written(fields, values, i + 1, b, after),
            },
        }
    }
}

/// The buffer and the state once a record or a tagged union has been
/// written. A union takes a pending variant index off the state, and
/// writes its own as one byte unless its schema leaves that byte out.
pub open spec fn schema_written(
    schema: Schema,
    v: ValueView,
    buffer: Seq<u8>,
    c: ConfigView,
) -> Written
    decreases schema, 1nat, 0nat,
{
    match schema {
        Schema::Record { fields } => match v {
            ValueView::Record(values) => if values.len() != fields@.len() {
                Err(write_mismatch())
            } else {
                fields_written(fields@, values, 0, buffer, c)
            },
            _ => Err(write_mismatch()),
        },
        Schema::Union { variants, no_discriminator } => match v {
            ValueView::Union(variant, values) => if variant >= variants@.len() {
                Err(write_mismatch())
            } else if values.len() != variants@[variant as int]@.len() {
                Err(write_mismatch())
            } else {
                let taken = ConfigView { discriminator: None, ..c };
                if no_discriminator {
                    fields_written(variants@[variant as int]@, values, 0, buffer, taken)
                } else {
                    fields_written(
                        variants@[variant as int]@,
                        values,
                        0,
                        buffer.push(variant),
                        advanced(taken, 1),
                    )
                }
            },
            _ => Err(write_mismatch()),
        },
    }
}

/// The value that a read yields and the state behind it, or the reason
/// why the read fails.
pub type Parsed<T> = Result<(T, ConfigView), DeserializationErrorView>;

/// The number of bits in front of the cursor.
pub open spec fn bit_position(c: ConfigView) -> int {
    8 * c.pos + c.bits
}

/// A number that falls whenever the cursor moves on, and that does not
/// reach zero while the cursor lies within a buffer of `len` bytes.
pub open spec fn room(c: ConfigView, len: int) -> nat {
    if 8 * len + 256 > bit_position(c) {
        (8 * len + 256 - bit_position(c)) as nat
    } else {
        0
    }
}

/// `head`, followed by what a read of the rest yields.
pub open spec fn prepended<T>(head: Seq<T>, rest: Parsed<Seq<T>>) -> Parsed<Seq<T>> {
    match rest {
        Ok((tail, c)) => Ok((head + tail, c)),
        Err(e) => Err(e),
    }
}

/// The number that a variable-length integer holds for a field of the
/// declared type `kind`: what was read, narrowed to the width of the type.
pub open spec fn narrowed(read: u128, kind: IntKind) -> ValueView {
    let n = (read as nat) % kind.width().limit();
    if kind.signed() {
        ValueView::Signed(zigzag_inverse(n) as i128)
    } else {
        ValueView::Unsigned(n as u128)
    }
}

/// The text that a buffer holds at the cursor: its count of bytes is found
/// first, then the cursor is aligned and the bytes are taken as UTF-8.
pub open spec fn text_read(length: LengthStrategy, bytes: Seq<u8>, c: ConfigView) -> Parsed<
    ValueView,
> {
    match count_read(length, bytes, c) {
        Err(e) => Err(e),
        Ok((len, found)) => match sliced(bytes, found.aligned(true), len, true) {
            Err(e) => Err(e),
            Ok((taken, after)) => if valid_utf8(taken) {
                Ok((ValueView::Text(decode_utf8(taken)), after))
            } else {
                Err(DeserializationErrorView::InvalidData(malformed_text_message()))
            },
        },
    }
}

/// The value of a field with the policy `p` that a buffer holds at the
/// cursor, and the state behind it.
pub open spec fn field_read(p: FieldPolicy, bytes: Seq<u8>, c: ConfigView) -> Parsed<ValueView>
    decreases p, 1nat, 0nat,
{
    match p {
        FieldPolicy::Bool => match bits_read(bytes, c, 1) {
            Err(e) => Err(e),
            Ok((v, after)) => Ok((ValueView::Bool(v != 0), after)),
        },
        FieldPolicy::PackedBits { bits, signed } => match bits_read(bytes, c, bits.bits()) {
            Err(e) => Err(e),
            Ok((v, after)) => if signed {
                Ok((ValueView::Signed(i8::unzigzag(v) as i128), after))
            } else {
                Ok((ValueView::Unsigned(v as u128), after))
            },
        },
        FieldPolicy::FixedInt { width } => match fixed_read(bytes, c, width.bytes() as usize) {
            Err(e) => Err(e),
            Ok((n, after)) => Ok((ValueView::Unsigned(n as u128), after)),
        },
        FieldPolicy::ZigZag { width } => match fixed_read(bytes, c, width.bytes() as usize) {
            Err(e) => Err(e),
            Ok((n, after)) => Ok((ValueView::Signed(zigzag_inverse(n) as i128), after)),
        },
        FieldPolicy::DynInt { kind } => match dynint_read(bytes, c) {
            Err(e) => Err(e),
            Ok((n, after)) => Ok((narrowed(n, kind), after)),
        },
        FieldPolicy::VariableBytes { length } => text_read(length, bytes, c),
        FieldPolicy::Sequence { element, length } => if open_ended(length) {
            match items_read_open(*element, bytes, c) {
                Err(e) => Err(e),
                Ok((items, after)) => Ok((ValueView::Sequence(items), after)),
            }
        } else {
            match count_read(length, bytes, c) {
                Err(e) => Err(e),
                Ok((count, counted)) => match items_read(*element, bytes, counted, count as nat) {
                    Err(e) => Err(e),
                    Ok((items, after)) => Ok((ValueView::Sequence(items), after)),
                },
            }
        },
        FieldPolicy::Mapping { key, value, length } => if open_ended(length) {
            match entries_read_open(p, bytes, c) {
                Err(e) => Err(e),
                Ok((entries, after)) => Ok((ValueView::Mapping(entries), after)),
            }
        } else {
            match count_read(length, bytes, c) {
                Err(e) => Err(e),
                Ok((count, counted)) => match entries_read(p, bytes, counted, count as nat) {
                    Err(e) => Err(e),
                    Ok((entries, after)) => Ok((ValueView::Mapping(entries), after)),
                },
            }
        },
        FieldPolicy::NestedObject { schema, variant_source, length } => {
            let chosen = with_variant(variant_source, c);
            match count_read(length, bytes, chosen) {
                Err(e) => Err(e),
                Ok((len, found)) => if open_ended(length) {
                    match schema_read(*schema, bytes, unpublished(found)) {
                        Err(e) => Err(e),
                        Ok((v, after)) => Ok((v, republished(c, after))),
                    }
                } else {
                    match sliced(bytes, found.aligned(true), len, true) {
                        Err(e) => Err(e),
                        Ok((own, moved)) => match schema_read(*schema, own, isolated(chosen)) {
                            Err(e) => Err(e),
                            Ok((v, _)) => Ok((v, ConfigView { discriminator: None, ..moved })),
                        },
                    }
                },
            }
        },
        FieldPolicy::Optional { inner, gate } => {
            let present = match gate {
                Gate::Toggle(name) => c.toggle(name@) == Some(true),
                Gate::SpaceAvailable => c.logical_pos() < bytes.len(),
            };
            if present {
                match field_read(*inner, bytes, c) {
                    Err(e) => Err(e),
                    Ok((v, after)) => Ok((ValueView::Optional(Some(Box::new(v))), after)),
                }
            } else {
                Ok((ValueView::Optional(None), c))
            }
        },
    }
}

/// The next `count` items that a buffer holds at the cursor.
pub open spec fn items_read(
    element: FieldPolicy,
    bytes: Seq<u8>,
    c: ConfigView,
    count: nat,
) -> Parsed<Seq<ValueView>>
    decreases element, 2nat, count,
{
    if count == 0 {
        Ok((Seq::empty(), c))
    } else {
        match field_read(element, bytes, c) {
            Err(e) => Err(e),
            Ok((v, after)) => prepended(
                seq![v],
                items_read(element, bytes, after, (count - 1) as nat),
            ),
        }
    }
}

/// The items that a buffer holds from the cursor to its end: items are
/// read while bytes are left behind the logical position of the cursor. An
/// item that takes no bits ends the read with an error.
pub open spec fn items_read_open(element: FieldPolicy, bytes: Seq<u8>, c: ConfigView) -> Parsed<
    Seq<ValueView>,
>
    decreases element, 2nat, room(c, bytes.len() as int),
{
    if c.logical_pos() >= bytes.len() {
        Ok((Seq::empty(), c))
    } else {
        match field_read(element, bytes, c) {
            Err(e) => Err(e),
            Ok((v, after)) => if bit_position(after) <= bit_position(c) {
                Err(DeserializationErrorView::InvalidData(stuck_message()))
            } else {
                prepended(seq![v], items_read_open(element, bytes, after))
            },
        }
    }
}

/// The next `count` entries of a mapping with the policy `p` that a buffer
/// holds at the cursor.
pub open spec fn entries_read(p: FieldPolicy, bytes: Seq<u8>, c: ConfigView, count: nat) -> Parsed<
    Seq<(ValueView, ValueView)>,
>
    decreases p, 0nat, count,
{
    match p {
        FieldPolicy::Mapping { key, value, length } => if count == 0 {
            Ok((Seq::empty(), c))
        } else {
            match field_read(*key, bytes, c) {
                Err(e) => Err(e),
                Ok((k, keyed)) => match field_read(*value, bytes, keyed) {
                    Err(e) => Err(e),
                    Ok((v, after)) => prepended(
                        seq![(k, v)],
                        entries_read(p, bytes, after, (count - 1) as nat),
                    ),
                },
            }
        },
        _ => Ok((Seq::empty(), c)),
    }
}

/// The entries of a mapping with the policy `p` that a buffer holds from
/// the cursor to its end.
pub open spec fn entries_read_open(p: FieldPolicy, bytes: Seq<u8>, c: ConfigView) -> Parsed<
    Seq<(ValueView, ValueView)>,
>
    decreases p, 0nat, room(c, bytes.len() as int),
{
    match p {
        FieldPolicy::Mapping { key, value, length } => if c.logical_pos() >= bytes.len() {
            Ok((Seq::empty(), c))
        } else {
            match field_read(*key, bytes, c) {
                Err(e) => Err(e),
                Ok((k, keyed)) => match field_read(*value, bytes, keyed) {
                    Err(e) => Err(e),
                    Ok((v, after)) => if bit_position(after) <= bit_position(c) {
                        Err(DeserializationErrorView::InvalidData(stuck_message()))
                    } else {
                        prepended(seq![(k, v)], entries_read_open(p, bytes, after))
                    },
                },
            }
        },
        _ => Ok((Seq::empty(), c)),
    }
}

/// The values of the fields from index `i` on that a buffer holds at the
/// cursor. Each value is published once it has been read.
pub open spec fn fields_read(
    fields: Seq<FieldSchema>,
    i: int,
    bytes: Seq<u8>,
    c: ConfigView,
) -> Parsed<Seq<ValueView>>
    decreases fields, 2nat, fields.len() - i,
{
    if i < 0 || i >= fields.len() {
        Ok((Seq::empty(), c))
    } else {
        match field_read(fields[i].policy, bytes, c) {
            Err(e) => Err(e),
            Ok((v, after)) => match published(fields[i], v, after) {
                None => Err(read_mismatch()),
                Some(told) => prepended(seq![v], fields_read(fields, i + 1, bytes, told)),
            },
        }
    }
}

/// The variant index of a tagged union that a buffer holds at the cursor,
/// and the state behind it. The discriminant byte is read unless the
/// schema leaves it out; a pending variant index comes before the byte.
pub open spec fn variant_read(no_discriminator: bool, bytes: Seq<u8>, c: ConfigView) -> Parsed<u8> {
    let taken = ConfigView { discriminator: None, ..c };
    if no_discriminator {
        match c.discriminator {
            Some(variant) => Ok((variant, taken)),
            None => Err(DeserializationErrorView::InvalidData(missing_variant_message())),
        }
    } else {
        match fixed_read(bytes, taken, 1) {
            Err(e) => Err(e),
            Ok((n, after)) => match c.discriminator {
                Some(variant) => Ok((variant, after)),
                None => Ok((n as u8, after)),
            },
        }
    }
}

/// The record or the tagged union that a buffer holds at the cursor.
pub open spec fn schema_read(schema: Schema, bytes: Seq<u8>, c: ConfigView) -> Parsed<ValueView>
    decreases schema, 1nat, 0nat,
{
    match schema {
        Schema::Record { fields } => match fields_read(fields@, 0, bytes, c) {
            Err(e) => Err(e),
            Ok((values, after)) => Ok((ValueView::Record(values), after)),
        },
        Schema::Union { variants, no_discriminator } => match variant_read(
            no_discriminator,
            bytes,
            c,
        ) {
            Err(e) => Err(e),
            Ok((variant, chosen)) => if variant >= variants@.len() {
                Err(DeserializationErrorView::UnknownDiscriminant(variant))
            } else {
                match fields_read(variants@[variant as int]@, 0, bytes, chosen) {
                    Err(e) => Err(e),
                    Ok((values, after)) => Ok((ValueView::Union(variant, values), after)),
                }
            },
        },
    }
}

} // verus!
