//! Writing: each value goes to the end of the buffer by the policy of its
//! field.

use vstd::prelude::*;
use vstd::string::StringExecFns;
use crate::config::{ConfigView, SerializerConfig};
use crate::dyn_int::write_dynint;
use crate::dynamics::{write_bool, write_small_dynamic_signed, write_small_dynamic_unsigned};
use crate::encodings::{be_bytes, lemma_be_bytes_len, FixedInt, ZigZag};
use crate::engine::publish;
use crate::policy::{BitWidth, ByteWidth, FieldPolicy, FieldSchema, Gate, LengthStrategy, Schema};
use crate::record::{
    count_written, entries_written, field_written, fields_written, fixed_written, isolated,
    items_written, published, republished, schema_written, signed_fits, text_written, unpublished,
    unsigned_fits, with_variant, write_mismatch, Written,
};
use crate::utils::write_size;
use crate::value::{entry_views_of, lemma_entry_views_of, lemma_views_of, views_of, Value};
use crate::SerializationError;

verus! {

/// The error of a value that does not match its schema, on write.
pub fn mismatch_on_write() -> (res: SerializationError)
    ensures
        res@ == write_mismatch(),
{
    SerializationError::InvalidData(String::from_str("value does not match its schema"))
}

/// Computes [`unsigned_fits`].
pub fn fits_unsigned(n: u128, width: ByteWidth) -> (res: bool)
    ensures
        res == unsigned_fits(n, width),
{
    match width {
        ByteWidth::W1 => n <= 0xFF,
        ByteWidth::W2 => n <= 0xFFFF,
        ByteWidth::W4 => n <= 0xFFFF_FFFF,
        ByteWidth::W8 => n <= 0xFFFF_FFFF_FFFF_FFFF,
        ByteWidth::W16 => true,
    }
}

/// Computes [`signed_fits`].
pub fn fits_signed(x: i128, width: ByteWidth) -> (res: bool)
    ensures
        res == signed_fits(x, width),
{
    match width {
        ByteWidth::W1 => -0x80 <= x && x <= 0x7F,
        ByteWidth::W2 => -0x8000 <= x && x <= 0x7FFF,
        ByteWidth::W4 => -0x8000_0000 <= x && x <= 0x7FFF_FFFF,
        ByteWidth::W8 => -0x8000_0000_0000_0000 <= x && x <= 0x7FFF_FFFF_FFFF_FFFF,
        ByteWidth::W16 => true,
    }
}

/// Writes or checks the count of a variable-length field.
pub fn write_count(
    length: &LengthStrategy,
    count: usize,
    buffer: &mut Vec<u8>,
    config: &mut SerializerConfig,
) -> (res: Result<(), SerializationError>)
    requires
        old(config)@.can_write(old(buffer)@),
    ensures
        match count_written(*length, count, old(buffer)@, old(config)@) {
            Ok((b, c)) => res is Ok && final(buffer)@ == b && final(config)@ == c && c.can_write(b),
            Err(e) => res is Err && res->Err_0@ == e,
        },
{
    match length {
        LengthStrategy::Fixed(n) => {
            if *n != count {
                Err(SerializationError::UnexpectedLength(*n, count))
            } else {
                Ok(())
            }
        },
        LengthStrategy::ByReference(name) => write_size(count, Some(name.as_str()), buffer, config),
        LengthStrategy::DynamicPrefix => write_size(count, Some("__dynamic"), buffer, config),
        LengthStrategy::UntilExhausted => write_size(count, None, buffer, config),
    }
}

/// A write has done what is expected of it: the buffer and the state are
/// as expected and a writer can go on from them, or the error is the one
/// expected.
pub open spec fn wrote(
    res: Result<(), SerializationError>,
    expected: Written,
    buffer: Seq<u8>,
    c: ConfigView,
) -> bool {
    match expected {
        Ok((b, after)) => res is Ok && buffer =~= b && c == after && after.can_write(b),
        Err(e) => res is Err && res->Err_0@ == e,
    }
}

/// Writes an unsigned integer at fixed width.
pub fn write_fixed(
    n: u128,
    width: ByteWidth,
    buffer: &mut Vec<u8>,
    config: &mut SerializerConfig,
) -> (res: Result<(), SerializationError>)
    requires
        old(config)@.can_write(old(buffer)@),
        n < width.limit(),
    ensures
        wrote(
            res,
            fixed_written(n as nat, width, old(buffer)@, old(config)@),
            final(buffer)@,
            final(config)@,
        ),
{
    proof {
        lemma_be_bytes_len(n as nat, width.bytes());
    }
    match width {
        ByteWidth::W1 => crate::fixed_int::write::<u8, 1>(n as u8, buffer, config),
        ByteWidth::W2 => crate::fixed_int::write::<u16, 2>(n as u16, buffer, config),
        ByteWidth::W4 => crate::fixed_int::write::<u32, 4>(n as u32, buffer, config),
        ByteWidth::W8 => crate::fixed_int::write::<u64, 8>(n as u64, buffer, config),
        ByteWidth::W16 => crate::fixed_int::write::<u128, 16>(n, buffer, config),
    }
}

/// Writes a text.
pub fn write_text(
    text: &str,
    length: &LengthStrategy,
    buffer: &mut Vec<u8>,
    config: &mut SerializerConfig,
) -> (res: Result<(), SerializationError>)
    requires
        old(config)@.can_write(old(buffer)@),
    ensures
        wrote(
            res,
            text_written(text@, *length, old(buffer)@, old(config)@),
            final(buffer)@,
            final(config)@,
        ),
{
    let raw = text.as_bytes();
    config.reset_bits(false);
    match write_count(length, raw.len(), buffer, config) {
        Ok(()) => {},
        Err(e) => {
            return Err(e);
        },
    }
    let ghost sized = buffer@;
    buffer.extend_from_slice(raw);
    assert(buffer.len() == sized.len() + raw.len());
    config.pos = config.pos + raw.len();
    Ok(())
}

/// Writes an integer into a packed field.
pub fn write_packed(
    bits: BitWidth,
    signed: bool,
    value: &Value,
    buffer: &mut Vec<u8>,
    config: &mut SerializerConfig,
) -> (res: Result<(), SerializationError>)
    requires
        old(config)@.can_write(old(buffer)@),
    ensures
        wrote(
            res,
            field_written(
                FieldPolicy::PackedBits { bits, signed },
                value@,
                old(buffer)@,
                old(config)@,
            ),
            final(buffer)@,
            final(config)@,
        ),
{
    if signed {
        match value {
            Value::Signed(x) => {
                if *x < -128 || *x > 127 {
                    Err(mismatch_on_write())
                } else {
                    write_small_dynamic_signed(*x as i8, buffer, config, bits.count())
                }
            },
            _ => Err(mismatch_on_write()),
        }
    } else {
        match value {
            Value::Unsigned(n) => {
                if *n > 255 {
                    Err(mismatch_on_write())
                } else {
                    write_small_dynamic_unsigned(*n as u8, buffer, config, bits.count())
                }
            },
            _ => Err(mismatch_on_write()),
        }
    }
}

/// Writes an integer at fixed width or at variable length; a signed one
/// as its zig-zag image.
pub fn write_integer(
    policy: &FieldPolicy,
    value: &Value,
    buffer: &mut Vec<u8>,
    config: &mut SerializerConfig,
) -> (res: Result<(), SerializationError>)
    requires
        old(config)@.can_write(old(buffer)@),
        *policy is FixedInt || *policy is ZigZag || *policy is DynInt,
    ensures
        wrote(
            res,
            field_written(*policy, value@, old(buffer)@, old(config)@),
            final(buffer)@,
            final(config)@,
        ),
{
    match policy {
        FieldPolicy::FixedInt { width } => match value {
            Value::Unsigned(n) => {
                if fits_unsigned(*n, *width) {
                    write_fixed(*n, *width, buffer, config)
                } else {
                    Err(mismatch_on_write())
                }
            },
            _ => Err(mismatch_on_write()),
        },
        FieldPolicy::ZigZag { width } => match value {
            Value::Signed(x) => {
                if fits_signed(*x, *width) {
                    write_fixed(x.to_unsigned(), *width, buffer, config)
                } else {
                    Err(mismatch_on_write())
                }
            },
            _ => Err(mismatch_on_write()),
        },
        FieldPolicy::DynInt { kind } => {
            if kind.is_signed() {
                match value {
                    Value::Signed(x) => {
                        if fits_signed(*x, kind.byte_width()) {
                            write_dynint(x.to_unsigned(), buffer, config)
                        } else {
                            Err(mismatch_on_write())
                        }
                    },
                    _ => Err(mismatch_on_write()),
                }
            } else {
                match value {
                    Value::Unsigned(n) => {
                        if fits_unsigned(*n, kind.byte_width()) {
                            write_dynint(*n, buffer, config)
                        } else {
                            Err(mismatch_on_write())
                        }
                    },
                    _ => Err(mismatch_on_write()),
                }
            }
        },
        _ => Ok(()),
    }
}

/// Writes a nested record or tagged union. One without a count of its own
/// goes on at the cursor of its container, with nothing published; any
/// other starts on a byte boundary and is written into a buffer of its own,
/// which follows its count.
#[verifier::rlimit(30)]
pub fn write_nested(
    policy: &FieldPolicy,
    value: &Value,
    buffer: &mut Vec<u8>,
    config: &mut SerializerConfig,
) -> (res: Result<(), SerializationError>)
    requires
        old(config)@.can_write(old(buffer)@),
        *policy is NestedObject,
    ensures
        wrote(
            res,
            field_written(*policy, value@, old(buffer)@, old(config)@),
            final(buffer)@,
            final(config)@,
        ),
    decreases *policy, 0nat, 0nat,
{
    match policy {
        FieldPolicy::NestedObject { schema, variant_source, length } => {
            let ghost outer = config@;
            if let Some(name) = variant_source {
                config.discriminator = config.get_variant(name.as_str());
            }
            let ghost chosen = config@;
            assert(chosen == with_variant(*variant_source, outer));
            match length {
                LengthStrategy::UntilExhausted => {
                    let mut inner = SerializerConfig::new();
                    inner.pos = config.pos;
                    inner.bits = config.bits;
                    inner.discriminator = config.discriminator;
                    assert(inner@ =~= unpublished(chosen));
                    match write_schema(&**schema, value, buffer, &mut inner) {
                        Err(e) => Err(e),
                        Ok(()) => {
                            config.pos = inner.pos;
                            config.bits = inner.bits;
                            config.discriminator = inner.discriminator;
                            assert(config@ =~= republished(outer, inner@));
                            Ok(())
                        },
                    }
                },
                _ => {
                    let mut child = SerializerConfig::new();
                    child.discriminator = config.discriminator;
                    assert(child@ =~= isolated(chosen));
                    let mut nested: Vec<u8> = Vec::new();
                    match write_schema(&**schema, value, &mut nested, &mut child) {
                        Err(e) => {
                            return Err(e);
                        },
                        Ok(()) => {},
                    }
                    config.reset_bits(false);
                    config.discriminator = None;
                    assert(config@ =~= (ConfigView {
                        discriminator: None,
                        ..chosen.aligned(false)
                    }));
                    match write_count(length, nested.len(), buffer, config) {
                        Err(e) => {
                            return Err(e);
                        },
                        Ok(()) => {},
                    }
                    let ghost sized = buffer@;
                    let ghost sized_state = config@;
                    buffer.extend_from_slice(nested.as_slice());
                    assert(buffer.len() == sized.len() + nested.len());
                    config.pos = config.pos + nested.len();
                    assert(config@ =~= (ConfigView {
                        pos: (sized_state.pos + nested@.len()) as usize,
                        ..sized_state
                    }));
                    Ok(())
                },
            }
        },
        _ => Ok(()),
    }
}

/// Writes an optional value: one that a flag gates is written when the
/// flag is set, any other when it is present.
pub fn write_optional(
    policy: &FieldPolicy,
    value: &Value,
    buffer: &mut Vec<u8>,
    config: &mut SerializerConfig,
) -> (res: Result<(), SerializationError>)
    requires
        old(config)@.can_write(old(buffer)@),
        *policy is Optional,
    ensures
        wrote(
            res,
            field_written(*policy, value@, old(buffer)@, old(config)@),
            final(buffer)@,
            final(config)@,
        ),
    decreases *policy, 0nat, 0nat,
{
    match policy {
        FieldPolicy::Optional { inner, gate } => match value {
            Value::Optional(held) => match gate {
                Gate::Toggle(name) => {
                    let on = match config.get_toggle(name.as_str()) {
                        Some(flag) => flag,
                        None => false,
                    };
                    if on {
                        match held {
                            Some(x) => write_field(&**inner, &**x, buffer, config),
                            None => Err(
                                SerializationError::InvalidData(
                                    String::from_str("toggled field has no value"),
                                ),
                            ),
                        }
                    } else {
                        Ok(())
                    }
                },
                Gate::SpaceAvailable => match held {
                    Some(x) => write_field(&**inner, &**x, buffer, config),
                    None => Ok(()),
                },
            },
            _ => Err(mismatch_on_write()),
        },
        _ => Ok(()),
    }
}

/// Writes the value of one field by its policy.
#[verifier::rlimit(30)]
pub fn write_field(
    policy: &FieldPolicy,
    value: &Value,
    buffer: &mut Vec<u8>,
    config: &mut SerializerConfig,
) -> (res: Result<(), SerializationError>)
    requires
        old(config)@.can_write(old(buffer)@),
    ensures
        wrote(
            res,
            field_written(*policy, value@, old(buffer)@, old(config)@),
            final(buffer)@,
            final(config)@,
        ),
    decreases *policy, 1nat, 0nat,
{
    match policy {
        FieldPolicy::Bool => match value {
            Value::Bool(b) => write_bool(*b, buffer, config),
            _ => Err(mismatch_on_write()),
        },
        FieldPolicy::PackedBits { bits, signed } => write_packed(
            *bits,
            *signed,
            value,
            buffer,
            config,
        ),
        FieldPolicy::FixedInt { .. } | FieldPolicy::ZigZag { .. } | FieldPolicy::DynInt { .. } =>
            write_integer(policy, value, buffer, config),
        FieldPolicy::VariableBytes { length } => match value {
            Value::Text(text) => write_text(text.as_str(), length, buffer, config),
            _ => Err(mismatch_on_write()),
        },
        FieldPolicy::Sequence { element, length } => match value {
            Value::Sequence(items) => {
                proof {
                    lemma_views_of(items@);
                }
                match write_count(length, items.len(), buffer, config) {
                    Ok(()) => write_items(&**element, items, buffer, config),
                    Err(e) => Err(e),
                }
            },
            _ => Err(mismatch_on_write()),
        },
        FieldPolicy::Mapping { key, value: held, length } => match value {
            Value::Mapping(entries) => {
                proof {
                    lemma_entry_views_of(entries@);
                }
                match write_count(length, entries.len(), buffer, config) {
                    Ok(()) => write_entries(policy, entries, buffer, config),
                    Err(e) => Err(e),
                }
            },
            _ => Err(mismatch_on_write()),
        },
        FieldPolicy::NestedObject { .. } => write_nested(policy, value, buffer, config),
        FieldPolicy::Optional { .. } => write_optional(policy, value, buffer, config),
    }
}

/// Writes the items of a sequence one after the other.
#[verifier::rlimit(30)]
pub fn write_items(
    element: &FieldPolicy,
    items: &Vec<Value>,
    buffer: &mut Vec<u8>,
    config: &mut SerializerConfig,
) -> (res: Result<(), SerializationError>)
    requires
        old(config)@.can_write(old(buffer)@),
    ensures
        wrote(
            res,
            items_written(*element, views_of(items@), 0, old(buffer)@, old(config)@),
            final(buffer)@,
            final(config)@,
        ),
    decreases *element, 2nat, items@.len(),
{
    let ghost views = views_of(items@);
    let ghost whole = items_written(*element, views, 0, old(buffer)@, old(config)@);
    proof {
        lemma_views_of(items@);
    }
    let mut i: usize = 0;
    while i < items.len()
        invariant
            i <= items@.len(),
            views == views_of(items@),
            views.len() == items@.len(),
            forall|j: int| 0 <= j < items@.len() ==> #[trigger] views[j] == items@[j]@,
            config@.can_write(buffer@),
            whole == items_written(*element, views, 0, old(buffer)@, old(config)@),
            items_written(*element, views, i as int, buffer@, config@) == whole,
        decreases items@.len() - i,
    {
        match write_field(element, &items[i], buffer, config) {
            Err(e) => {
                return Err(e);
            },
            Ok(()) => {},
        }
        i = i + 1;
    }
    Ok(())
}

/// Writes the entries of a mapping: each key, then its value.
#[verifier::rlimit(30)]
pub fn write_entries(
    policy: &FieldPolicy,
    entries: &Vec<(Value, Value)>,
    buffer: &mut Vec<u8>,
    config: &mut SerializerConfig,
) -> (res: Result<(), SerializationError>)
    requires
        old(config)@.can_write(old(buffer)@),
    ensures
        wrote(
            res,
            entries_written(
                *policy,
                entry_views_of(entries@),
                0,
                old(buffer)@,
                old(config)@,
            ),
            final(buffer)@,
            final(config)@,
        ),
    decreases *policy, 0nat, entries@.len(),
{
    let ghost views = entry_views_of(entries@);
    let ghost whole = entries_written(*policy, views, 0, old(buffer)@, old(config)@);
    proof {
        lemma_entry_views_of(entries@);
    }
    match policy {
        FieldPolicy::Mapping { key, value, length } => {
            let mut i: usize = 0;
            while i < entries.len()
                invariant
                    i <= entries@.len(),
                    *policy matches FieldPolicy::Mapping { key: k, value: v, length: l } && k
                        == key && v == value,
                    views == entry_views_of(entries@),
                    views.len() == entries@.len(),
                    forall|j: int|
                        0 <= j < entries@.len() ==> #[trigger] views[j] == (
                            entries@[j].0@,
                            entries@[j].1@,
                        ),
                    config@.can_write(buffer@),
                    whole == entries_written(*policy, views, 0, old(buffer)@, old(config)@),
                    entries_written(*policy, views, i as int, buffer@, config@) == whole,
                decreases entries@.len() - i,
            {
                match write_field(&**key, &entries[i].0, buffer, config) {
                    Err(e) => {
                        return Err(e);
                    },
                    Ok(()) => {},
                }
                match write_field(&**value, &entries[i].1, buffer, config) {
                    Err(e) => {
                        return Err(e);
                    },
                    Ok(()) => {},
                }
                i = i + 1;
            }
            Ok(())
        },
        _ => Ok(()),
    }
}

/// Writes the values of the fields of a record or of a variant in the
/// order of their declaration. Each value is published before it is
/// written.
#[verifier::rlimit(30)]
pub fn write_fields(
    fields: &Vec<FieldSchema>,
    values: &Vec<Value>,
    buffer: &mut Vec<u8>,
    config: &mut SerializerConfig,
) -> (res: Result<(), SerializationError>)
    requires
        old(config)@.can_write(old(buffer)@),
        values@.len() == fields@.len(),
    ensures
        wrote(
            res,
            fields_written(fields@, views_of(values@), 0, old(buffer)@, old(config)@),
            final(buffer)@,
            final(config)@,
        ),
    decreases fields@, 2nat, fields@.len(),
{
    let ghost views = views_of(values@);
    let ghost whole = fields_written(fields@, views, 0, old(buffer)@, old(config)@);
    proof {
        lemma_views_of(values@);
    }
    let mut i: usize = 0;
    while i < fields.len()
        invariant
            i <= fields@.len(),
            values@.len() == fields@.len(),
            views == views_of(values@),
            views.len() == values@.len(),
            forall|j: int| 0 <= j < values@.len() ==> #[trigger] views[j] == values@[j]@,
            config@.can_write(buffer@),
            whole == fields_written(fields@, views, 0, old(buffer)@, old(config)@),
            fields_written(fields@, views, i as int, buffer@, config@) == whole,
        decreases fields@.len() - i,
    {
        if !publish(&fields[i], &values[i], config) {
            return Err(mismatch_on_write());
        }
        match write_field(&fields[i].policy, &values[i], buffer, config) {
            Err(e) => {
                return Err(e);
            },
            Ok(()) => {},
        }
        i = i + 1;
    }
    Ok(())
}

/// Writes a record or a tagged union at the end of `buffer`.
#[verifier::rlimit(30)]
pub fn write_schema(
    schema: &Schema,
    value: &Value,
    buffer: &mut Vec<u8>,
    config: &mut SerializerConfig,
) -> (res: Result<(), SerializationError>)
    requires
        old(config)@.can_write(old(buffer)@),
    ensures
        wrote(
            res,
            schema_written(*schema, value@, old(buffer)@, old(config)@),
            final(buffer)@,
            final(config)@,
        ),
    decreases *schema, 1nat, 0nat,
{
    match schema {
        Schema::Record { fields } => match value {
            Value::Record(values) => {
                proof {
                    lemma_views_of(values@);
                }
                if values.len() != fields.len() {
                    Err(mismatch_on_write())
                } else {
                    write_fields(fields, values, buffer, config)
                }
            },
            _ => Err(mismatch_on_write()),
        },
        Schema::Union { variants, no_discriminator } => match value {
            Value::Union(variant, values) => {
                proof {
                    lemma_views_of(values@);
                }
                if *variant as usize >= variants.len() {
                    return Err(mismatch_on_write());
                }
                let fields = &variants[*variant as usize];
                if values.len() != fields.len() {
                    return Err(mismatch_on_write());
                }
                config.discriminator = None;
                if !*no_discriminator {
                    let ghost before = buffer@;
                    match crate::fixed_int::write::<u8, 1>(*variant, buffer, config) {
                        Err(e) => {
                            return Err(e);
                        },
                        Ok(()) => {},
                    }
                    proof {
                        reveal_with_fuel(be_bytes, 2);
                        assert(buffer@ =~= before.push(*variant));
                    }
                }
                write_fields(fields, values, buffer, config)
            },
            _ => Err(mismatch_on_write()),
        },
    }
}

} // verus!
