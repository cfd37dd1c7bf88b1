//! Reading: each value is taken at the cursor by the policy of its field.

use vstd::prelude::*;
use vstd::string::StringExecFns;
use crate::config::{ConfigView, SerializerConfig};
use crate::dyn_int::read_dynint;
use crate::dynamics::{read_bool, read_small_dynamic_signed, read_small_dynamic_unsigned};
use crate::encodings::{be_value, lemma_be_value_bound, pow256, FixedInt, ZigZag};
use crate::engine::publish;
use crate::policy::{BitWidth, ByteWidth, FieldPolicy, FieldSchema, Gate, LengthStrategy, Schema};
use crate::fixed_int::fixed_read;
use crate::record::{
    bit_position, count_read, entries_read, entries_read_open, field_read, fields_read, isolated,
    items_read, items_read_open, prepended, published, read_mismatch, republished, room,
    schema_read, text_read, unpublished, variant_read, with_variant, Parsed,
};
use crate::utils::{get_read_size, slice};
use crate::value::{
    entry_views_of, lemma_entry_views_of_push, lemma_views_of_push, views_of, Value, ValueView,
};
use crate::{DeserializationError, DeserializationErrorView};

verus! {

/// The error of a value that does not match its schema, on read.
pub fn mismatch_on_read() -> (res: DeserializationError)
    ensures
        res@ == read_mismatch(),
{
    DeserializationError::InvalidData(String::from_str("value does not match its schema"))
}

/// Finds the count of a variable-length field that is about to be read.
pub fn read_count(length: &LengthStrategy, bytes: &[u8], config: &mut SerializerConfig) -> (res:
    Result<usize, DeserializationError>)
    requires
        old(config).wf(),
    ensures
        final(config).wf(),
        match count_read(*length, bytes@, old(config)@) {
            Ok((n, c)) => res == Ok::<usize, DeserializationError>(n) && final(config)@ == c,
            Err(e) => res is Err && res->Err_0@ == e,
        },
{
    match length {
        LengthStrategy::Fixed(n) => Ok(*n),
        LengthStrategy::ByReference(name) => get_read_size(bytes, Some(name.as_str()), config),
        LengthStrategy::DynamicPrefix => get_read_size(bytes, Some("__dynamic"), config),
        LengthStrategy::UntilExhausted => get_read_size(bytes, None, config),
    }
}

/// A read has yielded what is expected of it: a value with the view
/// expected and the state expected, or the error expected.
pub open spec fn parsed(
    res: Result<Value, DeserializationError>,
    expected: Parsed<ValueView>,
    c: ConfigView,
) -> bool {
    match expected {
        Ok((v, after)) => res is Ok && res->Ok_0@ == v && c == after,
        Err(e) => res is Err && res->Err_0@ == e,
    }
}

/// A read has yielded the values that are expected of it.
pub open spec fn parsed_items(
    res: Result<Vec<Value>, DeserializationError>,
    expected: Parsed<Seq<ValueView>>,
    c: ConfigView,
) -> bool {
    match expected {
        Ok((v, after)) => res is Ok && views_of(res->Ok_0@) =~= v && c == after,
        Err(e) => res is Err && res->Err_0@ == e,
    }
}

/// A read has yielded the entries that are expected of it.
pub open spec fn parsed_entries(
    res: Result<Vec<(Value, Value)>, DeserializationError>,
    expected: Parsed<Seq<(ValueView, ValueView)>>,
    c: ConfigView,
) -> bool {
    match expected {
        Ok((v, after)) => res is Ok && entry_views_of(res->Ok_0@) =~= v && c
            == after,
        Err(e) => res is Err && res->Err_0@ == e,
    }
}

/// Appending to the head of a read that goes on is prepending to its rest.
pub proof fn lemma_prepended_push<T>(head: Seq<T>, item: T, rest: Parsed<Seq<T>>)
    ensures
        prepended(head, prepended(seq![item], rest)) == prepended(head.push(item), rest),
{
    match rest {
        Ok((tail, c)) => {
            assert(head + (seq![item] + tail) =~= head.push(item) + tail);
        },
        Err(e) => {},
    }
}

/// Nothing follows the head of a read that has ended.
pub proof fn lemma_prepended_end<T>(head: Seq<T>, c: ConfigView)
    ensures
        prepended(head, Ok::<(Seq<T>, ConfigView), DeserializationErrorView>((Seq::empty(), c)))
            == Ok::<(Seq<T>, ConfigView), DeserializationErrorView>((head, c)),
{
    assert(head + Seq::<T>::empty() =~= head);
}

/// Computes the number of bits in front of the cursor.
pub fn bits_before(config: &SerializerConfig) -> (res: u128)
    ensures
        res == bit_position(config@),
{
    (config.pos as u128) * 8 + config.bits as u128
}

/// Reads an integer from a packed field.
pub fn read_packed(
    bits: BitWidth,
    signed: bool,
    bytes: &[u8],
    config: &mut SerializerConfig,
) -> (res: Result<Value, DeserializationError>)
    requires
        old(config).wf(),
    ensures
        final(config).wf(),
        parsed(
            res,
            field_read(FieldPolicy::PackedBits { bits, signed }, bytes@, old(config)@),
            final(config)@,
        ),
{
    if signed {
        match read_small_dynamic_signed(bytes, config, bits.count()) {
            Ok(x) => Ok(Value::Signed(x as i128)),
            Err(e) => Err(e),
        }
    } else {
        match read_small_dynamic_unsigned(bytes, config, bits.count()) {
            Ok(n) => Ok(Value::Unsigned(n as u128)),
            Err(e) => Err(e),
        }
    }
}

/// What `size` bytes spell is below the limit of their width.
pub proof fn lemma_fixed_value_fits(s: Seq<u8>, width: ByteWidth)
    requires
        s.len() == width.bytes(),
    ensures
        be_value(s) < width.limit(),
{
    reveal_with_fuel(pow256, 17);
    lemma_be_value_bound(s);
}

/// Reads an unsigned integer of fixed width.
pub fn read_fixed(width: ByteWidth, bytes: &[u8], config: &mut SerializerConfig) -> (res: Result<
    u128,
    DeserializationError,
>)
    requires
        old(config).wf(),
    ensures
        final(config).wf(),
        match fixed_read(bytes@, old(config)@, width.bytes() as usize) {
            Ok((n, c)) => res == Ok::<u128, DeserializationError>(n as u128) && final(config)@ == c
                && n < width.limit(),
            Err(e) => res is Err && res->Err_0@ == e,
        },
{
    proof {
        let a = old(config)@.aligned(true);
        if a.pos + width.bytes() <= bytes@.len() {
            lemma_fixed_value_fits(
                bytes@.subrange(a.pos as int, a.pos + width.bytes()),
                width,
            );
        }
    }
    match width {
        ByteWidth::W1 => match crate::fixed_int::read::<u8, 1>(bytes, config) {
            Ok(v) => Ok(v as u128),
            Err(e) => Err(e),
        },
        ByteWidth::W2 => match crate::fixed_int::read::<u16, 2>(bytes, config) {
            Ok(v) => Ok(v as u128),
            Err(e) => Err(e),
        },
        ByteWidth::W4 => match crate::fixed_int::read::<u32, 4>(bytes, config) {
            Ok(v) => Ok(v as u128),
            Err(e) => Err(e),
        },
        ByteWidth::W8 => match crate::fixed_int::read::<u64, 8>(bytes, config) {
            Ok(v) => Ok(v as u128),
            Err(e) => Err(e),
        },
        ByteWidth::W16 => crate::fixed_int::read::<u128, 16>(bytes, config),
    }
}

/// Narrows a number that was read at variable length to a width.
pub fn narrow(read: u128, width: ByteWidth) -> (res: u128)
    ensures
        res == (read as nat) % width.limit(),
{
    match width {
        ByteWidth::W1 => read % 0x100,
        ByteWidth::W2 => read % 0x1_0000,
        ByteWidth::W4 => read % 0x1_0000_0000,
        ByteWidth::W8 => read % 0x1_0000_0000_0000_0000,
        ByteWidth::W16 => read,
    }
}

/// Reads an integer of fixed width or of variable length; a signed one
/// from its zig-zag image.
pub fn read_integer(policy: &FieldPolicy, bytes: &[u8], config: &mut SerializerConfig) -> (res:
    Result<Value, DeserializationError>)
    requires
        old(config).wf(),
        *policy is FixedInt || *policy is ZigZag || *policy is DynInt,
    ensures
        final(config).wf(),
        parsed(res, field_read(*policy, bytes@, old(config)@), final(config)@),
{
    match policy {
        FieldPolicy::FixedInt { width } => match read_fixed(*width, bytes, config) {
            Ok(n) => Ok(Value::Unsigned(n)),
            Err(e) => Err(e),
        },
        FieldPolicy::ZigZag { width } => match read_fixed(*width, bytes, config) {
            Ok(n) => Ok(Value::Signed(i128::to_signed(n))),
            Err(e) => Err(e),
        },
        FieldPolicy::DynInt { kind } => match read_dynint(bytes, config) {
            Ok(read) => {
                let n = narrow(read, kind.byte_width());
                if kind.is_signed() {
                    Ok(Value::Signed(i128::to_signed(n)))
                } else {
                    Ok(Value::Unsigned(n))
                }
            },
            Err(e) => Err(e),
        },
        _ => Err(mismatch_on_read()),
    }
}

/// Reads a text.
pub fn read_text(length: &LengthStrategy, bytes: &[u8], config: &mut SerializerConfig) -> (res:
    Result<Value, DeserializationError>)
    requires
        old(config).wf(),
    ensures
        final(config).wf(),
        parsed(res, text_read(*length, bytes@, old(config)@), final(config)@),
{
    let len = match read_count(length, bytes, config) {
        Ok(len) => len,
        Err(e) => {
            return Err(e);
        },
    };
    config.reset_bits(true);
    let taken = match slice(config, bytes, len, true) {
        Ok(taken) => taken,
        Err(e) => {
            return Err(e);
        },
    };
    match crate::variable::text_of(taken) {
        Some(text) => Ok(Value::Text(text)),
        None => Err(DeserializationError::InvalidData(String::from_str("text is not valid UTF-8"))),
    }
}

/// Reads the next `count` items of a sequence.
#[verifier::rlimit(30)]
pub fn read_items(
    element: &FieldPolicy,
    bytes: &[u8],
    config: &mut SerializerConfig,
    count: usize,
) -> (res: Result<Vec<Value>, DeserializationError>)
    requires
        old(config).wf(),
    ensures
        final(config).wf(),
        parsed_items(
            res,
            items_read(*element, bytes@, old(config)@, count as nat),
            final(config)@,
        ),
    decreases *element, 2nat, count,
{
    let ghost whole = items_read(*element, bytes@, old(config)@, count as nat);
    let mut out: Vec<Value> = Vec::new();
    let mut i: usize = 0;
    proof {
        assert(views_of(out@) =~= Seq::<ValueView>::empty());
        match whole {
            Ok((items, c)) => {
                assert(Seq::<ValueView>::empty() + items =~= items);
            },
            Err(e) => {},
        }
    }
    while i < count
        invariant
            i <= count,
            config.wf(),
            whole == items_read(*element, bytes@, old(config)@, count as nat),
            whole == prepended(
                views_of(out@),
                items_read(*element, bytes@, config@, (count - i) as nat),
            ),
        decreases count - i,
    {
        let ghost before = config@;
        let ghost head = views_of(out@);
        match read_field(element, bytes, config) {
            Err(e) => {
                return Err(e);
            },
            Ok(item) => {
                proof {
                    lemma_views_of_push(out@, item);
                    lemma_prepended_push(
                        head,
                        item@,
                        items_read(*element, bytes@, config@, (count - i - 1) as nat),
                    );
                }
                out.push(item);
            },
        }
        i = i + 1;
    }
    proof {
        lemma_prepended_end(views_of(out@), config@);
    }
    Ok(out)
}

/// Reads the items of a sequence that reaches to the end of the buffer.
#[verifier::rlimit(30)]
pub fn read_items_open(element: &FieldPolicy, bytes: &[u8], config: &mut SerializerConfig) -> (res:
    Result<Vec<Value>, DeserializationError>)
    requires
        old(config).wf(),
    ensures
        final(config).wf(),
        parsed_items(res, items_read_open(*element, bytes@, old(config)@), final(config)@),
    decreases *element, 2nat, 0nat,
{
    let ghost whole = items_read_open(*element, bytes@, old(config)@);
    let mut out: Vec<Value> = Vec::new();
    proof {
        assert(views_of(out@) =~= Seq::<ValueView>::empty());
        match whole {
            Ok((items, c)) => {
                assert(Seq::<ValueView>::empty() + items =~= items);
            },
            Err(e) => {},
        }
    }
    loop
        invariant
            config.wf(),
            whole == items_read_open(*element, bytes@, old(config)@),
            whole == prepended(
                views_of(out@),
                items_read_open(*element, bytes@, config@),
            ),
        decreases room(config@, bytes@.len() as int),
    {
        if config.next_reset_bits_pos() >= bytes.len() {
            proof {
                lemma_prepended_end(views_of(out@), config@);
            }
            return Ok(out);
        }
        let before = bits_before(config);
        let ghost head = views_of(out@);
        match read_field(element, bytes, config) {
            Err(e) => {
                return Err(e);
            },
            Ok(item) => {
                if bits_before(config) <= before {
                    return Err(
                        DeserializationError::InvalidData(
                            String::from_str("element of an open sequence takes no space"),
                        ),
                    );
                }
                proof {
                    lemma_views_of_push(out@, item);
                    lemma_prepended_push(
                        head,
                        item@,
                        items_read_open(*element, bytes@, config@),
                    );
                }
                out.push(item);
            },
        }
    }
}

/// Reads the next `count` entries of a mapping.
#[verifier::rlimit(30)]
pub fn read_entries(
    policy: &FieldPolicy,
    bytes: &[u8],
    config: &mut SerializerConfig,
    count: usize,
) -> (res: Result<Vec<(Value, Value)>, DeserializationError>)
    requires
        old(config).wf(),
        *policy is Mapping,
    ensures
        final(config).wf(),
        parsed_entries(
            res,
            entries_read(*policy, bytes@, old(config)@, count as nat),
            final(config)@,
        ),
    decreases *policy, 0nat, count,
{
    let ghost whole = entries_read(*policy, bytes@, old(config)@, count as nat);
    let mut out: Vec<(Value, Value)> = Vec::new();
    let mut i: usize = 0;
    proof {
        assert(entry_views_of(out@) =~= Seq::<(ValueView, ValueView)>::empty());
        match whole {
            Ok((items, c)) => {
                assert(Seq::<(ValueView, ValueView)>::empty() + items =~= items);
            },
            Err(e) => {},
        }
    }
    match policy {
        FieldPolicy::Mapping { key, value, length } => {
            while i < count
                invariant
                    i <= count,
                    config.wf(),
                    *policy matches FieldPolicy::Mapping { key: k, value: v, length: l } && k
                        == key && v == value,
                    whole == entries_read(*policy, bytes@, old(config)@, count as nat),
                    whole == prepended(
                        entry_views_of(out@),
                        entries_read(*policy, bytes@, config@, (count - i) as nat),
                    ),
                decreases count - i,
            {
                let ghost head = entry_views_of(out@);
                let k = match read_field(&**key, bytes, config) {
                    Err(e) => {
                        return Err(e);
                    },
                    Ok(k) => k,
                };
                let v = match read_field(&**value, bytes, config) {
                    Err(e) => {
                        return Err(e);
                    },
                    Ok(v) => v,
                };
                proof {
                    lemma_entry_views_of_push(out@, (k, v));
                    lemma_prepended_push(
                        head,
                        (k@, v@),
                        entries_read(*policy, bytes@, config@, (count - i - 1) as nat),
                    );
                }
                out.push((k, v));
                i = i + 1;
            }
            proof {
                lemma_prepended_end(entry_views_of(out@), config@);
            }
            Ok(out)
        },
        _ => Ok(out),
    }
}

/// Reads the entries of a mapping that reaches to the end of the buffer.
#[verifier::rlimit(30)]
pub fn read_entries_open(policy: &FieldPolicy, bytes: &[u8], config: &mut SerializerConfig) -> (res:
    Result<Vec<(Value, Value)>, DeserializationError>)
    requires
        old(config).wf(),
        *policy is Mapping,
    ensures
        final(config).wf(),
        parsed_entries(res, entries_read_open(*policy, bytes@, old(config)@), final(config)@),
    decreases *policy, 0nat, 0nat,
{
    let ghost whole = entries_read_open(*policy, bytes@, old(config)@);
    let mut out: Vec<(Value, Value)> = Vec::new();
    proof {
        assert(entry_views_of(out@) =~= Seq::<(ValueView, ValueView)>::empty());
        match whole {
            Ok((items, c)) => {
                assert(Seq::<(ValueView, ValueView)>::empty() + items =~= items);
            },
            Err(e) => {},
        }
    }
    match policy {
        FieldPolicy::Mapping { key, value, length } => {
            loop
                invariant
                    config.wf(),
                    *policy matches FieldPolicy::Mapping { key: k, value: v, length: l } && k
                        == key && v == value,
                    whole == entries_read_open(*policy, bytes@, old(config)@),
                    whole == prepended(
                        entry_views_of(out@),
                        entries_read_open(*policy, bytes@, config@),
                    ),
                decreases room(config@, bytes@.len() as int),
            {
                if config.next_reset_bits_pos() >= bytes.len() {
                    proof {
                        lemma_prepended_end(entry_views_of(out@), config@);
                    }
                    return Ok(out);
                }
                let before = bits_before(config);
                let ghost head = entry_views_of(out@);
                let k = match read_field(&**key, bytes, config) {
                    Err(e) => {
                        return Err(e);
                    },
                    Ok(k) => k,
                };
                let v = match read_field(&**value, bytes, config) {
                    Err(e) => {
                        return Err(e);
                    },
                    Ok(v) => v,
                };
                if bits_before(config) <= before {
                    return Err(
                        DeserializationError::InvalidData(
                            String::from_str("element of an open sequence takes no space"),
                        ),
                    );
                }
                proof {
                    lemma_entry_views_of_push(out@, (k, v));
                    lemma_prepended_push(
                        head,
                        (k@, v@),
                        entries_read_open(*policy, bytes@, config@),
                    );
                }
                out.push((k, v));
            }
        },
        _ => Ok(out),
    }
}

/// Reads a nested record or tagged union. One without a count of its own
/// is read from the buffer of its container, at its cursor and with
/// nothing published; any other is read from its own bytes with a state
/// of its own.
#[verifier::rlimit(30)]
pub fn read_nested(policy: &FieldPolicy, bytes: &[u8], config: &mut SerializerConfig) -> (res:
    Result<Value, DeserializationError>)
    requires
        old(config).wf(),
        *policy is NestedObject,
    ensures
        final(config).wf(),
        parsed(res, field_read(*policy, bytes@, old(config)@), final(config)@),
    decreases *policy, 0nat, 0nat,
{
    match policy {
        FieldPolicy::NestedObject { schema, variant_source, length } => {
            let ghost outer = config@;
            if let Some(name) = variant_source {
                config.discriminator = config.get_variant(name.as_str());
            }
            let ghost chosen = config@;
            assert(chosen == with_variant(*variant_source, outer));
            let pending = config.discriminator;
            let len = match read_count(length, bytes, config) {
                Ok(len) => len,
                Err(e) => {
                    return Err(e);
                },
            };
            match length {
                LengthStrategy::UntilExhausted => {
                    let mut inner = SerializerConfig::new();
                    inner.pos = config.pos;
                    inner.bits = config.bits;
                    inner.discriminator = config.discriminator;
                    assert(inner@ =~= unpublished(config@));
                    match read_schema(&**schema, bytes, &mut inner) {
                        Err(e) => Err(e),
                        Ok(v) => {
                            config.pos = inner.pos;
                            config.bits = inner.bits;
                            config.discriminator = inner.discriminator;
                            assert(config@ =~= republished(outer, inner@));
                            Ok(v)
                        },
                    }
                },
                _ => {
                    config.reset_bits(true);
                    let own = match slice(config, bytes, len, true) {
                        Ok(own) => own,
                        Err(e) => {
                            return Err(e);
                        },
                    };
                    let mut child = SerializerConfig::new();
                    child.discriminator = pending;
                    assert(child@ =~= isolated(chosen));
                    match read_schema(&**schema, own, &mut child) {
                        Err(e) => Err(e),
                        Ok(v) => {
                            config.discriminator = None;
                            Ok(v)
                        },
                    }
                },
            }
        },
        _ => Err(mismatch_on_read()),
    }
}

/// Reads an optional value: one that a flag gates is read when the flag
/// is set, any other when bytes are left behind the cursor.
pub fn read_optional(policy: &FieldPolicy, bytes: &[u8], config: &mut SerializerConfig) -> (res:
    Result<Value, DeserializationError>)
    requires
        old(config).wf(),
        *policy is Optional,
    ensures
        final(config).wf(),
        parsed(res, field_read(*policy, bytes@, old(config)@), final(config)@),
    decreases *policy, 0nat, 0nat,
{
    match policy {
        FieldPolicy::Optional { inner, gate } => {
            let present = match gate {
                Gate::Toggle(name) => match config.get_toggle(name.as_str()) {
                    Some(flag) => flag,
                    None => false,
                },
                Gate::SpaceAvailable => config.next_reset_bits_pos() < bytes.len(),
            };
            if present {
                match read_field(&**inner, bytes, config) {
                    Err(e) => Err(e),
                    Ok(v) => Ok(Value::Optional(Some(Box::new(v)))),
                }
            } else {
                Ok(Value::Optional(None))
            }
        },
        _ => Err(mismatch_on_read()),
    }
}

/// Reads the value of one field by its policy.
#[verifier::rlimit(30)]
pub fn read_field(policy: &FieldPolicy, bytes: &[u8], config: &mut SerializerConfig) -> (res:
    Result<Value, DeserializationError>)
    requires
        old(config).wf(),
    ensures
        final(config).wf(),
        parsed(res, field_read(*policy, bytes@, old(config)@), final(config)@),
    decreases *policy, 1nat, 0nat,
{
    match policy {
        FieldPolicy::Bool => match read_bool(bytes, config) {
            Ok(b) => Ok(Value::Bool(b)),
            Err(e) => Err(e),
        },
        FieldPolicy::PackedBits { bits, signed } => read_packed(*bits, *signed, bytes, config),
        FieldPolicy::FixedInt { .. } | FieldPolicy::ZigZag { .. } | FieldPolicy::DynInt { .. } =>
            read_integer(policy, bytes, config),
        FieldPolicy::VariableBytes { length } => read_text(length, bytes, config),
        FieldPolicy::Sequence { element, length } => match length {
            LengthStrategy::UntilExhausted => match read_items_open(&**element, bytes, config) {
                Ok(items) => Ok(Value::Sequence(items)),
                Err(e) => Err(e),
            },
            _ => match read_count(length, bytes, config) {
                Err(e) => Err(e),
                Ok(count) => match read_items(&**element, bytes, config, count) {
                    Ok(items) => Ok(Value::Sequence(items)),
                    Err(e) => Err(e),
                },
            },
        },
        FieldPolicy::Mapping { key, value, length } => match length {
            LengthStrategy::UntilExhausted => match read_entries_open(policy, bytes, config) {
                Ok(entries) => Ok(Value::Mapping(entries)),
                Err(e) => Err(e),
            },
            _ => match read_count(length, bytes, config) {
                Err(e) => Err(e),
                Ok(count) => match read_entries(policy, bytes, config, count) {
                    Ok(entries) => Ok(Value::Mapping(entries)),
                    Err(e) => Err(e),
                },
            },
        },
        FieldPolicy::NestedObject { .. } => read_nested(policy, bytes, config),
        FieldPolicy::Optional { .. } => read_optional(policy, bytes, config),
    }
}

/// Reads the values of the fields of a record or of a variant in the order
/// of their declaration. Each value is published once it has been read.
#[verifier::rlimit(30)]
pub fn read_fields(fields: &Vec<FieldSchema>, bytes: &[u8], config: &mut SerializerConfig) -> (res:
    Result<Vec<Value>, DeserializationError>)
    requires
        old(config).wf(),
    ensures
        final(config).wf(),
        parsed_items(res, fields_read(fields@, 0, bytes@, old(config)@), final(config)@),
    decreases fields@, 2nat, 0nat,
{
    let ghost whole = fields_read(fields@, 0, bytes@, old(config)@);
    let mut out: Vec<Value> = Vec::new();
    let mut i: usize = 0;
    proof {
        assert(views_of(out@) =~= Seq::<ValueView>::empty());
        match whole {
            Ok((items, c)) => {
                assert(Seq::<ValueView>::empty() + items =~= items);
            },
            Err(e) => {},
        }
    }
    while i < fields.len()
        invariant
            i <= fields@.len(),
            config.wf(),
            whole == fields_read(fields@, 0, bytes@, old(config)@),
            whole == prepended(
                views_of(out@),
                fields_read(fields@, i as int, bytes@, config@),
            ),
        decreases fields@.len() - i,
    {
        let ghost head = views_of(out@);
        match read_field(&fields[i].policy, bytes, config) {
            Err(e) => {
                return Err(e);
            },
            Ok(item) => {
                if !publish(&fields[i], &item, config) {
                    return Err(mismatch_on_read());
                }
                proof {
                    lemma_views_of_push(out@, item);
                    lemma_prepended_push(
                        head,
                        item@,
                        fields_read(fields@, i + 1, bytes@, config@),
                    );
                }
                out.push(item);
            },
        }
        i = i + 1;
    }
    proof {
        lemma_prepended_end(views_of(out@), config@);
    }
    Ok(out)
}

/// Finds the variant index of the tagged union at the cursor.
pub fn read_variant(no_discriminator: bool, bytes: &[u8], config: &mut SerializerConfig) -> (res:
    Result<u8, DeserializationError>)
    requires
        old(config).wf(),
    ensures
        final(config).wf(),
        match variant_read(no_discriminator, bytes@, old(config)@) {
            Ok((variant, c)) => res == Ok::<u8, DeserializationError>(variant) && final(config)@
                == c,
            Err(e) => res is Err && res->Err_0@ == e,
        },
{
    let pending = config.discriminator;
    config.discriminator = None;
    if no_discriminator {
        match pending {
            Some(variant) => Ok(variant),
            None => Err(
                DeserializationError::InvalidData(
                    String::from_str("no variant index is set for a union without discriminant"),
                ),
            ),
        }
    } else {
        match crate::fixed_int::read::<u8, 1>(bytes, config) {
            Err(e) => Err(e),
            Ok(read) => match pending {
                Some(variant) => Ok(variant),
                None => Ok(read),
            },
        }
    }
}

/// Reads a record or a tagged union at the cursor.
#[verifier::rlimit(30)]
pub fn read_schema(schema: &Schema, bytes: &[u8], config: &mut SerializerConfig) -> (res: Result<
    Value,
    DeserializationError,
>)
    requires
        old(config).wf(),
    ensures
        final(config).wf(),
        parsed(res, schema_read(*schema, bytes@, old(config)@), final(config)@),
    decreases *schema, 1nat, 0nat,
{
    match schema {
        Schema::Record { fields } => match read_fields(fields, bytes, config) {
            Ok(values) => Ok(Value::Record(values)),
            Err(e) => Err(e),
        },
        Schema::Union { variants, no_discriminator } => {
            let variant = match read_variant(*no_discriminator, bytes, config) {
                Ok(variant) => variant,
                Err(e) => {
                    return Err(e);
                },
            };
            if variant as usize >= variants.len() {
                return Err(DeserializationError::UnknownDiscriminant(variant));
            }
            match read_fields(&variants[variant as usize], bytes, config) {
                Ok(values) => Ok(Value::Union(variant, values)),
                Err(e) => Err(e),
            }
        },
    }
}

} // verus!
