//! What is written can be read back: the laws that tie the two directions
//! of the wire format together.

use vstd::prelude::*;
use crate::config::ConfigView;
use crate::fixed_int::advanced;
use crate::laws::agreement::{
    extends, lemma_agrees_itself, lemma_append_extends, reader_of, steady, whole_bytes,
};
use crate::laws::extension::{lemma_fields_extends, lemma_schema_extends};
use crate::laws::faithful::{countable, faithful_schema, lemma_plain_schema, self_delimiting_schema};
use crate::laws::read_back::lemma_schema_read_back;
use crate::policy::{FieldPolicy, Gate, LengthStrategy, Schema};
use crate::record::{field_read, field_written, items_written, schema_read, schema_written};
use crate::utils::dynamic_key;
use crate::value::ValueView;
use crate::{DeserializationErrorView, SerializationErrorView};

pub mod agreement;
pub mod cursor;
pub mod extension;
pub mod faithful;
pub mod read_back;

verus! {

/// Decoding inverts encoding: a record or a tagged union that is written
/// into an empty buffer, and that is faithful to the buffer that results,
/// is what reading that buffer yields.
pub proof fn lemma_round_trip(schema: Schema, v: ValueView)
    requires
        crate::engine::encoding(schema, v) matches Ok(bytes) && bytes.len() <= usize::MAX
            && faithful_schema(schema, v, Seq::empty(), ConfigView::empty(), bytes.len() as int),
    ensures
        crate::engine::decoding(schema, crate::engine::encoding(schema, v)->Ok_0) == Ok::<
            ValueView,
            DeserializationErrorView,
        >(v),
{
    let start = ConfigView::empty();
    let (bytes, end) = schema_written(schema, v, Seq::empty(), start)->Ok_0;
    lemma_schema_extends(schema, v, Seq::empty(), start);
    lemma_agrees_itself(bytes, end.bits);
    assert(reader_of(Seq::<u8>::empty(), start) == start);
    lemma_schema_read_back(schema, v, Seq::empty(), start, bytes);
}

/// Decoding inverts encoding for every record type whose fields delimit
/// themselves: whatever value of such a type is written into an empty
/// buffer is what reading that buffer yields.
pub proof fn lemma_round_trip_self_delimiting(schema: Schema, v: ValueView)
    requires
        self_delimiting_schema(schema),
        countable(v),
        crate::engine::encoding(schema, v) matches Ok(bytes) && bytes.len() <= usize::MAX,
    ensures
        crate::engine::decoding(schema, crate::engine::encoding(schema, v)->Ok_0) == Ok::<
            ValueView,
            DeserializationErrorView,
        >(v),
{
    let bytes = crate::engine::encoding(schema, v)->Ok_0;
    lemma_plain_schema(schema, v, Seq::empty(), ConfigView::empty(), bytes.len() as int);
    lemma_round_trip(schema, v);
}

/// An optional value whose flag is not set takes no bytes, and reads as
/// absent whatever the buffer holds.
pub proof fn lemma_toggled_off(
    inner: FieldPolicy,
    name: String,
    held: Option<Box<ValueView>>,
    buffer: Seq<u8>,
    bytes: Seq<u8>,
    c: ConfigView,
)
    requires
        c.toggle(name@) != Some(true),
    ensures
        field_written(
            FieldPolicy::Optional { inner: Box::new(inner), gate: Gate::Toggle(name) },
            ValueView::Optional(held),
            buffer,
            c,
        ) == Ok::<(Seq<u8>, ConfigView), SerializationErrorView>((buffer, c)),
        field_read(
            FieldPolicy::Optional { inner: Box::new(inner), gate: Gate::Toggle(name) },
            bytes,
            c,
        ) == Ok::<(ValueView, ConfigView), DeserializationErrorView>(
            (ValueView::Optional(None), c),
        ),
{
}

/// A sequence whose count an earlier field has declared is written without
/// a count in front of it, and is refused where it has another count of
/// elements than the one declared.
pub proof fn lemma_declared_count(
    element: FieldPolicy,
    name: String,
    items: Seq<ValueView>,
    buffer: Seq<u8>,
    c: ConfigView,
)
    requires
        name@ != dynamic_key(),
        c.length(name@) is Some,
        items.len() <= usize::MAX,
    ensures
        items.len() != c.length(name@)->Some_0 ==> field_written(
            FieldPolicy::Sequence {
                element: Box::new(element),
                length: LengthStrategy::ByReference(name),
            },
            ValueView::Sequence(items),
            buffer,
            c,
        ) == Err::<(Seq<u8>, ConfigView), SerializationErrorView>(
            SerializationErrorView::UnexpectedLength(
                c.length(name@)->Some_0,
                items.len() as usize,
            ),
        ),
        items.len() == c.length(name@)->Some_0 ==> field_written(
            FieldPolicy::Sequence {
                element: Box::new(element),
                length: LengthStrategy::ByReference(name),
            },
            ValueView::Sequence(items),
            buffer,
            c,
        ) == items_written(element, items, 0, buffer, c),
{
}

/// A tagged union with a discriminant byte is written as the index of its
/// variant in one byte, followed by the fields of the variant.
pub proof fn lemma_union_prefix(
    schema: Schema,
    variant: u8,
    values: Seq<ValueView>,
    buffer: Seq<u8>,
    c: ConfigView,
)
    requires
        schema matches Schema::Union { variants, no_discriminator } && !no_discriminator,
        steady(buffer, c),
        schema_written(schema, ValueView::Union(variant, values), buffer, c) matches Ok(
            (b2, c2),
        ) && b2.len() <= usize::MAX,
    ensures
        schema_written(schema, ValueView::Union(variant, values), buffer, c) matches Ok(
            (b2, c2),
        ) && b2.len() > buffer.len() && b2[buffer.len() as int] == variant && b2.subrange(
            0,
            whole_bytes(buffer, c.bits),
        ) == buffer.subrange(0, whole_bytes(buffer, c.bits)),
{
    let (b2, c2) = schema_written(schema, ValueView::Union(variant, values), buffer, c)->Ok_0;
    let taken = ConfigView { discriminator: None, ..c };
    let b1 = buffer.push(variant);
    let c1 = advanced(taken, 1);
    let fields = schema->variants@[variant as int]@;
    lemma_fields_extends(fields, values, 0, b1, c1);
    assert(b1 =~= buffer + seq![variant]);
    lemma_append_extends(buffer, taken, seq![variant]);
    assert(steady(b1, c1));
    assert(extends(b2, c2.bits, b1, 0));
    assert(b2[buffer.len() as int] == b1[buffer.len() as int]);
    assert(b2.subrange(0, whole_bytes(buffer, c.bits)) =~= buffer.subrange(
        0,
        whole_bytes(buffer, c.bits),
    ));
}

/// A discriminant byte that is the index of no variant is refused with its
/// value.
pub proof fn lemma_unknown_discriminant(schema: Schema, bytes: Seq<u8>, c: ConfigView)
    requires
        schema matches Schema::Union { variants, no_discriminator } && !no_discriminator,
        c.discriminator is None,
        c.wf(),
        bytes.len() <= usize::MAX,
        c.logical_pos() < bytes.len(),
        bytes[c.logical_pos()] >= schema->variants@.len(),
    ensures
        schema_read(schema, bytes, c) == Err::<(ValueView, ConfigView), DeserializationErrorView>(
            DeserializationErrorView::UnknownDiscriminant(bytes[c.logical_pos()]),
        ),
{
    let at = c.logical_pos();
    let taken = ConfigView { discriminator: None, ..c };
    let one = bytes.subrange(at, at + 1);
    assert(one.drop_last() =~= Seq::<u8>::empty());
    assert(crate::encodings::be_value(one) == bytes[at]) by {
        reveal_with_fuel(crate::encodings::be_value, 2);
    }
}

} // verus!
