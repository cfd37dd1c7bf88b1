//! The values that can be read back, and the record types whose every
//! value can.

use vstd::prelude::*;
use crate::config::ConfigView;
use crate::fixed_int::advanced;
use crate::laws::extension::lemma_count_extends;
use crate::laws::read_back::lemma_published_reader;
use crate::policy::{FieldPolicy, FieldSchema, Gate, LengthStrategy, Schema};
use crate::record::{
    count_written, entries_written, field_written, fields_written, isolated, items_written,
    open_ended, published, schema_written, unpublished, with_variant, Written,
};
use crate::utils::dynamic_key;
use crate::value::{lemma_entry_views_of, lemma_views_of, Value, ValueView};

verus! {

/// Whether the count of a field with this strategy is all that is left
/// of the buffer when the field is read: no count is written for it, and
/// none is declared under its key.
pub open spec fn takes_the_rest(length: LengthStrategy, c: ConfigView) -> bool {
    match length {
        LengthStrategy::UntilExhausted => true,
        LengthStrategy::ByReference(name) => name@ != dynamic_key() && c.length(name@) is None,
        _ => false,
    }
}

/// Whether the count of a field with this strategy is declared by an
/// earlier field.
pub open spec fn takes_declared(length: LengthStrategy, c: ConfigView) -> bool {
    match length {
        LengthStrategy::ByReference(name) => name@ != dynamic_key() && c.length(name@) is Some,
        _ => false,
    }
}

/// The number of bits that a writer has written.
pub open spec fn written_bits(buffer: Seq<u8>, c: ConfigView) -> int {
    if c.bits == 0 {
        8 * (buffer.len() as int)
    } else {
        8 * (buffer.len() - 1) + c.bits
    }
}

/// Whether the value `v` of a field with the policy `p`, written into
/// `buffer` with the state `c`, can be read back from a buffer of `total`
/// bytes that holds what was written. It cannot where
/// - a field that takes the rest of its buffer does not end where the
///   buffer ends;
/// - a count of elements that an earlier field has declared exceeds the
///   count of bytes that are left, or a count that is taken from what is
///   left differs from the count of elements;
/// - an element of an open sequence takes no bits, or bytes are left
///   behind its last element, or none are left before an earlier one;
/// - a sequence has more elements than the machine word can count;
/// - an optional value whose flag is not set is present, or one without a
///   flag is present where no bytes are left, or absent where some are;
/// - a tagged union has another variant than the variant index that is
///   pending for it, or leaves out its discriminant while none is pending.
pub open spec fn faithful_field(
    p: FieldPolicy,
    v: ValueView,
    buffer: Seq<u8>,
    c: ConfigView,
    total: int,
) -> bool
    decreases p, 1nat, 0nat,
{
    match field_written(p, v, buffer, c) {
        Err(_) => false,
        Ok((end, _)) => match p {
            FieldPolicy::VariableBytes { length } => takes_the_rest(length, c) ==> end.len()
                == total,
            FieldPolicy::Sequence { element, length } => match v {
                ValueView::Sequence(items) => match count_written(
                    length,
                    items.len() as usize,
                    buffer,
                    c,
                ) {
                    Err(_) => false,
                    Ok((b, counted)) => {
                        &&& items.len() <= usize::MAX
                        &&& takes_declared(length, c) ==> buffer.len() + items.len() <= total
                        &&& length is ByReference && takes_the_rest(length, c) ==> buffer.len()
                            + items.len() == total
                        &&& faithful_items(
                            *element,
                            items,
                            0,
                            b,
                            counted,
                            total,
                            open_ended(length),
                        )
                    },
                },
                _ => false,
            },
            FieldPolicy::Mapping { key, value, length } => match v {
                ValueView::Mapping(entries) => match count_written(
                    length,
                    entries.len() as usize,
                    buffer,
                    c,
                ) {
                    Err(_) => false,
                    Ok((b, counted)) => {
                        &&& entries.len() <= usize::MAX
                        &&& takes_declared(length, c) ==> buffer.len() + entries.len() <= total
                        &&& length is ByReference && takes_the_rest(length, c) ==> buffer.len()
                            + entries.len() == total
                        &&& faithful_entries(p, entries, 0, b, counted, total, open_ended(length))
                    },
                },
                _ => false,
            },
            FieldPolicy::NestedObject { schema, variant_source, length } => {
                let chosen = with_variant(variant_source, c);
                if open_ended(length) {
                    faithful_schema(*schema, v, buffer, unpublished(chosen), total)
                } else {
                    match schema_written(*schema, v, Seq::empty(), isolated(chosen)) {
                        Err(_) => false,
                        Ok((nested, _)) => {
                            &&& faithful_schema(
                                *schema,
                                v,
                                Seq::empty(),
                                isolated(chosen),
                                nested.len() as int,
                            )
                            &&& takes_the_rest(length, c) ==> end.len() == total
                        },
                    }
                }
            },
            FieldPolicy::Optional { inner, gate } => match v {
                ValueView::Optional(held) => match gate {
                    Gate::Toggle(name) => if c.toggle(name@) == Some(true) {
                        match held {
                            Some(x) => faithful_field(*inner, *x, buffer, c, total),
                            None => false,
                        }
                    } else {
                        held is None
                    },
                    Gate::SpaceAvailable => match held {
                        Some(x) => buffer.len() < total && faithful_field(
                            *inner,
                            *x,
                            buffer,
                            c,
                            total,
                        ),
                        None => buffer.len() == total,
                    },
                },
                _ => false,
            },
            _ => true,
        },
    }
}

/// Whether the items from index `i` on can be read back. The items of an
/// open sequence are read while bytes are left, so each must begin before
/// the end of the buffer and take some bits, and the last must end where
/// the buffer ends.
pub open spec fn faithful_items(
    element: FieldPolicy,
    items: Seq<ValueView>,
    i: int,
    buffer: Seq<u8>,
    c: ConfigView,
    total: int,
    open: bool,
) -> bool
    decreases element, 2nat, items.len() - i,
{
    if i < 0 || i >= items.len() {
        open ==> buffer.len() == total
    } else {
        match field_written(element, items[i], buffer, c) {
            Err(_) => false,
            Ok((b, after)) => {
                &&& faithful_field(element, items[i], buffer, c, total)
                &&& open ==> buffer.len() < total && written_bits(b, after) > written_bits(
                    buffer,
                    c,
                )
                &&& faithful_items(element, items, i + 1, b, after, total, open)
            },
        }
    }
}

/// Whether the entries of a mapping from index `i` on can be read back.
pub open spec fn faithful_entries(
    p: FieldPolicy,
    entries: Seq<(ValueView, ValueView)>,
    i: int,
    buffer: Seq<u8>,
    c: ConfigView,
    total: int,
    open: bool,
) -> bool
    decreases p, 0nat, entries.len() - i,
{
    match p {
        FieldPolicy::Mapping { key, value, length } => if i < 0 || i >= entries.len() {
            open ==> buffer.len() == total
        } else {
            match field_written(*key, entries[i].0, buffer, c) {
                Err(_) => false,
                Ok((b, keyed)) => match field_written(*value, entries[i].1, b, keyed) {
                    Err(_) => false,
                    Ok((b2, after)) => {
                        &&& faithful_field(*key, entries[i].0, buffer, c, total)
                        &&& faithful_field(*value, entries[i].1, b, keyed, total)
                        &&& open ==> buffer.len() < total && written_bits(b2, after)
                            > written_bits(buffer, c)
                        &&& faithful_entries(p, entries, i + 1, b2, after, total, open)
                    },
                },
            }
        },
        _ => false,
    }
}

/// Whether the values of the fields from index `i` on can be read back.
pub open spec fn faithful_fields(
    fields: Seq<FieldSchema>,
    values: Seq<ValueView>,
    i: int,
    buffer: Seq<u8>,
    c: ConfigView,
    total: int,
) -> bool
    decreases fields, 2nat, fields.len() - i,
{
    if i < 0 || i >= fields.len() {
        true
    } else {
        match published(fields[i], values[i], c) {
            None => false,
            Some(told) => match field_written(fields[i].policy, values[i], buffer, told) {
                Err(_) => false,
                Ok((b, after)) => {
                    &&& faithful_field(fields[i].policy, values[i], buffer, told, total)
                    &&& faithful_fields(fields, values, i + 1, b, after, total)
                },
            },
        }
    }
}

/// Whether a record or a tagged union can be read back.
pub open spec fn faithful_schema(
    schema: Schema,
    v: ValueView,
    buffer: Seq<u8>,
    c: ConfigView,
    total: int,
) -> bool
    decreases schema, 1nat, 0nat,
{
    match schema {
        Schema::Record { fields } => match v {
            ValueView::Record(values) => values.len() == fields@.len() && faithful_fields(
                fields@,
                values,
                0,
                buffer,
                c,
                total,
            ),
            _ => false,
        },
        Schema::Union { variants, no_discriminator } => match v {
            ValueView::Union(variant, values) => {
                let taken = ConfigView { discriminator: None, ..c };
                &&& variant < variants@.len()
                &&& values.len() == variants@[variant as int]@.len()
                &&& c.discriminator matches Some(pending) ==> pending == variant
                &&& no_discriminator ==> c.discriminator is Some
                &&& if no_discriminator {
                    faithful_fields(variants@[variant as int]@, values, 0, buffer, taken, total)
                } else {
                    faithful_fields(
                        variants@[variant as int]@,
                        values,
                        0,
                        buffer.push(variant),
                        advanced(taken, 1),
                        total,
                    )
                }
            },
            _ => false,
        },
    }
}

/// Whether the machine word can count the elements of every sequence and
/// the entries of every mapping within `v`.
pub open spec fn countable(v: ValueView) -> bool
    decreases v,
{
    match v {
        ValueView::Sequence(items) => items.len() <= usize::MAX && forall|i: int|
            0 <= i < items.len() ==> countable(#[trigger] items[i]),
        ValueView::Mapping(entries) => entries.len() <= usize::MAX && forall|i: int|
            0 <= i < entries.len() ==> countable((#[trigger] entries[i]).0) && countable(
                entries[i].1,
            ),
        ValueView::Record(values) => forall|i: int|
            0 <= i < values.len() ==> countable(#[trigger] values[i]),
        ValueView::Union(_, values) => forall|i: int|
            0 <= i < values.len() ==> countable(#[trigger] values[i]),
        ValueView::Optional(Some(x)) => countable(*x),
        _ => true,
    }
}

/// Whether the count of a field with this strategy stands in front of the
/// field or in its type.
pub open spec fn counted(length: LengthStrategy) -> bool {
    length is DynamicPrefix || length is Fixed
}

/// Whether a field with the policy `p` delimits itself: it has no gate,
/// it refers to no other field, and what it holds is counted in front of
/// it or in its type, down to the fields of nested objects.
pub open spec fn self_delimiting(p: FieldPolicy) -> bool
    decreases p, 1nat, 0nat,
{
    match p {
        FieldPolicy::VariableBytes { length } => counted(length),
        FieldPolicy::Sequence { element, length } => counted(length) && self_delimiting(*element),
        FieldPolicy::Mapping { key, value, length } => counted(length) && self_delimiting(*key)
            && self_delimiting(*value),
        FieldPolicy::NestedObject { schema, variant_source, length } => {
            &&& variant_source is None
            &&& counted(length) || open_ended(length)
            &&& self_delimiting_schema(*schema)
        },
        FieldPolicy::Optional { .. } => false,
        _ => true,
    }
}

/// Whether every field from index `i` on delimits itself.
pub open spec fn self_delimiting_fields(fields: Seq<FieldSchema>, i: int) -> bool
    decreases fields, 2nat, fields.len() - i,
{
    if i < 0 || i >= fields.len() {
        true
    } else {
        self_delimiting(fields[i].policy) && self_delimiting_fields(fields, i + 1)
    }
}

/// Whether every variant from index `i` on has only fields that delimit
/// themselves.
pub open spec fn self_delimiting_variants(variants: Seq<Vec<FieldSchema>>, i: int) -> bool
    decreases variants, 3nat, variants.len() - i,
{
    if i < 0 || i >= variants.len() {
        true
    } else {
        self_delimiting_fields(variants[i]@, 0) && self_delimiting_variants(variants, i + 1)
    }
}

/// Whether every field of a record, or of every variant of a tagged union
/// with a discriminant byte, delimits itself.
pub open spec fn self_delimiting_schema(schema: Schema) -> bool
    decreases schema, 1nat, 0nat,
{
    match schema {
        Schema::Record { fields } => self_delimiting_fields(fields@, 0),
        Schema::Union { variants, no_discriminator } => !no_discriminator
            && self_delimiting_variants(variants@, 0),
    }
}

/// The machine word can count the elements of every sequence within a
/// value that a program holds.
pub proof fn lemma_view_countable(value: Value)
    ensures
        countable(value@),
    decreases value,
{
    match value {
        Value::Sequence(items) => {
            lemma_views_of(items@);
            assert(items@.len() == items.len());
            assert forall|i: int| 0 <= i < items@.len() implies countable(
                #[trigger] crate::value::views_of(items@)[i],
            ) by {
                lemma_view_countable(items@[i]);
            }
        },
        Value::Mapping(entries) => {
            lemma_entry_views_of(entries@);
            assert(entries@.len() == entries.len());
            assert forall|i: int| 0 <= i < entries@.len() implies countable(
                (#[trigger] crate::value::entry_views_of(entries@)[i]).0,
            ) && countable(crate::value::entry_views_of(entries@)[i].1) by {
                lemma_view_countable(entries@[i].0);
                lemma_view_countable(entries@[i].1);
            }
        },
        Value::Record(fields) => {
            lemma_views_of(fields@);
            assert forall|i: int| 0 <= i < fields@.len() implies countable(
                #[trigger] crate::value::views_of(fields@)[i],
            ) by {
                lemma_view_countable(fields@[i]);
            }
        },
        Value::Union(variant, fields) => {
            lemma_views_of(fields@);
            assert forall|i: int| 0 <= i < fields@.len() implies countable(
                #[trigger] crate::value::views_of(fields@)[i],
            ) by {
                lemma_view_countable(fields@[i]);
            }
        },
        Value::Optional(Some(inner)) => {
            lemma_view_countable(*inner);
        },
        _ => {},
    }
}

/// What the write of a field that delimits itself yields is faithful to
/// any buffer, and leaves no variant index pending.
pub open spec fn plainly_written(w: Written, faithful: bool) -> bool {
    w matches Ok((_, c2)) && c2.discriminator is None && faithful
}

/// A value that is written for a field that delimits itself is faithful to
/// any buffer.
#[verifier::rlimit(40)]
pub proof fn lemma_plain_field(
    p: FieldPolicy,
    v: ValueView,
    buffer: Seq<u8>,
    c: ConfigView,
    total: int,
)
    requires
        self_delimiting(p),
        countable(v),
        c.discriminator is None,
        field_written(p, v, buffer, c) is Ok,
    ensures
        plainly_written(field_written(p, v, buffer, c), faithful_field(p, v, buffer, c, total)),
    decreases p, 1nat, 0nat,
{
    match p {
        FieldPolicy::VariableBytes { length } => {
            match v {
                ValueView::Text(text) => {
                    let raw = vstd::utf8::encode_utf8(text);
                    lemma_count_extends(length, raw.len() as usize, buffer, c.aligned(false));
                },
                _ => {},
            }
        },
        FieldPolicy::Sequence { element, length } => {
            match v {
                ValueView::Sequence(items) => {
                    lemma_count_extends(length, items.len() as usize, buffer, c);
                    let (b, counted) = count_written(length, items.len() as usize, buffer, c)->Ok_0;
                    lemma_plain_items(*element, items, 0, b, counted, total);
                },
                _ => {},
            }
        },
        FieldPolicy::Mapping { key, value, length } => {
            match v {
                ValueView::Mapping(entries) => {
                    lemma_count_extends(length, entries.len() as usize, buffer, c);
                    let (b, counted) = count_written(
                        length,
                        entries.len() as usize,
                        buffer,
                        c,
                    )->Ok_0;
                    lemma_plain_entries(p, entries, 0, b, counted, total);
                },
                _ => {},
            }
        },
        FieldPolicy::NestedObject { schema, variant_source, length } => {
            if open_ended(length) {
                lemma_plain_schema(*schema, v, buffer, unpublished(c), total);
            } else {
                let (nested, _) = schema_written(*schema, v, Seq::empty(), isolated(c))->Ok_0;
                lemma_plain_schema(*schema, v, Seq::empty(), isolated(c), nested.len() as int);
                lemma_count_extends(
                    length,
                    nested.len() as usize,
                    buffer,
                    ConfigView { discriminator: None, ..c.aligned(false) },
                );
            }
        },
        _ => {},
    }
}

/// The items of a sequence whose elements delimit themselves are faithful
/// to any buffer.
#[verifier::rlimit(40)]
pub proof fn lemma_plain_items(
    element: FieldPolicy,
    items: Seq<ValueView>,
    i: int,
    buffer: Seq<u8>,
    c: ConfigView,
    total: int,
)
    requires
        self_delimiting(element),
        forall|j: int| 0 <= j < items.len() ==> countable(#[trigger] items[j]),
        c.discriminator is None,
        items_written(element, items, i, buffer, c) is Ok,
    ensures
        plainly_written(
            items_written(element, items, i, buffer, c),
            faithful_items(element, items, i, buffer, c, total, false),
        ),
    decreases element, 2nat, items.len() - i,
{
    if 0 <= i < items.len() {
        lemma_plain_field(element, items[i], buffer, c, total);
        let (b, after) = field_written(element, items[i], buffer, c)->Ok_0;
        lemma_plain_items(element, items, i + 1, b, after, total);
    }
}

/// The entries of a mapping whose keys and values delimit themselves are
/// faithful to any buffer.
#[verifier::rlimit(40)]
pub proof fn lemma_plain_entries(
    p: FieldPolicy,
    entries: Seq<(ValueView, ValueView)>,
    i: int,
    buffer: Seq<u8>,
    c: ConfigView,
    total: int,
)
    requires
        p is Mapping,
        self_delimiting(p),
        forall|j: int|
            0 <= j < entries.len() ==> countable((#[trigger] entries[j]).0) && countable(
                entries[j].1,
            ),
        c.discriminator is None,
        entries_written(p, entries, i, buffer, c) is Ok,
    ensures
        plainly_written(
            entries_written(p, entries, i, buffer, c),
            faithful_entries(p, entries, i, buffer, c, total, false),
        ),
    decreases p, 0nat, entries.len() - i,
{
    if 0 <= i < entries.len() {
        lemma_plain_field(*p->key, entries[i].0, buffer, c, total);
        let (b, keyed) = field_written(*p->key, entries[i].0, buffer, c)->Ok_0;
        lemma_plain_field(*p->value, entries[i].1, b, keyed, total);
        let (b1, after) = field_written(*p->value, entries[i].1, b, keyed)->Ok_0;
        lemma_plain_entries(p, entries, i + 1, b1, after, total);
    }
}

/// The values of fields that delimit themselves are faithful to any
/// buffer.
#[verifier::rlimit(40)]
pub proof fn lemma_plain_fields(
    fields: Seq<FieldSchema>,
    values: Seq<ValueView>,
    i: int,
    buffer: Seq<u8>,
    c: ConfigView,
    total: int,
)
    requires
        0 <= i,
        values.len() == fields.len(),
        self_delimiting_fields(fields, i),
        forall|j: int| 0 <= j < values.len() ==> countable(#[trigger] values[j]),
        c.discriminator is None,
        fields_written(fields, values, i, buffer, c) is Ok,
    ensures
        plainly_written(
            fields_written(fields, values, i, buffer, c),
            faithful_fields(fields, values, i, buffer, c, total),
        ),
    decreases fields, 2nat, fields.len() - i,
{
    if i < fields.len() {
        let told = published(fields[i], values[i], c)->Some_0;
        lemma_published_reader(fields[i], values[i], c, c);
        lemma_plain_field(fields[i].policy, values[i], buffer, told, total);
        let (b, after) = field_written(fields[i].policy, values[i], buffer, told)->Ok_0;
        lemma_plain_fields(fields, values, i + 1, b, after, total);
    }
}

/// Every variant of a tagged union whose variants delimit themselves has
/// fields that delimit themselves.
pub proof fn lemma_variant_delimits(variants: Seq<Vec<FieldSchema>>, i: int, k: int)
    requires
        0 <= i <= k < variants.len(),
        self_delimiting_variants(variants, i),
    ensures
        self_delimiting_fields(variants[k]@, 0),
    decreases k - i,
{
    if i < k {
        lemma_variant_delimits(variants, i + 1, k);
    }
}

/// A record or a tagged union whose fields delimit themselves is faithful
/// to any buffer.
#[verifier::rlimit(40)]
pub proof fn lemma_plain_schema(
    schema: Schema,
    v: ValueView,
    buffer: Seq<u8>,
    c: ConfigView,
    total: int,
)
    requires
        self_delimiting_schema(schema),
        countable(v),
        c.discriminator is None,
        schema_written(schema, v, buffer, c) is Ok,
    ensures
        plainly_written(
            schema_written(schema, v, buffer, c),
            faithful_schema(schema, v, buffer, c, total),
        ),
    decreases schema, 1nat, 0nat,
{
    match schema {
        Schema::Record { fields } => {
            match v {
                ValueView::Record(values) => {
                    lemma_plain_fields(fields@, values, 0, buffer, c, total);
                },
                _ => {},
            }
        },
        Schema::Union { variants, no_discriminator } => {
            match v {
                ValueView::Union(variant, values) => {
                    lemma_variant_delimits(variants@, 0, variant as int);
                    lemma_plain_fields(
                        variants@[variant as int]@,
                        values,
                        0,
                        buffer.push(variant),
                        advanced(ConfigView { discriminator: None, ..c }, 1),
                        total,
                    );
                },
                _ => {},
            }
        },
    }
}

/// Finds out whether a field with this policy delimits itself.
pub fn delimits_itself(policy: &FieldPolicy) -> (res: bool)
    ensures
        res == self_delimiting(*policy),
    decreases *policy, 1nat, 0nat,
{
    match policy {
        FieldPolicy::VariableBytes { length } => is_counted(length),
        FieldPolicy::Sequence { element, length } => is_counted(length) && delimits_itself(
            &**element,
        ),
        FieldPolicy::Mapping { key, value, length } => is_counted(length) && delimits_itself(
            &**key,
        ) && delimits_itself(&**value),
        FieldPolicy::NestedObject { schema, variant_source, length } => {
            let framed = match length {
                LengthStrategy::ByReference(_) => false,
                _ => true,
            };
            variant_source.is_none() && framed && schema_delimits_itself(&**schema)
        },
        FieldPolicy::Optional { .. } => false,
        _ => true,
    }
}

/// Finds out whether the count of a field with this strategy stands in
/// front of the field or in its type.
pub fn is_counted(length: &LengthStrategy) -> (res: bool)
    ensures
        res == counted(*length),
{
    match length {
        LengthStrategy::DynamicPrefix => true,
        LengthStrategy::Fixed(_) => true,
        _ => false,
    }
}

/// Finds out whether every field delimits itself.
pub fn fields_delimit_themselves(fields: &Vec<FieldSchema>) -> (res: bool)
    ensures
        res == self_delimiting_fields(fields@, 0),
    decreases fields@, 3nat, 0nat,
{
    let mut i: usize = fields.len();
    while i > 0
        invariant
            i <= fields@.len(),
            self_delimiting_fields(fields@, i as int),
        decreases i,
    {
        i = i - 1;
        if !delimits_itself(&fields[i].policy) {
            proof {
                lemma_field_does_not_delimit(fields@, 0, i as int);
            }
            return false;
        }
    }
    true
}

/// Where one field does not delimit itself, the fields do not.
pub proof fn lemma_field_does_not_delimit(fields: Seq<FieldSchema>, i: int, k: int)
    requires
        0 <= i <= k < fields.len(),
        !self_delimiting(fields[k].policy),
    ensures
        !self_delimiting_fields(fields, i),
    decreases k - i,
{
    if i < k {
        lemma_field_does_not_delimit(fields, i + 1, k);
    }
}

/// Where the fields of one variant do not delimit themselves, the variants
/// do not.
pub proof fn lemma_variant_does_not_delimit(variants: Seq<Vec<FieldSchema>>, i: int, k: int)
    requires
        0 <= i <= k < variants.len(),
        !self_delimiting_fields(variants[k]@, 0),
    ensures
        !self_delimiting_variants(variants, i),
    decreases k - i,
{
    if i < k {
        lemma_variant_does_not_delimit(variants, i + 1, k);
    }
}

/// Finds out whether every variant has only fields that delimit
/// themselves.
pub fn variants_delimit_themselves(variants: &Vec<Vec<FieldSchema>>) -> (res: bool)
    ensures
        res == self_delimiting_variants(variants@, 0),
    decreases variants@, 4nat, 0nat,
{
    let mut i: usize = variants.len();
    while i > 0
        invariant
            i <= variants@.len(),
            self_delimiting_variants(variants@, i as int),
        decreases i,
    {
        i = i - 1;
        if !fields_delimit_themselves(&variants[i]) {
            proof {
                lemma_variant_does_not_delimit(variants@, 0, i as int);
            }
            return false;
        }
    }
    true
}

/// Finds out whether every field of a record, or of every variant of a
/// tagged union with a discriminant byte, delimits itself. Every value of
/// such a type that can be written reads back.
pub fn schema_delimits_itself(schema: &Schema) -> (res: bool)
    ensures
        res == self_delimiting_schema(*schema),
    decreases *schema, 1nat, 0nat,
{
    match schema {
        Schema::Record { fields } => fields_delimit_themselves(fields),
        Schema::Union { variants, no_discriminator } => !*no_discriminator
            && variants_delimit_themselves(variants),
    }
}

} // verus!
