//! Field by field, what is written reads back.

use vstd::prelude::*;
use vstd::arithmetic::power2::lemma2_to64;
use crate::config::ConfigView;
use crate::dyn_int::{dyn_written, lemma_encoding_len_u128};
use crate::dynamics::{highest_unsigned, valid_width};
use crate::encodings::{be_bytes, pow256, zigzag_inverse, zigzag_of, ZigZag};
use crate::fixed_int::{advanced, fixed_read};
use crate::laws::agreement::{
    agrees, lemma_agrees_earlier, lemma_agrees_itself, lemma_append_extends,
    lemma_appended_read_back, lemma_bits_read_back, lemma_dynint_read_back, lemma_fixed_read_back,
    reader_of, steady,
};
use crate::laws::extension::{
    lemma_agrees_before, lemma_count_extends, lemma_entries_extends, lemma_field_extends,
    lemma_fields_extends, lemma_items_extends, lemma_schema_extends,
};
use crate::laws::faithful::{
    counted, faithful_entries, faithful_field, faithful_fields, faithful_items, faithful_schema,
    takes_declared, takes_the_rest, written_bits,
};
use crate::policy::{ByteWidth, FieldPolicy, FieldSchema, Gate, IntKind, LengthStrategy, Schema};
use crate::record::{
    bit_position, count_read, count_written, entries_read, entries_read_open, entries_written,
    field_read, field_written, fields_read, fields_written, isolated, items_read, items_read_open,
    items_written, narrowed, open_ended, published, republished, schema_read, schema_written,
    signed_fits, text_read, text_written, unpublished, unsigned_fits, with_variant, Parsed, Written,
};
use crate::utils::{dynamic_key, remaining, sliced};
use crate::value::ValueView;
use crate::{DeserializationErrorView, SerializationErrorView};

verus! {

/// The limit of a width is 256 to the power of its bytes.
pub proof fn lemma_limit_is_power(width: ByteWidth)
    ensures
        width.limit() == pow256(width.bytes()),
{
    reveal_with_fuel(pow256, 17);
}

/// The zig-zag image of a number of a signed type is a number of the
/// unsigned type of the same width.
pub proof fn lemma_zigzag_fits(x: i128, width: ByteWidth)
    requires
        signed_fits(x, width),
    ensures
        zigzag_of(x as int) < width.limit(),
        zigzag_inverse(zigzag_of(x as int)) == x,
{
}

/// What reading a field yields is the value `v` and the state of a reader
/// behind what `w` has written.
pub open spec fn read_back(r: Parsed<ValueView>, v: ValueView, w: Written) -> bool {
    w matches Ok((b2, c2)) && r == Ok::<(ValueView, ConfigView), DeserializationErrorView>(
        (v, reader_of(b2, c2)),
    )
}

/// The range of a signed packed field maps onto the range of the unsigned
/// field of the same width.
pub proof fn lemma_packed_zigzag(x: i8, bit_count: u8)
    requires
        valid_width(bit_count),
        crate::dynamics::lowest_signed(bit_count) <= x <= crate::dynamics::highest_signed(
            bit_count,
        ),
    ensures
        x.zigzag() <= highest_unsigned(bit_count),
        i8::unzigzag(x.zigzag()) == x,
{
    lemma2_to64();
    assert(bit_count == 1 || bit_count == 2 || bit_count == 3 || bit_count == 4 || bit_count == 5
        || bit_count == 6 || bit_count == 7);
}

/// A flag reads back, whatever is written behind it.
pub proof fn lemma_bool_read_back(v: ValueView, buffer: Seq<u8>, c: ConfigView, full: Seq<u8>)
    requires
        steady(buffer, c),
        full.len() <= usize::MAX,
        field_written(FieldPolicy::Bool, v, buffer, c) matches Ok((b2, c2)) && agrees(
            full,
            b2,
            c2.bits,
        ),
    ensures
        read_back(
            field_read(FieldPolicy::Bool, full, reader_of(buffer, c)),
            v,
            field_written(FieldPolicy::Bool, v, buffer, c),
        ),
{
    match v {
        ValueView::Bool(b) => {
            assert(highest_unsigned(1) == 1) by {
                lemma2_to64();
            }
            lemma_bits_read_back(
                buffer,
                c,
                if b {
                    1u8
                } else {
                    0u8
                },
                1,
                full,
            );
        },
        _ => {},
    }
}

/// An integer in a packed field reads back, whatever is written behind it.
pub proof fn lemma_packed_read_back(
    p: FieldPolicy,
    v: ValueView,
    buffer: Seq<u8>,
    c: ConfigView,
    full: Seq<u8>,
)
    requires
        p is PackedBits,
        steady(buffer, c),
        full.len() <= usize::MAX,
        field_written(p, v, buffer, c) matches Ok((b2, c2)) && agrees(full, b2, c2.bits),
    ensures
        read_back(field_read(p, full, reader_of(buffer, c)), v, field_written(p, v, buffer, c)),
{
    match p {
        FieldPolicy::PackedBits { bits, signed } => {
            let w = bits.bits();
            match v {
                ValueView::Signed(x) => {
                    lemma_packed_zigzag(x as i8, w);
                    lemma_bits_read_back(buffer, c, (x as i8).zigzag(), w, full);
                },
                ValueView::Unsigned(n) => {
                    lemma_bits_read_back(buffer, c, n as u8, w, full);
                },
                _ => {},
            }
        },
        _ => {},
    }
}

/// An unsigned integer of fixed width reads back, whatever is written
/// behind it.
pub proof fn lemma_unsigned_read_back(
    width: ByteWidth,
    n: u128,
    buffer: Seq<u8>,
    c: ConfigView,
    full: Seq<u8>,
)
    requires
        steady(buffer, c),
        full.len() <= usize::MAX,
        unsigned_fits(n, width),
        agrees(full, buffer + be_bytes(n as nat, width.bytes()), 0),
    ensures
        read_back(
            field_read(FieldPolicy::FixedInt { width }, full, reader_of(buffer, c)),
            ValueView::Unsigned(n),
            crate::record::fixed_written(n as nat, width, buffer, c),
        ),
{
    lemma_limit_is_power(width);
    lemma_fixed_read_back(buffer, c, n as nat, width.bytes(), full);
    assert(fixed_read(full, reader_of(buffer, c), width.bytes() as usize) is Ok);
}

/// A signed integer of fixed width reads back, whatever is written behind
/// it.
pub proof fn lemma_signed_read_back(
    width: ByteWidth,
    x: i128,
    buffer: Seq<u8>,
    c: ConfigView,
    full: Seq<u8>,
)
    requires
        steady(buffer, c),
        full.len() <= usize::MAX,
        signed_fits(x, width),
        agrees(full, buffer + be_bytes(zigzag_of(x as int), width.bytes()), 0),
    ensures
        read_back(
            field_read(FieldPolicy::ZigZag { width }, full, reader_of(buffer, c)),
            ValueView::Signed(x),
            crate::record::fixed_written(zigzag_of(x as int), width, buffer, c),
        ),
{
    lemma_limit_is_power(width);
    lemma_zigzag_fits(x, width);
    lemma_fixed_read_back(buffer, c, zigzag_of(x as int), width.bytes(), full);
    assert(fixed_read(full, reader_of(buffer, c), width.bytes() as usize) is Ok);
}

/// A number of a declared type is the number that it is narrowed to.
pub proof fn lemma_narrowed(kind: IntKind, n: nat)
    requires
        n < kind.width().limit(),
    ensures
        n % kind.width().limit() == n,
{
    vstd::arithmetic::div_mod::lemma_small_mod(n, kind.width().limit());
}

/// An integer of variable length reads back, whatever is written behind
/// it.
#[verifier::rlimit(40)]
pub proof fn lemma_dynamic_read_back(
    kind: IntKind,
    v: ValueView,
    buffer: Seq<u8>,
    c: ConfigView,
    full: Seq<u8>,
)
    requires
        steady(buffer, c),
        full.len() <= usize::MAX,
        field_written(FieldPolicy::DynInt { kind }, v, buffer, c) matches Ok((b2, c2)) && agrees(
            full,
            b2,
            c2.bits,
        ),
    ensures
        read_back(
            field_read(FieldPolicy::DynInt { kind }, full, reader_of(buffer, c)),
            v,
            field_written(FieldPolicy::DynInt { kind }, v, buffer, c),
        ),
{
    match v {
        ValueView::Signed(x) => {
            assert(kind.signed());
            lemma_zigzag_fits(x, kind.width());
            let n = zigzag_of(x as int);
            assert(n <= u128::MAX);
            lemma_dynint_read_back(buffer, c, n as u128, full);
            lemma_narrowed(kind, n);
            assert(narrowed(n as u128, kind) == v);
        },
        ValueView::Unsigned(n) => {
            assert(!kind.signed());
            lemma_dynint_read_back(buffer, c, n, full);
            lemma_narrowed(kind, n as nat);
            assert(narrowed(n, kind) == v);
        },
        _ => {},
    }
}

/// An integer of fixed width or of variable length reads back, whatever is
/// written behind it.
pub proof fn lemma_integer_read_back(
    p: FieldPolicy,
    v: ValueView,
    buffer: Seq<u8>,
    c: ConfigView,
    full: Seq<u8>,
)
    requires
        p is FixedInt || p is ZigZag || p is DynInt,
        steady(buffer, c),
        full.len() <= usize::MAX,
        field_written(p, v, buffer, c) matches Ok((b2, c2)) && agrees(full, b2, c2.bits),
    ensures
        read_back(field_read(p, full, reader_of(buffer, c)), v, field_written(p, v, buffer, c)),
{
    match p {
        FieldPolicy::FixedInt { width } => {
            match v {
                ValueView::Unsigned(n) => {
                    lemma_unsigned_read_back(width, n, buffer, c, full);
                },
                _ => {},
            }
        },
        FieldPolicy::ZigZag { width } => {
            match v {
                ValueView::Signed(x) => {
                    lemma_signed_read_back(width, x, buffer, c, full);
                },
                _ => {},
            }
        },
        FieldPolicy::DynInt { kind } => {
            lemma_dynamic_read_back(kind, v, buffer, c, full);
        },
        _ => {},
    }
}

/// The count of a variable-length field reads back: the count that was
/// written or checked is the count that is found, and the cursor of the
/// reader is behind what was written for it.
#[verifier::rlimit(40)]
pub proof fn lemma_count_read_back(
    length: LengthStrategy,
    count: usize,
    buffer: Seq<u8>,
    c: ConfigView,
    aligned: bool,
    full: Seq<u8>,
)
    requires
        steady(buffer, c),
        full.len() <= usize::MAX,
        count_written(
            length,
            count,
            buffer,
            if aligned {
                c.aligned(false)
            } else {
                c
            },
        ) matches Ok((b, sized)) && agrees(full, b, sized.bits),
        takes_declared(length, c) ==> buffer.len() + count <= full.len(),
        takes_the_rest(length, c) ==> buffer.len() + count == full.len(),
    ensures
        count_read(length, full, reader_of(buffer, c)) matches Ok((found_count, found)) && {
            let (b, sized) = count_written(
                length,
                count,
                buffer,
                if aligned {
                    c.aligned(false)
                } else {
                    c
                },
            )->Ok_0;
            &&& found_count == count
            &&& found.aligned(true) == (ConfigView { pos: b.len() as usize, bits: 0, ..c })
            &&& !aligned ==> found == reader_of(b, sized)
            &&& found == (ConfigView { pos: found.pos, bits: found.bits, ..c })
        },
{
    let w = if aligned {
        c.aligned(false)
    } else {
        c
    };
    let (b, sized) = count_written(length, count, buffer, w)->Ok_0;
    let r = reader_of(buffer, c);
    assert(r.logical_pos() == buffer.len());
    match length {
        LengthStrategy::Fixed(n) => {},
        _ => {
            if length.key() == Some(dynamic_key()) {
                assert(b == buffer + dyn_written(count as nat));
                lemma_dynint_read_back(buffer, c, count as u128, full);
                lemma_encoding_len_u128(count as u128);
            } else {
                assert(b == buffer);
                assert(remaining(r, full.len() as int) == full.len() - buffer.len());
            }
        },
    }
}

/// A text reads back, whatever is written behind it.
#[verifier::rlimit(40)]
pub proof fn lemma_text_read_back(
    text: Seq<char>,
    length: LengthStrategy,
    buffer: Seq<u8>,
    c: ConfigView,
    full: Seq<u8>,
)
    requires
        steady(buffer, c),
        full.len() <= usize::MAX,
        text_written(text, length, buffer, c) matches Ok((b2, c2)) && agrees(full, b2, c2.bits),
        takes_the_rest(length, c) ==> text_written(text, length, buffer, c)->Ok_0.0.len()
            == full.len(),
    ensures
        text_read(length, full, reader_of(buffer, c)) == Ok::<
            (ValueView, ConfigView),
            DeserializationErrorView,
        >(
            (
                ValueView::Text(text),
                reader_of(
                    text_written(text, length, buffer, c)->Ok_0.0,
                    text_written(text, length, buffer, c)->Ok_0.1,
                ),
            ),
        ),
{
    let raw = vstd::utf8::encode_utf8(text);
    let (b2, c2) = text_written(text, length, buffer, c)->Ok_0;
    let start = c.aligned(false);
    let (b, sized) = count_written(length, raw.len() as usize, buffer, start)->Ok_0;
    lemma_count_extends(length, raw.len() as usize, buffer, start);
    assert(b2 == b + raw);
    assert(b.len() >= buffer.len());
    assert(raw.len() <= usize::MAX);
    assert(steady(buffer, start));
    assert(steady(b, sized));
    lemma_append_extends(b, sized, raw);
    lemma_agrees_earlier(full, b2, 0, b, sized.bits);
    lemma_count_read_back(length, raw.len() as usize, buffer, c, true, full);
    lemma_appended_read_back(b, sized, raw, full);
    vstd::utf8::encode_utf8_valid_utf8(text);
    vstd::utf8::encode_utf8_decode_utf8(text);
}

/// A policy for a flag or an integer.
pub open spec fn scalar(p: FieldPolicy) -> bool {
    p is Bool || p is PackedBits || p is FixedInt || p is ZigZag || p is DynInt
}

/// `d` is `c` but for what is published and pending.
pub open spec fn same_cursor(c: ConfigView, d: ConfigView) -> bool {
    c.pos == d.pos && c.bits == d.bits
}

/// What is written for a flag or an integer does not depend on what is
/// published, and leaves what is published as it is.
pub proof fn lemma_scalar_frame(
    p: FieldPolicy,
    v: ValueView,
    buffer: Seq<u8>,
    c: ConfigView,
    d: ConfigView,
)
    requires
        scalar(p),
        same_cursor(c, d),
    ensures
        field_written(p, v, buffer, c) is Ok <==> field_written(p, v, buffer, d) is Ok,
        field_written(p, v, buffer, c) matches Ok((b, after)) ==> field_written(p, v, buffer, d)
            == Ok::<(Seq<u8>, ConfigView), SerializationErrorView>(
            (b, ConfigView { pos: after.pos, bits: after.bits, ..d }),
        ) && after == (ConfigView { pos: after.pos, bits: after.bits, ..c }),
{
}

/// A value is published for a reader as it is for a writer.
pub proof fn lemma_published_reader(field: FieldSchema, v: ValueView, c: ConfigView, r: ConfigView)
    requires
        r.toggles == c.toggles,
        r.lengths == c.lengths,
        r.variants == c.variants,
    ensures
        published(field, v, c) is Some <==> published(field, v, r) is Some,
        published(field, v, c) matches Some(told) ==> published(field, v, r) == Some(
            ConfigView {
                toggles: told.toggles,
                lengths: told.lengths,
                variants: told.variants,
                ..r
            },
        ) && told == (ConfigView {
            toggles: told.toggles,
            lengths: told.lengths,
            variants: told.variants,
            ..c
        }),
{
}

/// A field whose policy is not for a flag or an integer, and whose value
/// is published and written, declares no name to publish it under.
pub proof fn lemma_published_is_scalar(
    field: FieldSchema,
    v: ValueView,
    buffer: Seq<u8>,
    c: ConfigView,
)
    requires
        published(field, v, c) matches Some(told) && field_written(field.policy, v, buffer, told)
            is Ok,
        !scalar(field.policy),
    ensures
        field.toggles is None,
        field.length_for is None,
        field.variant_for is None,
{
    let told = published(field, v, c)->Some_0;
    match field.policy {
        FieldPolicy::NestedObject { schema, variant_source, length } => {
            assert(v is Record || v is Union) by {
                let chosen = with_variant(variant_source, told);
                if open_ended(length) {
                    assert(schema_written(*schema, v, buffer, unpublished(chosen)) is Ok);
                } else {
                    assert(schema_written(*schema, v, Seq::empty(), isolated(chosen)) is Ok);
                }
            }
        },
        _ => {},
    }
}

/// The value of a field reads back from any buffer that holds what was
/// written, provided that the value is faithful to that buffer.
#[verifier::rlimit(40)]
pub proof fn lemma_field_read_back(
    p: FieldPolicy,
    v: ValueView,
    buffer: Seq<u8>,
    c: ConfigView,
    full: Seq<u8>,
)
    requires
        steady(buffer, c),
        buffer.len() <= full.len() <= usize::MAX,
        field_written(p, v, buffer, c) matches Ok((b2, c2)) && agrees(full, b2, c2.bits),
        faithful_field(p, v, buffer, c, full.len() as int),
    ensures
        read_back(field_read(p, full, reader_of(buffer, c)), v, field_written(p, v, buffer, c)),
    decreases p, 3nat, 0nat,
{
    match p {
        FieldPolicy::Bool => {
            lemma_bool_read_back(v, buffer, c, full);
        },
        FieldPolicy::PackedBits { .. } => {
            lemma_packed_read_back(p, v, buffer, c, full);
        },
        FieldPolicy::FixedInt { .. } | FieldPolicy::ZigZag { .. } | FieldPolicy::DynInt { .. } => {
            lemma_integer_read_back(p, v, buffer, c, full);
        },
        FieldPolicy::VariableBytes { length } => {
            match v {
                ValueView::Text(text) => {
                    lemma_text_read_back(text, length, buffer, c, full);
                },
                _ => {},
            }
        },
        FieldPolicy::Sequence { .. } => {
            lemma_sequence_read_back(p, v, buffer, c, full);
        },
        FieldPolicy::Mapping { .. } => {
            lemma_mapping_read_back(p, v, buffer, c, full);
        },
        FieldPolicy::NestedObject { schema, variant_source, length } => {
            if open_ended(length) {
                lemma_shared_read_back(p, v, buffer, c, full);
            } else {
                lemma_isolated_read_back(p, v, buffer, c, full);
            }
        },
        FieldPolicy::Optional { .. } => {
            lemma_optional_read_back(p, v, buffer, c, full);
        },
    }
}

/// An optional value reads back.
#[verifier::rlimit(40)]
pub proof fn lemma_optional_read_back(
    p: FieldPolicy,
    v: ValueView,
    buffer: Seq<u8>,
    c: ConfigView,
    full: Seq<u8>,
)
    requires
        p is Optional,
        steady(buffer, c),
        buffer.len() <= full.len() <= usize::MAX,
        field_written(p, v, buffer, c) matches Ok((b2, c2)) && agrees(full, b2, c2.bits),
        faithful_field(p, v, buffer, c, full.len() as int),
    ensures
        read_back(field_read(p, full, reader_of(buffer, c)), v, field_written(p, v, buffer, c)),
    decreases p, 2nat, 0nat,
{
    let r = reader_of(buffer, c);
    assert(r.logical_pos() == buffer.len());
    match p {
        FieldPolicy::Optional { inner, gate } => {
            match v {
                ValueView::Optional(held) => {
                    let present = match gate {
                        Gate::Toggle(name) => c.toggle(name@) == Some(true),
                        Gate::SpaceAvailable => held is Some,
                    };
                    assert(r.toggles == c.toggles);
                    match gate {
                        Gate::Toggle(name) => {
                            assert(r.toggle(name@) == c.toggle(name@));
                        },
                        Gate::SpaceAvailable => {},
                    }
                    if present {
                        let x = held->Some_0;
                        lemma_field_read_back(*inner, *x, buffer, c, full);
                        assert(ValueView::Optional(Some(Box::new(*x))) == v);
                    }
                },
                _ => {},
            }
        },
        _ => {},
    }
}

/// A sequence reads back.
#[verifier::rlimit(40)]
pub proof fn lemma_sequence_read_back(
    p: FieldPolicy,
    v: ValueView,
    buffer: Seq<u8>,
    c: ConfigView,
    full: Seq<u8>,
)
    requires
        p is Sequence,
        steady(buffer, c),
        buffer.len() <= full.len() <= usize::MAX,
        field_written(p, v, buffer, c) matches Ok((b2, c2)) && agrees(full, b2, c2.bits),
        faithful_field(p, v, buffer, c, full.len() as int),
    ensures
        read_back(field_read(p, full, reader_of(buffer, c)), v, field_written(p, v, buffer, c)),
    decreases p, 2nat, 0nat,
{
    match p {
        FieldPolicy::Sequence { element, length } => {
            match v {
                ValueView::Sequence(items) => {
                    let n = items.len() as usize;
                    let (b, counted) = count_written(length, n, buffer, c)->Ok_0;
                    let w = items_written(*element, items, 0, b, counted);
                    lemma_count_extends(length, n, buffer, c);
                    lemma_items_extends(*element, items, 0, b, counted);
                    assert(steady(b, counted));
                    lemma_agrees_before(full, b, counted, w);
                    assert(items.subrange(0, items.len() as int) =~= items);
                    if open_ended(length) {
                        lemma_items_read_back(*element, items, 0, b, counted, full, true);
                    } else {
                        lemma_count_read_back(length, n, buffer, c, false, full);
                        lemma_items_read_back(*element, items, 0, b, counted, full, false);
                    }
                },
                _ => {},
            }
        },
        _ => {},
    }
}

/// The items of a sequence read back from index `i` on.
#[verifier::rlimit(40)]
pub proof fn lemma_items_read_back(
    element: FieldPolicy,
    items: Seq<ValueView>,
    i: int,
    buffer: Seq<u8>,
    c: ConfigView,
    full: Seq<u8>,
    open: bool,
)
    requires
        0 <= i <= items.len(),
        steady(buffer, c),
        buffer.len() <= full.len() <= usize::MAX,
        items_written(element, items, i, buffer, c) matches Ok((b2, c2)) && agrees(
            full,
            b2,
            c2.bits,
        ),
        faithful_items(element, items, i, buffer, c, full.len() as int, open),
    ensures
        items_written(element, items, i, buffer, c) matches Ok((b2, c2)) && (if open {
            items_read_open(element, full, reader_of(buffer, c))
        } else {
            items_read(element, full, reader_of(buffer, c), (items.len() - i) as nat)
        }) == Ok::<(Seq<ValueView>, ConfigView), DeserializationErrorView>(
            (items.subrange(i, items.len() as int), reader_of(b2, c2)),
        ),
    decreases element, 4nat, items.len() - i,
{
    let r = reader_of(buffer, c);
    assert(r.logical_pos() == buffer.len());
    let n = items.len() as int;
    if i >= items.len() {
        assert(items.subrange(i, n) =~= Seq::<ValueView>::empty());
    } else {
        let (b, after) = field_written(element, items[i], buffer, c)->Ok_0;
        let w = items_written(element, items, i + 1, b, after);
        lemma_field_extends(element, items[i], buffer, c);
        lemma_items_extends(element, items, i + 1, b, after);
        assert(steady(b, after));
        lemma_agrees_before(full, b, after, w);
        lemma_field_read_back(element, items[i], buffer, c, full);
        lemma_items_read_back(element, items, i + 1, b, after, full, open);
        assert(seq![items[i]] + items.subrange(i + 1, n) =~= items.subrange(i, n));
        assert(bit_position(reader_of(b, after)) == written_bits(b, after));
        assert(bit_position(r) == written_bits(buffer, c));
    }
}

/// A mapping reads back.
#[verifier::rlimit(40)]
pub proof fn lemma_mapping_read_back(
    p: FieldPolicy,
    v: ValueView,
    buffer: Seq<u8>,
    c: ConfigView,
    full: Seq<u8>,
)
    requires
        p is Mapping,
        steady(buffer, c),
        buffer.len() <= full.len() <= usize::MAX,
        field_written(p, v, buffer, c) matches Ok((b2, c2)) && agrees(full, b2, c2.bits),
        faithful_field(p, v, buffer, c, full.len() as int),
    ensures
        read_back(field_read(p, full, reader_of(buffer, c)), v, field_written(p, v, buffer, c)),
    decreases p, 2nat, 0nat,
{
    match p {
        FieldPolicy::Mapping { key, value, length } => {
            match v {
                ValueView::Mapping(entries) => {
                    let n = entries.len() as usize;
                    let (b, counted) = count_written(length, n, buffer, c)->Ok_0;
                    let w = entries_written(p, entries, 0, b, counted);
                    lemma_count_extends(length, n, buffer, c);
                    lemma_entries_extends(p, entries, 0, b, counted);
                    assert(steady(b, counted));
                    lemma_agrees_before(full, b, counted, w);
                    assert(entries.subrange(0, entries.len() as int) =~= entries);
                    if open_ended(length) {
                        lemma_entries_read_back(p, entries, 0, b, counted, full, true);
                    } else {
                        lemma_count_read_back(length, n, buffer, c, false, full);
                        lemma_entries_read_back(p, entries, 0, b, counted, full, false);
                    }
                },
                _ => {},
            }
        },
        _ => {},
    }
}

/// The key and the value of one entry of a mapping read back.
pub proof fn lemma_entry_read_back(
    p: FieldPolicy,
    k: ValueView,
    v: ValueView,
    buffer: Seq<u8>,
    c: ConfigView,
    full: Seq<u8>,
)
    requires
        p is Mapping,
        steady(buffer, c),
        buffer.len() <= full.len() <= usize::MAX,
        field_written(*p->key, k, buffer, c) matches Ok((b, keyed)) && field_written(
            *p->value,
            v,
            b,
            keyed,
        ) matches Ok((b1, after)) && agrees(full, b1, after.bits) && faithful_field(
            *p->key,
            k,
            buffer,
            c,
            full.len() as int,
        ) && faithful_field(*p->value, v, b, keyed, full.len() as int),
    ensures
        field_written(*p->key, k, buffer, c) matches Ok((b, keyed)) && field_written(
            *p->value,
            v,
            b,
            keyed,
        ) matches Ok((b1, after)) && steady(b1, after) && read_back(
            field_read(*p->key, full, reader_of(buffer, c)),
            k,
            field_written(*p->key, k, buffer, c),
        ) && read_back(
            field_read(*p->value, full, reader_of(b, keyed)),
            v,
            field_written(*p->value, v, b, keyed),
        ),
    decreases p, 0nat, 0nat,
{
    let (b, keyed) = field_written(*p->key, k, buffer, c)->Ok_0;
    let (b1, after) = field_written(*p->value, v, b, keyed)->Ok_0;
    lemma_field_extends(*p->key, k, buffer, c);
    lemma_field_extends(*p->value, v, b, keyed);
    assert(b1.len() <= full.len());
    assert(steady(b, keyed));
    lemma_agrees_before(
        full,
        b,
        keyed,
        Ok::<(Seq<u8>, ConfigView), SerializationErrorView>((b1, after)),
    );
    lemma_field_read_back(*p->key, k, buffer, c, full);
    lemma_field_read_back(*p->value, v, b, keyed, full);
}

/// The entries of a mapping read back from index `i` on.
#[verifier::rlimit(40)]
pub proof fn lemma_entries_read_back(
    p: FieldPolicy,
    entries: Seq<(ValueView, ValueView)>,
    i: int,
    buffer: Seq<u8>,
    c: ConfigView,
    full: Seq<u8>,
    open: bool,
)
    requires
        p is Mapping,
        0 <= i <= entries.len(),
        steady(buffer, c),
        buffer.len() <= full.len() <= usize::MAX,
        entries_written(p, entries, i, buffer, c) matches Ok((b2, c2)) && agrees(
            full,
            b2,
            c2.bits,
        ),
        faithful_entries(p, entries, i, buffer, c, full.len() as int, open),
    ensures
        entries_written(p, entries, i, buffer, c) matches Ok((b2, c2)) && (if open {
            entries_read_open(p, full, reader_of(buffer, c))
        } else {
            entries_read(p, full, reader_of(buffer, c), (entries.len() - i) as nat)
        }) == Ok::<(Seq<(ValueView, ValueView)>, ConfigView), DeserializationErrorView>(
            (entries.subrange(i, entries.len() as int), reader_of(b2, c2)),
        ),
    decreases p, 1nat, entries.len() - i,
{
    let r = reader_of(buffer, c);
    assert(r.logical_pos() == buffer.len());
    let n = entries.len() as int;
    if i >= entries.len() {
        assert(entries.subrange(i, n) =~= Seq::<(ValueView, ValueView)>::empty());
    } else {
        let (b, keyed) = field_written(*p->key, entries[i].0, buffer, c)->Ok_0;
        let (b1, after) = field_written(*p->value, entries[i].1, b, keyed)->Ok_0;
        let w = entries_written(p, entries, i + 1, b1, after);
        lemma_field_extends(*p->key, entries[i].0, buffer, c);
        lemma_field_extends(*p->value, entries[i].1, b, keyed);
        lemma_entries_extends(p, entries, i + 1, b1, after);
        assert(b1.len() <= full.len());
        assert(steady(b, keyed));
        assert(steady(b1, after));
        lemma_agrees_before(full, b1, after, w);
        lemma_entry_read_back(p, entries[i].0, entries[i].1, buffer, c, full);
        lemma_entries_read_back(p, entries, i + 1, b1, after, full, open);
        assert(seq![(entries[i].0, entries[i].1)] + entries.subrange(i + 1, n)
            =~= entries.subrange(i, n));
        assert(bit_position(reader_of(b1, after)) == written_bits(b1, after));
        assert(bit_position(r) == written_bits(buffer, c));
    }
}

/// A nested record or tagged union that shares the buffer of its container
/// reads back.
#[verifier::rlimit(40)]
pub proof fn lemma_shared_read_back(
    p: FieldPolicy,
    v: ValueView,
    buffer: Seq<u8>,
    c: ConfigView,
    full: Seq<u8>,
)
    requires
        p matches FieldPolicy::NestedObject { schema, variant_source, length } && open_ended(
            length,
        ),
        steady(buffer, c),
        buffer.len() <= full.len() <= usize::MAX,
        field_written(p, v, buffer, c) matches Ok((b2, c2)) && agrees(full, b2, c2.bits),
        faithful_field(p, v, buffer, c, full.len() as int),
    ensures
        read_back(field_read(p, full, reader_of(buffer, c)), v, field_written(p, v, buffer, c)),
    decreases p, 2nat, 0nat,
{
    let r = reader_of(buffer, c);
    assert(r.logical_pos() == buffer.len());
    let (b2, c2) = field_written(p, v, buffer, c)->Ok_0;
    match p {
        FieldPolicy::NestedObject { schema, variant_source, length } => {
            let chosen = with_variant(variant_source, c);
            let chosen_r = with_variant(variant_source, r);
            assert(chosen_r == reader_of(buffer, chosen));
            let start = unpublished(chosen);
            assert(steady(buffer, start));
            assert(unpublished(chosen_r) == reader_of(buffer, start));
            let after = schema_written(*schema, v, buffer, start)->Ok_0.1;
            assert(c2 == republished(c, after));
            assert(agrees(full, b2, after.bits));
            lemma_schema_read_back(*schema, v, buffer, start, full);
            assert(remaining(chosen_r, full.len() as int) == full.len() - buffer.len());
            assert(count_read(length, full, chosen_r) == Ok::<
                (usize, ConfigView),
                DeserializationErrorView,
            >(((full.len() - buffer.len()) as usize, chosen_r)));
            assert(republished(r, reader_of(b2, after)) == reader_of(b2, c2));
        },
        _ => {},
    }
}

/// The count of a variable-length field does not depend on the variant
/// index that is pending.
pub proof fn lemma_count_frame(length: LengthStrategy, bytes: Seq<u8>, c: ConfigView, d: ConfigView)
    requires
        d == (ConfigView { discriminator: d.discriminator, ..c }),
    ensures
        count_read(length, bytes, c) is Ok <==> count_read(length, bytes, d) is Ok,
        count_read(length, bytes, c) matches Ok((n, found)) ==> found.discriminator
            == c.discriminator && count_read(length, bytes, d) == Ok::<
            (usize, ConfigView),
            DeserializationErrorView,
        >((n, ConfigView { discriminator: d.discriminator, ..found })),
{
}

/// The bytes of a nested object that has a buffer of its own are found
/// behind its count: what the reader slices off the buffer is what was
/// written for the object.
#[verifier::rlimit(40)]
pub proof fn lemma_isolated_frame(
    length: LengthStrategy,
    nested: Seq<u8>,
    buffer: Seq<u8>,
    chosen: ConfigView,
    full: Seq<u8>,
)
    requires
        !open_ended(length),
        steady(buffer, chosen),
        buffer.len() <= full.len() <= usize::MAX,
        count_written(
            length,
            nested.len() as usize,
            buffer,
            ConfigView { discriminator: None, ..chosen.aligned(false) },
        ) matches Ok((b, sized)) && agrees(full, b + nested, 0),
        takes_the_rest(length, chosen) ==> count_written(
            length,
            nested.len() as usize,
            buffer,
            ConfigView { discriminator: None, ..chosen.aligned(false) },
        )->Ok_0.0.len() + nested.len() == full.len(),
    ensures
        count_read(length, full, reader_of(buffer, chosen)) matches Ok((len, found)) && sliced(
            full,
            found.aligned(true),
            len,
            true,
        ) matches Ok((own, moved)) && own == nested && {
            let (b, sized) = count_written(
                length,
                nested.len() as usize,
                buffer,
                ConfigView { discriminator: None, ..chosen.aligned(false) },
            )->Ok_0;
            (ConfigView { discriminator: None, ..moved }) == reader_of(
                b + nested,
                ConfigView { pos: (sized.pos + nested.len()) as usize, ..sized },
            )
        },
{
    let start = ConfigView { discriminator: None, ..chosen.aligned(false) };
    let plain = ConfigView { discriminator: None, ..chosen };
    let n = nested.len() as usize;
    let (b, sized) = count_written(length, n, buffer, start)->Ok_0;
    lemma_count_extends(length, n, buffer, start);
    assert(steady(buffer, start));
    assert(steady(buffer, plain));
    assert(b.len() + nested.len() <= full.len());
    assert(steady(b, sized));
    lemma_append_extends(b, sized, nested);
    lemma_agrees_earlier(full, b + nested, 0, b, sized.bits);
    assert(start == plain.aligned(false));
    assert(takes_the_rest(length, plain) == takes_the_rest(length, chosen));
    assert(takes_declared(length, plain) == takes_declared(length, chosen));
    lemma_count_read_back(length, n, buffer, plain, true, full);
    lemma_count_frame(length, full, reader_of(buffer, plain), reader_of(buffer, chosen));
    lemma_appended_read_back(b, sized, nested, full);
}

/// A nested record or tagged union that has a buffer of its own reads
/// back.
#[verifier::rlimit(40)]
pub proof fn lemma_isolated_read_back(
    p: FieldPolicy,
    v: ValueView,
    buffer: Seq<u8>,
    c: ConfigView,
    full: Seq<u8>,
)
    requires
        p matches FieldPolicy::NestedObject { schema, variant_source, length } && !open_ended(
            length,
        ),
        steady(buffer, c),
        buffer.len() <= full.len() <= usize::MAX,
        field_written(p, v, buffer, c) matches Ok((b2, c2)) && agrees(full, b2, c2.bits),
        faithful_field(p, v, buffer, c, full.len() as int),
    ensures
        read_back(field_read(p, full, reader_of(buffer, c)), v, field_written(p, v, buffer, c)),
    decreases p, 2nat, 0nat,
{
    let r = reader_of(buffer, c);
    let (b2, c2) = field_written(p, v, buffer, c)->Ok_0;
    match p {
        FieldPolicy::NestedObject { schema, variant_source, length } => {
            let chosen = with_variant(variant_source, c);
            let chosen_r = with_variant(variant_source, r);
            assert(chosen_r == reader_of(buffer, chosen));
            assert(steady(buffer, chosen));
            let (nested, inner_end) = schema_written(
                *schema,
                v,
                Seq::empty(),
                isolated(chosen),
            )->Ok_0;
            let start = ConfigView { discriminator: None, ..chosen.aligned(false) };
            let (b, sized) = count_written(length, nested.len() as usize, buffer, start)->Ok_0;
            assert(b2 == b + nested);
            assert(c2.bits == 0) by {
                lemma_count_extends(length, nested.len() as usize, buffer, start);
            }
            assert(takes_the_rest(length, chosen) == takes_the_rest(length, c));
            lemma_isolated_frame(length, nested, buffer, chosen, full);
            assert(reader_of(Seq::<u8>::empty(), isolated(chosen)) == isolated(chosen));
            assert(isolated(chosen_r) == isolated(chosen));
            assert(steady(Seq::<u8>::empty(), isolated(chosen)));
            lemma_schema_extends(*schema, v, Seq::empty(), isolated(chosen));
            assert(nested.len() <= b2.len());
            lemma_agrees_itself(nested, inner_end.bits);
            lemma_schema_read_back(*schema, v, Seq::empty(), isolated(chosen), nested);
        },
        _ => {},
    }
}

/// The value of a field of a record reads back, and is published for the
/// reader as it was for the writer.
#[verifier::rlimit(40)]
pub proof fn lemma_field_step(
    field: FieldSchema,
    v: ValueView,
    buffer: Seq<u8>,
    c: ConfigView,
    full: Seq<u8>,
)
    requires
        steady(buffer, c),
        buffer.len() <= full.len() <= usize::MAX,
        published(field, v, c) matches Some(told) && field_written(field.policy, v, buffer, told)
            matches Ok((b, after)) && agrees(full, b, after.bits) && faithful_field(
            field.policy,
            v,
            buffer,
            told,
            full.len() as int,
        ),
    ensures
        published(field, v, c) matches Some(told) && field_written(field.policy, v, buffer, told)
            matches Ok((b, after)) && field_read(field.policy, full, reader_of(buffer, c))
            matches Ok((found, behind)) && found == v && published(field, v, behind) == Some(
            reader_of(b, after),
        ),
    decreases field.policy, 4nat, 0nat,
{
    let told = published(field, v, c)->Some_0;
    let (b, after) = field_written(field.policy, v, buffer, told)->Ok_0;
    lemma_published_reader(field, v, c, c);
    assert(same_cursor(c, told));
    if scalar(field.policy) {
        lemma_scalar_frame(field.policy, v, buffer, told, c);
        let plain = ConfigView { pos: after.pos, bits: after.bits, ..c };
        assert(field_written(field.policy, v, buffer, c) == Ok::<
            (Seq<u8>, ConfigView),
            SerializationErrorView,
        >((b, plain)));
        assert(faithful_field(field.policy, v, buffer, c, full.len() as int));
        lemma_field_read_back(field.policy, v, buffer, c, full);
        lemma_published_reader(field, v, c, reader_of(b, plain));
        assert(published(field, v, reader_of(b, plain)) == Some(reader_of(b, after)));
    } else {
        lemma_published_is_scalar(field, v, buffer, c);
        assert(told == c);
        lemma_field_read_back(field.policy, v, buffer, c, full);
        assert(published(field, v, reader_of(b, after)) == Some(reader_of(b, after)));
    }
}

/// The values of the fields of a record read back from index `i` on.
#[verifier::rlimit(40)]
pub proof fn lemma_fields_read_back(
    fields: Seq<FieldSchema>,
    values: Seq<ValueView>,
    i: int,
    buffer: Seq<u8>,
    c: ConfigView,
    full: Seq<u8>,
)
    requires
        0 <= i <= fields.len(),
        values.len() == fields.len(),
        steady(buffer, c),
        buffer.len() <= full.len() <= usize::MAX,
        fields_written(fields, values, i, buffer, c) matches Ok((b2, c2)) && agrees(
            full,
            b2,
            c2.bits,
        ),
        faithful_fields(fields, values, i, buffer, c, full.len() as int),
    ensures
        fields_written(fields, values, i, buffer, c) matches Ok((b2, c2)) && fields_read(
            fields,
            i,
            full,
            reader_of(buffer, c),
        ) == Ok::<(Seq<ValueView>, ConfigView), DeserializationErrorView>(
            (values.subrange(i, values.len() as int), reader_of(b2, c2)),
        ),
    decreases fields, 2nat, fields.len() - i,
{
    let n = values.len() as int;
    if i >= fields.len() {
        assert(values.subrange(i, n) =~= Seq::<ValueView>::empty());
    } else {
        let field = fields[i];
        let v = values[i];
        let told = published(field, v, c)->Some_0;
        let (b, after) = field_written(field.policy, v, buffer, told)->Ok_0;
        let w = fields_written(fields, values, i + 1, b, after);
        lemma_published_reader(field, v, c, c);
        assert(steady(buffer, told));
        lemma_field_extends(field.policy, v, buffer, told);
        lemma_fields_extends(fields, values, i + 1, b, after);
        assert(steady(b, after));
        lemma_agrees_before(full, b, after, w);
        lemma_field_step(field, v, buffer, c, full);
        lemma_fields_read_back(fields, values, i + 1, b, after, full);
        assert(seq![v] + values.subrange(i + 1, n) =~= values.subrange(i, n));
    }
}

/// The variant index of a tagged union reads back, and its fields behind
/// it.
#[verifier::rlimit(40)]
pub proof fn lemma_union_read_back(
    schema: Schema,
    v: ValueView,
    buffer: Seq<u8>,
    c: ConfigView,
    full: Seq<u8>,
)
    requires
        schema is Union,
        steady(buffer, c),
        buffer.len() <= full.len() <= usize::MAX,
        schema_written(schema, v, buffer, c) matches Ok((b2, c2)) && agrees(full, b2, c2.bits),
        faithful_schema(schema, v, buffer, c, full.len() as int),
    ensures
        read_back(
            schema_read(schema, full, reader_of(buffer, c)),
            v,
            schema_written(schema, v, buffer, c),
        ),
    decreases schema, 0nat, 0nat,
{
    let r = reader_of(buffer, c);
    match schema {
        Schema::Union { variants, no_discriminator } => {
            match v {
                ValueView::Union(variant, values) => {
                    let taken = ConfigView { discriminator: None, ..c };
                    let fields = variants@[variant as int]@;
                    assert(values.subrange(0, values.len() as int) =~= values);
                    assert(steady(buffer, taken));
                    assert((ConfigView { discriminator: None, ..r }) == reader_of(buffer, taken));
                    if no_discriminator {
                        lemma_fields_read_back(fields, values, 0, buffer, taken, full);
                    } else {
                        let b1 = buffer.push(variant);
                        let c1 = advanced(taken, 1);
                        let w = fields_written(fields, values, 0, b1, c1);
                        assert(be_bytes(variant as nat, 1) =~= seq![variant]) by {
                            reveal_with_fuel(be_bytes, 2);
                        }
                        assert(pow256(1) == 256) by {
                            reveal_with_fuel(pow256, 2);
                        }
                        assert(b1 =~= buffer + be_bytes(variant as nat, 1));
                        lemma_fields_extends(fields, values, 0, b1, c1);
                        assert(b1.len() <= full.len());
                        lemma_append_extends(buffer, taken, be_bytes(variant as nat, 1));
                        lemma_agrees_before(full, b1, c1, w);
                        lemma_fixed_read_back(buffer, taken, variant as nat, 1, full);
                        lemma_fields_read_back(fields, values, 0, b1, c1, full);
                    }
                },
                _ => {},
            }
        },
        _ => {},
    }
}

/// A record or a tagged union reads back from any buffer that holds what
/// was written, provided that it is faithful to that buffer.
pub proof fn lemma_schema_read_back(
    schema: Schema,
    v: ValueView,
    buffer: Seq<u8>,
    c: ConfigView,
    full: Seq<u8>,
)
    requires
        steady(buffer, c),
        buffer.len() <= full.len() <= usize::MAX,
        schema_written(schema, v, buffer, c) matches Ok((b2, c2)) && agrees(full, b2, c2.bits),
        faithful_schema(schema, v, buffer, c, full.len() as int),
    ensures
        read_back(
            schema_read(schema, full, reader_of(buffer, c)),
            v,
            schema_written(schema, v, buffer, c),
        ),
    decreases schema, 1nat, 0nat,
{
    match schema {
        Schema::Record { fields } => {
            match v {
                ValueView::Record(values) => {
                    lemma_fields_read_back(fields@, values, 0, buffer, c, full);
                    assert(values.subrange(0, values.len() as int) =~= values);
                },
                _ => {},
            }
        },
        Schema::Union { .. } => {
            lemma_union_read_back(schema, v, buffer, c, full);
        },
    }
}

} // verus!
