//! Writing goes on from where it stands: whatever is written extends the
//! buffer and leaves the writer in a state that fits it.

use vstd::prelude::*;
use crate::config::ConfigView;
use crate::dyn_int::{dyn_written, lemma_encoding_len_u128};
use crate::encodings::{be_bytes, lemma_be_bytes_len, zigzag_of, ZigZag};
use crate::fixed_int::advanced;
use crate::laws::agreement::{
    agrees, extends, lemma_agrees_earlier, lemma_append_extends, lemma_bits_extend,
    lemma_extends_transitive, steady,
};
use crate::laws::faithful::counted;
use crate::policy::{FieldPolicy, FieldSchema, LengthStrategy, Schema};
use crate::record::{
    count_written, entries_written, field_written, fields_written, isolated, items_written,
    open_ended, published, schema_written, text_written, unpublished, with_variant, Written,
};
use crate::value::ValueView;

verus! {

/// What a write yields goes on from the buffer and the state that it
/// started with: the buffer has not become shorter, and where the writer
/// was steady and the buffer fits the machine word, the writer is steady
/// again and has extended the buffer.
pub open spec fn extended(w: Written, buffer: Seq<u8>, c: ConfigView) -> bool {
    match w {
        Err(_) => true,
        Ok((b2, c2)) => {
            &&& b2.len() >= buffer.len()
            &&& steady(buffer, c) && b2.len() <= usize::MAX ==> steady(b2, c2) && extends(
                b2,
                c2.bits,
                buffer,
                c.bits,
            )
        },
    }
}

/// A write that goes on from where another has ended goes on from where
/// that one started.
pub proof fn lemma_extended_chain(
    buffer: Seq<u8>,
    c: ConfigView,
    b1: Seq<u8>,
    c1: ConfigView,
    w: Written,
)
    requires
        extended(Ok((b1, c1)), buffer, c),
        extended(w, b1, c1),
    ensures
        extended(w, buffer, c),
{
    match w {
        Ok((b2, c2)) => {
            if steady(buffer, c) && b2.len() <= usize::MAX {
                lemma_extends_transitive(b2, c2.bits, b1, c1.bits, buffer, c.bits);
            }
        },
        Err(_) => {},
    }
}

/// Writing a count goes on from the buffer, and leaves the bit offset as
/// it is or at zero.
pub proof fn lemma_count_extends(
    length: LengthStrategy,
    count: usize,
    buffer: Seq<u8>,
    c: ConfigView,
)
    ensures
        extended(count_written(length, count, buffer, c), buffer, c),
        count_written(length, count, buffer, c) matches Ok((b, c2)) ==> {
            &&& c2.bits == c.bits || c2.bits == 0
            &&& c2.toggles == c.toggles
            &&& c2.lengths == c.lengths
            &&& c2.variants == c.variants
            &&& c2.discriminator == c.discriminator
            &&& b.len() == buffer.len() ==> c2 == c
        },
{
    match count_written(length, count, buffer, c) {
        Ok((b, c2)) => {
            if b.len() != buffer.len() || c2 != c {
                lemma_encoding_len_u128(count as u128);
                assert(b == buffer + dyn_written(count as nat));
                if steady(buffer, c) && b.len() <= usize::MAX {
                    lemma_append_extends(buffer, c, dyn_written(count as nat));
                }
            }
        },
        Err(_) => {},
    }
}

/// Whatever is written for a field goes on from the buffer.
#[verifier::rlimit(40)]
pub proof fn lemma_field_extends(p: FieldPolicy, v: ValueView, buffer: Seq<u8>, c: ConfigView)
    ensures
        extended(field_written(p, v, buffer, c), buffer, c),
    decreases p, 1nat, 0nat,
{
    match field_written(p, v, buffer, c) {
        Err(_) => {},
        Ok((b2, c2)) => {
            match p {
                FieldPolicy::Bool => {
                    if steady(buffer, c) && b2.len() <= usize::MAX {
                        match v {
                            ValueView::Bool(b) => {
                                lemma_bits_extend(
                                    buffer,
                                    c,
                                    if b {
                                        1u8
                                    } else {
                                        0u8
                                    },
                                    1,
                                );
                            },
                            _ => {},
                        }
                    }
                },
                FieldPolicy::PackedBits { bits, signed } => {
                    if steady(buffer, c) && b2.len() <= usize::MAX {
                        match v {
                            ValueView::Signed(x) => {
                                lemma_bits_extend(buffer, c, (x as i8).zigzag(), bits.bits());
                            },
                            ValueView::Unsigned(n) => {
                                lemma_bits_extend(buffer, c, n as u8, bits.bits());
                            },
                            _ => {},
                        }
                    }
                },
                FieldPolicy::FixedInt { width } => {
                    match v {
                        ValueView::Unsigned(n) => {
                            lemma_be_bytes_len(n as nat, width.bytes());
                            if steady(buffer, c) && b2.len() <= usize::MAX {
                                lemma_append_extends(buffer, c, be_bytes(n as nat, width.bytes()));
                            }
                        },
                        _ => {},
                    }
                },
                FieldPolicy::ZigZag { width } => {
                    match v {
                        ValueView::Signed(x) => {
                            lemma_be_bytes_len(zigzag_of(x as int), width.bytes());
                            if steady(buffer, c) && b2.len() <= usize::MAX {
                                lemma_append_extends(
                                    buffer,
                                    c,
                                    be_bytes(zigzag_of(x as int), width.bytes()),
                                );
                            }
                        },
                        _ => {},
                    }
                },
                FieldPolicy::DynInt { kind } => {
                    let n: nat = match v {
                        ValueView::Signed(x) => zigzag_of(x as int),
                        ValueView::Unsigned(n) => n as nat,
                        _ => 0,
                    };
                    if steady(buffer, c) && b2.len() <= usize::MAX {
                        lemma_append_extends(buffer, c, dyn_written(n));
                    }
                },
                FieldPolicy::VariableBytes { length } => {
                    match v {
                        ValueView::Text(text) => {
                            lemma_text_extends(text, length, buffer, c);
                        },
                        _ => {},
                    }
                },
                FieldPolicy::Sequence { element, length } => {
                    match v {
                        ValueView::Sequence(items) => {
                            lemma_count_extends(length, items.len() as usize, buffer, c);
                            let (b, counted) = count_written(
                                length,
                                items.len() as usize,
                                buffer,
                                c,
                            )->Ok_0;
                            lemma_items_extends(*element, items, 0, b, counted);
                            lemma_extended_chain(
                                buffer,
                                c,
                                b,
                                counted,
                                items_written(*element, items, 0, b, counted),
                            );
                        },
                        _ => {},
                    }
                },
                FieldPolicy::Mapping { key, value, length } => {
                    match v {
                        ValueView::Mapping(entries) => {
                            lemma_count_extends(length, entries.len() as usize, buffer, c);
                            let (b, counted) = count_written(
                                length,
                                entries.len() as usize,
                                buffer,
                                c,
                            )->Ok_0;
                            lemma_entries_extends(p, entries, 0, b, counted);
                            lemma_extended_chain(
                                buffer,
                                c,
                                b,
                                counted,
                                entries_written(p, entries, 0, b, counted),
                            );
                        },
                        _ => {},
                    }
                },
                FieldPolicy::NestedObject { schema, variant_source, length } => {
                    let chosen = with_variant(variant_source, c);
                    if open_ended(length) {
                        lemma_schema_extends(*schema, v, buffer, unpublished(chosen));
                    } else {
                        let (nested, _) = schema_written(
                            *schema,
                            v,
                            Seq::empty(),
                            isolated(chosen),
                        )->Ok_0;
                        let start = ConfigView { discriminator: None, ..chosen.aligned(false) };
                        lemma_count_extends(length, nested.len() as usize, buffer, start);
                        let (b, sized) = count_written(
                            length,
                            nested.len() as usize,
                            buffer,
                            start,
                        )->Ok_0;
                        if steady(buffer, c) && b2.len() <= usize::MAX {
                            assert(steady(buffer, start));
                            assert(extends(buffer, 0, buffer, c.bits));
                            lemma_append_extends(b, sized, nested);
                            lemma_extends_transitive(b2, 0, b, sized.bits, buffer, start.bits);
                            lemma_extends_transitive(b2, 0, buffer, 0, buffer, c.bits);
                        }
                    }
                },
                FieldPolicy::Optional { inner, gate } => {
                    match v {
                        ValueView::Optional(held) => {
                            match held {
                                Some(x) => {
                                    lemma_field_extends(*inner, *x, buffer, c);
                                },
                                None => {},
                            }
                            if steady(buffer, c) {
                                assert(extends(buffer, c.bits, buffer, c.bits));
                            }
                        },
                        _ => {},
                    }
                },
            }
        },
    }
}

/// Whatever is written for a text goes on from the buffer.
pub proof fn lemma_text_extends(
    text: Seq<char>,
    length: LengthStrategy,
    buffer: Seq<u8>,
    c: ConfigView,
)
    ensures
        extended(text_written(text, length, buffer, c), buffer, c),
{
    let raw = vstd::utf8::encode_utf8(text);
    let start = c.aligned(false);
    match text_written(text, length, buffer, c) {
        Err(_) => {},
        Ok((b2, c2)) => {
            lemma_count_extends(length, raw.len() as usize, buffer, start);
            let (b, sized) = count_written(length, raw.len() as usize, buffer, start)->Ok_0;
            if steady(buffer, c) && b2.len() <= usize::MAX {
                assert(steady(buffer, start));
                assert(extends(buffer, 0, buffer, c.bits));
                lemma_append_extends(b, sized, raw);
                lemma_extends_transitive(b2, 0, b, sized.bits, buffer, start.bits);
                lemma_extends_transitive(b2, 0, buffer, 0, buffer, c.bits);
            }
        },
    }
}

/// Whatever is written for the items of a sequence goes on from the
/// buffer.
pub proof fn lemma_items_extends(
    element: FieldPolicy,
    items: Seq<ValueView>,
    i: int,
    buffer: Seq<u8>,
    c: ConfigView,
)
    ensures
        extended(items_written(element, items, i, buffer, c), buffer, c),
    decreases element, 2nat, items.len() - i,
{
    if i < 0 || i >= items.len() {
        if steady(buffer, c) {
            assert(extends(buffer, c.bits, buffer, c.bits));
        }
    } else {
        lemma_field_extends(element, items[i], buffer, c);
        match field_written(element, items[i], buffer, c) {
            Err(_) => {},
            Ok((b, after)) => {
                lemma_items_extends(element, items, i + 1, b, after);
                lemma_extended_chain(
                    buffer,
                    c,
                    b,
                    after,
                    items_written(element, items, i + 1, b, after),
                );
            },
        }
    }
}

/// Whatever is written for the entries of a mapping goes on from the
/// buffer.
#[verifier::rlimit(40)]
pub proof fn lemma_entries_extends(
    p: FieldPolicy,
    entries: Seq<(ValueView, ValueView)>,
    i: int,
    buffer: Seq<u8>,
    c: ConfigView,
)
    ensures
        extended(entries_written(p, entries, i, buffer, c), buffer, c),
    decreases p, 0nat, entries.len() - i,
{
    if steady(buffer, c) {
        assert(extends(buffer, c.bits, buffer, c.bits));
    }
    match p {
        FieldPolicy::Mapping { key, value, length } => {
            if 0 <= i < entries.len() {
                lemma_field_extends(*key, entries[i].0, buffer, c);
                match field_written(*key, entries[i].0, buffer, c) {
                    Err(_) => {},
                    Ok((b, keyed)) => {
                        lemma_field_extends(*value, entries[i].1, b, keyed);
                        match field_written(*value, entries[i].1, b, keyed) {
                            Err(_) => {},
                            Ok((b2, after)) => {
                                lemma_entries_extends(p, entries, i + 1, b2, after);
                                lemma_extended_chain(
                                    b,
                                    keyed,
                                    b2,
                                    after,
                                    entries_written(p, entries, i + 1, b2, after),
                                );
                                lemma_extended_chain(
                                    buffer,
                                    c,
                                    b,
                                    keyed,
                                    entries_written(p, entries, i + 1, b2, after),
                                );
                            },
                        }
                    },
                }
            }
        },
        _ => {},
    }
}

/// Whatever is written for the fields of a record goes on from the buffer.
pub proof fn lemma_fields_extends(
    fields: Seq<FieldSchema>,
    values: Seq<ValueView>,
    i: int,
    buffer: Seq<u8>,
    c: ConfigView,
)
    ensures
        extended(fields_written(fields, values, i, buffer, c), buffer, c),
    decreases fields, 2nat, fields.len() - i,
{
    if i < 0 || i >= fields.len() {
        if steady(buffer, c) {
            assert(extends(buffer, c.bits, buffer, c.bits));
        }
    } else {
        match published(fields[i], values[i], c) {
            None => {},
            Some(told) => {
                lemma_field_extends(fields[i].policy, values[i], buffer, told);
                match field_written(fields[i].policy, values[i], buffer, told) {
                    Err(_) => {},
                    Ok((b, after)) => {
                        lemma_fields_extends(fields, values, i + 1, b, after);
                        lemma_extended_chain(
                            buffer,
                            told,
                            b,
                            after,
                            fields_written(fields, values, i + 1, b, after),
                        );
                    },
                }
            },
        }
    }
}

/// Whatever is written for a record or a tagged union goes on from the
/// buffer.
#[verifier::rlimit(40)]
pub proof fn lemma_schema_extends(schema: Schema, v: ValueView, buffer: Seq<u8>, c: ConfigView)
    ensures
        extended(schema_written(schema, v, buffer, c), buffer, c),
    decreases schema, 1nat, 0nat,
{
    match schema_written(schema, v, buffer, c) {
        Err(_) => {},
        Ok((b2, c2)) => {
            match schema {
                Schema::Record { fields } => {
                    match v {
                        ValueView::Record(values) => {
                            lemma_fields_extends(fields@, values, 0, buffer, c);
                        },
                        _ => {},
                    }
                },
                Schema::Union { variants, no_discriminator } => {
                    match v {
                        ValueView::Union(variant, values) => {
                            let taken = ConfigView { discriminator: None, ..c };
                            let fields = variants@[variant as int]@;
                            if no_discriminator {
                                lemma_fields_extends(fields, values, 0, buffer, taken);
                            } else {
                                let b1 = buffer.push(variant);
                                let c1 = advanced(taken, 1);
                                lemma_fields_extends(fields, values, 0, b1, c1);
                                assert(b1 =~= buffer + seq![variant]);
                                if steady(buffer, c) && b1.len() <= usize::MAX {
                                    lemma_append_extends(buffer, taken, seq![variant]);
                                }
                                lemma_extended_chain(
                                    buffer,
                                    taken,
                                    b1,
                                    c1,
                                    fields_written(fields, values, 0, b1, c1),
                                );
                            }
                        },
                        _ => {},
                    }
                },
            }
        },
    }
}

/// What agrees with the end of a write agrees with its start.
pub proof fn lemma_agrees_before(full: Seq<u8>, b1: Seq<u8>, c1: ConfigView, w: Written)
    requires
        steady(b1, c1),
        full.len() <= usize::MAX,
        extended(w, b1, c1),
        w matches Ok((b2, c2)) && agrees(full, b2, c2.bits),
    ensures
        agrees(full, b1, c1.bits),
{
    let (b2, c2) = w->Ok_0;
    lemma_agrees_earlier(full, b2, c2.bits, b1, c1.bits);
}

} // verus!
