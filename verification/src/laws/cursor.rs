//! The cursor of a reader only moves on.

use vstd::prelude::*;
use crate::config::ConfigView;
use crate::laws::faithful::counted;
use crate::laws::read_back::lemma_published_reader;
use crate::policy::{FieldPolicy, FieldSchema, LengthStrategy, Schema};
use crate::record::{
    bit_position, count_read, entries_read, entries_read_open, field_read, fields_read, items_read,
    items_read_open, open_ended, published, schema_read, unpublished, with_variant, Parsed,
};

verus! {

/// The cursor `c2` lies at or behind the cursor `c`, and is well formed.
pub open spec fn moved_on(c: ConfigView, c2: ConfigView) -> bool {
    &&& c2.wf()
    &&& c2.pos >= c.pos
    &&& bit_position(c2) >= bit_position(c)
}

/// A read that succeeds has not moved the cursor back.
pub open spec fn reads_on<T>(r: Parsed<T>, c: ConfigView) -> bool {
    r matches Ok((_, c2)) ==> moved_on(c, c2)
}

/// Finding the count of a variable-length field does not move the cursor
/// back.
pub proof fn lemma_count_reads_on(length: LengthStrategy, bytes: Seq<u8>, c: ConfigView)
    requires
        c.wf(),
        bytes.len() <= usize::MAX,
    ensures
        reads_on(count_read(length, bytes, c), c),
{
}

/// Reading a field does not move the cursor back: the position in bytes
/// only increases.
#[verifier::rlimit(40)]
pub proof fn lemma_field_reads_on(p: FieldPolicy, bytes: Seq<u8>, c: ConfigView)
    requires
        c.wf(),
        bytes.len() <= usize::MAX,
    ensures
        reads_on(field_read(p, bytes, c), c),
    decreases p, 1nat, 0nat,
{
    match p {
        FieldPolicy::VariableBytes { length } => {
            lemma_count_reads_on(length, bytes, c);
        },
        FieldPolicy::Sequence { element, length } => {
            if open_ended(length) {
                lemma_items_open_read_on(*element, bytes, c);
            } else {
                lemma_count_reads_on(length, bytes, c);
                match count_read(length, bytes, c) {
                    Ok((count, counted)) => {
                        lemma_items_read_on(*element, bytes, counted, count as nat);
                    },
                    Err(_) => {},
                }
            }
        },
        FieldPolicy::Mapping { key, value, length } => {
            if open_ended(length) {
                lemma_entries_open_read_on(p, bytes, c);
            } else {
                lemma_count_reads_on(length, bytes, c);
                match count_read(length, bytes, c) {
                    Ok((count, counted)) => {
                        lemma_entries_read_on(p, bytes, counted, count as nat);
                    },
                    Err(_) => {},
                }
            }
        },
        FieldPolicy::NestedObject { schema, variant_source, length } => {
            let chosen = with_variant(variant_source, c);
            lemma_count_reads_on(length, bytes, chosen);
            match count_read(length, bytes, chosen) {
                Ok((len, found)) => {
                    if open_ended(length) {
                        lemma_schema_reads_on(*schema, bytes, unpublished(found));
                    }
                },
                Err(_) => {},
            }
        },
        FieldPolicy::Optional { inner, gate } => {
            lemma_field_reads_on(*inner, bytes, c);
        },
        _ => {},
    }
}

/// Reading a counted run of items does not move the cursor back.
pub proof fn lemma_items_read_on(element: FieldPolicy, bytes: Seq<u8>, c: ConfigView, count: nat)
    requires
        c.wf(),
        bytes.len() <= usize::MAX,
    ensures
        reads_on(items_read(element, bytes, c, count), c),
    decreases element, 2nat, count,
{
    if count > 0 {
        lemma_field_reads_on(element, bytes, c);
        match field_read(element, bytes, c) {
            Ok((v, after)) => {
                lemma_items_read_on(element, bytes, after, (count - 1) as nat);
            },
            Err(_) => {},
        }
    }
}

/// Reading the items of an open sequence does not move the cursor back.
pub proof fn lemma_items_open_read_on(element: FieldPolicy, bytes: Seq<u8>, c: ConfigView)
    requires
        c.wf(),
        bytes.len() <= usize::MAX,
    ensures
        reads_on(items_read_open(element, bytes, c), c),
    decreases element, 2nat, crate::record::room(c, bytes.len() as int),
{
    if c.logical_pos() < bytes.len() {
        lemma_field_reads_on(element, bytes, c);
        match field_read(element, bytes, c) {
            Ok((v, after)) => {
                if bit_position(after) > bit_position(c) {
                    lemma_items_open_read_on(element, bytes, after);
                }
            },
            Err(_) => {},
        }
    }
}

/// Reading a counted run of entries does not move the cursor back.
pub proof fn lemma_entries_read_on(p: FieldPolicy, bytes: Seq<u8>, c: ConfigView, count: nat)
    requires
        c.wf(),
        bytes.len() <= usize::MAX,
    ensures
        reads_on(entries_read(p, bytes, c, count), c),
    decreases p, 0nat, count,
{
    match p {
        FieldPolicy::Mapping { key, value, length } => {
            if count > 0 {
                lemma_field_reads_on(*key, bytes, c);
                match field_read(*key, bytes, c) {
                    Ok((k, keyed)) => {
                        lemma_field_reads_on(*value, bytes, keyed);
                        match field_read(*value, bytes, keyed) {
                            Ok((v, after)) => {
                                lemma_entries_read_on(p, bytes, after, (count - 1) as nat);
                            },
                            Err(_) => {},
                        }
                    },
                    Err(_) => {},
                }
            }
        },
        _ => {},
    }
}

/// Reading the entries of an open mapping does not move the cursor back.
pub proof fn lemma_entries_open_read_on(p: FieldPolicy, bytes: Seq<u8>, c: ConfigView)
    requires
        c.wf(),
        bytes.len() <= usize::MAX,
    ensures
        reads_on(entries_read_open(p, bytes, c), c),
    decreases p, 0nat, crate::record::room(c, bytes.len() as int),
{
    match p {
        FieldPolicy::Mapping { key, value, length } => {
            if c.logical_pos() < bytes.len() {
                lemma_field_reads_on(*key, bytes, c);
                match field_read(*key, bytes, c) {
                    Ok((k, keyed)) => {
                        lemma_field_reads_on(*value, bytes, keyed);
                        match field_read(*value, bytes, keyed) {
                            Ok((v, after)) => {
                                if bit_position(after) > bit_position(c) {
                                    lemma_entries_open_read_on(p, bytes, after);
                                }
                            },
                            Err(_) => {},
                        }
                    },
                    Err(_) => {},
                }
            }
        },
        _ => {},
    }
}

/// Reading the fields of a record does not move the cursor back.
pub proof fn lemma_fields_read_on(fields: Seq<FieldSchema>, i: int, bytes: Seq<u8>, c: ConfigView)
    requires
        c.wf(),
        bytes.len() <= usize::MAX,
    ensures
        reads_on(fields_read(fields, i, bytes, c), c),
    decreases fields, 2nat, fields.len() - i,
{
    if 0 <= i < fields.len() {
        lemma_field_reads_on(fields[i].policy, bytes, c);
        match field_read(fields[i].policy, bytes, c) {
            Ok((v, after)) => {
                match published(fields[i], v, after) {
                    Some(told) => {
                        lemma_published_reader(fields[i], v, after, after);
                        lemma_fields_read_on(fields, i + 1, bytes, told);
                    },
                    None => {},
                }
            },
            Err(_) => {},
        }
    }
}

/// Reading a record or a tagged union does not move the cursor back.
pub proof fn lemma_schema_reads_on(schema: Schema, bytes: Seq<u8>, c: ConfigView)
    requires
        c.wf(),
        bytes.len() <= usize::MAX,
    ensures
        reads_on(schema_read(schema, bytes, c), c),
    decreases schema, 1nat, 0nat,
{
    match schema {
        Schema::Record { fields } => {
            lemma_fields_read_on(fields@, 0, bytes, c);
        },
        Schema::Union { variants, no_discriminator } => {
            match crate::record::variant_read(no_discriminator, bytes, c) {
                Ok((variant, chosen)) => {
                    if variant < variants@.len() {
                        lemma_fields_read_on(variants@[variant as int]@, 0, bytes, chosen);
                    }
                },
                Err(_) => {},
            }
        },
    }
}

} // verus!
