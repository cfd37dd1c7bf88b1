//! The values that records hold, in a form that a schema can walk.

use vstd::prelude::*;

verus! {

/// A value of a field, of a record or of a tagged union.
#[derive(Debug, PartialEq, Eq)]
pub enum Value {
    /// A flag.
    Bool(bool),
    /// An unsigned integer of any declared width.
    Unsigned(u128),
    /// A signed integer of any declared width.
    Signed(i128),
    /// A text.
    Text(String),
    /// The elements of a sequence or of an array.
    Sequence(Vec<Value>),
    /// The entries of a mapping, each a key and a value, in the order in
    /// which they are written.
    Mapping(Vec<(Value, Value)>),
    /// The values of the fields of a record, in the order of declaration.
    Record(Vec<Value>),
    /// The index of a variant of a tagged union, and the values of its
    /// fields.
    Union(u8, Vec<Value>),
    /// An optional value.
    Optional(Option<Box<Value>>),
}

/// A [`Value`] as a mathematical value.
pub enum ValueView {
    /// A flag.
    Bool(bool),
    /// An unsigned integer.
    Unsigned(u128),
    /// A signed integer.
    Signed(i128),
    /// A text.
    Text(Seq<char>),
    /// The elements of a sequence or of an array.
    Sequence(Seq<ValueView>),
    /// The entries of a mapping.
    Mapping(Seq<(ValueView, ValueView)>),
    /// The values of the fields of a record.
    Record(Seq<ValueView>),
    /// The index of a variant, and the values of its fields.
    Union(u8, Seq<ValueView>),
    /// An optional value.
    Optional(Option<Box<ValueView>>),
}

/// The mathematical value of `v`.
pub open spec fn value_view(v: Value) -> ValueView
    decreases v,
{
    match v {
        Value::Bool(b) => ValueView::Bool(b),
        Value::Unsigned(n) => ValueView::Unsigned(n),
        Value::Signed(n) => ValueView::Signed(n),
        Value::Text(s) => ValueView::Text(s@),
        Value::Sequence(items) => ValueView::Sequence(views_of(items@)),
        Value::Mapping(entries) => ValueView::Mapping(entry_views_of(entries@)),
        Value::Record(fields) => ValueView::Record(views_of(fields@)),
        Value::Union(variant, fields) => ValueView::Union(variant, views_of(fields@)),
        Value::Optional(None) => ValueView::Optional(None),
        Value::Optional(Some(inner)) => ValueView::Optional(Some(Box::new(value_view(*inner)))),
    }
}

/// The mathematical values of `items`, in order.
pub open spec fn views_of(items: Seq<Value>) -> Seq<ValueView>
    decreases items,
{
    if items.len() == 0 {
        Seq::empty()
    } else {
        views_of(items.drop_last()).push(value_view(items.last()))
    }
}

/// The mathematical values of the keys and values of `entries`, in order.
pub open spec fn entry_views_of(entries: Seq<(Value, Value)>) -> Seq<(ValueView, ValueView)>
    decreases entries,
{
    if entries.len() == 0 {
        Seq::empty()
    } else {
        entry_views_of(entries.drop_last()).push(
            (value_view(entries.last().0), value_view(entries.last().1)),
        )
    }
}

impl View for Value {
    type V = ValueView;

    open spec fn view(&self) -> ValueView {
        value_view(*self)
    }
}

/// The views of a sequence of values are the views of its items.
pub proof fn lemma_views_of(items: Seq<Value>)
    ensures
        views_of(items).len() == items.len(),
        forall|i: int| 0 <= i < items.len() ==> #[trigger] views_of(items)[i] == items[i]@,
    decreases items.len(),
{
    if items.len() > 0 {
        lemma_views_of(items.drop_last());
    }
}

/// The views of a sequence of entries are the views of their keys and
/// values.
pub proof fn lemma_entry_views_of(entries: Seq<(Value, Value)>)
    ensures
        entry_views_of(entries).len() == entries.len(),
        forall|i: int|
            0 <= i < entries.len() ==> #[trigger] entry_views_of(entries)[i] == (
                entries[i].0@,
                entries[i].1@,
            ),
    decreases entries.len(),
{
    if entries.len() > 0 {
        lemma_entry_views_of(entries.drop_last());
    }
}

/// Appending a value appends its view.
pub proof fn lemma_views_of_push(items: Seq<Value>, item: Value)
    ensures
        views_of(items.push(item)) == views_of(items).push(item@),
{
    assert(items.push(item).drop_last() =~= items);
}

/// Appending an entry appends the views of its key and value.
pub proof fn lemma_entry_views_of_push(entries: Seq<(Value, Value)>, entry: (Value, Value))
    ensures
        entry_views_of(entries.push(entry)) == entry_views_of(entries).push((entry.0@, entry.1@)),
{
    assert(entries.push(entry).drop_last() =~= entries);
}

} // verus!
