//! Declarations as they are written: the attributes and the types of the
//! fields of a record type, and what they say about the encoding.

use vstd::prelude::*;
use vstd::string::StrSliceExecFns;
use crate::policy::{
    Annotations, ConfigError, FieldDescriptor, IntKind, Schema, TypeDescriptor, VariantField,
};

verus! {

/// Whether two texts are the same.
pub fn same_text(a: &str, b: &str) -> (res: bool)
    ensures
        res == (a@ == b@),
{
    let left = a.to_owned();
    let right = b.to_owned();
    left == right
}

/// `s` without the double quotes at its start.
pub open spec fn unquoted_front(s: Seq<char>) -> Seq<char>
    decreases s.len(),
{
    if s.len() > 0 && s[0] == '"' {
        unquoted_front(s.drop_first())
    } else {
        s
    }
}

/// `s` without the double quotes at its end.
pub open spec fn unquoted_back(s: Seq<char>) -> Seq<char>
    decreases s.len(),
{
    if s.len() > 0 && s.last() == '"' {
        unquoted_back(s.drop_last())
    } else {
        s
    }
}

/// `s` without the double quotes at its start and at its end.
pub open spec fn unquoted(s: Seq<char>) -> Seq<char> {
    unquoted_back(unquoted_front(s))
}

/// Strips the double quotes at the start and at the end of a text.
pub fn unquote(text: &str) -> (res: String)
    ensures
        res@ == unquoted(text@),
{
    let n: usize = text.unicode_len();
    let mut start: usize = 0;
    assert(text@.subrange(0, n as int) =~= text@);
    loop
        invariant
            start <= n,
            n == text@.len(),
            unquoted_front(text@) == unquoted_front(text@.subrange(start as int, n as int)),
        ensures
            start >= n || text@[start as int] != '"',
        decreases n - start,
    {
        if start >= n {
            break;
        }
        if text.get_char(start) != '"' {
            break;
        }
        assert(text@.subrange(start as int, n as int).drop_first() =~= text@.subrange(
            start + 1,
            n as int,
        ));
        start = start + 1;
    }
    let ghost front = text@.subrange(start as int, n as int);
    assert(unquoted_front(front) == front);
    let mut end: usize = n;
    loop
        invariant
            start <= end <= n,
            n == text@.len(),
            front == text@.subrange(start as int, n as int),
            unquoted_back(front) == unquoted_back(text@.subrange(start as int, end as int)),
        ensures
            end <= start || text@[end - 1] != '"',
        decreases end - start,
    {
        if end <= start {
            break;
        }
        if text.get_char(end - 1) != '"' {
            break;
        }
        assert(text@.subrange(start as int, end as int).drop_last() =~= text@.subrange(
            start as int,
            end - 1,
        ));
        end = end - 1;
    }
    let ghost kept = text@.subrange(start as int, end as int);
    assert(unquoted_back(kept) == kept);
    text.substring_char(start, end).to_owned()
}

/// Whether `c` is a decimal digit.
pub open spec fn is_digit(c: char) -> bool {
    '0' <= c <= '9'
}

/// Whether `s` holds decimal digits only.
pub open spec fn all_digits(s: Seq<char>) -> bool {
    forall|i: int| 0 <= i < s.len() ==> is_digit(#[trigger] s[i])
}

/// The number that the decimal digits of `s` spell.
pub open spec fn number_of(s: Seq<char>) -> nat
    decreases s.len(),
{
    if s.len() == 0 {
        0
    } else {
        (10 * number_of(s.drop_last()) + (s.last() as u32 - '0' as u32)) as nat
    }
}

/// Whether `s` begins with a sign.
pub open spec fn signed_text(s: Seq<char>) -> bool {
    s.len() > 0 && (s[0] == '-' || s[0] == '+')
}

/// The digits of `s` behind its sign.
pub open spec fn digits_of(s: Seq<char>) -> Seq<char> {
    if signed_text(s) {
        s.drop_first()
    } else {
        s
    }
}

/// The 32-bit integer that `s` spells: an optional sign and at least one
/// decimal digit, and nothing where `s` is not of this form or the number
/// does not fit.
pub open spec fn decimal_of(s: Seq<char>) -> Option<i32> {
    let body = digits_of(s);
    let value: int = if s.len() > 0 && s[0] == '-' {
        -(number_of(body) as int)
    } else {
        number_of(body) as int
    };
    if body.len() == 0 || !all_digits(body) || value < i32::MIN || value > i32::MAX {
        None
    } else {
        Some(value as i32)
    }
}

/// The number of a prefix of digits is at most the number of the whole.
pub proof fn lemma_number_grows(s: Seq<char>, k: int)
    requires
        0 <= k <= s.len(),
        all_digits(s),
    ensures
        number_of(s.subrange(0, k)) <= number_of(s),
    decreases s.len() - k,
{
    if k == s.len() {
        assert(s.subrange(0, k) =~= s);
    } else {
        lemma_number_grows(s, k + 1);
        assert(s.subrange(0, k + 1).drop_last() =~= s.subrange(0, k));
        assert(is_digit(s.subrange(0, k + 1).last()));
    }
}

/// Reads a 32-bit integer in decimal digits with an optional sign.
pub fn parse_decimal(text: &str) -> (res: Option<i32>)
    ensures
        res == decimal_of(text@),
{
    let n: usize = text.unicode_len();
    if n == 0 {
        return None;
    }
    let first = text.get_char(0);
    let negative = first == '-';
    let start: usize = if first == '-' || first == '+' {
        1
    } else {
        0
    };
    if start >= n {
        return None;
    }
    let ghost body = digits_of(text@);
    assert(body =~= text@.subrange(start as int, n as int));
    let mut acc: i64 = 0;
    let mut i: usize = start;
    assert(body.subrange(0, 0) =~= Seq::<char>::empty());
    while i < n
        invariant
            start <= i <= n,
            n == text@.len(),
            body == text@.subrange(start as int, n as int),
            body == digits_of(text@),
            body.len() > 0,
            all_digits(body.subrange(0, i - start)),
            acc == number_of(body.subrange(0, i - start)),
            0 <= acc <= 0x8000_0000,
        decreases n - i,
    {
        let c = text.get_char(i);
        assert(body[i - start] == c);
        if c < '0' || c > '9' {
            assert(!is_digit(body[i - start]));
            return None;
        }
        let digit: i64 = (c as u32 - '0' as u32) as i64;
        let ghost before = body.subrange(0, i - start);
        let ghost after = body.subrange(0, i - start + 1);
        proof {
            assert(after.drop_last() =~= before);
            assert(after.last() == c);
            assert forall|j: int| 0 <= j < after.len() implies is_digit(#[trigger] after[j]) by {
                if j < before.len() {
                    assert(before[j] == after[j]);
                }
            }
        }
        let next: i64 = acc * 10 + digit;
        assert(number_of(after) == next);
        if next > 0x8000_0000 {
            proof {
                if all_digits(body) {
                    lemma_number_grows(body, i - start + 1);
                }
            }
            return None;
        }
        acc = next;
        i = i + 1;
    }
    assert(body.subrange(0, n - start) =~= body);
    let value: i64 = if negative {
        -acc
    } else {
        acc
    };
    if value < -0x8000_0000 || value > 0x7FFF_FFFF {
        None
    } else {
        Some(value as i32)
    }
}

/// One token of the arguments of an attribute.
#[derive(Debug, PartialEq, Eq)]
pub enum TokenSyntax {
    /// A literal, as it is written.
    Literal(String),
    /// Any other token.
    Other,
}

/// The literal of an attribute of the form `name = literal`.
#[derive(Debug, PartialEq, Eq)]
pub enum LiteralSyntax {
    /// A string literal, by the text that it stands for.
    Text(String),
    /// An integer literal, by its decimal digits.
    Integer(String),
    /// Any other expression.
    Other,
}

/// What follows the name of an attribute.
#[derive(Debug, PartialEq, Eq)]
pub enum MetaSyntax {
    /// Nothing: `#[name]`.
    Path,
    /// Tokens in brackets: `#[name(tokens)]`.
    List(Vec<TokenSyntax>),
    /// A value: `#[name = value]`.
    NameValue(LiteralSyntax),
}

/// An attribute of a field or of a type.
#[derive(Debug, PartialEq, Eq)]
pub struct AttributeSyntax {
    /// The name of the attribute, where it is a single word.
    pub name: Option<String>,
    /// What follows the name.
    pub meta: MetaSyntax,
}

/// The index of the first literal among the tokens from `from` on, or the
/// count of the tokens where there is none.
pub open spec fn next_literal(tokens: Seq<TokenSyntax>, from: int) -> int
    decreases tokens.len() - from,
{
    if from < 0 || from >= tokens.len() {
        tokens.len() as int
    } else if tokens[from] is Literal {
        from
    } else {
        next_literal(tokens, from + 1)
    }
}

/// The index of the first literal among the tokens from `from` on that
/// spells a 32-bit integer, or the count of the tokens where there is none.
pub open spec fn next_number(tokens: Seq<TokenSyntax>, from: int) -> int
    decreases tokens.len() - from,
{
    if from < 0 || from >= tokens.len() {
        tokens.len() as int
    } else if tokens[from] matches TokenSyntax::Literal(text) && decimal_of(text@) is Some {
        from
    } else {
        next_number(tokens, from + 1)
    }
}

/// The text that an attribute gives: the first literal in its brackets
/// without its quotes, or the string behind its name.
pub open spec fn string_value_of(meta: MetaSyntax) -> Option<Seq<char>> {
    match meta {
        MetaSyntax::Path => None,
        MetaSyntax::List(tokens) => {
            let at = next_literal(tokens@, 0);
            if 0 <= at < tokens@.len() && tokens@[at] is Literal {
                Some(unquoted(tokens@[at]->Literal_0@))
            } else {
                None
            }
        },
        MetaSyntax::NameValue(literal) => match literal {
            LiteralSyntax::Text(text) => Some(text@),
            _ => None,
        },
    }
}

/// The number that an attribute gives: the first literal in its brackets
/// that spells a 32-bit integer, or the integer behind its name.
pub open spec fn int_value_of(meta: MetaSyntax) -> Option<i32> {
    match meta {
        MetaSyntax::Path => None,
        MetaSyntax::List(tokens) => {
            let at = next_number(tokens@, 0);
            if 0 <= at < tokens@.len() && tokens@[at] is Literal {
                decimal_of(tokens@[at]->Literal_0@)
            } else {
                None
            }
        },
        MetaSyntax::NameValue(literal) => match literal {
            LiteralSyntax::Integer(digits) => decimal_of(digits@),
            _ => None,
        },
    }
}

/// The view of an optional text.
pub open spec fn text_view(text: Option<String>) -> Option<Seq<char>> {
    match text {
        Some(s) => Some(s@),
        None => None,
    }
}

/// Finds the text that an attribute gives.
pub fn get_string_value_from_attribute(attr: &AttributeSyntax) -> (res: Option<String>)
    ensures
        text_view(res) == string_value_of(attr.meta),
{
    match &attr.meta {
        MetaSyntax::Path => None,
        MetaSyntax::List(tokens) => {
            let mut i: usize = 0;
            while i < tokens.len()
                invariant
                    i <= tokens@.len(),
                    attr.meta matches MetaSyntax::List(all) && all == tokens,
                    next_literal(tokens@, 0) == next_literal(tokens@, i as int),
                decreases tokens@.len() - i,
            {
                if let TokenSyntax::Literal(text) = &tokens[i] {
                    return Some(unquote(text.as_str()));
                }
                i = i + 1;
            }
            None
        },
        MetaSyntax::NameValue(literal) => match literal {
            LiteralSyntax::Text(text) => Some(text.clone()),
            _ => None,
        },
    }
}

/// Finds the number that an attribute gives.
pub fn get_int_value_from_attribute(attr: &AttributeSyntax) -> (res: Option<i32>)
    ensures
        res == int_value_of(attr.meta),
{
    match &attr.meta {
        MetaSyntax::Path => None,
        MetaSyntax::List(tokens) => {
            let mut i: usize = 0;
            while i < tokens.len()
                invariant
                    i <= tokens@.len(),
                    attr.meta matches MetaSyntax::List(all) && all == tokens,
                    next_number(tokens@, 0) == next_number(tokens@, i as int),
                decreases tokens@.len() - i,
            {
                if let TokenSyntax::Literal(text) = &tokens[i] {
                    if let Some(val) = parse_decimal(text.as_str()) {
                        return Some(val);
                    }
                }
                i = i + 1;
            }
            None
        },
        MetaSyntax::NameValue(literal) => match literal {
            LiteralSyntax::Integer(digits) => parse_decimal(digits.as_str()),
            _ => None,
        },
    }
}

/// The annotations of a field as mathematical values.
pub struct AnnotationsView {
    /// See [`Annotations::bits`].
    pub bits: Option<u8>,
    /// See [`Annotations::dyn_int`].
    pub dyn_int: bool,
    /// See [`Annotations::dyn_length`].
    pub dyn_length: bool,
    /// See [`Annotations::key_dyn_length`].
    pub key_dyn_length: bool,
    /// See [`Annotations::val_dyn_length`].
    pub val_dyn_length: bool,
    /// See [`Annotations::toggles`].
    pub toggles: Option<Seq<char>>,
    /// See [`Annotations::toggled_by`].
    pub toggled_by: Option<Seq<char>>,
    /// See [`Annotations::length_for`].
    pub length_for: Option<Seq<char>>,
    /// See [`Annotations::length_by`].
    pub length_by: Option<Seq<char>>,
    /// See [`Annotations::variant_for`].
    pub variant_for: Option<Seq<char>>,
    /// See [`Annotations::variant_by`].
    pub variant_by: Option<Seq<char>>,
}

impl View for Annotations {
    type V = AnnotationsView;

    open spec fn view(&self) -> AnnotationsView {
        AnnotationsView {
            bits: self.bits,
            dyn_int: self.dyn_int,
            dyn_length: self.dyn_length,
            key_dyn_length: self.key_dyn_length,
            val_dyn_length: self.val_dyn_length,
            toggles: text_view(self.toggles),
            toggled_by: text_view(self.toggled_by),
            length_for: text_view(self.length_for),
            length_by: text_view(self.length_by),
            variant_for: text_view(self.variant_for),
            variant_by: text_view(self.variant_by),
        }
    }
}

/// The annotations of a field without attributes.
pub open spec fn unannotated() -> AnnotationsView {
    AnnotationsView {
        bits: None,
        dyn_int: false,
        dyn_length: false,
        key_dyn_length: false,
        val_dyn_length: false,
        toggles: None,
        toggled_by: None,
        length_for: None,
        length_by: None,
        variant_for: None,
        variant_by: None,
    }
}

/// The number of bits that an attribute gives: its number, cut to 8 bits.
pub open spec fn bits_of(meta: MetaSyntax) -> Option<u8> {
    match int_value_of(meta) {
        Some(n) => Some(n as u8),
        None => None,
    }
}

/// The annotations `a` once the attribute `attr` has been taken in. An
/// attribute with a name that is none of the annotations changes nothing.
pub open spec fn annotated_with(a: AnnotationsView, attr: AttributeSyntax) -> AnnotationsView {
    match attr.name {
        None => a,
        Some(name) => if name@ == "dyn_int"@ {
            AnnotationsView { dyn_int: true, ..a }
        } else if name@ == "dyn_length"@ {
            AnnotationsView { dyn_length: true, ..a }
        } else if name@ == "key_dyn_length"@ {
            AnnotationsView { key_dyn_length: true, ..a }
        } else if name@ == "val_dyn_length"@ {
            AnnotationsView { val_dyn_length: true, ..a }
        } else if name@ == "toggles"@ {
            AnnotationsView { toggles: string_value_of(attr.meta), ..a }
        } else if name@ == "variant_for"@ {
            AnnotationsView { variant_for: string_value_of(attr.meta), ..a }
        } else if name@ == "length_for"@ {
            AnnotationsView { length_for: string_value_of(attr.meta), ..a }
        } else if name@ == "toggled_by"@ {
            AnnotationsView { toggled_by: string_value_of(attr.meta), ..a }
        } else if name@ == "variant_by"@ {
            AnnotationsView { variant_by: string_value_of(attr.meta), ..a }
        } else if name@ == "length_by"@ {
            AnnotationsView { length_by: string_value_of(attr.meta), ..a }
        } else if name@ == "bits"@ {
            AnnotationsView { bits: bits_of(attr.meta), ..a }
        } else {
            a
        },
    }
}

/// The annotations that the first `n` attributes of a field give, taken
/// in one after the other.
pub open spec fn annotated(attrs: Seq<AttributeSyntax>, n: int) -> AnnotationsView
    decreases n,
{
    if n <= 0 {
        unannotated()
    } else {
        annotated_with(annotated(attrs, n - 1), attrs[n - 1])
    }
}

/// Takes one attribute into the annotations of a field.
pub fn annotate(ann: &mut Annotations, attr: &AttributeSyntax)
    ensures
        final(ann)@ == annotated_with(old(ann)@, *attr),
{
    if let Some(name) = &attr.name {
        let name = name.as_str();
        if same_text(name, "dyn_int") {
            ann.dyn_int = true;
        } else if same_text(name, "dyn_length") {
            ann.dyn_length = true;
        } else if same_text(name, "key_dyn_length") {
            ann.key_dyn_length = true;
        } else if same_text(name, "val_dyn_length") {
            ann.val_dyn_length = true;
        } else if same_text(name, "toggles") {
            ann.toggles = get_string_value_from_attribute(attr);
        } else if same_text(name, "variant_for") {
            ann.variant_for = get_string_value_from_attribute(attr);
        } else if same_text(name, "length_for") {
            ann.length_for = get_string_value_from_attribute(attr);
        } else if same_text(name, "toggled_by") {
            ann.toggled_by = get_string_value_from_attribute(attr);
        } else if same_text(name, "variant_by") {
            ann.variant_by = get_string_value_from_attribute(attr);
        } else if same_text(name, "length_by") {
            ann.length_by = get_string_value_from_attribute(attr);
        } else if same_text(name, "bits") {
            ann.bits = match get_int_value_from_attribute(attr) {
                Some(n) => Some(n as u8),
                None => None,
            };
        }
    }
}

/// Reads the annotations of a field off its attributes.
pub fn annotations_of(attrs: &Vec<AttributeSyntax>) -> (res: Annotations)
    ensures
        res@ == annotated(attrs@, attrs@.len() as int),
{
    let mut ann = crate::policy::no_annotations();
    let mut i: usize = 0;
    while i < attrs.len()
        invariant
            i <= attrs@.len(),
            ann@ == annotated(attrs@, i as int),
        decreases attrs@.len() - i,
    {
        annotate(&mut ann, &attrs[i]);
        i = i + 1;
    }
    ann
}

/// Whether one of the attributes has the name `name`.
pub open spec fn marked(attrs: Seq<AttributeSyntax>, name: Seq<char>) -> bool {
    exists|i: int| 0 <= i < attrs.len() && text_view((#[trigger] attrs[i]).name) == Some(name)
}

/// Finds out whether one of the attributes has the name `name`.
pub fn has_marker(attrs: &Vec<AttributeSyntax>, name: &str) -> (res: bool)
    ensures
        res == marked(attrs@, name@),
{
    let mut i: usize = 0;
    while i < attrs.len()
        invariant
            i <= attrs@.len(),
            forall|j: int| 0 <= j < i ==> text_view((#[trigger] attrs@[j]).name) != Some(name@),
        decreases attrs@.len() - i,
    {
        if let Some(found) = &attrs[i].name {
            if same_text(found.as_str(), name) {
                return true;
            }
        }
        i = i + 1;
    }
    false
}

/// One argument in the angle brackets of a type.
#[derive(Debug, PartialEq, Eq)]
pub enum ArgumentSyntax {
    /// A type.
    Type(TypeSyntax),
    /// Anything else, such as a lifetime.
    Other,
}

/// A type as it is written in a declaration.
#[derive(Debug, PartialEq, Eq)]
pub enum TypeSyntax {
    /// A path to a type.
    Path {
        /// Number of segments of the path.
        segments: usize,
        /// The name in the last segment.
        name: String,
        /// The arguments in angle brackets behind the name, if there are
        /// angle brackets.
        arguments: Option<Vec<ArgumentSyntax>>,
        /// The schema of the type, for a record type or a tagged union that
        /// has been resolved before.
        resolved: Option<Schema>,
    },
    /// An array.
    Array {
        /// The type of the elements.
        element: Box<TypeSyntax>,
        /// The length, where it is written as a number.
        len: Option<usize>,
    },
    /// Any other type.
    Other,
}

/// The index of the first type among the arguments from `from` on, or the
/// count of the arguments where there is none.
pub open spec fn next_type(arguments: Seq<ArgumentSyntax>, from: int) -> int
    decreases arguments.len() - from,
{
    if from < 0 || from >= arguments.len() {
        arguments.len() as int
    } else if arguments[from] is Type {
        from
    } else {
        next_type(arguments, from + 1)
    }
}

/// The type that a container holds: the first of its arguments, if that is
/// a type.
pub open spec fn inner_type_of(arguments: Seq<ArgumentSyntax>) -> Option<TypeSyntax> {
    if arguments.len() > 0 && arguments[0] is Type {
        Some(arguments[0]->Type_0)
    } else {
        None
    }
}

/// The types of the keys and of the values of a mapping: the first two
/// types among its arguments.
pub open spec fn two_types_of(arguments: Seq<ArgumentSyntax>) -> Option<(TypeSyntax, TypeSyntax)> {
    let first = next_type(arguments, 0);
    let second = next_type(arguments, first + 1);
    if 0 <= first < second < arguments.len() && arguments[first] is Type
        && arguments[second] is Type {
        Some((arguments[first]->Type_0, arguments[second]->Type_0))
    } else {
        None
    }
}

/// The first type among the arguments lies in front of the second.
pub proof fn lemma_next_type(arguments: Seq<ArgumentSyntax>, from: int)
    requires
        0 <= from,
    ensures
        from <= next_type(arguments, from) <= arguments.len() || arguments.len() < from,
        next_type(arguments, from) < arguments.len() ==> arguments[next_type(
            arguments,
            from,
        )] is Type,
        forall|j: int|
            from <= j < next_type(arguments, from) ==> !(#[trigger] arguments[j] is Type),
    decreases arguments.len() - from,
{
    if from < arguments.len() && !(arguments[from] is Type) {
        lemma_next_type(arguments, from + 1);
    }
}

/// Finds the type that a container holds.
pub fn get_inner_type(arguments: Vec<ArgumentSyntax>) -> (res: Option<TypeSyntax>)
    ensures
        res == inner_type_of(arguments@),
{
    let mut arguments = arguments;
    if arguments.len() == 0 {
        None
    } else {
        match arguments.remove(0) {
            ArgumentSyntax::Type(inner) => Some(inner),
            ArgumentSyntax::Other => None,
        }
    }
}

/// Finds the types of the keys and of the values of a mapping.
#[verifier::rlimit(30)]
pub fn get_two_types(arguments: Vec<ArgumentSyntax>) -> (res: Option<(TypeSyntax, TypeSyntax)>)
    ensures
        res == two_types_of(arguments@),
{
    let ghost all = arguments@;
    let mut first: Option<TypeSyntax> = None;
    let mut second: Option<TypeSyntax> = None;
    proof {
        lemma_next_type(all, 0);
        lemma_next_type(all, next_type(all, 0) + 1);
    }
    for argument in it: arguments
        invariant
            it.seq() == all,
            first is None ==> second is None && it.index() <= next_type(all, 0),
            first is Some ==> {
                let at = next_type(all, 0);
                &&& at < it.index()
                &&& at < all.len()
                &&& all[at] == ArgumentSyntax::Type(first->Some_0)
            },
            first is Some && second is None ==> it.index() <= next_type(
                all,
                next_type(all, 0) + 1,
            ),
            second is Some ==> {
                let at = next_type(all, next_type(all, 0) + 1);
                &&& first is Some
                &&& at < it.index()
                &&& at < all.len()
                &&& all[at] == ArgumentSyntax::Type(second->Some_0)
            },
    {
        proof {
            lemma_next_type(all, 0);
            lemma_next_type(all, next_type(all, 0) + 1);
        }
        if let ArgumentSyntax::Type(found) = argument {
            if first.is_none() {
                first = Some(found);
            } else if second.is_none() {
                second = Some(found);
            }
        }
    }
    proof {
        lemma_next_type(all, 0);
        lemma_next_type(all, next_type(all, 0) + 1);
    }
    match (first, second) {
        (Some(key), Some(value)) => Some((key, value)),
        _ => None,
    }
}

/// The declared type that a written type stands for. A name without
/// arguments is a flag, an integer, a text or a type of its own; a name
/// with arguments is an optional value, a sequence or a mapping.
pub open spec fn described(ty: TypeSyntax) -> Result<TypeDescriptor, ConfigError>
    decreases ty,
{
    match ty {
        TypeSyntax::Path { segments, name, arguments, resolved } => if segments != 1 {
            Err(ConfigError::UnsupportedType)
        } else {
            match arguments {
                None => if name@ == "bool"@ {
                    Ok(TypeDescriptor::Bool)
                } else if name@ == "i8"@ {
                    Ok(TypeDescriptor::Int(IntKind::I8))
                } else if name@ == "u8"@ {
                    Ok(TypeDescriptor::Int(IntKind::U8))
                } else if name@ == "u16"@ {
                    Ok(TypeDescriptor::Int(IntKind::U16))
                } else if name@ == "u32"@ {
                    Ok(TypeDescriptor::Int(IntKind::U32))
                } else if name@ == "u64"@ {
                    Ok(TypeDescriptor::Int(IntKind::U64))
                } else if name@ == "u128"@ {
                    Ok(TypeDescriptor::Int(IntKind::U128))
                } else if name@ == "i16"@ {
                    Ok(TypeDescriptor::Int(IntKind::I16))
                } else if name@ == "i32"@ {
                    Ok(TypeDescriptor::Int(IntKind::I32))
                } else if name@ == "i64"@ {
                    Ok(TypeDescriptor::Int(IntKind::I64))
                } else if name@ == "i128"@ {
                    Ok(TypeDescriptor::Int(IntKind::I128))
                } else if name@ == "String"@ {
                    Ok(TypeDescriptor::Text)
                } else {
                    match resolved {
                        Some(schema) => Ok(TypeDescriptor::Named(schema)),
                        None => Err(ConfigError::UnknownType),
                    }
                },
                Some(list) => if name@ == "Option"@ || name@ == "Vec"@ {
                    if list@.len() > 0 && list@[0] is Type {
                        match described(list@[0]->Type_0) {
                            Err(e) => Err(e),
                            Ok(inner) => if name@ == "Option"@ {
                                Ok(TypeDescriptor::Optional(Box::new(inner)))
                            } else {
                                Ok(TypeDescriptor::Sequence(Box::new(inner)))
                            },
                        }
                    } else {
                        Err(ConfigError::MissingTypeArgument)
                    }
                } else if name@ == "HashMap"@ {
                    let first = next_type(list@, 0);
                    let second = next_type(list@, first + 1);
                    if 0 <= first < second < list@.len() && list@[first] is Type
                        && list@[second] is Type {
                        match described(list@[first]->Type_0) {
                            Err(e) => Err(e),
                            Ok(key) => match described(list@[second]->Type_0) {
                                Err(e) => Err(e),
                                Ok(value) => Ok(
                                    TypeDescriptor::Mapping(Box::new(key), Box::new(value)),
                                ),
                            },
                        }
                    } else {
                        Err(ConfigError::MissingTypeArgument)
                    }
                } else {
                    Err(ConfigError::UnsupportedType)
                },
            }
        },
        TypeSyntax::Array { element, len } => match len {
            None => Err(ConfigError::UnknownLength),
            Some(count) => match described(*element) {
                Err(e) => Err(e),
                Ok(inner) => Ok(TypeDescriptor::Array(Box::new(inner), count)),
            },
        },
        TypeSyntax::Other => Err(ConfigError::UnsupportedType),
    }
}

/// The integer type with the name `name`.
pub open spec fn int_kind_of(name: Seq<char>) -> Option<IntKind> {
    if name == "i8"@ {
        Some(IntKind::I8)
    } else if name == "u8"@ {
        Some(IntKind::U8)
    } else if name == "u16"@ {
        Some(IntKind::U16)
    } else if name == "u32"@ {
        Some(IntKind::U32)
    } else if name == "u64"@ {
        Some(IntKind::U64)
    } else if name == "u128"@ {
        Some(IntKind::U128)
    } else if name == "i16"@ {
        Some(IntKind::I16)
    } else if name == "i32"@ {
        Some(IntKind::I32)
    } else if name == "i64"@ {
        Some(IntKind::I64)
    } else if name == "i128"@ {
        Some(IntKind::I128)
    } else {
        None
    }
}

/// Finds the integer type with the name `name`.
pub fn int_kind(name: &str) -> (res: Option<IntKind>)
    ensures
        res == int_kind_of(name@),
{
    if same_text(name, "i8") {
        Some(IntKind::I8)
    } else if same_text(name, "u8") {
        Some(IntKind::U8)
    } else if same_text(name, "u16") {
        Some(IntKind::U16)
    } else if same_text(name, "u32") {
        Some(IntKind::U32)
    } else if same_text(name, "u64") {
        Some(IntKind::U64)
    } else if same_text(name, "u128") {
        Some(IntKind::U128)
    } else if same_text(name, "i16") {
        Some(IntKind::I16)
    } else if same_text(name, "i32") {
        Some(IntKind::I32)
    } else if same_text(name, "i64") {
        Some(IntKind::I64)
    } else if same_text(name, "i128") {
        Some(IntKind::I128)
    } else {
        None
    }
}

/// Finds the declared type that a written type stands for.
#[verifier::rlimit(30)]
pub fn describe_type(ty: TypeSyntax) -> (res: Result<TypeDescriptor, ConfigError>)
    ensures
        res == described(ty),
    decreases ty,
{
    match ty {
        TypeSyntax::Path { segments, name, arguments, resolved } => {
            if segments != 1 {
                return Err(ConfigError::UnsupportedType);
            }
            match arguments {
                None => {
                    if same_text(name.as_str(), "bool") {
                        Ok(TypeDescriptor::Bool)
                    } else if let Some(kind) = int_kind(name.as_str()) {
                        Ok(TypeDescriptor::Int(kind))
                    } else if same_text(name.as_str(), "String") {
                        Ok(TypeDescriptor::Text)
                    } else {
                        match resolved {
                            Some(schema) => Ok(TypeDescriptor::Named(schema)),
                            None => Err(ConfigError::UnknownType),
                        }
                    }
                },
                Some(list) => {
                    let optional = same_text(name.as_str(), "Option");
                    if optional || same_text(name.as_str(), "Vec") {
                        match get_inner_type(list) {
                            None => Err(ConfigError::MissingTypeArgument),
                            Some(inner) => match describe_type(inner) {
                                Err(e) => Err(e),
                                Ok(inner) => if optional {
                                    Ok(TypeDescriptor::Optional(Box::new(inner)))
                                } else {
                                    Ok(TypeDescriptor::Sequence(Box::new(inner)))
                                },
                            },
                        }
                    } else if same_text(name.as_str(), "HashMap") {
                        match get_two_types(list) {
                            None => Err(ConfigError::MissingTypeArgument),
                            Some((key, value)) => match describe_type(key) {
                                Err(e) => Err(e),
                                Ok(key) => match describe_type(value) {
                                    Err(e) => Err(e),
                                    Ok(value) => Ok(
                                        TypeDescriptor::Mapping(Box::new(key), Box::new(value)),
                                    ),
                                },
                            },
                        }
                    } else {
                        Err(ConfigError::UnsupportedType)
                    }
                },
            }
        },
        TypeSyntax::Array { element, len } => match len {
            None => Err(ConfigError::UnknownLength),
            Some(count) => match describe_type(*element) {
                Err(e) => Err(e),
                Ok(inner) => Ok(TypeDescriptor::Array(Box::new(inner), count)),
            },
        },
        TypeSyntax::Other => Err(ConfigError::UnsupportedType),
    }
}

/// Reads the declaration of a field of a record type off its name, its
/// written type and its attributes.
pub fn declare_field(name: String, ty: TypeSyntax, attrs: &Vec<AttributeSyntax>) -> (res: Result<
    FieldDescriptor,
    ConfigError,
>)
    ensures
        match described(ty) {
            Ok(declared) => res matches Ok(field) && field.name == name && field.ty == declared
                && field.annotations@ == annotated(attrs@, attrs@.len() as int),
            Err(e) => res == Err::<FieldDescriptor, ConfigError>(e),
        },
{
    match describe_type(ty) {
        Err(e) => Err(e),
        Ok(declared) => Ok(
            FieldDescriptor { name, ty: declared, annotations: annotations_of(attrs) },
        ),
    }
}

/// Reads the declaration of a field of a variant off its name and its
/// written type. The attributes of such a field say nothing.
pub fn declare_variant_field(name: String, ty: TypeSyntax) -> (res: Result<
    VariantField,
    ConfigError,
>)
    ensures
        match described(ty) {
            Ok(declared) => res == Ok::<VariantField, ConfigError>(
                VariantField { name, ty: declared },
            ),
            Err(e) => res == Err::<VariantField, ConfigError>(e),
        },
{
    match describe_type(ty) {
        Err(e) => Err(e),
        Ok(declared) => Ok(VariantField { name, ty: declared }),
    }
}

} // verus!
