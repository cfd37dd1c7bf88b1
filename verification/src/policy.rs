//! What a field is declared as, and the policy by which it is encoded: the
//! rules that compose the primitive codecs from a declared type and its
//! annotations.

use vstd::prelude::*;
use crate::utils::dynamic_key;

verus! {

/// The integer types that a field can be declared as.
#[derive(Debug, Clone, Copy, PartialEq, Eq, Structural)]
pub enum IntKind {
    /// Unsigned, 8 bits.
    U8,
    /// Unsigned, 16 bits.
    U16,
    /// Unsigned, 32 bits.
    U32,
    /// Unsigned, 64 bits.
    U64,
    /// Unsigned, 128 bits.
    U128,
    /// Signed, 8 bits.
    I8,
    /// Signed, 16 bits.
    I16,
    /// Signed, 32 bits.
    I32,
    /// Signed, 64 bits.
    I64,
    /// Signed, 128 bits.
    I128,
}

/// The width of a fixed-width integer on the wire.
#[derive(Debug, Clone, Copy, PartialEq, Eq, Structural)]
pub enum ByteWidth {
    /// One byte.
    W1,
    /// Two bytes.
    W2,
    /// Four bytes.
    W4,
    /// Eight bytes.
    W8,
    /// Sixteen bytes.
    W16,
}

/// The width of a packed field: one to seven bits.
#[derive(Debug, Clone, Copy, PartialEq, Eq, Structural)]
pub enum BitWidth {
    /// One bit.
    B1,
    /// Two bits.
    B2,
    /// Three bits.
    B3,
    /// Four bits.
    B4,
    /// Five bits.
    B5,
    /// Six bits.
    B6,
    /// Seven bits.
    B7,
}

impl IntKind {
    /// Whether the type is signed.
    pub open spec fn signed(self) -> bool {
        match self {
            IntKind::I8 | IntKind::I16 | IntKind::I32 | IntKind::I64 | IntKind::I128 => true,
            _ => false,
        }
    }

    /// The width of the type on the wire when it is written at fixed width.
    pub open spec fn width(self) -> ByteWidth {
        match self {
            IntKind::U8 | IntKind::I8 => ByteWidth::W1,
            IntKind::U16 | IntKind::I16 => ByteWidth::W2,
            IntKind::U32 | IntKind::I32 => ByteWidth::W4,
            IntKind::U64 | IntKind::I64 => ByteWidth::W8,
            IntKind::U128 | IntKind::I128 => ByteWidth::W16,
        }
    }

    /// Computes [`IntKind::signed`].
    pub fn is_signed(self) -> (res: bool)
        ensures
            res == self.signed(),
    {
        match self {
            IntKind::I8 | IntKind::I16 | IntKind::I32 | IntKind::I64 | IntKind::I128 => true,
            _ => false,
        }
    }

    /// Computes [`IntKind::width`].
    pub fn byte_width(self) -> (res: ByteWidth)
        ensures
            res == self.width(),
    {
        match self {
            IntKind::U8 | IntKind::I8 => ByteWidth::W1,
            IntKind::U16 | IntKind::I16 => ByteWidth::W2,
            IntKind::U32 | IntKind::I32 => ByteWidth::W4,
            IntKind::U64 | IntKind::I64 => ByteWidth::W8,
            IntKind::U128 | IntKind::I128 => ByteWidth::W16,
        }
    }
}

impl ByteWidth {
    /// The number of bytes.
    pub open spec fn bytes(self) -> nat {
        match self {
            ByteWidth::W1 => 1,
            ByteWidth::W2 => 2,
            ByteWidth::W4 => 4,
            ByteWidth::W8 => 8,
            ByteWidth::W16 => 16,
        }
    }

    /// The number of values of this width: 256 to the power of
    /// [`ByteWidth::bytes`].
    pub open spec fn limit(self) -> nat {
        match self {
            ByteWidth::W1 => 0x100,
            ByteWidth::W2 => 0x1_0000,
            ByteWidth::W4 => 0x1_0000_0000,
            ByteWidth::W8 => 0x1_0000_0000_0000_0000,
            ByteWidth::W16 => 0x1_0000_0000_0000_0000_0000_0000_0000_0000nat,
        }
    }

    /// Computes [`ByteWidth::bytes`].
    pub fn size(self) -> (res: usize)
        ensures
            res == self.bytes(),
    {
        match self {
            ByteWidth::W1 => 1,
            ByteWidth::W2 => 2,
            ByteWidth::W4 => 4,
            ByteWidth::W8 => 8,
            ByteWidth::W16 => 16,
        }
    }
}

impl BitWidth {
    /// The number of bits.
    pub open spec fn bits(self) -> u8 {
        match self {
            BitWidth::B1 => 1,
            BitWidth::B2 => 2,
            BitWidth::B3 => 3,
            BitWidth::B4 => 4,
            BitWidth::B5 => 5,
            BitWidth::B6 => 6,
            BitWidth::B7 => 7,
        }
    }

    /// Computes [`BitWidth::bits`].
    pub fn count(self) -> (res: u8)
        ensures
            res == self.bits(),
            1 <= res <= 7,
    {
        match self {
            BitWidth::B1 => 1,
            BitWidth::B2 => 2,
            BitWidth::B3 => 3,
            BitWidth::B4 => 4,
            BitWidth::B5 => 5,
            BitWidth::B6 => 6,
            BitWidth::B7 => 7,
        }
    }

    /// The width of `bits` bits, where that is one to seven.
    pub open spec fn of(bits: u8) -> Option<BitWidth> {
        if bits == 1 {
            Some(BitWidth::B1)
        } else if bits == 2 {
            Some(BitWidth::B2)
        } else if bits == 3 {
            Some(BitWidth::B3)
        } else if bits == 4 {
            Some(BitWidth::B4)
        } else if bits == 5 {
            Some(BitWidth::B5)
        } else if bits == 6 {
            Some(BitWidth::B6)
        } else if bits == 7 {
            Some(BitWidth::B7)
        } else {
            None
        }
    }

    /// Computes [`BitWidth::of`].
    pub fn from_bits(bits: u8) -> (res: Option<BitWidth>)
        ensures
            res == BitWidth::of(bits),
            res is Some <==> 1 <= bits <= 7,
            res matches Some(w) ==> w.bits() == bits,
    {
        if bits == 1 {
            Some(BitWidth::B1)
        } else if bits == 2 {
            Some(BitWidth::B2)
        } else if bits == 3 {
            Some(BitWidth::B3)
        } else if bits == 4 {
            Some(BitWidth::B4)
        } else if bits == 5 {
            Some(BitWidth::B5)
        } else if bits == 6 {
            Some(BitWidth::B6)
        } else if bits == 7 {
            Some(BitWidth::B7)
        } else {
            None
        }
    }
}

/// How the count of bytes or elements of a variable-length field is known.
#[derive(Debug, Clone, PartialEq, Eq)]
pub enum LengthStrategy {
    /// An earlier field of the record has declared it under this name.
    ByReference(String),
    /// It is written before the field as a variable-length integer.
    DynamicPrefix,
    /// The field takes all that is left of the buffer.
    UntilExhausted,
    /// It is part of the declared type.
    Fixed(usize),
}

impl LengthStrategy {
    /// The key under which the count is looked up or prefixed, for the
    /// strategies that have one.
    pub open spec fn key(self) -> Option<Seq<char>> {
        match self {
            LengthStrategy::ByReference(name) => Some(name@),
            LengthStrategy::DynamicPrefix => Some(dynamic_key()),
            LengthStrategy::UntilExhausted => None,
            LengthStrategy::Fixed(_) => None,
        }
    }
}

/// What decides whether an optional field is present.
#[derive(Debug, Clone, PartialEq, Eq)]
pub enum Gate {
    /// The flag that an earlier field has published under this name; a
    /// name that starts with `!` negates the flag.
    Toggle(String),
    /// Whether bytes are left behind the cursor.
    SpaceAvailable,
}

/// How one field is encoded.
#[derive(Debug, PartialEq, Eq)]
pub enum FieldPolicy {
    /// A flag in one bit.
    Bool,
    /// An 8-bit integer in one to seven bits; a signed one as its zig-zag
    /// image.
    PackedBits {
        /// Number of bits.
        bits: BitWidth,
        /// Whether the integer is signed.
        signed: bool,
    },
    /// An unsigned integer in big-endian bytes.
    FixedInt {
        /// Number of bytes.
        width: ByteWidth,
    },
    /// A signed integer as the big-endian bytes of its zig-zag image.
    ZigZag {
        /// Number of bytes.
        width: ByteWidth,
    },
    /// An integer as a variable-length integer; a signed one as its zig-zag
    /// image.
    DynInt {
        /// The declared type, to which a number read is narrowed.
        kind: IntKind,
    },
    /// A text as its UTF-8 bytes.
    VariableBytes {
        /// How the count of bytes is known.
        length: LengthStrategy,
    },
    /// Elements one after the other.
    Sequence {
        /// How each element is encoded.
        element: Box<FieldPolicy>,
        /// How the count of elements is known.
        length: LengthStrategy,
    },
    /// Keys and values in turn.
    Mapping {
        /// How each key is encoded.
        key: Box<FieldPolicy>,
        /// How each value is encoded.
        value: Box<FieldPolicy>,
        /// How the count of entries is known.
        length: LengthStrategy,
    },
    /// A record or a tagged union of its own.
    NestedObject {
        /// The fields of the object.
        schema: Box<Schema>,
        /// The name under which an earlier field has published the variant
        /// index of the object.
        variant_source: Option<String>,
        /// How the count of bytes is known.
        length: LengthStrategy,
    },
    /// A value that may be absent.
    Optional {
        /// How the value is encoded when it is present.
        inner: Box<FieldPolicy>,
        /// What decides whether it is present.
        gate: Gate,
    },
}

/// One field of a record: its policy, and the names under which its value
/// is published for later fields.
#[derive(Debug, PartialEq, Eq)]
pub struct FieldSchema {
    /// The name of the field.
    pub name: String,
    /// How the field is encoded.
    pub policy: FieldPolicy,
    /// The name under which the flag of the field is published.
    pub toggles: Option<String>,
    /// The name under which the number of the field is published as a
    /// length.
    pub length_for: Option<String>,
    /// The name under which the number of the field is published as a
    /// variant index.
    pub variant_for: Option<String>,
}

/// The fields of a record type, or of each variant of a tagged union, in
/// the order of their declaration.
#[derive(Debug, PartialEq, Eq)]
pub enum Schema {
    /// A record.
    Record {
        /// The fields of the record.
        fields: Vec<FieldSchema>,
    },
    /// A tagged union. The index of a variant in `variants` is its
    /// discriminant.
    Union {
        /// The fields of each variant.
        variants: Vec<Vec<FieldSchema>>,
        /// Whether the discriminant byte is left out of the encoding.
        no_discriminator: bool,
    },
}

/// The declared type of a field.
#[derive(Debug, PartialEq, Eq)]
pub enum TypeDescriptor {
    /// A flag.
    Bool,
    /// An integer.
    Int(IntKind),
    /// A text.
    Text,
    /// A record or tagged union, by its resolved schema.
    Named(Schema),
    /// An optional value.
    Optional(Box<TypeDescriptor>),
    /// A sequence of any length.
    Sequence(Box<TypeDescriptor>),
    /// An associative mapping: the types of its keys and of its values.
    Mapping(Box<TypeDescriptor>, Box<TypeDescriptor>),
    /// An array of a fixed number of elements.
    Array(Box<TypeDescriptor>, usize),
}

/// The annotations of a field.
#[derive(Debug, Clone, PartialEq, Eq)]
pub struct Annotations {
    /// The number of bits of an 8-bit integer.
    pub bits: Option<u8>,
    /// Whether integers are written at variable length.
    pub dyn_int: bool,
    /// Whether the count of the field is prefixed to it.
    pub dyn_length: bool,
    /// Whether the count of each key of a map is prefixed to it.
    pub key_dyn_length: bool,
    /// Whether the count of each element, or of each value of a map, is
    /// prefixed to it.
    pub val_dyn_length: bool,
    /// The name under which the field publishes its flag.
    pub toggles: Option<String>,
    /// The name of the flag that decides whether the field is present.
    pub toggled_by: Option<String>,
    /// The name under which the field publishes its number as a length.
    pub length_for: Option<String>,
    /// The name of the length that is the count of the field.
    pub length_by: Option<String>,
    /// The name under which the field publishes its number as a variant
    /// index.
    pub variant_for: Option<String>,
    /// The name of the variant index that selects the variant of the field.
    pub variant_by: Option<String>,
}

/// Why a declaration has no policy.
#[derive(Debug, Clone, Copy, PartialEq, Eq, Structural)]
pub enum ConfigError {
    /// The number of bits of a packed field is not one to seven.
    BitsOutOfRange(u8),
    /// An optional value lies directly inside an optional value.
    NestedOptional,
    /// The declared type is none that a field can have.
    UnsupportedType,
    /// A declared type lacks the type that it is to hold.
    MissingTypeArgument,
    /// The named type is not known.
    UnknownType,
    /// The length of an array is not written as a number.
    UnknownLength,
}

/// The strategy for the count of a variable-length field: a reference to a
/// declared length comes first, then a prefixed count, else all that is
/// left.
pub open spec fn strategy_of(length_by: Option<String>, dyn_length: bool) -> LengthStrategy {
    match length_by {
        Some(name) => LengthStrategy::ByReference(name),
        None => if dyn_length {
            LengthStrategy::DynamicPrefix
        } else {
            LengthStrategy::UntilExhausted
        },
    }
}

/// Computes [`strategy_of`].
pub fn length_strategy(length_by: &Option<String>, dyn_length: bool) -> (res: LengthStrategy)
    ensures
        res == strategy_of(*length_by, dyn_length),
{
    match length_by {
        Some(name) => LengthStrategy::ByReference(name.clone()),
        None => if dyn_length {
            LengthStrategy::DynamicPrefix
        } else {
            LengthStrategy::UntilExhausted
        },
    }
}

/// The annotations that reach the elements of a sequence or an array, or
/// the keys or values of a map: the width in bits where `bits` is set, the
/// variable-length integers, and as prefixed count what the container holds
/// for them. No reference to another field passes on.
pub open spec fn inherited(ann: Annotations, keep_bits: bool, dyn_length: bool) -> Annotations {
    Annotations {
        bits: if keep_bits {
            ann.bits
        } else {
            None
        },
        dyn_int: ann.dyn_int,
        dyn_length,
        key_dyn_length: false,
        val_dyn_length: false,
        toggles: None,
        toggled_by: None,
        length_for: None,
        length_by: None,
        variant_for: None,
        variant_by: None,
    }
}

/// The annotations that reach the value of an optional field: all but the
/// gate.
pub open spec fn ungated(ann: Annotations) -> Annotations {
    Annotations { toggled_by: None, ..ann }
}

/// The policy of a packed field of `bits` bits.
pub open spec fn packed_of(bits: u8, signed: bool) -> Result<FieldPolicy, ConfigError> {
    match BitWidth::of(bits) {
        Some(bits) => Ok(FieldPolicy::PackedBits { bits, signed }),
        None => Err(ConfigError::BitsOutOfRange(bits)),
    }
}

/// The policy of an integer field.
pub open spec fn int_policy_of(
    kind: IntKind,
    ann: Annotations,
) -> Result<FieldPolicy, ConfigError> {
    match kind {
        IntKind::U8 => match ann.bits {
            Some(bits) => packed_of(bits, false),
            None => Ok(FieldPolicy::FixedInt { width: ByteWidth::W1 }),
        },
        IntKind::I8 => match ann.bits {
            Some(bits) => packed_of(bits, true),
            None => Ok(FieldPolicy::ZigZag { width: ByteWidth::W1 }),
        },
        _ => if ann.dyn_int {
            Ok(FieldPolicy::DynInt { kind })
        } else if kind.signed() {
            Ok(FieldPolicy::ZigZag { width: kind.width() })
        } else {
            Ok(FieldPolicy::FixedInt { width: kind.width() })
        },
    }
}

/// The policy of a field that is declared as `ty` with the annotations
/// `ann`.
pub open spec fn policy_of(ty: TypeDescriptor, ann: Annotations) -> Result<FieldPolicy, ConfigError>
    decreases ty,
{
    match ty {
        TypeDescriptor::Bool => Ok(FieldPolicy::Bool),
        TypeDescriptor::Int(kind) => int_policy_of(kind, ann),
        TypeDescriptor::Text => Ok(
            FieldPolicy::VariableBytes { length: strategy_of(ann.length_by, ann.dyn_length) },
        ),
        TypeDescriptor::Named(schema) => Ok(
            FieldPolicy::NestedObject {
                schema: Box::new(schema),
                variant_source: ann.variant_by,
                length: strategy_of(ann.length_by, ann.dyn_length),
            },
        ),
        TypeDescriptor::Optional(inner) => if *inner is Optional {
            Err(ConfigError::NestedOptional)
        } else {
            match policy_of(*inner, ungated(ann)) {
                Err(e) => Err(e),
                Ok(policy) => Ok(
                    FieldPolicy::Optional {
                        inner: Box::new(policy),
                        gate: match ann.toggled_by {
                            Some(name) => Gate::Toggle(name),
                            None => Gate::SpaceAvailable,
                        },
                    },
                ),
            }
        },
        TypeDescriptor::Sequence(inner) => match policy_of(
            *inner,
            inherited(ann, true, ann.val_dyn_length),
        ) {
            Err(e) => Err(e),
            Ok(policy) => Ok(
                FieldPolicy::Sequence {
                    element: Box::new(policy),
                    length: strategy_of(ann.length_by, ann.dyn_length),
                },
            ),
        },
        TypeDescriptor::Mapping(key, value) => match policy_of(
            *key,
            inherited(ann, false, ann.key_dyn_length),
        ) {
            Err(e) => Err(e),
            Ok(key_policy) => match policy_of(*value, inherited(ann, false, ann.val_dyn_length)) {
                Err(e) => Err(e),
                Ok(value_policy) => Ok(
                    FieldPolicy::Mapping {
                        key: Box::new(key_policy),
                        value: Box::new(value_policy),
                        length: strategy_of(ann.length_by, ann.dyn_length),
                    },
                ),
            },
        },
        TypeDescriptor::Array(inner, count) => match policy_of(
            *inner,
            inherited(ann, true, ann.val_dyn_length),
        ) {
            Err(e) => Err(e),
            Ok(policy) => Ok(
                FieldPolicy::Sequence {
                    element: Box::new(policy),
                    length: LengthStrategy::Fixed(count),
                },
            ),
        },
    }
}

/// A copy of an optional name.
pub fn copy_name(name: &Option<String>) -> (res: Option<String>)
    ensures
        res == *name,
{
    match name {
        Some(text) => Some(text.clone()),
        None => None,
    }
}

/// Computes [`inherited`].
pub fn inherit(ann: &Annotations, keep_bits: bool, dyn_length: bool) -> (res: Annotations)
    ensures
        res == inherited(*ann, keep_bits, dyn_length),
{
    Annotations {
        bits: if keep_bits {
            ann.bits
        } else {
            None
        },
        dyn_int: ann.dyn_int,
        dyn_length,
        key_dyn_length: false,
        val_dyn_length: false,
        toggles: None,
        toggled_by: None,
        length_for: None,
        length_by: None,
        variant_for: None,
        variant_by: None,
    }
}

/// Computes [`ungated`].
pub fn ungate(ann: &Annotations) -> (res: Annotations)
    ensures
        res == ungated(*ann),
{
    Annotations {
        bits: ann.bits,
        dyn_int: ann.dyn_int,
        dyn_length: ann.dyn_length,
        key_dyn_length: ann.key_dyn_length,
        val_dyn_length: ann.val_dyn_length,
        toggles: copy_name(&ann.toggles),
        toggled_by: None,
        length_for: copy_name(&ann.length_for),
        length_by: copy_name(&ann.length_by),
        variant_for: copy_name(&ann.variant_for),
        variant_by: copy_name(&ann.variant_by),
    }
}

/// Resolves the policy of an integer field.
pub fn resolve_int(kind: IntKind, ann: &Annotations) -> (res: Result<FieldPolicy, ConfigError>)
    ensures
        res == int_policy_of(kind, *ann),
{
    match kind {
        IntKind::U8 => match ann.bits {
            Some(bits) => match BitWidth::from_bits(bits) {
                Some(bits) => Ok(FieldPolicy::PackedBits { bits, signed: false }),
                None => Err(ConfigError::BitsOutOfRange(bits)),
            },
            None => Ok(FieldPolicy::FixedInt { width: ByteWidth::W1 }),
        },
        IntKind::I8 => match ann.bits {
            Some(bits) => match BitWidth::from_bits(bits) {
                Some(bits) => Ok(FieldPolicy::PackedBits { bits, signed: true }),
                None => Err(ConfigError::BitsOutOfRange(bits)),
            },
            None => Ok(FieldPolicy::ZigZag { width: ByteWidth::W1 }),
        },
        _ => if ann.dyn_int {
            Ok(FieldPolicy::DynInt { kind })
        } else if kind.is_signed() {
            Ok(FieldPolicy::ZigZag { width: kind.byte_width() })
        } else {
            Ok(FieldPolicy::FixedInt { width: kind.byte_width() })
        },
    }
}

/// Resolves the policy of a field from its declared type and its
/// annotations.
pub fn resolve_policy(ty: TypeDescriptor, ann: &Annotations) -> (res: Result<
    FieldPolicy,
    ConfigError,
>)
    ensures
        res == policy_of(ty, *ann),
    decreases ty,
{
    match ty {
        TypeDescriptor::Bool => Ok(FieldPolicy::Bool),
        TypeDescriptor::Int(kind) => resolve_int(kind, ann),
        TypeDescriptor::Text => Ok(
            FieldPolicy::VariableBytes { length: length_strategy(&ann.length_by, ann.dyn_length) },
        ),
        TypeDescriptor::Named(schema) => Ok(
            FieldPolicy::NestedObject {
                schema: Box::new(schema),
                variant_source: copy_name(&ann.variant_by),
                length: length_strategy(&ann.length_by, ann.dyn_length),
            },
        ),
        TypeDescriptor::Optional(inner) => {
            let inner_ty: TypeDescriptor = *inner;
            if let TypeDescriptor::Optional(_) = &inner_ty {
                return Err(ConfigError::NestedOptional);
            }
            let inner_ann = ungate(ann);
            match resolve_policy(inner_ty, &inner_ann) {
                Err(e) => Err(e),
                Ok(policy) => Ok(
                    FieldPolicy::Optional {
                        inner: Box::new(policy),
                        gate: match &ann.toggled_by {
                            Some(name) => Gate::Toggle(name.clone()),
                            None => Gate::SpaceAvailable,
                        },
                    },
                ),
            }
        },
        TypeDescriptor::Sequence(inner) => {
            let inner_ann = inherit(ann, true, ann.val_dyn_length);
            match resolve_policy(*inner, &inner_ann) {
                Err(e) => Err(e),
                Ok(policy) => Ok(
                    FieldPolicy::Sequence {
                        element: Box::new(policy),
                        length: length_strategy(&ann.length_by, ann.dyn_length),
                    },
                ),
            }
        },
        TypeDescriptor::Mapping(key, value) => {
            let key_ann = inherit(ann, false, ann.key_dyn_length);
            let value_ann = inherit(ann, false, ann.val_dyn_length);
            match resolve_policy(*key, &key_ann) {
                Err(e) => Err(e),
                Ok(key_policy) => match resolve_policy(*value, &value_ann) {
                    Err(e) => Err(e),
                    Ok(value_policy) => Ok(
                        FieldPolicy::Mapping {
                            key: Box::new(key_policy),
                            value: Box::new(value_policy),
                            length: length_strategy(&ann.length_by, ann.dyn_length),
                        },
                    ),
                },
            }
        },
        TypeDescriptor::Array(inner, count) => {
            let inner_ann = inherit(ann, true, ann.val_dyn_length);
            match resolve_policy(*inner, &inner_ann) {
                Err(e) => Err(e),
                Ok(policy) => Ok(
                    FieldPolicy::Sequence {
                        element: Box::new(policy),
                        length: LengthStrategy::Fixed(count),
                    },
                ),
            }
        },
    }
}

/// The declaration of one field of a record type.
#[derive(Debug, PartialEq, Eq)]
pub struct FieldDescriptor {
    /// The name of the field.
    pub name: String,
    /// The declared type of the field.
    pub ty: TypeDescriptor,
    /// The annotations of the field.
    pub annotations: Annotations,
}

/// The declaration of one field of a variant of a tagged union. Such a
/// field has no annotations.
#[derive(Debug, PartialEq, Eq)]
pub struct VariantField {
    /// The name of the field.
    pub name: String,
    /// The declared type of the field.
    pub ty: TypeDescriptor,
}

/// The declaration of a record type or of a tagged union.
#[derive(Debug, PartialEq, Eq)]
pub enum TypeDeclaration {
    /// A record type with its fields in order.
    Struct {
        /// The fields.
        fields: Vec<FieldDescriptor>,
    },
    /// A tagged union with its variants in order.
    Enum {
        /// The fields of each variant.
        variants: Vec<Vec<VariantField>>,
        /// Whether the discriminant byte is left out of the encoding.
        no_discriminator: bool,
    },
}

/// No annotation at all.
pub open spec fn plain() -> Annotations {
    Annotations {
        bits: None,
        dyn_int: false,
        dyn_length: false,
        key_dyn_length: false,
        val_dyn_length: false,
        toggles: None,
        toggled_by: None,
        length_for: None,
        length_by: None,
        variant_for: None,
        variant_by: None,
    }
}

/// Computes [`plain`].
pub fn no_annotations() -> (res: Annotations)
    ensures
        res == plain(),
{
    Annotations {
        bits: None,
        dyn_int: false,
        dyn_length: false,
        key_dyn_length: false,
        val_dyn_length: false,
        toggles: None,
        toggled_by: None,
        length_for: None,
        length_by: None,
        variant_for: None,
        variant_by: None,
    }
}

/// The schema entry of a declared field of a record: its resolved policy,
/// and the names under which it publishes its value.
pub open spec fn field_schema_of(field: FieldDescriptor) -> Result<FieldSchema, ConfigError> {
    match policy_of(field.ty, field.annotations) {
        Err(e) => Err(e),
        Ok(policy) => Ok(
            FieldSchema {
                name: field.name,
                policy,
                toggles: field.annotations.toggles,
                length_for: field.annotations.length_for,
                variant_for: field.annotations.variant_for,
            },
        ),
    }
}

/// The schema entry of a declared field of a variant: its policy without
/// annotations. It publishes nothing.
pub open spec fn variant_schema_of(field: VariantField) -> Result<FieldSchema, ConfigError> {
    match policy_of(field.ty, plain()) {
        Err(e) => Err(e),
        Ok(policy) => Ok(
            FieldSchema {
                name: field.name,
                policy,
                toggles: None,
                length_for: None,
                variant_for: None,
            },
        ),
    }
}

/// Resolves one field of a record.
pub fn resolve_field(field: FieldDescriptor) -> (res: Result<FieldSchema, ConfigError>)
    ensures
        res == field_schema_of(field),
{
    let FieldDescriptor { name, ty, annotations } = field;
    match resolve_policy(ty, &annotations) {
        Err(e) => Err(e),
        Ok(policy) => Ok(
            FieldSchema {
                name,
                policy,
                toggles: annotations.toggles,
                length_for: annotations.length_for,
                variant_for: annotations.variant_for,
            },
        ),
    }
}

/// Resolves one field of a variant.
pub fn resolve_variant_field(field: VariantField) -> (res: Result<FieldSchema, ConfigError>)
    ensures
        res == variant_schema_of(field),
{
    let VariantField { name, ty } = field;
    let ann = no_annotations();
    match resolve_policy(ty, &ann) {
        Err(e) => Err(e),
        Ok(policy) => Ok(
            FieldSchema { name, policy, toggles: None, length_for: None, variant_for: None },
        ),
    }
}

/// Every declared field resolves, and `out` holds the schema entries in
/// the order of the declarations.
pub open spec fn fields_resolve(fields: Seq<FieldDescriptor>, out: Seq<FieldSchema>) -> bool {
    &&& out.len() == fields.len()
    &&& forall|i: int|
        0 <= i < fields.len() ==> #[trigger] field_schema_of(fields[i]) == Ok::<
            FieldSchema,
            ConfigError,
        >(out[i])
}

/// `e` is the error of the first declared field that does not resolve.
pub open spec fn fields_fail(fields: Seq<FieldDescriptor>, e: ConfigError) -> bool {
    exists|i: int|
        {
            &&& 0 <= i < fields.len()
            &&& #[trigger] field_schema_of(fields[i]) == Err::<FieldSchema, ConfigError>(e)
            &&& forall|j: int| 0 <= j < i ==> (#[trigger] field_schema_of(fields[j])) is Ok
        }
}

/// Resolves the fields of a record in order, up to the first that does not
/// resolve.
pub fn resolve_fields(fields: Vec<FieldDescriptor>) -> (res: Result<Vec<FieldSchema>, ConfigError>)
    ensures
        match res {
            Ok(out) => fields_resolve(fields@, out@),
            Err(e) => fields_fail(fields@, e),
        },
{
    let mut out: Vec<FieldSchema> = Vec::new();
    let ghost all = fields@;
    for field in it: fields
        invariant
            it.seq() == all,
            out@.len() == it.index(),
            forall|j: int|
                0 <= j < out@.len() ==> #[trigger] field_schema_of(all[j]) == Ok::<
                    FieldSchema,
                    ConfigError,
                >(out@[j]),
    {
        match resolve_field(field) {
            Err(e) => {
                return Err(e);
            },
            Ok(entry) => {
                out.push(entry);
            },
        }
    }
    Ok(out)
}

/// Every declared field of a variant resolves, and `out` holds the schema
/// entries in the order of the declarations.
pub open spec fn variant_resolves(fields: Seq<VariantField>, out: Seq<FieldSchema>) -> bool {
    &&& out.len() == fields.len()
    &&& forall|i: int|
        0 <= i < fields.len() ==> #[trigger] variant_schema_of(fields[i]) == Ok::<
            FieldSchema,
            ConfigError,
        >(out[i])
}

/// `e` is the error of the first declared field of a variant that does not
/// resolve.
pub open spec fn variant_fails(fields: Seq<VariantField>, e: ConfigError) -> bool {
    exists|i: int|
        {
            &&& 0 <= i < fields.len()
            &&& #[trigger] variant_schema_of(fields[i]) == Err::<FieldSchema, ConfigError>(e)
            &&& forall|j: int| 0 <= j < i ==> (#[trigger] variant_schema_of(fields[j])) is Ok
        }
}

/// Resolves the fields of one variant in order, up to the first that does
/// not resolve.
pub fn resolve_variant_fields(fields: Vec<VariantField>) -> (res: Result<
    Vec<FieldSchema>,
    ConfigError,
>)
    ensures
        match res {
            Ok(out) => variant_resolves(fields@, out@),
            Err(e) => variant_fails(fields@, e),
        },
{
    let mut out: Vec<FieldSchema> = Vec::new();
    let ghost all = fields@;
    for field in it: fields
        invariant
            it.seq() == all,
            out@.len() == it.index(),
            forall|j: int|
                0 <= j < out@.len() ==> #[trigger] variant_schema_of(all[j]) == Ok::<
                    FieldSchema,
                    ConfigError,
                >(out@[j]),
    {
        match resolve_variant_field(field) {
            Err(e) => {
                return Err(e);
            },
            Ok(entry) => {
                out.push(entry);
            },
        }
    }
    Ok(out)
}

/// Every variant resolves, and `out` holds the fields of each in the order
/// of the declarations.
pub open spec fn variants_resolve(
    variants: Seq<Vec<VariantField>>,
    out: Seq<Vec<FieldSchema>>,
) -> bool {
    &&& out.len() == variants.len()
    &&& forall|i: int|
        0 <= i < variants.len() ==> variant_resolves((#[trigger] variants[i])@, out[i]@)
}

/// `e` is the error of the first field that does not resolve, variant by
/// variant.
pub open spec fn variants_fail(variants: Seq<Vec<VariantField>>, e: ConfigError) -> bool {
    exists|i: int|
        {
            &&& 0 <= i < variants.len()
            &&& variant_fails((#[trigger] variants[i])@, e)
            &&& forall|j: int|
                0 <= j < i ==> !exists|f: ConfigError|
                    variant_fails((#[trigger] variants[j])@, f)
        }
}

/// A variant whose fields all resolve has no first failure.
pub proof fn lemma_resolved_variant_has_no_failure(
    fields: Seq<VariantField>,
    out: Seq<FieldSchema>,
    e: ConfigError,
)
    requires
        variant_resolves(fields, out),
    ensures
        !variant_fails(fields, e),
{
}

/// Resolves the schema of a record type.
pub fn resolve_struct(fields: Vec<FieldDescriptor>) -> (res: Result<Schema, ConfigError>)
    ensures
        match res {
            Ok(schema) => schema matches Schema::Record { fields: out } && fields_resolve(
                fields@,
                out@,
            ),
            Err(e) => fields_fail(fields@, e),
        },
{
    match resolve_fields(fields) {
        Ok(out) => Ok(Schema::Record { fields: out }),
        Err(e) => Err(e),
    }
}

/// Resolves the schema of a tagged union. The variants take their
/// discriminants from the order of their declaration, starting at zero.
pub fn resolve_enum(variants: Vec<Vec<VariantField>>, no_discriminator: bool) -> (res: Result<
    Schema,
    ConfigError,
>)
    ensures
        match res {
            Ok(schema) => {
                &&& schema matches Schema::Union { variants: out, no_discriminator: flag }
                &&& flag == no_discriminator
                &&& variants_resolve(variants@, out@)
            },
            Err(e) => variants_fail(variants@, e),
        },
{
    let mut out: Vec<Vec<FieldSchema>> = Vec::new();
    let ghost all = variants@;
    for fields in it: variants
        invariant
            it.seq() == all,
            out@.len() == it.index(),
            forall|j: int| 0 <= j < out@.len() ==> variant_resolves((#[trigger] all[j])@, out@[j]@),
    {
        let ghost index = it.index();
        match resolve_variant_fields(fields) {
            Err(e) => {
                proof {
                    assert forall|j: int| 0 <= j < index implies !exists|f: ConfigError|
                        variant_fails((#[trigger] all[j])@, f) by {
                        assert forall|f: ConfigError| !variant_fails(all[j]@, f) by {
                            lemma_resolved_variant_has_no_failure(all[j]@, out@[j]@, f);
                        }
                    }
                    assert(variant_fails(all[index]@, e));
                }
                return Err(e);
            },
            Ok(entries) => {
                out.push(entries);
            },
        }
    }
    Ok(Schema::Union { variants: out, no_discriminator })
}

/// Resolves the schema of a declared type.
pub fn resolve_schema(declaration: TypeDeclaration) -> (res: Result<Schema, ConfigError>)
    ensures
        match (declaration, res) {
            (TypeDeclaration::Struct { fields }, Ok(Schema::Record { fields: out })) =>
                fields_resolve(fields@, out@),
            (TypeDeclaration::Struct { fields }, Err(e)) => fields_fail(fields@, e),
            (
                TypeDeclaration::Enum { variants, no_discriminator },
                Ok(Schema::Union { variants: out, no_discriminator: flag }),
            ) => flag == no_discriminator && variants_resolve(variants@, out@),
            (TypeDeclaration::Enum { variants, no_discriminator }, Err(e)) => variants_fail(
                variants@,
                e,
            ),
            _ => false,
        },
{
    match declaration {
        TypeDeclaration::Struct { fields } => resolve_struct(fields),
        TypeDeclaration::Enum { variants, no_discriminator } => resolve_enum(
            variants,
            no_discriminator,
        ),
    }
}

} // verus!
