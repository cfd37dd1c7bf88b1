use binary_codec::engine::{
    from_bytes, read_schema, read_typed, to_bytes, write_schema, Typed,
};
use binary_codec::policy::{
    resolve_enum, resolve_policy, resolve_schema, resolve_struct, Annotations, BitWidth,
    ByteWidth, ConfigError, FieldDescriptor, FieldPolicy, FieldSchema, Gate, IntKind,
    LengthStrategy, Schema, TypeDeclaration, TypeDescriptor, VariantField,
};
use binary_codec::value::Value;
use binary_codec::{
    BinarySerializer, DeserializationError, SerializationError, SerializerConfig,
};

fn plain() -> Annotations {
    Annotations {
        bits: None,
        dyn_int: false,
        dyn_length: false,
        key_dyn_length: false,
        val_dyn_length: false,
        toggles: None,
        toggled_by: None,
        length_for: None,
        length_by: None,
        variant_for: None,
        variant_by: None,
    }
}

fn field(name: &str, ty: TypeDescriptor, annotations: Annotations) -> FieldDescriptor {
    FieldDescriptor { name: name.to_string(), ty, annotations }
}

fn some(name: &str) -> Option<String> {
    Some(name.to_string())
}

fn boxed(ty: TypeDescriptor) -> Box<TypeDescriptor> {
    Box::new(ty)
}

fn nested_schema() -> Schema {
    resolve_enum(
        vec![
            vec![VariantField { name: "f0".to_string(), ty: TypeDescriptor::Int(IntKind::U32) }],
            vec![VariantField { name: "f0".to_string(), ty: TypeDescriptor::Int(IntKind::U64) }],
        ],
        false,
    )
    .unwrap()
}

fn example_schema() -> Schema {
    resolve_struct(vec![
        field("toggle", TypeDescriptor::Bool, Annotations { toggles: some("toggle"), ..plain() }),
        field(
            "eventual1",
            TypeDescriptor::Optional(boxed(TypeDescriptor::Int(IntKind::U32))),
            Annotations { toggled_by: some("toggle"), ..plain() },
        ),
        field("toggle2", TypeDescriptor::Bool, Annotations { toggles: some("toggle2"), ..plain() }),
        field(
            "eventual2",
            TypeDescriptor::Optional(boxed(TypeDescriptor::Named(nested_schema()))),
            Annotations { toggled_by: some("toggle2"), ..plain() },
        ),
        field(
            "length",
            TypeDescriptor::Int(IntKind::U8),
            Annotations { length_for: some("len"), bits: Some(3), ..plain() },
        ),
        field("bools", TypeDescriptor::Array(boxed(TypeDescriptor::Bool), 3), plain()),
        field(
            "array1",
            TypeDescriptor::Sequence(boxed(TypeDescriptor::Int(IntKind::U8))),
            Annotations { length_by: some("len"), ..plain() },
        ),
        field("boollie", TypeDescriptor::Bool, plain()),
        field("str", TypeDescriptor::Text, Annotations { length_by: some("len"), ..plain() }),
        field(
            "dyn_len_arr",
            TypeDescriptor::Sequence(boxed(TypeDescriptor::Int(IntKind::U16))),
            Annotations { dyn_length: true, ..plain() },
        ),
        field(
            "my_map",
            TypeDescriptor::Mapping(
                boxed(TypeDescriptor::Int(IntKind::U8)),
                boxed(TypeDescriptor::Text),
            ),
            Annotations { dyn_length: true, val_dyn_length: true, ..plain() },
        ),
        field(
            "dyn_int",
            TypeDescriptor::Int(IntKind::U64),
            Annotations { dyn_int: true, ..plain() },
        ),
    ])
    .unwrap()
}

fn example_value() -> Value {
    Value::Record(vec![
        Value::Bool(true),
        Value::Optional(Some(Box::new(Value::Unsigned(42)))),
        Value::Bool(true),
        Value::Optional(Some(Box::new(Value::Union(1, vec![Value::Unsigned(12345)])))),
        Value::Unsigned(3),
        Value::Sequence(vec![Value::Bool(true), Value::Bool(false), Value::Bool(true)]),
        Value::Sequence(vec![Value::Unsigned(1), Value::Unsigned(2), Value::Unsigned(3)]),
        Value::Bool(true),
        Value::Text("Hoi".to_string()),
        Value::Sequence(vec![Value::Unsigned(3), Value::Unsigned(2), Value::Unsigned(1)]),
        Value::Mapping(vec![
            (Value::Unsigned(1), Value::Text("hello".to_string())),
            (Value::Unsigned(2), Value::Text("world!".to_string())),
        ]),
        Value::Unsigned(777777),
    ])
}

#[test]
fn it_works() {
    let schema = example_schema();
    let o = example_value();

    let x = Value::Union(1, vec![Value::Unsigned(5)]);
    let discr: u8 = match &x {
        Value::Union(variant, _) => *variant,
        _ => unreachable!(),
    };
    println!("DISC: {}", discr);

    let bytes = to_bytes(&schema, &o).unwrap();
    println!("{:?} [{}]", bytes, bytes.len());

    let o2 = from_bytes(&schema, &bytes).unwrap();

    assert_eq!(o, o2);
}

#[test]
fn example_record_has_the_expected_bytes() {
    let bytes = to_bytes(&example_schema(), &example_value()).unwrap();
    let mut expected = vec![
        0b0000_0001, // toggle
        0, 0, 0, 42, // eventual1
        0b0000_0001, // toggle2
        1, 0, 0, 0, 0, 0, 0, 0x30, 0x39, // eventual2: variant 1, 12345
        0b0010_1011, // length in 3 bits, then the three flags
        1, 2, 3, // array1
        0b0000_0001, // boollie
        b'H', b'o', b'i',
        3, 0, 3, 0, 2, 0, 1, // dyn_len_arr with its count
        2, 1, 5, b'h', b'e', b'l', b'l', b'o', 2, 6, b'w', b'o', b'r', b'l', b'd', b'!',
    ];
    expected.extend_from_slice(&[0xB1, 0xBC, 0x2F]); // 777777
    assert_eq!(bytes, expected);
}

#[test]
fn toggled_off_fields_take_no_bytes() {
    let schema = resolve_struct(vec![
        field("t", TypeDescriptor::Bool, Annotations { toggles: some("t"), ..plain() }),
        field(
            "o",
            TypeDescriptor::Optional(boxed(TypeDescriptor::Int(IntKind::U32))),
            Annotations { toggled_by: some("t"), ..plain() },
        ),
    ])
    .unwrap();
    let value = Value::Record(vec![Value::Bool(false), Value::Optional(None)]);
    let bytes = to_bytes(&schema, &value).unwrap();
    assert_eq!(bytes, vec![0]);
    assert_eq!(from_bytes(&schema, &[0, 9, 9, 9, 9, 9]), Ok(value));
    let dropped = Value::Record(vec![
        Value::Bool(false),
        Value::Optional(Some(Box::new(Value::Unsigned(7)))),
    ]);
    assert_eq!(to_bytes(&schema, &dropped), Ok(vec![0]));
    let present = Value::Record(vec![
        Value::Bool(true),
        Value::Optional(Some(Box::new(Value::Unsigned(7)))),
    ]);
    assert_eq!(to_bytes(&schema, &present), Ok(vec![1, 0, 0, 0, 7]));
    assert_eq!(from_bytes(&schema, &[1, 0, 0, 0, 7]), Ok(present));
}

#[test]
fn toggled_on_field_without_value_is_refused() {
    let schema = resolve_struct(vec![
        field("t", TypeDescriptor::Bool, Annotations { toggles: some("t"), ..plain() }),
        field(
            "o",
            TypeDescriptor::Optional(boxed(TypeDescriptor::Int(IntKind::U32))),
            Annotations { toggled_by: some("t"), ..plain() },
        ),
    ])
    .unwrap();
    let value = Value::Record(vec![Value::Bool(true), Value::Optional(None)]);
    assert_eq!(
        to_bytes(&schema, &value),
        Err(SerializationError::InvalidData("toggled field has no value".to_string()))
    );
}

#[test]
fn negated_toggle_gates_the_other_way() {
    let schema = resolve_struct(vec![
        field("t", TypeDescriptor::Bool, Annotations { toggles: some("t"), ..plain() }),
        field(
            "o",
            TypeDescriptor::Optional(boxed(TypeDescriptor::Int(IntKind::U8))),
            Annotations { toggled_by: some("!t"), ..plain() },
        ),
    ])
    .unwrap();
    let absent = Value::Record(vec![Value::Bool(true), Value::Optional(None)]);
    assert_eq!(to_bytes(&schema, &absent), Ok(vec![1]));
    let present = Value::Record(vec![
        Value::Bool(false),
        Value::Optional(Some(Box::new(Value::Unsigned(9)))),
    ]);
    assert_eq!(to_bytes(&schema, &present), Ok(vec![0, 9]));
    assert_eq!(from_bytes(&schema, &[0, 9]), Ok(present));
}

#[test]
fn declared_length_counts_the_elements() {
    let schema = resolve_struct(vec![
        field(
            "length",
            TypeDescriptor::Int(IntKind::U8),
            Annotations { length_for: some("n"), ..plain() },
        ),
        field(
            "items",
            TypeDescriptor::Sequence(boxed(TypeDescriptor::Int(IntKind::U8))),
            Annotations { length_by: some("n"), ..plain() },
        ),
    ])
    .unwrap();
    let value = Value::Record(vec![
        Value::Unsigned(3),
        Value::Sequence(vec![Value::Unsigned(7), Value::Unsigned(8), Value::Unsigned(9)]),
    ]);
    assert_eq!(to_bytes(&schema, &value), Ok(vec![3, 7, 8, 9]));
    let mut config = SerializerConfig::new();
    assert_eq!(read_schema(&schema, &[3, 7, 8, 9, 10], &mut config), Ok(value));
    assert_eq!(config.pos, 4);
    let wrong = Value::Record(vec![
        Value::Unsigned(3),
        Value::Sequence(vec![Value::Unsigned(7), Value::Unsigned(8)]),
    ]);
    assert_eq!(to_bytes(&schema, &wrong), Err(SerializationError::UnexpectedLength(3, 2)));
    assert_eq!(
        from_bytes(&schema, &[3, 7, 8]),
        Err(DeserializationError::NotEnoughBytes(1))
    );
}

#[test]
fn union_is_prefixed_with_its_variant_index() {
    let schema = nested_schema();
    let value = Value::Union(1, vec![Value::Unsigned(5)]);
    assert_eq!(to_bytes(&schema, &value), Ok(vec![1, 0, 0, 0, 0, 0, 0, 0, 5]));
    assert_eq!(from_bytes(&schema, &[1, 0, 0, 0, 0, 0, 0, 0, 5]), Ok(value));
    assert_eq!(
        from_bytes(&schema, &[0, 0, 0, 0, 5]),
        Ok(Value::Union(0, vec![Value::Unsigned(5)]))
    );
    assert_eq!(
        from_bytes(&schema, &[2, 0, 0, 0, 5]),
        Err(DeserializationError::UnknownDiscriminant(2))
    );
    assert_eq!(from_bytes(&schema, &[]), Err(DeserializationError::NotEnoughBytes(1)));
    assert!(matches!(
        to_bytes(&schema, &Value::Union(2, vec![])),
        Err(SerializationError::InvalidData(_))
    ));
}

#[test]
fn union_without_discriminant_takes_the_pending_variant() {
    let inner = resolve_enum(
        vec![
            vec![VariantField { name: "a".to_string(), ty: TypeDescriptor::Int(IntKind::U8) }],
            vec![VariantField { name: "b".to_string(), ty: TypeDescriptor::Int(IntKind::U16) }],
        ],
        true,
    )
    .unwrap();
    let schema = resolve_struct(vec![
        field(
            "kind",
            TypeDescriptor::Int(IntKind::U8),
            Annotations { variant_for: some("kind"), ..plain() },
        ),
        field(
            "body",
            TypeDescriptor::Named(inner),
            Annotations { variant_by: some("kind"), dyn_length: true, ..plain() },
        ),
        field("tail", TypeDescriptor::Int(IntKind::U8), plain()),
    ])
    .unwrap();
    let value = Value::Record(vec![
        Value::Unsigned(1),
        Value::Union(1, vec![Value::Unsigned(0x0102)]),
        Value::Unsigned(9),
    ]);
    let bytes = to_bytes(&schema, &value).unwrap();
    assert_eq!(bytes, vec![1, 2, 1, 2, 9]);
    assert_eq!(from_bytes(&schema, &bytes), Ok(value));

    let alone = resolve_enum(vec![vec![]], true).unwrap();
    assert!(matches!(from_bytes(&alone, &[0]), Err(DeserializationError::InvalidData(_))));
    let mut config = SerializerConfig::new();
    config.discriminator = Some(0);
    assert_eq!(read_schema(&alone, &[], &mut config), Ok(Value::Union(0, vec![])));
    assert_eq!(config.discriminator, None);
}

#[test]
fn packed_fields_share_bytes_and_aligned_fields_close_them() {
    let schema = resolve_struct(vec![
        field("a", TypeDescriptor::Int(IntKind::U8), Annotations { bits: Some(3), ..plain() }),
        field("b", TypeDescriptor::Int(IntKind::I8), Annotations { bits: Some(4), ..plain() }),
        field("c", TypeDescriptor::Int(IntKind::U8), Annotations { bits: Some(3), ..plain() }),
        field("d", TypeDescriptor::Int(IntKind::U16), plain()),
        field("e", TypeDescriptor::Bool, plain()),
    ])
    .unwrap();
    let value = Value::Record(vec![
        Value::Unsigned(5),
        Value::Signed(-3),
        Value::Unsigned(6),
        Value::Unsigned(0x0102),
        Value::Bool(true),
    ]);
    let bytes = to_bytes(&schema, &value).unwrap();
    assert_eq!(bytes, vec![0b0010_1101, 0b0000_0110, 1, 2, 1]);
    assert_eq!(from_bytes(&schema, &bytes), Ok(value));
    let wide = Value::Record(vec![
        Value::Unsigned(8),
        Value::Signed(0),
        Value::Unsigned(0),
        Value::Unsigned(0),
        Value::Bool(false),
    ]);
    assert_eq!(to_bytes(&schema, &wide), Err(SerializationError::ValueOutOfBounds(8, 0, 7)));
    let low = Value::Record(vec![
        Value::Unsigned(0),
        Value::Signed(-9),
        Value::Unsigned(0),
        Value::Unsigned(0),
        Value::Bool(false),
    ]);
    assert_eq!(to_bytes(&schema, &low), Err(SerializationError::ValueOutOfBounds(-9, -8, 7)));
}

#[test]
fn a_record_that_starts_on_whole_bytes_can_go_on_with_bits() {
    let schema = resolve_struct(vec![
        field("a", TypeDescriptor::Int(IntKind::U32), plain()),
        field("b", TypeDescriptor::Bool, plain()),
        field("c", TypeDescriptor::Int(IntKind::I16), plain()),
    ])
    .unwrap();
    let value = Value::Record(vec![Value::Unsigned(1), Value::Bool(true), Value::Signed(-2)]);
    let bytes = to_bytes(&schema, &value).unwrap();
    assert_eq!(bytes, vec![0, 0, 0, 1, 1, 0, 3]);
    assert_eq!(from_bytes(&schema, &bytes), Ok(value));
}

#[test]
fn signed_and_dynamic_integers_read_back() {
    let schema = resolve_struct(vec![
        field("a", TypeDescriptor::Int(IntKind::I8), plain()),
        field("b", TypeDescriptor::Int(IntKind::I32), plain()),
        field("c", TypeDescriptor::Int(IntKind::I64), Annotations { dyn_int: true, ..plain() }),
        field("d", TypeDescriptor::Int(IntKind::U16), Annotations { dyn_int: true, ..plain() }),
        field("e", TypeDescriptor::Int(IntKind::U128), plain()),
        field("f", TypeDescriptor::Int(IntKind::I128), Annotations { dyn_int: true, ..plain() }),
    ])
    .unwrap();
    let value = Value::Record(vec![
        Value::Signed(-128),
        Value::Signed(i32::MAX as i128),
        Value::Signed(-300),
        Value::Unsigned(0),
        Value::Unsigned(u128::MAX),
        Value::Signed(i128::MIN),
    ]);
    let bytes = to_bytes(&schema, &value).unwrap();
    assert_eq!(&bytes[..5], &[255, 0xFF, 0xFF, 0xFF, 0xFE]);
    assert_eq!(&bytes[5..8], &[0xD7, 0x04, 0]);
    assert_eq!(from_bytes(&schema, &bytes), Ok(value));
    let big = Value::Record(vec![
        Value::Signed(128),
        Value::Signed(0),
        Value::Signed(0),
        Value::Unsigned(0),
        Value::Unsigned(0),
        Value::Signed(0),
    ]);
    assert!(matches!(to_bytes(&schema, &big), Err(SerializationError::InvalidData(_))));
}

#[test]
fn dynamic_integer_is_narrowed_to_its_type() {
    let schema = resolve_struct(vec![field(
        "d",
        TypeDescriptor::Int(IntKind::U16),
        Annotations { dyn_int: true, ..plain() },
    )])
    .unwrap();
    // 65536 + 5 in three bytes
    assert_eq!(
        from_bytes(&schema, &[0x85, 0x80, 0x04]),
        Ok(Value::Record(vec![Value::Unsigned(5)]))
    );
}

#[test]
fn open_sequences_and_texts_take_the_rest() {
    let schema = resolve_struct(vec![
        field("flag", TypeDescriptor::Bool, plain()),
        field(
            "items",
            TypeDescriptor::Sequence(boxed(TypeDescriptor::Int(IntKind::U16))),
            plain(),
        ),
    ])
    .unwrap();
    let value = Value::Record(vec![
        Value::Bool(true),
        Value::Sequence(vec![Value::Unsigned(1), Value::Unsigned(2)]),
    ]);
    let bytes = to_bytes(&schema, &value).unwrap();
    assert_eq!(bytes, vec![1, 0, 1, 0, 2]);
    assert_eq!(from_bytes(&schema, &bytes), Ok(value));
    assert_eq!(
        from_bytes(&schema, &[1, 0, 1, 0]),
        Err(DeserializationError::NotEnoughBytes(1))
    );

    let text = resolve_struct(vec![
        field("flag", TypeDescriptor::Bool, plain()),
        field("name", TypeDescriptor::Text, plain()),
    ])
    .unwrap();
    let value = Value::Record(vec![Value::Bool(false), Value::Text("héllo".to_string())]);
    let bytes = to_bytes(&text, &value).unwrap();
    assert_eq!(bytes.len(), 7);
    assert_eq!(from_bytes(&text, &bytes), Ok(value));
}

#[test]
fn an_open_sequence_of_empty_elements_is_refused() {
    let empty = resolve_struct(vec![]).unwrap();
    let schema = resolve_struct(vec![field(
        "items",
        TypeDescriptor::Sequence(boxed(TypeDescriptor::Named(empty))),
        plain(),
    )])
    .unwrap();
    assert!(matches!(from_bytes(&schema, &[1]), Err(DeserializationError::InvalidData(_))));
    assert_eq!(
        from_bytes(&schema, &[]),
        Ok(Value::Record(vec![Value::Sequence(vec![])]))
    );
}

#[test]
fn space_available_optional_reads_while_bytes_are_left() {
    let schema = resolve_struct(vec![
        field("a", TypeDescriptor::Int(IntKind::U8), plain()),
        field("o", TypeDescriptor::Optional(boxed(TypeDescriptor::Int(IntKind::U8))), plain()),
    ])
    .unwrap();
    let absent = Value::Record(vec![Value::Unsigned(1), Value::Optional(None)]);
    let present =
        Value::Record(vec![
            Value::Unsigned(1),
            Value::Optional(Some(Box::new(Value::Unsigned(2)))),
        ]);
    assert_eq!(to_bytes(&schema, &absent), Ok(vec![1]));
    assert_eq!(to_bytes(&schema, &present), Ok(vec![1, 2]));
    assert_eq!(from_bytes(&schema, &[1]), Ok(absent));
    assert_eq!(from_bytes(&schema, &[1, 2]), Ok(present));
}

#[test]
fn nested_record_with_a_length_is_isolated() {
    let inner = resolve_struct(vec![
        field(
            "n",
            TypeDescriptor::Int(IntKind::U8),
            Annotations { length_for: some("n"), ..plain() },
        ),
        field("rest", TypeDescriptor::Text, plain()),
    ])
    .unwrap();
    let schema = resolve_struct(vec![
        field("flag", TypeDescriptor::Bool, plain()),
        field("inner", TypeDescriptor::Named(inner), Annotations { dyn_length: true, ..plain() }),
        field("after", TypeDescriptor::Int(IntKind::U8), plain()),
    ])
    .unwrap();
    let value = Value::Record(vec![
        Value::Bool(true),
        Value::Record(vec![Value::Unsigned(7), Value::Text("ab".to_string())]),
        Value::Unsigned(5),
    ]);
    let bytes = to_bytes(&schema, &value).unwrap();
    assert_eq!(bytes, vec![1, 3, 7, b'a', b'b', 5]);
    assert_eq!(from_bytes(&schema, &bytes), Ok(value));
}

#[test]
fn values_of_the_wrong_shape_are_refused() {
    let schema = resolve_struct(vec![field("a", TypeDescriptor::Bool, plain())]).unwrap();
    let invalid = SerializationError::InvalidData("value does not match its schema".to_string());
    assert_eq!(to_bytes(&schema, &Value::Bool(true)), Err(invalid));
    assert!(to_bytes(&schema, &Value::Record(vec![])).is_err());
    assert!(to_bytes(&schema, &Value::Record(vec![Value::Unsigned(1)])).is_err());
    let mut buffer = vec![9];
    let mut config = SerializerConfig::new();
    config.pos = 1;
    assert_eq!(
        write_schema(&schema, &Value::Record(vec![Value::Bool(true)]), &mut buffer, &mut config),
        Ok(())
    );
    assert_eq!(buffer, vec![9, 1]);
}

#[test]
fn resolver_follows_the_decision_table() {
    let ann = plain();
    assert_eq!(resolve_policy(TypeDescriptor::Bool, &ann), Ok(FieldPolicy::Bool));
    assert_eq!(
        resolve_policy(TypeDescriptor::Int(IntKind::U8), &ann),
        Ok(FieldPolicy::FixedInt { width: ByteWidth::W1 })
    );
    assert_eq!(
        resolve_policy(TypeDescriptor::Int(IntKind::I8), &ann),
        Ok(FieldPolicy::ZigZag { width: ByteWidth::W1 })
    );
    let bits = Annotations { bits: Some(3), dyn_int: true, ..plain() };
    assert_eq!(
        resolve_policy(TypeDescriptor::Int(IntKind::U8), &bits),
        Ok(FieldPolicy::PackedBits { bits: BitWidth::B3, signed: false })
    );
    assert_eq!(
        resolve_policy(TypeDescriptor::Int(IntKind::I8), &bits),
        Ok(FieldPolicy::PackedBits { bits: BitWidth::B3, signed: true })
    );
    assert_eq!(
        resolve_policy(TypeDescriptor::Int(IntKind::U32), &bits),
        Ok(FieldPolicy::DynInt { kind: IntKind::U32 })
    );
    assert_eq!(
        resolve_policy(TypeDescriptor::Int(IntKind::I64), &ann),
        Ok(FieldPolicy::ZigZag { width: ByteWidth::W8 })
    );
    for bad in [0u8, 8, 200] {
        let ann = Annotations { bits: Some(bad), ..plain() };
        assert_eq!(
            resolve_policy(TypeDescriptor::Int(IntKind::U8), &ann),
            Err(ConfigError::BitsOutOfRange(bad))
        );
    }
    let both = Annotations { length_by: some("n"), dyn_length: true, ..plain() };
    assert_eq!(
        resolve_policy(TypeDescriptor::Text, &both),
        Ok(FieldPolicy::VariableBytes { length: LengthStrategy::ByReference("n".to_string()) })
    );
    let prefixed = Annotations { dyn_length: true, ..plain() };
    assert_eq!(
        resolve_policy(TypeDescriptor::Text, &prefixed),
        Ok(FieldPolicy::VariableBytes { length: LengthStrategy::DynamicPrefix })
    );
    assert_eq!(
        resolve_policy(TypeDescriptor::Text, &ann),
        Ok(FieldPolicy::VariableBytes { length: LengthStrategy::UntilExhausted })
    );
    let vec_of_text = Annotations { dyn_length: true, val_dyn_length: true, ..plain() };
    assert_eq!(
        resolve_policy(
            TypeDescriptor::Sequence(boxed(TypeDescriptor::Sequence(boxed(TypeDescriptor::Text)))),
            &vec_of_text
        ),
        Ok(FieldPolicy::Sequence {
            element: Box::new(FieldPolicy::Sequence {
                element: Box::new(FieldPolicy::VariableBytes {
                    length: LengthStrategy::UntilExhausted
                }),
                length: LengthStrategy::DynamicPrefix,
            }),
            length: LengthStrategy::DynamicPrefix,
        })
    );
    assert_eq!(
        resolve_policy(TypeDescriptor::Array(boxed(TypeDescriptor::Bool), 3), &both),
        Ok(FieldPolicy::Sequence {
            element: Box::new(FieldPolicy::Bool),
            length: LengthStrategy::Fixed(3),
        })
    );
    let gated = Annotations { toggled_by: some("t"), ..plain() };
    assert_eq!(
        resolve_policy(TypeDescriptor::Optional(boxed(TypeDescriptor::Bool)), &gated),
        Ok(FieldPolicy::Optional {
            inner: Box::new(FieldPolicy::Bool),
            gate: Gate::Toggle("t".to_string()),
        })
    );
    assert_eq!(
        resolve_policy(TypeDescriptor::Optional(boxed(TypeDescriptor::Bool)), &ann),
        Ok(FieldPolicy::Optional {
            inner: Box::new(FieldPolicy::Bool),
            gate: Gate::SpaceAvailable,
        })
    );
    assert_eq!(
        resolve_policy(
            TypeDescriptor::Optional(boxed(TypeDescriptor::Optional(boxed(TypeDescriptor::Bool)))),
            &ann
        ),
        Err(ConfigError::NestedOptional)
    );
    let keyed = Annotations { key_dyn_length: true, variant_by: some("v"), ..plain() };
    assert_eq!(
        resolve_policy(
            TypeDescriptor::Mapping(boxed(TypeDescriptor::Text), boxed(TypeDescriptor::Text)),
            &keyed
        ),
        Ok(FieldPolicy::Mapping {
            key: Box::new(FieldPolicy::VariableBytes { length: LengthStrategy::DynamicPrefix }),
            value: Box::new(FieldPolicy::VariableBytes {
                length: LengthStrategy::UntilExhausted
            }),
            length: LengthStrategy::UntilExhausted,
        })
    );
    assert_eq!(
        resolve_policy(TypeDescriptor::Named(nested_schema()), &keyed),
        Ok(FieldPolicy::NestedObject {
            schema: Box::new(nested_schema()),
            variant_source: some("v"),
            length: LengthStrategy::UntilExhausted,
        })
    );
}

#[test]
fn schemas_resolve_field_by_field() {
    let schema = resolve_schema(TypeDeclaration::Struct {
        fields: vec![field(
            "t",
            TypeDescriptor::Bool,
            Annotations {
                toggles: some("t"),
                length_for: some("l"),
                variant_for: some("v"),
                ..plain()
            },
        )],
    });
    assert_eq!(
        schema,
        Ok(Schema::Record {
            fields: vec![FieldSchema {
                name: "t".to_string(),
                policy: FieldPolicy::Bool,
                toggles: some("t"),
                length_for: some("l"),
                variant_for: some("v"),
            }]
        })
    );
    let failing = resolve_schema(TypeDeclaration::Struct {
        fields: vec![
            field("a", TypeDescriptor::Bool, plain()),
            field("b", TypeDescriptor::Int(IntKind::U8), Annotations { bits: Some(9), ..plain() }),
            field("c", TypeDescriptor::Int(IntKind::U8), Annotations { bits: Some(0), ..plain() }),
        ],
    });
    assert_eq!(failing, Err(ConfigError::BitsOutOfRange(9)));
    let union = resolve_schema(TypeDeclaration::Enum {
        variants: vec![
            vec![],
            vec![VariantField { name: "x".to_string(), ty: TypeDescriptor::Text }],
        ],
        no_discriminator: true,
    });
    assert_eq!(
        union,
        Ok(Schema::Union {
            variants: vec![
                vec![],
                vec![FieldSchema {
                    name: "x".to_string(),
                    policy: FieldPolicy::VariableBytes { length: LengthStrategy::UntilExhausted },
                    toggles: None,
                    length_for: None,
                    variant_for: None,
                }]
            ],
            no_discriminator: true,
        })
    );
}

#[test]
fn typed_values_are_written_through_the_trait() {
    let schema = nested_schema();
    let value = Value::Union(0, vec![Value::Unsigned(7)]);
    let typed = Typed { schema: &schema, value: &value };
    assert_eq!(typed.to_bytes(None), Ok(vec![0, 0, 0, 0, 7]));
    let mut buffer = vec![9u8];
    assert_eq!(typed.write_bytes(&mut buffer, None), Ok(()));
    assert_eq!(buffer, vec![9, 0, 0, 0, 0, 7]);
    let mut config = SerializerConfig::new();
    config.pos = 6;
    assert_eq!(typed.write_bytes(&mut buffer, Some(&mut config)), Ok(()));
    assert_eq!(buffer.len(), 11);
    assert_eq!(config.pos, 11);
    config.pos = 12;
    assert!(matches!(
        typed.write_bytes(&mut buffer, Some(&mut config)),
        Err(SerializationError::InvalidData(_))
    ));
    assert_eq!(buffer.len(), 11);
}

#[test]
fn typed_values_are_read_with_or_without_a_state() {
    let schema = nested_schema();
    let bytes = [9u8, 0, 0, 0, 0, 7];
    assert_eq!(
        read_typed(&schema, &bytes[1..], None),
        Ok(Value::Union(0, vec![Value::Unsigned(7)]))
    );
    let mut config = SerializerConfig::new();
    config.pos = 1;
    assert_eq!(
        read_typed(&schema, &bytes, Some(&mut config)),
        Ok(Value::Union(0, vec![Value::Unsigned(7)]))
    );
    assert_eq!(config.pos, 6);
    config.bits = 9;
    assert!(matches!(
        read_typed(&schema, &bytes, Some(&mut config)),
        Err(DeserializationError::InvalidData(_))
    ));
}
