use binary_codec::engine::{from_bytes, to_bytes};
use binary_codec::laws::faithful::{delimits_itself, schema_delimits_itself};
use binary_codec::policy::{
    BitWidth, ByteWidth, FieldPolicy, FieldSchema, Gate, IntKind, LengthStrategy, Schema,
};
use binary_codec::value::Value;

fn entry(name: &str, policy: FieldPolicy) -> FieldSchema {
    FieldSchema {
        name: name.to_string(),
        policy,
        toggles: None,
        length_for: None,
        variant_for: None,
    }
}

fn inner_schema() -> Schema {
    Schema::Union {
        variants: vec![
            vec![],
            vec![entry("x", FieldPolicy::PackedBits { bits: BitWidth::B5, signed: true })],
        ],
        no_discriminator: false,
    }
}

fn counted_schema() -> Schema {
    Schema::Record {
        fields: vec![
            entry("flag", FieldPolicy::Bool),
            entry("small", FieldPolicy::PackedBits { bits: BitWidth::B3, signed: false }),
            entry("wide", FieldPolicy::ZigZag { width: ByteWidth::W4 }),
            entry("dyn", FieldPolicy::DynInt { kind: IntKind::I16 }),
            entry("name", FieldPolicy::VariableBytes { length: LengthStrategy::DynamicPrefix }),
            entry(
                "items",
                FieldPolicy::Sequence {
                    element: Box::new(FieldPolicy::Bool),
                    length: LengthStrategy::DynamicPrefix,
                },
            ),
            entry(
                "pairs",
                FieldPolicy::Mapping {
                    key: Box::new(FieldPolicy::FixedInt { width: ByteWidth::W1 }),
                    value: Box::new(FieldPolicy::Sequence {
                        element: Box::new(FieldPolicy::FixedInt { width: ByteWidth::W2 }),
                        length: LengthStrategy::Fixed(2),
                    }),
                    length: LengthStrategy::DynamicPrefix,
                },
            ),
            entry(
                "inner",
                FieldPolicy::NestedObject {
                    schema: Box::new(inner_schema()),
                    variant_source: None,
                    length: LengthStrategy::DynamicPrefix,
                },
            ),
            entry(
                "shared",
                FieldPolicy::NestedObject {
                    schema: Box::new(inner_schema()),
                    variant_source: None,
                    length: LengthStrategy::UntilExhausted,
                },
            ),
            entry("last", FieldPolicy::Bool),
        ],
    }
}

fn counted_value(seed: u64) -> Value {
    let flags = (0..(seed % 11)).map(|i| Value::Bool((seed >> i) & 1 == 1)).collect();
    let pairs = (0..(seed % 3))
        .map(|i| {
            (
                Value::Unsigned((seed as u128 + i as u128) % 256),
                Value::Sequence(vec![
                    Value::Unsigned((seed as u128 * 7) % 65536),
                    Value::Unsigned(i as u128),
                ]),
            )
        })
        .collect();
    let inner = |k: u64| {
        if k % 2 == 0 {
            Value::Union(0, vec![])
        } else {
            Value::Union(1, vec![Value::Signed((k % 32) as i128 - 16)])
        }
    };
    Value::Record(vec![
        Value::Bool(seed % 2 == 0),
        Value::Unsigned((seed % 8) as u128),
        Value::Signed(seed as i128 % 1000 - 500),
        Value::Signed((seed as i128 * 37) % 65536 - 32768),
        Value::Text("é".repeat((seed % 5) as usize)),
        Value::Sequence(flags),
        Value::Mapping(pairs),
        inner(seed),
        inner(seed / 2),
        Value::Bool(seed % 3 == 0),
    ])
}

#[test]
fn self_delimiting_schemas_are_recognised() {
    assert!(schema_delimits_itself(&counted_schema()));
    assert!(schema_delimits_itself(&inner_schema()));
    assert!(delimits_itself(&FieldPolicy::Bool));
    assert!(!delimits_itself(&FieldPolicy::VariableBytes {
        length: LengthStrategy::UntilExhausted
    }));
    assert!(!delimits_itself(&FieldPolicy::VariableBytes {
        length: LengthStrategy::ByReference("n".to_string())
    }));
    assert!(!delimits_itself(&FieldPolicy::Optional {
        inner: Box::new(FieldPolicy::Bool),
        gate: Gate::SpaceAvailable,
    }));
    assert!(!delimits_itself(&FieldPolicy::NestedObject {
        schema: Box::new(inner_schema()),
        variant_source: Some("v".to_string()),
        length: LengthStrategy::DynamicPrefix,
    }));
    let open_inside = Schema::Record {
        fields: vec![
            entry("a", FieldPolicy::Bool),
            entry(
                "b",
                FieldPolicy::Sequence {
                    element: Box::new(FieldPolicy::Bool),
                    length: LengthStrategy::UntilExhausted,
                },
            ),
        ],
    };
    assert!(!schema_delimits_itself(&open_inside));
    let bare = Schema::Union { variants: vec![vec![]], no_discriminator: true };
    assert!(!schema_delimits_itself(&bare));
}

#[test]
fn every_value_of_a_self_delimiting_schema_reads_back() {
    let schema = counted_schema();
    for seed in 0..500u64 {
        let value = counted_value(seed);
        let bytes = to_bytes(&schema, &value).unwrap();
        assert_eq!(from_bytes(&schema, &bytes), Ok(value), "seed {}", seed);
    }
}

#[test]
fn a_dropped_value_does_not_read_back() {
    let schema = Schema::Record {
        fields: vec![
            FieldSchema {
                name: "t".to_string(),
                policy: FieldPolicy::Bool,
                toggles: Some("t".to_string()),
                length_for: None,
                variant_for: None,
            },
            entry(
                "o",
                FieldPolicy::Optional {
                    inner: Box::new(FieldPolicy::FixedInt { width: ByteWidth::W1 }),
                    gate: Gate::Toggle("t".to_string()),
                },
            ),
        ],
    };
    let value = Value::Record(vec![
        Value::Bool(false),
        Value::Optional(Some(Box::new(Value::Unsigned(7)))),
    ]);
    let bytes = to_bytes(&schema, &value).unwrap();
    assert_eq!(
        from_bytes(&schema, &bytes),
        Ok(Value::Record(vec![Value::Bool(false), Value::Optional(None)]))
    );
}

#[test]
fn an_open_text_in_front_of_another_field_does_not_read_back() {
    let schema = Schema::Record {
        fields: vec![
            entry("name", FieldPolicy::VariableBytes { length: LengthStrategy::UntilExhausted }),
            entry("n", FieldPolicy::FixedInt { width: ByteWidth::W1 }),
        ],
    };
    let value = Value::Record(vec![Value::Text("ab".to_string()), Value::Unsigned(99)]);
    let bytes = to_bytes(&schema, &value).unwrap();
    assert_eq!(bytes, vec![b'a', b'b', 99]);
    assert!(from_bytes(&schema, &bytes).is_err());
}
