use binary_codec::policy::{ConfigError, IntKind, Schema, TypeDescriptor};
use binary_codec::syntax::{
    annotations_of, declare_field, describe_type, get_inner_type, get_int_value_from_attribute,
    get_string_value_from_attribute, get_two_types, has_marker, parse_decimal, same_text, unquote,
    ArgumentSyntax, AttributeSyntax, LiteralSyntax, MetaSyntax, TokenSyntax, TypeSyntax,
};

fn attr(name: &str, meta: MetaSyntax) -> AttributeSyntax {
    AttributeSyntax { name: Some(name.to_string()), meta }
}

fn named(name: &str) -> TypeSyntax {
    TypeSyntax::Path { segments: 1, name: name.to_string(), arguments: None, resolved: None }
}

fn generic(name: &str, arguments: Vec<ArgumentSyntax>) -> TypeSyntax {
    TypeSyntax::Path {
        segments: 1,
        name: name.to_string(),
        arguments: Some(arguments),
        resolved: None,
    }
}

fn lit(text: &str) -> TokenSyntax {
    TokenSyntax::Literal(text.to_string())
}

#[test]
fn quotes_are_stripped_at_both_ends() {
    assert_eq!(unquote("\"len\""), "len");
    assert_eq!(unquote("\"\"a\"b\"\""), "a\"b");
    assert_eq!(unquote("plain"), "plain");
    assert_eq!(unquote("\"\"\""), "");
    assert_eq!(unquote(""), "");
    assert_eq!(unquote("\"é\""), "é");
    assert!(same_text("abc", "abc"));
    assert!(!same_text("abc", "abd"));
}

#[test]
fn decimal_numbers_are_read_as_the_standard_library_reads_them() {
    for text in [
        "0", "7", "-7", "+7", "007", "2147483647", "-2147483648", "2147483648", "-2147483649",
        "99999999999999999999", "", "-", "+", "1a", "a1", " 1", "1 ", "--1", "3u8", "١",
    ] {
        assert_eq!(parse_decimal(text), text.parse::<i32>().ok(), "{}", text);
    }
}

#[test]
fn string_value_comes_from_the_first_literal_or_the_value() {
    let list = attr(
        "toggles",
        MetaSyntax::List(vec![TokenSyntax::Other, lit("\"t\""), lit("\"u\"")]),
    );
    assert_eq!(get_string_value_from_attribute(&list), Some("t".to_string()));
    let value = attr("length_by", MetaSyntax::NameValue(LiteralSyntax::Text("len".to_string())));
    assert_eq!(get_string_value_from_attribute(&value), Some("len".to_string()));
    let number = attr("bits", MetaSyntax::NameValue(LiteralSyntax::Integer("3".to_string())));
    assert_eq!(get_string_value_from_attribute(&number), None);
    assert_eq!(get_string_value_from_attribute(&attr("dyn_int", MetaSyntax::Path)), None);
    assert_eq!(
        get_string_value_from_attribute(&attr("x", MetaSyntax::List(vec![TokenSyntax::Other]))),
        None
    );
}

#[test]
fn int_value_comes_from_the_first_number_or_the_value() {
    let list = attr("bits", MetaSyntax::List(vec![lit("\"x\""), lit("3u8"), lit("5"), lit("6")]));
    assert_eq!(get_int_value_from_attribute(&list), Some(5));
    let value = attr("bits", MetaSyntax::NameValue(LiteralSyntax::Integer("3".to_string())));
    assert_eq!(get_int_value_from_attribute(&value), Some(3));
    let text = attr("bits", MetaSyntax::NameValue(LiteralSyntax::Text("3".to_string())));
    assert_eq!(get_int_value_from_attribute(&text), None);
    assert_eq!(get_int_value_from_attribute(&attr("bits", MetaSyntax::Path)), None);
}

#[test]
fn annotations_follow_the_attributes_in_order() {
    let attrs = vec![
        attr("doc", MetaSyntax::NameValue(LiteralSyntax::Text("ignored".to_string()))),
        attr("bits", MetaSyntax::NameValue(LiteralSyntax::Integer("259".to_string()))),
        attr("dyn_int", MetaSyntax::Path),
        attr("length_for", MetaSyntax::NameValue(LiteralSyntax::Text("len".to_string()))),
        attr("length_by", MetaSyntax::List(vec![lit("\"a\"")])),
        attr("length_by", MetaSyntax::List(vec![lit("\"b\"")])),
        attr("toggles", MetaSyntax::Path),
        AttributeSyntax { name: None, meta: MetaSyntax::Path },
        attr("val_dyn_length", MetaSyntax::Path),
    ];
    let ann = annotations_of(&attrs);
    assert_eq!(ann.bits, Some(3));
    assert!(ann.dyn_int);
    assert!(!ann.dyn_length);
    assert!(!ann.key_dyn_length);
    assert!(ann.val_dyn_length);
    assert_eq!(ann.length_for, Some("len".to_string()));
    assert_eq!(ann.length_by, Some("b".to_string()));
    assert_eq!(ann.toggles, None);
    assert_eq!(ann.toggled_by, None);
    assert!(has_marker(&attrs, "dyn_int"));
    assert!(!has_marker(&attrs, "no_discriminator"));
}

#[test]
fn first_type_arguments_are_found() {
    assert_eq!(get_inner_type(vec![]), None);
    assert_eq!(
        get_inner_type(vec![ArgumentSyntax::Other, ArgumentSyntax::Type(named("u8"))]),
        None
    );
    assert_eq!(
        get_inner_type(vec![ArgumentSyntax::Type(named("u8")), ArgumentSyntax::Type(named("u16"))]),
        Some(named("u8"))
    );
    assert_eq!(get_two_types(vec![ArgumentSyntax::Type(named("u8"))]), None);
    assert_eq!(
        get_two_types(vec![
            ArgumentSyntax::Other,
            ArgumentSyntax::Type(named("u8")),
            ArgumentSyntax::Other,
            ArgumentSyntax::Type(named("String")),
            ArgumentSyntax::Type(named("bool")),
        ]),
        Some((named("u8"), named("String")))
    );
}

#[test]
fn written_types_are_described() {
    assert_eq!(describe_type(named("bool")), Ok(TypeDescriptor::Bool));
    assert_eq!(describe_type(named("u8")), Ok(TypeDescriptor::Int(IntKind::U8)));
    assert_eq!(describe_type(named("i128")), Ok(TypeDescriptor::Int(IntKind::I128)));
    assert_eq!(describe_type(named("String")), Ok(TypeDescriptor::Text));
    assert_eq!(describe_type(named("Nested")), Err(ConfigError::UnknownType));
    let resolved = TypeSyntax::Path {
        segments: 1,
        name: "Nested".to_string(),
        arguments: None,
        resolved: Some(Schema::Record { fields: vec![] }),
    };
    assert_eq!(
        describe_type(resolved),
        Ok(TypeDescriptor::Named(Schema::Record { fields: vec![] }))
    );
    assert_eq!(
        describe_type(generic("Option", vec![ArgumentSyntax::Type(named("u32"))])),
        Ok(TypeDescriptor::Optional(Box::new(TypeDescriptor::Int(IntKind::U32))))
    );
    assert_eq!(
        describe_type(generic(
            "Vec",
            vec![ArgumentSyntax::Type(generic("Vec", vec![ArgumentSyntax::Type(named("bool"))]))]
        )),
        Ok(TypeDescriptor::Sequence(Box::new(TypeDescriptor::Sequence(Box::new(
            TypeDescriptor::Bool
        )))))
    );
    assert_eq!(
        describe_type(generic(
            "HashMap",
            vec![ArgumentSyntax::Type(named("u8")), ArgumentSyntax::Type(named("String"))]
        )),
        Ok(TypeDescriptor::Mapping(
            Box::new(TypeDescriptor::Int(IntKind::U8)),
            Box::new(TypeDescriptor::Text)
        ))
    );
    assert_eq!(
        describe_type(TypeSyntax::Array { element: Box::new(named("bool")), len: Some(3) }),
        Ok(TypeDescriptor::Array(Box::new(TypeDescriptor::Bool), 3))
    );
    assert_eq!(
        describe_type(TypeSyntax::Array { element: Box::new(named("bool")), len: None }),
        Err(ConfigError::UnknownLength)
    );
    assert_eq!(describe_type(generic("Option", vec![])), Err(ConfigError::MissingTypeArgument));
    assert_eq!(
        describe_type(generic("HashMap", vec![ArgumentSyntax::Type(named("u8"))])),
        Err(ConfigError::MissingTypeArgument)
    );
    assert_eq!(
        describe_type(generic("Box", vec![ArgumentSyntax::Type(named("u8"))])),
        Err(ConfigError::UnsupportedType)
    );
    assert_eq!(describe_type(TypeSyntax::Other), Err(ConfigError::UnsupportedType));
    let long = TypeSyntax::Path {
        segments: 2,
        name: "bool".to_string(),
        arguments: None,
        resolved: None,
    };
    assert_eq!(describe_type(long), Err(ConfigError::UnsupportedType));
}

#[test]
fn field_declarations_hold_type_and_annotations() {
    let attrs = vec![attr("bits", MetaSyntax::NameValue(LiteralSyntax::Integer("3".to_string())))];
    let field = declare_field("length".to_string(), named("u8"), &attrs).unwrap();
    assert_eq!(field.name, "length");
    assert_eq!(field.ty, TypeDescriptor::Int(IntKind::U8));
    assert_eq!(field.annotations.bits, Some(3));
    assert_eq!(
        declare_field("x".to_string(), TypeSyntax::Other, &attrs),
        Err(ConfigError::UnsupportedType)
    );
}
