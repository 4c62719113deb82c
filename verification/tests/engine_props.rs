use wiremap::args::{form_to_args, form_to_wire};
use wiremap::decode::{decode_record, decode_value, decode_variant};
use wiremap::encode::{encode_record, encode_value};
use wiremap::errors::DecodeError;
use wiremap::names::CaseRule;
use wiremap::schema::{
    check_name_collisions, check_token_collisions, ConfigurationError, EnumSchema,
    FieldDescriptor, FieldType, RecordSchema, RecordShape, VariantDescriptor,
};
use wiremap::values::FieldValue;
use wiremap::wire::{EncodedForm, WireValue};

fn field(name: &str, ty: FieldType) -> FieldDescriptor {
    FieldDescriptor { identifier: name.to_string(), renamed: None, skip: false, ty }
}

fn named(rule: Option<CaseRule>, fields: Vec<FieldDescriptor>) -> RecordSchema {
    RecordSchema { rule, shape: RecordShape::Named(fields) }
}

fn bulk(s: &str) -> WireValue {
    WireValue::Bulk(s.as_bytes().to_vec())
}

fn text(s: &str) -> FieldValue {
    FieldValue::Text(s.to_string())
}

fn colors() -> EnumSchema {
    EnumSchema {
        rule: None,
        variants: ["Red", "Green", "Blue"]
            .iter()
            .map(|v| VariantDescriptor { identifier: v.to_string() })
            .collect(),
    }
}

#[test]
fn test_rename_override_beats_type_rule() {
    let schema = named(
        Some(CaseRule::Snake),
        vec![
            FieldDescriptor {
                identifier: "UserId".to_string(),
                renamed: Some("id".to_string()),
                skip: false,
                ty: FieldType::Number,
            },
            field("UserName", FieldType::Text),
        ],
    );
    let value = vec![FieldValue::Number(7), text("kim")];

    let args = form_to_args(&encode_record(&schema, &value));
    let strings: Vec<String> = args.iter().map(|a| String::from_utf8_lossy(a).to_string()).collect();

    assert!(strings.contains(&"id".to_string()));
    assert!(!strings.contains(&"user_id".to_string()));
    assert!(strings.contains(&"user_name".to_string()));
}

#[test]
fn test_missing_required_field_is_reported() {
    let schema = named(
        None,
        vec![field("name", FieldType::Text), field("age", FieldType::Number)],
    );
    let value = WireValue::Table(vec![(bulk("name"), bulk("Ada"))]);

    let result = decode_record(&schema, &value);
    assert_eq!(
        result.unwrap_err(),
        DecodeError::MissingField { field: "age".to_string() }
    );
}

#[test]
fn test_arity_mismatch_reports_both_lengths() {
    let schema = RecordSchema {
        rule: None,
        shape: RecordShape::Tuple(vec![FieldType::Number, FieldType::Number]),
    };

    let three = WireValue::Array(vec![bulk("1"), bulk("2"), bulk("3")]);
    assert_eq!(
        decode_record(&schema, &three).unwrap_err(),
        DecodeError::ArityMismatch { expected: 2, actual: 3 }
    );

    let one = WireValue::Array(vec![bulk("1")]);
    assert_eq!(
        decode_record(&schema, &one).unwrap_err(),
        DecodeError::ArityMismatch { expected: 2, actual: 1 }
    );
}

#[test]
fn test_unknown_variant_message_lists_all_tokens() {
    let result = decode_variant(&colors(), &bulk("Purple"));
    let err = result.unwrap_err();
    match &err {
        DecodeError::UnknownVariant { token, allowed } => {
            assert_eq!(token, "Purple");
            assert_eq!(allowed, "Red, Green, Blue");
        }
        other => panic!("expected an unknown-variant error, got {:?}", other),
    }
    let message = err.describe();
    assert!(message.contains("Red"));
    assert!(message.contains("Green"));
    assert!(message.contains("Blue"));
    assert!(message.contains("Purple"));
}

#[test]
fn test_enum_accepts_all_string_shapes_equally() {
    let schema = colors();
    let from_bulk = decode_variant(&schema, &bulk("Green"));
    let from_simple = decode_variant(&schema, &WireValue::Simple("Green".to_string()));
    let from_verbatim = decode_variant(
        &schema,
        &WireValue::Verbatim { format: "txt".to_string(), text: "Green".to_string() },
    );
    assert_eq!(from_bulk, Ok(1));
    assert_eq!(from_simple, Ok(1));
    assert_eq!(from_verbatim, Ok(1));

    let from_int = decode_variant(&schema, &WireValue::Int(2));
    assert!(matches!(
        from_int.unwrap_err(),
        DecodeError::TypeMismatch { .. }
    ));
    let from_array = decode_variant(&schema, &WireValue::Array(vec![bulk("Green")]));
    assert!(matches!(
        from_array.unwrap_err(),
        DecodeError::TypeMismatch { .. }
    ));
    let from_null = decode_variant(&schema, &WireValue::Null);
    assert!(matches!(
        from_null.unwrap_err(),
        DecodeError::TypeMismatch { .. }
    ));
}

#[test]
fn test_invalid_utf8_is_an_encoding_error() {
    let junk = WireValue::Bulk(vec![0xff, 0xfe, 0x41]);
    assert_eq!(
        decode_value(&FieldType::Text, &junk).unwrap_err(),
        DecodeError::EncodingError
    );
    assert_eq!(
        decode_variant(&colors(), &junk).unwrap_err(),
        DecodeError::EncodingError
    );
}

#[test]
fn test_list_element_failure_carries_index() {
    let listing = FieldType::Listing(Box::new(FieldType::Number));
    let value = WireValue::Array(vec![bulk("1"), bulk("two"), bulk("3")]);
    match decode_value(&listing, &value).unwrap_err() {
        DecodeError::ElementFailure { index, cause } => {
            assert_eq!(index, 1);
            assert!(matches!(*cause, DecodeError::TypeMismatch { .. }));
        }
        other => panic!("expected an element failure, got {:?}", other),
    }
}

#[test]
fn test_field_failure_carries_wire_name() {
    let schema = named(
        None,
        vec![field("name", FieldType::Text), field("age", FieldType::Number)],
    );
    let value = WireValue::Table(vec![
        (bulk("name"), bulk("Ada")),
        (bulk("age"), bulk("abc")),
    ]);
    match decode_record(&schema, &value).unwrap_err() {
        DecodeError::FieldFailure { field, cause } => {
            assert_eq!(field, "age");
            assert!(matches!(*cause, DecodeError::TypeMismatch { .. }));
        }
        other => panic!("expected a field failure, got {:?}", other),
    }
}

#[test]
fn test_integer_leaf_encoding_is_decimal() {
    let encoded = encode_value(&FieldType::Number, &FieldValue::Number(-42)).unwrap();
    assert_eq!(encoded, WireValue::Bulk(b"-42".to_vec()));

    assert_eq!(
        decode_value(&FieldType::Number, &bulk("123")),
        Ok(FieldValue::Number(123))
    );
    assert_eq!(
        decode_value(&FieldType::Number, &bulk("+7")),
        Ok(FieldValue::Number(7))
    );
    assert_eq!(
        decode_value(&FieldType::Number, &WireValue::Int(5)),
        Ok(FieldValue::Number(5))
    );
    assert!(decode_value(&FieldType::Number, &bulk("99999999999999999999")).is_err());
    assert!(decode_value(&FieldType::Number, &bulk("")).is_err());

    let round = decode_value(
        &FieldType::Number,
        &encode_value(&FieldType::Number, &FieldValue::Number(i64::MIN)).unwrap(),
    );
    assert_eq!(round, Ok(FieldValue::Number(i64::MIN)));
}

#[test]
fn test_truth_leaf_wire_forms() {
    assert_eq!(
        encode_value(&FieldType::Truth, &FieldValue::Truth(true)).unwrap(),
        WireValue::Bulk(b"1".to_vec())
    );
    assert_eq!(
        encode_value(&FieldType::Truth, &FieldValue::Truth(false)).unwrap(),
        WireValue::Bulk(b"0".to_vec())
    );
    assert_eq!(
        decode_value(&FieldType::Truth, &WireValue::Int(0)),
        Ok(FieldValue::Truth(false))
    );
    assert_eq!(
        decode_value(&FieldType::Truth, &WireValue::Int(3)),
        Ok(FieldValue::Truth(true))
    );
    assert!(decode_value(&FieldType::Truth, &bulk("yes")).is_err());
}

#[test]
fn test_duplicate_keys_last_write_wins() {
    let schema = named(None, vec![field("name", FieldType::Text)]);
    let value = WireValue::Table(vec![
        (bulk("name"), bulk("first")),
        (bulk("name"), bulk("second")),
    ]);
    let parsed = decode_record(&schema, &value).unwrap();
    assert_eq!(parsed, vec![text("second")]);
}

#[test]
fn test_flat_pair_sequence_and_map_decode_identically() {
    let schema = named(
        None,
        vec![field("name", FieldType::Text), field("age", FieldType::Number)],
    );
    let as_pairs = WireValue::Array(vec![
        bulk("name"),
        bulk("Ada"),
        bulk("age"),
        bulk("36"),
    ]);
    let as_map = WireValue::Table(vec![
        (bulk("name"), bulk("Ada")),
        (bulk("age"), bulk("36")),
    ]);
    let from_pairs = decode_record(&schema, &as_pairs).unwrap();
    let from_map = decode_record(&schema, &as_map).unwrap();
    assert_eq!(from_pairs, from_map);
    assert_eq!(from_pairs, vec![text("Ada"), FieldValue::Number(36)]);
}

#[test]
fn test_odd_length_pair_sequence_is_rejected() {
    let schema = named(None, vec![field("name", FieldType::Text)]);
    let value = WireValue::Array(vec![bulk("name"), bulk("Ada"), bulk("stray")]);
    assert!(matches!(
        decode_record(&schema, &value).unwrap_err(),
        DecodeError::ShapeMismatch { .. }
    ));
}

#[test]
fn test_skipped_field_has_no_wire_presence() {
    let schema = named(
        None,
        vec![
            field("kept", FieldType::Text),
            FieldDescriptor {
                identifier: "secret".to_string(),
                renamed: None,
                skip: true,
                ty: FieldType::Optional(Box::new(FieldType::Text)),
            },
        ],
    );
    let value = vec![text("shown"), FieldValue::Maybe(Some(Box::new(text("hidden"))))];

    let form = encode_record(&schema, &value);
    match &form {
        EncodedForm::FlatPairs(pairs) => {
            assert_eq!(pairs.len(), 1);
            assert_eq!(pairs[0].0, "kept");
        }
        other => panic!("expected named pairs, got {:?}", other),
    }

    let wire = WireValue::Table(vec![
        (bulk("kept"), bulk("shown")),
        (bulk("secret"), bulk("ignored")),
    ]);
    let parsed = decode_record(&schema, &wire).unwrap();
    assert_eq!(parsed, vec![text("shown"), FieldValue::Maybe(None)]);
}

#[test]
fn test_nested_record_round_trip() {
    let inner = named(
        None,
        vec![field("street", FieldType::Text), field("zip", FieldType::Text)],
    );
    let outer = named(
        Some(CaseRule::Snake),
        vec![
            field("FullName", FieldType::Text),
            field("HomeAddress", FieldType::Nested(Box::new(inner))),
            field("Nicknames", FieldType::Listing(Box::new(FieldType::Text))),
            field("Age", FieldType::Optional(Box::new(FieldType::Number))),
        ],
    );
    let value = vec![
        text("Grace Hopper"),
        FieldValue::Nested(vec![text("9 Navy Way"), text("22203")]),
        FieldValue::Many(vec![text("Amazing Grace")]),
        FieldValue::Maybe(Some(Box::new(FieldValue::Number(85)))),
    ];

    let wire = form_to_wire(encode_record(&outer, &value));
    let decoded = decode_record(&outer, &wire).unwrap();
    assert_eq!(decoded, value);
}

#[test]
fn test_absent_optional_has_no_wire_presence() {
    let schema = named(
        None,
        vec![
            field("name", FieldType::Text),
            field("email", FieldType::Optional(Box::new(FieldType::Text))),
        ],
    );
    let value = vec![text("Bob"), FieldValue::Maybe(None)];

    let form = encode_record(&schema, &value);
    match &form {
        EncodedForm::FlatPairs(pairs) => {
            assert_eq!(pairs.len(), 1);
            assert_eq!(pairs[0].0, "name");
        }
        other => panic!("expected named pairs, got {:?}", other),
    }

    let decoded = decode_record(&schema, &form_to_wire(form)).unwrap();
    assert_eq!(decoded, value);
}

#[test]
fn test_shape_mismatch_message_names_shapes() {
    let schema = named(None, vec![field("name", FieldType::Text)]);
    let err = decode_record(&schema, &WireValue::Int(9)).unwrap_err();
    let message = err.describe();
    assert!(message.contains("integer"));
    assert!(message.contains("shape mismatch"));
}

#[test]
fn test_name_collision_is_detected() {
    let colliding = named(
        Some(CaseRule::Snake),
        vec![
            field("UserName", FieldType::Text),
            field("user_name", FieldType::Text),
        ],
    );
    assert_eq!(
        check_name_collisions(&colliding),
        Err(ConfigurationError::NameCollision("user_name".to_string()))
    );

    let fine = named(
        Some(CaseRule::Snake),
        vec![
            field("UserName", FieldType::Text),
            field("UserMail", FieldType::Text),
        ],
    );
    assert_eq!(check_name_collisions(&fine), Ok(()));

    let nested_collision = named(
        None,
        vec![field("inner", FieldType::Nested(Box::new(colliding)))],
    );
    assert!(check_name_collisions(&nested_collision).is_err());
}

#[test]
fn test_token_collision_is_detected() {
    let clashing = EnumSchema {
        rule: Some(CaseRule::Lower),
        variants: ["Redis", "REDIS"]
            .iter()
            .map(|v| VariantDescriptor { identifier: v.to_string() })
            .collect(),
    };
    assert_eq!(
        check_token_collisions(&clashing),
        Err(ConfigurationError::NameCollision("redis".to_string()))
    );
    assert_eq!(check_token_collisions(&colors()), Ok(()));
}

#[test]
fn test_raw_leaf_passes_bytes_through() {
    let payload = vec![0u8, 159, 146, 150];
    let encoded = encode_value(&FieldType::Raw, &FieldValue::Raw(payload.clone())).unwrap();
    assert_eq!(encoded, WireValue::Bulk(payload.clone()));
    assert_eq!(
        decode_value(&FieldType::Raw, &encoded),
        Ok(FieldValue::Raw(payload))
    );
}
