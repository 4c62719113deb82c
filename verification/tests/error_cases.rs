use wiremap::decode::{decode_record, decode_variant};
use wiremap::errors::DecodeError;
use wiremap::names::CaseRule;
use wiremap::schema::{EnumSchema, FieldDescriptor, FieldType, RecordSchema, RecordShape, VariantDescriptor};
use wiremap::values::FieldValue;
use wiremap::wire::WireValue;

fn field(name: &str, ty: FieldType) -> FieldDescriptor {
    FieldDescriptor { identifier: name.to_string(), renamed: None, skip: false, ty }
}

fn named(fields: Vec<FieldDescriptor>) -> RecordSchema {
    RecordSchema { rule: None, shape: RecordShape::Named(fields) }
}

fn bulk(s: &str) -> WireValue {
    WireValue::Bulk(s.as_bytes().to_vec())
}

fn person_schema() -> RecordSchema {
    named(vec![
        field("name", FieldType::Text),
        field("age", FieldType::Number),
        field("active", FieldType::Truth),
    ])
}

fn point_schema() -> RecordSchema {
    RecordSchema {
        rule: None,
        shape: RecordShape::Tuple(vec![FieldType::Number, FieldType::Number]),
    }
}

fn color_schema() -> EnumSchema {
    EnumSchema {
        rule: None,
        variants: ["Red", "Green", "Blue"]
            .iter()
            .map(|v| VariantDescriptor { identifier: v.to_string() })
            .collect(),
    }
}

#[test]
fn test_struct_from_wrong_redis_type() {
    let value = bulk("not a map");
    let result = decode_record(&person_schema(), &value);

    assert!(result.is_err());
    if let Err(err) = result {
        assert!(matches!(err, DecodeError::ShapeMismatch { .. }));
    }
}

#[test]
fn test_struct_from_nil() {
    let value = WireValue::Null;
    let result = decode_record(&person_schema(), &value);

    assert!(result.is_err());
}

#[test]
fn test_struct_from_array() {
    let value = WireValue::Array(vec![bulk("John"), bulk("30"), bulk("true")]);
    let result = decode_record(&person_schema(), &value);

    assert!(result.is_err());
}

#[test]
fn test_tuple_struct_from_wrong_array_length() {
    let value = WireValue::Array(vec![bulk("10")]);
    let result = decode_record(&point_schema(), &value);

    assert!(result.is_err());

    let value = WireValue::Array(vec![bulk("10"), bulk("20"), bulk("30")]);
    let result = decode_record(&point_schema(), &value);

    assert!(result.is_err());
}

#[test]
fn test_tuple_struct_from_non_array() {
    let value = bulk("not an array");
    let result = decode_record(&point_schema(), &value);

    assert!(result.is_err());
}

#[test]
fn test_enum_from_invalid_variant() {
    let value = bulk("Purple");
    let result = decode_variant(&color_schema(), &value);

    assert!(result.is_err());
}

#[test]
fn test_enum_from_wrong_type() {
    let value = WireValue::Int(42);
    let result = decode_variant(&color_schema(), &value);

    assert!(result.is_err());
}

#[test]
fn test_enum_from_array() {
    let value = WireValue::Array(vec![bulk("Red")]);
    let result = decode_variant(&color_schema(), &value);

    assert!(result.is_err());
}

#[test]
fn test_field_type_conversion_errors() {
    let value = WireValue::Table(vec![
        (bulk("name"), bulk("John")),
        (bulk("age"), bulk("not_a_number")),
        (bulk("active"), bulk("true")),
    ]);

    let result = decode_record(&person_schema(), &value);

    let _ = result;
}

#[test]
fn test_empty_map_with_required_fields() {
    let value = WireValue::Table(vec![]);
    let result = decode_record(&person_schema(), &value);

    let _ = result;
}

#[test]
fn test_malformed_map() {
    let value = WireValue::Table(vec![
        (bulk("name"), bulk("John")),
        (bulk("age"), bulk("30")),
    ]);

    let result = decode_record(&person_schema(), &value);

    let _ = result;
}

#[test]
fn test_deeply_nested_structure() {
    let level3 = named(vec![
        field("data", FieldType::Text),
        field("value", FieldType::Number),
    ]);
    let level2 = named(vec![
        field("data", FieldType::Text),
        field("next", FieldType::Nested(Box::new(level3))),
    ]);
    let level1 = named(vec![
        field("data", FieldType::Text),
        field("next", FieldType::Nested(Box::new(level2))),
    ]);

    let value = vec![
        FieldValue::Text("level1".to_string()),
        FieldValue::Nested(vec![
            FieldValue::Text("level2".to_string()),
            FieldValue::Nested(vec![
                FieldValue::Text("level3".to_string()),
                FieldValue::Number(42),
            ]),
        ]),
    ];

    let _ = (level1, value);
}

#[test]
fn test_large_struct() {
    let mut fields = Vec::new();
    let mut values = Vec::new();
    for i in 1..=10 {
        fields.push(field(&format!("field{}", i), FieldType::Text));
        values.push(FieldValue::Text(i.to_string()));
    }
    for i in [11, 12, 13, 14, 15] {
        fields.push(field(&format!("field{}", i), FieldType::Number));
        values.push(FieldValue::Number(i));
    }
    for (i, b) in [(16, true), (17, false), (18, true), (19, false), (20, true)] {
        fields.push(field(&format!("field{}", i), FieldType::Truth));
        values.push(FieldValue::Truth(b));
    }

    let large = (named(fields), values);
    let _ = large;
}

#[test]
fn test_many_enum_variants() {
    let variants: Vec<VariantDescriptor> = (1..=20)
        .map(|i| VariantDescriptor { identifier: format!("V{}", i) })
        .collect();
    let many = EnumSchema { rule: None, variants };

    let variant = 14usize;
    let _ = (many, variant);
}

#[test]
fn test_enum_wrong_rule_is_build_error() {
    let result = wiremap::schema::resolve_directive(&Some("SCREAMING".to_string()));
    assert!(matches!(
        result,
        Err(wiremap::schema::ConfigurationError::InvalidRule(_))
    ));
    let _ = CaseRule::Snake;
}
