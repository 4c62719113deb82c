use redis::ToRedisArgs;
use wiremap::args::{form_to_args, form_to_wire};
use wiremap::decode::{decode_record, decode_variant};
use wiremap::encode::{encode_record, encode_variant};
use wiremap::names::CaseRule;
use wiremap::schema::{EnumSchema, FieldDescriptor, FieldType, RecordSchema, RecordShape, VariantDescriptor};
use wiremap::values::FieldValue;
use wiremap::wire::WireValue;

fn field(name: &str, ty: FieldType) -> FieldDescriptor {
    FieldDescriptor { identifier: name.to_string(), renamed: None, skip: false, ty }
}

fn named(rule: Option<CaseRule>, fields: Vec<FieldDescriptor>) -> RecordSchema {
    RecordSchema { rule, shape: RecordShape::Named(fields) }
}

fn tuple(types: Vec<FieldType>) -> RecordSchema {
    RecordSchema { rule: None, shape: RecordShape::Tuple(types) }
}

fn enumeration(rule: Option<CaseRule>, variants: &[&str]) -> EnumSchema {
    EnumSchema {
        rule,
        variants: variants
            .iter()
            .map(|v| VariantDescriptor { identifier: v.to_string() })
            .collect(),
    }
}

fn bulk(s: &str) -> WireValue {
    WireValue::Bulk(s.as_bytes().to_vec())
}

fn text(s: &str) -> FieldValue {
    FieldValue::Text(s.to_string())
}

fn person_schema() -> RecordSchema {
    named(
        None,
        vec![
            field("name", FieldType::Text),
            field("age", FieldType::Number),
            field("email", FieldType::Optional(Box::new(FieldType::Text))),
            field("hobbies", FieldType::Listing(Box::new(FieldType::Text))),
        ],
    )
}

fn to_args(schema: &RecordSchema, values: &Vec<FieldValue>) -> Vec<Vec<u8>> {
    form_to_args(&encode_record(schema, values))
}

fn arg_strings(args: &[Vec<u8>]) -> Vec<String> {
    args.iter().map(|a| String::from_utf8_lossy(a).to_string()).collect()
}

#[test]
fn test_named_struct_to_redis_args() {
    let schema = person_schema();
    let person = vec![
        text("Alice"),
        FieldValue::Number(30),
        FieldValue::Maybe(Some(Box::new(text("alice@example.com")))),
        FieldValue::Many(vec![text("reading"), text("swimming")]),
    ];

    let args = to_args(&schema, &person);

    assert!(args.len() >= 8);

    let strings = arg_strings(&args);
    assert!(strings.contains(&"name".to_string()));
    assert!(strings.contains(&"age".to_string()));
    assert!(strings.contains(&"email".to_string()));
    assert!(strings.contains(&"hobbies".to_string()));
}

#[test]
fn test_named_struct_from_redis_value() {
    let schema = person_schema();
    let redis_value = WireValue::Table(vec![
        (bulk("name"), bulk("Alice")),
        (bulk("age"), bulk("30")),
        (bulk("email"), bulk("alice@example.com")),
        (
            bulk("hobbies"),
            WireValue::Array(vec![bulk("reading"), bulk("swimming")]),
        ),
    ]);

    let person = decode_record(&schema, &redis_value).unwrap();

    assert_eq!(person[0], text("Alice"));
    assert_eq!(person[1], FieldValue::Number(30));
    assert_eq!(
        person[2],
        FieldValue::Maybe(Some(Box::new(text("alice@example.com"))))
    );
    assert_eq!(
        person[3],
        FieldValue::Many(vec![text("reading"), text("swimming")])
    );
}

#[test]
fn test_named_struct_with_missing_optional_field() {
    let schema = person_schema();
    let redis_value = WireValue::Table(vec![
        (bulk("name"), bulk("Bob")),
        (bulk("age"), bulk("25")),
        (bulk("hobbies"), WireValue::Array(vec![])),
    ]);

    let person = decode_record(&schema, &redis_value).unwrap();

    assert_eq!(person[0], text("Bob"));
    assert_eq!(person[1], FieldValue::Number(25));
    assert_eq!(person[2], FieldValue::Maybe(None));
    assert_eq!(person[3], FieldValue::Many(vec![]));
}

#[test]
fn test_named_struct_round_trip() {
    let schema = person_schema();
    let original = vec![
        text("Charlie"),
        FieldValue::Number(40),
        FieldValue::Maybe(Some(Box::new(text("charlie@test.com")))),
        FieldValue::Many(vec![text("coding")]),
    ];

    let wire = form_to_wire(encode_record(&schema, &original));
    let decoded = decode_record(&schema, &wire).unwrap();

    assert_eq!(decoded, original);
}

#[test]
fn test_tuple_struct_to_redis_args() {
    let schema = tuple(vec![FieldType::Number, FieldType::Number, FieldType::Number]);
    let point = vec![
        FieldValue::Number(10),
        FieldValue::Number(20),
        FieldValue::Number(30),
    ];

    let args = to_args(&schema, &point);

    assert_eq!(args.len(), 3);

    let values = arg_strings(&args);
    assert!(values.contains(&"10".to_string()));
    assert!(values.contains(&"20".to_string()));
    assert!(values.contains(&"30".to_string()));
}

#[test]
fn test_tuple_struct_from_redis_value() {
    let schema = tuple(vec![FieldType::Number, FieldType::Number, FieldType::Number]);
    let redis_value = WireValue::Array(vec![bulk("10"), bulk("20"), bulk("30")]);

    let point = decode_record(&schema, &redis_value).unwrap();
    assert_eq!(
        point,
        vec![
            FieldValue::Number(10),
            FieldValue::Number(20),
            FieldValue::Number(30)
        ]
    );
}

#[test]
fn test_tuple_struct_wrong_array_length() {
    let schema = tuple(vec![FieldType::Number, FieldType::Number, FieldType::Number]);
    let redis_value = WireValue::Array(vec![bulk("10"), bulk("20")]);

    let result = decode_record(&schema, &redis_value);
    assert!(result.is_err());
}

#[test]
fn test_tuple_struct_with_floats() {
    let schema = tuple(vec![FieldType::Raw, FieldType::Raw]);
    let coords = vec![
        FieldValue::Raw(12.34f64.to_redis_args().remove(0)),
        FieldValue::Raw(56.78f64.to_redis_args().remove(0)),
    ];

    let args = to_args(&schema, &coords);
    assert_eq!(args.len(), 2);
}

#[test]
fn test_unit_struct_to_redis_args() {
    let schema = RecordSchema { rule: None, shape: RecordShape::Unit };
    let args = to_args(&schema, &vec![]);

    assert_eq!(args.len(), 1);
    assert_eq!(args[0], b"");
}

#[test]
fn test_unit_struct_from_redis_value() {
    let schema = RecordSchema { rule: None, shape: RecordShape::Unit };
    let empty = decode_record(&schema, &WireValue::Null).unwrap();
    assert_eq!(empty, Vec::<FieldValue>::new());
}

#[test]
fn test_enum_to_redis_args() {
    let colors = enumeration(None, &["Red", "Green", "Blue"]);
    let args = form_to_args(&encode_variant(&colors, 0));

    assert_eq!(args.len(), 1);
    assert_eq!(String::from_utf8_lossy(&args[0]), "Red");
}

#[test]
fn test_enum_from_redis_value() {
    let colors = enumeration(None, &["Red", "Green", "Blue"]);
    let color = decode_variant(&colors, &bulk("Green")).unwrap();
    assert_eq!(color, 1);
}

#[test]
fn test_enum_from_simple_string() {
    let colors = enumeration(None, &["Red", "Green", "Blue"]);
    let color = decode_variant(&colors, &WireValue::Simple("Blue".to_string())).unwrap();
    assert_eq!(color, 2);
}

#[test]
fn test_enum_invalid_variant() {
    let colors = enumeration(None, &["Red", "Green", "Blue"]);
    let result = decode_variant(&colors, &bulk("Purple"));
    assert!(result.is_err());
}

#[test]
fn test_enum_snake_case_transformation() {
    let statuses = enumeration(
        Some(CaseRule::Snake),
        &["Active", "InProgress", "Completed"],
    );
    let args = form_to_args(&encode_variant(&statuses, 1));

    assert_eq!(args.len(), 1);
    assert_eq!(String::from_utf8_lossy(&args[0]), "in_progress");

    let parsed = decode_variant(&statuses, &bulk("in_progress")).unwrap();
    assert_eq!(parsed, 1);
}

#[test]
fn test_enum_uppercase_transformation() {
    let priorities = enumeration(Some(CaseRule::Upper), &["Low", "Medium", "High"]);
    let args = form_to_args(&encode_variant(&priorities, 2));

    assert_eq!(args.len(), 1);
    assert_eq!(String::from_utf8_lossy(&args[0]), "HIGH");

    let parsed = decode_variant(&priorities, &bulk("HIGH")).unwrap();
    assert_eq!(parsed, 2);
}

#[test]
fn test_enum_kebab_case_transformation() {
    let tasks = enumeration(
        Some(CaseRule::Kebab),
        &["DataAnalysis", "ReportGeneration", "SystemMaintenance"],
    );
    let args = form_to_args(&encode_variant(&tasks, 0));

    assert_eq!(args.len(), 1);
    assert_eq!(String::from_utf8_lossy(&args[0]), "data-analysis");

    let parsed = decode_variant(&tasks, &bulk("system-maintenance")).unwrap();
    assert_eq!(parsed, 2);
}

#[test]
fn test_nested_struct_to_redis_args() {
    let address = named(
        None,
        vec![
            field("street", FieldType::Text),
            field("city", FieldType::Text),
            field("zip", FieldType::Text),
        ],
    );
    let employee = named(
        None,
        vec![
            field("id", FieldType::Number),
            field("name", FieldType::Text),
            field("address", FieldType::Nested(Box::new(address))),
            field("active", FieldType::Truth),
        ],
    );
    let value = vec![
        FieldValue::Number(1001),
        text("John Doe"),
        FieldValue::Nested(vec![text("123 Main St"), text("Anytown"), text("12345")]),
        FieldValue::Truth(true),
    ];

    let args = to_args(&employee, &value);
    assert!(args.len() > 0);
}

#[test]
fn test_struct_from_non_map_value() {
    let schema = named(
        None,
        vec![field("name", FieldType::Text), field("age", FieldType::Number)],
    );
    let result = decode_record(&schema, &bulk("not a map"));
    assert!(result.is_err());
}

#[test]
fn test_struct_from_nil_value() {
    let schema = named(
        None,
        vec![field("name", FieldType::Text), field("age", FieldType::Number)],
    );
    let result = decode_record(&schema, &WireValue::Null);
    assert!(result.is_err());
}

#[test]
fn test_struct_from_array_value() {
    let schema = named(
        None,
        vec![field("name", FieldType::Text), field("age", FieldType::Number)],
    );
    let result = decode_record(&schema, &WireValue::Array(vec![bulk("John")]));
    assert!(result.is_err());
}

#[test]
fn test_unicode_handling() {
    let schema = named(
        None,
        vec![
            field("emoji", FieldType::Text),
            field("chinese", FieldType::Text),
            field("arabic", FieldType::Text),
        ],
    );
    let value = vec![text("🚀🌟"), text("你好世界"), text("مرحبا بالعالم")];

    let args = to_args(&schema, &value);
    assert!(args.len() > 0);

    let strings = arg_strings(&args);
    assert!(strings.iter().any(|s| s.contains("emoji")));
    assert!(strings.iter().any(|s| s.contains("🚀")));
}

#[test]
fn integration_tests_test_empty_collections() {
    let schema = named(
        None,
        vec![
            field("empty_vec", FieldType::Listing(Box::new(FieldType::Text))),
            field("empty_option", FieldType::Optional(Box::new(FieldType::Text))),
        ],
    );
    let empty = vec![FieldValue::Many(vec![]), FieldValue::Maybe(None)];

    let args = to_args(&schema, &empty);
    assert!(args.len() > 0);

    let redis_value = WireValue::Table(vec![(bulk("empty_vec"), WireValue::Array(vec![]))]);

    let parsed = decode_record(&schema, &redis_value).unwrap();
    assert_eq!(parsed[0], FieldValue::Many(vec![]));
    assert_eq!(parsed[1], FieldValue::Maybe(None));
}

#[test]
fn test_large_numbers() {
    let schema = named(
        None,
        vec![
            field("big_int", FieldType::Number),
            field("big_uint", FieldType::Raw),
            field("float_val", FieldType::Raw),
        ],
    );
    let large = vec![
        FieldValue::Number(i64::MAX),
        FieldValue::Raw(u64::MAX.to_redis_args().remove(0)),
        FieldValue::Raw(f64::MAX.to_redis_args().remove(0)),
    ];

    let args = to_args(&schema, &large);
    assert!(args.len() > 0);

    let strings = arg_strings(&args);
    assert!(strings.iter().any(|s| s.contains(&i64::MAX.to_string())));
}

#[test]
fn test_special_characters_in_field_names() {
    let schema = named(
        None,
        vec![
            field("field_with_underscores", FieldType::Text),
            field("field_with_camel_case", FieldType::Text),
        ],
    );
    let special = vec![text("test1"), text("test2")];

    let args = to_args(&schema, &special);
    assert!(args.len() > 0);
}

#[test]
fn test_zero_values() {
    let schema = named(
        None,
        vec![
            field("zero_int", FieldType::Number),
            field("zero_float", FieldType::Raw),
            field("empty_string", FieldType::Text),
        ],
    );
    let zeros = vec![
        FieldValue::Number(0),
        FieldValue::Raw(b"0".to_vec()),
        text(""),
    ];

    let args = to_args(&schema, &zeros);
    assert!(args.len() > 0);

    let redis_value = WireValue::Table(vec![
        (bulk("zero_int"), bulk("0")),
        (bulk("zero_float"), bulk("0")),
        (bulk("empty_string"), bulk("")),
    ]);

    let parsed = decode_record(&schema, &redis_value).unwrap();
    assert_eq!(parsed, zeros);
}

#[test]
fn test_complex_struct_integration() {
    let roles = enumeration(
        Some(CaseRule::Snake),
        &["Administrator", "RegularUser", "GuestUser"],
    );
    let schema = named(
        None,
        vec![
            field("id", FieldType::Number),
            field("username", FieldType::Text),
            field("email", FieldType::Optional(Box::new(FieldType::Text))),
            field("role", FieldType::Text),
            field("tags", FieldType::Listing(Box::new(FieldType::Text))),
            field("active", FieldType::Truth),
        ],
    );
    let role_args = form_to_args(&encode_variant(&roles, 0));
    assert_eq!(String::from_utf8_lossy(&role_args[0]), "administrator");

    let user = vec![
        FieldValue::Number(12345),
        text("testuser"),
        FieldValue::Maybe(Some(Box::new(text("test@example.com")))),
        text("administrator"),
        FieldValue::Many(vec![text("vip"), text("premium")]),
        FieldValue::Truth(true),
    ];

    let args = to_args(&schema, &user);
    assert!(args.len() > 0);

    let bool_args = to_args(
        &named(None, vec![field("active", FieldType::Truth)]),
        &vec![FieldValue::Truth(true)],
    );
    let bool_serialized = String::from_utf8_lossy(&bool_args[1]).to_string();

    let redis_value = WireValue::Table(vec![
        (bulk("id"), bulk("12345")),
        (bulk("username"), bulk("testuser")),
        (bulk("email"), bulk("test@example.com")),
        (bulk("role"), bulk("administrator")),
        (
            bulk("tags"),
            WireValue::Array(vec![bulk("vip"), bulk("premium")]),
        ),
        (bulk("active"), bulk(&bool_serialized)),
    ]);

    let parsed = decode_record(&schema, &redis_value).unwrap();
    assert_eq!(parsed, user);
}
