use wiremap::attrs::{
    absorb_attribute_tokens, absorb_field_attribute_tokens, extract_quoted_value, FieldAttributes,
    ParsedAttributeMap,
};
use wiremap::names::{
    apply_case_rule, parse_case_rule, to_camel_case, to_kebab_case, to_lower_case, to_pascal_case,
    to_snake_case, to_upper_case, transform_field_name, transform_variant_name, CaseRule,
};
use wiremap::schema::{resolve_directive, ConfigurationError};

#[test]
fn test_case_transformations() {
    assert_eq!(to_snake_case("MyFieldName"), "my_field_name");
    assert_eq!(to_pascal_case("my_field_name"), "MyFieldName");
    assert_eq!(to_camel_case("my_field_name"), "myFieldName");
    assert_eq!(to_kebab_case("MyFieldName"), "my-field-name");
}

#[test]
fn test_transform_variant_name() {
    assert_eq!(
        transform_variant_name("InProgress", Some(&"snake_case".to_string())),
        "in_progress"
    );
    assert_eq!(
        transform_variant_name("InProgress", Some(&"kebab-case".to_string())),
        "in-progress"
    );
    assert_eq!(
        transform_variant_name("InProgress", Some(&"lowercase".to_string())),
        "inprogress"
    );
    assert_eq!(transform_variant_name("InProgress", None), "InProgress");
}

#[test]
fn test_extract_quoted_value() {
    assert_eq!(
        extract_quoted_value(r#"rename_all = "snake_case""#, "rename_all"),
        Some("snake_case".to_string())
    );
    assert_eq!(
        extract_quoted_value(r#"expire = "3600""#, "expire"),
        Some("3600".to_string())
    );
    assert_eq!(extract_quoted_value("cache", "cache"), None);
}

#[test]
fn test_case_table_literals() {
    assert_eq!(to_pascal_case("my_field"), "MyField");
    assert_eq!(to_camel_case("my_field"), "myField");
    assert_eq!(to_snake_case("MyFieldName"), "my_field_name");
    assert_eq!(to_kebab_case("MyFieldName"), "my-field-name");
    assert_eq!(to_upper_case("MyField"), "MYFIELD");
    assert_eq!(to_lower_case("MyField"), "myfield");
}

#[test]
fn test_case_rules_idempotent_samples() {
    let samples = ["my_field_name", "MyFieldName", "myHTTPServer", "alreadylower", ""];
    for rule in [
        CaseRule::Lower,
        CaseRule::Upper,
        CaseRule::Pascal,
        CaseRule::Camel,
        CaseRule::Snake,
        CaseRule::Kebab,
    ] {
        for s in samples {
            let once = apply_case_rule(rule, s);
            let twice = apply_case_rule(rule, &once);
            assert_eq!(twice, once, "rule {:?} not idempotent on {:?}", rule, s);
        }
    }
}

#[test]
fn test_snake_case_splits_acronym_runs() {
    assert_eq!(to_snake_case("HTTPServer"), "http_server");
    assert_eq!(to_snake_case("already_snake"), "already_snake");
}

#[test]
fn test_transform_field_name_override_precedence() {
    let rename_all = "snake_case".to_string();
    let over = "id".to_string();
    assert_eq!(
        transform_field_name("UserId", Some(&rename_all), Some(&over)),
        "id"
    );
    assert_eq!(
        transform_field_name("UserId", Some(&rename_all), None),
        "user_id"
    );
    assert_eq!(transform_field_name("UserId", None, None), "UserId");
}

#[test]
fn test_parse_case_rule_names() {
    assert_eq!(parse_case_rule("lowercase"), Some(CaseRule::Lower));
    assert_eq!(parse_case_rule("UPPERCASE"), Some(CaseRule::Upper));
    assert_eq!(parse_case_rule("PascalCase"), Some(CaseRule::Pascal));
    assert_eq!(parse_case_rule("camelCase"), Some(CaseRule::Camel));
    assert_eq!(parse_case_rule("snake_case"), Some(CaseRule::Snake));
    assert_eq!(parse_case_rule("kebab-case"), Some(CaseRule::Kebab));
    assert_eq!(parse_case_rule("SHOUTING"), None);
}

#[test]
fn test_resolve_directive_rejects_unknown_rule() {
    assert_eq!(resolve_directive(&None), Ok(None));
    assert_eq!(
        resolve_directive(&Some("snake_case".to_string())),
        Ok(Some(CaseRule::Snake))
    );
    assert_eq!(
        resolve_directive(&Some("sarcasm_case".to_string())),
        Err(ConfigurationError::InvalidRule("sarcasm_case".to_string()))
    );
}

#[test]
fn test_absorb_attribute_tokens_directives() {
    let mut parsed = ParsedAttributeMap::default();
    absorb_attribute_tokens(&mut parsed, r#"rename_all = "kebab-case", ttl = "600", cache"#);
    assert_eq!(parsed.rename_all, Some("kebab-case".to_string()));
    assert_eq!(parsed.ttl, Some("600".to_string()));
    assert!(parsed.cache);
    assert_eq!(parsed.cluster_key, None);
    absorb_attribute_tokens(&mut parsed, r#"cluster_key = "user_id""#);
    assert_eq!(parsed.cluster_key, Some("user_id".to_string()));
    assert_eq!(parsed.rename_all, Some("kebab-case".to_string()));
}

#[test]
fn test_absorb_field_attribute_tokens_directives() {
    let mut fa = FieldAttributes::default();
    absorb_field_attribute_tokens(&mut fa, r#"skip, rename = "uid""#);
    assert!(fa.skip);
    assert_eq!(fa.rename, Some("uid".to_string()));
    let mut fb = FieldAttributes::default();
    absorb_field_attribute_tokens(&mut fb, r#"expire = "1800""#);
    assert_eq!(fb.expire, Some("1800".to_string()));
    let mut fc = FieldAttributes::default();
    absorb_field_attribute_tokens(&mut fc, r#"expire = "1800", expire_at = "deadline""#);
    assert_eq!(fc.expire, None);
    assert_eq!(fc.expire_at, Some("deadline".to_string()));
}
