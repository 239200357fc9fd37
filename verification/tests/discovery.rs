use scimforge::discovery::{
    check_schema, check_sub_attributes, is_case_exact, AttributeDefinition, SchemaResource,
    MAX_DEPTH, SCHEMA_SCHEMA_URI,
};
use scimforge::json::{Members, Number, Value as Doc};
use serde_json::Value;

/// The library's form of a JSON value.
fn lib(value: &Value) -> Doc {
    match value {
        Value::Null => Doc::Null,
        Value::Bool(b) => Doc::Bool(*b),
        Value::Number(n) => Doc::Number(if let Some(u) = n.as_u64() {
            Number::PosInt(u)
        } else if let Some(i) = n.as_i64() {
            Number::NegInt(i)
        } else {
            Number::Float(n.as_f64().unwrap().to_bits())
        }),
        Value::String(s) => Doc::String(s.clone()),
        Value::Array(items) => Doc::Array(items.iter().map(lib).collect()),
        Value::Object(map) => {
            let mut members = Members::new();
            for (name, item) in map {
                members.insert(name.clone(), lib(item));
            }
            Doc::Object(members)
        }
    }
}

fn json(text: &str) -> Value {
    serde_json::from_str(text).unwrap()
}



fn widget_schema() -> SchemaResource {
    SchemaResource {
        schemas: vec![SCHEMA_SCHEMA_URI.to_string()],
        id: "urn:test:Widget".to_string(),
        name: Some("Widget".to_string()),
        description: None,
        attributes: vec![
            AttributeDefinition {
                case_exact: true,
                ..AttributeDefinition::simple(
                    "serialNumber",
                    "string",
                    "Case-sensitive top-level attribute.",
                    "readWrite",
                )
            },
            AttributeDefinition {
                multi_valued: true,
                sub_attributes: vec![
                    AttributeDefinition {
                        case_exact: true,
                        ..AttributeDefinition::simple(
                            "code",
                            "string",
                            "Case-sensitive sub-attribute.",
                            "readWrite",
                        )
                    },
                    AttributeDefinition::simple(
                        "label",
                        "string",
                        "Case-insensitive sub-attribute.",
                        "readWrite",
                    ),
                ],
                ..AttributeDefinition::simple(
                    "parts",
                    "complex",
                    "A list of parts.",
                    "readWrite",
                )
            },
        ],
    }
}

#[test]
fn is_case_exact_resolves_a_top_level_schema_attribute() {
    let schema = widget_schema();
    assert!(is_case_exact(Some(&schema), None, "serialNumber", None));
    assert!(!is_case_exact(Some(&schema), None, "parts", None));
}

#[test]
fn is_case_exact_resolves_a_sub_attribute_of_a_multi_valued_parent() {
    let schema = widget_schema();
    assert!(is_case_exact(Some(&schema), Some("parts"), "code", None));
    assert!(!is_case_exact(Some(&schema), Some("parts"), "label", None));
}

#[test]
fn is_case_exact_resolves_rfc_7643_section_3_1_common_attributes_with_no_schema_match() {
    assert!(is_case_exact(None, None, "id", None));
    assert!(is_case_exact(None, None, "externalId", None));
    assert!(is_case_exact(None, None, "meta", Some("resourceType")));
    assert!(is_case_exact(None, None, "meta", Some("version")));
    assert!(!is_case_exact(None, None, "meta", Some("created")));
    assert!(!is_case_exact(None, None, "meta", Some("lastModified")));
    assert!(!is_case_exact(None, None, "meta", Some("location")));
}

#[test]
fn is_case_exact_prefers_the_schema_over_the_common_attributes_table() {
    let schema = SchemaResource {
        schemas: vec![SCHEMA_SCHEMA_URI.to_string()],
        id: "urn:test:Override".to_string(),
        name: None,
        description: None,
        attributes: vec![AttributeDefinition {
            case_exact: true,
            ..AttributeDefinition::simple(
                "userName",
                "string",
                "A schema that opts an ordinary attribute into case-exactness.",
                "readWrite",
            )
        }],
    };
    assert!(is_case_exact(Some(&schema), None, "userName", None));
}

#[test]
fn is_case_exact_does_not_let_a_schema_override_the_four_rfc_mandated_common_attributes() {
    let schema = SchemaResource {
        schemas: vec![SCHEMA_SCHEMA_URI.to_string()],
        id: "urn:test:Override".to_string(),
        name: None,
        description: None,
        attributes: vec![AttributeDefinition {
            case_exact: false,
            ..AttributeDefinition::simple(
                "externalId",
                "string",
                "A schema that (unusually) redeclares externalId.",
                "readWrite",
            )
        }],
    };
    assert!(is_case_exact(Some(&schema), None, "externalId", None));
    assert!(is_case_exact(Some(&schema), None, "id", None));
    assert!(is_case_exact(Some(&schema), None, "meta", Some("resourceType")));
    assert!(is_case_exact(Some(&schema), None, "meta", Some("version")));
}

#[test]
fn is_case_exact_folds_case_for_anything_it_cannot_resolve() {
    assert!(!is_case_exact(None, None, "userName", None));
    let schema = widget_schema();
    assert!(!is_case_exact(
        Some(&schema),
        Some("parts"),
        "unmodeled",
        None
    ));
}

fn schema_json(id: &str, attributes: Vec<Value>) -> Value {
    let mut schema = serde_json::Map::new();
    schema.insert("schemas".to_string(), Value::from(vec![SCHEMA_SCHEMA_URI]));
    schema.insert("id".to_string(), Value::from(id));
    schema.insert("attributes".to_string(), Value::from(attributes));
    Value::Object(schema)
}

fn nested_attribute_json(depth: usize) -> serde_json::Value {
    let mut attr = json(r#"{
        "name": "level",
        "type": "complex",
        "multiValued": false,
        "description": "A recursively nested attribute.",
        "required": false,
        "caseExact": false,
        "mutability": "readWrite",
        "returned": "default",
        "uniqueness": "none"
    }"#);
    if depth > 0 {
        attr["subAttributes"] = serde_json::Value::Array(vec![nested_attribute_json(depth - 1)]);
    }
    attr
}

#[test]
fn accepts_sub_attributes_nested_exactly_at_max_depth() {
    let json = nested_attribute_json(MAX_DEPTH);
    let result = check_sub_attributes(&lib(&json));
    assert!(result.is_ok());
}

#[test]
fn rejects_sub_attributes_nested_one_past_max_depth() {
    let json = nested_attribute_json(MAX_DEPTH + 1);
    let result = check_sub_attributes(&lib(&json));
    let err = result.expect_err("nesting one past MAX_DEPTH must be rejected");
    assert!(
        err.to_string().contains("subAttributes nesting exceeds"),
        "unexpected error: {err}"
    );
}

#[test]
fn rejects_deeply_nested_sub_attributes_via_schema_resource() {
    let json = schema_json("urn:test:DeepAttack", vec![nested_attribute_json(MAX_DEPTH + 1)]);
    let result = check_schema(&lib(&json));
    assert!(result.is_err());
}

#[test]
fn sibling_attributes_each_independently_reach_max_depth_within_one_call() {
    let json = schema_json("urn:test:Siblings", vec![nested_attribute_json(MAX_DEPTH), nested_attribute_json(MAX_DEPTH)]);
    let result = check_schema(&lib(&json));
    assert!(result.is_ok(), "sibling nesting wrongly accumulated: {result:?}");
}

#[test]
fn depth_counter_does_not_leak_across_deserialize_calls() {
    let too_deep = nested_attribute_json(MAX_DEPTH + 1);
    let rejected = check_sub_attributes(&lib(&too_deep));
    assert!(rejected.is_err());

    let shallow = nested_attribute_json(1);
    let accepted = check_sub_attributes(&lib(&shallow));
    assert!(accepted.is_ok());
}
