use scimforge::json::{Members, Number, Value as Doc};
use scimforge::patch::PatchOp;
use scimforge::server::patch_request::{parse_patch_operations, PatchRequestError};
use serde_json::Value;

/// The library's form of a JSON value.
fn lib(value: &Value) -> Doc {
    match value {
        Value::Null => Doc::Null,
        Value::Bool(b) => Doc::Bool(*b),
        Value::Number(n) => Doc::Number(if let Some(u) = n.as_u64() {
            Number::PosInt(u)
        } else if let Some(i) = n.as_i64() {
            Number::NegInt(i)
        } else {
            Number::Float(n.as_f64().unwrap().to_bits())
        }),
        Value::String(s) => Doc::String(s.clone()),
        Value::Array(items) => Doc::Array(items.iter().map(lib).collect()),
        Value::Object(map) => {
            let mut members = Members::new();
            for (name, item) in map {
                members.insert(name.clone(), lib(item));
            }
            Doc::Object(members)
        }
    }
}

fn json(text: &str) -> Value {
    serde_json::from_str(text).unwrap()
}

#[test]
fn parses_the_rfc_7644_worked_example_verbatim() {
    let body = json(r#"{
        "schemas": ["urn:ietf:params:scim:api:messages:2.0:PatchOp"],
        "Operations": [{
            "op": "add",
            "path": "members",
            "value": [{"display": "Babs Jensen", "value": "2819c223-7f76-453a-919d-413861904646"}]
        }]
    }"#);
    let ops = parse_patch_operations(&lib(&body)).unwrap();
    assert_eq!(ops.len(), 1);
    assert_eq!(ops[0].op, PatchOp::Add);
    assert_eq!(ops[0].path.as_deref(), Some("members"));
}

#[test]
fn parses_the_exact_keycloak_plugin_shaped_active_replace_op() {
    let body = json(r#"{
        "schemas": ["urn:ietf:params:scim:api:messages:2.0:PatchOp"],
        "Operations": [
            {"op": "replace", "path": "active", "value": "true"},
            {"op": "replace", "path": "userName", "value": "bjensen"},
            {"op": "replace", "path": "displayName", "value": "Babs Jensen"}
        ]
    }"#);
    let ops = parse_patch_operations(&lib(&body)).unwrap();
    assert_eq!(ops.len(), 3);
    assert_eq!(ops[0].value, Some(lib(&json(r#""true""#))));
}

#[test]
fn op_matching_is_case_insensitive_since_the_sdk_the_plugin_is_built_on_parses_that_way() {
    let body = json(r#"{
        "Operations": [{"op": "REPLACE", "path": "active", "value": "true"}]
    }"#);
    let ops = parse_patch_operations(&lib(&body)).unwrap();
    assert_eq!(ops[0].op, PatchOp::Replace);
}

#[test]
fn missing_operations_array_is_a_typed_error_not_a_panic() {
    let body = json(r#"{"schemas": []}"#);
    assert_eq!(
        parse_patch_operations(&lib(&body)).unwrap_err(),
        PatchRequestError::MissingOperations
    );
}

#[test]
fn an_unknown_op_value_is_a_typed_error_not_a_silent_skip() {
    let body = json(r#"{"Operations": [{"op": "frobnicate", "path": "active"}]}"#);
    assert_eq!(
        parse_patch_operations(&lib(&body)).unwrap_err(),
        PatchRequestError::UnknownOp("frobnicate".to_string())
    );
}
