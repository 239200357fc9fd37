use scimforge::bulk::{
    check_limits, order_operations, BulkError, BulkIdResolver, BulkMethod, BulkOperationRequest,
    BulkRequest, BulkStatus, BULK_REQUEST_SCHEMA_URI,
};
use scimforge::json::{Members, Number, Value as Doc};
use serde_json::Value;

/// The library's form of a JSON value.
fn lib(value: &Value) -> Doc {
    match value {
        Value::Null => Doc::Null,
        Value::Bool(b) => Doc::Bool(*b),
        Value::Number(n) => Doc::Number(if let Some(u) = n.as_u64() {
            Number::PosInt(u)
        } else if let Some(i) = n.as_i64() {
            Number::NegInt(i)
        } else {
            Number::Float(n.as_f64().unwrap().to_bits())
        }),
        Value::String(s) => Doc::String(s.clone()),
        Value::Array(items) => Doc::Array(items.iter().map(lib).collect()),
        Value::Object(map) => {
            let mut members = Members::new();
            for (name, item) in map {
                members.insert(name.clone(), lib(item));
            }
            Doc::Object(members)
        }
    }
}

/// A JSON value of the library in the form that tests index into.
fn plain(doc: &Doc) -> Value {
    match doc {
        Doc::Null => Value::Null,
        Doc::Bool(b) => Value::Bool(*b),
        Doc::Number(Number::PosInt(u)) => Value::from(*u),
        Doc::Number(Number::NegInt(i)) => Value::from(*i),
        Doc::Number(Number::Float(bits)) => Value::from(f64::from_bits(*bits)),
        Doc::String(s) => Value::String(s.clone()),
        Doc::Array(items) => Value::Array(items.iter().map(plain).collect()),
        Doc::Object(members) => {
            let mut map = serde_json::Map::new();
            for i in 0..members.len() {
                map.insert(members.name_at(i).to_string(), plain(members.value_at(i)));
            }
            Value::Object(map)
        }
    }
}

fn json(text: &str) -> Value {
    serde_json::from_str(text).unwrap()
}

fn post(bulk_id: &str, path: &str, data: Value) -> BulkOperationRequest {
    BulkOperationRequest {
        method: BulkMethod::Post,
        bulk_id: Some(bulk_id.to_string()),
        version: None,
        path: path.to_string(),
        data: Some(lib(&data)),
    }
}

#[test]
fn bulk_status_deserializes_both_rfc_example_shapes() {
    let object_form = BulkStatus::from_value(&lib(&json(r#"{"code": "201"}"#))).unwrap();
    assert_eq!(object_form.code, "201");

    let bare_string_form = BulkStatus::from_value(&lib(&json(r#""201""#))).unwrap();
    assert_eq!(bare_string_form.code, "201");
}

#[test]
fn order_operations_puts_the_referenced_user_before_the_referencing_group() {
    let ops = vec![
        post(
            "ytrewq",
            "/Groups",
            json(r#"{"members": [{"value": "bulkId:qwerty"}]}"#),
        ),
        post("qwerty", "/Users", json(r#"{"userName": "Alice"}"#)),
    ];
    let order = order_operations(&ops).unwrap();
    let pos_of = |target_idx: usize| order.iter().position(|&i| i == target_idx).unwrap();
    assert!(pos_of(1) < pos_of(0));
}

#[test]
fn order_operations_preserves_relative_order_of_independent_operations() {
    let ops = vec![
        post("a", "/Users", json(r#"{"userName": "a"}"#)),
        post("b", "/Users", json(r#"{"userName": "b"}"#)),
        post("c", "/Users", json(r#"{"userName": "c"}"#)),
    ];
    assert_eq!(order_operations(&ops).unwrap(), vec![0, 1, 2]);
}

#[test]
fn order_operations_finds_a_reference_in_an_extension_attribute_not_just_members() {
    let ops = vec![
        post(
            "ytrewq",
            "/Users",
            json(r#"{
                "userName": "Bob",
                "urn:ietf:params:scim:schemas:extension:enterprise:2.0:User": {
                    "manager": {"value": "bulkId:qwerty"}
                }
            }"#),
        ),
        post("qwerty", "/Users", json(r#"{"userName": "Alice"}"#)),
    ];
    let order = order_operations(&ops).unwrap();
    let pos_of = |target_idx: usize| order.iter().position(|&i| i == target_idx).unwrap();
    assert!(pos_of(1) < pos_of(0));
}

#[test]
fn order_operations_detects_the_rfc_7644_circular_reference_example() {
    let ops = vec![
        post(
            "qwerty",
            "/Groups",
            json(r#"{"members": [{"type": "Group", "value": "bulkId:ytrewq"}]}"#),
        ),
        post(
            "ytrewq",
            "/Groups",
            json(r#"{"members": [{"type": "Group", "value": "bulkId:qwerty"}]}"#),
        ),
    ];
    assert_eq!(order_operations(&ops), Err(BulkError::CircularReference));
}

#[test]
fn rejects_a_post_operation_with_no_bulk_id() {
    let ops = vec![BulkOperationRequest {
        method: BulkMethod::Post,
        bulk_id: None,
        version: None,
        path: "/Users".to_string(),
        data: Some(lib(&json(r#"{"userName": "Alice"}"#))),
    }];
    assert_eq!(
        order_operations(&ops),
        Err(BulkError::MissingBulkIdOnPost(0))
    );
}

#[test]
fn rejects_duplicate_bulk_ids_in_the_same_request() {
    let ops = vec![
        post("qwerty", "/Users", json(r#"{"userName": "Alice"}"#)),
        post("qwerty", "/Users", json(r#"{"userName": "Bob"}"#)),
    ];
    assert_eq!(
        order_operations(&ops),
        Err(BulkError::DuplicateBulkId("qwerty".to_string()))
    );
}

#[test]
fn rejects_a_reference_to_a_bulk_id_that_was_never_defined() {
    let ops = vec![post(
        "ytrewq",
        "/Groups",
        json(r#"{"members": [{"value": "bulkId:nonexistent"}]}"#),
    )];
    assert_eq!(
        order_operations(&ops),
        Err(BulkError::UnresolvedBulkId("nonexistent".to_string()))
    );
}

#[test]
fn resolver_substitutes_a_reference_once_recorded() {
    let mut resolver = BulkIdResolver::new();
    resolver.record("qwerty", "92b725cd-9465-4e7d-8c16-01f8e146b87a");
    let data = json(r#"{"members": [{"type": "User", "value": "bulkId:qwerty"}]}"#);
    let substituted = plain(&resolver.substitute(&lib(&data)).unwrap());
    assert_eq!(
        substituted["members"][0]["value"],
        "92b725cd-9465-4e7d-8c16-01f8e146b87a"
    );
}

#[test]
fn resolver_errors_on_an_unrecorded_reference_rather_than_leaving_the_literal_string() {
    let resolver = BulkIdResolver::new();
    let data = json(r#"{"value": "bulkId:never-recorded"}"#);
    let err = resolver.substitute(&lib(&data)).unwrap_err();
    assert_eq!(
        err,
        BulkError::UnresolvedBulkId("never-recorded".to_string())
    );
}

#[test]
fn check_limits_rejects_too_many_operations() {
    let req = BulkRequest {
        schemas: vec![BULK_REQUEST_SCHEMA_URI.to_string()],
        fail_on_errors: None,
        operations: vec![
            post("a", "/Users", json(r#"{}"#)),
            post("b", "/Users", json(r#"{}"#)),
        ],
    };
    let err = check_limits(&req, 1, 1_000_000, 100).unwrap_err();
    assert!(matches!(err, BulkError::TooLarge(_)));
}

#[test]
fn check_limits_rejects_oversized_payload() {
    let req = BulkRequest {
        schemas: vec![BULK_REQUEST_SCHEMA_URI.to_string()],
        fail_on_errors: None,
        operations: vec![post("a", "/Users", json(r#"{}"#))],
    };
    let err = check_limits(&req, 1000, 1_048_576, 5_000_000_000).unwrap_err();
    assert!(matches!(err, BulkError::TooLarge(_)));
}

#[test]
fn check_limits_accepts_a_request_within_both_limits() {
    let req = BulkRequest {
        schemas: vec![BULK_REQUEST_SCHEMA_URI.to_string()],
        fail_on_errors: None,
        operations: vec![post("a", "/Users", json(r#"{}"#))],
    };
    assert!(check_limits(&req, 1000, 1_048_576, 200).is_ok());
}
