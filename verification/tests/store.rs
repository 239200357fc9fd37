use scimforge::json::{Members, Number, Value as Doc};
use scimforge::server::store::REDACTED;
use serde_json::Value;

/// The library's form of a JSON value.
fn lib(value: &Value) -> Doc {
    match value {
        Value::Null => Doc::Null,
        Value::Bool(b) => Doc::Bool(*b),
        Value::Number(n) => Doc::Number(if let Some(u) = n.as_u64() {
            Number::PosInt(u)
        } else if let Some(i) = n.as_i64() {
            Number::NegInt(i)
        } else {
            Number::Float(n.as_f64().unwrap().to_bits())
        }),
        Value::String(s) => Doc::String(s.clone()),
        Value::Array(items) => Doc::Array(items.iter().map(lib).collect()),
        Value::Object(map) => {
            let mut members = Members::new();
            for (name, item) in map {
                members.insert(name.clone(), lib(item));
            }
            Doc::Object(members)
        }
    }
}

/// A JSON value of the library in the form that tests index into.
fn plain(doc: &Doc) -> Value {
    match doc {
        Doc::Null => Value::Null,
        Doc::Bool(b) => Value::Bool(*b),
        Doc::Number(Number::PosInt(u)) => Value::from(*u),
        Doc::Number(Number::NegInt(i)) => Value::from(*i),
        Doc::Number(Number::Float(bits)) => Value::from(f64::from_bits(*bits)),
        Doc::String(s) => Value::String(s.clone()),
        Doc::Array(items) => Value::Array(items.iter().map(plain).collect()),
        Doc::Object(members) => {
            let mut map = serde_json::Map::new();
            for i in 0..members.len() {
                map.insert(members.name_at(i).to_string(), plain(members.value_at(i)));
            }
            Value::Object(map)
        }
    }
}

fn json(text: &str) -> Value {
    serde_json::from_str(text).unwrap()
}

struct Captured {
    body: Value,
}

/// A store whose log is read as plain JSON.
struct Store {
    inner: scimforge::server::store::Store,
    captured: Vec<Captured>,
}

impl Store {
    fn default() -> Store {
        Store {
            inner: scimforge::server::store::Store::default(),
            captured: Vec::new(),
        }
    }

    fn capture(
        &mut self,
        resource_type: &'static str,
        method: &'static str,
        id: Option<String>,
        content_type: Option<String>,
        body: Value,
    ) {
        self.inner
            .capture(resource_type, method, id, content_type, lib(&body));
        let entry = self.inner.captured.last().unwrap();
        self.captured.push(Captured {
            body: plain(&entry.body),
        });
    }
}

#[test]
fn capture_redacts_a_top_level_password_on_create() {
    let mut store = Store::default();
    store.capture(
        "User",
        "POST",
        None,
        None,
        json(r#"{"userName": "bjensen", "password": "correct horse battery staple"}"#),
    );
    let captured = &store.captured[0].body;
    assert_eq!(captured["password"], Value::from(REDACTED));
    assert_eq!(captured["userName"], json(r#""bjensen""#));
    assert!(
        !captured
            .to_string()
            .contains("correct horse battery staple")
    );
}

#[test]
fn capture_redaction_is_case_insensitive_on_the_key() {
    let mut store = Store::default();
    store.capture("User", "POST", None, None, json(r#"{"Password": "secret"}"#));
    assert_eq!(store.captured[0].body["Password"], Value::from(REDACTED));
}

#[test]
fn capture_redacts_a_patch_operation_targeting_password() {
    let mut store = Store::default();
    store.capture(
        "User",
        "PATCH",
        Some("abc".to_string()),
        None,
        json(r#"{
            "schemas": ["urn:ietf:params:scim:api:messages:2.0:PatchOp"],
            "Operations": [
                {"op": "replace", "path": "password", "value": "new-secret"},
                {"op": "replace", "path": "active", "value": "true"}
            ]
        }"#),
    );
    let body = &store.captured[0].body;
    assert_eq!(body["Operations"][0]["value"], Value::from(REDACTED));
    assert_eq!(body["Operations"][1]["value"], json(r#""true""#));
    assert!(!body.to_string().contains("new-secret"));
}

#[test]
fn capture_redacts_a_fully_qualified_schema_urn_patch_path() {
    let mut store = Store::default();
    store.capture(
        "User",
        "PATCH",
        Some("abc".to_string()),
        None,
        json(r#"{
            "Operations": [{
                "op": "replace",
                "path": "urn:ietf:params:scim:schemas:core:2.0:User:password",
                "value": "new-secret"
            }]
        }"#),
    );
    assert_eq!(
        store.captured[0].body["Operations"][0]["value"],
        Value::from(REDACTED)
    );
}

#[test]
fn capture_redacts_a_dot_qualified_sub_attribute_patch_path() {
    let mut store = Store::default();
    store.capture(
        "User",
        "PATCH",
        Some("abc".to_string()),
        None,
        json(r#"{
            "Operations": [{
                "op": "replace",
                "path": "credentials.password",
                "value": "new-secret"
            }]
        }"#),
    );
    assert_eq!(
        store.captured[0].body["Operations"][0]["value"],
        Value::from(REDACTED)
    );
}

#[test]
fn capture_redacts_a_urn_qualified_dot_sub_attribute_patch_path() {
    let mut store = Store::default();
    store.capture(
        "User",
        "PATCH",
        Some("abc".to_string()),
        None,
        json(r#"{
            "Operations": [{
                "op": "replace",
                "path": "urn:ietf:params:scim:schemas:extension:enterprise:2.0:User:credentials.password",
                "value": "new-secret"
            }]
        }"#),
    );
    assert_eq!(
        store.captured[0].body["Operations"][0]["value"],
        Value::from(REDACTED)
    );
}

#[test]
fn capture_redacts_a_path_with_password_as_a_non_trailing_segment() {
    let mut store = Store::default();
    store.capture(
        "User",
        "PATCH",
        Some("abc".to_string()),
        None,
        json(r#"{
            "Operations": [{
                "op": "replace",
                "path": "password.x",
                "value": "new-secret"
            }]
        }"#),
    );
    assert_eq!(
        store.captured[0].body["Operations"][0]["value"],
        Value::from(REDACTED)
    );
}

#[test]
fn capture_redacts_the_value_when_path_is_not_a_plain_string() {
    let mut store = Store::default();
    store.capture(
        "User",
        "PATCH",
        Some("abc".to_string()),
        None,
        json(r#"{
            "Operations": [{"op": "replace", "path": ["password"], "value": "new-secret"}]
        }"#),
    );
    assert_eq!(
        store.captured[0].body["Operations"][0]["value"],
        Value::from(REDACTED)
    );
}

#[test]
fn capture_redacts_a_differently_cased_value_key() {
    let mut store = Store::default();
    store.capture(
        "User",
        "PATCH",
        Some("abc".to_string()),
        None,
        json(r#"{
            "Operations": [{"op": "replace", "path": "password", "Value": "new-secret"}]
        }"#),
    );
    assert_eq!(
        store.captured[0].body["Operations"][0]["Value"],
        Value::from(REDACTED)
    );
}

#[test]
fn capture_redacts_a_differently_cased_path_key() {
    let mut store = Store::default();
    store.capture(
        "User",
        "PATCH",
        Some("abc".to_string()),
        None,
        json(r#"{
            "Operations": [{"op": "replace", "Path": "password", "value": "new-secret"}]
        }"#),
    );
    assert_eq!(
        store.captured[0].body["Operations"][0]["value"],
        Value::from(REDACTED)
    );
}

#[test]
fn capture_redacts_the_real_value_key_even_alongside_a_decoy_cased_one() {
    let mut store = Store::default();
    store.capture(
        "User",
        "PATCH",
        Some("abc".to_string()),
        None,
        json(r#"{
            "Operations": [{
                "op": "replace",
                "path": "password",
                "Value": "decoy",
                "value": "true-plaintext-secret"
            }]
        }"#),
    );
    let recorded_op = &store.captured[0].body["Operations"][0];
    assert_eq!(recorded_op["value"], Value::from(REDACTED));
    assert_ne!(recorded_op["Value"], json(r#""true-plaintext-secret""#));
}

#[test]
fn capture_redacts_a_decoy_cased_value_key_that_duplicates_the_real_secret_text() {
    let mut store = Store::default();
    store.capture(
        "User",
        "PATCH",
        Some("abc".to_string()),
        None,
        json(r#"{
            "Operations": [{
                "op": "replace",
                "path": "password",
                "value": "SECRET-TEXT",
                "Value": "SECRET-TEXT"
            }]
        }"#),
    );
    let recorded_op = &store.captured[0].body["Operations"][0];
    assert_eq!(recorded_op["value"], Value::from(REDACTED));
    assert_eq!(recorded_op["Value"], Value::from(REDACTED));
    assert!(!store.captured[0].body.to_string().contains("SECRET-TEXT"));
}

#[test]
fn capture_redacts_via_the_real_path_key_even_alongside_a_decoy_cased_one() {
    let mut store = Store::default();
    store.capture(
        "User",
        "PATCH",
        Some("abc".to_string()),
        None,
        json(r#"{
            "Operations": [{
                "op": "replace",
                "Path": "userName",
                "path": "password",
                "value": "true-plaintext-secret"
            }]
        }"#),
    );
    assert_eq!(
        store.captured[0].body["Operations"][0]["value"],
        Value::from(REDACTED)
    );
}

#[test]
fn capture_redacts_a_value_path_bracket_filtered_password_path() {
    let mut store = Store::default();
    store.capture(
        "User",
        "PATCH",
        Some("abc".to_string()),
        None,
        json(r#"{
            "Operations": [{
                "op": "replace",
                "path": "password[type eq \"x\"]",
                "value": "new-secret"
            }]
        }"#),
    );
    assert_eq!(
        store.captured[0].body["Operations"][0]["value"],
        Value::from(REDACTED)
    );
}

#[test]
fn capture_treats_the_path_as_sensitive_if_any_case_variant_candidate_targets_password() {
    let mut store = Store::default();
    store.capture(
        "User",
        "PATCH",
        Some("abc".to_string()),
        None,
        json(r#"{
            "Operations": [{
                "op": "replace",
                "PATH": "userName",
                "Path": "password",
                "value": "real-plaintext-secret"
            }]
        }"#),
    );
    assert_eq!(
        store.captured[0].body["Operations"][0]["value"],
        Value::from(REDACTED)
    );
}

#[test]
fn capture_redacts_every_case_variant_value_candidate_when_none_is_exact_case() {
    let mut store = Store::default();
    store.capture(
        "User",
        "PATCH",
        Some("abc".to_string()),
        None,
        json(r#"{
            "Operations": [{
                "op": "replace",
                "path": "password",
                "VALUE": "decoy",
                "Value": "real-plaintext-secret-2"
            }]
        }"#),
    );
    let recorded_op = &store.captured[0].body["Operations"][0];
    assert_eq!(recorded_op["VALUE"], Value::from(REDACTED));
    assert_eq!(recorded_op["Value"], Value::from(REDACTED));
}

#[test]
fn capture_leaves_unrelated_fields_intact() {
    let mut store = Store::default();
    store.capture(
        "User",
        "POST",
        None,
        None,
        json(r#"{
            "userName": "bjensen",
            "name": {"givenName": "Barbara", "familyName": "Jensen"},
            "emails": [{"value": "bjensen@example.com", "type": "work"}]
        }"#),
    );
    let body = &store.captured[0].body;
    assert_eq!(body["name"]["givenName"], json(r#""Barbara""#));
    assert_eq!(body["emails"][0]["value"], json(r#""bjensen@example.com""#));
}
