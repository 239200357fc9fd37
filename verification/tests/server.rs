use scimforge::common::{ExternalId, ResourceId, Timestamp};
use scimforge::error::ScimType;
use scimforge::filter::FilterError;
use scimforge::group::{Group, GROUP_SCHEMA_URI};
use scimforge::json::{Members, Number, Value as Doc};
use scimforge::patch::PatchError;
use scimforge::server::discovery::schemas;
use scimforge::server::error::ApiError;
use scimforge::server::patch_request::{parse_patch_operations, PatchRequestError};
use scimforge::server::resources::{
    admit_group, admit_user, assign_group, assign_user, is_authorized, meta_is_open,
    no_longer_typed, patch_document, patch_resource, replace_user, Kind, SCIM_MEDIA_TYPE,
};
use scimforge::server::store::Store;
use scimforge::user::{Password, User, ENTERPRISE_USER_SCHEMA_URI, USER_SCHEMA_URI};
use serde_json::Value;

/// The library's form of a JSON value.
fn lib(value: &Value) -> Doc {
    match value {
        Value::Null => Doc::Null,
        Value::Bool(b) => Doc::Bool(*b),
        Value::Number(n) => Doc::Number(if let Some(u) = n.as_u64() {
            Number::PosInt(u)
        } else if let Some(i) = n.as_i64() {
            Number::NegInt(i)
        } else {
            Number::Float(n.as_f64().unwrap().to_bits())
        }),
        Value::String(s) => Doc::String(s.clone()),
        Value::Array(items) => Doc::Array(items.iter().map(lib).collect()),
        Value::Object(map) => {
            let mut members = Members::new();
            for (name, item) in map {
                members.insert(name.clone(), lib(item));
            }
            Doc::Object(members)
        }
    }
}

/// A JSON value of the library in the form that tests index into.
fn plain(doc: &Doc) -> Value {
    match doc {
        Doc::Null => Value::Null,
        Doc::Bool(b) => Value::Bool(*b),
        Doc::Number(Number::PosInt(u)) => Value::from(*u),
        Doc::Number(Number::NegInt(i)) => Value::from(*i),
        Doc::Number(Number::Float(bits)) => Value::from(f64::from_bits(*bits)),
        Doc::String(s) => Value::String(s.clone()),
        Doc::Array(items) => Value::Array(items.iter().map(plain).collect()),
        Doc::Object(members) => {
            let mut map = serde_json::Map::new();
            for i in 0..members.len() {
                map.insert(members.name_at(i).to_string(), plain(members.value_at(i)));
            }
            Value::Object(map)
        }
    }
}

fn json(text: &str) -> Value {
    serde_json::from_str(text).unwrap()
}

fn doc(text: &str) -> Doc {
    lib(&json(text))
}

fn user(name: &str) -> User {
    User {
        schemas: vec![],
        id: None,
        external_id: None,
        meta: None,
        user_name: name.to_string(),
        name: None,
        display_name: None,
        nick_name: None,
        profile_url: None,
        title: None,
        user_type: None,
        preferred_language: None,
        locale: None,
        timezone: None,
        active: Some(true),
        password: Password::default(),
        emails: vec![],
        phone_numbers: vec![],
        ims: vec![],
        photos: vec![],
        addresses: vec![],
        groups: vec![],
        entitlements: vec![],
        roles: vec![],
        x509_certificates: vec![],
        enterprise: None,
    }
}

#[test]
fn only_the_exact_bearer_token_is_let_in() {
    assert!(is_authorized(Some("Bearer test-token"), "test-token"));
    for header in [
        None,
        Some("Bearer wrong-token"),
        Some("bearer test-token"),
        Some("test-token"),
        Some("Bearer test-token "),
        Some(""),
    ] {
        assert!(!is_authorized(header, "test-token"), "{header:?}");
    }
    let (status, error) = ApiError::Unauthorized.response();
    assert_eq!(status, 401);
    assert_eq!(error.detail.as_deref(), Some("missing or invalid bearer token"));
}

#[test]
fn errors_become_responses() {
    let shown = |e: ApiError| {
        let (status, error) = e.response();
        assert_eq!(error.status, status.to_string());
        (status, error.scim_type, error.detail.unwrap())
    };
    assert_eq!(
        shown(ApiError::NotFound("x".to_string())),
        (404, None, "no resource with id 'x'".to_string())
    );
    assert_eq!(
        shown(ApiError::InvalidBody("bad".to_string())),
        (400, Some(ScimType::InvalidValue), "bad".to_string())
    );
    assert_eq!(
        shown(ApiError::Patch(PatchError::InvalidPath(FilterError::UnexpectedToken(
            "Some(String(\"x\"))".to_string()
        )))),
        (
            400,
            Some(ScimType::InvalidPath),
            r#"InvalidPath(UnexpectedToken("Some(String(\"x\"))"))"#.to_string()
        )
    );
    assert_eq!(
        shown(ApiError::Patch(PatchError::InvalidSchemaMutability {
            attr_name: "a\n".to_string(),
            mutability: "\u{e9}".to_string(),
        })),
        (
            400,
            Some(ScimType::InvalidValue),
            "InvalidSchemaMutability { attr_name: \"a\\n\", mutability: \"\u{e9}\" }".to_string()
        )
    );
    let requests = [
        (PatchRequestError::MissingOperations, "MissingOperations"),
        (PatchRequestError::OperationsNotAnArray, "OperationsNotAnArray"),
        (PatchRequestError::MissingOp, "MissingOp"),
        (
            PatchRequestError::UnknownOp("move".to_string()),
            "UnknownOp(\"move\")",
        ),
    ];
    for (error, detail) in requests {
        assert_eq!(
            shown(ApiError::PatchRequest(error)),
            (400, Some(ScimType::InvalidSyntax), detail.to_string())
        );
    }
    for (error, detail) in [
        (PatchError::NoTarget, "NoTarget"),
        (PatchError::NoMatchingValue, "NoMatchingValue"),
        (PatchError::Protected("id".to_string()), "Protected(\"id\")"),
        (
            PatchError::InvalidPath(FilterError::TooDeep),
            "InvalidPath(TooDeep)",
        ),
    ] {
        let keyword = error.scim_type();
        assert_eq!(
            shown(ApiError::Patch(error)),
            (400, Some(keyword), detail.to_string())
        );
    }
}

#[test]
fn unreadable_patch_bodies_are_refused() {
    for (body, error) in [
        ("{}", PatchRequestError::MissingOperations),
        ("[]", PatchRequestError::MissingOperations),
        (r#"{"Operations": {}}"#, PatchRequestError::OperationsNotAnArray),
        (r#"{"Operations": [{}]}"#, PatchRequestError::MissingOp),
        (r#"{"Operations": [{"op": 7}]}"#, PatchRequestError::MissingOp),
        (
            r#"{"Operations": [{"op": "MOVE"}, {}]}"#,
            PatchRequestError::UnknownOp("move".to_string()),
        ),
    ] {
        assert_eq!(parse_patch_operations(&doc(body)), Err(error));
    }
    assert_eq!(parse_patch_operations(&doc(r#"{"Operations": []}"#)), Ok(vec![]));
}

#[test]
fn stored_resources_are_found_until_deleted() {
    let mut store = Store::new();
    store.insert(Kind::User, "1", doc(r#"{"userName": "a"}"#));
    store.insert(Kind::Group, "1", doc(r#"{"displayName": "g"}"#));
    assert_eq!(plain(store.find(Kind::User, "1").unwrap())["userName"], "a");
    assert_eq!(
        store.find(Kind::User, "2").unwrap_err(),
        ApiError::NotFound("2".to_string())
    );
    store.update_existing(Kind::User, "1", doc(r#"{"userName": "b"}"#)).unwrap();
    assert_eq!(plain(store.find(Kind::User, "1").unwrap())["userName"], "b");
    store.delete(Kind::User, "1").unwrap();
    let gone = ApiError::NotFound("1".to_string());
    assert_eq!(store.find(Kind::User, "1").unwrap_err(), gone);
    assert_eq!(store.delete(Kind::User, "1").unwrap_err(), gone);
    // What was deleted in the meantime is not brought back.
    assert_eq!(
        store.update_existing(Kind::User, "1", doc("{}")).unwrap_err(),
        gone
    );
    assert!(store.find(Kind::User, "1").is_err());
    assert_eq!(plain(store.find(Kind::Group, "1").unwrap())["displayName"], "g");
}

#[test]
fn lists_hold_every_resource_of_a_kind() {
    let mut store = Store::default();
    store.insert(Kind::User, "b", doc("\"second\""));
    store.insert(Kind::User, "a", doc("\"first\""));
    assert_eq!(
        plain(&store.list(Kind::User)),
        json(
            r#"{"schemas": ["urn:ietf:params:scim:api:messages:2.0:ListResponse"],
                "totalResults": 2, "startIndex": 1, "itemsPerPage": 2,
                "Resources": ["first", "second"]}"#
        )
    );
    assert_eq!(plain(&store.list(Kind::Group))["totalResults"], 0);
}

#[test]
fn requests_are_logged_by_kind() {
    let mut store = Store::new();
    store.capture(
        Kind::User.name(),
        "PATCH",
        Some("1".to_string()),
        Some("application/json".to_string()),
        doc(r#"{"Operations": [{"op": "replace", "path": "active", "value": "true"}]}"#),
    );
    store.capture(Kind::Group.name(), "DELETE", None, None, Doc::Null);
    let all = store.captured_documents(None);
    assert_eq!(all.len(), 2);
    let users = store.captured_documents(Some("user"));
    assert_eq!(users.len(), 1);
    assert_eq!(
        plain(&users[0]),
        json(
            r#"{"resourceType": "User", "method": "PATCH", "id": "1",
                "contentType": "application/json",
                "body": {"Operations": [{"op": "replace", "path": "active", "value": "true"}]}}"#
        )
    );
    assert!(store.captured_documents(Some("Device")).is_empty());
}

#[test]
fn a_new_user_gets_an_identifier_of_the_server() {
    let mut sent = user("bjensen");
    sent.id = Some(ResourceId::new("f47ac10b-58cc-4372-a567-0e02b2c3d479"));
    sent.external_id = Some(ExternalId::new("ext"));
    let (first, id) = admit_user(sent.clone());
    let (second, other_id) = admit_user(sent);
    assert_ne!(id, other_id);
    assert_ne!(id, "f47ac10b-58cc-4372-a567-0e02b2c3d479");
    assert_eq!(id.len(), 36);
    assert_eq!(uuid::Uuid::parse_str(&id).unwrap().to_string(), id);
    assert_eq!(first.id.as_ref().map(|i| i.as_str()), Some(id.as_str()));
    assert_eq!(first.schemas, vec![USER_SCHEMA_URI.to_string()]);
    assert_eq!(first.user_name, "bjensen");
    assert_eq!(first.external_id.as_ref().map(|i| i.as_str()), Some("ext"));
    let meta = first.meta.unwrap();
    assert_eq!(meta.location, format!("/Users/{id}"));
    assert_eq!(meta.resource_type, "User");
    let now = chrono::Utc::now().timestamp();
    assert!(meta.created.seconds <= now && meta.created.seconds > now - 3600);
    assert!(second.meta.is_some());
}

#[test]
fn a_new_group_gets_an_identifier_of_the_server() {
    let sent = Group {
        schemas: vec!["urn:mine".to_string()],
        id: None,
        external_id: None,
        meta: None,
        display_name: "Engineering".to_string(),
        members: vec![],
    };
    let (group, id) = admit_group(sent.clone());
    assert_eq!(group.schemas, vec!["urn:mine".to_string()]);
    assert_eq!(group.id.as_ref().map(|i| i.as_str()), Some(id.as_str()));
    assert_eq!(group.meta.as_ref().unwrap().location, format!("/Groups/{id}"));
    let at = Timestamp { seconds: 5, nanos: 6 };
    let fixed = assign_group(sent, "7", at, at);
    assert_eq!(fixed.meta.unwrap().created, at);
}

#[test]
fn a_replaced_user_keeps_the_time_of_creation() {
    let created = |meta: &str| {
        let existing = doc(&format!("{{\"meta\": {meta}}}"));
        replace_user(&existing, user("b"), "9").meta.unwrap().created
    };
    assert_eq!(
        created(r#"{"created": "2026-01-01T00:00:00Z"}"#),
        Timestamp { seconds: 1767225600, nanos: 0 }
    );
    assert_eq!(
        created(r#"{"created": "2026-01-01T02:00:00.5+02:00"}"#),
        Timestamp { seconds: 1767225600, nanos: 500_000_000 }
    );
    let now = chrono::Utc::now().timestamp();
    for unreadable in ["{}", r#"{"created": "yesterday"}"#, r#"{"created": 7}"#, "null"] {
        assert!(created(unreadable).seconds >= now - 3600);
    }
    let replaced = replace_user(&doc("{}"), user("b"), "9");
    assert_eq!(replaced.id.as_ref().map(|i| i.as_str()), Some("9"));
    assert_eq!(replaced.meta.unwrap().location, "/Users/9");
    let fixed = assign_user(
        user("b"),
        "9",
        Timestamp { seconds: 1, nanos: 2 },
        Timestamp { seconds: 3, nanos: 4 },
    );
    assert_eq!(fixed.meta.unwrap().last_modified, Timestamp { seconds: 3, nanos: 4 });
}

#[test]
fn a_patched_resource_keeps_its_identity_and_is_stamped() {
    let existing = doc(
        r#"{"schemas": ["urn:ietf:params:scim:schemas:core:2.0:User"], "id": "1",
            "userName": "bjensen", "active": true,
            "meta": {"resourceType": "User", "created": "2026-01-01T00:00:00Z",
                     "lastModified": "2026-01-01T00:00:00Z", "location": "/Users/1"}}"#,
    );
    let body = doc(
        r#"{"schemas": ["urn:ietf:params:scim:api:messages:2.0:PatchOp"],
            "Operations": [
                {"op": "replace", "path": "active", "value": "false"},
                {"op": "replace", "path": "userName", "value": "bjensen2"},
                {"op": "replace", "path": "displayName", "value": "Babs Jensen 2"}
            ]}"#,
    );
    assert!(meta_is_open(&existing));
    let after = plain(&patch_document(&existing, &body, Kind::User, "now").unwrap());
    assert_eq!(after["active"], json("false"));
    assert_eq!(after["userName"], "bjensen2");
    assert_eq!(after["id"], "1");
    assert_eq!(after["meta"]["lastModified"], "now");
    assert_eq!(after["meta"]["created"], "2026-01-01T00:00:00Z");

    let stamped = plain(&patch_resource(&existing, &body, Kind::User).unwrap());
    let text = stamped["meta"]["lastModified"].as_str().unwrap();
    assert!(text.ends_with('Z'));
    let read = chrono::DateTime::parse_from_rfc3339(text).unwrap();
    assert!((chrono::Utc::now().timestamp() - read.timestamp()).abs() < 3600);
    assert_eq!(stamped["active"], json("false"));
}

#[test]
fn refused_patches_say_why() {
    let group = doc(r#"{"id": "1", "displayName": "g", "members": [{"value": "u"}]}"#);
    let patch = |body: &str| patch_document(&group, &doc(body), Kind::Group, "now").unwrap_err();
    assert_eq!(
        patch("{}"),
        ApiError::PatchRequest(PatchRequestError::MissingOperations)
    );
    assert_eq!(
        patch(r#"{"Operations": [{"op": "remove"}]}"#),
        ApiError::Patch(PatchError::NoTarget)
    );
    assert_eq!(
        patch(
            r#"{"Operations": [{"op": "replace", "path": "members[value eq \"u\"].value",
                                "value": "v"}]}"#
        ),
        ApiError::Patch(PatchError::ImmutableOrReadOnly("members".to_string()))
    );
    assert_eq!(
        no_longer_typed(Kind::Group, "missing field"),
        ApiError::InvalidBody(
            "patched resource no longer deserializes as a typed Group: missing field".to_string()
        )
    );
    assert!(!meta_is_open(&doc(r#"{"meta": "x"}"#)));
    assert!(meta_is_open(&doc(r#"{"meta": null}"#)));
    let unstamped = patch_document(
        &doc("{}"),
        &doc(r#"{"Operations": []}"#),
        Kind::Group,
        "now",
    );
    assert_eq!(unstamped, Ok(doc("{}")));
}

#[test]
fn responses_have_the_scim_media_type() {
    assert_eq!(SCIM_MEDIA_TYPE, "application/scim+json");
}

#[test]
fn resources_and_schemas_have_their_places() {
    assert_eq!(Kind::User.location("7"), "/Users/7");
    assert_eq!(Kind::Group.location("7"), "/Groups/7");
    let ids: Vec<String> = schemas().into_iter().map(|s| s.id).collect();
    assert_eq!(
        ids,
        vec![
            USER_SCHEMA_URI.to_string(),
            ENTERPRISE_USER_SCHEMA_URI.to_string(),
            GROUP_SCHEMA_URI.to_string()
        ]
    );
}
