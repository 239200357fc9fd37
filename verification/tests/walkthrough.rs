use scimforge::discovery::is_case_exact;
use scimforge::error::{ScimError, ScimType};
use scimforge::filter::{parse, parse_patch_path, Filter};
use scimforge::group::group_schema;
use scimforge::json::{Members, Number, Value as Doc};
use scimforge::patch::{
    apply_patch, apply_patch_with_schema, PatchError, PatchOp, PatchOperation,
};
use scimforge::user::user_schema;
use serde_json::Value;

/// The library's form of a JSON value.
fn lib(value: &Value) -> Doc {
    match value {
        Value::Null => Doc::Null,
        Value::Bool(b) => Doc::Bool(*b),
        Value::Number(n) => Doc::Number(if let Some(u) = n.as_u64() {
            Number::PosInt(u)
        } else if let Some(i) = n.as_i64() {
            Number::NegInt(i)
        } else {
            Number::Float(n.as_f64().unwrap().to_bits())
        }),
        Value::String(s) => Doc::String(s.clone()),
        Value::Array(items) => Doc::Array(items.iter().map(lib).collect()),
        Value::Object(map) => {
            let mut members = Members::new();
            for (name, item) in map {
                members.insert(name.clone(), lib(item));
            }
            Doc::Object(members)
        }
    }
}

/// A JSON value of the library in the form that tests index into.
fn plain(doc: &Doc) -> Value {
    match doc {
        Doc::Null => Value::Null,
        Doc::Bool(b) => Value::Bool(*b),
        Doc::Number(Number::PosInt(u)) => Value::from(*u),
        Doc::Number(Number::NegInt(i)) => Value::from(*i),
        Doc::Number(Number::Float(bits)) => Value::from(f64::from_bits(*bits)),
        Doc::String(s) => Value::String(s.clone()),
        Doc::Array(items) => Value::Array(items.iter().map(plain).collect()),
        Doc::Object(members) => {
            let mut map = serde_json::Map::new();
            for i in 0..members.len() {
                map.insert(members.name_at(i).to_string(), plain(members.value_at(i)));
            }
            Value::Object(map)
        }
    }
}

fn json(text: &str) -> Value {
    serde_json::from_str(text).unwrap()
}

fn doc(text: &str) -> Doc {
    lib(&json(text))
}

fn op(op: PatchOp, path: &str, value: &str) -> PatchOperation {
    PatchOperation {
        op,
        path: Some(path.to_string()),
        value: Some(doc(value)),
    }
}

#[test]
fn a_search_filter_is_parsed_by_the_grammar() {
    let parsed = parse(r#"userName eq "bjensen@example.com" and active eq true"#).unwrap();
    assert!(matches!(parsed, Filter::And(_, _)));

    let by_external_id = parse(r#"externalId eq "701984""#).unwrap();
    let Filter::Compare(path, _, _) = &by_external_id else {
        panic!("unexpected: {by_external_id:?}");
    };
    assert!(is_case_exact(None, None, &path.attr_name, path.sub_attr.as_deref()));
    assert!(!is_case_exact(None, None, "userName", None));
    assert!(is_case_exact(None, None, "meta", Some("resourceType")));
    assert_eq!(
        parse_patch_path(r#"members[value eq "u-2"].display"#)
            .unwrap()
            .attr_path
            .attr_name,
        "members"
    );
}

#[test]
fn a_patch_request_updates_the_chosen_email() {
    let resource = doc(
        r#"{"schemas": ["urn:ietf:params:scim:schemas:core:2.0:User"],
            "id": "2819c223-7f76-453a-919d-413861904646", "userName": "bjensen@example.com",
            "active": true,
            "emails": [{"value": "bjensen@example.com", "type": "work", "primary": true}]}"#,
    );
    let patched = apply_patch_with_schema(
        &resource,
        &[
            op(PatchOp::Replace, "active", "false"),
            op(
                PatchOp::Replace,
                r#"emails[type eq "work"].value"#,
                "\"bjensen+deactivated@example.com\"",
            ),
        ],
        &user_schema(),
    )
    .unwrap();
    assert_eq!(plain(&patched)["active"], json("false"));
    assert_eq!(
        plain(&patched)["emails"][0],
        json(
            r#"{"value": "bjensen+deactivated@example.com", "type": "work", "primary": true}"#
        )
    );
    let plainly = apply_patch(
        &resource,
        &[op(
            PatchOp::Replace,
            r#"emails[type eq "work"].value"#,
            "\"bjensen+updated@example.com\"",
        )],
    )
    .unwrap();
    assert_eq!(plain(&plainly)["emails"][0]["value"], "bjensen+updated@example.com");
}

#[test]
fn nobody_grants_themselves_group_membership() {
    let resource = doc(
        r#"{"schemas": ["urn:ietf:params:scim:schemas:core:2.0:User"], "userName": "bjensen"}"#,
    );
    for kind in [PatchOp::Add, PatchOp::Replace] {
        let refused = apply_patch_with_schema(
            &resource,
            &[op(kind, "groups", r#"[{"value": "g-1", "display": "Admins"}]"#)],
            &user_schema(),
        )
        .unwrap_err();
        assert_eq!(refused, PatchError::ImmutableOrReadOnly("groups".to_string()));
        let error = ScimError::new(refused.http_status(), Some(refused.scim_type()), "refused");
        assert_eq!(error.status, "400");
        assert_eq!(error.scim_type, Some(ScimType::Mutability));
    }
}

#[test]
fn a_member_gets_its_display_name_once() {
    let group = doc(
        r#"{"schemas": ["urn:ietf:params:scim:schemas:core:2.0:Group"], "id": "g-1",
            "displayName": "Admins",
            "members": [{"value": "u-1", "type": "User", "display": "Alice"},
                        {"value": "u-2", "type": "User"}]}"#,
    );
    let add = |path: &str, value: &str| {
        apply_patch_with_schema(&group, &[op(PatchOp::Add, path, value)], &group_schema())
    };
    let named = add(r#"members[value eq "u-2"].display"#, "\"Bob\"").unwrap();
    assert_eq!(plain(&named)["members"][1]["display"], "Bob");
    assert_eq!(
        add(r#"members[value eq "u-1"].display"#, "\"Alicia\""),
        Err(PatchError::ImmutableOrReadOnly("members".to_string()))
    );
}
