use scimforge::common::Mutability;
use scimforge::discovery;
use scimforge::discovery::SchemaResource;
use scimforge::error::ScimType;
use scimforge::json::{Members, Number, Value as Doc};
use scimforge::mutability::stricter;
use scimforge::patch::{PatchError, PatchOp, PatchOperation};
use serde_json::Value;

/// The library's form of a JSON value.
fn lib(value: &Value) -> Doc {
    match value {
        Value::Null => Doc::Null,
        Value::Bool(b) => Doc::Bool(*b),
        Value::Number(n) => Doc::Number(if let Some(u) = n.as_u64() {
            Number::PosInt(u)
        } else if let Some(i) = n.as_i64() {
            Number::NegInt(i)
        } else {
            Number::Float(n.as_f64().unwrap().to_bits())
        }),
        Value::String(s) => Doc::String(s.clone()),
        Value::Array(items) => Doc::Array(items.iter().map(lib).collect()),
        Value::Object(map) => {
            let mut members = Members::new();
            for (name, item) in map {
                members.insert(name.clone(), lib(item));
            }
            Doc::Object(members)
        }
    }
}

/// A JSON value of the library in the form that tests index into.
fn plain(doc: &Doc) -> Value {
    match doc {
        Doc::Null => Value::Null,
        Doc::Bool(b) => Value::Bool(*b),
        Doc::Number(Number::PosInt(u)) => Value::from(*u),
        Doc::Number(Number::NegInt(i)) => Value::from(*i),
        Doc::Number(Number::Float(bits)) => Value::from(f64::from_bits(*bits)),
        Doc::String(s) => Value::String(s.clone()),
        Doc::Array(items) => Value::Array(items.iter().map(plain).collect()),
        Doc::Object(members) => {
            let mut map = serde_json::Map::new();
            for i in 0..members.len() {
                map.insert(members.name_at(i).to_string(), plain(members.value_at(i)));
            }
            Value::Object(map)
        }
    }
}

fn json(text: &str) -> Value {
    serde_json::from_str(text).unwrap()
}

fn apply_patch(resource: &Value, operations: &[PatchOperation]) -> Result<Value, PatchError> {
    scimforge::patch::apply_patch(&lib(resource), operations).map(|doc| plain(&doc))
}

fn apply_patch_with_schema(
    resource: &Value,
    operations: &[PatchOperation],
    schema: &SchemaResource,
) -> Result<Value, PatchError> {
    scimforge::patch::apply_patch_with_schema(&lib(resource), operations, schema)
        .map(|doc| plain(&doc))
}

fn user_with_emails() -> Value {
    json(r#"{
        "schemas": ["urn:ietf:params:scim:schemas:core:2.0:User"],
        "id": "u-1",
        "userName": "bjensen",
        "active": true,
        "emails": [
            {"value": "old@example.com", "type": "work", "primary": true},
            {"value": "personal@example.com", "type": "home"}
        ]
    }"#)
}

fn op(kind: PatchOp, path: Option<&str>, value: Option<Value>) -> PatchOperation {
    PatchOperation {
        op: kind,
        path: path.map(str::to_string),
        value: value.as_ref().map(lib),
    }
}

#[test]
fn replace_simple_top_level_attribute() {
    let resource = user_with_emails();
    let result = apply_patch(
        &resource,
        &[op(PatchOp::Replace, Some("active"), Some(json(r#"false"#)))],
    )
    .unwrap();
    assert_eq!(result["active"], false);
}

#[test]
fn add_to_a_non_existent_path_behaves_as_add_per_spec() {
    let resource = user_with_emails();
    let result = apply_patch(
        &resource,
        &[op(PatchOp::Add, Some("nickName"), Some(json(r#""Babs""#)))],
    )
    .unwrap();
    assert_eq!(result["nickName"], "Babs");
}

#[test]
fn remove_multi_valued_attribute_with_no_filter_removes_all_values() {
    let resource = user_with_emails();
    let result = apply_patch(&resource, &[op(PatchOp::Remove, Some("emails"), None)]).unwrap();
    assert!(result.get("emails").is_none());
}

#[test]
fn remove_requires_a_path() {
    let resource = user_with_emails();
    let err = apply_patch(&resource, &[op(PatchOp::Remove, None, None)]).unwrap_err();
    assert_eq!(err, PatchError::NoTarget);
}

#[test]
fn replace_with_bracket_filter_replaces_only_the_matching_entry() {
    let resource = user_with_emails();
    let result = apply_patch(
        &resource,
        &[op(
            PatchOp::Replace,
            Some(r#"emails[type eq "work"].value"#),
            Some(json(r#""new@example.com""#)),
        )],
    )
    .unwrap();
    let emails = result["emails"].as_array().unwrap();
    assert_eq!(emails[0]["value"], "new@example.com");
    assert_eq!(emails[1]["value"], "personal@example.com");
}

#[test]
fn remove_with_bracket_filter_removes_only_the_matching_entry() {
    let resource = user_with_emails();
    let result = apply_patch(
        &resource,
        &[op(PatchOp::Remove, Some(r#"emails[type eq "home"]"#), None)],
    )
    .unwrap();
    let emails = result["emails"].as_array().unwrap();
    assert_eq!(emails.len(), 1);
    assert_eq!(emails[0]["type"], "work");
}

#[test]
fn replace_bracket_filter_with_no_match_is_an_error_not_a_silent_noop() {
    let resource = user_with_emails();
    let err = apply_patch(
        &resource,
        &[op(
            PatchOp::Replace,
            Some(r#"emails[type eq "nonexistent"].value"#),
            Some(json(r#""x""#)),
        )],
    )
    .unwrap_err();
    assert_eq!(err, PatchError::NoMatchingValue);
}

#[test]
fn no_path_add_merges_attributes_onto_the_resource_root() {
    let resource = user_with_emails();
    let result = apply_patch(
        &resource,
        &[op(
            PatchOp::Add,
            None,
            Some(json(r#"{"title": "Vice President", "active": false}"#)),
        )],
    )
    .unwrap();
    assert_eq!(result["title"], "Vice President");
    assert_eq!(result["active"], false);
    assert_eq!(result["userName"], "bjensen");
}

#[test]
fn rejects_replace_targeting_id() {
    let resource = user_with_emails();
    let err = apply_patch(
        &resource,
        &[op(
            PatchOp::Replace,
            Some("id"),
            Some(json(r#""attacker-controlled""#)),
        )],
    )
    .unwrap_err();
    assert_eq!(err, PatchError::Protected("id".to_string()));
}

#[test]
fn rejects_replace_targeting_a_meta_sub_attribute() {
    let resource = user_with_emails();
    let err = apply_patch(
        &resource,
        &[op(
            PatchOp::Replace,
            Some("meta.resourceType"),
            Some(json(r#""Group""#)),
        )],
    )
    .unwrap_err();
    assert_eq!(err, PatchError::Protected("meta".to_string()));
}

#[test]
fn rejects_replace_targeting_schemas() {
    let resource = user_with_emails();
    let err = apply_patch(
        &resource,
        &[op(
            PatchOp::Replace,
            Some("schemas"),
            Some(json(r#"["urn:evil:injected:schema"]"#)),
        )],
    )
    .unwrap_err();
    assert_eq!(err, PatchError::Protected("schemas".to_string()));
}

#[test]
fn rejects_no_path_replace_that_smuggles_a_protected_key_alongside_legitimate_ones() {
    let resource = user_with_emails();
    let err = apply_patch(
        &resource,
        &[op(
            PatchOp::Replace,
            None,
            Some(json(r#"{"active": false, "id": "attacker-controlled"}"#)),
        )],
    )
    .unwrap_err();
    assert_eq!(err, PatchError::Protected("id".to_string()));
    assert_eq!(resource["active"], true);
}

#[test]
fn rejects_id_case_insensitively() {
    let resource = user_with_emails();
    let err = apply_patch(
        &resource,
        &[op(PatchOp::Replace, Some("ID"), Some(json(r#""x""#)))],
    )
    .unwrap_err();
    assert!(matches!(err, PatchError::Protected(_)));
}

#[test]
fn apply_patch_never_mutates_its_input_even_on_success() {
    let resource = user_with_emails();
    let original = resource.clone();
    let _ = apply_patch(
        &resource,
        &[op(PatchOp::Replace, Some("active"), Some(json(r#"false"#)))],
    )
    .unwrap();
    assert_eq!(resource, original);
}

#[test]
fn a_mid_sequence_error_does_not_return_a_partially_patched_resource() {
    let resource = user_with_emails();
    let ops = vec![
        op(PatchOp::Replace, Some("active"), Some(json(r#"false"#))),
        op(PatchOp::Replace, Some("id"), Some(json(r#""nope""#))), // fails here
    ];
    let err = apply_patch(&resource, &ops).unwrap_err();
    assert!(matches!(err, PatchError::Protected(_)));
    assert_eq!(resource["active"], true);
}

#[test]
fn stricter_prefers_readonly_over_immutable_regardless_of_argument_order() {
    assert_eq!(
        stricter(Mutability::ReadOnly, Mutability::Immutable),
        Mutability::ReadOnly
    );
    assert_eq!(
        stricter(Mutability::Immutable, Mutability::ReadOnly),
        Mutability::ReadOnly
    );
}

#[test]
fn stricter_prefers_immutable_over_readwrite_and_writeonly_regardless_of_argument_order() {
    assert_eq!(
        stricter(Mutability::Immutable, Mutability::ReadWrite),
        Mutability::Immutable
    );
    assert_eq!(
        stricter(Mutability::ReadWrite, Mutability::Immutable),
        Mutability::Immutable
    );
    assert_eq!(
        stricter(Mutability::Immutable, Mutability::WriteOnly),
        Mutability::Immutable
    );
    assert_eq!(
        stricter(Mutability::WriteOnly, Mutability::Immutable),
        Mutability::Immutable
    );
}

#[test]
fn stricter_treats_readwrite_and_writeonly_as_equally_unrestrictive() {
    assert_eq!(
        stricter(Mutability::ReadWrite, Mutability::WriteOnly),
        Mutability::ReadWrite
    );
    assert_eq!(
        stricter(Mutability::WriteOnly, Mutability::ReadWrite),
        Mutability::WriteOnly
    );
}

#[test]
fn schema_rejects_replace_targeting_a_readonly_attribute() {
    let resource = user_with_emails();
    let err = apply_patch_with_schema(
        &resource,
        &[op(
            PatchOp::Replace,
            Some("groups"),
            Some(json(r#"[{"value": "g-1", "display": "Admins"}]"#)),
        )],
        &scimforge::user::user_schema(),
    )
    .unwrap_err();
    assert_eq!(err, PatchError::ImmutableOrReadOnly("groups".to_string()));
}

#[test]
fn schema_rejects_replace_targeting_the_groups_type_sub_attribute() {
    let mut resource = user_with_emails();
    resource["groups"] = json(r#"[{"value": "g-1", "display": "Admins", "type": "direct"}]"#);
    let err = apply_patch_with_schema(
        &resource,
        &[op(
            PatchOp::Replace,
            Some(r#"groups[value eq "g-1"].type"#),
            Some(json(r#""indirect""#)),
        )],
        &scimforge::user::user_schema(),
    )
    .unwrap_err();
    assert!(matches!(err, PatchError::ImmutableOrReadOnly(_)));
}

#[test]
fn schema_rejects_replace_targeting_the_groups_ref_sub_attribute() {
    let mut resource = user_with_emails();
    resource["groups"] = json(r#"[{
        "value": "g-1",
        "display": "Admins",
        "$ref": "https://example.com/v2/Groups/g-1"
    }]"#);
    let err = apply_patch_with_schema(
        &resource,
        &[op(
            PatchOp::Replace,
            Some(r#"groups[value eq "g-1"].$ref"#),
            Some(json(r#""https://example.com/v2/Groups/evil""#)),
        )],
        &scimforge::user::user_schema(),
    )
    .unwrap_err();
    assert!(matches!(err, PatchError::ImmutableOrReadOnly(_)));
}

fn schema_with_unmarked_sub_attrs_under_stricter_parents() -> SchemaResource {
    SchemaResource {
        schemas: vec![discovery::SCHEMA_SCHEMA_URI.to_string()],
        id: "urn:test:params:scim:schemas:extension:cascade:2.0:Widget".to_string(),
        name: Some("Widget".to_string()),
        description: None,
        attributes: vec![
            discovery::AttributeDefinition {
                sub_attributes: vec![discovery::AttributeDefinition::simple(
                    "level",
                    "string",
                    "Left unmarked (readWrite) despite profile being readOnly.",
                    "readWrite",
                )],
                ..discovery::AttributeDefinition::simple(
                    "profile",
                    "complex",
                    "A readOnly single-valued complex attribute.",
                    "readOnly",
                )
            },
            discovery::AttributeDefinition {
                multi_valued: true,
                sub_attributes: vec![
                    discovery::AttributeDefinition::simple(
                        "value",
                        "string",
                        "Correlates entries.",
                        "readWrite",
                    ),
                    discovery::AttributeDefinition::simple(
                        "label",
                        "string",
                        "Left unmarked (readWrite) despite widgets being immutable.",
                        "readWrite",
                    ),
                ],
                ..discovery::AttributeDefinition::simple(
                    "widgets",
                    "complex",
                    "An immutable multi-valued complex attribute.",
                    "immutable",
                )
            },
            discovery::AttributeDefinition {
                sub_attributes: vec![discovery::AttributeDefinition::simple(
                    "note",
                    "string",
                    "An ordinary readWrite sub-attribute of a readWrite parent.",
                    "readWrite",
                )],
                ..discovery::AttributeDefinition::simple(
                    "settings",
                    "complex",
                    "An ordinary readWrite single-valued complex attribute.",
                    "readWrite",
                )
            },
            discovery::AttributeDefinition {
                sub_attributes: vec![discovery::AttributeDefinition::simple(
                    "detail",
                    "string",
                    "A well-formed sub-attribute under a malformed parent.",
                    "readWrite",
                )],
                ..discovery::AttributeDefinition::simple(
                    "broken",
                    "complex",
                    "A single-valued complex attribute with a typo'd mutability.",
                    "ReadOnly", // wrong case -- RFC 7643 tokens are exact-case.
                )
            },
            discovery::AttributeDefinition {
                sub_attributes: vec![discovery::AttributeDefinition::simple(
                    "nickname",
                    "string",
                    "Left unmarked (readWrite) despite badge being immutable.",
                    "readWrite",
                )],
                ..discovery::AttributeDefinition::simple(
                    "badge",
                    "complex",
                    "An immutable single-valued complex attribute.",
                    "immutable",
                )
            },
        ],
    }
}

#[test]
fn check_mutability_cascades_a_readonly_parent_to_an_unmarked_sub_attribute() {
    let resource = json(r#"{
        "schemas": ["urn:test:params:scim:schemas:extension:cascade:2.0:Widget"],
        "id": "w-1",
        "profile": {"level": "user"}
    }"#);
    let err = apply_patch_with_schema(
        &resource,
        &[op(
            PatchOp::Replace,
            Some("profile.level"),
            Some(json(r#""admin""#)),
        )],
        &schema_with_unmarked_sub_attrs_under_stricter_parents(),
    )
    .unwrap_err();
    assert_eq!(err, PatchError::ImmutableOrReadOnly("profile".to_string()));
}

#[test]
fn check_mutability_cascades_an_immutable_parent_to_an_unmarked_sub_attribute_on_replace() {
    let resource = json(r#"{
        "schemas": ["urn:test:params:scim:schemas:extension:cascade:2.0:Widget"],
        "id": "w-1",
        "widgets": [{"value": "w-1", "label": "old"}]
    }"#);
    let err = apply_patch_with_schema(
        &resource,
        &[op(
            PatchOp::Replace,
            Some(r#"widgets[value eq "w-1"].label"#),
            Some(json(r#""new""#)),
        )],
        &schema_with_unmarked_sub_attrs_under_stricter_parents(),
    )
    .unwrap_err();
    assert_eq!(err, PatchError::ImmutableOrReadOnly("widgets".to_string()));
}

#[test]
fn check_mutability_rejects_add_to_a_cascaded_immutable_sub_attribute_when_the_entry_already_exists()
 {
    let resource = json(r#"{
        "schemas": ["urn:test:params:scim:schemas:extension:cascade:2.0:Widget"],
        "id": "w-1",
        "widgets": [{"value": "w-1"}]
    }"#);
    let err = apply_patch_with_schema(
        &resource,
        &[op(
            PatchOp::Add,
            Some(r#"widgets[value eq "w-1"].label"#),
            Some(json(r#""new""#)),
        )],
        &schema_with_unmarked_sub_attrs_under_stricter_parents(),
    )
    .unwrap_err();
    assert_eq!(err, PatchError::ImmutableOrReadOnly("widgets".to_string()));
}

#[test]
fn check_mutability_still_allows_add_to_a_cascaded_immutable_sub_attribute_when_the_parent_is_genuinely_absent()
 {
    let resource = json(r#"{
        "schemas": ["urn:test:params:scim:schemas:extension:cascade:2.0:Widget"],
        "id": "w-1"
    }"#);
    let result = apply_patch_with_schema(
        &resource,
        &[op(PatchOp::Add, Some("badge.nickname"), Some(json(r#""Ace""#)))],
        &schema_with_unmarked_sub_attrs_under_stricter_parents(),
    )
    .unwrap();
    assert_eq!(result["badge"]["nickname"], "Ace");
}

#[test]
fn check_mutability_rejects_add_to_a_cascaded_immutable_sub_attribute_when_the_parent_already_has_a_value()
 {
    let resource = json(r#"{
        "schemas": ["urn:test:params:scim:schemas:extension:cascade:2.0:Widget"],
        "id": "w-1",
        "badge": {}
    }"#);
    let err = apply_patch_with_schema(
        &resource,
        &[op(PatchOp::Add, Some("badge.nickname"), Some(json(r#""Ace""#)))],
        &schema_with_unmarked_sub_attrs_under_stricter_parents(),
    )
    .unwrap_err();
    assert_eq!(err, PatchError::ImmutableOrReadOnly("badge".to_string()));
}

#[test]
fn check_mutability_does_not_cascade_when_parent_and_sub_attribute_are_both_readwrite() {
    let resource = json(r#"{
        "schemas": ["urn:test:params:scim:schemas:extension:cascade:2.0:Widget"],
        "id": "w-1",
        "settings": {"note": "old"}
    }"#);
    let result = apply_patch_with_schema(
        &resource,
        &[op(
            PatchOp::Replace,
            Some("settings.note"),
            Some(json(r#""new""#)),
        )],
        &schema_with_unmarked_sub_attrs_under_stricter_parents(),
    )
    .unwrap();
    assert_eq!(result["settings"]["note"], "new");
}

#[test]
fn check_mutability_does_not_cascade_a_stricter_sub_attribute_down_to_a_looser_parent() {
    let resource = json(r#"{
        "schemas": ["urn:ietf:params:scim:schemas:core:2.0:Group"],
        "id": "g-1",
        "displayName": "Admins",
        "members": [{"value": "u-1", "type": "User", "display": "Alice"}]
    }"#);
    let err = apply_patch_with_schema(
        &resource,
        &[op(
            PatchOp::Replace,
            Some(r#"members[value eq "u-1"].display"#),
            Some(json(r#""Mallory""#)),
        )],
        &scimforge::group::group_schema(),
    )
    .unwrap_err();
    assert_eq!(err, PatchError::ImmutableOrReadOnly("members".to_string()));
}

#[test]
fn check_mutability_surfaces_a_malformed_parent_mutability_on_a_sub_attribute_path() {
    let resource = json(r#"{
        "schemas": ["urn:test:params:scim:schemas:extension:cascade:2.0:Widget"],
        "id": "w-1",
        "broken": {"detail": "old"}
    }"#);
    let err = apply_patch_with_schema(
        &resource,
        &[op(
            PatchOp::Replace,
            Some("broken.detail"),
            Some(json(r#""new""#)),
        )],
        &schema_with_unmarked_sub_attrs_under_stricter_parents(),
    )
    .unwrap_err();
    assert!(matches!(err, PatchError::InvalidSchemaMutability { .. }));
}

#[test]
fn schema_allows_replace_on_readwrite_attributes_same_as_the_unscoped_check() {
    let resource = user_with_emails();
    let result = apply_patch_with_schema(
        &resource,
        &[op(PatchOp::Replace, Some("active"), Some(json(r#"false"#)))],
        &scimforge::user::user_schema(),
    )
    .unwrap();
    assert_eq!(result["active"], false);
}

#[test]
fn schema_allows_adding_a_fresh_readwrite_attribute_group_members_itself_is_readwrite() {
    let resource = json(r#"{
        "schemas": ["urn:ietf:params:scim:schemas:core:2.0:Group"],
        "id": "g-1",
        "displayName": "Admins"
    }"#);
    let result = apply_patch_with_schema(
        &resource,
        &[op(
            PatchOp::Add,
            Some("members"),
            Some(json(r#"[{"value": "u-1", "type": "User"}]"#)),
        )],
        &scimforge::group::group_schema(),
    )
    .unwrap();
    assert_eq!(result["members"][0]["value"], "u-1");
}

#[test]
fn schema_rejects_replace_on_an_immutable_sub_attribute_that_already_has_a_value() {
    let resource = json(r#"{
        "schemas": ["urn:ietf:params:scim:schemas:core:2.0:Group"],
        "id": "g-1",
        "displayName": "Admins",
        "members": [{"value": "u-1", "type": "User", "display": "Alice"}]
    }"#);
    let err = apply_patch_with_schema(
        &resource,
        &[op(
            PatchOp::Replace,
            Some(r#"members[value eq "u-1"].display"#),
            Some(json(r#""Alicia""#)),
        )],
        &scimforge::group::group_schema(),
    )
    .unwrap_err();
    assert_eq!(err, PatchError::ImmutableOrReadOnly("members".to_string()));
}

fn merged_user_and_enterprise_schema() -> SchemaResource {
    let mut schema = scimforge::user::user_schema();
    schema
        .attributes
        .extend(scimforge::user::enterprise_user_schema().attributes);
    schema
}

fn user_with_manager() -> Value {
    json(r#"{
        "schemas": ["urn:ietf:params:scim:schemas:core:2.0:User"],
        "id": "u-1",
        "userName": "bjensen",
        "manager": {
            "value": "u-boss",
            "$ref": "https://example.com/v2/Users/u-boss",
            "displayName": "Real Boss"
        }
    }"#)
}

#[test]
fn schema_rejects_a_whole_attribute_replace_that_forges_managers_readonly_displayname() {
    let resource = user_with_manager();
    let err = apply_patch_with_schema(
        &resource,
        &[op(
            PatchOp::Replace,
            Some("manager"),
            Some(json(r#"{
                "value": "u-boss",
                "$ref": "https://example.com/v2/Users/u-boss",
                "displayName": "FORGED BOSS"
            }"#)),
        )],
        &merged_user_and_enterprise_schema(),
    )
    .unwrap_err();
    assert!(matches!(err, PatchError::ImmutableOrReadOnly(_)));
}

#[test]
fn schema_rejects_a_no_path_replace_that_forges_managers_readonly_displayname() {
    let resource = user_with_manager();
    let err = apply_patch_with_schema(
        &resource,
        &[op(
            PatchOp::Replace,
            None,
            Some(json(r#"{
                "manager": {
                    "value": "u-boss",
                    "$ref": "https://example.com/v2/Users/u-boss",
                    "displayName": "FORGED BOSS 2"
                }
            }"#)),
        )],
        &merged_user_and_enterprise_schema(),
    )
    .unwrap_err();
    assert!(matches!(err, PatchError::ImmutableOrReadOnly(_)));
}

#[test]
fn schema_allows_replacing_managers_readwrite_value_and_ref_without_touching_displayname() {
    let resource = user_with_manager();
    let result = apply_patch_with_schema(
        &resource,
        &[op(
            PatchOp::Replace,
            Some("manager"),
            Some(json(r#"{
                "value": "u-new-boss",
                "$ref": "https://example.com/v2/Users/u-new-boss",
                "displayName": "Real Boss"
            }"#)),
        )],
        &merged_user_and_enterprise_schema(),
    )
    .unwrap();
    assert_eq!(result["manager"]["value"], "u-new-boss");
}

#[test]
fn schema_rejects_a_whole_array_replace_correlating_via_a_decoy_cased_value_key() {
    let resource = json(r#"{
        "schemas": ["urn:ietf:params:scim:schemas:core:2.0:Group"],
        "id": "g-1",
        "displayName": "Admins",
        "members": [{"value": "u-1", "type": "User", "display": "Alice"}]
    }"#);
    let err = apply_patch_with_schema(
        &resource,
        &[op(
            PatchOp::Replace,
            Some("members"),
            Some(json(r#"[{"Value": "u-1", "type": "User", "display": "MALLORY"}]"#)),
        )],
        &scimforge::group::group_schema(),
    )
    .unwrap_err();
    assert_eq!(
        err,
        PatchError::ImmutableOrReadOnly("members[].display".to_string())
    );
}

#[test]
fn schema_rejects_replace_targeting_the_members_type_sub_attribute() {
    let resource = json(r#"{
        "schemas": ["urn:ietf:params:scim:schemas:core:2.0:Group"],
        "id": "g-1",
        "displayName": "Admins",
        "members": [{"value": "u-1", "type": "User", "display": "Alice"}]
    }"#);
    let err = apply_patch_with_schema(
        &resource,
        &[op(
            PatchOp::Replace,
            Some(r#"members[value eq "u-1"].type"#),
            Some(json(r#""Group""#)),
        )],
        &scimforge::group::group_schema(),
    )
    .unwrap_err();
    assert_eq!(err, PatchError::ImmutableOrReadOnly("members".to_string()));
}

#[test]
fn schema_rejects_no_path_add_that_smuggles_a_readonly_attribute() {
    let resource = user_with_emails();
    let err = apply_patch_with_schema(
        &resource,
        &[op(
            PatchOp::Add,
            None,
            Some(json(r#"{"active": false, "groups": [{"value": "g-1"}]}"#)),
        )],
        &scimforge::user::user_schema(),
    )
    .unwrap_err();
    assert_eq!(err, PatchError::ImmutableOrReadOnly("groups".to_string()));
}

#[test]
fn apply_patch_without_schema_still_allows_what_schema_would_reject() {
    let resource = user_with_emails();
    let result = apply_patch(
        &resource,
        &[op(
            PatchOp::Replace,
            Some("groups"),
            Some(json(r#"[{"value": "g-1"}]"#)),
        )],
    )
    .unwrap();
    assert_eq!(result["groups"][0]["value"], "g-1");
}

#[test]
fn patch_error_maps_to_the_rfc_7644_table_9_scim_type() {
    assert_eq!(PatchError::NoTarget.scim_type(), ScimType::NoTarget);
    assert_eq!(
        PatchError::Protected("id".to_string()).scim_type(),
        ScimType::Mutability
    );
    assert_eq!(
        PatchError::ImmutableOrReadOnly("groups".to_string()).scim_type(),
        ScimType::Mutability
    );
    assert_eq!(PatchError::NoMatchingValue.scim_type(), ScimType::NoTarget);
}

#[test]
fn bracket_filter_matching_is_case_insensitive_by_default() {
    let resource = user_with_emails();
    let result = apply_patch(
        &resource,
        &[op(
            PatchOp::Replace,
            Some(r#"emails[type eq "WORK"].value"#),
            Some(json(r#""new@example.com""#)),
        )],
    )
    .unwrap();
    assert_eq!(result["emails"][0]["value"], "new@example.com");
}

fn widget_schema() -> SchemaResource {
    SchemaResource {
        schemas: vec![scimforge::discovery::SCHEMA_SCHEMA_URI.to_string()],
        id: "urn:test:Widget".to_string(),
        name: Some("Widget".to_string()),
        description: None,
        attributes: vec![scimforge::discovery::AttributeDefinition {
            multi_valued: true,
            sub_attributes: vec![
                scimforge::discovery::AttributeDefinition {
                    case_exact: true,
                    ..scimforge::discovery::AttributeDefinition::simple(
                        "code",
                        "string",
                        "Case-sensitive widget code.",
                        "readWrite",
                    )
                },
                scimforge::discovery::AttributeDefinition::simple(
                    "label",
                    "string",
                    "Case-insensitive widget label.",
                    "readWrite",
                ),
            ],
            ..scimforge::discovery::AttributeDefinition::simple(
                "widgets",
                "complex",
                "A list of widgets.",
                "readWrite",
            )
        }],
    }
}

fn resource_with_widgets() -> Value {
    json(r#"{
        "schemas": ["urn:test:Widget"],
        "id": "w-1",
        "widgets": [
            {"code": "ABC", "label": "Sprocket"}
        ]
    }"#)
}

#[test]
fn schema_aware_bracket_filter_is_case_exact_for_a_caseexact_true_sub_attribute() {
    let resource = resource_with_widgets();
    let err = apply_patch_with_schema(
        &resource,
        &[op(
            PatchOp::Replace,
            Some(r#"widgets[code eq "abc"].label"#),
            Some(json(r#""Renamed""#)),
        )],
        &widget_schema(),
    )
    .unwrap_err();
    assert_eq!(err, PatchError::NoMatchingValue);

    let result = apply_patch_with_schema(
        &resource,
        &[op(
            PatchOp::Replace,
            Some(r#"widgets[code eq "ABC"].label"#),
            Some(json(r#""Renamed""#)),
        )],
        &widget_schema(),
    )
    .unwrap();
    assert_eq!(result["widgets"][0]["label"], "Renamed");
}

#[test]
fn schema_aware_bracket_filter_still_folds_case_for_a_caseexact_false_sub_attribute() {
    let resource = resource_with_widgets();
    let result = apply_patch_with_schema(
        &resource,
        &[op(
            PatchOp::Replace,
            Some(r#"widgets[label eq "SPROCKET"].code"#),
            Some(json(r#""XYZ""#)),
        )],
        &widget_schema(),
    )
    .unwrap();
    assert_eq!(result["widgets"][0]["code"], "XYZ");
}

#[test]
fn schema_aware_bracket_filter_folds_case_for_an_unresolvable_sub_attribute() {
    let resource = json(r#"{
        "schemas": ["urn:test:Widget"],
        "id": "w-1",
        "widgets": [{"unmodeled": "ABC", "label": "Sprocket"}]
    }"#);
    let result = apply_patch_with_schema(
        &resource,
        &[op(
            PatchOp::Replace,
            Some(r#"widgets[unmodeled eq "abc"].label"#),
            Some(json(r#""Renamed""#)),
        )],
        &widget_schema(),
    )
    .unwrap();
    assert_eq!(result["widgets"][0]["label"], "Renamed");
}

#[test]
fn apply_patch_without_schema_still_always_folds_case_for_bracket_filters() {
    let resource = resource_with_widgets();
    let result = apply_patch(
        &resource,
        &[op(
            PatchOp::Replace,
            Some(r#"widgets[code eq "abc"].label"#),
            Some(json(r#""Renamed""#)),
        )],
    )
    .unwrap();
    assert_eq!(result["widgets"][0]["label"], "Renamed");
}

#[test]
fn schema_aware_compound_filter_resolves_case_exact_independently_per_clause() {
    let resource = resource_with_widgets();

    let err = apply_patch_with_schema(
        &resource,
        &[op(
            PatchOp::Replace,
            Some(r#"widgets[code eq "abc" and label eq "SPROCKET"].label"#),
            Some(json(r#""Renamed""#)),
        )],
        &widget_schema(),
    )
    .unwrap_err();
    assert_eq!(err, PatchError::NoMatchingValue);

    let result = apply_patch_with_schema(
        &resource,
        &[op(
            PatchOp::Replace,
            Some(r#"widgets[code eq "ABC" and label eq "SPROCKET"].label"#),
            Some(json(r#""Renamed""#)),
        )],
        &widget_schema(),
    )
    .unwrap();
    assert_eq!(result["widgets"][0]["label"], "Renamed");
}

fn group_with_two_members() -> Value {
    json(r#"{
        "schemas": ["urn:ietf:params:scim:schemas:core:2.0:Group"],
        "id": "g-1",
        "displayName": "Admins",
        "members": [
            {"value": "u-1", "type": "User", "display": "Alice"},
            {"value": "u-2", "type": "User"}
        ]
    }"#)
}

#[test]
fn schema_allows_add_on_an_immutable_sub_attribute_when_the_matched_entry_has_no_prior_value() {
    let resource = group_with_two_members();
    let result = apply_patch_with_schema(
        &resource,
        &[op(
            PatchOp::Add,
            Some(r#"members[value eq "u-2"].display"#),
            Some(json(r#""Bob""#)),
        )],
        &scimforge::group::group_schema(),
    )
    .unwrap();
    let members = result["members"].as_array().unwrap();
    assert_eq!(members[1]["display"], "Bob");
    assert_eq!(members[0]["display"], "Alice");
}

#[test]
fn schema_rejects_add_on_an_immutable_sub_attribute_when_the_matched_entry_already_has_a_value()
{
    let resource = group_with_two_members();
    let err = apply_patch_with_schema(
        &resource,
        &[op(
            PatchOp::Add,
            Some(r#"members[value eq "u-1"].display"#),
            Some(json(r#""Alicia""#)),
        )],
        &scimforge::group::group_schema(),
    )
    .unwrap_err();
    assert_eq!(err, PatchError::ImmutableOrReadOnly("members".to_string()));
}

#[test]
fn schema_reports_no_matching_value_not_immutable_for_an_add_whose_filter_matches_nothing() {
    let resource = group_with_two_members();
    let err = apply_patch_with_schema(
        &resource,
        &[op(
            PatchOp::Add,
            Some(r#"members[value eq "nonexistent"].display"#),
            Some(json(r#""Nobody""#)),
        )],
        &scimforge::group::group_schema(),
    )
    .unwrap_err();
    assert_eq!(err, PatchError::NoMatchingValue);
}

#[test]
fn schema_allows_add_on_immutable_sub_attribute_matched_by_a_compound_filter() {
    let resource = group_with_two_members();
    let result = apply_patch_with_schema(
        &resource,
        &[op(
            PatchOp::Add,
            Some(r#"members[value eq "u-2" and type eq "User"].display"#),
            Some(json(r#""Bob""#)),
        )],
        &scimforge::group::group_schema(),
    )
    .unwrap();
    assert_eq!(result["members"][1]["display"], "Bob");
}

fn badge_schema() -> SchemaResource {
    SchemaResource {
        schemas: vec![scimforge::discovery::SCHEMA_SCHEMA_URI.to_string()],
        id: "urn:test:Badge".to_string(),
        name: Some("Badge".to_string()),
        description: None,
        attributes: vec![scimforge::discovery::AttributeDefinition {
            sub_attributes: vec![
                scimforge::discovery::AttributeDefinition::simple(
                    "level",
                    "string",
                    "Immutable badge level.",
                    "immutable",
                ),
                scimforge::discovery::AttributeDefinition::simple(
                    "note",
                    "string",
                    "Freely editable note.",
                    "readWrite",
                ),
            ],
            ..scimforge::discovery::AttributeDefinition::simple(
                "profile",
                "complex",
                "The user's profile.",
                "readWrite",
            )
        }],
    }
}

#[test]
fn schema_allows_add_on_a_dotted_immutable_sub_attribute_absent_from_an_existing_parent_object()
{
    let resource = json(r#"{
        "schemas": ["urn:test:Badge"],
        "id": "b-1",
        "profile": {"note": "hello"}
    }"#);
    let result = apply_patch_with_schema(
        &resource,
        &[op(PatchOp::Add, Some("profile.level"), Some(json(r#""gold""#)))],
        &badge_schema(),
    )
    .unwrap();
    assert_eq!(result["profile"]["level"], "gold");
    assert_eq!(result["profile"]["note"], "hello");
}

#[test]
fn schema_rejects_add_on_a_dotted_immutable_sub_attribute_that_already_has_a_value() {
    let resource = json(r#"{
        "schemas": ["urn:test:Badge"],
        "id": "b-1",
        "profile": {"level": "silver"}
    }"#);
    let err = apply_patch_with_schema(
        &resource,
        &[op(PatchOp::Add, Some("profile.level"), Some(json(r#""gold""#)))],
        &badge_schema(),
    )
    .unwrap_err();
    assert_eq!(err, PatchError::ImmutableOrReadOnly("profile".to_string()));
}

#[test]
fn immutable_add_check_never_panics_on_a_non_object_array_entry() {
    let resource = json(r#"{
        "schemas": ["urn:ietf:params:scim:schemas:core:2.0:Group"],
        "id": "g-1",
        "displayName": "Admins",
        "members": ["not-an-object", 42, null, {"value": "u-1"}]
    }"#);
    let result = apply_patch_with_schema(
        &resource,
        &[op(
            PatchOp::Add,
            Some(r#"members[value eq "u-1"].display"#),
            Some(json(r#""Bob""#)),
        )],
        &scimforge::group::group_schema(),
    );
    assert!(result.is_ok() || result.is_err());
}

#[test]
fn invalid_path_syntax_is_a_hard_error_not_a_best_guess() {
    let resource = user_with_emails();
    let err = apply_patch(
        &resource,
        &[op(
            PatchOp::Replace,
            Some("emails[type eq"),
            Some(json(r#""x""#)),
        )],
    )
    .unwrap_err();
    assert!(matches!(err, PatchError::InvalidPath(_)));
}

fn numeric_schema() -> SchemaResource {
    SchemaResource {
        schemas: vec![scimforge::discovery::SCHEMA_SCHEMA_URI.to_string()],
        id: "urn:test:Numeric".to_string(),
        name: Some("Numeric".to_string()),
        description: None,
        attributes: vec![
            scimforge::discovery::AttributeDefinition::simple(
                "loginCount",
                "integer",
                "Number of logins.",
                "readWrite",
            ),
            scimforge::discovery::AttributeDefinition::simple(
                "score",
                "decimal",
                "A decimal score.",
                "readWrite",
            ),
        ],
    }
}

fn numeric_resource() -> Value {
    json(r#"{
        "schemas": ["urn:test:Numeric"],
        "id": "n-1",
        "loginCount": 3,
        "score": 1.5
    }"#)
}

#[test]
fn schema_coerces_a_string_true_to_boolean_for_a_boolean_typed_attribute() {
    let resource = user_with_emails();
    let result = apply_patch_with_schema(
        &resource,
        &[op(PatchOp::Replace, Some("active"), Some(json(r#""true""#)))],
        &scimforge::user::user_schema(),
    )
    .unwrap();
    assert_eq!(result["active"], json(r#"true"#));
}

#[test]
fn schema_coerces_a_string_false_to_boolean_for_a_boolean_typed_attribute() {
    let resource = user_with_emails();
    let result = apply_patch_with_schema(
        &resource,
        &[op(PatchOp::Replace, Some("active"), Some(json(r#""false""#)))],
        &scimforge::user::user_schema(),
    )
    .unwrap();
    assert_eq!(result["active"], json(r#"false"#));
}

#[test]
fn unscoped_apply_patch_never_coerces_since_it_has_no_schema_type_to_consult() {
    let resource = user_with_emails();
    let result = apply_patch(
        &resource,
        &[op(PatchOp::Replace, Some("active"), Some(json(r#""true""#)))],
    )
    .unwrap();
    assert_eq!(result["active"], json(r#""true""#));
}

#[test]
fn schema_coercion_rejects_a_wrong_case_boolean_string_as_a_near_miss() {
    let resource = user_with_emails();
    let result = apply_patch_with_schema(
        &resource,
        &[op(PatchOp::Replace, Some("active"), Some(json(r#""True""#)))],
        &scimforge::user::user_schema(),
    )
    .unwrap();
    assert_eq!(result["active"], json(r#""True""#));
}

#[test]
fn schema_coerces_a_clean_integer_string_for_an_integer_typed_attribute() {
    let resource = numeric_resource();
    let result = apply_patch_with_schema(
        &resource,
        &[op(PatchOp::Replace, Some("loginCount"), Some(json(r#""42""#)))],
        &numeric_schema(),
    )
    .unwrap();
    assert_eq!(result["loginCount"], json(r#"42"#));
}

#[test]
fn schema_coercion_rejects_a_leading_zero_integer_string_as_a_near_miss() {
    let resource = numeric_resource();
    let result = apply_patch_with_schema(
        &resource,
        &[op(PatchOp::Replace, Some("loginCount"), Some(json(r#""007""#)))],
        &numeric_schema(),
    )
    .unwrap();
    assert_eq!(result["loginCount"], json(r#""007""#));
}

#[test]
fn schema_coercion_rejects_a_whitespace_padded_integer_string_as_a_near_miss() {
    let resource = numeric_resource();
    let result = apply_patch_with_schema(
        &resource,
        &[op(PatchOp::Replace, Some("loginCount"), Some(json(r#"" 42""#)))],
        &numeric_schema(),
    )
    .unwrap();
    assert_eq!(result["loginCount"], json(r#"" 42""#));
}

#[test]
fn schema_coerces_a_clean_decimal_string_for_a_decimal_typed_attribute() {
    let resource = numeric_resource();
    let result = apply_patch_with_schema(
        &resource,
        &[op(PatchOp::Replace, Some("score"), Some(json(r#""2.5""#)))],
        &numeric_schema(),
    )
    .unwrap();
    assert_eq!(result["score"], json(r#"2.5"#));
}

#[test]
fn schema_coercion_rejects_a_non_finite_decimal_string_as_a_near_miss() {
    let resource = numeric_resource();
    let result = apply_patch_with_schema(
        &resource,
        &[op(PatchOp::Replace, Some("score"), Some(json(r#""Infinity""#)))],
        &numeric_schema(),
    )
    .unwrap();
    assert_eq!(result["score"], json(r#""Infinity""#));
}

#[test]
fn schema_coercion_leaves_non_numeric_strings_on_string_typed_attributes_untouched() {
    let resource = user_with_emails();
    let result = apply_patch_with_schema(
        &resource,
        &[op(
            PatchOp::Replace,
            Some("displayName"),
            Some(json(r#""Babs""#)),
        )],
        &scimforge::user::user_schema(),
    )
    .unwrap();
    assert_eq!(result["displayName"], json(r#""Babs""#));
}

#[test]
fn schema_coerces_a_bracket_filtered_sub_attribute_value_too() {
    let mut schema = scimforge::group::group_schema();
    let members = schema
        .attributes
        .iter_mut()
        .find(|a| a.name == "members")
        .unwrap();
    members
        .sub_attributes
        .push(scimforge::discovery::AttributeDefinition::simple(
            "primary",
            "boolean",
            "Whether this is the primary membership record.",
            "readWrite",
        ));
    let resource = json(r#"{
        "schemas": ["urn:ietf:params:scim:schemas:core:2.0:Group"],
        "id": "g-1",
        "displayName": "Admins",
        "members": [{"value": "u-1", "type": "User", "primary": false}]
    }"#);
    let result = apply_patch_with_schema(
        &resource,
        &[op(
            PatchOp::Replace,
            Some(r#"members[value eq "u-1"].primary"#),
            Some(json(r#""true""#)),
        )],
        &schema,
    )
    .unwrap();
    assert_eq!(result["members"][0]["primary"], json(r#"true"#));
}

#[test]
fn rejects_schema_qualified_path_on_replace_rather_than_writing_a_bogus_top_level_key() {
    let resource = user_with_emails();
    let err = apply_patch(
        &resource,
        &[op(
            PatchOp::Replace,
            Some("urn:ietf:params:scim:schemas:extension:enterprise:2.0:User:employeeNumber"),
            Some(json(r#""12345""#)),
        )],
    )
    .unwrap_err();
    assert!(matches!(err, PatchError::SchemaQualifiedPath(_)));
    assert!(
        resource
            .get("urn:ietf:params:scim:schemas:extension:enterprise:2.0:User:employeeNumber")
            .is_none()
    );
}

#[test]
fn rejects_schema_qualified_path_on_remove() {
    let resource = user_with_emails();
    let err = apply_patch(
        &resource,
        &[op(
            PatchOp::Remove,
            Some("urn:ietf:params:scim:schemas:core:2.0:User:userName"),
            None,
        )],
    )
    .unwrap_err();
    assert!(matches!(err, PatchError::SchemaQualifiedPath(_)));
}

#[test]
fn rejects_schema_qualified_path_with_schema_present_too() {
    let resource = user_with_emails();
    let err = apply_patch_with_schema(
        &resource,
        &[op(
            PatchOp::Replace,
            Some("urn:ietf:params:scim:schemas:core:2.0:User:active"),
            Some(json(r#"false"#)),
        )],
        &scimforge::user::user_schema(),
    )
    .unwrap_err();
    assert!(matches!(err, PatchError::SchemaQualifiedPath(_)));
}

#[test]
fn schema_qualified_path_error_maps_to_invalid_path_scim_type() {
    assert_eq!(
        PatchError::SchemaQualifiedPath("x".to_string()).scim_type(),
        ScimType::InvalidPath
    );
}

#[test]
fn unqualified_path_to_a_core_attribute_is_unaffected_by_the_new_rejection() {
    let resource = user_with_emails();
    let result = apply_patch(
        &resource,
        &[op(PatchOp::Replace, Some("active"), Some(json(r#"false"#)))],
    )
    .unwrap();
    assert_eq!(result["active"], false);
}

#[test]
fn schema_rejects_a_malformed_mutability_string_instead_of_treating_it_as_readwrite() {
    let schema = scimforge::discovery::SchemaResource {
        schemas: vec![scimforge::discovery::SCHEMA_SCHEMA_URI.to_string()],
        id: "urn:test:Typo".to_string(),
        name: Some("Typo".to_string()),
        description: None,
        attributes: vec![scimforge::discovery::AttributeDefinition::simple(
            "secretField",
            "string",
            "Should be locked down, but the schema has a typo.",
            "immutible",
        )],
    };
    let resource = json(r#"{"schemas": ["urn:test:Typo"], "secretField": "original"}"#);
    let err = apply_patch_with_schema(
        &resource,
        &[op(
            PatchOp::Replace,
            Some("secretField"),
            Some(json(r#""attacker-controlled""#)),
        )],
        &schema,
    )
    .unwrap_err();
    assert!(matches!(err, PatchError::InvalidSchemaMutability { .. }));
    if let PatchError::InvalidSchemaMutability {
        attr_name,
        mutability,
    } = err
    {
        assert_eq!(attr_name, "secretField");
        assert_eq!(mutability, "immutible");
    }
}

#[test]
fn schema_accepts_the_four_exact_rfc_mutability_tokens() {
    for token in ["readOnly", "readWrite", "immutable", "writeOnly"] {
        let schema = scimforge::discovery::SchemaResource {
            schemas: vec![scimforge::discovery::SCHEMA_SCHEMA_URI.to_string()],
            id: "urn:test:Tokens".to_string(),
            name: Some("Tokens".to_string()),
            description: None,
            attributes: vec![scimforge::discovery::AttributeDefinition::simple(
                "field", "string", "test", token,
            )],
        };
        let resource = json(r#"{"schemas": ["urn:test:Tokens"], "field": "original"}"#);
        let result = apply_patch_with_schema(
            &resource,
            &[op(PatchOp::Replace, Some("field"), Some(json(r#""new""#)))],
            &schema,
        );
        if let Err(err) = result {
            assert!(
                !matches!(err, PatchError::InvalidSchemaMutability { .. }),
                "token {token:?} should parse cleanly, got {err:?}"
            );
        }
    }
}

#[test]
fn no_path_replace_rejects_a_whole_members_array_that_changes_an_immutable_sub_attribute() {
    let resource = group_with_two_members();
    let err = apply_patch_with_schema(
        &resource,
        &[op(
            PatchOp::Replace,
            None,
            Some(json(r#"{
                "members": [
                    {"value": "u-1", "type": "User", "display": "NOT-ALICE"},
                    {"value": "u-2", "type": "User"}
                ]
            }"#)),
        )],
        &scimforge::group::group_schema(),
    )
    .unwrap_err();
    assert!(matches!(err, PatchError::ImmutableOrReadOnly(_)));
    assert_eq!(resource["members"][0]["display"], "Alice");
}

#[test]
fn no_path_replace_allows_a_whole_members_array_that_only_adds_a_new_member() {
    let resource = group_with_two_members();
    let result = apply_patch_with_schema(
        &resource,
        &[op(
            PatchOp::Replace,
            None,
            Some(json(r#"{
                "members": [
                    {"value": "u-1", "type": "User", "display": "Alice"},
                    {"value": "u-2", "type": "User"},
                    {"value": "u-3", "type": "User", "display": "Carol"}
                ]
            }"#)),
        )],
        &scimforge::group::group_schema(),
    )
    .unwrap();
    let members = result["members"].as_array().unwrap();
    assert_eq!(members.len(), 3);
    assert_eq!(members[2]["value"], "u-3");
}

#[test]
fn no_path_replace_allows_resubmitting_identical_sub_attribute_values() {
    let resource = group_with_two_members();
    let result = apply_patch_with_schema(
        &resource,
        &[op(
            PatchOp::Replace,
            None,
            Some(json(r#"{
                "members": [
                    {"value": "u-1", "type": "User", "display": "Alice"},
                    {"value": "u-2", "type": "User"}
                ]
            }"#)),
        )],
        &scimforge::group::group_schema(),
    )
    .unwrap();
    assert_eq!(result["members"][0]["display"], "Alice");
}

#[test]
fn no_path_replace_rejects_a_whole_members_array_that_silently_omits_an_immutable_sub_attribute()
 {
    let resource = group_with_two_members();
    let err = apply_patch_with_schema(
        &resource,
        &[op(
            PatchOp::Replace,
            None,
            Some(json(r#"{
                "members": [
                    {"value": "u-1", "type": "User"},
                    {"value": "u-2", "type": "User"}
                ]
            }"#)),
        )],
        &scimforge::group::group_schema(),
    )
    .unwrap_err();
    assert!(matches!(err, PatchError::ImmutableOrReadOnly(_)));
    assert_eq!(resource["members"][0]["display"], "Alice");
}

#[test]
fn explicit_top_level_path_replace_rejects_a_members_array_that_silently_omits_an_immutable_sub_attribute()
 {
    let resource = group_with_two_members();
    let err = apply_patch_with_schema(
        &resource,
        &[op(
            PatchOp::Replace,
            Some("members"),
            Some(json(r#"[
                {"value": "u-1", "type": "User"},
                {"value": "u-2", "type": "User"}
            ]"#)),
        )],
        &scimforge::group::group_schema(),
    )
    .unwrap_err();
    assert!(matches!(err, PatchError::ImmutableOrReadOnly(_)));
}

#[test]
fn bracket_filter_replace_with_no_trailing_sub_attr_rejects_silently_omitting_an_immutable_sub_attribute()
 {
    let resource = group_with_two_members();
    let err = apply_patch_with_schema(
        &resource,
        &[op(
            PatchOp::Replace,
            Some(r#"members[value eq "u-1"]"#),
            Some(json(r#"{"value": "u-1", "type": "User"}"#)),
        )],
        &scimforge::group::group_schema(),
    )
    .unwrap_err();
    assert!(matches!(err, PatchError::ImmutableOrReadOnly(_)));
    assert_eq!(resource["members"][0]["display"], "Alice");
}

#[test]
fn explicit_top_level_path_replace_rejects_changing_an_existing_members_immutable_value() {
    let resource = group_with_two_members();
    let err = apply_patch_with_schema(
        &resource,
        &[op(
            PatchOp::Replace,
            Some("members"),
            Some(json(r#"[
                {"value": "u-1", "type": "User", "display": "Mallory"},
                {"value": "u-2", "type": "User"}
            ]"#)),
        )],
        &scimforge::group::group_schema(),
    )
    .unwrap_err();
    assert!(matches!(err, PatchError::ImmutableOrReadOnly(_)));
}

#[test]
fn explicit_top_level_path_add_onto_an_existing_array_still_only_appends() {
    let resource = group_with_two_members();
    let result = apply_patch_with_schema(
        &resource,
        &[op(
            PatchOp::Add,
            Some("members"),
            Some(json(r#"[{"value": "u-3", "type": "User", "display": "Carol"}]"#)),
        )],
        &scimforge::group::group_schema(),
    )
    .unwrap();
    let members = result["members"].as_array().unwrap();
    assert_eq!(members.len(), 3);
    assert_eq!(members[0]["display"], "Alice");
}

#[test]
fn explicit_top_level_path_add_rejects_a_duplicate_value_with_forged_immutable_fields() {
    let resource = group_with_two_members();
    let err = apply_patch_with_schema(
        &resource,
        &[op(
            PatchOp::Add,
            Some("members"),
            Some(json(r#"[
                {"value": "u-1", "type": "User", "display": "MALLORY", "$ref": "https://evil.example/Users/attacker"}
            ]"#)),
        )],
        &scimforge::group::group_schema(),
    )
    .unwrap_err();
    assert!(matches!(err, PatchError::ImmutableOrReadOnly(_)));
}

#[test]
fn explicit_top_level_path_add_rejects_a_bare_object_duplicate_value_with_forged_immutable_fields()
 {
    let resource = group_with_two_members();
    let err = apply_patch_with_schema(
        &resource,
        &[op(
            PatchOp::Add,
            Some("members"),
            Some(json(r#"{"value": "u-1", "type": "User", "display": "MALLORY", "$ref": "https://evil.example/Users/attacker"}"#)),
        )],
        &scimforge::group::group_schema(),
    )
    .unwrap_err();
    assert!(matches!(err, PatchError::ImmutableOrReadOnly(_)));
}

#[test]
fn explicit_top_level_path_replace_rejects_a_case_varied_value_with_forged_immutable_fields() {
    let resource = group_with_two_members();
    let err = apply_patch_with_schema(
        &resource,
        &[op(
            PatchOp::Replace,
            Some("members"),
            Some(json(r#"[
                {"value": "U-1", "type": "User", "display": "MALLORY"},
                {"value": "u-2", "type": "User"}
            ]"#)),
        )],
        &scimforge::group::group_schema(),
    )
    .unwrap_err();
    assert!(matches!(err, PatchError::ImmutableOrReadOnly(_)));
}

#[test]
fn a_remove_then_readd_within_one_patch_request_cannot_smuggle_forged_immutable_fields() {
    let resource = group_with_two_members();
    let err = apply_patch_with_schema(
        &resource,
        &[
            op(PatchOp::Remove, Some(r#"members[value eq "u-1"]"#), None),
            op(
                PatchOp::Add,
                Some("members"),
                Some(json(r#"[{"value": "u-1", "type": "User", "display": "MALLORY"}]"#)),
            ),
        ],
        &scimforge::group::group_schema(),
    )
    .unwrap_err();
    assert!(matches!(err, PatchError::ImmutableOrReadOnly(_)));
    assert_eq!(resource["members"][0]["display"], "Alice");
}

#[test]
fn a_genuine_no_path_readd_after_removal_in_a_separate_request_still_succeeds() {
    let resource = group_with_two_members();
    let after_remove = apply_patch_with_schema(
        &resource,
        &[op(
            PatchOp::Remove,
            Some(r#"members[value eq "u-1"]"#),
            None,
        )],
        &scimforge::group::group_schema(),
    )
    .unwrap();
    let after_readd = apply_patch_with_schema(
        &after_remove,
        &[op(
            PatchOp::Add,
            Some("members"),
            Some(json(r#"[{"value": "u-1", "type": "User", "display": "Bob"}]"#)),
        )],
        &scimforge::group::group_schema(),
    )
    .unwrap();
    let members = after_readd["members"].as_array().unwrap();
    assert!(
        members
            .iter()
            .any(|m| m["value"] == "u-1" && m["display"] == "Bob")
    );
}

#[test]
fn no_path_replace_rejects_a_decoy_cased_key_hiding_a_forged_immutable_value() {
    let resource = group_with_two_members();
    let err = apply_patch_with_schema(
        &resource,
        &[op(
            PatchOp::Replace,
            None,
            Some(json(r#"{
                "members": [
                    {"value": "u-1", "type": "User", "Display": "Alice", "display": "MALLORY"},
                    {"value": "u-2", "type": "User"}
                ]
            }"#)),
        )],
        &scimforge::group::group_schema(),
    )
    .unwrap_err();
    assert!(matches!(err, PatchError::ImmutableOrReadOnly(_)));
    assert_eq!(resource["members"][0]["display"], "Alice");
}

#[test]
fn no_path_replace_allows_a_genuinely_duplicated_case_variant_key_with_agreeing_values() {
    let resource = group_with_two_members();
    let result = apply_patch_with_schema(
        &resource,
        &[op(
            PatchOp::Replace,
            None,
            Some(json(r#"{
                "members": [
                    {"value": "u-1", "type": "User", "Display": "Alice", "display": "Alice"},
                    {"value": "u-2", "type": "User"}
                ]
            }"#)),
        )],
        &scimforge::group::group_schema(),
    )
    .unwrap();
    assert_eq!(result["members"][0]["display"], "Alice");
}

#[test]
fn bracket_filter_replace_rejects_a_decoy_cased_key_hiding_a_forged_immutable_value() {
    let resource = group_with_two_members();
    let err = apply_patch_with_schema(
        &resource,
        &[op(
            PatchOp::Replace,
            Some(r#"members[value eq "u-1"]"#),
            Some(json(r#"{
                "value": "u-1",
                "type": "User",
                "Display": "Alice",
                "display": "MALLORY"
            }"#)),
        )],
        &scimforge::group::group_schema(),
    )
    .unwrap_err();
    assert!(matches!(err, PatchError::ImmutableOrReadOnly(_)));
    assert_eq!(resource["members"][0]["display"], "Alice");
}

#[test]
fn bracket_filter_replace_matching_multiple_entries_checks_each_against_its_own_baseline() {
    let resource = json(r#"{
        "schemas": ["urn:ietf:params:scim:schemas:core:2.0:Group"],
        "id": "g-1",
        "displayName": "Admins",
        "members": [
            {"value": "u-1", "type": "User"},
            {"value": "u-2", "type": "User", "display": "Alice"}
        ]
    }"#);
    let err = apply_patch_with_schema(
        &resource,
        &[op(
            PatchOp::Replace,
            Some(r#"members[type eq "User"]"#),
            Some(json(r#"{"value": "u-1", "type": "User", "display": "MALLORY"}"#)),
        )],
        &scimforge::group::group_schema(),
    )
    .unwrap_err();
    assert!(matches!(err, PatchError::ImmutableOrReadOnly(_)));
    assert_eq!(resource["members"][1]["display"], "Alice");
}

#[test]
fn explicit_top_level_path_replace_rejects_forging_an_entry_whose_value_is_not_a_string() {
    let resource = json(r#"{
        "schemas": ["urn:ietf:params:scim:schemas:core:2.0:Group"],
        "id": "g-1",
        "displayName": "Admins",
        "members": [{"value": 42, "type": "User", "display": "Alice"}]
    }"#);
    let err = apply_patch_with_schema(
        &resource,
        &[op(
            PatchOp::Replace,
            Some("members"),
            Some(json(r#"[{"value": 42, "type": "User", "display": "MALLORY"}]"#)),
        )],
        &scimforge::group::group_schema(),
    )
    .unwrap_err();
    assert!(matches!(err, PatchError::ImmutableOrReadOnly(_)));
    assert_eq!(resource["members"][0]["display"], "Alice");
}

#[test]
fn bracket_filter_replace_with_no_trailing_sub_attr_rejects_changing_an_immutable_value() {
    let resource = group_with_two_members();
    let err = apply_patch_with_schema(
        &resource,
        &[op(
            PatchOp::Replace,
            Some(r#"members[value eq "u-1"]"#),
            Some(json(r#"{
                "value": "u-1",
                "type": "User",
                "display": "MALLORY",
                "$ref": "https://evil.example/Users/attacker"
            }"#)),
        )],
        &scimforge::group::group_schema(),
    )
    .unwrap_err();
    assert!(matches!(err, PatchError::ImmutableOrReadOnly(_)));
    assert_eq!(resource["members"][0]["display"], "Alice");
}

#[test]
fn bracket_filter_replace_with_no_trailing_sub_attr_still_allows_a_matching_display_name() {
    let resource = group_with_two_members();
    let result = apply_patch_with_schema(
        &resource,
        &[op(
            PatchOp::Replace,
            Some(r#"members[value eq "u-1"]"#),
            Some(json(r#"{"value": "u-1", "type": "User", "display": "Alice"}"#)),
        )],
        &scimforge::group::group_schema(),
    )
    .unwrap();
    assert_eq!(result["members"][0]["display"], "Alice");
}

#[test]
fn scalar_attributes_are_unaffected_by_the_new_multivalued_check() {
    let resource = group_with_two_members();
    let result = apply_patch_with_schema(
        &resource,
        &[op(
            PatchOp::Replace,
            None,
            Some(json(r#"{"displayName": "New Name"}"#)),
        )],
        &scimforge::group::group_schema(),
    )
    .unwrap();
    assert_eq!(result["displayName"], "New Name");
}
