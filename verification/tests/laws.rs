use scimforge::bulk::{
    find_bulk_id_refs, order_operations, BulkError, BulkIdResolver, BulkMethod,
    BulkOperationRequest,
};
use scimforge::common::Mutability;
use scimforge::discovery::{is_case_exact, AttributeDefinition};
use scimforge::filter::{parse, parse_patch_path, AttrPath, CompareOp, Filter, PatchPath};
use scimforge::group::group_schema;
use scimforge::json::{Members, Number, Value as Doc};
use scimforge::list_response::Pagination;
use scimforge::matching::compare_texts;
use scimforge::mutability::{at_least_as_strict, mutability_rank, stricter};
use scimforge::number::{canonical_integer, decimal_text};
use scimforge::patch::{
    apply_patch, apply_patch_with_schema, PatchError, PatchOp, PatchOperation,
};
use scimforge::server::patch_request::parse_patch_operations;
use scimforge::server::store::redact_sensitive;
use scimforge::user::{enterprise_user_schema, user_schema};
use serde_json::Value;

/// The library's form of a JSON value.
fn lib(value: &Value) -> Doc {
    match value {
        Value::Null => Doc::Null,
        Value::Bool(b) => Doc::Bool(*b),
        Value::Number(n) => Doc::Number(if let Some(u) = n.as_u64() {
            Number::PosInt(u)
        } else if let Some(i) = n.as_i64() {
            Number::NegInt(i)
        } else {
            Number::Float(n.as_f64().unwrap().to_bits())
        }),
        Value::String(s) => Doc::String(s.clone()),
        Value::Array(items) => Doc::Array(items.iter().map(lib).collect()),
        Value::Object(map) => {
            let mut members = Members::new();
            for (name, item) in map {
                members.insert(name.clone(), lib(item));
            }
            Doc::Object(members)
        }
    }
}

/// A JSON value of the library in the form that tests index into.
fn plain(doc: &Doc) -> Value {
    match doc {
        Doc::Null => Value::Null,
        Doc::Bool(b) => Value::Bool(*b),
        Doc::Number(Number::PosInt(u)) => Value::from(*u),
        Doc::Number(Number::NegInt(i)) => Value::from(*i),
        Doc::Number(Number::Float(bits)) => Value::from(f64::from_bits(*bits)),
        Doc::String(s) => Value::String(s.clone()),
        Doc::Array(items) => Value::Array(items.iter().map(plain).collect()),
        Doc::Object(members) => {
            let mut map = serde_json::Map::new();
            for i in 0..members.len() {
                map.insert(members.name_at(i).to_string(), plain(members.value_at(i)));
            }
            Value::Object(map)
        }
    }
}

fn json(text: &str) -> Value {
    serde_json::from_str(text).unwrap()
}

fn doc(text: &str) -> Doc {
    lib(&json(text))
}

fn op(op: PatchOp, path: &str, value: Option<&str>) -> PatchOperation {
    PatchOperation {
        op,
        path: Some(path.to_string()),
        value: value.map(doc),
    }
}

fn post(bulk_id: &str, data: &str) -> BulkOperationRequest {
    BulkOperationRequest {
        method: BulkMethod::Post,
        bulk_id: Some(bulk_id.to_string()),
        version: None,
        path: "/Users".to_string(),
        data: Some(doc(data)),
    }
}

#[test]
fn decimal_texts_tell_numbers_apart() {
    assert_eq!(decimal_text(0), "0");
    assert_eq!(decimal_text(18446744073709551615), "18446744073709551615");
    assert_eq!(canonical_integer("-9223372036854775808"), Some(i64::MIN));
    assert_eq!(canonical_integer("9223372036854775807"), Some(i64::MAX));
    assert_eq!(canonical_integer("9223372036854775808"), None);
    assert_eq!(canonical_integer("-0"), None);
    assert_eq!(canonical_integer("+1"), None);
    assert_eq!(canonical_integer(""), None);
}

#[test]
fn two_spellings_of_one_filter_parse_alike() {
    let spread = parse("a pr  and ( b pr or c pr )").unwrap();
    let tight = parse("a pr and (b pr or c pr)").unwrap();
    assert_eq!(spread, tight);
    assert_ne!(spread, parse("a pr and b pr or c pr").unwrap());
}

#[test]
fn a_path_has_its_sub_attribute_in_one_place() {
    let dotted = parse_patch_path("name.familyName").unwrap();
    assert_eq!(dotted.attr_path.sub_attr.as_deref(), Some("familyName"));
    assert!(dotted.value_filter.is_none() && dotted.sub_attr_after_filter.is_none());
    let bracket = parse_patch_path("emails[type pr].value").unwrap();
    assert!(bracket.attr_path.sub_attr.is_none() && bracket.value_filter.is_some());
    assert_eq!(bracket.sub_attr_after_filter.as_deref(), Some("value"));
}

#[test]
fn a_written_path_parses_back() {
    let paths = [
        (None, "userName", None),
        (None, "$ref", Some("x-1_y")),
        (
            Some("urn:ietf:params:scim:schemas:core:2.0:User"),
            "name",
            Some("givenName"),
        ),
        (Some("urn:2"), "android", None),
    ];
    for (schema_uri, attr_name, sub_attr) in paths {
        let path = AttrPath {
            schema_uri: schema_uri.map(str::to_string),
            attr_name: attr_name.to_string(),
            sub_attr: sub_attr.map(str::to_string),
        };
        let text = path.to_string();
        assert_eq!(parse(&format!("{text} pr")), Ok(Filter::Present(path.clone())));
        assert_eq!(
            parse_patch_path(&text),
            Ok(PatchPath {
                attr_path: path,
                value_filter: None,
                sub_attr_after_filter: None
            })
        );
    }
}

#[test]
fn capping_a_page_twice_is_capping_it_at_the_lower_bound() {
    let page = Pagination::from_request(Some(-3), Some(50));
    assert_eq!(page.start_index, 1);
    assert_eq!(page.clamped(30).clamped(20), page.clamped(20));
    assert_eq!(page.clamped(20).clamped(30), page.clamped(20));
    assert_eq!(page.clamped(20).count, Some(20));
}

#[test]
fn texts_compare_in_exactly_one_way() {
    for (a, b) in [("a", "b"), ("b", "a"), ("a", "a"), ("", "a"), ("ab", "a"), ("\u{e9}", "z")] {
        let held = [CompareOp::Lt, CompareOp::Eq, CompareOp::Gt]
            .into_iter()
            .filter(|op| compare_texts(a, *op, b))
            .count();
        assert_eq!(held, 1, "{a:?} and {b:?}");
        assert_eq!(
            compare_texts(a, CompareOp::Le, b),
            !compare_texts(a, CompareOp::Gt, b)
        );
        assert_eq!(
            compare_texts(a, CompareOp::Ge, b),
            !compare_texts(a, CompareOp::Lt, b)
        );
    }
}

#[test]
fn the_stricter_of_two_mutabilities_binds_both_ways() {
    let all = [
        Mutability::ReadOnly,
        Mutability::Immutable,
        Mutability::ReadWrite,
        Mutability::WriteOnly,
    ];
    for a in all {
        for b in all {
            let bound = stricter(a, b);
            assert!(at_least_as_strict(bound, a) && at_least_as_strict(bound, b));
            assert_eq!(mutability_rank(bound), mutability_rank(stricter(b, a)));
        }
    }
}

#[test]
fn a_patch_leaves_what_it_does_not_target() {
    let before = doc(r#"{"id": "1", "userName": "a", "title": "x", "meta": {"version": "v"}}"#);
    let after = apply_patch(&before, &[op(PatchOp::Replace, "title", Some("\"y\""))]).unwrap();
    for name in ["id", "userName", "meta"] {
        assert_eq!(plain(&after)[name], plain(&before)[name]);
    }
    assert_eq!(plain(&after)["title"], "y");
}

#[test]
fn protected_attributes_are_out_of_reach_in_any_case_of_letters() {
    let before = doc(r#"{"id": "1", "schemas": ["s"], "meta": {"version": "v"}}"#);
    for path in ["ID", "Schemas", "META", "meta.version", "meta[version pr].x"] {
        for kind in [PatchOp::Add, PatchOp::Replace, PatchOp::Remove] {
            let refused = apply_patch(&before, &[op(kind, path, Some("\"x\""))]);
            assert!(
                matches!(refused, Err(PatchError::Protected(_))),
                "{path}: {refused:?}"
            );
        }
    }
}

#[test]
fn group_memberships_of_a_user_never_change() {
    let before = doc(r#"{"userName": "a", "groups": [{"value": "g1"}]}"#);
    let schema = user_schema();
    let new_groups = r#"[{"value": "g2"}]"#;
    for kind in [PatchOp::Add, PatchOp::Replace, PatchOp::Remove] {
        for path in ["groups", "Groups", "groups.value", "groups[value eq \"g1\"]"] {
            assert_eq!(
                apply_patch_with_schema(&before, &[op(kind, path, Some(new_groups))], &schema),
                Err(PatchError::ImmutableOrReadOnly(
                    parse_patch_path(path).unwrap().attr_path.attr_name
                )),
                "{path}"
            );
        }
    }
    // A part that the schema does not have is not held to any mutability.
    let odd = op(PatchOp::Replace, "groups.unknown", Some("\"x\""));
    assert!(!matches!(
        apply_patch_with_schema(&doc("{\"groups\": {}}"), &[odd], &schema),
        Err(PatchError::ImmutableOrReadOnly(_))
    ));
}

#[test]
fn an_immutable_value_survives_every_request() {
    let mut schema = user_schema();
    schema.attributes.push(AttributeDefinition::simple(
        "badge",
        "string",
        "A badge.",
        "immutable",
    ));
    let before = doc(r#"{"userName": "a", "badge": "b1"}"#);
    for kind in [PatchOp::Add, PatchOp::Replace, PatchOp::Remove] {
        assert_eq!(
            apply_patch_with_schema(&before, &[op(kind, "badge", Some("\"b2\""))], &schema),
            Err(PatchError::ImmutableOrReadOnly("badge".to_string()))
        );
    }
    let without = doc(r#"{"userName": "a"}"#);
    let added = apply_patch_with_schema(
        &without,
        &[op(PatchOp::Add, "badge", Some("\"b2\""))],
        &schema,
    )
    .unwrap();
    assert_eq!(plain(&added)["badge"], "b2");
}

#[test]
fn an_empty_request_changes_nothing() {
    let before = doc(r#"{"id": "1", "emails": [{"value": "a"}]}"#);
    assert_eq!(apply_patch(&before, &[]).unwrap(), before);
    assert_eq!(
        apply_patch_with_schema(&before, &[], &user_schema()).unwrap(),
        before
    );
}

#[test]
fn two_requests_without_a_schema_are_one_longer_request() {
    let before = doc(r#"{"title": "x"}"#);
    let first = || op(PatchOp::Add, "emails", Some(r#"[{"value": "a"}]"#));
    let second = || op(PatchOp::Remove, "emails[value eq \"a\"]", None);
    let together = apply_patch(&before, &[first(), second()]).unwrap();
    let middle = apply_patch(&before, &[first()]).unwrap();
    assert_eq!(apply_patch(&middle, &[second()]).unwrap(), together);
}

#[test]
fn a_request_is_refused_with_its_first_refusal() {
    let before = doc(r#"{"title": "x"}"#);
    let refused = apply_patch(
        &before,
        &[
            op(PatchOp::Replace, "title", Some("\"y\"")),
            op(PatchOp::Replace, "id", Some("\"2\"")),
            op(PatchOp::Replace, "schemas", Some("[]")),
        ],
    );
    assert_eq!(refused, Err(PatchError::Protected("id".to_string())));
}

#[test]
fn remove_undoes_add() {
    let before = doc(r#"{"id": "1", "userName": "a"}"#);
    let after = apply_patch(
        &before,
        &[
            op(PatchOp::Add, "title", Some("\"x\"")),
            op(PatchOp::Remove, "title", None),
        ],
    )
    .unwrap();
    assert_eq!(after, before);
}

#[test]
fn every_operation_is_scheduled_once_and_after_what_it_refers_to() {
    let ops = [
        post("a", r#"{"value": "bulkId:c"}"#),
        post("b", "{}"),
        post("c", "{}"),
    ];
    assert_eq!(order_operations(&ops).unwrap(), vec![1, 2, 0]);
}

#[test]
fn operations_that_refer_backwards_keep_their_places() {
    let ops = [
        post("a", "{}"),
        post("b", r#"{"value": "bulkId:a"}"#),
        post("c", "{}"),
        post("d", r#"["bulkId:b", "bulkId:c"]"#),
    ];
    assert_eq!(order_operations(&ops).unwrap(), vec![0, 1, 2, 3]);
}

#[test]
fn an_operation_is_overtaken_only_while_it_waits() {
    // The first waits for the second, and both are needed before the third was submitted.
    let ops = [
        post("a", r#"{"value": "bulkId:b"}"#),
        post("b", "{}"),
        post("c", "{}"),
    ];
    assert_eq!(order_operations(&ops).unwrap(), vec![1, 0, 2]);
}

#[test]
fn a_self_reference_is_circular() {
    assert_eq!(
        order_operations(&[post("a", r#"{"value": "bulkId:a"}"#)]),
        Err(BulkError::CircularReference)
    );
}

#[test]
fn substitution_replaces_references_and_nothing_else() {
    let mut resolver = BulkIdResolver::new();
    resolver.record("a", "id-1");
    let data = doc(r#"{"x": ["bulkId:a", "bulkId", " bulkId:a", 7], "y": null}"#);
    let after = resolver.substitute(&data).unwrap();
    assert_eq!(
        plain(&after),
        json(r#"{"x": ["id-1", "bulkId", " bulkId:a", 7], "y": null}"#)
    );
    let mut left: Vec<String> = Vec::new();
    find_bulk_id_refs(&after, &mut left);
    assert!(left.is_empty());
    assert_eq!(
        resolver.substitute(&doc(r#"["bulkId:a", "bulkId:b"]"#)),
        Err(BulkError::UnresolvedBulkId("b".to_string()))
    );
    // An identifier that is itself the text of a reference stays one.
    resolver.record("c", "bulkId:a");
    assert_eq!(
        plain(&resolver.substitute(&doc("\"bulkId:c\"")).unwrap()),
        "bulkId:a"
    );
}

#[test]
fn scheduled_operations_find_their_references_resolved() {
    let ops = [
        post("group", r#"{"members": [{"value": "bulkId:user"}]}"#),
        post("user", r#"{"userName": "a"}"#),
    ];
    let mut resolver = BulkIdResolver::new();
    for i in order_operations(&ops).unwrap() {
        let data = resolver.substitute(ops[i].data.as_ref().unwrap()).unwrap();
        if i == 0 {
            assert_eq!(plain(&data)["members"][0]["value"], "real-user");
        }
        let id = ops[i].bulk_id.as_deref().unwrap();
        resolver.record(id, &format!("real-{id}"));
    }
}

#[test]
fn only_what_is_referred_to_has_to_be_noted() {
    let put = BulkOperationRequest {
        method: BulkMethod::Put,
        ..post("unused", "{}")
    };
    let ops = [put, post("user", "{}"), post("group", "\"bulkId:user\"")];
    assert_eq!(order_operations(&ops), Ok(vec![0, 1, 2]));
    let mut resolver = BulkIdResolver::new();
    resolver.record("user", "id-1");
    let data = resolver.substitute(ops[2].data.as_ref().unwrap()).unwrap();
    assert_eq!(plain(&data), "id-1");
}

#[test]
fn every_entry_of_a_patch_body_becomes_an_operation() {
    let body = doc(
        r#"{"Operations": [{"op": "Add", "path": "x", "value": 1}, {"op": "REMOVE", "path": 7}]}"#,
    );
    let ops = parse_patch_operations(&body).unwrap();
    assert_eq!(ops.len(), 2);
    assert_eq!(ops[0], op(PatchOp::Add, "x", Some("1")));
    assert_eq!(
        ops[1],
        PatchOperation {
            op: PatchOp::Remove,
            path: None,
            value: None
        }
    );
}

#[test]
fn redaction_takes_out_secrets_once_and_for_all() {
    let body = doc(
        r#"{"a": [{"PassWord": {"x": 1}}], "Operations": [{"path": "password", "value": "s"}],
            "title": "password"}"#,
    );
    let once = redact_sensitive(&body);
    assert_eq!(
        plain(&once),
        json(
            r#"{"a": [{"PassWord": "[REDACTED]"}],
                "Operations": [{"path": "password", "value": "[REDACTED]"}],
                "title": "password"}"#
        )
    );
    assert_eq!(redact_sensitive(&once), once);
    let harmless = doc(r#"{"userName": "a", "Operations": [{"path": "title", "value": "s"}]}"#);
    assert_eq!(redact_sensitive(&harmless), harmless);
}

#[test]
fn common_attributes_stay_case_exact_whatever_a_schema_says() {
    let mut schema = user_schema();
    for name in ["id", "externalId"] {
        schema
            .attributes
            .push(AttributeDefinition::simple(name, "string", "Folds.", "readWrite"));
    }
    for name in ["id", "ID", "externalid"] {
        assert!(is_case_exact(Some(&schema), None, name, None));
        assert!(is_case_exact(None, None, name, None));
    }
    assert!(is_case_exact(None, None, "meta", Some("resourceType")));
    assert!(is_case_exact(None, Some("META"), "Version", None));
    assert!(!is_case_exact(None, Some("emails"), "value", None));
    assert!(!is_case_exact(None, None, "meta", Some("location")));
}

#[test]
fn the_schemas_leave_no_gap_under_a_protected_attribute() {
    for schema in [user_schema(), enterprise_user_schema(), group_schema()] {
        for attribute in &schema.attributes {
            let own = Mutability::from_rfc_str(&attribute.mutability).unwrap();
            for sub in &attribute.sub_attributes {
                let part = Mutability::from_rfc_str(&sub.mutability).unwrap();
                assert!(at_least_as_strict(part, own), "{}", attribute.name);
            }
        }
    }
}
