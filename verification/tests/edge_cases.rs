use scimforge::bulk::{
    check_limits, order_operations, BulkError, BulkMethod, BulkOperationRequest, BulkRequest,
    BulkResponse, BulkStatus, BulkStatusError, BULK_RESPONSE_SCHEMA_URI,
};
use scimforge::discovery::{check_schema, check_sub_attributes, AttributeDefinition};
use scimforge::error::{ScimError, ScimType, ERROR_SCHEMA_URI};
use scimforge::filter::{
    number_token, parse, parse_patch_path, tokenize, CompValue, CompareOp, Filter, FilterError,
    Token,
};
use scimforge::json::{Members, Number, Value as Doc};
use scimforge::list_response::{ListResponse, LIST_RESPONSE_SCHEMA_URI};
use scimforge::matching::{compare, compare_doubles, evaluate};
use scimforge::patch::{
    apply_patch, apply_patch_with_schema, coerce_to_attribute_type, type_text, PatchError, PatchOp,
    PatchOperation,
};
use scimforge::user::user_schema;
use serde_json::Value;

/// The library's form of a JSON value.
fn lib(value: &Value) -> Doc {
    match value {
        Value::Null => Doc::Null,
        Value::Bool(b) => Doc::Bool(*b),
        Value::Number(n) => Doc::Number(if let Some(u) = n.as_u64() {
            Number::PosInt(u)
        } else if let Some(i) = n.as_i64() {
            Number::NegInt(i)
        } else {
            Number::Float(n.as_f64().unwrap().to_bits())
        }),
        Value::String(s) => Doc::String(s.clone()),
        Value::Array(items) => Doc::Array(items.iter().map(lib).collect()),
        Value::Object(map) => {
            let mut members = Members::new();
            for (name, item) in map {
                members.insert(name.clone(), lib(item));
            }
            Doc::Object(members)
        }
    }
}

/// A JSON value of the library in the form that tests index into.
fn plain(doc: &Doc) -> Value {
    match doc {
        Doc::Null => Value::Null,
        Doc::Bool(b) => Value::Bool(*b),
        Doc::Number(Number::PosInt(u)) => Value::from(*u),
        Doc::Number(Number::NegInt(i)) => Value::from(*i),
        Doc::Number(Number::Float(bits)) => Value::from(f64::from_bits(*bits)),
        Doc::String(s) => Value::String(s.clone()),
        Doc::Array(items) => Value::Array(items.iter().map(plain).collect()),
        Doc::Object(members) => {
            let mut map = serde_json::Map::new();
            for i in 0..members.len() {
                map.insert(members.name_at(i).to_string(), plain(members.value_at(i)));
            }
            Value::Object(map)
        }
    }
}

fn json(text: &str) -> Value {
    serde_json::from_str(text).unwrap()
}

fn doc(text: &str) -> Doc {
    lib(&json(text))
}

fn op(op: PatchOp, path: Option<&str>, value: Option<&str>) -> PatchOperation {
    PatchOperation {
        op,
        path: path.map(str::to_string),
        value: value.map(doc),
    }
}

fn refused(input: &str) -> FilterError {
    parse(input).unwrap_err()
}

fn unexpected(token: &str) -> FilterError {
    FilterError::UnexpectedToken(token.to_string())
}

#[test]
fn unexpected_tokens_are_named() {
    assert_eq!(refused("1.50 eq 2"), unexpected(r#"Some(Number(1.5, "1.50"))"#));
    assert_eq!(refused("a pr 7e2"), unexpected(r#"Number(700.0, "7e2")"#));
    assert_eq!(refused("a pr -1e999"), unexpected(r#"Number(-inf, "-1e999")"#));
    assert_eq!(refused(r#"a pr "q\"\n""#), unexpected(r#"String("q\"\n")"#));
    assert_eq!(refused("a pr b"), unexpected(r#"Ident("b")"#));
    assert_eq!(refused("a pr eq"), unexpected("CompareOp(Eq)"));
    assert_eq!(refused("a"), unexpected("None"));
    assert_eq!(refused("a eq"), unexpected("None"));
    assert_eq!(refused("a. pr"), unexpected("Some(Pr)"));
    assert_eq!(refused("(a pr]"), unexpected("RBracket"));
    assert_eq!(refused("a ! b"), unexpected("!"));
    assert_eq!(refused("a: pr"), unexpected("Some(Pr)"));
    assert_eq!(
        parse_patch_path("a[b pr].").unwrap_err(),
        unexpected("None")
    );
}

#[test]
fn other_errors_are_told_apart() {
    assert_eq!(refused("(a pr"), FilterError::UnexpectedEnd);
    assert_eq!(refused("a eq 1e"), FilterError::InvalidNumber("1e".to_string()));
    assert_eq!(refused("a eq -2.5E+"), FilterError::InvalidNumber("-2.5E+".to_string()));
    assert_eq!(refused("a eq \"x\\\""), FilterError::UnterminatedString);
    let deep = format!("{}a pr{}", "(".repeat(200), ")".repeat(200));
    assert_eq!(refused(&deep), FilterError::TooDeep);
}

#[test]
fn errors_and_paths_have_texts() {
    let text = |e: FilterError| e.to_string();
    assert_eq!(text(FilterError::TooDeep), "filter nesting exceeds the maximum depth");
    assert_eq!(text(FilterError::UnexpectedEnd), "unexpected end of filter expression");
    assert_eq!(text(unexpected("Dot")), "unexpected token: Dot");
    assert_eq!(
        text(FilterError::InvalidNumber("1e".to_string())),
        "invalid number literal: 1e"
    );
    assert_eq!(text(FilterError::UnterminatedString), "unterminated string literal");
    let path = parse_patch_path("urn:x:2.0:User:name.givenName").unwrap().attr_path;
    assert_eq!(path.to_string(), "urn:x:2.0:User:name.givenName");
    assert_eq!(path.schema_uri.as_deref(), Some("urn:x:2.0:User"));
    assert_eq!(parse_patch_path("title").unwrap().attr_path.to_string(), "title");
}

#[test]
fn number_literals_have_the_nearest_double() {
    let bits = |input: &str| match parse(input).unwrap() {
        Filter::Compare(_, _, CompValue::Number(bits, literal)) => (bits, literal),
        other => panic!("unexpected: {other:?}"),
    };
    assert_eq!(bits("a eq -0.1"), ((-0.1f64).to_bits(), "-0.1".to_string()));
    assert_eq!(bits("a eq 1."), (1f64.to_bits(), "1.".to_string()));
    assert_eq!(bits("a eq 1e999"), (f64::INFINITY.to_bits(), "1e999".to_string()));
    assert_eq!(
        bits("a eq -1e999"),
        (f64::NEG_INFINITY.to_bits(), "-1e999".to_string())
    );
    assert_eq!(
        number_token(None, "-9".to_string()),
        Token::Number(f64::NEG_INFINITY.to_bits(), "-9".to_string())
    );
}

#[test]
fn number_values_are_equal_as_doubles() {
    let value = |d: f64, literal: &str| CompValue::Number(d.to_bits(), literal.to_string());
    let token = |d: f64, literal: &str| Token::Number(d.to_bits(), literal.to_string());
    assert_eq!(value(0.0, "0"), value(-0.0, "0"));
    assert_eq!(token(0.0, "0"), token(-0.0, "0"));
    assert_ne!(value(f64::NAN, "x"), value(f64::NAN, "x"));
    assert_ne!(token(f64::NAN, "x"), token(f64::NAN, "x"));
    assert_ne!(value(1.0, "1"), value(1.0, "1.0"));
    assert_ne!(token(1.0, "1"), token(2.0, "1"));
    assert_ne!(value(1.0, "1"), CompValue::String("1".to_string()));
    assert_eq!(parse("a eq 1.5"), parse("a  eq 1.5"));
    assert_ne!(parse("a eq 1.5"), parse("a eq 1.50"));
    assert_ne!(Token::CompareOp(CompareOp::Eq), Token::CompareOp(CompareOp::Ne));
    assert_ne!(Token::Ident("a".to_string()), Token::String("a".to_string()));
}

#[test]
fn words_and_punctuation_are_tokens() {
    assert_eq!(
        tokenize("A.b[Not(x)]:\ttrue").unwrap(),
        vec![
            Token::Ident("A".to_string()),
            Token::Dot,
            Token::Ident("b".to_string()),
            Token::LBracket,
            Token::Not,
            Token::LParen,
            Token::Ident("x".to_string()),
            Token::RParen,
            Token::RBracket,
            Token::Colon,
            Token::True,
        ]
    );
    assert_eq!(
        tokenize(r#""a\/b\q""#).unwrap(),
        vec![Token::String("a/b\\q".to_string())]
    );
}

#[test]
fn text_comparisons_fold_unicode_case_unless_exact() {
    let holds = |a: &str, op: CompareOp, b: &str, exact: bool| {
        compare(
            &Doc::String(a.to_string()),
            &op,
            &CompValue::String(b.to_string()),
            exact,
        )
    };
    assert!(holds("\u{c9}cole", CompareOp::Eq, "\u{e9}COLE", false));
    assert!(!holds("\u{c9}cole", CompareOp::Eq, "\u{e9}COLE", true));
    assert!(holds("STRASSE", CompareOp::Ew, "asse", false));
    assert!(!holds("STRASSE", CompareOp::Co, "asse", true));
    assert!(holds("STRASSE", CompareOp::Sw, "str", false));
    assert!(holds("b", CompareOp::Gt, "A", false));
    assert!(holds("B", CompareOp::Lt, "a", true));
    assert!(holds("a", CompareOp::Ne, "b", false));
    assert!(holds("a", CompareOp::Le, "A", false));
    assert!(holds("a", CompareOp::Ge, "", true));
}

#[test]
fn numbers_compare_as_doubles() {
    let holds = |n: Number, op: CompareOp, b: f64| {
        compare(
            &Doc::Number(n),
            &op,
            &CompValue::Number(b.to_bits(), String::new()),
            false,
        )
    };
    // The nearest double to this integer is its neighbour.
    assert!(holds(Number::PosInt(9007199254740993), CompareOp::Eq, 9007199254740992.0));
    assert!(holds(Number::PosInt(u64::MAX), CompareOp::Eq, 18446744073709551616.0));
    assert!(holds(Number::NegInt(i64::MIN), CompareOp::Eq, -9223372036854775808.0));
    assert!(holds(Number::NegInt(-2), CompareOp::Lt, -1.5));
    assert!(holds(Number::Float(0f64.to_bits()), CompareOp::Eq, -0.0));
    assert!(holds(Number::PosInt(3), CompareOp::Le, 3.0));
    assert!(holds(Number::PosInt(3), CompareOp::Ge, f64::NEG_INFINITY));
    assert!(!holds(Number::PosInt(3), CompareOp::Gt, f64::INFINITY));
    for text_op in [CompareOp::Co, CompareOp::Sw, CompareOp::Ew] {
        assert!(!holds(Number::PosInt(3), text_op, 3.0));
    }
    let nan = f64::NAN.to_bits();
    assert!(!compare_doubles(nan, CompareOp::Eq, nan));
    assert!(compare_doubles(nan, CompareOp::Ne, nan));
    assert!(!compare_doubles(nan, CompareOp::Le, 1f64.to_bits()));
}

#[test]
fn values_of_different_types_never_compare() {
    let text = CompValue::String("1".to_string());
    for op in [CompareOp::Eq, CompareOp::Ne] {
        assert!(!compare(&Doc::Number(Number::PosInt(1)), &op, &text, false));
        assert!(!compare(&Doc::Bool(true), &op, &CompValue::Null, false));
        assert!(!compare(&Doc::Array(vec![]), &op, &CompValue::Null, false));
    }
    assert!(compare(&Doc::Bool(false), &CompareOp::Eq, &CompValue::False, false));
    assert!(!compare(&Doc::Bool(false), &CompareOp::Ne, &CompValue::True, false));
    assert!(compare(&Doc::Null, &CompareOp::Eq, &CompValue::Null, false));
}

#[test]
fn filters_choose_entries() {
    let entry = doc(r#"{"type": "work", "empty": "", "none": [], "nil": null, "n": {"x": 1}}"#);
    let matches = |filter: &str| evaluate(&parse(filter).unwrap(), &entry, "emails", None);
    assert!(matches("type pr and n.x eq 1"));
    assert!(!matches("empty pr or none pr or nil pr or missing pr"));
    assert!(matches("not (missing pr)"));
    assert!(!matches("type[x pr]"));
    assert!(!matches("missing ne 1"));
    assert!(matches("nil eq null"));
}

#[test]
fn ambiguous_targets_say_what_is_wrong() {
    let ambiguous = |text: &str| Err(PatchError::AmbiguousPath(text.to_string()));
    let user = doc(r#"{"title": "x"}"#);
    assert_eq!(
        apply_patch(&user, &[op(PatchOp::Add, None, Some("7"))]),
        ambiguous("no-path add/replace requires an object value")
    );
    for path in [None, Some("title")] {
        assert_eq!(
            apply_patch(&doc("[]"), &[op(PatchOp::Replace, path, Some("{}"))]),
            ambiguous("resource root is not a JSON object")
        );
    }
    for kind in [PatchOp::Add, PatchOp::Replace, PatchOp::Remove] {
        assert_eq!(
            apply_patch(&user, &[op(kind, Some("title.x"), Some("1"))]),
            ambiguous("'title' is not a complex attribute")
        );
    }
    // An entry that is no object has no sub-attribute either.
    let mixed = doc(r#"{"emails": [{"value": "a"}, "text"]}"#);
    for kind in [PatchOp::Add, PatchOp::Replace, PatchOp::Remove] {
        assert_eq!(
            apply_patch(&mixed, &[op(kind, Some("emails[not (type pr)].value"), Some("1"))]),
            ambiguous("'emails' is not a complex attribute")
        );
        assert!(
            apply_patch(&mixed, &[op(kind, Some("emails[value pr].value"), Some("1"))]).is_ok()
        );
    }
    for kind in [PatchOp::Add, PatchOp::Replace, PatchOp::Remove] {
        assert_eq!(
            apply_patch(&user, &[op(kind, Some("title[x pr]"), Some("1"))]),
            ambiguous("'title' is not a multi-valued attribute this resource has")
        );
    }
}

#[test]
fn removals_touch_what_the_path_names() {
    let user = doc(
        r#"{"name": {"givenName": "a", "familyName": "b"},
            "emails": [{"type": "work", "value": "v"}, {"type": "home"}], "title": "t"}"#,
    );
    let after = |path: &str| {
        apply_patch(&user, &[op(PatchOp::Remove, Some(path), None)]).map(|d| plain(&d))
    };
    assert_eq!(after("name.givenName").unwrap()["name"], json(r#"{"familyName": "b"}"#));
    assert_eq!(after("missing.x").unwrap(), plain(&user));
    assert_eq!(after("name.missing").unwrap(), plain(&user));
    assert_eq!(after("missing").unwrap(), plain(&user));
    assert_eq!(
        after("emails[type eq \"WORK\"].value").unwrap()["emails"],
        json(r#"[{"type": "work"}, {"type": "home"}]"#)
    );
    assert_eq!(
        after("emails[type eq \"other\"].value"),
        Err(PatchError::NoMatchingValue)
    );
}

#[test]
fn a_one_element_array_stands_for_its_element_on_a_single_valued_attribute() {
    let user = doc(r#"{"active": true}"#);
    let after = |value: &str| {
        let replace = op(PatchOp::Replace, Some("active"), Some(value));
        plain(&apply_patch_with_schema(&user, &[replace], &user_schema()).unwrap())["active"]
            .clone()
    };
    assert_eq!(after("[false]"), json("false"));
    assert_eq!(after("[\"false\"]"), json("false"));
    assert_eq!(after("[[false]]"), json("[false]"));
    assert_eq!(after("[false, true]"), json("[false, true]"));
    assert_eq!(after("[]"), json("[]"));
    let roles = op(PatchOp::Replace, Some("roles"), Some("[\"a\"]"));
    assert_eq!(
        plain(&apply_patch_with_schema(&user, &[roles], &user_schema()).unwrap())["roles"],
        json("[\"a\"]")
    );
    // Without a schema nothing is known of the attribute.
    let plainly = op(PatchOp::Replace, Some("active"), Some("[false]"));
    assert_eq!(
        plain(&apply_patch(&user, &[plainly]).unwrap())["active"],
        json("[false]")
    );
}

#[test]
fn only_canonical_texts_become_numbers() {
    let typed = |type_: &str, text: &str| {
        let def = AttributeDefinition::simple("x", type_, "A number.", "readWrite");
        plain(&coerce_to_attribute_type(Doc::String(text.to_string()), &def))
    };
    assert_eq!(typed("integer", "-7"), json("-7"));
    assert_eq!(typed("decimal", "2.5"), json("2.5"));
    assert_eq!(typed("decimal", "-0.5e1"), json("-5.0"));
    assert_eq!(typed("decimal", "2"), json("2.0"));
    for near_miss in ["02.5", "+2.5", ".5", "2.", " 2.5", "1e", "1e400", "NaN", "-", "", "0x1"] {
        assert_eq!(typed("decimal", near_miss), near_miss);
    }
    for near_miss in ["007", "+7", "-0", "7.0", "", "-", "9223372036854775808"] {
        assert_eq!(typed("integer", near_miss), near_miss);
    }
    assert_eq!(typed("string", "true"), "true");
    assert_eq!(
        plain(&type_text("2.5".to_string(), "decimal", Some(9f64.to_bits()))),
        json("9.0")
    );
    assert_eq!(plain(&type_text("2.5".to_string(), "decimal", None)), "2.5");
}

#[test]
fn an_immutable_part_of_an_immutable_attribute_is_judged_by_its_own_value() {
    let mut schema = user_schema();
    schema.attributes.push(AttributeDefinition {
        multi_valued: true,
        sub_attributes: vec![
            AttributeDefinition::simple("value", "string", "The key.", "immutable"),
            AttributeDefinition::simple("label", "string", "The label.", "immutable"),
            AttributeDefinition::simple("note", "string", "A note.", "readWrite"),
        ],
        ..AttributeDefinition::simple("tags", "complex", "Tags.", "immutable")
    });
    let user = doc(r#"{"tags": [{"value": "a"}, {"value": "b", "label": "l"}]}"#);
    let add = |path: &str| {
        let operation = op(PatchOp::Add, Some(path), Some("\"x\""));
        apply_patch_with_schema(&user, &[operation], &schema)
    };
    assert_eq!(
        plain(&add("tags[value eq \"a\"].label").unwrap())["tags"][0]["label"],
        "x"
    );
    let locked = Err(PatchError::ImmutableOrReadOnly("tags".to_string()));
    assert_eq!(add("tags[value eq \"b\"].label"), locked);
    // A looser part is held to the whole attribute.
    assert_eq!(add("tags[value eq \"a\"].note"), locked);
}

#[test]
fn refusals_carry_their_keyword_and_status() {
    let errors = [
        (PatchError::NoTarget, "noTarget"),
        (PatchError::Protected("id".to_string()), "mutability"),
        (PatchError::InvalidPath(FilterError::UnexpectedEnd), "invalidPath"),
        (PatchError::NoMatchingValue, "noTarget"),
        (PatchError::AmbiguousPath("x".to_string()), "invalidPath"),
        (PatchError::SchemaQualifiedPath("x".to_string()), "invalidPath"),
        (PatchError::ImmutableOrReadOnly("x".to_string()), "mutability"),
        (
            PatchError::InvalidSchemaMutability {
                attr_name: "x".to_string(),
                mutability: "y".to_string(),
            },
            "invalidValue",
        ),
    ];
    for (error, keyword) in errors {
        assert_eq!(error.scim_type().as_str(), keyword);
        assert_eq!(error.http_status(), 400);
    }
    let rest = [
        (ScimType::InvalidFilter, "invalidFilter"),
        (ScimType::TooMany, "tooMany"),
        (ScimType::Uniqueness, "uniqueness"),
        (ScimType::InvalidSyntax, "invalidSyntax"),
        (ScimType::InvalidVers, "invalidVers"),
        (ScimType::Sensitive, "sensitive"),
    ];
    for (kind, keyword) in rest {
        assert_eq!(kind.as_str(), keyword);
    }
    let error = ScimError::new(404, Some(ScimType::NoTarget), "gone");
    assert_eq!(error.status, "404");
    assert_eq!(error.detail.as_deref(), Some("gone"));
    assert_eq!(error.schemas, vec![ERROR_SCHEMA_URI.to_string()]);
}

#[test]
fn limits_of_bulk_requests_are_named() {
    let operation = BulkOperationRequest {
        method: BulkMethod::Delete,
        bulk_id: None,
        version: None,
        path: "/Users/1".to_string(),
        data: None,
    };
    let request = BulkRequest {
        schemas: vec![],
        fail_on_errors: None,
        operations: vec![operation.clone(), operation.clone(), operation],
    };
    assert_eq!(
        check_limits(&request, 2, 10, 11),
        Err(BulkError::TooLarge(
            "request has 3 operations, exceeding the maximum of 2".to_string()
        ))
    );
    assert_eq!(
        check_limits(&request, 3, 10, 11),
        Err(BulkError::TooLarge(
            "request payload is 11 bytes, exceeding the maximum of 10".to_string()
        ))
    );
    assert_eq!(check_limits(&request, 3, 11, 11), Ok(()));
    assert_eq!(order_operations(&request.operations), Ok(vec![0, 1, 2]));
}

#[test]
fn bulk_errors_name_the_first_offender() {
    let post = |bulk_id: Option<&str>, data: &str| BulkOperationRequest {
        method: BulkMethod::Post,
        bulk_id: bulk_id.map(str::to_string),
        version: None,
        path: "/Users".to_string(),
        data: Some(doc(data)),
    };
    assert_eq!(
        order_operations(&[post(Some("a"), "{}"), post(None, "{}")]),
        Err(BulkError::MissingBulkIdOnPost(1))
    );
    assert_eq!(
        order_operations(&[post(Some("a"), "\"bulkId:z\""), post(Some("a"), "{}")]),
        Err(BulkError::DuplicateBulkId("a".to_string()))
    );
    assert_eq!(
        order_operations(&[post(Some("a"), "[[\"bulkId:z\"]]")]),
        Err(BulkError::UnresolvedBulkId("z".to_string()))
    );
    assert_eq!(
        order_operations(&[post(Some("a"), "\"bulkId:b\""), post(Some("b"), "\"bulkId:a\"")]),
        Err(BulkError::CircularReference)
    );
}

#[test]
fn a_bulk_id_is_unique_whatever_the_method() {
    let operation = |method: BulkMethod, bulk_id: &str, data: Option<&str>| BulkOperationRequest {
        method,
        bulk_id: Some(bulk_id.to_string()),
        version: None,
        path: "/Users/1".to_string(),
        data: data.map(doc),
    };
    let duplicate = Err(BulkError::DuplicateBulkId("q".to_string()));
    let put = operation(BulkMethod::Put, "q", None);
    assert_eq!(order_operations(&[put.clone(), put.clone()]), duplicate);
    assert_eq!(
        order_operations(&[operation(BulkMethod::Post, "q", None), put.clone()]),
        duplicate
    );
    assert_eq!(
        order_operations(&[put.clone(), operation(BulkMethod::Delete, "r", None)]),
        Ok(vec![0, 1])
    );
    // A reference can be to any operation's own identifier.
    assert_eq!(
        order_operations(&[operation(BulkMethod::Patch, "r", Some("\"bulkId:q\"")), put]),
        Ok(vec![1, 0])
    );
}

#[test]
fn a_bulk_status_is_a_text_or_an_object_with_a_code() {
    assert_eq!(
        BulkStatus::from_value(&doc(r#"{"code": "200", "description": "fine"}"#)),
        Ok(BulkStatus {
            code: "200".to_string(),
            description: Some("fine".to_string())
        })
    );
    assert_eq!(BulkStatus::from_value(&doc("\"200\"")), Ok(BulkStatus::code("200")));
    for missing in ["{}", r#"{"code": 200}"#, r#"{"Code": "200"}"#] {
        assert_eq!(
            BulkStatus::from_value(&doc(missing)),
            Err(BulkStatusError::MissingCode)
        );
    }
    for other in ["200", "null", "[]", "true"] {
        assert_eq!(
            BulkStatus::from_value(&doc(other)),
            Err(BulkStatusError::NotStringOrObject)
        );
    }
    let response = BulkResponse::new(vec![]);
    assert_eq!(response.schemas, vec![BULK_RESPONSE_SCHEMA_URI.to_string()]);
    assert!(response.operations.is_empty());
}

#[test]
fn deep_attribute_definitions_are_refused_with_a_reason() {
    let mut deep = doc("{\"name\": \"x\", \"subAttributes\": []}");
    for _ in 0..32 {
        let mut members = Members::new();
        members.insert("subAttributes".to_string(), Doc::Array(vec![deep]));
        deep = Doc::Object(members);
    }
    let reason = "subAttributes nesting exceeds the maximum depth of 32".to_string();
    assert_eq!(check_sub_attributes(&deep), Err(reason.clone()));
    let mut schema = Members::new();
    schema.insert("attributes".to_string(), Doc::Array(vec![deep]));
    assert_eq!(check_schema(&Doc::Object(schema)), Err(reason));
    assert_eq!(check_schema(&doc("{}")), Ok(()));
}

#[test]
fn lists_and_documents_are_plain() {
    let list = ListResponse::new(vec!["a", "b"], 9, 3);
    assert_eq!((list.total_results, list.items_per_page, list.start_index), (9, 2, 3));
    assert_eq!(list.schemas, vec![LIST_RESPONSE_SCHEMA_URI.to_string()]);

    let mut members = Members::new();
    assert!(members.is_empty());
    members.insert("b".to_string(), Doc::Bool(true));
    members.insert("a".to_string(), Doc::Null);
    members.insert("b".to_string(), Doc::Bool(false));
    assert_eq!(members.len(), 2);
    assert_eq!((members.name_at(0), members.name_at(1)), ("a", "b"));
    assert_eq!(members.get("b"), Some(&Doc::Bool(false)));
    assert_eq!(members.remove("a"), Some(Doc::Null));
    assert_eq!(members.remove("a"), None);
    // Integers equal integers, doubles equal doubles, and neither equals the other.
    assert_eq!(doc("1"), doc("1"));
    assert_ne!(doc("1"), doc("1.0"));
    assert_eq!(doc("[0.0]"), doc("[-0.0]"));
}
