use scimforge::filter::{
    parse, parse_patch_path, tokenize, AttrPath, CompValue, CompareOp, Filter, FilterError, Token,
    MAX_DEPTH,
};

fn attr(name: &str) -> AttrPath {
    AttrPath {
        schema_uri: None,
        attr_name: name.to_string(),
        sub_attr: None,
    }
}

#[test]
fn parses_simple_equality() {
    let f = parse(r#"userName eq "bjensen""#).unwrap();
    assert_eq!(
        f,
        Filter::Compare(
            attr("userName"),
            CompareOp::Eq,
            CompValue::String("bjensen".to_string())
        )
    );
}

#[test]
fn parses_presence() {
    let f = parse("title pr").unwrap();
    assert_eq!(f, Filter::Present(attr("title")));
}

#[test]
fn parses_all_nine_compare_operators() {
    let cases = [
        ("eq", CompareOp::Eq),
        ("ne", CompareOp::Ne),
        ("co", CompareOp::Co),
        ("sw", CompareOp::Sw),
        ("ew", CompareOp::Ew),
        ("gt", CompareOp::Gt),
        ("ge", CompareOp::Ge),
        ("lt", CompareOp::Lt),
        ("le", CompareOp::Le),
    ];
    for (op_str, expected_op) in cases {
        let f = parse(&format!(r#"userName {op_str} "x""#)).unwrap();
        match f {
            Filter::Compare(_, op, _) => assert_eq!(op, expected_op, "operator {op_str}"),
            _ => panic!("expected Compare for {op_str}"),
        }
    }
}

#[test]
fn parses_dotted_sub_attribute_path() {
    let f = parse(r#"name.familyName eq "Jensen""#).unwrap();
    let expected_path = AttrPath {
        schema_uri: None,
        attr_name: "name".to_string(),
        sub_attr: Some("familyName".to_string()),
    };
    assert_eq!(
        f,
        Filter::Compare(
            expected_path,
            CompareOp::Eq,
            CompValue::String("Jensen".to_string())
        )
    );
}

#[test]
fn parses_schema_uri_prefixed_path() {
    let f =
        parse(r#"urn:ietf:params:scim:schemas:core:2.0:User:userName eq "bjensen""#).unwrap();
    match f {
        Filter::Compare(path, CompareOp::Eq, _) => {
            assert_eq!(
                path.schema_uri.as_deref(),
                Some("urn:ietf:params:scim:schemas:core:2.0:User")
            );
            assert_eq!(path.attr_name, "userName");
        }
        other => panic!("unexpected: {other:?}"),
    }
}

#[test]
fn parses_and_or_not_precedence() {
    let f = parse("a pr or b pr and c pr").unwrap();
    assert_eq!(
        f,
        Filter::Or(
            Box::new(Filter::Present(attr("a"))),
            Box::new(Filter::And(
                Box::new(Filter::Present(attr("b"))),
                Box::new(Filter::Present(attr("c")))
            ))
        )
    );
}

#[test]
fn explicit_grouping_overrides_precedence() {
    let f = parse("(a pr or b pr) and c pr").unwrap();
    assert_eq!(
        f,
        Filter::And(
            Box::new(Filter::Or(
                Box::new(Filter::Present(attr("a"))),
                Box::new(Filter::Present(attr("b")))
            )),
            Box::new(Filter::Present(attr("c")))
        )
    );
}

#[test]
fn parses_not_group() {
    let f = parse("not (active eq true)").unwrap();
    assert_eq!(
        f,
        Filter::Not(Box::new(Filter::Compare(
            attr("active"),
            CompareOp::Eq,
            CompValue::True
        )))
    );
}

#[test]
fn parses_value_path_bracket_filter() {
    let f = parse(r#"emails[type eq "work"]"#).unwrap();
    assert_eq!(
        f,
        Filter::ValuePath(
            attr("emails"),
            Box::new(Filter::Compare(
                attr("type"),
                CompareOp::Eq,
                CompValue::String("work".to_string())
            ))
        )
    );
}

#[test]
fn parses_value_path_with_logical_filter_inside() {
    let f = parse(r#"emails[type eq "work" and value co "@example.com"]"#).unwrap();
    assert_eq!(
        f,
        Filter::ValuePath(
            attr("emails"),
            Box::new(Filter::And(
                Box::new(Filter::Compare(
                    attr("type"),
                    CompareOp::Eq,
                    CompValue::String("work".to_string())
                )),
                Box::new(Filter::Compare(
                    attr("value"),
                    CompareOp::Co,
                    CompValue::String("@example.com".to_string())
                ))
            ))
        )
    );
}

#[test]
fn parses_null_false_and_number_literals() {
    assert_eq!(
        parse("x eq null").unwrap(),
        Filter::Compare(attr("x"), CompareOp::Eq, CompValue::Null)
    );
    assert_eq!(
        parse("x eq false").unwrap(),
        Filter::Compare(attr("x"), CompareOp::Eq, CompValue::False)
    );
    assert_eq!(
        parse("x gt 42").unwrap(),
        Filter::Compare(
            attr("x"),
            CompareOp::Gt,
            CompValue::Number((42.0f64).to_bits(), "42".to_string())
        )
    );
    assert_eq!(
        parse("x lt -3.5").unwrap(),
        Filter::Compare(
            attr("x"),
            CompareOp::Lt,
            CompValue::Number((-3.5f64).to_bits(), "-3.5".to_string())
        )
    );
}

#[test]
fn parses_string_with_escaped_quote() {
    let f = parse(r#"displayName eq "Bob \"Bobby\" Jones""#).unwrap();
    assert_eq!(
        f,
        Filter::Compare(
            attr("displayName"),
            CompareOp::Eq,
            CompValue::String("Bob \"Bobby\" Jones".to_string())
        )
    );
}

#[test]
fn rejects_unterminated_string() {
    assert_eq!(
        parse(r#"userName eq "bjensen"#),
        Err(FilterError::UnterminatedString)
    );
}

#[test]
fn rejects_empty_input() {
    assert!(parse("").is_err());
}

#[test]
fn rejects_trailing_garbage_after_a_complete_filter() {
    assert!(parse("active eq true )").is_err());
}

#[test]
fn rejects_dangling_logical_operator() {
    assert!(parse("active eq true and").is_err());
}

#[test]
fn rejects_unmatched_open_paren() {
    assert!(parse("(active eq true").is_err());
}

#[test]
fn rejects_unmatched_close_bracket() {
    assert!(parse(r#"emails[type eq "work""#).is_err());
}

#[test]
fn rejects_compare_op_missing_value() {
    assert!(parse("userName eq").is_err());
}

#[test]
fn rejects_object_or_array_as_a_comp_value() {
    assert!(parse(r#"userName eq {"a":1}"#).is_err());
}

fn nested_paren_expr(depth: usize) -> String {
    let mut expr = String::new();
    for _ in 0..depth {
        expr.push('(');
    }
    expr.push_str("active eq true");
    for _ in 0..depth {
        expr.push(')');
    }
    expr
}

#[test]
fn accepts_filter_nested_exactly_at_max_depth() {
    assert!(parse(&nested_paren_expr(MAX_DEPTH)).is_ok());
}

#[test]
fn rejects_filter_nested_exactly_one_past_max_depth() {
    assert_eq!(
        parse(&nested_paren_expr(MAX_DEPTH + 1)),
        Err(FilterError::TooDeep)
    );
}

fn nested_not_group_value_path_expr(depth: usize) -> String {
    let mut expr = String::from("emails[");
    for _ in 0..depth {
        expr.push_str("not (");
    }
    expr.push_str("type pr");
    for _ in 0..depth {
        expr.push(')');
    }
    expr.push(']');
    expr
}

#[test]
fn accepts_value_path_nested_exactly_at_max_depth() {
    assert!(parse(&nested_not_group_value_path_expr(MAX_DEPTH - 1)).is_ok());
}

#[test]
fn rejects_value_path_nested_one_past_max_depth_via_not_groups() {
    assert_eq!(
        parse(&nested_not_group_value_path_expr(MAX_DEPTH)),
        Err(FilterError::TooDeep)
    );
}

fn flat_and_chain_expr(links: usize) -> String {
    std::iter::repeat_n("active pr", links + 1)
        .collect::<Vec<_>>()
        .join(" and ")
}

fn flat_or_chain_expr(links: usize) -> String {
    std::iter::repeat_n("active pr", links + 1)
        .collect::<Vec<_>>()
        .join(" or ")
}

#[test]
fn accepts_flat_and_chain_exactly_at_max_depth() {
    assert!(parse(&flat_and_chain_expr(MAX_DEPTH)).is_ok());
}

#[test]
fn rejects_flat_and_chain_one_past_max_depth() {
    assert_eq!(
        parse(&flat_and_chain_expr(MAX_DEPTH + 1)),
        Err(FilterError::TooDeep)
    );
}

#[test]
fn accepts_flat_or_chain_exactly_at_max_depth() {
    assert!(parse(&flat_or_chain_expr(MAX_DEPTH)).is_ok());
}

#[test]
fn rejects_flat_or_chain_one_past_max_depth() {
    assert_eq!(
        parse(&flat_or_chain_expr(MAX_DEPTH + 1)),
        Err(FilterError::TooDeep)
    );
}

#[test]
fn rejects_an_or_link_appended_onto_an_already_max_depth_and_chain() {
    let expr = format!("{} or active pr", flat_and_chain_expr(MAX_DEPTH));
    assert_eq!(parse(&expr), Err(FilterError::TooDeep));
}

#[test]
fn accepts_an_or_link_appended_onto_an_and_chain_one_short_of_max_depth() {
    let expr = format!("{} or active pr", flat_and_chain_expr(MAX_DEPTH - 1));
    assert!(parse(&expr).is_ok());
}

#[test]
fn rejects_binary_or_boolean_compare_value_type_confusion_gracefully() {
    assert!(parse(r#"active pr "unexpected""#).is_err());
}

#[test]
fn patch_path_parses_a_bare_attr_path() {
    let p = parse_patch_path("displayName").unwrap();
    assert_eq!(p.attr_path, attr("displayName"));
    assert_eq!(p.value_filter, None);
    assert_eq!(p.sub_attr_after_filter, None);
}

#[test]
fn patch_path_parses_a_dotted_sub_attribute_with_no_brackets() {
    let p = parse_patch_path("name.familyName").unwrap();
    assert_eq!(p.attr_path.attr_name, "name");
    assert_eq!(p.attr_path.sub_attr.as_deref(), Some("familyName"));
    assert_eq!(p.value_filter, None);
}

#[test]
fn patch_path_parses_a_bracket_filter_with_no_trailing_sub_attr() {
    let p = parse_patch_path(r#"emails[type eq "work"]"#).unwrap();
    assert_eq!(p.attr_path, attr("emails"));
    assert_eq!(
        p.value_filter,
        Some(Filter::Compare(
            attr("type"),
            CompareOp::Eq,
            CompValue::String("work".to_string())
        ))
    );
    assert_eq!(p.sub_attr_after_filter, None);
}

#[test]
fn patch_path_parses_a_bracket_filter_with_trailing_sub_attr() {
    let p = parse_patch_path(r#"addresses[type eq "work"].streetAddress"#).unwrap();
    assert_eq!(p.attr_path, attr("addresses"));
    assert_eq!(p.sub_attr_after_filter.as_deref(), Some("streetAddress"));
}

#[test]
fn patch_path_rejects_trailing_garbage() {
    assert!(parse_patch_path(r#"emails[type eq "work"] extra"#).is_err());
}

#[test]
fn patch_path_rejects_dotted_sub_attribute_before_bracket_filter() {
    assert_eq!(
        parse_patch_path(r#"members.display[value eq "u-2"]"#),
        Err(FilterError::UnexpectedToken(format!(
            "{:?}",
            Token::LBracket
        )))
    );
}

#[test]
fn patch_path_rejects_dotted_sub_attribute_before_bracket_filter_with_trailing_sub_attr() {
    assert!(parse_patch_path(r#"members.display[value eq "u-2"].value"#).is_err());
}

#[test]
fn patch_path_bracket_filter_is_still_depth_bounded() {
    let mut expr = String::from("emails[");
    for _ in 0..(MAX_DEPTH + 5) {
        expr.push_str("not (");
    }
    expr.push_str("type pr");
    for _ in 0..(MAX_DEPTH + 5) {
        expr.push(')');
    }
    expr.push(']');
    assert_eq!(parse_patch_path(&expr), Err(FilterError::TooDeep));
}

#[test]
fn tokenizer_makes_progress_on_a_bare_dollar_sign_in_a_patch_path() {
    let result = parse_patch_path("$");
    assert!(result.is_ok(), "a lone '$' tokenizes as a single ident: {result:?}");
}

#[test]
fn tokenizer_makes_progress_on_a_bare_dollar_sign_in_a_filter() {
    let result = parse("$");
    assert!(result.is_err(), "a bare '$' is not a valid filter");
}

#[test]
fn tokenizer_handles_dollar_ref_as_a_single_identifier() {
    let tokens = tokenize("$ref").unwrap();
    assert_eq!(tokens, vec![Token::Ident("$ref".to_string())]);
}

#[test]
fn case_insensitive_keywords_are_accepted_per_grammar() {
    let f = parse(r#"userName EQ "bjensen" AND active PR"#).unwrap();
    assert_eq!(
        f,
        Filter::And(
            Box::new(Filter::Compare(
                attr("userName"),
                CompareOp::Eq,
                CompValue::String("bjensen".to_string())
            )),
            Box::new(Filter::Present(attr("active")))
        )
    );
}
