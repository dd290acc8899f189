use breach::{
    Attr, DataNode, DeclarationError, Declarations, ErrorValue, FieldNode, FieldsNode, HttpError,
    MetaItem, MetaValue, TypeNode, VariantNode,
};

fn http_attr(items: Vec<MetaItem>) -> Attr {
    Attr { name: "http".to_string(), items }
}

fn status_item(name: &str) -> MetaItem {
    MetaItem { key: "status".to_string(), value: Some(MetaValue::Ident(name.to_string())) }
}

fn struct_node(name: &str, status: &str) -> TypeNode {
    TypeNode {
        name: name.to_string(),
        attrs: vec![http_attr(vec![status_item(status)])],
        data: DataNode::Struct,
    }
}

fn delegating(name: &str, target: &str) -> VariantNode {
    VariantNode {
        name: name.to_string(),
        fields: FieldsNode::Unnamed(vec![FieldNode { ty_name: target.to_string(), excluded: false }]),
        attrs: vec![],
    }
}

fn terminal_unit(name: &str, status: &str) -> VariantNode {
    VariantNode {
        name: name.to_string(),
        fields: FieldsNode::Unit,
        attrs: vec![http_attr(vec![status_item(status)])],
    }
}

fn enum_node(name: &str, variants: Vec<VariantNode>) -> TypeNode {
    TypeNode { name: name.to_string(), attrs: vec![], data: DataNode::Enum(variants) }
}

fn load(nodes: Vec<TypeNode>) -> Declarations {
    Declarations {
        decls: nodes.iter().map(|n| HttpError::parse(n).unwrap()).collect::<Vec<HttpError>>(),
    }
}

fn struct_value(fields: Vec<(&str, &str)>) -> ErrorValue {
    ErrorValue::Struct {
        fields: fields
            .into_iter()
            .map(|(k, v)| (k.to_string(), v.to_string()))
            .collect(),
    }
}

fn wrapped(variant: usize, inner: ErrorValue) -> ErrorValue {
    ErrorValue::Wrapped { variant, inner: Box::new(inner) }
}

/// The end-to-end example: an enum with two delegating variants wrapping
/// struct errors of statuses 403 and 404, and a terminal variant of 500.
fn example() -> Declarations {
    load(vec![
        struct_node("Inner", "FORBIDDEN"),
        struct_node("Other", "NOT_FOUND"),
        enum_node(
            "E",
            vec![
                delegating("Forbidden", "Inner"),
                delegating("NotFound", "Other"),
                terminal_unit("Internal", "INTERNAL_SERVER_ERROR"),
            ],
        ),
    ])
}

#[test]
fn a_struct_error_resolves_to_its_declared_status() {
    let decls = example();
    assert_eq!(decls.status(0, &struct_value(vec![("id", "1")])), Some(403));
    assert_eq!(decls.status(0, &struct_value(vec![])), Some(403));
    assert_eq!(decls.status(1, &struct_value(vec![])), Some(404));
}

#[test]
fn a_terminal_variant_resolves_to_its_declared_status() {
    let decls = example();
    assert_eq!(decls.status(2, &ErrorValue::Unit { variant: 2 }), Some(500));
}

#[test]
fn a_delegating_variant_resolves_through_its_wrapped_value() {
    let decls = example();
    assert_eq!(decls.status(2, &wrapped(0, struct_value(vec![("id", "1")]))), Some(403));
    assert_eq!(decls.status(2, &wrapped(1, struct_value(vec![]))), Some(404));
}

#[test]
fn delegation_resolves_through_arbitrary_depth() {
    // An outer enum delegates to the example enum, which delegates to a
    // struct error: two hops.
    let decls = load(vec![
        struct_node("Inner", "FORBIDDEN"),
        struct_node("Other", "NOT_FOUND"),
        enum_node(
            "E",
            vec![
                delegating("Forbidden", "Inner"),
                delegating("NotFound", "Other"),
                terminal_unit("Internal", "INTERNAL_SERVER_ERROR"),
            ],
        ),
        enum_node(
            "Outer",
            vec![delegating("GetUserById", "E"), terminal_unit("Validation", "UNPROCESSABLE_ENTITY")],
        ),
    ]);
    let value = wrapped(0, wrapped(0, struct_value(vec![("id", "1")])));
    assert_eq!(decls.status(3, &value), Some(403));
    assert_eq!(decls.status(3, &ErrorValue::Unit { variant: 1 }), Some(422));
}

#[test]
fn a_value_that_does_not_fit_does_not_resolve() {
    let decls = example();
    assert_eq!(decls.status(2, &ErrorValue::Unit { variant: 9 }), None);
    assert_eq!(decls.status(9, &ErrorValue::Unit { variant: 0 }), None);
    // A delegating variant needs a wrapped value, not a unit one.
    assert_eq!(decls.status(2, &ErrorValue::Unit { variant: 0 }), None);
}

#[test]
fn resolver_generation_accepts_the_example() {
    let decls = example();
    assert!(decls.check_resolver(0).is_ok());
    assert!(decls.check_resolver(2).is_ok());
}

#[test]
fn resolver_generation_rejects_an_unresolvable_variant() {
    // A unit variant with no metadata has no status and is never defaulted.
    let decls = load(vec![enum_node(
        "E",
        vec![VariantNode { name: "Silent".to_string(), fields: FieldsNode::Unit, attrs: vec![] }],
    )]);
    assert_eq!(
        decls.check_resolver(0),
        Err(DeclarationError::Unresolvable("Silent".to_string()))
    );
}

#[test]
fn resolver_generation_rejects_an_undeclared_target() {
    let decls = load(vec![enum_node("E", vec![delegating("Missing", "Nowhere")])]);
    assert_eq!(
        decls.check_resolver(0),
        Err(DeclarationError::Unresolvable("Missing".to_string()))
    );
}

#[test]
fn resolver_generation_rejects_cyclic_delegation() {
    let decls = load(vec![
        enum_node("A", vec![delegating("ToB", "B")]),
        enum_node("B", vec![delegating("ToA", "A")]),
    ]);
    assert_eq!(decls.check_resolver(0), Err(DeclarationError::CyclicDelegation));
    assert_eq!(decls.check_resolver(1), Err(DeclarationError::CyclicDelegation));
}

#[test]
fn serialized_body_tags_and_flattens() {
    let decls = example();
    let body = decls
        .serialize_body(2, &wrapped(0, struct_value(vec![("id", "1")])))
        .unwrap();
    assert_eq!(body, "{\"code\":\"forbidden\",\"id\":\"1\"}".to_string());
}

#[test]
fn serialized_body_of_a_unit_variant_is_just_the_tag() {
    let decls = example();
    let body = decls.serialize_body(2, &ErrorValue::Unit { variant: 2 }).unwrap();
    assert_eq!(body, "{\"code\":\"internal\"}".to_string());
}

#[test]
fn serialized_body_lower_camel_cases_the_variant_name() {
    let decls = load(vec![
        struct_node("Inner", "FORBIDDEN"),
        enum_node("E", vec![delegating("NotFound", "Inner")]),
    ]);
    let body = decls.serialize_body(1, &wrapped(0, struct_value(vec![]))).unwrap();
    assert_eq!(body, "{\"code\":\"notFound\"}".to_string());
}

#[test]
fn a_nested_tag_wins_over_the_outer_one() {
    // Flattening a wrapped enum value's fields alongside the tag lets the
    // inner tag override the outer.
    let decls = load(vec![
        struct_node("Inner", "FORBIDDEN"),
        enum_node("E", vec![delegating("Forbidden", "Inner")]),
        enum_node("Outer", vec![delegating("GetUserById", "E")]),
    ]);
    let value = wrapped(0, wrapped(0, struct_value(vec![("id", "1")])));
    let body = decls.serialize_body(2, &value).unwrap();
    assert_eq!(body, "{\"code\":\"forbidden\",\"id\":\"1\"}".to_string());
}

#[test]
fn serialized_body_escapes_special_characters() {
    let decls = load(vec![struct_node("Inner", "FORBIDDEN")]);
    let body = decls
        .serialize_body(0, &struct_value(vec![("note", "say \"hi\"\\now")]))
        .unwrap();
    assert_eq!(body, "{\"note\":\"say \\\"hi\\\"\\\\now\"}".to_string());
}

#[test]
fn into_response_pairs_status_and_body() {
    let decls = example();
    let (status, body) = decls
        .into_response(2, &wrapped(0, struct_value(vec![("id", "1")])))
        .unwrap();
    assert_eq!(status, 403);
    assert_eq!(body, "{\"code\":\"forbidden\",\"id\":\"1\"}".to_string());
}
