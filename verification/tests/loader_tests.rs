use breach::{
    Attr, AttributeError, DataNode, DeclarationError, FieldNode, FieldShapeError, FieldsNode,
    HttpError, HttpErrorData, HttpErrorDataAttribute, MetaItem, MetaValue, TypeNode, VariantNode,
};

fn http_attr(items: Vec<MetaItem>) -> Attr {
    Attr { name: "http".to_string(), items }
}

fn item(key: &str, value: Option<MetaValue>) -> MetaItem {
    MetaItem { key: key.to_string(), value }
}

fn ident(name: &str) -> Option<MetaValue> {
    Some(MetaValue::Ident(name.to_string()))
}

fn status_item(name: &str) -> MetaItem {
    item("status", ident(name))
}

fn unnamed(types: Vec<(&str, bool)>) -> FieldsNode {
    FieldsNode::Unnamed(
        types
            .into_iter()
            .map(|(ty, excluded)| FieldNode { ty_name: ty.to_string(), excluded })
            .collect(),
    )
}

fn variant(name: &str, fields: FieldsNode, attrs: Vec<Attr>) -> VariantNode {
    VariantNode { name: name.to_string(), fields, attrs }
}

fn enum_node(name: &str, attrs: Vec<Attr>, variants: Vec<VariantNode>) -> TypeNode {
    TypeNode { name: name.to_string(), attrs, data: DataNode::Enum(variants) }
}

fn struct_node(name: &str, attrs: Vec<Attr>) -> TypeNode {
    TypeNode { name: name.to_string(), attrs, data: DataNode::Struct }
}

#[test]
fn a_struct_declaration_loads_with_its_status_and_schema() {
    let node = struct_node("NotFoundError", vec![http_attr(vec![status_item("NOT_FOUND")])]);
    let decl = HttpError::parse(&node).unwrap();
    assert_eq!(decl.name, "NotFoundError".to_string());
    match decl.data {
        HttpErrorData::Struct(s) => {
            assert_eq!(s.attribute.status.unwrap().code, 404);
            assert_eq!(s.schema, Some("NotFoundError".to_string()));
        }
        _ => panic!("expected a struct declaration"),
    }
}

#[test]
fn a_variant_with_two_unnamed_fields_is_rejected() {
    let node = enum_node(
        "E",
        vec![],
        vec![variant("V", unnamed(vec![("A", false), ("B", false)]), vec![])],
    );
    assert_eq!(
        HttpError::parse(&node),
        Err(DeclarationError::FieldShape(FieldShapeError::MultipleUnnamedFields))
    );
}

#[test]
fn a_variant_with_named_fields_is_rejected() {
    let node = enum_node("E", vec![], vec![variant("V", FieldsNode::Named, vec![])]);
    assert_eq!(
        HttpError::parse(&node),
        Err(DeclarationError::FieldShape(FieldShapeError::NamedFields))
    );
}

#[test]
fn a_struct_without_status_metadata_is_rejected() {
    let no_attr = struct_node("E", vec![]);
    assert_eq!(
        HttpError::parse(&no_attr),
        Err(DeclarationError::Attribute(AttributeError::MissingStatus))
    );
    let empty_attr = struct_node("E", vec![http_attr(vec![])]);
    assert_eq!(
        HttpError::parse(&empty_attr),
        Err(DeclarationError::Attribute(AttributeError::MissingStatus))
    );
}

#[test]
fn two_metadata_attributes_on_one_node_are_rejected() {
    let node = struct_node(
        "E",
        vec![
            http_attr(vec![status_item("NOT_FOUND")]),
            http_attr(vec![status_item("FORBIDDEN")]),
        ],
    );
    assert_eq!(
        HttpError::parse(&node),
        Err(DeclarationError::Attribute(AttributeError::Duplicate))
    );
}

#[test]
fn an_unknown_metadata_key_is_rejected() {
    let node = struct_node(
        "E",
        vec![http_attr(vec![status_item("NOT_FOUND"), item("colour", None)])],
    );
    assert_eq!(
        HttpError::parse(&node),
        Err(DeclarationError::Attribute(AttributeError::UnknownKey("colour".to_string())))
    );
}

#[test]
fn an_invalid_status_token_is_rejected() {
    let bad_name = struct_node("E", vec![http_attr(vec![status_item("NOT_A_STATUS")])]);
    assert_eq!(
        HttpError::parse(&bad_name),
        Err(DeclarationError::Attribute(AttributeError::InvalidStatus))
    );
    let bad_code = struct_node(
        "E",
        vec![http_attr(vec![item("status", Some(MetaValue::Int(600)))])],
    );
    assert_eq!(
        HttpError::parse(&bad_code),
        Err(DeclarationError::Attribute(AttributeError::InvalidStatus))
    );
}

#[test]
fn a_variant_attribute_without_status_is_rejected() {
    let node = enum_node(
        "E",
        vec![],
        vec![variant("V", FieldsNode::Unit, vec![http_attr(vec![])])],
    );
    assert_eq!(
        HttpError::parse(&node),
        Err(DeclarationError::Attribute(AttributeError::MissingStatus))
    );
}

#[test]
fn a_union_declaration_is_rejected() {
    let node = TypeNode { name: "U".to_string(), attrs: vec![], data: DataNode::Union };
    assert_eq!(HttpError::parse(&node), Err(DeclarationError::UnionUnsupported));
}

#[test]
fn other_attributes_are_ignored() {
    let node = struct_node(
        "E",
        vec![
            Attr { name: "derive".to_string(), items: vec![item("Debug", None)] },
            http_attr(vec![status_item("NOT_FOUND")]),
        ],
    );
    assert!(HttpError::parse(&node).is_ok());
}

#[test]
fn declaration_metadata_carries_base_hook_and_flags() {
    let attrs = vec![http_attr(vec![
        item("status", Some(MetaValue::Int(503))),
        item("base", ident("ApiError")),
        item("hook", ident("notify")),
        item("axum", None),
        item("utoipa", None),
    ])];
    let parsed = HttpErrorDataAttribute::parse_slice(&attrs).unwrap().unwrap();
    assert_eq!(parsed.status.unwrap().code, 503);
    assert_eq!(parsed.base, Some("ApiError".to_string()));
    assert_eq!(parsed.hook, Some("notify".to_string()));
    assert!(parsed.axum);
    assert!(parsed.utoipa);
}

#[test]
fn a_flag_with_a_value_is_rejected() {
    let attrs = vec![http_attr(vec![item("axum", ident("yes"))])];
    assert_eq!(
        HttpErrorDataAttribute::parse_slice(&attrs),
        Err(AttributeError::InvalidValue("axum".to_string()))
    );
}

#[test]
fn an_excluded_field_makes_the_variant_opaque() {
    // A variant whose single field is excluded cannot delegate: it keeps
    // the field arity but no usable field, so explicit status metadata is
    // required.
    let node = enum_node(
        "E",
        vec![],
        vec![variant(
            "Internal",
            unnamed(vec![("OpaqueError", true)]),
            vec![http_attr(vec![status_item("INTERNAL_SERVER_ERROR")])],
        )],
    );
    let decl = HttpError::parse(&node).unwrap();
    match decl.data {
        HttpErrorData::Enum(e) => {
            assert_eq!(e.variants.len(), 1);
            assert!(e.variants[0].has_field);
            assert_eq!(e.variants[0].field, None);
            assert_eq!(e.variants[0].attribute.as_ref().unwrap().status.as_ref().unwrap().code, 500);
        }
        _ => panic!("expected an enum declaration"),
    }
}

#[test]
fn a_delegating_variant_keeps_its_field_type() {
    let node = enum_node(
        "E",
        vec![],
        vec![variant("NotFound", unnamed(vec![("NotFoundError", false)]), vec![])],
    );
    let decl = HttpError::parse(&node).unwrap();
    match decl.data {
        HttpErrorData::Enum(e) => {
            assert_eq!(e.variants[0].field, Some("NotFoundError".to_string()));
            assert!(e.variants[0].attribute.is_none());
        }
        _ => panic!("expected an enum declaration"),
    }
}
