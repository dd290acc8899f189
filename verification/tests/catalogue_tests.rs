use breach::{
    Attr, DataNode, DeclarationError, Declarations, FieldNode, FieldsNode, HttpError, MetaItem,
    MetaValue, ResponseCatalogue, Schema, TypeNode, VariantNode,
};

fn http_attr(items: Vec<MetaItem>) -> Attr {
    Attr { name: "http".to_string(), items }
}

fn item(key: &str, value: Option<MetaValue>) -> MetaItem {
    MetaItem { key: key.to_string(), value }
}

fn status_item(name: &str) -> MetaItem {
    item("status", Some(MetaValue::Ident(name.to_string())))
}

fn doc_struct(name: &str, status: &str) -> TypeNode {
    TypeNode {
        name: name.to_string(),
        attrs: vec![http_attr(vec![status_item(status), item("utoipa", None)])],
        data: DataNode::Struct,
    }
}

fn plain_struct(name: &str, status: &str) -> TypeNode {
    TypeNode {
        name: name.to_string(),
        attrs: vec![http_attr(vec![status_item(status)])],
        data: DataNode::Struct,
    }
}

fn delegating(name: &str, target: &str) -> VariantNode {
    VariantNode {
        name: name.to_string(),
        fields: FieldsNode::Unnamed(vec![FieldNode { ty_name: target.to_string(), excluded: false }]),
        attrs: vec![],
    }
}

fn terminal(name: &str, status: &str, payload: Option<&str>) -> VariantNode {
    VariantNode {
        name: name.to_string(),
        fields: match payload {
            Some(ty) => FieldsNode::Unnamed(vec![FieldNode { ty_name: ty.to_string(), excluded: false }]),
            None => FieldsNode::Unit,
        },
        attrs: vec![http_attr(vec![status_item(status)])],
    }
}

fn enum_node(name: &str, attrs: Vec<Attr>, variants: Vec<VariantNode>) -> TypeNode {
    TypeNode { name: name.to_string(), attrs, data: DataNode::Enum(variants) }
}

fn load(nodes: Vec<TypeNode>) -> Declarations {
    Declarations {
        decls: nodes.iter().map(|n| HttpError::parse(n).unwrap()).collect::<Vec<HttpError>>(),
    }
}

fn entry<'a>(catalogue: &'a ResponseCatalogue, status: &str) -> &'a breach::ResponseDescriptor {
    &catalogue
        .entries
        .iter()
        .find(|e| e.status == status)
        .expect("status missing from catalogue")
        .descriptor
}

#[test]
fn a_struct_catalogue_has_one_canonical_entry() {
    let decls = load(vec![doc_struct("NotFoundError", "NOT_FOUND")]);
    let catalogue = decls.responses(0).unwrap();
    assert_eq!(catalogue.entries.len(), 1);
    let descriptor = entry(&catalogue, "404");
    assert_eq!(descriptor.description, Some("Not Found".to_string()));
    assert_eq!(descriptor.content.len(), 1);
    assert_eq!(descriptor.content[0].content_type, "application/json".to_string());
    assert_eq!(descriptor.content[0].schema, Schema::Ref("NotFoundError".to_string()));
}

#[test]
fn an_enum_catalogue_merges_base_variants_and_delegates() {
    let decls = load(vec![
        doc_struct("ForbiddenError", "FORBIDDEN"),
        doc_struct("BaseError", "SERVICE_UNAVAILABLE"),
        enum_node(
            "E",
            vec![http_attr(vec![item("base", Some(MetaValue::Ident("BaseError".to_string()))), item(
                "utoipa",
                None,
            )])],
            vec![
                delegating("Forbidden", "ForbiddenError"),
                terminal("Validation", "UNPROCESSABLE_ENTITY", Some("ValidationReport")),
                terminal("Internal", "INTERNAL_SERVER_ERROR", None),
            ],
        ),
    ]);
    let catalogue = decls.responses(2).unwrap();
    let mut statuses: Vec<String> = catalogue.entries.iter().map(|e| e.status.clone()).collect();
    statuses.sort();
    assert_eq!(
        statuses,
        vec!["403".to_string(), "422".to_string(), "500".to_string(), "503".to_string()]
    );
    let forbidden = entry(&catalogue, "403");
    assert_eq!(forbidden.description, Some("Forbidden".to_string()));
    assert_eq!(forbidden.content[0].schema, Schema::Ref("ForbiddenError".to_string()));
    let validation = entry(&catalogue, "422");
    assert_eq!(validation.content[0].schema, Schema::Ref("ValidationReport".to_string()));
    let internal = entry(&catalogue, "500");
    assert_eq!(internal.content.len(), 0);
}

#[test]
fn colliding_statuses_compose_into_a_one_of() {
    let decls = load(vec![
        doc_struct("A", "FORBIDDEN"),
        doc_struct("B", "FORBIDDEN"),
        enum_node(
            "E",
            vec![http_attr(vec![item("utoipa", None)])],
            vec![delegating("First", "A"), delegating("Second", "B")],
        ),
    ]);
    let catalogue = decls.responses(2).unwrap();
    assert_eq!(catalogue.entries.len(), 1);
    let descriptor = entry(&catalogue, "403");
    assert_eq!(
        descriptor.content[0].schema,
        Schema::OneOf(vec![Schema::Ref("A".to_string()), Schema::Ref("B".to_string())])
    );
}

#[test]
fn an_empty_enum_yields_an_empty_catalogue() {
    let decls = load(vec![enum_node("E", vec![], vec![])]);
    let catalogue = decls.responses(0).unwrap();
    assert_eq!(catalogue.entries.len(), 0);
}

#[test]
fn a_single_contribution_is_returned_unchanged() {
    let decls = load(vec![
        doc_struct("A", "FORBIDDEN"),
        enum_node("E", vec![], vec![delegating("Only", "A")]),
    ]);
    let enum_catalogue = decls.responses(1).unwrap();
    let struct_catalogue = decls.responses(0).unwrap();
    assert_eq!(enum_catalogue, struct_catalogue);
}

#[test]
fn a_missing_catalogue_fails_only_under_documentation_integration() {
    // The wrapped type offers no catalogue. With documentation integration
    // requested that is an error; without it, the variant contributes
    // nothing.
    let doc_enum = load(vec![
        plain_struct("A", "FORBIDDEN"),
        enum_node(
            "E",
            vec![http_attr(vec![item("utoipa", None)])],
            vec![delegating("First", "A")],
        ),
    ]);
    assert_eq!(
        doc_enum.responses(1),
        Err(DeclarationError::MissingCatalogue("A".to_string()))
    );
    let quiet_enum = load(vec![
        plain_struct("A", "FORBIDDEN"),
        enum_node("E", vec![], vec![delegating("First", "A")]),
    ]);
    let catalogue = quiet_enum.responses(1).unwrap();
    assert_eq!(catalogue.entries.len(), 0);
}

#[test]
fn catalogue_generation_rejects_cyclic_delegation() {
    let decls = load(vec![
        enum_node(
            "A",
            vec![http_attr(vec![item("utoipa", None)])],
            vec![delegating("ToB", "B")],
        ),
        enum_node(
            "B",
            vec![http_attr(vec![item("utoipa", None)])],
            vec![delegating("ToA", "A")],
        ),
    ]);
    assert_eq!(decls.responses(0), Err(DeclarationError::CyclicDelegation));
}

#[test]
fn catalogue_generation_rejects_a_variant_with_nothing_declared() {
    let decls = load(vec![enum_node(
        "E",
        vec![],
        vec![VariantNode { name: "Silent".to_string(), fields: FieldsNode::Unit, attrs: vec![] }],
    )]);
    assert_eq!(
        decls.responses(0),
        Err(DeclarationError::Unresolvable("Silent".to_string()))
    );
}
