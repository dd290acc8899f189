use breach::merge::merge_content;
use breach::{
    merge_responses, CatalogueEntry, ContentEntry, ResponseCatalogue, ResponseDescriptor, Schema,
};

fn reference(name: &str) -> Schema {
    Schema::Ref(name.to_string())
}

fn catalogue(entries: Vec<(&str, Option<&str>, Vec<(&str, Schema)>)>) -> ResponseCatalogue {
    ResponseCatalogue {
        entries: entries
            .into_iter()
            .map(|(status, description, content)| CatalogueEntry {
                status: status.to_string(),
                descriptor: ResponseDescriptor {
                    description: description.map(|d| d.to_string()),
                    content: content
                        .into_iter()
                        .map(|(content_type, schema)| ContentEntry {
                            content_type: content_type.to_string(),
                            schema,
                        })
                        .collect(),
                },
            })
            .collect(),
    }
}

fn sort_key(schema: &Schema) -> String {
    format!("{:?}", schema)
}

fn normalize_schema(schema: Schema) -> Schema {
    match schema {
        Schema::Ref(name) => Schema::Ref(name),
        Schema::OneOf(mut alternatives) => {
            alternatives.sort_by_key(sort_key);
            Schema::OneOf(alternatives)
        }
    }
}

fn normalize(mut catalogue: ResponseCatalogue) -> ResponseCatalogue {
    for entry in catalogue.entries.iter_mut() {
        entry
            .descriptor
            .content
            .sort_by(|a, b| a.content_type.cmp(&b.content_type));
        let content = std::mem::take(&mut entry.descriptor.content);
        entry.descriptor.content = content
            .into_iter()
            .map(|c| ContentEntry { content_type: c.content_type, schema: normalize_schema(c.schema) })
            .collect();
    }
    catalogue.entries.sort_by(|a, b| a.status.cmp(&b.status));
    catalogue
}

#[test]
fn merge_unions_statuses_and_composes_collisions() {
    // Two catalogues share status 403 with colliding JSON schemas; one adds
    // status 404. The merge keeps both statuses, composes the collision
    // into a one-of, and recomputes descriptions from the codes.
    let a = catalogue(vec![("403", None, vec![("application/json", reference("X"))])]);
    let b = catalogue(vec![
        ("403", None, vec![("application/json", reference("Y"))]),
        ("404", None, vec![("application/json", reference("Z"))]),
    ]);
    let merged = merge_responses(&vec![a, b]).unwrap();
    let expected = catalogue(vec![
        (
            "403",
            Some("Forbidden"),
            vec![(
                "application/json",
                Schema::OneOf(vec![reference("X"), reference("Y")]),
            )],
        ),
        ("404", Some("Not Found"), vec![("application/json", reference("Z"))]),
    ]);
    assert_eq!(normalize(merged), normalize(expected));
}

#[test]
fn merge_is_commutative() {
    let a = || {
        catalogue(vec![
            ("403", None, vec![("application/json", reference("X"))]),
            ("410", Some("stale"), vec![("text/plain", reference("P"))]),
        ])
    };
    let b = || {
        catalogue(vec![
            ("403", None, vec![("application/json", reference("Y"))]),
            ("404", None, vec![("application/json", reference("Z"))]),
        ])
    };
    let ab = merge_responses(&vec![a(), b()]).unwrap();
    let ba = merge_responses(&vec![b(), a()]).unwrap();
    assert_eq!(normalize(ab), normalize(ba));
}

#[test]
fn merge_is_associative() {
    let a = || catalogue(vec![("403", None, vec![("application/json", reference("X"))])]);
    let b = || catalogue(vec![("403", None, vec![("application/json", reference("Y"))])]);
    let c = || {
        catalogue(vec![
            ("403", None, vec![("application/json", reference("Z"))]),
            ("500", None, vec![]),
        ])
    };
    let ab = merge_responses(&vec![a(), b()]).unwrap();
    let left = merge_responses(&vec![ab, c()]).unwrap();
    let bc = merge_responses(&vec![b(), c()]).unwrap();
    let right = merge_responses(&vec![a(), bc]).unwrap();
    assert_eq!(normalize(left), normalize(right));
}

#[test]
fn merge_key_set_is_the_union() {
    let a = catalogue(vec![("403", None, vec![]), ("404", None, vec![])]);
    let b = catalogue(vec![("404", None, vec![]), ("500", None, vec![])]);
    let merged = merge_responses(&vec![a, b]).unwrap();
    let mut keys: Vec<String> = merged.entries.iter().map(|e| e.status.clone()).collect();
    keys.sort();
    assert_eq!(keys, vec!["403".to_string(), "404".to_string(), "500".to_string()]);
}

#[test]
fn merge_of_nothing_is_empty() {
    let merged = merge_responses(&Vec::new()).unwrap();
    assert_eq!(merged.entries.len(), 0);
}

#[test]
fn merge_of_one_canonical_catalogue_is_itself() {
    // A catalogue whose description already is the canonical reason of its
    // status comes back unchanged from a singleton merge.
    let c = || {
        catalogue(vec![(
            "403",
            Some("Forbidden"),
            vec![("application/json", reference("X"))],
        )])
    };
    let merged = merge_responses(&vec![c()]).unwrap();
    assert_eq!(merged, c());
}

#[test]
fn composing_flattens_a_one_of_one_level() {
    // Composing [A, OneOf([B, C])] yields OneOf([A, B, C]), not a nested
    // OneOf([A, OneOf([B, C])]).
    let a = reference("A");
    let bc = Schema::OneOf(vec![reference("B"), reference("C")]);
    let composed = merge_content(&vec![&a, &bc]);
    assert_eq!(
        composed,
        Schema::OneOf(vec![reference("A"), reference("B"), reference("C")])
    );
}

#[test]
fn composing_flattens_one_level_only() {
    // A one-of nested two levels deep keeps its inner composition: the
    // flattening is not a fixed-point normalization.
    let a = reference("A");
    let inner = || Schema::OneOf(vec![reference("B")]);
    let outer = Schema::OneOf(vec![inner(), reference("C")]);
    let composed = merge_content(&vec![&a, &outer]);
    assert_eq!(
        composed,
        Schema::OneOf(vec![reference("A"), inner(), reference("C")])
    );
}

#[test]
fn a_single_schema_is_kept_as_is() {
    let nested = Schema::OneOf(vec![Schema::OneOf(vec![reference("A")])]);
    let composed = merge_content(&vec![&nested]);
    assert_eq!(composed, nested);
}

#[test]
fn malformed_status_text_aborts_the_merge() {
    let a = catalogue(vec![("403", None, vec![])]);
    let b = catalogue(vec![("4xx", None, vec![])]);
    let err = merge_responses(&vec![a, b]).unwrap_err();
    assert_eq!(err.status, "4xx".to_string());
}

#[test]
fn merge_recomputes_descriptions_from_the_code() {
    // The input's own description is never inherited: the canonical reason
    // of the status code replaces it.
    let a = catalogue(vec![("404", Some("something else"), vec![])]);
    let b = catalogue(vec![("404", None, vec![])]);
    let merged = merge_responses(&vec![a, b]).unwrap();
    assert_eq!(merged.entries.len(), 1);
    assert_eq!(merged.entries[0].descriptor.description, Some("Not Found".to_string()));
}
