use kleio::local_authoring::data::{JsonValue, LocalDataBundle, LocalTomlDocument};
use kleio::local_authoring::kinship::{infer_local_kinship_relationships, LocalDerivedKinshipRelationship};
use kleio::local_authoring::read::toml_document_from_parts;

fn text(s: &str) -> JsonValue {
    JsonValue::Str(s.to_string())
}

fn relationship_doc(slug: &str, kind: &str, source: &str, target: &str) -> LocalTomlDocument {
    let data = JsonValue::Object(vec![
        ("id".to_string(), text(&format!("relationship:{slug}"))),
        ("kind".to_string(), text("relationship")),
        ("relationship".to_string(), text(kind)),
        ("source".to_string(), text(source)),
        ("target".to_string(), text(target)),
    ]);
    toml_document_from_parts(
        &format!("relationships/{slug}.toml"),
        Some(format!("relationship:{slug}")),
        Some("relationship".to_string()),
        None,
        data,
    )
}

fn bundle(documents: Vec<LocalTomlDocument>) -> LocalDataBundle {
    LocalDataBundle {
        schema_version: 1,
        compiler: "kleio-local-authoring/0.1.0".to_string(),
        source_root: "world".to_string(),
        markdown_records: Vec::new(),
        toml_documents: documents,
    }
}

fn has_derived(derived: &[LocalDerivedKinshipRelationship], kind: &str, source: &str, target: &str) -> bool {
    derived.iter().any(|relationship| {
        relationship.relationship_kind == kind && relationship.source == source && relationship.target == target
    })
}

fn find<'a>(derived: &'a [LocalDerivedKinshipRelationship], kind: &str, source: &str, target: &str) -> &'a LocalDerivedKinshipRelationship {
    derived
        .iter()
        .find(|r| r.relationship_kind == kind && r.source == source && r.target == target)
        .expect("derived relationship")
}

fn family() -> LocalDataBundle {
    bundle(vec![
        relationship_doc("alex-morgan", "biological-parent-child", "person:alex", "person:morgan"),
        relationship_doc("alex-casey", "biological-parent-child", "person:alex", "person:casey"),
        relationship_doc("morgan-riley", "biological-parent-child", "person:morgan", "person:riley"),
        relationship_doc("casey-jordan", "biological-parent-child", "person:casey", "person:jordan"),
    ])
}

#[test]
fn infers_common_kinship_from_parent_child_relationships() {
    let derived = infer_local_kinship_relationships(&family());

    assert!(has_derived(&derived, "grandparent-grandchild", "person:alex", "person:riley"));
    assert!(has_derived(&derived, "sibling", "person:casey", "person:morgan"));
    assert!(has_derived(&derived, "aunt-uncle-nibling", "person:casey", "person:riley"));
    assert!(has_derived(&derived, "cousin", "person:jordan", "person:riley"));
    assert!(has_derived(&derived, "ancestor-descendant", "person:alex", "person:jordan"));
}

#[test]
fn derived_relationships_are_sorted_and_carry_their_reasons() {
    let derived = infer_local_kinship_relationships(&family());
    for pair in derived.windows(2) {
        let a = (&pair[0].relationship_kind, &pair[0].source, &pair[0].target);
        let b = (&pair[1].relationship_kind, &pair[1].source, &pair[1].target);
        assert!(a < b);
    }
    let cousin = find(&derived, "cousin", "person:jordan", "person:riley");
    assert_eq!(cousin.depth, 2);
    assert_eq!(
        cousin.inferred_from,
        vec![
            "relationship:alex-casey".to_string(),
            "relationship:alex-morgan".to_string(),
            "relationship:casey-jordan".to_string(),
            "relationship:morgan-riley".to_string(),
        ]
    );
    let sibling = find(&derived, "sibling", "person:casey", "person:morgan");
    assert_eq!(sibling.depth, 1);
    // Grandchildren are reached at depth two; the parents themselves are not
    // listed as descendants.
    assert!(!has_derived(&derived, "ancestor-descendant", "person:alex", "person:morgan"));
    assert_eq!(find(&derived, "ancestor-descendant", "person:alex", "person:riley").depth, 2);
    assert_eq!(derived.len(), 8);
}

#[test]
fn authored_siblings_are_not_derived_again() {
    let mut documents = family().toml_documents;
    documents.push(relationship_doc("casey-morgan", "sibling", "person:morgan", "person:casey"));
    let derived = infer_local_kinship_relationships(&bundle(documents));
    assert!(!has_derived(&derived, "sibling", "person:casey", "person:morgan"));
    assert!(has_derived(&derived, "cousin", "person:jordan", "person:riley"));
}

#[test]
fn deep_lines_give_ancestors_at_their_depth() {
    let derived = infer_local_kinship_relationships(&bundle(vec![
        relationship_doc("a-b", "adoptive-parent-child", "a", "b"),
        relationship_doc("b-c", "guardian-child", "b", "c"),
        relationship_doc("c-d", "step-parent-child", "c", "d"),
        relationship_doc("x-y", "spouse", "x", "y"),
    ]));
    let d = find(&derived, "ancestor-descendant", "a", "d");
    assert_eq!(d.depth, 3);
    assert_eq!(d.inferred_from, vec!["relationship:a-b".to_string(), "relationship:b-c".to_string(), "relationship:c-d".to_string()]);
    assert!(!derived.iter().any(|r| r.source == "x" || r.target == "y"));
}

#[test]
fn every_derived_relationship_lists_its_reasons_sorted_once() {
    let mut documents = Vec::new();
    documents.push(relationship_doc("alex-morgan", "biological-parent-child", "person:alex", "person:morgan"));
    documents.push(relationship_doc("alex-casey", "biological-parent-child", "person:alex", "person:casey"));
    documents.push(relationship_doc("jamie-morgan", "biological-parent-child", "person:jamie", "person:morgan"));
    documents.push(relationship_doc("jamie-casey", "biological-parent-child", "person:jamie", "person:casey"));
    let derived = infer_local_kinship_relationships(&bundle(documents));
    for relationship in &derived {
        for pair in relationship.inferred_from.windows(2) {
            assert!(pair[0] < pair[1]);
        }
    }
    let sibling = find(&derived, "sibling", "person:casey", "person:morgan");
    assert_eq!(
        sibling.inferred_from,
        vec![
            "relationship:alex-casey".to_string(),
            "relationship:alex-morgan".to_string(),
            "relationship:jamie-casey".to_string(),
            "relationship:jamie-morgan".to_string(),
        ]
    );
}
