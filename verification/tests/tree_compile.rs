use kleio::local_authoring::data::{JsonValue, LocalDataBundle, LocalMarkdownRecord, LocalTomlDocument};
use kleio::local_authoring::error::LocalAuthoringError;
use kleio::local_authoring::read::{markdown_record_from_frontmatter, toml_document_from_parts};
use kleio::local_authoring::tree_compile::{tree_from_local_data_bundle, tree_from_local_data_bundle_with_view};
use kleio::model::{Person, PersonId};
use kleio::tree::{ParentRole, RelationshipKind, TreeDocument};

fn text(s: &str) -> JsonValue {
    JsonValue::Str(s.to_string())
}

fn number(s: &str) -> JsonValue {
    JsonValue::Number(s.to_string())
}

fn obj(entries: Vec<(&str, JsonValue)>) -> JsonValue {
    JsonValue::Object(entries.into_iter().map(|(k, v)| (k.to_string(), v)).collect())
}

/// A record read the way a world's Markdown files are read.
fn record(path: &str, frontmatter: Vec<(&str, JsonValue)>) -> LocalMarkdownRecord {
    let entries = frontmatter.into_iter().map(|(k, v)| (k.to_string(), v)).collect();
    markdown_record_from_frontmatter(path, path, entries, "# Note\n").expect("record")
}

/// A TOML document read the way a world's TOML files are read.
fn document(path: &str, data: Vec<(&str, JsonValue)>) -> LocalTomlDocument {
    let value = obj(data);
    let field = |key: &str| match value.get(key) {
        Some(JsonValue::Str(s)) => Some(s.clone()),
        _ => None,
    };
    let (id, kind, title) = (field("id"), field("kind"), field("title"));
    toml_document_from_parts(path, id, kind, title, value)
}

fn bundle(records: Vec<LocalMarkdownRecord>, documents: Vec<LocalTomlDocument>) -> LocalDataBundle {
    LocalDataBundle {
        schema_version: 1,
        compiler: "kleio-local-authoring/0.1.0".to_string(),
        source_root: "world".to_string(),
        markdown_records: records,
        toml_documents: documents,
    }
}

fn compile(b: &LocalDataBundle) -> TreeDocument {
    tree_from_local_data_bundle(b).expect("compile tree").0
}

fn person<'a>(tree: &'a TreeDocument, id: &str) -> &'a Person {
    let wanted = format!("local:{id}");
    tree.people
        .iter()
        .find(|person| person.source_record.as_ref().is_some_and(|source| source.0 == wanted))
        .expect("person")
}

fn spouse(path: &str, kind: &str, source: &str, target: &str) -> LocalTomlDocument {
    document(path, vec![("relationship", text(kind)), ("source", text(source)), ("target", text(target))])
}

fn parent(path: &str, role: &str, source: &str, target: &str) -> LocalTomlDocument {
    document(
        path,
        vec![
            ("relationship", text("biological-parent-child")),
            ("parent_role", text(role)),
            ("source", text(source)),
            ("target", text(target)),
        ],
    )
}

fn person_record(slug: &str, extra: Vec<(&str, JsonValue)>) -> LocalMarkdownRecord {
    let id = format!("person:{slug}");
    let mut frontmatter = vec![("id", text(&id)), ("kind", text("person"))];
    frontmatter.extend(extra);
    record(&format!("entities/people/{slug}.md"), frontmatter)
}

#[test]
fn compiles_private_tree_document_from_person_records_and_relationships() {
    let registry = document(
        "registry.toml",
        vec![
            ("id", text("registry_private_tree")),
            ("kind", text("registry")),
            ("title", text("Private registry")),
            (
                "tree",
                obj(vec![
                    ("id", text("private-tree")),
                    ("title", text("Private tree")),
                    ("main_person", text("person_alex_example")),
                ]),
            ),
        ],
    );
    let alex = record(
        "records/person_alex_example.md",
        vec![
            ("id", text("person_alex_example")),
            ("kind", text("person")),
            ("title", text("Alex Example")),
            ("given", text("Alex")),
            ("surname", text("Example")),
            ("sex", text("unknown")),
            ("birth_date", text("1900-01-01")),
            ("x", number("10")),
            ("y", number("20")),
            ("related", JsonValue::Array(vec![text("person_morgan_example")])),
        ],
    );
    let morgan = record(
        "records/person_morgan_example.md",
        vec![
            ("id", text("person_morgan_example")),
            ("kind", text("person")),
            ("title", text("Morgan Example")),
            ("related", JsonValue::Array(vec![text("person_alex_example")])),
        ],
    );
    let relationship = document(
        "relationships/alex_morgan.toml",
        vec![
            ("id", text("relationship_alex_morgan_example")),
            ("kind", text("relationship")),
            ("title", text("Example association")),
            ("relationship", text("associate")),
            ("source", text("person_alex_example")),
            ("target", text("person_morgan_example")),
        ],
    );
    let b = bundle(vec![alex, morgan], vec![registry, relationship]);
    let (tree, positions) = tree_from_local_data_bundle(&b).expect("compile tree");
    assert_eq!(tree.metadata.id.0, "private-tree");
    assert_eq!(tree.metadata.title, "Private tree");
    assert_eq!(tree.people.len(), 2);
    assert_eq!(tree.events.len(), 1);
    assert_eq!(tree.relationships.len(), 1);
    assert_eq!(tree.person_display_name(tree.main_person.expect("main person")), Some("Alex Example"));
    assert_eq!(tree.relationships[0].kind, RelationshipKind::Associate);
    assert_eq!(
        positions,
        vec![(tree.people[0].id, Some("10".to_string()), Some("20".to_string()))]
    );
}

#[test]
fn infers_legal_name_from_person_filename_and_uses_preferred_name() {
    let b = bundle(
        vec![record(
            "entities/people/john-quincy-smith.md",
            vec![
                ("id", text("person:john-quincy-smith")),
                ("kind", text("person")),
                ("preferred_name", text("Quincy")),
            ],
        )],
        vec![],
    );
    let tree = compile(&b);
    assert_eq!(tree.person_display_name(tree.people[0].id), Some("Quincy Smith"));
    assert_eq!(tree.people[0].names.len(), 2);
    assert_eq!(tree.people[0].names[0].usage.as_deref(), Some("preferred"));
    assert_eq!(tree.people[0].names[0].display, "Quincy Smith");
    assert_eq!(tree.people[0].names[0].given.as_deref(), Some("Quincy"));
    assert_eq!(tree.people[0].names[0].surname.as_deref(), Some("Smith"));
    assert_eq!(
        tree.people[0].names[0].order.as_ref().map(|order| order.0.as_str()),
        Some("given-middle-family")
    );
    assert_eq!(tree.people[0].names[1].usage.as_deref(), Some("legal"));
    assert_eq!(tree.people[0].names[1].full.as_deref(), Some("John Quincy Smith"));
    assert_eq!(tree.people[0].names[1].given.as_deref(), Some("John"));
    assert_eq!(tree.people[0].names[1].middle.as_deref(), Some("Quincy"));
    assert_eq!(tree.people[0].names[1].surname.as_deref(), Some("Smith"));
}

fn family_first(given: &str, family: &str) -> JsonValue {
    obj(vec![("given", text(given)), ("family", text(family)), ("order", text("family-given"))])
}

#[test]
fn supports_family_name_first_preferred_name_order() {
    let b = bundle(
        vec![person_record(
            "wang-xiaoming",
            vec![(
                "names",
                obj(vec![
                    ("preferred", family_first("Xiaoming", "Wang")),
                    ("legal", family_first("Xiaoming", "Wang")),
                ]),
            )],
        )],
        vec![],
    );
    let tree = compile(&b);
    assert_eq!(tree.person_display_name(tree.people[0].id), Some("Wang Xiaoming"));
    assert_eq!(tree.people[0].names[0].given.as_deref(), Some("Xiaoming"));
    assert_eq!(tree.people[0].names[0].surname.as_deref(), Some("Wang"));
    assert_eq!(
        tree.people[0].names[0].order.as_ref().map(|order| order.0.as_str()),
        Some("family-given")
    );
}

#[test]
fn married_name_default_does_not_rewrite_family_name_first_display() {
    let b = bundle(
        vec![
            person_record(
                "li-wei",
                vec![("sex", text("male")), ("names", obj(vec![("preferred", family_first("Wei", "Li"))]))],
            ),
            person_record(
                "wang-xiaoming",
                vec![("sex", text("female")), ("names", obj(vec![("preferred", family_first("Xiaoming", "Wang"))]))],
            ),
        ],
        vec![spouse("relationships/li-wang-spouse.toml", "spouse", "person:li-wei", "person:wang-xiaoming")],
    );
    let tree = compile(&b);
    let wife = person(&tree, "person:wang-xiaoming");
    assert_eq!(tree.person_display_name(wife.id), Some("Wang Xiaoming"));
    assert_eq!(wife.names[0].surname.as_deref(), Some("Wang"));
}

fn john() -> LocalMarkdownRecord {
    person_record("john-smith", vec![("sex", text("male"))])
}

fn mary() -> LocalMarkdownRecord {
    person_record("mary-ann-jones", vec![("preferred_name", text("Ann")), ("sex", text("female"))])
}

#[test]
fn married_woman_defaults_to_husbands_surname_unless_preferred_surname_is_explicit() {
    let b = bundle(
        vec![john(), mary()],
        vec![spouse("relationships/john-mary-spouse.toml", "spouse", "person:john-smith", "person:mary-ann-jones")],
    );
    let tree = compile(&b);
    let wife = person(&tree, "person:mary-ann-jones");
    assert_eq!(tree.person_display_name(wife.id), Some("Ann Smith"));
    assert_eq!(wife.names[0].given.as_deref(), Some("Ann"));
    assert_eq!(wife.names[0].surname.as_deref(), Some("Smith"));
    assert_eq!(wife.names[1].surname.as_deref(), Some("Jones"));
}

#[test]
fn explicit_preferred_surname_overrides_married_name_default() {
    let wife_record = person_record(
        "mary-ann-jones",
        vec![
            ("sex", text("female")),
            (
                "names",
                obj(vec![(
                    "preferred",
                    obj(vec![("full", text("Ann Jones")), ("given", text("Ann")), ("family", text("Jones"))]),
                )]),
            ),
        ],
    );
    let b = bundle(
        vec![john(), wife_record],
        vec![spouse("relationships/john-mary-spouse.toml", "spouse", "person:john-smith", "person:mary-ann-jones")],
    );
    let tree = compile(&b);
    let wife = person(&tree, "person:mary-ann-jones");
    assert_eq!(tree.person_display_name(wife.id), Some("Ann Jones"));
    assert_eq!(wife.names[0].surname.as_deref(), Some("Jones"));
}

#[test]
fn parent_roles_can_drive_married_name_default_without_sex_fields() {
    let b = bundle(
        vec![
            person_record("john-smith", vec![]),
            person_record("mary-ann-jones", vec![("preferred_name", text("Ann"))]),
            person_record("riley-smith", vec![]),
        ],
        vec![
            spouse("relationships/john-mary-spouse.toml", "spouse", "person:john-smith", "person:mary-ann-jones"),
            parent("relationships/john-riley-parent.toml", "father", "person:john-smith", "person:riley-smith"),
            parent("relationships/mary-riley-parent.toml", "mother", "person:mary-ann-jones", "person:riley-smith"),
        ],
    );
    let tree = compile(&b);
    let mother = person(&tree, "person:mary-ann-jones");
    assert_eq!(tree.person_display_name(mother.id), Some("Ann Smith"));
}

#[test]
fn former_spouse_does_not_drive_current_married_name_default() {
    let b = bundle(
        vec![person_record("alex-brown", vec![("sex", text("male"))]), john(), mary()],
        vec![
            spouse("relationships/alex-mary-former-spouse.toml", "former-spouse", "person:alex-brown", "person:mary-ann-jones"),
            spouse("relationships/alex-mary-spouse.toml", "spouse", "person:alex-brown", "person:mary-ann-jones"),
            spouse("relationships/john-mary-spouse.toml", "spouse", "person:john-smith", "person:mary-ann-jones"),
        ],
    );
    let tree = compile(&b);
    let wife = person(&tree, "person:mary-ann-jones");
    assert_eq!(tree.person_display_name(wife.id), Some("Ann Smith"));
}

#[test]
fn ambiguous_multiple_current_spouses_do_not_drive_married_name_default() {
    let b = bundle(
        vec![person_record("alex-brown", vec![("sex", text("male"))]), john(), mary()],
        vec![
            spouse("relationships/alex-mary-spouse.toml", "spouse", "person:alex-brown", "person:mary-ann-jones"),
            spouse("relationships/john-mary-spouse.toml", "spouse", "person:john-smith", "person:mary-ann-jones"),
        ],
    );
    let tree = compile(&b);
    let wife = person(&tree, "person:mary-ann-jones");
    assert_eq!(tree.person_display_name(wife.id), Some("Ann Jones"));
}

fn named_person(slug: &str) -> LocalMarkdownRecord {
    person_record(slug, vec![("preferred_name", text(slug))])
}

fn parent_child(slug: &str, source: &str, target: &str) -> LocalTomlDocument {
    document(
        &format!("relationships/{slug}.toml"),
        vec![
            ("id", text(&format!("relationship:{slug}"))),
            ("kind", text("relationship")),
            ("relationship", text("biological-parent-child")),
            ("source", text(source)),
            ("target", text(target)),
        ],
    )
}

fn root_view(up: &str, down: &str, siblings: bool) -> LocalTomlDocument {
    document(
        "views/trees/root-tree.toml",
        vec![
            ("schema_version", number("1")),
            ("id", text("tree:root-tree")),
            ("kind", text("tree-view")),
            ("title", text("Root tree")),
            ("root", obj(vec![("entity", text("person:root"))])),
            (
                "projection",
                obj(vec![
                    ("relationship_kinds", JsonValue::Array(vec![text("biological-parent-child")])),
                    ("generations_up", number(up)),
                    ("generations_down", number(down)),
                    ("include_partners", JsonValue::Bool(false)),
                    ("include_siblings", JsonValue::Bool(siblings)),
                    ("include_unconnected", JsonValue::Bool(false)),
                ]),
            ),
        ],
    )
}

fn display_names(tree: &TreeDocument) -> Vec<&str> {
    tree.people.iter().filter_map(|person| tree.person_display_name(person.id)).collect()
}

#[test]
fn filters_tree_view_by_configured_generations() {
    let people = ["grandparent", "parent", "root", "child", "grandchild"].into_iter().map(named_person).collect::<Vec<_>>();
    let b = bundle(
        people,
        vec![
            parent_child("grandparent-parent", "person:grandparent", "person:parent"),
            parent_child("parent-root", "person:parent", "person:root"),
            parent_child("root-child", "person:root", "person:child"),
            parent_child("child-grandchild", "person:child", "person:grandchild"),
            root_view("1", "1", false),
        ],
    );
    let (tree, _) = tree_from_local_data_bundle_with_view(&b, Some("root-tree")).expect("compile tree");
    let names = display_names(&tree);
    assert_eq!(tree.people.len(), 3);
    assert!(names.contains(&"parent"));
    assert!(names.contains(&"root"));
    assert!(names.contains(&"child"));
    assert!(!names.contains(&"grandparent"));
    assert!(!names.contains(&"grandchild"));
    assert_eq!(tree.relationships.len(), 2);
}

#[test]
fn tree_view_projection_can_include_siblings_without_unconnected_people() {
    let people = ["parent", "root", "sibling", "unrelated"].into_iter().map(named_person).collect::<Vec<_>>();
    let b = bundle(
        people,
        vec![
            parent_child("parent-root", "person:parent", "person:root"),
            parent_child("parent-sibling", "person:parent", "person:sibling"),
            root_view("1", "0", true),
        ],
    );
    let (tree, _) = tree_from_local_data_bundle_with_view(&b, Some("root-tree")).expect("compile tree");
    let names = display_names(&tree);
    assert!(names.contains(&"root"));
    assert!(names.contains(&"parent"));
    assert!(names.contains(&"sibling"));
    assert!(!names.contains(&"unrelated"));
}

#[test]
fn tree_events_belong_to_their_people_in_order() {
    let alex = record(
        "records/alex.md",
        vec![
            ("id", text("person:alex")),
            ("kind", text("person")),
            ("title", text("Alex")),
            ("birth_date", text("1900-01-01")),
            ("death_date", text("1970-05-04")),
        ],
    );
    let b = bundle(vec![alex], vec![]);
    let tree = compile(&b);
    assert_eq!(tree.events.len(), 2);
    assert_eq!(tree.events[0].id.0, 1);
    assert_eq!(tree.events[1].id.0, 2);
    assert_eq!(tree.people[0].events.iter().map(|id| id.0).collect::<Vec<_>>(), vec![1, 2]);
    assert_eq!(tree.main_person, Some(PersonId(1)));
    assert_eq!(tree.metadata.id.0, "local-tree");
    assert_eq!(tree.metadata.title, "Local private tree");
}

#[test]
fn relationship_to_a_missing_person_is_refused() {
    let b = bundle(
        vec![named_person("root")],
        vec![parent_child("root-ghost", "person:root", "person:ghost")],
    );
    match tree_from_local_data_bundle(&b) {
        Err(LocalAuthoringError::Validation { message }) => {
            assert_eq!(message, "relationships/root-ghost.toml references missing target person `person:ghost`")
        },
        other => panic!("unexpected result: {:?}", other.map(|_| ())),
    }
}

#[test]
fn parent_role_comes_from_the_document_else_the_parents_sex() {
    let b = bundle(
        vec![john(), person_record("riley-smith", vec![])],
        vec![parent_child("john-riley", "person:john-smith", "person:riley-smith")],
    );
    let tree = compile(&b);
    assert_eq!(tree.relationships[0].parent_role, Some(ParentRole::Father));
}

#[test]
fn view_without_generations_keeps_everyone() {
    let view = document(
        "views/trees/all.toml",
        vec![
            ("id", text("tree:all")),
            ("kind", text("tree-view")),
            ("title", text("Everyone")),
            ("root", obj(vec![("entity", text("person:root"))])),
        ],
    );
    let b = bundle(vec![named_person("root"), named_person("other")], vec![view]);
    let (tree, _) = tree_from_local_data_bundle_with_view(&b, Some("all")).expect("compile tree");
    assert_eq!(tree.people.len(), 2);
    assert_eq!(tree.metadata.id.0, "tree:all");
    assert_eq!(tree.metadata.title, "Everyone");
    assert_eq!(tree.main_person, Some(PersonId(1)));
}
