use kleio::local_authoring::data::{JsonValue, LocalDataBundle, LocalMarkdownRecord, LocalTomlDocument};
use kleio::local_authoring::data_validation::validate_local_data;
use kleio::local_authoring::ecs_compile::{ecs_entity_from_markdown_record, ecs_from_local_data_bundle};
use kleio::local_authoring::error::LocalAuthoringError;
use kleio::local_authoring::read::{
    markdown_record_from_frontmatter, split_toml_frontmatter, toml_document_from_parts,
};

/// A TOML value as the library holds it; dates and times become text.
fn json(value: &toml::Value) -> JsonValue {
    match value {
        toml::Value::String(s) => JsonValue::Str(s.clone()),
        toml::Value::Integer(i) => JsonValue::Number(i.to_string()),
        toml::Value::Float(f) => JsonValue::Number(f.to_string()),
        toml::Value::Boolean(b) => JsonValue::Bool(*b),
        toml::Value::Datetime(d) => JsonValue::Str(d.to_string()),
        toml::Value::Array(items) => JsonValue::Array(items.iter().map(json).collect()),
        toml::Value::Table(table) => {
            JsonValue::Object(table.iter().map(|(k, v)| (k.clone(), json(v))).collect())
        }
    }
}

fn text_of(table: &toml::Table, key: &str) -> Option<String> {
    match table.get(key) {
        Some(toml::Value::String(s)) => Some(s.clone()),
        Some(toml::Value::Datetime(d)) => Some(d.to_string()),
        _ => None,
    }
}

fn toml_error(path: &str, e: toml::de::Error) -> LocalAuthoringError {
    LocalAuthoringError::Toml { path: path.to_string(), message: e.to_string() }
}

fn markdown(path: &str, text: &str) -> Result<LocalMarkdownRecord, LocalAuthoringError> {
    let (front, notes) = split_toml_frontmatter(path, text)?;
    let table = front.parse::<toml::Table>().map_err(|e| toml_error(path, e))?;
    let entries = table.iter().map(|(k, v)| (k.clone(), json(v))).collect();
    markdown_record_from_frontmatter(path, path, entries, &notes)
}

fn toml_document(path: &str, text: &str) -> Result<LocalTomlDocument, LocalAuthoringError> {
    let table = text.parse::<toml::Table>().map_err(|e| toml_error(path, e))?;
    let data = json(&toml::Value::Table(table.clone()));
    Ok(toml_document_from_parts(
        path,
        text_of(&table, "id"),
        text_of(&table, "kind"),
        text_of(&table, "title"),
        data,
    ))
}

/// The files of a world, read in path order and then checked, as a world
/// on disk is compiled.
fn compile(files: &[(&str, &str)]) -> Result<LocalDataBundle, LocalAuthoringError> {
    let mut files = files.to_vec();
    files.sort();
    let mut markdown_records = Vec::new();
    let mut toml_documents = Vec::new();
    for (path, text) in files {
        if path.ends_with(".md") {
            markdown_records.push(markdown(path, text)?);
        } else if path.ends_with(".toml") {
            toml_documents.push(toml_document(path, text)?);
        }
    }
    let bundle = LocalDataBundle {
        schema_version: 1,
        compiler: "kleio-local-authoring/0.1.0".to_string(),
        source_root: "world".to_string(),
        markdown_records,
        toml_documents,
    };
    validate_local_data(&bundle)?;
    Ok(bundle)
}

fn text(s: &str) -> JsonValue {
    JsonValue::Str(s.to_string())
}

fn obj(entries: Vec<(&str, JsonValue)>) -> JsonValue {
    JsonValue::Object(entries.into_iter().map(|(k, v)| (k.to_string(), v)).collect())
}

fn names(c: &[(String, JsonValue)]) -> Vec<&str> {
    c.iter().map(|(k, _)| k.as_str()).collect()
}

#[test]
fn ecs_entities_of_a_small_world() {
    let bundle = compile(&[
        ("world.toml", "id = \"world:family\"\nkind = \"registry\"\n"),
        ("entities/people/alex.md", "+++\nid = \"person:alex\"\nkind = \"person\"\ntitle = \"Alex\"\n+++\n"),
        ("sources/letter.md", "+++\nid = \"source:letter\"\nkind = \"letter\"\ntitle = \"A letter\"\nmedia = [\"scan.png\"]\n+++\n"),
        ("assertions/name.md", "+++\nid = \"assertion:name\"\nkind = \"identity\"\ntarget = \"person:alex#name\"\nvalue = \"Alex\"\nsources = [\"source:letter\"]\n+++\n"),
        ("events/observations/seen.md", "+++\nid = \"event:seen\"\nkind = \"event\"\ntype = \"observation\"\ndate = 1900-01-01\nparticipants = [\"alex\"]\nassertions = [\"assertion:name\"]\n+++\n"),
        ("notes/todo.md", "+++\nid = \"note:todo\"\nkind = \"note\"\n+++\n"),
        ("views/timelines/life.toml", "id = \"timeline:life\"\nkind = \"timeline-view\"\n"),
        ("views/trees/main.toml", "id = \"tree:main\"\nkind = \"tree-view\"\n"),
    ])
    .expect("compile");
    let ecs = ecs_from_local_data_bundle(&bundle);
    assert_eq!(ecs.schema_version, 1);
    assert_eq!(ecs.world, "world:family");
    let ids: Vec<&str> = ecs.entities.iter().map(|e| e.id.as_str()).collect();
    assert_eq!(ids, vec!["assertion:name", "event:seen", "person:alex", "source:letter"]);
    assert_eq!(ecs.resources.views.timelines, vec!["timeline:life".to_string()]);
    assert_eq!(ecs.resources.views.trees, vec!["tree:main".to_string()]);
    assert!(ecs.resources.views.maps.is_empty());

    let person = &ecs.entities[2];
    assert_eq!(names(&person.components), vec!["Identity", "Person", "PrimaryName"]);
    assert_eq!(person.components[0].1, obj(vec![("id", text("person:alex")), ("kind", text("person"))]));
    assert_eq!(person.components[1].1, obj(vec![]));
    assert_eq!(person.components[2].1, obj(vec![("full", text("Alex"))]));

    let event = &ecs.entities[1];
    assert_eq!(names(&event.components), vec!["HistoricalEvent", "Identity", "Participants", "SourceLinks", "TimePoint"]);
    assert_eq!(event.components[0].1, obj(vec![("event_kind", text("event"))]));
    assert_eq!(event.components[2].1, obj(vec![("items", JsonValue::Array(vec![text("alex")]))]));
    assert_eq!(event.components[3].1, obj(vec![("assertions", JsonValue::Array(vec![text("assertion:name")]))]));
    assert_eq!(event.components[4].1, obj(vec![("value", text("1900-01-01"))]));

    let assertion = &ecs.entities[0];
    assert_eq!(names(&assertion.components), vec!["Assertion", "Identity"]);
    assert_eq!(
        assertion.components[0].1,
        obj(vec![
            ("assertion_kind", text("identity")),
            ("confidence", JsonValue::Null),
            ("predicate", JsonValue::Null),
            ("sources", JsonValue::Array(vec![text("source:letter")])),
            ("subject", JsonValue::Null),
            ("value", text("Alex")),
        ])
    );

    let source = &ecs.entities[3];
    assert_eq!(names(&source.components), vec!["Identity", "Source"]);
    assert_eq!(
        source.components[1].1,
        obj(vec![
            ("media", JsonValue::Array(vec![text("scan.png")])),
            ("source_kind", text("letter")),
            ("title", text("A letter")),
        ])
    );
}

#[test]
fn ecs_kinds_and_defaults() {
    let b = compile(&[
        ("entities/groups/guild.md", "+++\nid = \"org:guild\"\nkind = \"organization\"\nprimary_name = \"The Guild\"\n+++\n"),
        ("entities/things/ring.md", "+++\nid = \"object:ring\"\nkind = \"object\"\n+++\n"),
        ("sources/untitled.md", "+++\nid = \"source:untitled\"\nkind = \"note\"\n+++\n"),
    ])
    .expect("compile");
    let ecs = ecs_from_local_data_bundle(&b);
    assert_eq!(ecs.world, "world:default");
    let ring = &ecs.entities[0];
    assert_eq!(ring.id, "object:ring");
    assert_eq!(names(&ring.components), vec!["Identity", "Object"]);
    let guild = ecs_entity_from_markdown_record(&b.markdown_records[0]);
    assert_eq!(names(&guild.components), vec!["Identity", "Organization", "PrimaryName"]);
    assert_eq!(guild.components[2].1, obj(vec![("full", text("The Guild"))]));
    let untitled = &ecs.entities[2];
    assert_eq!(
        untitled.components[1].1,
        obj(vec![("media", JsonValue::Array(vec![])), ("source_kind", text("note")), ("title", JsonValue::Null)])
    );
}
