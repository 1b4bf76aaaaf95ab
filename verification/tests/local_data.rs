use kleio::local_authoring::data::{JsonValue, LocalDataBundle, LocalMarkdownRecord, LocalTomlDocument};
use kleio::local_authoring::data_validation::validate_local_data;
use kleio::local_authoring::error::LocalAuthoringError;
use kleio::local_authoring::read::{
    markdown_record_from_frontmatter, split_toml_frontmatter, toml_document_from_parts,
};

/// A TOML value as the library holds it; dates and times become text.
fn json(value: &toml::Value) -> JsonValue {
    match value {
        toml::Value::String(s) => JsonValue::Str(s.clone()),
        toml::Value::Integer(i) => JsonValue::Number(i.to_string()),
        toml::Value::Float(f) => JsonValue::Number(f.to_string()),
        toml::Value::Boolean(b) => JsonValue::Bool(*b),
        toml::Value::Datetime(d) => JsonValue::Str(d.to_string()),
        toml::Value::Array(items) => JsonValue::Array(items.iter().map(json).collect()),
        toml::Value::Table(table) => {
            JsonValue::Object(table.iter().map(|(k, v)| (k.clone(), json(v))).collect())
        }
    }
}

fn text_of(table: &toml::Table, key: &str) -> Option<String> {
    match table.get(key) {
        Some(toml::Value::String(s)) => Some(s.clone()),
        Some(toml::Value::Datetime(d)) => Some(d.to_string()),
        _ => None,
    }
}

fn toml_error(path: &str, e: toml::de::Error) -> LocalAuthoringError {
    LocalAuthoringError::Toml { path: path.to_string(), message: e.to_string() }
}

fn markdown(path: &str, text: &str) -> Result<LocalMarkdownRecord, LocalAuthoringError> {
    let (front, notes) = split_toml_frontmatter(path, text)?;
    let table = front.parse::<toml::Table>().map_err(|e| toml_error(path, e))?;
    let entries = table.iter().map(|(k, v)| (k.clone(), json(v))).collect();
    markdown_record_from_frontmatter(path, path, entries, &notes)
}

fn toml_document(path: &str, text: &str) -> Result<LocalTomlDocument, LocalAuthoringError> {
    let table = text.parse::<toml::Table>().map_err(|e| toml_error(path, e))?;
    let data = json(&toml::Value::Table(table.clone()));
    Ok(toml_document_from_parts(
        path,
        text_of(&table, "id"),
        text_of(&table, "kind"),
        text_of(&table, "title"),
        data,
    ))
}

/// The files of a world, read in path order and then checked, as a world
/// on disk is compiled.
fn compile(files: &[(&str, &str)]) -> Result<LocalDataBundle, LocalAuthoringError> {
    let mut files = files.to_vec();
    files.sort();
    let mut markdown_records = Vec::new();
    let mut toml_documents = Vec::new();
    for (path, text) in files {
        if path.ends_with(".md") {
            markdown_records.push(markdown(path, text)?);
        } else if path.ends_with(".toml") {
            toml_documents.push(toml_document(path, text)?);
        }
    }
    let bundle = LocalDataBundle {
        schema_version: 1,
        compiler: "kleio-local-authoring/0.1.0".to_string(),
        source_root: "world".to_string(),
        markdown_records,
        toml_documents,
    };
    validate_local_data(&bundle)?;
    Ok(bundle)
}

/// The message of a validation error; the displayed error names it too.
fn message(r: Result<LocalDataBundle, LocalAuthoringError>) -> String {
    match r {
        Err(e) => {
            let shown = e.display();
            match e {
                LocalAuthoringError::Validation { message } => {
                    assert!(shown.contains(&message));
                    message
                }
                other => panic!("unexpected error {other:?}"),
            }
        }
        Ok(_) => panic!("expected the world to be refused"),
    }
}

const ALEX: &str = "+++\nid = \"person:alex-example\"\nkind = \"person\"\npreferred_name = \"Alex Example\"\n+++\n\n# Note\n";

#[test]
fn parses_markdown_with_toml_frontmatter() {
    let text = "+++\nid = \"person_alex_example\"\nkind = \"person\"\ndate = 1900-01-01\ntags = [\"example\"]\n+++\n\nNarrative note.\n";
    let (frontmatter, notes) = split_toml_frontmatter("person_alex_example.md", text).expect("frontmatter");
    assert!(frontmatter.contains("id = \"person_alex_example\""));
    let record = markdown("person_alex_example.md", text).expect("record");
    assert_eq!(record.id, "person_alex_example");
    assert_eq!(record.date, Some("1900-01-01".to_string()));
    assert_eq!(notes.trim(), "Narrative note.");
    assert_eq!(record.notes_markdown, "Narrative note.");
}

#[test]
fn compiles_markdown_and_toml_into_bundle() {
    let bundle = compile(&[
        ("places/place_example_town.toml", "id = \"place_example_town\"\nkind = \"place\"\ntitle = \"Example Town\"\n"),
        (
            "records/person_alex_example.md",
            "+++\nid = \"person_alex_example\"\nkind = \"person\"\ntitle = \"Alex Example\"\ndate = 1900-01-01\nrelated = []\nplace = \"place_example_town\"\ncustom_field = \"kept\"\n+++\n\n# Note\n",
        ),
    ])
    .expect("compile local data");

    assert_eq!(bundle.markdown_records.len(), 1);
    assert_eq!(bundle.toml_documents.len(), 1);
    assert_eq!(bundle.markdown_records[0].id, "person_alex_example");
    assert_eq!(bundle.markdown_records[0].date.as_deref(), Some("1900-01-01"));
    assert_eq!(bundle.markdown_records[0].place.as_deref(), Some("place_example_town"));
    assert_eq!(
        bundle.markdown_records[0].attr("custom_field"),
        Some(&JsonValue::Str("kept".to_string()))
    );
    assert_eq!(bundle.toml_documents[0].path, "places/place_example_town.toml");
}

#[test]
fn rejects_missing_related_record() {
    let m = message(compile(&[(
        "records/person_alex_example.md",
        "+++\nid = \"person_alex_example\"\nkind = \"person\"\nrelated = [\"person_missing_example\"]\n+++\n\n# Note\n",
    )]));
    assert!(m.contains("person_missing_example"), "unexpected error: {m}");
    assert_eq!(
        m,
        "records/person_alex_example.md references missing related id `person_missing_example`"
    );
}

#[test]
fn rejects_local_event_collection_missing_member() {
    let m = message(compile(&[(
        "collections/missing.toml",
        "schema_version = 1\nid = \"collection:missing\"\nkind = \"event-collection\"\ntitle = \"Missing\"\ncollection_kind = \"set\"\n\n[[members]]\nevent = \"event:missing\"\n",
    )]));
    assert!(m.contains("event:missing"), "unexpected error: {m}");
}

#[test]
fn missing_participant_error_suggests_local_lookup_and_subject() {
    let m = message(compile(&[(
        "events/observations/missing.md",
        "+++\nid = \"event:missing\"\nkind = \"event\"\ntype = \"observation\"\nparticipants = [\"missing-person\"]\nassertions = []\n+++\n\n# Missing\n",
    )]));
    assert!(m.contains("list-people"), "unexpected error: {m}");
    assert!(m.contains("subject"), "unexpected error: {m}");
    assert!(m.contains("`person:missing-person`"), "unexpected error: {m}");
}

#[test]
fn rejects_empty_inline_event_location() {
    let m = message(compile(&[(
        "events/births/birth-alex-example.md",
        "+++\nid = \"event:birth-alex-example\"\nkind = \"event\"\ntype = \"birth\"\nlocation = \"\"\nparticipants = []\nassertions = []\n+++\n\n# Birth\n",
    )]));
    assert!(m.contains("location"), "unexpected error: {m}");
    assert_eq!(m, "events/births/birth-alex-example.md `location` cannot be empty");
}

#[test]
fn rejects_event_type_with_whitespace() {
    let m = message(compile(&[(
        "events/other/bad.md",
        "+++\nid = \"event:bad\"\nkind = \"event\"\ntype = \"bad type\"\nparticipants = []\nassertions = []\n+++\n\n# Bad\n",
    )]));
    assert!(m.contains("bad type"), "unexpected error: {m}");
}

#[test]
fn rejects_missing_event_assertion_reference() {
    let m = message(compile(&[
        ("entities/people/person-alex-example.md", ALEX),
        (
            "events/births/birth-alex-example.md",
            "+++\nid = \"event:birth-alex-example\"\nkind = \"event\"\ntype = \"birth\"\nparticipants = [\"alex-example\"]\nassertions = [\"assertion:missing\"]\nsources = [\"personal-knowledge\"]\n+++\n\n# Note\n",
        ),
    ]));
    assert!(m.contains("assertion:missing"), "unexpected error: {m}");
}

#[test]
fn rejects_missing_assertion_target_reference() {
    let m = message(compile(&[(
        "assertions/example-claim.md",
        "+++\nid = \"assertion:example-claim\"\nkind = \"identity\"\ntarget = \"person:missing#name\"\nvalue = \"Missing Example\"\n+++\n\n# Note\n",
    )]));
    assert!(m.contains("person:missing"), "unexpected error: {m}");
    assert_eq!(
        m,
        "assertions/example-claim.md references missing assertion target `person:missing`"
    );
}

#[test]
fn rejects_missing_relationship_reference() {
    let m = message(compile(&[
        ("entities/people/person-alex-example.md", ALEX),
        (
            "relationships/alex-missing.toml",
            "id = \"relationship:alex-missing\"\nkind = \"relationship\"\ntitle = \"Missing relation\"\nrelationship = \"associate\"\nsource = \"person:alex-example\"\ntarget = \"person:missing\"\n",
        ),
    ]));
    assert!(m.contains("person:missing"), "unexpected error: {m}");
    assert_eq!(
        m,
        "relationships/alex-missing.toml references missing relationship target `person:missing`"
    );
}

#[test]
fn rejects_missing_tree_view_root_reference() {
    let m = message(compile(&[(
        "views/trees/root.toml",
        "schema_version = 1\nid = \"tree:root\"\nkind = \"tree-view\"\ntitle = \"Root\"\n\n[root]\nentity = \"person:missing\"\n",
    )]));
    assert!(m.contains("person:missing"), "unexpected error: {m}");
    assert_eq!(m, "views/trees/root.toml references missing tree root entity `person:missing`");
}

#[test]
fn rejects_missing_timeline_view_subject_reference() {
    let m = message(compile(&[(
        "views/timelines/life.toml",
        "schema_version = 1\nid = \"timeline:life\"\nkind = \"timeline-view\"\ntitle = \"Life\"\n\n[subject]\nentity = \"person:missing\"\n",
    )]));
    assert!(m.contains("person:missing"), "unexpected error: {m}");
}

#[test]
fn rejects_assertion_missing_target() {
    let m = message(compile(&[(
        "assertions/missing-target.md",
        "+++\nid = \"assertion:missing-target\"\nkind = \"identity\"\nvalue = \"Alex\"\n+++\n",
    )]));
    assert!(m.contains("target"), "unexpected error: {m}");
    assert_eq!(m, "assertions/missing-target.md assertion missing `target`");
}

#[test]
fn allows_event_support_assertion_without_value() {
    let bundle = compile(&[
        (
            "events/observations/example.md",
            "+++\nid = \"event:example\"\nkind = \"event\"\ntype = \"observation\"\ntitle = \"Example\"\nassertions = [\"assertion:example-support\"]\n+++\n\n# Example\n",
        ),
        (
            "assertions/example-support.md",
            "+++\nid = \"assertion:example-support\"\nkind = \"event-support\"\ntarget = \"event:example#date\"\nconfidence = \"medium\"\n+++\n\n# Support\n",
        ),
    ])
    .expect("targeted event date support without value is valid");
    assert!(bundle.markdown_records.iter().any(|record| record.id == "assertion:example-support"));
}

#[test]
fn rejects_assertion_missing_source_reference() {
    let m = message(compile(&[
        ("entities/people/person-alex.md", "+++\nid = \"person:alex\"\nkind = \"person\"\npreferred_name = \"Alex\"\n+++\n"),
        (
            "assertions/missing-source.md",
            "+++\nid = \"assertion:missing-source\"\nkind = \"identity\"\ntarget = \"person:alex#name\"\nvalue = \"Alex\"\nsources = [\"source:missing\"]\n+++\n",
        ),
    ]));
    assert!(m.contains("source:missing"), "unexpected error: {m}");
    assert_eq!(m, "assertions/missing-source.md references missing sources id `source:missing`");
}

// Further cases of the checks, one for each kind of refusal.

#[test]
fn rejects_duplicate_and_malformed_ids() {
    let dup = "+++\nid = \"person:a\"\nkind = \"person\"\n+++\n";
    let m = message(compile(&[("entities/people/a.md", dup), ("entities/people/b.md", dup)]));
    assert_eq!(m, "duplicate id `person:a`");
    let m = message(compile(&[("entities/people/a.md", "+++\nid = \"person a\"\nkind = \"person\"\n+++\n")]));
    assert_eq!(m, "entities/people/a.md id `person a` contains whitespace");
    let m = message(compile(&[("entities/people/a.md", "+++\nid = \"  \"\nkind = \"person\"\n+++\n")]));
    assert_eq!(m, "entities/people/a.md has an empty id");
    let m = message(compile(&[
        ("entities/people/a.md", dup),
        ("places/a.toml", "id = \"person:a\"\nkind = \"place\"\n"),
    ]));
    assert_eq!(m, "duplicate id `person:a`");
}

#[test]
fn ids_are_checked_before_references() {
    let m = message(compile(&[
        ("a.md", "+++\nid = \"note:a\"\nkind = \"note\"\nrelated = [\"note:zzz\"]\n+++\n"),
        ("b.md", "+++\nid = \"bad id\"\nkind = \"note\"\n+++\n"),
    ]));
    assert_eq!(m, "b.md id `bad id` contains whitespace");
}

#[test]
fn rejects_missing_place_and_bad_places() {
    let m = message(compile(&[("a.md", "+++\nid = \"note:a\"\nkind = \"note\"\nplace = \"place:nowhere\"\n+++\n")]));
    assert_eq!(m, "a.md references missing place `place:nowhere`");
    let m = message(compile(&[("a.md", "+++\nid = \"note:a\"\nkind = \"note\"\nplaces = [\"nowhere\"]\n+++\n")]));
    assert_eq!(m, "a.md references missing places entity `place:nowhere`");
    let m = message(compile(&[("a.md", "+++\nid = \"note:a\"\nkind = \"note\"\nplaces = \"x\"\n+++\n")]));
    assert_eq!(m, "a.md `places` must be an array");
    let ok = compile(&[
        ("a.md", "+++\nid = \"note:a\"\nkind = \"note\"\nplaces = [\"town\", { label = \"Harbour\" }]\n+++\n"),
        ("places/town.toml", "id = \"place:town\"\nkind = \"place\"\n"),
    ]);
    assert!(ok.is_ok());
}

#[test]
fn checks_inline_locations() {
    let m = message(compile(&[("a.md", "+++\nid = \"note:a\"\nkind = \"note\"\nlocation = { latitude = 1.5 }\n+++\n")]));
    assert_eq!(
        m,
        "a.md inline `location` location must include `label`, `name`, `source_text`, or both `latitude` and `longitude`"
    );
    let m = message(compile(&[("a.md", "+++\nid = \"note:a\"\nkind = \"note\"\nlocation = { label = \"x\", latitude = 1.5 }\n+++\n")]));
    assert_eq!(
        m,
        "a.md inline `location` location must include both `latitude` and `longitude` when using coordinates"
    );
    let m = message(compile(&[("a.md", "+++\nid = \"note:a\"\nkind = \"note\"\nlocation = { label = \"x\", latitude = \"n\", longitude = 2 }\n+++\n")]));
    assert_eq!(m, "a.md inline `location` `latitude` must be a number");
    let m = message(compile(&[("a.md", "+++\nid = \"note:a\"\nkind = \"note\"\nlocation = [\"x\"]\n+++\n")]));
    assert_eq!(
        m,
        "a.md `location` must be a location string, inline location table, or array of inline locations"
    );
    let ok = compile(&[("a.md", "+++\nid = \"note:a\"\nkind = \"note\"\nlocations = [\"Harbour\", { latitude = 1.0, longitude = 2.0 }]\n+++\n")]);
    assert!(ok.is_ok());
    let m = message(compile(&[("a.md", "+++\nid = \"note:a\"\nkind = \"note\"\nlocations = [\"Harbour\", \" \"]\n+++\n")]));
    assert_eq!(m, "a.md `locations` cannot be empty");
}

#[test]
fn checks_participants() {
    let m = message(compile(&[("e.md", "+++\nid = \"event:e\"\nkind = \"event\"\ntype = \"birth\"\nparticipants = \"alex\"\n+++\n")]));
    assert_eq!(m, "e.md `participants` must be an array");
    let m = message(compile(&[("e.md", "+++\nid = \"event:e\"\nkind = \"event\"\ntype = \"birth\"\nparticipants = [1]\n+++\n")]));
    assert_eq!(m, "e.md `participants` entries must be entity ids or participant tables");
    let ok = compile(&[
        ("entities/people/alex-example.md", ALEX),
        ("e.md", "+++\nid = \"event:e\"\nkind = \"event\"\ntype = \"birth\"\nparticipants = [\"alex-example\", { entity = \"person:alex-example\", role = \"witness\" }]\n+++\n"),
    ]);
    assert!(ok.is_ok());
}

#[test]
fn checks_event_records() {
    let m = message(compile(&[("events/e.md", "+++\nid = \"event:e\"\nkind = \"note\"\n+++\n")]));
    assert_eq!(m, "events/e.md event records must use `kind = \"event\"`");
    let m = message(compile(&[("notes/e.md", "+++\nid = \"event:e\"\nkind = \"event\"\n+++\n")]));
    assert_eq!(m, "notes/e.md event record missing `type`");
    let hinted = compile(&[("events/deaths/death--utc=1950-01-01.md", "+++\nid = \"event:d\"\nkind = \"event\"\n+++\n")])
        .expect("the file name gives the type");
    assert_eq!(hinted.markdown_records[0].attr("type"), Some(&JsonValue::Str("death".to_string())));
    assert_eq!(hinted.markdown_records[0].attr("time"), Some(&JsonValue::Str("1950-01-01".to_string())));
    assert_eq!(hinted.markdown_records[0].attr("time_basis"), Some(&JsonValue::Str("utc".to_string())));
    let m = message(compile(&[("e.md", "+++\nid = \"event:e\"\nkind = \"event\"\ntype = \"a/b\"\n+++\n")]));
    assert_eq!(m, "e.md event type `a/b` may not contain whitespace, slashes, or colons");
}

#[test]
fn checks_sources_and_inline_assertions() {
    let m = message(compile(&[("a.md", "+++\nid = \"note:a\"\nkind = \"note\"\nsources = [\"letters\"]\n+++\n")]));
    assert_eq!(m, "a.md references missing sources id `source:letters`");
    let m = message(compile(&[("a.md", "+++\nid = \"note:a\"\nkind = \"note\"\nsources = [{ mood = \"x\" }]\n+++\n")]));
    assert_eq!(
        m,
        "a.md inline `sources` source must include `label`, `title`, `file`, `uri`, `hash`, or `sha256`"
    );
    let m = message(compile(&[("a.md", "+++\nid = \"note:a\"\nkind = \"note\"\nassertions = [{ value = 1 }]\n+++\n")]));
    assert_eq!(m, "a.md inline assertion missing `target`");
    let m = message(compile(&[("a.md", "+++\nid = \"note:a\"\nkind = \"note\"\nassertions = [{ target = \"#date\", sources = [\"x\"] }]\n+++\n")]));
    assert_eq!(m, "a.md references missing inline assertion `sources` id `source:x`");
    let ok = compile(&[
        ("a.md", "+++\nid = \"note:a\"\nkind = \"note\"\nassertions = [{ target = \"#date\", sources = [{ title = \"Letter\" }] }]\n+++\n"),
    ]);
    assert!(ok.is_ok());
}

#[test]
fn checks_relationship_documents() {
    let m = message(compile(&[("relationships/r.toml", "id = \"relationship:r\"\nkind = \"relationship\"\ntarget = \"person:a\"\n")]));
    assert_eq!(m, "relationships/r.toml relationship missing `source`");
    let people = "+++\nid = \"person:a\"\nkind = \"person\"\n+++\n";
    let m = message(compile(&[
        ("entities/people/a.md", people),
        ("relationships/r.toml", "id = \"relationship:r\"\nkind = \"relationship\"\nsource = \"a\"\ntarget = \"a\"\nsources = [\"s\"]\n"),
    ]));
    assert_eq!(m, "relationships/r.toml references missing relationship source `source:s`");
    let m = message(compile(&[
        ("entities/people/a.md", people),
        ("relationships/r.toml", "id = \"relationship:r\"\nkind = \"relationship\"\nsource = \"a\"\ntarget = \"a\"\nsources = [1]\n"),
    ]));
    assert_eq!(m, "relationships/r.toml `sources` must contain only strings");
    let m = message(compile(&[
        ("entities/people/a.md", people),
        ("relationships/r.toml", "id = \"relationship:r\"\nkind = \"relationship\"\nsource = \"a b\"\ntarget = \"a\"\n"),
    ]));
    assert_eq!(
        m,
        "relationship source `a b` may not contain whitespace, slashes, or empty id parts"
    );
}

#[test]
fn checks_event_collection_kind_and_members() {
    let m = message(compile(&[("c.toml", "id = \"collection:c\"\nkind = \"event-collection\"\ncollection_kind = \"bag\"\n")]));
    assert_eq!(m, "c.toml event collection has invalid collection_kind `bag`");
    let m = message(compile(&[("c.toml", "id = \"collection:c\"\nkind = \"event-collection\"\nmembers = 1\n")]));
    assert_eq!(m, "c.toml `members` must be an array");
    let m = message(compile(&[("c.toml", "id = \"collection:c\"\nkind = \"event-collection\"\nmembers = [{ role = \"x\" }]\n")]));
    assert_eq!(m, "c.toml collection member missing `event`");
    let ok = compile(&[
        ("c.toml", "id = \"collection:c\"\nkind = \"event-collection\"\ncollection_kind = \"sequence\"\nmembers = [{ event = \"event:e\" }]\n"),
        ("events/e.md", "+++\nid = \"event:e\"\nkind = \"event\"\ntype = \"birth\"\n+++\n"),
    ]);
    assert!(ok.is_ok());
}
