use kleio::local_authoring::data::{JsonValue, LocalDataBundle, LocalMarkdownRecord, LocalTomlDocument};
use kleio::local_authoring::data_validation::validate_local_data;
use kleio::local_authoring::timeline_compile::{timeline_from_local_data_bundle, LocalTimelineProjection};
use kleio::local_authoring::filename_hints::{is_float_text, is_i64_text, parse_event_filename_hints, parse_filename_datetime};
use kleio::local_authoring::error::LocalAuthoringError;
use kleio::local_authoring::read::{
    markdown_record_from_frontmatter, split_toml_frontmatter, toml_document_from_parts,
};

/// A TOML value as the library holds it; dates and times become text.
fn json(value: &toml::Value) -> JsonValue {
    match value {
        toml::Value::String(s) => JsonValue::Str(s.clone()),
        toml::Value::Integer(i) => JsonValue::Number(i.to_string()),
        toml::Value::Float(f) => JsonValue::Number(f.to_string()),
        toml::Value::Boolean(b) => JsonValue::Bool(*b),
        toml::Value::Datetime(d) => JsonValue::Str(d.to_string()),
        toml::Value::Array(items) => JsonValue::Array(items.iter().map(json).collect()),
        toml::Value::Table(table) => {
            JsonValue::Object(table.iter().map(|(k, v)| (k.clone(), json(v))).collect())
        }
    }
}

fn text_of(table: &toml::Table, key: &str) -> Option<String> {
    match table.get(key) {
        Some(toml::Value::String(s)) => Some(s.clone()),
        Some(toml::Value::Datetime(d)) => Some(d.to_string()),
        _ => None,
    }
}

fn toml_error(path: &str, e: toml::de::Error) -> LocalAuthoringError {
    LocalAuthoringError::Toml { path: path.to_string(), message: e.to_string() }
}

fn markdown(path: &str, text: &str) -> Result<LocalMarkdownRecord, LocalAuthoringError> {
    let (front, notes) = split_toml_frontmatter(path, text)?;
    let table = front.parse::<toml::Table>().map_err(|e| toml_error(path, e))?;
    let entries = table.iter().map(|(k, v)| (k.clone(), json(v))).collect();
    markdown_record_from_frontmatter(path, path, entries, &notes)
}

fn toml_document(path: &str, text: &str) -> Result<LocalTomlDocument, LocalAuthoringError> {
    let table = text.parse::<toml::Table>().map_err(|e| toml_error(path, e))?;
    let data = json(&toml::Value::Table(table.clone()));
    Ok(toml_document_from_parts(
        path,
        text_of(&table, "id"),
        text_of(&table, "kind"),
        text_of(&table, "title"),
        data,
    ))
}

/// The files of a world, read in path order and then checked, as a world
/// on disk is compiled.
fn compile(files: &[(&str, &str)]) -> Result<LocalDataBundle, LocalAuthoringError> {
    let mut files = files.to_vec();
    files.sort();
    let mut markdown_records = Vec::new();
    let mut toml_documents = Vec::new();
    for (path, text) in files {
        if path.ends_with(".md") {
            markdown_records.push(markdown(path, text)?);
        } else if path.ends_with(".toml") {
            toml_documents.push(toml_document(path, text)?);
        }
    }
    let bundle = LocalDataBundle {
        schema_version: 1,
        compiler: "kleio-local-authoring/0.1.0".to_string(),
        source_root: "world".to_string(),
        markdown_records,
        toml_documents,
    };
    validate_local_data(&bundle)?;
    Ok(bundle)
}

fn timeline(files: &[(&str, &str)], view: Option<&str>) -> LocalTimelineProjection {
    let bundle = compile(files).expect("compile local data");
    timeline_from_local_data_bundle(&bundle, view)
}

fn text(s: &str) -> JsonValue {
    JsonValue::Str(s.to_string())
}

fn obj(entries: Vec<(&str, JsonValue)>) -> JsonValue {
    JsonValue::Object(entries.into_iter().map(|(k, v)| (k.to_string(), v)).collect())
}

const ALEX: (&str, &str) = (
    "entities/people/alex-example.md",
    "+++\nid = \"person:alex-example\"\nkind = \"person\"\npreferred_name = \"Alex Example\"\n+++\n\n# Alex\n",
);

#[test]
fn compiles_local_event_collections_into_timeline_projection() {
    let t = timeline(
        &[
            ("events/observations/first.md", "+++\nid = \"event:first\"\nkind = \"event\"\ntype = \"observation\"\ntitle = \"First event\"\ndate = 2026-01-01\n+++\n\n# First\n"),
            ("events/observations/second.md", "+++\nid = \"event:second\"\nkind = \"event\"\ntype = \"observation\"\ntitle = \"Second event\"\ndate = 2026-01-02\n+++\n\n# Second\n"),
            ("collections/comparison.toml", "schema_version = 1\nid = \"collection:comparison\"\nkind = \"event-collection\"\ntitle = \"Comparison\"\ncollection_kind = \"set\"\n\n[[members]]\nevent = \"event:first\"\nlabel = \"First\"\nrole = \"reference\"\n\n[[members]]\nevent = \"event:second\"\nlabel = \"Second\"\nrole = \"comparison\"\n"),
        ],
        None,
    );
    assert_eq!(t.events.len(), 2);
    assert_eq!(t.collections.len(), 1);
    assert_eq!(t.collections[0].id, "collection:comparison");
    assert_eq!(t.collections[0].members.len(), 2);
    assert_eq!(t.collections[0].members[0].event, "event:first");
}

#[test]
fn compiles_inline_event_location_into_timeline_projection() {
    let t = timeline(
        &[
            ALEX,
            ("sources/personal-knowledge.md", "+++\nid = \"source:personal-knowledge\"\nkind = \"note\"\ntitle = \"Personal knowledge\"\n+++\n\n# Source\n"),
            ("events/births/birth-alex-example.md", "+++\nid = \"event:birth-alex-example\"\nkind = \"event\"\ntype = \"birth\"\ntime = \"1900-01-01 07:18\"\nlocation = \"Example Town\"\nparticipants = [\"person:alex-example\"]\nassertions = []\n+++\n\n# Birth\n"),
        ],
        None,
    );
    assert_eq!(t.events.len(), 1);
    assert_eq!(t.events[0].title.as_deref(), Some("Alex Example was born"));
    assert_eq!(
        t.events[0].places,
        vec![obj(vec![
            ("entity", text("place:inline:event-birth-alex-example-location")),
            ("role", text("birthplace")),
            ("label", text("Example Town")),
            ("generated", JsonValue::Bool(true)),
        ])]
    );
}

#[test]
fn compiles_typed_event_with_participant_shorthand() {
    let t = timeline(
        &[
            ALEX,
            ("events/births/birth-alex-example.md", "+++\nid = \"event:birth-alex-example\"\nkind = \"event\"\ntype = \"birth\"\ntime = \"1900-01-01\"\nparticipants = [\"alex-example\"]\nassertions = []\n+++\n\n# Birth\n"),
        ],
        None,
    );
    assert_eq!(t.events.len(), 1);
    assert_eq!(t.events[0].event_type, "birth");
    assert_eq!(
        t.events[0].participants,
        vec![obj(vec![("entity", text("person:alex-example")), ("role", text("subject"))])]
    );
    assert_eq!(t.events[0].title.as_deref(), Some("Alex Example was born"));
}

#[test]
fn compiles_place_shorthand_with_default_event_role() {
    let t = timeline(
        &[
            ALEX,
            ("entities/places/example-town.md", "+++\nid = \"place:example-town\"\nkind = \"place\"\npreferred_name = \"Example Town\"\n+++\n\n# Example Town\n"),
            ("events/births/birth-alex-example.md", "+++\nid = \"event:birth-alex-example\"\nkind = \"event\"\ntype = \"birth\"\nparticipants = [\"alex-example\"]\nplaces = [\"example-town\"]\nassertions = []\n+++\n\n# Birth\n"),
        ],
        None,
    );
    assert_eq!(
        t.events[0].places,
        vec![obj(vec![("entity", text("place:example-town")), ("role", text("birthplace"))])]
    );
}

#[test]
fn explicit_event_title_overrides_default_label() {
    let t = timeline(
        &[
            ALEX,
            ("events/births/birth-alex-example.md", "+++\nid = \"event:birth-alex-example\"\nkind = \"event\"\ntype = \"birth\"\ntitle = \"Custom birth label\"\nparticipants = [\"person:alex-example\"]\nassertions = []\n+++\n\n# Birth\n"),
        ],
        None,
    );
    assert_eq!(t.events[0].title.as_deref(), Some("Custom birth label"));
}

#[test]
fn uses_subject_as_default_event_participant() {
    let t = timeline(
        &[
            ALEX,
            ("events/residences/alex-residence.md", "+++\nid = \"event:alex-residence\"\nkind = \"event\"\ntype = \"residence\"\nsubject = \"alex-example\"\ntime = \"1900-01-01\"\nassertions = []\n+++\n\n# Residence\n"),
        ],
        None,
    );
    assert_eq!(
        t.events[0].participants,
        vec![obj(vec![("entity", text("person:alex-example")), ("role", text("subject"))])]
    );
}

#[test]
fn events_are_ordered_by_time_then_id_with_unknown_times_first() {
    let ev = |id: &str, extra: &str| {
        format!("+++\nid = \"{id}\"\nkind = \"event\"\ntype = \"observation\"\n{extra}+++\n")
    };
    let a = ev("event:a", "time = \"1901\"\n");
    let b = ev("event:b", "date = 1900-05-01\n");
    let c = ev("event:c", "");
    let d = ev("event:d", "time = \"1901\"\n");
    let t = timeline(
        &[("events/a.md", &a), ("events/d.md", &d), ("events/b.md", &b), ("events/c.md", &c)],
        None,
    );
    let ids: Vec<&str> = t.events.iter().map(|e| e.id.as_str()).collect();
    assert_eq!(ids, vec!["event:c", "event:b", "event:a", "event:d"]);
    assert_eq!(t.events[1].time.as_deref(), Some("1900-05-01"));
    assert_eq!(t.world, "world:default");
    assert!(t.view.is_none());
    assert_eq!(t.schema_version, 1);
}

#[test]
fn timeline_view_keeps_subject_and_related_people() {
    let person = |slug: &str| {
        (format!("entities/people/{slug}.md"), format!("+++\nid = \"person:{slug}\"\nkind = \"person\"\n+++\n"))
    };
    let (p1, t1) = person("alex");
    let (p2, t2) = person("morgan");
    let (p3, t3) = person("riley");
    let files = vec![
        (p1.as_str(), t1.as_str()),
        (p2.as_str(), t2.as_str()),
        (p3.as_str(), t3.as_str()),
        ("world.toml", "id = \"world:family\"\nkind = \"registry\"\n"),
        ("relationships/a-m.toml", "id = \"relationship:a-m\"\nkind = \"relationship\"\nrelationship = \"associate\"\nsource = \"person:alex\"\ntarget = \"person:morgan\"\n"),
        ("views/timelines/life.toml", "id = \"timeline:life\"\nkind = \"timeline-view\"\ntitle = \"Life\"\n\n[subject]\nentity = \"person:alex\"\n\n[filter]\ninclude_related_people = true\ninclude_context_events = true\n"),
        ("events/one.md", "+++\nid = \"event:one\"\nkind = \"event\"\ntype = \"observation\"\nparticipants = [{ entity = \"person:alex\", role = \"subject\" }]\n+++\n"),
        ("events/two.md", "+++\nid = \"event:two\"\nkind = \"event\"\ntype = \"observation\"\nparticipants = [{ entity = \"person:morgan\" }]\n+++\n"),
        ("events/three.md", "+++\nid = \"event:three\"\nkind = \"event\"\ntype = \"observation\"\nparticipants = [{ entity = \"person:riley\" }]\n+++\n"),
        ("events/four.md", "+++\nid = \"event:four\"\nkind = \"event\"\ntype = \"observation\"\nparticipants = []\n+++\n"),
    ];
    let t = timeline(&files, Some("life"));
    let ids: Vec<&str> = t.events.iter().map(|e| e.id.as_str()).collect();
    assert_eq!(ids, vec!["event:four", "event:one", "event:two"]);
    assert_eq!(t.world, "world:family");
    let view = t.view.expect("view");
    assert_eq!(view.id, "timeline:life");
    assert_eq!(view.title.as_deref(), Some("Life"));
    assert_eq!(view.path, "views/timelines/life.toml");

    let none = timeline(&files, Some("missing"));
    assert!(none.view.is_none());
    assert_eq!(none.events.len(), 4);
}

#[test]
fn collections_keep_only_members_on_the_timeline_sorted_by_id() {
    let t = timeline(
        &[
            ("events/e.md", "+++\nid = \"event:e\"\nkind = \"event\"\ntype = \"observation\"\n+++\n"),
            ("collections/z.toml", "id = \"collection:z\"\nkind = \"event-collection\"\norder = \"time\"\nmembers = [{ event = \"event:e\", ordinal = 2 }]\n"),
            ("collections/a.toml", "id = \"collection:a\"\nkind = \"event-collection\"\ncollection_kind = \"sequence\"\nmembers = [{ event = \"event:e\", label = \"E\" }]\n"),
            ("collections/empty.toml", "id = \"collection:empty\"\nkind = \"event-collection\"\n"),
        ],
        None,
    );
    let ids: Vec<&str> = t.collections.iter().map(|c| c.id.as_str()).collect();
    assert_eq!(ids, vec!["collection:a", "collection:z"]);
    assert_eq!(t.collections[0].kind, "sequence");
    assert_eq!(t.collections[0].members[0].label.as_deref(), Some("E"));
    assert_eq!(t.collections[1].kind, "set");
    assert_eq!(t.collections[1].order.as_deref(), Some("time"));
    assert_eq!(t.collections[1].members[0].ordinal, Some(2));
}

#[test]
fn events_carry_assertions_and_numbered_generated_places() {
    let t = timeline(
        &[
            ("sources/letter.md", "+++\nid = \"source:letter\"\nkind = \"source\"\n+++\n"),
            ("assertions/claim.md", "+++\nid = \"assertion:claim\"\nkind = \"identity\"\ntarget = \"event:move#date\"\n+++\n"),
            (
                "events/move.md",
                "+++\nid = \"event:move\"\nkind = \"event\"\ntype = \"residence\"\nlocations = [\"Harbour\", { name = \"Hill\", latitude = 1.5, longitude = 2 }]\nassertions = [\"assertion:claim\", { target = \"#date\", confidence = \"high\", value = 1902, sources = [\"letter\"] }]\n+++\n",
            ),
        ],
        None,
    );
    let e = &t.events[0];
    assert_eq!(e.assertions, vec!["assertion:claim".to_string()]);
    assert_eq!(e.inline_assertions.len(), 1);
    assert_eq!(e.inline_assertions[0].target, "event:move#date");
    assert_eq!(e.inline_assertions[0].value.as_deref(), Some("1902"));
    assert_eq!(e.inline_assertions[0].sources, vec!["letter".to_string()]);
    assert_eq!(e.places.len(), 2);
    assert_eq!(
        e.places[0],
        obj(vec![
            ("entity", text("place:inline:event-move-location-1")),
            ("role", text("residence")),
            ("label", text("Harbour")),
            ("generated", JsonValue::Bool(true)),
        ])
    );
    assert_eq!(
        e.places[1],
        obj(vec![
            ("entity", text("place:inline:event-move-location-2")),
            ("role", text("residence")),
            ("name", text("Hill")),
            ("latitude", JsonValue::Number("1.5".to_string())),
            ("longitude", JsonValue::Number("2".to_string())),
            ("generated", JsonValue::Bool(true)),
        ])
    );
}

#[test]
fn infers_birth_participant_from_birth_event_id_when_omitted() {
    let t = timeline(
        &[
            ALEX,
            ("events/births/birth-alex-example.md", "+++\nid = \"event:birth-alex-example\"\nkind = \"event\"\ntype = \"birth\"\ntime = \"1900-01-01\"\nassertions = []\n+++\n\n# Birth\n"),
        ],
        None,
    );
    assert_eq!(
        t.events[0].participants,
        vec![obj(vec![("entity", text("person:alex-example")), ("role", text("subject"))])]
    );
}

fn number(v: &JsonValue) -> f64 {
    match v {
        JsonValue::Number(t) => t.parse::<f64>().expect("number"),
        other => panic!("not a number: {other:?}"),
    }
}

#[test]
fn filename_hints_fill_birth_datetime_participant_and_location_coordinates() {
    let files = [
        ALEX,
        (
            "events/births/birth--person=alex-example--local=1900-01-01T12-04--lat=40.7128--lng=-74.0060.md",
            "+++\nid = \"event:birth-alex-example\"\nkind = \"event\"\n\n[location]\nlabel = \"Example Memorial Hospital\"\n+++\n\n# Birth\n",
        ),
    ];
    let bundle = compile(&files).expect("compile local data");
    let birth = bundle
        .markdown_records
        .iter()
        .find(|record| record.id == "event:birth-alex-example")
        .expect("birth record");
    assert_eq!(birth.attr("subject").and_then(|v| v.as_str()), Some("alex-example"));
    assert!(birth.attr("participants").is_none(), "filename person hint should infer subject without writing participants");

    let t = timeline_from_local_data_bundle(&bundle, None);
    assert_eq!(t.events.len(), 1);
    assert_eq!(t.events[0].event_type, "birth");
    assert_eq!(t.events[0].time.as_deref(), Some("1900-01-01 12:04"));
    assert_eq!(
        t.events[0].participants,
        vec![obj(vec![("entity", text("person:alex-example")), ("role", text("subject"))])]
    );
    assert_eq!(t.events[0].places.len(), 1);
    let JsonValue::Object(place) = &t.events[0].places[0] else { panic!("place object") };
    let keys: Vec<&str> = place.iter().map(|(k, _)| k.as_str()).collect();
    assert_eq!(keys, vec!["entity", "role", "label", "latitude", "longitude", "generated"]);
    assert_eq!(place[0].1, text("place:inline:event-birth-alex-example-location"));
    assert_eq!(place[1].1, text("birthplace"));
    assert_eq!(place[2].1, text("Example Memorial Hospital"));
    assert_eq!(number(&place[3].1), 40.7128);
    assert_eq!(number(&place[4].1), -74.006);
    assert_eq!(place[5].1, JsonValue::Bool(true));
}

#[test]
fn parses_birth_filename_hints() {
    let hints = parse_event_filename_hints(
        "birth--person=alex-example--local=1900-01-01T12-04--lat=40.7128--lng=-74.0060",
    )
    .expect("hints");

    assert_eq!(hints.event_type.as_deref(), Some("birth"));
    assert_eq!(hints.participant.as_deref(), Some("alex-example"));
    assert_eq!(hints.time.as_deref(), Some("1900-01-01 12:04"));
    assert_eq!(hints.time_basis.as_deref(), Some("local"));
    assert_eq!(hints.latitude.as_deref().map(|t| t.parse::<f64>().unwrap()), Some(40.7128));
    assert_eq!(hints.longitude.as_deref().map(|t| t.parse::<f64>().unwrap()), Some(-74.0060));
}

#[test]
fn filename_hint_errors_name_the_problem() {
    assert_eq!(
        parse_event_filename_hints("x--unix=12a").unwrap_err(),
        "filename unix value `12a` must be an integer"
    );
    assert_eq!(
        parse_event_filename_hints("x--lat=north--lng=1").unwrap_err(),
        "filename lat value `north` must be a number"
    );
    assert_eq!(
        parse_event_filename_hints("x--lat=1").unwrap_err(),
        "filename latitude and longitude must be provided together"
    );
    assert_eq!(
        parse_event_filename_hints("x--person=a/b").unwrap_err(),
        "local data validation failed: filename participant `a/b` may not contain whitespace, slashes, or empty id parts"
    );
    let h = parse_event_filename_hints("--utc=2001-02-03T04-05Z--unix=-9223372036854775808--note=x_y").expect("hints");
    assert_eq!(h.event_type, None);
    assert_eq!(h.time.as_deref(), Some("-9223372036854775808"));
    assert_eq!(h.time_basis.as_deref(), Some("unix"));
    let h = parse_event_filename_hints("death--utc=2001-02-03T04-05Z--person=ann-lee--place=Old_Town").expect("hints");
    assert_eq!(h.time.as_deref(), Some("2001-02-03 04:05Z"));
    assert_eq!(h.time_basis.as_deref(), Some("utc"));
    assert_eq!(h.participant.as_deref(), Some("ann-lee"));
    assert_eq!(parse_filename_datetime("1900-01-01"), "1900-01-01");
}

#[test]
fn number_texts_follow_rust_parsing() {
    for t in ["1", "-1", "+1", "1.", ".5", "1.5e3", "1E-3", "inf", "-Infinity", "NaN", "007"] {
        assert!(is_float_text(t), "{t}");
        assert_eq!(is_float_text(t), t.parse::<f64>().is_ok(), "{t}");
    }
    for t in ["", ".", "e5", "1e", "1.2.3", "--1", "1_0", "abc", "1e+", " 1"] {
        assert!(!is_float_text(t), "{t}");
        assert_eq!(is_float_text(t), t.parse::<f64>().is_ok(), "{t}");
    }
    for t in ["0", "-9223372036854775808", "9223372036854775807", "+5"] {
        assert!(is_i64_text(t), "{t}");
        assert_eq!(is_i64_text(t), t.parse::<i64>().is_ok());
    }
    for t in ["9223372036854775808", "-9223372036854775809", "", "-", "1.0"] {
        assert!(!is_i64_text(t), "{t}");
        assert_eq!(is_i64_text(t), t.parse::<i64>().is_ok());
    }
}

#[test]
fn file_name_errors_are_refused_when_reading() {
    let r = compile(&[("events/births/birth--lat=1.md", "+++\nid = \"event:b\"\nkind = \"event\"\n+++\n")]);
    match r {
        Err(LocalAuthoringError::Validation { message }) => assert_eq!(
            message,
            "events/births/birth--lat=1.md: filename latitude and longitude must be provided together"
        ),
        other => panic!("unexpected {other:?}"),
    }
}
