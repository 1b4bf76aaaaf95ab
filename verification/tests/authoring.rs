use kleio::local_authoring::collections::{
    create_local_collection, LocalCollectionKind, LocalCollectionOptions, LocalCollectionOrder,
};
use kleio::local_authoring::error::LocalAuthoringError;
use kleio::local_authoring::imports::{create_local_import_report, LocalImportKind, LocalImportReportOptions};
use kleio::local_authoring::plan::{decide_write, display_path, ExistingFile, PlannedContent, WritePlan};
use kleio::local_authoring::records::{
    create_local_assertion, create_local_entity, create_local_event, create_local_relationship,
    create_local_source, infer_date_precision, LocalEventOptions,
    target_base_id, toml_multiline_string_array, toml_string_array, LocalAssertionOptions,
    LocalEntityKind, LocalEntityOptions, LocalRelationshipOptions, LocalSourceOptions,
};
use kleio::local_authoring::refs::{
    normalize_contextual_id, normalize_person_id, validate_contextual_id, validate_slug,
};
use kleio::local_authoring::schema::{create_local_schema, LocalSchemaKind, LocalSchemaOptions};
use kleio::local_authoring::views::{create_local_view, LocalViewKind, LocalViewOptions};

fn text_of(plan: &WritePlan, index: usize) -> &str {
    match &plan.files[index].content {
        PlannedContent::Text(text) => text.as_str(),
        _ => panic!("expected text"),
    }
}

#[test]
fn creates_collection_toml() {
    let plan = create_local_collection(
        "/tmp/world",
        &LocalCollectionOptions {
            collection_slug: "comparison".to_string(),
            title: "Comparison".to_string(),
            kind: LocalCollectionKind::Unordered,
            order: LocalCollectionOrder::ManualThenChronological,
            members: vec!["event:first".to_string(), "event:second".to_string()],
            force: false,
        },
    )
    .expect("create collection");
    let text = text_of(&plan, 0);

    assert!(text.contains("id = \"collection:comparison\""));
    assert!(text.contains("event = \"event:first\""));
    assert!(text.contains("ordinal = 20"));
    assert!(!text.contains("order ="));
    assert_eq!(plan.files[0].path, "/tmp/world/collections/comparison.toml");
    assert_eq!(plan.files[0].existing, ExistingFile::Fail);
    assert_eq!(plan.dirs, vec!["/tmp/world/collections".to_string()]);
}

#[test]
fn collection_slugs_and_members_are_checked() {
    let mut options = LocalCollectionOptions {
        collection_slug: "Bad Slug".to_string(),
        title: "T".to_string(),
        kind: LocalCollectionKind::Sequence,
        order: LocalCollectionOrder::Manual,
        members: vec!["first".to_string()],
        force: true,
    };
    let err = create_local_collection("/w", &options).expect_err("bad slug");
    assert_eq!(
        err,
        LocalAuthoringError::Validation {
            message: "collection slug must contain only lowercase letters, digits, and '-'".to_string()
        }
    );
    options.collection_slug = "ok".to_string();
    let err = create_local_collection("/w", &options).expect_err("bad member");
    assert_eq!(
        err.display(),
        "local data validation failed: collection member `first` should be a stable id such as event:example"
    );
    options.members = Vec::new();
    let plan = create_local_collection("/w", &options).expect("sequence");
    assert!(text_of(&plan, 0).contains("order = \"manual\"\n"));
    assert!(text_of(&plan, 0).contains("# Add events in editor-friendly TOML:"));
    assert_eq!(plan.files[0].existing, ExistingFile::Replace);
}

#[test]
fn creates_world_schema_record() {
    let plan = create_local_schema(
        "/w",
        &LocalSchemaOptions {
            schema_slug: "names".to_string(),
            title: "Say \"hi\"".to_string(),
            kind: LocalSchemaKind::Vocab,
            force: false,
        },
    )
    .expect("schema");
    assert_eq!(plan.files[0].path, "/w/schemas/vocab/names.toml");
    assert_eq!(
        text_of(&plan, 0),
        "schema_version = 1\nid = \"vocab:names\"\nkind = \"vocabulary\"\ntitle = \"Say \\\"hi\\\"\"\n\nterms = []\n"
    );
    assert_eq!(plan.files[0].existing, ExistingFile::Keep);
    let err = create_local_schema(
        "/w",
        &LocalSchemaOptions {
            schema_slug: "a/b".to_string(),
            title: String::new(),
            kind: LocalSchemaKind::Component,
            force: false,
        },
    )
    .expect_err("slash");
    assert_eq!(
        err.display(),
        "local data validation failed: schema slug `a/b` may not contain whitespace, slashes, or colons"
    );
}

#[test]
fn creates_import_report() {
    let plan = create_local_import_report(
        "/w",
        &LocalImportReportOptions {
            import_slug: "family".to_string(),
            kind: LocalImportKind::Gedcom,
            title: "Family".to_string(),
            source_path: Some("imports/gedcom/family.ged".to_string()),
            force: false,
        },
    )
    .expect("report");
    assert_eq!(plan.files[0].path, "/w/imports/gedcom/family-report.toml");
    let text = text_of(&plan, 0);
    assert!(text.contains("id = \"import:gedcom:family\"\nkind = \"gedcom-import-report\""));
    assert!(text.contains("source_path = \"imports/gedcom/family.ged\"\nstrategy = \"link\""));
}

#[test]
fn creates_world_owned_views() {
    let plan = create_local_view(
        "/w",
        &LocalViewOptions {
            view_slug: "life".to_string(),
            title: "Life".to_string(),
            kind: LocalViewKind::Timeline,
            subject: Some("person:ada".to_string()),
            force: false,
        },
    )
    .expect("view");
    assert_eq!(plan.files[0].path, "/w/views/timelines/life.toml");
    assert!(text_of(&plan, 0).contains("kind = \"timeline-view\"\ntitle = \"Life\"\n\n[subject]\nentity = \"person:ada\"\n[filter]"));
    let map = create_local_view(
        "/w",
        &LocalViewOptions {
            view_slug: "places".to_string(),
            title: "Places".to_string(),
            kind: LocalViewKind::MapView,
            subject: None,
            force: true,
        },
    )
    .expect("map");
    assert_eq!(map.files[0].path, "/w/views/maps/places.toml");
    assert!(text_of(&map, 0).ends_with("title = \"Places\"\n\n[filter]\nplace_kinds = []\nevent_kinds = []\n\n[display]\nshow_labels = true\nshow_event_markers = true\n"));
    assert_eq!(LocalViewKind::Calendar.kind_value(), "calendar-view");
}

#[test]
fn creates_world_owned_records() {
    let place = create_local_entity(
        "/w",
        &LocalEntityOptions {
            slug: "example-place".to_string(),
            title: "Example Place".to_string(),
            kind: LocalEntityKind::Place,
            force: false,
        },
    )
    .expect("place");
    assert_eq!(place.files[0].path, "/w/entities/places/example-place.md");
    assert!(text_of(&place, 0).starts_with("+++\nschema_version = 1\nid = \"place:example-place\"\nkind = \"place\""));

    let event = create_local_event(
        "/w",
        &LocalEventOptions {
            event_slug: "example-observation".to_string(),
            event_type: "observation".to_string(),
            title: Some("Example Observation".to_string()),
            subject: None,
            participants: Vec::new(),
            places: Vec::new(),
            location: None,
            latitude: None,
            longitude: None,
            time: None,
            date_precision: None,
            sources: Vec::new(),
            force: false,
        },
    )
    .expect("event");
    assert_eq!(event.files[0].path, "/w/events/observations/example-observation.md");
    let event_text = text_of(&event, 0);
    assert!(event_text.contains("kind = \"event\""));
    assert!(event_text.contains("type = \"observation\""));
    assert!(event_text.contains("title = \"Example Observation\""));
    assert!(!event_text.contains("participants ="));
    assert!(event_text.contains("places = []"));

    let event_with_details = create_local_event(
        "/w",
        &LocalEventOptions {
            event_slug: "birth-example-person".to_string(),
            event_type: "birth".to_string(),
            title: None,
            subject: None,
            participants: vec!["example-person".to_string()],
            places: vec!["example-place".to_string()],
            location: Some("Example Town".to_string()),
            latitude: Some(12.345f64.to_string()),
            longitude: Some((-67.89f64).to_string()),
            time: Some("1900-01-01 07:18".to_string()),
            date_precision: None,
            sources: vec!["example-source".to_string()],
            force: false,
        },
    )
    .expect("detailed event");
    assert_eq!(event_with_details.files[0].path, "/w/events/births/birth-example-person.md");
    let event_with_details_text = text_of(&event_with_details, 0);
    assert!(event_with_details_text.contains("type = \"birth\""));
    assert!(event_with_details_text.contains("time = \"1900-01-01 07:18\""));
    assert!(event_with_details_text.contains("date_precision = \"minute\""));
    assert!(event_with_details_text.contains("participants = ["));
    assert!(event_with_details_text.contains("\"example-person\""));
    assert!(event_with_details_text.contains("places = ["));
    assert!(event_with_details_text.contains("\"example-place\""));
    assert!(event_with_details_text.contains("sources = ["));
    assert!(event_with_details_text.contains("\"example-source\""));
    assert!(event_with_details_text.contains("[location]"));
    assert!(event_with_details_text.contains("label = \"Example Town\""));
    assert!(event_with_details_text.contains("latitude = 12.345"));
    assert!(event_with_details_text.contains("longitude = -67.89"));
    assert!(!event_with_details_text.contains("title ="));

    let source = create_local_source(
        "/w",
        &LocalSourceOptions {
            source_slug: "example-source".to_string(),
            title: "Example Source".to_string(),
            source_kind: "note".to_string(),
            force: false,
        },
    )
    .expect("source");
    assert_eq!(source.files[0].path, "/w/sources/example-source.md");

    let relationship = create_local_relationship(
        "/w",
        &LocalRelationshipOptions {
            relationship_slug: "example-association".to_string(),
            title: Some("Example association".to_string()),
            relationship_kind: "associate".to_string(),
            parent_role: None,
            source: "person:example-person".to_string(),
            target: "person:example-person".to_string(),
            sources: vec!["source:example-source".to_string()],
            force: false,
        },
    )
    .expect("relationship");
    assert_eq!(
        text_of(&relationship, 0),
        "schema_version = 1\nrelationship = \"associate\"\nsource = \"person:example-person\"\ntarget = \"person:example-person\"\nsources = [\"source:example-source\"]\ntitle = \"Example association\"\n"
    );

    let assertion = create_local_assertion(
        "/w",
        &LocalAssertionOptions {
            assertion_slug: "example-claim".to_string(),
            assertion_kind: "identity".to_string(),
            target: "person:example-person#name".to_string(),
            value: Some("Example Person".to_string()),
            sources: vec!["example-source".to_string()],
            confidence: None,
            note: None,
            force: false,
        },
    )
    .expect("assertion");
    let text = text_of(&assertion, 0);
    assert!(text.contains("value = \"Example Person\"\nsources = [\n  \"example-source\",\n]\nconfidence = \"medium\"\n+++"));

    let err = create_local_assertion(
        "/w",
        &LocalAssertionOptions {
            assertion_slug: "x".to_string(),
            assertion_kind: "identity".to_string(),
            target: "bad target#name".to_string(),
            value: None,
            sources: Vec::new(),
            confidence: None,
            note: None,
            force: false,
        },
    )
    .expect_err("target with space");
    assert_eq!(
        err.display(),
        "local data validation failed: assertion target `bad target` may not contain whitespace"
    );
}

#[test]
fn toml_arrays_and_targets() {
    assert_eq!(toml_string_array(&vec![]), "[]");
    assert_eq!(toml_string_array(&vec!["a".to_string(), "b\"".to_string()]), "[\"a\", \"b\\\"\"]");
    assert_eq!(toml_multiline_string_array(&vec![]), "[]");
    assert_eq!(toml_multiline_string_array(&vec!["a".to_string()]), "[\n  \"a\",\n]");
    assert_eq!(target_base_id("person:x#name#more"), "person:x");
    assert_eq!(target_base_id("person:x"), "person:x");
}

#[test]
fn contextual_ids_and_slugs() {
    assert_eq!(normalize_contextual_id("  ada ", "person"), "person:ada");
    assert_eq!(normalize_contextual_id(" place:x ", "person"), "place:x");
    assert_eq!(normalize_person_id("bob"), "person:bob");
    assert!(validate_contextual_id("person:ada", "id").is_ok());
    assert!(validate_contextual_id("ada", "id").is_ok());
    assert_eq!(
        validate_contextual_id("person:", "participant").unwrap_err().display(),
        "local data validation failed: participant `person:` may not contain whitespace, slashes, or empty id parts"
    );
    assert!(validate_contextual_id("a:b:c", "id").is_err());
    assert_eq!(
        validate_slug("  ", "person slug").unwrap_err().display(),
        "local data validation failed: person slug cannot be empty"
    );
}

#[test]
fn planned_files_follow_their_existing_file_rule() {
    let plan = create_local_collection(
        "/w",
        &LocalCollectionOptions {
            collection_slug: "c".to_string(),
            title: "C".to_string(),
            kind: LocalCollectionKind::Unordered,
            order: LocalCollectionOrder::Chronological,
            members: Vec::new(),
            force: false,
        },
    )
    .unwrap();
    let err = decide_write("/w", &plan.files[0], true).unwrap_err();
    assert_eq!(
        err.display(),
        "local data validation failed: collections/c.toml already exists; pass force/--force to overwrite"
    );
    assert_eq!(decide_write("/w", &plan.files[0], false), Ok(true));
    assert_eq!(display_path("/w/", "/w/a/b"), "a/b");
    assert_eq!(display_path("/w", "/x/a"), "/x/a");
    assert_eq!(display_path("/w", "/w"), "");
}

fn event_options(slug: &str, kind: &str) -> LocalEventOptions {
    LocalEventOptions {
        event_slug: slug.to_string(),
        event_type: kind.to_string(),
        title: None,
        subject: None,
        participants: Vec::new(),
        places: Vec::new(),
        location: None,
        latitude: None,
        longitude: None,
        time: None,
        date_precision: None,
        sources: Vec::new(),
        force: false,
    }
}

#[test]
fn event_record_text_is_exact() {
    let mut options = event_options("move", "migration");
    options.title = Some("  ".to_string());
    options.subject = Some("person:ada".to_string());
    options.location = Some("Port \"A\"".to_string());
    options.time = Some("1901-05".to_string());
    let plan = create_local_event("/w", &options).expect("event");
    assert_eq!(plan.dirs, vec!["/w/events/migrations".to_string()]);
    assert_eq!(
        text_of(&plan, 0),
        "+++\nschema_version = 1\nid = \"event:move\"\nkind = \"event\"\ntype = \"migration\"\ntime = \"1901-05\"\ndate_precision = \"month\"\nsubject = \"person:ada\"\nplaces = []\nassertions = []\nsources = []\nlocation = \"Port \\\"A\\\"\"\n+++\n\n#   \n\n## Notes\n\nDescribe what happened, what is known, and what is uncertain.\n\n## Evidence\n\nList source notes, transcriptions, or follow-up tasks here. Use `sources` and\n`assertions` in the frontmatter for structured evidence links.\n"
    );
}

#[test]
fn event_options_are_checked_in_order() {
    let mut options = event_options("x", "birth");
    options.latitude = Some("1.5".to_string());
    let err = create_local_event("/w", &options).expect_err("latitude alone");
    assert_eq!(
        err.display(),
        "local data validation failed: event latitude and longitude must be provided together"
    );
    let mut options = event_options("x", "bad type");
    options.participants = vec!["bad person".to_string()];
    let err = create_local_event("/w", &options).expect_err("type");
    assert!(err.display().contains("event type `bad type`"));
    let mut options = event_options("x", "birth");
    options.places = vec!["a place".to_string()];
    let err = create_local_event("/w", &options).expect_err("place");
    assert!(err.display().contains("event place"));
    let mut options = event_options("x", "birth");
    options.latitude = Some("1".to_string());
    options.longitude = Some("2".to_string());
    let plan = create_local_event("/w", &options).expect("coordinates only");
    assert!(text_of(&plan, 0).contains("[location]\nlatitude = 1\nlongitude = 2\n+++"));
    assert_eq!(create_local_event("/w", &event_options("x", "custom")).expect("other").dirs, vec!["/w/events/other".to_string()]);
}

#[test]
fn date_precision_is_inferred_from_the_time() {
    assert_eq!(infer_date_precision("1900-01-01 07:18"), "minute");
    assert_eq!(infer_date_precision("1900-01-01"), "day");
    assert_eq!(infer_date_precision("1900-01"), "month");
    assert_eq!(infer_date_precision("1900"), "year");
    assert_eq!(infer_date_precision("  "), "unknown");
}
