use kleio::local_authoring::views::{local_view_summaries, LocalViewKind};
use kleio::local_authoring::data::{JsonValue, LocalDataBundle, LocalMarkdownRecord, LocalTomlDocument};
use kleio::local_authoring::read::{
    markdown_record_from_frontmatter, split_toml_frontmatter, toml_document_from_parts,
};
use kleio::local_authoring::summary::{
    doctor_local_data_bundle, file_references, media_report, summarize_local_data_bundle,
    LocalMediaCheckReport, LocalWorldDiagnosticKind, LocalWorldSummaryWarningKind,
};
use kleio::local_authoring::error::LocalAuthoringError;

fn text(s: &str) -> JsonValue {
    JsonValue::Str(s.to_string())
}

fn obj(entries: Vec<(&str, JsonValue)>) -> JsonValue {
    JsonValue::Object(entries.into_iter().map(|(k, v)| (k.to_string(), v)).collect())
}

fn entries(items: Vec<(&str, JsonValue)>) -> Vec<(String, JsonValue)> {
    items.into_iter().map(|(k, v)| (k.to_string(), v)).collect()
}

/// A record read the way a world's files are read.
fn record(path: &str, frontmatter: Vec<(&str, JsonValue)>) -> LocalMarkdownRecord {
    markdown_record_from_frontmatter(path, path, entries(frontmatter), "# Body\n").expect("record")
}

fn document(path: &str, data: Vec<(&str, JsonValue)>) -> LocalTomlDocument {
    let value = obj(data);
    let field = |key: &str| match value.get(key) {
        Some(JsonValue::Str(s)) => Some(s.clone()),
        _ => None,
    };
    let (id, kind, title) = (field("id"), field("kind"), field("title"));
    toml_document_from_parts(path, id, kind, title, value)
}

fn bundle(records: Vec<LocalMarkdownRecord>, documents: Vec<LocalTomlDocument>) -> LocalDataBundle {
    LocalDataBundle {
        schema_version: 1,
        compiler: "kleio-local-authoring/0.1.0".to_string(),
        source_root: "world".to_string(),
        markdown_records: records,
        toml_documents: documents,
    }
}

/// The media report of a bundle where exactly the files in `present` exist.
fn media(b: &LocalDataBundle, present: &[&str]) -> LocalMediaCheckReport {
    let refs = file_references(b);
    let exists: Vec<bool> = refs.iter().map(|(p, _)| present.contains(&p.as_str())).collect();
    media_report(refs, &exists)
}

fn standard_world() -> LocalDataBundle {
    bundle(
        vec![
            record(
                "entities/people/alex-example.md",
                vec![("id", text("person:alex-example")), ("kind", text("person")), ("title", text("Alex Example"))],
            ),
            record(
                "events/births/birth-alex-example.md",
                vec![
                    ("id", text("event:birth-alex-example")),
                    ("kind", text("event")),
                    ("title", text("Birth of Alex Example")),
                    ("type", text("birth")),
                    ("date", text("1900-01-01")),
                    (
                        "participants",
                        JsonValue::Array(vec![obj(vec![
                            ("entity", text("person:alex-example")),
                            ("role", text("subject")),
                        ])]),
                    ),
                    ("sources", JsonValue::Array(vec![text("source:personal-knowledge")])),
                ],
            ),
            record(
                "sources/personal-knowledge.md",
                vec![("id", text("source:personal-knowledge")), ("kind", text("note")), ("title", text("Personal knowledge"))],
            ),
        ],
        vec![
            document("views/timelines/example-life.toml", vec![("id", text("timeline:example-life")), ("kind", text("timeline-view"))]),
            document("views/trees/family.toml", vec![("id", text("tree:family")), ("kind", text("tree-view"))]),
            document(
                "world.toml",
                vec![("id", text("world:default")), ("slug", text("default")), ("title", text("Default World"))],
            ),
        ],
    )
}

#[test]
fn summary_counts_records_of_a_standard_world() {
    let b = standard_world();
    let summary = summarize_local_data_bundle(&b, &media(&b, &[]));
    assert_eq!(summary.world_id.as_deref(), Some("world:default"));
    assert_eq!(summary.world_title.as_deref(), Some("Default World"));
    assert_eq!(summary.counts.people, 1);
    assert_eq!(summary.counts.events, 1);
    assert_eq!(summary.counts.events_by_type, vec![("birth".to_string(), 1)]);
    assert_eq!(summary.counts.sources, 1);
    assert_eq!(summary.counts.timeline_views, 1);
    assert_eq!(summary.counts.tree_views, 1);
    assert!(summary.warnings.is_empty(), "{:?}", summary.warnings);
}

#[test]
fn events_without_type_are_counted_as_unknown() {
    let b = bundle(
        vec![
            record("records/a.md", vec![("id", text("event:a")), ("kind", text("event"))]),
            record("records/b.md", vec![("id", text("event:b")), ("kind", text("event")), ("type", text("death"))]),
            record("records/c.md", vec![("id", text("event:c")), ("kind", text("event"))]),
        ],
        vec![],
    );
    let summary = summarize_local_data_bundle(&b, &media(&b, &[]));
    assert_eq!(
        summary.counts.events_by_type,
        vec![("death".to_string(), 1), ("unknown".to_string(), 2)]
    );
}

#[test]
fn inline_assertion_sources_count_as_event_sources_in_a_bundle() {
    let b = bundle(
        vec![record(
            "events/births/birth-alex-example.md",
            vec![
                ("id", text("event:birth-alex-example")),
                ("kind", text("event")),
                ("type", text("birth")),
                ("subject", text("alex-example")),
                ("time", text("1900-01-01")),
                (
                    "assertions",
                    JsonValue::Array(vec![obj(vec![
                        ("target", text("#date")),
                        ("sources", JsonValue::Array(vec![text("personal-knowledge")])),
                    ])]),
                ),
            ],
        )],
        vec![],
    );
    let report = doctor_local_data_bundle(&b, &media(&b, &[]));
    assert!(!report.diagnostics.iter().any(|d| d.kind == LocalWorldDiagnosticKind::EventMissingSource));
}

#[test]
fn reports_attention_items_and_missing_files() {
    let b = bundle(
        vec![
            record(
                "entities/people/alex-example.md",
                vec![("id", text("person:alex-example")), ("kind", text("person")), ("preferred_name", text("Alex Example"))],
            ),
            record(
                "events/observations/example.md",
                vec![
                    ("id", text("event:example")),
                    ("kind", text("event")),
                    ("type", text("observation")),
                    ("participants", JsonValue::Array(vec![text("person:alex-example")])),
                    (
                        "sources",
                        JsonValue::Array(vec![obj(vec![
                            ("label", text("Missing scan")),
                            ("file", text("media/sources/missing.jpg")),
                        ])]),
                    ),
                ],
            ),
        ],
        vec![document(
            "relationships/example.toml",
            vec![
                ("id", text("relationship:example")),
                ("kind", text("relationship")),
                ("title", text("Example")),
                ("relationship", text("associate")),
                ("source", text("person:alex-example")),
                ("target", text("person:alex-example")),
            ],
        )],
    );
    let summary = summarize_local_data_bundle(&b, &media(&b, &[]));
    let kinds: Vec<_> = summary.warnings.iter().map(|w| w.kind).collect();
    assert!(kinds.contains(&LocalWorldSummaryWarningKind::PersonMissingBirthEvent));
    assert!(kinds.contains(&LocalWorldSummaryWarningKind::EventMissingTime));
    assert!(kinds.contains(&LocalWorldSummaryWarningKind::RelationshipMissingSource));
    assert!(kinds.contains(&LocalWorldSummaryWarningKind::ReferencedFileMissing));
    assert!(!kinds.contains(&LocalWorldSummaryWarningKind::EventMissingSource));
    let missing = summary
        .warnings
        .iter()
        .find(|w| w.kind == LocalWorldSummaryWarningKind::ReferencedFileMissing)
        .expect("missing file warning");
    assert_eq!(missing.message, "referenced file `media/sources/missing.jpg` does not exist");
    let relationship = summary
        .warnings
        .iter()
        .find(|w| w.kind == LocalWorldSummaryWarningKind::RelationshipMissingSource)
        .expect("relationship warning");
    assert_eq!(relationship.message, "Example does not reference a source");
    assert_eq!(relationship.record_id, "relationship:example");
}

#[test]
fn media_report_counts_present_and_missing_files() {
    let b = bundle(
        vec![record(
            "events/observations/example.md",
            vec![
                ("id", text("event:example")),
                ("kind", text("event")),
                (
                    "sources",
                    JsonValue::Array(vec![
                        obj(vec![("label", text("Present scan")), ("file", text("media/sources/present.jpg"))]),
                        obj(vec![("label", text("Missing scan")), ("file", text(" media/sources/missing.jpg "))]),
                        obj(vec![("label", text("Link")), ("url", text("https://example.org")), ("path", text("https://example.org/x"))]),
                    ]),
                ),
            ],
        )],
        vec![],
    );
    let report = media(&b, &["media/sources/present.jpg"]);
    assert_eq!(report.referenced_files(), 2);
    assert_eq!(report.present_files(), 1);
    assert_eq!(report.missing_files(), 1);
    assert_eq!(report.references[0].path, "media/sources/missing.jpg");
    assert!(!report.references[0].exists);
    assert_eq!(report.references[0].referenced_by, vec!["events/observations/example.md".to_string()]);
    assert_eq!(report.references[1].path, "media/sources/present.jpg");
    assert!(report.references[1].exists);
}

#[test]
fn file_references_are_sorted_and_merged_by_file() {
    let b = bundle(
        vec![
            record("events/b.md", vec![("id", text("event:b")), ("kind", text("event")), ("scan", obj(vec![("path", text("media/z.jpg"))]))]),
            record(
                "events/a.md",
                vec![
                    ("id", text("event:a")),
                    ("kind", text("event")),
                    ("media", JsonValue::Array(vec![obj(vec![("file", text("media/z.jpg"))]), obj(vec![("file", text("/abs.jpg"))]), obj(vec![("file", text("#anchor"))]), obj(vec![("file", text("worlds/other/x.jpg"))])])),
                ],
            ),
        ],
        vec![document("collections/c.toml", vec![("kind", text("event-collection")), ("cover", obj(vec![("file", text("media/a.jpg"))]))])],
    );
    let refs = file_references(&b);
    assert_eq!(
        refs,
        vec![
            ("media/a.jpg".to_string(), vec!["collections/c.toml".to_string()]),
            ("media/z.jpg".to_string(), vec!["events/a.md".to_string(), "events/b.md".to_string()]),
        ]
    );
}

#[test]
fn doctor_reports_missing_name_birth_event_and_participants() {
    let b = bundle(
        vec![
            record("records/unnamed.md", vec![("id", text("person:unnamed")), ("kind", text("person"))]),
            record(
                "events/observations/no-participant.md",
                vec![
                    ("id", text("event:no-participant")),
                    ("kind", text("event")),
                    ("type", text("observation")),
                    ("time", text("1900-01-01")),
                    ("sources", JsonValue::Array(vec![obj(vec![("label", text("Personal note"))])])),
                ],
            ),
        ],
        vec![],
    );
    let report = doctor_local_data_bundle(&b, &media(&b, &[]));
    let kinds: Vec<_> = report.diagnostics.iter().map(|d| d.kind).collect();
    assert_eq!(
        kinds,
        vec![
            LocalWorldDiagnosticKind::RecordUnexpectedPath,
            LocalWorldDiagnosticKind::PersonMissingName,
            LocalWorldDiagnosticKind::PersonMissingBirthEvent,
            LocalWorldDiagnosticKind::EventMissingParticipant,
        ]
    );
    assert_eq!(report.diagnostics[0].message, "person:unnamed has kind `person` but is outside `entities/people/`");
    assert_eq!(report.diagnostics[1].message, "person:unnamed does not have a primary name or title");
    assert_eq!(report.diagnostics[2].message, "person:unnamed does not have a birth event");
    assert_eq!(report.diagnostics[3].message, "event:no-participant has no participants");
}

fn parent_child_world(parent_born: &str, child_born: &str) -> LocalDataBundle {
    bundle(
        vec![
            record(
                "entities/people/parent.md",
                vec![("id", text("person:parent")), ("kind", text("person")), ("preferred_name", text("Parent Example")), ("birth_date", text(parent_born))],
            ),
            record(
                "entities/people/child.md",
                vec![("id", text("person:child")), ("kind", text("person")), ("preferred_name", text("Child Example")), ("birth_date", text(child_born))],
            ),
        ],
        vec![document(
            "relationships/too-close.toml",
            vec![
                ("id", text("relationship:too-close")),
                ("kind", text("relationship")),
                ("relationship", text("biological-parent-child")),
                ("source", text("person:parent")),
                ("target", text("person:child")),
                ("sources", JsonValue::Array(vec![text("source:x")])),
            ],
        )],
    )
}

#[test]
fn doctor_reports_small_parent_child_age_gap() {
    let b = parent_child_world("1900-01-01", "1908-01-01");
    let report = doctor_local_data_bundle(&b, &media(&b, &[]));
    let d = report
        .diagnostics
        .iter()
        .find(|d| d.kind == LocalWorldDiagnosticKind::SuspiciousParentChildDirection)
        .expect("timing diagnostic");
    assert_eq!(d.record_id, "relationship:too-close");
    assert_eq!(
        d.message,
        "relationship:too-close has parent-child timing that looks suspicious: source `person:parent` was born in 1900, target `person:child` was born in 1908"
    );
}

#[test]
fn doctor_accepts_a_twelve_year_gap_and_reports_reversed_ones() {
    let ok = parent_child_world("1900", "1912-05");
    let report = doctor_local_data_bundle(&ok, &media(&ok, &[]));
    assert!(!report.diagnostics.iter().any(|d| d.kind == LocalWorldDiagnosticKind::SuspiciousParentChildDirection));
    let reversed = parent_child_world("1930-01-01", "1900-01-01");
    let report = doctor_local_data_bundle(&reversed, &media(&reversed, &[]));
    assert!(report.diagnostics.iter().any(|d| d.kind == LocalWorldDiagnosticKind::SuspiciousParentChildDirection));
}

#[test]
fn doctor_reports_possible_duplicates_by_normalized_name() {
    let b = bundle(
        vec![
            record("entities/people/alex-one.md", vec![("id", text("person:alex-one")), ("kind", text("person")), ("preferred_name", text("Alex  Example"))]),
            record("entities/people/zed.md", vec![("id", text("person:zed")), ("kind", text("person")), ("title", text("Zed Person"))]),
            record("entities/people/alex-two.md", vec![("id", text("person:alex-two")), ("kind", text("person")), ("preferred_name", text("ALEX example"))]),
        ],
        vec![],
    );
    let report = doctor_local_data_bundle(&b, &media(&b, &[]));
    let dups: Vec<_> = report
        .diagnostics
        .iter()
        .filter(|d| d.kind == LocalWorldDiagnosticKind::PossibleDuplicatePerson)
        .collect();
    assert_eq!(dups.len(), 2);
    assert_eq!(dups[0].record_id, "person:alex-one");
    assert_eq!(dups[1].record_id, "person:alex-two");
    assert_eq!(
        dups[0].message,
        "person:alex-one may duplicate another person with the same name: person:alex-one, person:alex-two"
    );
}

#[test]
fn doctor_reports_records_outside_their_directories() {
    let b = bundle(
        vec![record("records/alex-example.md", vec![("id", text("person:alex-example")), ("kind", text("person")), ("title", text("Alex"))])],
        vec![document("misc/rel.toml", vec![("kind", text("relationship")), ("sources", JsonValue::Array(vec![text("s")]))])],
    );
    let report = doctor_local_data_bundle(&b, &media(&b, &[]));
    let paths: Vec<_> = report
        .diagnostics
        .iter()
        .filter(|d| d.kind == LocalWorldDiagnosticKind::RecordUnexpectedPath)
        .map(|d| d.message.clone())
        .collect();
    assert_eq!(
        paths,
        vec![
            "person:alex-example has kind `person` but is outside `entities/people/`".to_string(),
            "misc/rel.toml has kind `relationship` but is outside `relationships/`".to_string(),
        ]
    );
}

#[test]
fn splits_toml_frontmatter_from_body() {
    let (front, body) = split_toml_frontmatter("x.md", "+++\nid = \"a\"\n+++\n\n# Body\n").expect("split");
    assert_eq!(front, "id = \"a\"");
    assert_eq!(body, "\n# Body\n");
    let (front, body) = split_toml_frontmatter("x.md", "+++\r\nid = 1\n+++\r\nrest").expect("split crlf");
    assert_eq!(front, "id = 1");
    assert_eq!(body, "rest");
}

#[test]
fn rejects_markdown_without_frontmatter() {
    match split_toml_frontmatter("x.md", "# Title\n") {
        Err(LocalAuthoringError::InvalidMarkdown { path, message }) => {
            assert_eq!(path, "x.md");
            assert_eq!(message, "expected TOML frontmatter delimited by +++");
        }
        other => panic!("unexpected {other:?}"),
    }
    match split_toml_frontmatter("x.md", "+++\nid = 1\n") {
        Err(LocalAuthoringError::InvalidMarkdown { message, .. }) => {
            assert_eq!(message, "missing closing +++ frontmatter delimiter");
        }
        other => panic!("unexpected {other:?}"),
    }
}

#[test]
fn record_fields_are_taken_from_frontmatter() {
    let r = markdown_record_from_frontmatter(
        "notes/a.md",
        "/w/notes/a.md",
        entries(vec![
            ("id", text("note:a")),
            ("kind", text("note")),
            ("tags", JsonValue::Array(vec![text("x"), text("y")])),
            ("mood", text("calm")),
        ]),
        "\n  # A  \n",
    )
    .expect("record");
    assert_eq!(r.id, "note:a");
    assert_eq!(r.kind, "note");
    assert_eq!(r.tags, vec!["x".to_string(), "y".to_string()]);
    assert_eq!(r.notes_markdown, "# A");
    assert_eq!(r.attributes, vec![("mood".to_string(), text("calm"))]);
    assert_eq!(r.attr("mood"), Some(&text("calm")));
}

#[test]
fn record_frontmatter_errors_name_the_field() {
    let missing = markdown_record_from_frontmatter("a.md", "/w/a.md", entries(vec![("kind", text("note"))]), "");
    match missing {
        Err(LocalAuthoringError::InvalidMarkdown { path, message }) => {
            assert_eq!(path, "/w/a.md");
            assert_eq!(message, "missing required `id` frontmatter field");
        }
        other => panic!("unexpected {other:?}"),
    }
    let wrong = markdown_record_from_frontmatter(
        "a.md",
        "/w/a.md",
        entries(vec![("id", text("a")), ("kind", text("note")), ("tags", JsonValue::Array(vec![JsonValue::Bool(true)]))]),
        "",
    );
    match wrong {
        Err(LocalAuthoringError::InvalidMarkdown { message, .. }) => {
            assert_eq!(message, "`tags` must contain only strings");
        }
        other => panic!("unexpected {other:?}"),
    }
    let number = markdown_record_from_frontmatter(
        "a.md",
        "/w/a.md",
        entries(vec![("id", JsonValue::Number("7".to_string())), ("kind", text("note"))]),
        "",
    );
    match number {
        Err(LocalAuthoringError::InvalidMarkdown { message, .. }) => {
            assert_eq!(message, "`id` must be a string or TOML date/time value");
        }
        other => panic!("unexpected {other:?}"),
    }
}

#[test]
fn person_file_name_gives_legal_and_preferred_names() {
    let r = record(
        "entities/people/john-quincy-smith.md",
        vec![("id", text("person:john-quincy-smith")), ("kind", text("person")), ("preferred_name", text("Quincy"))],
    );
    let names = r.attr("names").expect("names");
    let legal = names.get("legal").expect("legal");
    assert_eq!(legal.get("full"), Some(&text("John Quincy Smith")));
    assert_eq!(legal.get("given"), Some(&text("John")));
    assert_eq!(legal.get("middle"), Some(&text("Quincy")));
    assert_eq!(legal.get("family"), Some(&text("Smith")));
    let preferred = names.get("preferred").expect("preferred");
    assert_eq!(preferred.get("full"), Some(&text("Quincy Smith")));
    assert_eq!(preferred.get("given"), Some(&text("Quincy")));
    assert_eq!(preferred.get("family"), Some(&text("Smith")));
    assert_eq!(preferred.get("middle"), None);
    assert_eq!(r.attr("preferred_name"), None);
}

#[test]
fn explicit_name_tables_are_kept() {
    let r = record(
        "entities/people/wang-xiaoming.md",
        vec![
            ("id", text("person:wang-xiaoming")),
            ("kind", text("person")),
            ("names", obj(vec![("preferred", obj(vec![("given", text("Xiaoming")), ("family", text("Wang"))]))])),
        ],
    );
    let names = r.attr("names").expect("names");
    assert_eq!(names.get("preferred").and_then(|p| p.get("given")), Some(&text("Xiaoming")));
    assert_eq!(names.get("legal").and_then(|p| p.get("full")), Some(&text("Wang Xiaoming")));
}

#[test]
fn toml_documents_under_relationships_get_an_id_and_kind() {
    let d = toml_document_from_parts("relationships/ada-byron.toml", None, None, None, obj(vec![]));
    assert_eq!(d.id.as_deref(), Some("relationship:ada-byron"));
    assert_eq!(d.kind.as_deref(), Some("relationship"));
    let d = toml_document_from_parts("relationships-old/x.toml", None, None, Some("T".to_string()), obj(vec![]));
    assert_eq!(d.id, None);
    assert_eq!(d.kind, None);
    assert_eq!(d.title.as_deref(), Some("T"));
}

#[test]
fn json_integers_read_as_i64() {
    assert_eq!(JsonValue::Number("1990".to_string()).as_i64(), Some(1990));
    assert_eq!(JsonValue::Number("-42".to_string()).as_i64(), Some(-42));
    assert_eq!(JsonValue::Number("-9223372036854775808".to_string()).as_i64(), Some(i64::MIN));
    assert_eq!(JsonValue::Number("9223372036854775808".to_string()).as_i64(), None);
    assert_eq!(JsonValue::Number("1.5".to_string()).as_i64(), None);
    assert_eq!(text("12").as_i64(), None);
}

#[test]
fn birth_year_falls_back_to_birth_year_attribute() {
    let b = bundle(
        vec![
            record("entities/people/p.md", vec![("id", text("person:p")), ("kind", text("person")), ("title", text("P")), ("birth_year", JsonValue::Number("1950".to_string()))]),
            record("entities/people/c.md", vec![("id", text("person:c")), ("kind", text("person")), ("title", text("C")), ("birth_date", text("about 1960")), ("birth_year", JsonValue::Number("1955".to_string()))]),
        ],
        vec![document(
            "relationships/pc.toml",
            vec![("relationship_kind", text("adoptive-parent-child")), ("source", text("p")), ("target", text("c")), ("sources", JsonValue::Array(vec![text("s")]))],
        )],
    );
    let report = doctor_local_data_bundle(&b, &media(&b, &[]));
    let d = report
        .diagnostics
        .iter()
        .find(|d| d.kind == LocalWorldDiagnosticKind::SuspiciousParentChildDirection)
        .expect("timing diagnostic");
    assert_eq!(d.record_id, "relationship:pc");
    assert!(d.message.ends_with("was born in 1950, target `person:c` was born in 1955"), "{}", d.message);
}

#[test]
fn view_summaries_are_filtered_by_kind_and_sorted_by_path() {
    let b = bundle(
        vec![],
        vec![
            document("views/trees/main.toml", vec![("id", text("tree:main")), ("kind", text("tree-view")), ("title", text("Main"))]),
            document("views/timelines/life.toml", vec![("id", text("timeline:life")), ("kind", text("timeline-view"))]),
            document("relationships/a.toml", vec![("kind", text("relationship"))]),
            document("views/maps/places.toml", vec![("kind", text("map-view"))]),
        ],
    );
    let all = local_view_summaries(&b, None);
    let paths: Vec<&str> = all.iter().map(|v| v.path.as_str()).collect();
    assert_eq!(paths, vec!["views/maps/places.toml", "views/timelines/life.toml", "views/trees/main.toml"]);
    assert_eq!(all[2].id.as_deref(), Some("tree:main"));
    assert_eq!(all[2].title.as_deref(), Some("Main"));
    assert_eq!(all[0].id, None);
    let trees = local_view_summaries(&b, Some(LocalViewKind::Tree));
    assert_eq!(trees.len(), 1);
    assert_eq!(trees[0].kind, "tree-view");
    assert!(local_view_summaries(&b, Some(LocalViewKind::Calendar)).is_empty());
}
