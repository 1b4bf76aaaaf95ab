use kleio::event::TimeSpec;
use kleio::pack_json::import_event_pack_json;
use kleio::pack_toml::import_event_pack_toml;
use kleio::event::{EventCollection, EventCollectionId, EventCollectionKind, EventCollectionMember, EventTypeId, TimelineEvent};
use kleio::import_batch::ImportSourceKind;
use kleio::model::EventId;
use kleio::pack::{EventPack, PackId, PackKind, PackMetadata};
use kleio::pack_import::{import_batch_from_event_pack, stable_import_key};

#[test]
fn import_batch_from_pack_extracts_all_candidate_kinds() {
    let mut pack = EventPack::empty(
        PackMetadata::new(PackId::new("pack:test"), "Test Pack"),
        PackKind::HistoricalTimeline,
    );
    pack.events.push(TimelineEvent::new(
        EventId(1),
        EventTypeId::new("history.event"),
        "Event",
    ));
    pack.event_collections.push(
        EventCollection::new(
            EventCollectionId::new("collection:test"),
            "Test Collection",
            EventCollectionKind::Unordered,
        )
        .with_member(EventCollectionMember::new(EventId(1))),
    );
    let collection_refs = pack.event_collections_for_event(EventId(1));
    assert_eq!(collection_refs.len(), 1);
    assert_eq!(collection_refs[0].id.as_str(), "collection:test");

    let batch = import_batch_from_event_pack(
        "test pack.json",
        ImportSourceKind::Json,
        "record:json:0",
        Some("{}".to_string()),
        &pack,
    );

    assert_eq!(batch.id.as_str(), "import:json:test-pack-json");
    assert_eq!(batch.records.len(), 1);
    assert_eq!(batch.accepted_count(), 2);
}

#[test]
fn stable_import_key_uses_safe_fallback() {
    assert_eq!(stable_import_key("Journal Pack.json"), "journal-pack-json");
    assert_eq!(stable_import_key("---"), "event-pack");
}

// The JSON and TOML texts below stand for what the application serialises;
// the library keeps the text as the import record and imports the parsed pack.

fn journal_pack(with_time: bool) -> EventPack {
    let mut pack = EventPack::empty(
        PackMetadata::new(PackId::new("pack:journal"), "Journal Pack"),
        PackKind::UserJournal,
    );
    let event = TimelineEvent::new(EventId(1), EventTypeId::new("journal.entry"), "First entry");
    pack.events.push(if with_time {
        event.with_time(TimeSpec::OriginalOnly { original: "2026-07-06".to_string() })
    } else {
        event
    });
    pack
}

#[test]
fn event_pack_json_round_trips_and_imports_as_candidates() {
    let pack = journal_pack(true);
    let json = "{\"metadata\":{\"id\":\"pack:journal\",\"title\":\"Journal Pack\"}}";
    let imported = import_event_pack_json("journal.json", json, pack);

    assert_eq!(imported.metadata.title, "Journal Pack");
    assert_eq!(imported.batch.records.len(), 1);
    assert_eq!(imported.batch.accepted_count(), 1);
    assert_eq!(imported.batch.records[0].raw.as_deref(), Some(json));

    let materialized = imported.materialize();
    assert_eq!(materialized.kind, PackKind::UserJournal);
    assert_eq!(materialized.events.len(), 1);
    assert_eq!(materialized.events[0].id, EventId(1));
}

#[test]
fn json_import_uses_shared_stable_import_key() {
    let imported = import_event_pack_json("Journal Pack.json", "{}", journal_pack(false));
    assert_eq!(imported.batch.id.as_str(), "import:json:journal-pack-json");
}

#[test]
fn event_pack_toml_round_trips_and_imports_as_candidates() {
    let mut pack = EventPack::empty(
        PackMetadata::new(PackId::new("pack:small-history"), "Small History"),
        PackKind::HistoricalTimeline,
    );
    pack.events.push(TimelineEvent::new(
        EventId(1),
        EventTypeId::new("history.event"),
        "A hand-authored event",
    ));
    let toml_text = "[metadata]\nid = \"pack:small-history\"\ntitle = \"Small History\"\n";
    let imported = import_event_pack_toml("small-history.toml", toml_text, pack);

    assert_eq!(imported.metadata.title, "Small History");
    assert_eq!(imported.batch.records.len(), 1);
    assert_eq!(imported.batch.accepted_count(), 1);

    let materialized = imported.materialize();
    assert_eq!(materialized.kind, PackKind::HistoricalTimeline);
    assert_eq!(materialized.events.len(), 1);
    assert_eq!(materialized.events[0].id, EventId(1));
}
