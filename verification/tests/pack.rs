use kleio::attribution::Provenance;
use kleio::event::{EntityRef, EventParticipant, EventRelation, EventRelationKind, EventTypeId, TimeSpec, TimelineEvent, YearSpan};
use kleio::model::{DateValue, EventId, PersonId};
use kleio::pack::{EventPack, PackId, PackKind, PackMetadata, TimelineDocument};

#[test]
fn pack_filters_events_by_entity_and_year() {
    let mut pack = EventPack::empty(
        PackMetadata::new(PackId::new("pack:family"), "Family Pack"),
        PackKind::Genealogy,
    );
    pack.events.push(
        TimelineEvent::new(EventId(1), EventTypeId::new("genealogy.birth"), "Birth")
            .with_time(TimeSpec::from_date_value(DateValue::from_original(
                "1901".to_string(),
                Provenance::default(),
            )))
            .with_participant(EventParticipant::person(PersonId(7), "child")),
    );
    pack.events.push(
        TimelineEvent::new(EventId(2), EventTypeId::new("genealogy.death"), "Death")
            .with_time(TimeSpec::from_date_value(DateValue::from_original(
                "1980".to_string(),
                Provenance::default(),
            )))
            .with_participant(EventParticipant::person(PersonId(7), "deceased")),
    );

    pack.event_relations.push(EventRelation::new(
        EventId(100),
        EventId(1),
        EventRelationKind::Starts,
    ));

    assert_eq!(pack.events_for_entity(EntityRef::Person(PersonId(7))).len(), 2);
    assert_eq!(pack.events_in_year_span(YearSpan::exact(1901)).len(), 1);
    assert_eq!(pack.child_event_relations(EventId(100)).len(), 1);
}

#[test]
fn timeline_document_returns_only_active_pack_events() {
    let active_pack = EventPack {
        events: vec![TimelineEvent::new(
            EventId(1),
            EventTypeId::new("journal.entry"),
            "Active entry",
        )],
        ..EventPack::empty(
            PackMetadata::new(PackId::new("pack:active"), "Active"),
            PackKind::UserJournal,
        )
    };
    let inactive_pack = EventPack {
        events: vec![TimelineEvent::new(
            EventId(2),
            EventTypeId::new("journal.entry"),
            "Inactive entry",
        )],
        ..EventPack::empty(
            PackMetadata::new(PackId::new("pack:inactive"), "Inactive"),
            PackKind::UserJournal,
        )
    };
    let mut document = TimelineDocument::empty();

    document.add_pack(active_pack, true);
    document.add_pack(inactive_pack, false);

    let active_events = document.active_events();
    assert_eq!(active_events.len(), 1);
    assert_eq!(active_events[0].id, EventId(1));
}

#[test]
fn timeline_document_toggles_and_removes_packs() {
    let pack_id = PackId::new("pack:toggle");
    let pack = EventPack::empty(
        PackMetadata::new(pack_id.clone(), "Toggle Pack"),
        PackKind::UserJournal,
    );
    let mut document = TimelineDocument::empty();

    document.add_pack(pack, false);
    assert!(!document.is_pack_active(&pack_id));

    document.activate_pack(&pack_id);
    assert!(document.is_pack_active(&pack_id));

    document.deactivate_pack(&pack_id);
    assert!(!document.is_pack_active(&pack_id));

    let removed = document.remove_pack(&pack_id);
    assert!(removed.is_some());
    assert!(document.pack(&pack_id).is_none());
}

#[test]
fn timeline_document_filters_active_events_and_hides_collapsed_children() {
    let mut pack = EventPack::empty(
        PackMetadata::new(PackId::new("pack:bio"), "Biography"),
        PackKind::Biography,
    );
    pack.events.push(TimelineEvent::new(
        EventId(100),
        EventTypeId::new("genealogy.life"),
        "Life",
    ));
    pack.events.push(
        TimelineEvent::new(EventId(1), EventTypeId::new("genealogy.birth"), "Birth")
            .with_time(TimeSpec::from_date_value(DateValue::from_original(
                "1901".to_string(),
                Provenance::default(),
            )))
            .with_participant(EventParticipant::person(PersonId(7), "child")),
    );
    pack.event_relations.push(EventRelation::new(
        EventId(100),
        EventId(1),
        EventRelationKind::Starts,
    ));
    let mut document = TimelineDocument::empty();
    document.add_pack(pack, true);

    assert_eq!(document.active_events_for_entity(EntityRef::Person(PersonId(7))).len(), 1);
    assert_eq!(
        document
            .active_events_in_year_span(YearSpan::exact(1901))
            .len(),
        1
    );

    let visible_ids: Vec<EventId> = document
        .visible_active_events(&vec![EventId(100)])
        .into_iter()
        .map(|event| event.id)
        .collect();
    assert_eq!(visible_ids, vec![EventId(100)]);
}
