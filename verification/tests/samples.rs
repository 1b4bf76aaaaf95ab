use kleio::event::{EntityRef, EventRelationKind, YearSpan};
use kleio::event_validation::validate_timeline_event;
use kleio::model::PersonId;
use kleio::pack::{PackKind, TimelineDocument};
use kleio::pack_samples::{sample_biography_pack, sample_journal_pack, sample_timeline_packs};
use kleio::timeline_document_io::sample_timeline_document;

#[test]
fn sample_journal_pack_contains_valid_journal_entry() {
    let pack = sample_journal_pack();
    let profiles = pack.domain_profiles.clone();

    assert_eq!(pack.kind, PackKind::UserJournal);
    assert_eq!(pack.events.len(), 1);
    assert!(validate_timeline_event(&pack.events[0], &profiles).is_empty());
}

#[test]
fn sample_biography_pack_contains_life_boundaries() {
    let pack = sample_biography_pack();

    assert_eq!(pack.kind, PackKind::Biography);
    assert_eq!(pack.events.len(), 3);
    assert_eq!(pack.event_relations.len(), 2);
    assert!(
        pack.event_relations
            .iter()
            .any(|relation| relation.kind == EventRelationKind::Starts)
    );
    assert!(
        pack.event_relations
            .iter()
            .any(|relation| relation.kind == EventRelationKind::Ends)
    );
}

#[test]
fn sample_packs_can_feed_timeline_document_queries() {
    let mut document = TimelineDocument::empty();
    for pack in sample_timeline_packs() {
        document.add_pack(pack, true);
    }

    assert_eq!(document.active_packs().len(), 4);
    assert!(
        !document
            .active_events_in_year_span(YearSpan::exact(1942))
            .is_empty()
    );
    assert!(!document.active_events_for_entity(EntityRef::Person(PersonId(1))).is_empty());
    assert!(!document.active_events_for_entity(EntityRef::Person(PersonId(42))).is_empty());
}

#[test]
fn sample_timeline_document_contains_active_sample_packs() {
    let document = sample_timeline_document();

    assert_eq!(document.active_packs().len(), 4);
    assert!(
        !document
            .active_events_in_year_span(YearSpan::exact(1942))
            .is_empty()
    );
    assert!(!document.active_events_for_entity(EntityRef::Person(PersonId(1))).is_empty());
}
