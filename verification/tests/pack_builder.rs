use kleio::attribution::Provenance;
use kleio::event::{EventParticipant, EventTypeId, TimeSpec};
use kleio::event_type::genealogy_domain_profile;
use kleio::event_validation::ValidationSeverity;
use kleio::model::{DateValue, EventId, PersonId};
use kleio::pack::{PackId, PackKind, PackMetadata};
use kleio::pack_builder::{EventPackBuilder, ManualEventDraft};

#[test]
fn builder_allocates_event_ids_for_manual_events() {
    let mut builder = EventPackBuilder::new(
        PackMetadata::new(PackId::new("pack:journal"), "Journal"),
        PackKind::UserJournal,
    );

    let first_id = builder.add_manual_event(
        ManualEventDraft::new(EventTypeId::new("journal.entry"), "First entry").with_time(
            TimeSpec::from_date_value(DateValue::from_original("2026".to_string(), Provenance::default())),
        ),
    );
    let second_id = builder.add_manual_event(
        ManualEventDraft::new(EventTypeId::new("journal.entry"), "Second entry")
            .with_participant(EventParticipant::person(PersonId(7), "subject")),
    );
    let pack = builder.into_pack();

    assert_eq!(first_id, EventId(1));
    assert_eq!(second_id, EventId(2));
    assert_eq!(pack.events.len(), 2);
    assert_eq!(pack.events[0].time.display(), "2026");
}

#[test]
fn builder_preserves_explicit_event_ids() {
    let mut builder = EventPackBuilder::new(
        PackMetadata::new(PackId::new("pack:history"), "History"),
        PackKind::HistoricalTimeline,
    );

    let event_id = builder.add_manual_event(
        ManualEventDraft::new(EventTypeId::new("history.event"), "Known event")
            .with_id(EventId(42)),
    );

    assert_eq!(event_id, EventId(42));
    assert_eq!(builder.next_event_id(), EventId(43));
}

#[test]
fn builder_validates_manual_events_against_domain_profiles() {
    let mut builder = EventPackBuilder::new(
        PackMetadata::new(PackId::new("pack:family"), "Family"),
        PackKind::Genealogy,
    );
    builder.add_domain_profile(genealogy_domain_profile());

    let (event_id, issues) = builder.add_manual_event_validated(ManualEventDraft::new(
        EventTypeId::new("genealogy.birth"),
        "Incomplete birth",
    ));
    let validations = builder.validate_events();

    assert_eq!(event_id, EventId(1));
    assert!(
        issues
            .iter()
            .any(|issue| issue.severity == ValidationSeverity::Error)
    );
    assert_eq!(validations.len(), 1);
    assert!(validations[0].has_errors());
}
