use kleio::event::{EventParticipant, EventTypeId, TimelineEvent};
use kleio::event_type::{genealogy_domain_profile, journal_domain_profile};
use kleio::event_validation::{validate_timeline_event, EventValidationIssueKind, ValidationSeverity};
use kleio::model::{EventId, PersonId};

#[test]
fn unknown_event_types_are_warned_about() {
    let event = TimelineEvent::new(EventId(3), EventTypeId::new("travel.event"), "Trip");
    let issues = validate_timeline_event(&event, &vec![genealogy_domain_profile()]);
    assert_eq!(issues.len(), 1);
    assert_eq!(issues[0].severity, ValidationSeverity::Warning);
    assert!(matches!(
        issues[0].kind,
        EventValidationIssueKind::UnknownEventType { event_id: EventId(3), .. }
    ));
    assert!(validate_timeline_event(&event, &Vec::new()).is_empty());
}

#[test]
fn blank_titles_and_missing_roles_are_errors() {
    let event = TimelineEvent::new(EventId(1), EventTypeId::new("genealogy.death"), "  ");
    let issues = validate_timeline_event(&event, &vec![journal_domain_profile(), genealogy_domain_profile()]);
    assert_eq!(issues.len(), 2);
    assert!(matches!(issues[0].kind, EventValidationIssueKind::EmptyTitle { .. }));
    match &issues[1].kind {
        EventValidationIssueKind::MissingRequiredRole { role, .. } => assert_eq!(role, "deceased"),
        other => panic!("unexpected issue {:?}", other),
    }
    let with_role = event.with_participant(EventParticipant::person(PersonId(2), "deceased"));
    assert_eq!(validate_timeline_event(&with_role, &vec![genealogy_domain_profile()]).len(), 1);
}
