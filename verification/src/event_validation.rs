//! Checks of a single event against the domain profiles of its pack.
use vstd::prelude::*;
use crate::event::{DomainProfile, EventParticipant, EventTypeDefinition, EventTypeId, TimelineEvent};
use crate::model::EventId;
use crate::text::{is_blank, is_blank_str, str_eq};

verus! {

#[derive(Debug, Clone, Copy, PartialEq, Eq, Structural)]
pub enum ValidationSeverity {
    Error,
    Warning,
    Info,
}

/// What a validation finding is about.
#[derive(Debug, PartialEq, Eq)]
pub enum EventValidationIssueKind {
    /// The event's title is empty or only whitespace.
    EmptyTitle { event_id: EventId },
    /// No domain profile of the pack defines the event's type.
    UnknownEventType { event_id: EventId, type_ref: EventTypeId },
    /// The event's type asks for a participant role that no participant has.
    MissingRequiredRole { event_id: EventId, role: String },
}

impl Clone for EventValidationIssueKind {
    fn clone(&self) -> (r: Self)
        ensures
            r == *self,
    {
        match self {
            EventValidationIssueKind::EmptyTitle { event_id } => EventValidationIssueKind::EmptyTitle {
                event_id: *event_id,
            },
            EventValidationIssueKind::UnknownEventType { event_id, type_ref } => {
                EventValidationIssueKind::UnknownEventType {
                    event_id: *event_id,
                    type_ref: type_ref.clone(),
                }
            },
            EventValidationIssueKind::MissingRequiredRole { event_id, role } => {
                EventValidationIssueKind::MissingRequiredRole { event_id: *event_id, role: role.clone() }
            },
        }
    }
}

/// One finding about an event.
#[derive(Debug, PartialEq, Eq)]
pub struct EventValidationIssue {
    pub severity: ValidationSeverity,
    pub kind: EventValidationIssueKind,
}

impl Clone for EventValidationIssue {
    fn clone(&self) -> (r: Self)
        ensures
            r == *self,
    {
        EventValidationIssue { severity: self.severity, kind: self.kind.clone() }
    }
}

/// The first definition of type `type_id` in `defs`.
pub open spec fn first_def_in(defs: Seq<EventTypeDefinition>, type_id: Seq<char>) -> Option<
    EventTypeDefinition,
>
    decreases defs.len(),
{
    if defs.len() == 0 {
        None
    } else if defs[0].id.0@ == type_id {
        Some(defs[0])
    } else {
        first_def_in(defs.drop_first(), type_id)
    }
}

/// The definition of type `type_id` that the profiles give first, looking
/// through the profiles in order.
pub open spec fn first_definition(profiles: Seq<DomainProfile>, type_id: Seq<char>) -> Option<
    EventTypeDefinition,
>
    decreases profiles.len(),
{
    if profiles.len() == 0 {
        None
    } else {
        match first_def_in(profiles[0].event_types@, type_id) {
            Some(d) => Some(d),
            None => first_definition(profiles.drop_first(), type_id),
        }
    }
}

pub open spec fn has_role(participants: Seq<EventParticipant>, role: Seq<char>) -> bool {
    exists|i: int| 0 <= i < participants.len() && (#[trigger] participants[i]).role@ == role
}

/// Profiles are given and none of them defines the event's type.
pub open spec fn unknown_type(event: TimelineEvent, profiles: Seq<DomainProfile>) -> bool {
    profiles.len() > 0 && first_definition(profiles, event.type_ref.0@).is_none()
}

/// The role that the event's type asks for and that no participant has.
pub open spec fn missing_role(event: TimelineEvent, profiles: Seq<DomainProfile>) -> Option<Seq<char>> {
    match first_definition(profiles, event.type_ref.0@) {
        Some(d) => match d.required_role {
            Some(role) => if has_role(event.participants@, role@) {
                None
            } else {
                Some(role@)
            },
            None => None,
        },
        None => None,
    }
}

/// How many findings [`validate_timeline_event`] reports for the event.
pub open spec fn issue_count(event: TimelineEvent, profiles: Seq<DomainProfile>) -> int {
    (if is_blank(event.title@) { 1int } else { 0int }) + (if unknown_type(event, profiles)
        || missing_role(event, profiles).is_some() {
        1int
    } else {
        0int
    })
}

/// `issues` are the findings for `event`: an empty title first (an error),
/// then an unknown type (a warning) or a missing required role (an error).
pub open spec fn issues_for(
    issues: Seq<EventValidationIssue>,
    event: TimelineEvent,
    profiles: Seq<DomainProfile>,
) -> bool {
    &&& issues.len() == issue_count(event, profiles)
    &&& is_blank(event.title@) ==> issues[0] == (EventValidationIssue {
        severity: ValidationSeverity::Error,
        kind: EventValidationIssueKind::EmptyTitle { event_id: event.id },
    })
    &&& unknown_type(event, profiles) ==> issues.last() == (EventValidationIssue {
        severity: ValidationSeverity::Warning,
        kind: EventValidationIssueKind::UnknownEventType {
            event_id: event.id,
            type_ref: event.type_ref,
        },
    })
    &&& missing_role(event, profiles) matches Some(role) ==> {
        &&& issues.last().severity == ValidationSeverity::Error
        &&& issues.last().kind matches EventValidationIssueKind::MissingRequiredRole {
            event_id,
            role: r,
        } && event_id == event.id && r@ == role
    }
}

fn find_def_in<'a>(defs: &'a Vec<EventTypeDefinition>, type_id: &str) -> (r: Option<&'a EventTypeDefinition>)
    ensures
        r.is_some() == first_def_in(defs@, type_id@).is_some(),
        r matches Some(d) ==> first_def_in(defs@, type_id@) == Some(*d),
{
    let n = defs.len();
    let mut i: usize = 0;
    assert(defs@.skip(0) =~= defs@);
    while i < n
        invariant
            n == defs@.len(),
            i <= n,
            first_def_in(defs@, type_id@) == first_def_in(defs@.skip(i as int), type_id@),
        decreases n - i,
    {
        assert(defs@.skip(i as int)[0] == defs@[i as int]);
        assert(defs@.skip(i as int).drop_first() =~= defs@.skip(i + 1));
        if str_eq(defs[i].id.0.as_str(), type_id) {
            return Some(&defs[i]);
        }
        i = i + 1;
    }
    assert(defs@.skip(n as int) =~= Seq::<EventTypeDefinition>::empty());
    None
}

fn find_definition<'a>(profiles: &'a Vec<DomainProfile>, type_id: &str) -> (r: Option<
    &'a EventTypeDefinition,
>)
    ensures
        r.is_some() == first_definition(profiles@, type_id@).is_some(),
        r matches Some(d) ==> first_definition(profiles@, type_id@) == Some(*d),
{
    let n = profiles.len();
    let mut i: usize = 0;
    assert(profiles@.skip(0) =~= profiles@);
    while i < n
        invariant
            n == profiles@.len(),
            i <= n,
            first_definition(profiles@, type_id@) == first_definition(
                profiles@.skip(i as int),
                type_id@,
            ),
        decreases n - i,
    {
        assert(profiles@.skip(i as int)[0] == profiles@[i as int]);
        assert(profiles@.skip(i as int).drop_first() =~= profiles@.skip(i + 1));
        match find_def_in(&profiles[i].event_types, type_id) {
            Some(d) => {
                return Some(d);
            },
            None => {},
        }
        i = i + 1;
    }
    assert(profiles@.skip(n as int) =~= Seq::<DomainProfile>::empty());
    None
}

fn participants_have_role(participants: &Vec<EventParticipant>, role: &str) -> (r: bool)
    ensures
        r == has_role(participants@, role@),
{
    let n = participants.len();
    let mut i: usize = 0;
    while i < n
        invariant
            n == participants@.len(),
            i <= n,
            forall|j: int| 0 <= j < i ==> (#[trigger] participants@[j]).role@ != role@,
        decreases n - i,
    {
        if str_eq(participants[i].role.as_str(), role) {
            return true;
        }
        i = i + 1;
    }
    false
}

/// Checks one event against the domain profiles: its title must not be
/// blank, its type should be one that a profile defines, and it must have a
/// participant in the role that its type asks for.
pub fn validate_timeline_event(event: &TimelineEvent, profiles: &Vec<DomainProfile>) -> (r: Vec<
    EventValidationIssue,
>)
    ensures
        issues_for(r@, *event, profiles@),
{
    let mut issues: Vec<EventValidationIssue> = Vec::new();
    if is_blank_str(event.title.as_str()) {
        issues.push(
            EventValidationIssue {
                severity: ValidationSeverity::Error,
                kind: EventValidationIssueKind::EmptyTitle { event_id: event.id },
            },
        );
    }
    match find_definition(profiles, event.type_ref.0.as_str()) {
        Some(d) => match &d.required_role {
            Some(role) => {
                if !participants_have_role(&event.participants, role.as_str()) {
                    issues.push(
                        EventValidationIssue {
                            severity: ValidationSeverity::Error,
                            kind: EventValidationIssueKind::MissingRequiredRole {
                                event_id: event.id,
                                role: role.clone(),
                            },
                        },
                    );
                }
            },
            None => {},
        },
        None => {
            if profiles.len() > 0 {
                issues.push(
                    EventValidationIssue {
                        severity: ValidationSeverity::Warning,
                        kind: EventValidationIssueKind::UnknownEventType {
                            event_id: event.id,
                            type_ref: event.type_ref.clone(),
                        },
                    },
                );
            }
        },
    }
    issues
}

} // verus!
