//! Programmatic builders for small, user-authored event packs.
//!
//! These helpers keep manual pack creation ergonomic without bypassing the
//! same `EventPack` primitives that imports and serialized packs use.
use vstd::prelude::*;
use crate::attribution::{Provenance, SourceRef, Tag};
use crate::event::{
    DomainProfile, Entity, EventBoundaryKind, EventCollection, EventCompositionKind,
    EventParticipant, EventRelation, EventScaleKind, EventTemporalKind, EventTypeId, TimeSpec,
    TimelineEvent,
};
use crate::event_validation::{
    issue_count, issues_for, validate_timeline_event, EventValidationIssue, ValidationSeverity,
};
use crate::model::{EventId, PlaceId};
use crate::pack::{EventPack, PackKind, PackMetadata, SourceRecord};

verus! {

#[derive(Debug, Clone, PartialEq, Eq)]
pub struct ManualEventDraft {
    pub id: Option<EventId>,
    pub title: String,
    pub type_ref: EventTypeId,
    pub time: TimeSpec,
    pub composition: EventCompositionKind,
    pub temporal: EventTemporalKind,
    pub boundary: EventBoundaryKind,
    pub scale_kinds: Vec<EventScaleKind>,
    pub place: Option<PlaceId>,
    pub participants: Vec<EventParticipant>,
    pub description: Option<String>,
    pub sources: Vec<SourceRef>,
    pub tags: Vec<Tag>,
    pub provenance: Provenance,
}

/// The scale kinds that describe a set of axes: the composition kind first,
/// then `Interval` and `Boundary` when they apply.
pub open spec fn spec_scale_kinds_from_axes(
    composition: EventCompositionKind,
    temporal: EventTemporalKind,
    boundary: EventBoundaryKind,
) -> Seq<EventScaleKind> {
    let first = match composition {
        EventCompositionKind::Atomic => EventScaleKind::Atomic,
        EventCompositionKind::Composite => EventScaleKind::Composite,
    };
    let with_interval = if temporal == EventTemporalKind::Interval {
        seq![first, EventScaleKind::Interval]
    } else {
        seq![first]
    };
    if boundary != EventBoundaryKind::NoBoundary {
        with_interval.push(EventScaleKind::Boundary)
    } else {
        with_interval
    }
}

/// The composition axis that a list of scale kinds implies.
pub open spec fn composition_of(kinds: Seq<EventScaleKind>) -> EventCompositionKind {
    if kinds.contains(EventScaleKind::Composite) {
        EventCompositionKind::Composite
    } else {
        EventCompositionKind::Atomic
    }
}

/// The temporal axis that a list of scale kinds implies.
pub open spec fn temporal_of(kinds: Seq<EventScaleKind>) -> EventTemporalKind {
    if kinds.contains(EventScaleKind::Interval) {
        EventTemporalKind::Interval
    } else {
        EventTemporalKind::Instant
    }
}

/// The boundary axis that a list of scale kinds implies.
pub open spec fn boundary_of(kinds: Seq<EventScaleKind>) -> EventBoundaryKind {
    if kinds.contains(EventScaleKind::Boundary) {
        EventBoundaryKind::StartAndEnd
    } else {
        EventBoundaryKind::NoBoundary
    }
}

/// The distinct kinds of `kinds`, first occurrences kept in order.
pub open spec fn dedup_kinds(kinds: Seq<EventScaleKind>) -> Seq<EventScaleKind>
    decreases kinds.len(),
{
    if kinds.len() == 0 {
        seq![]
    } else {
        let prev = dedup_kinds(kinds.drop_last());
        if prev.contains(kinds.last()) {
            prev
        } else {
            prev.push(kinds.last())
        }
    }
}

/// The kinds [`ManualEventDraft::with_scale_kinds`] keeps: the distinct
/// kinds given, or `Atomic` alone when none are given.
pub open spec fn kept_scale_kinds(kinds: Seq<EventScaleKind>) -> Seq<EventScaleKind> {
    if kinds.len() == 0 {
        seq![EventScaleKind::Atomic]
    } else {
        dedup_kinds(kinds)
    }
}

proof fn lemma_dedup_nonempty(kinds: Seq<EventScaleKind>)
    requires
        kinds.len() > 0,
    ensures
        dedup_kinds(kinds).len() > 0,
    decreases kinds.len(),
{
    if kinds.drop_last().len() > 0 {
        lemma_dedup_nonempty(kinds.drop_last());
    }
}

proof fn lemma_dedup_contains(kinds: Seq<EventScaleKind>, k: EventScaleKind)
    ensures
        dedup_kinds(kinds).contains(k) <==> kinds.contains(k),
    decreases kinds.len(),
{
    if kinds.len() > 0 {
        lemma_dedup_contains(kinds.drop_last(), k);
        let d = kinds.drop_last();
        if kinds.contains(k) {
            let i = choose|i: int| 0 <= i < kinds.len() && kinds[i] == k;
            if i < kinds.len() - 1 {
                assert(d[i] == k);
            }
        }
        if d.contains(k) {
            let i = choose|i: int| 0 <= i < d.len() && d[i] == k;
            assert(kinds[i] == k);
        }
        let prev = dedup_kinds(d);
        if !prev.contains(kinds.last()) {
            assert(prev.push(kinds.last())[prev.len() as int] == kinds.last());
            if prev.contains(k) {
                let i = choose|i: int| 0 <= i < prev.len() && prev[i] == k;
                assert(prev.push(kinds.last())[i] == k);
            }
            if prev.push(kinds.last()).contains(k) {
                let i = choose|i: int| 0 <= i < prev.len() + 1 && prev.push(kinds.last())[i] == k;
                if i < prev.len() {
                    assert(prev[i] == k);
                }
            }
        }
        assert(kinds[kinds.len() - 1] == kinds.last());
    }
}

fn scale_kinds_from_axes(
    composition: EventCompositionKind,
    temporal: EventTemporalKind,
    boundary: EventBoundaryKind,
) -> (r: Vec<EventScaleKind>)
    ensures
        r@ == spec_scale_kinds_from_axes(composition, temporal, boundary),
{
    let mut kinds = Vec::new();
    kinds.push(
        match composition {
            EventCompositionKind::Atomic => EventScaleKind::Atomic,
            EventCompositionKind::Composite => EventScaleKind::Composite,
        },
    );
    if temporal == EventTemporalKind::Interval {
        kinds.push(EventScaleKind::Interval);
    }
    if boundary != EventBoundaryKind::NoBoundary {
        kinds.push(EventScaleKind::Boundary);
    }
    proof {
        assert(kinds@ =~= spec_scale_kinds_from_axes(composition, temporal, boundary));
    }
    kinds
}

fn contains_kind(kinds: &Vec<EventScaleKind>, kind: EventScaleKind) -> (r: bool)
    ensures
        r == kinds@.contains(kind),
{
    let n = kinds.len();
    let mut i: usize = 0;
    while i < n
        invariant
            n == kinds@.len(),
            i <= n,
            forall|j: int| 0 <= j < i ==> kinds@[j] != kind,
        decreases n - i,
    {
        if kinds[i] == kind {
            assert(kinds@[i as int] == kind);
            return true;
        }
        i = i + 1;
    }
    false
}

impl ManualEventDraft {
    /// A draft of an atomic, instant event of unknown time.
    pub fn new(type_ref: EventTypeId, title: &str) -> (r: Self)
        ensures
            r.id.is_none(),
            r.title@ == title@,
            r.type_ref == type_ref,
            r.time == TimeSpec::Unknown,
            r.composition == EventCompositionKind::Atomic,
            r.temporal == EventTemporalKind::Instant,
            r.boundary == EventBoundaryKind::NoBoundary,
            r.scale_kinds@ == seq![EventScaleKind::Atomic],
            r.place.is_none(),
            r.participants@.len() == 0,
            r.description.is_none(),
            r.sources@.len() == 0,
            r.tags@.len() == 0,
            r.provenance.is_empty_spec(),
    {
        let mut scale_kinds = Vec::new();
        scale_kinds.push(EventScaleKind::Atomic);
        Self {
            id: None,
            title: title.to_owned(),
            type_ref,
            time: TimeSpec::Unknown,
            composition: EventCompositionKind::Atomic,
            temporal: EventTemporalKind::Instant,
            boundary: EventBoundaryKind::NoBoundary,
            scale_kinds,
            place: None,
            participants: Vec::new(),
            description: None,
            sources: Vec::new(),
            tags: Vec::new(),
            provenance: Provenance::empty(),
        }
    }

    pub fn with_id(self, id: EventId) -> (r: Self)
        ensures
            r == (ManualEventDraft { id: Some(id), ..self }),
    {
        ManualEventDraft { id: Some(id), ..self }
    }

    pub fn with_time(self, time: TimeSpec) -> (r: Self)
        ensures
            r == (ManualEventDraft { time, ..self }),
    {
        ManualEventDraft { time, ..self }
    }

    /// Replaces the scale kinds (duplicates dropped, `Atomic` when none are
    /// given) and sets the three axes from them.
    pub fn with_scale_kinds(self, scale_kinds: Vec<EventScaleKind>) -> (r: Self)
        ensures
            r.scale_kinds@ == kept_scale_kinds(scale_kinds@),
            r.composition == composition_of(kept_scale_kinds(scale_kinds@)),
            r.temporal == temporal_of(kept_scale_kinds(scale_kinds@)),
            r.boundary == boundary_of(kept_scale_kinds(scale_kinds@)),
            r == (ManualEventDraft {
                scale_kinds: r.scale_kinds,
                composition: r.composition,
                temporal: r.temporal,
                boundary: r.boundary,
                ..self
            }),
    {
        let mut kept: Vec<EventScaleKind> = Vec::new();
        let n = scale_kinds.len();
        let mut i: usize = 0;
        while i < n
            invariant
                n == scale_kinds@.len(),
                i <= n,
                kept@ == dedup_kinds(scale_kinds@.take(i as int)),
            decreases n - i,
        {
            let k = scale_kinds[i];
            assert(scale_kinds@.take(i + 1).drop_last() =~= scale_kinds@.take(i as int));
            if !contains_kind(&kept, k) {
                kept.push(k);
            }
            i = i + 1;
        }
        assert(scale_kinds@.take(n as int) =~= scale_kinds@);
        if kept.len() == 0 {
            kept.push(EventScaleKind::Atomic);
            assert(kept@ =~= seq![EventScaleKind::Atomic]);
            proof {
                if scale_kinds@.len() > 0 {
                    lemma_dedup_nonempty(scale_kinds@);
                }
            }
        }
        let composition = if contains_kind(&kept, EventScaleKind::Composite) {
            EventCompositionKind::Composite
        } else {
            EventCompositionKind::Atomic
        };
        let temporal = if contains_kind(&kept, EventScaleKind::Interval) {
            EventTemporalKind::Interval
        } else {
            EventTemporalKind::Instant
        };
        let boundary = if contains_kind(&kept, EventScaleKind::Boundary) {
            EventBoundaryKind::StartAndEnd
        } else {
            EventBoundaryKind::NoBoundary
        };
        ManualEventDraft { scale_kinds: kept, composition, temporal, boundary, ..self }
    }

    pub fn with_composition_kind(self, composition: EventCompositionKind) -> (r: Self)
        ensures
            r.composition == composition,
            r.scale_kinds@ == spec_scale_kinds_from_axes(composition, self.temporal, self.boundary),
            r == (ManualEventDraft { composition, scale_kinds: r.scale_kinds, ..self }),
    {
        let scale_kinds = scale_kinds_from_axes(composition, self.temporal, self.boundary);
        ManualEventDraft { composition, scale_kinds, ..self }
    }

    pub fn with_temporal_kind(self, temporal: EventTemporalKind) -> (r: Self)
        ensures
            r.temporal == temporal,
            r.scale_kinds@ == spec_scale_kinds_from_axes(self.composition, temporal, self.boundary),
            r == (ManualEventDraft { temporal, scale_kinds: r.scale_kinds, ..self }),
    {
        let scale_kinds = scale_kinds_from_axes(self.composition, temporal, self.boundary);
        ManualEventDraft { temporal, scale_kinds, ..self }
    }

    pub fn with_boundary_kind(self, boundary: EventBoundaryKind) -> (r: Self)
        ensures
            r.boundary == boundary,
            r.scale_kinds@ == spec_scale_kinds_from_axes(self.composition, self.temporal, boundary),
            r == (ManualEventDraft { boundary, scale_kinds: r.scale_kinds, ..self }),
    {
        let scale_kinds = scale_kinds_from_axes(self.composition, self.temporal, boundary);
        ManualEventDraft { boundary, scale_kinds, ..self }
    }

    pub fn with_participant(self, participant: EventParticipant) -> (r: Self)
        ensures
            r.participants@ == self.participants@.push(participant),
            r == (ManualEventDraft { participants: r.participants, ..self }),
    {
        let mut s = self;
        s.participants.push(participant);
        s
    }

    pub fn with_description(self, description: &str) -> (r: Self)
        ensures
            r.description matches Some(d) && d@ == description@,
            r == (ManualEventDraft { description: r.description, ..self }),
    {
        ManualEventDraft { description: Some(description.to_owned()), ..self }
    }
}

#[derive(Debug, Clone, PartialEq, Eq)]
pub struct PackEventValidation {
    pub event_id: EventId,
    pub issues: Vec<EventValidationIssue>,
}

pub open spec fn has_severity(issues: Seq<EventValidationIssue>, s: ValidationSeverity) -> bool {
    exists|i: int| 0 <= i < issues.len() && (#[trigger] issues[i]).severity == s
}

fn any_severity(issues: &Vec<EventValidationIssue>, s: ValidationSeverity) -> (r: bool)
    ensures
        r == has_severity(issues@, s),
{
    let n = issues.len();
    let mut i: usize = 0;
    while i < n
        invariant
            n == issues@.len(),
            i <= n,
            forall|j: int| 0 <= j < i ==> (#[trigger] issues@[j]).severity != s,
        decreases n - i,
    {
        if issues[i].severity == s {
            return true;
        }
        i = i + 1;
    }
    false
}

impl PackEventValidation {
    pub fn has_errors(&self) -> (r: bool)
        ensures
            r == has_severity(self.issues@, ValidationSeverity::Error),
    {
        any_severity(&self.issues, ValidationSeverity::Error)
    }

    pub fn has_warnings(&self) -> (r: bool)
        ensures
            r == has_severity(self.issues@, ValidationSeverity::Warning),
    {
        any_severity(&self.issues, ValidationSeverity::Warning)
    }
}

/// The event a draft describes, under `id`.
pub open spec fn draft_event(draft: ManualEventDraft, id: EventId) -> TimelineEvent {
    TimelineEvent {
        id,
        title: draft.title,
        type_ref: draft.type_ref,
        time: draft.time,
        composition: draft.composition,
        temporal: draft.temporal,
        boundary: draft.boundary,
        scale_kinds: draft.scale_kinds,
        place: draft.place,
        participants: draft.participants,
        description: draft.description,
        sources: draft.sources,
        tags: draft.tags,
        provenance: draft.provenance,
    }
}

/// Largest numeric event id of the events (0 when there are none).
pub open spec fn max_event_id(events: Seq<TimelineEvent>) -> u64
    decreases events.len(),
{
    if events.len() == 0 {
        0
    } else {
        let m = max_event_id(events.drop_last());
        if events.last().id.0 > m {
            events.last().id.0
        } else {
            m
        }
    }
}

pub proof fn lemma_max_event_id(events: Seq<TimelineEvent>)
    ensures
        forall|i: int| 0 <= i < events.len() ==> (#[trigger] events[i]).id.0 <= max_event_id(events),
        events.len() > 0 ==> exists|i: int|
            0 <= i < events.len() && (#[trigger] events[i]).id.0 == max_event_id(events),
    decreases events.len(),
{
    if events.len() > 0 {
        let d = events.drop_last();
        lemma_max_event_id(d);
        assert forall|i: int| 0 <= i < events.len() implies (#[trigger] events[i]).id.0 <= max_event_id(
            events,
        ) by {
            if i < d.len() {
                assert(events[i] == d[i]);
            }
        }
        if d.len() > 0 && events.last().id.0 <= max_event_id(d) {
            let i = choose|i: int| 0 <= i < d.len() && (#[trigger] d[i]).id.0 == max_event_id(d);
            assert(events[i] == d[i]);
        } else {
            assert(events[events.len() - 1] == events.last());
        }
    }
}

/// Index of the first event with id `id`.
pub open spec fn first_event_index(events: Seq<TimelineEvent>, id: EventId) -> Option<int>
    decreases events.len(),
{
    if events.len() == 0 {
        None
    } else {
        match first_event_index(events.drop_last(), id) {
            Some(j) => Some(j),
            None => if events.last().id == id {
                Some(events.len() - 1)
            } else {
                None
            },
        }
    }
}

pub proof fn lemma_first_event_index(events: Seq<TimelineEvent>, id: EventId)
    ensures
        first_event_index(events, id) matches Some(j) ==> {
            &&& 0 <= j < events.len()
            &&& events[j].id == id
            &&& forall|k: int| 0 <= k < j ==> (#[trigger] events[k]).id != id
        },
        first_event_index(events, id).is_none() ==> forall|k: int|
            0 <= k < events.len() ==> (#[trigger] events[k]).id != id,
    decreases events.len(),
{
    if events.len() > 0 {
        let d = events.drop_last();
        lemma_first_event_index(d, id);
        assert forall|k: int| 0 <= k < d.len() implies d[k] == events[k] by {}
    }
}

pub proof fn lemma_first_prefix(events: Seq<TimelineEvent>, id: EventId, m: int)
    requires
        0 < m <= events.len(),
        events[m - 1].id == id,
        first_event_index(events.take(m - 1), id).is_none(),
    ensures
        first_event_index(events, id) == Some(m - 1),
    decreases events.len(),
{
    if events.len() > m {
        assert(events.drop_last().take(m - 1) =~= events.take(m - 1));
        lemma_first_prefix(events.drop_last(), id, m);
    } else {
        assert(events.drop_last() =~= events.take(m - 1));
    }
}

/// Indices among the first `n` events whose validation [`EventPackBuilder::validate_events`]
/// reports: those whose id's first event has findings.
pub open spec fn reported_indices(events: Seq<TimelineEvent>, profiles: Seq<DomainProfile>, n: int) -> Seq<
    int,
>
    decreases n,
{
    if n <= 0 {
        seq![]
    } else {
        let prev = reported_indices(events, profiles, n - 1);
        match first_event_index(events, events[n - 1].id) {
            Some(f) => if issue_count(events[f], profiles) > 0 {
                prev.push(n - 1)
            } else {
                prev
            },
            None => prev,
        }
    }
}

#[derive(Debug, Clone, PartialEq, Eq)]
pub struct EventPackBuilder {
    pack: EventPack,
}

impl EventPackBuilder {
    pub closed spec fn spec_pack(&self) -> EventPack {
        self.pack
    }

    /// Event ids are still free below the largest `u64`.
    pub open spec fn can_allocate(&self) -> bool {
        max_event_id(self.spec_pack().events@) < u64::MAX
    }

    pub fn new(metadata: PackMetadata, kind: PackKind) -> (r: Self)
        ensures
            r.spec_pack().metadata == metadata,
            r.spec_pack().kind == kind,
            r.spec_pack().is_empty_spec(),
    {
        Self { pack: EventPack::empty(metadata, kind) }
    }

    pub fn from_pack(pack: EventPack) -> (r: Self)
        ensures
            r.spec_pack() == pack,
    {
        Self { pack }
    }

    pub fn pack(&self) -> (r: &EventPack)
        ensures
            *r == self.spec_pack(),
    {
        &self.pack
    }

    pub fn pack_mut(&mut self) -> (r: &mut EventPack)
        ensures
            *r == old(self).spec_pack(),
            final(self).spec_pack() == *final(r),
    {
        &mut self.pack
    }

    pub fn into_pack(self) -> (r: EventPack)
        ensures
            r == self.spec_pack(),
    {
        self.pack
    }

    /// One more than the largest event id in the pack (1 for an empty pack).
    pub fn next_event_id(&self) -> (r: EventId)
        requires
            self.can_allocate(),
        ensures
            r.0 == max_event_id(self.spec_pack().events@) + 1,
    {
        let n = self.pack.events.len();
        let mut m: u64 = 0;
        let mut i: usize = 0;
        while i < n
            invariant
                n == self.pack.events@.len(),
                i <= n,
                m == max_event_id(self.pack.events@.take(i as int)),
            decreases n - i,
        {
            assert(self.pack.events@.take(i + 1).drop_last() =~= self.pack.events@.take(i as int));
            let id = self.pack.events[i].id.0;
            if id > m {
                m = id;
            }
            i = i + 1;
        }
        assert(self.pack.events@.take(n as int) =~= self.pack.events@);
        EventId(m + 1)
    }

    pub fn add_domain_profile(&mut self, profile: DomainProfile) -> (r: &mut Self)
        ensures
            r.spec_pack() == (EventPack {
                domain_profiles: r.spec_pack().domain_profiles,
                ..old(self).spec_pack()
            }),
            r.spec_pack().domain_profiles@ == old(self).spec_pack().domain_profiles@.push(profile),
            *final(self) == *final(r),
    {
        self.pack.domain_profiles.push(profile);
        self
    }

    pub fn add_entity(&mut self, entity: Entity) -> (r: &mut Self)
        ensures
            r.spec_pack() == (EventPack { entities: r.spec_pack().entities, ..old(self).spec_pack() }),
            r.spec_pack().entities@ == old(self).spec_pack().entities@.push(entity),
            *final(self) == *final(r),
    {
        self.pack.entities.push(entity);
        self
    }

    pub fn add_source(&mut self, source: SourceRecord) -> (r: &mut Self)
        ensures
            r.spec_pack() == (EventPack { sources: r.spec_pack().sources, ..old(self).spec_pack() }),
            r.spec_pack().sources@ == old(self).spec_pack().sources@.push(source),
            *final(self) == *final(r),
    {
        self.pack.sources.push(source);
        self
    }

    pub fn add_tag(&mut self, tag: Tag) -> (r: &mut Self)
        ensures
            r.spec_pack() == (EventPack { tags: r.spec_pack().tags, ..old(self).spec_pack() }),
            r.spec_pack().tags@ == old(self).spec_pack().tags@.push(tag),
            *final(self) == *final(r),
    {
        self.pack.tags.push(tag);
        self
    }

    pub fn add_event(&mut self, event: TimelineEvent) -> (r: &mut Self)
        ensures
            r.spec_pack() == (EventPack { events: r.spec_pack().events, ..old(self).spec_pack() }),
            r.spec_pack().events@ == old(self).spec_pack().events@.push(event),
            *final(self) == *final(r),
    {
        self.pack.events.push(event);
        self
    }

    pub fn add_event_collection(&mut self, collection: EventCollection) -> (r: &mut Self)
        ensures
            r.spec_pack() == (EventPack {
                event_collections: r.spec_pack().event_collections,
                ..old(self).spec_pack()
            }),
            r.spec_pack().event_collections@ == old(self).spec_pack().event_collections@.push(
                collection,
            ),
            *final(self) == *final(r),
    {
        self.pack.event_collections.push(collection);
        self
    }

    pub fn add_event_relation(&mut self, relation: EventRelation) -> (r: &mut Self)
        ensures
            r.spec_pack() == (EventPack {
                event_relations: r.spec_pack().event_relations,
                ..old(self).spec_pack()
            }),
            r.spec_pack().event_relations@ == old(self).spec_pack().event_relations@.push(relation),
            *final(self) == *final(r),
    {
        self.pack.event_relations.push(relation);
        self
    }

    /// Adds the event a draft describes, under the draft's id or the next
    /// free id, and returns that id.
    pub fn add_manual_event(&mut self, draft: ManualEventDraft) -> (r: EventId)
        requires
            draft.id.is_some() || old(self).can_allocate(),
        ensures
            r == (match draft.id {
                Some(id) => id,
                None => EventId((max_event_id(old(self).spec_pack().events@) + 1) as u64),
            }),
            final(self).spec_pack() == (EventPack {
                events: final(self).spec_pack().events,
                ..old(self).spec_pack()
            }),
            final(self).spec_pack().events@ == old(self).spec_pack().events@.push(
                draft_event(draft, r),
            ),
    {
        let event_id = match draft.id {
            Some(id) => id,
            None => self.next_event_id(),
        };
        let event = TimelineEvent {
            id: event_id,
            title: draft.title,
            type_ref: draft.type_ref,
            time: draft.time,
            composition: draft.composition,
            temporal: draft.temporal,
            boundary: draft.boundary,
            scale_kinds: draft.scale_kinds,
            place: draft.place,
            participants: draft.participants,
            description: draft.description,
            sources: draft.sources,
            tags: draft.tags,
            provenance: draft.provenance,
        };
        self.pack.events.push(event);
        event_id
    }

    fn find_event(&self, event_id: EventId) -> (r: Option<usize>)
        ensures
            r matches Some(i) ==> i < self.spec_pack().events@.len(),
            r matches Some(i) ==> first_event_index(self.spec_pack().events@, event_id) == Some(
                i as int,
            ),
            r.is_none() ==> first_event_index(self.spec_pack().events@, event_id).is_none(),
    {
        let n = self.pack.events.len();
        let mut i: usize = 0;
        while i < n
            invariant
                n == self.pack.events@.len(),
                i <= n,
                first_event_index(self.pack.events@.take(i as int), event_id).is_none(),
            decreases n - i,
        {
            assert(self.pack.events@.take(i + 1).drop_last() =~= self.pack.events@.take(i as int));
            if self.pack.events[i].id == event_id {
                proof {
                    lemma_first_prefix(self.pack.events@, event_id, i + 1);
                }
                return Some(i);
            }
            i = i + 1;
        }
        assert(self.pack.events@.take(n as int) =~= self.pack.events@);
        None
    }

    /// The findings for the first event with id `event_id`, when there are any.
    pub fn validate_event(&self, event_id: EventId) -> (r: Option<PackEventValidation>)
        ensures
            first_event_index(self.spec_pack().events@, event_id) matches Some(i) ==> {
                let event = self.spec_pack().events@[i];
                &&& r.is_none() <==> issue_count(event, self.spec_pack().domain_profiles@) == 0
                &&& r matches Some(v) ==> v.event_id == event_id && issues_for(
                    v.issues@,
                    event,
                    self.spec_pack().domain_profiles@,
                )
            },
            first_event_index(self.spec_pack().events@, event_id).is_none() ==> r.is_none(),
    {
        match self.find_event(event_id) {
            Some(i) => {
                let issues = validate_timeline_event(&self.pack.events[i], &self.pack.domain_profiles);
                if issues.len() == 0 {
                    None
                } else {
                    Some(PackEventValidation { event_id, issues })
                }
            },
            None => None,
        }
    }

    /// Adds the event a draft describes and checks the first event with its id.
    pub fn add_manual_event_validated(&mut self, draft: ManualEventDraft) -> (r: (
        EventId,
        Vec<EventValidationIssue>,
    ))
        requires
            draft.id.is_some() || old(self).can_allocate(),
        ensures
            r.0 == (match draft.id {
                Some(id) => id,
                None => EventId((max_event_id(old(self).spec_pack().events@) + 1) as u64),
            }),
            final(self).spec_pack() == (EventPack {
                events: final(self).spec_pack().events,
                ..old(self).spec_pack()
            }),
            final(self).spec_pack().events@ == old(self).spec_pack().events@.push(
                draft_event(draft, r.0),
            ),
            first_event_index(final(self).spec_pack().events@, r.0) matches Some(i) && issues_for(
                r.1@,
                final(self).spec_pack().events@[i],
                final(self).spec_pack().domain_profiles@,
            ),
    {
        let event_id = self.add_manual_event(draft);
        proof {
            let events = self.spec_pack().events@;
            lemma_first_event_index(events, event_id);
            if first_event_index(events, event_id).is_none() {
                assert(events[events.len() - 1].id == event_id);
            }
        }
        let issues = match self.find_event(event_id) {
            Some(i) => validate_timeline_event(&self.pack.events[i], &self.pack.domain_profiles),
            None => Vec::new(),
        };
        (event_id, issues)
    }

    /// The findings for every event that has some, in event order (an event
    /// whose id an earlier event already has is checked as that earlier event).
    pub fn validate_events(&self) -> (r: Vec<PackEventValidation>)
        ensures
            r@.len() == reported_indices(
                self.spec_pack().events@,
                self.spec_pack().domain_profiles@,
                self.spec_pack().events@.len() as int,
            ).len(),
            forall|k: int|
                0 <= k < r@.len() ==> {
                    let events = self.spec_pack().events@;
                    let i = reported_indices(
                        events,
                        self.spec_pack().domain_profiles@,
                        events.len() as int,
                    )[k];
                    &&& 0 <= i < events.len()
                    &&& (#[trigger] r@[k]).event_id == events[i].id
                    &&& first_event_index(events, events[i].id) matches Some(f) && issues_for(
                        r@[k].issues@,
                        events[f],
                        self.spec_pack().domain_profiles@,
                    )
                },
    {
        let ghost events = self.spec_pack().events@;
        let ghost profiles = self.spec_pack().domain_profiles@;
        let n = self.pack.events.len();
        let mut out: Vec<PackEventValidation> = Vec::new();
        let mut i: usize = 0;
        while i < n
            invariant
                n == events.len(),
                events == self.spec_pack().events@,
                profiles == self.spec_pack().domain_profiles@,
                i <= n,
                out@.len() == reported_indices(events, profiles, i as int).len(),
                forall|j: int| 0 <= j < reported_indices(events, profiles, i as int).len() ==> {
                    let x = #[trigger] reported_indices(events, profiles, i as int)[j];
                    0 <= x < i
                },
                forall|k: int|
                    0 <= k < out@.len() ==> {
                        let x = reported_indices(events, profiles, i as int)[k];
                        &&& (#[trigger] out@[k]).event_id == events[x].id
                        &&& first_event_index(events, events[x].id) matches Some(f) && issues_for(
                            out@[k].issues@,
                            events[f],
                            profiles,
                        )
                    },
            decreases n - i,
        {
            let id = self.pack.events[i].id;
            proof {
                lemma_first_event_index(events, id);
                assert(events[i as int].id == id);
            }
            let v = self.validate_event(id);
            let ghost prev = reported_indices(events, profiles, i as int);
            match v {
                Some(v) => {
                    out.push(v);
                    assert(reported_indices(events, profiles, i + 1) == prev.push(i as int));
                },
                None => {
                    assert(reported_indices(events, profiles, i + 1) == prev);
                },
            }
            i = i + 1;
        }
        out
    }
}

/// Law: an id that the builder allocates is not the id of any event already
/// in the pack, so drafts without an id never collide with earlier events.
pub proof fn law_allocated_event_id_is_fresh(events: Seq<TimelineEvent>)
    requires
        max_event_id(events) < u64::MAX,
    ensures
        forall|i: int|
            0 <= i < events.len() ==> (#[trigger] events[i]).id.0 != max_event_id(events) + 1,
{
    lemma_max_event_id(events);
}

/// Law: the axes that [`ManualEventDraft::with_scale_kinds`] sets are
/// exactly the kinds it keeps: `Composite`, `Interval` and `Boundary` each
/// appear in the kept list if and only if they appeared in the input.
pub proof fn law_scale_kinds_agree_with_axes(kinds: Seq<EventScaleKind>)
    ensures
        (composition_of(kept_scale_kinds(kinds)) == EventCompositionKind::Composite) <==> kinds.contains(
            EventScaleKind::Composite,
        ),
        (temporal_of(kept_scale_kinds(kinds)) == EventTemporalKind::Interval) <==> kinds.contains(
            EventScaleKind::Interval,
        ),
        (boundary_of(kept_scale_kinds(kinds)) == EventBoundaryKind::StartAndEnd) <==> kinds.contains(
            EventScaleKind::Boundary,
        ),
        kept_scale_kinds(kinds).len() > 0,
{
    lemma_dedup_contains(kinds, EventScaleKind::Composite);
    lemma_dedup_contains(kinds, EventScaleKind::Interval);
    lemma_dedup_contains(kinds, EventScaleKind::Boundary);
    if kinds.len() > 0 {
        lemma_dedup_nonempty(kinds);
    } else {
        let k = seq![EventScaleKind::Atomic];
        assert(!k.contains(EventScaleKind::Composite)) by {
            if k.contains(EventScaleKind::Composite) {
                let i = choose|i: int| 0 <= i < k.len() && k[i] == EventScaleKind::Composite;
            }
        }
        assert(!k.contains(EventScaleKind::Interval)) by {
            if k.contains(EventScaleKind::Interval) {
                let i = choose|i: int| 0 <= i < k.len() && k[i] == EventScaleKind::Interval;
            }
        }
        assert(!k.contains(EventScaleKind::Boundary)) by {
            if k.contains(EventScaleKind::Boundary) {
                let i = choose|i: int| 0 <= i < k.len() && k[i] == EventScaleKind::Boundary;
            }
        }
    }
}

} // verus!
