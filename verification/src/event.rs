//! Timeline events, their participants, times and relations, and the event
//! filter used by packs and timeline documents.
use vstd::prelude::*;
use crate::attribution::{Provenance, SourceRef, Tag};
use crate::model::{same_date_value, DateValue, EventId, PersonId, PlaceId};
use crate::text::{push_char, str_eq};

verus! {

/// Identifier of an event type, such as `genealogy.birth`.
#[derive(Debug, PartialEq, Eq)]
pub struct EventTypeId(pub String);

impl Clone for EventTypeId {
    fn clone(&self) -> (r: Self)
        ensures
            r == *self,
    {
        EventTypeId(self.0.clone())
    }
}

impl EventTypeId {
    pub fn new(value: &str) -> (r: Self)
        ensures
            r.0@ == value@,
    {
        EventTypeId(value.to_owned())
    }

    pub fn as_str(&self) -> (r: &str)
        ensures
            r@ == self.0@,
    {
        self.0.as_str()
    }
}

/// What an event participant (or a filter) refers to.
#[derive(Debug, Clone, Copy, PartialEq, Eq, Structural)]
pub enum EntityRef {
    Person(PersonId),
    Place(PlaceId),
    Event(EventId),
}

/// An entity described by a pack.
#[derive(Debug, PartialEq, Eq)]
pub struct Entity {
    pub id: EntityRef,
    pub name: String,
}

impl Clone for Entity {
    fn clone(&self) -> (r: Self)
        ensures
            r == *self,
    {
        Entity { id: self.id, name: self.name.clone() }
    }
}

/// A participant of an event, with its role (`child`, `subject`, ...).
#[derive(Debug, PartialEq, Eq)]
pub struct EventParticipant {
    pub entity: EntityRef,
    pub role: String,
}

impl Clone for EventParticipant {
    fn clone(&self) -> (r: Self)
        ensures
            r == *self,
    {
        EventParticipant { entity: self.entity, role: self.role.clone() }
    }
}

impl EventParticipant {
    pub fn new(entity: EntityRef, role: &str) -> (r: Self)
        ensures
            r.entity == entity,
            r.role@ == role@,
    {
        EventParticipant { entity, role: role.to_owned() }
    }

    pub fn person(person: PersonId, role: &str) -> (r: Self)
        ensures
            r.entity == EntityRef::Person(person),
            r.role@ == role@,
    {
        EventParticipant { entity: EntityRef::Person(person), role: role.to_owned() }
    }
}

#[derive(Debug, Clone, Copy, PartialEq, Eq, Structural)]
pub enum EventCompositionKind {
    Atomic,
    Composite,
}

#[derive(Debug, Clone, Copy, PartialEq, Eq, Structural)]
pub enum EventTemporalKind {
    Instant,
    Interval,
}

#[derive(Debug, Clone, Copy, PartialEq, Eq, Structural)]
pub enum EventBoundaryKind {
    NoBoundary,
    Start,
    End,
    StartAndEnd,
}

#[derive(Debug, Clone, Copy, PartialEq, Eq, Structural)]
pub enum EventScaleKind {
    Atomic,
    Composite,
    Interval,
    Boundary,
}

/// When an event happened, at whatever precision the source gives.
#[derive(Debug, PartialEq, Eq)]
pub enum TimeSpec {
    Unknown,
    Date(DateValue),
    Approximate { value: DateValue },
    Range { start: Option<DateValue>, end: Option<DateValue> },
    Before(DateValue),
    After(DateValue),
    Between { start: DateValue, end: DateValue },
    OriginalOnly { original: String },
}

pub open spec fn same_opt_date(a: Option<DateValue>, b: Option<DateValue>) -> bool {
    match (a, b) {
        (Some(x), Some(y)) => same_date_value(x, y),
        (None, None) => true,
        _ => false,
    }
}

/// Two times of the same form whose dates agree.
pub open spec fn same_time(a: TimeSpec, b: TimeSpec) -> bool {
    match (a, b) {
        (TimeSpec::Unknown, TimeSpec::Unknown) => true,
        (TimeSpec::Date(x), TimeSpec::Date(y)) => same_date_value(x, y),
        (TimeSpec::Approximate { value: x }, TimeSpec::Approximate { value: y }) => same_date_value(
            x,
            y,
        ),
        (TimeSpec::Range { start: s1, end: e1 }, TimeSpec::Range { start: s2, end: e2 }) =>
            same_opt_date(s1, s2) && same_opt_date(e1, e2),
        (TimeSpec::Before(x), TimeSpec::Before(y)) => same_date_value(x, y),
        (TimeSpec::After(x), TimeSpec::After(y)) => same_date_value(x, y),
        (TimeSpec::Between { start: s1, end: e1 }, TimeSpec::Between { start: s2, end: e2 }) =>
            same_date_value(s1, s2) && same_date_value(e1, e2),
        (TimeSpec::OriginalOnly { original: x }, TimeSpec::OriginalOnly { original: y }) => x == y,
        _ => false,
    }
}

fn clone_opt_date(d: &Option<DateValue>) -> (r: Option<DateValue>)
    ensures
        same_opt_date(r, *d),
{
    match d {
        Some(v) => Some(v.clone()),
        None => None,
    }
}

impl Clone for TimeSpec {
    fn clone(&self) -> (r: Self)
        ensures
            same_time(r, *self),
    {
        match self {
            TimeSpec::Unknown => TimeSpec::Unknown,
            TimeSpec::Date(d) => TimeSpec::Date(d.clone()),
            TimeSpec::Approximate { value } => TimeSpec::Approximate { value: value.clone() },
            TimeSpec::Range { start, end } => TimeSpec::Range {
                start: clone_opt_date(start),
                end: clone_opt_date(end),
            },
            TimeSpec::Before(d) => TimeSpec::Before(d.clone()),
            TimeSpec::After(d) => TimeSpec::After(d.clone()),
            TimeSpec::Between { start, end } => TimeSpec::Between {
                start: start.clone(),
                end: end.clone(),
            },
            TimeSpec::OriginalOnly { original } => TimeSpec::OriginalOnly {
                original: original.clone(),
            },
        }
    }
}

pub open spec fn range_earliest(d: DateValue) -> Option<i32> {
    match d.range {
        Some(r) => r.earliest_year,
        None => None,
    }
}

pub open spec fn range_latest(d: DateValue) -> Option<i32> {
    match d.range {
        Some(r) => r.latest_year,
        None => None,
    }
}

pub open spec fn opt_earliest(d: Option<DateValue>) -> Option<i32> {
    match d {
        Some(v) => range_earliest(v),
        None => None,
    }
}

pub open spec fn opt_latest(d: Option<DateValue>) -> Option<i32> {
    match d {
        Some(v) => range_latest(v),
        None => None,
    }
}

/// Whether displaying a date needs no out-of-range year arithmetic.
pub open spec fn date_displayable(d: DateValue) -> bool {
    d.historical matches Some(h) ==> h.bucket_start_fits()
}

impl TimeSpec {
    pub fn from_date_value(value: DateValue) -> (r: Self)
        ensures
            r == TimeSpec::Date(value),
    {
        TimeSpec::Date(value)
    }

    /// Earliest and latest year the time covers, as far as the source says.
    pub open spec fn spec_years(&self) -> (Option<i32>, Option<i32>) {
        match *self {
            TimeSpec::Unknown => (None, None),
            TimeSpec::OriginalOnly { .. } => (None, None),
            TimeSpec::Date(d) => (range_earliest(d), range_latest(d)),
            TimeSpec::Approximate { value } => (range_earliest(value), range_latest(value)),
            TimeSpec::Range { start, end } => (opt_earliest(start), opt_latest(end)),
            TimeSpec::Before(d) => (None, range_latest(d)),
            TimeSpec::After(d) => (range_earliest(d), None),
            TimeSpec::Between { start, end } => (range_earliest(start), range_latest(end)),
        }
    }

    pub fn years(&self) -> (r: (Option<i32>, Option<i32>))
        ensures
            r == self.spec_years(),
    {
        match self {
            TimeSpec::Unknown => (None, None),
            TimeSpec::OriginalOnly { .. } => (None, None),
            TimeSpec::Date(d) => (earliest_of(d), latest_of(d)),
            TimeSpec::Approximate { value } => (earliest_of(value), latest_of(value)),
            TimeSpec::Range { start, end } => (
                match start {
                    Some(d) => earliest_of(d),
                    None => None,
                },
                match end {
                    Some(d) => latest_of(d),
                    None => None,
                },
            ),
            TimeSpec::Before(d) => (None, latest_of(d)),
            TimeSpec::After(d) => (earliest_of(d), None),
            TimeSpec::Between { start, end } => (earliest_of(start), latest_of(end)),
        }
    }

    pub open spec fn displayable(&self) -> bool {
        match *self {
            TimeSpec::Date(d) => date_displayable(d),
            TimeSpec::Approximate { value } => date_displayable(value),
            TimeSpec::Range { start, end } => (start matches Some(d) ==> date_displayable(d)) && (
            end matches Some(d) ==> date_displayable(d)),
            TimeSpec::Before(d) => date_displayable(d),
            TimeSpec::After(d) => date_displayable(d),
            TimeSpec::Between { start, end } => date_displayable(start) && date_displayable(end),
            _ => true,
        }
    }

    /// Human-readable text of the time.
    pub open spec fn spec_display(&self) -> Seq<char> {
        match *self {
            TimeSpec::Unknown => "unknown date"@,
            TimeSpec::Date(d) => d.spec_display(),
            TimeSpec::Approximate { value } => "about "@ + value.spec_display(),
            TimeSpec::Range { start, end } => match (start, end) {
                (Some(s), Some(e)) => s.spec_display() + " to "@ + e.spec_display(),
                (Some(s), None) => s.spec_display() + " to present"@,
                (None, Some(e)) => "until "@ + e.spec_display(),
                (None, None) => "unknown date"@,
            },
            TimeSpec::Before(d) => "before "@ + d.spec_display(),
            TimeSpec::After(d) => "after "@ + d.spec_display(),
            TimeSpec::Between { start, end } => "between "@ + start.spec_display() + " and "@
                + end.spec_display(),
            TimeSpec::OriginalOnly { original } => original@,
        }
    }

    pub fn display(&self) -> (r: String)
        requires
            self.displayable(),
        ensures
            r@ == self.spec_display(),
    {
        match self {
            TimeSpec::Unknown => "unknown date".to_owned(),
            TimeSpec::Date(d) => d.display(),
            TimeSpec::Approximate { value } => {
                let mut r = "about ".to_owned();
                r.append(value.display().as_str());
                r
            },
            TimeSpec::Range { start, end } => match (start, end) {
                (Some(s), Some(e)) => {
                    let mut r = s.display();
                    r.append(" to ");
                    r.append(e.display().as_str());
                    r
                },
                (Some(s), None) => {
                    let mut r = s.display();
                    r.append(" to present");
                    r
                },
                (None, Some(e)) => {
                    let mut r = "until ".to_owned();
                    r.append(e.display().as_str());
                    r
                },
                (None, None) => "unknown date".to_owned(),
            },
            TimeSpec::Before(d) => {
                let mut r = "before ".to_owned();
                r.append(d.display().as_str());
                r
            },
            TimeSpec::After(d) => {
                let mut r = "after ".to_owned();
                r.append(d.display().as_str());
                r
            },
            TimeSpec::Between { start, end } => {
                let mut r = "between ".to_owned();
                r.append(start.display().as_str());
                r.append(" and ");
                r.append(end.display().as_str());
                r
            },
            TimeSpec::OriginalOnly { original } => original.clone(),
        }
    }
}

fn earliest_of(d: &DateValue) -> (r: Option<i32>)
    ensures
        r == range_earliest(*d),
{
    match &d.range {
        Some(range) => range.earliest_year,
        None => None,
    }
}

fn latest_of(d: &DateValue) -> (r: Option<i32>)
    ensures
        r == range_latest(*d),
{
    match &d.range {
        Some(range) => range.latest_year,
        None => None,
    }
}

/// One event on a timeline.
#[derive(Debug, PartialEq, Eq)]
pub struct TimelineEvent {
    pub id: EventId,
    pub title: String,
    pub type_ref: EventTypeId,
    pub time: TimeSpec,
    pub composition: EventCompositionKind,
    pub temporal: EventTemporalKind,
    pub boundary: EventBoundaryKind,
    pub scale_kinds: Vec<EventScaleKind>,
    pub place: Option<PlaceId>,
    pub participants: Vec<EventParticipant>,
    pub description: Option<String>,
    pub sources: Vec<SourceRef>,
    pub tags: Vec<Tag>,
    pub provenance: Provenance,
}

/// Two events that agree in every field (lists and provenance by contents).
pub open spec fn same_event(a: TimelineEvent, b: TimelineEvent) -> bool {
    &&& a.id == b.id
    &&& a.title == b.title
    &&& a.type_ref == b.type_ref
    &&& same_time(a.time, b.time)
    &&& a.composition == b.composition
    &&& a.temporal == b.temporal
    &&& a.boundary == b.boundary
    &&& a.scale_kinds@ == b.scale_kinds@
    &&& a.place == b.place
    &&& a.participants@ == b.participants@
    &&& a.description == b.description
    &&& a.sources@ == b.sources@
    &&& a.tags@ == b.tags@
    &&& a.provenance.sources@ == b.provenance.sources@
    &&& a.provenance.tags@ == b.provenance.tags@
}

impl Clone for TimelineEvent {
    fn clone(&self) -> (r: Self)
        ensures
            same_event(r, *self),
    {
        let scale_kinds = self.scale_kinds.clone();
        let participants = self.participants.clone();
        let sources = self.sources.clone();
        let tags = self.tags.clone();
        assert(scale_kinds@ =~= self.scale_kinds@);
        assert(participants@ =~= self.participants@);
        assert(sources@ =~= self.sources@);
        assert(tags@ =~= self.tags@);
        TimelineEvent {
            id: self.id,
            title: self.title.clone(),
            type_ref: self.type_ref.clone(),
            time: self.time.clone(),
            composition: self.composition,
            temporal: self.temporal,
            boundary: self.boundary,
            scale_kinds,
            place: self.place,
            participants,
            description: match &self.description {
                Some(d) => Some(d.clone()),
                None => None,
            },
            sources,
            tags,
            provenance: self.provenance.clone(),
        }
    }
}

impl TimelineEvent {
    /// An atomic, instant event of unknown time with no participants.
    pub fn new(id: EventId, type_ref: EventTypeId, title: &str) -> (r: Self)
        ensures
            r.id == id,
            r.type_ref == type_ref,
            r.title@ == title@,
            r.time == TimeSpec::Unknown,
            r.composition == EventCompositionKind::Atomic,
            r.temporal == EventTemporalKind::Instant,
            r.boundary == EventBoundaryKind::NoBoundary,
            r.scale_kinds@ == seq![EventScaleKind::Atomic],
            r.place.is_none(),
            r.participants@.len() == 0,
            r.description.is_none(),
            r.sources@.len() == 0,
            r.tags@.len() == 0,
    {
        let mut scale_kinds = Vec::new();
        scale_kinds.push(EventScaleKind::Atomic);
        TimelineEvent {
            id,
            title: title.to_owned(),
            type_ref,
            time: TimeSpec::Unknown,
            composition: EventCompositionKind::Atomic,
            temporal: EventTemporalKind::Instant,
            boundary: EventBoundaryKind::NoBoundary,
            scale_kinds,
            place: None,
            participants: Vec::new(),
            description: None,
            sources: Vec::new(),
            tags: Vec::new(),
            provenance: Provenance::empty(),
        }
    }

    pub fn with_time(self, time: TimeSpec) -> (r: Self)
        ensures
            r == (TimelineEvent { time, ..self }),
    {
        TimelineEvent { time, ..self }
    }

    pub fn with_participant(self, participant: EventParticipant) -> (r: Self)
        ensures
            r.participants@ == self.participants@.push(participant),
            r == (TimelineEvent { participants: r.participants, ..self }),
    {
        let mut s = self;
        s.participants.push(participant);
        s
    }

    pub fn is_interval(&self) -> (r: bool)
        ensures
            r == (self.temporal == EventTemporalKind::Interval),
    {
        self.temporal == EventTemporalKind::Interval
    }
}

#[derive(Debug, PartialEq, Eq)]
pub enum EventRelationKind {
    Starts,
    Ends,
    Contains,
    OccursWithin,
    EvidenceFor,
    Summarizes,
    ContextFor,
    SubEvent,
    Custom(String),
}

impl Clone for EventRelationKind {
    fn clone(&self) -> (r: Self)
        ensures
            r == *self,
    {
        match self {
            EventRelationKind::Starts => EventRelationKind::Starts,
            EventRelationKind::Ends => EventRelationKind::Ends,
            EventRelationKind::Contains => EventRelationKind::Contains,
            EventRelationKind::OccursWithin => EventRelationKind::OccursWithin,
            EventRelationKind::EvidenceFor => EventRelationKind::EvidenceFor,
            EventRelationKind::Summarizes => EventRelationKind::Summarizes,
            EventRelationKind::ContextFor => EventRelationKind::ContextFor,
            EventRelationKind::SubEvent => EventRelationKind::SubEvent,
            EventRelationKind::Custom(s) => EventRelationKind::Custom(s.clone()),
        }
    }
}

/// A directed relation from a parent event to a child event.
#[derive(Debug, PartialEq, Eq)]
pub struct EventRelation {
    pub parent_event_id: EventId,
    pub child_event_id: EventId,
    pub kind: EventRelationKind,
}

impl Clone for EventRelation {
    fn clone(&self) -> (r: Self)
        ensures
            r == *self,
    {
        EventRelation {
            parent_event_id: self.parent_event_id,
            child_event_id: self.child_event_id,
            kind: self.kind.clone(),
        }
    }
}

impl EventRelation {
    pub fn new(parent_event_id: EventId, child_event_id: EventId, kind: EventRelationKind) -> (r:
        Self)
        ensures
            r == (EventRelation { parent_event_id, child_event_id, kind }),
    {
        EventRelation { parent_event_id, child_event_id, kind }
    }
}

/// The relations that tie a composite event to its start and end boundary
/// events: `Starts` to the start, then `Ends` to the end, for those given.
pub fn boundary_relations_for_composite(
    composite: EventId,
    start: Option<EventId>,
    end: Option<EventId>,
) -> (r: Vec<EventRelation>)
    ensures
        r@ == (match start {
            Some(s) => seq![EventRelation { parent_event_id: composite, child_event_id: s, kind: EventRelationKind::Starts }],
            None => Seq::<EventRelation>::empty(),
        }) + (match end {
            Some(e) => seq![EventRelation { parent_event_id: composite, child_event_id: e, kind: EventRelationKind::Ends }],
            None => Seq::<EventRelation>::empty(),
        }),
{
    let mut relations: Vec<EventRelation> = Vec::new();
    match start {
        Some(s) => relations.push(EventRelation::new(composite, s, EventRelationKind::Starts)),
        None => {},
    }
    match end {
        Some(e) => relations.push(EventRelation::new(composite, e, EventRelationKind::Ends)),
        None => {},
    }
    assert(relations@ =~= (match start {
        Some(s) => seq![EventRelation { parent_event_id: composite, child_event_id: s, kind: EventRelationKind::Starts }],
        None => Seq::<EventRelation>::empty(),
    }) + (match end {
        Some(e) => seq![EventRelation { parent_event_id: composite, child_event_id: e, kind: EventRelationKind::Ends }],
        None => Seq::<EventRelation>::empty(),
    }));
    relations
}

/// An inclusive span of years; an absent end is open.
#[derive(Debug, Clone, Copy, PartialEq, Eq, Structural)]
pub struct YearSpan {
    pub start: Option<i32>,
    pub end: Option<i32>,
}

impl YearSpan {
    pub fn exact(year: i32) -> (r: Self)
        ensures
            r == (YearSpan { start: Some(year), end: Some(year) }),
    {
        YearSpan { start: Some(year), end: Some(year) }
    }

    pub fn new(start: Option<i32>, end: Option<i32>) -> (r: Self)
        ensures
            r == (YearSpan { start, end }),
    {
        YearSpan { start, end }
    }
}

/// Whether known years `(earliest, latest)` of an event meet a year span:
/// some year must be known, and no known bound may lie outside the span.
pub open spec fn years_overlap(years: (Option<i32>, Option<i32>), span: YearSpan) -> bool {
    &&& (years.0.is_some() || years.1.is_some())
    &&& !(years.1 matches Some(l) && span.start matches Some(s) && l < s)
    &&& !(years.0 matches Some(e) && span.end matches Some(t) && e > t)
}

/// A span of one year.
pub open spec fn year_only(year: i32) -> YearSpan {
    YearSpan { start: Some(year), end: Some(year) }
}

/// The years of a time between two dates run from the earliest year of the
/// start to the latest year of the end: the earliest year of the interval
/// is that of the start taken as a date, and its latest year that of the
/// end taken as a date. So every year inside the interval meets the time.
pub proof fn law_between_covers_its_interval(start: DateValue, end: DateValue, year: i32)
    ensures
        (TimeSpec::Between { start, end }).spec_years().0 == (TimeSpec::Date(start)).spec_years().0,
        (TimeSpec::Between { start, end }).spec_years().1 == (TimeSpec::Date(end)).spec_years().1,
        ((TimeSpec::Date(start)).spec_years().0 matches Some(a) && a <= year)
            && ((TimeSpec::Date(end)).spec_years().1 matches Some(b) && year <= b)
            ==> years_overlap((TimeSpec::Between { start, end }).spec_years(), year_only(year)),
{
}

/// The kinds of time agree on their years: an approximate date has the
/// years of the date, a range with both ends those of the time between
/// them, a time before a date ends where the date ends and has no earliest
/// year, a time after a date starts where the date starts and has no latest
/// year, and a date's earliest year comes from the date itself.
pub proof fn law_time_kinds_agree_on_years(start: DateValue, end: DateValue)
    ensures
        (TimeSpec::Approximate { value: start }).spec_years() == (TimeSpec::Date(start)).spec_years(),
        (TimeSpec::Range { start: Some(start), end: Some(end) }).spec_years()
            == (TimeSpec::Between { start, end }).spec_years(),
        (TimeSpec::Before(end)).spec_years() == (None::<i32>, (TimeSpec::Date(end)).spec_years().1),
        (TimeSpec::After(start)).spec_years() == ((TimeSpec::Date(start)).spec_years().0, None::<i32>),
        (TimeSpec::Date(start)).spec_years() == (
            match start.range { Some(r) => r.earliest_year, None => None },
            match start.range { Some(r) => r.latest_year, None => None },
        ),
{
}

fn overlaps(years: (Option<i32>, Option<i32>), span: YearSpan) -> (r: bool)
    ensures
        r == years_overlap(years, span),
{
    if years.0.is_none() && years.1.is_none() {
        return false;
    }
    if let (Some(l), Some(s)) = (years.1, span.start) {
        if l < s {
            return false;
        }
    }
    if let (Some(e), Some(t)) = (years.0, span.end) {
        if e > t {
            return false;
        }
    }
    true
}

/// Criteria for selecting events; an absent criterion selects everything.
#[derive(Debug, Clone, PartialEq, Eq)]
pub struct TimelineEventFilter {
    pub entity: Option<EntityRef>,
    pub event_type: Option<EventTypeId>,
    pub years: Option<YearSpan>,
}

pub open spec fn has_participant(event: TimelineEvent, entity: EntityRef) -> bool {
    exists|i: int| 0 <= i < event.participants@.len() && (#[trigger] event.participants@[i]).entity == entity
}

impl TimelineEventFilter {
    pub fn new() -> (r: Self)
        ensures
            r == (TimelineEventFilter { entity: None, event_type: None, years: None }),
    {
        TimelineEventFilter { entity: None, event_type: None, years: None }
    }

    pub fn for_entity(entity: EntityRef) -> (r: Self)
        ensures
            r == (TimelineEventFilter { entity: Some(entity), event_type: None, years: None }),
    {
        TimelineEventFilter { entity: Some(entity), event_type: None, years: None }
    }

    pub fn with_event_type(self, event_type: EventTypeId) -> (r: Self)
        ensures
            r == (TimelineEventFilter { event_type: Some(event_type), ..self }),
    {
        TimelineEventFilter { event_type: Some(event_type), ..self }
    }

    pub fn with_year_span(self, years: YearSpan) -> (r: Self)
        ensures
            r == (TimelineEventFilter { years: Some(years), ..self }),
    {
        TimelineEventFilter { years: Some(years), ..self }
    }

    pub open spec fn spec_matches(&self, event: TimelineEvent) -> bool {
        &&& (self.entity matches Some(e) ==> has_participant(event, e))
        &&& (self.event_type matches Some(t) ==> event.type_ref.0@ == t.0@)
        &&& (self.years matches Some(span) ==> years_overlap(event.time.spec_years(), span))
    }

    pub fn matches(&self, event: &TimelineEvent) -> (r: bool)
        ensures
            r == self.spec_matches(*event),
    {
        if let Some(entity) = self.entity {
            let n = event.participants.len();
            let mut found = false;
            let mut i: usize = 0;
            while i < n
                invariant
                    n == event.participants@.len(),
                    i <= n,
                    found == exists|j: int| 0 <= j < i && (#[trigger] event.participants@[j]).entity == entity,
                decreases n - i,
            {
                if event.participants[i].entity == entity {
                    found = true;
                }
                i = i + 1;
            }
            if !found {
                return false;
            }
        }
        if let Some(event_type) = &self.event_type {
            if !str_eq(event.type_ref.0.as_str(), event_type.0.as_str()) {
                return false;
            }
        }
        if let Some(span) = self.years {
            if !overlaps(event.time.years(), span) {
                return false;
            }
        }
        true
    }
}

/// One more element read by a filtering loop.
pub proof fn lemma_filter_step<T>(s: Seq<T>, i: int, p: spec_fn(T) -> bool)
    requires
        0 <= i < s.len(),
    ensures
        s.take(i + 1).filter(p) == (if p(s[i]) {
            s.take(i).filter(p).push(s[i])
        } else {
            s.take(i).filter(p)
        }),
{
    assert(s.take(i + 1) =~= s.take(i).push(s[i]));
    s.take(i).lemma_filter_push(s[i], p);
}

/// The values behind a sequence of references.
pub open spec fn deref_all<T>(s: Seq<&T>) -> Seq<T> {
    s.map_values(|x: &T| *x)
}

/// The events that a filter selects, in their order.
pub fn filter_timeline_events<'a>(events: &'a Vec<TimelineEvent>, filter: &TimelineEventFilter) -> (r:
    Vec<&'a TimelineEvent>)
    ensures
        deref_all(r@) == events@.filter(|e: TimelineEvent| filter.spec_matches(e)),
{
    let mut r: Vec<&'a TimelineEvent> = Vec::new();
    let n = events.len();
    let mut i: usize = 0;
    while i < n
        invariant
            n == events@.len(),
            i <= n,
            deref_all(r@) == events@.take(i as int).filter(|e: TimelineEvent| filter.spec_matches(e)),
        decreases n - i,
    {
        let e = &events[i];
        let ghost prev = r@;
        proof {
            assert(events@.take(i + 1) =~= events@.take(i as int).push(events@[i as int]));
            events@.take(i as int).lemma_filter_push(
                events@[i as int],
                |e: TimelineEvent| filter.spec_matches(e),
            );
        }
        if filter.matches(e) {
            r.push(e);
            assert(deref_all(r@) =~= deref_all(prev).push(*e));
        }
        i = i + 1;
    }
    assert(events@.take(n as int) =~= events@);
    r
}

/// An ordered or unordered set of events.
#[derive(Debug, PartialEq, Eq)]
pub struct EventCollectionId(pub String);

impl Clone for EventCollectionId {
    fn clone(&self) -> (r: Self)
        ensures
            r == *self,
    {
        EventCollectionId(self.0.clone())
    }
}

impl EventCollectionId {
    pub fn new(value: &str) -> (r: Self)
        ensures
            r.0@ == value@,
    {
        EventCollectionId(value.to_owned())
    }

    pub fn as_str(&self) -> (r: &str)
        ensures
            r@ == self.0@,
    {
        self.0.as_str()
    }
}

#[derive(Debug, Clone, Copy, PartialEq, Eq, Structural)]
pub enum EventCollectionKind {
    Unordered,
    Sequence,
}

#[derive(Debug, Clone, Copy, PartialEq, Eq, Structural)]
pub struct EventCollectionMember {
    pub event_id: EventId,
}

impl EventCollectionMember {
    pub fn new(event_id: EventId) -> (r: Self)
        ensures
            r.event_id == event_id,
    {
        EventCollectionMember { event_id }
    }
}

#[derive(Debug, PartialEq, Eq)]
pub struct EventCollection {
    pub id: EventCollectionId,
    pub title: String,
    pub kind: EventCollectionKind,
    pub members: Vec<EventCollectionMember>,
}

impl Clone for EventCollection {
    fn clone(&self) -> (r: Self)
        ensures
            r.id == self.id,
            r.title == self.title,
            r.kind == self.kind,
            r.members@ == self.members@,
    {
        let members = self.members.clone();
        assert(members@ =~= self.members@);
        EventCollection { id: self.id.clone(), title: self.title.clone(), kind: self.kind, members }
    }
}

pub open spec fn collection_has_event(c: EventCollection, event_id: EventId) -> bool {
    exists|i: int| 0 <= i < c.members@.len() && (#[trigger] c.members@[i]).event_id == event_id
}

impl EventCollection {
    pub fn new(id: EventCollectionId, title: &str, kind: EventCollectionKind) -> (r: Self)
        ensures
            r.id == id,
            r.title@ == title@,
            r.kind == kind,
            r.members@.len() == 0,
    {
        EventCollection { id, title: title.to_owned(), kind, members: Vec::new() }
    }

    pub fn with_member(self, member: EventCollectionMember) -> (r: Self)
        ensures
            r.members@ == self.members@.push(member),
            r.id == self.id,
            r.title == self.title,
            r.kind == self.kind,
    {
        let mut s = self;
        s.members.push(member);
        s
    }

    pub fn contains_event(&self, event_id: EventId) -> (r: bool)
        ensures
            r == collection_has_event(*self, event_id),
    {
        let n = self.members.len();
        let mut i: usize = 0;
        while i < n
            invariant
                n == self.members@.len(),
                i <= n,
                forall|j: int| 0 <= j < i ==> (#[trigger] self.members@[j]).event_id != event_id,
            decreases n - i,
        {
            if self.members[i].event_id == event_id {
                return true;
            }
            i = i + 1;
        }
        false
    }
}

/// One event type of a domain profile, with the participant role that an
/// event of the type must have, when it must have one.
#[derive(Debug, PartialEq, Eq)]
pub struct EventTypeDefinition {
    pub id: EventTypeId,
    pub label: String,
    pub required_role: Option<String>,
}

impl Clone for EventTypeDefinition {
    fn clone(&self) -> (r: Self)
        ensures
            r == *self,
    {
        EventTypeDefinition {
            id: self.id.clone(),
            label: self.label.clone(),
            required_role: match &self.required_role {
                Some(role) => Some(role.clone()),
                None => None,
            },
        }
    }
}

impl EventTypeDefinition {
    /// A type that asks for no particular participant role.
    pub fn new(id: &str, label: &str) -> (r: Self)
        ensures
            r.id.0@ == id@,
            r.label@ == label@,
            r.required_role.is_none(),
    {
        EventTypeDefinition { id: EventTypeId::new(id), label: label.to_owned(), required_role: None }
    }

    pub fn with_required_role(self, role: &str) -> (r: Self)
        ensures
            r.id == self.id,
            r.label == self.label,
            r.required_role matches Some(x) && x@ == role@,
    {
        EventTypeDefinition { required_role: Some(role.to_owned()), ..self }
    }
}

/// Vocabulary of event types that a domain (genealogy, journaling, ...) uses.
#[derive(Debug, PartialEq, Eq)]
pub struct DomainProfile {
    pub id: String,
    pub title: String,
    pub event_types: Vec<EventTypeDefinition>,
}

impl Clone for DomainProfile {
    fn clone(&self) -> (r: Self)
        ensures
            r.id == self.id,
            r.title == self.title,
            r.event_types@ == self.event_types@,
    {
        let event_types = self.event_types.clone();
        assert(event_types@ =~= self.event_types@);
        DomainProfile { id: self.id.clone(), title: self.title.clone(), event_types }
    }
}

} // verus!
