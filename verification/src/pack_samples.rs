//! Small sample packs for tests, demos, and UI scaffolding.
//!
//! These packs are intentionally tiny. They demonstrate the event-pack,
//! builder, validation, and composition primitives without depending on
//! GEDCOM, SQLite, or browser storage.
use vstd::prelude::*;
use crate::attribution::Provenance;
use crate::event::{
    boundary_relations_for_composite, EntityRef, EventBoundaryKind, EventCompositionKind,
    EventParticipant, EventRelation, EventRelationKind, EventTemporalKind, EventTypeId, TimeSpec,
    TimelineEvent,
};
use crate::event_type::{
    genealogy_domain_profile, is_genealogy_profile, is_journal_profile, journal_domain_profile,
};
use crate::model::{DateValue, EventId, PersonId};
use crate::pack::{EventPack, PackId, PackKind, PackMetadata, TimelineDocument};
use crate::pack_builder::{max_event_id, spec_scale_kinds_from_axes, EventPackBuilder, ManualEventDraft};
use crate::timeline_source::{
    compiled_from, event_pack_from_timeline_source, is_source_date, TimelineSource, TimelineSourceItem,
    TimelineSourceMeta, TimelineSourcePackKind,
};

verus! {

/// `e` has the given id, type, title and axes, and no place, sources or tags.
pub open spec fn sample_event(
    e: TimelineEvent,
    id: u64,
    type_ref: Seq<char>,
    title: Seq<char>,
    composition: EventCompositionKind,
    temporal: EventTemporalKind,
    boundary: EventBoundaryKind,
) -> bool {
    &&& e.id == EventId(id)
    &&& e.type_ref.0@ == type_ref
    &&& e.title@ == title
    &&& e.composition == composition
    &&& e.temporal == temporal
    &&& e.boundary == boundary
    &&& e.scale_kinds@ == spec_scale_kinds_from_axes(composition, temporal, boundary)
    &&& e.place.is_none()
    &&& e.sources@.len() == 0
    &&& e.tags@.len() == 0
    &&& e.provenance.is_empty_spec()
}

pub open spec fn dated(e: TimelineEvent, date: Seq<char>) -> bool {
    e.time matches TimeSpec::Date(d) && is_source_date(d, date)
}

pub open spec fn ranged(e: TimelineEvent, start: Seq<char>, end: Seq<char>) -> bool {
    e.time matches TimeSpec::Range { start: Some(s), end: Some(x) } && is_source_date(s, start)
        && is_source_date(x, end)
}

pub open spec fn with_person(e: TimelineEvent, person: u64, role: Seq<char>) -> bool {
    &&& e.participants@.len() == 1
    &&& e.participants@[0].entity == EntityRef::Person(PersonId(person))
    &&& e.participants@[0].role@ == role
}

pub open spec fn described(e: TimelineEvent, text: Seq<char>) -> bool {
    e.description matches Some(d) && d@ == text
}

/// Metadata at version `0.1.0` with only an id and a title.
pub open spec fn plain_metadata(p: EventPack, id: Seq<char>, title: Seq<char>) -> bool {
    &&& p.metadata.id.0@ == id
    &&& p.metadata.title@ == title
    &&& p.metadata.version@ == "0.1.0"@
    &&& p.metadata.description.is_none()
    &&& p.metadata.author.is_none()
    &&& p.metadata.license.is_none()
    &&& p.metadata.created_at.is_none()
    &&& p.metadata.updated_at.is_none()
}

/// Nothing in the pack besides profiles, events and relations.
pub open spec fn only_events(p: EventPack) -> bool {
    &&& p.entities@.len() == 0
    &&& p.event_collections@.len() == 0
    &&& p.sources@.len() == 0
    &&& p.tags@.len() == 0
    &&& p.provenance.is_empty_spec()
}

pub open spec fn is_sample_journal_pack(p: EventPack) -> bool {
    &&& plain_metadata(p, "sample:journal"@, "Sample journal"@)
    &&& p.kind == PackKind::UserJournal
    &&& only_events(p)
    &&& p.domain_profiles@.len() == 1
    &&& is_journal_profile(p.domain_profiles@[0])
    &&& p.events@.len() == 1
    &&& sample_event(
        p.events@[0],
        1,
        "journal.entry"@,
        "Started a research journal"@,
        EventCompositionKind::Atomic,
        EventTemporalKind::Instant,
        EventBoundaryKind::NoBoundary,
    )
    &&& dated(p.events@[0], "2026-07-06"@)
    &&& p.events@[0].participants@.len() == 0
    &&& described(p.events@[0], "A small sample journal entry for Kleio timeline UI scaffolding."@)
    &&& p.event_relations@.len() == 0
}

pub open spec fn is_sample_biography_pack(p: EventPack) -> bool {
    &&& plain_metadata(p, "sample:biography"@, "Sample biography"@)
    &&& p.kind == PackKind::Biography
    &&& only_events(p)
    &&& p.domain_profiles@.len() == 1
    &&& is_genealogy_profile(p.domain_profiles@[0])
    &&& p.events@.len() == 3
    &&& sample_event(
        p.events@[0],
        1,
        "genealogy.birth"@,
        "Birth of sample person"@,
        EventCompositionKind::Atomic,
        EventTemporalKind::Instant,
        EventBoundaryKind::Start,
    )
    &&& dated(p.events@[0], "1901"@)
    &&& with_person(p.events@[0], 1, "child"@)
    &&& p.events@[0].description.is_none()
    &&& sample_event(
        p.events@[1],
        2,
        "genealogy.death"@,
        "Death of sample person"@,
        EventCompositionKind::Atomic,
        EventTemporalKind::Instant,
        EventBoundaryKind::End,
    )
    &&& dated(p.events@[1], "1980"@)
    &&& with_person(p.events@[1], 1, "deceased"@)
    &&& p.events@[1].description.is_none()
    &&& sample_event(
        p.events@[2],
        3,
        "genealogy.life"@,
        "Sample person lived"@,
        EventCompositionKind::Composite,
        EventTemporalKind::Interval,
        EventBoundaryKind::NoBoundary,
    )
    &&& ranged(p.events@[2], "1901"@, "1980"@)
    &&& with_person(p.events@[2], 1, "subject"@)
    &&& described(
        p.events@[2],
        "Template life interval: birth year/date to present. Add a death event/end boundary only when modeling a deceased person."@,
    )
    &&& p.event_relations@ == seq![
        EventRelation { parent_event_id: EventId(3), child_event_id: EventId(1), kind: EventRelationKind::Starts },
        EventRelation { parent_event_id: EventId(3), child_event_id: EventId(2), kind: EventRelationKind::Ends },
    ]
}

pub open spec fn is_sample_history_pack(p: EventPack) -> bool {
    &&& plain_metadata(p, "sample:history"@, "Sample history"@)
    &&& p.kind == PackKind::HistoricalTimeline
    &&& only_events(p)
    &&& p.domain_profiles@.len() == 0
    &&& p.events@.len() == 2
    &&& sample_event(
        p.events@[0],
        1,
        "history.period"@,
        "A sample historical period"@,
        EventCompositionKind::Composite,
        EventTemporalKind::Interval,
        EventBoundaryKind::NoBoundary,
    )
    &&& ranged(p.events@[0], "1939"@, "1945"@)
    &&& p.events@[0].participants@.len() == 0
    &&& p.events@[0].description.is_none()
    &&& sample_event(
        p.events@[1],
        2,
        "history.event"@,
        "A sample event inside the period"@,
        EventCompositionKind::Atomic,
        EventTemporalKind::Instant,
        EventBoundaryKind::NoBoundary,
    )
    &&& dated(p.events@[1], "1942"@)
    &&& p.events@[1].participants@.len() == 0
    &&& p.events@[1].description.is_none()
    &&& p.event_relations@ == seq![
        EventRelation { parent_event_id: EventId(1), child_event_id: EventId(2), kind: EventRelationKind::Contains },
    ]
}

/// A journal pack with one dated entry.
pub fn sample_journal_pack() -> (r: EventPack)
    ensures
        is_sample_journal_pack(r),
{
    let mut builder = EventPackBuilder::new(
        PackMetadata::new(PackId::new("sample:journal"), "Sample journal"),
        PackKind::UserJournal,
    );
    builder.add_domain_profile(journal_domain_profile());
    proof {
        reveal_with_fuel(max_event_id, 2);
    }
    builder.add_manual_event(
        ManualEventDraft::new(EventTypeId::new("journal.entry"), "Started a research journal").with_time(
            TimeSpec::from_date_value(
                DateValue::from_original("2026-07-06".to_owned(), Provenance::empty()),
            ),
        ).with_description("A small sample journal entry for Kleio timeline UI scaffolding."),
    );
    builder.into_pack()
}

/// A biography: a birth, a death, and the life between them tied to both.
pub fn sample_biography_pack() -> (r: EventPack)
    ensures
        is_sample_biography_pack(r),
{
    let person_id = PersonId(1);
    let mut builder = EventPackBuilder::new(
        PackMetadata::new(PackId::new("sample:biography"), "Sample biography"),
        PackKind::Biography,
    );
    builder.add_domain_profile(genealogy_domain_profile());
    proof {
        reveal_with_fuel(max_event_id, 4);
    }
    let birth_id = builder.add_manual_event(
        ManualEventDraft::new(EventTypeId::new("genealogy.birth"), "Birth of sample person")
            .with_boundary_kind(EventBoundaryKind::Start).with_time(
            TimeSpec::from_date_value(DateValue::from_original("1901".to_owned(), Provenance::empty())),
        ).with_participant(EventParticipant::person(person_id, "child")),
    );
    let death_id = builder.add_manual_event(
        ManualEventDraft::new(EventTypeId::new("genealogy.death"), "Death of sample person")
            .with_boundary_kind(EventBoundaryKind::End).with_time(
            TimeSpec::from_date_value(DateValue::from_original("1980".to_owned(), Provenance::empty())),
        ).with_participant(EventParticipant::person(person_id, "deceased")),
    );
    let life_id = builder.add_manual_event(
        ManualEventDraft::new(EventTypeId::new("genealogy.life"), "Sample person lived")
            .with_composition_kind(EventCompositionKind::Composite).with_temporal_kind(
            EventTemporalKind::Interval,
        ).with_time(
            TimeSpec::Range {
                start: Some(DateValue::from_original("1901".to_owned(), Provenance::empty())),
                end: Some(DateValue::from_original("1980".to_owned(), Provenance::empty())),
            },
        ).with_participant(EventParticipant::person(person_id, "subject")).with_description(
            "Template life interval: birth year/date to present. Add a death event/end boundary only when modeling a deceased person.",
        ),
    );
    let relations = boundary_relations_for_composite(life_id, Some(birth_id), Some(death_id));
    let ghost before = builder.spec_pack();
    let mut i: usize = 0;
    while i < relations.len()
        invariant
            i <= relations@.len(),
            relations@.len() == 2,
            builder.spec_pack() == (EventPack {
                event_relations: builder.spec_pack().event_relations,
                ..before
            }),
            builder.spec_pack().event_relations@ == before.event_relations@ + relations@.take(
                i as int,
            ),
        decreases relations@.len() - i,
    {
        builder.add_event_relation(relations[i].clone());
        assert(relations@.take(i + 1) =~= relations@.take(i as int).push(relations@[i as int]));
        i = i + 1;
    }
    assert(relations@.take(2) =~= relations@);
    assert(birth_id == EventId(1) && death_id == EventId(2) && life_id == EventId(3));
    assert(builder.spec_pack().event_relations@ =~= seq![
        EventRelation { parent_event_id: EventId(3), child_event_id: EventId(1), kind: EventRelationKind::Starts },
        EventRelation { parent_event_id: EventId(3), child_event_id: EventId(2), kind: EventRelationKind::Ends },
    ]);
    builder.into_pack()
}

/// A historical period and an event inside it.
pub fn sample_history_pack() -> (r: EventPack)
    ensures
        is_sample_history_pack(r),
{
    let mut builder = EventPackBuilder::new(
        PackMetadata::new(PackId::new("sample:history"), "Sample history"),
        PackKind::HistoricalTimeline,
    );
    proof {
        reveal_with_fuel(max_event_id, 3);
    }
    builder.add_manual_event(
        ManualEventDraft::new(EventTypeId::new("history.period"), "A sample historical period")
            .with_composition_kind(EventCompositionKind::Composite).with_temporal_kind(
            EventTemporalKind::Interval,
        ).with_time(
            TimeSpec::Range {
                start: Some(DateValue::from_original("1939".to_owned(), Provenance::empty())),
                end: Some(DateValue::from_original("1945".to_owned(), Provenance::empty())),
            },
        ),
    );
    builder.add_manual_event(
        ManualEventDraft::new(EventTypeId::new("history.event"), "A sample event inside the period")
            .with_time(
            TimeSpec::from_date_value(DateValue::from_original("1942".to_owned(), Provenance::empty())),
        ),
    );
    builder.add_event_relation(
        EventRelation::new(EventId(1), EventId(2), EventRelationKind::Contains),
    );
    assert(builder.spec_pack().event_relations@ =~= seq![
        EventRelation { parent_event_id: EventId(1), child_event_id: EventId(2), kind: EventRelationKind::Contains },
    ]);
    builder.into_pack()
}

pub open spec fn opt_str(o: Option<&str>) -> Option<Seq<char>> {
    match o {
        Some(s) => Some(s@),
        None => None,
    }
}

pub open spec fn opt_string(o: Option<String>) -> Option<Seq<char>> {
    match o {
        Some(s) => Some(s@),
        None => None,
    }
}

/// `item` has exactly these fields.
pub open spec fn item_is(
    item: TimelineSourceItem,
    section: Seq<char>,
    title: Seq<char>,
    start: Seq<char>,
    end: Option<Seq<char>>,
    current: bool,
    place: Option<Seq<char>>,
    details: Option<Seq<char>>,
    start_label: Option<Seq<char>>,
    end_label: Option<Seq<char>>,
) -> bool {
    &&& item.section@ == section
    &&& item.title@ == title
    &&& item.start@ == start
    &&& opt_string(item.end) == end
    &&& item.current == current
    &&& opt_string(item.place) == place
    &&& opt_string(item.details) == details
    &&& opt_string(item.start_label) == start_label
    &&& opt_string(item.end_label) == end_label
}

fn owned_opt(o: Option<&str>) -> (r: Option<String>)
    ensures
        opt_string(r) == opt_str(o),
{
    match o {
        Some(s) => Some(s.to_owned()),
        None => None,
    }
}

fn source_item(
    section: &str,
    title: &str,
    start: &str,
    end: Option<&str>,
    current: bool,
    place: Option<&str>,
    details: Option<&str>,
    start_label: Option<&str>,
    end_label: Option<&str>,
) -> (r: TimelineSourceItem)
    ensures
        item_is(
            r,
            section@,
            title@,
            start@,
            opt_str(end),
            current,
            opt_str(place),
            opt_str(details),
            opt_str(start_label),
            opt_str(end_label),
        ),
{
    TimelineSourceItem {
        section: section.to_owned(),
        title: title.to_owned(),
        start: start.to_owned(),
        end: owned_opt(end),
        current,
        place: owned_opt(place),
        details: owned_opt(details),
        start_label: owned_opt(start_label),
        end_label: owned_opt(end_label),
    }
}

/// The starter personal timeline that [`sample_life_stages_source`] returns.
pub open spec fn is_life_stages_source(s: TimelineSource) -> bool {
    &&& opt_string(s.meta.id) == Some("sample:life-stages"@)
    &&& s.meta.title@ == "Life timeline template"@
    &&& s.meta.kind == Some(TimelineSourcePackKind::Biography)
    &&& opt_string(s.meta.description) == Some(
        "A starter personal timeline source. Replace `Your Name`, dates, places, and details with your own life events."@,
    )
    &&& opt_string(s.meta.subject) == Some("Your Name"@)
    &&& s.meta.person_id == Some(42u64)
    &&& s.items@.len() == 7
    &&& item_is(
        s.items@[0],
        "birth"@,
        "Your Name is born"@,
        "1990"@,
        None,
        false,
        Some("Replace with birthplace"@),
        Some("Replace 1990 with your birth year/date and add any notes you want to keep."@),
        None,
        None,
    )
    &&& item_is(
        s.items@[1],
        "education"@,
        "Elementary or primary school"@,
        "1996"@,
        Some("2002"@),
        false,
        Some("Replace with school/place"@),
        Some("Replace with your school name, place, and notes for this period."@),
        Some("Starts elementary school"@),
        Some("Finishes elementary school"@),
    )
    &&& item_is(
        s.items@[2],
        "education"@,
        "High school"@,
        "2004"@,
        Some("2008"@),
        false,
        Some("Replace with high school/place"@),
        Some("Replace with high school name, place, and notes for this period."@),
        Some("Starts high school"@),
        Some("Graduates high school"@),
    )
    &&& item_is(
        s.items@[3],
        "education"@,
        "College, training, or apprenticeship"@,
        "2008"@,
        Some("2012"@),
        false,
        Some("Replace with program/place"@),
        Some("Replace with education, training, or apprenticeship details."@),
        Some("Starts college/training"@),
        Some("Completes college/training"@),
    )
    &&& item_is(
        s.items@[4],
        "career"@,
        "Current or long-term work"@,
        "2013"@,
        None,
        true,
        Some("Replace with workplace/place"@),
        Some(
            "Replace with your role, employer, vocation, project, or career milestone. Leave current = true if ongoing."@,
        ),
        Some("Starts current work"@),
        None,
    )
    &&& item_is(
        s.items@[5],
        "relationship"@,
        "Relationship period"@,
        "2017"@,
        None,
        true,
        Some("Replace with place, or remove"@),
        Some(
            "Replace with a relationship period, marriage, partnership, or delete this item if not relevant."@,
        ),
        Some("Relationship milestone"@),
        None,
    )
    &&& item_is(
        s.items@[6],
        "life"@,
        "Your Name lived"@,
        "1990"@,
        None,
        true,
        None,
        Some(
            "Template life interval: birth year/date to present. Add an end date only when modeling a deceased person."@,
        ),
        Some("Your Name is born"@),
        None,
    )
}

/// A starter personal timeline source to copy and fill in.
pub fn sample_life_stages_source() -> (r: TimelineSource)
    ensures
        is_life_stages_source(r),
{
    let mut items: Vec<TimelineSourceItem> = Vec::new();
    items.push(
        source_item(
            "birth",
            "Your Name is born",
            "1990",
            None,
            false,
            Some("Replace with birthplace"),
            Some("Replace 1990 with your birth year/date and add any notes you want to keep."),
            None,
            None,
        ),
    );
    items.push(
        source_item(
            "education",
            "Elementary or primary school",
            "1996",
            Some("2002"),
            false,
            Some("Replace with school/place"),
            Some("Replace with your school name, place, and notes for this period."),
            Some("Starts elementary school"),
            Some("Finishes elementary school"),
        ),
    );
    items.push(
        source_item(
            "education",
            "High school",
            "2004",
            Some("2008"),
            false,
            Some("Replace with high school/place"),
            Some("Replace with high school name, place, and notes for this period."),
            Some("Starts high school"),
            Some("Graduates high school"),
        ),
    );
    items.push(
        source_item(
            "education",
            "College, training, or apprenticeship",
            "2008",
            Some("2012"),
            false,
            Some("Replace with program/place"),
            Some("Replace with education, training, or apprenticeship details."),
            Some("Starts college/training"),
            Some("Completes college/training"),
        ),
    );
    items.push(
        source_item(
            "career",
            "Current or long-term work",
            "2013",
            None,
            true,
            Some("Replace with workplace/place"),
            Some(
                "Replace with your role, employer, vocation, project, or career milestone. Leave current = true if ongoing.",
            ),
            Some("Starts current work"),
            None,
        ),
    );
    items.push(
        source_item(
            "relationship",
            "Relationship period",
            "2017",
            None,
            true,
            Some("Replace with place, or remove"),
            Some(
                "Replace with a relationship period, marriage, partnership, or delete this item if not relevant.",
            ),
            Some("Relationship milestone"),
            None,
        ),
    );
    items.push(
        source_item(
            "life",
            "Your Name lived",
            "1990",
            None,
            true,
            None,
            Some(
                "Template life interval: birth year/date to present. Add an end date only when modeling a deceased person.",
            ),
            Some("Your Name is born"),
            None,
        ),
    );
    TimelineSource {
        meta: TimelineSourceMeta {
            id: Some("sample:life-stages".to_owned()),
            title: "Life timeline template".to_owned(),
            kind: Some(TimelineSourcePackKind::Biography),
            description: Some(
                "A starter personal timeline source. Replace `Your Name`, dates, places, and details with your own life events.".to_owned(),
            ),
            subject: Some("Your Name".to_owned()),
            person_id: Some(42),
        },
        items,
    }
}

/// The pack that the starter personal timeline compiles to.
pub fn sample_life_stages_pack() -> (r: EventPack)
    ensures
        exists|s: TimelineSource| is_life_stages_source(s) && compiled_from(s, r),
{
    let source = sample_life_stages_source();
    let r = event_pack_from_timeline_source(&source);
    assert(is_life_stages_source(source) && compiled_from(source, r));
    r
}

/// The four sample packs: journal, biography, history and life stages.
pub fn sample_timeline_packs() -> (r: Vec<EventPack>)
    ensures
        r@.len() == 4,
        is_sample_journal_pack(r@[0]),
        is_sample_biography_pack(r@[1]),
        is_sample_history_pack(r@[2]),
        exists|s: TimelineSource| is_life_stages_source(s) && compiled_from(s, r@[3]),
{
    let mut packs: Vec<EventPack> = Vec::new();
    packs.push(sample_journal_pack());
    packs.push(sample_biography_pack());
    packs.push(sample_history_pack());
    packs.push(sample_life_stages_pack());
    packs
}

} // verus!
