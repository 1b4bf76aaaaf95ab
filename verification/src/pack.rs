//! Event packs and timeline documents.
//!
//! Packs are versioned bundles of timeline data that can be attached to a
//! project: family archives, journals, research logs, local histories, or
//! public historical timelines. A timeline document holds packs and records
//! which of them are active.
use vstd::prelude::*;
use crate::attribution::{Provenance, SourceRef, Tag};
use crate::event::{
    collection_has_event, deref_all, lemma_filter_step, filter_timeline_events, DomainProfile, Entity, EntityRef,
    EventCollection, EventRelation, EventTypeId, TimelineEvent, TimelineEventFilter, YearSpan,
};
use crate::model::EventId;
use crate::text::str_eq;

verus! {

broadcast use vstd::seq_lib::group_seq_properties;

#[derive(Debug, PartialEq, Eq)]
pub struct PackId(pub String);

impl Clone for PackId {
    fn clone(&self) -> (r: Self)
        ensures
            r == *self,
    {
        PackId(self.0.clone())
    }
}

impl PackId {
    pub fn new(value: &str) -> (r: Self)
        ensures
            r.0@ == value@,
    {
        PackId(value.to_owned())
    }

    pub fn as_str(&self) -> (r: &str)
        ensures
            r@ == self.0@,
    {
        self.0.as_str()
    }
}

#[derive(Debug, Clone, PartialEq, Eq)]
pub enum PackKind {
    UserJournal,
    Biography,
    Genealogy,
    HistoricalTimeline,
    ResearchLog,
    ImportedDataset,
    ReferenceDataset,
    Custom(String),
}

#[derive(Debug, Clone, PartialEq, Eq)]
pub struct PackMetadata {
    pub id: PackId,
    pub title: String,
    pub version: String,
    pub description: Option<String>,
    pub author: Option<String>,
    pub license: Option<String>,
    pub created_at: Option<String>,
    pub updated_at: Option<String>,
}

impl PackMetadata {
    /// Metadata at version `0.1.0` with no optional fields set.
    pub fn new(id: PackId, title: &str) -> (r: Self)
        ensures
            r.id == id,
            r.title@ == title@,
            r.version@ == "0.1.0"@,
            r.description.is_none(),
            r.author.is_none(),
            r.license.is_none(),
            r.created_at.is_none(),
            r.updated_at.is_none(),
    {
        Self {
            id,
            title: title.to_owned(),
            version: "0.1.0".to_owned(),
            description: None,
            author: None,
            license: None,
            created_at: None,
            updated_at: None,
        }
    }
}

#[derive(Debug, PartialEq, Eq)]
pub struct SourceRecord {
    pub id: SourceRef,
    pub title: String,
    pub description: Option<String>,
    pub url: Option<String>,
    pub provenance: Provenance,
}

fn clone_opt_string(s: &Option<String>) -> (r: Option<String>)
    ensures
        r == *s,
{
    match s {
        Some(v) => Some(v.clone()),
        None => None,
    }
}

impl Clone for SourceRecord {
    fn clone(&self) -> (r: Self)
        ensures
            r.id == self.id,
            r.title == self.title,
            r.description == self.description,
            r.url == self.url,
            r.provenance.sources@ == self.provenance.sources@,
            r.provenance.tags@ == self.provenance.tags@,
    {
        SourceRecord {
            id: self.id.clone(),
            title: self.title.clone(),
            description: clone_opt_string(&self.description),
            url: clone_opt_string(&self.url),
            provenance: self.provenance.clone(),
        }
    }
}

impl SourceRecord {
    pub fn new(id: SourceRef, title: &str) -> (r: Self)
        ensures
            r.id == id,
            r.title@ == title@,
            r.description.is_none(),
            r.url.is_none(),
            r.provenance.is_empty_spec(),
    {
        Self {
            id,
            title: title.to_owned(),
            description: None,
            url: None,
            provenance: Provenance::empty(),
        }
    }
}

#[derive(Debug, Clone, PartialEq, Eq)]
pub struct EventPack {
    pub metadata: PackMetadata,
    pub kind: PackKind,
    pub domain_profiles: Vec<DomainProfile>,
    pub entities: Vec<Entity>,
    pub events: Vec<TimelineEvent>,
    pub event_collections: Vec<EventCollection>,
    pub event_relations: Vec<EventRelation>,
    pub sources: Vec<SourceRecord>,
    pub tags: Vec<Tag>,
    pub provenance: Provenance,
}

impl EventPack {
    pub open spec fn is_empty_spec(&self) -> bool {
        &&& self.domain_profiles@.len() == 0
        &&& self.entities@.len() == 0
        &&& self.events@.len() == 0
        &&& self.event_collections@.len() == 0
        &&& self.event_relations@.len() == 0
        &&& self.sources@.len() == 0
        &&& self.tags@.len() == 0
        &&& self.provenance.is_empty_spec()
    }

    /// A pack with metadata and kind and nothing in it.
    pub fn empty(metadata: PackMetadata, kind: PackKind) -> (r: Self)
        ensures
            r.metadata == metadata,
            r.kind == kind,
            r.is_empty_spec(),
    {
        Self {
            metadata,
            kind,
            domain_profiles: Vec::new(),
            entities: Vec::new(),
            events: Vec::new(),
            event_collections: Vec::new(),
            event_relations: Vec::new(),
            sources: Vec::new(),
            tags: Vec::new(),
            provenance: Provenance::empty(),
        }
    }

    pub fn event_count(&self) -> (r: usize)
        ensures
            r == self.events@.len(),
    {
        self.events.len()
    }

    /// Events with a participant that refers to `entity`.
    pub fn events_for_entity(&self, entity: EntityRef) -> (r: Vec<&TimelineEvent>)
        ensures
            deref_all(r@) == self.events@.filter(
                |e: TimelineEvent| TimelineEventFilter::for_entity_spec(entity).spec_matches(e),
            ),
    {
        let filter = TimelineEventFilter::for_entity(entity);
        filter_timeline_events(&self.events, &filter)
    }

    /// Events of one event type.
    pub fn events_by_type(&self, event_type: EventTypeId) -> (r: Vec<&TimelineEvent>)
        ensures
            deref_all(r@) == self.events@.filter(
                |e: TimelineEvent| e.type_ref.0@ == event_type.0@,
            ),
    {
        let ghost t = event_type;
        let filter = TimelineEventFilter::new().with_event_type(event_type);
        let r = filter_timeline_events(&self.events, &filter);
        assert((|e: TimelineEvent| filter.spec_matches(e)) =~= (|e: TimelineEvent| e.type_ref.0@
            == t.0@));
        r
    }

    /// Events whose known years meet `years`.
    pub fn events_in_year_span(&self, years: YearSpan) -> (r: Vec<&TimelineEvent>)
        ensures
            deref_all(r@) == self.events@.filter(
                |e: TimelineEvent| crate::event::years_overlap(e.time.spec_years(), years),
            ),
    {
        let filter = TimelineEventFilter::new().with_year_span(years);
        let r = filter_timeline_events(&self.events, &filter);
        assert((|e: TimelineEvent| filter.spec_matches(e)) =~= (|e: TimelineEvent|
            crate::event::years_overlap(e.time.spec_years(), years)));
        r
    }

    /// Relations whose parent is `parent_event_id`.
    pub fn child_event_relations(&self, parent_event_id: EventId) -> (r: Vec<&EventRelation>)
        ensures
            deref_all(r@) == self.event_relations@.filter(
                |x: EventRelation| x.parent_event_id == parent_event_id,
            ),
    {
        let mut r: Vec<&EventRelation> = Vec::new();
        let n = self.event_relations.len();
        let mut i: usize = 0;
        while i < n
            invariant
                n == self.event_relations@.len(),
                i <= n,
                deref_all(r@) == self.event_relations@.take(i as int).filter(
                    |x: EventRelation| x.parent_event_id == parent_event_id,
                ),
            decreases n - i,
        {
            let x = &self.event_relations[i];
            let ghost prev = r@;
            assert(self.event_relations@.take(i + 1) =~= self.event_relations@.take(i as int).push(
                *x,
            ));
            proof {
                lemma_filter_step(
                    self.event_relations@,
                    i as int,
                    |x: EventRelation| x.parent_event_id == parent_event_id,
                );
            }
            if x.parent_event_id == parent_event_id {
                r.push(x);
                assert(deref_all(r@) =~= deref_all(prev).push(*x));
            }
            i = i + 1;
        }
        assert(self.event_relations@.take(n as int) =~= self.event_relations@);
        r
    }

    /// Relations whose child is `child_event_id`.
    pub fn parent_event_relations(&self, child_event_id: EventId) -> (r: Vec<&EventRelation>)
        ensures
            deref_all(r@) == self.event_relations@.filter(
                |x: EventRelation| x.child_event_id == child_event_id,
            ),
    {
        let mut r: Vec<&EventRelation> = Vec::new();
        let n = self.event_relations.len();
        let mut i: usize = 0;
        while i < n
            invariant
                n == self.event_relations@.len(),
                i <= n,
                deref_all(r@) == self.event_relations@.take(i as int).filter(
                    |x: EventRelation| x.child_event_id == child_event_id,
                ),
            decreases n - i,
        {
            let x = &self.event_relations[i];
            let ghost prev = r@;
            assert(self.event_relations@.take(i + 1) =~= self.event_relations@.take(i as int).push(
                *x,
            ));
            proof {
                lemma_filter_step(
                    self.event_relations@,
                    i as int,
                    |x: EventRelation| x.child_event_id == child_event_id,
                );
            }
            if x.child_event_id == child_event_id {
                r.push(x);
                assert(deref_all(r@) =~= deref_all(prev).push(*x));
            }
            i = i + 1;
        }
        assert(self.event_relations@.take(n as int) =~= self.event_relations@);
        r
    }

    /// Collections that list `event_id` as a member.
    pub fn event_collections_for_event(&self, event_id: EventId) -> (r: Vec<&EventCollection>)
        ensures
            deref_all(r@) == self.event_collections@.filter(
                |c: EventCollection| collection_has_event(c, event_id),
            ),
    {
        let mut r: Vec<&EventCollection> = Vec::new();
        let n = self.event_collections.len();
        let mut i: usize = 0;
        while i < n
            invariant
                n == self.event_collections@.len(),
                i <= n,
                deref_all(r@) == self.event_collections@.take(i as int).filter(
                    |c: EventCollection| collection_has_event(c, event_id),
                ),
            decreases n - i,
        {
            let x = &self.event_collections[i];
            let ghost prev = r@;
            assert(self.event_collections@.take(i + 1) =~= self.event_collections@.take(
                i as int,
            ).push(*x));
            proof {
                lemma_filter_step(
                    self.event_collections@,
                    i as int,
                    |c: EventCollection| collection_has_event(c, event_id),
                );
            }
            if x.contains_event(event_id) {
                r.push(x);
                assert(deref_all(r@) =~= deref_all(prev).push(*x));
            }
            i = i + 1;
        }
        assert(self.event_collections@.take(n as int) =~= self.event_collections@);
        r
    }
}

impl TimelineEventFilter {
    pub open spec fn for_entity_spec(entity: EntityRef) -> TimelineEventFilter {
        TimelineEventFilter { entity: Some(entity), event_type: None, years: None }
    }
}

/// Whether some id in `ids` equals `id`.
pub open spec fn ids_contain(ids: Seq<PackId>, id: Seq<char>) -> bool {
    exists|i: int| 0 <= i < ids.len() && (#[trigger] ids[i]).0@ == id
}

/// No pack id is marked active twice.
pub open spec fn active_ids_distinct(ids: Seq<PackId>) -> bool {
    forall|i: int, j: int| 0 <= i < j < ids.len() ==> (#[trigger] ids[i]).0@ != (#[trigger] ids[j]).0@
}

/// The ids without those of a pack.
pub open spec fn without_pack(ids: Seq<PackId>, pack_id: PackId) -> Seq<PackId> {
    ids.filter(|x: PackId| x.0@ != pack_id.0@)
}

proof fn lemma_filter_keeps_distinct(ids: Seq<PackId>, pack_id: PackId)
    requires
        active_ids_distinct(ids),
    ensures
        active_ids_distinct(without_pack(ids, pack_id)),
        forall|i: int| 0 <= i < without_pack(ids, pack_id).len() ==> exists|k: int|
            0 <= k < ids.len() && #[trigger] without_pack(ids, pack_id)[i] == ids[k],
    decreases ids.len(),
{
    reveal(Seq::filter);
    let f = |x: PackId| x.0@ != pack_id.0@;
    if ids.len() > 0 {
        let rest = ids.drop_last();
        assert(active_ids_distinct(rest)) by {
            assert forall|i: int, j: int| 0 <= i < j < rest.len() implies (#[trigger] rest[i]).0@ != (#[trigger] rest[j]).0@ by {
                assert(rest[i] == ids[i] && rest[j] == ids[j]);
            }
        }
        lemma_filter_keeps_distinct(rest, pack_id);
        let sub = without_pack(rest, pack_id);
        assert(without_pack(ids, pack_id) == if f(ids.last()) { sub.push(ids.last()) } else { sub });
        assert forall|i: int| 0 <= i < sub.len() implies exists|k: int| 0 <= k < ids.len() && #[trigger] sub[i] == ids[k] by {
            let k = choose|k: int| 0 <= k < rest.len() && sub[i] == rest[k];
            assert(ids[k] == rest[k]);
        }
        if f(ids.last()) {
            let t = sub.push(ids.last());
            assert forall|i: int| 0 <= i < sub.len() implies (#[trigger] sub[i]).0@ != ids.last().0@ by {
                let k = choose|k: int| 0 <= k < rest.len() && sub[i] == rest[k];
                assert(ids[k] == rest[k]);
                assert(ids[ids.len() - 1] == ids.last());
            }
            assert forall|i: int, j: int| 0 <= i < j < t.len() implies (#[trigger] t[i]).0@ != (#[trigger] t[j]).0@ by {
                if j == t.len() - 1 {
                    assert(t[i] == sub[i]);
                } else {
                    assert(t[i] == sub[i] && t[j] == sub[j]);
                }
            }
            assert forall|i: int| 0 <= i < t.len() implies exists|k: int| 0 <= k < ids.len() && #[trigger] t[i] == ids[k] by {
                if i == t.len() - 1 {
                    assert(t[i] == ids[ids.len() - 1]);
                } else {
                    assert(t[i] == sub[i]);
                    let k = choose|k: int| 0 <= k < ids.len() && sub[i] == ids[k];
                }
            }
        }
    }
}

/// Marking a pack active or inactive never marks an id twice: from active
/// ids without repeats, both the ids after activating and those after
/// deactivating are without repeats.
pub proof fn law_set_pack_active_keeps_ids_distinct(d: TimelineDocument, pack_id: PackId)
    requires
        active_ids_distinct(d.active_pack_ids@),
    ensures
        active_ids_distinct(if d.spec_has_pack(pack_id.0@) && !d.spec_is_active(pack_id.0@) {
            d.active_pack_ids@.push(pack_id)
        } else {
            d.active_pack_ids@
        }),
        active_ids_distinct(d.active_pack_ids@.filter(|x: PackId| x.0@ != pack_id.0@)),
{
    lemma_filter_keeps_distinct(d.active_pack_ids@, pack_id);
    let ids = d.active_pack_ids@;
    if d.spec_has_pack(pack_id.0@) && !d.spec_is_active(pack_id.0@) {
        let t = ids.push(pack_id);
        assert forall|i: int, j: int| 0 <= i < j < t.len() implies (#[trigger] t[i]).0@ != (#[trigger] t[j]).0@ by {
            if j == t.len() - 1 {
                assert(t[i] == ids[i]);
                if ids[i].0@ == pack_id.0@ {
                    assert(ids_contain(ids, pack_id.0@));
                }
            } else {
                assert(t[i] == ids[i] && t[j] == ids[j]);
            }
        }
    }
}

/// Index of the first pack with this id.
pub open spec fn first_pack_index(packs: Seq<EventPack>, id: Seq<char>) -> Option<int>
    decreases packs.len(),
{
    if packs.len() == 0 {
        None
    } else {
        match first_pack_index(packs.drop_last(), id) {
            Some(i) => Some(i),
            None => if packs.last().metadata.id.0@ == id {
                Some(packs.len() - 1)
            } else {
                None
            },
        }
    }
}

/// The events of all packs, pack after pack.
pub open spec fn events_of(packs: Seq<EventPack>) -> Seq<TimelineEvent>
    decreases packs.len(),
{
    if packs.len() == 0 {
        seq![]
    } else {
        events_of(packs.drop_last()) + packs.last().events@
    }
}

/// The event relations of all packs, pack after pack.
pub open spec fn relations_of(packs: Seq<EventPack>) -> Seq<EventRelation>
    decreases packs.len(),
{
    if packs.len() == 0 {
        seq![]
    } else {
        relations_of(packs.drop_last()) + packs.last().event_relations@
    }
}

proof fn lemma_first_pack_index(packs: Seq<EventPack>, id: Seq<char>)
    ensures
        first_pack_index(packs, id) matches Some(k) ==> 0 <= k < packs.len() && packs[k].metadata.id.0@
            == id && forall|j: int| 0 <= j < k ==> (#[trigger] packs[j]).metadata.id.0@ != id,
        first_pack_index(packs, id) is None ==> forall|j: int|
            0 <= j < packs.len() ==> (#[trigger] packs[j]).metadata.id.0@ != id,
    decreases packs.len(),
{
    if packs.len() > 0 {
        let d = packs.drop_last();
        lemma_first_pack_index(d, id);
        assert(forall|j: int| 0 <= j < d.len() ==> packs[j] == #[trigger] d[j]);
        match first_pack_index(d, id) {
            Some(i) => {
                assert(packs[i] == d[i]);
                assert forall|j: int| 0 <= j < i implies (#[trigger] packs[j]).metadata.id.0@ != id by {
                    assert(packs[j] == d[j]);
                }
            },
            None => {
                assert forall|j: int| 0 <= j < d.len() implies (#[trigger] packs[j]).metadata.id.0@ != id by {
                    assert(packs[j] == d[j]);
                }
            },
        }
    }
}

#[derive(Debug, Clone, PartialEq, Eq)]
pub struct TimelineDocument {
    pub version: u32,
    pub packs: Vec<EventPack>,
    pub active_pack_ids: Vec<PackId>,
}

impl TimelineDocument {
    pub const CURRENT_VERSION: u32 = 1;

    /// Whether a pack with this id is marked active.
    pub open spec fn spec_is_active(&self, id: Seq<char>) -> bool {
        ids_contain(self.active_pack_ids@, id)
    }

    /// Whether the document holds a pack with this id.
    pub open spec fn spec_has_pack(&self, id: Seq<char>) -> bool {
        first_pack_index(self.packs@, id) is Some
    }

    /// The packs whose ids are marked active, in document order.
    pub open spec fn spec_active_packs(&self) -> Seq<EventPack> {
        self.packs@.filter(|p: EventPack| self.spec_is_active(p.metadata.id.0@))
    }

    pub open spec fn spec_active_events(&self) -> Seq<TimelineEvent> {
        events_of(self.spec_active_packs())
    }

    pub fn empty() -> (r: Self)
        ensures
            r.version == Self::CURRENT_VERSION,
            r.packs@.len() == 0,
            r.active_pack_ids@.len() == 0,
    {
        Self { version: Self::CURRENT_VERSION, packs: Vec::new(), active_pack_ids: Vec::new() }
    }

    pub fn active_packs(&self) -> (r: Vec<&EventPack>)
        ensures
            deref_all(r@) == self.spec_active_packs(),
    {
        let mut r: Vec<&EventPack> = Vec::new();
        let n = self.packs.len();
        let mut i: usize = 0;
        while i < n
            invariant
                n == self.packs@.len(),
                i <= n,
                deref_all(r@) == self.packs@.take(i as int).filter(
                    |p: EventPack| self.spec_is_active(p.metadata.id.0@),
                ),
            decreases n - i,
        {
            let p = &self.packs[i];
            let ghost prev = r@;
            assert(self.packs@.take(i + 1) =~= self.packs@.take(i as int).push(*p));
            proof {
                lemma_filter_step(
                    self.packs@,
                    i as int,
                    |p: EventPack| self.spec_is_active(p.metadata.id.0@),
                );
            }
            if self.is_pack_active(&p.metadata.id) {
                r.push(p);
                assert(deref_all(r@) =~= deref_all(prev).push(*p));
            }
            i = i + 1;
        }
        assert(self.packs@.take(n as int) =~= self.packs@);
        r
    }

    fn first_index(&self, pack_id: &PackId) -> (r: Option<usize>)
        ensures
            r matches Some(k) ==> k < self.packs@.len() && first_pack_index(self.packs@, pack_id.0@)
                == Some(k as int),
            r is None ==> first_pack_index(self.packs@, pack_id.0@) is None,
    {
        let n = self.packs.len();
        let mut i: usize = 0;
        proof {
            lemma_first_pack_index(self.packs@, pack_id.0@);
        }
        while i < n
            invariant
                n == self.packs@.len(),
                i <= n,
                forall|j: int| 0 <= j < i ==> (#[trigger] self.packs@[j]).metadata.id.0@ != pack_id.0@,
                first_pack_index(self.packs@, pack_id.0@) matches Some(k) ==> 0 <= k < n
                    && self.packs@[k].metadata.id.0@ == pack_id.0@ && forall|j: int|
                    0 <= j < k ==> (#[trigger] self.packs@[j]).metadata.id.0@ != pack_id.0@,
                first_pack_index(self.packs@, pack_id.0@) is None ==> forall|j: int|
                    0 <= j < n ==> (#[trigger] self.packs@[j]).metadata.id.0@ != pack_id.0@,
            decreases n - i,
        {
            if str_eq(self.packs[i].metadata.id.0.as_str(), pack_id.0.as_str()) {
                return Some(i);
            }
            i = i + 1;
        }
        None
    }

    /// The first pack with this id.
    pub fn pack(&self, pack_id: &PackId) -> (r: Option<&EventPack>)
        ensures
            r == (match first_pack_index(self.packs@, pack_id.0@) {
                Some(k) => Some(&self.packs@[k]),
                None => None,
            }),
    {
        match self.first_index(pack_id) {
            Some(k) => Some(&self.packs[k]),
            None => None,
        }
    }

    /// Mutable access to the first pack with this id.
    pub fn pack_mut(&mut self, pack_id: &PackId) -> (r: Option<&mut EventPack>)
        ensures
            first_pack_index(old(self).packs@, pack_id.0@) is None ==> r is None && *final(self)
                == *old(self),
            first_pack_index(old(self).packs@, pack_id.0@) matches Some(k) ==> r matches Some(p) && *p
                == old(self).packs@[k] && final(self).packs@ == old(self).packs@.update(
                k,
                *final(p),
            ) && final(self).active_pack_ids == old(self).active_pack_ids && final(self).version
                == old(self).version,
    {
        match self.first_index(pack_id) {
            Some(k) => Some(&mut self.packs[k]),
            None => None,
        }
    }

    pub fn is_pack_active(&self, pack_id: &PackId) -> (r: bool)
        ensures
            r == self.spec_is_active(pack_id.0@),
    {
        let n = self.active_pack_ids.len();
        let mut i: usize = 0;
        while i < n
            invariant
                n == self.active_pack_ids@.len(),
                i <= n,
                forall|j: int| 0 <= j < i ==> (#[trigger] self.active_pack_ids@[j]).0@ != pack_id.0@,
            decreases n - i,
        {
            if str_eq(self.active_pack_ids[i].0.as_str(), pack_id.0.as_str()) {
                return true;
            }
            i = i + 1;
        }
        false
    }

    /// Drops every active mark for this id.
    fn retain_other_active(&mut self, pack_id: &PackId)
        ensures
            final(self).active_pack_ids@ == old(self).active_pack_ids@.filter(
                |x: PackId| x.0@ != pack_id.0@,
            ),
            final(self).packs == old(self).packs,
            final(self).version == old(self).version,
    {
        let mut kept: Vec<PackId> = Vec::new();
        let n = self.active_pack_ids.len();
        let mut i: usize = 0;
        while i < n
            invariant
                n == self.active_pack_ids@.len(),
                i <= n,
                kept@ == self.active_pack_ids@.take(i as int).filter(
                    |x: PackId| x.0@ != pack_id.0@,
                ),
            decreases n - i,
        {
            let x = &self.active_pack_ids[i];
            assert(self.active_pack_ids@.take(i + 1) =~= self.active_pack_ids@.take(i as int).push(
                *x,
            ));
            proof {
                lemma_filter_step(self.active_pack_ids@, i as int, |x: PackId| x.0@ != pack_id.0@);
            }
            if !str_eq(x.0.as_str(), pack_id.0.as_str()) {
                kept.push(x.clone());
            }
            i = i + 1;
        }
        assert(self.active_pack_ids@.take(n as int) =~= self.active_pack_ids@);
        self.active_pack_ids = kept;
    }

    /// Marks a pack active (when the document holds it) or inactive.
    pub fn set_pack_active(&mut self, pack_id: &PackId, active: bool)
        ensures
            final(self).packs == old(self).packs,
            final(self).version == old(self).version,
            active ==> final(self).active_pack_ids@ == (if old(self).spec_has_pack(pack_id.0@)
                && !old(self).spec_is_active(pack_id.0@) {
                old(self).active_pack_ids@.push(*pack_id)
            } else {
                old(self).active_pack_ids@
            }),
            !active ==> final(self).active_pack_ids@ == old(self).active_pack_ids@.filter(
                |x: PackId| x.0@ != pack_id.0@,
            ),
    {
        if active {
            if self.pack(pack_id).is_some() && !self.is_pack_active(pack_id) {
                self.active_pack_ids.push(pack_id.clone());
            }
        } else {
            self.retain_other_active(pack_id);
        }
    }

    pub fn activate_pack(&mut self, pack_id: &PackId)
        ensures
            final(self).packs == old(self).packs,
            final(self).version == old(self).version,
            final(self).active_pack_ids@ == (if old(self).spec_has_pack(pack_id.0@)
                && !old(self).spec_is_active(pack_id.0@) {
                old(self).active_pack_ids@.push(*pack_id)
            } else {
                old(self).active_pack_ids@
            }),
    {
        self.set_pack_active(pack_id, true);
    }

    pub fn deactivate_pack(&mut self, pack_id: &PackId)
        ensures
            final(self).packs == old(self).packs,
            final(self).version == old(self).version,
            final(self).active_pack_ids@ == old(self).active_pack_ids@.filter(
                |x: PackId| x.0@ != pack_id.0@,
            ),
    {
        self.set_pack_active(pack_id, false);
    }

    /// Removes the first pack with this id and every active mark for it.
    pub fn remove_pack(&mut self, pack_id: &PackId) -> (r: Option<EventPack>)
        ensures
            first_pack_index(old(self).packs@, pack_id.0@) is None ==> r is None && *final(self)
                == *old(self),
            first_pack_index(old(self).packs@, pack_id.0@) matches Some(k) ==> {
                &&& r == Some(old(self).packs@[k])
                &&& final(self).packs@ == old(self).packs@.remove(k)
                &&& final(self).active_pack_ids@ == old(self).active_pack_ids@.filter(
                    |x: PackId| x.0@ != pack_id.0@,
                )
                &&& final(self).version == old(self).version
            },
    {
        let index = match self.first_index(pack_id) {
            Some(k) => k,
            None => return None,
        };
        self.retain_other_active(pack_id);
        Some(self.packs.remove(index))
    }

    /// Events of the active packs, pack after pack.
    pub fn active_events(&self) -> (r: Vec<&TimelineEvent>)
        ensures
            deref_all(r@) == self.spec_active_events(),
    {
        let packs = self.active_packs();
        let mut r: Vec<&TimelineEvent> = Vec::new();
        let n = packs.len();
        let mut i: usize = 0;
        while i < n
            invariant
                n == packs@.len(),
                i <= n,
                deref_all(r@) == events_of(deref_all(packs@).take(i as int)),
            decreases n - i,
        {
            let pack: &EventPack = packs[i];
            assert(deref_all(packs@).take(i + 1).drop_last() =~= deref_all(packs@).take(i as int));
            let m = pack.events.len();
            let mut j: usize = 0;
            let ghost base = deref_all(r@);
            while j < m
                invariant
                    m == pack.events@.len(),
                    j <= m,
                    deref_all(r@) == base + pack.events@.take(j as int),
                decreases m - j,
            {
                let ghost prev = r@;
                r.push(&pack.events[j]);
                assert(deref_all(r@) =~= deref_all(prev).push(pack.events@[j as int]));
                assert(pack.events@.take(j + 1) =~= pack.events@.take(j as int).push(
                    pack.events@[j as int],
                ));
                j = j + 1;
            }
            assert(pack.events@.take(m as int) =~= pack.events@);
            i = i + 1;
        }
        assert(deref_all(packs@).take(n as int) =~= deref_all(packs@));
        r
    }

    /// Event relations of the active packs, pack after pack.
    pub fn active_event_relations(&self) -> (r: Vec<&EventRelation>)
        ensures
            deref_all(r@) == relations_of(self.spec_active_packs()),
    {
        let packs = self.active_packs();
        let mut r: Vec<&EventRelation> = Vec::new();
        let n = packs.len();
        let mut i: usize = 0;
        while i < n
            invariant
                n == packs@.len(),
                i <= n,
                deref_all(r@) == relations_of(deref_all(packs@).take(i as int)),
            decreases n - i,
        {
            let pack: &EventPack = packs[i];
            assert(deref_all(packs@).take(i + 1).drop_last() =~= deref_all(packs@).take(i as int));
            let m = pack.event_relations.len();
            let mut j: usize = 0;
            let ghost base = deref_all(r@);
            while j < m
                invariant
                    m == pack.event_relations@.len(),
                    j <= m,
                    deref_all(r@) == base + pack.event_relations@.take(j as int),
                decreases m - j,
            {
                let ghost prev = r@;
                r.push(&pack.event_relations[j]);
                assert(deref_all(r@) =~= deref_all(prev).push(pack.event_relations@[j as int]));
                assert(pack.event_relations@.take(j + 1) =~= pack.event_relations@.take(
                    j as int,
                ).push(pack.event_relations@[j as int]));
                j = j + 1;
            }
            assert(pack.event_relations@.take(m as int) =~= pack.event_relations@);
            i = i + 1;
        }
        assert(deref_all(packs@).take(n as int) =~= deref_all(packs@));
        r
    }

    /// Active events that a filter selects.
    pub fn active_events_filtered(&self, filter: &TimelineEventFilter) -> (r: Vec<&TimelineEvent>)
        ensures
            deref_all(r@) == self.spec_active_events().filter(
                |e: TimelineEvent| filter.spec_matches(e),
            ),
    {
        let packs = self.active_packs();
        let mut r: Vec<&TimelineEvent> = Vec::new();
        let n = packs.len();
        let mut i: usize = 0;
        while i < n
            invariant
                n == packs@.len(),
                i <= n,
                deref_all(r@) == events_of(deref_all(packs@).take(i as int)).filter(
                    |e: TimelineEvent| filter.spec_matches(e),
                ),
            decreases n - i,
        {
            let pack: &EventPack = packs[i];
            let ghost before = events_of(deref_all(packs@).take(i as int));
            assert(deref_all(packs@).take(i + 1).drop_last() =~= deref_all(packs@).take(i as int));
            assert(events_of(deref_all(packs@).take(i + 1)) == before + pack.events@);
            let selected = filter_timeline_events(&pack.events, filter);
            let ghost base = deref_all(r@);
            let m = selected.len();
            let mut j: usize = 0;
            while j < m
                invariant
                    m == selected@.len(),
                    j <= m,
                    deref_all(r@) == base + deref_all(selected@).take(j as int),
                decreases m - j,
            {
                let ghost prev = r@;
                r.push(selected[j]);
                assert(deref_all(r@) =~= deref_all(prev).push(*selected@[j as int]));
                assert(deref_all(selected@).take(j + 1) =~= deref_all(selected@).take(
                    j as int,
                ).push(*selected@[j as int]));
                j = j + 1;
            }
            assert(deref_all(selected@).take(m as int) =~= deref_all(selected@));
            proof {
                Seq::filter_distributes_over_add(
                    before,
                    pack.events@,
                    |e: TimelineEvent| filter.spec_matches(e),
                );
            }
            i = i + 1;
        }
        assert(deref_all(packs@).take(n as int) =~= deref_all(packs@));
        r
    }

    pub fn active_events_for_entity(&self, entity: EntityRef) -> (r: Vec<&TimelineEvent>)
        ensures
            deref_all(r@) == self.spec_active_events().filter(
                |e: TimelineEvent| TimelineEventFilter::for_entity_spec(entity).spec_matches(e),
            ),
    {
        let filter = TimelineEventFilter::for_entity(entity);
        self.active_events_filtered(&filter)
    }

    pub fn active_events_in_year_span(&self, years: YearSpan) -> (r: Vec<&TimelineEvent>)
        ensures
            deref_all(r@) == self.spec_active_events().filter(
                |e: TimelineEvent| crate::event::years_overlap(e.time.spec_years(), years),
            ),
    {
        let filter = TimelineEventFilter::new().with_year_span(years);
        let r = self.active_events_filtered(&filter);
        assert((|e: TimelineEvent| filter.spec_matches(e)) =~= (|e: TimelineEvent|
            crate::event::years_overlap(e.time.spec_years(), years)));
        r
    }

    /// Active events, less the children of collapsed parents (through the
    /// relations of active packs).
    pub fn visible_active_events(&self, collapsed_parent_ids: &Vec<EventId>) -> (r: Vec<
        &TimelineEvent,
    >)
        ensures
            deref_all(r@) == self.spec_active_events().filter(
                |e: TimelineEvent|
                    !hidden_by(relations_of(self.spec_active_packs()), collapsed_parent_ids@, e.id),
            ),
    {
        let relations = self.active_event_relations();
        let mut hidden: Vec<EventId> = Vec::new();
        let nr = relations.len();
        let mut k: usize = 0;
        while k < nr
            invariant
                nr == relations@.len(),
                k <= nr,
                forall|id: EventId| hidden@.contains(id) <==> hidden_by(
                    deref_all(relations@).take(k as int),
                    collapsed_parent_ids@,
                    id,
                ),
            decreases nr - k,
        {
            let rel: &EventRelation = relations[k];
            let ghost pre = deref_all(relations@).take(k as int);
            assert(deref_all(relations@).take(k + 1) =~= pre.push(*rel));
            if contains_event_id(collapsed_parent_ids, rel.parent_event_id) {
                hidden.push(rel.child_event_id);
            }
            proof {
                assert forall|id: EventId| hidden@.contains(id) <==> hidden_by(
                    deref_all(relations@).take(k + 1),
                    collapsed_parent_ids@,
                    id,
                ) by {
                    lemma_hidden_by_push(pre, *rel, collapsed_parent_ids@, id);
                }
            }
            k = k + 1;
        }
        assert(deref_all(relations@).take(nr as int) =~= deref_all(relations@));
        let events = self.active_events();
        let mut r: Vec<&TimelineEvent> = Vec::new();
        let n = events.len();
        let mut i: usize = 0;
        while i < n
            invariant
                n == events@.len(),
                i <= n,
                forall|id: EventId| hidden@.contains(id) <==> hidden_by(
                    relations_of(self.spec_active_packs()),
                    collapsed_parent_ids@,
                    id,
                ),
                deref_all(r@) == deref_all(events@).take(i as int).filter(
                    |e: TimelineEvent|
                        !hidden_by(relations_of(self.spec_active_packs()), collapsed_parent_ids@, e.id),
                ),
            decreases n - i,
        {
            let e: &TimelineEvent = events[i];
            let ghost prev = r@;
            assert(deref_all(events@).take(i + 1) =~= deref_all(events@).take(i as int).push(*e));
            proof {
                lemma_filter_step(
                    deref_all(events@),
                    i as int,
                    |e: TimelineEvent|
                        !hidden_by(relations_of(self.spec_active_packs()), collapsed_parent_ids@, e.id),
                );
            }
            if !contains_event_id(&hidden, e.id) {
                r.push(e);
                assert(deref_all(r@) =~= deref_all(prev).push(*e));
            }
            i = i + 1;
        }
        assert(deref_all(events@).take(n as int) =~= deref_all(events@));
        r
    }

    /// Adds a pack, marking it active when asked to.
    pub fn add_pack(&mut self, pack: EventPack, active: bool)
        ensures
            final(self).packs@ == old(self).packs@.push(pack),
            final(self).version == old(self).version,
            final(self).active_pack_ids@ == (if active && !old(self).spec_is_active(
                pack.metadata.id.0@,
            ) {
                old(self).active_pack_ids@.push(pack.metadata.id)
            } else {
                old(self).active_pack_ids@
            }),
    {
        if active && !self.is_pack_active(&pack.metadata.id) {
            self.active_pack_ids.push(pack.metadata.id.clone());
        }
        self.packs.push(pack);
    }
}

/// Whether some relation with a collapsed parent has `id` as its child.
pub open spec fn hidden_by(relations: Seq<EventRelation>, collapsed: Seq<EventId>, id: EventId) -> bool {
    exists|j: int|
        0 <= j < relations.len() && collapsed.contains((#[trigger] relations[j]).parent_event_id)
            && relations[j].child_event_id == id
}

proof fn lemma_hidden_by_push(
    s: Seq<EventRelation>,
    x: EventRelation,
    c: Seq<EventId>,
    id: EventId,
)
    ensures
        hidden_by(s.push(x), c, id) <==> (hidden_by(s, c, id) || (c.contains(x.parent_event_id)
            && x.child_event_id == id)),
{
    let t = s.push(x);
    if hidden_by(t, c, id) {
        let j = choose|j: int|
            0 <= j < t.len() && c.contains((#[trigger] t[j]).parent_event_id) && t[j].child_event_id
                == id;
        if j < s.len() {
            assert(s[j] == t[j]);
        }
    }
    if hidden_by(s, c, id) {
        let j = choose|j: int|
            0 <= j < s.len() && c.contains((#[trigger] s[j]).parent_event_id) && s[j].child_event_id
                == id;
        assert(t[j] == s[j]);
    }
    if c.contains(x.parent_event_id) && x.child_event_id == id {
        assert(t[s.len() as int] == x);
    }
}

fn contains_event_id(ids: &Vec<EventId>, id: EventId) -> (r: bool)
    ensures
        r == ids@.contains(id),
{
    let n = ids.len();
    let mut i: usize = 0;
    while i < n
        invariant
            n == ids@.len(),
            i <= n,
            forall|j: int| 0 <= j < i ==> ids@[j] != id,
        decreases n - i,
    {
        if ids[i] == id {
            assert(ids@[i as int] == id);
            return true;
        }
        i = i + 1;
    }
    false
}

} // verus!
