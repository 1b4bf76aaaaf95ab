//! Import batches: records read from a source and the candidates proposed
//! from them, each awaiting a decision.
use vstd::prelude::*;
use crate::attribution::{Provenance, Tag};
use crate::event::{DomainProfile, Entity, EventCollection, EventRelation, TimelineEvent};
use crate::pack::{EventPack, PackKind, PackMetadata, SourceRecord};

verus! {

#[derive(Debug, Clone, PartialEq, Eq)]
pub struct ImportBatchId(pub String);

impl ImportBatchId {
    pub fn new(value: String) -> (r: Self)
        ensures
            r.0@ == value@,
    {
        ImportBatchId(value)
    }

    pub fn as_str(&self) -> (r: &str)
        ensures
            r@ == self.0@,
    {
        self.0.as_str()
    }
}

#[derive(Debug, Clone, PartialEq, Eq)]
pub struct ImportCandidateId(pub String);

impl ImportCandidateId {
    pub fn new(value: String) -> (r: Self)
        ensures
            r.0@ == value@,
    {
        ImportCandidateId(value)
    }

    pub fn as_str(&self) -> (r: &str)
        ensures
            r@ == self.0@,
    {
        self.0.as_str()
    }
}

#[derive(Debug, Clone, PartialEq, Eq)]
pub enum ImportSourceKind {
    Gedcom,
    Csv,
    Json,
    Toml,
    Ics,
    Markdown,
    Wikidata,
    Manual,
    Custom(String),
}

#[derive(Debug, Clone, Copy, PartialEq, Eq, Structural)]
pub enum ImportStatus {
    Draft,
    Previewed,
    Applied,
    Discarded,
}

#[derive(Debug, Clone, Copy, PartialEq, Eq, Structural)]
pub enum ImportDecision {
    Pending,
    Accepted,
    Rejected,
}

/// One raw record read from the source.
#[derive(Debug, Clone, PartialEq, Eq)]
pub struct ImportRecord {
    pub id: String,
    pub source_record_id: Option<String>,
    pub summary: Option<String>,
    pub raw: Option<String>,
    pub provenance: Provenance,
}

#[derive(Debug, Clone, PartialEq, Eq)]
pub enum ImportCandidateItem {
    DomainProfile(DomainProfile),
    Entity(Entity),
    Event(TimelineEvent),
    EventCollection(EventCollection),
    EventRelation(EventRelation),
    Source(SourceRecord),
    TagValue(Tag),
}

/// A proposed addition and the decision taken on it.
#[derive(Debug, Clone, PartialEq, Eq)]
pub struct ImportCandidate {
    pub id: ImportCandidateId,
    pub item: ImportCandidateItem,
    pub decision: ImportDecision,
}

impl ImportCandidate {
    /// A pending candidate that adds `item`.
    pub fn add(id: ImportCandidateId, item: ImportCandidateItem) -> (r: Self)
        ensures
            r == (ImportCandidate { id, item, decision: ImportDecision::Pending }),
    {
        ImportCandidate { id, item, decision: ImportDecision::Pending }
    }

    pub fn accepted(self) -> (r: Self)
        ensures
            r == (ImportCandidate { decision: ImportDecision::Accepted, ..self }),
    {
        ImportCandidate { decision: ImportDecision::Accepted, ..self }
    }

    pub fn rejected(self) -> (r: Self)
        ensures
            r == (ImportCandidate { decision: ImportDecision::Rejected, ..self }),
    {
        ImportCandidate { decision: ImportDecision::Rejected, ..self }
    }
}

#[derive(Debug, Clone, PartialEq, Eq)]
pub struct ImportBatch {
    pub id: ImportBatchId,
    pub source_name: String,
    pub source_kind: ImportSourceKind,
    pub status: ImportStatus,
    pub records: Vec<ImportRecord>,
    pub candidates: Vec<ImportCandidate>,
    pub provenance: Provenance,
}

/// How many candidates have been accepted.
pub open spec fn accepted_in(c: Seq<ImportCandidate>) -> nat
    decreases c.len(),
{
    if c.len() == 0 {
        0
    } else {
        accepted_in(c.drop_last()) + if c.last().decision == ImportDecision::Accepted {
            1nat
        } else {
            0nat
        }
    }
}

impl ImportBatch {
    /// A draft batch with no records or candidates.
    pub fn new(id: ImportBatchId, source_name: String, source_kind: ImportSourceKind) -> (r: Self)
        ensures
            r.id == id,
            r.source_name == source_name,
            r.source_kind == source_kind,
            r.status == ImportStatus::Draft,
            r.records@.len() == 0,
            r.candidates@.len() == 0,
            r.provenance.is_empty_spec(),
    {
        ImportBatch {
            id,
            source_name,
            source_kind,
            status: ImportStatus::Draft,
            records: Vec::new(),
            candidates: Vec::new(),
            provenance: Provenance::empty(),
        }
    }

    pub fn accepted_count(&self) -> (r: usize)
        ensures
            r == accepted_in(self.candidates@),
    {
        let n = self.candidates.len();
        let mut count: usize = 0;
        let mut i: usize = 0;
        while i < n
            invariant
                n == self.candidates@.len(),
                i <= n,
                count == accepted_in(self.candidates@.take(i as int)),
                count <= i,
            decreases n - i,
        {
            assert(self.candidates@.take(i + 1).drop_last() =~= self.candidates@.take(i as int));
            if self.candidates[i].decision == ImportDecision::Accepted {
                count = count + 1;
            }
            i = i + 1;
        }
        assert(self.candidates@.take(n as int) =~= self.candidates@);
        count
    }
}

/// What the accepted candidates add, section by section, in candidate order:
/// domain profiles, entities, events, collections, relations, sources, tags.
pub open spec fn materialized(c: Seq<ImportCandidate>) -> (
    Seq<DomainProfile>,
    Seq<Entity>,
    Seq<TimelineEvent>,
    Seq<EventCollection>,
    Seq<EventRelation>,
    Seq<SourceRecord>,
    Seq<Tag>,
)
    decreases c.len(),
{
    if c.len() == 0 {
        (seq![], seq![], seq![], seq![], seq![], seq![], seq![])
    } else {
        let p = materialized(c.drop_last());
        let last = c.last();
        if last.decision != ImportDecision::Accepted {
            p
        } else {
            match last.item {
                ImportCandidateItem::DomainProfile(x) => (p.0.push(x), p.1, p.2, p.3, p.4, p.5, p.6),
                ImportCandidateItem::Entity(x) => (p.0, p.1.push(x), p.2, p.3, p.4, p.5, p.6),
                ImportCandidateItem::Event(x) => (p.0, p.1, p.2.push(x), p.3, p.4, p.5, p.6),
                ImportCandidateItem::EventCollection(x) => (p.0, p.1, p.2, p.3.push(x), p.4, p.5, p.6),
                ImportCandidateItem::EventRelation(x) => (p.0, p.1, p.2, p.3, p.4.push(x), p.5, p.6),
                ImportCandidateItem::Source(x) => (p.0, p.1, p.2, p.3, p.4, p.5.push(x), p.6),
                ImportCandidateItem::TagValue(x) => (p.0, p.1, p.2, p.3, p.4, p.5, p.6.push(x)),
            }
        }
    }
}

impl ImportBatch {
    /// The pack made of the accepted candidates, under `metadata` and `kind`,
    /// with the batch's provenance.
    pub fn materialize_event_pack(self, metadata: PackMetadata, kind: PackKind) -> (r: EventPack)
        ensures
            r.metadata == metadata,
            r.kind == kind,
            (
                r.domain_profiles@,
                r.entities@,
                r.events@,
                r.event_collections@,
                r.event_relations@,
                r.sources@,
                r.tags@,
            ) == materialized(self.candidates@),
            r.provenance == self.provenance,
    {
        let ghost all = self.candidates@;
        let mut rest = self.candidates;
        let mut pack = EventPack {
            metadata,
            kind,
            domain_profiles: Vec::new(),
            entities: Vec::new(),
            events: Vec::new(),
            event_collections: Vec::new(),
            event_relations: Vec::new(),
            sources: Vec::new(),
            tags: Vec::new(),
            provenance: self.provenance,
        };
        let n = rest.len();
        let mut i: usize = 0;
        while i < n
            invariant
                n == all.len(),
                i <= n,
                rest@ == all.skip(i as int),
                pack.metadata == metadata,
                pack.kind == kind,
                pack.provenance == self.provenance,
                (
                    pack.domain_profiles@,
                    pack.entities@,
                    pack.events@,
                    pack.event_collections@,
                    pack.event_relations@,
                    pack.sources@,
                    pack.tags@,
                ) == materialized(all.take(i as int)),
            decreases n - i,
        {
            let c = rest.remove(0);
            assert(all.take(i + 1).drop_last() =~= all.take(i as int));
            assert(all.take(i + 1).last() == all[i as int]);
            assert(rest@ =~= all.skip(i + 1));
            if c.decision == ImportDecision::Accepted {
                match c.item {
                    ImportCandidateItem::DomainProfile(x) => pack.domain_profiles.push(x),
                    ImportCandidateItem::Entity(x) => pack.entities.push(x),
                    ImportCandidateItem::Event(x) => pack.events.push(x),
                    ImportCandidateItem::EventCollection(x) => pack.event_collections.push(x),
                    ImportCandidateItem::EventRelation(x) => pack.event_relations.push(x),
                    ImportCandidateItem::Source(x) => pack.sources.push(x),
                    ImportCandidateItem::TagValue(x) => pack.tags.push(x),
                }
            }
            i = i + 1;
        }
        assert(all.take(n as int) =~= all);
        pack
    }
}

} // verus!
