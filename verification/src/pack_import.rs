//! Shared conversion of a parsed `EventPack` into an import-batch preview.
//!
//! Format-specific code parses and serializes packs; this module owns the
//! common step from a parsed pack to an `ImportBatch`.
use vstd::prelude::*;
use crate::attribution::Tag;
use crate::event::{same_event, DomainProfile, Entity, EventCollection, EventRelation, TimelineEvent};
use crate::import_batch::{
    ImportBatch, ImportBatchId, ImportCandidate, ImportCandidateId, ImportCandidateItem,
    ImportDecision, ImportRecord, ImportSourceKind, ImportStatus,
};
use crate::pack::{EventPack, SourceRecord};
use crate::text::{
    ascii_lower, decimal, is_ascii_alphanumeric, push_char, to_ascii_lower, u64_to_decimal,
};

verus! {

/// The key character for `c`: lower-cased ASCII letters and digits, `-` otherwise.
pub open spec fn key_char(c: char) -> char {
    if is_ascii_alphanumeric(c) {
        ascii_lower(c)
    } else {
        '-'
    }
}

pub open spec fn lead_dashes(s: Seq<char>) -> nat
    decreases s.len(),
{
    if s.len() > 0 && s[0] == '-' {
        1 + lead_dashes(s.drop_first())
    } else {
        0
    }
}

pub open spec fn trail_dashes(s: Seq<char>) -> nat
    decreases s.len(),
{
    if s.len() > 0 && s.last() == '-' {
        1 + trail_dashes(s.drop_last())
    } else {
        0
    }
}

/// `s.trim_matches('-')`.
pub open spec fn strip_dashes(s: Seq<char>) -> Seq<char> {
    let t = s.skip(lead_dashes(s) as int);
    t.take(t.len() - trail_dashes(t))
}

/// The key [`stable_import_key`] derives from `value`.
pub open spec fn spec_stable_import_key(value: Seq<char>) -> Seq<char> {
    let k = strip_dashes(value.map_values(|c: char| key_char(c)));
    if k.len() == 0 {
        "event-pack"@
    } else {
        k
    }
}

proof fn lemma_lead_dashes(s: Seq<char>)
    ensures
        lead_dashes(s) <= s.len(),
        forall|j: int| 0 <= j < lead_dashes(s) ==> #[trigger] s[j] == '-',
        lead_dashes(s) < s.len() ==> s[lead_dashes(s) as int] != '-',
    decreases s.len(),
{
    if s.len() > 0 && s[0] == '-' {
        lemma_lead_dashes(s.drop_first());
        assert forall|j: int| 0 <= j < lead_dashes(s) implies #[trigger] s[j] == '-' by {
            if j > 0 {
                assert(s[j] == s.drop_first()[j - 1]);
            }
        }
    }
}

proof fn lemma_trail_dashes(s: Seq<char>)
    ensures
        trail_dashes(s) <= s.len(),
        forall|j: int| s.len() - trail_dashes(s) <= j < s.len() ==> #[trigger] s[j] == '-',
        trail_dashes(s) < s.len() ==> s[s.len() - trail_dashes(s) - 1] != '-',
    decreases s.len(),
{
    if s.len() > 0 && s.last() == '-' {
        lemma_trail_dashes(s.drop_last());
        assert forall|j: int| s.len() - trail_dashes(s) <= j < s.len() implies #[trigger] s[j] == '-' by {
            if j < s.len() - 1 {
                assert(s[j] == s.drop_last()[j]);
            }
        }
    }
}

/// A lower-case, dash-separated key for a source name, such as
/// `journal-pack-json` for `Journal Pack.json`; `event-pack` when nothing is left.
pub fn stable_import_key(value: &str) -> (r: String)
    ensures
        r@ == spec_stable_import_key(value@),
{
    let n = value.unicode_len();
    let mut key = String::new();
    let mut i: usize = 0;
    while i < n
        invariant
            n == value@.len(),
            i <= n,
            key@ == value@.take(i as int).map_values(|c: char| key_char(c)),
        decreases n - i,
    {
        let c = value.get_char(i);
        let k = if ('0' <= c && c <= '9') || ('a' <= c && c <= 'z') || ('A' <= c && c <= 'Z') {
            to_ascii_lower(c)
        } else {
            '-'
        };
        push_char(&mut key, k);
        assert(value@.take(i + 1).map_values(|c: char| key_char(c)) =~= value@.take(i as int).map_values(
            |c: char| key_char(c),
        ).push(key_char(c)));
        i = i + 1;
    }
    assert(value@.take(n as int) =~= value@);
    let ghost mapped = key@;
    let len = key.as_str().unicode_len();
    let mut a: usize = 0;
    proof { lemma_lead_dashes(mapped); }
    while a < len && key.as_str().get_char(a) == '-'
        invariant
            len == mapped.len(),
            key@ == mapped,
            a <= lead_dashes(mapped),
            lead_dashes(mapped) <= len,
            forall|j: int| 0 <= j < lead_dashes(mapped) ==> #[trigger] mapped[j] == '-',
            lead_dashes(mapped) < len ==> mapped[lead_dashes(mapped) as int] != '-',
        decreases len - a,
    {
        a = a + 1;
    }
    let head = key.as_str().substring_char(a, len);
    let ghost t = head@;
    let m = head.unicode_len();
    let mut b: usize = 0;
    proof { lemma_trail_dashes(t); }
    while b < m && head.get_char(m - 1 - b) == '-'
        invariant
            m == t.len(),
            head@ == t,
            b <= trail_dashes(t),
            trail_dashes(t) <= m,
            forall|j: int| m - trail_dashes(t) <= j < m ==> #[trigger] t[j] == '-',
            trail_dashes(t) < m ==> t[m - trail_dashes(t) - 1] != '-',
        decreases m - b,
    {
        b = b + 1;
    }
    if m - b == 0 {
        "event-pack".to_owned()
    } else {
        head.substring_char(0, m - b).to_owned()
    }
}

/// The word that names a source kind in batch ids.
pub open spec fn spec_source_kind_key(kind: ImportSourceKind) -> Seq<char> {
    match kind {
        ImportSourceKind::Gedcom => "gedcom"@,
        ImportSourceKind::Csv => "csv"@,
        ImportSourceKind::Json => "json"@,
        ImportSourceKind::Toml => "toml"@,
        ImportSourceKind::Ics => "ics"@,
        ImportSourceKind::Markdown => "markdown"@,
        ImportSourceKind::Wikidata => "wikidata"@,
        ImportSourceKind::Manual => "manual"@,
        ImportSourceKind::Custom(_) => "custom"@,
    }
}

fn source_kind_key(kind: &ImportSourceKind) -> (r: &'static str)
    ensures
        r@ == spec_source_kind_key(*kind),
{
    match kind {
        ImportSourceKind::Gedcom => "gedcom",
        ImportSourceKind::Csv => "csv",
        ImportSourceKind::Json => "json",
        ImportSourceKind::Toml => "toml",
        ImportSourceKind::Ics => "ics",
        ImportSourceKind::Markdown => "markdown",
        ImportSourceKind::Wikidata => "wikidata",
        ImportSourceKind::Manual => "manual",
        ImportSourceKind::Custom(_) => "custom",
    }
}

/// `prefix` followed by the decimal index.
fn numbered(prefix: &str, index: usize) -> (r: String)
    ensures
        r@ == prefix@ + decimal(index as nat),
{
    let mut r = prefix.to_owned();
    r.append(u64_to_decimal(index as u64).as_str());
    r
}

/// The candidates of one pack section start at `start` and are accepted,
/// numbered, and copies of the section's items.
pub open spec fn domain_profiles_candidates_at(c: Seq<ImportCandidate>, start: int, items: Seq<DomainProfile>) -> bool {
    &&& start + items.len() <= c.len()
    &&& forall|i: int|
        0 <= i < items.len() ==> {
            &&& (#[trigger] c[start + i]).id.0@ == "candidate:domain-profile:"@ + decimal(i as nat)
            &&& c[start + i].decision == ImportDecision::Accepted
            &&& c[start + i].item matches ImportCandidateItem::DomainProfile(y) && { let x = items[i]; y.id == x.id && y.title == x.title && y.event_types@ == x.event_types@ }
        }
}

pub open spec fn entities_candidates_at(c: Seq<ImportCandidate>, start: int, items: Seq<Entity>) -> bool {
    &&& start + items.len() <= c.len()
    &&& forall|i: int|
        0 <= i < items.len() ==> {
            &&& (#[trigger] c[start + i]).id.0@ == "candidate:entity:"@ + decimal(i as nat)
            &&& c[start + i].decision == ImportDecision::Accepted
            &&& c[start + i].item matches ImportCandidateItem::Entity(y) && { let x = items[i]; y == x }
        }
}

pub open spec fn events_candidates_at(c: Seq<ImportCandidate>, start: int, items: Seq<TimelineEvent>) -> bool {
    &&& start + items.len() <= c.len()
    &&& forall|i: int|
        0 <= i < items.len() ==> {
            &&& (#[trigger] c[start + i]).id.0@ == "candidate:event:"@ + decimal(i as nat)
            &&& c[start + i].decision == ImportDecision::Accepted
            &&& c[start + i].item matches ImportCandidateItem::Event(y) && { let x = items[i]; same_event(y, x) }
        }
}

pub open spec fn event_collections_candidates_at(c: Seq<ImportCandidate>, start: int, items: Seq<EventCollection>) -> bool {
    &&& start + items.len() <= c.len()
    &&& forall|i: int|
        0 <= i < items.len() ==> {
            &&& (#[trigger] c[start + i]).id.0@ == "candidate:event-collection:"@ + decimal(i as nat)
            &&& c[start + i].decision == ImportDecision::Accepted
            &&& c[start + i].item matches ImportCandidateItem::EventCollection(y) && { let x = items[i]; y.id == x.id && y.title == x.title && y.kind == x.kind && y.members@ == x.members@ }
        }
}

pub open spec fn event_relations_candidates_at(c: Seq<ImportCandidate>, start: int, items: Seq<EventRelation>) -> bool {
    &&& start + items.len() <= c.len()
    &&& forall|i: int|
        0 <= i < items.len() ==> {
            &&& (#[trigger] c[start + i]).id.0@ == "candidate:event-relation:"@ + decimal(i as nat)
            &&& c[start + i].decision == ImportDecision::Accepted
            &&& c[start + i].item matches ImportCandidateItem::EventRelation(y) && { let x = items[i]; y == x }
        }
}

pub open spec fn sources_candidates_at(c: Seq<ImportCandidate>, start: int, items: Seq<SourceRecord>) -> bool {
    &&& start + items.len() <= c.len()
    &&& forall|i: int|
        0 <= i < items.len() ==> {
            &&& (#[trigger] c[start + i]).id.0@ == "candidate:source:"@ + decimal(i as nat)
            &&& c[start + i].decision == ImportDecision::Accepted
            &&& c[start + i].item matches ImportCandidateItem::Source(y) && { let x = items[i]; y.id == x.id && y.title == x.title && y.description == x.description && y.url == x.url }
        }
}

pub open spec fn tags_candidates_at(c: Seq<ImportCandidate>, start: int, items: Seq<Tag>) -> bool {
    &&& start + items.len() <= c.len()
    &&& forall|i: int|
        0 <= i < items.len() ==> {
            &&& (#[trigger] c[start + i]).id.0@ == "candidate:tag:"@ + decimal(i as nat)
            &&& c[start + i].decision == ImportDecision::Accepted
            &&& c[start + i].item matches ImportCandidateItem::TagValue(y) && { let x = items[i]; y == x }
        }
}

/// Candidates for every item of a pack, section after section.
pub open spec fn pack_candidates_at(c: Seq<ImportCandidate>, start: int, pack: EventPack) -> bool {
    &&& domain_profiles_candidates_at(c, start, pack.domain_profiles@)
    &&& entities_candidates_at(c, start + pack.domain_profiles@.len(), pack.entities@)
    &&& events_candidates_at(c, start + pack.domain_profiles@.len() + pack.entities@.len(), pack.events@)
    &&& event_collections_candidates_at(c, start + pack.domain_profiles@.len() + pack.entities@.len() + pack.events@.len(), pack.event_collections@)
    &&& event_relations_candidates_at(c, start + pack.domain_profiles@.len() + pack.entities@.len() + pack.events@.len() + pack.event_collections@.len(), pack.event_relations@)
    &&& sources_candidates_at(c, start + pack.domain_profiles@.len() + pack.entities@.len() + pack.events@.len() + pack.event_collections@.len() + pack.event_relations@.len(), pack.sources@)
    &&& tags_candidates_at(c, start + pack.domain_profiles@.len() + pack.entities@.len() + pack.events@.len() + pack.event_collections@.len() + pack.event_relations@.len() + pack.sources@.len(), pack.tags@)
}

pub open spec fn pack_item_count(pack: EventPack) -> int {
    0int + pack.domain_profiles@.len() + pack.entities@.len() + pack.events@.len() + pack.event_collections@.len() + pack.event_relations@.len() + pack.sources@.len() + pack.tags@.len()
}

fn append_domain_profiles(batch: &mut ImportBatch, items: &Vec<DomainProfile>)
    ensures
        final(batch).candidates@.len() == old(batch).candidates@.len() + items@.len(),
        final(batch).candidates@.take(old(batch).candidates@.len() as int) == old(batch).candidates@,
        domain_profiles_candidates_at(final(batch).candidates@, old(batch).candidates@.len() as int, items@),
        final(batch).id == old(batch).id,
        final(batch).source_name == old(batch).source_name,
        final(batch).source_kind == old(batch).source_kind,
        final(batch).status == old(batch).status,
        final(batch).records == old(batch).records,
        final(batch).provenance == old(batch).provenance,
{
    let ghost start = batch.candidates@.len() as int;
    let n = items.len();
    let mut i: usize = 0;
    while i < n
        invariant
            n == items@.len(),
            i <= n,
            batch.candidates@.len() == start + i,
            batch.candidates@.take(start) == old(batch).candidates@,
            start == old(batch).candidates@.len(),
            domain_profiles_candidates_at(batch.candidates@, start, items@.take(i as int)),
            batch.id == old(batch).id,
            batch.source_name == old(batch).source_name,
            batch.source_kind == old(batch).source_kind,
            batch.status == old(batch).status,
            batch.records == old(batch).records,
            batch.provenance == old(batch).provenance,
        decreases n - i,
    {
        let item = items[i].clone();
        let candidate = ImportCandidate::add(
            ImportCandidateId::new(numbered("candidate:domain-profile:", i)),
            ImportCandidateItem::DomainProfile(item),
        ).accepted();
        let ghost prev = batch.candidates@;
        batch.candidates.push(candidate);
        proof {
            assert(batch.candidates@.take(start) =~= prev.take(start));
            assert forall|k: int| 0 <= k < i + 1 implies ({
                &&& (#[trigger] batch.candidates@[start + k]).id.0@ == "candidate:domain-profile:"@ + decimal(k as nat)
                &&& batch.candidates@[start + k].decision == ImportDecision::Accepted
                &&& batch.candidates@[start + k].item matches ImportCandidateItem::DomainProfile(y) && { let x = items@.take(i + 1)[k]; y.id == x.id && y.title == x.title && y.event_types@ == x.event_types@ }
            }) by {
                if k < i {
                    assert(batch.candidates@[start + k] == prev[start + k]);
                    assert(items@.take(i + 1)[k] == items@.take(i as int)[k]);
                }
            }
        }
        i = i + 1;
    }
    assert(items@.take(n as int) =~= items@);
}

fn append_entities(batch: &mut ImportBatch, items: &Vec<Entity>)
    ensures
        final(batch).candidates@.len() == old(batch).candidates@.len() + items@.len(),
        final(batch).candidates@.take(old(batch).candidates@.len() as int) == old(batch).candidates@,
        entities_candidates_at(final(batch).candidates@, old(batch).candidates@.len() as int, items@),
        final(batch).id == old(batch).id,
        final(batch).source_name == old(batch).source_name,
        final(batch).source_kind == old(batch).source_kind,
        final(batch).status == old(batch).status,
        final(batch).records == old(batch).records,
        final(batch).provenance == old(batch).provenance,
{
    let ghost start = batch.candidates@.len() as int;
    let n = items.len();
    let mut i: usize = 0;
    while i < n
        invariant
            n == items@.len(),
            i <= n,
            batch.candidates@.len() == start + i,
            batch.candidates@.take(start) == old(batch).candidates@,
            start == old(batch).candidates@.len(),
            entities_candidates_at(batch.candidates@, start, items@.take(i as int)),
            batch.id == old(batch).id,
            batch.source_name == old(batch).source_name,
            batch.source_kind == old(batch).source_kind,
            batch.status == old(batch).status,
            batch.records == old(batch).records,
            batch.provenance == old(batch).provenance,
        decreases n - i,
    {
        let item = items[i].clone();
        let candidate = ImportCandidate::add(
            ImportCandidateId::new(numbered("candidate:entity:", i)),
            ImportCandidateItem::Entity(item),
        ).accepted();
        let ghost prev = batch.candidates@;
        batch.candidates.push(candidate);
        proof {
            assert(batch.candidates@.take(start) =~= prev.take(start));
            assert forall|k: int| 0 <= k < i + 1 implies ({
                &&& (#[trigger] batch.candidates@[start + k]).id.0@ == "candidate:entity:"@ + decimal(k as nat)
                &&& batch.candidates@[start + k].decision == ImportDecision::Accepted
                &&& batch.candidates@[start + k].item matches ImportCandidateItem::Entity(y) && { let x = items@.take(i + 1)[k]; y == x }
            }) by {
                if k < i {
                    assert(batch.candidates@[start + k] == prev[start + k]);
                    assert(items@.take(i + 1)[k] == items@.take(i as int)[k]);
                }
            }
        }
        i = i + 1;
    }
    assert(items@.take(n as int) =~= items@);
}

fn append_events(batch: &mut ImportBatch, items: &Vec<TimelineEvent>)
    ensures
        final(batch).candidates@.len() == old(batch).candidates@.len() + items@.len(),
        final(batch).candidates@.take(old(batch).candidates@.len() as int) == old(batch).candidates@,
        events_candidates_at(final(batch).candidates@, old(batch).candidates@.len() as int, items@),
        final(batch).id == old(batch).id,
        final(batch).source_name == old(batch).source_name,
        final(batch).source_kind == old(batch).source_kind,
        final(batch).status == old(batch).status,
        final(batch).records == old(batch).records,
        final(batch).provenance == old(batch).provenance,
{
    let ghost start = batch.candidates@.len() as int;
    let n = items.len();
    let mut i: usize = 0;
    while i < n
        invariant
            n == items@.len(),
            i <= n,
            batch.candidates@.len() == start + i,
            batch.candidates@.take(start) == old(batch).candidates@,
            start == old(batch).candidates@.len(),
            events_candidates_at(batch.candidates@, start, items@.take(i as int)),
            batch.id == old(batch).id,
            batch.source_name == old(batch).source_name,
            batch.source_kind == old(batch).source_kind,
            batch.status == old(batch).status,
            batch.records == old(batch).records,
            batch.provenance == old(batch).provenance,
        decreases n - i,
    {
        let item = items[i].clone();
        let candidate = ImportCandidate::add(
            ImportCandidateId::new(numbered("candidate:event:", i)),
            ImportCandidateItem::Event(item),
        ).accepted();
        let ghost prev = batch.candidates@;
        batch.candidates.push(candidate);
        proof {
            assert(batch.candidates@.take(start) =~= prev.take(start));
            assert forall|k: int| 0 <= k < i + 1 implies ({
                &&& (#[trigger] batch.candidates@[start + k]).id.0@ == "candidate:event:"@ + decimal(k as nat)
                &&& batch.candidates@[start + k].decision == ImportDecision::Accepted
                &&& batch.candidates@[start + k].item matches ImportCandidateItem::Event(y) && { let x = items@.take(i + 1)[k]; same_event(y, x) }
            }) by {
                if k < i {
                    assert(batch.candidates@[start + k] == prev[start + k]);
                    assert(items@.take(i + 1)[k] == items@.take(i as int)[k]);
                }
            }
        }
        i = i + 1;
    }
    assert(items@.take(n as int) =~= items@);
}

fn append_event_collections(batch: &mut ImportBatch, items: &Vec<EventCollection>)
    ensures
        final(batch).candidates@.len() == old(batch).candidates@.len() + items@.len(),
        final(batch).candidates@.take(old(batch).candidates@.len() as int) == old(batch).candidates@,
        event_collections_candidates_at(final(batch).candidates@, old(batch).candidates@.len() as int, items@),
        final(batch).id == old(batch).id,
        final(batch).source_name == old(batch).source_name,
        final(batch).source_kind == old(batch).source_kind,
        final(batch).status == old(batch).status,
        final(batch).records == old(batch).records,
        final(batch).provenance == old(batch).provenance,
{
    let ghost start = batch.candidates@.len() as int;
    let n = items.len();
    let mut i: usize = 0;
    while i < n
        invariant
            n == items@.len(),
            i <= n,
            batch.candidates@.len() == start + i,
            batch.candidates@.take(start) == old(batch).candidates@,
            start == old(batch).candidates@.len(),
            event_collections_candidates_at(batch.candidates@, start, items@.take(i as int)),
            batch.id == old(batch).id,
            batch.source_name == old(batch).source_name,
            batch.source_kind == old(batch).source_kind,
            batch.status == old(batch).status,
            batch.records == old(batch).records,
            batch.provenance == old(batch).provenance,
        decreases n - i,
    {
        let item = items[i].clone();
        let candidate = ImportCandidate::add(
            ImportCandidateId::new(numbered("candidate:event-collection:", i)),
            ImportCandidateItem::EventCollection(item),
        ).accepted();
        let ghost prev = batch.candidates@;
        batch.candidates.push(candidate);
        proof {
            assert(batch.candidates@.take(start) =~= prev.take(start));
            assert forall|k: int| 0 <= k < i + 1 implies ({
                &&& (#[trigger] batch.candidates@[start + k]).id.0@ == "candidate:event-collection:"@ + decimal(k as nat)
                &&& batch.candidates@[start + k].decision == ImportDecision::Accepted
                &&& batch.candidates@[start + k].item matches ImportCandidateItem::EventCollection(y) && { let x = items@.take(i + 1)[k]; y.id == x.id && y.title == x.title && y.kind == x.kind && y.members@ == x.members@ }
            }) by {
                if k < i {
                    assert(batch.candidates@[start + k] == prev[start + k]);
                    assert(items@.take(i + 1)[k] == items@.take(i as int)[k]);
                }
            }
        }
        i = i + 1;
    }
    assert(items@.take(n as int) =~= items@);
}

fn append_event_relations(batch: &mut ImportBatch, items: &Vec<EventRelation>)
    ensures
        final(batch).candidates@.len() == old(batch).candidates@.len() + items@.len(),
        final(batch).candidates@.take(old(batch).candidates@.len() as int) == old(batch).candidates@,
        event_relations_candidates_at(final(batch).candidates@, old(batch).candidates@.len() as int, items@),
        final(batch).id == old(batch).id,
        final(batch).source_name == old(batch).source_name,
        final(batch).source_kind == old(batch).source_kind,
        final(batch).status == old(batch).status,
        final(batch).records == old(batch).records,
        final(batch).provenance == old(batch).provenance,
{
    let ghost start = batch.candidates@.len() as int;
    let n = items.len();
    let mut i: usize = 0;
    while i < n
        invariant
            n == items@.len(),
            i <= n,
            batch.candidates@.len() == start + i,
            batch.candidates@.take(start) == old(batch).candidates@,
            start == old(batch).candidates@.len(),
            event_relations_candidates_at(batch.candidates@, start, items@.take(i as int)),
            batch.id == old(batch).id,
            batch.source_name == old(batch).source_name,
            batch.source_kind == old(batch).source_kind,
            batch.status == old(batch).status,
            batch.records == old(batch).records,
            batch.provenance == old(batch).provenance,
        decreases n - i,
    {
        let item = items[i].clone();
        let candidate = ImportCandidate::add(
            ImportCandidateId::new(numbered("candidate:event-relation:", i)),
            ImportCandidateItem::EventRelation(item),
        ).accepted();
        let ghost prev = batch.candidates@;
        batch.candidates.push(candidate);
        proof {
            assert(batch.candidates@.take(start) =~= prev.take(start));
            assert forall|k: int| 0 <= k < i + 1 implies ({
                &&& (#[trigger] batch.candidates@[start + k]).id.0@ == "candidate:event-relation:"@ + decimal(k as nat)
                &&& batch.candidates@[start + k].decision == ImportDecision::Accepted
                &&& batch.candidates@[start + k].item matches ImportCandidateItem::EventRelation(y) && { let x = items@.take(i + 1)[k]; y == x }
            }) by {
                if k < i {
                    assert(batch.candidates@[start + k] == prev[start + k]);
                    assert(items@.take(i + 1)[k] == items@.take(i as int)[k]);
                }
            }
        }
        i = i + 1;
    }
    assert(items@.take(n as int) =~= items@);
}

fn append_sources(batch: &mut ImportBatch, items: &Vec<SourceRecord>)
    ensures
        final(batch).candidates@.len() == old(batch).candidates@.len() + items@.len(),
        final(batch).candidates@.take(old(batch).candidates@.len() as int) == old(batch).candidates@,
        sources_candidates_at(final(batch).candidates@, old(batch).candidates@.len() as int, items@),
        final(batch).id == old(batch).id,
        final(batch).source_name == old(batch).source_name,
        final(batch).source_kind == old(batch).source_kind,
        final(batch).status == old(batch).status,
        final(batch).records == old(batch).records,
        final(batch).provenance == old(batch).provenance,
{
    let ghost start = batch.candidates@.len() as int;
    let n = items.len();
    let mut i: usize = 0;
    while i < n
        invariant
            n == items@.len(),
            i <= n,
            batch.candidates@.len() == start + i,
            batch.candidates@.take(start) == old(batch).candidates@,
            start == old(batch).candidates@.len(),
            sources_candidates_at(batch.candidates@, start, items@.take(i as int)),
            batch.id == old(batch).id,
            batch.source_name == old(batch).source_name,
            batch.source_kind == old(batch).source_kind,
            batch.status == old(batch).status,
            batch.records == old(batch).records,
            batch.provenance == old(batch).provenance,
        decreases n - i,
    {
        let item = items[i].clone();
        let candidate = ImportCandidate::add(
            ImportCandidateId::new(numbered("candidate:source:", i)),
            ImportCandidateItem::Source(item),
        ).accepted();
        let ghost prev = batch.candidates@;
        batch.candidates.push(candidate);
        proof {
            assert(batch.candidates@.take(start) =~= prev.take(start));
            assert forall|k: int| 0 <= k < i + 1 implies ({
                &&& (#[trigger] batch.candidates@[start + k]).id.0@ == "candidate:source:"@ + decimal(k as nat)
                &&& batch.candidates@[start + k].decision == ImportDecision::Accepted
                &&& batch.candidates@[start + k].item matches ImportCandidateItem::Source(y) && { let x = items@.take(i + 1)[k]; y.id == x.id && y.title == x.title && y.description == x.description && y.url == x.url }
            }) by {
                if k < i {
                    assert(batch.candidates@[start + k] == prev[start + k]);
                    assert(items@.take(i + 1)[k] == items@.take(i as int)[k]);
                }
            }
        }
        i = i + 1;
    }
    assert(items@.take(n as int) =~= items@);
}

fn append_tags(batch: &mut ImportBatch, items: &Vec<Tag>)
    ensures
        final(batch).candidates@.len() == old(batch).candidates@.len() + items@.len(),
        final(batch).candidates@.take(old(batch).candidates@.len() as int) == old(batch).candidates@,
        tags_candidates_at(final(batch).candidates@, old(batch).candidates@.len() as int, items@),
        final(batch).id == old(batch).id,
        final(batch).source_name == old(batch).source_name,
        final(batch).source_kind == old(batch).source_kind,
        final(batch).status == old(batch).status,
        final(batch).records == old(batch).records,
        final(batch).provenance == old(batch).provenance,
{
    let ghost start = batch.candidates@.len() as int;
    let n = items.len();
    let mut i: usize = 0;
    while i < n
        invariant
            n == items@.len(),
            i <= n,
            batch.candidates@.len() == start + i,
            batch.candidates@.take(start) == old(batch).candidates@,
            start == old(batch).candidates@.len(),
            tags_candidates_at(batch.candidates@, start, items@.take(i as int)),
            batch.id == old(batch).id,
            batch.source_name == old(batch).source_name,
            batch.source_kind == old(batch).source_kind,
            batch.status == old(batch).status,
            batch.records == old(batch).records,
            batch.provenance == old(batch).provenance,
        decreases n - i,
    {
        let item = items[i].clone();
        let candidate = ImportCandidate::add(
            ImportCandidateId::new(numbered("candidate:tag:", i)),
            ImportCandidateItem::TagValue(item),
        ).accepted();
        let ghost prev = batch.candidates@;
        batch.candidates.push(candidate);
        proof {
            assert(batch.candidates@.take(start) =~= prev.take(start));
            assert forall|k: int| 0 <= k < i + 1 implies ({
                &&& (#[trigger] batch.candidates@[start + k]).id.0@ == "candidate:tag:"@ + decimal(k as nat)
                &&& batch.candidates@[start + k].decision == ImportDecision::Accepted
                &&& batch.candidates@[start + k].item matches ImportCandidateItem::TagValue(y) && { let x = items@.take(i + 1)[k]; y == x }
            }) by {
                if k < i {
                    assert(batch.candidates@[start + k] == prev[start + k]);
                    assert(items@.take(i + 1)[k] == items@.take(i as int)[k]);
                }
            }
        }
        i = i + 1;
    }
    assert(items@.take(n as int) =~= items@);
}

/// Appends an accepted candidate for every item of the pack, numbered per
/// section: domain profiles, entities, events, event collections, event
/// relations, sources, then tags.
pub fn append_event_pack_candidates(batch: &mut ImportBatch, pack: &EventPack)
    ensures
        final(batch).candidates@.len() == old(batch).candidates@.len() + pack_item_count(*pack),
        final(batch).candidates@.take(old(batch).candidates@.len() as int) == old(batch).candidates@,
        pack_candidates_at(final(batch).candidates@, old(batch).candidates@.len() as int, *pack),
        final(batch).id == old(batch).id,
        final(batch).source_name == old(batch).source_name,
        final(batch).source_kind == old(batch).source_kind,
        final(batch).status == old(batch).status,
        final(batch).records == old(batch).records,
        final(batch).provenance == old(batch).provenance,
{
    let ghost c0 = batch.candidates@;
    append_domain_profiles(batch, &pack.domain_profiles);
    let ghost c1 = batch.candidates@;
    append_entities(batch, &pack.entities);
    let ghost c2 = batch.candidates@;
    append_events(batch, &pack.events);
    let ghost c3 = batch.candidates@;
    append_event_collections(batch, &pack.event_collections);
    let ghost c4 = batch.candidates@;
    append_event_relations(batch, &pack.event_relations);
    let ghost c5 = batch.candidates@;
    append_sources(batch, &pack.sources);
    let ghost c6 = batch.candidates@;
    append_tags(batch, &pack.tags);
    let ghost c7 = batch.candidates@;
    proof {
        assert forall|k: int| 0 <= k < c1.len() implies #[trigger] c7[k] == c1[k] by {
            assert(c2.take(c1.len() as int)[k] == c2[k]);
            assert(c3.take(c2.len() as int)[k] == c3[k]);
            assert(c4.take(c3.len() as int)[k] == c4[k]);
            assert(c5.take(c4.len() as int)[k] == c5[k]);
            assert(c6.take(c5.len() as int)[k] == c6[k]);
            assert(c7.take(c6.len() as int)[k] == c7[k]);
        }
        assert(domain_profiles_candidates_at(c7, c0.len() as int, pack.domain_profiles@));
        assert forall|k: int| 0 <= k < c2.len() implies #[trigger] c7[k] == c2[k] by {
            assert(c3.take(c2.len() as int)[k] == c3[k]);
            assert(c4.take(c3.len() as int)[k] == c4[k]);
            assert(c5.take(c4.len() as int)[k] == c5[k]);
            assert(c6.take(c5.len() as int)[k] == c6[k]);
            assert(c7.take(c6.len() as int)[k] == c7[k]);
        }
        assert(entities_candidates_at(c7, c1.len() as int, pack.entities@));
        assert forall|k: int| 0 <= k < c3.len() implies #[trigger] c7[k] == c3[k] by {
            assert(c4.take(c3.len() as int)[k] == c4[k]);
            assert(c5.take(c4.len() as int)[k] == c5[k]);
            assert(c6.take(c5.len() as int)[k] == c6[k]);
            assert(c7.take(c6.len() as int)[k] == c7[k]);
        }
        assert(events_candidates_at(c7, c2.len() as int, pack.events@));
        assert forall|k: int| 0 <= k < c4.len() implies #[trigger] c7[k] == c4[k] by {
            assert(c5.take(c4.len() as int)[k] == c5[k]);
            assert(c6.take(c5.len() as int)[k] == c6[k]);
            assert(c7.take(c6.len() as int)[k] == c7[k]);
        }
        assert(event_collections_candidates_at(c7, c3.len() as int, pack.event_collections@));
        assert forall|k: int| 0 <= k < c5.len() implies #[trigger] c7[k] == c5[k] by {
            assert(c6.take(c5.len() as int)[k] == c6[k]);
            assert(c7.take(c6.len() as int)[k] == c7[k]);
        }
        assert(event_relations_candidates_at(c7, c4.len() as int, pack.event_relations@));
        assert forall|k: int| 0 <= k < c6.len() implies #[trigger] c7[k] == c6[k] by {
            assert(c7.take(c6.len() as int)[k] == c7[k]);
        }
        assert(sources_candidates_at(c7, c5.len() as int, pack.sources@));
        assert forall|k: int| 0 <= k < c7.len() implies #[trigger] c7[k] == c7[k] by {
        }
        assert(tags_candidates_at(c7, c6.len() as int, pack.tags@));
        assert(c7.take(c0.len() as int) =~= c0) by {
            assert(c2.take(c1.len() as int) == c1);
            assert(c3.take(c2.len() as int) == c2);
            assert(c4.take(c3.len() as int) == c3);
            assert(c5.take(c4.len() as int) == c4);
            assert(c6.take(c5.len() as int) == c5);
            assert(c7.take(c6.len() as int) == c6);
        }
    }
}

/// The id text of the batch made from a source: `import:<kind>:<key>`.
pub open spec fn spec_batch_id(kind: ImportSourceKind, source_name: Seq<char>) -> Seq<char> {
    "import:"@ + spec_source_kind_key(kind) + ":"@ + spec_stable_import_key(source_name)
}

pub open spec fn raw_view(o: Option<String>) -> Option<Seq<char>> {
    match o {
        Some(s) => Some(s@),
        None => None,
    }
}

/// `r` is the batch made from `pack`: previewed, with one record for the
/// pack and an accepted candidate for every item of it.
pub open spec fn imported_batch(
    r: ImportBatch,
    source_name: Seq<char>,
    source_kind: ImportSourceKind,
    record_id: Seq<char>,
    raw: Option<Seq<char>>,
    pack: EventPack,
) -> bool {
    &&& r.id.0@ == spec_batch_id(source_kind, source_name)
    &&& r.source_name@ == source_name
    &&& r.source_kind == source_kind
    &&& r.status == ImportStatus::Previewed
    &&& r.provenance.sources@ == pack.provenance.sources@
    &&& r.provenance.tags@ == pack.provenance.tags@
    &&& r.records@.len() == 1
    &&& r.records@[0].id@ == record_id
    &&& r.records@[0].source_record_id matches Some(s) && s@ == source_name
    &&& r.records@[0].summary matches Some(s) && s@ == "Event pack: "@ + pack.metadata.title@
    &&& raw_view(r.records@[0].raw) == raw
    &&& r.records@[0].provenance.sources@ == pack.provenance.sources@
    &&& r.records@[0].provenance.tags@ == pack.provenance.tags@
    &&& r.candidates@.len() == pack_item_count(pack)
    &&& pack_candidates_at(r.candidates@, 0, pack)
}

/// A previewed batch holding one record for the pack and an accepted
/// candidate for every item of it.
pub fn import_batch_from_event_pack(
    source_name: &str,
    source_kind: ImportSourceKind,
    record_id: &str,
    raw: Option<String>,
    pack: &EventPack,
) -> (r: ImportBatch)
    ensures
        imported_batch(r, source_name@, source_kind, record_id@, raw_view(raw), *pack),
{
    let mut id = "import:".to_owned();
    id.append(source_kind_key(&source_kind));
    id.append(":");
    id.append(stable_import_key(source_name).as_str());
    let mut batch = ImportBatch::new(ImportBatchId::new(id), source_name.to_owned(), source_kind);
    batch.status = ImportStatus::Previewed;
    batch.provenance = pack.provenance.clone();
    let mut summary = "Event pack: ".to_owned();
    summary.append(pack.metadata.title.as_str());
    batch.records.push(
        ImportRecord {
            id: record_id.to_owned(),
            source_record_id: Some(source_name.to_owned()),
            summary: Some(summary),
            raw,
            provenance: pack.provenance.clone(),
        },
    );
    append_event_pack_candidates(&mut batch, pack);
    assert(batch.candidates@.take(0) =~= Seq::<ImportCandidate>::empty());
    batch
}

} // verus!
