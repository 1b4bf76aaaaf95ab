//! Editable tree documents: ids, metadata, categories, relationship kinds
//! and relationships between people.
//!
//! A tree is source-agnostic: GEDCOM can be attached as a backing source,
//! but people and relationships can be authored without one.
use vstd::prelude::*;
use crate::attribution::Provenance;
use crate::genealogy_event::GenealogyEvent;
use crate::model::{EventId, Name, Person, PersonId, Sex};
use crate::text::str_eq;

verus! {

#[derive(Debug, Clone, PartialEq, Eq)]
pub struct TreeId(pub String);

#[derive(Debug, Clone, Copy, Default, PartialEq, Eq, Structural, PartialOrd, Ord, Hash)]
pub struct RelationshipId(pub u64);

#[derive(Debug, Clone, Copy, Default, PartialEq, Eq, Structural, PartialOrd, Ord, Hash)]
pub struct CategoryId(pub u64);

#[derive(Debug, Clone, PartialEq, Eq)]
pub struct TreeMetadata {
    pub id: TreeId,
    pub title: String,
    pub description: Option<String>,
    pub created_at: Option<String>,
    pub updated_at: Option<String>,
}

/// A user-defined grouping for people, events, or relationships, such as
/// "Research queue" or "Imported from a GEDCOM file".
#[derive(Debug, Clone, PartialEq, Eq)]
pub struct TreeCategory {
    pub id: CategoryId,
    pub label: String,
    pub description: Option<String>,
    pub color: Option<String>,
}

#[derive(Debug, PartialEq, Eq)]
pub enum RelationshipKind {
    BiologicalParentChild,
    AdoptiveParentChild,
    FosterParentChild,
    StepParentChild,
    GuardianChild,
    Spouse,
    Partner,
    FormerSpouse,
    Sibling,
    Household,
    Associate,
    Other(String),
}

impl Clone for RelationshipKind {
    fn clone(&self) -> (r: Self)
        ensures
            r == *self,
    {
        match self {
            RelationshipKind::BiologicalParentChild => RelationshipKind::BiologicalParentChild,
            RelationshipKind::AdoptiveParentChild => RelationshipKind::AdoptiveParentChild,
            RelationshipKind::FosterParentChild => RelationshipKind::FosterParentChild,
            RelationshipKind::StepParentChild => RelationshipKind::StepParentChild,
            RelationshipKind::GuardianChild => RelationshipKind::GuardianChild,
            RelationshipKind::Spouse => RelationshipKind::Spouse,
            RelationshipKind::Partner => RelationshipKind::Partner,
            RelationshipKind::FormerSpouse => RelationshipKind::FormerSpouse,
            RelationshipKind::Sibling => RelationshipKind::Sibling,
            RelationshipKind::Household => RelationshipKind::Household,
            RelationshipKind::Associate => RelationshipKind::Associate,
            RelationshipKind::Other(s) => RelationshipKind::Other(s.clone()),
        }
    }
}

/// The human-readable label of a kind.
pub open spec fn spec_kind_label(k: RelationshipKind) -> Seq<char> {
    match k {
        RelationshipKind::BiologicalParentChild => "biological parent/child"@,
        RelationshipKind::AdoptiveParentChild => "adoptive parent/child"@,
        RelationshipKind::FosterParentChild => "foster parent/child"@,
        RelationshipKind::StepParentChild => "step parent/child"@,
        RelationshipKind::GuardianChild => "guardian/child"@,
        RelationshipKind::Spouse => "spouse"@,
        RelationshipKind::Partner => "partner"@,
        RelationshipKind::FormerSpouse => "former spouse"@,
        RelationshipKind::Sibling => "sibling"@,
        RelationshipKind::Household => "household"@,
        RelationshipKind::Associate => "associate"@,
        RelationshipKind::Other(s) => s@,
    }
}

/// The stored value of a kind.
pub open spec fn spec_kind_value(k: RelationshipKind) -> Seq<char> {
    match k {
        RelationshipKind::BiologicalParentChild => "biological-parent-child"@,
        RelationshipKind::AdoptiveParentChild => "adoptive-parent-child"@,
        RelationshipKind::FosterParentChild => "foster-parent-child"@,
        RelationshipKind::StepParentChild => "step-parent-child"@,
        RelationshipKind::GuardianChild => "guardian-child"@,
        RelationshipKind::Spouse => "spouse"@,
        RelationshipKind::Partner => "partner"@,
        RelationshipKind::FormerSpouse => "former-spouse"@,
        RelationshipKind::Sibling => "sibling"@,
        RelationshipKind::Household => "household"@,
        RelationshipKind::Associate => "associate"@,
        RelationshipKind::Other(s) => s@,
    }
}

/// Whether `v` is the stored value of one of the named kinds.
pub open spec fn is_known_kind_value(v: Seq<char>) -> bool {
    v == "biological-parent-child"@
        || v == "adoptive-parent-child"@
        || v == "foster-parent-child"@
        || v == "step-parent-child"@
        || v == "guardian-child"@
        || v == "spouse"@
        || v == "partner"@
        || v == "former-spouse"@
        || v == "sibling"@
        || v == "household"@
        || v == "associate"@
}

/// Whether `k` is the kind that the stored value `v` names (any other text
/// being kept as `Other`).
pub open spec fn kind_named_by(v: Seq<char>, k: RelationshipKind) -> bool {
    if v == "biological-parent-child"@ {
        k == RelationshipKind::BiologicalParentChild
    } else if v == "adoptive-parent-child"@ {
        k == RelationshipKind::AdoptiveParentChild
    } else if v == "foster-parent-child"@ {
        k == RelationshipKind::FosterParentChild
    } else if v == "step-parent-child"@ {
        k == RelationshipKind::StepParentChild
    } else if v == "guardian-child"@ {
        k == RelationshipKind::GuardianChild
    } else if v == "spouse"@ {
        k == RelationshipKind::Spouse
    } else if v == "partner"@ {
        k == RelationshipKind::Partner
    } else if v == "former-spouse"@ {
        k == RelationshipKind::FormerSpouse
    } else if v == "sibling"@ {
        k == RelationshipKind::Sibling
    } else if v == "household"@ {
        k == RelationshipKind::Household
    } else if v == "associate"@ {
        k == RelationshipKind::Associate
    } else {
        k matches RelationshipKind::Other(s) && s@ == v
    }
}

pub open spec fn spec_is_parent_child(k: RelationshipKind) -> bool {
    match k {
        RelationshipKind::BiologicalParentChild | RelationshipKind::AdoptiveParentChild
        | RelationshipKind::FosterParentChild | RelationshipKind::StepParentChild
        | RelationshipKind::GuardianChild => true,
        _ => false,
    }
}

impl RelationshipKind {
    pub fn label(&self) -> (r: &str)
        ensures
            r@ == spec_kind_label(*self),
    {
        match self {
            RelationshipKind::BiologicalParentChild => "biological parent/child",
            RelationshipKind::AdoptiveParentChild => "adoptive parent/child",
            RelationshipKind::FosterParentChild => "foster parent/child",
            RelationshipKind::StepParentChild => "step parent/child",
            RelationshipKind::GuardianChild => "guardian/child",
            RelationshipKind::Spouse => "spouse",
            RelationshipKind::Partner => "partner",
            RelationshipKind::FormerSpouse => "former spouse",
            RelationshipKind::Sibling => "sibling",
            RelationshipKind::Household => "household",
            RelationshipKind::Associate => "associate",
            RelationshipKind::Other(label) => label.as_str(),
        }
    }

    pub fn as_value(&self) -> (r: &str)
        ensures
            r@ == spec_kind_value(*self),
    {
        match self {
            RelationshipKind::BiologicalParentChild => "biological-parent-child",
            RelationshipKind::AdoptiveParentChild => "adoptive-parent-child",
            RelationshipKind::FosterParentChild => "foster-parent-child",
            RelationshipKind::StepParentChild => "step-parent-child",
            RelationshipKind::GuardianChild => "guardian-child",
            RelationshipKind::Spouse => "spouse",
            RelationshipKind::Partner => "partner",
            RelationshipKind::FormerSpouse => "former-spouse",
            RelationshipKind::Sibling => "sibling",
            RelationshipKind::Household => "household",
            RelationshipKind::Associate => "associate",
            RelationshipKind::Other(label) => label.as_str(),
        }
    }

    /// The kind that a stored value names; any other text becomes `Other`.
    pub fn from_value(value: &str) -> (r: Self)
        ensures
            kind_named_by(value@, r),
    {
        if str_eq(value, "biological-parent-child") {
            RelationshipKind::BiologicalParentChild
        } else if str_eq(value, "adoptive-parent-child") {
            RelationshipKind::AdoptiveParentChild
        } else if str_eq(value, "foster-parent-child") {
            RelationshipKind::FosterParentChild
        } else if str_eq(value, "step-parent-child") {
            RelationshipKind::StepParentChild
        } else if str_eq(value, "guardian-child") {
            RelationshipKind::GuardianChild
        } else if str_eq(value, "spouse") {
            RelationshipKind::Spouse
        } else if str_eq(value, "partner") {
            RelationshipKind::Partner
        } else if str_eq(value, "former-spouse") {
            RelationshipKind::FormerSpouse
        } else if str_eq(value, "sibling") {
            RelationshipKind::Sibling
        } else if str_eq(value, "household") {
            RelationshipKind::Household
        } else if str_eq(value, "associate") {
            RelationshipKind::Associate
        } else {
            RelationshipKind::Other(value.to_owned())
        }
    }

    /// The named kinds, in declaration order.
    pub fn common_kinds() -> (r: Vec<Self>)
        ensures
            r@ == seq![
                RelationshipKind::BiologicalParentChild,
                RelationshipKind::AdoptiveParentChild,
                RelationshipKind::FosterParentChild,
                RelationshipKind::StepParentChild,
                RelationshipKind::GuardianChild,
                RelationshipKind::Spouse,
                RelationshipKind::Partner,
                RelationshipKind::FormerSpouse,
                RelationshipKind::Sibling,
                RelationshipKind::Household,
                RelationshipKind::Associate,
            ],
    {
        let mut r = Vec::new();
        r.push(RelationshipKind::BiologicalParentChild);
        r.push(RelationshipKind::AdoptiveParentChild);
        r.push(RelationshipKind::FosterParentChild);
        r.push(RelationshipKind::StepParentChild);
        r.push(RelationshipKind::GuardianChild);
        r.push(RelationshipKind::Spouse);
        r.push(RelationshipKind::Partner);
        r.push(RelationshipKind::FormerSpouse);
        r.push(RelationshipKind::Sibling);
        r.push(RelationshipKind::Household);
        r.push(RelationshipKind::Associate);
        assert(r@ =~= seq![
            RelationshipKind::BiologicalParentChild,
            RelationshipKind::AdoptiveParentChild,
            RelationshipKind::FosterParentChild,
            RelationshipKind::StepParentChild,
            RelationshipKind::GuardianChild,
            RelationshipKind::Spouse,
            RelationshipKind::Partner,
            RelationshipKind::FormerSpouse,
            RelationshipKind::Sibling,
            RelationshipKind::Household,
            RelationshipKind::Associate,
        ]);
        r
    }

    pub fn is_parent_child(&self) -> (r: bool)
        ensures
            r == spec_is_parent_child(*self),
    {
        match self {
            RelationshipKind::BiologicalParentChild | RelationshipKind::AdoptiveParentChild
            | RelationshipKind::FosterParentChild | RelationshipKind::StepParentChild
            | RelationshipKind::GuardianChild => true,
            _ => false,
        }
    }
}

/// Law: reading back the stored value of a value-derived kind gives the
/// value itself: `from_value(v).as_value() == v` for every text `v`.
pub proof fn law_kind_value_round_trip(v: Seq<char>, k: RelationshipKind)
    requires
        kind_named_by(v, k),
    ensures
        spec_kind_value(k) == v,
{
}

/// Law: every named kind is read back from its stored value.
pub proof fn law_common_kind_from_own_value(k: RelationshipKind)
    requires
        !(k is Other),
    ensures
        is_known_kind_value(spec_kind_value(k)),
        kind_named_by(spec_kind_value(k), k),
{
    reveal_strlit("biological-parent-child");
    reveal_strlit("adoptive-parent-child");
    reveal_strlit("foster-parent-child");
    reveal_strlit("step-parent-child");
    reveal_strlit("guardian-child");
    reveal_strlit("spouse");
    reveal_strlit("partner");
    reveal_strlit("former-spouse");
    reveal_strlit("sibling");
    reveal_strlit("household");
    reveal_strlit("associate");
    assert("biological-parent-child"@.len() == 23);
    assert("adoptive-parent-child"@.len() == 21);
    assert("foster-parent-child"@.len() == 19);
    assert("step-parent-child"@.len() == 17);
    assert("guardian-child"@.len() == 14);
    assert("spouse"@.len() == 6);
    assert("partner"@.len() == 7);
    assert("former-spouse"@.len() == 13);
    assert("sibling"@.len() == 7);
    assert("household"@.len() == 9);
    assert("associate"@.len() == 9);
    assert("sibling"@[0] != "partner"@[0]);
    assert("associate"@[0] != "household"@[0]);
}

/// The role a parent has towards a child.
#[derive(Debug, Clone, Copy, PartialEq, Eq, Structural)]
pub enum ParentRole {
    Father,
    Mother,
    Parent,
    Unknown,
}

#[derive(Debug, Clone, PartialEq, Eq)]
pub struct TreeRelationship {
    pub id: RelationshipId,
    pub kind: RelationshipKind,
    /// First endpoint; for parent/child kinds, the parent or guardian.
    pub source: PersonId,
    /// Second endpoint; for parent/child kinds, the child.
    pub target: PersonId,
    pub label: Option<String>,
    /// For parent/child kinds, whether the parent is the father or mother.
    pub parent_role: Option<ParentRole>,
    pub events: Vec<EventId>,
    pub categories: Vec<CategoryId>,
    pub provenance: Provenance,
}

#[derive(Debug, Clone, PartialEq, Eq)]
pub struct GedcomFileVersion {
    pub id: String,
    pub filename: String,
    pub imported_at: Option<String>,
    pub content_hash: Option<String>,
    pub note: Option<String>,
}

#[derive(Debug, Clone, PartialEq, Eq)]
pub struct GedcomBacking {
    pub label: String,
    pub active_version: Option<String>,
    pub versions: Vec<GedcomFileVersion>,
}

#[derive(Debug, Clone, PartialEq, Eq)]
pub enum TreeAttachment {
    Gedcom(GedcomBacking),
    Other { label: String, note: Option<String> },
}


// ---------------------------------------------------------------------------
// Tree documents.

/// Two kinds are the same kind; `Other` kinds compare by their text.
pub open spec fn same_kind(a: RelationshipKind, b: RelationshipKind) -> bool {
    match a {
        RelationshipKind::Other(x) => b matches RelationshipKind::Other(y) && x@ == y@,
        _ => !(b is Other) && a == b,
    }
}

pub fn kinds_equal(a: &RelationshipKind, b: &RelationshipKind) -> (r: bool)
    ensures
        r == same_kind(*a, *b),
{
    match (a, b) {
        (RelationshipKind::Other(x), RelationshipKind::Other(y)) => str_eq(x.as_str(), y.as_str()),
        (RelationshipKind::Other(_), _) => false,
        (_, RelationshipKind::Other(_)) => false,
        (RelationshipKind::BiologicalParentChild, RelationshipKind::BiologicalParentChild) => true,
        (RelationshipKind::AdoptiveParentChild, RelationshipKind::AdoptiveParentChild) => true,
        (RelationshipKind::FosterParentChild, RelationshipKind::FosterParentChild) => true,
        (RelationshipKind::StepParentChild, RelationshipKind::StepParentChild) => true,
        (RelationshipKind::GuardianChild, RelationshipKind::GuardianChild) => true,
        (RelationshipKind::Spouse, RelationshipKind::Spouse) => true,
        (RelationshipKind::Partner, RelationshipKind::Partner) => true,
        (RelationshipKind::FormerSpouse, RelationshipKind::FormerSpouse) => true,
        (RelationshipKind::Sibling, RelationshipKind::Sibling) => true,
        (RelationshipKind::Household, RelationshipKind::Household) => true,
        (RelationshipKind::Associate, RelationshipKind::Associate) => true,
        _ => false,
    }
}

/// A tree: people, events and relationships between people, with optional
/// categories and backing sources. Its layout (where each person is drawn)
/// is kept by the application beside it.
#[derive(Debug, PartialEq, Eq)]
pub struct TreeDocument {
    pub metadata: TreeMetadata,
    /// Optional anchor person used by the simple tree path and default view.
    pub main_person: Option<PersonId>,
    pub people: Vec<Person>,
    pub events: Vec<GenealogyEvent>,
    pub relationships: Vec<TreeRelationship>,
    pub categories: Vec<TreeCategory>,
    pub attachments: Vec<TreeAttachment>,
}

/// The largest person id of `people`, 0 when there are none.
pub open spec fn max_person_id(people: Seq<Person>) -> nat
    decreases people.len(),
{
    if people.len() == 0 {
        0
    } else {
        let m = max_person_id(people.drop_last());
        let x = people.last().id.0 as nat;
        if x > m { x } else { m }
    }
}

/// The largest relationship id, 0 when there are none.
pub open spec fn max_relationship_id(rels: Seq<TreeRelationship>) -> nat
    decreases rels.len(),
{
    if rels.len() == 0 {
        0
    } else {
        let m = max_relationship_id(rels.drop_last());
        let x = rels.last().id.0 as nat;
        if x > m { x } else { m }
    }
}

/// The largest category id, 0 when there are none.
pub open spec fn max_category_id(cats: Seq<TreeCategory>) -> nat
    decreases cats.len(),
{
    if cats.len() == 0 {
        0
    } else {
        let m = max_category_id(cats.drop_last());
        let x = cats.last().id.0 as nat;
        if x > m { x } else { m }
    }
}

pub proof fn lemma_max_person_id(people: Seq<Person>)
    ensures
        forall|i: int| 0 <= i < people.len() ==> people[i].id.0 <= max_person_id(people),
        people.len() > 0 ==> exists|i: int| 0 <= i < people.len() && people[i].id.0 == max_person_id(people),
    decreases people.len(),
{
    if people.len() > 0 {
        lemma_max_person_id(people.drop_last());
        assert forall|i: int| 0 <= i < people.len() implies people[i].id.0 <= max_person_id(people) by {
            if i < people.len() - 1 {
                assert(people[i] == people.drop_last()[i]);
            }
        }
        if people.len() > 1 && max_person_id(people) == max_person_id(people.drop_last()) {
            let j = choose|j: int| 0 <= j < people.drop_last().len() && people.drop_last()[j].id.0 == max_person_id(people.drop_last());
            assert(people[j] == people.drop_last()[j]);
        } else {
            assert(people[people.len() - 1] == people.last());
        }
    }
}

pub proof fn lemma_max_relationship_id(rels: Seq<TreeRelationship>)
    ensures
        forall|i: int| 0 <= i < rels.len() ==> rels[i].id.0 <= max_relationship_id(rels),
    decreases rels.len(),
{
    if rels.len() > 0 {
        lemma_max_relationship_id(rels.drop_last());
        assert forall|i: int| 0 <= i < rels.len() implies rels[i].id.0 <= max_relationship_id(rels) by {
            if i < rels.len() - 1 {
                assert(rels[i] == rels.drop_last()[i]);
            }
        }
    }
}

/// Some person of `people` has the id `id`.
pub open spec fn has_person_id(people: Seq<Person>, id: PersonId) -> bool {
    exists|i: int| 0 <= i < people.len() && people[i].id == id
}

/// The first person with the id `id`, by position.
pub open spec fn first_person_index(people: Seq<Person>, id: PersonId) -> Option<int>
    decreases people.len(),
{
    if people.len() == 0 {
        None
    } else if people[0].id == id {
        Some(0)
    } else {
        match first_person_index(people.drop_first(), id) {
            Some(i) => Some(i + 1),
            None => None,
        }
    }
}

pub proof fn lemma_first_person_index(people: Seq<Person>, id: PersonId)
    ensures
        match first_person_index(people, id) {
            Some(i) => 0 <= i < people.len() && people[i].id == id
                && forall|j: int| 0 <= j < i ==> people[j].id != id,
            None => !has_person_id(people, id),
        },
    decreases people.len(),
{
    if people.len() > 0 && people[0].id != id {
        lemma_first_person_index(people.drop_first(), id);
        if first_person_index(people.drop_first(), id) is None {
            assert forall|i: int| 0 <= i < people.len() implies people[i].id != id by {
                if i > 0 {
                    assert(people[i] == people.drop_first()[i - 1]);
                }
            }
        } else {
            let k = first_person_index(people.drop_first(), id).unwrap();
            assert(people[k + 1] == people.drop_first()[k]);
            assert forall|j: int| 0 <= j < k + 1 implies people[j].id != id by {
                if j > 0 {
                    assert(people[j] == people.drop_first()[j - 1]);
                }
            }
        }
    }
}

/// The people without those whose id is `id`, in order.
pub open spec fn without_person(people: Seq<Person>, id: PersonId) -> Seq<Person>
    decreases people.len(),
{
    if people.len() == 0 {
        seq![]
    } else {
        let rest = without_person(people.drop_last(), id);
        if people.last().id == id { rest } else { rest.push(people.last()) }
    }
}

/// The relationships that touch neither end `id`, in order.
pub open spec fn without_touching(rels: Seq<TreeRelationship>, id: PersonId) -> Seq<TreeRelationship>
    decreases rels.len(),
{
    if rels.len() == 0 {
        seq![]
    } else {
        let rest = without_touching(rels.drop_last(), id);
        let r = rels.last();
        if r.source == id || r.target == id { rest } else { rest.push(r) }
    }
}

/// The relationships without those whose id is `id`, in order.
pub open spec fn without_relationship(rels: Seq<TreeRelationship>, id: RelationshipId) -> Seq<TreeRelationship>
    decreases rels.len(),
{
    if rels.len() == 0 {
        seq![]
    } else {
        let rest = without_relationship(rels.drop_last(), id);
        if rels.last().id == id { rest } else { rest.push(rels.last()) }
    }
}

/// The ids without `id`, in order.
pub open spec fn without_id(ids: Seq<PersonId>, id: PersonId) -> Seq<PersonId>
    decreases ids.len(),
{
    if ids.len() == 0 {
        seq![]
    } else {
        let rest = without_id(ids.drop_last(), id);
        if ids.last() == id { rest } else { rest.push(ids.last()) }
    }
}

/// Some relationship of `rels` has the id `id`.
pub open spec fn has_relationship_id(rels: Seq<TreeRelationship>, id: RelationshipId) -> bool {
    exists|i: int| 0 <= i < rels.len() && rels[i].id == id
}

proof fn lemma_has_relationship_step(rels: Seq<TreeRelationship>, k: int, id: RelationshipId)
    requires
        0 <= k < rels.len(),
    ensures
        has_relationship_id(rels.take(k + 1), id) == (has_relationship_id(rels.take(k), id) || rels[k].id == id),
{
    if has_relationship_id(rels.take(k + 1), id) {
        let j = choose|j: int| 0 <= j < rels.take(k + 1).len() && (#[trigger] rels.take(k + 1)[j]).id == id;
        if j < k {
            assert(rels.take(k)[j] == rels.take(k + 1)[j]);
        }
    }
    if has_relationship_id(rels.take(k), id) {
        let j = choose|j: int| 0 <= j < rels.take(k).len() && (#[trigger] rels.take(k)[j]).id == id;
        assert(rels.take(k + 1)[j] == rels.take(k)[j]);
    }
    if rels[k].id == id {
        assert(rels.take(k + 1)[k] == rels[k]);
    }
}

/// Some relationship of `rels` is of kind `kind` from `source` to `target`.
pub open spec fn has_edge(rels: Seq<TreeRelationship>, kind: RelationshipKind, source: PersonId, target: PersonId) -> bool {
    exists|i: int| 0 <= i < rels.len() && same_kind(rels[i].kind, kind) && rels[i].source == source && rels[i].target == target
}

/// The display name of the first person with the id `id`: the display of
/// its first name, when it has one.
pub open spec fn display_name_of(people: Seq<Person>, id: PersonId) -> Option<Seq<char>> {
    match first_person_index(people, id) {
        Some(i) => if people[i].names.len() > 0 {
            Some(people[i].names@[0].display@)
        } else {
            None
        },
        None => None,
    }
}

/// A name that is only a display text.
pub open spec fn is_plain_name(n: Name, display: Seq<char>) -> bool {
    &&& n.display@ == display
    &&& n.usage is None
    &&& n.full is None
    &&& n.middle is None
    &&& n.order is None
    &&& n.given is None
    &&& n.surname is None
    &&& n.aliases@.len() == 0
    &&& n.provenance.is_empty_spec()
}

/// A new person: the id, one plain name, the sex, and no events, families,
/// notes, source record or provenance.
pub open spec fn is_new_person(p: Person, id: PersonId, display: Seq<char>, sex: Option<Sex>) -> bool {
    &&& p.id == id
    &&& p.names@.len() == 1
    &&& is_plain_name(p.names@[0], display)
    &&& p.sex == sex
    &&& p.events@.len() == 0
    &&& p.families_as_child@.len() == 0
    &&& p.families_as_spouse@.len() == 0
    &&& p.notes@.len() == 0
    &&& p.source_record is None
    &&& p.provenance.is_empty_spec()
}

fn plain_name(display: String) -> (n: Name)
    ensures
        is_plain_name(n, display@),
{
    Name {
        usage: None,
        display,
        full: None,
        given: None,
        middle: None,
        order: None,
        surname: None,
        aliases: Vec::new(),
        provenance: Provenance::empty(),
    }
}

impl TreeDocument {
    /// An empty tree with the given id and title.
    pub fn empty(id: &str, title: &str) -> (r: Self)
        ensures
            r.metadata.id.0@ == id@,
            r.metadata.title@ == title@,
            r.metadata.description is None,
            r.metadata.created_at is None,
            r.metadata.updated_at is None,
            r.main_person is None,
            r.people@.len() == 0,
            r.events@.len() == 0,
            r.relationships@.len() == 0,
            r.categories@.len() == 0,
            r.attachments@.len() == 0,
    {
        TreeDocument {
            metadata: TreeMetadata {
                id: TreeId(id.to_owned()),
                title: title.to_owned(),
                description: None,
                created_at: None,
                updated_at: None,
            },
            main_person: None,
            people: Vec::new(),
            events: Vec::new(),
            relationships: Vec::new(),
            categories: Vec::new(),
            attachments: Vec::new(),
        }
    }

    /// One more than the largest person id (1 for an empty tree).
    pub fn next_person_id(&self) -> (r: PersonId)
        requires
            max_person_id(self.people@) < u64::MAX,
        ensures
            r.0 == max_person_id(self.people@) + 1,
    {
        let mut m: u64 = 0;
        let mut i: usize = 0;
        while i < self.people.len()
            invariant
                i <= self.people@.len(),
                m == max_person_id(self.people@.take(i as int)),
            decreases self.people@.len() - i,
        {
            assert(self.people@.take(i + 1).drop_last() =~= self.people@.take(i as int));
            if self.people[i].id.0 > m {
                m = self.people[i].id.0;
            }
            i = i + 1;
        }
        assert(self.people@.take(i as int) =~= self.people@);
        PersonId(m + 1)
    }

    /// One more than the largest relationship id (1 when there are none).
    pub fn next_relationship_id(&self) -> (r: RelationshipId)
        requires
            max_relationship_id(self.relationships@) < u64::MAX,
        ensures
            r.0 == max_relationship_id(self.relationships@) + 1,
    {
        let mut m: u64 = 0;
        let mut i: usize = 0;
        while i < self.relationships.len()
            invariant
                i <= self.relationships@.len(),
                m == max_relationship_id(self.relationships@.take(i as int)),
            decreases self.relationships@.len() - i,
        {
            assert(self.relationships@.take(i + 1).drop_last() =~= self.relationships@.take(i as int));
            if self.relationships[i].id.0 > m {
                m = self.relationships[i].id.0;
            }
            i = i + 1;
        }
        assert(self.relationships@.take(i as int) =~= self.relationships@);
        RelationshipId(m + 1)
    }

    /// One more than the largest category id (1 when there are none).
    pub fn next_category_id(&self) -> (r: CategoryId)
        requires
            max_category_id(self.categories@) < u64::MAX,
        ensures
            r.0 == max_category_id(self.categories@) + 1,
    {
        let mut m: u64 = 0;
        let mut i: usize = 0;
        while i < self.categories.len()
            invariant
                i <= self.categories@.len(),
                m == max_category_id(self.categories@.take(i as int)),
            decreases self.categories@.len() - i,
        {
            assert(self.categories@.take(i + 1).drop_last() =~= self.categories@.take(i as int));
            if self.categories[i].id.0 > m {
                m = self.categories[i].id.0;
            }
            i = i + 1;
        }
        assert(self.categories@.take(i as int) =~= self.categories@);
        CategoryId(m + 1)
    }
}


impl TreeDocument {
    /// Adds a person with a fresh id (one more than the largest), named only
    /// by `display_name`; returns the id.
    pub fn add_person(&mut self, display_name: &str, sex: Option<Sex>) -> (r: PersonId)
        requires
            max_person_id(old(self).people@) < u64::MAX,
        ensures
            r.0 == max_person_id(old(self).people@) + 1,
            !has_person_id(old(self).people@, r),
            final(self).people@.len() == old(self).people@.len() + 1,
            final(self).people@.drop_last() == old(self).people@,
            is_new_person(final(self).people@.last(), r, display_name@, sex),
            final(self).metadata == old(self).metadata,
            final(self).main_person == old(self).main_person,
            final(self).events@ == old(self).events@,
            final(self).relationships@ == old(self).relationships@,
            final(self).categories@ == old(self).categories@,
            final(self).attachments@ == old(self).attachments@,
    {
        let id = self.next_person_id();
        proof {
            lemma_max_person_id(self.people@);
        }
        let mut names: Vec<Name> = Vec::new();
        names.push(plain_name(display_name.to_owned()));
        self.people.push(Person {
            id,
            names,
            sex,
            events: Vec::new(),
            families_as_child: Vec::new(),
            families_as_spouse: Vec::new(),
            notes: Vec::new(),
            source_record: None,
            provenance: Provenance::empty(),
        });
        assert(self.people@.drop_last() =~= old(self).people@);
        id
    }

    /// Adds a relationship of `kind` from `source` to `target` with a fresh
    /// id (one more than the largest), no label, events or categories.
    pub fn add_relationship(&mut self, kind: RelationshipKind, source: PersonId, target: PersonId) -> (r: RelationshipId)
        requires
            max_relationship_id(old(self).relationships@) < u64::MAX,
        ensures
            r.0 == max_relationship_id(old(self).relationships@) + 1,
            !has_relationship_id(old(self).relationships@, r),
            final(self).relationships@.len() == old(self).relationships@.len() + 1,
            final(self).relationships@.drop_last() == old(self).relationships@,
            final(self).relationships@.last().id == r,
            final(self).relationships@.last().kind == kind,
            final(self).relationships@.last().source == source,
            final(self).relationships@.last().target == target,
            final(self).relationships@.last().label is None,
            final(self).relationships@.last().parent_role is None,
            final(self).relationships@.last().events@.len() == 0,
            final(self).relationships@.last().categories@.len() == 0,
            final(self).relationships@.last().provenance.is_empty_spec(),
            final(self).metadata == old(self).metadata,
            final(self).main_person == old(self).main_person,
            final(self).people@ == old(self).people@,
            final(self).events@ == old(self).events@,
            final(self).categories@ == old(self).categories@,
            final(self).attachments@ == old(self).attachments@,
    {
        let id = self.next_relationship_id();
        proof {
            lemma_max_relationship_id(self.relationships@);
        }
        self.relationships.push(TreeRelationship {
            id,
            kind,
            source,
            target,
            label: None,
            parent_role: None,
            events: Vec::new(),
            categories: Vec::new(),
            provenance: Provenance::empty(),
        });
        assert(self.relationships@.drop_last() =~= old(self).relationships@);
        id
    }

    /// Removes every relationship with the id `id`; whether there was one.
    pub fn remove_relationship(&mut self, id: RelationshipId) -> (r: bool)
        ensures
            r == has_relationship_id(old(self).relationships@, id),
            final(self).relationships@ == without_relationship(old(self).relationships@, id),
            final(self).metadata == old(self).metadata,
            final(self).main_person == old(self).main_person,
            final(self).people@ == old(self).people@,
            final(self).events@ == old(self).events@,
            final(self).categories@ == old(self).categories@,
            final(self).attachments@ == old(self).attachments@,
    {
        let ghost old_rels = self.relationships@;
        let n0 = self.relationships.len();
        let mut i: usize = 0;
        let mut k: usize = 0;
        let mut found = false;
        assert(old_rels.take(0) =~= seq![]);
        assert(old_rels.skip(0) =~= old_rels);
        while i < self.relationships.len()
            invariant
                k <= old_rels.len(),
                old_rels.len() == n0,
                i == without_relationship(old_rels.take(k as int), id).len(),
                self.relationships@ == without_relationship(old_rels.take(k as int), id) + old_rels.skip(k as int),
                found == has_relationship_id(old_rels.take(k as int), id),
                self.metadata == old(self).metadata,
                self.main_person == old(self).main_person,
                self.people@ == old(self).people@,
                self.events@ == old(self).events@,
                self.categories@ == old(self).categories@,
                self.attachments@ == old(self).attachments@,
                old_rels == old(self).relationships@,
            decreases self.relationships@.len() - i,
        {
            let ghost kept = without_relationship(old_rels.take(k as int), id);
            assert(self.relationships@.len() == i + old_rels.skip(k as int).len());
            assert(k < old_rels.len());
            assert(self.relationships@[i as int] == old_rels.skip(k as int)[0]);
            assert(self.relationships@[i as int] == old_rels[k as int]);
            assert(old_rels.take(k + 1).drop_last() =~= old_rels.take(k as int));
            assert(old_rels.take(k + 1).last() == old_rels[k as int]);
            let is_match = self.relationships[i].id == id;
            if is_match {
                self.relationships.remove(i);
                assert(self.relationships@ =~= kept + old_rels.skip(k + 1));
            } else {
                assert(self.relationships@ =~= kept.push(old_rels[k as int]) + old_rels.skip(k + 1));
                i = i + 1;
            }
            proof {
                lemma_has_relationship_step(old_rels, k as int, id);
            }
            found = found || is_match;
            k = k + 1;
        }
        proof {
            if k < old_rels.len() {
                assert(self.relationships@.len() > i);
            }
            assert(old_rels.take(k as int) =~= old_rels);
        }
        found
    }
}


proof fn lemma_has_person_step(people: Seq<Person>, k: int, id: PersonId)
    requires
        0 <= k < people.len(),
    ensures
        has_person_id(people.take(k + 1), id) == (has_person_id(people.take(k), id) || people[k].id == id),
{
    if has_person_id(people.take(k + 1), id) {
        let j = choose|j: int| 0 <= j < people.take(k + 1).len() && (#[trigger] people.take(k + 1)[j]).id == id;
        if j < k {
            assert(people.take(k)[j] == people.take(k + 1)[j]);
        }
    }
    if has_person_id(people.take(k), id) {
        let j = choose|j: int| 0 <= j < people.take(k).len() && (#[trigger] people.take(k)[j]).id == id;
        assert(people.take(k + 1)[j] == people.take(k)[j]);
    }
    if people[k].id == id {
        assert(people.take(k + 1)[k] == people[k]);
    }
}

/// Removes the people whose id is `id`; whether there were any.
fn retain_other_people(v: &mut Vec<Person>, id: PersonId) -> (removed: bool)
    ensures
        final(v)@ == without_person(old(v)@, id),
        removed == has_person_id(old(v)@, id),
{
    let ghost orig = v@;
    let n0 = v.len();
    let mut i: usize = 0;
    let mut k: usize = 0;
    let mut found = false;
    assert(orig.take(0) =~= seq![]);
    assert(orig.skip(0) =~= orig);
    while i < v.len()
        invariant
            k <= orig.len(),
            orig.len() == n0,
            i == without_person(orig.take(k as int), id).len(),
            v@ == without_person(orig.take(k as int), id) + orig.skip(k as int),
            found == has_person_id(orig.take(k as int), id),
        decreases v@.len() - i,
    {
        let ghost kept = without_person(orig.take(k as int), id);
        assert(v@.len() == i + orig.skip(k as int).len());
        assert(v@[i as int] == orig.skip(k as int)[0]);
        assert(orig.take(k + 1).drop_last() =~= orig.take(k as int));
        assert(orig.take(k + 1).last() == orig[k as int]);
        let is_match = v[i].id == id;
        if is_match {
            v.remove(i);
            assert(v@ =~= kept + orig.skip(k + 1));
        } else {
            assert(v@ =~= kept.push(orig[k as int]) + orig.skip(k + 1));
            i = i + 1;
        }
        proof {
            lemma_has_person_step(orig, k as int, id);
        }
        found = found || is_match;
        k = k + 1;
    }
    proof {
        if k < orig.len() {
            assert(v@.len() > i);
        }
        assert(orig.take(k as int) =~= orig);
    }
    found
}

/// Removes the relationships that touch `id` at either end.
fn retain_untouched(v: &mut Vec<TreeRelationship>, id: PersonId)
    ensures
        final(v)@ == without_touching(old(v)@, id),
{
    let ghost orig = v@;
    let n0 = v.len();
    let mut i: usize = 0;
    let mut k: usize = 0;
    assert(orig.take(0) =~= seq![]);
    assert(orig.skip(0) =~= orig);
    while i < v.len()
        invariant
            k <= orig.len(),
            orig.len() == n0,
            i == without_touching(orig.take(k as int), id).len(),
            v@ == without_touching(orig.take(k as int), id) + orig.skip(k as int),
        decreases v@.len() - i,
    {
        let ghost kept = without_touching(orig.take(k as int), id);
        assert(v@.len() == i + orig.skip(k as int).len());
        assert(v@[i as int] == orig.skip(k as int)[0]);
        assert(orig.take(k + 1).drop_last() =~= orig.take(k as int));
        assert(orig.take(k + 1).last() == orig[k as int]);
        if v[i].source == id || v[i].target == id {
            v.remove(i);
            assert(v@ =~= kept + orig.skip(k + 1));
        } else {
            assert(v@ =~= kept.push(orig[k as int]) + orig.skip(k + 1));
            i = i + 1;
        }
        k = k + 1;
    }
    proof {
        if k < orig.len() {
            assert(v@.len() > i);
        }
        assert(orig.take(k as int) =~= orig);
    }
}

/// Removes `id` from a list of person ids.
fn retain_other_ids(v: &mut Vec<PersonId>, id: PersonId)
    ensures
        final(v)@ == without_id(old(v)@, id),
{
    let ghost orig = v@;
    let n0 = v.len();
    let mut i: usize = 0;
    let mut k: usize = 0;
    assert(orig.take(0) =~= seq![]);
    assert(orig.skip(0) =~= orig);
    while i < v.len()
        invariant
            k <= orig.len(),
            orig.len() == n0,
            i == without_id(orig.take(k as int), id).len(),
            v@ == without_id(orig.take(k as int), id) + orig.skip(k as int),
        decreases v@.len() - i,
    {
        let ghost kept = without_id(orig.take(k as int), id);
        assert(v@.len() == i + orig.skip(k as int).len());
        assert(v@[i as int] == orig.skip(k as int)[0]);
        assert(orig.take(k + 1).drop_last() =~= orig.take(k as int));
        assert(orig.take(k + 1).last() == orig[k as int]);
        if v[i] == id {
            v.remove(i);
            assert(v@ =~= kept + orig.skip(k + 1));
        } else {
            assert(v@ =~= kept.push(orig[k as int]) + orig.skip(k + 1));
            i = i + 1;
        }
        k = k + 1;
    }
    proof {
        if k < orig.len() {
            assert(v@.len() > i);
        }
        assert(orig.take(k as int) =~= orig);
    }
}

/// `e` is `before` with `id` taken out of its participants.
pub open spec fn event_without_participant(e: GenealogyEvent, before: GenealogyEvent, id: PersonId) -> bool {
    &&& e.id == before.id
    &&& e.kind == before.kind
    &&& e.date == before.date
    &&& e.time == before.time
    &&& e.time_zone == before.time_zone
    &&& e.place == before.place
    &&& e.description == before.description
    &&& e.provenance == before.provenance
    &&& e.participants@ == without_id(before.participants@, id)
}

/// Takes `id` out of the participants of every event.
fn remove_participant(events: &mut Vec<GenealogyEvent>, id: PersonId)
    ensures
        final(events)@.len() == old(events)@.len(),
        forall|j: int| 0 <= j < old(events)@.len()
            ==> event_without_participant(#[trigger] final(events)@[j], old(events)@[j], id),
{
    let ghost orig = events@;
    let n = events.len();
    let mut j: usize = 0;
    while j < n
        invariant
            n == orig.len(),
            j <= n,
            events@.len() == n,
            forall|m: int| 0 <= m < j ==> event_without_participant(#[trigger] events@[m], orig[m], id),
            forall|m: int| j <= m < n ==> #[trigger] events@[m] == orig[m],
        decreases n - j,
    {
        let mut e = events.remove(j);
        retain_other_ids(&mut e.participants, id);
        events.insert(j, e);
        j = j + 1;
    }
}

impl TreeDocument {
    /// Removes the person with the id `id`, with every relationship that
    /// touches them, their place among event participants, and the main
    /// person mark when it is theirs; whether there was such a person (when
    /// there was none, nothing changes).
    pub fn remove_person(&mut self, id: PersonId) -> (r: bool)
        ensures
            r == has_person_id(old(self).people@, id),
            final(self).people@ == without_person(old(self).people@, id),
            r ==> final(self).relationships@ == without_touching(old(self).relationships@, id),
            r ==> final(self).events@.len() == old(self).events@.len(),
            r ==> forall|j: int| 0 <= j < old(self).events@.len()
                ==> event_without_participant(#[trigger] final(self).events@[j], old(self).events@[j], id),
            r ==> final(self).main_person == (if old(self).main_person == Some(id) {
                None
            } else {
                old(self).main_person
            }),
            !r ==> final(self).relationships@ == old(self).relationships@,
            !r ==> final(self).events@ == old(self).events@,
            !r ==> final(self).main_person == old(self).main_person,
            final(self).metadata == old(self).metadata,
            final(self).categories@ == old(self).categories@,
            final(self).attachments@ == old(self).attachments@,
    {
        let removed = retain_other_people(&mut self.people, id);
        if removed {
            retain_untouched(&mut self.relationships, id);
            remove_participant(&mut self.events, id);
            if self.main_person == Some(id) {
                self.main_person = None;
            }
        }
        removed
    }

    /// Some person has the id `id`.
    pub fn has_person(&self, id: PersonId) -> (r: bool)
        ensures
            r == has_person_id(self.people@, id),
    {
        let mut i: usize = 0;
        while i < self.people.len()
            invariant
                i <= self.people@.len(),
                forall|j: int| 0 <= j < i ==> (#[trigger] self.people@[j]).id != id,
            decreases self.people@.len() - i,
        {
            if self.people[i].id == id {
                return true;
            }
            i = i + 1;
        }
        false
    }

    /// Some relationship is of `kind` from `source` to `target`.
    pub fn has_relationship(&self, kind: &RelationshipKind, source: PersonId, target: PersonId) -> (r: bool)
        ensures
            r == has_edge(self.relationships@, *kind, source, target),
    {
        let mut i: usize = 0;
        while i < self.relationships.len()
            invariant
                i <= self.relationships@.len(),
                forall|j: int| 0 <= j < i ==> !(same_kind((#[trigger] self.relationships@[j]).kind, *kind)
                    && self.relationships@[j].source == source && self.relationships@[j].target == target),
            decreases self.relationships@.len() - i,
        {
            let rel = &self.relationships[i];
            if kinds_equal(&rel.kind, kind) && rel.source == source && rel.target == target {
                return true;
            }
            i = i + 1;
        }
        false
    }

    fn find_person(&self, id: PersonId) -> (r: Option<usize>)
        ensures
            match r {
                Some(i) => first_person_index(self.people@, id) == Some(i as int),
                None => first_person_index(self.people@, id) is None,
            },
    {
        proof {
            lemma_first_person_index(self.people@, id);
        }
        let mut i: usize = 0;
        while i < self.people.len()
            invariant
                i <= self.people@.len(),
                forall|j: int| 0 <= j < i ==> (#[trigger] self.people@[j]).id != id,
                match first_person_index(self.people@, id) {
                    Some(f) => 0 <= f < self.people@.len() && self.people@[f].id == id
                        && forall|j: int| 0 <= j < f ==> (#[trigger] self.people@[j]).id != id,
                    None => !has_person_id(self.people@, id),
                },
            decreases self.people@.len() - i,
        {
            if self.people[i].id == id {
                return Some(i);
            }
            i = i + 1;
        }
        None
    }

    /// The display of the first name of the first person with the id `id`.
    pub fn person_display_name(&self, id: PersonId) -> (r: Option<&str>)
        ensures
            match r {
                Some(t) => display_name_of(self.people@, id) == Some(t@),
                None => display_name_of(self.people@, id) is None,
            },
    {
        proof {
            lemma_first_person_index(self.people@, id);
        }
        match self.find_person(id) {
            Some(i) => {
                if self.people[i].names.len() > 0 {
                    Some(self.people[i].names[0].display.as_str())
                } else {
                    None
                }
            },
            None => None,
        }
    }

    /// Renames the first person with the id `id`: the display of their first
    /// name becomes `display_name` (a plain name is added when they have
    /// none); whether there was such a person.
    pub fn rename_person(&mut self, id: PersonId, display_name: &str) -> (r: bool)
        ensures
            r == has_person_id(old(self).people@, id),
            final(self).people@.len() == old(self).people@.len(),
            r ==> display_name_of(final(self).people@, id) == Some(display_name@),
            forall|j: int| 0 <= j < old(self).people@.len() && Some(j) != first_person_index(old(self).people@, id)
                ==> #[trigger] final(self).people@[j] == old(self).people@[j],
            r ==> final(self).people@[first_person_index(old(self).people@, id).unwrap()].names@.len()
                == if old(self).people@[first_person_index(old(self).people@, id).unwrap()].names@.len() == 0 {
                    1
                } else {
                    old(self).people@[first_person_index(old(self).people@, id).unwrap()].names@.len()
                },
            final(self).metadata == old(self).metadata,
            final(self).main_person == old(self).main_person,
            final(self).events@ == old(self).events@,
            final(self).relationships@ == old(self).relationships@,
            final(self).categories@ == old(self).categories@,
            final(self).attachments@ == old(self).attachments@,
    {
        proof {
            lemma_first_person_index(self.people@, id);
        }
        let i = match self.find_person(id) {
            Some(i) => i,
            None => return false,
        };
        let mut person = self.people.remove(i);
        if person.names.len() > 0 {
            let mut first = person.names.remove(0);
            first.display = display_name.to_owned();
            person.names.insert(0, first);
        } else {
            person.names.push(plain_name(display_name.to_owned()));
        }
        self.people.insert(i, person);
        proof {
            let ghost np = self.people@;
            assert(np[i as int].id == id);
            assert forall|j: int| 0 <= j < i implies (#[trigger] np[j]).id != id by {
                assert(np[j] == old(self).people@[j]);
            }
            lemma_first_person_index(np, id);
            let f = first_person_index(np, id);
            if f != Some(i as int) {
                let fv = f.unwrap();
                assert(fv < i || fv > i);
            }
        }
        true
    }
}


// ---------------------------------------------------------------------------
// Laws of tree editing.

proof fn lemma_without_person_unchanged(people: Seq<Person>, id: PersonId)
    requires
        !has_person_id(people, id),
    ensures
        without_person(people, id) == people,
    decreases people.len(),
{
    if people.len() > 0 {
        assert(people[people.len() - 1] == people.last());
        assert forall|i: int| 0 <= i < people.drop_last().len() implies (#[trigger] people.drop_last()[i]).id != id by {
            assert(people.drop_last()[i] == people[i]);
        }
        lemma_without_person_unchanged(people.drop_last(), id);
        assert(people.drop_last().push(people.last()) =~= people);
    }
}

proof fn lemma_without_person_gone(people: Seq<Person>, id: PersonId)
    ensures
        !has_person_id(without_person(people, id), id),
        forall|q: Person| without_person(people, id).contains(q) ==> people.contains(q),
    decreases people.len(),
{
    if people.len() > 0 {
        lemma_without_person_gone(people.drop_last(), id);
        let rest = without_person(people.drop_last(), id);
        assert forall|q: Person| without_person(people, id).contains(q) implies people.contains(q) by {
            if rest.contains(q) {
                assert(people.drop_last().contains(q));
                let j = choose|j: int| 0 <= j < people.drop_last().len() && people.drop_last()[j] == q;
                assert(people[j] == q);
            } else {
                assert(people[people.len() - 1] == q);
            }
        }
        if people.last().id != id {
            assert forall|i: int| 0 <= i < rest.push(people.last()).len() implies (#[trigger] rest.push(people.last())[i]).id != id by {
                if i < rest.len() {
                    assert(rest.push(people.last())[i] == rest[i]);
                }
            }
        }
    }
}

proof fn lemma_without_touching(rels: Seq<TreeRelationship>, id: PersonId)
    ensures
        forall|i: int| 0 <= i < without_touching(rels, id).len()
            ==> (#[trigger] without_touching(rels, id)[i]).source != id && without_touching(rels, id)[i].target != id,
    decreases rels.len(),
{
    if rels.len() > 0 {
        lemma_without_touching(rels.drop_last(), id);
        let rest = without_touching(rels.drop_last(), id);
        assert forall|i: int| 0 <= i < without_touching(rels, id).len()
            implies (#[trigger] without_touching(rels, id)[i]).source != id && without_touching(rels, id)[i].target != id by {
            if i < rest.len() {
                assert(without_touching(rels, id)[i] == rest[i]);
            }
        }
    }
}

proof fn lemma_without_relationship_unchanged(rels: Seq<TreeRelationship>, id: RelationshipId)
    requires
        !has_relationship_id(rels, id),
    ensures
        without_relationship(rels, id) == rels,
    decreases rels.len(),
{
    if rels.len() > 0 {
        assert(rels[rels.len() - 1] == rels.last());
        assert forall|i: int| 0 <= i < rels.drop_last().len() implies (#[trigger] rels.drop_last()[i]).id != id by {
            assert(rels.drop_last()[i] == rels[i]);
        }
        lemma_without_relationship_unchanged(rels.drop_last(), id);
        assert(rels.drop_last().push(rels.last()) =~= rels);
    }
}

proof fn lemma_without_relationship_gone(rels: Seq<TreeRelationship>, id: RelationshipId)
    ensures
        !has_relationship_id(without_relationship(rels, id), id),
    decreases rels.len(),
{
    if rels.len() > 0 {
        lemma_without_relationship_gone(rels.drop_last(), id);
        let rest = without_relationship(rels.drop_last(), id);
        if rels.last().id != id {
            assert forall|i: int| 0 <= i < rest.push(rels.last()).len() implies (#[trigger] rest.push(rels.last())[i]).id != id by {
                if i < rest.len() {
                    assert(rest.push(rels.last())[i] == rest[i]);
                }
            }
        }
    }
}

/// Law: a person just added with a fresh id is in the tree under that id,
/// and the tree gives back the name it was added with.
pub proof fn law_added_person_is_found(people: Seq<Person>, p: Person, display: Seq<char>, sex: Option<Sex>)
    requires
        !has_person_id(people, p.id),
        is_new_person(p, p.id, display, sex),
    ensures
        has_person_id(people.push(p), p.id),
        display_name_of(people.push(p), p.id) == Some(display),
{
    let q = people.push(p);
    assert(q[people.len() as int] == p);
    assert forall|j: int| 0 <= j < people.len() implies (#[trigger] q[j]).id != p.id by {
        assert(q[j] == people[j]);
    }
    lemma_first_person_index(q, p.id);
    let f = first_person_index(q, p.id).unwrap();
    assert(f == people.len());
}

/// Law: removing a person just added with a fresh id gives back the people
/// that were there before.
pub proof fn law_add_then_remove_person(people: Seq<Person>, p: Person)
    requires
        !has_person_id(people, p.id),
    ensures
        without_person(people.push(p), p.id) == people,
{
    assert(people.push(p).drop_last() =~= people);
    lemma_without_person_unchanged(people, p.id);
}

/// Law: after a person is removed, no person has their id, everyone left
/// was there before, and no relationship left touches them.
pub proof fn law_removed_person_is_gone(people: Seq<Person>, rels: Seq<TreeRelationship>, id: PersonId)
    ensures
        !has_person_id(without_person(people, id), id),
        forall|q: Person| without_person(people, id).contains(q) ==> people.contains(q),
        forall|i: int| 0 <= i < without_touching(rels, id).len()
            ==> (#[trigger] without_touching(rels, id)[i]).source != id && without_touching(rels, id)[i].target != id,
{
    lemma_without_person_gone(people, id);
    lemma_without_touching(rels, id);
}

/// Law: removing a person who is not in the tree changes nothing.
pub proof fn law_remove_absent_person(people: Seq<Person>, id: PersonId)
    requires
        !has_person_id(people, id),
    ensures
        without_person(people, id) == people,
{
    lemma_without_person_unchanged(people, id);
}

/// Law: a relationship just added is found by its kind and ends; removing
/// it by its fresh id gives back the relationships that were there before.
pub proof fn law_add_then_remove_relationship(rels: Seq<TreeRelationship>, r: TreeRelationship)
    requires
        !has_relationship_id(rels, r.id),
    ensures
        has_edge(rels.push(r), r.kind, r.source, r.target),
        without_relationship(rels.push(r), r.id) == rels,
{
    let q = rels.push(r);
    assert(q[rels.len() as int] == r);
    assert(same_kind(r.kind, r.kind));
    assert(q.drop_last() =~= rels);
    lemma_without_relationship_unchanged(rels, r.id);
}

/// Law: after a relationship is removed, none has its id.
pub proof fn law_removed_relationship_is_gone(rels: Seq<TreeRelationship>, id: RelationshipId)
    ensures
        !has_relationship_id(without_relationship(rels, id), id),
{
    lemma_without_relationship_gone(rels, id);
}

} // verus!
