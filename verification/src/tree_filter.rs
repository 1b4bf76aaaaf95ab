//! Narrowing a tree to the relatives of one person: ancestors and
//! descendants up to a number of generations, with their partners, their
//! siblings or everyone, as a tree view asks.
use vstd::prelude::*;
use crate::genealogy_event::GenealogyEvent;
use crate::model::{EventId, Person, PersonId};
use crate::tree::{spec_is_parent_child, RelationshipKind, TreeDocument, TreeRelationship};

verus! {

/// What a tree view keeps around its root person.
#[derive(Debug, Clone, Copy, PartialEq, Eq)]
pub struct TreeGenerationFilter {
    /// Generations of ancestors to keep, when the view limits them.
    pub generations_up: Option<u32>,
    /// Generations of descendants to keep, when the view limits them.
    pub generations_down: Option<u32>,
    /// Keep the partners of everyone kept (the default).
    pub include_partners: bool,
    /// Keep the siblings of everyone kept.
    pub include_siblings: bool,
    /// Keep every person of the tree.
    pub include_unconnected: bool,
}

impl TreeGenerationFilter {
    /// The filter of a view that names no projection: partners kept, and no
    /// limit on generations (so the tree is left whole).
    pub fn unlimited() -> (r: Self)
        ensures
            r.generations_up is None,
            r.generations_down is None,
            r.include_partners,
            !r.include_siblings,
            !r.include_unconnected,
    {
        TreeGenerationFilter {
            generations_up: None,
            generations_down: None,
            include_partners: true,
            include_siblings: false,
            include_unconnected: false,
        }
    }
}

pub open spec fn is_partner_kind(k: RelationshipKind) -> bool {
    k is Spouse || k is Partner || k is FormerSpouse
}

/// One step from `x` to `y` along a parent/child relationship: to a parent
/// when `up`, to a child otherwise.
pub open spec fn step(rels: Seq<TreeRelationship>, up: bool, x: PersonId, y: PersonId) -> bool {
    exists|i: int| #![trigger rels[i]] 0 <= i < rels.len() && step_by(rels[i], up, x, y)
}

pub open spec fn step_by(r: TreeRelationship, up: bool, x: PersonId, y: PersonId) -> bool {
    spec_is_parent_child(r.kind) && if up {
        r.target == x && r.source == y
    } else {
        r.source == x && r.target == y
    }
}

/// The people of `s` and those one step from them.
pub open spec fn expand(rels: Seq<TreeRelationship>, up: bool, s: Set<PersonId>) -> Set<PersonId> {
    s + Set::new(|y: PersonId| exists|x: PersonId| s.contains(x) && #[trigger] step(rels, up, x, y))
}

/// The people at most `d` steps from `root`.
pub open spec fn reach(rels: Seq<TreeRelationship>, up: bool, root: PersonId, d: nat) -> Set<PersonId>
    decreases d,
{
    if d == 0 {
        set![root]
    } else {
        expand(rels, up, reach(rels, up, root, (d - 1) as nat))
    }
}

/// The root with its ancestors and descendants within the limits.
pub open spec fn lineage(rels: Seq<TreeRelationship>, f: TreeGenerationFilter, root: PersonId) -> Set<PersonId> {
    let up = match f.generations_up {
        Some(d) => reach(rels, true, root, d as nat),
        None => Set::empty(),
    };
    let down = match f.generations_down {
        Some(d) => reach(rels, false, root, d as nat),
        None => Set::empty(),
    };
    set![root] + up + down
}

/// The people of `s` and their partners.
pub open spec fn with_partners(rels: Seq<TreeRelationship>, s: Set<PersonId>) -> Set<PersonId> {
    s + Set::new(|y: PersonId| exists|i: int| #![trigger rels[i]] 0 <= i < rels.len()
        && is_partner_kind(rels[i].kind)
        && ((s.contains(rels[i].source) && y == rels[i].target)
            || (s.contains(rels[i].target) && y == rels[i].source)))
}

/// `y` is a child of a parent of `rels[i].target`, other than that person.
pub open spec fn sibling_by(rels: Seq<TreeRelationship>, i: int, j: int, y: PersonId) -> bool {
    spec_is_parent_child(rels[i].kind) && spec_is_parent_child(rels[j].kind)
        && rels[j].source == rels[i].source && rels[j].target == y && y != rels[i].target
}

/// The people of `s` and their siblings (children of one of their parents).
pub open spec fn with_siblings(rels: Seq<TreeRelationship>, s: Set<PersonId>) -> Set<PersonId> {
    s + Set::new(|y: PersonId| exists|i: int, j: int| #![trigger rels[i], rels[j]]
        0 <= i < rels.len() && 0 <= j < rels.len() && s.contains(rels[i].target) && sibling_by(rels, i, j, y))
}

pub open spec fn person_ids(people: Seq<Person>) -> Set<PersonId> {
    Set::new(|y: PersonId| exists|i: int| #![trigger people[i]] 0 <= i < people.len() && people[i].id == y)
}

/// Everyone a filter keeps of a tree with the given people and relationships.
pub open spec fn kept_people(people: Seq<Person>, rels: Seq<TreeRelationship>, f: TreeGenerationFilter, root: PersonId) -> Set<PersonId> {
    let a = lineage(rels, f, root);
    let b = if f.include_partners { with_partners(rels, a) } else { a };
    let c = if f.include_siblings { with_siblings(rels, b) } else { b };
    if f.include_unconnected { c + person_ids(people) } else { c }
}

// ---------------------------------------------------------------------------
// What stays of the tree.

pub open spec fn person_kept(keep: Set<PersonId>) -> spec_fn(Person) -> bool {
    |p: Person| keep.contains(p.id)
}

pub open spec fn relationship_kept(keep: Set<PersonId>) -> spec_fn(TreeRelationship) -> bool {
    |r: TreeRelationship| keep.contains(r.source) && keep.contains(r.target)
}

pub open spec fn event_kept(keep: Set<PersonId>) -> spec_fn(GenealogyEvent) -> bool {
    |e: GenealogyEvent| touches(e, keep)
}

pub open spec fn id_kept(ids: Set<EventId>) -> spec_fn(EventId) -> bool {
    |e: EventId| ids.contains(e)
}

pub open spec fn keep_people(people: Seq<Person>, keep: Set<PersonId>) -> Seq<Person> {
    people.filter(person_kept(keep))
}

pub open spec fn keep_relationships(rels: Seq<TreeRelationship>, keep: Set<PersonId>) -> Seq<TreeRelationship> {
    rels.filter(relationship_kept(keep))
}

pub open spec fn touches(e: GenealogyEvent, keep: Set<PersonId>) -> bool {
    exists|i: int| 0 <= i < e.participants@.len() && keep.contains(#[trigger] e.participants@[i])
}

pub open spec fn keep_events(events: Seq<GenealogyEvent>, keep: Set<PersonId>) -> Seq<GenealogyEvent> {
    events.filter(event_kept(keep))
}

pub open spec fn event_ids(events: Seq<GenealogyEvent>) -> Set<EventId> {
    Set::new(|x: EventId| exists|i: int| #![trigger events[i]] 0 <= i < events.len() && events[i].id == x)
}

/// `p` is `before` with only the events of `ids` left among its events.
pub open spec fn person_with_events(p: Person, before: Person, ids: Set<EventId>) -> bool {
    &&& p.id == before.id
    &&& p.names == before.names
    &&& p.sex == before.sex
    &&& p.families_as_child == before.families_as_child
    &&& p.families_as_spouse == before.families_as_spouse
    &&& p.notes == before.notes
    &&& p.source_record == before.source_record
    &&& p.provenance == before.provenance
    &&& p.events@ == before.events@.filter(id_kept(ids))
}

// ---------------------------------------------------------------------------
// Sets of people held in a vector.

pub(crate) fn has_id(v: &Vec<PersonId>, x: PersonId) -> (r: bool)
    ensures
        r == v@.contains(x),
{
    let mut i: usize = 0;
    while i < v.len()
        invariant
            i <= v@.len(),
            forall|j: int| 0 <= j < i ==> v@[j] != x,
        decreases v@.len() - i,
    {
        if v[i] == x {
            return true;
        }
        i = i + 1;
    }
    false
}

fn copy_ids(v: &Vec<PersonId>) -> (r: Vec<PersonId>)
    ensures
        r@ == v@,
{
    let mut r: Vec<PersonId> = Vec::new();
    let mut i: usize = 0;
    while i < v.len()
        invariant
            i <= v@.len(),
            r@ == v@.take(i as int),
        decreases v@.len() - i,
    {
        r.push(v[i]);
        assert(r@ =~= v@.take(i + 1));
        i = i + 1;
    }
    assert(v@.take(i as int) =~= v@);
    r
}

/// One step out from `cur`; whether anyone was added.
fn expand_once(rels: &Vec<TreeRelationship>, up: bool, cur: &Vec<PersonId>) -> (r: (Vec<PersonId>, bool))
    ensures
        r.0@.to_set() == expand(rels@, up, cur@.to_set()),
        !r.1 ==> r.0@ == cur@,
{
    let ghost s = cur@.to_set();
    let mut next = copy_ids(cur);
    let mut changed = false;
    let mut i: usize = 0;
    while i < rels.len()
        invariant
            i <= rels@.len(),
            s == cur@.to_set(),
            next@.to_set() == s + Set::new(|y: PersonId| exists|x: PersonId, k: int| #![trigger rels@[k], s.contains(x)]
                0 <= k < i && s.contains(x) && step_by(rels@[k], up, x, y)),
            !changed ==> next@ == cur@,
        decreases rels@.len() - i,
    {
        let ghost before = next@;
        let r = &rels[i];
        let (from, to) = if up { (r.target, r.source) } else { (r.source, r.target) };
        if r.kind.is_parent_child() && has_id(cur, from) && !has_id(&next, to) {
            next.push(to);
            changed = true;
            assert(next@.to_set() =~= before.to_set().insert(to)) by {
                assert forall|y: PersonId| next@.to_set().contains(y) implies before.to_set().insert(to).contains(y) by {
                    let k = choose|k: int| 0 <= k < next@.len() && next@[k] == y;
                    if k < before.len() {
                        assert(before[k] == y);
                    }
                }
                assert forall|y: PersonId| before.to_set().insert(to).contains(y) implies next@.to_set().contains(y) by {
                    if y == to {
                        assert(next@[before.len() as int] == y);
                    } else {
                        let k = choose|k: int| 0 <= k < before.len() && before[k] == y;
                        assert(next@[k] == y);
                    }
                }
            }
        }
        proof {
            let ghost old_set = Set::new(|y: PersonId| exists|x: PersonId, k: int| #![trigger rels@[k], s.contains(x)]
                0 <= k < i && s.contains(x) && step_by(rels@[k], up, x, y));
            let ghost new_set = Set::new(|y: PersonId| exists|x: PersonId, k: int| #![trigger rels@[k], s.contains(x)]
                0 <= k < i + 1 && s.contains(x) && step_by(rels@[k], up, x, y));
            assert forall|y: PersonId| new_set.contains(y) implies (s + old_set).contains(y)
                || (y == to && s.contains(from) && step_by(rels@[i as int], up, from, y)) by {
                let (x, k) = choose|x: PersonId, k: int| 0 <= k < i + 1 && s.contains(x) && step_by(rels@[k], up, x, y);
                if k < i {
                    assert(old_set.contains(y));
                }
            }
            assert forall|y: PersonId| old_set.contains(y) implies new_set.contains(y) by {
                let (x, k) = choose|x: PersonId, k: int| 0 <= k < i && s.contains(x) && step_by(rels@[k], up, x, y);
                assert(s.contains(x) && step_by(rels@[k], up, x, y));
            }
            if spec_is_parent_child(r.kind) && s.contains(from) {
                assert(step_by(rels@[i as int], up, from, to));
                assert(new_set.contains(to));
            }
            assert(next@.to_set() =~= s + new_set);
        }
        i = i + 1;
    }
    proof {
        let ghost got = Set::new(|y: PersonId| exists|x: PersonId, k: int| #![trigger rels@[k], s.contains(x)]
            0 <= k < rels@.len() && s.contains(x) && step_by(rels@[k], up, x, y));
        let ghost want = Set::new(|y: PersonId| exists|x: PersonId| s.contains(x) && #[trigger] step(rels@, up, x, y));
        assert forall|y: PersonId| got.contains(y) implies want.contains(y) by {
            let (x, k) = choose|x: PersonId, k: int| 0 <= k < rels@.len() && s.contains(x) && step_by(rels@[k], up, x, y);
            assert(step(rels@, up, x, y));
        }
        assert forall|y: PersonId| want.contains(y) implies got.contains(y) by {
            let x = choose|x: PersonId| s.contains(x) && step(rels@, up, x, y);
            let k = choose|k: int| 0 <= k < rels@.len() && step_by(rels@[k], up, x, y);
            assert(s.contains(x) && step_by(rels@[k], up, x, y));
        }
        assert(got =~= want);
    }
    (next, changed)
}

/// Once a step adds no one, no later step does.
proof fn lemma_reach_settles(rels: Seq<TreeRelationship>, up: bool, root: PersonId, k: nat, j: nat)
    requires
        k <= j,
        reach(rels, up, root, k + 1) == reach(rels, up, root, k),
    ensures
        reach(rels, up, root, j) == reach(rels, up, root, k),
    decreases j - k,
{
    if j > k {
        lemma_reach_settles(rels, up, root, k, (j - 1) as nat);
    }
}

/// The people at most `d` steps from `root`.
fn reach_within(rels: &Vec<TreeRelationship>, up: bool, root: PersonId, d: u32) -> (r: Vec<PersonId>)
    ensures
        r@.to_set() == reach(rels@, up, root, d as nat),
{
    let mut cur: Vec<PersonId> = Vec::new();
    cur.push(root);
    assert(cur@.to_set() =~= set![root]) by {
        assert(cur@[0] == root);
    }
    let mut k: u32 = 0;
    while k < d
        invariant
            k <= d,
            cur@.to_set() == reach(rels@, up, root, k as nat),
        decreases d - k,
    {
        let (next, changed) = expand_once(rels, up, &cur);
        if !changed {
            proof {
                lemma_reach_settles(rels@, up, root, k as nat, d as nat);
            }
            return next;
        }
        cur = next;
        k = k + 1;
    }
    cur
}

/// Adds `x` to a set held in a vector.
fn add_id(v: &mut Vec<PersonId>, x: PersonId)
    ensures
        final(v)@.to_set() == old(v)@.to_set().insert(x),
{
    let ghost before = v@;
    v.push(x);
    assert forall|y: PersonId| v@.to_set().contains(y) implies before.to_set().insert(x).contains(y) by {
        let k = choose|k: int| 0 <= k < v@.len() && v@[k] == y;
        if k < before.len() {
            assert(before[k] == y);
        }
    }
    assert forall|y: PersonId| before.to_set().insert(x).contains(y) implies v@.to_set().contains(y) by {
        if y == x {
            assert(v@[before.len() as int] == y);
        } else {
            let k = choose|k: int| 0 <= k < before.len() && before[k] == y;
            assert(v@[k] == y);
        }
    }
    assert(v@.to_set() =~= before.to_set().insert(x));
}

/// Adds the people of `w` to a set held in a vector.
fn add_all(v: &mut Vec<PersonId>, w: &Vec<PersonId>)
    ensures
        final(v)@.to_set() == old(v)@.to_set() + w@.to_set(),
{
    let ghost start = v@.to_set();
    let mut i: usize = 0;
    while i < w.len()
        invariant
            i <= w@.len(),
            v@.to_set() == start + w@.take(i as int).to_set(),
        decreases w@.len() - i,
    {
        let ghost t = w@.take(i + 1);
        add_id(v, w[i]);
        assert(t.to_set() =~= w@.take(i as int).to_set().insert(w@[i as int])) by {
            assert forall|y: PersonId| t.to_set().contains(y) implies w@.take(i as int).to_set().insert(w@[i as int]).contains(y) by {
                let k = choose|k: int| 0 <= k < t.len() && t[k] == y;
                if k < i {
                    assert(w@.take(i as int)[k] == y);
                }
            }
            assert forall|y: PersonId| w@.take(i as int).to_set().insert(w@[i as int]).contains(y) implies t.to_set().contains(y) by {
                if y == w@[i as int] {
                    assert(t[i as int] == y);
                } else {
                    let k = choose|k: int| 0 <= k < i && w@.take(i as int)[k] == y;
                    assert(t[k] == y);
                }
            }
        }
        assert(v@.to_set() =~= start + t.to_set());
        i = i + 1;
    }
    assert(w@.take(i as int) =~= w@);
}

/// Everyone the filter keeps.
fn keep_set(tree: &TreeDocument, f: &TreeGenerationFilter, root: PersonId) -> (r: Vec<PersonId>)
    ensures
        r@.to_set() == kept_people(tree.people@, tree.relationships@, *f, root),
{
    let rels = &tree.relationships;
    let mut keep: Vec<PersonId> = Vec::new();
    keep.push(root);
    assert(keep@.to_set() =~= set![root]) by {
        assert(keep@[0] == root);
    }
    let ghost up = match f.generations_up {
        Some(d) => reach(rels@, true, root, d as nat),
        None => Set::empty(),
    };
    let ghost down = match f.generations_down {
        Some(d) => reach(rels@, false, root, d as nat),
        None => Set::empty(),
    };
    match f.generations_up {
        Some(d) => {
            let a = reach_within(rels, true, root, d);
            add_all(&mut keep, &a);
        },
        None => {
            assert(keep@.to_set() =~= set![root] + up);
        },
    }
    let ghost mid = keep@.to_set();
    match f.generations_down {
        Some(d) => {
            let b = reach_within(rels, false, root, d);
            add_all(&mut keep, &b);
        },
        None => {
            assert(keep@.to_set() =~= mid + down);
        },
    }
    assert(keep@.to_set() =~= lineage(rels@, *f, root));
    if f.include_partners {
        let snapshot = copy_ids(&keep);
        let ghost s = snapshot@.to_set();
        let mut i: usize = 0;
        while i < rels.len()
            invariant
                i <= rels@.len(),
                s == snapshot@.to_set(),
                keep@.to_set() == s + Set::new(|y: PersonId| exists|k: int| #![trigger rels@[k]] 0 <= k < i
                    && is_partner_kind(rels@[k].kind)
                    && ((s.contains(rels@[k].source) && y == rels@[k].target)
                        || (s.contains(rels@[k].target) && y == rels@[k].source))),
            decreases rels@.len() - i,
        {
            let ghost before = keep@.to_set();
            let r = &rels[i];
            let partner = match r.kind {
                RelationshipKind::Spouse | RelationshipKind::Partner | RelationshipKind::FormerSpouse => true,
                _ => false,
            };
            if partner {
                if has_id(&snapshot, r.source) {
                    add_id(&mut keep, r.target);
                }
                if has_id(&snapshot, r.target) {
                    add_id(&mut keep, r.source);
                }
            }
            proof {
                let ghost a = Set::new(|y: PersonId| exists|k: int| #![trigger rels@[k]] 0 <= k < i
                    && is_partner_kind(rels@[k].kind)
                    && ((s.contains(rels@[k].source) && y == rels@[k].target)
                        || (s.contains(rels@[k].target) && y == rels@[k].source)));
                let ghost b = Set::new(|y: PersonId| exists|k: int| #![trigger rels@[k]] 0 <= k < i + 1
                    && is_partner_kind(rels@[k].kind)
                    && ((s.contains(rels@[k].source) && y == rels@[k].target)
                        || (s.contains(rels@[k].target) && y == rels@[k].source)));
                assert forall|y: PersonId| b.contains(y) implies keep@.to_set().contains(y) by {
                    let k = choose|k: int| 0 <= k < i + 1
                        && is_partner_kind(rels@[k].kind)
                        && ((s.contains(rels@[k].source) && y == rels@[k].target)
                            || (s.contains(rels@[k].target) && y == rels@[k].source));
                    if k < i {
                        assert(a.contains(y));
                    }
                }
                assert forall|y: PersonId| a.contains(y) implies b.contains(y) by {
                    let k = choose|k: int| 0 <= k < i
                        && is_partner_kind(rels@[k].kind)
                        && ((s.contains(rels@[k].source) && y == rels@[k].target)
                            || (s.contains(rels@[k].target) && y == rels@[k].source));
                    assert(0 <= k < i + 1);
                }
                assert forall|y: PersonId| keep@.to_set().contains(y) implies (s + b).contains(y) by {
                    if !before.contains(y) {
                        assert(rels@[i as int] == *r);
                    }
                }
                assert(keep@.to_set() =~= s + b);
            }
            i = i + 1;
        }
        assert(keep@.to_set() =~= with_partners(rels@, s));
    }
    if f.include_siblings {
        let snapshot = copy_ids(&keep);
        let ghost s = snapshot@.to_set();
        let mut i: usize = 0;
        while i < rels.len()
            invariant
                i <= rels@.len(),
                s == snapshot@.to_set(),
                keep@.to_set() == s + Set::new(|y: PersonId| exists|a: int, b: int| #![trigger rels@[a], rels@[b]]
                    0 <= a < i && 0 <= b < rels@.len() && s.contains(rels@[a].target) && sibling_by(rels@, a, b, y)),
            decreases rels@.len() - i,
        {
            let ghost before = keep@.to_set();
            let ri = &rels[i];
            if ri.kind.is_parent_child() && has_id(&snapshot, ri.target) {
                let mut j: usize = 0;
                while j < rels.len()
                    invariant
                        i < rels@.len(),
                        j <= rels@.len(),
                        s == snapshot@.to_set(),
                        *ri == rels@[i as int],
                        spec_is_parent_child(ri.kind),
                        s.contains(ri.target),
                        keep@.to_set() == before + Set::new(|y: PersonId| exists|b: int| #![trigger rels@[b]]
                            0 <= b < j && sibling_by(rels@, i as int, b, y)),
                    decreases rels@.len() - j,
                {
                    let ghost inner = keep@.to_set();
                    let rj = &rels[j];
                    if rj.kind.is_parent_child() && rj.source == ri.source && rj.target != ri.target {
                        add_id(&mut keep, rj.target);
                    }
                    proof {
                        let ghost a = Set::new(|y: PersonId| exists|b: int| #![trigger rels@[b]]
                            0 <= b < j && sibling_by(rels@, i as int, b, y));
                        let ghost c = Set::new(|y: PersonId| exists|b: int| #![trigger rels@[b]]
                            0 <= b < j + 1 && sibling_by(rels@, i as int, b, y));
                        assert forall|y: PersonId| c.contains(y) implies keep@.to_set().contains(y) by {
                            let b = choose|b: int| 0 <= b < j + 1 && sibling_by(rels@, i as int, b, y);
                            if b < j {
                                assert(a.contains(y));
                            }
                        }
                        assert forall|y: PersonId| a.contains(y) implies c.contains(y) by {
                            let b = choose|b: int| 0 <= b < j && sibling_by(rels@, i as int, b, y);
                            assert(0 <= b < j + 1);
                        }
                        assert forall|y: PersonId| keep@.to_set().contains(y) implies (before + c).contains(y) by {
                            if !inner.contains(y) {
                                assert(rels@[j as int] == *rj);
                                assert(sibling_by(rels@, i as int, j as int, y));
                            }
                        }
                        assert(keep@.to_set() =~= before + c);
                    }
                    j = j + 1;
                }
            }
            proof {
                let ghost a = Set::new(|y: PersonId| exists|a: int, b: int| #![trigger rels@[a], rels@[b]]
                    0 <= a < i && 0 <= b < rels@.len() && s.contains(rels@[a].target) && sibling_by(rels@, a, b, y));
                let ghost c = Set::new(|y: PersonId| exists|a: int, b: int| #![trigger rels@[a], rels@[b]]
                    0 <= a < i + 1 && 0 <= b < rels@.len() && s.contains(rels@[a].target) && sibling_by(rels@, a, b, y));
                let ghost own = Set::new(|y: PersonId| exists|b: int| #![trigger rels@[b]]
                    0 <= b < rels@.len() && sibling_by(rels@, i as int, b, y));
                assert(rels@[i as int] == *ri);
                assert forall|y: PersonId| c.contains(y) implies a.contains(y) || (spec_is_parent_child(ri.kind) && s.contains(ri.target) && own.contains(y)) by {
                    let (x, b) = choose|x: int, b: int| 0 <= x < i + 1 && 0 <= b < rels@.len() && s.contains(rels@[x].target) && sibling_by(rels@, x, b, y);
                    if x < i {
                        assert(a.contains(y));
                    } else {
                        assert(own.contains(y));
                    }
                }
                assert forall|y: PersonId| a.contains(y) implies c.contains(y) by {
                    let (x, b) = choose|x: int, b: int| 0 <= x < i && 0 <= b < rels@.len() && s.contains(rels@[x].target) && sibling_by(rels@, x, b, y);
                    assert(0 <= x < i + 1);
                }
                if spec_is_parent_child(ri.kind) && s.contains(ri.target) {
                    assert forall|y: PersonId| own.contains(y) implies c.contains(y) by {
                        let b = choose|b: int| 0 <= b < rels@.len() && sibling_by(rels@, i as int, b, y);
                        assert(0 <= i < i + 1 && s.contains(rels@[i as int].target) && sibling_by(rels@, i as int, b, y));
                    }
                    assert(keep@.to_set() =~= s + c);
                } else {
                    assert forall|y: PersonId| c.contains(y) implies a.contains(y) by {
                        let (x, b) = choose|x: int, b: int| 0 <= x < i + 1 && 0 <= b < rels@.len() && s.contains(rels@[x].target) && sibling_by(rels@, x, b, y);
                        if x == i {
                            assert(sibling_by(rels@, i as int, b, y));
                        }
                    }
                    assert(keep@.to_set() =~= s + c);
                }
            }
            i = i + 1;
        }
        assert(keep@.to_set() =~= with_siblings(rels@, s));
    }
    if f.include_unconnected {
        let ghost c_set = keep@.to_set();
        let mut i: usize = 0;
        while i < tree.people.len()
            invariant
                i <= tree.people@.len(),
                keep@.to_set() == c_set + Set::new(|y: PersonId| exists|k: int| #![trigger tree.people@[k]] 0 <= k < i && tree.people@[k].id == y),
            decreases tree.people@.len() - i,
        {
            add_id(&mut keep, tree.people[i].id);
            assert(keep@.to_set() =~= c_set + Set::new(|y: PersonId| exists|k: int| #![trigger tree.people@[k]] 0 <= k < i + 1 && tree.people@[k].id == y)) by {
                assert(tree.people@[i as int].id == tree.people[i as int].id);
            }
            i = i + 1;
        }
        assert(keep@.to_set() =~= c_set + person_ids(tree.people@));
    }
    keep
}

/// Keeps the items whose flag is set, in order.
fn retain_flagged<T>(v: &mut Vec<T>, flags: &Vec<bool>, Ghost(p): Ghost<spec_fn(T) -> bool>)
    requires
        flags@.len() == old(v)@.len(),
        forall|k: int| 0 <= k < flags@.len() ==> #[trigger] flags@[k] == p(old(v)@[k]),
    ensures
        final(v)@ == old(v)@.filter(p),
{
    let ghost orig = v@;
    let n = flags.len();
    let mut i: usize = 0;
    let mut k: usize = 0;
    assert(orig.take(0) =~= seq![]);
    assert(orig.skip(0) =~= orig);
    proof {
        reveal(Seq::filter);
        assert(orig.take(0).filter(p) =~= seq![]);
    }
    while k < n
        invariant
            n == orig.len(),
            flags@.len() == n,
            forall|m: int| 0 <= m < n ==> #[trigger] flags@[m] == p(orig[m]),
            k <= n,
            i == orig.take(k as int).filter(p).len(),
            v@ == orig.take(k as int).filter(p) + orig.skip(k as int),
        decreases n - k,
    {
        let ghost kept = orig.take(k as int).filter(p);
        proof {
            reveal(Seq::filter);
            assert(orig.take(k + 1).drop_last() =~= orig.take(k as int));
            assert(orig.take(k + 1).last() == orig[k as int]);
        }
        assert(v@.len() == i + orig.skip(k as int).len());
        assert(v@[i as int] == orig[k as int]);
        if flags[k] {
            assert(v@ =~= kept.push(orig[k as int]) + orig.skip(k + 1));
            i = i + 1;
        } else {
            v.remove(i);
            assert(v@ =~= kept + orig.skip(k + 1));
        }
        k = k + 1;
    }
    assert(orig.take(n as int) =~= orig);
    assert(orig.skip(n as int) =~= seq![]);
    assert(v@ =~= orig.filter(p));
}

fn touches_any(e: &GenealogyEvent, keep: &Vec<PersonId>) -> (r: bool)
    ensures
        r == touches(*e, keep@.to_set()),
{
    let mut i: usize = 0;
    while i < e.participants.len()
        invariant
            i <= e.participants@.len(),
            forall|j: int| 0 <= j < i ==> !keep@.to_set().contains(#[trigger] e.participants@[j]),
        decreases e.participants@.len() - i,
    {
        if has_id(keep, e.participants[i]) {
            assert(keep@.to_set().contains(e.participants@[i as int]));
            return true;
        }
        i = i + 1;
    }
    false
}

fn has_event_id(v: &Vec<EventId>, x: EventId) -> (r: bool)
    ensures
        r == v@.contains(x),
{
    let mut i: usize = 0;
    while i < v.len()
        invariant
            i <= v@.len(),
            forall|j: int| 0 <= j < i ==> v@[j] != x,
        decreases v@.len() - i,
    {
        if v[i] == x {
            return true;
        }
        i = i + 1;
    }
    false
}

/// The ids of the events.
fn ids_of_events(events: &Vec<GenealogyEvent>) -> (r: Vec<EventId>)
    ensures
        r@.to_set() == event_ids(events@),
{
    let mut r: Vec<EventId> = Vec::new();
    let mut i: usize = 0;
    while i < events.len()
        invariant
            i <= events@.len(),
            r@.len() == i,
            forall|j: int| 0 <= j < i ==> #[trigger] r@[j] == events@[j].id,
        decreases events@.len() - i,
    {
        r.push(events[i].id);
        i = i + 1;
    }
    assert forall|x: EventId| r@.to_set().contains(x) implies event_ids(events@).contains(x) by {
        let k = choose|k: int| 0 <= k < r@.len() && r@[k] == x;
        assert(events@[k].id == x);
    }
    assert forall|x: EventId| event_ids(events@).contains(x) implies r@.to_set().contains(x) by {
        let k = choose|k: int| 0 <= k < events@.len() && events@[k].id == x;
        assert(r@[k] == x);
    }
    assert(r@.to_set() =~= event_ids(events@));
    r
}

/// Leaves among the events of each person only those of `ids`.
fn keep_person_events(people: &mut Vec<Person>, ids: &Vec<EventId>)
    ensures
        final(people)@.len() == old(people)@.len(),
        forall|i: int| 0 <= i < old(people)@.len()
            ==> person_with_events(#[trigger] final(people)@[i], old(people)@[i], ids@.to_set()),
{
    let ghost orig = people@;
    let n = people.len();
    let mut j: usize = 0;
    while j < n
        invariant
            n == orig.len(),
            j <= n,
            people@.len() == n,
            forall|m: int| 0 <= m < j ==> person_with_events(#[trigger] people@[m], orig[m], ids@.to_set()),
            forall|m: int| j <= m < n ==> #[trigger] people@[m] == orig[m],
        decreases n - j,
    {
        let mut p = people.remove(j);
        let mut flags: Vec<bool> = Vec::new();
        let mut k: usize = 0;
        while k < p.events.len()
            invariant
                k <= p.events@.len(),
                flags@.len() == k,
                forall|m: int| 0 <= m < k ==> #[trigger] flags@[m] == id_kept(ids@.to_set())(p.events@[m]),
            decreases p.events@.len() - k,
        {
            flags.push(has_event_id(ids, p.events[k]));
            k = k + 1;
        }
        retain_flagged(&mut p.events, &flags, Ghost(id_kept(ids@.to_set())));
        people.insert(j, p);
        j = j + 1;
    }
}

/// Narrows the tree to the people the filter keeps around `root`: their
/// relationships among themselves, the events with one of them among the
/// participants, and, on each person, only the events that stay. A filter
/// that limits neither ancestors nor descendants leaves the tree as it is.
pub fn apply_tree_generation_filter(tree: &mut TreeDocument, filter: &TreeGenerationFilter, root: PersonId)
    ensures
        filter.generations_up is None && filter.generations_down is None ==> *final(tree) == *old(tree),
        filter.generations_up is Some || filter.generations_down is Some ==> {
            let keep = kept_people(old(tree).people@, old(tree).relationships@, *filter, root);
            let people = keep_people(old(tree).people@, keep);
            &&& final(tree).relationships@ == keep_relationships(old(tree).relationships@, keep)
            &&& final(tree).events@ == keep_events(old(tree).events@, keep)
            &&& final(tree).people@.len() == people.len()
            &&& forall|i: int| 0 <= i < people.len()
                ==> person_with_events(#[trigger] final(tree).people@[i], people[i], event_ids(final(tree).events@))
        },
        final(tree).metadata == old(tree).metadata,
        final(tree).main_person == old(tree).main_person,
        final(tree).categories == old(tree).categories,
        final(tree).attachments == old(tree).attachments,
{
    if filter.generations_up.is_none() && filter.generations_down.is_none() {
        return;
    }
    let keep = keep_set(tree, filter, root);
    let ghost k = keep@.to_set();

    let mut flags: Vec<bool> = Vec::new();
    let mut i: usize = 0;
    while i < tree.people.len()
        invariant
            i <= tree.people@.len(),
            flags@.len() == i,
            k == keep@.to_set(),
            forall|m: int| 0 <= m < i ==> #[trigger] flags@[m] == person_kept(k)(tree.people@[m]),
        decreases tree.people@.len() - i,
    {
        flags.push(has_id(&keep, tree.people[i].id));
        i = i + 1;
    }
    retain_flagged(&mut tree.people, &flags, Ghost(person_kept(k)));

    let mut flags: Vec<bool> = Vec::new();
    let mut i: usize = 0;
    while i < tree.relationships.len()
        invariant
            i <= tree.relationships@.len(),
            flags@.len() == i,
            k == keep@.to_set(),
            forall|m: int| 0 <= m < i ==> #[trigger] flags@[m] == relationship_kept(k)(tree.relationships@[m]),
        decreases tree.relationships@.len() - i,
    {
        let r = &tree.relationships[i];
        flags.push(has_id(&keep, r.source) && has_id(&keep, r.target));
        i = i + 1;
    }
    retain_flagged(&mut tree.relationships, &flags, Ghost(relationship_kept(k)));

    let mut flags: Vec<bool> = Vec::new();
    let mut i: usize = 0;
    while i < tree.events.len()
        invariant
            i <= tree.events@.len(),
            flags@.len() == i,
            k == keep@.to_set(),
            forall|m: int| 0 <= m < i ==> #[trigger] flags@[m] == event_kept(k)(tree.events@[m]),
        decreases tree.events@.len() - i,
    {
        flags.push(touches_any(&tree.events[i], &keep));
        i = i + 1;
    }
    retain_flagged(&mut tree.events, &flags, Ghost(event_kept(k)));

    let ids = ids_of_events(&tree.events);
    keep_person_events(&mut tree.people, &ids);
}

/// Law: whatever the filter, the root person is among those kept.
pub proof fn law_filter_keeps_root(people: Seq<Person>, rels: Seq<TreeRelationship>, f: TreeGenerationFilter, root: PersonId)
    ensures
        kept_people(people, rels, f, root).contains(root),
{
}

/// Law: with one generation each way, the kept people include every
/// parent and every child of the root.
pub proof fn law_one_generation_keeps_parents_and_children(
    people: Seq<Person>,
    rels: Seq<TreeRelationship>,
    f: TreeGenerationFilter,
    root: PersonId,
    i: int,
)
    requires
        f.generations_up == Some(1u32),
        f.generations_down == Some(1u32),
        0 <= i < rels.len(),
        spec_is_parent_child(rels[i].kind),
        rels[i].source == root || rels[i].target == root,
    ensures
        kept_people(people, rels, f, root).contains(rels[i].source),
        kept_people(people, rels, f, root).contains(rels[i].target),
{
    let r = rels[i];
    assert(reach(rels, true, root, 0) == set![root]);
    assert(reach(rels, false, root, 0) == set![root]);
    if r.target == root {
        assert(step_by(r, true, root, r.source));
        assert(step(rels, true, root, r.source));
        assert(reach(rels, true, root, 1).contains(r.source));
    }
    if r.source == root {
        assert(step_by(r, false, root, r.target));
        assert(step(rels, false, root, r.target));
        assert(reach(rels, false, root, 1).contains(r.target));
    }
}

} // verus!
