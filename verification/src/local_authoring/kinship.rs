//! Kinship that follows from the parent/child relationships of a world:
//! siblings, grandparents, ancestors, aunts and uncles, and cousins.
use vstd::prelude::*;
use crate::local_authoring::data::{str_field, JsonValue, LocalDataBundle, LocalTomlDocument};
use crate::local_authoring::summary::opt_string;
use crate::sorted_text::{
    insert_sorted, lemma_sorted_texts, lemma_sorted_texts_exist, lemma_text_lt_total,
    lemma_text_lt_transitive, sorted_texts, str_lt, strictly_sorted, text_lt, texts,
};
use crate::text::str_eq;
use crate::tree::{kind_named_by, spec_is_parent_child, RelationshipKind};
use crate::local_authoring::timeline_compile::{insert_sorted_by, lemma_insert_at};

verus! {

/// A relationship that follows from others.
#[derive(Debug, PartialEq, Eq)]
pub struct LocalDerivedKinshipRelationship {
    pub relationship_kind: String,
    pub source: String,
    pub target: String,
    pub depth: u32,
    /// The relationship ids it follows from, sorted, each once.
    pub inferred_from: Vec<String>,
}

pub struct DerivedView {
    pub kind: Seq<char>,
    pub source: Seq<char>,
    pub target: Seq<char>,
    pub depth: nat,
    pub ids: Seq<Seq<char>>,
}

impl View for LocalDerivedKinshipRelationship {
    type V = DerivedView;

    open spec fn view(&self) -> DerivedView {
        DerivedView {
            kind: self.relationship_kind@,
            source: self.source@,
            target: self.target@,
            depth: self.depth as nat,
            ids: texts(self.inferred_from@),
        }
    }
}

pub open spec fn derived_views(v: Seq<LocalDerivedKinshipRelationship>) -> Seq<DerivedView> {
    v.map_values(|d: LocalDerivedKinshipRelationship| d@)
}

/// One reason for a derived relationship.
pub struct Contribution {
    pub kind: Seq<char>,
    pub source: Seq<char>,
    pub target: Seq<char>,
    pub depth: nat,
    pub ids: Seq<Seq<char>>,
}

/// A reason for a derived relationship, as the code holds it.
pub struct KinshipReason {
    pub kind: String,
    pub source: String,
    pub target: String,
    pub depth: u32,
    pub ids: Vec<String>,
}

impl View for KinshipReason {
    type V = Contribution;

    open spec fn view(&self) -> Contribution {
        Contribution { kind: self.kind@, source: self.source@, target: self.target@, depth: self.depth as nat, ids: texts(self.ids@) }
    }
}

pub open spec fn reason_views(v: Seq<KinshipReason>) -> Seq<Contribution> {
    v.map_values(|c: KinshipReason| c@)
}

// ---------------------------------------------------------------------------
// The derived relationships, kept sorted by kind, source and target.

/// `(k1, s1, t1)` sorts before `(k2, s2, t2)`.
pub open spec fn key_lt(k1: Seq<char>, s1: Seq<char>, t1: Seq<char>, k2: Seq<char>, s2: Seq<char>, t2: Seq<char>) -> bool {
    text_lt(k1, k2) || (k1 == k2 && (text_lt(s1, s2) || (s1 == s2 && text_lt(t1, t2))))
}

/// The place of the key of `c` among `m`: the first entry whose key does not sort before it.
pub open spec fn find_pos(m: Seq<DerivedView>, c: Contribution) -> int
    decreases m.len(),
{
    if m.len() == 0 {
        0
    } else if key_lt(m[0].kind, m[0].source, m[0].target, c.kind, c.source, c.target) {
        1 + find_pos(m.drop_first(), c)
    } else {
        0
    }
}

pub proof fn lemma_find_pos(m: Seq<DerivedView>, c: Contribution)
    ensures
        0 <= find_pos(m, c) <= m.len(),
        forall|j: int| 0 <= j < find_pos(m, c)
            ==> key_lt((#[trigger] m[j]).kind, m[j].source, m[j].target, c.kind, c.source, c.target),
        find_pos(m, c) < m.len() ==> !key_lt(m[find_pos(m, c)].kind, m[find_pos(m, c)].source, m[find_pos(m, c)].target, c.kind, c.source, c.target),
    decreases m.len(),
{
    if m.len() > 0 && key_lt(m[0].kind, m[0].source, m[0].target, c.kind, c.source, c.target) {
        let t = m.drop_first();
        lemma_find_pos(t, c);
        assert forall|j: int| 0 <= j < find_pos(m, c)
            implies key_lt((#[trigger] m[j]).kind, m[j].source, m[j].target, c.kind, c.source, c.target) by {
            if j > 0 {
                assert(m[j] == t[j - 1]);
            }
        }
        if find_pos(t, c) < t.len() {
            assert(m[find_pos(m, c)] == t[find_pos(t, c)]);
        }
    }
}

/// The ids of two lists, sorted, each once.
pub open spec fn merged_ids(a: Seq<Seq<char>>, b: Seq<Seq<char>>) -> Seq<Seq<char>> {
    sorted_texts(a.to_set() + b.to_set())
}

/// One more reason: a relationship of a person to themself is dropped; a
/// known relationship keeps the smaller depth and all the ids; a new one
/// takes its place in key order.
pub open spec fn insert_derived(m: Seq<DerivedView>, c: Contribution) -> Seq<DerivedView> {
    if c.source == c.target {
        m
    } else {
        let p = find_pos(m, c);
        if p < m.len() && m[p].kind == c.kind && m[p].source == c.source && m[p].target == c.target {
            m.update(p, DerivedView {
                depth: if c.depth < m[p].depth { c.depth } else { m[p].depth },
                ids: merged_ids(m[p].ids, c.ids),
                ..m[p]
            })
        } else {
            m.insert(p, DerivedView { kind: c.kind, source: c.source, target: c.target, depth: c.depth, ids: merged_ids(seq![], c.ids) })
        }
    }
}

/// Every derived relationship lists the ids of its reasons sorted, each once.
pub open spec fn ids_sorted(m: Seq<DerivedView>) -> bool {
    forall|i: int| 0 <= i < m.len() ==> strictly_sorted(#[trigger] m[i].ids)
}

/// Adding a reason keeps the ids of every derived relationship sorted, each
/// once: a known relationship merges its ids with the reason's, a new one
/// takes the reason's ids sorted, and the others are unchanged.
pub proof fn law_insert_derived_keeps_ids_sorted(m: Seq<DerivedView>, c: Contribution)
    requires
        ids_sorted(m),
    ensures
        ids_sorted(insert_derived(m, c)),
{
    if c.source != c.target {
        let p = find_pos(m, c);
        lemma_find_pos(m, c);
        let r = insert_derived(m, c);
        vstd::seq_lib::seq_to_set_is_finite(c.ids);
        if p < m.len() && m[p].kind == c.kind && m[p].source == c.source && m[p].target == c.target {
            vstd::seq_lib::seq_to_set_is_finite(m[p].ids);
            lemma_sorted_texts_exist(m[p].ids.to_set() + c.ids.to_set());
            assert forall|i: int| 0 <= i < r.len() implies strictly_sorted(#[trigger] r[i].ids) by {
                if i != p {
                    assert(r[i] == m[i]);
                }
            }
        } else {
            let empty: Seq<Seq<char>> = seq![];
            vstd::seq_lib::seq_to_set_is_finite(empty);
            lemma_sorted_texts_exist(empty.to_set() + c.ids.to_set());
            assert forall|i: int| 0 <= i < r.len() implies strictly_sorted(#[trigger] r[i].ids) by {
                if i < p {
                    assert(r[i] == m[i]);
                } else if i > p {
                    assert(r[i] == m[i - 1]);
                }
            }
        }
    }
}

/// The derived relationships of a list of reasons, taken in order.
pub open spec fn fold_derived(m: Seq<DerivedView>, cs: Seq<Contribution>) -> Seq<DerivedView>
    decreases cs.len(),
{
    if cs.len() == 0 {
        m
    } else {
        insert_derived(fold_derived(m, cs.drop_last()), cs.last())
    }
}

fn key_less(d: &LocalDerivedKinshipRelationship, c: &KinshipReason) -> (r: bool)
    ensures
        r == key_lt(d@.kind, d@.source, d@.target, c@.kind, c@.source, c@.target),
{
    let k1 = d.relationship_kind.as_str();
    let k2 = c.kind.as_str();
    if str_lt(k1, k2) {
        return true;
    }
    if !str_eq(k1, k2) {
        return false;
    }
    let s1 = d.source.as_str();
    let s2 = c.source.as_str();
    str_lt(s1, s2) || (str_eq(s1, s2) && str_lt(d.target.as_str(), c.target.as_str()))
}

/// The first `i + 1` texts hold one more than the first `i`.
proof fn lemma_take_one_more(s: Seq<Seq<char>>, i: int)
    requires
        0 <= i < s.len(),
    ensures
        s.take(i + 1).to_set() == s.take(i).to_set().insert(s[i]),
{
    let a = s.take(i + 1);
    let b = s.take(i);
    assert forall|x: Seq<char>| a.to_set().contains(x) implies b.to_set().insert(s[i]).contains(x) by {
        let k = choose|k: int| 0 <= k < a.len() && a[k] == x;
        if k < i {
            assert(b[k] == x);
        }
    }
    assert forall|x: Seq<char>| b.to_set().insert(s[i]).contains(x) implies a.to_set().contains(x) by {
        if x == s[i] {
            assert(a[i] == x);
        } else {
            let k = choose|k: int| 0 <= k < b.len() && b[k] == x;
            assert(a[k] == x);
        }
    }
    assert(a.to_set() =~= b.to_set().insert(s[i]));
}

/// Adds the ids to a sorted list of ids.
fn add_ids(v: &mut Vec<String>, ids: &Vec<String>)
    requires
        strictly_sorted(texts(old(v)@)),
    ensures
        strictly_sorted(texts(final(v)@)),
        texts(final(v)@) == merged_ids(texts(old(v)@), texts(ids@)),
{
    let ghost start = texts(v@).to_set();
    let mut i: usize = 0;
    while i < ids.len()
        invariant
            i <= ids@.len(),
            strictly_sorted(texts(v@)),
            texts(v@).to_set() == start + texts(ids@).take(i as int).to_set(),
        decreases ids@.len() - i,
    {
        insert_sorted(v, ids[i].clone());
        assert(texts(ids@).take(i + 1) =~= texts(ids@).take(i as int).push(ids@[i as int]@));
        proof {
            lemma_take_one_more(texts(ids@), i as int);
        }
        assert(texts(v@).to_set() =~= start + texts(ids@).take(i + 1).to_set());
        i = i + 1;
    }
    assert(texts(ids@).take(i as int) =~= texts(ids@));
    proof {
        lemma_sorted_texts(texts(v@));
    }
}

fn copy_texts(v: &Vec<String>) -> (r: Vec<String>)
    ensures
        r@ == v@,
{
    let mut r: Vec<String> = Vec::new();
    let mut i: usize = 0;
    while i < v.len()
        invariant
            i <= v@.len(),
            r@ == v@.take(i as int),
        decreases v@.len() - i,
    {
        r.push(v[i].clone());
        assert(r@ =~= v@.take(i + 1));
        i = i + 1;
    }
    assert(v@.take(i as int) =~= v@);
    r
}

/// Adds one reason to the derived relationships.
fn add_derived(m: &mut Vec<LocalDerivedKinshipRelationship>, c: &KinshipReason)
    requires
        forall|i: int| 0 <= i < old(m)@.len() ==> strictly_sorted(#[trigger] old(m)@[i]@.ids),
    ensures
        derived_views(final(m)@) == insert_derived(derived_views(old(m)@), c@),
        forall|i: int| 0 <= i < final(m)@.len() ==> strictly_sorted(#[trigger] final(m)@[i]@.ids),
{
    let ghost mv = derived_views(m@);
    if str_eq(c.source.as_str(), c.target.as_str()) {
        return;
    }
    proof {
        lemma_find_pos(mv, c@);
    }
    let mut p: usize = 0;
    while p < m.len() && key_less(&m[p], c)
        invariant
            p <= m@.len(),
            mv == derived_views(m@),
            forall|j: int| 0 <= j < p ==> key_lt((#[trigger] mv[j]).kind, mv[j].source, mv[j].target, c@.kind, c@.source, c@.target),
        decreases m@.len() - p,
    {
        p = p + 1;
    }
    proof {
        let fp = find_pos(mv, c@);
        if fp < p {
            assert(key_lt(mv[fp].kind, mv[fp].source, mv[fp].target, c@.kind, c@.source, c@.target));
        }
        if p < fp {
            assert(key_lt(mv[p as int].kind, mv[p as int].source, mv[p as int].target, c@.kind, c@.source, c@.target));
        }
        assert(fp == p);
    }
    let same = p < m.len() && str_eq(m[p].relationship_kind.as_str(), c.kind.as_str())
        && str_eq(m[p].source.as_str(), c.source.as_str()) && str_eq(m[p].target.as_str(), c.target.as_str());
    if same {
        assert(strictly_sorted(m@[p as int]@.ids));
        let mut d = m.remove(p);
        let ghost dv = d@;
        if c.depth < d.depth {
            d.depth = c.depth;
        }
        add_ids(&mut d.inferred_from, &c.ids);
        m.insert(p, d);
        proof {
            assert(derived_views(m@) =~= mv.update(p as int, d@));
        }
    } else {
        let mut ids: Vec<String> = Vec::new();
        let ghost empty = texts(ids@);
        assert(empty =~= seq![]);
        assert(strictly_sorted(texts(ids@))) by {
            assert(texts(ids@) =~= seq![]);
        }
        add_ids(&mut ids, &c.ids);
        let d = LocalDerivedKinshipRelationship {
            relationship_kind: c.kind.clone(),
            source: c.source.clone(),
            target: c.target.clone(),
            depth: c.depth,
            inferred_from: ids,
        };
        m.insert(p, d);
        proof {
            assert(texts(ids@) == merged_ids(empty, c@.ids));
            assert(texts(ids@) == merged_ids(seq![], c@.ids));
            assert(derived_views(m@) =~= mv.insert(p as int, d@));
        }
    }
}

/// The derived relationships of a list of reasons.
fn fold_reasons(cs: &Vec<KinshipReason>) -> (m: Vec<LocalDerivedKinshipRelationship>)
    ensures
        derived_views(m@) == fold_derived(seq![], reason_views(cs@)),
{
    let mut m: Vec<LocalDerivedKinshipRelationship> = Vec::new();
    let mut i: usize = 0;
    assert(derived_views(m@) =~= seq![]);
    assert(reason_views(cs@).take(0) =~= seq![]);
    while i < cs.len()
        invariant
            i <= cs@.len(),
            derived_views(m@) == fold_derived(seq![], reason_views(cs@).take(i as int)),
            forall|j: int| 0 <= j < m@.len() ==> strictly_sorted(#[trigger] m@[j]@.ids),
        decreases cs@.len() - i,
    {
        add_derived(&mut m, &cs[i]);
        assert(reason_views(cs@).take(i + 1).drop_last() =~= reason_views(cs@).take(i as int));
        i = i + 1;
    }
    assert(reason_views(cs@).take(i as int) =~= reason_views(cs@));
    m
}

// ---------------------------------------------------------------------------
// Direct relationships and parent/child edges.

/// A relationship record, as the inference reads it.
pub struct DirectView {
    pub id: Seq<char>,
    pub kind: Seq<char>,
    pub source: Seq<char>,
    pub target: Seq<char>,
}

/// The kind text of a relationship record: `relationship`, else
/// `relationship_kind`, else `relation`, else `associate`.
pub open spec fn kind_text(v: JsonValue) -> Seq<char> {
    match str_field(v, "relationship"@) {
        Some(k) => k,
        None => match str_field(v, "relationship_kind"@) {
            Some(k) => k,
            None => match str_field(v, "relation"@) {
                Some(k) => k,
                None => "associate"@,
            },
        },
    }
}

/// A relationship document with a source and a target.
pub open spec fn direct_of(d: LocalTomlDocument) -> Option<DirectView> {
    if opt_string(d.kind) != Some("relationship"@) {
        None
    } else {
        match (str_field(d.data, "source"@), str_field(d.data, "target"@)) {
            (Some(s), Some(t)) => Some(
                DirectView {
                    id: match opt_string(d.id) {
                        Some(i) => i,
                        None => d.path@,
                    },
                    kind: kind_text(d.data),
                    source: s,
                    target: t,
                },
            ),
            _ => None,
        }
    }
}

pub open spec fn directs(ds: Seq<LocalTomlDocument>) -> Seq<DirectView>
    decreases ds.len(),
{
    if ds.len() == 0 {
        seq![]
    } else {
        directs(ds.drop_last()) + match direct_of(ds.last()) {
            Some(d) => seq![d],
            None => seq![],
        }
    }
}

/// The kinds that make the source a parent of the target.
pub open spec fn is_parent_child_value(k: Seq<char>) -> bool {
    k == "biological-parent-child"@ || k == "adoptive-parent-child"@ || k == "foster-parent-child"@
        || k == "step-parent-child"@ || k == "guardian-child"@
}

pub struct EdgeView {
    pub parent: Seq<char>,
    pub child: Seq<char>,
    pub id: Seq<char>,
}

/// The parent/child relationships, in order.
pub open spec fn edges(dirs: Seq<DirectView>) -> Seq<EdgeView>
    decreases dirs.len(),
{
    if dirs.len() == 0 {
        seq![]
    } else {
        edges(dirs.drop_last()) + if is_parent_child_value(dirs.last().kind) {
            seq![EdgeView { parent: dirs.last().source, child: dirs.last().target, id: dirs.last().id }]
        } else {
            seq![]
        }
    }
}

/// The edge a relationship gives: its source as the parent of its target.
pub open spec fn edge_from(d: DirectView) -> EdgeView {
    EdgeView { parent: d.source, child: d.target, id: d.id }
}

/// A relationship kind text names a parent/child kind of tree relationship.
proof fn lemma_parent_child_kind_text(v: Seq<char>, k: RelationshipKind)
    requires
        kind_named_by(v, k),
    ensures
        spec_is_parent_child(k) ==> is_parent_child_value(v),
        is_parent_child_value(v) ==> spec_is_parent_child(k),
{
    reveal_strlit("biological-parent-child");
    reveal_strlit("adoptive-parent-child");
    reveal_strlit("foster-parent-child");
    reveal_strlit("step-parent-child");
    reveal_strlit("guardian-child");
    if is_parent_child_value(v) {
        if v == "adoptive-parent-child"@ {
            assert(v[0] != "biological-parent-child"@[0]);
        } else if v == "foster-parent-child"@ {
            assert(v[0] != "biological-parent-child"@[0]);
            assert(v[0] != "adoptive-parent-child"@[0]);
        } else if v == "step-parent-child"@ {
            assert(v[0] != "biological-parent-child"@[0]);
            assert(v[0] != "adoptive-parent-child"@[0]);
            assert(v[0] != "foster-parent-child"@[0]);
        } else if v == "guardian-child"@ {
            assert(v[0] != "biological-parent-child"@[0]);
            assert(v[0] != "adoptive-parent-child"@[0]);
            assert(v[0] != "foster-parent-child"@[0]);
            assert(v[0] != "step-parent-child"@[0]);
        }
    }
}

/// The kind text names a parent/child kind of tree relationship.
pub open spec fn names_parent_child_kind(v: Seq<char>) -> bool {
    exists|k: RelationshipKind| #[trigger] kind_named_by(v, k) && spec_is_parent_child(k)
}

proof fn lemma_names_parent_child_kind(v: Seq<char>)
    ensures
        names_parent_child_kind(v) == is_parent_child_value(v),
{
    if names_parent_child_kind(v) {
        let k = choose|k: RelationshipKind| #[trigger] kind_named_by(v, k) && spec_is_parent_child(k);
        lemma_parent_child_kind_text(v, k);
    }
    if is_parent_child_value(v) {
        let k = parent_child_kind_of(v);
        assert(kind_named_by(v, k) && spec_is_parent_child(k));
    }
}

/// The parent/child kind a parent/child kind text names.
proof fn parent_child_kind_of(v: Seq<char>) -> (k: RelationshipKind)
    requires
        is_parent_child_value(v),
    ensures
        kind_named_by(v, k),
        spec_is_parent_child(k),
{
    reveal_strlit("biological-parent-child");
    reveal_strlit("adoptive-parent-child");
    reveal_strlit("foster-parent-child");
    reveal_strlit("step-parent-child");
    reveal_strlit("guardian-child");
    if v == "biological-parent-child"@ {
        RelationshipKind::BiologicalParentChild
    } else if v == "adoptive-parent-child"@ {
        RelationshipKind::AdoptiveParentChild
    } else if v == "foster-parent-child"@ {
        assert(v[0] != "adoptive-parent-child"@[0]);
        RelationshipKind::FosterParentChild
    } else if v == "step-parent-child"@ {
        assert(v[0] != "adoptive-parent-child"@[0]);
        assert(v[0] != "foster-parent-child"@[0]);
        RelationshipKind::StepParentChild
    } else {
        assert(v == "guardian-child"@);
        assert(v[0] != "adoptive-parent-child"@[0]);
        assert(v[0] != "foster-parent-child"@[0]);
        assert(v[0] != "step-parent-child"@[0]);
        RelationshipKind::GuardianChild
    }
}

/// Edge `e` is given by a relationship of a parent/child kind.
pub open spec fn given_by_parent_child(dirs: Seq<DirectView>, e: EdgeView) -> bool {
    exists|i: int| #![trigger edge_from(dirs[i])]
        0 <= i < dirs.len() && edge_from(dirs[i]) == e && names_parent_child_kind(dirs[i].kind)
}

/// The parent/child edges of kinship are exactly the relationships whose
/// kind, read as a tree relationship kind, is a parent/child one
/// (biological, adoptive, foster, step or guardian): each of them makes its
/// source a parent of its target, and no other relationship gives an edge.
pub proof fn law_edges_are_parent_child_relationships(dirs: Seq<DirectView>)
    ensures
        forall|i: int| 0 <= i < dirs.len() && names_parent_child_kind(#[trigger] dirs[i].kind)
            ==> edges(dirs).contains(edge_from(dirs[i])),
        forall|j: int| 0 <= j < edges(dirs).len() ==> given_by_parent_child(dirs, #[trigger] edges(dirs)[j]),
    decreases dirs.len(),
{
    if dirs.len() > 0 {
        let init = dirs.drop_last();
        law_edges_are_parent_child_relationships(init);
        let a = edges(init);
        let b = edges(dirs);
        let last = dirs.last();
        assert forall|i: int| 0 <= i < dirs.len() && names_parent_child_kind(#[trigger] dirs[i].kind)
            implies b.contains(edge_from(dirs[i])) by {
            lemma_names_parent_child_kind(dirs[i].kind);
            if i < dirs.len() - 1 {
                assert(dirs[i] == init[i]);
                assert(names_parent_child_kind(init[i].kind));
                let q = choose|q: int| 0 <= q < a.len() && a[q] == edge_from(init[i]);
                assert(b[q] == a[q]);
            } else {
                assert(b[a.len() as int] == edge_from(last));
            }
        }
        assert forall|j: int| 0 <= j < edges(dirs).len() implies given_by_parent_child(dirs, #[trigger] edges(dirs)[j]) by {
            if j < a.len() {
                assert(b[j] == a[j]);
                assert(given_by_parent_child(init, a[j]));
                let i = choose|i: int| #![trigger edge_from(init[i])]
                    0 <= i < init.len() && edge_from(init[i]) == a[j] && names_parent_child_kind(init[i].kind);
                assert(dirs[i] == init[i]);
                assert(edge_from(dirs[i]) == b[j]);
                assert(given_by_parent_child(dirs, b[j]));
            } else {
                let n = dirs.len() - 1;
                assert(dirs[n] == last);
                assert(is_parent_child_value(last.kind));
                lemma_names_parent_child_kind(last.kind);
                assert(edge_from(dirs[n]) == b[j]);
                assert(given_by_parent_child(dirs, b[j]));
            }
        }
    } else {
        assert(edges(dirs).len() == 0);
    }
}

/// The two texts, the one that sorts first first.
pub open spec fn ordered_pair(a: Seq<char>, b: Seq<char>) -> (Seq<char>, Seq<char>) {
    if !text_lt(b, a) {
        (a, b)
    } else {
        (b, a)
    }
}

/// `a` and `b` are recorded as siblings by hand.
pub open spec fn authored_sibling(dirs: Seq<DirectView>, a: Seq<char>, b: Seq<char>) -> bool {
    exists|i: int| #![trigger dirs[i]] 0 <= i < dirs.len() && dirs[i].kind == "sibling"@
        && ordered_pair(dirs[i].source, dirs[i].target) == ordered_pair(a, b)
}

pub open spec fn parent_set(es: Seq<EdgeView>) -> Set<Seq<char>> {
    Set::new(|p: Seq<char>| exists|i: int| #![trigger es[i]] 0 <= i < es.len() && es[i].parent == p)
}

/// Everyone who is a parent, in sorted order.
pub open spec fn parents_sorted(es: Seq<EdgeView>) -> Seq<Seq<char>> {
    sorted_texts(parent_set(es))
}

/// The parent/child relationships from `p`, in order.
pub open spec fn kids(es: Seq<EdgeView>, p: Seq<char>) -> Seq<EdgeView>
    decreases es.len(),
{
    if es.len() == 0 {
        seq![]
    } else {
        kids(es.drop_last(), p) + if es.last().parent == p {
            seq![es.last()]
        } else {
            seq![]
        }
    }
}

struct Direct {
    id: String,
    kind: String,
    source: String,
    target: String,
}

impl View for Direct {
    type V = DirectView;

    closed spec fn view(&self) -> DirectView {
        DirectView { id: self.id@, kind: self.kind@, source: self.source@, target: self.target@ }
    }
}

struct Edge {
    parent: String,
    child: String,
    id: String,
}

impl View for Edge {
    type V = EdgeView;

    closed spec fn view(&self) -> EdgeView {
        EdgeView { parent: self.parent@, child: self.child@, id: self.id@ }
    }
}

spec fn direct_views(v: Seq<Direct>) -> Seq<DirectView> {
    v.map_values(|d: Direct| d@)
}

spec fn edge_views(v: Seq<Edge>) -> Seq<EdgeView> {
    v.map_values(|e: Edge| e@)
}

fn field_text(v: &JsonValue, key: &str) -> (r: Option<String>)
    ensures
        opt_string(r) == str_field(*v, key@),
{
    match v.get(key) {
        Some(x) => match x.as_str() {
            Some(s) => Some(s.to_owned()),
            None => None,
        },
        None => None,
    }
}

fn read_direct(d: &LocalTomlDocument) -> (r: Option<Direct>)
    ensures
        match r {
            Some(x) => direct_of(*d) == Some(x@),
            None => direct_of(*d) is None,
        },
{
    let is_rel = match &d.kind {
        Some(k) => str_eq(k.as_str(), "relationship"),
        None => false,
    };
    if !is_rel {
        return None;
    }
    let source = match field_text(&d.data, "source") {
        Some(s) => s,
        None => return None,
    };
    let target = match field_text(&d.data, "target") {
        Some(t) => t,
        None => return None,
    };
    let kind = match field_text(&d.data, "relationship") {
        Some(k) => k,
        None => match field_text(&d.data, "relationship_kind") {
            Some(k) => k,
            None => match field_text(&d.data, "relation") {
                Some(k) => k,
                None => "associate".to_owned(),
            },
        },
    };
    let id = match &d.id {
        Some(i) => i.clone(),
        None => d.path.clone(),
    };
    Some(Direct { id, kind, source, target })
}

fn read_directs(ds: &Vec<LocalTomlDocument>) -> (r: Vec<Direct>)
    ensures
        direct_views(r@) == directs(ds@),
{
    let mut r: Vec<Direct> = Vec::new();
    let mut i: usize = 0;
    assert(direct_views(r@) =~= directs(ds@.take(0)));
    while i < ds.len()
        invariant
            i <= ds@.len(),
            direct_views(r@) == directs(ds@.take(i as int)),
        decreases ds@.len() - i,
    {
        assert(ds@.take(i + 1).drop_last() =~= ds@.take(i as int));
        assert(ds@.take(i + 1).last() == ds@[i as int]);
        let ghost before = direct_views(r@);
        match read_direct(&ds[i]) {
            Some(x) => {
                r.push(x);
                assert(direct_views(r@) =~= before + seq![x@]);
            },
            None => {
                assert(before + seq![] =~= before);
            },
        }
        i = i + 1;
    }
    assert(ds@.take(i as int) =~= ds@);
    r
}

fn is_parent_child_text(k: &str) -> (r: bool)
    ensures
        r == is_parent_child_value(k@),
{
    str_eq(k, "biological-parent-child") || str_eq(k, "adoptive-parent-child") || str_eq(k, "foster-parent-child")
        || str_eq(k, "step-parent-child") || str_eq(k, "guardian-child")
}

fn edges_of(dirs: &Vec<Direct>) -> (r: Vec<Edge>)
    ensures
        edge_views(r@) == edges(direct_views(dirs@)),
{
    let ghost dv = direct_views(dirs@);
    let mut r: Vec<Edge> = Vec::new();
    let mut i: usize = 0;
    assert(edge_views(r@) =~= edges(dv.take(0)));
    while i < dirs.len()
        invariant
            i <= dirs@.len(),
            dv == direct_views(dirs@),
            edge_views(r@) == edges(dv.take(i as int)),
        decreases dirs@.len() - i,
    {
        assert(dv.take(i + 1).drop_last() =~= dv.take(i as int));
        assert(dv.take(i + 1).last() == dirs@[i as int]@);
        let d = &dirs[i];
        let ghost before = edge_views(r@);
        if is_parent_child_text(d.kind.as_str()) {
            r.push(Edge { parent: d.source.clone(), child: d.target.clone(), id: d.id.clone() });
            assert(edge_views(r@) =~= before + seq![EdgeView { parent: d@.source, child: d@.target, id: d@.id }]);
        } else {
            assert(before + seq![] =~= before);
        }
        i = i + 1;
    }
    assert(dv.take(i as int) =~= dv);
    r
}

fn order_pair(a: &str, b: &str) -> (r: (String, String))
    ensures
        (r.0@, r.1@) == ordered_pair(a@, b@),
{
    if !str_lt(b, a) {
        (a.to_owned(), b.to_owned())
    } else {
        (b.to_owned(), a.to_owned())
    }
}

fn is_authored_sibling(dirs: &Vec<Direct>, a: &str, b: &str) -> (r: bool)
    ensures
        r == authored_sibling(direct_views(dirs@), a@, b@),
{
    let ghost dv = direct_views(dirs@);
    let (x, y) = order_pair(a, b);
    let mut i: usize = 0;
    while i < dirs.len()
        invariant
            i <= dirs@.len(),
            dv == direct_views(dirs@),
            (x@, y@) == ordered_pair(a@, b@),
            forall|k: int| 0 <= k < i ==> !(dv[k].kind == "sibling"@ && ordered_pair(dv[k].source, dv[k].target) == ordered_pair(a@, b@)),
        decreases dirs@.len() - i,
    {
        let d = &dirs[i];
        assert(dv[i as int] == d@);
        if str_eq(d.kind.as_str(), "sibling") {
            let (s, t) = order_pair(d.source.as_str(), d.target.as_str());
            if str_eq(s.as_str(), x.as_str()) && str_eq(t.as_str(), y.as_str()) {
                return true;
            }
        }
        i = i + 1;
    }
    false
}

fn parents_of(es: &Vec<Edge>) -> (r: Vec<String>)
    ensures
        texts(r@) == parents_sorted(edge_views(es@)),
{
    let ghost ev = edge_views(es@);
    let mut r: Vec<String> = Vec::new();
    let mut i: usize = 0;
    assert(texts(r@) =~= seq![]);
    while i < es.len()
        invariant
            i <= es@.len(),
            ev == edge_views(es@),
            strictly_sorted(texts(r@)),
            texts(r@).to_set() == Set::new(|p: Seq<char>| exists|k: int| #![trigger ev[k]] 0 <= k < i && ev[k].parent == p),
        decreases es@.len() - i,
    {
        insert_sorted(&mut r, es[i].parent.clone());
        assert(ev[i as int] == es@[i as int]@);
        assert(texts(r@).to_set() =~= Set::new(|p: Seq<char>| exists|k: int| #![trigger ev[k]] 0 <= k < i + 1 && ev[k].parent == p));
        i = i + 1;
    }
    assert(texts(r@).to_set() =~= parent_set(ev));
    proof {
        lemma_sorted_texts(texts(r@));
    }
    r
}

/// The edges from `p`, copied out.
fn kids_of(es: &Vec<Edge>, p: &str) -> (r: Vec<Edge>)
    ensures
        edge_views(r@) == kids(edge_views(es@), p@),
{
    let ghost ev = edge_views(es@);
    let mut r: Vec<Edge> = Vec::new();
    let mut i: usize = 0;
    assert(edge_views(r@) =~= kids(ev.take(0), p@));
    while i < es.len()
        invariant
            i <= es@.len(),
            ev == edge_views(es@),
            edge_views(r@) == kids(ev.take(i as int), p@),
        decreases es@.len() - i,
    {
        assert(ev.take(i + 1).drop_last() =~= ev.take(i as int));
        assert(ev.take(i + 1).last() == es@[i as int]@);
        let e = &es[i];
        let ghost before = edge_views(r@);
        if str_eq(e.parent.as_str(), p) {
            r.push(Edge { parent: e.parent.clone(), child: e.child.clone(), id: e.id.clone() });
            assert(edge_views(r@) =~= before + seq![e@]);
        } else {
            assert(before + seq![] =~= before);
        }
        i = i + 1;
    }
    assert(ev.take(i as int) =~= ev);
    r
}

// ---------------------------------------------------------------------------
// Siblings and grandparents.

pub open spec fn contribution(kind: Seq<char>, source: Seq<char>, target: Seq<char>, depth: nat, ids: Seq<Seq<char>>) -> Contribution {
    Contribution { kind, source, target, depth, ids }
}

/// The pairs `(ks[i], ks[j])` with `j > i`, for one `i`.
pub open spec fn row(ks: Seq<EdgeView>, i: int) -> Seq<(EdgeView, EdgeView)> {
    ks.skip(i + 1).map_values(|r: EdgeView| (ks[i], r))
}

/// The pairs `(ks[a], ks[b])` with `a < b` and `a < i`, by `a` then `b`.
pub open spec fn pairs_upto(ks: Seq<EdgeView>, i: int) -> Seq<(EdgeView, EdgeView)>
    decreases i,
{
    if i <= 0 {
        seq![]
    } else {
        pairs_upto(ks, i - 1) + row(ks, i - 1)
    }
}

pub open spec fn all_pairs(ks: Seq<EdgeView>) -> Seq<(EdgeView, EdgeView)> {
    pairs_upto(ks, ks.len() as int)
}

/// A sibling pair, unless recorded as siblings by hand.
pub open spec fn sibling_reasons(dirs: Seq<DirectView>, ps: Seq<(EdgeView, EdgeView)>) -> Seq<Contribution>
    decreases ps.len(),
{
    if ps.len() == 0 {
        seq![]
    } else {
        let (l, r) = ps.last();
        sibling_reasons(dirs, ps.drop_last()) + if authored_sibling(dirs, l.child, r.child) {
            seq![]
        } else {
            let (a, b) = ordered_pair(l.child, r.child);
            seq![contribution("sibling"@, a, b, 1, seq![l.id, r.id])]
        }
    }
}

pub open spec fn sibling_section(es: Seq<EdgeView>, dirs: Seq<DirectView>, ps: Seq<Seq<char>>) -> Seq<Contribution>
    decreases ps.len(),
{
    if ps.len() == 0 {
        seq![]
    } else {
        sibling_section(es, dirs, ps.drop_last()) + sibling_reasons(dirs, all_pairs(kids(es, ps.last())))
    }
}

pub open spec fn grandchild_reasons(p: Seq<char>, e: EdgeView, grandkids: Seq<EdgeView>) -> Seq<Contribution> {
    grandkids.map_values(|g: EdgeView| contribution("grandparent-grandchild"@, p, g.child, 2, seq![e.id, g.id]))
}

pub open spec fn grandparent_reasons(es: Seq<EdgeView>, p: Seq<char>, ks: Seq<EdgeView>) -> Seq<Contribution>
    decreases ks.len(),
{
    if ks.len() == 0 {
        seq![]
    } else {
        grandparent_reasons(es, p, ks.drop_last()) + grandchild_reasons(p, ks.last(), kids(es, ks.last().child))
    }
}

pub open spec fn grandparent_section(es: Seq<EdgeView>, ps: Seq<Seq<char>>) -> Seq<Contribution>
    decreases ps.len(),
{
    if ps.len() == 0 {
        seq![]
    } else {
        grandparent_section(es, ps.drop_last()) + grandparent_reasons(es, ps.last(), kids(es, ps.last()))
    }
}

fn reason_new(kind: &str, source: String, target: String, depth: u32, ids: Vec<String>) -> (r: KinshipReason)
    ensures
        r@ == contribution(kind@, source@, target@, depth as nat, texts(ids@)),
{
    KinshipReason { kind: kind.to_owned(), source, target, depth, ids }
}

fn two_ids(a: &String, b: &String) -> (r: Vec<String>)
    ensures
        texts(r@) == seq![a@, b@],
{
    let mut r: Vec<String> = Vec::new();
    r.push(a.clone());
    r.push(b.clone());
    assert(texts(r@) =~= seq![a@, b@]);
    r
}

fn add_sibling_reasons(out: &mut Vec<KinshipReason>, dirs: &Vec<Direct>, ks: &Vec<Edge>)
    ensures
        reason_views(final(out)@) == reason_views(old(out)@) + sibling_reasons(direct_views(dirs@), all_pairs(edge_views(ks@))),
{
    let ghost kv = edge_views(ks@);
    let ghost dv = direct_views(dirs@);
    let ghost base = reason_views(out@);
    let n = ks.len();
    let mut i: usize = 0;
    assert(sibling_reasons(dv, pairs_upto(kv, 0)) =~= seq![]);
    assert(reason_views(out@) =~= base + seq![]);
    while i < n
        invariant
            n == ks@.len(),
            i <= n,
            kv == edge_views(ks@),
            dv == direct_views(dirs@),
            base == reason_views(old(out)@),
            reason_views(out@) == base + sibling_reasons(dv, pairs_upto(kv, i as int)),
        decreases n - i,
    {
        let mut j: usize = i + 1;
        let ghost done = pairs_upto(kv, i as int);
        assert(row(kv, i as int).take(0) =~= seq![]);
        assert(done + row(kv, i as int).take(0) =~= done);
        while j < n
            invariant
                n == ks@.len(),
                i < n,
                i + 1 <= j <= n,
                kv == edge_views(ks@),
                dv == direct_views(dirs@),
                base == reason_views(old(out)@),
                done == pairs_upto(kv, i as int),
                reason_views(out@) == base + sibling_reasons(dv, done + row(kv, i as int).take(j - i - 1)),
            decreases n - j,
        {
            let l = &ks[i];
            let r = &ks[j];
            let ghost sp = done + row(kv, i as int).take(j - i - 1);
            let ghost sq = done + row(kv, i as int).take(j - i);
            assert(row(kv, i as int)[j - i - 1] == (kv[i as int], kv[j as int]));
            assert(sq =~= sp.push((kv[i as int], kv[j as int])));
            assert(sq.drop_last() =~= sp);
            assert(kv[i as int] == l@ && kv[j as int] == r@);
            let ghost before = reason_views(out@);
            if !is_authored_sibling(dirs, l.child.as_str(), r.child.as_str()) {
                let (a, b) = order_pair(l.child.as_str(), r.child.as_str());
                let c = reason_new("sibling", a, b, 1, two_ids(&l.id, &r.id));
                out.push(c);
                assert(reason_views(out@) =~= before.push(c@));
            }
            j = j + 1;
        }
        assert(row(kv, i as int).take(n - i - 1) =~= row(kv, i as int));
        i = i + 1;
    }
}

fn add_grandparent_reasons(out: &mut Vec<KinshipReason>, es: &Vec<Edge>, p: &String, ks: &Vec<Edge>)
    ensures
        reason_views(final(out)@) == reason_views(old(out)@) + grandparent_reasons(edge_views(es@), p@, edge_views(ks@)),
{
    let ghost ev = edge_views(es@);
    let ghost kv = edge_views(ks@);
    let ghost base = reason_views(out@);
    let mut i: usize = 0;
    assert(grandparent_reasons(ev, p@, kv.take(0)) =~= seq![]);
    assert(reason_views(out@) =~= base + seq![]);
    while i < ks.len()
        invariant
            i <= ks@.len(),
            ev == edge_views(es@),
            kv == edge_views(ks@),
            base == reason_views(old(out)@),
            reason_views(out@) == base + grandparent_reasons(ev, p@, kv.take(i as int)),
        decreases ks@.len() - i,
    {
        let e = &ks[i];
        assert(kv.take(i + 1).drop_last() =~= kv.take(i as int));
        assert(kv.take(i + 1).last() == e@);
        let gks = kids_of(es, e.child.as_str());
        let ghost gv = edge_views(gks@);
        let ghost mid = reason_views(out@);
        let mut j: usize = 0;
        while j < gks.len()
            invariant
                j <= gks@.len(),
                gv == edge_views(gks@),
                reason_views(out@) == mid + grandchild_reasons(p@, e@, gv.take(j as int)),
            decreases gks@.len() - j,
        {
            let g = &gks[j];
            let ghost before = reason_views(out@);
            let c = reason_new("grandparent-grandchild", p.clone(), g.child.clone(), 2, two_ids(&e.id, &g.id));
            out.push(c);
            assert(grandchild_reasons(p@, e@, gv.take(j + 1)) =~= grandchild_reasons(p@, e@, gv.take(j as int)).push(c@)) by {
                assert(gv[j as int] == g@);
            }
            assert(reason_views(out@) =~= before.push(c@));
            j = j + 1;
        }
        assert(gv.take(j as int) =~= gv);
        i = i + 1;
    }
    assert(kv.take(i as int) =~= kv);
}

// ---------------------------------------------------------------------------
// Sibling links, aunts and uncles, cousins.

/// Two children of one parent, in sorted order, with the relationship ids
/// that make them siblings (sorted, each once).
pub struct LinkView {
    pub left: Seq<char>,
    pub right: Seq<char>,
    pub ids: Seq<Seq<char>>,
}

pub open spec fn pair_ids(x: Seq<char>, y: Seq<char>) -> Seq<Seq<char>> {
    if x == y {
        seq![x]
    } else if text_lt(x, y) {
        seq![x, y]
    } else {
        seq![y, x]
    }
}

pub open spec fn link_of(l: EdgeView, r: EdgeView) -> LinkView {
    let (a, b) = ordered_pair(l.child, r.child);
    LinkView { left: a, right: b, ids: pair_ids(l.id, r.id) }
}

pub open spec fn link_before(a: LinkView, b: LinkView) -> bool {
    text_lt(a.left, b.left) || (a.left == b.left && text_lt(a.right, b.right))
}

/// A new pair of children goes in key order; a pair already linked keeps
/// its first link.
pub open spec fn add_link(m: Seq<LinkView>, x: LinkView) -> Seq<LinkView> {
    if exists|k: int| #![trigger m[k]] 0 <= k < m.len() && m[k].left == x.left && m[k].right == x.right {
        m
    } else {
        insert_sorted_by(m, x, |a: LinkView, b: LinkView| link_before(a, b))
    }
}

pub open spec fn links_from(m: Seq<LinkView>, prs: Seq<(EdgeView, EdgeView)>) -> Seq<LinkView>
    decreases prs.len(),
{
    if prs.len() == 0 {
        m
    } else {
        add_link(links_from(m, prs.drop_last()), link_of(prs.last().0, prs.last().1))
    }
}

/// The sibling links of every parent, by pair of children.
pub open spec fn links_section(es: Seq<EdgeView>, ps: Seq<Seq<char>>) -> Seq<LinkView>
    decreases ps.len(),
{
    if ps.len() == 0 {
        seq![]
    } else {
        links_from(links_section(es, ps.drop_last()), all_pairs(kids(es, ps.last())))
    }
}

/// `rel` is an aunt or uncle of each child of `parent` other than `rel`.
pub open spec fn aunt_uncle_reasons(rel: Seq<char>, ids: Seq<Seq<char>>, ks: Seq<EdgeView>) -> Seq<Contribution>
    decreases ks.len(),
{
    if ks.len() == 0 {
        seq![]
    } else {
        aunt_uncle_reasons(rel, ids, ks.drop_last()) + if ks.last().child == rel {
            seq![]
        } else {
            seq![contribution("aunt-uncle-nibling"@, rel, ks.last().child, 2, ids.push(ks.last().id))]
        }
    }
}

pub open spec fn aunt_uncle_section(es: Seq<EdgeView>, links: Seq<LinkView>) -> Seq<Contribution>
    decreases links.len(),
{
    if links.len() == 0 {
        seq![]
    } else {
        let k = links.last();
        aunt_uncle_section(es, links.drop_last()) + aunt_uncle_reasons(k.left, k.ids, kids(es, k.right))
            + aunt_uncle_reasons(k.right, k.ids, kids(es, k.left))
    }
}

/// The children of one sibling are cousins of those of the other.
pub open spec fn cousin_row(ids: Seq<Seq<char>>, lc: EdgeView, rks: Seq<EdgeView>) -> Seq<Contribution>
    decreases rks.len(),
{
    if rks.len() == 0 {
        seq![]
    } else {
        let rc = rks.last();
        cousin_row(ids, lc, rks.drop_last()) + if lc.child == rc.child {
            seq![]
        } else {
            let (a, b) = ordered_pair(lc.child, rc.child);
            seq![contribution("cousin"@, a, b, 2, ids + seq![lc.id, rc.id])]
        }
    }
}

pub open spec fn cousin_reasons(ids: Seq<Seq<char>>, lks: Seq<EdgeView>, rks: Seq<EdgeView>) -> Seq<Contribution>
    decreases lks.len(),
{
    if lks.len() == 0 {
        seq![]
    } else {
        cousin_reasons(ids, lks.drop_last(), rks) + cousin_row(ids, lks.last(), rks)
    }
}

pub open spec fn cousin_section(es: Seq<EdgeView>, links: Seq<LinkView>) -> Seq<Contribution>
    decreases links.len(),
{
    if links.len() == 0 {
        seq![]
    } else {
        let k = links.last();
        cousin_section(es, links.drop_last()) + cousin_reasons(k.ids, kids(es, k.left), kids(es, k.right))
    }
}

struct Link {
    left: String,
    right: String,
    ids: Vec<String>,
}

impl View for Link {
    type V = LinkView;

    closed spec fn view(&self) -> LinkView {
        LinkView { left: self.left@, right: self.right@, ids: texts(self.ids@) }
    }
}

spec fn link_views(v: Seq<Link>) -> Seq<LinkView> {
    v.map_values(|l: Link| l@)
}

fn new_link(l: &Edge, r: &Edge) -> (x: Link)
    ensures
        x@ == link_of(l@, r@),
{
    let (a, b) = order_pair(l.child.as_str(), r.child.as_str());
    let mut ids: Vec<String> = Vec::new();
    if str_eq(l.id.as_str(), r.id.as_str()) {
        ids.push(l.id.clone());
        assert(texts(ids@) =~= seq![l.id@]);
    } else if str_lt(l.id.as_str(), r.id.as_str()) {
        ids.push(l.id.clone());
        ids.push(r.id.clone());
        assert(texts(ids@) =~= seq![l.id@, r.id@]);
    } else {
        ids.push(r.id.clone());
        ids.push(l.id.clone());
        assert(texts(ids@) =~= seq![r.id@, l.id@]);
    }
    Link { left: a, right: b, ids }
}

fn link_less(a: &Link, b: &Link) -> (r: bool)
    ensures
        r == link_before(a@, b@),
{
    str_lt(a.left.as_str(), b.left.as_str()) || (str_eq(a.left.as_str(), b.left.as_str()) && str_lt(a.right.as_str(), b.right.as_str()))
}

fn add_link_exec(m: &mut Vec<Link>, x: Link)
    ensures
        link_views(final(m)@) == add_link(link_views(old(m)@), x@),
{
    let ghost mv = link_views(m@);
    let ghost before = |a: LinkView, b: LinkView| link_before(a, b);
    let mut k: usize = 0;
    while k < m.len()
        invariant
            k <= m@.len(),
            mv == link_views(m@),
            forall|q: int| 0 <= q < k ==> !(mv[q].left == x@.left && mv[q].right == x@.right),
        decreases m@.len() - k,
    {
        if str_eq(m[k].left.as_str(), x.left.as_str()) && str_eq(m[k].right.as_str(), x.right.as_str()) {
            assert(mv[k as int] == m@[k as int]@);
            return;
        }
        k = k + 1;
    }
    let mut j: usize = 0;
    while j < m.len() && !link_less(&x, &m[j])
        invariant
            j <= m@.len(),
            mv == link_views(m@),
            before == (|a: LinkView, b: LinkView| link_before(a, b)),
            forall|q: int| 0 <= q < j ==> !before(x@, #[trigger] mv[q]),
        decreases m@.len() - j,
    {
        assert(mv[j as int] == m@[j as int]@);
        j = j + 1;
    }
    proof {
        if j < m@.len() {
            assert(mv[j as int] == m@[j as int]@);
        }
        lemma_insert_at(mv, x@, before, j as int);
    }
    let ghost xv = x@;
    m.insert(j, x);
    assert(link_views(m@) =~= mv.take(j as int).push(xv) + mv.skip(j as int));
}

fn copy_strings(v: &Vec<String>) -> (r: Vec<String>)
    ensures
        texts(r@) == texts(v@),
{
    let r = copy_texts(v);
    r
}

fn ids_plus(ids: &Vec<String>, extra: &String) -> (r: Vec<String>)
    ensures
        texts(r@) == texts(ids@).push(extra@),
{
    let mut r = copy_strings(ids);
    let ghost before = texts(r@);
    r.push(extra.clone());
    assert(texts(r@) =~= before.push(extra@));
    r
}

fn add_aunt_uncle_reasons(out: &mut Vec<KinshipReason>, rel: &String, ids: &Vec<String>, ks: &Vec<Edge>)
    ensures
        reason_views(final(out)@) == reason_views(old(out)@) + aunt_uncle_reasons(rel@, texts(ids@), edge_views(ks@)),
{
    let ghost kv = edge_views(ks@);
    let ghost base = reason_views(out@);
    let mut i: usize = 0;
    assert(aunt_uncle_reasons(rel@, texts(ids@), kv.take(0)) =~= seq![]);
    assert(reason_views(out@) =~= base + seq![]);
    while i < ks.len()
        invariant
            i <= ks@.len(),
            kv == edge_views(ks@),
            base == reason_views(old(out)@),
            reason_views(out@) == base + aunt_uncle_reasons(rel@, texts(ids@), kv.take(i as int)),
        decreases ks@.len() - i,
    {
        let c = &ks[i];
        assert(kv.take(i + 1).drop_last() =~= kv.take(i as int));
        assert(kv.take(i + 1).last() == c@);
        let ghost before = reason_views(out@);
        if !str_eq(c.child.as_str(), rel.as_str()) {
            let r = reason_new("aunt-uncle-nibling", rel.clone(), c.child.clone(), 2, ids_plus(ids, &c.id));
            out.push(r);
            assert(reason_views(out@) =~= before.push(r@));
        }
        i = i + 1;
    }
    assert(kv.take(i as int) =~= kv);
}

fn add_cousin_reasons(out: &mut Vec<KinshipReason>, ids: &Vec<String>, lks: &Vec<Edge>, rks: &Vec<Edge>)
    ensures
        reason_views(final(out)@) == reason_views(old(out)@) + cousin_reasons(texts(ids@), edge_views(lks@), edge_views(rks@)),
{
    let ghost lv = edge_views(lks@);
    let ghost rv = edge_views(rks@);
    let ghost base = reason_views(out@);
    let mut i: usize = 0;
    assert(cousin_reasons(texts(ids@), lv.take(0), rv) =~= seq![]);
    assert(reason_views(out@) =~= base + seq![]);
    while i < lks.len()
        invariant
            i <= lks@.len(),
            lv == edge_views(lks@),
            rv == edge_views(rks@),
            base == reason_views(old(out)@),
            reason_views(out@) == base + cousin_reasons(texts(ids@), lv.take(i as int), rv),
        decreases lks@.len() - i,
    {
        let lc = &lks[i];
        assert(lv.take(i + 1).drop_last() =~= lv.take(i as int));
        assert(lv.take(i + 1).last() == lc@);
        let ghost mid = reason_views(out@);
        let mut j: usize = 0;
        assert(cousin_row(texts(ids@), lc@, rv.take(0)) =~= seq![]);
        assert(mid + seq![] =~= mid);
        while j < rks.len()
            invariant
                j <= rks@.len(),
                rv == edge_views(rks@),
                reason_views(out@) == mid + cousin_row(texts(ids@), lc@, rv.take(j as int)),
            decreases rks@.len() - j,
        {
            let rc = &rks[j];
            assert(rv.take(j + 1).drop_last() =~= rv.take(j as int));
            assert(rv.take(j + 1).last() == rc@);
            let ghost before = reason_views(out@);
            if !str_eq(lc.child.as_str(), rc.child.as_str()) {
                let (a, b) = order_pair(lc.child.as_str(), rc.child.as_str());
                let mut cids = copy_strings(ids);
                let ghost c0 = texts(cids@);
                cids.push(lc.id.clone());
                cids.push(rc.id.clone());
                assert(texts(cids@) =~= c0 + seq![lc.id@, rc.id@]);
                let r = reason_new("cousin", a, b, 2, cids);
                out.push(r);
                assert(reason_views(out@) =~= before.push(r@));
            }
            j = j + 1;
        }
        assert(rv.take(j as int) =~= rv);
        i = i + 1;
    }
    assert(lv.take(i as int) =~= lv);
}

// ---------------------------------------------------------------------------
// Ancestors: a breadth-first walk down from each parent.

pub struct ItemView {
    pub person: Seq<char>,
    pub depth: nat,
    pub path: Seq<Seq<char>>,
}

/// The children of `it.person`, one generation further down.
pub open spec fn next_items(es: Seq<EdgeView>, it: ItemView) -> Seq<ItemView> {
    kids(es, it.person).map_values(|e: EdgeView| ItemView { person: e.child, depth: it.depth + 1, path: it.path.push(e.id) })
}

pub open spec fn first_items(es: Seq<EdgeView>, a: Seq<char>) -> Seq<ItemView> {
    kids(es, a).map_values(|e: EdgeView| ItemView { person: e.child, depth: 1, path: seq![e.id] })
}

/// One generation of the walk from `a`: each person not seen yet is seen,
/// is a descendant of `a` from two generations down, and brings their
/// children into the next generation.
pub open spec fn walk_level(es: Seq<EdgeView>, a: Seq<char>, level: Seq<ItemView>, seen: Seq<Seq<char>>)
    -> (Seq<Contribution>, Seq<Seq<char>>, Seq<ItemView>)
    decreases level.len(),
{
    if level.len() == 0 {
        (seq![], seen, seq![])
    } else {
        let (o, v, n) = walk_level(es, a, level.drop_last(), seen);
        let it = level.last();
        if v.contains(it.person) {
            (o, v, n)
        } else {
            (
                o + if it.depth >= 2 {
                    seq![contribution("ancestor-descendant"@, a, it.person, it.depth, it.path)]
                } else {
                    seq![]
                },
                v.push(it.person),
                n + next_items(es, it),
            )
        }
    }
}

/// The walk, generation by generation, for at most `fuel` generations.
pub open spec fn walk(es: Seq<EdgeView>, a: Seq<char>, level: Seq<ItemView>, seen: Seq<Seq<char>>, fuel: nat) -> Seq<Contribution>
    decreases fuel,
{
    if fuel == 0 || level.len() == 0 {
        seq![]
    } else {
        let (o, v, n) = walk_level(es, a, level, seen);
        o + walk(es, a, n, v, (fuel - 1) as nat)
    }
}

/// The descendants of `a`, each once, at their nearest generation. A walk
/// of one generation more than there are relationships reaches everyone.
pub open spec fn ancestor_reasons(es: Seq<EdgeView>, a: Seq<char>) -> Seq<Contribution> {
    walk(es, a, first_items(es, a), seq![], (es.len() + 1) as nat)
}

pub open spec fn ancestor_section(es: Seq<EdgeView>, ps: Seq<Seq<char>>) -> Seq<Contribution>
    decreases ps.len(),
{
    if ps.len() == 0 {
        seq![]
    } else {
        ancestor_section(es, ps.drop_last()) + ancestor_reasons(es, ps.last())
    }
}

struct Item {
    person: String,
    depth: u32,
    path: Vec<String>,
}

impl View for Item {
    type V = ItemView;

    closed spec fn view(&self) -> ItemView {
        ItemView { person: self.person@, depth: self.depth as nat, path: texts(self.path@) }
    }
}

spec fn item_views(v: Seq<Item>) -> Seq<ItemView> {
    v.map_values(|i: Item| i@)
}

fn has_text(v: &Vec<String>, s: &str) -> (r: bool)
    ensures
        r == texts(v@).contains(s@),
{
    let mut i: usize = 0;
    while i < v.len()
        invariant
            i <= v@.len(),
            forall|k: int| 0 <= k < i ==> texts(v@)[k] != s@,
        decreases v@.len() - i,
    {
        if str_eq(v[i].as_str(), s) {
            assert(texts(v@)[i as int] == s@);
            return true;
        }
        i = i + 1;
    }
    false
}

/// Adds the children of `it` to the next generation.
fn push_next(next: &mut Vec<Item>, es: &Vec<Edge>, it: &Item)
    requires
        it.depth < u32::MAX,
    ensures
        item_views(final(next)@) == item_views(old(next)@) + next_items(edge_views(es@), it@),
{
    let ks = kids_of(es, it.person.as_str());
    let ghost kv = edge_views(ks@);
    let ghost base = item_views(next@);
    let mut j: usize = 0;
    assert(base + kv.take(0).map_values(|e: EdgeView| ItemView { person: e.child, depth: it@.depth + 1, path: it@.path.push(e.id) }) =~= base);
    while j < ks.len()
        invariant
            j <= ks@.len(),
            kv == edge_views(ks@),
            it.depth < u32::MAX,
            base == item_views(old(next)@),
            item_views(next@) == base + kv.take(j as int).map_values(
                |e: EdgeView| ItemView { person: e.child, depth: it@.depth + 1, path: it@.path.push(e.id) },
            ),
        decreases ks@.len() - j,
    {
        let e = &ks[j];
        let mut path = copy_strings(&it.path);
        let ghost p0 = texts(path@);
        path.push(e.id.clone());
        assert(texts(path@) =~= p0.push(e.id@));
        let x = Item { person: e.child.clone(), depth: it.depth + 1, path };
        let ghost before = item_views(next@);
        next.push(x);
        assert(kv.take(j + 1) =~= kv.take(j as int).push(kv[j as int]));
        assert(kv[j as int] == e@);
        assert(item_views(next@) =~= before.push(x@));
        assert(item_views(next@) =~= base + kv.take(j + 1).map_values(
            |e: EdgeView| ItemView { person: e.child, depth: it@.depth + 1, path: it@.path.push(e.id) },
        ));
        j = j + 1;
    }
    assert(kv.take(j as int) =~= kv);
}

fn first_level(es: &Vec<Edge>, a: &String) -> (r: Vec<Item>)
    ensures
        item_views(r@) == first_items(edge_views(es@), a@),
        forall|k: int| 0 <= k < r@.len() ==> (#[trigger] item_views(r@)[k]).depth == 1,
{
    let ks = kids_of(es, a.as_str());
    let ghost kv = edge_views(ks@);
    let mut r: Vec<Item> = Vec::new();
    let mut j: usize = 0;
    assert(item_views(r@) =~= kv.take(0).map_values(|e: EdgeView| ItemView { person: e.child, depth: 1, path: seq![e.id] }));
    while j < ks.len()
        invariant
            j <= ks@.len(),
            kv == edge_views(ks@),
            item_views(r@) == kv.take(j as int).map_values(|e: EdgeView| ItemView { person: e.child, depth: 1, path: seq![e.id] }),
            forall|k: int| 0 <= k < r@.len() ==> (#[trigger] item_views(r@)[k]).depth == 1,
        decreases ks@.len() - j,
    {
        let e = &ks[j];
        let mut path: Vec<String> = Vec::new();
        path.push(e.id.clone());
        assert(texts(path@) =~= seq![e.id@]);
        let x = Item { person: e.child.clone(), depth: 1, path };
        let ghost before = item_views(r@);
        r.push(x);
        assert(kv.take(j + 1) =~= kv.take(j as int).push(kv[j as int]));
        assert(kv[j as int] == e@);
        assert(item_views(r@) =~= before.push(x@));
        assert(item_views(r@) =~= kv.take(j + 1).map_values(|e: EdgeView| ItemView { person: e.child, depth: 1, path: seq![e.id] }));
        j = j + 1;
    }
    assert(kv.take(j as int) =~= kv);
    r
}

/// One generation of the walk.
fn walk_one(out: &mut Vec<KinshipReason>, es: &Vec<Edge>, a: &String, level: &Vec<Item>, seen: &mut Vec<String>, d: u32) -> (next: Vec<Item>)
    requires
        d < u32::MAX,
        forall|k: int| 0 <= k < level@.len() ==> (#[trigger] item_views(level@)[k]).depth == d,
    ensures
        ({
            let (o, v, n) = walk_level(edge_views(es@), a@, item_views(level@), texts(old(seen)@));
            &&& reason_views(final(out)@) == reason_views(old(out)@) + o
            &&& texts(final(seen)@) == v
            &&& item_views(next@) == n
        }),
        forall|k: int| 0 <= k < next@.len() ==> (#[trigger] item_views(next@)[k]).depth == d + 1,
{
    let ghost ev = edge_views(es@);
    let ghost lv = item_views(level@);
    let ghost base = reason_views(out@);
    let ghost seen0 = texts(seen@);
    let mut next: Vec<Item> = Vec::new();
    let mut k: usize = 0;
    assert(lv.take(0) =~= seq![]);
    assert(base + seq![] =~= base);
    assert(item_views(next@) =~= seq![]);
    while k < level.len()
        invariant
            k <= level@.len(),
            lv == item_views(level@),
            ev == edge_views(es@),
            d < u32::MAX,
            forall|q: int| 0 <= q < level@.len() ==> (#[trigger] item_views(level@)[q]).depth == d,
            forall|q: int| 0 <= q < next@.len() ==> (#[trigger] item_views(next@)[q]).depth == d + 1,
            base == reason_views(old(out)@),
            seen0 == texts(old(seen)@),
            ({
                let (o, v, n) = walk_level(ev, a@, lv.take(k as int), seen0);
                &&& reason_views(out@) == base + o
                &&& texts(seen@) == v
                &&& item_views(next@) == n
            }),
        decreases level@.len() - k,
    {
        let it = &level[k];
        assert(lv.take(k + 1).drop_last() =~= lv.take(k as int));
        assert(lv.take(k + 1).last() == it@);
        let ghost ro = reason_views(out@);
        let ghost sv = texts(seen@);
        let ghost nv = item_views(next@);
        if !has_text(seen, it.person.as_str()) {
            if it.depth >= 2 {
                let c = reason_new("ancestor-descendant", a.clone(), it.person.clone(), it.depth, copy_strings(&it.path));
                out.push(c);
                assert(reason_views(out@) =~= ro + seq![c@]);
            } else {
                assert(ro + seq![] =~= ro);
            }
            seen.push(it.person.clone());
            assert(texts(seen@) =~= sv.push(it@.person));
            let ghost nb = item_views(next@);
            assert(lv[k as int].depth == d);
            assert(it.depth == d);
            push_next(&mut next, es, it);
            let ghost ni = next_items(ev, it@);
            assert(item_views(next@) == nb + ni);
            assert(ni.len() == kids(ev, it@.person).len());
            assert forall|q: int| 0 <= q < next@.len() implies (#[trigger] item_views(next@)[q]).depth == d + 1 by {
                if q < nb.len() {
                    assert(item_views(next@)[q] == nb[q]);
                } else {
                    assert(item_views(next@)[q] == ni[q - nb.len()]);
                    assert(ni[q - nb.len()].depth == it@.depth + 1);
                }
            }
        }
        k = k + 1;
    }
    assert(lv.take(k as int) =~= lv);
    next
}

fn add_ancestor_reasons(out: &mut Vec<KinshipReason>, es: &Vec<Edge>, a: &String)
    requires
        es@.len() + 2 < u32::MAX,
    ensures
        reason_views(final(out)@) == reason_views(old(out)@) + ancestor_reasons(edge_views(es@), a@),
{
    let ghost ev = edge_views(es@);
    let ghost base = reason_views(out@);
    let mut level = first_level(es, a);
    let mut seen: Vec<String> = Vec::new();
    let mut fuel: usize = es.len() + 1;
    let mut d: u32 = 1;
    assert(texts(seen@) =~= seq![]);
    assert(base + ancestor_reasons(ev, a@) == reason_views(out@) + walk(ev, a@, item_views(level@), texts(seen@), fuel as nat));
    while fuel > 0 && level.len() > 0
        invariant
            ev == edge_views(es@),
            es@.len() + 2 < u32::MAX,
            d as int + fuel as int == es@.len() + 2,
            1 <= d,
            forall|q: int| 0 <= q < level@.len() ==> (#[trigger] item_views(level@)[q]).depth == d,
            base == reason_views(old(out)@),
            base + ancestor_reasons(ev, a@) == reason_views(out@) + walk(ev, a@, item_views(level@), texts(seen@), fuel as nat),
        decreases fuel,
    {
        let ghost ro = reason_views(out@);
        let ghost lv = item_views(level@);
        let ghost sv = texts(seen@);
        let next = walk_one(out, es, a, &level, &mut seen, d);
        let ghost (o, v, n) = walk_level(ev, a@, lv, sv);
        assert(walk(ev, a@, lv, sv, fuel as nat) == o + walk(ev, a@, n, v, (fuel - 1) as nat));
        assert(ro + (o + walk(ev, a@, n, v, (fuel - 1) as nat)) =~= (ro + o) + walk(ev, a@, n, v, (fuel - 1) as nat));
        level = next;
        fuel = fuel - 1;
        d = d + 1;
    }
    assert(walk(ev, a@, item_views(level@), texts(seen@), fuel as nat) =~= seq![]);
    assert(reason_views(out@) + seq![] =~= reason_views(out@));
}

// ---------------------------------------------------------------------------
// All reasons, and the derived relationships.

fn add_sibling_section(out: &mut Vec<KinshipReason>, dirs: &Vec<Direct>, es: &Vec<Edge>, ps: &Vec<String>)
    ensures
        reason_views(final(out)@) == reason_views(old(out)@) + sibling_section(edge_views(es@), direct_views(dirs@), texts(ps@)),
{
    let ghost pv = texts(ps@);
    let ghost base = reason_views(out@);
    let mut q: usize = 0;
    assert(reason_views(out@) =~= base + sibling_section(edge_views(es@), direct_views(dirs@), pv.take(0)));
    while q < ps.len()
        invariant
            q <= ps@.len(),
            pv == texts(ps@),
            base == reason_views(old(out)@),
            reason_views(out@) == base + sibling_section(edge_views(es@), direct_views(dirs@), pv.take(q as int)),
        decreases ps@.len() - q,
    {
        let ks = kids_of(es, ps[q].as_str());
        let ghost before = reason_views(out@);
        add_sibling_reasons(out, dirs, &ks);
        assert(pv.take(q + 1).drop_last() =~= pv.take(q as int));
        assert(pv.take(q + 1).last() == ps@[q as int]@);
        assert(reason_views(out@) =~= base + sibling_section(edge_views(es@), direct_views(dirs@), pv.take(q + 1)));
        q = q + 1;
    }
    assert(pv.take(q as int) =~= pv);
}

fn add_grandparent_section(out: &mut Vec<KinshipReason>, es: &Vec<Edge>, ps: &Vec<String>)
    ensures
        reason_views(final(out)@) == reason_views(old(out)@) + grandparent_section(edge_views(es@), texts(ps@)),
{
    let ghost pv = texts(ps@);
    let ghost base = reason_views(out@);
    let mut q: usize = 0;
    assert(reason_views(out@) =~= base + grandparent_section(edge_views(es@), pv.take(0)));
    while q < ps.len()
        invariant
            q <= ps@.len(),
            pv == texts(ps@),
            base == reason_views(old(out)@),
            reason_views(out@) == base + grandparent_section(edge_views(es@), pv.take(q as int)),
        decreases ps@.len() - q,
    {
        let ks = kids_of(es, ps[q].as_str());
        add_grandparent_reasons(out, es, &ps[q], &ks);
        assert(pv.take(q + 1).drop_last() =~= pv.take(q as int));
        assert(pv.take(q + 1).last() == ps@[q as int]@);
        assert(reason_views(out@) =~= base + grandparent_section(edge_views(es@), pv.take(q + 1)));
        q = q + 1;
    }
    assert(pv.take(q as int) =~= pv);
}

fn add_ancestor_section(out: &mut Vec<KinshipReason>, es: &Vec<Edge>, ps: &Vec<String>)
    requires
        es@.len() + 2 < u32::MAX,
    ensures
        reason_views(final(out)@) == reason_views(old(out)@) + ancestor_section(edge_views(es@), texts(ps@)),
{
    let ghost pv = texts(ps@);
    let ghost base = reason_views(out@);
    let mut q: usize = 0;
    assert(reason_views(out@) =~= base + ancestor_section(edge_views(es@), pv.take(0)));
    while q < ps.len()
        invariant
            q <= ps@.len(),
            es@.len() + 2 < u32::MAX,
            pv == texts(ps@),
            base == reason_views(old(out)@),
            reason_views(out@) == base + ancestor_section(edge_views(es@), pv.take(q as int)),
        decreases ps@.len() - q,
    {
        add_ancestor_reasons(out, es, &ps[q]);
        assert(pv.take(q + 1).drop_last() =~= pv.take(q as int));
        assert(pv.take(q + 1).last() == ps@[q as int]@);
        assert(reason_views(out@) =~= base + ancestor_section(edge_views(es@), pv.take(q + 1)));
        q = q + 1;
    }
    assert(pv.take(q as int) =~= pv);
}

fn links_of(es: &Vec<Edge>, ps: &Vec<String>) -> (r: Vec<Link>)
    ensures
        link_views(r@) == links_section(edge_views(es@), texts(ps@)),
{
    let ghost pv = texts(ps@);
    let ghost ev = edge_views(es@);
    let mut links: Vec<Link> = Vec::new();
    let mut q: usize = 0;
    assert(link_views(links@) =~= links_section(ev, pv.take(0)));
    while q < ps.len()
        invariant
            q <= ps@.len(),
            pv == texts(ps@),
            ev == edge_views(es@),
            link_views(links@) == links_section(ev, pv.take(q as int)),
        decreases ps@.len() - q,
    {
        let ks = kids_of(es, ps[q].as_str());
        let ghost kv = edge_views(ks@);
        let ghost start = link_views(links@);
        let n = ks.len();
        let mut i: usize = 0;
        assert(links_from(start, pairs_upto(kv, 0)) == start);
        while i < n
            invariant
                n == ks@.len(),
                i <= n,
                kv == edge_views(ks@),
                link_views(links@) == links_from(start, pairs_upto(kv, i as int)),
            decreases n - i,
        {
            let ghost done = pairs_upto(kv, i as int);
            let mut j: usize = i + 1;
            assert(done + row(kv, i as int).take(0) =~= done);
            while j < n
                invariant
                    n == ks@.len(),
                    i < n,
                    i + 1 <= j <= n,
                    kv == edge_views(ks@),
                    done == pairs_upto(kv, i as int),
                    link_views(links@) == links_from(start, done + row(kv, i as int).take(j - i - 1)),
                decreases n - j,
            {
                let ghost sp = done + row(kv, i as int).take(j - i - 1);
                let ghost sq = done + row(kv, i as int).take(j - i);
                assert(row(kv, i as int)[j - i - 1] == (kv[i as int], kv[j as int]));
                assert(sq =~= sp.push((kv[i as int], kv[j as int])));
                assert(sq.drop_last() =~= sp);
                assert(kv[i as int] == ks@[i as int]@ && kv[j as int] == ks@[j as int]@);
                let x = new_link(&ks[i], &ks[j]);
                add_link_exec(&mut links, x);
                j = j + 1;
            }
            assert(row(kv, i as int).take(n - i - 1) =~= row(kv, i as int));
            i = i + 1;
        }
        assert(pv.take(q + 1).drop_last() =~= pv.take(q as int));
        assert(pv.take(q + 1).last() == ps@[q as int]@);
        q = q + 1;
    }
    assert(pv.take(q as int) =~= pv);
    links
}

fn add_aunt_uncle_section(out: &mut Vec<KinshipReason>, es: &Vec<Edge>, links: &Vec<Link>)
    ensures
        reason_views(final(out)@) == reason_views(old(out)@) + aunt_uncle_section(edge_views(es@), link_views(links@)),
{
    let ghost lv = link_views(links@);
    let ghost ev = edge_views(es@);
    let ghost base = reason_views(out@);
    let mut q: usize = 0;
    assert(reason_views(out@) =~= base + aunt_uncle_section(ev, lv.take(0)));
    while q < links.len()
        invariant
            q <= links@.len(),
            lv == link_views(links@),
            ev == edge_views(es@),
            base == reason_views(old(out)@),
            reason_views(out@) == base + aunt_uncle_section(ev, lv.take(q as int)),
        decreases links@.len() - q,
    {
        let k = &links[q];
        let ghost kv = k@;
        assert(lv.take(q + 1).drop_last() =~= lv.take(q as int));
        assert(lv.take(q + 1).last() == kv);
        let ghost b0 = reason_views(out@);
        let rk = kids_of(es, k.right.as_str());
        add_aunt_uncle_reasons(out, &k.left, &k.ids, &rk);
        let lk = kids_of(es, k.left.as_str());
        add_aunt_uncle_reasons(out, &k.right, &k.ids, &lk);
        assert(reason_views(out@) =~= base + aunt_uncle_section(ev, lv.take(q + 1)));
        q = q + 1;
    }
    assert(lv.take(q as int) =~= lv);
}

fn add_cousin_section(out: &mut Vec<KinshipReason>, es: &Vec<Edge>, links: &Vec<Link>)
    ensures
        reason_views(final(out)@) == reason_views(old(out)@) + cousin_section(edge_views(es@), link_views(links@)),
{
    let ghost lv = link_views(links@);
    let ghost ev = edge_views(es@);
    let ghost base = reason_views(out@);
    let mut q: usize = 0;
    assert(reason_views(out@) =~= base + cousin_section(ev, lv.take(0)));
    while q < links.len()
        invariant
            q <= links@.len(),
            lv == link_views(links@),
            ev == edge_views(es@),
            base == reason_views(old(out)@),
            reason_views(out@) == base + cousin_section(ev, lv.take(q as int)),
        decreases links@.len() - q,
    {
        let k = &links[q];
        assert(lv.take(q + 1).drop_last() =~= lv.take(q as int));
        assert(lv.take(q + 1).last() == k@);
        let lk = kids_of(es, k.left.as_str());
        let rk = kids_of(es, k.right.as_str());
        add_cousin_reasons(out, &k.ids, &lk, &rk);
        assert(reason_views(out@) =~= base + cousin_section(ev, lv.take(q + 1)));
        q = q + 1;
    }
    assert(lv.take(q as int) =~= lv);
}

/// Every reason for a derived relationship in a world, in the order they
/// are found: siblings, grandparents, ancestors, aunts and uncles, cousins.
pub open spec fn kinship_reasons(ds: Seq<LocalTomlDocument>) -> Seq<Contribution> {
    let dirs = directs(ds);
    let es = edges(dirs);
    let ps = parents_sorted(es);
    let links = links_section(es, ps);
    sibling_section(es, dirs, ps) + grandparent_section(es, ps) + ancestor_section(es, ps) + aunt_uncle_section(es, links)
        + cousin_section(es, links)
}

/// The kinship relationships of a world.
pub open spec fn derived_kinship(ds: Seq<LocalTomlDocument>) -> Seq<DerivedView> {
    fold_derived(seq![], kinship_reasons(ds))
}

proof fn lemma_directs_len(ds: Seq<LocalTomlDocument>)
    ensures
        directs(ds).len() <= ds.len(),
    decreases ds.len(),
{
    if ds.len() > 0 {
        lemma_directs_len(ds.drop_last());
    }
}

proof fn lemma_edges_len(dirs: Seq<DirectView>)
    ensures
        edges(dirs).len() <= dirs.len(),
    decreases dirs.len(),
{
    if dirs.len() > 0 {
        lemma_edges_len(dirs.drop_last());
    }
}

/// The kinship that follows from the parent/child relationships of a world:
/// siblings (unless recorded by hand), grandparents, ancestors, aunts and
/// uncles, and cousins, each relationship once, sorted by kind, source and
/// target, with its nearest depth and every relationship id it follows from.
pub fn infer_local_kinship_relationships(bundle: &LocalDataBundle) -> (r: Vec<LocalDerivedKinshipRelationship>)
    requires
        bundle.toml_documents@.len() + 2 < u32::MAX,
    ensures
        derived_views(r@) == derived_kinship(bundle.toml_documents@),
{
    let dirs = read_directs(&bundle.toml_documents);
    let es = edges_of(&dirs);
    proof {
        lemma_directs_len(bundle.toml_documents@);
        lemma_edges_len(direct_views(dirs@));
    }
    let ps = parents_of(&es);
    let mut reasons: Vec<KinshipReason> = Vec::new();
    assert(reason_views(reasons@) =~= seq![]);
    add_sibling_section(&mut reasons, &dirs, &es, &ps);
    add_grandparent_section(&mut reasons, &es, &ps);
    add_ancestor_section(&mut reasons, &es, &ps);
    let links = links_of(&es, &ps);
    add_aunt_uncle_section(&mut reasons, &es, &links);
    add_cousin_section(&mut reasons, &es, &links);
    assert(reason_views(reasons@) =~= kinship_reasons(bundle.toml_documents@));
    fold_reasons(&reasons)
}

// ---------------------------------------------------------------------------
// The walk is never cut short.

pub open spec fn is_child(es: Seq<EdgeView>, x: Seq<char>) -> bool {
    exists|i: int| #![trigger es[i]] 0 <= i < es.len() && es[i].child == x
}

/// The generation left after `fuel` generations of the walk.
pub open spec fn walk_rest(es: Seq<EdgeView>, a: Seq<char>, level: Seq<ItemView>, seen: Seq<Seq<char>>, fuel: nat) -> Seq<ItemView>
    decreases fuel,
{
    if fuel == 0 || level.len() == 0 {
        level
    } else {
        let (o, v, n) = walk_level(es, a, level, seen);
        walk_rest(es, a, n, v, (fuel - 1) as nat)
    }
}

proof fn lemma_kids_are_children(es: Seq<EdgeView>, p: Seq<char>, k: int)
    requires
        0 <= k < kids(es, p).len(),
    ensures
        is_child(es, kids(es, p)[k].child),
    decreases es.len(),
{
    let pre = kids(es.drop_last(), p);
    if k < pre.len() {
        lemma_kids_are_children(es.drop_last(), p, k);
        let i = choose|i: int| 0 <= i < es.drop_last().len() && es.drop_last()[i].child == pre[k].child;
        assert(es[i] == es.drop_last()[i]);
    } else {
        assert(es[es.len() - 1] == es.last());
    }
}

proof fn lemma_walk_level(es: Seq<EdgeView>, a: Seq<char>, level: Seq<ItemView>, seen: Seq<Seq<char>>)
    requires
        seen.no_duplicates(),
        forall|k: int| 0 <= k < seen.len() ==> is_child(es, #[trigger] seen[k]),
        forall|k: int| 0 <= k < level.len() ==> is_child(es, (#[trigger] level[k]).person),
    ensures
        walk_level(es, a, level, seen).1.no_duplicates(),
        forall|k: int| 0 <= k < walk_level(es, a, level, seen).1.len()
            ==> is_child(es, #[trigger] walk_level(es, a, level, seen).1[k]),
        forall|k: int| 0 <= k < walk_level(es, a, level, seen).2.len()
            ==> is_child(es, (#[trigger] walk_level(es, a, level, seen).2[k]).person),
        walk_level(es, a, level, seen).1.len() >= seen.len(),
        walk_level(es, a, level, seen).2.len() > 0 ==> walk_level(es, a, level, seen).1.len() > seen.len(),
    decreases level.len(),
{
    if level.len() > 0 {
        let pre = level.drop_last();
        assert forall|k: int| 0 <= k < pre.len() implies is_child(es, (#[trigger] pre[k]).person) by {
            assert(pre[k] == level[k]);
        }
        lemma_walk_level(es, a, pre, seen);
        let (o, v, n) = walk_level(es, a, pre, seen);
        let it = level.last();
        assert(level[level.len() - 1] == it);
        if !v.contains(it.person) {
            let v2 = v.push(it.person);
            assert forall|x: int, y: int| 0 <= x < v2.len() && 0 <= y < v2.len() && x != y implies v2[x] != v2[y] by {
                if x == v.len() {
                    assert(v2[y] == v[y]);
                } else if y == v.len() {
                    assert(v2[x] == v[x]);
                }
            }
            assert forall|k: int| 0 <= k < v2.len() implies is_child(es, #[trigger] v2[k]) by {
                if k < v.len() {
                    assert(v2[k] == v[k]);
                }
            }
            let ni = next_items(es, it);
            let n2 = n + ni;
            assert forall|k: int| 0 <= k < n2.len() implies is_child(es, (#[trigger] n2[k]).person) by {
                if k < n.len() {
                    assert(n2[k] == n[k]);
                } else {
                    assert(n2[k] == ni[k - n.len()]);
                    lemma_kids_are_children(es, it.person, k - n.len());
                }
            }
        }
    }
}

proof fn lemma_seen_bounded(es: Seq<EdgeView>, seen: Seq<Seq<char>>)
    requires
        seen.no_duplicates(),
        forall|k: int| 0 <= k < seen.len() ==> is_child(es, #[trigger] seen[k]),
    ensures
        seen.len() <= es.len(),
{
    let cs = es.map_values(|e: EdgeView| e.child);
    seen.unique_seq_to_set();
    cs.lemma_cardinality_of_set();
    assert forall|x: Seq<char>| seen.to_set().contains(x) implies cs.to_set().contains(x) by {
        let k = choose|k: int| 0 <= k < seen.len() && seen[k] == x;
        assert(is_child(es, seen[k]));
        let i = choose|i: int| 0 <= i < es.len() && es[i].child == x;
        assert(cs[i] == x);
    }
    vstd::set_lib::lemma_len_subset(seen.to_set(), cs.to_set());
}

proof fn lemma_walk_rest_empty(es: Seq<EdgeView>, a: Seq<char>, level: Seq<ItemView>, seen: Seq<Seq<char>>, fuel: nat)
    requires
        seen.no_duplicates(),
        forall|k: int| 0 <= k < seen.len() ==> is_child(es, #[trigger] seen[k]),
        forall|k: int| 0 <= k < level.len() ==> is_child(es, (#[trigger] level[k]).person),
        level.len() > 0 ==> seen.len() + fuel > es.len(),
    ensures
        walk_rest(es, a, level, seen, fuel).len() == 0,
    decreases fuel,
{
    if level.len() > 0 {
        if fuel == 0 {
            lemma_seen_bounded(es, seen);
        } else {
            lemma_walk_level(es, a, level, seen);
            let (o, v, n) = walk_level(es, a, level, seen);
            lemma_walk_rest_empty(es, a, n, v, (fuel - 1) as nat);
        }
    }
}

/// Law: the walk down from a parent, given one generation more than there
/// are relationships, has no one left to visit when it stops: it reaches
/// every descendant, as a walk without a limit would.
pub proof fn law_walk_reaches_every_descendant(es: Seq<EdgeView>, a: Seq<char>)
    ensures
        walk_rest(es, a, first_items(es, a), seq![], (es.len() + 1) as nat).len() == 0,
{
    let l = first_items(es, a);
    assert forall|k: int| 0 <= k < l.len() implies is_child(es, (#[trigger] l[k]).person) by {
        lemma_kids_are_children(es, a, k);
    }
    let empty: Seq<Seq<char>> = seq![];
    assert(empty.no_duplicates());
    lemma_walk_rest_empty(es, a, l, empty, (es.len() + 1) as nat);
}

// ---------------------------------------------------------------------------
// Each derived relationship once, in key order.

pub open spec fn keys_sorted(m: Seq<DerivedView>) -> bool {
    forall|i: int, j: int| 0 <= i < j < m.len()
        ==> key_lt(#[trigger] m[i].kind, m[i].source, m[i].target, #[trigger] m[j].kind, m[j].source, m[j].target)
}

pub open spec fn links_two_people(m: Seq<DerivedView>) -> bool {
    forall|i: int| 0 <= i < m.len() ==> (#[trigger] m[i]).source != m[i].target
}

proof fn lemma_key_transitive(
    k1: Seq<char>, s1: Seq<char>, t1: Seq<char>,
    k2: Seq<char>, s2: Seq<char>, t2: Seq<char>,
    k3: Seq<char>, s3: Seq<char>, t3: Seq<char>,
)
    requires
        key_lt(k1, s1, t1, k2, s2, t2),
        key_lt(k2, s2, t2, k3, s3, t3),
    ensures
        key_lt(k1, s1, t1, k3, s3, t3),
{
    if text_lt(k1, k2) && text_lt(k2, k3) {
        lemma_text_lt_transitive(k1, k2, k3);
    }
    if k1 == k2 && k2 == k3 {
        if text_lt(s1, s2) && text_lt(s2, s3) {
            lemma_text_lt_transitive(s1, s2, s3);
        }
        if s1 == s2 && s2 == s3 && text_lt(t1, t2) && text_lt(t2, t3) {
            lemma_text_lt_transitive(t1, t2, t3);
        }
    }
}

proof fn lemma_key_total(k1: Seq<char>, s1: Seq<char>, t1: Seq<char>, k2: Seq<char>, s2: Seq<char>, t2: Seq<char>)
    requires
        !(k1 == k2 && s1 == s2 && t1 == t2),
    ensures
        key_lt(k1, s1, t1, k2, s2, t2) || key_lt(k2, s2, t2, k1, s1, t1),
{
    if k1 != k2 {
        lemma_text_lt_total(k1, k2);
    } else if s1 != s2 {
        lemma_text_lt_total(s1, s2);
    } else {
        lemma_text_lt_total(t1, t2);
    }
}

proof fn lemma_insert_derived_sorted(m: Seq<DerivedView>, c: Contribution)
    requires
        keys_sorted(m),
        links_two_people(m),
    ensures
        keys_sorted(insert_derived(m, c)),
        links_two_people(insert_derived(m, c)),
{
    if c.source != c.target {
        let p = find_pos(m, c);
        lemma_find_pos(m, c);
        let r = insert_derived(m, c);
        if p < m.len() && m[p].kind == c.kind && m[p].source == c.source && m[p].target == c.target {
            assert forall|i: int, j: int| 0 <= i < j < r.len()
                implies key_lt(#[trigger] r[i].kind, r[i].source, r[i].target, #[trigger] r[j].kind, r[j].source, r[j].target) by {
                assert(key_lt(m[i].kind, m[i].source, m[i].target, m[j].kind, m[j].source, m[j].target));
            }
            assert forall|i: int| 0 <= i < r.len() implies (#[trigger] r[i]).source != r[i].target by {
                assert(m[i].source != m[i].target);
            }
        } else {
            if p < m.len() {
                lemma_key_total(c.kind, c.source, c.target, m[p].kind, m[p].source, m[p].target);
            }
            let x = DerivedView { kind: c.kind, source: c.source, target: c.target, depth: c.depth, ids: merged_ids(seq![], c.ids) };
            assert(r == m.insert(p, x));
            assert forall|i: int, j: int| 0 <= i < j < r.len()
                implies key_lt(#[trigger] r[i].kind, r[i].source, r[i].target, #[trigger] r[j].kind, r[j].source, r[j].target) by {
                if j < p {
                    assert(r[i] == m[i] && r[j] == m[j]);
                } else if j == p {
                    assert(r[i] == m[i]);
                } else if i == p {
                    assert(r[j] == m[j - 1]);
                    if j - 1 > p {
                        assert(key_lt(m[p].kind, m[p].source, m[p].target, m[j - 1].kind, m[j - 1].source, m[j - 1].target));
                        lemma_key_transitive(c.kind, c.source, c.target, m[p].kind, m[p].source, m[p].target,
                            m[j - 1].kind, m[j - 1].source, m[j - 1].target);
                    }
                } else if i < p {
                    assert(r[i] == m[i] && r[j] == m[j - 1]);
                    assert(key_lt(m[i].kind, m[i].source, m[i].target, m[j - 1].kind, m[j - 1].source, m[j - 1].target));
                } else {
                    assert(r[i] == m[i - 1] && r[j] == m[j - 1]);
                    assert(key_lt(m[i - 1].kind, m[i - 1].source, m[i - 1].target, m[j - 1].kind, m[j - 1].source, m[j - 1].target));
                }
            }
            assert forall|i: int| 0 <= i < r.len() implies (#[trigger] r[i]).source != r[i].target by {
                if i < p {
                    assert(r[i] == m[i]);
                } else if i > p {
                    assert(r[i] == m[i - 1]);
                }
            }
        }
    }
}

proof fn lemma_fold_sorted(cs: Seq<Contribution>)
    ensures
        keys_sorted(fold_derived(seq![], cs)),
        links_two_people(fold_derived(seq![], cs)),
    decreases cs.len(),
{
    if cs.len() > 0 {
        lemma_fold_sorted(cs.drop_last());
        lemma_insert_derived_sorted(fold_derived(seq![], cs.drop_last()), cs.last());
    }
}

/// Law: each derived relationship is listed once, in order of kind, source
/// and target, and links two different people.
pub proof fn law_derived_kinship_once_in_order(ds: Seq<LocalTomlDocument>)
    ensures
        keys_sorted(derived_kinship(ds)),
        links_two_people(derived_kinship(ds)),
{
    lemma_fold_sorted(kinship_reasons(ds));
}

} // verus!
