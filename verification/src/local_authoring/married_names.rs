//! Married-name defaults: a woman with one current husband takes his
//! surname in her preferred name, unless her record writes its own.
use vstd::prelude::*;
use crate::local_authoring::data::{deref_opt, LocalMarkdownRecord};
use crate::local_authoring::summary::opt_string;
use crate::local_authoring::tree_compile::{
    deref_records, find_person, format_parts, format_parts_of, opt_order, person_index,
    sex_for_key, sex_for_key_of,
};
use crate::model::{Name, Person, PersonId, Sex};
use crate::text::str_eq;
use crate::tree::{ParentRole, RelationshipKind, TreeRelationship};

verus! {

/// The key of a person: the id of its record, when no later person record
/// has the same id.
pub open spec fn key_of(prs: Seq<LocalMarkdownRecord>, p: PersonId) -> Option<Seq<char>> {
    let k = p.0 - 1;
    if 0 <= k < prs.len() && person_index(prs, prs[k].id@) == Some(k) {
        Some(prs[k].id@)
    } else {
        None
    }
}

/// The sex a parent role implies: a father is male, a mother female.
pub open spec fn role_sex(r: Option<ParentRole>) -> Option<Sex> {
    match r {
        Some(ParentRole::Father) => Some(Sex::Male),
        Some(ParentRole::Mother) => Some(Sex::Female),
        _ => None,
    }
}

/// The sex implied by the first relationship from the person of `key` that
/// names a father or a mother.
pub open spec fn role_sex_of(rels: Seq<TreeRelationship>, prs: Seq<LocalMarkdownRecord>, key: Seq<char>) -> Option<Sex>
    decreases rels.len(),
{
    if rels.len() == 0 {
        None
    } else {
        match role_sex_of(rels.drop_last(), prs, key) {
            Some(s) => Some(s),
            None => if role_sex(rels.last().parent_role) is Some && key_of(prs, rels.last().source) == Some(key) {
                role_sex(rels.last().parent_role)
            } else {
                None
            },
        }
    }
}

/// A person's sex as the record gives it, else as a parent role implies it.
pub open spec fn effective_sex(prs: Seq<LocalMarkdownRecord>, rels: Seq<TreeRelationship>, key: Seq<char>) -> Option<Sex> {
    match sex_for_key(prs, key) {
        Some(s) => Some(s),
        None => role_sex_of(rels, prs, key),
    }
}

/// Some relationship says that `a` and `b` are former spouses.
pub open spec fn is_former_pair(rels: Seq<TreeRelationship>, a: PersonId, b: PersonId) -> bool {
    exists|j: int| 0 <= j < rels.len() && #[trigger] former_between(rels[j], a, b)
}

pub open spec fn former_between(r: TreeRelationship, a: PersonId, b: PersonId) -> bool {
    r.kind == RelationshipKind::FormerSpouse && ((r.source == a && r.target == b) || (r.source == b && r.target == a))
}

/// The spouse whose surname relationship `r` offers to `p`: a current
/// marriage of a woman and a man, she being `p`.
pub open spec fn surname_source(r: TreeRelationship, all: Seq<TreeRelationship>, prs: Seq<LocalMarkdownRecord>, p: PersonId) -> Option<PersonId> {
    if r.kind == RelationshipKind::Spouse && !is_former_pair(all, r.source, r.target)
        && key_of(prs, r.source) is Some && key_of(prs, r.target) is Some {
        let ss = effective_sex(prs, all, key_of(prs, r.source).unwrap());
        let st = effective_sex(prs, all, key_of(prs, r.target).unwrap());
        if ss == Some(Sex::Female) && st == Some(Sex::Male) && r.source == p {
            Some(r.target)
        } else if ss == Some(Sex::Male) && st == Some(Sex::Female) && r.target == p {
            Some(r.source)
        } else {
            None
        }
    } else {
        None
    }
}

/// The same relationship written the other way round.
pub open spec fn reversed(r: TreeRelationship) -> TreeRelationship {
    TreeRelationship { source: r.target, target: r.source, ..r }
}

proof fn lemma_former_pair_symmetric(rels: Seq<TreeRelationship>, a: PersonId, b: PersonId)
    ensures
        is_former_pair(rels, a, b) == is_former_pair(rels, b, a),
{
    if is_former_pair(rels, a, b) {
        let j = choose|j: int| 0 <= j < rels.len() && #[trigger] former_between(rels[j], a, b);
        assert(former_between(rels[j], b, a));
    }
    if is_former_pair(rels, b, a) {
        let j = choose|j: int| 0 <= j < rels.len() && #[trigger] former_between(rels[j], b, a);
        assert(former_between(rels[j], a, b));
    }
}

/// A current marriage of a woman and a man offers her his surname whichever
/// of the two is written as the source: the spouse a spouse relationship
/// offers anyone is the same when the relationship is written the other way
/// round, and for a current marriage of a keyed woman to a keyed man it is
/// the man that is offered to the woman.
pub proof fn law_surname_source_either_way(r: TreeRelationship, all: Seq<TreeRelationship>, prs: Seq<LocalMarkdownRecord>, p: PersonId)
    requires
        r.kind == RelationshipKind::Spouse,
    ensures
        surname_source(r, all, prs, p) == surname_source(reversed(r), all, prs, p),
        !is_former_pair(all, r.source, r.target) && key_of(prs, r.source) is Some && key_of(prs, r.target) is Some
            && effective_sex(prs, all, key_of(prs, r.source).unwrap()) == Some(Sex::Female)
            && effective_sex(prs, all, key_of(prs, r.target).unwrap()) == Some(Sex::Male)
            ==> surname_source(r, all, prs, r.source) == Some(r.target)
                && surname_source(reversed(r), all, prs, r.source) == Some(r.target),
{
    lemma_former_pair_symmetric(all, r.source, r.target);
}

/// Only a current marriage offers a surname, and what it offers a person is
/// the other end of the marriage: no other kind of relationship, and no
/// couple that some relationship calls former spouses, offers one.
pub proof fn law_only_current_marriages_offer_surnames(r: TreeRelationship, all: Seq<TreeRelationship>, prs: Seq<LocalMarkdownRecord>, p: PersonId)
    ensures
        r.kind != RelationshipKind::Spouse ==> surname_source(r, all, prs, p) is None,
        is_former_pair(all, r.source, r.target) ==> surname_source(r, all, prs, p) is None,
        surname_source(r, all, prs, p) matches Some(s)
            ==> (p == r.source && s == r.target) || (p == r.target && s == r.source),
{
}

/// The spouses that offer `p` a surname, in relationship order.
pub open spec fn surname_sources(rels: Seq<TreeRelationship>, all: Seq<TreeRelationship>, prs: Seq<LocalMarkdownRecord>, p: PersonId) -> Seq<PersonId>
    decreases rels.len(),
{
    if rels.len() == 0 {
        seq![]
    } else {
        surname_sources(rels.drop_last(), all, prs, p) + match surname_source(rels.last(), all, prs, p) {
            Some(s) => seq![s],
            None => seq![],
        }
    }
}

pub open spec fn is_preferred(n: Name) -> bool {
    opt_string(n.usage) == Some("preferred"@)
}

/// The first name used as the preferred one.
pub open spec fn first_preferred(ns: Seq<Name>) -> Option<int>
    decreases ns.len(),
{
    if ns.len() == 0 {
        None
    } else {
        match first_preferred(ns.drop_last()) {
            Some(i) => Some(i),
            None => if is_preferred(ns.last()) { Some(ns.len() - 1) } else { None },
        }
    }
}

/// The first surname among the names.
pub open spec fn first_surname(ns: Seq<Name>) -> Option<Seq<char>>
    decreases ns.len(),
{
    if ns.len() == 0 {
        None
    } else {
        match first_surname(ns.drop_last()) {
            Some(s) => Some(s),
            None => opt_string(ns.last().surname),
        }
    }
}

/// A person's surname: that of the preferred name, else the first one.
pub open spec fn primary_surname(ns: Seq<Name>) -> Option<Seq<char>> {
    match first_preferred(ns) {
        Some(i) => if ns[i].surname is Some { opt_string(ns[i].surname) } else { first_surname(ns) },
        None => first_surname(ns),
    }
}

/// The name a married surname goes into: the preferred one, else the first.
pub open spec fn preferred_index(ns: Seq<Name>) -> Option<int> {
    match first_preferred(ns) {
        Some(i) => Some(i),
        None => if ns.len() > 0 { Some(0) } else { None },
    }
}

/// The record writes the surname of its preferred name itself.
pub open spec fn explicit_surname(r: LocalMarkdownRecord) -> bool {
    r.explicit_preferred_surname
}

/// The display of a name may be rebuilt around a new family name: its
/// order is unknown or puts given names first.
pub open spec fn rewrites_display(n: Name) -> bool {
    match opt_order(n.order) {
        Some(o) => o == "given-middle-family"@,
        None => true,
    }
}

/// `m` is `n` with the surname `s`, its display rebuilt where it may be.
pub open spec fn married_name(m: Name, n: Name, s: Seq<char>) -> bool {
    &&& opt_string(m.surname) == Some(s)
    &&& m.usage == n.usage
    &&& m.full == n.full
    &&& m.given == n.given
    &&& m.middle == n.middle
    &&& m.order == n.order
    &&& m.aliases == n.aliases
    &&& m.provenance == n.provenance
    &&& m.display@ == if rewrites_display(n) {
        match format_parts(opt_order(n.order), opt_string(n.given), opt_string(n.middle), Some(s)) {
            Some(d) => d,
            None => n.display@,
        }
    } else {
        n.display@
    }
}

/// The surname person `k` takes from a spouse, when one changes its name.
pub open spec fn married_surname(people: Seq<Person>, prs: Seq<LocalMarkdownRecord>, rels: Seq<TreeRelationship>, k: int) -> Option<Seq<char>> {
    let srcs = surname_sources(rels, rels, prs, PersonId((k + 1) as u64));
    if srcs.len() == 1 && key_of(prs, PersonId((k + 1) as u64)) is Some && !explicit_surname(prs[k]) {
        let j = srcs[0].0 - 1;
        match primary_surname(people[j].names@) {
            Some(s) => match preferred_index(people[k].names@) {
                Some(i) => if opt_string(people[k].names@[i].surname) == Some(s) { None } else { Some(s) },
                None => None,
            },
            None => None,
        }
    } else {
        None
    }
}

/// `q` is person `p` after the married-name default, `m` being the surname
/// it takes, if any.
pub open spec fn person_after(q: Person, p: Person, m: Option<Seq<char>>) -> bool {
    &&& q.id == p.id
    &&& q.sex == p.sex
    &&& q.events == p.events
    &&& q.families_as_child == p.families_as_child
    &&& q.families_as_spouse == p.families_as_spouse
    &&& q.notes == p.notes
    &&& q.source_record == p.source_record
    &&& q.provenance == p.provenance
    &&& match m {
        None => q.names@ == p.names@,
        Some(s) => {
            let i = preferred_index(p.names@).unwrap();
            &&& q.names@.len() == p.names@.len()
            &&& forall|j: int| 0 <= j < p.names@.len() && j != i ==> q.names@[j] == p.names@[j]
            &&& married_name(q.names@[i], p.names@[i], s)
        },
    }
}

// ---------------------------------------------------------------------------
// Executable steps.

fn key_index(prs: &Vec<&LocalMarkdownRecord>, p: PersonId) -> (r: Option<usize>)
    ensures
        match r {
            Some(k) => k as int == p.0 - 1 && k < prs@.len() && key_of(deref_records(prs@), p) == Some(prs@[k as int].id@),
            None => key_of(deref_records(prs@), p) is None,
        },
{
    if p.0 == 0 || p.0 - 1 >= prs.len() as u64 {
        return None;
    }
    let k = (p.0 - 1) as usize;
    proof {
        assert(deref_records(prs@)[k as int] == *prs@[k as int]);
    }
    match find_person(prs, prs[k].id.as_str()) {
        Some(i) => if i == k { Some(k) } else { None },
        None => None,
    }
}

fn role_sex_exec(r: Option<ParentRole>) -> (s: Option<Sex>)
    ensures
        s == role_sex(r),
{
    match r {
        Some(ParentRole::Father) => Some(Sex::Male),
        Some(ParentRole::Mother) => Some(Sex::Female),
        _ => None,
    }
}

fn effective_sex_of(prs: &Vec<&LocalMarkdownRecord>, rels: &Vec<TreeRelationship>, key: &str) -> (s: Option<Sex>)
    ensures
        s == effective_sex(deref_records(prs@), rels@, key@),
{
    let ghost all = deref_records(prs@);
    let own = sex_for_key_of(prs, key);
    if own.is_some() {
        return own;
    }
    let mut found: Option<Sex> = None;
    let mut i: usize = 0;
    while i < rels.len()
        invariant
            i <= rels@.len(),
            all == deref_records(prs@),
            found == role_sex_of(rels@.take(i as int), all, key@),
        decreases rels@.len() - i,
    {
        assert(rels@.take(i as int + 1).drop_last() =~= rels@.take(i as int));
        if found.is_none() {
            let rs = role_sex_exec(rels[i].parent_role);
            if rs.is_some() {
                match key_index(prs, rels[i].source) {
                    Some(k) => {
                        if str_eq(prs[k].id.as_str(), key) {
                            found = rs;
                        }
                    },
                    None => {},
                }
            }
        }
        i += 1;
    }
    assert(rels@.take(rels@.len() as int) =~= rels@);
    found
}

fn is_former_pair_of(rels: &Vec<TreeRelationship>, a: PersonId, b: PersonId) -> (r: bool)
    ensures
        r == is_former_pair(rels@, a, b),
{
    let mut i: usize = 0;
    while i < rels.len()
        invariant
            i <= rels@.len(),
            forall|j: int| 0 <= j < i ==> !#[trigger] former_between(rels@[j], a, b),
        decreases rels@.len() - i,
    {
        let r = &rels[i];
        let former = match r.kind {
            RelationshipKind::FormerSpouse => true,
            _ => false,
        };
        if former && ((r.source.0 == a.0 && r.target.0 == b.0) || (r.source.0 == b.0 && r.target.0 == a.0)) {
            assert(former_between(rels@[i as int], a, b));
            return true;
        }
        i += 1;
    }
    false
}

fn is_spouse(k: &RelationshipKind) -> (b: bool)
    ensures
        b == (*k == RelationshipKind::Spouse),
{
    match k {
        RelationshipKind::Spouse => true,
        _ => false,
    }
}

fn is_female(s: Option<Sex>) -> (b: bool)
    ensures
        b == (s == Some(Sex::Female)),
{
    match s {
        Some(Sex::Female) => true,
        _ => false,
    }
}

fn is_male(s: Option<Sex>) -> (b: bool)
    ensures
        b == (s == Some(Sex::Male)),
{
    match s {
        Some(Sex::Male) => true,
        _ => false,
    }
}

fn surname_source_of(r: &TreeRelationship, all: &Vec<TreeRelationship>, prs: &Vec<&LocalMarkdownRecord>, p: PersonId) -> (s: Option<PersonId>)
    ensures
        s == surname_source(*r, all@, deref_records(prs@), p),
{
    if !is_spouse(&r.kind) || is_former_pair_of(all, r.source, r.target) {
        return None;
    }
    let ks = match key_index(prs, r.source) {
        Some(k) => k,
        None => return None,
    };
    let kt = match key_index(prs, r.target) {
        Some(k) => k,
        None => return None,
    };
    let ss = effective_sex_of(prs, all, prs[ks].id.as_str());
    let st = effective_sex_of(prs, all, prs[kt].id.as_str());
    if is_female(ss) && is_male(st) && r.source.0 == p.0 {
        Some(r.target)
    } else if is_male(ss) && is_female(st) && r.target.0 == p.0 {
        Some(r.source)
    } else {
        None
    }
}

fn surname_sources_of(rels: &Vec<TreeRelationship>, prs: &Vec<&LocalMarkdownRecord>, p: PersonId) -> (v: Vec<PersonId>)
    ensures
        v@ == surname_sources(rels@, rels@, deref_records(prs@), p),
{
    let ghost all = deref_records(prs@);
    let mut v: Vec<PersonId> = Vec::new();
    let mut i: usize = 0;
    while i < rels.len()
        invariant
            i <= rels@.len(),
            all == deref_records(prs@),
            v@ == surname_sources(rels@.take(i as int), rels@, all, p),
        decreases rels@.len() - i,
    {
        assert(rels@.take(i as int + 1).drop_last() =~= rels@.take(i as int));
        assert(rels@.take(i as int + 1).last() == rels@[i as int]);
        match surname_source_of(&rels[i], rels, prs, p) {
            Some(s) => v.push(s),
            None => {},
        }
        i += 1;
    }
    assert(rels@.take(rels@.len() as int) =~= rels@);
    v
}

fn first_preferred_of(ns: &Vec<Name>) -> (r: Option<usize>)
    ensures
        match r {
            Some(i) => first_preferred(ns@) == Some(i as int) && i < ns@.len(),
            None => first_preferred(ns@) is None,
        },
{
    let mut i: usize = 0;
    while i < ns.len()
        invariant
            i <= ns@.len(),
            first_preferred(ns@.take(i as int)) is None,
        decreases ns@.len() - i,
    {
        assert(ns@.take(i as int + 1).drop_last() =~= ns@.take(i as int));
        let pref = match &ns[i].usage {
            Some(u) => str_eq(u.as_str(), "preferred"),
            None => false,
        };
        if pref {
            proof {
                lemma_first_preferred_prefix(ns@, i as int + 1);
            }
            return Some(i);
        }
        i += 1;
    }
    assert(ns@.take(ns@.len() as int) =~= ns@);
    None
}

proof fn lemma_first_preferred_prefix(ns: Seq<Name>, n: int)
    requires
        0 <= n <= ns.len(),
        first_preferred(ns.take(n)) is Some,
    ensures
        first_preferred(ns) == first_preferred(ns.take(n)),
    decreases ns.len() - n,
{
    if n < ns.len() {
        assert(ns.take(n + 1).drop_last() =~= ns.take(n));
        lemma_first_preferred_prefix(ns, n + 1);
    } else {
        assert(ns.take(n) =~= ns);
    }
}

proof fn lemma_first_surname_prefix(ns: Seq<Name>, n: int)
    requires
        0 <= n <= ns.len(),
        first_surname(ns.take(n)) is Some,
    ensures
        first_surname(ns) == first_surname(ns.take(n)),
    decreases ns.len() - n,
{
    if n < ns.len() {
        assert(ns.take(n + 1).drop_last() =~= ns.take(n));
        lemma_first_surname_prefix(ns, n + 1);
    } else {
        assert(ns.take(n) =~= ns);
    }
}

fn first_surname_of(ns: &Vec<Name>) -> (r: Option<String>)
    ensures
        opt_string(r) == first_surname(ns@),
{
    let mut i: usize = 0;
    while i < ns.len()
        invariant
            i <= ns@.len(),
            first_surname(ns@.take(i as int)) is None,
        decreases ns@.len() - i,
    {
        assert(ns@.take(i as int + 1).drop_last() =~= ns@.take(i as int));
        match &ns[i].surname {
            Some(s) => {
                proof {
                    lemma_first_surname_prefix(ns@, i as int + 1);
                }
                return Some(s.clone());
            },
            None => {},
        }
        i += 1;
    }
    assert(ns@.take(ns@.len() as int) =~= ns@);
    None
}

fn primary_surname_of(ns: &Vec<Name>) -> (r: Option<String>)
    ensures
        opt_string(r) == primary_surname(ns@),
{
    match first_preferred_of(ns) {
        Some(i) => match &ns[i].surname {
            Some(s) => Some(s.clone()),
            None => first_surname_of(ns),
        },
        None => first_surname_of(ns),
    }
}

fn preferred_index_of(ns: &Vec<Name>) -> (r: Option<usize>)
    ensures
        match r {
            Some(i) => preferred_index(ns@) == Some(i as int) && i < ns@.len(),
            None => preferred_index(ns@) is None,
        },
{
    match first_preferred_of(ns) {
        Some(i) => Some(i),
        None => if ns.len() > 0 { Some(0) } else { None },
    }
}

fn explicit_surname_of(r: &LocalMarkdownRecord) -> (b: bool)
    ensures
        b == explicit_surname(*r),
{
    r.explicit_preferred_surname
}

fn rewrites_display_of(n: &Name) -> (b: bool)
    ensures
        b == rewrites_display(*n),
{
    match &n.order {
        Some(o) => str_eq(o.0.as_str(), "given-middle-family"),
        None => true,
    }
}

/// Gives name `i` of `p` the surname `s`.
fn set_surname(p: &mut Person, i: usize, s: String)
    requires
        i < old(p).names@.len(),
    ensures
        final(p).names@.len() == old(p).names@.len(),
        forall|j: int| 0 <= j < old(p).names@.len() && j != i ==> final(p).names@[j] == old(p).names@[j],
        married_name(final(p).names@[i as int], old(p).names@[i as int], s@),
        final(p).id == old(p).id && final(p).sex == old(p).sex && final(p).events == old(p).events
            && final(p).families_as_child == old(p).families_as_child
            && final(p).families_as_spouse == old(p).families_as_spouse && final(p).notes == old(p).notes
            && final(p).source_record == old(p).source_record && final(p).provenance == old(p).provenance,
{
    let rewrite = rewrites_display_of(&p.names[i]);
    let display = if rewrite {
        let surname = Some(s.clone());
        match format_parts_of(&p.names[i].order, &p.names[i].given, &p.names[i].middle, &surname) {
            Some(d) => d,
            None => p.names[i].display.clone(),
        }
    } else {
        p.names[i].display.clone()
    };
    let ghost before = p.names@;
    let mut names: Vec<Name> = Vec::new();
    std::mem::swap(&mut names, &mut p.names);
    let mut name = names.remove(i);
    name.surname = Some(s);
    name.display = display;
    names.insert(i, name);
    p.names = names;
    proof {
        assert forall|j: int| 0 <= j < before.len() && j != i implies p.names@[j] == before[j] by {
            if j < i {
            } else {
            }
        }
    }
}

/// Applies the married-name defaults to the people of a tree.
pub(crate) fn apply_married_names(people: &mut Vec<Person>, prs: &Vec<&LocalMarkdownRecord>, rels: &Vec<TreeRelationship>)
    requires
        old(people)@.len() == prs@.len(),
        forall|k: int| 0 <= k < old(people)@.len() ==> (#[trigger] old(people)@[k]).id == PersonId((k + 1) as u64),
    ensures
        final(people)@.len() == old(people)@.len(),
        forall|k: int| 0 <= k < old(people)@.len() ==> person_after(#[trigger] final(people)@[k], old(people)@[k],
            married_surname(old(people)@, deref_records(prs@), rels@, k)),
{
    let ghost all = deref_records(prs@);
    let n = people.len();
    let mut plan: Vec<Option<(usize, String)>> = Vec::new();
    let mut k: usize = 0;
    while k < n
        invariant
            k <= n,
            n == people@.len(),
            n == prs@.len(),
            all == deref_records(prs@),
            forall|q: int| 0 <= q < n ==> (#[trigger] people@[q]).id == PersonId((q + 1) as u64),
            plan@.len() == k,
            forall|q: int| 0 <= q < k ==> match #[trigger] plan@[q] {
                Some((i, s)) => married_surname(people@, all, rels@, q) == Some(s@)
                    && preferred_index(people@[q].names@) == Some(i as int) && i < people@[q].names@.len(),
                None => married_surname(people@, all, rels@, q) is None,
            },
        decreases n - k,
    {
        let pid = people[k].id;
        let srcs = surname_sources_of(rels, prs, pid);
        let mut entry: Option<(usize, String)> = None;
        if srcs.len() == 1 && key_index(prs, pid).is_some() {
            proof {
                assert(all[k as int] == *prs@[k as int]);
            }
            if !explicit_surname_of(prs[k]) {
                let sp = srcs[0];
                proof {
                    assert(surname_sources(rels@, rels@, all, pid).len() == 1);
                    lemma_sources_are_keys(rels@, rels@, all, pid, 0);
                }
                let j = (sp.0 - 1) as usize;
                match primary_surname_of(&people[j].names) {
                    Some(s) => match preferred_index_of(&people[k].names) {
                        Some(i) => {
                            let same = match &people[k].names[i].surname {
                                Some(t) => str_eq(t.as_str(), s.as_str()),
                                None => false,
                            };
                            if !same {
                                entry = Some((i, s));
                            }
                        },
                        None => {},
                    },
                    None => {},
                }
            }
        }
        plan.push(entry);
        k += 1;
    }
    let ghost start = people@;
    let mut k: usize = 0;
    while k < n
        invariant
            k <= n,
            n == people@.len(),
            n == start.len(),
            plan@.len() == n,
            forall|q: int| 0 <= q < n ==> match #[trigger] plan@[q] {
                Some((i, s)) => married_surname(start, all, rels@, q) == Some(s@)
                    && preferred_index(start[q].names@) == Some(i as int) && i < start[q].names@.len(),
                None => married_surname(start, all, rels@, q) is None,
            },
            forall|q: int| 0 <= q < k ==> person_after(#[trigger] people@[q], start[q], married_surname(start, all, rels@, q)),
            forall|q: int| k <= q < n ==> #[trigger] people@[q] == start[q],
        decreases n - k,
    {
        match &plan[k] {
            Some((i, s)) => {
                let i = *i;
                let s = s.clone();
                assert(preferred_index(start[k as int].names@) == Some(i as int));
                let mut p = people.remove(k);
                set_surname(&mut p, i, s);
                people.insert(k, p);
            },
            None => {},
        }
        proof {
            assert forall|q: int| k <= q < n && q != k implies #[trigger] people@[q] == start[q] by {}
        }
        k += 1;
    }
}

/// A surname source is the person of a record with a key.
proof fn lemma_sources_are_keys(rels: Seq<TreeRelationship>, all: Seq<TreeRelationship>, prs: Seq<LocalMarkdownRecord>, p: PersonId, j: int)
    requires
        0 <= j < surname_sources(rels, all, prs, p).len(),
    ensures
        key_of(prs, surname_sources(rels, all, prs, p)[j]) is Some,
    decreases rels.len(),
{
    let head = surname_sources(rels.drop_last(), all, prs, p);
    if j < head.len() {
        lemma_sources_are_keys(rels.drop_last(), all, prs, p, j);
    }
}

} // verus!
