//! Compiling a world's records into a tree: people with their names,
//! life events, events, relationships, married-name defaults, the main
//! person and the generations a tree view keeps.
use vstd::prelude::*;
use crate::attribution::{Provenance, SourceRef, Tag};
use crate::local_authoring::data::{
    deref_opt, lookup, opt_str, spec_get, str_field, JsonValue, LocalDataBundle, LocalMarkdownRecord,
    LocalTomlDocument,
};
use crate::local_authoring::summary::opt_string;
use crate::local_authoring::error::{is_validation, LocalAuthoringError};
use crate::local_authoring::event_profiles::{
    event_participant_refs, local_event_type, local_event_type_id, record_type_name, ref_views,
    spec_default_label, spec_participant_refs, tag_of_name, RefView,
};
use crate::local_authoring::refs::{normalize_person_id, spec_contextual_id};
use crate::local_authoring::timeline_compile::{
    first_occurrences, is_subject_role, other_entities, push_name, seen_in_subject_role, subject_entities,
};
use crate::local_authoring::timeline_compile::{string_array, string_array_of};
use crate::genealogy_event::{GenealogyEvent, GenealogyEventKind};
use crate::tree::{
    kind_named_by, spec_is_parent_child, spec_kind_value, ParentRole, RelationshipId, RelationshipKind, TreeRelationship,
};
use crate::local_authoring::kinship::kind_text;
use crate::text::trim_seq;
use crate::model::{DateValue, EventId, Name, NameOrder, Person, PersonId, Sex};
use crate::local_authoring::timeline_compile::{opt_value_text, value_as_text};
use crate::sorted_text::texts;
use crate::text::{is_blank, is_blank_str, str_eq};
use crate::local_authoring::data::{spec_as_bool, spec_as_u64};
use crate::local_authoring::married_names::{apply_married_names, married_surname, person_after};
use crate::tree::TreeDocument;
use crate::tree_filter::{
    apply_tree_generation_filter, event_ids, keep_events, keep_people, keep_relationships, kept_people,
    person_with_events, TreeGenerationFilter,
};

verus! {

// ---------------------------------------------------------------------------
// Name tables and name orders.

/// The order a name is written in when none is given.
pub open spec fn given_middle_family() -> Seq<char> {
    "given-middle-family"@
}

/// The name orders the library knows: given names first, or the family
/// name first.
pub open spec fn is_known_order(o: Seq<char>) -> bool {
    o == "given-middle-family"@ || o == "family-given"@
}

/// A non-blank text field of a table.
pub open spec fn table_text(t: JsonValue, key: Seq<char>) -> Option<Seq<char>> {
    match str_field(t, key) {
        Some(v) => if is_blank(v) { None } else { Some(v) },
        None => None,
    }
}

/// The order named in a table, when it is a known one.
pub open spec fn table_order(t: JsonValue) -> Option<Seq<char>> {
    match table_text(t, "order"@) {
        Some(o) => if is_known_order(o) { Some(o) } else { None },
        None => None,
    }
}

/// The order of a table's name: the one it names, else given names first.
pub open spec fn name_order(t: JsonValue) -> Seq<char> {
    match table_order(t) {
        Some(o) => o,
        None => given_middle_family(),
    }
}

/// The present parts, joined by single spaces; none when no part is present.
pub open spec fn join_parts(ps: Seq<Option<Seq<char>>>) -> Option<Seq<char>>
    decreases ps.len(),
{
    if ps.len() == 0 {
        None
    } else {
        join2(join_parts(ps.drop_last()), ps.last())
    }
}

/// `acc` followed by the part `x`, when present.
pub open spec fn join2(acc: Option<Seq<char>>, x: Option<Seq<char>>) -> Option<Seq<char>> {
    match x {
        Some(x) => match acc {
            Some(r) => Some(r + " "@ + x),
            None => Some(x),
        },
        None => acc,
    }
}

/// A name written from its parts in the given order.
pub open spec fn format_parts(order: Option<Seq<char>>, g: Option<Seq<char>>, m: Option<Seq<char>>, f: Option<Seq<char>>) -> Option<Seq<char>> {
    if order == Some("family-given"@) {
        join_parts(seq![f, g, m])
    } else {
        join_parts(seq![g, m, f])
    }
}

pub open spec fn first_of(a: Option<Seq<char>>, b: Option<Seq<char>>) -> Option<Seq<char>> {
    if a is Some { a } else { b }
}

/// The family name of a table: `family`, else `surname`.
pub open spec fn table_family(t: JsonValue) -> Option<Seq<char>> {
    first_of(table_text(t, "family"@), table_text(t, "surname"@))
}

/// How a table's name is displayed: `display`, else `full`, else its parts.
pub open spec fn table_display(t: JsonValue) -> Option<Seq<char>> {
    first_of(
        table_text(t, "display"@),
        first_of(
            table_text(t, "full"@),
            format_parts(table_order(t), table_text(t, "given"@), table_text(t, "middle"@), table_family(t)),
        ),
    )
}

pub open spec fn opt_order(o: Option<NameOrder>) -> Option<Seq<char>> {
    match o {
        Some(x) => Some(x.0@),
        None => None,
    }
}

/// The provenance of what a record gives: the record as its source.
pub open spec fn record_provenance(p: Provenance, r: LocalMarkdownRecord) -> bool {
    &&& p.sources@.len() == 1
    &&& p.sources@[0].0@ == "local:"@ + r.id@
    &&& p.tags@.len() == 0
}

/// `n` is the name a table gives for a usage.
pub open spec fn name_from_table(n: Name, usage: Seq<char>, t: JsonValue, r: LocalMarkdownRecord) -> bool {
    &&& opt_string(n.usage) == Some(usage)
    &&& Some(n.display@) == table_display(t)
    &&& opt_string(n.full) == table_text(t, "full"@)
    &&& opt_string(n.given) == table_text(t, "given"@)
    &&& opt_string(n.middle) == table_text(t, "middle"@)
    &&& opt_string(n.surname) == table_family(t)
    &&& opt_order(n.order) == Some(name_order(t))
    &&& texts(n.aliases@) == string_array(spec_get(t, "aliases"@))
    &&& record_provenance(n.provenance, r)
}

/// A record's `names.<usage>` table.
pub open spec fn name_table(r: LocalMarkdownRecord, usage: Seq<char>) -> Option<JsonValue> {
    match lookup(r.attributes@, "names"@) {
        Some(n) => spec_get(n, usage),
        None => None,
    }
}

/// The table gives a name (it has something to display).
pub open spec fn gives_name(o: Option<JsonValue>) -> bool {
    match o {
        Some(t) => table_display(t) is Some,
        None => false,
    }
}

/// A record's title: its own, else the display of its preferred name, else
/// of its legal name.
pub open spec fn record_title(r: LocalMarkdownRecord) -> Option<Seq<char>> {
    match opt_string(r.title) {
        Some(t) => Some(t),
        None => match name_table(r, "preferred"@) {
            Some(t) if table_display(t) is Some => table_display(t),
            _ => match name_table(r, "legal"@) {
                Some(t) => table_display(t),
                None => None,
            },
        },
    }
}

/// The name a person is known by in the tree: the record's title, else its id.
pub open spec fn person_display(r: LocalMarkdownRecord) -> Seq<char> {
    match record_title(r) {
        Some(t) => t,
        None => r.id@,
    }
}

pub open spec fn attr_str(r: LocalMarkdownRecord, key: Seq<char>) -> Option<Seq<char>> {
    opt_str(lookup(r.attributes@, key))
}

/// The given name of a record: `given`, else the preferred name's `given`.
pub open spec fn record_given(r: LocalMarkdownRecord) -> Option<Seq<char>> {
    match attr_str(r, "given"@) {
        Some(g) => Some(g),
        None => match name_table(r, "preferred"@) {
            Some(t) => str_field(t, "given"@),
            None => None,
        },
    }
}

/// The surname of a record: `surname` (else `family`) when it is a string,
/// else the preferred name's `family` (else `surname`).
pub open spec fn record_surname(r: LocalMarkdownRecord) -> Option<Seq<char>> {
    let v = match lookup(r.attributes@, "surname"@) {
        Some(x) => Some(x),
        None => lookup(r.attributes@, "family"@),
    };
    match opt_str(v) {
        Some(s) => Some(s),
        None => match name_table(r, "preferred"@) {
            Some(t) => {
                let f = match spec_get(t, "family"@) {
                    Some(x) => Some(x),
                    None => spec_get(t, "surname"@),
                };
                opt_str(f)
            },
            None => None,
        },
    }
}

/// The name of a record with no name tables that give one.
pub open spec fn fallback_name(n: Name, r: LocalMarkdownRecord) -> bool {
    let legal = name_table(r, "legal"@);
    &&& opt_string(n.usage) == Some("legal"@)
    &&& n.display@ == person_display(r)
    &&& opt_string(n.full) == (match legal {
        Some(t) => table_text(t, "full"@),
        None => None,
    })
    &&& opt_string(n.given) == record_given(r)
    &&& opt_string(n.middle) == (match legal {
        Some(t) => table_text(t, "middle"@),
        None => None,
    })
    &&& opt_string(n.surname) == record_surname(r)
    &&& opt_order(n.order) == Some(given_middle_family())
    &&& texts(n.aliases@) == string_array(lookup(r.attributes@, "aliases"@))
    &&& record_provenance(n.provenance, r)
}

/// The names of a person record: its preferred and legal names when the
/// tables give them, else one legal name from the record's own fields.
pub open spec fn person_names(ns: Seq<Name>, r: LocalMarkdownRecord) -> bool {
    let p = name_table(r, "preferred"@);
    let l = name_table(r, "legal"@);
    if !gives_name(p) && !gives_name(l) {
        ns.len() == 1 && fallback_name(ns[0], r)
    } else if gives_name(p) && gives_name(l) {
        ns.len() == 2 && name_from_table(ns[0], "preferred"@, p.unwrap(), r)
            && name_from_table(ns[1], "legal"@, l.unwrap(), r)
    } else if gives_name(p) {
        ns.len() == 1 && name_from_table(ns[0], "preferred"@, p.unwrap(), r)
    } else {
        ns.len() == 1 && name_from_table(ns[0], "legal"@, l.unwrap(), r)
    }
}

// ---------------------------------------------------------------------------
// Executable parts.

pub(crate) fn table_text_of(t: &JsonValue, key: &str) -> (r: Option<String>)
    ensures
        opt_string(r) == table_text(*t, key@),
{
    match t.get(key) {
        Some(v) => match v.as_str() {
            Some(s) => if is_blank_str(s) { None } else { Some(s.to_owned()) },
            None => None,
        },
        None => None,
    }
}

fn table_order_of(t: &JsonValue) -> (r: Option<NameOrder>)
    ensures
        opt_order(r) == table_order(*t),
{
    match table_text_of(t, "order") {
        Some(o) => if str_eq(o.as_str(), "given-middle-family") || str_eq(o.as_str(), "family-given") {
            Some(NameOrder(o))
        } else {
            None
        },
        None => None,
    }
}

fn push_part(acc: Option<String>, part: &Option<String>) -> (r: Option<String>)
    ensures
        opt_string(r) == join2(opt_string(acc), opt_string(*part)),
{
    match part {
        Some(x) => match acc {
            Some(mut a) => {
                a.append(" ");
                a.append(x.as_str());
                Some(a)
            },
            None => Some(x.clone()),
        },
        None => acc,
    }
}

/// Joins three optional parts.
fn join_three(a: &Option<String>, b: &Option<String>, c: &Option<String>) -> (r: Option<String>)
    ensures
        opt_string(r) == join_parts(seq![opt_string(*a), opt_string(*b), opt_string(*c)]),
{
    let ghost s3 = seq![opt_string(*a), opt_string(*b), opt_string(*c)];
    let ghost s2 = seq![opt_string(*a), opt_string(*b)];
    let ghost s1 = seq![opt_string(*a)];
    assert(s3.drop_last() =~= s2);
    assert(s2.drop_last() =~= s1);
    assert(s1.drop_last() =~= Seq::<Option<Seq<char>>>::empty());
    let first = match a {
        Some(x) => Some(x.clone()),
        None => None,
    };
    assert(join_parts(s1) == join2(join_parts(Seq::<Option<Seq<char>>>::empty()), opt_string(*a)));
    assert(join_parts(s2) == join2(join_parts(s1), opt_string(*b)));
    assert(join_parts(s3) == join2(join_parts(s2), opt_string(*c)));
    let ab = push_part(first, b);
    let abc = push_part(ab, c);
    abc
}

pub(crate) fn format_parts_of(order: &Option<NameOrder>, g: &Option<String>, m: &Option<String>, f: &Option<String>) -> (r: Option<String>)
    ensures
        opt_string(r) == format_parts(opt_order(*order), opt_string(*g), opt_string(*m), opt_string(*f)),
{
    let family_first = match order {
        Some(o) => str_eq(o.0.as_str(), "family-given"),
        None => false,
    };
    if family_first {
        join_three(f, g, m)
    } else {
        join_three(g, m, f)
    }
}

fn or_else_text(a: Option<String>, b: Option<String>) -> (r: Option<String>)
    ensures
        opt_string(r) == first_of(opt_string(a), opt_string(b)),
{
    match a {
        Some(x) => Some(x),
        None => b,
    }
}

fn table_display_of(t: &JsonValue) -> (r: Option<String>)
    ensures
        opt_string(r) == table_display(*t),
{
    match table_text_of(t, "display") {
        Some(d) => Some(d),
        None => match table_text_of(t, "full") {
            Some(f) => Some(f),
            None => {
                let family = or_else_text(table_text_of(t, "family"), table_text_of(t, "surname"));
                format_parts_of(&table_order_of(t), &table_text_of(t, "given"), &table_text_of(t, "middle"), &family)
            },
        },
    }
}

fn provenance_of(r: &LocalMarkdownRecord) -> (p: Provenance)
    ensures
        record_provenance(p, *r),
{
    let mut source = "local:".to_owned();
    source.append(r.id.as_str());
    let mut sources: Vec<SourceRef> = Vec::new();
    sources.push(SourceRef(source));
    Provenance { sources, tags: Vec::new() }
}

fn name_from_table_of(usage: &str, t: &JsonValue, r: &LocalMarkdownRecord) -> (n: Option<Name>)
    ensures
        match n {
            Some(x) => table_display(*t) is Some && name_from_table(x, usage@, *t, *r),
            None => table_display(*t) is None,
        },
{
    let display = match table_display_of(t) {
        Some(d) => d,
        None => return None,
    };
    Some(Name {
        usage: Some(usage.to_owned()),
        display,
        full: table_text_of(t, "full"),
        given: table_text_of(t, "given"),
        middle: table_text_of(t, "middle"),
        surname: or_else_text(table_text_of(t, "family"), table_text_of(t, "surname")),
        order: match table_order_of(t) {
            Some(o) => Some(o),
            None => Some(NameOrder(String::from_str("given-middle-family"))),
        },
        aliases: string_array_of(t.get("aliases")),
        provenance: provenance_of(r),
    })
}

pub(crate) fn name_table_of<'a>(r: &'a LocalMarkdownRecord, usage: &str) -> (t: Option<&'a JsonValue>)
    ensures
        deref_opt(t) == name_table(*r, usage@),
{
    match r.attr("names") {
        Some(n) => n.get(usage),
        None => None,
    }
}

fn attr_str_of(r: &LocalMarkdownRecord, key: &str) -> (s: Option<String>)
    ensures
        opt_string(s) == attr_str(*r, key@),
{
    match r.attr(key) {
        Some(v) => match v.as_str() {
            Some(x) => Some(x.to_owned()),
            None => None,
        },
        None => None,
    }
}

fn record_title_of(r: &LocalMarkdownRecord) -> (t: Option<String>)
    ensures
        opt_string(t) == record_title(*r),
{
    match &r.title {
        Some(t) => Some(t.clone()),
        None => {
            let pref = match name_table_of(r, "preferred") {
                Some(t) => table_display_of(t),
                None => None,
            };
            match pref {
                Some(d) => Some(d),
                None => match name_table_of(r, "legal") {
                    Some(t) => table_display_of(t),
                    None => None,
                },
            }
        },
    }
}

pub(crate) fn person_display_of(r: &LocalMarkdownRecord) -> (d: String)
    ensures
        d@ == person_display(*r),
{
    match record_title_of(r) {
        Some(t) => t,
        None => r.id.clone(),
    }
}

fn text_of_value(v: Option<&JsonValue>) -> (s: Option<String>)
    ensures
        opt_string(s) == opt_str(deref_opt(v)),
{
    match v {
        Some(x) => match x.as_str() {
            Some(y) => Some(y.to_owned()),
            None => None,
        },
        None => None,
    }
}

fn record_given_of(r: &LocalMarkdownRecord) -> (g: Option<String>)
    ensures
        opt_string(g) == record_given(*r),
{
    match attr_str_of(r, "given") {
        Some(g) => Some(g),
        None => match name_table_of(r, "preferred") {
            Some(t) => text_of_value(t.get("given")),
            None => None,
        },
    }
}

fn record_surname_of(r: &LocalMarkdownRecord) -> (s: Option<String>)
    ensures
        opt_string(s) == record_surname(*r),
{
    let v = match r.attr("surname") {
        Some(x) => Some(x),
        None => r.attr("family"),
    };
    match text_of_value(v) {
        Some(s) => Some(s),
        None => match name_table_of(r, "preferred") {
            Some(t) => {
                let f = match t.get("family") {
                    Some(x) => Some(x),
                    None => t.get("surname"),
                };
                text_of_value(f)
            },
            None => None,
        },
    }
}

pub(crate) fn person_names_of(r: &LocalMarkdownRecord) -> (ns: Vec<Name>)
    ensures
        person_names(ns@, *r),
{
    let mut ns: Vec<Name> = Vec::new();
    match name_table_of(r, "preferred") {
        Some(t) => match name_from_table_of("preferred", t, r) {
            Some(n) => ns.push(n),
            None => {},
        },
        None => {},
    }
    match name_table_of(r, "legal") {
        Some(t) => match name_from_table_of("legal", t, r) {
            Some(n) => ns.push(n),
            None => {},
        },
        None => {},
    }
    if ns.len() == 0 {
        let legal = name_table_of(r, "legal");
        let full = match legal {
            Some(t) => table_text_of(t, "full"),
            None => None,
        };
        let middle = match legal {
            Some(t) => table_text_of(t, "middle"),
            None => None,
        };
        ns.push(Name {
            usage: Some("legal".to_owned()),
            display: person_display_of(r),
            full,
            given: record_given_of(r),
            middle,
            surname: record_surname_of(r),
            order: Some(NameOrder("given-middle-family".to_owned())),
            aliases: string_array_of(r.attr("aliases")),
            provenance: provenance_of(r),
        });
    }
    ns
}

// ---------------------------------------------------------------------------
// People.

pub open spec fn person_records(rs: Seq<LocalMarkdownRecord>) -> Seq<LocalMarkdownRecord>
    decreases rs.len(),
{
    if rs.len() == 0 {
        seq![]
    } else {
        person_records(rs.drop_last()) + if rs.last().kind@ == "person"@ {
            seq![rs.last()]
        } else {
            seq![]
        }
    }
}

pub open spec fn parse_sex(v: Seq<char>) -> Sex {
    if v == "male"@ || v == "m"@ || v == "Male"@ {
        Sex::Male
    } else if v == "female"@ || v == "f"@ || v == "Female"@ {
        Sex::Female
    } else if v == "other"@ || v == "Other"@ {
        Sex::Other
    } else {
        Sex::Unknown
    }
}

pub open spec fn sex_of(r: LocalMarkdownRecord) -> Option<Sex> {
    match attr_str(r, "sex"@) {
        Some(v) => Some(parse_sex(v)),
        None => None,
    }
}

pub open spec fn tag_texts(ts: Seq<Tag>) -> Seq<Seq<char>> {
    ts.map_values(|t: Tag| t.0@)
}

/// The `k`-th person record as a person, before events and married names.
pub open spec fn base_person(p: Person, r: LocalMarkdownRecord, k: int) -> bool {
    &&& p.id == PersonId((k + 1) as u64)
    &&& p.sex == sex_of(r)
    &&& p.families_as_child@.len() == 0
    &&& p.families_as_spouse@.len() == 0
    &&& p.notes@.len() == 0
    &&& p.source_record matches Some(s) && s.0@ == "local:"@ + r.id@
    &&& p.provenance.sources@.len() == 1
    &&& p.provenance.sources@[0].0@ == "local:"@ + r.id@
    &&& tag_texts(p.provenance.tags@) == texts(r.tags@)
}

fn parse_sex_of(v: &str) -> (s: Sex)
    ensures
        s == parse_sex(v@),
{
    if str_eq(v, "male") || str_eq(v, "m") || str_eq(v, "Male") {
        Sex::Male
    } else if str_eq(v, "female") || str_eq(v, "f") || str_eq(v, "Female") {
        Sex::Female
    } else if str_eq(v, "other") || str_eq(v, "Other") {
        Sex::Other
    } else {
        Sex::Unknown
    }
}

fn tags_of(v: &Vec<String>) -> (r: Vec<Tag>)
    ensures
        tag_texts(r@) == texts(v@),
{
    let mut r: Vec<Tag> = Vec::new();
    let mut i: usize = 0;
    while i < v.len()
        invariant
            i <= v@.len(),
            tag_texts(r@) == texts(v@).take(i as int),
        decreases v@.len() - i,
    {
        let ghost before = tag_texts(r@);
        r.push(Tag(v[i].clone()));
        assert(tag_texts(r@) =~= before.push(v@[i as int]@));
        assert(texts(v@).take(i + 1) =~= texts(v@).take(i as int).push(v@[i as int]@));
        i = i + 1;
    }
    assert(texts(v@).take(i as int) =~= texts(v@));
    r
}

fn new_person(r: &LocalMarkdownRecord, k: usize) -> (p: Person)
    requires
        k < u64::MAX,
    ensures
        base_person(p, *r, k as int),
        person_names(p.names@, *r),
        p.events@.len() == 0,
{
    let sex = match attr_str_of(r, "sex") {
        Some(v) => Some(parse_sex_of(v.as_str())),
        None => None,
    };
    let mut source = "local:".to_owned();
    source.append(r.id.as_str());
    let mut provenance = provenance_of(r);
    provenance.tags = tags_of(&r.tags);
    Person {
        id: PersonId(k as u64 + 1),
        names: person_names_of(r),
        sex,
        events: Vec::new(),
        families_as_child: Vec::new(),
        families_as_spouse: Vec::new(),
        notes: Vec::new(),
        source_record: Some(SourceRef(source)),
        provenance,
    }
}

/// The people of the person records, in order.
fn people_of(rs: &Vec<LocalMarkdownRecord>) -> (ps: Vec<Person>)
    requires
        rs@.len() < u64::MAX,
    ensures
        ps@.len() == person_records(rs@).len(),
        forall|k: int| 0 <= k < ps@.len() ==> base_person(#[trigger] ps@[k], person_records(rs@)[k], k)
            && person_names(ps@[k].names@, person_records(rs@)[k]) && ps@[k].events@.len() == 0,
{
    let mut ps: Vec<Person> = Vec::new();
    let mut i: usize = 0;
    assert(person_records(rs@.take(0)) =~= seq![]);
    while i < rs.len()
        invariant
            i <= rs@.len(),
            rs@.len() < u64::MAX,
            ps@.len() == person_records(rs@.take(i as int)).len(),
            ps@.len() <= i,
            forall|k: int| 0 <= k < ps@.len() ==> base_person(#[trigger] ps@[k], person_records(rs@.take(i as int))[k], k)
                && person_names(ps@[k].names@, person_records(rs@.take(i as int))[k]) && ps@[k].events@.len() == 0,
        decreases rs@.len() - i,
    {
        let ghost pre = person_records(rs@.take(i as int));
        assert(rs@.take(i + 1).drop_last() =~= rs@.take(i as int));
        assert(rs@.take(i + 1).last() == rs@[i as int]);
        if str_eq(rs[i].kind.as_str(), "person") {
            let k = ps.len();
            let p = new_person(&rs[i], k);
            ps.push(p);
            assert(person_records(rs@.take(i + 1)) =~= pre.push(rs@[i as int]));
        } else {
            assert(person_records(rs@.take(i + 1)) =~= pre);
        }
        i = i + 1;
    }
    assert(rs@.take(i as int) =~= rs@);
    ps
}

// ---------------------------------------------------------------------------
// Life events: a birth and a death date on a person record.

pub open spec fn field_text(r: LocalMarkdownRecord, key: Seq<char>) -> Option<Seq<char>> {
    opt_value_text(lookup(r.attributes@, key))
}

/// The life events of the person records, in order: for each person its
/// birth, then its death, when the record gives the date.
pub open spec fn life_items(prs: Seq<LocalMarkdownRecord>) -> Seq<(int, bool)>
    decreases prs.len(),
{
    if prs.len() == 0 {
        seq![]
    } else {
        let k = prs.len() - 1;
        let r = prs.last();
        life_items(prs.drop_last()) + (if field_text(r, "birth_date"@) is Some { seq![(k, true)] } else { seq![] })
            + (if field_text(r, "death_date"@) is Some { seq![(k, false)] } else { seq![] })
    }
}

pub open spec fn life_field(birth: bool) -> Seq<char> {
    if birth { "birth_date"@ } else { "death_date"@ }
}

/// `e` is the event with id `id` for the birth (or death) date of the `k`-th
/// person record `r`.
pub open spec fn life_event(e: GenealogyEvent, id: int, r: LocalMarkdownRecord, k: int, birth: bool) -> bool {
    let f = life_field(birth);
    &&& e.id == EventId(id as u64)
    &&& e.kind == (if birth { GenealogyEventKind::Birth } else { GenealogyEventKind::Death })
    &&& e.date matches Some(d) && Some(d.original@) == field_text(r, f) && d.historical is None
        && d.range == DateValue::spec_original_range(d.original@) && record_provenance(d.provenance, r)
    &&& opt_string(e.time) == field_text(r, f + "_time"@)
    &&& opt_string(e.time_zone) == field_text(r, f + "_time_zone"@)
    &&& e.place is None
    &&& opt_string(e.description) == Some((if birth { "Birth"@ } else { "Death"@ }) + " for "@ + r.id@)
    &&& e.participants@ == seq![PersonId((k + 1) as u64)]
    &&& record_provenance(e.provenance, r)
}

fn life_event_of(r: &LocalMarkdownRecord, k: usize, birth: bool, id: u64) -> (e: Option<GenealogyEvent>)
    requires
        k < u64::MAX,
    ensures
        match e {
            Some(x) => field_text(*r, life_field(birth)) is Some && life_event(x, id as int, *r, k as int, birth),
            None => field_text(*r, life_field(birth)) is None,
        },
{
    let field = if birth { "birth_date" } else { "death_date" };
    let date = match value_as_text(r.attr(field)) {
        Some(d) => d,
        None => return None,
    };
    let mut tkey = field.to_owned();
    tkey.append("_time");
    let mut zkey = field.to_owned();
    zkey.append("_time_zone");
    let mut description = (if birth { "Birth" } else { "Death" }).to_owned();
    description.append(" for ");
    description.append(r.id.as_str());
    let mut participants: Vec<PersonId> = Vec::new();
    participants.push(PersonId(k as u64 + 1));
    assert(participants@ =~= seq![PersonId((k + 1) as u64)]);
    Some(GenealogyEvent {
        id: EventId(id),
        kind: if birth { GenealogyEventKind::Birth } else { GenealogyEventKind::Death },
        date: Some(DateValue::from_original(date, provenance_of(r))),
        time: value_as_text(r.attr(tkey.as_str())),
        time_zone: value_as_text(r.attr(zkey.as_str())),
        place: None,
        description: Some(description),
        participants,
        provenance: provenance_of(r),
    })
}

/// The life events of the person records, numbered from 1.
fn life_events_of(rs: &Vec<LocalMarkdownRecord>) -> (es: Vec<GenealogyEvent>)
    requires
        rs@.len() < u32::MAX,
    ensures
        es@.len() == life_items(person_records(rs@)).len(),
        es@.len() <= 2 * person_records(rs@).len(),
        forall|i: int| 0 <= i < es@.len() ==> life_event(#[trigger] es@[i], i + 1,
            person_records(rs@)[life_items(person_records(rs@))[i].0], life_items(person_records(rs@))[i].0,
            life_items(person_records(rs@))[i].1),
{
    let mut es: Vec<GenealogyEvent> = Vec::new();
    let mut i: usize = 0;
    let mut k: usize = 0;
    assert(person_records(rs@.take(0)) =~= seq![]);
    while i < rs.len()
        invariant
            i <= rs@.len(),
            rs@.len() < u32::MAX,
            k == person_records(rs@.take(i as int)).len(),
            k <= i,
            es@.len() == life_items(person_records(rs@.take(i as int))).len(),
            es@.len() <= 2 * k,
            forall|q: int| 0 <= q < es@.len() ==> life_event(#[trigger] es@[q], q + 1,
                person_records(rs@.take(i as int))[life_items(person_records(rs@.take(i as int)))[q].0],
                life_items(person_records(rs@.take(i as int)))[q].0, life_items(person_records(rs@.take(i as int)))[q].1),
        decreases rs@.len() - i,
    {
        let ghost pre = person_records(rs@.take(i as int));
        let ghost items = life_items(pre);
        assert(rs@.take(i + 1).drop_last() =~= rs@.take(i as int));
        assert(rs@.take(i + 1).last() == rs@[i as int]);
        let r = &rs[i];
        if str_eq(r.kind.as_str(), "person") {
            let ghost post = pre.push(*r);
            assert(person_records(rs@.take(i + 1)) =~= post);
            assert(post.drop_last() =~= pre);
            assert forall|q: int| 0 <= q < pre.len() implies #[trigger] post[q] == pre[q] by {}
            let n0 = es.len();
            match life_event_of(r, k, true, n0 as u64 + 1) {
                Some(e) => es.push(e),
                None => {},
            }
            let n1 = es.len();
            match life_event_of(r, k, false, n1 as u64 + 1) {
                Some(e) => es.push(e),
                None => {},
            }
            let ghost b = if field_text(*r, "birth_date"@) is Some { seq![(k as int, true)] } else { Seq::<(int, bool)>::empty() };
            let ghost d = if field_text(*r, "death_date"@) is Some { seq![(k as int, false)] } else { Seq::<(int, bool)>::empty() };
            assert(life_items(post) == items + b + d);
            assert forall|q: int| 0 <= q < es@.len() implies life_event(#[trigger] es@[q], q + 1,
                post[life_items(post)[q].0], life_items(post)[q].0, life_items(post)[q].1) by {
                if q < items.len() {
                    assert(life_items(post)[q] == items[q]);
                    assert(0 <= items[q].0 < pre.len()) by {
                        lemma_life_items_index(pre, q);
                    }
                } else {
                    assert(post[k as int] == *r);
                }
            }
            k = k + 1;
        } else {
            assert(person_records(rs@.take(i + 1)) =~= pre);
        }
        i = i + 1;
    }
    assert(rs@.take(i as int) =~= rs@);
    es
}

proof fn lemma_life_items_index(prs: Seq<LocalMarkdownRecord>, q: int)
    requires
        0 <= q < life_items(prs).len(),
    ensures
        0 <= life_items(prs)[q].0 < prs.len(),
    decreases prs.len(),
{
    let pre = prs.drop_last();
    let k = prs.len() - 1;
    let r = prs.last();
    let b = if field_text(r, "birth_date"@) is Some { seq![(k, true)] } else { Seq::<(int, bool)>::empty() };
    let d = if field_text(r, "death_date"@) is Some { seq![(k, false)] } else { Seq::<(int, bool)>::empty() };
    assert(life_items(prs) == life_items(pre) + b + d);
    if q < life_items(pre).len() {
        lemma_life_items_index(pre, q);
    }
}

// ---------------------------------------------------------------------------
// Finding people by record id.

/// The position of the last person record with the id `key`.
pub open spec fn person_index(prs: Seq<LocalMarkdownRecord>, key: Seq<char>) -> Option<int>
    decreases prs.len(),
{
    if prs.len() == 0 {
        None
    } else if prs.last().id@ == key {
        Some(prs.len() - 1)
    } else {
        person_index(prs.drop_last(), key)
    }
}

proof fn lemma_person_index(prs: Seq<LocalMarkdownRecord>, key: Seq<char>)
    ensures
        person_index(prs, key) matches Some(i) ==> 0 <= i < prs.len() && prs[i].id@ == key,
    decreases prs.len(),
{
    if prs.len() > 0 && prs.last().id@ != key {
        lemma_person_index(prs.drop_last(), key);
    }
}

/// Every person record's id finds a person.
proof fn lemma_person_index_some(prs: Seq<LocalMarkdownRecord>, i: int)
    requires
        0 <= i < prs.len(),
    ensures
        person_index(prs, prs[i].id@) is Some,
    decreases prs.len(),
{
    if prs.last().id@ != prs[i].id@ {
        assert(i < prs.len() - 1);
        assert(prs.drop_last()[i] == prs[i]);
        lemma_person_index_some(prs.drop_last(), i);
    }
}

proof fn lemma_person_records_len(rs: Seq<LocalMarkdownRecord>)
    ensures
        person_records(rs).len() <= rs.len(),
    decreases rs.len(),
{
    if rs.len() > 0 {
        lemma_person_records_len(rs.drop_last());
    }
}

/// A reference to a person: the id of a person record as written, else
/// the reference completed to a `person:` id.
pub open spec fn resolve_key(prs: Seq<LocalMarkdownRecord>, value: Seq<char>) -> Seq<char> {
    if person_index(prs, value) is Some {
        value
    } else {
        spec_contextual_id(value, "person"@)
    }
}

pub open spec fn pid(i: int) -> PersonId {
    PersonId((i + 1) as u64)
}

/// The name an event label uses for an entity: the person's display name,
/// else the entity itself.
pub open spec fn tree_name(prs: Seq<LocalMarkdownRecord>, e: Seq<char>) -> Seq<char> {
    match person_index(prs, e) {
        Some(i) => person_display(prs[i]),
        None => e,
    }
}

pub(crate) fn find_person(prs: &Vec<&LocalMarkdownRecord>, key: &str) -> (r: Option<usize>)
    ensures
        match r {
            Some(i) => person_index(deref_records(prs@), key@) == Some(i as int) && i < prs@.len(),
            None => person_index(deref_records(prs@), key@) is None,
        },
{
    let ghost all = deref_records(prs@);
    let mut i: usize = prs.len();
    assert(all.take(i as int) =~= all);
    while i > 0
        invariant
            i <= prs@.len(),
            all == deref_records(prs@),
            person_index(all, key@) == person_index(all.take(i as int), key@),
        decreases i,
    {
        let ghost t = all.take(i as int);
        assert(t.drop_last() =~= all.take(i - 1));
        assert(t.last() == *prs@[i - 1]);
        if str_eq(prs[i - 1].id.as_str(), key) {
            assert(person_index(t, key@) == Some(i - 1));
            return Some(i - 1);
        }
        i = i - 1;
    }
    assert(all.take(0) =~= seq![]);
    None
}

pub open spec fn deref_records(v: Seq<&LocalMarkdownRecord>) -> Seq<LocalMarkdownRecord> {
    v.map_values(|r: &LocalMarkdownRecord| *r)
}

fn resolve_key_of(prs: &Vec<&LocalMarkdownRecord>, value: &str) -> (k: String)
    ensures
        k@ == resolve_key(deref_records(prs@), value@),
{
    match find_person(prs, value) {
        Some(_) => value.to_owned(),
        None => normalize_person_id(value),
    }
}

fn tree_name_of(prs: &Vec<&LocalMarkdownRecord>, e: &str) -> (n: String)
    ensures
        n@ == tree_name(deref_records(prs@), e@),
{
    match find_person(prs, e) {
        Some(i) => {
            proof {
                lemma_person_index(deref_records(prs@), e@);
            }
            assert(deref_records(prs@)[i as int] == *prs@[i as int]);
            person_display_of(prs[i])
        },
        None => e.to_owned(),
    }
}

// ---------------------------------------------------------------------------
// Event records.

/// The people of an event record, each once, or why it has none.
pub open spec fn participants_from(prs: Seq<LocalMarkdownRecord>, path: Seq<char>, es: Seq<Seq<char>>) -> Result<Seq<PersonId>, Seq<char>>
    decreases es.len(),
{
    if es.len() == 0 {
        Ok(seq![])
    } else {
        match participants_from(prs, path, es.drop_last()) {
            Err(m) => Err(m),
            Ok(acc) => {
                let key = resolve_key(prs, es.last());
                match person_index(prs, key) {
                    None => Err(path + " references missing participant `"@ + key + "`"@),
                    Some(i) => Ok(if acc.contains(pid(i)) { acc } else { acc.push(pid(i)) }),
                }
            },
        }
    }
}

/// The people of related records that are person records, in order.
pub open spec fn related_people(prs: Seq<LocalMarkdownRecord>, related: Seq<Seq<char>>) -> Seq<PersonId>
    decreases related.len(),
{
    if related.len() == 0 {
        seq![]
    } else {
        related_people(prs, related.drop_last()) + match person_index(prs, related.last()) {
            Some(i) => seq![pid(i)],
            None => seq![],
        }
    }
}

/// The people an event record is about: its participants (or subject),
/// else its related records; an error when one of them is unknown, or when
/// none is a person.
pub open spec fn event_people(r: LocalMarkdownRecord, prs: Seq<LocalMarkdownRecord>) -> Result<Seq<PersonId>, Seq<char>> {
    let ps = lookup(r.attributes@, "participants"@);
    let found = if ps is None && lookup(r.attributes@, "subject"@) is None {
        Ok(related_people(prs, texts(r.related@)))
    } else if ps matches Some(v) && !(v is Array) {
        Err(r.path@ + " `participants` must be an array"@)
    } else {
        participants_from(prs, r.path@, spec_participant_refs(r).map_values(|x: RefView| x.0))
    };
    match found {
        Err(m) => Err(m),
        Ok(p) => if p.len() == 0 {
            Err(r.path@ + " event has no known person participants"@)
        } else {
            Ok(p)
        },
    }
}

fn contains_pid(v: &Vec<PersonId>, x: PersonId) -> (b: bool)
    ensures
        b == v@.contains(x),
{
    let mut i: usize = 0;
    while i < v.len()
        invariant
            i <= v@.len(),
            forall|j: int| 0 <= j < i ==> v@[j] != x,
        decreases v@.len() - i,
    {
        if v[i] == x {
            return true;
        }
        i = i + 1;
    }
    false
}

fn fail_msg(m: String) -> (r: Result<Vec<PersonId>, LocalAuthoringError>)
    ensures
        r matches Err(e) && is_validation(e, m@),
{
    Err(LocalAuthoringError::validation(m))
}

fn msg2(a: &str, b: &str) -> (r: String)
    ensures
        r@ == a@ + b@,
{
    let mut r = a.to_owned();
    r.append(b);
    r
}

fn msg3(a: &str, b: &str, c: &str) -> (r: String)
    ensures
        r@ == a@ + b@ + c@,
{
    let mut r = a.to_owned();
    r.append(b);
    r.append(c);
    r
}

/// Whether an event result is the expected one.
pub open spec fn people_result(r: Result<Vec<PersonId>, LocalAuthoringError>, s: Result<Seq<PersonId>, Seq<char>>) -> bool {
    match s {
        Ok(p) => r matches Ok(v) && v@ == p,
        Err(m) => r matches Err(e) && is_validation(e, m),
    }
}

fn event_people_of(r: &LocalMarkdownRecord, prs: &Vec<&LocalMarkdownRecord>) -> (res: Result<Vec<PersonId>, LocalAuthoringError>)
    requires
        prs@.len() < u64::MAX,
    ensures
        people_result(res, event_people(*r, deref_records(prs@))),
{
    let ghost all = deref_records(prs@);
    let mut out: Vec<PersonId> = Vec::new();
    let ps = r.attr("participants");
    if ps.is_none() && r.attr("subject").is_none() {
        let mut i: usize = 0;
        assert(texts(r.related@).take(0) =~= seq![]);
        while i < r.related.len()
            invariant
                i <= r.related@.len(),
                all == deref_records(prs@),
                prs@.len() < u64::MAX,
                out@ == related_people(all, texts(r.related@).take(i as int)),
            decreases r.related@.len() - i,
        {
            assert(texts(r.related@).take(i + 1).drop_last() =~= texts(r.related@).take(i as int));
            assert(texts(r.related@).take(i + 1).last() == r.related@[i as int]@);
            let ghost before = out@;
            match find_person(prs, r.related[i].as_str()) {
                Some(k) => {
                    out.push(PersonId(k as u64 + 1));
                    assert(out@ =~= before + seq![pid(k as int)]);
                },
                None => {
                    assert(out@ =~= before + Seq::<PersonId>::empty());
                },
            }
            i = i + 1;
        }
        assert(texts(r.related@).take(i as int) =~= texts(r.related@));
    } else {
        let is_array = match ps {
            Some(JsonValue::Array(_)) => true,
            Some(_) => false,
            None => true,
        };
        if !is_array {
            return fail_msg(msg2(r.path.as_str(), " `participants` must be an array"));
        }
        let refs = event_participant_refs(r);
        let ghost es = spec_participant_refs(*r).map_values(|x: RefView| x.0);
        assert(ref_views(refs@) == spec_participant_refs(*r));
        let mut i: usize = 0;
        assert(es.take(0) =~= seq![]);
        while i < refs.len()
            invariant
                i <= refs@.len(),
                all == deref_records(prs@),
                prs@.len() < u64::MAX,
                es == ref_views(refs@).map_values(|x: RefView| x.0),
                es == spec_participant_refs(*r).map_values(|x: RefView| x.0),
                !(lookup(r.attributes@, "participants"@) is None && lookup(r.attributes@, "subject"@) is None),
                !(lookup(r.attributes@, "participants"@) matches Some(v) && !(v is Array)),
                participants_from(all, r.path@, es.take(i as int)) == Ok::<Seq<PersonId>, Seq<char>>(out@),
            decreases refs@.len() - i,
        {
            assert(es.take(i + 1).drop_last() =~= es.take(i as int));
            assert(es.take(i + 1).last() == refs@[i as int].entity@);
            let key = resolve_key_of(prs, refs[i].entity.as_str());
            match find_person(prs, key.as_str()) {
                None => {
                    let mut m = msg3(r.path.as_str(), " references missing participant `", key.as_str());
                    m.append("`");
                    proof {
                        assert(participants_from(all, r.path@, es.take(i + 1)) == Err::<Seq<PersonId>, Seq<char>>(m@));
                        lemma_participants_stop(all, r.path@, es, i as int + 1);
                        assert(es == spec_participant_refs(*r).map_values(|x: RefView| x.0));
                    }
                    return fail_msg(m);
                },
                Some(k) => {
                    let p = PersonId(k as u64 + 1);
                    if !contains_pid(&out, p) {
                        out.push(p);
                    }
                },
            }
            i = i + 1;
        }
        assert(es.take(i as int) =~= es);
    }
    if out.len() == 0 {
        return fail_msg(msg2(r.path.as_str(), " event has no known person participants"));
    }
    Ok(out)
}

proof fn lemma_participants_stop(prs: Seq<LocalMarkdownRecord>, path: Seq<char>, es: Seq<Seq<char>>, k: int)
    requires
        0 <= k <= es.len(),
        participants_from(prs, path, es.take(k)) is Err,
    ensures
        participants_from(prs, path, es) == participants_from(prs, path, es.take(k)),
    decreases es.len(),
{
    if k < es.len() {
        assert(es.drop_last().take(k) =~= es.take(k));
        lemma_participants_stop(prs, path, es.drop_last(), k);
    } else {
        assert(es.take(k) =~= es);
    }
}

/// The names an event's label uses, each person by display name.
pub open spec fn tree_label_names(r: LocalMarkdownRecord, prs: Seq<LocalMarkdownRecord>) -> Seq<Seq<char>> {
    let refs = spec_participant_refs(r);
    first_occurrences((subject_entities(refs) + other_entities(refs, refs)).map_values(|e: Seq<char>| tree_name(prs, e)))
}

fn tree_label_names_of(r: &LocalMarkdownRecord, prs: &Vec<&LocalMarkdownRecord>) -> (names: Vec<String>)
    ensures
        texts(names@) == tree_label_names(*r, deref_records(prs@)),
{
    let ps = event_participant_refs(r);
    let ghost all = deref_records(prs@);
    let ghost refs = ref_views(ps@);
    let ghost f = |e: Seq<char>| tree_name(all, e);
    let ghost subj = subject_entities(refs);
    let mut out: Vec<String> = Vec::new();
    let mut i: usize = 0;
    assert(refs.take(0) =~= seq![]);
    assert(texts(out@) =~= seq![]);
    assert(subject_entities(refs.take(0)).map_values(f) =~= seq![]);
    while i < ps.len()
        invariant
            i <= ps@.len(),
            all == deref_records(prs@),
            refs == ref_views(ps@),
            refs == spec_participant_refs(*r),
            f == (|e: Seq<char>| tree_name(all, e)),
            texts(out@) == first_occurrences(subject_entities(refs.take(i as int)).map_values(f)),
        decreases ps@.len() - i,
    {
        assert(refs.take(i + 1).drop_last() =~= refs.take(i as int));
        assert(refs.take(i + 1).last() == refs[i as int]);
        if is_subject_role(&ps[i].role) {
            let name = tree_name_of(prs, ps[i].entity.as_str());
            let ghost prev = subject_entities(refs.take(i as int)).map_values(f);
            let ghost next = subject_entities(refs.take(i + 1)).map_values(f);
            assert(refs[i as int].0 == ps@[i as int].entity@);
            assert(next =~= prev.push(f(refs[i as int].0)));
            assert(next.drop_last() =~= prev);
            push_name(&mut out, name);
        } else {
            assert(subject_entities(refs.take(i + 1)) == subject_entities(refs.take(i as int)));
        }
        i = i + 1;
    }
    assert(refs.take(i as int) =~= refs);
    let mut k: usize = 0;
    assert(subj.map_values(f) + other_entities(refs.take(0), refs).map_values(f) =~= subj.map_values(f));
    while k < ps.len()
        invariant
            k <= ps@.len(),
            all == deref_records(prs@),
            refs == ref_views(ps@),
            subj == subject_entities(refs),
            f == (|e: Seq<char>| tree_name(all, e)),
            texts(out@) == first_occurrences(subj.map_values(f) + other_entities(refs.take(k as int), refs).map_values(f)),
        decreases ps@.len() - k,
    {
        assert(refs.take(k + 1).drop_last() =~= refs.take(k as int));
        assert(refs.take(k + 1).last() == refs[k as int]);
        if !seen_in_subject_role(&ps, ps[k].entity.as_str()) {
            let name = tree_name_of(prs, ps[k].entity.as_str());
            let ghost prev = subj.map_values(f) + other_entities(refs.take(k as int), refs).map_values(f);
            let ghost next = subj.map_values(f) + other_entities(refs.take(k + 1), refs).map_values(f);
            assert(refs[k as int].0 == ps@[k as int].entity@);
            assert(next =~= prev.push(f(refs[k as int].0)));
            assert(next.drop_last() =~= prev);
            push_name(&mut out, name);
        } else {
            assert(other_entities(refs.take(k + 1), refs) == other_entities(refs.take(k as int), refs));
        }
        k = k + 1;
    }
    assert(refs.take(k as int) =~= refs);
    assert(subj.map_values(f) + other_entities(refs, refs).map_values(f)
        =~= (subject_entities(refs) + other_entities(refs, refs)).map_values(f));
    out
}

/// The kind of event a type name gives.
pub open spec fn kind_named(k: GenealogyEventKind, t: Seq<char>) -> bool {
    match k {
        GenealogyEventKind::Birth => t == "birth"@,
        GenealogyEventKind::Death => t == "death"@,
        GenealogyEventKind::Marriage => t == "marriage"@,
        GenealogyEventKind::Baptism => t == "baptism"@,
        GenealogyEventKind::Burial => t == "burial"@,
        GenealogyEventKind::Residence => t == "residence"@,
        GenealogyEventKind::Occupation => t == "occupation"@,
        GenealogyEventKind::Other(s) => s@ == t && t != "birth"@ && t != "death"@ && t != "marriage"@
            && t != "baptism"@ && t != "burial"@ && t != "residence"@ && t != "occupation"@,
    }
}

fn kind_of_text(t: &str) -> (k: GenealogyEventKind)
    ensures
        kind_named(k, t@),
{
    if str_eq(t, "birth") {
        GenealogyEventKind::Birth
    } else if str_eq(t, "death") {
        GenealogyEventKind::Death
    } else if str_eq(t, "marriage") {
        GenealogyEventKind::Marriage
    } else if str_eq(t, "baptism") {
        GenealogyEventKind::Baptism
    } else if str_eq(t, "burial") {
        GenealogyEventKind::Burial
    } else if str_eq(t, "residence") {
        GenealogyEventKind::Residence
    } else if str_eq(t, "occupation") {
        GenealogyEventKind::Occupation
    } else {
        GenealogyEventKind::Other(t.to_owned())
    }
}

/// When an event record happened: its `date`, else its `time` when that is a string.
pub open spec fn event_date_text(r: LocalMarkdownRecord) -> Option<Seq<char>> {
    first_of(opt_string(r.date), attr_str(r, "time"@))
}

/// An event record's description: its title, else its summary, else the
/// label its type gives for its people.
pub open spec fn event_description(r: LocalMarkdownRecord, prs: Seq<LocalMarkdownRecord>) -> Option<Seq<char>> {
    first_of(
        record_title(r),
        first_of(
            opt_string(r.summary),
            match record_type_name(r) {
                Some(n) => spec_default_label(tag_of_name(n), tree_label_names(r, prs)),
                None => None,
            },
        ),
    )
}

pub open spec fn source_texts(ss: Seq<SourceRef>) -> Seq<Seq<char>> {
    ss.map_values(|x: SourceRef| x.0@)
}

/// `e` is the event with id `id` of the event record `r`, about `people`.
pub open spec fn record_event(e: GenealogyEvent, id: int, r: LocalMarkdownRecord, people: Seq<PersonId>, prs: Seq<LocalMarkdownRecord>) -> bool {
    &&& e.id == EventId(id as u64)
    &&& kind_named(e.kind, match record_type_name(r) {
        Some(n) => n,
        None => r.kind@,
    })
    &&& match event_date_text(r) {
        Some(d) => e.date matches Some(dv) && dv.original@ == d && dv.historical is None
            && dv.range == DateValue::spec_original_range(d) && record_provenance(dv.provenance, r),
        None => e.date is None,
    }
    &&& opt_string(e.time) == field_text(r, "time"@)
    &&& opt_string(e.time_zone) == field_text(r, "time_zone"@)
    &&& e.place is None
    &&& opt_string(e.description) == event_description(r, prs)
    &&& e.participants@ == people
    &&& source_texts(e.provenance.sources@) == seq!["local:"@ + r.id@]
        + string_array(lookup(r.attributes@, "sources"@)).map_values(|x: Seq<char>| spec_contextual_id(x, "source"@))
    &&& e.provenance.tags@.len() == 0
}

fn event_from_record(r: &LocalMarkdownRecord, id: u64, people: Vec<PersonId>, prs: &Vec<&LocalMarkdownRecord>) -> (e: GenealogyEvent)
    ensures
        record_event(e, id as int, *r, people@, deref_records(prs@)),
{
    let ghost ps = people@;
    let named_type = local_event_type_id(r);
    let kind = match &named_type {
        Some(t) => kind_of_text(t.as_str()),
        None => kind_of_text(r.kind.as_str()),
    };
    let date_text = match &r.date {
        Some(d) => Some(d.clone()),
        None => attr_str_of(r, "time"),
    };
    let date = match date_text {
        Some(d) => Some(DateValue::from_original(d, provenance_of(r))),
        None => None,
    };
    let description = match record_title_of(r) {
        Some(t) => Some(t),
        None => match &r.summary {
            Some(s) => Some(s.clone()),
            None => match local_event_type(r) {
                Some(t) => {
                    let names = tree_label_names_of(r, prs);
                    t.default_label(&names)
                },
                None => None,
            },
        },
    };
    let mut provenance = provenance_of(r);
    let sources = string_array_of(r.attr("sources"));
    let ghost base = source_texts(provenance.sources@);
    let mut i: usize = 0;
    while i < sources.len()
        invariant
            i <= sources@.len(),
            provenance.tags@.len() == 0,
            source_texts(provenance.sources@) == base + texts(sources@).take(i as int).map_values(|x: Seq<char>| spec_contextual_id(x, "source"@)),
        decreases sources@.len() - i,
    {
        let ghost before = source_texts(provenance.sources@);
        provenance.sources.push(SourceRef(crate::local_authoring::refs::normalize_source_id(sources[i].as_str())));
        assert(source_texts(provenance.sources@) =~= before.push(spec_contextual_id(sources@[i as int]@, "source"@)));
        assert(texts(sources@).take(i + 1) =~= texts(sources@).take(i as int).push(sources@[i as int]@));
        assert(texts(sources@).take(i + 1).map_values(|x: Seq<char>| spec_contextual_id(x, "source"@))
            =~= texts(sources@).take(i as int).map_values(|x: Seq<char>| spec_contextual_id(x, "source"@)).push(spec_contextual_id(sources@[i as int]@, "source"@)));
        i = i + 1;
    }
    assert(texts(sources@).take(i as int) =~= texts(sources@));
    assert(base =~= seq!["local:"@ + r.id@]);
    GenealogyEvent {
        id: EventId(id),
        kind,
        date,
        time: value_as_text(r.attr("time")),
        time_zone: value_as_text(r.attr("time_zone")),
        place: None,
        description,
        participants: people,
        provenance,
    }
}

pub open spec fn event_records(rs: Seq<LocalMarkdownRecord>) -> Seq<LocalMarkdownRecord>
    decreases rs.len(),
{
    if rs.len() == 0 {
        seq![]
    } else {
        event_records(rs.drop_last()) + if rs.last().kind@ == "event"@ {
            seq![rs.last()]
        } else {
            seq![]
        }
    }
}

/// The first event record whose people cannot be found, as an error.
pub open spec fn events_error(ers: Seq<LocalMarkdownRecord>, prs: Seq<LocalMarkdownRecord>) -> Option<Seq<char>>
    decreases ers.len(),
{
    if ers.len() == 0 {
        None
    } else {
        match events_error(ers.drop_last(), prs) {
            Some(m) => Some(m),
            None => match event_people(ers.last(), prs) {
                Err(m) => Some(m),
                Ok(_) => None,
            },
        }
    }
}

proof fn lemma_events_error_prefix(ers: Seq<LocalMarkdownRecord>, prs: Seq<LocalMarkdownRecord>, k: int)
    requires
        0 <= k <= ers.len(),
        events_error(ers.take(k), prs) is Some,
    ensures
        events_error(ers, prs) == events_error(ers.take(k), prs),
    decreases ers.len(),
{
    if k < ers.len() {
        assert(ers.drop_last().take(k) =~= ers.take(k));
        lemma_events_error_prefix(ers.drop_last(), prs, k);
    } else {
        assert(ers.take(k) =~= ers);
    }
}

/// The events of the event records, after `base` events.
pub open spec fn record_events_ok(es: Seq<GenealogyEvent>, base: int, ers: Seq<LocalMarkdownRecord>, prs: Seq<LocalMarkdownRecord>) -> bool {
    &&& es.len() == base + ers.len()
    &&& forall|j: int| 0 <= j < ers.len() ==> #[trigger] event_at(es, base, ers, prs, j)
}

/// The `j`-th event record gave the event after `base` others.
pub open spec fn event_at(es: Seq<GenealogyEvent>, base: int, ers: Seq<LocalMarkdownRecord>, prs: Seq<LocalMarkdownRecord>, j: int) -> bool {
    event_people(ers[j], prs) matches Ok(p) && record_event(es[base + j], base + j + 1, ers[j], p, prs)
}

fn add_record_events(events: &mut Vec<GenealogyEvent>, rs: &Vec<LocalMarkdownRecord>, prs: &Vec<&LocalMarkdownRecord>) -> (res: Result<(), LocalAuthoringError>)
    requires
        prs@.len() < u64::MAX,
        old(events)@.len() + rs@.len() < u64::MAX,
    ensures
        match events_error(event_records(rs@), deref_records(prs@)) {
            Some(m) => res matches Err(e) && is_validation(e, m),
            None => res is Ok && final(events)@.take(old(events)@.len() as int) == old(events)@
                && record_events_ok(final(events)@, old(events)@.len() as int, event_records(rs@), deref_records(prs@)),
        },
{
    let ghost all = deref_records(prs@);
    let ghost start = events@;
    let base = events.len();
    let mut i: usize = 0;
    assert(event_records(rs@.take(0)) =~= seq![]);
    assert(events@.take(base as int) =~= start);
    while i < rs.len()
        invariant
            i <= rs@.len(),
            all == deref_records(prs@),
            prs@.len() < u64::MAX,
            base == start.len(),
            base + rs@.len() < u64::MAX,
            events_error(event_records(rs@.take(i as int)), all) is None,
            events@.take(base as int) == start,
            event_records(rs@.take(i as int)).len() <= i,
            record_events_ok(events@, base as int, event_records(rs@.take(i as int)), all),
        decreases rs@.len() - i,
    {
        let ghost pre = event_records(rs@.take(i as int));
        assert(rs@.take(i + 1).drop_last() =~= rs@.take(i as int));
        assert(rs@.take(i + 1).last() == rs@[i as int]);
        let r = &rs[i];
        if str_eq(r.kind.as_str(), "event") {
            let ghost post = pre.push(*r);
            assert(event_records(rs@.take(i + 1)) =~= post);
            assert(post.drop_last() =~= pre);
            match event_people_of(r, prs) {
                Err(e) => {
                    proof {
                        lemma_event_records_prefix(rs@, i as int + 1);
                        assert(events_error(post, all) is Some);
                        lemma_events_error_prefix(event_records(rs@), all, post.len() as int);
                    }
                    return Err(e);
                },
                Ok(people) => {
                    let id = events.len() as u64 + 1;
                    let ghost before = events@;
                    let ghost pv = people@;
                    assert(event_people(*r, all) == Ok::<Seq<PersonId>, Seq<char>>(pv));
                    let e = event_from_record(r, id, people, prs);
                    events.push(e);
                    assert(events@.take(base as int) =~= start) by {
                        assert(before.take(base as int) =~= start);
                    }
                    assert forall|j: int| 0 <= j < post.len() implies #[trigger] event_at(events@, base as int, post, all, j) by {
                        if j < pre.len() {
                            assert(post[j] == pre[j]);
                            assert(events@[base + j] == before[base + j]);
                            assert(event_at(before, base as int, pre, all, j));
                        } else {
                            assert(post[j] == *r);
                            assert(events@[base + j] == e);
                        }
                    }
                    assert(events@.len() == base + post.len());
                    assert(record_events_ok(events@, base as int, post, all));
                },
            }
        } else {
            assert(event_records(rs@.take(i + 1)) =~= pre);
        }
        i = i + 1;
    }
    assert(rs@.take(i as int) =~= rs@);
    Ok(())
}

proof fn lemma_event_records_prefix(rs: Seq<LocalMarkdownRecord>, k: int)
    requires
        0 <= k <= rs.len(),
    ensures
        event_records(rs.take(k)) == event_records(rs).take(event_records(rs.take(k)).len() as int),
        event_records(rs.take(k)).len() <= event_records(rs).len(),
    decreases rs.len(),
{
    if k < rs.len() {
        assert(rs.drop_last().take(k) =~= rs.take(k));
        lemma_event_records_prefix(rs.drop_last(), k);
        let a = event_records(rs.drop_last());
        let b = event_records(rs);
        assert(b.take(a.len() as int) =~= a);
        let c = event_records(rs.take(k));
        assert(b.take(c.len() as int) =~= a.take(c.len() as int));
    } else {
        assert(rs.take(k) =~= rs);
        assert(event_records(rs).take(event_records(rs).len() as int) =~= event_records(rs));
    }
}

// ---------------------------------------------------------------------------
// Relationship documents.

pub open spec fn relationship_docs(ds: Seq<LocalTomlDocument>) -> Seq<LocalTomlDocument>
    decreases ds.len(),
{
    if ds.len() == 0 {
        seq![]
    } else {
        relationship_docs(ds.drop_last()) + if opt_string(ds.last().kind) == Some("relationship"@) {
            seq![ds.last()]
        } else {
            seq![]
        }
    }
}

pub open spec fn role_named(v: Seq<char>) -> Option<ParentRole> {
    if v == "father"@ {
        Some(ParentRole::Father)
    } else if v == "mother"@ {
        Some(ParentRole::Mother)
    } else if v == "parent"@ {
        Some(ParentRole::Parent)
    } else if v == "unknown"@ {
        Some(ParentRole::Unknown)
    } else {
        None
    }
}

/// The sex of the last person record with the id `key` that gives one.
pub open spec fn sex_for_key(prs: Seq<LocalMarkdownRecord>, key: Seq<char>) -> Option<Sex>
    decreases prs.len(),
{
    if prs.len() == 0 {
        None
    } else if prs.last().id@ == key && sex_of(prs.last()) is Some {
        sex_of(prs.last())
    } else {
        sex_for_key(prs.drop_last(), key)
    }
}

pub open spec fn role_of_sex(s: Option<Sex>) -> Option<ParentRole> {
    match s {
        Some(Sex::Male) => Some(ParentRole::Father),
        Some(Sex::Female) => Some(ParentRole::Mother),
        _ => None,
    }
}

/// The parent's role in a parent/child relationship: as written, else from
/// the parent's sex.
pub open spec fn parent_role_for(d: LocalTomlDocument, k: RelationshipKind, source_key: Seq<char>, prs: Seq<LocalMarkdownRecord>) -> Option<ParentRole> {
    if !spec_is_parent_child(k) {
        None
    } else {
        match str_field(d.data, "parent_role"@) {
            Some(v) if role_named(v) is Some => role_named(v),
            _ => role_of_sex(sex_for_key(prs, source_key)),
        }
    }
}

/// A relationship kind matches a value of a view's `relationship_kinds`.
pub open spec fn kind_matches(k: RelationshipKind, v: Seq<char>) -> bool {
    let t = trim_seq(v);
    ||| t == spec_kind_value(k)
    ||| ((t == "parent"@ || t == "child"@ || t == "parent-child"@) && spec_is_parent_child(k))
    ||| (t == "partner-or-spouse"@ && (k is Spouse || k is Partner || k is FormerSpouse))
}

pub open spec fn kind_allowed(k: RelationshipKind, filter: Option<Seq<Seq<char>>>) -> bool {
    match filter {
        None => true,
        Some(vs) => exists|i: int| 0 <= i < vs.len() && kind_matches(k, #[trigger] vs[i]),
    }
}

/// A view's projection table: `projection`, else `filter`.
pub open spec fn projection(d: LocalTomlDocument) -> Option<JsonValue> {
    match spec_get(d.data, "projection"@) {
        Some(p) => Some(p),
        None => spec_get(d.data, "filter"@),
    }
}

/// The relationship kinds a view keeps, when it names some.
pub open spec fn view_kind_filter(view: Option<LocalTomlDocument>) -> Option<Seq<Seq<char>>> {
    match view {
        Some(d) => match projection(d) {
            Some(p) => match spec_get(p, "relationship_kinds"@) {
                Some(JsonValue::Array(items)) => {
                    let vs = string_array(Some(JsonValue::Array(items)));
                    if vs.len() == 0 { None } else { Some(vs) }
                },
                _ => None,
            },
            None => None,
        },
        None => None,
    }
}

pub open spec fn doc_ref(d: LocalTomlDocument) -> Seq<char> {
    match opt_string(d.id) {
        Some(i) => i,
        None => d.path@,
    }
}

/// What a relationship document gives: the error it raises, or its kind
/// and the positions of its two people.
pub open spec fn relationship_of(d: LocalTomlDocument, prs: Seq<LocalMarkdownRecord>) -> Result<(int, int), Seq<char>> {
    match str_field(d.data, "source"@) {
        None => Err(d.path@ + " missing required `source`"@),
        Some(src) => match str_field(d.data, "target"@) {
            None => Err(d.path@ + " missing required `target`"@),
            Some(tgt) => {
                let sk = resolve_key(prs, src);
                let tk = resolve_key(prs, tgt);
                match person_index(prs, sk) {
                    None => Err(d.path@ + " references missing source person `"@ + sk + "`"@),
                    Some(si) => match person_index(prs, tk) {
                        None => Err(d.path@ + " references missing target person `"@ + tk + "`"@),
                        Some(ti) => Ok((si, ti)),
                    },
                }
            },
        },
    }
}

pub open spec fn relationships_error(docs: Seq<LocalTomlDocument>, prs: Seq<LocalMarkdownRecord>) -> Option<Seq<char>>
    decreases docs.len(),
{
    if docs.len() == 0 {
        None
    } else {
        match relationships_error(docs.drop_last(), prs) {
            Some(m) => Some(m),
            None => match relationship_of(docs.last(), prs) {
                Err(m) => Some(m),
                Ok(_) => None,
            },
        }
    }
}

/// The relationship documents whose kind the view keeps, in order.
pub open spec fn kept_docs(docs: Seq<LocalTomlDocument>, filter: Option<Seq<Seq<char>>>) -> Seq<LocalTomlDocument>
    decreases docs.len(),
{
    if docs.len() == 0 {
        seq![]
    } else {
        kept_docs(docs.drop_last(), filter) + if kind_allowed_text(kind_text(docs.last().data), filter) {
            seq![docs.last()]
        } else {
            seq![]
        }
    }
}

/// A filter value keeps the kind that the text `t` names.
pub open spec fn kind_text_matches(t: Seq<char>, v: Seq<char>) -> bool {
    let w = trim_seq(v);
    ||| w == t
    ||| ((w == "parent"@ || w == "child"@ || w == "parent-child"@) && crate::local_authoring::kinship::is_parent_child_value(t))
    ||| (w == "partner-or-spouse"@ && (t == "spouse"@ || t == "partner"@ || t == "former-spouse"@))
}

/// The kind a text names is kept.
pub open spec fn kind_allowed_text(t: Seq<char>, filter: Option<Seq<Seq<char>>>) -> bool {
    match filter {
        None => true,
        Some(vs) => any_matches(t, vs),
    }
}

/// Some value of `vs` keeps the kind the text `t` names.
pub open spec fn any_matches(t: Seq<char>, vs: Seq<Seq<char>>) -> bool
    decreases vs.len(),
{
    vs.len() > 0 && (any_matches(t, vs.drop_last()) || kind_text_matches(t, vs.last()))
}

proof fn lemma_any_matches_prefix(t: Seq<char>, vs: Seq<Seq<char>>, k: int)
    requires
        0 <= k <= vs.len(),
        any_matches(t, vs.take(k)),
    ensures
        any_matches(t, vs),
    decreases vs.len(),
{
    if k < vs.len() {
        assert(vs.drop_last().take(k) =~= vs.take(k));
        lemma_any_matches_prefix(t, vs.drop_last(), k);
    } else {
        assert(vs.take(k) =~= vs);
    }
}

/// The kind named by a text matches a value exactly when the text does.
pub proof fn lemma_kind_matches_text(t: Seq<char>, k: RelationshipKind, v: Seq<char>)
    requires
        kind_named_by(t, k),
    ensures
        kind_matches(k, v) == kind_text_matches(t, v),
{
    crate::tree::law_kind_value_round_trip(t, k);
    reveal_strlit("biological-parent-child");
    reveal_strlit("adoptive-parent-child");
    reveal_strlit("foster-parent-child");
    reveal_strlit("step-parent-child");
    reveal_strlit("guardian-child");
    reveal_strlit("spouse");
    reveal_strlit("partner");
    reveal_strlit("former-spouse");
    assert("biological-parent-child"@.len() == 23);
    assert("adoptive-parent-child"@.len() == 21);
    assert("foster-parent-child"@.len() == 19);
    assert("step-parent-child"@.len() == 17);
    assert("guardian-child"@.len() == 14);
    assert("spouse"@.len() == 6);
    assert("partner"@.len() == 7);
    assert("former-spouse"@.len() == 13);
}

/// `rel` is the relationship with id `id` that the document `d` gives.
pub open spec fn relationship_from(rel: TreeRelationship, id: int, d: LocalTomlDocument, prs: Seq<LocalMarkdownRecord>) -> bool {
    &&& rel.id == RelationshipId(id as u64)
    &&& kind_named_by(kind_text(d.data), rel.kind)
    &&& relationship_of(d, prs) matches Ok((si, ti)) && rel.source == pid(si) && rel.target == pid(ti)
        && rel.parent_role == parent_role_for(d, rel.kind, resolve_key(prs, str_field(d.data, "source"@).unwrap()), prs)
    &&& opt_string(rel.label) == opt_string(d.title)
    &&& rel.events@.len() == 0
    &&& rel.categories@.len() == 0
    &&& source_texts(rel.provenance.sources@) == seq!["local:"@ + doc_ref(d)]
    &&& rel.provenance.tags@.len() == 0
}

fn field_str_of(v: &JsonValue, key: &str) -> (r: Option<String>)
    ensures
        opt_string(r) == str_field(*v, key@),
{
    match v.get(key) {
        Some(x) => match x.as_str() {
            Some(s) => Some(s.to_owned()),
            None => None,
        },
        None => None,
    }
}

fn kind_text_of(v: &JsonValue) -> (r: String)
    ensures
        r@ == kind_text(*v),
{
    match field_str_of(v, "relationship") {
        Some(k) => k,
        None => match field_str_of(v, "relationship_kind") {
            Some(k) => k,
            None => match field_str_of(v, "relation") {
                Some(k) => k,
                None => "associate".to_owned(),
            },
        },
    }
}

fn role_named_of(v: &str) -> (r: Option<ParentRole>)
    ensures
        r == role_named(v@),
{
    if str_eq(v, "father") {
        Some(ParentRole::Father)
    } else if str_eq(v, "mother") {
        Some(ParentRole::Mother)
    } else if str_eq(v, "parent") {
        Some(ParentRole::Parent)
    } else if str_eq(v, "unknown") {
        Some(ParentRole::Unknown)
    } else {
        None
    }
}

pub(crate) fn sex_for_key_of(prs: &Vec<&LocalMarkdownRecord>, key: &str) -> (r: Option<Sex>)
    ensures
        r == sex_for_key(deref_records(prs@), key@),
{
    let ghost all = deref_records(prs@);
    let mut i: usize = prs.len();
    assert(all.take(i as int) =~= all);
    while i > 0
        invariant
            i <= prs@.len(),
            all == deref_records(prs@),
            sex_for_key(all, key@) == sex_for_key(all.take(i as int), key@),
        decreases i,
    {
        let ghost t = all.take(i as int);
        assert(t.drop_last() =~= all.take(i - 1));
        assert(t.last() == *prs@[i - 1]);
        let r = prs[i - 1];
        if str_eq(r.id.as_str(), key) {
            match attr_str_of(r, "sex") {
                Some(v) => return Some(parse_sex_of(v.as_str())),
                None => {},
            }
        }
        i = i - 1;
    }
    assert(all.take(0) =~= seq![]);
    None
}

fn parent_role_of(d: &LocalTomlDocument, k: &RelationshipKind, source_key: &str, prs: &Vec<&LocalMarkdownRecord>) -> (r: Option<ParentRole>)
    ensures
        r == parent_role_for(*d, *k, source_key@, deref_records(prs@)),
{
    if !k.is_parent_child() {
        return None;
    }
    let named = match field_str_of(&d.data, "parent_role") {
        Some(v) => role_named_of(v.as_str()),
        None => None,
    };
    match named {
        Some(role) => Some(role),
        None => match sex_for_key_of(prs, source_key) {
            Some(Sex::Male) => Some(ParentRole::Father),
            Some(Sex::Female) => Some(ParentRole::Mother),
            _ => None,
        },
    }
}

fn projection_of(d: &LocalTomlDocument) -> (r: Option<&JsonValue>)
    ensures
        deref_opt(r) == projection(*d),
{
    match d.data.get("projection") {
        Some(p) => Some(p),
        None => d.data.get("filter"),
    }
}

fn view_kind_filter_of(view: Option<&LocalTomlDocument>) -> (r: Option<Vec<String>>)
    ensures
        match r {
            Some(v) => view_kind_filter(match view { Some(d) => Some(*d), None => None }) == Some(texts(v@)),
            None => view_kind_filter(match view { Some(d) => Some(*d), None => None }) is None,
        },
{
    let d = match view {
        Some(d) => d,
        None => return None,
    };
    let p = match projection_of(d) {
        Some(p) => p,
        None => return None,
    };
    match p.get("relationship_kinds") {
        Some(JsonValue::Array(items)) => {
            let vs = string_array_of(p.get("relationship_kinds"));
            if vs.len() == 0 {
                None
            } else {
                Some(vs)
            }
        },
        _ => None,
    }
}

fn kind_allowed_of(t: &str, filter: &Option<Vec<String>>) -> (b: bool)
    ensures
        b == kind_allowed_text(t@, match filter { Some(v) => Some(texts(v@)), None => None }),
{
    let vs = match filter {
        Some(v) => v,
        None => return true,
    };
    let ghost tv = texts(vs@);
    let mut i: usize = 0;
    assert(tv.take(0) =~= seq![]);
    while i < vs.len()
        invariant
            i <= vs@.len(),
            tv == texts(vs@),
            filter matches Some(v) && texts(v@) == tv,
            !any_matches(t@, tv.take(i as int)),
        decreases vs@.len() - i,
    {
        let w = crate::text::trim(vs[i].as_str());
        let wv = w.as_str();
        let m = str_eq(wv, t)
            || ((str_eq(wv, "parent") || str_eq(wv, "child") || str_eq(wv, "parent-child"))
                && (str_eq(t, "biological-parent-child") || str_eq(t, "adoptive-parent-child")
                    || str_eq(t, "foster-parent-child") || str_eq(t, "step-parent-child") || str_eq(t, "guardian-child")))
            || (str_eq(wv, "partner-or-spouse") && (str_eq(t, "spouse") || str_eq(t, "partner") || str_eq(t, "former-spouse")));
        assert(tv[i as int] == vs@[i as int]@);
        if m {
            assert(kind_text_matches(t@, tv[i as int]));
            assert(tv.take(i + 1).drop_last() =~= tv.take(i as int));
            assert(any_matches(t@, tv.take(i + 1)));
            proof {
                lemma_any_matches_prefix(t@, tv, i + 1);
            }
            return true;
        }
        assert(tv.take(i + 1).drop_last() =~= tv.take(i as int));
        i = i + 1;
    }
    assert(tv.take(i as int) =~= tv);
    false
}

pub open spec fn relationships_ok(rels: Seq<TreeRelationship>, docs: Seq<LocalTomlDocument>, prs: Seq<LocalMarkdownRecord>, filter: Option<Seq<Seq<char>>>) -> bool {
    let kept = kept_docs(docs, filter);
    &&& rels.len() == kept.len()
    &&& forall|j: int| 0 <= j < kept.len() ==> relationship_from(#[trigger] rels[j], j + 1, kept[j], prs)
}

proof fn lemma_relationships_error_prefix(docs: Seq<LocalTomlDocument>, prs: Seq<LocalMarkdownRecord>, k: int)
    requires
        0 <= k <= docs.len(),
        relationships_error(docs.take(k), prs) is Some,
    ensures
        relationships_error(docs, prs) == relationships_error(docs.take(k), prs),
    decreases docs.len(),
{
    if k < docs.len() {
        assert(docs.drop_last().take(k) =~= docs.take(k));
        lemma_relationships_error_prefix(docs.drop_last(), prs, k);
    } else {
        assert(docs.take(k) =~= docs);
    }
}

proof fn lemma_relationship_docs_prefix(ds: Seq<LocalTomlDocument>, k: int)
    requires
        0 <= k <= ds.len(),
    ensures
        relationship_docs(ds.take(k)) == relationship_docs(ds).take(relationship_docs(ds.take(k)).len() as int),
        relationship_docs(ds.take(k)).len() <= relationship_docs(ds).len(),
    decreases ds.len(),
{
    if k < ds.len() {
        assert(ds.drop_last().take(k) =~= ds.take(k));
        lemma_relationship_docs_prefix(ds.drop_last(), k);
        let a = relationship_docs(ds.drop_last());
        let b = relationship_docs(ds);
        assert(b.take(a.len() as int) =~= a);
        let c = relationship_docs(ds.take(k));
        assert(b.take(c.len() as int) =~= a.take(c.len() as int));
    } else {
        assert(ds.take(k) =~= ds);
        assert(relationship_docs(ds).take(relationship_docs(ds).len() as int) =~= relationship_docs(ds));
    }
}

fn fail_rels(m: String) -> (r: Result<Vec<TreeRelationship>, LocalAuthoringError>)
    ensures
        r matches Err(e) && is_validation(e, m@),
{
    Err(LocalAuthoringError::validation(m))
}

fn relationships_of(ds: &Vec<LocalTomlDocument>, prs: &Vec<&LocalMarkdownRecord>, filter: &Option<Vec<String>>) -> (res: Result<Vec<TreeRelationship>, LocalAuthoringError>)
    requires
        prs@.len() < u64::MAX,
        ds@.len() < u64::MAX,
    ensures
        match relationships_error(relationship_docs(ds@), deref_records(prs@)) {
            Some(m) => res matches Err(e) && is_validation(e, m),
            None => res matches Ok(rels) && relationships_ok(rels@, relationship_docs(ds@), deref_records(prs@),
                match filter { Some(v) => Some(texts(v@)), None => None }),
        },
{
    let ghost all = deref_records(prs@);
    let ghost fv = match filter { Some(v) => Some(texts(v@)), None => None::<Seq<Seq<char>>> };
    let mut rels: Vec<TreeRelationship> = Vec::new();
    let mut i: usize = 0;
    assert(relationship_docs(ds@.take(0)) =~= seq![]);
    while i < ds.len()
        invariant
            i <= ds@.len(),
            ds@.len() < u64::MAX,
            prs@.len() < u64::MAX,
            all == deref_records(prs@),
            fv == match filter { Some(v) => Some(texts(v@)), None => None::<Seq<Seq<char>>> },
            relationships_error(relationship_docs(ds@.take(i as int)), all) is None,
            relationship_docs(ds@.take(i as int)).len() <= i,
            kept_docs(relationship_docs(ds@.take(i as int)), fv).len() <= relationship_docs(ds@.take(i as int)).len(),
            relationships_ok(rels@, relationship_docs(ds@.take(i as int)), all, fv),
        decreases ds@.len() - i,
    {
        let ghost pre = relationship_docs(ds@.take(i as int));
        assert(ds@.take(i + 1).drop_last() =~= ds@.take(i as int));
        assert(ds@.take(i + 1).last() == ds@[i as int]);
        let d = &ds[i];
        let is_rel = match &d.kind {
            Some(k) => str_eq(k.as_str(), "relationship"),
            None => false,
        };
        if is_rel {
            let ghost post = pre.push(*d);
            assert(relationship_docs(ds@.take(i + 1)) =~= post);
            assert(post.drop_last() =~= pre);
            proof {
                lemma_relationship_docs_prefix(ds@, i as int + 1);
            }
            let src = match field_str_of(&d.data, "source") {
                Some(s) => s,
                None => {
                    let m = msg2(d.path.as_str(), " missing required `source`");
                    proof {
                        assert(relationships_error(post, all) == Some(m@));
                        lemma_relationships_error_prefix(relationship_docs(ds@), all, post.len() as int);
                    }
                    return fail_rels(m);
                },
            };
            let tgt = match field_str_of(&d.data, "target") {
                Some(t) => t,
                None => {
                    let m = msg2(d.path.as_str(), " missing required `target`");
                    proof {
                        assert(relationships_error(post, all) == Some(m@));
                        lemma_relationships_error_prefix(relationship_docs(ds@), all, post.len() as int);
                    }
                    return fail_rels(m);
                },
            };
            let sk = resolve_key_of(prs, src.as_str());
            let tk = resolve_key_of(prs, tgt.as_str());
            let si = match find_person(prs, sk.as_str()) {
                Some(x) => x,
                None => {
                    let mut m = msg3(d.path.as_str(), " references missing source person `", sk.as_str());
                    m.append("`");
                    proof {
                        assert(relationships_error(post, all) == Some(m@));
                        lemma_relationships_error_prefix(relationship_docs(ds@), all, post.len() as int);
                    }
                    return fail_rels(m);
                },
            };
            let ti = match find_person(prs, tk.as_str()) {
                Some(x) => x,
                None => {
                    let mut m = msg3(d.path.as_str(), " references missing target person `", tk.as_str());
                    m.append("`");
                    proof {
                        assert(relationships_error(post, all) == Some(m@));
                        lemma_relationships_error_prefix(relationship_docs(ds@), all, post.len() as int);
                    }
                    return fail_rels(m);
                },
            };
            assert(relationship_of(*d, all) == Ok::<(int, int), Seq<char>>((si as int, ti as int)));
            let kt = kind_text_of(&d.data);
            let ghost kept_pre = kept_docs(pre, fv);
            if kind_allowed_of(kt.as_str(), filter) {
                let kind = RelationshipKind::from_value(kt.as_str());
                let role = parent_role_of(d, &kind, sk.as_str(), prs);
                let mut sources: Vec<SourceRef> = Vec::new();
                let mut sref = "local:".to_owned();
                match &d.id {
                    Some(x) => sref.append(x.as_str()),
                    None => sref.append(d.path.as_str()),
                }
                sources.push(SourceRef(sref));
                assert(source_texts(sources@) =~= seq!["local:"@ + doc_ref(*d)]);
                let label = match &d.title {
                    Some(t) => Some(t.clone()),
                    None => None,
                };
                let rel = TreeRelationship {
                    id: RelationshipId(rels.len() as u64 + 1),
                    kind,
                    source: PersonId(si as u64 + 1),
                    target: PersonId(ti as u64 + 1),
                    label,
                    parent_role: role,
                    events: Vec::new(),
                    categories: Vec::new(),
                    provenance: Provenance { sources, tags: Vec::new() },
                };
                let ghost before = rels@;
                rels.push(rel);
                assert(kept_docs(post, fv) =~= kept_pre.push(*d));
                assert forall|j: int| 0 <= j < kept_docs(post, fv).len() implies relationship_from(#[trigger] rels@[j], j + 1, kept_docs(post, fv)[j], all) by {
                    if j < kept_pre.len() {
                        assert(rels@[j] == before[j]);
                        assert(kept_docs(post, fv)[j] == kept_pre[j]);
                    } else {
                        assert(kept_docs(post, fv)[j] == *d);
                    }
                }
            } else {
                assert(kept_docs(post, fv) =~= kept_pre);
            }
        } else {
            assert(relationship_docs(ds@.take(i + 1)) =~= pre);
        }
        i = i + 1;
    }
    assert(ds@.take(i as int) =~= ds@);
    Ok(rels)
}


// ---------------------------------------------------------------------------
// Assembling the tree.

/// The references to a world's person records, in order.
fn person_refs(rs: &Vec<LocalMarkdownRecord>) -> (prs: Vec<&LocalMarkdownRecord>)
    ensures
        deref_records(prs@) == person_records(rs@),
{
    let mut prs: Vec<&LocalMarkdownRecord> = Vec::new();
    let mut i: usize = 0;
    assert(deref_records(prs@) =~= person_records(rs@.take(0)));
    while i < rs.len()
        invariant
            i <= rs@.len(),
            deref_records(prs@) == person_records(rs@.take(i as int)),
        decreases rs@.len() - i,
    {
        assert(rs@.take(i as int + 1).drop_last() =~= rs@.take(i as int));
        assert(rs@.take(i as int + 1).last() == rs@[i as int]);
        let ghost before = prs@;
        if str_eq(rs[i].kind.as_str(), "person") {
            prs.push(&rs[i]);
            assert(deref_records(prs@) =~= deref_records(before).push(rs@[i as int]));
        }
        assert(deref_records(prs@) =~= person_records(rs@.take(i as int + 1)));
        i += 1;
    }
    assert(rs@.take(rs@.len() as int) =~= rs@);
    prs
}

/// The ids of the events a person takes part in, in event order.
pub open spec fn events_of_person(es: Seq<GenealogyEvent>, p: PersonId) -> Seq<EventId>
    decreases es.len(),
{
    if es.len() == 0 {
        seq![]
    } else {
        events_of_person(es.drop_last(), p) + if es.last().participants@.contains(p) {
            seq![es.last().id]
        } else {
            seq![]
        }
    }
}

fn events_of_person_exec(es: &Vec<GenealogyEvent>, p: PersonId) -> (v: Vec<EventId>)
    ensures
        v@ == events_of_person(es@, p),
{
    let mut v: Vec<EventId> = Vec::new();
    let mut i: usize = 0;
    while i < es.len()
        invariant
            i <= es@.len(),
            v@ == events_of_person(es@.take(i as int), p),
        decreases es@.len() - i,
    {
        assert(es@.take(i as int + 1).drop_last() =~= es@.take(i as int));
        assert(es@.take(i as int + 1).last() == es@[i as int]);
        if contains_pid(&es[i].participants, p) {
            v.push(es[i].id);
        }
        i += 1;
    }
    assert(es@.take(es@.len() as int) =~= es@);
    v
}

/// `q` is `p` with the events `evs`.
pub open spec fn with_events(q: Person, p: Person, evs: Seq<EventId>) -> bool {
    &&& q.id == p.id
    &&& q.names == p.names
    &&& q.sex == p.sex
    &&& q.events@ == evs
    &&& q.families_as_child == p.families_as_child
    &&& q.families_as_spouse == p.families_as_spouse
    &&& q.notes == p.notes
    &&& q.source_record == p.source_record
    &&& q.provenance == p.provenance
}

fn set_person_events(people: &mut Vec<Person>, es: &Vec<GenealogyEvent>)
    ensures
        final(people)@.len() == old(people)@.len(),
        forall|k: int| 0 <= k < old(people)@.len() ==> with_events(#[trigger] final(people)@[k], old(people)@[k],
            events_of_person(es@, old(people)@[k].id)),
{
    let ghost start = people@;
    let n = people.len();
    let mut k: usize = 0;
    while k < n
        invariant
            k <= n,
            n == people@.len(),
            n == start.len(),
            forall|q: int| 0 <= q < k ==> with_events(#[trigger] people@[q], start[q], events_of_person(es@, start[q].id)),
            forall|q: int| k <= q < n ==> #[trigger] people@[q] == start[q],
        decreases n - k,
    {
        let mut p = people.remove(k);
        let evs = events_of_person_exec(es, p.id);
        p.events = evs;
        people.insert(k, p);
        proof {
            assert forall|q: int| k < q < n implies #[trigger] people@[q] == start[q] by {}
        }
        k += 1;
    }
}

/// The world's registry document.
pub open spec fn is_registry(d: LocalTomlDocument) -> bool {
    opt_string(d.kind) == Some("registry"@) || d.path@ == "world.toml"@
}

/// A tree view, the one named by `slug` when one is named.
pub open spec fn selects_view(d: LocalTomlDocument, slug: Option<Seq<char>>) -> bool {
    &&& opt_string(d.kind) == Some("tree-view"@)
    &&& match slug {
        Some(s) => opt_string(d.id) == Some("tree:"@ + s) || d.path@ == "views/trees/"@ + s + ".toml"@,
        None => true,
    }
}

/// The first registry document.
pub open spec fn first_registry(ds: Seq<LocalTomlDocument>) -> Option<int>
    decreases ds.len(),
{
    if ds.len() == 0 {
        None
    } else {
        match first_registry(ds.drop_last()) {
            Some(i) => Some(i),
            None => if is_registry(ds.last()) { Some(ds.len() - 1) } else { None },
        }
    }
}

/// The first tree view that `slug` selects.
pub open spec fn first_view(ds: Seq<LocalTomlDocument>, slug: Option<Seq<char>>) -> Option<int>
    decreases ds.len(),
{
    if ds.len() == 0 {
        None
    } else {
        match first_view(ds.drop_last(), slug) {
            Some(i) => Some(i),
            None => if selects_view(ds.last(), slug) { Some(ds.len() - 1) } else { None },
        }
    }
}

proof fn lemma_first_registry_prefix(ds: Seq<LocalTomlDocument>, n: int)
    requires
        0 <= n <= ds.len(),
        first_registry(ds.take(n)) is Some,
    ensures
        first_registry(ds) == first_registry(ds.take(n)),
    decreases ds.len() - n,
{
    if n < ds.len() {
        assert(ds.take(n + 1).drop_last() =~= ds.take(n));
        lemma_first_registry_prefix(ds, n + 1);
    } else {
        assert(ds.take(n) =~= ds);
    }
}

proof fn lemma_first_view_prefix(ds: Seq<LocalTomlDocument>, slug: Option<Seq<char>>, n: int)
    requires
        0 <= n <= ds.len(),
        first_view(ds.take(n), slug) is Some,
    ensures
        first_view(ds, slug) == first_view(ds.take(n), slug),
    decreases ds.len() - n,
{
    if n < ds.len() {
        assert(ds.take(n + 1).drop_last() =~= ds.take(n));
        lemma_first_view_prefix(ds, slug, n + 1);
    } else {
        assert(ds.take(n) =~= ds);
    }
}

fn find_registry(ds: &Vec<LocalTomlDocument>) -> (r: Option<usize>)
    ensures
        match r {
            Some(i) => first_registry(ds@) == Some(i as int) && i < ds@.len(),
            None => first_registry(ds@) is None,
        },
{
    let mut i: usize = 0;
    while i < ds.len()
        invariant
            i <= ds@.len(),
            first_registry(ds@.take(i as int)) is None,
        decreases ds@.len() - i,
    {
        assert(ds@.take(i as int + 1).drop_last() =~= ds@.take(i as int));
        assert(ds@.take(i as int + 1).last() == ds@[i as int]);
        let d = &ds[i];
        let kind_ok = match &d.kind {
            Some(k) => str_eq(k.as_str(), "registry"),
            None => false,
        };
        if kind_ok || str_eq(d.path.as_str(), "world.toml") {
            proof {
                lemma_first_registry_prefix(ds@, i as int + 1);
            }
            return Some(i);
        }
        i += 1;
    }
    assert(ds@.take(ds@.len() as int) =~= ds@);
    None
}

fn selects_view_of(d: &LocalTomlDocument, slug: Option<&str>) -> (b: bool)
    ensures
        b == selects_view(*d, match slug { Some(s) => Some(s@), None => None }),
{
    let is_view = match &d.kind {
        Some(k) => str_eq(k.as_str(), "tree-view"),
        None => false,
    };
    if !is_view {
        return false;
    }
    match slug {
        Some(s) => {
            let id = msg2("tree:", s);
            let path = msg3("views/trees/", s, ".toml");
            let id_ok = match &d.id {
                Some(x) => str_eq(x.as_str(), id.as_str()),
                None => false,
            };
            id_ok || str_eq(d.path.as_str(), path.as_str())
        },
        None => true,
    }
}

fn find_view(ds: &Vec<LocalTomlDocument>, slug: Option<&str>) -> (r: Option<usize>)
    ensures
        match r {
            Some(i) => first_view(ds@, match slug { Some(s) => Some(s@), None => None }) == Some(i as int) && i < ds@.len(),
            None => first_view(ds@, match slug { Some(s) => Some(s@), None => None }) is None,
        },
{
    let ghost sl = match slug { Some(s) => Some(s@), None => None::<Seq<char>> };
    let mut i: usize = 0;
    while i < ds.len()
        invariant
            i <= ds@.len(),
            sl == match slug { Some(s) => Some(s@), None => None::<Seq<char>> },
            first_view(ds@.take(i as int), sl) is None,
        decreases ds@.len() - i,
    {
        assert(ds@.take(i as int + 1).drop_last() =~= ds@.take(i as int));
        assert(ds@.take(i as int + 1).last() == ds@[i as int]);
        if selects_view_of(&ds[i], slug) {
            proof {
                lemma_first_view_prefix(ds@, sl, i as int + 1);
            }
            return Some(i);
        }
        i += 1;
    }
    assert(ds@.take(ds@.len() as int) =~= ds@);
    None
}

/// A text under the registry's `tree` table.
pub open spec fn registry_tree_text(reg: Option<LocalTomlDocument>, key: Seq<char>) -> Option<Seq<char>> {
    match reg {
        Some(d) => match spec_get(d.data, "tree"@) {
            Some(t) => str_field(t, key),
            None => None,
        },
        None => None,
    }
}

fn registry_tree_text_of(reg: Option<&LocalTomlDocument>, key: &str) -> (r: Option<String>)
    ensures
        opt_string(r) == registry_tree_text(match reg { Some(d) => Some(*d), None => None }, key@),
{
    match reg {
        Some(d) => match d.data.get("tree") {
            Some(t) => field_str_of(t, key),
            None => None,
        },
        None => None,
    }
}

/// The tree's id: the view's, else the registry's, else `local-tree`.
pub open spec fn tree_id_text(view: Option<LocalTomlDocument>, reg: Option<LocalTomlDocument>) -> Seq<char> {
    match view {
        Some(v) if v.id is Some => v.id.unwrap()@,
        _ => match registry_tree_text(reg, "id"@) {
            Some(t) => t,
            None => "local-tree"@,
        },
    }
}

/// The tree's title: the view's, else the registry's tree title, else the
/// registry's own title, else a default.
pub open spec fn tree_title_text(view: Option<LocalTomlDocument>, reg: Option<LocalTomlDocument>) -> Seq<char> {
    match view {
        Some(v) if v.title is Some => v.title.unwrap()@,
        _ => match registry_tree_text(reg, "title"@) {
            Some(t) => t,
            None => match reg {
                Some(r) if r.title is Some => r.title.unwrap()@,
                _ => "Local private tree"@,
            },
        },
    }
}

/// The entity a view is rooted at.
pub open spec fn root_entity(d: LocalTomlDocument) -> Option<Seq<char>> {
    match spec_get(d.data, "root"@) {
        Some(r) => str_field(r, "entity"@),
        None => None,
    }
}

/// The person a written reference names.
pub open spec fn person_named(prs: Seq<LocalMarkdownRecord>, v: Option<Seq<char>>) -> Option<PersonId> {
    match v {
        Some(x) => match person_index(prs, resolve_key(prs, x)) {
            Some(i) => Some(pid(i)),
            None => None,
        },
        None => None,
    }
}

/// The main person: the view's root, else the registry's main person, else
/// the first person.
pub open spec fn main_person_of(prs: Seq<LocalMarkdownRecord>, view: Option<LocalTomlDocument>, reg: Option<LocalTomlDocument>) -> Option<PersonId> {
    let a = match view {
        Some(d) => person_named(prs, root_entity(d)),
        None => None,
    };
    let b = person_named(prs, registry_tree_text(reg, "main_person"@));
    if a is Some {
        a
    } else if b is Some {
        b
    } else if prs.len() > 0 {
        Some(pid(0))
    } else {
        None
    }
}

fn person_named_of(prs: &Vec<&LocalMarkdownRecord>, v: Option<String>) -> (r: Option<PersonId>)
    requires
        prs@.len() < u64::MAX,
    ensures
        r == person_named(deref_records(prs@), opt_string(v)),
{
    match v {
        Some(x) => {
            let key = resolve_key_of(prs, x.as_str());
            match find_person(prs, key.as_str()) {
                Some(i) => Some(PersonId(i as u64 + 1)),
                None => None,
            }
        },
        None => None,
    }
}

/// A count the view's projection gives, as `u32`.
pub open spec fn projection_count(d: LocalTomlDocument, key: Seq<char>) -> Option<u32> {
    match projection(d) {
        Some(p) => match spec_get(p, key) {
            Some(v) => match spec_as_u64(v) {
                Some(n) => Some((n as u64) as u32),
                None => None,
            },
            None => None,
        },
        None => None,
    }
}

/// A switch of the view's projection, `default` when it is not given.
pub open spec fn projection_switch(d: LocalTomlDocument, key: Seq<char>, default: bool) -> bool {
    match projection(d) {
        Some(p) => match spec_get(p, key) {
            Some(v) => match spec_as_bool(v) {
                Some(b) => b,
                None => default,
            },
            None => default,
        },
        None => default,
    }
}

/// The generations a view keeps.
pub open spec fn view_filter(d: LocalTomlDocument) -> TreeGenerationFilter {
    TreeGenerationFilter {
        generations_up: projection_count(d, "generations_up"@),
        generations_down: projection_count(d, "generations_down"@),
        include_partners: projection_switch(d, "include_partners"@, true),
        include_siblings: projection_switch(d, "include_siblings"@, false),
        include_unconnected: projection_switch(d, "include_unconnected"@, false),
    }
}

fn projection_count_of(d: &LocalTomlDocument, key: &str) -> (r: Option<u32>)
    ensures
        r == projection_count(*d, key@),
{
    match projection_of(d) {
        Some(p) => match p.get(key) {
            Some(v) => match v.as_u64() {
                Some(n) => Some(n as u32),
                None => None,
            },
            None => None,
        },
        None => None,
    }
}

fn projection_switch_of(d: &LocalTomlDocument, key: &str, default: bool) -> (b: bool)
    ensures
        b == projection_switch(*d, key@, default),
{
    match projection_of(d) {
        Some(p) => match p.get(key) {
            Some(v) => match v.as_bool() {
                Some(b) => b,
                None => default,
            },
            None => default,
        },
        None => default,
    }
}

fn view_filter_of(d: &LocalTomlDocument) -> (f: TreeGenerationFilter)
    ensures
        f == view_filter(*d),
{
    TreeGenerationFilter {
        generations_up: projection_count_of(d, "generations_up"),
        generations_down: projection_count_of(d, "generations_down"),
        include_partners: projection_switch_of(d, "include_partners", true),
        include_siblings: projection_switch_of(d, "include_siblings", false),
        include_unconnected: projection_switch_of(d, "include_unconnected", false),
    }
}

/// The number texts of a person record's `x` and `y`.
pub open spec fn number_text(v: Option<JsonValue>) -> Option<Seq<char>> {
    match v {
        Some(JsonValue::Number(t)) => Some(t@),
        _ => None,
    }
}

/// The positions the person records write, each for its person.
pub open spec fn record_positions(all: Seq<LocalMarkdownRecord>, part: Seq<LocalMarkdownRecord>) -> Seq<(PersonId, Option<Seq<char>>, Option<Seq<char>>)>
    decreases part.len(),
{
    if part.len() == 0 {
        seq![]
    } else {
        let r = part.last();
        let x = number_text(lookup(r.attributes@, "x"@));
        let y = number_text(lookup(r.attributes@, "y"@));
        record_positions(all, part.drop_last()) + if x is Some || y is Some {
            seq![(pid(person_index(all, r.id@).unwrap()), x, y)]
        } else {
            seq![]
        }
    }
}

/// The positions whose person is among `people`.
pub open spec fn kept_positions(ps: Seq<(PersonId, Option<Seq<char>>, Option<Seq<char>>)>, people: Seq<Person>) -> Seq<(PersonId, Option<Seq<char>>, Option<Seq<char>>)>
    decreases ps.len(),
{
    if ps.len() == 0 {
        seq![]
    } else {
        kept_positions(ps.drop_last(), people) + if exists|i: int| 0 <= i < people.len() && #[trigger] people[i].id == ps.last().0 {
            seq![ps.last()]
        } else {
            seq![]
        }
    }
}

pub open spec fn position_views(v: Seq<(PersonId, Option<String>, Option<String>)>) -> Seq<(PersonId, Option<Seq<char>>, Option<Seq<char>>)> {
    v.map_values(|p: (PersonId, Option<String>, Option<String>)| (p.0, opt_string(p.1), opt_string(p.2)))
}

fn number_text_of(v: Option<&JsonValue>) -> (r: Option<String>)
    ensures
        opt_string(r) == number_text(deref_opt(v)),
{
    match v {
        Some(JsonValue::Number(t)) => Some(t.clone()),
        _ => None,
    }
}

fn record_positions_of(prs: &Vec<&LocalMarkdownRecord>) -> (v: Vec<(PersonId, Option<String>, Option<String>)>)
    requires
        prs@.len() < u64::MAX,
    ensures
        position_views(v@) == record_positions(deref_records(prs@), deref_records(prs@)),
{
    let ghost all = deref_records(prs@);
    let mut v: Vec<(PersonId, Option<String>, Option<String>)> = Vec::new();
    let mut i: usize = 0;
    assert(position_views(v@) =~= record_positions(all, all.take(0)));
    while i < prs.len()
        invariant
            i <= prs@.len(),
            prs@.len() < u64::MAX,
            all == deref_records(prs@),
            position_views(v@) == record_positions(all, all.take(i as int)),
        decreases prs@.len() - i,
    {
        assert(all.take(i as int + 1).drop_last() =~= all.take(i as int));
        assert(all.take(i as int + 1).last() == *prs@[i as int]);
        let r = prs[i];
        let x = number_text_of(r.attr("x"));
        let y = number_text_of(r.attr("y"));
        let ghost before = v@;
        if x.is_some() || y.is_some() {
            let k = find_person(prs, r.id.as_str());
            proof {
                assert(all[i as int] == *prs@[i as int]);
                lemma_person_index_some(all, i as int);
            }
            let k = match k {
                Some(k) => k,
                None => i,
            };
            v.push((PersonId(k as u64 + 1), x, y));
            assert(position_views(v@) =~= position_views(before).push((PersonId((k + 1) as u64), opt_string(x), opt_string(y))));
        } else {
            assert(position_views(v@) =~= position_views(before));
        }
        i += 1;
    }
    assert(all.take(prs@.len() as int) =~= all);
    v
}

fn keep_positions_of(v: Vec<(PersonId, Option<String>, Option<String>)>, people: &Vec<Person>) -> (r: Vec<(PersonId, Option<String>, Option<String>)>)
    ensures
        position_views(r@) == kept_positions(position_views(v@), people@),
{
    let mut r: Vec<(PersonId, Option<String>, Option<String>)> = Vec::new();
    let mut i: usize = 0;
    let ghost pv = position_views(v@);
    assert(position_views(r@) =~= kept_positions(pv.take(0), people@));
    while i < v.len()
        invariant
            i <= v@.len(),
            pv == position_views(v@),
            position_views(r@) == kept_positions(pv.take(i as int), people@),
        decreases v@.len() - i,
    {
        assert(pv.take(i as int + 1).drop_last() =~= pv.take(i as int));
        assert(pv.take(i as int + 1).last() == pv[i as int]);
        let p = v[i].0;
        let mut found = false;
        let mut j: usize = 0;
        while j < people.len()
            invariant
                j <= people@.len(),
                found == exists|q: int| 0 <= q < j && #[trigger] people@[q].id == p,
            decreases people@.len() - j,
        {
            if people[j].id.0 == p.0 {
                found = true;
            }
            j += 1;
        }
        let ghost before = r@;
        if found {
            r.push((v[i].0, v[i].1.clone(), v[i].2.clone()));
            assert(position_views(r@) =~= position_views(before).push(pv[i as int]));
        } else {
            assert(position_views(r@) =~= position_views(before));
        }
        i += 1;
    }
    assert(pv.take(v@.len() as int) =~= pv);
    r
}

/// The people of a world before the tree view narrows them: one for each
/// person record, with names, married-name defaults and events.
pub open spec fn people_built(people: Seq<Person>, p0: Seq<Person>, prs: Seq<LocalMarkdownRecord>,
    es: Seq<GenealogyEvent>, rels: Seq<TreeRelationship>) -> bool {
    &&& p0.len() == prs.len()
    &&& people.len() == prs.len()
    &&& forall|k: int| 0 <= k < p0.len() ==> base_person(#[trigger] p0[k], prs[k], k)
        && person_names(p0[k].names@, prs[k]) && p0[k].events@ == events_of_person(es, pid(k))
    &&& forall|k: int| 0 <= k < people.len() ==> person_after(#[trigger] people[k], p0[k],
        married_surname(p0, prs, rels, k))
}

/// The events of a world: the life events of its people, then one for each
/// event record.
pub open spec fn events_built(es: Seq<GenealogyEvent>, rs: Seq<LocalMarkdownRecord>) -> bool {
    let prs = person_records(rs);
    let items = life_items(prs);
    &&& es.len() == items.len() + event_records(rs).len()
    &&& forall|i: int| 0 <= i < items.len() ==> life_event(#[trigger] es[i], i + 1, prs[items[i].0], items[i].0, items[i].1)
    &&& record_events_ok(es, items.len() as int, event_records(rs), prs)
}

pub open spec fn opt_doc(ds: Seq<LocalTomlDocument>, i: Option<int>) -> Option<LocalTomlDocument> {
    match i {
        Some(k) => Some(ds[k]),
        None => None,
    }
}

/// `t` is the whole tree of a world, before a view narrows it.
pub open spec fn tree_built(t: TreeDocument, b: LocalDataBundle, slug: Option<Seq<char>>) -> bool {
    let rs = b.markdown_records@;
    let ds = b.toml_documents@;
    let prs = person_records(rs);
    let reg = opt_doc(ds, first_registry(ds));
    let view = opt_doc(ds, first_view(ds, slug));
    &&& t.metadata.id.0@ == tree_id_text(view, reg)
    &&& t.metadata.title@ == tree_title_text(view, reg)
    &&& opt_string(t.metadata.description) == registry_tree_text(reg, "description"@)
    &&& t.metadata.created_at is None
    &&& t.metadata.updated_at is None
    &&& t.main_person == main_person_of(prs, view, reg)
    &&& t.categories@.len() == 0
    &&& t.attachments@.len() == 0
    &&& events_built(t.events@, rs)
    &&& relationships_ok(t.relationships@, relationship_docs(ds), prs, view_kind_filter(view))
    &&& exists|p0: Seq<Person>| people_built(t.people@, p0, prs, t.events@, t.relationships@)
}

/// `t` is `u` narrowed to the people a generation filter keeps around `root`.
pub open spec fn narrowed(t: TreeDocument, u: TreeDocument, f: TreeGenerationFilter, root: PersonId) -> bool {
    if f.generations_up is None && f.generations_down is None {
        t == u
    } else {
        let keep = kept_people(u.people@, u.relationships@, f, root);
        let people = keep_people(u.people@, keep);
        &&& t.relationships@ == keep_relationships(u.relationships@, keep)
        &&& t.events@ == keep_events(u.events@, keep)
        &&& t.people@.len() == people.len()
        &&& forall|i: int| 0 <= i < people.len()
            ==> person_with_events(#[trigger] t.people@[i], people[i], event_ids(t.events@))
        &&& t.metadata == u.metadata
        &&& t.main_person == u.main_person
        &&& t.categories == u.categories
        &&& t.attachments == u.attachments
    }
}

/// The tree a world compiles to: the whole tree, narrowed by the view when
/// the view is rooted at an entity and the tree has a main person.
pub open spec fn tree_compiled(t: TreeDocument, b: LocalDataBundle, slug: Option<Seq<char>>) -> bool {
    let ds = b.toml_documents@;
    let view = opt_doc(ds, first_view(ds, slug));
    let prs = person_records(b.markdown_records@);
    let reg = opt_doc(ds, first_registry(ds));
    let main = main_person_of(prs, view, reg);
    if view is Some && root_entity(view.unwrap()) is Some && main is Some {
        exists|u: TreeDocument| tree_built(u, b, slug) && narrowed(t, u, view_filter(view.unwrap()), main.unwrap())
    } else {
        tree_built(t, b, slug)
    }
}

/// The error a world's records give when they compile to no tree: that of
/// the first event record, else that of the first relationship document.
pub open spec fn tree_error(b: LocalDataBundle) -> Option<Seq<char>> {
    let prs = person_records(b.markdown_records@);
    match events_error(event_records(b.markdown_records@), prs) {
        Some(m) => Some(m),
        None => relationships_error(relationship_docs(b.toml_documents@), prs),
    }
}

/// Compiles a world's records into a tree, with the tree view that
/// `view_slug` names (else the first one), together with the positions the
/// person records write (their `x` and `y` number texts).
pub fn tree_from_local_data_bundle_with_view(bundle: &LocalDataBundle, view_slug: Option<&str>)
    -> (r: Result<(TreeDocument, Vec<(PersonId, Option<String>, Option<String>)>), LocalAuthoringError>)
    requires
        bundle.markdown_records@.len() < u32::MAX,
        bundle.toml_documents@.len() < u64::MAX,
    ensures
        match tree_error(*bundle) {
            Some(m) => r matches Err(e) && is_validation(e, m),
            None => r matches Ok((t, ps)) && tree_compiled(t, *bundle, match view_slug { Some(s) => Some(s@), None => None })
                && position_views(ps@) == kept_positions(record_positions(person_records(bundle.markdown_records@),
                    person_records(bundle.markdown_records@)), t.people@),
        },
{
    let ghost slug = match view_slug { Some(s) => Some(s@), None => None::<Seq<char>> };
    let rs = &bundle.markdown_records;
    let ds = &bundle.toml_documents;
    let prs = person_refs(rs);
    let ghost all = deref_records(prs@);
    proof {
        lemma_person_records_len(rs@);
    }
    let reg_i = find_registry(ds);
    let view_i = find_view(ds, view_slug);
    let reg: Option<&LocalTomlDocument> = match reg_i { Some(i) => Some(&ds[i]), None => None };
    let view: Option<&LocalTomlDocument> = match view_i { Some(i) => Some(&ds[i]), None => None };
    let ghost regv = opt_doc(ds@, first_registry(ds@));
    let ghost viewv = opt_doc(ds@, first_view(ds@, slug));
    assert(regv == match reg { Some(d) => Some(*d), None => None::<LocalTomlDocument> });
    assert(viewv == match view { Some(d) => Some(*d), None => None::<LocalTomlDocument> });

    let mut people = people_of(rs);
    let mut events = life_events_of(rs);
    let ghost life = events@;
    match add_record_events(&mut events, rs, &prs) {
        Ok(()) => {},
        Err(e) => return Err(e),
    }
    let filter = view_kind_filter_of(view);
    let relationships = match relationships_of(ds, &prs, &filter) {
        Ok(v) => v,
        Err(e) => return Err(e),
    };
    let ghost p_base = people@;
    set_person_events(&mut people, &events);
    let ghost p0 = people@;
    apply_married_names(&mut people, &prs, &relationships);

    let tree_id = match view {
        Some(v) if v.id.is_some() => v.id.clone().unwrap(),
        _ => match registry_tree_text_of(reg, "id") {
            Some(t) => t,
            None => String::from_str("local-tree"),
        },
    };
    let tree_title = match view {
        Some(v) if v.title.is_some() => v.title.clone().unwrap(),
        _ => match registry_tree_text_of(reg, "title") {
            Some(t) => t,
            None => match reg {
                Some(d) if d.title.is_some() => d.title.clone().unwrap(),
                _ => String::from_str("Local private tree"),
            },
        },
    };
    proof {
        reveal_strlit("local-tree");
        reveal_strlit("Local private tree");
    }
    let mut tree = TreeDocument::empty(tree_id.as_str(), tree_title.as_str());
    tree.metadata.description = registry_tree_text_of(reg, "description");

    let from_view = match view {
        Some(v) => match v.data.get("root") {
            Some(root) => person_named_of(&prs, field_str_of(root, "entity")),
            None => None,
        },
        None => None,
    };
    let from_registry = person_named_of(&prs, registry_tree_text_of(reg, "main_person"));
    let main = if from_view.is_some() {
        from_view
    } else if from_registry.is_some() {
        from_registry
    } else if prs.len() > 0 {
        Some(PersonId(1))
    } else {
        None
    };
    tree.main_person = main;
    tree.people = people;
    tree.events = events;
    tree.relationships = relationships;
    let ghost whole = tree;
    proof {
        assert(people_built(whole.people@, p0, all, whole.events@, whole.relationships@));
        assert(events_built(whole.events@, rs@)) by {
            assert(life.len() == life_items(all).len());
            assert forall|i: int| 0 <= i < life_items(all).len() implies
                life_event(#[trigger] whole.events@[i], i + 1, all[life_items(all)[i].0], life_items(all)[i].0, life_items(all)[i].1) by {
                assert(whole.events@[i] == life[i]);
            }
        }
        assert(tree_built(whole, *bundle, slug));
    }
    match view {
        Some(v) => {
            let rooted = match v.data.get("root") {
                Some(root) => field_str_of(root, "entity").is_some(),
                None => false,
            };
            match main {
                Some(m) => if rooted {
                    let f = view_filter_of(v);
                    apply_tree_generation_filter(&mut tree, &f, m);
                },
                None => {},
            }
        },
        None => {},
    }
    let positions = record_positions_of(&prs);
    let kept = keep_positions_of(positions, &tree.people);
    Ok((tree, kept))
}

/// Compiles a world's records into a tree with its first tree view.
pub fn tree_from_local_data_bundle(bundle: &LocalDataBundle)
    -> (r: Result<(TreeDocument, Vec<(PersonId, Option<String>, Option<String>)>), LocalAuthoringError>)
    requires
        bundle.markdown_records@.len() < u32::MAX,
        bundle.toml_documents@.len() < u64::MAX,
    ensures
        match tree_error(*bundle) {
            Some(m) => r matches Err(e) && is_validation(e, m),
            None => r matches Ok((t, ps)) && tree_compiled(t, *bundle, None)
                && position_views(ps@) == kept_positions(record_positions(person_records(bundle.markdown_records@),
                    person_records(bundle.markdown_records@)), t.people@),
        },
{
    tree_from_local_data_bundle_with_view(bundle, None)
}

} // verus!
