//! The entity-component view of a world: one entity per entity, assertion,
//! source or event record, with components named after what the record is,
//! and the ids of the world's views.
use vstd::prelude::*;
use crate::local_authoring::data::{
    copy_json, entries_are, is_flat_object, json_same, lemma_entries_push, lookup, opt_str, Flat,
    JsonValue, LocalDataBundle, LocalMarkdownRecord, LocalTomlDocument,
};
use crate::local_authoring::summary::{attr_text, opt_string};
use crate::local_authoring::timeline_compile::{
    is_event_record, lemma_insert_at, lemma_sort_step, sort_by, world_id, world_of,
};
use crate::sorted_text::{str_lt, text_lt, texts};
use crate::text::{starts_with, str_eq};
use crate::timeline_source::has_prefix;

verus! {

/// An entity and its components, in component name order.
#[derive(Debug, PartialEq, Eq)]
pub struct LocalEcsEntity {
    pub id: String,
    pub components: Vec<(String, JsonValue)>,
}

#[derive(Debug, Clone, Default, PartialEq, Eq)]
pub struct LocalEcsViews {
    pub timelines: Vec<String>,
    pub trees: Vec<String>,
    pub maps: Vec<String>,
    pub calendars: Vec<String>,
    pub visualizations: Vec<String>,
}

#[derive(Debug, Clone, Default, PartialEq, Eq)]
pub struct LocalEcsResources {
    pub views: LocalEcsViews,
}

#[derive(Debug, PartialEq, Eq)]
pub struct LocalEcsBundle {
    pub schema_version: u32,
    pub world: String,
    pub entities: Vec<LocalEcsEntity>,
    pub resources: LocalEcsResources,
}

impl LocalEcsBundle {
    pub const SCHEMA_VERSION: u32 = 1;
}

/// A record that is an entity: under `entities/`, `assertions/` or
/// `sources/`, or a person or place.
pub open spec fn is_entity_record(r: LocalMarkdownRecord) -> bool {
    has_prefix(r.path@, "entities/"@) || has_prefix(r.path@, "assertions/"@) || has_prefix(r.path@, "sources/"@)
        || r.kind@ == "person"@ || r.kind@ == "place"@
}

/// The component a kind of entity has.
pub open spec fn kind_component(kind: Seq<char>) -> Option<Seq<char>> {
    if kind == "person"@ {
        Some("Person"@)
    } else if kind == "place"@ {
        Some("Place"@)
    } else if kind == "organization"@ {
        Some("Organization"@)
    } else if kind == "object"@ {
        Some("Object"@)
    } else if kind == "concept"@ {
        Some("Concept"@)
    } else {
        None
    }
}

/// The name of a record: its title, else its `primary_name`.
pub open spec fn primary_name(r: LocalMarkdownRecord) -> Option<Seq<char>> {
    match opt_string(r.title) {
        Some(t) => Some(t),
        None => attr_text(r, "primary_name"@),
    }
}

/// The time of an event record: its date, else its `time` when that is a string.
pub open spec fn time_point(r: LocalMarkdownRecord) -> Option<Seq<char>> {
    match opt_string(r.date) {
        Some(d) => Some(d),
        None => attr_text(r, "time"@),
    }
}

/// The value of an attribute, `null` when absent.
pub open spec fn same_or_null(v: JsonValue, o: Option<JsonValue>) -> bool {
    match o {
        Some(x) => json_same(x, v),
        None => v is Null,
    }
}

/// The value of an attribute, an empty list when absent.
pub open spec fn same_or_empty(v: JsonValue, o: Option<JsonValue>) -> bool {
    match o {
        Some(x) => json_same(x, v),
        None => v matches JsonValue::Array(items) && items@.len() == 0,
    }
}

pub open spec fn key_is(e: (String, JsonValue), k: Seq<char>) -> bool {
    e.0@ == k
}

pub open spec fn text_is(v: JsonValue, t: Seq<char>) -> bool {
    v matches JsonValue::Str(x) && x@ == t
}

/// The `Assertion` component of an assertion record.
pub open spec fn is_assertion_component(v: JsonValue, r: LocalMarkdownRecord) -> bool {
    match v {
        JsonValue::Object(es) => {
            &&& es@.len() == 6
            &&& key_is(es@[0], "assertion_kind"@) && text_is(es@[0].1, r.kind@)
            &&& key_is(es@[1], "confidence"@) && same_or_null(es@[1].1, lookup(r.attributes@, "confidence"@))
            &&& key_is(es@[2], "predicate"@) && same_or_null(es@[2].1, lookup(r.attributes@, "predicate"@))
            &&& key_is(es@[3], "sources"@) && same_or_empty(es@[3].1, lookup(r.attributes@, "sources"@))
            &&& key_is(es@[4], "subject"@) && same_or_null(es@[4].1, lookup(r.attributes@, "subject"@))
            &&& key_is(es@[5], "value"@) && same_or_null(es@[5].1, lookup(r.attributes@, "value"@))
        },
        _ => false,
    }
}

/// The `Source` component of a source record.
pub open spec fn is_source_component(v: JsonValue, r: LocalMarkdownRecord) -> bool {
    match v {
        JsonValue::Object(es) => {
            &&& es@.len() == 3
            &&& key_is(es@[0], "media"@) && same_or_empty(es@[0].1, lookup(r.attributes@, "media"@))
            &&& key_is(es@[1], "source_kind"@) && text_is(es@[1].1, r.kind@)
            &&& key_is(es@[2], "title"@) && match opt_string(r.title) {
                Some(t) => text_is(es@[2].1, t),
                None => es@[2].1 is Null,
            }
        },
        _ => false,
    }
}

/// An object with one entry `key` holding the same JSON as `v`.
pub open spec fn wraps(c: JsonValue, key: Seq<char>, v: JsonValue) -> bool {
    match c {
        JsonValue::Object(es) => es@.len() == 1 && key_is(es@[0], key) && json_same(v, es@[0].1),
        _ => false,
    }
}

pub open spec fn part(b: bool, name: Seq<char>) -> Seq<Seq<char>> {
    if b { seq![name] } else { seq![] }
}

/// The names of the first components of a record, up to `Identity`.
pub open spec fn first_names(r: LocalMarkdownRecord) -> Seq<Seq<char>> {
    part(has_prefix(r.path@, "assertions/"@), "Assertion"@)
        + part(kind_component(r.kind@) == Some("Concept"@), "Concept"@)
        + part(is_event_record(r), "HistoricalEvent"@)
        + part(true, "Identity"@)
}

/// The names of the components of a record from `Object` to `Place`.
pub open spec fn middle_names(r: LocalMarkdownRecord) -> Seq<Seq<char>> {
    let entity = kind_component(r.kind@);
    part(entity == Some("Object"@), "Object"@)
        + part(entity == Some("Organization"@), "Organization"@)
        + part(is_event_record(r) && lookup(r.attributes@, "participants"@) is Some, "Participants"@)
        + part(entity == Some("Person"@), "Person"@)
        + part(entity == Some("Place"@), "Place"@)
}

/// The names of the last components of a record.
pub open spec fn last_names(r: LocalMarkdownRecord) -> Seq<Seq<char>> {
    let entity = kind_component(r.kind@);
    part(entity is Some && primary_name(r) is Some, "PrimaryName"@)
        + part(has_prefix(r.path@, "sources/"@), "Source"@)
        + part(lookup(r.attributes@, "assertions"@) is Some, "SourceLinks"@)
        + part(is_event_record(r) && time_point(r) is Some, "TimePoint"@)
}

/// The names of the components of a record, in name order.
pub open spec fn component_names(r: LocalMarkdownRecord) -> Seq<Seq<char>> {
    first_names(r) + middle_names(r) + last_names(r)
}

/// The components of a record, in name order: which it has and what each holds.
pub open spec fn components_of(cs: Seq<(String, JsonValue)>, r: LocalMarkdownRecord) -> bool {
    let names = component_names(r);
    &&& cs.len() == names.len()
    &&& forall|i: int| 0 <= i < cs.len() ==> (#[trigger] cs[i]).0@ == names[i]
    &&& forall|i: int| 0 <= i < cs.len() ==> component_ok(#[trigger] cs[i], r)
}

/// What each component of a record holds.
pub open spec fn component_ok(c: (String, JsonValue), r: LocalMarkdownRecord) -> bool {
    component_ok_named(c.0@, c.1, r)
}

pub open spec fn component_ok_named(k: Seq<char>, v: JsonValue, r: LocalMarkdownRecord) -> bool {
    &&& k == "Identity"@ ==> is_flat_object(v, seq![("id"@, Flat::Text(r.id@)), ("kind"@, Flat::Text(r.kind@))])
    &&& kind_component(r.kind@) == Some(k) ==> is_flat_object(v, seq![])
    &&& k == "PrimaryName"@ ==> is_flat_object(v, seq![("full"@, Flat::Text(primary_name(r).unwrap()))])
    &&& k == "Assertion"@ ==> is_assertion_component(v, r)
    &&& k == "Source"@ ==> is_source_component(v, r)
    &&& k == "HistoricalEvent"@ ==> is_flat_object(v, seq![("event_kind"@, Flat::Text(r.kind@))])
    &&& k == "TimePoint"@ ==> is_flat_object(v, seq![("value"@, Flat::Text(time_point(r).unwrap()))])
    &&& k == "Participants"@ ==> wraps(v, "items"@, lookup(r.attributes@, "participants"@).unwrap())
    &&& k == "SourceLinks"@ ==> wraps(v, "assertions"@, lookup(r.attributes@, "assertions"@).unwrap())
}

pub open spec fn is_entity_of(e: LocalEcsEntity, r: LocalMarkdownRecord) -> bool {
    e.id@ == r.id@ && components_of(e.components@, r)
}

fn text_entry(key: &str, value: &str) -> (e: (String, JsonValue))
    ensures
        e.0@ == key@,
        flat_of_text(e.1, value@),
{
    (key.to_owned(), JsonValue::Str(value.to_owned()))
}

pub open spec fn flat_of_text(v: JsonValue, t: Seq<char>) -> bool {
    crate::local_authoring::data::flat_of(v) == Some(Flat::Text(t))
}

fn object1(key: &str, value: &str) -> (v: JsonValue)
    ensures
        is_flat_object(v, seq![(key@, Flat::Text(value@))]),
{
    let mut es: Vec<(String, JsonValue)> = Vec::new();
    es.push(text_entry(key, value));
    assert(entries_are(es@, seq![(key@, Flat::Text(value@))]));
    JsonValue::Object(es)
}

fn attr_or_null(r: &LocalMarkdownRecord, key: &str) -> (v: JsonValue)
    ensures
        same_or_null(v, lookup(r.attributes@, key@)),
{
    match r.attr(key) {
        Some(x) => copy_json(x),
        None => JsonValue::Null,
    }
}

fn attr_or_empty(r: &LocalMarkdownRecord, key: &str) -> (v: JsonValue)
    ensures
        same_or_empty(v, lookup(r.attributes@, key@)),
{
    match r.attr(key) {
        Some(x) => copy_json(x),
        None => JsonValue::Array(Vec::new()),
    }
}

fn wrap(key: &str, v: &JsonValue) -> (c: JsonValue)
    ensures
        wraps(c, key@, *v),
{
    let mut es: Vec<(String, JsonValue)> = Vec::new();
    es.push((key.to_owned(), copy_json(v)));
    JsonValue::Object(es)
}

fn text_of_attr<'a>(r: &'a LocalMarkdownRecord, key: &str) -> (t: Option<&'a str>)
    ensures
        crate::local_authoring::summary::opt_text(t) == attr_text(*r, key@),
{
    match r.attr(key) {
        Some(v) => v.as_str(),
        None => None,
    }
}

fn kind_component_of(kind: &str) -> (c: Option<&'static str>)
    ensures
        crate::local_authoring::summary::opt_text(c) == kind_component(kind@),
{
    if str_eq(kind, "person") {
        Some("Person")
    } else if str_eq(kind, "place") {
        Some("Place")
    } else if str_eq(kind, "organization") {
        Some("Organization")
    } else if str_eq(kind, "object") {
        Some("Object")
    } else if str_eq(kind, "concept") {
        Some("Concept")
    } else {
        None
    }
}

proof fn lemma_component_names_distinct()
    ensures
        "Assertion"@.len() == 9 && "Assertion"@[0] == 'A',
        "Concept"@.len() == 7,
        "HistoricalEvent"@.len() == 15,
        "Identity"@.len() == 8,
        "Object"@.len() == 6 && "Object"@[0] == 'O',
        "Organization"@.len() == 12 && "Organization"@[0] == 'O',
        "Participants"@.len() == 12 && "Participants"@[0] == 'P',
        "Person"@.len() == 6 && "Person"@[0] == 'P',
        "Place"@.len() == 5,
        "PrimaryName"@.len() == 11 && "PrimaryName"@[0] == 'P',
        "Source"@.len() == 6 && "Source"@[0] == 'S',
        "SourceLinks"@.len() == 11 && "SourceLinks"@[0] == 'S',
        "TimePoint"@.len() == 9 && "TimePoint"@[0] == 'T',
{
    reveal_strlit("Concept");
    reveal_strlit("Object");
    reveal_strlit("Organization");
    reveal_strlit("Person");
    reveal_strlit("Place");
    reveal_strlit("Identity");
    reveal_strlit("PrimaryName");
    reveal_strlit("Assertion");
    reveal_strlit("Source");
    reveal_strlit("HistoricalEvent");
    reveal_strlit("TimePoint");
    reveal_strlit("Participants");
    reveal_strlit("SourceLinks");
}

fn push_component(cs: &mut Vec<(String, JsonValue)>, name: &str, v: JsonValue, Ghost(r): Ghost<LocalMarkdownRecord>)
    requires
        forall|i: int| 0 <= i < old(cs)@.len() ==> component_ok(#[trigger] old(cs)@[i], r),
        component_ok_named(name@, v, r),
    ensures
        final(cs)@ == old(cs)@.push(final(cs)@.last()),
        final(cs)@.last().0@ == name@,
        forall|i: int| 0 <= i < final(cs)@.len() ==> component_ok(#[trigger] final(cs)@[i], r),
{
    cs.push((name.to_owned(), v));
    assert(cs@ =~= old(cs)@.push(cs@.last()));
}

proof fn lemma_part_push(names: Seq<Seq<char>>, b: bool, n: Seq<char>)
    ensures
        (if b { names.push(n) } else { names }) == names + part(b, n),
{
    assert((if b { names.push(n) } else { names }) =~= names + part(b, n));
}

/// The entries named in `names`, each as `component_ok` says.
pub open spec fn named_ok(cs: Seq<(String, JsonValue)>, names: Seq<Seq<char>>, r: LocalMarkdownRecord) -> bool {
    &&& cs.len() == names.len()
    &&& forall|i: int| 0 <= i < cs.len() ==> (#[trigger] cs[i]).0@ == names[i]
    &&& forall|i: int| 0 <= i < cs.len() ==> component_ok(#[trigger] cs[i], r)
}

proof fn lemma_named_push(old_cs: Seq<(String, JsonValue)>, cs: Seq<(String, JsonValue)>, names: Seq<Seq<char>>, n: Seq<char>, r: LocalMarkdownRecord)
    requires
        named_ok(old_cs, names, r),
        cs == old_cs.push(cs.last()),
        cs.last().0@ == n,
        forall|i: int| 0 <= i < cs.len() ==> component_ok(#[trigger] cs[i], r),
    ensures
        named_ok(cs, names.push(n), r),
{
    assert forall|i: int| 0 <= i < cs.len() implies (#[trigger] cs[i]).0@ == names.push(n)[i] by {
        if i < old_cs.len() {
            assert(cs[i] == old_cs[i]);
        }
    }
}

fn first_components(r: &LocalMarkdownRecord, cs: &mut Vec<(String, JsonValue)>)
    requires
        old(cs)@.len() == 0,
    ensures
        named_ok(final(cs)@, first_names(*r), *r),
{
    proof {
        lemma_component_names_distinct();
    }
    let ghost rr = *r;
    let entity = kind_component_of(r.kind.as_str());
    let is_event = starts_with(r.path.as_str(), "events/") || r.attr("participants").is_some();
    let is_assertion = starts_with(r.path.as_str(), "assertions/");
    assert(is_assertion == has_prefix(r.path@, "assertions/"@));
    assert(is_event == is_event_record(*r));
    let ghost mut names: Seq<Seq<char>> = seq![];
    assert(named_ok(cs@, names, rr));
    if is_assertion {
        let mut es: Vec<(String, JsonValue)> = Vec::new();
        es.push(("assertion_kind".to_owned(), JsonValue::Str(r.kind.clone())));
        es.push(("confidence".to_owned(), attr_or_null(r, "confidence")));
        es.push(("predicate".to_owned(), attr_or_null(r, "predicate")));
        es.push(("sources".to_owned(), attr_or_empty(r, "sources")));
        es.push(("subject".to_owned(), attr_or_null(r, "subject")));
        es.push(("value".to_owned(), attr_or_null(r, "value")));
        let ghost before = cs@;
        push_component(cs, "Assertion", JsonValue::Object(es), Ghost(rr));
        proof { lemma_named_push(before, cs@, names, "Assertion"@, rr); }
    }
    proof {
        lemma_part_push(names, is_assertion, "Assertion"@);
        names = names + part(is_assertion, "Assertion"@);
    }
    let concept = match entity {
        Some(c) => str_eq(c, "Concept"),
        None => false,
    };
    assert(concept == (kind_component(r.kind@) == Some("Concept"@)));
    if concept {
        let ghost before = cs@;
        push_component(cs, "Concept", JsonValue::Object(Vec::new()), Ghost(rr));
        proof { lemma_named_push(before, cs@, names, "Concept"@, rr); }
    }
    proof {
        lemma_part_push(names, concept, "Concept"@);
        names = names + part(concept, "Concept"@);
    }
    if is_event {
        let ghost before = cs@;
        push_component(cs, "HistoricalEvent", object1("event_kind", r.kind.as_str()), Ghost(rr));
        proof { lemma_named_push(before, cs@, names, "HistoricalEvent"@, rr); }
    }
    proof {
        lemma_part_push(names, is_event, "HistoricalEvent"@);
        names = names + part(is_event, "HistoricalEvent"@);
    }
    let mut es: Vec<(String, JsonValue)> = Vec::new();
    es.push(text_entry("id", r.id.as_str()));
    es.push(text_entry("kind", r.kind.as_str()));
    assert(entries_are(es@, seq![("id"@, Flat::Text(r.id@)), ("kind"@, Flat::Text(r.kind@))]));
    let ghost before = cs@;
    push_component(cs, "Identity", JsonValue::Object(es), Ghost(rr));
    proof {
        lemma_named_push(before, cs@, names, "Identity"@, rr);
        lemma_part_push(names, true, "Identity"@);
        names = names + part(true, "Identity"@);
        assert(names == first_names(rr));
    }
}

fn middle_components(r: &LocalMarkdownRecord, cs: &mut Vec<(String, JsonValue)>, Ghost(names0): Ghost<Seq<Seq<char>>>)
    requires
        named_ok(old(cs)@, names0, *r),
    ensures
        named_ok(final(cs)@, names0 + middle_names(*r), *r),
{
    proof {
        lemma_component_names_distinct();
    }
    let ghost rr = *r;
    let entity = kind_component_of(r.kind.as_str());
    let is_event = starts_with(r.path.as_str(), "events/") || r.attr("participants").is_some();
    assert(is_event == is_event_record(*r));
    let ghost mut names = names0;
    let is_object = match entity {
        Some(c) => str_eq(c, "Object"),
        None => false,
    };
    assert(is_object == (kind_component(r.kind@) == Some("Object"@)));
    if is_object {
        let ghost before = cs@;
        push_component(cs, "Object", JsonValue::Object(Vec::new()), Ghost(rr));
        proof { lemma_named_push(before, cs@, names, "Object"@, rr); }
    }
    proof {
        lemma_part_push(names, is_object, "Object"@);
        names = names + part(is_object, "Object"@);
    }
    let is_org = match entity {
        Some(c) => str_eq(c, "Organization"),
        None => false,
    };
    assert(is_org == (kind_component(r.kind@) == Some("Organization"@)));
    if is_org {
        let ghost before = cs@;
        push_component(cs, "Organization", JsonValue::Object(Vec::new()), Ghost(rr));
        proof { lemma_named_push(before, cs@, names, "Organization"@, rr); }
    }
    proof {
        lemma_part_push(names, is_org, "Organization"@);
        names = names + part(is_org, "Organization"@);
    }
    let participants = if is_event { r.attr("participants") } else { None };
    if let Some(p) = participants {
        let ghost before = cs@;
        push_component(cs, "Participants", wrap("items", p), Ghost(rr));
        proof { lemma_named_push(before, cs@, names, "Participants"@, rr); }
    }
    proof {
        lemma_part_push(names, participants is Some, "Participants"@);
        names = names + part(participants is Some, "Participants"@);
    }
    let is_person = match entity {
        Some(c) => str_eq(c, "Person"),
        None => false,
    };
    assert(is_person == (kind_component(r.kind@) == Some("Person"@)));
    if is_person {
        let ghost before = cs@;
        push_component(cs, "Person", JsonValue::Object(Vec::new()), Ghost(rr));
        proof { lemma_named_push(before, cs@, names, "Person"@, rr); }
    }
    proof {
        lemma_part_push(names, is_person, "Person"@);
        names = names + part(is_person, "Person"@);
    }
    let is_place = match entity {
        Some(c) => str_eq(c, "Place"),
        None => false,
    };
    assert(is_place == (kind_component(r.kind@) == Some("Place"@)));
    if is_place {
        let ghost before = cs@;
        push_component(cs, "Place", JsonValue::Object(Vec::new()), Ghost(rr));
        proof { lemma_named_push(before, cs@, names, "Place"@, rr); }
    }
    proof {
        lemma_part_push(names, is_place, "Place"@);
        names = names + part(is_place, "Place"@);
    }
    proof {
        assert(names =~= names0 + middle_names(rr));
    }
}

fn last_components(r: &LocalMarkdownRecord, cs: &mut Vec<(String, JsonValue)>, Ghost(names0): Ghost<Seq<Seq<char>>>)
    requires
        named_ok(old(cs)@, names0, *r),
    ensures
        named_ok(final(cs)@, names0 + last_names(*r), *r),
{
    proof {
        lemma_component_names_distinct();
    }
    let ghost rr = *r;
    let entity = kind_component_of(r.kind.as_str());
    let is_event = starts_with(r.path.as_str(), "events/") || r.attr("participants").is_some();
    let is_source = starts_with(r.path.as_str(), "sources/");
    assert(is_source == has_prefix(r.path@, "sources/"@));
    assert(is_event == is_event_record(*r));
    let ghost mut names = names0;
    let name: Option<String> = if entity.is_some() {
        match &r.title {
            Some(t) => Some(t.clone()),
            None => match text_of_attr(r, "primary_name") {
                Some(p) => Some(p.to_owned()),
                None => None,
            },
        }
    } else {
        None
    };
    if let Some(n) = &name {
        let ghost before = cs@;
        push_component(cs, "PrimaryName", object1("full", n.as_str()), Ghost(rr));
        proof { lemma_named_push(before, cs@, names, "PrimaryName"@, rr); }
    }
    proof {
        lemma_part_push(names, name is Some, "PrimaryName"@);
        names = names + part(name is Some, "PrimaryName"@);
    }
    if is_source {
        let mut es: Vec<(String, JsonValue)> = Vec::new();
        es.push(("media".to_owned(), attr_or_empty(r, "media")));
        es.push(("source_kind".to_owned(), JsonValue::Str(r.kind.clone())));
        es.push(("title".to_owned(), match &r.title {
            Some(t) => JsonValue::Str(t.clone()),
            None => JsonValue::Null,
        }));
        let ghost before = cs@;
        push_component(cs, "Source", JsonValue::Object(es), Ghost(rr));
        proof { lemma_named_push(before, cs@, names, "Source"@, rr); }
    }
    proof {
        lemma_part_push(names, is_source, "Source"@);
        names = names + part(is_source, "Source"@);
    }
    let links = r.attr("assertions");
    if let Some(a) = links {
        let ghost before = cs@;
        push_component(cs, "SourceLinks", wrap("assertions", a), Ghost(rr));
        proof { lemma_named_push(before, cs@, names, "SourceLinks"@, rr); }
    }
    proof {
        lemma_part_push(names, links is Some, "SourceLinks"@);
        names = names + part(links is Some, "SourceLinks"@);
    }
    let time: Option<String> = if is_event {
        match &r.date {
            Some(d) => Some(d.clone()),
            None => match text_of_attr(r, "time") {
                Some(t) => Some(t.to_owned()),
                None => None,
            },
        }
    } else {
        None
    };
    if let Some(t) = &time {
        let ghost before = cs@;
        push_component(cs, "TimePoint", object1("value", t.as_str()), Ghost(rr));
        proof { lemma_named_push(before, cs@, names, "TimePoint"@, rr); }
    }
    proof {
        lemma_part_push(names, time is Some, "TimePoint"@);
        names = names + part(time is Some, "TimePoint"@);
        assert(names =~= names0 + last_names(rr));
    }
}

/// The entity of a record: its id and its components.
pub fn ecs_entity_from_markdown_record(r: &LocalMarkdownRecord) -> (e: LocalEcsEntity)
    ensures
        is_entity_of(e, *r),
{
    let mut cs: Vec<(String, JsonValue)> = Vec::new();
    first_components(r, &mut cs);
    middle_components(r, &mut cs, Ghost(first_names(*r)));
    last_components(r, &mut cs, Ghost(first_names(*r) + middle_names(*r)));
    LocalEcsEntity { id: r.id.clone(), components: cs }
}


// ---------------------------------------------------------------------------
// The bundle.

/// The records that become entities, in order.
pub open spec fn ecs_records(recs: Seq<LocalMarkdownRecord>) -> Seq<LocalMarkdownRecord>
    decreases recs.len(),
{
    if recs.len() == 0 {
        seq![]
    } else {
        let rest = ecs_records(recs.drop_last());
        let r = recs.last();
        if is_entity_record(r) || is_event_record(r) { rest.push(r) } else { rest }
    }
}

pub open spec fn entity_before(a: LocalMarkdownRecord, b: LocalMarkdownRecord) -> bool {
    text_lt(a.id@, b.id@)
}

/// The ids of the documents of a kind of view, in order.
pub open spec fn view_ids(docs: Seq<LocalTomlDocument>, kind: Seq<char>) -> Seq<Seq<char>>
    decreases docs.len(),
{
    if docs.len() == 0 {
        seq![]
    } else {
        let rest = view_ids(docs.drop_last(), kind);
        let d = docs.last();
        match d.id {
            Some(id) => if opt_string(d.kind) == Some(kind) { rest.push(id@) } else { rest },
            None => rest,
        }
    }
}

fn sort_entities(es: Vec<LocalEcsEntity>, Ghost(recs): Ghost<Seq<LocalMarkdownRecord>>) -> (out: Vec<LocalEcsEntity>)
    requires
        es@.len() == recs.len(),
        forall|i: int| 0 <= i < recs.len() ==> is_entity_of(#[trigger] es@[i], recs[i]),
    ensures
        out@.len() == recs.len(),
        forall|i: int| 0 <= i < recs.len()
            ==> is_entity_of(#[trigger] out@[i], sort_by(recs, |a: LocalMarkdownRecord, b: LocalMarkdownRecord| entity_before(a, b))[i]),
{
    let ghost before = |a: LocalMarkdownRecord, b: LocalMarkdownRecord| entity_before(a, b);
    let mut es = es;
    let mut sorted: Vec<LocalEcsEntity> = Vec::new();
    let ghost mut srecs: Seq<LocalMarkdownRecord> = seq![];
    let ghost mut k: int = 0;
    assert(recs.take(0) =~= seq![]);
    while es.len() > 0
        invariant
            0 <= k <= recs.len(),
            es@.len() == recs.len() - k,
            forall|i: int| 0 <= i < es@.len() ==> is_entity_of(#[trigger] es@[i], recs[k + i]),
            srecs == sort_by(recs.take(k), before),
            sorted@.len() == srecs.len(),
            srecs.len() == k,
            forall|i: int| 0 <= i < sorted@.len() ==> is_entity_of(#[trigger] sorted@[i], srecs[i]),
            before == (|a: LocalMarkdownRecord, b: LocalMarkdownRecord| entity_before(a, b)),
        decreases es@.len(),
    {
        assert(is_entity_of(es@[0], recs[k + 0]));
        let ghost pending = es@;
        let e = es.remove(0);
        let ghost rk = recs[k];
        let mut j: usize = 0;
        while j < sorted.len() && !str_lt(e.id.as_str(), sorted[j].id.as_str())
            invariant
                j <= sorted@.len(),
                sorted@.len() == srecs.len(),
                is_entity_of(e, rk),
                forall|i: int| 0 <= i < sorted@.len() ==> is_entity_of(#[trigger] sorted@[i], srecs[i]),
                forall|i: int| 0 <= i < j ==> !before(rk, #[trigger] srecs[i]),
                before == (|a: LocalMarkdownRecord, b: LocalMarkdownRecord| entity_before(a, b)),
            decreases sorted@.len() - j,
        {
            assert(is_entity_of(sorted@[j as int], srecs[j as int]));
            j = j + 1;
        }
        proof {
            if j < sorted@.len() {
                assert(is_entity_of(sorted@[j as int], srecs[j as int]));
            }
            lemma_insert_at(srecs, rk, before, j as int);
            lemma_sort_step(recs, k, before);
        }
        let ghost old_sorted = sorted@;
        let ghost old_srecs = srecs;
        sorted.insert(j, e);
        proof {
            srecs = crate::local_authoring::timeline_compile::insert_sorted_by(srecs, rk, before);
            assert forall|i: int| 0 <= i < sorted@.len() implies is_entity_of(#[trigger] sorted@[i], srecs[i]) by {
                if i < j {
                    assert(sorted@[i] == old_sorted[i]);
                    assert(is_entity_of(old_sorted[i], old_srecs[i]));
                } else if i == j {
                    assert(sorted@[i] == e);
                } else {
                    assert(sorted@[i] == old_sorted[i - 1]);
                    assert(is_entity_of(old_sorted[i - 1], old_srecs[i - 1]));
                }
            }
            assert forall|i: int| 0 <= i < es@.len() implies is_entity_of(#[trigger] es@[i], recs[k + 1 + i]) by {
                assert(es@[i] == pending[i + 1]);
                assert(is_entity_of(pending[i + 1], recs[k + (i + 1)]));
            }
            k = k + 1;
        }
    }
    assert(recs.take(k) =~= recs);
    sorted
}

fn ids_of_kind(docs: &Vec<LocalTomlDocument>, kind: &str) -> (out: Vec<String>)
    ensures
        texts(out@) == view_ids(docs@, kind@),
{
    let mut out: Vec<String> = Vec::new();
    let mut i: usize = 0;
    assert(docs@.take(0) =~= seq![]);
    assert(texts(out@) =~= seq![]);
    while i < docs.len()
        invariant
            i <= docs@.len(),
            texts(out@) == view_ids(docs@.take(i as int), kind@),
        decreases docs@.len() - i,
    {
        assert(docs@.take(i + 1).drop_last() =~= docs@.take(i as int));
        assert(docs@.take(i + 1).last() == docs@[i as int]);
        let d = &docs[i];
        if let Some(id) = &d.id {
            let same = match &d.kind {
                Some(k) => str_eq(k.as_str(), kind),
                None => false,
            };
            if same {
                let ghost before = texts(out@);
                out.push(id.clone());
                assert(texts(out@) =~= before.push(id@));
            }
        }
        i = i + 1;
    }
    assert(docs@.take(i as int) =~= docs@);
    out
}

/// The entity-component view of a world's data: the world's id, one
/// entity per entity, assertion, source or event record, sorted by id, and
/// the ids of its timeline, tree, map, calendar and visualization views.
pub fn ecs_from_local_data_bundle(bundle: &LocalDataBundle) -> (b: LocalEcsBundle)
    ensures
        b.schema_version == 1,
        b.world@ == world_of(bundle.toml_documents@),
        b.entities@.len() == ecs_records(bundle.markdown_records@).len(),
        forall|i: int| 0 <= i < b.entities@.len() ==> is_entity_of(
            #[trigger] b.entities@[i],
            sort_by(ecs_records(bundle.markdown_records@), |a: LocalMarkdownRecord, c: LocalMarkdownRecord| entity_before(a, c))[i],
        ),
        texts(b.resources.views.timelines@) == view_ids(bundle.toml_documents@, "timeline-view"@),
        texts(b.resources.views.trees@) == view_ids(bundle.toml_documents@, "tree-view"@),
        texts(b.resources.views.maps@) == view_ids(bundle.toml_documents@, "map-view"@),
        texts(b.resources.views.calendars@) == view_ids(bundle.toml_documents@, "calendar-view"@),
        texts(b.resources.views.visualizations@) == view_ids(bundle.toml_documents@, "visualization-view"@),
{
    let recs = &bundle.markdown_records;
    let mut es: Vec<LocalEcsEntity> = Vec::new();
    let ghost mut sel: Seq<LocalMarkdownRecord> = seq![];
    let mut i: usize = 0;
    assert(recs@.take(0) =~= seq![]);
    while i < recs.len()
        invariant
            i <= recs@.len(),
            sel == ecs_records(recs@.take(i as int)),
            es@.len() == sel.len(),
            forall|j: int| 0 <= j < sel.len() ==> is_entity_of(#[trigger] es@[j], sel[j]),
        decreases recs@.len() - i,
    {
        assert(recs@.take(i + 1).drop_last() =~= recs@.take(i as int));
        assert(recs@.take(i + 1).last() == recs@[i as int]);
        let r = &recs[i];
        let path = r.path.as_str();
        let kind = r.kind.as_str();
        let entity = starts_with(path, "entities/") || starts_with(path, "assertions/") || starts_with(path, "sources/")
            || str_eq(kind, "person") || str_eq(kind, "place");
        let event = starts_with(path, "events/") || r.attr("participants").is_some();
        if entity || event {
            let e = ecs_entity_from_markdown_record(r);
            let ghost old_es = es@;
            es.push(e);
            proof {
                let ns = sel.push(*r);
                assert forall|j: int| 0 <= j < ns.len() implies is_entity_of(#[trigger] es@[j], ns[j]) by {
                    if j < sel.len() {
                        assert(es@[j] == old_es[j]);
                    }
                }
                sel = ns;
            }
        }
        i = i + 1;
    }
    assert(recs@.take(i as int) =~= recs@);
    let entities = sort_entities(es, Ghost(sel));
    let docs = &bundle.toml_documents;
    LocalEcsBundle {
        schema_version: LocalEcsBundle::SCHEMA_VERSION,
        world: world_id(docs),
        entities,
        resources: LocalEcsResources {
            views: LocalEcsViews {
                timelines: ids_of_kind(docs, "timeline-view"),
                trees: ids_of_kind(docs, "tree-view"),
                maps: ids_of_kind(docs, "map-view"),
                calendars: ids_of_kind(docs, "calendar-view"),
                visualizations: ids_of_kind(docs, "visualization-view"),
            },
        },
    }
}


/// Law: the entities of a world are sorted by id, and they are exactly its
/// entity, assertion, source and event records.
pub proof fn law_ecs_entities_sorted_by_id(recs: Seq<LocalMarkdownRecord>)
    ensures
        ({
            let sorted = sort_by(ecs_records(recs), |a: LocalMarkdownRecord, b: LocalMarkdownRecord| entity_before(a, b));
            &&& forall|i: int, j: int| 0 <= i < j < sorted.len() ==> !text_lt(#[trigger] sorted[j].id@, #[trigger] sorted[i].id@)
            &&& sorted.to_multiset() == ecs_records(recs).to_multiset()
        }),
{
    let before = |a: LocalMarkdownRecord, b: LocalMarkdownRecord| entity_before(a, b);
    assert forall|a: LocalMarkdownRecord, b: LocalMarkdownRecord| #[trigger] before(a, b) implies !before(b, a) by {
        crate::sorted_text::lemma_text_lt_asymmetric(a.id@, b.id@);
    }
    assert forall|a: LocalMarkdownRecord, b: LocalMarkdownRecord, c: LocalMarkdownRecord|
        #[trigger] before(a, b) && #[trigger] before(b, c) implies before(a, c) by {
        crate::sorted_text::lemma_text_lt_transitive(a.id@, b.id@, c.id@);
    }
    crate::local_authoring::timeline_compile::lemma_sort_by(ecs_records(recs), before);
}

} // verus!
