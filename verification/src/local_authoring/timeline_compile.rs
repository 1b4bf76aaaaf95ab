//! The timeline projection of a world: its events in time order, with their
//! people and places, the event collections that name them, and the
//! selection a timeline view makes.
use vstd::prelude::*;
use crate::local_authoring::data::{
    deref_opt, entries_are, get_entry, is_flat_object, lemma_entries_push, lookup, opt_str,
    spec_get, str_field, Flat, JsonValue, LocalDataBundle, LocalMarkdownRecord, LocalTomlDocument,
};
use crate::local_authoring::event_profiles::{
    event_participant_refs, local_event_type, local_event_type_id, record_type_name, ref_views,
    spec_default_label, spec_participant_refs, tag_of_name, LocalParticipantRef, RefView,
};
use crate::local_authoring::locations::{
    event_location_refs, location_fields, location_json, location_views, spec_location_refs,
};
use crate::local_authoring::summary::{attr_text, opt_string, opt_text};
use crate::sorted_text::texts;
use crate::text::{is_blank, is_blank_str, starts_with, str_eq};
use crate::timeline_source::has_prefix;

verus! {

#[derive(Debug, Clone, PartialEq, Eq)]
pub struct LocalTimelineViewSummary {
    pub id: String,
    pub title: Option<String>,
    pub path: String,
}

#[derive(Debug, Clone, PartialEq, Eq)]
pub struct LocalTimelineCollectionMember {
    pub event: String,
    pub label: Option<String>,
    pub role: Option<String>,
    pub ordinal: Option<i64>,
}

#[derive(Debug, Clone, PartialEq, Eq)]
pub struct LocalTimelineCollection {
    pub id: String,
    pub title: Option<String>,
    pub kind: String,
    pub order: Option<String>,
    pub members: Vec<LocalTimelineCollectionMember>,
    pub path: String,
}

#[derive(Debug, Clone, PartialEq, Eq)]
pub struct LocalTimelineInlineAssertion {
    pub target: String,
    pub confidence: Option<String>,
    pub sources: Vec<String>,
    pub note: Option<String>,
    pub value: Option<String>,
}

#[derive(Debug, PartialEq, Eq)]
pub struct LocalTimelineEvent {
    pub id: String,
    pub kind: String,
    pub event_type: String,
    pub title: Option<String>,
    pub time: Option<String>,
    pub participants: Vec<JsonValue>,
    pub places: Vec<JsonValue>,
    pub assertions: Vec<String>,
    pub inline_assertions: Vec<LocalTimelineInlineAssertion>,
    pub path: String,
    pub notes_markdown: String,
}

#[derive(Debug, PartialEq, Eq)]
pub struct LocalTimelineProjection {
    pub schema_version: u32,
    pub world: String,
    pub view: Option<LocalTimelineViewSummary>,
    pub collections: Vec<LocalTimelineCollection>,
    pub events: Vec<LocalTimelineEvent>,
}

impl LocalTimelineProjection {
    pub const SCHEMA_VERSION: u32 = 1;
}

// ---------------------------------------------------------------------------
// Values.

/// A value as text: a string, or the text of a number.
pub open spec fn value_text(v: JsonValue) -> Option<Seq<char>> {
    match v {
        JsonValue::Str(s) => Some(s@),
        JsonValue::Number(t) => Some(t@),
        _ => None,
    }
}

pub open spec fn opt_value_text(o: Option<JsonValue>) -> Option<Seq<char>> {
    match o {
        Some(v) => value_text(v),
        None => None,
    }
}

pub(crate) fn value_as_text(o: Option<&JsonValue>) -> (r: Option<String>)
    ensures
        opt_string(r) == opt_value_text(deref_opt(o)),
{
    match o {
        Some(JsonValue::Str(s)) => Some(s.clone()),
        Some(JsonValue::Number(t)) => Some(t.clone()),
        _ => None,
    }
}

fn text_value(o: Option<&JsonValue>) -> (r: Option<String>)
    ensures
        opt_string(r) == opt_str(deref_opt(o)),
{
    match o {
        Some(v) => match v.as_str() {
            Some(t) => Some(t.to_owned()),
            None => None,
        },
        None => None,
    }
}

/// The strings among the items, in order.
pub open spec fn text_items(items: Seq<JsonValue>) -> Seq<Seq<char>>
    decreases items.len(),
{
    if items.len() == 0 {
        seq![]
    } else {
        let rest = text_items(items.drop_last());
        match items.last() {
            JsonValue::Str(s) => rest.push(s@),
            _ => rest,
        }
    }
}

/// The strings of an array value; none for any other value.
pub open spec fn string_array(o: Option<JsonValue>) -> Seq<Seq<char>> {
    match o {
        Some(JsonValue::Array(items)) => text_items(items@),
        _ => seq![],
    }
}

pub(crate) fn string_array_of(o: Option<&JsonValue>) -> (r: Vec<String>)
    ensures
        texts(r@) == string_array(deref_opt(o)),
{
    let mut out: Vec<String> = Vec::new();
    let items = match o {
        Some(JsonValue::Array(items)) => items,
        _ => {
            assert(texts(out@) =~= seq![]);
            return out;
        },
    };
    let mut i: usize = 0;
    assert(items@.take(0) =~= seq![]);
    assert(texts(out@) =~= seq![]);
    while i < items.len()
        invariant
            i <= items@.len(),
            texts(out@) == text_items(items@.take(i as int)),
        decreases items@.len() - i,
    {
        assert(items@.take(i + 1).drop_last() =~= items@.take(i as int));
        assert(items@.take(i + 1).last() == items@[i as int]);
        match &items[i] {
            JsonValue::Str(s) => {
                let ghost before = texts(out@);
                out.push(s.clone());
                assert(texts(out@) =~= before.push(s@));
            },
            _ => {},
        }
        i = i + 1;
    }
    assert(items@.take(i as int) =~= items@);
    out
}

// ---------------------------------------------------------------------------
// Inline assertions.

/// An inline assertion as plain values.
pub struct InlineAssertionView {
    pub target: Seq<char>,
    pub confidence: Option<Seq<char>>,
    pub sources: Seq<Seq<char>>,
    pub note: Option<Seq<char>>,
    pub value: Option<Seq<char>>,
}

impl View for LocalTimelineInlineAssertion {
    type V = InlineAssertionView;

    open spec fn view(&self) -> InlineAssertionView {
        InlineAssertionView {
            target: self.target@,
            confidence: opt_string(self.confidence),
            sources: texts(self.sources@),
            note: opt_string(self.note),
            value: opt_string(self.value),
        }
    }
}

pub open spec fn assertion_views(v: Seq<LocalTimelineInlineAssertion>) -> Seq<InlineAssertionView> {
    v.map_values(|a: LocalTimelineInlineAssertion| a@)
}

/// An inline assertion of the record `id`: a table with a `target`; a
/// target that starts with `#` names a part of the record itself.
pub open spec fn inline_assertion_view(id: Seq<char>, v: JsonValue) -> Option<InlineAssertionView> {
    match v {
        JsonValue::Object(es) => match opt_str(lookup(es@, "target"@)) {
            Some(t) => Some(InlineAssertionView {
                target: if has_prefix(t, "#"@) { id + t } else { t },
                confidence: opt_str(lookup(es@, "confidence"@)),
                sources: string_array(lookup(es@, "sources"@)),
                note: opt_str(lookup(es@, "note"@)),
                value: opt_value_text(lookup(es@, "value"@)),
            }),
            None => None,
        },
        _ => None,
    }
}

pub open spec fn inline_items(id: Seq<char>, items: Seq<JsonValue>) -> Seq<InlineAssertionView>
    decreases items.len(),
{
    if items.len() == 0 {
        seq![]
    } else {
        let rest = inline_items(id, items.drop_last());
        match inline_assertion_view(id, items.last()) {
            Some(a) => rest.push(a),
            None => rest,
        }
    }
}

/// The inline assertions of a record's `assertions`.
pub open spec fn inline_assertions_of(r: LocalMarkdownRecord) -> Seq<InlineAssertionView> {
    match lookup(r.attributes@, "assertions"@) {
        Some(JsonValue::Array(items)) => inline_items(r.id@, items@),
        _ => seq![],
    }
}

fn inline_assertion(id: &str, v: &JsonValue) -> (r: Option<LocalTimelineInlineAssertion>)
    ensures
        match r {
            Some(a) => inline_assertion_view(id@, *v) == Some(a@),
            None => inline_assertion_view(id@, *v) is None,
        },
{
    let es = match v {
        JsonValue::Object(es) => es,
        _ => return None,
    };
    let t = match get_entry(es, "target") {
        Some(x) => match x.as_str() {
            Some(t) => t,
            None => return None,
        },
        None => return None,
    };
    let target = if starts_with(t, "#") {
        let mut s = id.to_owned();
        s.append(t);
        s
    } else {
        t.to_owned()
    };
    proof {
        reveal_strlit("#");
    }
    Some(LocalTimelineInlineAssertion {
        target,
        confidence: text_value(get_entry(es, "confidence")),
        sources: string_array_of(get_entry(es, "sources")),
        note: text_value(get_entry(es, "note")),
        value: value_as_text(get_entry(es, "value")),
    })
}

fn inline_assertions(r: &LocalMarkdownRecord) -> (out: Vec<LocalTimelineInlineAssertion>)
    ensures
        assertion_views(out@) == inline_assertions_of(*r),
{
    let mut out: Vec<LocalTimelineInlineAssertion> = Vec::new();
    let items = match r.attr("assertions") {
        Some(JsonValue::Array(items)) => items,
        _ => {
            assert(assertion_views(out@) =~= seq![]);
            return out;
        },
    };
    let mut i: usize = 0;
    assert(items@.take(0) =~= seq![]);
    assert(assertion_views(out@) =~= seq![]);
    while i < items.len()
        invariant
            i <= items@.len(),
            assertion_views(out@) == inline_items(r.id@, items@.take(i as int)),
        decreases items@.len() - i,
    {
        assert(items@.take(i + 1).drop_last() =~= items@.take(i as int));
        assert(items@.take(i + 1).last() == items@[i as int]);
        match inline_assertion(r.id.as_str(), &items[i]) {
            Some(a) => {
                let ghost before = assertion_views(out@);
                out.push(a);
                assert(assertion_views(out@) =~= before.push(a@));
            },
            None => {},
        }
        i = i + 1;
    }
    assert(items@.take(i as int) =~= items@);
    out
}

// ---------------------------------------------------------------------------
// People and places as JSON.

/// A participant as JSON: its entity and role (`null` without one).
pub open spec fn participant_fields(p: RefView) -> Seq<(Seq<char>, Flat)> {
    seq![
        ("entity"@, Flat::Text(p.0)),
        ("role"@, match p.1 {
            Some(r) => Flat::Text(r),
            None => Flat::Null,
        }),
    ]
}

fn participant_json(p: &LocalParticipantRef) -> (v: JsonValue)
    ensures
        is_flat_object(v, participant_fields((p.entity@, opt_string(p.role)))),
{
    let mut es: Vec<(String, JsonValue)> = Vec::new();
    let role = match &p.role {
        Some(r) => JsonValue::Str(r.clone()),
        None => JsonValue::Null,
    };
    es.push(("entity".to_owned(), JsonValue::Str(p.entity.clone())));
    es.push(("role".to_owned(), role));
    let ghost f = participant_fields((p.entity@, opt_string(p.role)));
    assert(es@[0].0@ == f[0].0);
    assert(es@[1].0@ == f[1].0);
    assert(entries_are(es@, f));
    JsonValue::Object(es)
}

/// The people of an event record as JSON.
fn participants_json(r: &LocalMarkdownRecord) -> (out: Vec<JsonValue>)
    ensures
        out@.len() == spec_participant_refs(*r).len(),
        forall|i: int| 0 <= i < out@.len()
            ==> is_flat_object(#[trigger] out@[i], participant_fields(spec_participant_refs(*r)[i])),
{
    let ps = event_participant_refs(r);
    let mut out: Vec<JsonValue> = Vec::new();
    let mut i: usize = 0;
    while i < ps.len()
        invariant
            i <= ps@.len(),
            ref_views(ps@) == spec_participant_refs(*r),
            out@.len() == i,
            forall|j: int| 0 <= j < i ==> is_flat_object(#[trigger] out@[j], participant_fields(ref_views(ps@)[j])),
        decreases ps@.len() - i,
    {
        out.push(participant_json(&ps[i]));
        i = i + 1;
    }
    out
}

/// The places of an event record as JSON.
fn places_json(r: &LocalMarkdownRecord) -> (out: Vec<JsonValue>)
    ensures
        out@.len() == spec_location_refs(*r).len(),
        forall|i: int| 0 <= i < out@.len()
            ==> is_flat_object(#[trigger] out@[i], location_fields(spec_location_refs(*r)[i])),
{
    let ls = event_location_refs(r);
    let mut out: Vec<JsonValue> = Vec::new();
    let mut i: usize = 0;
    while i < ls.len()
        invariant
            i <= ls@.len(),
            location_views(ls@) == spec_location_refs(*r),
            out@.len() == i,
            forall|j: int| 0 <= j < i ==> is_flat_object(#[trigger] out@[j], location_fields(location_views(ls@)[j])),
        decreases ls@.len() - i,
    {
        out.push(location_json(&ls[i]));
        i = i + 1;
    }
    out
}


// ---------------------------------------------------------------------------
// Names and titles.

pub open spec fn nonblank(o: Option<Seq<char>>) -> Option<Seq<char>> {
    match o {
        Some(t) => if is_blank(t) { None } else { Some(t) },
        None => None,
    }
}

/// The name a name table gives: its `display`, else its `full` name.
pub open spec fn name_table_display(o: Option<JsonValue>) -> Option<Seq<char>> {
    match o {
        Some(t) => match nonblank(str_field(t, "display"@)) {
            Some(d) => Some(d),
            None => nonblank(str_field(t, "full"@)),
        },
        None => None,
    }
}

pub open spec fn name_table(r: LocalMarkdownRecord, usage: Seq<char>) -> Option<JsonValue> {
    match lookup(r.attributes@, "names"@) {
        Some(n) => spec_get(n, usage),
        None => None,
    }
}

/// The name of a person record: its title, else its preferred name, else
/// its legal name.
pub open spec fn record_display_name(r: LocalMarkdownRecord) -> Option<Seq<char>> {
    match opt_string(r.title) {
        Some(t) => Some(t),
        None => match name_table_display(name_table(r, "preferred"@)) {
            Some(x) => Some(x),
            None => name_table_display(name_table(r, "legal"@)),
        },
    }
}

/// The name of the first person record with the id `id`.
pub open spec fn person_name(people: Seq<LocalMarkdownRecord>, id: Seq<char>) -> Option<Seq<char>>
    decreases people.len(),
{
    if people.len() == 0 {
        None
    } else if people[0].kind@ == "person"@ && people[0].id@ == id {
        record_display_name(people[0])
    } else {
        person_name(people.drop_first(), id)
    }
}

fn nonblank_text(o: Option<&JsonValue>) -> (r: Option<String>)
    ensures
        opt_string(r) == nonblank(opt_str(deref_opt(o))),
{
    match o {
        Some(v) => match v.as_str() {
            Some(t) => if is_blank_str(t) { None } else { Some(t.to_owned()) },
            None => None,
        },
        None => None,
    }
}

fn table_display(o: Option<&JsonValue>) -> (r: Option<String>)
    ensures
        opt_string(r) == name_table_display(deref_opt(o)),
{
    match o {
        Some(t) => match nonblank_text(t.get("display")) {
            Some(d) => Some(d),
            None => nonblank_text(t.get("full")),
        },
        None => None,
    }
}

fn names_entry<'a>(r: &'a LocalMarkdownRecord, usage: &str) -> (o: Option<&'a JsonValue>)
    ensures
        deref_opt(o) == name_table(*r, usage@),
{
    match r.attr("names") {
        Some(n) => n.get(usage),
        None => None,
    }
}

fn display_name(r: &LocalMarkdownRecord) -> (n: Option<String>)
    ensures
        opt_string(n) == record_display_name(*r),
{
    match &r.title {
        Some(t) => Some(t.clone()),
        None => match table_display(names_entry(r, "preferred")) {
            Some(x) => Some(x),
            None => table_display(names_entry(r, "legal")),
        },
    }
}

fn find_person_name(people: &Vec<LocalMarkdownRecord>, id: &str) -> (n: Option<String>)
    ensures
        opt_string(n) == person_name(people@, id@),
{
    let mut i: usize = 0;
    assert(people@.skip(0) =~= people@);
    while i < people.len()
        invariant
            i <= people@.len(),
            person_name(people@.skip(i as int), id@) == person_name(people@, id@),
        decreases people@.len() - i,
    {
        assert(people@.skip(i as int)[0] == people@[i as int]);
        assert(people@.skip(i as int).drop_first() =~= people@.skip(i + 1));
        let p = &people[i];
        if str_eq(p.kind.as_str(), "person") && str_eq(p.id.as_str(), id) {
            return display_name(p);
        }
        i = i + 1;
    }
    None
}

/// A role in which someone is the person an event is about.
pub open spec fn subject_role(o: Option<Seq<char>>) -> bool {
    match o {
        None => true,
        Some(r) => r == "subject"@ || r == "person"@ || r == "child"@ || r == "deceased"@
            || r == "spouse"@ || r == "partner"@,
    }
}

pub open spec fn in_subject_role(refs: Seq<RefView>, e: Seq<char>) -> bool {
    exists|i: int| 0 <= i < refs.len() && (#[trigger] refs[i]).0 == e && subject_role(refs[i].1)
}

/// The entities in a subject role, in order.
pub open spec fn subject_entities(refs: Seq<RefView>) -> Seq<Seq<char>>
    decreases refs.len(),
{
    if refs.len() == 0 {
        seq![]
    } else {
        let rest = subject_entities(refs.drop_last());
        if subject_role(refs.last().1) { rest.push(refs.last().0) } else { rest }
    }
}

/// The entities of `refs` never seen in a subject role in `all`, in order.
pub open spec fn other_entities(refs: Seq<RefView>, all: Seq<RefView>) -> Seq<Seq<char>>
    decreases refs.len(),
{
    if refs.len() == 0 {
        seq![]
    } else {
        let rest = other_entities(refs.drop_last(), all);
        if in_subject_role(all, refs.last().0) { rest } else { rest.push(refs.last().0) }
    }
}

/// The texts, each kept at its first place.
pub open spec fn first_occurrences(s: Seq<Seq<char>>) -> Seq<Seq<char>>
    decreases s.len(),
{
    if s.len() == 0 {
        seq![]
    } else {
        let rest = first_occurrences(s.drop_last());
        if rest.contains(s.last()) { rest } else { rest.push(s.last()) }
    }
}

pub open spec fn name_or_id(people: Seq<LocalMarkdownRecord>, e: Seq<char>) -> Seq<char> {
    match person_name(people, e) {
        Some(n) => n,
        None => e,
    }
}

/// The names an event's label uses: the people it is about first, then
/// the others, each by name (or id when they have none), each once.
pub open spec fn label_names(r: LocalMarkdownRecord, people: Seq<LocalMarkdownRecord>) -> Seq<Seq<char>> {
    let refs = spec_participant_refs(r);
    let entities = subject_entities(refs) + other_entities(refs, refs);
    first_occurrences(entities.map_values(|e: Seq<char>| name_or_id(people, e)))
}

/// The title of an event: its own, else its `primary_name`, else the label
/// its type gives for its people.
pub open spec fn event_title(r: LocalMarkdownRecord, people: Seq<LocalMarkdownRecord>) -> Option<Seq<char>> {
    match opt_string(r.title) {
        Some(t) => Some(t),
        None => match attr_text(r, "primary_name"@) {
            Some(p) => Some(p),
            None => match record_type_name(r) {
                Some(n) => spec_default_label(tag_of_name(n), label_names(r, people)),
                None => None,
            },
        },
    }
}

pub(crate) fn is_subject_role(o: &Option<String>) -> (b: bool)
    ensures
        b == subject_role(opt_string(*o)),
{
    match o {
        None => true,
        Some(r) => {
            let r = r.as_str();
            str_eq(r, "subject") || str_eq(r, "person") || str_eq(r, "child") || str_eq(r, "deceased")
                || str_eq(r, "spouse") || str_eq(r, "partner")
        },
    }
}

pub(crate) fn seen_in_subject_role(ps: &Vec<LocalParticipantRef>, e: &str) -> (b: bool)
    ensures
        b == in_subject_role(ref_views(ps@), e@),
{
    let mut i: usize = 0;
    while i < ps.len()
        invariant
            i <= ps@.len(),
            forall|j: int| 0 <= j < i ==> !((#[trigger] ref_views(ps@)[j]).0 == e@ && subject_role(ref_views(ps@)[j].1)),
        decreases ps@.len() - i,
    {
        if str_eq(ps[i].entity.as_str(), e) && is_subject_role(&ps[i].role) {
            assert(ref_views(ps@)[i as int].0 == e@);
            return true;
        }
        i = i + 1;
    }
    false
}

pub(crate) fn push_name(out: &mut Vec<String>, name: String)
    ensures
        texts(final(out)@) == if texts(old(out)@).contains(name@) {
            texts(old(out)@)
        } else {
            texts(old(out)@).push(name@)
        },
{
    if !crate::local_authoring::summary::contains_text(out, name.as_str()) {
        let ghost before = texts(out@);
        out.push(name);
        assert(texts(out@) =~= before.push(name@));
    }
}

fn label_names_of(r: &LocalMarkdownRecord, people: &Vec<LocalMarkdownRecord>) -> (names: Vec<String>)
    ensures
        texts(names@) == label_names(*r, people@),
{
    let ps = event_participant_refs(r);
    let ghost refs = ref_views(ps@);
    let ghost f = |e: Seq<char>| name_or_id(people@, e);
    let ghost subj = subject_entities(refs);
    let ghost all = subject_entities(refs) + other_entities(refs, refs);
    let mut out: Vec<String> = Vec::new();
    let mut i: usize = 0;
    assert(refs.take(0) =~= seq![]);
    assert(texts(out@) =~= seq![]);
    assert(subject_entities(refs.take(0)).map_values(f) =~= seq![]);
    while i < ps.len()
        invariant
            i <= ps@.len(),
            refs == ref_views(ps@),
            refs == spec_participant_refs(*r),
            f == (|e: Seq<char>| name_or_id(people@, e)),
            texts(out@) == first_occurrences(subject_entities(refs.take(i as int)).map_values(f)),
        decreases ps@.len() - i,
    {
        assert(refs.take(i + 1).drop_last() =~= refs.take(i as int));
        assert(refs.take(i + 1).last() == refs[i as int]);
        if is_subject_role(&ps[i].role) {
            let name = match find_person_name(people, ps[i].entity.as_str()) {
                Some(n) => n,
                None => ps[i].entity.clone(),
            };
            let ghost prev = subject_entities(refs.take(i as int)).map_values(f);
            let ghost next = subject_entities(refs.take(i + 1)).map_values(f);
            assert(refs[i as int].0 == ps@[i as int].entity@);
            assert(name@ == f(refs[i as int].0));
            assert(next =~= prev.push(f(refs[i as int].0)));
            assert(next.drop_last() =~= prev);
            assert(next.last() == name@);
            push_name(&mut out, name);
        } else {
            assert(subject_entities(refs.take(i + 1)) == subject_entities(refs.take(i as int)));
        }
        i = i + 1;
    }
    assert(refs.take(i as int) =~= refs);
    let mut k: usize = 0;
    assert(refs.take(0) =~= seq![]);
    assert(subj.map_values(f) + other_entities(refs.take(0), refs).map_values(f) =~= subj.map_values(f));
    while k < ps.len()
        invariant
            k <= ps@.len(),
            refs == ref_views(ps@),
            subj == subject_entities(refs),
            f == (|e: Seq<char>| name_or_id(people@, e)),
            texts(out@) == first_occurrences(subj.map_values(f) + other_entities(refs.take(k as int), refs).map_values(f)),
        decreases ps@.len() - k,
    {
        assert(refs.take(k + 1).drop_last() =~= refs.take(k as int));
        assert(refs.take(k + 1).last() == refs[k as int]);
        if !seen_in_subject_role(&ps, ps[k].entity.as_str()) {
            let name = match find_person_name(people, ps[k].entity.as_str()) {
                Some(n) => n,
                None => ps[k].entity.clone(),
            };
            let ghost prev = subj.map_values(f) + other_entities(refs.take(k as int), refs).map_values(f);
            let ghost next = subj.map_values(f) + other_entities(refs.take(k + 1), refs).map_values(f);
            assert(refs[k as int].0 == ps@[k as int].entity@);
            assert(name@ == f(refs[k as int].0));
            assert(next =~= prev.push(f(refs[k as int].0)));
            assert(next.drop_last() =~= prev);
            assert(next.last() == name@);
            push_name(&mut out, name);
        } else {
            assert(other_entities(refs.take(k + 1), refs) == other_entities(refs.take(k as int), refs));
        }
        k = k + 1;
    }
    assert(refs.take(k as int) =~= refs);
    assert(subj.map_values(f) + other_entities(refs, refs).map_values(f) =~= all.map_values(f));
    out
}

fn title_of(r: &LocalMarkdownRecord, people: &Vec<LocalMarkdownRecord>) -> (t: Option<String>)
    ensures
        opt_string(t) == event_title(*r, people@),
{
    if let Some(t) = &r.title {
        return Some(t.clone());
    }
    match text_value(r.attr("primary_name")) {
        Some(p) => return Some(p),
        None => {},
    }
    match local_event_type(r) {
        Some(t) => {
            let names = label_names_of(r, people);
            t.default_label(&names)
        },
        None => None,
    }
}


// ---------------------------------------------------------------------------
// Events.

/// When an event happened: its `date`, else its `time`.
pub open spec fn record_time(r: LocalMarkdownRecord) -> Option<Seq<char>> {
    match opt_string(r.date) {
        Some(d) => Some(d),
        None => opt_value_text(lookup(r.attributes@, "time"@)),
    }
}

/// The type of an event: its `type` when it is an event record, else its kind.
pub open spec fn event_type_of(r: LocalMarkdownRecord) -> Seq<char> {
    match record_type_name(r) {
        Some(n) => n,
        None => r.kind@,
    }
}

/// `e` is the timeline event of the record `r`, people named from `people`.
pub open spec fn is_event_of(e: LocalTimelineEvent, r: LocalMarkdownRecord, people: Seq<LocalMarkdownRecord>) -> bool {
    &&& e.id@ == r.id@
    &&& e.kind@ == r.kind@
    &&& e.event_type@ == event_type_of(r)
    &&& opt_string(e.title) == event_title(r, people)
    &&& opt_string(e.time) == record_time(r)
    &&& e.participants@.len() == spec_participant_refs(r).len()
    &&& forall|i: int| 0 <= i < e.participants@.len()
        ==> is_flat_object(#[trigger] e.participants@[i], participant_fields(spec_participant_refs(r)[i]))
    &&& e.places@.len() == spec_location_refs(r).len()
    &&& forall|i: int| 0 <= i < e.places@.len()
        ==> is_flat_object(#[trigger] e.places@[i], location_fields(spec_location_refs(r)[i]))
    &&& texts(e.assertions@) == string_array(lookup(r.attributes@, "assertions"@))
    &&& assertion_views(e.inline_assertions@) == inline_assertions_of(r)
    &&& e.path@ == r.path@
    &&& e.notes_markdown@ == r.notes_markdown@
}

fn timeline_event(r: &LocalMarkdownRecord, people: &Vec<LocalMarkdownRecord>) -> (e: LocalTimelineEvent)
    ensures
        is_event_of(e, *r, people@),
{
    let event_type = match local_event_type_id(r) {
        Some(t) => t,
        None => r.kind.clone(),
    };
    let time = match &r.date {
        Some(d) => Some(d.clone()),
        None => value_as_text(r.attr("time")),
    };
    LocalTimelineEvent {
        id: r.id.clone(),
        kind: r.kind.clone(),
        event_type,
        title: title_of(r, people),
        time,
        participants: participants_json(r),
        places: places_json(r),
        assertions: string_array_of(r.attr("assertions")),
        inline_assertions: inline_assertions(r),
        path: r.path.clone(),
        notes_markdown: r.notes_markdown.clone(),
    }
}

/// A record under `events/`, or one with `participants`.
pub open spec fn is_event_record(r: LocalMarkdownRecord) -> bool {
    has_prefix(r.path@, "events/"@) || lookup(r.attributes@, "participants"@) is Some
}

// ---------------------------------------------------------------------------
// The view's selection.

/// What a timeline view selects.
#[derive(Debug, Clone, PartialEq, Eq)]
pub struct TimelineFilter {
    pub subject: Option<String>,
    pub event_kinds: Vec<String>,
    pub related_entities: Vec<String>,
    pub include_context_events: bool,
}

/// A boolean option of a view's `filter` table, false when absent.
pub open spec fn filter_flag(view: LocalTomlDocument, key: Seq<char>) -> bool {
    match spec_get(view.data, "filter"@) {
        Some(f) => spec_get(f, key) == Some(JsonValue::Bool(true)),
        None => false,
    }
}

/// The person a view follows: its `subject.entity`.
pub open spec fn view_subject(view: LocalTomlDocument) -> Option<Seq<char>> {
    match spec_get(view.data, "subject"@) {
        Some(s) => str_field(s, "entity"@),
        None => None,
    }
}

/// The event kinds a view keeps: the strings of `filter.event_kinds`.
pub open spec fn view_event_kinds(view: LocalTomlDocument) -> Seq<Seq<char>> {
    match spec_get(view.data, "filter"@) {
        Some(f) => string_array(spec_get(f, "event_kinds"@)),
        None => seq![],
    }
}

pub open spec fn push_unique(s: Seq<Seq<char>>, v: Seq<char>) -> Seq<Seq<char>> {
    if s.contains(v) { s } else { s.push(v) }
}

/// The people a relationship document ties to `subject`, each once, in
/// document order.
pub open spec fn related_to(subject: Seq<char>, docs: Seq<LocalTomlDocument>) -> Seq<Seq<char>>
    decreases docs.len(),
{
    if docs.len() == 0 {
        seq![]
    } else {
        let rest = related_to(subject, docs.drop_last());
        let d = docs.last();
        if opt_string(d.kind) == Some("relationship"@) {
            match (str_field(d.data, "source"@), str_field(d.data, "target"@)) {
                (Some(src), Some(tgt)) => if src == subject {
                    push_unique(rest, tgt)
                } else if tgt == subject {
                    push_unique(rest, src)
                } else {
                    rest
                },
                _ => rest,
            }
        } else {
            rest
        }
    }
}

/// A relationship document with a source and a target.
pub open spec fn relationship_ends(d: LocalTomlDocument, src: Seq<char>, tgt: Seq<char>) -> bool {
    &&& opt_string(d.kind) == Some("relationship"@)
    &&& str_field(d.data, "source"@) == Some(src)
    &&& str_field(d.data, "target"@) == Some(tgt)
}

/// A relationship document ties `x` to `subject`, either way round.
pub open spec fn ties(d: LocalTomlDocument, subject: Seq<char>, x: Seq<char>) -> bool {
    relationship_ends(d, subject, x) || relationship_ends(d, x, subject)
}

/// The people related to a subject are the other ends of the relationship
/// documents that name the subject, as source or as target: every such
/// other end is related, nobody else is, and nobody is listed twice.
pub proof fn law_related_people_are_both_ends(subject: Seq<char>, docs: Seq<LocalTomlDocument>)
    ensures
        forall|i: int, src: Seq<char>, tgt: Seq<char>|
            0 <= i < docs.len() && #[trigger] relationship_ends(docs[i], src, tgt) && src == subject
            ==> related_to(subject, docs).contains(tgt),
        forall|i: int, src: Seq<char>, tgt: Seq<char>|
            0 <= i < docs.len() && #[trigger] relationship_ends(docs[i], src, tgt) && tgt == subject
            ==> related_to(subject, docs).contains(src),
        forall|x: Seq<char>| #[trigger] related_to(subject, docs).contains(x)
            ==> exists|i: int| 0 <= i < docs.len() && #[trigger] ties(docs[i], subject, x),
        forall|a: int, b: int| 0 <= a < b < related_to(subject, docs).len()
            ==> related_to(subject, docs)[a] != related_to(subject, docs)[b],
    decreases docs.len(),
{
    if docs.len() > 0 {
        let init = docs.drop_last();
        law_related_people_are_both_ends(subject, init);
        let rest = related_to(subject, init);
        let all = related_to(subject, docs);
        let d = docs.last();
        assert(forall|x: Seq<char>| rest.contains(x) ==> all.contains(x)) by {
            assert forall|x: Seq<char>| rest.contains(x) implies all.contains(x) by {
                let k = choose|k: int| 0 <= k < rest.len() && rest[k] == x;
                if all != rest {
                    assert(all[k] == x);
                }
            }
        }
        assert forall|i: int, src: Seq<char>, tgt: Seq<char>|
            0 <= i < docs.len() && #[trigger] relationship_ends(docs[i], src, tgt) && src == subject
            implies all.contains(tgt) by {
            if i < docs.len() - 1 {
                assert(docs[i] == init[i]);
                assert(relationship_ends(init[i], src, tgt));
                assert(rest.contains(tgt));
            } else {
                if !rest.contains(tgt) {
                    assert(all[rest.len() as int] == tgt);
                }
            }
        }
        assert forall|i: int, src: Seq<char>, tgt: Seq<char>|
            0 <= i < docs.len() && #[trigger] relationship_ends(docs[i], src, tgt) && tgt == subject
            implies all.contains(src) by {
            if i < docs.len() - 1 {
                assert(docs[i] == init[i]);
                assert(relationship_ends(init[i], src, tgt));
                assert(rest.contains(src));
            } else if src == subject {
                if !rest.contains(tgt) {
                    assert(all[rest.len() as int] == tgt);
                }
            } else {
                if !rest.contains(src) {
                    assert(all[rest.len() as int] == src);
                }
            }
        }
        assert forall|x: Seq<char>| #[trigger] all.contains(x)
            implies exists|i: int| 0 <= i < docs.len() && #[trigger] ties(docs[i], subject, x) by {
            if rest.contains(x) {
                let i = choose|i: int| 0 <= i < init.len() && #[trigger] ties(init[i], subject, x);
                assert(docs[i] == init[i]);
                assert(ties(docs[i], subject, x));
            } else {
                let k = choose|k: int| 0 <= k < all.len() && all[k] == x;
                assert(k == rest.len());
                let n = docs.len() - 1;
                let src = str_field(d.data, "source"@).unwrap();
                let tgt = str_field(d.data, "target"@).unwrap();
                if src == subject {
                    assert(relationship_ends(docs[n], subject, x));
                } else {
                    assert(relationship_ends(docs[n], x, subject));
                }
                assert(ties(docs[n], subject, x));
            }
        }
        assert forall|a: int, b: int| 0 <= a < b < all.len() implies all[a] != all[b] by {
            if b == rest.len() {
                assert(all[a] == rest[a]);
            } else {
                assert(all[a] == rest[a] && all[b] == rest[b]);
            }
        }
    }
}

/// The selection of a view: its subject, its event kinds, the people
/// related to the subject (when it asks for them), and whether events with
/// no participants are kept.
pub open spec fn filter_matches(f: TimelineFilter, view: LocalTomlDocument, docs: Seq<LocalTomlDocument>) -> bool {
    &&& opt_string(f.subject) == view_subject(view)
    &&& texts(f.event_kinds@) == view_event_kinds(view)
    &&& texts(f.related_entities@) == match view_subject(view) {
        Some(s) => if filter_flag(view, "include_related_people"@) { related_to(s, docs) } else { seq![] },
        None => seq![],
    }
    &&& f.include_context_events == filter_flag(view, "include_context_events"@)
}

/// The filter that keeps every event.
pub open spec fn no_filter(f: TimelineFilter) -> bool {
    &&& f.subject is None
    &&& f.event_kinds@.len() == 0
    &&& f.related_entities@.len() == 0
    &&& !f.include_context_events
}

fn flag_of(view: &LocalTomlDocument, key: &str) -> (b: bool)
    ensures
        b == filter_flag(*view, key@),
{
    match view.data.get("filter") {
        Some(f) => match f.get(key) {
            Some(JsonValue::Bool(b)) => *b,
            _ => false,
        },
        None => false,
    }
}

fn related_entities_for_subject(subject: &str, docs: &Vec<LocalTomlDocument>) -> (out: Vec<String>)
    ensures
        texts(out@) == related_to(subject@, docs@),
{
    let mut out: Vec<String> = Vec::new();
    let mut i: usize = 0;
    assert(docs@.take(0) =~= seq![]);
    assert(texts(out@) =~= seq![]);
    while i < docs.len()
        invariant
            i <= docs@.len(),
            texts(out@) == related_to(subject@, docs@.take(i as int)),
        decreases docs@.len() - i,
    {
        assert(docs@.take(i + 1).drop_last() =~= docs@.take(i as int));
        assert(docs@.take(i + 1).last() == docs@[i as int]);
        let d = &docs[i];
        let is_rel = match &d.kind {
            Some(k) => str_eq(k.as_str(), "relationship"),
            None => false,
        };
        if is_rel {
            let src = text_value(d.data.get("source"));
            let tgt = text_value(d.data.get("target"));
            match (src, tgt) {
                (Some(src), Some(tgt)) => {
                    if str_eq(src.as_str(), subject) {
                        push_name(&mut out, tgt);
                    } else if str_eq(tgt.as_str(), subject) {
                        push_name(&mut out, src);
                    }
                },
                _ => {},
            }
        }
        i = i + 1;
    }
    assert(docs@.take(i as int) =~= docs@);
    out
}

/// The selection a timeline view makes.
pub fn timeline_filter(view: &LocalTomlDocument, docs: &Vec<LocalTomlDocument>) -> (f: TimelineFilter)
    ensures
        filter_matches(f, *view, docs@),
{
    let subject = match view.data.get("subject") {
        Some(s) => text_value(s.get("entity")),
        None => None,
    };
    let event_kinds = match view.data.get("filter") {
        Some(f) => string_array_of(f.get("event_kinds")),
        None => {
            let v: Vec<String> = Vec::new();
            assert(texts(v@) =~= seq![]);
            v
        },
    };
    let include_related = flag_of(view, "include_related_people");
    let related_entities = match &subject {
        Some(s) => if include_related {
            related_entities_for_subject(s.as_str(), docs)
        } else {
            let v: Vec<String> = Vec::new();
            assert(texts(v@) =~= seq![]);
            v
        },
        None => {
            let v: Vec<String> = Vec::new();
            assert(texts(v@) =~= seq![]);
            v
        },
    };
    TimelineFilter {
        subject,
        event_kinds,
        related_entities,
        include_context_events: flag_of(view, "include_context_events"),
    }
}

/// The `entity` of each participant table of a record, as written.
pub open spec fn entity_items(items: Seq<JsonValue>) -> Seq<Seq<char>>
    decreases items.len(),
{
    if items.len() == 0 {
        seq![]
    } else {
        let rest = entity_items(items.drop_last());
        match str_field(items.last(), "entity"@) {
            Some(e) => rest.push(e),
            None => rest,
        }
    }
}

pub open spec fn raw_participant_ids(r: LocalMarkdownRecord) -> Seq<Seq<char>> {
    match lookup(r.attributes@, "participants"@) {
        Some(JsonValue::Array(items)) => entity_items(items@),
        _ => seq![],
    }
}

/// A view keeps an event of one of its kinds (any kind when it names none)
/// that has its subject, or a related person, among its participants; or,
/// when it asks for them, one with no participants. Without a subject it
/// keeps every event of its kinds.
pub open spec fn keeps_by(subject: Option<Seq<char>>, kinds: Seq<Seq<char>>, related: Seq<Seq<char>>, context: bool, r: LocalMarkdownRecord) -> bool {
    let ids = raw_participant_ids(r);
    &&& (kinds.len() == 0 || kinds.contains(r.kind@))
    &&& match subject {
        None => true,
        Some(s) => ids.contains(s)
            || (exists|i: int| 0 <= i < ids.len() && related.contains(#[trigger] ids[i]))
            || (context && ids.len() == 0),
    }
}

pub open spec fn filter_keeps(f: TimelineFilter, r: LocalMarkdownRecord) -> bool {
    keeps_by(opt_string(f.subject), texts(f.event_kinds@), texts(f.related_entities@), f.include_context_events, r)
}

fn participant_ids_of(r: &LocalMarkdownRecord) -> (out: Vec<String>)
    ensures
        texts(out@) == raw_participant_ids(*r),
{
    let mut out: Vec<String> = Vec::new();
    let items = match r.attr("participants") {
        Some(JsonValue::Array(items)) => items,
        _ => {
            assert(texts(out@) =~= seq![]);
            return out;
        },
    };
    let mut i: usize = 0;
    assert(items@.take(0) =~= seq![]);
    assert(texts(out@) =~= seq![]);
    while i < items.len()
        invariant
            i <= items@.len(),
            texts(out@) == entity_items(items@.take(i as int)),
        decreases items@.len() - i,
    {
        assert(items@.take(i + 1).drop_last() =~= items@.take(i as int));
        assert(items@.take(i + 1).last() == items@[i as int]);
        match text_value(items[i].get("entity")) {
            Some(e) => {
                let ghost before = texts(out@);
                out.push(e);
                assert(texts(out@) =~= before.push(e@));
            },
            None => {},
        }
        i = i + 1;
    }
    assert(items@.take(i as int) =~= items@);
    out
}

fn keeps(f: &TimelineFilter, r: &LocalMarkdownRecord) -> (b: bool)
    ensures
        b == filter_keeps(*f, *r),
{
    if f.event_kinds.len() > 0 && !crate::local_authoring::summary::contains_text(&f.event_kinds, r.kind.as_str()) {
        return false;
    }
    let subject = match &f.subject {
        Some(s) => s,
        None => return true,
    };
    let ids = participant_ids_of(r);
    if crate::local_authoring::summary::contains_text(&ids, subject.as_str()) {
        return true;
    }
    let mut i: usize = 0;
    while i < ids.len()
        invariant
            i <= ids@.len(),
            texts(ids@) == raw_participant_ids(*r),
            f.event_kinds@.len() == 0 || texts(f.event_kinds@).contains(r.kind@),
            opt_string(f.subject) == Some(subject@),
            !raw_participant_ids(*r).contains(subject@),
            forall|j: int| 0 <= j < i ==> !texts(f.related_entities@).contains(#[trigger] texts(ids@)[j]),
        decreases ids@.len() - i,
    {
        if crate::local_authoring::summary::contains_text(&f.related_entities, ids[i].as_str()) {
            assert(texts(ids@)[i as int] == ids@[i as int]@);
            assert(texts(f.related_entities@).contains(raw_participant_ids(*r)[i as int]));
            return true;
        }
        i = i + 1;
    }
    f.include_context_events && ids.len() == 0
}


// ---------------------------------------------------------------------------
// Stable sorting.

/// `x` inserted before the first element it sorts before (after every
/// element it does not sort before).
pub open spec fn insert_sorted_by<T>(s: Seq<T>, x: T, before: spec_fn(T, T) -> bool) -> Seq<T>
    decreases s.len(),
{
    if s.len() == 0 {
        seq![x]
    } else if before(x, s[0]) {
        seq![x] + s
    } else {
        seq![s[0]] + insert_sorted_by(s.drop_first(), x, before)
    }
}

/// The stable sort of `s`: elements in `before` order, those that do not
/// sort before one another in the order they came.
pub open spec fn sort_by<T>(s: Seq<T>, before: spec_fn(T, T) -> bool) -> Seq<T>
    decreases s.len(),
{
    if s.len() == 0 {
        seq![]
    } else {
        insert_sorted_by(sort_by(s.drop_last(), before), s.last(), before)
    }
}

pub proof fn lemma_insert_at<T>(s: Seq<T>, x: T, before: spec_fn(T, T) -> bool, p: int)
    requires
        0 <= p <= s.len(),
        forall|j: int| 0 <= j < p ==> !before(x, #[trigger] s[j]),
        p == s.len() || before(x, s[p]),
    ensures
        insert_sorted_by(s, x, before) == s.take(p).push(x) + s.skip(p),
    decreases s.len(),
{
    if s.len() == 0 {
        assert(s.take(p).push(x) + s.skip(p) =~= seq![x]);
    } else if p == 0 {
        assert(s.take(0).push(x) + s.skip(0) =~= seq![x] + s);
    } else {
        assert(!before(x, s[0]));
        let t = s.drop_first();
        assert forall|j: int| 0 <= j < p - 1 implies !before(x, #[trigger] t[j]) by {
            assert(t[j] == s[j + 1]);
        }
        if p < s.len() {
            assert(t[p - 1] == s[p]);
        }
        lemma_insert_at(t, x, before, p - 1);
        assert(seq![s[0]] + (t.take(p - 1).push(x) + t.skip(p - 1)) =~= s.take(p).push(x) + s.skip(p));
    }
}

pub proof fn lemma_sort_step<T>(s: Seq<T>, k: int, before: spec_fn(T, T) -> bool)
    requires
        0 <= k < s.len(),
    ensures
        sort_by(s.take(k + 1), before) == insert_sorted_by(sort_by(s.take(k), before), s[k], before),
{
    assert(s.take(k + 1).drop_last() =~= s.take(k));
    assert(s.take(k + 1).last() == s[k]);
}

/// `a` happens before `b`: an unknown time first, then by time and id.
pub open spec fn key_before(ta: Option<Seq<char>>, ia: Seq<char>, tb: Option<Seq<char>>, ib: Seq<char>) -> bool {
    let time_lt = match (ta, tb) {
        (None, Some(_)) => true,
        (Some(x), Some(y)) => crate::sorted_text::text_lt(x, y),
        _ => false,
    };
    time_lt || (ta == tb && crate::sorted_text::text_lt(ia, ib))
}

pub open spec fn record_before(a: LocalMarkdownRecord, b: LocalMarkdownRecord) -> bool {
    key_before(record_time(a), a.id@, record_time(b), b.id@)
}

fn event_before(a: &LocalTimelineEvent, b: &LocalTimelineEvent) -> (r: bool)
    ensures
        r == key_before(opt_string(a.time), a.id@, opt_string(b.time), b.id@),
{
    let (lt, same) = match (&a.time, &b.time) {
        (None, Some(_)) => (true, false),
        (Some(x), Some(y)) => (crate::sorted_text::str_lt(x.as_str(), y.as_str()), str_eq(x.as_str(), y.as_str())),
        (None, None) => (false, true),
        (Some(_), None) => (false, false),
    };
    lt || (same && crate::sorted_text::str_lt(a.id.as_str(), b.id.as_str()))
}

fn sort_events(events: Vec<LocalTimelineEvent>, Ghost(recs): Ghost<Seq<LocalMarkdownRecord>>, Ghost(people): Ghost<Seq<LocalMarkdownRecord>>) -> (out: Vec<LocalTimelineEvent>)
    requires
        events@.len() == recs.len(),
        forall|i: int| 0 <= i < recs.len() ==> is_event_of(#[trigger] events@[i], recs[i], people),
    ensures
        out@.len() == recs.len(),
        forall|i: int| 0 <= i < recs.len()
            ==> is_event_of(#[trigger] out@[i], sort_by(recs, |a: LocalMarkdownRecord, b: LocalMarkdownRecord| record_before(a, b))[i], people),
{
    let ghost before = |a: LocalMarkdownRecord, b: LocalMarkdownRecord| record_before(a, b);
    let mut events = events;
    let mut sorted: Vec<LocalTimelineEvent> = Vec::new();
    let ghost mut srecs: Seq<LocalMarkdownRecord> = seq![];
    let ghost mut k: int = 0;
    assert(recs.take(0) =~= seq![]);
    while events.len() > 0
        invariant
            0 <= k <= recs.len(),
            events@.len() == recs.len() - k,
            forall|i: int| 0 <= i < events@.len() ==> is_event_of(#[trigger] events@[i], recs[k + i], people),
            srecs == sort_by(recs.take(k), before),
            sorted@.len() == srecs.len(),
            srecs.len() == k,
            forall|i: int| 0 <= i < sorted@.len() ==> is_event_of(#[trigger] sorted@[i], srecs[i], people),
            before == (|a: LocalMarkdownRecord, b: LocalMarkdownRecord| record_before(a, b)),
        decreases events@.len(),
    {
        assert(is_event_of(events@[0], recs[k + 0], people));
        let ghost pending = events@;
        let e = events.remove(0);
        let ghost rk = recs[k];
        let mut j: usize = 0;
        while j < sorted.len() && !event_before(&e, &sorted[j])
            invariant
                j <= sorted@.len(),
                sorted@.len() == srecs.len(),
                is_event_of(e, rk, people),
                forall|i: int| 0 <= i < sorted@.len() ==> is_event_of(#[trigger] sorted@[i], srecs[i], people),
                forall|i: int| 0 <= i < j ==> !before(rk, #[trigger] srecs[i]),
                before == (|a: LocalMarkdownRecord, b: LocalMarkdownRecord| record_before(a, b)),
            decreases sorted@.len() - j,
        {
            assert(is_event_of(sorted@[j as int], srecs[j as int], people));
            j = j + 1;
        }
        proof {
            if j < sorted@.len() {
                assert(is_event_of(sorted@[j as int], srecs[j as int], people));
                assert(before(rk, srecs[j as int]));
            }
            lemma_insert_at(srecs, rk, before, j as int);
            lemma_sort_step(recs, k, before);
        }
        let ghost old_sorted = sorted@;
        let ghost old_srecs = srecs;
        sorted.insert(j, e);
        proof {
            srecs = insert_sorted_by(srecs, rk, before);
            assert(srecs == old_srecs.take(j as int).push(rk) + old_srecs.skip(j as int));
            assert forall|i: int| 0 <= i < sorted@.len() implies is_event_of(#[trigger] sorted@[i], srecs[i], people) by {
                if i < j {
                    assert(sorted@[i] == old_sorted[i]);
                    assert(srecs[i] == old_srecs[i]);
                    assert(is_event_of(old_sorted[i], old_srecs[i], people));
                } else if i == j {
                    assert(sorted@[i] == e);
                    assert(srecs[i] == rk);
                } else {
                    assert(sorted@[i] == old_sorted[i - 1]);
                    assert(srecs[i] == old_srecs[i - 1]);
                    assert(is_event_of(old_sorted[i - 1], old_srecs[i - 1], people));
                }
            }
            assert forall|i: int| 0 <= i < events@.len() implies is_event_of(#[trigger] events@[i], recs[k + 1 + i], people) by {
                assert(events@[i] == pending[i + 1]);
                assert(is_event_of(pending[i + 1], recs[k + (i + 1)], people));
            }
            k = k + 1;
        }
    }
    assert(recs.take(k) =~= recs);
    sorted
}


// ---------------------------------------------------------------------------
// Collections.

pub struct MemberView {
    pub event: Seq<char>,
    pub label: Option<Seq<char>>,
    pub role: Option<Seq<char>>,
    pub ordinal: Option<int>,
}

pub open spec fn opt_int(o: Option<i64>) -> Option<int> {
    match o {
        Some(n) => Some(n as int),
        None => None,
    }
}

impl View for LocalTimelineCollectionMember {
    type V = MemberView;

    open spec fn view(&self) -> MemberView {
        MemberView { event: self.event@, label: opt_string(self.label), role: opt_string(self.role), ordinal: opt_int(self.ordinal) }
    }
}

pub struct CollectionView {
    pub id: Seq<char>,
    pub title: Option<Seq<char>>,
    pub kind: Seq<char>,
    pub order: Option<Seq<char>>,
    pub members: Seq<MemberView>,
    pub path: Seq<char>,
}

impl View for LocalTimelineCollection {
    type V = CollectionView;

    open spec fn view(&self) -> CollectionView {
        CollectionView {
            id: self.id@,
            title: opt_string(self.title),
            kind: self.kind@,
            order: opt_string(self.order),
            members: self.members@.map_values(|m: LocalTimelineCollectionMember| m@),
            path: self.path@,
        }
    }
}

pub open spec fn collection_views(cs: Seq<LocalTimelineCollection>) -> Seq<CollectionView> {
    cs.map_values(|c: LocalTimelineCollection| c@)
}

/// A member of a collection whose event is on the timeline.
pub open spec fn member_view(v: JsonValue, events: Seq<Seq<char>>) -> Option<MemberView> {
    match str_field(v, "event"@) {
        Some(e) => if events.contains(e) {
            Some(MemberView {
                event: e,
                label: str_field(v, "label"@),
                role: str_field(v, "role"@),
                ordinal: match spec_get(v, "ordinal"@) {
                    Some(o) => crate::local_authoring::data::spec_as_i64(o),
                    None => None,
                },
            })
        } else {
            None
        },
        None => None,
    }
}

pub open spec fn member_items(items: Seq<JsonValue>, events: Seq<Seq<char>>) -> Seq<MemberView>
    decreases items.len(),
{
    if items.len() == 0 {
        seq![]
    } else {
        let rest = member_items(items.drop_last(), events);
        match member_view(items.last(), events) {
            Some(m) => rest.push(m),
            None => rest,
        }
    }
}

/// An event collection on the timeline: its members whose events are on
/// it; none when no member is.
pub open spec fn collection_of(d: LocalTomlDocument, events: Seq<Seq<char>>) -> Option<CollectionView> {
    let members = match spec_get(d.data, "members"@) {
        Some(JsonValue::Array(items)) => member_items(items@, events),
        _ => seq![],
    };
    if members.len() == 0 {
        None
    } else {
        Some(CollectionView {
            id: match opt_string(d.id) {
                Some(i) => i,
                None => d.path@,
            },
            title: opt_string(d.title),
            kind: match str_field(d.data, "collection_kind"@) {
                Some(k) => k,
                None => "set"@,
            },
            order: str_field(d.data, "order"@),
            members,
            path: d.path@,
        })
    }
}

/// The collections of the event-collection documents, in document order.
pub open spec fn collections_of(docs: Seq<LocalTomlDocument>, events: Seq<Seq<char>>) -> Seq<CollectionView>
    decreases docs.len(),
{
    if docs.len() == 0 {
        seq![]
    } else {
        let rest = collections_of(docs.drop_last(), events);
        let d = docs.last();
        if opt_string(d.kind) == Some("event-collection"@) {
            match collection_of(d, events) {
                Some(c) => rest.push(c),
                None => rest,
            }
        } else {
            rest
        }
    }
}

pub open spec fn collection_before(a: CollectionView, b: CollectionView) -> bool {
    crate::sorted_text::text_lt(a.id, b.id)
}

fn member_of(v: &JsonValue, events: &Vec<String>) -> (r: Option<LocalTimelineCollectionMember>)
    ensures
        match r {
            Some(m) => member_view(*v, texts(events@)) == Some(m@),
            None => member_view(*v, texts(events@)) is None,
        },
{
    let e = match text_value(v.get("event")) {
        Some(e) => e,
        None => return None,
    };
    if !crate::local_authoring::summary::contains_text(events, e.as_str()) {
        return None;
    }
    let ordinal = match v.get("ordinal") {
        Some(o) => o.as_i64(),
        None => None,
    };
    Some(LocalTimelineCollectionMember {
        event: e,
        label: text_value(v.get("label")),
        role: text_value(v.get("role")),
        ordinal,
    })
}

fn collection_from(d: &LocalTomlDocument, events: &Vec<String>) -> (r: Option<LocalTimelineCollection>)
    ensures
        match r {
            Some(c) => collection_of(*d, texts(events@)) == Some(c@),
            None => collection_of(*d, texts(events@)) is None,
        },
{
    let mut members: Vec<LocalTimelineCollectionMember> = Vec::new();
    let ghost mv = members@.map_values(|m: LocalTimelineCollectionMember| m@);
    assert(members@.map_values(|m: LocalTimelineCollectionMember| m@) =~= seq![]);
    match d.data.get("members") {
        Some(JsonValue::Array(items)) => {
            let mut i: usize = 0;
            assert(items@.take(0) =~= seq![]);
            while i < items.len()
                invariant
                    i <= items@.len(),
                    members@.map_values(|m: LocalTimelineCollectionMember| m@) == member_items(items@.take(i as int), texts(events@)),
                decreases items@.len() - i,
            {
                assert(items@.take(i + 1).drop_last() =~= items@.take(i as int));
                assert(items@.take(i + 1).last() == items@[i as int]);
                match member_of(&items[i], events) {
                    Some(m) => {
                        let ghost before = members@;
                        members.push(m);
                        assert(members@.map_values(|m: LocalTimelineCollectionMember| m@)
                            =~= before.map_values(|m: LocalTimelineCollectionMember| m@).push(m@));
                    },
                    None => {},
                }
                i = i + 1;
            }
            assert(items@.take(i as int) =~= items@);
        },
        _ => {},
    }
    if members.len() == 0 {
        return None;
    }
    let id = match &d.id {
        Some(i) => i.clone(),
        None => d.path.clone(),
    };
    let kind = match text_value(d.data.get("collection_kind")) {
        Some(k) => k,
        None => "set".to_owned(),
    };
    proof {
        reveal_strlit("set");
    }
    Some(LocalTimelineCollection {
        id,
        title: match &d.title {
            Some(t) => Some(t.clone()),
            None => None,
        },
        kind,
        order: text_value(d.data.get("order")),
        members,
        path: d.path.clone(),
    })
}

fn sort_collections(cs: Vec<LocalTimelineCollection>) -> (out: Vec<LocalTimelineCollection>)
    ensures
        collection_views(out@) == sort_by(collection_views(cs@), |a: CollectionView, b: CollectionView| collection_before(a, b)),
{
    let ghost before = |a: CollectionView, b: CollectionView| collection_before(a, b);
    let ghost orig = collection_views(cs@);
    let mut cs = cs;
    let mut sorted: Vec<LocalTimelineCollection> = Vec::new();
    let ghost mut k: int = 0;
    assert(orig.take(0) =~= seq![]);
    assert(collection_views(sorted@) =~= seq![]);
    while cs.len() > 0
        invariant
            0 <= k <= orig.len(),
            collection_views(cs@) == orig.skip(k),
            collection_views(sorted@) == sort_by(orig.take(k), before),
            before == (|a: CollectionView, b: CollectionView| collection_before(a, b)),
        decreases cs@.len(),
    {
        assert(collection_views(cs@).len() == cs@.len());
        assert(k < orig.len());
        assert(orig.skip(k)[0] == orig[k]);
        assert(collection_views(cs@)[0] == cs@[0]@);
        let ghost pending = cs@;
        let c = cs.remove(0);
        assert(c@ == orig[k]);
        assert(collection_views(cs@) =~= orig.skip(k + 1)) by {
            assert forall|i: int| 0 <= i < cs@.len() implies #[trigger] collection_views(cs@)[i] == orig.skip(k + 1)[i] by {
                assert(cs@[i] == pending[i + 1]);
                assert(collection_views(cs@)[i] == cs@[i]@);
                assert(collection_views(pending)[i + 1] == pending[i + 1]@);
                assert(collection_views(pending)[i + 1] == orig.skip(k)[i + 1]);
            }
        }
        let ghost sv = collection_views(sorted@);
        let mut j: usize = 0;
        while j < sorted.len() && !crate::sorted_text::str_lt(c.id.as_str(), sorted[j].id.as_str())
            invariant
                j <= sorted@.len(),
                sv == collection_views(sorted@),
                forall|i: int| 0 <= i < j ==> !before(c@, #[trigger] sv[i]),
                before == (|a: CollectionView, b: CollectionView| collection_before(a, b)),
            decreases sorted@.len() - j,
        {
            j = j + 1;
        }
        proof {
            lemma_insert_at(sv, c@, before, j as int);
            lemma_sort_step(orig, k, before);
        }
        sorted.insert(j, c);
        proof {
            assert(collection_views(sorted@) =~= sv.take(j as int).push(c@) + sv.skip(j as int));
            k = k + 1;
        }
    }
    assert(orig.take(k) =~= orig);
    sorted
}

/// The collections on the timeline, sorted by id.
fn timeline_collections(docs: &Vec<LocalTomlDocument>, events: &Vec<String>) -> (out: Vec<LocalTimelineCollection>)
    ensures
        collection_views(out@) == sort_by(collections_of(docs@, texts(events@)), |a: CollectionView, b: CollectionView| collection_before(a, b)),
{
    let mut cs: Vec<LocalTimelineCollection> = Vec::new();
    let mut i: usize = 0;
    assert(docs@.take(0) =~= seq![]);
    assert(collection_views(cs@) =~= seq![]);
    while i < docs.len()
        invariant
            i <= docs@.len(),
            collection_views(cs@) == collections_of(docs@.take(i as int), texts(events@)),
        decreases docs@.len() - i,
    {
        assert(docs@.take(i + 1).drop_last() =~= docs@.take(i as int));
        assert(docs@.take(i + 1).last() == docs@[i as int]);
        let d = &docs[i];
        let is_collection = match &d.kind {
            Some(k) => str_eq(k.as_str(), "event-collection"),
            None => false,
        };
        if is_collection {
            match collection_from(d, events) {
                Some(c) => {
                    let ghost before = collection_views(cs@);
                    cs.push(c);
                    assert(collection_views(cs@) =~= before.push(c@));
                },
                None => {},
            }
        }
        i = i + 1;
    }
    assert(docs@.take(i as int) =~= docs@);
    sort_collections(cs)
}


// ---------------------------------------------------------------------------
// The projection.

/// The first document that `p` holds of.
pub open spec fn first_doc(docs: Seq<LocalTomlDocument>, p: spec_fn(LocalTomlDocument) -> bool) -> Option<int>
    decreases docs.len(),
{
    if docs.len() == 0 {
        None
    } else if p(docs[0]) {
        Some(0)
    } else {
        match first_doc(docs.drop_first(), p) {
            Some(i) => Some(i + 1),
            None => None,
        }
    }
}

proof fn lemma_first_doc(docs: Seq<LocalTomlDocument>, p: spec_fn(LocalTomlDocument) -> bool, i: int)
    requires
        0 <= i <= docs.len(),
        forall|j: int| 0 <= j < i ==> !p(#[trigger] docs[j]),
    ensures
        first_doc(docs, p) == (match first_doc(docs.skip(i), p) {
            Some(k) => Some(k + i),
            None => None::<int>,
        }),
    decreases i,
{
    if i > 0 {
        assert(!p(docs[0]));
        let t = docs.drop_first();
        assert forall|j: int| 0 <= j < i - 1 implies !p(#[trigger] t[j]) by {
            assert(t[j] == docs[j + 1]);
        }
        lemma_first_doc(t, p, i - 1);
        assert(t.skip(i - 1) =~= docs.skip(i));
    } else {
        assert(docs.skip(0) =~= docs);
    }
}

/// A timeline view, named by `slug` when one is given.
pub open spec fn selects(d: LocalTomlDocument, slug: Option<Seq<char>>) -> bool {
    &&& opt_string(d.kind) == Some("timeline-view"@)
    &&& match slug {
        Some(s) => opt_string(d.id) == Some("timeline:"@ + s) || d.path@ == "views/timelines/"@ + s + ".toml"@,
        None => true,
    }
}

/// The view of a projection: the first timeline view, or the first one
/// named `slug`.
pub open spec fn selected_view(docs: Seq<LocalTomlDocument>, slug: Option<Seq<char>>) -> Option<LocalTomlDocument> {
    match first_doc(docs, |d: LocalTomlDocument| selects(d, slug)) {
        Some(i) => Some(docs[i]),
        None => None,
    }
}

/// The world of a projection: the id of the first `world.toml`.
pub open spec fn world_of(docs: Seq<LocalTomlDocument>) -> Seq<char> {
    match first_doc(docs, |d: LocalTomlDocument| d.path@ == "world.toml"@) {
        Some(i) => match docs[i].id {
            Some(id) => id@,
            None => "world:default"@,
        },
        None => "world:default"@,
    }
}

pub open spec fn view_related(v: LocalTomlDocument, docs: Seq<LocalTomlDocument>) -> Seq<Seq<char>> {
    match view_subject(v) {
        Some(s) => if filter_flag(v, "include_related_people"@) { related_to(s, docs) } else { seq![] },
        None => seq![],
    }
}

/// An event record that the view (if any) keeps.
pub open spec fn keeps_record(view: Option<LocalTomlDocument>, docs: Seq<LocalTomlDocument>, r: LocalMarkdownRecord) -> bool {
    &&& is_event_record(r)
    &&& match view {
        Some(v) => keeps_by(view_subject(v), view_event_kinds(v), view_related(v, docs),
            filter_flag(v, "include_context_events"@), r),
        None => true,
    }
}

pub open spec fn selected_records(recs: Seq<LocalMarkdownRecord>, view: Option<LocalTomlDocument>, docs: Seq<LocalTomlDocument>) -> Seq<LocalMarkdownRecord>
    decreases recs.len(),
{
    if recs.len() == 0 {
        seq![]
    } else {
        let rest = selected_records(recs.drop_last(), view, docs);
        if keeps_record(view, docs, recs.last()) { rest.push(recs.last()) } else { rest }
    }
}

pub open spec fn record_ids(recs: Seq<LocalMarkdownRecord>) -> Seq<Seq<char>> {
    recs.map_values(|r: LocalMarkdownRecord| r.id@)
}

fn find_view<'a>(docs: &'a Vec<LocalTomlDocument>, slug: Option<&str>) -> (r: Option<&'a LocalTomlDocument>)
    ensures
        match r {
            Some(d) => selected_view(docs@, opt_text(slug)) == Some(*d),
            None => selected_view(docs@, opt_text(slug)) is None,
        },
{
    let ghost p = |d: LocalTomlDocument| selects(d, opt_text(slug));
    let (view_id, view_path) = match slug {
        Some(s) => {
            let mut id = "timeline:".to_owned();
            id.append(s);
            let mut path = "views/timelines/".to_owned();
            path.append(s);
            path.append(".toml");
            (id, path)
        },
        None => (String::new(), String::new()),
    };
    let mut i: usize = 0;
    while i < docs.len()
        invariant
            i <= docs@.len(),
            p == (|d: LocalTomlDocument| selects(d, opt_text(slug))),
            forall|j: int| 0 <= j < i ==> !p(#[trigger] docs@[j]),
            slug matches Some(s) ==> view_id@ == "timeline:"@ + s@ && view_path@ == "views/timelines/"@ + s@ + ".toml"@,
        decreases docs@.len() - i,
    {
        let d = &docs[i];
        let is_view = match &d.kind {
            Some(k) => str_eq(k.as_str(), "timeline-view"),
            None => false,
        };
        let named = match slug {
            Some(_) => {
                let by_id = match &d.id {
                    Some(id) => str_eq(id.as_str(), view_id.as_str()),
                    None => false,
                };
                by_id || str_eq(d.path.as_str(), view_path.as_str())
            },
            None => true,
        };
        if is_view && named {
            proof {
                lemma_first_doc(docs@, p, i as int);
                assert(docs@.skip(i as int)[0] == docs@[i as int]);
            }
            return Some(d);
        }
        i = i + 1;
    }
    proof {
        lemma_first_doc(docs@, p, i as int);
    }
    None
}

pub(crate) fn world_id(docs: &Vec<LocalTomlDocument>) -> (w: String)
    ensures
        w@ == world_of(docs@),
{
    let ghost p = |d: LocalTomlDocument| d.path@ == "world.toml"@;
    let mut i: usize = 0;
    while i < docs.len()
        invariant
            i <= docs@.len(),
            p == (|d: LocalTomlDocument| d.path@ == "world.toml"@),
            forall|j: int| 0 <= j < i ==> !p(#[trigger] docs@[j]),
        decreases docs@.len() - i,
    {
        if str_eq(docs[i].path.as_str(), "world.toml") {
            proof {
                lemma_first_doc(docs@, p, i as int);
                assert(docs@.skip(i as int)[0] == docs@[i as int]);
            }
            return match &docs[i].id {
                Some(id) => id.clone(),
                None => "world:default".to_owned(),
            };
        }
        i = i + 1;
    }
    proof {
        lemma_first_doc(docs@, p, i as int);
    }
    "world:default".to_owned()
}

/// The timeline projection of a world's data: the world's id, the view
/// used (the first timeline view, or the one named `view_slug`), the event
/// records it keeps as timeline events in time order (unknown times first,
/// then by id), and the event collections with their members on the
/// timeline, sorted by id.
pub fn timeline_from_local_data_bundle(bundle: &LocalDataBundle, view_slug: Option<&str>) -> (p: LocalTimelineProjection)
    ensures
        p.schema_version == 1,
        p.world@ == world_of(bundle.toml_documents@),
        match selected_view(bundle.toml_documents@, opt_text(view_slug)) {
            Some(v) => p.view matches Some(sm) && sm.id@ == (match opt_string(v.id) {
                Some(i) => i,
                None => v.path@,
            }) && opt_string(sm.title) == opt_string(v.title) && sm.path@ == v.path@,
            None => p.view is None,
        },
        collection_views(p.collections@) == sort_by(
            collections_of(bundle.toml_documents@, record_ids(selected_records(bundle.markdown_records@,
                selected_view(bundle.toml_documents@, opt_text(view_slug)), bundle.toml_documents@))),
            |a: CollectionView, b: CollectionView| collection_before(a, b),
        ),
        p.events@.len() == selected_records(bundle.markdown_records@,
            selected_view(bundle.toml_documents@, opt_text(view_slug)), bundle.toml_documents@).len(),
        forall|i: int| 0 <= i < p.events@.len() ==> is_event_of(
            #[trigger] p.events@[i],
            sort_by(
                selected_records(bundle.markdown_records@, selected_view(bundle.toml_documents@, opt_text(view_slug)), bundle.toml_documents@),
                |a: LocalMarkdownRecord, b: LocalMarkdownRecord| record_before(a, b),
            )[i],
            bundle.markdown_records@,
        ),
{
    let docs = &bundle.toml_documents;
    let recs = &bundle.markdown_records;
    let ghost vdoc = selected_view(docs@, opt_text(view_slug));
    let view = find_view(docs, view_slug);
    let filter = match view {
        Some(v) => timeline_filter(v, docs),
        None => TimelineFilter {
            subject: None,
            event_kinds: Vec::new(),
            related_entities: Vec::new(),
            include_context_events: false,
        },
    };
    let mut events: Vec<LocalTimelineEvent> = Vec::new();
    let mut ids: Vec<String> = Vec::new();
    let ghost mut sel: Seq<LocalMarkdownRecord> = seq![];
    let mut i: usize = 0;
    assert(recs@.take(0) =~= seq![]);
    assert(texts(ids@) =~= seq![]);
    while i < recs.len()
        invariant
            i <= recs@.len(),
            vdoc == selected_view(docs@, opt_text(view_slug)),
            match vdoc {
                Some(v) => filter_matches(filter, v, docs@),
                None => no_filter(filter),
            },
            sel == selected_records(recs@.take(i as int), vdoc, docs@),
            events@.len() == sel.len(),
            forall|j: int| 0 <= j < sel.len() ==> is_event_of(#[trigger] events@[j], sel[j], recs@),
            texts(ids@) == record_ids(sel),
        decreases recs@.len() - i,
    {
        assert(recs@.take(i + 1).drop_last() =~= recs@.take(i as int));
        assert(recs@.take(i + 1).last() == recs@[i as int]);
        let r = &recs[i];
        let is_event = starts_with(r.path.as_str(), "events/") || r.attr("participants").is_some();
        let kept = is_event && keeps(&filter, r);
        proof {
            match vdoc {
                Some(v) => {
                    assert(filter_keeps(filter, *r) == keeps_by(view_subject(v), view_event_kinds(v),
                        view_related(v, docs@), filter_flag(v, "include_context_events"@), *r));
                },
                None => {
                    assert(texts(filter.event_kinds@).len() == 0);
                },
            }
            assert(kept == keeps_record(vdoc, docs@, *r));
        }
        if kept {
            let e = timeline_event(r, recs);
            let ghost old_events = events@;
            events.push(e);
            let ghost before_ids = texts(ids@);
            ids.push(r.id.clone());
            proof {
                assert(texts(ids@) =~= before_ids.push(r.id@));
                let ns = sel.push(*r);
                assert(record_ids(ns) =~= record_ids(sel).push(r.id@));
                assert forall|j: int| 0 <= j < ns.len() implies is_event_of(#[trigger] events@[j], ns[j], recs@) by {
                    if j < sel.len() {
                        assert(events@[j] == old_events[j]);
                    }
                }
                sel = ns;
            }
        }
        i = i + 1;
    }
    assert(recs@.take(i as int) =~= recs@);
    let collections = timeline_collections(docs, &ids);
    let events = sort_events(events, Ghost(sel), Ghost(recs@));
    let summary = match view {
        Some(v) => Some(LocalTimelineViewSummary {
            id: match &v.id {
                Some(id) => id.clone(),
                None => v.path.clone(),
            },
            title: match &v.title {
                Some(t) => Some(t.clone()),
                None => None,
            },
            path: v.path.clone(),
        }),
        None => None,
    };
    LocalTimelineProjection {
        schema_version: LocalTimelineProjection::SCHEMA_VERSION,
        world: world_id(docs),
        view: summary,
        collections,
        events,
    }
}


// ---------------------------------------------------------------------------
// Laws of the projection.

/// No element sorts before an element ahead of it.
pub open spec fn sorted_by<T>(s: Seq<T>, before: spec_fn(T, T) -> bool) -> bool {
    forall|i: int, j: int| 0 <= i < j < s.len() ==> !before(#[trigger] s[j], #[trigger] s[i])
}

/// `before` is a strict order: never both ways, and transitive.
pub open spec fn strict_order<T>(before: spec_fn(T, T) -> bool) -> bool {
    &&& forall|a: T, b: T| #[trigger] before(a, b) ==> !before(b, a)
    &&& forall|a: T, b: T, c: T| #[trigger] before(a, b) && #[trigger] before(b, c) ==> before(a, c)
}

/// Where `insert_sorted_by` puts `x`.
pub open spec fn insert_pos<T>(s: Seq<T>, x: T, before: spec_fn(T, T) -> bool) -> int
    decreases s.len(),
{
    if s.len() == 0 {
        0
    } else if before(x, s[0]) {
        0
    } else {
        1 + insert_pos(s.drop_first(), x, before)
    }
}

pub proof fn lemma_insert_pos<T>(s: Seq<T>, x: T, before: spec_fn(T, T) -> bool)
    ensures
        0 <= insert_pos(s, x, before) <= s.len(),
        forall|j: int| 0 <= j < insert_pos(s, x, before) ==> !before(x, #[trigger] s[j]),
        insert_pos(s, x, before) == s.len() || before(x, s[insert_pos(s, x, before)]),
    decreases s.len(),
{
    if s.len() > 0 && !before(x, s[0]) {
        let t = s.drop_first();
        lemma_insert_pos(t, x, before);
        assert forall|j: int| 0 <= j < insert_pos(s, x, before) implies !before(x, #[trigger] s[j]) by {
            if j > 0 {
                assert(s[j] == t[j - 1]);
            }
        }
        if insert_pos(t, x, before) < t.len() {
            assert(s[insert_pos(s, x, before)] == t[insert_pos(t, x, before)]);
        }
    }
}

pub proof fn lemma_insert_sorted<T>(s: Seq<T>, x: T, before: spec_fn(T, T) -> bool)
    requires
        strict_order(before),
        sorted_by(s, before),
    ensures
        sorted_by(insert_sorted_by(s, x, before), before),
        insert_sorted_by(s, x, before).to_multiset() == s.to_multiset().insert(x),
{
    broadcast use vstd::seq_lib::group_to_multiset_ensures;
    let p = insert_pos(s, x, before);
    lemma_insert_pos(s, x, before);
    lemma_insert_at(s, x, before, p);
    let r = insert_sorted_by(s, x, before);
    assert(r =~= s.insert(p, x));
    assert forall|i: int, j: int| 0 <= i < j < r.len() implies !before(#[trigger] r[j], #[trigger] r[i]) by {
        if j < p {
            assert(r[i] == s[i] && r[j] == s[j]);
        } else if j == p {
            assert(r[j] == x && r[i] == s[i]);
        } else if i == p {
            assert(r[i] == x && r[j] == s[j - 1]);
            if before(s[j - 1], x) {
                if j - 1 == p {
                } else {
                    assert(before(s[j - 1], s[p]));
                    assert(!before(s[j - 1], s[p]));
                }
            }
        } else if i < p {
            assert(r[i] == s[i] && r[j] == s[j - 1]);
        } else {
            assert(r[i] == s[i - 1] && r[j] == s[j - 1]);
        }
    }
}

/// Sorting gives the same elements, each sorting no earlier than the ones
/// before it.
pub proof fn lemma_sort_by<T>(s: Seq<T>, before: spec_fn(T, T) -> bool)
    requires
        strict_order(before),
    ensures
        sorted_by(sort_by(s, before), before),
        sort_by(s, before).to_multiset() == s.to_multiset(),
    decreases s.len(),
{
    broadcast use vstd::seq_lib::group_to_multiset_ensures;
    if s.len() == 0 {
        assert(sort_by(s, before) =~= s);
    } else {
        lemma_sort_by(s.drop_last(), before);
        lemma_insert_sorted(sort_by(s.drop_last(), before), s.last(), before);
        assert(s =~= s.drop_last().push(s.last()));
    }
}

pub proof fn lemma_record_before_strict()
    ensures
        strict_order(|a: LocalMarkdownRecord, b: LocalMarkdownRecord| record_before(a, b)),
{
    let before = |a: LocalMarkdownRecord, b: LocalMarkdownRecord| record_before(a, b);
    assert forall|a: LocalMarkdownRecord, b: LocalMarkdownRecord| #[trigger] before(a, b) implies !before(b, a) by {
        crate::sorted_text::lemma_text_lt_irreflexive(a.id@);
        if let (Some(x), Some(y)) = (record_time(a), record_time(b)) {
            if crate::sorted_text::text_lt(x, y) {
                crate::sorted_text::lemma_text_lt_asymmetric(x, y);
            }
            crate::sorted_text::lemma_text_lt_irreflexive(x);
        }
        if crate::sorted_text::text_lt(a.id@, b.id@) {
            crate::sorted_text::lemma_text_lt_asymmetric(a.id@, b.id@);
        }
    }
    assert forall|a: LocalMarkdownRecord, b: LocalMarkdownRecord, c: LocalMarkdownRecord|
        #[trigger] before(a, b) && #[trigger] before(b, c) implies before(a, c) by {
        let (ta, tb, tc) = (record_time(a), record_time(b), record_time(c));
        if let (Some(x), Some(y), Some(z)) = (ta, tb, tc) {
            if crate::sorted_text::text_lt(x, y) && crate::sorted_text::text_lt(y, z) {
                crate::sorted_text::lemma_text_lt_transitive(x, y, z);
            }
        }
        if ta == tb && tb == tc && crate::sorted_text::text_lt(a.id@, b.id@) && crate::sorted_text::text_lt(b.id@, c.id@) {
            crate::sorted_text::lemma_text_lt_transitive(a.id@, b.id@, c.id@);
        }
    }
}

/// Law: the events of a projection come in time order: an event with no
/// time before those with one, times in text order, equal times by id;
/// and they are exactly the records the view keeps, each once.
pub proof fn law_timeline_events_in_time_order(recs: Seq<LocalMarkdownRecord>, view: Option<LocalTomlDocument>, docs: Seq<LocalTomlDocument>)
    ensures
        ({
            let sorted = sort_by(selected_records(recs, view, docs), |a: LocalMarkdownRecord, b: LocalMarkdownRecord| record_before(a, b));
            &&& forall|i: int, j: int| 0 <= i < j < sorted.len() ==> !record_before(#[trigger] sorted[j], #[trigger] sorted[i])
            &&& sorted.to_multiset() == selected_records(recs, view, docs).to_multiset()
        }),
{
    lemma_record_before_strict();
    lemma_sort_by(selected_records(recs, view, docs), |a: LocalMarkdownRecord, b: LocalMarkdownRecord| record_before(a, b));
}


/// Law: the collections of a projection are sorted by id, no id twice
/// unless two documents share it, and they are exactly the collections of
/// its documents.
pub proof fn law_collections_sorted_by_id(docs: Seq<LocalTomlDocument>, events: Seq<Seq<char>>)
    ensures
        ({
            let sorted = sort_by(collections_of(docs, events), |a: CollectionView, b: CollectionView| collection_before(a, b));
            &&& forall|i: int, j: int| 0 <= i < j < sorted.len() ==> !crate::sorted_text::text_lt(#[trigger] sorted[j].id, #[trigger] sorted[i].id)
            &&& sorted.to_multiset() == collections_of(docs, events).to_multiset()
        }),
{
    let before = |a: CollectionView, b: CollectionView| collection_before(a, b);
    assert forall|a: CollectionView, b: CollectionView| #[trigger] before(a, b) implies !before(b, a) by {
        crate::sorted_text::lemma_text_lt_asymmetric(a.id, b.id);
    }
    assert forall|a: CollectionView, b: CollectionView, c: CollectionView|
        #[trigger] before(a, b) && #[trigger] before(b, c) implies before(a, c) by {
        crate::sorted_text::lemma_text_lt_transitive(a.id, b.id, c.id);
    }
    lemma_sort_by(collections_of(docs, events), before);
}

} // verus!
