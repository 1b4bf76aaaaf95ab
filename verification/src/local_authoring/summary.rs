//! What a world holds, and what in it needs an author's attention.
use vstd::prelude::*;
use crate::local_authoring::data::{
    all_digits, bounded_digits, deref_opt, digits_value, lookup, opt_str, spec_as_array,
    spec_as_i64, spec_as_str, spec_get, str_field, JsonValue, LocalDataBundle,
    LocalMarkdownRecord, LocalTomlDocument,
};
use crate::local_authoring::refs::{normalize_person_id, spec_contextual_id};
use crate::local_authoring::skeleton::{join_words, spec_join_words, spec_words, string_views, words};
use crate::sorted_text::{
    insert_sorted, lemma_sorted_texts, sorted_texts, strictly_sorted, texts,
};
use crate::text::{
    i64_to_decimal, is_ascii_digit, is_blank, is_blank_str, signed_decimal, starts_with, str_eq,
    str_to_lowercase, trim, trim_seq, unicode_lowercase,
};
use crate::timeline_source::has_prefix;

verus! {

broadcast use vstd::seq_lib::group_seq_properties;

/// A world in numbers, with the warnings of its doctor report.
#[derive(Debug, PartialEq, Eq)]
pub struct LocalWorldSummary {
    pub world_id: Option<String>,
    pub world_title: Option<String>,
    pub counts: LocalWorldSummaryCounts,
    pub warnings: Vec<LocalWorldSummaryWarning>,
}

/// The files that a world's records reference, and whether each exists.
#[derive(Debug, PartialEq, Eq)]
pub struct LocalMediaCheckReport {
    pub references: Vec<LocalMediaReferenceCheck>,
}

#[derive(Debug, PartialEq, Eq)]
pub struct LocalMediaReferenceCheck {
    pub path: String,
    pub exists: bool,
    pub referenced_by: Vec<String>,
}

#[derive(Debug, PartialEq, Eq)]
pub struct LocalWorldDoctorReport {
    pub summary: LocalWorldSummary,
    pub diagnostics: Vec<LocalWorldDiagnostic>,
}

#[derive(Debug, PartialEq, Eq)]
pub struct LocalWorldDiagnostic {
    pub severity: LocalWorldDiagnosticSeverity,
    pub kind: LocalWorldDiagnosticKind,
    pub record_id: String,
    pub path: String,
    pub message: String,
}

#[derive(Debug, Clone, Copy, PartialEq, Eq, Structural)]
pub enum LocalWorldDiagnosticSeverity {
    Warning,
}

#[derive(Debug, Clone, Copy, PartialEq, Eq, Structural)]
pub enum LocalWorldDiagnosticKind {
    PersonMissingName,
    PersonMissingBirthEvent,
    EventMissingParticipant,
    EventMissingTime,
    EventMissingSource,
    RelationshipMissingSource,
    ReferencedFileMissing,
    RecordUnexpectedPath,
    PossibleDuplicatePerson,
    SuspiciousParentChildDirection,
}

/// How many records of each kind a world holds. `events_by_type` has one
/// entry per event type, sorted by type name.
#[derive(Debug, PartialEq, Eq)]
pub struct LocalWorldSummaryCounts {
    pub people: usize,
    pub places: usize,
    pub organizations: usize,
    pub objects: usize,
    pub concepts: usize,
    pub events: usize,
    pub events_by_type: Vec<(String, usize)>,
    pub sources: usize,
    pub assertions: usize,
    pub relationships: usize,
    pub collections: usize,
    pub timeline_views: usize,
    pub tree_views: usize,
    pub map_views: usize,
    pub calendar_views: usize,
    pub visualization_views: usize,
}

#[derive(Debug, PartialEq, Eq)]
pub struct LocalWorldSummaryWarning {
    pub kind: LocalWorldSummaryWarningKind,
    pub record_id: String,
    pub path: String,
    pub message: String,
}

#[derive(Debug, Clone, Copy, PartialEq, Eq, Structural)]
pub enum LocalWorldSummaryWarningKind {
    PersonMissingBirthEvent,
    EventMissingTime,
    EventMissingSource,
    RelationshipMissingSource,
    ReferencedFileMissing,
    RecordUnexpectedPath,
    PossibleDuplicatePerson,
    SuspiciousParentChildDirection,
}

/// The warning kind that a diagnostic is summarized under: a missing name
/// counts with a missing birth event, a missing participant with a missing time.
pub open spec fn spec_warning_kind(k: LocalWorldDiagnosticKind) -> LocalWorldSummaryWarningKind {
    match k {
        LocalWorldDiagnosticKind::PersonMissingName => LocalWorldSummaryWarningKind::PersonMissingBirthEvent,
        LocalWorldDiagnosticKind::PersonMissingBirthEvent => LocalWorldSummaryWarningKind::PersonMissingBirthEvent,
        LocalWorldDiagnosticKind::EventMissingParticipant => LocalWorldSummaryWarningKind::EventMissingTime,
        LocalWorldDiagnosticKind::EventMissingTime => LocalWorldSummaryWarningKind::EventMissingTime,
        LocalWorldDiagnosticKind::EventMissingSource => LocalWorldSummaryWarningKind::EventMissingSource,
        LocalWorldDiagnosticKind::RelationshipMissingSource => LocalWorldSummaryWarningKind::RelationshipMissingSource,
        LocalWorldDiagnosticKind::ReferencedFileMissing => LocalWorldSummaryWarningKind::ReferencedFileMissing,
        LocalWorldDiagnosticKind::RecordUnexpectedPath => LocalWorldSummaryWarningKind::RecordUnexpectedPath,
        LocalWorldDiagnosticKind::PossibleDuplicatePerson => LocalWorldSummaryWarningKind::PossibleDuplicatePerson,
        LocalWorldDiagnosticKind::SuspiciousParentChildDirection => LocalWorldSummaryWarningKind::SuspiciousParentChildDirection,
    }
}

impl From<LocalWorldDiagnosticKind> for LocalWorldSummaryWarningKind {
    fn from(value: LocalWorldDiagnosticKind) -> (r: Self) {
        match value {
            LocalWorldDiagnosticKind::PersonMissingName => Self::PersonMissingBirthEvent,
            LocalWorldDiagnosticKind::PersonMissingBirthEvent => Self::PersonMissingBirthEvent,
            LocalWorldDiagnosticKind::EventMissingParticipant => Self::EventMissingTime,
            LocalWorldDiagnosticKind::EventMissingTime => Self::EventMissingTime,
            LocalWorldDiagnosticKind::EventMissingSource => Self::EventMissingSource,
            LocalWorldDiagnosticKind::RelationshipMissingSource => Self::RelationshipMissingSource,
            LocalWorldDiagnosticKind::ReferencedFileMissing => Self::ReferencedFileMissing,
            LocalWorldDiagnosticKind::RecordUnexpectedPath => Self::RecordUnexpectedPath,
            LocalWorldDiagnosticKind::PossibleDuplicatePerson => Self::PossibleDuplicatePerson,
            LocalWorldDiagnosticKind::SuspiciousParentChildDirection => {
                Self::SuspiciousParentChildDirection
            },
        }
    }
}

impl vstd::std_specs::convert::FromSpecImpl<LocalWorldDiagnosticKind> for LocalWorldSummaryWarningKind {
    open spec fn obeys_from_spec() -> bool {
        true
    }

    open spec fn from_spec(v: LocalWorldDiagnosticKind) -> Self {
        spec_warning_kind(v)
    }
}

impl LocalMediaCheckReport {
    pub fn referenced_files(&self) -> (r: usize)
        ensures
            r == self.references@.len(),
    {
        self.references.len()
    }

    pub fn present_files(&self) -> (r: usize)
        ensures
            r == count_present(self.references@, true),
    {
        count_with_exists(&self.references, true)
    }

    pub fn missing_files(&self) -> (r: usize)
        ensures
            r == count_present(self.references@, false),
    {
        count_with_exists(&self.references, false)
    }
}

/// How many references have `exists == flag`.
pub open spec fn count_present(refs: Seq<LocalMediaReferenceCheck>, flag: bool) -> nat
    decreases refs.len(),
{
    if refs.len() == 0 {
        0
    } else {
        count_present(refs.drop_last(), flag) + if refs.last().exists == flag {
            1nat
        } else {
            0nat
        }
    }
}

fn count_with_exists(refs: &Vec<LocalMediaReferenceCheck>, flag: bool) -> (r: usize)
    ensures
        r == count_present(refs@, flag),
{
    let mut c: usize = 0;
    let mut i: usize = 0;
    while i < refs.len()
        invariant
            i <= refs@.len(),
            c == count_present(refs@.take(i as int), flag),
            c <= i,
        decreases refs@.len() - i,
    {
        assert(refs@.take(i + 1).drop_last() =~= refs@.take(i as int));
        if refs[i].exists == flag {
            c = c + 1;
        }
        i = i + 1;
    }
    assert(refs@.take(i as int) =~= refs@);
    c
}

// ---------------------------------------------------------------------------
// Reading records.

pub open spec fn opt_text(o: Option<&str>) -> Option<Seq<char>> {
    match o {
        Some(s) => Some(s@),
        None => None,
    }
}

pub open spec fn opt_string(o: Option<String>) -> Option<Seq<char>> {
    match o {
        Some(s) => Some(s@),
        None => None,
    }
}

/// The attribute `key` of a record, when it is a string.
pub open spec fn attr_text(r: LocalMarkdownRecord, key: Seq<char>) -> Option<Seq<char>> {
    opt_str(lookup(r.attributes@, key))
}

fn attr_str<'a>(r: &'a LocalMarkdownRecord, key: &str) -> (t: Option<&'a str>)
    ensures
        opt_text(t) == attr_text(*r, key@),
{
    match r.attr(key) {
        Some(v) => v.as_str(),
        None => None,
    }
}

fn field_str<'a>(v: &'a JsonValue, key: &str) -> (t: Option<&'a str>)
    ensures
        opt_text(t) == str_field(*v, key@),
{
    match v.get(key) {
        Some(x) => x.as_str(),
        None => None,
    }
}

/// The `type` of an event record.
pub open spec fn spec_event_type(r: LocalMarkdownRecord) -> Option<Seq<char>> {
    attr_text(r, "type"@)
}

/// When an event happened: its `date`, else its `time` attribute.
pub open spec fn spec_event_time(r: LocalMarkdownRecord) -> Option<Seq<char>> {
    match r.date {
        Some(d) => Some(d@),
        None => attr_text(r, "time"@),
    }
}

fn event_time(r: &LocalMarkdownRecord) -> (t: Option<&str>)
    ensures
        opt_text(t) == spec_event_time(*r),
{
    match &r.date {
        Some(d) => Some(d.as_str()),
        None => attr_str(r, "time"),
    }
}

/// The name under `names.<usage>`: its `display`, its `full`, or its given
/// and family names.
pub open spec fn spec_name_table(r: LocalMarkdownRecord, usage: Seq<char>) -> Option<Seq<char>> {
    match lookup(r.attributes@, "names"@) {
        Some(names) => match spec_get(names, usage) {
            Some(t) => match str_field(t, "display"@) {
                Some(d) => Some(d),
                None => match str_field(t, "full"@) {
                    Some(f) => Some(f),
                    None => match (str_field(t, "given"@), str_field(t, "family"@)) {
                        (Some(g), Some(f)) => Some(g + " "@ + f),
                        _ => None,
                    },
                },
            },
            None => None,
        },
        None => None,
    }
}

fn name_table(r: &LocalMarkdownRecord, usage: &str) -> (n: Option<String>)
    ensures
        opt_string(n) == spec_name_table(*r, usage@),
{
    let names = match r.attr("names") {
        Some(v) => v,
        None => return None,
    };
    let t = match names.get(usage) {
        Some(t) => t,
        None => return None,
    };
    if let Some(d) = field_str(t, "display") {
        return Some(d.to_owned());
    }
    if let Some(f) = field_str(t, "full") {
        return Some(f.to_owned());
    }
    match (field_str(t, "given"), field_str(t, "family")) {
        (Some(g), Some(f)) => {
            let mut s = g.to_owned();
            s.append(" ");
            s.append(f);
            Some(s)
        },
        _ => None,
    }
}

/// A record's name: its title, else its preferred name, else its legal name.
pub open spec fn spec_person_name(r: LocalMarkdownRecord) -> Option<Seq<char>> {
    match r.title {
        Some(t) => Some(t@),
        None => match spec_name_table(r, "preferred"@) {
            Some(p) => Some(p),
            None => spec_name_table(r, "legal"@),
        },
    }
}

fn person_name(r: &LocalMarkdownRecord) -> (n: Option<String>)
    ensures
        opt_string(n) == spec_person_name(*r),
{
    match &r.title {
        Some(t) => Some(t.clone()),
        None => match name_table(r, "preferred") {
            Some(p) => Some(p),
            None => name_table(r, "legal"),
        },
    }
}

/// How a record is named in messages: its name, else its id.
pub open spec fn spec_display_name(r: LocalMarkdownRecord) -> Seq<char> {
    match spec_person_name(r) {
        Some(n) => n,
        None => r.id@,
    }
}

fn display_record_name(r: &LocalMarkdownRecord) -> (n: String)
    ensures
        n@ == spec_display_name(*r),
{
    match person_name(r) {
        Some(n) => n,
        None => r.id.clone(),
    }
}

/// The person a participant entry names: a string, or an object's `entity`.
pub open spec fn participant_id(v: JsonValue) -> Option<Seq<char>> {
    match v {
        JsonValue::Str(s) => Some(spec_contextual_id(s@, "person"@)),
        JsonValue::Object(es) => match opt_str(lookup(es@, "entity"@)) {
            Some(e) => Some(spec_contextual_id(e, "person"@)),
            None => None,
        },
        _ => None,
    }
}

pub open spec fn participant_ids(items: Seq<JsonValue>) -> Seq<Seq<char>>
    decreases items.len(),
{
    if items.len() == 0 {
        seq![]
    } else {
        let before = participant_ids(items.drop_last());
        match participant_id(items.last()) {
            Some(p) => before.push(p),
            None => before,
        }
    }
}

/// The people an event is about: its `subject`, else its `participants`.
pub open spec fn spec_participants(r: LocalMarkdownRecord) -> Seq<Seq<char>> {
    match attr_text(r, "subject"@) {
        Some(s) if !is_blank(s) => seq![spec_contextual_id(s, "person"@)],
        _ => match lookup(r.attributes@, "participants"@) {
            Some(JsonValue::Array(items)) => participant_ids(items@),
            _ => seq![],
        },
    }
}

fn event_participants(r: &LocalMarkdownRecord) -> (ps: Vec<String>)
    ensures
        texts(ps@) == spec_participants(*r),
{
    if let Some(s) = attr_str(r, "subject") {
        if !is_blank_str(s) {
            let v = vec![normalize_person_id(s)];
            assert(texts(v@) =~= seq![spec_contextual_id(s@, "person"@)]);
            return v;
        }
    }
    let items = match r.attr("participants") {
        Some(JsonValue::Array(items)) => items,
        _ => {
            let v: Vec<String> = Vec::new();
            assert(texts(v@) =~= seq![]);
            return v;
        },
    };
    let mut out: Vec<String> = Vec::new();
    let mut i: usize = 0;
    while i < items.len()
        invariant
            i <= items@.len(),
            texts(out@) == participant_ids(items@.take(i as int)),
        decreases items@.len() - i,
    {
        assert(items@.take(i + 1).drop_last() =~= items@.take(i as int));
        let ghost before = out@;
        match &items[i] {
            JsonValue::Str(s) => {
                out.push(normalize_person_id(s.as_str()));
            },
            JsonValue::Object(es) => {
                let e = match crate::local_authoring::data::get_entry(es, "entity") {
                    Some(x) => x.as_str(),
                    None => None,
                };
                if let Some(e) = e {
                    out.push(normalize_person_id(e));
                }
            },
            _ => {},
        }
        assert(texts(out@) =~= participant_ids(items@.take(i + 1)));
        i = i + 1;
    }
    assert(items@.take(i as int) =~= items@);
    out
}


// ---------------------------------------------------------------------------
// Sources.

/// An inline source names something: one of its identifying fields is a
/// string that is not blank.
pub open spec fn identity_field(es: Seq<(String, JsonValue)>, key: Seq<char>) -> bool {
    match opt_str(lookup(es, key)) {
        Some(t) => !is_blank(t),
        None => false,
    }
}

pub open spec fn has_identity(es: Seq<(String, JsonValue)>) -> bool {
    ||| identity_field(es, "label"@)
    ||| identity_field(es, "title"@)
    ||| identity_field(es, "file"@)
    ||| identity_field(es, "path"@)
    ||| identity_field(es, "uri"@)
    ||| identity_field(es, "url"@)
    ||| identity_field(es, "hash"@)
    ||| identity_field(es, "sha256"@)
}

fn identity_field_exec(es: &Vec<(String, JsonValue)>, key: &str) -> (r: bool)
    ensures
        r == identity_field(es@, key@),
{
    match crate::local_authoring::data::get_entry(es, key) {
        Some(v) => match v.as_str() {
            Some(t) => !is_blank_str(t),
            None => false,
        },
        None => false,
    }
}

fn has_identity_exec(es: &Vec<(String, JsonValue)>) -> (r: bool)
    ensures
        r == has_identity(es@),
{
    identity_field_exec(es, "label") || identity_field_exec(es, "title") || identity_field_exec(
        es,
        "file",
    ) || identity_field_exec(es, "path") || identity_field_exec(es, "uri")
        || identity_field_exec(es, "url") || identity_field_exec(es, "hash")
        || identity_field_exec(es, "sha256")
}

/// A source reference: a non-blank id, or an inline source that names something.
pub open spec fn is_source_item(x: JsonValue) -> bool {
    match x {
        JsonValue::Str(s) => !is_blank(s@),
        JsonValue::Object(es) => has_identity(es@),
        _ => false,
    }
}

/// A list of sources with at least one source reference in it.
pub open spec fn has_source_item(v: Option<JsonValue>) -> bool {
    match v {
        Some(x) => match spec_as_array(x) {
            Some(items) => some_source_item(items),
            None => false,
        },
        None => false,
    }
}

pub open spec fn some_source_item(items: Seq<JsonValue>) -> bool {
    exists|i: int| 0 <= i < items.len() && is_source_item(#[trigger] items[i])
}

fn has_source_item_exec(v: Option<&JsonValue>) -> (r: bool)
    ensures
        r == has_source_item(deref_opt(v)),
{
    let items = match v {
        Some(JsonValue::Array(items)) => items,
        _ => return false,
    };
    let mut i: usize = 0;
    while i < items.len()
        invariant
            i <= items@.len(),
            deref_opt(v) == Some(JsonValue::Array(*items)),
            forall|j: int| 0 <= j < i ==> !is_source_item(#[trigger] items@[j]),
        decreases items@.len() - i,
    {
        let hit = match &items[i] {
            JsonValue::Str(s) => !is_blank_str(s.as_str()),
            JsonValue::Object(es) => has_identity_exec(es),
            _ => false,
        };
        if hit {
            assert(is_source_item(items@[i as int]));
            assert(some_source_item(items@));
            return true;
        }
        i = i + 1;
    }
    false
}

/// An event cites a source: in its `sources`, or in the `sources` of one of
/// its inline assertions.
pub open spec fn spec_has_event_source(r: LocalMarkdownRecord) -> bool {
    ||| has_source_item(lookup(r.attributes@, "sources"@))
    ||| match lookup(r.attributes@, "assertions"@) {
        Some(JsonValue::Array(items)) => exists|i: int|
            0 <= i < items@.len() && has_source_item(spec_get(#[trigger] items@[i], "sources"@)),
        _ => false,
    }
}

fn has_event_source(r: &LocalMarkdownRecord) -> (b: bool)
    ensures
        b == spec_has_event_source(*r),
{
    if has_source_item_exec(r.attr("sources")) {
        return true;
    }
    let items = match r.attr("assertions") {
        Some(JsonValue::Array(items)) => items,
        _ => return false,
    };
    let mut i: usize = 0;
    while i < items.len()
        invariant
            i <= items@.len(),
            lookup(r.attributes@, "assertions"@) == Some(JsonValue::Array(*items)),
            !has_source_item(lookup(r.attributes@, "sources"@)),
            forall|j: int|
                0 <= j < i ==> !has_source_item(spec_get(#[trigger] items@[j], "sources"@)),
        decreases items@.len() - i,
    {
        if has_source_item_exec(items[i].get("sources")) {
            assert(has_source_item(spec_get(items@[i as int], "sources"@)));
            return true;
        }
        i = i + 1;
    }
    false
}

/// A list of sources with at least one string in it.
pub open spec fn has_source_string(v: Option<JsonValue>) -> bool {
    match v {
        Some(x) => match spec_as_array(x) {
            Some(items) => exists|i: int| 0 <= i < items.len() && (#[trigger] items[i]) is Str,
            None => false,
        },
        None => false,
    }
}

fn has_source_string_exec(v: Option<&JsonValue>) -> (r: bool)
    ensures
        r == has_source_string(deref_opt(v)),
{
    let items = match v {
        Some(JsonValue::Array(items)) => items,
        _ => return false,
    };
    let mut i: usize = 0;
    while i < items.len()
        invariant
            i <= items@.len(),
            deref_opt(v) == Some(JsonValue::Array(*items)),
            forall|j: int| 0 <= j < i ==> !((#[trigger] items@[j]) is Str),
        decreases items@.len() - i,
    {
        if let JsonValue::Str(_) = &items[i] {
            assert(items@[i as int] is Str);
            return true;
        }
        i = i + 1;
    }
    false
}

// ---------------------------------------------------------------------------
// Counts.

pub open spec fn count_kind(rs: Seq<LocalMarkdownRecord>, kind: Seq<char>) -> nat
    decreases rs.len(),
{
    if rs.len() == 0 {
        0
    } else {
        count_kind(rs.drop_last(), kind) + if rs.last().kind@ == kind {
            1nat
        } else {
            0nat
        }
    }
}

pub open spec fn count_prefix(rs: Seq<LocalMarkdownRecord>, prefix: Seq<char>) -> nat
    decreases rs.len(),
{
    if rs.len() == 0 {
        0
    } else {
        count_prefix(rs.drop_last(), prefix) + if has_prefix(rs.last().path@, prefix) {
            1nat
        } else {
            0nat
        }
    }
}

pub open spec fn doc_kind(d: LocalTomlDocument) -> Option<Seq<char>> {
    opt_string(d.kind)
}

pub open spec fn count_doc_kind(ds: Seq<LocalTomlDocument>, kind: Seq<char>) -> nat
    decreases ds.len(),
{
    if ds.len() == 0 {
        0
    } else {
        count_doc_kind(ds.drop_last(), kind) + if doc_kind(ds.last()) == Some(kind) {
            1nat
        } else {
            0nat
        }
    }
}

/// The type an event is counted under (`unknown` when it has none).
pub open spec fn type_key(r: LocalMarkdownRecord) -> Seq<char> {
    match spec_event_type(r) {
        Some(t) => t,
        None => "unknown"@,
    }
}

pub open spec fn is_event(r: LocalMarkdownRecord) -> bool {
    r.kind@ == "event"@
}

/// The event types, in the order in which they first occur.
pub open spec fn event_type_keys(rs: Seq<LocalMarkdownRecord>) -> Seq<Seq<char>>
    decreases rs.len(),
{
    if rs.len() == 0 {
        seq![]
    } else {
        let before = event_type_keys(rs.drop_last());
        if is_event(rs.last()) && !before.contains(type_key(rs.last())) {
            before.push(type_key(rs.last()))
        } else {
            before
        }
    }
}

pub open spec fn count_event_type(rs: Seq<LocalMarkdownRecord>, t: Seq<char>) -> nat
    decreases rs.len(),
{
    if rs.len() == 0 {
        0
    } else {
        count_event_type(rs.drop_last(), t) + if is_event(rs.last()) && type_key(rs.last()) == t {
            1nat
        } else {
            0nat
        }
    }
}

/// The event types, sorted by name.
pub open spec fn sorted_event_types(rs: Seq<LocalMarkdownRecord>) -> Seq<Seq<char>> {
    sorted_texts(event_type_keys(rs).to_set())
}

/// The counts of each type, reordered by type name.
fn sort_type_counts(by_type: &Vec<(String, usize)>, Ghost(rs): Ghost<Seq<LocalMarkdownRecord>>) -> (r: Vec<(String, usize)>)
    requires
        by_type@.len() == event_type_keys(rs).len(),
        forall|j: int| 0 <= j < by_type@.len() ==> (#[trigger] by_type@[j]).0@ == event_type_keys(rs)[j]
            && by_type@[j].1 == count_event_type(rs, event_type_keys(rs)[j]),
    ensures
        r@.len() == sorted_event_types(rs).len(),
        forall|j: int| 0 <= j < r@.len() ==> (#[trigger] r@[j]).0@ == sorted_event_types(rs)[j]
            && r@[j].1 == count_event_type(rs, sorted_event_types(rs)[j]),
{
    let ghost keys = event_type_keys(rs);
    let mut names: Vec<String> = Vec::new();
    let mut i: usize = 0;
    assert(texts(names@) =~= seq![]);
    assert(keys.take(0).to_set() =~= Set::empty());
    while i < by_type.len()
        invariant
            i <= by_type@.len(),
            keys == event_type_keys(rs),
            by_type@.len() == keys.len(),
            forall|j: int| 0 <= j < by_type@.len() ==> (#[trigger] by_type@[j]).0@ == keys[j],
            strictly_sorted(texts(names@)),
            texts(names@).to_set() == keys.take(i as int).to_set(),
        decreases by_type@.len() - i,
    {
        insert_sorted(&mut names, by_type[i].0.clone());
        let ghost ta = keys.take(i + 1);
        let ghost tb = keys.take(i as int);
        assert(ta.to_set() =~= tb.to_set().insert(keys[i as int])) by {
            assert forall|x: Seq<char>| ta.to_set().contains(x) implies tb.to_set().insert(keys[i as int]).contains(x) by {
                let k = choose|k: int| 0 <= k < ta.len() && ta[k] == x;
                if k < i {
                    assert(tb[k] == x);
                }
            }
            assert forall|x: Seq<char>| tb.to_set().insert(keys[i as int]).contains(x) implies ta.to_set().contains(x) by {
                if x == keys[i as int] {
                    assert(ta[i as int] == x);
                } else {
                    let k = choose|k: int| 0 <= k < tb.len() && tb[k] == x;
                    assert(ta[k] == x);
                }
            }
        }
        i = i + 1;
    }
    assert(keys.take(i as int) =~= keys);
    proof {
        lemma_sorted_texts(texts(names@));
    }
    let ghost sorted = texts(names@);
    assert(sorted == sorted_event_types(rs));
    let mut r: Vec<(String, usize)> = Vec::new();
    let mut q: usize = 0;
    while q < names.len()
        invariant
            q <= names@.len(),
            sorted == texts(names@),
            sorted.to_set() == keys.to_set(),
            keys == event_type_keys(rs),
            sorted == sorted_event_types(rs),
            by_type@.len() == keys.len(),
            forall|j: int| 0 <= j < by_type@.len() ==> (#[trigger] by_type@[j]).0@ == keys[j]
                && by_type@[j].1 == count_event_type(rs, keys[j]),
            r@.len() == q,
            forall|j: int| 0 <= j < q ==> (#[trigger] r@[j]).0@ == sorted[j] && r@[j].1 == count_event_type(rs, sorted[j]),
        decreases names@.len() - q,
    {
        let name = names[q].as_str();
        assert(sorted[q as int] == names@[q as int]@);
        assert(keys.to_set().contains(sorted[q as int])) by {
            assert(sorted.to_set().contains(sorted[q as int]));
        }
        let ghost at = choose|k: int| 0 <= k < keys.len() && keys[k] == sorted[q as int];
        let mut j: usize = 0;
        while j < by_type.len() && !str_eq(by_type[j].0.as_str(), name)
            invariant
                j <= by_type@.len(),
                by_type@.len() == keys.len(),
                0 <= at < keys.len(),
                keys[at] == name@,
                forall|m: int| 0 <= m < by_type@.len() ==> (#[trigger] by_type@[m]).0@ == keys[m],
                forall|m: int| 0 <= m < j ==> keys[m] != name@,
            decreases by_type@.len() - j,
        {
            j = j + 1;
        }
        if j >= by_type.len() {
            assert(keys[at] != name@);
        }
        r.push((names[q].clone(), by_type[j].1));
        q = q + 1;
    }
    r
}

proof fn lemma_type_keys_distinct(rs: Seq<LocalMarkdownRecord>)
    ensures
        event_type_keys(rs).no_duplicates(),
    decreases rs.len(),
{
    if rs.len() > 0 {
        lemma_type_keys_distinct(rs.drop_last());
    }
}

proof fn lemma_type_count_zero(rs: Seq<LocalMarkdownRecord>, t: Seq<char>)
    requires
        !event_type_keys(rs).contains(t),
    ensures
        count_event_type(rs, t) == 0,
    decreases rs.len(),
{
    if rs.len() > 0 {
        let before = event_type_keys(rs.drop_last());
        if before.contains(t) {
            let k = choose|k: int| 0 <= k < before.len() && before[k] == t;
            assert(event_type_keys(rs)[k] == t);
        }
        lemma_type_count_zero(rs.drop_last(), t);
        if is_event(rs.last()) && type_key(rs.last()) == t {
            assert(event_type_keys(rs).last() == t);
        }
    }
}

fn kind_is(r: &LocalMarkdownRecord, kind: &str) -> (b: bool)
    ensures
        b == (r.kind@ == kind@),
{
    str_eq(r.kind.as_str(), kind)
}

fn doc_kind_is(d: &LocalTomlDocument, kind: &str) -> (b: bool)
    ensures
        b == (doc_kind(*d) == Some(kind@)),
{
    match &d.kind {
        Some(k) => str_eq(k.as_str(), kind),
        None => false,
    }
}

/// Adds one event of type `t` to the per-type counts.
fn count_type(entries: &mut Vec<(String, usize)>, t: &str, Ghost(rs): Ghost<Seq<LocalMarkdownRecord>>, Ghost(i): Ghost<int>)
    requires
        0 <= i < rs.len(),
        is_event(rs[i]),
        type_key(rs[i]) == t@,
        old(entries)@.len() == event_type_keys(rs.take(i)).len(),
        forall|j: int|
            0 <= j < old(entries)@.len() ==> (#[trigger] old(entries)@[j]).0@ == event_type_keys(
                rs.take(i),
            )[j] && old(entries)@[j].1 == count_event_type(rs.take(i), event_type_keys(rs.take(i))[j])
                && old(entries)@[j].1 <= i,
        i < usize::MAX,
    ensures
        final(entries)@.len() == event_type_keys(rs.take(i + 1)).len(),
        forall|j: int|
            0 <= j < final(entries)@.len() ==> (#[trigger] final(entries)@[j]).0@ == event_type_keys(
                rs.take(i + 1),
            )[j] && final(entries)@[j].1 == count_event_type(
                rs.take(i + 1),
                event_type_keys(rs.take(i + 1))[j],
            ) && final(entries)@[j].1 <= i + 1,
{
    let ghost pre = rs.take(i);
    let ghost post = rs.take(i + 1);
    assert(post.drop_last() =~= pre);
    assert(post.last() == rs[i]);
    let ghost keys = event_type_keys(pre);
    proof {
        lemma_type_keys_distinct(pre);
    }
    let n = entries.len();
    let mut p: usize = 0;
    while p < n
        invariant
            n == entries@.len(),
            p <= n,
            entries@ == old(entries)@,
            forall|j: int| 0 <= j < p ==> (#[trigger] entries@[j]).0@ != t@,
        ensures
            p <= n,
            entries@ == old(entries)@,
            forall|j: int| 0 <= j < p ==> (#[trigger] entries@[j]).0@ != t@,
            p == n || entries@[p as int].0@ == t@,
        decreases n - p,
    {
        if str_eq(entries[p].0.as_str(), t) {
            break;
        }
        p = p + 1;
    }
    if p < n && str_eq(entries[p].0.as_str(), t) {
        let (k, c) = entries.remove(p);
        entries.insert(p, (k, c + 1));
        proof {
            assert(keys[p as int] == t@);
            assert(keys.contains(t@));
            assert(event_type_keys(post) == keys);
            assert forall|j: int| 0 <= j < entries@.len() implies (#[trigger] entries@[j]).0@
                == event_type_keys(post)[j] && entries@[j].1 == count_event_type(
                post,
                event_type_keys(post)[j],
            ) && entries@[j].1 <= i + 1 by {
                if j != p {
                    assert(entries@[j] == old(entries)@[j]);
                    assert(keys[j] != keys[p as int]);
                }
            }
        }
    } else {
        proof {
            assert(!keys.contains(t@)) by {
                if keys.contains(t@) {
                    let k = choose|k: int| 0 <= k < keys.len() && keys[k] == t@;
                    assert(old(entries)@[k].0@ == t@);
                }
            }
            lemma_type_count_zero(pre, t@);
            assert(event_type_keys(post) == keys.push(t@));
        }
        entries.push((t.to_owned(), 1));
        proof {
            assert forall|j: int| 0 <= j < entries@.len() implies (#[trigger] entries@[j]).0@
                == event_type_keys(post)[j] && entries@[j].1 == count_event_type(
                post,
                event_type_keys(post)[j],
            ) && entries@[j].1 <= i + 1 by {
                if j < n {
                    assert(entries@[j] == old(entries)@[j]);
                    assert(keys[j] != t@);
                }
            }
        }
    }
}

/// `c` counts the records and documents of `b`.
pub open spec fn counts_match(b: LocalDataBundle, c: LocalWorldSummaryCounts) -> bool {
    let rs = b.markdown_records@;
    let ds = b.toml_documents@;
    &&& c.people == count_kind(rs, "person"@)
    &&& c.places == count_kind(rs, "place"@) + count_doc_kind(ds, "place"@)
    &&& c.organizations == count_kind(rs, "organization"@)
    &&& c.objects == count_kind(rs, "object"@)
    &&& c.concepts == count_kind(rs, "concept"@)
    &&& c.events == count_kind(rs, "event"@)
    &&& c.events_by_type@.len() == sorted_event_types(rs).len()
    &&& forall|j: int|
        0 <= j < c.events_by_type@.len() ==> (#[trigger] c.events_by_type@[j]).0@ == sorted_event_types(
            rs,
        )[j] && c.events_by_type@[j].1 == count_event_type(rs, sorted_event_types(rs)[j])
    &&& c.sources == count_prefix(rs, "sources/"@) + count_doc_kind(ds, "source"@)
    &&& c.assertions == count_prefix(rs, "assertions/"@) + count_doc_kind(ds, "assertion"@)
    &&& c.relationships == count_doc_kind(ds, "relationship"@)
    &&& c.collections == count_doc_kind(ds, "event-collection"@)
    &&& c.timeline_views == count_doc_kind(ds, "timeline-view"@)
    &&& c.tree_views == count_doc_kind(ds, "tree-view"@)
    &&& c.map_views == count_doc_kind(ds, "map-view"@)
    &&& c.calendar_views == count_doc_kind(ds, "calendar-view"@)
    &&& c.visualization_views == count_doc_kind(ds, "visualization-view"@)
}

/// How many records of each kind a bundle holds.
pub fn summary_counts(bundle: &LocalDataBundle) -> (c: LocalWorldSummaryCounts)
    requires
        bundle.markdown_records@.len() + bundle.toml_documents@.len() <= usize::MAX,
    ensures
        counts_match(*bundle, c),
{
    let rs = &bundle.markdown_records;
    let ds = &bundle.toml_documents;
    let mut people: usize = 0;
    let mut places: usize = 0;
    let mut organizations: usize = 0;
    let mut objects: usize = 0;
    let mut concepts: usize = 0;
    let mut events: usize = 0;
    let mut sources: usize = 0;
    let mut assertions: usize = 0;
    let mut by_type: Vec<(String, usize)> = Vec::new();
    let mut i: usize = 0;
    while i < rs.len()
        invariant
            i <= rs@.len(),
            rs@.len() + ds@.len() <= usize::MAX,
            people == count_kind(rs@.take(i as int), "person"@),
            places == count_kind(rs@.take(i as int), "place"@),
            organizations == count_kind(rs@.take(i as int), "organization"@),
            objects == count_kind(rs@.take(i as int), "object"@),
            concepts == count_kind(rs@.take(i as int), "concept"@),
            events == count_kind(rs@.take(i as int), "event"@),
            sources == count_prefix(rs@.take(i as int), "sources/"@),
            assertions == count_prefix(rs@.take(i as int), "assertions/"@),
            people <= i && places <= i && organizations <= i && objects <= i && concepts <= i
                && events <= i && sources <= i && assertions <= i,
            by_type@.len() == event_type_keys(rs@.take(i as int)).len(),
            forall|j: int|
                0 <= j < by_type@.len() ==> (#[trigger] by_type@[j]).0@ == event_type_keys(
                    rs@.take(i as int),
                )[j] && by_type@[j].1 == count_event_type(
                    rs@.take(i as int),
                    event_type_keys(rs@.take(i as int))[j],
                ) && by_type@[j].1 <= i,
        decreases rs@.len() - i,
    {
        let r = &rs[i];
        let ghost t = rs@.take(i + 1);
        assert(t.drop_last() =~= rs@.take(i as int));
        assert(t.last() == rs@[i as int]);
        if kind_is(r, "person") {
            people = people + 1;
        }
        if kind_is(r, "place") {
            places = places + 1;
        }
        if kind_is(r, "organization") {
            organizations = organizations + 1;
        }
        if kind_is(r, "object") {
            objects = objects + 1;
        }
        if kind_is(r, "concept") {
            concepts = concepts + 1;
        }
        if kind_is(r, "event") {
            events = events + 1;
            let ty = match attr_str(r, "type") {
                Some(x) => x,
                None => "unknown",
            };
            count_type(&mut by_type, ty, Ghost(rs@), Ghost(i as int));
        }
        if starts_with(r.path.as_str(), "sources/") {
            sources = sources + 1;
        }
        if starts_with(r.path.as_str(), "assertions/") {
            assertions = assertions + 1;
        }
        i = i + 1;
    }
    assert(rs@.take(i as int) =~= rs@);
    let mut relationships: usize = 0;
    let mut collections: usize = 0;
    let mut timeline_views: usize = 0;
    let mut tree_views: usize = 0;
    let mut map_views: usize = 0;
    let mut calendar_views: usize = 0;
    let mut visualization_views: usize = 0;
    let mut doc_sources: usize = 0;
    let mut doc_assertions: usize = 0;
    let mut doc_places: usize = 0;
    let mut k: usize = 0;
    while k < ds.len()
        invariant
            k <= ds@.len(),
            relationships == count_doc_kind(ds@.take(k as int), "relationship"@),
            collections == count_doc_kind(ds@.take(k as int), "event-collection"@),
            timeline_views == count_doc_kind(ds@.take(k as int), "timeline-view"@),
            tree_views == count_doc_kind(ds@.take(k as int), "tree-view"@),
            map_views == count_doc_kind(ds@.take(k as int), "map-view"@),
            calendar_views == count_doc_kind(ds@.take(k as int), "calendar-view"@),
            visualization_views == count_doc_kind(ds@.take(k as int), "visualization-view"@),
            doc_sources == count_doc_kind(ds@.take(k as int), "source"@),
            doc_assertions == count_doc_kind(ds@.take(k as int), "assertion"@),
            doc_places == count_doc_kind(ds@.take(k as int), "place"@),
            relationships <= k && collections <= k && timeline_views <= k && tree_views <= k
                && map_views <= k && calendar_views <= k && visualization_views <= k
                && doc_sources <= k && doc_assertions <= k && doc_places <= k,
        decreases ds@.len() - k,
    {
        let d = &ds[k];
        let ghost t = ds@.take(k + 1);
        assert(t.drop_last() =~= ds@.take(k as int));
        assert(t.last() == ds@[k as int]);
        if doc_kind_is(d, "relationship") {
            relationships = relationships + 1;
        }
        if doc_kind_is(d, "event-collection") {
            collections = collections + 1;
        }
        if doc_kind_is(d, "timeline-view") {
            timeline_views = timeline_views + 1;
        }
        if doc_kind_is(d, "tree-view") {
            tree_views = tree_views + 1;
        }
        if doc_kind_is(d, "map-view") {
            map_views = map_views + 1;
        }
        if doc_kind_is(d, "calendar-view") {
            calendar_views = calendar_views + 1;
        }
        if doc_kind_is(d, "visualization-view") {
            visualization_views = visualization_views + 1;
        }
        if doc_kind_is(d, "source") {
            doc_sources = doc_sources + 1;
        }
        if doc_kind_is(d, "assertion") {
            doc_assertions = doc_assertions + 1;
        }
        if doc_kind_is(d, "place") {
            doc_places = doc_places + 1;
        }
        k = k + 1;
    }
    assert(ds@.take(k as int) =~= ds@);
    LocalWorldSummaryCounts {
        people,
        places: places + doc_places,
        organizations,
        objects,
        concepts,
        events,
        events_by_type: sort_type_counts(&by_type, Ghost(rs@)),
        sources: sources + doc_sources,
        assertions: assertions + doc_assertions,
        relationships,
        collections,
        timeline_views,
        tree_views,
        map_views,
        calendar_views,
        visualization_views,
    }
}


// ---------------------------------------------------------------------------
// Diagnostics.

/// A diagnostic as plain values: its kind, record id, path and message.
pub type DiagView = (LocalWorldDiagnosticKind, Seq<char>, Seq<char>, Seq<char>);

pub open spec fn dview(d: LocalWorldDiagnostic) -> DiagView {
    (d.kind, d.record_id@, d.path@, d.message@)
}

pub open spec fn dviews(ds: Seq<LocalWorldDiagnostic>) -> Seq<DiagView> {
    ds.map_values(|d: LocalWorldDiagnostic| dview(d))
}

fn push_diag(
    out: &mut Vec<LocalWorldDiagnostic>,
    kind: LocalWorldDiagnosticKind,
    record_id: String,
    path: String,
    message: String,
)
    ensures
        dviews(final(out)@) == dviews(old(out)@).push((kind, record_id@, path@, message@)),
{
    let ghost before = out@;
    out.push(
        LocalWorldDiagnostic {
            severity: LocalWorldDiagnosticSeverity::Warning,
            kind,
            record_id,
            path,
            message,
        },
    );
    assert(dviews(out@) =~= dviews(before).push((kind, record_id@, path@, message@)));
}

fn cat2(a: &str, b: &str) -> (r: String)
    ensures
        r@ == a@ + b@,
{
    let mut r = a.to_owned();
    r.append(b);
    r
}

fn cat5(a: &str, b: &str, c: &str, d: &str, e: &str) -> (r: String)
    ensures
        r@ == a@ + b@ + c@ + d@ + e@,
{
    let mut r = a.to_owned();
    r.append(b);
    r.append(c);
    r.append(d);
    r.append(e);
    r
}

/// Where records of a kind belong.
pub open spec fn record_prefix(r: LocalMarkdownRecord) -> Option<Seq<char>> {
    if r.kind@ == "person"@ {
        Some("entities/people/"@)
    } else if r.kind@ == "place"@ {
        Some("entities/places/"@)
    } else if r.kind@ == "organization"@ {
        Some("entities/organizations/"@)
    } else if r.kind@ == "object"@ {
        Some("entities/objects/"@)
    } else if r.kind@ == "concept"@ {
        Some("entities/concepts/"@)
    } else if r.kind@ == "event"@ {
        Some("events/"@)
    } else if has_prefix(r.path@, "sources/"@) {
        Some("sources/"@)
    } else if has_prefix(r.path@, "assertions/"@) {
        Some("assertions/"@)
    } else {
        None
    }
}

fn record_prefix_exec(r: &LocalMarkdownRecord) -> (p: Option<&'static str>)
    ensures
        opt_text(p) == record_prefix(*r),
{
    if kind_is(r, "person") {
        Some("entities/people/")
    } else if kind_is(r, "place") {
        Some("entities/places/")
    } else if kind_is(r, "organization") {
        Some("entities/organizations/")
    } else if kind_is(r, "object") {
        Some("entities/objects/")
    } else if kind_is(r, "concept") {
        Some("entities/concepts/")
    } else if kind_is(r, "event") {
        Some("events/")
    } else if starts_with(r.path.as_str(), "sources/") {
        Some("sources/")
    } else if starts_with(r.path.as_str(), "assertions/") {
        Some("assertions/")
    } else {
        None
    }
}

/// Where documents of a kind belong.
pub open spec fn doc_prefix(kind: Seq<char>) -> Option<Seq<char>> {
    if kind == "relationship"@ {
        Some("relationships/"@)
    } else if kind == "event-collection"@ {
        Some("collections/"@)
    } else if kind == "timeline-view"@ {
        Some("views/timelines/"@)
    } else if kind == "tree-view"@ {
        Some("views/trees/"@)
    } else if kind == "map-view"@ {
        Some("views/maps/"@)
    } else if kind == "calendar-view"@ {
        Some("views/calendars/"@)
    } else if kind == "visualization-view"@ {
        Some("views/visualizations/"@)
    } else if kind == "source"@ {
        Some("sources/"@)
    } else if kind == "assertion"@ {
        Some("assertions/"@)
    } else if kind == "place"@ {
        Some("entities/places/"@)
    } else {
        None
    }
}

fn doc_prefix_exec(kind: &str) -> (p: Option<&'static str>)
    ensures
        opt_text(p) == doc_prefix(kind@),
{
    if str_eq(kind, "relationship") {
        Some("relationships/")
    } else if str_eq(kind, "event-collection") {
        Some("collections/")
    } else if str_eq(kind, "timeline-view") {
        Some("views/timelines/")
    } else if str_eq(kind, "tree-view") {
        Some("views/trees/")
    } else if str_eq(kind, "map-view") {
        Some("views/maps/")
    } else if str_eq(kind, "calendar-view") {
        Some("views/calendars/")
    } else if str_eq(kind, "visualization-view") {
        Some("views/visualizations/")
    } else if str_eq(kind, "source") {
        Some("sources/")
    } else if str_eq(kind, "assertion") {
        Some("assertions/")
    } else if str_eq(kind, "place") {
        Some("entities/places/")
    } else {
        None
    }
}

pub open spec fn path_diag(id: Seq<char>, path: Seq<char>, kind: Seq<char>, prefix: Seq<char>) -> DiagView {
    (
        LocalWorldDiagnosticKind::RecordUnexpectedPath,
        id,
        path,
        id + " has kind `"@ + kind + "` but is outside `"@ + prefix + "`"@,
    )
}

/// A record outside the directory its kind belongs in.
pub open spec fn record_path_diag(r: LocalMarkdownRecord) -> Seq<DiagView> {
    match record_prefix(r) {
        Some(p) => if !has_prefix(r.path@, p) {
            seq![path_diag(r.id@, r.path@, r.kind@, p)]
        } else {
            seq![]
        },
        None => seq![],
    }
}

pub open spec fn record_path_diags(rs: Seq<LocalMarkdownRecord>) -> Seq<DiagView>
    decreases rs.len(),
{
    if rs.len() == 0 {
        seq![]
    } else {
        record_path_diags(rs.drop_last()) + record_path_diag(rs.last())
    }
}

/// The id a document is reported under: its id, else its path.
pub open spec fn doc_record_id(d: LocalTomlDocument) -> Seq<char> {
    match d.id {
        Some(i) => i@,
        None => d.path@,
    }
}

fn doc_record_id_exec(d: &LocalTomlDocument) -> (r: &str)
    ensures
        r@ == doc_record_id(*d),
{
    match &d.id {
        Some(i) => i.as_str(),
        None => d.path.as_str(),
    }
}

pub open spec fn doc_path_diag(d: LocalTomlDocument) -> Seq<DiagView> {
    match doc_kind(d) {
        Some(k) => match doc_prefix(k) {
            Some(p) => if !has_prefix(d.path@, p) {
                seq![path_diag(doc_record_id(d), d.path@, k, p)]
            } else {
                seq![]
            },
            None => seq![],
        },
        None => seq![],
    }
}

pub open spec fn doc_path_diags(ds: Seq<LocalTomlDocument>) -> Seq<DiagView>
    decreases ds.len(),
{
    if ds.len() == 0 {
        seq![]
    } else {
        doc_path_diags(ds.drop_last()) + doc_path_diag(ds.last())
    }
}

fn add_unexpected_path_diagnostics(bundle: &LocalDataBundle, out: &mut Vec<LocalWorldDiagnostic>)
    ensures
        dviews(final(out)@) == dviews(old(out)@) + record_path_diags(bundle.markdown_records@)
            + doc_path_diags(bundle.toml_documents@),
{
    let rs = &bundle.markdown_records;
    let mut i: usize = 0;
    while i < rs.len()
        invariant
            i <= rs@.len(),
            dviews(out@) == dviews(old(out)@) + record_path_diags(rs@.take(i as int)),
        decreases rs@.len() - i,
    {
        let r = &rs[i];
        let ghost t = rs@.take(i + 1);
        assert(t.drop_last() =~= rs@.take(i as int));
        let ghost before = dviews(out@);
        if let Some(p) = record_prefix_exec(r) {
            if !starts_with(r.path.as_str(), p) {
                let message = cat5(r.id.as_str(), " has kind `", r.kind.as_str(), "` but is outside `", p);
                let message = cat2(message.as_str(), "`");
                push_diag(
                    out,
                    LocalWorldDiagnosticKind::RecordUnexpectedPath,
                    r.id.clone(),
                    r.path.clone(),
                    message,
                );
            }
        }
        assert(dviews(out@) =~= dviews(old(out)@) + record_path_diags(t));
        i = i + 1;
    }
    assert(rs@.take(i as int) =~= rs@);
    let ghost mid = dviews(out@);
    let ds = &bundle.toml_documents;
    let mut k: usize = 0;
    while k < ds.len()
        invariant
            k <= ds@.len(),
            dviews(out@) == mid + doc_path_diags(ds@.take(k as int)),
        decreases ds@.len() - k,
    {
        let d = &ds[k];
        let ghost t = ds@.take(k + 1);
        assert(t.drop_last() =~= ds@.take(k as int));
        if let Some(kind) = &d.kind {
            if let Some(p) = doc_prefix_exec(kind.as_str()) {
                if !starts_with(d.path.as_str(), p) {
                    let id = doc_record_id_exec(d);
                    let message = cat5(id, " has kind `", kind.as_str(), "` but is outside `", p);
                    let message = cat2(message.as_str(), "`");
                    push_diag(
                        out,
                        LocalWorldDiagnosticKind::RecordUnexpectedPath,
                        id.to_owned(),
                        d.path.clone(),
                        message,
                    );
                }
            }
        }
        assert(dviews(out@) =~= mid + doc_path_diags(t));
        k = k + 1;
    }
    assert(ds@.take(k as int) =~= ds@);
}

/// A birth event.
pub open spec fn is_birth_event(r: LocalMarkdownRecord) -> bool {
    is_event(r) && spec_event_type(r) == Some("birth"@)
}

/// Everyone some birth event is about.
pub open spec fn birth_ids(rs: Seq<LocalMarkdownRecord>) -> Seq<Seq<char>>
    decreases rs.len(),
{
    if rs.len() == 0 {
        seq![]
    } else {
        birth_ids(rs.drop_last()) + if is_birth_event(rs.last()) {
            spec_participants(rs.last())
        } else {
            seq![]
        }
    }
}

fn is_birth_event_exec(r: &LocalMarkdownRecord) -> (b: bool)
    ensures
        b == is_birth_event(*r),
{
    kind_is(r, "event") && match attr_str(r, "type") {
        Some(t) => str_eq(t, "birth"),
        None => false,
    }
}

fn birth_ids_exec(rs: &Vec<LocalMarkdownRecord>) -> (ids: Vec<String>)
    ensures
        texts(ids@) == birth_ids(rs@),
{
    let mut ids: Vec<String> = Vec::new();
    let mut i: usize = 0;
    while i < rs.len()
        invariant
            i <= rs@.len(),
            texts(ids@) == birth_ids(rs@.take(i as int)),
        decreases rs@.len() - i,
    {
        let ghost t = rs@.take(i + 1);
        assert(t.drop_last() =~= rs@.take(i as int));
        if is_birth_event_exec(&rs[i]) {
            let mut ps = event_participants(&rs[i]);
            let ghost before = ids@;
            let ghost added = ps@;
            ids.append(&mut ps);
            assert(texts(ids@) =~= texts(before) + texts(added));
        } else {
            assert(texts(ids@) =~= birth_ids(t));
        }
        i = i + 1;
    }
    assert(rs@.take(i as int) =~= rs@);
    ids
}

pub(crate) fn contains_text(v: &Vec<String>, s: &str) -> (b: bool)
    ensures
        b == texts(v@).contains(s@),
{
    let mut i: usize = 0;
    while i < v.len()
        invariant
            i <= v@.len(),
            forall|j: int| 0 <= j < i ==> (#[trigger] v@[j])@ != s@,
        decreases v@.len() - i,
    {
        if str_eq(v[i].as_str(), s) {
            assert(texts(v@)[i as int] == s@);
            return true;
        }
        i = i + 1;
    }
    assert(!texts(v@).contains(s@)) by {
        if texts(v@).contains(s@) {
            let k = choose|k: int| 0 <= k < texts(v@).len() && texts(v@)[k] == s@;
            assert(v@[k]@ == s@);
        }
    }
    false
}

/// What a person record lacks: a name, a birth event.
pub open spec fn person_diags(r: LocalMarkdownRecord, births: Seq<Seq<char>>) -> Seq<DiagView> {
    (if spec_person_name(r) is None {
        seq![
            (
                LocalWorldDiagnosticKind::PersonMissingName,
                r.id@,
                r.path@,
                r.id@ + " does not have a primary name or title"@,
            ),
        ]
    } else {
        seq![]
    }) + (if !births.contains(r.id@) {
        seq![
            (
                LocalWorldDiagnosticKind::PersonMissingBirthEvent,
                r.id@,
                r.path@,
                spec_display_name(r) + " does not have a birth event"@,
            ),
        ]
    } else {
        seq![]
    })
}

pub open spec fn people_diags(rs: Seq<LocalMarkdownRecord>, births: Seq<Seq<char>>) -> Seq<DiagView>
    decreases rs.len(),
{
    if rs.len() == 0 {
        seq![]
    } else {
        people_diags(rs.drop_last(), births) + if rs.last().kind@ == "person"@ {
            person_diags(rs.last(), births)
        } else {
            seq![]
        }
    }
}

fn add_person_diagnostics(rs: &Vec<LocalMarkdownRecord>, births: &Vec<String>, out: &mut Vec<LocalWorldDiagnostic>)
    ensures
        dviews(final(out)@) == dviews(old(out)@) + people_diags(rs@, texts(births@)),
{
    let mut i: usize = 0;
    while i < rs.len()
        invariant
            i <= rs@.len(),
            dviews(out@) == dviews(old(out)@) + people_diags(rs@.take(i as int), texts(births@)),
        decreases rs@.len() - i,
    {
        let r = &rs[i];
        let ghost t = rs@.take(i + 1);
        assert(t.drop_last() =~= rs@.take(i as int));
        let ghost before = dviews(out@);
        if kind_is(r, "person") {
            if person_name(r).is_none() {
                push_diag(
                    out,
                    LocalWorldDiagnosticKind::PersonMissingName,
                    r.id.clone(),
                    r.path.clone(),
                    cat2(r.id.as_str(), " does not have a primary name or title"),
                );
            }
            let ghost mid = dviews(out@);
            if !contains_text(births, r.id.as_str()) {
                let name = display_record_name(r);
                push_diag(
                    out,
                    LocalWorldDiagnosticKind::PersonMissingBirthEvent,
                    r.id.clone(),
                    r.path.clone(),
                    cat2(name.as_str(), " does not have a birth event"),
                );
            }
            assert(dviews(out@) =~= before + person_diags(*r, texts(births@)));
        }
        assert(dviews(out@) =~= dviews(old(out)@) + people_diags(t, texts(births@)));
        i = i + 1;
    }
    assert(rs@.take(i as int) =~= rs@);
}

/// What an event record lacks: participants, a time, a source.
pub open spec fn event_diags(r: LocalMarkdownRecord) -> Seq<DiagView> {
    (if spec_participants(r).len() == 0 {
        seq![
            (
                LocalWorldDiagnosticKind::EventMissingParticipant,
                r.id@,
                r.path@,
                spec_display_name(r) + " has no participants"@,
            ),
        ]
    } else {
        seq![]
    }) + (if spec_event_time(r) is None {
        seq![
            (
                LocalWorldDiagnosticKind::EventMissingTime,
                r.id@,
                r.path@,
                spec_display_name(r) + " has no time/date"@,
            ),
        ]
    } else {
        seq![]
    }) + (if !spec_has_event_source(r) {
        seq![
            (
                LocalWorldDiagnosticKind::EventMissingSource,
                r.id@,
                r.path@,
                spec_display_name(r) + " does not reference a source"@,
            ),
        ]
    } else {
        seq![]
    })
}

pub open spec fn events_diags(rs: Seq<LocalMarkdownRecord>) -> Seq<DiagView>
    decreases rs.len(),
{
    if rs.len() == 0 {
        seq![]
    } else {
        events_diags(rs.drop_last()) + if is_event(rs.last()) {
            event_diags(rs.last())
        } else {
            seq![]
        }
    }
}

fn add_event_diagnostics(rs: &Vec<LocalMarkdownRecord>, out: &mut Vec<LocalWorldDiagnostic>)
    ensures
        dviews(final(out)@) == dviews(old(out)@) + events_diags(rs@),
{
    let mut i: usize = 0;
    while i < rs.len()
        invariant
            i <= rs@.len(),
            dviews(out@) == dviews(old(out)@) + events_diags(rs@.take(i as int)),
        decreases rs@.len() - i,
    {
        let r = &rs[i];
        let ghost t = rs@.take(i + 1);
        assert(t.drop_last() =~= rs@.take(i as int));
        let ghost before = dviews(out@);
        if kind_is(r, "event") {
            let name = display_record_name(r);
            if event_participants(r).len() == 0 {
                push_diag(
                    out,
                    LocalWorldDiagnosticKind::EventMissingParticipant,
                    r.id.clone(),
                    r.path.clone(),
                    cat2(name.as_str(), " has no participants"),
                );
            }
            if event_time(r).is_none() {
                push_diag(
                    out,
                    LocalWorldDiagnosticKind::EventMissingTime,
                    r.id.clone(),
                    r.path.clone(),
                    cat2(name.as_str(), " has no time/date"),
                );
            }
            if !has_event_source(r) {
                push_diag(
                    out,
                    LocalWorldDiagnosticKind::EventMissingSource,
                    r.id.clone(),
                    r.path.clone(),
                    cat2(name.as_str(), " does not reference a source"),
                );
            }
            assert(dviews(out@) =~= before + event_diags(*r));
        }
        assert(dviews(out@) =~= dviews(old(out)@) + events_diags(t));
        i = i + 1;
    }
    assert(rs@.take(i as int) =~= rs@);
}

/// How a document is named in messages: its title, else its id, else its path.
pub open spec fn doc_label(d: LocalTomlDocument) -> Seq<char> {
    match d.title {
        Some(t) => t@,
        None => doc_record_id(d),
    }
}

pub open spec fn relationship_diag(d: LocalTomlDocument) -> Seq<DiagView> {
    if doc_kind(d) == Some("relationship"@) && !has_source_string(spec_get(d.data, "sources"@)) {
        seq![
            (
                LocalWorldDiagnosticKind::RelationshipMissingSource,
                doc_record_id(d),
                d.path@,
                doc_label(d) + " does not reference a source"@,
            ),
        ]
    } else {
        seq![]
    }
}

pub open spec fn relationships_diags(ds: Seq<LocalTomlDocument>) -> Seq<DiagView>
    decreases ds.len(),
{
    if ds.len() == 0 {
        seq![]
    } else {
        relationships_diags(ds.drop_last()) + relationship_diag(ds.last())
    }
}

fn add_relationship_diagnostics(ds: &Vec<LocalTomlDocument>, out: &mut Vec<LocalWorldDiagnostic>)
    ensures
        dviews(final(out)@) == dviews(old(out)@) + relationships_diags(ds@),
{
    let mut k: usize = 0;
    while k < ds.len()
        invariant
            k <= ds@.len(),
            dviews(out@) == dviews(old(out)@) + relationships_diags(ds@.take(k as int)),
        decreases ds@.len() - k,
    {
        let d = &ds[k];
        let ghost t = ds@.take(k + 1);
        assert(t.drop_last() =~= ds@.take(k as int));
        if doc_kind_is(d, "relationship") && !has_source_string_exec(d.data.get("sources")) {
            let label = match &d.title {
                Some(t) => t.as_str(),
                None => doc_record_id_exec(d),
            };
            push_diag(
                out,
                LocalWorldDiagnosticKind::RelationshipMissingSource,
                doc_record_id_exec(d).to_owned(),
                d.path.clone(),
                cat2(label, " does not reference a source"),
            );
        }
        assert(dviews(out@) =~= dviews(old(out)@) + relationships_diags(t));
        k = k + 1;
    }
    assert(ds@.take(k as int) =~= ds@);
}

/// A referenced file that does not exist.
pub open spec fn missing_file_diags(refs: Seq<LocalMediaReferenceCheck>) -> Seq<DiagView>
    decreases refs.len(),
{
    if refs.len() == 0 {
        seq![]
    } else {
        missing_file_diags(refs.drop_last()) + if !refs.last().exists {
            seq![
                (
                    LocalWorldDiagnosticKind::ReferencedFileMissing,
                    refs.last().path@,
                    refs.last().path@,
                    "referenced file `"@ + refs.last().path@ + "` does not exist"@,
                ),
            ]
        } else {
            seq![]
        }
    }
}

fn add_missing_file_diagnostics(refs: &Vec<LocalMediaReferenceCheck>, out: &mut Vec<LocalWorldDiagnostic>)
    ensures
        dviews(final(out)@) == dviews(old(out)@) + missing_file_diags(refs@),
{
    let mut k: usize = 0;
    while k < refs.len()
        invariant
            k <= refs@.len(),
            dviews(out@) == dviews(old(out)@) + missing_file_diags(refs@.take(k as int)),
        decreases refs@.len() - k,
    {
        let ghost t = refs@.take(k + 1);
        assert(t.drop_last() =~= refs@.take(k as int));
        if !refs[k].exists {
            let path = refs[k].path.as_str();
            let message = cat2("referenced file `", path);
            push_diag(
                out,
                LocalWorldDiagnosticKind::ReferencedFileMissing,
                path.to_owned(),
                path.to_owned(),
                cat2(message.as_str(), "` does not exist"),
            );
        }
        assert(dviews(out@) =~= dviews(old(out)@) + missing_file_diags(t));
        k = k + 1;
    }
    assert(refs@.take(k as int) =~= refs@);
}

// ---------------------------------------------------------------------------
// People who may be recorded twice.

/// The name that people are compared by: its words, single-spaced, in
/// lower case.
pub open spec fn name_key(name: Seq<char>) -> Seq<char> {
    unicode_lowercase(spec_join_words(spec_words(name)))
}

/// A person record's comparison name, when it has a non-empty one.
pub open spec fn person_key(r: LocalMarkdownRecord) -> Option<Seq<char>> {
    if r.kind@ == "person"@ {
        match spec_person_name(r) {
            Some(n) => if name_key(n).len() > 0 {
                Some(name_key(n))
            } else {
                None
            },
            None => None,
        }
    } else {
        None
    }
}

fn person_key_exec(r: &LocalMarkdownRecord) -> (k: Option<String>)
    ensures
        opt_string(k) == person_key(*r),
{
    if !kind_is(r, "person") {
        return None;
    }
    match person_name(r) {
        None => None,
        Some(n) => {
            let w = words(n.as_str());
            let joined = join_words(&w, w.len());
            assert(string_views(w@).take(w@.len() as int) =~= string_views(w@));
            let k = str_to_lowercase(joined.as_str());
            if k.unicode_len() > 0 {
                Some(k)
            } else {
                None
            }
        },
    }
}

/// All comparison names.
pub open spec fn key_set(rs: Seq<LocalMarkdownRecord>) -> Set<Seq<char>>
    decreases rs.len(),
{
    if rs.len() == 0 {
        Set::empty()
    } else {
        let s = key_set(rs.drop_last());
        match person_key(rs.last()) {
            Some(k) => s.insert(k),
            None => s,
        }
    }
}

/// The people with comparison name `key`, in order.
pub open spec fn people_named(rs: Seq<LocalMarkdownRecord>, key: Seq<char>) -> Seq<LocalMarkdownRecord>
    decreases rs.len(),
{
    if rs.len() == 0 {
        seq![]
    } else {
        people_named(rs.drop_last(), key) + if person_key(rs.last()) == Some(key) {
            seq![rs.last()]
        } else {
            seq![]
        }
    }
}

/// The ids of a group, joined by `, `.
pub open spec fn join_ids(group: Seq<LocalMarkdownRecord>) -> Seq<char>
    decreases group.len(),
{
    if group.len() == 0 {
        seq![]
    } else if group.len() == 1 {
        group[0].id@
    } else {
        join_ids(group.drop_last()) + ", "@ + group.last().id@
    }
}

pub open spec fn member_diags(group: Seq<LocalMarkdownRecord>, members: Seq<LocalMarkdownRecord>) -> Seq<DiagView>
    decreases members.len(),
{
    if members.len() == 0 {
        seq![]
    } else {
        member_diags(group, members.drop_last()).push(
            (
                LocalWorldDiagnosticKind::PossibleDuplicatePerson,
                members.last().id@,
                members.last().path@,
                members.last().id@ + " may duplicate another person with the same name: "@
                    + join_ids(group),
            ),
        )
    }
}

/// One diagnostic for each member of a group of two or more.
pub open spec fn group_diags(group: Seq<LocalMarkdownRecord>) -> Seq<DiagView> {
    if group.len() > 1 {
        member_diags(group, group)
    } else {
        seq![]
    }
}

pub open spec fn dup_diags(rs: Seq<LocalMarkdownRecord>, keys: Seq<Seq<char>>) -> Seq<DiagView>
    decreases keys.len(),
{
    if keys.len() == 0 {
        seq![]
    } else {
        dup_diags(rs, keys.drop_last()) + group_diags(people_named(rs, keys.last()))
    }
}

/// People who share a comparison name, by name in sorted order.
pub open spec fn duplicate_diags(rs: Seq<LocalMarkdownRecord>) -> Seq<DiagView> {
    dup_diags(rs, sorted_texts(key_set(rs)))
}

fn key_matches(k: &Option<String>, key: &str) -> (b: bool)
    ensures
        b == (opt_string(*k) == Some(key@)),
{
    match k {
        Some(x) => str_eq(x.as_str(), key),
        None => false,
    }
}

/// How many people have the comparison name `key`, and their ids joined.
fn group_summary(rs: &Vec<LocalMarkdownRecord>, rkeys: &Vec<Option<String>>, key: &str) -> (r: (usize, String))
    requires
        rkeys@.len() == rs@.len(),
        forall|j: int| 0 <= j < rs@.len() ==> opt_string(#[trigger] rkeys@[j]) == person_key(rs@[j]),
    ensures
        r.0 == people_named(rs@, key@).len(),
        r.1@ == join_ids(people_named(rs@, key@)),
{
    let n = rs.len();
    let mut count: usize = 0;
    let mut joined = String::new();
    let mut j: usize = 0;
    while j < n
        invariant
            n == rs@.len(),
            rkeys@.len() == n,
            forall|x: int| 0 <= x < n ==> opt_string(#[trigger] rkeys@[x]) == person_key(rs@[x]),
            j <= n,
            count == people_named(rs@.take(j as int), key@).len(),
            count <= j,
            joined@ == join_ids(people_named(rs@.take(j as int), key@)),
        decreases n - j,
    {
        let ghost t = rs@.take(j + 1);
        assert(t.drop_last() =~= rs@.take(j as int));
        if key_matches(&rkeys[j], key) {
            let ghost g = people_named(rs@.take(j as int), key@);
            assert(people_named(t, key@) == g.push(rs@[j as int]));
            assert(g.push(rs@[j as int]).drop_last() =~= g);
            if count == 0 {
                joined = rs[j].id.clone();
            } else {
                joined.append(", ");
                joined.append(rs[j].id.as_str());
            }
            count = count + 1;
        } else {
            assert(people_named(t, key@) =~= people_named(rs@.take(j as int), key@));
        }
        j = j + 1;
    }
    assert(rs@.take(n as int) =~= rs@);
    (count, joined)
}

/// One diagnostic for each person with the comparison name `key`.
fn add_member_diagnostics(
    rs: &Vec<LocalMarkdownRecord>,
    rkeys: &Vec<Option<String>>,
    key: &str,
    joined: &String,
    out: &mut Vec<LocalWorldDiagnostic>,
)
    requires
        rkeys@.len() == rs@.len(),
        forall|j: int| 0 <= j < rs@.len() ==> opt_string(#[trigger] rkeys@[j]) == person_key(rs@[j]),
        joined@ == join_ids(people_named(rs@, key@)),
    ensures
        dviews(final(out)@) == dviews(old(out)@) + member_diags(people_named(rs@, key@), people_named(rs@, key@)),
{
    let n = rs.len();
    let ghost group = people_named(rs@, key@);
    let ghost before = dviews(out@);
    let mut j: usize = 0;
    assert(dviews(out@) =~= before + member_diags(group, people_named(rs@.take(0), key@)));
    while j < n
        invariant
            n == rs@.len(),
            rkeys@.len() == n,
            forall|x: int| 0 <= x < n ==> opt_string(#[trigger] rkeys@[x]) == person_key(rs@[x]),
            j <= n,
            group == people_named(rs@, key@),
            joined@ == join_ids(group),
            dviews(out@) == before + member_diags(group, people_named(rs@.take(j as int), key@)),
        decreases n - j,
    {
        let ghost t = rs@.take(j + 1);
        assert(t.drop_last() =~= rs@.take(j as int));
        let ghost g = people_named(rs@.take(j as int), key@);
        if key_matches(&rkeys[j], key) {
            assert(people_named(t, key@) == g.push(rs@[j as int]));
            assert(g.push(rs@[j as int]).drop_last() =~= g);
            let r = &rs[j];
            let message = cat2(r.id.as_str(), " may duplicate another person with the same name: ");
            push_diag(
                out,
                LocalWorldDiagnosticKind::PossibleDuplicatePerson,
                r.id.clone(),
                r.path.clone(),
                cat2(message.as_str(), joined.as_str()),
            );
            assert(dviews(out@) =~= before + member_diags(group, people_named(t, key@)));
        } else {
            assert(people_named(t, key@) =~= g);
        }
        j = j + 1;
    }
    assert(rs@.take(n as int) =~= rs@);
}

/// The diagnostics of the people whose comparison name is `key`.
fn add_group_diagnostics(
    rs: &Vec<LocalMarkdownRecord>,
    rkeys: &Vec<Option<String>>,
    key: &str,
    out: &mut Vec<LocalWorldDiagnostic>,
)
    requires
        rkeys@.len() == rs@.len(),
        forall|j: int| 0 <= j < rs@.len() ==> opt_string(#[trigger] rkeys@[j]) == person_key(rs@[j]),
    ensures
        dviews(final(out)@) == dviews(old(out)@) + group_diags(people_named(rs@, key@)),
{
    let (count, joined) = group_summary(rs, rkeys, key);
    if count > 1 {
        add_member_diagnostics(rs, rkeys, key, &joined, out);
    } else {
        assert(dviews(out@) =~= dviews(old(out)@) + group_diags(people_named(rs@, key@)));
    }
}

fn add_duplicate_person_diagnostics(rs: &Vec<LocalMarkdownRecord>, out: &mut Vec<LocalWorldDiagnostic>)
    ensures
        dviews(final(out)@) == dviews(old(out)@) + duplicate_diags(rs@),
{
    let n = rs.len();
    let mut rkeys: Vec<Option<String>> = Vec::new();
    let mut keys: Vec<String> = Vec::new();
    let mut i: usize = 0;
    while i < n
        invariant
            n == rs@.len(),
            i <= n,
            rkeys@.len() == i,
            forall|j: int| 0 <= j < i ==> opt_string(#[trigger] rkeys@[j]) == person_key(rs@[j]),
            strictly_sorted(texts(keys@)),
            texts(keys@).to_set() == key_set(rs@.take(i as int)),
        decreases n - i,
    {
        let ghost t = rs@.take(i + 1);
        assert(t.drop_last() =~= rs@.take(i as int));
        let k = person_key_exec(&rs[i]);
        if let Some(x) = &k {
            insert_sorted(&mut keys, x.clone());
        }
        rkeys.push(k);
        i = i + 1;
    }
    assert(rs@.take(n as int) =~= rs@);
    proof {
        lemma_sorted_texts(texts(keys@));
    }
    let ghost all = texts(keys@);
    let mut q: usize = 0;
    while q < keys.len()
        invariant
            n == rs@.len(),
            rkeys@.len() == n,
            forall|j: int| 0 <= j < n ==> opt_string(#[trigger] rkeys@[j]) == person_key(rs@[j]),
            all == texts(keys@),
            q <= keys@.len(),
            dviews(out@) == dviews(old(out)@) + dup_diags(rs@, all.take(q as int)),
        decreases keys@.len() - q,
    {
        let key = keys[q].as_str();
        add_group_diagnostics(rs, &rkeys, key, out);
        assert(all.take(q + 1).drop_last() =~= all.take(q as int));
        assert(all.take(q + 1).last() == key@);
        assert(dviews(out@) =~= dviews(old(out)@) + dup_diags(rs@, all.take(q + 1)));
        q = q + 1;
    }
    assert(all.take(q as int) =~= all);
}

// ---------------------------------------------------------------------------
// Parents born too late.

/// The digits at the start of a text.
pub open spec fn digit_prefix(s: Seq<char>) -> Seq<char>
    decreases s.len(),
{
    if s.len() > 0 && is_ascii_digit(s[0]) {
        seq![s[0]] + digit_prefix(s.drop_first())
    } else {
        seq![]
    }
}

/// The year a date starts with: its leading digits, when there are some and
/// they fit in `i32`.
pub open spec fn leading_year(s: Seq<char>) -> Option<int> {
    let d = digit_prefix(trim_seq(s));
    if d.len() > 0 && digits_value(d) <= i32::MAX {
        Some(digits_value(d))
    } else {
        None
    }
}

proof fn lemma_digit_prefix(s: Seq<char>, k: int)
    requires
        0 <= k <= s.len(),
        forall|j: int| 0 <= j < k ==> is_ascii_digit(#[trigger] s[j]),
        k == s.len() || !is_ascii_digit(s[k]),
    ensures
        digit_prefix(s) == s.take(k),
    decreases k,
{
    if k > 0 {
        lemma_digit_prefix(s.drop_first(), k - 1);
        assert(s.take(k) =~= seq![s[0]] + s.drop_first().take(k - 1));
    } else {
        assert(s.take(0) =~= seq![]);
    }
}

pub open spec fn opt_int(o: Option<i32>) -> Option<int> {
    match o {
        Some(y) => Some(y as int),
        None => None,
    }
}

fn extract_leading_year(value: &str) -> (y: Option<i32>)
    ensures
        opt_int(y) == leading_year(value@),
{
    let t = trim(value);
    let n = t.unicode_len();
    let mut k: usize = 0;
    while k < n
        invariant
            n == t@.len(),
            k <= n,
            forall|j: int| 0 <= j < k ==> is_ascii_digit(#[trigger] t@[j]),
        ensures
            k <= n,
            forall|j: int| 0 <= j < k ==> is_ascii_digit(#[trigger] t@[j]),
            k == n || !is_ascii_digit(t@[k as int]),
        decreases n - k,
    {
        let c = t.get_char(k);
        if !('0' <= c && c <= '9') {
            break;
        }
        k = k + 1;
    }
    proof {
        lemma_digit_prefix(t@, k as int);
    }
    if k == 0 {
        return None;
    }
    let d = t.as_str().substring_char(0, k);
    assert(d@ =~= t@.take(k as int));
    assert(d@.skip(0) =~= d@);
    match bounded_digits(d, 0, 2147483647u64) {
        Some(v) => Some(v as i32),
        None => None,
    }
}

/// The birth year a person record gives: from `birth_date`, else `birth_year`.
pub open spec fn person_year(r: LocalMarkdownRecord) -> Option<int> {
    match (match attr_text(r, "birth_date"@) {
        Some(d) => leading_year(d),
        None => None,
    }) {
        Some(y) => Some(y),
        None => match lookup(r.attributes@, "birth_year"@) {
            Some(v) => match spec_as_i64(v) {
                Some(n) => if i32::MIN <= n <= i32::MAX {
                    Some(n)
                } else {
                    None
                },
                None => None,
            },
            None => None,
        },
    }
}

fn person_year_exec(r: &LocalMarkdownRecord) -> (y: Option<i32>)
    ensures
        opt_int(y) == person_year(*r),
{
    if let Some(d) = attr_str(r, "birth_date") {
        if let Some(y) = extract_leading_year(d) {
            return Some(y);
        }
    }
    match r.attr("birth_year") {
        Some(v) => match v.as_i64() {
            Some(n) => if -2147483648i64 <= n && n <= 2147483647i64 {
                Some(n as i32)
            } else {
                None
            },
            None => None,
        },
        None => None,
    }
}

/// The year of the last person record with id `id` that gives one.
pub open spec fn person_year_of(rs: Seq<LocalMarkdownRecord>, id: Seq<char>) -> Option<int>
    decreases rs.len(),
{
    if rs.len() == 0 {
        None
    } else if rs.last().kind@ == "person"@ && rs.last().id@ == id && person_year(rs.last()) is Some {
        person_year(rs.last())
    } else {
        person_year_of(rs.drop_last(), id)
    }
}

/// The year of a birth event: the year its time starts with.
pub open spec fn event_year(r: LocalMarkdownRecord) -> Option<int> {
    match spec_event_time(r) {
        Some(t) => leading_year(t),
        None => None,
    }
}

/// The year of the first birth event with a year that is about `id`.
pub open spec fn event_year_of(rs: Seq<LocalMarkdownRecord>, id: Seq<char>) -> Option<int>
    decreases rs.len(),
{
    if rs.len() == 0 {
        None
    } else {
        match event_year_of(rs.drop_last(), id) {
            Some(y) => Some(y),
            None => if is_birth_event(rs.last()) && event_year(rs.last()) is Some && spec_participants(
                rs.last(),
            ).contains(id) {
                event_year(rs.last())
            } else {
                None
            },
        }
    }
}

/// A person's birth year: from their record, else from a birth event.
pub open spec fn birth_year_of(rs: Seq<LocalMarkdownRecord>, id: Seq<char>) -> Option<int> {
    match person_year_of(rs, id) {
        Some(y) => Some(y),
        None => event_year_of(rs, id),
    }
}

fn birth_year_lookup(rs: &Vec<LocalMarkdownRecord>, id: &str) -> (y: Option<i32>)
    ensures
        opt_int(y) == birth_year_of(rs@, id@),
{
    let n = rs.len();
    let mut i: usize = n;
    assert(rs@.take(n as int) =~= rs@);
    while i > 0
        invariant
            n == rs@.len(),
            i <= n,
            person_year_of(rs@, id@) == person_year_of(rs@.take(i as int), id@),
        decreases i,
    {
        let r = &rs[i - 1];
        let ghost t = rs@.take(i as int);
        assert(t.drop_last() =~= rs@.take(i - 1));
        assert(t.last() == rs@[i - 1]);
        if kind_is(r, "person") && str_eq(r.id.as_str(), id) {
            if let Some(y) = person_year_exec(r) {
                return Some(y);
            }
        }
        i = i - 1;
    }
    assert(rs@.take(0) =~= seq![]);
    let mut i: usize = 0;
    while i < n
        invariant
            n == rs@.len(),
            i <= n,
            person_year_of(rs@, id@) is None,
            event_year_of(rs@.take(i as int), id@) is None,
        decreases n - i,
    {
        let r = &rs[i];
        let ghost t = rs@.take(i + 1);
        assert(t.drop_last() =~= rs@.take(i as int));
        assert(t.last() == rs@[i as int]);
        if is_birth_event_exec(r) {
            if let Some(time) = event_time(r) {
                if let Some(y) = extract_leading_year(time) {
                    let ps = event_participants(r);
                    if contains_text(&ps, id) {
                        assert(rs@.take(n as int) =~= rs@);
                        proof {
                            lemma_event_year_prefix(rs@, i + 1, id@);
                        }
                        return Some(y);
                    }
                }
            }
        }
        i = i + 1;
    }
    assert(rs@.take(n as int) =~= rs@);
    None
}

/// Once found in a prefix, a birth event's year stays.
proof fn lemma_event_year_prefix(rs: Seq<LocalMarkdownRecord>, k: int, id: Seq<char>)
    requires
        0 <= k <= rs.len(),
        event_year_of(rs.take(k), id) is Some,
    ensures
        event_year_of(rs, id) == event_year_of(rs.take(k), id),
    decreases rs.len() - k,
{
    if k < rs.len() {
        assert(rs.take(k + 1).drop_last() =~= rs.take(k));
        lemma_event_year_prefix(rs, k + 1, id);
    } else {
        assert(rs.take(k) =~= rs);
    }
}

/// A relationship document's kind: `relationship`, else `relationship_kind`,
/// else `relation`.
pub open spec fn rel_kind(d: LocalTomlDocument) -> Option<Seq<char>> {
    match str_field(d.data, "relationship"@) {
        Some(k) => Some(k),
        None => match str_field(d.data, "relationship_kind"@) {
            Some(k) => Some(k),
            None => str_field(d.data, "relation"@),
        },
    }
}

pub open spec fn is_parent_child_kind(k: Seq<char>) -> bool {
    ||| k == "biological-parent-child"@
    ||| k == "adoptive-parent-child"@
    ||| k == "foster-parent-child"@
    ||| k == "step-parent-child"@
    ||| k == "guardian-child"@
}

/// The least number of years between a parent's birth and a child's.
pub const MIN_PARENT_CHILD_AGE_GAP_YEARS: i64 = 12;

/// A parent-child relationship whose child was born fewer than twelve years
/// after the parent.
pub open spec fn direction_diag(rs: Seq<LocalMarkdownRecord>, d: LocalTomlDocument) -> Seq<DiagView> {
    if doc_kind(d) == Some("relationship"@) {
        match rel_kind(d) {
            Some(k) => if is_parent_child_kind(k) {
                match (str_field(d.data, "source"@), str_field(d.data, "target"@)) {
                    (Some(s), Some(t)) => {
                        let src = spec_contextual_id(s, "person"@);
                        let tgt = spec_contextual_id(t, "person"@);
                        match (birth_year_of(rs, src), birth_year_of(rs, tgt)) {
                            (Some(py), Some(cy)) => if cy - py < MIN_PARENT_CHILD_AGE_GAP_YEARS {
                                seq![
                                    (
                                        LocalWorldDiagnosticKind::SuspiciousParentChildDirection,
                                        doc_record_id(d),
                                        d.path@,
                                        doc_record_id(d)
                                            + " has parent-child timing that looks suspicious: source `"@
                                            + src + "` was born in "@ + signed_decimal(py)
                                            + ", target `"@ + tgt + "` was born in "@
                                            + signed_decimal(cy),
                                    ),
                                ]
                            } else {
                                seq![]
                            },
                            _ => seq![],
                        }
                    },
                    _ => seq![],
                }
            } else {
                seq![]
            },
            None => seq![],
        }
    } else {
        seq![]
    }
}

pub open spec fn direction_diags(rs: Seq<LocalMarkdownRecord>, ds: Seq<LocalTomlDocument>) -> Seq<DiagView>
    decreases ds.len(),
{
    if ds.len() == 0 {
        seq![]
    } else {
        direction_diags(rs, ds.drop_last()) + direction_diag(rs, ds.last())
    }
}

fn rel_kind_exec(d: &LocalTomlDocument) -> (k: Option<&str>)
    ensures
        opt_text(k) == rel_kind(*d),
{
    match field_str(&d.data, "relationship") {
        Some(k) => Some(k),
        None => match field_str(&d.data, "relationship_kind") {
            Some(k) => Some(k),
            None => field_str(&d.data, "relation"),
        },
    }
}

fn is_parent_child_kind_exec(k: &str) -> (b: bool)
    ensures
        b == is_parent_child_kind(k@),
{
    str_eq(k, "biological-parent-child") || str_eq(k, "adoptive-parent-child") || str_eq(
        k,
        "foster-parent-child",
    ) || str_eq(k, "step-parent-child") || str_eq(k, "guardian-child")
}

fn add_parent_child_direction_diagnostics(bundle: &LocalDataBundle, out: &mut Vec<LocalWorldDiagnostic>)
    ensures
        dviews(final(out)@) == dviews(old(out)@) + direction_diags(
            bundle.markdown_records@,
            bundle.toml_documents@,
        ),
{
    let rs = &bundle.markdown_records;
    let ds = &bundle.toml_documents;
    let mut k: usize = 0;
    while k < ds.len()
        invariant
            k <= ds@.len(),
            dviews(out@) == dviews(old(out)@) + direction_diags(rs@, ds@.take(k as int)),
        decreases ds@.len() - k,
    {
        let d = &ds[k];
        let ghost t = ds@.take(k + 1);
        assert(t.drop_last() =~= ds@.take(k as int));
        let ghost before = dviews(out@);
        if doc_kind_is(d, "relationship") {
            if let Some(kind) = rel_kind_exec(d) {
                if is_parent_child_kind_exec(kind) {
                    if let (Some(s), Some(tg)) = (field_str(&d.data, "source"), field_str(&d.data, "target")) {
                        let src = normalize_person_id(s);
                        let tgt = normalize_person_id(tg);
                        if let (Some(py), Some(cy)) = (
                            birth_year_lookup(rs, src.as_str()),
                            birth_year_lookup(rs, tgt.as_str()),
                        ) {
                            if (cy as i64) - (py as i64) < MIN_PARENT_CHILD_AGE_GAP_YEARS {
                                let id = doc_record_id_exec(d);
                                let m = cat5(
                                    id,
                                    " has parent-child timing that looks suspicious: source `",
                                    src.as_str(),
                                    "` was born in ",
                                    i64_to_decimal(py as i64).as_str(),
                                );
                                let m = cat5(
                                    m.as_str(),
                                    ", target `",
                                    tgt.as_str(),
                                    "` was born in ",
                                    i64_to_decimal(cy as i64).as_str(),
                                );
                                push_diag(
                                    out,
                                    LocalWorldDiagnosticKind::SuspiciousParentChildDirection,
                                    id.to_owned(),
                                    d.path.clone(),
                                    m,
                                );
                            }
                        }
                    }
                }
            }
        }
        assert(dviews(out@) =~= dviews(old(out)@) + direction_diags(rs@, t));
        k = k + 1;
    }
    assert(ds@.take(k as int) =~= ds@);
}

// ---------------------------------------------------------------------------
// Files that records reference.

/// Whether a text holds `://`.
pub open spec fn has_scheme_separator(t: Seq<char>) -> bool {
    exists|i: int| 0 <= i && i + 2 < t.len() && #[trigger] t[i] == ':' && t[i + 1] == '/' && t[i + 2] == '/'
}

/// A file reference that is checked on disk: a non-empty relative local
/// path, not a link, an anchor or a path into another world.
pub open spec fn should_check(path: Seq<char>) -> bool {
    let t = trim_seq(path);
    &&& t.len() > 0
    &&& !has_scheme_separator(t)
    &&& t[0] != '/'
    &&& t[0] != '#'
    &&& !has_prefix(t, "worlds/"@)
}

fn should_check_exec(path: &str) -> (r: Option<String>)
    ensures
        match r {
            Some(t) => should_check(path@) && t@ == trim_seq(path@),
            None => !should_check(path@),
        },
{
    let t = trim(path);
    let n = t.unicode_len();
    if n == 0 {
        return None;
    }
    let mut i: usize = 0;
    while n >= 3 && i < n - 2
        invariant
            n == t@.len(),
            t@ == trim_seq(path@),
            forall|j: int|
                0 <= j < i ==> !(#[trigger] t@[j] == ':' && t@[j + 1] == '/' && t@[j + 2] == '/'),
        decreases n - i,
    {
        if t.get_char(i) == ':' && t.get_char(i + 1) == '/' && t.get_char(i + 2) == '/' {
            assert(t@[i as int] == ':' && t@[i + 1] == '/' && t@[i + 2] == '/');
            assert(has_scheme_separator(t@));
            return None;
        }
        i = i + 1;
    }
    assert(!has_scheme_separator(t@)) by {
        if has_scheme_separator(t@) {
            let j = choose|j: int|
                0 <= j && j + 2 < t@.len() && #[trigger] t@[j] == ':' && t@[j + 1] == '/' && t@[j + 2]
                    == '/';
            assert(j < i || n < 3);
        }
    }
    let c = t.get_char(0);
    if c == '/' || c == '#' || starts_with(t.as_str(), "worlds/") {
        return None;
    }
    Some(t)
}

pub open spec fn opt_set(o: Option<Seq<char>>) -> Set<Seq<char>> {
    match o {
        Some(p) => set![p],
        None => Set::empty(),
    }
}

/// The file an object itself references: its `file`, else its `path`.
pub open spec fn object_ref(es: Seq<(String, JsonValue)>) -> Option<Seq<char>> {
    let f = match lookup(es, "file"@) {
        Some(v) => spec_as_str(v),
        None => match lookup(es, "path"@) {
            Some(v) => spec_as_str(v),
            None => None,
        },
    };
    match f {
        Some(p) => if should_check(p) {
            Some(trim_seq(p))
        } else {
            None
        },
        None => None,
    }
}

/// The files referenced anywhere in a value.
pub open spec fn value_refs(v: JsonValue) -> Set<Seq<char>>
    decreases v,
{
    match v {
        JsonValue::Array(items) => items_refs(items@),
        JsonValue::Object(es) => opt_set(object_ref(es@)) + entries_refs(es@),
        _ => Set::empty(),
    }
}

pub open spec fn items_refs(items: Seq<JsonValue>) -> Set<Seq<char>>
    decreases items,
{
    if items.len() == 0 {
        Set::empty()
    } else {
        items_refs(items.drop_last()) + value_refs(items.last())
    }
}

pub open spec fn entries_refs(es: Seq<(String, JsonValue)>) -> Set<Seq<char>>
    decreases es,
{
    if es.len() == 0 {
        Set::empty()
    } else {
        entries_refs(es.drop_last()) + value_refs(es.last().1)
    }
}

fn object_ref_exec(es: &Vec<(String, JsonValue)>) -> (r: Option<String>)
    ensures
        opt_string(r) == object_ref(es@),
{
    let f = match crate::local_authoring::data::get_entry(es, "file") {
        Some(v) => v.as_str(),
        None => match crate::local_authoring::data::get_entry(es, "path") {
            Some(v) => v.as_str(),
            None => None,
        },
    };
    match f {
        Some(p) => should_check_exec(p),
        None => None,
    }
}

fn insert_opt(acc: &mut Vec<String>, o: Option<String>)
    requires
        strictly_sorted(texts(old(acc)@)),
    ensures
        strictly_sorted(texts(final(acc)@)),
        texts(final(acc)@).to_set() == texts(old(acc)@).to_set() + opt_set(opt_string(o)),
{
    match o {
        Some(p) => {
            insert_sorted(acc, p);
        },
        None => {},
    }
    assert(texts(acc@).to_set() =~= texts(old(acc)@).to_set() + opt_set(opt_string(o)));
}

fn collect_entries_refs(es: &Vec<(String, JsonValue)>, acc: &mut Vec<String>)
    requires
        strictly_sorted(texts(old(acc)@)),
    ensures
        strictly_sorted(texts(final(acc)@)),
        texts(final(acc)@).to_set() == texts(old(acc)@).to_set() + value_refs(JsonValue::Object(*es)),
    decreases *es, 1nat,
{
    insert_opt(acc, object_ref_exec(es));
    let ghost start = texts(acc@).to_set();
    let mut i: usize = 0;
    while i < es.len()
        invariant
            i <= es@.len(),
            strictly_sorted(texts(acc@)),
            texts(acc@).to_set() == start + entries_refs(es@.take(i as int)),
        decreases es@.len() - i,
    {
        assert(es@.take(i + 1).drop_last() =~= es@.take(i as int));
        proof {
            assert(decreases_to!(*es => es@));
            assert(decreases_to!(es@ => es@[i as int]));
            assert(decreases_to!(es@[i as int] => es@[i as int].1));
            assert(decreases_to!(*es => es@[i as int].1));
        }
        collect_value_refs(&es[i].1, acc);
        i = i + 1;
    }
    assert(es@.take(i as int) =~= es@);
    assert(texts(acc@).to_set() =~= texts(old(acc)@).to_set() + value_refs(JsonValue::Object(*es)));
}

fn collect_value_refs(v: &JsonValue, acc: &mut Vec<String>)
    requires
        strictly_sorted(texts(old(acc)@)),
    ensures
        strictly_sorted(texts(final(acc)@)),
        texts(final(acc)@).to_set() == texts(old(acc)@).to_set() + value_refs(*v),
    decreases *v, 0nat,
{
    match v {
        JsonValue::Array(items) => {
            let mut i: usize = 0;
            while i < items.len()
                invariant
                    i <= items@.len(),
                    *v == JsonValue::Array(*items),
                    strictly_sorted(texts(acc@)),
                    texts(acc@).to_set() == texts(old(acc)@).to_set() + items_refs(
                        items@.take(i as int),
                    ),
                decreases items@.len() - i,
            {
                assert(items@.take(i + 1).drop_last() =~= items@.take(i as int));
                proof {
                    assert(decreases_to!(*v => v->Array_0));
                    assert(v->Array_0 == *items);
                    assert(decreases_to!(*items => items@));
                    assert(decreases_to!(items@ => items@[i as int]));
                    assert(decreases_to!(*v => items@[i as int]));
                }
                collect_value_refs(&items[i], acc);
                assert(texts(acc@).to_set() =~= texts(old(acc)@).to_set() + items_refs(
                    items@.take(i + 1),
                ));
                i = i + 1;
            }
            assert(items@.take(i as int) =~= items@);
        },
        JsonValue::Object(es) => {
            collect_entries_refs(es, acc);
        },
        _ => {
            assert(texts(acc@).to_set() =~= texts(old(acc)@).to_set() + value_refs(*v));
        },
    }
}

/// The files a record references: every file named in its attributes.
pub open spec fn record_refs(r: LocalMarkdownRecord) -> Set<Seq<char>> {
    value_refs(JsonValue::Object(r.attributes))
}

/// The files a document references: every file named in its data.
pub open spec fn doc_refs(d: LocalTomlDocument) -> Set<Seq<char>> {
    value_refs(d.data)
}

fn record_refs_exec(r: &LocalMarkdownRecord) -> (v: Vec<String>)
    ensures
        strictly_sorted(texts(v@)),
        texts(v@).to_set() == record_refs(*r),
{
    let mut acc: Vec<String> = Vec::new();
    assert(texts(acc@).to_set() =~= Set::empty());
    collect_entries_refs(&r.attributes, &mut acc);
    assert(texts(acc@).to_set() =~= record_refs(*r));
    acc
}

fn doc_refs_exec(d: &LocalTomlDocument) -> (v: Vec<String>)
    ensures
        strictly_sorted(texts(v@)),
        texts(v@).to_set() == doc_refs(*d),
{
    let mut acc: Vec<String> = Vec::new();
    assert(texts(acc@).to_set() =~= Set::empty());
    collect_value_refs(&d.data, &mut acc);
    assert(texts(acc@).to_set() =~= doc_refs(*d));
    acc
}

pub open spec fn records_refs(rs: Seq<LocalMarkdownRecord>) -> Set<Seq<char>>
    decreases rs.len(),
{
    if rs.len() == 0 {
        Set::empty()
    } else {
        records_refs(rs.drop_last()) + record_refs(rs.last())
    }
}

pub open spec fn docs_refs(ds: Seq<LocalTomlDocument>) -> Set<Seq<char>>
    decreases ds.len(),
{
    if ds.len() == 0 {
        Set::empty()
    } else {
        docs_refs(ds.drop_last()) + doc_refs(ds.last())
    }
}

/// Every file referenced in a bundle.
pub open spec fn all_refs(rs: Seq<LocalMarkdownRecord>, ds: Seq<LocalTomlDocument>) -> Set<Seq<char>> {
    records_refs(rs) + docs_refs(ds)
}

pub open spec fn record_referrers(rs: Seq<LocalMarkdownRecord>, p: Seq<char>) -> Set<Seq<char>>
    decreases rs.len(),
{
    if rs.len() == 0 {
        Set::empty()
    } else {
        record_referrers(rs.drop_last(), p) + if record_refs(rs.last()).contains(p) {
            set![rs.last().path@]
        } else {
            Set::empty()
        }
    }
}

pub open spec fn doc_referrers(ds: Seq<LocalTomlDocument>, p: Seq<char>) -> Set<Seq<char>>
    decreases ds.len(),
{
    if ds.len() == 0 {
        Set::empty()
    } else {
        doc_referrers(ds.drop_last(), p) + if doc_refs(ds.last()).contains(p) {
            set![ds.last().path@]
        } else {
            Set::empty()
        }
    }
}

/// The paths of the records and documents that reference file `p`.
pub open spec fn referrers(rs: Seq<LocalMarkdownRecord>, ds: Seq<LocalTomlDocument>, p: Seq<char>) -> Set<Seq<char>> {
    record_referrers(rs, p) + doc_referrers(ds, p)
}

/// The referenced paths of a list of references.
pub open spec fn ref_paths(v: Seq<(String, Vec<String>)>) -> Seq<Seq<char>> {
    v.map_values(|e: (String, Vec<String>)| e.0@)
}

fn add_all_sorted(acc: &mut Vec<String>, items: &Vec<String>)
    requires
        strictly_sorted(texts(old(acc)@)),
    ensures
        strictly_sorted(texts(final(acc)@)),
        texts(final(acc)@).to_set() == texts(old(acc)@).to_set() + texts(items@).to_set(),
{
    let mut m: usize = 0;
    while m < items.len()
        invariant
            m <= items@.len(),
            strictly_sorted(texts(acc@)),
            texts(acc@).to_set() == texts(old(acc)@).to_set() + texts(items@.take(m as int)).to_set(),
        decreases items@.len() - m,
    {
        insert_sorted(acc, items[m].clone());
        assert(texts(items@.take(m + 1)) =~= texts(items@.take(m as int)).push(items@[m as int]@));
        assert(texts(acc@).to_set() =~= texts(old(acc)@).to_set() + texts(items@.take(m + 1)).to_set());
        m = m + 1;
    }
    assert(items@.take(m as int) =~= items@);
}

/// Every file the bundle references, in sorted order, each with the sorted
/// paths of the records and documents that reference it.
pub fn file_references(bundle: &LocalDataBundle) -> (refs: Vec<(String, Vec<String>)>)
    ensures
        ref_paths(refs@) == sorted_texts(all_refs(bundle.markdown_records@, bundle.toml_documents@)),
        forall|q: int|
            0 <= q < refs@.len() ==> texts((#[trigger] refs@[q]).1@) == sorted_texts(
                referrers(bundle.markdown_records@, bundle.toml_documents@, refs@[q].0@),
            ),
{
    let rs = &bundle.markdown_records;
    let ds = &bundle.toml_documents;
    let mut per_record: Vec<Vec<String>> = Vec::new();
    let mut keys: Vec<String> = Vec::new();
    let mut i: usize = 0;
    while i < rs.len()
        invariant
            i <= rs@.len(),
            per_record@.len() == i,
            forall|j: int| 0 <= j < i ==> texts((#[trigger] per_record@[j])@).to_set() == record_refs(rs@[j]),
            strictly_sorted(texts(keys@)),
            texts(keys@).to_set() == records_refs(rs@.take(i as int)),
        decreases rs@.len() - i,
    {
        assert(rs@.take(i + 1).drop_last() =~= rs@.take(i as int));
        let v = record_refs_exec(&rs[i]);
        add_all_sorted(&mut keys, &v);
        per_record.push(v);
        i = i + 1;
    }
    assert(rs@.take(i as int) =~= rs@);
    let ghost after_records = texts(keys@).to_set();
    let mut per_doc: Vec<Vec<String>> = Vec::new();
    let mut k: usize = 0;
    while k < ds.len()
        invariant
            k <= ds@.len(),
            per_doc@.len() == k,
            forall|j: int| 0 <= j < k ==> texts((#[trigger] per_doc@[j])@).to_set() == doc_refs(ds@[j]),
            strictly_sorted(texts(keys@)),
            texts(keys@).to_set() == after_records + docs_refs(ds@.take(k as int)),
        decreases ds@.len() - k,
    {
        assert(ds@.take(k + 1).drop_last() =~= ds@.take(k as int));
        let v = doc_refs_exec(&ds[k]);
        add_all_sorted(&mut keys, &v);
        per_doc.push(v);
        k = k + 1;
    }
    assert(ds@.take(k as int) =~= ds@);
    proof {
        lemma_sorted_texts(texts(keys@));
    }
    let mut out: Vec<(String, Vec<String>)> = Vec::new();
    let mut q: usize = 0;
    while q < keys.len()
        invariant
            q <= keys@.len(),
            per_record@.len() == rs@.len(),
            per_doc@.len() == ds@.len(),
            forall|j: int| 0 <= j < rs@.len() ==> texts((#[trigger] per_record@[j])@).to_set() == record_refs(rs@[j]),
            forall|j: int| 0 <= j < ds@.len() ==> texts((#[trigger] per_doc@[j])@).to_set() == doc_refs(ds@[j]),
            out@.len() == q,
            forall|x: int| 0 <= x < q ==> (#[trigger] out@[x]).0@ == keys@[x]@,
            forall|x: int|
                0 <= x < q ==> texts((#[trigger] out@[x]).1@) == sorted_texts(referrers(rs@, ds@, out@[x].0@)),
        decreases keys@.len() - q,
    {
        let key = keys[q].as_str();
        let mut by: Vec<String> = Vec::new();
        assert(texts(by@).to_set() =~= Set::empty());
        let mut j: usize = 0;
        while j < rs.len()
            invariant
                j <= rs@.len(),
                per_record@.len() == rs@.len(),
                forall|x: int| 0 <= x < rs@.len() ==> texts((#[trigger] per_record@[x])@).to_set() == record_refs(rs@[x]),
                strictly_sorted(texts(by@)),
                texts(by@).to_set() == record_referrers(rs@.take(j as int), key@),
            decreases rs@.len() - j,
        {
            assert(rs@.take(j + 1).drop_last() =~= rs@.take(j as int));
            assert(rs@.take(j + 1).last() == rs@[j as int]);
            let ghost before = texts(by@).to_set();
            if contains_text(&per_record[j], key) {
                insert_sorted(&mut by, rs[j].path.clone());
            }
            assert(texts(by@).to_set() =~= record_referrers(rs@.take(j + 1), key@));
            j = j + 1;
        }
        assert(rs@.take(j as int) =~= rs@);
        let ghost mid = texts(by@).to_set();
        let mut j: usize = 0;
        while j < ds.len()
            invariant
                j <= ds@.len(),
                per_doc@.len() == ds@.len(),
                forall|x: int| 0 <= x < ds@.len() ==> texts((#[trigger] per_doc@[x])@).to_set() == doc_refs(ds@[x]),
                strictly_sorted(texts(by@)),
                texts(by@).to_set() == mid + doc_referrers(ds@.take(j as int), key@),
            decreases ds@.len() - j,
        {
            assert(ds@.take(j + 1).drop_last() =~= ds@.take(j as int));
            assert(ds@.take(j + 1).last() == ds@[j as int]);
            if contains_text(&per_doc[j], key) {
                insert_sorted(&mut by, ds[j].path.clone());
            }
            assert(texts(by@).to_set() =~= mid + doc_referrers(ds@.take(j + 1), key@));
            j = j + 1;
        }
        assert(ds@.take(j as int) =~= ds@);
        proof {
            lemma_sorted_texts(texts(by@));
        }
        out.push((keys[q].clone(), by));
        q = q + 1;
    }
    assert(ref_paths(out@) =~= texts(keys@));
    out
}

/// The media report: each referenced file with whether it exists
/// (`exists[i]` for the `i`-th reference).
pub fn media_report(refs: Vec<(String, Vec<String>)>, exists: &Vec<bool>) -> (r: LocalMediaCheckReport)
    requires
        refs@.len() == exists@.len(),
    ensures
        r.references@.len() == refs@.len(),
        forall|q: int|
            0 <= q < refs@.len() ==> (#[trigger] r.references@[q]).path@ == refs@[q].0@
                && r.references@[q].exists == exists@[q] && texts(r.references@[q].referenced_by@)
                == texts(refs@[q].1@),
{
    let mut refs = refs;
    let ghost all = refs@;
    let n = refs.len();
    let mut out: Vec<LocalMediaReferenceCheck> = Vec::new();
    let mut q: usize = 0;
    while q < n
        invariant
            n == all.len(),
            n == exists@.len(),
            q <= n,
            refs@ == all.skip(q as int),
            out@.len() == q,
            forall|x: int|
                0 <= x < q ==> (#[trigger] out@[x]).path@ == all[x].0@ && out@[x].exists == exists@[x]
                    && texts(out@[x].referenced_by@) == texts(all[x].1@),
        decreases n - q,
    {
        let (path, by) = refs.remove(0);
        assert(all.skip(q + 1) =~= all.skip(q as int).drop_first());
        out.push(LocalMediaReferenceCheck { path, exists: exists[q], referenced_by: by });
        q = q + 1;
    }
    LocalMediaCheckReport { references: out }
}

// ---------------------------------------------------------------------------
// Doctor report and summary.

/// Every diagnostic of a world, in the order the doctor reports them.
pub open spec fn spec_diagnostics(b: LocalDataBundle, refs: Seq<LocalMediaReferenceCheck>) -> Seq<DiagView> {
    let rs = b.markdown_records@;
    let ds = b.toml_documents@;
    record_path_diags(rs) + doc_path_diags(ds) + duplicate_diags(rs) + direction_diags(rs, ds)
        + people_diags(rs, birth_ids(rs)) + events_diags(rs) + relationships_diags(ds)
        + missing_file_diags(refs)
}

fn local_world_diagnostics(bundle: &LocalDataBundle, media: &LocalMediaCheckReport) -> (ds: Vec<LocalWorldDiagnostic>)
    ensures
        dviews(ds@) == spec_diagnostics(*bundle, media.references@),
{
    let mut out: Vec<LocalWorldDiagnostic> = Vec::new();
    assert(dviews(out@) =~= seq![]);
    add_unexpected_path_diagnostics(bundle, &mut out);
    add_duplicate_person_diagnostics(&bundle.markdown_records, &mut out);
    add_parent_child_direction_diagnostics(bundle, &mut out);
    let births = birth_ids_exec(&bundle.markdown_records);
    add_person_diagnostics(&bundle.markdown_records, &births, &mut out);
    add_event_diagnostics(&bundle.markdown_records, &mut out);
    add_relationship_diagnostics(&bundle.toml_documents, &mut out);
    add_missing_file_diagnostics(&media.references, &mut out);
    assert(dviews(out@) =~= spec_diagnostics(*bundle, media.references@));
    out
}

/// The world document: the first document at `world.toml`.
pub open spec fn world_doc(ds: Seq<LocalTomlDocument>) -> Option<LocalTomlDocument>
    decreases ds.len(),
{
    if ds.len() == 0 {
        None
    } else if ds[0].path@ == "world.toml"@ {
        Some(ds[0])
    } else {
        world_doc(ds.drop_first())
    }
}

fn world_document(ds: &Vec<LocalTomlDocument>) -> (r: Option<&LocalTomlDocument>)
    ensures
        match r {
            Some(d) => world_doc(ds@) == Some(*d),
            None => world_doc(ds@) is None,
        },
{
    let n = ds.len();
    let mut i: usize = 0;
    assert(ds@.skip(0) =~= ds@);
    while i < n
        invariant
            n == ds@.len(),
            i <= n,
            world_doc(ds@) == world_doc(ds@.skip(i as int)),
        decreases n - i,
    {
        assert(ds@.skip(i as int).drop_first() =~= ds@.skip(i as int + 1));
        if str_eq(ds[i].path.as_str(), "world.toml") {
            return Some(&ds[i]);
        }
        i = i + 1;
    }
    None
}

pub open spec fn world_id(ds: Seq<LocalTomlDocument>) -> Option<Seq<char>> {
    match world_doc(ds) {
        Some(d) => opt_string(d.id),
        None => None,
    }
}

pub open spec fn world_title(ds: Seq<LocalTomlDocument>) -> Option<Seq<char>> {
    match world_doc(ds) {
        Some(d) => opt_string(d.title),
        None => None,
    }
}

/// A warning as plain values.
pub open spec fn wview(w: LocalWorldSummaryWarning) -> (LocalWorldSummaryWarningKind, Seq<char>, Seq<char>, Seq<char>) {
    (w.kind, w.record_id@, w.path@, w.message@)
}

/// The warning a diagnostic is summarized as.
pub open spec fn warning_of(d: DiagView) -> (LocalWorldSummaryWarningKind, Seq<char>, Seq<char>, Seq<char>) {
    (spec_warning_kind(d.0), d.1, d.2, d.3)
}

fn warnings_from(diagnostics: &Vec<LocalWorldDiagnostic>) -> (ws: Vec<LocalWorldSummaryWarning>)
    ensures
        ws@.map_values(|w: LocalWorldSummaryWarning| wview(w)) == dviews(diagnostics@).map_values(
            |d: DiagView| warning_of(d),
        ),
{
    let mut out: Vec<LocalWorldSummaryWarning> = Vec::new();
    let mut i: usize = 0;
    while i < diagnostics.len()
        invariant
            i <= diagnostics@.len(),
            out@.len() == i,
            forall|j: int|
                0 <= j < i ==> wview(#[trigger] out@[j]) == warning_of(dview(diagnostics@[j])),
        decreases diagnostics@.len() - i,
    {
        let d = &diagnostics[i];
        out.push(
            LocalWorldSummaryWarning {
                kind: LocalWorldSummaryWarningKind::from(d.kind),
                record_id: d.record_id.clone(),
                path: d.path.clone(),
                message: d.message.clone(),
            },
        );
        i = i + 1;
    }
    assert(out@.map_values(|w: LocalWorldSummaryWarning| wview(w)) =~= dviews(diagnostics@).map_values(
        |d: DiagView| warning_of(d),
    ));
    out
}

fn clone_opt_string(o: &Option<String>) -> (r: Option<String>)
    ensures
        opt_string(r) == opt_string(*o),
{
    match o {
        Some(s) => Some(s.clone()),
        None => None,
    }
}

/// `refs` is a media report of the bundle: one entry per referenced file,
/// in path order, with the records that refer to it (only whether each file
/// exists comes from outside).
pub open spec fn reports_media_of(bundle: LocalDataBundle, refs: Seq<LocalMediaReferenceCheck>) -> bool {
    let paths = sorted_texts(all_refs(bundle.markdown_records@, bundle.toml_documents@));
    &&& refs.len() == paths.len()
    &&& forall|q: int| 0 <= q < refs.len() ==> (#[trigger] refs[q]).path@ == paths[q]
        && texts(refs[q].referenced_by@) == sorted_texts(
            referrers(bundle.markdown_records@, bundle.toml_documents@, paths[q]),
        )
}

/// What the doctor finds in a world: its diagnostics, and its summary with
/// a warning for each diagnostic. `media` is the media report of the same
/// bundle, which says which referenced files exist.
pub fn doctor_local_data_bundle(bundle: &LocalDataBundle, media: &LocalMediaCheckReport) -> (r: LocalWorldDoctorReport)
    requires
        bundle.markdown_records@.len() + bundle.toml_documents@.len() <= usize::MAX,
        reports_media_of(*bundle, media.references@),
    ensures
        dviews(r.diagnostics@) == spec_diagnostics(*bundle, media.references@),
        opt_string(r.summary.world_id) == world_id(bundle.toml_documents@),
        opt_string(r.summary.world_title) == world_title(bundle.toml_documents@),
        r.summary.warnings@.map_values(|w: LocalWorldSummaryWarning| wview(w)) == spec_diagnostics(
            *bundle,
            media.references@,
        ).map_values(|d: DiagView| warning_of(d)),
        counts_match(*bundle, r.summary.counts),
{
    let diagnostics = local_world_diagnostics(bundle, media);
    let summary = summary_with_diagnostics(bundle, &diagnostics);
    LocalWorldDoctorReport { summary, diagnostics }
}

fn summary_with_diagnostics(bundle: &LocalDataBundle, diagnostics: &Vec<LocalWorldDiagnostic>) -> (s: LocalWorldSummary)
    requires
        bundle.markdown_records@.len() + bundle.toml_documents@.len() <= usize::MAX,
    ensures
        opt_string(s.world_id) == world_id(bundle.toml_documents@),
        opt_string(s.world_title) == world_title(bundle.toml_documents@),
        s.warnings@.map_values(|w: LocalWorldSummaryWarning| wview(w)) == dviews(diagnostics@).map_values(
            |d: DiagView| warning_of(d),
        ),
        counts_match(*bundle, s.counts),
{
    let (world_id, world_title) = match world_document(&bundle.toml_documents) {
        Some(d) => (clone_opt_string(&d.id), clone_opt_string(&d.title)),
        None => (None, None),
    };
    LocalWorldSummary {
        world_id,
        world_title,
        counts: summary_counts(bundle),
        warnings: warnings_from(diagnostics),
    }
}

/// The summary of a world: its identity, its counts, and a warning for each
/// diagnostic the doctor reports. `media` is the media report of the same
/// bundle.
pub fn summarize_local_data_bundle(bundle: &LocalDataBundle, media: &LocalMediaCheckReport) -> (s: LocalWorldSummary)
    requires
        bundle.markdown_records@.len() + bundle.toml_documents@.len() <= usize::MAX,
        reports_media_of(*bundle, media.references@),
    ensures
        opt_string(s.world_id) == world_id(bundle.toml_documents@),
        opt_string(s.world_title) == world_title(bundle.toml_documents@),
        s.warnings@.map_values(|w: LocalWorldSummaryWarning| wview(w)) == spec_diagnostics(
            *bundle,
            media.references@,
        ).map_values(|d: DiagView| warning_of(d)),
        counts_match(*bundle, s.counts),
{
    let diagnostics = local_world_diagnostics(bundle, media);
    summary_with_diagnostics(bundle, &diagnostics)
}

proof fn lemma_present_plus_missing(refs: Seq<LocalMediaReferenceCheck>)
    ensures
        count_present(refs, true) + count_present(refs, false) == refs.len(),
    decreases refs.len(),
{
    if refs.len() > 0 {
        lemma_present_plus_missing(refs.drop_last());
    }
}

/// Every referenced file of a media report is either present or missing.
pub proof fn law_media_files_add_up(report: LocalMediaCheckReport)
    ensures
        count_present(report.references@, true) + count_present(report.references@, false)
            == report.references@.len(),
{
    lemma_present_plus_missing(report.references@);
}

/// The doctor reports one missing-file diagnostic for each referenced file
/// that the media report finds missing, at the end, in the report's order.
pub proof fn law_missing_files_reported(bundle: LocalDataBundle, media: LocalMediaCheckReport)
    ensures
        spec_diagnostics(bundle, media.references@).len() >= missing_file_diags(media.references@).len(),
        missing_file_diags(media.references@).len() == count_present(media.references@, false),
        spec_diagnostics(bundle, media.references@).skip(
            spec_diagnostics(bundle, media.references@).len() - missing_file_diags(media.references@).len(),
        ) == missing_file_diags(media.references@),
{
    lemma_missing_count(media.references@);
    let all = spec_diagnostics(bundle, media.references@);
    let tail = missing_file_diags(media.references@);
    assert(all.skip(all.len() - tail.len()) =~= tail);
}

proof fn lemma_missing_count(refs: Seq<LocalMediaReferenceCheck>)
    ensures
        missing_file_diags(refs).len() == count_present(refs, false),
    decreases refs.len(),
{
    if refs.len() > 0 {
        lemma_missing_count(refs.drop_last());
    }
}
} // verus!
