//! Human-editable timeline source format.
//!
//! `EventPack` is the normalized exchange/archive shape. It carries domain
//! profiles, provenance, generated boundary events, and graph relations.
//! This module provides a smaller authoring shape suitable for local files
//! that can be compiled into an `EventPack`, and exported back from one.
use vstd::prelude::*;
use crate::attribution::Provenance;
use crate::event::{
    EntityRef, EventBoundaryKind, EventCompositionKind, EventParticipant, EventRelation,
    EventRelationKind, EventTemporalKind, EventTypeId, TimeSpec, TimelineEvent,
};
use crate::event_type::{genealogy_domain_profile, is_genealogy_profile};
use crate::model::{DateValue, EventId, PersonId};
use crate::pack::{EventPack, PackId, PackKind, PackMetadata};
use crate::pack_builder::{
    draft_event, max_event_id, spec_scale_kinds_from_axes, EventPackBuilder, ManualEventDraft,
};
use crate::text::{
    ascii_lower, is_ascii_alphanumeric, is_blank, is_blank_str, push_char, starts_with, str_eq,
    to_ascii_lower, trim, trim_seq,
};

verus! {

broadcast use vstd::seq_lib::group_seq_properties;

/// A personal timeline as its author writes it: a header and a list of items.
#[derive(Debug, PartialEq, Eq)]
pub struct TimelineSource {
    pub meta: TimelineSourceMeta,
    pub items: Vec<TimelineSourceItem>,
}

#[derive(Debug, PartialEq, Eq)]
pub struct TimelineSourceMeta {
    pub id: Option<String>,
    pub title: String,
    pub kind: Option<TimelineSourcePackKind>,
    pub description: Option<String>,
    pub subject: Option<String>,
    pub person_id: Option<u64>,
}

/// A file that holds only the items of a timeline source.
#[derive(Debug, PartialEq, Eq)]
pub struct TimelineSourceItemsFile {
    pub items: Vec<TimelineSourceItem>,
}

#[derive(Debug, Clone, Copy, PartialEq, Eq, Structural)]
pub enum TimelineSourcePackKind {
    Biography,
    UserJournal,
    HistoricalTimeline,
    ResearchLog,
}

/// One line of a timeline: an event (a start date only) or a period (a start
/// and an end, or `current`).
#[derive(Debug, PartialEq, Eq)]
pub struct TimelineSourceItem {
    pub section: String,
    pub title: String,
    pub start: String,
    pub end: Option<String>,
    pub current: bool,
    pub place: Option<String>,
    pub details: Option<String>,
    pub start_label: Option<String>,
    pub end_label: Option<String>,
}

fn clone_opt(s: &Option<String>) -> (r: Option<String>)
    ensures
        r == *s,
{
    match s {
        Some(v) => Some(v.clone()),
        None => None,
    }
}

impl Clone for TimelineSourceItem {
    fn clone(&self) -> (r: Self)
        ensures
            r == *self,
    {
        TimelineSourceItem {
            section: self.section.clone(),
            title: self.title.clone(),
            start: self.start.clone(),
            end: clone_opt(&self.end),
            current: self.current,
            place: clone_opt(&self.place),
            details: clone_opt(&self.details),
            start_label: clone_opt(&self.start_label),
            end_label: clone_opt(&self.end_label),
        }
    }
}

impl Clone for TimelineSourceMeta {
    fn clone(&self) -> (r: Self)
        ensures
            r == *self,
    {
        TimelineSourceMeta {
            id: clone_opt(&self.id),
            title: self.title.clone(),
            kind: self.kind,
            description: clone_opt(&self.description),
            subject: clone_opt(&self.subject),
            person_id: self.person_id,
        }
    }
}

impl Clone for TimelineSource {
    fn clone(&self) -> (r: Self)
        ensures
            r.meta == self.meta,
            r.items@ == self.items@,
    {
        let items = self.items.clone();
        assert(items@ =~= self.items@);
        TimelineSource { meta: self.meta.clone(), items }
    }
}

impl Clone for TimelineSourceItemsFile {
    fn clone(&self) -> (r: Self)
        ensures
            r.items@ == self.items@,
    {
        let items = self.items.clone();
        assert(items@ =~= self.items@);
        TimelineSourceItemsFile { items }
    }
}

impl TimelineSource {
    /// An empty biography titled `title`, for person 1000.
    pub fn new(title: &str) -> (r: Self)
        ensures
            r.meta.id matches Some(id) && id@ == "local:personal-timeline"@,
            r.meta.title@ == title@,
            r.meta.kind == Some(TimelineSourcePackKind::Biography),
            r.meta.description.is_none(),
            r.meta.subject.is_none(),
            r.meta.person_id == Some(1000u64),
            r.items@.len() == 0,
    {
        TimelineSource {
            meta: TimelineSourceMeta {
                id: Some("local:personal-timeline".to_owned()),
                title: title.to_owned(),
                kind: Some(TimelineSourcePackKind::Biography),
                description: None,
                subject: None,
                person_id: Some(1000),
            },
            items: Vec::new(),
        }
    }

    /// The pack this source compiles to.
    pub fn into_event_pack(self) -> (r: EventPack)
        requires
            compilable(self),
        ensures
            compiled_from(self, r),
    {
        event_pack_from_timeline_source(&self)
    }
}

impl TimelineSourceItem {
    /// A dated event with nothing else set.
    pub fn event(section: &str, title: &str, start: &str) -> (r: Self)
        ensures
            r.section@ == section@,
            r.title@ == title@,
            r.start@ == start@,
            r.end.is_none(),
            !r.current,
            r.place.is_none(),
            r.details.is_none(),
            r.start_label.is_none(),
            r.end_label.is_none(),
    {
        TimelineSourceItem {
            section: section.to_owned(),
            title: title.to_owned(),
            start: start.to_owned(),
            end: None,
            current: false,
            place: None,
            details: None,
            start_label: None,
            end_label: None,
        }
    }

    /// A period from `start` to `end`.
    pub fn period(section: &str, title: &str, start: &str, end: &str) -> (r: Self)
        ensures
            r.section@ == section@,
            r.title@ == title@,
            r.start@ == start@,
            r.end matches Some(e) && e@ == end@,
            !r.current,
            r.place.is_none(),
            r.details.is_none(),
            r.start_label.is_none(),
            r.end_label.is_none(),
    {
        TimelineSourceItem {
            section: section.to_owned(),
            title: title.to_owned(),
            start: start.to_owned(),
            end: Some(end.to_owned()),
            current: false,
            place: None,
            details: None,
            start_label: None,
            end_label: None,
        }
    }

    /// A period from `start` that is still going on.
    pub fn current_period(section: &str, title: &str, start: &str) -> (r: Self)
        ensures
            r.section@ == section@,
            r.title@ == title@,
            r.start@ == start@,
            r.end.is_none(),
            r.current,
            r.place.is_none(),
            r.details.is_none(),
            r.start_label.is_none(),
            r.end_label.is_none(),
    {
        TimelineSourceItem {
            section: section.to_owned(),
            title: title.to_owned(),
            start: start.to_owned(),
            end: None,
            current: true,
            place: None,
            details: None,
            start_label: None,
            end_label: None,
        }
    }
}

pub fn timeline_source_from_parts(meta: TimelineSourceMeta, items: Vec<TimelineSourceItem>) -> (r:
    TimelineSource)
    ensures
        r.meta == meta,
        r.items@ == items@,
{
    TimelineSource { meta, items }
}

pub fn timeline_source_to_parts(source: TimelineSource) -> (r: (
    TimelineSourceMeta,
    Vec<TimelineSourceItem>,
))
    ensures
        r.0 == source.meta,
        r.1@ == source.items@,
{
    (source.meta, source.items)
}

// ---------------------------------------------------------------------------
// Vocabulary: sections, event types, roles and pack kinds.

/// The event type that an item of `section` compiles to.
pub open spec fn spec_event_type(section: Seq<char>, is_period: bool) -> Seq<char> {
    if section == "life"@ && is_period {
        "genealogy.life"@
    } else if section == "birth"@ && !is_period {
        "genealogy.birth"@
    } else if section == "death"@ && !is_period {
        "genealogy.death"@
    } else if section == "residence"@ && is_period {
        "residence.period"@
    } else if section == "residence"@ && !is_period {
        "residence.event"@
    } else if section == "education"@ && is_period {
        "education.period"@
    } else if section == "education"@ && !is_period {
        "education.event"@
    } else if section == "career"@ && is_period {
        "career.job"@
    } else if section == "career"@ && !is_period {
        "career.event"@
    } else if section == "relationship"@ && is_period {
        "genealogy.marriage"@
    } else if section == "relationship"@ && !is_period {
        "relationship.event"@
    } else if section == "family"@ {
        "genealogy.event"@
    } else if section == "travel"@ && is_period {
        "travel.period"@
    } else if section == "travel"@ && !is_period {
        "travel.event"@
    } else {
        "personal.event"@
    }
}

fn source_event_type(section: &str, is_period: bool) -> (r: &'static str)
    ensures
        r@ == spec_event_type(section@, is_period),
{
    if str_eq(section, "life") && is_period {
        "genealogy.life"
    } else if str_eq(section, "birth") && !is_period {
        "genealogy.birth"
    } else if str_eq(section, "death") && !is_period {
        "genealogy.death"
    } else if str_eq(section, "residence") && is_period {
        "residence.period"
    } else if str_eq(section, "residence") && !is_period {
        "residence.event"
    } else if str_eq(section, "education") && is_period {
        "education.period"
    } else if str_eq(section, "education") && !is_period {
        "education.event"
    } else if str_eq(section, "career") && is_period {
        "career.job"
    } else if str_eq(section, "career") && !is_period {
        "career.event"
    } else if str_eq(section, "relationship") && is_period {
        "genealogy.marriage"
    } else if str_eq(section, "relationship") && !is_period {
        "relationship.event"
    } else if str_eq(section, "family") {
        "genealogy.event"
    } else if str_eq(section, "travel") && is_period {
        "travel.period"
    } else if str_eq(section, "travel") && !is_period {
        "travel.event"
    } else {
        "personal.event"
    }
}

/// The event type of the start (`starts`) or end boundary of a period of `section`.
pub open spec fn spec_boundary_type(section: Seq<char>, starts: bool) -> Seq<char> {
    if section == "life"@ {
        if starts {
            "genealogy.birth"@
        } else {
            "genealogy.death"@
        }
    } else if section == "residence"@ {
        if starts {
            "residence.moved_in"@
        } else {
            "residence.moved_out"@
        }
    } else if section == "education"@ {
        if starts {
            "education.started"@
        } else {
            "education.finished"@
        }
    } else if section == "career"@ {
        if starts {
            "career.started_job"@
        } else {
            "career.ended_job"@
        }
    } else if section == "relationship"@ {
        if starts {
            "relationship.started"@
        } else {
            "relationship.ended"@
        }
    } else if section == "travel"@ {
        if starts {
            "travel.arrived"@
        } else {
            "travel.departed"@
        }
    } else if starts {
        "personal.started"@
    } else {
        "personal.ended"@
    }
}

fn source_boundary_type(section: &str, starts: bool) -> (r: &'static str)
    ensures
        r@ == spec_boundary_type(section@, starts),
{
    if str_eq(section, "life") {
        if starts {
            "genealogy.birth"
        } else {
            "genealogy.death"
        }
    } else if str_eq(section, "residence") {
        if starts {
            "residence.moved_in"
        } else {
            "residence.moved_out"
        }
    } else if str_eq(section, "education") {
        if starts {
            "education.started"
        } else {
            "education.finished"
        }
    } else if str_eq(section, "career") {
        if starts {
            "career.started_job"
        } else {
            "career.ended_job"
        }
    } else if str_eq(section, "relationship") {
        if starts {
            "relationship.started"
        } else {
            "relationship.ended"
        }
    } else if str_eq(section, "travel") {
        if starts {
            "travel.arrived"
        } else {
            "travel.departed"
        }
    } else if starts {
        "personal.started"
    } else {
        "personal.ended"
    }
}

/// The role of the person in the main event of an item of `section`.
pub open spec fn spec_role(section: Seq<char>) -> Seq<char> {
    if section == "birth"@ {
        "child"@
    } else if section == "death"@ {
        "deceased"@
    } else if section == "residence"@ {
        "resident"@
    } else {
        "subject"@
    }
}

fn source_role(section: &str) -> (r: &'static str)
    ensures
        r@ == spec_role(section@),
{
    if str_eq(section, "birth") {
        "child"
    } else if str_eq(section, "death") {
        "deceased"
    } else if str_eq(section, "residence") {
        "resident"
    } else {
        "subject"
    }
}

/// The role of the person in a boundary event of type `event_type`.
pub open spec fn spec_role_for_event_type(event_type: Seq<char>) -> Seq<char> {
    if event_type == "genealogy.birth"@ {
        "child"@
    } else if event_type == "genealogy.death"@ {
        "deceased"@
    } else if event_type == "genealogy.residence"@ || event_type == "residence.period"@
        || event_type == "residence.event"@ {
        "resident"@
    } else {
        "subject"@
    }
}

fn source_role_for_event_type(event_type: &str) -> (r: &'static str)
    ensures
        r@ == spec_role_for_event_type(event_type@),
{
    if str_eq(event_type, "genealogy.birth") {
        "child"
    } else if str_eq(event_type, "genealogy.death") {
        "deceased"
    } else if str_eq(event_type, "genealogy.residence") || str_eq(event_type, "residence.period")
        || str_eq(event_type, "residence.event") {
        "resident"
    } else {
        "subject"
    }
}

pub open spec fn spec_pack_kind(kind: Option<TimelineSourcePackKind>) -> PackKind {
    match kind {
        Some(TimelineSourcePackKind::UserJournal) => PackKind::UserJournal,
        Some(TimelineSourcePackKind::HistoricalTimeline) => PackKind::HistoricalTimeline,
        Some(TimelineSourcePackKind::ResearchLog) => PackKind::ResearchLog,
        _ => PackKind::Biography,
    }
}

fn source_pack_kind(kind: Option<TimelineSourcePackKind>) -> (r: PackKind)
    ensures
        r == spec_pack_kind(kind),
{
    let kind = match kind {
        Some(k) => k,
        None => TimelineSourcePackKind::Biography,
    };
    match kind {
        TimelineSourcePackKind::Biography => PackKind::Biography,
        TimelineSourcePackKind::UserJournal => PackKind::UserJournal,
        TimelineSourcePackKind::HistoricalTimeline => PackKind::HistoricalTimeline,
        TimelineSourcePackKind::ResearchLog => PackKind::ResearchLog,
    }
}

pub open spec fn spec_kind_from_pack_kind(kind: PackKind) -> Option<TimelineSourcePackKind> {
    match kind {
        PackKind::Biography | PackKind::Genealogy => Some(TimelineSourcePackKind::Biography),
        PackKind::UserJournal => Some(TimelineSourcePackKind::UserJournal),
        PackKind::HistoricalTimeline => Some(TimelineSourcePackKind::HistoricalTimeline),
        PackKind::ResearchLog => Some(TimelineSourcePackKind::ResearchLog),
        _ => None,
    }
}

fn source_kind_from_pack_kind(kind: &PackKind) -> (r: Option<TimelineSourcePackKind>)
    ensures
        r == spec_kind_from_pack_kind(*kind),
{
    match kind {
        PackKind::Biography | PackKind::Genealogy => Some(TimelineSourcePackKind::Biography),
        PackKind::UserJournal => Some(TimelineSourcePackKind::UserJournal),
        PackKind::HistoricalTimeline => Some(TimelineSourcePackKind::HistoricalTimeline),
        PackKind::ResearchLog => Some(TimelineSourcePackKind::ResearchLog),
        PackKind::ImportedDataset | PackKind::ReferenceDataset | PackKind::Custom(_) => None,
    }
}

pub open spec fn has_prefix(s: Seq<char>, p: Seq<char>) -> bool {
    p.len() <= s.len() && s.take(p.len() as int) == p
}

/// The section an event of type `type_ref` is exported to.
pub open spec fn spec_section_label(type_ref: Seq<char>) -> Seq<char> {
    if type_ref == "genealogy.life"@ {
        "life"@
    } else if type_ref == "genealogy.birth"@ {
        "birth"@
    } else if type_ref == "genealogy.death"@ {
        "death"@
    } else if has_prefix(type_ref, "residence."@) {
        "residence"@
    } else if has_prefix(type_ref, "education."@) {
        "education"@
    } else if has_prefix(type_ref, "career."@) {
        "career"@
    } else if type_ref == "genealogy.marriage"@ || has_prefix(type_ref, "relationship."@) {
        "relationship"@
    } else if has_prefix(type_ref, "travel."@) {
        "travel"@
    } else if has_prefix(type_ref, "journal."@) {
        "journal"@
    } else {
        "event"@
    }
}

fn source_section_label(type_ref: &str) -> (r: &'static str)
    ensures
        r@ == spec_section_label(type_ref@),
{
    if str_eq(type_ref, "genealogy.life") {
        "life"
    } else if str_eq(type_ref, "genealogy.birth") {
        "birth"
    } else if str_eq(type_ref, "genealogy.death") {
        "death"
    } else if starts_with(type_ref, "residence.") {
        "residence"
    } else if starts_with(type_ref, "education.") {
        "education"
    } else if starts_with(type_ref, "career.") {
        "career"
    } else if str_eq(type_ref, "genealogy.marriage") || starts_with(type_ref, "relationship.") {
        "relationship"
    } else if starts_with(type_ref, "travel.") {
        "travel"
    } else if starts_with(type_ref, "journal.") {
        "journal"
    } else {
        "event"
    }
}

// ---------------------------------------------------------------------------
// Descriptions: "Place: <place>\n\n<details>".

pub open spec fn opt_trim(o: Option<String>) -> Seq<char> {
    match o {
        Some(s) => trim_seq(s@),
        None => seq![],
    }
}

/// The description of the main event of an item: its trimmed place, after
/// `Place: `, and its trimmed details, a blank line apart; either alone when
/// the other is empty.
pub open spec fn spec_description(place: Option<String>, details: Option<String>) -> Seq<char> {
    let p = opt_trim(place);
    let d = opt_trim(details);
    if p.len() == 0 {
        d
    } else if d.len() == 0 {
        "Place: "@ + p
    } else {
        "Place: "@ + p + "\n\n"@ + d
    }
}

fn trim_opt(o: &Option<String>) -> (r: String)
    ensures
        r@ == opt_trim(*o),
{
    match o {
        Some(s) => trim(s.as_str()),
        None => String::new(),
    }
}

fn source_description(place: &Option<String>, details: &Option<String>) -> (r: String)
    ensures
        r@ == spec_description(*place, *details),
{
    let p = trim_opt(place);
    let d = trim_opt(details);
    let p_empty = p.as_str().unicode_len() == 0;
    let d_empty = d.as_str().unicode_len() == 0;
    if p_empty {
        d
    } else if d_empty {
        let mut r = "Place: ".to_owned();
        r.append(p.as_str());
        r
    } else {
        let mut r = "Place: ".to_owned();
        r.append(p.as_str());
        r.append("\n\n");
        r.append(d.as_str());
        r
    }
}

/// Index of the first blank line separator (`\n\n`) in `s`.
pub open spec fn first_blank_line(s: Seq<char>) -> Option<int>
    decreases s.len(),
{
    if s.len() < 2 {
        None
    } else {
        match first_blank_line(s.drop_last()) {
            Some(i) => Some(i),
            None => if s[s.len() - 2] == '\n' && s[s.len() - 1] == '\n' {
                Some(s.len() - 2)
            } else {
                None
            },
        }
    }
}

pub proof fn lemma_first_blank_line(s: Seq<char>)
    ensures
        first_blank_line(s) matches Some(i) ==> 0 <= i && i + 2 <= s.len(),
    decreases s.len(),
{
    if s.len() >= 2 {
        lemma_first_blank_line(s.drop_last());
    }
}

pub open spec fn non_blank(s: Seq<char>) -> Option<Seq<char>> {
    if is_blank(s) {
        None
    } else {
        Some(s)
    }
}

/// Place and details read back from a description: after a `Place: `
/// prefix, the text up to the first blank line is the place and the rest
/// the details; without the prefix, the whole description is the details.
/// Blank parts are absent.
pub open spec fn spec_split_description(description: Option<Seq<char>>) -> (
    Option<Seq<char>>,
    Option<Seq<char>>,
) {
    match description {
        None => (None, None),
        Some(d) => if has_prefix(d, "Place: "@) {
            let rest = d.skip("Place: "@.len() as int);
            match first_blank_line(rest) {
                Some(i) => (non_blank(rest.take(i)), non_blank(rest.skip(i + 2))),
                None => (non_blank(rest), None),
            }
        } else {
            (None, non_blank(d))
        },
    }
}

pub open spec fn opt_view(o: Option<String>) -> Option<Seq<char>> {
    match o {
        Some(s) => Some(s@),
        None => None,
    }
}

fn find_blank_line(s: &str) -> (r: Option<usize>)
    ensures
        r matches Some(i) ==> first_blank_line(s@) == Some(i as int),
        r.is_none() ==> first_blank_line(s@).is_none(),
{
    let n = s.unicode_len();
    let mut i: usize = 0;
    while i + 1 < n
        invariant
            n == s@.len(),
            i + 1 <= n || n == 0,
            i <= n,
            first_blank_line(s@.take(i + 1)).is_none() || n == 0,
        decreases n - i,
    {
        let ghost t = s@.take(i + 2);
        assert(t.drop_last() =~= s@.take(i + 1));
        if s.get_char(i) == '\n' && s.get_char(i + 1) == '\n' {
            proof {
                lemma_blank_prefix(s@, i + 2);
            }
            return Some(i);
        }
        assert(first_blank_line(t).is_none());
        i = i + 1;
    }
    if n == 0 {
        assert(first_blank_line(s@).is_none());
    } else {
        assert(s@.take(n as int) =~= s@);
    }
    None
}

proof fn lemma_blank_prefix(s: Seq<char>, j: int)
    requires
        2 <= j <= s.len(),
        s[j - 2] == '\n',
        s[j - 1] == '\n',
        first_blank_line(s.take(j - 1)).is_none(),
    ensures
        first_blank_line(s) == Some(j - 2),
    decreases s.len(),
{
    if s.len() > j {
        assert(s.drop_last().take(j - 1) =~= s.take(j - 1));
        lemma_blank_prefix(s.drop_last(), j);
    } else {
        assert(s.drop_last() =~= s.take(j - 1));
    }
}

fn non_blank_string(s: &str) -> (r: Option<String>)
    ensures
        opt_view(r) == non_blank(s@),
{
    if is_blank_str(s) {
        None
    } else {
        Some(s.to_owned())
    }
}

fn split_source_description(description: &Option<String>) -> (r: (Option<String>, Option<String>))
    ensures
        (opt_view(r.0), opt_view(r.1)) == spec_split_description(opt_view(*description)),
{
    match description {
        None => (None, None),
        Some(d) => {
            let d = d.as_str();
            if starts_with(d, "Place: ") {
                let k = "Place: ".unicode_len();
                let n = d.unicode_len();
                let rest = d.substring_char(k, n);
                assert(rest@ =~= d@.skip("Place: "@.len() as int));
                match find_blank_line(rest) {
                    Some(i) => {
                        proof {
                            lemma_first_blank_line(rest@);
                        }
                        let m = rest.unicode_len();
                        let place = rest.substring_char(0, i);
                        let details = rest.substring_char(i + 2, m);
                        assert(place@ =~= rest@.take(i as int));
                        assert(details@ =~= rest@.skip(i + 2));
                        (non_blank_string(place), non_blank_string(details))
                    },
                    None => (non_blank_string(rest), None),
                }
            } else {
                (None, non_blank_string(d))
            }
        },
    }
}

// ---------------------------------------------------------------------------
// Pack ids derived from titles.

/// The slug of a title: its ASCII letters and digits, lowercased, with one
/// hyphen between two runs of them.
pub open spec fn spec_slug(s: Seq<char>) -> Seq<char>
    decreases s.len(),
{
    if s.len() == 0 {
        seq![]
    } else {
        let prev = spec_slug(s.drop_last());
        let c = s.last();
        if !is_ascii_alphanumeric(c) {
            prev
        } else if prev.len() > 0 && !is_ascii_alphanumeric(s[s.len() - 2]) {
            prev + seq!['-', ascii_lower(c)]
        } else {
            prev.push(ascii_lower(c))
        }
    }
}

/// `local:` and the slug of the title, or `local:timeline` for a title with
/// no letter or digit.
pub open spec fn spec_stable_pack_id(title: Seq<char>) -> Seq<char> {
    if spec_slug(title).len() == 0 {
        "local:timeline"@
    } else {
        "local:"@ + spec_slug(title)
    }
}

fn is_alnum(c: char) -> (r: bool)
    ensures
        r == is_ascii_alphanumeric(c),
{
    ('0' <= c && c <= '9') || ('a' <= c && c <= 'z') || ('A' <= c && c <= 'Z')
}

pub fn stable_pack_id_from_title(title: &str) -> (r: String)
    ensures
        r@ == spec_stable_pack_id(title@),
{
    let n = title.unicode_len();
    let mut slug = String::new();
    let mut prev_alnum = false;
    let mut i: usize = 0;
    while i < n
        invariant
            n == title@.len(),
            i <= n,
            slug@ == spec_slug(title@.take(i as int)),
            i > 0 ==> prev_alnum == is_ascii_alphanumeric(title@[i - 1]),
            i == 0 ==> !prev_alnum && slug@.len() == 0,
        decreases n - i,
    {
        let c = title.get_char(i);
        let ghost t = title@.take(i + 1);
        assert(t.drop_last() =~= title@.take(i as int));
        assert(t.last() == c);
        if is_alnum(c) {
            if slug.as_str().unicode_len() > 0 && !prev_alnum {
                assert(t[t.len() - 2] == title@[i - 1]);
                push_char(&mut slug, '-');
            }
            push_char(&mut slug, to_ascii_lower(c));
            prev_alnum = true;
        } else {
            prev_alnum = false;
        }
        i = i + 1;
    }
    assert(title@.take(n as int) =~= title@);
    if slug.as_str().unicode_len() == 0 {
        "local:timeline".to_owned()
    } else {
        let mut r = "local:".to_owned();
        r.append(slug.as_str());
        r
    }
}

// ---------------------------------------------------------------------------
// Compiling a source into a pack.

/// The trimmed end of an item, when it has a non-blank one.
pub open spec fn spec_end(item: TimelineSourceItem) -> Option<Seq<char>> {
    match item.end {
        Some(e) => if is_blank(e@) {
            None
        } else {
            Some(trim_seq(e@))
        },
        None => None,
    }
}

/// An item is a period when it has an end or is current.
pub open spec fn spec_is_period(item: TimelineSourceItem) -> bool {
    spec_end(item).is_some() || item.current
}

/// Events an item compiles to: the item itself, then a start boundary for
/// a period, then an end boundary for a period with an end.
pub open spec fn item_event_count(item: TimelineSourceItem) -> int {
    1 + (if spec_is_period(item) {
        1int
    } else {
        0int
    }) + (if spec_end(item).is_some() {
        1int
    } else {
        0int
    })
}

/// Number of events the items compile to.
pub open spec fn event_total(items: Seq<TimelineSourceItem>) -> int
    decreases items.len(),
{
    if items.len() == 0 {
        0
    } else {
        event_total(items.drop_last()) + item_event_count(items.last())
    }
}

/// The person named by the source, 1000 by default.
pub open spec fn spec_person(meta: TimelineSourceMeta) -> PersonId {
    match meta.person_id {
        Some(p) => PersonId(p),
        None => PersonId(1000),
    }
}

pub open spec fn spec_pack_id(meta: TimelineSourceMeta) -> Seq<char> {
    match meta.id {
        Some(id) => id@,
        None => spec_stable_pack_id(meta.title@),
    }
}

/// A date kept as its source text `text`.
pub open spec fn is_source_date(d: DateValue, text: Seq<char>) -> bool {
    &&& d.original@ == text
    &&& d.historical.is_none()
    &&& d.range == DateValue::spec_original_range(text)
    &&& d.provenance.is_empty_spec()
}

pub open spec fn only_person(ps: Seq<EventParticipant>, person: PersonId, role: Seq<char>) -> bool {
    &&& ps.len() == 1
    &&& ps[0].entity == EntityRef::Person(person)
    &&& ps[0].role@ == role
}

/// `e` is the main event that `item` compiles to, under id `id`.
pub open spec fn is_item_event(
    e: TimelineEvent,
    item: TimelineSourceItem,
    person: PersonId,
    id: EventId,
) -> bool {
    let section = trim_seq(item.section@);
    let period = spec_is_period(item);
    let description = spec_description(item.place, item.details);
    &&& e.id == id
    &&& e.title@ == item.title@
    &&& e.type_ref.0@ == spec_event_type(section, period)
    &&& if period {
        &&& e.time matches TimeSpec::Range { start: Some(s), end } && is_source_date(s, item.start@)
            && match spec_end(item) {
            Some(t) => end matches Some(x) && is_source_date(x, t),
            None => end.is_none(),
        }
        &&& e.composition == EventCompositionKind::Composite
        &&& e.temporal == EventTemporalKind::Interval
    } else {
        &&& e.time matches TimeSpec::Date(d) && is_source_date(d, item.start@)
        &&& e.composition == EventCompositionKind::Atomic
        &&& e.temporal == EventTemporalKind::Instant
    }
    &&& e.boundary == EventBoundaryKind::NoBoundary
    &&& e.scale_kinds@ == spec_scale_kinds_from_axes(
        e.composition,
        e.temporal,
        EventBoundaryKind::NoBoundary,
    )
    &&& e.place.is_none()
    &&& only_person(e.participants@, person, spec_role(section))
    &&& if description.len() == 0 {
        e.description.is_none()
    } else {
        e.description matches Some(d) && d@ == description
    }
    &&& e.sources@.len() == 0
    &&& e.tags@.len() == 0
    &&& e.provenance.is_empty_spec()
}

/// `e` is a boundary event of type `event_type` titled `title` at `date`.
pub open spec fn is_boundary_event(
    e: TimelineEvent,
    event_type: Seq<char>,
    title: Seq<char>,
    date: Seq<char>,
    person: PersonId,
    boundary: EventBoundaryKind,
    id: EventId,
) -> bool {
    &&& e.id == id
    &&& e.title@ == title
    &&& e.type_ref.0@ == event_type
    &&& e.time matches TimeSpec::Date(d) && is_source_date(d, date)
    &&& e.composition == EventCompositionKind::Atomic
    &&& e.temporal == EventTemporalKind::Instant
    &&& e.boundary == boundary
    &&& e.scale_kinds@ == spec_scale_kinds_from_axes(
        EventCompositionKind::Atomic,
        EventTemporalKind::Instant,
        boundary,
    )
    &&& e.place.is_none()
    &&& only_person(e.participants@, person, spec_role_for_event_type(event_type))
    &&& e.description.is_none()
    &&& e.sources@.len() == 0
    &&& e.tags@.len() == 0
    &&& e.provenance.is_empty_spec()
}

/// A label, unless it is absent or blank; then `fallback`.
pub open spec fn label_or(label: Option<String>, fallback: Seq<char>) -> Seq<char> {
    match label {
        Some(l) => if is_blank(l@) {
            fallback
        } else {
            l@
        },
        None => fallback,
    }
}

pub open spec fn start_title(item: TimelineSourceItem) -> Seq<char> {
    label_or(item.start_label, "Started "@ + item.title@)
}

pub open spec fn end_title(item: TimelineSourceItem) -> Seq<char> {
    label_or(item.end_label, "Ended "@ + item.title@)
}

pub open spec fn next_id(id: EventId, k: int) -> EventId {
    EventId((id.0 + k) as u64)
}

/// `evs` are the events that `item` compiles to, the first under `first`.
pub open spec fn item_events_ok(
    evs: Seq<TimelineEvent>,
    item: TimelineSourceItem,
    person: PersonId,
    first: EventId,
) -> bool {
    let section = trim_seq(item.section@);
    &&& evs.len() == item_event_count(item)
    &&& is_item_event(evs[0], item, person, first)
    &&& spec_is_period(item) ==> is_boundary_event(
        evs[1],
        spec_boundary_type(section, true),
        start_title(item),
        item.start@,
        person,
        EventBoundaryKind::Start,
        next_id(first, 1),
    )
    &&& spec_end(item) matches Some(t) ==> is_boundary_event(
        evs[2],
        spec_boundary_type(section, false),
        end_title(item),
        t,
        person,
        EventBoundaryKind::End,
        next_id(first, 2),
    )
}

/// `events` are, item after item, the events the items compile to, with
/// ids counting up from 1.
pub open spec fn compiled_events(
    events: Seq<TimelineEvent>,
    items: Seq<TimelineSourceItem>,
    person: PersonId,
) -> bool
    decreases items.len(),
{
    if items.len() == 0 {
        events.len() == 0
    } else {
        let c = item_event_count(items.last());
        let m = events.len() - c;
        &&& m >= 0
        &&& compiled_events(events.take(m), items.drop_last(), person)
        &&& item_events_ok(events.skip(m), items.last(), person, EventId((m + 1) as u64))
    }
}

/// The relations that tie the main event of an item (under `first`) to its
/// boundary events.
pub open spec fn item_relations(item: TimelineSourceItem, first: EventId) -> Seq<EventRelation> {
    (if spec_is_period(item) {
        seq![EventRelation { parent_event_id: first, child_event_id: next_id(first, 1), kind: EventRelationKind::Starts }]
    } else {
        seq![]
    }) + (if spec_end(item).is_some() {
        seq![EventRelation { parent_event_id: first, child_event_id: next_id(first, 2), kind: EventRelationKind::Ends }]
    } else {
        seq![]
    })
}

/// The id of the main event of the `k`-th item.
pub open spec fn main_id(items: Seq<TimelineSourceItem>, k: int) -> EventId {
    EventId((event_total(items.take(k)) + 1) as u64)
}

pub open spec fn boundary_relations(items: Seq<TimelineSourceItem>) -> Seq<EventRelation>
    decreases items.len(),
{
    if items.len() == 0 {
        seq![]
    } else {
        boundary_relations(items.drop_last()) + item_relations(
            items.last(),
            EventId((event_total(items.drop_last()) + 1) as u64),
        )
    }
}

/// Index of the first item of section `life`.
pub open spec fn first_life(items: Seq<TimelineSourceItem>) -> Option<int>
    decreases items.len(),
{
    if items.len() == 0 {
        None
    } else {
        match first_life(items.drop_last()) {
            Some(j) => Some(j),
            None => if trim_seq(items.last().section@) == "life"@ {
                Some(items.len() - 1)
            } else {
                None
            },
        }
    }
}

/// `OccursWithin` relations from the life event to the main events of the
/// first `n` items that are periods of another section.
pub open spec fn within_relations(items: Seq<TimelineSourceItem>, life: EventId, n: int) -> Seq<
    EventRelation,
>
    decreases n,
{
    if n <= 0 {
        seq![]
    } else {
        let prev = within_relations(items, life, n - 1);
        let k = n - 1;
        let id = main_id(items, k);
        if id != life && spec_is_period(items[k]) && trim_seq(items[k].section@) != "life"@ {
            prev.push(
                EventRelation { parent_event_id: life, child_event_id: id, kind: EventRelationKind::OccursWithin },
            )
        } else {
            prev
        }
    }
}

pub open spec fn life_relations(items: Seq<TimelineSourceItem>) -> Seq<EventRelation> {
    match first_life(items) {
        Some(l) => within_relations(items, main_id(items, l), items.len() as int),
        None => seq![],
    }
}

/// Every event has id one more than its position.
pub open spec fn ids_count_up(events: Seq<TimelineEvent>) -> bool {
    forall|i: int| 0 <= i < events.len() ==> (#[trigger] events[i]).id == EventId((i + 1) as u64)
}

pub proof fn lemma_ids_count_up_max(events: Seq<TimelineEvent>)
    requires
        ids_count_up(events),
        events.len() < u64::MAX,
    ensures
        max_event_id(events) == events.len(),
    decreases events.len(),
{
    if events.len() > 0 {
        let d = events.drop_last();
        assert forall|i: int| 0 <= i < d.len() implies (#[trigger] d[i]).id == EventId((i + 1) as u64) by {
            assert(d[i] == events[i]);
        }
        lemma_ids_count_up_max(d);
        assert(events[events.len() - 1].id == EventId(events.len() as u64));
    }
}

#[derive(Debug, Clone, PartialEq, Eq)]
struct CompiledSourceItem {
    event_id: EventId,
    section: String,
    is_period: bool,
}

fn trimmed_end(item: &TimelineSourceItem) -> (r: Option<String>)
    ensures
        opt_view(r) == spec_end(*item),
{
    match &item.end {
        Some(e) => {
            if is_blank_str(e.as_str()) {
                None
            } else {
                Some(trim(e.as_str()))
            }
        },
        None => None,
    }
}

fn source_item_event_draft(item: &TimelineSourceItem, person_id: PersonId, is_period: bool) -> (r:
    ManualEventDraft)
    requires
        is_period == spec_is_period(*item),
    ensures
        r.id.is_none(),
        forall|id: EventId| is_item_event(#[trigger] draft_event(r, id), *item, person_id, id),
{
    let section = trim(item.section.as_str());
    let event_type = source_event_type(section.as_str(), is_period);
    let draft = ManualEventDraft::new(EventTypeId::new(event_type), item.title.as_str())
        .with_participant(EventParticipant::person(person_id, source_role(section.as_str())));
    let end = trimmed_end(item);
    let draft = if is_period {
        let end_date = match end {
            Some(v) => Some(DateValue::from_original(v, Provenance::empty())),
            None => None,
        };
        draft.with_time(
            TimeSpec::Range {
                start: Some(DateValue::from_original(item.start.clone(), Provenance::empty())),
                end: end_date,
            },
        ).with_composition_kind(EventCompositionKind::Composite).with_temporal_kind(
            EventTemporalKind::Interval,
        )
    } else {
        draft.with_time(
            TimeSpec::from_date_value(DateValue::from_original(item.start.clone(), Provenance::empty())),
        ).with_composition_kind(EventCompositionKind::Atomic).with_temporal_kind(
            EventTemporalKind::Instant,
        )
    };
    let description = source_description(&item.place, &item.details);
    if description.as_str().unicode_len() != 0 {
        draft.with_description(description.as_str())
    } else {
        draft
    }
}

fn boundary_draft_for_source_item(
    event_type: &str,
    title: &str,
    date: &str,
    person_id: PersonId,
    boundary: EventBoundaryKind,
) -> (r: ManualEventDraft)
    ensures
        r.id.is_none(),
        forall|id: EventId|
            is_boundary_event(
                #[trigger] draft_event(r, id),
                event_type@,
                title@,
                date@,
                person_id,
                boundary,
                id,
            ),
{
    ManualEventDraft::new(EventTypeId::new(event_type), title).with_time(
        TimeSpec::from_date_value(DateValue::from_original(date.to_owned(), Provenance::empty())),
    ).with_composition_kind(EventCompositionKind::Atomic).with_temporal_kind(
        EventTemporalKind::Instant,
    ).with_boundary_kind(boundary).with_participant(
        EventParticipant::person(person_id, source_role_for_event_type(event_type)),
    )
}

fn label_or_default(label: &Option<String>, prefix: &str, title: &str) -> (r: String)
    ensures
        r@ == label_or(*label, prefix@ + title@),
{
    match label {
        Some(l) => {
            if !is_blank_str(l.as_str()) {
                return l.clone();
            }
        },
        None => {},
    }
    let mut r = prefix.to_owned();
    r.append(title);
    r
}

/// The pack of `b` with other events and relations, everything else kept.
pub open spec fn same_but_events(a: EventPack, b: EventPack) -> bool {
    a == (EventPack { events: a.events, event_relations: a.event_relations, ..b })
}

fn add_source_item_to_pack(
    builder: &mut EventPackBuilder,
    item: &TimelineSourceItem,
    person_id: PersonId,
) -> (r: CompiledSourceItem)
    requires
        ids_count_up(old(builder).spec_pack().events@),
        old(builder).spec_pack().events@.len() + 3 < u64::MAX,
    ensures
        same_but_events(final(builder).spec_pack(), old(builder).spec_pack()),
        ({
            let n = old(builder).spec_pack().events@.len();
            let evs = final(builder).spec_pack().events@;
            &&& evs.len() == n + item_event_count(*item)
            &&& evs.take(n as int) == old(builder).spec_pack().events@
            &&& item_events_ok(evs.skip(n as int), *item, person_id, EventId((n + 1) as u64))
            &&& final(builder).spec_pack().event_relations@ == old(
                builder,
            ).spec_pack().event_relations@ + item_relations(*item, EventId((n + 1) as u64))
            &&& r.event_id == EventId((n + 1) as u64)
        }),
        ids_count_up(final(builder).spec_pack().events@),
        r.section@ == trim_seq(item.section@),
        r.is_period == spec_is_period(*item),
{
    let ghost old_pack = builder.spec_pack();
    let ghost n = old_pack.events@.len();
    let section = trim(item.section.as_str());
    let end = trimmed_end(item);
    let is_period = end.is_some() || item.current;
    proof {
        lemma_ids_count_up_max(old_pack.events@);
    }
    let event_id = builder.add_manual_event(source_item_event_draft(item, person_id, is_period));
    assert(event_id == EventId((n + 1) as u64));
    let ghost p1 = builder.spec_pack();
    assert(ids_count_up(p1.events@)) by {
        assert forall|i: int| 0 <= i < p1.events@.len() implies (#[trigger] p1.events@[i]).id
            == EventId((i + 1) as u64) by {
            if i < n {
                assert(p1.events@[i] == old_pack.events@[i]);
            }
        }
    }
    if is_period {
        let start_title = label_or_default(&item.start_label, "Started ", item.title.as_str());
        proof {
            lemma_ids_count_up_max(p1.events@);
        }
        let start_boundary_id = builder.add_manual_event(
            boundary_draft_for_source_item(
                source_boundary_type(section.as_str(), true),
                start_title.as_str(),
                item.start.as_str(),
                person_id,
                EventBoundaryKind::Start,
            ),
        );
        builder.add_event_relation(
            EventRelation::new(event_id, start_boundary_id, EventRelationKind::Starts),
        );
        let ghost p2 = builder.spec_pack();
        assert(ids_count_up(p2.events@)) by {
            assert forall|i: int| 0 <= i < p2.events@.len() implies (#[trigger] p2.events@[i]).id
                == EventId((i + 1) as u64) by {
                if i < n + 1 {
                    assert(p2.events@[i] == p1.events@[i]);
                }
            }
        }
        match &end {
            Some(end) => {
                let end_title = label_or_default(&item.end_label, "Ended ", item.title.as_str());
                proof {
                    lemma_ids_count_up_max(p2.events@);
                }
                let end_boundary_id = builder.add_manual_event(
                    boundary_draft_for_source_item(
                        source_boundary_type(section.as_str(), false),
                        end_title.as_str(),
                        end.as_str(),
                        person_id,
                        EventBoundaryKind::End,
                    ),
                );
                builder.add_event_relation(
                    EventRelation::new(event_id, end_boundary_id, EventRelationKind::Ends),
                );
                let ghost p3 = builder.spec_pack();
                assert(ids_count_up(p3.events@)) by {
                    assert forall|i: int| 0 <= i < p3.events@.len() implies (
                    #[trigger] p3.events@[i]).id == EventId((i + 1) as u64) by {
                        if i < n + 2 {
                            assert(p3.events@[i] == p2.events@[i]);
                        }
                    }
                }
                assert(p3.events@.take(n as int) =~= old_pack.events@);
                assert(p3.events@.skip(n as int)[0] == p1.events@[n as int]);
                assert(p3.events@.skip(n as int)[1] == p2.events@[n as int + 1]);
                assert(p3.event_relations@ =~= old_pack.event_relations@ + item_relations(
                    *item,
                    EventId((n + 1) as u64),
                ));
            },
            None => {
                assert(p2.events@.take(n as int) =~= old_pack.events@);
                assert(p2.events@.skip(n as int)[0] == p1.events@[n as int]);
                assert(p2.event_relations@ =~= old_pack.event_relations@ + item_relations(
                    *item,
                    EventId((n + 1) as u64),
                ));
            },
        }
    } else {
        assert(p1.events@.take(n as int) =~= old_pack.events@);
        assert(p1.event_relations@ =~= old_pack.event_relations@ + item_relations(
            *item,
            EventId((n + 1) as u64),
        ));
    }
    CompiledSourceItem { event_id, section, is_period }
}

fn add_life_containment_relations(
    builder: &mut EventPackBuilder,
    compiled: &Vec<CompiledSourceItem>,
    Ghost(items): Ghost<Seq<TimelineSourceItem>>,
)
    requires
        compiled@.len() == items.len(),
        forall|k: int|
            0 <= k < items.len() ==> {
                &&& (#[trigger] compiled@[k]).event_id == main_id(items, k)
                &&& compiled@[k].section@ == trim_seq(items[k].section@)
                &&& compiled@[k].is_period == spec_is_period(items[k])
            },
    ensures
        final(builder).spec_pack() == (EventPack {
            event_relations: final(builder).spec_pack().event_relations,
            ..old(builder).spec_pack()
        }),
        final(builder).spec_pack().event_relations@ == old(builder).spec_pack().event_relations@
            + life_relations(items),
{
    let n = compiled.len();
    let mut life: Option<EventId> = None;
    let mut i: usize = 0;
    while i < n
        invariant_except_break
            life.is_none(),
        invariant
            n == items.len(),
            compiled@.len() == items.len(),
            forall|k: int|
                0 <= k < items.len() ==> {
                    &&& (#[trigger] compiled@[k]).event_id == main_id(items, k)
                    &&& compiled@[k].section@ == trim_seq(items[k].section@)
                },
            i <= n,
            first_life(items.take(i as int)).is_none(),
        ensures
            life.is_none() ==> i == n,
            life matches Some(id) ==> i < n && first_life(items) == Some(i as int) && id == main_id(
                items,
                i as int,
            ),
        decreases n - i,
    {
        assert(items.take(i + 1).drop_last() =~= items.take(i as int));
        if str_eq(compiled[i].section.as_str(), "life") {
            proof {
                lemma_first_life_prefix(items, i + 1);
            }
            life = Some(compiled[i].event_id);
            break;
        }
        i = i + 1;
    }
    let life_id = match life {
        Some(id) => id,
        None => {
            assert(items.take(n as int) =~= items);
            assert(life_relations(items) =~= Seq::<EventRelation>::empty());
            assert(builder.spec_pack().event_relations@ =~= old(builder).spec_pack().event_relations@
                + life_relations(items));
            return;
        },
    };
    let ghost old_pack = builder.spec_pack();
    let ghost l = i as int;
    assert(first_life(items) == Some(l));
    let mut k: usize = 0;
    while k < n
        invariant
            n == items.len(),
            compiled@.len() == items.len(),
            forall|j: int|
                0 <= j < items.len() ==> {
                    &&& (#[trigger] compiled@[j]).event_id == main_id(items, j)
                    &&& compiled@[j].section@ == trim_seq(items[j].section@)
                    &&& compiled@[j].is_period == spec_is_period(items[j])
                },
            life_id == main_id(items, l),
            k <= n,
            builder.spec_pack() == (EventPack {
                event_relations: builder.spec_pack().event_relations,
                ..old_pack
            }),
            builder.spec_pack().event_relations@ == old_pack.event_relations@ + within_relations(
                items,
                life_id,
                k as int,
            ),
        decreases n - k,
    {
        let item = &compiled[k];
        if item.event_id != life_id && item.is_period && !str_eq(item.section.as_str(), "life") {
            builder.add_event_relation(
                EventRelation::new(life_id, item.event_id, EventRelationKind::OccursWithin),
            );
        }
        k = k + 1;
    }
}

proof fn lemma_first_life_prefix(items: Seq<TimelineSourceItem>, m: int)
    requires
        0 < m <= items.len(),
        trim_seq(items[m - 1].section@) == "life"@,
        first_life(items.take(m - 1)).is_none(),
    ensures
        first_life(items) == Some(m - 1),
    decreases items.len(),
{
    if items.len() > m {
        assert(items.drop_last().take(m - 1) =~= items.take(m - 1));
        lemma_first_life_prefix(items.drop_last(), m);
    } else {
        assert(items.drop_last() =~= items.take(m - 1));
    }
}

/// Compiles a timeline source into a biography (or other) pack for its
/// person: each item becomes an event, each period also gets start and end
/// boundary events tied to it by `Starts` and `Ends` relations, and every
/// other period lies within the `life` period, when there is one.
/// `r` is the pack that `source` compiles to.
pub open spec fn compiled_from(source: TimelineSource, r: EventPack) -> bool {
    &&& r.metadata.id.0@ == spec_pack_id(source.meta)
    &&& r.metadata.title@ == source.meta.title@
    &&& r.metadata.version@ == "0.1.0"@
    &&& r.metadata.description == source.meta.description
    &&& r.metadata.author.is_none()
    &&& r.metadata.license.is_none()
    &&& r.metadata.created_at.is_none()
    &&& r.metadata.updated_at.is_none()
    &&& r.kind == spec_pack_kind(source.meta.kind)
    &&& r.domain_profiles@.len() == 1
    &&& is_genealogy_profile(r.domain_profiles@[0])
    &&& r.entities@.len() == 0
    &&& r.event_collections@.len() == 0
    &&& r.sources@.len() == 0
    &&& r.tags@.len() == 0
    &&& r.provenance.is_empty_spec()
    &&& compiled_events(r.events@, source.items@, spec_person(source.meta))
    &&& r.event_relations@ == boundary_relations(source.items@) + life_relations(source.items@)
}

/// A source small enough that its event ids fit in `u64`.
pub open spec fn compilable(source: TimelineSource) -> bool {
    3 * source.items@.len() + 3 < u64::MAX
}

pub fn event_pack_from_timeline_source(source: &TimelineSource) -> (r: EventPack)
    requires
        compilable(*source),
    ensures
        compiled_from(*source, r),
{
    let person_id = PersonId(
        match source.meta.person_id {
            Some(p) => p,
            None => 1000,
        },
    );
    let pack_id = match &source.meta.id {
        Some(id) => id.clone(),
        None => stable_pack_id_from_title(source.meta.title.as_str()),
    };
    let mut metadata = PackMetadata::new(PackId::new(pack_id.as_str()), source.meta.title.as_str());
    metadata.description = clone_opt(&source.meta.description);
    let mut builder = EventPackBuilder::new(metadata, source_pack_kind(source.meta.kind));
    builder.add_domain_profile(genealogy_domain_profile());
    let ghost items = source.items@;
    let ghost start_pack = builder.spec_pack();
    let n = source.items.len();
    let mut compiled: Vec<CompiledSourceItem> = Vec::new();
    let mut i: usize = 0;
    while i < n
        invariant
            n == items.len(),
            items == source.items@,
            3 * n + 3 < u64::MAX,
            i <= n,
            person_id == spec_person(source.meta),
            same_but_events(builder.spec_pack(), start_pack),
            start_pack.event_relations@.len() == 0,
            ids_count_up(builder.spec_pack().events@),
            builder.spec_pack().events@.len() == event_total(items.take(i as int)),
            event_total(items.take(i as int)) <= 3 * i,
            compiled_events(builder.spec_pack().events@, items.take(i as int), person_id),
            builder.spec_pack().event_relations@ == boundary_relations(items.take(i as int)),
            compiled@.len() == i,
            forall|k: int|
                0 <= k < i ==> {
                    &&& (#[trigger] compiled@[k]).event_id == main_id(items, k)
                    &&& compiled@[k].section@ == trim_seq(items[k].section@)
                    &&& compiled@[k].is_period == spec_is_period(items[k])
                },
        decreases n - i,
    {
        let ghost before = builder.spec_pack();
        let c = add_source_item_to_pack(&mut builder, &source.items[i], person_id);
        compiled.push(c);
        proof {
            let t = items.take(i + 1);
            assert(t.drop_last() =~= items.take(i as int));
            assert(t.last() == items[i as int]);
            let evs = builder.spec_pack().events@;
            let m = before.events@.len();
            assert(evs.len() - item_event_count(t.last()) == m);
            assert(evs.take(m as int) == before.events@);
            assert(main_id(items, i as int) == EventId((m + 1) as u64));
        }
        i = i + 1;
    }
    assert(items.take(n as int) =~= items);
    add_life_containment_relations(&mut builder, &compiled, Ghost(items));
    builder.into_pack()
}

// ---------------------------------------------------------------------------
// Exporting a pack back to a source.

/// The first person among the participants.
pub open spec fn person_in(ps: Seq<EventParticipant>) -> Option<u64>
    decreases ps.len(),
{
    if ps.len() == 0 {
        None
    } else {
        match person_in(ps.drop_last()) {
            Some(p) => Some(p),
            None => match ps.last().entity {
                EntityRef::Person(p) => Some(p.0),
                _ => None,
            },
        }
    }
}

/// The first person taking part in any of the events, in event order.
pub open spec fn first_person(events: Seq<TimelineEvent>) -> Option<u64>
    decreases events.len(),
{
    if events.len() == 0 {
        None
    } else {
        match first_person(events.drop_last()) {
            Some(p) => Some(p),
            None => person_in(events.last().participants@),
        }
    }
}

/// `id` is the child of a `Starts` or `Ends` relation.
pub open spec fn is_boundary_child(rels: Seq<EventRelation>, id: EventId) -> bool {
    exists|i: int|
        0 <= i < rels.len() && (#[trigger] rels[i]).child_event_id == id && (rels[i].kind
            == EventRelationKind::Starts || rels[i].kind == EventRelationKind::Ends)
}

/// Title of the last event with id `id`.
pub open spec fn last_title(events: Seq<TimelineEvent>, id: EventId) -> Option<Seq<char>>
    decreases events.len(),
{
    if events.len() == 0 {
        None
    } else if events.last().id == id {
        Some(events.last().title@)
    } else {
        last_title(events.drop_last(), id)
    }
}

/// Title of the child of the last `Starts` (`starts`) or `Ends` relation of
/// `parent` whose child is an event of the pack.
pub open spec fn boundary_label(
    events: Seq<TimelineEvent>,
    rels: Seq<EventRelation>,
    parent: EventId,
    starts: bool,
) -> Option<Seq<char>>
    decreases rels.len(),
{
    if rels.len() == 0 {
        None
    } else {
        let r = rels.last();
        let kind_matches = if starts {
            r.kind == EventRelationKind::Starts
        } else {
            r.kind == EventRelationKind::Ends
        };
        if r.parent_event_id == parent && kind_matches && last_title(
            events,
            r.child_event_id,
        ).is_some() {
            last_title(events, r.child_event_id)
        } else {
            boundary_label(events, rels.drop_last(), parent, starts)
        }
    }
}

/// Start text, end text and whether the period is ongoing, for a time that
/// has a start.
pub open spec fn spec_time_fields(time: TimeSpec, is_interval: bool) -> Option<
    (Seq<char>, Option<Seq<char>>, bool),
> {
    match time {
        TimeSpec::Unknown => None,
        TimeSpec::Date(d) => Some((d.spec_display(), None, false)),
        TimeSpec::Approximate { value } => Some((value.spec_display(), None, false)),
        TimeSpec::Range { start, end } => match start {
            None => None,
            Some(s) => Some(
                (
                    s.spec_display(),
                    match end {
                        Some(e) => Some(e.spec_display()),
                        None => None,
                    },
                    is_interval && end.is_none(),
                ),
            ),
        },
        TimeSpec::Before(d) => Some((d.spec_display(), None, false)),
        TimeSpec::After(d) => Some((d.spec_display(), None, false)),
        TimeSpec::Between { start, end } => Some(
            (start.spec_display(), Some(end.spec_display()), false),
        ),
        TimeSpec::OriginalOnly { original } => Some((original@, None, false)),
    }
}

/// An event is exported when it is no boundary of another and its time has
/// a start.
pub open spec fn is_exported(e: TimelineEvent, rels: Seq<EventRelation>) -> bool {
    !is_boundary_child(rels, e.id) && spec_time_fields(
        e.time,
        e.temporal == EventTemporalKind::Interval,
    ).is_some()
}

/// Indices of the exported events among the first `n`.
pub open spec fn exported_indices(events: Seq<TimelineEvent>, rels: Seq<EventRelation>, n: int) -> Seq<
    int,
>
    decreases n,
{
    if n <= 0 {
        seq![]
    } else {
        let prev = exported_indices(events, rels, n - 1);
        if is_exported(events[n - 1], rels) {
            prev.push(n - 1)
        } else {
            prev
        }
    }
}

pub proof fn lemma_exported_indices(events: Seq<TimelineEvent>, rels: Seq<EventRelation>, n: int)
    requires
        0 <= n,
    ensures
        forall|k: int|
            0 <= k < exported_indices(events, rels, n).len() ==> 0 <= #[trigger] exported_indices(
                events,
                rels,
                n,
            )[k] < n,
        exported_indices(events, rels, n).len() <= n,
    decreases n,
{
    if n > 0 {
        lemma_exported_indices(events, rels, n - 1);
    }
}

/// The first `n` items are exported, in order, from the exported events.
pub open spec fn items_exported(
    items: Seq<TimelineSourceItem>,
    events: Seq<TimelineEvent>,
    rels: Seq<EventRelation>,
    n: int,
) -> bool {
    let idx = exported_indices(events, rels, n);
    &&& items.len() == idx.len()
    &&& forall|k: int| 0 <= k < idx.len() ==> exported_at(#[trigger] items[k], idx[k], events, rels)
}

/// `item` is exported from the event at index `j`.
pub open spec fn exported_at(
    item: TimelineSourceItem,
    j: int,
    events: Seq<TimelineEvent>,
    rels: Seq<EventRelation>,
) -> bool {
    0 <= j < events.len() && exported_item(item, events[j], events, rels)
}

proof fn lemma_items_exported_skip(
    items: Seq<TimelineSourceItem>,
    events: Seq<TimelineEvent>,
    rels: Seq<EventRelation>,
    i: int,
)
    requires
        items_exported(items, events, rels, i),
        exported_indices(events, rels, i + 1) == exported_indices(events, rels, i),
    ensures
        items_exported(items, events, rels, i + 1),
{
    let a = exported_indices(events, rels, i);
    let b = exported_indices(events, rels, i + 1);
    assert forall|k: int| 0 <= k < b.len() implies exported_at(#[trigger] items[k], b[k], events, rels) by {
        assert(exported_at(items[k], a[k], events, rels));
    }
}

proof fn lemma_items_exported_push(
    items: Seq<TimelineSourceItem>,
    item: TimelineSourceItem,
    events: Seq<TimelineEvent>,
    rels: Seq<EventRelation>,
    i: int,
)
    requires
        0 <= i < events.len(),
        items_exported(items, events, rels, i),
        exported_indices(events, rels, i + 1) == exported_indices(events, rels, i).push(i),
        exported_item(item, events[i], events, rels),
    ensures
        items_exported(items.push(item), events, rels, i + 1),
{
    let prev = exported_indices(events, rels, i);
    let next = exported_indices(events, rels, i + 1);
    let s = items.push(item);
    assert forall|k: int| 0 <= k < next.len() implies exported_at(#[trigger] s[k], next[k], events, rels) by {
        if k < prev.len() {
            assert(s[k] == items[k]);
            assert(exported_at(items[k], prev[k], events, rels));
        }
    }
}

/// `item` is the source item exported from event `e` of the pack.
pub open spec fn exported_item(
    item: TimelineSourceItem,
    e: TimelineEvent,
    events: Seq<TimelineEvent>,
    rels: Seq<EventRelation>,
) -> bool {
    let f = spec_time_fields(e.time, e.temporal == EventTemporalKind::Interval).unwrap();
    let parts = spec_split_description(opt_view(e.description));
    &&& item.section@ == spec_section_label(e.type_ref.0@)
    &&& item.title@ == e.title@
    &&& item.start@ == f.0
    &&& opt_view(item.end) == f.1
    &&& item.current == f.2
    &&& opt_view(item.place) == parts.0
    &&& opt_view(item.details) == parts.1
    &&& opt_view(item.start_label) == boundary_label(events, rels, e.id, true)
    &&& opt_view(item.end_label) == boundary_label(events, rels, e.id, false)
}

/// Every event that is exported can be displayed.
pub open spec fn exportable(pack: EventPack) -> bool {
    forall|i: int|
        0 <= i < pack.events@.len() && !is_boundary_child(
            pack.event_relations@,
            (#[trigger] pack.events@[i]).id,
        ) ==> pack.events@[i].time.displayable()
}

/// `r` is the source exported from `pack`.
pub open spec fn exported_from(pack: EventPack, r: TimelineSource) -> bool {
    let events = pack.events@;
    let rels = pack.event_relations@;
    let idx = exported_indices(events, rels, events.len() as int);
    &&& r.meta.id matches Some(id) && id@ == pack.metadata.id.0@
    &&& r.meta.title@ == pack.metadata.title@
    &&& r.meta.kind == spec_kind_from_pack_kind(pack.kind)
    &&& r.meta.description == pack.metadata.description
    &&& r.meta.subject.is_none()
    &&& r.meta.person_id == Some(
        match first_person(events) {
            Some(p) => p,
            None => 1000u64,
        },
    )
    &&& items_exported(r.items@, events, rels, events.len() as int)
}

fn person_in_participants(ps: &Vec<EventParticipant>) -> (r: Option<u64>)
    ensures
        r == person_in(ps@),
{
    let n = ps.len();
    let mut i: usize = 0;
    while i < n
        invariant
            n == ps@.len(),
            i <= n,
            person_in(ps@.take(i as int)).is_none(),
        decreases n - i,
    {
        assert(ps@.take(i + 1).drop_last() =~= ps@.take(i as int));
        match ps[i].entity {
            EntityRef::Person(p) => {
                proof {
                    lemma_person_in_prefix(ps@, i + 1);
                }
                return Some(p.0);
            },
            _ => {},
        }
        i = i + 1;
    }
    assert(ps@.take(n as int) =~= ps@);
    None
}

proof fn lemma_person_in_prefix(ps: Seq<EventParticipant>, m: int)
    requires
        0 < m <= ps.len(),
        ps[m - 1].entity is Person,
        person_in(ps.take(m - 1)).is_none(),
    ensures
        person_in(ps) == Some(ps[m - 1].entity->Person_0.0),
    decreases ps.len(),
{
    if ps.len() > m {
        assert(ps.drop_last().take(m - 1) =~= ps.take(m - 1));
        lemma_person_in_prefix(ps.drop_last(), m);
    } else {
        assert(ps.drop_last() =~= ps.take(m - 1));
    }
}

proof fn lemma_first_person_prefix(events: Seq<TimelineEvent>, m: int)
    requires
        0 < m <= events.len(),
        person_in(events[m - 1].participants@).is_some(),
        first_person(events.take(m - 1)).is_none(),
    ensures
        first_person(events) == person_in(events[m - 1].participants@),
    decreases events.len(),
{
    if events.len() > m {
        assert(events.drop_last().take(m - 1) =~= events.take(m - 1));
        lemma_first_person_prefix(events.drop_last(), m);
    } else {
        assert(events.drop_last() =~= events.take(m - 1));
    }
}

fn pack_person(events: &Vec<TimelineEvent>) -> (r: u64)
    ensures
        r == match first_person(events@) {
            Some(p) => p,
            None => 1000u64,
        },
{
    let n = events.len();
    let mut i: usize = 0;
    while i < n
        invariant
            n == events@.len(),
            i <= n,
            first_person(events@.take(i as int)).is_none(),
        decreases n - i,
    {
        assert(events@.take(i + 1).drop_last() =~= events@.take(i as int));
        match person_in_participants(&events[i].participants) {
            Some(p) => {
                proof {
                    lemma_first_person_prefix(events@, i + 1);
                }
                return p;
            },
            None => {},
        }
        i = i + 1;
    }
    assert(events@.take(n as int) =~= events@);
    1000
}

fn boundary_child(rels: &Vec<EventRelation>, id: EventId) -> (r: bool)
    ensures
        r == is_boundary_child(rels@, id),
{
    let n = rels.len();
    let mut i: usize = 0;
    while i < n
        invariant
            n == rels@.len(),
            i <= n,
            forall|j: int|
                0 <= j < i ==> !((#[trigger] rels@[j]).child_event_id == id && (rels@[j].kind
                    == EventRelationKind::Starts || rels@[j].kind == EventRelationKind::Ends)),
        decreases n - i,
    {
        let rel = &rels[i];
        let is_bound = match rel.kind {
            EventRelationKind::Starts | EventRelationKind::Ends => true,
            _ => false,
        };
        if rel.child_event_id == id && is_bound {
            return true;
        }
        i = i + 1;
    }
    false
}

fn title_of_last(events: &Vec<TimelineEvent>, id: EventId) -> (r: Option<String>)
    ensures
        opt_view(r) == last_title(events@, id),
{
    let n = events.len();
    let mut found: Option<String> = None;
    let mut i: usize = 0;
    while i < n
        invariant
            n == events@.len(),
            i <= n,
            opt_view(found) == last_title(events@.take(i as int), id),
        decreases n - i,
    {
        assert(events@.take(i + 1).drop_last() =~= events@.take(i as int));
        if events[i].id == id {
            found = Some(events[i].title.clone());
        }
        i = i + 1;
    }
    assert(events@.take(n as int) =~= events@);
    found
}

fn label_of(events: &Vec<TimelineEvent>, rels: &Vec<EventRelation>, parent: EventId, starts: bool) -> (r:
    Option<String>)
    ensures
        opt_view(r) == boundary_label(events@, rels@, parent, starts),
{
    let n = rels.len();
    let mut found: Option<String> = None;
    let mut i: usize = 0;
    while i < n
        invariant
            n == rels@.len(),
            i <= n,
            opt_view(found) == boundary_label(events@, rels@.take(i as int), parent, starts),
        decreases n - i,
    {
        assert(rels@.take(i + 1).drop_last() =~= rels@.take(i as int));
        let rel = &rels[i];
        let kind_matches = match rel.kind {
            EventRelationKind::Starts => starts,
            EventRelationKind::Ends => !starts,
            _ => false,
        };
        if rel.parent_event_id == parent && kind_matches {
            match title_of_last(events, rel.child_event_id) {
                Some(t) => {
                    found = Some(t);
                },
                None => {},
            }
        }
        i = i + 1;
    }
    assert(rels@.take(n as int) =~= rels@);
    found
}

fn source_time_fields(time: &TimeSpec, is_interval: bool) -> (r: Option<(String, Option<String>, bool)>)
    requires
        time.displayable(),
    ensures
        match (r, spec_time_fields(*time, is_interval)) {
            (Some(x), Some(y)) => x.0@ == y.0 && opt_view(x.1) == y.1 && x.2 == y.2,
            (None, None) => true,
            _ => false,
        },
{
    match time {
        TimeSpec::Unknown => None,
        TimeSpec::Date(d) => Some((d.display(), None, false)),
        TimeSpec::Approximate { value } => Some((value.display(), None, false)),
        TimeSpec::Range { start, end } => match start {
            None => None,
            Some(s) => {
                let end_text = match end {
                    Some(e) => Some(e.display()),
                    None => None,
                };
                Some((s.display(), end_text, is_interval && end.is_none()))
            },
        },
        TimeSpec::Before(d) => Some((d.display(), None, false)),
        TimeSpec::After(d) => Some((d.display(), None, false)),
        TimeSpec::Between { start, end } => Some((start.display(), Some(end.display()), false)),
        TimeSpec::OriginalOnly { original } => Some((original.clone(), None, false)),
    }
}

fn source_item_from_event(
    event: &TimelineEvent,
    events: &Vec<TimelineEvent>,
    rels: &Vec<EventRelation>,
) -> (r: Option<TimelineSourceItem>)
    requires
        event.time.displayable(),
    ensures
        r.is_some() == spec_time_fields(event.time, event.temporal == EventTemporalKind::Interval).is_some(),
        r matches Some(item) ==> exported_item(item, *event, events@, rels@),
{
    let fields = source_time_fields(&event.time, event.is_interval());
    let (start, end, current) = match fields {
        Some(f) => f,
        None => {
            return None;
        },
    };
    let (place, details) = split_source_description(&event.description);
    Some(
        TimelineSourceItem {
            section: source_section_label(event.type_ref.as_str()).to_owned(),
            title: event.title.clone(),
            start,
            end,
            current,
            place,
            details,
            start_label: label_of(events, rels, event.id, true),
            end_label: label_of(events, rels, event.id, false),
        },
    )
}

/// Exports a pack back to a timeline source: one item per event that has a
/// start and is no start or end boundary of another event; boundary titles
/// become the items' start and end labels.
pub fn timeline_source_from_event_pack(pack: &EventPack) -> (r: TimelineSource)
    requires
        exportable(*pack),
    ensures
        exported_from(*pack, r),
{
    let person_id = pack_person(&pack.events);
    let ghost events = pack.events@;
    let ghost rels = pack.event_relations@;
    let n = pack.events.len();
    let mut items: Vec<TimelineSourceItem> = Vec::new();
    let mut i: usize = 0;
    while i < n
        invariant
            n == events.len(),
            events == pack.events@,
            rels == pack.event_relations@,
            exportable(*pack),
            i <= n,
            items_exported(items@, events, rels, i as int),
        decreases n - i,
    {
        let event = &pack.events[i];
        let ghost prev = exported_indices(events, rels, i as int);
        if !boundary_child(&pack.event_relations, event.id) {
            assert(pack.events@[i as int] == *event);
            match source_item_from_event(event, &pack.events, &pack.event_relations) {
                Some(item) => {
                    let ghost before = items@;
                    assert(exported_item(item, events[i as int], events, rels));
                    items.push(item);
                    assert(exported_indices(events, rels, i + 1) == prev.push(i as int));
                    proof {
                        lemma_items_exported_push(before, item, events, rels, i as int);
                    }
                },
                None => {
                    assert(exported_indices(events, rels, i + 1) == prev);
                    proof {
                        lemma_items_exported_skip(items@, events, rels, i as int);
                    }
                },
            }
        } else {
            assert(exported_indices(events, rels, i + 1) == prev);
            proof {
                lemma_items_exported_skip(items@, events, rels, i as int);
            }
        }
        i = i + 1;
    }
    TimelineSource {
        meta: TimelineSourceMeta {
            id: Some(pack.metadata.id.as_str().to_owned()),
            title: pack.metadata.title.clone(),
            kind: source_kind_from_pack_kind(&pack.kind),
            description: clone_opt(&pack.metadata.description),
            subject: None,
            person_id: Some(person_id),
        },
        items,
    }
}

// ---------------------------------------------------------------------------
// Round trip: exporting a compiled source.

proof fn lemma_event_total_step(items: Seq<TimelineSourceItem>, k: int)
    requires
        0 <= k < items.len(),
    ensures
        event_total(items.take(k + 1)) == event_total(items.take(k)) + item_event_count(items[k]),
{
    assert(items.take(k + 1).drop_last() =~= items.take(k));
    assert(items.take(k + 1).last() == items[k]);
}

proof fn lemma_event_total_nonneg(items: Seq<TimelineSourceItem>)
    ensures
        0 <= event_total(items),
    decreases items.len(),
{
    if items.len() > 0 {
        lemma_event_total_nonneg(items.drop_last());
    }
}

proof fn lemma_event_total_bounds(items: Seq<TimelineSourceItem>, j: int, k: int)
    requires
        0 <= j <= k <= items.len(),
    ensures
        event_total(items.take(j)) + (k - j) <= event_total(items.take(k)),
        event_total(items.take(k)) <= event_total(items.take(j)) + 3 * (k - j),
        0 <= event_total(items.take(j)),
    decreases k - j,
{
    lemma_event_total_nonneg(items.take(j));
    if j < k {
        lemma_event_total_bounds(items, j, k - 1);
        lemma_event_total_step(items, k - 1);
    }
}

proof fn lemma_take_subrange<T>(s: Seq<T>, m: int, a: int, b: int)
    requires
        0 <= a <= b <= m <= s.len(),
    ensures
        s.take(m).subrange(a, b) == s.subrange(a, b),
{
    assert(s.take(m).subrange(a, b) =~= s.subrange(a, b));
}

proof fn lemma_compiled_len(events: Seq<TimelineEvent>, items: Seq<TimelineSourceItem>, person: PersonId)
    requires
        compiled_events(events, items, person),
    ensures
        events.len() == event_total(items),
    decreases items.len(),
{
    if items.len() > 0 {
        let m = events.len() - item_event_count(items.last());
        lemma_compiled_len(events.take(m), items.drop_last(), person);
    }
}

proof fn lemma_compiled_events_at(
    events: Seq<TimelineEvent>,
    items: Seq<TimelineSourceItem>,
    person: PersonId,
    k: int,
)
    requires
        compiled_events(events, items, person),
        0 <= k < items.len(),
    ensures
        item_events_ok(
            events.subrange(event_total(items.take(k)), event_total(items.take(k + 1))),
            items[k],
            person,
            main_id(items, k),
        ),
    decreases items.len(),
{
    let n = items.len();
    let d = items.drop_last();
    let c = item_event_count(items.last());
    let m = events.len() - c;
    lemma_compiled_len(events.take(m), d, person);
    lemma_compiled_len(events, items, person);
    assert(items.take(n - 1) =~= d);
    assert(items.take(n as int) =~= items);
    if k == n - 1 {
        assert(events.subrange(m, events.len() as int) =~= events.skip(m));
    } else {
        lemma_compiled_events_at(events.take(m), d, person, k);
        assert(d.take(k) =~= items.take(k));
        assert(d.take(k + 1) =~= items.take(k + 1));
        lemma_event_total_bounds(items, k, n - 1);
        lemma_event_total_bounds(items, k + 1, n - 1);
        lemma_event_total_step(items, k);
        lemma_take_subrange(events, m, event_total(items.take(k)), event_total(items.take(k + 1)));
    }
}

pub proof fn lemma_boundary_child_prefix(a: Seq<EventRelation>, b: Seq<EventRelation>, id: EventId)
    ensures
        is_boundary_child(a, id) ==> is_boundary_child(a + b, id),
        is_boundary_child(b, id) ==> is_boundary_child(a + b, id),
        is_boundary_child(a + b, id) ==> is_boundary_child(a, id) || is_boundary_child(b, id),
{
    if is_boundary_child(a, id) {
        let i = choose|i: int|
            0 <= i < a.len() && (#[trigger] a[i]).child_event_id == id && (a[i].kind
                == EventRelationKind::Starts || a[i].kind == EventRelationKind::Ends);
        assert((a + b)[i] == a[i]);
    }
    if is_boundary_child(b, id) {
        let i = choose|i: int|
            0 <= i < b.len() && (#[trigger] b[i]).child_event_id == id && (b[i].kind
                == EventRelationKind::Starts || b[i].kind == EventRelationKind::Ends);
        assert((a + b)[a.len() + i] == b[i]);
    }
    if is_boundary_child(a + b, id) {
        let i = choose|i: int|
            0 <= i < (a + b).len() && (#[trigger] (a + b)[i]).child_event_id == id && ((a + b)[i].kind
                == EventRelationKind::Starts || (a + b)[i].kind == EventRelationKind::Ends);
        if i < a.len() {
            assert(a[i] == (a + b)[i]);
        } else {
            assert(b[i - a.len()] == (a + b)[i]);
        }
    }
}

proof fn lemma_within_not_boundary(items: Seq<TimelineSourceItem>, life: EventId, n: int, id: EventId)
    ensures
        !is_boundary_child(within_relations(items, life, n), id),
    decreases n,
{
    if n > 0 {
        lemma_within_not_boundary(items, life, n - 1, id);
        let prev = within_relations(items, life, n - 1);
        let w = within_relations(items, life, n);
        if w != prev {
            let x = EventRelation {
                parent_event_id: life,
                child_event_id: main_id(items, n - 1),
                kind: EventRelationKind::OccursWithin,
            };
            assert(w == prev + seq![x]);
            lemma_boundary_child_prefix(prev, seq![x], id);
            if is_boundary_child(seq![x], id) {
                let i = choose|i: int|
                    0 <= i < 1 && (#[trigger] seq![x][i]).child_event_id == id && (seq![x][i].kind
                        == EventRelationKind::Starts || seq![x][i].kind == EventRelationKind::Ends);
                assert(seq![x][i] == x);
            }
        }
    }
}

proof fn lemma_life_not_boundary(items: Seq<TimelineSourceItem>, id: EventId)
    ensures
        !is_boundary_child(life_relations(items), id),
{
    match first_life(items) {
        Some(l) => lemma_within_not_boundary(items, main_id(items, l), items.len() as int, id),
        None => {},
    }
}

/// Every `Starts` or `Ends` relation of the compiled items points at an event
/// id no larger than the number of events.
proof fn lemma_boundary_children_bounded(items: Seq<TimelineSourceItem>, id: EventId)
    requires
        3 * items.len() + 3 < u64::MAX,
        is_boundary_child(boundary_relations(items), id),
    ensures
        2 <= id.0 <= event_total(items),
    decreases items.len(),
{
    let n = items.len();
    if n > 0 {
        let d = items.drop_last();
        let first = EventId((event_total(d) + 1) as u64);
        assert(items.take(n - 1) =~= d);
        assert(items.take(n as int) =~= items);
        lemma_event_total_bounds(items, n - 1, n as int);
        lemma_event_total_bounds(items, 0, n - 1);
        assert(items.take(0) =~= Seq::<TimelineSourceItem>::empty());
        lemma_boundary_child_prefix(boundary_relations(d), item_relations(items.last(), first), id);
        if is_boundary_child(boundary_relations(d), id) {
            lemma_boundary_children_bounded(d, id);
        } else {
            let b = item_relations(items.last(), first);
            let i = choose|i: int|
                0 <= i < b.len() && (#[trigger] b[i]).child_event_id == id && (b[i].kind
                    == EventRelationKind::Starts || b[i].kind == EventRelationKind::Ends);
        }
    }
}

proof fn lemma_main_not_boundary(items: Seq<TimelineSourceItem>, k: int)
    requires
        3 * items.len() + 3 < u64::MAX,
        0 <= k < items.len(),
    ensures
        !is_boundary_child(boundary_relations(items), main_id(items, k)),
    decreases items.len(),
{
    let n = items.len();
    let d = items.drop_last();
    let first = EventId((event_total(d) + 1) as u64);
    let id = main_id(items, k);
    assert(items.take(n - 1) =~= d);
    lemma_event_total_bounds(items, k, n - 1);
    lemma_event_total_bounds(items, 0, n - 1);
    assert(items.take(0) =~= Seq::<TimelineSourceItem>::empty());
    lemma_boundary_child_prefix(boundary_relations(d), item_relations(items.last(), first), id);
    if is_boundary_child(boundary_relations(d), id) {
        if k < n - 1 {
            lemma_main_not_boundary(d, k);
            assert(d.take(k) =~= items.take(k));
        } else {
            lemma_boundary_children_bounded(d, id);
        }
    }
    let b = item_relations(items.last(), first);
    if is_boundary_child(b, id) {
        let i = choose|i: int|
            0 <= i < b.len() && (#[trigger] b[i]).child_event_id == id && (b[i].kind
                == EventRelationKind::Starts || b[i].kind == EventRelationKind::Ends);
    }
}

proof fn lemma_boundaries_are_children(items: Seq<TimelineSourceItem>, k: int)
    requires
        3 * items.len() + 3 < u64::MAX,
        0 <= k < items.len(),
    ensures
        spec_is_period(items[k]) ==> is_boundary_child(
            boundary_relations(items),
            next_id(main_id(items, k), 1),
        ),
        spec_end(items[k]).is_some() ==> is_boundary_child(
            boundary_relations(items),
            next_id(main_id(items, k), 2),
        ),
    decreases items.len(),
{
    let n = items.len();
    let d = items.drop_last();
    let first = EventId((event_total(d) + 1) as u64);
    let b = item_relations(items.last(), first);
    assert(items.take(n - 1) =~= d);
    lemma_event_total_bounds(items, k, n - 1);
    lemma_event_total_bounds(items, 0, n - 1);
    assert(items.take(0) =~= Seq::<TimelineSourceItem>::empty());
    if k < n - 1 {
        lemma_boundaries_are_children(d, k);
        assert(d.take(k) =~= items.take(k));
        lemma_boundary_child_prefix(boundary_relations(d), b, next_id(main_id(items, k), 1));
        lemma_boundary_child_prefix(boundary_relations(d), b, next_id(main_id(items, k), 2));
    } else {
        assert(main_id(items, k) == first);
        if spec_is_period(items[k]) {
            assert(b[0].child_event_id == next_id(first, 1));
            lemma_boundary_child_prefix(boundary_relations(d), b, next_id(first, 1));
        }
        if spec_end(items[k]).is_some() {
            assert(b[1].child_event_id == next_id(first, 2));
            lemma_boundary_child_prefix(boundary_relations(d), b, next_id(first, 2));
        }
    }
}

proof fn lemma_source_date_display(d: DateValue, text: Seq<char>)
    requires
        is_source_date(d, text),
    ensures
        d.spec_display() == text,
        date_shows(d),
{
}

pub open spec fn date_shows(d: DateValue) -> bool {
    d.historical.is_none()
}

/// The exported events of a compiled pack are the main events of the items.
proof fn lemma_exported_mains(source: TimelineSource, pack: EventPack, k: int)
    requires
        compilable(source),
        compiled_from(source, pack),
        0 <= k <= source.items@.len(),
    ensures
        exported_indices(pack.events@, pack.event_relations@, event_total(source.items@.take(k)))
            =~= Seq::new(k as nat, |j: int| event_total(source.items@.take(j))),
    decreases k,
{
    let items = source.items@;
    let events = pack.events@;
    let rels = pack.event_relations@;
    let person = spec_person(source.meta);
    if k == 0 {
        assert(items.take(0) =~= Seq::<TimelineSourceItem>::empty());
    } else {
        lemma_exported_mains(source, pack, k - 1);
        let m = event_total(items.take(k - 1));
        let c = item_event_count(items[k - 1]);
        lemma_event_total_step(items, k - 1);
        lemma_event_total_bounds(items, k, items.len() as int);
        lemma_event_total_bounds(items, 0, k - 1);
        assert(items.take(0) =~= Seq::<TimelineSourceItem>::empty());
        lemma_compiled_len(events, items, person);
        assert(items.take(items.len() as int) =~= items);
        lemma_compiled_events_at(events, items, person, k - 1);
        let sub = events.subrange(m, m + c);
        let main = main_id(items, k - 1);
        assert(sub[0] == events[m]);
        lemma_main_not_boundary(items, k - 1);
        lemma_life_not_boundary(items, main);
        lemma_boundary_child_prefix(boundary_relations(items), life_relations(items), main);
        assert(is_exported(events[m], rels));
        let prev = Seq::new((k - 1) as nat, |j: int| event_total(items.take(j)));
        assert(exported_indices(events, rels, m + 1) == prev.push(m));
        lemma_boundaries_are_children(items, k - 1);
        if c >= 2 {
            assert(sub[1] == events[m + 1]);
            lemma_boundary_child_prefix(boundary_relations(items), life_relations(items), events[m + 1].id);
            assert(exported_indices(events, rels, m + 2) == prev.push(m));
        }
        if c >= 3 {
            assert(sub[2] == events[m + 2]);
            lemma_boundary_child_prefix(boundary_relations(items), life_relations(items), events[m + 2].id);
            assert(exported_indices(events, rels, m + 3) == prev.push(m));
        }
    }
}

/// Law: exporting the pack that a source compiles to gives back one item per
/// source item, in the same order, with the item's title and start date.
pub proof fn law_export_after_compile(source: TimelineSource, pack: EventPack, exported: TimelineSource)
    requires
        compilable(source),
        compiled_from(source, pack),
        exported_from(pack, exported),
    ensures
        exported.items@.len() == source.items@.len(),
        forall|k: int|
            0 <= k < source.items@.len() ==> (#[trigger] exported.items@[k]).title@
                == source.items@[k].title@ && exported.items@[k].start@ == source.items@[k].start@,
        exported.meta.title@ == source.meta.title@,
        exported.meta.id matches Some(id) && id@ == spec_pack_id(source.meta),
{
    let items = source.items@;
    let events = pack.events@;
    let rels = pack.event_relations@;
    let person = spec_person(source.meta);
    let n = items.len() as int;
    lemma_compiled_len(events, items, person);
    assert(items.take(n) =~= items);
    lemma_exported_mains(source, pack, n);
    let idx = exported_indices(events, rels, events.len() as int);
    assert forall|k: int| 0 <= k < n implies (#[trigger] exported.items@[k]).title@ == items[k].title@
        && exported.items@[k].start@ == items[k].start@ by {
        let m = event_total(items.take(k));
        assert(idx[k] == m);
        assert(exported_at(exported.items@[k], idx[k], events, rels));
        lemma_compiled_events_at(events, items, person, k);
        lemma_event_total_step(items, k);
        lemma_event_total_bounds(items, k + 1, n);
        let sub = events.subrange(m, event_total(items.take(k + 1)));
        assert(sub[0] == events[m]);
    }
}

/// Law: every pack that a source compiles to can be exported again (its
/// dates are all kept as written, so displaying them needs no arithmetic).
pub proof fn law_compiled_pack_is_exportable(source: TimelineSource, pack: EventPack)
    requires
        compilable(source),
        compiled_from(source, pack),
    ensures
        exportable(pack),
{
    let items = source.items@;
    let events = pack.events@;
    let person = spec_person(source.meta);
    lemma_compiled_len(events, items, person);
    assert forall|i: int| 0 <= i < events.len() && !is_boundary_child(
        pack.event_relations@,
        (#[trigger] events[i]).id,
    ) implies events[i].time.displayable() by {
        let k = choose_item(items, i);
        lemma_compiled_events_at(events, items, person, k);
        lemma_event_total_step(items, k);
        assert(items.take(items.len() as int) =~= items);
        lemma_event_total_bounds(items, k + 1, items.len() as int);
        lemma_event_total_nonneg(items.take(k));
        let m = event_total(items.take(k));
        let sub = events.subrange(m, event_total(items.take(k + 1)));
        assert(sub[i - m] == events[i]);
    }
}

/// The item whose events include position `i`.
proof fn choose_item(items: Seq<TimelineSourceItem>, i: int) -> (k: int)
    requires
        0 <= i < event_total(items),
    ensures
        0 <= k < items.len(),
        event_total(items.take(k)) <= i < event_total(items.take(k + 1)),
    decreases items.len(),
{
    let n = items.len() as int;
    let d = items.drop_last();
    assert(items.take(n) =~= items);
    assert(items.take(n - 1) =~= d);
    if i >= event_total(d) {
        n - 1
    } else {
        let k = choose_item(d, i);
        assert(d.take(k) =~= items.take(k));
        assert(d.take(k + 1) =~= items.take(k + 1));
        k
    }
}

} // verus!
