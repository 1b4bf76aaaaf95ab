//! Starter workspaces and worlds: the directory layout, configuration,
//! vocabularies, schema seeds, and a first person with a birth event.
use vstd::prelude::*;
use crate::local_authoring::config::{
    chosen_world_slug, entry_for, first_world, has_parent_component, is_absolute, lemma_first_world_from,
    parent_at, relative_path_error, WorkspaceConfig, WorldConfig,
};
use crate::local_authoring::error::{fails_with, LocalAuthoringError};
use crate::local_authoring::paths::{WorkspacePaths, WorldPaths, DEFAULT_WORLD_SLUG};
use crate::local_authoring::plan::{
    existing_rule, spec_existing_rule, text_file, text_file_new, ExistingFile, PlannedContent,
    PlannedFile, WritePlan,
};
use crate::local_authoring::records::first_error;
use crate::local_authoring::refs::{has_separator_or_space, is_separator_or_space, slug_error, validate_slug};
use crate::text::{
    char_is_whitespace, contains_char, escape_toml, escape_toml_basic, is_blank, is_unicode_whitespace,
    join_path, lead_ws, path_join, push_char, trail_ws, trim, trim_seq,
};

verus! {

broadcast use vstd::seq_lib::group_seq_properties;

pub const DEFAULT_PROJECT_ID: &'static str = "default";
pub const DEFAULT_PERSON_SLUG: &'static str = "example-person";
pub const DEFAULT_PLACE_ID: &'static str = "place:unknown-birth-place";
pub const DEFAULT_SOURCE_ID: &'static str = "source:personal-knowledge";

#[derive(Debug, PartialEq, Eq)]
pub struct LocalPersonOptions {
    pub person_slug: String,
    pub person_name: String,
    pub birth_date: Option<String>,
    pub create_birth_event: bool,
    pub force: bool,
}

fn prefixed(prefix: &str, value: &str) -> (r: String)
    ensures
        r@ == prefix@ + value@,
{
    let mut r = prefix.to_owned();
    r.append(value);
    r
}

impl LocalPersonOptions {
    pub fn person_id(&self) -> (r: String)
        ensures
            r@ == "person:"@ + self.person_slug@,
    {
        prefixed("person:", self.person_slug.as_str())
    }

    pub fn birth_event_id(&self) -> (r: String)
        ensures
            r@ == "event:birth-"@ + self.person_slug@,
    {
        prefixed("event:birth-", self.person_slug.as_str())
    }
}

#[derive(Debug, PartialEq, Eq)]
pub struct LocalBirthEventOptions {
    pub person_slug: String,
    pub person_name: String,
    pub birth_date: Option<String>,
    pub force: bool,
}

impl LocalBirthEventOptions {
    pub fn person_id(&self) -> (r: String)
        ensures
            r@ == "person:"@ + self.person_slug@,
    {
        prefixed("person:", self.person_slug.as_str())
    }

    pub fn birth_event_id(&self) -> (r: String)
        ensures
            r@ == "event:birth-"@ + self.person_slug@,
    {
        prefixed("event:birth-", self.person_slug.as_str())
    }
}

#[derive(Debug, PartialEq, Eq)]
pub struct LocalSkeletonOptions {
    pub project_id: String,
    pub title: String,
    pub person_slug: String,
    pub person_name: String,
    pub birth_date: Option<String>,
    pub force: bool,
}

impl Default for LocalSkeletonOptions {
    fn default() -> (r: Self)
        ensures
            r.project_id@ == "default"@,
            r.title@ == "Default world"@,
            r.person_slug@ == "example-person"@,
            r.person_name@ == "Example Person"@,
            r.birth_date.is_none(),
            !r.force,
    {
        LocalSkeletonOptions {
            project_id: DEFAULT_PROJECT_ID.to_owned(),
            title: "Default world".to_owned(),
            person_slug: DEFAULT_PERSON_SLUG.to_owned(),
            person_name: "Example Person".to_owned(),
            birth_date: None,
            force: false,
        }
    }
}

impl LocalSkeletonOptions {
    /// The world a skeleton creates is named by the project id.
    pub fn world_slug(&self) -> (r: &str)
        ensures
            r@ == self.project_id@,
    {
        self.project_id.as_str()
    }

    pub fn world_id(&self) -> (r: String)
        ensures
            r@ == "world:"@ + self.project_id@,
    {
        prefixed("world:", self.project_id.as_str())
    }

    pub fn person_id(&self) -> (r: String)
        ensures
            r@ == "person:"@ + self.person_slug@,
    {
        prefixed("person:", self.person_slug.as_str())
    }

    pub fn birth_event_id(&self) -> (r: String)
        ensures
            r@ == "event:birth-"@ + self.person_slug@,
    {
        prefixed("event:birth-", self.person_slug.as_str())
    }
}

// ---------------------------------------------------------------------------
// Names.

/// The whitespace-separated words of `s`.
pub open spec fn spec_words(s: Seq<char>) -> Seq<Seq<char>>
    decreases s.len(),
{
    if s.len() == 0 {
        seq![]
    } else {
        let w = spec_words(s.drop_last());
        let c = s.last();
        if is_unicode_whitespace(c) {
            w
        } else if s.len() >= 2 && !is_unicode_whitespace(s[s.len() - 2]) {
            w.drop_last().push(w.last().push(c))
        } else {
            w.push(seq![c])
        }
    }
}

/// Words joined by single spaces.
pub open spec fn spec_join_words(w: Seq<Seq<char>>) -> Seq<char>
    decreases w.len(),
{
    if w.len() == 0 {
        seq![]
    } else if w.len() == 1 {
        w[0]
    } else {
        spec_join_words(w.drop_last()) + " "@ + w.last()
    }
}

/// The given names: all words but the last (the only word of a one-word name).
pub open spec fn spec_given_name(name: Seq<char>) -> Seq<char> {
    let w = spec_words(name);
    if w.len() == 0 {
        seq![]
    } else if w.len() == 1 {
        w[0]
    } else {
        spec_join_words(w.drop_last())
    }
}

/// The family name: the last word of a name of two words or more.
pub open spec fn spec_family_name(name: Seq<char>) -> Seq<char> {
    let w = spec_words(name);
    if w.len() <= 1 {
        seq![]
    } else {
        w.last()
    }
}

pub open spec fn string_views(v: Seq<String>) -> Seq<Seq<char>> {
    v.map_values(|s: String| s@)
}

pub(crate) fn words(s: &str) -> (r: Vec<String>)
    ensures
        string_views(r@) == spec_words(s@),
{
    let n = s.unicode_len();
    let mut out: Vec<String> = Vec::new();
    let mut in_word = false;
    let mut i: usize = 0;
    while i < n
        invariant
            n == s@.len(),
            i <= n,
            string_views(out@) == spec_words(s@.take(i as int)),
            in_word == (i > 0 && !is_unicode_whitespace(s@[i - 1])),
            in_word ==> out@.len() > 0,
        decreases n - i,
    {
        let c = s.get_char(i);
        let ghost t = s@.take(i + 1);
        assert(t.drop_last() =~= s@.take(i as int));
        assert(t.last() == c);
        if char_is_whitespace(c) {
            in_word = false;
        } else if in_word {
            assert(t[t.len() - 2] == s@[i - 1]);
            let ghost before = out@;
            let mut last = out.pop().unwrap();
            push_char(&mut last, c);
            out.push(last);
            assert(string_views(out@) =~= string_views(before).drop_last().push(
                string_views(before).last().push(c),
            ));
        } else {
            let ghost before = out@;
            let mut w = String::new();
            push_char(&mut w, c);
            out.push(w);
            assert(w@ =~= seq![c]);
            assert(string_views(out@) =~= string_views(before).push(seq![c]));
            in_word = true;
        }
        i = i + 1;
    }
    assert(s@.take(n as int) =~= s@);
    out
}

pub(crate) fn join_words(w: &Vec<String>, count: usize) -> (r: String)
    requires
        count <= w@.len(),
    ensures
        r@ == spec_join_words(string_views(w@).take(count as int)),
{
    let mut out = String::new();
    let mut i: usize = 0;
    while i < count
        invariant
            count <= w@.len(),
            i <= count,
            out@ == spec_join_words(string_views(w@).take(i as int)),
        decreases count - i,
    {
        let ghost t = string_views(w@).take(i + 1);
        assert(t.drop_last() =~= string_views(w@).take(i as int));
        assert(t.last() == w@[i as int]@);
        if i > 0 {
            out.append(" ");
        } else {
            assert(t[0] == w@[0]@);
        }
        out.append(w[i].as_str());
        i = i + 1;
    }
    out
}

/// Splits a display name into given names and a family name.
fn split_display_name(name: &str) -> (r: (String, String))
    ensures
        r.0@ == spec_given_name(name@),
        r.1@ == spec_family_name(name@),
{
    let parts = words(name);
    let n = parts.len();
    proof {
        assert(string_views(parts@).len() == n);
    }
    if n == 0 {
        (String::new(), String::new())
    } else if n == 1 {
        (parts[0].clone(), String::new())
    } else {
        let given = join_words(&parts, n - 1);
        assert(string_views(parts@).take(n - 1) =~= string_views(parts@).drop_last());
        (given, parts[n - 1].clone())
    }
}

// ---------------------------------------------------------------------------
// File texts.

pub open spec fn spec_person_markdown(person_id: Seq<char>, name: Seq<char>) -> Seq<char> {
    "+++\nschema_version = 1\nid = \""@ + escape_toml(person_id) + "\"\nkind = \"person\"\nprimary_name = \""@ + escape_toml(name) + "\"\ntags = [\"starter\"]\nrelated = []\n\n[names.primary]\nfull = \""@ + escape_toml(name)
        + "\"\ngiven = \""@ + escape_toml(spec_given_name(name)) + "\"\nfamily = \""@ + escape_toml(
        spec_family_name(name),
    ) + "\"\n+++\n\n# "@ + name + "\n\nAdd biographical notes here. Keep concrete life facts in `events/` so timeline and tree views can project source-backed world data.\n"@
}

fn person_markdown(person_id: &str, name: &str) -> (r: String)
    ensures
        r@ == spec_person_markdown(person_id@, name@),
{
    let (given, family) = split_display_name(name);
    let mut text = "+++\nschema_version = 1\nid = \"".to_owned();
    text.append(escape_toml_basic(person_id).as_str());
    text.append("\"\nkind = \"person\"\nprimary_name = \"");
    text.append(escape_toml_basic(name).as_str());
    text.append("\"\ntags = [\"starter\"]\nrelated = []\n\n[names.primary]\nfull = \"");
    text.append(escape_toml_basic(name).as_str());
    text.append("\"\ngiven = \"");
    text.append(escape_toml_basic(given.as_str()).as_str());
    text.append("\"\nfamily = \"");
    text.append(escape_toml_basic(family.as_str()).as_str());
    text.append("\"\n+++\n\n# ");
    text.append(name);
    text.append("\n\nAdd biographical notes here. Keep concrete life facts in `events/` so timeline and tree views can project source-backed world data.\n");
    text
}

/// A birth date written with a time of day (it holds a colon).
pub open spec fn spec_has_time(date: Seq<char>) -> bool {
    trim_seq(date).contains(':')
}

fn birth_input_has_time(value: &str) -> (r: bool)
    ensures
        r == spec_has_time(value@),
{
    let t = trim(value);
    contains_char(t.as_str(), ':')
}

pub open spec fn spec_assertion_block(fragment: Seq<char>, confidence: Seq<char>, note: Seq<char>) -> Seq<char> {
    "\n[[assertions]]\ntarget = \"#"@ + fragment + "\"\nsources = [\"source:personal-knowledge\"]\nconfidence = \""@ + confidence + "\"\nnote = \""@ + escape_toml(note) + "\"\n"@
}

fn assertion_block(fragment: &str, confidence: &str, note: &str) -> (r: String)
    ensures
        r@ == spec_assertion_block(fragment@, confidence@, note@),
{
    let mut text = "\n[[assertions]]\ntarget = \"#".to_owned();
    text.append(fragment);
    text.append("\"\nsources = [\"source:personal-knowledge\"]\nconfidence = \"");
    text.append(confidence);
    text.append("\"\nnote = \"");
    text.append(escape_toml_basic(note).as_str());
    text.append("\"\n");
    text
}

/// The assertions that support a birth: its date (high confidence) when
/// one is given, and its time of day (low confidence) when that is given too.
pub open spec fn spec_birth_assertions(birth_date: Option<String>) -> Seq<char> {
    match birth_date {
        None => seq![],
        Some(d) => spec_assertion_block("date"@, "high"@, "Optional reasoning, transcription notes, uncertainty notes, or conflict notes about the birth date. Keep the date value on the linked event so it has one editable source of truth."@) + if spec_has_time(d@) {
            spec_assertion_block("time"@, "low"@, "Optional reasoning, transcription notes, uncertainty notes, or conflict notes about the birth time. Keep the time value on the linked event so it has one editable source of truth."@)
        } else {
            seq![]
        },
    }
}

pub open spec fn spec_date_line(birth_date: Option<String>) -> Seq<char> {
    match birth_date {
        Some(d) => "time = \""@ + escape_toml(d@) + "\"\ndate_precision = \""@ + (if spec_has_time(d@) {
            "minute"@
        } else {
            "day"@
        }) + "\"\n"@,
        None => "date_precision = \"unknown\"\n"@,
    }
}

pub open spec fn spec_birth_event_markdown(
    event_id: Seq<char>,
    person_id: Seq<char>,
    name: Seq<char>,
    birth_date: Option<String>,
) -> Seq<char> {
    "+++\nschema_version = 1\nid = \""@ + escape_toml(event_id) + "\"\nkind = \"birth\"\ntitle = \""@ + escape_toml("Birth of "@ + name) + "\"\n"@
        + spec_date_line(birth_date) + "participants = [\n  { entity = \""@ + escape_toml(person_id) + "\", role = \"subject\" },\n]\nplaces = [\n  { entity = \"place:unknown-birth-place\", role = \"birthplace\" },\n]\n"@
        + spec_birth_assertions(birth_date) + "\n+++\n\n# Birth of "@ + name + "\n\nReplace the placeholder place/source with the best available evidence when you have it.\n"@
}

fn birth_event_markdown(
    event_id: &str,
    person_id: &str,
    name: &str,
    birth_date: &Option<String>,
) -> (r: String)
    ensures
        r@ == spec_birth_event_markdown(event_id@, person_id@, name@, *birth_date),
{
    let mut text = "+++\nschema_version = 1\nid = \"".to_owned();
    text.append(escape_toml_basic(event_id).as_str());
    text.append("\"\nkind = \"birth\"\ntitle = \"");
    let mut title = "Birth of ".to_owned();
    title.append(name);
    text.append(escape_toml_basic(title.as_str()).as_str());
    text.append("\"\n");
    match birth_date {
        Some(d) => {
            text.append("time = \"");
            text.append(escape_toml_basic(d.as_str()).as_str());
            text.append("\"\ndate_precision = \"");
            if birth_input_has_time(d.as_str()) {
                text.append("minute");
            } else {
                text.append("day");
            }
            text.append("\"\n");
        },
        None => {
            text.append("date_precision = \"unknown\"\n");
        },
    }
    text.append("participants = [\n  { entity = \"");
    text.append(escape_toml_basic(person_id).as_str());
    text.append("\", role = \"subject\" },\n]\nplaces = [\n  { entity = \"place:unknown-birth-place\", role = \"birthplace\" },\n]\n");
    match birth_date {
        Some(d) => {
            text.append(assertion_block("date", "high", "Optional reasoning, transcription notes, uncertainty notes, or conflict notes about the birth date. Keep the date value on the linked event so it has one editable source of truth.").as_str());
            if birth_input_has_time(d.as_str()) {
                text.append(assertion_block("time", "low", "Optional reasoning, transcription notes, uncertainty notes, or conflict notes about the birth time. Keep the time value on the linked event so it has one editable source of truth.").as_str());
            }
        },
        None => {},
    }
    text.append("\n+++\n\n# Birth of ");
    text.append(name);
    text.append("\n\nReplace the placeholder place/source with the best available evidence when you have it.\n");
    text
}

pub open spec fn spec_unknown_place_toml() -> Seq<char> {
    "schema_version = 1\nid = \"place:unknown-birth-place\"\nkind = \"place\"\ntitle = \"Unknown birth place\"\n\n[names]\npreferred = \"Unknown birth place\"\n"@
}

pub open spec fn spec_personal_knowledge_source() -> Seq<char> {
    "+++\nschema_version = 1\nid = \"source:personal-knowledge\"\nkind = \"birth-record\"\ntitle = \"Personal knowledge placeholder\"\ndate_accessed = \"2026-07-09\"\nmedia = []\n+++\n\nUse this placeholder only until you have a more specific source.\n"@
}

pub open spec fn spec_event_kinds_toml() -> Seq<char> {
    "id = \"vocab:event-kinds\"\nkind = \"vocabulary\"\ntitle = \"Event kinds\"\n\n[[terms]]\nid = \"birth\"\nlabel = \"Birth\"\nclass = \"life\"\n\n[[terms]]\nid = \"death\"\nlabel = \"Death\"\nclass = \"life\"\n\n[[terms]]\nid = \"census\"\nlabel = \"Census\"\nclass = \"recorded-event\"\n"@
}

pub open spec fn spec_participant_roles_toml() -> Seq<char> {
    "id = \"vocab:participant-roles\"\nkind = \"vocabulary\"\ntitle = \"Participant roles\"\n\n[[terms]]\nid = \"child\"\nlabel = \"Child\"\n\n[[terms]]\nid = \"resident\"\nlabel = \"Resident\"\n\n[[terms]]\nid = \"subject\"\nlabel = \"Subject\"\n"@
}

pub open spec fn spec_gedcom_imports_readme() -> Seq<char> {
    "# GEDCOM imports\n\nKeep raw, versioned GEDCOM exports here, for example:\n\n- `family-neutral-example.ged`\n- `family-export-neutral-example.ged`\n\nSelect the active GEDCOM in this world's `world.toml`:\n\n```toml\n[imports.gedcom.primary]\npath = \"imports/gedcom/family-neutral-example.ged\"\nstrategy = \"link\"\n```\n\nRaw imports are world-owned source artifacts. Generated JSON/SQLite belongs under `build/`.\n"@
}

pub open spec fn spec_life_collection_toml(person_slug: Seq<char>, name: Seq<char>) -> Seq<char> {
    "schema_version = 1\nid = \"collection:"@ + escape_toml(person_slug) + "-life\"\nkind = \"event-collection\"\ntitle = \""@ + escape_toml(name) + " life events\"\ncollection_kind = \"sequence\"\norder = \"manual_then_chronological\"\n\n[[members]]\nevent = \"event:birth-"@ + escape_toml(person_slug)
        + "\"\nlabel = \"Birth\"\nrole = \"start\"\nordinal = 10\n"@
}

fn life_collection_toml(person_slug: &str, name: &str) -> (r: String)
    ensures
        r@ == spec_life_collection_toml(person_slug@, name@),
{
    let mut text = "schema_version = 1\nid = \"collection:".to_owned();
    text.append(escape_toml_basic(person_slug).as_str());
    text.append("-life\"\nkind = \"event-collection\"\ntitle = \"");
    text.append(escape_toml_basic(name).as_str());
    text.append(" life events\"\ncollection_kind = \"sequence\"\norder = \"manual_then_chronological\"\n\n[[members]]\nevent = \"event:birth-");
    text.append(escape_toml_basic(person_slug).as_str());
    text.append("\"\nlabel = \"Birth\"\nrole = \"start\"\nordinal = 10\n");
    text
}

pub open spec fn spec_timeline_view_toml(person_id: Seq<char>) -> Seq<char> {
    "schema_version = 1\nid = \"timeline:example-life\"\nkind = \"timeline-view\"\ntitle = \"Example Life Timeline\"\n\n[subject]\nentity = \""@ + escape_toml(person_id) + "\"\n\n[filter]\nevent_kinds = [\"birth\", \"residence\", \"marriage\", \"death\"]\ninclude_related_people = true\ninclude_context_events = false\n\n[sort]\nby = \"date\"\ndirection = \"ascending\"\n\n[display]\ngroup_by = \"year\"\nshow_sources = true\nshow_uncertainty = true\n"@
}

fn timeline_view_toml(person_id: &str) -> (r: String)
    ensures
        r@ == spec_timeline_view_toml(person_id@),
{
    let mut text = "schema_version = 1\nid = \"timeline:example-life\"\nkind = \"timeline-view\"\ntitle = \"Example Life Timeline\"\n\n[subject]\nentity = \"".to_owned();
    text.append(escape_toml_basic(person_id).as_str());
    text.append("\"\n\n[filter]\nevent_kinds = [\"birth\", \"residence\", \"marriage\", \"death\"]\ninclude_related_people = true\ninclude_context_events = false\n\n[sort]\nby = \"date\"\ndirection = \"ascending\"\n\n[display]\ngroup_by = \"year\"\nshow_sources = true\nshow_uncertainty = true\n");
    text
}

pub open spec fn spec_tree_view_toml(person_id: Seq<char>) -> Seq<char> {
    "schema_version = 1\nid = \"tree:main-family-tree\"\nkind = \"tree-view\"\ntitle = \"Main Family Tree\"\n\n[root]\nentity = \""@ + escape_toml(person_id) + "\"\n\n[filter]\nrelationship_kinds = [\"biological-parent-child\", \"adoptive-parent-child\", \"foster-parent-child\", \"step-parent-child\", \"guardian-child\", \"spouse\", \"partner\", \"former-spouse\", \"sibling\"]\ngenerations_up = 5\ngenerations_down = 3\n\n[display]\nshow_life_dates = true\nshow_places = true\nshow_sources = false\n"@
}

fn tree_view_toml(person_id: &str) -> (r: String)
    ensures
        r@ == spec_tree_view_toml(person_id@),
{
    let mut text = "schema_version = 1\nid = \"tree:main-family-tree\"\nkind = \"tree-view\"\ntitle = \"Main Family Tree\"\n\n[root]\nentity = \"".to_owned();
    text.append(escape_toml_basic(person_id).as_str());
    text.append("\"\n\n[filter]\nrelationship_kinds = [\"biological-parent-child\", \"adoptive-parent-child\", \"foster-parent-child\", \"step-parent-child\", \"guardian-child\", \"spouse\", \"partner\", \"former-spouse\", \"sibling\"]\ngenerations_up = 5\ngenerations_down = 3\n\n[display]\nshow_life_dates = true\nshow_places = true\nshow_sources = false\n");
    text
}

pub open spec fn spec_component_schema_toml(id: Seq<char>, name: Seq<char>, description: Seq<char>) -> Seq<char> {
    "schema_version = 1\nid = \""@ + escape_toml(id) + "\"\nkind = \"ecs-component\"\nname = \""@ + escape_toml(name) + "\"\ndescription = \""@ + escape_toml(description) + "\"\n"@
}

fn component_schema_toml(id: &str, name: &str, description: &str) -> (r: String)
    ensures
        r@ == spec_component_schema_toml(id@, name@, description@),
{
    let mut text = "schema_version = 1\nid = \"".to_owned();
    text.append(escape_toml_basic(id).as_str());
    text.append("\"\nkind = \"ecs-component\"\nname = \"");
    text.append(escape_toml_basic(name).as_str());
    text.append("\"\ndescription = \"");
    text.append(escape_toml_basic(description).as_str());
    text.append("\"\n");
    text
}

pub open spec fn spec_bundle_schema_toml(id: Seq<char>, a: Seq<char>, b: Seq<char>, c: Seq<char>) -> Seq<char> {
    "schema_version = 1\nid = \""@ + escape_toml(id) + "\"\nkind = \"ecs-bundle\"\n\ncomponents = [\n"@ + "  \""@ + escape_toml(a) + "\",\n  \""@ + escape_toml(b)
        + "\",\n  \""@ + escape_toml(c) + "\""@ + "\n]\n"@
}

fn bundle_schema_toml(id: &str, a: &str, b: &str, c: &str) -> (r: String)
    ensures
        r@ == spec_bundle_schema_toml(id@, a@, b@, c@),
{
    let mut text = "schema_version = 1\nid = \"".to_owned();
    text.append(escape_toml_basic(id).as_str());
    text.append("\"\nkind = \"ecs-bundle\"\n\ncomponents = [\n");
    text.append("  \"");
    text.append(escape_toml_basic(a).as_str());
    text.append("\",\n  \"");
    text.append(escape_toml_basic(b).as_str());
    text.append("\",\n  \"");
    text.append(escape_toml_basic(c).as_str());
    text.append("\"");
    text.append("\n]\n");
    text
}

// ---------------------------------------------------------------------------
// Plans.

/// The directories of `dirs`, as text, are `expected`.
pub open spec fn dirs_are(dirs: Seq<String>, expected: Seq<Seq<char>>) -> bool {
    string_views(dirs) =~= expected
}

pub open spec fn spec_birth_dirs(root: Seq<char>) -> Seq<Seq<char>> {
    seq![
        root,
        path_join(path_join(root, "events"@), "births"@),
        path_join(path_join(root, "entities"@), "places"@),
        path_join(root, "sources"@),
    ]
}

/// Name of the birth event file: its date (or `unknown-date`), `-birth-`, the slug.
pub open spec fn spec_birth_file_name(birth_date: Option<String>, person_slug: Seq<char>) -> Seq<char> {
    (match birth_date {
        Some(d) => d@,
        None => "unknown-date"@,
    }) + "-birth-"@ + person_slug + ".md"@
}

/// `files[o..o+3]` are the files of a birth event: the placeholder place
/// and source (kept when they exist) and the event itself.
pub open spec fn birth_files_at(
    files: Seq<PlannedFile>,
    o: int,
    root: Seq<char>,
    person_slug: Seq<char>,
    person_name: Seq<char>,
    birth_date: Option<String>,
    force: bool,
) -> bool {
    &&& text_file(
        files[o],
        path_join(path_join(path_join(root, "entities"@), "places"@), "unknown-birth-place.toml"@),
        spec_unknown_place_toml(),
        ExistingFile::Keep,
    )
    &&& text_file(
        files[o + 1],
        path_join(path_join(root, "sources"@), "personal-knowledge.md"@),
        spec_personal_knowledge_source(),
        ExistingFile::Keep,
    )
    &&& text_file(
        files[o + 2],
        path_join(
            path_join(path_join(root, "events"@), "births"@),
            spec_birth_file_name(birth_date, person_slug),
        ),
        spec_birth_event_markdown(
            "event:birth-"@ + person_slug,
            "person:"@ + person_slug,
            person_name,
            birth_date,
        ),
        spec_existing_rule(force, false),
    )
}

fn clone_opt(s: &Option<String>) -> (r: Option<String>)
    ensures
        r == *s,
{
    match s {
        Some(v) => Some(v.clone()),
        None => None,
    }
}

fn push_birth_files(
    files: &mut Vec<PlannedFile>,
    paths: &WorldPaths,
    person_slug: &str,
    person_name: &str,
    birth_date: &Option<String>,
    force: bool,
)
    ensures
        final(files)@.len() == old(files)@.len() + 3,
        final(files)@.take(old(files)@.len() as int) == old(files)@,
        birth_files_at(
            final(files)@,
            old(files)@.len() as int,
            paths.root_view(),
            person_slug@,
            person_name@,
            *birth_date,
            force,
        ),
{
    let ghost o = files@.len() as int;
    let ghost before = files@;
    let places = paths.places_dir();
    let sources = paths.sources_dir();
    let births = paths.births_dir();
    files.push(
        text_file_new(
            join_path(places.as_str(), "unknown-birth-place.toml"),
            "schema_version = 1\nid = \"place:unknown-birth-place\"\nkind = \"place\"\ntitle = \"Unknown birth place\"\n\n[names]\npreferred = \"Unknown birth place\"\n".to_owned(),
            ExistingFile::Keep,
        ),
    );
    files.push(
        text_file_new(
            join_path(sources.as_str(), "personal-knowledge.md"),
            "+++\nschema_version = 1\nid = \"source:personal-knowledge\"\nkind = \"birth-record\"\ntitle = \"Personal knowledge placeholder\"\ndate_accessed = \"2026-07-09\"\nmedia = []\n+++\n\nUse this placeholder only until you have a more specific source.\n".to_owned(),
            ExistingFile::Keep,
        ),
    );
    let mut file_name = match birth_date {
        Some(d) => d.clone(),
        None => "unknown-date".to_owned(),
    };
    file_name.append("-birth-");
    file_name.append(person_slug);
    file_name.append(".md");
    let event_id = prefixed("event:birth-", person_slug);
    let person_id = prefixed("person:", person_slug);
    files.push(
        text_file_new(
            join_path(births.as_str(), file_name.as_str()),
            birth_event_markdown(event_id.as_str(), person_id.as_str(), person_name, birth_date),
            existing_rule(force, false),
        ),
    );
    assert(files@.take(o) =~= before);
}

/// Plans a birth event for a person: the event file under
/// `events/births/`, with a placeholder birth place and source.
pub fn create_local_birth_event(world_root: &str, options: &LocalBirthEventOptions) -> (r: Result<
    WritePlan,
    LocalAuthoringError,
>)
    ensures
        match slug_error(options.person_slug@, "person slug"@) {
            Some(m) => fails_with(r, m),
            None => r matches Ok(p) && {
                &&& p.root@ == world_root@
                &&& dirs_are(p.dirs@, spec_birth_dirs(world_root@))
                &&& p.files@.len() == 3
                &&& birth_files_at(
                    p.files@,
                    0,
                    world_root@,
                    options.person_slug@,
                    options.person_name@,
                    options.birth_date,
                    options.force,
                )
            },
        },
{
    validate_slug(options.person_slug.as_str(), "person slug")?;
    let paths = WorldPaths::new(world_root);
    let mut dirs: Vec<String> = Vec::new();
    push_birth_dirs(&mut dirs, &paths);
    let mut files: Vec<PlannedFile> = Vec::new();
    push_birth_files(
        &mut files,
        &paths,
        options.person_slug.as_str(),
        options.person_name.as_str(),
        &options.birth_date,
        options.force,
    );
    Ok(WritePlan { root: world_root.to_owned(), dirs, files })
}

fn push_birth_dirs(dirs: &mut Vec<String>, paths: &WorldPaths)
    ensures
        string_views(final(dirs)@) == string_views(old(dirs)@) + spec_birth_dirs(paths.root_view()),
{
    let ghost before = dirs@;
    dirs.push(paths.root().to_owned());
    dirs.push(paths.births_dir());
    dirs.push(paths.places_dir());
    dirs.push(paths.sources_dir());
    assert(string_views(dirs@) =~= string_views(before) + spec_birth_dirs(paths.root_view()));
}

/// `f` writes the person record of `person_slug` named `person_name`.
pub open spec fn person_file(
    f: PlannedFile,
    root: Seq<char>,
    person_slug: Seq<char>,
    person_name: Seq<char>,
    force: bool,
) -> bool {
    text_file(
        f,
        path_join(path_join(path_join(root, "entities"@), "people"@), person_slug + ".md"@),
        spec_person_markdown("person:"@ + person_slug, person_name),
        spec_existing_rule(force, false),
    )
}

fn person_file_new(paths: &WorldPaths, person_slug: &str, person_name: &str, force: bool) -> (r:
    PlannedFile)
    ensures
        person_file(r, paths.root_view(), person_slug@, person_name@, force),
{
    let people = paths.people_dir();
    let mut file_name = person_slug.to_owned();
    file_name.append(".md");
    let person_id = prefixed("person:", person_slug);
    text_file_new(
        join_path(people.as_str(), file_name.as_str()),
        person_markdown(person_id.as_str(), person_name),
        existing_rule(force, false),
    )
}

/// Plans a person record under `entities/people/`, and the person's birth
/// event when asked to.
pub fn create_local_person(world_root: &str, options: &LocalPersonOptions) -> (r: Result<
    WritePlan,
    LocalAuthoringError,
>)
    ensures
        match slug_error(options.person_slug@, "person slug"@) {
            Some(m) => fails_with(r, m),
            None => r matches Ok(p) && {
                let root = world_root@;
                &&& p.root@ == root
                &&& dirs_are(
                    p.dirs@,
                    seq![root, path_join(path_join(root, "entities"@), "people"@)] + if options.create_birth_event {
                        spec_birth_dirs(root)
                    } else {
                        seq![]
                    },
                )
                &&& p.files@.len() == if options.create_birth_event {
                    4int
                } else {
                    1int
                }
                &&& person_file(
                    p.files@[0],
                    root,
                    options.person_slug@,
                    options.person_name@,
                    options.force,
                )
                &&& options.create_birth_event ==> birth_files_at(
                    p.files@,
                    1,
                    root,
                    options.person_slug@,
                    options.person_name@,
                    options.birth_date,
                    options.force,
                )
            },
        },
{
    validate_slug(options.person_slug.as_str(), "person slug")?;
    let paths = WorldPaths::new(world_root);
    let mut dirs: Vec<String> = Vec::new();
    dirs.push(world_root.to_owned());
    dirs.push(paths.people_dir());
    let ghost head = string_views(dirs@);
    let mut files: Vec<PlannedFile> = Vec::new();
    files.push(
        person_file_new(&paths, options.person_slug.as_str(), options.person_name.as_str(), options.force),
    );
    if options.create_birth_event {
        push_birth_dirs(&mut dirs, &paths);
        let ghost first = files@[0];
        push_birth_files(
            &mut files,
            &paths,
            options.person_slug.as_str(),
            options.person_name.as_str(),
            &options.birth_date,
            options.force,
        );
        assert(files@[0] == files@.take(1)[0]);
    } else {
        assert(string_views(dirs@) =~= head + Seq::<Seq<char>>::empty());
    }
    Ok(WritePlan { root: world_root.to_owned(), dirs, files })
}

pub open spec fn spec_layout_dirs(root: Seq<char>) -> Seq<Seq<char>> {
    seq![
        root,
        path_join(path_join(root, "entities"@), "people"@),
        path_join(path_join(root, "entities"@), "places"@),
        path_join(path_join(root, "entities"@), "organizations"@),
        path_join(path_join(root, "entities"@), "objects"@),
        path_join(path_join(root, "entities"@), "concepts"@),
        path_join(path_join(root, "events"@), "births"@),
        path_join(path_join(root, "events"@), "deaths"@),
        path_join(path_join(root, "events"@), "residences"@),
        path_join(path_join(root, "events"@), "marriages"@),
        path_join(path_join(root, "events"@), "migrations"@),
        path_join(path_join(root, "events"@), "observations"@),
        path_join(root, "collections"@),
        path_join(path_join(root, "events"@), "moments"@),
        path_join(path_join(root, "events"@), "other"@),
        path_join(root, "assertions"@),
        path_join(root, "relationships"@),
        path_join(root, "sources"@),
        path_join(path_join(root, "media"@), "people"@),
        path_join(path_join(root, "media"@), "places"@),
        path_join(path_join(root, "media"@), "sources"@),
        path_join(path_join(root, "media"@), "events"@),
        path_join(path_join(root, "imports"@), "gedcom"@),
        path_join(path_join(root, "imports"@), "wikidata"@),
        path_join(path_join(root, "imports"@), "csv"@),
        path_join(path_join(root, "views"@), "timelines"@),
        path_join(path_join(root, "views"@), "trees"@),
        path_join(path_join(root, "views"@), "maps"@),
        path_join(path_join(root, "views"@), "calendars"@),
        path_join(path_join(root, "views"@), "visualizations"@),
        path_join(path_join(root, "schemas"@), "components"@),
        path_join(path_join(root, "schemas"@), "bundles"@),
        path_join(path_join(root, "schemas"@), "events"@),
        path_join(path_join(root, "schemas"@), "views"@),
        path_join(path_join(root, "schemas"@), "vocab"@),
        path_join(path_join(root, "systems"@), "importers"@),
        path_join(path_join(root, "systems"@), "compilers"@),
        path_join(path_join(root, "systems"@), "validators"@),
        path_join(path_join(root, "systems"@), "renderers"@),
        path_join(root, "build"@),
    ]
}

/// `c` is the configuration of a new world `slug` titled `title`.
pub open spec fn is_new_world_config(c: WorldConfig, slug: Seq<char>, title: Seq<char>) -> bool {
    &&& c.schema_version == 1
    &&& c.id@ == "world:"@ + slug
    &&& c.slug@ == slug
    &&& c.title@ == title
    &&& c.kind@ == "family-history"@
    &&& c.build.compiled_json@ == "build/kleio.compiled.json"@
    &&& c.build.ecs_json@ == "build/kleio.ecs.json"@
    &&& c.build.sqlite@ == "build/kleio.sqlite"@
    &&& c.imports.gedcom.primary.is_none()
}

/// `files[o..o+10]` are the files of a world layout: `world.toml`, the two
/// vocabularies, the GEDCOM imports readme and the schema seeds.
pub open spec fn layout_files_at(
    files: Seq<PlannedFile>,
    o: int,
    root: Seq<char>,
    slug: Seq<char>,
    title: Seq<char>,
    force: bool,
) -> bool {
    let rule = spec_existing_rule(force, false);
    &&& files[o].path@ == path_join(root, "world.toml"@)
    &&& files[o].content matches PlannedContent::WorldConfig(c) && is_new_world_config(c, slug, title)
    &&& files[o].existing == rule
    &&& text_file(
        files[o + 1],
        path_join(path_join(path_join(root, "schemas"@), "vocab"@), "event-kinds.toml"@),
        spec_event_kinds_toml(),
        rule,
    )
    &&& text_file(
        files[o + 2],
        path_join(path_join(path_join(root, "schemas"@), "vocab"@), "participant-roles.toml"@),
        spec_participant_roles_toml(),
        rule,
    )
    &&& text_file(
        files[o + 3],
        path_join(path_join(path_join(root, "imports"@), "gedcom"@), "README.md"@),
        spec_gedcom_imports_readme(),
        rule,
    )
    &&& text_file(
        files[o + 4],
        path_join(path_join(path_join(root, "schemas"@), "components"@), "identity.toml"@),
        spec_component_schema_toml("component:identity"@, "Identity"@, "Stable world-scoped identity for an entity, event, or view."@),
        rule,
    )
    &&& text_file(
        files[o + 5],
        path_join(path_join(path_join(root, "schemas"@), "components"@), "primary-name.toml"@),
        spec_component_schema_toml("component:primary-name"@, "PrimaryName"@, "Human-readable primary display name."@),
        rule,
    )
    &&& text_file(
        files[o + 6],
        path_join(path_join(path_join(root, "schemas"@), "components"@), "participants.toml"@),
        spec_component_schema_toml("component:participants"@, "Participants"@, "Entity references and roles attached to an event."@),
        rule,
    )
    &&& text_file(
        files[o + 7],
        path_join(path_join(path_join(root, "schemas"@), "components"@), "source-links.toml"@),
        spec_component_schema_toml("component:source-links"@, "SourceLinks"@, "Assertion and source references attached to compiled records."@),
        rule,
    )
    &&& text_file(
        files[o + 8],
        path_join(path_join(path_join(root, "schemas"@), "bundles"@), "person.toml"@),
        spec_bundle_schema_toml("bundle:person"@, "component:identity"@, "component:primary-name"@, "component:source-links"@),
        rule,
    )
    &&& text_file(
        files[o + 9],
        path_join(path_join(path_join(root, "schemas"@), "bundles"@), "birth-event.toml"@),
        spec_bundle_schema_toml("bundle:birth-event"@, "component:identity"@, "component:participants"@, "component:source-links"@),
        rule,
    )
}

fn push_layout_files(files: &mut Vec<PlannedFile>, paths: &WorldPaths, slug: &str, title: &str, force: bool)
    ensures
        final(files)@.len() == old(files)@.len() + 10,
        final(files)@.take(old(files)@.len() as int) == old(files)@,
        layout_files_at(final(files)@, old(files)@.len() as int, paths.root_view(), slug@, title@, force),
{
    let ghost o = files@.len() as int;
    let ghost before = files@;
    files.push(
        PlannedFile {
            path: paths.config(),
            content: PlannedContent::WorldConfig(WorldConfig::new(slug, title)),
            existing: existing_rule(force, false),
        },
    );
    let vocab_dir = paths.vocab_schemas_dir();
    files.push(
        text_file_new(
            join_path(vocab_dir.as_str(), "event-kinds.toml"),
            "id = \"vocab:event-kinds\"\nkind = \"vocabulary\"\ntitle = \"Event kinds\"\n\n[[terms]]\nid = \"birth\"\nlabel = \"Birth\"\nclass = \"life\"\n\n[[terms]]\nid = \"death\"\nlabel = \"Death\"\nclass = \"life\"\n\n[[terms]]\nid = \"census\"\nlabel = \"Census\"\nclass = \"recorded-event\"\n".to_owned(),
            existing_rule(force, false),
        ),
    );
    files.push(
        text_file_new(
            join_path(vocab_dir.as_str(), "participant-roles.toml"),
            "id = \"vocab:participant-roles\"\nkind = \"vocabulary\"\ntitle = \"Participant roles\"\n\n[[terms]]\nid = \"child\"\nlabel = \"Child\"\n\n[[terms]]\nid = \"resident\"\nlabel = \"Resident\"\n\n[[terms]]\nid = \"subject\"\nlabel = \"Subject\"\n".to_owned(),
            existing_rule(force, false),
        ),
    );
    let gedcom_dir = paths.gedcom_imports_dir();
    files.push(
        text_file_new(
            join_path(gedcom_dir.as_str(), "README.md"),
            "# GEDCOM imports\n\nKeep raw, versioned GEDCOM exports here, for example:\n\n- `family-neutral-example.ged`\n- `family-export-neutral-example.ged`\n\nSelect the active GEDCOM in this world's `world.toml`:\n\n```toml\n[imports.gedcom.primary]\npath = \"imports/gedcom/family-neutral-example.ged\"\nstrategy = \"link\"\n```\n\nRaw imports are world-owned source artifacts. Generated JSON/SQLite belongs under `build/`.\n".to_owned(),
            existing_rule(force, false),
        ),
    );
    let component_dir = paths.component_schemas_dir();
    files.push(
        text_file_new(
            join_path(component_dir.as_str(), "identity.toml"),
            component_schema_toml("component:identity", "Identity", "Stable world-scoped identity for an entity, event, or view."),
            existing_rule(force, false),
        ),
    );
    files.push(
        text_file_new(
            join_path(component_dir.as_str(), "primary-name.toml"),
            component_schema_toml("component:primary-name", "PrimaryName", "Human-readable primary display name."),
            existing_rule(force, false),
        ),
    );
    files.push(
        text_file_new(
            join_path(component_dir.as_str(), "participants.toml"),
            component_schema_toml("component:participants", "Participants", "Entity references and roles attached to an event."),
            existing_rule(force, false),
        ),
    );
    files.push(
        text_file_new(
            join_path(component_dir.as_str(), "source-links.toml"),
            component_schema_toml("component:source-links", "SourceLinks", "Assertion and source references attached to compiled records."),
            existing_rule(force, false),
        ),
    );
    let bundle_dir = paths.bundle_schemas_dir();
    files.push(
        text_file_new(
            join_path(bundle_dir.as_str(), "person.toml"),
            bundle_schema_toml("bundle:person", "component:identity", "component:primary-name", "component:source-links"),
            existing_rule(force, false),
        ),
    );
    files.push(
        text_file_new(
            join_path(bundle_dir.as_str(), "birth-event.toml"),
            bundle_schema_toml("bundle:birth-event", "component:identity", "component:participants", "component:source-links"),
            existing_rule(force, false),
        ),
    );
    assert(files@.take(o) =~= before);
}

fn push_layout_dirs(dirs: &mut Vec<String>, paths: &WorldPaths)
    ensures
        string_views(final(dirs)@) == string_views(old(dirs)@) + spec_layout_dirs(paths.root_view()),
{
    let ghost before = dirs@;
    dirs.push(paths.root().to_owned());
    dirs.push(paths.people_dir());
    dirs.push(paths.places_dir());
    dirs.push(paths.organizations_dir());
    dirs.push(paths.objects_dir());
    dirs.push(paths.concepts_dir());
    dirs.push(paths.births_dir());
    dirs.push(paths.deaths_dir());
    dirs.push(paths.residences_dir());
    dirs.push(paths.marriages_dir());
    dirs.push(paths.migrations_dir());
    dirs.push(paths.observations_dir());
    dirs.push(paths.collections_dir());
    dirs.push(paths.moments_dir());
    dirs.push(paths.other_events_dir());
    dirs.push(paths.assertions_dir());
    dirs.push(paths.relationships_dir());
    dirs.push(paths.sources_dir());
    dirs.push(paths.media_people_dir());
    dirs.push(paths.media_places_dir());
    dirs.push(paths.media_sources_dir());
    dirs.push(paths.media_events_dir());
    dirs.push(paths.gedcom_imports_dir());
    dirs.push(paths.wikidata_imports_dir());
    dirs.push(paths.csv_imports_dir());
    dirs.push(paths.timeline_views_dir());
    dirs.push(paths.tree_views_dir());
    dirs.push(paths.map_views_dir());
    dirs.push(paths.calendar_views_dir());
    dirs.push(paths.visualization_views_dir());
    dirs.push(paths.component_schemas_dir());
    dirs.push(paths.bundle_schemas_dir());
    dirs.push(paths.event_schemas_dir());
    dirs.push(paths.view_schemas_dir());
    dirs.push(paths.vocab_schemas_dir());
    dirs.push(paths.importer_systems_dir());
    dirs.push(paths.compiler_systems_dir());
    dirs.push(paths.validator_systems_dir());
    dirs.push(paths.renderer_systems_dir());
    dirs.push(paths.build_dir());
    assert(string_views(dirs@) =~= string_views(before) + spec_layout_dirs(paths.root_view()));
}

/// Plans the layout of a world: its directories, `world.toml`, the starter
/// vocabularies, the GEDCOM imports readme and the schema seeds.
pub fn create_world_layout(world_root: &str, options: &LocalSkeletonOptions) -> (r: Result<
    WritePlan,
    LocalAuthoringError,
>)
    ensures
        match slug_error(options.project_id@, "world slug"@) {
            Some(m) => fails_with(r, m),
            None => r matches Ok(p) && {
                &&& p.root@ == world_root@
                &&& dirs_are(p.dirs@, spec_layout_dirs(world_root@))
                &&& p.files@.len() == 10
                &&& layout_files_at(
                    p.files@,
                    0,
                    world_root@,
                    options.project_id@,
                    options.title@,
                    options.force,
                )
            },
        },
{
    validate_slug(options.world_slug(), "world slug")?;
    let paths = WorldPaths::new(world_root);
    let mut dirs: Vec<String> = Vec::new();
    push_layout_dirs(&mut dirs, &paths);
    assert(string_views(dirs@) =~= spec_layout_dirs(world_root@));
    let mut files: Vec<PlannedFile> = Vec::new();
    push_layout_files(&mut files, &paths, options.world_slug(), options.title.as_str(), options.force);
    Ok(WritePlan { root: world_root.to_owned(), dirs, files })
}

/// `files[o..o+17]` are the files of a starter world.
pub open spec fn world_files_at(files: Seq<PlannedFile>, o: int, root: Seq<char>, options: LocalSkeletonOptions) -> bool {
    let slug = options.person_slug@;
    let person_id = "person:"@ + slug;
    let rule = spec_existing_rule(options.force, false);
    &&& layout_files_at(files, o, root, options.project_id@, options.title@, options.force)
    &&& person_file(files[o + 10], root, slug, options.person_name@, options.force)
    &&& birth_files_at(files, o + 11, root, slug, options.person_name@, options.birth_date, options.force)
    &&& text_file(
        files[o + 14],
        path_join(path_join(root, "collections"@), "example-life.toml"@),
        spec_life_collection_toml(slug, options.person_name@),
        rule,
    )
    &&& text_file(
        files[o + 15],
        path_join(path_join(path_join(root, "views"@), "timelines"@), "example-life.toml"@),
        spec_timeline_view_toml(person_id),
        rule,
    )
    &&& text_file(
        files[o + 16],
        path_join(path_join(path_join(root, "views"@), "trees"@), "main-family-tree.toml"@),
        spec_tree_view_toml(person_id),
        rule,
    )
}

/// Whether a skeleton's slugs are acceptable: the person slug, then the world slug.
pub open spec fn world_skeleton_error(options: LocalSkeletonOptions) -> Option<Seq<char>> {
    first_error(
        slug_error(options.person_slug@, "person slug"@),
        slug_error(options.project_id@, "world slug"@),
    )
}

proof fn lemma_take_prefix(a: Seq<PlannedFile>, b: Seq<PlannedFile>, n: int)
    requires
        0 <= n <= a.len(),
        b.take(a.len() as int) == a,
        a.len() <= b.len(),
    ensures
        b.take(n) == a.take(n),
        forall|i: int| 0 <= i < a.len() ==> b[i] == a[i],
{
    assert(b.take(n) =~= a.take(n));
    assert forall|i: int| 0 <= i < a.len() implies b[i] == a[i] by {
        assert(b.take(a.len() as int)[i] == b[i]);
    }
}

fn push_world_files(files: &mut Vec<PlannedFile>, paths: &WorldPaths, options: &LocalSkeletonOptions)
    ensures
        final(files)@.len() == old(files)@.len() + 17,
        final(files)@.take(old(files)@.len() as int) == old(files)@,
        world_files_at(final(files)@, old(files)@.len() as int, paths.root_view(), *options),
{
    let ghost o = files@.len() as int;
    let ghost f0 = files@;
    push_layout_files(files, paths, options.world_slug(), options.title.as_str(), options.force);
    let ghost f1 = files@;
    files.push(
        person_file_new(paths, options.person_slug.as_str(), options.person_name.as_str(), options.force),
    );
    let ghost f2 = files@;
    push_birth_files(
        files,
        paths,
        options.person_slug.as_str(),
        options.person_name.as_str(),
        &options.birth_date,
        options.force,
    );
    let ghost f3 = files@;
    let person_id = options.person_id();
    let collections = paths.collections_dir();
    files.push(
        text_file_new(
            join_path(collections.as_str(), "example-life.toml"),
            life_collection_toml(options.person_slug.as_str(), options.person_name.as_str()),
            existing_rule(options.force, false),
        ),
    );
    let timelines = paths.timeline_views_dir();
    files.push(
        text_file_new(
            join_path(timelines.as_str(), "example-life.toml"),
            timeline_view_toml(person_id.as_str()),
            existing_rule(options.force, false),
        ),
    );
    let trees = paths.tree_views_dir();
    files.push(
        text_file_new(
            join_path(trees.as_str(), "main-family-tree.toml"),
            tree_view_toml(person_id.as_str()),
            existing_rule(options.force, false),
        ),
    );
    proof {
        let f = files@;
        assert(f.take(f3.len() as int) =~= f3);
        assert(f2.take(f1.len() as int) =~= f1);
        lemma_take_prefix(f3, f, f2.len() as int);
        lemma_take_prefix(f2, f3, f1.len() as int);
        lemma_take_prefix(f1, f2, f0.len() as int);
        lemma_take_prefix(f3, f, f1.len() as int);
        assert(f.take(o) =~= f0);
        assert forall|i: int| o <= i < o + 10 implies f[i] == f1[i] by {
            assert(f[i] == f3[i]);
            assert(f3[i] == f2[i]);
        }
        assert(f[o + 10] == f2[o + 10]) by {
            assert(f[o + 10] == f3[o + 10]);
        }
        assert forall|i: int| o + 11 <= i < o + 14 implies f[i] == f3[i] by {}
    }
}

/// Plans a starter world: its layout, a person with a birth event, a life
/// collection, and timeline and tree views centred on the person.
pub fn create_world_skeleton(world_root: &str, options: &LocalSkeletonOptions) -> (r: Result<
    WritePlan,
    LocalAuthoringError,
>)
    ensures
        match world_skeleton_error(*options) {
            Some(m) => fails_with(r, m),
            None => r matches Ok(p) && {
                &&& p.root@ == world_root@
                &&& dirs_are(p.dirs@, spec_layout_dirs(world_root@) + spec_birth_dirs(world_root@))
                &&& p.files@.len() == 17
                &&& world_files_at(p.files@, 0, world_root@, *options)
            },
        },
{
    validate_slug(options.person_slug.as_str(), "person slug")?;
    validate_slug(options.world_slug(), "world slug")?;
    let paths = WorldPaths::new(world_root);
    let mut dirs: Vec<String> = Vec::new();
    push_layout_dirs(&mut dirs, &paths);
    push_birth_dirs(&mut dirs, &paths);
    assert(string_views(dirs@) =~= spec_layout_dirs(world_root@) + spec_birth_dirs(world_root@));
    let mut files: Vec<PlannedFile> = Vec::new();
    push_world_files(&mut files, &paths, options);
    Ok(WritePlan { root: world_root.to_owned(), dirs, files })
}

/// The root of the world a workspace skeleton creates.
pub open spec fn skeleton_world_root(workspace_root: Seq<char>, options: LocalSkeletonOptions) -> Seq<char> {
    path_join(path_join(workspace_root, "worlds"@), options.project_id@)
}

/// `r` is the plan of a starter workspace at `workspace_root`: `kleio.toml`
/// with the world registered as the default, and the starter world under
/// `worlds/<slug>`; or the first problem with the slugs.
pub open spec fn workspace_skeleton_planned(
    workspace_root: Seq<char>,
    options: LocalSkeletonOptions,
    r: Result<WritePlan, LocalAuthoringError>,
) -> bool {
    match first_error(
        slug_error(options.project_id@, "world slug"@),
        slug_error(options.person_slug@, "person slug"@),
    ) {
        Some(m) => fails_with(r, m),
        None => r matches Ok(p) && {
            let ws = workspace_root;
            let root = skeleton_world_root(ws, options);
            &&& p.root@ == ws
            &&& dirs_are(
                p.dirs@,
                seq![ws, path_join(ws, "worlds"@)] + spec_layout_dirs(root) + spec_birth_dirs(root),
            )
            &&& p.files@.len() == 18
            &&& p.files@[0].path@ == path_join(ws, "kleio.toml"@)
            &&& p.files@[0].content matches PlannedContent::WorkspaceConfig(c) && {
                &&& c.schema_version == 1
                &&& c.workspace.id@ == "workspace:default"@
                &&& c.workspace.title@ == "Kleio workspace"@
                &&& c.workspace.default_world@ == options.project_id@
                &&& c.worlds@.len() == 1
                &&& entry_for(c.worlds@[0], options.project_id@, options.title@)
            }
            &&& p.files@[0].existing == spec_existing_rule(options.force, false)
            &&& world_files_at(p.files@, 1, root, options)
        },
    }
}

/// Plans a starter workspace: `kleio.toml` with the world registered as the
/// default, and the starter world under `worlds/<slug>`.
pub fn create_workspace_skeleton(workspace_root: &str, options: &LocalSkeletonOptions) -> (r: Result<
    WritePlan,
    LocalAuthoringError,
>)
    ensures
        workspace_skeleton_planned(workspace_root@, *options, r),
{
    validate_slug(options.world_slug(), "world slug")?;
    validate_slug(options.person_slug.as_str(), "person slug")?;
    let workspace = WorkspacePaths::new(workspace_root);
    let world = workspace.world(options.world_slug());
    let mut dirs: Vec<String> = Vec::new();
    dirs.push(workspace_root.to_owned());
    dirs.push(workspace.worlds_dir());
    let ghost head = string_views(dirs@);
    push_layout_dirs(&mut dirs, &world);
    push_birth_dirs(&mut dirs, &world);
    let mut files: Vec<PlannedFile> = Vec::new();
    files.push(
        PlannedFile {
            path: workspace.config(),
            content: PlannedContent::WorkspaceConfig(
                WorkspaceConfig::with_default_world(options.world_slug(), options.title.as_str()),
            ),
            existing: existing_rule(options.force, false),
        },
    );
    let ghost first = files@[0];
    push_world_files(&mut files, &world, options);
    assert(files@[0] == files@.take(1)[0]);
    Ok(WritePlan { root: workspace_root.to_owned(), dirs, files })
}

/// The same as [`create_workspace_skeleton`].
pub fn create_local_skeleton(root: &str, options: &LocalSkeletonOptions) -> (r: Result<
    WritePlan,
    LocalAuthoringError,
>)
    ensures
        workspace_skeleton_planned(root@, *options, r),
{
    create_workspace_skeleton(root, options)
}

/// Law: the world that a workspace skeleton creates is the one that its
/// `kleio.toml` resolves to by default, for every world slug but `..`
/// (whose registered path would climb out of the workspace).
pub proof fn law_skeleton_world_is_the_default(
    workspace_root: Seq<char>,
    options: LocalSkeletonOptions,
    c: WorkspaceConfig,
)
    requires
        slug_error(options.project_id@, "world slug"@).is_none(),
        options.project_id@ != ".."@,
        c.workspace.default_world@ == options.project_id@,
        c.worlds@.len() == 1,
        entry_for(c.worlds@[0], options.project_id@, options.title@),
    ensures
        c.spec_world_path(chosen_world_slug(None, Some(c))) == Some("worlds/"@ + options.project_id@),
        relative_path_error("worlds/"@ + options.project_id@, "world path"@, "workspace root"@).is_none(),
        path_join(workspace_root, trim_seq("worlds/"@ + options.project_id@)) == skeleton_world_root(
            workspace_root,
            options,
        ),
{
    let slug = options.project_id@;
    let path = "worlds/"@ + slug;
    reveal_strlit("worlds/");
    reveal_strlit("worlds");
    reveal_strlit("..");
    assert(!is_blank(slug));
    assert(slug.len() > 0) by {
        if slug.len() == 0 {
            assert(trim_seq(slug) =~= slug);
        }
    }
    assert(!has_separator_or_space(slug));
    assert(first_world(c.worlds@, slug) == Some(0int)) by {
        lemma_first_world_from(c.worlds@, slug, 0);
    }
    // The path has no surrounding whitespace.
    assert(!is_unicode_whitespace(path[0]));
    assert(path.last() == slug.last());
    assert(!is_unicode_whitespace(path.last())) by {
        assert(!is_separator_or_space(slug[slug.len() - 1]));
    }
    assert(lead_ws(path) == 0);
    assert(path.skip(0) =~= path);
    assert(trail_ws(path) == 0);
    assert(path.take(path.len() as int) =~= path);
    assert(trim_seq(path) == path);
    // It is relative and has no `..` component.
    assert(!is_absolute(path));
    assert forall|i: int| !parent_at(path, i) by {
        if parent_at(path, i) {
            if i < 7 {
                assert(path[i] == "worlds/"@[i]);
            } else if i == 7 {
                assert(path[7] == slug[0]);
                assert(path[8] == slug[1]);
                if slug.len() > 2 {
                    assert(path[9] == slug[2]);
                    assert(!is_separator_or_space(slug[2]));
                }
                assert(slug =~= ".."@);
            } else {
                assert(path[i - 1] == slug[i - 8]);
                assert(!is_separator_or_space(slug[i - 8]));
            }
        }
    }
    assert(!has_parent_component(path));
    assert(path_join("worlds"@, slug) =~= path);
    if workspace_root.len() == 0 {
    } else if workspace_root.last() == '/' {
        assert(path_join(workspace_root, path) =~= path_join(path_join(workspace_root, "worlds"@), slug));
    } else {
        assert(path_join(workspace_root, path) =~= path_join(path_join(workspace_root, "worlds"@), slug));
    }
}

} // verus!
