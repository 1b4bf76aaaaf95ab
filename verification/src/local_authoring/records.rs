//! World-owned records: entities, relationships, sources and assertions.
use vstd::prelude::*;
use crate::local_authoring::error::{fails_with, LocalAuthoringError};
use crate::local_authoring::paths::WorldPaths;
use crate::local_authoring::plan::{existing_rule, spec_existing_rule, text_file, text_file_new, WritePlan};
use crate::local_authoring::refs::{
    checked, contextual_record_id_error, first_index_of, record_id_error, slug_error,
    validate_contextual_record_id, validate_record_id, validate_slug,
};
use crate::text::{escape_toml, escape_toml_basic, is_blank, is_blank_str, join_path, path_join, str_eq};

verus! {

broadcast use vstd::seq_lib::group_seq_properties;

#[derive(Debug, Clone, Copy, PartialEq, Eq, Structural)]
pub enum LocalEntityKind {
    Person,
    Place,
    Organization,
    Object,
    Concept,
}

impl LocalEntityKind {
    pub open spec fn spec_as_str(self) -> Seq<char> {
        match self {
            LocalEntityKind::Person => "person"@,
            LocalEntityKind::Place => "place"@,
            LocalEntityKind::Organization => "organization"@,
            LocalEntityKind::Object => "object"@,
            LocalEntityKind::Concept => "concept"@,
        }
    }

    pub fn as_str(self) -> (r: &'static str)
        ensures
            r@ == self.spec_as_str(),
    {
        match self {
            LocalEntityKind::Person => "person",
            LocalEntityKind::Place => "place",
            LocalEntityKind::Organization => "organization",
            LocalEntityKind::Object => "object",
            LocalEntityKind::Concept => "concept",
        }
    }

    /// The directory, under `entities/`, that holds entities of this kind.
    pub open spec fn spec_dir_name(self) -> Seq<char> {
        match self {
            LocalEntityKind::Person => "people"@,
            LocalEntityKind::Place => "places"@,
            LocalEntityKind::Organization => "organizations"@,
            LocalEntityKind::Object => "objects"@,
            LocalEntityKind::Concept => "concepts"@,
        }
    }
}

#[derive(Debug, PartialEq, Eq)]
pub struct LocalEntityOptions {
    pub slug: String,
    pub title: String,
    pub kind: LocalEntityKind,
    pub force: bool,
}

impl LocalEntityOptions {
    pub open spec fn spec_id(&self) -> Seq<char> {
        self.kind.spec_as_str() + ":"@ + self.slug@
    }

    pub fn id(&self) -> (r: String)
        ensures
            r@ == self.spec_id(),
    {
        let mut r = self.kind.as_str().to_owned();
        r.append(":");
        r.append(self.slug.as_str());
        r
    }
}

#[derive(Debug, PartialEq, Eq)]
pub struct LocalRelationshipOptions {
    pub relationship_slug: String,
    pub title: Option<String>,
    pub relationship_kind: String,
    pub parent_role: Option<String>,
    pub source: String,
    pub target: String,
    pub sources: Vec<String>,
    pub force: bool,
}

impl LocalRelationshipOptions {
    pub open spec fn spec_id(&self) -> Seq<char> {
        "relationship:"@ + self.relationship_slug@
    }

    pub fn id(&self) -> (r: String)
        ensures
            r@ == self.spec_id(),
    {
        let mut r = "relationship:".to_owned();
        r.append(self.relationship_slug.as_str());
        r
    }
}

#[derive(Debug, PartialEq, Eq)]
pub struct LocalSourceOptions {
    pub source_slug: String,
    pub title: String,
    pub source_kind: String,
    pub force: bool,
}

impl LocalSourceOptions {
    pub open spec fn spec_id(&self) -> Seq<char> {
        "source:"@ + self.source_slug@
    }

    pub fn id(&self) -> (r: String)
        ensures
            r@ == self.spec_id(),
    {
        let mut r = "source:".to_owned();
        r.append(self.source_slug.as_str());
        r
    }
}

#[derive(Debug, PartialEq, Eq)]
pub struct LocalAssertionOptions {
    pub assertion_slug: String,
    pub assertion_kind: String,
    pub target: String,
    pub value: Option<String>,
    pub sources: Vec<String>,
    pub confidence: Option<String>,
    pub note: Option<String>,
    pub force: bool,
}

impl LocalAssertionOptions {
    pub open spec fn spec_id(&self) -> Seq<char> {
        "assertion:"@ + self.assertion_slug@
    }

    pub fn id(&self) -> (r: String)
        ensures
            r@ == self.spec_id(),
    {
        let mut r = "assertion:".to_owned();
        r.append(self.assertion_slug.as_str());
        r
    }
}

/// The first problem of `a`, else of `b`.
pub open spec fn first_error(a: Option<Seq<char>>, b: Option<Seq<char>>) -> Option<Seq<char>> {
    if a.is_some() {
        a
    } else {
        b
    }
}

/// The first value that is neither a slug nor a record id, as an error.
pub open spec fn contextual_list_error(values: Seq<String>, label: Seq<char>) -> Option<Seq<char>>
    decreases values.len(),
{
    if values.len() == 0 {
        None
    } else {
        first_error(
            contextual_list_error(values.drop_last(), label),
            contextual_record_id_error(values.last()@, label),
        )
    }
}

proof fn lemma_contextual_list_prefix(values: Seq<String>, label: Seq<char>, k: int)
    requires
        0 <= k <= values.len(),
        contextual_list_error(values.take(k), label).is_some(),
    ensures
        contextual_list_error(values, label) == contextual_list_error(values.take(k), label),
    decreases values.len(),
{
    if k < values.len() {
        assert(values.drop_last().take(k) =~= values.take(k));
        lemma_contextual_list_prefix(values.drop_last(), label, k);
    } else {
        assert(values.take(k) =~= values);
    }
}

fn validate_contextual_list(values: &Vec<String>, label: &str) -> (r: Result<(), LocalAuthoringError>)
    ensures
        checked(r, contextual_list_error(values@, label@)),
{
    let n = values.len();
    let mut i: usize = 0;
    while i < n
        invariant
            n == values@.len(),
            i <= n,
            contextual_list_error(values@.take(i as int), label@).is_none(),
        decreases n - i,
    {
        assert(values@.take(i + 1).drop_last() =~= values@.take(i as int));
        assert(values@.take(i + 1).last() == values@[i as int]);
        match validate_contextual_record_id(values[i].as_str(), label) {
            Err(e) => {
                proof {
                    lemma_contextual_list_prefix(values@, label@, i + 1);
                }
                return Err(e);
            },
            Ok(()) => {},
        }
        i = i + 1;
    }
    assert(values@.take(n as int) =~= values@);
    Ok(())
}

/// The base id of an assertion target: the text before the first `#`.
pub open spec fn spec_target_base_id(target: Seq<char>) -> Seq<char> {
    match first_index_of(target, '#') {
        Some(i) => target.take(i),
        None => target,
    }
}

pub fn target_base_id(target: &str) -> (r: String)
    ensures
        r@ == spec_target_base_id(target@),
{
    let n = target.unicode_len();
    let mut i: usize = 0;
    while i < n
        invariant
            n == target@.len(),
            i <= n,
            first_index_of(target@.take(i as int), '#').is_none(),
        decreases n - i,
    {
        assert(target@.take(i + 1).drop_last() =~= target@.take(i as int));
        if target.get_char(i) == '#' {
            proof {
                lemma_first_hash(target@, i + 1);
            }
            return target.substring_char(0, i).to_owned();
        }
        i = i + 1;
    }
    assert(target@.take(n as int) =~= target@);
    target.to_owned()
}

proof fn lemma_first_hash(s: Seq<char>, m: int)
    requires
        0 < m <= s.len(),
        s[m - 1] == '#',
        first_index_of(s.take(m - 1), '#').is_none(),
    ensures
        first_index_of(s, '#') == Some(m - 1),
    decreases s.len(),
{
    if s.len() > m {
        assert(s.drop_last().take(m - 1) =~= s.take(m - 1));
        lemma_first_hash(s.drop_last(), m);
    } else {
        assert(s.drop_last() =~= s.take(m - 1));
    }
}

/// `"a", "b"` between brackets on one line.
pub open spec fn inline_items(values: Seq<String>) -> Seq<char>
    decreases values.len(),
{
    if values.len() == 0 {
        seq![]
    } else if values.len() == 1 {
        "\""@ + escape_toml(values[0]@) + "\""@
    } else {
        inline_items(values.drop_last()) + ", \""@ + escape_toml(values.last()@) + "\""@
    }
}

pub open spec fn spec_toml_string_array(values: Seq<String>) -> Seq<char> {
    "["@ + inline_items(values) + "]"@
}

/// A TOML array of strings on one line.
pub fn toml_string_array(values: &Vec<String>) -> (r: String)
    ensures
        r@ == spec_toml_string_array(values@),
{
    let mut text = "[".to_owned();
    let n = values.len();
    let mut i: usize = 0;
    while i < n
        invariant
            n == values@.len(),
            i <= n,
            text@ == "["@ + inline_items(values@.take(i as int)),
        decreases n - i,
    {
        assert(values@.take(i + 1).drop_last() =~= values@.take(i as int));
        assert(values@.take(i + 1).last() == values@[i as int]);
        assert(values@.take(i + 1)[0] == values@[0]);
        if i > 0 {
            text.append(", \"");
        } else {
            text.append("\"");
        }
        text.append(escape_toml_basic(values[i].as_str()).as_str());
        text.append("\"");
        proof {
            if i == 0 {
                assert(values@.take(0) =~= Seq::<String>::empty());
                assert(inline_items(values@.take(0)) =~= Seq::<char>::empty());
            }
        }
        assert(text@ =~= "["@ + inline_items(values@.take(i + 1)));
        i = i + 1;
    }
    assert(values@.take(n as int) =~= values@);
    text.append("]");
    text
}

/// One `  "value",` line per value.
pub open spec fn item_lines(values: Seq<String>) -> Seq<char>
    decreases values.len(),
{
    if values.len() == 0 {
        seq![]
    } else {
        item_lines(values.drop_last()) + "  \""@ + escape_toml(values.last()@) + "\",\n"@
    }
}

pub open spec fn spec_toml_multiline_string_array(values: Seq<String>) -> Seq<char> {
    if values.len() == 0 {
        "[]"@
    } else {
        "[\n"@ + item_lines(values) + "]"@
    }
}

/// A TOML array of strings, one per line (`[]` when empty).
pub fn toml_multiline_string_array(values: &Vec<String>) -> (r: String)
    ensures
        r@ == spec_toml_multiline_string_array(values@),
{
    let n = values.len();
    if n == 0 {
        return "[]".to_owned();
    }
    let mut text = "[\n".to_owned();
    let mut i: usize = 0;
    while i < n
        invariant
            n == values@.len(),
            i <= n,
            text@ == "[\n"@ + item_lines(values@.take(i as int)),
        decreases n - i,
    {
        assert(values@.take(i + 1).drop_last() =~= values@.take(i as int));
        text.append("  \"");
        text.append(escape_toml_basic(values[i].as_str()).as_str());
        text.append("\",\n");
        i = i + 1;
    }
    assert(values@.take(n as int) =~= values@);
    text.append("]");
    text
}

/// A `key = "value"` line for a value that is present.
pub open spec fn opt_line(key: Seq<char>, value: Option<String>) -> Seq<char> {
    match value {
        Some(v) => key + " = \""@ + escape_toml(v@) + "\"\n"@,
        None => seq![],
    }
}

fn append_opt_line(text: &mut String, key: &str, value: &Option<String>)
    ensures
        final(text)@ == old(text)@ + opt_line(key@, *value),
{
    match value {
        Some(v) => {
            text.append(key);
            text.append(" = \"");
            text.append(escape_toml_basic(v.as_str()).as_str());
            text.append("\"\n");
        },
        None => {},
    }
}

pub open spec fn spec_entity_body(kind: LocalEntityKind) -> Seq<char> {
    match kind {
            LocalEntityKind::Person => "## Notes\n\nWrite biographical notes, memories, research notes, or unresolved questions here.\nKeep dated life facts in `events/` so timeline and tree views can project them.\n\n## Known details\n\n- Preferred name:\n- Other names:\n- Important places:\n- Open questions:\n"@,
            LocalEntityKind::Place => "## Notes\n\nDescribe this place, including memories, research notes, alternate names, or\nuncertainty about its identity.\n\n## Known details\n\n- Alternate names:\n- Larger area or jurisdiction:\n- Coordinates or map reference:\n- Open questions:\n"@,
            LocalEntityKind::Organization => "## Notes\n\nDescribe this organization, its role, relevant dates, and open research questions.\n\n## Known details\n\n- Alternate names:\n- Important people:\n- Important places:\n- Open questions:\n"@,
            LocalEntityKind::Object => "## Notes\n\nDescribe this object, why it matters, where it came from, and where it is now.\n\n## Known details\n\n- Owner or custodian:\n- Date or era:\n- Related people or places:\n- Open questions:\n"@,
            LocalEntityKind::Concept => "## Notes\n\nDescribe this concept or topic and how it connects to people, events, places, or\nsources in this world.\n\n## Known details\n\n- Related people:\n- Related events:\n- Related sources:\n- Open questions:\n"@,
    }
}

fn entity_body(kind: LocalEntityKind) -> (r: &'static str)
    ensures
        r@ == spec_entity_body(kind),
{
    match kind {
            LocalEntityKind::Person => "## Notes\n\nWrite biographical notes, memories, research notes, or unresolved questions here.\nKeep dated life facts in `events/` so timeline and tree views can project them.\n\n## Known details\n\n- Preferred name:\n- Other names:\n- Important places:\n- Open questions:\n",
            LocalEntityKind::Place => "## Notes\n\nDescribe this place, including memories, research notes, alternate names, or\nuncertainty about its identity.\n\n## Known details\n\n- Alternate names:\n- Larger area or jurisdiction:\n- Coordinates or map reference:\n- Open questions:\n",
            LocalEntityKind::Organization => "## Notes\n\nDescribe this organization, its role, relevant dates, and open research questions.\n\n## Known details\n\n- Alternate names:\n- Important people:\n- Important places:\n- Open questions:\n",
            LocalEntityKind::Object => "## Notes\n\nDescribe this object, why it matters, where it came from, and where it is now.\n\n## Known details\n\n- Owner or custodian:\n- Date or era:\n- Related people or places:\n- Open questions:\n",
            LocalEntityKind::Concept => "## Notes\n\nDescribe this concept or topic and how it connects to people, events, places, or\nsources in this world.\n\n## Known details\n\n- Related people:\n- Related events:\n- Related sources:\n- Open questions:\n",
    }
}

/// The Markdown text of an entity record: frontmatter, a heading and notes
/// to fill in for its kind.
pub open spec fn spec_entity_markdown(options: LocalEntityOptions) -> Seq<char> {
    "+++\nschema_version = 1\nid = \""@ + escape_toml(options.spec_id()) + "\"\nkind = \""@
        + options.kind.spec_as_str() + "\"\ntitle = \""@ + escape_toml(options.title@)
        + "\"\n+++\n\n# "@ + options.title@ + "\n\n"@ + spec_entity_body(options.kind)
}

fn entity_markdown(options: &LocalEntityOptions) -> (r: String)
    ensures
        r@ == spec_entity_markdown(*options),
{
    let mut text = "+++\nschema_version = 1\nid = \"".to_owned();
    text.append(escape_toml_basic(options.id().as_str()).as_str());
    text.append("\"\nkind = \"");
    text.append(options.kind.as_str());
    text.append("\"\ntitle = \"");
    text.append(escape_toml_basic(options.title.as_str()).as_str());
    text.append("\"\n+++\n\n# ");
    text.append(options.title.as_str());
    text.append("\n\n");
    text.append(entity_body(options.kind));
    text
}

/// The one-file plan of a record: its directory and the file in it.
pub open spec fn record_plan(
    p: WritePlan,
    world_root: Seq<char>,
    dir: Seq<char>,
    file_name: Seq<char>,
    text: Seq<char>,
    force: bool,
) -> bool {
    &&& p.root@ == world_root
    &&& p.dirs@.len() == 1
    &&& p.dirs@[0]@ == dir
    &&& p.files@.len() == 1
    &&& text_file(p.files@[0], path_join(dir, file_name), text, spec_existing_rule(force, false))
}

fn record_plan_new(world_root: &str, dir: String, file_name: &str, text: String, force: bool) -> (r:
    WritePlan)
    ensures
        record_plan(r, world_root@, dir@, file_name@, text@, force),
{
    let path = join_path(dir.as_str(), file_name);
    let mut dirs: Vec<String> = Vec::new();
    dirs.push(dir);
    let mut files = Vec::new();
    files.push(text_file_new(path, text, existing_rule(force, false)));
    WritePlan { root: world_root.to_owned(), dirs, files }
}

fn suffixed(a: &str, b: &str) -> (r: String)
    ensures
        r@ == a@ + b@,
{
    let mut r = a.to_owned();
    r.append(b);
    r
}

/// Plans the Markdown file of a new entity, `entities/<kind>/<slug>.md`;
/// without `force`, an existing file is kept.
pub fn create_local_entity(world_root: &str, options: &LocalEntityOptions) -> (r: Result<
    WritePlan,
    LocalAuthoringError,
>)
    ensures
        match slug_error(options.slug@, "entity slug"@) {
            Some(m) => fails_with(r, m),
            None => r matches Ok(p) && record_plan(
                p,
                world_root@,
                path_join(path_join(world_root@, "entities"@), options.kind.spec_dir_name()),
                options.slug@ + ".md"@,
                spec_entity_markdown(*options),
                options.force,
            ),
        },
{
    validate_slug(options.slug.as_str(), "entity slug")?;
    let paths = WorldPaths::new(world_root);
    let dir = match options.kind {
        LocalEntityKind::Person => paths.people_dir(),
        LocalEntityKind::Place => paths.places_dir(),
        LocalEntityKind::Organization => paths.organizations_dir(),
        LocalEntityKind::Object => paths.objects_dir(),
        LocalEntityKind::Concept => paths.concepts_dir(),
    };
    let file_name = suffixed(options.slug.as_str(), ".md");
    Ok(record_plan_new(world_root, dir, file_name.as_str(), entity_markdown(options), options.force))
}

/// The TOML text of a relationship record.
pub open spec fn spec_relationship_toml(options: LocalRelationshipOptions) -> Seq<char> {
    "schema_version = 1\nrelationship = \""@ + escape_toml(options.relationship_kind@) + "\"\n"@
        + opt_line("parent_role"@, options.parent_role) + "source = \""@ + escape_toml(
        options.source@,
    ) + "\"\ntarget = \""@ + escape_toml(options.target@) + "\"\nsources = "@
        + spec_toml_string_array(options.sources@) + "\n"@ + opt_line("title"@, options.title)
}

fn relationship_toml(options: &LocalRelationshipOptions) -> (r: String)
    ensures
        r@ == spec_relationship_toml(*options),
{
    let mut text = "schema_version = 1\nrelationship = \"".to_owned();
    text.append(escape_toml_basic(options.relationship_kind.as_str()).as_str());
    text.append("\"\n");
    append_opt_line(&mut text, "parent_role", &options.parent_role);
    text.append("source = \"");
    text.append(escape_toml_basic(options.source.as_str()).as_str());
    text.append("\"\ntarget = \"");
    text.append(escape_toml_basic(options.target.as_str()).as_str());
    text.append("\"\nsources = ");
    text.append(toml_string_array(&options.sources).as_str());
    text.append("\n");
    append_opt_line(&mut text, "title", &options.title);
    text
}

/// The first problem with a relationship's options, in the order checked.
pub open spec fn relationship_error(options: LocalRelationshipOptions) -> Option<Seq<char>> {
    first_error(
        slug_error(options.relationship_slug@, "relationship slug"@),
        first_error(
            slug_error(options.relationship_kind@, "relationship kind"@),
            first_error(
                match options.parent_role {
                    Some(role) => slug_error(role@, "relationship parent role"@),
                    None => None,
                },
                first_error(
                    contextual_record_id_error(options.source@, "relationship source"@),
                    first_error(
                        contextual_record_id_error(options.target@, "relationship target"@),
                        contextual_list_error(options.sources@, "relationship source reference"@),
                    ),
                ),
            ),
        ),
    )
}

/// Plans the TOML file of a new relationship, `relationships/<slug>.toml`;
/// without `force`, an existing file is kept.
pub fn create_local_relationship(world_root: &str, options: &LocalRelationshipOptions) -> (r: Result<
    WritePlan,
    LocalAuthoringError,
>)
    ensures
        match relationship_error(*options) {
            Some(m) => fails_with(r, m),
            None => r matches Ok(p) && record_plan(
                p,
                world_root@,
                path_join(world_root@, "relationships"@),
                options.relationship_slug@ + ".toml"@,
                spec_relationship_toml(*options),
                options.force,
            ),
        },
{
    validate_slug(options.relationship_slug.as_str(), "relationship slug")?;
    validate_slug(options.relationship_kind.as_str(), "relationship kind")?;
    match &options.parent_role {
        Some(role) => validate_slug(role.as_str(), "relationship parent role")?,
        None => {},
    }
    validate_contextual_record_id(options.source.as_str(), "relationship source")?;
    validate_contextual_record_id(options.target.as_str(), "relationship target")?;
    validate_contextual_list(&options.sources, "relationship source reference")?;
    let paths = WorldPaths::new(world_root);
    let file_name = suffixed(options.relationship_slug.as_str(), ".toml");
    Ok(
        record_plan_new(
            world_root,
            paths.relationships_dir(),
            file_name.as_str(),
            relationship_toml(options),
            options.force,
        ),
    )
}

/// The Markdown text of a source record.
pub open spec fn spec_source_markdown(options: LocalSourceOptions) -> Seq<char> {
    "+++\nschema_version = 1\nid = \""@ + escape_toml(options.spec_id()) + "\"\nkind = \""@
        + escape_toml(options.source_kind@) + "\"\ntitle = \""@ + escape_toml(options.title@)
        + "\"\nmedia = []\n+++\n\n# "@ + options.title@ + "\n\n## Citation\n\nAdd a concise citation or source description here.\n\n## Notes\n\nRecord provenance, access notes, or context for this source.\n\n## Transcript\n\nAdd transcribed text or image/PDF notes when useful.\n"@
}

fn source_markdown(options: &LocalSourceOptions) -> (r: String)
    ensures
        r@ == spec_source_markdown(*options),
{
    let mut text = "+++\nschema_version = 1\nid = \"".to_owned();
    text.append(escape_toml_basic(options.id().as_str()).as_str());
    text.append("\"\nkind = \"");
    text.append(escape_toml_basic(options.source_kind.as_str()).as_str());
    text.append("\"\ntitle = \"");
    text.append(escape_toml_basic(options.title.as_str()).as_str());
    text.append("\"\nmedia = []\n+++\n\n# ");
    text.append(options.title.as_str());
    text.append("\n\n## Citation\n\nAdd a concise citation or source description here.\n\n## Notes\n\nRecord provenance, access notes, or context for this source.\n\n## Transcript\n\nAdd transcribed text or image/PDF notes when useful.\n");
    text
}

/// Plans the Markdown file of a new source, `sources/<slug>.md`; without
/// `force`, an existing file is kept.
pub fn create_local_source(world_root: &str, options: &LocalSourceOptions) -> (r: Result<
    WritePlan,
    LocalAuthoringError,
>)
    ensures
        match first_error(
            slug_error(options.source_slug@, "source slug"@),
            slug_error(options.source_kind@, "source kind"@),
        ) {
            Some(m) => fails_with(r, m),
            None => r matches Ok(p) && record_plan(
                p,
                world_root@,
                path_join(world_root@, "sources"@),
                options.source_slug@ + ".md"@,
                spec_source_markdown(*options),
                options.force,
            ),
        },
{
    validate_slug(options.source_slug.as_str(), "source slug")?;
    validate_slug(options.source_kind.as_str(), "source kind")?;
    let paths = WorldPaths::new(world_root);
    let file_name = suffixed(options.source_slug.as_str(), ".md");
    Ok(
        record_plan_new(
            world_root,
            paths.sources_dir(),
            file_name.as_str(),
            source_markdown(options),
            options.force,
        ),
    )
}

/// The Markdown text of an assertion record; its confidence is `medium`
/// unless given.
pub open spec fn spec_assertion_markdown(options: LocalAssertionOptions) -> Seq<char> {
    let confidence = match options.confidence {
        Some(c) => c@,
        None => "medium"@,
    };
    "+++\nschema_version = 1\nid = \""@ + escape_toml(options.spec_id()) + "\"\nkind = \""@
        + escape_toml(options.assertion_kind@) + "\"\ntarget = \""@ + escape_toml(options.target@)
        + "\"\n"@ + opt_line("value"@, options.value) + "sources = "@
        + spec_toml_multiline_string_array(options.sources@) + "\nconfidence = \""@ + escape_toml(
        confidence,
    ) + "\"\n"@ + opt_line("note"@, options.note) + "+++\n\n## Reasoning\n\nExplain why this claim is supported, uncertain, or in conflict.\n\n## Source notes\n\nAdd transcription notes, quotations, or follow-up tasks here.\n"@
}

fn assertion_markdown(options: &LocalAssertionOptions) -> (r: String)
    ensures
        r@ == spec_assertion_markdown(*options),
{
    let mut text = "+++\nschema_version = 1\nid = \"".to_owned();
    text.append(escape_toml_basic(options.id().as_str()).as_str());
    text.append("\"\nkind = \"");
    text.append(escape_toml_basic(options.assertion_kind.as_str()).as_str());
    text.append("\"\ntarget = \"");
    text.append(escape_toml_basic(options.target.as_str()).as_str());
    text.append("\"\n");
    append_opt_line(&mut text, "value", &options.value);
    text.append("sources = ");
    text.append(toml_multiline_string_array(&options.sources).as_str());
    text.append("\nconfidence = \"");
    let confidence = match &options.confidence {
        Some(c) => c.as_str(),
        None => "medium",
    };
    text.append(escape_toml_basic(confidence).as_str());
    text.append("\"\n");
    append_opt_line(&mut text, "note", &options.note);
    text.append("+++\n\n## Reasoning\n\nExplain why this claim is supported, uncertain, or in conflict.\n\n## Source notes\n\nAdd transcription notes, quotations, or follow-up tasks here.\n");
    text
}

/// The first problem with an assertion's options, in the order checked.
pub open spec fn assertion_error(options: LocalAssertionOptions) -> Option<Seq<char>> {
    first_error(
        slug_error(options.assertion_slug@, "assertion slug"@),
        first_error(
            slug_error(options.assertion_kind@, "assertion kind"@),
            first_error(
                record_id_error(spec_target_base_id(options.target@), "assertion target"@),
                contextual_list_error(options.sources@, "assertion source"@),
            ),
        ),
    )
}

/// Plans the Markdown file of a new assertion, `assertions/<slug>.md`;
/// without `force`, an existing file is kept.
pub fn create_local_assertion(world_root: &str, options: &LocalAssertionOptions) -> (r: Result<
    WritePlan,
    LocalAuthoringError,
>)
    ensures
        match assertion_error(*options) {
            Some(m) => fails_with(r, m),
            None => r matches Ok(p) && record_plan(
                p,
                world_root@,
                path_join(world_root@, "assertions"@),
                options.assertion_slug@ + ".md"@,
                spec_assertion_markdown(*options),
                options.force,
            ),
        },
{
    validate_slug(options.assertion_slug.as_str(), "assertion slug")?;
    validate_slug(options.assertion_kind.as_str(), "assertion kind")?;
    let base = target_base_id(options.target.as_str());
    validate_record_id(base.as_str(), "assertion target")?;
    validate_contextual_list(&options.sources, "assertion source")?;
    let paths = WorldPaths::new(world_root);
    let file_name = suffixed(options.assertion_slug.as_str(), ".md");
    Ok(
        record_plan_new(
            world_root,
            paths.assertions_dir(),
            file_name.as_str(),
            assertion_markdown(options),
            options.force,
        ),
    )
}

// ---------------------------------------------------------------------------
// Event records.

/// What a new event record holds. Coordinates are kept as the decimal text
/// that is written into the record.
#[derive(Debug, PartialEq, Eq)]
pub struct LocalEventOptions {
    pub event_slug: String,
    pub event_type: String,
    pub title: Option<String>,
    pub subject: Option<String>,
    pub participants: Vec<String>,
    pub places: Vec<String>,
    pub location: Option<String>,
    pub latitude: Option<String>,
    pub longitude: Option<String>,
    pub time: Option<String>,
    pub date_precision: Option<String>,
    pub sources: Vec<String>,
    pub force: bool,
}

impl LocalEventOptions {
    pub open spec fn spec_id(&self) -> Seq<char> {
        "event:"@ + self.event_slug@
    }

    pub fn id(&self) -> (r: String)
        ensures
            r@ == self.spec_id(),
    {
        suffixed("event:", self.event_slug.as_str())
    }
}

/// The directory under `events/` that holds events of a type.
pub open spec fn spec_event_type_dir_name(t: Seq<char>) -> Seq<char> {
    if t == "birth"@ {
        "births"@
    } else if t == "death"@ {
        "deaths"@
    } else if t == "residence"@ {
        "residences"@
    } else if t == "marriage"@ {
        "marriages"@
    } else if t == "divorce"@ {
        "divorces"@
    } else if t == "adoption"@ {
        "adoptions"@
    } else if t == "education"@ {
        "education"@
    } else if t == "military-service"@ {
        "military-service"@
    } else if t == "immigration"@ || t == "emigration"@ || t == "migration"@ {
        "migrations"@
    } else if t == "naturalization"@ {
        "naturalizations"@
    } else if t == "census"@ {
        "census"@
    } else if t == "name-change"@ {
        "name-changes"@
    } else if t == "observation"@ {
        "observations"@
    } else if t == "moment"@ {
        "moments"@
    } else {
        "other"@
    }
}

pub fn event_type_dir_name(t: &str) -> (r: &'static str)
    ensures
        r@ == spec_event_type_dir_name(t@),
{
    if str_eq(t, "birth") {
        "births"
    } else if str_eq(t, "death") {
        "deaths"
    } else if str_eq(t, "residence") {
        "residences"
    } else if str_eq(t, "marriage") {
        "marriages"
    } else if str_eq(t, "divorce") {
        "divorces"
    } else if str_eq(t, "adoption") {
        "adoptions"
    } else if str_eq(t, "education") {
        "education"
    } else if str_eq(t, "military-service") {
        "military-service"
    } else if str_eq(t, "immigration") || str_eq(t, "emigration") || str_eq(t, "migration") {
        "migrations"
    } else if str_eq(t, "naturalization") {
        "naturalizations"
    } else if str_eq(t, "census") {
        "census"
    } else if str_eq(t, "name-change") {
        "name-changes"
    } else if str_eq(t, "observation") {
        "observations"
    } else if str_eq(t, "moment") {
        "moments"
    } else {
        "other"
    }
}

/// How many times `c` occurs in `s`.
pub open spec fn count_char(s: Seq<char>, c: char) -> nat
    decreases s.len(),
{
    if s.len() == 0 {
        0
    } else {
        count_char(s.drop_last(), c) + if s.last() == c { 1nat } else { 0nat }
    }
}

/// The precision of a written time: to the minute with a `:`, to the day
/// with two or more `-`, to the month with one, else to the year; `unknown`
/// for a blank text.
pub open spec fn spec_infer_date_precision(v: Seq<char>) -> Seq<char> {
    if v.contains(':') {
        "minute"@
    } else if count_char(v, '-') >= 2 {
        "day"@
    } else if count_char(v, '-') == 1 {
        "month"@
    } else if !is_blank(v) {
        "year"@
    } else {
        "unknown"@
    }
}

pub fn infer_date_precision(v: &str) -> (r: &'static str)
    ensures
        r@ == spec_infer_date_precision(v@),
{
    let n = v.unicode_len();
    let mut colon = false;
    let mut dashes: usize = 0;
    let mut i: usize = 0;
    while i < n
        invariant
            n == v@.len(),
            i <= n,
            colon == v@.take(i as int).contains(':'),
            dashes == count_char(v@.take(i as int), '-'),
            dashes <= i,
        decreases n - i,
    {
        let c = v.get_char(i);
        let ghost t = v@.take(i + 1);
        assert(t.drop_last() =~= v@.take(i as int));
        assert(t.last() == c);
        if c == ':' {
            colon = true;
        }
        if c == '-' {
            dashes = dashes + 1;
        }
        assert(colon == t.contains(':')) by {
            if t.contains(':') && c != ':' {
                let k = choose|k: int| 0 <= k < t.len() && t[k] == ':';
                assert(v@.take(i as int)[k] == ':');
            }
            if v@.take(i as int).contains(':') {
                let k = choose|k: int| 0 <= k < i && v@.take(i as int)[k] == ':';
                assert(t[k] == ':');
            }
            if c == ':' {
                assert(t[i as int] == ':');
            }
        }
        i = i + 1;
    }
    assert(v@.take(n as int) =~= v@);
    if colon {
        "minute"
    } else if dashes >= 2 {
        "day"
    } else if dashes == 1 {
        "month"
    } else if !is_blank_str(v) {
        "year"
    } else {
        "unknown"
    }
}

/// The inline location of an event: a `[location]` table when coordinates
/// are given, a `location = "..."` line for a label alone.
pub open spec fn spec_inline_location(o: LocalEventOptions) -> Seq<char> {
    match (o.location, o.latitude, o.longitude) {
        (Some(label), Some(lat), Some(lon)) => "[location]\nlabel = \""@ + escape_toml(label@) + "\"\nlatitude = "@
            + lat@ + "\nlongitude = "@ + lon@ + "\n"@,
        (Some(label), None, None) => "location = \""@ + escape_toml(label@) + "\"\n"@,
        (None, Some(lat), Some(lon)) => "[location]\nlatitude = "@ + lat@ + "\nlongitude = "@ + lon@ + "\n"@,
        _ => seq![],
    }
}

pub fn inline_location_toml(o: &LocalEventOptions) -> (r: String)
    ensures
        r@ == spec_inline_location(*o),
{
    match (&o.location, &o.latitude, &o.longitude) {
        (Some(label), Some(lat), Some(lon)) => {
            let mut t = "[location]\nlabel = \"".to_owned();
            t.append(escape_toml_basic(label.as_str()).as_str());
            t.append("\"\nlatitude = ");
            t.append(lat.as_str());
            t.append("\nlongitude = ");
            t.append(lon.as_str());
            t.append("\n");
            t
        },
        (Some(label), None, None) => {
            let mut t = "location = \"".to_owned();
            t.append(escape_toml_basic(label.as_str()).as_str());
            t.append("\"\n");
            t
        },
        (None, Some(lat), Some(lon)) => {
            let mut t = "[location]\nlatitude = ".to_owned();
            t.append(lat.as_str());
            t.append("\nlongitude = ");
            t.append(lon.as_str());
            t.append("\n");
            t
        },
        _ => String::new(),
    }
}

/// The title line: only for a title that is not blank.
pub open spec fn title_line(o: LocalEventOptions) -> Seq<char> {
    match o.title {
        Some(t) => if is_blank(t@) { seq![] } else { opt_line("title"@, o.title) },
        None => seq![],
    }
}

/// The precision line: as given, else inferred from the time, if any.
pub open spec fn precision_line(o: LocalEventOptions) -> Seq<char> {
    match o.date_precision {
        Some(_) => opt_line("date_precision"@, o.date_precision),
        None => match o.time {
            Some(t) => "date_precision = \""@ + spec_infer_date_precision(t@) + "\"\n"@,
            None => seq![],
        },
    }
}

pub open spec fn participants_line(o: LocalEventOptions) -> Seq<char> {
    if o.participants@.len() == 0 {
        seq![]
    } else {
        "participants = "@ + spec_toml_multiline_string_array(o.participants@) + "\n"@
    }
}

/// The Markdown text of an event record.
pub open spec fn spec_event_markdown(o: LocalEventOptions) -> Seq<char> {
    let heading = match o.title {
        Some(t) => t@,
        None => o.event_type@,
    };
    "+++\nschema_version = 1\nid = \""@ + escape_toml(o.spec_id()) + "\"\nkind = \"event\"\ntype = \""@
        + escape_toml(o.event_type@) + "\"\n"@ + title_line(o) + opt_line("time"@, o.time) + precision_line(o)
        + opt_line("subject"@, o.subject) + participants_line(o) + "places = "@
        + spec_toml_multiline_string_array(o.places@) + "\nassertions = []\nsources = "@
        + spec_toml_multiline_string_array(o.sources@) + "\n"@ + spec_inline_location(o) + "+++\n\n# "@
        + heading + "\n\n## Notes\n\nDescribe what happened, what is known, and what is uncertain.\n\n## Evidence\n\nList source notes, transcriptions, or follow-up tasks here. Use `sources` and\n`assertions` in the frontmatter for structured evidence links.\n"@
}

#[verifier::rlimit(40)]
pub fn event_markdown(o: &LocalEventOptions) -> (r: String)
    ensures
        r@ == spec_event_markdown(*o),
{
    let mut text = "+++\nschema_version = 1\nid = \"".to_owned();
    text.append(escape_toml_basic(o.id().as_str()).as_str());
    text.append("\"\nkind = \"event\"\ntype = \"");
    text.append(escape_toml_basic(o.event_type.as_str()).as_str());
    text.append("\"\n");
    match &o.title {
        Some(t) => {
            if !is_blank_str(t.as_str()) {
                append_opt_line(&mut text, "title", &o.title);
            }
        },
        None => {},
    }
    append_opt_line(&mut text, "time", &o.time);
    match &o.date_precision {
        Some(_) => append_opt_line(&mut text, "date_precision", &o.date_precision),
        None => match &o.time {
            Some(t) => {
                text.append("date_precision = \"");
                text.append(infer_date_precision(t.as_str()));
                text.append("\"\n");
            },
            None => {},
        },
    }
    append_opt_line(&mut text, "subject", &o.subject);
    if o.participants.len() > 0 {
        text.append("participants = ");
        text.append(toml_multiline_string_array(&o.participants).as_str());
        text.append("\n");
    }
    text.append("places = ");
    text.append(toml_multiline_string_array(&o.places).as_str());
    text.append("\nassertions = []\nsources = ");
    text.append(toml_multiline_string_array(&o.sources).as_str());
    text.append("\n");
    text.append(inline_location_toml(o).as_str());
    text.append("+++\n\n# ");
    match &o.title {
        Some(t) => text.append(t.as_str()),
        None => text.append(o.event_type.as_str()),
    }
    text.append("\n\n## Notes\n\nDescribe what happened, what is known, and what is uncertain.\n\n## Evidence\n\nList source notes, transcriptions, or follow-up tasks here. Use `sources` and\n`assertions` in the frontmatter for structured evidence links.\n");
    text
}

/// The first problem with an event's options, in the order checked.
pub open spec fn event_options_error(o: LocalEventOptions) -> Option<Seq<char>> {
    first_error(
        slug_error(o.event_slug@, "event slug"@),
        first_error(
            slug_error(o.event_type@, "event type"@),
            first_error(
                contextual_list_error(o.participants@, "event participant"@),
                first_error(
                    contextual_list_error(o.places@, "event place"@),
                    first_error(
                        contextual_list_error(o.sources@, "event source"@),
                        if o.latitude.is_some() != o.longitude.is_some() {
                            Some("event latitude and longitude must be provided together"@)
                        } else {
                            None
                        },
                    ),
                ),
            ),
        ),
    )
}

/// Plans the Markdown file of a new event,
/// `events/<type directory>/<slug>.md`; without `force`, an existing file
/// is kept.
pub fn create_local_event(world_root: &str, options: &LocalEventOptions) -> (r: Result<
    WritePlan,
    LocalAuthoringError,
>)
    ensures
        match event_options_error(*options) {
            Some(m) => fails_with(r, m),
            None => r matches Ok(p) && record_plan(
                p,
                world_root@,
                path_join(path_join(world_root@, "events"@), spec_event_type_dir_name(options.event_type@)),
                options.event_slug@ + ".md"@,
                spec_event_markdown(*options),
                options.force,
            ),
        },
{
    validate_slug(options.event_slug.as_str(), "event slug")?;
    validate_slug(options.event_type.as_str(), "event type")?;
    validate_contextual_list(&options.participants, "event participant")?;
    validate_contextual_list(&options.places, "event place")?;
    validate_contextual_list(&options.sources, "event source")?;
    if options.latitude.is_some() != options.longitude.is_some() {
        return Err(LocalAuthoringError::validation(
            "event latitude and longitude must be provided together".to_owned(),
        ));
    }
    let paths = WorldPaths::new(world_root);
    let dir = paths.event_kind_dir(event_type_dir_name(options.event_type.as_str()));
    let file_name = suffixed(options.event_slug.as_str(), ".md");
    Ok(record_plan_new(world_root, dir, file_name.as_str(), event_markdown(options), options.force))
}

} // verus!
