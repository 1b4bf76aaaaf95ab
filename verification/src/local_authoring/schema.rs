//! World-owned schema records: ECS components and bundles, event and view
//! schemas, and vocabularies.
use vstd::prelude::*;
use crate::local_authoring::error::{fails_with, LocalAuthoringError};
use crate::local_authoring::paths::WorldPaths;
use crate::local_authoring::plan::{existing_rule, spec_existing_rule, text_file, text_file_new, WritePlan};
use crate::local_authoring::refs::{slug_error, validate_slug};
use crate::text::{escape_toml, escape_toml_basic, join_path, path_join};

verus! {

#[derive(Debug, Clone, Copy, PartialEq, Eq, Structural)]
pub enum LocalSchemaKind {
    Component,
    Bundle,
    Event,
    View,
    Vocab,
}

impl LocalSchemaKind {
    pub open spec fn spec_as_str(self) -> Seq<char> {
        match self {
            LocalSchemaKind::Component => "ecs-component"@,
            LocalSchemaKind::Bundle => "ecs-bundle"@,
            LocalSchemaKind::Event => "event-schema"@,
            LocalSchemaKind::View => "view-schema"@,
            LocalSchemaKind::Vocab => "vocabulary"@,
        }
    }

    /// The `kind` of a schema record.
    pub fn as_str(self) -> (r: &'static str)
        ensures
            r@ == self.spec_as_str(),
    {
        match self {
            LocalSchemaKind::Component => "ecs-component",
            LocalSchemaKind::Bundle => "ecs-bundle",
            LocalSchemaKind::Event => "event-schema",
            LocalSchemaKind::View => "view-schema",
            LocalSchemaKind::Vocab => "vocabulary",
        }
    }

    pub open spec fn spec_id_prefix(self) -> Seq<char> {
        match self {
            LocalSchemaKind::Component => "component"@,
            LocalSchemaKind::Bundle => "bundle"@,
            LocalSchemaKind::Event => "event-schema"@,
            LocalSchemaKind::View => "view-schema"@,
            LocalSchemaKind::Vocab => "vocab"@,
        }
    }

    /// The prefix of the ids of schema records of this kind.
    pub fn id_prefix(self) -> (r: &'static str)
        ensures
            r@ == self.spec_id_prefix(),
    {
        match self {
            LocalSchemaKind::Component => "component",
            LocalSchemaKind::Bundle => "bundle",
            LocalSchemaKind::Event => "event-schema",
            LocalSchemaKind::View => "view-schema",
            LocalSchemaKind::Vocab => "vocab",
        }
    }

    /// The directory, under `schemas/`, that holds schema records of this kind.
    pub open spec fn spec_dir_name(self) -> Seq<char> {
        match self {
            LocalSchemaKind::Component => "components"@,
            LocalSchemaKind::Bundle => "bundles"@,
            LocalSchemaKind::Event => "events"@,
            LocalSchemaKind::View => "views"@,
            LocalSchemaKind::Vocab => "vocab"@,
        }
    }
}

#[derive(Debug, PartialEq, Eq)]
pub struct LocalSchemaOptions {
    pub schema_slug: String,
    pub title: String,
    pub kind: LocalSchemaKind,
    pub force: bool,
}

impl LocalSchemaOptions {
    pub open spec fn spec_id(&self) -> Seq<char> {
        self.kind.spec_id_prefix() + ":"@ + self.schema_slug@
    }

    pub fn id(&self) -> (r: String)
        ensures
            r@ == self.spec_id(),
    {
        let mut r = self.kind.id_prefix().to_owned();
        r.append(":");
        r.append(self.schema_slug.as_str());
        r
    }
}

/// The TOML text of a schema record: bundles list components, vocabularies
/// terms, and other schemas start with a description.
pub open spec fn spec_schema_toml(options: LocalSchemaOptions) -> Seq<char> {
    let head = "schema_version = 1\nid = \""@ + escape_toml(options.spec_id()) + "\"\nkind = \""@
        + options.kind.spec_as_str() + "\"\ntitle = \""@ + escape_toml(options.title@) + "\"\n"@;
    head + match options.kind {
        LocalSchemaKind::Bundle => "\ncomponents = []\n"@,
        LocalSchemaKind::Vocab => "\nterms = []\n"@,
        _ => "description = \"\"\n"@,
    }
}

fn schema_toml(options: &LocalSchemaOptions) -> (r: String)
    ensures
        r@ == spec_schema_toml(*options),
{
    let mut text = "schema_version = 1\nid = \"".to_owned();
    text.append(escape_toml_basic(options.id().as_str()).as_str());
    text.append("\"\nkind = \"");
    text.append(options.kind.as_str());
    text.append("\"\ntitle = \"");
    text.append(escape_toml_basic(options.title.as_str()).as_str());
    text.append("\"\n");
    match options.kind {
        LocalSchemaKind::Bundle => text.append("\ncomponents = []\n"),
        LocalSchemaKind::Vocab => text.append("\nterms = []\n"),
        _ => text.append("description = \"\"\n"),
    }
    text
}

/// Plans the file of a new schema record, `schemas/<kind>/<slug>.toml`;
/// without `force`, an existing file is kept.
pub fn create_local_schema(world_root: &str, options: &LocalSchemaOptions) -> (r: Result<
    WritePlan,
    LocalAuthoringError,
>)
    ensures
        match slug_error(options.schema_slug@, "schema slug"@) {
            Some(m) => fails_with(r, m),
            None => r matches Ok(p) && {
                let dir = path_join(path_join(world_root@, "schemas"@), options.kind.spec_dir_name());
                &&& p.root@ == world_root@
                &&& p.dirs@.len() == 1
                &&& p.dirs@[0]@ == dir
                &&& p.files@.len() == 1
                &&& text_file(
                    p.files@[0],
                    path_join(dir, options.schema_slug@ + ".toml"@),
                    spec_schema_toml(*options),
                    spec_existing_rule(options.force, false),
                )
            },
        },
{
    validate_slug(options.schema_slug.as_str(), "schema slug")?;
    let paths = WorldPaths::new(world_root);
    let dir = match options.kind {
        LocalSchemaKind::Component => paths.component_schemas_dir(),
        LocalSchemaKind::Bundle => paths.bundle_schemas_dir(),
        LocalSchemaKind::Event => paths.event_schemas_dir(),
        LocalSchemaKind::View => paths.view_schemas_dir(),
        LocalSchemaKind::Vocab => paths.vocab_schemas_dir(),
    };
    let mut file_name = options.schema_slug.clone();
    file_name.append(".toml");
    let path = join_path(dir.as_str(), file_name.as_str());
    let mut dirs: Vec<String> = Vec::new();
    dirs.push(dir);
    let mut files = Vec::new();
    files.push(text_file_new(path, schema_toml(options), existing_rule(options.force, false)));
    Ok(WritePlan { root: world_root.to_owned(), dirs, files })
}

} // verus!
