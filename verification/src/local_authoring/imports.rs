//! Import reports: a record of what an import of GEDCOM, Wikidata or CSV
//! data plans to create and update.
use vstd::prelude::*;
use crate::local_authoring::error::{fails_with, LocalAuthoringError};
use crate::local_authoring::paths::WorldPaths;
use crate::local_authoring::plan::{existing_rule, spec_existing_rule, text_file, text_file_new, WritePlan};
use crate::local_authoring::refs::{slug_error, validate_slug};
use crate::text::{escape_toml, escape_toml_basic, join_path, path_join};

verus! {

#[derive(Debug, Clone, Copy, PartialEq, Eq, Structural)]
pub enum LocalImportKind {
    Gedcom,
    Wikidata,
    Csv,
}

impl LocalImportKind {
    pub open spec fn spec_as_str(self) -> Seq<char> {
        match self {
            LocalImportKind::Gedcom => "gedcom"@,
            LocalImportKind::Wikidata => "wikidata"@,
            LocalImportKind::Csv => "csv"@,
        }
    }

    pub fn as_str(self) -> (r: &'static str)
        ensures
            r@ == self.spec_as_str(),
    {
        match self {
            LocalImportKind::Gedcom => "gedcom",
            LocalImportKind::Wikidata => "wikidata",
            LocalImportKind::Csv => "csv",
        }
    }
}

#[derive(Debug, PartialEq, Eq)]
pub struct LocalImportReportOptions {
    pub import_slug: String,
    pub kind: LocalImportKind,
    pub title: String,
    pub source_path: Option<String>,
    pub force: bool,
}

impl LocalImportReportOptions {
    pub open spec fn spec_id(&self) -> Seq<char> {
        "import:"@ + self.kind.spec_as_str() + ":"@ + self.import_slug@
    }

    pub fn id(&self) -> (r: String)
        ensures
            r@ == self.spec_id(),
    {
        let mut r = "import:".to_owned();
        r.append(self.kind.as_str());
        r.append(":");
        r.append(self.import_slug.as_str());
        r
    }
}

/// The TOML text of a planned import report, with zero counts.
pub open spec fn spec_import_report_toml(options: LocalImportReportOptions) -> Seq<char> {
    let source_path = match options.source_path {
        Some(p) => "source_path = \""@ + escape_toml(p@) + "\"\n"@,
        None => seq![],
    };
    "schema_version = 1\nid = \""@ + escape_toml(options.spec_id()) + "\"\nkind = \""@
        + options.kind.spec_as_str() + "-import-report\"\ntitle = \""@ + escape_toml(options.title@)
        + "\"\n"@ + source_path
        + "strategy = \"link\"\nstatus = \"planned\"\n\n[created]\nentities = 0\nevents = 0\nassertions = 0\nsources = 0\n\n[updated]\nentities = 0\nevents = 0\nassertions = 0\nsources = 0\n"@
}

fn import_report_toml(options: &LocalImportReportOptions) -> (r: String)
    ensures
        r@ == spec_import_report_toml(*options),
{
    let mut text = "schema_version = 1\nid = \"".to_owned();
    text.append(escape_toml_basic(options.id().as_str()).as_str());
    text.append("\"\nkind = \"");
    text.append(options.kind.as_str());
    text.append("-import-report\"\ntitle = \"");
    text.append(escape_toml_basic(options.title.as_str()).as_str());
    text.append("\"\n");
    match &options.source_path {
        Some(p) => {
            text.append("source_path = \"");
            text.append(escape_toml_basic(p.as_str()).as_str());
            text.append("\"\n");
        },
        None => {},
    }
    text.append(
        "strategy = \"link\"\nstatus = \"planned\"\n\n[created]\nentities = 0\nevents = 0\nassertions = 0\nsources = 0\n\n[updated]\nentities = 0\nevents = 0\nassertions = 0\nsources = 0\n",
    );
    text
}

/// Plans a report file, `imports/<kind>/<slug>-report.toml`; without
/// `force`, an existing file is kept.
pub fn create_local_import_report(world_root: &str, options: &LocalImportReportOptions) -> (r: Result<
    WritePlan,
    LocalAuthoringError,
>)
    ensures
        match slug_error(options.import_slug@, "import slug"@) {
            Some(m) => fails_with(r, m),
            None => r matches Ok(p) && {
                let dir = path_join(path_join(world_root@, "imports"@), options.kind.spec_as_str());
                &&& p.root@ == world_root@
                &&& p.dirs@.len() == 1
                &&& p.dirs@[0]@ == dir
                &&& p.files@.len() == 1
                &&& text_file(
                    p.files@[0],
                    path_join(dir, options.import_slug@ + "-report.toml"@),
                    spec_import_report_toml(*options),
                    spec_existing_rule(options.force, false),
                )
            },
        },
{
    validate_slug(options.import_slug.as_str(), "import slug")?;
    let paths = WorldPaths::new(world_root);
    let dir = match options.kind {
        LocalImportKind::Gedcom => paths.gedcom_imports_dir(),
        LocalImportKind::Wikidata => paths.wikidata_imports_dir(),
        LocalImportKind::Csv => paths.csv_imports_dir(),
    };
    let mut file_name = options.import_slug.clone();
    file_name.append("-report.toml");
    let path = join_path(dir.as_str(), file_name.as_str());
    let mut dirs: Vec<String> = Vec::new();
    dirs.push(dir);
    let mut files = Vec::new();
    files.push(
        text_file_new(path, import_report_toml(options), existing_rule(options.force, false)),
    );
    Ok(WritePlan { root: world_root.to_owned(), dirs, files })
}

} // verus!
