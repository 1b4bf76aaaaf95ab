//! World-owned view records: timelines, trees, maps, calendars and other
//! visualizations.
use vstd::prelude::*;
use crate::local_authoring::data::{LocalDataBundle, LocalTomlDocument};
use crate::local_authoring::error::{fails_with, LocalAuthoringError};
use crate::local_authoring::summary::opt_string;
use crate::local_authoring::timeline_compile::{insert_sorted_by, lemma_insert_at, lemma_sort_step, sort_by};
use crate::sorted_text::{str_lt, text_lt};
use crate::text::str_eq;
use crate::local_authoring::paths::WorldPaths;
use crate::local_authoring::plan::{existing_rule, spec_existing_rule, text_file, text_file_new, WritePlan};
use crate::local_authoring::refs::{slug_error, validate_slug};
use crate::text::{escape_toml, escape_toml_basic, join_path, path_join};

verus! {

#[derive(Debug, Clone, Copy, PartialEq, Eq, Structural)]
pub enum LocalViewKind {
    Timeline,
    Tree,
    MapView,
    Calendar,
    Visualization,
}

impl LocalViewKind {
    pub open spec fn spec_id_prefix(self) -> Seq<char> {
        match self {
            LocalViewKind::Timeline => "timeline"@,
            LocalViewKind::Tree => "tree"@,
            LocalViewKind::MapView => "map"@,
            LocalViewKind::Calendar => "calendar"@,
            LocalViewKind::Visualization => "visualization"@,
        }
    }

    pub fn id_prefix(self) -> (r: &'static str)
        ensures
            r@ == self.spec_id_prefix(),
    {
        match self {
            LocalViewKind::Timeline => "timeline",
            LocalViewKind::Tree => "tree",
            LocalViewKind::MapView => "map",
            LocalViewKind::Calendar => "calendar",
            LocalViewKind::Visualization => "visualization",
        }
    }

    pub open spec fn spec_kind_value(self) -> Seq<char> {
        self.spec_id_prefix() + "-view"@
    }

    /// The `kind` of a view record.
    pub fn kind_value(self) -> (r: &'static str)
        ensures
            r@ == self.spec_kind_value(),
    {
        proof {
            reveal_strlit("timeline");
            reveal_strlit("tree");
            reveal_strlit("map");
            reveal_strlit("calendar");
            reveal_strlit("visualization");
            reveal_strlit("-view");
            reveal_strlit("timeline-view");
            reveal_strlit("tree-view");
            reveal_strlit("map-view");
            reveal_strlit("calendar-view");
            reveal_strlit("visualization-view");
        }
        let r = match self {
            LocalViewKind::Timeline => "timeline-view",
            LocalViewKind::Tree => "tree-view",
            LocalViewKind::MapView => "map-view",
            LocalViewKind::Calendar => "calendar-view",
            LocalViewKind::Visualization => "visualization-view",
        };
        assert(r@ =~= self.spec_kind_value());
        r
    }

    /// The directory, under `views/`, that holds views of this kind.
    pub open spec fn spec_dir_name(self) -> Seq<char> {
        match self {
            LocalViewKind::Timeline => "timelines"@,
            LocalViewKind::Tree => "trees"@,
            LocalViewKind::MapView => "maps"@,
            LocalViewKind::Calendar => "calendars"@,
            LocalViewKind::Visualization => "visualizations"@,
        }
    }
}

/// A view record found in a world.
#[derive(Debug, PartialEq, Eq)]
pub struct LocalViewSummary {
    pub id: Option<String>,
    pub kind: String,
    pub title: Option<String>,
    pub path: String,
}

#[derive(Debug, PartialEq, Eq)]
pub struct LocalViewOptions {
    pub view_slug: String,
    pub title: String,
    pub kind: LocalViewKind,
    pub subject: Option<String>,
    pub force: bool,
}

impl LocalViewOptions {
    pub open spec fn spec_id(&self) -> Seq<char> {
        self.kind.spec_id_prefix() + ":"@ + self.view_slug@
    }

    pub fn id(&self) -> (r: String)
        ensures
            r@ == self.spec_id(),
    {
        let mut r = self.kind.id_prefix().to_owned();
        r.append(":");
        r.append(self.view_slug.as_str());
        r
    }
}

pub open spec fn view_head(options: LocalViewOptions) -> Seq<char> {
    "schema_version = 1\nid = \""@ + escape_toml(options.spec_id()) + "\"\nkind = \""@
        + options.kind.spec_kind_value() + "\"\ntitle = \""@ + escape_toml(options.title@) + "\"\n"@
}

/// A `[subject]` (timelines) or `[root]` (trees) table naming the entity.
pub open spec fn entity_table(name: Seq<char>, subject: Option<String>) -> Seq<char> {
    match subject {
        Some(s) => "\n["@ + name + "]\nentity = \""@ + escape_toml(s@) + "\""@,
        None => seq![],
    }
}

/// The TOML text of a view record.
pub open spec fn spec_view_toml(options: LocalViewOptions) -> Seq<char> {
    let head = view_head(options);
    match options.kind {
        LocalViewKind::Timeline => head + entity_table("subject"@, options.subject)
            + "\n[filter]\nevent_kinds = [\"birth\", \"residence\", \"marriage\", \"death\"]\ninclude_related_people = true\ninclude_context_events = false\n\n[sort]\nby = \"date\"\ndirection = \"ascending\"\n\n[display]\ngroup_by = \"year\"\nshow_sources = true\nshow_uncertainty = true\n"@,
        LocalViewKind::Tree => head + entity_table("root"@, options.subject)
            + "\n[filter]\nrelationship_kinds = [\"biological-parent-child\", \"adoptive-parent-child\", \"foster-parent-child\", \"step-parent-child\", \"guardian-child\", \"spouse\", \"partner\", \"former-spouse\", \"sibling\"]\ngenerations_up = 5\ngenerations_down = 3\n\n[display]\nshow_life_dates = true\nshow_places = true\nshow_sources = false\n"@,
        LocalViewKind::MapView => head
            + "\n[filter]\nplace_kinds = []\nevent_kinds = []\n\n[display]\nshow_labels = true\nshow_event_markers = true\n"@,
        LocalViewKind::Calendar => head
            + "\n[filter]\nevent_kinds = []\n\n[display]\ngroup_by = \"month\"\nshow_sources = true\n"@,
        LocalViewKind::Visualization => head
            + "\n[filter]\nevent_kinds = []\nentity_kinds = []\n\n[display]\nrenderer = \"default\"\nshow_metadata = true\n"@,
    }
}

fn append_entity_table(text: &mut String, name: &str, subject: &Option<String>)
    ensures
        final(text)@ == old(text)@ + entity_table(name@, *subject),
{
    match subject {
        Some(s) => {
            text.append("\n[");
            text.append(name);
            text.append("]\nentity = \"");
            text.append(escape_toml_basic(s.as_str()).as_str());
            text.append("\"");
        },
        None => {},
    }
}

fn view_toml(options: &LocalViewOptions) -> (r: String)
    ensures
        r@ == spec_view_toml(*options),
{
    let mut text = "schema_version = 1\nid = \"".to_owned();
    text.append(escape_toml_basic(options.id().as_str()).as_str());
    text.append("\"\nkind = \"");
    text.append(options.kind.kind_value());
    text.append("\"\ntitle = \"");
    text.append(escape_toml_basic(options.title.as_str()).as_str());
    text.append("\"\n");
    match options.kind {
        LocalViewKind::Timeline => {
            append_entity_table(&mut text, "subject", &options.subject);
            text.append(
                "\n[filter]\nevent_kinds = [\"birth\", \"residence\", \"marriage\", \"death\"]\ninclude_related_people = true\ninclude_context_events = false\n\n[sort]\nby = \"date\"\ndirection = \"ascending\"\n\n[display]\ngroup_by = \"year\"\nshow_sources = true\nshow_uncertainty = true\n",
            );
        },
        LocalViewKind::Tree => {
            append_entity_table(&mut text, "root", &options.subject);
            text.append(
                "\n[filter]\nrelationship_kinds = [\"biological-parent-child\", \"adoptive-parent-child\", \"foster-parent-child\", \"step-parent-child\", \"guardian-child\", \"spouse\", \"partner\", \"former-spouse\", \"sibling\"]\ngenerations_up = 5\ngenerations_down = 3\n\n[display]\nshow_life_dates = true\nshow_places = true\nshow_sources = false\n",
            );
        },
        LocalViewKind::MapView => {
            text.append(
                "\n[filter]\nplace_kinds = []\nevent_kinds = []\n\n[display]\nshow_labels = true\nshow_event_markers = true\n",
            );
        },
        LocalViewKind::Calendar => {
            text.append(
                "\n[filter]\nevent_kinds = []\n\n[display]\ngroup_by = \"month\"\nshow_sources = true\n",
            );
        },
        LocalViewKind::Visualization => {
            text.append(
                "\n[filter]\nevent_kinds = []\nentity_kinds = []\n\n[display]\nrenderer = \"default\"\nshow_metadata = true\n",
            );
        },
    }
    text
}

/// Plans the file of a new view, `views/<kind>s/<slug>.toml`; without
/// `force`, an existing file is kept.
pub fn create_local_view(world_root: &str, options: &LocalViewOptions) -> (r: Result<
    WritePlan,
    LocalAuthoringError,
>)
    ensures
        match slug_error(options.view_slug@, "view slug"@) {
            Some(m) => fails_with(r, m),
            None => r matches Ok(p) && {
                let dir = path_join(path_join(world_root@, "views"@), options.kind.spec_dir_name());
                &&& p.root@ == world_root@
                &&& p.dirs@.len() == 1
                &&& p.dirs@[0]@ == dir
                &&& p.files@.len() == 1
                &&& text_file(
                    p.files@[0],
                    path_join(dir, options.view_slug@ + ".toml"@),
                    spec_view_toml(*options),
                    spec_existing_rule(options.force, false),
                )
            },
        },
{
    validate_slug(options.view_slug.as_str(), "view slug")?;
    let paths = WorldPaths::new(world_root);
    let dir = match options.kind {
        LocalViewKind::Timeline => paths.timeline_views_dir(),
        LocalViewKind::Tree => paths.tree_views_dir(),
        LocalViewKind::MapView => paths.map_views_dir(),
        LocalViewKind::Calendar => paths.calendar_views_dir(),
        LocalViewKind::Visualization => paths.visualization_views_dir(),
    };
    let mut file_name = options.view_slug.clone();
    file_name.append(".toml");
    let path = join_path(dir.as_str(), file_name.as_str());
    let mut dirs: Vec<String> = Vec::new();
    dirs.push(dir);
    let mut files = Vec::new();
    files.push(text_file_new(path, view_toml(options), existing_rule(options.force, false)));
    Ok(WritePlan { root: world_root.to_owned(), dirs, files })
}

// ---------------------------------------------------------------------------
// Listing the views of a world.

/// A view summary, as values.
pub struct ViewSummaryView {
    pub id: Option<Seq<char>>,
    pub kind: Seq<char>,
    pub title: Option<Seq<char>>,
    pub path: Seq<char>,
}

impl View for LocalViewSummary {
    type V = ViewSummaryView;

    open spec fn view(&self) -> ViewSummaryView {
        ViewSummaryView { id: opt_string(self.id), kind: self.kind@, title: opt_string(self.title), path: self.path@ }
    }
}

pub open spec fn summary_views(v: Seq<LocalViewSummary>) -> Seq<ViewSummaryView> {
    v.map_values(|x: LocalViewSummary| x@)
}

/// The kind of a view record.
pub open spec fn is_view_kind_value(k: Seq<char>) -> bool {
    k == "timeline-view"@ || k == "tree-view"@ || k == "map-view"@ || k == "calendar-view"@
        || k == "visualization-view"@
}

/// `d` is a view record of the asked kind (of any kind of view when none is asked).
pub open spec fn is_view_doc(d: LocalTomlDocument, kind: Option<LocalViewKind>) -> bool {
    match kind {
        Some(k) => opt_string(d.kind) == Some(k.spec_kind_value()),
        None => opt_string(d.kind) matches Some(v) && is_view_kind_value(v),
    }
}

pub open spec fn summary_of(d: LocalTomlDocument) -> ViewSummaryView {
    ViewSummaryView {
        id: opt_string(d.id),
        kind: match opt_string(d.kind) {
            Some(k) => k,
            None => seq![],
        },
        title: opt_string(d.title),
        path: d.path@,
    }
}

/// The view records among `ds`, in their order.
pub open spec fn view_docs(ds: Seq<LocalTomlDocument>, kind: Option<LocalViewKind>) -> Seq<ViewSummaryView>
    decreases ds.len(),
{
    if ds.len() == 0 {
        seq![]
    } else {
        let rest = view_docs(ds.drop_last(), kind);
        if is_view_doc(ds.last(), kind) {
            rest.push(summary_of(ds.last()))
        } else {
            rest
        }
    }
}

pub open spec fn path_before(a: ViewSummaryView, b: ViewSummaryView) -> bool {
    text_lt(a.path, b.path)
}

fn copy_opt(o: &Option<String>) -> (r: Option<String>)
    ensures
        r == *o,
{
    match o {
        Some(s) => Some(s.clone()),
        None => None,
    }
}

fn is_view_doc_exec(d: &LocalTomlDocument, kind: Option<LocalViewKind>) -> (r: bool)
    ensures
        r == is_view_doc(*d, kind),
{
    match &d.kind {
        None => false,
        Some(k) => match kind {
            Some(want) => str_eq(k.as_str(), want.kind_value()),
            None => {
                let v = k.as_str();
                str_eq(v, "timeline-view") || str_eq(v, "tree-view") || str_eq(v, "map-view")
                    || str_eq(v, "calendar-view") || str_eq(v, "visualization-view")
            },
        },
    }
}

/// The view records of a world, of one kind or of every kind, sorted by path
/// (records with the same path keep their order).
pub fn local_view_summaries(bundle: &LocalDataBundle, kind: Option<LocalViewKind>) -> (r: Vec<LocalViewSummary>)
    ensures
        summary_views(r@) == sort_by(
            view_docs(bundle.toml_documents@, kind),
            |a: ViewSummaryView, b: ViewSummaryView| path_before(a, b),
        ),
{
    let ds = &bundle.toml_documents;
    let mut found: Vec<LocalViewSummary> = Vec::new();
    let mut i: usize = 0;
    assert(summary_views(found@) =~= seq![]);
    while i < ds.len()
        invariant
            i <= ds@.len(),
            summary_views(found@) == view_docs(ds@.take(i as int), kind),
        decreases ds@.len() - i,
    {
        let d = &ds[i];
        assert(ds@.take(i + 1).drop_last() =~= ds@.take(i as int));
        assert(ds@.take(i + 1).last() == ds@[i as int]);
        if is_view_doc_exec(d, kind) {
            let k = match &d.kind {
                Some(k) => k.clone(),
                None => String::new(),
            };
            let summary = LocalViewSummary { id: copy_opt(&d.id), kind: k, title: copy_opt(&d.title), path: d.path.clone() };
            found.push(summary);
            assert(summary_views(found@) =~= view_docs(ds@.take(i as int), kind).push(summary_of(*d)));
        }
        i = i + 1;
    }
    assert(ds@.take(i as int) =~= ds@);
    let ghost before = |a: ViewSummaryView, b: ViewSummaryView| path_before(a, b);
    let ghost orig = summary_views(found@);
    let mut pending = found;
    let mut sorted: Vec<LocalViewSummary> = Vec::new();
    let ghost mut k: int = 0;
    assert(orig.take(0) =~= seq![]);
    assert(summary_views(sorted@) =~= seq![]);
    while pending.len() > 0
        invariant
            0 <= k <= orig.len(),
            summary_views(pending@) == orig.skip(k),
            summary_views(sorted@) == sort_by(orig.take(k), before),
            before == (|a: ViewSummaryView, b: ViewSummaryView| path_before(a, b)),
        decreases pending@.len(),
    {
        assert(summary_views(pending@).len() == pending@.len());
        assert(k < orig.len());
        assert(orig.skip(k)[0] == orig[k]);
        assert(summary_views(pending@)[0] == pending@[0]@);
        let ghost rest = pending@;
        let c = pending.remove(0);
        assert(c@ == orig[k]);
        assert(summary_views(pending@) =~= orig.skip(k + 1)) by {
            assert forall|j: int| 0 <= j < pending@.len() implies #[trigger] summary_views(pending@)[j] == orig.skip(k + 1)[j] by {
                assert(pending@[j] == rest[j + 1]);
                assert(summary_views(rest)[j + 1] == rest[j + 1]@);
                assert(summary_views(rest)[j + 1] == orig.skip(k)[j + 1]);
            }
        }
        let ghost sv = summary_views(sorted@);
        let mut j: usize = 0;
        while j < sorted.len() && !str_lt(c.path.as_str(), sorted[j].path.as_str())
            invariant
                j <= sorted@.len(),
                sv == summary_views(sorted@),
                forall|m: int| 0 <= m < j ==> !before(c@, #[trigger] sv[m]),
                before == (|a: ViewSummaryView, b: ViewSummaryView| path_before(a, b)),
            decreases sorted@.len() - j,
        {
            j = j + 1;
        }
        proof {
            lemma_insert_at(sv, c@, before, j as int);
            lemma_sort_step(orig, k, before);
        }
        sorted.insert(j, c);
        proof {
            assert(summary_views(sorted@) =~= sv.take(j as int).push(c@) + sv.skip(j as int));
            k = k + 1;
        }
    }
    assert(orig.take(k) =~= orig);
    sorted
}

} // verus!
