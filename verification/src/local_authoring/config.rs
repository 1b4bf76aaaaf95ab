//! Workspace and world configuration, and how configured paths resolve.
use vstd::prelude::*;
use crate::local_authoring::error::{is_validation, LocalAuthoringError};
use crate::local_authoring::paths::{WorkspacePaths, WorldPaths, DEFAULT_WORLD_SLUG};
use crate::text::{is_blank, is_blank_str, join_path, path_join, str_eq, trim, trim_seq};

verus! {

broadcast use vstd::seq_lib::group_seq_properties;

/// `kleio.toml`: the worlds of a workspace and which one is the default.
#[derive(Debug, PartialEq, Eq)]
pub struct WorkspaceConfig {
    pub schema_version: u32,
    pub workspace: WorkspaceInfo,
    pub worlds: Vec<WorkspaceWorldEntry>,
}

#[derive(Debug, PartialEq, Eq)]
pub struct WorkspaceInfo {
    pub id: String,
    pub title: String,
    pub default_world: String,
}

/// A world registered in a workspace, at `path` relative to the workspace root.
#[derive(Debug, PartialEq, Eq)]
pub struct WorkspaceWorldEntry {
    pub id: String,
    pub slug: String,
    pub title: String,
    pub path: String,
}

impl Clone for WorkspaceInfo {
    fn clone(&self) -> (r: Self)
        ensures
            r == *self,
    {
        WorkspaceInfo {
            id: self.id.clone(),
            title: self.title.clone(),
            default_world: self.default_world.clone(),
        }
    }
}

impl Clone for WorkspaceWorldEntry {
    fn clone(&self) -> (r: Self)
        ensures
            r == *self,
    {
        WorkspaceWorldEntry {
            id: self.id.clone(),
            slug: self.slug.clone(),
            title: self.title.clone(),
            path: self.path.clone(),
        }
    }
}

impl Clone for WorkspaceConfig {
    fn clone(&self) -> (r: Self)
        ensures
            r.schema_version == self.schema_version,
            r.workspace == self.workspace,
            r.worlds@ == self.worlds@,
    {
        let worlds = self.worlds.clone();
        assert(worlds@ =~= self.worlds@);
        WorkspaceConfig {
            schema_version: self.schema_version,
            workspace: self.workspace.clone(),
            worlds,
        }
    }
}

/// `e` is the entry that registers world `slug` titled `title`.
pub open spec fn entry_for(e: WorkspaceWorldEntry, slug: Seq<char>, title: Seq<char>) -> bool {
    &&& e.id@ == "world:"@ + slug
    &&& e.slug@ == slug
    &&& e.title@ == title
    &&& e.path@ == "worlds/"@ + slug
}

/// Index of the first entry of world `slug`.
pub open spec fn first_world(worlds: Seq<WorkspaceWorldEntry>, slug: Seq<char>) -> Option<int>
    decreases worlds.len(),
{
    if worlds.len() == 0 {
        None
    } else {
        match first_world(worlds.drop_last(), slug) {
            Some(i) => Some(i),
            None => if worlds.last().slug@ == slug {
                Some(worlds.len() - 1)
            } else {
                None
            },
        }
    }
}

/// `first_world` is the least index whose slug matches.
pub proof fn lemma_first_world(worlds: Seq<WorkspaceWorldEntry>, slug: Seq<char>)
    ensures
        first_world(worlds, slug) matches Some(i) ==> {
            &&& 0 <= i < worlds.len()
            &&& worlds[i].slug@ == slug
            &&& forall|j: int| 0 <= j < i ==> (#[trigger] worlds[j]).slug@ != slug
        },
        first_world(worlds, slug).is_none() ==> forall|j: int|
            0 <= j < worlds.len() ==> (#[trigger] worlds[j]).slug@ != slug,
    decreases worlds.len(),
{
    if worlds.len() > 0 {
        let d = worlds.drop_last();
        lemma_first_world(d, slug);
        assert forall|j: int| 0 <= j < d.len() implies d[j] == worlds[j] by {}
    }
}

pub proof fn lemma_first_world_from(worlds: Seq<WorkspaceWorldEntry>, slug: Seq<char>, i: int)
    requires
        0 <= i < worlds.len(),
        worlds[i].slug@ == slug,
        forall|j: int| 0 <= j < i ==> (#[trigger] worlds[j]).slug@ != slug,
    ensures
        first_world(worlds, slug) == Some(i),
    decreases worlds.len(),
{
    let d = worlds.drop_last();
    if i < worlds.len() - 1 {
        assert forall|j: int| 0 <= j < i implies (#[trigger] d[j]).slug@ != slug by {
            assert(d[j] == worlds[j]);
        }
        assert(d[i] == worlds[i]);
        lemma_first_world_from(d, slug, i);
    } else {
        lemma_first_world(d, slug);
        if let Some(k) = first_world(d, slug) {
            assert(d[k] == worlds[k]);
        }
    }
}

pub proof fn lemma_first_world_none(worlds: Seq<WorkspaceWorldEntry>, slug: Seq<char>)
    requires
        forall|j: int| 0 <= j < worlds.len() ==> (#[trigger] worlds[j]).slug@ != slug,
    ensures
        first_world(worlds, slug).is_none(),
{
    lemma_first_world(worlds, slug);
    if let Some(i) = first_world(worlds, slug) {
        assert(worlds[i].slug@ == slug);
    }
}

/// `new` is `old` with world `slug` registered under `title`: its first
/// entry replaced, or a new entry appended when there was none.
pub open spec fn upserted(
    old: Seq<WorkspaceWorldEntry>,
    new: Seq<WorkspaceWorldEntry>,
    slug: Seq<char>,
    title: Seq<char>,
) -> bool {
    match first_world(old, slug) {
        Some(i) => {
            &&& new.len() == old.len()
            &&& entry_for(new[i], slug, title)
            &&& forall|j: int| 0 <= j < old.len() && j != i ==> #[trigger] new[j] == old[j]
        },
        None => {
            &&& new.len() == old.len() + 1
            &&& new.take(old.len() as int) == old
            &&& entry_for(new.last(), slug, title)
        },
    }
}

fn world_entry_new(world_slug: &str, world_title: &str) -> (r: WorkspaceWorldEntry)
    ensures
        entry_for(r, world_slug@, world_title@),
{
    let mut id = "world:".to_owned();
    id.append(world_slug);
    let mut path = "worlds/".to_owned();
    path.append(world_slug);
    WorkspaceWorldEntry { id, slug: world_slug.to_owned(), title: world_title.to_owned(), path }
}

fn find_world(worlds: &Vec<WorkspaceWorldEntry>, world_slug: &str) -> (r: Option<usize>)
    ensures
        r matches Some(i) ==> i < worlds@.len() && first_world(worlds@, world_slug@) == Some(
            i as int,
        ),
        r.is_none() ==> first_world(worlds@, world_slug@).is_none(),
{
    let n = worlds.len();
    let mut i: usize = 0;
    while i < n
        invariant
            n == worlds@.len(),
            i <= n,
            forall|j: int| 0 <= j < i ==> (#[trigger] worlds@[j]).slug@ != world_slug@,
        decreases n - i,
    {
        if str_eq(worlds[i].slug.as_str(), world_slug) {
            proof {
                lemma_first_world_from(worlds@, world_slug@, i as int);
            }
            return Some(i);
        }
        i = i + 1;
    }
    proof {
        lemma_first_world_none(worlds@, world_slug@);
    }
    None
}

impl WorkspaceConfig {
    pub const SCHEMA_VERSION: u32 = 1;

    /// A workspace with one world, which is its default.
    pub fn with_default_world(world_slug: &str, world_title: &str) -> (r: Self)
        ensures
            r.schema_version == 1,
            r.workspace.id@ == "workspace:default"@,
            r.workspace.title@ == "Kleio workspace"@,
            r.workspace.default_world@ == world_slug@,
            r.worlds@.len() == 1,
            entry_for(r.worlds@[0], world_slug@, world_title@),
    {
        let mut config = Self {
            schema_version: Self::SCHEMA_VERSION,
            workspace: WorkspaceInfo {
                id: "workspace:default".to_owned(),
                title: "Kleio workspace".to_owned(),
                default_world: world_slug.to_owned(),
            },
            worlds: Vec::new(),
        };
        config.upsert_world(world_slug, world_title);
        config
    }

    /// Registers world `world_slug` at `worlds/<slug>`, replacing its entry
    /// when it is registered already.
    pub fn upsert_world(&mut self, world_slug: &str, world_title: &str)
        ensures
            final(self).schema_version == old(self).schema_version,
            final(self).workspace == old(self).workspace,
            upserted(old(self).worlds@, final(self).worlds@, world_slug@, world_title@),
    {
        let entry = world_entry_new(world_slug, world_title);
        match find_world(&self.worlds, world_slug) {
            Some(i) => {
                self.worlds.set(i, entry);
            },
            None => {
                self.worlds.push(entry);
                assert(self.worlds@.take(old(self).worlds@.len() as int) =~= old(self).worlds@);
            },
        }
    }

    /// The first entry of world `world_slug`.
    pub fn world_entry(&self, world_slug: &str) -> (r: Option<&WorkspaceWorldEntry>)
        ensures
            r.is_none() == first_world(self.worlds@, world_slug@).is_none(),
            r matches Some(e) ==> first_world(self.worlds@, world_slug@) matches Some(i) && *e
                == self.worlds@[i],
    {
        match find_world(&self.worlds, world_slug) {
            Some(i) => Some(&self.worlds[i]),
            None => None,
        }
    }

    pub fn default_world_entry(&self) -> (r: Option<&WorkspaceWorldEntry>)
        ensures
            r.is_none() == first_world(self.worlds@, self.workspace.default_world@).is_none(),
            r matches Some(e) ==> first_world(self.worlds@, self.workspace.default_world@) matches Some(
                i,
            ) && *e == self.worlds@[i],
    {
        self.world_entry(self.workspace.default_world.as_str())
    }

    pub open spec fn spec_world_path(&self, world_slug: Seq<char>) -> Option<Seq<char>> {
        match first_world(self.worlds@, world_slug) {
            Some(i) => Some(self.worlds@[i].path@),
            None => None,
        }
    }

    /// The path of world `world_slug`, relative to the workspace root.
    pub fn world_path(&self, world_slug: &str) -> (r: Option<&str>)
        ensures
            match r {
                Some(p) => self.spec_world_path(world_slug@) == Some(p@),
                None => self.spec_world_path(world_slug@).is_none(),
            },
    {
        match self.world_entry(world_slug) {
            Some(e) => Some(e.path.as_str()),
            None => None,
        }
    }

    pub fn default_world_path(&self) -> (r: Option<&str>)
        ensures
            match r {
                Some(p) => self.spec_world_path(self.workspace.default_world@) == Some(p@),
                None => self.spec_world_path(self.workspace.default_world@).is_none(),
            },
    {
        self.world_path(self.workspace.default_world.as_str())
    }
}

/// Law: after registering world `slug`, looking it up finds the new entry,
/// at `worlds/<slug>`.
pub proof fn law_upsert_then_lookup(
    old: Seq<WorkspaceWorldEntry>,
    new: Seq<WorkspaceWorldEntry>,
    slug: Seq<char>,
    title: Seq<char>,
)
    requires
        upserted(old, new, slug, title),
    ensures
        first_world(new, slug) matches Some(i) && entry_for(new[i], slug, title),
{
    lemma_first_world(old, slug);
    match first_world(old, slug) {
        Some(i) => {
            assert forall|j: int| 0 <= j < i implies (#[trigger] new[j]).slug@ != slug by {
                assert(new[j] == old[j]);
            }
            lemma_first_world_from(new, slug, i);
        },
        None => {
            let n = old.len() as int;
            assert forall|j: int| 0 <= j < n implies (#[trigger] new[j]).slug@ != slug by {
                assert(new[j] == new.take(n)[j]);
            }
            lemma_first_world_from(new, slug, n);
        },
    }
}

/// Law: registering world `slug` leaves every other world's entry as it was.
pub proof fn law_upsert_keeps_other_worlds(
    old: Seq<WorkspaceWorldEntry>,
    new: Seq<WorkspaceWorldEntry>,
    slug: Seq<char>,
    title: Seq<char>,
    other: Seq<char>,
)
    requires
        upserted(old, new, slug, title),
        other != slug,
    ensures
        first_world(new, other) == first_world(old, other),
        first_world(old, other) matches Some(k) ==> new[k] == old[k],
{
    lemma_first_world(old, slug);
    lemma_first_world(old, other);
    let n = old.len() as int;
    assert forall|j: int| 0 <= j < n && (#[trigger] old[j]).slug@ == other implies new[j] == old[j] by {
        if let Some(i) = first_world(old, slug) {
            if j == i {
                assert(old[i].slug@ == slug);
            }
        } else {
            assert(new[j] == new.take(n)[j]);
        }
    }
    assert forall|j: int| 0 <= j < new.len() && (#[trigger] new[j]).slug@ == other implies j < n
        && old[j] == new[j] by {
        if let Some(i) = first_world(old, slug) {
            if j == i {
                assert(new[i].slug@ == slug);
            }
        } else {
            if j == n {
                assert(new[j] == new.last());
            } else {
                assert(new[j] == new.take(n)[j]);
            }
        }
    }
    match first_world(old, other) {
        Some(k) => {
            assert forall|j: int| 0 <= j < k implies (#[trigger] new[j]).slug@ != other by {
                if new[j].slug@ == other {
                    assert(old[j] == new[j]);
                }
            }
            lemma_first_world_from(new, other, k);
        },
        None => {
            assert forall|j: int| 0 <= j < new.len() implies (#[trigger] new[j]).slug@ != other by {
                if new[j].slug@ == other {
                    assert(old[j] == new[j]);
                }
            }
            lemma_first_world_none(new, other);
        },
    }
}

// ---------------------------------------------------------------------------
// Relative paths.

pub open spec fn is_absolute(p: Seq<char>) -> bool {
    p.len() > 0 && p[0] == '/'
}

/// A `..` component starts at index `i`.
pub open spec fn parent_at(p: Seq<char>, i: int) -> bool {
    &&& 0 <= i
    &&& i + 2 <= p.len()
    &&& p[i] == '.'
    &&& p[i + 1] == '.'
    &&& (i == 0 || p[i - 1] == '/')
    &&& (i + 2 == p.len() || p[i + 2] == '/')
}

/// The path has a `..` component.
pub open spec fn has_parent_component(p: Seq<char>) -> bool {
    exists|i: int| parent_at(p, i)
}

fn find_parent_component(p: &str) -> (r: bool)
    ensures
        r == has_parent_component(p@),
{
    let n = p.unicode_len();
    let mut i: usize = 0;
    while i < n && i + 1 < n
        invariant
            n == p@.len(),
            i <= n,
            forall|j: int| 0 <= j < i ==> !parent_at(p@, j),
        decreases n - i,
    {
        let starts = i == 0 || p.get_char(i - 1) == '/';
        let ends = i + 2 == n || p.get_char(i + 2) == '/';
        if p.get_char(i) == '.' && p.get_char(i + 1) == '.' && starts && ends {
            assert(parent_at(p@, i as int));
            return true;
        }
        i = i + 1;
    }
    assert forall|j: int| #![trigger parent_at(p@, j)] !parent_at(p@, j) by {
        if 0 <= j && j < i {
        }
    }
    false
}

/// Why `path` (trimmed) is no path inside the root, if it is none. `what`
/// names the path and `root` the root in the message.
pub open spec fn relative_path_error(path: Seq<char>, what: Seq<char>, root: Seq<char>) -> Option<
    Seq<char>,
> {
    let t = trim_seq(path);
    if t.len() == 0 || is_absolute(t) {
        Some(what + " `"@ + t + "` must be relative"@)
    } else if has_parent_component(t) {
        Some(what + " `"@ + t + "` must stay inside the "@ + root)
    } else {
        None
    }
}

/// `r` is `root` joined with `path` (trimmed), or the error when `path`
/// could leave the root.
pub open spec fn resolved_inside(
    r: Result<String, LocalAuthoringError>,
    root: Seq<char>,
    path: Seq<char>,
    what: Seq<char>,
    root_name: Seq<char>,
) -> bool {
    match relative_path_error(path, what, root_name) {
        Some(m) => r matches Err(e) && is_validation(e, m),
        None => r matches Ok(p) && p@ == path_join(root, trim_seq(path)),
    }
}

fn message4(a: &str, b: &str, c: &str, d: &str) -> (r: String)
    ensures
        r@ == a@ + b@ + c@ + d@,
{
    let mut r = a.to_owned();
    r.append(b);
    r.append(c);
    r.append(d);
    r
}

fn message5(a: &str, b: &str, c: &str, d: &str, e: &str) -> (r: String)
    ensures
        r@ == a@ + b@ + c@ + d@ + e@,
{
    let mut r = a.to_owned();
    r.append(b);
    r.append(c);
    r.append(d);
    r.append(e);
    r
}

fn normalize_relative_path(root: &str, path: &str, what: &str, root_name: &str) -> (r: Result<
    String,
    LocalAuthoringError,
>)
    ensures
        resolved_inside(r, root@, path@, what@, root_name@),
{
    let t = trim(path);
    let t = t.as_str();
    let n = t.unicode_len();
    if n == 0 || t.get_char(0) == '/' {
        return Err(LocalAuthoringError::validation(message4(what, " `", t, "` must be relative")));
    }
    if find_parent_component(t) {
        return Err(
            LocalAuthoringError::validation(
                message5(what, " `", t, "` must stay inside the ", root_name),
            ),
        );
    }
    Ok(join_path(root, t))
}

/// A world path from `kleio.toml`, resolved against the workspace root; it
/// must be relative and may not climb out with `..`.
pub fn normalize_workspace_relative_path(workspace_root: &str, path: &str) -> (r: Result<
    String,
    LocalAuthoringError,
>)
    ensures
        resolved_inside(r, workspace_root@, path@, "world path"@, "workspace root"@),
{
    normalize_relative_path(workspace_root, path, "world path", "workspace root")
}

/// A build path from `world.toml`, resolved against the world root; it
/// must be relative and may not climb out with `..`.
pub fn normalize_world_relative_path(world_root: &str, path: &str) -> (r: Result<
    String,
    LocalAuthoringError,
>)
    ensures
        resolved_inside(r, world_root@, path@, "world build path"@, "world root"@),
{
    normalize_relative_path(world_root, path, "world build path", "world root")
}

/// The world slug asked for: the given one, else the configured default;
/// `default` when that is absent or blank.
pub open spec fn chosen_world_slug(
    world_slug: Option<Seq<char>>,
    config: Option<WorkspaceConfig>,
) -> Seq<char> {
    let candidate = match world_slug {
        Some(s) => Some(s),
        None => match config {
            Some(c) => Some(c.workspace.default_world@),
            None => None,
        },
    };
    match candidate {
        Some(s) => if is_blank(s) {
            "default"@
        } else {
            s
        },
        None => "default"@,
    }
}

pub open spec fn opt_str_view(o: Option<&str>) -> Option<Seq<char>> {
    match o {
        Some(s) => Some(s@),
        None => None,
    }
}

pub open spec fn opt_config(o: Option<&WorkspaceConfig>) -> Option<WorkspaceConfig> {
    match o {
        Some(c) => Some(*c),
        None => None,
    }
}

/// The root of the world to work on. Without a workspace config it is
/// `worlds/<slug>` under the workspace root; with one (`config`, as read
/// from `kleio.toml`) it is the registered path of the world, which must be
/// registered and stay inside the workspace.
pub fn resolve_workspace_world_root(
    workspace_root: &str,
    world_slug: Option<&str>,
    config: Option<&WorkspaceConfig>,
) -> (r: Result<String, LocalAuthoringError>)
    ensures
        ({
            let slug = chosen_world_slug(opt_str_view(world_slug), opt_config(config));
            match config {
                None => r matches Ok(p) && p@ == path_join(
                    path_join(workspace_root@, "worlds"@),
                    slug,
                ),
                Some(c) => match c.spec_world_path(slug) {
                    Some(path) => resolved_inside(
                        r,
                        workspace_root@,
                        path,
                        "world path"@,
                        "workspace root"@,
                    ),
                    None => r matches Err(e) && is_validation(
                        e,
                        "world `"@ + slug + "` is not registered in "@ + path_join(
                            workspace_root@,
                            "kleio.toml"@,
                        ),
                    ),
                },
            }
        }),
{
    let candidate: Option<String> = match world_slug {
        Some(s) => Some(s.to_owned()),
        None => match config {
            Some(c) => Some(c.workspace.default_world.clone()),
            None => None,
        },
    };
    let slug = match candidate {
        Some(s) => if is_blank_str(s.as_str()) {
            DEFAULT_WORLD_SLUG.to_owned()
        } else {
            s
        },
        None => DEFAULT_WORLD_SLUG.to_owned(),
    };
    match config {
        Some(c) => {
            match c.world_path(slug.as_str()) {
                Some(path) => normalize_workspace_relative_path(workspace_root, path),
                None => {
                    let config_path = WorkspacePaths::new(workspace_root).config();
                    Err(
                        LocalAuthoringError::validation(
                            message4(
                                "world `",
                                slug.as_str(),
                                "` is not registered in ",
                                config_path.as_str(),
                            ),
                        ),
                    )
                },
            }
        },
        None => {
            let paths = WorkspacePaths::new(workspace_root).world(slug.as_str());
            Ok(paths.root().to_owned())
        },
    }
}

/// Where a world's build outputs go.
#[derive(Debug, PartialEq, Eq)]
pub struct WorldBuildPaths {
    pub compiled_json: String,
    pub ecs_json: String,
    pub sqlite: String,
}

/// `world.toml`: a world's identity, build outputs and imports.
#[derive(Debug, PartialEq, Eq)]
pub struct WorldConfig {
    pub schema_version: u32,
    pub id: String,
    pub slug: String,
    pub title: String,
    pub kind: String,
    pub build: WorldBuildConfig,
    pub imports: WorldImportsConfig,
}

#[derive(Debug, PartialEq, Eq)]
pub struct WorldBuildConfig {
    pub compiled_json: String,
    pub ecs_json: String,
    pub sqlite: String,
}

#[derive(Debug, PartialEq, Eq)]
pub struct WorldImportsConfig {
    pub gedcom: GedcomImportsConfig,
}

#[derive(Debug, PartialEq, Eq)]
pub struct GedcomImportsConfig {
    pub primary: Option<GedcomImportConfig>,
}

/// The GEDCOM file a world is linked to.
#[derive(Debug, PartialEq, Eq)]
pub struct GedcomImportConfig {
    pub path: String,
    pub strategy: String,
}

impl Clone for GedcomImportConfig {
    fn clone(&self) -> (r: Self)
        ensures
            r == *self,
    {
        GedcomImportConfig { path: self.path.clone(), strategy: self.strategy.clone() }
    }
}

impl Clone for GedcomImportsConfig {
    fn clone(&self) -> (r: Self)
        ensures
            r == *self,
    {
        GedcomImportsConfig {
            primary: match &self.primary {
                Some(p) => Some(p.clone()),
                None => None,
            },
        }
    }
}

impl Clone for WorldImportsConfig {
    fn clone(&self) -> (r: Self)
        ensures
            r == *self,
    {
        WorldImportsConfig { gedcom: self.gedcom.clone() }
    }
}

impl Clone for WorldBuildConfig {
    fn clone(&self) -> (r: Self)
        ensures
            r == *self,
    {
        WorldBuildConfig {
            compiled_json: self.compiled_json.clone(),
            ecs_json: self.ecs_json.clone(),
            sqlite: self.sqlite.clone(),
        }
    }
}

impl Clone for WorldConfig {
    fn clone(&self) -> (r: Self)
        ensures
            r == *self,
    {
        WorldConfig {
            schema_version: self.schema_version,
            id: self.id.clone(),
            slug: self.slug.clone(),
            title: self.title.clone(),
            kind: self.kind.clone(),
            build: self.build.clone(),
            imports: self.imports.clone(),
        }
    }
}

impl Default for WorldImportsConfig {
    fn default() -> (r: Self)
        ensures
            r.gedcom.primary.is_none(),
    {
        WorldImportsConfig { gedcom: GedcomImportsConfig::default() }
    }
}

impl Default for GedcomImportsConfig {
    fn default() -> (r: Self)
        ensures
            r.primary.is_none(),
    {
        GedcomImportsConfig { primary: None }
    }
}

impl WorldImportsConfig {
    /// Whether nothing is imported (the section is then left out of `world.toml`).
    pub fn is_empty(&self) -> (r: bool)
        ensures
            r == self.gedcom.primary.is_none(),
    {
        self.gedcom.is_empty()
    }
}

impl GedcomImportsConfig {
    pub fn is_empty(&self) -> (r: bool)
        ensures
            r == self.primary.is_none(),
    {
        self.primary.is_none()
    }
}

impl WorldConfig {
    pub const SCHEMA_VERSION: u32 = 1;

    /// A family-history world with the standard build outputs and no imports.
    pub fn new(slug: &str, title: &str) -> (r: Self)
        ensures
            r.schema_version == 1,
            r.id@ == "world:"@ + slug@,
            r.slug@ == slug@,
            r.title@ == title@,
            r.kind@ == "family-history"@,
            r.build.compiled_json@ == "build/kleio.compiled.json"@,
            r.build.ecs_json@ == "build/kleio.ecs.json"@,
            r.build.sqlite@ == "build/kleio.sqlite"@,
            r.imports.gedcom.primary.is_none(),
    {
        let mut id = "world:".to_owned();
        id.append(slug);
        Self {
            schema_version: Self::SCHEMA_VERSION,
            id,
            slug: slug.to_owned(),
            title: title.to_owned(),
            kind: "family-history".to_owned(),
            build: WorldBuildConfig {
                compiled_json: "build/kleio.compiled.json".to_owned(),
                ecs_json: "build/kleio.ecs.json".to_owned(),
                sqlite: "build/kleio.sqlite".to_owned(),
            },
            imports: WorldImportsConfig::default(),
        }
    }
}

/// The build outputs of a world: the standard ones under `build/` without a
/// world config, else the configured ones (`config`, as read from
/// `world.toml`), each resolved inside the world root; the first path that
/// would leave it is the error.
pub fn resolve_world_build_paths(world_root: &str, config: Option<&WorldConfig>) -> (r: Result<
    WorldBuildPaths,
    LocalAuthoringError,
>)
    ensures
        match config {
            None => r matches Ok(p) && {
                &&& p.compiled_json@ == path_join(
                    path_join(world_root@, "build"@),
                    "kleio.compiled.json"@,
                )
                &&& p.ecs_json@ == path_join(path_join(world_root@, "build"@), "kleio.ecs.json"@)
                &&& p.sqlite@ == path_join(path_join(world_root@, "build"@), "kleio.sqlite"@)
            },
            Some(c) => {
                let w = "world build path"@;
                let root = "world root"@;
                match (
                    relative_path_error(c.build.compiled_json@, w, root),
                    relative_path_error(c.build.ecs_json@, w, root),
                    relative_path_error(c.build.sqlite@, w, root),
                ) {
                    (Some(m), _, _) => r matches Err(e) && is_validation(e, m),
                    (None, Some(m), _) => r matches Err(e) && is_validation(e, m),
                    (None, None, Some(m)) => r matches Err(e) && is_validation(e, m),
                    (None, None, None) => r matches Ok(p) && {
                        &&& p.compiled_json@ == path_join(
                            world_root@,
                            trim_seq(c.build.compiled_json@),
                        )
                        &&& p.ecs_json@ == path_join(world_root@, trim_seq(c.build.ecs_json@))
                        &&& p.sqlite@ == path_join(world_root@, trim_seq(c.build.sqlite@))
                    },
                }
            },
        },
{
    match config {
        None => {
            let paths = WorldPaths::new(world_root);
            Ok(
                WorldBuildPaths {
                    compiled_json: paths.compiled_json(),
                    ecs_json: paths.ecs_json(),
                    sqlite: paths.sqlite(),
                },
            )
        },
        Some(c) => {
            let compiled_json = normalize_world_relative_path(world_root, c.build.compiled_json.as_str())?;
            let ecs_json = normalize_world_relative_path(world_root, c.build.ecs_json.as_str())?;
            let sqlite = normalize_world_relative_path(world_root, c.build.sqlite.as_str())?;
            Ok(WorldBuildPaths { compiled_json, ecs_json, sqlite })
        },
    }
}

} // verus!
