//! Workspace and world directory layout.
use vstd::prelude::*;
use crate::text::{join_path, path_join};

verus! {

pub const WORKSPACE_CONFIG_FILE: &'static str = "kleio.toml";
pub const WORLD_CONFIG_FILE: &'static str = "world.toml";
pub const DEFAULT_WORLD_SLUG: &'static str = "default";

/// Paths of a workspace that holds one or more worlds.
#[derive(Debug, Clone)]
pub struct WorkspacePaths {
    root: String,
}

impl WorkspacePaths {
    pub closed spec fn root_view(&self) -> Seq<char> {
        self.root@
    }

    pub fn new(root: &str) -> (r: Self)
        ensures
            r.root_view() == root@,
    {
        Self { root: root.to_owned() }
    }

    pub fn root(&self) -> (r: &str)
        ensures
            r@ == self.root_view(),
    {
        self.root.as_str()
    }

    pub fn config(&self) -> (r: String)
        ensures
            r@ == path_join(self.root_view(), "kleio.toml"@),
    {
        join_path(self.root.as_str(), WORKSPACE_CONFIG_FILE)
    }

    pub fn worlds_dir(&self) -> (r: String)
        ensures
            r@ == path_join(self.root_view(), "worlds"@),
    {
        join_path(self.root.as_str(), "worlds")
    }

    pub fn world(&self, world_slug: &str) -> (r: WorldPaths)
        ensures
            r.root_view() == path_join(path_join(self.root_view(), "worlds"@), world_slug@),
    {
        let dir = self.worlds_dir();
        WorldPaths::new(join_path(dir.as_str(), world_slug).as_str())
    }
}

/// Paths inside one world.
#[derive(Debug, Clone)]
pub struct WorldPaths {
    root: String,
}

impl WorldPaths {
    pub closed spec fn root_view(&self) -> Seq<char> {
        self.root@
    }

    pub fn new(root: &str) -> (r: Self)
        ensures
            r.root_view() == root@,
    {
        Self { root: root.to_owned() }
    }

    pub fn root(&self) -> (r: &str)
        ensures
            r@ == self.root_view(),
    {
        self.root.as_str()
    }

    pub fn config(&self) -> (r: String)
        ensures
            r@ == path_join(self.root_view(), "world.toml"@),
    {
        join_path(self.root.as_str(), WORLD_CONFIG_FILE)
    }

    pub fn entities_dir(&self) -> (r: String)
        ensures
            r@ == path_join(self.root_view(), "entities"@),
    {
        join_path(self.root.as_str(), "entities")
    }

    pub fn people_dir(&self) -> (r: String)
        ensures
            r@ == path_join(path_join(self.root_view(), "entities"@), "people"@),
    {
        let dir = self.entities_dir();
        join_path(dir.as_str(), "people")
    }

    pub fn places_dir(&self) -> (r: String)
        ensures
            r@ == path_join(path_join(self.root_view(), "entities"@), "places"@),
    {
        let dir = self.entities_dir();
        join_path(dir.as_str(), "places")
    }

    pub fn organizations_dir(&self) -> (r: String)
        ensures
            r@ == path_join(path_join(self.root_view(), "entities"@), "organizations"@),
    {
        let dir = self.entities_dir();
        join_path(dir.as_str(), "organizations")
    }

    pub fn objects_dir(&self) -> (r: String)
        ensures
            r@ == path_join(path_join(self.root_view(), "entities"@), "objects"@),
    {
        let dir = self.entities_dir();
        join_path(dir.as_str(), "objects")
    }

    pub fn concepts_dir(&self) -> (r: String)
        ensures
            r@ == path_join(path_join(self.root_view(), "entities"@), "concepts"@),
    {
        let dir = self.entities_dir();
        join_path(dir.as_str(), "concepts")
    }

    pub fn events_dir(&self) -> (r: String)
        ensures
            r@ == path_join(self.root_view(), "events"@),
    {
        join_path(self.root.as_str(), "events")
    }

    pub fn collections_dir(&self) -> (r: String)
        ensures
            r@ == path_join(self.root_view(), "collections"@),
    {
        join_path(self.root.as_str(), "collections")
    }

    pub fn event_kind_dir(&self, event_kind: &str) -> (r: String)
        ensures
            r@ == path_join(path_join(self.root_view(), "events"@), event_kind@),
    {
        let dir = self.events_dir();
        join_path(dir.as_str(), event_kind)
    }

    pub fn births_dir(&self) -> (r: String)
        ensures
            r@ == path_join(path_join(self.root_view(), "events"@), "births"@),
    {
        self.event_kind_dir("births")
    }

    pub fn deaths_dir(&self) -> (r: String)
        ensures
            r@ == path_join(path_join(self.root_view(), "events"@), "deaths"@),
    {
        self.event_kind_dir("deaths")
    }

    pub fn residences_dir(&self) -> (r: String)
        ensures
            r@ == path_join(path_join(self.root_view(), "events"@), "residences"@),
    {
        self.event_kind_dir("residences")
    }

    pub fn marriages_dir(&self) -> (r: String)
        ensures
            r@ == path_join(path_join(self.root_view(), "events"@), "marriages"@),
    {
        self.event_kind_dir("marriages")
    }

    pub fn migrations_dir(&self) -> (r: String)
        ensures
            r@ == path_join(path_join(self.root_view(), "events"@), "migrations"@),
    {
        self.event_kind_dir("migrations")
    }

    pub fn observations_dir(&self) -> (r: String)
        ensures
            r@ == path_join(path_join(self.root_view(), "events"@), "observations"@),
    {
        self.event_kind_dir("observations")
    }

    pub fn moments_dir(&self) -> (r: String)
        ensures
            r@ == path_join(path_join(self.root_view(), "events"@), "moments"@),
    {
        self.event_kind_dir("moments")
    }

    pub fn other_events_dir(&self) -> (r: String)
        ensures
            r@ == path_join(path_join(self.root_view(), "events"@), "other"@),
    {
        self.event_kind_dir("other")
    }

    pub fn assertions_dir(&self) -> (r: String)
        ensures
            r@ == path_join(self.root_view(), "assertions"@),
    {
        join_path(self.root.as_str(), "assertions")
    }

    pub fn relationships_dir(&self) -> (r: String)
        ensures
            r@ == path_join(self.root_view(), "relationships"@),
    {
        join_path(self.root.as_str(), "relationships")
    }

    pub fn sources_dir(&self) -> (r: String)
        ensures
            r@ == path_join(self.root_view(), "sources"@),
    {
        join_path(self.root.as_str(), "sources")
    }

    pub fn imports_dir(&self) -> (r: String)
        ensures
            r@ == path_join(self.root_view(), "imports"@),
    {
        join_path(self.root.as_str(), "imports")
    }

    pub fn gedcom_imports_dir(&self) -> (r: String)
        ensures
            r@ == path_join(path_join(self.root_view(), "imports"@), "gedcom"@),
    {
        let dir = self.imports_dir();
        join_path(dir.as_str(), "gedcom")
    }

    pub fn wikidata_imports_dir(&self) -> (r: String)
        ensures
            r@ == path_join(path_join(self.root_view(), "imports"@), "wikidata"@),
    {
        let dir = self.imports_dir();
        join_path(dir.as_str(), "wikidata")
    }

    pub fn csv_imports_dir(&self) -> (r: String)
        ensures
            r@ == path_join(path_join(self.root_view(), "imports"@), "csv"@),
    {
        let dir = self.imports_dir();
        join_path(dir.as_str(), "csv")
    }

    pub fn media_dir(&self) -> (r: String)
        ensures
            r@ == path_join(self.root_view(), "media"@),
    {
        join_path(self.root.as_str(), "media")
    }

    pub fn media_people_dir(&self) -> (r: String)
        ensures
            r@ == path_join(path_join(self.root_view(), "media"@), "people"@),
    {
        let dir = self.media_dir();
        join_path(dir.as_str(), "people")
    }

    pub fn media_places_dir(&self) -> (r: String)
        ensures
            r@ == path_join(path_join(self.root_view(), "media"@), "places"@),
    {
        let dir = self.media_dir();
        join_path(dir.as_str(), "places")
    }

    pub fn media_sources_dir(&self) -> (r: String)
        ensures
            r@ == path_join(path_join(self.root_view(), "media"@), "sources"@),
    {
        let dir = self.media_dir();
        join_path(dir.as_str(), "sources")
    }

    pub fn media_events_dir(&self) -> (r: String)
        ensures
            r@ == path_join(path_join(self.root_view(), "media"@), "events"@),
    {
        let dir = self.media_dir();
        join_path(dir.as_str(), "events")
    }

    pub fn views_dir(&self) -> (r: String)
        ensures
            r@ == path_join(self.root_view(), "views"@),
    {
        join_path(self.root.as_str(), "views")
    }

    pub fn timeline_views_dir(&self) -> (r: String)
        ensures
            r@ == path_join(path_join(self.root_view(), "views"@), "timelines"@),
    {
        let dir = self.views_dir();
        join_path(dir.as_str(), "timelines")
    }

    pub fn tree_views_dir(&self) -> (r: String)
        ensures
            r@ == path_join(path_join(self.root_view(), "views"@), "trees"@),
    {
        let dir = self.views_dir();
        join_path(dir.as_str(), "trees")
    }

    pub fn map_views_dir(&self) -> (r: String)
        ensures
            r@ == path_join(path_join(self.root_view(), "views"@), "maps"@),
    {
        let dir = self.views_dir();
        join_path(dir.as_str(), "maps")
    }

    pub fn calendar_views_dir(&self) -> (r: String)
        ensures
            r@ == path_join(path_join(self.root_view(), "views"@), "calendars"@),
    {
        let dir = self.views_dir();
        join_path(dir.as_str(), "calendars")
    }

    pub fn visualization_views_dir(&self) -> (r: String)
        ensures
            r@ == path_join(path_join(self.root_view(), "views"@), "visualizations"@),
    {
        let dir = self.views_dir();
        join_path(dir.as_str(), "visualizations")
    }

    pub fn schemas_dir(&self) -> (r: String)
        ensures
            r@ == path_join(self.root_view(), "schemas"@),
    {
        join_path(self.root.as_str(), "schemas")
    }

    pub fn component_schemas_dir(&self) -> (r: String)
        ensures
            r@ == path_join(path_join(self.root_view(), "schemas"@), "components"@),
    {
        let dir = self.schemas_dir();
        join_path(dir.as_str(), "components")
    }

    pub fn bundle_schemas_dir(&self) -> (r: String)
        ensures
            r@ == path_join(path_join(self.root_view(), "schemas"@), "bundles"@),
    {
        let dir = self.schemas_dir();
        join_path(dir.as_str(), "bundles")
    }

    pub fn event_schemas_dir(&self) -> (r: String)
        ensures
            r@ == path_join(path_join(self.root_view(), "schemas"@), "events"@),
    {
        let dir = self.schemas_dir();
        join_path(dir.as_str(), "events")
    }

    pub fn view_schemas_dir(&self) -> (r: String)
        ensures
            r@ == path_join(path_join(self.root_view(), "schemas"@), "views"@),
    {
        let dir = self.schemas_dir();
        join_path(dir.as_str(), "views")
    }

    pub fn vocab_schemas_dir(&self) -> (r: String)
        ensures
            r@ == path_join(path_join(self.root_view(), "schemas"@), "vocab"@),
    {
        let dir = self.schemas_dir();
        join_path(dir.as_str(), "vocab")
    }

    pub fn systems_dir(&self) -> (r: String)
        ensures
            r@ == path_join(self.root_view(), "systems"@),
    {
        join_path(self.root.as_str(), "systems")
    }

    pub fn importer_systems_dir(&self) -> (r: String)
        ensures
            r@ == path_join(path_join(self.root_view(), "systems"@), "importers"@),
    {
        let dir = self.systems_dir();
        join_path(dir.as_str(), "importers")
    }

    pub fn compiler_systems_dir(&self) -> (r: String)
        ensures
            r@ == path_join(path_join(self.root_view(), "systems"@), "compilers"@),
    {
        let dir = self.systems_dir();
        join_path(dir.as_str(), "compilers")
    }

    pub fn validator_systems_dir(&self) -> (r: String)
        ensures
            r@ == path_join(path_join(self.root_view(), "systems"@), "validators"@),
    {
        let dir = self.systems_dir();
        join_path(dir.as_str(), "validators")
    }

    pub fn renderer_systems_dir(&self) -> (r: String)
        ensures
            r@ == path_join(path_join(self.root_view(), "systems"@), "renderers"@),
    {
        let dir = self.systems_dir();
        join_path(dir.as_str(), "renderers")
    }

    pub fn build_dir(&self) -> (r: String)
        ensures
            r@ == path_join(self.root_view(), "build"@),
    {
        join_path(self.root.as_str(), "build")
    }

    pub fn compiled_json(&self) -> (r: String)
        ensures
            r@ == path_join(path_join(self.root_view(), "build"@), "kleio.compiled.json"@),
    {
        let dir = self.build_dir();
        join_path(dir.as_str(), "kleio.compiled.json")
    }

    pub fn ecs_json(&self) -> (r: String)
        ensures
            r@ == path_join(path_join(self.root_view(), "build"@), "kleio.ecs.json"@),
    {
        let dir = self.build_dir();
        join_path(dir.as_str(), "kleio.ecs.json")
    }

    pub fn sqlite(&self) -> (r: String)
        ensures
            r@ == path_join(path_join(self.root_view(), "build"@), "kleio.sqlite"@),
    {
        let dir = self.build_dir();
        join_path(dir.as_str(), "kleio.sqlite")
    }
}

} // verus!
