use kleio::local_authoring::paths::{WorkspacePaths, WorldPaths};

#[test]
fn exposes_workspace_and_world_paths() {
    let workspace = WorkspacePaths::new("/tmp/kleio-workspace");
    assert_eq!(workspace.root(), "/tmp/kleio-workspace");
    assert_eq!(workspace.config(), "/tmp/kleio-workspace/kleio.toml");
    assert_eq!(workspace.worlds_dir(), "/tmp/kleio-workspace/worlds");
    assert_eq!(
        workspace.world("default").root(),
        "/tmp/kleio-workspace/worlds/default"
    );
}

#[test]
fn exposes_world_semantic_view_schema_system_and_build_paths() {
    let world = WorldPaths::new("/tmp/kleio-workspace/worlds/default");
    assert_eq!(world.config(), "/tmp/kleio-workspace/worlds/default/world.toml");
    assert_eq!(world.people_dir(), "/tmp/kleio-workspace/worlds/default/entities/people");
    assert_eq!(world.places_dir(), "/tmp/kleio-workspace/worlds/default/entities/places");
    assert_eq!(world.assertions_dir(), "/tmp/kleio-workspace/worlds/default/assertions");
    assert_eq!(world.sources_dir(), "/tmp/kleio-workspace/worlds/default/sources");
    assert_eq!(world.gedcom_imports_dir(), "/tmp/kleio-workspace/worlds/default/imports/gedcom");
    assert_eq!(world.media_people_dir(), "/tmp/kleio-workspace/worlds/default/media/people");
    assert_eq!(world.timeline_views_dir(), "/tmp/kleio-workspace/worlds/default/views/timelines");
    assert_eq!(
        world.visualization_views_dir(),
        "/tmp/kleio-workspace/worlds/default/views/visualizations"
    );
    assert_eq!(
        world.component_schemas_dir(),
        "/tmp/kleio-workspace/worlds/default/schemas/components"
    );
    assert_eq!(
        world.importer_systems_dir(),
        "/tmp/kleio-workspace/worlds/default/systems/importers"
    );
    assert_eq!(
        world.compiled_json(),
        "/tmp/kleio-workspace/worlds/default/build/kleio.compiled.json"
    );
    assert_eq!(world.ecs_json(), "/tmp/kleio-workspace/worlds/default/build/kleio.ecs.json");
    assert_eq!(world.sqlite(), "/tmp/kleio-workspace/worlds/default/build/kleio.sqlite");
}
