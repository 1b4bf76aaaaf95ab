use kleio::local_authoring::config::{
    normalize_workspace_relative_path, resolve_workspace_world_root, resolve_world_build_paths,
    WorkspaceConfig, WorkspaceInfo, WorkspaceWorldEntry, WorldConfig,
};

#[test]
fn resolves_world_path_from_workspace_config() {
    let config = WorkspaceConfig {
        schema_version: WorkspaceConfig::SCHEMA_VERSION,
        workspace: WorkspaceInfo {
            id: "workspace:default".to_string(),
            title: "Kleio workspace".to_string(),
            default_world: "custom".to_string(),
        },
        worlds: vec![WorkspaceWorldEntry {
            id: "world:custom".to_string(),
            slug: "custom".to_string(),
            title: "Custom World".to_string(),
            path: "custom/world-root".to_string(),
        }],
    };
    let resolved = resolve_workspace_world_root("/tmp/ws", None, Some(&config)).expect("resolve default world");
    assert_eq!(resolved, "/tmp/ws/custom/world-root");
}

#[test]
fn rejects_world_path_that_escapes_workspace() {
    let mut config = WorkspaceConfig::with_default_world("bad", "Bad World");
    config.worlds[0].path = "../bad".to_string();
    let err = resolve_workspace_world_root("/tmp/ws", None, Some(&config)).expect_err("bad path rejected");
    assert!(err.display().contains("must stay inside the workspace root"), "{}", err.display());
}

#[test]
fn rejects_unregistered_world_when_workspace_config_exists() {
    let config = WorkspaceConfig::with_default_world("default", "Default world");
    let err = resolve_workspace_world_root("/tmp/ws", Some("missing"), Some(&config))
        .expect_err("missing world rejected");
    assert!(err.display().contains("world `missing` is not registered"), "{}", err.display());
    assert_eq!(
        err.display(),
        "local data validation failed: world `missing` is not registered in /tmp/ws/kleio.toml"
    );
}

#[test]
fn resolves_build_paths_from_world_config() {
    let mut config = WorldConfig::new("default", "Default world");
    config.build.compiled_json = "out/semantic.json".to_string();
    config.build.ecs_json = "out/ecs.json".to_string();
    config.build.sqlite = "out/kleio.sqlite".to_string();
    let paths = resolve_world_build_paths("/tmp/world", Some(&config)).expect("resolve build paths");
    assert_eq!(paths.compiled_json, "/tmp/world/out/semantic.json");
    assert_eq!(paths.ecs_json, "/tmp/world/out/ecs.json");
    assert_eq!(paths.sqlite, "/tmp/world/out/kleio.sqlite");

    let defaults = resolve_world_build_paths("/tmp/world", None).expect("defaults");
    assert_eq!(defaults.compiled_json, "/tmp/world/build/kleio.compiled.json");
}

#[test]
fn rejects_build_path_that_escapes_world() {
    let mut config = WorldConfig::new("default", "Default world");
    config.build.compiled_json = "../semantic.json".to_string();
    let err = resolve_world_build_paths("/tmp/world", Some(&config)).expect_err("bad build path rejected");
    assert!(err.display().contains("must stay inside the world root"));
}

#[test]
fn world_paths_must_be_relative() {
    let err = normalize_workspace_relative_path("/tmp/ws", "  /abs ").expect_err("absolute");
    assert_eq!(err.display(), "local data validation failed: world path `/abs` must be relative");
    assert!(normalize_workspace_relative_path("/tmp/ws", "  ").is_err());
    assert_eq!(normalize_workspace_relative_path("/tmp/ws/", " a/..b ").unwrap(), "/tmp/ws/a/..b");
}

#[test]
fn without_a_config_the_world_lives_under_worlds() {
    assert_eq!(resolve_workspace_world_root("/tmp/ws", None, None).unwrap(), "/tmp/ws/worlds/default");
    assert_eq!(resolve_workspace_world_root("/tmp/ws", Some("  "), None).unwrap(), "/tmp/ws/worlds/default");
    assert_eq!(resolve_workspace_world_root("/tmp/ws", Some("mine"), None).unwrap(), "/tmp/ws/worlds/mine");
}

#[test]
fn upserting_a_world_registers_it_once() {
    let mut config = WorkspaceConfig::with_default_world("default", "Default world");
    config.upsert_world("second", "Second");
    config.upsert_world("default", "Renamed");
    assert_eq!(config.worlds.len(), 2);
    assert_eq!(config.world_path("second"), Some("worlds/second"));
    assert_eq!(config.world_entry("default").map(|w| w.title.as_str()), Some("Renamed"));
    assert_eq!(config.default_world_path(), Some("worlds/default"));
    assert_eq!(config.default_world_entry().map(|w| w.id.as_str()), Some("world:default"));
    assert!(config.world_entry("third").is_none());
    let world = WorldConfig::new("default", "Default world");
    assert!(world.imports.is_empty());
    assert!(world.imports.gedcom.is_empty());
    assert_eq!(world.id, "world:default");
}
