use kleio::local_authoring::config::resolve_workspace_world_root;
use kleio::local_authoring::plan::{ExistingFile, PlannedContent, WritePlan};
use kleio::local_authoring::skeleton::{
    create_local_birth_event, create_local_person, create_local_skeleton, create_world_layout,
    LocalBirthEventOptions, LocalPersonOptions, LocalSkeletonOptions,
};

fn file<'a>(plan: &'a WritePlan, path: &str) -> &'a str {
    let planned = plan
        .files
        .iter()
        .find(|f| f.path == path)
        .unwrap_or_else(|| panic!("no planned file {path}"));
    match &planned.content {
        PlannedContent::Text(text) => text.as_str(),
        _ => panic!("not text: {path}"),
    }
}

#[test]
fn birth_event_with_time_gets_separate_time_support_assertion() {
    let plan = create_local_birth_event(
        "/tmp/w",
        &LocalBirthEventOptions {
            person_slug: "alex-example".to_string(),
            person_name: "Alex Example".to_string(),
            birth_date: Some("1900-01-01 07:18".to_string()),
            force: false,
        },
    )
    .expect("birth event");
    let event_text = file(&plan, "/tmp/w/events/births/1900-01-01 07:18-birth-alex-example.md");
    assert!(event_text.contains("date_precision = \"minute\""));
    assert!(event_text.contains("target = \"#date\""));
    assert!(event_text.contains("target = \"#time\""));
    assert!(event_text.contains("confidence = \"high\""));
    assert!(event_text.contains("confidence = \"low\""));
    assert!(!event_text.contains("predicate ="));
    assert!(!event_text.contains("value ="));
    assert!(plan.files.iter().all(|f| !f.path.contains("assertions/")));
    assert_eq!(plan.files[0].existing, ExistingFile::Keep);
}

#[test]
fn creates_starter_world_skeleton() {
    let options = LocalSkeletonOptions {
        project_id: "test-world".to_string(),
        title: "Test world".to_string(),
        person_slug: "alex-example".to_string(),
        person_name: "Alex Example".to_string(),
        birth_date: Some("1900-01-01".to_string()),
        force: false,
    };
    let plan = create_local_skeleton("/tmp/ws", &options).expect("create skeleton");

    let paths: Vec<&str> = plan.files.iter().map(|f| f.path.as_str()).collect();
    assert!(paths.contains(&"/tmp/ws/kleio.toml"));
    assert!(paths.contains(&"/tmp/ws/worlds/test-world/world.toml"));
    assert!(paths.contains(&"/tmp/ws/worlds/test-world/imports/gedcom/README.md"));
    assert!(paths.contains(&"/tmp/ws/worlds/test-world/events/births/1900-01-01-birth-alex-example.md"));
    assert!(paths.contains(&"/tmp/ws/worlds/test-world/schemas/components/identity.toml"));
    assert!(paths.contains(&"/tmp/ws/worlds/test-world/schemas/bundles/person.toml"));
    assert_eq!(plan.files.len(), 18);

    let birth = file(&plan, "/tmp/ws/worlds/test-world/events/births/1900-01-01-birth-alex-example.md");
    assert!(birth.contains("target = \"#date\""));
    assert!(!birth.contains("target = \"#time\""));
    assert!(birth.contains("confidence = \"high\""));
    assert!(birth.contains("date_precision = \"day\""));

    let person = file(&plan, "/tmp/ws/worlds/test-world/entities/people/alex-example.md");
    assert!(person.contains("id = \"person:alex-example\""));
    assert!(person.contains("given = \"Alex\"\nfamily = \"Example\""));

    match &plan.files[0].content {
        PlannedContent::WorkspaceConfig(config) => {
            assert_eq!(config.workspace.default_world, "test-world");
            let root = resolve_workspace_world_root("/tmp/ws", None, Some(config)).unwrap();
            assert_eq!(root, "/tmp/ws/worlds/test-world");
        }
        _ => panic!("expected the workspace config"),
    }
    assert!(plan.dirs.contains(&"/tmp/ws/worlds/test-world/views/visualizations".to_string()));
}

#[test]
fn people_and_layouts() {
    let plan = create_local_person(
        "/w",
        &LocalPersonOptions {
            person_slug: "ada".to_string(),
            person_name: "  Ada   King  Lovelace ".to_string(),
            birth_date: None,
            create_birth_event: true,
            force: true,
        },
    )
    .unwrap();
    assert_eq!(plan.files.len(), 4);
    let person = file(&plan, "/w/entities/people/ada.md");
    assert!(person.contains("given = \"Ada King\"\nfamily = \"Lovelace\""));
    let birth = file(&plan, "/w/events/births/unknown-date-birth-ada.md");
    assert!(birth.contains("date_precision = \"unknown\"\n"));
    assert!(!birth.contains("[[assertions]]"));
    assert_eq!(plan.files[3].existing, ExistingFile::Replace);
    assert_eq!(plan.files[1].existing, ExistingFile::Keep);

    let layout = create_world_layout("/w", &LocalSkeletonOptions::default()).unwrap();
    assert_eq!(layout.files.len(), 10);
    assert_eq!(layout.dirs.len(), 40);
    match &layout.files[0].content {
        PlannedContent::WorldConfig(config) => assert_eq!(config.id, "world:default"),
        _ => panic!("expected the world config"),
    }
    let err = create_world_layout(
        "/w",
        &LocalSkeletonOptions { project_id: "a b".to_string(), ..LocalSkeletonOptions::default() },
    )
    .unwrap_err();
    assert_eq!(
        err.display(),
        "local data validation failed: world slug `a b` may not contain whitespace, slashes, or colons"
    );
}
