use kleio::local_authoring::event_profiles::LocalEventType;
use kleio::local_authoring::paths::WorkspacePaths;
use kleio::local_authoring::read::{is_world_dir, is_world_file};
use kleio::local_authoring::refs::normalize_contextual_id;
use kleio::model::SearchIndex;
use kleio::pack::{EventPack, PackId, PackKind, PackMetadata, TimelineDocument};
use kleio::text::join_path;

#[test]
fn contextual_ids_are_completed_once() {
    assert_eq!(normalize_contextual_id("alex", "person"), "person:alex");
    assert_eq!(normalize_contextual_id(" place:x ", "person"), "place:x");
    for value in ["alex", " place:x ", "  ", ""] {
        let once = normalize_contextual_id(value, "person");
        assert!(once.contains(':'));
        assert_eq!(normalize_contextual_id(&once, "person"), once);
    }
}

#[test]
fn activating_a_pack_twice_marks_it_once() {
    let pack_id = PackId::new("pack:twice");
    let mut document = TimelineDocument::empty();
    document.add_pack(EventPack::empty(PackMetadata::new(pack_id.clone(), "Twice"), PackKind::UserJournal), false);
    document.set_pack_active(&pack_id, true);
    document.set_pack_active(&pack_id, true);
    assert_eq!(document.active_pack_ids.len(), 1);
    document.set_pack_active(&pack_id, false);
    assert!(document.active_pack_ids.is_empty());
}

#[test]
fn postings_stay_strictly_increasing() {
    let mut index = SearchIndex::new();
    for record in [0u32, 0, 2, 2, 5] {
        index.insert("ada".to_string(), record);
    }
    assert_eq!(index.postings, vec![("ada".to_string(), vec![0u32, 2, 5])]);
}

#[test]
fn profile_names_read_back_as_their_types() {
    let types = [
        LocalEventType::Birth,
        LocalEventType::Death,
        LocalEventType::Marriage,
        LocalEventType::Baptism,
        LocalEventType::Burial,
        LocalEventType::Residence,
        LocalEventType::Occupation,
        LocalEventType::Divorce,
        LocalEventType::Adoption,
        LocalEventType::Education,
        LocalEventType::MilitaryService,
        LocalEventType::Immigration,
        LocalEventType::Emigration,
        LocalEventType::Naturalization,
        LocalEventType::Census,
        LocalEventType::NameChange,
        LocalEventType::Custom("graduation".to_string()),
    ];
    for t in types {
        let back = LocalEventType::from_str(t.profile().event_type.as_str());
        assert_eq!(back, t);
    }
}

#[test]
fn absolute_component_replaces_the_base() {
    assert_eq!(join_path("workspace/worlds", "/srv/world"), "/srv/world");
    assert_eq!(join_path("workspace/worlds", "family"), "workspace/worlds/family");
    let workspace = WorkspacePaths::new("workspace");
    assert_eq!(workspace.world("/srv/world").root(), "/srv/world");
}

#[test]
fn world_files_are_markdown_and_toml_outside_hidden_and_output_entries() {
    assert!(is_world_file("alex.md"));
    assert!(is_world_file("world.toml"));
    assert!(!is_world_file("README.md"));
    assert!(!is_world_file(".draft.md"));
    assert!(!is_world_file("photo.jpg"));
    assert!(is_world_dir("entities"));
    assert!(!is_world_dir("build"));
    assert!(!is_world_dir("compiled"));
    assert!(!is_world_dir(".git"));
}
