use kleio::genealogy_event::{GenealogyEvent, GenealogyEventKind};
use kleio::attribution::Provenance;
use kleio::model::{EventId, PersonId, Sex};
use kleio::tree::{
    GedcomBacking, GedcomFileVersion, RelationshipId, RelationshipKind, TreeAttachment,
    TreeDocument,
};

#[test]
fn tree_can_contain_unrelated_people_and_arbitrary_edges() {
    let mut tree = TreeDocument::empty("main", "Main tree");
    let user = tree.add_person("Me", None);
    let partner = tree.add_person("Partner", None);
    let friend = tree.add_person("Family friend", None);

    tree.main_person = Some(user);
    tree.add_relationship(RelationshipKind::Partner, user, partner);
    tree.add_relationship(RelationshipKind::Associate, user, friend);

    assert_eq!(tree.people.len(), 3);
    assert_eq!(tree.relationships.len(), 2);
    assert_eq!(tree.person_display_name(partner), Some("Partner"));
}

#[test]
fn tree_can_track_multiple_gedcom_versions_but_does_not_require_one() {
    let mut tree = TreeDocument::empty("research", "Research tree");
    assert!(tree.attachments.is_empty());

    tree.attachments.push(TreeAttachment::Gedcom(GedcomBacking {
        label: "Smith import".to_string(),
        active_version: Some("v2".to_string()),
        versions: vec![
            GedcomFileVersion {
                id: "v1".to_string(),
                filename: "smith-2025.ged".to_string(),
                imported_at: None,
                content_hash: Some("hash-1".to_string()),
                note: None,
            },
            GedcomFileVersion {
                id: "v2".to_string(),
                filename: "smith-2026.ged".to_string(),
                imported_at: None,
                content_hash: Some("hash-2".to_string()),
                note: Some("updated cousins branch".to_string()),
            },
        ],
    }));

    let Some(TreeAttachment::Gedcom(backing)) = tree.attachments.first() else {
        panic!("expected GEDCOM backing");
    };
    assert_eq!(backing.versions.len(), 2);
    assert_eq!(backing.active_version.as_deref(), Some("v2"));
}

#[test]
fn person_ids_count_up_from_the_largest() {
    let mut tree = TreeDocument::empty("t", "T");
    assert_eq!(tree.next_person_id(), PersonId(1));
    let a = tree.add_person("A", Some(Sex::Female));
    assert_eq!(a, PersonId(1));
    tree.people[0].id = PersonId(41);
    let b = tree.add_person("B", None);
    assert_eq!(b, PersonId(42));
    assert_eq!(tree.people[0].sex, Some(Sex::Female));
    assert_eq!(tree.next_relationship_id(), RelationshipId(1));
    assert_eq!(tree.next_category_id().0, 1);
}

#[test]
fn removing_a_person_removes_their_relationships_and_participation() {
    let mut tree = TreeDocument::empty("t", "T");
    let a = tree.add_person("A", None);
    let b = tree.add_person("B", None);
    let c = tree.add_person("C", None);
    tree.add_relationship(RelationshipKind::BiologicalParentChild, a, b);
    tree.add_relationship(RelationshipKind::Sibling, b, c);
    tree.add_relationship(RelationshipKind::Spouse, a, c);
    tree.main_person = Some(b);
    tree.events.push(GenealogyEvent {
        id: EventId(1),
        kind: GenealogyEventKind::Birth,
        date: None,
        time: None,
        time_zone: None,
        place: None,
        description: Some("Birth of B".to_string()),
        participants: vec![a, b, c],
        provenance: Provenance::default(),
    });

    assert!(tree.remove_person(b));
    assert!(!tree.has_person(b));
    assert_eq!(tree.people.len(), 2);
    assert_eq!(tree.relationships.len(), 1);
    assert!(tree.has_relationship(&RelationshipKind::Spouse, a, c));
    assert!(!tree.has_relationship(&RelationshipKind::Sibling, b, c));
    assert_eq!(tree.events[0].participants, vec![a, c]);
    assert_eq!(tree.main_person, None);

    assert!(!tree.remove_person(b));
    assert_eq!(tree.people.len(), 2);
}

#[test]
fn removing_relationships_and_renaming_people() {
    let mut tree = TreeDocument::empty("t", "T");
    let a = tree.add_person("A", None);
    let b = tree.add_person("B", None);
    let r = tree.add_relationship(RelationshipKind::Other("godparent".to_string()), a, b);
    assert!(tree.has_relationship(&RelationshipKind::Other("godparent".to_string()), a, b));
    assert!(!tree.has_relationship(&RelationshipKind::Other("mentor".to_string()), a, b));
    assert!(!tree.has_relationship(&RelationshipKind::Other("godparent".to_string()), b, a));
    assert!(tree.remove_relationship(r));
    assert!(!tree.remove_relationship(r));
    assert!(tree.relationships.is_empty());

    assert!(tree.rename_person(a, "Alex"));
    assert_eq!(tree.person_display_name(a), Some("Alex"));
    assert_eq!(tree.person_display_name(b), Some("B"));
    assert!(!tree.rename_person(PersonId(99), "Nobody"));
    assert_eq!(tree.person_display_name(PersonId(99)), None);

    tree.people[1].names.clear();
    assert_eq!(tree.person_display_name(b), None);
    assert!(tree.rename_person(b, "Blake"));
    assert_eq!(tree.person_display_name(b), Some("Blake"));
    assert_eq!(tree.people[1].names.len(), 1);
}
