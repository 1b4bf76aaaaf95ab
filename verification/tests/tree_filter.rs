use kleio::attribution::Provenance;
use kleio::genealogy_event::{GenealogyEvent, GenealogyEventKind};
use kleio::model::{EventId, PersonId};
use kleio::tree::{RelationshipKind, TreeDocument};
use kleio::tree_filter::{apply_tree_generation_filter, TreeGenerationFilter};

fn event(id: u64, participants: Vec<PersonId>) -> GenealogyEvent {
    GenealogyEvent {
        id: EventId(id),
        kind: GenealogyEventKind::Birth,
        date: None,
        time: None,
        time_zone: None,
        place: None,
        description: None,
        participants,
        provenance: Provenance::default(),
    }
}

/// grandparent -> parent -> root -> child -> grandchild, the root's partner,
/// the root's sibling, and an unconnected person.
fn family() -> (TreeDocument, Vec<PersonId>) {
    let mut tree = TreeDocument::empty("t", "T");
    let grandparent = tree.add_person("Grandparent", None);
    let parent = tree.add_person("Parent", None);
    let root = tree.add_person("Root", None);
    let child = tree.add_person("Child", None);
    let grandchild = tree.add_person("Grandchild", None);
    let partner = tree.add_person("Partner", None);
    let sibling = tree.add_person("Sibling", None);
    let stranger = tree.add_person("Stranger", None);
    tree.add_relationship(RelationshipKind::BiologicalParentChild, grandparent, parent);
    tree.add_relationship(RelationshipKind::BiologicalParentChild, parent, root);
    tree.add_relationship(RelationshipKind::BiologicalParentChild, root, child);
    tree.add_relationship(RelationshipKind::BiologicalParentChild, child, grandchild);
    tree.add_relationship(RelationshipKind::Spouse, root, partner);
    tree.add_relationship(RelationshipKind::BiologicalParentChild, parent, sibling);
    tree.events.push(event(1, vec![grandparent]));
    tree.events.push(event(2, vec![root, stranger]));
    tree.events.push(event(3, vec![stranger]));
    for person in tree.people.iter_mut() {
        person.events = vec![EventId(1), EventId(2), EventId(3)];
    }
    (tree, vec![grandparent, parent, root, child, grandchild, partner, sibling, stranger])
}

fn ids(tree: &TreeDocument) -> Vec<PersonId> {
    tree.people.iter().map(|p| p.id).collect()
}

#[test]
fn one_generation_each_way_keeps_parents_children_and_partners() {
    let (mut tree, p) = family();
    let filter = TreeGenerationFilter {
        generations_up: Some(1),
        generations_down: Some(1),
        include_partners: true,
        include_siblings: false,
        include_unconnected: false,
    };
    apply_tree_generation_filter(&mut tree, &filter, p[2]);
    assert_eq!(ids(&tree), vec![p[1], p[2], p[3], p[5]]);
    assert_eq!(tree.relationships.len(), 3);
    assert_eq!(tree.events.len(), 1);
    assert_eq!(tree.events[0].id, EventId(2));
    assert!(tree.people.iter().all(|person| person.events == vec![EventId(2)]));
}

#[test]
fn more_generations_reach_further_and_siblings_can_be_added() {
    let (mut tree, p) = family();
    let filter = TreeGenerationFilter {
        generations_up: Some(2),
        generations_down: Some(5),
        include_partners: false,
        include_siblings: true,
        include_unconnected: false,
    };
    apply_tree_generation_filter(&mut tree, &filter, p[2]);
    assert_eq!(ids(&tree), vec![p[0], p[1], p[2], p[3], p[4], p[6]]);
    assert_eq!(tree.relationships.len(), 5);
    assert_eq!(tree.events.len(), 2);
}

#[test]
fn unconnected_people_can_be_kept_and_no_limit_keeps_everything() {
    let (mut tree, p) = family();
    let filter = TreeGenerationFilter {
        generations_up: Some(0),
        generations_down: None,
        include_partners: false,
        include_siblings: false,
        include_unconnected: true,
    };
    apply_tree_generation_filter(&mut tree, &filter, p[2]);
    assert_eq!(tree.people.len(), 8);
    assert_eq!(tree.events.len(), 3);

    let (mut whole, p) = family();
    apply_tree_generation_filter(&mut whole, &TreeGenerationFilter::unlimited(), p[4]);
    assert_eq!(whole.people.len(), 8);
    assert_eq!(whole.relationships.len(), 6);
}

#[test]
fn zero_generations_up_keeps_only_the_root() {
    let (mut tree, p) = family();
    let filter = TreeGenerationFilter {
        generations_up: Some(0),
        generations_down: None,
        include_partners: false,
        include_siblings: false,
        include_unconnected: false,
    };
    apply_tree_generation_filter(&mut tree, &filter, p[2]);
    assert_eq!(ids(&tree), vec![p[2]]);
    assert!(tree.relationships.is_empty());
    assert_eq!(tree.events.len(), 1);
}
