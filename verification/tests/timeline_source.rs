use kleio::event::EventRelationKind;
use kleio::timeline_source::{
    event_pack_from_timeline_source, timeline_source_from_event_pack, TimelineSource, TimelineSourceItem,
    TimelineSourceMeta, TimelineSourcePackKind,
};

#[test]
fn event_pack_can_export_to_timeline_source() {
    let source = TimelineSource {
        meta: TimelineSourceMeta {
            id: Some("local:mine".to_string()),
            title: "My Life".to_string(),
            kind: Some(TimelineSourcePackKind::Biography),
            description: None,
            subject: None,
            person_id: Some(7),
        },
        items: vec![TimelineSourceItem::period(
            "education",
            "High school",
            "2004",
            "2008",
        )],
    };
    let pack = event_pack_from_timeline_source(&source);
    let exported = timeline_source_from_event_pack(&pack);

    assert_eq!(exported.meta.title, "My Life");
    assert_eq!(exported.items.len(), 1);
    assert_eq!(exported.items[0].title, "High school");
}

/// The TOML text round trip is the application's; the library compiles the
/// parsed source, which is built here directly.
#[test]
fn timeline_source_toml_compiles_to_event_pack() {
    let parsed = TimelineSource {
        meta: TimelineSourceMeta {
            id: Some("local:mine".to_string()),
            title: "My Life".to_string(),
            kind: Some(TimelineSourcePackKind::Biography),
            description: Some("Private timeline".to_string()),
            subject: Some("Me".to_string()),
            person_id: Some(7),
        },
        items: vec![
            TimelineSourceItem::current_period("life", "Life", "1990"),
            TimelineSourceItem::event("birth", "I was born", "1990"),
            TimelineSourceItem::period("education", "High school", "2004", "2008"),
            TimelineSourceItem::current_period("career", "Current job", "2013"),
        ],
    };
    let pack = event_pack_from_timeline_source(&parsed);

    assert_eq!(pack.metadata.title, "My Life");
    assert!(pack.events.iter().any(|event| event.title == "High school"));
    assert!(pack.event_relations.iter().any(|relation| {
        relation.kind == EventRelationKind::OccursWithin
            && pack
                .events
                .iter()
                .any(|event| event.id == relation.parent_event_id && event.title == "Life")
            && pack.events.iter().any(|event| {
                event.id == relation.child_event_id && event.title == "High school"
            })
    }));
    assert!(
        pack.events
            .iter()
            .any(|event| event.time.display() == "2013 to present")
    );
}
