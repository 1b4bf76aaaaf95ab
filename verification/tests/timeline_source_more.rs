use kleio::event::EventRelationKind;
use kleio::pack::PackKind;
use kleio::timeline_source::{
    event_pack_from_timeline_source, stable_pack_id_from_title, timeline_source_from_event_pack,
    timeline_source_from_parts, timeline_source_to_parts, TimelineSource, TimelineSourceItem,
    TimelineSourceMeta, TimelineSourcePackKind,
};

fn my_life() -> TimelineSource {
    TimelineSource {
        meta: TimelineSourceMeta {
            id: Some("local:mine".to_string()),
            title: "My Life".to_string(),
            kind: Some(TimelineSourcePackKind::Biography),
            description: Some("Private timeline".to_string()),
            subject: Some("Me".to_string()),
            person_id: Some(7),
        },
        items: vec![
            TimelineSourceItem::current_period("life", "Life", "1990"),
            TimelineSourceItem::event("birth", "I was born", "1990"),
            TimelineSourceItem::period("education", "High school", "2004", "2008"),
            TimelineSourceItem::current_period("career", "Current job", "2013"),
        ],
    }
}

#[test]
fn timeline_source_compiles_to_event_pack() {
    let pack = event_pack_from_timeline_source(&my_life());

    assert_eq!(pack.metadata.title, "My Life");
    assert!(pack.events.iter().any(|event| event.title == "High school"));
    assert!(pack.event_relations.iter().any(|relation| {
        relation.kind == EventRelationKind::OccursWithin
            && pack
                .events
                .iter()
                .any(|event| event.id == relation.parent_event_id && event.title == "Life")
            && pack
                .events
                .iter()
                .any(|event| event.id == relation.child_event_id && event.title == "High school")
    }));
    assert!(pack.events.iter().any(|event| event.time.display() == "2013 to present"));
}

#[test]
fn compiled_periods_get_boundary_events_and_ids_count_up() {
    let pack = event_pack_from_timeline_source(&my_life());
    // life: 2 events (item + start), birth: 1, high school: 3, job: 2
    assert_eq!(pack.events.len(), 8);
    for (index, event) in pack.events.iter().enumerate() {
        assert_eq!(event.id.0, index as u64 + 1);
    }
    assert_eq!(pack.events[1].title, "Started Life");
    assert_eq!(pack.events[1].type_ref.as_str(), "genealogy.birth");
    assert_eq!(pack.events[5].title, "Ended High school");
    assert_eq!(pack.events[5].type_ref.as_str(), "education.finished");
    assert_eq!(pack.events[3].type_ref.as_str(), "education.period");
    assert_eq!(pack.kind, PackKind::Biography);
    assert_eq!(pack.domain_profiles.len(), 1);
    // Starts/Ends for three periods (life, school x2, job) and two life relations.
    let starts = pack.event_relations.iter().filter(|r| r.kind == EventRelationKind::Starts).count();
    let ends = pack.event_relations.iter().filter(|r| r.kind == EventRelationKind::Ends).count();
    let within = pack
        .event_relations
        .iter()
        .filter(|r| r.kind == EventRelationKind::OccursWithin)
        .count();
    assert_eq!((starts, ends, within), (3, 1, 2));
}

#[test]
fn export_after_compile_gives_back_each_item() {
    let source = my_life();
    let pack = event_pack_from_timeline_source(&source);
    let exported = timeline_source_from_event_pack(&pack);

    assert_eq!(exported.items.len(), source.items.len());
    for (item, original) in exported.items.iter().zip(source.items.iter()) {
        assert_eq!(item.title, original.title);
        assert_eq!(item.start, original.start);
    }
    assert_eq!(exported.meta.id.as_deref(), Some("local:mine"));
    assert_eq!(exported.meta.person_id, Some(7));
    assert_eq!(exported.items[2].end.as_deref(), Some("2008"));
    assert!(exported.items[3].current);
    assert_eq!(exported.items[2].start_label.as_deref(), Some("Started High school"));
    assert_eq!(exported.items[2].end_label.as_deref(), Some("Ended High school"));
}

#[test]
fn place_and_details_survive_the_round_trip() {
    let mut item = TimelineSourceItem::event("residence", "Moved", "1999");
    item.place = Some("  Springfield ".to_string());
    item.details = Some("With family".to_string());
    let source = timeline_source_from_parts(
        TimelineSourceMeta {
            id: None,
            title: "Places!".to_string(),
            kind: None,
            description: None,
            subject: None,
            person_id: None,
        },
        vec![item],
    );
    let pack = event_pack_from_timeline_source(&source);
    assert_eq!(pack.metadata.id.as_str(), "local:places");
    assert_eq!(
        pack.events[0].description.as_deref(),
        Some("Place: Springfield\n\nWith family")
    );
    let exported = timeline_source_from_event_pack(&pack);
    assert_eq!(exported.items[0].place.as_deref(), Some("Springfield"));
    assert_eq!(exported.items[0].details.as_deref(), Some("With family"));
    assert_eq!(exported.items[0].section, "residence");
    assert_eq!(exported.meta.person_id, Some(1000));

    let (meta, items) = timeline_source_to_parts(source);
    assert_eq!(meta.title, "Places!");
    assert_eq!(items.len(), 1);
}

#[test]
fn stable_pack_ids_are_slugs_of_titles() {
    assert_eq!(stable_pack_id_from_title("My Life"), "local:my-life");
    assert_eq!(stable_pack_id_from_title("  A -- B  "), "local:a-b");
    assert_eq!(stable_pack_id_from_title("???"), "local:timeline");
    assert_eq!(TimelineSource::new("Mine").meta.id.as_deref(), Some("local:personal-timeline"));
}
