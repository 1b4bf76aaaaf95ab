use kleio::attribution::Provenance;
use kleio::genealogy_event::{GenealogyEvent, GenealogyEventKind};
use kleio::genealogy_index::{GenealogyIndex, Place};
use kleio::model::{DateRange, DateValue, EventId, Family, FamilyId, Name, Note, NoteId, Person, PersonId, PlaceId};

fn name(display: &str, given: Option<&str>, surname: Option<&str>, aliases: &[&str]) -> Name {
    Name {
        usage: None,
        display: display.to_string(),
        full: None,
        middle: None,
        order: None,
        given: given.map(|s| s.to_string()),
        surname: surname.map(|s| s.to_string()),
        aliases: aliases.iter().map(|s| s.to_string()).collect(),
        provenance: Provenance::default(),
    }
}

fn person(id: u64, names: Vec<Name>) -> Person {
    Person {
        id: PersonId(id),
        names,
        sex: None,
        events: Vec::new(),
        families_as_child: Vec::new(),
        families_as_spouse: Vec::new(),
        notes: Vec::new(),
        source_record: None,
        provenance: Provenance::default(),
    }
}

fn event(id: u64, kind: GenealogyEventKind, year: Option<i32>, description: Option<&str>) -> GenealogyEvent {
    GenealogyEvent {
        id: EventId(id),
        kind,
        date: year.map(|y| DateValue {
            original: y.to_string(),
            historical: None,
            range: Some(DateRange { earliest_year: Some(y), latest_year: Some(y), start: None, end: None }),
            provenance: Provenance::default(),
        }),
        time: None,
        time_zone: None,
        place: None,
        description: description.map(|s| s.to_string()),
        participants: Vec::new(),
        provenance: Provenance::default(),
    }
}

fn lookup<'a>(postings: &'a [(String, Vec<u32>)], token: &str) -> Option<&'a Vec<u32>> {
    postings.iter().find(|(t, _)| t == token).map(|(_, l)| l)
}

fn sample() -> GenealogyIndex {
    let people = vec![
        person(10, vec![name("Ada Lovelace", Some("Ada"), Some("Byron"), &["Countess of Lovelace"])]),
        person(20, vec![name("William King", None, Some("King"), &[])]),
        person(30, vec![name("Byron King", None, None, &[])]),
        person(40, vec![name("Anne Isabella", None, None, &[])]),
    ];
    let events = vec![
        event(1, GenealogyEventKind::Birth, Some(1815), Some("Born in London")),
        event(2, GenealogyEventKind::Marriage, Some(1835), None),
        event(3, GenealogyEventKind::Other("First program".to_string()), Some(1815), None),
        event(4, GenealogyEventKind::Death, None, None),
    ];
    let families = vec![
        Family {
            id: FamilyId(100),
            spouses: vec![PersonId(10), PersonId(20)],
            children: vec![PersonId(30), PersonId(40)],
            events: Vec::new(),
            provenance: Provenance::default(),
        },
        Family {
            id: FamilyId(101),
            spouses: vec![PersonId(10), PersonId(20)],
            children: vec![PersonId(30)],
            events: Vec::new(),
            provenance: Provenance::default(),
        },
    ];
    let places = vec![Place {
        id: PlaceId(7),
        name: "London, England".to_string(),
        lat_lon: Some(("51.5".to_string(), "-0.12".to_string())),
        geosuggest_id: None,
        provenance: Provenance::default(),
    }];
    let notes = vec![Note { id: NoteId(3), text: "note".to_string(), copyright: None, provenance: Provenance::default() }];
    GenealogyIndex::build(people, events, families, places, notes)
}

#[test]
fn ids_map_to_positions() {
    let index = sample();
    assert_eq!(index.person_by_id, vec![(PersonId(10), 0), (PersonId(20), 1), (PersonId(30), 2), (PersonId(40), 3)]);
    assert_eq!(index.event_by_id[3], (EventId(4), 3));
    assert_eq!(index.family_by_id, vec![(FamilyId(100), 0), (FamilyId(101), 1)]);
    assert_eq!(index.place_by_id, vec![(PlaceId(7), 0)]);
    assert_eq!(index.note_by_id, vec![(NoteId(3), 0)]);
}

#[test]
fn names_places_and_events_are_searchable_by_token() {
    let index = sample();
    let names = &index.name_index.postings;
    assert_eq!(lookup(names, "ada"), Some(&vec![0]));
    assert_eq!(lookup(names, "byron"), Some(&vec![0, 2]));
    assert_eq!(lookup(names, "king"), Some(&vec![1, 2]));
    assert_eq!(lookup(names, "countess"), Some(&vec![0]));
    assert_eq!(lookup(names, "lovelace"), Some(&vec![0]));
    assert_eq!(lookup(names, "nobody"), None);
    assert_eq!(lookup(&index.place_index.postings, "england"), Some(&vec![0]));
    let events = &index.event_index.postings;
    assert_eq!(lookup(events, "birth"), Some(&vec![0]));
    assert_eq!(lookup(events, "london"), Some(&vec![0]));
    assert_eq!(lookup(events, "program"), Some(&vec![2]));
    assert_eq!(lookup(events, "death"), Some(&vec![3]));
}

#[test]
fn events_are_listed_by_year() {
    let index = sample();
    let years = &index.date_index.events_by_year;
    assert_eq!(years.get(&1815), Some(&vec![0, 2]));
    assert_eq!(years.get(&1835), Some(&vec![1]));
    assert_eq!(years.len(), 2);
}

#[test]
fn relations_come_from_families_without_repeats() {
    let index = sample();
    let ada = &index.relations[0];
    assert_eq!(ada.person_id, PersonId(10));
    assert_eq!(ada.spouses, vec![PersonId(20)]);
    assert_eq!(ada.children, vec![PersonId(30), PersonId(40)]);
    assert!(ada.parents.is_empty());
    let child = &index.relations[2];
    assert_eq!(child.parents, vec![PersonId(10), PersonId(20)]);
    assert_eq!(child.siblings, vec![PersonId(40)]);
    assert_eq!(index.relations[3].siblings, vec![PersonId(30)]);
}

#[test]
fn events_of_a_year_come_in_record_order_up_to_the_limit() {
    let index = sample();
    let ids = |v: Vec<&GenealogyEvent>| v.iter().map(|e| e.id.0).collect::<Vec<_>>();
    assert_eq!(ids(index.events_in_year(1815, 10)), vec![1, 3]);
    assert_eq!(ids(index.events_in_year(1815, 1)), vec![1]);
    assert!(index.events_in_year(1900, 10).is_empty());
}

#[test]
fn places_are_found_by_raw_id() {
    let index = sample();
    assert_eq!(index.place_by_u64(7).map(|p| p.name.as_str()), Some("London, England"));
    assert!(index.place_by_u64(8).is_none());
}

#[test]
fn name_search_finds_people_listed_under_every_token() {
    let index = sample();
    let ids = |v: Vec<&Person>| v.iter().map(|p| p.id.0).collect::<Vec<_>>();
    assert_eq!(ids(index.search_people_by_name("King", 10)), vec![20, 30]);
    assert_eq!(ids(index.search_people_by_name("Byron King", 10)), vec![30]);
    assert_eq!(ids(index.search_people_by_name("byron", 1)), vec![10]);
    assert!(index.search_people_by_name("King nobody", 10).is_empty());
    assert!(index.search_people_by_name("", 10).is_empty());
    assert!(index.search_people_by_name("King", 0).is_empty());
}

#[test]
fn records_are_found_by_id_and_notes_by_person() {
    let index = sample();
    assert_eq!(index.person(PersonId(30)).map(|p| p.id.0), Some(30));
    assert!(index.person(PersonId(99)).is_none());
    assert_eq!(index.event(EventId(2)).map(|e| e.id.0), Some(2));
    assert_eq!(index.note(NoteId(3)).map(|n| n.text.as_str()), Some("note"));
    let mut ada = person(10, Vec::new());
    ada.notes = vec![NoteId(9), NoteId(3), NoteId(3)];
    assert_eq!(index.notes_for_person(&ada, 10).len(), 2);
    assert_eq!(index.notes_for_person(&ada, 2).len(), 1);
    assert!(index.notes_for_person(&ada, 1).is_empty());
}
