//! Derived indexes over a genealogy: where each record sits by id, search
//! postings for names, places and events, events by year, and each person's
//! parents, spouses, children and siblings as the families give them.
use std::collections::HashMap;
use vstd::prelude::*;
use crate::attribution::Provenance;
use crate::genealogy_event::{GenealogyEvent, GenealogyEventKind};
use crate::tree_filter::has_id;
use crate::text::str_eq;
use crate::model::{
    lookup_posting, posted, spec_tokens, DateIndex, EventId, Family, FamilyId, Name, Note, NoteId, Person, PersonId,
    PersonRelations, PlaceId, SearchIndex, SearchIndexArchive, DateIndexArchive,
};

verus! {

/// A place of a genealogy. Its coordinates are kept as decimal text.
#[derive(Debug, PartialEq, Eq)]
pub struct Place {
    pub id: PlaceId,
    pub name: String,
    /// Latitude and longitude, when known.
    pub lat_lon: Option<(String, String)>,
    /// Optional pointer into a separate geocoding index.
    pub geosuggest_id: Option<u64>,
    pub provenance: Provenance,
}

// ---------------------------------------------------------------------------
// Search postings, as the sequence of (token, record) pairs inserted.

pub open spec fn token_views(v: Seq<String>) -> Seq<Seq<char>> {
    v.map_values(|t: String| t@)
}

/// Each token paired with the record index `i`.
pub open spec fn tagged(ts: Seq<Seq<char>>, i: u32) -> Seq<(Seq<char>, u32)> {
    ts.map_values(|t: Seq<char>| (t, i))
}

/// The posting list of `t` after inserting `pairs` in order into an empty
/// index: a record is appended unless it is already the last one listed.
pub open spec fn posting_of(pairs: Seq<(Seq<char>, u32)>, t: Seq<char>) -> Option<Seq<u32>>
    decreases pairs.len(),
{
    if pairs.len() == 0 {
        None
    } else {
        let prev = posting_of(pairs.drop_last(), t);
        if pairs.last().0 == t {
            Some(
                posted(
                    match prev {
                        Some(l) => l,
                        None => Seq::<u32>::empty(),
                    },
                    pairs.last().1,
                ),
            )
        } else {
            prev
        }
    }
}

/// `idx` answers every token as inserting `pairs` would.
pub open spec fn indexes(idx: SearchIndex, pairs: Seq<(Seq<char>, u32)>) -> bool {
    &&& idx.wf()
    &&& forall|t: Seq<char>| #[trigger] idx.spec_lookup(t) == posting_of(pairs, t)
}

/// Inserts each token under the record `rec`.
fn insert_tokens(idx: &mut SearchIndex, tokens: Vec<String>, rec: u32, Ghost(pairs): Ghost<Seq<(Seq<char>, u32)>>)
    requires
        indexes(*old(idx), pairs),
    ensures
        indexes(*final(idx), pairs + tagged(token_views(tokens@), rec)),
{
    let ghost tv = token_views(tokens@);
    let mut i: usize = 0;
    let n = tokens.len();
    let ghost all = tokens@;
    assert(pairs + tagged(tv.take(0), rec) =~= pairs);
    while i < n
        invariant
            n == all.len(),
            i <= n,
            tv == token_views(all),
            tokens@.len() == n,
            forall|k: int| i <= k < n ==> #[trigger] tokens@[k] == all[k],
            indexes(*idx, pairs + tagged(tv.take(i as int), rec)),
        decreases n - i,
    {
        let ghost before = pairs + tagged(tv.take(i as int), rec);
        let ghost after = pairs + tagged(tv.take(i + 1), rec);
        assert(after =~= before.push((tv[i as int], rec)));
        let t = tokens[i].clone();
        assert(t@ == tv[i as int]);
        idx.insert(t, rec);
        assert forall|x: Seq<char>| #[trigger] idx.spec_lookup(x) == posting_of(after, x) by {
            assert(after.drop_last() =~= before);
        }
        i = i + 1;
    }
    assert(tv.take(n as int) =~= tv);
}

fn one_token(s: &str) -> (r: Vec<String>)
    ensures
        token_views(r@) == seq![s@],
{
    let mut r: Vec<String> = Vec::new();
    r.push(s.to_owned());
    assert(token_views(r@) =~= seq![s@]);
    r
}

fn tokens_of(s: &str) -> (r: Vec<String>)
    ensures
        token_views(r@) == spec_tokens(s@),
{
    let r = SearchIndex::tokenize(s);
    assert(token_views(r@) =~= r@.map_values(|t: String| t@));
    r
}

// ---------------------------------------------------------------------------
// What is indexed.

pub open spec fn opt_tokens(o: Option<String>) -> Seq<Seq<char>> {
    match o {
        Some(s) => spec_tokens(s@),
        None => seq![],
    }
}

pub open spec fn alias_tokens(aliases: Seq<String>) -> Seq<Seq<char>>
    decreases aliases.len(),
{
    if aliases.len() == 0 {
        seq![]
    } else {
        alias_tokens(aliases.drop_last()) + spec_tokens(aliases.last()@)
    }
}

/// The tokens of a name: its display form, given name, surname and aliases.
pub open spec fn name_tokens(n: Name) -> Seq<Seq<char>> {
    spec_tokens(n.display@) + opt_tokens(n.given) + opt_tokens(n.surname) + alias_tokens(n.aliases@)
}

pub open spec fn names_tokens(ns: Seq<Name>) -> Seq<Seq<char>>
    decreases ns.len(),
{
    if ns.len() == 0 {
        seq![]
    } else {
        names_tokens(ns.drop_last()) + name_tokens(ns.last())
    }
}

/// The name postings of people, person by person.
pub open spec fn name_pairs(people: Seq<Person>) -> Seq<(Seq<char>, u32)>
    decreases people.len(),
{
    if people.len() == 0 {
        seq![]
    } else {
        name_pairs(people.drop_last()) + tagged(names_tokens(people.last().names@), (people.len() - 1) as u32)
    }
}

pub open spec fn place_pairs(places: Seq<Place>) -> Seq<(Seq<char>, u32)>
    decreases places.len(),
{
    if places.len() == 0 {
        seq![]
    } else {
        place_pairs(places.drop_last()) + tagged(spec_tokens(places.last().name@), (places.len() - 1) as u32)
    }
}

/// An event is found by its kind (the tokens of a custom kind) and the
/// tokens of its description.
pub open spec fn event_tokens(e: GenealogyEvent) -> Seq<Seq<char>> {
    let kind = match e.kind {
        GenealogyEventKind::Birth => seq!["birth"@],
        GenealogyEventKind::Death => seq!["death"@],
        GenealogyEventKind::Marriage => seq!["marriage"@],
        GenealogyEventKind::Baptism => seq!["baptism"@],
        GenealogyEventKind::Burial => seq!["burial"@],
        GenealogyEventKind::Residence => seq!["residence"@],
        GenealogyEventKind::Occupation => seq!["occupation"@],
        GenealogyEventKind::Other(s) => spec_tokens(s@),
    };
    kind + opt_tokens(e.description)
}

pub open spec fn event_pairs(events: Seq<GenealogyEvent>) -> Seq<(Seq<char>, u32)>
    decreases events.len(),
{
    if events.len() == 0 {
        seq![]
    } else {
        event_pairs(events.drop_last()) + tagged(event_tokens(events.last()), (events.len() - 1) as u32)
    }
}

/// Inserts the tokens of one name under the record `rec`.
fn insert_name(idx: &mut SearchIndex, name: &Name, rec: u32, Ghost(p0): Ghost<Seq<(Seq<char>, u32)>>)
    requires
        indexes(*old(idx), p0),
    ensures
        indexes(*final(idx), p0 + tagged(name_tokens(*name), rec)),
{
    insert_tokens(idx, tokens_of(name.display.as_str()), rec, Ghost(p0));
    let ghost p1 = p0 + tagged(spec_tokens(name.display@), rec);
    match &name.given {
        Some(g) => insert_tokens(idx, tokens_of(g.as_str()), rec, Ghost(p1)),
        None => {
            assert(p1 + tagged(seq![], rec) =~= p1);
        },
    }
    let ghost p2 = p1 + tagged(opt_tokens(name.given), rec);
    match &name.surname {
        Some(g) => insert_tokens(idx, tokens_of(g.as_str()), rec, Ghost(p2)),
        None => {
            assert(p2 + tagged(seq![], rec) =~= p2);
        },
    }
    let ghost p3 = p2 + tagged(opt_tokens(name.surname), rec);
    let mut k: usize = 0;
    assert(p3 + tagged(alias_tokens(name.aliases@.take(0)), rec) =~= p3);
    while k < name.aliases.len()
        invariant
            k <= name.aliases@.len(),
            indexes(*idx, p3 + tagged(alias_tokens(name.aliases@.take(k as int)), rec)),
        decreases name.aliases@.len() - k,
    {
        let ghost q = p3 + tagged(alias_tokens(name.aliases@.take(k as int)), rec);
        insert_tokens(idx, tokens_of(name.aliases[k].as_str()), rec, Ghost(q));
        assert(name.aliases@.take(k + 1).drop_last() =~= name.aliases@.take(k as int));
        assert(q + tagged(spec_tokens(name.aliases@[k as int]@), rec)
            =~= p3 + tagged(alias_tokens(name.aliases@.take(k + 1)), rec));
        k = k + 1;
    }
    assert(name.aliases@.take(k as int) =~= name.aliases@);
    assert(p3 + tagged(alias_tokens(name.aliases@), rec) =~= p0 + tagged(name_tokens(*name), rec));
}

fn name_index_of(people: &Vec<Person>) -> (r: SearchIndex)
    requires
        people@.len() <= u32::MAX,
    ensures
        indexes(r, name_pairs(people@)),
{
    let mut idx = SearchIndex::new();
    let mut i: usize = 0;
    assert(name_pairs(people@.take(0)) =~= seq![]);
    while i < people.len()
        invariant
            i <= people@.len(),
            people@.len() <= u32::MAX,
            indexes(idx, name_pairs(people@.take(i as int))),
        decreases people@.len() - i,
    {
        let rec = i as u32;
        let ns = &people[i].names;
        let ghost base = name_pairs(people@.take(i as int));
        let mut j: usize = 0;
        assert(base + tagged(names_tokens(ns@.take(0)), rec) =~= base);
        while j < ns.len()
            invariant
                j <= ns@.len(),
                rec == i,
                indexes(idx, base + tagged(names_tokens(ns@.take(j as int)), rec)),
            decreases ns@.len() - j,
        {
            let ghost p0 = base + tagged(names_tokens(ns@.take(j as int)), rec);
            insert_name(&mut idx, &ns[j], rec, Ghost(p0));
            assert(ns@.take(j + 1).drop_last() =~= ns@.take(j as int));
            assert(p0 + tagged(name_tokens(ns@[j as int]), rec)
                =~= base + tagged(names_tokens(ns@.take(j + 1)), rec));
            j = j + 1;
        }
        assert(ns@.take(j as int) =~= ns@);
        assert(people@.take(i + 1).drop_last() =~= people@.take(i as int));
        i = i + 1;
    }
    assert(people@.take(i as int) =~= people@);
    idx
}

fn place_index_of(places: &Vec<Place>) -> (r: SearchIndex)
    requires
        places@.len() <= u32::MAX,
    ensures
        indexes(r, place_pairs(places@)),
{
    let mut idx = SearchIndex::new();
    let mut i: usize = 0;
    assert(place_pairs(places@.take(0)) =~= seq![]);
    while i < places.len()
        invariant
            i <= places@.len(),
            places@.len() <= u32::MAX,
            indexes(idx, place_pairs(places@.take(i as int))),
        decreases places@.len() - i,
    {
        let ghost base = place_pairs(places@.take(i as int));
        insert_tokens(&mut idx, tokens_of(places[i].name.as_str()), i as u32, Ghost(base));
        assert(places@.take(i + 1).drop_last() =~= places@.take(i as int));
        i = i + 1;
    }
    assert(places@.take(i as int) =~= places@);
    idx
}

fn kind_tokens(k: &GenealogyEventKind) -> (r: Vec<String>)
    ensures
        token_views(r@) == (match *k {
            GenealogyEventKind::Birth => seq!["birth"@],
            GenealogyEventKind::Death => seq!["death"@],
            GenealogyEventKind::Marriage => seq!["marriage"@],
            GenealogyEventKind::Baptism => seq!["baptism"@],
            GenealogyEventKind::Burial => seq!["burial"@],
            GenealogyEventKind::Residence => seq!["residence"@],
            GenealogyEventKind::Occupation => seq!["occupation"@],
            GenealogyEventKind::Other(s) => spec_tokens(s@),
        }),
{
    match k {
        GenealogyEventKind::Birth => one_token("birth"),
        GenealogyEventKind::Death => one_token("death"),
        GenealogyEventKind::Marriage => one_token("marriage"),
        GenealogyEventKind::Baptism => one_token("baptism"),
        GenealogyEventKind::Burial => one_token("burial"),
        GenealogyEventKind::Residence => one_token("residence"),
        GenealogyEventKind::Occupation => one_token("occupation"),
        GenealogyEventKind::Other(s) => tokens_of(s.as_str()),
    }
}

fn event_index_of(events: &Vec<GenealogyEvent>) -> (r: SearchIndex)
    requires
        events@.len() <= u32::MAX,
    ensures
        indexes(r, event_pairs(events@)),
{
    let mut idx = SearchIndex::new();
    let mut i: usize = 0;
    assert(event_pairs(events@.take(0)) =~= seq![]);
    while i < events.len()
        invariant
            i <= events@.len(),
            events@.len() <= u32::MAX,
            indexes(idx, event_pairs(events@.take(i as int))),
        decreases events@.len() - i,
    {
        let e = &events[i];
        let rec = i as u32;
        let ghost base = event_pairs(events@.take(i as int));
        let kt = kind_tokens(&e.kind);
        let ghost kv = token_views(kt@);
        insert_tokens(&mut idx, kt, rec, Ghost(base));
        let ghost p1 = base + tagged(kv, rec);
        match &e.description {
            Some(d) => insert_tokens(&mut idx, tokens_of(d.as_str()), rec, Ghost(p1)),
            None => {
                assert(p1 + tagged(seq![], rec) =~= p1);
            },
        }
        assert(events@.take(i + 1).drop_last() =~= events@.take(i as int));
        assert(p1 + tagged(opt_tokens(e.description), rec) =~= base + tagged(event_tokens(*e), rec));
        i = i + 1;
    }
    assert(events@.take(i as int) =~= events@);
    idx
}

// ---------------------------------------------------------------------------
// Events by year.

/// The first year an event's date may fall in, when its date is parsed.
pub open spec fn event_year(e: GenealogyEvent) -> Option<i32> {
    match e.date {
        Some(d) => match d.range {
            Some(r) => r.earliest_year,
            None => None,
        },
        None => None,
    }
}

/// The indexes of the events of year `y`, in order.
pub open spec fn events_in_year(events: Seq<GenealogyEvent>, y: i32) -> Seq<u32>
    decreases events.len(),
{
    if events.len() == 0 {
        seq![]
    } else {
        events_in_year(events.drop_last(), y) + if event_year(events.last()) == Some(y) {
            seq![(events.len() - 1) as u32]
        } else {
            seq![]
        }
    }
}

/// `d` lists, for each year with events, exactly the events of that year.
pub open spec fn dates_indexed(d: DateIndex, events: Seq<GenealogyEvent>) -> bool {
    forall|y: i32| {
        &&& #[trigger] d.events_by_year@.contains_key(y) == (events_in_year(events, y).len() > 0)
        &&& d.events_by_year@.contains_key(y) ==> d.events_by_year@[y]@ == events_in_year(events, y)
    }
}

/// Appends `rec` to the list of year `y`.
fn add_to_year(d: &mut DateIndex, y: i32, rec: u32)
    ensures
        final(d).events_by_year@ == old(d).events_by_year@.insert(
            y,
            final(d).events_by_year@[y],
        ),
        final(d).events_by_year@[y]@ == (if old(d).events_by_year@.contains_key(y) {
            old(d).events_by_year@[y]@
        } else {
            Seq::<u32>::empty()
        }).push(rec),
{
    broadcast use vstd::std_specs::hash::group_hash_axioms;
    let mut list: Vec<u32> = Vec::new();
    match d.events_by_year.get(&y) {
        Some(l) => {
            let mut k: usize = 0;
            while k < l.len()
                invariant
                    k <= l@.len(),
                    list@ == l@.take(k as int),
                decreases l@.len() - k,
            {
                list.push(l[k]);
                assert(list@ =~= l@.take(k + 1));
                k = k + 1;
            }
            assert(list@ =~= l@);
        },
        None => {
            assert(list@ =~= Seq::<u32>::empty());
        },
    }
    list.push(rec);
    d.events_by_year.insert(y, list);
}

fn year_of(e: &GenealogyEvent) -> (r: Option<i32>)
    ensures
        r == event_year(*e),
{
    match &e.date {
        Some(d) => match &d.range {
            Some(r) => r.earliest_year,
            None => None,
        },
        None => None,
    }
}

fn date_index_of(events: &Vec<GenealogyEvent>) -> (r: DateIndex)
    requires
        events@.len() <= u32::MAX,
    ensures
        dates_indexed(r, events@),
{
    broadcast use vstd::std_specs::hash::group_hash_axioms;
    let mut d = DateIndex { events_by_year: HashMap::new() };
    let mut i: usize = 0;
    assert forall|y: i32| #[trigger] events_in_year(events@.take(0), y) == Seq::<u32>::empty() by {
        assert(events@.take(0) =~= seq![]);
    }
    while i < events.len()
        invariant
            i <= events@.len(),
            events@.len() <= u32::MAX,
            dates_indexed(d, events@.take(i as int)),
        decreases events@.len() - i,
    {
        let ghost pre = events@.take(i as int);
        let ghost post = events@.take(i + 1);
        assert(post.drop_last() =~= pre);
        assert(post.last() == events@[i as int]);
        let ghost old_map = d.events_by_year@;
        match year_of(&events[i]) {
            Some(y) => {
                add_to_year(&mut d, y, i as u32);
                assert forall|x: i32| {
                    &&& #[trigger] d.events_by_year@.contains_key(x) == (events_in_year(post, x).len() > 0)
                    &&& d.events_by_year@.contains_key(x) ==> d.events_by_year@[x]@ == events_in_year(post, x)
                } by {
                    if x == y {
                        assert(events_in_year(post, x) =~= events_in_year(pre, x).push(i as u32));
                        if !old_map.contains_key(y) {
                            assert(events_in_year(pre, y) =~= Seq::<u32>::empty());
                        }
                    } else {
                        assert(events_in_year(post, x) =~= events_in_year(pre, x));
                        assert(d.events_by_year@.contains_key(x) == old_map.contains_key(x));
                    }
                }
            },
            None => {
                assert forall|x: i32| #[trigger] events_in_year(post, x) == events_in_year(pre, x) by {
                    assert(events_in_year(post, x) =~= events_in_year(pre, x));
                }
            },
        }
        i = i + 1;
    }
    assert(events@.take(i as int) =~= events@);
    d
}

// ---------------------------------------------------------------------------
// Relations from families.

/// `acc` with each of `items` appended, in order, unless it is `skip` or
/// already there.
pub open spec fn add_distinct(acc: Seq<PersonId>, items: Seq<PersonId>, skip: Option<PersonId>) -> Seq<PersonId>
    decreases items.len(),
{
    if items.len() == 0 {
        acc
    } else {
        let a = add_distinct(acc, items.drop_last(), skip);
        let x = items.last();
        if skip != Some(x) && !a.contains(x) {
            a.push(x)
        } else {
            a
        }
    }
}

pub struct RelationLists {
    pub parents: Seq<PersonId>,
    pub spouses: Seq<PersonId>,
    pub children: Seq<PersonId>,
    pub siblings: Seq<PersonId>,
}

/// A person's relatives after the families in order: in a family where
/// they are a spouse, its other spouses and its children; where they are a
/// child, its spouses as parents and its other children as siblings. Each
/// person is listed once, where first met.
pub open spec fn relation_lists(fams: Seq<Family>, pid: PersonId) -> RelationLists
    decreases fams.len(),
{
    if fams.len() == 0 {
        RelationLists { parents: seq![], spouses: seq![], children: seq![], siblings: seq![] }
    } else {
        let r = relation_lists(fams.drop_last(), pid);
        let f = fams.last();
        let spouse = f.spouses@.contains(pid);
        let child = f.children@.contains(pid);
        RelationLists {
            parents: if child { add_distinct(r.parents, f.spouses@, None) } else { r.parents },
            spouses: if spouse { add_distinct(r.spouses, f.spouses@, Some(pid)) } else { r.spouses },
            children: if spouse { add_distinct(r.children, f.children@, None) } else { r.children },
            siblings: if child { add_distinct(r.siblings, f.children@, Some(pid)) } else { r.siblings },
        }
    }
}

pub open spec fn relations_of(rel: PersonRelations, pid: PersonId, fams: Seq<Family>) -> bool {
    let l = relation_lists(fams, pid);
    &&& rel.person_id == pid
    &&& rel.parents@ == l.parents
    &&& rel.spouses@ == l.spouses
    &&& rel.children@ == l.children
    &&& rel.siblings@ == l.siblings
}

fn add_distinct_ids(acc: &mut Vec<PersonId>, items: &Vec<PersonId>, skip: Option<PersonId>)
    ensures
        final(acc)@ == add_distinct(old(acc)@, items@, skip),
{
    let ghost start = acc@;
    let mut i: usize = 0;
    while i < items.len()
        invariant
            i <= items@.len(),
            acc@ == add_distinct(start, items@.take(i as int), skip),
        decreases items@.len() - i,
    {
        let x = items[i];
        assert(items@.take(i + 1).drop_last() =~= items@.take(i as int));
        assert(items@.take(i + 1).last() == x);
        if skip != Some(x) && !has_id(acc, x) {
            acc.push(x);
        }
        i = i + 1;
    }
    assert(items@.take(i as int) =~= items@);
}

fn relations_for(fams: &Vec<Family>, pid: PersonId) -> (r: PersonRelations)
    ensures
        relations_of(r, pid, fams@),
{
    let mut parents: Vec<PersonId> = Vec::new();
    let mut spouses: Vec<PersonId> = Vec::new();
    let mut children: Vec<PersonId> = Vec::new();
    let mut siblings: Vec<PersonId> = Vec::new();
    let mut i: usize = 0;
    assert(fams@.take(0) =~= seq![]);
    while i < fams.len()
        invariant
            i <= fams@.len(),
            parents@ == relation_lists(fams@.take(i as int), pid).parents,
            spouses@ == relation_lists(fams@.take(i as int), pid).spouses,
            children@ == relation_lists(fams@.take(i as int), pid).children,
            siblings@ == relation_lists(fams@.take(i as int), pid).siblings,
        decreases fams@.len() - i,
    {
        let f = &fams[i];
        assert(fams@.take(i + 1).drop_last() =~= fams@.take(i as int));
        assert(fams@.take(i + 1).last() == *f);
        let spouse = has_id(&f.spouses, pid);
        let child = has_id(&f.children, pid);
        if spouse {
            add_distinct_ids(&mut spouses, &f.spouses, Some(pid));
            add_distinct_ids(&mut children, &f.children, None);
        }
        if child {
            add_distinct_ids(&mut parents, &f.spouses, None);
            add_distinct_ids(&mut siblings, &f.children, Some(pid));
        }
        i = i + 1;
    }
    assert(fams@.take(i as int) =~= fams@);
    PersonRelations { person_id: pid, parents, spouses, children, siblings }
}

// ---------------------------------------------------------------------------
// The index.

/// A genealogy with its derived indexes. Each id table lists the records'
/// ids with their positions, in record order; `relations` holds one entry
/// per person, in the order of `people`.
#[derive(Debug, PartialEq, Eq)]
pub struct GenealogyIndex {
    pub people: Vec<Person>,
    pub events: Vec<GenealogyEvent>,
    pub families: Vec<Family>,
    pub places: Vec<Place>,
    pub notes: Vec<Note>,
    pub person_by_id: Vec<(PersonId, usize)>,
    pub event_by_id: Vec<(EventId, usize)>,
    pub family_by_id: Vec<(FamilyId, usize)>,
    pub place_by_id: Vec<(PlaceId, usize)>,
    pub note_by_id: Vec<(NoteId, usize)>,
    pub name_index: SearchIndex,
    pub place_index: SearchIndex,
    pub event_index: SearchIndex,
    pub date_index: DateIndex,
    pub relations: Vec<PersonRelations>,
}

/// The index that `build` makes of the records.
pub open spec fn built_from(
    r: GenealogyIndex,
    people: Seq<Person>,
    events: Seq<GenealogyEvent>,
    families: Seq<Family>,
    places: Seq<Place>,
    notes: Seq<Note>,
) -> bool {
    &&& r.people@ == people
    &&& r.events@ == events
    &&& r.families@ == families
    &&& r.places@ == places
    &&& r.notes@ == notes
    &&& r.person_by_id@.len() == people.len()
    &&& forall|i: int| 0 <= i < people.len() ==> #[trigger] r.person_by_id@[i] == (people[i].id, i as usize)
    &&& r.event_by_id@.len() == events.len()
    &&& forall|i: int| 0 <= i < events.len() ==> #[trigger] r.event_by_id@[i] == (events[i].id, i as usize)
    &&& r.family_by_id@.len() == families.len()
    &&& forall|i: int| 0 <= i < families.len() ==> #[trigger] r.family_by_id@[i] == (families[i].id, i as usize)
    &&& r.place_by_id@.len() == places.len()
    &&& forall|i: int| 0 <= i < places.len() ==> #[trigger] r.place_by_id@[i] == (places[i].id, i as usize)
    &&& r.note_by_id@.len() == notes.len()
    &&& forall|i: int| 0 <= i < notes.len() ==> #[trigger] r.note_by_id@[i] == (notes[i].id, i as usize)
    &&& indexes(r.name_index, name_pairs(people))
    &&& indexes(r.place_index, place_pairs(places))
    &&& indexes(r.event_index, event_pairs(events))
    &&& dates_indexed(r.date_index, events)
    &&& r.relations@.len() == people.len()
    &&& forall|i: int| 0 <= i < people.len() ==> relations_of(#[trigger] r.relations@[i], people[i].id, families)
}

impl GenealogyIndex {
    /// Builds the derived indexes of the records. Record positions are
    /// `u32` in the search and date indexes, so each list fits in one.
    pub fn build(
        people: Vec<Person>,
        events: Vec<GenealogyEvent>,
        families: Vec<Family>,
        places: Vec<Place>,
        notes: Vec<Note>,
    ) -> (r: Self)
        requires
            people@.len() <= u32::MAX,
            events@.len() <= u32::MAX,
            places@.len() <= u32::MAX,
        ensures
            built_from(r, people@, events@, families@, places@, notes@),
    {
        let mut person_by_id: Vec<(PersonId, usize)> = Vec::new();
        let mut i: usize = 0;
        while i < people.len()
            invariant
                i <= people@.len(),
                person_by_id@.len() == i,
                forall|k: int| 0 <= k < i ==> #[trigger] person_by_id@[k] == (people@[k].id, k as usize),
            decreases people@.len() - i,
        {
            person_by_id.push((people[i].id, i));
            i = i + 1;
        }
        let mut event_by_id: Vec<(EventId, usize)> = Vec::new();
        let mut i: usize = 0;
        while i < events.len()
            invariant
                i <= events@.len(),
                event_by_id@.len() == i,
                forall|k: int| 0 <= k < i ==> #[trigger] event_by_id@[k] == (events@[k].id, k as usize),
            decreases events@.len() - i,
        {
            event_by_id.push((events[i].id, i));
            i = i + 1;
        }
        let mut family_by_id: Vec<(FamilyId, usize)> = Vec::new();
        let mut i: usize = 0;
        while i < families.len()
            invariant
                i <= families@.len(),
                family_by_id@.len() == i,
                forall|k: int| 0 <= k < i ==> #[trigger] family_by_id@[k] == (families@[k].id, k as usize),
            decreases families@.len() - i,
        {
            family_by_id.push((families[i].id, i));
            i = i + 1;
        }
        let mut place_by_id: Vec<(PlaceId, usize)> = Vec::new();
        let mut i: usize = 0;
        while i < places.len()
            invariant
                i <= places@.len(),
                place_by_id@.len() == i,
                forall|k: int| 0 <= k < i ==> #[trigger] place_by_id@[k] == (places@[k].id, k as usize),
            decreases places@.len() - i,
        {
            place_by_id.push((places[i].id, i));
            i = i + 1;
        }
        let mut note_by_id: Vec<(NoteId, usize)> = Vec::new();
        let mut i: usize = 0;
        while i < notes.len()
            invariant
                i <= notes@.len(),
                note_by_id@.len() == i,
                forall|k: int| 0 <= k < i ==> #[trigger] note_by_id@[k] == (notes@[k].id, k as usize),
            decreases notes@.len() - i,
        {
            note_by_id.push((notes[i].id, i));
            i = i + 1;
        }
        let name_index = name_index_of(&people);
        let place_index = place_index_of(&places);
        let event_index = event_index_of(&events);
        let date_index = date_index_of(&events);
        let mut relations: Vec<PersonRelations> = Vec::new();
        let mut i: usize = 0;
        while i < people.len()
            invariant
                i <= people@.len(),
                relations@.len() == i,
                forall|k: int| 0 <= k < i ==> relations_of(#[trigger] relations@[k], people@[k].id, families@),
            decreases people@.len() - i,
        {
            relations.push(relations_for(&families, people[i].id));
            i = i + 1;
        }
        GenealogyIndex {
            people,
            events,
            families,
            places,
            notes,
            person_by_id,
            event_by_id,
            family_by_id,
            place_by_id,
            note_by_id,
            name_index,
            place_index,
            event_index,
            date_index,
            relations,
        }
    }
}

/// A stored snapshot of a genealogy: the records with their indexes in
/// key order.
#[derive(Debug, PartialEq, Eq)]
pub struct GenealogyArchive {
    pub people: Vec<Person>,
    pub events: Vec<GenealogyEvent>,
    pub families: Vec<Family>,
    pub places: Vec<Place>,
    pub notes: Vec<Note>,
    pub person_by_id: Vec<(PersonId, u32)>,
    pub event_by_id: Vec<(EventId, u32)>,
    pub family_by_id: Vec<(FamilyId, u32)>,
    pub place_by_id: Vec<(PlaceId, u32)>,
    pub note_by_id: Vec<(NoteId, u32)>,
    pub name_index: SearchIndexArchive,
    pub place_index: SearchIndexArchive,
    pub event_index: SearchIndexArchive,
    pub date_index: DateIndexArchive,
    pub relations: Vec<(PersonId, PersonRelations)>,
}

impl GenealogyIndex {
    /// Rebuilds the index from the records of a snapshot (its stored
    /// indexes are derived again, not trusted).
    pub fn from_archive(archive: GenealogyArchive) -> (r: Self)
        requires
            archive.people@.len() <= u32::MAX,
            archive.events@.len() <= u32::MAX,
            archive.places@.len() <= u32::MAX,
        ensures
            built_from(r, archive.people@, archive.events@, archive.families@, archive.places@, archive.notes@),
    {
        GenealogyIndex::build(archive.people, archive.events, archive.families, archive.places, archive.notes)
    }
}

// ---------------------------------------------------------------------------
// Laws.

proof fn lemma_posting_has(pairs: Seq<(Seq<char>, u32)>, k: int)
    requires
        0 <= k < pairs.len(),
    ensures
        posting_of(pairs, pairs[k].0) matches Some(l) && l.contains(pairs[k].1),
    decreases pairs.len(),
{
    let t = pairs[k].0;
    let prev = posting_of(pairs.drop_last(), t);
    let base = match prev {
        Some(l) => l,
        None => Seq::<u32>::empty(),
    };
    if k == pairs.len() - 1 {
        let l = posted(base, pairs.last().1);
        if base.len() > 0 && base.last() == pairs.last().1 {
            assert(l[l.len() - 1] == pairs[k].1);
        } else {
            assert(l[l.len() - 1] == pairs[k].1);
        }
    } else {
        assert(pairs.drop_last()[k] == pairs[k]);
        lemma_posting_has(pairs.drop_last(), k);
        let l0 = prev.unwrap();
        let j = choose|j: int| 0 <= j < l0.len() && l0[j] == pairs[k].1;
        if pairs.last().0 == t {
            let l = posted(l0, pairs.last().1);
            assert(l[j] == pairs[k].1);
        }
    }
}

proof fn lemma_name_pairs_have(people: Seq<Person>, i: int, t: Seq<char>)
    requires
        0 <= i < people.len(),
        names_tokens(people[i].names@).contains(t),
    ensures
        name_pairs(people).contains((t, i as u32)),
    decreases people.len(),
{
    let n = people.len();
    if i == n - 1 {
        let ts = names_tokens(people.last().names@);
        let m = choose|m: int| 0 <= m < ts.len() && ts[m] == t;
        let tg = tagged(ts, (n - 1) as u32);
        assert(tg[m] == (t, i as u32));
        let all = name_pairs(people.drop_last()) + tg;
        assert(all[name_pairs(people.drop_last()).len() + m] == (t, i as u32));
    } else {
        assert(people.drop_last()[i] == people[i]);
        lemma_name_pairs_have(people.drop_last(), i, t);
        let pre = name_pairs(people.drop_last());
        let m = choose|m: int| 0 <= m < pre.len() && pre[m] == (t, i as u32);
        let all = pre + tagged(names_tokens(people.last().names@), (n - 1) as u32);
        assert(all[m] == (t, i as u32));
    }
}

/// Law: a search of the name index by any token of one of a person's names
/// (display form, given name, surname or alias) lists that person.
pub proof fn law_name_search_finds_person(r: GenealogyIndex, people: Seq<Person>, i: int, t: Seq<char>)
    requires
        indexes(r.name_index, name_pairs(people)),
        0 <= i < people.len(),
        names_tokens(people[i].names@).contains(t),
    ensures
        r.name_index.spec_lookup(t) matches Some(l) && l.contains(i as u32),
{
    lemma_name_pairs_have(people, i, t);
    let pairs = name_pairs(people);
    let k = choose|k: int| 0 <= k < pairs.len() && pairs[k] == (t, i as u32);
    lemma_posting_has(pairs, k);
}

/// Law: a person listed as a spouse with someone in a family has them among
/// their spouses, and a child of that family among their children.
pub proof fn law_family_spouses_and_children(fams: Seq<Family>, pid: PersonId, k: int, other: PersonId)
    requires
        0 <= k < fams.len(),
        fams[k].spouses@.contains(pid),
        fams[k].spouses@.contains(other) || fams[k].children@.contains(other),
    ensures
        fams[k].spouses@.contains(other) && other != pid ==> relation_lists(fams, pid).spouses.contains(other),
        fams[k].children@.contains(other) ==> relation_lists(fams, pid).children.contains(other),
    decreases fams.len(),
{
    if k < fams.len() - 1 {
        assert(fams.drop_last()[k] == fams[k]);
        law_family_spouses_and_children(fams.drop_last(), pid, k, other);
        let f = fams.last();
        let r = relation_lists(fams.drop_last(), pid);
        if f.spouses@.contains(pid) {
            if fams[k].spouses@.contains(other) && other != pid {
                lemma_add_distinct_keeps(r.spouses, f.spouses@, Some(pid), other);
            }
            if fams[k].children@.contains(other) {
                lemma_add_distinct_keeps(r.children, f.children@, None, other);
            }
        }
    } else {
        let f = fams.last();
        let r = relation_lists(fams.drop_last(), pid);
        if f.spouses@.contains(other) && other != pid {
            lemma_add_distinct_adds(r.spouses, f.spouses@, Some(pid), other);
        }
        if f.children@.contains(other) {
            lemma_add_distinct_adds(r.children, f.children@, None, other);
        }
    }
}

proof fn lemma_add_distinct_keeps(acc: Seq<PersonId>, items: Seq<PersonId>, skip: Option<PersonId>, x: PersonId)
    requires
        acc.contains(x),
    ensures
        add_distinct(acc, items, skip).contains(x),
    decreases items.len(),
{
    if items.len() > 0 {
        lemma_add_distinct_keeps(acc, items.drop_last(), skip, x);
        let a = add_distinct(acc, items.drop_last(), skip);
        let j = choose|j: int| 0 <= j < a.len() && a[j] == x;
        if skip != Some(items.last()) && !a.contains(items.last()) {
            assert(a.push(items.last())[j] == x);
        }
    }
}

proof fn lemma_add_distinct_adds(acc: Seq<PersonId>, items: Seq<PersonId>, skip: Option<PersonId>, x: PersonId)
    requires
        items.contains(x),
        skip != Some(x),
    ensures
        add_distinct(acc, items, skip).contains(x),
    decreases items.len(),
{
    let a = add_distinct(acc, items.drop_last(), skip);
    if items.last() == x {
        if !a.contains(x) {
            assert(a.push(x)[a.len() as int] == x);
        }
    } else {
        let j = choose|j: int| 0 <= j < items.len() && items[j] == x;
        assert(items.drop_last()[j] == x);
        lemma_add_distinct_adds(acc, items.drop_last(), skip, x);
        if skip != Some(items.last()) && !a.contains(items.last()) {
            let m = choose|m: int| 0 <= m < a.len() && a[m] == x;
            assert(a.push(items.last())[m] == x);
        }
    }
}


/// The events at the positions listed, leaving out positions past the end.
pub open spec fn events_at(events: Seq<GenealogyEvent>, ps: Seq<u32>) -> Seq<GenealogyEvent>
    decreases ps.len(),
{
    if ps.len() == 0 {
        seq![]
    } else {
        events_at(events, ps.drop_last()) + if (ps.last() as int) < events.len() {
            seq![events[ps.last() as int]]
        } else {
            seq![]
        }
    }
}

/// The positions a year lists, at most `limit` of them.
pub open spec fn year_positions(m: Map<i32, Vec<u32>>, year: i32, limit: nat) -> Seq<u32> {
    if m.contains_key(year) {
        let l = m[year]@;
        if l.len() <= limit { l } else { l.take(limit as int) }
    } else {
        seq![]
    }
}

/// The first place with a raw id.
pub open spec fn first_place(places: Seq<Place>, id: u64) -> Option<int>
    decreases places.len(),
{
    if places.len() == 0 {
        None
    } else {
        match first_place(places.drop_last(), id) {
            Some(i) => Some(i),
            None => if places.last().id.0 == id { Some(places.len() - 1) } else { None },
        }
    }
}

proof fn lemma_first_place_prefix(places: Seq<Place>, id: u64, n: int)
    requires
        0 <= n <= places.len(),
        first_place(places.take(n), id) is Some,
    ensures
        first_place(places, id) == first_place(places.take(n), id),
    decreases places.len() - n,
{
    if n < places.len() {
        assert(places.take(n + 1).drop_last() =~= places.take(n));
        lemma_first_place_prefix(places, id, n + 1);
    } else {
        assert(places.take(n) =~= places);
    }
}

impl GenealogyIndex {
    /// The events of a year, in record order, at most `limit` of them.
    pub fn events_in_year(&self, year: i32, limit: usize) -> (r: Vec<&GenealogyEvent>)
        ensures
            r@.map_values(|e: &GenealogyEvent| *e)
                == events_at(self.events@, year_positions(self.date_index.events_by_year@, year, limit as nat)),
    {
        broadcast use vstd::std_specs::hash::group_hash_axioms;
        let ghost ps = year_positions(self.date_index.events_by_year@, year, limit as nat);
        let mut out: Vec<&GenealogyEvent> = Vec::new();
        let list = match self.date_index.events_by_year.get(&year) {
            Some(l) => l,
            None => {
                assert(out@.map_values(|e: &GenealogyEvent| *e) =~= events_at(self.events@, ps));
                return out;
            },
        };
        let n = if list.len() < limit { list.len() } else { limit };
        assert(ps =~= list@.take(n as int));
        let mut i: usize = 0;
        assert(out@.map_values(|e: &GenealogyEvent| *e) =~= events_at(self.events@, ps.take(0)));
        while i < n
            invariant
                i <= n,
                n <= list@.len(),
                ps == list@.take(n as int),
                out@.map_values(|e: &GenealogyEvent| *e) == events_at(self.events@, ps.take(i as int)),
            decreases n - i,
        {
            assert(ps.take(i as int + 1).drop_last() =~= ps.take(i as int));
            assert(ps.take(i as int + 1).last() == list@[i as int]);
            let idx = list[i];
            let ghost before = out@;
            if (idx as usize) < self.events.len() {
                out.push(&self.events[idx as usize]);
                assert(out@.map_values(|e: &GenealogyEvent| *e)
                    =~= before.map_values(|e: &GenealogyEvent| *e).push(self.events@[idx as int]));
            } else {
                assert(out@.map_values(|e: &GenealogyEvent| *e) =~= before.map_values(|e: &GenealogyEvent| *e));
            }
            i += 1;
        }
        assert(ps.take(n as int) =~= ps);
        out
    }

    /// The first place whose id is `place_id`.
    pub fn place_by_u64(&self, place_id: u64) -> (r: Option<&Place>)
        ensures
            match first_place(self.places@, place_id) {
                Some(i) => r == Some(&self.places@[i]),
                None => r is None,
            },
    {
        let mut i: usize = 0;
        while i < self.places.len()
            invariant
                i <= self.places@.len(),
                first_place(self.places@.take(i as int), place_id) is None,
            decreases self.places@.len() - i,
        {
            assert(self.places@.take(i as int + 1).drop_last() =~= self.places@.take(i as int));
            assert(self.places@.take(i as int + 1).last() == self.places@[i as int]);
            if self.places[i].id.0 == place_id {
                proof {
                    lemma_first_place_prefix(self.places@, place_id, i as int + 1);
                }
                return Some(&self.places[i]);
            }
            i += 1;
        }
        assert(self.places@.take(self.places@.len() as int) =~= self.places@);
        None
    }
}


/// The name index lists record `i` under token `t`.
pub open spec fn lists(p: Seq<(String, Vec<u32>)>, t: Seq<char>, i: int) -> bool {
    lookup_posting(p, t) matches Some(l) && l.contains(i as u32)
}

/// Every token of a query, and there is one, lists record `i`.
pub open spec fn name_hit(p: Seq<(String, Vec<u32>)>, tokens: Seq<Seq<char>>, i: int) -> bool {
    &&& tokens.len() > 0
    &&& forall|k: int| 0 <= k < tokens.len() ==> #[trigger] lists(p, tokens[k], i)
}

/// The records below `n` that every token lists, in ascending order.
pub open spec fn hits_below(p: Seq<(String, Vec<u32>)>, tokens: Seq<Seq<char>>, n: int) -> Seq<int>
    decreases n,
{
    if n <= 0 {
        seq![]
    } else {
        hits_below(p, tokens, n - 1) + if name_hit(p, tokens, n - 1) { seq![n - 1] } else { seq![] }
    }
}

/// The people a name search finds: those every token of the query lists,
/// in record order, at most `limit` of them.
pub open spec fn name_search(ix: GenealogyIndex, query: Seq<char>, limit: nat) -> Seq<Person> {
    let hs = hits_below(ix.name_index.postings@, spec_tokens(query), ix.people@.len() as int);
    let kept = if hs.len() <= limit { hs } else { hs.take(limit as int) };
    kept.map_values(|i: int| ix.people@[i])
}

proof fn lemma_hits_prefix(p: Seq<(String, Vec<u32>)>, tokens: Seq<Seq<char>>, m: int, n: int)
    requires
        0 <= m <= n,
    ensures
        hits_below(p, tokens, m).len() <= hits_below(p, tokens, n).len(),
        hits_below(p, tokens, n).take(hits_below(p, tokens, m).len() as int) == hits_below(p, tokens, m),
    decreases n - m,
{
    if m < n {
        lemma_hits_prefix(p, tokens, m, n - 1);
        let a = hits_below(p, tokens, m);
        let b = hits_below(p, tokens, n - 1);
        let c = hits_below(p, tokens, n);
        assert(c.take(b.len() as int) =~= b);
        assert(c.take(a.len() as int) =~= b.take(a.len() as int));
    } else {
        assert(hits_below(p, tokens, n).take(hits_below(p, tokens, n).len() as int) =~= hits_below(p, tokens, n));
    }
}

proof fn lemma_hits_bound(p: Seq<(String, Vec<u32>)>, tokens: Seq<Seq<char>>, n: int)
    requires
        0 <= n,
    ensures
        forall|j: int| 0 <= j < hits_below(p, tokens, n).len() ==> 0 <= #[trigger] hits_below(p, tokens, n)[j] < n,
    decreases n,
{
    if n > 0 {
        lemma_hits_bound(p, tokens, n - 1);
        let a = hits_below(p, tokens, n - 1);
        assert forall|j: int| 0 <= j < hits_below(p, tokens, n).len() implies 0 <= #[trigger] hits_below(p, tokens, n)[j] < n by {
            if j < a.len() {
                assert(hits_below(p, tokens, n)[j] == a[j]);
            }
        }
    }
}

/// The list of `token`, the last entry for it.
fn token_list<'a>(p: &'a Vec<(String, Vec<u32>)>, token: &str) -> (r: Option<&'a Vec<u32>>)
    ensures
        match r {
            Some(l) => lookup_posting(p@, token@) == Some(l@),
            None => lookup_posting(p@, token@) is None,
        },
{
    let mut k: usize = p.len();
    assert(p@.take(p@.len() as int) =~= p@);
    while k > 0
        invariant
            k <= p@.len(),
            lookup_posting(p@, token@) == lookup_posting(p@.take(k as int), token@),
        decreases k,
    {
        assert(p@.take(k as int).drop_last() =~= p@.take(k - 1));
        assert(p@.take(k as int).last() == p@[k - 1]);
        if str_eq(p[k - 1].0.as_str(), token) {
            return Some(&p[k - 1].1);
        }
        k -= 1;
    }
    assert(p@.take(0) =~= seq![]);
    None
}

fn contains_u32(v: &Vec<u32>, x: u32) -> (b: bool)
    ensures
        b == v@.contains(x),
{
    let mut i: usize = 0;
    while i < v.len()
        invariant
            i <= v@.len(),
            forall|j: int| 0 <= j < i ==> v@[j] != x,
        decreases v@.len() - i,
    {
        if v[i] == x {
            return true;
        }
        i += 1;
    }
    false
}

fn name_hit_of(p: &Vec<(String, Vec<u32>)>, tokens: &Vec<String>, i: u32) -> (b: bool)
    ensures
        b == name_hit(p@, tokens@.map_values(|t: String| t@), i as int),
{
    let ghost ts = tokens@.map_values(|t: String| t@);
    if tokens.len() == 0 {
        return false;
    }
    let mut k: usize = 0;
    while k < tokens.len()
        invariant
            k <= tokens@.len(),
            ts == tokens@.map_values(|t: String| t@),
            forall|q: int| 0 <= q < k ==> #[trigger] lists(p@, ts[q], i as int),
        decreases tokens@.len() - k,
    {
        assert(ts[k as int] == tokens@[k as int]@);
        let found = match token_list(p, tokens[k].as_str()) {
            Some(l) => contains_u32(l, i),
            None => false,
        };
        if !found {
            assert(!lists(p@, ts[k as int], i as int));
            return false;
        }
        k += 1;
    }
    true
}

impl GenealogyIndex {
    /// The people whose names hold every token of `query`, in record order,
    /// at most `limit` of them. Record positions in the name index are
    /// `u32`, so the people fit in one.
    pub fn search_people_by_name(&self, query: &str, limit: usize) -> (r: Vec<&Person>)
        requires
            self.people@.len() <= u32::MAX,
        ensures
            r@.map_values(|p: &Person| *p) == name_search(*self, query@, limit as nat),
    {
        let tokens = Self::tokenize_query(query);
        let ghost ts = spec_tokens(query@);
        let ghost p = self.name_index.postings@;
        let n = self.people.len();
        let mut out: Vec<&Person> = Vec::new();
        let mut i: usize = 0;
        proof {
            lemma_hits_bound(p, ts, n as int);
        }
        while i < n && out.len() < limit
            invariant
                i <= n,
                n == self.people@.len(),
                n <= u32::MAX,
                p == self.name_index.postings@,
                ts == spec_tokens(query@),
                tokens@.map_values(|t: String| t@) == ts,
                out@.len() <= limit || out@.len() == 0,
                out@.map_values(|q: &Person| *q) == hits_below(p, ts, i as int).map_values(|j: int| self.people@[j]),
                out@.len() == hits_below(p, ts, i as int).len(),
            decreases n - i,
        {
            let ghost before = out@;
            let hit = name_hit_of(&self.name_index.postings, &tokens, i as u32);
            assert(hits_below(p, ts, i as int + 1) == hits_below(p, ts, i as int)
                + if name_hit(p, ts, i as int) { seq![i as int] } else { seq![] });
            if hit {
                out.push(&self.people[i]);
                assert(out@.map_values(|q: &Person| *q) =~= before.map_values(|q: &Person| *q).push(self.people@[i as int]));
                assert(hits_below(p, ts, i as int + 1).map_values(|j: int| self.people@[j])
                    =~= hits_below(p, ts, i as int).map_values(|j: int| self.people@[j]).push(self.people@[i as int]));
            } else {
                assert(hits_below(p, ts, i as int + 1) =~= hits_below(p, ts, i as int));
            }
            i += 1;
        }
        proof {
            let hs = hits_below(p, ts, n as int);
            lemma_hits_prefix(p, ts, i as int, n as int);
            let a = hits_below(p, ts, i as int);
            if i < n {
                assert(a.len() >= limit);
                assert(hs.take(limit as int) =~= a.take(limit as int));
                if a.len() > limit {
                    assert(out@.len() == 0);
                }
                assert(a.take(limit as int) =~= a);
            } else {
                assert(a =~= hs);
            }
        }
        out
    }

    fn tokenize_query(query: &str) -> (r: Vec<String>)
        ensures
            r@.map_values(|t: String| t@) == spec_tokens(query@),
    {
        SearchIndex::tokenize(query)
    }
}


/// The position a raw id table gives an id: that of its last entry, as a
/// map filled in record order keeps it.
pub open spec fn last_entry(t: Seq<(u64, usize)>, id: u64) -> Option<usize>
    decreases t.len(),
{
    if t.len() == 0 {
        None
    } else if t.last().0 == id {
        Some(t.last().1)
    } else {
        last_entry(t.drop_last(), id)
    }
}

pub open spec fn person_table(t: Seq<(PersonId, usize)>) -> Seq<(u64, usize)> {
    t.map_values(|e: (PersonId, usize)| (e.0.0, e.1))
}

pub open spec fn event_table(t: Seq<(EventId, usize)>) -> Seq<(u64, usize)> {
    t.map_values(|e: (EventId, usize)| (e.0.0, e.1))
}

pub open spec fn note_table(t: Seq<(NoteId, usize)>) -> Seq<(u64, usize)> {
    t.map_values(|e: (NoteId, usize)| (e.0.0, e.1))
}

/// The record a table entry points to, when it is within the records.
pub open spec fn entry_record<T>(records: Seq<T>, e: Option<usize>) -> Option<T> {
    match e {
        Some(i) => if (i as int) < records.len() { Some(records[i as int]) } else { None },
        None => None,
    }
}

fn raw_last_entry(t: &Vec<(u64, usize)>, id: u64) -> (r: Option<usize>)
    ensures
        r == last_entry(t@, id),
{
    let mut k: usize = t.len();
    assert(t@.take(t@.len() as int) =~= t@);
    while k > 0
        invariant
            k <= t@.len(),
            last_entry(t@, id) == last_entry(t@.take(k as int), id),
        decreases k,
    {
        assert(t@.take(k as int).drop_last() =~= t@.take(k - 1));
        assert(t@.take(k as int).last() == t@[k - 1]);
        if t[k - 1].0 == id {
            return Some(t[k - 1].1);
        }
        k -= 1;
    }
    assert(t@.take(0) =~= seq![]);
    None
}

fn person_entry(t: &Vec<(PersonId, usize)>, id: PersonId) -> (r: Option<usize>)
    ensures
        r == last_entry(person_table(t@), id.0),
{
    let mut raw: Vec<(u64, usize)> = Vec::new();
    let mut i: usize = 0;
    while i < t.len()
        invariant
            i <= t@.len(),
            raw@ == person_table(t@.take(i as int)),
        decreases t@.len() - i,
    {
        raw.push((t[i].0.0, t[i].1));
        assert(raw@ =~= person_table(t@.take(i as int + 1)));
        i += 1;
    }
    assert(t@.take(t@.len() as int) =~= t@);
    raw_last_entry(&raw, id.0)
}

fn event_entry(t: &Vec<(EventId, usize)>, id: EventId) -> (r: Option<usize>)
    ensures
        r == last_entry(event_table(t@), id.0),
{
    let mut raw: Vec<(u64, usize)> = Vec::new();
    let mut i: usize = 0;
    while i < t.len()
        invariant
            i <= t@.len(),
            raw@ == event_table(t@.take(i as int)),
        decreases t@.len() - i,
    {
        raw.push((t[i].0.0, t[i].1));
        assert(raw@ =~= event_table(t@.take(i as int + 1)));
        i += 1;
    }
    assert(t@.take(t@.len() as int) =~= t@);
    raw_last_entry(&raw, id.0)
}

fn note_entry(t: &Vec<(NoteId, usize)>, id: NoteId) -> (r: Option<usize>)
    ensures
        r == last_entry(note_table(t@), id.0),
{
    let mut raw: Vec<(u64, usize)> = Vec::new();
    let mut i: usize = 0;
    while i < t.len()
        invariant
            i <= t@.len(),
            raw@ == note_table(t@.take(i as int)),
        decreases t@.len() - i,
    {
        raw.push((t[i].0.0, t[i].1));
        assert(raw@ =~= note_table(t@.take(i as int + 1)));
        i += 1;
    }
    assert(t@.take(t@.len() as int) =~= t@);
    raw_last_entry(&raw, id.0)
}

/// The notes that a person's note ids find, among the first `limit` ids.
pub open spec fn person_notes(ix: GenealogyIndex, ids: Seq<NoteId>) -> Seq<Note>
    decreases ids.len(),
{
    if ids.len() == 0 {
        seq![]
    } else {
        person_notes(ix, ids.drop_last()) + match entry_record(ix.notes@, last_entry(note_table(ix.note_by_id@), ids.last().0)) {
            Some(n) => seq![n],
            None => seq![],
        }
    }
}

impl GenealogyIndex {
    /// The person with this id.
    pub fn person(&self, id: PersonId) -> (r: Option<&Person>)
        ensures
            match entry_record(self.people@, last_entry(person_table(self.person_by_id@), id.0)) {
                Some(p) => r matches Some(q) && *q == p,
                None => r is None,
            },
    {
        match person_entry(&self.person_by_id, id) {
            Some(i) => if i < self.people.len() { Some(&self.people[i]) } else { None },
            None => None,
        }
    }

    /// The event with this id.
    pub fn event(&self, id: EventId) -> (r: Option<&GenealogyEvent>)
        ensures
            match entry_record(self.events@, last_entry(event_table(self.event_by_id@), id.0)) {
                Some(e) => r matches Some(q) && *q == e,
                None => r is None,
            },
    {
        match event_entry(&self.event_by_id, id) {
            Some(i) => if i < self.events.len() { Some(&self.events[i]) } else { None },
            None => None,
        }
    }

    /// The note with this id.
    pub fn note(&self, id: NoteId) -> (r: Option<&Note>)
        ensures
            match entry_record(self.notes@, last_entry(note_table(self.note_by_id@), id.0)) {
                Some(n) => r matches Some(q) && *q == n,
                None => r is None,
            },
    {
        match note_entry(&self.note_by_id, id) {
            Some(i) => if i < self.notes.len() { Some(&self.notes[i]) } else { None },
            None => None,
        }
    }

    /// The notes of a person, from the first `limit` of its note ids.
    pub fn notes_for_person(&self, person: &Person, limit: usize) -> (r: Vec<&Note>)
        ensures
            r@.map_values(|n: &Note| *n) == person_notes(*self,
                if person.notes@.len() <= limit { person.notes@ } else { person.notes@.take(limit as int) }),
    {
        let n = if person.notes.len() < limit { person.notes.len() } else { limit };
        let ghost ids = if person.notes@.len() <= limit { person.notes@ } else { person.notes@.take(limit as int) };
        assert(ids =~= person.notes@.take(n as int));
        let mut out: Vec<&Note> = Vec::new();
        let mut i: usize = 0;
        assert(out@.map_values(|q: &Note| *q) =~= person_notes(*self, ids.take(0)));
        while i < n
            invariant
                i <= n,
                n <= person.notes@.len(),
                ids == person.notes@.take(n as int),
                out@.map_values(|q: &Note| *q) == person_notes(*self, ids.take(i as int)),
            decreases n - i,
        {
            assert(ids.take(i as int + 1).drop_last() =~= ids.take(i as int));
            assert(ids.take(i as int + 1).last() == person.notes@[i as int]);
            let ghost before = out@;
            match self.note(person.notes[i]) {
                Some(note) => {
                    out.push(note);
                    assert(out@.map_values(|q: &Note| *q) =~= before.map_values(|q: &Note| *q).push(*note));
                },
                None => {
                    assert(out@.map_values(|q: &Note| *q) =~= before.map_values(|q: &Note| *q));
                },
            }
            i += 1;
        }
        assert(ids.take(n as int) =~= ids);
        out
    }
}

} // verus!
