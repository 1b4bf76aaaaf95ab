//! The places of an event: references to place records, and inline
//! locations, which get a generated place id and the event's default role.
use vstd::prelude::*;
use crate::local_authoring::data::{
    entries_are, get_entry, is_flat_object, lemma_entries_push, lookup, opt_str, push_text_entry,
    text_field, Flat, JsonValue, LocalMarkdownRecord,
};
use crate::local_authoring::event_profiles::{local_event_type, record_default_location_role};
use crate::local_authoring::refs::{normalize_place_id, spec_contextual_id};
use crate::local_authoring::summary::{opt_string, opt_text};
use crate::text::{
    decimal, is_ascii_alphanumeric, is_blank, is_blank_str, push_char, str_to_lowercase,
    unicode_lowercase, u64_to_decimal,
};

verus! {

/// A place of an event. Coordinates keep the decimal text they were
/// written in.
#[derive(Debug, PartialEq, Eq)]
pub struct LocalLocationRef {
    pub entity: Option<String>,
    pub role: Option<String>,
    pub label: Option<String>,
    pub name: Option<String>,
    pub source_text: Option<String>,
    pub latitude: Option<String>,
    pub longitude: Option<String>,
    pub generated: Option<bool>,
}

/// A place of an event as plain values.
pub struct LocationView {
    pub entity: Option<Seq<char>>,
    pub role: Option<Seq<char>>,
    pub label: Option<Seq<char>>,
    pub name: Option<Seq<char>>,
    pub source_text: Option<Seq<char>>,
    pub latitude: Option<Seq<char>>,
    pub longitude: Option<Seq<char>>,
    pub generated: Option<bool>,
}

impl View for LocalLocationRef {
    type V = LocationView;

    open spec fn view(&self) -> LocationView {
        LocationView {
            entity: opt_string(self.entity),
            role: opt_string(self.role),
            label: opt_string(self.label),
            name: opt_string(self.name),
            source_text: opt_string(self.source_text),
            latitude: opt_string(self.latitude),
            longitude: opt_string(self.longitude),
            generated: self.generated,
        }
    }
}

fn clone_text(o: &Option<String>) -> (r: Option<String>)
    ensures
        opt_string(r) == opt_string(*o),
{
    match o {
        Some(t) => Some(t.clone()),
        None => None,
    }
}

impl Clone for LocalLocationRef {
    fn clone(&self) -> (r: Self)
        ensures
            r@ == self@,
    {
        LocalLocationRef {
            entity: clone_text(&self.entity),
            role: clone_text(&self.role),
            label: clone_text(&self.label),
            name: clone_text(&self.name),
            source_text: clone_text(&self.source_text),
            latitude: clone_text(&self.latitude),
            longitude: clone_text(&self.longitude),
            generated: self.generated,
        }
    }
}

pub open spec fn location_views(ls: Seq<LocalLocationRef>) -> Seq<LocationView> {
    ls.map_values(|l: LocalLocationRef| l@)
}

/// The text of a number value.
pub open spec fn number_text(o: Option<JsonValue>) -> Option<Seq<char>> {
    match o {
        Some(JsonValue::Number(t)) => Some(t@),
        _ => None,
    }
}

pub open spec fn no_location() -> LocationView {
    LocationView {
        entity: None,
        role: None,
        label: None,
        name: None,
        source_text: None,
        latitude: None,
        longitude: None,
        generated: None,
    }
}

/// A reference to a place record, in a role.
pub open spec fn place_view(entity: Seq<char>, role: Option<Seq<char>>) -> LocationView {
    LocationView { entity: Some(spec_contextual_id(entity, "place"@)), role, ..no_location() }
}

/// An inline location table: its label, name, source text and coordinates.
pub open spec fn inline_object_view(es: Seq<(String, JsonValue)>) -> LocationView {
    LocationView {
        entity: None,
        role: None,
        label: opt_str(lookup(es, "label"@)),
        name: opt_str(lookup(es, "name"@)),
        source_text: opt_str(lookup(es, "source_text"@)),
        latitude: number_text(lookup(es, "latitude"@)),
        longitude: number_text(lookup(es, "longitude"@)),
        generated: Some(true),
    }
}

/// An entry of `places`: a place id, a table naming a place (with its own
/// role or the event's), or an inline location table.
pub open spec fn place_entry_view(v: JsonValue, role: Option<Seq<char>>) -> Option<LocationView> {
    match v {
        JsonValue::Str(e) => if is_blank(e@) {
            None
        } else {
            Some(place_view(e@, role))
        },
        JsonValue::Object(es) => match opt_str(lookup(es@, "entity"@)) {
            Some(ent) => Some(place_view(ent, match opt_str(lookup(es@, "role"@)) {
                Some(r) => Some(r),
                None => role,
            })),
            None => Some(inline_object_view(es@)),
        },
        _ => None,
    }
}

/// An inline location: a non-blank label, or an inline location table.
pub open spec fn inline_value_view(v: JsonValue) -> Option<LocationView> {
    match v {
        JsonValue::Str(l) => if is_blank(l@) {
            None
        } else {
            Some(LocationView { label: Some(l@), generated: Some(true), ..no_location() })
        },
        JsonValue::Object(es) => Some(inline_object_view(es@)),
        _ => None,
    }
}

/// The places `f` gives for the items, in order, skipping those it gives none for.
pub open spec fn filter_views(items: Seq<JsonValue>, f: spec_fn(JsonValue) -> Option<LocationView>) -> Seq<LocationView>
    decreases items.len(),
{
    if items.len() == 0 {
        seq![]
    } else {
        let rest = filter_views(items.drop_last(), f);
        match f(items.last()) {
            Some(l) => rest.push(l),
            None => rest,
        }
    }
}

pub open spec fn opt_seq(o: Option<LocationView>) -> Seq<LocationView> {
    match o {
        Some(l) => seq![l],
        None => seq![],
    }
}

/// The places of a record as written: its `places`, then `location`, then
/// `locations` (a list, or a single inline location).
pub open spec fn raw_locations(r: LocalMarkdownRecord) -> Seq<LocationView> {
    let role = record_default_location_role(r);
    let places = match lookup(r.attributes@, "places"@) {
        Some(JsonValue::Array(items)) => filter_views(items@, |v: JsonValue| place_entry_view(v, role)),
        _ => seq![],
    };
    let location = match lookup(r.attributes@, "location"@) {
        Some(v) => opt_seq(inline_value_view(v)),
        None => seq![],
    };
    let locations = match lookup(r.attributes@, "locations"@) {
        Some(JsonValue::Array(items)) => filter_views(items@, |v: JsonValue| inline_value_view(v)),
        Some(v) => opt_seq(inline_value_view(v)),
        None => seq![],
    };
    places + location + locations
}

/// How many of the places are generated inline locations.
pub open spec fn generated_count(ls: Seq<LocationView>) -> nat
    decreases ls.len(),
{
    if ls.len() == 0 {
        0
    } else {
        generated_count(ls.drop_last()) + if ls.last().generated == Some(true) { 1nat } else { 0nat }
    }
}

/// Text kept of an id in a generated place id: lower case ASCII letters and
/// digits, every other run of characters one dash, no dash at either end.
pub open spec fn collapse_to_dashes(s: Seq<char>) -> Seq<char>
    decreases s.len(),
{
    if s.len() == 0 {
        seq![]
    } else {
        let o = collapse_to_dashes(s.drop_last());
        let c = s.last();
        if is_ascii_alphanumeric(c) {
            o.push(c)
        } else if o.len() > 0 && o.last() == '-' {
            o
        } else {
            o.push('-')
        }
    }
}

pub open spec fn strip_leading_dashes(s: Seq<char>) -> Seq<char>
    decreases s.len(),
{
    if s.len() > 0 && s[0] == '-' {
        strip_leading_dashes(s.drop_first())
    } else {
        s
    }
}

pub open spec fn strip_trailing_dashes(s: Seq<char>) -> Seq<char>
    decreases s.len(),
{
    if s.len() > 0 && s.last() == '-' {
        strip_trailing_dashes(s.drop_last())
    } else {
        s
    }
}

pub open spec fn id_fragment(id: Seq<char>) -> Seq<char> {
    strip_trailing_dashes(strip_leading_dashes(collapse_to_dashes(unicode_lowercase(id))))
}

/// The place id of the `k`-th of `total` generated locations of an event.
pub open spec fn generated_entity(fragment: Seq<char>, k: nat, total: nat) -> Seq<char> {
    "place:inline:"@ + fragment + "-"@ + if total > 1 { "location-"@ + decimal(k) } else { "location"@ }
}

/// A generated location gets a place id and the event's default role when
/// it has none; other places are kept as they are.
pub open spec fn assigned(l: LocationView, k: nat, total: nat, fragment: Seq<char>, role: Option<Seq<char>>) -> LocationView {
    if l.generated == Some(true) {
        LocationView {
            entity: match l.entity {
                Some(e) => Some(e),
                None => Some(generated_entity(fragment, k, total)),
            },
            role: match l.role {
                Some(x) => Some(x),
                None => role,
            },
            ..l
        }
    } else {
        l
    }
}

/// The places of an event record, generated locations named.
pub open spec fn spec_location_refs(r: LocalMarkdownRecord) -> Seq<LocationView> {
    let raw = raw_locations(r);
    Seq::new(raw.len(), |i: int| assigned(
        raw[i],
        generated_count(raw.take(i + 1)),
        generated_count(raw),
        id_fragment(r.id@),
        record_default_location_role(r),
    ))
}

fn empty_ref() -> (l: LocalLocationRef)
    ensures
        l@ == no_location(),
{
    LocalLocationRef {
        entity: None,
        role: None,
        label: None,
        name: None,
        source_text: None,
        latitude: None,
        longitude: None,
        generated: None,
    }
}

fn text_of(o: Option<&JsonValue>) -> (r: Option<String>)
    ensures
        opt_string(r) == opt_str(crate::local_authoring::data::deref_opt(o)),
{
    match o {
        Some(v) => match v.as_str() {
            Some(t) => Some(t.to_owned()),
            None => None,
        },
        None => None,
    }
}

fn number_of(o: Option<&JsonValue>) -> (r: Option<String>)
    ensures
        opt_string(r) == number_text(crate::local_authoring::data::deref_opt(o)),
{
    match o {
        Some(JsonValue::Number(t)) => Some(t.clone()),
        _ => None,
    }
}

fn inline_object_ref(es: &Vec<(String, JsonValue)>) -> (l: LocalLocationRef)
    ensures
        l@ == inline_object_view(es@),
{
    LocalLocationRef {
        entity: None,
        role: None,
        label: text_of(get_entry(es, "label")),
        name: text_of(get_entry(es, "name")),
        source_text: text_of(get_entry(es, "source_text")),
        latitude: number_of(get_entry(es, "latitude")),
        longitude: number_of(get_entry(es, "longitude")),
        generated: Some(true),
    }
}

fn copy_role(role: Option<&str>) -> (r: Option<String>)
    ensures
        opt_string(r) == opt_text(role),
{
    match role {
        Some(x) => Some(x.to_owned()),
        None => None,
    }
}

fn place_entry_ref(v: &JsonValue, role: Option<&str>) -> (r: Option<LocalLocationRef>)
    ensures
        match r {
            Some(l) => place_entry_view(*v, opt_text(role)) == Some(l@),
            None => place_entry_view(*v, opt_text(role)) is None,
        },
{
    match v {
        JsonValue::Str(e) => {
            if is_blank_str(e.as_str()) {
                None
            } else {
                let mut l = empty_ref();
                l.entity = Some(normalize_place_id(e.as_str()));
                l.role = copy_role(role);
                Some(l)
            }
        },
        JsonValue::Object(es) => {
            let ent = match get_entry(es, "entity") {
                Some(x) => x.as_str(),
                None => None,
            };
            match ent {
                Some(ent) => {
                    let mut l = empty_ref();
                    l.entity = Some(normalize_place_id(ent));
                    l.role = match text_of(get_entry(es, "role")) {
                        Some(x) => Some(x),
                        None => copy_role(role),
                    };
                    Some(l)
                },
                None => Some(inline_object_ref(es)),
            }
        },
        _ => None,
    }
}

fn inline_value_ref(v: &JsonValue) -> (r: Option<LocalLocationRef>)
    ensures
        match r {
            Some(l) => inline_value_view(*v) == Some(l@),
            None => inline_value_view(*v) is None,
        },
{
    match v {
        JsonValue::Str(t) => {
            if is_blank_str(t.as_str()) {
                None
            } else {
                let mut l = empty_ref();
                l.label = Some(t.clone());
                l.generated = Some(true);
                Some(l)
            }
        },
        JsonValue::Object(es) => Some(inline_object_ref(es)),
        _ => None,
    }
}

proof fn lemma_views_push(ls: Seq<LocalLocationRef>, l: LocalLocationRef)
    ensures
        location_views(ls.push(l)) == location_views(ls).push(l@),
{
    assert(location_views(ls.push(l)) =~= location_views(ls).push(l@));
}

/// Appends the places of the `places` entries.
fn push_place_entries(out: &mut Vec<LocalLocationRef>, items: &Vec<JsonValue>, role: Option<&str>)
    ensures
        location_views(final(out)@) == location_views(old(out)@)
            + filter_views(items@, |v: JsonValue| place_entry_view(v, opt_text(role))),
{
    let ghost f = |v: JsonValue| place_entry_view(v, opt_text(role));
    let ghost start = location_views(out@);
    let mut i: usize = 0;
    assert(items@.take(0) =~= seq![]);
    assert(start + seq![] =~= start);
    while i < items.len()
        invariant
            i <= items@.len(),
            f == (|v: JsonValue| place_entry_view(v, opt_text(role))),
            location_views(out@) == start + filter_views(items@.take(i as int), f),
        decreases items@.len() - i,
    {
        assert(items@.take(i + 1).drop_last() =~= items@.take(i as int));
        assert(items@.take(i + 1).last() == items@[i as int]);
        match place_entry_ref(&items[i], role) {
            Some(l) => {
                proof {
                    lemma_views_push(out@, l);
                }
                out.push(l);
                assert(start + filter_views(items@.take(i + 1), f) =~= (start + filter_views(items@.take(i as int), f)).push(l@));
            },
            None => {},
        }
        i = i + 1;
    }
    assert(items@.take(i as int) =~= items@);
}

/// Appends the inline locations of a list.
fn push_inline_entries(out: &mut Vec<LocalLocationRef>, items: &Vec<JsonValue>)
    ensures
        location_views(final(out)@) == location_views(old(out)@)
            + filter_views(items@, |v: JsonValue| inline_value_view(v)),
{
    let ghost f = |v: JsonValue| inline_value_view(v);
    let ghost start = location_views(out@);
    let mut i: usize = 0;
    assert(items@.take(0) =~= seq![]);
    assert(start + seq![] =~= start);
    while i < items.len()
        invariant
            i <= items@.len(),
            f == (|v: JsonValue| inline_value_view(v)),
            location_views(out@) == start + filter_views(items@.take(i as int), f),
        decreases items@.len() - i,
    {
        assert(items@.take(i + 1).drop_last() =~= items@.take(i as int));
        assert(items@.take(i + 1).last() == items@[i as int]);
        match inline_value_ref(&items[i]) {
            Some(l) => {
                proof {
                    lemma_views_push(out@, l);
                }
                out.push(l);
                assert(start + filter_views(items@.take(i + 1), f) =~= (start + filter_views(items@.take(i as int), f)).push(l@));
            },
            None => {},
        }
        i = i + 1;
    }
    assert(items@.take(i as int) =~= items@);
}

/// Appends a single inline location, when there is one.
fn push_inline_value(out: &mut Vec<LocalLocationRef>, v: &JsonValue)
    ensures
        location_views(final(out)@) == location_views(old(out)@) + opt_seq(inline_value_view(*v)),
{
    match inline_value_ref(v) {
        Some(l) => {
            proof {
                lemma_views_push(out@, l);
            }
            out.push(l);
            assert(location_views(old(out)@).push(l@) =~= location_views(old(out)@) + seq![l@]);
        },
        None => {
            assert(location_views(out@) =~= location_views(out@) + seq![]);
        },
    }
}

fn raw_location_refs(record: &LocalMarkdownRecord, role: Option<&str>) -> (out: Vec<LocalLocationRef>)
    requires
        opt_text(role) == record_default_location_role(*record),
    ensures
        location_views(out@) == raw_locations(*record),
{
    let mut out: Vec<LocalLocationRef> = Vec::new();
    assert(location_views(out@) =~= seq![]);
    match record.attr("places") {
        Some(JsonValue::Array(items)) => push_place_entries(&mut out, items, role),
        _ => {},
    }
    let ghost after_places = location_views(out@);
    match record.attr("location") {
        Some(v) => push_inline_value(&mut out, v),
        None => {
            assert(location_views(out@) =~= location_views(out@) + seq![]);
        },
    }
    let ghost after_location = location_views(out@);
    match record.attr("locations") {
        Some(JsonValue::Array(items)) => push_inline_entries(&mut out, items),
        Some(v) => push_inline_value(&mut out, v),
        None => {
            assert(location_views(out@) =~= location_views(out@) + seq![]);
        },
    }
    proof {
        let raw = raw_locations(*record);
        assert(location_views(out@) =~= raw);
    }
    out
}

/// The fragment of an id used in generated place ids.
pub fn safe_generated_id_fragment(value: &str) -> (r: String)
    ensures
        r@ == id_fragment(value@),
{
    let lower = str_to_lowercase(value);
    let n = lower.unicode_len();
    let mut out = String::new();
    let mut i: usize = 0;
    while i < n
        invariant
            n == lower@.len(),
            lower@ == unicode_lowercase(value@),
            i <= n,
            out@ == collapse_to_dashes(lower@.take(i as int)),
        decreases n - i,
    {
        assert(lower@.take(i + 1).drop_last() =~= lower@.take(i as int));
        let c = lower.get_char(i);
        if ('0' <= c && c <= '9') || ('a' <= c && c <= 'z') || ('A' <= c && c <= 'Z') {
            push_char(&mut out, c);
        } else {
            let m = out.unicode_len();
            if !(m > 0 && out.get_char(m - 1) == '-') {
                push_char(&mut out, '-');
            }
        }
        i = i + 1;
    }
    assert(lower@.take(i as int) =~= lower@);
    let ghost c = out@;
    let m = out.unicode_len();
    let mut a: usize = 0;
    assert(c.skip(0) =~= c);
    while a < m && out.get_char(a) == '-'
        invariant
            m == c.len(),
            out@ == c,
            a <= m,
            strip_leading_dashes(c.skip(a as int)) == strip_leading_dashes(c),
        decreases m - a,
    {
        assert(c.skip(a as int).drop_first() =~= c.skip(a + 1));
        a = a + 1;
    }
    let ghost lead = c.skip(a as int);
    assert(strip_leading_dashes(lead) == lead);
    let mut b: usize = m;
    while b > a && out.get_char(b - 1) == '-'
        invariant
            m == c.len(),
            out@ == c,
            a <= b <= m,
            lead == c.skip(a as int),
            strip_trailing_dashes(c.subrange(a as int, b as int)) == strip_trailing_dashes(lead),
        decreases b - a,
    {
        assert(c.subrange(a as int, b as int).drop_last() =~= c.subrange(a as int, b - 1));
        b = b - 1;
    }
    assert(c.subrange(a as int, m as int) =~= lead);
    let ghost kept = c.subrange(a as int, b as int);
    assert(strip_trailing_dashes(kept) == kept);
    let mut r = String::new();
    let mut k: usize = a;
    while k < b
        invariant
            out@ == c,
            a <= k <= b <= m,
            m == c.len(),
            r@ == c.subrange(a as int, k as int),
        decreases b - k,
    {
        assert(c.subrange(a as int, k + 1) =~= c.subrange(a as int, k as int).push(c[k as int]));
        push_char(&mut r, out.get_char(k));
        k = k + 1;
    }
    r
}

/// The places of an event record: references to place records and inline
/// locations; each inline location without a place id gets a generated one
/// (`place:inline:<event>-location`, numbered when there are several), and
/// the event's default role when it has none.
pub fn event_location_refs(record: &LocalMarkdownRecord) -> (ls: Vec<LocalLocationRef>)
    ensures
        location_views(ls@) == spec_location_refs(*record),
{
    let role: Option<&'static str> = match local_event_type(record) {
        Some(t) => t.default_location_role(),
        None => None,
    };
    assert(opt_text(role) == record_default_location_role(*record));
    let mut raw = raw_location_refs(record, role);
    let ghost rawv = location_views(raw@);
    let n = raw.len();
    let mut total: u64 = 0;
    let mut i: usize = 0;
    assert(rawv.take(0) =~= seq![]);
    while i < n
        invariant
            n == raw@.len(),
            rawv == location_views(raw@),
            i <= n,
            total == generated_count(rawv.take(i as int)),
            total <= i,
        decreases n - i,
    {
        assert(rawv.take(i + 1).drop_last() =~= rawv.take(i as int));
        if raw[i].generated == Some(true) {
            total = total + 1;
        }
        i = i + 1;
    }
    assert(rawv.take(n as int) =~= rawv);
    let fragment = safe_generated_id_fragment(record.id.as_str());
    let mut out: Vec<LocalLocationRef> = Vec::new();
    let mut k: u64 = 0;
    let mut j: usize = 0;
    let ghost spec = spec_location_refs(*record);
    assert(rawv == raw_locations(*record));
    while j < n
        invariant
            n == raw@.len(),
            rawv == location_views(raw@),
            rawv == raw_locations(*record),
            spec == spec_location_refs(*record),
            j <= n,
            total == generated_count(rawv),
            k == generated_count(rawv.take(j as int)),
            k <= j,
            fragment@ == id_fragment(record.id@),
            opt_text(role) == record_default_location_role(*record),
            location_views(out@) == spec.take(j as int),
        decreases n - j,
    {
        assert(rawv.take(j + 1).drop_last() =~= rawv.take(j as int));
        let mut l = raw[j].clone();
        assert(l@ == rawv[j as int]);
        let ghost kk = generated_count(rawv.take(j + 1));
        if l.generated == Some(true) {
            k = k + 1;
            assert(k == kk);
            if l.entity.is_none() {
                let mut e = "place:inline:".to_owned();
                e.append(fragment.as_str());
                e.append("-");
                if total > 1 {
                    let mut tail = "location-".to_owned();
                    tail.append(u64_to_decimal(k).as_str());
                    e.append(tail.as_str());
                } else {
                    e.append("location");
                }
                assert(e@ =~= generated_entity(fragment@, kk, total as nat));
                l.entity = Some(e);
            }
            if l.role.is_none() {
                l.role = copy_role(role);
            }
        }
        assert(l@ == spec[j as int]);
        proof {
            lemma_views_push(out@, l);
        }
        out.push(l);
        assert(spec.take(j + 1) =~= spec.take(j as int).push(spec[j as int]));
        j = j + 1;
    }
    assert(spec.take(n as int) =~= spec);
    out
}


/// The entries of a place as JSON: those it has, in a fixed order.
pub open spec fn location_fields(l: LocationView) -> Seq<(Seq<char>, Flat)> {
    text_field("entity"@, l.entity)
        + text_field("role"@, l.role)
        + text_field("label"@, l.label)
        + text_field("name"@, l.name)
        + text_field("source_text"@, l.source_text)
        + match l.latitude {
            Some(t) => seq![("latitude"@, Flat::Num(t))],
            None => seq![],
        }
        + match l.longitude {
            Some(t) => seq![("longitude"@, Flat::Num(t))],
            None => seq![],
        }
        + match l.generated {
            Some(b) => seq![("generated"@, Flat::Bool(b))],
            None => seq![],
        }
}

fn push_opt_text(es: &mut Vec<(String, JsonValue)>, key: &str, o: &Option<String>, Ghost(fields): Ghost<Seq<(Seq<char>, Flat)>>)
    requires
        entries_are(old(es)@, fields),
    ensures
        entries_are(final(es)@, fields + text_field(key@, opt_string(*o))),
{
    match o {
        Some(t) => {
            let ghost before = es@;
            push_text_entry(es, key, t.clone());
            proof {
                assert(es@ == before.push(es@.last()));
                lemma_entries_push(before, fields, es@.last(), (key@, Flat::Text(t@)));
                assert(fields + text_field(key@, opt_string(*o)) =~= fields.push((key@, Flat::Text(t@))));
            }
        },
        None => {
            assert(fields + text_field(key@, opt_string(*o)) =~= fields);
        },
    }
}

fn push_opt_number(es: &mut Vec<(String, JsonValue)>, key: &str, o: &Option<String>, Ghost(fields): Ghost<Seq<(Seq<char>, Flat)>>)
    requires
        entries_are(old(es)@, fields),
    ensures
        entries_are(final(es)@, fields + match opt_string(*o) {
            Some(t) => seq![(key@, Flat::Num(t))],
            None => seq![],
        }),
{
    match o {
        Some(t) => {
            let ghost before = es@;
            let e = (key.to_owned(), JsonValue::Number(t.clone()));
            proof {
                lemma_entries_push(before, fields, e, (key@, Flat::Num(t@)));
            }
            es.push(e);
            assert(fields + seq![(key@, Flat::Num(t@))] =~= fields.push((key@, Flat::Num(t@))));
        },
        None => {
            assert(fields + seq![] =~= fields);
        },
    }
}

/// A place as a JSON object holding the fields it has.
pub fn location_json(l: &LocalLocationRef) -> (v: JsonValue)
    ensures
        is_flat_object(v, location_fields(l@)),
{
    let mut es: Vec<(String, JsonValue)> = Vec::new();
    let ghost f0: Seq<(Seq<char>, Flat)> = seq![];
    assert(entries_are(es@, f0));
    push_opt_text(&mut es, "entity", &l.entity, Ghost(f0));
    let ghost f1 = f0 + text_field("entity"@, l@.entity);
    push_opt_text(&mut es, "role", &l.role, Ghost(f1));
    let ghost f2 = f1 + text_field("role"@, l@.role);
    push_opt_text(&mut es, "label", &l.label, Ghost(f2));
    let ghost f3 = f2 + text_field("label"@, l@.label);
    push_opt_text(&mut es, "name", &l.name, Ghost(f3));
    let ghost f4 = f3 + text_field("name"@, l@.name);
    push_opt_text(&mut es, "source_text", &l.source_text, Ghost(f4));
    let ghost f5 = f4 + text_field("source_text"@, l@.source_text);
    push_opt_number(&mut es, "latitude", &l.latitude, Ghost(f5));
    let ghost f6 = f5 + match l@.latitude {
        Some(t) => seq![("latitude"@, Flat::Num(t))],
        None => seq![],
    };
    push_opt_number(&mut es, "longitude", &l.longitude, Ghost(f6));
    let ghost f7 = f6 + match l@.longitude {
        Some(t) => seq![("longitude"@, Flat::Num(t))],
        None => seq![],
    };
    match l.generated {
        Some(b) => {
            let ghost before = es@;
            let e = ("generated".to_owned(), JsonValue::Bool(b));
            proof {
                lemma_entries_push(before, f7, e, ("generated"@, Flat::Bool(b)));
            }
            es.push(e);
            assert(f7 + seq![("generated"@, Flat::Bool(b))] =~= f7.push(("generated"@, Flat::Bool(b))));
        },
        None => {
            assert(f7 + seq![] =~= f7);
        },
    }
    assert(location_fields(l@) =~= f7 + match l@.generated {
        Some(b) => seq![("generated"@, Flat::Bool(b))],
        None => seq![],
    });
    JsonValue::Object(es)
}

} // verus!
