//! Checking the local data of a world: ids are unique and well formed, and
//! every reference points at a record or document that exists.
use vstd::prelude::*;
use crate::local_authoring::data::{
    deref_opt, lookup, opt_str, spec_get, str_field, JsonValue, LocalDataBundle, LocalMarkdownRecord,
    LocalTomlDocument,
};
use crate::local_authoring::error::{is_validation, LocalAuthoringError};
use crate::local_authoring::event_profiles::{
    event_participant_refs, event_type_error, ref_views, spec_participant_refs,
    validate_event_type_value, RefView,
};
use crate::local_authoring::records::{spec_target_base_id, target_base_id};
use crate::local_authoring::refs::{
    checked, contextual_id_error, find_whitespace, has_whitespace, normalize_person_id,
    normalize_place_id, normalize_source_id, spec_contextual_id, validate_contextual_id,
};
use crate::local_authoring::summary::{attr_text, contains_text, doc_kind, has_identity, opt_string};
use crate::sorted_text::texts;
use crate::text::{is_blank, is_blank_str, starts_with, str_eq};
use crate::timeline_source::has_prefix;

verus! {



/// The first of two possible errors.
pub open spec fn first_err(a: Option<Seq<char>>, b: Option<Seq<char>>) -> Option<Seq<char>> {
    match a {
        Some(m) => Some(m),
        None => b,
    }
}

fn fail(m: String) -> (r: Result<(), LocalAuthoringError>)
    ensures
        checked(r, Some(m@)),
{
    Err(LocalAuthoringError::validation(m))
}

fn msg3(a: &str, b: &str, c: &str) -> (r: String)
    ensures
        r@ == a@ + b@ + c@,
{
    let mut r = a.to_owned();
    r.append(b);
    r.append(c);
    r
}

fn msg5(a: &str, b: &str, c: &str, d: &str, e: &str) -> (r: String)
    ensures
        r@ == a@ + b@ + c@ + d@ + e@,
{
    let mut r = a.to_owned();
    r.append(b);
    r.append(c);
    r.append(d);
    r.append(e);
    r
}

// ---------------------------------------------------------------------------
// Ids.

/// Why an id is not accepted: it is blank or holds whitespace.
pub open spec fn id_error(id: Seq<char>, path: Seq<char>) -> Option<Seq<char>> {
    if is_blank(id) {
        Some(path + " has an empty id"@)
    } else if has_whitespace(id) {
        Some(path + " id `"@ + id + "` contains whitespace"@)
    } else {
        None
    }
}

fn validate_id(id: &str, path: &str) -> (r: Result<(), LocalAuthoringError>)
    ensures
        checked(r, id_error(id@, path@)),
{
    if is_blank_str(id) {
        let mut m = path.to_owned();
        m.append(" has an empty id");
        return fail(m);
    }
    if find_whitespace(id) {
        let mut m = msg3(path, " id `", id);
        m.append("` contains whitespace");
        return fail(m);
    }
    Ok(())
}

/// The step of `record_ids` and `doc_ids` for one id.
pub open spec fn id_step(seen: Seq<Seq<char>>, id: Seq<char>, path: Seq<char>) -> Result<Seq<Seq<char>>, Seq<char>> {
    match id_error(id, path) {
        Some(m) => Err(m),
        None => if seen.contains(id) {
            Err("duplicate id `"@ + id + "`"@)
        } else {
            Ok(seen.push(id))
        },
    }
}

/// The ids of the records, in order, or the first bad or repeated one.
pub open spec fn record_ids(rs: Seq<LocalMarkdownRecord>) -> Result<Seq<Seq<char>>, Seq<char>>
    decreases rs.len(),
{
    if rs.len() == 0 {
        Ok(seq![])
    } else {
        match record_ids(rs.drop_last()) {
            Err(m) => Err(m),
            Ok(seen) => id_step(seen, rs.last().id@, rs.last().path@),
        }
    }
}

/// The ids of the documents that have one, after `seen`, or the first bad
/// or repeated one.
pub open spec fn doc_ids(ds: Seq<LocalTomlDocument>, seen: Seq<Seq<char>>) -> Result<Seq<Seq<char>>, Seq<char>>
    decreases ds.len(),
{
    if ds.len() == 0 {
        Ok(seen)
    } else {
        match doc_ids(ds.drop_last(), seen) {
            Err(m) => Err(m),
            Ok(s) => {
                let d = ds.last();
                match d.id {
                    None => Ok(s),
                    Some(id) => id_step(s, id@, d.path@),
                }
            },
        }
    }
}

/// Every id of a bundle, or the first bad or repeated one.
pub open spec fn bundle_ids(b: LocalDataBundle) -> Result<Seq<Seq<char>>, Seq<char>> {
    match record_ids(b.markdown_records@) {
        Err(m) => Err(m),
        Ok(seen) => doc_ids(b.toml_documents@, seen),
    }
}

fn add_id(ids: &mut Vec<String>, id: &str, path: &str) -> (r: Result<(), LocalAuthoringError>)
    ensures
        match id_step(texts(old(ids)@), id@, path@) {
            Ok(s) => r is Ok && texts(final(ids)@) == s,
            Err(m) => r matches Err(e) && is_validation(e, m),
        },
{
    validate_id(id, path)?;
    if contains_text(ids, id) {
        return fail(msg3("duplicate id `", id, "`"));
    }
    let ghost before = texts(ids@);
    ids.push(id.to_owned());
    assert(texts(ids@) =~= before.push(id@));
    Ok(())
}

fn collect_ids(b: &LocalDataBundle) -> (r: Result<Vec<String>, LocalAuthoringError>)
    ensures
        match bundle_ids(*b) {
            Ok(ids) => r matches Ok(v) && texts(v@) == ids,
            Err(m) => r matches Err(e) && is_validation(e, m),
        },
{
    let rs = &b.markdown_records;
    let mut ids: Vec<String> = Vec::new();
    let mut i: usize = 0;
    assert(texts(ids@) =~= seq![]);
    while i < rs.len()
        invariant
            i <= rs@.len(),
            rs@ == b.markdown_records@,
            record_ids(rs@.take(i as int)) == Ok::<Seq<Seq<char>>, Seq<char>>(texts(ids@)),
        decreases rs@.len() - i,
    {
        let ghost t = rs@.take(i + 1);
        assert(t.drop_last() =~= rs@.take(i as int));
        assert(t.last() == rs@[i as int]);
        let ghost st = id_step(texts(ids@), rs@[i as int].id@, rs@[i as int].path@);
        assert(record_ids(t) == st);
        let step = add_id(&mut ids, rs[i].id.as_str(), rs[i].path.as_str());
        if let Err(e) = step {
            proof {
                assert(st is Err);
                lemma_record_ids_err(rs@, i + 1);
                assert(rs@.take(rs@.len() as int) =~= rs@);
                assert(bundle_ids(*b) == st);
            }
            return Err(e);
        }
        i = i + 1;
    }
    assert(rs@.take(i as int) =~= rs@);
    let ghost seen = texts(ids@);
    let ds = &b.toml_documents;
    let mut k: usize = 0;
    assert(ds@.take(0) =~= seq![]);
    while k < ds.len()
        invariant
            k <= ds@.len(),
            rs@ == b.markdown_records@,
            ds@ == b.toml_documents@,
            record_ids(rs@) == Ok::<Seq<Seq<char>>, Seq<char>>(seen),
            doc_ids(ds@.take(k as int), seen) == Ok::<Seq<Seq<char>>, Seq<char>>(texts(ids@)),
        decreases ds@.len() - k,
    {
        let d = &ds[k];
        let ghost t = ds@.take(k + 1);
        assert(t.drop_last() =~= ds@.take(k as int));
        assert(t.last() == ds@[k as int]);
        if let Some(id) = &d.id {
            let ghost st = id_step(texts(ids@), id@, d.path@);
            assert(doc_ids(t, seen) == st);
            let step = add_id(&mut ids, id.as_str(), d.path.as_str());
            if let Err(e) = step {
                proof {
                    assert(st is Err);
                    lemma_doc_ids_err(ds@, k + 1, seen);
                    assert(ds@.take(ds@.len() as int) =~= ds@);
                    assert(bundle_ids(*b) == st);
                }
                return Err(e);
            }
        }
        k = k + 1;
    }
    assert(ds@.take(k as int) =~= ds@);
    Ok(ids)
}

proof fn lemma_record_ids_err(rs: Seq<LocalMarkdownRecord>, k: int)
    requires
        0 <= k <= rs.len(),
        record_ids(rs.take(k)) is Err,
    ensures
        record_ids(rs) == record_ids(rs.take(k)),
    decreases rs.len() - k,
{
    if k < rs.len() {
        assert(rs.take(k + 1).drop_last() =~= rs.take(k));
        lemma_record_ids_err(rs, k + 1);
    } else {
        assert(rs.take(k) =~= rs);
    }
}

proof fn lemma_doc_ids_err(ds: Seq<LocalTomlDocument>, k: int, seen: Seq<Seq<char>>)
    requires
        0 <= k <= ds.len(),
        doc_ids(ds.take(k), seen) is Err,
    ensures
        doc_ids(ds, seen) == doc_ids(ds.take(k), seen),
    decreases ds.len() - k,
{
    if k < ds.len() {
        assert(ds.take(k + 1).drop_last() =~= ds.take(k));
        lemma_doc_ids_err(ds, k + 1, seen);
    } else {
        assert(ds.take(k) =~= ds);
    }
}


// ---------------------------------------------------------------------------
// Lists: the first error of their items.

/// The first error among `items`, each checked with `f`.
pub open spec fn seq_first_err<T>(items: Seq<T>, f: spec_fn(T) -> Option<Seq<char>>) -> Option<Seq<char>>
    decreases items.len(),
{
    if items.len() == 0 {
        None
    } else {
        first_err(seq_first_err(items.drop_last(), f), f(items.last()))
    }
}

proof fn lemma_first_err_step<T>(items: Seq<T>, f: spec_fn(T) -> Option<Seq<char>>, i: int)
    requires
        0 <= i < items.len(),
        seq_first_err(items.take(i), f) is None,
    ensures
        seq_first_err(items.take(i + 1), f) == f(items[i]),
{
    assert(items.take(i + 1).drop_last() =~= items.take(i));
    assert(items.take(i + 1).last() == items[i]);
}

proof fn lemma_first_err_stable<T>(items: Seq<T>, f: spec_fn(T) -> Option<Seq<char>>, k: int)
    requires
        0 <= k <= items.len(),
        seq_first_err(items.take(k), f) is Some,
    ensures
        seq_first_err(items, f) == seq_first_err(items.take(k), f),
    decreases items.len() - k,
{
    if k < items.len() {
        assert(items.take(k + 1).drop_last() =~= items.take(k));
        lemma_first_err_stable(items, f, k + 1);
    } else {
        assert(items.take(k) =~= items);
    }
}

proof fn lemma_first_err_done<T>(items: Seq<T>, f: spec_fn(T) -> Option<Seq<char>>)
    requires
        seq_first_err(items.take(items.len() as int), f) is None,
    ensures
        seq_first_err(items, f) is None,
{
    assert(items.take(items.len() as int) =~= items);
}

/// `ids` holds `id`.
pub open spec fn known(ids: Seq<Seq<char>>, id: Seq<char>) -> bool {
    ids.contains(id)
}

pub open spec fn missing(path: Seq<char>, what: Seq<char>, id: Seq<char>) -> Seq<char> {
    path + " references missing "@ + what + " `"@ + id + "`"@
}

fn missing_msg(path: &str, what: &str, id: &str) -> (m: String)
    ensures
        m@ == missing(path@, what@, id@),
{
    let mut m = msg3(path, " references missing ", what);
    m.append(" `");
    m.append(id);
    m.append("`");
    m
}

// ---------------------------------------------------------------------------
// Record fields.

pub open spec fn related_check(path: Seq<char>, ids: Seq<Seq<char>>) -> spec_fn(String) -> Option<Seq<char>> {
    |id: String| if known(ids, id@) {
        None
    } else {
        Some(missing(path, "related id"@, id@))
    }
}

fn check_related(r: &LocalMarkdownRecord, ids: &Vec<String>) -> (res: Result<(), LocalAuthoringError>)
    ensures
        checked(res, seq_first_err(r.related@, related_check(r.path@, texts(ids@)))),
{
    let ghost f = related_check(r.path@, texts(ids@));
    let n = r.related.len();
    let mut i: usize = 0;
    assert(r.related@.take(0) =~= seq![]);
    while i < n
        invariant
            n == r.related@.len(),
            i <= n,
            f == related_check(r.path@, texts(ids@)),
            seq_first_err(r.related@.take(i as int), f) is None,
        decreases n - i,
    {
        proof {
            lemma_first_err_step(r.related@, f, i as int);
        }
        let id = r.related[i].as_str();
        if !contains_text(ids, id) {
            proof {
                lemma_first_err_stable(r.related@, f, i + 1);
            }
            return fail(missing_msg(r.path.as_str(), "related id", id));
        }
        i = i + 1;
    }
    proof {
        lemma_first_err_done(r.related@, f);
    }
    Ok(())
}

pub open spec fn place_error(r: LocalMarkdownRecord, ids: Seq<Seq<char>>) -> Option<Seq<char>> {
    match r.place {
        Some(p) => if known(ids, p@) {
            None
        } else {
            Some(r.path@ + " references missing place `"@ + p@ + "`"@)
        },
        None => None,
    }
}

fn check_place(r: &LocalMarkdownRecord, ids: &Vec<String>) -> (res: Result<(), LocalAuthoringError>)
    ensures
        checked(res, place_error(*r, texts(ids@))),
{
    if let Some(p) = &r.place {
        if !contains_text(ids, p.as_str()) {
            let mut m = msg3(r.path.as_str(), " references missing place `", p.as_str());
            m.append("`");
            return fail(m);
        }
    }
    Ok(())
}

// ---------------------------------------------------------------------------
// Participants.

/// A missing participant, with a hint on where to find person ids.
pub open spec fn missing_participant(path: Seq<char>, id: Seq<char>) -> Seq<char> {
    missing(path, "participants entity"@, id)
        + "; look up local person ids with `kleio list-people`, or set `subject` to the person the event is about"@
}

fn missing_participant_msg(path: &str, id: &str) -> (m: String)
    ensures
        m@ == missing_participant(path@, id@),
{
    let mut m = missing_msg(path, "participants entity", id);
    m.append("; look up local person ids with `kleio list-people`, or set `subject` to the person the event is about");
    m
}

pub open spec fn raw_participant_check(path: Seq<char>, ids: Seq<Seq<char>>) -> spec_fn(JsonValue) -> Option<Seq<char>> {
    |v: JsonValue| match v {
        JsonValue::Str(e) => first_err(
            contextual_id_error(e@, "event participant"@),
            if known(ids, spec_contextual_id(e@, "person"@)) {
                None
            } else {
                Some(missing_participant(path, spec_contextual_id(e@, "person"@)))
            },
        ),
        JsonValue::Object(_) => None,
        _ => Some(path + " `participants` entries must be entity ids or participant tables"@),
    }
}

pub open spec fn ref_check(path: Seq<char>, ids: Seq<Seq<char>>) -> spec_fn(RefView) -> Option<Seq<char>> {
    |p: RefView| if known(ids, p.0) {
        None
    } else {
        Some(missing_participant(path, p.0))
    }
}

/// The first error of a record's `participants`, when it has them.
pub open spec fn participants_error(r: LocalMarkdownRecord, ids: Seq<Seq<char>>) -> Option<Seq<char>> {
    match lookup(r.attributes@, "participants"@) {
        None => None,
        Some(JsonValue::Array(items)) => first_err(
            seq_first_err(items@, raw_participant_check(r.path@, ids)),
            seq_first_err(spec_participant_refs(r), ref_check(r.path@, ids)),
        ),
        Some(_) => Some(r.path@ + " `participants` must be an array"@),
    }
}

fn check_participants(r: &LocalMarkdownRecord, ids: &Vec<String>) -> (res: Result<(), LocalAuthoringError>)
    ensures
        checked(res, participants_error(*r, texts(ids@))),
{
    let items = match r.attr("participants") {
        None => return Ok(()),
        Some(JsonValue::Array(items)) => items,
        Some(_) => {
            let mut m = r.path.clone();
            m.append(" `participants` must be an array");
            return fail(m);
        },
    };
    let ghost f = raw_participant_check(r.path@, texts(ids@));
    let n = items.len();
    let mut i: usize = 0;
    assert(items@.take(0) =~= seq![]);
    while i < n
        invariant
            n == items@.len(),
            i <= n,
            f == raw_participant_check(r.path@, texts(ids@)),
            seq_first_err(items@.take(i as int), f) is None,
            lookup(r.attributes@, "participants"@) == Some(JsonValue::Array(*items)),
        decreases n - i,
    {
        proof {
            lemma_first_err_step(items@, f, i as int);
        }
        let bad: Result<(), LocalAuthoringError> = match &items[i] {
            JsonValue::Str(e) => {
                match validate_contextual_id(e.as_str(), "event participant") {
                    Err(err) => Err(err),
                    Ok(()) => {
                        let id = normalize_person_id(e.as_str());
                        if contains_text(ids, id.as_str()) {
                            Ok(())
                        } else {
                            fail(missing_participant_msg(r.path.as_str(), id.as_str()))
                        }
                    },
                }
            },
            JsonValue::Object(_) => Ok(()),
            _ => {
                let mut m = r.path.clone();
                m.append(" `participants` entries must be entity ids or participant tables");
                fail(m)
            },
        };
        assert(checked(bad, f(items@[i as int])));
        if bad.is_err() {
            proof {
                lemma_first_err_stable(items@, f, i + 1);
            }
            return bad;
        }
        i = i + 1;
    }
    proof {
        lemma_first_err_done(items@, f);
    }
    let refs = event_participant_refs(r);
    let ghost g = ref_check(r.path@, texts(ids@));
    let ghost rv = ref_views(refs@);
    let m = refs.len();
    let mut j: usize = 0;
    assert(rv.take(0) =~= seq![]);
    while j < m
        invariant
            m == refs@.len(),
            j <= m,
            rv == ref_views(refs@),
            rv == spec_participant_refs(*r),
            g == ref_check(r.path@, texts(ids@)),
            seq_first_err(rv.take(j as int), g) is None,
            seq_first_err(items@, f) is None,
            f == raw_participant_check(r.path@, texts(ids@)),
            lookup(r.attributes@, "participants"@) == Some(JsonValue::Array(*items)),
        decreases m - j,
    {
        proof {
            lemma_first_err_step(rv, g, j as int);
        }
        let e = refs[j].entity.as_str();
        if !contains_text(ids, e) {
            proof {
                lemma_first_err_stable(rv, g, j + 1);
            }
            return fail(missing_participant_msg(r.path.as_str(), e));
        }
        j = j + 1;
    }
    proof {
        lemma_first_err_done(rv, g);
    }
    Ok(())
}

// ---------------------------------------------------------------------------
// Locations.

/// A text field that is not blank.
pub open spec fn text_key(es: Seq<(String, JsonValue)>, key: Seq<char>) -> bool {
    match opt_str(lookup(es, key)) {
        Some(t) => !is_blank(t),
        None => false,
    }
}

pub open spec fn is_number(o: Option<JsonValue>) -> bool {
    o matches Some(JsonValue::Number(_))
}

/// Why an inline location is not accepted: it needs a label, a name or a
/// source text, or coordinates; coordinates come in pairs, and are numbers.
pub open spec fn inline_location_error(path: Seq<char>, es: Seq<(String, JsonValue)>, field: Seq<char>) -> Option<Seq<char>> {
    let has_text = text_key(es, "label"@) || text_key(es, "name"@) || text_key(es, "source_text"@);
    let lat = lookup(es, "latitude"@);
    let lng = lookup(es, "longitude"@);
    let head = path + " inline `"@ + field;
    if !has_text && !(is_number(lat) && is_number(lng)) {
        Some(head + "` location must include `label`, `name`, `source_text`, or both `latitude` and `longitude`"@)
    } else if (lat is Some) != (lng is Some) {
        Some(head + "` location must include both `latitude` and `longitude` when using coordinates"@)
    } else if lat is Some && !is_number(lat) {
        Some(head + "` `latitude` must be a number"@)
    } else if lng is Some && !is_number(lng) {
        Some(head + "` `longitude` must be a number"@)
    } else {
        None
    }
}

fn text_key_exec(es: &Vec<(String, JsonValue)>, key: &str) -> (b: bool)
    ensures
        b == text_key(es@, key@),
{
    match crate::local_authoring::data::get_entry(es, key) {
        Some(v) => match v.as_str() {
            Some(t) => !is_blank_str(t),
            None => false,
        },
        None => false,
    }
}

fn check_inline_location(path: &str, es: &Vec<(String, JsonValue)>, field: &str) -> (res: Result<(), LocalAuthoringError>)
    ensures
        checked(res, inline_location_error(path@, es@, field@)),
{
    let has_text = text_key_exec(es, "label") || text_key_exec(es, "name") || text_key_exec(es, "source_text");
    let lat = crate::local_authoring::data::get_entry(es, "latitude");
    let lng = crate::local_authoring::data::get_entry(es, "longitude");
    let lat_num = match lat {
        Some(JsonValue::Number(_)) => true,
        _ => false,
    };
    let lng_num = match lng {
        Some(JsonValue::Number(_)) => true,
        _ => false,
    };
    let head = msg3(path, " inline `", field);
    if !has_text && !(lat_num && lng_num) {
        let mut m = head;
        m.append("` location must include `label`, `name`, `source_text`, or both `latitude` and `longitude`");
        return fail(m);
    }
    if lat.is_some() != lng.is_some() {
        let mut m = head;
        m.append("` location must include both `latitude` and `longitude` when using coordinates");
        return fail(m);
    }
    if lat.is_some() && !lat_num {
        let mut m = head;
        m.append("` `latitude` must be a number");
        return fail(m);
    }
    if lng.is_some() && !lng_num {
        let mut m = head;
        m.append("` `longitude` must be a number");
        return fail(m);
    }
    Ok(())
}

pub open spec fn bad_location(path: Seq<char>, field: Seq<char>) -> Seq<char> {
    path + " `"@ + field + "` must be a location string, inline location table, or array of inline locations"@
}

/// Why a location value is not accepted: a location is a non-blank text,
/// an inline location, or (for `locations`) a list of them.
pub open spec fn location_value_error(path: Seq<char>, v: JsonValue, field: Seq<char>) -> Option<Seq<char>>
    decreases v,
{
    match v {
        JsonValue::Str(s) => if is_blank(s@) {
            Some(path + " `"@ + field + "` cannot be empty"@)
        } else {
            None
        },
        JsonValue::Object(es) => inline_location_error(path, es@, field),
        JsonValue::Array(items) => if field == "locations"@ {
            location_items_error(path, items@, field)
        } else {
            Some(bad_location(path, field))
        },
        _ => Some(bad_location(path, field)),
    }
}

pub open spec fn location_items_error(path: Seq<char>, items: Seq<JsonValue>, field: Seq<char>) -> Option<Seq<char>>
    decreases items,
{
    if items.len() == 0 {
        None
    } else {
        first_err(location_items_error(path, items.drop_last(), field), location_value_error(path, items.last(), field))
    }
}

proof fn lemma_location_items_stable(path: Seq<char>, items: Seq<JsonValue>, field: Seq<char>, k: int)
    requires
        0 <= k <= items.len(),
        location_items_error(path, items.take(k), field) is Some,
    ensures
        location_items_error(path, items, field) == location_items_error(path, items.take(k), field),
    decreases items.len() - k,
{
    if k < items.len() {
        assert(items.take(k + 1).drop_last() =~= items.take(k));
        lemma_location_items_stable(path, items, field, k + 1);
    } else {
        assert(items.take(k) =~= items);
    }
}

fn check_location_value(path: &str, v: &JsonValue, field: &str) -> (res: Result<(), LocalAuthoringError>)
    ensures
        checked(res, location_value_error(path@, *v, field@)),
    decreases *v,
{
    match v {
        JsonValue::Str(s) => {
            if is_blank_str(s.as_str()) {
                let mut m = msg3(path, " `", field);
                m.append("` cannot be empty");
                fail(m)
            } else {
                Ok(())
            }
        },
        JsonValue::Object(es) => check_inline_location(path, es, field),
        JsonValue::Array(items) => {
            if !str_eq(field, "locations") {
                let mut m = msg3(path, " `", field);
                m.append("` must be a location string, inline location table, or array of inline locations");
                return fail(m);
            }
            let n = items.len();
            let mut i: usize = 0;
            assert(items@.take(0) =~= seq![]);
            while i < n
                invariant
                    n == items@.len(),
                    i <= n,
                    *v == JsonValue::Array(*items),
                    field@ == "locations"@,
                    location_items_error(path@, items@.take(i as int), field@) is None,
                decreases n - i,
            {
                assert(items@.take(i + 1).drop_last() =~= items@.take(i as int));
                assert(items@.take(i + 1).last() == items@[i as int]);
                proof {
                    assert(decreases_to!(*v => v->Array_0));
                    assert(decreases_to!(*items => items@));
                    assert(decreases_to!(items@ => items@[i as int]));
                }
                let r = check_location_value(path, &items[i], field);
                if r.is_err() {
                    proof {
                        lemma_location_items_stable(path@, items@, field@, i + 1);
                    }
                    return r;
                }
                i = i + 1;
            }
            assert(items@.take(i as int) =~= items@);
            Ok(())
        },
        _ => {
            let mut m = msg3(path, " `", field);
            m.append("` must be a location string, inline location table, or array of inline locations");
            fail(m)
        },
    }
}

/// A record's `location` or `locations` value, when it has one.
pub open spec fn location_field_error(r: LocalMarkdownRecord, key: Seq<char>) -> Option<Seq<char>> {
    match lookup(r.attributes@, key) {
        Some(v) => location_value_error(r.path@, v, key),
        None => None,
    }
}

fn check_location_field(r: &LocalMarkdownRecord, key: &str) -> (res: Result<(), LocalAuthoringError>)
    ensures
        checked(res, location_field_error(*r, key@)),
{
    match r.attr(key) {
        Some(v) => check_location_value(r.path.as_str(), v, key),
        None => Ok(()),
    }
}

// ---------------------------------------------------------------------------
// Places.

pub open spec fn place_check(path: Seq<char>, ids: Seq<Seq<char>>) -> spec_fn(JsonValue) -> Option<Seq<char>> {
    |v: JsonValue| match v {
        JsonValue::Str(e) => first_err(
            contextual_id_error(e@, "event place"@),
            if known(ids, spec_contextual_id(e@, "place"@)) {
                None
            } else {
                Some(missing(path, "places entity"@, spec_contextual_id(e@, "place"@)))
            },
        ),
        JsonValue::Object(es) => match opt_str(lookup(es@, "entity"@)) {
            Some(ent) => if known(ids, spec_contextual_id(ent, "place"@)) {
                None
            } else {
                Some(missing(path, "places entity"@, spec_contextual_id(ent, "place"@)))
            },
            None => inline_location_error(path, es@, "places"@),
        },
        _ => Some(path + " `places` entries must be place references or inline location tables"@),
    }
}

/// The first error of a record's `places`, when it has them.
pub open spec fn places_error(r: LocalMarkdownRecord, ids: Seq<Seq<char>>) -> Option<Seq<char>> {
    match lookup(r.attributes@, "places"@) {
        None => None,
        Some(JsonValue::Array(items)) => seq_first_err(items@, place_check(r.path@, ids)),
        Some(_) => Some(r.path@ + " `places` must be an array"@),
    }
}

fn check_places(r: &LocalMarkdownRecord, ids: &Vec<String>) -> (res: Result<(), LocalAuthoringError>)
    ensures
        checked(res, places_error(*r, texts(ids@))),
{
    let items = match r.attr("places") {
        None => return Ok(()),
        Some(JsonValue::Array(items)) => items,
        Some(_) => {
            let mut m = r.path.clone();
            m.append(" `places` must be an array");
            return fail(m);
        },
    };
    let ghost f = place_check(r.path@, texts(ids@));
    let n = items.len();
    let mut i: usize = 0;
    assert(items@.take(0) =~= seq![]);
    while i < n
        invariant
            n == items@.len(),
            i <= n,
            f == place_check(r.path@, texts(ids@)),
            seq_first_err(items@.take(i as int), f) is None,
            lookup(r.attributes@, "places"@) == Some(JsonValue::Array(*items)),
        decreases n - i,
    {
        proof {
            lemma_first_err_step(items@, f, i as int);
        }
        let res: Result<(), LocalAuthoringError> = match &items[i] {
            JsonValue::Str(e) => match validate_contextual_id(e.as_str(), "event place") {
                Err(err) => Err(err),
                Ok(()) => {
                    let id = normalize_place_id(e.as_str());
                    if contains_text(ids, id.as_str()) {
                        Ok(())
                    } else {
                        fail(missing_msg(r.path.as_str(), "places entity", id.as_str()))
                    }
                },
            },
            JsonValue::Object(es) => {
                let ent = match crate::local_authoring::data::get_entry(es, "entity") {
                    Some(x) => x.as_str(),
                    None => None,
                };
                match ent {
                    Some(ent) => {
                        let id = normalize_place_id(ent);
                        if contains_text(ids, id.as_str()) {
                            Ok(())
                        } else {
                            fail(missing_msg(r.path.as_str(), "places entity", id.as_str()))
                        }
                    },
                    None => check_inline_location(r.path.as_str(), es, "places"),
                }
            },
            _ => {
                let mut m = r.path.clone();
                m.append(" `places` entries must be place references or inline location tables");
                fail(m)
            },
        };
        assert(checked(res, f(items@[i as int])));
        if res.is_err() {
            proof {
                lemma_first_err_stable(items@, f, i + 1);
            }
            return res;
        }
        i = i + 1;
    }
    proof {
        lemma_first_err_done(items@, f);
    }
    Ok(())
}

// ---------------------------------------------------------------------------
// Sources.

pub open spec fn source_check(path: Seq<char>, ids: Seq<Seq<char>>, field: Seq<char>) -> spec_fn(JsonValue) -> Option<Seq<char>> {
    |v: JsonValue| match v {
        JsonValue::Str(id) => if known(ids, spec_contextual_id(id@, "source"@)) {
            None
        } else {
            Some(missing(path, field + " id"@, spec_contextual_id(id@, "source"@)))
        },
        JsonValue::Object(es) => if has_identity(es@) {
            None
        } else {
            Some(path + " inline `"@ + field + "` source must include `label`, `title`, `file`, `uri`, `hash`, or `sha256`"@)
        },
        _ => Some(path + " `"@ + field + "` entries must be source ids or inline source tables"@),
    }
}

/// The first error of a list of sources: each is a known source id or an
/// inline source that names something.
pub open spec fn source_items_error(path: Seq<char>, v: JsonValue, ids: Seq<Seq<char>>, field: Seq<char>) -> Option<Seq<char>> {
    match v {
        JsonValue::Array(items) => seq_first_err(items@, source_check(path, ids, field)),
        _ => Some(path + " `"@ + field + "` must be an array"@),
    }
}

fn has_identity_of(es: &Vec<(String, JsonValue)>) -> (b: bool)
    ensures
        b == has_identity(es@),
{
    text_key_exec(es, "label") || text_key_exec(es, "title") || text_key_exec(es, "file")
        || text_key_exec(es, "path") || text_key_exec(es, "uri") || text_key_exec(es, "url")
        || text_key_exec(es, "hash") || text_key_exec(es, "sha256")
}

fn check_source_items(path: &str, v: &JsonValue, ids: &Vec<String>, field: &str) -> (res: Result<(), LocalAuthoringError>)
    ensures
        checked(res, source_items_error(path@, *v, texts(ids@), field@)),
{
    let items = match v {
        JsonValue::Array(items) => items,
        _ => {
            let mut m = msg3(path, " `", field);
            m.append("` must be an array");
            return fail(m);
        },
    };
    let ghost f = source_check(path@, texts(ids@), field@);
    let n = items.len();
    let mut i: usize = 0;
    assert(items@.take(0) =~= seq![]);
    while i < n
        invariant
            n == items@.len(),
            i <= n,
            f == source_check(path@, texts(ids@), field@),
            seq_first_err(items@.take(i as int), f) is None,
            *v == JsonValue::Array(*items),
        decreases n - i,
    {
        proof {
            lemma_first_err_step(items@, f, i as int);
        }
        let res: Result<(), LocalAuthoringError> = match &items[i] {
            JsonValue::Str(id) => {
                let id = normalize_source_id(id.as_str());
                if contains_text(ids, id.as_str()) {
                    Ok(())
                } else {
                    let mut what = field.to_owned();
                    what.append(" id");
                    fail(missing_msg(path, what.as_str(), id.as_str()))
                }
            },
            JsonValue::Object(es) => {
                if has_identity_of(es) {
                    Ok(())
                } else {
                    let mut m = msg3(path, " inline `", field);
                    m.append("` source must include `label`, `title`, `file`, `uri`, `hash`, or `sha256`");
                    fail(m)
                }
            },
            _ => {
                let mut m = msg3(path, " `", field);
                m.append("` entries must be source ids or inline source tables");
                fail(m)
            },
        };
        assert(checked(res, f(items@[i as int])));
        if res.is_err() {
            proof {
                lemma_first_err_stable(items@, f, i + 1);
            }
            return res;
        }
        i = i + 1;
    }
    proof {
        lemma_first_err_done(items@, f);
    }
    Ok(())
}

fn opt_as_str(o: Option<&JsonValue>) -> (r: Option<&str>)
    ensures
        match r {
            Some(t) => opt_str(deref_opt(o)) == Some(t@),
            None => opt_str(deref_opt(o)) is None,
        },
{
    match o {
        Some(v) => v.as_str(),
        None => None,
    }
}

// ---------------------------------------------------------------------------
// Assertions.

/// Why an assertion target is not accepted: its base id (the record's own
/// id for a target that starts with `#`) is unknown.
pub open spec fn target_error(r: LocalMarkdownRecord, target: Seq<char>, ids: Seq<Seq<char>>) -> Option<Seq<char>> {
    let base = if has_prefix(target, "#"@) { r.id@ } else { spec_target_base_id(target) };
    if known(ids, base) {
        None
    } else {
        Some(missing(r.path@, "assertion target"@, base))
    }
}

fn check_target(r: &LocalMarkdownRecord, target: &str, ids: &Vec<String>) -> (res: Result<(), LocalAuthoringError>)
    ensures
        checked(res, target_error(*r, target@, texts(ids@))),
{
    let base = if starts_with(target, "#") {
        r.id.clone()
    } else {
        target_base_id(target)
    };
    if contains_text(ids, base.as_str()) {
        Ok(())
    } else {
        fail(missing_msg(r.path.as_str(), "assertion target", base.as_str()))
    }
}

/// An inline assertion names a known target, and its sources are valid.
pub open spec fn inline_assertion_error(r: LocalMarkdownRecord, es: Seq<(String, JsonValue)>, ids: Seq<Seq<char>>) -> Option<Seq<char>> {
    match opt_str(lookup(es, "target"@)) {
        None => Some(r.path@ + " inline assertion missing `target`"@),
        Some(t) => first_err(
            target_error(r, t, ids),
            match lookup(es, "sources"@) {
                Some(v) => source_items_error(r.path@, v, ids, "inline assertion `sources`"@),
                None => None,
            },
        ),
    }
}

fn check_inline_assertion(r: &LocalMarkdownRecord, es: &Vec<(String, JsonValue)>, ids: &Vec<String>) -> (res: Result<(), LocalAuthoringError>)
    ensures
        checked(res, inline_assertion_error(*r, es@, texts(ids@))),
{
    let target = match opt_as_str(crate::local_authoring::data::get_entry(es, "target")) {
        Some(t) => t,
        None => {
            let mut m = r.path.clone();
            m.append(" inline assertion missing `target`");
            return fail(m);
        },
    };
    check_target(r, target, ids)?;
    match crate::local_authoring::data::get_entry(es, "sources") {
        Some(v) => check_source_items(r.path.as_str(), v, ids, "inline assertion `sources`"),
        None => Ok(()),
    }
}

pub open spec fn assertion_check(r: LocalMarkdownRecord, ids: Seq<Seq<char>>) -> spec_fn(JsonValue) -> Option<Seq<char>> {
    |v: JsonValue| match v {
        JsonValue::Str(id) => if known(ids, id@) {
            None
        } else {
            Some(missing(r.path@, "assertions id"@, id@))
        },
        JsonValue::Object(es) => inline_assertion_error(r, es@, ids),
        _ => Some(r.path@ + " `assertions` entries must be assertion ids or inline assertion tables"@),
    }
}

/// The first error of a record's `assertions`, when it has them.
pub open spec fn assertions_error(r: LocalMarkdownRecord, ids: Seq<Seq<char>>) -> Option<Seq<char>> {
    match lookup(r.attributes@, "assertions"@) {
        None => None,
        Some(JsonValue::Array(items)) => seq_first_err(items@, assertion_check(r, ids)),
        Some(_) => Some(r.path@ + " `assertions` must be an array"@),
    }
}

fn check_assertions(r: &LocalMarkdownRecord, ids: &Vec<String>) -> (res: Result<(), LocalAuthoringError>)
    ensures
        checked(res, assertions_error(*r, texts(ids@))),
{
    let items = match r.attr("assertions") {
        None => return Ok(()),
        Some(JsonValue::Array(items)) => items,
        Some(_) => {
            let mut m = r.path.clone();
            m.append(" `assertions` must be an array");
            return fail(m);
        },
    };
    let ghost f = assertion_check(*r, texts(ids@));
    let n = items.len();
    let mut i: usize = 0;
    assert(items@.take(0) =~= seq![]);
    while i < n
        invariant
            n == items@.len(),
            i <= n,
            f == assertion_check(*r, texts(ids@)),
            seq_first_err(items@.take(i as int), f) is None,
            lookup(r.attributes@, "assertions"@) == Some(JsonValue::Array(*items)),
        decreases n - i,
    {
        proof {
            lemma_first_err_step(items@, f, i as int);
        }
        let res: Result<(), LocalAuthoringError> = match &items[i] {
            JsonValue::Str(id) => {
                if contains_text(ids, id.as_str()) {
                    Ok(())
                } else {
                    fail(missing_msg(r.path.as_str(), "assertions id", id.as_str()))
                }
            },
            JsonValue::Object(es) => check_inline_assertion(r, es, ids),
            _ => {
                let mut m = r.path.clone();
                m.append(" `assertions` entries must be assertion ids or inline assertion tables");
                fail(m)
            },
        };
        assert(checked(res, f(items@[i as int])));
        if res.is_err() {
            proof {
                lemma_first_err_stable(items@, f, i + 1);
            }
            return res;
        }
        i = i + 1;
    }
    proof {
        lemma_first_err_done(items@, f);
    }
    Ok(())
}

/// A record's `sources`, when it has them.
pub open spec fn sources_error(r: LocalMarkdownRecord, ids: Seq<Seq<char>>) -> Option<Seq<char>> {
    match lookup(r.attributes@, "sources"@) {
        Some(v) => source_items_error(r.path@, v, ids, "sources"@),
        None => None,
    }
}

fn check_sources(r: &LocalMarkdownRecord, ids: &Vec<String>) -> (res: Result<(), LocalAuthoringError>)
    ensures
        checked(res, sources_error(*r, texts(ids@))),
{
    match r.attr("sources") {
        Some(v) => check_source_items(r.path.as_str(), v, ids, "sources"),
        None => Ok(()),
    }
}


// ---------------------------------------------------------------------------
// Event and assertion records.

/// A record under `events/` is an event, and an event names a valid type.
pub open spec fn event_record_error(r: LocalMarkdownRecord) -> Option<Seq<char>> {
    if has_prefix(r.path@, "events/"@) && r.kind@ != "event"@ {
        Some(r.path@ + " event records must use `kind = \"event\"`"@)
    } else if r.kind@ == "event"@ {
        match opt_str(lookup(r.attributes@, "type"@)) {
            None => Some(r.path@ + " event record missing `type`"@),
            Some(t) => event_type_error(t, r.path@),
        }
    } else {
        None
    }
}

fn check_event_record(r: &LocalMarkdownRecord) -> (res: Result<(), LocalAuthoringError>)
    ensures
        checked(res, event_record_error(*r)),
{
    let is_event = str_eq(r.kind.as_str(), "event");
    if starts_with(r.path.as_str(), "events/") && !is_event {
        let mut m = r.path.clone();
        m.append(" event records must use `kind = \"event\"`");
        return fail(m);
    }
    if is_event {
        match opt_as_str(r.attr("type")) {
            None => {
                let mut m = r.path.clone();
                m.append(" event record missing `type`");
                fail(m)
            },
            Some(t) => validate_event_type_value(t, r.path.as_str()),
        }
    } else {
        Ok(())
    }
}

pub open spec fn id_ref_check(path: Seq<char>, ids: Seq<Seq<char>>) -> spec_fn(JsonValue) -> Option<Seq<char>> {
    |v: JsonValue| match v {
        JsonValue::Str(id) => if known(ids, spec_contextual_id(id@, "source"@)) {
            None
        } else {
            Some(missing(path, "sources id"@, spec_contextual_id(id@, "source"@)))
        },
        _ => Some(path + " `sources` must contain only strings"@),
    }
}

/// The `sources` of an assertion record: a list of known source ids.
pub open spec fn id_refs_error(path: Seq<char>, v: JsonValue, ids: Seq<Seq<char>>) -> Option<Seq<char>> {
    match v {
        JsonValue::Array(items) => seq_first_err(items@, id_ref_check(path, ids)),
        _ => Some(path + " `sources` must be an array"@),
    }
}

fn check_id_refs(path: &str, v: &JsonValue, ids: &Vec<String>) -> (res: Result<(), LocalAuthoringError>)
    ensures
        checked(res, id_refs_error(path@, *v, texts(ids@))),
{
    let items = match v {
        JsonValue::Array(items) => items,
        _ => {
            let mut m = path.to_owned();
            m.append(" `sources` must be an array");
            return fail(m);
        },
    };
    let ghost f = id_ref_check(path@, texts(ids@));
    let n = items.len();
    let mut i: usize = 0;
    assert(items@.take(0) =~= seq![]);
    while i < n
        invariant
            n == items@.len(),
            i <= n,
            f == id_ref_check(path@, texts(ids@)),
            seq_first_err(items@.take(i as int), f) is None,
            *v == JsonValue::Array(*items),
        decreases n - i,
    {
        proof {
            lemma_first_err_step(items@, f, i as int);
        }
        let res: Result<(), LocalAuthoringError> = match &items[i] {
            JsonValue::Str(id) => {
                let id = normalize_source_id(id.as_str());
                if contains_text(ids, id.as_str()) {
                    Ok(())
                } else {
                    fail(missing_msg(path, "sources id", id.as_str()))
                }
            },
            _ => {
                let mut m = path.to_owned();
                m.append(" `sources` must contain only strings");
                fail(m)
            },
        };
        assert(checked(res, f(items@[i as int])));
        if res.is_err() {
            proof {
                lemma_first_err_stable(items@, f, i + 1);
            }
            return res;
        }
        i = i + 1;
    }
    proof {
        lemma_first_err_done(items@, f);
    }
    Ok(())
}

/// A record under `assertions/` names a known target, and its sources are
/// known source ids.
pub open spec fn assertion_record_error(r: LocalMarkdownRecord, ids: Seq<Seq<char>>) -> Option<Seq<char>> {
    if has_prefix(r.path@, "assertions/"@) {
        match opt_str(lookup(r.attributes@, "target"@)) {
            None => Some(r.path@ + " assertion missing `target`"@),
            Some(t) => first_err(
                target_error(r, t, ids),
                match lookup(r.attributes@, "sources"@) {
                    Some(v) => id_refs_error(r.path@, v, ids),
                    None => None,
                },
            ),
        }
    } else {
        None
    }
}

fn check_assertion_record(r: &LocalMarkdownRecord, ids: &Vec<String>) -> (res: Result<(), LocalAuthoringError>)
    ensures
        checked(res, assertion_record_error(*r, texts(ids@))),
{
    if !starts_with(r.path.as_str(), "assertions/") {
        return Ok(());
    }
    let target = match opt_as_str(r.attr("target")) {
        Some(t) => t,
        None => {
            let mut m = r.path.clone();
            m.append(" assertion missing `target`");
            return fail(m);
        },
    };
    check_target(r, target, ids)?;
    match r.attr("sources") {
        Some(v) => check_id_refs(r.path.as_str(), v, ids),
        None => Ok(()),
    }
}

/// The first error of one record, its fields checked in a fixed order.
pub open spec fn record_error(r: LocalMarkdownRecord, ids: Seq<Seq<char>>) -> Option<Seq<char>> {
    first_err(seq_first_err(r.related@, related_check(r.path@, ids)),
    first_err(place_error(r, ids),
    first_err(participants_error(r, ids),
    first_err(places_error(r, ids),
    first_err(location_field_error(r, "location"@),
    first_err(location_field_error(r, "locations"@),
    first_err(assertions_error(r, ids),
    first_err(sources_error(r, ids),
    first_err(event_record_error(r),
    assertion_record_error(r, ids))))))))))
}

fn check_record(r: &LocalMarkdownRecord, ids: &Vec<String>) -> (res: Result<(), LocalAuthoringError>)
    ensures
        checked(res, record_error(*r, texts(ids@))),
{
    check_related(r, ids)?;
    check_place(r, ids)?;
    check_participants(r, ids)?;
    check_places(r, ids)?;
    check_location_field(r, "location")?;
    check_location_field(r, "locations")?;
    check_assertions(r, ids)?;
    check_sources(r, ids)?;
    check_event_record(r)?;
    check_assertion_record(r, ids)
}


// ---------------------------------------------------------------------------
// Documents.

/// An id as written when it is known, else its normal form under `prefix`.
pub open spec fn resolve(id: Seq<char>, ids: Seq<Seq<char>>, prefix: Seq<char>) -> Seq<char> {
    if known(ids, id) {
        id
    } else {
        spec_contextual_id(id, prefix)
    }
}

fn resolve_exec(id: &str, ids: &Vec<String>, prefix: &str) -> (r: String)
    requires
        prefix@ == "person"@ || prefix@ == "source"@,
    ensures
        r@ == resolve(id@, texts(ids@), prefix@),
{
    if contains_text(ids, id) {
        id.to_owned()
    } else if str_eq(prefix, "person") {
        normalize_person_id(id)
    } else {
        normalize_source_id(id)
    }
}

/// One end of a relationship: a valid id of a known person.
pub open spec fn person_ref_error(path: Seq<char>, field: Seq<char>, id: Seq<char>, ids: Seq<Seq<char>>) -> Option<Seq<char>> {
    let label = "relationship "@ + field;
    first_err(
        contextual_id_error(id, label),
        if known(ids, resolve(id, ids, "person"@)) {
            None
        } else {
            Some(missing(path, label, resolve(id, ids, "person"@)))
        },
    )
}

fn check_person_ref(path: &str, field: &str, id: &str, ids: &Vec<String>) -> (res: Result<(), LocalAuthoringError>)
    ensures
        checked(res, person_ref_error(path@, field@, id@, texts(ids@))),
{
    let mut label = "relationship ".to_owned();
    label.append(field);
    validate_contextual_id(id, label.as_str())?;
    let id = resolve_exec(id, ids, "person");
    if contains_text(ids, id.as_str()) {
        Ok(())
    } else {
        fail(missing_msg(path, label.as_str(), id.as_str()))
    }
}

pub open spec fn rel_source_check(path: Seq<char>, ids: Seq<Seq<char>>) -> spec_fn(JsonValue) -> Option<Seq<char>> {
    |v: JsonValue| match v {
        JsonValue::Str(s) => first_err(
            contextual_id_error(s@, "relationship source reference"@),
            if known(ids, resolve(s@, ids, "source"@)) {
                None
            } else {
                Some(missing(path, "relationship source"@, resolve(s@, ids, "source"@)))
            },
        ),
        _ => Some(path + " `sources` must contain only strings"@),
    }
}

pub open spec fn rel_sources_error(path: Seq<char>, o: Option<JsonValue>, ids: Seq<Seq<char>>) -> Option<Seq<char>> {
    match o {
        None => None,
        Some(JsonValue::Array(items)) => seq_first_err(items@, rel_source_check(path, ids)),
        Some(_) => Some(path + " `sources` must be an array"@),
    }
}

fn check_rel_sources(path: &str, o: Option<&JsonValue>, ids: &Vec<String>) -> (res: Result<(), LocalAuthoringError>)
    ensures
        checked(res, rel_sources_error(path@, deref_opt(o), texts(ids@))),
{
    let items = match o {
        None => return Ok(()),
        Some(JsonValue::Array(items)) => items,
        Some(_) => {
            let mut m = path.to_owned();
            m.append(" `sources` must be an array");
            return fail(m);
        },
    };
    let ghost f = rel_source_check(path@, texts(ids@));
    let n = items.len();
    let mut i: usize = 0;
    assert(items@.take(0) =~= seq![]);
    while i < n
        invariant
            n == items@.len(),
            i <= n,
            f == rel_source_check(path@, texts(ids@)),
            seq_first_err(items@.take(i as int), f) is None,
            deref_opt(o) == Some(JsonValue::Array(*items)),
        decreases n - i,
    {
        proof {
            lemma_first_err_step(items@, f, i as int);
        }
        let res: Result<(), LocalAuthoringError> = match &items[i] {
            JsonValue::Str(s) => match validate_contextual_id(s.as_str(), "relationship source reference") {
                Err(e) => Err(e),
                Ok(()) => {
                    let id = resolve_exec(s.as_str(), ids, "source");
                    if contains_text(ids, id.as_str()) {
                        Ok(())
                    } else {
                        fail(missing_msg(path, "relationship source", id.as_str()))
                    }
                },
            },
            _ => {
                let mut m = path.to_owned();
                m.append(" `sources` must contain only strings");
                fail(m)
            },
        };
        assert(checked(res, f(items@[i as int])));
        if res.is_err() {
            proof {
                lemma_first_err_stable(items@, f, i + 1);
            }
            return res;
        }
        i = i + 1;
    }
    proof {
        lemma_first_err_done(items@, f);
    }
    Ok(())
}

/// A relationship names a known source and target person, and its sources
/// are known.
pub open spec fn relationship_error(d: LocalTomlDocument, ids: Seq<Seq<char>>) -> Option<Seq<char>> {
    match str_field(d.data, "source"@) {
        None => Some(d.path@ + " relationship missing `source`"@),
        Some(src) => match str_field(d.data, "target"@) {
            None => Some(d.path@ + " relationship missing `target`"@),
            Some(tgt) => first_err(
                person_ref_error(d.path@, "source"@, src, ids),
                first_err(
                    person_ref_error(d.path@, "target"@, tgt, ids),
                    rel_sources_error(d.path@, spec_get(d.data, "sources"@), ids),
                ),
            ),
        },
    }
}

fn check_relationship(d: &LocalTomlDocument, ids: &Vec<String>) -> (res: Result<(), LocalAuthoringError>)
    ensures
        checked(res, relationship_error(*d, texts(ids@))),
{
    let src = match opt_as_str(d.data.get("source")) {
        Some(s) => s,
        None => {
            let mut m = d.path.clone();
            m.append(" relationship missing `source`");
            return fail(m);
        },
    };
    let tgt = match opt_as_str(d.data.get("target")) {
        Some(t) => t,
        None => {
            let mut m = d.path.clone();
            m.append(" relationship missing `target`");
            return fail(m);
        },
    };
    check_person_ref(d.path.as_str(), "source", src, ids)?;
    check_person_ref(d.path.as_str(), "target", tgt, ids)?;
    check_rel_sources(d.path.as_str(), d.data.get("sources"), ids)
}

pub open spec fn member_check(path: Seq<char>, ids: Seq<Seq<char>>) -> spec_fn(JsonValue) -> Option<Seq<char>> {
    |v: JsonValue| match str_field(v, "event"@) {
        None => Some(path + " collection member missing `event`"@),
        Some(e) => if known(ids, e) {
            None
        } else {
            Some(missing(path, "collection event"@, e))
        },
    }
}

/// An event collection has the kind `set` (the default) or `sequence`, and
/// each of its members names a known event.
pub open spec fn collection_error(d: LocalTomlDocument, ids: Seq<Seq<char>>) -> Option<Seq<char>> {
    let ck = match str_field(d.data, "collection_kind"@) {
        Some(k) => k,
        None => "set"@,
    };
    if ck != "set"@ && ck != "sequence"@ {
        Some(d.path@ + " event collection has invalid collection_kind `"@ + ck + "`"@)
    } else {
        match spec_get(d.data, "members"@) {
            None => None,
            Some(JsonValue::Array(items)) => seq_first_err(items@, member_check(d.path@, ids)),
            Some(_) => Some(d.path@ + " `members` must be an array"@),
        }
    }
}

fn check_collection(d: &LocalTomlDocument, ids: &Vec<String>) -> (res: Result<(), LocalAuthoringError>)
    ensures
        checked(res, collection_error(*d, texts(ids@))),
{
    let ck = match opt_as_str(d.data.get("collection_kind")) {
        Some(k) => k,
        None => "set",
    };
    proof {
        reveal_strlit("set");
    }
    if !str_eq(ck, "set") && !str_eq(ck, "sequence") {
        let mut m = msg3(d.path.as_str(), " event collection has invalid collection_kind `", ck);
        m.append("`");
        return fail(m);
    }
    let items = match d.data.get("members") {
        None => return Ok(()),
        Some(JsonValue::Array(items)) => items,
        Some(_) => {
            let mut m = d.path.clone();
            m.append(" `members` must be an array");
            return fail(m);
        },
    };
    let ghost f = member_check(d.path@, texts(ids@));
    assert(collection_error(*d, texts(ids@)) == seq_first_err(items@, f));
    let n = items.len();
    let mut i: usize = 0;
    assert(items@.take(0) =~= seq![]);
    while i < n
        invariant
            n == items@.len(),
            i <= n,
            f == member_check(d.path@, texts(ids@)),
            seq_first_err(items@.take(i as int), f) is None,
            collection_error(*d, texts(ids@)) == seq_first_err(items@, f),
        decreases n - i,
    {
        proof {
            lemma_first_err_step(items@, f, i as int);
        }
        let res: Result<(), LocalAuthoringError> = match opt_as_str(items[i].get("event")) {
            None => {
                let mut m = d.path.clone();
                m.append(" collection member missing `event`");
                fail(m)
            },
            Some(e) => if contains_text(ids, e) {
                Ok(())
            } else {
                fail(missing_msg(d.path.as_str(), "collection event", e))
            },
        };
        assert(checked(res, f(items@[i as int])));
        if res.is_err() {
            proof {
                lemma_first_err_stable(items@, f, i + 1);
            }
            return res;
        }
        i = i + 1;
    }
    proof {
        lemma_first_err_done(items@, f);
    }
    Ok(())
}

/// A view's `outer.inner` entity, when it names one, is a known person.
pub open spec fn view_entity_error(d: LocalTomlDocument, ids: Seq<Seq<char>>, outer: Seq<char>, inner: Seq<char>, label: Seq<char>) -> Option<Seq<char>> {
    match spec_get(d.data, outer) {
        None => None,
        Some(o) => match str_field(o, inner) {
            None => None,
            Some(e) => if known(ids, resolve(e, ids, "person"@)) {
                None
            } else {
                Some(missing(d.path@, label + " entity"@, resolve(e, ids, "person"@)))
            },
        },
    }
}

fn check_view_entity(d: &LocalTomlDocument, ids: &Vec<String>, outer: &str, inner: &str, label: &str) -> (res: Result<(), LocalAuthoringError>)
    ensures
        checked(res, view_entity_error(*d, texts(ids@), outer@, inner@, label@)),
{
    let o = match d.data.get(outer) {
        Some(o) => o,
        None => return Ok(()),
    };
    let e = match opt_as_str(o.get(inner)) {
        Some(e) => e,
        None => return Ok(()),
    };
    let id = resolve_exec(e, ids, "person");
    if contains_text(ids, id.as_str()) {
        Ok(())
    } else {
        let mut what = label.to_owned();
        what.append(" entity");
        fail(missing_msg(d.path.as_str(), what.as_str(), id.as_str()))
    }
}

/// The first error of one document, by its kind.
pub open spec fn doc_error(d: LocalTomlDocument, ids: Seq<Seq<char>>) -> Option<Seq<char>> {
    match d.kind {
        Some(k) => if k@ == "relationship"@ {
            relationship_error(d, ids)
        } else if k@ == "event-collection"@ {
            collection_error(d, ids)
        } else if k@ == "timeline-view"@ {
            view_entity_error(d, ids, "subject"@, "entity"@, "timeline subject"@)
        } else if k@ == "tree-view"@ {
            view_entity_error(d, ids, "root"@, "entity"@, "tree root"@)
        } else {
            None
        },
        None => None,
    }
}

fn check_doc(d: &LocalTomlDocument, ids: &Vec<String>) -> (res: Result<(), LocalAuthoringError>)
    ensures
        checked(res, doc_error(*d, texts(ids@))),
{
    let k = match &d.kind {
        Some(k) => k.as_str(),
        None => return Ok(()),
    };
    if str_eq(k, "relationship") {
        check_relationship(d, ids)
    } else if str_eq(k, "event-collection") {
        check_collection(d, ids)
    } else if str_eq(k, "timeline-view") {
        check_view_entity(d, ids, "subject", "entity", "timeline subject")
    } else if str_eq(k, "tree-view") {
        check_view_entity(d, ids, "root", "entity", "tree root")
    } else {
        Ok(())
    }
}


// ---------------------------------------------------------------------------
// The whole bundle.

pub open spec fn record_check(ids: Seq<Seq<char>>) -> spec_fn(LocalMarkdownRecord) -> Option<Seq<char>> {
    |r: LocalMarkdownRecord| record_error(r, ids)
}

pub open spec fn doc_check(ids: Seq<Seq<char>>) -> spec_fn(LocalTomlDocument) -> Option<Seq<char>> {
    |d: LocalTomlDocument| doc_error(d, ids)
}

/// The first reason to refuse a bundle: a bad or repeated id, then the
/// first bad record, then the first bad document; `None` when it is valid.
pub open spec fn validation_error(b: LocalDataBundle) -> Option<Seq<char>> {
    match bundle_ids(b) {
        Err(m) => Some(m),
        Ok(ids) => first_err(
            seq_first_err(b.markdown_records@, record_check(ids)),
            seq_first_err(b.toml_documents@, doc_check(ids)),
        ),
    }
}

/// Checks the local data of a world: every id is well formed and unique,
/// and every reference of a record or document points at something that
/// exists. The error is the first problem found, in file order.
pub fn validate_local_data(b: &LocalDataBundle) -> (r: Result<(), LocalAuthoringError>)
    ensures
        checked(r, validation_error(*b)),
{
    let ids = collect_ids(b)?;
    let ghost g = record_check(texts(ids@));
    let rs = &b.markdown_records;
    let n = rs.len();
    let mut i: usize = 0;
    assert(rs@.take(0) =~= seq![]);
    while i < n
        invariant
            n == rs@.len(),
            i <= n,
            rs@ == b.markdown_records@,
            g == record_check(texts(ids@)),
            seq_first_err(rs@.take(i as int), g) is None,
            bundle_ids(*b) == Ok::<Seq<Seq<char>>, Seq<char>>(texts(ids@)),
        decreases n - i,
    {
        proof {
            lemma_first_err_step(rs@, g, i as int);
        }
        let res = check_record(&rs[i], &ids);
        if res.is_err() {
            proof {
                lemma_first_err_stable(rs@, g, i + 1);
            }
            return res;
        }
        i = i + 1;
    }
    proof {
        lemma_first_err_done(rs@, g);
    }
    let ghost h = doc_check(texts(ids@));
    let ds = &b.toml_documents;
    let m = ds.len();
    let mut k: usize = 0;
    assert(ds@.take(0) =~= seq![]);
    while k < m
        invariant
            m == ds@.len(),
            k <= m,
            ds@ == b.toml_documents@,
            h == doc_check(texts(ids@)),
            seq_first_err(ds@.take(k as int), h) is None,
            bundle_ids(*b) == Ok::<Seq<Seq<char>>, Seq<char>>(texts(ids@)),
            seq_first_err(b.markdown_records@, record_check(texts(ids@))) is None,
        decreases m - k,
    {
        proof {
            lemma_first_err_step(ds@, h, k as int);
        }
        let res = check_doc(&ds[k], &ids);
        if res.is_err() {
            proof {
                lemma_first_err_stable(ds@, h, k + 1);
            }
            return res;
        }
        k = k + 1;
    }
    proof {
        lemma_first_err_done(ds@, h);
    }
    Ok(())
}

// ---------------------------------------------------------------------------
// What a successful validation promises.

/// The ids of the documents that have one, in order.
pub open spec fn doc_id_list(ds: Seq<LocalTomlDocument>) -> Seq<Seq<char>>
    decreases ds.len(),
{
    if ds.len() == 0 {
        seq![]
    } else {
        doc_id_list(ds.drop_last()) + match ds.last().id {
            Some(id) => seq![id@],
            None => seq![],
        }
    }
}

/// A document's id, when it has one, is well formed.
pub open spec fn doc_id_ok(d: LocalTomlDocument) -> bool {
    match d.id {
        Some(id) => id_error(id@, d.path@) is None,
        None => true,
    }
}

/// Every id of a world: its records' ids, then its documents' ids.
pub open spec fn world_ids(b: LocalDataBundle) -> Seq<Seq<char>> {
    b.markdown_records@.map_values(|r: LocalMarkdownRecord| r.id@) + doc_id_list(b.toml_documents@)
}

proof fn lemma_record_ids_ok(rs: Seq<LocalMarkdownRecord>)
    requires
        record_ids(rs) is Ok,
    ensures
        record_ids(rs) == Ok::<Seq<Seq<char>>, Seq<char>>(rs.map_values(|r: LocalMarkdownRecord| r.id@)),
        rs.map_values(|r: LocalMarkdownRecord| r.id@).no_duplicates(),
        forall|i: int| 0 <= i < rs.len() ==> id_error((#[trigger] rs[i]).id@, rs[i].path@) is None,
    decreases rs.len(),
{
    if rs.len() > 0 {
        let pre = rs.drop_last();
        lemma_record_ids_ok(pre);
        let s = pre.map_values(|r: LocalMarkdownRecord| r.id@);
        assert(rs.map_values(|r: LocalMarkdownRecord| r.id@) =~= s.push(rs.last().id@));
        assert forall|i: int| 0 <= i < rs.len() implies id_error((#[trigger] rs[i]).id@, rs[i].path@) is None by {
            if i < rs.len() - 1 {
                assert(pre[i] == rs[i]);
            }
        }
    } else {
        assert(rs.map_values(|r: LocalMarkdownRecord| r.id@) =~= seq![]);
    }
}

proof fn lemma_doc_ids_ok(ds: Seq<LocalTomlDocument>, seen: Seq<Seq<char>>)
    requires
        doc_ids(ds, seen) is Ok,
        seen.no_duplicates(),
    ensures
        doc_ids(ds, seen) == Ok::<Seq<Seq<char>>, Seq<char>>(seen + doc_id_list(ds)),
        (seen + doc_id_list(ds)).no_duplicates(),
        forall|i: int| 0 <= i < ds.len() ==> doc_id_ok(#[trigger] ds[i]),
    decreases ds.len(),
{
    if ds.len() > 0 {
        let pre = ds.drop_last();
        lemma_doc_ids_ok(pre, seen);
        let s = seen + doc_id_list(pre);
        match ds.last().id {
            Some(id) => {
                assert(seen + doc_id_list(ds) =~= s.push(id@));
            },
            None => {
                assert(seen + doc_id_list(ds) =~= s);
            },
        }
        assert forall|i: int| 0 <= i < ds.len() implies doc_id_ok(#[trigger] ds[i]) by {
            if i < ds.len() - 1 {
                assert(pre[i] == ds[i]);
            }
        }
    } else {
        assert(seen + doc_id_list(ds) =~= seen);
    }
}

/// Law: data that validates has well-formed ids (none blank, none with
/// whitespace), and no id is used twice among its records and documents.
pub proof fn law_valid_data_has_distinct_ids(b: LocalDataBundle)
    requires
        validation_error(b) is None,
    ensures
        world_ids(b).no_duplicates(),
        forall|i: int| 0 <= i < b.markdown_records@.len()
            ==> id_error((#[trigger] b.markdown_records@[i]).id@, b.markdown_records@[i].path@) is None,
        forall|i: int| 0 <= i < b.toml_documents@.len()
            ==> doc_id_ok(#[trigger] b.toml_documents@[i]),
{
    lemma_record_ids_ok(b.markdown_records@);
    lemma_doc_ids_ok(b.toml_documents@, b.markdown_records@.map_values(|r: LocalMarkdownRecord| r.id@));
}

} // verus!
