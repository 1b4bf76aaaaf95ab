//! Turning the text of local data files into records: the frontmatter of a
//! Markdown record, its fields, and what a file's name says about it.
use vstd::prelude::*;
use crate::local_authoring::data::{
    lookup, JsonValue, LocalMarkdownRecord, LocalTomlDocument,
};
use crate::local_authoring::error::{is_validation, LocalAuthoringError};
use crate::local_authoring::filename_hints::{apply_event_filename_hints, hints_applied, spec_hints_for};
use crate::local_authoring::name_hints::{
    apply_person_filename_hints, explicit_preferred_surname, explicit_preferred_surname_of, person_hinted,
};
use crate::local_authoring::summary::opt_string;
use crate::sorted_text::texts;
use crate::text::{ends_with, starts_with, str_eq, trim, trim_seq};
use crate::timeline_source::has_prefix;

verus! {

broadcast use vstd::seq_lib::group_seq_properties;

/// `pat` occurs in `s` at `i`.
pub open spec fn occurs_at(s: Seq<char>, pat: Seq<char>, i: int) -> bool {
    0 <= i && i + pat.len() <= s.len() && s.subrange(i, i + pat.len()) == pat
}

/// Where `pat` first occurs in `s`.
pub open spec fn first_occurrence(s: Seq<char>, pat: Seq<char>) -> Option<int> {
    if exists|i: int| occurs_at(s, pat, i) {
        Some(choose|i: int| occurs_at(s, pat, i) && forall|j: int| 0 <= j < i ==> !occurs_at(s, pat, j))
    } else {
        None
    }
}

pub open spec fn opt_usize(o: Option<usize>) -> Option<int> {
    match o {
        Some(i) => Some(i as int),
        None => None,
    }
}

/// `str::find`: where `pat` first occurs in `s`.
pub fn find_str(s: &str, pat: &str) -> (r: Option<usize>)
    ensures
        opt_usize(r) == first_occurrence(s@, pat@),
{
    let n = s.unicode_len();
    let m = pat.unicode_len();
    if m > n {
        assert(!exists|i: int| occurs_at(s@, pat@, i));
        return None;
    }
    if m == 0 {
        assert(s@.subrange(0, 0) =~= pat@);
        assert(occurs_at(s@, pat@, 0));
        return Some(0);
    }
    let mut i: usize = 0;
    while i <= n - m
        invariant
            n == s@.len(),
            m == pat@.len(),
            1 <= m <= n,
            i <= n - m + 1,
            forall|j: int| 0 <= j < i ==> !occurs_at(s@, pat@, j),
        decreases n - m + 1 - i,
    {
        let window = s.substring_char(i, i + m);
        if str_eq(window, pat) {
            proof {
                assert(occurs_at(s@, pat@, i as int));
                let c = choose|c: int| occurs_at(s@, pat@, c) && forall|j: int| 0 <= j < c ==> !occurs_at(s@, pat@, j);
                if c < i {
                } else if c > i {
                    assert(!occurs_at(s@, pat@, i as int));
                }
            }
            return Some(i);
        }
        i = i + 1;
    }
    assert(!exists|i: int| occurs_at(s@, pat@, i)) by {
        if exists|j: int| occurs_at(s@, pat@, j) {
            let j = choose|j: int| occurs_at(s@, pat@, j);
            assert(j < i);
        }
    }
    None
}

proof fn lemma_min_occurrence(s: Seq<char>, pat: Seq<char>, i: int)
    requires
        occurs_at(s, pat, i),
    ensures
        exists|c: int| occurs_at(s, pat, c) && forall|j: int| 0 <= j < c ==> !occurs_at(s, pat, j),
    decreases i,
{
    if exists|j: int| 0 <= j < i && occurs_at(s, pat, j) {
        let j = choose|j: int| 0 <= j < i && occurs_at(s, pat, j);
        lemma_min_occurrence(s, pat, j);
    }
}

pub proof fn lemma_first_occurrence(s: Seq<char>, pat: Seq<char>)
    ensures
        match first_occurrence(s, pat) {
            Some(i) => occurs_at(s, pat, i) && forall|j: int| 0 <= j < i ==> !occurs_at(s, pat, j),
            None => forall|j: int| !occurs_at(s, pat, j),
        },
{
    if exists|i: int| occurs_at(s, pat, i) {
        let i = choose|i: int| occurs_at(s, pat, i);
        lemma_min_occurrence(s, pat, i);
    }
}

/// The text before and after the first `pat` in `s`.
fn split_at_first(s: &str, pat: &str) -> (r: Option<(String, String)>)
    ensures
        match first_occurrence(s@, pat@) {
            Some(i) => r matches Some((a, b)) && a@ == s@.take(i) && b@ == s@.skip(i + pat@.len()),
            None => r is None,
        },
{
    proof {
        lemma_first_occurrence(s@, pat@);
    }
    match find_str(s, pat) {
        Some(i) => {
            let n = s.unicode_len();
            let m = pat.unicode_len();
            let a = s.substring_char(0, i).to_owned();
            let b = s.substring_char(i + m, n).to_owned();
            Some((a, b))
        },
        None => None,
    }
}

/// The frontmatter and body of a Markdown record: the text between an
/// opening `+++` line and the next `+++` line, and the text after it; or
/// the message of why there is none.
pub open spec fn spec_split_frontmatter(text: Seq<char>) -> Result<(Seq<char>, Seq<char>), Seq<char>> {
    let rest = if has_prefix(text, "+++\n"@) {
        Some(text.skip(4))
    } else if has_prefix(text, "+++\r\n"@) {
        Some(text.skip(5))
    } else {
        None
    };
    match rest {
        None => Err("expected TOML frontmatter delimited by +++"@),
        Some(rest) => match first_occurrence(rest, "\n+++\n"@) {
            Some(i) => Ok((rest.take(i), rest.skip(i + 5))),
            None => match first_occurrence(rest, "\n+++\r\n"@) {
                Some(i) => Ok((rest.take(i), rest.skip(i + 6))),
                None => Err("missing closing +++ frontmatter delimiter"@),
            },
        },
    }
}

pub open spec fn invalid_markdown(e: LocalAuthoringError, path: Seq<char>, message: Seq<char>) -> bool {
    e matches LocalAuthoringError::InvalidMarkdown { path: p, message: m } && p@ == path && m@ == message
}

/// Splits a Markdown record into its TOML frontmatter and its body. `path`
/// names the file in errors.
pub fn split_toml_frontmatter(path: &str, text: &str) -> (r: Result<(String, String), LocalAuthoringError>)
    ensures
        match spec_split_frontmatter(text@) {
            Ok((front, body)) => r matches Ok((f, b)) && f@ == front && b@ == body,
            Err(message) => r matches Err(e) && invalid_markdown(e, path@, message),
        },
{
    proof {
        reveal_strlit("+++\n");
        reveal_strlit("+++\r\n");
        reveal_strlit("\n+++\n");
        reveal_strlit("\n+++\r\n");
    }
    let n = text.unicode_len();
    let rest = if starts_with(text, "+++\n") {
        text.substring_char(4, n)
    } else if starts_with(text, "+++\r\n") {
        text.substring_char(5, n)
    } else {
        return Err(
            LocalAuthoringError::InvalidMarkdown {
                path: path.to_owned(),
                message: "expected TOML frontmatter delimited by +++".to_owned(),
            },
        );
    };
    if let Some(parts) = split_at_first(rest, "\n+++\n") {
        return Ok(parts);
    }
    if let Some(parts) = split_at_first(rest, "\n+++\r\n") {
        return Ok(parts);
    }
    Err(
        LocalAuthoringError::InvalidMarkdown {
            path: path.to_owned(),
            message: "missing closing +++ frontmatter delimiter".to_owned(),
        },
    )
}

// ---------------------------------------------------------------------------
// Tables of fields.

/// Where `key` first occurs among `es`.
pub open spec fn key_index(es: Seq<(String, JsonValue)>, key: Seq<char>) -> Option<int>
    decreases es.len(),
{
    if es.len() == 0 {
        None
    } else if es[0].0@ == key {
        Some(0)
    } else {
        match key_index(es.drop_first(), key) {
            Some(i) => Some(i + 1),
            None => None,
        }
    }
}

pub proof fn lemma_key_index(es: Seq<(String, JsonValue)>, key: Seq<char>)
    ensures
        match key_index(es, key) {
            Some(i) => 0 <= i < es.len() && es[i].0@ == key && lookup(es, key) == Some(es[i].1)
                && forall|j: int| 0 <= j < i ==> (#[trigger] es[j]).0@ != key,
            None => lookup(es, key) is None && forall|j: int| 0 <= j < es.len() ==> (#[trigger] es[j]).0@ != key,
        },
    decreases es.len(),
{
    if es.len() > 0 {
        lemma_key_index(es.drop_first(), key);
        if es[0].0@ != key {
            match key_index(es.drop_first(), key) {
                Some(i) => {
                    assert forall|j: int| 0 <= j < i + 1 implies (#[trigger] es[j]).0@ != key by {
                        if j > 0 {
                            assert(es[j] == es.drop_first()[j - 1]);
                        }
                    }
                },
                None => {
                    assert forall|j: int| 0 <= j < es.len() implies (#[trigger] es[j]).0@ != key by {
                        if j > 0 {
                            assert(es[j] == es.drop_first()[j - 1]);
                        }
                    }
                },
            }
        }
    }
}

pub(crate) fn key_index_exec(es: &Vec<(String, JsonValue)>, key: &str) -> (r: Option<usize>)
    ensures
        opt_usize(r) == key_index(es@, key@),
{
    proof {
        lemma_key_index(es@, key@);
    }
    let n = es.len();
    let mut i: usize = 0;
    while i < n
        invariant
            n == es@.len(),
            i <= n,
            forall|j: int| 0 <= j < i ==> (#[trigger] es@[j]).0@ != key@,
            match key_index(es@, key@) {
                Some(k) => 0 <= k < es@.len() && es@[k].0@ == key@ && forall|j: int|
                    0 <= j < k ==> (#[trigger] es@[j]).0@ != key@,
                None => forall|j: int| 0 <= j < es@.len() ==> (#[trigger] es@[j]).0@ != key@,
            },
        decreases n - i,
    {
        if str_eq(es[i].0.as_str(), key) {
            return Some(i);
        }
        i = i + 1;
    }
    None
}

/// The table without the entry at `key`.
pub open spec fn table_remove(es: Seq<(String, JsonValue)>, key: Seq<char>) -> Seq<(String, JsonValue)> {
    match key_index(es, key) {
        Some(i) => es.remove(i),
        None => es,
    }
}

/// Removes the entry at `key`, giving its value.
pub(crate) fn take_entry(es: &mut Vec<(String, JsonValue)>, key: &str) -> (r: Option<JsonValue>)
    ensures
        r == lookup(old(es)@, key@),
        final(es)@ == table_remove(old(es)@, key@),
{
    proof {
        lemma_key_index(es@, key@);
    }
    match key_index_exec(es, key) {
        Some(i) => {
            let (_, v) = es.remove(i);
            Some(v)
        },
        None => None,
    }
}

/// A field that must be text: its text, nothing when it is absent, or an
/// error when it is something else.
pub open spec fn text_field(es: Seq<(String, JsonValue)>, key: Seq<char>) -> Result<Option<Seq<char>>, ()> {
    match lookup(es, key) {
        None => Ok(None),
        Some(JsonValue::Str(s)) => Ok(Some(s@)),
        Some(_) => Err(()),
    }
}

pub open spec fn all_strings(items: Seq<JsonValue>) -> bool {
    forall|i: int| 0 <= i < items.len() ==> (#[trigger] items[i]) is Str
}

pub open spec fn item_texts(items: Seq<JsonValue>) -> Seq<Seq<char>> {
    items.map_values(|v: JsonValue| match v {
        JsonValue::Str(s) => s@,
        _ => seq![],
    })
}

/// A field that must be a list of texts.
pub open spec fn list_field(es: Seq<(String, JsonValue)>, key: Seq<char>) -> Result<Seq<Seq<char>>, Seq<char>> {
    match lookup(es, key) {
        None => Ok(seq![]),
        Some(JsonValue::Array(items)) => if all_strings(items@) {
            Ok(item_texts(items@))
        } else {
            Err("` must contain only strings"@)
        },
        Some(_) => Err("` must be an array of strings"@),
    }
}

fn take_text(es: &mut Vec<(String, JsonValue)>, key: &str, path: &str) -> (r: Result<Option<String>, LocalAuthoringError>)
    ensures
        final(es)@ == table_remove(old(es)@, key@),
        match text_field(old(es)@, key@) {
            Ok(t) => r matches Ok(x) && opt_string(x) == t,
            Err(_) => r matches Err(e) && invalid_markdown(
                e,
                path@,
                "`"@ + key@ + "` must be a string or TOML date/time value"@,
            ),
        },
{
    match take_entry(es, key) {
        None => Ok(None),
        Some(JsonValue::Str(s)) => Ok(Some(s)),
        Some(_) => {
            let mut m = "`".to_owned();
            m.append(key);
            m.append("` must be a string or TOML date/time value");
            Err(LocalAuthoringError::InvalidMarkdown { path: path.to_owned(), message: m })
        },
    }
}

fn take_list(es: &mut Vec<(String, JsonValue)>, key: &str, path: &str) -> (r: Result<Vec<String>, LocalAuthoringError>)
    ensures
        final(es)@ == table_remove(old(es)@, key@),
        match list_field(old(es)@, key@) {
            Ok(t) => r matches Ok(x) && texts(x@) == t,
            Err(tail) => r matches Err(e) && invalid_markdown(e, path@, "`"@ + key@ + tail),
        },
{
    let items = match take_entry(es, key) {
        None => {
            let v: Vec<String> = Vec::new();
            assert(texts(v@) =~= seq![]);
            return Ok(v);
        },
        Some(JsonValue::Array(items)) => items,
        Some(_) => {
            let mut m = "`".to_owned();
            m.append(key);
            m.append("` must be an array of strings");
            return Err(LocalAuthoringError::InvalidMarkdown { path: path.to_owned(), message: m });
        },
    };
    let mut out: Vec<String> = Vec::new();
    let mut i: usize = 0;
    while i < items.len()
        invariant
            i <= items@.len(),
            lookup(old(es)@, key@) == Some(JsonValue::Array(items)),
            es@ == table_remove(old(es)@, key@),
            forall|j: int| 0 <= j < i ==> (#[trigger] items@[j]) is Str,
            texts(out@) == item_texts(items@.take(i as int)),
        decreases items@.len() - i,
    {
        match &items[i] {
            JsonValue::Str(s) => {
                let ghost before = out@;
                out.push(s.clone());
                assert(items@.take(i + 1) =~= items@.take(i as int).push(items@[i as int]));
                assert(item_texts(items@.take(i + 1)) =~= item_texts(items@.take(i as int)).push(s@));
                assert(texts(out@) =~= texts(before).push(s@));
            },
            _ => {
                let mut m = "`".to_owned();
                m.append(key);
                m.append("` must contain only strings");
                return Err(LocalAuthoringError::InvalidMarkdown { path: path.to_owned(), message: m });
            },
        }
        i = i + 1;
    }
    assert(items@.take(i as int) =~= items@);
    Ok(out)
}

// ---------------------------------------------------------------------------
// Records and documents.

/// The frontmatter table as each of a record's fields is taken out of it:
/// `stage(es, k)` is the table after the first `k` of `id`, `kind`, `title`,
/// `date`, `summary`, `tags`, `related`, `place`.
pub open spec fn stage(es: Seq<(String, JsonValue)>, k: nat) -> Seq<(String, JsonValue)>
    decreases k,
{
    if k == 0 {
        es
    } else {
        table_remove(stage(es, (k - 1) as nat), record_key((k - 1) as nat))
    }
}

pub open spec fn record_key(k: nat) -> Seq<char> {
    if k == 0 {
        "id"@
    } else if k == 1 {
        "kind"@
    } else if k == 2 {
        "title"@
    } else if k == 3 {
        "date"@
    } else if k == 4 {
        "summary"@
    } else if k == 5 {
        "tags"@
    } else if k == 6 {
        "related"@
    } else {
        "place"@
    }
}

pub open spec fn str_type_error(key: Seq<char>) -> Seq<char> {
    "`"@ + key + "` must be a string or TOML date/time value"@
}

/// Why a frontmatter table is not a record, if it is not: the first of its
/// fields, in order, that is missing or of the wrong type.
pub open spec fn record_error(es: Seq<(String, JsonValue)>) -> Option<Seq<char>> {
    if text_field(stage(es, 0), "id"@) is Err {
        Some(str_type_error("id"@))
    } else if text_field(stage(es, 0), "id"@) == Ok::<Option<Seq<char>>, ()>(None) {
        Some("missing required `id` frontmatter field"@)
    } else if text_field(stage(es, 1), "kind"@) is Err {
        Some(str_type_error("kind"@))
    } else if text_field(stage(es, 1), "kind"@) == Ok::<Option<Seq<char>>, ()>(None) {
        Some("missing required `kind` frontmatter field"@)
    } else if text_field(stage(es, 2), "title"@) is Err {
        Some(str_type_error("title"@))
    } else if text_field(stage(es, 3), "date"@) is Err {
        Some(str_type_error("date"@))
    } else if text_field(stage(es, 4), "summary"@) is Err {
        Some(str_type_error("summary"@))
    } else if list_field(stage(es, 5), "tags"@) is Err {
        Some("`"@ + "tags"@ + list_field(stage(es, 5), "tags"@)->Err_0)
    } else if list_field(stage(es, 6), "related"@) is Err {
        Some("`"@ + "related"@ + list_field(stage(es, 6), "related"@)->Err_0)
    } else if text_field(stage(es, 7), "place"@) is Err {
        Some(str_type_error("place"@))
    } else {
        None
    }
}

pub open spec fn text_of(r: Result<Option<Seq<char>>, ()>) -> Option<Seq<char>> {
    match r {
        Ok(t) => t,
        Err(_) => None,
    }
}

/// `r` is the record that a valid frontmatter table `es` gives, before
/// what the file's name adds.
pub open spec fn record_fields_from(r: LocalMarkdownRecord, es: Seq<(String, JsonValue)>) -> bool {
    &&& Some(r.id@) == text_of(text_field(stage(es, 0), "id"@))
    &&& Some(r.kind@) == text_of(text_field(stage(es, 1), "kind"@))
    &&& opt_string(r.title) == text_of(text_field(stage(es, 2), "title"@))
    &&& opt_string(r.date) == text_of(text_field(stage(es, 3), "date"@))
    &&& opt_string(r.summary) == text_of(text_field(stage(es, 4), "summary"@))
    &&& Ok::<Seq<Seq<char>>, Seq<char>>(texts(r.tags@)) == list_field(stage(es, 5), "tags"@)
    &&& Ok::<Seq<Seq<char>>, Seq<char>>(texts(r.related@)) == list_field(stage(es, 6), "related"@)
    &&& opt_string(r.place) == text_of(text_field(stage(es, 7), "place"@))
}

/// The fields of a record taken out of its frontmatter table; `table` is
/// left with the rest.
fn take_record_fields(table: &mut Vec<(String, JsonValue)>, full_path: &str) -> (r: Result<
    (String, String, Option<String>, Option<String>, Option<String>, Vec<String>, Vec<String>, Option<String>),
    LocalAuthoringError,
>)
    ensures
        match record_error(old(table)@) {
            Some(m) => r matches Err(e) && invalid_markdown(e, full_path@, m),
            None => r matches Ok((id, kind, title, date, summary, tags, related, place))
                && Some(id@) == text_of(text_field(stage(old(table)@, 0), "id"@))
                && Some(kind@) == text_of(text_field(stage(old(table)@, 1), "kind"@))
                && opt_string(title) == text_of(text_field(stage(old(table)@, 2), "title"@))
                && opt_string(date) == text_of(text_field(stage(old(table)@, 3), "date"@))
                && opt_string(summary) == text_of(text_field(stage(old(table)@, 4), "summary"@))
                && Ok::<Seq<Seq<char>>, Seq<char>>(texts(tags@)) == list_field(stage(old(table)@, 5), "tags"@)
                && Ok::<Seq<Seq<char>>, Seq<char>>(texts(related@)) == list_field(stage(old(table)@, 6), "related"@)
                && opt_string(place) == text_of(text_field(stage(old(table)@, 7), "place"@))
                && final(table)@ == stage(old(table)@, 8),
        },
{
    let ghost es = table@;
    assert(stage(es, 0) == es);
    let id = take_text(table, "id", full_path)?;
    assert(table@ == stage(es, 1));
    let id = match id {
        Some(id) => id,
        None => {
            return Err(
                LocalAuthoringError::InvalidMarkdown {
                    path: full_path.to_owned(),
                    message: "missing required `id` frontmatter field".to_owned(),
                },
            );
        },
    };
    let kind = take_text(table, "kind", full_path)?;
    assert(table@ == stage(es, 2));
    let kind = match kind {
        Some(k) => k,
        None => {
            return Err(
                LocalAuthoringError::InvalidMarkdown {
                    path: full_path.to_owned(),
                    message: "missing required `kind` frontmatter field".to_owned(),
                },
            );
        },
    };
    let title = take_text(table, "title", full_path)?;
    assert(table@ == stage(es, 3));
    let date = take_text(table, "date", full_path)?;
    assert(table@ == stage(es, 4));
    let summary = take_text(table, "summary", full_path)?;
    assert(table@ == stage(es, 5));
    let tags = take_list(table, "tags", full_path)?;
    assert(table@ == stage(es, 6));
    let related = take_list(table, "related", full_path)?;
    assert(table@ == stage(es, 7));
    let place = take_text(table, "place", full_path)?;
    assert(table@ == stage(es, 8));
    Ok((id, kind, title, date, summary, tags, related, place))
}


/// A Markdown record from its relative path, its frontmatter table (TOML
/// dates and times given as text) and its body, which is kept trimmed.
/// `full_path` names the file in errors.
pub fn markdown_record_from_frontmatter(
    relative_path: &str,
    full_path: &str,
    table: Vec<(String, JsonValue)>,
    notes: &str,
) -> (r: Result<LocalMarkdownRecord, LocalAuthoringError>)
    ensures
        match record_error(table@) {
            Some(m) => r matches Err(e) && invalid_markdown(e, full_path@, m),
            None => match spec_hints_for(relative_path@) {
                Err(m) => r matches Err(e) && is_validation(e, m),
                Ok(h) => r matches Ok(rec) && rec.path@ == relative_path@
                    && Some(rec.id@) == text_of(text_field(stage(table@, 0), "id"@))
                    && Some(rec.kind@) == text_of(text_field(stage(table@, 1), "kind"@))
                    && opt_string(rec.title) == text_of(text_field(stage(table@, 2), "title"@))
                    && opt_string(rec.date) == text_of(text_field(stage(table@, 3), "date"@))
                    && opt_string(rec.summary) == text_of(text_field(stage(table@, 4), "summary"@))
                    && Ok::<Seq<Seq<char>>, Seq<char>>(texts(rec.tags@)) == list_field(stage(table@, 5), "tags"@)
                    && Ok::<Seq<Seq<char>>, Seq<char>>(texts(rec.related@)) == list_field(stage(table@, 6), "related"@)
                    && opt_string(rec.place) == text_of(text_field(stage(table@, 7), "place"@))
                    && (exists|hinted: Seq<(String, JsonValue)>|
                        hints_applied(stage(table@, 8), hinted, h, relative_path@, rec.id@, rec.kind@)
                        && #[trigger] person_hinted(hinted, rec.attributes@, relative_path@, rec.kind@, opt_string(rec.title))
                        && rec.explicit_preferred_surname == explicit_preferred_surname(hinted, relative_path@, rec.kind@, opt_string(rec.title)))
                    && rec.notes_markdown@ == trim_seq(notes@),
            },
        },
{
    let mut table = table;
    let (id, kind, title, date, summary, tags, related, place) = take_record_fields(&mut table, full_path)?;
    let ghost staged = table@;
    apply_event_filename_hints(relative_path, id.as_str(), kind.as_str(), &mut table)?;
    let ghost hinted = table@;
    let title_ref: Option<&str> = match &title {
        Some(t) => Some(t.as_str()),
        None => None,
    };
    let explicit = explicit_preferred_surname_of(&table, relative_path, kind.as_str(), title_ref);
    apply_person_filename_hints(relative_path, kind.as_str(), &mut table, title_ref);
    let rec = LocalMarkdownRecord {
        path: relative_path.to_owned(),
        id,
        kind,
        title,
        date,
        summary,
        tags,
        related,
        place,
        attributes: table,
        notes_markdown: trim(notes),
        explicit_preferred_surname: explicit,
    };
    proof {
        let h = spec_hints_for(relative_path@)->Ok_0;
        assert(hints_applied(staged, hinted, h, relative_path@, rec.id@, rec.kind@));
        assert(person_hinted(hinted, rec.attributes@, relative_path@, rec.kind@, opt_string(rec.title)));
        assert(exists|hd: Seq<(String, JsonValue)>|
            hints_applied(staged, hd, h, relative_path@, rec.id@, rec.kind@)
            && #[trigger] person_hinted(hd, rec.attributes@, relative_path@, rec.kind@, opt_string(rec.title))
            && rec.explicit_preferred_surname == explicit_preferred_surname(hd, relative_path@, rec.kind@, opt_string(rec.title)));
    }
    Ok(rec)
}

/// A directory entry that a world leaves out: its README, a hidden entry.
pub open spec fn left_out(name: Seq<char>) -> bool {
    name == "README.md"@ || (name.len() > 0 && name[0] == '.')
}

/// A directory whose files belong to the world: neither left out nor a
/// `build` or `compiled` output directory.
pub open spec fn spec_world_dir(name: Seq<char>) -> bool {
    !left_out(name) && name != "build"@ && name != "compiled"@
}

/// A file that belongs to the world: not left out, and Markdown or TOML.
pub open spec fn spec_world_file(name: Seq<char>) -> bool {
    &&& !left_out(name)
    &&& ((name.len() >= 3 && name.skip(name.len() - 3) == ".md"@)
        || (name.len() >= 5 && name.skip(name.len() - 5) == ".toml"@))
}

fn is_left_out(name: &str) -> (b: bool)
    ensures
        b == left_out(name@),
{
    str_eq(name, "README.md") || (name.unicode_len() > 0 && name.get_char(0) == '.')
}

/// Whether a directory of this name is read as part of a world.
pub fn is_world_dir(name: &str) -> (b: bool)
    ensures
        b == spec_world_dir(name@),
{
    !is_left_out(name) && !str_eq(name, "build") && !str_eq(name, "compiled")
}

/// Whether a file of this name is read as part of a world.
pub fn is_world_file(name: &str) -> (b: bool)
    ensures
        b == spec_world_file(name@),
{
    proof {
        reveal_strlit(".md");
        reveal_strlit(".toml");
    }
    !is_left_out(name) && (ends_with(name, ".md") || ends_with(name, ".toml"))
}

/// The file name of a path: what follows its last `/`.
pub open spec fn file_name(path: Seq<char>) -> Seq<char>
    decreases path.len(),
{
    if path.len() == 0 {
        path
    } else if path.last() == '/' {
        seq![]
    } else {
        file_name(path.drop_last()).push(path.last())
    }
}

/// A file name without its `.toml` extension.
pub open spec fn toml_stem(name: Seq<char>) -> Seq<char> {
    if name.len() > 5 && name.skip(name.len() - 5) == ".toml"@ {
        name.take(name.len() - 5)
    } else {
        name
    }
}

/// Whether a relative path lies under `relationships/`.
pub open spec fn in_relationships(path: Seq<char>) -> bool {
    path == "relationships"@ || has_prefix(path, "relationships/"@)
}

pub(crate) fn file_name_exec(path: &str) -> (r: String)
    ensures
        r@ == file_name(path@),
{
    let n = path.unicode_len();
    let mut k: usize = n;
    while k > 0
        invariant
            k <= n,
            n == path@.len(),
            forall|j: int| k <= j < n ==> path@[j] != '/',
            file_name(path@) == file_name(path@.take(k as int)) + path@.skip(k as int),
        decreases k,
    {
        if path.get_char(k - 1) == '/' {
            assert(path@.take(k as int).drop_last() =~= path@.take(k - 1));
            assert(file_name(path@.take(k as int)) =~= seq![]);
            return path.substring_char(k, n).to_owned();
        }
        proof {
            let t = path@.take(k as int);
            assert(t.drop_last() =~= path@.take(k - 1));
            assert(path@.skip(k - 1) =~= seq![path@[k - 1]] + path@.skip(k as int));
            assert(file_name(t) == file_name(path@.take(k - 1)).push(path@[k - 1]));
        }
        k = k - 1;
    }
    assert(path@.take(0) =~= seq![]);
    path.to_owned()
}

proof fn lemma_file_name_start(path: Seq<char>)
    ensures
        file_name(path) == file_name(path.take(path.len() as int)) + path.skip(path.len() as int),
{
    assert(path.take(path.len() as int) =~= path);
    assert(path.skip(path.len() as int) =~= seq![]);
}

/// A TOML document from its relative path, its content as a JSON value,
/// and its top-level `id`, `kind` and `title` when they are text (or TOML
/// dates). A document under `relationships/` is a relationship, with an id
/// made from its file name, unless it says otherwise.
pub fn toml_document_from_parts(
    relative_path: &str,
    id: Option<String>,
    kind: Option<String>,
    title: Option<String>,
    data: JsonValue,
) -> (d: LocalTomlDocument)
    ensures
        d.path@ == relative_path@,
        opt_string(d.id) == (match opt_string(id) {
            Some(i) => Some(i),
            None => if in_relationships(relative_path@) {
                Some("relationship:"@ + toml_stem(file_name(relative_path@)))
            } else {
                None
            },
        }),
        opt_string(d.kind) == (match opt_string(kind) {
            Some(k) => Some(k),
            None => if in_relationships(relative_path@) {
                Some("relationship"@)
            } else {
                None
            },
        }),
        opt_string(d.title) == opt_string(title),
        d.data == data,
{
    proof {
        reveal_strlit(".toml");
        lemma_file_name_start(relative_path@);
    }
    let under = str_eq(relative_path, "relationships") || starts_with(relative_path, "relationships/");
    let id = match id {
        Some(i) => Some(i),
        None => if under {
            let name = file_name_exec(relative_path);
            let m = name.unicode_len();
            let stem = if m > 5 && str_eq(name.as_str().substring_char(m - 5, m), ".toml") {
                assert(name@.subrange(m - 5, m as int) =~= name@.skip(m - 5));
                name.as_str().substring_char(0, m - 5).to_owned()
            } else {
                name
            };
            let mut s = "relationship:".to_owned();
            s.append(stem.as_str());
            Some(s)
        } else {
            None
        },
    };
    let kind = match kind {
        Some(k) => Some(k),
        None => if under {
            Some("relationship".to_owned())
        } else {
            None
        },
    };
    LocalTomlDocument { path: relative_path.to_owned(), id, kind, title, data }
}
} // verus!
