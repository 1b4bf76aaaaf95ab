//! Names read from a person record's file name: `john-quincy-smith.md` is
//! John Quincy Smith, unless the record names itself.
use vstd::prelude::*;
use crate::local_authoring::data::{lookup, opt_str, JsonValue};
use crate::local_authoring::read::{
    file_name, key_index, key_index_exec, lemma_key_index, table_remove, take_entry,
};
use crate::local_authoring::skeleton::{spec_join_words, spec_words, string_views, words};
use crate::local_authoring::summary::opt_string;
use crate::local_authoring::tree_compile::{table_family, table_text_of};
use crate::sorted_text::texts;
use crate::text::{is_blank, is_blank_str, push_char, starts_with, str_eq};
use crate::timeline_source::has_prefix;

verus! {

broadcast use vstd::seq_lib::group_seq_properties;

/// What `char::to_uppercase` gives for a character: its Unicode uppercase
/// mapping, which may be several characters.
pub uninterp spec fn unicode_uppercase(c: char) -> Seq<char>;

/// `char::to_uppercase`, collected into a string; its result is named, not
/// restated.
#[verifier::external_body]
fn char_to_uppercase(c: char) -> (r: String)
    ensures
        r@ == unicode_uppercase(c),
{
    c.to_uppercase().collect()
}

/// The parts of a name: the whole, and the given, middle and family names.
#[derive(Debug, PartialEq, Eq)]
pub struct NameParts {
    pub full: String,
    pub given: Option<String>,
    pub middle: Option<String>,
    pub family: Option<String>,
}

pub type NameView = (Seq<char>, Option<Seq<char>>, Option<Seq<char>>, Option<Seq<char>>);

pub open spec fn name_view(p: NameParts) -> NameView {
    (p.full@, opt_string(p.given), opt_string(p.middle), opt_string(p.family))
}

/// A list of words as a name: all of them, the first, those between the
/// first and the last, the last.
pub open spec fn parts_from_words(w: Seq<Seq<char>>) -> Option<NameView> {
    if w.len() == 0 {
        None
    } else {
        Some(
            (
                spec_join_words(w),
                Some(w[0]),
                if w.len() > 2 {
                    Some(spec_join_words(w.subrange(1, w.len() - 1)))
                } else {
                    None
                },
                if w.len() > 1 {
                    Some(w.last())
                } else {
                    None
                },
            ),
        )
    }
}

/// Words joined by spaces, from `from` up to `to`.
fn join_range(w: &Vec<String>, from: usize, to: usize) -> (r: String)
    requires
        from <= to <= w@.len(),
    ensures
        r@ == spec_join_words(texts(w@).subrange(from as int, to as int)),
{
    let mut out = String::new();
    let mut i: usize = from;
    assert(texts(w@).subrange(from as int, from as int) =~= seq![]);
    while i < to
        invariant
            from <= i <= to <= w@.len(),
            out@ == spec_join_words(texts(w@).subrange(from as int, i as int)),
        decreases to - i,
    {
        let ghost t = texts(w@).subrange(from as int, i + 1);
        assert(t.drop_last() =~= texts(w@).subrange(from as int, i as int));
        assert(t.last() == w@[i as int]@);
        if i > from {
            out.append(" ");
        }
        out.append(w[i].as_str());
        i = i + 1;
    }
    out
}

fn parts_from_word_list(w: &Vec<String>) -> (r: Option<NameParts>)
    ensures
        match r {
            Some(p) => parts_from_words(texts(w@)) == Some(name_view(p)),
            None => parts_from_words(texts(w@)) is None,
        },
{
    let n = w.len();
    if n == 0 {
        return None;
    }
    let full = join_range(w, 0, n);
    assert(texts(w@).subrange(0, n as int) =~= texts(w@));
    let given = Some(w[0].clone());
    let middle = if n > 2 {
        let m = join_range(w, 1, n - 1);
        Some(m)
    } else {
        None
    };
    let family = if n > 1 {
        Some(w[n - 1].clone())
    } else {
        None
    };
    Some(NameParts { full, given, middle, family })
}

/// The pieces of a file name between `-` and `_`, leaving out blank ones.
pub open spec fn slug_pieces(s: Seq<char>) -> Seq<Seq<char>>
    decreases s.len(),
{
    pieces_from(s, seq![], seq![])
}

/// Splitting helper: `done` holds the pieces so far, `cur` the open piece.
pub open spec fn pieces_from(s: Seq<char>, done: Seq<Seq<char>>, cur: Seq<char>) -> Seq<Seq<char>>
    decreases s.len(),
{
    if s.len() == 0 {
        keep_piece(done, cur)
    } else if s[0] == '-' || s[0] == '_' {
        pieces_from(s.drop_first(), keep_piece(done, cur), seq![])
    } else {
        pieces_from(s.drop_first(), done, cur.push(s[0]))
    }
}

pub open spec fn keep_piece(done: Seq<Seq<char>>, cur: Seq<char>) -> Seq<Seq<char>> {
    if is_blank(cur) {
        done
    } else {
        done.push(cur)
    }
}

/// A word with its first character in upper case.
pub open spec fn title_case(w: Seq<char>) -> Seq<char> {
    if w.len() == 0 {
        w
    } else {
        unicode_uppercase(w[0]) + w.drop_first()
    }
}

/// The stem of a file name: the name up to its last `.`, unless that is
/// its first character.
pub open spec fn spec_file_stem(name: Seq<char>) -> Seq<char> {
    match last_dot(name) {
        Some(k) => if k > 0 {
            name.take(k)
        } else {
            name
        },
        None => name,
    }
}

pub open spec fn last_dot(name: Seq<char>) -> Option<int>
    decreases name.len(),
{
    if name.len() == 0 {
        None
    } else if name.last() == '.' {
        Some(name.len() - 1)
    } else {
        last_dot(name.drop_last())
    }
}

/// The name a person's file name spells.
pub open spec fn name_from_file(path: Seq<char>) -> Option<NameView> {
    parts_from_words(slug_pieces(spec_file_stem(file_name(path))).map_values(|w: Seq<char>| title_case(w)))
}

/// A preferred name: its words, with the legal family name added to a
/// single word.
pub open spec fn preferred_parts(value: Seq<char>, legal_family: Option<Seq<char>>) -> Option<NameView> {
    let w = spec_words(value);
    if w.len() == 0 {
        None
    } else if w.len() == 1 && legal_family is Some {
        parts_from_words(w.push(legal_family->0))
    } else {
        parts_from_words(w)
    }
}

fn file_stem_exec(name: &str) -> (r: String)
    ensures
        r@ == spec_file_stem(name@),
{
    let n = name.unicode_len();
    let mut k: usize = n;
    while k > 0
        invariant
            k <= n,
            n == name@.len(),
            last_dot(name@) == last_dot(name@.take(k as int)),
        decreases k,
    {
        let ghost t = name@.take(k as int);
        assert(t.drop_last() =~= name@.take(k - 1));
        if name.get_char(k - 1) == '.' {
            if k - 1 > 0 {
                return name.substring_char(0, k - 1).to_owned();
            }
            return name.to_owned();
        }
        k = k - 1;
    }
    assert(name@.take(0) =~= seq![]);
    name.to_owned()
}

fn slug_pieces_exec(s: &str) -> (r: Vec<String>)
    ensures
        texts(r@) == slug_pieces(s@),
{
    let n = s.unicode_len();
    let mut done: Vec<String> = Vec::new();
    let mut cur = String::new();
    let mut i: usize = 0;
    assert(s@.skip(0) =~= s@);
    assert(texts(done@) =~= seq![]);
    while i < n
        invariant
            n == s@.len(),
            i <= n,
            slug_pieces(s@) == pieces_from(s@.skip(i as int), texts(done@), cur@),
        decreases n - i,
    {
        let c = s.get_char(i);
        let ghost rest = s@.skip(i as int);
        assert(rest[0] == c);
        assert(rest.drop_first() =~= s@.skip(i + 1));
        if c == '-' || c == '_' {
            let ghost before = texts(done@);
            if !is_blank_str(cur.as_str()) {
                done.push(cur);
                assert(texts(done@) =~= before.push(cur@));
            }
            cur = String::new();
            assert(cur@ =~= seq![]);
        } else {
            push_char(&mut cur, c);
        }
        i = i + 1;
    }
    assert(s@.skip(n as int) =~= seq![]);
    let ghost before = texts(done@);
    if !is_blank_str(cur.as_str()) {
        done.push(cur);
        assert(texts(done@) =~= before.push(cur@));
    }
    done
}

fn title_case_exec(w: &str) -> (r: String)
    ensures
        r@ == title_case(w@),
{
    let n = w.unicode_len();
    if n == 0 {
        return String::new();
    }
    let mut r = char_to_uppercase(w.get_char(0));
    r.append(w.substring_char(1, n));
    assert(w@.subrange(1, n as int) =~= w@.drop_first());
    r
}

fn name_from_file_exec(path: &str) -> (r: Option<NameParts>)
    ensures
        match r {
            Some(p) => name_from_file(path@) == Some(name_view(p)),
            None => name_from_file(path@) is None,
        },
{
    let name = crate::local_authoring::read::file_name_exec(path);
    let stem = file_stem_exec(name.as_str());
    let pieces = slug_pieces_exec(stem.as_str());
    let mut w: Vec<String> = Vec::new();
    let mut i: usize = 0;
    while i < pieces.len()
        invariant
            i <= pieces@.len(),
            texts(w@) == texts(pieces@).take(i as int).map_values(|x: Seq<char>| title_case(x)),
        decreases pieces@.len() - i,
    {
        let ghost before = texts(w@);
        let t = title_case_exec(pieces[i].as_str());
        w.push(t);
        assert(texts(w@) =~= before.push(title_case(pieces@[i as int]@)));
        assert(texts(pieces@).take(i + 1) =~= texts(pieces@).take(i as int).push(pieces@[i as int]@));
        assert(texts(w@) =~= texts(pieces@).take(i + 1).map_values(|x: Seq<char>| title_case(x)));
        i = i + 1;
    }
    assert(texts(pieces@).take(i as int) =~= texts(pieces@));
    parts_from_word_list(&w)
}

fn preferred_parts_exec(value: &str, legal_family: &Option<String>) -> (r: Option<NameParts>)
    ensures
        match r {
            Some(p) => preferred_parts(value@, opt_string(*legal_family)) == Some(name_view(p)),
            None => preferred_parts(value@, opt_string(*legal_family)) is None,
        },
{
    let mut w = words(value);
    assert(string_views(w@) == texts(w@));
    if w.len() == 0 {
        return None;
    }
    if w.len() == 1 {
        if let Some(f) = legal_family {
            let ghost before = texts(w@);
            w.push(f.clone());
            assert(texts(w@) =~= before.push(f@));
        }
    }
    parts_from_word_list(&w)
}

// ---------------------------------------------------------------------------
// Name tables.

/// `names.<usage>` is a table.
pub open spec fn has_name_table(es: Seq<(String, JsonValue)>, usage: Seq<char>) -> bool {
    match lookup(es, "names"@) {
        Some(JsonValue::Object(ns)) => lookup(ns@, usage) matches Some(JsonValue::Object(_)),
        _ => false,
    }
}

fn has_name_table_exec(es: &Vec<(String, JsonValue)>, usage: &str) -> (b: bool)
    ensures
        b == has_name_table(es@, usage@),
{
    match crate::local_authoring::data::get_entry(es, "names") {
        Some(JsonValue::Object(ns)) => match crate::local_authoring::data::get_entry(ns, usage) {
            Some(JsonValue::Object(_)) => true,
            _ => false,
        },
        _ => false,
    }
}

pub open spec fn opt_field_is(es: Seq<(String, JsonValue)>, key: Seq<char>, v: Option<Seq<char>>) -> bool {
    match v {
        Some(t) => lookup(es, key) matches Some(JsonValue::Str(s)) && s@ == t,
        None => lookup(es, key) is None,
    }
}

/// `v` is the table of a name: its `full` name, and its given, middle and
/// family names where it has them, and nothing else.
pub open spec fn is_name_table(v: JsonValue, p: NameView) -> bool {
    &&& v matches JsonValue::Object(es)
    &&& opt_field_is(es@, "full"@, Some(p.0))
    &&& opt_field_is(es@, "given"@, p.1)
    &&& opt_field_is(es@, "middle"@, p.2)
    &&& opt_field_is(es@, "family"@, p.3)
    &&& forall|k: Seq<char>|
        k != "full"@ && k != "given"@ && k != "middle"@ && k != "family"@ ==> lookup(es@, k) is None
}

/// Tables that agree on every key but `key`.
pub open spec fn same_but(a: Seq<(String, JsonValue)>, b: Seq<(String, JsonValue)>, key: Seq<char>) -> bool {
    forall|k: Seq<char>| k != key ==> #[trigger] lookup(a, k) == lookup(b, k)
}

/// `b` is `a` with the name table of `usage` set to `p` (no change when
/// `names` is there but is no table).
pub open spec fn name_table_set(a: Seq<(String, JsonValue)>, b: Seq<(String, JsonValue)>, usage: Seq<char>, p: NameView) -> bool {
    match lookup(a, "names"@) {
        Some(JsonValue::Object(ns)) => {
            &&& same_but(a, b, "names"@)
            &&& lookup(b, "names"@) matches Some(JsonValue::Object(ns2))
            &&& same_but(ns@, ns2@, usage)
            &&& lookup(ns2@, usage) matches Some(t)
            &&& is_name_table(t, p)
        },
        Some(_) => b == a,
        None => {
            &&& same_but(a, b, "names"@)
            &&& lookup(b, "names"@) matches Some(JsonValue::Object(ns2))
            &&& forall|k: Seq<char>| k != usage ==> lookup(ns2@, k) is None
            &&& lookup(ns2@, usage) matches Some(t)
            &&& is_name_table(t, p)
        },
    }
}

pub(crate) proof fn lemma_lookup_push(es: Seq<(String, JsonValue)>, e: (String, JsonValue), k: Seq<char>)
    ensures
        lookup(es.push(e), k) == (match lookup(es, k) {
            Some(v) => Some(v),
            None => if e.0@ == k {
                Some(e.1)
            } else {
                None
            },
        }),
    decreases es.len(),
{
    if es.len() > 0 {
        assert(es.push(e).drop_first() =~= es.drop_first().push(e));
        lemma_lookup_push(es.drop_first(), e, k);
    } else {
        assert(es.push(e).drop_first() =~= seq![]);
    }
}

pub(crate) proof fn lemma_lookup_update(es: Seq<(String, JsonValue)>, i: int, e: (String, JsonValue), k: Seq<char>)
    requires
        key_index(es, e.0@) == Some(i),
    ensures
        lookup(es.update(i, e), k) == if k == e.0@ {
            Some(e.1)
        } else {
            lookup(es, k)
        },
    decreases es.len(),
{
    lemma_key_index(es, e.0@);
    if i > 0 {
        assert(es.update(i, e).drop_first() =~= es.drop_first().update(i - 1, e));
        lemma_lookup_update(es.drop_first(), i - 1, e, k);
    } else {
        assert(es.update(i, e).drop_first() =~= es.drop_first());
    }
}

/// Sets the entry at `key`, or adds it.
pub(crate) fn table_set(es: &mut Vec<(String, JsonValue)>, key: &str, v: JsonValue)
    ensures
        lookup(final(es)@, key@) == Some(v),
        same_but(old(es)@, final(es)@, key@),
{
    let ghost v0 = v;
    match key_index_exec(es, key) {
        Some(i) => {
            proof {
                lemma_key_index(es@, key@);
            }
            let e = (key.to_owned(), v);
            let ghost ge = e;
            es.set(i, e);
            proof {
                assert forall|k: Seq<char>| #![trigger lookup(es@, k)] true implies lookup(es@, k) == if k == key@ {
                    Some(v0)
                } else {
                    lookup(old(es)@, k)
                } by {
                    lemma_lookup_update(old(es)@, i as int, ge, k);
                }
            }
        },
        None => {
            proof {
                lemma_key_index(es@, key@);
            }
            let e = (key.to_owned(), v);
            let ghost ge = e;
            es.push(e);
            proof {
                assert forall|k: Seq<char>| #![trigger lookup(es@, k)] true implies lookup(es@, k) == if k == key@ {
                    Some(v0)
                } else {
                    lookup(old(es)@, k)
                } by {
                    lemma_lookup_push(old(es)@, ge, k);
                }
            }
        },
    }
}

/// The table of a name.
fn name_table_value(p: &NameParts) -> (v: JsonValue)
    ensures
        is_name_table(v, name_view(*p)),
{
    let mut es: Vec<(String, JsonValue)> = Vec::new();
    let ghost s0 = es@;
    table_set(&mut es, "full", JsonValue::Str(p.full.clone()));
    let ghost s1 = es@;
    if let Some(g) = &p.given {
        table_set(&mut es, "given", JsonValue::Str(g.clone()));
    }
    let ghost s2 = es@;
    if let Some(m) = &p.middle {
        table_set(&mut es, "middle", JsonValue::Str(m.clone()));
    }
    let ghost s3 = es@;
    if let Some(f) = &p.family {
        table_set(&mut es, "family", JsonValue::Str(f.clone()));
    }
    let ghost s4 = es@;
    proof {
        reveal_strlit("full");
        reveal_strlit("given");
        reveal_strlit("middle");
        reveal_strlit("family");
        assert("full"@ != "given"@) by {
            assert("full"@.len() != "given"@.len());
        }
        assert("full"@ != "middle"@) by {
            assert("full"@.len() != "middle"@.len());
        }
        assert("full"@ != "family"@) by {
            assert("full"@.len() != "family"@.len());
        }
        assert("given"@ != "middle"@) by {
            assert("given"@.len() != "middle"@.len());
        }
        assert("given"@ != "family"@) by {
            assert("given"@.len() != "family"@.len());
        }
        assert("middle"@ != "family"@) by {
            assert("middle"@[0] != "family"@[0]);
        }
        assert forall|k: Seq<char>|
            k != "full"@ && k != "given"@ && k != "middle"@ && k != "family"@ implies lookup(s4, k) is None by {
            assert(lookup(s4, k) == lookup(s3, k));
            assert(lookup(s3, k) == lookup(s2, k));
            assert(lookup(s2, k) == lookup(s1, k));
            assert(lookup(s1, k) == lookup(s0, k));
        }
        assert(lookup(s4, "full"@) == lookup(s1, "full"@)) by {
            assert(lookup(s4, "full"@) == lookup(s3, "full"@));
            assert(lookup(s3, "full"@) == lookup(s2, "full"@));
            assert(lookup(s2, "full"@) == lookup(s1, "full"@));
        }
        assert(lookup(s4, "given"@) == lookup(s2, "given"@)) by {
            assert(lookup(s4, "given"@) == lookup(s3, "given"@));
            assert(lookup(s3, "given"@) == lookup(s2, "given"@));
            assert(lookup(s1, "given"@) == lookup(s0, "given"@));
        }
        assert(lookup(s4, "middle"@) == lookup(s3, "middle"@)) by {
            assert(lookup(s2, "middle"@) == lookup(s1, "middle"@));
            assert(lookup(s1, "middle"@) == lookup(s0, "middle"@));
        }
        assert(lookup(s3, "family"@) == lookup(s0, "family"@)) by {
            assert(lookup(s3, "family"@) == lookup(s2, "family"@));
            assert(lookup(s2, "family"@) == lookup(s1, "family"@));
            assert(lookup(s1, "family"@) == lookup(s0, "family"@));
        }
    }
    JsonValue::Object(es)
}

/// Sets the name table of `usage` (not when `names` is there but is no table).
fn insert_name_table(table: &mut Vec<(String, JsonValue)>, usage: &str, p: &NameParts)
    ensures
        name_table_set(old(table)@, final(table)@, usage@, name_view(*p)),
{
    let t = name_table_value(p);
    match key_index_exec(table, "names") {
        None => {
            proof {
                lemma_key_index(table@, "names"@);
            }
            let mut ns: Vec<(String, JsonValue)> = Vec::new();
            table_set(&mut ns, usage, t);
            proof {
                assert forall|k: Seq<char>| k != usage@ implies lookup(ns@, k) is None by {
                    assert(lookup(Seq::<(String, JsonValue)>::empty(), k) is None);
                }
            }
            table_set(table, "names", JsonValue::Object(ns));
        },
        Some(i) => {
            proof {
                lemma_key_index(table@, "names"@);
            }
            let (k, v) = table.remove(i);
            match v {
                JsonValue::Object(ns) => {
                    let mut ns = ns;
                    let ghost ns0 = ns@;
                    table_set(&mut ns, usage, t);
                    let ghost before = table@;
                    table.insert(i, (k, JsonValue::Object(ns)));
                    proof {
                        let e = table@[i as int];
                        assert(table@ =~= old(table)@.update(i as int, e));
                        assert forall|key: Seq<char>| #![trigger lookup(table@, key)] true implies lookup(table@, key) == if key == "names"@ {
                            Some(e.1)
                        } else {
                            lookup(old(table)@, key)
                        } by {
                            lemma_lookup_update(old(table)@, i as int, e, key);
                        }
                    }
                },
                other => {
                    table.insert(i, (k, other));
                    assert(table@ =~= old(table)@);
                },
            }
        },
    }
}

// ---------------------------------------------------------------------------
// Applying the hints.

/// A path under `entities/people`.
pub open spec fn person_path(path: Seq<char>) -> bool {
    path == "entities/people"@ || has_prefix(path, "entities/people/"@)
}

/// What the preferred-name step makes of table `m`: without a preferred
/// name table, `preferred_name` (or the title) becomes one.
pub open spec fn preferred_step(m: Seq<(String, JsonValue)>, b: Seq<(String, JsonValue)>, title: Option<Seq<char>>, legal: NameView) -> bool {
    if has_name_table(m, "preferred"@) {
        b == m
    } else {
        let m2 = table_remove(m, "preferred_name"@);
        let pref = match opt_str(lookup(m, "preferred_name"@)) {
            Some(p) => Some(p),
            None => title,
        };
        match pref {
            Some(p) => match preferred_parts(p, legal.3) {
                Some(pp) => name_table_set(m2, b, "preferred"@, pp),
                None => b == m2,
            },
            None => b == m2,
        }
    }
}

/// `b` is frontmatter table `a` of a record of `kind` at `path` with the
/// names its file name gives: a person under `entities/people` gets a legal
/// name from the file name, and a preferred name from `preferred_name` or
/// its title, unless it has them.
pub open spec fn person_hinted(
    a: Seq<(String, JsonValue)>,
    b: Seq<(String, JsonValue)>,
    path: Seq<char>,
    kind: Seq<char>,
    title: Option<Seq<char>>,
) -> bool {
    if kind != "person"@ || !person_path(path) || name_from_file(path) is None {
        b == a
    } else {
        let legal = name_from_file(path)->0;
        exists|m: Seq<(String, JsonValue)>|
            #![trigger preferred_step(m, b, title, legal)]
            (if has_name_table(a, "legal"@) {
                m == a
            } else {
                name_table_set(a, m, "legal"@, legal)
            }) && preferred_step(m, b, title, legal)
    }
}

pub open spec fn opt_text_ref(o: Option<&str>) -> Option<Seq<char>> {
    match o {
        Some(s) => Some(s@),
        None => None,
    }
}

/// The preferred name the file-name hints read: `preferred_name`, else
/// the title.
pub open spec fn preferred_source(a: Seq<(String, JsonValue)>, title: Option<Seq<char>>) -> Option<Seq<char>> {
    match opt_str(lookup(a, "preferred_name"@)) {
        Some(p) => Some(p),
        None => title,
    }
}

/// Frontmatter table `a` writes the surname of the preferred name itself:
/// in a preferred name table, or as the last of several words of the
/// preferred name that the hints read, rather than leaving the hints to
/// take the legal surname.
pub open spec fn explicit_preferred_surname(a: Seq<(String, JsonValue)>, path: Seq<char>, kind: Seq<char>, title: Option<Seq<char>>) -> bool {
    if has_name_table(a, "preferred"@) {
        match lookup(a, "names"@) {
            Some(JsonValue::Object(ns)) => match lookup(ns@, "preferred"@) {
                Some(t) => table_family(t) is Some,
                None => false,
            },
            _ => false,
        }
    } else if kind == "person"@ && person_path(path) && name_from_file(path) is Some {
        match preferred_source(a, title) {
            Some(p) => spec_words(p).len() > 1,
            None => false,
        }
    } else {
        false
    }
}

pub fn explicit_preferred_surname_of(a: &Vec<(String, JsonValue)>, path: &str, kind: &str, title: Option<&str>) -> (b: bool)
    ensures
        b == explicit_preferred_surname(a@, path@, kind@, opt_text_ref(title)),
{
    if has_name_table_exec(a, "preferred") {
        return match crate::local_authoring::data::get_entry(a, "names") {
            Some(JsonValue::Object(ns)) => match crate::local_authoring::data::get_entry(ns, "preferred") {
                Some(t) => table_text_of(t, "family").is_some() || table_text_of(t, "surname").is_some(),
                None => false,
            },
            _ => false,
        };
    }
    if !str_eq(kind, "person") || !(str_eq(path, "entities/people") || starts_with(path, "entities/people/")) {
        return false;
    }
    if name_from_file_exec(path).is_none() {
        return false;
    }
    let source: Option<String> = match crate::local_authoring::data::get_entry(a, "preferred_name") {
        Some(JsonValue::Str(p)) => Some(p.clone()),
        _ => match title {
            Some(t) => Some(t.to_owned()),
            None => None,
        },
    };
    match source {
        Some(p) => {
            let w = words(p.as_str());
            w.len() > 1
        },
        None => false,
    }
}

/// Adds the names that a person's file name gives.
pub fn apply_person_filename_hints(
    relative_path: &str,
    kind: &str,
    table: &mut Vec<(String, JsonValue)>,
    title: Option<&str>,
)
    ensures
        person_hinted(old(table)@, final(table)@, relative_path@, kind@, opt_text_ref(title)),
{
    if !str_eq(kind, "person") || !(str_eq(relative_path, "entities/people") || starts_with(
        relative_path,
        "entities/people/",
    )) {
        return;
    }
    let legal = match name_from_file_exec(relative_path) {
        Some(l) => l,
        None => return,
    };
    if !has_name_table_exec(table, "legal") {
        insert_name_table(table, "legal", &legal);
    }
    let ghost m = table@;
    if !has_name_table_exec(table, "preferred") {
        let removed = take_entry(table, "preferred_name");
        let pref: Option<String> = match removed {
            Some(JsonValue::Str(p)) => Some(p),
            _ => match title {
                Some(t) => Some(t.to_owned()),
                None => None,
            },
        };
        if let Some(p) = pref {
            if let Some(pp) = preferred_parts_exec(p.as_str(), &legal.family) {
                insert_name_table(table, "preferred", &pp);
            }
        }
    }
    assert(preferred_step(m, table@, opt_text_ref(title), name_view(legal)));
    assert((if has_name_table(old(table)@, "legal"@) {
        m == old(table)@
    } else {
        name_table_set(old(table)@, m, "legal"@, name_view(legal))
    }) && preferred_step(m, table@, opt_text_ref(title), name_view(legal)));
    assert(kind@ == "person"@);
    assert(person_path(relative_path@));
    assert(name_from_file(relative_path@)->0 == name_view(legal));
    assert(person_hinted(old(table)@, table@, relative_path@, kind@, opt_text_ref(title)));
}

} // verus!
