//! Local data as read from a world: Markdown records with TOML frontmatter
//! and plain TOML documents. Their free-form fields are JSON values.
use vstd::prelude::*;
use crate::text::str_eq;

verus! {

/// A JSON value. A number is kept as its text.
#[derive(Debug, PartialEq, Eq)]
pub enum JsonValue {
    Null,
    Bool(bool),
    Number(String),
    Str(String),
    Array(Vec<JsonValue>),
    Object(Vec<(String, JsonValue)>),
}

/// The value stored under `key` among `entries` (the first such entry).
pub open spec fn lookup(entries: Seq<(String, JsonValue)>, key: Seq<char>) -> Option<JsonValue>
    decreases entries.len(),
{
    if entries.len() == 0 {
        None
    } else if entries[0].0@ == key {
        Some(entries[0].1)
    } else {
        lookup(entries.drop_first(), key)
    }
}

pub open spec fn deref_opt(r: Option<&JsonValue>) -> Option<JsonValue> {
    match r {
        Some(v) => Some(*v),
        None => None,
    }
}

/// Looks `key` up among the entries of an object.
pub fn get_entry<'a>(entries: &'a Vec<(String, JsonValue)>, key: &str) -> (r: Option<&'a JsonValue>)
    ensures
        deref_opt(r) == lookup(entries@, key@),
{
    let n = entries.len();
    let mut i: usize = 0;
    assert(entries@.skip(0) =~= entries@);
    while i < n
        invariant
            n == entries@.len(),
            i <= n,
            lookup(entries@, key@) == lookup(entries@.skip(i as int), key@),
        decreases n - i,
    {
        assert(entries@.skip(i as int).drop_first() =~= entries@.skip(i as int + 1));
        if str_eq(entries[i].0.as_str(), key) {
            return Some(&entries[i].1);
        }
        i = i + 1;
    }
    None
}

/// `value.get(key)`: the field `key` of an object; nothing for other values.
pub open spec fn spec_get(v: JsonValue, key: Seq<char>) -> Option<JsonValue> {
    match v {
        JsonValue::Object(es) => lookup(es@, key),
        _ => None,
    }
}

/// The text of a string value.
pub open spec fn spec_as_str(v: JsonValue) -> Option<Seq<char>> {
    match v {
        JsonValue::Str(s) => Some(s@),
        _ => None,
    }
}

/// The text of an optional string value.
pub open spec fn opt_str(v: Option<JsonValue>) -> Option<Seq<char>> {
    match v {
        Some(x) => spec_as_str(x),
        None => None,
    }
}

/// The items of an array value.
pub open spec fn spec_as_array(v: JsonValue) -> Option<Seq<JsonValue>> {
    match v {
        JsonValue::Array(items) => Some(items@),
        _ => None,
    }
}

/// `v.get(key)`, then its text.
pub open spec fn str_field(v: JsonValue, key: Seq<char>) -> Option<Seq<char>> {
    opt_str(spec_get(v, key))
}

pub open spec fn digit_value(c: char) -> int {
    c as int - '0' as int
}

/// The value of a string of decimal digits.
pub open spec fn digits_value(s: Seq<char>) -> int
    decreases s.len(),
{
    if s.len() == 0 {
        0
    } else {
        digits_value(s.drop_last()) * 10 + digit_value(s.last())
    }
}

pub open spec fn all_digits(s: Seq<char>) -> bool {
    s.len() > 0 && forall|i: int| 0 <= i < s.len() ==> '0' <= #[trigger] s[i] <= '9'
}

/// The integer that a number's text spells (`-`, then digits), if it is one.
pub open spec fn integer_text_value(t: Seq<char>) -> Option<int> {
    if all_digits(t) {
        Some(digits_value(t))
    } else if t.len() > 0 && t[0] == '-' && all_digits(t.drop_first()) {
        Some(-digits_value(t.drop_first()))
    } else {
        None
    }
}

/// `as_i64`: an integer number that fits in `i64`.
pub open spec fn spec_as_i64(v: JsonValue) -> Option<int> {
    match v {
        JsonValue::Number(t) => match integer_text_value(t@) {
            Some(n) => if i64::MIN <= n <= i64::MAX {
                Some(n)
            } else {
                None
            },
            None => None,
        },
        _ => None,
    }
}

/// `as_u64`: a number of decimal digits alone that fits in `u64`.
pub open spec fn spec_as_u64(v: JsonValue) -> Option<int> {
    match v {
        JsonValue::Number(t) => if all_digits(t@) && digits_value(t@) <= u64::MAX {
            Some(digits_value(t@))
        } else {
            None
        },
        _ => None,
    }
}

/// `as_bool`: the value of a boolean.
pub open spec fn spec_as_bool(v: JsonValue) -> Option<bool> {
    match v {
        JsonValue::Bool(b) => Some(b),
        _ => None,
    }
}

proof fn lemma_digits_value_nonneg(s: Seq<char>)
    requires
        forall|i: int| 0 <= i < s.len() ==> '0' <= #[trigger] s[i] <= '9',
    ensures
        digits_value(s) >= 0,
    decreases s.len(),
{
    if s.len() > 0 {
        lemma_digits_value_nonneg(s.drop_last());
    }
}

/// The value of a string of digits, or `None` once it exceeds `limit`.
pub(crate) fn bounded_digits(s: &str, start: usize, limit: u64) -> (r: Option<u64>)
    requires
        start < s@.len(),
        all_digits(s@.skip(start as int)),
        limit >= 9,
    ensures
        match r {
            Some(n) => n == digits_value(s@.skip(start as int)) && n <= limit,
            None => digits_value(s@.skip(start as int)) > limit,
        },
{
    let n = s.unicode_len();
    let ghost tail = s@.skip(start as int);
    let mut acc: u64 = 0;
    let mut i: usize = start;
    assert(tail.take(0) =~= seq![]);
    while i < n
        invariant
            n == s@.len(),
            start <= i <= n,
            start < n,
            tail == s@.skip(start as int),
            all_digits(tail),
            acc == digits_value(tail.take(i - start)),
            acc <= limit,
            limit >= 9,
        decreases n - i,
    {
        let c = s.get_char(i);
        assert(tail[i - start] == c);
        assert('0' <= c <= '9');
        let d = (c as u32 - '0' as u32) as u64;
        assert(tail.take(i - start + 1).drop_last() =~= tail.take(i - start));
        assert(digits_value(tail.take(i - start + 1)) == acc * 10 + d);
        if acc > (limit - d) / 10 {
            proof {
                assert(acc * 10 + d > limit) by (nonlinear_arith)
                    requires
                        acc >= (limit - d) / 10 + 1,
                        limit >= d,
                ;
                lemma_digits_prefix_monotone(tail, i - start + 1);
            }
            return None;
        }
        assert(acc * 10 + d <= limit) by (nonlinear_arith)
            requires
                acc <= (limit - d) / 10,
                limit >= d,
        ;
        acc = acc * 10 + d;
        i = i + 1;
    }
    assert(tail.take(n - start) =~= tail);
    Some(acc)
}

proof fn lemma_digits_prefix_monotone(s: Seq<char>, k: int)
    requires
        all_digits(s),
        0 < k <= s.len(),
    ensures
        digits_value(s.take(k)) <= digits_value(s),
    decreases s.len() - k,
{
    if k < s.len() {
        lemma_digits_prefix_monotone(s, k + 1);
        assert(s.take(k + 1).drop_last() =~= s.take(k));
        lemma_digits_value_nonneg(s.take(k));
    } else {
        assert(s.take(k) =~= s);
    }
}

impl JsonValue {
    /// `value.get(key)` on an object.
    pub fn get(&self, key: &str) -> (r: Option<&JsonValue>)
        ensures
            deref_opt(r) == spec_get(*self, key@),
    {
        match self {
            JsonValue::Object(entries) => get_entry(entries, key),
            _ => None,
        }
    }

    pub fn as_str(&self) -> (r: Option<&str>)
        ensures
            match r {
                Some(s) => spec_as_str(*self) == Some(s@),
                None => spec_as_str(*self) is None,
            },
    {
        match self {
            JsonValue::Str(s) => Some(s.as_str()),
            _ => None,
        }
    }

    pub fn as_array(&self) -> (r: Option<&Vec<JsonValue>>)
        ensures
            match r {
                Some(items) => spec_as_array(*self) == Some(items@),
                None => spec_as_array(*self) is None,
            },
    {
        match self {
            JsonValue::Array(items) => Some(items),
            _ => None,
        }
    }

    /// A number written as decimal digits alone that fits in `u64`.
    pub fn as_u64(&self) -> (r: Option<u64>)
        ensures
            match r {
                Some(n) => spec_as_u64(*self) == Some(n as int),
                None => spec_as_u64(*self) is None,
            },
    {
        let t = match self {
            JsonValue::Number(t) => t.as_str(),
            _ => return None,
        };
        let n = t.unicode_len();
        if n == 0 {
            return None;
        }
        let mut i: usize = 0;
        while i < n
            invariant
                n == t@.len(),
                i <= n,
                self matches JsonValue::Number(u) && u@ == t@,
                forall|j: int| 0 <= j < i ==> '0' <= #[trigger] t@[j] <= '9',
            decreases n - i,
        {
            let c = t.get_char(i);
            if !('0' <= c && c <= '9') {
                assert(!('0' <= t@[i as int] <= '9'));
                return None;
            }
            i += 1;
        }
        assert(t@.skip(0) =~= t@);
        bounded_digits(t, 0, u64::MAX)
    }

    /// A boolean value.
    pub fn as_bool(&self) -> (r: Option<bool>)
        ensures
            r == spec_as_bool(*self),
    {
        match self {
            JsonValue::Bool(b) => Some(*b),
            _ => None,
        }
    }

    /// An integer number that fits in `i64`.
    pub fn as_i64(&self) -> (r: Option<i64>)
        ensures
            match r {
                Some(n) => spec_as_i64(*self) == Some(n as int),
                None => spec_as_i64(*self) is None,
            },
    {
        let t = match self {
            JsonValue::Number(t) => t.as_str(),
            _ => return None,
        };
        let n = t.unicode_len();
        if n == 0 {
            return None;
        }
        let negative = t.get_char(0) == '-';
        let start: usize = if negative { 1 } else { 0 };
        if start >= n {
            assert(!all_digits(t@.drop_first()));
            return None;
        }
        let mut i = start;
        while i < n
            invariant
                n == t@.len(),
                start <= i <= n,
                n > 0,
                self matches JsonValue::Number(u) && u@ == t@,
                negative == (t@[0] == '-'),
                start == (if negative { 1usize } else { 0usize }),
                forall|j: int| start <= j < i ==> '0' <= #[trigger] t@[j] <= '9',
            decreases n - i,
        {
            let c = t.get_char(i);
            if !('0' <= c && c <= '9') {
                proof {
                    if negative {
                        assert(t@.drop_first()[i - 1] == c);
                        assert(!all_digits(t@.drop_first()));
                        assert(!('0' <= t@[0] <= '9'));
                    } else {
                        assert(t@[i as int] == c);
                        assert(!all_digits(t@));
                    }
                }
                return None;
            }
            i = i + 1;
        }
        proof {
            if negative {
                assert(t@.skip(1) =~= t@.drop_first());
                assert(all_digits(t@.drop_first()));
                assert(!all_digits(t@));
            } else {
                assert(t@.skip(0) =~= t@);
                assert(all_digits(t@));
            }
        }
        if negative {
            match bounded_digits(t, 1, 9223372036854775808u64) {
                Some(v) => {
                    assert(t@.skip(1) =~= t@.drop_first());
                    if v == 9223372036854775808u64 {
                        Some(i64::MIN)
                    } else {
                        Some(-(v as i64))
                    }
                },
                None => {
                    assert(t@.skip(1) =~= t@.drop_first());
                    None
                },
            }
        } else {
            match bounded_digits(t, 0, 9223372036854775807u64) {
                Some(v) => {
                    assert(t@.skip(0) =~= t@);
                    Some(v as i64)
                },
                None => {
                    assert(t@.skip(0) =~= t@);
                    None
                },
            }
        }
    }
}

/// A Markdown record: its frontmatter fields, the rest of the frontmatter as
/// `attributes`, and the Markdown body.
#[derive(Debug, PartialEq, Eq)]
pub struct LocalMarkdownRecord {
    pub path: String,
    pub id: String,
    pub kind: String,
    pub title: Option<String>,
    pub date: Option<String>,
    pub summary: Option<String>,
    pub tags: Vec<String>,
    pub related: Vec<String>,
    pub place: Option<String>,
    pub attributes: Vec<(String, JsonValue)>,
    pub notes_markdown: String,
    /// The record writes the surname of its preferred name itself, rather
    /// than taking it from the legal name its file name gives.
    pub explicit_preferred_surname: bool,
}

/// A plain TOML document, with its whole content as `data`.
#[derive(Debug, PartialEq, Eq)]
pub struct LocalTomlDocument {
    pub path: String,
    pub id: Option<String>,
    pub kind: Option<String>,
    pub title: Option<String>,
    pub data: JsonValue,
}

/// Everything read from a world, in path order.
#[derive(Debug, PartialEq, Eq)]
pub struct LocalDataBundle {
    pub schema_version: u32,
    pub compiler: String,
    pub source_root: String,
    pub markdown_records: Vec<LocalMarkdownRecord>,
    pub toml_documents: Vec<LocalTomlDocument>,
}

impl LocalDataBundle {
    pub const SCHEMA_VERSION: u32 = 1;
}

impl LocalMarkdownRecord {
    /// The attribute `key` of the frontmatter.
    pub fn attr(&self, key: &str) -> (r: Option<&JsonValue>)
        ensures
            deref_opt(r) == lookup(self.attributes@, key@),
    {
        get_entry(&self.attributes, key)
    }
}


/// A JSON value that holds no array or object, as plain values.
pub enum Flat {
    Null,
    Bool(bool),
    Num(Seq<char>),
    Text(Seq<char>),
}

pub open spec fn flat_of(v: JsonValue) -> Option<Flat> {
    match v {
        JsonValue::Null => Some(Flat::Null),
        JsonValue::Bool(b) => Some(Flat::Bool(b)),
        JsonValue::Number(t) => Some(Flat::Num(t@)),
        JsonValue::Str(t) => Some(Flat::Text(t@)),
        _ => None,
    }
}

/// The entries are exactly `fields`, in order.
pub open spec fn entries_are(es: Seq<(String, JsonValue)>, fields: Seq<(Seq<char>, Flat)>) -> bool {
    &&& es.len() == fields.len()
    &&& forall|i: int| 0 <= i < fields.len() ==> (#[trigger] es[i]).0@ == fields[i].0 && flat_of(es[i].1) == Some(fields[i].1)
}

/// `v` is an object whose entries are exactly `fields`, in order.
pub open spec fn is_flat_object(v: JsonValue, fields: Seq<(Seq<char>, Flat)>) -> bool {
    v matches JsonValue::Object(es) && entries_are(es@, fields)
}

/// The entry `key`, when there is a text for it.
pub open spec fn text_field(key: Seq<char>, o: Option<Seq<char>>) -> Seq<(Seq<char>, Flat)> {
    match o {
        Some(t) => seq![(key, Flat::Text(t))],
        None => seq![],
    }
}

/// Appends `key` with a text value.
pub fn push_text_entry(es: &mut Vec<(String, JsonValue)>, key: &str, value: String)
    ensures
        final(es)@.len() == old(es)@.len() + 1,
        final(es)@.drop_last() == old(es)@,
        final(es)@.last().0@ == key@,
        flat_of(final(es)@.last().1) == Some(Flat::Text(value@)),
{
    es.push((key.to_owned(), JsonValue::Str(value)));
    assert(es@.drop_last() =~= old(es)@);
}

pub proof fn lemma_entries_push(es: Seq<(String, JsonValue)>, fields: Seq<(Seq<char>, Flat)>, e: (String, JsonValue), f: (Seq<char>, Flat))
    requires
        entries_are(es, fields),
        e.0@ == f.0,
        flat_of(e.1) == Some(f.1),
    ensures
        entries_are(es.push(e), fields.push(f)),
{
    assert forall|i: int| 0 <= i < fields.push(f).len() implies (#[trigger] es.push(e)[i]).0@ == fields.push(f)[i].0
        && flat_of(es.push(e)[i].1) == Some(fields.push(f)[i].1) by {
        if i < fields.len() {
            assert(es.push(e)[i] == es[i]);
        }
    }
}


/// Two values hold the same JSON: texts compared by their characters.
pub open spec fn json_same(a: JsonValue, b: JsonValue) -> bool
    decreases a,
{
    match a {
        JsonValue::Null => b is Null,
        JsonValue::Bool(x) => b == JsonValue::Bool(x),
        JsonValue::Number(x) => b matches JsonValue::Number(y) && x@ == y@,
        JsonValue::Str(x) => b matches JsonValue::Str(y) && x@ == y@,
        JsonValue::Array(xs) => b matches JsonValue::Array(ys) && json_items_same(xs@, ys@),
        JsonValue::Object(es) => b matches JsonValue::Object(fs) && json_entries_same(es@, fs@),
    }
}

pub open spec fn json_items_same(xs: Seq<JsonValue>, ys: Seq<JsonValue>) -> bool
    decreases xs,
{
    if xs.len() == 0 {
        ys.len() == 0
    } else {
        ys.len() == xs.len() && json_items_same(xs.drop_last(), ys.drop_last()) && json_same(xs.last(), ys.last())
    }
}

pub open spec fn json_entries_same(es: Seq<(String, JsonValue)>, fs: Seq<(String, JsonValue)>) -> bool
    decreases es,
{
    if es.len() == 0 {
        fs.len() == 0
    } else {
        fs.len() == es.len() && json_entries_same(es.drop_last(), fs.drop_last())
            && es.last().0@ == fs.last().0@ && json_same(es.last().1, fs.last().1)
    }
}

/// A copy of a value.
pub fn copy_json(v: &JsonValue) -> (r: JsonValue)
    ensures
        json_same(*v, r),
    decreases *v,
{
    match v {
        JsonValue::Null => JsonValue::Null,
        JsonValue::Bool(b) => JsonValue::Bool(*b),
        JsonValue::Number(t) => JsonValue::Number(t.clone()),
        JsonValue::Str(t) => JsonValue::Str(t.clone()),
        JsonValue::Array(items) => {
            let mut out: Vec<JsonValue> = Vec::new();
            let mut i: usize = 0;
            assert(items@.take(0) =~= seq![]);
            while i < items.len()
                invariant
                    i <= items@.len(),
                    *v == JsonValue::Array(*items),
                    json_items_same(items@.take(i as int), out@),
                decreases items@.len() - i,
            {
                proof {
                    assert(decreases_to!(*v => v->Array_0));
                    assert(decreases_to!(*items => items@));
                    assert(decreases_to!(items@ => items@[i as int]));
                }
                let c = copy_json(&items[i]);
                let ghost before = out@;
                out.push(c);
                assert(items@.take(i + 1).drop_last() =~= items@.take(i as int));
                assert(out@.drop_last() =~= before);
                i = i + 1;
            }
            assert(items@.take(i as int) =~= items@);
            JsonValue::Array(out)
        },
        JsonValue::Object(es) => {
            let mut out: Vec<(String, JsonValue)> = Vec::new();
            let mut i: usize = 0;
            assert(es@.take(0) =~= seq![]);
            while i < es.len()
                invariant
                    i <= es@.len(),
                    *v == JsonValue::Object(*es),
                    json_entries_same(es@.take(i as int), out@),
                decreases es@.len() - i,
            {
                proof {
                    assert(decreases_to!(*v => v->Object_0));
                    assert(decreases_to!(*es => es@));
                    assert(decreases_to!(es@ => es@[i as int]));
                    assert(decreases_to!(es@[i as int] => es@[i as int].1));
                }
                let c = copy_json(&es[i].1);
                let ghost before = out@;
                out.push((es[i].0.clone(), c));
                assert(es@.take(i + 1).drop_last() =~= es@.take(i as int));
                assert(out@.drop_last() =~= before);
                i = i + 1;
            }
            assert(es@.take(i as int) =~= es@);
            JsonValue::Object(out)
        },
    }
}

} // verus!
