//! Record ids and slugs: how short references are completed to stable ids,
//! and which slugs and ids are accepted.
use vstd::prelude::*;
use crate::local_authoring::error::{is_validation, LocalAuthoringError};
use crate::text::{
    char_is_whitespace, contains_char, is_blank, is_blank_str, is_unicode_whitespace, lead_ws,
    lemma_lead_ws_bound, lemma_trail_ws_bound, trail_ws, trim, trim_end_seq, trim_seq, trim_start_seq,
};

verus! {

/// `prefix:value` for a value without a colon; the trimmed value otherwise.
pub open spec fn spec_contextual_id(value: Seq<char>, default_prefix: Seq<char>) -> Seq<char> {
    let v = trim_seq(value);
    if v.contains(':') {
        v
    } else {
        default_prefix + ":"@ + v
    }
}

/// What `trim` gives neither starts nor ends with whitespace.
proof fn lemma_trimmed_ends(s: Seq<char>)
    ensures
        trim_seq(s).len() > 0 ==> !is_unicode_whitespace(trim_seq(s)[0])
            && !is_unicode_whitespace(trim_seq(s).last()),
{
    let a = trim_start_seq(s);
    lemma_lead_ws_bound(s);
    lemma_trail_ws_bound(a);
    if trim_seq(s).len() > 0 {
        assert(a[0] == s[lead_ws(s) as int]);
        assert(trim_seq(s)[0] == a[0]);
        assert(trim_seq(s).last() == a[a.len() - trail_ws(a) - 1]);
    }
}

/// Text that neither starts nor ends with whitespace is its own trim.
proof fn lemma_trim_fixed(s: Seq<char>)
    requires
        s.len() == 0 || (!is_unicode_whitespace(s[0]) && !is_unicode_whitespace(s.last())),
    ensures
        trim_seq(s) == s,
{
    assert(lead_ws(s) == 0);
    assert(trim_start_seq(s) =~= s);
    assert(trail_ws(s) == 0);
    assert(trim_end_seq(s) =~= s);
}

/// A completed reference always has a prefix, and completing it again
/// changes nothing, for a default prefix that does not start with
/// whitespace.
pub proof fn law_contextual_id_idempotent(value: Seq<char>, default_prefix: Seq<char>)
    requires
        default_prefix.len() == 0 || !is_unicode_whitespace(default_prefix[0]),
    ensures
        spec_contextual_id(value, default_prefix).contains(':'),
        spec_contextual_id(spec_contextual_id(value, default_prefix), default_prefix)
            == spec_contextual_id(value, default_prefix),
{
    let v = trim_seq(value);
    lemma_trimmed_ends(value);
    if v.contains(':') {
        lemma_trim_fixed(v);
    } else {
        reveal_strlit(":");
        let r = default_prefix + ":"@ + v;
        assert(r[default_prefix.len() as int] == ':');
        assert(r.contains(':'));
        if default_prefix.len() > 0 {
            assert(r[0] == default_prefix[0]);
        } else {
            assert(r[0] == ':');
        }
        if v.len() > 0 {
            assert(r.last() == v.last());
        } else {
            assert(r.last() == ':');
        }
        assert(!is_unicode_whitespace(':'));
        lemma_trim_fixed(r);
    }
}

/// Completes a short reference (`ada`) to a stable id (`person:ada`); a
/// reference that already has a prefix is kept, trimmed.
pub fn normalize_contextual_id(value: &str, default_prefix: &str) -> (r: String)
    ensures
        r@ == spec_contextual_id(value@, default_prefix@),
{
    let v = trim(value);
    if contains_char(v.as_str(), ':') {
        v
    } else {
        let mut r = default_prefix.to_owned();
        r.append(":");
        r.append(v.as_str());
        r
    }
}

pub fn normalize_person_id(value: &str) -> (r: String)
    ensures
        r@ == spec_contextual_id(value@, "person"@),
{
    normalize_contextual_id(value, "person")
}

pub fn normalize_place_id(value: &str) -> (r: String)
    ensures
        r@ == spec_contextual_id(value@, "place"@),
{
    normalize_contextual_id(value, "place")
}

pub fn normalize_source_id(value: &str) -> (r: String)
    ensures
        r@ == spec_contextual_id(value@, "source"@),
{
    normalize_contextual_id(value, "source")
}

/// A character that no slug or id part may contain.
pub open spec fn is_separator_or_space(c: char) -> bool {
    is_unicode_whitespace(c) || c == '/' || c == '\\' || c == ':'
}

pub open spec fn has_separator_or_space(s: Seq<char>) -> bool {
    exists|i: int| 0 <= i < s.len() && is_separator_or_space(#[trigger] s[i])
}

fn find_separator_or_space(s: &str) -> (r: bool)
    ensures
        r == has_separator_or_space(s@),
{
    let n = s.unicode_len();
    let mut i: usize = 0;
    while i < n
        invariant
            n == s@.len(),
            i <= n,
            forall|j: int| 0 <= j < i ==> !is_separator_or_space(#[trigger] s@[j]),
        decreases n - i,
    {
        let c = s.get_char(i);
        if char_is_whitespace(c) || c == '/' || c == '\\' || c == ':' {
            assert(is_separator_or_space(s@[i as int]));
            return true;
        }
        i = i + 1;
    }
    false
}

/// Why `value` is no slug (`label` names it in the message), if it is none.
pub open spec fn slug_error(value: Seq<char>, label: Seq<char>) -> Option<Seq<char>> {
    if is_blank(value) {
        Some(label + " cannot be empty"@)
    } else if has_separator_or_space(value) {
        Some(label + " `"@ + value + "` may not contain whitespace, slashes, or colons"@)
    } else {
        None
    }
}

/// The error that a check returns for a problem `error`.
pub open spec fn checked(r: Result<(), LocalAuthoringError>, error: Option<Seq<char>>) -> bool {
    match error {
        Some(m) => r matches Err(e) && is_validation(e, m),
        None => r is Ok,
    }
}

fn message2(a: &str, b: &str) -> (r: String)
    ensures
        r@ == a@ + b@,
{
    let mut r = a.to_owned();
    r.append(b);
    r
}

fn message4(a: &str, b: &str, c: &str, d: &str) -> (r: String)
    ensures
        r@ == a@ + b@ + c@ + d@,
{
    let mut r = a.to_owned();
    r.append(b);
    r.append(c);
    r.append(d);
    r
}

/// A slug is not blank and has no whitespace, slash, backslash or colon.
pub fn validate_slug(value: &str, label: &str) -> (r: Result<(), LocalAuthoringError>)
    ensures
        checked(r, slug_error(value@, label@)),
{
    if is_blank_str(value) {
        return Err(LocalAuthoringError::validation(message2(label, " cannot be empty")));
    }
    if find_separator_or_space(value) {
        return Err(
            LocalAuthoringError::validation(
                message4(label, " `", value, "` may not contain whitespace, slashes, or colons"),
            ),
        );
    }
    Ok(())
}

pub open spec fn is_collection_slug_char(c: char) -> bool {
    ('a' <= c && c <= 'z') || ('0' <= c && c <= '9') || c == '-'
}

pub open spec fn all_collection_slug_chars(value: Seq<char>) -> bool {
    forall|i: int| 0 <= i < value.len() ==> is_collection_slug_char(#[trigger] value[i])
}

/// Why `value` is no collection slug, if it is none.
pub open spec fn collection_slug_error(value: Seq<char>, label: Seq<char>) -> Option<Seq<char>> {
    if is_blank(value) {
        Some(label + " cannot be empty"@)
    } else if !all_collection_slug_chars(value) {
        Some(label + " must contain only lowercase letters, digits, and '-'"@)
    } else {
        None
    }
}

/// A collection slug is not blank and has only lowercase ASCII letters,
/// digits and hyphens.
pub fn validate_collection_slug(value: &str, label: &str) -> (r: Result<(), LocalAuthoringError>)
    ensures
        checked(r, collection_slug_error(value@, label@)),
{
    if is_blank_str(value) {
        return Err(LocalAuthoringError::validation(message2(label, " cannot be empty")));
    }
    let n = value.unicode_len();
    let mut i: usize = 0;
    while i < n
        invariant
            n == value@.len(),
            i <= n,
            !is_blank(value@),
            forall|j: int| 0 <= j < i ==> is_collection_slug_char(#[trigger] value@[j]),
        decreases n - i,
    {
        let c = value.get_char(i);
        if !(('a' <= c && c <= 'z') || ('0' <= c && c <= '9') || c == '-') {
            assert(!is_collection_slug_char(value@[i as int]));
            assert(!all_collection_slug_chars(value@));
            return Err(
                LocalAuthoringError::validation(
                    message2(label, " must contain only lowercase letters, digits, and '-'"),
                ),
            );
        }
        i = i + 1;
    }
    Ok(())
}

/// Why `value` is no prefixed record id (`event:example`), if it is none.
pub open spec fn prefixed_id_error(value: Seq<char>, label: Seq<char>) -> Option<Seq<char>> {
    if is_blank(value) {
        Some(label + " cannot be empty"@)
    } else if !value.contains(':') {
        Some(label + " `"@ + value + "` should be a stable id such as event:example"@)
    } else {
        None
    }
}

/// A record id is not blank and has a prefix.
pub fn validate_prefixed_id(value: &str, label: &str) -> (r: Result<(), LocalAuthoringError>)
    ensures
        checked(r, prefixed_id_error(value@, label@)),
{
    if is_blank_str(value) {
        return Err(LocalAuthoringError::validation(message2(label, " cannot be empty")));
    }
    if !contains_char(value, ':') {
        return Err(
            LocalAuthoringError::validation(
                message4(label, " `", value, "` should be a stable id such as event:example"),
            ),
        );
    }
    Ok(())
}

pub open spec fn has_whitespace(s: Seq<char>) -> bool {
    exists|i: int| 0 <= i < s.len() && is_unicode_whitespace(#[trigger] s[i])
}

pub(crate) fn find_whitespace(s: &str) -> (r: bool)
    ensures
        r == has_whitespace(s@),
{
    let n = s.unicode_len();
    let mut i: usize = 0;
    while i < n
        invariant
            n == s@.len(),
            i <= n,
            forall|j: int| 0 <= j < i ==> !is_unicode_whitespace(#[trigger] s@[j]),
        decreases n - i,
    {
        if char_is_whitespace(s.get_char(i)) {
            return true;
        }
        i = i + 1;
    }
    false
}

/// Why `value` is no record id, if it is none.
pub open spec fn record_id_error(value: Seq<char>, label: Seq<char>) -> Option<Seq<char>> {
    if is_blank(value) {
        Some(label + " cannot be empty"@)
    } else if has_whitespace(value) {
        Some(label + " `"@ + value + "` may not contain whitespace"@)
    } else {
        None
    }
}

/// A record id is not blank and has no whitespace.
pub fn validate_record_id(value: &str, label: &str) -> (r: Result<(), LocalAuthoringError>)
    ensures
        checked(r, record_id_error(value@, label@)),
{
    if is_blank_str(value) {
        return Err(LocalAuthoringError::validation(message2(label, " cannot be empty")));
    }
    if find_whitespace(value) {
        return Err(
            LocalAuthoringError::validation(
                message4(label, " `", value, "` may not contain whitespace"),
            ),
        );
    }
    Ok(())
}

/// A reference is a slug or, failing that, a record id.
pub open spec fn contextual_record_id_error(value: Seq<char>, label: Seq<char>) -> Option<
    Seq<char>,
> {
    match slug_error(value, label) {
        None => None,
        Some(_) => record_id_error(value, label),
    }
}

pub fn validate_contextual_record_id(value: &str, label: &str) -> (r: Result<
    (),
    LocalAuthoringError,
>)
    ensures
        checked(r, contextual_record_id_error(value@, label@)),
{
    match validate_slug(value, label) {
        Ok(()) => Ok(()),
        Err(_) => validate_record_id(value, label),
    }
}

/// Index of the first `c` in `s`.
pub open spec fn first_index_of(s: Seq<char>, c: char) -> Option<int>
    decreases s.len(),
{
    if s.len() == 0 {
        None
    } else {
        match first_index_of(s.drop_last(), c) {
            Some(i) => Some(i),
            None => if s.last() == c {
                Some(s.len() - 1)
            } else {
                None
            },
        }
    }
}

proof fn lemma_first_index_of(s: Seq<char>, c: char)
    ensures
        first_index_of(s, c) matches Some(i) ==> 0 <= i < s.len() && s[i] == c,
        first_index_of(s, c).is_none() ==> !s.contains(c),
    decreases s.len(),
{
    if s.len() > 0 {
        lemma_first_index_of(s.drop_last(), c);
        if first_index_of(s, c).is_none() && s.contains(c) {
            let j = choose|j: int| 0 <= j < s.len() && s[j] == c;
            assert(s.drop_last().contains(c) || j == s.len() - 1) by {
                if j < s.len() - 1 {
                    assert(s.drop_last()[j] == c);
                }
            }
        }
    }
}

pub(crate) fn find_char(s: &str, c: char) -> (r: Option<usize>)
    ensures
        r matches Some(i) ==> first_index_of(s@, c) == Some(i as int),
        r.is_none() ==> first_index_of(s@, c).is_none(),
{
    let n = s.unicode_len();
    let mut i: usize = 0;
    while i < n
        invariant
            n == s@.len(),
            i <= n,
            first_index_of(s@.take(i as int), c).is_none(),
        decreases n - i,
    {
        assert(s@.take(i + 1).drop_last() =~= s@.take(i as int));
        if s.get_char(i) == c {
            proof {
                lemma_first_index_prefix(s@, c, i + 1);
            }
            return Some(i);
        }
        i = i + 1;
    }
    assert(s@.take(n as int) =~= s@);
    None
}

proof fn lemma_first_index_prefix(s: Seq<char>, c: char, m: int)
    requires
        0 < m <= s.len(),
        s[m - 1] == c,
        first_index_of(s.take(m - 1), c).is_none(),
    ensures
        first_index_of(s, c) == Some(m - 1),
    decreases s.len(),
{
    if s.len() > m {
        assert(s.drop_last().take(m - 1) =~= s.take(m - 1));
        lemma_first_index_prefix(s.drop_last(), c, m);
    } else {
        assert(s.drop_last() =~= s.take(m - 1));
    }
}

pub open spec fn bad_id_part(part: Seq<char>) -> bool {
    is_blank(part) || has_separator_or_space(part)
}

/// Why `value` is no contextual id (`ada` or `person:ada`), if it is none.
pub open spec fn contextual_id_error(value: Seq<char>, label: Seq<char>) -> Option<Seq<char>> {
    let t = trim_seq(value);
    let part_message = label + " `"@ + value
        + "` may not contain whitespace, slashes, or empty id parts"@;
    if t.len() == 0 {
        Some(label + " cannot be empty"@)
    } else {
        match first_index_of(t, ':') {
            Some(i) => if bad_id_part(t.take(i)) || bad_id_part(t.skip(i + 1)) {
                Some(part_message)
            } else {
                None
            },
            None => if bad_id_part(t) {
                Some(part_message)
            } else {
                None
            },
        }
    }
}

fn is_bad_id_part(part: &str) -> (r: bool)
    ensures
        r == bad_id_part(part@),
{
    is_blank_str(part) || find_separator_or_space(part)
}

/// A contextual id is a slug, or a prefix and a slug around one colon.
pub fn validate_contextual_id(value: &str, label: &str) -> (r: Result<(), LocalAuthoringError>)
    ensures
        checked(r, contextual_id_error(value@, label@)),
{
    let t = trim(value);
    let t = t.as_str();
    let n = t.unicode_len();
    if n == 0 {
        return Err(LocalAuthoringError::validation(message2(label, " cannot be empty")));
    }
    let bad = match find_char(t, ':') {
        Some(i) => {
            proof {
                lemma_first_index_of(t@, ':');
            }
            let prefix = t.substring_char(0, i);
            let local = t.substring_char(i + 1, n);
            assert(prefix@ =~= t@.take(i as int));
            assert(local@ =~= t@.skip(i + 1));
            is_bad_id_part(prefix) || is_bad_id_part(local)
        },
        None => is_bad_id_part(t),
    };
    if bad {
        return Err(
            LocalAuthoringError::validation(
                message4(
                    label,
                    " `",
                    value,
                    "` may not contain whitespace, slashes, or empty id parts",
                ),
            ),
        );
    }
    Ok(())
}

} // verus!
