//! What the file name of an event record says about the event: parts of the
//! name such as `birth--person=alex--local=1900-01-01T12-04--lat=1--lng=2`
//! give its type, its person, its time and where it happened.
use vstd::prelude::*;
use crate::local_authoring::data::{
    all_digits, deref_opt, digits_value, flat_of, lookup, opt_str, spec_as_str, Flat, JsonValue,
};
use crate::local_authoring::name_hints::{lemma_lookup_update, same_but, table_set};
use crate::local_authoring::error::LocalAuthoringError;
use crate::local_authoring::event_profiles::{dd_parts, dd_split};
use crate::local_authoring::read::{file_name, file_name_exec};
use crate::local_authoring::refs::{contextual_id_error, find_char, first_index_of, validate_contextual_id};
use crate::local_authoring::summary::opt_string;
use crate::sorted_text::texts;
use crate::text::{ascii_lower, is_blank, is_blank_str, push_char, starts_with, str_eq, to_ascii_lower};
use crate::timeline_source::has_prefix;

verus! {

/// The hints of an event's file name. Coordinates keep the decimal text
/// they were written in.
#[derive(Debug, Clone, Default, PartialEq, Eq)]
pub struct EventFilenameHints {
    pub event_type: Option<String>,
    pub participant: Option<String>,
    pub time: Option<String>,
    pub time_basis: Option<String>,
    pub latitude: Option<String>,
    pub longitude: Option<String>,
}

pub struct HintsView {
    pub event_type: Option<Seq<char>>,
    pub participant: Option<Seq<char>>,
    pub time: Option<Seq<char>>,
    pub time_basis: Option<Seq<char>>,
    pub latitude: Option<Seq<char>>,
    pub longitude: Option<Seq<char>>,
}

impl View for EventFilenameHints {
    type V = HintsView;

    open spec fn view(&self) -> HintsView {
        HintsView {
            event_type: opt_string(self.event_type),
            participant: opt_string(self.participant),
            time: opt_string(self.time),
            time_basis: opt_string(self.time_basis),
            latitude: opt_string(self.latitude),
            longitude: opt_string(self.longitude),
        }
    }
}

pub open spec fn no_hints() -> HintsView {
    HintsView { event_type: None, participant: None, time: None, time_basis: None, latitude: None, longitude: None }
}

// ---------------------------------------------------------------------------
// Number texts.

/// An optional sign, then the rest.
pub open spec fn unsigned_part(v: Seq<char>) -> (bool, Seq<char>) {
    if v.len() > 0 && (v[0] == '+' || v[0] == '-') {
        (v[0] == '-', v.drop_first())
    } else {
        (false, v)
    }
}

/// A text that `i64` parsing accepts: an optional sign, then decimal
/// digits whose value fits.
pub open spec fn i64_text(v: Seq<char>) -> bool {
    let (neg, digits) = unsigned_part(v);
    &&& all_digits(digits)
    &&& if neg { digits_value(digits) <= 0x8000_0000_0000_0000 } else { digits_value(digits) <= 0x7fff_ffff_ffff_ffff }
}

pub open spec fn lower_text(v: Seq<char>) -> Seq<char> {
    v.map_values(|c: char| ascii_lower(c))
}

pub open spec fn digits_only(s: Seq<char>) -> bool {
    forall|i: int| 0 <= i < s.len() ==> '0' <= #[trigger] s[i] <= '9'
}

/// Decimal digits with at most one `.` among them, and at least one digit.
pub open spec fn mantissa_text(m: Seq<char>) -> bool {
    match first_index_of(m, '.') {
        None => m.len() > 0 && digits_only(m),
        Some(p) => digits_only(m.take(p)) && digits_only(m.skip(p + 1)) && m.len() > 1,
    }
}

/// An exponent: `e` or `E`, an optional sign, and digits.
pub open spec fn exponent_text(x: Seq<char>) -> bool {
    x.len() > 0 && (x[0] == 'e' || x[0] == 'E') && {
        let (_, d) = unsigned_part(x.drop_first());
        d.len() > 0 && digits_only(d)
    }
}

/// Where the exponent of a number text starts, if it has one.
pub open spec fn exponent_start(b: Seq<char>) -> Option<int> {
    match first_index_of(b, 'e') {
        Some(i) => match first_index_of(b.take(i), 'E') {
            Some(j) => Some(j),
            None => Some(i),
        },
        None => first_index_of(b, 'E'),
    }
}

/// A text that `f64` parsing accepts: an optional sign, then `inf`,
/// `infinity` or `nan` in any case, or a decimal number with an optional
/// exponent.
pub open spec fn float_text(v: Seq<char>) -> bool {
    let (_, b) = unsigned_part(v);
    let l = lower_text(b);
    ||| l == "inf"@
    ||| l == "infinity"@
    ||| l == "nan"@
    ||| match exponent_start(b) {
        Some(k) => mantissa_text(b.take(k)) && exponent_text(b.skip(k)),
        None => mantissa_text(b),
    }
}

fn unsigned_from(v: &str) -> (r: (bool, usize))
    ensures
        r.1 <= v@.len(),
        unsigned_part(v@) == (r.0, v@.skip(r.1 as int)),
{
    let n = v.unicode_len();
    if n > 0 {
        let c = v.get_char(0);
        if c == '+' || c == '-' {
            assert(v@.drop_first() =~= v@.skip(1));
            return (c == '-', 1);
        }
    }
    assert(v@.skip(0) =~= v@);
    (false, 0)
}

fn is_digit_run(v: &str, from: usize, to: usize) -> (r: bool)
    requires
        from <= to <= v@.len(),
    ensures
        r == digits_only(v@.subrange(from as int, to as int)),
{
    let mut i = from;
    while i < to
        invariant
            from <= i <= to,
            to <= v@.len(),
            digits_only(v@.subrange(from as int, i as int)),
        decreases to - i,
    {
        let c = v.get_char(i);
        if !('0' <= c && c <= '9') {
            assert(v@.subrange(from as int, to as int)[i - from] == c);
            return false;
        }
        assert forall|k: int| 0 <= k < i + 1 - from implies '0' <= #[trigger] v@.subrange(from as int, i + 1)[k] <= '9' by {
            if k < i - from {
                assert(v@.subrange(from as int, i + 1)[k] == v@.subrange(from as int, i as int)[k]);
            }
        }
        i = i + 1;
    }
    true
}

/// Whether `i64` parsing accepts `v`.
pub fn is_i64_text(v: &str) -> (r: bool)
    ensures
        r == i64_text(v@),
{
    let (neg, start) = unsigned_from(v);
    let n = v.unicode_len();
    if start >= n {
        return false;
    }
    assert(v@.subrange(start as int, n as int) =~= v@.skip(start as int));
    if !is_digit_run(v, start, n) {
        return false;
    }
    let limit: u64 = if neg { 0x8000_0000_0000_0000 } else { 0x7fff_ffff_ffff_ffff };
    match crate::local_authoring::data::bounded_digits(v, start, limit) {
        Some(_) => true,
        None => false,
    }
}

fn lower_of(v: &str, from: usize) -> (r: String)
    requires
        from <= v@.len(),
    ensures
        r@ == lower_text(v@.skip(from as int)),
{
    let n = v.unicode_len();
    let mut r = String::new();
    let mut i = from;
    while i < n
        invariant
            from <= i <= n,
            n == v@.len(),
            r@ == lower_text(v@.subrange(from as int, i as int)),
        decreases n - i,
    {
        push_char(&mut r, to_ascii_lower(v.get_char(i)));
        assert(lower_text(v@.subrange(from as int, i + 1)) =~= lower_text(v@.subrange(from as int, i as int)).push(ascii_lower(v@[i as int])));
        i = i + 1;
    }
    assert(v@.subrange(from as int, n as int) =~= v@.skip(from as int));
    r
}

fn first_char_from(v: &str, from: usize, to: usize, c: char) -> (r: Option<usize>)
    requires
        from <= to <= v@.len(),
    ensures
        match r {
            Some(i) => from <= i < to && first_index_of(v@.subrange(from as int, to as int), c) == Some(i - from),
            None => first_index_of(v@.subrange(from as int, to as int), c) is None,
        },
{
    let piece = substring(v, from, to);
    proof {
        lemma_first_index_range(piece@, c);
    }
    match find_char(piece.as_str(), c) {
        Some(i) => Some(from + i),
        None => None,
    }
}

fn substring(v: &str, from: usize, to: usize) -> (r: String)
    requires
        from <= to <= v@.len(),
    ensures
        r@ == v@.subrange(from as int, to as int),
{
    let mut r = String::new();
    let mut i = from;
    while i < to
        invariant
            from <= i <= to,
            to <= v@.len(),
            r@ == v@.subrange(from as int, i as int),
        decreases to - i,
    {
        push_char(&mut r, v.get_char(i));
        assert(v@.subrange(from as int, i + 1) =~= v@.subrange(from as int, i as int).push(v@[i as int]));
        i = i + 1;
    }
    r
}

proof fn lemma_first_index_range(s: Seq<char>, c: char)
    ensures
        match first_index_of(s, c) {
            Some(i) => 0 <= i < s.len() && s[i] == c && forall|j: int| 0 <= j < i ==> s[j] != c,
            None => forall|j: int| 0 <= j < s.len() ==> s[j] != c,
        },
    decreases s.len(),
{
    if s.len() > 0 {
        lemma_first_index_range(s.drop_last(), c);
        match first_index_of(s.drop_last(), c) {
            Some(i) => {
                assert(s[i] == s.drop_last()[i]);
                assert forall|j: int| 0 <= j < i implies s[j] != c by {
                    assert(s[j] == s.drop_last()[j]);
                }
            },
            None => {
                assert forall|j: int| 0 <= j < s.len() - 1 implies s[j] != c by {
                    assert(s[j] == s.drop_last()[j]);
                }
            },
        }
    }
}

fn is_mantissa(v: &str, from: usize, to: usize) -> (r: bool)
    requires
        from <= to <= v@.len(),
    ensures
        r == mantissa_text(v@.subrange(from as int, to as int)),
{
    let ghost m = v@.subrange(from as int, to as int);
    match first_char_from(v, from, to, '.') {
        None => to > from && is_digit_run(v, from, to),
        Some(p) => {
            assert(m.take(p - from) =~= v@.subrange(from as int, p as int));
            assert(m.skip(p - from + 1) =~= v@.subrange(p + 1, to as int));
            is_digit_run(v, from, p) && is_digit_run(v, p + 1, to) && to - from > 1
        },
    }
}

fn is_exponent(v: &str, from: usize) -> (r: bool)
    requires
        from <= v@.len(),
    ensures
        r == exponent_text(v@.skip(from as int)),
{
    let n = v.unicode_len();
    if from >= n {
        return false;
    }
    let c = v.get_char(from);
    if !(c == 'e' || c == 'E') {
        return false;
    }
    let mut start = from + 1;
    if start < n {
        let s = v.get_char(start);
        if s == '+' || s == '-' {
            start = start + 1;
        }
    }
    proof {
        let x = v@.skip(from as int);
        assert(x.drop_first() =~= v@.skip(from + 1));
        let (_, d) = unsigned_part(x.drop_first());
        if from + 1 < n && (v@[from + 1] == '+' || v@[from + 1] == '-') {
            assert(x.drop_first().drop_first() =~= v@.skip(start as int));
        }
        assert(d =~= v@.skip(start as int));
        assert(v@.subrange(start as int, n as int) =~= v@.skip(start as int));
    }
    start < n && is_digit_run(v, start, n)
}

/// Whether `f64` parsing accepts `v`.
pub fn is_float_text(v: &str) -> (r: bool)
    ensures
        r == float_text(v@),
{
    let (_, start) = unsigned_from(v);
    let n = v.unicode_len();
    let l = lower_of(v, start);
    let ls = l.as_str();
    if str_eq(ls, "inf") || str_eq(ls, "infinity") || str_eq(ls, "nan") {
        return true;
    }
    let ghost b = v@.skip(start as int);
    assert(v@.subrange(start as int, n as int) =~= b);
    let e = first_char_from(v, start, n, 'e');
    let k = match e {
        Some(i) => match first_char_from(v, start, i, 'E') {
            Some(j) => Some(j),
            None => Some(i),
        },
        None => first_char_from(v, start, n, 'E'),
    };
    proof {
        if let Some(i) = e {
            assert(b.take(i - start) =~= v@.subrange(start as int, i as int));
        }
    }
    match k {
        Some(k) => {
            assert(b.take(k - start) =~= v@.subrange(start as int, k as int));
            assert(b.skip(k - start) =~= v@.skip(k as int));
            is_mantissa(v, start, k) && is_exponent(v, k)
        },
        None => is_mantissa(v, start, n),
    }
}


// ---------------------------------------------------------------------------
// Parsing a file name.

/// Underscores stand for spaces.
pub open spec fn decoded(v: Seq<char>) -> Seq<char> {
    v.map_values(|c: char| if c == '_' { ' ' } else { c })
}

pub open spec fn strip_trailing_z(s: Seq<char>) -> Seq<char>
    decreases s.len(),
{
    if s.len() > 0 && s.last() == 'Z' {
        strip_trailing_z(s.drop_last())
    } else {
        s
    }
}

/// A date and time written in a file name (`1900-01-01T12-04`, maybe with
/// a final `Z`) as `1900-01-01 12:04`.
pub open spec fn filename_datetime(v: Seq<char>) -> Seq<char> {
    match first_index_of(v, 'T') {
        None => v,
        Some(i) => {
            let time = v.skip(i + 1);
            let z = time.len() > 0 && time.last() == 'Z';
            v.take(i) + " "@ + strip_trailing_z(time).map_values(|c: char| if c == '-' { ':' } else { c })
                + if z { "Z"@ } else { seq![] }
        },
    }
}

pub open spec fn set_time(h: HintsView, t: Seq<char>, basis: Seq<char>) -> HintsView {
    HintsView { time: Some(t), time_basis: Some(basis), ..h }
}

/// What one `key=value` part of a file name adds; other parts add nothing.
pub open spec fn hint_step(h: HintsView, part: Seq<char>) -> Result<HintsView, Seq<char>> {
    match first_index_of(part, '=') {
        None => Ok(h),
        Some(i) => {
            let key = part.take(i);
            let value = decoded(part.skip(i + 1));
            if key == "person"@ || key == "participant"@ {
                match contextual_id_error(value, "filename participant"@) {
                    Some(m) => Err("local data validation failed: "@ + m),
                    None => Ok(HintsView { participant: Some(value), ..h }),
                }
            } else if key == "local"@ || key == "dt"@ {
                Ok(set_time(h, filename_datetime(value), "local"@))
            } else if key == "utc"@ {
                Ok(set_time(h, filename_datetime(value), "utc"@))
            } else if key == "unix"@ {
                if i64_text(value) {
                    Ok(set_time(h, value, "unix"@))
                } else {
                    Err("filename unix value `"@ + value + "` must be an integer"@)
                }
            } else if key == "lat"@ || key == "latitude"@ {
                if float_text(value) {
                    Ok(HintsView { latitude: Some(value), ..h })
                } else {
                    Err("filename "@ + key + " value `"@ + value + "` must be a number"@)
                }
            } else if key == "lng"@ || key == "lon"@ || key == "longitude"@ {
                if float_text(value) {
                    Ok(HintsView { longitude: Some(value), ..h })
                } else {
                    Err("filename "@ + key + " value `"@ + value + "` must be a number"@)
                }
            } else {
                Ok(h)
            }
        },
    }
}

pub open spec fn hint_parts(h: HintsView, parts: Seq<Seq<char>>) -> Result<HintsView, Seq<char>>
    decreases parts.len(),
{
    if parts.len() == 0 {
        Ok(h)
    } else {
        match hint_step(h, parts[0]) {
            Ok(h2) => hint_parts(h2, parts.drop_first()),
            Err(m) => Err(m),
        }
    }
}

/// The hints of a file name without its extension: its first part is the
/// event's type (unless blank); coordinates come in pairs.
pub open spec fn spec_parse_hints(stem: Seq<char>) -> Result<HintsView, Seq<char>> {
    let parts = dd_parts(stem);
    let first = parts[0];
    let h0 = HintsView { event_type: if is_blank(first) { None } else { Some(first) }, ..no_hints() };
    match hint_parts(h0, parts.drop_first()) {
        Err(m) => Err(m),
        Ok(h) => if (h.latitude is Some) != (h.longitude is Some) {
            Err("filename latitude and longitude must be provided together"@)
        } else {
            Ok(h)
        },
    }
}

fn decode_value(v: &str) -> (r: String)
    ensures
        r@ == decoded(v@),
{
    let n = v.unicode_len();
    let mut r = String::new();
    let mut i: usize = 0;
    while i < n
        invariant
            n == v@.len(),
            i <= n,
            r@ == decoded(v@.take(i as int)),
        decreases n - i,
    {
        let c = v.get_char(i);
        push_char(&mut r, if c == '_' { ' ' } else { c });
        assert(decoded(v@.take(i + 1)) =~= decoded(v@.take(i as int)).push(if c == '_' { ' ' } else { c }));
        i = i + 1;
    }
    assert(v@.take(n as int) =~= v@);
    r
}

/// A file name's date and time as text.
pub fn parse_filename_datetime(v: &str) -> (r: String)
    ensures
        r@ == filename_datetime(v@),
{
    let n = v.unicode_len();
    let i = match find_char(v, 'T') {
        None => return v.to_owned(),
        Some(i) => i,
    };
    proof {
        lemma_first_index_range(v@, 'T');
    }
    let mut end = n;
    while end > i + 1 && v.get_char(end - 1) == 'Z'
        invariant
            i + 1 <= end <= n,
            n == v@.len(),
            i < n,
            strip_trailing_z(v@.subrange(i + 1, end as int)) == strip_trailing_z(v@.skip(i + 1)),
        decreases end,
    {
        assert(v@.subrange(i + 1, end as int).drop_last() =~= v@.subrange(i + 1, end - 1));
        end = end - 1;
    }
    proof {
        assert(v@.subrange(i + 1, n as int) =~= v@.skip(i + 1));
    }
    let ghost kept = v@.subrange(i + 1, end as int);
    assert(strip_trailing_z(kept) == kept);
    let mut r = substring(v, 0, i);
    r.append(" ");
    let ghost head = r@;
    let mut k = i + 1;
    while k < end
        invariant
            i + 1 <= k <= end,
            end <= n,
            n == v@.len(),
            r@ == head + v@.subrange(i + 1, k as int).map_values(|c: char| if c == '-' { ':' } else { c }),
        decreases end - k,
    {
        let c = v.get_char(k);
        push_char(&mut r, if c == '-' { ':' } else { c });
        assert(v@.subrange(i + 1, k + 1).map_values(|c: char| if c == '-' { ':' } else { c })
            =~= v@.subrange(i + 1, k as int).map_values(|c: char| if c == '-' { ':' } else { c }).push(if c == '-' { ':' } else { c }));
        k = k + 1;
    }
    let z = n > i + 1 && v.get_char(n - 1) == 'Z';
    if z {
        r.append("Z");
    }
    proof {
        let time = v@.skip(i + 1);
        assert(v@.take(i as int) =~= v@.subrange(0, i as int));
        if time.len() > 0 {
            assert(time.last() == v@[n - 1]);
        }
        reveal_strlit("Z");
        reveal_strlit(" ");
        assert(r@ =~= filename_datetime(v@));
    }
    r
}

fn set_text(o: &mut Option<String>, t: String)
    ensures
        opt_string(*final(o)) == Some(t@),
{
    *o = Some(t);
}

/// The hints of a file name without its extension, or why they are wrong.
pub fn parse_event_filename_hints(stem: &str) -> (r: Result<EventFilenameHints, String>)
    ensures
        match spec_parse_hints(stem@) {
            Ok(h) => r matches Ok(x) && x@ == h,
            Err(m) => r matches Err(e) && e@ == m,
        },
{
    let parts = dd_split(stem);
    proof {
        assert(texts(parts@) == dd_parts(stem@));
    }
    let mut hints = EventFilenameHints {
        event_type: None,
        participant: None,
        time: None,
        time_basis: None,
        latitude: None,
        longitude: None,
    };
    if parts.len() == 0 {
        proof {
            crate::local_authoring::event_profiles::lemma_dd_parts_nonempty(stem@);
        }
        return Ok(hints);
    }
    assert(texts(parts@)[0] == parts@[0]@);
    if !is_blank_str(parts[0].as_str()) {
        hints.event_type = Some(parts[0].clone());
    }
    let ghost rest = texts(parts@).drop_first();
    let mut i: usize = 1;
    assert(rest.skip(0) =~= rest);
    while i < parts.len()
        invariant
            1 <= i <= parts@.len(),
            rest == texts(parts@).drop_first(),
            texts(parts@) == dd_parts(stem@),
            hint_parts(hints@, rest.skip(i - 1)) == hint_parts(
                HintsView { event_type: if is_blank(texts(parts@)[0]) { None } else { Some(texts(parts@)[0]) }, ..no_hints() },
                rest,
            ),
        decreases parts@.len() - i,
    {
        let part = parts[i].as_str();
        let ghost before = hints@;
        assert(rest.skip(i - 1)[0] == part@);
        assert(rest.skip(i - 1).drop_first() =~= rest.skip(i as int));
        match find_char(part, '=') {
            None => {},
            Some(eq) => {
                proof {
                    lemma_first_index_range(part@, '=');
                }
                let key = substring(part, 0, eq);
                let n = part.unicode_len();
                let value = decode_value(substring(part, eq + 1, n).as_str());
                assert(part@.subrange(0, eq as int) =~= part@.take(eq as int));
                assert(part@.subrange(eq + 1, n as int) =~= part@.skip(eq + 1));
                let k = key.as_str();
                if str_eq(k, "person") || str_eq(k, "participant") {
                    match validate_contextual_id(value.as_str(), "filename participant") {
                        Err(e) => return Err(e.display()),
                        Ok(()) => hints.participant = Some(value),
                    }
                } else if str_eq(k, "local") || str_eq(k, "dt") {
                    set_text(&mut hints.time, parse_filename_datetime(value.as_str()));
                    set_text(&mut hints.time_basis, "local".to_owned());
                } else if str_eq(k, "utc") {
                    set_text(&mut hints.time, parse_filename_datetime(value.as_str()));
                    set_text(&mut hints.time_basis, "utc".to_owned());
                } else if str_eq(k, "unix") {
                    if !is_i64_text(value.as_str()) {
                        let mut m = "filename unix value `".to_owned();
                        m.append(value.as_str());
                        m.append("` must be an integer");
                        return Err(m);
                    }
                    set_text(&mut hints.time_basis, "unix".to_owned());
                    set_text(&mut hints.time, value);
                } else if str_eq(k, "lat") || str_eq(k, "latitude") {
                    if !is_float_text(value.as_str()) {
                        let mut m = "filename ".to_owned();
                        m.append(k);
                        m.append(" value `");
                        m.append(value.as_str());
                        m.append("` must be a number");
                        return Err(m);
                    }
                    hints.latitude = Some(value);
                } else if str_eq(k, "lng") || str_eq(k, "lon") || str_eq(k, "longitude") {
                    if !is_float_text(value.as_str()) {
                        let mut m = "filename ".to_owned();
                        m.append(k);
                        m.append(" value `");
                        m.append(value.as_str());
                        m.append("` must be a number");
                        return Err(m);
                    }
                    hints.longitude = Some(value);
                }
            },
        }
        assert(hint_step(before, part@) == Ok::<HintsView, Seq<char>>(hints@));
        i = i + 1;
    }
    assert(rest.skip(i - 1) =~= seq![]);
    if hints.latitude.is_some() != hints.longitude.is_some() {
        return Err("filename latitude and longitude must be provided together".to_owned());
    }
    Ok(hints)
}


// ---------------------------------------------------------------------------
// The hints of a path, applied to a frontmatter table.

pub open spec fn last_index_of(s: Seq<char>, c: char) -> Option<int>
    decreases s.len(),
{
    if s.len() == 0 {
        None
    } else if s.last() == c {
        Some(s.len() - 1)
    } else {
        last_index_of(s.drop_last(), c)
    }
}

/// A file name without its extension (a leading dot starts no extension).
pub open spec fn file_stem(name: Seq<char>) -> Seq<char> {
    match last_index_of(name, '.') {
        Some(i) => if i > 0 { name.take(i) } else { name },
        None => name,
    }
}

/// The hints of a record's relative path: none outside `events/`; a bad
/// hint is an error that names the path.
pub open spec fn spec_hints_for(path: Seq<char>) -> Result<HintsView, Seq<char>> {
    if has_prefix(path, "events/"@) {
        match spec_parse_hints(file_stem(file_name(path))) {
            Ok(h) => Ok(h),
            Err(m) => Err(path + ": "@ + m),
        }
    } else {
        Ok(no_hints())
    }
}

fn stem_of(name: &str) -> (r: String)
    ensures
        r@ == file_stem(name@),
{
    let n = name.unicode_len();
    let mut k: usize = n;
    assert(name@.take(n as int) =~= name@);
    while k > 0 && name.get_char(k - 1) != '.'
        invariant
            k <= n,
            n == name@.len(),
            last_index_of(name@.take(k as int), '.') == last_index_of(name@, '.'),
        decreases k,
    {
        assert(name@.take(k as int).drop_last() =~= name@.take(k - 1));
        k = k - 1;
    }
    proof {
        assert(name@.take(n as int) =~= name@);
    }
    if k > 1 {
        assert(name@.take(k as int).last() == '.');
        substring(name, 0, k - 1)
    } else {
        proof {
            if k == 1 {
                assert(name@.take(1).last() == '.');
            }
        }
        name.to_owned()
    }
}

/// The hints of a record's relative path.
pub fn event_filename_hints(relative_path: &str) -> (r: Result<EventFilenameHints, LocalAuthoringError>)
    ensures
        match spec_hints_for(relative_path@) {
            Ok(h) => r matches Ok(x) && x@ == h,
            Err(m) => r matches Err(e) && crate::local_authoring::error::is_validation(e, m),
        },
{
    if !starts_with(relative_path, "events/") {
        return Ok(EventFilenameHints {
            event_type: None,
            participant: None,
            time: None,
            time_basis: None,
            latitude: None,
            longitude: None,
        });
    }
    let name = file_name_exec(relative_path);
    let stem = stem_of(name.as_str());
    match parse_event_filename_hints(stem.as_str()) {
        Ok(h) => Ok(h),
        Err(m) => {
            let mut msg = relative_path.to_owned();
            msg.append(": ");
            msg.append(m.as_str());
            Err(LocalAuthoringError::validation(msg))
        },
    }
}

/// `b` has what `a` has at a key, else the hinted text, else nothing.
pub open spec fn or_inserted(a: Option<JsonValue>, b: Option<JsonValue>, hint: Option<Seq<char>>) -> bool {
    match a {
        Some(v) => b == Some(v),
        None => match hint {
            Some(t) => b matches Some(x) && flat_of(x) == Some(Flat::Text(t)),
            None => b is None,
        },
    }
}

/// The person of a birth record under `events/births` with an id
/// `event:birth-<person>`.
pub open spec fn birth_participant(path: Seq<char>, id: Seq<char>, kind: Seq<char>, type_text: Option<Seq<char>>) -> Option<Seq<char>> {
    if kind == "event"@ && type_text == Some("birth"@) && (path == "events/births"@ || has_prefix(path, "events/births/"@))
        && has_prefix(id, "event:birth-"@) && !is_blank(id.skip(12)) {
        Some(id.skip(12))
    } else {
        None
    }
}

/// The type of a record once hinted.
pub open spec fn hinted_type(a: Seq<(String, JsonValue)>, h: HintsView) -> Option<Seq<char>> {
    match lookup(a, "type"@) {
        Some(v) => spec_as_str(v),
        None => h.event_type,
    }
}

/// The person `self` stands for: the file name's, else a birth record's.
pub open spec fn hinted_participant(a: Seq<(String, JsonValue)>, h: HintsView, path: Seq<char>, id: Seq<char>, kind: Seq<char>) -> Option<Seq<char>> {
    match h.participant {
        Some(p) => Some(p),
        None => birth_participant(path, id, kind, hinted_type(a, h)),
    }
}

pub open spec fn is_text(v: Option<JsonValue>, t: Seq<char>) -> bool {
    v matches Some(x) && flat_of(x) == Some(Flat::Text(t))
}

/// `b` is `a` with `self` (as an id, or as a table's `entity`) read as `p`.
pub open spec fn self_replaced(a: JsonValue, b: JsonValue, p: Seq<char>) -> bool {
    match a {
        JsonValue::Str(s) => if s@ == "self"@ { flat_of(b) == Some(Flat::Text(p)) } else { b == a },
        JsonValue::Object(es) => if opt_str(lookup(es@, "entity"@)) == Some("self"@) {
            b matches JsonValue::Object(es2) && is_text(lookup(es2@, "entity"@), p) && same_but(es@, es2@, "entity"@)
        } else {
            b == a
        },
        _ => b == a,
    }
}

pub open spec fn participants_replaced(a: Option<JsonValue>, b: Option<JsonValue>, p: Seq<char>) -> bool {
    match a {
        Some(JsonValue::Array(items)) => b matches Some(JsonValue::Array(items2)) && items2@.len() == items@.len()
            && forall|i: int| 0 <= i < items@.len() ==> self_replaced(items@[i], #[trigger] items2@[i], p),
        _ => b == a,
    }
}

/// A coordinate kept when there is one, else the hinted number.
pub open spec fn num_or_kept(a: Option<JsonValue>, b: Option<JsonValue>, t: Seq<char>) -> bool {
    match a {
        Some(v) => b == Some(v),
        None => b matches Some(x) && flat_of(x) == Some(Flat::Num(t)),
    }
}

/// The `location` once the file name's coordinates are merged in.
pub open spec fn location_merged(a: Option<JsonValue>, b: Option<JsonValue>, lat: Seq<char>, lng: Seq<char>) -> bool {
    match a {
        Some(JsonValue::Object(es)) => b matches Some(JsonValue::Object(es2))
            && num_or_kept(lookup(es@, "latitude"@), lookup(es2@, "latitude"@), lat)
            && num_or_kept(lookup(es@, "longitude"@), lookup(es2@, "longitude"@), lng)
            && forall|k: Seq<char>| k != "latitude"@ && k != "longitude"@ ==> #[trigger] lookup(es2@, k) == lookup(es@, k),
        Some(JsonValue::Str(label)) => b matches Some(v) && crate::local_authoring::data::is_flat_object(v, seq![
            ("label"@, Flat::Text(label@)),
            ("latitude"@, Flat::Num(lat)),
            ("longitude"@, Flat::Num(lng)),
        ]),
        Some(v) => b == Some(v),
        None => b matches Some(v) && crate::local_authoring::data::is_flat_object(v, seq![
            ("latitude"@, Flat::Num(lat)),
            ("longitude"@, Flat::Num(lng)),
        ]),
    }
}

/// The keys the hints may change.
pub open spec fn hint_key(k: Seq<char>) -> bool {
    k == "type"@ || k == "time"@ || k == "time_basis"@ || k == "subject"@ || k == "participants"@ || k == "location"@
}

/// `b` is the table `a` of the record `id` of kind `kind` at `path` with
/// the hints `h` applied: the type, time and time basis it lacks; `self`
/// read as the hinted person, who becomes the subject when the record
/// names no one; and the coordinates merged into its location when it has
/// no `places`.
pub open spec fn hints_applied(a: Seq<(String, JsonValue)>, b: Seq<(String, JsonValue)>, h: HintsView, path: Seq<char>, id: Seq<char>, kind: Seq<char>) -> bool {
    let p = hinted_participant(a, h, path, id, kind);
    &&& forall|k: Seq<char>| !hint_key(k) ==> #[trigger] lookup(b, k) == lookup(a, k)
    &&& or_inserted(lookup(a, "type"@), lookup(b, "type"@), h.event_type)
    &&& or_inserted(lookup(a, "time"@), lookup(b, "time"@), h.time)
    &&& or_inserted(lookup(a, "time_basis"@), lookup(b, "time_basis"@), h.time_basis)
    &&& match p {
        None => lookup(b, "subject"@) == lookup(a, "subject"@) && lookup(b, "participants"@) == lookup(a, "participants"@),
        Some(p) => if lookup(a, "participants"@) is None && lookup(a, "subject"@) is None {
            is_text(lookup(b, "subject"@), p) && lookup(b, "participants"@) is None
        } else {
            &&& (if opt_str(lookup(a, "subject"@)) == Some("self"@) {
                is_text(lookup(b, "subject"@), p)
            } else {
                lookup(b, "subject"@) == lookup(a, "subject"@)
            })
            &&& participants_replaced(lookup(a, "participants"@), lookup(b, "participants"@), p)
        },
    }
    &&& match (h.latitude, h.longitude) {
        (Some(lat), Some(lng)) => if lookup(a, "places"@) is None {
            location_merged(lookup(a, "location"@), lookup(b, "location"@), lat, lng)
        } else {
            lookup(b, "location"@) == lookup(a, "location"@)
        },
        _ => lookup(b, "location"@) == lookup(a, "location"@),
    }
}


/// Puts `v` at position `i`, keeping its key; gives the value it replaces.
fn swap_value(es: &mut Vec<(String, JsonValue)>, i: usize, v: JsonValue) -> (r: JsonValue)
    requires
        i < old(es)@.len(),
    ensures
        final(es)@ == old(es)@.update(i as int, (old(es)@[i as int].0, v)),
        r == old(es)@[i as int].1,
{
    let (k, old_v) = es.remove(i);
    es.insert(i, (k, v));
    assert(es@ =~= old(es)@.update(i as int, (old(es)@[i as int].0, v)));
    old_v
}

/// Sets `key` to the text `v` when the table has no `key` and `v` is given.
fn or_insert_text(es: &mut Vec<(String, JsonValue)>, key: &str, v: &Option<String>)
    ensures
        or_inserted(lookup(old(es)@, key@), lookup(final(es)@, key@), opt_string(*v)),
        same_but(old(es)@, final(es)@, key@),
{
    match crate::local_authoring::read::key_index_exec(es, key) {
        Some(_) => {
            proof {
                crate::local_authoring::read::lemma_key_index(es@, key@);
            }
        },
        None => {
            proof {
                crate::local_authoring::read::lemma_key_index(es@, key@);
            }
            match v {
                Some(t) => table_set(es, key, JsonValue::Str(t.clone())),
                None => {},
            }
        },
    }
}

fn text_at<'a>(es: &'a Vec<(String, JsonValue)>, key: &str) -> (r: Option<&'a str>)
    ensures
        crate::local_authoring::summary::opt_text(r) == opt_str(lookup(es@, key@)),
{
    match crate::local_authoring::data::get_entry(es, key) {
        Some(v) => v.as_str(),
        None => None,
    }
}

/// The person of a birth record, from its id.
fn infer_birth_participant(path: &str, id: &str, kind: &str, table: &Vec<(String, JsonValue)>) -> (r: Option<String>)
    ensures
        opt_string(r) == birth_participant(path@, id@, kind@, opt_str(lookup(table@, "type"@))),
{
    if !str_eq(kind, "event") {
        return None;
    }
    let is_birth = match text_at(table, "type") {
        Some(t) => str_eq(t, "birth"),
        None => false,
    };
    if !is_birth {
        return None;
    }
    if !(str_eq(path, "events/births") || starts_with(path, "events/births/")) {
        return None;
    }
    if !starts_with(id, "event:birth-") {
        return None;
    }
    proof {
        reveal_strlit("event:birth-");
    }
    let n = id.unicode_len();
    let slug = substring(id, 12, n);
    assert(id@.subrange(12, n as int) =~= id@.skip(12));
    if is_blank_str(slug.as_str()) {
        None
    } else {
        Some(slug)
    }
}

/// Reads `self` in one participant entry as `p`.
fn replace_self_item(v: JsonValue, p: &str) -> (r: JsonValue)
    ensures
        self_replaced(v, r, p@),
{
    match v {
        JsonValue::Str(s) => {
            if str_eq(s.as_str(), "self") {
                JsonValue::Str(p.to_owned())
            } else {
                JsonValue::Str(s)
            }
        },
        JsonValue::Object(es) => {
            let is_self = match text_at(&es, "entity") {
                Some(e) => str_eq(e, "self"),
                None => false,
            };
            if is_self {
                let mut es = es;
                table_set(&mut es, "entity", JsonValue::Str(p.to_owned()));
                JsonValue::Object(es)
            } else {
                JsonValue::Object(es)
            }
        },
        other => other,
    }
}

fn replace_self_items(items: Vec<JsonValue>, p: &str) -> (r: Vec<JsonValue>)
    ensures
        r@.len() == items@.len(),
        forall|i: int| 0 <= i < items@.len() ==> self_replaced(items@[i], #[trigger] r@[i], p@),
{
    let ghost orig = items@;
    let mut items = items;
    let mut j: usize = 0;
    while j < items.len()
        invariant
            items@.len() == orig.len(),
            j <= items@.len(),
            forall|i: int| 0 <= i < j ==> self_replaced(orig[i], #[trigger] items@[i], p@),
            forall|i: int| j <= i < orig.len() ==> #[trigger] items@[i] == orig[i],
        decreases items@.len() - j,
    {
        let it = items.remove(j);
        let nv = replace_self_item(it, p);
        items.insert(j, nv);
        j = j + 1;
    }
    items
}

/// Reads `self` among the participants as `p`.
fn replace_self_participants(table: &mut Vec<(String, JsonValue)>, p: &str)
    ensures
        participants_replaced(lookup(old(table)@, "participants"@), lookup(final(table)@, "participants"@), p@),
        same_but(old(table)@, final(table)@, "participants"@),
{
    proof {
        crate::local_authoring::read::lemma_key_index(table@, "participants"@);
    }
    let i = match crate::local_authoring::read::key_index_exec(table, "participants") {
        Some(i) => i,
        None => return,
    };
    let ghost t0 = table@;
    let v = swap_value(table, i, JsonValue::Null);
    let nv = match v {
        JsonValue::Array(items) => JsonValue::Array(replace_self_items(items, p)),
        other => other,
    };
    let ghost nvv = nv;
    swap_value(table, i, nv);
    proof {
        assert(table@ == t0.update(i as int, (t0[i as int].0, nvv)));
        assert forall|k: Seq<char>| #![trigger lookup(table@, k)] true implies lookup(table@, k) == if k == "participants"@ {
            Some(nvv)
        } else {
            lookup(t0, k)
        } by {
            lemma_lookup_update(t0, i as int, (t0[i as int].0, nvv), k);
        }
    }
}

/// Reads a `self` subject as `p`.
fn replace_self_subject(table: &mut Vec<(String, JsonValue)>, p: &str)
    ensures
        if opt_str(lookup(old(table)@, "subject"@)) == Some("self"@) {
            is_text(lookup(final(table)@, "subject"@), p@) && same_but(old(table)@, final(table)@, "subject"@)
        } else {
            final(table)@ == old(table)@
        },
{
    let is_self = match text_at(table, "subject") {
        Some(s) => str_eq(s, "self"),
        None => false,
    };
    if is_self {
        table_set(table, "subject", JsonValue::Str(p.to_owned()));
    }
}

fn number_entry(key: &str, t: &String) -> (e: (String, JsonValue))
    ensures
        e.0@ == key@,
        flat_of(e.1) == Some(Flat::Num(t@)),
{
    (key.to_owned(), JsonValue::Number(t.clone()))
}

fn or_insert_number(es: &mut Vec<(String, JsonValue)>, key: &str, t: &String)
    ensures
        num_or_kept(lookup(old(es)@, key@), lookup(final(es)@, key@), t@),
        same_but(old(es)@, final(es)@, key@),
{
    proof {
        crate::local_authoring::read::lemma_key_index(es@, key@);
    }
    if crate::local_authoring::read::key_index_exec(es, key).is_none() {
        table_set(es, key, JsonValue::Number(t.clone()));
    }
}

/// Merges the coordinates into the record's `location`.
fn merge_coordinates(table: &mut Vec<(String, JsonValue)>, lat: &String, lng: &String)
    ensures
        location_merged(lookup(old(table)@, "location"@), lookup(final(table)@, "location"@), lat@, lng@),
        same_but(old(table)@, final(table)@, "location"@),
{
    proof {
        crate::local_authoring::read::lemma_key_index(table@, "location"@);
    }
    let i = match crate::local_authoring::read::key_index_exec(table, "location") {
        Some(i) => i,
        None => {
            let mut es: Vec<(String, JsonValue)> = Vec::new();
            es.push(number_entry("latitude", lat));
            es.push(number_entry("longitude", lng));
            let ghost f = seq![("latitude"@, Flat::Num(lat@)), ("longitude"@, Flat::Num(lng@))];
            assert(es@[0].0@ == f[0].0);
            assert(es@[1].0@ == f[1].0);
            assert(crate::local_authoring::data::entries_are(es@, f));
            table_set(table, "location", JsonValue::Object(es));
            return;
        },
    };
    let ghost t0 = table@;
    let v = swap_value(table, i, JsonValue::Null);
    let nv = match v {
        JsonValue::Object(es) => {
            let mut es = es;
            let ghost e0 = es@;
            or_insert_number(&mut es, "latitude", lat);
            let ghost e1 = es@;
            or_insert_number(&mut es, "longitude", lng);
            proof {
                reveal_strlit("latitude");
                reveal_strlit("longitude");
                assert("latitude"@.len() != "longitude"@.len());
                assert forall|k: Seq<char>| k != "latitude"@ && k != "longitude"@ implies #[trigger] lookup(es@, k) == lookup(e0, k) by {
                    assert(lookup(es@, k) == lookup(e1, k));
                    assert(lookup(e1, k) == lookup(e0, k));
                }
                assert(lookup(es@, "latitude"@) == lookup(e1, "latitude"@));
            }
            JsonValue::Object(es)
        },
        JsonValue::Str(label) => {
            let mut es: Vec<(String, JsonValue)> = Vec::new();
            let ghost lv = label@;
            es.push(("label".to_owned(), JsonValue::Str(label)));
            es.push(number_entry("latitude", lat));
            es.push(number_entry("longitude", lng));
            let ghost f = seq![("label"@, Flat::Text(lv)), ("latitude"@, Flat::Num(lat@)), ("longitude"@, Flat::Num(lng@))];
            assert(es@[0].0@ == f[0].0);
            assert(es@[1].0@ == f[1].0);
            assert(es@[2].0@ == f[2].0);
            assert(crate::local_authoring::data::entries_are(es@, f));
            JsonValue::Object(es)
        },
        other => other,
    };
    let ghost nvv = nv;
    swap_value(table, i, nv);
    proof {
        assert(table@ == t0.update(i as int, (t0[i as int].0, nvv)));
        assert forall|k: Seq<char>| #![trigger lookup(table@, k)] true implies lookup(table@, k) == if k == "location"@ {
            Some(nvv)
        } else {
            lookup(t0, k)
        } by {
            lemma_lookup_update(t0, i as int, (t0[i as int].0, nvv), k);
        }
    }
}

/// Applies the hints of a record's path to its frontmatter table.
#[verifier::rlimit(40)]
pub fn apply_event_filename_hints(relative_path: &str, id: &str, kind: &str, table: &mut Vec<(String, JsonValue)>) -> (r: Result<(), LocalAuthoringError>)
    ensures
        match spec_hints_for(relative_path@) {
            Err(m) => r matches Err(e) && crate::local_authoring::error::is_validation(e, m) && final(table)@ == old(table)@,
            Ok(h) => r is Ok && hints_applied(old(table)@, final(table)@, h, relative_path@, id@, kind@),
        },
{
    let hints = event_filename_hints(relative_path)?;
    let ghost h = hints@;
    let ghost t0 = table@;
    proof {
        reveal_strlit("type");
        reveal_strlit("time");
        reveal_strlit("time_basis");
        reveal_strlit("subject");
        reveal_strlit("participants");
        reveal_strlit("location");
        reveal_strlit("places");
        assert("type"@[1] != "time"@[1]);
        assert("type"@.len() == 4 && "time"@.len() == 4 && "time_basis"@.len() == 10 && "subject"@.len() == 7);
        assert("participants"@.len() == 12 && "location"@.len() == 8 && "places"@.len() == 6);
    }
    or_insert_text(table, "type", &hints.event_type);
    let ghost t1 = table@;
    or_insert_text(table, "time", &hints.time);
    let ghost t2 = table@;
    or_insert_text(table, "time_basis", &hints.time_basis);
    let ghost t3 = table@;
    proof {
        assert(opt_str(lookup(t3, "type"@)) == hinted_type(t0, h)) by {
            assert(lookup(t3, "type"@) == lookup(t2, "type"@));
            assert(lookup(t2, "type"@) == lookup(t1, "type"@));
        }
        assert(lookup(t3, "subject"@) == lookup(t0, "subject"@));
        assert(lookup(t3, "participants"@) == lookup(t0, "participants"@));
    }
    let participant = match &hints.participant {
        Some(p) => Some(p.clone()),
        None => infer_birth_participant(relative_path, id, kind, table),
    };
    assert(opt_string(participant) == hinted_participant(t0, h, relative_path@, id@, kind@));
    if let Some(p) = &participant {
        replace_self_subject(table, p.as_str());
        let ghost t4 = table@;
        let has_participants = crate::local_authoring::data::get_entry(table, "participants").is_some();
        let has_subject = crate::local_authoring::data::get_entry(table, "subject").is_some();
        if !has_participants && !has_subject {
            table_set(table, "subject", JsonValue::Str(p.clone()));
        } else {
            replace_self_participants(table, p.as_str());
            proof {
                assert(lookup(table@, "subject"@) == lookup(t4, "subject"@));
            }
        }
    }
    let ghost t5 = table@;
    proof {
        assert(lookup(t5, "places"@) == lookup(t0, "places"@));
        assert(lookup(t5, "location"@) == lookup(t0, "location"@));
    }
    if hints.latitude.is_some() || hints.longitude.is_some() {
        if crate::local_authoring::data::get_entry(table, "places").is_none() {
            match (&hints.latitude, &hints.longitude) {
                (Some(lat), Some(lng)) => merge_coordinates(table, lat, lng),
                _ => {},
            }
        }
    }
    proof {
        assert forall|k: Seq<char>| !hint_key(k) implies #[trigger] lookup(table@, k) == lookup(t0, k) by {
            assert(lookup(table@, k) == lookup(t5, k));
            assert(lookup(t3, k) == lookup(t0, k));
        }
    }
    Ok(())
}

} // verus!
