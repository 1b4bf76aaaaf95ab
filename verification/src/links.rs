//! The web links written in a note's text.
use vstd::prelude::*;
use crate::local_authoring::skeleton::{spec_words, string_views, words};
use crate::text::starts_with;
use crate::timeline_source::has_prefix;

verus! {

/// The punctuation that may surround a link in prose.
pub open spec fn is_link_punct(c: char) -> bool {
    c == '(' || c == ')' || c == '[' || c == ']' || c == '{' || c == '}' || c == '<' || c == '>'
        || c == '"' || c == '\'' || c == ',' || c == '.' || c == ';' || c == ':'
}

fn is_link_punct_exec(c: char) -> (b: bool)
    ensures
        b == is_link_punct(c),
{
    c == '(' || c == ')' || c == '[' || c == ']' || c == '{' || c == '}' || c == '<' || c == '>'
        || c == '"' || c == '\'' || c == ',' || c == '.' || c == ';' || c == ':'
}

/// Leading punctuation count.
pub open spec fn lead_punct(s: Seq<char>) -> nat
    decreases s.len(),
{
    if s.len() > 0 && is_link_punct(s[0]) {
        1 + lead_punct(s.drop_first())
    } else {
        0
    }
}

/// Trailing punctuation count.
pub open spec fn trail_punct(s: Seq<char>) -> nat
    decreases s.len(),
{
    if s.len() > 0 && is_link_punct(s.last()) {
        1 + trail_punct(s.drop_last())
    } else {
        0
    }
}

/// A word without the punctuation around it.
pub open spec fn trim_punct(s: Seq<char>) -> Seq<char> {
    let a = s.skip(lead_punct(s) as int);
    a.take(a.len() - trail_punct(a))
}

/// A web link: text starting with `http://` or `https://`.
pub open spec fn is_link(t: Seq<char>) -> bool {
    has_prefix(t, "http://"@) || has_prefix(t, "https://"@)
}

/// The links among words, in order.
pub open spec fn links_of(ws: Seq<Seq<char>>) -> Seq<Seq<char>>
    decreases ws.len(),
{
    if ws.len() == 0 {
        seq![]
    } else {
        links_of(ws.drop_last()) + if is_link(trim_punct(ws.last())) {
            seq![trim_punct(ws.last())]
        } else {
            seq![]
        }
    }
}

/// The links of a text, at most `limit` of them (at most one when the
/// limit is zero: the search stops once a found link reaches the limit).
pub open spec fn text_links(text: Seq<char>, limit: nat) -> Seq<Seq<char>> {
    let all = links_of(spec_words(text));
    let cap: int = if limit == 0 { 1 } else { limit as int };
    if all.len() <= cap {
        all
    } else {
        all.take(cap)
    }
}

proof fn lemma_lead_punct_bound(s: Seq<char>)
    ensures
        lead_punct(s) <= s.len(),
        forall|j: int| 0 <= j < lead_punct(s) ==> is_link_punct(#[trigger] s[j]),
        lead_punct(s) < s.len() ==> !is_link_punct(s[lead_punct(s) as int]),
    decreases s.len(),
{
    if s.len() > 0 && is_link_punct(s[0]) {
        lemma_lead_punct_bound(s.drop_first());
        assert forall|j: int| 0 <= j < lead_punct(s) implies is_link_punct(#[trigger] s[j]) by {
            if j > 0 {
                assert(s[j] == s.drop_first()[j - 1]);
            }
        }
    }
}

proof fn lemma_trail_punct_bound(s: Seq<char>)
    ensures
        trail_punct(s) <= s.len(),
        forall|j: int| s.len() - trail_punct(s) <= j < s.len() ==> is_link_punct(#[trigger] s[j]),
        trail_punct(s) < s.len() ==> !is_link_punct(s[s.len() - trail_punct(s) - 1]),
    decreases s.len(),
{
    if s.len() > 0 && is_link_punct(s.last()) {
        lemma_trail_punct_bound(s.drop_last());
        assert forall|j: int| s.len() - trail_punct(s) <= j < s.len() implies is_link_punct(#[trigger] s[j]) by {
            if j < s.len() - 1 {
                assert(s[j] == s.drop_last()[j]);
            }
        }
    }
}

fn count_lead_punct(s: &str) -> (r: usize)
    ensures
        r == lead_punct(s@),
{
    let n = s.unicode_len();
    let mut i: usize = 0;
    proof { lemma_lead_punct_bound(s@); }
    while i < n && is_link_punct_exec(s.get_char(i))
        invariant
            n == s@.len(),
            i <= lead_punct(s@),
            lead_punct(s@) <= n,
            forall|j: int| 0 <= j < lead_punct(s@) ==> is_link_punct(#[trigger] s@[j]),
            lead_punct(s@) < n ==> !is_link_punct(s@[lead_punct(s@) as int]),
        decreases n - i,
    {
        i = i + 1;
    }
    i
}

fn count_trail_punct(s: &str) -> (r: usize)
    ensures
        r == trail_punct(s@),
{
    let n = s.unicode_len();
    let mut k: usize = 0;
    proof { lemma_trail_punct_bound(s@); }
    while k < n && is_link_punct_exec(s.get_char(n - 1 - k))
        invariant
            n == s@.len(),
            k <= trail_punct(s@),
            trail_punct(s@) <= n,
            forall|j: int| n - trail_punct(s@) <= j < n ==> is_link_punct(#[trigger] s@[j]),
            trail_punct(s@) < n ==> !is_link_punct(s@[n - trail_punct(s@) - 1]),
        decreases n - k,
    {
        k = k + 1;
    }
    k
}

fn trim_punct_exec(s: &str) -> (r: String)
    ensures
        r@ == trim_punct(s@),
{
    let n = s.unicode_len();
    let a = count_lead_punct(s);
    proof { lemma_lead_punct_bound(s@); }
    let head = s.substring_char(a, n);
    assert(head@ == s@.skip(lead_punct(s@) as int));
    let m = head.unicode_len();
    let b = count_trail_punct(head);
    proof { lemma_trail_punct_bound(head@); }
    let body = head.substring_char(0, m - b);
    assert(body@ == head@.take(m - b));
    body.to_owned()
}

/// The `http://` and `https://` links of a text, in order, without the
/// punctuation around them; the search stops once `limit` are found (or
/// after the first when `limit` is zero).
pub fn extract_links(text: &str, limit: usize) -> (r: Vec<String>)
    ensures
        string_views(r@) == text_links(text@, limit as nat),
{
    let ws = words(text);
    let ghost all = spec_words(text@);
    let mut out: Vec<String> = Vec::new();
    let mut i: usize = 0;
    while i < ws.len()
        invariant
            i <= ws@.len(),
            all == spec_words(text@),
            string_views(ws@) == all,
            string_views(out@) == links_of(all.take(i as int)),
            out@.len() == 0 || out@.len() < limit,
        decreases ws@.len() - i,
    {
        assert(all.take(i as int + 1).drop_last() =~= all.take(i as int));
        assert(all.take(i as int + 1).last() == all[i as int]);
        assert(all[i as int] == ws@[i as int]@);
        let t = trim_punct_exec(ws[i].as_str());
        let ghost before = out@;
        let found = starts_with(t.as_str(), "http://") || starts_with(t.as_str(), "https://");
        if found {
            out.push(t);
            assert(string_views(out@) =~= string_views(before).push(trim_punct(all[i as int])));
            assert(string_views(out@) == links_of(all.take(i as int + 1)));
            if out.len() >= limit {
                proof {
                    lemma_links_prefix(all, i as int + 1);
                }
                return out;
            }
        } else {
            assert(string_views(out@) =~= string_views(before));
        }
        i += 1;
    }
    assert(all.take(ws@.len() as int) =~= all);
    out
}

/// The links of a prefix of the words begin the links of all of them.
proof fn lemma_links_prefix(ws: Seq<Seq<char>>, n: int)
    requires
        0 <= n <= ws.len(),
    ensures
        links_of(ws.take(n)).len() <= links_of(ws).len(),
        links_of(ws).take(links_of(ws.take(n)).len() as int) == links_of(ws.take(n)),
    decreases ws.len() - n,
{
    if n < ws.len() {
        lemma_links_prefix(ws, n + 1);
        assert(ws.take(n + 1).drop_last() =~= ws.take(n));
        let a = links_of(ws.take(n));
        let b = links_of(ws.take(n + 1));
        assert(b.take(a.len() as int) =~= a);
        assert(links_of(ws).take(a.len() as int) =~= b.take(a.len() as int));
    } else {
        assert(ws.take(n) =~= ws);
        assert(links_of(ws).take(links_of(ws).len() as int) =~= links_of(ws));
    }
}

} // verus!
