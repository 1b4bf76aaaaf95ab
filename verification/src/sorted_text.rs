//! Text in sorted order: the order of `str` (code point by code point, a
//! prefix first) and lists of distinct texts kept in that order.
use vstd::prelude::*;
use crate::text::str_eq;

verus! {

/// `a` sorts strictly before `b`.
pub open spec fn text_lt(a: Seq<char>, b: Seq<char>) -> bool
    decreases a.len(),
{
    if b.len() == 0 {
        false
    } else if a.len() == 0 {
        true
    } else if a[0] != b[0] {
        a[0] < b[0]
    } else {
        text_lt(a.drop_first(), b.drop_first())
    }
}

pub proof fn lemma_text_lt_irreflexive(a: Seq<char>)
    ensures
        !text_lt(a, a),
    decreases a.len(),
{
    if a.len() > 0 {
        lemma_text_lt_irreflexive(a.drop_first());
    }
}

pub proof fn lemma_text_lt_transitive(a: Seq<char>, b: Seq<char>, c: Seq<char>)
    requires
        text_lt(a, b),
        text_lt(b, c),
    ensures
        text_lt(a, c),
    decreases a.len(),
{
    if a.len() > 0 && b.len() > 0 && c.len() > 0 && a[0] == b[0] && b[0] == c[0] {
        lemma_text_lt_transitive(a.drop_first(), b.drop_first(), c.drop_first());
    }
}

pub proof fn lemma_text_lt_total(a: Seq<char>, b: Seq<char>)
    requires
        a != b,
    ensures
        text_lt(a, b) || text_lt(b, a),
    decreases a.len(),
{
    if a.len() == 0 || b.len() == 0 {
        if a.len() == 0 && b.len() == 0 {
            assert(a =~= b);
        }
    } else if a[0] == b[0] {
        if a.drop_first() == b.drop_first() {
            assert(a =~= seq![a[0]] + a.drop_first());
            assert(b =~= seq![b[0]] + b.drop_first());
        }
        lemma_text_lt_total(a.drop_first(), b.drop_first());
    } else {
        assert(a[0] < b[0] || b[0] < a[0]);
    }
}

pub proof fn lemma_text_lt_asymmetric(a: Seq<char>, b: Seq<char>)
    requires
        text_lt(a, b),
    ensures
        !text_lt(b, a),
{
    if text_lt(b, a) {
        lemma_text_lt_transitive(a, b, a);
        lemma_text_lt_irreflexive(a);
    }
}

/// Whether `a` sorts strictly before `b`.
pub fn str_lt(a: &str, b: &str) -> (r: bool)
    ensures
        r == text_lt(a@, b@),
{
    let n = a.unicode_len();
    let m = b.unicode_len();
    let mut i: usize = 0;
    assert(a@.skip(0) =~= a@);
    assert(b@.skip(0) =~= b@);
    while i < n && i < m
        invariant
            n == a@.len(),
            m == b@.len(),
            i <= n,
            i <= m,
            text_lt(a@, b@) == text_lt(a@.skip(i as int), b@.skip(i as int)),
        decreases n - i,
    {
        let x = a.get_char(i);
        let y = b.get_char(i);
        if x != y {
            return x < y;
        }
        assert(a@.skip(i as int).drop_first() =~= a@.skip(i as int + 1));
        assert(b@.skip(i as int).drop_first() =~= b@.skip(i as int + 1));
        i = i + 1;
    }
    i == n && i < m
}

/// The texts of a list of strings.
pub open spec fn texts(v: Seq<String>) -> Seq<Seq<char>> {
    v.map_values(|s: String| s@)
}

/// Each text sorts strictly before the ones after it (so none repeats).
pub open spec fn strictly_sorted(v: Seq<Seq<char>>) -> bool {
    forall|i: int, j: int| 0 <= i < j < v.len() ==> text_lt(#[trigger] v[i], #[trigger] v[j])
}

/// Adds `s` to a strictly sorted list of texts, where it belongs; a text
/// that is there already is not added again.
pub fn insert_sorted(v: &mut Vec<String>, s: String)
    requires
        strictly_sorted(texts(old(v)@)),
    ensures
        strictly_sorted(texts(final(v)@)),
        texts(final(v)@).to_set() == texts(old(v)@).to_set().insert(s@),
{
    let n = v.len();
    let mut p: usize = 0;
    while p < n
        invariant
            n == v@.len(),
            p <= n,
            forall|k: int| 0 <= k < p ==> text_lt(#[trigger] texts(v@)[k], s@),
        ensures
            p <= n,
            forall|k: int| 0 <= k < p ==> text_lt(#[trigger] texts(v@)[k], s@),
            p < n ==> !text_lt(texts(v@)[p as int], s@),
        decreases n - p,
    {
        if !str_lt(v[p].as_str(), s.as_str()) {
            break;
        }
        p = p + 1;
    }
    let ghost before = texts(v@);
    if p < n && str_eq(v[p].as_str(), s.as_str()) {
        assert(before.to_set().insert(s@) =~= before.to_set()) by {
            assert(before[p as int] == s@);
        }
        return;
    }
    proof {
        if p < n {
            assert(!text_lt(before[p as int], s@));
            assert(before[p as int] != s@);
            lemma_text_lt_total(before[p as int], s@);
        }
    }
    v.insert(p, s);
    proof {
        let after = texts(v@);
        assert(after =~= before.take(p as int).push(s@) + before.skip(p as int));
        assert forall|i: int, j: int| 0 <= i < j < after.len() implies text_lt(
            #[trigger] after[i],
            #[trigger] after[j],
        ) by {
            if j < p {
                assert(after[i] == before[i] && after[j] == before[j]);
            } else if j == p {
                assert(after[i] == before[i]);
            } else if i == p {
                assert(after[j] == before[j - 1]);
                if j - 1 > p {
                    lemma_text_lt_transitive(s@, before[p as int], before[j - 1]);
                }
            } else if i < p {
                assert(after[i] == before[i] && after[j] == before[j - 1]);
            } else {
                assert(after[i] == before[i - 1] && after[j] == before[j - 1]);
            }
        }
        assert(after.to_set() =~= before.to_set().insert(s@)) by {
            assert forall|x: Seq<char>| after.to_set().contains(x) implies before.to_set().insert(
                s@,
            ).contains(x) by {
                let k = choose|k: int| 0 <= k < after.len() && after[k] == x;
                if k < p {
                    assert(after[k] == before[k]);
                } else if k > p {
                    assert(after[k] == before[k - 1]);
                }
            }
            assert forall|x: Seq<char>| before.to_set().insert(s@).contains(x) implies after.to_set().contains(
                x,
            ) by {
                if x == s@ {
                    assert(after[p as int] == x);
                } else {
                    let k = choose|k: int| 0 <= k < before.len() && before[k] == x;
                    if k < p {
                        assert(after[k] == x);
                    } else {
                        assert(after[k + 1] == x);
                    }
                }
            }
        }
    }
}

/// Two strictly sorted lists of the same texts are the same list.
pub proof fn lemma_sorted_unique(a: Seq<Seq<char>>, b: Seq<Seq<char>>)
    requires
        strictly_sorted(a),
        strictly_sorted(b),
        a.to_set() == b.to_set(),
    ensures
        a == b,
    decreases a.len(),
{
    if a.len() == 0 {
        if b.len() > 0 {
            assert(b.to_set().contains(b[0]));
        }
        assert(a =~= b);
    } else if b.len() == 0 {
        assert(a.to_set().contains(a[0]));
    } else {
        assert(a.to_set().contains(a[0]));
        assert(b.to_set().contains(b[0]));
        let j = choose|j: int| 0 <= j < b.len() && b[j] == a[0];
        let k = choose|k: int| 0 <= k < a.len() && a[k] == b[0];
        if j > 0 {
            assert(text_lt(b[0], b[j]));
            if k > 0 {
                assert(text_lt(a[0], a[k]));
                lemma_text_lt_transitive(a[0], b[0], a[0]);
            }
            lemma_text_lt_irreflexive(a[0]);
        }
        assert(a[0] == b[0]);
        let a1 = a.drop_first();
        let b1 = b.drop_first();
        assert forall|x: Seq<char>| a1.to_set().contains(x) == b1.to_set().contains(x) by {
            if a1.to_set().contains(x) {
                let i = choose|i: int| 0 <= i < a1.len() && a1[i] == x;
                assert(text_lt(a[0], a[i + 1]));
                assert(b.to_set().contains(x));
                let m = choose|m: int| 0 <= m < b.len() && b[m] == x;
                if m == 0 {
                    lemma_text_lt_irreflexive(x);
                }
                assert(b1[m - 1] == x);
            }
            if b1.to_set().contains(x) {
                let i = choose|i: int| 0 <= i < b1.len() && b1[i] == x;
                assert(text_lt(b[0], b[i + 1]));
                assert(a.to_set().contains(x));
                let m = choose|m: int| 0 <= m < a.len() && a[m] == x;
                if m == 0 {
                    lemma_text_lt_irreflexive(x);
                }
                assert(a1[m - 1] == x);
            }
        }
        assert(a1.to_set() =~= b1.to_set());
        lemma_sorted_unique(a1, b1);
        assert(a =~= seq![a[0]] + a1);
        assert(b =~= seq![b[0]] + b1);
    }
}

/// The texts of a finite set, in sorted order.
pub open spec fn sorted_texts(s: Set<Seq<char>>) -> Seq<Seq<char>> {
    choose|v: Seq<Seq<char>>| strictly_sorted(v) && v.to_set() == s
}

/// A strictly sorted list is the sorted list of its texts.
pub proof fn lemma_sorted_texts(v: Seq<Seq<char>>)
    requires
        strictly_sorted(v),
    ensures
        sorted_texts(v.to_set()) == v,
{
    let s = v.to_set();
    assert(strictly_sorted(v) && v.to_set() == s);
    let w = sorted_texts(s);
    lemma_sorted_unique(w, v);
}


/// Where `x` goes in a sorted list: the first place whose text does not
/// sort before it.
pub open spec fn insertion_point(v: Seq<Seq<char>>, x: Seq<char>) -> int
    decreases v.len(),
{
    if v.len() > 0 && text_lt(v[0], x) {
        1 + insertion_point(v.drop_first(), x)
    } else {
        0
    }
}

proof fn lemma_insertion_point(v: Seq<Seq<char>>, x: Seq<char>)
    ensures
        0 <= insertion_point(v, x) <= v.len(),
        forall|j: int| 0 <= j < insertion_point(v, x) ==> text_lt(#[trigger] v[j], x),
        insertion_point(v, x) < v.len() ==> !text_lt(v[insertion_point(v, x)], x),
    decreases v.len(),
{
    if v.len() > 0 && text_lt(v[0], x) {
        let t = v.drop_first();
        lemma_insertion_point(t, x);
        assert forall|j: int| 0 <= j < insertion_point(v, x) implies text_lt(#[trigger] v[j], x) by {
            if j > 0 {
                assert(v[j] == t[j - 1]);
            }
        }
        if insertion_point(t, x) < t.len() {
            assert(v[insertion_point(v, x)] == t[insertion_point(t, x)]);
        }
    }
}

/// Inserting a new text where it belongs keeps a list strictly sorted.
proof fn lemma_sorted_insert(v: Seq<Seq<char>>, x: Seq<char>)
    requires
        strictly_sorted(v),
        !v.contains(x),
    ensures
        strictly_sorted(v.insert(insertion_point(v, x), x)),
        v.insert(insertion_point(v, x), x).to_set() == v.to_set().insert(x),
{
    let p = insertion_point(v, x);
    lemma_insertion_point(v, x);
    let w = v.insert(p, x);
    if p < v.len() {
        assert(v[p] != x);
        lemma_text_lt_total(v[p], x);
    }
    assert forall|i: int, j: int| 0 <= i < j < w.len() implies text_lt(#[trigger] w[i], #[trigger] w[j]) by {
        if j < p {
            assert(w[i] == v[i] && w[j] == v[j]);
        } else if j == p {
            assert(w[i] == v[i] && w[j] == x);
        } else if i < p {
            assert(w[i] == v[i] && w[j] == v[j - 1]);
        } else if i == p {
            assert(w[i] == x && w[j] == v[j - 1]);
            if j - 1 > p {
                assert(text_lt(v[p], v[j - 1]));
                lemma_text_lt_transitive(x, v[p], v[j - 1]);
            }
        } else {
            assert(w[i] == v[i - 1] && w[j] == v[j - 1]);
        }
    }
    assert forall|y: Seq<char>| #[trigger] w.to_set().contains(y) == v.to_set().insert(x).contains(y) by {
        if w.contains(y) {
            let i = choose|i: int| 0 <= i < w.len() && w[i] == y;
            if i < p {
                assert(v[i] == y);
            } else if i > p {
                assert(v[i - 1] == y);
            }
        }
        if v.contains(y) {
            let k = choose|k: int| 0 <= k < v.len() && v[k] == y;
            if k < p {
                assert(w[k] == y);
            } else {
                assert(w[k + 1] == y);
            }
        }
        if y == x {
            assert(w[p] == x);
        }
    }
    assert(w.to_set() =~= v.to_set().insert(x));
}

/// Every finite set of texts has its sorted list: strictly sorted, with
/// the set's texts.
pub proof fn lemma_sorted_texts_exist(s: Set<Seq<char>>)
    requires
        s.finite(),
    ensures
        strictly_sorted(sorted_texts(s)),
        sorted_texts(s).to_set() == s,
    decreases s.len(),
{
    if s.len() == 0 {
        let v: Seq<Seq<char>> = seq![];
        assert(v.to_set() =~= s);
        assert(strictly_sorted(v) && v.to_set() == s);
    } else {
        let x = s.choose();
        let r = s.remove(x);
        lemma_sorted_texts_exist(r);
        let v = sorted_texts(r);
        assert(!v.contains(x)) by {
            if v.contains(x) {
                assert(v.to_set().contains(x));
            }
        }
        lemma_sorted_insert(v, x);
        let w = v.insert(insertion_point(v, x), x);
        assert(w.to_set() =~= s);
        assert(strictly_sorted(w) && w.to_set() == s);
    }
}

} // verus!
