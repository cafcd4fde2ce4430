//! Names in the order of `String`, without repeats.

use vstd::prelude::*;

use crate::text::{chars_of, str_eq};

verus! {

broadcast use vstd::string::group_string_axioms;

/// Whether `a` comes strictly before `b`: compared character by character
/// by code point, a proper prefix first (the order of `String`, since UTF-8
/// keeps the order of code points).
pub open spec fn text_before(a: Seq<char>, b: Seq<char>) -> bool
    decreases a.len(),
{
    if a.len() == 0 {
        b.len() > 0
    } else if b.len() == 0 {
        false
    } else if a[0] != b[0] {
        (a[0] as int) < (b[0] as int)
    } else {
        text_before(a.drop_first(), b.drop_first())
    }
}

/// No text comes before itself.
pub proof fn lemma_before_irreflexive(a: Seq<char>)
    ensures
        !text_before(a, a),
    decreases a.len(),
{
    if a.len() > 0 {
        lemma_before_irreflexive(a.drop_first());
    }
}

/// Of two different texts, one comes before the other.
pub proof fn lemma_before_total(a: Seq<char>, b: Seq<char>)
    requires
        a != b,
    ensures
        text_before(a, b) || text_before(b, a),
    decreases a.len(),
{
    if a.len() > 0 && b.len() > 0 && a[0] == b[0] {
        if a.drop_first() == b.drop_first() {
            assert(a =~= seq![a[0]] + a.drop_first());
            assert(b =~= seq![b[0]] + b.drop_first());
        }
        lemma_before_total(a.drop_first(), b.drop_first());
    } else if a.len() == 0 && b.len() == 0 {
        assert(a =~= b);
    } else if a.len() > 0 && b.len() > 0 {
        assert(a[0] as int != b[0] as int);
    }
}

/// The order is transitive.
pub proof fn lemma_before_transitive(a: Seq<char>, b: Seq<char>, c: Seq<char>)
    requires
        text_before(a, b),
        text_before(b, c),
    ensures
        text_before(a, c),
    decreases a.len(),
{
    if a.len() > 0 && b.len() > 0 && c.len() > 0 && a[0] == b[0] && b[0] == c[0] {
        lemma_before_transitive(a.drop_first(), b.drop_first(), c.drop_first());
    }
}

/// Whether `a` comes strictly before `b` in the order of `String`.
pub fn text_is_before(a: &str, b: &str) -> (r: bool)
    ensures
        r == text_before(a@, b@),
{
    let x = chars_of(a);
    let y = chars_of(b);
    let mut i: usize = 0;
    assert(x@.skip(0) =~= x@);
    assert(y@.skip(0) =~= y@);
    while i < x.len() && i < y.len() && x[i] == y[i]
        invariant
            i <= x@.len(),
            i <= y@.len(),
            text_before(x@, y@) == text_before(x@.skip(i as int), y@.skip(i as int)),
        decreases x@.len() - i,
    {
        assert(x@.skip(i as int).drop_first() =~= x@.skip(i + 1));
        assert(y@.skip(i as int).drop_first() =~= y@.skip(i + 1));
        i = i + 1;
    }
    if i == x.len() {
        i < y.len()
    } else if i == y.len() {
        false
    } else {
        assert(x@.skip(i as int)[0] == x@[i as int]);
        assert(y@.skip(i as int)[0] == y@[i as int]);
        x[i] < y[i]
    }
}

/// The texts of strings.
pub open spec fn string_views(v: Seq<String>) -> Seq<Seq<char>> {
    v.map_values(|s: String| s@)
}

/// Whether texts are in strictly increasing order (so without repeats).
pub open spec fn strictly_sorted(v: Seq<Seq<char>>) -> bool {
    forall|i: int, j: int| 0 <= i < j < v.len() ==> text_before(#[trigger] v[i], #[trigger] v[j])
}

/// Insert a name into strictly sorted names, unless it is there already.
pub fn insert_sorted(v: &mut Vec<String>, s: String)
    requires
        strictly_sorted(string_views(old(v)@)),
    ensures
        strictly_sorted(string_views(final(v)@)),
        forall|t: Seq<char>| #[trigger] string_views(final(v)@).contains(t) <==> (string_views(old(v)@).contains(t) || t == s@),
{
    let ghost v0 = string_views(v@);
    let mut k: usize = 0;
    while k < v.len() && text_is_before(v[k].as_str(), s.as_str())
        invariant
            k <= v@.len(),
            v0 == string_views(v@),
            forall|i: int| 0 <= i < k ==> text_before(#[trigger] v0[i], s@),
        decreases v@.len() - k,
    {
        k = k + 1;
    }
    if k < v.len() && str_eq(v[k].as_str(), s.as_str()) {
        proof {
            assert(v0[k as int] == s@);
        }
        return;
    }
    let ghost sv = s@;
    proof {
        if k < v0.len() {
            lemma_before_total(v0[k as int], sv);
        }
    }
    v.insert(k, s);
    let ghost nv = string_views(v@);
    proof {
        assert(nv =~= v0.insert(k as int, sv));
        assert forall|i: int, j: int| 0 <= i < j < nv.len() implies text_before(#[trigger] nv[i], #[trigger] nv[j]) by {
            if j < k {
            } else if j == k {
            } else if i < k {
                assert(text_before(v0[i], v0[j - 1]));
            } else if i == k {
                if j - 1 > k {
                    assert(text_before(v0[k as int], v0[j - 1]));
                    lemma_before_transitive(sv, v0[k as int], v0[j - 1]);
                }
            } else {
                assert(text_before(v0[i - 1], v0[j - 1]));
            }
        }
        assert forall|t: Seq<char>| #[trigger] nv.contains(t) <==> (v0.contains(t) || t == sv) by {
            if nv.contains(t) {
                let i = choose|i: int| 0 <= i < nv.len() && #[trigger] nv[i] == t;
                if i < k {
                    assert(v0[i] == t);
                } else if i > k {
                    assert(v0[i - 1] == t);
                }
            }
            if v0.contains(t) {
                let i = choose|i: int| 0 <= i < v0.len() && #[trigger] v0[i] == t;
                if i < k {
                    assert(nv[i] == t);
                } else {
                    assert(nv[i + 1] == t);
                }
            }
            if t == sv {
                assert(nv[k as int] == t);
            }
        }
    }
}

/// The names, strictly sorted: each name once, in the order of `String`.
pub fn sorted_unique(items: &Vec<String>) -> (r: Vec<String>)
    ensures
        strictly_sorted(string_views(r@)),
        forall|t: Seq<char>| #[trigger] string_views(r@).contains(t) <==> string_views(items@).contains(t),
{
    let ghost iv = string_views(items@);
    let mut r: Vec<String> = Vec::new();
    let mut i: usize = 0;
    while i < items.len()
        invariant
            i <= items@.len(),
            iv == string_views(items@),
            strictly_sorted(string_views(r@)),
            forall|t: Seq<char>| #[trigger] string_views(r@).contains(t) <==> iv.take(i as int).contains(t),
        decreases items@.len() - i,
    {
        let ghost before = string_views(r@);
        insert_sorted(&mut r, items[i].clone());
        proof {
            let a = iv.take(i as int);
            let b = iv.take(i + 1);
            assert(b =~= a.push(iv[i as int]));
            assert forall|t: Seq<char>| #[trigger] b.contains(t) <==> (a.contains(t) || t == iv[i as int]) by {
                if b.contains(t) {
                    let j = choose|j: int| 0 <= j < b.len() && #[trigger] b[j] == t;
                    if j < i {
                        assert(a[j] == t);
                    }
                }
                if a.contains(t) {
                    let j = choose|j: int| 0 <= j < a.len() && #[trigger] a[j] == t;
                    assert(b[j] == t);
                }
                if t == iv[i as int] {
                    assert(b[i as int] == t);
                }
            }
        }
        i = i + 1;
    }
    assert(iv.take(i as int) =~= iv);
    r
}

} // verus!
