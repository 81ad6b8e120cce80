//! The order of text: `String`'s `Ord`, which compares UTF-8 bytes and so
//! orders by code point, character by character, a prefix first.
use vstd::prelude::*;

use crate::text::{copy_chars, views};

verus! {

broadcast use vstd::seq_lib::group_to_multiset_ensures;

/// `a` sorts strictly before `b`.
pub open spec fn lex_lt(a: Seq<char>, b: Seq<char>) -> bool
    decreases a.len(),
{
    if a.len() == 0 {
        b.len() > 0
    } else if b.len() == 0 {
        false
    } else if a[0] != b[0] {
        a[0] < b[0]
    } else {
        lex_lt(a.drop_first(), b.drop_first())
    }
}

/// `a` sorts before `b` or equals it.
pub open spec fn lex_le(a: Seq<char>, b: Seq<char>) -> bool {
    a == b || lex_lt(a, b)
}

/// Every element sorts before or equals every later one.
pub open spec fn sorted_lex(s: Seq<Seq<char>>) -> bool {
    forall|i: int, j: int| 0 <= i < j < s.len() ==> lex_le(#[trigger] s[i], #[trigger] s[j])
}

proof fn lemma_first_equal(a: Seq<char>, b: Seq<char>)
    requires
        a.len() > 0,
        b.len() > 0,
        a[0] == b[0],
        a.drop_first() == b.drop_first(),
    ensures
        a == b,
{
    assert(a =~= seq![a[0]] + a.drop_first());
    assert(b =~= seq![b[0]] + b.drop_first());
}

/// No text sorts strictly before itself.
pub proof fn lemma_lex_irreflexive(a: Seq<char>)
    ensures
        !lex_lt(a, a),
    decreases a.len(),
{
    if a.len() > 0 {
        lemma_lex_irreflexive(a.drop_first());
    }
}

/// Of two different texts, one sorts strictly before the other, and never
/// both.
pub proof fn lemma_lex_total(a: Seq<char>, b: Seq<char>)
    ensures
        a != b ==> (lex_lt(a, b) || lex_lt(b, a)),
        !(lex_lt(a, b) && lex_lt(b, a)),
    decreases a.len(),
{
    if a.len() > 0 && b.len() > 0 && a[0] == b[0] {
        lemma_lex_total(a.drop_first(), b.drop_first());
        if a.drop_first() == b.drop_first() {
            lemma_first_equal(a, b);
        }
    } else if a.len() == 0 && b.len() == 0 {
        assert(a =~= b);
    }
}

/// Sorting strictly before is transitive.
pub proof fn lemma_lex_transitive(a: Seq<char>, b: Seq<char>, c: Seq<char>)
    requires
        lex_lt(a, b),
        lex_lt(b, c),
    ensures
        lex_lt(a, c),
    decreases a.len(),
{
    if a.len() > 0 && b.len() > 0 && c.len() > 0 && a[0] == b[0] && b[0] == c[0] {
        lemma_lex_transitive(a.drop_first(), b.drop_first(), c.drop_first());
    }
}

pub proof fn lemma_lex_le_transitive(a: Seq<char>, b: Seq<char>, c: Seq<char>)
    requires
        lex_le(a, b),
        lex_le(b, c),
    ensures
        lex_le(a, c),
{
    if a != b && b != c {
        lemma_lex_transitive(a, b, c);
    }
}

proof fn lemma_lex_skip(a: Seq<char>, b: Seq<char>, i: int)
    requires
        0 <= i < a.len(),
        i < b.len(),
        a[i] == b[i],
    ensures
        a.skip(i).len() > 0 && b.skip(i).len() > 0,
        a.skip(i)[0] == b.skip(i)[0],
        a.skip(i).drop_first() == a.skip(i + 1),
        b.skip(i).drop_first() == b.skip(i + 1),
{
    assert(a.skip(i).drop_first() =~= a.skip(i + 1));
    assert(b.skip(i).drop_first() =~= b.skip(i + 1));
}

/// Whether `a` sorts before `b` or equals it.
pub fn lex_le_chars(a: &Vec<char>, b: &Vec<char>) -> (r: bool)
    ensures
        r == lex_le(a@, b@),
{
    let n = a.len();
    let m = b.len();
    let mut i: usize = 0;
    assert(a@.skip(0) =~= a@);
    assert(b@.skip(0) =~= b@);
    while i < n && i < m && a[i] == b[i]
        invariant
            n == a@.len(),
            m == b@.len(),
            i <= n,
            i <= m,
            lex_lt(a@, b@) == lex_lt(a@.skip(i as int), b@.skip(i as int)),
            forall|k: int| 0 <= k < i ==> a@[k] == b@[k],
        decreases n - i,
    {
        proof {
            lemma_lex_skip(a@, b@, i as int);
        }
        i = i + 1;
    }
    if i == n {
        if i == m {
            assert(a@ =~= b@);
            true
        } else {
            assert(a@.skip(i as int).len() == 0 && b@.skip(i as int).len() > 0);
            true
        }
    } else if i == m {
        assert(a@.skip(i as int).len() > 0 && b@.skip(i as int).len() == 0);
        assert(a@ != b@) by {
            assert(a@.len() != b@.len());
        }
        false
    } else {
        assert(a@.skip(i as int)[0] == a@[i as int]);
        assert(b@.skip(i as int)[0] == b@[i as int]);
        assert(a@ != b@) by {
            assert(a@[i as int] != b@[i as int]);
        }
        a[i] < b[i]
    }
}

/// The texts of `v` in sorted order.
pub fn sort_texts(v: &Vec<Vec<char>>) -> (r: Vec<Vec<char>>)
    ensures
        sorted_lex(views(r@)),
        views(r@).to_multiset() == views(v@).to_multiset(),
{
    let mut r: Vec<Vec<char>> = Vec::new();
    let ghost vv = views(v@);
    let mut i: usize = 0;
    assert(vv.take(0) =~= Seq::<Seq<char>>::empty());
    assert(views(r@) =~= Seq::<Seq<char>>::empty());
    while i < v.len()
        invariant
            vv == views(v@),
            i <= vv.len(),
            sorted_lex(views(r@)),
            views(r@).to_multiset() == vv.take(i as int).to_multiset(),
        decreases vv.len() - i,
    {
        let x = copy_chars(&v[i]);
        assert(x@ == vv[i as int]);
        let ghost rv = views(r@);
        let mut p: usize = 0;
        while p < r.len() && lex_le_chars(&r[p], &x)
            invariant
                rv == views(r@),
                p <= rv.len(),
                forall|k: int| 0 <= k < p ==> lex_le(#[trigger] rv[k], x@),
            decreases rv.len() - p,
        {
            p = p + 1;
        }
        proof {
            if p < rv.len() {
                assert(!lex_le(rv[p as int], x@));
                lemma_lex_total(rv[p as int], x@);
            }
        }
        r.insert(p, x);
        let ghost nv = views(r@);
        assert(nv =~= rv.insert(p as int, x@));
        assert forall|a: int, b: int| 0 <= a < b < nv.len() implies lex_le(
            #[trigger] nv[a],
            #[trigger] nv[b],
        ) by {
            if a < p && b < p {
                assert(nv[a] == rv[a] && nv[b] == rv[b]);
            } else if a < p && b == p {
                assert(nv[a] == rv[a]);
            } else if a < p && b > p {
                assert(nv[a] == rv[a] && nv[b] == rv[b - 1]);
                lemma_lex_le_transitive(rv[a], x@, rv[p as int]);
                if b - 1 > p {
                    lemma_lex_le_transitive(rv[a], rv[p as int], rv[b - 1]);
                }
            } else if a == p {
                assert(nv[b] == rv[b - 1]);
                if b - 1 > p {
                    lemma_lex_le_transitive(x@, rv[p as int], rv[b - 1]);
                }
            } else {
                assert(nv[a] == rv[a - 1] && nv[b] == rv[b - 1]);
            }
        }
        assert(vv.take((i + 1) as int) =~= vv.take(i as int).push(vv[i as int]));
        i = i + 1;
    }
    assert(vv.take(vv.len() as int) =~= vv);
    r
}

proof fn lemma_lex_antisymmetric(a: Seq<char>, b: Seq<char>)
    requires
        lex_le(a, b),
        lex_le(b, a),
    ensures
        a == b,
{
    lemma_lex_total(a, b);
}

/// A sorted listing is determined by what it holds: two sorted sequences of
/// texts with the same elements, counted with repetition, are equal.
pub proof fn law_sorted_listing_is_unique(a: Seq<Seq<char>>, b: Seq<Seq<char>>)
    requires
        sorted_lex(a),
        sorted_lex(b),
        a.to_multiset() == b.to_multiset(),
    ensures
        a == b,
    decreases a.len(),
{
    broadcast use vstd::seq_lib::group_to_multiset_ensures;

    assert(a.len() == b.len()) by {
        a.to_multiset_ensures();
        b.to_multiset_ensures();
    }
    if a.len() == 0 {
        assert(a =~= b);
    } else {
        a.to_multiset_ensures();
        b.to_multiset_ensures();
        assert(a.to_multiset().count(a[0]) > 0);
        assert(b.contains(a[0]));
        let j = choose|j: int| 0 <= j < b.len() && b[j] == a[0];
        if j > 0 {
            assert(lex_le(b[0], b[j]));
        }
        assert(b.to_multiset().count(b[0]) > 0);
        assert(a.contains(b[0]));
        let k = choose|k: int| 0 <= k < a.len() && a[k] == b[0];
        if k > 0 {
            assert(lex_le(a[0], a[k]));
        }
        lemma_lex_antisymmetric(a[0], b[0]);
        assert(a.remove(0) =~= a.drop_first());
        assert(b.remove(0) =~= b.drop_first());
        vstd::seq_lib::to_multiset_remove(a, 0);
        vstd::seq_lib::to_multiset_remove(b, 0);
        assert(sorted_lex(a.drop_first())) by {
            assert forall|x: int, y: int| 0 <= x < y < a.drop_first().len() implies lex_le(
                #[trigger] a.drop_first()[x],
                #[trigger] a.drop_first()[y],
            ) by {
                assert(a.drop_first()[x] == a[x + 1] && a.drop_first()[y] == a[y + 1]);
            }
        }
        assert(sorted_lex(b.drop_first())) by {
            assert forall|x: int, y: int| 0 <= x < y < b.drop_first().len() implies lex_le(
                #[trigger] b.drop_first()[x],
                #[trigger] b.drop_first()[y],
            ) by {
                assert(b.drop_first()[x] == b[x + 1] && b.drop_first()[y] == b[y + 1]);
            }
        }
        law_sorted_listing_is_unique(a.drop_first(), b.drop_first());
        assert(a =~= b) by {
            assert forall|x: int| 0 <= x < a.len() implies a[x] == b[x] by {
                if x > 0 {
                    assert(a[x] == a.drop_first()[x - 1]);
                    assert(b[x] == b.drop_first()[x - 1]);
                }
            }
        }
    }
}

} // verus!
