//! The order of `str` (lexicographic by character) and sorted sets of names.
use vstd::prelude::*;
use crate::text::{chars_of, copy_string, views};

verus! {

broadcast use vstd::string::group_string_axioms;

/// `a < b` in the order of `str`: lexicographic, character by character
/// (which is the order of their UTF-8 bytes).
pub open spec fn lex_lt(a: Seq<char>, b: Seq<char>) -> bool
    decreases a.len(),
{
    if a.len() == 0 {
        b.len() > 0
    } else if b.len() == 0 {
        false
    } else if a[0] < b[0] {
        true
    } else if a[0] == b[0] {
        lex_lt(a.drop_first(), b.drop_first())
    } else {
        false
    }
}

pub proof fn lemma_lex_irreflexive(a: Seq<char>)
    ensures
        !lex_lt(a, a),
    decreases a.len(),
{
    if a.len() > 0 {
        lemma_lex_irreflexive(a.drop_first());
    }
}

pub proof fn lemma_lex_transitive(a: Seq<char>, b: Seq<char>, c: Seq<char>)
    requires
        lex_lt(a, b),
        lex_lt(b, c),
    ensures
        lex_lt(a, c),
    decreases a.len(),
{
    if a.len() > 0 && b.len() > 0 && c.len() > 0 && a[0] == b[0] && b[0] == c[0] {
        lemma_lex_transitive(a.drop_first(), b.drop_first(), c.drop_first());
    }
}

pub proof fn lemma_lex_total(a: Seq<char>, b: Seq<char>)
    ensures
        a == b || lex_lt(a, b) || lex_lt(b, a),
    decreases a.len(),
{
    if a.len() > 0 && b.len() > 0 && a[0] == b[0] {
        lemma_lex_total(a.drop_first(), b.drop_first());
        if a.drop_first() == b.drop_first() {
            assert(a =~= seq![a[0]] + a.drop_first());
            assert(b =~= seq![b[0]] + b.drop_first());
        }
    } else if a.len() > 0 && b.len() > 0 {
    } else if a.len() == 0 && b.len() == 0 {
        assert(a =~= b);
    }
}

/// Whether `a < b` in the order of `str`.
pub fn lex_less(a: &Vec<char>, b: &Vec<char>) -> (r: bool)
    ensures
        r == lex_lt(a@, b@),
{
    let mut i: usize = 0;
    assert(a@.skip(0) == a@);
    assert(b@.skip(0) == b@);
    while i < a.len() && i < b.len()
        invariant
            i <= a.len(),
            i <= b.len(),
            lex_lt(a@, b@) == lex_lt(a@.skip(i as int), b@.skip(i as int)),
        decreases a.len() - i,
    {
        let x = a[i];
        let y = b[i];
        assert(a@.skip(i as int)[0] == x);
        assert(b@.skip(i as int)[0] == y);
        if x < y {
            return true;
        }
        if x != y {
            return false;
        }
        assert(a@.skip(i as int).drop_first() == a@.skip(i + 1));
        assert(b@.skip(i as int).drop_first() == b@.skip(i + 1));
        i = i + 1;
    }
    i == a.len() && i < b.len()
}

/// `s` is strictly increasing in the order of `str`.
pub open spec fn strictly_sorted(s: Seq<Seq<char>>) -> bool {
    forall|i: int, j: int| 0 <= i < j < s.len() ==> lex_lt(#[trigger] s[i], #[trigger] s[j])
}

/// `order` holds each name of `names` once, in increasing order: what the
/// keys of a `BTreeMap` built from `names` are, in iteration order.
pub open spec fn is_sorted_set_of(order: Seq<Seq<char>>, names: Seq<Seq<char>>) -> bool {
    &&& strictly_sorted(order)
    &&& forall|s: Seq<char>| order.contains(s) <==> names.contains(s)
}

/// The position of `x` in `v`, if it is there.
pub fn position(v: &Vec<String>, x: &String) -> (r: Option<usize>)
    ensures
        r matches Some(i) ==> i < v@.len() && v@[i as int]@ == x@,
        r is None ==> !views(v@).contains(x@),
{
    let mut i: usize = 0;
    while i < v.len()
        invariant
            i <= v.len(),
            forall|j: int| 0 <= j < i ==> v@[j]@ != x@,
        decreases v.len() - i,
    {
        if v[i] == *x {
            return Some(i);
        }
        i = i + 1;
    }
    proof {
        if views(v@).contains(x@) {
            let k = choose|k: int| 0 <= k < views(v@).len() && views(v@)[k] == x@;
            assert(v@[k]@ == x@);
        }
    }
    None
}

/// Inserts `x` into a strictly sorted vector of names, unless it is there.
pub fn insert_sorted(v: &mut Vec<String>, x: &String)
    requires
        strictly_sorted(views(old(v)@)),
    ensures
        strictly_sorted(views(final(v)@)),
        forall|s: Seq<char>|
            views(final(v)@).contains(s) <==> (views(old(v)@).contains(s) || s == x@),
{
    match position(v, x) {
        Some(i) => {
            assert(views(v@)[i as int] == x@);
            return;
        },
        None => {},
    }
    let xs = chars_of(x.as_str());
    let mut p: usize = 0;
    while p < v.len() && !lex_less(&xs, &chars_of(v[p].as_str()))
        invariant
            p <= v.len(),
            xs@ == x@,
            forall|q: int| 0 <= q < p ==> !lex_lt(x@, #[trigger] v@[q]@),
        decreases v.len() - p,
    {
        p = p + 1;
    }
    let ghost old_views = views(v@);
    assert(!old_views.contains(x@));
    assert forall|q: int| 0 <= q < p implies lex_lt(#[trigger] old_views[q], x@) by {
        lemma_lex_total(old_views[q], x@);
        assert(old_views[q] != x@) by {
            if old_views[q] == x@ {
                assert(old_views.contains(x@));
            }
        }
    }
    v.insert(p, copy_string(x));
    let ghost nv = views(v@);
    assert(nv =~= old_views.insert(p as int, x@));
    assert forall|i: int, j: int| 0 <= i < j < nv.len() implies lex_lt(
        #[trigger] nv[i],
        #[trigger] nv[j],
    ) by {
        if j < p {
        } else if j == p {
        } else if i == p {
            if j - 1 > p {
                assert(lex_lt(old_views[p as int], old_views[j - 1]));
                lemma_lex_transitive(x@, old_views[p as int], old_views[j - 1]);
            }
        } else if i < p {
        } else {
        }
    }
    assert forall|s: Seq<char>| nv.contains(s) <==> (old_views.contains(s) || s == x@) by {
        if nv.contains(s) {
            let k = choose|k: int| 0 <= k < nv.len() && nv[k] == s;
            if k < p {
                assert(old_views[k] == s);
            } else if k > p {
                assert(old_views[k - 1] == s);
            }
        }
        if old_views.contains(s) {
            let k = choose|k: int| 0 <= k < old_views.len() && old_views[k] == s;
            if k < p {
                assert(nv[k] == s);
            } else {
                assert(nv[k + 1] == s);
            }
        }
        if s == x@ {
            assert(nv[p as int] == s);
        }
    }
}

/// The distinct names of `s`, in the order of their first occurrence.
pub open spec fn distinct_in_order(s: Seq<Seq<char>>) -> Seq<Seq<char>>
    decreases s.len(),
{
    if s.len() == 0 {
        seq![]
    } else {
        let d = distinct_in_order(s.drop_last());
        if d.contains(s.last()) {
            d
        } else {
            d.push(s.last())
        }
    }
}

/// How often `x` occurs in `s`.
pub open spec fn count_in(s: Seq<Seq<char>>, x: Seq<char>) -> nat
    decreases s.len(),
{
    if s.len() == 0 {
        0
    } else {
        count_in(s.drop_last(), x) + if s.last() == x {
            1nat
        } else {
            0nat
        }
    }
}

pub proof fn lemma_count_bound(s: Seq<Seq<char>>, x: Seq<char>)
    ensures
        count_in(s, x) <= s.len(),
    decreases s.len(),
{
    if s.len() > 0 {
        lemma_count_bound(s.drop_last(), x);
    }
}

pub proof fn lemma_distinct_no_dup(s: Seq<Seq<char>>)
    ensures
        distinct_in_order(s).no_duplicates(),
    decreases s.len(),
{
    if s.len() > 0 {
        lemma_distinct_no_dup(s.drop_last());
    }
}

pub proof fn lemma_count_zero(s: Seq<Seq<char>>, x: Seq<char>)
    requires
        !distinct_in_order(s).contains(x),
    ensures
        count_in(s, x) == 0,
    decreases s.len(),
{
    if s.len() > 0 {
        let d = distinct_in_order(s.drop_last());
        if d.contains(x) {
            if !d.contains(s.last()) {
                let k = choose|k: int| 0 <= k < d.len() && d[k] == x;
                assert(d.push(s.last())[k] == x);
            }
        }
        if s.last() == x {
            if d.contains(s.last()) {
            } else {
                assert(d.push(s.last())[d.len() as int] == x);
            }
        }
        lemma_count_zero(s.drop_last(), x);
    }
}


/// A name occurs in `s` exactly when it occurs among its distinct names.
pub proof fn lemma_distinct_contains(s: Seq<Seq<char>>, x: Seq<char>)
    ensures
        s.contains(x) <==> distinct_in_order(s).contains(x),
    decreases s.len(),
{
    if s.len() > 0 {
        lemma_distinct_contains(s.drop_last(), x);
        let d = distinct_in_order(s.drop_last());
        if s.contains(x) {
            let k = choose|k: int| 0 <= k < s.len() && s[k] == x;
            if k < s.len() - 1 {
                assert(s.drop_last()[k] == x);
                if !d.contains(s.last()) {
                    let q = choose|q: int| 0 <= q < d.len() && d[q] == x;
                    assert(d.push(s.last())[q] == x);
                }
            } else if !d.contains(s.last()) {
                assert(d.push(s.last())[d.len() as int] == x);
            }
        }
        if distinct_in_order(s).contains(x) {
            if d.contains(x) {
                let k = choose|k: int| 0 <= k < s.drop_last().len() && s.drop_last()[k] == x;
                assert(s[k] == x);
            } else {
                if !d.contains(s.last()) {
                    let q = choose|q: int| 0 <= q < d.len() + 1 && d.push(s.last())[q] == x;
                    assert(q == d.len());
                }
                assert(s[s.len() - 1] == x);
            }
        }
    }
}

/// A name that occurs in `s` is counted at least once.
pub proof fn lemma_count_pos(s: Seq<Seq<char>>, x: Seq<char>)
    requires
        s.contains(x),
    ensures
        count_in(s, x) > 0,
    decreases s.len(),
{
    if s.last() != x {
        let k = choose|k: int| 0 <= k < s.len() && s[k] == x;
        assert(s.drop_last()[k] == x);
        lemma_count_pos(s.drop_last(), x);
    }
}

/// The distinct names of `names` in the order of first occurrence, each
/// with the number of times it occurs.
pub fn tally(names: &Vec<String>) -> (r: (Vec<String>, Vec<usize>))
    ensures
        views(r.0@) == distinct_in_order(views(names@)),
        r.1@.len() == r.0@.len(),
        forall|k: int| 0 <= k < r.1@.len() ==> #[trigger] r.1@[k] == count_in(views(names@), r.0@[k]@),
{
    let ghost s = views(names@);
    let mut dist: Vec<String> = Vec::new();
    let mut counts: Vec<usize> = Vec::new();
    let mut i: usize = 0;
    while i < names.len()
        invariant
            i <= names.len(),
            s == views(names@),
            dist@.len() == counts@.len(),
            views(dist@) == distinct_in_order(s.take(i as int)),
            forall|k: int| 0 <= k < counts@.len() ==> #[trigger] counts@[k] == count_in(s.take(i as int), dist@[k]@),
        decreases names.len() - i,
    {
        let ghost pre = s.take(i as int);
        let ghost next = s.take(i + 1 as int);
        assert(next.drop_last() == pre);
        assert(next.last() == names@[i as int]@);
        match position(&dist, &names[i]) {
            Some(p) => {
                proof {
                    lemma_distinct_no_dup(pre);
                    lemma_count_bound(pre, dist@[p as int]@);
                    assert(views(dist@)[p as int] == next.last());
                }
                let c = counts[p] + 1;
                counts.set(p, c);
                proof {
                    assert forall|q: int| 0 <= q < counts@.len() implies #[trigger] counts@[q]
                        == count_in(next, dist@[q]@) by {
                        if q != p {
                            assert(views(dist@)[q] != views(dist@)[p as int]);
                        }
                    }
                }
            },
            None => {
                proof {
                    lemma_count_zero(pre, next.last());
                }
                let ghost old_dist = views(dist@);
                dist.push(copy_string(&names[i]));
                counts.push(1);
                assert(views(dist@) =~= old_dist.push(next.last()));
                proof {
                    assert forall|q: int| 0 <= q < counts@.len() implies #[trigger] counts@[q]
                        == count_in(next, dist@[q]@) by {
                        if q < old_dist.len() {
                            assert(old_dist[q] != next.last()) by {
                                if old_dist[q] == next.last() {
                                    assert(old_dist.contains(next.last()));
                                }
                            }
                        }
                    }
                }
            },
        }
        i = i + 1;
    }
    assert(s.take(names.len() as int) == s);
    (dist, counts)
}

} // verus!
