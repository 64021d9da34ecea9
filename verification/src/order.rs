//! The lexicographic order of strings, and sorting by it.
//!
//! Strings compare as their UTF-8 bytes do, which is the order of their
//! characters' code points, position by position, a proper prefix first.

use vstd::prelude::*;
use vstd::string::StrSliceExecFns;
use crate::strings::strings_view;

verus! {

/// `a` comes strictly before `b`.
pub open spec fn lex_lt(a: Seq<char>, b: Seq<char>) -> bool
    decreases a.len(),
{
    if a.len() == 0 {
        b.len() > 0
    } else if b.len() == 0 {
        false
    } else if a[0] != b[0] {
        (a[0] as int) < (b[0] as int)
    } else {
        lex_lt(a.drop_first(), b.drop_first())
    }
}

/// Every element comes strictly before every later one.
pub open spec fn strictly_sorted(s: Seq<Seq<char>>) -> bool {
    forall|i: int, j: int| 0 <= i < j < s.len() ==> lex_lt(#[trigger] s[i], #[trigger] s[j])
}

/// The elements of a finite set of strings in ascending order.
pub open spec fn sorted_of(s: Set<Seq<char>>) -> Seq<Seq<char>> {
    choose|q: Seq<Seq<char>>| q.to_set() == s && strictly_sorted(q)
}

/// No string comes before itself.
pub proof fn lemma_lex_irreflexive(a: Seq<char>)
    ensures
        !lex_lt(a, a),
    decreases a.len(),
{
    if a.len() > 0 {
        lemma_lex_irreflexive(a.drop_first());
    }
}

/// The order is transitive.
pub proof fn lemma_lex_transitive(a: Seq<char>, b: Seq<char>, c: Seq<char>)
    requires
        lex_lt(a, b),
        lex_lt(b, c),
    ensures
        lex_lt(a, c),
    decreases a.len(),
{
    if a.len() > 0 && b.len() > 0 && c.len() > 0 && a[0] == b[0] && b[0] == c[0] {
        lemma_lex_transitive(a.drop_first(), b.drop_first(), c.drop_first());
    }
}

/// Two different strings are ordered one way or the other.
pub proof fn lemma_lex_total(a: Seq<char>, b: Seq<char>)
    requires
        a != b,
    ensures
        lex_lt(a, b) || lex_lt(b, a),
    decreases a.len(),
{
    if a.len() > 0 && b.len() > 0 {
        if a[0] == b[0] {
            if a.drop_first() == b.drop_first() {
                assert(a =~= seq![a[0]] + a.drop_first());
                assert(b =~= seq![b[0]] + b.drop_first());
            }
            lemma_lex_total(a.drop_first(), b.drop_first());
        } else {
            assert((a[0] as int) != (b[0] as int));
        }
    } else if a.len() == 0 && b.len() == 0 {
        assert(a =~= b);
    }
}

/// The order is asymmetric.
pub proof fn lemma_lex_asymmetric(a: Seq<char>, b: Seq<char>)
    requires
        lex_lt(a, b),
    ensures
        !lex_lt(b, a),
{
    if lex_lt(b, a) {
        lemma_lex_transitive(a, b, a);
        lemma_lex_irreflexive(a);
    }
}

/// A strictly sorted sequence has no repetition.
pub proof fn lemma_sorted_distinct(s: Seq<Seq<char>>)
    requires
        strictly_sorted(s),
    ensures
        s.no_duplicates(),
{
    assert forall|i: int, j: int| 0 <= i < s.len() && 0 <= j < s.len() && i != j implies s[i] != s[j] by {
        if i < j {
            assert(lex_lt(s[i], s[j]));
            lemma_lex_irreflexive(s[i]);
        } else {
            assert(lex_lt(s[j], s[i]));
            lemma_lex_irreflexive(s[j]);
        }
    }
}

/// Two strictly sorted sequences with the same elements are equal.
pub proof fn lemma_sorted_unique(p: Seq<Seq<char>>, q: Seq<Seq<char>>)
    requires
        strictly_sorted(p),
        strictly_sorted(q),
        p.to_set() == q.to_set(),
    ensures
        p == q,
    decreases p.len(),
{
    if p.len() == 0 {
        if q.len() > 0 {
            assert(q.to_set().contains(q[0]));
        }
        assert(p =~= q);
    } else {
        assert(p.to_set().contains(p[0]));
        assert(q.len() > 0);
        assert(q.to_set().contains(q[0]));
        let i = choose|i: int| 0 <= i < q.len() && q[i] == p[0];
        let j = choose|j: int| 0 <= j < p.len() && p[j] == q[0];
        if p[0] != q[0] {
            if i > 0 {
                assert(lex_lt(q[0], q[i]));
            }
            if j > 0 {
                assert(lex_lt(p[0], p[j]));
            }
            lemma_lex_asymmetric(p[0], q[0]);
            assert(false);
        }
        lemma_sorted_distinct(p);
        lemma_sorted_distinct(q);
        let pt = p.drop_first();
        let qt = q.drop_first();
        assert forall|x: Seq<char>| pt.to_set().contains(x) implies qt.to_set().contains(x) by {
            let a = choose|a: int| 0 <= a < pt.len() && pt[a] == x;
            assert(p[a + 1] == x);
            assert(q.to_set().contains(x));
            let b = choose|b: int| 0 <= b < q.len() && q[b] == x;
            assert(b != 0);
            assert(qt[b - 1] == x);
        }
        assert forall|x: Seq<char>| qt.to_set().contains(x) implies pt.to_set().contains(x) by {
            let b = choose|b: int| 0 <= b < qt.len() && qt[b] == x;
            assert(q[b + 1] == x);
            assert(p.to_set().contains(x));
            let a = choose|a: int| 0 <= a < p.len() && p[a] == x;
            assert(a != 0);
            assert(pt[a - 1] == x);
        }
        assert(pt.to_set() =~= qt.to_set());
        lemma_sorted_unique(pt, qt);
        assert(p =~= seq![p[0]] + pt);
        assert(q =~= seq![q[0]] + qt);
    }
}

/// A strictly sorted sequence is the sorted form of its set of elements.
pub proof fn lemma_sorted_of(q: Seq<Seq<char>>)
    requires
        strictly_sorted(q),
    ensures
        sorted_of(q.to_set()) == q,
{
    let p = sorted_of(q.to_set());
    assert(p.to_set() == q.to_set() && strictly_sorted(p));
    lemma_sorted_unique(p, q);
}

/// Whether `a` comes strictly before `b`.
pub fn str_lt(a: &str, b: &str) -> (r: bool)
    ensures
        r == lex_lt(a@, b@),
{
    let n = a.unicode_len();
    let m = b.unicode_len();
    let mut i: usize = 0;
    assert(a@.skip(0) =~= a@);
    assert(b@.skip(0) =~= b@);
    while i < n && i < m
        invariant
            n == a@.len(),
            m == b@.len(),
            i <= n,
            i <= m,
            lex_lt(a@, b@) == lex_lt(a@.skip(i as int), b@.skip(i as int)),
        decreases n - i,
    {
        let x = a.get_char(i);
        let y = b.get_char(i);
        if x != y {
            return (x as u32) < (y as u32);
        }
        assert(a@.skip(i as int).drop_first() =~= a@.skip(i + 1));
        assert(b@.skip(i as int).drop_first() =~= b@.skip(i + 1));
        i = i + 1;
    }
    i < m
}

/// The distinct strings of `v` in ascending order.
pub fn sort_strings(v: &Vec<String>) -> (r: Vec<String>)
    ensures
        strictly_sorted(strings_view(r@)),
        strings_view(r@).to_set() == strings_view(v@).to_set(),
{
    let mut r: Vec<String> = Vec::new();
    let mut k: usize = 0;
    while k < v.len()
        invariant
            k <= v@.len(),
            strictly_sorted(strings_view(r@)),
            strings_view(r@).to_set() == strings_view(v@.take(k as int)).to_set(),
        decreases v@.len() - k,
    {
        let x = &v[k];
        let ghost before = strings_view(r@);
        let mut p: usize = 0;
        while p < r.len() && str_lt(r[p].as_str(), x.as_str())
            invariant
                p <= r@.len(),
                before == strings_view(r@),
                strictly_sorted(before),
                forall|q: int| 0 <= q < p ==> lex_lt(#[trigger] before[q], x@),
            decreases r@.len() - p,
        {
            p = p + 1;
        }
        assert(strings_view(v@.take(k + 1)) =~= strings_view(v@.take(k as int)).push(x@));
        proof {
            strings_view(v@.take(k as int)).lemma_push_to_set_commute(x@);
        }
        if p < r.len() && r[p] == *x {
            assert(before[p as int] == x@);
            assert(before.to_set().insert(x@) =~= before.to_set());
        } else {
            proof {
                if p < r@.len() {
                    lemma_lex_total(before[p as int], x@);
                }
            }
            r.insert(p, x.clone());
            let ghost after = strings_view(r@);
            assert(after =~= before.insert(p as int, x@));
            assert forall|i: int, j: int| 0 <= i < j < after.len() implies lex_lt(#[trigger] after[i], #[trigger] after[j]) by {
                if j < p {
                } else if j == p {
                } else if i < p {
                    assert(lex_lt(before[i], x@));
                    if p < before.len() {
                        assert(lex_lt(x@, before[p as int]));
                        if j - 1 > p {
                            assert(lex_lt(before[p as int], before[j - 1]));
                            lemma_lex_transitive(x@, before[p as int], before[j - 1]);
                        }
                        lemma_lex_transitive(before[i], x@, before[j - 1]);
                    }
                } else if i == p {
                    if j - 1 > p {
                        assert(lex_lt(before[p as int], before[j - 1]));
                        lemma_lex_transitive(x@, before[p as int], before[j - 1]);
                    }
                } else {
                    assert(lex_lt(before[i - 1], before[j - 1]));
                }
            }
            assert(after.to_set() =~= before.to_set().insert(x@)) by {
                assert forall|y: Seq<char>| after.to_set().contains(y) implies before.to_set().insert(x@).contains(y) by {
                    let i = choose|i: int| 0 <= i < after.len() && after[i] == y;
                    if i < p {
                        assert(before[i] == y);
                    } else if i > p {
                        assert(before[i - 1] == y);
                    }
                }
                assert forall|y: Seq<char>| before.to_set().insert(x@).contains(y) implies after.to_set().contains(y) by {
                    if y == x@ {
                        assert(after[p as int] == y);
                    } else {
                        let i = choose|i: int| 0 <= i < before.len() && before[i] == y;
                        if i < p {
                            assert(after[i] == y);
                        } else {
                            assert(after[i + 1] == y);
                        }
                    }
                }
            }
        }
        k = k + 1;
    }
    assert(v@.take(v@.len() as int) =~= v@);
    r
}


/// `q` with `x` put in its place in ascending order.
pub open spec fn insert_sorted(q: Seq<Seq<char>>, x: Seq<char>) -> Seq<Seq<char>>
    decreases q.len(),
{
    if q.len() == 0 {
        seq![x]
    } else if lex_lt(x, q[0]) {
        seq![x] + q
    } else {
        seq![q[0]] + insert_sorted(q.drop_first(), x)
    }
}

/// Putting a new element in its place keeps a sequence sorted.
proof fn lemma_insert_sorted(q: Seq<Seq<char>>, x: Seq<char>)
    requires
        strictly_sorted(q),
        !q.contains(x),
    ensures
        strictly_sorted(insert_sorted(q, x)),
        insert_sorted(q, x).to_set() == q.to_set().insert(x),
        insert_sorted(q, x).len() > 0,
        insert_sorted(q, x)[0] == x || (q.len() > 0 && insert_sorted(q, x)[0] == q[0]),
    decreases q.len(),
{
    if q.len() == 0 {
        assert(seq![x].to_set() =~= Set::<Seq<char>>::empty().insert(x)) by {
            assert(seq![x][0] == x);
        }
        assert(q.to_set() =~= Set::<Seq<char>>::empty());
    } else if lex_lt(x, q[0]) {
        let r = seq![x] + q;
        assert forall|i: int, j: int| 0 <= i < j < r.len() implies lex_lt(#[trigger] r[i], #[trigger] r[j]) by {
            if i == 0 {
                if j > 1 {
                    assert(lex_lt(q[0], q[j - 1]));
                    lemma_lex_transitive(x, q[0], q[j - 1]);
                }
            } else {
                assert(lex_lt(q[i - 1], q[j - 1]));
            }
        }
        assert(r.to_set() =~= q.to_set().insert(x)) by {
            assert forall|y: Seq<char>| r.to_set().contains(y) implies q.to_set().insert(x).contains(y) by {
                let k = choose|k: int| 0 <= k < r.len() && r[k] == y;
                if k > 0 {
                    assert(q[k - 1] == y);
                }
            }
            assert forall|y: Seq<char>| q.to_set().insert(x).contains(y) implies r.to_set().contains(y) by {
                if y == x {
                    assert(r[0] == y);
                } else {
                    let k = choose|k: int| 0 <= k < q.len() && q[k] == y;
                    assert(r[k + 1] == y);
                }
            }
        }
    } else {
        let t = q.drop_first();
        assert(strictly_sorted(t)) by {
            assert forall|i: int, j: int| 0 <= i < j < t.len() implies lex_lt(#[trigger] t[i], #[trigger] t[j]) by {
                assert(lex_lt(q[i + 1], q[j + 1]));
            }
        }
        assert(!t.contains(x)) by {
            if t.contains(x) {
                let k = choose|k: int| 0 <= k < t.len() && t[k] == x;
                assert(q[k + 1] == x);
            }
        }
        assert(x != q[0]) by {
            assert(q[0] == q[0]);
            if x == q[0] {
                assert(q.contains(x));
            }
        }
        lemma_lex_total(x, q[0]);
        lemma_insert_sorted(t, x);
        let it = insert_sorted(t, x);
        let r = seq![q[0]] + it;
        assert forall|i: int, j: int| 0 <= i < j < r.len() implies lex_lt(#[trigger] r[i], #[trigger] r[j]) by {
            if i == 0 {
                assert(r[j] == it[j - 1]);
                assert(it.to_set().contains(it[j - 1]));
                assert(t.to_set().insert(x).contains(it[j - 1]));
                if it[j - 1] != x {
                    let k = choose|k: int| 0 <= k < t.len() && t[k] == it[j - 1];
                    assert(lex_lt(q[0], q[k + 1]));
                }
            } else {
                assert(lex_lt(it[i - 1], it[j - 1]));
            }
        }
        assert(r.to_set() =~= q.to_set().insert(x)) by {
            assert forall|y: Seq<char>| r.to_set().contains(y) implies q.to_set().insert(x).contains(y) by {
                let k = choose|k: int| 0 <= k < r.len() && r[k] == y;
                if k > 0 {
                    assert(it.to_set().contains(y));
                    if y != x {
                        assert(t.to_set().contains(y));
                        let w = choose|w: int| 0 <= w < t.len() && t[w] == y;
                        assert(q[w + 1] == y);
                    }
                } else {
                    assert(q[0] == y);
                }
            }
            assert forall|y: Seq<char>| q.to_set().insert(x).contains(y) implies r.to_set().contains(y) by {
                if y == q[0] {
                    assert(r[0] == y);
                } else if y == x {
                    assert(it.to_set().contains(y));
                    let w = choose|w: int| 0 <= w < it.len() && it[w] == y;
                    assert(r[w + 1] == y);
                } else {
                    let k = choose|k: int| 0 <= k < q.len() && q[k] == y;
                    assert(k > 0);
                    assert(t[k - 1] == y);
                    assert(it.to_set().contains(y));
                    let w = choose|w: int| 0 <= w < it.len() && it[w] == y;
                    assert(r[w + 1] == y);
                }
            }
        }
    }
}

/// Every finite set of strings has an ascending enumeration.
pub proof fn lemma_sorted_exists(s: Set<Seq<char>>)
    requires
        s.finite(),
    ensures
        sorted_of(s).to_set() == s,
        strictly_sorted(sorted_of(s)),
    decreases s.len(),
{
    let q = sorted_enumeration(s);
    assert(q.to_set() == s && strictly_sorted(q));
}

/// An ascending enumeration of a finite set of strings.
proof fn sorted_enumeration(s: Set<Seq<char>>) -> (q: Seq<Seq<char>>)
    requires
        s.finite(),
    ensures
        q.to_set() == s,
        strictly_sorted(q),
    decreases s.len(),
{
    if s.len() == 0 {
        assert(s =~= Set::<Seq<char>>::empty());
        let q = Seq::<Seq<char>>::empty();
        assert(q.to_set() =~= s);
        q
    } else {
        let x = s.choose();
        let q0 = sorted_enumeration(s.remove(x));
        assert(!q0.contains(x)) by {
            if q0.contains(x) {
                assert(q0.to_set().contains(x));
            }
        }
        lemma_insert_sorted(q0, x);
        assert(s.remove(x).insert(x) =~= s);
        insert_sorted(q0, x)
    }
}
} // verus!
