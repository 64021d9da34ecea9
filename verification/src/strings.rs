//! Helpers for sequences of names.

use vstd::prelude::*;
use vstd::string::StringExecFns;

verus! {

/// The character sequences of a sequence of strings.
pub open spec fn strings_view(v: Seq<String>) -> Seq<Seq<char>> {
    v.map_values(|s: String| s@)
}

/// `v` holds exactly the names `ns`, in order.
pub open spec fn names_match(v: Seq<String>, ns: Seq<Seq<char>>) -> bool {
    strings_view(v) == ns
}

/// The names `ns[i]` with `m[i]` set, in order.
pub open spec fn select(ns: Seq<Seq<char>>, m: Seq<bool>) -> Seq<Seq<char>>
    decreases ns.len(),
{
    if ns.len() == 0 || m.len() != ns.len() {
        Seq::empty()
    } else {
        let rest = select(ns.drop_last(), m.drop_last());
        if m.last() {
            rest.push(ns.last())
        } else {
            rest
        }
    }
}

/// A name is selected exactly when it sits at a marked position.
pub proof fn lemma_select_contains(ns: Seq<Seq<char>>, m: Seq<bool>, x: Seq<char>)
    requires
        m.len() == ns.len(),
    ensures
        select(ns, m).contains(x) <==> exists|i: int| 0 <= i < ns.len() && m[i] && #[trigger] ns[i] == x,
    decreases ns.len(),
{
    if ns.len() > 0 {
        let pn = ns.drop_last();
        let pm = m.drop_last();
        lemma_select_contains(pn, pm, x);
        let rest = select(pn, pm);
        if select(ns, m).contains(x) {
            if rest.contains(x) {
                let i = choose|i: int| 0 <= i < pn.len() && pm[i] && #[trigger] pn[i] == x;
                assert(ns[i] == x && m[i]);
            } else {
                assert(m.last() && ns.last() == x) by {
                    if m.last() {
                        let k = choose|k: int| 0 <= k < select(ns, m).len() && select(ns, m)[k] == x;
                        if k < rest.len() {
                            assert(rest[k] == x);
                        }
                    }
                }
                assert(ns[ns.len() - 1] == x);
            }
        }
        if exists|i: int| 0 <= i < ns.len() && m[i] && #[trigger] ns[i] == x {
            let i = choose|i: int| 0 <= i < ns.len() && m[i] && #[trigger] ns[i] == x;
            if i < ns.len() - 1 {
                assert(pn[i] == x && pm[i]);
                assert(rest.contains(x));
                let k = choose|k: int| 0 <= k < rest.len() && rest[k] == x;
                assert(select(ns, m)[k] == x);
            } else {
                assert(select(ns, m) == rest.push(ns.last()));
                assert(select(ns, m)[rest.len() as int] == x);
            }
        }
    }
}

/// Selecting over one more position appends that position's name when marked.
pub proof fn lemma_select_step(ns: Seq<Seq<char>>, m: Seq<bool>, i: int)
    requires
        m.len() == ns.len(),
        0 <= i < ns.len(),
    ensures
        select(ns.take(i + 1), m.take(i + 1)) == if m[i] {
            select(ns.take(i), m.take(i)).push(ns[i])
        } else {
            select(ns.take(i), m.take(i))
        },
{
    assert(ns.take(i + 1).drop_last() =~= ns.take(i));
    assert(m.take(i + 1).drop_last() =~= m.take(i));
}

/// The names at the marked positions of `m`, in order.
pub fn select_names(names: &Vec<String>, m: &Vec<bool>) -> (r: Vec<String>)
    requires
        m.len() == names.len(),
    ensures
        strings_view(r@) == select(strings_view(names@), m@),
{
    let ghost ns = strings_view(names@);
    let mut r: Vec<String> = Vec::new();
    let mut i: usize = 0;
    while i < names.len()
        invariant
            i <= names.len(),
            m.len() == names.len(),
            ns == strings_view(names@),
            strings_view(r@) == select(ns.take(i as int), m@.take(i as int)),
        decreases names.len() - i,
    {
        proof {
            lemma_select_step(ns, m@, i as int);
        }
        if m[i] {
            let s = names[i].clone();
            r.push(s);
            assert(strings_view(r@) =~= select(ns.take(i as int), m@.take(i as int)).push(ns[i as int]));
        }
        i = i + 1;
    }
    assert(ns.take(names.len() as int) =~= ns);
    assert(m@.take(names.len() as int) =~= m@);
    r
}

/// An owned copy of a string slice.
pub fn owned(s: &str) -> (r: String)
    ensures
        r@ == s@,
{
    String::from_str(s)
}

/// Position of `x` among `names`, if present.
pub fn find_name(names: &Vec<String>, x: &String) -> (r: Option<usize>)
    ensures
        match r {
            Some(i) => i < names.len() && names@[i as int]@ == x@,
            None => !strings_view(names@).contains(x@),
        },
{
    let mut i: usize = 0;
    while i < names.len()
        invariant
            i <= names.len(),
            forall|k: int| 0 <= k < i ==> names@[k]@ != x@,
        decreases names.len() - i,
    {
        if names[i] == *x {
            return Some(i);
        }
        i = i + 1;
    }
    assert(!strings_view(names@).contains(x@)) by {
        if strings_view(names@).contains(x@) {
            let k = choose|k: int| 0 <= k < names.len() && strings_view(names@)[k] == x@;
            assert(names@[k]@ == x@);
        }
    }
    None
}

} // verus!
