//! Transitive queries over a bipolar framework: who supports an argument
//! through chains of support, who attacks it in the closed attack
//! relation, and who shares its coalition.

use vstd::prelude::*;
use crate::bipolar::framework::BipolarFramework;
use crate::bipolar::derived::reach_plus;
use crate::bipolar::coalition::{Coalition, detect_coalitions};
use crate::matrix::{square, entry};
use crate::strings::{strings_view, names_match, select_names, owned, find_name, lemma_select_contains};
use crate::bipolar::framework::{lists_pairs, pairs_view};

verus! {

impl BipolarFramework {
    /// The arguments that reach `t` through one or more support steps,
    /// `t` itself left out.
    pub open spec fn supporters_mask(&self, t: int) -> Seq<bool> {
        Seq::new(self.size(), |i: int| i != t && reach_plus(self.support_rel(), i, t))
    }

    /// The arguments that attack `t` in the closed attack relation.
    pub open spec fn closed_attackers_mask(&self, t: int) -> Seq<bool> {
        Seq::new(self.size(), |i: int| self.closed_attack(i, t))
    }
}

/// Column `t` of the square matrix `mat`, leaving out row `skip` if it
/// is a position.
fn column_without(mat: &Vec<Vec<bool>>, n: usize, t: usize, skip: usize) -> (r: Vec<bool>)
    requires
        square(mat@, n as nat),
        t < n,
    ensures
        r@ == Seq::new(n as nat, |i: int| i != skip && entry(mat@, i, t as int)),
{
    let mut col: Vec<bool> = Vec::new();
    let mut i: usize = 0;
    while i < n
        invariant
            square(mat@, n as nat),
            t < n,
            i <= n,
            col@.len() == i,
            forall|k: int| 0 <= k < i ==> #[trigger] col@[k] == (k != skip && entry(mat@, k, t as int)),
        decreases n - i,
    {
        col.push(i != skip && mat[i][t]);
        i = i + 1;
    }
    assert(col@ =~= Seq::new(n as nat, |i: int| i != skip && entry(mat@, i, t as int)));
    col
}

/// The arguments that support `a` directly or through a chain of
/// supports, `a` itself excluded (none if `a` is absent).
pub fn transitive_supporters(framework: &BipolarFramework, a: &str) -> (r: Vec<String>)
    requires
        framework.wf(),
    ensures
        framework.arg_names().contains(a@) ==> exists|t: int|
            0 <= t < framework.size() && framework.arg_names()[t] == a@
            && #[trigger] names_match(r@, framework.named(framework.supporters_mask(t))),
        !framework.arg_names().contains(a@) ==> r@.len() == 0,
{
    match framework.position(a) {
        None => Vec::new(),
        Some(t) => {
            let n = framework.len();
            let cl = framework.support_closure();
            let col = column_without(&cl, n, t, t);
            assert(col@ =~= framework.supporters_mask(t as int));
            let r = select_names(framework.names_ref(), &col);
            assert(names_match(r@, framework.named(framework.supporters_mask(t as int))));
            r
        },
    }
}

/// The arguments that attack `a` in the closed attack relation, direct
/// and derived attacks alike (none if `a` is absent).
pub fn transitive_attackers(framework: &BipolarFramework, a: &str) -> (r: Vec<String>)
    requires
        framework.wf(),
    ensures
        framework.arg_names().contains(a@) ==> exists|t: int|
            0 <= t < framework.size() && framework.arg_names()[t] == a@
            && #[trigger] names_match(r@, framework.named(framework.closed_attackers_mask(t))),
        !framework.arg_names().contains(a@) ==> r@.len() == 0,
{
    match framework.position(a) {
        None => Vec::new(),
        Some(t) => {
            let n = framework.len();
            let m = framework.closed_matrix();
            let col = column_without(&m, n, t, n);
            assert(col@ =~= framework.closed_attackers_mask(t as int));
            let r = select_names(framework.names_ref(), &col);
            assert(names_match(r@, framework.named(framework.closed_attackers_mask(t as int))));
            r
        },
    }
}

/// The other members of `a`'s coalition, in no particular order: the
/// arguments that `a` supports and that support `a`, directly or through
/// others. Empty if `a` is absent or alone in its coalition.
pub fn coalitioned_with(framework: &BipolarFramework, a: &str) -> (r: Vec<String>)
    requires
        framework.wf(),
        framework.size() < u32::MAX,
        framework.support_count() < u32::MAX,
    ensures
        strings_view(r@).no_duplicates(),
        framework.arg_names().contains(a@) ==> exists|t: int|
            0 <= t < framework.size() && framework.arg_names()[t] == a@
            && forall|x: Seq<char>| #[trigger] strings_view(r@).contains(x) <==> exists|i: int|
                i != t && #[trigger] framework.allied(i, t) && framework.arg_names()[i] == x,
        !framework.arg_names().contains(a@) ==> r@.len() == 0,
{
    let key = owned(a);
    let pos = framework.position(a);
    if pos.is_none() {
        return Vec::new();
    }
    let t = pos.unwrap();
    let coalitions = detect_coalitions(framework);
    let ghost names = framework.arg_names();
    let mut c: usize = 0;
    while c < coalitions.len()
        invariant
            framework.wf(),
            t < framework.size(),
            names == framework.arg_names(),
            names[t as int] == key@,
            key@ == a@,
            c <= coalitions@.len(),
            forall|k: int| 0 <= k < c ==> !#[trigger] framework.member_at(coalitions@[k].members@, t as int),
            forall|k: int| 0 <= k < coalitions@.len() ==> strings_view(#[trigger] coalitions@[k].members@).no_duplicates(),
            forall|k: int, x: Seq<char>| 0 <= k < coalitions@.len() && #[trigger] strings_view(coalitions@[k].members@).contains(x)
                ==> framework.arg_names().contains(x),
            forall|i: int| 0 <= i < framework.size() ==> #[trigger] framework.in_some(coalitions@, i),
            forall|k: int, i: int, j: int| 0 <= k < coalitions@.len() && 0 <= i < framework.size() && 0 <= j < framework.size()
                && #[trigger] framework.member_at(coalitions@[k].members@, i)
                ==> (#[trigger] framework.member_at(coalitions@[k].members@, j) <==> framework.allied(i, j)),
        decreases coalitions@.len() - c,
    {
        if let Some(idx) = find_name(&coalitions[c].members, &key) {
            assert(strings_view(coalitions@[c as int].members@)[idx as int] == key@);
            assert(framework.member_at(coalitions@[c as int].members@, t as int));
            let members = &coalitions[c].members;
            let mut r: Vec<String> = Vec::new();
            let mut p: usize = 0;
            while p < members.len()
                invariant
                    framework.wf(),
                    names == framework.arg_names(),
                    strings_view(members@).no_duplicates(),
                    p <= members@.len(),
                    strings_view(r@).no_duplicates(),
                    forall|x: Seq<char>| #[trigger] strings_view(r@).contains(x) <==> exists|q: int|
                        0 <= q < p && members@[q]@ == x && x != key@,
                decreases members@.len() - p,
            {
                let ghost old_r = strings_view(r@);
                if !(members[p] == key) {
                    r.push(members[p].clone());
                    proof {
                        let x = members@[p as int]@;
                        assert(x != key@);
                        assert(strings_view(r@) =~= old_r.push(x));
                        if old_r.contains(x) {
                            let q = choose|q: int| 0 <= q < p && members@[q]@ == x && x != key@;
                            assert(strings_view(members@)[q] == strings_view(members@)[p as int]);
                        }
                        assert forall|y: Seq<char>| #[trigger] strings_view(r@).contains(y) <==> exists|q: int|
                            0 <= q < p + 1 && members@[q]@ == y && y != key@ by {
                            if strings_view(r@).contains(y) {
                                if y == x {
                                    assert(members@[p as int]@ == y && y != key@);
                                } else {
                                    let k = choose|k: int| 0 <= k < strings_view(r@).len() && strings_view(r@)[k] == y;
                                    assert(k < old_r.len());
                                    assert(old_r[k] == y);
                                    assert(old_r.contains(y));
                                    let q = choose|q: int| 0 <= q < p && members@[q]@ == y && y != key@;
                                    assert(members@[q]@ == y);
                                }
                            }
                            if exists|q: int| 0 <= q < p + 1 && members@[q]@ == y && y != key@ {
                                if y != x {
                                    let q = choose|q: int| 0 <= q < p + 1 && members@[q]@ == y && y != key@;
                                    assert(q < p);
                                    assert(old_r.contains(y));
                                    let k = choose|k: int| 0 <= k < old_r.len() && old_r[k] == y;
                                    assert(strings_view(r@)[k] == y);
                                } else {
                                    assert(strings_view(r@)[old_r.len() as int] == y);
                                }
                            }
                        }
                    }
                } else {
                    proof {
                        assert forall|y: Seq<char>| #[trigger] strings_view(r@).contains(y) <==> exists|q: int|
                            0 <= q < p + 1 && members@[q]@ == y && y != key@ by {
                            if exists|q: int| 0 <= q < p + 1 && members@[q]@ == y && y != key@ {
                                let q = choose|q: int| 0 <= q < p + 1 && members@[q]@ == y && y != key@;
                                assert(q < p);
                            }
                        }
                    }
                }
                p = p + 1;
            }
            proof {
                let cm = coalitions@[c as int].members@;
                assert forall|x: Seq<char>| #[trigger] strings_view(r@).contains(x) <==> exists|i: int|
                    i != t && #[trigger] framework.allied(i, t as int) && names[i] == x by {
                    if strings_view(r@).contains(x) {
                        let q = choose|q: int| 0 <= q < cm.len() && cm[q]@ == x && x != key@;
                        assert(strings_view(cm)[q] == x);
                        assert(strings_view(cm).contains(x));
                        let i = choose|i: int| 0 <= i < names.len() && names[i] == x;
                        assert(framework.member_at(cm, i));
                        assert(framework.allied(t as int, i));
                        assert(framework.allied(i, t as int));
                    }
                    if exists|i: int| i != t && #[trigger] framework.allied(i, t as int) && names[i] == x {
                        let i = choose|i: int| i != t && #[trigger] framework.allied(i, t as int) && names[i] == x;
                        assert(framework.allied(t as int, i));
                        assert(framework.member_at(cm, i));
                        let q = choose|q: int| 0 <= q < cm.len() && strings_view(cm)[q] == x;
                        assert(cm[q]@ == x);
                        assert(x != key@) by {
                            framework.lemma_wf();
                        }
                    }
                }
            }
            assert(names[t as int] == a@);
            assert(names.contains(a@));
            return r;
        }
        c = c + 1;
    }
    assert(framework.in_some(coalitions@, t as int));
    Vec::new()
}

/// The transitive attackers of an argument `a` are exactly the
/// arguments `x` with `(x, a)` in the closed attack set: both queries
/// read the same closed relation.
pub proof fn law_transitive_attackers_match_closed_attacks(
    framework: &BipolarFramework,
    t: int,
    attackers: Seq<String>,
    closed: Seq<(String, String)>,
)
    requires
        framework.wf(),
        0 <= t < framework.size(),
        names_match(attackers, framework.named(framework.closed_attackers_mask(t))),
        lists_pairs(closed, framework.arg_names(), framework.closed_rel()),
    ensures
        forall|x: Seq<char>| #[trigger] strings_view(attackers).contains(x)
            <==> pairs_view(closed).contains((x, framework.arg_names()[t])),
{
    let names = framework.arg_names();
    framework.lemma_wf();
    assert forall|x: Seq<char>| #[trigger] strings_view(attackers).contains(x)
        <==> pairs_view(closed).contains((x, names[t])) by {
        lemma_select_contains(names, framework.closed_attackers_mask(t), x);
        if pairs_view(closed).contains((x, names[t])) {
            let (i, j) = choose|i: int, j: int| 0 <= i < names.len() && 0 <= j < names.len()
                && #[trigger] (framework.closed_rel())(i, j) && names[i] == x && names[j] == names[t];
            assert(j == t);
            assert(framework.closed_attackers_mask(t)[i]);
        }
        if strings_view(attackers).contains(x) {
            let i = choose|i: int| 0 <= i < names.len() && framework.closed_attackers_mask(t)[i] && #[trigger] names[i] == x;
            assert((framework.closed_rel())(i, t));
        }
    }
}

} // verus!
