//! Derived attacks under necessary support.
//!
//! `A` attacks `C` in the closed relation iff there are `X`, `Y` with `A`
//! supporting `X` (reflexively and transitively), `X` directly attacking
//! `Y`, and `Y` supporting `C` (reflexively and transitively).  This
//! covers direct attacks, supported attacks (`A` supports `X`, `X`
//! attacks `B`), secondary/mediated attacks (`A` attacks `X`, `X`
//! supports `C`) and their composition. A self-attack is kept when it is
//! direct but never introduced by derivation.

use vstd::prelude::*;
use crate::dung::{count, subset, lemma_count_strict, lemma_count_bound};
use crate::bipolar::framework::{BipolarFramework, lists_pairs, pairs_view};
use crate::matrix::{square, entry};
use crate::strings::strings_view;

verus! {

/// `j` is reached from `i` by between one and `k + 1` steps of `rel`.
pub open spec fn reach_within(rel: spec_fn(int, int) -> bool, k: nat, i: int, j: int) -> bool
    decreases k,
{
    if k == 0 {
        rel(i, j)
    } else {
        reach_within(rel, (k - 1) as nat, i, j) || exists|x: int|
            #![trigger rel(x, j)]
            reach_within(rel, (k - 1) as nat, i, x) && rel(x, j)
    }
}

/// `j` is reached from `i` by one or more steps of `rel`.
pub open spec fn reach_plus(rel: spec_fn(int, int) -> bool, i: int, j: int) -> bool {
    exists|k: nat| #[trigger] reach_within(rel, k, i, j)
}

/// `j` is `i` or is reached from `i` by one or more steps of `rel`.
pub open spec fn reach_star(rel: spec_fn(int, int) -> bool, i: int, j: int) -> bool {
    i == j || reach_plus(rel, i, j)
}

/// One more step extends a path.
pub proof fn lemma_reach_step(rel: spec_fn(int, int) -> bool, i: int, x: int, j: int)
    requires
        reach_plus(rel, i, x),
        rel(x, j),
    ensures
        reach_plus(rel, i, j),
{
    let k = choose|k: nat| #[trigger] reach_within(rel, k, i, x);
    let k1 = (k + 1) as nat;
    assert((k1 - 1) as nat == k);
    assert(reach_within(rel, (k1 - 1) as nat, i, x) && rel(x, j));
    assert(reach_within(rel, k1, i, j));
}

/// A set containing the successors of `i` and closed under `rel`
/// contains everything reached from `i`.
pub proof fn lemma_reach_closed(rel: spec_fn(int, int) -> bool, i: int, s: spec_fn(int) -> bool, k: nat, j: int)
    requires
        forall|y: int| #[trigger] rel(i, y) ==> s(y),
        forall|x: int, y: int| s(x) && #[trigger] rel(x, y) ==> s(y),
        reach_within(rel, k, i, j),
    ensures
        s(j),
    decreases k,
{
    if k > 0 {
        if reach_within(rel, (k - 1) as nat, i, j) {
            lemma_reach_closed(rel, i, s, (k - 1) as nat, j);
        } else {
            let x = choose|x: int|
                #![trigger rel(x, j)]
                reach_within(rel, (k - 1) as nat, i, x) && rel(x, j);
            lemma_reach_closed(rel, i, s, (k - 1) as nat, x);
        }
    }
}

impl BipolarFramework {
    /// `i` attacks `j` in the closed attack relation: through support
    /// and one direct attack, and, where `i` is `j`, only by a direct
    /// self-attack.
    pub open spec fn closed_attack(&self, i: int, j: int) -> bool {
        &&& 0 <= i < self.size()
        &&& 0 <= j < self.size()
        &&& (i != j || (self.attack_rel())(i, j))
        &&& exists|x: int, y: int|
            #![trigger (self.attack_rel())(x, y)]
            reach_star(self.support_rel(), i, x) && (self.attack_rel())(x, y) && reach_star(self.support_rel(), y, j)
    }

    /// The closed attack relation as a relation value.
    pub open spec fn closed_rel(&self) -> spec_fn(int, int) -> bool {
        |i: int, j: int| self.closed_attack(i, j)
    }

    /// The arguments transitively supported by `s` (one or more steps).
    fn supported_from(&self, s: usize) -> (r: Vec<bool>)
        requires
            self.wf(),
            s < self.size(),
        ensures
            r@.len() == self.size(),
            forall|j: int| 0 <= j < self.size() ==> #[trigger] r@[j] == reach_plus(self.support_rel(), s as int, j),
    {
        let n = self.len();
        let ghost sup = self.support_rel();
        proof {
            self.lemma_wf();
        }
        let mut visited: Vec<bool> = Vec::new();
        let mut j: usize = 0;
        while j < n
            invariant
                self.wf(),
                n == self.size(),
                sup == self.support_rel(),
                s < n,
                j <= n,
                visited@.len() == j,
                forall|y: int| 0 <= y < j ==> #[trigger] visited@[y] == sup(s as int, y),
            decreases n - j,
        {
            visited.push(self.supports_at(s, j));
            j = j + 1;
        }
        proof {
            assert forall|y: int| 0 <= y < n && #[trigger] visited@[y] implies reach_plus(sup, s as int, y) by {
                assert(reach_within(sup, 0, s as int, y));
            }
        }
        loop
            invariant
                self.wf(),
                n == self.size(),
                sup == self.support_rel(),
                s < n,
                visited@.len() == n,
                forall|y: int| 0 <= y < n && #[trigger] visited@[y] ==> reach_plus(sup, s as int, y),
                forall|y: int| #[trigger] sup(s as int, y) ==> visited@[y],
                forall|a: int, b: int| #[trigger] sup(a, b) ==> 0 <= a < n && 0 <= b < n,
            decreases n - count(visited@),
        {
            let ghost start = visited@;
            let mut changed = false;
            let mut x: usize = 0;
            while x < n
                invariant
                    self.wf(),
                    n == self.size(),
                    sup == self.support_rel(),
                    s < n,
                    x <= n,
                    visited@.len() == n,
                    start.len() == n,
                    subset(start, visited@),
                    forall|y: int| 0 <= y < n && #[trigger] visited@[y] ==> reach_plus(sup, s as int, y),
                    forall|y: int| #[trigger] sup(s as int, y) ==> visited@[y],
                    !changed ==> visited@ == start,
                    changed ==> visited@ != start,
                    !changed ==> forall|a: int, b: int| 0 <= a < x && visited@[a] && #[trigger] sup(a, b) ==> visited@[b],
                    forall|a: int, b: int| #[trigger] sup(a, b) ==> 0 <= a < n && 0 <= b < n,
                decreases n - x,
            {
                if visited[x] {
                    let mut y: usize = 0;
                    while y < n
                        invariant
                            self.wf(),
                            n == self.size(),
                            sup == self.support_rel(),
                            s < n,
                            x < n,
                            y <= n,
                            visited@.len() == n,
                            start.len() == n,
                            visited@[x as int],
                            subset(start, visited@),
                            forall|z: int| 0 <= z < n && #[trigger] visited@[z] ==> reach_plus(sup, s as int, z),
                            forall|z: int| #[trigger] sup(s as int, z) ==> visited@[z],
                            !changed ==> visited@ == start,
                            changed ==> visited@ != start,
                            !changed ==> forall|a: int, b: int| 0 <= a < x && visited@[a] && #[trigger] sup(a, b) ==> visited@[b],
                            !changed ==> forall|b: int| 0 <= b < y && #[trigger] sup(x as int, b) ==> visited@[b],
                            forall|a: int, b: int| #[trigger] sup(a, b) ==> 0 <= a < n && 0 <= b < n,
                        decreases n - y,
                    {
                        if self.supports_at(x, y) && !visited[y] {
                            proof {
                                lemma_reach_step(sup, s as int, x as int, y as int);
                            }
                            let ghost before = visited@;
                            visited.set(y, true);
                            proof {
                                assert forall|z: int| 0 <= z < n && #[trigger] before[z] implies visited@[z] by {
                                    assert(visited@[z] == if z == y { true } else { before[z] });
                                }
                                assert(!start[y as int]);
                                assert(visited@[y as int] != start[y as int]);
                                assert(subset(start, visited@)) by {
                                    assert forall|i: int| 0 <= i < start.len() && #[trigger] start[i] implies visited@[i] by {
                                        assert(before[i]);
                                    }
                                }
                            }
                            changed = true;
                        }
                        y = y + 1;
                    }
                }
                x = x + 1;
            }
            if !changed {
                proof {
                    assert forall|j: int| 0 <= j < self.size() implies #[trigger] visited@[j] == reach_plus(sup, s as int, j) by {
                        if reach_plus(sup, s as int, j) {
                            let k = choose|k: nat| #[trigger] reach_within(sup, k, s as int, j);
                            let vis = visited@;
                            let in_set = |z: int| 0 <= z < n && vis[z];
                            assert forall|a: int, b: int| in_set(a) && #[trigger] sup(a, b) implies in_set(b) by {
                                assert(0 <= b < n);
                            }
                            assert forall|b: int| #[trigger] sup(s as int, b) implies in_set(b) by {
                                assert(0 <= b < n);
                            }
                            lemma_reach_closed(sup, s as int, in_set, k, j);
                        }
                    }
                }
                return visited;
            }
            proof {
                lemma_count_strict(start, visited@);
                lemma_count_bound(visited@);
            }
        }
    }

    /// For each argument, the arguments it transitively supports (one or
    /// more steps).
    pub fn support_closure(&self) -> (r: Vec<Vec<bool>>)
        requires
            self.wf(),
        ensures
            square(r@, self.size()),
            forall|i: int, j: int| #[trigger] entry(r@, i, j) == (0 <= i < self.size() && 0 <= j < self.size()
                && reach_plus(self.support_rel(), i, j)),
    {
        let n = self.len();
        let mut r: Vec<Vec<bool>> = Vec::new();
        let mut i: usize = 0;
        while i < n
            invariant
                self.wf(),
                n == self.size(),
                i <= n,
                r@.len() == i,
                forall|k: int| 0 <= k < i ==> #[trigger] r@[k]@.len() == n,
                forall|k: int, j: int| 0 <= k < i && 0 <= j < n ==> #[trigger] r@[k]@[j] == reach_plus(self.support_rel(), k, j),
            decreases n - i,
        {
            let row = self.supported_from(i);
            r.push(row);
            i = i + 1;
        }
        r
    }

    /// Whether `i` attacks `j` in the closed relation, given the support
    /// closure `cl`.
    fn closed_at(&self, cl: &Vec<Vec<bool>>, i: usize, j: usize) -> (r: bool)
        requires
            self.wf(),
            square(cl@, self.size()),
            forall|a: int, b: int| #[trigger] entry(cl@, a, b) == (0 <= a < self.size() && 0 <= b < self.size()
                && reach_plus(self.support_rel(), a, b)),
            i < self.size(),
            j < self.size(),
        ensures
            r == self.closed_attack(i as int, j as int),
    {
        let n = self.len();
        let ghost sup = self.support_rel();
        let ghost att = self.attack_rel();
        proof {
            self.lemma_wf();
        }
        if i == j {
            let d = self.attacks_at(i, j);
            assert(d ==> att(i as int, j as int));
            return d;
        }
        let mut x: usize = 0;
        while x < n
            invariant
                self.wf(),
                n == self.size(),
                sup == self.support_rel(),
                att == self.attack_rel(),
                i < n,
                j < n,
                i != j,
                x <= n,
                square(cl@, n as nat),
                forall|a: int, b: int| #[trigger] entry(cl@, a, b) == (0 <= a < n && 0 <= b < n && reach_plus(sup, a, b)),
                forall|a: int, b: int| 0 <= a < x && #[trigger] att(a, b) ==> !(reach_star(sup, i as int, a) && reach_star(sup, b, j as int)),
                forall|a: int, b: int| #[trigger] att(a, b) ==> 0 <= a < n && 0 <= b < n,
            decreases n - x,
        {
            let mut y: usize = 0;
            while y < n
                invariant
                    self.wf(),
                    n == self.size(),
                    sup == self.support_rel(),
                    att == self.attack_rel(),
                    i < n,
                    j < n,
                    i != j,
                    x < n,
                    y <= n,
                    square(cl@, n as nat),
                    forall|a: int, b: int| #[trigger] entry(cl@, a, b) == (0 <= a < n && 0 <= b < n && reach_plus(sup, a, b)),
                    forall|a: int, b: int| 0 <= a < x && #[trigger] att(a, b) ==> !(reach_star(sup, i as int, a) && reach_star(sup, b, j as int)),
                    forall|b: int| 0 <= b < y && #[trigger] att(x as int, b) ==> !(reach_star(sup, i as int, x as int) && reach_star(sup, b, j as int)),
                    forall|a: int, b: int| #[trigger] att(a, b) ==> 0 <= a < n && 0 <= b < n,
                decreases n - y,
            {
                let from_i = i == x || cl[i][x];
                let to_j = y == j || cl[y][j];
                assert(entry(cl@, i as int, x as int) == cl@[i as int]@[x as int]);
                assert(entry(cl@, y as int, j as int) == cl@[y as int]@[j as int]);
                if from_i && self.attacks_at(x, y) && to_j {
                    assert(att(x as int, y as int));
                    return true;
                }
                y = y + 1;
            }
            x = x + 1;
        }
        proof {
            self.lemma_wf();
            assert(!self.closed_attack(i as int, j as int)) by {
                if self.closed_attack(i as int, j as int) {
                    let (a, b) = choose|a: int, b: int|
                        #![trigger att(a, b)]
                        reach_star(sup, i as int, a) && att(a, b) && reach_star(sup, b, j as int);
                    assert(0 <= a < n);
                }
            }
        }
        false
    }

    /// The closed attack relation as a matrix.
    pub fn closed_matrix(&self) -> (r: Vec<Vec<bool>>)
        requires
            self.wf(),
        ensures
            square(r@, self.size()),
            forall|i: int, j: int| #[trigger] entry(r@, i, j) == self.closed_attack(i, j),
    {
        let n = self.len();
        let cl = self.support_closure();
        let mut r: Vec<Vec<bool>> = Vec::new();
        let mut i: usize = 0;
        while i < n
            invariant
                self.wf(),
                n == self.size(),
                square(cl@, n as nat),
                forall|a: int, b: int| #[trigger] entry(cl@, a, b) == (0 <= a < n && 0 <= b < n
                    && reach_plus(self.support_rel(), a, b)),
                i <= n,
                r@.len() == i,
                forall|k: int| 0 <= k < i ==> #[trigger] r@[k]@.len() == n,
                forall|k: int, j: int| 0 <= k < i && 0 <= j < n ==> #[trigger] r@[k]@[j] == self.closed_attack(k, j),
            decreases n - i,
        {
            let mut row: Vec<bool> = Vec::new();
            let mut j: usize = 0;
            while j < n
                invariant
                    self.wf(),
                    n == self.size(),
                    square(cl@, n as nat),
                    forall|a: int, b: int| #[trigger] entry(cl@, a, b) == (0 <= a < n && 0 <= b < n
                        && reach_plus(self.support_rel(), a, b)),
                    i < n,
                    j <= n,
                    row@.len() == j,
                    forall|b: int| 0 <= b < j ==> #[trigger] row@[b] == self.closed_attack(i as int, b),
                decreases n - j,
            {
                let c = self.closed_at(&cl, i, j);
                row.push(c);
                j = j + 1;
            }
            r.push(row);
            i = i + 1;
        }
        r
    }
}

/// The closed attack set: every direct attack plus every attack derived
/// through support, as pairs of names, each once (so at most the square
/// of the number of arguments).
pub fn closed_attacks(framework: &BipolarFramework) -> (r: Vec<(String, String)>)
    requires
        framework.wf(),
    ensures
        lists_pairs(r@, framework.arg_names(), framework.closed_rel()),
        r@.len() <= framework.size() * framework.size(),
{
    let m = framework.closed_matrix();
    let r = framework.named_pairs(&m);
    assert(framework.closed_rel() =~= (|i: int, j: int| entry(m@, i, j)));
    r
}

/// A step in front of a path gives a path.
pub proof fn lemma_reach_prepend(rel: spec_fn(int, int) -> bool, i: int, x: int, k: nat, j: int)
    requires
        rel(i, x),
        reach_within(rel, k, x, j),
    ensures
        reach_plus(rel, i, j),
    decreases k,
{
    if k == 0 {
        assert(reach_within(rel, 0, i, x));
        lemma_reach_step(rel, i, x, j);
    } else if reach_within(rel, (k - 1) as nat, x, j) {
        lemma_reach_prepend(rel, i, x, (k - 1) as nat, j);
    } else {
        let y = choose|y: int| #![trigger rel(y, j)] reach_within(rel, (k - 1) as nat, x, y) && rel(y, j);
        lemma_reach_prepend(rel, i, x, (k - 1) as nat, y);
        lemma_reach_step(rel, i, y, j);
    }
}

/// Every direct attack is in the closed attack relation.
pub proof fn law_direct_attacks_closed(framework: &BipolarFramework, a: int, b: int)
    requires
        framework.wf(),
        (framework.attack_rel())(a, b),
    ensures
        framework.closed_attack(a, b),
{
    framework.lemma_wf();
    assert(reach_star(framework.support_rel(), a, a));
    assert(reach_star(framework.support_rel(), b, b));
}

/// The closed attack relation passes along supports (mediated attacks):
/// if `a` attacks `y` and `y` supports `c`, then `a` attacks `c`, unless
/// `c` is `a` itself.
pub proof fn law_closed_attack_follows_support(framework: &BipolarFramework, a: int, y: int, c: int)
    requires
        framework.wf(),
        framework.closed_attack(a, y),
        (framework.support_rel())(y, c),
        c != a,
    ensures
        framework.closed_attack(a, c),
{
    framework.lemma_wf();
    let sup = framework.support_rel();
    let att = framework.attack_rel();
    let (x, w) = choose|x: int, w: int| #![trigger att(x, w)]
        reach_star(sup, a, x) && att(x, w) && reach_star(sup, w, y);
    if w == y {
        assert(reach_within(sup, 0, y, c));
    } else {
        lemma_reach_step(sup, w, y, c);
    }
    assert(reach_star(sup, w, c));
    assert(att(x, w));
}

/// The closed attack relation is inherited by supporters (supported
/// attacks): if `a` supports `x` and `x` attacks `c`, then `a` attacks
/// `c`, unless `c` is `a` itself.
pub proof fn law_closed_attack_inherited_by_supporters(framework: &BipolarFramework, a: int, x: int, c: int)
    requires
        framework.wf(),
        (framework.support_rel())(a, x),
        framework.closed_attack(x, c),
        c != a,
    ensures
        framework.closed_attack(a, c),
{
    framework.lemma_wf();
    let sup = framework.support_rel();
    let att = framework.attack_rel();
    let (u, w) = choose|u: int, w: int| #![trigger att(u, w)]
        reach_star(sup, x, u) && att(u, w) && reach_star(sup, w, c);
    if u == x {
        assert(reach_within(sup, 0, a, x));
    } else {
        let k = choose|k: nat| #[trigger] reach_within(sup, k, x, u);
        lemma_reach_prepend(sup, a, x, k, u);
    }
    assert(reach_star(sup, a, u));
    assert(att(u, w));
}

/// An attack carries down a whole chain of supports: if `a` attacks `x`
/// directly and `c` is reached from `x` by one or more supports, then `a`
/// attacks `c`, unless `c` is `a` itself.
pub proof fn law_attack_through_support_chain(framework: &BipolarFramework, a: int, x: int, k: nat, c: int)
    requires
        framework.wf(),
        (framework.attack_rel())(a, x),
        reach_within(framework.support_rel(), k, x, c),
        c != a,
    ensures
        framework.closed_attack(a, c),
{
    framework.lemma_wf();
    let sup = framework.support_rel();
    assert(reach_star(sup, a, a));
    assert(reach_star(sup, x, c));
    assert(reach_plus(sup, x, c));
    lemma_reach_closed_range(framework, x, k, c);
    assert((framework.attack_rel())(a, x));
}

/// A path of supports ends at an argument.
proof fn lemma_reach_closed_range(framework: &BipolarFramework, x: int, k: nat, c: int)
    requires
        framework.wf(),
        reach_within(framework.support_rel(), k, x, c),
    ensures
        0 <= c < framework.size(),
    decreases k,
{
    framework.lemma_wf();
    if k > 0 {
        if reach_within(framework.support_rel(), (k - 1) as nat, x, c) {
            lemma_reach_closed_range(framework, x, (k - 1) as nat, c);
        } else {
            let y = choose|y: int| #![trigger (framework.support_rel())(y, c)]
                reach_within(framework.support_rel(), (k - 1) as nat, x, y) && (framework.support_rel())(y, c);
        }
    }
}

} // verus!
