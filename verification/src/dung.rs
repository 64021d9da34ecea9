//! Dung abstract argumentation frameworks.
//!
//! Arguments are identified by name; internally they are numbered in the
//! order in which they were added, and a candidate extension is a mask
//! (`Seq<bool>`) over those numbers.  All semantics are stated over an
//! argument count `n` and an attack relation `att`, so that derived
//! frameworks (bipolar flattening, value-conditioned defeat graphs) can
//! reuse them.

use vstd::prelude::*;
use crate::strings::{strings_view, select, select_names, find_name, owned, names_match, lemma_select_contains};


verus! {

/// Largest framework (in arguments) for which the subset-enumerating
/// semantics (complete, preferred, stable) are computed.
pub const ENUMERATION_LIMIT: usize = 20;

// ---------------------------------------------------------------------
// Semantics over masks
// ---------------------------------------------------------------------

/// `m2` contains every argument of `m1`.
pub open spec fn subset(m1: Seq<bool>, m2: Seq<bool>) -> bool {
    forall|i: int| 0 <= i < m1.len() && #[trigger] m1[i] ==> m2[i]
}

/// No argument of `m` attacks an argument of `m`.
pub open spec fn conflict_free(n: nat, att: spec_fn(int, int) -> bool, m: Seq<bool>) -> bool {
    forall|i: int, j: int|
        #![trigger att(i, j)]
        0 <= i < n && 0 <= j < n && m[i] && m[j] ==> !att(i, j)
}

/// Every attacker of `a` is attacked by some argument of `m`.
pub open spec fn defends(n: nat, att: spec_fn(int, int) -> bool, m: Seq<bool>, a: int) -> bool {
    forall|b: int|
        #![trigger att(b, a)]
        0 <= b < n && att(b, a) ==> exists|c: int| #![trigger att(c, b)] 0 <= c < n && m[c] && att(c, b)
}

/// Conflict-free and defending each of its own members.
pub open spec fn admissible(n: nat, att: spec_fn(int, int) -> bool, m: Seq<bool>) -> bool {
    &&& m.len() == n
    &&& conflict_free(n, att, m)
    &&& forall|a: int| 0 <= a < n && #[trigger] m[a] ==> defends(n, att, m, a)
}

/// Admissible and containing every argument it defends.
#[verifier::opaque]
pub open spec fn complete(n: nat, att: spec_fn(int, int) -> bool, m: Seq<bool>) -> bool {
    &&& admissible(n, att, m)
    &&& forall|a: int| 0 <= a < n && #[trigger] defends(n, att, m, a) ==> m[a]
}

/// A maximal (for inclusion) admissible set.
#[verifier::opaque]
pub open spec fn preferred(n: nat, att: spec_fn(int, int) -> bool, m: Seq<bool>) -> bool {
    &&& admissible(n, att, m)
    &&& forall|m2: Seq<bool>| #[trigger] admissible(n, att, m2) && subset(m, m2) ==> m2 == m
}

/// Conflict-free and attacking every argument outside it.
#[verifier::opaque]
pub open spec fn stable(n: nat, att: spec_fn(int, int) -> bool, m: Seq<bool>) -> bool {
    &&& m.len() == n
    &&& conflict_free(n, att, m)
    &&& forall|a: int|
        0 <= a < n && !#[trigger] m[a] ==> exists|b: int| #![trigger att(b, a)] 0 <= b < n && m[b] && att(b, a)
}

/// The least complete extension.
pub open spec fn grounded(n: nat, att: spec_fn(int, int) -> bool, m: Seq<bool>) -> bool {
    &&& complete(n, att, m)
    &&& forall|c: Seq<bool>| #[trigger] complete(n, att, c) ==> subset(m, c)
}

/// The characteristic function: the arguments that `m` defends.
pub open spec fn characteristic(n: nat, att: spec_fn(int, int) -> bool, m: Seq<bool>) -> Seq<bool> {
    Seq::new(n, |a: int| defends(n, att, m, a))
}

/// `m` and `p` agree on the first `p.len()` positions.
pub open spec fn extends(p: Seq<bool>, m: Seq<bool>) -> bool {
    &&& p.len() <= m.len()
    &&& forall|i: int| 0 <= i < p.len() ==> m[i] == #[trigger] p[i]
}

/// Extending a longer prefix extends the shorter one.
pub proof fn lemma_extends_push(p: Seq<bool>, b: bool, m: Seq<bool>)
    requires
        extends(p.push(b), m),
    ensures
        extends(p, m),
{
    assert forall|i: int| 0 <= i < p.len() implies m[i] == #[trigger] p[i] by {
        assert(p.push(b)[i] == p[i]);
    }
}

/// Number of arguments in a mask.
pub open spec fn count(m: Seq<bool>) -> nat
    decreases m.len(),
{
    if m.len() == 0 {
        0
    } else {
        count(m.drop_last()) + if m.last() { 1nat } else { 0nat }
    }
}

// ---------------------------------------------------------------------
// Lemmas
// ---------------------------------------------------------------------

/// Defence is monotone in the defending set.
pub proof fn lemma_defends_monotone(
    n: nat,
    att: spec_fn(int, int) -> bool,
    m1: Seq<bool>,
    m2: Seq<bool>,
    a: int,
)
    requires
        m1.len() == n,
        m2.len() == n,
        subset(m1, m2),
        defends(n, att, m1, a),
    ensures
        defends(n, att, m2, a),
{
    assert forall|b: int| 0 <= b < n && #[trigger] att(b, a) implies exists|c: int|
        #![trigger att(c, b)]
        0 <= c < n && m2[c] && att(c, b) by {
        let c = choose|c: int| #![trigger att(c, b)] 0 <= c < n && m1[c] && att(c, b);
        assert(m2[c]);
    }
}

/// The characteristic function maps admissible sets to admissible
/// supersets of themselves.
pub proof fn lemma_characteristic_admissible(n: nat, att: spec_fn(int, int) -> bool, m: Seq<bool>)
    requires
        admissible(n, att, m),
    ensures
        subset(m, characteristic(n, att, m)),
        admissible(n, att, characteristic(n, att, m)),
{
    let f = characteristic(n, att, m);
    assert(subset(m, f));
    assert forall|i: int, j: int|
        #![trigger att(i, j)]
        0 <= i < n && 0 <= j < n && f[i] && f[j] implies !att(i, j) by {
        if att(i, j) {
            // j is defended against i by some c in m
            assert(defends(n, att, m, j));
            let c = choose|c: int| #![trigger att(c, i)] 0 <= c < n && m[c] && att(c, i);
            // i is defended against c by some d in m
            assert(defends(n, att, m, i));
            let d = choose|d: int| #![trigger att(d, c)] 0 <= d < n && m[d] && att(d, c);
            assert(!att(d, c));
        }
    }
    assert forall|a: int| 0 <= a < n && #[trigger] f[a] implies defends(n, att, f, a) by {
        lemma_defends_monotone(n, att, m, f, a);
    }
}

/// The characteristic function stays inside any complete extension
/// when applied to one of its subsets.
pub proof fn lemma_characteristic_below_complete(
    n: nat,
    att: spec_fn(int, int) -> bool,
    m: Seq<bool>,
    c: Seq<bool>,
)
    requires
        m.len() == n,
        complete(n, att, c),
        subset(m, c),
    ensures
        subset(characteristic(n, att, m), c),
{
    reveal(complete);
    let f = characteristic(n, att, m);
    assert forall|a: int| 0 <= a < f.len() && #[trigger] f[a] implies c[a] by {
        lemma_defends_monotone(n, att, m, c, a);
    }
}

/// Stable extensions are admissible.
pub proof fn lemma_stable_admissible(n: nat, att: spec_fn(int, int) -> bool, m: Seq<bool>)
    requires
        stable(n, att, m),
    ensures
        admissible(n, att, m),
{
    reveal(stable);
    assert forall|a: int| 0 <= a < n && #[trigger] m[a] implies defends(n, att, m, a) by {
        assert forall|b: int| 0 <= b < n && #[trigger] att(b, a) implies exists|c: int|
            #![trigger att(c, b)]
            0 <= c < n && m[c] && att(c, b) by {
            assert(!m[b]);
        }
    }
}

/// Dung's fundamental lemma: an admissible set stays admissible when it
/// takes in an argument it defends.
pub proof fn lemma_fundamental(n: nat, att: spec_fn(int, int) -> bool, m: Seq<bool>, a: int)
    requires
        admissible(n, att, m),
        0 <= a < n,
        defends(n, att, m, a),
    ensures
        admissible(n, att, m.update(a, true)),
        subset(m, m.update(a, true)),
{
    let m2 = m.update(a, true);
    assert forall|i: int, j: int|
        #![trigger att(i, j)]
        0 <= i < n && 0 <= j < n && m2[i] && m2[j] implies !att(i, j) by {
        if att(i, j) {
            if i == a && j == a {
                let c = choose|c: int| #![trigger att(c, a)] 0 <= c < n && m[c] && att(c, a);
                let d = choose|d: int| #![trigger att(d, c)] 0 <= d < n && m[d] && att(d, c);
                assert(!att(d, c));
            } else if i == a {
                // j is in m, defended against a by some c in m; a defends itself against c
                assert(m[j]);
                assert(defends(n, att, m, j));
                let c = choose|c: int| #![trigger att(c, a)] 0 <= c < n && m[c] && att(c, a);
                let d = choose|d: int| #![trigger att(d, c)] 0 <= d < n && m[d] && att(d, c);
                assert(!att(d, c));
            } else if j == a {
                assert(m[i]);
                let d = choose|d: int| #![trigger att(d, i)] 0 <= d < n && m[d] && att(d, i);
                assert(!att(d, i));
            } else {
                assert(m[i] && m[j]);
            }
        }
    }
    assert(subset(m, m2));
    assert forall|x: int| 0 <= x < n && #[trigger] m2[x] implies defends(n, att, m2, x) by {
        if x == a {
            lemma_defends_monotone(n, att, m, m2, a);
        } else {
            assert(m[x]);
            lemma_defends_monotone(n, att, m, m2, x);
        }
    }
}

/// A strictly larger mask (of the same length) has a larger count.
pub proof fn lemma_count_strict(m1: Seq<bool>, m2: Seq<bool>)
    requires
        m1.len() == m2.len(),
        subset(m1, m2),
        m1 != m2,
    ensures
        count(m1) < count(m2),
    decreases m1.len(),
{
    if m1.len() == 0 {
        assert(m1 =~= m2);
    } else {
        let p1 = m1.drop_last();
        let p2 = m2.drop_last();
        assert(subset(p1, p2)) by {
            assert forall|i: int| 0 <= i < p1.len() && #[trigger] p1[i] implies p2[i] by {
                assert(m1[i]);
            }
        }
        if p1 == p2 {
            assert(m1.last() != m2.last()) by {
                if m1.last() == m2.last() {
                    assert forall|i: int| 0 <= i < m1.len() implies m1[i] == m2[i] by {
                        if i < m1.len() - 1 {
                            assert(p1[i] == p2[i]);
                        }
                    }
                    assert(m1 =~= m2);
                }
            }
            assert(m2.last());
        } else {
            lemma_count_strict(p1, p2);
            lemma_count_monotone_last(m1, m2);
        }
    }
}

proof fn lemma_count_monotone_last(m1: Seq<bool>, m2: Seq<bool>)
    requires
        m1.len() == m2.len(),
        m1.len() > 0,
        subset(m1, m2),
    ensures
        m1.last() ==> m2.last(),
{
    assert(m1[m1.len() - 1] ==> m2[m1.len() - 1]);
}

/// A mask never counts more arguments than its length.
pub proof fn lemma_count_bound(m: Seq<bool>)
    ensures
        count(m) <= m.len(),
    decreases m.len(),
{
    if m.len() > 0 {
        lemma_count_bound(m.drop_last());
    }
}


/// The mask with no argument marked.
pub fn empty_mask(n: usize) -> (r: Vec<bool>)
    ensures
        r@.len() == n,
        forall|i: int| 0 <= i < n ==> !#[trigger] r@[i],
{
    let mut r: Vec<bool> = Vec::new();
    let mut i: usize = 0;
    while i < n
        invariant
            i <= n,
            r@.len() == i,
            forall|k: int| 0 <= k < i ==> !#[trigger] r@[k],
        decreases n - i,
    {
        r.push(false);
        i = i + 1;
    }
    r
}

/// Whether two masks are equal.
pub fn masks_equal(a: &Vec<bool>, b: &Vec<bool>) -> (r: bool)
    ensures
        r == (a@ == b@),
{
    if a.len() != b.len() {
        return false;
    }
    let mut i: usize = 0;
    while i < a.len()
        invariant
            a@.len() == b@.len(),
            i <= a.len(),
            forall|k: int| 0 <= k < i ==> a@[k] == b@[k],
        decreases a.len() - i,
    {
        if a[i] != b[i] {
            return false;
        }
        i = i + 1;
    }
    assert(a@ =~= b@);
    true
}

/// Whether every argument of `a` is in `b`.
pub fn mask_subset(a: &Vec<bool>, b: &Vec<bool>) -> (r: bool)
    requires
        a@.len() == b@.len(),
    ensures
        r == subset(a@, b@),
{
    let mut i: usize = 0;
    while i < a.len()
        invariant
            a@.len() == b@.len(),
            i <= a.len(),
            forall|k: int| 0 <= k < i && #[trigger] a@[k] ==> b@[k],
        decreases a.len() - i,
    {
        if a[i] && !b[i] {
            return false;
        }
        i = i + 1;
    }
    true
}

// ---------------------------------------------------------------------
// Laws
// ---------------------------------------------------------------------

/// There is at most one grounded extension.
pub proof fn law_grounded_unique(n: nat, att: spec_fn(int, int) -> bool, m1: Seq<bool>, m2: Seq<bool>)
    requires
        grounded(n, att, m1),
        grounded(n, att, m2),
    ensures
        m1 == m2,
{
    reveal(complete);
    assert(subset(m1, m2));
    assert(subset(m2, m1));
    assert forall|i: int| 0 <= i < m1.len() implies m1[i] == m2[i] by {
        if m1[i] {
            assert(m2[i]);
        }
        if m2[i] {
            assert(m1[i]);
        }
    }
    assert(m1 =~= m2);
}

/// Every preferred extension is complete.
pub proof fn law_preferred_is_complete(n: nat, att: spec_fn(int, int) -> bool, m: Seq<bool>)
    requires
        preferred(n, att, m),
    ensures
        complete(n, att, m),
{
    reveal(complete);
    reveal(preferred);
    assert forall|a: int| 0 <= a < n && #[trigger] defends(n, att, m, a) implies m[a] by {
        lemma_fundamental(n, att, m, a);
        assert(m.update(a, true) == m);
        assert(m.update(a, true)[a]);
    }
}

/// Every stable extension is preferred.
pub proof fn law_stable_is_preferred(n: nat, att: spec_fn(int, int) -> bool, m: Seq<bool>)
    requires
        stable(n, att, m),
    ensures
        preferred(n, att, m),
{
    reveal(preferred);
    reveal(stable);
    lemma_stable_admissible(n, att, m);
    assert forall|m2: Seq<bool>| #[trigger] admissible(n, att, m2) && subset(m, m2) implies m2 == m by {
        assert forall|a: int| 0 <= a < n implies m2[a] == m[a] by {
            if m2[a] && !m[a] {
                let b = choose|b: int| #![trigger att(b, a)] 0 <= b < n && m[b] && att(b, a);
                assert(m2[b]);
                assert(!att(b, a));
            }
            if m[a] {
                assert(m2[a]);
            }
        }
        assert(m2 =~= m);
    }
}

/// Every admissible set lies inside some preferred extension.
pub proof fn lemma_preferred_exists(n: nat, att: spec_fn(int, int) -> bool, m: Seq<bool>)
    requires
        admissible(n, att, m),
    ensures
        exists|p: Seq<bool>| #[trigger] preferred(n, att, p) && subset(m, p),
    decreases n - count(m),
{
    lemma_count_bound(m);
    if preferred(n, att, m) {
        assert(subset(m, m));
    } else {
        assert(exists|m2: Seq<bool>| #[trigger] admissible(n, att, m2) && subset(m, m2) && m2 != m) by {
            reveal(preferred);
        }
        let m2 = choose|m2: Seq<bool>| #[trigger] admissible(n, att, m2) && subset(m, m2) && m2 != m;
        lemma_count_strict(m, m2);
        lemma_count_bound(m2);
        lemma_preferred_exists(n, att, m2);
        let p = choose|p: Seq<bool>| #[trigger] preferred(n, att, p) && subset(m2, p);
        assert(subset(m, p)) by {
            assert forall|i: int| 0 <= i < m.len() && #[trigger] m[i] implies p[i] by {
                assert(m2[i]);
            }
        }
    }
}

/// The grounded extension is contained in every preferred extension.
pub proof fn law_grounded_in_preferred(n: nat, att: spec_fn(int, int) -> bool, g: Seq<bool>, p: Seq<bool>)
    requires
        grounded(n, att, g),
        preferred(n, att, p),
    ensures
        subset(g, p),
{
    law_preferred_is_complete(n, att, p);
}

// ---------------------------------------------------------------------
// The framework
// ---------------------------------------------------------------------

/// Errors of the Dung layer.
#[derive(Debug, Clone, PartialEq, Eq)]
pub enum DungError {
    /// An attack named an argument that is not in the framework.
    ArgumentNotFound(String),
    /// The framework has too many arguments for subset enumeration.
    TooLarge { arguments: usize, limit: usize },
}

/// A Dung framework: named arguments and a binary attack relation.
#[derive(Debug, Clone)]
pub struct ArgumentationFramework {
    names: Vec<String>,
    adj: Vec<Vec<bool>>,
}

impl ArgumentationFramework {
    /// Internal consistency: an `n × n` attack matrix over distinct names.
    pub closed spec fn wf(&self) -> bool {
        &&& self.adj@.len() == self.names@.len()
        &&& forall|i: int| 0 <= i < self.adj@.len() ==> #[trigger] self.adj@[i]@.len() == self.names@.len()
        &&& strings_view(self.names@).no_duplicates()
    }

    /// The argument names, in insertion order.
    pub closed spec fn arg_names(&self) -> Seq<Seq<char>> {
        strings_view(self.names@)
    }

    /// Number of arguments.
    pub open spec fn size(&self) -> nat {
        self.arg_names().len()
    }

    /// The attack relation over argument positions.
    pub closed spec fn attacks(&self) -> spec_fn(int, int) -> bool {
        |i: int, j: int|
            0 <= i < self.adj@.len() && 0 <= j < self.adj@[i]@.len() && self.adj@[i]@[j]
    }

    /// The names of the arguments marked in `m`.
    pub open spec fn named(&self, m: Seq<bool>) -> Seq<Seq<char>> {
        select(self.arg_names(), m)
    }

    /// The error for a framework too large to enumerate.
    pub open spec fn too_large(&self, e: DungError) -> bool {
        e == (DungError::TooLarge { arguments: self.size() as usize, limit: ENUMERATION_LIMIT })
    }

    /// The mask of the framework's arguments that `v` names.
    pub open spec fn mask_of(&self, v: Seq<String>) -> Seq<bool> {
        Seq::new(self.size(), |i: int| strings_view(v).contains(self.arg_names()[i]))
    }

    /// Naming a mask and reading the names back gives the mask again.
    pub proof fn lemma_mask_of_named(&self, v: Seq<String>, m: Seq<bool>)
        requires
            self.wf(),
            m.len() == self.size(),
            names_match(v, self.named(m)),
        ensures
            self.mask_of(v) == m,
    {
        let ns = self.arg_names();
        assert forall|i: int| 0 <= i < m.len() implies #[trigger] self.mask_of(v)[i] == m[i] by {
            lemma_select_contains(ns, m, ns[i]);
            if strings_view(v).contains(ns[i]) {
                let j = choose|j: int| 0 <= j < ns.len() && m[j] && #[trigger] ns[j] == ns[i];
                assert(j == i);
            }
        }
        assert(self.mask_of(v) =~= m);
    }

    /// Argument names are distinct.
    pub proof fn lemma_names_distinct(&self)
        requires
            self.wf(),
        ensures
            self.arg_names().no_duplicates(),
    {
    }

    /// Attacks join arguments of the framework.
    pub proof fn lemma_attacks_range(&self)
        requires
            self.wf(),
        ensures
            forall|i: int, j: int| #[trigger] (self.attacks())(i, j) ==> 0 <= i < self.size() && 0 <= j < self.size(),
    {
    }

    /// An empty framework.
    pub fn new() -> (r: Self)
        ensures
            r.wf(),
            r.size() == 0,
    {
        ArgumentationFramework { names: Vec::new(), adj: Vec::new() }
    }

    /// Number of arguments.
    pub fn len(&self) -> (r: usize)
        requires
            self.wf(),
        ensures
            r == self.size(),
    {
        self.names.len()
    }

    /// Whether the framework has no arguments.
    pub fn is_empty(&self) -> (r: bool)
        requires
            self.wf(),
        ensures
            r == (self.size() == 0),
    {
        self.names.len() == 0
    }

    /// The argument names, in insertion order.
    pub fn arguments(&self) -> (r: Vec<String>)
        requires
            self.wf(),
        ensures
            strings_view(r@) == self.arg_names(),
    {
        self.names.clone()
    }

    /// Whether argument `i` attacks argument `j`.
    pub fn attacks_at(&self, i: usize, j: usize) -> (r: bool)
        requires
            self.wf(),
            i < self.size(),
            j < self.size(),
        ensures
            r == (self.attacks())(i as int, j as int),
    {
        self.adj[i][j]
    }

    /// Position of a named argument.
    pub fn position(&self, a: &str) -> (r: Option<usize>)
        requires
            self.wf(),
        ensures
            match r {
                Some(i) => i < self.size() && self.arg_names()[i as int] == a@,
                None => !self.arg_names().contains(a@),
            },
    {
        let key = owned(a);
        find_name(&self.names, &key)
    }

    /// Add an argument; adding one that is already present changes nothing.
    pub fn add_argument(&mut self, a: &str)
        requires
            old(self).wf(),
        ensures
            final(self).wf(),
            final(self).arg_names() == if old(self).arg_names().contains(a@) {
                old(self).arg_names()
            } else {
                old(self).arg_names().push(a@)
            },
            forall|i: int, j: int| #[trigger] (final(self).attacks())(i, j) == (old(self).attacks())(i, j),
    {
        let key = owned(a);
        match find_name(&self.names, &key) {
            Some(i) => {
                assert(strings_view(self.names@)[i as int] == a@);
            },
            None => {
                let n = self.names.len();
                let ghost old_adj = self.adj@;
                let mut k: usize = 0;
                while k < n
                    invariant
                        n == self.names.len(),
                        self.names@ == old(self).names@,
                        self.adj@.len() == n,
                        forall|i: int| 0 <= i < k ==> #[trigger] self.adj@[i]@ == old_adj[i]@.push(false),
                        forall|i: int| k <= i < n ==> #[trigger] self.adj@[i] == old_adj[i],
                        forall|i: int| 0 <= i < n ==> #[trigger] old_adj[i]@.len() == n,
                    decreases n - k,
                {
                    let mut row = self.adj[k].clone();
                    row.push(false);
                    assert(row@ =~= old_adj[k as int]@.push(false));
                    self.adj.set(k, row);
                    k = k + 1;
                }
                let mut last: Vec<bool> = Vec::new();
                let mut c: usize = 0;
                while c < n
                    invariant
                        c <= n,
                        last@.len() == c,
                        forall|j: int| 0 <= j < c ==> !#[trigger] last@[j],
                    decreases n - c,
                {
                    last.push(false);
                    c = c + 1;
                }
                last.push(false);
                self.adj.push(last);
                self.names.push(key);
                assert(strings_view(self.names@) =~= strings_view(old(self).names@).push(a@));
            },
        }
    }

    /// Add an attack between two arguments that are already present.
    pub fn add_attack(&mut self, attacker: &str, target: &str) -> (r: Result<(), DungError>)
        requires
            old(self).wf(),
        ensures
            final(self).wf(),
            final(self).arg_names() == old(self).arg_names(),
            r is Ok <==> (old(self).arg_names().contains(attacker@) && old(self).arg_names().contains(target@)),
            r is Ok ==> forall|i: int, j: int| #[trigger] (final(self).attacks())(i, j) == ((old(self).attacks())(i, j) || (
                0 <= i < old(self).size() && 0 <= j < old(self).size()
                && old(self).arg_names()[i] == attacker@ && old(self).arg_names()[j] == target@)),
            r is Err ==> forall|i: int, j: int| #[trigger] (final(self).attacks())(i, j) == (old(self).attacks())(i, j),
            r matches Err(e) ==> e matches DungError::ArgumentNotFound(name) && name@ == if old(self).arg_names().contains(attacker@) {
                target@
            } else {
                attacker@
            },
    {
        let ia = match self.position(attacker) {
            Some(i) => i,
            None => return Err(DungError::ArgumentNotFound(owned(attacker))),
        };
        let it = match self.position(target) {
            Some(j) => j,
            None => return Err(DungError::ArgumentNotFound(owned(target))),
        };
        let mut row = self.adj[ia].clone();
        row.set(it, true);
        self.adj.set(ia, row);
        proof {
            assert forall|i: int, j: int| #[trigger] (self.attacks())(i, j) == ((old(self).attacks())(i, j) || (
                0 <= i < old(self).size() && 0 <= j < old(self).size()
                && old(self).arg_names()[i] == attacker@ && old(self).arg_names()[j] == target@)) by {
                if 0 <= i < old(self).size() && old(self).arg_names()[i] == attacker@ {
                    assert(strings_view(self.names@)[i] == strings_view(self.names@)[ia as int]);
                }
                if 0 <= j < old(self).size() && old(self).arg_names()[j] == target@ {
                    assert(strings_view(self.names@)[j] == strings_view(self.names@)[it as int]);
                }
            }
        }
        Ok(())
    }

    // -----------------------------------------------------------------
    // Checks of single masks
    // -----------------------------------------------------------------

    /// Whether `m` is conflict-free.
    pub fn check_conflict_free(&self, m: &Vec<bool>) -> (r: bool)
        requires
            self.wf(),
            m@.len() == self.size(),
        ensures
            r == conflict_free(self.size(), self.attacks(), m@),
    {
        let n = self.names.len();
        let ghost att = self.attacks();
        let mut i: usize = 0;
        while i < n
            invariant
                self.wf(),
                n == self.size(),
                m@.len() == n,
                att == self.attacks(),
                i <= n,
                forall|a: int, b: int|
                    #![trigger att(a, b)]
                    0 <= a < i && 0 <= b < n && m@[a] && m@[b] ==> !att(a, b),
            decreases n - i,
        {
            if m[i] {
                let mut j: usize = 0;
                while j < n
                    invariant
                        self.wf(),
                        n == self.size(),
                        m@.len() == n,
                        att == self.attacks(),
                        i < n,
                        j <= n,
                        m@[i as int],
                        forall|b: int| #![trigger att(i as int, b)] 0 <= b < j && m@[b] ==> !att(i as int, b),
                    decreases n - j,
                {
                    if m[j] && self.adj[i][j] {
                        assert(att(i as int, j as int));
                        return false;
                    }
                    j = j + 1;
                }
            }
            i = i + 1;
        }
        true
    }

    /// Whether `m` defends argument `a`.
    pub fn check_defends(&self, m: &Vec<bool>, a: usize) -> (r: bool)
        requires
            self.wf(),
            m@.len() == self.size(),
            a < self.size(),
        ensures
            r == defends(self.size(), self.attacks(), m@, a as int),
    {
        let n = self.names.len();
        let ghost att = self.attacks();
        let mut b: usize = 0;
        while b < n
            invariant
                self.wf(),
                n == self.size(),
                m@.len() == n,
                att == self.attacks(),
                a < n,
                b <= n,
                forall|x: int|
                    #![trigger att(x, a as int)]
                    0 <= x < b && att(x, a as int) ==> exists|c: int| #![trigger att(c, x)] 0 <= c < n && m@[c] && att(c, x),
            decreases n - b,
        {
            if self.adj[b][a] {
                let mut c: usize = 0;
                let mut found = false;
                while c < n
                    invariant
                        self.wf(),
                        n == self.size(),
                        m@.len() == n,
                        att == self.attacks(),
                        b < n,
                        c <= n,
                        found ==> exists|y: int| #![trigger att(y, b as int)] 0 <= y < n && m@[y] && att(y, b as int),
                        !found ==> forall|y: int| #![trigger att(y, b as int)] 0 <= y < c ==> !(m@[y] && att(y, b as int)),
                    decreases n - c,
                {
                    if m[c] && self.adj[c][b] {
                        assert(att(c as int, b as int));
                        found = true;
                    }
                    c = c + 1;
                }
                if !found {
                    assert(att(b as int, a as int));
                    return false;
                }
            }
            b = b + 1;
        }
        true
    }

    /// Whether `m` is admissible.
    pub fn check_admissible(&self, m: &Vec<bool>) -> (r: bool)
        requires
            self.wf(),
            m@.len() == self.size(),
        ensures
            r == admissible(self.size(), self.attacks(), m@),
    {
        if !self.check_conflict_free(m) {
            return false;
        }
        let n = self.names.len();
        let mut a: usize = 0;
        while a < n
            invariant
                self.wf(),
                n == self.size(),
                m@.len() == n,
                a <= n,
                forall|x: int| 0 <= x < a && #[trigger] m@[x] ==> defends(self.size(), self.attacks(), m@, x),
            decreases n - a,
        {
            if m[a] && !self.check_defends(m, a) {
                return false;
            }
            a = a + 1;
        }
        true
    }

    /// The characteristic function applied to `m`.
    pub fn characteristic_of(&self, m: &Vec<bool>) -> (r: Vec<bool>)
        requires
            self.wf(),
            m@.len() == self.size(),
        ensures
            r@ == characteristic(self.size(), self.attacks(), m@),
    {
        let n = self.names.len();
        let mut r: Vec<bool> = Vec::new();
        let mut a: usize = 0;
        while a < n
            invariant
                self.wf(),
                n == self.size(),
                m@.len() == n,
                a <= n,
                r@.len() == a,
                forall|x: int| 0 <= x < a ==> #[trigger] r@[x] == defends(self.size(), self.attacks(), m@, x),
            decreases n - a,
        {
            let d = self.check_defends(m, a);
            r.push(d);
            a = a + 1;
        }
        assert(r@ =~= characteristic(self.size(), self.attacks(), m@));
        r
    }

    /// Whether `m` is complete.
    pub fn check_complete(&self, m: &Vec<bool>) -> (r: bool)
        requires
            self.wf(),
            m@.len() == self.size(),
        ensures
            r == complete(self.size(), self.attacks(), m@),
    {
        reveal(complete);
        if !self.check_admissible(m) {
            return false;
        }
        let n = self.names.len();
        let mut a: usize = 0;
        while a < n
            invariant
                self.wf(),
                n == self.size(),
                m@.len() == n,
                a <= n,
                forall|x: int| 0 <= x < a && #[trigger] defends(self.size(), self.attacks(), m@, x) ==> m@[x],
            decreases n - a,
        {
            if !m[a] && self.check_defends(m, a) {
                proof {
                    reveal(complete);
                }
                return false;
            }
            a = a + 1;
        }
        true
    }

    /// Whether `m` is stable.
    pub fn check_stable(&self, m: &Vec<bool>) -> (r: bool)
        requires
            self.wf(),
            m@.len() == self.size(),
        ensures
            r == stable(self.size(), self.attacks(), m@),
    {
        reveal(stable);
        if !self.check_conflict_free(m) {
            return false;
        }
        let n = self.names.len();
        let ghost att = self.attacks();
        let mut a: usize = 0;
        while a < n
            invariant
                self.wf(),
                n == self.size(),
                m@.len() == n,
                att == self.attacks(),
                a <= n,
                forall|x: int|
                    0 <= x < a && !#[trigger] m@[x] ==> exists|b: int| #![trigger att(b, x)] 0 <= b < n && m@[b] && att(b, x),
            decreases n - a,
        {
            if !m[a] {
                let mut b: usize = 0;
                let mut found = false;
                while b < n
                    invariant
                        self.wf(),
                        n == self.size(),
                        m@.len() == n,
                        att == self.attacks(),
                        a < n,
                        b <= n,
                        found ==> exists|y: int| #![trigger att(y, a as int)] 0 <= y < n && m@[y] && att(y, a as int),
                        !found ==> forall|y: int| #![trigger att(y, a as int)] 0 <= y < b ==> !(m@[y] && att(y, a as int)),
                    decreases n - b,
                {
                    if m[b] && self.adj[b][a] {
                        assert(att(b as int, a as int));
                        found = true;
                    }
                    b = b + 1;
                }
                if !found {
                    assert(!m@[a as int]);
                    assert(!(exists|y: int| #![trigger att(y, a as int)] 0 <= y < n && m@[y] && att(y, a as int)));
                    proof {
                        reveal(stable);
                    }
                    return false;
                }
            }
            a = a + 1;
        }
        true
    }

    // -----------------------------------------------------------------
    // Extensions as masks
    // -----------------------------------------------------------------

    /// The grounded extension, computed as the least fixed point of the
    /// characteristic function.
    pub(crate) fn grounded_mask(&self) -> (r: Vec<bool>)
        requires
            self.wf(),
        ensures
            grounded(self.size(), self.attacks(), r@),
            r@.len() == self.size(),
    {
        let n = self.names.len();
        let ghost att = self.attacks();
        let mut cur = empty_mask(n);
        assert(admissible(self.size(), att, cur@));
        loop
            invariant
                self.wf(),
                n == self.size(),
                att == self.attacks(),
                admissible(self.size(), att, cur@),
                forall|c: Seq<bool>| #[trigger] complete(self.size(), att, c) ==> subset(cur@, c),
            decreases n - count(cur@),
        {
            let next = self.characteristic_of(&cur);
            proof {
                lemma_characteristic_admissible(self.size(), att, cur@);
                lemma_count_bound(next@);
            }
            if masks_equal(&next, &cur) {
                assert forall|a: int| 0 <= a < self.size() && #[trigger] defends(self.size(), att, cur@, a) implies cur@[a] by {
                    assert(next@[a] == defends(self.size(), att, cur@, a));
                }
                proof {
                    reveal(complete);
                }
                return cur;
            }
            proof {
                lemma_count_strict(cur@, next@);
                assert forall|c: Seq<bool>| #[trigger] complete(self.size(), att, c) implies subset(next@, c) by {
                    lemma_characteristic_below_complete(self.size(), att, cur@, c);
                }
            }
            cur = next;
        }
    }

    /// Appends to `out` every admissible mask extending `prefix`.
    fn collect_admissible(&self, prefix: Vec<bool>, out: &mut Vec<Vec<bool>>)
        requires
            self.wf(),
            prefix@.len() <= self.size(),
        ensures
            final(out)@.len() >= old(out)@.len(),
            forall|k: int| 0 <= k < old(out)@.len() ==> final(out)@[k] == old(out)@[k],
            forall|k: int|
                old(out)@.len() <= k < final(out)@.len() ==> admissible(self.size(), self.attacks(), #[trigger] final(out)@[k]@)
                    && extends(prefix@, final(out)@[k]@),
            forall|m: Seq<bool>|
                #[trigger] admissible(self.size(), self.attacks(), m) && extends(prefix@, m) ==> exists|k: int|
                    old(out)@.len() <= k < final(out)@.len() && #[trigger] final(out)@[k]@ == m,
        decreases self.size() - prefix@.len(),
    {
        let ghost att = self.attacks();
        let ghost start = out@;
        if prefix.len() == self.names.len() {
            if self.check_admissible(&prefix) {
                out.push(prefix);
                assert(out@[start.len() as int]@ == prefix@);
            }
            assert forall|m: Seq<bool>| #[trigger] admissible(self.size(), att, m) && extends(prefix@, m) implies exists|k: int|
                start.len() <= k < out@.len() && #[trigger] out@[k]@ == m by {
                assert(m =~= prefix@);
                assert(out@[start.len() as int]@ == m);
            }
        } else {
            let mut p0 = prefix.clone();
            p0.push(false);
            assert(p0@ =~= prefix@.push(false));
            self.collect_admissible(p0, out);
            let ghost mid = out@;
            let mut p1 = prefix;
            let ghost pre = p1@;
            p1.push(true);
            assert(p1@ =~= pre.push(true));
            self.collect_admissible(p1, out);
            assert forall|m: Seq<bool>| #[trigger] admissible(self.size(), att, m) && extends(pre, m) implies exists|k: int|
                start.len() <= k < out@.len() && #[trigger] out@[k]@ == m by {
                let p = pre.len() as int;
                if m[p] {
                    assert(extends(pre.push(true), m));
                } else {
                    assert(extends(pre.push(false), m));
                    let k = choose|k: int| start.len() <= k < mid.len() && #[trigger] mid[k]@ == m;
                    assert(out@[k] == mid[k]);
                }
            }
            assert forall|k: int| start.len() <= k < out@.len() implies extends(pre, #[trigger] out@[k]@) by {
                if k < mid.len() {
                    assert(out@[k] == mid[k]);
                    assert(extends(pre.push(false), mid[k]@));
                    lemma_extends_push(pre, false, mid[k]@);
                } else {
                    assert(extends(pre.push(true), out@[k]@));
                    lemma_extends_push(pre, true, out@[k]@);
                }
            }
        }
    }

    /// Every admissible mask, each once.
    pub(crate) fn admissible_masks(&self) -> (r: Vec<Vec<bool>>)
        requires
            self.wf(),
        ensures
            forall|k: int| 0 <= k < r@.len() ==> admissible(self.size(), self.attacks(), #[trigger] r@[k]@),
            forall|m: Seq<bool>| #[trigger] admissible(self.size(), self.attacks(), m) ==> exists|k: int|
                0 <= k < r@.len() && #[trigger] r@[k]@ == m,
    {
        let mut out: Vec<Vec<bool>> = Vec::new();
        self.collect_admissible(Vec::new(), &mut out);
        assert forall|m: Seq<bool>| #[trigger] admissible(self.size(), self.attacks(), m) implies exists|k: int|
            0 <= k < out@.len() && #[trigger] out@[k]@ == m by {
            assert(extends(Seq::<bool>::empty(), m));
        }
        out
    }

    /// Every preferred mask, each once.
    pub(crate) fn preferred_masks(&self) -> (r: Vec<Vec<bool>>)
        requires
            self.wf(),
        ensures
            forall|k: int| 0 <= k < r@.len() ==> preferred(self.size(), self.attacks(), #[trigger] r@[k]@),
            forall|k: int| 0 <= k < r@.len() ==> #[trigger] r@[k]@.len() == self.size(),
            forall|m: Seq<bool>| #[trigger] preferred(self.size(), self.attacks(), m) ==> exists|k: int|
                0 <= k < r@.len() && #[trigger] r@[k]@ == m,
    {
        let ghost n = self.size();
        let ghost att = self.attacks();
        let adm = self.admissible_masks();
        let mut r: Vec<Vec<bool>> = Vec::new();
        let mut i: usize = 0;
        while i < adm.len()
            invariant
                self.wf(),
                n == self.size(),
                att == self.attacks(),
                i <= adm@.len(),
                forall|k: int| 0 <= k < adm@.len() ==> admissible(n, att, #[trigger] adm@[k]@),
                forall|m: Seq<bool>| #[trigger] admissible(n, att, m) ==> exists|k: int|
                    0 <= k < adm@.len() && #[trigger] adm@[k]@ == m,
                forall|k: int| 0 <= k < r@.len() ==> preferred(n, att, #[trigger] r@[k]@),
                forall|k: int| 0 <= k < r@.len() ==> #[trigger] r@[k]@.len() == n,
                forall|j: int| 0 <= j < i && preferred(n, att, #[trigger] adm@[j]@) ==> exists|k: int|
                    0 <= k < r@.len() && #[trigger] r@[k]@ == adm@[j]@,
            decreases adm@.len() - i,
        {
            let cand = &adm[i];
            let mut dominated = false;
            let mut j: usize = 0;
            while j < adm.len()
                invariant
                    i < adm@.len(),
                    j <= adm@.len(),
                    cand@ == adm@[i as int]@,
                    forall|k: int| 0 <= k < adm@.len() ==> #[trigger] adm@[k]@.len() == n,
                    dominated ==> !preferred(n, att, cand@),
                    !dominated ==> forall|k: int| 0 <= k < j && subset(cand@, #[trigger] adm@[k]@) ==> adm@[k]@ == cand@,
                    forall|k: int| 0 <= k < adm@.len() ==> admissible(n, att, #[trigger] adm@[k]@),
                decreases adm@.len() - j,
            {
                let other = &adm[j];
                if mask_subset(cand, other) && !masks_equal(cand, other) {
                    assert(admissible(n, att, adm@[j as int]@));
                    proof {
                        reveal(preferred);
                    }
                    dominated = true;
                }
                j = j + 1;
            }
            let ghost old_r = r@;
            if !dominated {
                assert(preferred(n, att, cand@)) by {
                    reveal(preferred);
                    assert forall|m2: Seq<bool>| #[trigger] admissible(n, att, m2) && subset(cand@, m2) implies m2 == cand@ by {
                        let k = choose|k: int| 0 <= k < adm@.len() && #[trigger] adm@[k]@ == m2;
                    }
                }
                r.push(adm[i].clone());
                assert(r@[r@.len() - 1]@ == adm@[i as int]@);
            }
            proof {
                assert forall|j: int| 0 <= j < i + 1 && preferred(n, att, #[trigger] adm@[j]@) implies exists|k: int|
                    0 <= k < r@.len() && #[trigger] r@[k]@ == adm@[j]@ by {
                    if j < i {
                        let k = choose|k: int| 0 <= k < old_r.len() && #[trigger] old_r[k]@ == adm@[j]@;
                        assert(r@[k] == old_r[k]);
                    } else {
                        assert(r@[r@.len() - 1]@ == adm@[i as int]@);
                    }
                }
            }
            i = i + 1;
        }
        assert forall|m: Seq<bool>| #[trigger] preferred(n, att, m) implies exists|k: int|
            0 <= k < r@.len() && #[trigger] r@[k]@ == m by {
            reveal(preferred);
            let j = choose|j: int| 0 <= j < adm@.len() && #[trigger] adm@[j]@ == m;
        }
        r
    }

    /// Every complete mask, each once.
    pub(crate) fn complete_masks(&self) -> (r: Vec<Vec<bool>>)
        requires
            self.wf(),
        ensures
            forall|k: int| 0 <= k < r@.len() ==> complete(self.size(), self.attacks(), #[trigger] r@[k]@),
            forall|k: int| 0 <= k < r@.len() ==> #[trigger] r@[k]@.len() == self.size(),
            forall|m: Seq<bool>| #[trigger] complete(self.size(), self.attacks(), m) ==> exists|k: int|
                0 <= k < r@.len() && #[trigger] r@[k]@ == m,
    {
        let ghost n = self.size();
        let ghost att = self.attacks();
        let adm = self.admissible_masks();
        let mut r: Vec<Vec<bool>> = Vec::new();
        let mut i: usize = 0;
        while i < adm.len()
            invariant
                self.wf(),
                n == self.size(),
                att == self.attacks(),
                i <= adm@.len(),
                forall|k: int| 0 <= k < adm@.len() ==> admissible(n, att, #[trigger] adm@[k]@),
                forall|m: Seq<bool>| #[trigger] admissible(n, att, m) ==> exists|k: int|
                    0 <= k < adm@.len() && #[trigger] adm@[k]@ == m,
                forall|k: int| 0 <= k < r@.len() ==> complete(n, att, #[trigger] r@[k]@),
                forall|k: int| 0 <= k < r@.len() ==> #[trigger] r@[k]@.len() == n,
                forall|j: int| 0 <= j < i && complete(n, att, #[trigger] adm@[j]@) ==> exists|k: int|
                    0 <= k < r@.len() && #[trigger] r@[k]@ == adm@[j]@,
            decreases adm@.len() - i,
        {
            let ghost old_r = r@;
            let keep = self.check_complete(&adm[i]);
            if keep {
                r.push(adm[i].clone());
                assert(r@[r@.len() - 1]@ == adm@[i as int]@);
            }
            proof {
                assert forall|j: int| 0 <= j < i + 1 && complete(n, att, #[trigger] adm@[j]@) implies exists|k: int|
                    0 <= k < r@.len() && #[trigger] r@[k]@ == adm@[j]@ by {
                    if j < i {
                        let k = choose|k: int| 0 <= k < old_r.len() && #[trigger] old_r[k]@ == adm@[j]@;
                        assert(r@[k] == old_r[k]);
                    } else {
                        assert(r@[r@.len() - 1]@ == adm@[i as int]@);
                    }
                }
                assert forall|k: int| 0 <= k < r@.len() implies complete(n, att, #[trigger] r@[k]@) by {
                    if k < old_r.len() {
                        assert(r@[k] == old_r[k]);
                    }
                }
            }
            i = i + 1;
        }
        assert forall|m: Seq<bool>| #[trigger] complete(n, att, m) implies exists|k: int|
            0 <= k < r@.len() && #[trigger] r@[k]@ == m by {
            reveal(complete);
            let j = choose|j: int| 0 <= j < adm@.len() && #[trigger] adm@[j]@ == m;
        }
        r
    }

    /// Every stable mask, each once.
    pub(crate) fn stable_masks(&self) -> (r: Vec<Vec<bool>>)
        requires
            self.wf(),
        ensures
            forall|k: int| 0 <= k < r@.len() ==> stable(self.size(), self.attacks(), #[trigger] r@[k]@),
            forall|k: int| 0 <= k < r@.len() ==> #[trigger] r@[k]@.len() == self.size(),
            forall|m: Seq<bool>| #[trigger] stable(self.size(), self.attacks(), m) ==> exists|k: int|
                0 <= k < r@.len() && #[trigger] r@[k]@ == m,
    {
        let ghost n = self.size();
        let ghost att = self.attacks();
        let adm = self.admissible_masks();
        let mut r: Vec<Vec<bool>> = Vec::new();
        let mut i: usize = 0;
        while i < adm.len()
            invariant
                self.wf(),
                n == self.size(),
                att == self.attacks(),
                i <= adm@.len(),
                forall|k: int| 0 <= k < adm@.len() ==> admissible(n, att, #[trigger] adm@[k]@),
                forall|m: Seq<bool>| #[trigger] admissible(n, att, m) ==> exists|k: int|
                    0 <= k < adm@.len() && #[trigger] adm@[k]@ == m,
                forall|k: int| 0 <= k < r@.len() ==> stable(n, att, #[trigger] r@[k]@),
                forall|k: int| 0 <= k < r@.len() ==> #[trigger] r@[k]@.len() == n,
                forall|j: int| 0 <= j < i && stable(n, att, #[trigger] adm@[j]@) ==> exists|k: int|
                    0 <= k < r@.len() && #[trigger] r@[k]@ == adm@[j]@,
            decreases adm@.len() - i,
        {
            let ghost old_r = r@;
            let keep = self.check_stable(&adm[i]);
            if keep {
                r.push(adm[i].clone());
                assert(r@[r@.len() - 1]@ == adm@[i as int]@);
            }
            proof {
                assert forall|j: int| 0 <= j < i + 1 && stable(n, att, #[trigger] adm@[j]@) implies exists|k: int|
                    0 <= k < r@.len() && #[trigger] r@[k]@ == adm@[j]@ by {
                    if j < i {
                        let k = choose|k: int| 0 <= k < old_r.len() && #[trigger] old_r[k]@ == adm@[j]@;
                        assert(r@[k] == old_r[k]);
                    } else {
                        assert(r@[r@.len() - 1]@ == adm@[i as int]@);
                    }
                }
                assert forall|k: int| 0 <= k < r@.len() implies stable(n, att, #[trigger] r@[k]@) by {
                    if k < old_r.len() {
                        assert(r@[k] == old_r[k]);
                    }
                }
            }
            i = i + 1;
        }
        assert forall|m: Seq<bool>| #[trigger] stable(n, att, m) implies exists|k: int|
            0 <= k < r@.len() && #[trigger] r@[k]@ == m by {
            lemma_stable_admissible(n, att, m);
            let j = choose|j: int| 0 <= j < adm@.len() && #[trigger] adm@[j]@ == m;
        }
        r
    }

    // -----------------------------------------------------------------
    // Extensions by name
    // -----------------------------------------------------------------

    /// The names of the arguments marked in `m`.
    pub(crate) fn names_of_mask(&self, m: &Vec<bool>) -> (r: Vec<String>)
        requires
            self.wf(),
            m@.len() == self.size(),
        ensures
            names_match(r@, self.named(m@)),
    {
        select_names(&self.names, m)
    }

    /// The names of each mask of `ms`.
    pub(crate) fn names_of_masks(&self, ms: &Vec<Vec<bool>>) -> (r: Vec<Vec<String>>)
        requires
            self.wf(),
            forall|k: int| 0 <= k < ms@.len() ==> #[trigger] ms@[k]@.len() == self.size(),
        ensures
            r@.len() == ms@.len(),
            forall|k: int| 0 <= k < r@.len() ==> #[trigger] names_match(r@[k]@, self.named(ms@[k]@)),
            forall|k: int| 0 <= k < r@.len() ==> #[trigger] self.mask_of(r@[k]@) == ms@[k]@,
    {
        let mut r: Vec<Vec<String>> = Vec::new();
        let mut k: usize = 0;
        while k < ms.len()
            invariant
                self.wf(),
                k <= ms@.len(),
                r@.len() == k,
                forall|j: int| 0 <= j < ms@.len() ==> #[trigger] ms@[j]@.len() == self.size(),
                forall|j: int| 0 <= j < k ==> #[trigger] names_match(r@[j]@, self.named(ms@[j]@)),
                forall|j: int| 0 <= j < k ==> #[trigger] self.mask_of(r@[j]@) == ms@[j]@,
            decreases ms@.len() - k,
        {
            let names = select_names(&self.names, &ms[k]);
            proof {
                self.lemma_mask_of_named(names@, ms@[k as int]@);
            }
            r.push(names);
            k = k + 1;
        }
        r
    }

    /// A framework over distinct names whose attacks are given by a
    /// square matrix.
    pub(crate) fn from_parts(names: Vec<String>, adj: Vec<Vec<bool>>) -> (r: Self)
        requires
            strings_view(names@).no_duplicates(),
            adj@.len() == names@.len(),
            forall|i: int| 0 <= i < adj@.len() ==> #[trigger] adj@[i]@.len() == names@.len(),
        ensures
            r.wf(),
            r.arg_names() == strings_view(names@),
            forall|i: int, j: int| #[trigger] (r.attacks())(i, j) == (0 <= i < names@.len() && 0 <= j < names@.len() && adj@[i]@[j]),
    {
        ArgumentationFramework { names, adj }
    }

    /// The names of the direct attackers of `a` (none if `a` is absent).
    pub fn attackers(&self, a: &str) -> (r: Vec<String>)
        requires
            self.wf(),
        ensures
            self.arg_names().contains(a@) ==> exists|t: int|
                0 <= t < self.size() && self.arg_names()[t] == a@
                && names_match(r@, self.named(Seq::new(self.size(), |i: int| (self.attacks())(i, t)))),
            !self.arg_names().contains(a@) ==> r@.len() == 0,
    {
        match self.position(a) {
            None => Vec::new(),
            Some(t) => {
                let n = self.names.len();
                let mut col: Vec<bool> = Vec::new();
                let mut i: usize = 0;
                while i < n
                    invariant
                        self.wf(),
                        n == self.size(),
                        t < n,
                        i <= n,
                        col@.len() == i,
                        forall|k: int| 0 <= k < i ==> #[trigger] col@[k] == (self.attacks())(k, t as int),
                    decreases n - i,
                {
                    col.push(self.adj[i][t]);
                    i = i + 1;
                }
                assert(col@ =~= Seq::new(self.size(), |i: int| (self.attacks())(i, t as int)));
                select_names(&self.names, &col)
            },
        }
    }
}

} // verus!
