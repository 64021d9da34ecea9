//! `BipolarFramework`: arguments, attacks and supports.
//!
//! The node set is every argument added directly or as an endpoint of an
//! attack or a support; attacks and supports are two independent edge
//! relations over it.

use vstd::prelude::*;
use crate::strings::{strings_view, select, select_names, find_name, owned, names_match};
use crate::matrix::{square, entry, new_square, grow, set_entry};
use crate::bipolar::types::BipolarError;

verus! {

/// The pairs of names `(x, y)` listed in `v`.
pub open spec fn pairs_view(v: Seq<(String, String)>) -> Seq<(Seq<char>, Seq<char>)> {
    v.map_values(|p: (String, String)| (p.0@, p.1@))
}

/// `v` lists exactly the named pairs of `rel` over `names`, each once.
pub open spec fn lists_pairs(v: Seq<(String, String)>, names: Seq<Seq<char>>, rel: spec_fn(int, int) -> bool) -> bool {
    &&& pairs_view(v).no_duplicates()
    &&& forall|x: Seq<char>, y: Seq<char>|
        #[trigger] pairs_view(v).contains((x, y)) <==> exists|i: int, j: int|
            0 <= i < names.len() && 0 <= j < names.len() && #[trigger] rel(i, j) && names[i] == x && names[j] == y
}

/// A bipolar argumentation framework.
#[derive(Debug, Clone)]
pub struct BipolarFramework {
    names: Vec<String>,
    att: Vec<Vec<bool>>,
    sup: Vec<Vec<bool>>,
}

impl BipolarFramework {
    /// Internal consistency: square relations over distinct names, and
    /// no argument supporting itself.
    pub closed spec fn wf(&self) -> bool {
        &&& square(self.att@, self.names@.len())
        &&& square(self.sup@, self.names@.len())
        &&& strings_view(self.names@).no_duplicates()
        &&& forall|i: int| !#[trigger] entry(self.sup@, i, i)
    }

    /// The argument names, in insertion order.
    pub closed spec fn arg_names(&self) -> Seq<Seq<char>> {
        strings_view(self.names@)
    }

    /// Number of arguments.
    pub open spec fn size(&self) -> nat {
        self.arg_names().len()
    }

    /// The direct attack relation over argument positions.
    pub closed spec fn attack_rel(&self) -> spec_fn(int, int) -> bool {
        |i: int, j: int| entry(self.att@, i, j)
    }

    /// The direct support relation over argument positions.
    pub closed spec fn support_rel(&self) -> spec_fn(int, int) -> bool {
        |i: int, j: int| entry(self.sup@, i, j)
    }

    /// The names of the arguments marked in `m`.
    pub open spec fn named(&self, m: Seq<bool>) -> Seq<Seq<char>> {
        select(self.arg_names(), m)
    }

    /// Facts every well-formed framework satisfies.
    pub proof fn lemma_wf(&self)
        requires
            self.wf(),
        ensures
            self.arg_names().no_duplicates(),
            forall|i: int, j: int| #[trigger] (self.attack_rel())(i, j) ==> 0 <= i < self.size() && 0 <= j < self.size(),
            forall|i: int, j: int| #[trigger] (self.support_rel())(i, j) ==> 0 <= i < self.size() && 0 <= j < self.size() && i != j,
    {
    }

    pub(crate) fn names_ref(&self) -> (r: &Vec<String>)
        ensures
            strings_view(r@) == self.arg_names(),
    {
        &self.names
    }

    /// Whether `i` directly attacks `j`.
    pub fn attacks_at(&self, i: usize, j: usize) -> (r: bool)
        requires
            self.wf(),
            i < self.size(),
            j < self.size(),
        ensures
            r == (self.attack_rel())(i as int, j as int),
    {
        self.att[i][j]
    }

    /// Whether `i` directly supports `j`.
    pub fn supports_at(&self, i: usize, j: usize) -> (r: bool)
        requires
            self.wf(),
            i < self.size(),
            j < self.size(),
        ensures
            r == (self.support_rel())(i as int, j as int),
    {
        self.sup[i][j]
    }

    /// An empty framework.
    pub fn new() -> (r: Self)
        ensures
            r.wf(),
            r.size() == 0,
    {
        BipolarFramework { names: Vec::new(), att: new_square(0), sup: new_square(0) }
    }

    /// Position of a named argument.
    pub fn position(&self, a: &str) -> (r: Option<usize>)
        requires
            self.wf(),
        ensures
            match r {
                Some(i) => i < self.size() && self.arg_names()[i as int] == a@,
                None => !self.arg_names().contains(a@),
            },
    {
        let key = owned(a);
        find_name(&self.names, &key)
    }

    /// Add an argument (and return its position); adding one that is
    /// already present changes nothing.
    fn insert_argument(&mut self, a: &str) -> (r: usize)
        requires
            old(self).wf(),
        ensures
            final(self).wf(),
            final(self).arg_names() == if old(self).arg_names().contains(a@) {
                old(self).arg_names()
            } else {
                old(self).arg_names().push(a@)
            },
            r < final(self).size(),
            final(self).arg_names()[r as int] == a@,
            forall|i: int, j: int| #[trigger] (final(self).attack_rel())(i, j) == (old(self).attack_rel())(i, j),
            forall|i: int, j: int| #[trigger] (final(self).support_rel())(i, j) == (old(self).support_rel())(i, j),
    {
        let key = owned(a);
        match find_name(&self.names, &key) {
            Some(i) => {
                assert(strings_view(self.names@)[i as int] == a@);
                i
            },
            None => {
                let n = self.names.len();
                grow(&mut self.att, n);
                grow(&mut self.sup, n);
                self.names.push(key);
                assert(strings_view(self.names@) =~= strings_view(old(self).names@).push(a@));
                assert forall|i: int| !#[trigger] entry(self.sup@, i, i) by {
                    assert(entry(self.sup@, i, i) == entry(old(self).sup@, i, i));
                }
                n
            },
        }
    }

    /// Add an argument; adding one that is already present changes nothing.
    pub fn add_argument(&mut self, a: &str)
        requires
            old(self).wf(),
        ensures
            final(self).wf(),
            final(self).arg_names() == if old(self).arg_names().contains(a@) {
                old(self).arg_names()
            } else {
                old(self).arg_names().push(a@)
            },
            forall|i: int, j: int| #[trigger] (final(self).attack_rel())(i, j) == (old(self).attack_rel())(i, j),
            forall|i: int, j: int| #[trigger] (final(self).support_rel())(i, j) == (old(self).support_rel())(i, j),
    {
        self.insert_argument(a);
    }

    /// Add an attack `attacker → target`, adding both arguments if needed.
    pub fn add_attack(&mut self, attacker: &str, target: &str)
        requires
            old(self).wf(),
        ensures
            final(self).wf(),
            final(self).arg_names().contains(attacker@),
            final(self).arg_names().contains(target@),
            forall|x: Seq<char>| #[trigger] final(self).arg_names().contains(x) <==> (old(self).arg_names().contains(x)
                || x == attacker@ || x == target@),
            final(self).size() <= old(self).size() + 2,
            forall|i: int| 0 <= i < old(self).size() ==> #[trigger] final(self).arg_names()[i] == old(self).arg_names()[i],
            forall|i: int, j: int| #[trigger] (final(self).attack_rel())(i, j) == ((old(self).attack_rel())(i, j) || (
                0 <= i < final(self).size() && 0 <= j < final(self).size()
                && final(self).arg_names()[i] == attacker@ && final(self).arg_names()[j] == target@)),
            forall|i: int, j: int| #[trigger] (final(self).support_rel())(i, j) == (old(self).support_rel())(i, j),
    {
        let ghost n0 = self.arg_names();
        let ghost s0 = *self;
        let ia = self.insert_argument(attacker);
        let ghost n1 = self.arg_names();
        let ghost s1 = *self;
        let it = self.insert_argument(target);
        let ghost n2 = self.arg_names();
        let ghost s2 = *self;
        let n = self.names.len();
        set_entry(&mut self.att, n, ia, it, true);
        proof {
            assert(n2[ia as int] == attacker@);
            assert forall|i: int, j: int| #[trigger] (self.support_rel())(i, j) == (s0.support_rel())(i, j) by {
                assert((s2.support_rel())(i, j) == (s1.support_rel())(i, j));
                assert((s1.support_rel())(i, j) == (s0.support_rel())(i, j));
            }
            assert forall|i: int, j: int| #[trigger] (s2.attack_rel())(i, j) == (s0.attack_rel())(i, j) by {
                assert((s2.attack_rel())(i, j) == (s1.attack_rel())(i, j));
                assert((s1.attack_rel())(i, j) == (s0.attack_rel())(i, j));
            }
            assert forall|i: int, j: int| #[trigger] (self.attack_rel())(i, j) == ((old(self).attack_rel())(i, j) || (
                0 <= i < self.size() && 0 <= j < self.size()
                && self.arg_names()[i] == attacker@ && self.arg_names()[j] == target@)) by {
                assert((s2.attack_rel())(i, j) == (s0.attack_rel())(i, j));
                assert(entry(self.att@, i, j) == if i == ia && j == it { true } else { entry(s2.att@, i, j) });
                assert(self.arg_names().no_duplicates());
                if 0 <= i < self.size() && self.arg_names()[i] == attacker@ {
                    assert(self.arg_names()[i] == self.arg_names()[ia as int]);
                }
                if 0 <= j < self.size() && self.arg_names()[j] == target@ {
                    assert(self.arg_names()[j] == self.arg_names()[it as int]);
                }
            }
            assert forall|x: Seq<char>| #[trigger] self.arg_names().contains(x) <==> (n0.contains(x)
                || x == attacker@ || x == target@) by {
                if n0.contains(x) {
                    let k = choose|k: int| 0 <= k < n0.len() && n0[k] == x;
                    assert(n1[k] == x);
                    assert(n2[k] == x);
                }
                if n1.contains(x) {
                    let k = choose|k: int| 0 <= k < n1.len() && n1[k] == x;
                    assert(n2[k] == x);
                }
                assert(n2[ia as int] == attacker@);
                assert(n2[it as int] == target@);
            }
            assert forall|i: int| 0 <= i < n0.len() implies #[trigger] self.arg_names()[i] == n0[i] by {
                assert(n1[i] == n0[i]);
            }
        }
    }

    /// Add a support `supporter → supported`, adding both arguments if
    /// needed. An argument cannot support itself.
    pub fn add_support(&mut self, supporter: &str, supported: &str) -> (r: Result<(), BipolarError>)
        requires
            old(self).wf(),
        ensures
            final(self).wf(),
            r is Err <==> supporter@ == supported@,
            r matches Err(e) ==> (e matches BipolarError::IllegalSelfSupport(s) && s@ == supporter@),
            r is Err ==> *final(self) == *old(self),
            r is Ok ==> final(self).arg_names().contains(supporter@) && final(self).arg_names().contains(supported@),
            r is Ok ==> forall|x: Seq<char>| #[trigger] final(self).arg_names().contains(x) <==> (old(self).arg_names().contains(x)
                || x == supporter@ || x == supported@),
            r is Ok ==> final(self).size() <= old(self).size() + 2,
            forall|i: int| 0 <= i < old(self).size() ==> #[trigger] final(self).arg_names()[i] == old(self).arg_names()[i],
            r is Ok ==> forall|i: int, j: int| #[trigger] (final(self).support_rel())(i, j) == ((old(self).support_rel())(i, j) || (
                0 <= i < final(self).size() && 0 <= j < final(self).size()
                && final(self).arg_names()[i] == supporter@ && final(self).arg_names()[j] == supported@)),
            forall|i: int, j: int| #[trigger] (final(self).attack_rel())(i, j) == (old(self).attack_rel())(i, j),
    {
        let a = owned(supporter);
        let b = owned(supported);
        if a == b {
            return Err(BipolarError::IllegalSelfSupport(a));
        }
        let ghost n0 = self.arg_names();
        let ghost s0 = *self;
        let ia = self.insert_argument(supporter);
        let ghost n1 = self.arg_names();
        let ghost s1 = *self;
        let it = self.insert_argument(supported);
        let ghost n2 = self.arg_names();
        let ghost s2 = *self;
        let n = self.names.len();
        let ghost before = self.sup@;
        set_entry(&mut self.sup, n, ia, it, true);
        proof {
            assert forall|i: int, j: int| #[trigger] (self.attack_rel())(i, j) == (s0.attack_rel())(i, j) by {
                assert((s2.attack_rel())(i, j) == (s1.attack_rel())(i, j));
                assert((s1.attack_rel())(i, j) == (s0.attack_rel())(i, j));
            }
            assert forall|i: int, j: int| #[trigger] (s2.support_rel())(i, j) == (s0.support_rel())(i, j) by {
                assert((s2.support_rel())(i, j) == (s1.support_rel())(i, j));
                assert((s1.support_rel())(i, j) == (s0.support_rel())(i, j));
            }
            assert(n2[ia as int] == supporter@);
            assert(ia != it);
            assert forall|i: int| !#[trigger] entry(self.sup@, i, i) by {
                assert(!entry(before, i, i));
            }
            assert forall|i: int, j: int| #[trigger] (self.support_rel())(i, j) == ((old(self).support_rel())(i, j) || (
                0 <= i < self.size() && 0 <= j < self.size()
                && self.arg_names()[i] == supporter@ && self.arg_names()[j] == supported@)) by {
                assert((s2.support_rel())(i, j) == (s0.support_rel())(i, j));
                assert(entry(self.sup@, i, j) == if i == ia && j == it { true } else { entry(s2.sup@, i, j) });
                assert(self.arg_names().no_duplicates());
                if 0 <= i < self.size() && self.arg_names()[i] == supporter@ {
                    assert(self.arg_names()[i] == self.arg_names()[ia as int]);
                }
                if 0 <= j < self.size() && self.arg_names()[j] == supported@ {
                    assert(self.arg_names()[j] == self.arg_names()[it as int]);
                }
            }
            assert forall|x: Seq<char>| #[trigger] self.arg_names().contains(x) <==> (n0.contains(x)
                || x == supporter@ || x == supported@) by {
                if n0.contains(x) {
                    let k = choose|k: int| 0 <= k < n0.len() && n0[k] == x;
                    assert(n1[k] == x);
                    assert(n2[k] == x);
                }
                if n1.contains(x) {
                    let k = choose|k: int| 0 <= k < n1.len() && n1[k] == x;
                    assert(n2[k] == x);
                }
                assert(n2[ia as int] == supporter@);
                assert(n2[it as int] == supported@);
            }
            assert forall|i: int| 0 <= i < n0.len() implies #[trigger] self.arg_names()[i] == n0[i] by {
                assert(n1[i] == n0[i]);
            }
        }
        Ok(())
    }

    /// Remove the support `supporter → supported`; returns whether it was
    /// present. Arguments stay in the framework.
    pub fn remove_support(&mut self, supporter: &str, supported: &str) -> (r: bool)
        requires
            old(self).wf(),
        ensures
            final(self).wf(),
            final(self).arg_names() == old(self).arg_names(),
            r == exists|i: int, j: int|
                #![trigger (old(self).support_rel())(i, j)]
                (old(self).support_rel())(i, j) && old(self).arg_names()[i] == supporter@ && old(self).arg_names()[j] == supported@,
            forall|i: int, j: int| #[trigger] (final(self).support_rel())(i, j) == ((old(self).support_rel())(i, j) && !(
                old(self).arg_names()[i] == supporter@ && old(self).arg_names()[j] == supported@)),
            forall|i: int, j: int| #[trigger] (final(self).attack_rel())(i, j) == (old(self).attack_rel())(i, j),
    {
        let (ia, it) = match (self.position(supporter), self.position(supported)) {
            (Some(a), Some(b)) => (a, b),
            _ => {
                proof {
                    assert forall|i: int, j: int| (old(self).support_rel())(i, j) implies !(old(self).arg_names()[i] == supporter@
                        && old(self).arg_names()[j] == supported@) by {
                        if old(self).arg_names()[i] == supporter@ && old(self).arg_names()[j] == supported@ {
                            assert(self.arg_names().contains(supporter@));
                            assert(self.arg_names().contains(supported@));
                        }
                    }
                }
                return false;
            },
        };
        let present = self.sup[ia][it];
        let n = self.names.len();
        let ghost before = *self;
        set_entry(&mut self.sup, n, ia, it, false);
        proof {
            assert forall|i: int| !#[trigger] entry(self.sup@, i, i) by {
                assert(!entry(before.sup@, i, i));
            }
            assert(before.arg_names().no_duplicates());
            assert forall|i: int, j: int| #[trigger] (self.support_rel())(i, j) == ((before.support_rel())(i, j) && !(
                before.arg_names()[i] == supporter@ && before.arg_names()[j] == supported@)) by {
                assert(entry(self.sup@, i, j) == if i == ia && j == it { false } else { entry(before.sup@, i, j) });
                if (before.support_rel())(i, j) && before.arg_names()[i] == supporter@ && before.arg_names()[j] == supported@ {
                    assert(before.arg_names()[i] == before.arg_names()[ia as int]);
                    assert(before.arg_names()[j] == before.arg_names()[it as int]);
                }
            }
            if present {
                assert((before.support_rel())(ia as int, it as int));
            } else {
                assert forall|i: int, j: int| (before.support_rel())(i, j) implies !(before.arg_names()[i] == supporter@
                    && before.arg_names()[j] == supported@) by {
                    if before.arg_names()[i] == supporter@ && before.arg_names()[j] == supported@ {
                        assert(before.arg_names()[i] == before.arg_names()[ia as int]);
                        assert(before.arg_names()[j] == before.arg_names()[it as int]);
                    }
                }
            }
        }
        present
    }

    /// Remove the attack `attacker → target`; returns whether it was
    /// present. Arguments stay in the framework.
    pub fn remove_attack(&mut self, attacker: &str, target: &str) -> (r: bool)
        requires
            old(self).wf(),
        ensures
            final(self).wf(),
            final(self).arg_names() == old(self).arg_names(),
            r == exists|i: int, j: int|
                #![trigger (old(self).attack_rel())(i, j)]
                (old(self).attack_rel())(i, j) && old(self).arg_names()[i] == attacker@ && old(self).arg_names()[j] == target@,
            forall|i: int, j: int| #[trigger] (final(self).attack_rel())(i, j) == ((old(self).attack_rel())(i, j) && !(
                old(self).arg_names()[i] == attacker@ && old(self).arg_names()[j] == target@)),
            forall|i: int, j: int| #[trigger] (final(self).support_rel())(i, j) == (old(self).support_rel())(i, j),
    {
        let (ia, it) = match (self.position(attacker), self.position(target)) {
            (Some(a), Some(b)) => (a, b),
            _ => {
                proof {
                    assert forall|i: int, j: int| (old(self).attack_rel())(i, j) implies !(old(self).arg_names()[i] == attacker@
                        && old(self).arg_names()[j] == target@) by {
                        if old(self).arg_names()[i] == attacker@ && old(self).arg_names()[j] == target@ {
                            assert(self.arg_names().contains(attacker@));
                            assert(self.arg_names().contains(target@));
                        }
                    }
                }
                return false;
            },
        };
        let present = self.att[ia][it];
        let n = self.names.len();
        let ghost before = *self;
        set_entry(&mut self.att, n, ia, it, false);
        proof {
            assert(before.arg_names().no_duplicates());
            assert forall|i: int, j: int| #[trigger] (self.attack_rel())(i, j) == ((before.attack_rel())(i, j) && !(
                before.arg_names()[i] == attacker@ && before.arg_names()[j] == target@)) by {
                assert(entry(self.att@, i, j) == if i == ia && j == it { false } else { entry(before.att@, i, j) });
                if (before.attack_rel())(i, j) && before.arg_names()[i] == attacker@ && before.arg_names()[j] == target@ {
                    assert(before.arg_names()[i] == before.arg_names()[ia as int]);
                    assert(before.arg_names()[j] == before.arg_names()[it as int]);
                }
            }
            if present {
                assert((before.attack_rel())(ia as int, it as int));
            } else {
                assert forall|i: int, j: int| (before.attack_rel())(i, j) implies !(before.arg_names()[i] == attacker@
                    && before.arg_names()[j] == target@) by {
                    if before.arg_names()[i] == attacker@ && before.arg_names()[j] == target@ {
                        assert(before.arg_names()[i] == before.arg_names()[ia as int]);
                        assert(before.arg_names()[j] == before.arg_names()[it as int]);
                    }
                }
            }
        }
        present
    }

    /// All arguments, in insertion order.
    pub fn arguments(&self) -> (r: Vec<String>)
        requires
            self.wf(),
        ensures
            strings_view(r@) == self.arg_names(),
    {
        self.names.clone()
    }

    /// Number of arguments.
    pub fn len(&self) -> (r: usize)
        requires
            self.wf(),
        ensures
            r == self.size(),
    {
        self.names.len()
    }

    /// Whether the framework has no arguments.
    pub fn is_empty(&self) -> (r: bool)
        requires
            self.wf(),
        ensures
            r == (self.size() == 0),
    {
        self.names.len() == 0
    }

    /// The named pairs of a relation matrix.
    pub(crate) fn named_pairs(&self, mat: &Vec<Vec<bool>>) -> (r: Vec<(String, String)>)
        requires
            self.wf(),
            square(mat@, self.size()),
        ensures
            lists_pairs(r@, self.arg_names(), |i: int, j: int| entry(mat@, i, j)),
            r@.len() <= self.size() * self.size(),
    {
        let n = self.names.len();
        let ghost ns = self.arg_names();
        let ghost rel = |i: int, j: int| entry(mat@, i, j);
        let mut r: Vec<(String, String)> = Vec::new();
        let mut i: usize = 0;
        while i < n
            invariant
                self.wf(),
                n == self.size(),
                ns == self.arg_names(),
                square(mat@, n as nat),
                rel == (|i: int, j: int| entry(mat@, i, j)),
                i <= n,
                r@.len() <= i * n,
                pairs_view(r@).no_duplicates(),
                forall|x: Seq<char>, y: Seq<char>|
                    #[trigger] pairs_view(r@).contains((x, y)) <==> exists|a: int, b: int|
                        0 <= a < i && 0 <= b < n && #[trigger] rel(a, b) && ns[a] == x && ns[b] == y,
            decreases n - i,
        {
            let mut j: usize = 0;
            while j < n
                invariant
                    self.wf(),
                    n == self.size(),
                    ns == self.arg_names(),
                    square(mat@, n as nat),
                    rel == (|i: int, j: int| entry(mat@, i, j)),
                    i < n,
                    j <= n,
                    r@.len() <= i * n + j,
                    pairs_view(r@).no_duplicates(),
                    forall|x: Seq<char>, y: Seq<char>|
                        #[trigger] pairs_view(r@).contains((x, y)) <==> exists|a: int, b: int|
                            #![trigger rel(a, b)]
                            0 <= a < n && 0 <= b < n && (a < i || (a == i && b < j)) && rel(a, b) && ns[a] == x && ns[b] == y,
                decreases n - j,
            {
                if mat[i][j] {
                    let ghost before = r@;
                    proof {
                        if pairs_view(before).contains((ns[i as int], ns[j as int])) {
                            let (a, b) = choose|a: int, b: int|
                                #![trigger rel(a, b)]
                                0 <= a < n && 0 <= b < n && (a < i || (a == i && b < j)) && rel(a, b)
                                && ns[a] == ns[i as int] && ns[b] == ns[j as int];
                            assert(ns.no_duplicates());
                            assert(a == i && b == j);
                        }
                    }
                    let p = (self.names[i].clone(), self.names[j].clone());
                    r.push(p);
                    proof {
                        assert(pairs_view(r@) =~= pairs_view(before).push((ns[i as int], ns[j as int])));
                        assert(pairs_view(r@).no_duplicates()) by {
                            assert forall|k1: int, k2: int| 0 <= k1 < k2 < pairs_view(r@).len()
                                implies pairs_view(r@)[k1] != pairs_view(r@)[k2] by {
                                if k2 == before.len() {
                                    assert(pairs_view(before)[k1] == pairs_view(r@)[k1]);
                                }
                            }
                        }
                        assert forall|x: Seq<char>, y: Seq<char>|
                            #[trigger] pairs_view(r@).contains((x, y)) <==> exists|a: int, b: int|
                                #![trigger rel(a, b)]
                                0 <= a < n && 0 <= b < n && (a < i || (a == i && b < j + 1)) && rel(a, b) && ns[a] == x && ns[b] == y by {
                            if pairs_view(r@).contains((x, y)) && !pairs_view(before).contains((x, y)) {
                                let k = choose|k: int| 0 <= k < pairs_view(r@).len() && pairs_view(r@)[k] == (x, y);
                                assert(k == before.len());
                                assert(rel(i as int, j as int));
                            }
                            if exists|a: int, b: int|
                                #![trigger rel(a, b)]
                                0 <= a < n && 0 <= b < n && (a < i || (a == i && b < j + 1)) && rel(a, b) && ns[a] == x && ns[b] == y {
                                let (a, b) = choose|a: int, b: int|
                                    #![trigger rel(a, b)]
                                    0 <= a < n && 0 <= b < n && (a < i || (a == i && b < j + 1)) && rel(a, b) && ns[a] == x && ns[b] == y;
                                if a == i && b == j {
                                    assert(pairs_view(r@)[before.len() as int] == (x, y));
                                } else {
                                    assert(pairs_view(before).contains((x, y)));
                                    let k = choose|k: int| 0 <= k < pairs_view(before).len() && pairs_view(before)[k] == (x, y);
                                    assert(pairs_view(r@)[k] == (x, y));
                                }
                            }
                        }
                    }
                }
                j = j + 1;
            }
            assert(i * n + n == (i + 1) * n) by (nonlinear_arith);
            i = i + 1;
        }
        r
    }

    /// All direct attacks, as pairs of names.
    pub fn attacks(&self) -> (r: Vec<(String, String)>)
        requires
            self.wf(),
        ensures
            lists_pairs(r@, self.arg_names(), self.attack_rel()),
            r@.len() <= self.size() * self.size(),
    {
        let r = self.named_pairs(&self.att);
        assert(self.attack_rel() =~= (|i: int, j: int| entry(self.att@, i, j)));
        r
    }

    /// All direct supports, as pairs of names.
    pub fn supports(&self) -> (r: Vec<(String, String)>)
        requires
            self.wf(),
        ensures
            lists_pairs(r@, self.arg_names(), self.support_rel()),
            r@.len() <= self.size() * self.size(),
    {
        let r = self.named_pairs(&self.sup);
        assert(self.support_rel() =~= (|i: int, j: int| entry(self.sup@, i, j)));
        r
    }

    /// The column `t` of a relation: the arguments related to `t`.
    fn column(&self, mat: &Vec<Vec<bool>>, t: usize) -> (r: Vec<bool>)
        requires
            self.wf(),
            square(mat@, self.size()),
            t < self.size(),
        ensures
            r@ == Seq::new(self.size(), |i: int| entry(mat@, i, t as int)),
    {
        let n = self.names.len();
        let mut col: Vec<bool> = Vec::new();
        let mut i: usize = 0;
        while i < n
            invariant
                n == self.size(),
                square(mat@, n as nat),
                t < n,
                i <= n,
                col@.len() == i,
                forall|k: int| 0 <= k < i ==> #[trigger] col@[k] == entry(mat@, k, t as int),
            decreases n - i,
        {
            col.push(mat[i][t]);
            i = i + 1;
        }
        assert(col@ =~= Seq::new(self.size(), |i: int| entry(mat@, i, t as int)));
        col
    }

    /// The arguments that directly attack `a` (none if `a` is absent).
    pub fn direct_attackers(&self, a: &str) -> (r: Vec<String>)
        requires
            self.wf(),
        ensures
            self.arg_names().contains(a@) ==> exists|t: int|
                0 <= t < self.size() && self.arg_names()[t] == a@
                && names_match(r@, self.named(Seq::new(self.size(), |i: int| (self.attack_rel())(i, t)))),
            !self.arg_names().contains(a@) ==> r@.len() == 0,
    {
        match self.position(a) {
            None => Vec::new(),
            Some(t) => {
                let col = self.column(&self.att, t);
                assert(col@ =~= Seq::new(self.size(), |i: int| (self.attack_rel())(i, t as int)));
                select_names(&self.names, &col)
            },
        }
    }

    /// The arguments that directly support `a` (none if `a` is absent).
    pub fn direct_supporters(&self, a: &str) -> (r: Vec<String>)
        requires
            self.wf(),
        ensures
            self.arg_names().contains(a@) ==> exists|t: int|
                0 <= t < self.size() && self.arg_names()[t] == a@
                && names_match(r@, self.named(Seq::new(self.size(), |i: int| (self.support_rel())(i, t)))),
            !self.arg_names().contains(a@) ==> r@.len() == 0,
    {
        match self.position(a) {
            None => Vec::new(),
            Some(t) => {
                let col = self.column(&self.sup, t);
                assert(col@ =~= Seq::new(self.size(), |i: int| (self.support_rel())(i, t as int)));
                select_names(&self.names, &col)
            },
        }
    }

    /// Each argument with its direct supporters, in insertion order.
    pub fn supporter_map(&self) -> (r: Vec<(String, Vec<String>)>)
        requires
            self.wf(),
        ensures
            r@.len() == self.size(),
            forall|t: int| 0 <= t < r@.len() ==> #[trigger] r@[t].0@ == self.arg_names()[t]
                && names_match(r@[t].1@, self.named(Seq::new(self.size(), |i: int| (self.support_rel())(i, t)))),
    {
        let n = self.names.len();
        let mut r: Vec<(String, Vec<String>)> = Vec::new();
        let mut t: usize = 0;
        while t < n
            invariant
                self.wf(),
                n == self.size(),
                t <= n,
                r@.len() == t,
                forall|k: int| 0 <= k < t ==> #[trigger] r@[k].0@ == self.arg_names()[k]
                    && names_match(r@[k].1@, self.named(Seq::new(self.size(), |i: int| (self.support_rel())(i, k)))),
            decreases n - t,
        {
            let col = self.column(&self.sup, t);
            assert(col@ =~= Seq::new(self.size(), |i: int| (self.support_rel())(i, t as int)));
            let sups = select_names(&self.names, &col);
            r.push((self.names[t].clone(), sups));
            t = t + 1;
        }
        r
    }
}

} // verus!
