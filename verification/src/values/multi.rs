//! Consensus across several audiences: the arguments that survive
//! whichever character's value ordering is adopted.

use vstd::prelude::*;
use crate::dung::{ENUMERATION_LIMIT, admissible, grounded, preferred, subset, law_grounded_in_preferred, lemma_preferred_exists};
use crate::strings::{names_match, select_names};
use crate::values::error::ValuesError;
use crate::values::framework::ValueBasedFramework;
use crate::values::types::Audience;

verus! {

/// Queries over a set of audiences.
pub struct MultiAudience<'a> {
    audiences: &'a [Audience],
}

impl<'a> MultiAudience<'a> {
    /// The rankings of the audiences, in order.
    pub closed spec fn rankings(&self) -> Seq<Seq<Seq<Seq<char>>>> {
        self.audiences@.map_values(|a: Audience| a.ranking())
    }

    /// Queries over `audiences`. With no audience every argument is
    /// trivially in the consensus.
    pub fn new(audiences: &'a [Audience]) -> (r: Self)
        ensures
            r.rankings() == audiences@.map_values(|a: Audience| a.ranking()),
    {
        MultiAudience { audiences }
    }

    /// The audiences.
    pub fn audiences(&self) -> (r: &[Audience])
        ensures
            r@.map_values(|a: Audience| a.ranking()) == self.rankings(),
    {
        self.audiences
    }

    /// The arguments credulously accepted under every audience, in the
    /// framework's order.
    pub open spec fn common_credulous_mask(&self, vaf: &ValueBasedFramework) -> Seq<bool> {
        Seq::new(vaf.size(), |i: int| forall|k: int| 0 <= k < self.rankings().len()
            ==> #[trigger] vaf.credulous(self.rankings()[k], vaf.base_af().arg_names()[i]))
    }

    /// The arguments in the grounded extension under every audience.
    pub open spec fn common_grounded_mask(&self, vaf: &ValueBasedFramework) -> Seq<bool> {
        Seq::new(vaf.size(), |i: int| forall|k: int| 0 <= k < self.rankings().len()
            ==> #[trigger] vaf.grounded_member(self.rankings()[k], i))
    }

    /// The arguments in some preferred extension under every audience.
    pub fn common_credulous(&self, vaf: &ValueBasedFramework) -> (r: Result<Vec<String>, ValuesError>)
        requires
            vaf.wf(),
        ensures
            r is Err <==> self.rankings().len() > 0 && vaf.size() > ENUMERATION_LIMIT,
            r matches Err(e) ==> vaf.too_large(e),
            r matches Ok(v) ==> names_match(v@, vaf.base_af().named(self.common_credulous_mask(vaf))),
    {
        proof {
            vaf.lemma_wf();
        }
        let base = vaf.base();
        let n = base.len();
        let ghost rs = self.rankings();
        let mut acc: Vec<bool> = Vec::new();
        let mut i: usize = 0;
        while i < n
            invariant
                i <= n,
                acc@.len() == i,
                forall|j: int| 0 <= j < i ==> #[trigger] acc@[j],
            decreases n - i,
        {
            acc.push(true);
            i = i + 1;
        }
        let mut k: usize = 0;
        while k < self.audiences.len()
            invariant
                vaf.wf(),
                n == vaf.size(),
                rs == self.rankings(),
                rs.len() == self.audiences@.len(),
                k <= rs.len(),
                acc@.len() == n,
                k > 0 ==> vaf.size() <= ENUMERATION_LIMIT,
                forall|j: int| 0 <= j < n ==> #[trigger] acc@[j] == forall|q: int| 0 <= q < k
                    ==> #[trigger] vaf.credulous(rs[q], vaf.base_af().arg_names()[j]),
            decreases rs.len() - k,
        {
            let m = match vaf.credulous_mask(&self.audiences[k]) {
                Ok(m) => m,
                Err(e) => {
                    return Err(e);
                },
            };
            assert(self.audiences@[k as int].ranking() == rs[k as int]);
            let ghost old_acc = acc@;
            let mut j: usize = 0;
            while j < n
                invariant
                    n == vaf.size(),
                    m@.len() == n,
                    acc@.len() == n,
                    j <= n,
                    forall|x: int| 0 <= x < j ==> #[trigger] acc@[x] == (old_acc[x] && m@[x]),
                    forall|x: int| j <= x < n ==> #[trigger] acc@[x] == old_acc[x],
                decreases n - j,
            {
                let v = acc[j] && m[j];
                acc.set(j, v);
                j = j + 1;
            }
            proof {
                assert forall|x: int| 0 <= x < n implies #[trigger] acc@[x] == forall|q: int| 0 <= q < k + 1
                    ==> #[trigger] vaf.credulous(rs[q], vaf.base_af().arg_names()[x]) by {
                    assert(m@[x] == vaf.credulous(rs[k as int], vaf.base_af().arg_names()[x]));
                    if acc@[x] {
                        assert forall|q: int| 0 <= q < k + 1 implies #[trigger] vaf.credulous(rs[q], vaf.base_af().arg_names()[x]) by {
                            if q < k {
                                assert(old_acc[x]);
                            }
                        }
                    } else {
                        if old_acc[x] {
                            assert(!vaf.credulous(rs[k as int], vaf.base_af().arg_names()[x]));
                        } else {
                            let q = choose|q: int| 0 <= q < k && !#[trigger] vaf.credulous(rs[q], vaf.base_af().arg_names()[x]);
                        }
                    }
                }
            }
            k = k + 1;
        }
        assert(acc@ =~= self.common_credulous_mask(vaf));
        proof {
            vaf.lemma_wf();
        }
        let names = base.arguments();
        let r = select_names(&names, &acc);
        Ok(r)
    }

    /// The arguments in the grounded extension under every audience.
    pub fn common_grounded(&self, vaf: &ValueBasedFramework) -> (r: Result<Vec<String>, ValuesError>)
        requires
            vaf.wf(),
        ensures
            r is Ok,
            r matches Ok(v) ==> names_match(v@, vaf.base_af().named(self.common_grounded_mask(vaf))),
    {
        proof {
            vaf.lemma_wf();
        }
        let base = vaf.base();
        let n = base.len();
        let ghost rs = self.rankings();
        let mut acc: Vec<bool> = Vec::new();
        let mut i: usize = 0;
        while i < n
            invariant
                i <= n,
                acc@.len() == i,
                forall|j: int| 0 <= j < i ==> #[trigger] acc@[j],
            decreases n - i,
        {
            acc.push(true);
            i = i + 1;
        }
        let mut k: usize = 0;
        while k < self.audiences.len()
            invariant
                vaf.wf(),
                n == vaf.size(),
                rs == self.rankings(),
                rs.len() == self.audiences@.len(),
                k <= rs.len(),
                acc@.len() == n,
                forall|j: int| 0 <= j < n ==> #[trigger] acc@[j] == forall|q: int| 0 <= q < k
                    ==> #[trigger] vaf.grounded_member(rs[q], j),
            decreases rs.len() - k,
        {
            let g = vaf.grounded_mask_for(&self.audiences[k]);
            assert(self.audiences@[k as int].ranking() == rs[k as int]);
            let ghost old_acc = acc@;
            let mut j: usize = 0;
            while j < n
                invariant
                    n == vaf.size(),
                    g@.len() == n,
                    acc@.len() == n,
                    j <= n,
                    forall|x: int| 0 <= x < j ==> #[trigger] acc@[x] == (old_acc[x] && g@[x]),
                    forall|x: int| j <= x < n ==> #[trigger] acc@[x] == old_acc[x],
                decreases n - j,
            {
                let v = acc[j] && g[j];
                acc.set(j, v);
                j = j + 1;
            }
            proof {
                assert forall|x: int| 0 <= x < n implies #[trigger] acc@[x] == forall|q: int| 0 <= q < k + 1
                    ==> #[trigger] vaf.grounded_member(rs[q], x) by {
                    assert(g@[x] == vaf.grounded_member(rs[k as int], x));
                    if acc@[x] {
                        assert forall|q: int| 0 <= q < k + 1 implies #[trigger] vaf.grounded_member(rs[q], x) by {
                            if q < k {
                                assert(old_acc[x]);
                            }
                        }
                    } else {
                        if old_acc[x] {
                            assert(!vaf.grounded_member(rs[k as int], x));
                        } else {
                            let q = choose|q: int| 0 <= q < k && !#[trigger] vaf.grounded_member(rs[q], x);
                        }
                    }
                }
            }
            k = k + 1;
        }
        assert(acc@ =~= self.common_grounded_mask(vaf));
        proof {
            vaf.lemma_wf();
        }
        let names = base.arguments();
        let r = select_names(&names, &acc);
        Ok(r)
    }
}

/// An argument in the grounded extension under some ranking is in some
/// preferred extension under it.
pub proof fn lemma_grounded_member_credulous(vaf: &ValueBasedFramework, ts: Seq<Seq<Seq<char>>>, i: int)
    requires
        vaf.wf(),
        0 <= i < vaf.size(),
        vaf.grounded_member(ts, i),
    ensures
        vaf.credulous(ts, vaf.base_af().arg_names()[i]),
{
    let n = vaf.size();
    let rel = vaf.defeat_rel(ts);
    let g = choose|g: Seq<bool>| #[trigger] grounded(n, rel, g) && g[i];
    let e = Seq::new(n, |k: int| false);
    assert(admissible(n, rel, e));
    lemma_preferred_exists(n, rel, e);
    let p = choose|p: Seq<bool>| #[trigger] preferred(n, rel, p) && subset(e, p);
    law_grounded_in_preferred(n, rel, g, p);
    assert(g.len() == n) by {
        reveal(crate::dung::complete);
    }
    assert(p[i]);
    assert(preferred(vaf.size(), vaf.defeat_rel(ts), p) && p[i]);
}

/// The grounded consensus is contained in the credulous consensus: an
/// argument grounded under every audience is credulously accepted under
/// every audience.
pub proof fn law_grounded_consensus_within_credulous(multi: &MultiAudience, vaf: &ValueBasedFramework, i: int)
    requires
        vaf.wf(),
        0 <= i < vaf.size(),
        multi.common_grounded_mask(vaf)[i],
    ensures
        multi.common_credulous_mask(vaf)[i],
{
    assert forall|k: int| 0 <= k < multi.rankings().len()
        implies #[trigger] vaf.credulous(multi.rankings()[k], vaf.base_af().arg_names()[i]) by {
        assert(vaf.grounded_member(multi.rankings()[k], i));
        lemma_grounded_member_credulous(vaf, multi.rankings()[k], i);
    }
}

} // verus!
