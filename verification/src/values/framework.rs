//! `ValueBasedFramework`: a Dung framework with a value assignment, whose
//! acceptance is computed per audience on the defeat graph.

use vstd::prelude::*;
use crate::dung::{ArgumentationFramework, DungError, ENUMERATION_LIMIT, preferred, grounded, law_grounded_unique};
use crate::strings::{strings_view, names_match};
use crate::values::error::ValuesError;
use crate::values::types::{Audience, ValueAssignment, values_view, prefers_in, rank_in};

verus! {

/// Pareto defeat (Kaci & van der Torre): an attacker promoting the values
/// `avs` defeats a target promoting `tvs` under the ranking `ts` when
/// either side promotes nothing, or when for every target value some
/// attacker value is not strictly below it. With one value on each side
/// this is Bench-Capon's rule: the attack fails exactly when the
/// audience strictly prefers the target's value.
pub open spec fn pareto_defeats(avs: Seq<Seq<char>>, tvs: Seq<Seq<char>>, ts: Seq<Seq<Seq<char>>>) -> bool {
    avs.len() == 0 || tvs.len() == 0 || forall|k: int| 0 <= k < tvs.len() ==> #[trigger] answered(avs, tvs[k], ts)
}

/// Some value of `avs` is not strictly below `tv` under `ts`.
pub open spec fn answered(avs: Seq<Seq<char>>, tv: Seq<char>, ts: Seq<Seq<Seq<char>>>) -> bool {
    exists|l: int| 0 <= l < avs.len() && !prefers_in(ts, tv, #[trigger] avs[l])
}

/// With one value on each side, Pareto defeat is Bench-Capon's rule:
/// the attack succeeds unless the audience strictly prefers the target's
/// value to the attacker's.
pub proof fn law_single_values(a: Seq<char>, b: Seq<char>, ts: Seq<Seq<Seq<char>>>)
    ensures
        pareto_defeats(seq![a], seq![b], ts) == !prefers_in(ts, b, a),
{
    let avs = seq![a];
    let tvs = seq![b];
    if pareto_defeats(avs, tvs, ts) {
        assert(answered(avs, tvs[0], ts));
        let l = choose|l: int| 0 <= l < avs.len() && !prefers_in(ts, tvs[0], #[trigger] avs[l]);
        assert(l == 0);
    } else {
        if !prefers_in(ts, b, a) {
            assert(answered(avs, tvs[0], ts)) by {
                assert(!prefers_in(ts, tvs[0], avs[0]));
            }
            assert forall|k: int| 0 <= k < tvs.len() implies #[trigger] answered(avs, tvs[k], ts) by {
                assert(k == 0);
            }
        }
    }
}

/// With values on both sides, an attack succeeds exactly when each value
/// the target promotes meets some value the attacker promotes, wherever
/// it stands in the attacker's list, that the audience does not rank
/// strictly below it.
pub proof fn law_pareto_defeat_by_membership(avs: Seq<Seq<char>>, tvs: Seq<Seq<char>>, ts: Seq<Seq<Seq<char>>>)
    requires
        avs.len() > 0,
        tvs.len() > 0,
    ensures
        pareto_defeats(avs, tvs, ts) <==> forall|t: Seq<char>| #[trigger] tvs.contains(t) ==>
            exists|a: Seq<char>| #[trigger] avs.contains(a) && !prefers_in(ts, t, a),
{
    if pareto_defeats(avs, tvs, ts) {
        assert forall|t: Seq<char>| #[trigger] tvs.contains(t) implies
            exists|a: Seq<char>| #[trigger] avs.contains(a) && !prefers_in(ts, t, a) by {
            let k = choose|k: int| 0 <= k < tvs.len() && tvs[k] == t;
            assert(answered(avs, tvs[k], ts));
            let l = choose|l: int| 0 <= l < avs.len() && !prefers_in(ts, tvs[k], #[trigger] avs[l]);
            assert(avs.contains(avs[l]));
        }
    }
    if forall|t: Seq<char>| #[trigger] tvs.contains(t) ==>
        exists|a: Seq<char>| #[trigger] avs.contains(a) && !prefers_in(ts, t, a) {
        assert forall|k: int| 0 <= k < tvs.len() implies #[trigger] answered(avs, tvs[k], ts) by {
            assert(tvs.contains(tvs[k]));
            let a = choose|a: Seq<char>| #[trigger] avs.contains(a) && !prefers_in(ts, tvs[k], a);
            let l = choose|l: int| 0 <= l < avs.len() && avs[l] == a;
            assert(!prefers_in(ts, tvs[k], avs[l]));
        }
    }
}

/// Whether an attack succeeds does not depend on the order, or the
/// repetition, of either side's values: two attackers promoting the same
/// set of values fare alike against targets promoting the same set.
pub proof fn law_pareto_defeat_order_free(
    avs1: Seq<Seq<char>>,
    avs2: Seq<Seq<char>>,
    tvs1: Seq<Seq<char>>,
    tvs2: Seq<Seq<char>>,
    ts: Seq<Seq<Seq<char>>>,
)
    requires
        avs1.to_set() == avs2.to_set(),
        tvs1.to_set() == tvs2.to_set(),
    ensures
        pareto_defeats(avs1, tvs1, ts) == pareto_defeats(avs2, tvs2, ts),
{
    assert(avs1.len() == 0 <==> avs2.len() == 0) by {
        if avs1.len() > 0 {
            assert(avs1.to_set().contains(avs1[0]));
        }
        if avs2.len() > 0 {
            assert(avs2.to_set().contains(avs2[0]));
        }
    }
    assert(tvs1.len() == 0 <==> tvs2.len() == 0) by {
        if tvs1.len() > 0 {
            assert(tvs1.to_set().contains(tvs1[0]));
        }
        if tvs2.len() > 0 {
            assert(tvs2.to_set().contains(tvs2[0]));
        }
    }
    if avs1.len() > 0 && tvs1.len() > 0 {
        law_pareto_defeat_by_membership(avs1, tvs1, ts);
        law_pareto_defeat_by_membership(avs2, tvs2, ts);
        assert forall|x: Seq<char>| avs1.contains(x) == avs2.contains(x) by {
            assert(avs1.to_set().contains(x) == avs1.contains(x));
            assert(avs2.to_set().contains(x) == avs2.contains(x));
        }
        assert forall|x: Seq<char>| tvs1.contains(x) == tvs2.contains(x) by {
            assert(tvs1.to_set().contains(x) == tvs1.contains(x));
            assert(tvs2.to_set().contains(x) == tvs2.contains(x));
        }
    }
}

/// Where the attacker or the target promotes no value, no preference can
/// intervene and the attack succeeds.
pub proof fn law_pareto_defeat_without_values(avs: Seq<Seq<char>>, tvs: Seq<Seq<char>>, ts: Seq<Seq<Seq<char>>>)
    requires
        avs.len() == 0 || tvs.len() == 0,
    ensures
        pareto_defeats(avs, tvs, ts),
{
}

/// An audience with no preferences lets every attack succeed.
pub proof fn law_empty_audience_defeats(avs: Seq<Seq<char>>, tvs: Seq<Seq<char>>)
    ensures
        pareto_defeats(avs, tvs, Seq::empty()),
{
    if avs.len() > 0 && tvs.len() > 0 {
        assert forall|k: int| 0 <= k < tvs.len() implies #[trigger] answered(avs, tvs[k], Seq::empty()) by {
            assert(rank_in(Seq::<Seq<Seq<char>>>::empty(), tvs[k]) is None) by {
                reveal(rank_in);
            }
            assert(!prefers_in(Seq::empty(), tvs[k], avs[0])) by {
                reveal(prefers_in);
            }
        }
    }
}

/// A value-based framework: a Dung framework whose arguments promote
/// values. There is no acceptance independent of an audience.
#[derive(Debug, Clone)]
pub struct ValueBasedFramework {
    base: ArgumentationFramework,
    values: ValueAssignment,
}

impl ValueBasedFramework {
    /// Both parts are well formed.
    pub closed spec fn wf(&self) -> bool {
        self.base.wf() && self.values.wf()
    }

    /// The underlying Dung framework.
    pub closed spec fn base_af(&self) -> ArgumentationFramework {
        self.base
    }

    /// The value assignment.
    pub closed spec fn assignment(&self) -> ValueAssignment {
        self.values
    }

    /// Number of arguments.
    pub open spec fn size(&self) -> nat {
        self.base_af().size()
    }

    /// The values promoted by argument `i`.
    pub open spec fn values_at(&self, i: int) -> Seq<Seq<char>> {
        self.assignment().values_of(self.base_af().arg_names()[i])
    }

    /// The defeat relation under the ranking `ts`: the attacks of the
    /// base framework that succeed as Pareto defeats.
    pub open spec fn defeat_rel(&self, ts: Seq<Seq<Seq<char>>>) -> spec_fn(int, int) -> bool {
        |i: int, j: int| (self.base_af().attacks())(i, j) && pareto_defeats(self.values_at(i), self.values_at(j), ts)
    }

    /// Under an audience with no preferences the defeat graph is the
    /// attack graph.
    pub proof fn law_empty_audience_keeps_attacks(&self)
        ensures
            self.defeat_rel(Seq::empty()) == self.base_af().attacks(),
    {
        assert forall|i: int, j: int| #[trigger] (self.defeat_rel(Seq::empty()))(i, j) == (self.base_af().attacks())(i, j) by {
            law_empty_audience_defeats(self.values_at(i), self.values_at(j));
        }
        assert(self.defeat_rel(Seq::empty()) =~= self.base_af().attacks());
    }

    /// The argument named `a` is in some preferred extension of the
    /// defeat graph under `ts`.
    pub open spec fn credulous(&self, ts: Seq<Seq<Seq<char>>>, a: Seq<char>) -> bool {
        exists|m: Seq<bool>, i: int| #![trigger preferred(self.size(), self.defeat_rel(ts), m), m[i]]
            preferred(self.size(), self.defeat_rel(ts), m) && 0 <= i < self.size()
            && self.base_af().arg_names()[i] == a && m[i]
    }

    /// The error for a defeat graph too large to enumerate.
    pub open spec fn too_large(&self, e: ValuesError) -> bool {
        e == ValuesError::Dung(DungError::TooLarge { arguments: self.size() as usize, limit: ENUMERATION_LIMIT })
    }

    /// Facts every well-formed framework satisfies.
    pub proof fn lemma_wf(&self)
        requires
            self.wf(),
        ensures
            self.base_af().wf(),
            self.assignment().wf(),
    {
    }

    /// A framework from its parts.
    pub fn new(base: ArgumentationFramework, values: ValueAssignment) -> (r: Self)
        requires
            base.wf(),
            values.wf(),
        ensures
            r.wf(),
            r.base_af() == base,
            r.assignment() == values,
    {
        ValueBasedFramework { base, values }
    }

    /// The underlying Dung framework, with every attack.
    pub fn base(&self) -> (r: &ArgumentationFramework)
        ensures
            *r == self.base_af(),
    {
        &self.base
    }

    /// The value assignment.
    pub fn value_assignment(&self) -> (r: &ValueAssignment)
        ensures
            *r == self.assignment(),
    {
        &self.values
    }

    /// Whether an attack of `attacker` on `target` succeeds as a defeat
    /// under `audience`. Only the values matter: the pair need not be an
    /// attack of the base framework.
    pub fn defeats(&self, attacker: &str, target: &str, audience: &Audience) -> (r: bool)
        requires
            self.wf(),
        ensures
            r == pareto_defeats(self.assignment().values_of(attacker@), self.assignment().values_of(target@), audience.ranking()),
    {
        let avs = self.values.values(attacker);
        let tvs = self.values.values(target);
        let ghost av = values_view(avs@);
        let ghost tv = values_view(tvs@);
        let ghost ts = audience.ranking();
        assert(av == self.assignment().values_of(attacker@));
        assert(tv == self.assignment().values_of(target@));
        if avs.len() == 0 || tvs.len() == 0 {
            return true;
        }
        let mut k: usize = 0;
        while k < tvs.len()
            invariant
                av == values_view(avs@),
                tv == values_view(tvs@),
                ts == audience.ranking(),
                av == self.assignment().values_of(attacker@),
                tv == self.assignment().values_of(target@),
                av.len() > 0,
                tv.len() > 0,
                av.len() == avs@.len(),
                tv.len() == tvs@.len(),
                k <= tv.len(),
                forall|kk: int| 0 <= kk < k ==> #[trigger] answered(av, tv[kk], ts),
            decreases tv.len() - k,
        {
            let mut found = false;
            let mut l: usize = 0;
            while l < avs.len()
                invariant
                    av == values_view(avs@),
                    tv == values_view(tvs@),
                    ts == audience.ranking(),
                    av == self.assignment().values_of(attacker@),
                    tv == self.assignment().values_of(target@),
                    av.len() > 0,
                    tv.len() > 0,
                    k < tv.len(),
                    l <= av.len(),
                    found == exists|ll: int| #![trigger av[ll]] 0 <= ll < l && !prefers_in(ts, tv[k as int], av[ll]),
                decreases av.len() - l,
            {
                if !audience.prefers(&tvs[k], &avs[l]) {
                    assert(!prefers_in(ts, tv[k as int], av[l as int]));
                    found = true;
                }
                l = l + 1;
            }
            if !found {
                assert(!answered(av, tv[k as int], ts));
                return false;
            }
            assert(answered(av, tv[k as int], ts));
            k = k + 1;
        }
        assert(pareto_defeats(av, tv, ts));
        true
    }

    /// The defeat graph under `audience`: the same arguments, with the
    /// attacks that succeed as defeats.
    pub fn defeat_graph(&self, audience: &Audience) -> (r: Result<ArgumentationFramework, ValuesError>)
        requires
            self.wf(),
        ensures
            r is Ok,
            r matches Ok(af) ==> af.wf() && af.arg_names() == self.base_af().arg_names()
                && af.attacks() == self.defeat_rel(audience.ranking()),
    {
        let n = self.base.len();
        let names = self.base.arguments();
        let ghost rel = self.defeat_rel(audience.ranking());
        let mut adj: Vec<Vec<bool>> = Vec::new();
        let mut i: usize = 0;
        while i < n
            invariant
                self.wf(),
                n == self.size(),
                strings_view(names@) == self.base_af().arg_names(),
                rel == self.defeat_rel(audience.ranking()),
                i <= n,
                adj@.len() == i,
                forall|a: int| 0 <= a < i ==> #[trigger] adj@[a]@.len() == n,
                forall|a: int, b: int| 0 <= a < i && 0 <= b < n ==> #[trigger] adj@[a]@[b] == rel(a, b),
            decreases n - i,
        {
            let mut row: Vec<bool> = Vec::new();
            let mut j: usize = 0;
            while j < n
                invariant
                    self.wf(),
                    n == self.size(),
                    strings_view(names@) == self.base_af().arg_names(),
                    rel == self.defeat_rel(audience.ranking()),
                    i < n,
                    j <= n,
                    row@.len() == j,
                    forall|b: int| 0 <= b < j ==> #[trigger] row@[b] == rel(i as int, b),
                decreases n - j,
            {
                assert(names@[i as int]@ == self.base_af().arg_names()[i as int]);
                assert(names@[j as int]@ == self.base_af().arg_names()[j as int]);
                let d = self.base.attacks_at(i, j) && self.defeats(names[i].as_str(), names[j].as_str(), audience);
                row.push(d);
                j = j + 1;
            }
            adj.push(row);
            i = i + 1;
        }
        proof {
            self.base_af().lemma_names_distinct();
        }
        let af = ArgumentationFramework::from_parts(names, adj);
        assert(af.attacks() =~= rel) by {
            assert forall|a: int, b: int| #[trigger] (af.attacks())(a, b) == rel(a, b) by {
                self.base_af().lemma_attacks_range();
                if !(0 <= a < n && 0 <= b < n) {
                    assert(!(self.base_af().attacks())(a, b));
                }
            }
        }
        Ok(af)
    }

    /// Whether `arg` is in some preferred extension of the defeat graph
    /// under `audience` (false for an argument not in the framework).
    pub fn accepted_for(&self, audience: &Audience, arg: &str) -> (r: Result<bool, ValuesError>)
        requires
            self.wf(),
        ensures
            r is Err <==> self.size() > ENUMERATION_LIMIT,
            r matches Err(e) ==> self.too_large(e),
            r matches Ok(b) ==> b == self.credulous(audience.ranking(), arg@),
    {
        let ghost ts = audience.ranking();
        let af = match self.defeat_graph(audience) {
            Ok(af) => af,
            Err(e) => {
                return Err(e);
            },
        };
        if af.len() > ENUMERATION_LIMIT {
            return Err(ValuesError::Dung(DungError::TooLarge { arguments: af.len(), limit: ENUMERATION_LIMIT }));
        }
        proof {
            af.lemma_names_distinct();
        }
        match af.position(arg) {
            None => {
                assert(!self.credulous(ts, arg@)) by {
                    if self.credulous(ts, arg@) {
                        let (m, i) = choose|m: Seq<bool>, i: int| #![trigger preferred(self.size(), self.defeat_rel(ts), m), m[i]]
                            preferred(self.size(), self.defeat_rel(ts), m) && 0 <= i < self.size()
                            && self.base_af().arg_names()[i] == arg@ && m[i];
                        assert(af.arg_names()[i] == arg@);
                    }
                }
                Ok(false)
            },
            Some(t) => {
                let ms = af.preferred_masks();
                let mut k: usize = 0;
                while k < ms.len()
                    invariant
                        af.wf(),
                        af.arg_names() == self.base_af().arg_names(),
                        af.attacks() == self.defeat_rel(ts),
                        af.arg_names().no_duplicates(),
                        af.size() <= ENUMERATION_LIMIT,
                        ts == audience.ranking(),
                        t < af.size(),
                        af.arg_names()[t as int] == arg@,
                        k <= ms@.len(),
                        forall|q: int| 0 <= q < ms@.len() ==> preferred(af.size(), af.attacks(), #[trigger] ms@[q]@),
                        forall|q: int| 0 <= q < ms@.len() ==> #[trigger] ms@[q]@.len() == af.size(),
                        forall|q: int| 0 <= q < k ==> !(#[trigger] ms@[q]@)[t as int],
                    decreases ms@.len() - k,
                {
                    if ms[k][t] {
                        assert(preferred(self.size(), self.defeat_rel(ts), ms@[k as int]@));
                        assert(ms@[k as int]@[t as int]);
                        return Ok(true);
                    }
                    k = k + 1;
                }
                assert(!self.credulous(ts, arg@)) by {
                    if self.credulous(ts, arg@) {
                        let (m, i) = choose|m: Seq<bool>, i: int| #![trigger preferred(self.size(), self.defeat_rel(ts), m), m[i]]
                            preferred(self.size(), self.defeat_rel(ts), m) && 0 <= i < self.size()
                            && self.base_af().arg_names()[i] == arg@ && m[i];
                        assert(i == t);
                        assert(preferred(af.size(), af.attacks(), m));
                        let q = choose|q: int| 0 <= q < ms@.len() && #[trigger] ms@[q]@ == m;
                        assert(!(ms@[q]@)[t as int]);
                    }
                }
                Ok(false)
            },
        }
    }

    /// Argument `i` is in the grounded extension of the defeat graph
    /// under `ts`.
    pub open spec fn grounded_member(&self, ts: Seq<Seq<Seq<char>>>, i: int) -> bool {
        exists|g: Seq<bool>| #[trigger] grounded(self.size(), self.defeat_rel(ts), g) && g[i]
    }

    /// For each argument, whether it is credulously accepted under
    /// `audience`.
    pub(crate) fn credulous_mask(&self, audience: &Audience) -> (r: Result<Vec<bool>, ValuesError>)
        requires
            self.wf(),
        ensures
            r is Err <==> self.size() > ENUMERATION_LIMIT,
            r matches Err(e) ==> self.too_large(e),
            r matches Ok(m) ==> m@.len() == self.size() && forall|i: int| 0 <= i < self.size()
                ==> #[trigger] m@[i] == self.credulous(audience.ranking(), self.base_af().arg_names()[i]),
    {
        let ghost ts = audience.ranking();
        let af = match self.defeat_graph(audience) {
            Ok(af) => af,
            Err(e) => {
                return Err(e);
            },
        };
        if af.len() > ENUMERATION_LIMIT {
            return Err(ValuesError::Dung(DungError::TooLarge { arguments: af.len(), limit: ENUMERATION_LIMIT }));
        }
        proof {
            af.lemma_names_distinct();
        }
        let n = af.len();
        let ms = af.preferred_masks();
        let mut out: Vec<bool> = Vec::new();
        let mut t: usize = 0;
        while t < n
            invariant
                af.wf(),
                n == af.size(),
                af.arg_names() == self.base_af().arg_names(),
                af.attacks() == self.defeat_rel(ts),
                af.arg_names().no_duplicates(),
                ts == audience.ranking(),
                forall|q: int| 0 <= q < ms@.len() ==> preferred(af.size(), af.attacks(), #[trigger] ms@[q]@),
                forall|q: int| 0 <= q < ms@.len() ==> #[trigger] ms@[q]@.len() == af.size(),
                forall|m: Seq<bool>| #[trigger] preferred(af.size(), af.attacks(), m) ==> exists|q: int|
                    0 <= q < ms@.len() && #[trigger] ms@[q]@ == m,
                t <= n,
                out@.len() == t,
                forall|i: int| 0 <= i < t ==> #[trigger] out@[i] == self.credulous(ts, self.base_af().arg_names()[i]),
            decreases n - t,
        {
            let mut found = false;
            let mut k: usize = 0;
            while k < ms.len()
                invariant
                    t < n,
                    n == af.size(),
                    forall|q: int| 0 <= q < ms@.len() ==> #[trigger] ms@[q]@.len() == af.size(),
                    k <= ms@.len(),
                    found == exists|q: int| 0 <= q < k && (#[trigger] ms@[q]@)[t as int],
                decreases ms@.len() - k,
            {
                if ms[k][t] {
                    assert((ms@[k as int]@)[t as int]);
                    found = true;
                }
                k = k + 1;
            }
            let ghost a = self.base_af().arg_names()[t as int];
            assert(found == self.credulous(ts, a)) by {
                if found {
                    let q = choose|q: int| 0 <= q < ms@.len() && (#[trigger] ms@[q]@)[t as int];
                    assert(preferred(self.size(), self.defeat_rel(ts), ms@[q]@));
                    assert((ms@[q]@)[t as int]);
                }
                if self.credulous(ts, a) {
                    let (m, i) = choose|m: Seq<bool>, i: int| #![trigger preferred(self.size(), self.defeat_rel(ts), m), m[i]]
                        preferred(self.size(), self.defeat_rel(ts), m) && 0 <= i < self.size()
                        && self.base_af().arg_names()[i] == a && m[i];
                    assert(i == t);
                    assert(preferred(af.size(), af.attacks(), m));
                    let q = choose|q: int| 0 <= q < ms@.len() && #[trigger] ms@[q]@ == m;
                    assert((ms@[q]@)[t as int]);
                }
            }
            out.push(found);
            t = t + 1;
        }
        Ok(out)
    }

    /// The grounded extension of the defeat graph under `audience`, as a
    /// mask.
    pub(crate) fn grounded_mask_for(&self, audience: &Audience) -> (r: Vec<bool>)
        requires
            self.wf(),
        ensures
            r@.len() == self.size(),
            grounded(self.size(), self.defeat_rel(audience.ranking()), r@),
            forall|i: int| 0 <= i < self.size() ==> #[trigger] r@[i] == self.grounded_member(audience.ranking(), i),
    {
        let af = match self.defeat_graph(audience) {
            Ok(af) => af,
            Err(_) => {
                assert(false);
                return Vec::new();
            },
        };
        let g = af.grounded_mask();
        let ghost ts = audience.ranking();
        assert(grounded(self.size(), self.defeat_rel(ts), g@));
        assert forall|i: int| 0 <= i < self.size() implies #[trigger] g@[i] == self.grounded_member(ts, i) by {
            if self.grounded_member(ts, i) {
                let h = choose|h: Seq<bool>| #[trigger] grounded(self.size(), self.defeat_rel(ts), h) && h[i];
                law_grounded_unique(self.size(), self.defeat_rel(ts), g@, h);
            }
        }
        g
    }

    /// The grounded extension of the defeat graph under `audience`.
    pub fn grounded_for(&self, audience: &Audience) -> (r: Result<Vec<String>, ValuesError>)
        requires
            self.wf(),
        ensures
            r is Ok,
            r matches Ok(v) ==> exists|m: Seq<bool>| #[trigger] grounded(self.size(), self.defeat_rel(audience.ranking()), m)
                && names_match(v@, self.base_af().named(m)),
    {
        let af = match self.defeat_graph(audience) {
            Ok(af) => af,
            Err(e) => {
                return Err(e);
            },
        };
        let g = af.grounded_mask();
        let v = af.names_of_mask(&g);
        assert(af.named(g@) == self.base_af().named(g@));
        assert(grounded(self.size(), self.defeat_rel(audience.ranking()), g@));
        Ok(v)
    }
}

} // verus!
