//! Extension semantics under necessary support: the Dung extensions of
//! the flattened framework that are support-closed.
//!
//! A set of arguments is support-closed when each of its members has all
//! of its direct supporters in the set.

use vstd::prelude::*;
use crate::bipolar::framework::BipolarFramework;
use crate::bipolar::flatten::flatten;
use crate::bipolar::types::BipolarError;
use crate::dung::{
    ArgumentationFramework, DungError, ENUMERATION_LIMIT, preferred, complete, stable, grounded,
    subset, count, lemma_count_strict, law_grounded_in_preferred, law_preferred_is_complete,
    law_stable_is_preferred, masks_equal,
};
use crate::strings::{strings_view, names_match, find_name};

verus! {

/// No two of `exts` name the same set of arguments.
pub open spec fn distinct_sets(exts: Seq<Vec<String>>) -> bool {
    forall|k1: int, k2: int| 0 <= k1 < exts.len() && 0 <= k2 < exts.len() && k1 != k2 ==>
        strings_view(#[trigger] exts[k1]@).to_set() != strings_view(#[trigger] exts[k2]@).to_set()
}

/// Whether `m` is one of `ms`.
fn mask_listed(ms: &Vec<Vec<bool>>, m: &Vec<bool>) -> (r: bool)
    ensures
        r == exists|k: int| 0 <= k < ms@.len() && #[trigger] ms@[k]@ == m@,
{
    let mut i: usize = 0;
    while i < ms.len()
        invariant
            i <= ms@.len(),
            forall|k: int| 0 <= k < i ==> #[trigger] ms@[k]@ != m@,
        decreases ms@.len() - i,
    {
        if masks_equal(&ms[i], m) {
            return true;
        }
        i = i + 1;
    }
    false
}

/// `m` is the view of one of the masks `ms`.
pub open spec fn in_masks(ms: Seq<Vec<bool>>, m: Seq<bool>) -> bool {
    exists|j: int| 0 <= j < ms.len() && #[trigger] ms[j]@ == m
}

impl BipolarFramework {
    /// Every argument of `m` has each of its direct supporters in `m`.
    pub open spec fn support_closed(&self, m: Seq<bool>) -> bool {
        forall|i: int, j: int| #[trigger] (self.support_rel())(i, j) && m[j] ==> m[i]
    }

    /// The mask of the framework's arguments that `v` names.
    pub open spec fn mask_of(&self, v: Seq<String>) -> Seq<bool> {
        Seq::new(self.size(), |i: int| strings_view(v).contains(self.arg_names()[i]))
    }

    /// The error for a framework too large to enumerate.
    pub open spec fn too_large(&self, e: BipolarError) -> bool {
        e == BipolarError::Dung(DungError::TooLarge { arguments: self.size() as usize, limit: ENUMERATION_LIMIT })
    }

    /// Preferred for the closed attack relation.
    pub open spec fn closed_preferred(&self) -> spec_fn(Seq<bool>) -> bool {
        |m: Seq<bool>| preferred(self.size(), self.closed_rel(), m)
    }

    /// Complete for the closed attack relation.
    pub open spec fn closed_complete(&self) -> spec_fn(Seq<bool>) -> bool {
        |m: Seq<bool>| complete(self.size(), self.closed_rel(), m)
    }

    /// Stable for the closed attack relation.
    pub open spec fn closed_stable(&self) -> spec_fn(Seq<bool>) -> bool {
        |m: Seq<bool>| stable(self.size(), self.closed_rel(), m)
    }

    /// `exts` names exactly the support-closed masks that satisfy `sem`,
    /// each once.
    pub open spec fn lists_closed(&self, exts: Seq<Vec<String>>, sem: spec_fn(Seq<bool>) -> bool) -> bool {
        &&& distinct_sets(exts)
        &&& forall|k: int| 0 <= k < exts.len() ==> sem(#[trigger] self.mask_of(exts[k]@))
        &&& forall|k: int| 0 <= k < exts.len() ==> self.support_closed(#[trigger] self.mask_of(exts[k]@))
        &&& forall|k: int| 0 <= k < exts.len() ==> names_match(exts[k]@, self.named(#[trigger] self.mask_of(exts[k]@)))
        &&& forall|m: Seq<bool>| #[trigger] sem(m) && self.support_closed(m) ==> exists|k: int|
            0 <= k < exts.len() && #[trigger] names_match(exts[k]@, self.named(m))
    }

    /// `m` is the largest support-closed mask inside `g`.
    pub open spec fn greatest_closed_within(&self, g: Seq<bool>, m: Seq<bool>) -> bool {
        &&& m.len() == self.size()
        &&& subset(m, g)
        &&& self.support_closed(m)
        &&& forall|s: Seq<bool>| #![trigger subset(s, g)]
            s.len() == self.size() && subset(s, g) && self.support_closed(s) ==> subset(s, m)
    }

    /// Whether the mask `m` is support-closed.
    fn check_closed_mask(&self, m: &Vec<bool>) -> (r: bool)
        requires
            self.wf(),
            m@.len() == self.size(),
        ensures
            r == self.support_closed(m@),
    {
        let n = self.len();
        proof {
            self.lemma_wf();
        }
        let mut i: usize = 0;
        while i < n
            invariant
                self.wf(),
                n == self.size(),
                m@.len() == n,
                i <= n,
                forall|a: int, b: int| #[trigger] (self.support_rel())(a, b) ==> 0 <= a < n && 0 <= b < n,
                forall|a: int, b: int| 0 <= a < i && #[trigger] (self.support_rel())(a, b) && m@[b] ==> m@[a],
            decreases n - i,
        {
            let mut j: usize = 0;
            while j < n
                invariant
                    self.wf(),
                    n == self.size(),
                    m@.len() == n,
                    i < n,
                    j <= n,
                    forall|a: int, b: int| #[trigger] (self.support_rel())(a, b) ==> 0 <= a < n && 0 <= b < n,
                    forall|a: int, b: int| 0 <= a < i && #[trigger] (self.support_rel())(a, b) && m@[b] ==> m@[a],
                    forall|b: int| 0 <= b < j && #[trigger] (self.support_rel())(i as int, b) && m@[b] ==> m@[i as int],
                decreases n - j,
            {
                if self.supports_at(i, j) && m[j] && !m[i] {
                    assert((self.support_rel())(i as int, j as int) && m@[j as int] && !m@[i as int]);
                    return false;
                }
                j = j + 1;
            }
            i = i + 1;
        }
        proof {
            self.lemma_wf();
        }
        true
    }

    /// The masks of `ms` that are support-closed, in order, each once.
    fn keep_closed(&self, ms: &Vec<Vec<bool>>) -> (r: Vec<Vec<bool>>)
        requires
            self.wf(),
            forall|k: int| 0 <= k < ms@.len() ==> #[trigger] ms@[k]@.len() == self.size(),
        ensures
            forall|k1: int, k2: int| 0 <= k1 < r@.len() && 0 <= k2 < r@.len() && k1 != k2 ==>
                #[trigger] r@[k1]@ != #[trigger] r@[k2]@,
            forall|k: int| 0 <= k < r@.len() ==> #[trigger] r@[k]@.len() == self.size(),
            forall|k: int| 0 <= k < r@.len() ==> self.support_closed(#[trigger] r@[k]@),
            forall|k: int| 0 <= k < r@.len() ==> in_masks(ms@, #[trigger] r@[k]@),
            forall|j: int| 0 <= j < ms@.len() && self.support_closed(#[trigger] ms@[j]@) ==> exists|k: int|
                0 <= k < r@.len() && #[trigger] r@[k]@ == ms@[j]@,
    {
        let mut r: Vec<Vec<bool>> = Vec::new();
        let mut i: usize = 0;
        while i < ms.len()
            invariant
                self.wf(),
                i <= ms@.len(),
                forall|k: int| 0 <= k < ms@.len() ==> #[trigger] ms@[k]@.len() == self.size(),
                forall|k: int| 0 <= k < r@.len() ==> #[trigger] r@[k]@.len() == self.size(),
                forall|k: int| 0 <= k < r@.len() ==> self.support_closed(#[trigger] r@[k]@),
                forall|k: int| 0 <= k < r@.len() ==> in_masks(ms@, #[trigger] r@[k]@),
                forall|j: int| 0 <= j < i && self.support_closed(#[trigger] ms@[j]@) ==> exists|k: int|
                    0 <= k < r@.len() && #[trigger] r@[k]@ == ms@[j]@,
                forall|k1: int, k2: int| 0 <= k1 < r@.len() && 0 <= k2 < r@.len() && k1 != k2 ==>
                    #[trigger] r@[k1]@ != #[trigger] r@[k2]@,
            decreases ms@.len() - i,
        {
            let ghost old_r = r@;
            let seen = mask_listed(&r, &ms[i]);
            if self.check_closed_mask(&ms[i]) && !seen {
                r.push(ms[i].clone());
                assert(r@[r@.len() - 1]@ == ms@[i as int]@);
                assert forall|k1: int, k2: int| 0 <= k1 < r@.len() && 0 <= k2 < r@.len() && k1 != k2 implies
                    #[trigger] r@[k1]@ != #[trigger] r@[k2]@ by {
                    if k1 < old_r.len() && k2 < old_r.len() {
                        assert(r@[k1] == old_r[k1] && r@[k2] == old_r[k2]);
                    } else if k1 < old_r.len() {
                        assert(r@[k1] == old_r[k1]);
                    } else {
                        assert(r@[k2] == old_r[k2]);
                    }
                }
            }
            proof {
                assert forall|k: int| 0 <= k < r@.len() implies #[trigger] in_masks(ms@, r@[k]@) by {
                    if k < old_r.len() {
                        assert(r@[k] == old_r[k]);
                    } else {
                        assert(ms@[i as int]@ == r@[k]@);
                    }
                    assert(in_masks(ms@, r@[k]@));
                }
                assert forall|j: int| 0 <= j < i + 1 && self.support_closed(#[trigger] ms@[j]@) implies exists|k: int|
                    0 <= k < r@.len() && #[trigger] r@[k]@ == ms@[j]@ by {
                    if j < i {
                        let k = choose|k: int| 0 <= k < old_r.len() && #[trigger] old_r[k]@ == ms@[j]@;
                        assert(r@[k] == old_r[k]);
                    } else if seen {
                        let k = choose|k: int| 0 <= k < old_r.len() && #[trigger] old_r[k]@ == ms@[i as int]@;
                        assert(r@[k] == old_r[k]);
                    } else {
                        assert(r@[r@.len() - 1]@ == ms@[i as int]@);
                    }
                }
            }
            i = i + 1;
        }
        r
    }

    /// Some direct supporter of `a` is missing from `m`.
    pub open spec fn misses_support(&self, m: Seq<bool>, a: int) -> bool {
        exists|s: int| #[trigger] (self.support_rel())(s, a) && !m[s]
    }

    /// One repair round: `m` without each of its members that misses a
    /// direct supporter in `m`, and whether any member was removed.
    fn prune_unsupported(&self, m: &Vec<bool>) -> (r: (Vec<bool>, bool))
        requires
            self.wf(),
            m@.len() == self.size(),
        ensures
            r.0@.len() == self.size(),
            forall|a: int| 0 <= a < self.size() ==> #[trigger] r.0@[a] == (m@[a] && !self.misses_support(m@, a)),
            r.1 == exists|a: int| 0 <= a < self.size() && m@[a] && #[trigger] self.misses_support(m@, a),
    {
        let n = self.len();
        proof {
            self.lemma_wf();
        }
        let mut out: Vec<bool> = Vec::new();
        let mut changed = false;
        let mut a: usize = 0;
        while a < n
            invariant
                self.wf(),
                n == self.size(),
                m@.len() == n,
                a <= n,
                out@.len() == a,
                forall|x: int, y: int| #[trigger] (self.support_rel())(x, y) ==> 0 <= x < n && 0 <= y < n,
                forall|k: int| 0 <= k < a ==> #[trigger] out@[k] == (m@[k] && !self.misses_support(m@, k)),
                changed == exists|k: int| 0 <= k < a && m@[k] && #[trigger] self.misses_support(m@, k),
            decreases n - a,
        {
            let mut miss = false;
            let mut s: usize = 0;
            while s < n
                invariant
                    self.wf(),
                    n == self.size(),
                    m@.len() == n,
                    a < n,
                    s <= n,
                    forall|x: int, y: int| #[trigger] (self.support_rel())(x, y) ==> 0 <= x < n && 0 <= y < n,
                    miss == exists|t: int| 0 <= t < s && #[trigger] (self.support_rel())(t, a as int) && !m@[t],
                decreases n - s,
            {
                if self.supports_at(s, a) && !m[s] {
                    assert((self.support_rel())(s as int, a as int) && !m@[s as int]);
                    miss = true;
                }
                s = s + 1;
            }
            assert(miss == self.misses_support(m@, a as int));
            let ghost old_changed = changed;
            out.push(m[a] && !miss);
            if m[a] && miss {
                changed = true;
            }
            proof {
                if changed && !old_changed {
                    assert(m@[a as int] && self.misses_support(m@, a as int));
                }
                if old_changed {
                    let k = choose|k: int| 0 <= k < a && m@[k] && #[trigger] self.misses_support(m@, k);
                    assert(0 <= k < a + 1);
                }
            }
            a = a + 1;
        }
        (out, changed)
    }
}

/// The names of the support-closed masks among `ms`, where `ms` lists
/// exactly the masks satisfying `sem` in `af`, the flattening of
/// `framework`.
fn closed_extensions(
    framework: &BipolarFramework,
    af: &ArgumentationFramework,
    ms: &Vec<Vec<bool>>,
    Ghost(sem): Ghost<spec_fn(Seq<bool>) -> bool>,
) -> (r: Vec<Vec<String>>)
    requires
        framework.wf(),
        af.wf(),
        af.arg_names() == framework.arg_names(),
        forall|k: int| 0 <= k < ms@.len() ==> #[trigger] ms@[k]@.len() == framework.size(),
        forall|k: int| 0 <= k < ms@.len() ==> sem(#[trigger] ms@[k]@),
        forall|m: Seq<bool>| #[trigger] sem(m) ==> exists|k: int| 0 <= k < ms@.len() && #[trigger] ms@[k]@ == m,
    ensures
        framework.lists_closed(r@, sem),
{
    let kept = framework.keep_closed(ms);
    let exts = af.names_of_masks(&kept);
    assert forall|k: int| 0 <= k < exts@.len() implies #[trigger] framework.mask_of(exts@[k]@) == kept@[k]@ by {
        assert(framework.mask_of(exts@[k]@) =~= af.mask_of(exts@[k]@));
    }
    assert forall|k: int| 0 <= k < exts@.len() implies sem(#[trigger] framework.mask_of(exts@[k]@)) by {
        assert(framework.mask_of(exts@[k]@) == kept@[k]@);
        assert(in_masks(ms@, kept@[k]@));
        let j = choose|j: int| 0 <= j < ms@.len() && #[trigger] ms@[j]@ == kept@[k]@;
    }
    assert forall|k: int| 0 <= k < exts@.len() implies names_match(exts@[k]@, framework.named(#[trigger] framework.mask_of(exts@[k]@))) by {
        assert(framework.mask_of(exts@[k]@) == kept@[k]@);
        assert(names_match(exts@[k]@, af.named(kept@[k]@)));
    }
    assert forall|k: int| 0 <= k < exts@.len() implies framework.support_closed(#[trigger] framework.mask_of(exts@[k]@)) by {
        assert(framework.mask_of(exts@[k]@) == kept@[k]@);
    }
    assert forall|k1: int, k2: int| 0 <= k1 < exts@.len() && 0 <= k2 < exts@.len() && k1 != k2 implies
        strings_view(#[trigger] exts@[k1]@).to_set() != strings_view(#[trigger] exts@[k2]@).to_set() by {
        if strings_view(exts@[k1]@).to_set() == strings_view(exts@[k2]@).to_set() {
            assert forall|i: int| 0 <= i < framework.size() implies
                #[trigger] framework.mask_of(exts@[k1]@)[i] == framework.mask_of(exts@[k2]@)[i] by {
                let x = framework.arg_names()[i];
                assert(strings_view(exts@[k1]@).contains(x) == strings_view(exts@[k1]@).to_set().contains(x));
                assert(strings_view(exts@[k2]@).contains(x) == strings_view(exts@[k2]@).to_set().contains(x));
            }
            assert(framework.mask_of(exts@[k1]@) =~= framework.mask_of(exts@[k2]@));
            assert(framework.mask_of(exts@[k1]@) == kept@[k1]@);
            assert(framework.mask_of(exts@[k2]@) == kept@[k2]@);
        }
    }
    assert forall|m: Seq<bool>| #[trigger] sem(m) && framework.support_closed(m) implies exists|k: int|
        0 <= k < exts@.len() && #[trigger] names_match(exts@[k]@, framework.named(m)) by {
        let j = choose|j: int| 0 <= j < ms@.len() && #[trigger] ms@[j]@ == m;
        assert(framework.support_closed(ms@[j]@));
        let k = choose|k: int| 0 <= k < kept@.len() && #[trigger] kept@[k]@ == ms@[j]@;
        assert(names_match(exts@[k]@, af.named(kept@[k]@)));
        assert(af.named(kept@[k]@) == framework.named(m));
    }
    exts
}

/// Whether a set of arguments, given by name, is support-closed: every
/// named argument of the framework has all its direct supporters named
/// too. Names that are not arguments of the framework impose nothing.
pub fn is_support_closed(framework: &BipolarFramework, extension: &Vec<String>) -> (r: bool)
    requires
        framework.wf(),
    ensures
        r == framework.support_closed(framework.mask_of(extension@)),
{
    let names = framework.names_ref();
    let n = names.len();
    let mut m: Vec<bool> = Vec::new();
    let mut i: usize = 0;
    while i < n
        invariant
            strings_view(names@) == framework.arg_names(),
            n == framework.size(),
            i <= n,
            m@.len() == i,
            forall|k: int| 0 <= k < i ==> #[trigger] m@[k] == framework.mask_of(extension@)[k],
        decreases n - i,
    {
        let found = find_name(extension, &names[i]);
        assert(names@[i as int]@ == framework.arg_names()[i as int]);
        match found {
            Some(idx) => {
                assert(strings_view(extension@)[idx as int] == names@[i as int]@);
                m.push(true);
            },
            None => {
                m.push(false);
            },
        }
        i = i + 1;
    }
    assert(m@ =~= framework.mask_of(extension@));
    framework.check_closed_mask(&m)
}

/// The flattening of `framework`, which always exists.
fn flattened(framework: &BipolarFramework) -> (af: ArgumentationFramework)
    requires
        framework.wf(),
    ensures
        af.wf(),
        af.arg_names() == framework.arg_names(),
        af.size() == framework.size(),
        af.attacks() == framework.closed_rel(),
{
    match flatten(framework) {
        Ok(af) => af,
        Err(_) => {
            assert(false);
            ArgumentationFramework::new()
        },
    }
}

/// The bipolar preferred extensions: the Dung-preferred extensions of
/// the flattened framework that are support-closed. A preferred
/// extension that is not support-closed is dropped, not replaced.
pub fn bipolar_preferred_extensions(framework: &BipolarFramework) -> (r: Result<Vec<Vec<String>>, BipolarError>)
    requires
        framework.wf(),
    ensures
        r is Err <==> framework.size() > ENUMERATION_LIMIT,
        r matches Err(e) ==> framework.too_large(e),
        r matches Ok(exts) ==> framework.lists_closed(exts@, framework.closed_preferred()),
{
    let af = flattened(framework);
    if af.len() > ENUMERATION_LIMIT {
        return Err(BipolarError::Dung(DungError::TooLarge { arguments: af.len(), limit: ENUMERATION_LIMIT }));
    }
    let ms = af.preferred_masks();
    let ghost sem = framework.closed_preferred();
    assert forall|k: int| 0 <= k < ms@.len() implies sem(#[trigger] ms@[k]@) by {
        assert(preferred(af.size(), af.attacks(), ms@[k]@));
    }
    assert forall|m: Seq<bool>| #[trigger] sem(m) implies exists|k: int| 0 <= k < ms@.len() && #[trigger] ms@[k]@ == m by {
        assert(preferred(af.size(), af.attacks(), m));
    }
    Ok(closed_extensions(framework, &af, &ms, Ghost(sem)))
}

/// The bipolar complete extensions: the Dung-complete extensions of the
/// flattened framework that are support-closed.
pub fn bipolar_complete_extensions(framework: &BipolarFramework) -> (r: Result<Vec<Vec<String>>, BipolarError>)
    requires
        framework.wf(),
    ensures
        r is Err <==> framework.size() > ENUMERATION_LIMIT,
        r matches Err(e) ==> framework.too_large(e),
        r matches Ok(exts) ==> framework.lists_closed(exts@, framework.closed_complete()),
{
    let af = flattened(framework);
    if af.len() > ENUMERATION_LIMIT {
        return Err(BipolarError::Dung(DungError::TooLarge { arguments: af.len(), limit: ENUMERATION_LIMIT }));
    }
    let ms = af.complete_masks();
    let ghost sem = framework.closed_complete();
    assert forall|k: int| 0 <= k < ms@.len() implies sem(#[trigger] ms@[k]@) by {
        assert(complete(af.size(), af.attacks(), ms@[k]@));
    }
    assert forall|m: Seq<bool>| #[trigger] sem(m) implies exists|k: int| 0 <= k < ms@.len() && #[trigger] ms@[k]@ == m by {
        assert(complete(af.size(), af.attacks(), m));
    }
    Ok(closed_extensions(framework, &af, &ms, Ghost(sem)))
}

/// The bipolar stable extensions: the Dung-stable extensions of the
/// flattened framework that are support-closed.
pub fn bipolar_stable_extensions(framework: &BipolarFramework) -> (r: Result<Vec<Vec<String>>, BipolarError>)
    requires
        framework.wf(),
    ensures
        r is Err <==> framework.size() > ENUMERATION_LIMIT,
        r matches Err(e) ==> framework.too_large(e),
        r matches Ok(exts) ==> framework.lists_closed(exts@, framework.closed_stable()),
{
    let af = flattened(framework);
    if af.len() > ENUMERATION_LIMIT {
        return Err(BipolarError::Dung(DungError::TooLarge { arguments: af.len(), limit: ENUMERATION_LIMIT }));
    }
    let ms = af.stable_masks();
    let ghost sem = framework.closed_stable();
    assert forall|k: int| 0 <= k < ms@.len() implies sem(#[trigger] ms@[k]@) by {
        assert(stable(af.size(), af.attacks(), ms@[k]@));
    }
    assert forall|m: Seq<bool>| #[trigger] sem(m) implies exists|k: int| 0 <= k < ms@.len() && #[trigger] ms@[k]@ == m by {
        assert(stable(af.size(), af.attacks(), m));
    }
    Ok(closed_extensions(framework, &af, &ms, Ghost(sem)))
}

/// The bipolar grounded extension: the largest support-closed subset of
/// the Dung-grounded extension of the flattened framework. It is reached
/// by removing, round after round, every member that misses a direct
/// supporter, until nothing changes.
pub fn bipolar_grounded_extension(framework: &BipolarFramework) -> (r: Result<Vec<String>, BipolarError>)
    requires
        framework.wf(),
    ensures
        r is Ok,
        r matches Ok(ext) ==> exists|g: Seq<bool>, m: Seq<bool>|
            grounded(framework.size(), framework.closed_rel(), g)
            && #[trigger] framework.greatest_closed_within(g, m) && names_match(ext@, framework.named(m)),
{
    let af = flattened(framework);
    let g = af.grounded_mask();
    let ghost gg = g@;
    let ghost n = framework.size();
    let mut cur = g.clone();
    assert(cur@ == gg);
    proof {
        framework.lemma_wf();
    }
    loop
        invariant
            framework.wf(),
            n == framework.size(),
            gg.len() == n,
            cur@.len() == n,
            subset(cur@, gg),
            forall|x: int, y: int| #[trigger] (framework.support_rel())(x, y) ==> 0 <= x < n && 0 <= y < n,
            forall|s: Seq<bool>| #![trigger subset(s, gg)]
                s.len() == n && subset(s, gg) && framework.support_closed(s) ==> subset(s, cur@),
        ensures
            cur@.len() == n,
            framework.greatest_closed_within(gg, cur@),
        decreases count(cur@),
    {
        let (next, changed) = framework.prune_unsupported(&cur);
        if !changed {
            assert(framework.support_closed(cur@)) by {
                assert forall|i: int, j: int| #[trigger] (framework.support_rel())(i, j) && cur@[j] implies cur@[i] by {
                    if !cur@[i] {
                        assert(framework.misses_support(cur@, j));
                    }
                }
            }
            break;
        }
        proof {
            assert forall|s: Seq<bool>| #![trigger subset(s, gg)]
                s.len() == n && subset(s, gg) && framework.support_closed(s) implies subset(s, next@) by {
                assert forall|a: int| 0 <= a < s.len() && #[trigger] s[a] implies next@[a] by {
                    assert(subset(s, cur@));
                    assert(cur@[a]);
                    if framework.misses_support(cur@, a) {
                        let t = choose|t: int| #[trigger] (framework.support_rel())(t, a) && !cur@[t];
                        assert(s[t]);
                    }
                }
            }
            assert(subset(next@, cur@));
            let a = choose|a: int| 0 <= a < n && cur@[a] && #[trigger] framework.misses_support(cur@, a);
            assert(!next@[a]);
            assert(next@ != cur@);
            lemma_count_strict(next@, cur@);
        }
        cur = next;
    }
    let ext = af.names_of_mask(&cur);
    assert(af.named(cur@) == framework.named(cur@));
    assert(grounded(framework.size(), framework.closed_rel(), gg));
    Ok(ext)
}

/// The bipolar grounded extension is contained in every bipolar
/// preferred extension.
pub proof fn law_bipolar_grounded_in_preferred(framework: &BipolarFramework, g: Seq<bool>, m: Seq<bool>, p: Seq<bool>)
    requires
        grounded(framework.size(), framework.closed_rel(), g),
        framework.greatest_closed_within(g, m),
        (framework.closed_preferred())(p),
        framework.support_closed(p),
    ensures
        subset(m, p),
{
    law_grounded_in_preferred(framework.size(), framework.closed_rel(), g, p);
    assert(g.len() == framework.size()) by {
        reveal(complete);
    }
    assert forall|i: int| 0 <= i < m.len() && #[trigger] m[i] implies p[i] by {
        assert(g[i]);
    }
}

/// Every bipolar preferred extension is a bipolar complete extension.
pub proof fn law_bipolar_preferred_is_complete(framework: &BipolarFramework, p: Seq<bool>)
    requires
        (framework.closed_preferred())(p),
        framework.support_closed(p),
    ensures
        (framework.closed_complete())(p),
{
    law_preferred_is_complete(framework.size(), framework.closed_rel(), p);
}

/// Every bipolar stable extension is a bipolar preferred extension.
pub proof fn law_bipolar_stable_is_preferred(framework: &BipolarFramework, p: Seq<bool>)
    requires
        (framework.closed_stable())(p),
        framework.support_closed(p),
    ensures
        (framework.closed_preferred())(p),
{
    law_stable_is_preferred(framework.size(), framework.closed_rel(), p);
}

} // verus!
