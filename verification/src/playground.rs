//! A Dung framework with a string-keyed interface and answers in a
//! stable (sorted) order, as a documentation playground shows them.

use vstd::prelude::*;
use crate::dung::{ArgumentationFramework, ENUMERATION_LIMIT, grounded, preferred};
use crate::order::{sort_strings, strictly_sorted};
use crate::strings::{find_name, lemma_select_contains, names_match, owned, strings_view};

verus! {

/// A Dung framework keyed by argument name.
pub struct WasmFramework {
    inner: ArgumentationFramework,
}

/// Some preferred extension of `af` holds `a`.
pub open spec fn credulously(af: ArgumentationFramework, a: Seq<char>) -> bool {
    exists|m: Seq<bool>| #[trigger] preferred(af.size(), af.attacks(), m) && af.named(m).contains(a)
}

/// `af` has a preferred extension, and each holds `a`.
pub open spec fn skeptically(af: ArgumentationFramework, a: Seq<char>) -> bool {
    &&& exists|m: Seq<bool>| #[trigger] preferred(af.size(), af.attacks(), m)
    &&& forall|m: Seq<bool>| #[trigger] preferred(af.size(), af.attacks(), m) ==> af.named(m).contains(a)
}

/// `v` names, in some order, a preferred extension of `af`.
pub open spec fn names_preferred(af: ArgumentationFramework, v: Vec<String>) -> bool {
    exists|m: Seq<bool>| #[trigger] preferred(af.size(), af.attacks(), m) && strings_view(v@).to_set() == af.named(m).to_set()
}

/// An argument skeptically accepted is credulously accepted.
pub proof fn law_skeptical_implies_credulous(af: ArgumentationFramework, a: Seq<char>)
    requires
        skeptically(af, a),
    ensures
        credulously(af, a),
{
    let m = choose|m: Seq<bool>| #[trigger] preferred(af.size(), af.attacks(), m);
    assert(af.named(m).contains(a));
}

/// `exts` lists the preferred extensions of `af`, each in ascending order.
pub open spec fn lists_sorted_preferred(af: ArgumentationFramework, exts: Seq<Vec<String>>) -> bool {
    &&& forall|k: int| 0 <= k < exts.len() ==> strictly_sorted(strings_view(#[trigger] exts[k]@))
    &&& forall|k: int| 0 <= k < exts.len() ==> names_preferred(af, #[trigger] exts[k])
    &&& forall|m: Seq<bool>| #[trigger] preferred(af.size(), af.attacks(), m) ==> exists|k: int|
        0 <= k < exts.len() && strings_view(exts[k]@).to_set() == af.named(m).to_set()
}

/// Whether a name occurs in `v`.
fn has_name(v: &Vec<String>, a: &str) -> (r: bool)
    ensures
        r == strings_view(v@).contains(a@),
{
    match find_name(v, &owned(a)) {
        Some(i) => {
            assert(strings_view(v@)[i as int] == a@);
            true
        },
        None => false,
    }
}

impl WasmFramework {
    /// The framework inside.
    pub closed spec fn framework(&self) -> ArgumentationFramework {
        self.inner
    }

    /// The framework inside is well formed.
    pub closed spec fn wf(&self) -> bool {
        self.inner.wf()
    }

    /// An empty framework.
    pub fn new() -> (r: Self)
        ensures
            r.wf(),
            r.framework().size() == 0,
    {
        WasmFramework { inner: ArgumentationFramework::new() }
    }

    /// Add an argument; adding one already present changes nothing.
    pub fn add_argument(&mut self, id: &str)
        requires
            old(self).wf(),
        ensures
            final(self).wf(),
            final(self).framework().arg_names() == if old(self).framework().arg_names().contains(id@) {
                old(self).framework().arg_names()
            } else {
                old(self).framework().arg_names().push(id@)
            },
            forall|i: int, j: int| #[trigger] (final(self).framework().attacks())(i, j)
                == (old(self).framework().attacks())(i, j),
    {
        self.inner.add_argument(id);
    }

    /// Whether an argument of this name was added.
    pub fn has_argument(&self, id: &str) -> (r: bool)
        requires
            self.wf(),
        ensures
            r == self.framework().arg_names().contains(id@),
    {
        self.inner.position(id).is_some()
    }

    /// Add an attack between two arguments added before.
    pub fn add_attack(&mut self, from: &str, to: &str)
        requires
            old(self).wf(),
            old(self).framework().arg_names().contains(from@),
            old(self).framework().arg_names().contains(to@),
        ensures
            final(self).wf(),
            final(self).framework().arg_names() == old(self).framework().arg_names(),
            forall|i: int, j: int| #[trigger] (final(self).framework().attacks())(i, j) == ((old(self).framework().attacks())(i, j)
                || (0 <= i < old(self).framework().size() && 0 <= j < old(self).framework().size()
                && old(self).framework().arg_names()[i] == from@ && old(self).framework().arg_names()[j] == to@)),
    {
        let r = self.inner.add_attack(from, to);
        assert(r is Ok);
    }

    /// The grounded extension, in ascending order.
    pub fn grounded_extension(&self) -> (r: Vec<String>)
        requires
            self.wf(),
        ensures
            strictly_sorted(strings_view(r@)),
            exists|m: Seq<bool>| #[trigger] grounded(self.framework().size(), self.framework().attacks(), m)
                && strings_view(r@).to_set() == self.framework().named(m).to_set(),
    {
        let g = self.inner.grounded_extension();
        let r = sort_strings(&g);
        proof {
            let m = choose|m: Seq<bool>| #[trigger] grounded(self.inner.size(), self.inner.attacks(), m)
                && names_match(g@, self.inner.named(m));
            assert(strings_view(r@).to_set() == self.inner.named(m).to_set());
            assert(self.framework() == self.inner);
            assert(grounded(self.framework().size(), self.framework().attacks(), m));
        }
        r
    }

    /// Whether some preferred extension holds `arg`; false when the
    /// framework is too large to enumerate.
    pub fn is_credulously_accepted(&self, arg: &str) -> (r: bool)
        requires
            self.wf(),
        ensures
            r == (self.framework().size() <= ENUMERATION_LIMIT && credulously(self.framework(), arg@)),
    {
        let af = &self.inner;
        match af.preferred_extensions() {
            Err(_) => false,
            Ok(exts) => {
                let mut k: usize = 0;
                while k < exts.len()
                    invariant
                        af.wf(),
                        *af == self.framework(),
                        af.size() <= ENUMERATION_LIMIT,
                        af.lists_preferred(exts@),
                        k <= exts@.len(),
                        forall|q: int| 0 <= q < k ==> !strings_view(#[trigger] exts@[q]@).contains(arg@),
                    decreases exts@.len() - k,
                {
                    if has_name(&exts[k], arg) {
                        proof {
                            let m = af.mask_of(exts@[k as int]@);
                            assert(preferred(af.size(), af.attacks(), m));
                            assert(names_match(exts@[k as int]@, af.named(m)));
                            assert(af.named(m).contains(arg@));
                            assert(credulously(*af, arg@));
                        }
                        return true;
                    }
                    k = k + 1;
                }
                proof {
                    if credulously(*af, arg@) {
                        let m = choose|m: Seq<bool>| #[trigger] preferred(af.size(), af.attacks(), m) && af.named(m).contains(arg@);
                        let q = choose|q: int| 0 <= q < exts@.len() && #[trigger] names_match(exts@[q]@, af.named(m));
                        assert(!strings_view(exts@[q]@).contains(arg@));
                    }
                }
                false
            },
        }
    }

    /// Whether the framework has a preferred extension and each holds
    /// `arg`; false when the framework is too large to enumerate.
    pub fn is_skeptically_accepted(&self, arg: &str) -> (r: bool)
        requires
            self.wf(),
        ensures
            r == (self.framework().size() <= ENUMERATION_LIMIT && skeptically(self.framework(), arg@)),
    {
        let af = &self.inner;
        match af.preferred_extensions() {
            Err(_) => false,
            Ok(exts) => {
                let mut k: usize = 0;
                while k < exts.len()
                    invariant
                        af.wf(),
                        *af == self.framework(),
                        af.size() <= ENUMERATION_LIMIT,
                        af.lists_preferred(exts@),
                        k <= exts@.len(),
                        forall|q: int| 0 <= q < k ==> strings_view(#[trigger] exts@[q]@).contains(arg@),
                    decreases exts@.len() - k,
                {
                    if !has_name(&exts[k], arg) {
                        proof {
                            let m = af.mask_of(exts@[k as int]@);
                            assert(preferred(af.size(), af.attacks(), m));
                            assert(names_match(exts@[k as int]@, af.named(m)));
                            assert(!af.named(m).contains(arg@));
                            assert(!skeptically(*af, arg@));
                        }
                        return false;
                    }
                    k = k + 1;
                }
                proof {
                    assert forall|m: Seq<bool>| #[trigger] preferred(af.size(), af.attacks(), m) implies af.named(m).contains(arg@) by {
                        let q = choose|q: int| 0 <= q < exts@.len() && #[trigger] names_match(exts@[q]@, af.named(m));
                        assert(strings_view(exts@[q]@).contains(arg@));
                    }
                    if exts@.len() > 0 {
                        let m = af.mask_of(exts@[0]@);
                        assert(preferred(af.size(), af.attacks(), m));
                    } else if exists|m: Seq<bool>| #[trigger] preferred(af.size(), af.attacks(), m) {
                        let m = choose|m: Seq<bool>| #[trigger] preferred(af.size(), af.attacks(), m);
                        let q = choose|q: int| 0 <= q < exts@.len() && #[trigger] names_match(exts@[q]@, af.named(m));
                    }
                }
                exts.len() > 0
            },
        }
    }

    /// The preferred extensions, each in ascending order; none when the
    /// framework is too large to enumerate.
    pub fn preferred_extensions_for_test(&self) -> (r: Vec<Vec<String>>)
        requires
            self.wf(),
        ensures
            self.framework().size() > ENUMERATION_LIMIT ==> r@.len() == 0,
            self.framework().size() <= ENUMERATION_LIMIT ==> lists_sorted_preferred(self.framework(), r@),
    {
        let af = &self.inner;
        match af.preferred_extensions() {
            Err(_) => Vec::new(),
            Ok(exts) => {
                let mut out: Vec<Vec<String>> = Vec::new();
                let mut k: usize = 0;
                while k < exts.len()
                    invariant
                        af.wf(),
                        *af == self.framework(),
                        af.size() <= ENUMERATION_LIMIT,
                        af.lists_preferred(exts@),
                        k <= exts@.len(),
                        out@.len() == k,
                        forall|q: int| 0 <= q < k ==> strictly_sorted(strings_view(#[trigger] out@[q]@)),
                        forall|q: int| 0 <= q < k ==> strings_view(#[trigger] out@[q]@).to_set()
                            == strings_view(exts@[q]@).to_set(),
                    decreases exts@.len() - k,
                {
                    out.push(sort_strings(&exts[k]));
                    k = k + 1;
                }
                proof {
                    assert forall|q: int| 0 <= q < out@.len() implies names_preferred(*af, #[trigger] out@[q]) by {
                        let m = af.mask_of(exts@[q]@);
                        assert(preferred(af.size(), af.attacks(), m));
                        assert(names_match(exts@[q]@, af.named(m)));
                    }
                    assert forall|m: Seq<bool>| #[trigger] preferred(af.size(), af.attacks(), m) implies exists|q: int|
                        0 <= q < out@.len() && strings_view(out@[q]@).to_set() == af.named(m).to_set() by {
                        let q = choose|q: int| 0 <= q < exts@.len() && #[trigger] names_match(exts@[q]@, af.named(m));
                        assert(strings_view(out@[q]@).to_set() == af.named(m).to_set());
                    }
                }
                out
            },
        }
    }
}

} // verus!
