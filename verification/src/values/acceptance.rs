//! Subjective and objective acceptance (Bench-Capon): an argument is
//! subjectively accepted when some total ordering of the framework's
//! values accepts it, and objectively accepted when every one does.
//! Orderings are enumerated, so the number of distinct values is capped.

use vstd::prelude::*;
use crate::dung::DungError;
use crate::values::error::ValuesError;
use crate::values::framework::ValueBasedFramework;
use crate::values::types::{Audience, Value, values_view};

verus! {

/// Largest number of distinct values whose orderings are enumerated
/// (six values give 720 orderings).
pub const ENUMERATION_LIMIT: usize = 6;

/// `p` lists each of `0..n` exactly once.
pub open spec fn is_permutation(p: Seq<usize>, n: nat) -> bool {
    &&& p.len() == n
    &&& p.no_duplicates()
    &&& forall|i: int| 0 <= i < p.len() ==> #[trigger] p[i] < n
}

/// The total ordering of `vals` that ranks `vals[p[0]]` first, then
/// `vals[p[1]]`, and so on.
pub open spec fn total_ranking(vals: Seq<Seq<char>>, p: Seq<usize>) -> Seq<Seq<Seq<char>>> {
    Seq::new(p.len(), |i: int| seq![vals[p[i] as int]])
}

impl ValueBasedFramework {
    /// The distinct values promoted in the framework.
    pub open spec fn distinct_values(&self) -> Seq<Seq<char>> {
        self.assignment().distinct()
    }

    /// Some total ordering of the framework's values accepts `a`.
    pub open spec fn some_ordering_accepts(&self, a: Seq<char>) -> bool {
        exists|p: Seq<usize>| #[trigger] is_permutation(p, self.distinct_values().len())
            && self.credulous(total_ranking(self.distinct_values(), p), a)
    }

    /// Every total ordering of the framework's values accepts `a`.
    pub open spec fn every_ordering_accepts(&self, a: Seq<char>) -> bool {
        forall|p: Seq<usize>| #[trigger] is_permutation(p, self.distinct_values().len())
            ==> self.credulous(total_ranking(self.distinct_values(), p), a)
    }

    /// The error for too many values to enumerate their orderings.
    pub open spec fn too_many_values(&self, e: ValuesError) -> bool {
        e == ValuesError::AudienceTooLarge { values: self.distinct_values().len() as usize, limit: ENUMERATION_LIMIT }
    }
}

/// The identity ordering of `0..n`.
proof fn lemma_identity_permutation(n: nat) -> (p: Seq<usize>)
    requires
        n <= usize::MAX,
    ensures
        is_permutation(p, n),
{
    let p = Seq::new(n, |i: int| i as usize);
    assert(p.no_duplicates()) by {
        assert forall|a: int, b: int| 0 <= a < p.len() && 0 <= b < p.len() && a != b implies p[a] != p[b] by {}
    }
    p
}

/// Append to `out` every permutation of `0..n` that starts with `prefix`.
fn permute_recursive(prefix: &mut Vec<usize>, n: usize, out: &mut Vec<Vec<usize>>)
    requires
        old(prefix)@.len() <= n,
        old(prefix)@.no_duplicates(),
        forall|i: int| 0 <= i < old(prefix)@.len() ==> #[trigger] old(prefix)@[i] < n,
    ensures
        final(prefix)@ == old(prefix)@,
        final(out)@.len() >= old(out)@.len(),
        forall|k: int| 0 <= k < old(out)@.len() ==> #[trigger] final(out)@[k]@ == old(out)@[k]@,
        forall|k: int| old(out)@.len() <= k < final(out)@.len() ==> is_permutation(#[trigger] final(out)@[k]@, n as nat)
            && final(out)@[k]@.take(old(prefix)@.len() as int) == old(prefix)@,
        forall|p: Seq<usize>| #[trigger] is_permutation(p, n as nat) && p.take(old(prefix)@.len() as int) == old(prefix)@
            ==> exists|k: int| old(out)@.len() <= k < final(out)@.len() && #[trigger] final(out)@[k]@ == p,
    decreases n - old(prefix)@.len(),
{
    let ghost pre = prefix@;
    let ghost start = out@;
    let m = prefix.len();
    if m == n {
        out.push(prefix.clone());
        assert(out@[start.len() as int]@ == pre);
        assert(pre.take(m as int) =~= pre);
        assert forall|p: Seq<usize>| #[trigger] is_permutation(p, n as nat) && p.take(m as int) == pre
            implies exists|k: int| start.len() <= k < out@.len() && #[trigger] out@[k]@ == p by {
            assert(p =~= pre) by {
                assert(p.take(m as int) =~= p);
            }
            assert(out@[start.len() as int]@ == p);
        }
        return;
    }
    let mut i: usize = 0;
    while i < n
        invariant
            prefix@ == pre,
            old(prefix)@ == pre,
            m == pre.len(),
            m < n,
            pre.no_duplicates(),
            forall|q: int| 0 <= q < pre.len() ==> #[trigger] pre[q] < n,
            i <= n,
            out@.len() >= start.len(),
            forall|k: int| 0 <= k < start.len() ==> #[trigger] out@[k]@ == start[k]@,
            forall|k: int| start.len() <= k < out@.len() ==> is_permutation(#[trigger] out@[k]@, n as nat)
                && out@[k]@.take(m as int) == pre,
            forall|p: Seq<usize>| #[trigger] is_permutation(p, n as nat) && p.take(m as int) == pre && p[m as int] < i
                ==> exists|k: int| start.len() <= k < out@.len() && #[trigger] out@[k]@ == p,
        decreases n - i,
    {
        let mut used = false;
        let mut q: usize = 0;
        while q < prefix.len()
            invariant
                prefix@ == pre,
                q <= pre.len(),
                used == exists|r: int| 0 <= r < q && #[trigger] pre[r] == i,
            decreases pre.len() - q,
        {
            if prefix[q] == i {
                used = true;
            }
            q = q + 1;
        }
        let ghost before = out@;
        if !used {
            prefix.push(i);
            assert(prefix@ == pre.push(i));
            assert(prefix@.no_duplicates()) by {
                assert forall|a: int, b: int| 0 <= a < prefix@.len() && 0 <= b < prefix@.len() && a != b
                    implies prefix@[a] != prefix@[b] by {
                    if a < m && b < m {
                        assert(pre[a] != pre[b]);
                    }
                }
            }
            permute_recursive(prefix, n, out);
            prefix.pop();
            assert(prefix@ =~= pre);
            proof {
                assert forall|k: int| start.len() <= k < out@.len() implies is_permutation(#[trigger] out@[k]@, n as nat)
                    && out@[k]@.take(m as int) == pre by {
                    if k >= before.len() {
                        assert(out@[k]@.take(m + 1) == pre.push(i));
                        assert(out@[k]@.take(m as int) =~= out@[k]@.take(m + 1).take(m as int));
                        assert(pre.push(i).take(m as int) =~= pre);
                    } else {
                        assert(out@[k]@ == before[k]@);
                    }
                }
                assert forall|k: int| 0 <= k < start.len() implies #[trigger] out@[k]@ == start[k]@ by {
                    assert(out@[k]@ == before[k]@);
                }
            }
        }
        proof {
            assert forall|p: Seq<usize>| #[trigger] is_permutation(p, n as nat) && p.take(m as int) == pre && p[m as int] < i + 1
                implies exists|k: int| start.len() <= k < out@.len() && #[trigger] out@[k]@ == p by {
                if p[m as int] < i {
                    let k = choose|k: int| start.len() <= k < before.len() && #[trigger] before[k]@ == p;
                    assert(out@[k]@ == before[k]@);
                } else {
                    assert(p[m as int] == i);
                    assert(!used) by {
                        if used {
                            let r = choose|r: int| 0 <= r < m && #[trigger] pre[r] == i;
                            assert(p[r] == pre[r]) by {
                                assert(p.take(m as int)[r] == p[r]);
                            }
                            assert(p[r] == p[m as int]);
                        }
                    }
                    assert(p.take(m + 1) =~= pre.push(i)) by {
                        assert(p.take(m as int) =~= p.take(m + 1).take(m as int));
                    }
                }
            }
        }
        i = i + 1;
    }
    assert forall|p: Seq<usize>| #[trigger] is_permutation(p, n as nat) && p.take(m as int) == pre
        implies exists|k: int| start.len() <= k < out@.len() && #[trigger] out@[k]@ == p by {
        assert(p[m as int] < n);
    }
}

/// Every permutation of `0..n`, each once.
fn index_permutations(n: usize) -> (r: Vec<Vec<usize>>)
    ensures
        forall|k: int| 0 <= k < r@.len() ==> is_permutation(#[trigger] r@[k]@, n as nat),
        forall|p: Seq<usize>| #[trigger] is_permutation(p, n as nat) ==> exists|k: int| 0 <= k < r@.len() && #[trigger] r@[k]@ == p,
{
    let mut prefix: Vec<usize> = Vec::new();
    let mut out: Vec<Vec<usize>> = Vec::new();
    permute_recursive(&mut prefix, n, &mut out);
    assert forall|p: Seq<usize>| #[trigger] is_permutation(p, n as nat) implies exists|k: int| 0 <= k < out@.len() && #[trigger] out@[k]@ == p by {
        assert(p.take(0) =~= Seq::<usize>::empty());
    }
    out
}

/// `items` rearranged by `p`: `items[p[0]], items[p[1]], ...`.
pub open spec fn arranged<T>(items: Seq<T>, p: Seq<usize>) -> Seq<T> {
    Seq::new(p.len(), |i: int| items[p[i] as int])
}

/// `s` is `items` rearranged by some permutation of their positions.
pub open spec fn is_arrangement<T>(items: Seq<T>, s: Seq<T>) -> bool {
    exists|p: Seq<usize>| #[trigger] is_permutation(p, items.len()) && s == arranged(items, p)
}

/// Every arrangement of `items`, one per permutation of their positions
/// (so `n!` arrangements of `n` items, repeated items giving repeated
/// arrangements).
pub fn permutations<T: Copy>(items: &[T]) -> (r: Vec<Vec<T>>)
    ensures
        forall|k: int| 0 <= k < r@.len() ==> #[trigger] is_arrangement(items@, r@[k]@),
        forall|p: Seq<usize>| #[trigger] is_permutation(p, items@.len()) ==> exists|k: int|
            0 <= k < r@.len() && r@[k]@ == arranged(items@, p),
{
    let perms = index_permutations(items.len());
    let mut r: Vec<Vec<T>> = Vec::new();
    let mut k: usize = 0;
    while k < perms.len()
        invariant
            k <= perms@.len(),
            r@.len() == k,
            forall|q: int| 0 <= q < perms@.len() ==> is_permutation(#[trigger] perms@[q]@, items@.len()),
            forall|q: int| 0 <= q < k ==> #[trigger] r@[q]@ == arranged(items@, perms@[q]@),
        decreases perms@.len() - k,
    {
        let p = &perms[k];
        assert(is_permutation(p@, items@.len()));
        let mut row: Vec<T> = Vec::new();
        let mut i: usize = 0;
        while i < p.len()
            invariant
                is_permutation(p@, items@.len()),
                i <= p@.len(),
                row@.len() == i,
                forall|j: int| 0 <= j < i ==> #[trigger] row@[j] == items@[p@[j] as int],
            decreases p@.len() - i,
        {
            row.push(items[p[i]]);
            i = i + 1;
        }
        assert(row@ =~= arranged(items@, p@));
        r.push(row);
        k = k + 1;
    }
    assert forall|q: int| 0 <= q < r@.len() implies #[trigger] is_arrangement(items@, r@[q]@) by {
        assert(is_permutation(perms@[q]@, items@.len()));
    }
    assert forall|p: Seq<usize>| #[trigger] is_permutation(p, items@.len()) implies exists|k: int|
        0 <= k < r@.len() && r@[k]@ == arranged(items@, p) by {
        let q = choose|q: int| 0 <= q < perms@.len() && #[trigger] perms@[q]@ == p;
        assert(r@[q]@ == arranged(items@, p));
    }
    r
}

/// The values `values[p[0]], values[p[1]], ...`.
fn pick(values: &Vec<Value>, p: &Vec<usize>) -> (r: Vec<Value>)
    requires
        forall|i: int| 0 <= i < p@.len() ==> #[trigger] p@[i] < values@.len(),
    ensures
        values_view(r@) == Seq::new(p@.len(), |i: int| values_view(values@)[p@[i] as int]),
{
    let mut r: Vec<Value> = Vec::new();
    let mut i: usize = 0;
    while i < p.len()
        invariant
            forall|j: int| 0 <= j < p@.len() ==> #[trigger] p@[j] < values@.len(),
            i <= p@.len(),
            r@.len() == i,
            forall|j: int| 0 <= j < i ==> #[trigger] r@[j]@ == values@[p@[j] as int]@,
        decreases p@.len() - i,
    {
        r.push(values[p[i]].duplicate());
        i = i + 1;
    }
    assert(values_view(r@) =~= Seq::new(p@.len(), |i: int| values_view(values@)[p@[i] as int]));
    r
}

/// The audience that totally orders `values` by `p`.
fn ordering(values: &Vec<Value>, p: &Vec<usize>) -> (r: Audience)
    requires
        forall|i: int| 0 <= i < p@.len() ==> #[trigger] p@[i] < values@.len(),
    ensures
        r.ranking() == total_ranking(values_view(values@), p@),
{
    let ranked = pick(values, p);
    let ghost rv = ranked@;
    assert(rv.len() == p@.len()) by {
        assert(values_view(rv).len() == rv.len());
    }
    let r = Audience::total(ranked);
    assert(r.ranking() =~= total_ranking(values_view(values@), p@)) by {
        assert forall|i: int| 0 <= i < p@.len() implies #[trigger] r.ranking()[i] == total_ranking(values_view(values@), p@)[i] by {
            assert(values_view(rv)[i] == rv[i]@);
        }
    }
    r
}

/// Whether some total ordering of the framework's values accepts `arg`
/// (in some preferred extension of the defeat graph). Fails when there
/// are more than six distinct values, or when the framework is too large
/// for preferred semantics.
pub fn subjectively_accepted(vaf: &ValueBasedFramework, arg: &str) -> (r: Result<bool, ValuesError>)
    requires
        vaf.wf(),
    ensures
        r is Err <==> vaf.distinct_values().len() > ENUMERATION_LIMIT || vaf.size() > crate::dung::ENUMERATION_LIMIT,
        r matches Err(e) ==> if vaf.distinct_values().len() > ENUMERATION_LIMIT {
            vaf.too_many_values(e)
        } else {
            vaf.too_large(e)
        },
        r matches Ok(b) ==> b == vaf.some_ordering_accepts(arg@),
{
    let values = vaf.value_assignment().distinct_in_order();
    let ghost vals = values_view(values@);
    if values.len() > ENUMERATION_LIMIT {
        return Err(ValuesError::AudienceTooLarge { values: values.len(), limit: ENUMERATION_LIMIT });
    }
    let perms = index_permutations(values.len());
    let ghost n = values@.len();
    proof {
        let id = lemma_identity_permutation(n);
        let k0 = choose|k: int| 0 <= k < perms@.len() && #[trigger] perms@[k]@ == id;
    }
    let mut k: usize = 0;
    while k < perms.len()
        invariant
            vaf.wf(),
            vals == values_view(values@),
            vals == vaf.distinct_values(),
            n == values@.len(),
            n == vals.len(),
            n <= ENUMERATION_LIMIT,
            perms@.len() > 0,
            k <= perms@.len(),
            forall|q: int| 0 <= q < perms@.len() ==> is_permutation(#[trigger] perms@[q]@, n),
            forall|p: Seq<usize>| #[trigger] is_permutation(p, n) ==> exists|q: int| 0 <= q < perms@.len() && #[trigger] perms@[q]@ == p,
            forall|q: int| 0 <= q < k ==> !vaf.credulous(total_ranking(vals, #[trigger] perms@[q]@), arg@),
            k > 0 ==> vaf.size() <= crate::dung::ENUMERATION_LIMIT,
        decreases perms@.len() - k,
    {
        let audience = ordering(&values, &perms[k]);
        match vaf.accepted_for(&audience, arg) {
            Err(e) => {
                return Err(e);
            },
            Ok(true) => {
                assert(is_permutation(perms@[k as int]@, n));
                return Ok(true);
            },
            Ok(false) => {},
        }
        k = k + 1;
    }
    assert(!vaf.some_ordering_accepts(arg@)) by {
        if vaf.some_ordering_accepts(arg@) {
            let p = choose|p: Seq<usize>| #[trigger] is_permutation(p, n) && vaf.credulous(total_ranking(vals, p), arg@);
            let q = choose|q: int| 0 <= q < perms@.len() && #[trigger] perms@[q]@ == p;
        }
    }
    Ok(false)
}

/// Whether every total ordering of the framework's values accepts `arg`.
/// Fails as [`subjectively_accepted`] does.
pub fn objectively_accepted(vaf: &ValueBasedFramework, arg: &str) -> (r: Result<bool, ValuesError>)
    requires
        vaf.wf(),
    ensures
        r is Err <==> vaf.distinct_values().len() > ENUMERATION_LIMIT || vaf.size() > crate::dung::ENUMERATION_LIMIT,
        r matches Err(e) ==> if vaf.distinct_values().len() > ENUMERATION_LIMIT {
            vaf.too_many_values(e)
        } else {
            vaf.too_large(e)
        },
        r matches Ok(b) ==> b == vaf.every_ordering_accepts(arg@),
{
    let values = vaf.value_assignment().distinct_in_order();
    let ghost vals = values_view(values@);
    if values.len() > ENUMERATION_LIMIT {
        return Err(ValuesError::AudienceTooLarge { values: values.len(), limit: ENUMERATION_LIMIT });
    }
    let perms = index_permutations(values.len());
    let ghost n = values@.len();
    proof {
        let id = lemma_identity_permutation(n);
        let k0 = choose|k: int| 0 <= k < perms@.len() && #[trigger] perms@[k]@ == id;
    }
    let mut k: usize = 0;
    while k < perms.len()
        invariant
            vaf.wf(),
            vals == values_view(values@),
            vals == vaf.distinct_values(),
            n == values@.len(),
            n == vals.len(),
            n <= ENUMERATION_LIMIT,
            perms@.len() > 0,
            k <= perms@.len(),
            forall|q: int| 0 <= q < perms@.len() ==> is_permutation(#[trigger] perms@[q]@, n),
            forall|p: Seq<usize>| #[trigger] is_permutation(p, n) ==> exists|q: int| 0 <= q < perms@.len() && #[trigger] perms@[q]@ == p,
            forall|q: int| 0 <= q < k ==> vaf.credulous(total_ranking(vals, #[trigger] perms@[q]@), arg@),
            k > 0 ==> vaf.size() <= crate::dung::ENUMERATION_LIMIT,
        decreases perms@.len() - k,
    {
        let audience = ordering(&values, &perms[k]);
        match vaf.accepted_for(&audience, arg) {
            Err(e) => {
                return Err(e);
            },
            Ok(false) => {
                assert(is_permutation(perms@[k as int]@, n));
                return Ok(false);
            },
            Ok(true) => {},
        }
        k = k + 1;
    }
    assert(vaf.every_ordering_accepts(arg@)) by {
        assert forall|p: Seq<usize>| #[trigger] is_permutation(p, n) implies vaf.credulous(total_ranking(vals, p), arg@) by {
            let q = choose|q: int| 0 <= q < perms@.len() && #[trigger] perms@[q]@ == p;
        }
    }
    Ok(true)
}

/// An argument accepted by every ordering of the values is accepted by
/// some ordering.
pub proof fn law_objective_implies_subjective(vaf: &ValueBasedFramework, a: Seq<char>)
    requires
        vaf.distinct_values().len() <= ENUMERATION_LIMIT,
        vaf.every_ordering_accepts(a),
    ensures
        vaf.some_ordering_accepts(a),
{
    let p = lemma_identity_permutation(vaf.distinct_values().len());
    assert(vaf.credulous(total_ranking(vaf.distinct_values(), p), a));
}

} // verus!
