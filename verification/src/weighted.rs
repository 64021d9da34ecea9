//! Weighted bipolar argumentation: attacks and supports carry weights,
//! and a budget lets an audience tolerate (drop) any set of edges whose
//! total weight stays within it. Acceptance at a budget quantifies over
//! the residual frameworks that such droppings leave.
//!
//! The edges of a framework are numbered, attacks first; the subsets of
//! `m` edges are numbered `0 .. 2^m`, subset `bits` dropping edge `i`
//! exactly when bit `i` of `bits` is set. Deciding which subsets the
//! budget affords compares sums of weights and is left to the caller;
//! this module enumerates the subsets, builds each residual framework and
//! decides acceptance over a family of residuals.

use vstd::prelude::*;
use crate::bipolar::framework::{BipolarFramework, pairs_view};
use crate::bipolar::semantics::bipolar_preferred_extensions;
use crate::bipolar::types::BipolarError;
use crate::dung::ENUMERATION_LIMIT;
use crate::strings::{find_name, lemma_select_contains, owned, strings_view};

verus! {

/// Largest number of edges whose subsets are enumerated.
pub const EDGE_ENUMERATION_LIMIT: usize = 24;

/// Errors of the weighted layer.
#[derive(Debug, Clone, PartialEq, Eq)]
pub enum WeightedError {
    /// Too many edges to enumerate the subsets of.
    TooManyEdges {
        /// Number of edges.
        edges: usize,
        /// Largest number enumerated.
        limit: usize,
    },
    /// A support from an argument to itself.
    IllegalSelfSupport,
    /// An error of the bipolar layer.
    Bipolar(BipolarError),
}

/// Which of `m` edges subset number `bits` drops.
pub open spec fn dropped_edges(bits: u64, m: nat) -> Seq<bool> {
    Seq::new(m, |i: int| (bits >> (i as u64)) & 1u64 == 1u64)
}

/// The number of subsets of `edges` edges, if they can be enumerated.
pub fn subset_count(edges: usize) -> (r: Result<u64, WeightedError>)
    ensures
        r is Err <==> edges > EDGE_ENUMERATION_LIMIT,
        r matches Err(e) ==> e == (WeightedError::TooManyEdges { edges, limit: EDGE_ENUMERATION_LIMIT }),
        r matches Ok(t) ==> t == 1u64 << (edges as u64),
{
    if edges > EDGE_ENUMERATION_LIMIT {
        return Err(WeightedError::TooManyEdges { edges, limit: EDGE_ENUMERATION_LIMIT });
    }
    let e = edges as u64;
    Ok(1u64 << e)
}

/// Which of `m` edges subset number `bits` drops.
pub fn dropped_mask(bits: u64, m: usize) -> (r: Vec<bool>)
    requires
        m <= 64,
    ensures
        r@ == dropped_edges(bits, m as nat),
{
    let mut out: Vec<bool> = Vec::new();
    let mut i: usize = 0;
    while i < m
        invariant
            i <= m <= 64,
            out@ == dropped_edges(bits, i as nat),
        decreases m - i,
    {
        let k = i as u64;
        out.push((bits >> k) & 1u64 == 1u64);
        assert(out@ =~= dropped_edges(bits, (i + 1) as nat));
        i = i + 1;
    }
    out
}

/// Edge `k` of `edges`, numbered from `offset` among all edges, is kept
/// and joins `x` to `y`.
pub open spec fn kept_edge(edges: Seq<(Seq<char>, Seq<char>)>, dropped: Seq<bool>, offset: int, x: Seq<char>, y: Seq<char>) -> bool {
    exists|k: int| 0 <= k < edges.len() && !dropped[offset + k] && #[trigger] edges[k] == (x, y)
}

/// `r` has the arguments `names`, and its attacks and supports are the
/// kept edges.
pub open spec fn residual_of(
    r: BipolarFramework,
    names: Seq<Seq<char>>,
    attacks: Seq<(Seq<char>, Seq<char>)>,
    supports: Seq<(Seq<char>, Seq<char>)>,
    dropped: Seq<bool>,
) -> bool {
    &&& r.wf()
    &&& r.arg_names() == names
    &&& forall|i: int, j: int| #[trigger] (r.attack_rel())(i, j) <==> 0 <= i < names.len() && 0 <= j < names.len()
        && kept_edge(attacks, dropped, 0, names[i], names[j])
    &&& forall|i: int, j: int| #[trigger] (r.support_rel())(i, j) <==> 0 <= i < names.len() && 0 <= j < names.len()
        && kept_edge(supports, dropped, attacks.len() as int, names[i], names[j])
}

/// Adding an edge between arguments already present keeps the names.
proof fn lemma_names_kept(before: BipolarFramework, after: BipolarFramework, a: Seq<char>, b: Seq<char>)
    requires
        before.wf(),
        after.wf(),
        before.arg_names().contains(a),
        before.arg_names().contains(b),
        forall|x: Seq<char>| #[trigger] after.arg_names().contains(x) <==> (before.arg_names().contains(x) || x == a || x == b),
        forall|i: int| 0 <= i < before.size() ==> #[trigger] after.arg_names()[i] == before.arg_names()[i],
    ensures
        after.arg_names() == before.arg_names(),
{
    before.lemma_wf();
    after.lemma_wf();
    let n0 = before.arg_names();
    let n1 = after.arg_names();
    if n1.len() > n0.len() {
        let x = n1[n0.len() as int];
        assert(n1.contains(x));
        let p = choose|p: int| 0 <= p < n0.len() && n0[p] == x;
        assert(n1[p] == x);
    }
    if n1.len() < n0.len() {
        let x = n0[n0.len() - 1];
        assert(n0.contains(x));
        assert(n1.contains(x));
        let q = choose|q: int| 0 <= q < n1.len() && n1[q] == x;
        assert(n1[q] == n0[q]);
    }
    assert(n1 =~= n0);
}

/// The framework left when the edges marked in `dropped` are tolerated:
/// every argument, the attacks not dropped and the supports not dropped
/// (edge `k` of the supports is edge `attacks.len() + k` of all edges).
pub fn residual_framework(
    args: &Vec<String>,
    attacks: &Vec<(String, String)>,
    supports: &Vec<(String, String)>,
    dropped: &Vec<bool>,
) -> (r: BipolarFramework)
    requires
        strings_view(args@).no_duplicates(),
        dropped@.len() == attacks@.len() + supports@.len(),
        forall|k: int| 0 <= k < attacks@.len() ==> strings_view(args@).contains(#[trigger] attacks@[k].0@)
            && strings_view(args@).contains(attacks@[k].1@),
        forall|k: int| 0 <= k < supports@.len() ==> strings_view(args@).contains(#[trigger] supports@[k].0@)
            && strings_view(args@).contains(supports@[k].1@) && supports@[k].0@ != supports@[k].1@,
    ensures
        residual_of(r, strings_view(args@), pairs_view(attacks@), pairs_view(supports@), dropped@),
{
    let ghost names = strings_view(args@);
    let ghost atts = pairs_view(attacks@);
    let ghost sups = pairs_view(supports@);
    let mut bf = BipolarFramework::new();
    proof {
        bf.lemma_wf();
    }
    let mut i: usize = 0;
    while i < args.len()
        invariant
            names == strings_view(args@),
            names.no_duplicates(),
            i <= args@.len(),
            bf.wf(),
            bf.arg_names() == names.take(i as int),
            forall|p: int, q: int| !#[trigger] (bf.attack_rel())(p, q),
            forall|p: int, q: int| !#[trigger] (bf.support_rel())(p, q),
        decreases args@.len() - i,
    {
        proof {
            if names.take(i as int).contains(names[i as int]) {
                let p = choose|p: int| 0 <= p < i && names.take(i as int)[p] == names[i as int];
                assert(names[p] == names[i as int]);
            }
        }
        bf.add_argument(args[i].as_str());
        assert(bf.arg_names() =~= names.take(i + 1));
        i = i + 1;
    }
    assert(names.take(args@.len() as int) =~= names);
    let mut k: usize = 0;
    while k < attacks.len()
        invariant
            names == strings_view(args@),
            atts == pairs_view(attacks@),
            dropped@.len() == attacks@.len() + supports@.len(),
            forall|k: int| 0 <= k < attacks@.len() ==> strings_view(args@).contains(#[trigger] attacks@[k].0@)
                && strings_view(args@).contains(attacks@[k].1@),
            k <= attacks@.len(),
            bf.wf(),
            bf.arg_names() == names,
            forall|p: int, q: int| #[trigger] (bf.attack_rel())(p, q) <==> 0 <= p < names.len() && 0 <= q < names.len()
                && kept_edge(atts.take(k as int), dropped@, 0, names[p], names[q]),
            forall|p: int, q: int| !#[trigger] (bf.support_rel())(p, q),
        decreases attacks@.len() - k,
    {
        let ghost before = bf;
        let ghost t = atts.take(k as int);
        let ghost t1 = atts.take(k + 1);
        if !dropped[k] {
            bf.add_attack(attacks[k].0.as_str(), attacks[k].1.as_str());
            proof {
                lemma_names_kept(before, bf, attacks@[k as int].0@, attacks@[k as int].1@);
            }
        }
        assert forall|p: int, q: int| #[trigger] (bf.attack_rel())(p, q) <==> 0 <= p < names.len() && 0 <= q < names.len()
            && kept_edge(t1, dropped@, 0, names[p], names[q]) by {
            let fresh = !dropped@[k as int] && atts[k as int] == (names[p], names[q]);
            assert(kept_edge(t1, dropped@, 0, names[p], names[q]) <==> (kept_edge(t, dropped@, 0, names[p], names[q]) || fresh)) by {
                if kept_edge(t1, dropped@, 0, names[p], names[q]) {
                    let w = choose|w: int| 0 <= w < t1.len() && !dropped@[0 + w] && #[trigger] t1[w] == (names[p], names[q]);
                    if w < k {
                        assert(t[w] == t1[w]);
                    }
                }
                if kept_edge(t, dropped@, 0, names[p], names[q]) {
                    let w = choose|w: int| 0 <= w < t.len() && !dropped@[0 + w] && #[trigger] t[w] == (names[p], names[q]);
                    assert(t1[w] == t[w]);
                }
                if fresh {
                    assert(t1[k as int] == atts[k as int]);
                }
            }
            if fresh {
                assert(names[p] == attacks@[k as int].0@ && names[q] == attacks@[k as int].1@);
            }
        }
        k = k + 1;
    }
    assert(atts.take(attacks@.len() as int) =~= atts);
    let m = attacks.len();
    let mut k: usize = 0;
    while k < supports.len()
        invariant
            names == strings_view(args@),
            atts == pairs_view(attacks@),
            sups == pairs_view(supports@),
            m == attacks@.len(),
            dropped@.len() == attacks@.len() + supports@.len(),
            forall|k: int| 0 <= k < supports@.len() ==> strings_view(args@).contains(#[trigger] supports@[k].0@)
                && strings_view(args@).contains(supports@[k].1@) && supports@[k].0@ != supports@[k].1@,
            k <= supports@.len(),
            bf.wf(),
            bf.arg_names() == names,
            forall|p: int, q: int| #[trigger] (bf.attack_rel())(p, q) <==> 0 <= p < names.len() && 0 <= q < names.len()
                && kept_edge(atts, dropped@, 0, names[p], names[q]),
            forall|p: int, q: int| #[trigger] (bf.support_rel())(p, q) <==> 0 <= p < names.len() && 0 <= q < names.len()
                && kept_edge(sups.take(k as int), dropped@, m as int, names[p], names[q]),
        decreases supports@.len() - k,
    {
        let ghost before = bf;
        let ghost t = sups.take(k as int);
        let ghost t1 = sups.take(k + 1);
        assert(m + k < dropped.len());
        if !dropped[m + k] {
            match bf.add_support(supports[k].0.as_str(), supports[k].1.as_str()) {
                Ok(()) => {
                    proof {
                        lemma_names_kept(before, bf, supports@[k as int].0@, supports@[k as int].1@);
                    }
                },
                Err(_) => {
                    assert(false);
                },
            }
        }
        assert forall|p: int, q: int| #[trigger] (bf.support_rel())(p, q) <==> 0 <= p < names.len() && 0 <= q < names.len()
            && kept_edge(t1, dropped@, m as int, names[p], names[q]) by {
            let fresh = !dropped@[m + k] && sups[k as int] == (names[p], names[q]);
            assert(kept_edge(t1, dropped@, m as int, names[p], names[q]) <==> (kept_edge(t, dropped@, m as int, names[p], names[q]) || fresh)) by {
                if kept_edge(t1, dropped@, m as int, names[p], names[q]) {
                    let w = choose|w: int| 0 <= w < t1.len() && !dropped@[m + w] && #[trigger] t1[w] == (names[p], names[q]);
                    if w < k {
                        assert(t[w] == t1[w]);
                    }
                }
                if kept_edge(t, dropped@, m as int, names[p], names[q]) {
                    let w = choose|w: int| 0 <= w < t.len() && !dropped@[m + w] && #[trigger] t[w] == (names[p], names[q]);
                    assert(t1[w] == t[w]);
                }
                if fresh {
                    assert(t1[k as int] == sups[k as int]);
                }
            }
            if fresh {
                assert(names[p] == supports@[k as int].0@ && names[q] == supports@[k as int].1@);
            }
        }
        k = k + 1;
    }
    assert(sups.take(supports@.len() as int) =~= sups);
    bf
}


// ---------------------------------------------------------------------
// Acceptance over residual frameworks
// ---------------------------------------------------------------------

/// `m` is a support-closed preferred extension of `bf`.
pub open spec fn closed_extension(bf: BipolarFramework, m: Seq<bool>) -> bool {
    (bf.closed_preferred())(m) && bf.support_closed(m)
}

/// `m` holds the argument named `t`.
pub open spec fn holds(bf: BipolarFramework, m: Seq<bool>, t: Seq<char>) -> bool {
    exists|i: int| 0 <= i < bf.size() && m[i] && #[trigger] bf.arg_names()[i] == t
}

/// Some support-closed preferred extension of `bf` holds `t`.
pub open spec fn credulous_in(bf: BipolarFramework, t: Seq<char>) -> bool {
    exists|m: Seq<bool>| #[trigger] closed_extension(bf, m) && holds(bf, m, t)
}

/// `bf` has a support-closed preferred extension, and each holds `t`.
pub open spec fn skeptical_in(bf: BipolarFramework, t: Seq<char>) -> bool {
    &&& exists|m: Seq<bool>| #[trigger] closed_extension(bf, m)
    &&& forall|m: Seq<bool>| #[trigger] closed_extension(bf, m) ==> holds(bf, m, t)
}

/// A residual that skeptically accepts an argument credulously accepts it.
pub proof fn law_skeptical_implies_credulous_residual(bf: BipolarFramework, t: Seq<char>)
    requires
        skeptical_in(bf, t),
    ensures
        credulous_in(bf, t),
{
    let m = choose|m: Seq<bool>| #[trigger] closed_extension(bf, m);
    assert(holds(bf, m, t));
}

/// Tolerating more never loses credulous acceptance: a family of
/// residuals that holds every residual of another, all enumerable,
/// credulously accepts whatever the other does.
pub proof fn law_credulous_monotone(rs1: Seq<BipolarFramework>, rs2: Seq<BipolarFramework>, t: Seq<char>)
    requires
        forall|k: int| 0 <= k < rs1.len() ==> rs2.contains(#[trigger] rs1[k]),
        forall|j: int| 0 <= j < rs2.len() ==> small(#[trigger] rs2[j]),
        credulous_found(rs1, t),
    ensures
        credulous_found(rs2, t),
{
    let k = choose|k: int| 0 <= k < rs1.len() && #[trigger] credulous_in(rs1[k], t) && small(rs1[k])
        && forall|j: int| 0 <= j < k ==> small(#[trigger] rs1[j]);
    assert(rs2.contains(rs1[k]));
    let q = choose|q: int| 0 <= q < rs2.len() && rs2[q] == rs1[k];
    assert(credulous_in(rs2[q], t) && small(rs2[q]));
}

/// Tolerating more never gains skeptical acceptance: if every residual
/// of a family, all enumerable, skeptically accepts an argument, so does
/// every residual of a family it holds.
pub proof fn law_skeptical_antitone(rs1: Seq<BipolarFramework>, rs2: Seq<BipolarFramework>, t: Seq<char>)
    requires
        forall|k: int| 0 <= k < rs1.len() ==> rs2.contains(#[trigger] rs1[k]),
        forall|j: int| 0 <= j < rs2.len() ==> small(#[trigger] rs2[j]) && skeptical_in(rs2[j], t),
    ensures
        forall|k: int| 0 <= k < rs1.len() ==> small(#[trigger] rs1[k]) && skeptical_in(rs1[k], t),
{
    assert forall|k: int| 0 <= k < rs1.len() implies small(#[trigger] rs1[k]) && skeptical_in(rs1[k], t) by {
        assert(rs2.contains(rs1[k]));
        let q = choose|q: int| 0 <= q < rs2.len() && rs2[q] == rs1[k];
        assert(small(rs2[q]) && skeptical_in(rs2[q], t));
    }
}

/// Over a nonempty family of enumerable residuals, skeptical acceptance
/// implies credulous acceptance.
pub proof fn law_skeptical_implies_credulous_family(rs: Seq<BipolarFramework>, t: Seq<char>)
    requires
        rs.len() > 0,
        forall|j: int| 0 <= j < rs.len() ==> small(#[trigger] rs[j]) && skeptical_in(rs[j], t),
    ensures
        credulous_found(rs, t),
{
    assert(small(rs[0]) && skeptical_in(rs[0], t));
    law_skeptical_implies_credulous_residual(rs[0], t);
    assert(credulous_in(rs[0], t) && small(rs[0]) && forall|j: int| 0 <= j < 0 ==> small(#[trigger] rs[j]));
}

/// The extensions of `bf` can be enumerated.
pub open spec fn small(bf: BipolarFramework) -> bool {
    bf.size() <= ENUMERATION_LIMIT
}

/// A listed extension holds `t` exactly when its mask does.
proof fn lemma_listed_holds(bf: BipolarFramework, exts: Seq<Vec<String>>, k: int, t: Seq<char>)
    requires
        bf.wf(),
        bf.lists_closed(exts, bf.closed_preferred()),
        0 <= k < exts.len(),
    ensures
        closed_extension(bf, bf.mask_of(exts[k]@)),
        strings_view(exts[k]@).contains(t) <==> holds(bf, bf.mask_of(exts[k]@), t),
{
    let m = bf.mask_of(exts[k]@);
    assert((bf.closed_preferred())(m));
    assert(bf.support_closed(m));
    assert(names_match_of(bf, exts[k], m));
    lemma_select_contains(bf.arg_names(), m, t);
}

/// `v` names exactly the arguments of `m`.
spec fn names_match_of(bf: BipolarFramework, v: Vec<String>, m: Seq<bool>) -> bool {
    strings_view(v@) == bf.named(m)
}

/// Every support-closed preferred extension is listed.
proof fn lemma_extension_listed(bf: BipolarFramework, exts: Seq<Vec<String>>, m: Seq<bool>, t: Seq<char>)
    requires
        bf.wf(),
        bf.lists_closed(exts, bf.closed_preferred()),
        closed_extension(bf, m),
    ensures
        exists|k: int| 0 <= k < exts.len() && (strings_view(exts[k]@).contains(t) <==> #[trigger] holds(bf, m, t)),
{
    assert((bf.closed_preferred())(m));
    let k = choose|k: int| 0 <= k < exts.len() && #[trigger] crate::strings::names_match(exts[k]@, bf.named(m));
    assert(m.len() == bf.size()) by {
        reveal(crate::dung::preferred);
    }
    lemma_select_contains(bf.arg_names(), m, t);
}

/// Whether some listed extension names `t`.
fn some_names(exts: &Vec<Vec<String>>, t: &str) -> (r: Option<usize>)
    ensures
        match r {
            Some(k) => k < exts@.len() && strings_view(exts@[k as int]@).contains(t@),
            None => forall|k: int| 0 <= k < exts@.len() ==> !strings_view(#[trigger] exts@[k]@).contains(t@),
        },
{
    let key = owned(t);
    let mut k: usize = 0;
    while k < exts.len()
        invariant
            key@ == t@,
            k <= exts@.len(),
            forall|q: int| 0 <= q < k ==> !strings_view(#[trigger] exts@[q]@).contains(t@),
        decreases exts@.len() - k,
    {
        match find_name(&exts[k], &key) {
            Some(i) => {
                assert(strings_view(exts@[k as int]@)[i as int] == t@);
                return Some(k);
            },
            None => {},
        }
        k = k + 1;
    }
    None
}

/// Whether every listed extension names `t`.
fn all_name(exts: &Vec<Vec<String>>, t: &str) -> (r: bool)
    ensures
        r == forall|k: int| 0 <= k < exts@.len() ==> strings_view(#[trigger] exts@[k]@).contains(t@),
{
    let key = owned(t);
    let mut k: usize = 0;
    while k < exts.len()
        invariant
            key@ == t@,
            k <= exts@.len(),
            forall|q: int| 0 <= q < k ==> strings_view(#[trigger] exts@[q]@).contains(t@),
        decreases exts@.len() - k,
    {
        match find_name(&exts[k], &key) {
            Some(i) => {
                assert(strings_view(exts@[k as int]@)[i as int] == t@);
            },
            None => {
                return false;
            },
        }
        k = k + 1;
    }
    true
}

/// A residual that is enumerable credulously accepts `t` and every one
/// before it is enumerable.
pub open spec fn credulous_found(rs: Seq<BipolarFramework>, t: Seq<char>) -> bool {
    exists|k: int| 0 <= k < rs.len() && #[trigger] credulous_in(rs[k], t) && small(rs[k])
        && forall|j: int| 0 <= j < k ==> small(#[trigger] rs[j])
}

/// The first residual that is too large comes before any that
/// credulously accepts `t`.
pub open spec fn credulous_blocked(rs: Seq<BipolarFramework>, t: Seq<char>, e: WeightedError) -> bool {
    exists|k: int| 0 <= k < rs.len() && !small(#[trigger] rs[k])
        && e == WeightedError::Bipolar(BipolarError::Dung(crate::dung::DungError::TooLarge {
            arguments: rs[k].size() as usize, limit: ENUMERATION_LIMIT }))
        && forall|j: int| 0 <= j < k ==> small(#[trigger] rs[j]) && !credulous_in(rs[j], t)
}

/// Whether some residual framework credulously accepts `target`, checking
/// the residuals in order and stopping at the first that does, or at the
/// first too large to enumerate (an error).
pub fn credulous_in_some(residuals: &Vec<BipolarFramework>, target: &str) -> (r: Result<bool, WeightedError>)
    requires
        forall|k: int| 0 <= k < residuals@.len() ==> (#[trigger] residuals@[k]).wf(),
    ensures
        (r == Ok::<bool, WeightedError>(true)) == credulous_found(residuals@, target@),
        r matches Err(e) ==> credulous_blocked(residuals@, target@, e),
        r == Ok::<bool, WeightedError>(false) ==> forall|k: int| 0 <= k < residuals@.len()
            ==> small(#[trigger] residuals@[k]) && !credulous_in(residuals@[k], target@),
{
    let ghost rs = residuals@;
    let mut k: usize = 0;
    while k < residuals.len()
        invariant
            rs == residuals@,
            forall|q: int| 0 <= q < rs.len() ==> (#[trigger] rs[q]).wf(),
            k <= rs.len(),
            forall|j: int| 0 <= j < k ==> small(#[trigger] rs[j]) && !credulous_in(rs[j], target@),
        decreases rs.len() - k,
    {
        let bf = &residuals[k];
        let exts = match bipolar_preferred_extensions(bf) {
            Ok(x) => x,
            Err(e) => {
                proof {
                    if credulous_found(rs, target@) {
                        let q = choose|q: int| 0 <= q < rs.len() && #[trigger] credulous_in(rs[q], target@) && small(rs[q])
                            && forall|j: int| 0 <= j < q ==> small(#[trigger] rs[j]);
                        if q < k {
                        } else if q > k {
                            assert(small(rs[k as int]));
                        }
                    }
                    assert(!small(rs[k as int]));
                }
                return Err(WeightedError::Bipolar(e));
            },
        };
        match some_names(&exts, target) {
            Some(q) => {
                proof {
                    lemma_listed_holds(*bf, exts@, q as int, target@);
                    assert(credulous_in(rs[k as int], target@));
                }
                return Ok(true);
            },
            None => {
                proof {
                    if credulous_in(rs[k as int], target@) {
                        let m = choose|m: Seq<bool>| #[trigger] closed_extension(rs[k as int], m) && holds(rs[k as int], m, target@);
                        lemma_extension_listed(*bf, exts@, m, target@);
                    }
                }
            },
        }
        k = k + 1;
    }
    proof {
        if credulous_found(rs, target@) {
            let q = choose|q: int| 0 <= q < rs.len() && #[trigger] credulous_in(rs[q], target@) && small(rs[q])
                && forall|j: int| 0 <= j < q ==> small(#[trigger] rs[j]);
            assert(!credulous_in(rs[q], target@));
        }
    }
    Ok(false)
}

/// A residual that is enumerable does not skeptically accept `t`, and
/// every one before it is enumerable and does.
pub open spec fn skeptical_refuted(rs: Seq<BipolarFramework>, t: Seq<char>) -> bool {
    exists|k: int| 0 <= k < rs.len() && !#[trigger] skeptical_in(rs[k], t) && small(rs[k])
        && forall|j: int| 0 <= j < k ==> small(#[trigger] rs[j]) && skeptical_in(rs[j], t)
}

/// The first residual that is too large comes before any that does not
/// skeptically accept `t`.
pub open spec fn skeptical_blocked(rs: Seq<BipolarFramework>, t: Seq<char>, e: WeightedError) -> bool {
    exists|k: int| 0 <= k < rs.len() && !small(#[trigger] rs[k])
        && e == WeightedError::Bipolar(BipolarError::Dung(crate::dung::DungError::TooLarge {
            arguments: rs[k].size() as usize, limit: ENUMERATION_LIMIT }))
        && forall|j: int| 0 <= j < k ==> small(#[trigger] rs[j]) && skeptical_in(rs[j], t)
}

/// Whether every residual framework skeptically accepts `target`: each
/// has a support-closed preferred extension and all of them hold it.
/// The residuals are checked in order; the first that refutes it, or
/// that is too large to enumerate (an error), ends the check.
pub fn skeptical_in_all(residuals: &Vec<BipolarFramework>, target: &str) -> (r: Result<bool, WeightedError>)
    requires
        forall|k: int| 0 <= k < residuals@.len() ==> (#[trigger] residuals@[k]).wf(),
    ensures
        (r == Ok::<bool, WeightedError>(false)) == skeptical_refuted(residuals@, target@),
        r matches Err(e) ==> skeptical_blocked(residuals@, target@, e),
        r == Ok::<bool, WeightedError>(true) ==> forall|k: int| 0 <= k < residuals@.len()
            ==> small(#[trigger] residuals@[k]) && skeptical_in(residuals@[k], target@),
{
    let ghost rs = residuals@;
    let mut k: usize = 0;
    while k < residuals.len()
        invariant
            rs == residuals@,
            forall|q: int| 0 <= q < rs.len() ==> (#[trigger] rs[q]).wf(),
            k <= rs.len(),
            forall|j: int| 0 <= j < k ==> small(#[trigger] rs[j]) && skeptical_in(rs[j], target@),
        decreases rs.len() - k,
    {
        let bf = &residuals[k];
        let exts = match bipolar_preferred_extensions(bf) {
            Ok(x) => x,
            Err(e) => {
                proof {
                    if skeptical_refuted(rs, target@) {
                        let q = choose|q: int| 0 <= q < rs.len() && !#[trigger] skeptical_in(rs[q], target@) && small(rs[q])
                            && forall|j: int| 0 <= j < q ==> small(#[trigger] rs[j]) && skeptical_in(rs[j], target@);
                        if q > k {
                            assert(small(rs[k as int]));
                        }
                    }
                    assert(!small(rs[k as int]));
                }
                return Err(WeightedError::Bipolar(e));
            },
        };
        let ghost b = rs[k as int];
        let ok = exts.len() > 0 && all_name(&exts, target);
        proof {
            if exts@.len() > 0 {
                lemma_listed_holds(b, exts@, 0, target@);
            } else {
                if exists|m: Seq<bool>| #[trigger] closed_extension(b, m) {
                    let m = choose|m: Seq<bool>| #[trigger] closed_extension(b, m);
                    lemma_extension_listed(b, exts@, m, target@);
                }
            }
            if ok {
                assert forall|m: Seq<bool>| #[trigger] closed_extension(b, m) implies holds(b, m, target@) by {
                    lemma_extension_listed(b, exts@, m, target@);
                }
            } else if exts@.len() > 0 {
                let q = choose|q: int| 0 <= q < exts@.len() && !strings_view(#[trigger] exts@[q]@).contains(target@);
                lemma_listed_holds(b, exts@, q, target@);
            }
            assert(ok == skeptical_in(b, target@));
        }
        if !ok {
            return Ok(false);
        }
        k = k + 1;
    }
    proof {
        if skeptical_refuted(rs, target@) {
            let q = choose|q: int| 0 <= q < rs.len() && !#[trigger] skeptical_in(rs[q], target@) && small(rs[q])
                && forall|j: int| 0 <= j < q ==> small(#[trigger] rs[j]) && skeptical_in(rs[j], target@);
            assert(skeptical_in(rs[q], target@));
        }
    }
    Ok(true)
}
/// `args` with `a` added at the end, unless it is already there.
pub open spec fn with_arg(args: Seq<Seq<char>>, a: Seq<char>) -> Seq<Seq<char>> {
    if args.contains(a) { args } else { args.push(a) }
}

/// Whether `supporter` may support `supported`: an argument cannot be
/// its own necessary supporter.
pub fn check_support(supporter: &str, supported: &str) -> (r: Result<(), WeightedError>)
    ensures
        r is Err <==> supporter@ == supported@,
        r matches Err(e) ==> e == WeightedError::IllegalSelfSupport,
{
    let a = owned(supporter);
    let b = owned(supported);
    if a == b {
        Err(WeightedError::IllegalSelfSupport)
    } else {
        Ok(())
    }
}

/// The arguments, attacks and supports of a weighted bipolar framework,
/// without the weights, which the caller keeps beside it in the same
/// order. Edges are numbered in order of addition, attacks first.
#[derive(Debug, Clone)]
pub struct WeightedEdges {
    arguments: Vec<String>,
    attacks: Vec<(String, String)>,
    supports: Vec<(String, String)>,
}

impl WeightedEdges {
    /// The arguments, each once, in order of addition.
    pub closed spec fn args(&self) -> Seq<Seq<char>> {
        strings_view(self.arguments@)
    }

    /// The attacks, in order of addition.
    pub closed spec fn attack_pairs(&self) -> Seq<(Seq<char>, Seq<char>)> {
        pairs_view(self.attacks@)
    }

    /// The supports, in order of addition.
    pub closed spec fn support_pairs(&self) -> Seq<(Seq<char>, Seq<char>)> {
        pairs_view(self.supports@)
    }

    /// Number of edges.
    pub open spec fn edge_total(&self) -> nat {
        self.attack_pairs().len() + self.support_pairs().len()
    }

    /// Arguments are distinct, every edge joins two of them, no argument
    /// supports itself, and the edges can be counted in a `usize`.
    pub closed spec fn wf(&self) -> bool {
        &&& self.args().no_duplicates()
        &&& forall|k: int| 0 <= k < self.attacks@.len() ==> self.args().contains(#[trigger] self.attacks@[k].0@)
            && self.args().contains(self.attacks@[k].1@)
        &&& forall|k: int| 0 <= k < self.supports@.len() ==> self.args().contains(#[trigger] self.supports@[k].0@)
            && self.args().contains(self.supports@[k].1@) && self.supports@[k].0@ != self.supports@[k].1@
        &&& self.attacks@.len() + self.supports@.len() <= usize::MAX
    }

    /// No arguments and no edges.
    pub fn new() -> (r: Self)
        ensures
            r.wf(),
            r.args() == Seq::<Seq<char>>::empty(),
            r.attack_pairs() == Seq::<(Seq<char>, Seq<char>)>::empty(),
            r.support_pairs() == Seq::<(Seq<char>, Seq<char>)>::empty(),
    {
        let r = WeightedEdges { arguments: Vec::new(), attacks: Vec::new(), supports: Vec::new() };
        assert(r.args() =~= Seq::<Seq<char>>::empty());
        assert(r.attack_pairs() =~= Seq::<(Seq<char>, Seq<char>)>::empty());
        assert(r.support_pairs() =~= Seq::<(Seq<char>, Seq<char>)>::empty());
        r
    }

    /// Add an argument; adding one already present changes nothing.
    pub fn add_argument(&mut self, a: &str)
        requires
            old(self).wf(),
        ensures
            final(self).wf(),
            final(self).args() == with_arg(old(self).args(), a@),
            final(self).args().contains(a@),
            forall|x: Seq<char>| old(self).args().contains(x) ==> #[trigger] final(self).args().contains(x),
            final(self).attack_pairs() == old(self).attack_pairs(),
            final(self).support_pairs() == old(self).support_pairs(),
    {
        let x = owned(a);
        let ghost before = self.args();
        match find_name(&self.arguments, &x) {
            Some(i) => {
                assert(before[i as int] == a@);
            },
            None => {
                self.arguments.push(x);
                assert(self.args() =~= before.push(a@));
                assert(self.args()[before.len() as int] == a@);
                assert forall|y: Seq<char>| before.contains(y) implies #[trigger] self.args().contains(y) by {
                    let p = choose|p: int| 0 <= p < before.len() && before[p] == y;
                    assert(self.args()[p] == y);
                }
            },
        }
    }

    /// Add an attack, and its endpoints.
    pub fn add_attack(&mut self, attacker: &str, target: &str)
        requires
            old(self).wf(),
            old(self).edge_total() < usize::MAX,
        ensures
            final(self).wf(),
            final(self).args() == with_arg(with_arg(old(self).args(), attacker@), target@),
            final(self).attack_pairs() == old(self).attack_pairs().push((attacker@, target@)),
            final(self).support_pairs() == old(self).support_pairs(),
    {
        self.add_argument(attacker);
        self.add_argument(target);
        let ghost before = self.attacks@;
        self.attacks.push((owned(attacker), owned(target)));
        assert(self.attack_pairs() =~= pairs_view(before).push((attacker@, target@)));
        assert(self.args().contains(attacker@));
        assert forall|k: int| 0 <= k < self.attacks@.len() implies self.args().contains(#[trigger] self.attacks@[k].0@)
            && self.args().contains(self.attacks@[k].1@) by {
            if k < before.len() {
                assert(self.attacks@[k] == before[k]);
            }
        }
    }

    /// Add a support, and its endpoints, unless it is a self-support;
    /// then nothing changes.
    pub fn add_support(&mut self, supporter: &str, supported: &str) -> (r: Result<(), WeightedError>)
        requires
            old(self).wf(),
            old(self).edge_total() < usize::MAX,
        ensures
            final(self).wf(),
            r is Err <==> supporter@ == supported@,
            r matches Err(e) ==> e == WeightedError::IllegalSelfSupport,
            r is Err ==> final(self).args() == old(self).args() && final(self).attack_pairs() == old(self).attack_pairs()
                && final(self).support_pairs() == old(self).support_pairs(),
            r is Ok ==> final(self).args() == with_arg(with_arg(old(self).args(), supporter@), supported@),
            r is Ok ==> final(self).support_pairs() == old(self).support_pairs().push((supporter@, supported@)),
            final(self).attack_pairs() == old(self).attack_pairs(),
    {
        check_support(supporter, supported)?;
        self.add_argument(supporter);
        self.add_argument(supported);
        let ghost before = self.supports@;
        self.supports.push((owned(supporter), owned(supported)));
        assert(self.support_pairs() =~= pairs_view(before).push((supporter@, supported@)));
        assert forall|k: int| 0 <= k < self.supports@.len() implies self.args().contains(#[trigger] self.supports@[k].0@)
            && self.args().contains(self.supports@[k].1@) && self.supports@[k].0@ != self.supports@[k].1@ by {
            if k < before.len() {
                assert(self.supports@[k] == before[k]);
            }
        }
        Ok(())
    }

    /// The arguments, in order of addition.
    pub fn arguments(&self) -> (r: &Vec<String>)
        ensures
            strings_view(r@) == self.args(),
    {
        &self.arguments
    }

    /// The attacks, in order of addition.
    pub fn attacks(&self) -> (r: &Vec<(String, String)>)
        ensures
            pairs_view(r@) == self.attack_pairs(),
    {
        &self.attacks
    }

    /// The supports, in order of addition.
    pub fn supports(&self) -> (r: &Vec<(String, String)>)
        ensures
            pairs_view(r@) == self.support_pairs(),
    {
        &self.supports
    }

    /// Number of edges.
    pub fn edge_count(&self) -> (r: usize)
        requires
            self.wf(),
        ensures
            r == self.edge_total(),
    {
        self.attacks.len() + self.supports.len()
    }

    /// Number of arguments.
    pub fn argument_count(&self) -> (r: usize)
        ensures
            r == self.args().len(),
    {
        self.arguments.len()
    }

    /// The framework left when the edges marked in `dropped` are
    /// tolerated (edge `k` of the supports is edge `attacks + k`).
    pub fn residual(&self, dropped: &Vec<bool>) -> (r: BipolarFramework)
        requires
            self.wf(),
            dropped@.len() == self.edge_total(),
        ensures
            residual_of(r, self.args(), self.attack_pairs(), self.support_pairs(), dropped@),
    {
        residual_framework(&self.arguments, &self.attacks, &self.supports, dropped)
    }
}

} // verus!
