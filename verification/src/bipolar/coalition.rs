//! Coalitions: the strongly connected components of the support graph.
//!
//! Arguments that support one another, directly or through others, form
//! one coalition; an argument in no such cycle is a coalition of its own.
//! The components are found by petgraph's Tarjan implementation.

use vstd::prelude::*;
use vstd::set_lib::{set_int_range, lemma_int_range, lemma_len_subset};
use petgraph::algo::tarjan_scc;
use petgraph::graph::{DiGraph, NodeIndex};
use crate::bipolar::framework::BipolarFramework;
use crate::bipolar::derived::reach_star;
use crate::bipolar::types::CoalitionId;
use crate::strings::{strings_view, names_match};

verus! {

/// A detected coalition.
#[derive(Debug, Clone)]
pub struct Coalition {
    /// Identifier, stable only within one detection call.
    pub id: CoalitionId,
    /// The member arguments; a singleton coalition has one member.
    pub members: Vec<String>,
}

/// The relation whose pairs are the listed edges.
pub open spec fn edge_rel(edges: Seq<(usize, usize)>) -> spec_fn(int, int) -> bool {
    |i: int, j: int| exists|k: int| 0 <= k < edges.len() && edges[k].0 == i && #[trigger] edges[k].1 == j
}

/// Number of `j` in `0..j_end` with `rel(i, j)`.
pub open spec fn row_count(rel: spec_fn(int, int) -> bool, i: int, j_end: int) -> nat
    decreases j_end,
{
    if j_end <= 0 {
        0
    } else {
        row_count(rel, i, j_end - 1) + if rel(i, j_end - 1) { 1nat } else { 0nat }
    }
}

/// Number of pairs `(i, j)` of `rel` with `i` in `0..i_end` and `j` in `0..n`.
pub open spec fn pair_count(rel: spec_fn(int, int) -> bool, n: int, i_end: int) -> nat
    decreases i_end,
{
    if i_end <= 0 {
        0
    } else {
        pair_count(rel, n, i_end - 1) + row_count(rel, i_end - 1, n)
    }
}

/// The node lists of `comps`.
pub open spec fn comps_view(comps: Seq<Vec<usize>>) -> Seq<Seq<usize>> {
    comps.map_values(|c: Vec<usize>| c@)
}

/// Node `v` is listed in `c`.
pub open spec fn in_component(c: Seq<usize>, v: int) -> bool {
    exists|p: int| 0 <= p < c.len() && c[p] as int == v
}

/// Node `v` is listed in some component of `comps`.
pub open spec fn covered(comps: Seq<Seq<usize>>, v: int) -> bool {
    exists|c: int| 0 <= c < comps.len() && #[trigger] in_component(comps[c], v)
}

/// `i` and `j` reach each other through `rel`.
pub open spec fn mutually_reach(rel: spec_fn(int, int) -> bool, i: int, j: int) -> bool {
    reach_star(rel, i, j) && reach_star(rel, j, i)
}

/// `comps` lists the strongly connected components of `rel` over the
/// nodes `0..n`: non-empty, duplicate-free lists that partition the
/// nodes, two nodes sharing a list exactly when they reach each other.
pub open spec fn scc_partition(n: nat, rel: spec_fn(int, int) -> bool, comps: Seq<Seq<usize>>) -> bool {
    &&& forall|c: int| 0 <= c < comps.len() ==> #[trigger] comps[c].len() > 0 && comps[c].no_duplicates()
    &&& forall|c: int, p: int| 0 <= c < comps.len() && 0 <= p < comps[c].len() ==> #[trigger] comps[c][p] < n
    &&& forall|v: int| 0 <= v < n ==> #[trigger] covered(comps, v)
    &&& forall|c1: int, c2: int, v: int|
        0 <= c1 < comps.len() && 0 <= c2 < comps.len() && #[trigger] in_component(comps[c1], v)
            && #[trigger] in_component(comps[c2], v) ==> c1 == c2
    &&& forall|c: int, u: int, v: int|
        0 <= c < comps.len() && #[trigger] in_component(comps[c], u) ==> (#[trigger] in_component(comps[c], v)
            <==> 0 <= v < n && mutually_reach(rel, u, v))
}

/// The lists of `comps` come in reverse topological order of `rel`: a
/// list never has an edge to a later one.
pub open spec fn reverse_topological(rel: spec_fn(int, int) -> bool, comps: Seq<Seq<usize>>) -> bool {
    forall|c1: int, c2: int, u: int, v: int|
        0 <= c1 < comps.len() && 0 <= c2 < comps.len() && #[trigger] in_component(comps[c1], u)
            && #[trigger] in_component(comps[c2], v) && rel(u, v) ==> c2 <= c1
}

/// Runs `petgraph::algo::tarjan_scc` on the directed graph with nodes
/// `0..n` and the given edges, and returns each component as node
/// numbers. The contract claims what petgraph documents: the result is
/// the list of strongly connected components, in reverse topological
/// order (the order of the nodes inside each is left open). Node and edge counts stay
/// below petgraph's `u32` index limit, past which `add_node` and
/// `add_edge` panic. Left unsaid: `tarjan_scc` recurses along each
/// path, so a very long support chain is bounded only by the stack.
#[verifier::external_body]
fn strongly_connected(n: usize, edges: &Vec<(usize, usize)>) -> (r: Vec<Vec<usize>>)
    requires
        n < u32::MAX,
        edges@.len() < u32::MAX,
        forall|k: int| 0 <= k < edges@.len() ==> #[trigger] edges@[k].0 < n && edges@[k].1 < n,
    ensures
        scc_partition(n as nat, edge_rel(edges@), comps_view(r@)),
        reverse_topological(edge_rel(edges@), comps_view(r@)),
{
    let mut graph: DiGraph<(), ()> = DiGraph::with_capacity(n, edges.len());
    for _ in 0..n {
        graph.add_node(());
    }
    for &(a, b) in edges.iter() {
        graph.add_edge(NodeIndex::new(a), NodeIndex::new(b), ());
    }
    tarjan_scc(&graph).into_iter().map(|c| c.into_iter().map(|x| x.index()).collect()).collect()
}

/// A partition of `0..n` into non-empty parts has at most `n` parts.
proof fn lemma_parts_bounded(n: nat, rel: spec_fn(int, int) -> bool, comps: Seq<Seq<usize>>)
    requires
        scc_partition(n, rel, comps),
    ensures
        comps.len() <= n,
{
    let firsts = Seq::new(comps.len(), |c: int| comps[c][0] as int);
    assert(firsts.no_duplicates()) by {
        assert forall|a: int, b: int| 0 <= a < firsts.len() && 0 <= b < firsts.len() && a != b
            implies firsts[a] != firsts[b] by {
            if firsts[a] == firsts[b] {
                assert(comps[a].len() > 0 && comps[b].len() > 0);
                assert(in_component(comps[a], firsts[a]));
                assert(in_component(comps[b], firsts[a]));
            }
        }
    }
    firsts.unique_seq_to_set();
    lemma_int_range(0, n as int);
    assert(firsts.to_set().subset_of(set_int_range(0, n as int))) by {
        assert forall|v: int| #[trigger] firsts.to_set().contains(v) implies set_int_range(0, n as int).contains(v) by {
            let c = choose|c: int| 0 <= c < firsts.len() && firsts[c] == v;
            assert(comps[c].len() > 0);
            assert(comps[c][0] < n);
        }
    }
    lemma_len_subset(firsts.to_set(), set_int_range(0, n as int));
}

/// The direct support edges of `framework` as position pairs.
fn support_edges(framework: &BipolarFramework) -> (r: Vec<(usize, usize)>)
    requires
        framework.wf(),
    ensures
        forall|k: int| 0 <= k < r@.len() ==> #[trigger] r@[k].0 < framework.size() && r@[k].1 < framework.size(),
        edge_rel(r@) == framework.support_rel(),
        r@.len() == framework.support_count(),
{
    let n = framework.len();
    let ghost sup = framework.support_rel();
    proof {
        framework.lemma_wf();
    }
    let mut edges: Vec<(usize, usize)> = Vec::new();
    let mut i: usize = 0;
    while i < n
        invariant
            framework.wf(),
            n == framework.size(),
            sup == framework.support_rel(),
            i <= n,
            forall|x: int, y: int| #[trigger] sup(x, y) ==> 0 <= x < n && 0 <= y < n,
            forall|k: int| 0 <= k < edges@.len() ==> #[trigger] edges@[k].0 < n && edges@[k].1 < n,
            forall|x: int, y: int| #![trigger (edge_rel(edges@))(x, y)] #![trigger sup(x, y)]
                (edge_rel(edges@))(x, y) <==> (0 <= x < i && sup(x, y)),
            edges@.len() == pair_count(sup, n as int, i as int),
        decreases n - i,
    {
        let mut j: usize = 0;
        while j < n
            invariant
                framework.wf(),
                n == framework.size(),
                sup == framework.support_rel(),
                i < n,
                j <= n,
                forall|x: int, y: int| #[trigger] sup(x, y) ==> 0 <= x < n && 0 <= y < n,
                forall|k: int| 0 <= k < edges@.len() ==> #[trigger] edges@[k].0 < n && edges@[k].1 < n,
                forall|x: int, y: int| #![trigger (edge_rel(edges@))(x, y)] #![trigger sup(x, y)]
                    (edge_rel(edges@))(x, y) <==> ((0 <= x < i || (x == i && 0 <= y < j)) && sup(x, y)),
                edges@.len() == pair_count(sup, n as int, i as int) + row_count(sup, i as int, j as int),
            decreases n - j,
        {
            let ghost old_edges = edges@;
            if framework.supports_at(i, j) {
                edges.push((i, j));
                assert forall|x: int, y: int| #![trigger (edge_rel(edges@))(x, y)] #![trigger sup(x, y)]
                    (edge_rel(edges@))(x, y) <==> ((0 <= x < i || (x == i && 0 <= y < j + 1)) && sup(x, y)) by {
                    if (edge_rel(old_edges))(x, y) {
                        let k = choose|k: int| 0 <= k < old_edges.len() && old_edges[k].0 == x && #[trigger] old_edges[k].1 == y;
                        assert(edges@[k] == old_edges[k]);
                        assert(edges@[k].0 == x && edges@[k].1 == y);
                    }
                    if (edge_rel(edges@))(x, y) && !(x == i && y == j) {
                        let k = choose|k: int| 0 <= k < edges@.len() && edges@[k].0 == x && #[trigger] edges@[k].1 == y;
                        assert(k < old_edges.len());
                        assert(old_edges[k] == edges@[k]);
                        assert(old_edges[k].0 == x && old_edges[k].1 == y);
                        assert((edge_rel(old_edges))(x, y));
                    }
                    if x == i && y == j {
                        assert(edges@[old_edges.len() as int] == (i, j));
                        assert(edges@[old_edges.len() as int].0 == x && edges@[old_edges.len() as int].1 == y);
                    }
                }
            }
            j = j + 1;
        }
        i = i + 1;
    }
    assert(edge_rel(edges@) =~= framework.support_rel());
    edges
}

/// The names of the nodes listed in `c`.
fn component_names(framework: &BipolarFramework, c: &Vec<usize>) -> (r: Vec<String>)
    requires
        framework.wf(),
        forall|p: int| 0 <= p < c@.len() ==> #[trigger] c@[p] < framework.size(),
    ensures
        r@.len() == c@.len(),
        forall|p: int| 0 <= p < c@.len() ==> #[trigger] r@[p]@ == framework.arg_names()[c@[p] as int],
{
    let names = framework.names_ref();
    let mut r: Vec<String> = Vec::new();
    let mut p: usize = 0;
    while p < c.len()
        invariant
            strings_view(names@) == framework.arg_names(),
            forall|q: int| 0 <= q < c@.len() ==> #[trigger] c@[q] < framework.size(),
            p <= c@.len(),
            r@.len() == p,
            forall|q: int| 0 <= q < p ==> #[trigger] r@[q]@ == framework.arg_names()[c@[q] as int],
        decreases c@.len() - p,
    {
        let v = c[p];
        assert(names@[v as int]@ == framework.arg_names()[v as int]);
        r.push(names[v].clone());
        p = p + 1;
    }
    r
}

impl BipolarFramework {
    /// Positions `i` and `j` support each other, directly or through
    /// other arguments (every argument is in coalition with itself).
    pub open spec fn allied(&self, i: int, j: int) -> bool {
        0 <= i < self.size() && 0 <= j < self.size() && mutually_reach(self.support_rel(), i, j)
    }

    /// Number of direct supports.
    pub open spec fn support_count(&self) -> nat {
        pair_count(self.support_rel(), self.size() as int, self.size() as int)
    }

    /// Argument `i` is a member of one of `coalitions`.
    pub open spec fn in_some(&self, coalitions: Seq<Coalition>, i: int) -> bool {
        exists|c: int| 0 <= c < coalitions.len() && #[trigger] self.member_at(coalitions[c].members@, i)
    }

    /// Argument `i` is named among `members`.
    pub open spec fn member_at(&self, members: Seq<String>, i: int) -> bool {
        strings_view(members).contains(self.arg_names()[i])
    }
}

/// All coalitions of the framework: one per strongly connected component
/// of the support graph (attacks are ignored), numbered in reverse
/// topological order, as petgraph returns them: a coalition whose member
/// supports a member of another comes after it. Each argument is in exactly one coalition, and
/// two arguments share one exactly when they support each other,
/// directly or transitively. The support graph is built in petgraph, so
/// its node and edge counts stay below `u32::MAX`.
pub fn detect_coalitions(framework: &BipolarFramework) -> (r: Vec<Coalition>)
    requires
        framework.wf(),
        framework.size() < u32::MAX,
        framework.support_count() < u32::MAX,
    ensures
        forall|c: int| 0 <= c < r@.len() ==> #[trigger] r@[c].id == CoalitionId(c as u32),
        forall|c: int| 0 <= c < r@.len() ==> #[trigger] r@[c].members@.len() > 0,
        forall|c: int| 0 <= c < r@.len() ==> strings_view(#[trigger] r@[c].members@).no_duplicates(),
        forall|c: int, x: Seq<char>| 0 <= c < r@.len() && #[trigger] strings_view(r@[c].members@).contains(x)
            ==> framework.arg_names().contains(x),
        forall|i: int| 0 <= i < framework.size() ==> #[trigger] framework.in_some(r@, i),
        forall|c: int, i: int, j: int| 0 <= c < r@.len() && 0 <= i < framework.size() && 0 <= j < framework.size()
            && #[trigger] framework.member_at(r@[c].members@, i)
            ==> (#[trigger] framework.member_at(r@[c].members@, j) <==> framework.allied(i, j)),
        forall|c1: int, c2: int, i: int| 0 <= c1 < r@.len() && 0 <= c2 < r@.len()
            && #[trigger] framework.member_at(r@[c1].members@, i)
            && #[trigger] framework.member_at(r@[c2].members@, i) ==> c1 == c2,
        forall|c1: int, c2: int, i: int, j: int| 0 <= c1 < r@.len() && 0 <= c2 < r@.len()
            && #[trigger] framework.member_at(r@[c1].members@, i) && #[trigger] framework.member_at(r@[c2].members@, j)
            && (framework.support_rel())(i, j) ==> c2 <= c1,
{
    let n = framework.len();
    let edges = support_edges(framework);
    let comps = strongly_connected(n, &edges);
    let ghost cv = comps_view(comps@);
    let ghost sup = framework.support_rel();
    proof {
        lemma_parts_bounded(n as nat, sup, cv);
    }
    let mut r: Vec<Coalition> = Vec::new();
    let mut c: usize = 0;
    while c < comps.len()
        invariant
            framework.wf(),
            n == framework.size(),
            n < u32::MAX,
            sup == framework.support_rel(),
            cv == comps_view(comps@),
            comps@.len() <= n,
            scc_partition(n as nat, sup, cv),
            reverse_topological(sup, cv),
            c <= comps@.len(),
            r@.len() == c,
            forall|k: int| 0 <= k < c ==> #[trigger] r@[k].id == CoalitionId(k as u32),
            forall|k: int| 0 <= k < c ==> #[trigger] r@[k].members@.len() == cv[k].len(),
            forall|k: int, p: int| 0 <= k < c && 0 <= p < cv[k].len() ==>
                #[trigger] r@[k].members@[p]@ == framework.arg_names()[cv[k][p] as int],
        decreases comps@.len() - c,
    {
        assert(comps@[c as int]@ == cv[c as int]);
        assert forall|p: int| 0 <= p < comps@[c as int]@.len() implies #[trigger] comps@[c as int]@[p] < framework.size() by {
            assert(cv[c as int][p] < n);
        }
        let members = component_names(framework, &comps[c]);
        r.push(Coalition { id: CoalitionId(c as u32), members });
        c = c + 1;
    }
    proof {
        framework.lemma_wf();
        let names = framework.arg_names();
        assert forall|k: int, i: int| 0 <= k < r@.len() && 0 <= i < n implies
            (#[trigger] framework.member_at(r@[k].members@, i) <==> in_component(cv[k], i)) by {
            if framework.member_at(r@[k].members@, i) {
                let p = choose|p: int| 0 <= p < r@[k].members@.len() && strings_view(r@[k].members@)[p] == names[i];
                assert(names[cv[k][p] as int] == names[i]);
                assert(cv[k][p] < n);
                assert(cv[k][p] as int == i);
            }
            if in_component(cv[k], i) {
                let p = choose|p: int| 0 <= p < cv[k].len() && cv[k][p] as int == i;
                assert(strings_view(r@[k].members@)[p] == names[i]);
            }
        }
        assert forall|k: int| 0 <= k < r@.len() implies strings_view(#[trigger] r@[k].members@).no_duplicates() by {
            assert forall|a: int, b: int| 0 <= a < r@[k].members@.len() && 0 <= b < r@[k].members@.len() && a != b
                implies strings_view(r@[k].members@)[a] != strings_view(r@[k].members@)[b] by {
                assert(cv[k][a] != cv[k][b]);
                assert(cv[k][a] < n && cv[k][b] < n);
            }
        }
        assert forall|k: int, x: Seq<char>| 0 <= k < r@.len() && #[trigger] strings_view(r@[k].members@).contains(x)
            implies framework.arg_names().contains(x) by {
            let p = choose|p: int| 0 <= p < r@[k].members@.len() && strings_view(r@[k].members@)[p] == x;
            assert(cv[k][p] < n);
            assert(names[cv[k][p] as int] == x);
        }
        assert forall|i: int| 0 <= i < framework.size() implies #[trigger] framework.in_some(r@, i) by {
            assert(covered(cv, i));
            let k = choose|k: int| 0 <= k < cv.len() && #[trigger] in_component(cv[k], i);
            assert(framework.member_at(r@[k].members@, i));
        }
        assert forall|k: int, i: int, j: int| 0 <= k < r@.len() && 0 <= i < framework.size() && 0 <= j < framework.size()
            && #[trigger] framework.member_at(r@[k].members@, i)
            implies (#[trigger] framework.member_at(r@[k].members@, j) <==> framework.allied(i, j)) by {
            let p = choose|p: int| 0 <= p < r@[k].members@.len() && strings_view(r@[k].members@)[p] == names[i];
            assert(cv[k][p] < n);
            let u = cv[k][p] as int;
            assert(names[u] == names[i]);
            assert(in_component(cv[k], u));
            assert(u == i);
            assert(framework.member_at(r@[k].members@, j) <==> in_component(cv[k], j));
        }
        assert forall|c1: int, c2: int, i: int| 0 <= c1 < r@.len() && 0 <= c2 < r@.len()
            && #[trigger] framework.member_at(r@[c1].members@, i)
            && #[trigger] framework.member_at(r@[c2].members@, i) implies c1 == c2 by {
            let p = choose|p: int| 0 <= p < r@[c1].members@.len() && strings_view(r@[c1].members@)[p] == names[i];
            let q = choose|q: int| 0 <= q < r@[c2].members@.len() && strings_view(r@[c2].members@)[q] == names[i];
            assert(cv[c1][p] < n && cv[c2][q] < n);
            assert(names[cv[c1][p] as int] == names[cv[c2][q] as int]);
            assert(cv[c1][p] == cv[c2][q]);
            assert(in_component(cv[c1], cv[c1][p] as int));
            assert(in_component(cv[c2], cv[c1][p] as int));
        }
        assert forall|c1: int, c2: int, i: int, j: int| 0 <= c1 < r@.len() && 0 <= c2 < r@.len()
            && #[trigger] framework.member_at(r@[c1].members@, i) && #[trigger] framework.member_at(r@[c2].members@, j)
            && (framework.support_rel())(i, j) implies c2 <= c1 by {
            assert(0 <= i < n && 0 <= j < n);
            assert(in_component(cv[c1], i));
            assert(in_component(cv[c2], j));
        }
    }
    r
}

} // verus!
