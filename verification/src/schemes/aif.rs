//! The Argument Interchange Format (AIF) graph of a scheme instance:
//! information nodes for the premises and the conclusion, a
//! rule-application node for the scheme, and conflict nodes for the
//! critical questions. The JSON encoding of the graph is left to the
//! caller; this module builds and reads the graph.

use vstd::prelude::*;
use crate::schemes::error::SchemeError;
use crate::schemes::bindings::Bindings;
use crate::schemes::instance::{CriticalQuestionInstance, SchemeInstance};
use crate::schemes::literal::Literal;
use crate::schemes::registry::{CatalogRegistry, first_with_name, found};
use crate::schemes::scheme::SchemeSpec;
use crate::schemes::types::Challenge;
use crate::strings::owned;
use crate::text::{concat, decimal, lemma_decimal_injective, number_text, trim, trimmed};
use vstd::string::StrSliceExecFns;

verus! {

/// A node of an AIF graph. Its type is "I" (a claim), "RA" (a rule
/// application) or "CA" (a conflict).
#[derive(Debug, Clone, PartialEq, Eq)]
pub struct AifNode {
    /// Identifier, unique in the document.
    pub node_id: String,
    /// The claim's literal, the scheme's name, or the question's text.
    pub text: String,
    /// "I", "RA", "CA" or "MA".
    pub node_type: String,
    /// The scheme's name, on rule-application nodes.
    pub scheme: Option<String>,
}

/// A directed edge of an AIF graph.
#[derive(Debug, Clone, PartialEq, Eq)]
pub struct AifEdge {
    /// Identifier, unique in the document.
    pub edge_id: String,
    /// Source node.
    pub from_id: String,
    /// Target node.
    pub to_id: String,
}

/// An AIF graph.
#[derive(Debug, Clone, PartialEq, Eq, Default)]
pub struct AifDocument {
    /// The nodes.
    pub nodes: Vec<AifNode>,
    /// The edges.
    pub edges: Vec<AifEdge>,
}

// ---------------------------------------------------------------------
// Text
// ---------------------------------------------------------------------

/// The literal that a claim's text denotes: a leading `¬` marks a
/// negation; the name is trimmed of surrounding whitespace.
pub open spec fn literal_of_text(t: Seq<char>) -> (bool, Seq<char>) {
    if t.len() > 0 && t[0] == '¬' {
        (true, trimmed(t.subrange(1, t.len() as int)))
    } else {
        (false, trimmed(t))
    }
}

/// The literal a claim's text denotes.
fn literal_from_text(text: &str) -> (r: Literal)
    ensures
        r.is(literal_of_text(text@).0, literal_of_text(text@).1),
{
    let n = text.unicode_len();
    if n > 0 && text.get_char(0) == '¬' {
        let rest = text.substring_char(1, n);
        Literal::neg(trim(rest))
    } else {
        Literal::atom(trim(text))
    }
}

// ---------------------------------------------------------------------
// Export
// ---------------------------------------------------------------------

/// `n` has identifier `id`, text `text`, type `ty` and scheme field
/// `scheme`.
pub open spec fn node_is(n: AifNode, id: Seq<char>, text: Seq<char>, ty: Seq<char>, scheme: Option<Seq<char>>) -> bool {
    &&& n.node_id@ == id
    &&& n.text@ == text
    &&& n.node_type@ == ty
    &&& match (n.scheme, scheme) {
        (None, None) => true,
        (Some(s), Some(t)) => s@ == t,
        _ => false,
    }
}

/// `e` has identifier `id` and joins `from` to `to`.
pub open spec fn edge_is(e: AifEdge, id: Seq<char>, from: Seq<char>, to: Seq<char>) -> bool {
    e.edge_id@ == id && e.from_id@ == from && e.to_id@ == to
}

/// `doc` is the AIF graph of `inst`: with `p` premises and `q`
/// questions, nodes `1..=p` are the premises, `p+1` the conclusion,
/// `p+2` the rule application (tagged with the scheme's name) and the
/// following ones the questions; edges, numbered from 0, lead from each
/// premise to the rule application, from it to the conclusion, and from
/// each question to it.
pub open spec fn exports(inst: SchemeInstance, doc: AifDocument) -> bool {
    let p = inst.premises@.len() as int;
    let q = inst.critical_questions@.len() as int;
    let ra = decimal((p + 2) as nat);
    &&& doc.nodes@.len() == p + 2 + q
    &&& forall|i: int| 0 <= i < p ==> node_is(#[trigger] doc.nodes@[i], decimal((i + 1) as nat),
        inst.premises@[i].text_view(), "I"@, None)
    &&& node_is(doc.nodes@[p], decimal((p + 1) as nat), inst.conclusion.text_view(), "I"@, None)
    &&& node_is(doc.nodes@[p + 1], ra, inst.scheme_name@, "RA"@, Some(inst.scheme_name@))
    &&& forall|k: int| 0 <= k < q ==> node_is(#[trigger] doc.nodes@[p + 2 + k], decimal((p + 3 + k) as nat),
        inst.critical_questions@[k].text@, "CA"@, None)
    &&& doc.edges@.len() == p + 1 + q
    &&& forall|i: int| 0 <= i < p ==> edge_is(#[trigger] doc.edges@[i], decimal(i as nat), decimal((i + 1) as nat), ra)
    &&& edge_is(doc.edges@[p], decimal(p as nat), ra, decimal((p + 1) as nat))
    &&& forall|k: int| 0 <= k < q ==> edge_is(#[trigger] doc.edges@[p + 1 + k], decimal((p + 1 + k) as nat),
        decimal((p + 3 + k) as nat), ra)
}

/// A node from its parts.
fn make_node(id: usize, text: String, ty: &str, scheme: Option<String>) -> (r: AifNode)
    ensures
        r.node_id@ == decimal(id as nat),
        r.text@ == text@,
        r.node_type@ == ty@,
        r.scheme == scheme,
{
    AifNode { node_id: number_text(id), text, node_type: owned(ty), scheme }
}

/// An edge from its parts.
fn make_edge(id: usize, from: usize, to: usize) -> (r: AifEdge)
    ensures
        edge_is(r, decimal(id as nat), decimal(from as nat), decimal(to as nat)),
{
    AifEdge { edge_id: number_text(id), from_id: number_text(from), to_id: number_text(to) }
}

/// The AIF graph of a scheme instance.
pub fn instance_to_aif(instance: &SchemeInstance) -> (r: AifDocument)
    requires
        instance.premises@.len() + instance.critical_questions@.len() + 3 <= usize::MAX,
    ensures
        exports(*instance, r),
{
    let p = instance.premises.len();
    let q = instance.critical_questions.len();
    let mut nodes: Vec<AifNode> = Vec::new();
    let mut edges: Vec<AifEdge> = Vec::new();
    let mut i: usize = 0;
    while i < p
        invariant
            p == instance.premises@.len(),
            q == instance.critical_questions@.len(),
            p + q + 3 <= usize::MAX,
            i <= p,
            nodes@.len() == i,
            forall|j: int| 0 <= j < i ==> node_is(#[trigger] nodes@[j], decimal((j + 1) as nat),
                instance.premises@[j].text_view(), "I"@, None),
        decreases p - i,
    {
        nodes.push(make_node(i + 1, instance.premises[i].text(), "I", None));
        i = i + 1;
    }
    nodes.push(make_node(p + 1, instance.conclusion.text(), "I", None));
    nodes.push(make_node(p + 2, instance.scheme_name.clone(), "RA", Some(instance.scheme_name.clone())));
    let mut k: usize = 0;
    while k < q
        invariant
            p == instance.premises@.len(),
            q == instance.critical_questions@.len(),
            p + q + 3 <= usize::MAX,
            k <= q,
            nodes@.len() == p + 2 + k,
            forall|j: int| 0 <= j < p ==> node_is(#[trigger] nodes@[j], decimal((j + 1) as nat),
                instance.premises@[j].text_view(), "I"@, None),
            node_is(nodes@[p as int], decimal((p + 1) as nat), instance.conclusion.text_view(), "I"@, None),
            node_is(nodes@[p + 1], decimal((p + 2) as nat), instance.scheme_name@, "RA"@, Some(instance.scheme_name@)),
            forall|j: int| 0 <= j < k ==> node_is(#[trigger] nodes@[p + 2 + j], decimal((p + 3 + j) as nat),
                instance.critical_questions@[j].text@, "CA"@, None),
        decreases q - k,
    {
        let text = instance.critical_questions[k].text.clone();
        nodes.push(make_node(p + 3 + k, text, "CA", None));
        k = k + 1;
    }
    let mut e: usize = 0;
    while e < p
        invariant
            p == instance.premises@.len(),
            q == instance.critical_questions@.len(),
            p + q + 3 <= usize::MAX,
            e <= p,
            edges@.len() == e,
            forall|j: int| 0 <= j < e ==> edge_is(#[trigger] edges@[j], decimal(j as nat), decimal((j + 1) as nat),
                decimal((p + 2) as nat)),
        decreases p - e,
    {
        edges.push(make_edge(e, e + 1, p + 2));
        e = e + 1;
    }
    edges.push(make_edge(p, p + 2, p + 1));
    let mut c: usize = 0;
    while c < q
        invariant
            p == instance.premises@.len(),
            q == instance.critical_questions@.len(),
            p + q + 3 <= usize::MAX,
            c <= q,
            edges@.len() == p + 1 + c,
            forall|j: int| 0 <= j < p ==> edge_is(#[trigger] edges@[j], decimal(j as nat), decimal((j + 1) as nat),
                decimal((p + 2) as nat)),
            edge_is(edges@[p as int], decimal(p as nat), decimal((p + 2) as nat), decimal((p + 1) as nat)),
            forall|j: int| 0 <= j < c ==> edge_is(#[trigger] edges@[p + 1 + j], decimal((p + 1 + j) as nat),
                decimal((p + 3 + j) as nat), decimal((p + 2) as nat)),
        decreases q - c,
    {
        edges.push(make_edge(p + 1 + c, p + 3 + c, p + 2));
        c = c + 1;
    }
    AifDocument { nodes, edges }
}

// ---------------------------------------------------------------------
// Import
// ---------------------------------------------------------------------

/// The positions of the rule-application nodes of `ns`, in order.
pub open spec fn ra_positions(ns: Seq<AifNode>) -> Seq<int>
    decreases ns.len(),
{
    if ns.len() == 0 {
        Seq::empty()
    } else {
        let r = ra_positions(ns.drop_last());
        if ns.last().node_type@ == "RA"@ {
            r.push(ns.len() - 1)
        } else {
            r
        }
    }
}

/// The edges of `es` that end at `id`, in order.
pub open spec fn edges_to(es: Seq<AifEdge>, id: Seq<char>) -> Seq<AifEdge>
    decreases es.len(),
{
    if es.len() == 0 {
        Seq::empty()
    } else {
        let r = edges_to(es.drop_last(), id);
        if es.last().to_id@ == id {
            r.push(es.last())
        } else {
            r
        }
    }
}

/// The edges of `es` that start at `id`, in order.
pub open spec fn edges_from(es: Seq<AifEdge>, id: Seq<char>) -> Seq<AifEdge>
    decreases es.len(),
{
    if es.len() == 0 {
        Seq::empty()
    } else {
        let r = edges_from(es.drop_last(), id);
        if es.last().from_id@ == id {
            r.push(es.last())
        } else {
            r
        }
    }
}

/// Position of the first node of `ns` with identifier `id` (and, if
/// `ty` is given, of that type), or -1.
pub open spec fn node_position(ns: Seq<AifNode>, id: Seq<char>, ty: Option<Seq<char>>) -> int
    decreases ns.len(),
{
    if ns.len() == 0 {
        -1
    } else {
        let r = node_position(ns.drop_last(), id, ty);
        if r >= 0 {
            r
        } else if ns.last().node_id@ == id && match ty {
            Some(t) => ns.last().node_type@ == t,
            None => true,
        } {
            ns.len() - 1
        } else {
            -1
        }
    }
}

/// The source of edge `e` in `ns` is missing or is neither a claim nor
/// a conflict node.
pub open spec fn bad_source(ns: Seq<AifNode>, e: AifEdge) -> bool {
    let k = node_position(ns, e.from_id@, None);
    k < 0 || !(ns[k].node_type@ == "I"@ || ns[k].node_type@ == "CA"@)
}

/// Position in `es` of the first edge with a bad source, or -1.
pub open spec fn first_bad_edge(ns: Seq<AifNode>, es: Seq<AifEdge>) -> int
    decreases es.len(),
{
    if es.len() == 0 {
        -1
    } else {
        let r = first_bad_edge(ns, es.drop_last());
        if r >= 0 {
            r
        } else if bad_source(ns, es.last()) {
            es.len() - 1
        } else {
            -1
        }
    }
}

/// The message for edge `e`'s bad source in `ns`.
pub open spec fn bad_source_message(ns: Seq<AifNode>, e: AifEdge) -> Seq<char> {
    let k = node_position(ns, e.from_id@, None);
    if k < 0 {
        "edge references unknown node '"@ + e.from_id@ + "'"@
    } else {
        "unexpected incoming node type '"@ + ns[k].node_type@ + "' on RA-node"@
    }
}

/// The nodes (of type `ty`) at which the edges `es` start, in order.
pub open spec fn sources_of_type(ns: Seq<AifNode>, es: Seq<AifEdge>, ty: Seq<char>) -> Seq<AifNode>
    decreases es.len(),
{
    if es.len() == 0 {
        Seq::empty()
    } else {
        let r = sources_of_type(ns, es.drop_last(), ty);
        let k = node_position(ns, es.last().from_id@, None);
        if k >= 0 && ns[k].node_type@ == ty {
            r.push(ns[k])
        } else {
            r
        }
    }
}

/// `r` is an interchange error with message `msg`.
pub open spec fn parse_error(r: Result<SchemeInstance, SchemeError>, msg: Seq<char>) -> bool {
    r matches Err(SchemeError::AifParse(m)) && m@ == msg
}

/// `inst` is the instance that an AIF graph describes, given its scheme
/// `scheme` (named `name`), its premise nodes, its conclusion node and
/// its question nodes: literals are read from the claims' text, each
/// question takes the challenge of the scheme's question at the same
/// position (or rule validity past the scheme's questions), and its
/// counter-literal is the placeholder `¬aif_cq_<position>`.
pub open spec fn imported(
    inst: SchemeInstance,
    scheme: SchemeSpec,
    name: Seq<char>,
    premises: Seq<AifNode>,
    conclusion: AifNode,
    questions: Seq<AifNode>,
) -> bool {
    &&& inst.scheme_name@ == name
    &&& inst.premises@.len() == premises.len()
    &&& forall|i: int| 0 <= i < premises.len() ==> (#[trigger] inst.premises@[i]).is(
        literal_of_text(premises[i].text@).0, literal_of_text(premises[i].text@).1)
    &&& inst.conclusion.is(literal_of_text(conclusion.text@).0, literal_of_text(conclusion.text@).1)
    &&& inst.critical_questions@.len() == questions.len()
    &&& forall|k: int| 0 <= k < questions.len() ==> {
        let c = #[trigger] inst.critical_questions@[k];
        &&& c.number == (k + 1) as u32
        &&& c.text@ == questions[k].text@
        &&& c.challenge == if k < scheme.critical_questions@.len() {
            scheme.critical_questions@[k].challenge
        } else {
            Challenge::RuleValidity
        }
        &&& c.counter_literal.is(true, "aif_cq_"@ + decimal(k as nat))
    }
}

/// `r` is what reading `doc` against the schemes `ss` gives: the single
/// rule-application node names a scheme of `ss` (the first of that
/// name); it has exactly one outgoing edge, to a claim node, the
/// conclusion; the sources of its incoming edges are claims (the
/// premises) or conflicts (the questions). Each failure is reported
/// with its own message, checked in that order.
pub open spec fn import_result(doc: AifDocument, ss: Seq<SchemeSpec>, r: Result<SchemeInstance, SchemeError>) -> bool {
    let ns = doc.nodes@;
    let es = doc.edges@;
    let ras = ra_positions(ns);
    if ras.len() == 0 {
        parse_error(r, "no RA-node in document"@)
    } else if ras.len() > 1 {
        parse_error(r, "multiple RA-nodes not supported in v0.2.0 (found "@ + decimal(ras.len()) + ")"@)
    } else {
        let ra = ns[ras[0]];
        match ra.scheme {
            None => parse_error(r, "RA-node missing 'scheme' field"@),
            Some(name) => {
                let si = first_with_name(ss, name@);
                if si < 0 {
                    r matches Err(SchemeError::AifUnknownScheme(m)) && m@ == name@
                } else {
                    let ins = edges_to(es, ra.node_id@);
                    let outs = edges_from(es, ra.node_id@);
                    if outs.len() == 0 {
                        parse_error(r, "RA has no outgoing edge to conclusion"@)
                    } else if outs.len() > 1 {
                        parse_error(r, "RA has multiple outgoing edges ("@ + decimal(outs.len())
                            + "); AIFdb convention expects exactly one to the conclusion I-node"@)
                    } else {
                        let cid = outs[0].to_id@;
                        let ci = node_position(ns, cid, Some("I"@));
                        if ci < 0 {
                            parse_error(r, "conclusion node '"@ + cid + "' not found"@)
                        } else {
                            let bad = first_bad_edge(ns, ins);
                            if bad >= 0 {
                                parse_error(r, bad_source_message(ns, ins[bad]))
                            } else {
                                r matches Ok(inst) && imported(inst, ss[si], name@,
                                    sources_of_type(ns, ins, "I"@), ns[ci], sources_of_type(ns, ins, "CA"@))
                            }
                        }
                    }
                }
            },
        }
    }
}

/// Positions of the rule-application nodes.
fn find_ra_nodes(nodes: &Vec<AifNode>) -> (r: Vec<usize>)
    ensures
        r@.map_values(|i: usize| i as int) == ra_positions(nodes@),
        forall|k: int| 0 <= k < r@.len() ==> #[trigger] r@[k] < nodes@.len(),
{
    let ra = owned("RA");
    let mut r: Vec<usize> = Vec::new();
    let mut i: usize = 0;
    while i < nodes.len()
        invariant
            ra@ == "RA"@,
            i <= nodes@.len(),
            r@.map_values(|i: usize| i as int) == ra_positions(nodes@.take(i as int)),
            forall|k: int| 0 <= k < r@.len() ==> #[trigger] r@[k] < i,
        decreases nodes@.len() - i,
    {
        assert(nodes@.take(i + 1).drop_last() =~= nodes@.take(i as int));
        let ghost before = r@;
        if nodes[i].node_type == ra {
            r.push(i);
            assert(r@.map_values(|i: usize| i as int) =~= before.map_values(|i: usize| i as int).push(i as int));
        }
        i = i + 1;
    }
    assert(nodes@.take(nodes@.len() as int) =~= nodes@);
    r
}

/// The edges ending (`incoming`) or starting at node `id`.
fn edges_at<'a>(edges: &'a Vec<AifEdge>, id: &String, incoming: bool) -> (r: Vec<&'a AifEdge>)
    ensures
        r@.map_values(|e: &AifEdge| *e) == if incoming { edges_to(edges@, id@) } else { edges_from(edges@, id@) },
{
    let mut r: Vec<&AifEdge> = Vec::new();
    let mut i: usize = 0;
    while i < edges.len()
        invariant
            i <= edges@.len(),
            r@.map_values(|e: &AifEdge| *e) == if incoming {
                edges_to(edges@.take(i as int), id@)
            } else {
                edges_from(edges@.take(i as int), id@)
            },
        decreases edges@.len() - i,
    {
        assert(edges@.take(i + 1).drop_last() =~= edges@.take(i as int));
        let ghost before = r@.map_values(|e: &AifEdge| *e);
        let e = &edges[i];
        let hit = if incoming { e.to_id == *id } else { e.from_id == *id };
        if hit {
            r.push(e);
            assert(r@.map_values(|e: &AifEdge| *e) =~= before.push(edges@[i as int]));
        }
        i = i + 1;
    }
    assert(edges@.take(edges@.len() as int) =~= edges@);
    r
}

/// Position of the first node with identifier `id` (and type `ty`, if
/// given).
fn find_node(nodes: &Vec<AifNode>, id: &String, ty: Option<&String>) -> (r: Option<usize>)
    ensures
        match r {
            Some(k) => k < nodes@.len() && k as int == node_position(nodes@, id@, match ty { Some(t) => Some(t@), None => None }),
            None => node_position(nodes@, id@, match ty { Some(t) => Some(t@), None => None }) < 0,
        },
{
    let ghost tyv = match ty { Some(t) => Some(t@), None => None };
    let mut i: usize = 0;
    while i < nodes.len()
        invariant
            tyv == match ty { Some(t) => Some(t@), None => None::<Seq<char>> },
            i <= nodes@.len(),
            node_position(nodes@.take(i as int), id@, tyv) < 0,
        decreases nodes@.len() - i,
    {
        assert(nodes@.take(i + 1).drop_last() =~= nodes@.take(i as int));
        let n = &nodes[i];
        let type_ok = match ty {
            Some(t) => n.node_type == *t,
            None => true,
        };
        if n.node_id == *id && type_ok {
            proof {
                lemma_node_position_prefix(nodes@, id@, tyv, i as int + 1);
            }
            return Some(i);
        }
        i = i + 1;
    }
    assert(nodes@.take(nodes@.len() as int) =~= nodes@);
    None
}

/// A node found in a prefix is found at the same place in the whole.
proof fn lemma_node_position_prefix(ns: Seq<AifNode>, id: Seq<char>, ty: Option<Seq<char>>, k: int)
    requires
        0 <= k <= ns.len(),
        node_position(ns.take(k), id, ty) >= 0,
    ensures
        node_position(ns, id, ty) == node_position(ns.take(k), id, ty),
    decreases ns.len() - k,
{
    if k < ns.len() {
        assert(ns.take(k + 1).drop_last() =~= ns.take(k));
        lemma_node_position_prefix(ns, id, ty, k + 1);
    } else {
        assert(ns.take(k) =~= ns);
    }
}

/// Read a scheme instance back from its AIF graph, looking the scheme up
/// by name in `registry`. Question challenges are taken from the
/// scheme's questions by position and counter-literals are
/// placeholders: neither is part of the format.
pub fn aif_to_instance(doc: &AifDocument, registry: &CatalogRegistry) -> (r: Result<SchemeInstance, SchemeError>)
    ensures
        import_result(*doc, registry.entries(), r),
{
    let ghost ns = doc.nodes@;
    let ghost es = doc.edges@;
    let ras = find_ra_nodes(&doc.nodes);
    assert(ras@.len() == ra_positions(ns).len()) by {
        assert(ras@.map_values(|i: usize| i as int).len() == ras@.len());
    }
    if ras.len() == 0 {
        return Err(SchemeError::AifParse(owned("no RA-node in document")));
    }
    if ras.len() > 1 {
        let a = concat("multiple RA-nodes not supported in v0.2.0 (found ", number_text(ras.len()).as_str());
        return Err(SchemeError::AifParse(concat(a.as_str(), ")")));
    }
    assert(ras@[0] as int == ra_positions(ns)[0]) by {
        assert(ras@.map_values(|i: usize| i as int)[0] == ras@[0] as int);
    }
    let ra = &doc.nodes[ras[0]];
    let name = match &ra.scheme {
        None => {
            return Err(SchemeError::AifParse(owned("RA-node missing 'scheme' field")));
        },
        Some(name) => name,
    };
    let scheme = match registry.by_name(name.as_str()) {
        None => {
            return Err(SchemeError::AifUnknownScheme(name.clone()));
        },
        Some(s) => s,
    };
    let ins = edges_at(&doc.edges, &ra.node_id, true);
    let outs = edges_at(&doc.edges, &ra.node_id, false);
    let ghost insv = ins@.map_values(|e: &AifEdge| *e);
    assert(ins@.len() == insv.len());
    assert(outs@.len() == outs@.map_values(|e: &AifEdge| *e).len());
    if outs.len() == 0 {
        return Err(SchemeError::AifParse(owned("RA has no outgoing edge to conclusion")));
    }
    if outs.len() > 1 {
        let a = concat("RA has multiple outgoing edges (", number_text(outs.len()).as_str());
        return Err(SchemeError::AifParse(concat(a.as_str(),
            "); AIFdb convention expects exactly one to the conclusion I-node")));
    }
    assert(*outs@[0] == outs@.map_values(|e: &AifEdge| *e)[0]);
    let cid = &outs[0].to_id;
    let i_type = owned("I");
    let ca_type = owned("CA");
    let ci = match find_node(&doc.nodes, cid, Some(&i_type)) {
        None => {
            let a = concat("conclusion node '", cid.as_str());
            return Err(SchemeError::AifParse(concat(a.as_str(), "' not found")));
        },
        Some(k) => k,
    };
    let conclusion = literal_from_text(doc.nodes[ci].text.as_str());
    let ghost ra_node = ns[ra_positions(ns)[0]];
    let ghost ss = registry.entries();
    let ghost si = first_with_name(ss, name@);
    assert(ra_node == *ra);

    proof {
        reveal_strlit("I");
        reveal_strlit("CA");
    }
    let mut premises: Vec<Literal> = Vec::new();
    let mut texts: Vec<String> = Vec::new();
    let mut j: usize = 0;
    while j < ins.len()
        invariant
            ns == doc.nodes@,
            es == doc.edges@,
            ss == registry.entries(),
            ra_positions(ns).len() == 1,
            ra_node == ns[ra_positions(ns)[0]],
            ra_node.scheme == Some(*name),
            si == first_with_name(ss, name@),
            si >= 0,
            *scheme == ss[si],
            insv == edges_to(es, ra_node.node_id@),
            edges_from(es, ra_node.node_id@).len() == 1,
            0 <= ci < ns.len(),
            ci as int == node_position(ns, edges_from(es, ra_node.node_id@)[0].to_id@, Some("I"@)),
            conclusion.is(literal_of_text(ns[ci as int].text@).0, literal_of_text(ns[ci as int].text@).1),
            insv == ins@.map_values(|e: &AifEdge| *e),
            ins@.len() == insv.len(),
            i_type@ == "I"@,
            ca_type@ == "CA"@,
            j <= insv.len(),
            first_bad_edge(ns, insv.take(j as int)) < 0,
            premises@.len() == sources_of_type(ns, insv.take(j as int), "I"@).len(),
            forall|x: int| 0 <= x < premises@.len() ==> (#[trigger] premises@[x]).is(
                literal_of_text(sources_of_type(ns, insv.take(j as int), "I"@)[x].text@).0,
                literal_of_text(sources_of_type(ns, insv.take(j as int), "I"@)[x].text@).1),
            texts@.len() == sources_of_type(ns, insv.take(j as int), "CA"@).len(),
            forall|x: int| 0 <= x < texts@.len() ==> #[trigger] texts@[x]@
                == sources_of_type(ns, insv.take(j as int), "CA"@)[x].text@,
        decreases insv.len() - j,
    {
        proof {
            reveal_strlit("I");
            reveal_strlit("CA");
        }
        let e = ins[j];
        assert(*e == insv[j as int]);
        assert(insv.take(j + 1).drop_last() =~= insv.take(j as int));
        assert(insv.take(j + 1).last() == insv[j as int]);
        let src = match find_node(&doc.nodes, &e.from_id, None) {
            None => {
                proof {
                    lemma_first_bad_edge_prefix(ns, insv, j as int + 1);
                }
                let a = concat("edge references unknown node '", e.from_id.as_str());
                return Err(SchemeError::AifParse(concat(a.as_str(), "'")));
            },
            Some(k) => k,
        };
        let node = &doc.nodes[src];
        assert(*node == ns[src as int]);
        assert(src as int == node_position(ns, insv.take(j + 1).last().from_id@, None));
        if node.node_type == i_type {
            assert(node.node_type@ == "I"@);
            assert("I"@.len() == 1 && "CA"@.len() == 2);
            assert("I"@ != "CA"@);
            assert(sources_of_type(ns, insv.take(j + 1), "CA"@) == sources_of_type(ns, insv.take(j as int), "CA"@));
            let ghost before = premises@;
            premises.push(literal_from_text(node.text.as_str()));
            assert forall|x: int| 0 <= x < premises@.len() implies (#[trigger] premises@[x]).is(
                literal_of_text(sources_of_type(ns, insv.take(j + 1), "I"@)[x].text@).0,
                literal_of_text(sources_of_type(ns, insv.take(j + 1), "I"@)[x].text@).1) by {
                if x < before.len() {
                    assert(premises@[x] == before[x]);
                }
            }
        } else if node.node_type == ca_type {
            assert(sources_of_type(ns, insv.take(j + 1), "CA"@) == sources_of_type(ns, insv.take(j as int), "CA"@).push(ns[src as int]));
            assert(sources_of_type(ns, insv.take(j + 1), "I"@) == sources_of_type(ns, insv.take(j as int), "I"@));
            texts.push(node.text.clone());
        } else {
            proof {
                lemma_first_bad_edge_prefix(ns, insv, j as int + 1);
            }
            let a = concat("unexpected incoming node type '", node.node_type.as_str());
            return Err(SchemeError::AifParse(concat(a.as_str(), "' on RA-node")));
        }
        j = j + 1;
    }
    assert(insv.take(insv.len() as int) =~= insv);

    let mut questions: Vec<CriticalQuestionInstance> = Vec::new();
    let mut k: usize = 0;
    while k < texts.len()
        invariant
            ns == doc.nodes@,
            es == doc.edges@,
            ss == registry.entries(),
            ra_positions(ns).len() == 1,
            ra_node == ns[ra_positions(ns)[0]],
            ra_node.scheme == Some(*name),
            si == first_with_name(ss, name@),
            si >= 0,
            *scheme == ss[si],
            insv == edges_to(es, ra_node.node_id@),
            edges_from(es, ra_node.node_id@).len() == 1,
            0 <= ci < ns.len(),
            ci as int == node_position(ns, edges_from(es, ra_node.node_id@)[0].to_id@, Some("I"@)),
            conclusion.is(literal_of_text(ns[ci as int].text@).0, literal_of_text(ns[ci as int].text@).1),
            first_bad_edge(ns, insv) < 0,
            premises@.len() == sources_of_type(ns, insv, "I"@).len(),
            forall|x: int| 0 <= x < premises@.len() ==> (#[trigger] premises@[x]).is(
                literal_of_text(sources_of_type(ns, insv, "I"@)[x].text@).0,
                literal_of_text(sources_of_type(ns, insv, "I"@)[x].text@).1),
            texts@.len() == sources_of_type(ns, insv, "CA"@).len(),
            forall|x: int| 0 <= x < texts@.len() ==> #[trigger] texts@[x]@ == sources_of_type(ns, insv, "CA"@)[x].text@,
            k <= texts@.len(),
            questions@.len() == k,
            forall|x: int| 0 <= x < k ==> {
                let c = #[trigger] questions@[x];
                &&& c.number == (x + 1) as u32
                &&& c.text@ == texts@[x]@
                &&& c.challenge == if x < scheme.critical_questions@.len() {
                    scheme.critical_questions@[x].challenge
                } else {
                    Challenge::RuleValidity
                }
                &&& c.counter_literal.is(true, "aif_cq_"@ + decimal(x as nat))
            },
        decreases texts@.len() - k,
    {
        let challenge = if k < scheme.critical_questions.len() {
            scheme.critical_questions[k].challenge.duplicate()
        } else {
            Challenge::RuleValidity
        };
        let counter = Literal::neg(concat("aif_cq_", number_text(k).as_str()).as_str());
        let number = #[verifier::truncate] ((k + 1) as u32);
        questions.push(CriticalQuestionInstance { number, text: texts[k].clone(), challenge, counter_literal: counter });
        k = k + 1;
    }
    Ok(SchemeInstance { scheme_name: name.clone(), premises, conclusion, critical_questions: questions })
}

/// A bad edge found in a prefix is the first bad edge of the whole.
proof fn lemma_first_bad_edge_prefix(ns: Seq<AifNode>, es: Seq<AifEdge>, k: int)
    requires
        0 <= k <= es.len(),
        first_bad_edge(ns, es.take(k)) >= 0,
    ensures
        first_bad_edge(ns, es) == first_bad_edge(ns, es.take(k)),
    decreases es.len() - k,
{
    if k < es.len() {
        assert(es.take(k + 1).drop_last() =~= es.take(k));
        lemma_first_bad_edge_prefix(ns, es, k + 1);
    } else {
        assert(es.take(k) =~= es);
    }
}


// ---------------------------------------------------------------------
// Round trip
// ---------------------------------------------------------------------

/// The type of node `j` of the graph of an instance with `p` premises.
pub open spec fn exported_type(p: int, j: int) -> Seq<char> {
    if j <= p {
        "I"@
    } else if j == p + 1 {
        "RA"@
    } else {
        "CA"@
    }
}

/// The identifiers, types and edges of the graph of an instance with
/// `p` premises and `q` questions: node `j` is numbered `j + 1`.
pub open spec fn shaped(ns: Seq<AifNode>, es: Seq<AifEdge>, p: int, q: int) -> bool {
    let ra = decimal((p + 2) as nat);
    &&& p >= 0 && q >= 0
    &&& ns.len() == p + 2 + q
    &&& forall|j: int| 0 <= j < ns.len() ==> (#[trigger] ns[j]).node_id@ == decimal((j + 1) as nat)
        && ns[j].node_type@ == exported_type(p, j)
    &&& es.len() == p + 1 + q
    &&& forall|i: int| 0 <= i < p ==> edge_is(#[trigger] es[i], decimal(i as nat), decimal((i + 1) as nat), ra)
    &&& edge_is(es[p], decimal(p as nat), ra, decimal((p + 1) as nat))
    &&& forall|i: int| p < i < es.len() ==> edge_is(#[trigger] es[i], decimal(i as nat), decimal((i + 2) as nat), ra)
}

/// The node types differ from one another.
proof fn lemma_types_differ()
    ensures
        "I"@ != "RA"@,
        "I"@ != "CA"@,
        "CA"@ != "RA"@,
{
    reveal_strlit("I");
    reveal_strlit("RA");
    reveal_strlit("CA");
    assert("I"@.len() != "RA"@.len());
    assert("CA"@[0] != "RA"@[0]);
    assert("I"@[0] != "CA"@[0]);
}

/// An exported graph has its shape.
proof fn lemma_exported_shape(inst: SchemeInstance, doc: AifDocument)
    requires
        exports(inst, doc),
    ensures
        shaped(doc.nodes@, doc.edges@, inst.premises@.len() as int, inst.critical_questions@.len() as int),
{
    let ns = doc.nodes@;
    let es = doc.edges@;
    let p = inst.premises@.len() as int;
    let q = inst.critical_questions@.len() as int;
    assert forall|j: int| 0 <= j < ns.len() implies (#[trigger] ns[j]).node_id@ == decimal((j + 1) as nat)
        && ns[j].node_type@ == exported_type(p, j) by {
        if p + 2 <= j {
            let k = j - p - 2;
            assert(node_is(doc.nodes@[p + 2 + k], decimal((p + 3 + k) as nat),
                inst.critical_questions@[k].text@, "CA"@, None));
        }
    }
    assert forall|i: int| p < i < es.len() implies edge_is(#[trigger] es[i], decimal(i as nat), decimal((i + 2) as nat),
        decimal((p + 2) as nat)) by {
        let k = i - p - 1;
        assert(edge_is(doc.edges@[p + 1 + k], decimal((p + 1 + k) as nat), decimal((p + 3 + k) as nat), decimal((p + 2) as nat)));
    }
}

/// The only rule-application node is node `p + 1`.
proof fn lemma_shape_ra(ns: Seq<AifNode>, es: Seq<AifEdge>, p: int, q: int, n: int)
    requires
        shaped(ns, es, p, q),
        0 <= n <= ns.len(),
    ensures
        ra_positions(ns.take(n)) == if n <= p + 1 { Seq::<int>::empty() } else { seq![p + 1] },
    decreases n,
{
    lemma_types_differ();
    if n > 0 {
        assert(ns.take(n).drop_last() =~= ns.take(n - 1));
        lemma_shape_ra(ns, es, p, q, n - 1);
        assert(ns.take(n).last() == ns[n - 1]);
        assert(ns[n - 1].node_type@ == exported_type(p, n - 1));
    }
}

/// The node numbered `j + 1` is found at position `j`.
proof fn lemma_shape_position(ns: Seq<AifNode>, es: Seq<AifEdge>, p: int, q: int, j: int, ty: Option<Seq<char>>, n: int)
    requires
        shaped(ns, es, p, q),
        0 <= j < ns.len(),
        0 <= n <= ns.len(),
        ty matches Some(t) ==> t == exported_type(p, j),
    ensures
        node_position(ns.take(n), decimal((j + 1) as nat), ty) == if n <= j { -1 } else { j },
    decreases n,
{
    if n > 0 {
        assert(ns.take(n).drop_last() =~= ns.take(n - 1));
        lemma_shape_position(ns, es, p, q, j, ty, n - 1);
        assert(ns.take(n).last() == ns[n - 1]);
        assert(ns[n - 1].node_id@ == decimal(n as nat));
        if n - 1 != j && ns[n - 1].node_id@ == decimal((j + 1) as nat) {
            lemma_decimal_injective(n as nat, (j + 1) as nat);
        }
    }
}

/// The edges into the rule application are those from the premises and
/// the questions; the one edge out of it leads to the conclusion.
proof fn lemma_shape_edges(ns: Seq<AifNode>, es: Seq<AifEdge>, p: int, q: int, n: int)
    requires
        shaped(ns, es, p, q),
        0 <= n <= es.len(),
    ensures
        edges_to(es.take(n), decimal((p + 2) as nat)) == if n <= p { es.take(n) } else { es.take(p) + es.subrange(p + 1, n) },
        edges_from(es.take(n), decimal((p + 2) as nat)) == if n <= p { Seq::<AifEdge>::empty() } else { seq![es[p]] },
    decreases n,
{
    let ra = decimal((p + 2) as nat);
    if n > 0 {
        assert(es.take(n).drop_last() =~= es.take(n - 1));
        lemma_shape_edges(ns, es, p, q, n - 1);
        assert(es.take(n).last() == es[n - 1]);
        let e = es[n - 1];
        if n - 1 < p {
            assert(e.to_id@ == ra);
            if e.from_id@ == ra {
                lemma_decimal_injective(n as nat, (p + 2) as nat);
            }
            assert(es.take(n - 1).push(e) =~= es.take(n));
        } else if n - 1 == p {
            if e.to_id@ == ra {
                lemma_decimal_injective((p + 1) as nat, (p + 2) as nat);
            }
            assert(es.take(p) + es.subrange(p + 1, n) =~= es.take(p));
        } else {
            assert(e.to_id@ == ra);
            if e.from_id@ == ra {
                lemma_decimal_injective((n + 1) as nat, (p + 2) as nat);
            }
            assert(es.take(p) + es.subrange(p + 1, n) =~= (es.take(p) + es.subrange(p + 1, n - 1)).push(e));
        }
    }
}

/// The edges into the rule application, from the premises and the
/// questions.
pub open spec fn incoming(es: Seq<AifEdge>, p: int) -> Seq<AifEdge> {
    es.take(p) + es.subrange(p + 1, es.len() as int)
}

/// Edge `i` of the incoming ones starts at node `i` (a premise) or, past
/// the premises, at node `i + 2` (a question).
proof fn lemma_incoming_source(ns: Seq<AifNode>, es: Seq<AifEdge>, p: int, q: int, i: int)
    requires
        shaped(ns, es, p, q),
        0 <= i < p + q,
    ensures
        incoming(es, p)[i].from_id@ == decimal((if i < p { i + 1 } else { i + 3 }) as nat),
        node_position(ns, incoming(es, p)[i].from_id@, None) == if i < p { i } else { i + 2 },
{
    let e = incoming(es, p)[i];
    if i < p {
        assert(e == es[i]);
        lemma_shape_position(ns, es, p, q, i, None, ns.len() as int);
    } else {
        assert(e == es[i + 1]);
        lemma_shape_position(ns, es, p, q, i + 2, None, ns.len() as int);
    }
    assert(ns.take(ns.len() as int) =~= ns);
}

/// No incoming edge has a bad source.
proof fn lemma_shape_no_bad(ns: Seq<AifNode>, es: Seq<AifEdge>, p: int, q: int, n: int)
    requires
        shaped(ns, es, p, q),
        0 <= n <= p + q,
    ensures
        first_bad_edge(ns, incoming(es, p).take(n)) == -1,
    decreases n,
{
    lemma_types_differ();
    if n > 0 {
        let ins = incoming(es, p);
        assert(ins.take(n).drop_last() =~= ins.take(n - 1));
        lemma_shape_no_bad(ns, es, p, q, n - 1);
        lemma_incoming_source(ns, es, p, q, n - 1);
        assert(ins.take(n).last() == ins[n - 1]);
    }
}

/// The premise nodes and the question nodes, by the types of the
/// sources of the incoming edges.
proof fn lemma_shape_sources(ns: Seq<AifNode>, es: Seq<AifEdge>, p: int, q: int, n: int)
    requires
        shaped(ns, es, p, q),
        0 <= n <= p + q,
    ensures
        sources_of_type(ns, incoming(es, p).take(n), "I"@) == if n <= p { ns.take(n) } else { ns.take(p) },
        sources_of_type(ns, incoming(es, p).take(n), "CA"@) == if n <= p { Seq::<AifNode>::empty() } else { ns.subrange(p + 2, n + 2) },
    decreases n,
{
    lemma_types_differ();
    if n > 0 {
        let ins = incoming(es, p);
        assert(ins.take(n).drop_last() =~= ins.take(n - 1));
        lemma_shape_sources(ns, es, p, q, n - 1);
        lemma_incoming_source(ns, es, p, q, n - 1);
        assert(ins.take(n).last() == ins[n - 1]);
        if n - 1 < p {
            assert(ns.take(n - 1).push(ns[n - 1]) =~= ns.take(n));
        } else {
            assert(ns[n + 1].node_type@ == "CA"@);
            if n - 1 == p {
                assert(Seq::<AifNode>::empty().push(ns[n + 1]) =~= ns.subrange(p + 2, n + 2));
            } else {
                assert(ns.subrange(p + 2, n + 1).push(ns[n + 1]) =~= ns.subrange(p + 2, n + 2));
            }
        }
    }
}

/// A literal's text denotes the literal itself: its name has no white
/// space around it and, for an atom, does not start with `¬`.
pub open spec fn reads_back(l: Literal) -> bool {
    literal_of_text(l.text_view()) == (l.negated(), l.atom_name())
}

/// Exporting a scheme instance to AIF and reading the graph back, against
/// schemes that register its scheme's name, gives back its scheme name,
/// its premises and its conclusion, and one question for each of its
/// questions, numbered in order and worded as before; provided each
/// literal's text reads back as the literal.
pub proof fn law_aif_round_trip(inst: SchemeInstance, doc: AifDocument, ss: Seq<SchemeSpec>, r: Result<SchemeInstance, SchemeError>)
    requires
        exports(inst, doc),
        import_result(doc, ss, r),
        first_with_name(ss, inst.scheme_name@) >= 0,
        forall|i: int| 0 <= i < inst.premises@.len() ==> reads_back(#[trigger] inst.premises@[i]),
        reads_back(inst.conclusion),
    ensures
        r matches Ok(out) && out.scheme_name@ == inst.scheme_name@
            && out.premises@.len() == inst.premises@.len()
            && (forall|i: int| 0 <= i < inst.premises@.len() ==> (#[trigger] out.premises@[i]).is(
                inst.premises@[i].negated(), inst.premises@[i].atom_name()))
            && out.conclusion.is(inst.conclusion.negated(), inst.conclusion.atom_name())
            && out.critical_questions@.len() == inst.critical_questions@.len()
            && (forall|k: int| 0 <= k < inst.critical_questions@.len() ==> (#[trigger] out.critical_questions@[k]).text@
                == inst.critical_questions@[k].text@ && out.critical_questions@[k].number == (k + 1) as u32)
            && (forall|k: int| 0 <= k < inst.critical_questions@.len()
                && k < ss[first_with_name(ss, inst.scheme_name@)].critical_questions@.len()
                ==> (#[trigger] out.critical_questions@[k]).challenge
                    == ss[first_with_name(ss, inst.scheme_name@)].critical_questions@[k].challenge),
{
    let ns = doc.nodes@;
    let es = doc.edges@;
    let p = inst.premises@.len() as int;
    let q = inst.critical_questions@.len() as int;
    let ra = decimal((p + 2) as nat);
    lemma_exported_shape(inst, doc);
    lemma_types_differ();
    lemma_shape_ra(ns, es, p, q, ns.len() as int);
    assert(ns.take(ns.len() as int) =~= ns);
    assert(ra_positions(ns) == seq![p + 1]);
    assert(node_is(ns[p + 1], ra, inst.scheme_name@, "RA"@, Some(inst.scheme_name@)));
    lemma_shape_edges(ns, es, p, q, es.len() as int);
    assert(es.take(es.len() as int) =~= es);
    assert(edges_to(es, ra) == incoming(es, p));
    assert(edges_from(es, ra) == seq![es[p]]);
    lemma_shape_position(ns, es, p, q, p, Some("I"@), ns.len() as int);
    assert(node_position(ns, decimal((p + 1) as nat), Some("I"@)) == p);
    lemma_shape_no_bad(ns, es, p, q, p + q);
    assert(incoming(es, p).take(p + q) =~= incoming(es, p));
    lemma_shape_sources(ns, es, p, q, p + q);
    let premises = sources_of_type(ns, incoming(es, p), "I"@);
    let questions = sources_of_type(ns, incoming(es, p), "CA"@);
    assert(premises == ns.take(p));
    assert(questions == ns.subrange(p + 2, p + q + 2));
    let out = r->Ok_0;
    assert forall|i: int| 0 <= i < p implies (#[trigger] out.premises@[i]).is(
        inst.premises@[i].negated(), inst.premises@[i].atom_name()) by {
        assert(premises[i] == doc.nodes@[i]);
        assert(node_is(doc.nodes@[i], decimal((i + 1) as nat), inst.premises@[i].text_view(), "I"@, None));
        assert(reads_back(inst.premises@[i]));
    }
    assert forall|k: int| 0 <= k < q implies (#[trigger] out.critical_questions@[k]).text@
        == inst.critical_questions@[k].text@ && out.critical_questions@[k].number == (k + 1) as u32 by {
        assert(questions[k] == doc.nodes@[p + 2 + k]);
        assert(node_is(doc.nodes@[p + 2 + k], decimal((p + 3 + k) as nat), inst.critical_questions@[k].text@, "CA"@, None));
    }
    assert forall|k: int| 0 <= k < q && k < ss[first_with_name(ss, inst.scheme_name@)].critical_questions@.len()
        implies (#[trigger] out.critical_questions@[k]).challenge
            == ss[first_with_name(ss, inst.scheme_name@)].critical_questions@[k].challenge by {
        assert(questions[k] == doc.nodes@[p + 2 + k]);
    }
}

/// Exporting an instance of a scheme to AIF and reading it back against
/// schemes whose first of that name is the same scheme keeps every
/// question's challenge, in order.
pub proof fn law_aif_round_trip_keeps_challenges(
    scheme: SchemeSpec,
    b: Bindings,
    inst: SchemeInstance,
    doc: AifDocument,
    ss: Seq<SchemeSpec>,
    r: Result<SchemeInstance, SchemeError>,
)
    requires
        scheme.instantiates(b, inst),
        exports(inst, doc),
        import_result(doc, ss, r),
        first_with_name(ss, scheme.name@) >= 0,
        ss[first_with_name(ss, scheme.name@)] == scheme,
        forall|i: int| 0 <= i < inst.premises@.len() ==> reads_back(#[trigger] inst.premises@[i]),
        reads_back(inst.conclusion),
    ensures
        r matches Ok(out) && out.critical_questions@.len() == inst.critical_questions@.len()
            && forall|k: int| 0 <= k < inst.critical_questions@.len() ==>
                (#[trigger] out.critical_questions@[k]).challenge == inst.critical_questions@[k].challenge,
{
    law_aif_round_trip(inst, doc, ss, r);
    let out = r->Ok_0;
    assert forall|k: int| 0 <= k < inst.critical_questions@.len() implies
        (#[trigger] out.critical_questions@[k]).challenge == inst.critical_questions@[k].challenge by {
        assert(inst.critical_questions@[k].challenge == scheme.critical_questions@[k].challenge);
    }
}
} // verus!
