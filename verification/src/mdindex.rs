//! MD-index calculator.
//!
//! Annotates a loaded [`Binary`] with deterministic structural fingerprints:
//! one prime-weighted scalar per flow graph (and a second one for the call
//! graph traversed in the opposite direction), proximity metrics on every
//! call-graph edge, and one graph-level scalar.  Everything here is a pure
//! function of the graph store, so identical inputs always carry identical
//! indices.

use vstd::prelude::*;

use crate::LoadError;
use crate::graphs::Binary;
use crate::graphs::Export;
use crate::graphs::ExportEdge;
use crate::graphs::ExportVertex;
use crate::graphs::call_graph_loaded;
use crate::graphs::node_name_spec;
use crate::graphs::order_bad_at;
use crate::graphs::scan_error;
use crate::graphs::CallGraph;
use crate::graphs::CallGraphEdge;
use crate::graphs::CallGraphNode;
use crate::graphs::FlowGraph;
use crate::util::lower_bound_spec;
use crate::util::lemma_lower_bound_spec;
use crate::util::sorted;

verus! {

/// The modulus of every MD-index scalar: they live in 64 bits.
pub const MD_MODULUS: u128 = 0x10000000000000000;

/// The MD-index of one flow graph: a prime-weighted combination of its
/// structural metrics, its byte hash, and the function's position in the
/// call graph, reduced to 64 bits.  `down` counts the neighbors in traversal
/// direction (callees for the forward index), `up` the neighbors against it.
pub open spec fn md_index_spec(fg: FlowGraph, up: int, down: int) -> int {
    (2 * fg.basic_block_count + 3 * fg.edge_count + 5 * fg.instruction_count + 7 * fg.loop_count
        + 11 * fg.byte_hash + 13 * fg.string_references + 17 * down + 19 * up) % (
    MD_MODULUS as int)
}

/// The number of edges leaving node `v`.
pub open spec fn out_degree_spec(es: Seq<CallGraphEdge>, v: int) -> int
    decreases es.len(),
{
    if es.len() == 0 {
        0
    } else {
        out_degree_spec(es.drop_last(), v) + if es.last().source == v {
            1int
        } else {
            0int
        }
    }
}

/// The number of edges entering node `v`.
pub open spec fn in_degree_spec(es: Seq<CallGraphEdge>, v: int) -> int
    decreases es.len(),
{
    if es.len() == 0 {
        0
    } else {
        in_degree_spec(es.drop_last(), v) + if es.last().target == v {
            1int
        } else {
            0int
        }
    }
}

/// The node addresses of a call graph, in node order.
pub open spec fn node_addresses(nodes: Seq<CallGraphNode>) -> Seq<u64> {
    nodes.map(|i: int, n: CallGraphNode| n.address)
}

/// The entry-point addresses of a flow-graph list, in order.
pub open spec fn fg_entries(fgs: Seq<FlowGraph>) -> Seq<u64> {
    fgs.map(|i: int, f: FlowGraph| f.entry_point_address)
}

/// Whether the call graph has a node at address `a`.
pub open spec fn has_node(nodes: Seq<CallGraphNode>, a: u64) -> bool {
    let p = lower_bound_spec(node_addresses(nodes), a);
    p < nodes.len() && nodes[p].address == a
}

/// The index of the first node at address `a`.
pub open spec fn node_index_spec(nodes: Seq<CallGraphNode>, a: u64) -> int {
    lower_bound_spec(node_addresses(nodes), a)
}

/// How many call-graph edges enter the function at address `a`: its callers.
pub open spec fn callers_spec(g: CallGraph, a: u64) -> int {
    if has_node(g.nodes@, a) {
        in_degree_spec(g.edges@, node_index_spec(g.nodes@, a))
    } else {
        0
    }
}

/// How many call-graph edges leave the function at address `a`: its callees.
pub open spec fn callees_spec(g: CallGraph, a: u64) -> int {
    if has_node(g.nodes@, a) {
        out_degree_spec(g.edges@, node_index_spec(g.nodes@, a))
    } else {
        0
    }
}

/// The MD-index of the flow graph with entry address `a`, or zero when the
/// binary has none.
pub open spec fn node_md_spec(fgs: Seq<FlowGraph>, a: u64) -> u64 {
    let p = lower_bound_spec(fg_entries(fgs), a);
    if p < fgs.len() && fgs[p].entry_point_address == a {
        fgs[p].md_index
    } else {
        0
    }
}

/// The proximity of two neighboring call-graph nodes seen from the first
/// one: a prime-weighted combination of both MD-indices and the first node's
/// degree in traversal direction.
pub open spec fn proximity_spec(near_md: u64, far_md: u64, degree: int) -> int {
    (3 * near_md + 5 * far_md + 7 * degree) % (MD_MODULUS as int)
}

/// The graph-level MD-index: the 64-bit sum of every node's flow-graph
/// MD-index, in node order.
pub open spec fn graph_md_spec(nodes: Seq<CallGraphNode>, fgs: Seq<FlowGraph>) -> int
    decreases nodes.len(),
{
    if nodes.len() == 0 {
        0
    } else {
        (graph_md_spec(nodes.drop_last(), fgs) + node_md_spec(fgs, nodes.last().address)) % (
        MD_MODULUS as int)
    }
}

/// What annotating one flow graph guarantees: the two MD-index scalars set
/// from the structural metrics and the call-graph degrees at its entry
/// address, every other attribute untouched.
pub open spec fn fg_annotated(old_fg: FlowGraph, new_fg: FlowGraph, g: CallGraph) -> bool {
    let callers = callers_spec(g, old_fg.entry_point_address);
    let callees = callees_spec(g, old_fg.entry_point_address);
    &&& new_fg.md_index == md_index_spec(old_fg, callers, callees)
    &&& new_fg.md_index_inverted == md_index_spec(old_fg, callees, callers)
    &&& new_fg.entry_point_address == old_fg.entry_point_address
    &&& new_fg.name == old_fg.name
    &&& new_fg.demangled_name == old_fg.demangled_name
    &&& new_fg.basic_block_count == old_fg.basic_block_count
    &&& new_fg.edge_count == old_fg.edge_count
    &&& new_fg.instruction_count == old_fg.instruction_count
    &&& new_fg.loop_count == old_fg.loop_count
    &&& new_fg.byte_hash == old_fg.byte_hash
    &&& new_fg.string_references == old_fg.string_references
    &&& new_fg.call_targets == old_fg.call_targets
}

/// What annotating one call-graph edge guarantees: top-down proximity seen
/// from the caller, bottom-up proximity seen from the callee, the combined
/// value their 64-bit sum, and the edge itself otherwise untouched.
pub open spec fn edge_annotated(
    old_e: CallGraphEdge,
    new_e: CallGraphEdge,
    nodes: Seq<CallGraphNode>,
    es: Seq<CallGraphEdge>,
    fgs: Seq<FlowGraph>,
) -> bool {
    let src_md = node_md_spec(fgs, nodes[old_e.source as int].address);
    let tgt_md = node_md_spec(fgs, nodes[old_e.target as int].address);
    let top_down = proximity_spec(src_md, tgt_md, out_degree_spec(es, old_e.source as int));
    let bottom_up = proximity_spec(tgt_md, src_md, in_degree_spec(es, old_e.target as int));
    &&& new_e.md_index_top_down == top_down
    &&& new_e.md_index_bottom_up == bottom_up
    &&& new_e.md_index_proximity == (top_down + bottom_up) % (MD_MODULUS as int)
    &&& new_e.source == old_e.source
    &&& new_e.target == old_e.target
    &&& new_e.flags == old_e.flags
}

/// A call graph fit for annotation: addresses in non-decreasing node order
/// and every edge endpoint a valid node index.
pub open spec fn call_graph_wf(g: CallGraph) -> bool {
    &&& forall|i: int, j: int|
        0 <= i <= j < g.nodes@.len() ==> (#[trigger] g.nodes@[i]).address <= (
        #[trigger] g.nodes@[j]).address
    &&& forall|k: int|
        0 <= k < g.edges@.len() ==> (#[trigger] g.edges@[k]).source < g.nodes@.len()
            && g.edges@[k].target < g.nodes@.len()
}

/// A flow-graph set fit for annotation: entry addresses strictly ascending.
pub open spec fn flow_graphs_wf(fgs: Seq<FlowGraph>) -> bool {
    forall|a: int, b: int|
        0 <= a < b < fgs.len() ==> fgs[a].entry_point_address < fgs[b].entry_point_address
}

fn count_in_degree(es: &Vec<CallGraphEdge>, v: usize) -> (r: usize)
    ensures
        r == in_degree_spec(es@, v as int),
{
    let mut r: usize = 0;
    let mut i: usize = 0;
    while i < es.len()
        invariant
            i <= es@.len(),
            r <= i,
            r == in_degree_spec(es@.take(i as int), v as int),
        decreases es@.len() - i,
    {
        proof {
            assert(es@.take(i + 1).drop_last() =~= es@.take(i as int));
            assert(es@.take(i + 1).last() == es@[i as int]);
        }
        if es[i].target == v {
            r = r + 1;
        }
        i = i + 1;
    }
    proof {
        assert(es@.take(es@.len() as int) =~= es@);
    }
    r
}

fn count_out_degree(es: &Vec<CallGraphEdge>, v: usize) -> (r: usize)
    ensures
        r == out_degree_spec(es@, v as int),
{
    let mut r: usize = 0;
    let mut i: usize = 0;
    while i < es.len()
        invariant
            i <= es@.len(),
            r <= i,
            r == out_degree_spec(es@.take(i as int), v as int),
        decreases es@.len() - i,
    {
        proof {
            assert(es@.take(i + 1).drop_last() =~= es@.take(i as int));
            assert(es@.take(i + 1).last() == es@[i as int]);
        }
        if es[i].source == v {
            r = r + 1;
        }
        i = i + 1;
    }
    proof {
        assert(es@.take(es@.len() as int) =~= es@);
    }
    r
}

proof fn lemma_degrees_bounded(es: Seq<CallGraphEdge>, v: int)
    ensures
        0 <= in_degree_spec(es, v) <= es.len(),
        0 <= out_degree_spec(es, v) <= es.len(),
    decreases es.len(),
{
    if es.len() > 0 {
        lemma_degrees_bounded(es.drop_last(), v);
    }
}

/// Computes both MD-index scalars of one flow graph from its metrics and its
/// caller/callee counts.
pub fn flow_graph_md_index(fg: &FlowGraph, callers: usize, callees: usize) -> (r: (u64, u64))
    ensures
        r.0 == md_index_spec(*fg, callers as int, callees as int),
        r.1 == md_index_spec(*fg, callees as int, callers as int),
{
    let base: u128 = 2 * (fg.basic_block_count as u128) + 3 * (fg.edge_count as u128) + 5 * (
    fg.instruction_count as u128) + 7 * (fg.loop_count as u128) + 11 * (fg.byte_hash as u128) + 13
        * (fg.string_references as u128);
    let forward: u128 = (base + 17 * (callees as u128) + 19 * (callers as u128)) % MD_MODULUS;
    let inverted: u128 = (base + 17 * (callers as u128) + 19 * (callees as u128)) % MD_MODULUS;
    (forward as u64, inverted as u64)
}

fn find_node_index(nodes: &Vec<CallGraphNode>, a: u64) -> (r: usize)
    requires
        sorted(node_addresses(nodes@)),
    ensures
        r == lower_bound_spec(node_addresses(nodes@), a),
{
    let ghost addrs = node_addresses(nodes@);
    let mut lo: usize = 0;
    let mut hi: usize = nodes.len();
    while lo < hi
        invariant
            lo <= hi <= nodes@.len(),
            addrs == node_addresses(nodes@),
            sorted(addrs),
            forall|k: int| 0 <= k < lo ==> addrs[k] < a,
            forall|k: int| hi <= k < nodes@.len() ==> addrs[k] >= a,
        decreases hi - lo,
    {
        let mid = lo + (hi - lo) / 2;
        proof {
            assert(addrs[mid as int] == nodes@[mid as int].address);
        }
        if nodes[mid].address < a {
            lo = mid + 1;
        } else {
            hi = mid;
        }
    }
    proof {
        lemma_lower_bound_spec(addrs, a);
        let w = lower_bound_spec(addrs, a);
        if lo < w {
            assert(addrs[lo as int] >= a);
            assert(addrs[lo as int] < a);
        }
        if lo > w {
            assert(addrs[w] < a);
            assert(addrs[w] >= a);
        }
    }
    lo
}

fn find_fg_index(fgs: &Vec<FlowGraph>, a: u64) -> (r: usize)
    requires
        sorted(fg_entries(fgs@)),
    ensures
        r == lower_bound_spec(fg_entries(fgs@), a),
{
    let ghost entries = fg_entries(fgs@);
    let mut lo: usize = 0;
    let mut hi: usize = fgs.len();
    while lo < hi
        invariant
            lo <= hi <= fgs@.len(),
            entries == fg_entries(fgs@),
            sorted(entries),
            forall|k: int| 0 <= k < lo ==> entries[k] < a,
            forall|k: int| hi <= k < fgs@.len() ==> entries[k] >= a,
        decreases hi - lo,
    {
        let mid = lo + (hi - lo) / 2;
        proof {
            assert(entries[mid as int] == fgs@[mid as int].entry_point_address);
        }
        if fgs[mid].entry_point_address < a {
            lo = mid + 1;
        } else {
            hi = mid;
        }
    }
    proof {
        lemma_lower_bound_spec(entries, a);
        let w = lower_bound_spec(entries, a);
        if lo < w {
            assert(entries[lo as int] >= a);
            assert(entries[lo as int] < a);
        }
        if lo > w {
            assert(entries[w] < a);
            assert(entries[w] >= a);
        }
    }
    lo
}

/// The position of the flow graph with entry address `a`, if the binary
/// holds one.
pub open spec fn fg_at(fgs: Seq<FlowGraph>, a: u64) -> Option<int> {
    let p = lower_bound_spec(fg_entries(fgs), a);
    if p < fgs.len() && fgs[p].entry_point_address == a {
        Some(p)
    } else {
        None
    }
}

/// Looks up the flow graph with entry address `a`.
pub fn flow_graph_at(fgs: &Vec<FlowGraph>, a: u64) -> (r: Option<usize>)
    requires
        flow_graphs_wf(fgs@),
    ensures
        match r {
            Some(f) => fg_at(fgs@, a) == Some(f as int) && f < fgs@.len()
                && fgs@[f as int].entry_point_address == a,
            None => fg_at(fgs@, a) is None,
        },
{
    proof {
        assert(sorted(fg_entries(fgs@)));
    }
    let p = find_fg_index(fgs, a);
    if p < fgs.len() && fgs[p].entry_point_address == a {
        Some(p)
    } else {
        None
    }
}

/// Looks up the MD-index of the flow graph at entry address `a`, zero when
/// there is none.
pub fn node_md(fgs: &Vec<FlowGraph>, a: u64) -> (r: u64)
    requires
        flow_graphs_wf(fgs@),
    ensures
        r == node_md_spec(fgs@, a),
{
    proof {
        assert(sorted(fg_entries(fgs@)));
    }
    let p = find_fg_index(fgs, a);
    if p < fgs.len() && fgs[p].entry_point_address == a {
        fgs[p].md_index
    } else {
        0
    }
}

/// Annotates a loaded binary with every MD-index the calculator defines:
/// both scalars on each flow graph, the proximity metrics on each call-graph
/// edge, and the graph-level scalar.  Nothing else changes; the result is a
/// pure function of the graph store.
#[verifier::loop_isolation(false)]
pub fn annotate_md_indices(binary: &mut Binary)
    requires
        call_graph_wf(old(binary).call_graph),
        flow_graphs_wf(old(binary).flow_graphs@),
    ensures
        final(binary).exe_filename == old(binary).exe_filename,
        final(binary).exe_hash == old(binary).exe_hash,
        final(binary).filename == old(binary).filename,
        final(binary).call_graph.nodes == old(binary).call_graph.nodes,
        final(binary).call_graph.comments == old(binary).call_graph.comments,
        final(binary).flow_graphs@.len() == old(binary).flow_graphs@.len(),
        forall|f: int|
            0 <= f < old(binary).flow_graphs@.len() ==> fg_annotated(
                old(binary).flow_graphs@[f],
                #[trigger] final(binary).flow_graphs@[f],
                old(binary).call_graph,
            ),
        final(binary).call_graph.edges@.len() == old(binary).call_graph.edges@.len(),
        forall|k: int|
            0 <= k < old(binary).call_graph.edges@.len() ==> edge_annotated(
                old(binary).call_graph.edges@[k],
                #[trigger] final(binary).call_graph.edges@[k],
                old(binary).call_graph.nodes@,
                old(binary).call_graph.edges@,
                final(binary).flow_graphs@,
            ),
        final(binary).call_graph.md_index == graph_md_spec(
            old(binary).call_graph.nodes@,
            final(binary).flow_graphs@,
        ),
{
    let ghost old_fgs = binary.flow_graphs@;
    let ghost g0 = binary.call_graph;

    // First pass: both MD-index scalars of every flow graph.
    let n_fgs = binary.flow_graphs.len();
    let mut f: usize = 0;
    while f < n_fgs
        invariant
            n_fgs == old_fgs.len(),
            f <= n_fgs,
            binary.call_graph == g0,
            binary.exe_filename == old(binary).exe_filename,
            binary.exe_hash == old(binary).exe_hash,
            binary.filename == old(binary).filename,
            g0 == old(binary).call_graph,
            old_fgs == old(binary).flow_graphs@,
            call_graph_wf(g0),
            flow_graphs_wf(old_fgs),
            binary.flow_graphs@.len() == n_fgs,
            forall|j: int|
                0 <= j < f ==> fg_annotated(old_fgs[j], #[trigger] binary.flow_graphs@[j], g0),
            forall|j: int| f <= j < n_fgs ==> binary.flow_graphs@[j] == old_fgs[j],
        decreases n_fgs - f,
    {
        let a = binary.flow_graphs[f].entry_point_address;
        proof {
            assert(sorted(node_addresses(binary.call_graph.nodes@)));
        }
        let p = find_node_index(&binary.call_graph.nodes, a);
        let mut callers: usize = 0;
        let mut callees: usize = 0;
        if p < binary.call_graph.nodes.len() && binary.call_graph.nodes[p].address == a {
            proof {
                lemma_degrees_bounded(binary.call_graph.edges@, p as int);
            }
            callers = count_in_degree(&binary.call_graph.edges, p);
            callees = count_out_degree(&binary.call_graph.edges, p);
        }
        proof {
            assert(callers == callers_spec(g0, a));
            assert(callees == callees_spec(g0, a));
        }
        let md = flow_graph_md_index(&binary.flow_graphs[f], callers, callees);
        binary.flow_graphs[f].md_index = md.0;
        binary.flow_graphs[f].md_index_inverted = md.1;
        proof {
            assert(fg_annotated(old_fgs[f as int], binary.flow_graphs@[f as int], g0));
        }
        f = f + 1;
    }
    let ghost new_fgs = binary.flow_graphs@;
    proof {
        assert forall|a: int, b: int|
            0 <= a < b < new_fgs.len() implies new_fgs[a].entry_point_address
            < new_fgs[b].entry_point_address by {
            assert(fg_annotated(old_fgs[a], new_fgs[a], g0));
            assert(fg_annotated(old_fgs[b], new_fgs[b], g0));
        }
    }

    // Second pass: proximity metrics of every call-graph edge, from the
    // fresh flow-graph indices.
    let n_edges = binary.call_graph.edges.len();
    let mut k: usize = 0;
    while k < n_edges
        invariant
            n_edges == g0.edges@.len(),
            k <= n_edges,
            binary.flow_graphs@ == new_fgs,
            binary.call_graph.nodes == g0.nodes,
            binary.call_graph.comments == g0.comments,
            binary.call_graph.md_index == g0.md_index,
            binary.exe_filename == old(binary).exe_filename,
            binary.exe_hash == old(binary).exe_hash,
            binary.filename == old(binary).filename,
            g0 == old(binary).call_graph,
            call_graph_wf(g0),
            flow_graphs_wf(new_fgs),
            binary.call_graph.edges@.len() == n_edges,
            forall|j: int|
                0 <= j < k ==> edge_annotated(
                    g0.edges@[j],
                    #[trigger] binary.call_graph.edges@[j],
                    g0.nodes@,
                    g0.edges@,
                    new_fgs,
                ),
            forall|j: int| k <= j < n_edges ==> binary.call_graph.edges@[j] == g0.edges@[j],
        decreases n_edges - k,
    {
        let src = binary.call_graph.edges[k].source;
        let tgt = binary.call_graph.edges[k].target;
        proof {
            assert(binary.call_graph.edges@[k as int] == g0.edges@[k as int]);
            assert(src < g0.nodes@.len() && tgt < g0.nodes@.len());
        }
        let src_md = node_md(&binary.flow_graphs, binary.call_graph.nodes[src].address);
        let tgt_md = node_md(&binary.flow_graphs, binary.call_graph.nodes[tgt].address);
        proof {
            lemma_degrees_bounded(g0.edges@, src as int);
            lemma_degrees_bounded(g0.edges@, tgt as int);
        }
        let out_deg = count_out_degree(&binary.call_graph.edges, src);
        let in_deg = count_in_degree(&binary.call_graph.edges, tgt);
        proof {
            assert(out_degree_spec(binary.call_graph.edges@, src as int) == out_degree_spec(
                g0.edges@,
                src as int,
            )) by {
                lemma_degree_same_endpoints(binary.call_graph.edges@, g0.edges@, src as int);
            }
            assert(in_degree_spec(binary.call_graph.edges@, tgt as int) == in_degree_spec(
                g0.edges@,
                tgt as int,
            )) by {
                lemma_degree_same_endpoints(binary.call_graph.edges@, g0.edges@, tgt as int);
            }
        }
        let top_down: u128 = (3 * (src_md as u128) + 5 * (tgt_md as u128) + 7 * (out_deg as u128))
            % MD_MODULUS;
        let bottom_up: u128 = (3 * (tgt_md as u128) + 5 * (src_md as u128) + 7 * (in_deg as u128))
            % MD_MODULUS;
        let proximity: u128 = (top_down + bottom_up) % MD_MODULUS;
        binary.call_graph.edges[k].md_index_top_down = top_down as u64;
        binary.call_graph.edges[k].md_index_bottom_up = bottom_up as u64;
        binary.call_graph.edges[k].md_index_proximity = proximity as u64;
        proof {
            assert(edge_annotated(
                g0.edges@[k as int],
                binary.call_graph.edges@[k as int],
                g0.nodes@,
                g0.edges@,
                new_fgs,
            ));
        }
        k = k + 1;
    }

    // Third pass: the graph-level scalar.
    let ghost new_edges = binary.call_graph.edges@;
    let n_nodes = binary.call_graph.nodes.len();
    let mut md: u64 = 0;
    let mut i: usize = 0;
    while i < n_nodes
        invariant
            n_nodes == g0.nodes@.len(),
            i <= n_nodes,
            binary.flow_graphs@ == new_fgs,
            binary.call_graph.nodes == g0.nodes,
            binary.call_graph.comments == g0.comments,
            binary.call_graph.edges@ == new_edges,
            binary.exe_filename == old(binary).exe_filename,
            binary.exe_hash == old(binary).exe_hash,
            binary.filename == old(binary).filename,
            flow_graphs_wf(new_fgs),
            md == graph_md_spec(g0.nodes@.take(i as int), new_fgs),
        decreases n_nodes - i,
    {
        let contribution = node_md(&binary.flow_graphs, binary.call_graph.nodes[i].address);
        let widened: u128 = ((md as u128) + (contribution as u128)) % MD_MODULUS;
        proof {
            assert(g0.nodes@.take(i + 1).drop_last() =~= g0.nodes@.take(i as int));
            assert(g0.nodes@.take(i + 1).last() == g0.nodes@[i as int]);
        }
        md = widened as u64;
        i = i + 1;
    }
    proof {
        assert(g0.nodes@.take(n_nodes as int) =~= g0.nodes@);
    }
    binary.call_graph.md_index = md;
}

/// Two edge lists with pairwise equal endpoints give every node the same
/// degrees.
proof fn lemma_degree_same_endpoints(es1: Seq<CallGraphEdge>, es2: Seq<CallGraphEdge>, v: int)
    requires
        es1.len() == es2.len(),
        forall|j: int|
            0 <= j < es1.len() ==> (#[trigger] es1[j]).source == es2[j].source && es1[j].target
                == es2[j].target,
    ensures
        out_degree_spec(es1, v) == out_degree_spec(es2, v),
        in_degree_spec(es1, v) == in_degree_spec(es2, v),
    decreases es1.len(),
{
    if es1.len() > 0 {
        lemma_degree_same_endpoints(es1.drop_last(), es2.drop_last(), v);
        assert(es1.last().source == es2.last().source);
        assert(es1.last().target == es2.last().target);
    }
}

/// Computing the MD-index twice for the same flow graph and the same
/// call-graph position yields identical values: the index is a function of
/// its inputs alone.
pub proof fn lemma_md_index_deterministic(
    r1: u64,
    r2: u64,
    fg: FlowGraph,
    callers: int,
    callees: int,
)
    requires
        r1 == md_index_spec(fg, callers, callees),
        r2 == md_index_spec(fg, callers, callees),
    ensures
        r1 == r2,
{
}


proof fn lemma_scan_none_all(vs: Seq<ExportVertex>, i: int)
    requires
        0 <= i,
        scan_error(vs, i) is None,
    ensures
        forall|k: int| i <= k < vs.len() ==> !order_bad_at(vs, k),
    decreases vs.len() - i,
{
    if i < vs.len() {
        lemma_scan_none_all(vs, i + 1);
    }
}

proof fn lemma_no_descent_sorted(vs: Seq<ExportVertex>, i: int, j: int)
    requires
        forall|k: int| 0 <= k < vs.len() ==> !order_bad_at(vs, k),
        0 <= i <= j < vs.len(),
    ensures
        vs[i].address <= vs[j].address,
    decreases j - i,
{
    if i < j {
        lemma_no_descent_sorted(vs, i, j - 1);
        assert(!order_bad_at(vs, j));
    }
}

/// A call graph that loaded without error is fit for annotation and
/// matching: its node addresses ascend and its edges stay in range.
pub proof fn lemma_loaded_call_graph_wf(
    vs: Seq<ExportVertex>,
    es: Seq<ExportEdge>,
    g: CallGraph,
)
    requires
        scan_error(vs, 0) is None,
        call_graph_loaded(vs, es, g),
    ensures
        call_graph_wf(g),
{
    lemma_scan_none_all(vs, 0);
    assert forall|i: int, j: int|
        0 <= i <= j < g.nodes@.len() implies (#[trigger] g.nodes@[i]).address <= (
    #[trigger] g.nodes@[j]).address by {
        lemma_no_descent_sorted(vs, i, j);
    }
}


/// Loads one export into an annotated program representation: the graph
/// store built by the loader, with every MD-index computed.
///
/// Fails exactly when the loader fails, with the same error.  On success
/// the call graph keeps the vertices' count, order, addresses, names and
/// flags, the flow-graph set stays keyed by strictly ascending entry
/// addresses, and the store is fit for matching.
pub fn load_annotated_binary(proto: &Export, path: &str) -> (r: Result<Binary, LoadError>)
    ensures
        r is Ok <==> scan_error(proto.call_graph.vertex@, 0) is None,
        r is Err ==> Some(r->Err_0) == scan_error(proto.call_graph.vertex@, 0),
        r is Ok ==> {
            let b = r->Ok_0;
            &&& b.exe_filename@ == proto.meta_information.executable_name@
            &&& b.exe_hash@ == proto.meta_information.executable_id@
            &&& b.filename@ == path@
            &&& call_graph_wf(b.call_graph)
            &&& flow_graphs_wf(b.flow_graphs@)
            &&& b.call_graph.nodes@.len() == proto.call_graph.vertex@.len()
            &&& forall|i: int|
                0 <= i < proto.call_graph.vertex@.len() ==> (
                #[trigger] b.call_graph.nodes@[i]).address
                    == proto.call_graph.vertex@[i].address
            &&& forall|i: int|
                0 <= i < proto.call_graph.vertex@.len() ==> (#[trigger] b.call_graph.nodes@[i]).name@
                    == node_name_spec(proto.call_graph.vertex@[i])
        },
{
    let mut binary = match Binary::from_proto(proto, path) {
        Result::Ok(b) => b,
        Result::Err(e) => {
            return Result::Err(e);
        },
    };
    proof {
        lemma_loaded_call_graph_wf(
            proto.call_graph.vertex@,
            proto.call_graph.edge@,
            binary.call_graph,
        );
    }
    annotate_md_indices(&mut binary);
    Result::Ok(binary)
}

} // verus!
