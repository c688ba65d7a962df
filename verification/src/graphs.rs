//! Graph store and program loader.
//!
//! A [`Binary`] owns one call graph and an ordered set of per-function flow
//! graphs, all held as index-addressed node and edge lists: nodes are referred
//! to by their position in the node list, never by pointer, and lookups by
//! address go through binary search over the ascending address order that
//! loading enforces.

use vstd::prelude::*;

use crate::LoadError;
use crate::util::lower_bound;
use crate::util::lower_bound_spec;
use crate::util::sorted;
use crate::util::synthesized_name;
use crate::util::format_function_name;

verus! {

/// Identifies one instruction operand: instruction address plus operand
/// position.
#[derive(Clone, Copy, Debug, PartialEq, Eq, Structural)]
pub struct OperatorId(pub u64, pub u8);

/// A human comment attached to an instruction operand.
pub struct Comment {
    pub text: String,
}

pub type CallGraphNodeFlags = u32;

/// Library function.
pub const CALL_GRAPH_NODE_LIBRARY: CallGraphNodeFlags = 1;

/// Stub function, i.e. a single JMP, etc.
pub const CALL_GRAPH_NODE_STUB: CallGraphNodeFlags = 2;

/// Function has a name that is not auto-generated.
pub const CALL_GRAPH_NODE_NAME: CallGraphNodeFlags = 4;

/// C++ demangled name.
pub const CALL_GRAPH_NODE_DEMANGLED_NAME: CallGraphNodeFlags = 8;

/// The classification of an exported call-graph vertex.
#[derive(Clone, Copy, Debug, PartialEq, Eq, Structural)]
pub enum VertexType {
    Normal,
    Library,
    Thunk,
    Imported,
}

/// One vertex of the exported call graph.
pub struct ExportVertex {
    pub address: u64,
    pub mangled_name: Option<String>,
    pub demangled_name: Option<String>,
    pub vertex_type: VertexType,
}

/// One edge of the exported call graph, referring to vertices by their
/// position in the vertex list.
#[derive(Clone, Copy, Debug, PartialEq, Eq, Structural)]
pub struct ExportEdge {
    pub source_vertex_index: usize,
    pub target_vertex_index: usize,
}

/// The exported call graph: a vertex list and an edge list.
pub struct ExportCallGraph {
    pub vertex: Vec<ExportVertex>,
    pub edge: Vec<ExportEdge>,
}

/// One exported per-function flow-graph record.
pub struct ExportFlowGraph {
    pub entry_point_address: u64,
    pub name: Option<String>,
    pub demangled_name: Option<String>,
    pub basic_block_count: u32,
    pub edge_count: u32,
    pub instruction_count: u32,
    pub loop_count: u16,
    pub instruction_bytes: Vec<u8>,
    pub string_references: u32,
    pub call_targets: Vec<u64>,
}

/// The meta-information block of an export.
pub struct ExportMeta {
    pub executable_name: String,
    pub executable_id: String,
}

/// A parsed export representation of one binary.
pub struct Export {
    pub meta_information: ExportMeta,
    pub call_graph: ExportCallGraph,
    pub flow_graph: Vec<ExportFlowGraph>,
}

/// One function in the call graph.
pub struct CallGraphNode {
    pub address: u64,
    pub name: String,
    pub demangled_name: String,
    pub flags: CallGraphNodeFlags,
}

/// One call relationship, keyed by node indices, carrying the MD-index
/// proximity metrics the calculator fills in.
pub struct CallGraphEdge {
    pub source: usize,
    pub target: usize,
    pub flags: u32,
    pub md_index_top_down: u64,
    pub md_index_bottom_up: u64,
    pub md_index_proximity: u64,
}

/// The call graph of one binary: nodes in strictly controlled insertion
/// order (ascending addresses), edges keyed by node index pairs.
pub struct CallGraph {
    pub nodes: Vec<CallGraphNode>,
    pub edges: Vec<CallGraphEdge>,
    pub md_index: u64,
    pub comments: Vec<(OperatorId, Comment)>,
}

/// One function's control-flow summary.
pub struct FlowGraph {
    pub entry_point_address: u64,
    pub name: Option<String>,
    pub demangled_name: Option<String>,
    pub basic_block_count: u32,
    pub edge_count: u32,
    pub instruction_count: u32,
    pub loop_count: u16,
    pub byte_hash: u32,
    pub string_references: u32,
    pub call_targets: Vec<u64>,
    pub md_index: u64,
    pub md_index_inverted: u64,
}

/// The top-level program representation of one input binary.
pub struct Binary {
    pub exe_filename: String,
    pub exe_hash: String,
    pub filename: String,
    pub call_graph: CallGraph,
    pub flow_graphs: Vec<FlowGraph>,
}

/// Whether the vertex at position `i` is out of address order.
pub open spec fn order_bad_at(vs: Seq<ExportVertex>, i: int) -> bool {
    0 < i < vs.len() && vs[i].address < vs[i - 1].address
}

/// Whether the vertex at position `i` carries a demangled name without a
/// mangled name.
pub open spec fn name_bad_at(vs: Seq<ExportVertex>, i: int) -> bool {
    0 <= i < vs.len() && vs[i].demangled_name is Some && vs[i].mangled_name is None
}

/// The error the loader reports for the vertex list, scanning from position
/// `i`: the first violation wins, and at one vertex the ordering check comes
/// before the name check.
pub open spec fn scan_error(vs: Seq<ExportVertex>, i: int) -> Option<LoadError>
    decreases vs.len() - i,
{
    if i < 0 || i >= vs.len() {
        None
    } else if order_bad_at(vs, i) {
        Some(LoadError::NotSorted { previous: vs[i - 1].address, address: vs[i].address })
    } else if name_bad_at(vs, i) {
        Some(LoadError::DemangledWithoutMangled { address: vs[i].address })
    } else {
        scan_error(vs, i + 1)
    }
}

/// The addresses of a vertex list, in order.
pub open spec fn vertex_addresses(vs: Seq<ExportVertex>) -> Seq<u64> {
    vs.map(|i: int, v: ExportVertex| v.address)
}

/// The flag set a loaded node carries for vertex `v`.
pub open spec fn node_flags_spec(v: ExportVertex) -> int {
    (if v.mangled_name is Some {
        CALL_GRAPH_NODE_NAME
    } else {
        0
    }) + (if v.demangled_name is Some {
        CALL_GRAPH_NODE_DEMANGLED_NAME
    } else {
        0
    }) + (match v.vertex_type {
        VertexType::Library => CALL_GRAPH_NODE_LIBRARY,
        VertexType::Thunk => CALL_GRAPH_NODE_STUB,
        _ => 0,
    })
}

/// The name a loaded node carries for vertex `v`: the mangled name when one
/// is supplied, the synthesized `sub_<ADDR>` name otherwise.
pub open spec fn node_name_spec(v: ExportVertex) -> Seq<char> {
    match v.mangled_name {
        Some(n) => n@,
        None => synthesized_name(v.address),
    }
}

/// The demangled name a loaded node carries for vertex `v`.
pub open spec fn node_demangled_spec(v: ExportVertex) -> Seq<char> {
    match v.demangled_name {
        Some(n) => n@,
        None => Seq::<char>::empty(),
    }
}

/// Whether an exported edge's endpoints both resolve to vertices.
pub open spec fn edge_kept(vs: Seq<ExportVertex>, e: ExportEdge) -> bool {
    e.source_vertex_index < vs.len() && e.target_vertex_index < vs.len()
}

/// The node index an in-range endpoint resolves to: the first node whose
/// address equals the endpoint's address.
pub open spec fn resolve_index(vs: Seq<ExportVertex>, vertex_index: int) -> int {
    lower_bound_spec(vertex_addresses(vs), vs[vertex_index].address)
}

/// The source/target node index pairs of the edges a load keeps, in input
/// order: edges with an out-of-range endpoint are dropped.
pub open spec fn resolved_pairs(vs: Seq<ExportVertex>, es: Seq<ExportEdge>) -> Seq<(int, int)>
    decreases es.len(),
{
    if es.len() == 0 {
        Seq::<(int, int)>::empty()
    } else {
        let rest = resolved_pairs(vs, es.drop_last());
        let e = es.last();
        if edge_kept(vs, e) {
            rest.push(
                (
                    resolve_index(vs, e.source_vertex_index as int),
                    resolve_index(vs, e.target_vertex_index as int),
                ),
            )
        } else {
            rest
        }
    }
}

/// The index pairs of a loaded edge list.
pub open spec fn edge_pairs(es: Seq<CallGraphEdge>) -> Seq<(int, int)> {
    es.map(|i: int, e: CallGraphEdge| (e.source as int, e.target as int))
}

/// What a successful call-graph load guarantees: node count, order and
/// addresses preserved exactly; names, demangled names and flags as the
/// vertex dictates; edges exactly the resolvable input edges, in order, with
/// their metrics still unset; no comments and an unset graph MD-index.
pub open spec fn call_graph_loaded(
    vs: Seq<ExportVertex>,
    es: Seq<ExportEdge>,
    g: CallGraph,
) -> bool {
    &&& g.nodes@.len() == vs.len()
    &&& forall|i: int| 0 <= i < vs.len() ==> (#[trigger] g.nodes@[i]).address == vs[i].address
    &&& forall|i: int| 0 <= i < vs.len() ==> (#[trigger] g.nodes@[i]).name@ == node_name_spec(vs[i])
    &&& forall|i: int|
        0 <= i < vs.len() ==> (#[trigger] g.nodes@[i]).demangled_name@ == node_demangled_spec(
            vs[i],
        )
    &&& forall|i: int| 0 <= i < vs.len() ==> (#[trigger] g.nodes@[i]).flags == node_flags_spec(vs[i])
    &&& edge_pairs(g.edges@) == resolved_pairs(vs, es)
    &&& forall|k: int|
        0 <= k < g.edges@.len() ==> (#[trigger] g.edges@[k]).source < vs.len()
            && g.edges@[k].target < vs.len() && g.edges@[k].flags == 0
            && g.edges@[k].md_index_top_down == 0 && g.edges@[k].md_index_bottom_up == 0
            && g.edges@[k].md_index_proximity == 0
    &&& g.md_index == 0
    &&& g.comments@.len() == 0
}

impl CallGraph {
    /// An empty call graph.
    pub fn new() -> (r: CallGraph)
        ensures
            r.nodes@.len() == 0,
            r.edges@.len() == 0,
            r.md_index == 0,
            r.comments@.len() == 0,
    {
        CallGraph { nodes: Vec::new(), edges: Vec::new(), md_index: 0, comments: Vec::new() }
    }

    /// Loads a call graph from an exported vertex and edge list.
    ///
    /// The load succeeds exactly when no vertex breaks the address ordering
    /// and none carries a demangled name without a mangled one; the first
    /// violation in vertex order decides the error and nothing is returned
    /// beside it.  Edges whose endpoints do not both resolve are dropped,
    /// never an error.
    pub fn from_proto(proto: &ExportCallGraph) -> (r: Result<CallGraph, LoadError>)
        ensures
            r is Ok <==> scan_error(proto.vertex@, 0) is None,
            r is Err ==> Some(r->Err_0) == scan_error(proto.vertex@, 0),
            r is Ok ==> call_graph_loaded(proto.vertex@, proto.edge@, r->Ok_0),
    {
        let ghost vs = proto.vertex@;
        let mut graph = CallGraph::new();
        let num_nodes = proto.vertex.len();
        let mut last_address: u64 = 0;
        let mut temp_addresses: Vec<u64> = Vec::new();

        let mut i: usize = 0;
        while i < num_nodes
            invariant
                num_nodes == vs.len(),
                vs == proto.vertex@,
                i <= num_nodes,
                scan_error(vs, 0) == scan_error(vs, i as int),
                graph.nodes@.len() == i,
                temp_addresses@.len() == i,
                forall|k: int| 0 <= k < i ==> temp_addresses@[k] == vs[k].address,
                forall|p: int, q: int|
                    0 <= p <= q < i ==> temp_addresses@[p] <= temp_addresses@[q],
                i > 0 ==> last_address == vs[i - 1].address,
                i == 0 ==> last_address == 0,
                forall|k: int| 0 <= k < i ==> (#[trigger] graph.nodes@[k]).address == vs[k].address,
                forall|k: int|
                    0 <= k < i ==> (#[trigger] graph.nodes@[k]).name@ == node_name_spec(vs[k]),
                forall|k: int|
                    0 <= k < i ==> (#[trigger] graph.nodes@[k]).demangled_name@
                        == node_demangled_spec(vs[k]),
                forall|k: int|
                    0 <= k < i ==> (#[trigger] graph.nodes@[k]).flags == node_flags_spec(vs[k]),
                graph.edges@.len() == 0,
                graph.md_index == 0,
                graph.comments@.len() == 0,
            decreases num_nodes - i,
        {
            let proto_node = &proto.vertex[i];
            let address = proto_node.address;

            if address < last_address {
                proof {
                    assert(order_bad_at(vs, i as int));
                }
                return Result::Err(
                    LoadError::NotSorted { previous: last_address, address },
                );
            }
            proof {
                if i > 0 {
                    assert(!order_bad_at(vs, i as int));
                }
            }

            let mut name: String;
            let mut flags: u32 = 0;
            let mut demangled_name = String::new();

            match &proto_node.mangled_name {
                Some(mangled) => {
                    flags = flags + CALL_GRAPH_NODE_NAME;
                    name = mangled.clone();
                },
                None => {
                    name = format_function_name(address);
                },
            }
            match &proto_node.demangled_name {
                Some(demangled) => {
                    if proto_node.mangled_name.is_none() {
                        proof {
                            assert(name_bad_at(vs, i as int));
                        }
                        return Result::Err(
                            LoadError::DemangledWithoutMangled { address },
                        );
                    }
                    flags = flags + CALL_GRAPH_NODE_DEMANGLED_NAME;
                    demangled_name = demangled.clone();
                },
                None => {},
            }
            flags = flags + (match proto_node.vertex_type {
                VertexType::Library => CALL_GRAPH_NODE_LIBRARY,
                VertexType::Thunk => CALL_GRAPH_NODE_STUB,
                _ => 0,
            });
            proof {
                assert(!name_bad_at(vs, i as int));
                assert(scan_error(vs, i as int) == scan_error(vs, i + 1));
                assert(flags == node_flags_spec(vs[i as int]));
            }

            last_address = address;
            let ghost old_temp = temp_addresses@;
            temp_addresses.push(address);
            proof {
                assert forall|p: int, q: int|
                    0 <= p <= q < i + 1 implies temp_addresses@[p] <= temp_addresses@[q] by {
                    if q < i {
                        assert(temp_addresses@[p] == old_temp[p]);
                        assert(temp_addresses@[q] == old_temp[q]);
                    } else if p < i {
                        assert(temp_addresses@[p] == old_temp[p]);
                        assert(old_temp[p] <= old_temp[i - 1]);
                    }
                }
            }
            graph.nodes.push(
                CallGraphNode { address, name, demangled_name, flags },
            );
            i = i + 1;
        }
        proof {
            assert(scan_error(vs, num_nodes as int) is None);
            assert(sorted(temp_addresses@));
            assert(temp_addresses@ =~= vertex_addresses(vs));
        }

        let ghost es = proto.edge@;
        let num_edges = proto.edge.len();
        let mut j: usize = 0;
        while j < num_edges
            invariant
                num_edges == es.len(),
                es == proto.edge@,
                vs == proto.vertex@,
                num_nodes == vs.len(),
                j <= num_edges,
                temp_addresses@ == vertex_addresses(vs),
                sorted(temp_addresses@),
                temp_addresses@.len() == num_nodes,
                graph.nodes@.len() == num_nodes,
                edge_pairs(graph.edges@) == resolved_pairs(vs, es.take(j as int)),
                forall|k: int|
                    0 <= k < graph.edges@.len() ==> (#[trigger] graph.edges@[k]).source < vs.len()
                        && graph.edges@[k].target < vs.len() && graph.edges@[k].flags == 0
                        && graph.edges@[k].md_index_top_down == 0
                        && graph.edges@[k].md_index_bottom_up == 0
                        && graph.edges@[k].md_index_proximity == 0,
                forall|k: int| 0 <= k < vs.len() ==> (#[trigger] graph.nodes@[k]).address == vs[k].address,
                forall|k: int|
                    0 <= k < vs.len() ==> (#[trigger] graph.nodes@[k]).name@ == node_name_spec(vs[k]),
                forall|k: int|
                    0 <= k < vs.len() ==> (#[trigger] graph.nodes@[k]).demangled_name@
                        == node_demangled_spec(vs[k]),
                forall|k: int|
                    0 <= k < vs.len() ==> (#[trigger] graph.nodes@[k]).flags == node_flags_spec(
                        vs[k],
                    ),
                graph.md_index == 0,
                graph.comments@.len() == 0,
            decreases num_edges - j,
        {
            let proto_edge = &proto.edge[j];
            let ghost pairs_before = edge_pairs(graph.edges@);
            if proto_edge.source_vertex_index < num_nodes
                && proto_edge.target_vertex_index < num_nodes {
                let source_address = proto.vertex[proto_edge.source_vertex_index].address;
                let target_address = proto.vertex[proto_edge.target_vertex_index].address;
                let source = lower_bound(&temp_addresses, source_address);
                let target = lower_bound(&temp_addresses, target_address);
                proof {
                    assert(temp_addresses@[proto_edge.source_vertex_index as int]
                        == source_address);
                    assert(temp_addresses@[proto_edge.target_vertex_index as int]
                        == target_address);
                }
                graph.edges.push(
                    CallGraphEdge {
                        source,
                        target,
                        flags: 0,
                        md_index_top_down: 0,
                        md_index_bottom_up: 0,
                        md_index_proximity: 0,
                    },
                );
                proof {
                    assert(es.take(j + 1).drop_last() =~= es.take(j as int));
                    assert(es.take(j + 1).last() == es[j as int]);
                    assert(edge_pairs(graph.edges@) =~= pairs_before.push(
                        (source as int, target as int),
                    ));
                    assert(edge_pairs(graph.edges@) == resolved_pairs(vs, es.take(j + 1)));
                }
            } else {
                proof {
                    assert(es.take(j + 1).drop_last() =~= es.take(j as int));
                    assert(es.take(j + 1).last() == es[j as int]);
                    assert(edge_pairs(graph.edges@) == resolved_pairs(vs, es.take(j + 1)));
                }
            }
            j = j + 1;
        }
        proof {
            assert(es.take(num_edges as int) =~= es);
        }

        Result::Ok(graph)
    }
}

/// The structural hash over raw instruction bytes: a 32-bit polynomial fold,
/// one step per byte.
pub open spec fn byte_hash_spec(bs: Seq<u8>) -> int
    decreases bs.len(),
{
    if bs.len() == 0 {
        0
    } else {
        (byte_hash_spec(bs.drop_last()) * 31 + bs.last()) % 0x100000000
    }
}

/// Computes the structural byte hash of `bytes`.
pub fn hash_bytes(bytes: &Vec<u8>) -> (r: u32)
    ensures
        r == byte_hash_spec(bytes@),
{
    let mut h: u32 = 0;
    let mut i: usize = 0;
    while i < bytes.len()
        invariant
            i <= bytes@.len(),
            h == byte_hash_spec(bytes@.take(i as int)),
        decreases bytes@.len() - i,
    {
        let wide: u64 = (h as u64) * 31 + (bytes[i] as u64);
        h = (wide % 0x100000000) as u32;
        proof {
            assert(bytes@.take(i + 1).drop_last() =~= bytes@.take(i as int));
            assert(bytes@.take(i + 1).last() == bytes@[i as int]);
        }
        i = i + 1;
    }
    proof {
        assert(bytes@.take(bytes@.len() as int) =~= bytes@);
    }
    h
}

/// The view of an optional name: its characters, when present.
pub open spec fn opt_chars(o: Option<String>) -> Option<Seq<char>> {
    match o {
        Some(s) => Some(s@),
        None => None,
    }
}

/// What building a flow graph from one export record guarantees: every
/// attribute taken over unchanged, the byte hash computed from the raw
/// instruction bytes, and both MD-index scalars still unset.
#[verifier::opaque]
pub open spec fn flow_graph_loaded(rec: ExportFlowGraph, fg: FlowGraph) -> bool {
    &&& fg.entry_point_address == rec.entry_point_address
    &&& opt_chars(fg.name) == opt_chars(rec.name)
    &&& opt_chars(fg.demangled_name) == opt_chars(rec.demangled_name)
    &&& fg.basic_block_count == rec.basic_block_count
    &&& fg.edge_count == rec.edge_count
    &&& fg.instruction_count == rec.instruction_count
    &&& fg.loop_count == rec.loop_count
    &&& fg.byte_hash == byte_hash_spec(rec.instruction_bytes@)
    &&& fg.string_references == rec.string_references
    &&& fg.call_targets@ == rec.call_targets@
    &&& fg.md_index == 0
    &&& fg.md_index_inverted == 0
}

fn clone_opt_string(o: &Option<String>) -> (r: Option<String>)
    ensures
        opt_chars(r) == opt_chars(*o),
{
    match o {
        Some(s) => Some(s.clone()),
        None => None,
    }
}

fn clone_addresses(v: &Vec<u64>) -> (r: Vec<u64>)
    ensures
        r@ == v@,
{
    let mut r: Vec<u64> = Vec::new();
    let mut i: usize = 0;
    while i < v.len()
        invariant
            i <= v@.len(),
            r@ =~= v@.take(i as int),
        decreases v@.len() - i,
    {
        r.push(v[i]);
        proof {
            assert(r@ =~= v@.take(i + 1));
        }
        i = i + 1;
    }
    proof {
        assert(v@.take(v@.len() as int) =~= v@);
    }
    r
}

impl FlowGraph {
    /// Builds one function's flow-graph summary from its export record,
    /// hashing its raw instruction bytes.
    pub fn from_proto(rec: &ExportFlowGraph) -> (fg: FlowGraph)
        ensures
            flow_graph_loaded(*rec, fg),
            fg.entry_point_address == rec.entry_point_address,
    {
        proof {
            reveal(flow_graph_loaded);
        }
        FlowGraph {
            entry_point_address: rec.entry_point_address,
            name: clone_opt_string(&rec.name),
            demangled_name: clone_opt_string(&rec.demangled_name),
            basic_block_count: rec.basic_block_count,
            edge_count: rec.edge_count,
            instruction_count: rec.instruction_count,
            loop_count: rec.loop_count,
            byte_hash: hash_bytes(&rec.instruction_bytes),
            string_references: rec.string_references,
            call_targets: clone_addresses(&rec.call_targets),
            md_index: 0,
            md_index_inverted: 0,
        }
    }
}

/// Whether no record before position `k` shares record `k`'s entry address.
pub open spec fn first_with_entry(recs: Seq<ExportFlowGraph>, k: int) -> bool {
    forall|k2: int| 0 <= k2 < k ==> recs[k2].entry_point_address != recs[k].entry_point_address
}

/// Whether `fg` was built from one of the first `bound` records, namely from
/// the first record carrying its entry address.
pub open spec fn loaded_from_first(recs: Seq<ExportFlowGraph>, bound: int, fg: FlowGraph) -> bool {
    exists|k: int|
        0 <= k < bound && #[trigger] flow_graph_loaded(recs[k], fg) && first_with_entry(recs, k)
}

/// Whether some member of `fgs` carries entry address `a`.
pub open spec fn has_entry(fgs: Seq<FlowGraph>, a: u64) -> bool {
    exists|j: int| 0 <= j < fgs.len() && (#[trigger] fgs[j]).entry_point_address == a
}

/// What the flow-graph set of a loaded binary guarantees: entry addresses
/// strictly ascending (so each occurs once), every record's entry address
/// represented, and each member built from the first record with its entry
/// address.
pub open spec fn flow_graphs_loaded(recs: Seq<ExportFlowGraph>, fgs: Seq<FlowGraph>) -> bool {
    &&& forall|a: int, b: int|
        0 <= a < b < fgs.len() ==> fgs[a].entry_point_address < fgs[b].entry_point_address
    &&& forall|j: int| 0 <= j < fgs.len() ==> loaded_from_first(recs, recs.len() as int, #[trigger] fgs[j])
    &&& forall|k: int|
        0 <= k < recs.len() ==> has_entry(fgs, (#[trigger] recs[k]).entry_point_address)
}

proof fn lemma_loaded_widen(recs: Seq<ExportFlowGraph>, b1: int, b2: int, fg: FlowGraph)
    requires
        loaded_from_first(recs, b1, fg),
        b1 <= b2,
    ensures
        loaded_from_first(recs, b2, fg),
{
    let k = choose|k: int|
        0 <= k < b1 && #[trigger] flow_graph_loaded(recs[k], fg) && first_with_entry(recs, k);
    assert(0 <= k < b2 && flow_graph_loaded(recs[k], fg) && first_with_entry(recs, k));
}

proof fn lemma_has_entry_insert(fgs: Seq<FlowGraph>, p: int, fg: FlowGraph, a: u64)
    requires
        has_entry(fgs, a),
        0 <= p <= fgs.len(),
    ensures
        has_entry(fgs.insert(p, fg), a),
{
    fgs.insert_ensures(p, fg);
    let j = choose|j: int| 0 <= j < fgs.len() && (#[trigger] fgs[j]).entry_point_address == a;
    if j < p {
        assert(fgs.insert(p, fg)[j].entry_point_address == a);
    } else {
        assert(fgs.insert(p, fg)[j + 1].entry_point_address == a);
    }
}

/// Inserting a fresh value at its search position keeps a strictly
/// ascending sequence strictly ascending.
proof fn lemma_sorted_insert(s: Seq<u64>, p: int, v: u64)
    requires
        forall|a: int, b: int| 0 <= a < b < s.len() ==> s[a] < s[b],
        0 <= p <= s.len(),
        forall|k: int| 0 <= k < p ==> s[k] < v,
        forall|k: int| p <= k < s.len() ==> s[k] >= v,
        p == s.len() || s[p] != v,
    ensures
        forall|a: int, b: int| 0 <= a < b < s.insert(p, v).len() ==> s.insert(p, v)[a] < s.insert(
            p,
            v,
        )[b],
{
    let t = s.insert(p, v);
    s.insert_ensures(p, v);
    assert forall|a: int, b: int| 0 <= a < b < t.len() implies t[a] < t[b] by {
        if b < p {
            assert(t[a] == s[a] && t[b] == s[b]);
        } else if b == p {
            assert(t[a] == s[a] && s[a] < v);
        } else if a < p {
            assert(t[a] == s[a] && t[b] == s[b - 1]);
            assert(s[b - 1] >= v && s[b - 1] != v);
        } else if a == p {
            assert(t[b] == s[b - 1]);
            assert(s[b - 1] >= v && s[b - 1] != v);
        } else {
            assert(t[a] == s[a - 1] && t[b] == s[b - 1]);
        }
    }
}

/// When a searched entry address is not in the list, no earlier record
/// carried it either: every earlier record's address is in the list.
proof fn lemma_no_earlier_duplicate(
    recs: Seq<ExportFlowGraph>,
    i: int,
    entries: Seq<u64>,
    fgs: Seq<FlowGraph>,
    entry: u64,
    p: int,
)
    requires
        0 <= i < recs.len(),
        entries.len() == fgs.len(),
        forall|j: int| 0 <= j < fgs.len() ==> entries[j] == (#[trigger] fgs[j]).entry_point_address,
        forall|a: int, b: int| 0 <= a < b < entries.len() ==> entries[a] < entries[b],
        forall|k: int| 0 <= k < i ==> has_entry(fgs, (#[trigger] recs[k]).entry_point_address),
        entry == recs[i].entry_point_address,
        0 <= p <= entries.len(),
        forall|k: int| 0 <= k < p ==> entries[k] < entry,
        forall|k: int| p <= k < entries.len() ==> entries[k] >= entry,
        p == entries.len() || entries[p] != entry,
    ensures
        first_with_entry(recs, i),
{
    assert forall|k2: int| 0 <= k2 < i implies recs[k2].entry_point_address
        != recs[i].entry_point_address by {
        if recs[k2].entry_point_address == entry {
            let j = choose|j: int| 0 <= j < fgs.len() && (#[trigger] fgs[j]).entry_point_address
                == entry;
            assert(entries[j] == entry);
            assert(j >= p);
            if j > p {
                assert(entries[p] < entries[j]);
            }
        }
    }
}

/// Inserting a graph loaded from the first record with its entry address
/// keeps every member of the list loaded from a first-occurrence record.
proof fn lemma_loaded_insert(
    recs: Seq<ExportFlowGraph>,
    i: int,
    fgs: Seq<FlowGraph>,
    fg: FlowGraph,
    p: int,
)
    requires
        0 <= i < recs.len(),
        forall|j: int| 0 <= j < fgs.len() ==> loaded_from_first(recs, i, #[trigger] fgs[j]),
        flow_graph_loaded(recs[i], fg),
        first_with_entry(recs, i),
        0 <= p <= fgs.len(),
    ensures
        forall|j: int|
            0 <= j < fgs.insert(p, fg).len() ==> loaded_from_first(
                recs,
                i + 1,
                #[trigger] fgs.insert(p, fg)[j],
            ),
{
    let t = fgs.insert(p, fg);
    fgs.insert_ensures(p, fg);
    assert forall|j: int| 0 <= j < t.len() implies loaded_from_first(recs, i + 1, #[trigger] t[j]) by {
        if j < p {
            assert(t[j] == fgs[j]);
            lemma_loaded_widen(recs, i, i + 1, fgs[j]);
        } else if j == p {
            assert(t[j] == fg);
            assert(0 <= i < i + 1 && flow_graph_loaded(recs[i], fg) && first_with_entry(recs, i));
        } else {
            assert(t[j] == fgs[j - 1]);
            lemma_loaded_widen(recs, i, i + 1, fgs[j - 1]);
        }
    }
}

/// Inserting into the graph list and its parallel entry list at the same
/// position keeps the two aligned.
proof fn lemma_entries_aligned_insert(
    entries: Seq<u64>,
    fgs: Seq<FlowGraph>,
    fg: FlowGraph,
    p: int,
)
    requires
        entries.len() == fgs.len(),
        forall|j: int| 0 <= j < fgs.len() ==> entries[j] == (#[trigger] fgs[j]).entry_point_address,
        0 <= p <= fgs.len(),
    ensures
        entries.insert(p, fg.entry_point_address).len() == fgs.insert(p, fg).len(),
        forall|j: int|
            0 <= j < fgs.insert(p, fg).len() ==> entries.insert(p, fg.entry_point_address)[j] == (
            #[trigger] fgs.insert(p, fg)[j]).entry_point_address,
{
    let te = entries.insert(p, fg.entry_point_address);
    let tf = fgs.insert(p, fg);
    entries.insert_ensures(p, fg.entry_point_address);
    fgs.insert_ensures(p, fg);
    assert forall|j: int| 0 <= j < tf.len() implies te[j] == (
    #[trigger] tf[j]).entry_point_address by {
        if j < p {
            assert(te[j] == entries[j] && tf[j] == fgs[j]);
        } else if j > p {
            assert(te[j] == entries[j - 1] && tf[j] == fgs[j - 1]);
        }
    }
}

/// After the insertion every record seen so far still has its entry address
/// in the list, record `i` included.
proof fn lemma_entry_membership_insert(
    recs: Seq<ExportFlowGraph>,
    i: int,
    fgs: Seq<FlowGraph>,
    fg: FlowGraph,
    p: int,
)
    requires
        0 <= i < recs.len(),
        forall|k: int| 0 <= k < i ==> has_entry(fgs, (#[trigger] recs[k]).entry_point_address),
        fg.entry_point_address == recs[i].entry_point_address,
        0 <= p <= fgs.len(),
    ensures
        forall|k: int|
            0 <= k < i + 1 ==> has_entry(fgs.insert(p, fg), (#[trigger] recs[k]).entry_point_address),
{
    let t = fgs.insert(p, fg);
    fgs.insert_ensures(p, fg);
    assert forall|k: int|
        0 <= k < i + 1 implies has_entry(t, (#[trigger] recs[k]).entry_point_address) by {
        if k < i {
            lemma_has_entry_insert(fgs, p, fg, recs[k].entry_point_address);
        } else {
            assert(t[p].entry_point_address == recs[k].entry_point_address);
        }
    }
}


fn load_flow_graphs(recs: &Vec<ExportFlowGraph>) -> (fgs: Vec<FlowGraph>)
    ensures
        flow_graphs_loaded(recs@, fgs@),
{
    let mut fgs: Vec<FlowGraph> = Vec::new();
    let mut entries: Vec<u64> = Vec::new();
    let mut i: usize = 0;
    while i < recs.len()
        invariant
            i <= recs@.len(),
            entries@.len() == fgs@.len(),
            forall|j: int|
                0 <= j < fgs@.len() ==> entries@[j] == (#[trigger] fgs@[j]).entry_point_address,
            forall|a: int, b: int| 0 <= a < b < entries@.len() ==> entries@[a] < entries@[b],
            forall|j: int|
                0 <= j < fgs@.len() ==> loaded_from_first(recs@, i as int, #[trigger] fgs@[j]),
            forall|k: int|
                0 <= k < i ==> has_entry(fgs@, (#[trigger] recs@[k]).entry_point_address),
        decreases recs@.len() - i,
    {
        let fg = FlowGraph::from_proto(&recs[i]);
        let entry = fg.entry_point_address;
        proof {
            assert(sorted(entries@));
        }
        let pos = lower_bound(&entries, entry);
        if pos < entries.len() && entries[pos] == entry {
            // Entry address already present: the first record wins, the
            // duplicate is dropped.
            proof {
                assert(fgs@[pos as int].entry_point_address == entry);
                assert forall|j: int|
                    0 <= j < fgs@.len() implies loaded_from_first(
                    recs@,
                    i + 1,
                    #[trigger] fgs@[j],
                ) by {
                    lemma_loaded_widen(recs@, i as int, i + 1, fgs@[j]);
                }
            }
        } else {
            let ghost old_entries = entries@;
            let ghost old_fgs = fgs@;
            proof {
                lemma_no_earlier_duplicate(
                    recs@,
                    i as int,
                    old_entries,
                    old_fgs,
                    entry,
                    pos as int,
                );
                lemma_sorted_insert(old_entries, pos as int, entry);
                lemma_loaded_insert(recs@, i as int, old_fgs, fg, pos as int);
                lemma_entries_aligned_insert(old_entries, old_fgs, fg, pos as int);
                lemma_entry_membership_insert(recs@, i as int, old_fgs, fg, pos as int);
            }
            entries.insert(pos, entry);
            fgs.insert(pos, fg);
        }
        i = i + 1;
    }
    fgs
}


impl Binary {
    /// Loads the whole program representation of one export: meta
    /// information, the call graph, and the deduplicated, entry-ordered
    /// flow-graph set.
    ///
    /// Fails exactly when the call-graph load fails, with the same error;
    /// nothing partial is returned.
    pub fn from_proto(proto: &Export, path: &str) -> (r: Result<Binary, LoadError>)
        ensures
            r is Ok <==> scan_error(proto.call_graph.vertex@, 0) is None,
            r is Err ==> Some(r->Err_0) == scan_error(proto.call_graph.vertex@, 0),
            r is Ok ==> {
                let b = r->Ok_0;
                &&& b.exe_filename@ == proto.meta_information.executable_name@
                &&& b.exe_hash@ == proto.meta_information.executable_id@
                &&& b.filename@ == path@
                &&& call_graph_loaded(proto.call_graph.vertex@, proto.call_graph.edge@, b.call_graph)
                &&& flow_graphs_loaded(proto.flow_graph@, b.flow_graphs@)
            },
    {
        let call_graph = match CallGraph::from_proto(&proto.call_graph) {
            Result::Ok(g) => g,
            Result::Err(e) => {
                return Result::Err(e);
            },
        };
        Result::Ok(
            Binary {
                exe_filename: proto.meta_information.executable_name.clone(),
                exe_hash: proto.meta_information.executable_id.clone(),
                filename: String::from_str(path),
                call_graph,
                flow_graphs: load_flow_graphs(&proto.flow_graph),
            },
        )
    }
}


proof fn lemma_scan_clean(vs: Seq<ExportVertex>, i: int)
    requires
        0 <= i,
        forall|t: int| 0 <= t < vs.len() ==> !order_bad_at(vs, t) && !name_bad_at(vs, t),
    ensures
        scan_error(vs, i) is None,
    decreases vs.len() - i,
{
    if i < vs.len() {
        lemma_scan_clean(vs, i + 1);
    }
}

proof fn lemma_scan_finds_order_error(vs: Seq<ExportVertex>, i: int)
    requires
        0 <= i,
        forall|t: int| 0 <= t < vs.len() ==> !name_bad_at(vs, t),
        exists|k: int| i <= k < vs.len() && order_bad_at(vs, k),
    ensures
        exists|j: int|
            i <= j < vs.len() && order_bad_at(vs, j) && scan_error(vs, i) == Some(
                LoadError::NotSorted { previous: vs[j - 1].address, address: vs[j].address },
            ),
    decreases vs.len() - i,
{
    if order_bad_at(vs, i) {
        assert(scan_error(vs, i) == Some(
            LoadError::NotSorted { previous: vs[i - 1].address, address: vs[i].address },
        ));
    } else {
        let k = choose|k: int| i <= k < vs.len() && order_bad_at(vs, k);
        assert(i + 1 <= k < vs.len() && order_bad_at(vs, k));
        lemma_scan_finds_order_error(vs, i + 1);
    }
}

/// For every export whose vertex addresses strictly ascend (so are unique)
/// and whose names respect the producer's contract, the loader succeeds and
/// preserves node count, order and address values exactly.
pub proof fn lemma_loader_preserves_vertices(
    vs: Seq<ExportVertex>,
    es: Seq<ExportEdge>,
    r: Result<CallGraph, LoadError>,
)
    requires
        forall|i: int| 0 < i < vs.len() ==> vs[i - 1].address < (#[trigger] vs[i]).address,
        forall|i: int| 0 <= i < vs.len() ==> !name_bad_at(vs, i),
        (r is Ok <==> scan_error(vs, 0) is None),
        r is Ok ==> call_graph_loaded(vs, es, r->Ok_0),
    ensures
        r is Ok,
        r->Ok_0.nodes@.len() == vs.len(),
        forall|i: int| 0 <= i < vs.len() ==> (#[trigger] r->Ok_0.nodes@[i]).address == vs[i].address,
{
    assert forall|t: int| 0 <= t < vs.len() implies !order_bad_at(vs, t) && !name_bad_at(
        vs,
        t,
    ) by {
        if 0 < t {
            assert(vs[t - 1].address < vs[t].address);
        }
    }
    lemma_scan_clean(vs, 0);
}

/// A vertex list with even one descending-address pair (and no earlier name
/// violation) is rejected with an ordering error naming an offending pair:
/// no call graph is returned.
pub proof fn lemma_descending_pair_rejected(
    vs: Seq<ExportVertex>,
    r: Result<CallGraph, LoadError>,
    k: int,
)
    requires
        0 < k < vs.len(),
        vs[k].address < vs[k - 1].address,
        forall|i: int| 0 <= i < vs.len() ==> !name_bad_at(vs, i),
        (r is Ok <==> scan_error(vs, 0) is None),
        r is Err ==> Some(r->Err_0) == scan_error(vs, 0),
    ensures
        r is Err,
        exists|j: int|
            0 < j < vs.len() && (#[trigger] vs[j]).address < vs[j - 1].address && r->Err_0 == (
            LoadError::NotSorted { previous: vs[j - 1].address, address: vs[j].address }),
{
    assert(order_bad_at(vs, k));
    lemma_scan_finds_order_error(vs, 0);
    let j = choose|j: int|
        0 <= j < vs.len() && order_bad_at(vs, j) && scan_error(vs, 0) == Some(
            LoadError::NotSorted { previous: vs[j - 1].address, address: vs[j].address },
        );
    assert(0 < j < vs.len() && vs[j].address < vs[j - 1].address && r->Err_0
        == LoadError::NotSorted { previous: vs[j - 1].address, address: vs[j].address });
}

} // verus!
