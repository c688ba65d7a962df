use bindiff::graphs::Binary;
use bindiff::graphs::CallGraph;
use bindiff::graphs::Export;
use bindiff::graphs::ExportCallGraph;
use bindiff::graphs::ExportEdge;
use bindiff::graphs::ExportFlowGraph;
use bindiff::graphs::ExportMeta;
use bindiff::graphs::ExportVertex;
use bindiff::graphs::FlowGraph;
use bindiff::graphs::VertexType;
use bindiff::mdindex::annotate_md_indices;
use bindiff::mdindex::flow_graph_md_index;
use bindiff::mdindex::node_md;

fn flow_graph(entry: u64, bb: u32, ec: u32, ic: u32, lc: u16, hash: u32, sr: u32) -> FlowGraph {
    FlowGraph {
        entry_point_address: entry,
        name: None,
        demangled_name: None,
        basic_block_count: bb,
        edge_count: ec,
        instruction_count: ic,
        loop_count: lc,
        byte_hash: hash,
        string_references: sr,
        call_targets: Vec::new(),
        md_index: 0,
        md_index_inverted: 0,
    }
}

fn two_function_binary() -> Binary {
    let export = Export {
        meta_information: ExportMeta {
            executable_name: String::from("sample"),
            executable_id: String::from("id"),
        },
        call_graph: ExportCallGraph {
            vertex: vec![
                ExportVertex {
                    address: 0x1000,
                    mangled_name: Some(String::from("caller")),
                    demangled_name: None,
                    vertex_type: VertexType::Normal,
                },
                ExportVertex {
                    address: 0x2000,
                    mangled_name: Some(String::from("callee")),
                    demangled_name: None,
                    vertex_type: VertexType::Normal,
                },
            ],
            edge: vec![ExportEdge { source_vertex_index: 0, target_vertex_index: 1 }],
        },
        flow_graph: vec![
            ExportFlowGraph {
                entry_point_address: 0x1000,
                name: None,
                demangled_name: None,
                basic_block_count: 3,
                edge_count: 2,
                instruction_count: 10,
                loop_count: 0,
                instruction_bytes: Vec::new(),
                string_references: 0,
                call_targets: vec![0x2000],
            },
            ExportFlowGraph {
                entry_point_address: 0x2000,
                name: None,
                demangled_name: None,
                basic_block_count: 1,
                edge_count: 0,
                instruction_count: 4,
                loop_count: 0,
                instruction_bytes: Vec::new(),
                string_references: 0,
                call_targets: Vec::new(),
            },
        ],
    };
    Binary::from_proto(&export, "sample.BinExport").unwrap()
}

#[test]
fn flow_graph_md_index_exact_value() {
    let fg = flow_graph(0x1000, 3, 2, 10, 1, 7, 4);
    // 2*3 + 3*2 + 5*10 + 7*1 + 11*7 + 13*4 + 17*5 + 19*2 = 321
    let (forward, inverted) = flow_graph_md_index(&fg, 2, 5);
    assert_eq!(forward, 6 + 6 + 50 + 7 + 77 + 52 + 85 + 38);
    // Inverted traversal swaps the caller and callee weights.
    assert_eq!(inverted, 6 + 6 + 50 + 7 + 77 + 52 + 34 + 95);
}

#[test]
fn md_index_is_deterministic() {
    let fg = flow_graph(0x1000, 5, 4, 20, 2, 12345, 3);
    let first = flow_graph_md_index(&fg, 1, 2);
    let second = flow_graph_md_index(&fg, 1, 2);
    assert_eq!(first, second);

    let mut a = two_function_binary();
    let mut b = two_function_binary();
    annotate_md_indices(&mut a);
    annotate_md_indices(&mut b);
    assert_eq!(a.flow_graphs[0].md_index, b.flow_graphs[0].md_index);
    assert_eq!(a.flow_graphs[1].md_index, b.flow_graphs[1].md_index);
    assert_eq!(a.call_graph.md_index, b.call_graph.md_index);
    assert_eq!(
        a.call_graph.edges[0].md_index_proximity,
        b.call_graph.edges[0].md_index_proximity
    );
}

#[test]
fn annotate_fills_every_index() {
    let mut b = two_function_binary();
    annotate_md_indices(&mut b);
    // caller at 0x1000: one callee, no callers.
    // 2*3 + 3*2 + 5*10 + 17*1 = 79
    assert_eq!(b.flow_graphs[0].md_index, 79);
    // 2*3 + 3*2 + 5*10 + 19*1 = 81
    assert_eq!(b.flow_graphs[0].md_index_inverted, 81);
    // callee at 0x2000: one caller, no callees.
    // 2*1 + 5*4 + 19*1 = 41
    assert_eq!(b.flow_graphs[1].md_index, 41);
    assert_eq!(b.flow_graphs[1].md_index_inverted, 2 + 20 + 17);
    // Graph-level index: the sum of both node indices.
    assert_eq!(b.call_graph.md_index, 79 + 41);
    // Edge proximity: 3*md(src) + 5*md(tgt) + 7*out_degree(src), both ways.
    let top_down = 3 * 79 + 5 * 41 + 7 * 1;
    let bottom_up = 3 * 41 + 5 * 79 + 7 * 1;
    assert_eq!(b.call_graph.edges[0].md_index_top_down, top_down);
    assert_eq!(b.call_graph.edges[0].md_index_bottom_up, bottom_up);
    assert_eq!(b.call_graph.edges[0].md_index_proximity, top_down + bottom_up);
}

#[test]
fn node_md_looks_up_by_entry_address() {
    let mut b = two_function_binary();
    annotate_md_indices(&mut b);
    assert_eq!(node_md(&b.flow_graphs, 0x1000), 79);
    assert_eq!(node_md(&b.flow_graphs, 0x2000), 41);
    assert_eq!(node_md(&b.flow_graphs, 0x9999), 0);
}
