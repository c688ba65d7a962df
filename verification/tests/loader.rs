use bindiff::graphs::Binary;
use bindiff::graphs::CallGraph;
use bindiff::graphs::Export;
use bindiff::graphs::ExportCallGraph;
use bindiff::graphs::ExportEdge;
use bindiff::graphs::ExportFlowGraph;
use bindiff::graphs::ExportMeta;
use bindiff::graphs::ExportVertex;
use bindiff::graphs::VertexType;
use bindiff::graphs::hash_bytes;
use bindiff::graphs::CALL_GRAPH_NODE_LIBRARY;
use bindiff::graphs::CALL_GRAPH_NODE_NAME;
use bindiff::graphs::CALL_GRAPH_NODE_STUB;
use bindiff::util::format_address;
use bindiff::util::format_function_name;
use bindiff::util::lower_bound;
use bindiff::LoadError;

fn vertex(address: u64, name: Option<&str>, vertex_type: VertexType) -> ExportVertex {
    ExportVertex {
        address,
        mangled_name: name.map(String::from),
        demangled_name: None,
        vertex_type,
    }
}

fn flow_graph_record(entry: u64, bb: u32, ec: u32, ic: u32, bytes: &[u8]) -> ExportFlowGraph {
    ExportFlowGraph {
        entry_point_address: entry,
        name: None,
        demangled_name: None,
        basic_block_count: bb,
        edge_count: ec,
        instruction_count: ic,
        loop_count: 0,
        instruction_bytes: bytes.to_vec(),
        string_references: 0,
        call_targets: Vec::new(),
    }
}

#[test]
fn ascending_vertices_preserved_exactly() {
    let proto = ExportCallGraph {
        vertex: vec![
            vertex(0x1000, Some("alpha"), VertexType::Normal),
            vertex(0x2000, None, VertexType::Library),
            vertex(0x3000, Some("gamma"), VertexType::Thunk),
        ],
        edge: Vec::new(),
    };
    let g = CallGraph::from_proto(&proto).unwrap();
    assert_eq!(g.nodes.len(), 3);
    assert_eq!(g.nodes[0].address, 0x1000);
    assert_eq!(g.nodes[1].address, 0x2000);
    assert_eq!(g.nodes[2].address, 0x3000);
    assert_eq!(g.nodes[0].name, "alpha");
    assert_eq!(g.nodes[0].flags, CALL_GRAPH_NODE_NAME);
    assert_eq!(g.nodes[1].flags, CALL_GRAPH_NODE_LIBRARY);
    assert_eq!(g.nodes[2].flags, CALL_GRAPH_NODE_NAME + CALL_GRAPH_NODE_STUB);
}

#[test]
fn descending_pair_fails_with_ordering_error() {
    let proto = ExportCallGraph {
        vertex: vec![
            vertex(0x2000, None, VertexType::Normal),
            vertex(0x1000, None, VertexType::Normal),
        ],
        edge: Vec::new(),
    };
    let err = match CallGraph::from_proto(&proto) {
        Err(e) => e,
        Ok(_) => panic!("expected an ordering error"),
    };
    assert_eq!(err, LoadError::NotSorted { previous: 0x2000, address: 0x1000 });
    assert_eq!(
        err.message(),
        "Call graph nodes not sorted: 00001000 < 00002000"
    );
}

#[test]
fn equal_addresses_are_tolerated() {
    let proto = ExportCallGraph {
        vertex: vec![
            vertex(0x1000, None, VertexType::Normal),
            vertex(0x1000, None, VertexType::Normal),
        ],
        edge: Vec::new(),
    };
    assert!(CallGraph::from_proto(&proto).is_ok());
}

#[test]
fn unnamed_vertex_gets_synthesized_name() {
    let proto = ExportCallGraph {
        vertex: vec![
            vertex(0x401000, None, VertexType::Normal),
            vertex(0x100000001, None, VertexType::Normal),
        ],
        edge: Vec::new(),
    };
    let g = CallGraph::from_proto(&proto).unwrap();
    assert_eq!(g.nodes[0].name, "sub_00401000");
    assert_eq!(g.nodes[1].name, "sub_0000000100000001");
}

#[test]
fn format_address_pads_to_width() {
    assert_eq!(format_address(0x401000), "00401000");
    assert_eq!(format_address(0xFFFFFFFF), "FFFFFFFF");
    assert_eq!(format_address(0x100000001), "0000000100000001");
    assert_eq!(format_address(0), "00000000");
    assert_eq!(format_function_name(0x401000), "sub_00401000");
}

#[test]
fn demangled_without_mangled_is_rejected() {
    let proto = ExportCallGraph {
        vertex: vec![ExportVertex {
            address: 0x1000,
            mangled_name: None,
            demangled_name: Some(String::from("operator new")),
            vertex_type: VertexType::Normal,
        }],
        edge: Vec::new(),
    };
    let err = match CallGraph::from_proto(&proto) {
        Err(e) => e,
        Ok(_) => panic!("expected a name-contract error"),
    };
    assert_eq!(err, LoadError::DemangledWithoutMangled { address: 0x1000 });
}

#[test]
fn edge_with_unresolved_endpoint_is_dropped() {
    let proto = ExportCallGraph {
        vertex: vec![
            vertex(0x1000, None, VertexType::Normal),
            vertex(0x2000, None, VertexType::Normal),
        ],
        edge: vec![
            ExportEdge { source_vertex_index: 0, target_vertex_index: 1 },
            ExportEdge { source_vertex_index: 0, target_vertex_index: 7 },
            ExportEdge { source_vertex_index: 9, target_vertex_index: 1 },
        ],
    };
    let g = CallGraph::from_proto(&proto).unwrap();
    assert_eq!(g.edges.len(), 1);
    assert_eq!(g.edges[0].source, 0);
    assert_eq!(g.edges[0].target, 1);
}

#[test]
fn byte_hash_folds_each_byte() {
    assert_eq!(hash_bytes(&vec![1, 2, 3]), 1026);
    assert_eq!(hash_bytes(&Vec::new()), 0);
}

#[test]
fn lower_bound_finds_first_not_less() {
    let v = vec![10u64, 20, 20, 30];
    assert_eq!(lower_bound(&v, 5), 0);
    assert_eq!(lower_bound(&v, 20), 1);
    assert_eq!(lower_bound(&v, 25), 3);
    assert_eq!(lower_bound(&v, 31), 4);
}

#[test]
fn binary_load_dedupes_and_orders_flow_graphs() {
    let export = Export {
        meta_information: ExportMeta {
            executable_name: String::from("demo.exe"),
            executable_id: String::from("cafebabe"),
        },
        call_graph: ExportCallGraph {
            vertex: vec![vertex(0x1000, None, VertexType::Normal)],
            edge: Vec::new(),
        },
        flow_graph: vec![
            flow_graph_record(0x3000, 1, 0, 5, &[1]),
            flow_graph_record(0x1000, 2, 1, 8, &[2]),
            flow_graph_record(0x3000, 9, 9, 9, &[3]),
        ],
    };
    let b = Binary::from_proto(&export, "demo.BinExport").unwrap();
    assert_eq!(b.exe_filename, "demo.exe");
    assert_eq!(b.exe_hash, "cafebabe");
    assert_eq!(b.filename, "demo.BinExport");
    assert_eq!(b.flow_graphs.len(), 2);
    assert_eq!(b.flow_graphs[0].entry_point_address, 0x1000);
    assert_eq!(b.flow_graphs[1].entry_point_address, 0x3000);
    // The first record for 0x3000 wins over the later duplicate.
    assert_eq!(b.flow_graphs[1].basic_block_count, 1);
    assert_eq!(b.flow_graphs[1].instruction_count, 5);
}

#[test]
fn load_failure_returns_no_binary() {
    let export = Export {
        meta_information: ExportMeta {
            executable_name: String::from("demo.exe"),
            executable_id: String::from("cafebabe"),
        },
        call_graph: ExportCallGraph {
            vertex: vec![
                vertex(0x2000, None, VertexType::Normal),
                vertex(0x1000, None, VertexType::Normal),
            ],
            edge: Vec::new(),
        },
        flow_graph: vec![flow_graph_record(0x1000, 1, 0, 1, &[])],
    };
    assert!(Binary::from_proto(&export, "demo.BinExport").is_err());
}
