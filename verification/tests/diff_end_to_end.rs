use bindiff::graphs::Binary;
use bindiff::graphs::Export;
use bindiff::graphs::ExportCallGraph;
use bindiff::graphs::ExportFlowGraph;
use bindiff::graphs::ExportMeta;
use bindiff::graphs::ExportVertex;
use bindiff::graphs::VertexType;
use bindiff::matching::StepKind;
use bindiff::matching::default_config;
use bindiff::matching::diff;
use bindiff::matching::SIMILARITY_ONE;
use bindiff::mdindex::annotate_md_indices;
use bindiff::mdindex::load_annotated_binary;

fn single_function_export(exe: &str, bytes: &[u8]) -> Export {
    Export {
        meta_information: ExportMeta {
            executable_name: String::from(exe),
            executable_id: String::from("hash-of-input"),
        },
        call_graph: ExportCallGraph {
            vertex: vec![ExportVertex {
                address: 0x1000,
                mangled_name: Some(String::from("main")),
                demangled_name: None,
                vertex_type: VertexType::Normal,
            }],
            edge: Vec::new(),
        },
        flow_graph: vec![ExportFlowGraph {
            entry_point_address: 0x1000,
            name: Some(String::from("main")),
            demangled_name: None,
            basic_block_count: 3,
            edge_count: 2,
            instruction_count: 10,
            loop_count: 0,
            instruction_bytes: bytes.to_vec(),
            string_references: 0,
            call_targets: Vec::new(),
        }],
    }
}

fn load_annotated(export: &Export, path: &str) -> Binary {
    let mut b = Binary::from_proto(export, path).unwrap();
    annotate_md_indices(&mut b);
    b
}

#[test]
fn identical_single_function_binaries_match_perfectly() {
    let bytes = [0x55, 0x48, 0x89, 0xE5];
    let primary = load_annotated(&single_function_export("one.exe", &bytes), "one.BinExport");
    let secondary = load_annotated(&single_function_export("two.exe", &bytes), "two.BinExport");
    let result = diff(&primary, &secondary, &default_config());
    assert_eq!(result.primary_exe, "one.exe");
    assert_eq!(result.secondary_exe, "two.exe");
    assert_eq!(result.matches.len(), 1);
    let m = &result.matches[0];
    assert_eq!(m.function.primary_address, 0x1000);
    assert_eq!(m.function.secondary_address, 0x1000);
    assert_eq!(m.function.similarity, SIMILARITY_ONE);
    assert_eq!(m.function.step, StepKind::IdenticalStructure);
    assert!(result.unmatched_primary.is_empty());
    assert!(result.unmatched_secondary.is_empty());
}

#[test]
fn empty_binaries_yield_zero_matches_without_error() {
    let empty = Export {
        meta_information: ExportMeta {
            executable_name: String::from("empty.exe"),
            executable_id: String::from("0"),
        },
        call_graph: ExportCallGraph { vertex: Vec::new(), edge: Vec::new() },
        flow_graph: Vec::new(),
    };
    let primary = load_annotated(&empty, "a");
    let secondary = load_annotated(&empty, "b");
    let result = diff(&primary, &secondary, &default_config());
    assert_eq!(result.matches.len(), 0);
    assert!(result.unmatched_primary.is_empty());
    assert!(result.unmatched_secondary.is_empty());
}

#[test]
fn extra_functions_stay_as_unmatched_entries() {
    let bytes = [0x90];
    let primary_export = {
        let mut e = single_function_export("one.exe", &bytes);
        e.call_graph.vertex.push(ExportVertex {
            address: 0x2000,
            mangled_name: Some(String::from("helper")),
            demangled_name: None,
            vertex_type: VertexType::Normal,
        });
        e.flow_graph.push(ExportFlowGraph {
            entry_point_address: 0x2000,
            name: Some(String::from("helper")),
            demangled_name: None,
            basic_block_count: 900,
            edge_count: 0,
            instruction_count: 0,
            loop_count: 0,
            instruction_bytes: vec![1, 2, 3],
            string_references: 0,
            call_targets: Vec::new(),
        });
        e
    };
    let primary = load_annotated(&primary_export, "one.BinExport");
    let secondary = load_annotated(&single_function_export("two.exe", &bytes), "two.BinExport");
    let result = diff(&primary, &secondary, &default_config());
    assert_eq!(result.matches.len(), 1);
    assert_eq!(result.matches[0].function.primary_address, 0x1000);
    assert_eq!(result.unmatched_primary, vec![0x2000]);
    assert!(result.unmatched_secondary.is_empty());
    // The export carries no per-block records, so the nested block set is
    // empty.
    assert!(result.matches[0].basic_blocks.is_empty());
}

#[test]
fn load_annotated_binary_equals_manual_pipeline() {
    let export = single_function_export("one.exe", &[0x90]);
    let via_entry = load_annotated_binary(&export, "one.BinExport").unwrap();
    let manual = load_annotated(&export, "one.BinExport");
    assert_eq!(via_entry.exe_filename, manual.exe_filename);
    assert_eq!(via_entry.flow_graphs[0].md_index, manual.flow_graphs[0].md_index);
    assert_eq!(via_entry.call_graph.md_index, manual.call_graph.md_index);
    assert!(load_annotated_binary(
        &{
            let mut bad = single_function_export("one.exe", &[0x90]);
            bad.call_graph.vertex.insert(
                0,
                bindiff::graphs::ExportVertex {
                    address: 0x9000,
                    mangled_name: None,
                    demangled_name: None,
                    vertex_type: VertexType::Normal,
                },
            );
            bad
        },
        "one.BinExport",
    )
    .is_err());
}
