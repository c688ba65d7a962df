use bindiff::config::MatchingStep;
use bindiff::matching::MatchItem;
use bindiff::matching::StepKind;
use bindiff::matching::default_config;
use bindiff::matching::effective_steps;
use bindiff::matching::match_graphs;
use bindiff::matching::run_pass;
use bindiff::matching::similarity;
use bindiff::matching::step_of_name;
use bindiff::matching::SIMILARITY_ONE;

fn item(address: u64, name: Option<&str>, md: u64, bb: u32, ec: u32, ic: u32) -> MatchItem {
    MatchItem {
        address,
        name: String::from(name.unwrap_or("")),
        has_real_name: name.is_some(),
        demangled_name: String::new(),
        has_demangled_name: false,
        md_index: md,
        basic_block_count: bb,
        edge_count: ec,
        instruction_count: ic,
        neighbors: Vec::new(),
    }
}

#[test]
fn identical_structure_matches_first() {
    let steps = effective_steps(&Vec::new());
    let p = vec![item(0x1000, Some("a"), 42, 3, 2, 10)];
    let s = vec![item(0x5000, Some("b"), 42, 3, 2, 10)];
    let db = match_graphs(&steps, &p, &s);
    assert_eq!(db.pairs.len(), 1);
    assert_eq!(db.pairs[0].step, StepKind::IdenticalStructure);
    assert_eq!(db.pairs[0].similarity, SIMILARITY_ONE);
    assert_eq!(db.pairs[0].confidence, 1000000);
}

#[test]
fn name_match_pairs_renamed_structure() {
    let steps = effective_steps(&Vec::new());
    // Different MD-indices keep the exact-structural step out.
    let p = vec![item(0x1000, Some("main"), 1, 3, 2, 10)];
    let s = vec![item(0x5000, Some("main"), 2, 4, 2, 11)];
    let db = match_graphs(&steps, &p, &s);
    assert_eq!(db.pairs.len(), 1);
    assert_eq!(db.pairs[0].step, StepKind::NameMatch);
}

#[test]
fn context_step_matches_through_matched_neighbors() {
    let steps = effective_steps(&Vec::new());
    let mut p0 = item(0x1000, Some("anchor"), 1, 1, 1, 1);
    let mut s0 = item(0x5000, Some("anchor"), 2, 1, 1, 1);
    // Structurally far apart and unnamed: only context can pair them.
    let mut p1 = item(0x2000, None, 100, 1000, 0, 0);
    let mut s1 = item(0x6000, None, 200, 1, 0, 0);
    p0.neighbors = vec![1];
    s0.neighbors = vec![1];
    p1.neighbors = vec![0];
    s1.neighbors = vec![0];
    let p = vec![p0, p1];
    let s = vec![s0, s1];
    let db = match_graphs(&steps, &p, &s);
    assert_eq!(db.pairs.len(), 2);
    assert_eq!(db.pairs[0].step, StepKind::NameMatch);
    assert_eq!(db.pairs[0].primary_index, 0);
    assert_eq!(db.pairs[0].secondary_index, 0);
    assert_eq!(db.pairs[1].step, StepKind::CallGraphContext);
    assert_eq!(db.pairs[1].primary_index, 1);
    assert_eq!(db.pairs[1].secondary_index, 1);
}

#[test]
fn similarity_step_scales_confidence_by_margin() {
    let steps = effective_steps(&Vec::new());
    let p = vec![item(0x1000, None, 1, 10, 10, 10)];
    let s = vec![
        item(0x5000, None, 2, 10, 10, 11),
        item(0x6000, None, 3, 10, 10, 13),
    ];
    let db = match_graphs(&steps, &p, &s);
    assert_eq!(db.pairs.len(), 1);
    assert_eq!(db.pairs[0].step, StepKind::SimilarityRank);
    assert_eq!(db.pairs[0].secondary_index, 0);
    assert_eq!(db.pairs[0].similarity, 799000);
    // Margin over the runner-up (797000): 2000, scaled into the step's base.
    assert_eq!(db.pairs[0].confidence, 2000 * 700000 / 1000000);
}

#[test]
fn no_node_is_matched_twice() {
    let steps = effective_steps(&Vec::new());
    let p = vec![
        item(0x1000, Some("f"), 7, 2, 2, 2),
        item(0x2000, Some("g"), 7, 2, 2, 2),
        item(0x3000, None, 7, 2, 2, 2),
    ];
    let s = vec![
        item(0x5000, Some("f"), 7, 2, 2, 2),
        item(0x6000, Some("g"), 7, 2, 2, 2),
    ];
    let db = match_graphs(&steps, &p, &s);
    for a in 0..db.pairs.len() {
        for b in 0..db.pairs.len() {
            if a != b {
                assert_ne!(db.pairs[a].primary_index, db.pairs[b].primary_index);
                assert_ne!(db.pairs[a].secondary_index, db.pairs[b].secondary_index);
            }
        }
    }
    assert_eq!(db.pairs.len(), 2);
}

#[test]
fn stabilized_pipeline_adds_nothing_on_rerun() {
    let steps = effective_steps(&Vec::new());
    let p = vec![
        item(0x1000, Some("f"), 7, 2, 2, 2),
        item(0x2000, None, 9, 3, 3, 3),
        item(0x3000, None, 1, 900, 0, 0),
    ];
    let s = vec![
        item(0x5000, Some("f"), 7, 2, 2, 2),
        item(0x6000, None, 9, 3, 3, 3),
    ];
    let mut db = match_graphs(&steps, &p, &s);
    let settled = db.pairs.len();
    run_pass(&steps, &p, &s, &mut db);
    assert_eq!(db.pairs.len(), settled);
}

#[test]
fn similarity_is_exact_and_symmetric_at_identity() {
    let a = item(0x1000, None, 5, 10, 10, 10);
    let b = item(0x2000, None, 5, 10, 10, 10);
    assert_eq!(similarity(&a, &b), SIMILARITY_ONE);
    let c = item(0x3000, None, 6, 10, 12, 10);
    // Penalty: 1000*2 for the edge count plus 200000 for the MD mismatch.
    assert_eq!(similarity(&a, &c), 1000000 - 2000 - 200000);
}

#[test]
fn step_registry_resolves_known_names() {
    assert_eq!(
        step_of_name(&String::from("identical")),
        Some(StepKind::IdenticalStructure)
    );
    assert_eq!(step_of_name(&String::from("name")), Some(StepKind::NameMatch));
    assert_eq!(step_of_name(&String::from("context")), Some(StepKind::CallGraphContext));
    assert_eq!(step_of_name(&String::from("similarity")), Some(StepKind::SimilarityRank));
    assert_eq!(step_of_name(&String::from("bogus")), None);
    assert_eq!(StepKind::IdenticalStructure.name(), "identical");
    assert_eq!(StepKind::SimilarityRank.name(), "similarity");
}

#[test]
fn invalid_or_unknown_step_lists_fall_back_to_default() {
    let default = vec![
        StepKind::IdenticalStructure,
        StepKind::NameMatch,
        StepKind::CallGraphContext,
        StepKind::SimilarityRank,
    ];
    assert_eq!(effective_steps(&Vec::new()), default);
    let unknown = vec![MatchingStep { name: String::from("bogus"), enabled: true }];
    assert_eq!(effective_steps(&unknown), default);
    let duplicate = vec![
        MatchingStep { name: String::from("identical"), enabled: true },
        MatchingStep { name: String::from("identical"), enabled: true },
    ];
    assert_eq!(effective_steps(&duplicate), default);
    let partial = vec![
        MatchingStep { name: String::from("name"), enabled: true },
        MatchingStep { name: String::from("similarity"), enabled: false },
    ];
    assert_eq!(effective_steps(&partial), vec![StepKind::NameMatch]);
    let all_disabled = vec![MatchingStep { name: String::from("name"), enabled: false }];
    assert_eq!(effective_steps(&all_disabled), default);
}

#[test]
fn default_config_lists_every_step_enabled() {
    let c = default_config();
    let names: Vec<String> = c.function_matching.iter().map(|s| s.name.clone()).collect();
    assert_eq!(names, vec!["identical", "name", "context", "similarity"]);
    assert!(c.function_matching.iter().all(|s| s.enabled));
    let bb: Vec<String> = c.basic_block_matching.iter().map(|s| s.name.clone()).collect();
    assert_eq!(bb, vec!["identical", "name", "context", "similarity"]);
}
