use bindiff::config::Config;
use bindiff::config::MatchingStep;
use bindiff::config::merge_into;
use bindiff::config::merge_layered;
use bindiff::config::step_list_is_valid;

fn step(name: &str) -> MatchingStep {
    MatchingStep { name: String::from(name), enabled: true }
}

fn names(list: &Vec<MatchingStep>) -> Vec<String> {
    list.iter().map(|s| s.name.clone()).collect()
}

#[test]
fn duplicate_step_names_leave_existing_list_unchanged() {
    let mut config = Config {
        function_matching: vec![step("identical"), step("name")],
        basic_block_matching: vec![step("identical")],
    };
    let from = Config {
        function_matching: vec![step("identical"), step("identical")],
        basic_block_matching: Vec::new(),
    };
    merge_into(&from, &mut config);
    assert_eq!(names(&config.function_matching), vec!["identical", "name"]);
    assert_eq!(names(&config.basic_block_matching), vec!["identical"]);
}

#[test]
fn valid_override_replaces_list() {
    let mut config = Config {
        function_matching: vec![step("identical")],
        basic_block_matching: vec![step("identical")],
    };
    let from = Config {
        function_matching: vec![step("name"), step("similarity")],
        basic_block_matching: vec![step("context")],
    };
    merge_into(&from, &mut config);
    assert_eq!(names(&config.function_matching), vec!["name", "similarity"]);
    assert_eq!(names(&config.basic_block_matching), vec!["context"]);
}

#[test]
fn empty_override_keeps_previous_list() {
    let mut config = Config {
        function_matching: vec![step("identical")],
        basic_block_matching: vec![step("name")],
    };
    let from = Config { function_matching: Vec::new(), basic_block_matching: Vec::new() };
    merge_into(&from, &mut config);
    assert_eq!(names(&config.function_matching), vec!["identical"]);
    assert_eq!(names(&config.basic_block_matching), vec!["name"]);
}

#[test]
fn layered_merge_takes_last_valid_source() {
    let mut config = Config {
        function_matching: vec![step("identical")],
        basic_block_matching: vec![step("identical")],
    };
    let overlays = vec![
        Config {
            function_matching: vec![step("name")],
            basic_block_matching: vec![step("name")],
        },
        Config {
            // Duplicate names: this tier is skipped, not an error.
            function_matching: vec![step("context"), step("context")],
            basic_block_matching: vec![step("context")],
        },
    ];
    merge_layered(&mut config, &overlays);
    assert_eq!(names(&config.function_matching), vec!["name"]);
    assert_eq!(names(&config.basic_block_matching), vec!["context"]);
}

#[test]
fn step_list_validity() {
    assert!(!step_list_is_valid(&Vec::new()));
    assert!(step_list_is_valid(&vec![step("identical"), step("name")]));
    assert!(!step_list_is_valid(&vec![step("identical"), step("identical")]));
}
