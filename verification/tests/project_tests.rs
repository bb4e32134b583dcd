use projectionist::project::{DirProbe, CONFIG_PATHS, PROJECT_MARKERS};
use projectionist::{find_project_root, find_project_root_with_projections};

fn probe(dir: &str, has_config: bool, has_marker: bool) -> DirProbe {
    DirProbe {
        dir: dir.to_string(),
        has_config,
        has_marker,
    }
}

#[test]
fn root_is_the_nearest_configuration() {
    let probes = vec![
        probe("/p/src/components", false, false),
        probe("/p/src", false, false),
        probe("/p", true, false),
        probe("/", false, false),
    ];
    assert_eq!(find_project_root(&probes), Some("/p".to_string()));
    assert_eq!(find_project_root_with_projections(&probes), Some("/p".to_string()));
}

#[test]
fn root_falls_back_to_a_marker() {
    let probes = vec![
        probe("/p/src", false, false),
        probe("/p", false, true),
        probe("/", false, true),
    ];
    assert_eq!(find_project_root(&probes), Some("/p".to_string()));
    assert_eq!(find_project_root_with_projections(&probes), None);
}

#[test]
fn configuration_takes_priority_over_a_nearer_marker() {
    let probes = vec![
        probe("/p/sub/src", false, false),
        probe("/p/sub", false, true),
        probe("/p", true, true),
    ];
    assert_eq!(find_project_root(&probes), Some("/p".to_string()));
}

#[test]
fn nearer_configuration_wins() {
    let probes = vec![
        probe("/p/sub/src", false, false),
        probe("/p/sub", true, false),
        probe("/p", true, true),
    ];
    assert_eq!(find_project_root(&probes), Some("/p/sub".to_string()));
    assert_eq!(find_project_root_with_projections(&probes), Some("/p/sub".to_string()));
}

#[test]
fn no_root_without_configuration_or_marker() {
    let probes = vec![probe("/a/b", false, false), probe("/a", false, false)];
    assert_eq!(find_project_root(&probes), None);
    assert_eq!(find_project_root(&Vec::new()), None);
    assert_eq!(find_project_root_with_projections(&Vec::new()), None);
}

#[test]
fn configuration_paths_and_markers() {
    assert_eq!(CONFIG_PATHS, [".projections.json", ".zed/projections.json"]);
    assert_eq!(PROJECT_MARKERS.len(), 11);
    assert!(PROJECT_MARKERS.contains(&".git"));
    assert!(PROJECT_MARKERS.contains(&"Cargo.toml"));
}
