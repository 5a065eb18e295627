use domino::types::Project;
use domino::utils::{get_package_name_by_path, is_source_file, line_to_offset, offset_to_line_col};

#[test]
fn test_is_source_file() {
    // Source files
    assert!(is_source_file("index.ts"));
    assert!(is_source_file("component.tsx"));
    assert!(is_source_file("utils.js"));
    assert!(is_source_file("app.jsx"));
    assert!(is_source_file("path/to/file.ts"));

    // Non-source files
    assert!(!is_source_file("styles.css"));
    assert!(!is_source_file("template.html"));
    assert!(!is_source_file("config.json"));
    assert!(!is_source_file("image.png"));
    assert!(!is_source_file("data.yaml"));
    assert!(!is_source_file("no-extension"));
}

#[test]
fn test_line_to_offset() {
    let source = "line1\nline2\nline3\n";
    assert_eq!(line_to_offset(source, 0), Some(0));
    assert_eq!(line_to_offset(source, 1), Some(0));
    assert_eq!(line_to_offset(source, 2), Some(6)); // After "line1\n"
    assert_eq!(line_to_offset(source, 3), Some(12)); // After "line1\nline2\n"
}

#[test]
fn test_offset_to_line_col() {
    let source = "line1\nline2\nline3\n";
    assert_eq!(offset_to_line_col(source, 0), (1, 1));
    assert_eq!(offset_to_line_col(source, 5), (1, 6));
    assert_eq!(offset_to_line_col(source, 6), (2, 1)); // After newline
    assert_eq!(offset_to_line_col(source, 12), (3, 1));
}

#[test]
fn test_get_package_name_by_path() {
    let projects = vec![
        Project {
            name: "core".to_string(),
            source_root: "libs/core/src".into(),
            ts_config: None,
            implicit_dependencies: vec![],
            targets: vec![],
        },
        Project {
            name: "nx".to_string(),
            source_root: "libs/nx/src".into(),
            ts_config: None,
            implicit_dependencies: vec![],
            targets: vec![],
        },
    ];

    assert_eq!(
        get_package_name_by_path("libs/core/src/index.ts", &projects),
        Some("core".to_string())
    );

    assert_eq!(
        get_package_name_by_path("libs/nx/src/cli.ts", &projects),
        Some("nx".to_string())
    );

    assert_eq!(get_package_name_by_path("other/file.ts", &projects), None);
}

#[test]
fn source_file_needs_a_stem_before_the_dot() {
    assert!(!is_source_file(".ts"));
    assert!(!is_source_file("dir/.tsx"));
    assert!(is_source_file("dir/a.b.jsx"));
    assert!(!is_source_file("ts"));
    assert!(!is_source_file(""));
}

#[test]
fn owner_is_matched_by_whole_components() {
    let projects = vec![Project {
        name: "core".to_string(),
        source_root: "libs/core".into(),
        ts_config: None,
        implicit_dependencies: vec![],
        targets: vec![],
    }];
    assert_eq!(get_package_name_by_path("libs/core-extra/a.ts", &projects), None);
    assert_eq!(get_package_name_by_path("libs/core", &projects), Some("core".to_string()));
    assert_eq!(get_package_name_by_path("libs/core/a.ts", &projects), Some("core".to_string()));
}

fn rooted_at(source_root: &str) -> Vec<Project> {
    vec![Project {
        name: "core".to_string(),
        source_root: source_root.into(),
        ts_config: None,
        implicit_dependencies: vec![],
        targets: vec![],
    }]
}

#[test]
fn the_extension_is_that_of_the_last_component() {
    assert!(is_source_file("a.ts/"));
    assert!(is_source_file("dir/a.tsx//"));
    assert!(is_source_file("a.js/."));
    assert!(is_source_file("./a.jsx"));
    assert!(!is_source_file("a.ts/.."));
    assert!(!is_source_file("a.ts/b"));
    assert!(!is_source_file("a.ts/b.css"));
    assert!(!is_source_file("a."));
    assert!(!is_source_file("a.tsy"));
    assert!(!is_source_file("a.t"));
    assert!(!is_source_file("a.jsX"));
    assert!(!is_source_file(".."));
    assert!(!is_source_file("/"));
}

#[test]
fn owner_is_found_whatever_separates_the_components() {
    let core = Some("core".to_string());
    assert_eq!(get_package_name_by_path("libs/core/index.ts", &rooted_at("libs//core")), core);
    assert_eq!(get_package_name_by_path("libs/core", &rooted_at("libs/core/")), core);
    assert_eq!(get_package_name_by_path("libs/core/a.ts", &rooted_at("libs/./core/.")), core);
    assert_eq!(get_package_name_by_path("libs//core/./a.ts", &rooted_at("libs/core")), core);
    assert_eq!(get_package_name_by_path("/libs/core/a.ts", &rooted_at("/libs")), core);
    assert_eq!(get_package_name_by_path("anything/at/all.ts", &rooted_at("")), core);
    assert_eq!(get_package_name_by_path("./libs/a.ts", &rooted_at(".")), core);
}

#[test]
fn owner_is_not_found_where_a_component_differs() {
    assert_eq!(get_package_name_by_path("libs/a.ts", &rooted_at("/libs")), None);
    assert_eq!(get_package_name_by_path("/libs/a.ts", &rooted_at("libs")), None);
    assert_eq!(get_package_name_by_path("libs/a.ts", &rooted_at("./libs")), None);
    assert_eq!(get_package_name_by_path("libs/a.ts", &rooted_at(".")), None);
    assert_eq!(get_package_name_by_path("libs/../libs/a.ts", &rooted_at("libs/a.ts")), None);
    assert_eq!(get_package_name_by_path("libs", &rooted_at("libs/core")), None);
    assert_eq!(get_package_name_by_path("lib", &rooted_at("libs")), None);
}

#[test]
fn line_to_offset_drops_carriage_returns_and_stops_at_the_end() {
    assert_eq!(line_to_offset("a\r\nbc\r\nd", 2), Some(2));
    assert_eq!(line_to_offset("a\r\nbc\r\nd", 3), Some(5));
    assert_eq!(line_to_offset("a\nb", 3), Some(4));
    assert_eq!(line_to_offset("a\nb", 9), Some(4));
    assert_eq!(line_to_offset("", 5), Some(0));
}

#[test]
fn offset_to_line_col_counts_characters_not_bytes() {
    // "é" takes two bytes and one column.
    assert_eq!(offset_to_line_col("é=1\nx", 2), (1, 2));
    assert_eq!(offset_to_line_col("é=1\nx", 4), (1, 4));
    assert_eq!(offset_to_line_col("é=1\nx", 5), (2, 1));
    assert_eq!(offset_to_line_col("ab", 99), (1, 3));
}
