use domino::render::{affect_kind, graph_edges, sanitize_node_id, AffectKind, EdgeKind};
use domino::text::occurs;
use domino::types::{AffectCause, AffectedProjectInfo, AffectedReport};
use domino::utils::skips_entry;
use domino::workspace::nx::{project_from_workspace, NxProjectJson, NxTarget};

fn direct(file: &str, line: usize) -> AffectCause {
    AffectCause::DirectChange { file: file.to_string(), symbol: None, line }
}

fn imported(from: &str, symbol: &str) -> AffectCause {
    AffectCause::ImportedSymbol {
        source_project: from.to_string(),
        symbol: symbol.to_string(),
        via_file: "user.ts".to_string(),
        source_file: "source.ts".to_string(),
    }
}

fn implicit(on: &str) -> AffectCause {
    AffectCause::ImplicitDependency { depends_on: on.to_string() }
}

fn info(name: &str, causes: Vec<AffectCause>) -> AffectedProjectInfo {
    AffectedProjectInfo { name: name.to_string(), causes }
}

#[test]
fn a_project_is_direct_affected_or_both() {
    assert_eq!(affect_kind(&info("p", vec![direct("a.ts", 1)])), AffectKind::Direct);
    assert_eq!(affect_kind(&info("p", vec![imported("q", "x")])), AffectKind::Affected);
    assert_eq!(affect_kind(&info("p", vec![implicit("q")])), AffectKind::Affected);
    assert_eq!(affect_kind(&info("p", vec![implicit("q"), direct("a.ts", 1)])), AffectKind::Direct);
    assert_eq!(
        affect_kind(&info("p", vec![imported("q", "x"), implicit("q"), direct("a.ts", 1)])),
        AffectKind::Both
    );
    assert_eq!(affect_kind(&info("p", vec![])), AffectKind::Affected);
}

#[test]
fn node_ids_have_no_signs() {
    assert_eq!(sanitize_node_id("@scope/my-lib"), "scope_my_lib");
    assert_eq!(sanitize_node_id("plain"), "plain");
    assert_eq!(sanitize_node_id("@@--//"), "____");
    assert_eq!(sanitize_node_id(""), "");
}

#[test]
fn the_graph_has_one_edge_for_each_pair_of_projects() {
    let report = AffectedReport {
        projects: vec![
            info("a", vec![direct("a.ts", 1)]),
            info(
                "b",
                vec![imported("a", "x"), imported("c", "z"), imported("a", "y"), implicit("c"), implicit("d")],
            ),
            info("c", vec![imported("a", "x")]),
        ],
    };
    let edges = graph_edges(&report);
    let seen: Vec<_> = edges
        .iter()
        .map(|e| (e.source.as_str(), e.target.as_str(), e.kind))
        .collect();
    assert_eq!(
        seen,
        vec![
            ("a", "b", EdgeKind::Imports(2)),
            ("c", "b", EdgeKind::Implicit),
            ("d", "b", EdgeKind::Implicit),
            ("a", "c", EdgeKind::Imports(1)),
        ]
    );
    assert!(graph_edges(&AffectedReport { projects: vec![] }).is_empty());
}

#[test]
fn dependency_and_output_directories_are_passed_over() {
    assert!(skips_entry("node_modules"));
    assert!(skips_entry("dist"));
    assert!(skips_entry("build"));
    assert!(skips_entry(".git"));
    assert!(skips_entry("."));
    assert!(!skips_entry("src"));
    assert!(!skips_entry("builds"));
    assert!(!skips_entry("a.ts"));
    assert!(!skips_entry(""));
}

#[test]
fn occurs_finds_a_part_anywhere() {
    let chars = |s: &str| s.chars().collect::<Vec<char>>();
    assert!(occurs(&chars("bc"), &chars("abcd")));
    assert!(occurs(&chars("abcd"), &chars("abcd")));
    assert!(occurs(&chars(""), &chars("")));
    assert!(occurs(&chars("d"), &chars("abcd")));
    assert!(!occurs(&chars("bd"), &chars("abcd")));
    assert!(!occurs(&chars("abcde"), &chars("abcd")));
}

#[test]
fn a_listed_project_takes_its_root_from_its_name() {
    let manifest = NxProjectJson {
        name: Some("ignored".to_string()),
        source_root: None,
        project_type: None,
        implicit_dependencies: vec!["core".to_string()],
        targets: Some(vec![NxTarget { name: "lint".to_string(), ts_config: None }]),
    };
    let project = project_from_workspace("apps/web", &manifest, "/this-directory-does-not-exist-anywhere");
    assert_eq!(project.name, "apps/web");
    assert_eq!(project.source_root, "apps/web");
    assert_eq!(project.ts_config, None);
    assert_eq!(project.implicit_dependencies, vec!["core"]);
    assert_eq!(project.targets, vec!["lint"]);
    assert!(domino::workspace::workspaces::is_excluded("/ws/node_modules/x/package.json"));
    assert!(!domino::workspace::workspaces::is_excluded("/ws/packages/x/package.json"));
}
