use domino::resolver::{
    candidates_for, choose_candidate, is_relative, resolve_modules, settle_resolution, ModuleResolver,
};
use domino::semantic::assets::{path_resolves_to, split_lines, AssetReferenceFinder};
use domino::semantic::analyzer::SourceText;
use domino::semantic::{FileSemanticData, WorkspaceAnalyzer};
use domino::types::Project;
use domino::workspace::nx::{
    choose_ts_config, config_dir, get_projects, is_excluded, parse_project_json, NxProjectJson, NxTarget,
};
use domino::workspace::workspaces::{
    get_workspace_patterns, is_negated, is_workspace, package_pattern, project_from_package,
};
use domino::workspace::{discover_projects, workspace_kind, WorkspaceKind};

const NOWHERE: &str = "/this-directory-does-not-exist-anywhere";

#[test]
fn candidates_add_to_the_specifier_and_never_replace() {
    assert_eq!(
        candidates_for("libs/theme", "./colors.css"),
        vec![
            "libs/theme/colors.css.ts",
            "libs/theme/colors.css.tsx",
            "libs/theme/colors.css.js",
            "libs/theme/colors.css.jsx",
            "libs/theme/colors.css/index.ts",
            "libs/theme/colors.css/index.js",
        ]
    );
    assert_eq!(candidates_for("src/ui", "../utils")[0], "src/utils.ts");
    assert_eq!(candidates_for("", "./components")[4], "components/index.ts");
}

#[test]
fn the_first_candidate_that_exists_is_chosen() {
    let candidates: Vec<String> = ["a.ts", "a.tsx", "a.js"].iter().map(|s| s.to_string()).collect();
    assert_eq!(choose_candidate(&candidates, &vec![false, true, true]), Some("a.tsx".to_string()));
    assert_eq!(choose_candidate(&candidates, &vec![true, true, true]), Some("a.ts".to_string()));
    assert_eq!(choose_candidate(&candidates, &vec![false, false, false]), None);
    assert_eq!(choose_candidate(&candidates, &vec![]), None);
    assert_eq!(choose_candidate(&candidates, &vec![false, false, false, true]), None);
}

#[test]
fn a_resolution_is_settled_inside_the_workspace() {
    assert_eq!(
        settle_resolution(Some("/ws/libs/a.ts".to_string()), "/ws", Some("x.ts".to_string())),
        Some("libs/a.ts".to_string())
    );
    assert_eq!(
        settle_resolution(Some("/elsewhere/a.ts".to_string()), "/ws", Some("x.ts".to_string())),
        None
    );
    assert_eq!(settle_resolution(None, "/ws", Some("x.ts".to_string())), Some("x.ts".to_string()));
    assert_eq!(settle_resolution(None, "/ws", None), None);
}

#[test]
fn only_specifiers_that_start_with_a_dot_are_relative() {
    assert!(is_relative("./a"));
    assert!(is_relative("../a"));
    assert!(is_relative(".hidden"));
    assert!(!is_relative("@scope/pkg"));
    assert!(!is_relative("lodash"));
    assert!(!is_relative(""));
}

#[test]
fn what_resolves_to_nothing_is_remembered_too() {
    let mut resolver = ModuleResolver::new(NOWHERE);
    assert_eq!(resolver.cwd, NOWHERE);
    assert!(resolver.cache.is_empty());
    assert_eq!(resolver.simple_resolve("src", "pkg"), None);
    assert_eq!(resolver.simple_resolve("src", "./missing"), None);
    assert_eq!(resolver.resolve_import("src/a.ts", "./missing"), None);
    assert_eq!(resolver.cache.len(), 1);
    assert_eq!(resolver.cache[0].from_file, "src/a.ts");
    assert_eq!(resolver.cache[0].specifier, "./missing");
    assert_eq!(resolver.cache[0].resolved, None);
    assert_eq!(resolver.resolve_import("src/a.ts", "./missing"), None);
    assert_eq!(resolver.cache.len(), 1);
    assert_eq!(resolver.resolve_import("src/b.ts", "./missing"), None);
    assert_eq!(resolver.resolve_import("", "./missing"), None);
    assert_eq!(resolver.cache.len(), 3);
}

#[test]
fn a_remembered_resolution_is_answered_from_memory() {
    let mut resolver = ModuleResolver::new(NOWHERE);
    resolver.cache.push(domino::resolver::CachedResolution {
        from_file: "src/a.ts".to_string(),
        specifier: "./b".to_string(),
        resolved: Some("src/b.ts".to_string()),
    });
    assert_eq!(resolver.resolve_import("src/a.ts", "./b"), Some("src/b.ts".to_string()));
    assert_eq!(resolver.cache.len(), 1);
}

#[test]
fn the_resolver_counts_its_resolutions_while_switched_on() {
    let mut resolver = ModuleResolver::new(NOWHERE);
    assert!(!resolver.profiler.is_enabled());
    resolver.resolve_import("src/a.ts", "./missing");
    assert_eq!(resolver.profiler.stats().resolution_calls, 0);

    resolver.profiler = domino::profiler::Profiler::new(true);
    resolver.resolve_import("src/a.ts", "./missing");
    resolver.resolve_import("src/a.ts", "./other");
    resolver.resolve_import("src/a.ts", "./other");
    let stats = resolver.profiler.stats();
    assert_eq!(stats.resolution_calls, 3);
    assert_eq!(stats.resolution_cache_hits, 2);
    assert_eq!(stats.reference_lookups, 0);
    assert_eq!(stats.symbol_extractions, 0);
}

#[test]
fn resolving_modules_keeps_everything_but_the_resolutions() {
    let mut files = vec![FileSemanticData::analyze_file(
        "src/a.ts",
        "import { b } from './b';\nimport { c } from './c';\nexport * from './d';\nexport const a = 1;\n",
    )];
    files[0].imports[1].resolved_file = Some("kept.ts".to_string());
    let mut resolver = ModuleResolver::new(NOWHERE);
    resolve_modules(&mut files, &mut resolver);
    assert_eq!(files.len(), 1);
    assert_eq!(files[0].path, "src/a.ts");
    assert_eq!(files[0].imports.len(), 2);
    assert_eq!(files[0].imports[0].local_name, "b");
    assert_eq!(files[0].imports[0].resolved_file, None);
    assert_eq!(files[0].imports[1].resolved_file, Some("kept.ts".to_string()));
    assert_eq!(files[0].exports.len(), 2);
    assert_eq!(files[0].export_files, vec![None, None]);
    let asked: Vec<_> = resolver.cache.iter().map(|c| c.specifier.as_str()).collect();
    assert_eq!(asked, vec!["./b", "./d"]);
}

#[test]
fn the_kind_of_a_workspace_goes_by_rank() {
    assert_eq!(workspace_kind(true, true, true), WorkspaceKind::Nx);
    assert_eq!(workspace_kind(false, true, true), WorkspaceKind::Turbo);
    assert_eq!(workspace_kind(false, false, true), WorkspaceKind::Packages);
    assert_eq!(workspace_kind(false, false, false), WorkspaceKind::Unknown);
    assert!(is_workspace(NOWHERE, true));
    assert!(!is_workspace(NOWHERE, false));
    assert!(!domino::workspace::nx::is_nx_workspace(NOWHERE));
    assert!(!domino::workspace::turbo::is_turbo_workspace(NOWHERE));
}

fn named(name: &str) -> Project {
    Project {
        name: name.to_string(),
        source_root: format!("libs/{}", name),
        ts_config: None,
        implicit_dependencies: vec![],
        targets: vec![],
    }
}

#[test]
fn projects_are_taken_from_the_tool_that_leads() {
    let names = |v: Vec<Project>| v.into_iter().map(|p| p.name).collect::<Vec<_>>();
    assert_eq!(
        names(discover_projects(WorkspaceKind::Nx, vec![named("n")], vec![named("p")])),
        vec!["n"]
    );
    assert_eq!(
        names(discover_projects(WorkspaceKind::Turbo, vec![named("n")], vec![named("p")])),
        vec!["p"]
    );
    assert_eq!(
        names(discover_projects(WorkspaceKind::Packages, vec![named("n")], vec![named("p")])),
        vec!["p"]
    );
    assert!(discover_projects(WorkspaceKind::Unknown, vec![named("n")], vec![named("p")]).is_empty());
}

#[test]
fn nx_projects_are_told_apart_by_name() {
    let merged = get_projects(
        vec![named("a"), named("b")],
        vec![named("b"), named("c"), named("c"), named("a")],
    );
    let names: Vec<_> = merged.iter().map(|p| p.name.as_str()).collect();
    assert_eq!(names, vec!["a", "b", "c", "c"]);
}

fn manifest() -> NxProjectJson {
    NxProjectJson {
        name: None,
        source_root: None,
        project_type: None,
        implicit_dependencies: vec!["core".to_string()],
        targets: None,
    }
}

#[test]
fn a_project_takes_name_and_root_from_its_directory() {
    let project = parse_project_json(&manifest(), "/ws/libs/ui/project.json", "/ws").unwrap();
    assert_eq!(project.name, "ui");
    assert_eq!(project.source_root, "libs/ui");
    assert_eq!(project.ts_config, None);
    assert_eq!(project.implicit_dependencies, vec!["core"]);
    assert!(project.targets.is_empty());

    let mut given = manifest();
    given.name = Some("design".to_string());
    given.source_root = Some("libs/ui/src".to_string());
    given.targets = Some(vec![
        NxTarget { name: "test".to_string(), ts_config: Some("ignored.json".to_string()) },
        NxTarget { name: "build".to_string(), ts_config: Some("libs/ui/tsconfig.lib.json".to_string()) },
    ]);
    let project = parse_project_json(&given, "/ws/libs/ui/project.json", "/ws").unwrap();
    assert_eq!(project.name, "design");
    assert_eq!(project.source_root, "libs/ui/src");
    assert_eq!(project.ts_config, Some("/ws/libs/ui/tsconfig.lib.json".to_string()));
    assert_eq!(project.targets, vec!["test", "build"]);

    assert!(parse_project_json(&manifest(), "", "/ws").is_none());
    assert_eq!(parse_project_json(&manifest(), "/project.json", "/ws").unwrap().name, "unknown");
}

#[test]
fn the_type_check_configuration_goes_by_what_exists() {
    let mut library = manifest();
    library.project_type = Some("library".to_string());
    let pick = |m: &NxProjectJson, root: bool, conventional: bool, plain: bool| {
        choose_ts_config(m, "libs/ui", "libs/ui/src", "/ws", root, conventional, plain)
    };
    assert_eq!(pick(&library, true, true, true), Some("libs/ui/tsconfig.lib.json".to_string()));
    assert_eq!(pick(&manifest(), true, true, true), Some("libs/ui/tsconfig.app.json".to_string()));
    assert_eq!(pick(&library, true, false, true), Some("libs/ui/tsconfig.json".to_string()));
    assert_eq!(pick(&library, false, false, false), None);
    assert_eq!(config_dir("libs/ui", "libs/ui/deep/src", true), "libs/ui/deep");
    assert_eq!(config_dir("libs/ui", "libs/ui/deep/src", false), "libs/ui");
    let mut build = manifest();
    build.targets = Some(vec![NxTarget { name: "build".to_string(), ts_config: None }]);
    assert_eq!(pick(&build, true, false, true), Some("libs/ui/tsconfig.json".to_string()));
}

#[test]
fn dependency_and_fixture_directories_are_left_out() {
    assert!(is_excluded("/ws/node_modules/pkg/project.json"));
    assert!(is_excluded("/ws/libs/__fixtures__/x/project.json"));
    assert!(is_excluded("node_modules"));
    assert!(!is_excluded("/ws/libs/ui/project.json"));
    assert!(!is_excluded("/ws/node_module/project.json"));
    assert!(!is_excluded(""));
}

#[test]
fn workspace_patterns_come_from_pnpm_first() {
    let list = |v: &[&str]| Some(v.iter().map(|s| s.to_string()).collect::<Vec<_>>());
    assert_eq!(get_workspace_patterns(list(&["a/*"]), list(&["b/*"])), vec!["a/*"]);
    assert_eq!(get_workspace_patterns(None, list(&["b/*"])), vec!["b/*"]);
    assert!(get_workspace_patterns(None, None).is_empty());
    assert!(is_negated("!packages/private"));
    assert!(!is_negated("packages/*"));
    assert!(!is_negated(""));
    assert_eq!(package_pattern("/ws", "packages/*"), "/ws/packages/*/package.json");
}

#[test]
fn a_package_is_rooted_at_its_directory() {
    let project = project_from_package("@scope/ui", "/ws/packages/ui/package.json", "/ws").unwrap();
    assert_eq!(project.name, "@scope/ui");
    assert_eq!(project.source_root, "/ws/packages/ui");
    let project = project_from_package("ui", "ws/packages/ui/package.json", "ws").unwrap();
    assert_eq!(project.source_root, "packages/ui");
    let project = project_from_package("ui", "other/ui/package.json", "ws").unwrap();
    assert_eq!(project.source_root, "other/ui");
    assert!(project_from_package("ui", "", "ws").is_none());
}

#[test]
fn lines_end_at_line_feeds() {
    assert_eq!(split_lines("a\nb\r\nc"), vec!["a", "b", "c"]);
    assert_eq!(split_lines("a\n\nb\n"), vec!["a", "", "b"]);
    assert_eq!(split_lines("\r\n"), vec![""]);
    assert_eq!(split_lines("a\r"), vec!["a\r"]);
    assert_eq!(split_lines(""), Vec::<String>::new());
}

#[test]
fn assets_are_found_by_quoted_paths_that_lead_to_them() {
    let finder = AssetReferenceFinder::new("/ws");
    assert_eq!(finder.get_or_create_pattern("a.b+c"), "['\"`]([^'\"`]*a\\.b\\+c)['\"`]");

    let content = "@Component({\n  templateUrl: './hero.html',\n})\nexport class HeroComponent {}\n";
    let refs = finder.search_file("/ws/src/components/hero.component.ts", content, "src/components/hero.html");
    assert_eq!(refs.len(), 1);
    assert_eq!(refs[0].source_file, "src/components/hero.component.ts");
    assert_eq!(refs[0].line, 2);
    assert_eq!(refs[0].column, 16);
    assert_eq!(refs[0].matched_path, "./hero.html");

    let content = "import \"./styles.css\";\nexport function Button() {}\n";
    let refs = finder.search_file("src/components/button.ts", content, "src/components/styles.css");
    assert_eq!(refs.len(), 1);
    assert_eq!(refs[0].line, 1);
    assert_eq!(refs[0].matched_path, "./styles.css");
    let refs = finder.search_file("src/components/button.ts", content, "src/components/other-styles.css");
    assert!(refs.is_empty());
    let refs = finder.search_file("src/other/button.ts", content, "src/components/styles.css");
    assert!(refs.is_empty());

    let content = "const template = `./config.json`;";
    assert_eq!(finder.search_file("src/components/app.ts", content, "src/components/config.json").len(), 1);

    let content = "const logo = require('../assets/logo.png');\n";
    let refs = finder.search_file("src/components/header.ts", content, "src/assets/logo.png");
    assert_eq!(refs.len(), 1);
    assert_eq!(refs[0].matched_path, "../assets/logo.png");

    let content = "import './theme.css';\nconst themePath = './theme.css';\nrequire('./theme.css');\n";
    let refs = finder.search_file("src/components/app.ts", content, "src/components/theme.css");
    let lines: Vec<_> = refs.iter().map(|r| r.line).collect();
    assert_eq!(lines, vec![1, 2, 3]);
}

#[test]
fn a_written_path_is_read_from_the_directory_of_its_file_under_the_root() {
    assert!(path_resolves_to("/ws", "/ws/src/a.ts", "./logo.png", "src/logo.png"));
    assert!(path_resolves_to("/ws", "src/a.ts", "./logo.png", "src/logo.png"));
    assert!(path_resolves_to("/ws", "src/a.ts", "../src/./logo.png", "src//logo.png"));
    assert!(path_resolves_to("/ws", "a.ts", "logo.png", "logo.png"));
    assert!(path_resolves_to("/ws", "/ws/a.ts", "../ws/logo.png", "logo.png"));
    assert!(!path_resolves_to("/ws", "a.ts", "../../../ws/logo.png", "logo.png"));
    assert!(path_resolves_to("", "src/a.ts", "../logo.png", "logo.png"));
    assert!(!path_resolves_to("/ws", "/ws/src/a.ts", "./logo.png", "logo.png"));
    assert!(!path_resolves_to("/ws", "/other/src/a.ts", "./logo.png", "src/logo.png"));
    assert!(!path_resolves_to("/ws", "src/a.ts", "./Logo.png", "src/logo.png"));
}

#[test]
fn a_reference_names_its_file_below_the_root() {
    let finder = AssetReferenceFinder::new("/ws");
    let content = "import './theme.css';\n";
    let refs = finder.search_file("/ws/src//app.ts", content, "src/theme.css");
    assert_eq!(refs.len(), 1);
    assert_eq!(refs[0].source_file, "src//app.ts");
    let refs = finder.search_file("src/app.ts", content, "src/theme.css");
    assert_eq!(refs[0].source_file, "src/app.ts");
    assert!(finder.search_file("/ws/src/app.ts", content, "src/").is_empty());
    assert!(finder.search_file("/ws/src/app.ts", content, "..").is_empty());
}

#[test]
fn a_workspace_is_analysed_from_the_texts_of_its_files() {
    let sources = vec![
        SourceText { path: "p/a.ts".to_string(), text: "export const a = 1;\n".to_string() },
        SourceText { path: "p/b.ts".to_string(), text: "import { a } from './a';\nexport const b = a;\n".to_string() },
    ];
    let mut resolver = ModuleResolver::new(NOWHERE);
    let analyzer = WorkspaceAnalyzer::analyze_workspace(vec![named("p")], &sources, &mut resolver);
    assert!(analyzer.is_well_formed());
    assert_eq!(analyzer.projects.len(), 1);
    let paths: Vec<_> = analyzer.files.iter().map(|f| f.path.as_str()).collect();
    assert_eq!(paths, vec!["p/a.ts", "p/b.ts"]);
    assert_eq!(analyzer.files[1].source, "import { a } from './a';\nexport const b = a;\n");
    assert_eq!(analyzer.files[1].imports.len(), 1);
    assert_eq!(analyzer.files[1].imports[0].resolved_file, None);
    assert_eq!(analyzer.import_index, vec![vec![], vec![]]);
    assert_eq!(resolver.cache.len(), 1);
}
