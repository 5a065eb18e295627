use domino::affected::{find_affected, process_changed_symbol};
use domino::dependencies::add_implicit_dependencies;
use domino::order::NameSet;
use domino::report::find_affected_with_report;
use domino::semantic::{FileSemanticData, WorkspaceAnalyzer};
use domino::types::{AffectCause, ChangedFile, Project};

fn project(name: &str, implicit: &[&str]) -> Project {
    Project {
        name: name.to_string(),
        source_root: name.to_string(),
        ts_config: None,
        implicit_dependencies: implicit.iter().map(|s| s.to_string()).collect(),
        targets: vec![],
    }
}

/// Resolves `@/x/y` to `x/y.ts`.
fn resolve(specifier: &str) -> Option<String> {
    specifier.strip_prefix("@/").map(|p| format!("{}.ts", p))
}

fn workspace(projects: Vec<Project>, sources: &[(&str, &str)]) -> WorkspaceAnalyzer {
    let mut files = Vec::new();
    for (path, source) in sources {
        let mut file = FileSemanticData::analyze_file(path, source);
        for import in file.imports.iter_mut() {
            import.resolved_file = resolve(&import.from_module);
        }
        for (k, export) in file.exports.iter().enumerate() {
            file.export_files[k] = export.re_export_from.as_deref().and_then(resolve);
        }
        files.push(file);
    }
    WorkspaceAnalyzer::new(projects, files)
}

fn change(path: &str, lines: &[usize]) -> ChangedFile {
    ChangedFile {
        file_path: path.to_string(),
        changed_lines: lines.to_vec(),
    }
}

fn affected(analyzer: &WorkspaceAnalyzer, changes: &[ChangedFile]) -> Vec<String> {
    find_affected(analyzer, &changes.to_vec()).affected_projects
}

#[test]
fn test_add_implicit_dependencies() {
    let projects = vec![
        Project {
            name: "app".to_string(),
            source_root: "apps/app".to_string(),
            ts_config: None,
            implicit_dependencies: vec!["lib1".to_string(), "lib2".to_string()],
            targets: vec![],
        },
        Project {
            name: "lib1".to_string(),
            source_root: "libs/lib1".to_string(),
            ts_config: None,
            implicit_dependencies: vec![],
            targets: vec![],
        },
        Project {
            name: "lib2".to_string(),
            source_root: "libs/lib2".to_string(),
            ts_config: None,
            implicit_dependencies: vec![],
            targets: vec![],
        },
    ];

    let mut affected = NameSet::new();
    affected.insert("lib1");

    add_implicit_dependencies(&projects, &mut affected);

    assert!(affected.contains("lib1"));
    assert!(affected.contains("app")); // Should be added as implicit dependent
    assert!(!affected.contains("lib2"));
}

#[test]
fn implicit_dependencies_are_followed_to_the_end() {
    let projects = vec![
        project("a", &[]),
        project("b", &["a"]),
        project("c", &["b"]),
        project("d", &["c", "zzz"]),
        project("e", &["e"]),
        project("f", &["g"]),
        project("g", &["f"]),
    ];
    let mut set = NameSet::new();
    set.insert("a");
    add_implicit_dependencies(&projects, &mut set);
    assert_eq!(set.names, vec!["a", "b", "c", "d"]);

    let mut set = NameSet::new();
    set.insert("g");
    set.insert("unknown");
    add_implicit_dependencies(&projects, &mut set);
    assert_eq!(set.names, vec!["f", "g", "unknown"]);

    let mut set = NameSet::new();
    add_implicit_dependencies(&projects, &mut set);
    assert!(set.names.is_empty());
}

#[test]
fn no_changed_files_affect_nothing() {
    let analyzer = workspace(
        vec![project("p", &[]), project("q", &["p"])],
        &[("p/a.ts", "export const a = 1;\n")],
    );
    assert!(affected(&analyzer, &[]).is_empty());
    let result = find_affected_with_report(&analyzer, &vec![]);
    assert!(result.affected_projects.is_empty());
    assert!(result.report.is_none());
}

#[test]
fn a_change_that_affects_nothing_still_has_a_report() {
    let analyzer = workspace(
        vec![project("p", &[]), project("q", &["p"])],
        &[("p/a.ts", "export const a = 1;\n")],
    );
    let result = find_affected_with_report(&analyzer, &vec![change("elsewhere/x.ts", &[1])]);
    assert!(result.affected_projects.is_empty());
    assert!(result.report.unwrap().projects.is_empty());
}

#[test]
fn a_change_reaches_the_importers_of_what_uses_it_after_long_characters() {
    let text = format!(
        "import {{ h }} from '@/lib/h';\nexport const a = \"{}\"; export const b = h;\n",
        "\u{e9}".repeat(40)
    );
    let analyzer = workspace(
        vec![project("lib", &[]), project("one", &[]), project("two", &[])],
        &[
            ("lib/h.ts", "export const h = 1;\n"),
            ("lib/m.ts", text.as_str()),
            ("one/x.ts", "import { a } from '@/lib/m';\na;\n"),
            ("two/y.ts", "import { b } from '@/lib/m';\nb;\n"),
        ],
    );
    assert_eq!(affected(&analyzer, &[change("lib/h.ts", &[1])]), vec!["lib", "two"]);
}

#[test]
fn a_changed_file_that_was_not_analysed_affects_its_project() {
    let analyzer = workspace(
        vec![project("p", &[]), project("q", &["p"]), project("r", &[])],
        &[("p/a.ts", "export const a = 1;\n")],
    );
    assert_eq!(affected(&analyzer, &[change("p/styles.css", &[3])]), vec!["p", "q"]);
    assert!(affected(&analyzer, &[change("elsewhere/x.ts", &[1])]).is_empty());
}

#[test]
fn the_same_input_gives_the_same_output() {
    let analyzer = workspace(
        vec![project("p", &[]), project("q", &[]), project("r", &["q"])],
        &[
            ("p/a.ts", "export function a() { return 1; }\n"),
            ("q/b.ts", "import { a } from '@/p/a';\nexport const b = a();\n"),
        ],
    );
    let changes = vec![change("p/a.ts", &[1])];
    let first = find_affected_with_report(&analyzer, &changes);
    let second = find_affected_with_report(&analyzer, &changes);
    assert_eq!(first.affected_projects, vec!["p", "q", "r"]);
    assert_eq!(first.affected_projects, second.affected_projects);
    assert_eq!(
        format!("{:?}", first.report.unwrap()),
        format!("{:?}", second.report.unwrap())
    );
}

#[test]
fn import_cycles_end() {
    let analyzer = workspace(
        vec![project("p", &[]), project("q", &[]), project("r", &[])],
        &[
            ("p/a.ts", "import { b } from '@/q/b';\nexport function a() { return b(); }\n"),
            ("q/b.ts", "import { a } from '@/p/a';\nexport function b() { return a(); }\nexport * from '@/p/a';\n"),
            ("r/c.ts", "export * from '@/q/b';\nexport * from '@/r/c';\n"),
        ],
    );
    assert_eq!(affected(&analyzer, &[change("p/a.ts", &[2])]), vec!["p", "q"]);
    assert_eq!(affected(&analyzer, &[change("q/b.ts", &[2])]), vec!["p", "q"]);
}

#[test]
fn more_changed_lines_never_affect_less() {
    let analyzer = workspace(
        vec![project("p", &[]), project("q", &[]), project("r", &[])],
        &[
            ("p/a.ts", "export function a() { return 1; }\nexport function lonely() { return 2; }\n"),
            ("q/b.ts", "import { a } from '@/p/a';\nexport const b = a();\n"),
            ("r/c.ts", "export const c = 1;\n"),
        ],
    );
    let less = affected(&analyzer, &[change("p/a.ts", &[2])]);
    let more = affected(&analyzer, &[change("p/a.ts", &[2, 1])]);
    let most = affected(&analyzer, &[change("p/a.ts", &[2, 1]), change("r/c.ts", &[1])]);
    assert_eq!(less, vec!["p"]);
    assert_eq!(more, vec!["p", "q"]);
    assert_eq!(most, vec!["p", "q", "r"]);
}

#[test]
fn dependents_of_affected_projects_are_affected() {
    let analyzer = workspace(
        vec![
            project("p", &[]),
            project("q", &[]),
            project("dep-on-q", &["q"]),
            project("dep-on-dep", &["dep-on-q"]),
            project("apart", &["zzz"]),
        ],
        &[
            ("p/a.ts", "export function a() { return 1; }\n"),
            ("q/b.ts", "import { a } from '@/p/a';\nexport const b = a();\n"),
        ],
    );
    assert_eq!(
        affected(&analyzer, &[change("p/a.ts", &[1])]),
        vec!["dep-on-dep", "dep-on-q", "p", "q"]
    );
}

#[test]
fn an_internal_change_stays_in_its_project() {
    let analyzer = workspace(
        vec![project("p", &[]), project("q", &[]), project("r", &["p"])],
        &[
            (
                "p/a.ts",
                "function hidden() {\n  return 1;\n}\nfunction alsoHidden() {\n  return hidden();\n}\nexport function shown() { return 2; }\n",
            ),
            ("q/b.ts", "import { shown } from '@/p/a';\nexport const b = shown();\n"),
        ],
    );
    assert_eq!(
        analyzer.find_node_at_line("p/a.ts", 2, 0).unwrap(),
        Some("hidden".to_string())
    );
    assert_eq!(affected(&analyzer, &[change("p/a.ts", &[2])]), vec!["p", "r"]);
    assert_eq!(affected(&analyzer, &[change("p/a.ts", &[5])]), vec!["p", "r"]);
    assert_eq!(affected(&analyzer, &[change("p/a.ts", &[7])]), vec!["p", "q", "r"]);
}

#[test]
fn a_helper_change_reaches_the_importers_of_the_export_that_uses_it() {
    let analyzer = workspace(
        vec![project("p", &[]), project("q", &[]), project("r", &[])],
        &[
            (
                "p/a.ts",
                "function helper() {\n  return 1;\n}\nfunction middle() { return helper(); }\nexport function shown() { return middle(); }\n",
            ),
            ("q/b.ts", "import { shown } from '@/p/a';\nexport const b = shown();\n"),
            ("r/c.ts", "import { b } from '@/q/b';\nexport const c = b;\n"),
        ],
    );
    assert_eq!(affected(&analyzer, &[change("p/a.ts", &[2])]), vec!["p", "q", "r"]);
    // The first line of a declaration that is not exported stands in no symbol.
    assert_eq!(affected(&analyzer, &[change("p/a.ts", &[1])]), vec!["p"]);
}

#[test]
fn a_re_export_hands_a_change_on() {
    let analyzer = workspace(
        vec![project("a", &[]), project("b", &[]), project("c", &[]), project("d", &[])],
        &[
            ("a/x.ts", "export function x() { return 1; }\nexport function other() { return 2; }\n"),
            ("b/index.ts", "export * from '@/a/x';\n"),
            ("c/use.ts", "import { x } from '@/b/index';\nexport const u = x();\n"),
            ("d/idle.ts", "import { x } from '@/b/index';\nexport const idle = 1;\n"),
        ],
    );
    assert_eq!(affected(&analyzer, &[change("a/x.ts", &[1])]), vec!["a", "c"]);
    assert_eq!(affected(&analyzer, &[change("a/x.ts", &[2])]), vec!["a"]);
}

#[test]
fn a_named_re_export_hands_a_change_on_under_its_new_name() {
    let analyzer = workspace(
        vec![project("a", &[]), project("b", &[]), project("c", &[])],
        &[
            ("a/x.ts", "export function x() { return 1; }\n"),
            ("b/index.ts", "export { x as y } from '@/a/x';\n"),
            ("c/use.ts", "import { y } from '@/b/index';\nexport const u = y();\n"),
        ],
    );
    assert_eq!(affected(&analyzer, &[change("a/x.ts", &[1])]), vec!["a", "c"]);
}

#[test]
fn a_dynamic_import_is_taken_to_use_everything() {
    let analyzer = workspace(
        vec![project("m", &[]), project("lazy", &[]), project("far", &[]), project("idle", &[])],
        &[
            ("m/mod.ts", "export function one() { return 1; }\nexport function two() { return 2; }\n"),
            (
                "lazy/load.ts",
                "export const load = () => import('@/m/mod').then(m => ({ default: m.one }));\nexport function unrelated() {}\n",
            ),
            ("far/use.ts", "import { unrelated } from '@/lazy/load';\nexport const u = unrelated();\n"),
            ("idle/none.ts", "const path = '@/m/mod';\nexport const later = () => import(path);\n"),
        ],
    );
    assert_eq!(affected(&analyzer, &[change("m/mod.ts", &[1])]), vec!["far", "lazy", "m"]);
    assert_eq!(affected(&analyzer, &[change("m/mod.ts", &[2])]), vec!["far", "lazy", "m"]);
    assert_eq!(affected(&analyzer, &[change("lazy/load.ts", &[1])]), vec!["lazy"]);
}

#[test]
fn process_changed_symbol_adds_to_what_is_marked() {
    let analyzer = workspace(
        vec![project("p", &[]), project("q", &[])],
        &[
            ("p/a.ts", "export function a() { return 1; }\n"),
            ("q/b.ts", "import { a } from '@/p/a';\nexport const b = a();\n"),
        ],
    );
    let mut set = NameSet::new();
    set.insert("before");
    process_changed_symbol(&analyzer, 0, "a", &mut set);
    assert_eq!(set.names, vec!["before", "p", "q"]);
    let mut set = NameSet::new();
    process_changed_symbol(&analyzer, 1, "nothing", &mut set);
    assert_eq!(set.names, vec!["q"]);
}

#[test]
fn the_report_gives_each_project_its_causes_in_order() {
    let analyzer = workspace(
        vec![project("p", &[]), project("q", &[]), project("r", &["p", "q"]), project("s", &[])],
        &[
            ("p/a.ts", "export function a() { return 1; }\n// note\n"),
            ("q/b.ts", "import { a } from '@/p/a';\nexport const b = a() + a();\n"),
        ],
    );
    let result = find_affected_with_report(
        &analyzer,
        &vec![change("p/a.ts", &[2, 1, 1]), change("s/readme.md", &[7])],
    );
    assert_eq!(result.affected_projects, vec!["p", "q", "r", "s"]);
    let report = result.report.unwrap();
    let names: Vec<_> = report.projects.iter().map(|p| p.name.as_str()).collect();
    assert_eq!(names, vec!["p", "q", "r", "s"]);

    let show = |c: &AffectCause| match c {
        AffectCause::DirectChange { file, symbol, line } => format!("direct {} {:?} {}", file, symbol, line),
        AffectCause::ImportedSymbol { source_project, symbol, via_file, source_file } => {
            format!("import {} {} {} {}", source_project, symbol, via_file, source_file)
        }
        AffectCause::ReExported { through_file, symbol, source_file } => {
            format!("reexport {} {} {}", through_file, symbol, source_file)
        }
        AffectCause::ImplicitDependency { depends_on } => format!("implicit {}", depends_on),
    };
    let causes = |i: usize| -> Vec<String> { report.projects[i].causes.iter().map(show).collect() };
    assert_eq!(
        causes(0),
        vec!["direct p/a.ts None 2", "direct p/a.ts Some(\"a\") 1"]
    );
    assert_eq!(causes(1), vec!["import p a q/b.ts p/a.ts"]);
    assert_eq!(causes(2), vec!["implicit p", "implicit q"]);
    assert_eq!(causes(3), vec!["direct s/readme.md None 7"]);
}

#[test]
fn the_plain_result_has_no_report() {
    let analyzer = workspace(vec![project("p", &[])], &[("p/a.ts", "export const a = 1;\n")]);
    let result = find_affected(&analyzer, &vec![change("p/a.ts", &[1])]);
    assert_eq!(result.affected_projects, vec!["p"]);
    assert!(result.report.is_none());
}

#[test]
fn a_change_of_a_type_reaches_the_files_that_name_it() {
    let analyzer = workspace(
        vec![project("p", &[]), project("q", &[]), project("r", &[])],
        &[
            (
                "p/a.ts",
                "export interface Options {\n  a: string;\n}\nexport type Alias = {\n  b: number;\n};\nexport enum Mode {\n  On,\n}\n",
            ),
            (
                "q/b.ts",
                "import type { Options } from '@/p/a';\nexport function make(): Options {\n  return { a: 'x' };\n}\n",
            ),
            (
                "r/c.ts",
                "import { Mode } from '@/p/a';\nexport const mode = Mode.On;\n",
            ),
        ],
    );
    assert_eq!(affected(&analyzer, &[change("p/a.ts", &[2])]), vec!["p", "q"]);
    assert_eq!(affected(&analyzer, &[change("p/a.ts", &[5])]), vec!["p"]);
    assert_eq!(affected(&analyzer, &[change("p/a.ts", &[8])]), vec!["p", "r"]);
}

#[test]
fn a_namespace_import_uses_every_symbol_of_the_module() {
    let analyzer = workspace(
        vec![project("p", &[]), project("q", &[]), project("idle", &[])],
        &[
            ("p/a.ts", "export function one() {\n  return 1;\n}\nfunction hidden() {\n  return 2;\n}\n"),
            ("q/b.ts", "import * as all from '@/p/a';\nexport const x = all.one();\n"),
            ("idle/c.ts", "import * as unused from '@/p/a';\nexport const y = 1;\n"),
        ],
    );
    assert_eq!(affected(&analyzer, &[change("p/a.ts", &[2])]), vec!["p", "q"]);
    assert_eq!(affected(&analyzer, &[change("p/a.ts", &[5])]), vec!["p", "q"]);
}
