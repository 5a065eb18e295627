use domino::extract::{extract_exports, extract_imports};
use domino::semantic::reference_finder::cross_file_sites;
use domino::semantic::{FileSemanticData, ReferenceFinder, WorkspaceAnalyzer};
use domino::syntax::parse_module;
use domino::types::{Export, Project, Reference};

fn project(name: &str, implicit: &[&str]) -> Project {
    Project {
        name: name.to_string(),
        source_root: name.to_string(),
        ts_config: None,
        implicit_dependencies: implicit.iter().map(|s| s.to_string()).collect(),
        targets: vec![],
    }
}

/// Resolves `./x` next to the importing file, as `x.ts`.
fn resolve(from: &str, specifier: &str) -> Option<String> {
    let name = specifier.strip_prefix("./")?;
    let dir = from.rsplit_once('/').map(|(d, _)| d).unwrap_or("");
    Some(if dir.is_empty() {
        format!("{}.ts", name)
    } else {
        format!("{}/{}.ts", dir, name)
    })
}

fn workspace(projects: Vec<Project>, sources: &[(&str, &str)]) -> WorkspaceAnalyzer {
    let mut files = Vec::new();
    for (path, source) in sources {
        let mut file = FileSemanticData::analyze_file(path, source);
        for import in file.imports.iter_mut() {
            import.resolved_file = resolve(path, &import.from_module);
        }
        for (k, export) in file.exports.iter().enumerate() {
            file.export_files[k] = export
                .re_export_from
                .as_deref()
                .and_then(|m| resolve(path, m));
        }
        files.push(file);
    }
    WorkspaceAnalyzer::new(projects, files)
}

fn places(refs: &[Reference]) -> Vec<(String, usize, usize)> {
    let mut out: Vec<_> = refs
        .iter()
        .map(|r| (r.file_path.clone(), r.line, r.column))
        .collect();
    out.sort();
    out.dedup();
    out
}

fn export_triples(exports: &[Export]) -> Vec<(String, Option<String>, Option<String>)> {
    exports
        .iter()
        .map(|e| {
            (
                e.exported_name.clone(),
                e.local_name.clone(),
                e.re_export_from.clone(),
            )
        })
        .collect()
}

#[test]
fn exports_are_read_in_document_order() {
    let source = r#"export const a = 1, b = 2;
export const { c, d } = obj;
export function f() {}
export class K {}
export interface I {}
export { f as g, a };
export { x as y } from './other';
export * from './all';
export default function named() {}
namespace N { export const hidden = 1; }
"#;
    let exports = extract_exports(&parse_module(source, "m.ts").nodes);
    assert_eq!(
        export_triples(&exports),
        vec![
            ("a".to_string(), None, None),
            ("b".to_string(), None, None),
            ("f".to_string(), None, None),
            ("K".to_string(), None, None),
            ("g".to_string(), Some("f".to_string()), None),
            ("a".to_string(), Some("a".to_string()), None),
            ("y".to_string(), Some("x".to_string()), Some("./other".to_string())),
            ("*".to_string(), None, Some("./all".to_string())),
            ("default".to_string(), None, None),
        ]
    );
}

#[test]
fn imports_carry_names_and_type_flags() {
    let source = r#"import def, { a as b, type T } from './m';
import type { U } from './types';
import * as ns from './ns';
const lazy = () => import('./lazy');
"#;
    let imports = extract_imports(&parse_module(source, "m.ts").nodes);
    let seen: Vec<_> = imports
        .iter()
        .map(|i| {
            (
                i.imported_name.as_str(),
                i.local_name.as_str(),
                i.from_module.as_str(),
                i.is_type_only,
                i.is_dynamic,
            )
        })
        .collect();
    assert_eq!(
        seen,
        vec![
            ("default", "def", "./m", false, false),
            ("a", "b", "./m", false, false),
            ("T", "T", "./m", true, false),
            ("U", "U", "./types", true, false),
            ("*", "ns", "./ns", false, false),
            ("*", "__dynamic_import_0", "./lazy", false, true),
        ]
    );
    assert!(imports.iter().all(|i| i.resolved_file.is_none()));
}

#[test]
fn dynamic_imports_are_numbered_from_zero() {
    let mut source = String::new();
    for i in 0..12 {
        source.push_str(&format!("import('./m{}');\n", i));
    }
    let imports = extract_imports(&parse_module(&source, "m.ts").nodes);
    assert_eq!(imports.len(), 12);
    assert_eq!(imports[0].local_name, "__dynamic_import_0");
    assert_eq!(imports[9].local_name, "__dynamic_import_9");
    assert_eq!(imports[10].local_name, "__dynamic_import_10");
    assert_eq!(imports[11].local_name, "__dynamic_import_11");
}

#[test]
fn local_references_give_line_and_column_of_each_use() {
    let source = "const a = 1;\nfunction f() { return a + a; }\nconst b = a;\n";
    let analyzer = workspace(vec![], &[("m.ts", source)]);
    let refs = analyzer.find_local_references("m.ts", "a").unwrap();
    assert_eq!(
        places(&refs),
        vec![
            ("m.ts".to_string(), 2, 23),
            ("m.ts".to_string(), 2, 27),
            ("m.ts".to_string(), 3, 11),
        ]
    );
    assert!(analyzer.find_local_references("m.ts", "nothing").unwrap().is_empty());
}

#[test]
fn a_file_is_found_whatever_separates_the_components_of_its_path() {
    let analyzer = workspace(vec![], &[("src/m.ts", "export const a = 1;\na;\n")]);
    assert_eq!(analyzer.file_index("src//m.ts"), Some(0));
    assert_eq!(analyzer.file_index("src/./m.ts/"), Some(0));
    assert_eq!(analyzer.file_index("./src/m.ts"), None);
    assert_eq!(analyzer.file_index("/src/m.ts"), None);
    assert_eq!(analyzer.file_index("src/m.tsx"), None);
    assert!(analyzer.is_symbol_exported("src//m.ts", "a"));
}

#[test]
fn a_path_that_is_no_file_is_an_error() {
    let analyzer = workspace(vec![], &[("m.ts", "export const a = 1;")]);
    let missing = analyzer.find_local_references("other.ts", "a");
    assert_eq!(missing.unwrap_err().message(), "File not found: other.ts");
    let missing = analyzer.find_node_at_line("other.ts", 1, 0);
    assert_eq!(missing.unwrap_err().message(), "File not found: other.ts");
    assert!(!analyzer.is_symbol_exported("other.ts", "a"));
    assert!(analyzer.find_exported_symbols_using("other.ts", "a").unwrap().is_empty());
}

#[test]
fn exported_symbols_are_found_by_either_name() {
    let source = "const inner = 1;\nexport { inner as outer };\nexport function f() {}\nconst hidden = 2;\n";
    let analyzer = workspace(vec![], &[("m.ts", source)]);
    assert!(analyzer.is_symbol_exported("m.ts", "inner"));
    assert!(analyzer.is_symbol_exported("m.ts", "outer"));
    assert!(analyzer.is_symbol_exported("m.ts", "f"));
    assert!(!analyzer.is_symbol_exported("m.ts", "hidden"));
}

#[test]
fn exported_symbols_using_a_helper_are_found() {
    let source = r#"function helper() { return 1; }
export function usesIt() { return helper(); }
export function doesNot() { return 2; }
function alsoUses() { return helper(); }
export const viaConst = helper();
export { helper as renamed };
"#;
    let analyzer = workspace(vec![], &[("m.ts", source)]);
    assert_eq!(
        analyzer.find_exported_symbols_using("m.ts", "helper").unwrap(),
        vec!["usesIt", "viaConst"]
    );
    assert!(analyzer.find_exported_symbols_using("m.ts", "doesNot").unwrap().is_empty());
}

#[test]
fn a_use_at_the_last_byte_of_a_declaration_stands_inside_it() {
    let source = "const h = 1;\nexport const a = h\nexport const b = 2\n";
    let analyzer = workspace(vec![], &[("m.ts", source)]);
    assert_eq!(analyzer.find_exported_symbols_using("m.ts", "h").unwrap(), vec!["a"]);
}

#[test]
fn a_use_after_characters_of_several_bytes_stands_in_its_own_symbol() {
    let source = format!(
        "const h = 1;\nexport const a = \"{}\"; export const b = h;\n",
        "\u{e9}".repeat(40)
    );
    let analyzer = workspace(vec![], &[("m.ts", source.as_str())]);
    assert_eq!(analyzer.find_exported_symbols_using("m.ts", "h").unwrap(), vec!["b"]);
}

#[test]
fn a_use_after_a_carriage_return_stands_in_its_own_symbol() {
    let source = "const h = 1;\r\nexport const a = 0; export const b = h\r\nexport const c = 2;\r\n";
    let analyzer = workspace(vec![], &[("m.ts", source)]);
    assert_eq!(analyzer.find_exported_symbols_using("m.ts", "h").unwrap(), vec!["b"]);
}

#[test]
fn the_symbol_at_a_line_is_the_outermost_declaration() {
    let source = r#"function outer() {
  function inner() {
    return 1;
  }
  return inner();
}
// a comment
interface Shape { side: number }
type Alias = Shape;
enum Colour { Red }
class Box { size() { return 1; } }
"#;
    let analyzer = workspace(vec![], &[("m.ts", source)]);
    let at = |line, column| analyzer.find_node_at_line("m.ts", line, column).unwrap();
    assert_eq!(at(3, 4), Some("outer".to_string()));
    assert_eq!(at(1, 0), None);
    assert_eq!(at(7, 0), None);
    assert_eq!(at(8, 18), Some("Shape".to_string()));
    assert_eq!(at(9, 13), Some("Alias".to_string()));
    assert_eq!(at(10, 14), Some("Colour".to_string()));
    assert_eq!(at(11, 12), Some("Box".to_string()));
    assert_eq!(at(99, 0), None);
    assert_eq!(at(3, usize::MAX), None);
}

#[test]
fn cross_file_references_follow_imports_and_barrels() {
    let analyzer = workspace(
        vec![],
        &[
            ("a.ts", "export function shared() { return 1; }\n"),
            ("barrel.ts", "export * from './a';\n"),
            ("named.ts", "export { shared as again } from './a';\n"),
            ("direct.ts", "import { shared } from './a';\nshared();\n"),
            ("through.ts", "import { shared as s } from './barrel';\ns();\ns();\n"),
            ("renamed.ts", "import { again } from './named';\nagain();\n"),
            ("unused.ts", "import { shared } from './a';\n"),
            ("space.ts", "import * as all from './a';\nall.shared();\n"),
            ("lazy.ts", "export const load = () => import('./a');\n"),
        ],
    );
    let finder = ReferenceFinder::new(&analyzer);
    let refs = finder.find_cross_file_references("shared", "a.ts").unwrap();
    assert_eq!(
        places(&refs),
        vec![
            ("direct.ts".to_string(), 2, 1),
            ("lazy.ts".to_string(), 0, 0),
            ("renamed.ts".to_string(), 2, 1),
            ("space.ts".to_string(), 2, 1),
            ("through.ts".to_string(), 2, 1),
            ("through.ts".to_string(), 3, 1),
        ]
    );
    assert!(finder.find_cross_file_references("shared", "nowhere.ts").unwrap().is_empty());
    let refs = finder.find_cross_file_references("other", "a.ts").unwrap();
    assert_eq!(
        places(&refs),
        vec![("lazy.ts".to_string(), 0, 0), ("space.ts".to_string(), 2, 1)]
    );
}

#[test]
fn cross_file_references_end_on_re_export_cycles() {
    let analyzer = workspace(
        vec![],
        &[
            ("a.ts", "export * from './b';\nexport const x = 1;\n"),
            ("b.ts", "export * from './a';\n"),
            ("user.ts", "import { x } from './b';\nx;\n"),
        ],
    );
    let sites = cross_file_sites(&analyzer, 0, "x");
    let files: Vec<usize> = sites.iter().map(|s| s.file).collect();
    assert_eq!(files, vec![2]);
    assert_eq!(sites[0].offset, Some(25));
}

#[test]
fn a_re_exported_import_is_followed_under_its_local_name() {
    let analyzer = workspace(
        vec![],
        &[
            ("a.ts", "export const x = 1;\n"),
            ("mid.ts", "import { x as y } from './a';\nexport { y };\n"),
            ("user.ts", "import { y } from './mid';\ny;\n"),
        ],
    );
    let finder = ReferenceFinder::new(&analyzer);
    let refs = finder.find_cross_file_references("x", "a.ts").unwrap();
    assert_eq!(
        places(&refs),
        vec![("mid.ts".to_string(), 2, 10), ("user.ts".to_string(), 2, 1)]
    );
}

#[test]
fn files_importing_from_a_file_are_listed_once() {
    let analyzer = workspace(
        vec![],
        &[
            ("a.ts", "export const x = 1;\nexport const y = 2;\n"),
            ("one.ts", "import { x } from './a';\nimport { y } from './a';\n"),
            ("none.ts", "export const z = 3;\n"),
            ("two.ts", "import * as a from './a';\n"),
        ],
    );
    let finder = ReferenceFinder::new(&analyzer);
    let refs = finder.find_files_importing_from("a.ts").unwrap();
    let seen: Vec<_> = refs
        .iter()
        .map(|r| (r.file_path.as_str(), r.line, r.column))
        .collect();
    assert_eq!(seen, vec![("one.ts", 0, 0), ("two.ts", 0, 0)]);
    assert!(finder.find_files_importing_from("zzz.ts").unwrap().is_empty());
}

#[test]
fn the_index_links_imports_to_the_files_they_resolve_to() {
    let analyzer = workspace(
        vec![project("p", &[])],
        &[
            ("a.ts", "export const x = 1;\n"),
            ("b.ts", "import { x } from './a';\nimport { q } from './missing';\nexport * from './a';\n"),
        ],
    );
    assert_eq!(analyzer.import_index[0], vec![(1, 0)]);
    assert!(analyzer.import_index[1].is_empty());
    assert_eq!(analyzer.export_links[1], vec![Some(0)]);
    assert_eq!(analyzer.export_links[0], vec![None]);
    assert_eq!(analyzer.file_index("b.ts"), Some(1));
    assert_eq!(analyzer.file_index("c.ts"), None);
}

#[test]
fn an_analyzer_that_was_built_is_well_formed() {
    let mut analyzer = workspace(
        vec![],
        &[
            ("a.ts", "export const x = 1;\n"),
            ("b.ts", "import { x } from './a';\nexport * from './a';\n"),
        ],
    );
    assert!(analyzer.is_well_formed());
    assert!(analyzer.files[0].is_well_formed());

    analyzer.import_index[0].push((1, 5));
    assert!(!analyzer.is_well_formed());
    analyzer.import_index[0].pop();
    assert!(analyzer.is_well_formed());

    analyzer.export_links[1][0] = Some(9);
    assert!(!analyzer.is_well_formed());
    analyzer.export_links[1][0] = Some(0);

    analyzer.files[1].export_files.push(None);
    assert!(!analyzer.files[1].is_well_formed());
    assert!(!analyzer.is_well_formed());
    analyzer.files[1].export_files.pop();

    analyzer.files[0].nodes[1].parent = 7;
    assert!(!analyzer.files[0].is_well_formed());
}
