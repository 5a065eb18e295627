use domino::affected::find_affected;
use domino::semantic::{FileSemanticData, WorkspaceAnalyzer};
use domino::types::{ChangedFile, Project};

const PROJ1: &str = r#"export function proj1() {
  return 'proj1';
}

export function unusedFn() {
  return 'unusedFn';
}
"#;

const PROJ2: &str = r#"import { proj1 } from '@monorepo/proj1';

export { proj1 } from '@monorepo/proj1';

export function proj2() {
  proj1();
  return 'proj2';
}

export function anotherFn() {
  return 'anotherFn';
}

const Decorator = () => (target: typeof MyClass) => target;

@Decorator()
export class MyClass {
  constructor() {
    proj1();
  }
}
"#;

const PROJ3: &str = r#"import { anotherFn } from '@monorepo/proj2';

export function proj3() {
  anotherFn();
  return 'proj3';
}
"#;

fn project(name: &str, implicit: &[&str]) -> Project {
    Project {
        name: name.to_string(),
        source_root: name.to_string(),
        ts_config: Some(format!("{}/tsconfig.json", name)),
        implicit_dependencies: implicit.iter().map(|s| s.to_string()).collect(),
        targets: vec![],
    }
}

fn resolve(specifier: &str) -> Option<String> {
    let name = specifier.strip_prefix("@monorepo/")?;
    Some(if name.contains('/') {
        format!("{}.ts", name)
    } else {
        format!("{}/index.ts", name)
    })
}

/// The workspace with three projects, the first imported by the second, the
/// third depending on the first by declaration, after the given files were
/// written over it.
struct TestBranch {
    files: Vec<(String, String)>,
    changed: Vec<ChangedFile>,
}

impl TestBranch {
    fn new() -> Self {
        TestBranch {
            files: vec![
                ("proj1/index.ts".to_string(), PROJ1.to_string()),
                ("proj2/index.ts".to_string(), PROJ2.to_string()),
                ("proj3/index.ts".to_string(), PROJ3.to_string()),
            ],
            changed: vec![],
        }
    }

    /// Writes `content` to `file`; `lines` are the first lines of the hunks
    /// that the change shows against the base.
    fn make_change(&mut self, file: &str, content: &str, lines: &[usize]) {
        match self.files.iter_mut().find(|(path, _)| path == file) {
            Some(entry) => entry.1 = content.to_string(),
            None => self.files.push((file.to_string(), content.to_string())),
        }
        self.changed.retain(|c| c.file_path != file);
        self.changed.push(ChangedFile {
            file_path: file.to_string(),
            changed_lines: lines.to_vec(),
        });
    }

    fn get_affected(&self) -> Vec<String> {
        let mut files = Vec::new();
        for (path, source) in &self.files {
            let mut file = FileSemanticData::analyze_file(path, source);
            for import in file.imports.iter_mut() {
                import.resolved_file = resolve(&import.from_module);
            }
            for (k, export) in file.exports.iter().enumerate() {
                file.export_files[k] = export.re_export_from.as_deref().and_then(resolve);
            }
            files.push(file);
        }
        let projects = vec![
            project("proj1", &[]),
            project("proj2", &[]),
            project("proj3", &["proj1"]),
        ];
        let analyzer = WorkspaceAnalyzer::new(projects, files);
        find_affected(&analyzer, &self.changed).affected_projects
    }
}

#[test]
fn test_basic_cross_file_reference() {
    let mut branch = TestBranch::new();

    // Change proj1 function that is used by proj2
    branch.make_change(
        "proj1/index.ts",
        r#"export function proj1() {
  return 'proj1-modified';
}

export function unusedFn() {
  return 'unusedFn';
}
"#,
        &[2],
    );

    let affected = branch.get_affected();

    assert!(affected.contains(&"proj1".to_string()));
    assert!(affected.contains(&"proj3".to_string())); // implicit dependency
    assert_eq!(affected, vec!["proj1", "proj2", "proj3"]);
}

#[test]
fn test_unused_function_change() {
    let mut branch = TestBranch::new();

    // Change unusedFn which is not used anywhere
    branch.make_change(
        "proj1/index.ts",
        r#"export function proj1() {
  return 'proj1';
}

export function unusedFn() {
  return 'unusedFn-modified';
}
"#,
        &[6],
    );

    let affected = branch.get_affected();

    assert!(affected.contains(&"proj1".to_string()));
    assert!(affected.contains(&"proj3".to_string())); // implicit dependency
    assert!(!affected.contains(&"proj2".to_string()));
}

#[test]
fn test_implicit_dependencies() {
    let mut branch = TestBranch::new();

    // Change unusedFn in proj1
    branch.make_change(
        "proj1/index.ts",
        r#"export function proj1() {
  return 'proj1';
}

export function unusedFn() {
  return 'unusedFn-changed';
}
"#,
        &[6],
    );

    let affected = branch.get_affected();

    // proj1 changed, and proj3 has implicit dependency on proj1
    // So both proj1 and proj3 should be affected
    assert_eq!(affected, vec!["proj1", "proj3"]);
}

#[test]
fn test_re_export_chain() {
    let mut branch = TestBranch::new();

    // Change proj1 function that is re-exported by proj2
    branch.make_change(
        "proj1/index.ts",
        r#"export function proj1() {
  return 'proj1-reexport-test';
}

export function unusedFn() {
  return 'unusedFn';
}
"#,
        &[2],
    );

    let affected = branch.get_affected();

    assert!(affected.contains(&"proj1".to_string()));
    assert!(affected.contains(&"proj3".to_string())); // implicit dependency
}

const PROJ2_ANOTHER_MODIFIED: &str = r#"import { proj1 } from '@monorepo/proj1';

export { proj1 } from '@monorepo/proj1';

export function proj2() {
  proj1();
  return 'proj2';
}

export function anotherFn() {
  return 'anotherFn-modified';
}

const Decorator = () => (target: typeof MyClass) => target;

@Decorator()
export class MyClass {
  constructor() {
    proj1();
  }
}
"#;

#[test]
fn test_transitive_dependencies() {
    let mut branch = TestBranch::new();

    // Change anotherFn in proj2 which is used by proj3
    branch.make_change("proj2/index.ts", PROJ2_ANOTHER_MODIFIED, &[11]);

    let affected = branch.get_affected();

    assert!(affected.contains(&"proj2".to_string()));
}

#[test]
fn test_multiple_changes() {
    let mut branch = TestBranch::new();

    // Change proj1
    branch.make_change(
        "proj1/index.ts",
        r#"export function proj1() {
  return 'proj1-change1';
}

export function unusedFn() {
  return 'unusedFn';
}
"#,
        &[2],
    );

    // Change proj2
    branch.make_change(
        "proj2/index.ts",
        r#"import { proj1 } from '@monorepo/proj1';

export { proj1 } from '@monorepo/proj1';

export function proj2() {
  proj1();
  return 'proj2-change2';
}

export function anotherFn() {
  return 'anotherFn-modified';
}

const Decorator = () => (target: typeof MyClass) => target;

@Decorator()
export class MyClass {
  constructor() {
    proj1();
  }
}
"#,
        &[7, 11],
    );

    let affected = branch.get_affected();

    let mut sorted_affected = affected.clone();
    sorted_affected.sort();
    assert_eq!(sorted_affected, vec!["proj1", "proj2", "proj3"]);
}

#[test]
fn test_no_changes() {
    let branch = TestBranch::new();

    // Don't make any changes

    let affected = branch.get_affected();

    // No changes, no affected projects
    assert!(affected.is_empty());
}

#[test]
fn test_decorator_change() {
    let mut branch = TestBranch::new();

    // Change the decorator in proj2
    branch.make_change(
        "proj2/index.ts",
        r#"import { proj1 } from '@monorepo/proj1';

export { proj1 } from '@monorepo/proj1';

export function proj2() {
  proj1();
  return 'proj2';
}

export function anotherFn() {
  return 'anotherFn';
}

const Decorator = () => (target: typeof MyClass) => {
  console.log('Decorator modified');
  return target;
};

@Decorator()
export class MyClass {
  constructor() {
    proj1();
  }
}
"#,
        &[14],
    );

    let affected = branch.get_affected();

    // Only proj2 should be affected (decorator is internal)
    assert_eq!(affected, vec!["proj2"]);
}

#[test]
fn test_interface_property_reorder() {
    let mut branch = TestBranch::new();

    // proj2 uses the function from proj1
    branch.make_change(
        "proj2/index.ts",
        r#"import { useMyOptions, MyOptions } from '@monorepo/proj1';

// Component that uses useMyOptions
export function MyComponent() {
  const options: MyOptions = {
    optionA: 'test',
    optionB: 42,
    optionC: true,
  };

  return useMyOptions(options);
}
"#,
        &[1, 3],
    );

    // Now reorder properties in the interface (simulating the real bug)
    branch.make_change(
        "proj1/index.ts",
        r#"// Interface for options
export interface MyOptions {
  readonly optionA: string;
  readonly optionC: boolean;  // Moved up
  readonly optionB: number;   // Moved down
}

// Function that uses the interface
export function useMyOptions(options: MyOptions): string {
  return `A: ${options.optionA}, B: ${options.optionB}, C: ${options.optionC}`;
}
"#,
        &[1, 8],
    );

    let affected = branch.get_affected();

    let mut sorted_affected = affected.clone();
    sorted_affected.sort();
    assert_eq!(
        sorted_affected,
        vec!["proj1", "proj2", "proj3"], // proj3 due to implicit dependency
        "Interface property reorder should affect all projects that transitively use it"
    );
}

#[test]
fn test_object_literal_property_reorder() {
    let mut branch = TestBranch::new();

    // Now reorder properties in the object literal (simulating the colorVars bug)
    branch.make_change(
        "proj1/theme.ts",
        r#"// This file simulates a scenario like vanilla-extract's createGlobalTheme
// where object literals are passed to function calls for side effects

// Simulate imported colors
const colors = {
  red: '#ff0000',
  blue: '#0000ff',
  green: '#00ff00',
};

// Simulate a theme creation function (like vanilla-extract's createGlobalTheme)
function createTheme(selector: string, vars: any) {
  // Side effect: registers theme globally
  // Returns nothing or void
}

// Create theme with object literal
// Changes to property order here should NOT trigger false positive symbol tracking
createTheme('.theme', {
  secondaryColor: colors.red,  // MOVED: was second, now first
  primaryColor: colors.blue,   // MOVED: was first, now second
  accentColor: colors.green,
});

// This is what proj2 would actually import - the exported function
export function getTheme() {
  return 'theme-applied';
}
"#,
        &[1],
    );

    let affected = branch.get_affected();

    let mut sorted_affected = affected.clone();
    sorted_affected.sort();

    assert_eq!(
        sorted_affected,
        vec!["proj1", "proj3"],
        "Object literal property reorder should only affect owning project and implicit deps, not consumers"
    );
}

#[test]
fn test_dynamic_import_detection() {
    let mut branch = TestBranch::new();

    // Add a file to proj2 that uses dynamic import from proj1
    branch.make_change(
        "proj2/lazy-loader.tsx",
        r#"import React from 'react';

// Dynamic import using React.lazy
const LazyProj1Component = React.lazy(
  () => import('@monorepo/proj1').then(m => ({ default: m.proj1 }))
);

export function LazyLoader() {
  return <React.Suspense fallback={<div>Loading...</div>}>
    <LazyProj1Component />
  </React.Suspense>;
}
"#,
        &[1],
    );

    // Now change proj1 - proj2 should be affected due to dynamic import
    branch.make_change(
        "proj1/index.ts",
        r#"export function proj1() {
  return 'proj1-modified-for-dynamic-import';
}

export function unusedFn() {
  return 'unusedFn';
}
"#,
        &[2],
    );

    let affected = branch.get_affected();

    assert!(
        affected.contains(&"proj1".to_string()),
        "proj1 should be affected (changed)"
    );
    assert!(
        affected.contains(&"proj2".to_string()),
        "proj2 should be affected (has dynamic import from proj1)"
    );
    assert!(
        affected.contains(&"proj3".to_string()),
        "proj3 should be affected (implicit dependency on proj1)"
    );
}

#[test]
fn test_multiple_dynamic_imports() {
    let mut branch = TestBranch::new();

    // Add a file with multiple dynamic imports
    branch.make_change(
        "proj3/dynamic-loader.tsx",
        r#"import React from 'react';

const Component1 = React.lazy(() => import('@monorepo/proj1'));
const Component2 = React.lazy(() => import('@monorepo/proj2'));

async function loadModules() {
  const mod1 = await import('@monorepo/proj1');
  const mod2 = await import('@monorepo/proj2');
  return { mod1, mod2 };
}

export { Component1, Component2, loadModules };
"#,
        &[1],
    );

    // Change proj1
    branch.make_change(
        "proj1/index.ts",
        r#"export function proj1() {
  return 'proj1-updated';
}

export function unusedFn() {
  return 'unusedFn';
}
"#,
        &[2],
    );

    let affected = branch.get_affected();

    assert!(
        affected.contains(&"proj1".to_string()),
        "proj1 should be affected"
    );
    assert!(
        affected.contains(&"proj3".to_string()),
        "proj3 should be affected (has dynamic imports from proj1)"
    );
}

#[test]
fn test_dynamic_import_only_affects_when_changed() {
    let mut branch = TestBranch::new();

    // Add a file to proj2 with dynamic import from proj1
    branch.make_change(
        "proj2/conditional-import.ts",
        r#"export async function conditionalLoad() {
  if (condition) {
    const module = await import('@monorepo/proj1');
    return module.proj1();
  }
  return 'default';
}
"#,
        &[1],
    );

    // Change proj2's own code, NOT proj1
    branch.make_change(
        "proj2/index.ts",
        r#"import { proj1 } from '@monorepo/proj1';

export { proj1 } from '@monorepo/proj1';

export function proj2() {
  proj1();
  return 'proj2-changed-locally';
}

export function anotherFn() {
  return 'anotherFn-modified';
}

const Decorator = () => (target: typeof MyClass) => target;

@Decorator()
export class MyClass {
  constructor() {
    proj1();
  }
}
"#,
        &[7, 11],
    );

    let affected = branch.get_affected();

    assert!(
        affected.contains(&"proj2".to_string()),
        "proj2 should be affected (it changed)"
    );
    assert!(
        !affected.contains(&"proj1".to_string()),
        "proj1 should NOT be affected (it didn't change)"
    );
}

#[test]
fn a_change_inside_a_bare_object_literal_reaches_no_consumer() {
    let mut branch = TestBranch::new();
    branch.make_change(
        "proj1/theme.ts",
        r#"const colors = {
  red: '#ff0000',
  blue: '#0000ff',
};

function createTheme(selector: string, vars: any) {
}

createTheme('.theme', {
  secondaryColor: colors.red,
  primaryColor: colors.blue,
});

export function getTheme() {
  return 'theme-applied';
}
"#,
        &[10, 11],
    );
    branch.make_change(
        "proj2/uses-theme.ts",
        "import { getTheme } from '@monorepo/proj1/theme';\nexport const theme = getTheme();\n",
        &[],
    );
    branch.changed.retain(|c| c.file_path != "proj2/uses-theme.ts");

    let affected = branch.get_affected();

    assert_eq!(affected, vec!["proj1", "proj3"]);

    // A change of the exported function reaches the consumer.
    branch.changed[0].changed_lines = vec![15];
    assert_eq!(branch.get_affected(), vec!["proj1", "proj2", "proj3"]);
}
