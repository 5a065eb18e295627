use domino::extract::extract_imports;
use domino::semantic::{FileSemanticData, WorkspaceAnalyzer};
use domino::syntax::parse_module;
use domino::types::Import;

fn analyzer_of(path: &str, source: &str) -> WorkspaceAnalyzer {
    WorkspaceAnalyzer::new(vec![], vec![FileSemanticData::analyze_file(path, source)])
}

fn imports_of(path: &str, source: &str) -> Vec<Import> {
    extract_imports(&parse_module(source, path).nodes)
}

#[test]
fn test_find_node_at_line_with_column_offset() {
    let source = r#"import { Component } from './component';

const MemoizedComponent = React.memo(Component);
const AnotherVar = 'test';

export { MemoizedComponent };"#;

    let analyzer = analyzer_of("test.ts", source);

    // Line 3 contains: const MemoizedComponent = React.memo(Component);
    // Column 42 is approximately where "Component" appears in the memo call
    // We expect to find "MemoizedComponent" as the container
    let result = analyzer.find_node_at_line("test.ts", 3, 42);
    assert!(result.is_ok());
    let symbol = result.unwrap();
    assert_eq!(symbol, Some("MemoizedComponent".to_string()));

    // Test with column 0 (line start) - should still find a containing symbol
    let result = analyzer.find_node_at_line("test.ts", 3, 0);
    assert!(result.is_ok());

    // Test line 4 with AnotherVar
    let result = analyzer.find_node_at_line("test.ts", 4, 10);
    assert!(result.is_ok());
    let symbol = result.unwrap();
    assert_eq!(symbol, Some("AnotherVar".to_string()));
}

#[test]
fn test_find_node_smallest_containing_node() {
    let source = r#"export function outer() {
  const inner = function() {
    return 'nested';
  };
  return inner;
}"#;

    let analyzer = analyzer_of("test.ts", source);

    // Line 2 contains: const inner = function() {
    let result = analyzer.find_node_at_line("test.ts", 2, 10);
    assert!(result.is_ok());
    let symbol = result.unwrap();
    assert!(symbol.is_some());
}

#[test]
fn test_extract_dynamic_imports_basic() {
    let source = r#"
import { staticImport } from './static';

const LazyComponent = React.lazy(() => import('./LazyComponent'));

async function loadModule() {
  const module = await import('./dynamic-module');
  return module;
}
"#;

    let imports = imports_of("test.tsx", source);

    // Should have 1 static import + 2 dynamic imports
    assert_eq!(imports.len(), 3);

    // Check static import
    assert!(imports
        .iter()
        .any(|imp| imp.from_module == "./static" && imp.imported_name == "staticImport"));

    // Check dynamic imports
    let dynamic_imports: Vec<_> = imports
        .iter()
        .filter(|imp| imp.from_module == "./LazyComponent" || imp.from_module == "./dynamic-module")
        .collect();
    assert_eq!(dynamic_imports.len(), 2);

    // Dynamic imports should be namespace imports
    for imp in dynamic_imports {
        assert_eq!(imp.imported_name, "*");
        assert!(!imp.is_type_only);
    }
}

#[test]
fn test_extract_dynamic_imports_with_then() {
    let source = r#"
const LazyCookieConsent = React.lazy(
  async () => await import('@lemonade-hq/uniclient-app').then(module => ({ default: module.CookieConsent })),
);
"#;

    let imports = imports_of("App.tsx", source);

    // Should have 1 dynamic import
    assert_eq!(imports.len(), 1);

    // Check the dynamic import
    let imp = &imports[0];
    assert_eq!(imp.from_module, "@lemonade-hq/uniclient-app");
    assert_eq!(imp.imported_name, "*"); // Namespace import
    assert!(!imp.is_type_only);
}

#[test]
fn test_extract_no_dynamic_imports() {
    let source = r#"
import { Component } from './Component';
import * as Utils from './utils';
import type { Props } from './types';

export function MyComponent(props: Props) {
  return <Component {...props} />;
}
"#;

    let imports = imports_of("test.tsx", source);

    // Should have 3 static imports, no dynamic imports
    assert_eq!(imports.len(), 3);

    // None should have synthetic names
    assert!(!imports
        .iter()
        .any(|imp| imp.local_name.starts_with("__dynamic_import_")));
}

#[test]
fn test_extract_multiple_dynamic_imports() {
    let source = r#"
const Component1 = React.lazy(() => import('./Component1'));
const Component2 = React.lazy(() => import('./Component2'));
const Component3 = React.lazy(() => import('./Component3'));

async function loadAll() {
  await import('./module1');
  await import('./module2');
}
"#;

    let imports = imports_of("test.tsx", source);

    // Should have 5 dynamic imports
    assert_eq!(imports.len(), 5);

    // All should be namespace imports
    assert!(imports.iter().all(|imp| imp.imported_name == "*"));

    // Check that all modules are present
    let modules: Vec<_> = imports.iter().map(|imp| imp.from_module.as_str()).collect();
    assert!(modules.contains(&"./Component1"));
    assert!(modules.contains(&"./Component2"));
    assert!(modules.contains(&"./Component3"));
    assert!(modules.contains(&"./module1"));
    assert!(modules.contains(&"./module2"));
}

#[test]
fn test_extract_dynamic_imports_non_string_literal() {
    let source = r#"
// Template literal (not supported)
const moduleName = 'dynamic-module';
const module1 = await import(`./modules/${moduleName}`);

// Variable (not supported)
const specifier = './some-module';
const module2 = await import(specifier);

// String literal (supported)
const module3 = await import('./supported-module');
"#;

    let imports = imports_of("test.ts", source);

    // Should only have 1 import (the string literal one)
    assert_eq!(imports.len(), 1);
    assert_eq!(imports[0].from_module, "./supported-module");
    assert_eq!(imports[0].imported_name, "*");
    assert!(imports[0].is_dynamic);
}

#[test]
fn test_dynamic_imports_are_marked() {
    let source = r#"
import { StaticImport } from './static';
import * as StaticNamespace from './static-namespace';

const DynamicImport = await import('./dynamic');
"#;

    let imports = imports_of("test.ts", source);

    // Should have 2 static + 1 dynamic = 3 imports
    assert_eq!(imports.len(), 3);

    // Check static imports
    let static_imports: Vec<_> = imports.iter().filter(|imp| !imp.is_dynamic).collect();
    assert_eq!(static_imports.len(), 2);
    assert!(static_imports
        .iter()
        .all(|imp| imp.from_module.starts_with("./static")));

    // Check dynamic import
    let dynamic_imports: Vec<_> = imports.iter().filter(|imp| imp.is_dynamic).collect();
    assert_eq!(dynamic_imports.len(), 1);
    assert_eq!(dynamic_imports[0].from_module, "./dynamic");
    assert_eq!(dynamic_imports[0].imported_name, "*");
}

#[test]
fn test_find_node_at_line_export_default_named() {
    let source = r#"export default function myFunction() {
  return 'test';
}"#;

    let analyzer = analyzer_of("test.ts", source);

    let result = analyzer.find_node_at_line("test.ts", 1, 0);
    assert!(result.is_ok(), "Should not error: {:?}", result);
    let symbol = result.unwrap();
    assert_eq!(
        symbol,
        Some("default".to_string()),
        "Should find 'default' for export default"
    );
}

#[test]
fn test_find_node_at_line_export_default_anonymous() {
    let source = r#"export default function() {
  return 'anonymous';
}"#;

    let analyzer = analyzer_of("test.ts", source);

    let result = analyzer.find_node_at_line("test.ts", 1, 0);
    assert!(result.is_ok(), "Should not error: {:?}", result);
    let symbol = result.unwrap();
    assert_eq!(
        symbol,
        Some("default".to_string()),
        "Should find 'default' for anonymous export default"
    );
}

#[test]
fn test_find_node_at_line_destructured_export() {
    let source = r#"const obj = { a: 1, b: 2 };
export const { a, b } = obj;"#;

    let analyzer = analyzer_of("test.ts", source);

    let result = analyzer.find_node_at_line("test.ts", 2, 0);
    assert!(result.is_ok(), "Should not error: {:?}", result);
}

#[test]
fn test_find_node_at_line_multiple_exports() {
    let source = r#"export const FIRST = 1;
export const SECOND = 2;
export function third() {
  return 3;
}"#;

    let analyzer = analyzer_of("test.ts", source);

    // Test first export
    let result1 = analyzer.find_node_at_line("test.ts", 1, 0);
    assert!(result1.is_ok());
    assert_eq!(result1.unwrap(), Some("FIRST".to_string()));

    // Test second export
    let result2 = analyzer.find_node_at_line("test.ts", 2, 0);
    assert!(result2.is_ok());
    assert_eq!(result2.unwrap(), Some("SECOND".to_string()));

    // Test third export
    let result3 = analyzer.find_node_at_line("test.ts", 3, 0);
    assert!(result3.is_ok());
    assert_eq!(result3.unwrap(), Some("third".to_string()));
}
