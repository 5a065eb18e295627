use domino::syntax::{parse_module, NodeKind};

#[test]
fn parse_reads_the_program_first_and_parents_before_children() {
    let tree = parse_module("export const a = 1;\nfunction f() { return a; }\n", "x.ts");
    assert!(tree.nodes.len() > 3);
    assert!(matches!(tree.nodes[0].kind, NodeKind::Program));
    assert_eq!(tree.nodes[0].parent, 0);
    for (i, node) in tree.nodes.iter().enumerate() {
        assert!(node.parent <= i);
        assert!(node.start <= node.end);
    }
}

#[test]
fn parse_reads_names_of_declarations() {
    let tree = parse_module(
        "export const a = 1;\nfunction f() {}\nclass C {}\ninterface I {}\ntype T = number;\nenum E { X }\n",
        "x.ts",
    );
    let mut seen: Vec<String> = Vec::new();
    for node in tree.nodes.iter() {
        match &node.kind {
            NodeKind::VariableDeclarator { name: Some(n) } => seen.push(format!("var {}", n)),
            NodeKind::Function { name: Some(n) } => seen.push(format!("fn {}", n)),
            NodeKind::Class { name: Some(n) } => seen.push(format!("class {}", n)),
            NodeKind::Interface { name } => seen.push(format!("interface {}", name)),
            NodeKind::TypeAlias { name } => seen.push(format!("type {}", name)),
            NodeKind::Enum { name } => seen.push(format!("enum {}", name)),
            _ => {}
        }
    }
    assert_eq!(seen, vec!["var a", "fn f", "class C", "interface I", "type T", "enum E"]);
}

#[test]
fn parse_puts_a_wrapped_declaration_right_after_its_export() {
    let tree = parse_module("export function f() {}\nexport { f as g };\n", "x.ts");
    let mut with_declaration = 0;
    let mut without = 0;
    for (i, node) in tree.nodes.iter().enumerate() {
        if let NodeKind::ExportNamedDeclaration { has_declaration, .. } = &node.kind {
            if *has_declaration {
                with_declaration += 1;
                assert!(matches!(tree.nodes[i + 1].kind, NodeKind::Function { .. }));
                assert_eq!(tree.nodes[i + 1].parent, i);
            } else {
                without += 1;
            }
        }
    }
    assert_eq!((with_declaration, without), (1, 1));
}

#[test]
fn parse_reads_symbols_with_their_uses() {
    let source = "const a = 1;\nconst b = a + a;\n";
    let tree = parse_module(source, "x.ts");
    let a = tree.symbols.iter().find(|s| s.name == "a").unwrap();
    assert_eq!(a.references, vec![source.find("a + a").unwrap(), source.find("a;").unwrap()]);
    let b = tree.symbols.iter().find(|s| s.name == "b").unwrap();
    assert!(b.references.is_empty());
}

#[test]
fn parse_survives_text_that_is_no_program() {
    let tree = parse_module("export const = = ;;; {{{", "broken.ts");
    for (i, node) in tree.nodes.iter().enumerate() {
        assert!(node.parent <= i);
    }
}

fn has_interface(source: &str, file_name: &str) -> bool {
    parse_module(source, file_name)
        .nodes
        .iter()
        .any(|n| matches!(n.kind, NodeKind::Interface { .. }))
}

#[test]
fn the_extension_of_the_file_name_picks_the_dialect() {
    let source = "interface Shape { side: number }\n";
    assert!(has_interface(source, "shape.ts"));
    assert!(has_interface(source, "shape.tsx"));
    assert!(!has_interface(source, "shape.js"));
    // A name without a known extension is read as TypeScript.
    assert!(has_interface(source, "shape.data"));
    assert!(has_interface(source, "shape"));
}

#[test]
fn parse_reads_spans_and_kinds_of_imports_and_exports() {
    let source = "import d, { a as b } from './m';\nexport { b as c } from './n';\nexport * from './o';\nimport('./p');\n";
    let tree = parse_module(source, "x.ts");
    let mut seen: Vec<String> = Vec::new();
    for node in tree.nodes.iter() {
        let text = &source[node.start..node.end];
        match &node.kind {
            NodeKind::ImportDeclaration { source, type_only } => {
                seen.push(format!("import {} {} [{}]", source, type_only, text))
            }
            NodeKind::ImportDefaultSpecifier { local } => seen.push(format!("default {} [{}]", local, text)),
            NodeKind::ImportSpecifier { imported, local, type_only } => {
                seen.push(format!("named {} {} {} [{}]", imported, local, type_only, text))
            }
            NodeKind::ExportNamedDeclaration { source, has_declaration } => {
                seen.push(format!("export {:?} {} [{}]", source, has_declaration, text))
            }
            NodeKind::ExportSpecifier { local, exported } => {
                seen.push(format!("specifier {} {} [{}]", local, exported, text))
            }
            NodeKind::ExportAllDeclaration { source } => seen.push(format!("all {} [{}]", source, text)),
            NodeKind::ImportExpression { source } => seen.push(format!("dynamic {:?} [{}]", source, text)),
            _ => {}
        }
    }
    assert_eq!(
        seen,
        vec![
            "import ./m false [import d, { a as b } from './m';]",
            "default d [d]",
            "named a b false [a as b]",
            "export Some(\"./n\") false [export { b as c } from './n';]",
            "specifier b c [b as c]",
            "all ./o [export * from './o';]",
            "dynamic Some(\"./p\") [import('./p')]",
        ]
    );
}
