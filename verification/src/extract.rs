//! The imports and exports that the nodes of a file give.

use vstd::prelude::*;
use crate::seqs::gather;
use crate::syntax::{AstNode, NodeKind};
use crate::text::{clone_opt, decimal, push_decimal};
use crate::types::{opt_text, Export, ExportView, Import, ImportView};

verus! {

/// Node `i` is a statement of the program: its parent is the program node.
pub open spec fn is_top_level(nodes: Seq<AstNode>, i: int) -> bool {
    0 <= i < nodes.len() && nodes[i].parent < nodes.len() && nodes[nodes[i].parent as int].kind is Program
}

/// The import that node `i` stands for: a specifier of an import declaration
/// that is a statement of the program. A named specifier is imported for its
/// types only if the declaration or the specifier says so; a default import
/// has the name `default`, a namespace import the name `*`.
pub open spec fn static_import_at(nodes: Seq<AstNode>, i: int) -> Option<ImportView> {
    if !(0 <= i < nodes.len() && nodes[i].parent < nodes.len()) {
        None
    } else {
        let p = nodes[i].parent as int;
        match nodes[p].kind {
            NodeKind::ImportDeclaration { source, type_only } => if !is_top_level(nodes, p) {
                None
            } else {
                match nodes[i].kind {
                    NodeKind::ImportSpecifier { imported, local, type_only: own } => Some(
                        ImportView {
                            imported_name: imported@,
                            local_name: local@,
                            from_module: source@,
                            resolved_file: None,
                            is_type_only: type_only || own,
                            is_dynamic: false,
                        },
                    ),
                    NodeKind::ImportDefaultSpecifier { local } => Some(
                        ImportView {
                            imported_name: "default"@,
                            local_name: local@,
                            from_module: source@,
                            resolved_file: None,
                            is_type_only: type_only,
                            is_dynamic: false,
                        },
                    ),
                    NodeKind::ImportNamespaceSpecifier { local } => Some(
                        ImportView {
                            imported_name: "*"@,
                            local_name: local@,
                            from_module: source@,
                            resolved_file: None,
                            is_type_only: type_only,
                            is_dynamic: false,
                        },
                    ),
                    _ => None,
                }
            },
            _ => None,
        }
    }
}

/// The static imports of a file, in document order.
pub open spec fn static_imports(nodes: Seq<AstNode>) -> Seq<ImportView> {
    gather(nodes.len() as int, |i: int| static_import_at(nodes, i))
}

/// The import that stands for the `import()` expression numbered `count` with
/// the literal specifier `from_module`: nobody can tell which members of the
/// module are used, so it imports the whole namespace.
pub open spec fn namespace_import(count: nat, from_module: Seq<char>) -> ImportView {
    ImportView {
        imported_name: "*"@,
        local_name: "__dynamic_import_"@ + decimal(count),
        from_module,
        resolved_file: None,
        is_type_only: false,
        is_dynamic: true,
    }
}

/// The dynamic imports among the first `count` nodes, in document order: one
/// for every `import()` whose specifier is a string literal, numbered from 0.
pub open spec fn dynamic_imports(nodes: Seq<AstNode>, count: int) -> Seq<ImportView>
    decreases count,
{
    if count <= 0 || count > nodes.len() {
        Seq::empty()
    } else {
        let before = dynamic_imports(nodes, count - 1);
        match nodes[count - 1].kind {
            NodeKind::ImportExpression { source: Some(s) } => before.push(namespace_import(before.len(), s@)),
            _ => before,
        }
    }
}

/// All imports of a file: the static ones, then the dynamic ones.
pub open spec fn imports_of(nodes: Seq<AstNode>) -> Seq<ImportView> {
    static_imports(nodes) + dynamic_imports(nodes, nodes.len() as int)
}

/// The views of a list of imports.
pub open spec fn import_views(imports: Seq<Import>) -> Seq<ImportView> {
    imports.map_values(|i: Import| i@)
}

/// The views of a list of exports.
pub open spec fn export_views(exports: Seq<Export>) -> Seq<ExportView> {
    exports.map_values(|e: Export| e@)
}

/// The import for an `import()` expression with a literal specifier.
pub fn create_namespace_import(count: usize, from_module: &str) -> (import: Import)
    ensures
        import@ == namespace_import(count as nat, from_module@),
{
    let mut local_name = String::from_str("__dynamic_import_");
    push_decimal(&mut local_name, count);
    Import {
        imported_name: String::from_str("*"),
        local_name,
        from_module: from_module.to_owned(),
        resolved_file: None,
        is_type_only: false,
        is_dynamic: true,
    }
}

fn top_level(nodes: &Vec<AstNode>, i: usize) -> (r: bool)
    ensures
        r == is_top_level(nodes@, i as int),
{
    if i >= nodes.len() || nodes[i].parent >= nodes.len() {
        return false;
    }
    match &nodes[nodes[i].parent].kind {
        NodeKind::Program => true,
        _ => false,
    }
}

/// The import that node `i` gives, if it is a specifier of a top-level import
/// declaration.
pub fn process_import(nodes: &Vec<AstNode>, i: usize) -> (r: Option<Import>)
    ensures
        match r {
            Some(import) => static_import_at(nodes@, i as int) == Some(import@),
            None => static_import_at(nodes@, i as int) is None,
        },
{
    if i >= nodes.len() || nodes[i].parent >= nodes.len() {
        return None;
    }
    let p = nodes[i].parent;
    match &nodes[p].kind {
        NodeKind::ImportDeclaration { source, type_only } => {
            if !top_level(nodes, p) {
                return None;
            }
            match &nodes[i].kind {
                NodeKind::ImportSpecifier { imported, local, type_only: own } => Some(
                    Import {
                        imported_name: imported.clone(),
                        local_name: local.clone(),
                        from_module: source.clone(),
                        resolved_file: None,
                        is_type_only: *type_only || *own,
                        is_dynamic: false,
                    },
                ),
                NodeKind::ImportDefaultSpecifier { local } => Some(
                    Import {
                        imported_name: String::from_str("default"),
                        local_name: local.clone(),
                        from_module: source.clone(),
                        resolved_file: None,
                        is_type_only: *type_only,
                        is_dynamic: false,
                    },
                ),
                NodeKind::ImportNamespaceSpecifier { local } => Some(
                    Import {
                        imported_name: String::from_str("*"),
                        local_name: local.clone(),
                        from_module: source.clone(),
                        resolved_file: None,
                        is_type_only: *type_only,
                        is_dynamic: false,
                    },
                ),
                _ => None,
            }
        },
        _ => None,
    }
}

/// The imports of a file: one for each specifier of each top-level import
/// declaration, then one for each `import()` with a literal specifier. An
/// `import()` whose specifier is not a literal gives none.
pub fn extract_imports(nodes: &Vec<AstNode>) -> (imports: Vec<Import>)
    ensures
        import_views(imports@) == imports_of(nodes@),
        forall|k: int| 0 <= k < imports@.len() ==> (#[trigger] imports@[k]).resolved_file is None,
{
    let mut imports: Vec<Import> = Vec::new();
    let mut i: usize = 0;
    let ghost pick = |i: int| static_import_at(nodes@, i);
    while i < nodes.len()
        invariant
            i <= nodes.len(),
            pick == |i: int| static_import_at(nodes@, i),
            import_views(imports@) == gather(i as int, pick),
            forall|k: int| 0 <= k < imports@.len() ==> (#[trigger] imports@[k]).resolved_file is None,
        decreases nodes.len() - i,
    {
        match process_import(nodes, i) {
            Some(import) => {
                let ghost before = import_views(imports@);
                imports.push(import);
                assert(import_views(imports@) =~= before.push(import@));
            },
            None => {},
        }
        i += 1;
    }
    let ghost fixed = import_views(imports@);
    let mut count: usize = 0;
    let mut k: usize = 0;
    while k < nodes.len()
        invariant
            k <= nodes.len(),
            count <= k,
            fixed == static_imports(nodes@),
            count == dynamic_imports(nodes@, k as int).len(),
            import_views(imports@) == fixed + dynamic_imports(nodes@, k as int),
            forall|k: int| 0 <= k < imports@.len() ==> (#[trigger] imports@[k]).resolved_file is None,
        decreases nodes.len() - k,
    {
        match &nodes[k].kind {
            NodeKind::ImportExpression { source: Some(s) } => {
                let ghost before = import_views(imports@);
                let import = create_namespace_import(count, s.as_str());
                imports.push(import);
                assert(import_views(imports@) =~= before.push(import@));
                count += 1;
            },
            _ => {},
        }
        k += 1;
    }
    imports
}

/// The declaration that the export statement at `e` wraps: the node that
/// follows it.
pub open spec fn wrapped_declaration(nodes: Seq<AstNode>, e: int) -> Option<int> {
    if 0 <= e && e + 1 < nodes.len() && nodes[e + 1].parent == e {
        match nodes[e].kind {
            NodeKind::ExportNamedDeclaration { source, has_declaration } => if has_declaration {
                Some(e + 1)
            } else {
                None
            },
            _ => None,
        }
    } else {
        None
    }
}

/// The export that node `i` stands for, where its statement is a statement of
/// the program: a specifier of an export declaration; a declarator with a
/// plain name, a named function or a named class that an export declaration
/// wraps; a default export, under the name `default`; a wildcard re-export,
/// under the name `*`.
pub open spec fn export_at(nodes: Seq<AstNode>, i: int) -> Option<ExportView> {
    if !(0 <= i < nodes.len() && nodes[i].parent < nodes.len()) {
        None
    } else {
        let p = nodes[i].parent as int;
        match nodes[i].kind {
            NodeKind::ExportSpecifier { local, exported } => match nodes[p].kind {
                NodeKind::ExportNamedDeclaration { source, has_declaration } => if is_top_level(nodes, p) {
                    Some(
                        ExportView {
                            exported_name: exported@,
                            local_name: Some(local@),
                            re_export_from: opt_text(source),
                        },
                    )
                } else {
                    None
                },
                _ => None,
            },
            NodeKind::VariableDeclarator { name: Some(n) } => if nodes[p].kind is VariableDeclaration
                && nodes[p].parent < nodes.len() && wrapped_declaration(nodes, nodes[p].parent as int)
                == Some(p) && is_top_level(nodes, nodes[p].parent as int) {
                Some(ExportView { exported_name: n@, local_name: None, re_export_from: None })
            } else {
                None
            },
            NodeKind::Function { name: Some(n) } => if wrapped_declaration(nodes, p) == Some(i)
                && is_top_level(nodes, p) {
                Some(ExportView { exported_name: n@, local_name: None, re_export_from: None })
            } else {
                None
            },
            NodeKind::Class { name: Some(n) } => if wrapped_declaration(nodes, p) == Some(i) && is_top_level(
                nodes,
                p,
            ) {
                Some(ExportView { exported_name: n@, local_name: None, re_export_from: None })
            } else {
                None
            },
            NodeKind::ExportDefaultDeclaration => if is_top_level(nodes, i) {
                Some(ExportView { exported_name: "default"@, local_name: None, re_export_from: None })
            } else {
                None
            },
            NodeKind::ExportAllDeclaration { source } => if is_top_level(nodes, i) {
                Some(ExportView { exported_name: "*"@, local_name: None, re_export_from: Some(source@) })
            } else {
                None
            },
            _ => None,
        }
    }
}

/// The exports of a file, in document order.
pub open spec fn exports_of(nodes: Seq<AstNode>) -> Seq<ExportView> {
    gather(nodes.len() as int, |i: int| export_at(nodes, i))
}

fn wraps(nodes: &Vec<AstNode>, e: usize, d: usize) -> (r: bool)
    ensures
        r == (wrapped_declaration(nodes@, e as int) == Some(d as int)),
{
    if e >= nodes.len() || d >= nodes.len() || e == usize::MAX || d != e + 1 || nodes[d].parent != e {
        return false;
    }
    match &nodes[e].kind {
        NodeKind::ExportNamedDeclaration { source, has_declaration } => *has_declaration,
        _ => false,
    }
}

fn plain_export(name: &String) -> (e: Export)
    ensures
        e@ == (ExportView { exported_name: name@, local_name: None, re_export_from: None }),
{
    Export { exported_name: name.clone(), local_name: None, re_export_from: None }
}

/// The export that node `i` gives, if it gives one.
pub fn process_named_export(nodes: &Vec<AstNode>, i: usize) -> (r: Option<Export>)
    ensures
        match r {
            Some(export) => export_at(nodes@, i as int) == Some(export@),
            None => export_at(nodes@, i as int) is None,
        },
{
    if i >= nodes.len() || nodes[i].parent >= nodes.len() {
        return None;
    }
    let p = nodes[i].parent;
    match &nodes[i].kind {
        NodeKind::ExportSpecifier { local, exported } => match &nodes[p].kind {
            NodeKind::ExportNamedDeclaration { source, has_declaration } => {
                if top_level(nodes, p) {
                    Some(
                        Export {
                            exported_name: exported.clone(),
                            local_name: Some(local.clone()),
                            re_export_from: clone_opt(source),
                        },
                    )
                } else {
                    None
                }
            },
            _ => None,
        },
        NodeKind::VariableDeclarator { name: Some(n) } => {
            let is_declaration = match &nodes[p].kind {
                NodeKind::VariableDeclaration => true,
                _ => false,
            };
            if is_declaration && nodes[p].parent < nodes.len() && wraps(nodes, nodes[p].parent, p)
                && top_level(nodes, nodes[p].parent) {
                Some(plain_export(n))
            } else {
                None
            }
        },
        NodeKind::Function { name: Some(n) } => {
            if wraps(nodes, p, i) && top_level(nodes, p) {
                Some(plain_export(n))
            } else {
                None
            }
        },
        NodeKind::Class { name: Some(n) } => {
            if wraps(nodes, p, i) && top_level(nodes, p) {
                Some(plain_export(n))
            } else {
                None
            }
        },
        NodeKind::ExportDefaultDeclaration => {
            if top_level(nodes, i) {
                Some(Export { exported_name: String::from_str("default"), local_name: None, re_export_from: None })
            } else {
                None
            }
        },
        NodeKind::ExportAllDeclaration { source } => {
            if top_level(nodes, i) {
                Some(
                    Export {
                        exported_name: String::from_str("*"),
                        local_name: None,
                        re_export_from: Some(source.clone()),
                    },
                )
            } else {
                None
            }
        },
        _ => None,
    }
}

/// The exports of a file: named exports, with what they re-export from;
/// declarations exported where they stand; the default export; wildcard
/// re-exports. A destructuring declarator gives none.
pub fn extract_exports(nodes: &Vec<AstNode>) -> (exports: Vec<Export>)
    ensures
        export_views(exports@) == exports_of(nodes@),
{
    let mut exports: Vec<Export> = Vec::new();
    let mut i: usize = 0;
    let ghost pick = |i: int| export_at(nodes@, i);
    while i < nodes.len()
        invariant
            i <= nodes.len(),
            pick == |i: int| export_at(nodes@, i),
            export_views(exports@) == gather(i as int, pick),
        decreases nodes.len() - i,
    {
        match process_named_export(nodes, i) {
            Some(export) => {
                let ghost before = export_views(exports@);
                exports.push(export);
                assert(export_views(exports@) =~= before.push(export@));
            },
            None => {},
        }
        i += 1;
    }
    exports
}

} // verus!
