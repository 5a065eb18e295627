//! The syntax of one source file, as an arena of nodes and a symbol table.
//!
//! The nodes stand in document order: a node comes before everything it
//! contains, and each node names its parent by index. The first node is the
//! whole program and is its own parent. Spans are byte offsets.

use vstd::prelude::*;
use oxc_allocator::Allocator;
use oxc_ast::AstKind;
use oxc_ast::ast::{BindingPattern, Expression};
use oxc_parser::Parser;
use oxc_semantic::{Semantic, SemanticBuilder};
use oxc_span::{GetSpan, SourceType};
use crate::types::opt_text;

verus! {

/// What a node is, with the names that the analysis reads from it.
#[derive(Debug, Clone)]
pub enum NodeKind {
    /// The whole file.
    Program,
    /// `import ... from "source"`.
    ImportDeclaration { source: String, type_only: bool },
    /// `imported as local` inside an import declaration.
    ImportSpecifier { imported: String, local: String, type_only: bool },
    /// The default binding of an import declaration.
    ImportDefaultSpecifier { local: String },
    /// `* as local` inside an import declaration.
    ImportNamespaceSpecifier { local: String },
    /// `import(...)`, with its specifier where that is a string literal.
    ImportExpression { source: Option<String> },
    /// `export ...`, with or without a declaration, possibly from another module.
    ExportNamedDeclaration { source: Option<String>, has_declaration: bool },
    /// `local as exported` inside an export declaration.
    ExportSpecifier { local: String, exported: String },
    /// `export default ...`.
    ExportDefaultDeclaration,
    /// `export * from "source"`.
    ExportAllDeclaration { source: String },
    /// `const`, `let` or `var` with its declarators as children.
    VariableDeclaration,
    /// One declarator, with its name where it binds a plain identifier.
    VariableDeclarator { name: Option<String> },
    /// A function, declared or in an expression.
    Function { name: Option<String> },
    /// A class, declared or in an expression.
    Class { name: Option<String> },
    /// An interface declaration.
    Interface { name: String },
    /// A type alias declaration.
    TypeAlias { name: String },
    /// An enum declaration.
    Enum { name: String },
    /// Anything else.
    Other,
}

/// One node of the arena.
#[derive(Debug, Clone)]
pub struct AstNode {
    pub kind: NodeKind,
    /// Offset of its first byte.
    pub start: usize,
    /// Offset just past its last byte.
    pub end: usize,
    /// Index of the node that contains it; its own index for a root.
    pub parent: usize,
}

/// A declared binding with the places that use it.
#[derive(Debug, Clone)]
pub struct SymbolEntry {
    pub name: String,
    /// Byte offsets at which the uses start.
    pub references: Vec<usize>,
}

/// The nodes and symbols of one file.
#[derive(Debug, Clone)]
pub struct SyntaxTree {
    pub nodes: Vec<AstNode>,
    pub symbols: Vec<SymbolEntry>,
}

/// Every node's parent comes no later than the node, and no span ends before
/// it starts.
pub open spec fn nodes_wf(nodes: Seq<AstNode>) -> bool {
    forall|i: int|
        0 <= i < nodes.len() ==> (#[trigger] nodes[i]).parent <= i && nodes[i].start <= nodes[i].end
}

impl SyntaxTree {
    /// The nodes are well formed.
    pub open spec fn wf(&self) -> bool {
        nodes_wf(self.nodes@)
    }
}

/// What a node is, as plain text.
pub ghost enum KindView {
    Program,
    ImportDeclaration { source: Seq<char>, type_only: bool },
    ImportSpecifier { imported: Seq<char>, local: Seq<char>, type_only: bool },
    ImportDefaultSpecifier { local: Seq<char> },
    ImportNamespaceSpecifier { local: Seq<char> },
    ImportExpression { source: Option<Seq<char>> },
    ExportNamedDeclaration { source: Option<Seq<char>>, has_declaration: bool },
    ExportSpecifier { local: Seq<char>, exported: Seq<char> },
    ExportDefaultDeclaration,
    ExportAllDeclaration { source: Seq<char> },
    VariableDeclaration,
    VariableDeclarator { name: Option<Seq<char>> },
    Function { name: Option<Seq<char>> },
    Class { name: Option<Seq<char>> },
    Interface { name: Seq<char> },
    TypeAlias { name: Seq<char> },
    Enum { name: Seq<char> },
    Other,
}

impl View for NodeKind {
    type V = KindView;

    open spec fn view(&self) -> KindView {
        match self {
            NodeKind::Program => KindView::Program,
            NodeKind::ImportDeclaration { source, type_only } => KindView::ImportDeclaration {
                source: source@,
                type_only: *type_only,
            },
            NodeKind::ImportSpecifier { imported, local, type_only } => KindView::ImportSpecifier {
                imported: imported@,
                local: local@,
                type_only: *type_only,
            },
            NodeKind::ImportDefaultSpecifier { local } => KindView::ImportDefaultSpecifier { local: local@ },
            NodeKind::ImportNamespaceSpecifier { local } => KindView::ImportNamespaceSpecifier { local: local@ },
            NodeKind::ImportExpression { source } => KindView::ImportExpression { source: opt_text(*source) },
            NodeKind::ExportNamedDeclaration { source, has_declaration } => KindView::ExportNamedDeclaration {
                source: opt_text(*source),
                has_declaration: *has_declaration,
            },
            NodeKind::ExportSpecifier { local, exported } => KindView::ExportSpecifier {
                local: local@,
                exported: exported@,
            },
            NodeKind::ExportDefaultDeclaration => KindView::ExportDefaultDeclaration,
            NodeKind::ExportAllDeclaration { source } => KindView::ExportAllDeclaration { source: source@ },
            NodeKind::VariableDeclaration => KindView::VariableDeclaration,
            NodeKind::VariableDeclarator { name } => KindView::VariableDeclarator { name: opt_text(*name) },
            NodeKind::Function { name } => KindView::Function { name: opt_text(*name) },
            NodeKind::Class { name } => KindView::Class { name: opt_text(*name) },
            NodeKind::Interface { name } => KindView::Interface { name: name@ },
            NodeKind::TypeAlias { name } => KindView::TypeAlias { name: name@ },
            NodeKind::Enum { name } => KindView::Enum { name: name@ },
            NodeKind::Other => KindView::Other,
        }
    }
}

/// The kinds of node that the analysis tells apart.
#[derive(Debug, Clone, Copy, PartialEq, Eq, Structural)]
pub enum NodeTag {
    Program,
    ImportDeclaration,
    ImportSpecifier,
    ImportDefaultSpecifier,
    ImportNamespaceSpecifier,
    ImportExpression,
    ExportNamedDeclaration,
    ExportSpecifier,
    ExportDefaultDeclaration,
    ExportAllDeclaration,
    VariableDeclaration,
    VariableDeclarator,
    Function,
    Class,
    Interface,
    TypeAlias,
    Enum,
}

/// What the semantic analysis holds of one node, field by field as it is
/// asked for.
pub ghost struct RawNode {
    /// Start and end of its span.
    pub span: (u32, u32),
    /// The index of its parent.
    pub parent: usize,
    /// Which import or export node it is, if it is one.
    pub module_tag: Option<NodeTag>,
    /// Which declaration node it is, if it is one.
    pub declaration_tag: Option<NodeTag>,
    /// The local name of a specifier.
    pub local_name: Option<Seq<char>>,
    /// The imported or exported name of a specifier.
    pub outer_name: Option<Seq<char>>,
    /// The name of a function, class, interface, type alias or enum.
    pub declared_name: Option<Seq<char>>,
    /// The name of a declarator that binds a plain identifier.
    pub binding_name: Option<Seq<char>>,
    /// The module of an import or export declaration.
    pub module_source: Option<Seq<char>>,
    /// The module of an `import()` with a literal specifier.
    pub literal_source: Option<Seq<char>>,
    /// Whether an import declaration or specifier imports types only.
    pub type_only: Option<bool>,
    /// Whether an export declaration wraps a declaration.
    pub wraps_declaration: Option<bool>,
}

/// What the semantic analysis holds of one symbol.
pub ghost struct RawSymbol {
    pub name: Seq<char>,
    /// The offsets at which its uses start.
    pub uses: Seq<u32>,
}

/// `oxc_allocator::Allocator`: the arena that a parse fills.
#[verifier::external_type_specification]
#[verifier::external_body]
pub struct ExAllocator(Allocator);

/// `oxc_semantic::Semantic`: the node table and the symbol table of a file.
#[verifier::external_type_specification]
#[verifier::external_body]
pub struct ExSemantic<'a>(Semantic<'a>);

/// The nodes that a semantic analysis holds, in the order of its node table.
pub uninterp spec fn semantic_nodes(sem: &Semantic<'_>) -> Seq<RawNode>;

/// The symbols that a semantic analysis holds, in the order of its symbol
/// table.
pub uninterp spec fn semantic_symbols(sem: &Semantic<'_>) -> Seq<RawSymbol>;

/// Whether the extension of the file name stands for a dialect.
pub uninterp spec fn has_dialect(file_name: Seq<char>) -> bool;

/// Nodes and symbols of the text, parsed and analysed in the dialect that
/// the extension of the file name stands for.
pub uninterp spec fn analysed_as(text: Seq<char>, file_name: Seq<char>) -> (Seq<RawNode>, Seq<RawSymbol>);

/// Nodes and symbols of the text, parsed and analysed as TypeScript.
pub uninterp spec fn analysed_as_typescript(text: Seq<char>) -> (Seq<RawNode>, Seq<RawSymbol>);

/// `Allocator::default`: a fresh arena for one parse.
#[verifier::external_body]
fn new_arena() -> Allocator {
    Allocator::default()
}

/// `SourceType::from_path`: whether the extension of the file name stands
/// for a dialect.
#[verifier::external_body]
fn knows_dialect(file_name: &str) -> (r: bool)
    ensures
        r == has_dialect(file_name@),
{
    SourceType::from_path(file_name).is_ok()
}

/// `Parser::parse` in the dialect of `SourceType::from_path`, then
/// `SemanticBuilder::build` with the node table switched on: nodes and
/// symbols are those of the text in that dialect. The parser reports what it
/// cannot parse and returns what it could.
#[verifier::external_body]
fn analyse_as<'a>(arena: &'a Allocator, text: &'a str, file_name: &str) -> (sem: Semantic<'a>)
    requires
        has_dialect(file_name@),
    ensures
        (semantic_nodes(&sem), semantic_symbols(&sem)) == analysed_as(text@, file_name@),
{
    let dialect = SourceType::from_path(file_name).unwrap();
    let program = arena.alloc(Parser::new(arena, text, dialect).parse().program);
    SemanticBuilder::new().with_build_nodes(true).with_check_syntax_error(false).build(program).semantic
}

/// `Parser::parse` as TypeScript, then `SemanticBuilder::build` with the
/// node table switched on: nodes and symbols are those of the text as
/// TypeScript.
#[verifier::external_body]
fn analyse_as_typescript<'a>(arena: &'a Allocator, text: &'a str) -> (sem: Semantic<'a>)
    ensures
        (semantic_nodes(&sem), semantic_symbols(&sem)) == analysed_as_typescript(text@),
{
    let dialect = SourceType::default().with_typescript(true);
    let program = arena.alloc(Parser::new(arena, text, dialect).parse().program);
    SemanticBuilder::new().with_build_nodes(true).with_check_syntax_error(false).build(program).semantic
}

/// `AstNodes::len`: the number of nodes.
#[verifier::external_body]
fn node_count(sem: &Semantic<'_>) -> (n: usize)
    ensures
        n == semantic_nodes(sem).len(),
{
    sem.nodes().len()
}

/// `GetSpan::span` of the node at `index`: start and end.
#[verifier::external_body]
fn span_at(sem: &Semantic<'_>, index: usize) -> (r: Option<(u32, u32)>)
    requires
        index < semantic_nodes(sem).len(),
    ensures
        r == Some(semantic_nodes(sem)[index as int].span),
{
    sem.nodes().iter().nth(index).map(|node| node.kind().span()).map(|span| (span.start, span.end))
}

/// `AstNodes::parent_id` of the node at `index`.
#[verifier::external_body]
fn parent_at(sem: &Semantic<'_>, index: usize) -> (r: Option<usize>)
    requires
        index < semantic_nodes(sem).len(),
    ensures
        r == Some(semantic_nodes(sem)[index as int].parent),
{
    sem.nodes().iter_enumerated().nth(index).map(|(id, _)| sem.nodes().parent_id(id).index())
}

/// Which import or export node the node at `index` is, if it is one.
#[verifier::external_body]
fn module_tag(sem: &Semantic<'_>, index: usize) -> (r: Option<NodeTag>)
    requires
        index < semantic_nodes(sem).len(),
    ensures
        r == semantic_nodes(sem)[index as int].module_tag,
{
    match sem.nodes().iter().nth(index)?.kind() {
        AstKind::ImportDeclaration(_) => Some(NodeTag::ImportDeclaration),
        AstKind::ImportSpecifier(_) => Some(NodeTag::ImportSpecifier),
        AstKind::ImportDefaultSpecifier(_) => Some(NodeTag::ImportDefaultSpecifier),
        AstKind::ImportNamespaceSpecifier(_) => Some(NodeTag::ImportNamespaceSpecifier),
        AstKind::ImportExpression(_) => Some(NodeTag::ImportExpression),
        AstKind::ExportNamedDeclaration(_) => Some(NodeTag::ExportNamedDeclaration),
        AstKind::ExportSpecifier(_) => Some(NodeTag::ExportSpecifier),
        AstKind::ExportDefaultDeclaration(_) => Some(NodeTag::ExportDefaultDeclaration),
        AstKind::ExportAllDeclaration(_) => Some(NodeTag::ExportAllDeclaration),
        _ => None,
    }
}

/// Which declaration node the node at `index` is, if it is one.
#[verifier::external_body]
fn declaration_tag(sem: &Semantic<'_>, index: usize) -> (r: Option<NodeTag>)
    requires
        index < semantic_nodes(sem).len(),
    ensures
        r == semantic_nodes(sem)[index as int].declaration_tag,
{
    match sem.nodes().iter().nth(index)?.kind() {
        AstKind::Program(_) => Some(NodeTag::Program),
        AstKind::VariableDeclaration(_) => Some(NodeTag::VariableDeclaration),
        AstKind::VariableDeclarator(_) => Some(NodeTag::VariableDeclarator),
        AstKind::Function(_) => Some(NodeTag::Function),
        AstKind::Class(_) => Some(NodeTag::Class),
        AstKind::TSInterfaceDeclaration(_) => Some(NodeTag::Interface),
        AstKind::TSTypeAliasDeclaration(_) => Some(NodeTag::TypeAlias),
        AstKind::TSEnumDeclaration(_) => Some(NodeTag::Enum),
        _ => None,
    }
}

/// The field `local` of the import or export specifier at `index`, as text.
#[verifier::external_body]
fn local_name(sem: &Semantic<'_>, index: usize) -> (r: Option<String>)
    requires
        index < semantic_nodes(sem).len(),
    ensures
        opt_text(r) == semantic_nodes(sem)[index as int].local_name,
{
    match sem.nodes().iter().nth(index)?.kind() {
        AstKind::ImportSpecifier(it) => Some(it.local.name.to_string()),
        AstKind::ImportDefaultSpecifier(it) => Some(it.local.name.to_string()),
        AstKind::ImportNamespaceSpecifier(it) => Some(it.local.name.to_string()),
        AstKind::ExportSpecifier(it) => Some(it.local.name().to_string()),
        _ => None,
    }
}

/// The field `imported` of the import specifier or `exported` of the export
/// specifier at `index`, as text.
#[verifier::external_body]
fn outer_name(sem: &Semantic<'_>, index: usize) -> (r: Option<String>)
    requires
        index < semantic_nodes(sem).len(),
    ensures
        opt_text(r) == semantic_nodes(sem)[index as int].outer_name,
{
    match sem.nodes().iter().nth(index)?.kind() {
        AstKind::ImportSpecifier(it) => Some(it.imported.name().to_string()),
        AstKind::ExportSpecifier(it) => Some(it.exported.name().to_string()),
        _ => None,
    }
}

/// The field `id` of the function, class, interface, type alias or enum at
/// `index`, as text, where it has one.
#[verifier::external_body]
fn declared_name(sem: &Semantic<'_>, index: usize) -> (r: Option<String>)
    requires
        index < semantic_nodes(sem).len(),
    ensures
        opt_text(r) == semantic_nodes(sem)[index as int].declared_name,
{
    match sem.nodes().iter().nth(index)?.kind() {
        AstKind::Function(it) => it.id.as_ref().map(|id| id.name.to_string()),
        AstKind::Class(it) => it.id.as_ref().map(|id| id.name.to_string()),
        AstKind::TSInterfaceDeclaration(it) => Some(it.id.name.to_string()),
        AstKind::TSTypeAliasDeclaration(it) => Some(it.id.name.to_string()),
        AstKind::TSEnumDeclaration(it) => Some(it.id.name.to_string()),
        _ => None,
    }
}

/// The field `id` of the variable declarator at `index`, as text, where it
/// is a plain identifier.
#[verifier::external_body]
fn binding_name(sem: &Semantic<'_>, index: usize) -> (r: Option<String>)
    requires
        index < semantic_nodes(sem).len(),
    ensures
        opt_text(r) == semantic_nodes(sem)[index as int].binding_name,
{
    match sem.nodes().iter().nth(index)?.kind() {
        AstKind::VariableDeclarator(it) => match &it.id {
            BindingPattern::BindingIdentifier(id) => Some(id.name.to_string()),
            _ => None,
        },
        _ => None,
    }
}

/// The field `source` of the import or export declaration at `index`, as
/// text.
#[verifier::external_body]
fn module_source(sem: &Semantic<'_>, index: usize) -> (r: Option<String>)
    requires
        index < semantic_nodes(sem).len(),
    ensures
        opt_text(r) == semantic_nodes(sem)[index as int].module_source,
{
    match sem.nodes().iter().nth(index)?.kind() {
        AstKind::ImportDeclaration(it) => Some(it.source.value.to_string()),
        AstKind::ExportNamedDeclaration(it) => it.source.as_ref().map(|s| s.value.to_string()),
        AstKind::ExportAllDeclaration(it) => Some(it.source.value.to_string()),
        _ => None,
    }
}

/// The field `source` of the `import()` expression at `index`, as text,
/// where it is a string literal.
#[verifier::external_body]
fn literal_source(sem: &Semantic<'_>, index: usize) -> (r: Option<String>)
    requires
        index < semantic_nodes(sem).len(),
    ensures
        opt_text(r) == semantic_nodes(sem)[index as int].literal_source,
{
    match sem.nodes().iter().nth(index)?.kind() {
        AstKind::ImportExpression(it) => match &it.source {
            Expression::StringLiteral(lit) => Some(lit.value.to_string()),
            _ => None,
        },
        _ => None,
    }
}

/// `ImportOrExportKind::is_type` of the field `import_kind` of the import
/// declaration or specifier at `index`.
#[verifier::external_body]
fn imports_type_only(sem: &Semantic<'_>, index: usize) -> (r: Option<bool>)
    requires
        index < semantic_nodes(sem).len(),
    ensures
        r == semantic_nodes(sem)[index as int].type_only,
{
    match sem.nodes().iter().nth(index)?.kind() {
        AstKind::ImportDeclaration(it) => Some(it.import_kind.is_type()),
        AstKind::ImportSpecifier(it) => Some(it.import_kind.is_type()),
        _ => None,
    }
}

/// Whether the field `declaration` of the export declaration at `index`
/// holds one.
#[verifier::external_body]
fn wraps_declaration(sem: &Semantic<'_>, index: usize) -> (r: Option<bool>)
    requires
        index < semantic_nodes(sem).len(),
    ensures
        r == semantic_nodes(sem)[index as int].wraps_declaration,
{
    match sem.nodes().iter().nth(index)?.kind() {
        AstKind::ExportNamedDeclaration(it) => Some(it.declaration.is_some()),
        _ => None,
    }
}

/// `Scoping::symbols_len`: the number of symbols.
#[verifier::external_body]
fn symbol_count(sem: &Semantic<'_>) -> (n: usize)
    ensures
        n == semantic_symbols(sem).len(),
{
    sem.scoping().symbols_len()
}

/// `Scoping::symbol_name` of the symbol at `index` of `Scoping::symbol_ids`.
#[verifier::external_body]
fn symbol_name(sem: &Semantic<'_>, index: usize) -> (r: Option<String>)
    requires
        index < semantic_symbols(sem).len(),
    ensures
        opt_text(r) == Some(semantic_symbols(sem)[index as int].name),
{
    sem.scoping().symbol_ids().nth(index).map(|id| sem.scoping().symbol_name(id).to_string())
}

/// The length of `Scoping::get_resolved_reference_ids` of the symbol at
/// `index`: the number of its uses.
#[verifier::external_body]
fn use_count(sem: &Semantic<'_>, index: usize) -> (r: Option<usize>)
    requires
        index < semantic_symbols(sem).len(),
    ensures
        r is Some,
        r.unwrap() == semantic_symbols(sem)[index as int].uses.len(),
{
    sem.scoping().symbol_ids().nth(index).map(|id| sem.scoping().get_resolved_reference_ids(id).len())
}

/// The start of `Semantic::reference_span` of the reference at `nth` of
/// `Semantic::symbol_references` of the symbol at `index`.
#[verifier::external_body]
fn use_offset(sem: &Semantic<'_>, index: usize, nth: usize) -> (r: Option<u32>)
    requires
        index < semantic_symbols(sem).len(),
        nth < semantic_symbols(sem)[index as int].uses.len(),
    ensures
        r == Some(semantic_symbols(sem)[index as int].uses[nth as int]),
{
    let id = sem.scoping().symbol_ids().nth(index)?;
    sem.symbol_references(id).nth(nth).map(|reference| sem.reference_span(reference).start)
}

/// The text, or the empty text where there is none.
pub open spec fn text_or_empty(text: Option<Seq<char>>) -> Seq<char> {
    match text {
        Some(t) => t,
        None => Seq::empty(),
    }
}

/// Which kind of node the analysis takes a node for: an import or export
/// node where it is one, else a declaration node where it is one.
pub open spec fn tag_of(raw: RawNode) -> Option<NodeTag> {
    match raw.module_tag {
        Some(t) => Some(t),
        None => raw.declaration_tag,
    }
}

/// What a node is, from what the semantic analysis holds of it: its kind
/// with the names that belong to the kind. A name or module that a kind must
/// have and that is missing is the empty text; a flag that is missing is
/// false.
pub open spec fn kind_of(raw: RawNode) -> KindView {
    match tag_of(raw) {
        None => KindView::Other,
        Some(NodeTag::Program) => KindView::Program,
        Some(NodeTag::ImportDeclaration) => KindView::ImportDeclaration {
            source: text_or_empty(raw.module_source),
            type_only: raw.type_only == Some(true),
        },
        Some(NodeTag::ImportSpecifier) => KindView::ImportSpecifier {
            imported: text_or_empty(raw.outer_name),
            local: text_or_empty(raw.local_name),
            type_only: raw.type_only == Some(true),
        },
        Some(NodeTag::ImportDefaultSpecifier) => KindView::ImportDefaultSpecifier {
            local: text_or_empty(raw.local_name),
        },
        Some(NodeTag::ImportNamespaceSpecifier) => KindView::ImportNamespaceSpecifier {
            local: text_or_empty(raw.local_name),
        },
        Some(NodeTag::ImportExpression) => KindView::ImportExpression { source: raw.literal_source },
        Some(NodeTag::ExportNamedDeclaration) => KindView::ExportNamedDeclaration {
            source: raw.module_source,
            has_declaration: raw.wraps_declaration == Some(true),
        },
        Some(NodeTag::ExportSpecifier) => KindView::ExportSpecifier {
            local: text_or_empty(raw.local_name),
            exported: text_or_empty(raw.outer_name),
        },
        Some(NodeTag::ExportDefaultDeclaration) => KindView::ExportDefaultDeclaration,
        Some(NodeTag::ExportAllDeclaration) => KindView::ExportAllDeclaration {
            source: text_or_empty(raw.module_source),
        },
        Some(NodeTag::VariableDeclaration) => KindView::VariableDeclaration,
        Some(NodeTag::VariableDeclarator) => KindView::VariableDeclarator { name: raw.binding_name },
        Some(NodeTag::Function) => KindView::Function { name: raw.declared_name },
        Some(NodeTag::Class) => KindView::Class { name: raw.declared_name },
        Some(NodeTag::Interface) => KindView::Interface { name: text_or_empty(raw.declared_name) },
        Some(NodeTag::TypeAlias) => KindView::TypeAlias { name: text_or_empty(raw.declared_name) },
        Some(NodeTag::Enum) => KindView::Enum { name: text_or_empty(raw.declared_name) },
    }
}

/// The node at index `i` is the node that the semantic analysis holds as
/// `raw`: it has its kind and the start of its span; its end is the end of
/// the span, or the start where the span ends before it starts; its parent
/// is the parent that the analysis names, or the node itself where that
/// would come after it.
pub open spec fn is_node_of(node: AstNode, raw: RawNode, i: int) -> bool {
    &&& node.kind@ == kind_of(raw)
    &&& node.start == raw.span.0
    &&& node.end == if raw.span.1 >= raw.span.0 {
        raw.span.1
    } else {
        raw.span.0
    }
    &&& node.parent == if raw.parent <= i {
        raw.parent as int
    } else {
        i
    }
}

/// The nodes are those that the semantic analysis holds, in its order.
pub open spec fn are_nodes_of(nodes: Seq<AstNode>, raws: Seq<RawNode>) -> bool {
    nodes.len() == raws.len() && forall|i: int| 0 <= i < nodes.len() ==> is_node_of(#[trigger] nodes[i], raws[i], i)
}

/// The symbols are those that the semantic analysis holds, in its order,
/// each with its name and the offsets of its uses.
pub open spec fn are_symbols_of(symbols: Seq<SymbolEntry>, raws: Seq<RawSymbol>) -> bool {
    symbols.len() == raws.len() && forall|k: int|
        0 <= k < symbols.len() ==> (#[trigger] symbols[k]).name@ == raws[k].name && symbols[k].references@
            == raws[k].uses.map_values(|offset: u32| offset as usize)
}

/// The tree is the one that these nodes and symbols of a semantic analysis
/// give.
pub open spec fn is_tree_of(tree: SyntaxTree, raw: (Seq<RawNode>, Seq<RawSymbol>)) -> bool {
    are_nodes_of(tree.nodes@, raw.0) && are_symbols_of(tree.symbols@, raw.1)
}

/// Nodes and symbols of the text of a file with this name: analysed in the
/// dialect of the name where its extension stands for one, else as
/// TypeScript.
pub open spec fn analysed(text: Seq<char>, file_name: Seq<char>) -> (Seq<RawNode>, Seq<RawSymbol>) {
    if has_dialect(file_name) {
        analysed_as(text, file_name)
    } else {
        analysed_as_typescript(text)
    }
}

fn text_or_empty_of(text: Option<String>) -> (out: String)
    ensures
        out@ == text_or_empty(opt_text(text)),
{
    match text {
        Some(t) => t,
        None => String::new(),
    }
}

/// The kind of the node at `index`, with the names that belong to it.
fn read_kind(sem: &Semantic<'_>, index: usize) -> (kind: NodeKind)
    requires
        index < semantic_nodes(sem).len(),
    ensures
        kind@ == kind_of(semantic_nodes(sem)[index as int]),
{
    let tag = match module_tag(sem, index) {
        Some(t) => Some(t),
        None => declaration_tag(sem, index),
    };
    match tag {
        None => NodeKind::Other,
        Some(NodeTag::Program) => NodeKind::Program,
        Some(NodeTag::ImportDeclaration) => NodeKind::ImportDeclaration {
            source: text_or_empty_of(module_source(sem, index)),
            type_only: imports_type_only(sem, index) == Some(true),
        },
        Some(NodeTag::ImportSpecifier) => NodeKind::ImportSpecifier {
            imported: text_or_empty_of(outer_name(sem, index)),
            local: text_or_empty_of(local_name(sem, index)),
            type_only: imports_type_only(sem, index) == Some(true),
        },
        Some(NodeTag::ImportDefaultSpecifier) => NodeKind::ImportDefaultSpecifier {
            local: text_or_empty_of(local_name(sem, index)),
        },
        Some(NodeTag::ImportNamespaceSpecifier) => NodeKind::ImportNamespaceSpecifier {
            local: text_or_empty_of(local_name(sem, index)),
        },
        Some(NodeTag::ImportExpression) => NodeKind::ImportExpression { source: literal_source(sem, index) },
        Some(NodeTag::ExportNamedDeclaration) => NodeKind::ExportNamedDeclaration {
            source: module_source(sem, index),
            has_declaration: wraps_declaration(sem, index) == Some(true),
        },
        Some(NodeTag::ExportSpecifier) => NodeKind::ExportSpecifier {
            local: text_or_empty_of(local_name(sem, index)),
            exported: text_or_empty_of(outer_name(sem, index)),
        },
        Some(NodeTag::ExportDefaultDeclaration) => NodeKind::ExportDefaultDeclaration,
        Some(NodeTag::ExportAllDeclaration) => NodeKind::ExportAllDeclaration {
            source: text_or_empty_of(module_source(sem, index)),
        },
        Some(NodeTag::VariableDeclaration) => NodeKind::VariableDeclaration,
        Some(NodeTag::VariableDeclarator) => NodeKind::VariableDeclarator { name: binding_name(sem, index) },
        Some(NodeTag::Function) => NodeKind::Function { name: declared_name(sem, index) },
        Some(NodeTag::Class) => NodeKind::Class { name: declared_name(sem, index) },
        Some(NodeTag::Interface) => NodeKind::Interface { name: text_or_empty_of(declared_name(sem, index)) },
        Some(NodeTag::TypeAlias) => NodeKind::TypeAlias { name: text_or_empty_of(declared_name(sem, index)) },
        Some(NodeTag::Enum) => NodeKind::Enum { name: text_or_empty_of(declared_name(sem, index)) },
    }
}

/// The nodes of a semantic analysis, in its order, made well formed.
fn read_nodes(sem: &Semantic<'_>) -> (nodes: Vec<AstNode>)
    ensures
        nodes_wf(nodes@),
        are_nodes_of(nodes@, semantic_nodes(sem)),
{
    let count = node_count(sem);
    let mut nodes: Vec<AstNode> = Vec::new();
    let mut i: usize = 0;
    while i < count
        invariant
            i <= count,
            count == semantic_nodes(sem).len(),
            nodes@.len() == i,
            nodes_wf(nodes@),
            forall|j: int| 0 <= j < i ==> is_node_of(#[trigger] nodes@[j], semantic_nodes(sem)[j], j),
        decreases count - i,
    {
        let kind = read_kind(sem, i);
        let (first, last) = match span_at(sem, i) {
            Some(span) => span,
            None => (0, 0),
        };
        let start = first as usize;
        let end = if last >= first {
            last as usize
        } else {
            start
        };
        let parent = match parent_at(sem, i) {
            Some(p) => if p <= i {
                p
            } else {
                i
            },
            None => i,
        };
        let node = AstNode { kind, start, end, parent };
        let ghost before = nodes@;
        nodes.push(node);
        proof {
            assert forall|j: int| 0 <= j < nodes.len() implies (#[trigger] nodes@[j]).parent <= j && nodes@[j].start
                <= nodes@[j].end by {
                if j < before.len() {
                    assert(nodes@[j] == before[j]);
                }
            }
            assert forall|j: int| 0 <= j < i + 1 implies is_node_of(
                #[trigger] nodes@[j],
                semantic_nodes(sem)[j],
                j,
            ) by {
                if j < i {
                    assert(nodes@[j] == before[j]);
                }
            }
        }
        i += 1;
    }
    nodes
}

/// The symbols of a semantic analysis, in its order, each with the offsets
/// of its uses.
fn read_symbols(sem: &Semantic<'_>) -> (symbols: Vec<SymbolEntry>)
    ensures
        are_symbols_of(symbols@, semantic_symbols(sem)),
{
    let count = symbol_count(sem);
    let mut symbols: Vec<SymbolEntry> = Vec::new();
    let mut i: usize = 0;
    while i < count
        invariant
            i <= count,
            count == semantic_symbols(sem).len(),
            symbols@.len() == i,
            forall|k: int|
                0 <= k < i ==> (#[trigger] symbols@[k]).name@ == semantic_symbols(sem)[k].name
                    && symbols@[k].references@ == semantic_symbols(sem)[k].uses.map_values(
                    |offset: u32| offset as usize,
                ),
        decreases count - i,
    {
        let name = text_or_empty_of(symbol_name(sem, i));
        let uses = match use_count(sem, i) {
            Some(n) => n,
            None => 0,
        };
        let ghost all = semantic_symbols(sem)[i as int].uses.map_values(|offset: u32| offset as usize);
        let mut references: Vec<usize> = Vec::new();
        let mut k: usize = 0;
        assert(references@ =~= all.take(0));
        while k < uses
            invariant
                k <= uses,
                i < semantic_symbols(sem).len(),
                uses == semantic_symbols(sem)[i as int].uses.len(),
                all == semantic_symbols(sem)[i as int].uses.map_values(|offset: u32| offset as usize),
                references@ == all.take(k as int),
            decreases uses - k,
        {
            let offset = match use_offset(sem, i, k) {
                Some(offset) => offset,
                None => 0,
            };
            references.push(offset as usize);
            assert(all.take(k + 1) =~= all.take(k as int).push(all[k as int]));
            k += 1;
        }
        assert(all.take(uses as int) =~= all);
        let ghost before = symbols@;
        symbols.push(SymbolEntry { name, references });
        assert forall|j: int| 0 <= j < i + 1 implies (#[trigger] symbols@[j]).name@ == semantic_symbols(sem)[j].name
            && symbols@[j].references@ == semantic_symbols(sem)[j].uses.map_values(
            |offset: u32| offset as usize,
        ) by {
            if j < i {
                assert(symbols@[j] == before[j]);
            }
        }
        i += 1;
    }
    symbols
}

/// Parses `source` in the dialect that the extension of `file_name` names
/// (TypeScript where it names none) and reads the nodes and the symbol
/// table that the parser and the semantic analysis produce. A file that does
/// not parse gives what could be parsed of it.
pub fn parse_module(source: &str, file_name: &str) -> (tree: SyntaxTree)
    ensures
        tree.wf(),
        is_tree_of(tree, analysed(source@, file_name@)),
{
    let arena = new_arena();
    let sem = if knows_dialect(file_name) {
        analyse_as(&arena, source, file_name)
    } else {
        analyse_as_typescript(&arena, source)
    };
    let nodes = read_nodes(&sem);
    let symbols = read_symbols(&sem);
    SyntaxTree { nodes, symbols }
}

} // verus!
