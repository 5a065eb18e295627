//! Which top-level symbol stands at a position.
//!
//! The smallest node that covers the position decides where the search
//! starts. From there it goes outwards: an export statement gives the name
//! under which it exports, and ends the search; else the outermost named
//! declaration around the position gives the name.

use vstd::prelude::*;
use crate::extract::wrapped_declaration;
use crate::syntax::{nodes_wf, AstNode, NodeKind};
use crate::text::clone_opt;
use crate::types::opt_text;

verus! {

/// The name that a declaration node gives to what it declares.
pub open spec fn own_name(kind: NodeKind) -> Option<Seq<char>> {
    match kind {
        NodeKind::Function { name } => opt_text(name),
        NodeKind::Class { name } => opt_text(name),
        NodeKind::Interface { name } => Some(name@),
        NodeKind::TypeAlias { name } => Some(name@),
        NodeKind::Enum { name } => Some(name@),
        NodeKind::VariableDeclarator { name } => opt_text(name),
        _ => None,
    }
}

/// The name of the first declarator with a plain name among the children of
/// the variable declaration `d`, looked for from node `from` on and no further
/// than the nodes that `d` contains.
pub open spec fn first_declarator(nodes: Seq<AstNode>, d: int, from: int) -> Option<Seq<char>>
    decreases nodes.len() - from,
{
    if from <= d || from >= nodes.len() || nodes[from].parent < d {
        None
    } else if nodes[from].parent == d && nodes[from].kind is VariableDeclarator && own_name(nodes[from].kind)
        is Some {
        own_name(nodes[from].kind)
    } else {
        first_declarator(nodes, d, from + 1)
    }
}

/// The name under which the export statement at `e` exports the declaration
/// that it wraps: that of the first plainly named declarator, of the function,
/// class, interface, type alias or enum. Nothing for a statement that wraps no
/// declaration, or one that gives no such name.
pub open spec fn exported_declaration_name(nodes: Seq<AstNode>, e: int) -> Option<Seq<char>> {
    match wrapped_declaration(nodes, e) {
        None => None,
        Some(d) => match nodes[d].kind {
            NodeKind::VariableDeclaration => first_declarator(nodes, d, d + 1),
            NodeKind::VariableDeclarator { name } => None,
            other => own_name(other),
        },
    }
}

/// The byte at `offset` lies inside node `i` or just past its end.
pub open spec fn covers(nodes: Seq<AstNode>, i: int, offset: nat) -> bool {
    nodes[i].start <= offset <= nodes[i].end
}

/// The length of node `i` in bytes.
pub open spec fn extent(nodes: Seq<AstNode>, i: int) -> int {
    nodes[i].end - nodes[i].start
}

/// Node `i` takes the place of the best node `best` found so far: it is
/// shorter, or as short and not the program while `best` is.
pub open spec fn improves(nodes: Seq<AstNode>, i: int, best: int) -> bool {
    extent(nodes, i) < extent(nodes, best) || (extent(nodes, i) == extent(nodes, best) && !(nodes[i].kind
        is Program) && nodes[best].kind is Program)
}

/// The smallest of the first `count` nodes that covers `offset`; among nodes
/// of the same length the first that is not the program, else the first.
pub open spec fn smallest_covering(nodes: Seq<AstNode>, offset: nat, count: int) -> Option<int>
    decreases count,
{
    if count <= 0 || count > nodes.len() {
        None
    } else {
        let before = smallest_covering(nodes, offset, count - 1);
        let i = count - 1;
        if !covers(nodes, i, offset) {
            before
        } else {
            match before {
                None => Some(i),
                Some(best) => if improves(nodes, i, best) {
                    Some(i)
                } else {
                    before
                },
            }
        }
    }
}

/// What is known while climbing from a node towards the program: the name
/// found so far, and whether an export statement was passed.
pub struct Climb {
    pub name: Option<Seq<char>>,
    pub exported: bool,
}

/// What passing through node `at` adds to what is known. An export
/// statement takes over: it gives the name that it exports its declaration
/// under, and from then on no declaration further out gives a name. Before
/// that, each named declaration replaces the name found so far.
pub open spec fn pass(nodes: Seq<AstNode>, at: int, known: Climb) -> Climb {
    match nodes[at].kind {
        NodeKind::ExportNamedDeclaration { source, has_declaration } => Climb {
            name: if has_declaration {
                exported_declaration_name(nodes, at)
            } else {
                known.name
            },
            exported: true,
        },
        NodeKind::ExportDefaultDeclaration => Climb { name: Some("default"@), exported: true },
        other => if !known.exported && own_name(other) is Some {
            Climb { name: own_name(other), exported: false }
        } else {
            known
        },
    }
}

/// What is known at the node where the climb starts: only an export
/// statement counts there.
pub open spec fn depart(nodes: Seq<AstNode>, at: int) -> Climb {
    match nodes[at].kind {
        NodeKind::ExportNamedDeclaration { source, has_declaration } => Climb {
            name: if has_declaration {
                exported_declaration_name(nodes, at)
            } else {
                None
            },
            exported: true,
        },
        NodeKind::ExportDefaultDeclaration => Climb { name: Some("default"@), exported: true },
        _ => Climb { name: None, exported: false },
    }
}

/// The name that the climb from node `at` ends with: it stops at the first
/// export statement that gives a name, else at the root.
pub open spec fn climb(nodes: Seq<AstNode>, at: int, known: Climb) -> Option<Seq<char>>
    decreases at,
{
    if known.exported && known.name is Some {
        known.name
    } else if at <= 0 || at >= nodes.len() || nodes[at].parent >= at {
        known.name
    } else {
        climb(nodes, nodes[at].parent as int, pass(nodes, nodes[at].parent as int, known))
    }
}

/// The top-level symbol that contains the byte at `offset`.
pub open spec fn symbol_at_offset(nodes: Seq<AstNode>, offset: nat) -> Option<Seq<char>> {
    match smallest_covering(nodes, offset, nodes.len() as int) {
        None => None,
        Some(at) => climb(nodes, at, depart(nodes, at)),
    }
}

proof fn lemma_smallest_in_range(nodes: Seq<AstNode>, offset: nat, count: int)
    ensures
        match smallest_covering(nodes, offset, count) {
            Some(i) => 0 <= i < count && i < nodes.len(),
            None => true,
        },
    decreases count,
{
    if count > 0 && count <= nodes.len() {
        lemma_smallest_in_range(nodes, offset, count - 1);
    }
}

fn own_name_of(kind: &NodeKind) -> (r: Option<String>)
    ensures
        opt_text(r) == own_name(*kind),
{
    match kind {
        NodeKind::Function { name } => clone_opt(name),
        NodeKind::Class { name } => clone_opt(name),
        NodeKind::Interface { name } => Some(name.clone()),
        NodeKind::TypeAlias { name } => Some(name.clone()),
        NodeKind::Enum { name } => Some(name.clone()),
        NodeKind::VariableDeclarator { name } => clone_opt(name),
        _ => None,
    }
}

/// The name under which the export statement at `e` exports the declaration
/// that it wraps, if it gives one.
pub fn extract_symbol_from_export_decl(nodes: &Vec<AstNode>, e: usize) -> (r: Option<String>)
    ensures
        opt_text(r) == exported_declaration_name(nodes@, e as int),
{
    if e >= nodes.len() || nodes.len() - e < 2 || nodes[e + 1].parent != e {
        return None;
    }
    let wrapping = match &nodes[e].kind {
        NodeKind::ExportNamedDeclaration { source, has_declaration } => *has_declaration,
        _ => false,
    };
    if !wrapping {
        return None;
    }
    let d = e + 1;
    match &nodes[d].kind {
        NodeKind::VariableDeclaration => {
            let mut j: usize = d + 1;
            while j < nodes.len()
                invariant
                    d < j <= nodes.len(),
                    exported_declaration_name(nodes@, e as int) == first_declarator(nodes@, d as int, d + 1),
                    first_declarator(nodes@, d as int, d + 1) == first_declarator(nodes@, d as int, j as int),
                decreases nodes.len() - j,
            {
                if nodes[j].parent < d {
                    return None;
                }
                if nodes[j].parent == d {
                    match &nodes[j].kind {
                        NodeKind::VariableDeclarator { name: Some(n) } => {
                            return Some(n.clone());
                        },
                        _ => {},
                    }
                }
                j += 1;
            }
            None
        },
        NodeKind::VariableDeclarator { name } => None,
        other => own_name_of(other),
    }
}

/// The smallest node that covers `offset`.
fn smallest_node_at(nodes: &Vec<AstNode>, offset: usize) -> (r: Option<usize>)
    requires
        nodes_wf(nodes@),
    ensures
        match r {
            Some(i) => smallest_covering(nodes@, offset as nat, nodes@.len() as int) == Some(i as int) && i
                < nodes@.len(),
            None => smallest_covering(nodes@, offset as nat, nodes@.len() as int) is None,
        },
{
    let mut best: Option<usize> = None;
    let mut i: usize = 0;
    while i < nodes.len()
        invariant
            i <= nodes.len(),
            nodes_wf(nodes@),
            match best {
                Some(b) => smallest_covering(nodes@, offset as nat, i as int) == Some(b as int) && b < i,
                None => smallest_covering(nodes@, offset as nat, i as int) is None,
            },
        decreases nodes.len() - i,
    {
        if nodes[i].start <= offset && offset <= nodes[i].end {
            match best {
                None => {
                    best = Some(i);
                },
                Some(b) => {
                    let size = nodes[i].end - nodes[i].start;
                    let best_size = nodes[b].end - nodes[b].start;
                    let is_program = match &nodes[i].kind {
                        NodeKind::Program => true,
                        _ => false,
                    };
                    let best_is_program = match &nodes[b].kind {
                        NodeKind::Program => true,
                        _ => false,
                    };
                    if size < best_size || (size == best_size && !is_program && best_is_program) {
                        best = Some(i);
                    }
                },
            }
        }
        i += 1;
    }
    best
}

/// The top-level symbol that contains the byte at `offset`: from the
/// smallest node that covers it, out to the program.
pub fn symbol_at_byte(nodes: &Vec<AstNode>, offset: usize) -> (r: Option<String>)
    requires
        nodes_wf(nodes@),
    ensures
        opt_text(r) == symbol_at_offset(nodes@, offset as nat),
{
    let start = match smallest_node_at(nodes, offset) {
        None => {
            return None;
        },
        Some(s) => s,
    };
    let mut name: Option<String> = None;
    let mut exported = false;
    match &nodes[start].kind {
        NodeKind::ExportNamedDeclaration { source, has_declaration } => {
            exported = true;
            if *has_declaration {
                name = extract_symbol_from_export_decl(nodes, start);
            }
        },
        NodeKind::ExportDefaultDeclaration => {
            exported = true;
            name = Some(String::from_str("default"));
        },
        _ => {},
    }
    let mut at = start;
    while !(exported && name.is_some()) && at > 0 && nodes[at].parent < at
        invariant
            at < nodes.len(),
            nodes_wf(nodes@),
            climb(nodes@, start as int, depart(nodes@, start as int)) == climb(
                nodes@,
                at as int,
                Climb { name: opt_text(name), exported },
            ),
        decreases at,
    {
        let parent = nodes[at].parent;
        let ghost known = Climb { name: opt_text(name), exported };
        match &nodes[parent].kind {
            NodeKind::ExportNamedDeclaration { source, has_declaration } => {
                exported = true;
                if *has_declaration {
                    name = extract_symbol_from_export_decl(nodes, parent);
                }
            },
            NodeKind::ExportDefaultDeclaration => {
                exported = true;
                name = Some(String::from_str("default"));
            },
            other => {
                if !exported {
                    match own_name_of(other) {
                        Some(n) => {
                            name = Some(n);
                        },
                        None => {},
                    }
                }
            },
        }
        assert((Climb { name: opt_text(name), exported }) == pass(nodes@, parent as int, known));
        at = parent;
    }
    name
}

/// `name` is `default` or the name that some node of `nodes` declares.
pub open spec fn named_in(nodes: Seq<AstNode>, name: Seq<char>) -> bool {
    name == "default"@ || exists|i: int| 0 <= i < nodes.len() && own_name((#[trigger] nodes[i]).kind) == Some(name)
}

proof fn lemma_first_declarator_named(nodes: Seq<AstNode>, d: int, from: int)
    ensures
        match first_declarator(nodes, d, from) {
            Some(n) => named_in(nodes, n),
            None => true,
        },
    decreases nodes.len() - from,
{
    if from <= d || from >= nodes.len() || nodes[from].parent < d {
    } else if nodes[from].parent == d && nodes[from].kind is VariableDeclarator && own_name(nodes[from].kind)
        is Some {
        assert(own_name(nodes[from].kind) == first_declarator(nodes, d, from));
    } else {
        lemma_first_declarator_named(nodes, d, from + 1);
    }
}

proof fn lemma_exported_name_named(nodes: Seq<AstNode>, e: int)
    ensures
        match exported_declaration_name(nodes, e) {
            Some(n) => named_in(nodes, n),
            None => true,
        },
{
    match wrapped_declaration(nodes, e) {
        None => {},
        Some(d) => {
            lemma_first_declarator_named(nodes, d, d + 1);
            if exported_declaration_name(nodes, e) is Some && !(nodes[d].kind is VariableDeclaration) {
                assert(own_name(nodes[d].kind) == exported_declaration_name(nodes, e));
            }
        },
    }
}

proof fn lemma_climb_named(nodes: Seq<AstNode>, at: int, known: Climb)
    requires
        0 <= at < nodes.len(),
        match known.name {
            Some(n) => named_in(nodes, n),
            None => true,
        },
    ensures
        match climb(nodes, at, known) {
            Some(n) => named_in(nodes, n),
            None => true,
        },
    decreases at,
{
    if known.exported && known.name is Some {
    } else if at <= 0 || at >= nodes.len() || nodes[at].parent >= at {
    } else {
        let p = nodes[at].parent as int;
        lemma_exported_name_named(nodes, p);
        let next = pass(nodes, p, known);
        if next.name is Some && next.name != known.name {
            if !(nodes[p].kind is ExportNamedDeclaration) && !(nodes[p].kind is ExportDefaultDeclaration) {
                assert(own_name(nodes[p].kind) == next.name);
            }
        }
        lemma_climb_named(nodes, p, next);
    }
}

/// The symbol found at an offset is `default` or a name that a node declares.
pub proof fn lemma_symbol_named(nodes: Seq<AstNode>, offset: nat)
    ensures
        match symbol_at_offset(nodes, offset) {
            Some(n) => named_in(nodes, n),
            None => true,
        },
{
    match smallest_covering(nodes, offset, nodes.len() as int) {
        None => {},
        Some(at) => {
            lemma_smallest_in_range(nodes, offset, nodes.len() as int);
            lemma_exported_name_named(nodes, at);
            lemma_climb_named(nodes, at, depart(nodes, at));
        },
    }
}

/// No node covers an offset beyond the largest number of the machine.
pub proof fn lemma_nothing_covers(nodes: Seq<AstNode>, offset: nat, count: int)
    requires
        offset > usize::MAX,
    ensures
        smallest_covering(nodes, offset, count) is None,
    decreases count,
{
    if count > 0 && count <= nodes.len() {
        lemma_nothing_covers(nodes, offset, count - 1);
    }
}

} // verus!
