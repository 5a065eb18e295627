//! What a report shows: which kind of affected each project is, and which
//! edges the graph of the projects has.

use vstd::prelude::*;
use crate::seqs::gather;
use crate::text::{chars_of, str_eq, string_of};
use crate::types::{AffectCause, AffectedProjectInfo, AffectedReport};

verus! {

/// How a project is affected.
#[derive(Debug, Clone, Copy, PartialEq, Eq, Structural)]
pub enum AffectKind {
    /// Lines of its files changed, and it uses affected symbols.
    Both,
    /// Lines of its files changed.
    Direct,
    /// It is affected by what it uses or depends on.
    Affected,
}

/// One of the first `count` causes is a direct change.
pub open spec fn has_direct(causes: Seq<AffectCause>, count: int) -> bool {
    exists|i: int| 0 <= i < count && i < causes.len() && (#[trigger] causes[i]) is DirectChange
}

/// One of the first `count` causes is an imported symbol.
pub open spec fn has_imported(causes: Seq<AffectCause>, count: int) -> bool {
    exists|i: int| 0 <= i < count && i < causes.len() && (#[trigger] causes[i]) is ImportedSymbol
}

/// The kind of affected that the causes make.
pub open spec fn kind_of_causes(causes: Seq<AffectCause>) -> AffectKind {
    if has_direct(causes, causes.len() as int) && has_imported(causes, causes.len() as int) {
        AffectKind::Both
    } else if has_direct(causes, causes.len() as int) {
        AffectKind::Direct
    } else {
        AffectKind::Affected
    }
}

/// How the project is affected: directly, by what it imports, or both.
pub fn affect_kind(project: &AffectedProjectInfo) -> (kind: AffectKind)
    ensures
        kind == kind_of_causes(project.causes@),
{
    let causes = &project.causes;
    let mut direct = false;
    let mut imported = false;
    let mut i: usize = 0;
    while i < causes.len()
        invariant
            i <= causes.len(),
            direct == has_direct(causes@, i as int),
            imported == has_imported(causes@, i as int),
        decreases causes.len() - i,
    {
        match &causes[i] {
            AffectCause::DirectChange { .. } => {
                direct = true;
            },
            AffectCause::ImportedSymbol { .. } => {
                imported = true;
            },
            _ => {},
        }
        proof {
            if has_direct(causes@, i + 1) && !direct {
                let w = choose|w: int| 0 <= w < i + 1 && w < causes@.len() && (#[trigger] causes@[w]) is DirectChange;
                assert(w < i);
            }
            if has_imported(causes@, i + 1) && !imported {
                let w = choose|w: int|
                    0 <= w < i + 1 && w < causes@.len() && (#[trigger] causes@[w]) is ImportedSymbol;
                assert(w < i);
            }
            if direct {
                if causes@[i as int] is DirectChange {
                } else {
                    let w = choose|w: int| 0 <= w < i && w < causes@.len() && (#[trigger] causes@[w]) is DirectChange;
                    assert(causes@[w] is DirectChange);
                }
            }
            if imported {
                if causes@[i as int] is ImportedSymbol {
                } else {
                    let w = choose|w: int|
                        0 <= w < i && w < causes@.len() && (#[trigger] causes@[w]) is ImportedSymbol;
                    assert(causes@[w] is ImportedSymbol);
                }
            }
        }
        i += 1;
    }
    if direct && imported {
        AffectKind::Both
    } else if direct {
        AffectKind::Direct
    } else {
        AffectKind::Affected
    }
}

/// The name as an identifier of a node: `-` and `/` become `_`, `@` is left
/// out.
pub open spec fn sanitized(name: Seq<char>) -> Seq<char> {
    name.filter(|c: char| c != '@').map_values(
        |c: char|
            if c == '-' || c == '/' {
                '_'
            } else {
                c
            },
    )
}

/// The identifier of the node of the project `name`.
pub fn sanitize_node_id(name: &str) -> (out: String)
    ensures
        out@ == sanitized(name@),
{
    let chars = chars_of(name);
    let ghost keep = |c: char| c != '@';
    let ghost turn = |c: char|
        if c == '-' || c == '/' {
            '_'
        } else {
            c
        };
    let mut out: Vec<char> = Vec::new();
    let mut i: usize = 0;
    assert(chars@.take(0).filter(keep) =~= Seq::<char>::empty());
    assert(out@ =~= chars@.take(0).filter(keep).map_values(turn));
    while i < chars.len()
        invariant
            i <= chars.len(),
            keep == |c: char| c != '@',
            turn == |c: char|
                if c == '-' || c == '/' {
                    '_'
                } else {
                    c
                },
            out@ == chars@.take(i as int).filter(keep).map_values(turn),
        decreases chars.len() - i,
    {
        let c = chars[i];
        proof {
            assert(chars@.take(i + 1).drop_last() =~= chars@.take(i as int));
            reveal(Seq::filter);
        }
        let ghost before = chars@.take(i as int).filter(keep);
        if c != '@' {
            out.push(if c == '-' || c == '/' {
                '_'
            } else {
                c
            });
            assert(chars@.take(i + 1).filter(keep) == before.push(c));
            assert(out@ =~= before.push(c).map_values(turn));
        } else {
            assert(chars@.take(i + 1).filter(keep) == before);
        }
        i += 1;
    }
    assert(chars@.take(chars.len() as int) =~= chars@);
    string_of(&out)
}

/// The project that a cause leads back to: the project of an imported
/// symbol, or the project depended on.
pub open spec fn origin_of(cause: AffectCause) -> Option<Seq<char>> {
    match cause {
        AffectCause::ImportedSymbol { source_project, symbol, via_file, source_file } => Some(source_project@),
        AffectCause::ImplicitDependency { depends_on } => Some(depends_on@),
        _ => None,
    }
}

/// The number of imported symbols from `origin` among the first `count` causes.
pub open spec fn imports_from(causes: Seq<AffectCause>, origin: Seq<char>, count: int) -> nat
    decreases count,
{
    if count <= 0 || count > causes.len() {
        0
    } else if causes[count - 1] is ImportedSymbol && origin_of(causes[count - 1]) == Some(origin) {
        imports_from(causes, origin, count - 1) + 1
    } else {
        imports_from(causes, origin, count - 1)
    }
}

/// One of the first `count` causes is a declared dependency on `origin`.
pub open spec fn depends_directly(causes: Seq<AffectCause>, origin: Seq<char>, count: int) -> bool {
    exists|i: int|
        0 <= i < count && i < causes.len() && (#[trigger] causes[i]) is ImplicitDependency && origin_of(causes[i])
            == Some(origin)
}

/// One of the first `count` causes leads back to `origin`.
pub open spec fn leads_back(causes: Seq<AffectCause>, origin: Seq<char>, count: int) -> bool {
    exists|i: int| 0 <= i < count && i < causes.len() && origin_of(#[trigger] causes[i]) == Some(origin)
}

/// What an edge of the graph says.
#[derive(Debug, Clone, Copy, PartialEq, Eq, Structural)]
pub enum EdgeKind {
    /// The target declares a dependency on the source.
    Implicit,
    /// The target imports this many affected symbols of the source.
    Imports(usize),
}

/// An edge of the graph of a report, from the project that causes to the
/// project that is affected.
#[derive(Debug, Clone)]
pub struct GraphEdge {
    pub source: String,
    pub target: String,
    pub kind: EdgeKind,
}

/// An edge, as plain text.
pub ghost struct GraphEdgeView {
    pub source: Seq<char>,
    pub target: Seq<char>,
    pub kind: EdgeKind,
}

impl View for GraphEdge {
    type V = GraphEdgeView;

    open spec fn view(&self) -> GraphEdgeView {
        GraphEdgeView { source: self.source@, target: self.target@, kind: self.kind }
    }
}

/// The views of a list of edges.
pub open spec fn edge_views(edges: Seq<GraphEdge>) -> Seq<GraphEdgeView> {
    edges.map_values(|e: GraphEdge| e@)
}

/// The edge that cause `i` of the project gives: one for the first cause
/// that leads back to a project, implicit if the project declares a
/// dependency on it, else with the number of imports from it.
pub open spec fn edge_at(project: AffectedProjectInfo, i: int) -> Option<GraphEdgeView> {
    let causes = project.causes@;
    if !(0 <= i < causes.len()) {
        None
    } else {
        match origin_of(causes[i]) {
            None => None,
            Some(origin) => if leads_back(causes, origin, i) {
                None
            } else {
                Some(
                    GraphEdgeView {
                        source: origin,
                        target: project.name@,
                        kind: if depends_directly(causes, origin, causes.len() as int) {
                            EdgeKind::Implicit
                        } else {
                            EdgeKind::Imports(imports_from(causes, origin, causes.len() as int) as usize)
                        },
                    },
                )
            },
        }
    }
}

/// The edges that lead to one project.
pub open spec fn edges_to(project: AffectedProjectInfo) -> Seq<GraphEdgeView> {
    gather(project.causes@.len() as int, |i: int| edge_at(project, i))
}

/// The edges of the graph of the first `count` projects of a report.
pub open spec fn edges_of(report: AffectedReport, count: int) -> Seq<GraphEdgeView>
    decreases count,
{
    if count <= 0 || count > report.projects@.len() {
        Seq::empty()
    } else {
        edges_of(report, count - 1) + edges_to(report.projects@[count - 1])
    }
}

fn origin(cause: &AffectCause) -> (r: Option<&String>)
    ensures
        match r {
            Some(name) => origin_of(*cause) == Some(name@),
            None => origin_of(*cause) is None,
        },
{
    match cause {
        AffectCause::ImportedSymbol { source_project, .. } => Some(source_project),
        AffectCause::ImplicitDependency { depends_on } => Some(depends_on),
        _ => None,
    }
}

fn led_back(causes: &Vec<AffectCause>, name: &str, count: usize) -> (r: bool)
    requires
        count <= causes.len(),
    ensures
        r == leads_back(causes@, name@, count as int),
{
    let mut i: usize = 0;
    while i < count
        invariant
            i <= count <= causes.len(),
            forall|j: int| 0 <= j < i ==> origin_of(#[trigger] causes@[j]) != Some(name@),
        decreases count - i,
    {
        match origin(&causes[i]) {
            Some(o) => {
                if str_eq(o.as_str(), name) {
                    return true;
                }
            },
            None => {},
        }
        i += 1;
    }
    false
}

fn depends(causes: &Vec<AffectCause>, name: &str) -> (r: bool)
    ensures
        r == depends_directly(causes@, name@, causes@.len() as int),
{
    let mut i: usize = 0;
    while i < causes.len()
        invariant
            i <= causes.len(),
            forall|j: int|
                0 <= j < i ==> !((#[trigger] causes@[j]) is ImplicitDependency && origin_of(causes@[j]) == Some(
                    name@,
                )),
        decreases causes.len() - i,
    {
        match &causes[i] {
            AffectCause::ImplicitDependency { depends_on } => {
                if str_eq(depends_on.as_str(), name) {
                    return true;
                }
            },
            _ => {},
        }
        i += 1;
    }
    false
}

fn count_imports(causes: &Vec<AffectCause>, name: &str) -> (n: usize)
    ensures
        n == imports_from(causes@, name@, causes@.len() as int),
{
    let mut n: usize = 0;
    let mut i: usize = 0;
    while i < causes.len()
        invariant
            i <= causes.len(),
            n == imports_from(causes@, name@, i as int),
            n <= i,
        decreases causes.len() - i,
    {
        match &causes[i] {
            AffectCause::ImportedSymbol { source_project, .. } => {
                if str_eq(source_project.as_str(), name) {
                    n += 1;
                }
            },
            _ => {},
        }
        i += 1;
    }
    n
}

/// The edges of the graph of a report: for every project, in the order of
/// the report, one edge from each project that its causes lead back to, in
/// the order in which the causes first name them.
pub fn graph_edges(report: &AffectedReport) -> (edges: Vec<GraphEdge>)
    ensures
        edge_views(edges@) == edges_of(*report, report.projects@.len() as int),
{
    let mut edges: Vec<GraphEdge> = Vec::new();
    let mut p: usize = 0;
    assert(edge_views(edges@) =~= edges_of(*report, 0));
    while p < report.projects.len()
        invariant
            p <= report.projects.len(),
            edge_views(edges@) == edges_of(*report, p as int),
        decreases report.projects.len() - p,
    {
        let project = &report.projects[p];
        let causes = &project.causes;
        let ghost done = edge_views(edges@);
        let ghost pick = |i: int| edge_at(*project, i);
        let mut i: usize = 0;
        assert(edge_views(edges@) =~= done + gather(0, pick));
        while i < causes.len()
            invariant
                i <= causes.len(),
                causes == &project.causes,
                pick == |i: int| edge_at(*project, i),
                edge_views(edges@) == done + gather(i as int, pick),
            decreases causes.len() - i,
        {
            match origin(&causes[i]) {
                Some(name) => {
                    if !led_back(causes, name.as_str(), i) {
                        let kind = if depends(causes, name.as_str()) {
                            EdgeKind::Implicit
                        } else {
                            EdgeKind::Imports(count_imports(causes, name.as_str()))
                        };
                        let ghost before = edge_views(edges@);
                        let edge = GraphEdge { source: name.clone(), target: project.name.clone(), kind };
                        edges.push(edge);
                        assert(edge_views(edges@) =~= before.push(edge@));
                    }
                },
                None => {},
            }
            i += 1;
        }
        p += 1;
    }
    edges
}

} // verus!
