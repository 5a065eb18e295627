//! From changed lines to affected projects.
//!
//! A changed file makes its project affected. A changed line stands for the
//! top-level symbol around it: every project with a file that the change of
//! that symbol reaches is affected. And every project that depends, by
//! declaration, on an affected project is affected too.

use vstd::prelude::*;
use crate::dependencies::{add_implicit_dependencies, depends_on};
use crate::graph::{closure, reaches, views, KeyView, SymbolKey};
use crate::order::{ascending, NameSet};
use crate::propagation::{all_names, Propagation};
use crate::semantic::analyzer::{find_path, WorkspaceAnalyzer};
use crate::semantic::reference_finder::{
    cross_file_sites, is_cross_site, lemma_key_space, lemma_key_space_names, Site,
};
use crate::types::{texts, AffectedResult, ChangedFile, Project};
use crate::utils::{owner_index, owner_of};

verus! {

/// The name of the project that owns `path`.
pub open spec fn path_owner(projects: Seq<Project>, path: Seq<char>) -> Option<Seq<char>> {
    match owner_of(path, projects) {
        Some(i) => Some(projects[i].name@),
        None => None,
    }
}

/// A use at `site` lies in a file of the project `project`.
pub open spec fn site_in_project(a: &WorkspaceAnalyzer, site: Site, project: Seq<char>) -> bool {
    site.file < a.files@.len() && path_owner(a.projects@, a.files@[site.file as int].path@) == Some(project)
}

/// The affected symbol `key` makes `project` affected: the project owns the
/// file of the symbol, or a file in which the symbol is used.
pub open spec fn touches(a: &WorkspaceAnalyzer, key: KeyView, project: Seq<char>) -> bool {
    &&& 0 <= key.0 < a.files@.len()
    &&& (path_owner(a.projects@, a.files@[key.0].path@) == Some(project) || exists|site: Site|
        #[trigger] is_cross_site(a, key.0, key.1, site) && site_in_project(a, site, project))
}

/// A change of the symbol `name` of file `file` reaches the symbol `to`.
pub open spec fn spreads_to(a: &WorkspaceAnalyzer, file: int, name: Seq<char>, to: KeyView) -> bool {
    reaches(&Propagation { analyzer: a, seed: Ghost(name) }, (file, name), to)
}

/// A change of the symbol `name` of file `file` makes `project` affected.
pub open spec fn symbol_affects(a: &WorkspaceAnalyzer, file: int, name: Seq<char>, project: Seq<char>) -> bool {
    exists|k: KeyView| #[trigger] spreads_to(a, file, name, k) && touches(a, k, project)
}

/// A change of line `line` of file `file` makes `project` affected: the
/// line stands for the top-level symbol at its start; a line in no symbol
/// affects nothing.
pub open spec fn line_affects(a: &WorkspaceAnalyzer, file: int, line: usize, project: Seq<char>) -> bool {
    match a.files@[file].symbol_at(line, 0) {
        Some(s) => symbol_affects(a, file, s, project),
        None => false,
    }
}

fn mark_owner(a: &WorkspaceAnalyzer, path: &str, affected: &mut NameSet)
    requires
        old(affected).wf(),
    ensures
        final(affected).wf(),
        forall|p: Seq<char>|
            #[trigger] final(affected)@.contains(p) <==> (old(affected)@.contains(p) || path_owner(
                a.projects@,
                path@,
            ) == Some(p)),
{
    match owner_index(path, a.projects.as_slice()) {
        Some(i) => {
            affected.insert(a.projects[i].name.as_str());
        },
        None => {},
    }
}

/// Marks the projects that the affected symbol `key` makes affected.
fn mark_touched(a: &WorkspaceAnalyzer, key: &SymbolKey, affected: &mut NameSet)
    requires
        a.wf(),
        key.file < a.files@.len(),
        old(affected).wf(),
    ensures
        final(affected).wf(),
        forall|p: Seq<char>|
            #[trigger] final(affected)@.contains(p) <==> (old(affected)@.contains(p) || touches(a, key@, p)),
{
    mark_owner(a, a.files[key.file].path.as_str(), affected);
    let ghost owned = affected@;
    let sites = cross_file_sites(a, key.file, key.name.as_str());
    let mut i: usize = 0;
    while i < sites.len()
        invariant
            i <= sites.len(),
            a.wf(),
            affected.wf(),
            forall|q: int| 0 <= q < sites@.len() ==> (#[trigger] sites@[q]).file < a.files@.len(),
            forall|p: Seq<char>|
                #[trigger] affected@.contains(p) <==> (owned.contains(p) || exists|q: int|
                    0 <= q < i && site_in_project(a, #[trigger] sites@[q], p)),
        decreases sites.len() - i,
    {
        let ghost before = affected@;
        let site = sites[i];
        mark_owner(a, a.files[site.file].path.as_str(), affected);
        proof {
            assert forall|p: Seq<char>| #[trigger] affected@.contains(p) <==> (owned.contains(p) || exists|q: int|
                0 <= q < i + 1 && site_in_project(a, #[trigger] sites@[q], p)) by {
                assert(before.contains(p) <==> (owned.contains(p) || exists|q: int|
                    0 <= q < i && site_in_project(a, #[trigger] sites@[q], p)));
                if exists|q: int| 0 <= q < i + 1 && site_in_project(a, #[trigger] sites@[q], p) {
                    let q = choose|q: int| 0 <= q < i + 1 && site_in_project(a, #[trigger] sites@[q], p);
                    if q < i {
                        assert(before.contains(p));
                    }
                }
            }
        }
        i += 1;
    }
    proof {
        assert forall|p: Seq<char>| #[trigger] affected@.contains(p) <==> (old(affected)@.contains(p) || touches(
            a,
            key@,
            p,
        )) by {
            assert(owned.contains(p) <==> (old(affected)@.contains(p) || path_owner(
                a.projects@,
                a.files@[key.file as int].path@,
            ) == Some(p)));
            if exists|q: int| 0 <= q < sites@.len() && site_in_project(a, #[trigger] sites@[q], p) {
                let q = choose|q: int| 0 <= q < sites@.len() && site_in_project(a, #[trigger] sites@[q], p);
                assert(sites@.contains(sites@[q]));
                assert(is_cross_site(a, key@.0, key@.1, sites@[q]));
            }
            if exists|site: Site| #[trigger] is_cross_site(a, key@.0, key@.1, site) && site_in_project(a, site, p) {
                let site = choose|site: Site|
                    #[trigger] is_cross_site(a, key@.0, key@.1, site) && site_in_project(a, site, p);
                assert(sites@.contains(site));
                let q = choose|q: int| 0 <= q < sites@.len() && sites@[q] == site;
                assert(site_in_project(a, sites@[q], p));
            }
        }
    }
}

/// Marks every project that a change of the symbol `symbol` of file `file`
/// affects. Each symbol is followed once, however the files import each
/// other.
pub fn process_changed_symbol(a: &WorkspaceAnalyzer, file: usize, symbol: &str, affected: &mut NameSet)
    requires
        a.wf(),
        file < a.files@.len(),
        old(affected).wf(),
    ensures
        final(affected).wf(),
        forall|p: Seq<char>|
            #[trigger] final(affected)@.contains(p) <==> (old(affected)@.contains(p) || symbol_affects(
                a,
                file as int,
                symbol@,
                p,
            )),
{
    let spread = Propagation { analyzer: a, seed: Ghost(symbol@) };
    let start = SymbolKey::new(file, symbol);
    proof {
        let names = seq![symbol@] + all_names(a.files@, a.files@.len() as int);
        assert(names[0] == symbol@);
        lemma_key_space(a.files@.len() as int, names, file as int, symbol@);
    }
    let visited = closure(&spread, start);
    proof {
        assert forall|q: int| 0 <= q < visited.len() implies 0 <= (#[trigger] views(visited@)[q]).0
            < a.files@.len() by {
            lemma_key_space_names(
                a.files@.len() as int,
                seq![symbol@] + all_names(a.files@, a.files@.len() as int),
                views(visited@)[q],
            );
        }
    }
    let mut i: usize = 0;
    while i < visited.len()
        invariant
            i <= visited.len(),
            a.wf(),
            affected.wf(),
            forall|k: KeyView| views(visited@).contains(k) <==> spreads_to(a, file as int, symbol@, k),
            forall|q: int| 0 <= q < visited.len() ==> 0 <= (#[trigger] views(visited@)[q]).0 < a.files@.len(),
            forall|p: Seq<char>|
                #[trigger] affected@.contains(p) <==> (old(affected)@.contains(p) || exists|q: int|
                    0 <= q < i && touches(a, #[trigger] views(visited@)[q], p)),
        decreases visited.len() - i,
    {
        let ghost before = affected@;
        assert(views(visited@)[i as int] == visited@[i as int]@);
        assert(views(visited@).contains(views(visited@)[i as int]));
        mark_touched(a, &visited[i], affected);
        proof {
            assert forall|p: Seq<char>| #[trigger] affected@.contains(p) <==> (old(affected)@.contains(p)
                || exists|q: int| 0 <= q < i + 1 && touches(a, #[trigger] views(visited@)[q], p)) by {
                assert(before.contains(p) <==> (old(affected)@.contains(p) || exists|q: int|
                    0 <= q < i && touches(a, #[trigger] views(visited@)[q], p)));
                if exists|q: int| 0 <= q < i + 1 && touches(a, #[trigger] views(visited@)[q], p) {
                    let q = choose|q: int| 0 <= q < i + 1 && touches(a, #[trigger] views(visited@)[q], p);
                    if q < i {
                        assert(before.contains(p));
                    }
                }
            }
        }
        i += 1;
    }
    proof {
        assert forall|p: Seq<char>| #[trigger] affected@.contains(p) <==> (old(affected)@.contains(p)
            || symbol_affects(a, file as int, symbol@, p)) by {
            if exists|q: int| 0 <= q < visited.len() && touches(a, #[trigger] views(visited@)[q], p) {
                let q = choose|q: int| 0 <= q < visited.len() && touches(a, #[trigger] views(visited@)[q], p);
                assert(views(visited@).contains(views(visited@)[q]));
                assert(spreads_to(a, file as int, symbol@, views(visited@)[q]));
            }
            if symbol_affects(a, file as int, symbol@, p) {
                let k = choose|k: KeyView| #[trigger] spreads_to(a, file as int, symbol@, k) && touches(a, k, p);
                assert(views(visited@).contains(k));
                let q = choose|q: int| 0 <= q < views(visited@).len() && views(visited@)[q] == k;
                assert(touches(a, views(visited@)[q], p));
            }
        }
    }
}

/// Marks every project that a change of line `line` of file `file` affects.
pub fn process_changed_line(a: &WorkspaceAnalyzer, file: usize, line: usize, affected: &mut NameSet)
    requires
        a.wf(),
        file < a.files@.len(),
        old(affected).wf(),
    ensures
        final(affected).wf(),
        forall|p: Seq<char>|
            #[trigger] final(affected)@.contains(p) <==> (old(affected)@.contains(p) || line_affects(
                a,
                file as int,
                line,
                p,
            )),
{
    match a.files[file].symbol_at_position(line, 0) {
        Some(symbol) => {
            process_changed_symbol(a, file, symbol.as_str(), affected);
        },
        None => {},
    }
}

/// The changed file `changed` makes `project` affected: the project owns
/// the file, or a changed line of the file, where it was analysed, affects
/// it.
pub open spec fn file_affects(a: &WorkspaceAnalyzer, changed: ChangedFile, project: Seq<char>) -> bool {
    path_owner(a.projects@, changed.file_path@) == Some(project) || match find_path(
        a.files@,
        changed.file_path@,
        0,
    ) {
        Some(f) => exists|l: int|
            0 <= l < changed.changed_lines@.len() && line_affects(a, f, #[trigger] changed.changed_lines@[l], project),
        None => false,
    }
}

/// One of the changed files makes `project` affected.
pub open spec fn directly_affected(a: &WorkspaceAnalyzer, changed: Seq<ChangedFile>, project: Seq<char>) -> bool {
    exists|c: int| 0 <= c < changed.len() && file_affects(a, #[trigger] changed[c], project)
}

/// `project` is affected by the change set: directly, or by a chain of
/// declared dependencies that ends at a directly affected project.
pub open spec fn is_affected(a: &WorkspaceAnalyzer, changed: Seq<ChangedFile>, project: Seq<char>) -> bool {
    exists|d: Seq<char>| directly_affected(a, changed, d) && #[trigger] depends_on(&a.projects, d, project)
}

/// `names` is the list of the affected projects: each once, in ascending
/// order.
pub open spec fn lists_affected(a: &WorkspaceAnalyzer, changed: Seq<ChangedFile>, names: Seq<Seq<char>>) -> bool {
    ascending(names) && forall|p: Seq<char>| #[trigger] names.contains(p) <==> is_affected(a, changed, p)
}

fn mark_changed_file(a: &WorkspaceAnalyzer, changed: &ChangedFile, affected: &mut NameSet)
    requires
        a.wf(),
        old(affected).wf(),
    ensures
        final(affected).wf(),
        forall|p: Seq<char>|
            #[trigger] final(affected)@.contains(p) <==> (old(affected)@.contains(p) || file_affects(
                a,
                *changed,
                p,
            )),
{
    mark_owner(a, changed.file_path.as_str(), affected);
    let ghost owned = affected@;
    match a.file_index(changed.file_path.as_str()) {
        None => {},
        Some(f) => {
            let lines = &changed.changed_lines;
            let mut l: usize = 0;
            while l < lines.len()
                invariant
                    l <= lines.len(),
                    a.wf(),
                    f < a.files@.len(),
                    affected.wf(),
                    lines == &changed.changed_lines,
                    forall|p: Seq<char>|
                        #[trigger] affected@.contains(p) <==> (owned.contains(p) || exists|q: int|
                            0 <= q < l && line_affects(a, f as int, #[trigger] lines@[q], p)),
                decreases lines.len() - l,
            {
                let ghost before = affected@;
                process_changed_line(a, f, lines[l], affected);
                proof {
                    assert forall|p: Seq<char>| #[trigger] affected@.contains(p) <==> (owned.contains(p)
                        || exists|q: int| 0 <= q < l + 1 && line_affects(a, f as int, #[trigger] lines@[q], p)) by {
                        assert(before.contains(p) <==> (owned.contains(p) || exists|q: int|
                            0 <= q < l && line_affects(a, f as int, #[trigger] lines@[q], p)));
                        if exists|q: int| 0 <= q < l + 1 && line_affects(a, f as int, #[trigger] lines@[q], p) {
                            let q = choose|q: int|
                                0 <= q < l + 1 && line_affects(a, f as int, #[trigger] lines@[q], p);
                            if q < l {
                                assert(before.contains(p));
                            }
                        }
                    }
                }
                l += 1;
            }
        },
    }
    proof {
        assert forall|p: Seq<char>| #[trigger] affected@.contains(p) <==> (old(affected)@.contains(p)
            || file_affects(a, *changed, p)) by {
            assert(owned.contains(p) <==> (old(affected)@.contains(p) || path_owner(
                a.projects@,
                changed.file_path@,
            ) == Some(p)));
        }
    }
}

/// The set of the projects that the change set affects.
pub fn find_affected_names(a: &WorkspaceAnalyzer, changed_files: &Vec<ChangedFile>) -> (affected: NameSet)
    requires
        a.wf(),
    ensures
        affected.wf(),
        forall|p: Seq<char>| #[trigger] affected@.contains(p) <==> is_affected(a, changed_files@, p),
{
    let mut affected = NameSet::new();
    let mut c: usize = 0;
    while c < changed_files.len()
        invariant
            c <= changed_files.len(),
            a.wf(),
            affected.wf(),
            forall|p: Seq<char>|
                #[trigger] affected@.contains(p) <==> exists|q: int|
                    0 <= q < c && file_affects(a, #[trigger] changed_files@[q], p),
        decreases changed_files.len() - c,
    {
        let ghost before = affected@;
        mark_changed_file(a, &changed_files[c], &mut affected);
        proof {
            assert forall|p: Seq<char>| #[trigger] affected@.contains(p) <==> exists|q: int|
                0 <= q < c + 1 && file_affects(a, #[trigger] changed_files@[q], p) by {
                assert(before.contains(p) <==> exists|q: int|
                    0 <= q < c && file_affects(a, #[trigger] changed_files@[q], p));
                if exists|q: int| 0 <= q < c + 1 && file_affects(a, #[trigger] changed_files@[q], p) {
                    let q = choose|q: int| 0 <= q < c + 1 && file_affects(a, #[trigger] changed_files@[q], p);
                    if q < c {
                        assert(before.contains(p));
                    }
                }
            }
        }
        c += 1;
    }
    let ghost direct = affected@;
    assert forall|p: Seq<char>| #[trigger] direct.contains(p) <==> directly_affected(a, changed_files@, p) by {}
    add_implicit_dependencies(&a.projects, &mut affected);
    proof {
        assert forall|p: Seq<char>| #[trigger] affected@.contains(p) <==> is_affected(a, changed_files@, p) by {
            if affected@.contains(p) {
                let d = choose|d: Seq<char>| direct.contains(d) && #[trigger] depends_on(&a.projects, d, p);
                assert(directly_affected(a, changed_files@, d));
            }
            if is_affected(a, changed_files@, p) {
                let d = choose|d: Seq<char>|
                    directly_affected(a, changed_files@, d) && #[trigger] depends_on(&a.projects, d, p);
                assert(direct.contains(d));
            }
        }
    }
    affected
}

/// The projects that the change set affects, in ascending order, each once:
/// the project of every changed file; every project that the symbols on the
/// changed lines reach; every project that depends on one of these by
/// declaration, directly or through others. No changed files, no affected
/// projects.
pub fn find_affected(analyzer: &WorkspaceAnalyzer, changed_files: &Vec<ChangedFile>) -> (r: AffectedResult)
    requires
        analyzer.wf(),
    ensures
        lists_affected(analyzer, changed_files@, texts(r.affected_projects@)),
        r.report is None,
{
    let affected = find_affected_names(analyzer, changed_files);
    proof {
        assert forall|p: Seq<char>| #[trigger] texts(affected.names@).contains(p) <==> is_affected(
            analyzer,
            changed_files@,
            p,
        ) by {
            assert(affected@.contains(p) <==> texts(affected.names@).contains(p));
        }
    }
    AffectedResult { affected_projects: affected.names, report: None }
}

} // verus!
