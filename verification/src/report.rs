//! Why each affected project is affected.

use vstd::prelude::*;
use crate::affected::{
    find_affected, find_affected_names, is_affected, lists_affected, path_owner, site_in_project, spreads_to,
};
use crate::causes::{cause_views, causes_ascending, insert_cause, CauseKey};
use crate::dependencies::declares_dependency;
use crate::graph::{closure, views, KeyView, SymbolKey};
use crate::order::NameSet;
use crate::propagation::{all_names, Propagation};
use crate::semantic::analyzer::{find_path, WorkspaceAnalyzer};
use crate::semantic::reference_finder::{
    cross_file_sites, is_cross_site, lemma_key_space, lemma_key_space_names, Site,
};
use crate::seqs::lemma_push_contains;
use crate::text::{clone_opt, str_eq};
use crate::types::{
    opt_text, texts, AffectCause, AffectedProjectInfo, AffectedReport, AffectedResult,
    ChangedFile,
};
use crate::utils::owner_index;

verus! {

/// A project with one reason for which it is affected.
pub struct ProjectCause {
    pub project: String,
    pub cause: AffectCause,
}

/// What the entries of a log say: pairs of a project and a cause.
pub open spec fn log_views(log: Seq<ProjectCause>) -> Seq<(Seq<char>, CauseKey)> {
    log.map_values(|e: ProjectCause| (e.project@, e.cause@))
}

/// The cause that says: line `line` of `file` changed, in `symbol` if it
/// stands in one.
pub open spec fn direct_cause(file: Seq<char>, symbol: Option<Seq<char>>, line: usize) -> CauseKey {
    CauseKey {
        kind: 0,
        first: file,
        has_symbol: if symbol is Some {
            1
        } else {
            0
        },
        second: match symbol {
            Some(s) => s,
            None => Seq::empty(),
        },
        third: Seq::empty(),
        fourth: Seq::empty(),
        line: line as int,
    }
}

/// The cause that says: `via_file` uses the affected symbol `symbol` of
/// `source_file`, a file of `source_project`.
pub open spec fn import_cause(
    source_project: Seq<char>,
    symbol: Seq<char>,
    via_file: Seq<char>,
    source_file: Seq<char>,
) -> CauseKey {
    CauseKey {
        kind: 1,
        first: source_project,
        has_symbol: 1,
        second: symbol,
        third: via_file,
        fourth: source_file,
        line: 0,
    }
}

/// The cause that says: the project declares a dependency on the affected
/// project `on`.
pub open spec fn dependency_cause(on: Seq<char>) -> CauseKey {
    CauseKey {
        kind: 3,
        first: on,
        has_symbol: 0,
        second: Seq::empty(),
        third: Seq::empty(),
        fourth: Seq::empty(),
        line: 0,
    }
}

/// The symbol that a changed line of `path` stands for, where the file was
/// analysed and the line stands in a symbol.
pub open spec fn changed_symbol(a: &WorkspaceAnalyzer, path: Seq<char>, line: usize) -> Option<Seq<char>> {
    match find_path(a.files@, path, 0) {
        Some(f) => a.files@[f].symbol_at(line, 0),
        None => None,
    }
}

/// `entry` says that the change of line `l` of `changed` is a direct change
/// of the project that owns the file.
pub open spec fn is_direct_entry(a: &WorkspaceAnalyzer, changed: ChangedFile, l: int, entry: (Seq<char>, CauseKey)) -> bool {
    &&& 0 <= l < changed.changed_lines@.len()
    &&& path_owner(a.projects@, changed.file_path@) == Some(entry.0)
    &&& entry.1 == direct_cause(
        changed.file_path@,
        changed_symbol(a, changed.file_path@, changed.changed_lines@[l]),
        changed.changed_lines@[l],
    )
}

/// `entry` says that a use at `site` of the affected symbol `key` affects
/// the project of the site, and from which project the symbol comes.
pub open spec fn is_site_entry(a: &WorkspaceAnalyzer, key: KeyView, site: Site, entry: (Seq<char>, CauseKey)) -> bool {
    &&& 0 <= key.0 < a.files@.len()
    &&& site_in_project(a, site, entry.0)
    &&& path_owner(a.projects@, a.files@[key.0].path@) is Some
    &&& entry.1 == import_cause(
        path_owner(a.projects@, a.files@[key.0].path@).unwrap(),
        key.1,
        a.files@[site.file as int].path@,
        a.files@[key.0].path@,
    )
}

/// `entry` gives a project that uses the affected symbol `key`, with that
/// use as the cause.
pub open spec fn is_key_entry(a: &WorkspaceAnalyzer, key: KeyView, entry: (Seq<char>, CauseKey)) -> bool {
    exists|site: Site| #[trigger] is_cross_site(a, key.0, key.1, site) && is_site_entry(a, key, site, entry)
}

/// `entry` gives a project that uses a symbol that a change of the symbol
/// `name` of file `file` reaches.
pub open spec fn is_symbol_entry(a: &WorkspaceAnalyzer, file: int, name: Seq<char>, entry: (Seq<char>, CauseKey)) -> bool {
    exists|k: KeyView| #[trigger] spreads_to(a, file, name, k) && is_key_entry(a, k, entry)
}

/// `entry` follows from the change of line `l` of `changed`.
pub open spec fn is_line_entry(a: &WorkspaceAnalyzer, changed: ChangedFile, l: int, entry: (Seq<char>, CauseKey)) -> bool {
    is_direct_entry(a, changed, l, entry) || (0 <= l < changed.changed_lines@.len() && match find_path(
        a.files@,
        changed.file_path@,
        0,
    ) {
        Some(f) => match a.files@[f].symbol_at(changed.changed_lines@[l], 0) {
            Some(s) => is_symbol_entry(a, f, s, entry),
            None => false,
        },
        None => false,
    })
}

/// `entry` follows from the change of `changed`.
pub open spec fn is_file_entry(a: &WorkspaceAnalyzer, changed: ChangedFile, entry: (Seq<char>, CauseKey)) -> bool {
    exists|l: int| #[trigger] is_line_entry(a, changed, l, entry)
}

/// `entry` says that a project declares a dependency on an affected project.
pub open spec fn is_dependency_entry(
    a: &WorkspaceAnalyzer,
    changed: Seq<ChangedFile>,
    entry: (Seq<char>, CauseKey),
) -> bool {
    exists|on: Seq<char>|
        #[trigger] is_affected(a, changed, on) && declares_dependency(a.projects@, entry.0, on) && entry.1
            == dependency_cause(on)
}

/// `cause` is a reason for which `project` is affected by the change set: a
/// changed line in one of its files; a use, in one of its files, of a symbol
/// that the change reaches; a declared dependency on an affected project.
pub open spec fn is_cause(a: &WorkspaceAnalyzer, changed: Seq<ChangedFile>, project: Seq<char>, cause: CauseKey) -> bool {
    (exists|c: int| 0 <= c < changed.len() && is_file_entry(a, #[trigger] changed[c], (project, cause)))
        || is_dependency_entry(a, changed, (project, cause))
}

fn push_entry(log: &mut Vec<ProjectCause>, project: &String, cause: AffectCause)
    ensures
        log_views(final(log)@) == log_views(old(log)@).push((project@, cause@)),
{
    let ghost before = log_views(log@);
    log.push(ProjectCause { project: project.clone(), cause });
    assert(log_views(log@) =~= before.push((project@, cause@)));
}

/// Logs the projects that use the affected symbol `key`.
fn log_key_causes(a: &WorkspaceAnalyzer, key: &SymbolKey, log: &mut Vec<ProjectCause>)
    requires
        a.wf(),
        key.file < a.files@.len(),
    ensures
        forall|e: (Seq<char>, CauseKey)|
            #[trigger] log_views(final(log)@).contains(e) <==> (log_views(old(log)@).contains(e) || is_key_entry(
                a,
                key@,
                e,
            )),
{
    let source = match owner_index(a.files[key.file].path.as_str(), a.projects.as_slice()) {
        Some(i) => i,
        None => {
            return ;
        },
    };
    let sites = cross_file_sites(a, key.file, key.name.as_str());
    let mut i: usize = 0;
    while i < sites.len()
        invariant
            i <= sites.len(),
            a.wf(),
            key.file < a.files@.len(),
            source < a.projects@.len(),
            path_owner(a.projects@, a.files@[key.file as int].path@) == Some(a.projects@[source as int].name@),
            forall|q: int| 0 <= q < sites@.len() ==> (#[trigger] sites@[q]).file < a.files@.len(),
            forall|e: (Seq<char>, CauseKey)|
                #[trigger] log_views(log@).contains(e) <==> (log_views(old(log)@).contains(e) || exists|q: int|
                    0 <= q < i && is_site_entry(a, key@, #[trigger] sites@[q], e)),
        decreases sites.len() - i,
    {
        let ghost before = log_views(log@);
        let site = sites[i];
        match owner_index(a.files[site.file].path.as_str(), a.projects.as_slice()) {
            Some(p) => {
                let cause = AffectCause::ImportedSymbol {
                    source_project: a.projects[source].name.clone(),
                    symbol: key.name.clone(),
                    via_file: a.files[site.file].path.clone(),
                    source_file: a.files[key.file].path.clone(),
                };
                let ghost added = (a.projects@[p as int].name@, cause@);
                push_entry(log, &a.projects[p].name, cause);
                proof {
                    assert(is_site_entry(a, key@, sites@[i as int], added));
                    assert forall|e: (Seq<char>, CauseKey)| #[trigger] log_views(log@).contains(e) <==> (log_views(
                        old(log)@,
                    ).contains(e) || exists|q: int| 0 <= q < i + 1 && is_site_entry(a, key@, #[trigger] sites@[q], e)) by {
                        lemma_push_contains(before, added, e);
                        assert(before.contains(e) <==> (log_views(old(log)@).contains(e) || exists|q: int|
                            0 <= q < i && is_site_entry(a, key@, #[trigger] sites@[q], e)));
                        if exists|q: int| 0 <= q < i + 1 && is_site_entry(a, key@, #[trigger] sites@[q], e) {
                            let q = choose|q: int| 0 <= q < i + 1 && is_site_entry(a, key@, #[trigger] sites@[q], e);
                            if q == i {
                                assert(e == added);
                            }
                        }
                    }
                }
            },
            None => {
                proof {
                    assert forall|e: (Seq<char>, CauseKey)| #[trigger] log_views(log@).contains(e) <==> (log_views(
                        old(log)@,
                    ).contains(e) || exists|q: int| 0 <= q < i + 1 && is_site_entry(a, key@, #[trigger] sites@[q], e)) by {
                        if exists|q: int| 0 <= q < i + 1 && is_site_entry(a, key@, #[trigger] sites@[q], e) {
                            let q = choose|q: int| 0 <= q < i + 1 && is_site_entry(a, key@, #[trigger] sites@[q], e);
                            assert(q < i);
                        }
                    }
                }
            },
        }
        i += 1;
    }
    proof {
        assert forall|e: (Seq<char>, CauseKey)| #[trigger] log_views(log@).contains(e) <==> (log_views(
            old(log)@,
        ).contains(e) || is_key_entry(a, key@, e)) by {
            if exists|q: int| 0 <= q < sites@.len() && is_site_entry(a, key@, #[trigger] sites@[q], e) {
                let q = choose|q: int| 0 <= q < sites@.len() && is_site_entry(a, key@, #[trigger] sites@[q], e);
                assert(sites@.contains(sites@[q]));
                assert(is_cross_site(a, key@.0, key@.1, sites@[q]));
            }
            if is_key_entry(a, key@, e) {
                let site = choose|site: Site|
                    #[trigger] is_cross_site(a, key@.0, key@.1, site) && is_site_entry(a, key@, site, e);
                assert(sites@.contains(site));
                let q = choose|q: int| 0 <= q < sites@.len() && sites@[q] == site;
                assert(is_site_entry(a, key@, sites@[q], e));
            }
        }
    }
}

/// Logs the projects that use what a change of the symbol `symbol` of file
/// `file` reaches.
fn log_symbol_causes(a: &WorkspaceAnalyzer, file: usize, symbol: &str, log: &mut Vec<ProjectCause>)
    requires
        a.wf(),
        file < a.files@.len(),
    ensures
        forall|e: (Seq<char>, CauseKey)|
            #[trigger] log_views(final(log)@).contains(e) <==> (log_views(old(log)@).contains(e) || is_symbol_entry(
                a,
                file as int,
                symbol@,
                e,
            )),
{
    let spread = Propagation { analyzer: a, seed: Ghost(symbol@) };
    let start = SymbolKey::new(file, symbol);
    proof {
        let names = seq![symbol@] + all_names(a.files@, a.files@.len() as int);
        assert(names[0] == symbol@);
        lemma_key_space(a.files@.len() as int, names, file as int, symbol@);
    }
    let visited = closure(&spread, start);
    proof {
        assert forall|q: int| 0 <= q < visited.len() implies 0 <= (#[trigger] views(visited@)[q]).0
            < a.files@.len() by {
            lemma_key_space_names(
                a.files@.len() as int,
                seq![symbol@] + all_names(a.files@, a.files@.len() as int),
                views(visited@)[q],
            );
        }
    }
    let mut i: usize = 0;
    while i < visited.len()
        invariant
            i <= visited.len(),
            a.wf(),
            forall|k: KeyView| views(visited@).contains(k) <==> spreads_to(a, file as int, symbol@, k),
            forall|q: int| 0 <= q < visited.len() ==> 0 <= (#[trigger] views(visited@)[q]).0 < a.files@.len(),
            forall|e: (Seq<char>, CauseKey)|
                #[trigger] log_views(log@).contains(e) <==> (log_views(old(log)@).contains(e) || exists|q: int|
                    0 <= q < i && is_key_entry(a, #[trigger] views(visited@)[q], e)),
        decreases visited.len() - i,
    {
        let ghost before = log_views(log@);
        assert(views(visited@)[i as int] == visited@[i as int]@);
        log_key_causes(a, &visited[i], log);
        proof {
            assert forall|e: (Seq<char>, CauseKey)| #[trigger] log_views(log@).contains(e) <==> (log_views(
                old(log)@,
            ).contains(e) || exists|q: int| 0 <= q < i + 1 && is_key_entry(a, #[trigger] views(visited@)[q], e)) by {
                assert(before.contains(e) <==> (log_views(old(log)@).contains(e) || exists|q: int|
                    0 <= q < i && is_key_entry(a, #[trigger] views(visited@)[q], e)));
                if exists|q: int| 0 <= q < i + 1 && is_key_entry(a, #[trigger] views(visited@)[q], e) {
                    let q = choose|q: int| 0 <= q < i + 1 && is_key_entry(a, #[trigger] views(visited@)[q], e);
                    if q < i {
                        assert(before.contains(e));
                    }
                }
            }
        }
        i += 1;
    }
    proof {
        assert forall|e: (Seq<char>, CauseKey)| #[trigger] log_views(log@).contains(e) <==> (log_views(
            old(log)@,
        ).contains(e) || is_symbol_entry(a, file as int, symbol@, e)) by {
            if exists|q: int| 0 <= q < visited.len() && is_key_entry(a, #[trigger] views(visited@)[q], e) {
                let q = choose|q: int| 0 <= q < visited.len() && is_key_entry(a, #[trigger] views(visited@)[q], e);
                assert(views(visited@).contains(views(visited@)[q]));
                assert(spreads_to(a, file as int, symbol@, views(visited@)[q]));
            }
            if is_symbol_entry(a, file as int, symbol@, e) {
                let k = choose|k: KeyView| #[trigger] spreads_to(a, file as int, symbol@, k) && is_key_entry(a, k, e);
                assert(views(visited@).contains(k));
                let q = choose|q: int| 0 <= q < views(visited@).len() && views(visited@)[q] == k;
                assert(is_key_entry(a, views(visited@)[q], e));
            }
        }
    }
}

/// Logs what follows from the change of line `l` of `changed`.
fn log_line_causes(a: &WorkspaceAnalyzer, changed: &ChangedFile, l: usize, log: &mut Vec<ProjectCause>)
    requires
        a.wf(),
        l < changed.changed_lines@.len(),
    ensures
        forall|e: (Seq<char>, CauseKey)|
            #[trigger] log_views(final(log)@).contains(e) <==> (log_views(old(log)@).contains(e) || is_line_entry(
                a,
                *changed,
                l as int,
                e,
            )),
{
    let line = changed.changed_lines[l];
    let file = a.file_index(changed.file_path.as_str());
    let symbol = match file {
        Some(f) => a.files[f].symbol_at_position(line, 0),
        None => None,
    };
    assert(opt_text(symbol) == changed_symbol(a, changed.file_path@, line));
    match owner_index(changed.file_path.as_str(), a.projects.as_slice()) {
        Some(p) => {
            let ghost before = log_views(log@);
            let cause = AffectCause::DirectChange {
                file: changed.file_path.clone(),
                symbol: clone_opt(&symbol),
                line,
            };
            let ghost added = (a.projects@[p as int].name@, cause@);
            push_entry(log, &a.projects[p].name, cause);
            proof {
                assert(cause@ == direct_cause(changed.file_path@, opt_text(symbol), line));
                assert forall|e: (Seq<char>, CauseKey)| #[trigger] log_views(log@).contains(e) <==> (log_views(
                    old(log)@,
                ).contains(e) || is_direct_entry(a, *changed, l as int, e)) by {
                    lemma_push_contains(before, added, e);
                }
            }
        },
        None => {},
    }
    let ghost direct = log_views(log@);
    match file {
        Some(f) => match symbol {
            Some(s) => {
                log_symbol_causes(a, f, s.as_str(), log);
            },
            None => {},
        },
        None => {},
    }
    proof {
        assert forall|e: (Seq<char>, CauseKey)| #[trigger] log_views(log@).contains(e) <==> (log_views(
            old(log)@,
        ).contains(e) || is_line_entry(a, *changed, l as int, e)) by {
            assert(direct.contains(e) <==> (log_views(old(log)@).contains(e) || is_direct_entry(
                a,
                *changed,
                l as int,
                e,
            )));
        }
    }
}

/// Logs what follows from the change of `changed`.
fn log_file_causes(a: &WorkspaceAnalyzer, changed: &ChangedFile, log: &mut Vec<ProjectCause>)
    requires
        a.wf(),
    ensures
        forall|e: (Seq<char>, CauseKey)|
            #[trigger] log_views(final(log)@).contains(e) <==> (log_views(old(log)@).contains(e) || is_file_entry(
                a,
                *changed,
                e,
            )),
{
    let mut l: usize = 0;
    while l < changed.changed_lines.len()
        invariant
            l <= changed.changed_lines.len(),
            a.wf(),
            forall|e: (Seq<char>, CauseKey)|
                #[trigger] log_views(log@).contains(e) <==> (log_views(old(log)@).contains(e) || exists|q: int|
                    0 <= q < l && #[trigger] is_line_entry(a, *changed, q, e)),
        decreases changed.changed_lines.len() - l,
    {
        let ghost before = log_views(log@);
        log_line_causes(a, changed, l, log);
        proof {
            assert forall|e: (Seq<char>, CauseKey)| #[trigger] log_views(log@).contains(e) <==> (log_views(
                old(log)@,
            ).contains(e) || exists|q: int| 0 <= q < l + 1 && #[trigger] is_line_entry(a, *changed, q, e)) by {
                assert(before.contains(e) <==> (log_views(old(log)@).contains(e) || exists|q: int|
                    0 <= q < l && #[trigger] is_line_entry(a, *changed, q, e)));
                if exists|q: int| 0 <= q < l + 1 && #[trigger] is_line_entry(a, *changed, q, e) {
                    let q = choose|q: int| 0 <= q < l + 1 && #[trigger] is_line_entry(a, *changed, q, e);
                    if q < l {
                        assert(before.contains(e));
                    }
                }
            }
        }
        l += 1;
    }
    proof {
        assert forall|e: (Seq<char>, CauseKey)| #[trigger] log_views(log@).contains(e) <==> (log_views(
            old(log)@,
        ).contains(e) || is_file_entry(a, *changed, e)) by {
            if is_file_entry(a, *changed, e) {
                let q = choose|q: int| #[trigger] is_line_entry(a, *changed, q, e);
                assert(0 <= q < changed.changed_lines@.len());
            }
        }
    }
}

/// Logs, for every project that declares a dependency on an affected
/// project, that dependency.
fn log_dependency_causes(
    a: &WorkspaceAnalyzer,
    changed: Ghost<Seq<ChangedFile>>,
    affected: &NameSet,
    log: &mut Vec<ProjectCause>,
)
    requires
        affected.wf(),
        forall|p: Seq<char>| #[trigger] affected@.contains(p) <==> is_affected(a, changed@, p),
    ensures
        forall|e: (Seq<char>, CauseKey)|
            #[trigger] log_views(final(log)@).contains(e) <==> (log_views(old(log)@).contains(e)
                || is_dependency_entry(a, changed@, e)),
{
    let projects = &a.projects;
    let mut i: usize = 0;
    while i < projects.len()
        invariant
            i <= projects.len(),
            projects == &a.projects,
            affected.wf(),
            forall|p: Seq<char>| #[trigger] affected@.contains(p) <==> is_affected(a, changed@, p),
            forall|e: (Seq<char>, CauseKey)|
                #[trigger] log_views(log@).contains(e) <==> (log_views(old(log)@).contains(e) || exists|
                    q: int,
                    d: int,
                |
                    0 <= q < i && #[trigger] depends_at(a, changed@, q, d, e)),
        decreases projects.len() - i,
    {
        let deps = &projects[i].implicit_dependencies;
        let ghost outer = log_views(log@);
        let mut d: usize = 0;
        while d < deps.len()
            invariant
                i < projects.len(),
                d <= deps.len(),
                projects == &a.projects,
                deps == &a.projects@[i as int].implicit_dependencies,
                affected.wf(),
                forall|p: Seq<char>| #[trigger] affected@.contains(p) <==> is_affected(a, changed@, p),
                forall|e: (Seq<char>, CauseKey)|
                    #[trigger] log_views(log@).contains(e) <==> (outer.contains(e) || exists|w: int|
                        0 <= w < d && #[trigger] depends_at(a, changed@, i as int, w, e)),
            decreases deps.len() - d,
        {
            let ghost before = log_views(log@);
            let on = &deps[d];
            assert(texts(deps@)[d as int] == on@);
            if affected.contains(on.as_str()) {
                let cause = AffectCause::ImplicitDependency { depends_on: on.clone() };
                let ghost added = (projects@[i as int].name@, cause@);
                push_entry(log, &projects[i].name, cause);
                proof {
                    assert(depends_at(a, changed@, i as int, d as int, added));
                    assert forall|e: (Seq<char>, CauseKey)| #[trigger] log_views(log@).contains(e) <==> (
                    outer.contains(e) || exists|w: int|
                        0 <= w < d + 1 && #[trigger] depends_at(a, changed@, i as int, w, e)) by {
                        lemma_push_contains(before, added, e);
                        assert(before.contains(e) <==> (outer.contains(e) || exists|w: int|
                            0 <= w < d && #[trigger] depends_at(a, changed@, i as int, w, e)));
                        if exists|w: int| 0 <= w < d + 1 && #[trigger] depends_at(a, changed@, i as int, w, e) {
                            let w = choose|w: int|
                                0 <= w < d + 1 && #[trigger] depends_at(a, changed@, i as int, w, e);
                            if w == d {
                                assert(e == added);
                            }
                        }
                    }
                }
            } else {
                proof {
                    assert forall|e: (Seq<char>, CauseKey)| #[trigger] log_views(log@).contains(e) <==> (
                    outer.contains(e) || exists|w: int|
                        0 <= w < d + 1 && #[trigger] depends_at(a, changed@, i as int, w, e)) by {
                        if exists|w: int| 0 <= w < d + 1 && #[trigger] depends_at(a, changed@, i as int, w, e) {
                            let w = choose|w: int|
                                0 <= w < d + 1 && #[trigger] depends_at(a, changed@, i as int, w, e);
                            assert(w < d);
                        }
                    }
                }
            }
            d += 1;
        }
        proof {
            assert forall|e: (Seq<char>, CauseKey)| #[trigger] log_views(log@).contains(e) <==> (log_views(
                old(log)@,
            ).contains(e) || exists|q: int, w: int| 0 <= q < i + 1 && #[trigger] depends_at(a, changed@, q, w, e)) by {
                assert(outer.contains(e) <==> (log_views(old(log)@).contains(e) || exists|q: int, w: int|
                    0 <= q < i && #[trigger] depends_at(a, changed@, q, w, e)));
                if exists|q: int, w: int| 0 <= q < i + 1 && #[trigger] depends_at(a, changed@, q, w, e) {
                    let (q, w) = choose|q: int, w: int|
                        0 <= q < i + 1 && #[trigger] depends_at(a, changed@, q, w, e);
                    if q < i {
                        assert(outer.contains(e));
                    } else {
                        assert(depends_at(a, changed@, i as int, w, e));
                    }
                }
                if exists|w: int| 0 <= w < deps.len() && #[trigger] depends_at(a, changed@, i as int, w, e) {
                    let w = choose|w: int| 0 <= w < deps.len() && #[trigger] depends_at(a, changed@, i as int, w, e);
                    assert(depends_at(a, changed@, i as int, w, e));
                }
            }
        }
        i += 1;
    }
    proof {
        assert forall|e: (Seq<char>, CauseKey)| #[trigger] log_views(log@).contains(e) <==> (log_views(
            old(log)@,
        ).contains(e) || is_dependency_entry(a, changed@, e)) by {
            if exists|q: int, w: int| 0 <= q < projects.len() && #[trigger] depends_at(a, changed@, q, w, e) {
                let (q, w) = choose|q: int, w: int|
                    0 <= q < projects.len() && #[trigger] depends_at(a, changed@, q, w, e);
                let on = texts(a.projects@[q].implicit_dependencies@)[w];
                assert(texts(a.projects@[q].implicit_dependencies@).contains(on));
                assert(declares_dependency(a.projects@, e.0, on));
                assert(is_affected(a, changed@, on));
            }
            if is_dependency_entry(a, changed@, e) {
                let on = choose|on: Seq<char>|
                    #[trigger] is_affected(a, changed@, on) && declares_dependency(a.projects@, e.0, on) && e.1
                        == dependency_cause(on);
                let q = choose|q: int|
                    0 <= q < a.projects@.len() && (#[trigger] a.projects@[q]).name@ == e.0 && texts(
                        a.projects@[q].implicit_dependencies@,
                    ).contains(on);
                let deps = texts(a.projects@[q].implicit_dependencies@);
                let w = choose|w: int| 0 <= w < deps.len() && deps[w] == on;
                assert(depends_at(a, changed@, q, w, e));
            }
        }
    }
}

/// `entry` says that project `q` declares, as its dependency `d`, a
/// dependency on an affected project.
pub open spec fn depends_at(
    a: &WorkspaceAnalyzer,
    changed: Seq<ChangedFile>,
    q: int,
    d: int,
    entry: (Seq<char>, CauseKey),
) -> bool {
    &&& 0 <= q < a.projects@.len()
    &&& 0 <= d < a.projects@[q].implicit_dependencies@.len()
    &&& is_affected(a, changed, a.projects@[q].implicit_dependencies@[d]@)
    &&& entry.0 == a.projects@[q].name@
    &&& entry.1 == dependency_cause(a.projects@[q].implicit_dependencies@[d]@)
}

/// The causes that `log` holds for `project`, each once, in ascending order.
fn causes_of(log: &Vec<ProjectCause>, project: &str) -> (causes: Vec<AffectCause>)
    ensures
        causes_ascending(cause_views(causes@)),
        forall|c: CauseKey| #[trigger] cause_views(causes@).contains(c) <==> log_views(log@).contains((project@, c)),
{
    let mut causes: Vec<AffectCause> = Vec::new();
    let mut i: usize = 0;
    while i < log.len()
        invariant
            i <= log.len(),
            causes_ascending(cause_views(causes@)),
            forall|c: CauseKey|
                #[trigger] cause_views(causes@).contains(c) <==> exists|q: int|
                    0 <= q < i && #[trigger] log_views(log@)[q] == (project@, c),
        decreases log.len() - i,
    {
        let ghost before = cause_views(causes@);
        assert(log_views(log@)[i as int] == (log@[i as int].project@, log@[i as int].cause@));
        if str_eq(log[i].project.as_str(), project) {
            insert_cause(&mut causes, clone_cause(&log[i].cause));
            proof {
                assert forall|c: CauseKey| #[trigger] cause_views(causes@).contains(c) <==> exists|q: int|
                    0 <= q < i + 1 && #[trigger] log_views(log@)[q] == (project@, c) by {
                    assert(before.contains(c) <==> exists|q: int|
                        0 <= q < i && #[trigger] log_views(log@)[q] == (project@, c));
                    if exists|q: int| 0 <= q < i + 1 && #[trigger] log_views(log@)[q] == (project@, c) {
                        let q = choose|q: int| 0 <= q < i + 1 && #[trigger] log_views(log@)[q] == (project@, c);
                        if q < i {
                            assert(before.contains(c));
                        }
                    }
                }
            }
        } else {
            proof {
                assert forall|c: CauseKey| #[trigger] cause_views(causes@).contains(c) <==> exists|q: int|
                    0 <= q < i + 1 && #[trigger] log_views(log@)[q] == (project@, c) by {
                    if exists|q: int| 0 <= q < i + 1 && #[trigger] log_views(log@)[q] == (project@, c) {
                        let q = choose|q: int| 0 <= q < i + 1 && #[trigger] log_views(log@)[q] == (project@, c);
                        assert(q < i);
                    }
                }
            }
        }
        i += 1;
    }
    causes
}

/// A copy of `cause`.
pub fn clone_cause(cause: &AffectCause) -> (out: AffectCause)
    ensures
        out@ == cause@,
{
    match cause {
        AffectCause::DirectChange { file, symbol, line } => AffectCause::DirectChange {
            file: file.clone(),
            symbol: clone_opt(symbol),
            line: *line,
        },
        AffectCause::ImportedSymbol { source_project, symbol, via_file, source_file } => AffectCause::ImportedSymbol {
            source_project: source_project.clone(),
            symbol: symbol.clone(),
            via_file: via_file.clone(),
            source_file: source_file.clone(),
        },
        AffectCause::ReExported { through_file, symbol, source_file } => AffectCause::ReExported {
            through_file: through_file.clone(),
            symbol: symbol.clone(),
            source_file: source_file.clone(),
        },
        AffectCause::ImplicitDependency { depends_on } => AffectCause::ImplicitDependency {
            depends_on: depends_on.clone(),
        },
    }
}

/// `report` gives, for each of the affected projects `names`, in their
/// order, its causes: each once, in ascending order.
pub open spec fn reports(
    a: &WorkspaceAnalyzer,
    changed: Seq<ChangedFile>,
    names: Seq<Seq<char>>,
    report: AffectedReport,
) -> bool {
    &&& report.projects@.len() == names.len()
    &&& forall|i: int|
        0 <= i < names.len() ==> {
            &&& (#[trigger] report.projects@[i]).name@ == names[i]
            &&& causes_ascending(cause_views(report.projects@[i].causes@))
            &&& forall|c: CauseKey|
                #[trigger] cause_views(report.projects@[i].causes@).contains(c) <==> is_cause(a, changed, names[i], c)
        }
}

/// The affected projects with the reasons for which each is affected, like
/// `find_affected` and with the report: for every affected project, in the
/// order of the list, its causes, each once, in ascending order. Where
/// nothing has changed, no project is affected and there is no report.
pub fn find_affected_with_report(analyzer: &WorkspaceAnalyzer, changed_files: &Vec<ChangedFile>) -> (r:
    AffectedResult)
    requires
        analyzer.wf(),
    ensures
        lists_affected(analyzer, changed_files@, texts(r.affected_projects@)),
        changed_files@.len() == 0 ==> r.affected_projects@.len() == 0,
        r.report is Some <==> changed_files@.len() > 0,
        r.report is Some ==> reports(analyzer, changed_files@, texts(r.affected_projects@), r.report.unwrap()),
{
    let a = analyzer;
    if changed_files.len() == 0 {
        let unchanged = find_affected(a, changed_files);
        proof {
            let names = texts(unchanged.affected_projects@);
            if names.len() > 0 {
                assert(names.contains(names[0]));
                assert(is_affected(a, changed_files@, names[0]));
            }
        }
        return unchanged;
    }
    let affected = find_affected_names(a, changed_files);
    let mut log: Vec<ProjectCause> = Vec::new();
    let mut c: usize = 0;
    assert(log_views(log@) =~= Seq::<(Seq<char>, CauseKey)>::empty());
    while c < changed_files.len()
        invariant
            c <= changed_files.len(),
            a.wf(),
            forall|e: (Seq<char>, CauseKey)|
                #[trigger] log_views(log@).contains(e) <==> exists|q: int|
                    0 <= q < c && is_file_entry(a, #[trigger] changed_files@[q], e),
        decreases changed_files.len() - c,
    {
        let ghost before = log_views(log@);
        log_file_causes(a, &changed_files[c], &mut log);
        proof {
            assert forall|e: (Seq<char>, CauseKey)| #[trigger] log_views(log@).contains(e) <==> exists|q: int|
                0 <= q < c + 1 && is_file_entry(a, #[trigger] changed_files@[q], e) by {
                assert(before.contains(e) <==> exists|q: int|
                    0 <= q < c && is_file_entry(a, #[trigger] changed_files@[q], e));
                if exists|q: int| 0 <= q < c + 1 && is_file_entry(a, #[trigger] changed_files@[q], e) {
                    let q = choose|q: int| 0 <= q < c + 1 && is_file_entry(a, #[trigger] changed_files@[q], e);
                    if q < c {
                        assert(before.contains(e));
                    }
                }
            }
        }
        c += 1;
    }
    let ghost direct = log_views(log@);
    log_dependency_causes(a, Ghost(changed_files@), &affected, &mut log);
    proof {
        assert forall|e: (Seq<char>, CauseKey)| #[trigger] log_views(log@).contains(e) <==> is_cause(
            a,
            changed_files@,
            e.0,
            e.1,
        ) by {
            assert(direct.contains(e) <==> exists|q: int|
                0 <= q < changed_files@.len() && is_file_entry(a, #[trigger] changed_files@[q], e));
            assert(e == (e.0, e.1));
        }
    }
    let ghost names = texts(affected.names@);
    let mut projects: Vec<AffectedProjectInfo> = Vec::new();
    let mut i: usize = 0;
    while i < affected.names.len()
        invariant
            i <= affected.names.len(),
            names == texts(affected.names@),
            projects@.len() == i,
            forall|e: (Seq<char>, CauseKey)|
                #[trigger] log_views(log@).contains(e) <==> is_cause(a, changed_files@, e.0, e.1),
            forall|q: int|
                0 <= q < i ==> {
                    &&& (#[trigger] projects@[q]).name@ == names[q]
                    &&& causes_ascending(cause_views(projects@[q].causes@))
                    &&& forall|c: CauseKey|
                        #[trigger] cause_views(projects@[q].causes@).contains(c) <==> is_cause(
                            a,
                            changed_files@,
                            names[q],
                            c,
                        )
                },
        decreases affected.names.len() - i,
    {
        let name = &affected.names[i];
        assert(names[i as int] == name@);
        let causes = causes_of(&log, name.as_str());
        proof {
            assert forall|c: CauseKey| #[trigger] cause_views(causes@).contains(c) <==> is_cause(
                a,
                changed_files@,
                name@,
                c,
            ) by {
                assert(log_views(log@).contains((name@, c)) <==> is_cause(a, changed_files@, name@, c));
            }
        }
        let ghost before = projects@;
        projects.push(AffectedProjectInfo { name: name.clone(), causes });
        proof {
            assert forall|q: int| 0 <= q < i + 1 implies {
                &&& (#[trigger] projects@[q]).name@ == names[q]
                &&& causes_ascending(cause_views(projects@[q].causes@))
                &&& forall|c: CauseKey|
                    #[trigger] cause_views(projects@[q].causes@).contains(c) <==> is_cause(
                        a,
                        changed_files@,
                        names[q],
                        c,
                    )
            } by {
                if q < i {
                    assert(projects@[q] == before[q]);
                }
            }
        }
        i += 1;
    }
    proof {
        assert forall|p: Seq<char>| #[trigger] names.contains(p) <==> is_affected(a, changed_files@, p) by {
            assert(affected@.contains(p) <==> names.contains(p));
        }
    }
    AffectedResult { affected_projects: affected.names, report: Some(AffectedReport { projects }) }
}

} // verus!
