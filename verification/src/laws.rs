//! What holds of every analysis.

use vstd::prelude::*;
use crate::affected::{
    directly_affected, file_affects, is_affected, line_affects, lists_affected, path_owner,
    site_in_project, spreads_to, symbol_affects, touches,
};
use crate::causes::{cause_views, lemma_causes_unique, CauseKey};
use crate::dependencies::{declares_dependency, depends_on, Dependents};
use crate::graph::{
    lemma_dead_end, lemma_reached_keeps, lemma_reaches_self, lemma_reaches_step, reaches,
    Expansion, KeyView,
};
use crate::order::{lemma_ascending_unique, lemma_name_order, name_before};
use crate::propagation::{
    has_cross_site, own_export, propagates, site_leads_to, whole_file, Propagation,
};
use crate::report::{is_cause, reports};
use crate::semantic::analyzer::{find_path, FileSemanticData, WorkspaceAnalyzer};
use crate::semantic::reference_finder::{
    backward_edge, backward_edges, backward_edges_in, chain_reaches, direct_sites, entry_sites,
    forward_edge, importer_edge, is_cross_site, local_sites, sites_of, ReexportChain, Site,
};
use crate::semantic::symbols::{covers, extent, smallest_covering};
use crate::seqs::{gather, lemma_concat_contains, lemma_gather_contains};
use crate::syntax::AstNode;
use crate::types::{AffectedReport, ChangedFile, Project};
use crate::paths::{is_under, same_path};
use crate::utils::first_owner_from;

verus! {

/// Running the analysis again on the same files and the same change set
/// gives the same list: a change set has one list of affected projects.
pub proof fn law_same_input_same_list(
    a: &WorkspaceAnalyzer,
    changed: Seq<ChangedFile>,
    first: Seq<Seq<char>>,
    second: Seq<Seq<char>>,
)
    requires
        lists_affected(a, changed, first),
        lists_affected(a, changed, second),
    ensures
        first == second,
{
    assert forall|n: Seq<char>| first.contains(n) <==> second.contains(n) by {
        assert(first.contains(n) <==> is_affected(a, changed, n));
        assert(second.contains(n) <==> is_affected(a, changed, n));
    }
    lemma_ascending_unique(first, second);
}

/// Running the analysis again gives the same report: a change set has one
/// list of causes for each affected project.
pub proof fn law_same_input_same_report(
    a: &WorkspaceAnalyzer,
    changed: Seq<ChangedFile>,
    names: Seq<Seq<char>>,
    first: AffectedReport,
    second: AffectedReport,
)
    requires
        reports(a, changed, names, first),
        reports(a, changed, names, second),
    ensures
        first.projects@.len() == second.projects@.len(),
        forall|i: int|
            0 <= i < first.projects@.len() ==> (#[trigger] first.projects@[i]).name@ == second.projects@[i].name@
                && cause_views(first.projects@[i].causes@) == cause_views(second.projects@[i].causes@),
{
    assert forall|i: int| 0 <= i < first.projects@.len() implies (#[trigger] first.projects@[i]).name@
        == second.projects@[i].name@ && cause_views(first.projects@[i].causes@) == cause_views(
        second.projects@[i].causes@,
    ) by {
        let x = cause_views(first.projects@[i].causes@);
        let y = cause_views(second.projects@[i].causes@);
        assert(second.projects@[i].name@ == names[i]);
        assert forall|c: CauseKey| x.contains(c) <==> y.contains(c) by {
            assert(x.contains(c) <==> is_cause(a, changed, names[i], c));
            assert(y.contains(c) <==> is_cause(a, changed, names[i], c));
        }
        lemma_causes_unique(x, y);
    }
}

/// The node that the search for a symbol starts from covers the position
/// and is as small as any node that covers it. Among the smallest nodes that
/// cover the position it is the first that is not the program, and the first
/// of all if they all are the program.
pub proof fn law_smallest_node_is_smallest(nodes: Seq<AstNode>, offset: nat, count: int)
    requires
        0 <= count <= nodes.len(),
    ensures
        match smallest_covering(nodes, offset, count) {
            Some(i) => {
                &&& 0 <= i < count
                &&& covers(nodes, i, offset)
                &&& forall|j: int| 0 <= j < count && covers(nodes, j, offset) ==> extent(nodes, i) <= extent(nodes, j)
                &&& forall|j: int|
                    0 <= j < i && covers(nodes, j, offset) && extent(nodes, j) == extent(nodes, i)
                        ==> (#[trigger] nodes[j]).kind is Program && !(nodes[i].kind is Program)
                &&& forall|j: int|
                    i < j < count && covers(nodes, j, offset) && extent(nodes, j) == extent(nodes, i)
                        ==> (#[trigger] nodes[j]).kind is Program || !(nodes[i].kind is Program)
            },
            None => forall|j: int| 0 <= j < count ==> !covers(nodes, j, offset),
        },
    decreases count,
{
    if count > 0 {
        law_smallest_node_is_smallest(nodes, offset, count - 1);
    }
}

/// No project is listed twice.
pub proof fn law_each_project_once(a: &WorkspaceAnalyzer, changed: Seq<ChangedFile>, names: Seq<Seq<char>>)
    requires
        lists_affected(a, changed, names),
    ensures
        names.no_duplicates(),
{
    assert forall|i: int, j: int| 0 <= i < names.len() && 0 <= j < names.len() && i != j implies names[i]
        != names[j] by {
        lemma_name_order(names[i], names[j], names[i]);
        if i < j {
            assert(name_before(names[i], names[j]));
        } else {
            assert(name_before(names[j], names[i]));
        }
    }
}

/// A path stands for the first file that has it: what `find_path` finds is a
/// file with that path, whatever separates its components, and no file
/// before it has the path.
pub proof fn law_path_names_first_file(files: Seq<FileSemanticData>, path: Seq<char>, from: int)
    requires
        0 <= from,
    ensures
        match find_path(files, path, from) {
            Some(f) => from <= f < files.len() && same_path(files[f].path@, path) && forall|j: int|
                from <= j < f ==> !same_path((#[trigger] files[j]).path@, path),
            None => forall|j: int| from <= j < files.len() ==> !same_path((#[trigger] files[j]).path@, path),
        },
    decreases files.len() - from,
{
    if from < files.len() && !same_path(files[from].path@, path) {
        law_path_names_first_file(files, path, from + 1);
    }
}

/// A file belongs to the first project that holds it: what `owner_of` finds
/// is a project whose source root the path lies under, and no project before
/// it is one.
pub proof fn law_owner_is_first_holder(path: Seq<char>, projects: Seq<Project>, from: int)
    requires
        0 <= from,
    ensures
        match first_owner_from(path, projects, from) {
            Some(i) => from <= i < projects.len() && is_under(path, projects[i].source_root@)
                && forall|j: int| from <= j < i ==> !is_under(path, #[trigger] projects[j].source_root@),
            None => forall|j: int| from <= j < projects.len() ==> !is_under(path, #[trigger] projects[j].source_root@),
        },
    decreases projects.len() - from,
{
    if from < projects.len() && !is_under(path, projects[from].source_root@) {
        law_owner_is_first_holder(path, projects, from + 1);
    }
}

/// Every changed file of `less` is a changed file of `more`, with at least
/// the same changed lines.
pub open spec fn covers_changes(more: Seq<ChangedFile>, less: Seq<ChangedFile>) -> bool {
    forall|c: int|
        0 <= c < less.len() ==> exists|d: int|
            0 <= d < more.len() && (#[trigger] more[d]).file_path@ == (#[trigger] less[c]).file_path@ && forall|
                l: int,
            |
                0 <= l < less[c].changed_lines@.len() ==> more[d].changed_lines@.contains(
                    #[trigger] less[c].changed_lines@[l],
                )
}

/// Changing more lines never makes fewer projects affected.
pub proof fn law_more_changes_affect_more(
    a: &WorkspaceAnalyzer,
    less: Seq<ChangedFile>,
    more: Seq<ChangedFile>,
    project: Seq<char>,
)
    requires
        covers_changes(more, less),
        is_affected(a, less, project),
    ensures
        is_affected(a, more, project),
{
    let start = choose|d: Seq<char>| directly_affected(a, less, d) && #[trigger] depends_on(&a.projects, d, project);
    let c = choose|c: int| 0 <= c < less.len() && file_affects(a, #[trigger] less[c], start);
    let d = choose|d: int|
        0 <= d < more.len() && (#[trigger] more[d]).file_path@ == less[c].file_path@ && forall|l: int|
            0 <= l < less[c].changed_lines@.len() ==> more[d].changed_lines@.contains(
                #[trigger] less[c].changed_lines@[l],
            );
    if path_owner(a.projects@, less[c].file_path@) != Some(start) {
        let f = find_path(a.files@, less[c].file_path@, 0).unwrap();
        let l = choose|l: int|
            0 <= l < less[c].changed_lines@.len() && line_affects(a, f, #[trigger] less[c].changed_lines@[l], start);
        let line = less[c].changed_lines@[l];
        assert(more[d].changed_lines@.contains(line));
        let m = choose|m: int| 0 <= m < more[d].changed_lines@.len() && more[d].changed_lines@[m] == line;
        assert(line_affects(a, f, more[d].changed_lines@[m], start));
    }
    assert(file_affects(a, more[d], start));
    assert(directly_affected(a, more, start));
}

/// A project that declares a dependency on an affected project is affected.
pub proof fn law_dependents_are_affected(
    a: &WorkspaceAnalyzer,
    changed: Seq<ChangedFile>,
    project: Seq<char>,
    dependent: Seq<char>,
)
    requires
        is_affected(a, changed, project),
        declares_dependency(a.projects@, dependent, project),
    ensures
        is_affected(a, changed, dependent),
{
    let start = choose|d: Seq<char>|
        directly_affected(a, changed, d) && #[trigger] depends_on(&a.projects, d, project);
    let graph = Dependents { projects: &a.projects, seed: Ghost(start) };
    assert(graph.edge((0int, project), (0int, dependent)));
    lemma_reaches_step(&graph, (0int, start), (0int, project), (0int, dependent));
    assert(depends_on(&a.projects, start, dependent));
}

/// The project of a changed file, and what the symbol on a changed line of
/// an analysed file affects, is affected.
pub proof fn law_changed_symbol_affects(
    a: &WorkspaceAnalyzer,
    changed: Seq<ChangedFile>,
    c: int,
    l: int,
    symbol: Seq<char>,
    project: Seq<char>,
)
    requires
        0 <= c < changed.len(),
        0 <= l < changed[c].changed_lines@.len(),
        find_path(a.files@, changed[c].file_path@, 0) is Some,
        a.files@[find_path(a.files@, changed[c].file_path@, 0).unwrap()].symbol_at(changed[c].changed_lines@[l], 0)
            == Some(symbol),
        symbol_affects(a, find_path(a.files@, changed[c].file_path@, 0).unwrap(), symbol, project),
    ensures
        is_affected(a, changed, project),
{
    let f = find_path(a.files@, changed[c].file_path@, 0).unwrap();
    assert(line_affects(a, f, changed[c].changed_lines@[l], project));
    assert(file_affects(a, changed[c], project));
    assert(directly_affected(a, changed, project));
    lemma_reaches_self(&Dependents { projects: &a.projects, seed: Ghost(project) }, (0int, project));
    assert(depends_on(&a.projects, project, project));
}

/// A change that reaches no symbol that another file uses stays in its
/// project: a change of a symbol that is not exported, not imported and used
/// by no export affects the project of its file and no other, but for
/// declared dependencies.
pub proof fn law_internal_change_stays_inside(
    a: &WorkspaceAnalyzer,
    file: int,
    name: Seq<char>,
    project: Seq<char>,
)
    requires
        0 <= file < a.files@.len(),
        forall|k: KeyView| #[trigger] spreads_to(a, file, name, k) ==> !has_cross_site(a, k.0, k.1),
    ensures
        symbol_affects(a, file, name, project) <==> path_owner(a.projects@, a.files@[file].path@) == Some(
            project,
        ),
{
    let graph = Propagation { analyzer: a, seed: Ghost(name) };
    let start = (file, name);
    lemma_reaches_self(&graph, start);
    if symbol_affects(a, file, name, project) {
        let k = choose|k: KeyView| #[trigger] spreads_to(a, file, name, k) && touches(a, k, project);
        let kept = |t: KeyView| t.0 == file;
        assert forall|x: KeyView, y: KeyView|
            reaches(&graph, start, x) && kept(x) && #[trigger] graph.edge(x, y) implies kept(y) by {
            assert(spreads_to(a, file, name, x));
            assert(!has_cross_site(a, x.0, x.1));
            if exists|site: Site| #[trigger] is_cross_site(a, x.0, x.1, site) && site_leads_to(a, site, y) {
                let site = choose|site: Site| #[trigger] is_cross_site(a, x.0, x.1, site) && site_leads_to(a, site, y);
                assert(has_cross_site(a, x.0, x.1));
            }
        }
        lemma_reached_keeps(&graph, start, k, kept);
        assert(k.0 == file);
        if exists|site: Site| #[trigger] is_cross_site(a, k.0, k.1, site) && site_in_project(a, site, project) {
            let site = choose|site: Site|
                #[trigger] is_cross_site(a, k.0, k.1, site) && site_in_project(a, site, project);
            assert(has_cross_site(a, k.0, k.1));
        }
    }
    if path_owner(a.projects@, a.files@[file].path@) == Some(project) {
        assert(spreads_to(a, file, name, start));
        assert(touches(a, start, project));
    }
}

/// A symbol that is not exported, that no other file uses and that no other
/// symbol of its file uses affects the project of its file and no other,
/// but for declared dependencies.
pub proof fn law_unused_symbol_stays_inside(a: &WorkspaceAnalyzer, file: int, name: Seq<char>, project: Seq<char>)
    requires
        0 <= file < a.files@.len(),
        !a.files@[file].exports_symbol(name),
        !has_cross_site(a, file, name),
        forall|other: Seq<char>| a.files@[file].used_inside(name, other) ==> other == name,
    ensures
        symbol_affects(a, file, name, project) <==> path_owner(a.projects@, a.files@[file].path@) == Some(
            project,
        ),
{
    let graph = Propagation { analyzer: a, seed: Ghost(name) };
    let start = (file, name);
    assert forall|t: KeyView| !graph.edge(start, t) by {
        if a.files@[file].exports_using(name).contains(t.1) {
            let pick = |k: int| a.files@[file].export_using(name, k);
            lemma_gather_contains(a.files@[file].exports@.len() as int, pick, t.1);
            let k = choose|k: int| 0 <= k < a.files@[file].exports@.len() && #[trigger] pick(k) == Some(t.1);
            assert(a.files@[file].export_using(name, k) is Some);
        }
        if exists|site: Site| #[trigger] is_cross_site(a, file, name, site) && site_leads_to(a, site, t) {
            let site = choose|site: Site| #[trigger] is_cross_site(a, file, name, site) && site_leads_to(a, site, t);
            assert(has_cross_site(a, file, name));
        }
    }
    assert forall|k: KeyView| #[trigger] spreads_to(a, file, name, k) implies !has_cross_site(a, k.0, k.1) by {
        lemma_dead_end(&graph, start, k);
    }
    law_internal_change_stays_inside(a, file, name, project);
}

/// A change of a helper reaches the importers of the export that uses it:
/// where `helper` is used inside the top-level symbol `exported` of its
/// file, every project with a use of `exported` is affected by a change of
/// `helper`.
pub proof fn law_helper_change_crosses_export(
    a: &WorkspaceAnalyzer,
    file: int,
    helper: Seq<char>,
    exported: Seq<char>,
    site: Site,
    project: Seq<char>,
)
    requires
        0 <= file < a.files@.len(),
        helper != exported,
        a.files@[file].used_inside(helper, exported),
        is_cross_site(a, file, exported, site),
        site_in_project(a, site, project),
    ensures
        symbol_affects(a, file, helper, project),
{
    let graph = Propagation { analyzer: a, seed: Ghost(helper) };
    lemma_reaches_self(&graph, (file, helper));
    assert(propagates(a, (file, helper), (file, exported)));
    lemma_reaches_step(&graph, (file, helper), (file, helper), (file, exported));
    assert(spreads_to(a, file, helper, (file, exported)));
    assert(touches(a, (file, exported), project));
}

proof fn lemma_gather_holds<T>(count: int, pick: spec_fn(int) -> Option<T>, i: int, item: T)
    requires
        0 <= i < count,
        pick(i) == Some(item),
    ensures
        gather(count, pick).contains(item),
{
    lemma_gather_contains(count, pick, item);
}

proof fn lemma_backward_edge_listed(a: &WorkspaceAnalyzer, from: KeyView, count: int, x: int, k: int, to: KeyView)
    requires
        0 <= x < count <= a.files@.len(),
        0 <= k < a.files@[x].exports@.len(),
        backward_edge(a, from, x, k) == Some(to),
    ensures
        backward_edges(a, from, count).contains(to),
    decreases count,
{
    let before = backward_edges(a, from, count - 1);
    let last = backward_edges_in(a, from, count - 1, a.files@[count - 1].exports@.len() as int);
    lemma_concat_contains(before, last, to);
    if x == count - 1 {
        let pick = |k: int| backward_edge(a, from, x, k);
        lemma_gather_holds(a.files@[x].exports@.len() as int, pick, k, to);
    } else {
        lemma_backward_edge_listed(a, from, count - 1, x, k, to);
    }
}

proof fn lemma_entry_site_listed(a: &WorkspaceAnalyzer, key: KeyView, count: int, j: int, site: Site)
    requires
        0 <= j < count,
        entry_sites(a, key, j).contains(site),
    ensures
        direct_sites(a, key, count).contains(site),
    decreases count,
{
    lemma_concat_contains(direct_sites(a, key, count - 1), entry_sites(a, key, count - 1), site);
    if j < count - 1 {
        lemma_entry_site_listed(a, key, count - 1, j, site);
    }
}

/// A re-export hands a change on: where the file `barrel` re-exports the
/// symbol `name` of the file `origin` under the same name, by a wildcard or
/// by name, and a file imports `name` from `barrel` and uses it, the project
/// of that file is affected by a change of `name` in `origin`.
pub proof fn law_re_export_is_transparent(
    a: &WorkspaceAnalyzer,
    origin: int,
    name: Seq<char>,
    barrel: int,
    k: int,
    j: int,
    project: Seq<char>,
)
    requires
        a.wf(),
        0 <= origin < a.files@.len(),
        0 <= barrel < a.files@.len(),
        0 <= k < a.files@[barrel].exports@.len(),
        a.files@[barrel].exports@[k]@.re_export_from is Some,
        a.export_links@[barrel]@[k] is Some,
        a.export_links@[barrel]@[k].unwrap() == origin,
        a.files@[barrel].exports@[k]@.exported_name == "*"@ || (a.files@[barrel].exports@[k]@.exported_name == name
            && a.files@[barrel].exports@[k]@.inner_name() == name),
        0 <= j < a.import_index@[barrel]@.len(),
        a.files@[a.import_index@[barrel]@[j].0 as int].imports@[a.import_index@[barrel]@[j].1 as int]@.imported_name
            == name,
        a.files@[a.import_index@[barrel]@[j].0 as int].local_uses(
            a.files@[a.import_index@[barrel]@[j].0 as int].imports@[a.import_index@[barrel]@[j].1 as int]@.local_name,
        ).len() > 0,
        path_owner(a.projects@, a.files@[a.import_index@[barrel]@[j].0 as int].path@) == Some(project),
    ensures
        symbol_affects(a, origin, name, project),
{
    let from = (origin, name);
    let to = (barrel, name);
    let chain = ReexportChain { analyzer: a, seed: Ghost(name) };
    assert(backward_edge(a, from, barrel, k) == Some(to));
    lemma_backward_edge_listed(a, from, a.files@.len() as int, barrel, k, to);
    let first = gather(
        a.import_index@[from.0]@.len() as int,
        |j: int| importer_edge(a, from, j),
    );
    let second = gather(
        a.files@[from.0].exports@.len() as int,
        |k: int| forward_edge(a, from, k),
    );
    lemma_concat_contains(first + second, backward_edges(a, from, a.files@.len() as int), to);
    assert(chain.edge(from, to));
    lemma_reaches_self(&chain, from);
    lemma_reaches_step(&chain, from, from, to);
    assert(chain_reaches(a, origin, name, to));
    let entry = a.import_index@[barrel]@[j];
    let import = a.files@[entry.0 as int].imports@[entry.1 as int]@;
    let uses = local_sites(a, entry.0 as int, import.local_name);
    let site = uses[0];
    assert(uses.contains(site));
    let named = uses;
    let whole = if import.imported_name == "*"@ {
        if import.is_dynamic {
            seq![Site { file: entry.0, offset: None }]
        } else {
            local_sites(a, entry.0 as int, import.local_name)
        }
    } else {
        Seq::empty()
    };
    lemma_concat_contains(named, whole, site);
    assert(entry_sites(a, to, j).contains(site));
    lemma_entry_site_listed(a, to, a.import_index@[barrel]@.len() as int, j, site);
    assert(sites_of(a, to).contains(site));
    assert(is_cross_site(a, origin, name, site));
    assert(site.file == entry.0);
    assert(site_in_project(a, site, project));
    let spread = Propagation { analyzer: a, seed: Ghost(name) };
    lemma_reaches_self(&spread, from);
    assert(spreads_to(a, origin, name, from));
    assert(touches(a, from, project));
}

/// A dynamic import is taken to use everything: where a file imports the
/// file `module` by an `import()` with a literal specifier, a change of any
/// symbol of `module` affects the project of that file, and reaches every
/// export that the file declares.
pub proof fn law_dynamic_import_is_conservative(
    a: &WorkspaceAnalyzer,
    module: int,
    name: Seq<char>,
    j: int,
    project: Seq<char>,
)
    requires
        a.wf(),
        0 <= module < a.files@.len(),
        0 <= j < a.import_index@[module]@.len(),
        a.files@[a.import_index@[module]@[j].0 as int].imports@[a.import_index@[module]@[j].1 as int]@.is_dynamic,
        a.files@[a.import_index@[module]@[j].0 as int].imports@[a.import_index@[module]@[j].1 as int]@.imported_name
            == "*"@,
        path_owner(a.projects@, a.files@[a.import_index@[module]@[j].0 as int].path@) == Some(project),
    ensures
        symbol_affects(a, module, name, project),
        forall|k: int, inner: Seq<char>|
            #[trigger] own_export(a.files@[a.import_index@[module]@[j].0 as int], k, inner) ==> spreads_to(
                a,
                module,
                name,
                (a.import_index@[module]@[j].0 as int, inner),
            ),
{
    let from = (module, name);
    let chain = ReexportChain { analyzer: a, seed: Ghost(name) };
    lemma_reaches_self(&chain, from);
    assert(chain_reaches(a, module, name, from));
    let entry = a.import_index@[module]@[j];
    let import = a.files@[entry.0 as int].imports@[entry.1 as int]@;
    let site = Site { file: entry.0, offset: None };
    let named = if import.imported_name == name {
        local_sites(a, entry.0 as int, import.local_name)
    } else {
        Seq::empty()
    };
    let whole = seq![site];
    assert(whole[0] == site);
    lemma_concat_contains(named, whole, site);
    assert(entry_sites(a, from, j).contains(site));
    lemma_entry_site_listed(a, from, a.import_index@[module]@.len() as int, j, site);
    assert(sites_of(a, from).contains(site));
    assert(is_cross_site(a, module, name, site));
    assert(site_in_project(a, site, project));
    let spread = Propagation { analyzer: a, seed: Ghost(name) };
    lemma_reaches_self(&spread, from);
    assert(spreads_to(a, module, name, from));
    assert(touches(a, from, project));
    assert forall|k: int, inner: Seq<char>| #[trigger] own_export(a.files@[entry.0 as int], k, inner) implies spreads_to(
        a,
        module,
        name,
        (entry.0 as int, inner),
    ) by {
        let to = (entry.0 as int, inner);
        assert(site.file == entry.0);
        assert(whole_file(site));
        assert(own_export(a.files@[site.file as int], k, to.1));
        assert(site_leads_to(a, site, to));
        assert(propagates(a, from, to));
        lemma_reaches_step(&spread, from, from, to);
    }
}

} // verus!
