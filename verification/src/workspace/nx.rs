//! Nx workspaces.

use vstd::prelude::*;
use crate::paths::{
    file_name, file_name_of, join_path, joined, parent_dir, parent_of, strip_root, stripped,
};
use crate::resolver::path_exists;
use crate::text::{chars_of, holds_text, occurs, occurs_in, str_eq};
use crate::types::{opt_text, texts, Project};

verus! {

/// A target of an Nx project, with the type-check configuration that its
/// options name.
#[derive(Debug, Clone)]
pub struct NxTarget {
    pub name: String,
    pub ts_config: Option<String>,
}

/// What a `project.json` says.
#[derive(Debug, Clone)]
pub struct NxProjectJson {
    pub name: Option<String>,
    pub source_root: Option<String>,
    pub project_type: Option<String>,
    pub implicit_dependencies: Vec<String>,
    pub targets: Option<Vec<NxTarget>>,
}

/// Whether `nx.json` exists at the root `cwd`.
pub fn is_nx_workspace(cwd: &str) -> bool {
    let file = join_path(cwd, "nx.json");
    path_exists(file.as_str())
}

/// The first target named `build` among the targets from `from` on.
pub open spec fn build_target(targets: Seq<NxTarget>, from: int) -> Option<int>
    decreases targets.len() - from,
{
    if from < 0 || from >= targets.len() {
        None
    } else if targets[from].name@ == "build"@ {
        Some(from)
    } else {
        build_target(targets, from + 1)
    }
}

/// The type-check configuration that the build target of the project names.
pub open spec fn build_ts_config(project: NxProjectJson) -> Option<Seq<char>> {
    match project.targets {
        None => None,
        Some(targets) => match build_target(targets@, 0) {
            Some(i) => opt_text(targets@[i].ts_config),
            None => None,
        },
    }
}

/// The name of the type-check configuration that a project of this type has
/// by convention.
pub open spec fn conventional_config(project_type: Option<Seq<char>>) -> Seq<char> {
    if project_type == Some("library"@) {
        "tsconfig.lib.json"@
    } else {
        "tsconfig.app.json"@
    }
}

/// The directory in which the type-check configuration of a project is
/// looked for: above the source root where that exists and has a directory
/// above it, else the directory of the project.
pub open spec fn config_directory(project_dir: Seq<char>, source_root: Seq<char>, root_exists: bool) -> Seq<
    char,
> {
    if root_exists {
        match parent_of(source_root) {
            Some(dir) => dir,
            None => project_dir,
        }
    } else {
        project_dir
    }
}

/// The type-check configuration of a project, from what exists on disk: what
/// the build target names, seen from the workspace root; else the
/// conventional file of the project type; else `tsconfig.json`; else none.
pub open spec fn chosen_ts_config(
    project: NxProjectJson,
    project_dir: Seq<char>,
    source_root: Seq<char>,
    cwd: Seq<char>,
    root_exists: bool,
    conventional_exists: bool,
    plain_exists: bool,
) -> Option<Seq<char>> {
    match build_ts_config(project) {
        Some(named) => Some(joined(cwd, named)),
        None => {
            let dir = config_directory(project_dir, source_root, root_exists);
            if conventional_exists {
                Some(joined(dir, conventional_config(opt_text(project.project_type))))
            } else if plain_exists {
                Some(joined(dir, "tsconfig.json"@))
            } else {
                None
            }
        },
    }
}

fn find_build_config(project: &NxProjectJson) -> (r: Option<String>)
    ensures
        opt_text(r) == build_ts_config(*project),
{
    match &project.targets {
        None => None,
        Some(targets) => {
            let mut i: usize = 0;
            while i < targets.len()
                invariant
                    i <= targets.len(),
                    project.targets == Some(*targets),
                    build_target(targets@, 0) == build_target(targets@, i as int),
                decreases targets.len() - i,
            {
                if str_eq(targets[i].name.as_str(), "build") {
                    return match &targets[i].ts_config {
                        Some(c) => Some(c.clone()),
                        None => None,
                    };
                }
                i += 1;
            }
            None
        },
    }
}

fn config_name(project: &NxProjectJson) -> (name: &'static str)
    ensures
        name@ == conventional_config(opt_text(project.project_type)),
{
    let is_library = match &project.project_type {
        Some(t) => str_eq(t.as_str(), "library"),
        None => false,
    };
    if is_library {
        "tsconfig.lib.json"
    } else {
        "tsconfig.app.json"
    }
}

/// The directory in which the type-check configuration is looked for.
pub fn config_dir(project_dir: &str, source_root: &str, root_exists: bool) -> (dir: String)
    ensures
        dir@ == config_directory(project_dir@, source_root@, root_exists),
{
    if root_exists {
        match parent_dir(source_root) {
            Some(dir) => dir,
            None => project_dir.to_owned(),
        }
    } else {
        project_dir.to_owned()
    }
}

/// The type-check configuration of a project, from what was found on disk.
pub fn choose_ts_config(
    project: &NxProjectJson,
    project_dir: &str,
    source_root: &str,
    cwd: &str,
    root_exists: bool,
    conventional_exists: bool,
    plain_exists: bool,
) -> (r: Option<String>)
    ensures
        opt_text(r) == chosen_ts_config(
            *project,
            project_dir@,
            source_root@,
            cwd@,
            root_exists,
            conventional_exists,
            plain_exists,
        ),
{
    match find_build_config(project) {
        Some(named) => Some(join_path(cwd, named.as_str())),
        None => {
            let dir = config_dir(project_dir, source_root, root_exists);
            if conventional_exists {
                Some(join_path(dir.as_str(), config_name(project)))
            } else if plain_exists {
                Some(join_path(dir.as_str(), "tsconfig.json"))
            } else {
                None
            }
        },
    }
}

/// The type-check configuration of a project: what its build target names,
/// else the first that exists on disk of the conventional file and
/// `tsconfig.json`, looked for above the source root or in the directory of
/// the project.
pub fn resolve_tsconfig(project: &NxProjectJson, project_dir: &str, source_root: &str, cwd: &str) -> (r:
    Option<String>)
    ensures
        build_ts_config(*project) is Some ==> opt_text(r) == Some(
            joined(cwd@, build_ts_config(*project).unwrap()),
        ),
{
    let root_exists = path_exists(source_root);
    let dir = config_dir(project_dir, source_root, root_exists);
    let conventional = join_path(dir.as_str(), config_name(project));
    let plain = join_path(dir.as_str(), "tsconfig.json");
    let conventional_exists = path_exists(conventional.as_str());
    let plain_exists = path_exists(plain.as_str());
    choose_ts_config(project, project_dir, source_root, cwd, root_exists, conventional_exists, plain_exists)
}

/// The name of a project: the one it gives itself, else the name of its
/// directory, else `unknown`.
pub open spec fn project_name(given: Option<Seq<char>>, project_dir: Seq<char>) -> Seq<char> {
    match given {
        Some(n) => n,
        None => match file_name_of(project_dir) {
            Some(name) => name,
            None => "unknown"@,
        },
    }
}

/// The source root of a project: the one it gives itself, else its
/// directory, relative to the workspace root where that holds it.
pub open spec fn project_root(given: Option<Seq<char>>, project_dir: Seq<char>, cwd: Seq<char>) -> Seq<char> {
    match given {
        Some(r) => r,
        None => match stripped(project_dir, cwd) {
            Some(rest) => rest,
            None => project_dir,
        },
    }
}

/// The names of the targets.
pub open spec fn target_names(targets: Option<Vec<NxTarget>>) -> Seq<Seq<char>> {
    match targets {
        Some(t) => t@.map_values(|x: NxTarget| x.name@),
        None => Seq::empty(),
    }
}

fn names_of(targets: &Option<Vec<NxTarget>>) -> (out: Vec<String>)
    ensures
        texts(out@) == target_names(*targets),
{
    let mut out: Vec<String> = Vec::new();
    match targets {
        None => {
            assert(texts(out@) =~= Seq::<Seq<char>>::empty());
        },
        Some(list) => {
            let ghost all = list@.map_values(|x: NxTarget| x.name@);
            let mut i: usize = 0;
            assert(texts(out@) =~= all.take(0));
            while i < list.len()
                invariant
                    i <= list.len(),
                    all == list@.map_values(|x: NxTarget| x.name@),
                    texts(out@) == all.take(i as int),
                decreases list.len() - i,
            {
                let ghost before = texts(out@);
                out.push(list[i].name.clone());
                assert(texts(out@) =~= before.push(list@[i as int].name@));
                assert(all.take(i + 1) =~= all.take(i as int).push(all[i as int]));
                i += 1;
            }
            assert(all.take(list.len() as int) =~= all);
        },
    }
    out
}

fn copy_names(names: &Vec<String>) -> (out: Vec<String>)
    ensures
        texts(out@) == texts(names@),
{
    let mut out: Vec<String> = Vec::new();
    let mut i: usize = 0;
    assert(texts(out@) =~= texts(names@).take(0));
    while i < names.len()
        invariant
            i <= names.len(),
            texts(out@) == texts(names@).take(i as int),
        decreases names.len() - i,
    {
        let ghost before = texts(out@);
        out.push(names[i].clone());
        assert(texts(out@) =~= before.push(names@[i as int]@));
        assert(texts(names@).take(i + 1) =~= texts(names@).take(i as int).push(texts(names@)[i as int]));
        i += 1;
    }
    assert(texts(names@).take(names.len() as int) =~= texts(names@));
    out
}

/// The project that the `project.json` at `path` describes. Its name and
/// source root are taken from the file where it gives them, else from its
/// directory. A path without a directory gives none.
pub fn parse_project_json(manifest: &NxProjectJson, path: &str, cwd: &str) -> (r: Option<Project>)
    ensures
        match r {
            Some(p) => parent_of(path@) is Some && p.name@ == project_name(
                opt_text(manifest.name),
                parent_of(path@).unwrap(),
            ) && p.source_root@ == project_root(opt_text(manifest.source_root), parent_of(path@).unwrap(), cwd@)
                && texts(p.implicit_dependencies@) == texts(manifest.implicit_dependencies@) && texts(p.targets@)
                == target_names(manifest.targets),
            None => parent_of(path@) is None,
        },
{
    let project_dir = match parent_dir(path) {
        None => {
            return None;
        },
        Some(d) => d,
    };
    let name = match &manifest.name {
        Some(n) => n.clone(),
        None => {
            match file_name(project_dir.as_str()) {
                Some(last) => last,
                None => String::from_str("unknown"),
            }
        },
    };
    let source_root = match &manifest.source_root {
        Some(r) => r.clone(),
        None => match strip_root(project_dir.as_str(), cwd) {
            Some(rest) => rest,
            None => project_dir.clone(),
        },
    };
    let ts_config = resolve_tsconfig(manifest, project_dir.as_str(), source_root.as_str(), cwd);
    Some(
        Project {
            name,
            source_root,
            ts_config,
            implicit_dependencies: copy_names(&manifest.implicit_dependencies),
            targets: names_of(&manifest.targets),
        },
    )
}

/// The project that `workspace.json` lists under `name`: its source root is
/// the one it gives itself, else its name.
pub fn project_from_workspace(name: &str, manifest: &NxProjectJson, cwd: &str) -> (p: Project)
    ensures
        p.name@ == name@,
        p.source_root@ == match manifest.source_root {
            Some(r) => r@,
            None => name@,
        },
        texts(p.implicit_dependencies@) == texts(manifest.implicit_dependencies@),
        texts(p.targets@) == target_names(manifest.targets),
{
    let source_root = match &manifest.source_root {
        Some(r) => r.clone(),
        None => name.to_owned(),
    };
    let ts_config = resolve_tsconfig(manifest, cwd, source_root.as_str(), cwd);
    Project {
        name: name.to_owned(),
        source_root,
        ts_config,
        implicit_dependencies: copy_names(&manifest.implicit_dependencies),
        targets: names_of(&manifest.targets),
    }
}

/// Whether a path is left out of the search for projects: whether
/// `node_modules` or `__fixtures__` occurs in it.
pub open spec fn is_left_out(path: Seq<char>) -> bool {
    occurs_in("node_modules"@, path) || occurs_in("__fixtures__"@, path)
}

/// Whether `path` is left out of the search for projects.
pub fn is_excluded(path: &str) -> (r: bool)
    ensures
        r == is_left_out(path@),
{
    let text = chars_of(path);
    let modules = chars_of("node_modules");
    let fixtures = chars_of("__fixtures__");
    occurs(&modules, &text) || occurs(&fixtures, &text)
}

/// The workspace project `k` if no project of `first` has its name.
pub open spec fn is_new(first: Seq<Project>, project: Project) -> bool {
    !first.map_values(|p: Project| p.name@).contains(project.name@)
}

/// The projects of an Nx workspace: those that have a `project.json`, then
/// those that only `workspace.json` lists, told apart by name.
pub fn get_projects(mut project_json: Vec<Project>, workspace_json: Vec<Project>) -> (projects: Vec<Project>)
    ensures
        projects@ == project_json@ + workspace_json@.filter(|p: Project| is_new(project_json@, p)),
{
    let ghost first = project_json@;
    let ghost keep = |p: Project| is_new(first, p);
    let mut names: Vec<String> = Vec::new();
    let mut i: usize = 0;
    assert(texts(names@) =~= first.map_values(|p: Project| p.name@).take(0));
    while i < project_json.len()
        invariant
            i <= project_json.len(),
            project_json@ == first,
            texts(names@) == first.map_values(|p: Project| p.name@).take(i as int),
        decreases project_json.len() - i,
    {
        let ghost before = texts(names@);
        let ghost all = first.map_values(|p: Project| p.name@);
        names.push(project_json[i].name.clone());
        assert(texts(names@) =~= before.push(first[i as int].name@));
        assert(all.take(i + 1) =~= all.take(i as int).push(all[i as int]));
        i += 1;
    }
    assert(first.map_values(|p: Project| p.name@).take(first.len() as int) =~= first.map_values(
        |p: Project| p.name@,
    ));
    let mut rest = workspace_json;
    let ghost others = rest@;
    let mut k: usize = 0;
    assert(others.take(0).filter(keep) =~= Seq::<Project>::empty());
    assert(project_json@ =~= first + others.take(0).filter(keep));
    while k < rest.len()
        invariant
            k <= rest.len(),
            rest@.len() == others.len(),
            forall|j: int| k <= j < rest@.len() ==> rest@[j] == others[j],
            keep == |p: Project| is_new(first, p),
            texts(names@) == first.map_values(|p: Project| p.name@),
            project_json@ == first + others.take(k as int).filter(keep),
        decreases rest.len() - k,
    {
        proof {
            assert(others.take(k + 1).drop_last() =~= others.take(k as int));
            reveal(Seq::filter);
        }
        if !holds_text(&names, rest[k].name.as_str()) {
            let mut project = Project {
                name: String::new(),
                source_root: String::new(),
                ts_config: None,
                implicit_dependencies: Vec::new(),
                targets: Vec::new(),
            };
            std::mem::swap(&mut project, &mut rest[k]);
            project_json.push(project);
            assert(project_json@ =~= first + others.take(k + 1).filter(keep));
        } else {
            assert(project_json@ =~= first + others.take(k + 1).filter(keep));
        }
        k += 1;
    }
    assert(others.take(others.len() as int) =~= others);
    project_json
}

} // verus!
