//! Finding the projects of a workspace, by the conventions of its build tool.

pub mod nx;
pub mod turbo;
pub mod workspaces;

use vstd::prelude::*;
use crate::types::Project;

verus! {

/// The build tool whose conventions say where the projects are.
#[derive(Debug, Clone, Copy, PartialEq, Eq, Structural)]
pub enum WorkspaceKind {
    /// A workspace with an `nx.json`.
    Nx,
    /// A workspace with a `turbo.json`: its projects are those of the package
    /// manager.
    Turbo,
    /// A workspace of a package manager.
    Packages,
    /// No workspace that is known.
    Unknown,
}

/// The kind of a workspace from what was found at its root: Nx comes first,
/// then Turbo, then the package manager.
pub open spec fn kind_of(nx: bool, turbo: bool, packages: bool) -> WorkspaceKind {
    if nx {
        WorkspaceKind::Nx
    } else if turbo {
        WorkspaceKind::Turbo
    } else if packages {
        WorkspaceKind::Packages
    } else {
        WorkspaceKind::Unknown
    }
}

/// The kind of a workspace from what was found at its root.
pub fn workspace_kind(nx: bool, turbo: bool, packages: bool) -> (kind: WorkspaceKind)
    ensures
        kind == kind_of(nx, turbo, packages),
{
    if nx {
        WorkspaceKind::Nx
    } else if turbo {
        WorkspaceKind::Turbo
    } else if packages {
        WorkspaceKind::Packages
    } else {
        WorkspaceKind::Unknown
    }
}

/// The kind of the workspace at `cwd`: the files at its root are looked for
/// on disk; whether its package description lists workspaces is given.
pub fn detect_workspace(cwd: &str, lists_workspaces: bool) -> (kind: WorkspaceKind)
    ensures
        lists_workspaces ==> kind != WorkspaceKind::Unknown,
{
    let nx = nx::is_nx_workspace(cwd);
    let turbo = turbo::is_turbo_workspace(cwd);
    let packages = workspaces::is_workspace(cwd, lists_workspaces);
    workspace_kind(nx, turbo, packages)
}

/// The projects of a workspace of the given kind, from what its build tool
/// and its package manager list: those of Nx for an Nx workspace, those of
/// the package manager for the other kinds, none where the kind is unknown.
pub fn discover_projects(kind: WorkspaceKind, nx_projects: Vec<Project>, package_projects: Vec<Project>) -> (projects:
    Vec<Project>)
    ensures
        projects@ == match kind {
            WorkspaceKind::Nx => nx_projects@,
            WorkspaceKind::Turbo => package_projects@,
            WorkspaceKind::Packages => package_projects@,
            WorkspaceKind::Unknown => Seq::<Project>::empty(),
        },
{
    match kind {
        WorkspaceKind::Nx => nx_projects,
        WorkspaceKind::Turbo => turbo::get_projects(package_projects),
        WorkspaceKind::Packages => package_projects,
        WorkspaceKind::Unknown => Vec::new(),
    }
}

} // verus!
