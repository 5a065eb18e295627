//! Turbo workspaces.

use vstd::prelude::*;
use crate::paths::join_path;
use crate::resolver::path_exists;
use crate::types::Project;

verus! {

/// Whether `turbo.json` exists at the root `cwd`.
pub fn is_turbo_workspace(cwd: &str) -> bool {
    let file = join_path(cwd, "turbo.json");
    path_exists(file.as_str())
}

/// The projects of a Turbo workspace: those of its package manager.
pub fn get_projects(package_projects: Vec<Project>) -> (projects: Vec<Project>)
    ensures
        projects@ == package_projects@,
{
    package_projects
}

} // verus!
