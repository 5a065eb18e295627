//! Workspaces of a package manager: npm, yarn, pnpm or bun.

use vstd::prelude::*;
use crate::paths::{is_rooted, join_path, joined, parent_dir, parent_of, strip_root, stripped};
use crate::resolver::path_exists;
use crate::text::{chars_of, occurs, occurs_in};
use crate::types::Project;

verus! {

/// Whether the root `cwd` is that of a workspace: `pnpm-workspace.yaml`
/// exists there, or the package description lists workspaces.
pub fn is_workspace(cwd: &str, lists_workspaces: bool) -> (r: bool)
    ensures
        lists_workspaces ==> r,
{
    if lists_workspaces {
        return true;
    }
    let file = join_path(cwd, "pnpm-workspace.yaml");
    path_exists(file.as_str())
}

/// The patterns of the workspace: those of pnpm where it gives any, else
/// those of the package description, else none.
pub fn get_workspace_patterns(pnpm: Option<Vec<String>>, package: Option<Vec<String>>) -> (patterns: Vec<
    String,
>)
    ensures
        patterns@ == match pnpm {
            Some(p) => p@,
            None => match package {
                Some(p) => p@,
                None => Seq::<String>::empty(),
            },
        },
{
    match pnpm {
        Some(p) => p,
        None => match package {
            Some(p) => p,
            None => Vec::new(),
        },
    }
}

/// Whether the pattern leaves packages out: whether it starts with `!`.
pub fn is_negated(pattern: &str) -> (r: bool)
    ensures
        r == (pattern@.len() > 0 && pattern@[0] == '!'),
{
    let chars = chars_of(pattern);
    chars.len() > 0 && chars[0] == '!'
}

/// Where the package descriptions of the packages that `pattern` names are
/// looked for.
pub fn package_pattern(cwd: &str, pattern: &str) -> (out: String)
    ensures
        out@ == joined(joined(cwd@, pattern@), "package.json"@),
{
    join_path(join_path(cwd, pattern).as_str(), "package.json")
}

/// Whether a package description is passed over: whether `node_modules`
/// occurs in its path.
pub fn is_excluded(path: &str) -> (r: bool)
    ensures
        r == occurs_in("node_modules"@, path@),
{
    let text = chars_of(path);
    let modules = chars_of("node_modules");
    occurs(&modules, &text)
}

/// The source root of the package whose description is at `path`: the
/// directory of the description; relative to `cwd` where `cwd` is relative
/// and holds it.
pub open spec fn package_root(path: Seq<char>, cwd: Seq<char>) -> Option<Seq<char>> {
    match parent_of(path) {
        None => None,
        Some(dir) => if is_rooted(cwd) {
            Some(dir)
        } else {
            match stripped(dir, cwd) {
                Some(rest) => Some(rest),
                None => Some(dir),
            }
        },
    }
}

/// The project of the package named `name` whose description is at `path`.
/// A path without a directory gives none.
pub fn project_from_package(name: &str, path: &str, cwd: &str) -> (r: Option<Project>)
    ensures
        match r {
            Some(p) => package_root(path@, cwd@) == Some(p.source_root@) && p.name@ == name@ && p.ts_config is None
                && p.implicit_dependencies@.len() == 0 && p.targets@.len() == 0,
            None => package_root(path@, cwd@) is None,
        },
{
    let dir = match parent_dir(path) {
        None => {
            return None;
        },
        Some(d) => d,
    };
    let root = chars_of(cwd);
    let source_root = if root.len() > 0 && root[0] == '/' {
        dir
    } else {
        match strip_root(dir.as_str(), cwd) {
            Some(rest) => rest,
            None => dir,
        }
    };
    Some(
        Project {
            name: name.to_owned(),
            source_root,
            ts_config: None,
            implicit_dependencies: Vec::new(),
            targets: Vec::new(),
        },
    )
}

} // verus!
