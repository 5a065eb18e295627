//! The data that goes into an analysis and comes out of it.

use vstd::prelude::*;

verus! {

/// An independently buildable unit of the workspace.
#[derive(Debug, Clone)]
pub struct Project {
    /// Name, unique in the workspace.
    pub name: String,
    /// Source root, relative to the workspace root, with `/` between components.
    pub source_root: String,
    /// Type-check configuration of the project, if it has one.
    pub ts_config: Option<String>,
    /// Names of the projects that this one depends on by declaration: when one
    /// of them is affected, so is this project.
    pub implicit_dependencies: Vec<String>,
    /// Names of the build targets.
    pub targets: Vec<String>,
}

/// A file of the change set with the lines that changed in it.
#[derive(Debug, Clone)]
pub struct ChangedFile {
    /// Path relative to the workspace root.
    pub file_path: String,
    /// Changed lines, counted from 1.
    pub changed_lines: Vec<usize>,
}

/// A place where a symbol is used.
#[derive(Debug, Clone)]
pub struct Reference {
    /// Path of the file, relative to the workspace root.
    pub file_path: String,
    /// Line, counted from 1; 0 together with column 0 stands for the whole file.
    pub line: usize,
    /// Column, counted from 1.
    pub column: usize,
}

/// One binding that a file imports.
#[derive(Debug, Clone)]
pub struct Import {
    /// Name in the module it comes from: `default` for a default import, `*`
    /// for a namespace or dynamic import.
    pub imported_name: String,
    /// Name in the importing file.
    pub local_name: String,
    /// Module specifier as written.
    pub from_module: String,
    /// The file the specifier resolves to, once it is known.
    pub resolved_file: Option<String>,
    /// Whether only types are imported.
    pub is_type_only: bool,
    /// Whether this is an `import()` expression.
    pub is_dynamic: bool,
}

/// One name that a file exports.
#[derive(Debug, Clone)]
pub struct Export {
    /// Name seen by importers: `default` for the default export, `*` for a
    /// wildcard re-export.
    pub exported_name: String,
    /// Name inside the file, where the export gives one.
    pub local_name: Option<String>,
    /// Module specifier, when the name is re-exported from another module.
    pub re_export_from: Option<String>,
}

/// What an analysis is run on.
#[derive(Debug, Clone)]
pub struct TrueAffectedConfig {
    /// Workspace root.
    pub cwd: String,
    /// Revision that the change set is taken against.
    pub base: String,
    /// Root type-check configuration, if any.
    pub root_ts_config: Option<String>,
    /// Projects of the workspace.
    pub projects: Vec<Project>,
    /// Further file patterns to take in.
    pub included: Vec<String>,
    /// Paths to leave out.
    pub ignored_paths: Vec<String>,
}

/// Why a project is affected.
#[derive(Debug, Clone)]
pub enum AffectCause {
    /// A line of one of its files changed.
    DirectChange { file: String, symbol: Option<String>, line: usize },
    /// One of its files uses a symbol that is affected.
    ImportedSymbol { source_project: String, symbol: String, via_file: String, source_file: String },
    /// An affected symbol reaches it through a re-exporting file.
    ReExported { through_file: String, symbol: String, source_file: String },
    /// It declares a dependency on an affected project.
    ImplicitDependency { depends_on: String },
}

/// An affected project with the reasons for it.
#[derive(Debug, Clone)]
pub struct AffectedProjectInfo {
    pub name: String,
    pub causes: Vec<AffectCause>,
}

/// The reasons for every affected project.
#[derive(Debug, Clone)]
pub struct AffectedReport {
    pub projects: Vec<AffectedProjectInfo>,
}

/// The outcome of an analysis.
#[derive(Debug, Clone)]
pub struct AffectedResult {
    /// Names of the affected projects, in ascending order, each once.
    pub affected_projects: Vec<String>,
    /// The reasons, when they were asked for.
    pub report: Option<AffectedReport>,
}

/// An import, as plain text.
pub ghost struct ImportView {
    pub imported_name: Seq<char>,
    pub local_name: Seq<char>,
    pub from_module: Seq<char>,
    pub resolved_file: Option<Seq<char>>,
    pub is_type_only: bool,
    pub is_dynamic: bool,
}

impl View for Import {
    type V = ImportView;

    open spec fn view(&self) -> ImportView {
        ImportView {
            imported_name: self.imported_name@,
            local_name: self.local_name@,
            from_module: self.from_module@,
            resolved_file: opt_text(self.resolved_file),
            is_type_only: self.is_type_only,
            is_dynamic: self.is_dynamic,
        }
    }
}

/// An export, as plain text.
pub ghost struct ExportView {
    pub exported_name: Seq<char>,
    pub local_name: Option<Seq<char>>,
    pub re_export_from: Option<Seq<char>>,
}

impl View for Export {
    type V = ExportView;

    open spec fn view(&self) -> ExportView {
        ExportView {
            exported_name: self.exported_name@,
            local_name: opt_text(self.local_name),
            re_export_from: opt_text(self.re_export_from),
        }
    }
}

impl ExportView {
    /// The name that the export has inside its file: the local name where
    /// there is one, else the exported name.
    pub open spec fn inner_name(&self) -> Seq<char> {
        match self.local_name {
            Some(n) => n,
            None => self.exported_name,
        }
    }
}

/// A use site, as plain text and numbers.
pub ghost struct ReferenceView {
    pub file_path: Seq<char>,
    pub line: nat,
    pub column: nat,
}

impl View for Reference {
    type V = ReferenceView;

    open spec fn view(&self) -> ReferenceView {
        ReferenceView { file_path: self.file_path@, line: self.line as nat, column: self.column as nat }
    }
}

/// The text of an optional string.
pub open spec fn opt_text(s: Option<String>) -> Option<Seq<char>> {
    match s {
        Some(t) => Some(t@),
        None => None,
    }
}

/// The texts of a list of strings.
pub open spec fn texts(names: Seq<String>) -> Seq<Seq<char>> {
    names.map_values(|s: String| s@)
}

} // verus!
