//! Symbol-level change-impact analysis for monorepos.
//!
//! Given the projects of a workspace and the lines that a change set touched,
//! the library works out which projects the change can reach: through uses
//! inside a file, imports across files, re-export chains, dynamic imports and
//! declared implicit dependencies.
//!
//! The way through the modules: `syntax` parses a file into an arena of
//! nodes and a symbol table; `extract` reads its imports and exports from the
//! nodes; `resolver` finds the files that module specifiers stand for;
//! `semantic` holds the files of a workspace with the links between them and
//! answers questions about symbols and their uses; `graph` computes what a
//! key reaches in a finite graph; `propagation` and `dependencies` say how a
//! change spreads; `affected` and `report` give the affected projects and
//! the reasons; `laws` states what holds of every analysis.

pub mod affected;
pub mod causes;
pub mod dependencies;
pub mod error;
pub mod extract;
pub mod git;
pub mod graph;
pub mod laws;
pub mod order;
pub mod paths;
pub mod pattern;
pub mod profiler;
pub mod propagation;
pub mod render;
pub mod report;
pub mod resolver;
pub mod semantic;
pub mod seqs;
pub mod syntax;
pub mod text;
pub mod types;
pub mod utils;
pub mod workspace;

pub use error::DominoError;
pub use profiler::{ProfileStats, Profiler};
pub use text::{chars_of, str_eq, string_of};
pub use types::{
    AffectCause, AffectedProjectInfo, AffectedReport, AffectedResult, ChangedFile, Export, Import,
    Project, Reference, TrueAffectedConfig,
};
pub use utils::{get_package_name_by_path, is_source_file, line_to_offset, offset_to_line_col};
