//! What is known of the files of a workspace, and what follows from it.

pub mod analyzer;
pub mod assets;
pub mod reference_finder;
pub mod symbols;

pub use analyzer::{FileSemanticData, WorkspaceAnalyzer};
pub use assets::AssetReferenceFinder;
pub use reference_finder::ReferenceFinder;
