//! What can go wrong.

use vstd::prelude::*;

verus! {

/// An error of the library, with the text that describes its object.
#[derive(Debug, Clone)]
pub enum DominoError {
    Io(String),
    Regex(String),
    Parse(String),
    ModuleResolution(String),
    ProjectNotFound(String),
    FileNotFound(String),
    InvalidConfig(String),
    Semantic(String),
    Other(String),
}

impl DominoError {
    /// The error in words: what kind it is, then its text.
    pub fn message(&self) -> (out: String)
        ensures
            out@ == self.label() + self.detail(),
    {
        let (label, detail) = match self {
            DominoError::Io(d) => ("IO error: ", d),
            DominoError::Regex(d) => ("Regex error: ", d),
            DominoError::Parse(d) => ("Parse error: ", d),
            DominoError::ModuleResolution(d) => ("Module resolution error: ", d),
            DominoError::ProjectNotFound(d) => ("Project not found: ", d),
            DominoError::FileNotFound(d) => ("File not found: ", d),
            DominoError::InvalidConfig(d) => ("Invalid configuration: ", d),
            DominoError::Semantic(d) => ("Semantic analysis error: ", d),
            DominoError::Other(d) => ("", d),
        };
        let mut out = String::from_str(label);
        out.append(detail.as_str());
        out
    }

    /// The words that name the kind of the error.
    pub open spec fn label(&self) -> Seq<char> {
        match self {
            DominoError::Io(_) => "IO error: "@,
            DominoError::Regex(_) => "Regex error: "@,
            DominoError::Parse(_) => "Parse error: "@,
            DominoError::ModuleResolution(_) => "Module resolution error: "@,
            DominoError::ProjectNotFound(_) => "Project not found: "@,
            DominoError::FileNotFound(_) => "File not found: "@,
            DominoError::InvalidConfig(_) => "Invalid configuration: "@,
            DominoError::Semantic(_) => "Semantic analysis error: "@,
            DominoError::Other(_) => ""@,
        }
    }

    /// The error says that no file has the path `path`.
    pub open spec fn is_missing_file(&self, path: Seq<char>) -> bool {
        match self {
            DominoError::FileNotFound(d) => d@ == path,
            _ => false,
        }
    }

    /// The text that the error carries.
    pub open spec fn detail(&self) -> Seq<char> {
        match self {
            DominoError::Io(d) => d@,
            DominoError::Regex(d) => d@,
            DominoError::Parse(d) => d@,
            DominoError::ModuleResolution(d) => d@,
            DominoError::ProjectNotFound(d) => d@,
            DominoError::FileNotFound(d) => d@,
            DominoError::InvalidConfig(d) => d@,
            DominoError::Semantic(d) => d@,
            DominoError::Other(d) => d@,
        }
    }
}

} // verus!
