//! Resolves a native-code project and its dependencies into Visual Studio
//! build files: one project file and one filters file per project, and one
//! solution that lists them dependency-first.

use vstd::prelude::*;

pub mod text;
pub mod files;
pub mod wincanonicalize;
pub mod project;
pub mod dependency;
pub mod tomlvalue;
pub mod visualstudio;

pub use project::Project;

verus! {

/// Why a run stopped.
#[derive(Debug, Clone, PartialEq, Eq)]
pub enum ClinkError {
    /// No project description was found at this location.
    ConfigNotFound(String),
    /// A required field is absent or of the wrong type; the text says which.
    ConfigMalformed(String),
    /// The project type is none of the known ones; holds the value found.
    UnknownProjectKind(String),
    /// One project name leads to two places: the name, the place recorded
    /// first and the place met now.
    NameConflict(String, String, String),
    /// A dependency leads back to a project that is still being resolved.
    CyclicDependency(String),
    /// The resolver was used out of step; the text says how.
    InternalConsistency(String),
}

impl ClinkError {
    /// The text that `message` gives for an error.
    pub open spec fn message_of(self) -> Seq<char> {
        match self {
            ClinkError::ConfigNotFound(location) => "Invalid project structure\n Location: "@
                + location@ + "\n Error: Could not find Clink.toml"@,
            ClinkError::ConfigMalformed(text) => "Invalid project file\n Error: "@ + text@,
            ClinkError::UnknownProjectKind(value) => "Invalid project file\n Error: \""@ + value@
                + "\" is not a valid project type"@,
            ClinkError::NameConflict(name, previous, current) =>
                "Multiple dependencies with same name and different path\n Name: "@ + name@
                    + "\n Previous at: "@ + previous@ + "\n Current at: "@ + current@,
            ClinkError::CyclicDependency(name) => "Cyclic dependency\n Project: "@ + name@,
            ClinkError::InternalConsistency(text) => "Internal error: "@ + text@,
        }
    }

    /// What to tell the user.
    pub fn message(&self) -> (out: String)
        ensures
            out@ == self.message_of(),
    {
        match self {
            ClinkError::ConfigNotFound(location) => {
                let mut out = "Invalid project structure\n Location: ".to_owned();
                out.append(location.as_str());
                out.append("\n Error: Could not find Clink.toml");
                out
            },
            ClinkError::ConfigMalformed(text) => {
                let mut out = "Invalid project file\n Error: ".to_owned();
                out.append(text.as_str());
                out
            },
            ClinkError::UnknownProjectKind(value) => {
                let mut out = "Invalid project file\n Error: \"".to_owned();
                out.append(value.as_str());
                out.append("\" is not a valid project type");
                out
            },
            ClinkError::NameConflict(name, previous, current) => {
                let mut out =
                    "Multiple dependencies with same name and different path\n Name: ".to_owned();
                out.append(name.as_str());
                out.append("\n Previous at: ");
                out.append(previous.as_str());
                out.append("\n Current at: ");
                out.append(current.as_str());
                out
            },
            ClinkError::CyclicDependency(name) => {
                let mut out = "Cyclic dependency\n Project: ".to_owned();
                out.append(name.as_str());
                out
            },
            ClinkError::InternalConsistency(text) => {
                let mut out = "Internal error: ".to_owned();
                out.append(text.as_str());
                out
            },
        }
    }
}

} // verus!
