//! One edge of the dependency graph.

use vstd::prelude::*;
use crate::files::{clone_push_path, extension, extension_of, joined};
use crate::project::{opens_as, Project};
use crate::text::same_text;
use crate::ClinkError;
use crate::wincanonicalize::{wincanonicalize, without_verbatim};

verus! {

/// A dependency as the referencing project names it: an alias of its own
/// choosing and the place it points to.
#[derive(Debug, Clone, PartialEq, Eq)]
pub struct Dependency {
    pub name: String,
    pub path: String,
}

impl Dependency {
    /// The dependency that a project at `proj_path` declares under `name`
    /// with the path expression `depstring`.
    pub fn at(proj_path: &str, name: String, depstring: &str) -> (dep: Dependency)
        ensures
            dep.name == name,
            dep.path@ == without_verbatim(joined(proj_path@, depstring@)),
    {
        let path = clone_push_path(proj_path, depstring);
        Dependency { name, path: wincanonicalize(path.as_str()) }
    }

    /// Opens the project that the dependency points at from the text of
    /// its description, if there is one.
    pub fn open(&self, text: Option<&str>) -> (r: Result<Project, ClinkError>)
        ensures
            opens_as(r, self.path@, text),
    {
        Project::open(self.path.as_str(), text)
    }

    /// Whether the edge points at a description file rather than at a
    /// project directory. Such an edge is never opened.
    pub open spec fn external(self) -> bool {
        extension_of(self.path@) == "toml"@
    }

    /// Whether the edge is external.
    pub fn is_external(&self) -> (r: bool)
        ensures
            r == self.external(),
    {
        let ext = extension(self.path.as_str());
        same_text(ext.as_str(), "toml")
    }
}

} // verus!
