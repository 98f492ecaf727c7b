//! The solution: the list of the generated projects.

use vstd::prelude::*;
use crate::visualstudio::filters::braced;
use crate::visualstudio::ProjDesc;

verus! {

/// The first lines of every solution.
pub open spec fn sln_header() -> Seq<char> {
    "Microsoft Visual Studio Solution File, Format Version 12.00\n# Visual Studio 14\n"@
}

/// The lines of one project: its name, where its project file is, and
/// its identity.
pub open spec fn sln_entry(project: ProjDesc) -> Seq<char> {
    "Project(\"{8BC9CEB8-8B4A-11D0-8D11-00A0C91BC942}\") = \""@ + project.name@ + "\", \""@
        + project.vcxproj_path@ + "\", \""@ + braced(project.uuid@) + "\"\nEndProject\n"@
}

/// The lines of the projects, in order.
pub open spec fn sln_entries(projects: Seq<ProjDesc>) -> Seq<char>
    decreases projects.len(),
{
    if projects.len() == 0 {
        Seq::empty()
    } else {
        sln_entries(projects.drop_last()) + sln_entry(projects.last())
    }
}

/// The text of a solution that lists `projects`.
pub open spec fn sln_text(projects: Seq<ProjDesc>) -> Seq<char> {
    sln_header() + sln_entries(projects)
}

/// A solution in the making.
#[derive(Debug, Clone, PartialEq, Eq)]
pub struct SlnFile {
    pub projects: Vec<ProjDesc>,
}

impl SlnFile {
    /// A solution without projects.
    pub fn new() -> (sln: SlnFile)
        ensures
            sln.projects@.len() == 0,
    {
        SlnFile { projects: Vec::new() }
    }

    /// Adds a project after those that the solution holds. Nothing is
    /// compared: a project added twice is listed twice.
    pub fn add_project(&mut self, project: ProjDesc)
        ensures
            final(self).projects@ == old(self).projects@.push(project),
    {
        self.projects.push(project);
    }

    /// The text of the solution: every project in the order in which it
    /// was added.
    pub fn generate(&self) -> (out: String)
        ensures
            out@ == sln_text(self.projects@),
    {
        let mut out =
            "Microsoft Visual Studio Solution File, Format Version 12.00\n# Visual Studio 14\n".to_owned();
        let mut i: usize = 0;
        assert(sln_entries(self.projects@.take(0)) =~= Seq::empty());
        assert(out@ =~= sln_header() + sln_entries(self.projects@.take(0)));
        while i < self.projects.len()
            invariant
                i <= self.projects@.len(),
                out@ == sln_header() + sln_entries(self.projects@.take(i as int)),
            decreases self.projects@.len() - i,
        {
            let ghost before = out@;
            let project = &self.projects[i];
            out.append("Project(\"{8BC9CEB8-8B4A-11D0-8D11-00A0C91BC942}\") = \"");
            out.append(project.name.as_str());
            out.append("\", \"");
            out.append(project.vcxproj_path.as_str());
            out.append("\", \"");
            out.push('{');
            out.append(project.uuid.as_str());
            out.push('}');
            out.append("\"\nEndProject\n");
            proof {
                assert(self.projects@.take(i + 1).drop_last() =~= self.projects@.take(i as int));
                assert(out@ =~= before + sln_entry(self.projects@[i as int]));
                assert(out@ =~= sln_header() + sln_entries(self.projects@.take(i + 1)));
            }
            i += 1;
        }
        assert(self.projects@.take(i as int) =~= self.projects@);
        out
    }
}

} // verus!
