//! Visual Studio project files, filters files and solutions.

pub mod filters;
pub mod projfiles;
pub mod resolver;

pub mod slnfile;
pub mod sxml;
pub mod vcxprojfile;

pub use self::projfiles::ProjFiles;
pub use self::slnfile::SlnFile;
pub use self::vcxprojfile::{VcxprojFile, VcxprojType};

use vstd::prelude::*;
use crate::files::{clone_push_path, is_within, joined};
use crate::project::{Project, ProjectClass};
use crate::text::{append_new, chars_of, copy_strings, lemma_united, texts, united};
use crate::visualstudio::filters::{all_files, generate_filters, is_filters_file, reports_stray};
use crate::visualstudio::projfiles::{is_compile_unit, is_header, members};
use crate::visualstudio::slnfile::{sln_entries, sln_text};
use crate::visualstudio::sxml::rendering;
use crate::visualstudio::vcxprojfile::{standard_configurations, ProjectConfiguration};
use crate::ClinkError;

verus! {

/// Whether `c` is a digit or one of the letters `a` to `f`.
pub open spec fn is_lower_hex(c: char) -> bool {
    ('0' <= c && c <= '9') || ('a' <= c && c <= 'f')
}

/// Whether `id` has the shape of an identity: 36 characters, hyphens after
/// the 8th, 12th, 16th and 20th digit, lower-case hexadecimal digits
/// elsewhere.
pub open spec fn is_identity(id: Seq<char>) -> bool {
    &&& id.len() == 36
    &&& forall|i: int|
        0 <= i < 36 ==> if i == 8 || i == 13 || i == 18 || i == 23 {
            #[trigger] id[i] == '-'
        } else {
            is_lower_hex(id[i])
        }
}

/// `uuid::Uuid::new_v4`, written out by `hyphenated`: a random identity, of
/// which only the shape is known.
#[verifier::external_body]
pub(crate) fn fresh_identity() -> (id: String)
    ensures
        is_identity(id@),
{
    uuid::Uuid::new_v4().hyphenated().to_string()
}

/// A generated project, as the projects that depend on it see it.
#[derive(Debug, Clone, PartialEq, Eq)]
pub struct ProjDesc {
    pub name: String,
    pub vcxproj_path: String,
    pub uuid: String,
    pub can_includes: Vec<String>,
}

impl ProjDesc {
    /// A copy of the descriptor.
    pub fn copy(&self) -> (out: ProjDesc)
        ensures
            out.name == self.name,
            out.vcxproj_path == self.vcxproj_path,
            out.uuid == self.uuid,
            out.can_includes@ == self.can_includes@,
    {
        ProjDesc {
            name: self.name.clone(),
            vcxproj_path: self.vcxproj_path.clone(),
            uuid: self.uuid.clone(),
            can_includes: copy_strings(&self.can_includes),
        }
    }
}

/// `raw` with every double quote written as `&quot;`.
pub open spec fn escaped(raw: Seq<char>) -> Seq<char>
    decreases raw.len(),
{
    if raw.len() == 0 {
        Seq::empty()
    } else {
        escaped(raw.drop_last()) + if raw.last() == '"' {
            "&quot;"@
        } else {
            seq![raw.last()]
        }
    }
}

/// Escapes the double quotes of a text.
pub fn escape(raw: String) -> (out: String)
    ensures
        out@ == escaped(raw@),
{
    let chars = chars_of(raw.as_str());
    let mut out = String::new();
    let mut i: usize = 0;
    assert(escaped(chars@.take(0)) =~= out@);
    while i < chars.len()
        invariant
            i <= chars@.len(),
            out@ == escaped(chars@.take(i as int)),
        decreases chars@.len() - i,
    {
        assert(chars@.take(i + 1).drop_last() =~= chars@.take(i as int));
        if chars[i] == '"' {
            out.append("&quot;");
        } else {
            let ghost before = out@;
            out.push(chars[i]);
            assert(out@ =~= before + seq![chars@[i as int]]);
        }
        i += 1;
    }
    assert(chars@.take(i as int) =~= chars@);
    out
}

/// Each relative path pushed onto `base`.
pub open spec fn each_joined(base: Seq<char>, relative: Seq<String>) -> Seq<Seq<char>> {
    Seq::new(relative.len(), |i: int| joined(base, relative[i]@))
}

/// Pushes each relative path onto `base`.
pub fn join_each(base: &str, relative: &Vec<String>) -> (out: Vec<String>)
    ensures
        texts(out@) == each_joined(base@, relative@),
{
    let mut out: Vec<String> = Vec::new();
    let mut i: usize = 0;
    while i < relative.len()
        invariant
            i <= relative@.len(),
            out@.len() == i,
            forall|k: int| 0 <= k < i ==> (#[trigger] out@[k])@ == joined(base@, relative@[k]@),
        decreases relative@.len() - i,
    {
        out.push(clone_push_path(base, relative[i].as_str()));
        i += 1;
    }
    assert(texts(out@) =~= each_joined(base@, relative@));
    out
}

/// Where the headers of a project at `target_path` may lie: its declared
/// roots, below the project. The caller keeps those that exist, resolved.
pub fn can_includes(project: &Project, target_path: &str) -> (paths: Vec<String>)
    ensures
        texts(paths@) == each_joined(target_path@, project.include_relative_paths@),
{
    join_each(target_path, &project.include_relative_paths)
}

/// Where the files of a project at `source_path` may lie: its declared
/// compile roots, then its declared header roots, below the project. The
/// caller walks those that exist.
pub fn can_file_paths(project: &Project, source_path: &str) -> (paths: Vec<String>)
    ensures
        texts(paths@) == each_joined(source_path@, project.compile_relative_paths@) + each_joined(
            source_path@,
            project.include_relative_paths@,
        ),
{
    let mut paths = join_each(source_path, &project.compile_relative_paths);
    let more = join_each(source_path, &project.include_relative_paths);
    append_strings(&mut paths, &more);
    paths
}

/// Appends copies of `more` to `list`.
pub fn append_strings(list: &mut Vec<String>, more: &Vec<String>)
    ensures
        texts(final(list)@) == texts(old(list)@) + texts(more@),
{
    let mut i: usize = 0;
    assert(texts(list@) =~= texts(old(list)@) + texts(more@.take(0)));
    while i < more.len()
        invariant
            i <= more@.len(),
            texts(list@) == texts(old(list)@) + texts(more@.take(i as int)),
        decreases more@.len() - i,
    {
        let ghost before = list@;
        list.push(more[i].clone());
        assert(texts(list@) =~= texts(before).push(more@[i as int]@));
        assert(texts(more@.take(i + 1)) =~= texts(more@.take(i as int)).push(more@[i as int]@));
        assert(texts(list@) =~= texts(old(list)@) + texts(more@.take(i + 1)));
        i += 1;
    }
    assert(more@.take(i as int) =~= more@);
}

/// Where a project looks for headers: in its own directories, then in
/// those that the projects it refers to export, each directory once, in
/// the order in which it is first met.
pub open spec fn include_dirs(includes: Seq<String>, references: Seq<ProjDesc>) -> Seq<Seq<char>>
    decreases references.len(),
{
    if references.len() == 0 {
        united(Seq::empty(), texts(includes))
    } else {
        united(
            include_dirs(includes, references.drop_last()),
            texts(references.last().can_includes@),
        )
    }
}

/// The header directories of a project hold no directory twice, and begin
/// with the project's own.
pub proof fn lemma_include_dirs(includes: Seq<String>, references: Seq<ProjDesc>)
    ensures
        include_dirs(includes, references).no_duplicates(),
        forall|i: int|
            0 <= i < includes.len() ==> include_dirs(includes, references).contains(
                #[trigger] includes[i]@,
            ),
        forall|k: int, i: int|
            0 <= k < references.len() && 0 <= i < references[k].can_includes@.len()
                ==> include_dirs(includes, references).contains(
                #[trigger] references[k].can_includes@[i]@,
            ),
    decreases references.len(),
{
    let all = include_dirs(includes, references);
    if references.len() == 0 {
        lemma_united(Seq::empty(), texts(includes));
        assert forall|i: int| 0 <= i < includes.len() implies all.contains(
            #[trigger] includes[i]@,
        ) by {
            assert(texts(includes)[i] == includes[i]@);
            assert(texts(includes).contains(includes[i]@));
        }
    } else {
        let rest = references.drop_last();
        let last = texts(references.last().can_includes@);
        lemma_include_dirs(includes, rest);
        lemma_united(include_dirs(includes, rest), last);
        assert forall|i: int| 0 <= i < includes.len() implies all.contains(
            #[trigger] includes[i]@,
        ) by {
            assert(include_dirs(includes, rest).contains(includes[i]@));
        }
        assert forall|k: int, i: int|
            0 <= k < references.len() && 0 <= i < references[k].can_includes@.len() implies all.contains(
            #[trigger] references[k].can_includes@[i]@,
        ) by {
            if k < rest.len() {
                assert(rest[k] == references[k]);
                assert(include_dirs(includes, rest).contains(rest[k].can_includes@[i]@));
            } else {
                assert(last[i] == references[k].can_includes@[i]@);
                assert(last.contains(references[k].can_includes@[i]@));
            }
        }
    }
}

/// The kind of project file that a project of this class gets, if any.
pub open spec fn file_type(class: ProjectClass) -> Option<VcxprojType> {
    match class {
        ProjectClass::Application => Some(VcxprojType::Application),
        ProjectClass::Library => Some(VcxprojType::StaticLibrary),
        ProjectClass::External => None,
    }
}

/// What is reported of a project that has no project file.
pub open spec fn external_message() -> Seq<char> {
    "Cannot generate vcxproj for external dependency"@
}

/// What became of one dependency of a project.
#[derive(Debug, Clone, PartialEq, Eq)]
pub enum Outcome {
    /// The dependency points at a description file and was never opened.
    External,
    /// The project behind it is of class external and was passed over.
    PassedOver,
    /// The project behind it was generated; this is its descriptor.
    Referred(ProjDesc),
}

/// Whether every dependency of `project` has its outcome: there is one
/// outcome for each, in order, and exactly the dependencies that point at a
/// description file are external. A dependency that points at a project
/// was passed over or has a descriptor.
pub open spec fn covers(project: Project, outcomes: Seq<Outcome>) -> bool {
    &&& outcomes.len() == project.dependencies@.len()
    &&& forall|i: int|
        0 <= i < outcomes.len() ==> ((#[trigger] outcomes[i]) is External
            <==> project.dependencies@[i].external())
}

/// The descriptors among the outcomes, in order.
pub open spec fn referred(outcomes: Seq<Outcome>) -> Seq<ProjDesc>
    decreases outcomes.len(),
{
    if outcomes.len() == 0 {
        Seq::empty()
    } else {
        match outcomes.last() {
            Outcome::Referred(desc) => referred(outcomes.drop_last()).push(desc),
            _ => referred(outcomes.drop_last()),
        }
    }
}

/// Whether two lists of descriptors say the same.
pub open spec fn same_descs(a: Seq<ProjDesc>, b: Seq<ProjDesc>) -> bool {
    &&& a.len() == b.len()
    &&& forall|k: int| 0 <= k < a.len() ==> same_desc(#[trigger] a[k], b[k])
}

/// What is reported where a dependency lacks its outcome.
pub open spec fn uncovered_message() -> Seq<char> {
    "A dependency has no descriptor"@
}

/// Whether every dependency of `project` has its outcome.
pub fn is_covered(project: &Project, outcomes: &Vec<Outcome>) -> (r: bool)
    ensures
        r == covers(*project, outcomes@),
{
    if outcomes.len() != project.dependencies.len() {
        return false;
    }
    let mut i: usize = 0;
    while i < outcomes.len()
        invariant
            i <= outcomes@.len(),
            outcomes@.len() == project.dependencies@.len(),
            forall|k: int|
                0 <= k < i ==> ((#[trigger] outcomes@[k]) is External
                    <==> project.dependencies@[k].external()),
        decreases outcomes@.len() - i,
    {
        let external = match &outcomes[i] {
            Outcome::External => true,
            _ => false,
        };
        if external != project.dependencies[i].is_external() {
            return false;
        }
        i += 1;
    }
    true
}

/// Copies of the descriptors among the outcomes, in order.
pub fn references_of(outcomes: &Vec<Outcome>) -> (references: Vec<ProjDesc>)
    ensures
        same_descs(references@, referred(outcomes@)),
{
    let mut references: Vec<ProjDesc> = Vec::new();
    let mut i: usize = 0;
    assert(outcomes@.take(0).len() == 0);
    while i < outcomes.len()
        invariant
            i <= outcomes@.len(),
            same_descs(references@, referred(outcomes@.take(i as int))),
        decreases outcomes@.len() - i,
    {
        assert(outcomes@.take(i + 1).drop_last() =~= outcomes@.take(i as int));
        match &outcomes[i] {
            Outcome::Referred(desc) => {
                references.push(desc.copy());
            },
            _ => {},
        }
        i += 1;
    }
    assert(outcomes@.take(i as int) =~= outcomes@);
    references
}

/// Whether `file` is the project file of `project`: it looks for headers
/// in the project's own directories and then in those that the referenced
/// projects export, lists the classified files, and refers to the given
/// projects.
pub open spec fn is_project_file(
    file: VcxprojFile,
    project: Project,
    includes: Seq<String>,
    files: ProjFiles,
    references: Seq<ProjDesc>,
) -> bool {
    &&& file.name@ == project.name@
    &&& Some(file.class) == file_type(project.class)
    &&& texts(file.include_path@) == include_dirs(includes, file.references@)
    &&& texts(file.compile_files@) == texts(files.compile@)
    &&& texts(file.include_files@) == texts(files.headers@)
    &&& same_descs(file.references@, references)
}

/// Puts together the project file of `project` under the identity `uuid`.
/// A project of class external has none.
pub fn assemble_vcxproj(
    project: &Project,
    includes: &Vec<String>,
    files: &ProjFiles,
    references: Vec<ProjDesc>,
    uuid: String,
) -> (r: Result<VcxprojFile, ClinkError>)
    ensures
        match r {
            Ok(file) => file.uuid == uuid && is_project_file(
                file,
                *project,
                includes@,
                *files,
                references@,
            ),
            Err(e) => {
                &&& project.class == ProjectClass::External
                &&& e matches ClinkError::InternalConsistency(text)
                &&& text@ == external_message()
            },
        },
{
    let class = match project.class {
        ProjectClass::Application => VcxprojType::Application,
        ProjectClass::Library => VcxprojType::StaticLibrary,
        ProjectClass::External => {
            return Err(
                ClinkError::InternalConsistency(
                    "Cannot generate vcxproj for external dependency".to_owned(),
                ),
            );
        },
    };
    let mut include_path: Vec<String> = Vec::new();
    assert(texts(include_path@) =~= Seq::empty());
    append_new(&mut include_path, includes);
    let mut i: usize = 0;
    assert(references@.take(0).len() == 0);
    while i < references.len()
        invariant
            i <= references@.len(),
            texts(include_path@) == include_dirs(includes@, references@.take(i as int)),
        decreases references@.len() - i,
    {
        append_new(&mut include_path, &references[i].can_includes);
        proof {
            assert(references@.take(i + 1).drop_last() =~= references@.take(i as int));
        }
        i += 1;
    }
    assert(references@.take(i as int) =~= references@);
    Ok(
        VcxprojFile {
            name: project.name.clone(),
            class,
            uuid,
            include_path,
            include_files: copy_strings(&files.headers),
            compile_files: copy_strings(&files.compile),
            references,
        },
    )
}

/// The two files of a generated project and its descriptor.
#[derive(Debug, Clone, PartialEq, Eq)]
pub struct Generated {
    pub desc: ProjDesc,
    pub vcxproj: Vec<u8>,
    pub filters_path: String,
    pub filters: Vec<u8>,
}

/// Whether some file among `found` is a compile unit or a header and lies
/// outside `root`.
pub open spec fn strays(found: Seq<String>, root: Seq<char>) -> bool {
    exists|j: int|
        0 <= j < found.len() && (is_compile_unit(#[trigger] found[j]@) || is_header(found[j]@))
            && !is_within(found[j]@, root)
}

/// Whether `g` is what generating `project` at `target` gives: the
/// project file under some fresh identity, which refers to the
/// descriptors among the outcomes; the filters file; and a descriptor that
/// names the project file and exports the project's own header
/// directories, as they were given.
pub open spec fn is_generated(
    g: Generated,
    project: Project,
    target: Seq<char>,
    includes: Seq<String>,
    found: Seq<String>,
    outcomes: Seq<Outcome>,
) -> bool {
    &&& g.desc.name@ == project.name@
    &&& g.desc.vcxproj_path@ == joined(target, project.name@ + ".vcxproj"@)
    &&& g.desc.can_includes@ == includes
    &&& g.filters_path@ == joined(target, project.name@ + ".vcxproj.filters"@)
    &&& exists|files: ProjFiles, file: VcxprojFile, configs: Seq<ProjectConfiguration>|
        #![auto]
        {
            &&& files.classifies(found)
            &&& is_project_file(file, project, includes, files, referred(outcomes))
            &&& is_identity(file.uuid@)
            &&& standard_configurations(configs)
            &&& g.vcxproj@ == rendering(file.markup(configs))
            &&& g.desc.uuid == file.uuid
            &&& is_filters_file(g.filters@, target, files)
        }
}

/// A classified file is one of the files found, and the other way round.
pub proof fn lemma_classified_are_found(files: ProjFiles, found: Seq<String>, root: Seq<char>)
    requires
        files.classifies(found),
    ensures
        strays(found, root) <==> exists|i: int|
            0 <= i < all_files(files).len() && !is_within(#[trigger] all_files(files)[i], root),
{
    let all = all_files(files);
    let n = files.compile@.len() as int;
    if strays(found, root) {
        let j = choose|j: int|
            0 <= j < found.len() && (is_compile_unit(#[trigger] found[j]@) || is_header(found[j]@))
                && !is_within(found[j]@, root);
        let s = found[j]@;
        assert(members(found).contains(s));
        if is_compile_unit(s) {
            assert(members(found).filter(|s: Seq<char>| is_compile_unit(s)).contains(s));
            assert(members(files.compile@).contains(s));
            let i = choose|i: int| 0 <= i < files.compile@.len() && #[trigger] files.compile@[i]@ == s;
            assert(all[i] == s);
        } else {
            assert(members(found).filter(|s: Seq<char>| is_header(s)).contains(s));
            assert(members(files.headers@).contains(s));
            let i = choose|i: int| 0 <= i < files.headers@.len() && #[trigger] files.headers@[i]@ == s;
            assert(all[n + i] == s);
        }
    }
    if exists|i: int| 0 <= i < all.len() && !is_within(#[trigger] all[i], root) {
        let i = choose|i: int| 0 <= i < all.len() && !is_within(#[trigger] all[i], root);
        let s = all[i];
        if i < n {
            assert(files.compile@[i]@ == s);
            assert(members(files.compile@).contains(s));
            assert(members(found).filter(|s: Seq<char>| is_compile_unit(s)).contains(s));
        } else {
            assert(files.headers@[i - n]@ == s);
            assert(members(files.headers@).contains(s));
            assert(members(found).filter(|s: Seq<char>| is_header(s)).contains(s));
        }
        assert(members(found).contains(s));
        let j = choose|j: int| 0 <= j < found.len() && #[trigger] found[j]@ == s;
        assert(is_compile_unit(found[j]@) || is_header(found[j]@));
    }
}

/// Whether `e` says why `project` cannot be generated: it is of class
/// external; or else a dependency lacks its outcome; or else the first of
/// its files, in the order of listing, that lies outside `root` is
/// reported.
pub open spec fn fails_to_generate(
    e: ClinkError,
    project: Project,
    root: Seq<char>,
    found: Seq<String>,
    outcomes: Seq<Outcome>,
) -> bool {
    if project.class == ProjectClass::External {
        e matches ClinkError::InternalConsistency(text) && text@ == external_message()
    } else if !covers(project, outcomes) {
        e matches ClinkError::InternalConsistency(text) && text@ == uncovered_message()
    } else {
        strays(found, root) && exists|files: ProjFiles|
            #![auto]
            files.classifies(found) && reports_stray(e, files, root)
    }
}

/// Generates the project file and the filters file of `project`, which
/// lies at `target_path`. `includes` are its header directories that exist,
/// `found` the files that a walk of its source roots met, `outcomes` what
/// became of each of its dependencies. A project of class external cannot
/// be generated, nor one with a dependency that lacks its outcome, nor one
/// with a source file outside `target_path`.
pub fn generate_vcxproj(
    project: &Project,
    target_path: &str,
    includes: &Vec<String>,
    found: &Vec<String>,
    outcomes: &Vec<Outcome>,
) -> (r: Result<Generated, ClinkError>)
    ensures
        match r {
            Ok(g) => {
                &&& project.class != ProjectClass::External
                &&& covers(*project, outcomes@)
                &&& !strays(found@, target_path@)
                &&& is_generated(g, *project, target_path@, includes@, found@, outcomes@)
            },
            Err(e) => fails_to_generate(e, *project, target_path@, found@, outcomes@),
        },
{
    match project.class {
        ProjectClass::External => {
            return Err(
                ClinkError::InternalConsistency(
                    "Cannot generate vcxproj for external dependency".to_owned(),
                ),
            );
        },
        _ => {},
    }
    if !is_covered(project, outcomes) {
        return Err(ClinkError::InternalConsistency("A dependency has no descriptor".to_owned()));
    }
    let files = ProjFiles::scan(found);
    proof {
        lemma_classified_are_found(files, found@, target_path@);
    }
    let references = references_of(outcomes);
    let ghost copies = references@;
    let file = match assemble_vcxproj(project, includes, &files, references, fresh_identity()) {
        Ok(file) => file,
        Err(e) => {
            return Err(e);
        },
    };
    proof {
        assert forall|k: int| 0 <= k < file.references@.len() implies same_desc(
            #[trigger] file.references@[k],
            referred(outcomes@)[k],
        ) by {
            assert(same_desc(file.references@[k], copies[k]));
            assert(same_desc(copies[k], referred(outcomes@)[k]));
        }
        assert(is_project_file(file, *project, includes@, files, referred(outcomes@)));
    }
    let filters = match generate_filters(target_path, &files) {
        Ok(bytes) => bytes,
        Err(e) => {
            return Err(e);
        },
    };
    let mut file_name = project.name.clone();
    file_name.append(".vcxproj");
    let (desc, vcxproj) = file.write_to(
        clone_push_path(target_path, file_name.as_str()),
        copy_strings(includes),
    );
    let mut filters_name = project.name.clone();
    filters_name.append(".vcxproj.filters");
    let filters_path = clone_push_path(target_path, filters_name.as_str());
    Ok(Generated { desc, vcxproj, filters_path, filters })
}

/// The filters file of `project` alone, and where it belongs: nothing else
/// of the project is generated, and nothing of its dependencies.
pub fn generate_vcxproj_filters(project: &Project, target_path: &str, found: &Vec<String>) -> (r:
    Result<(String, Vec<u8>), ClinkError>)
    ensures
        match r {
            Ok(pair) => {
                &&& !strays(found@, target_path@)
                &&& pair.0@ == joined(target_path@, project.name@ + ".vcxproj.filters"@)
                &&& exists|files: ProjFiles|
                    #![auto]
                    files.classifies(found@) && is_filters_file(pair.1@, target_path@, files)
            },
            Err(e) => strays(found@, target_path@) && exists|files: ProjFiles|
                #![auto]
                files.classifies(found@) && reports_stray(e, files, target_path@),
        },
{
    let files = ProjFiles::scan(found);
    proof {
        lemma_classified_are_found(files, found@, target_path@);
    }
    match generate_filters(target_path, &files) {
        Ok(bytes) => {
            let mut filters_name = project.name.clone();
            filters_name.append(".vcxproj.filters");
            Ok((clone_push_path(target_path, filters_name.as_str()), bytes))
        },
        Err(e) => Err(e),
    }
}

/// The solution of `project`, and where it belongs: it lists `projects`
/// in the order given.
pub fn generate_sln(project: &Project, target_path: &str, projects: &Vec<ProjDesc>) -> (r: (
    String,
    String,
))
    ensures
        r.0@ == joined(target_path@, project.name@ + ".sln"@),
        r.1@ == sln_text(projects@),
{
    let mut sln = SlnFile::new();
    let mut i: usize = 0;
    while i < projects.len()
        invariant
            i <= projects@.len(),
            sln.projects@.len() == i,
            forall|k: int| 0 <= k < i ==> same_desc(#[trigger] sln.projects@[k], projects@[k]),
        decreases projects@.len() - i,
    {
        sln.add_project(projects[i].copy());
        i += 1;
    }
    proof {
        lemma_sln_text_same(sln.projects@, projects@);
    }
    let mut name = project.name.clone();
    name.append(".sln");
    (clone_push_path(target_path, name.as_str()), sln.generate())
}

/// Whether two descriptors say the same.
pub open spec fn same_desc(a: ProjDesc, b: ProjDesc) -> bool {
    &&& a.name@ == b.name@
    &&& a.vcxproj_path@ == b.vcxproj_path@
    &&& a.uuid@ == b.uuid@
    &&& texts(a.can_includes@) == texts(b.can_includes@)
}

/// Descriptors that say the same give the same solution.
pub proof fn lemma_sln_text_same(a: Seq<ProjDesc>, b: Seq<ProjDesc>)
    requires
        a.len() == b.len(),
        forall|k: int| 0 <= k < a.len() ==> same_desc(#[trigger] a[k], b[k]),
    ensures
        sln_entries(a) == sln_entries(b),
        sln_text(a) == sln_text(b),
    decreases a.len(),
{
    if a.len() > 0 {
        assert forall|k: int| 0 <= k < a.len() - 1 implies same_desc(
            #[trigger] a.drop_last()[k],
            b.drop_last()[k],
        ) by {
            assert(same_desc(a[k], b[k]));
        }
        lemma_sln_text_same(a.drop_last(), b.drop_last());
        assert(same_desc(a[a.len() - 1], b[a.len() - 1]));
    }
}

} // verus!
