//! The filters file of a project: the folders under which Visual Studio
//! shows its files, one for each directory between the project root and a
//! file.

use vstd::prelude::*;
use crate::ClinkError;
use crate::files::{is_within, lemma_last_index_of, parent, parent_of, relative_to, strip_root};
use crate::text::{contains_text, texts};
use crate::visualstudio::fresh_identity;
use crate::visualstudio::is_identity;
use crate::visualstudio::projfiles::ProjFiles;
use crate::visualstudio::sxml::{close_element, element, indenting_writer, into_bytes, open_depth, open_plain, open_with, open_with2, rendering, simple_element, write_simple, written, Markup};
use xml::writer::EventWriter;

verus! {

/// `filters` with `filter` and each directory above it added, a parent
/// before its child, none of them twice. The empty filter stands for the
/// project root and adds nothing.
pub open spec fn with_filter(filters: Seq<Seq<char>>, filter: Seq<char>) -> Seq<Seq<char>>
    decreases filter.len(),
{
    if filter.len() == 0 {
        filters
    } else {
        proof {
            lemma_last_index_of(filter, '/');
        }
        let above = with_filter(filters, parent_of(filter));
        if above.contains(filter) {
            above
        } else {
            above.push(filter)
        }
    }
}

/// Whether `group` is `filter` or a directory above it, the root left out.
pub open spec fn reaches(filter: Seq<char>, group: Seq<char>) -> bool
    decreases filter.len(),
{
    if filter.len() == 0 {
        false
    } else {
        proof {
            lemma_last_index_of(filter, '/');
        }
        group == filter || reaches(parent_of(filter), group)
    }
}

/// The filter of a file below `root`: its directory, relative to `root`.
pub open spec fn filter_of(file: Seq<char>, root: Seq<char>) -> Seq<char> {
    parent_of(relative_to(file, root))
}

/// The filters that the given files need, in the order in which the files
/// ask for them.
pub open spec fn filters_for(files: Seq<Seq<char>>, root: Seq<char>) -> Seq<Seq<char>>
    decreases files.len(),
{
    if files.len() == 0 {
        Seq::empty()
    } else {
        with_filter(filters_for(files.drop_last(), root), filter_of(files.last(), root))
    }
}

/// Adding a filter keeps a list free of repetition, keeps what it held, and
/// adds exactly the filter and the directories above it.
pub proof fn lemma_with_filter(filters: Seq<Seq<char>>, filter: Seq<char>)
    requires
        filters.no_duplicates(),
    ensures
        with_filter(filters, filter).no_duplicates(),
        forall|g: Seq<char>|
            with_filter(filters, filter).contains(g) <==> (filters.contains(g) || reaches(
                filter,
                g,
            )),
        filters.len() <= with_filter(filters, filter).len(),
        with_filter(filters, filter).take(filters.len() as int) == filters,
    decreases filter.len(),
{
    if filter.len() == 0 {
        assert(filters.take(filters.len() as int) =~= filters);
    } else {
        lemma_last_index_of(filter, '/');
        lemma_with_filter(filters, parent_of(filter));
        let above = with_filter(filters, parent_of(filter));
        let all = with_filter(filters, filter);
        if above.contains(filter) {
            assert forall|g: Seq<char>| all.contains(g) <==> (filters.contains(g) || reaches(
                filter,
                g,
            )) by {
                assert(above.contains(g) <==> (filters.contains(g) || reaches(
                    parent_of(filter),
                    g,
                )));
            }
        } else {
            assert(all =~= above.push(filter));
            assert forall|g: Seq<char>| all.contains(g) <==> (filters.contains(g) || reaches(
                filter,
                g,
            )) by {
                if all.contains(g) {
                    let k = choose|k: int| 0 <= k < all.len() && all[k] == g;
                    if k < above.len() {
                        assert(above[k] == g);
                        assert(above.contains(g));
                    }
                }
                if above.contains(g) {
                    let k = choose|k: int| 0 <= k < above.len() && above[k] == g;
                    assert(all[k] == g);
                }
                if g == filter {
                    assert(all[above.len() as int] == g);
                }
                assert(above.contains(g) <==> (filters.contains(g) || reaches(
                    parent_of(filter),
                    g,
                )));
            }
            assert(all.take(filters.len() as int) =~= above.take(filters.len() as int));
        }
    }
}

/// The filters of a project hold no filter twice, and hold exactly the
/// directories that lie between the root and some file.
pub proof fn lemma_filters_for(files: Seq<Seq<char>>, root: Seq<char>)
    ensures
        filters_for(files, root).no_duplicates(),
        forall|g: Seq<char>|
            filters_for(files, root).contains(g) <==> exists|i: int|
                0 <= i < files.len() && reaches(filter_of(#[trigger] files[i], root), g),
    decreases files.len(),
{
    if files.len() > 0 {
        let rest = files.drop_last();
        lemma_filters_for(rest, root);
        lemma_with_filter(filters_for(rest, root), filter_of(files.last(), root));
        assert forall|g: Seq<char>|
            filters_for(files, root).contains(g) <==> exists|i: int|
                0 <= i < files.len() && reaches(filter_of(#[trigger] files[i], root), g) by {
            if filters_for(rest, root).contains(g) {
                let i = choose|i: int|
                    0 <= i < rest.len() && reaches(filter_of(#[trigger] rest[i], root), g);
                assert(files[i] == rest[i]);
            }
            if exists|i: int|
                0 <= i < files.len() && reaches(filter_of(#[trigger] files[i], root), g) {
                let i = choose|i: int|
                    0 <= i < files.len() && reaches(filter_of(#[trigger] files[i], root), g);
                if i < rest.len() {
                    assert(files[i] == rest[i]);
                }
            }
        }
    }
}

/// Whether a list of filters holds this one.
pub fn has_filter(filters: &Vec<String>, filter: &str) -> (r: bool)
    ensures
        r == texts(filters@).contains(filter@),
{
    contains_text(filters, filter)
}

/// Makes sure that `filters` holds `filter` and every directory above it.
pub fn add_filter_recursive(filters: &mut Vec<String>, filter: &str)
    ensures
        texts(final(filters)@) == with_filter(texts(old(filters)@), filter@),
    decreases filter@.len(),
{
    if filter.unicode_len() == 0 {
        return ;
    }
    let above = parent(filter);
    proof {
        lemma_last_index_of(filter@, '/');
    }
    add_filter_recursive(filters, above.as_str());
    if !has_filter(filters, filter) {
        let ghost before = filters@;
        filters.push(filter.to_owned());
        assert(texts(filters@) =~= texts(before).push(filter@));
    }
}

/// The kind of a file in a project.
#[derive(Debug, Clone, Copy, PartialEq, Eq, Structural)]
pub enum FileClass {
    Compile,
    Header,
}

impl FileClass {
    /// The element that lists a file of this kind.
    pub open spec fn tag(self) -> Seq<char> {
        match self {
            FileClass::Compile => "ClCompile"@,
            FileClass::Header => "ClInclude"@,
        }
    }

    /// The element that lists a file of this kind.
    pub fn tag_name(&self) -> (out: &'static str)
        ensures
            out@ == self.tag(),
    {
        match self {
            FileClass::Compile => "ClCompile",
            FileClass::Header => "ClInclude",
        }
    }
}

/// A file with its kind and the filter it is shown under.
#[derive(Debug, Clone, PartialEq, Eq)]
pub struct FileEntry {
    pub location: String,
    pub class: FileClass,
    pub filter: String,
}

/// The filters of a project and its files, each with its filter.
#[derive(Debug, Clone, PartialEq, Eq)]
pub struct FilterTree {
    pub filters: Vec<String>,
    pub entries: Vec<FileEntry>,
}

/// The files of a project in the order in which they are listed: compile
/// units first.
pub open spec fn all_files(files: ProjFiles) -> Seq<Seq<char>> {
    texts(files.compile@) + texts(files.headers@)
}

/// What is reported of a file that does not lie below the project root.
pub open spec fn outside_message(file: Seq<char>, root: Seq<char>) -> Seq<char> {
    file + " does not start with "@ + root
}

/// Whether the file at place `i` is the first, in the order of listing,
/// that does not lie below `root`.
pub open spec fn first_stray(files: ProjFiles, root: Seq<char>, i: int) -> bool {
    &&& 0 <= i < all_files(files).len()
    &&& !is_within(all_files(files)[i], root)
    &&& forall|k: int| 0 <= k < i ==> is_within(#[trigger] all_files(files)[k], root)
}

/// Whether `e` reports the first file that does not lie below `root`.
pub open spec fn reports_stray(e: ClinkError, files: ProjFiles, root: Seq<char>) -> bool {
    exists|i: int|
        {
            &&& #[trigger] first_stray(files, root, i)
            &&& e matches ClinkError::InternalConsistency(text)
            &&& text@ == outside_message(all_files(files)[i], root)
        }
}

impl FilterTree {
    /// Whether `self` is the filter tree of `files` below `root`.
    pub open spec fn describes(self, files: ProjFiles, root: Seq<char>) -> bool {
        let all = all_files(files);
        &&& texts(self.filters@) == filters_for(all, root)
        &&& self.entries@.len() == all.len()
        &&& forall|i: int|
            0 <= i < all.len() ==> {
                &&& (#[trigger] self.entries@[i]).location@ == all[i]
                &&& self.entries@[i].class == if i < files.compile@.len() {
                    FileClass::Compile
                } else {
                    FileClass::Header
                }
                &&& self.entries@[i].filter@ == filter_of(all[i], root)
            }
    }
}

/// Gives one file its filter and makes sure that the filter exists.
fn place_file(
    project_root: &str,
    file: &str,
    class: FileClass,
    filters: &mut Vec<String>,
    entries: &mut Vec<FileEntry>,
) -> (r: Result<(), ClinkError>)
    ensures
        is_within(file@, project_root@) ==> {
            &&& r.is_ok()
            &&& texts(final(filters)@) == with_filter(
                texts(old(filters)@),
                filter_of(file@, project_root@),
            )
            &&& final(entries)@.len() == old(entries)@.len() + 1
            &&& final(entries)@.drop_last() == old(entries)@
            &&& final(entries)@.last().location@ == file@
            &&& final(entries)@.last().class == class
            &&& final(entries)@.last().filter@ == filter_of(file@, project_root@)
        },
        !is_within(file@, project_root@) ==> {
            &&& r matches Err(ClinkError::InternalConsistency(text))
            &&& text@ == outside_message(file@, project_root@)
        },
{
    match strip_root(file, project_root) {
        Some(below) => {
            let filter = parent(below.as_str());
            add_filter_recursive(filters, filter.as_str());
            let ghost before = entries@;
            entries.push(FileEntry { location: file.to_owned(), class, filter });
            assert(entries@.drop_last() =~= before);
            Ok(())
        },
        None => {
            let mut text = file.to_owned();
            text.append(" does not start with ");
            text.append(project_root);
            Err(ClinkError::InternalConsistency(text))
        },
    }
}

/// Derives the filters of a project from its files. Every file must lie
/// below the project root; the first that does not is reported.
pub fn build_filter_tree(project_root: &str, files: &ProjFiles) -> (r: Result<
    FilterTree,
    ClinkError,
>)
    ensures
        match r {
            Ok(tree) => {
                &&& forall|i: int|
                    0 <= i < all_files(*files).len() ==> is_within(
                        #[trigger] all_files(*files)[i],
                        project_root@,
                    )
                &&& tree.describes(*files, project_root@)
            },
            Err(e) => reports_stray(e, *files, project_root@),
        },
{
    let ghost all = all_files(*files);
    let ghost root = project_root@;
    let mut filters: Vec<String> = Vec::new();
    let mut entries: Vec<FileEntry> = Vec::new();
    let n = files.compile.len();
    let m = files.headers.len();
    let mut i: usize = 0;
    assert(texts(filters@) =~= filters_for(all.take(0), root));
    while i < n
        invariant
            i <= n,
            n == files.compile@.len(),
            all == all_files(*files),
            root == project_root@,
            texts(filters@) == filters_for(all.take(i as int), root),
            entries@.len() == i,
            forall|k: int| 0 <= k < i ==> is_within(#[trigger] all[k], root),
            forall|k: int|
                0 <= k < i ==> {
                    &&& (#[trigger] entries@[k]).location@ == all[k]
                    &&& entries@[k].class == FileClass::Compile
                    &&& entries@[k].filter@ == filter_of(all[k], root)
                },
        decreases n - i,
    {
        assert(all[i as int] == files.compile@[i as int]@);
        assert(all.take(i + 1).drop_last() =~= all.take(i as int));
        match place_file(
            project_root,
            files.compile[i].as_str(),
            FileClass::Compile,
            &mut filters,
            &mut entries,
        ) {
            Ok(()) => {},
            Err(e) => {
                assert(first_stray(*files, root, i as int));
                return Err(e);
            },
        }
        assert forall|k: int| 0 <= k < i + 1 implies {
            &&& (#[trigger] entries@[k]).location@ == all[k]
            &&& entries@[k].class == FileClass::Compile
            &&& entries@[k].filter@ == filter_of(all[k], root)
        } by {
            if k < i {
                assert(entries@[k] == entries@.drop_last()[k]);
            }
        }
        i += 1;
    }
    let mut j: usize = 0;
    while j < m
        invariant
            j <= m,
            n == files.compile@.len(),
            m == files.headers@.len(),
            all == all_files(*files),
            root == project_root@,
            texts(filters@) == filters_for(all.take(n + j), root),
            entries@.len() == n + j,
            forall|k: int| 0 <= k < n + j ==> is_within(#[trigger] all[k], root),
            forall|k: int|
                0 <= k < n + j ==> {
                    &&& (#[trigger] entries@[k]).location@ == all[k]
                    &&& entries@[k].class == if k < n {
                        FileClass::Compile
                    } else {
                        FileClass::Header
                    }
                    &&& entries@[k].filter@ == filter_of(all[k], root)
                },
        decreases m - j,
    {
        assert(all[n + j] == files.headers@[j as int]@);
        assert(all.take(n + j + 1).drop_last() =~= all.take(n + j));
        match place_file(
            project_root,
            files.headers[j].as_str(),
            FileClass::Header,
            &mut filters,
            &mut entries,
        ) {
            Ok(()) => {},
            Err(e) => {
                assert(first_stray(*files, root, n + j));
                return Err(e);
            },
        }
        assert forall|k: int| 0 <= k < n + j + 1 implies {
            &&& (#[trigger] entries@[k]).location@ == all[k]
            &&& entries@[k].class == if k < n {
                FileClass::Compile
            } else {
                FileClass::Header
            }
            &&& entries@[k].filter@ == filter_of(all[k], root)
        } by {
            if k < n + j {
                assert(entries@[k] == entries@.drop_last()[k]);
            }
        }
        j += 1;
    }
    assert(all.take(n + m) =~= all);
    Ok(FilterTree { filters, entries })
}

/// A filter with the identity under which Visual Studio keeps it.
#[derive(Debug, Clone, PartialEq, Eq)]
pub struct Filter {
    pub path: String,
    pub id: String,
}

/// An identity as the files write it: in braces.
pub open spec fn braced(id: Seq<char>) -> Seq<char> {
    seq!['{'] + id + seq!['}']
}

/// The namespace of MSBuild documents.
pub open spec fn msbuild_namespace() -> Seq<char> {
    "http://schemas.microsoft.com/developer/msbuild/2003"@
}

/// An element with one attribute that holds one element of text.
pub open spec fn labelled_item(
    tag: Seq<char>,
    key: Seq<char>,
    value: Seq<char>,
    inner: Seq<char>,
    inner_text: Seq<char>,
) -> Seq<Markup> {
    element(tag, seq![(key, value)], simple_element(inner, inner_text))
}

/// The entry of one filter.
pub open spec fn filter_item(group: Filter) -> Seq<Markup> {
    labelled_item(
        "Filter"@,
        "Include"@,
        group.path@,
        "UniqueIdentifier"@,
        braced(group.id@),
    )
}

/// The entries of the filters, in order.
pub open spec fn filter_items(groups: Seq<Filter>) -> Seq<Markup>
    decreases groups.len(),
{
    if groups.len() == 0 {
        Seq::empty()
    } else {
        filter_items(groups.drop_last()) + filter_item(groups.last())
    }
}

/// The entry of one file: where it is and under which filter it is shown.
pub open spec fn entry_item(entry: FileEntry) -> Seq<Markup> {
    labelled_item(entry.class.tag(), "Include"@, entry.location@, "Filter"@, entry.filter@)
}

/// The entries of the files, in order.
pub open spec fn entry_items(entries: Seq<FileEntry>) -> Seq<Markup>
    decreases entries.len(),
{
    if entries.len() == 0 {
        Seq::empty()
    } else {
        entry_items(entries.drop_last()) + entry_item(entries.last())
    }
}

/// The filters file: one group of filters, one group of files.
pub open spec fn filters_markup(groups: Seq<Filter>, entries: Seq<FileEntry>) -> Seq<Markup> {
    element(
        "Project"@,
        seq![("ToolsVersion"@, "4.0"@), ("xmlns"@, msbuild_namespace())],
        element("ItemGroup"@, Seq::empty(), filter_items(groups)) + element(
            "ItemGroup"@,
            Seq::empty(),
            entry_items(entries),
        ),
    )
}

/// `id` in braces.
pub fn in_braces(id: &str) -> (out: String)
    ensures
        out@ == braced(id@),
{
    let mut out = String::new();
    out.push('{');
    out.append(id);
    out.push('}');
    assert(out@ =~= braced(id@));
    out
}

/// Writes an element with one attribute that holds one element of text.
fn write_labelled_item(
    w: &mut EventWriter<Vec<u8>>,
    tag: &str,
    key: &str,
    value: &str,
    inner: &str,
    inner_text: &str,
)
    requires
        open_depth(written(*old(w))) >= 0,
    ensures
        written(*final(w)) == written(*old(w)) + labelled_item(
            tag@,
            key@,
            value@,
            inner@,
            inner_text@,
        ),
        open_depth(written(*final(w))) == open_depth(written(*old(w))),
{
    open_with(w, tag, key, value);
    write_simple(w, inner, inner_text);
    close_element(w);
    assert(written(*w) =~= written(*old(w)) + labelled_item(
        tag@,
        key@,
        value@,
        inner@,
        inner_text@,
    ));
}

/// Writes the entries of the filters.
fn write_filter_items(w: &mut EventWriter<Vec<u8>>, groups: &Vec<Filter>)
    requires
        open_depth(written(*old(w))) >= 0,
    ensures
        written(*final(w)) == written(*old(w)) + filter_items(groups@),
        open_depth(written(*final(w))) == open_depth(written(*old(w))),
{
    let ghost start = written(*w);
    let mut i: usize = 0;
    assert(start + filter_items(groups@.take(0)) =~= start);
    while i < groups.len()
        invariant
            i <= groups@.len(),
            open_depth(start) >= 0,
            written(*w) == start + filter_items(groups@.take(i as int)),
            open_depth(written(*w)) == open_depth(start),
        decreases groups@.len() - i,
    {
        let id = in_braces(groups[i].id.as_str());
        write_labelled_item(
            w,
            "Filter",
            "Include",
            groups[i].path.as_str(),
            "UniqueIdentifier",
            id.as_str(),
        );
        proof {
            assert(groups@.take(i + 1).drop_last() =~= groups@.take(i as int));
            assert(written(*w) =~= start + filter_items(groups@.take(i + 1)));
        }
        i += 1;
    }
    assert(groups@.take(i as int) =~= groups@);
}

/// Writes the entries of the files.
fn write_entry_items(w: &mut EventWriter<Vec<u8>>, entries: &Vec<FileEntry>)
    requires
        open_depth(written(*old(w))) >= 0,
    ensures
        written(*final(w)) == written(*old(w)) + entry_items(entries@),
        open_depth(written(*final(w))) == open_depth(written(*old(w))),
{
    let ghost start = written(*w);
    let mut i: usize = 0;
    assert(start + entry_items(entries@.take(0)) =~= start);
    while i < entries.len()
        invariant
            i <= entries@.len(),
            open_depth(start) >= 0,
            written(*w) == start + entry_items(entries@.take(i as int)),
            open_depth(written(*w)) == open_depth(start),
        decreases entries@.len() - i,
    {
        write_labelled_item(
            w,
            entries[i].class.tag_name(),
            "Include",
            entries[i].location.as_str(),
            "Filter",
            entries[i].filter.as_str(),
        );
        proof {
            assert(entries@.take(i + 1).drop_last() =~= entries@.take(i as int));
            assert(written(*w) =~= start + entry_items(entries@.take(i + 1)));
        }
        i += 1;
    }
    assert(entries@.take(i as int) =~= entries@);
}

/// The filters file for the given filters and files.
pub fn filters_document(groups: &Vec<Filter>, entries: &Vec<FileEntry>) -> (bytes: Vec<u8>)
    ensures
        bytes@ == rendering(filters_markup(groups@, entries@)),
{
    let mut w = indenting_writer();
    assert(open_depth(written(w)) == 0);
    open_with2(
        &mut w,
        "Project",
        "ToolsVersion",
        "4.0",
        "xmlns",
        "http://schemas.microsoft.com/developer/msbuild/2003",
    );
    open_plain(&mut w, "ItemGroup");
    write_filter_items(&mut w, groups);
    close_element(&mut w);
    open_plain(&mut w, "ItemGroup");
    write_entry_items(&mut w, entries);
    close_element(&mut w);
    close_element(&mut w);
    proof {
        assert(written(w) =~= filters_markup(groups@, entries@));
    }
    into_bytes(w)
}

/// Whether `groups` are the filters at `paths`, in order, each under an
/// identity.
pub open spec fn names_filters(groups: Seq<Filter>, paths: Seq<String>) -> bool {
    &&& groups.len() == paths.len()
    &&& forall|i: int|
        0 <= i < groups.len() ==> (#[trigger] groups[i]).path@ == paths[i]@ && is_identity(
            groups[i].id@,
        )
}

/// Whether `bytes` are a filters file of `files` below `root`: the filters
/// and entries are those of the filter tree, and each filter has some
/// identity.
pub open spec fn is_filters_file(bytes: Seq<u8>, root: Seq<char>, files: ProjFiles) -> bool {
    exists|tree: FilterTree, groups: Seq<Filter>|
        #![auto]
        tree.describes(files, root) && names_filters(groups, tree.filters@) && bytes == rendering(
            filters_markup(groups, tree.entries@),
        )
}

/// Gives each filter a fresh identity.
pub fn mint_filters(paths: &Vec<String>) -> (groups: Vec<Filter>)
    ensures
        names_filters(groups@, paths@),
{
    let mut groups: Vec<Filter> = Vec::new();
    let mut i: usize = 0;
    while i < paths.len()
        invariant
            i <= paths@.len(),
            names_filters(groups@, paths@.take(i as int)),
        decreases paths@.len() - i,
    {
        groups.push(Filter { path: paths[i].clone(), id: fresh_identity() });
        i += 1;
    }
    assert(paths@.take(i as int) =~= paths@);
    groups
}

/// The filters file of a project whose files lie below `project_root`,
/// each filter under a fresh identity. Fails where a file lies elsewhere.
pub fn generate_filters(project_root: &str, files: &ProjFiles) -> (r: Result<Vec<u8>, ClinkError>)
    ensures
        match r {
            Ok(bytes) => {
                &&& forall|i: int|
                    0 <= i < all_files(*files).len() ==> is_within(
                        #[trigger] all_files(*files)[i],
                        project_root@,
                    )
                &&& is_filters_file(bytes@, project_root@, *files)
            },
            Err(e) => reports_stray(e, *files, project_root@),
        },
{
    match build_filter_tree(project_root, files) {
        Ok(tree) => {
            let groups = mint_filters(&tree.filters);
            let bytes = filters_document(&groups, &tree.entries);
            Ok(bytes)
        },
        Err(e) => Err(e),
    }
}

} // verus!
