//! A project as its description declares it.

use vstd::prelude::*;
use crate::ClinkError;
use crate::dependency::Dependency;
use crate::files::{clone_push_path, extension, extension_of, joined};
use crate::text::{same_text, texts};
use crate::tomlvalue::{wrong_kind, from_toml, index_of_key, kind_message, lemma_same_lookup, lemma_same_reads, lemma_same_table, parse_document, parsed, same_table, paths_under, table_under, text_under, toml_read_paths, toml_str, toml_table, toml_value_str, toml_value_table, ConfigEntry, ConfigTable, ConfigValue};
use crate::wincanonicalize::without_verbatim;

verus! {

/// What a project builds into.
#[derive(Debug, Clone, Copy, PartialEq, Eq, Structural)]
pub enum ProjectClass {
    Application,
    Library,
    External,
}

impl ProjectClass {
    /// The word that a description uses for a class.
    pub open spec fn word(self) -> Seq<char> {
        match self {
            ProjectClass::Application => "application"@,
            ProjectClass::Library => "library"@,
            ProjectClass::External => "external"@,
        }
    }

    /// The class that a word stands for, if any.
    pub open spec fn of_word(value: Seq<char>) -> Option<ProjectClass> {
        if value == "application"@ {
            Some(ProjectClass::Application)
        } else if value == "library"@ {
            Some(ProjectClass::Library)
        } else if value == "external"@ {
            Some(ProjectClass::External)
        } else {
            None
        }
    }

    /// Reads a class from the word that a description holds.
    pub fn parse(value: &str) -> (r: Result<ProjectClass, ClinkError>)
        ensures
            match ProjectClass::of_word(value@) {
                Some(class) => r == Ok::<ProjectClass, ClinkError>(class),
                None => r matches Err(ClinkError::UnknownProjectKind(v)) && v@ == value@,
            },
    {
        if same_text(value, "application") {
            Ok(ProjectClass::Application)
        } else if same_text(value, "library") {
            Ok(ProjectClass::Library)
        } else if same_text(value, "external") {
            Ok(ProjectClass::External)
        } else {
            Err(ClinkError::UnknownProjectKind(value.to_owned()))
        }
    }

    /// The word for this class.
    pub fn to_string(&self) -> (out: String)
        ensures
            out@ == self.word(),
    {
        match self {
            ProjectClass::Application => "application".to_owned(),
            ProjectClass::Library => "library".to_owned(),
            ProjectClass::External => "external".to_owned(),
        }
    }
}

/// Reading back the word of a class gives that class.
pub proof fn lemma_class_word_round_trip(class: ProjectClass)
    ensures
        ProjectClass::of_word(class.word()) == Some(class),
{
    reveal_strlit("application");
    reveal_strlit("library");
    reveal_strlit("external");
    assert("application"@.len() == 11);
    assert("library"@.len() == 7);
    assert("external"@.len() == 8);
}

/// One buildable unit.
#[derive(Debug, Clone, PartialEq, Eq)]
pub struct Project {
    pub name: String,
    pub class: ProjectClass,
    pub compile_relative_paths: Vec<String>,
    pub include_relative_paths: Vec<String>,
    pub dependencies: Vec<Dependency>,
}

impl Project {
    /// A library of the given name with no source roots and no dependencies.
    pub fn new(name: String) -> (project: Project)
        ensures
            project.name == name,
            project.class == ProjectClass::Library,
            project.compile_relative_paths@.len() == 0,
            project.include_relative_paths@.len() == 0,
            project.dependencies@.len() == 0,
    {
        Project {
            name,
            class: ProjectClass::Library,
            compile_relative_paths: Vec::new(),
            include_relative_paths: Vec::new(),
            dependencies: Vec::new(),
        }
    }
}

/// The aliases of those dependencies that are external, in order.
pub open spec fn external_aliases(dependencies: Seq<Dependency>) -> Seq<Seq<char>>
    decreases dependencies.len(),
{
    if dependencies.len() == 0 {
        Seq::empty()
    } else if dependencies.last().external() {
        external_aliases(dependencies.drop_last()).push(dependencies.last().name@)
    } else {
        external_aliases(dependencies.drop_last())
    }
}

/// What a description declares.
pub struct Declared {
    pub name: Seq<char>,
    pub class: ProjectClass,
    pub compile: Seq<Seq<char>>,
    pub headers: Seq<Seq<char>>,
    /// Each dependency: its alias and where it lies.
    pub dependencies: Seq<(Seq<char>, Seq<char>)>,
}

/// Why a description is not accepted.
pub enum Refusal {
    /// A field is absent or of the wrong kind; the text says which.
    Malformed(Seq<char>),
    /// The type of the project is none of the known ones.
    UnknownKind(Seq<char>),
}

/// Aliases and places of a list of dependencies.
pub open spec fn edges(dependencies: Seq<Dependency>) -> Seq<(Seq<char>, Seq<char>)> {
    Seq::new(dependencies.len(), |i: int| (dependencies[i].name@, dependencies[i].path@))
}

/// The dependencies that the entries of a table declare for a project at
/// `path`, or what is wrong with the first entry that is no text.
pub open spec fn dependency_entries(path: Seq<char>, entries: Seq<ConfigEntry>) -> Result<
    Seq<(Seq<char>, Seq<char>)>,
    Seq<char>,
>
    decreases entries.len(),
{
    if entries.len() == 0 {
        Ok(Seq::empty())
    } else {
        match dependency_entries(path, entries.drop_last()) {
            Err(message) => Err(message),
            Ok(list) => match entries.last().value {
                ConfigValue::Text(s) => Ok(
                    list.push((entries.last().key@, without_verbatim(joined(path, s@)))),
                ),
                _ => Err(kind_message(entries.last().key@, "string"@)),
            },
        }
    }
}

/// What is wrong with the first entries of a table is wrong with the table.
pub proof fn lemma_dependency_entries_fail_early(path: Seq<char>, entries: Seq<ConfigEntry>, n: int)
    requires
        0 <= n <= entries.len(),
        dependency_entries(path, entries.take(n)) is Err,
    ensures
        dependency_entries(path, entries) == dependency_entries(path, entries.take(n)),
    decreases entries.len(),
{
    if n < entries.len() {
        assert(entries.drop_last().take(n) =~= entries.take(n));
        lemma_dependency_entries_fail_early(path, entries.drop_last(), n);
    } else {
        assert(entries.take(n) =~= entries);
    }
}

/// The dependencies that a description declares: none where it has no
/// table of them.
pub open spec fn dependencies_under(path: Seq<char>, table: ConfigTable) -> Result<
    Seq<(Seq<char>, Seq<char>)>,
    Seq<char>,
> {
    match table.lookup("dependencies"@) {
        None => Ok(Seq::empty()),
        Some(ConfigValue::Table(t)) => dependency_entries(path, t.entries@),
        Some(_) => Err(kind_message("dependencies"@, "table"@)),
    }
}

/// What the description `table` of a project at `path` declares. The
/// fields are read in a fixed order and the first that is wrong is
/// reported; the type of the project is judged last.
pub open spec fn declared_by(path: Seq<char>, table: ConfigTable) -> Result<Declared, Refusal> {
    match table_under(table, "package"@) {
        Err(m) => Err(Refusal::Malformed(m)),
        Ok(package) => match text_under(package, "name"@) {
            Err(m) => Err(Refusal::Malformed(m)),
            Ok(name) => match text_under(package, "type"@) {
                Err(m) => Err(Refusal::Malformed(m)),
                Ok(kind) => match paths_under(package, "compile"@, seq!["./src"@]) {
                    Err(m) => Err(Refusal::Malformed(m)),
                    Ok(compile) => match paths_under(package, "include"@, seq!["./include"@]) {
                        Err(m) => Err(Refusal::Malformed(m)),
                        Ok(headers) => match dependencies_under(path, table) {
                            Err(m) => Err(Refusal::Malformed(m)),
                            Ok(dependencies) => match ProjectClass::of_word(kind) {
                                None => Err(Refusal::UnknownKind(kind)),
                                Some(class) => Ok(
                                    Declared { name, class, compile, headers, dependencies },
                                ),
                            },
                        },
                    },
                },
            },
        },
    }
}

/// Whether `r` is what reading a description gives: the project that it
/// declares, or the error that says why it is not accepted.
pub open spec fn reads_as(r: Result<Project, ClinkError>, d: Result<Declared, Refusal>) -> bool {
    match d {
        Ok(d) => r matches Ok(project) && project.declared() == d,
        Err(Refusal::Malformed(m)) => r matches Err(ClinkError::ConfigMalformed(text)) && text@
            == m,
        Err(Refusal::UnknownKind(kind)) => r matches Err(ClinkError::UnknownProjectKind(value))
            && value@ == kind,
    }
}

/// Whether `r` is what opening the project at `path` gives: without a
/// text none is found, a text that the parser refuses is malformed, and a
/// text that it accepts is read as the table it holds.
pub open spec fn opens_as(r: Result<Project, ClinkError>, path: Seq<char>, text: Option<&str>) -> bool {
    match text {
        None => r matches Err(ClinkError::ConfigNotFound(location)) && location@ == path,
        Some(text) => match parsed(text@) {
            None => r matches Err(ClinkError::ConfigMalformed(_)),
            Some(m) => exists|table: ConfigTable|
                #![auto]
                ConfigValue::Table(table).model() == m && reads_as(r, declared_by(path, table)),
        },
    }
}

/// Entries that say the same declare the same dependencies.
pub proof fn lemma_same_dependency_entries(
    path: Seq<char>,
    a: Seq<ConfigEntry>,
    b: Seq<ConfigEntry>,
)
    requires
        a.len() == b.len(),
        forall|i: int|
            0 <= i < a.len() ==> (#[trigger] a[i]).key@ == b[i].key@ && a[i].value.model()
                == b[i].value.model(),
    ensures
        dependency_entries(path, a) == dependency_entries(path, b),
    decreases a.len(),
{
    if a.len() > 0 {
        assert forall|i: int| 0 <= i < a.len() - 1 implies (#[trigger] a.drop_last()[i]).key@
            == b.drop_last()[i].key@ && a.drop_last()[i].value.model()
            == b.drop_last()[i].value.model() by {
            assert(a[i].key@ == b[i].key@);
        }
        lemma_same_dependency_entries(path, a.drop_last(), b.drop_last());
        assert(a[a.len() - 1].key@ == b[a.len() - 1].key@);
    }
}

/// What a description declares depends on what it says alone: two tables
/// that say the same declare the same.
pub proof fn lemma_declared_by_what_is_said(path: Seq<char>, a: ConfigTable, b: ConfigTable)
    requires
        same_table(a, b),
    ensures
        declared_by(path, a) == declared_by(path, b),
{
    lemma_same_reads(a, b, "package"@, Seq::empty());
    lemma_same_lookup(a, b, "dependencies"@);
    if a.lookup("dependencies"@).is_some() {
        let x = a.lookup("dependencies"@).unwrap();
        let y = b.lookup("dependencies"@).unwrap();
        if x is Table {
            assert(y is Table);
            lemma_same_table(x->Table_0, y->Table_0);
            lemma_same_dependency_entries(path, x->Table_0.entries@, y->Table_0.entries@);
        } else {
            assert(!(y is Table));
        }
    }
    if table_under(a, "package"@) is Ok {
        let p = table_under(a, "package"@)->Ok_0;
        let q = table_under(b, "package"@)->Ok_0;
        lemma_same_reads(p, q, "name"@, Seq::empty());
        lemma_same_reads(p, q, "type"@, Seq::empty());
        lemma_same_reads(p, q, "compile"@, seq!["./src"@]);
        lemma_same_reads(p, q, "include"@, seq!["./include"@]);
    }
}

impl Project {
    /// What the project declares.
    pub open spec fn declared(self) -> Declared {
        Declared {
            name: self.name@,
            class: self.class,
            compile: texts(self.compile_relative_paths@),
            headers: texts(self.include_relative_paths@),
            dependencies: edges(self.dependencies@),
        }
    }

    /// The aliases of the dependencies that are passed over because they
    /// point at a description file, in order.
    pub fn external_edges(&self) -> (aliases: Vec<String>)
        ensures
            texts(aliases@) == external_aliases(self.dependencies@),
    {
        let mut aliases: Vec<String> = Vec::new();
        let mut i: usize = 0;
        assert(self.dependencies@.take(0).len() == 0);
        assert(texts(aliases@) =~= Seq::empty());
        while i < self.dependencies.len()
            invariant
                i <= self.dependencies@.len(),
                texts(aliases@) == external_aliases(self.dependencies@.take(i as int)),
            decreases self.dependencies@.len() - i,
        {
            assert(self.dependencies@.take(i + 1).drop_last() =~= self.dependencies@.take(
                i as int,
            ));
            if self.dependencies[i].is_external() {
                let ghost before = aliases@;
                aliases.push(self.dependencies[i].name.clone());
                assert(texts(aliases@) =~= texts(before).push(self.dependencies@[i as int].name@));
            }
            i += 1;
        }
        assert(self.dependencies@.take(i as int) =~= self.dependencies@);
        aliases
    }

    /// Where the description of the project at `path` lies: at `path`
    /// itself where that is a description file, else in `Clink.toml` below
    /// it.
    pub fn config_path(path: &str) -> (out: String)
        ensures
            out@ == if extension_of(path@) == "toml"@ {
                path@
            } else {
                joined(path@, "Clink.toml"@)
            },
    {
        let ext = extension(path);
        if same_text(ext.as_str(), "toml") {
            path.to_owned()
        } else {
            clone_push_path(path, "Clink.toml")
        }
    }

    /// Whether `table` is the description that `to_toml` writes for a
    /// project of this name and class: one table, `package`, with the name
    /// and the type.
    pub open spec fn written_as(self, table: ConfigTable) -> bool {
        &&& table.entries@.len() == 1
        &&& table.entries@[0].key@ == "package"@
        &&& table.entries@[0].value matches ConfigValue::Table(package)
        &&& package.entries@.len() == 2
        &&& package.entries@[0].key@ == "name"@
        &&& package.entries@[0].value matches ConfigValue::Text(name)
        &&& name@ == self.name@
        &&& package.entries@[1].key@ == "type"@
        &&& package.entries@[1].value matches ConfigValue::Text(kind)
        &&& kind@ == self.class.word()
    }

    /// The description of the project: its name and its type. Roots and
    /// dependencies are left to their defaults.
    pub fn to_toml(&self) -> (table: ConfigTable)
        ensures
            self.written_as(table),
    {
        let mut package: Vec<ConfigEntry> = Vec::new();
        package.push(ConfigEntry { key: "name".to_owned(), value: ConfigValue::Text(self.name.clone()) });
        package.push(ConfigEntry { key: "type".to_owned(), value: ConfigValue::Text(self.class.to_string()) });
        let mut entries: Vec<ConfigEntry> = Vec::new();
        entries.push(
            ConfigEntry { key: "package".to_owned(), value: ConfigValue::Table(ConfigTable { entries: package }) },
        );
        ConfigTable { entries }
    }

    /// The dependencies that the table `table` declares.
    fn read_dependencies(path: &str, table: &ConfigTable) -> (r: Result<Vec<Dependency>, ClinkError>)
        ensures
            match dependencies_under(path@, *table) {
                Ok(list) => r matches Ok(found) && edges(found@) == list,
                Err(message) => r matches Err(ClinkError::ConfigMalformed(text)) && text@
                    == message,
            },
    {
        let mut dependencies: Vec<Dependency> = Vec::new();
        match table.get("dependencies") {
            None => {
                assert(edges(dependencies@) =~= Seq::empty());
                Ok(dependencies)
            },
            Some(value) => {
                let deps_table = match toml_table(value, "dependencies") {
                    Ok(t) => t,
                    Err(e) => {
                        return Err(e);
                    },
                };
                let mut i: usize = 0;
                assert(deps_table.entries@.take(0) =~= Seq::empty());
                assert(edges(dependencies@) =~= Seq::empty());
                while i < deps_table.entries.len()
                    invariant
                        i <= deps_table.entries@.len(),
                        table.lookup("dependencies"@) == Some(ConfigValue::Table(*deps_table)),
                        dependency_entries(path@, deps_table.entries@.take(i as int)) == Ok::<
                            Seq<(Seq<char>, Seq<char>)>,
                            Seq<char>,
                        >(edges(dependencies@)),
                    decreases deps_table.entries@.len() - i,
                {
                    let entry = &deps_table.entries[i];
                    proof {
                        assert(deps_table.entries@.take(i + 1).drop_last()
                            =~= deps_table.entries@.take(i as int));
                    }
                    match toml_str(&entry.value, entry.key.as_str()) {
                        Ok(dep_path) => {
                            let ghost before = dependencies@;
                            dependencies.push(Dependency::at(path, entry.key.clone(), dep_path));
                            assert(edges(dependencies@) =~= edges(before).push(
                                (entry.key@, without_verbatim(joined(path@, dep_path@))),
                            ));
                        },
                        Err(e) => {
                            proof {
                                lemma_dependency_entries_fail_early(
                                    path@,
                                    deps_table.entries@,
                                    i + 1,
                                );
                            }
                            return Err(e);
                        },
                    }
                    i += 1;
                }
                assert(deps_table.entries@.take(i as int) =~= deps_table.entries@);
                Ok(dependencies)
            },
        }
    }

    /// Opens the project at `path` from the text of its description, which
    /// the caller has read from `config_path(path)`. Without a text there is
    /// no project at `path`; a text that the parser refuses is malformed.
    pub fn open(path: &str, text: Option<&str>) -> (r: Result<Project, ClinkError>)
        ensures
            opens_as(r, path@, text),
    {
        let text = match text {
            Some(text) => text,
            None => {
                return Err(ClinkError::ConfigNotFound(path.to_owned()));
            },
        };
        let document = match parse_document(text) {
            Ok(v) => v,
            Err(message) => {
                return Err(ClinkError::ConfigMalformed(message));
            },
        };
        match from_toml(&document) {
            ConfigValue::Table(table) => Project::from_config(path, &table),
            _ => Err(wrong_kind("document", "table")),
        }
    }

    /// The project that the description `toml` declares, for a project at
    /// `path`.
    pub fn from_config(path: &str, toml: &ConfigTable) -> (r: Result<Project, ClinkError>)
        ensures
            reads_as(r, declared_by(path@, *toml)),
    {
        let package = match toml_value_table(toml, "package") {
            Ok(t) => t,
            Err(e) => {
                return Err(e);
            },
        };
        let name = match toml_value_str(package, "name") {
            Ok(s) => s,
            Err(e) => {
                return Err(e);
            },
        };
        let kind = match toml_value_str(package, "type") {
            Ok(s) => s,
            Err(e) => {
                return Err(e);
            },
        };
        let mut default_compile: Vec<String> = Vec::new();
        default_compile.push("./src".to_owned());
        assert(texts(default_compile@) =~= seq!["./src"@]);
        let compile_relative_paths = match toml_read_paths(package, "compile", default_compile) {
            Ok(paths) => paths,
            Err(e) => {
                return Err(e);
            },
        };
        let mut default_headers: Vec<String> = Vec::new();
        default_headers.push("./include".to_owned());
        assert(texts(default_headers@) =~= seq!["./include"@]);
        let include_relative_paths = match toml_read_paths(package, "include", default_headers) {
            Ok(paths) => paths,
            Err(e) => {
                return Err(e);
            },
        };
        let dependencies = match Project::read_dependencies(path, toml) {
            Ok(list) => list,
            Err(e) => {
                return Err(e);
            },
        };
        let class = match ProjectClass::parse(kind) {
            Ok(class) => class,
            Err(e) => {
                return Err(e);
            },
        };
        Ok(
            Project {
                name: name.to_owned(),
                class,
                compile_relative_paths,
                include_relative_paths,
                dependencies,
            },
        )
    }
}

/// A description that `to_toml` wrote reads back as a project of the same
/// name and class, with the default roots and no dependencies.
pub proof fn lemma_written_description_reads_back(project: Project, table: ConfigTable, path: Seq<char>)
    requires
        project.written_as(table),
    ensures
        declared_by(path, table) matches Ok(d) && d.name == project.name@ && d.class
            == project.class && d.compile == seq!["./src"@] && d.headers == seq!["./include"@]
            && d.dependencies.len() == 0,
{
    reveal_strlit("package");
    reveal_strlit("dependencies");
    reveal_strlit("name");
    reveal_strlit("type");
    reveal_strlit("compile");
    reveal_strlit("include");
    let package = table.entries@[0].value->Table_0;
    let top = table.entries@;
    let inner = package.entries@;
    assert(top.drop_last().len() == 0);
    assert(index_of_key(top.drop_last(), "package"@) == -1);
    assert(index_of_key(top, "package"@) == 0);
    assert(index_of_key(top.drop_last(), "dependencies"@) == -1);
    assert("package"@.len() != "dependencies"@.len());
    assert(index_of_key(top, "dependencies"@) == -1);
    let first = inner.drop_last();
    assert(first.len() == 1);
    assert(first.drop_last().len() == 0);
    assert(first.last() == inner[0]);
    assert("name"@[0] != "type"@[0]);
    assert("compile"@.len() != "name"@.len());
    assert("include"@.len() != "name"@.len());
    assert("compile"@.len() != "type"@.len());
    assert("include"@.len() != "type"@.len());
    assert(index_of_key(first.drop_last(), "name"@) == -1);
    assert(index_of_key(first, "name"@) == 0);
    assert(index_of_key(inner, "name"@) == 0);
    assert(index_of_key(first.drop_last(), "type"@) == -1);
    assert(index_of_key(first, "type"@) == -1);
    assert(index_of_key(inner, "type"@) == 1);
    assert(index_of_key(first.drop_last(), "compile"@) == -1);
    assert(index_of_key(first, "compile"@) == -1);
    assert(index_of_key(inner, "compile"@) == -1);
    assert(index_of_key(first.drop_last(), "include"@) == -1);
    assert(index_of_key(first, "include"@) == -1);
    assert(index_of_key(inner, "include"@) == -1);
    lemma_class_word_round_trip(project.class);
}

} // verus!
