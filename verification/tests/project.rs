use clink::dependency::Dependency;
use clink::project::ProjectClass;
use clink::text::{chars_of, compare, same_text, Rank};
use clink::visualstudio::escape;
use clink::ClinkError;
use clink::Project;

#[test]
fn new_creates_library_with_name() {
    let proj = Project::new("MyProject".into());
    assert_eq!(proj.name, "MyProject");
    assert_eq!(proj.class, ProjectClass::Library);
}

#[test]
fn new_project_has_no_roots_and_no_dependencies() {
    let proj = Project::new("Empty".into());
    assert!(proj.compile_relative_paths.is_empty());
    assert!(proj.include_relative_paths.is_empty());
    assert!(proj.dependencies.is_empty());
}

#[test]
fn class_is_read_from_its_word() {
    assert_eq!(ProjectClass::parse("application"), Ok(ProjectClass::Application));
    assert_eq!(ProjectClass::parse("library"), Ok(ProjectClass::Library));
    assert_eq!(ProjectClass::parse("external"), Ok(ProjectClass::External));
}

#[test]
fn unknown_class_is_refused_with_its_value() {
    assert_eq!(
        ProjectClass::parse("plugin"),
        Err(ClinkError::UnknownProjectKind("plugin".to_string()))
    );
    assert_eq!(
        ProjectClass::parse("Library"),
        Err(ClinkError::UnknownProjectKind("Library".to_string()))
    );
    assert_eq!(ProjectClass::parse(""), Err(ClinkError::UnknownProjectKind(String::new())));
}

#[test]
fn class_word_reads_back_as_the_class() {
    for class in [ProjectClass::Application, ProjectClass::Library, ProjectClass::External] {
        assert_eq!(ProjectClass::parse(&class.to_string()), Ok(class));
    }
    assert_eq!(ProjectClass::Application.to_string(), "application");
    assert_eq!(ProjectClass::Library.to_string(), "library");
    assert_eq!(ProjectClass::External.to_string(), "external");
}

#[test]
fn error_messages_name_the_offending_value() {
    assert_eq!(
        ClinkError::ConfigNotFound("/work/app".into()).message(),
        "Invalid project structure\n Location: /work/app\n Error: Could not find Clink.toml"
    );
    assert_eq!(
        ClinkError::ConfigMalformed("name is invalid type (expected string)".into()).message(),
        "Invalid project file\n Error: name is invalid type (expected string)"
    );
    assert_eq!(
        ClinkError::UnknownProjectKind("plugin".into()).message(),
        "Invalid project file\n Error: \"plugin\" is not a valid project type"
    );
    assert_eq!(
        ClinkError::NameConflict("core".into(), "/a/core".into(), "/b/core".into()).message(),
        "Multiple dependencies with same name and different path\n Name: core\n Previous at: /a/core\n Current at: /b/core"
    );
    assert_eq!(
        ClinkError::CyclicDependency("core".into()).message(),
        "Cyclic dependency\n Project: core"
    );
    assert_eq!(
        ClinkError::InternalConsistency("out of step".into()).message(),
        "Internal error: out of step"
    );
}

#[test]
fn dependency_path_is_joined_to_the_project_path() {
    let dep = Dependency::at("/work/app", "core".into(), "../core");
    assert_eq!(dep.name, "core");
    assert_eq!(dep.path, "/work/app/../core");
    assert!(!dep.is_external());
}

#[test]
fn dependency_on_a_description_file_is_external() {
    let dep = Dependency::at("/work/app", "zlib".into(), "/vendor/zlib/zlib.toml");
    assert_eq!(dep.path, "/vendor/zlib/zlib.toml");
    assert!(dep.is_external());
    let dir = Dependency { name: "toml".into(), path: "/vendor/toml".into() };
    assert!(!dir.is_external());
}

#[test]
fn config_path_is_the_file_itself_or_the_file_below_the_directory() {
    assert_eq!(Project::config_path("/work/app"), "/work/app/Clink.toml");
    assert_eq!(Project::config_path("/work/app/"), "/work/app/Clink.toml");
    assert_eq!(Project::config_path("/vendor/zlib.toml"), "/vendor/zlib.toml");
}

#[test]
fn escape_replaces_double_quotes_only() {
    assert_eq!(escape("say \"hi\"".to_string()), "say &quot;hi&quot;");
    assert_eq!(escape("<a & b>".to_string()), "<a & b>");
    assert_eq!(escape(String::new()), "");
    assert_eq!(escape("\"".to_string()), "&quot;");
}

#[test]
fn texts_compare_in_dictionary_order() {
    let rank = |a: &str, b: &str| compare(&chars_of(a), &chars_of(b));
    assert_eq!(rank("a", "b"), Rank::Before);
    assert_eq!(rank("b", "a"), Rank::After);
    assert_eq!(rank("abc", "abc"), Rank::Same);
    assert_eq!(rank("ab", "abc"), Rank::Before);
    assert_eq!(rank("abc", "ab"), Rank::After);
    assert_eq!(rank("", ""), Rank::Same);
    assert_eq!(rank("", "a"), Rank::Before);
    assert_eq!(rank("Z", "a"), Rank::Before);
    assert_eq!(rank("é", "z"), Rank::After);
}

#[test]
fn text_helpers_keep_characters() {
    assert_eq!(chars_of("héllo"), vec!['h', 'é', 'l', 'l', 'o']);
    assert!(same_text("abc", "abc"));
    assert!(!same_text("abc", "abd"));
    assert!(!same_text("abc", "ab"));
}
