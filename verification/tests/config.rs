use clink::dependency::Dependency;
use clink::project::ProjectClass;
use clink::tomlvalue::{
    from_toml,
    toml_read_paths, toml_slice, toml_str, toml_table, toml_value, toml_value_str,
    toml_value_table, ConfigEntry, ConfigTable, ConfigValue,
};
use clink::ClinkError;
use clink::Project;

fn text(s: &str) -> ConfigValue {
    ConfigValue::Text(s.to_string())
}

fn list(items: &[&str]) -> ConfigValue {
    ConfigValue::List(items.iter().map(|s| text(s)).collect())
}

fn table(entries: Vec<(&str, ConfigValue)>) -> ConfigTable {
    ConfigTable {
        entries: entries.into_iter().map(|(k, v)| ConfigEntry { key: k.to_string(), value: v }).collect(),
    }
}

fn malformed(message: &str) -> ClinkError {
    ClinkError::ConfigMalformed(message.to_string())
}

fn package(name: &str, kind: &str) -> ConfigValue {
    ConfigValue::Table(table(vec![("name", text(name)), ("type", text(kind))]))
}

#[test]
fn description_with_defaults() {
    let toml = table(vec![("package", package("App", "application"))]);
    let project = Project::from_config("/work/app", &toml).unwrap();
    assert_eq!(project.name, "App");
    assert_eq!(project.class, ProjectClass::Application);
    assert_eq!(project.compile_relative_paths, vec!["./src".to_string()]);
    assert_eq!(project.include_relative_paths, vec!["./include".to_string()]);
    assert!(project.dependencies.is_empty());
}

#[test]
fn description_with_roots_and_dependencies() {
    let toml = table(vec![
        (
            "package",
            ConfigValue::Table(table(vec![
                ("name", text("App")),
                ("type", text("library")),
                ("compile", list(&["./a", "./b"])),
                ("include", list(&[])),
            ])),
        ),
        (
            "dependencies",
            ConfigValue::Table(table(vec![("core", text("../core")), ("zlib", text("/vendor/zlib.toml"))])),
        ),
    ]);
    let project = Project::from_config("/work/app", &toml).unwrap();
    assert_eq!(project.class, ProjectClass::Library);
    assert_eq!(project.compile_relative_paths, vec!["./a".to_string(), "./b".to_string()]);
    assert!(project.include_relative_paths.is_empty());
    assert_eq!(
        project.dependencies,
        vec![
            Dependency { name: "core".into(), path: "/work/app/../core".into() },
            Dependency { name: "zlib".into(), path: "/vendor/zlib.toml".into() },
        ]
    );
}

#[test]
fn description_without_package_is_malformed() {
    let toml = table(vec![("dependencies", ConfigValue::Table(table(vec![])))]);
    assert_eq!(
        Project::from_config("/work/app", &toml),
        Err(malformed("Cannot find \"package\" in toml"))
    );
    let wrong = table(vec![("package", text("App"))]);
    assert_eq!(
        Project::from_config("/work/app", &wrong),
        Err(malformed("package is invalid type (expected table)"))
    );
}

#[test]
fn description_without_name_or_type_is_malformed() {
    let no_name = table(vec![("package", ConfigValue::Table(table(vec![("type", text("library"))])))]);
    assert_eq!(
        Project::from_config("/work/app", &no_name),
        Err(malformed("Cannot find \"name\" in toml"))
    );
    let no_type = table(vec![("package", ConfigValue::Table(table(vec![("name", text("App"))])))]);
    assert_eq!(
        Project::from_config("/work/app", &no_type),
        Err(malformed("Cannot find \"type\" in toml"))
    );
    let odd_name =
        table(vec![("package", ConfigValue::Table(table(vec![("name", ConfigValue::Other), ("type", text("library"))])))]);
    assert_eq!(
        Project::from_config("/work/app", &odd_name),
        Err(malformed("name is invalid type (expected string)"))
    );
}

#[test]
fn description_with_unknown_type_is_refused() {
    let toml = table(vec![("package", package("App", "plugin"))]);
    assert_eq!(
        Project::from_config("/work/app", &toml),
        Err(ClinkError::UnknownProjectKind("plugin".into()))
    );
}

#[test]
fn description_with_ill_typed_roots_is_malformed() {
    let not_a_list = table(vec![(
        "package",
        ConfigValue::Table(table(vec![("name", text("A")), ("type", text("library")), ("compile", text("./src"))])),
    )]);
    assert_eq!(
        Project::from_config("/work/app", &not_a_list),
        Err(malformed("compile is invalid type (expected array)"))
    );
    let odd_item = table(vec![(
        "package",
        ConfigValue::Table(table(vec![
            ("name", text("A")),
            ("type", text("library")),
            ("include", ConfigValue::List(vec![text("./inc"), ConfigValue::Other, ConfigValue::List(vec![])])),
        ])),
    )]);
    assert_eq!(
        Project::from_config("/work/app", &odd_item),
        Err(malformed("include_value is invalid type (expected string)"))
    );
}

#[test]
fn description_with_ill_typed_dependencies_is_malformed() {
    let not_a_table = table(vec![("package", package("A", "library")), ("dependencies", list(&["x"]))]);
    assert_eq!(
        Project::from_config("/work/app", &not_a_table),
        Err(malformed("dependencies is invalid type (expected table)"))
    );
    let odd_entry = table(vec![
        ("package", package("A", "plugin")),
        ("dependencies", ConfigValue::Table(table(vec![("core", text("../core")), ("zlib", ConfigValue::Other)]))),
    ]);
    assert_eq!(
        Project::from_config("/work/app", &odd_entry),
        Err(malformed("zlib is invalid type (expected string)"))
    );
}

#[test]
fn first_entry_under_a_key_is_the_one_read() {
    let t = table(vec![("a", text("one")), ("b", text("two")), ("a", text("three"))]);
    assert_eq!(t.get("a"), Some(&text("one")));
    assert_eq!(t.get("b"), Some(&text("two")));
    assert_eq!(t.get("c"), None);
    assert_eq!(toml_value(&t, "b"), Ok(&text("two")));
    assert_eq!(toml_value(&t, "c"), Err(malformed("Cannot find \"c\" in toml")));
}

#[test]
fn typed_reads_report_the_kind_expected() {
    let inner = table(vec![("k", text("v"))]);
    let t = table(vec![
        ("text", text("hello")),
        ("list", list(&["x", "y"])),
        ("table", ConfigValue::Table(table(vec![("k", text("v"))]))),
    ]);
    assert_eq!(toml_value_str(&t, "text"), Ok("hello"));
    assert_eq!(toml_value_str(&t, "list"), Err(malformed("list is invalid type (expected string)")));
    assert_eq!(toml_value_str(&t, "none"), Err(malformed("Cannot find \"none\" in toml")));
    assert_eq!(toml_value_table(&t, "table"), Ok(&inner));
    assert_eq!(toml_value_table(&t, "text"), Err(malformed("text is invalid type (expected table)")));
    assert_eq!(toml_str(&text("a"), "n"), Ok("a"));
    assert_eq!(toml_str(&ConfigValue::Other, "n"), Err(malformed("n is invalid type (expected string)")));
    assert_eq!(toml_table(&ConfigValue::Other, "n"), Err(malformed("n is invalid type (expected table)")));
    assert_eq!(toml_slice(&list(&["x"]), "n"), Ok(&vec![text("x")]));
    assert_eq!(toml_slice(&text("x"), "n"), Err(malformed("n is invalid type (expected array)")));
}

#[test]
fn paths_are_read_under_the_key_asked_for() {
    let t = table(vec![("compile", list(&["./a"])), ("include", list(&["./b", "./c"]))]);
    assert_eq!(toml_read_paths(&t, "compile", vec!["./src".into()]), Ok(vec!["./a".to_string()]));
    assert_eq!(
        toml_read_paths(&t, "include", vec!["./include".into()]),
        Ok(vec!["./b".to_string(), "./c".to_string()])
    );
    assert_eq!(toml_read_paths(&t, "other", vec!["./dflt".into()]), Ok(vec!["./dflt".to_string()]));
}

#[test]
fn description_is_read_from_its_text() {
    let text = "[package]\nname = \"App\"\ntype = \"application\"\ncompile = [\"./code\"]\n\n[dependencies]\nzlib = \"/vendor/zlib.toml\"\ncore = \"../core\"\n";
    let project = Project::open("/work/app", Some(text)).unwrap();
    assert_eq!(project.name, "App");
    assert_eq!(project.class, ProjectClass::Application);
    assert_eq!(project.compile_relative_paths, vec!["./code".to_string()]);
    assert_eq!(project.include_relative_paths, vec!["./include".to_string()]);
    assert_eq!(
        project.dependencies,
        vec![
            Dependency { name: "core".into(), path: "/work/app/../core".into() },
            Dependency { name: "zlib".into(), path: "/vendor/zlib.toml".into() },
        ]
    );
}

#[test]
fn text_that_is_no_description_is_malformed() {
    assert!(matches!(
        Project::open("/work/app", Some("[package\nname = ")),
        Err(ClinkError::ConfigMalformed(_))
    ));
    assert_eq!(
        Project::open("/work/app", Some("")),
        Err(malformed("Cannot find \"package\" in toml"))
    );
    assert_eq!(
        Project::open("/work/app", Some("package = 3\n")),
        Err(malformed("package is invalid type (expected table)"))
    );
    assert_eq!(
        Project::open("/work/app", Some("[package]\nname = \"A\"\ntype = \"plugin\"\n")),
        Err(ClinkError::UnknownProjectKind("plugin".into()))
    );
    assert_eq!(
        Project::open("/work/app", Some("[package]\nname = 7\ntype = \"library\"\n")),
        Err(malformed("name is invalid type (expected string)"))
    );
    assert_eq!(
        Project::open("/work/app", Some("[package]\nname = \"A\"\ntype = \"library\"\ninclude = [\"a\", 1.5]\n")),
        Err(malformed("include_value is invalid type (expected string)"))
    );
}

#[test]
fn parsed_values_are_converted_one_for_one() {
    let document: toml::Table =
        "name = \"x\"\nflag = true\nlist = [\"a\", [\"b\"], 3]\n[inner]\nkey = \"v\"\n".parse().unwrap();
    let converted = from_toml(&toml::Value::Table(document));
    let expected = ConfigValue::Table(table(vec![
        ("flag", ConfigValue::Other),
        ("inner", ConfigValue::Table(table(vec![("key", text("v"))]))),
        ("list", ConfigValue::List(vec![text("a"), list(&["b"]), ConfigValue::Other])),
        ("name", text("x")),
    ]));
    assert_eq!(converted, expected);
    assert_eq!(from_toml(&toml::Value::String("s".into())), text("s"));
    assert_eq!(from_toml(&toml::Value::Integer(3)), ConfigValue::Other);
}

#[test]
fn written_description_reads_back() {
    let mut project = Project::new("Fresh".into());
    project.class = ProjectClass::Application;
    let description = project.to_toml();
    assert_eq!(
        description,
        table(vec![(
            "package",
            ConfigValue::Table(table(vec![("name", text("Fresh")), ("type", text("application"))]))
        )])
    );
    let read = Project::from_config("/work/fresh", &description).unwrap();
    assert_eq!(read.name, "Fresh");
    assert_eq!(read.class, ProjectClass::Application);
    assert_eq!(read.compile_relative_paths, vec!["./src".to_string()]);
    assert_eq!(read.include_relative_paths, vec!["./include".to_string()]);
    assert!(read.dependencies.is_empty());
}

#[test]
fn dependency_opens_the_project_it_points_at() {
    let dep = Dependency { name: "core".into(), path: "/work/core".into() };
    let project = dep
        .open(Some("[package]\nname = \"Core\"\ntype = \"library\"\n[dependencies]\nbase = \"../base\"\n"))
        .unwrap();
    assert_eq!(project.name, "Core");
    assert_eq!(
        project.dependencies,
        vec![Dependency { name: "base".into(), path: "/work/core/../base".into() }]
    );
    assert!(matches!(dep.open(Some("not a description")), Err(ClinkError::ConfigMalformed(_))));
    assert_eq!(dep.open(None), Err(ClinkError::ConfigNotFound("/work/core".into())));
}

#[test]
fn project_without_a_description_is_not_found() {
    assert_eq!(
        Project::open("/work/app", None),
        Err(ClinkError::ConfigNotFound("/work/app".into()))
    );
}
