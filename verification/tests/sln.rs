use clink::visualstudio::{generate_sln, ProjDesc, SlnFile};
use clink::Project;

fn desc(name: &str, path: &str, uuid: &str) -> ProjDesc {
    ProjDesc { name: name.into(), vcxproj_path: path.into(), uuid: uuid.into(), can_includes: Vec::new() }
}

const HEADER: &str =
    "Microsoft Visual Studio Solution File, Format Version 12.00\n# Visual Studio 14\n";

#[test]
fn empty_solution_is_the_header() {
    assert_eq!(SlnFile::new().generate(), HEADER);
}

#[test]
fn solution_lists_projects_in_the_order_given() {
    let mut sln = SlnFile::new();
    sln.add_project(desc("D", "/d/D.vcxproj", "aaaaaaaa-bbbb-4ccc-8ddd-eeeeeeeeeeee"));
    sln.add_project(desc("P", "/p/P.vcxproj", "11111111-2222-4333-8444-555555555555"));
    let expected = format!(
        "{}Project(\"{{8BC9CEB8-8B4A-11D0-8D11-00A0C91BC942}}\") = \"D\", \"/d/D.vcxproj\", \"{{aaaaaaaa-bbbb-4ccc-8ddd-eeeeeeeeeeee}}\"\nEndProject\nProject(\"{{8BC9CEB8-8B4A-11D0-8D11-00A0C91BC942}}\") = \"P\", \"/p/P.vcxproj\", \"{{11111111-2222-4333-8444-555555555555}}\"\nEndProject\n",
        HEADER
    );
    assert_eq!(sln.generate(), expected);
}

#[test]
fn solution_does_not_remove_repetitions() {
    let mut sln = SlnFile::new();
    sln.add_project(desc("D", "/d/D.vcxproj", "id"));
    sln.add_project(desc("D", "/d/D.vcxproj", "id"));
    assert_eq!(sln.generate().matches("= \"D\", \"/d/D.vcxproj\", \"{id}\"").count(), 2);
}

#[test]
fn generate_sln_names_the_solution_after_the_project() {
    let project = Project::new("App".into());
    let projects = vec![desc("D", "/d/D.vcxproj", "one"), desc("App", "/app/App.vcxproj", "two")];
    let (path, text) = generate_sln(&project, "/app", &projects);
    assert_eq!(path, "/app/App.sln");
    let mut sln = SlnFile::new();
    for p in &projects {
        sln.add_project(p.copy());
    }
    assert_eq!(text, sln.generate());
    assert!(text.find("\"D\"").unwrap() < text.find("\"App\"").unwrap());
}
