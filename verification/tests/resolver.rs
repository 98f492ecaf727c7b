use clink::dependency::Dependency;
use clink::project::ProjectClass;
use clink::visualstudio::resolver::{Action, Opened, Resolver};
use clink::visualstudio::{
    can_file_paths, can_includes, generate_sln, generate_vcxproj, generate_vcxproj_filters,
    is_covered, references_of, Generated, Outcome, ProjDesc,
};
use clink::ClinkError;
use clink::Project;

struct OnDisk {
    location: &'static str,
    project: Project,
    files: Vec<&'static str>,
}

fn project(name: &str, class: ProjectClass, deps: &[(&str, &str)]) -> Project {
    let mut p = Project::new(name.into());
    p.class = class;
    p.compile_relative_paths = vec!["src".into()];
    p.include_relative_paths = vec!["include".into()];
    p.dependencies =
        deps.iter().map(|(alias, path)| Dependency { name: alias.to_string(), path: path.to_string() }).collect();
    p
}

fn copy_of(p: &Project) -> Project {
    let mut q = Project::new(p.name.clone());
    q.class = p.class;
    q.compile_relative_paths = p.compile_relative_paths.clone();
    q.include_relative_paths = p.include_relative_paths.clone();
    q.dependencies =
        p.dependencies.iter().map(|d| Dependency { name: d.name.clone(), path: d.path.clone() }).collect();
    q
}

fn run(disk: &[OnDisk], root: &str) -> Result<(Vec<ProjDesc>, Vec<Generated>, Vec<String>), ClinkError> {
    let find = |location: &str| disk.iter().find(|d| d.location == location);
    let start = find(root).unwrap();
    let mut resolver = Resolver::new(copy_of(&start.project), root.to_string());
    let mut generated = Vec::new();
    let mut opened = Vec::new();
    for _ in 0..1000 {
        match resolver.pending() {
            Action::Open(path) => {
                opened.push(path.clone());
                let entry = find(&path).unwrap_or_else(|| panic!("nothing at {}", path));
                resolver.opened(copy_of(&entry.project))?;
            }
            Action::Scan { sources, headers } => {
                let location = headers[0].trim_end_matches("/include").to_string();
                assert_eq!(sources, vec![format!("{}/src", location), format!("{}/include", location)]);
                let entry = find(&location).unwrap();
                let files: Vec<String> = entry.files.iter().map(|f| f.to_string()).collect();
                generated.push(resolver.complete(&headers, &files)?);
            }
            Action::Finished => return Ok((resolver.descriptors(), generated, opened)),
        }
    }
    panic!("the resolution did not end");
}

fn names(order: &[ProjDesc]) -> Vec<&str> {
    order.iter().map(|d| d.name.as_str()).collect()
}

fn two_projects() -> Vec<OnDisk> {
    vec![
        OnDisk {
            location: "/p",
            project: project("P", ProjectClass::Library, &[("core", "/d")]),
            files: vec!["/p/src/a.cpp", "/p/include/a.h"],
        },
        OnDisk {
            location: "/d",
            project: project("D", ProjectClass::Library, &[]),
            files: vec!["/d/src/b.cpp", "/d/include/b.h"],
        },
    ]
}

#[test]
fn dependency_is_generated_before_the_project_that_needs_it() {
    let (order, generated, _) = run(&two_projects(), "/p").unwrap();
    assert_eq!(names(&order), vec!["D", "P"]);
    assert_eq!(order[0].vcxproj_path, "/d/D.vcxproj");
    assert_eq!(order[1].vcxproj_path, "/p/P.vcxproj");
    assert_eq!(order[0].can_includes, vec!["/d/include".to_string()]);
    assert_eq!(order[1].can_includes, vec!["/p/include".to_string()]);
    let p = String::from_utf8(generated[1].vcxproj.clone()).unwrap();
    assert_eq!(p.matches("<ClCompile Include=").count(), 1);
    assert!(p.contains("<ClCompile Include=\"/p/src/a.cpp\" />"));
    assert!(p.contains("<ClInclude Include=\"/p/include/a.h\" />"));
    assert!(p.contains(&format!(
        "<ProjectReference Include=\"/d/D.vcxproj\">\n      <Project>{}</Project>",
        order[0].uuid
    )));
    assert!(p.contains("<IncludePath>/p/include;/d/include;$(IncludePath)</IncludePath>"));
    assert!(p.contains(&format!("<ProjectGuid>{{{}}}</ProjectGuid>", order[1].uuid)));
    let d = String::from_utf8(generated[0].vcxproj.clone()).unwrap();
    assert!(d.contains("<ClCompile Include=\"/d/src/b.cpp\" />"));
    assert_eq!(d.matches("<ProjectReference").count(), 0);
    assert_eq!(generated[0].filters_path, "/d/D.vcxproj.filters");
    assert_eq!(generated[1].filters_path, "/p/P.vcxproj.filters");
    assert_eq!(generated[1].desc, order[1]);
}

#[test]
fn filters_alone_touch_nothing_but_the_filters_of_the_project() {
    let disk = two_projects();
    let files: Vec<String> = disk[0].files.iter().map(|f| f.to_string()).collect();
    let (path, bytes) = generate_vcxproj_filters(&disk[0].project, "/p", &files).unwrap();
    assert_eq!(path, "/p/P.vcxproj.filters");
    let text = String::from_utf8(bytes).unwrap();
    assert!(text.contains("<Filter Include=\"src\">"));
    assert!(text.contains("<Filter Include=\"include\">"));
    assert!(text.contains("<ClCompile Include=\"/p/src/a.cpp\">\n      <Filter>src</Filter>"));
    assert!(text.contains("<ClInclude Include=\"/p/include/a.h\">\n      <Filter>include</Filter>"));
    assert!(!text.contains("/d/"));
    assert!(!text.contains("ProjectReference"));
    assert_eq!(
        generate_vcxproj_filters(&disk[0].project, "/p", &vec!["/elsewhere/x.cpp".to_string()]),
        Err(ClinkError::InternalConsistency("/elsewhere/x.cpp does not start with /p".into()))
    );
}

#[test]
fn order_is_dependency_first_in_a_deeper_graph() {
    let disk = vec![
        OnDisk {
            location: "/app",
            project: project("App", ProjectClass::Application, &[("ui", "/ui"), ("net", "/net")]),
            files: vec![],
        },
        OnDisk { location: "/ui", project: project("Ui", ProjectClass::Library, &[("base", "/base")]), files: vec![] },
        OnDisk {
            location: "/net",
            project: project("Net", ProjectClass::Library, &[("base", "/base"), ("tls", "/tls")]),
            files: vec![],
        },
        OnDisk { location: "/base", project: project("Base", ProjectClass::Library, &[]), files: vec![] },
        OnDisk { location: "/tls", project: project("Tls", ProjectClass::Library, &[("base", "/base")]), files: vec![] },
    ];
    let (order, generated, _) = run(&disk, "/app").unwrap();
    assert_eq!(names(&order), vec!["Base", "Ui", "Tls", "Net", "App"]);
    let place = |name: &str| order.iter().position(|d| d.name == name).unwrap();
    for entry in &disk {
        for dep in &entry.project.dependencies {
            let target = disk.iter().find(|d| d.location == dep.path).unwrap();
            assert!(place(&target.project.name) < place(&entry.project.name));
            let file = String::from_utf8(generated[place(&entry.project.name)].vcxproj.clone()).unwrap();
            assert!(file.contains(&format!("<Project>{}</Project>", order[place(&target.project.name)].uuid)));
        }
    }
    assert_eq!(order.last().unwrap().name, "App");
    let net = String::from_utf8(generated[3].vcxproj.clone()).unwrap();
    assert!(net.contains("<IncludePath>/net/include;/base/include;/tls/include;$(IncludePath)</IncludePath>"));
}

#[test]
fn project_reached_twice_is_generated_once() {
    let disk = vec![
        OnDisk {
            location: "/app",
            project: project("App", ProjectClass::Application, &[("one", "/base"), ("two", "/base")]),
            files: vec![],
        },
        OnDisk { location: "/base", project: project("Base", ProjectClass::Library, &[]), files: vec![] },
    ];
    let (order, generated, opened) = run(&disk, "/app").unwrap();
    assert_eq!(names(&order), vec!["Base", "App"]);
    assert_eq!(generated.len(), 2);
    assert_eq!(opened, vec!["/base".to_string(), "/base".to_string()]);
    let app = String::from_utf8(generated[1].vcxproj.clone()).unwrap();
    assert_eq!(app.matches("<ProjectReference Include=\"/base/Base.vcxproj\">").count(), 2);
}

#[test]
fn external_dependencies_are_passed_over() {
    let disk = vec![
        OnDisk {
            location: "/app",
            project: project(
                "App",
                ProjectClass::Application,
                &[("zlib", "/vendor/zlib/zlib.toml"), ("sdk", "/sdk"), ("base", "/base")],
            ),
            files: vec![],
        },
        OnDisk { location: "/sdk", project: project("Sdk", ProjectClass::External, &[("x", "/nowhere")]), files: vec![] },
        OnDisk { location: "/base", project: project("Base", ProjectClass::Library, &[]), files: vec![] },
    ];
    let (order, generated, opened) = run(&disk, "/app").unwrap();
    assert_eq!(names(&order), vec!["Base", "App"]);
    assert_eq!(opened, vec!["/sdk".to_string(), "/base".to_string()]);
    let app = String::from_utf8(generated[1].vcxproj.clone()).unwrap();
    assert_eq!(app.matches("<ProjectReference").count(), 1);
    assert!(app.contains("<IncludePath>/app/include;/base/include;$(IncludePath)</IncludePath>"));
}

#[test]
fn same_name_at_two_places_is_a_conflict() {
    let disk = vec![
        OnDisk {
            location: "/app",
            project: project("App", ProjectClass::Application, &[("a", "/one/core"), ("b", "/mid")]),
            files: vec![],
        },
        OnDisk { location: "/one/core", project: project("Core", ProjectClass::Library, &[]), files: vec![] },
        OnDisk { location: "/mid", project: project("Mid", ProjectClass::Library, &[("c", "/two/core")]), files: vec![] },
        OnDisk { location: "/two/core", project: project("Core", ProjectClass::Library, &[]), files: vec![] },
    ];
    assert_eq!(
        run(&disk, "/app").err(),
        Some(ClinkError::NameConflict("Core".into(), "/one/core".into(), "/two/core".into()))
    );
}

#[test]
fn dependency_on_a_project_being_resolved_is_a_cycle() {
    let disk = vec![
        OnDisk { location: "/a", project: project("A", ProjectClass::Library, &[("b", "/b")]), files: vec![] },
        OnDisk { location: "/b", project: project("B", ProjectClass::Library, &[("c", "/c")]), files: vec![] },
        OnDisk { location: "/c", project: project("C", ProjectClass::Library, &[("a", "/a")]), files: vec![] },
    ];
    assert_eq!(run(&disk, "/a").err(), Some(ClinkError::CyclicDependency("A".into())));
    let itself = vec![OnDisk {
        location: "/a",
        project: project("A", ProjectClass::Library, &[("me", "/a")]),
        files: vec![],
    }];
    assert_eq!(run(&itself, "/a").err(), Some(ClinkError::CyclicDependency("A".into())));
}

#[test]
fn resolver_refuses_answers_out_of_step() {
    let disk = two_projects();
    let mut resolver = Resolver::new(copy_of(&disk[0].project), "/p".into());
    assert_eq!(resolver.pending(), Action::Open("/d".into()));
    let early = resolver.complete(&Vec::new(), &Vec::new());
    assert_eq!(
        early.err(),
        Some(ClinkError::InternalConsistency("no project is waiting to be generated".into()))
    );
    assert_eq!(resolver.pending(), Action::Open("/d".into()));
    assert_eq!(resolver.opened(copy_of(&disk[1].project)), Ok(Opened::Entered));
    assert!(matches!(resolver.pending(), Action::Scan { .. }));
    let late = resolver.opened(copy_of(&disk[1].project));
    assert_eq!(
        late,
        Err(ClinkError::InternalConsistency("no dependency is waiting to be opened".into()))
    );
    resolver.complete(&vec!["/d/include".into()], &Vec::new()).unwrap();
    resolver.complete(&vec!["/p/include".into()], &Vec::new()).unwrap();
    assert_eq!(resolver.pending(), Action::Finished);
    assert!(matches!(resolver.opened(copy_of(&disk[1].project)), Err(ClinkError::InternalConsistency(_))));
    assert!(matches!(
        resolver.complete(&Vec::new(), &Vec::new()),
        Err(ClinkError::InternalConsistency(_))
    ));
    assert_eq!(names(&resolver.descriptors()), vec!["D", "P"]);
}

#[test]
fn external_root_cannot_be_generated() {
    let disk = vec![OnDisk { location: "/x", project: project("X", ProjectClass::External, &[]), files: vec![] }];
    assert_eq!(
        run(&disk, "/x").err(),
        Some(ClinkError::InternalConsistency("Cannot generate vcxproj for external dependency".into()))
    );
    assert_eq!(
        generate_vcxproj(&disk[0].project, "/x", &Vec::new(), &Vec::new(), &Vec::new()).err(),
        Some(ClinkError::InternalConsistency("Cannot generate vcxproj for external dependency".into()))
    );
}

#[test]
fn file_outside_the_project_stops_the_generation() {
    let disk = vec![OnDisk {
        location: "/p",
        project: project("P", ProjectClass::Library, &[]),
        files: vec!["/p/src/a.cpp", "/q/b.h", "/q/notes.txt"],
    }];
    assert_eq!(
        run(&disk, "/p").err(),
        Some(ClinkError::InternalConsistency("/q/b.h does not start with /p".into()))
    );
    let fine = vec![OnDisk {
        location: "/p",
        project: project("P", ProjectClass::Library, &[]),
        files: vec!["/p/src/a.cpp", "/q/notes.txt"],
    }];
    assert_eq!(names(&run(&fine, "/p").unwrap().0), vec!["P"]);
}

#[test]
fn candidate_roots_lie_below_the_project() {
    let mut p = Project::new("P".into());
    p.compile_relative_paths = vec!["./src".into(), "gen".into()];
    p.include_relative_paths = vec!["./include".into(), "/abs/include".into()];
    assert_eq!(can_includes(&p, "/p"), vec!["/p/./include".to_string(), "/abs/include".to_string()]);
    assert_eq!(
        can_file_paths(&p, "/p"),
        vec![
            "/p/./src".to_string(),
            "/p/gen".to_string(),
            "/p/./include".to_string(),
            "/abs/include".to_string()
        ]
    );
}

#[test]
fn solution_of_a_resolution_lists_the_order() {
    let disk = two_projects();
    let (order, _, _) = run(&disk, "/p").unwrap();
    let (path, text) = generate_sln(&disk[0].project, "/p", &order);
    assert_eq!(path, "/p/P.sln");
    let d = text.find(&format!("\"D\", \"/d/D.vcxproj\", \"{{{}}}\"", order[0].uuid)).unwrap();
    let p = text.find(&format!("\"P\", \"/p/P.vcxproj\", \"{{{}}}\"", order[1].uuid)).unwrap();
    assert!(d < p);
    assert_eq!(text.matches("EndProject\n").count(), 2);
}

#[test]
fn each_run_mints_new_identities() {
    let (first, _, _) = run(&two_projects(), "/p").unwrap();
    let (second, _, _) = run(&two_projects(), "/p").unwrap();
    assert_ne!(first[0].uuid, second[0].uuid);
    assert_ne!(first[0].uuid, first[1].uuid);
}

fn reference(name: &str, dirs: &[&str]) -> ProjDesc {
    ProjDesc {
        name: name.into(),
        vcxproj_path: format!("/{}/{}.vcxproj", name, name),
        uuid: format!("id-of-{}", name),
        can_includes: dirs.iter().map(|d| d.to_string()).collect(),
    }
}

#[test]
fn header_directories_are_united_in_the_order_met() {
    let p = project("P", ProjectClass::Library, &[("a", "/a"), ("cfg", "/vendor/cfg.toml"), ("s", "/sdk"), ("b", "/b")]);
    let own = vec!["/p/include".to_string(), "/p/gen".to_string(), "/p/include".to_string()];
    let generated = generate_vcxproj(
        &p,
        "/p",
        &own,
        &vec!["/p/src/a.cpp".to_string()],
        &vec![
            Outcome::Referred(reference("A", &["/a/include", "/base/include"])),
            Outcome::External,
            Outcome::PassedOver,
            Outcome::Referred(reference("B", &["/b/include", "/base/include", "/p/gen"])),
        ],
    )
    .unwrap();
    assert_eq!(generated.desc.can_includes, own);
    let text = String::from_utf8(generated.vcxproj).unwrap();
    assert!(text.contains(
        "<IncludePath>/p/include;/p/gen;/a/include;/base/include;/b/include;$(IncludePath)</IncludePath>"
    ));
    assert!(text.contains("<Project>id-of-A</Project>"));
    assert!(text.contains("<Project>id-of-B</Project>"));
    assert_eq!(text.matches("<ProjectReference").count(), 2);
    assert_eq!(generated.desc.name, "P");
    assert_eq!(generated.desc.vcxproj_path, "/p/P.vcxproj");
    assert!(text.contains(&format!("<ProjectGuid>{{{}}}</ProjectGuid>", generated.desc.uuid)));
}

#[test]
fn descriptor_exports_the_own_directories_only() {
    let p = project("P", ProjectClass::Library, &[("d", "/d")]);
    let generated = generate_vcxproj(
        &p,
        "/p",
        &Vec::new(),
        &Vec::new(),
        &vec![Outcome::Referred(reference("D", &["/d/include"]))],
    )
    .unwrap();
    assert!(generated.desc.can_includes.is_empty());
    let text = String::from_utf8(generated.vcxproj).unwrap();
    assert!(text.contains("<IncludePath>/d/include;$(IncludePath)</IncludePath>"));
}

#[test]
fn dependency_without_its_outcome_stops_the_generation() {
    let missing = Err(ClinkError::InternalConsistency("A dependency has no descriptor".into()));
    let p = project("P", ProjectClass::Library, &[("d", "/d"), ("cfg", "/vendor/cfg.toml")]);
    let go = |outcomes: Vec<Outcome>| {
        generate_vcxproj(&p, "/p", &Vec::new(), &Vec::new(), &outcomes).map(|g| g.desc.name)
    };
    assert_eq!(go(vec![]), missing);
    assert_eq!(go(vec![Outcome::Referred(reference("D", &[]))]), missing);
    assert_eq!(go(vec![Outcome::External, Outcome::External]), missing);
    assert_eq!(go(vec![Outcome::Referred(reference("D", &[])), Outcome::PassedOver]), missing);
    assert_eq!(
        go(vec![Outcome::PassedOver, Outcome::External, Outcome::External]),
        missing
    );
    assert_eq!(go(vec![Outcome::Referred(reference("D", &[])), Outcome::External]), Ok("P".to_string()));
    assert_eq!(go(vec![Outcome::PassedOver, Outcome::External]), Ok("P".to_string()));
    let none = project("N", ProjectClass::Library, &[]);
    assert_eq!(
        generate_vcxproj(&none, "/n", &Vec::new(), &Vec::new(), &vec![Outcome::Referred(reference("D", &[]))])
            .map(|g| g.desc.name),
        missing
    );
    let stray = vec!["/elsewhere/x.cpp".to_string()];
    assert_eq!(
        generate_vcxproj(&p, "/p", &Vec::new(), &stray, &Vec::new()).map(|g| g.desc.name),
        missing
    );
    let external = project("X", ProjectClass::External, &[("d", "/d")]);
    assert_eq!(
        generate_vcxproj(&external, "/x", &Vec::new(), &Vec::new(), &Vec::new()).map(|g| g.desc.name),
        Err(ClinkError::InternalConsistency("Cannot generate vcxproj for external dependency".into()))
    );
}

#[test]
fn outcomes_cover_a_project_edge_by_edge() {
    let p = project("P", ProjectClass::Library, &[("d", "/d"), ("cfg", "/vendor/cfg.toml")]);
    assert!(is_covered(&p, &vec![Outcome::PassedOver, Outcome::External]));
    assert!(!is_covered(&p, &vec![Outcome::External, Outcome::PassedOver]));
    assert!(!is_covered(&p, &vec![Outcome::PassedOver]));
    let outcomes = vec![
        Outcome::Referred(reference("A", &["/a"])),
        Outcome::External,
        Outcome::PassedOver,
        Outcome::Referred(reference("B", &[])),
    ];
    assert_eq!(references_of(&outcomes), vec![reference("A", &["/a"]), reference("B", &[])]);
    assert!(references_of(&vec![Outcome::External]).is_empty());
}

#[test]
fn opened_says_what_became_of_the_project() {
    let root = project(
        "App",
        ProjectClass::Application,
        &[("cfg", "/vendor/cfg.toml"), ("sdk", "/sdk"), ("one", "/base"), ("two", "/base")],
    );
    assert_eq!(root.external_edges(), vec!["cfg".to_string()]);
    let mut resolver = Resolver::new(root, "/app".into());
    assert_eq!(resolver.pending(), Action::Open("/sdk".into()));
    assert_eq!(
        resolver.opened(project("Sdk", ProjectClass::External, &[])),
        Ok(Opened::PassedOver)
    );
    assert_eq!(resolver.pending(), Action::Open("/base".into()));
    assert_eq!(resolver.opened(project("Base", ProjectClass::Library, &[])), Ok(Opened::Entered));
    resolver.complete(&Vec::new(), &Vec::new()).unwrap();
    assert_eq!(resolver.pending(), Action::Open("/base".into()));
    assert_eq!(resolver.opened(project("Base", ProjectClass::Library, &[])), Ok(Opened::Known));
    assert!(matches!(resolver.pending(), Action::Scan { .. }));
}

#[test]
fn name_of_a_project_being_resolved_closes_a_cycle_wherever_it_lies() {
    let disk = vec![
        OnDisk { location: "/app", project: project("App", ProjectClass::Application, &[("a", "/one/core")]), files: vec![] },
        OnDisk { location: "/one/core", project: project("Core", ProjectClass::Library, &[("m", "/mid")]), files: vec![] },
        OnDisk { location: "/mid", project: project("Mid", ProjectClass::Library, &[("c", "/two/core")]), files: vec![] },
        OnDisk { location: "/two/core", project: project("Core", ProjectClass::Library, &[]), files: vec![] },
    ];
    assert_eq!(run(&disk, "/app").err(), Some(ClinkError::CyclicDependency("Core".into())));
}

#[test]
fn descriptor_copy_says_the_same() {
    let desc = ProjDesc {
        name: "D".into(),
        vcxproj_path: "/d/D.vcxproj".into(),
        uuid: "id".into(),
        can_includes: vec!["/d/include".into(), "/x".into()],
    };
    assert_eq!(desc.copy(), desc);
}

#[test]
fn resolution_ends_within_the_steps_that_names_and_dependencies_allow() {
    let disk = vec![
        OnDisk {
            location: "/app",
            project: project("App", ProjectClass::Application, &[("ui", "/ui"), ("net", "/net")]),
            files: vec![],
        },
        OnDisk { location: "/ui", project: project("Ui", ProjectClass::Library, &[("base", "/base")]), files: vec![] },
        OnDisk {
            location: "/net",
            project: project("Net", ProjectClass::Library, &[("base", "/base"), ("tls", "/tls")]),
            files: vec![],
        },
        OnDisk { location: "/base", project: project("Base", ProjectClass::Library, &[]), files: vec![] },
        OnDisk { location: "/tls", project: project("Tls", ProjectClass::Library, &[("base", "/base")]), files: vec![] },
    ];
    let different_names = 5;
    let width = 2;
    let bound = (different_names - 1) * (width + 2) + 2 + 1;
    let mut resolver = Resolver::new(copy_of(&disk[0].project), "/app".into());
    let mut steps = 0;
    loop {
        match resolver.pending() {
            Action::Open(path) => {
                let entry = disk.iter().find(|d| d.location == path).unwrap();
                resolver.opened(copy_of(&entry.project)).unwrap();
            }
            Action::Scan { .. } => {
                resolver.complete(&Vec::new(), &Vec::new()).unwrap();
            }
            Action::Finished => break,
        }
        steps += 1;
        assert!(steps <= bound);
    }
    assert_eq!(steps, 11);
    assert_eq!(names(&resolver.descriptors()).len(), 5);
}
