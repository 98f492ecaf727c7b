use clink::visualstudio::vcxprojfile::ProjectConfiguration;
use clink::visualstudio::{ProjDesc, VcxprojFile, VcxprojType};

fn sample(class: VcxprojType) -> VcxprojFile {
    let mut file = VcxprojFile::with_identity(
        "P".into(),
        class,
        "11111111-2222-4333-8444-555555555555".into(),
    );
    file.add_include_path("/p/include".into());
    file.add_include_path("/d/include".into());
    file.add_compile("/p/src/a.cpp".into());
    file.add_include("/p/include/a.h".into());
    file.add_reference(ProjDesc {
        name: "D".into(),
        vcxproj_path: "/d/D.vcxproj".into(),
        uuid: "aaaaaaaa-bbbb-4ccc-8ddd-eeeeeeeeeeee".into(),
        can_includes: vec!["/d/include".into()],
    });
    file
}

fn text_of(file: &VcxprojFile) -> String {
    String::from_utf8(file.generate()).unwrap()
}

#[test]
fn project_file_opens_with_the_msbuild_project() {
    let text = text_of(&sample(VcxprojType::StaticLibrary));
    assert!(text.starts_with(
        "<?xml version=\"1.0\" encoding=\"UTF-8\"?>\n<Project DefaultTargets=\"Build\" ToolsVersion=\"14.0\" xmlns=\"http://schemas.microsoft.com/developer/msbuild/2003\">\n  <ItemGroup Label=\"ProjectConfigurations\">\n"
    ));
    assert!(text.ends_with(
        "  <Import Project=\"$(VCTargetsPath)\\Microsoft.Cpp.targets\" />\n</Project>"
    ));
}

#[test]
fn project_file_declares_the_four_variants() {
    let text = text_of(&sample(VcxprojType::StaticLibrary));
    assert_eq!(text.matches("<ProjectConfiguration Include=").count(), 4);
    for (configuration, platform) in
        [("Debug", "Win32"), ("Release", "Win32"), ("Debug", "x64"), ("Release", "x64")]
    {
        let declaration = format!(
            "    <ProjectConfiguration Include=\"{c}|{p}\">\n      <Configuration>{c}</Configuration>\n      <Platform>{p}</Platform>\n    </ProjectConfiguration>\n",
            c = configuration,
            p = platform
        );
        assert_eq!(text.matches(&declaration).count(), 1);
        let condition = format!(
            "Condition=\"&apos;$(Configuration)|$(Platform)&apos;==&apos;{}|{}&apos;\"",
            configuration, platform
        );
        assert_eq!(text.matches(&condition).count(), 4);
    }
    let order: Vec<usize> = ["Debug|Win32", "Release|Win32", "Debug|x64", "Release|x64"]
        .iter()
        .map(|label| text.find(&format!("Include=\"{}\"", label)).unwrap())
        .collect();
    assert!(order[0] < order[1] && order[1] < order[2] && order[2] < order[3]);
}

#[test]
fn project_file_states_identity_name_and_kind() {
    let text = text_of(&sample(VcxprojType::StaticLibrary));
    assert!(text.contains(
        "  <PropertyGroup Label=\"Globals\">\n    <ProjectGuid>{11111111-2222-4333-8444-555555555555}</ProjectGuid>\n    <RootNamespace>P</RootNamespace>\n    <WindowsTargetPlatformVersion>8.1</WindowsTargetPlatformVersion>\n  </PropertyGroup>\n"
    ));
    assert_eq!(text.matches("<ConfigurationType>StaticLibrary</ConfigurationType>").count(), 4);
    assert_eq!(text.matches("<ConfigurationType>Application</ConfigurationType>").count(), 0);
    let app = text_of(&sample(VcxprojType::Application));
    assert_eq!(app.matches("<ConfigurationType>Application</ConfigurationType>").count(), 4);
}

#[test]
fn project_file_optimizes_every_variant_but_debug() {
    let text = text_of(&sample(VcxprojType::StaticLibrary));
    assert_eq!(text.matches("<UseDebugLibraries>true</UseDebugLibraries>").count(), 2);
    assert_eq!(text.matches("<UseDebugLibraries>false</UseDebugLibraries>").count(), 2);
    assert_eq!(text.matches("<WholeProgramOptimization>true</WholeProgramOptimization>").count(), 2);
    assert_eq!(text.matches("<Optimization>Disabled</Optimization>").count(), 2);
    assert_eq!(text.matches("<Optimization>MaxSpeed</Optimization>").count(), 2);
    assert_eq!(text.matches("<FunctionLevelLinking>true</FunctionLevelLinking>").count(), 2);
    assert_eq!(text.matches("<Link>").count(), 2);
    assert_eq!(text.matches("<PlatformToolset>v140</PlatformToolset>").count(), 4);
    assert_eq!(text.matches("<CharacterSet>MultiByte</CharacterSet>").count(), 4);
    assert_eq!(text.matches("<WarningLevel>Level3</WarningLevel>").count(), 4);
    assert_eq!(text.matches("<SDLCheck>true</SDLCheck>").count(), 4);
    assert!(text.contains(
        "  <PropertyGroup Condition=\"&apos;$(Configuration)|$(Platform)&apos;==&apos;Debug|Win32&apos;\" Label=\"Configuration\">\n    <ConfigurationType>StaticLibrary</ConfigurationType>\n    <UseDebugLibraries>true</UseDebugLibraries>\n    <PlatformToolset>v140</PlatformToolset>\n    <CharacterSet>MultiByte</CharacterSet>\n  </PropertyGroup>\n"
    ));
    assert!(text.contains(
        "  <PropertyGroup Condition=\"&apos;$(Configuration)|$(Platform)&apos;==&apos;Release|x64&apos;\" Label=\"Configuration\">\n    <ConfigurationType>StaticLibrary</ConfigurationType>\n    <UseDebugLibraries>false</UseDebugLibraries>\n    <PlatformToolset>v140</PlatformToolset>\n    <WholeProgramOptimization>true</WholeProgramOptimization>\n    <CharacterSet>MultiByte</CharacterSet>\n  </PropertyGroup>\n"
    ));
}

#[test]
fn project_file_imports_sheets_in_order() {
    let text = text_of(&sample(VcxprojType::StaticLibrary));
    let defaults = text.find("<Import Project=\"$(VCTargetsPath)\\Microsoft.Cpp.Default.props\" />").unwrap();
    let first_properties = text.find("Label=\"Configuration\"").unwrap();
    let props = text.find("<Import Project=\"$(VCTargetsPath)\\Microsoft.Cpp.props\" />").unwrap();
    let sheets = text.find("<ImportGroup Label=\"PropertySheets\"").unwrap();
    let build = text.find("<IncludePath>").unwrap();
    let definitions = text.find("<ItemDefinitionGroup").unwrap();
    let targets = text.find("<Import Project=\"$(VCTargetsPath)\\Microsoft.Cpp.targets\" />").unwrap();
    assert!(defaults < first_properties);
    assert!(first_properties < props);
    assert!(props < sheets);
    assert!(sheets < build);
    assert!(build < definitions);
    assert!(definitions < targets);
    assert_eq!(
        text.matches(
            "    <Import Project=\"$(UserRootDir)\\Microsoft.Cpp.$(Platform).user.props\" Condition=\"exists(&apos;$(UserRootDir)\\Microsoft.Cpp.$(Platform).user.props&apos;)\" Label=\"LocalAppDataPlatform\" />\n"
        )
        .count(),
        4
    );
}

#[test]
fn project_file_looks_for_headers_in_every_directory_given() {
    let text = text_of(&sample(VcxprojType::StaticLibrary));
    assert_eq!(
        text.matches("<IncludePath>/p/include;/d/include;$(IncludePath)</IncludePath>").count(),
        4
    );
    let bare = VcxprojFile::with_identity("B".into(), VcxprojType::Application, "id".into());
    assert_eq!(bare.include_path_value(), "$(IncludePath)");
    assert_eq!(text_of(&bare).matches("<IncludePath>$(IncludePath)</IncludePath>").count(), 4);
}

#[test]
fn project_file_lists_files_and_references() {
    let text = text_of(&sample(VcxprojType::StaticLibrary));
    assert!(text.contains(
        "  <ItemGroup>\n    <ClCompile Include=\"/p/src/a.cpp\" />\n  </ItemGroup>\n  <ItemGroup>\n    <ClInclude Include=\"/p/include/a.h\" />\n  </ItemGroup>\n  <ItemGroup>\n    <ProjectReference Include=\"/d/D.vcxproj\">\n      <Project>aaaaaaaa-bbbb-4ccc-8ddd-eeeeeeeeeeee</Project>\n    </ProjectReference>\n  </ItemGroup>\n"
    ));
    assert_eq!(text.matches("<ClCompile Include=").count(), 1);
    assert_eq!(text.matches("<ClInclude Include=").count(), 1);
    assert_eq!(text.matches("<ProjectReference Include=").count(), 1);
}

#[test]
fn project_file_without_files_has_empty_groups() {
    let bare = VcxprojFile::with_identity("B".into(), VcxprojType::Application, "id".into());
    let text = text_of(&bare);
    assert!(text.contains("  <ItemGroup />\n  <ItemGroup />\n  <ItemGroup />\n  <Import"));
}

#[test]
fn new_project_file_has_a_fresh_identity() {
    let one = VcxprojFile::new("P".into(), VcxprojType::Application);
    let other = VcxprojFile::new("P".into(), VcxprojType::Application);
    assert_eq!(one.name, "P");
    assert_eq!(one.class, VcxprojType::Application);
    assert!(one.include_path.is_empty() && one.compile_files.is_empty());
    assert!(one.include_files.is_empty() && one.references.is_empty());
    assert_eq!(one.uuid.len(), 36);
    assert_eq!(one.uuid.matches('-').count(), 4);
    assert_eq!(&one.uuid[14..15], "4");
    assert_ne!(one.uuid, other.uuid);
}

#[test]
fn write_to_describes_the_project_file() {
    let file = sample(VcxprojType::StaticLibrary);
    let (desc, bytes) =
        file.write_to("/p/P.vcxproj".into(), vec!["/p/include".to_string()]);
    assert_eq!(desc.name, "P");
    assert_eq!(desc.vcxproj_path, "/p/P.vcxproj");
    assert_eq!(desc.uuid, "11111111-2222-4333-8444-555555555555");
    assert_eq!(desc.can_includes, vec!["/p/include".to_string()]);
    assert_eq!(bytes, file.generate());
}

#[test]
fn variants_are_labelled_by_configuration_and_platform() {
    let configs = VcxprojFile::get_configurations();
    let labels: Vec<String> = configs.iter().map(|c| c.full_name()).collect();
    assert_eq!(labels, vec!["Debug|Win32", "Release|Win32", "Debug|x64", "Release|x64"]);
    assert!(configs[0].is_debug() && !configs[0].is_optimized());
    assert!(!configs[1].is_debug() && configs[1].is_optimized());
    assert_eq!(
        configs[3].condition_text(),
        "'$(Configuration)|$(Platform)'=='Release|x64'"
    );
    let other = ProjectConfiguration { configuration: "Profile".into(), platform: "ARM".into() };
    assert!(other.is_optimized());
    assert_eq!(other.full_name(), "Profile|ARM");
}

#[test]
fn kinds_are_named_as_msbuild_names_them() {
    assert_eq!(VcxprojType::Application.name(), "Application");
    assert_eq!(VcxprojType::StaticLibrary.name(), "StaticLibrary");
}

#[test]
fn identity_is_handed_out_as_it_is_held() {
    let file = sample(VcxprojType::Application);
    assert_eq!(file.uuid(), "11111111-2222-4333-8444-555555555555");
}
