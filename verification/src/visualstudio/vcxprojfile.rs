//! The project file of one project.

use vstd::prelude::*;
use crate::text::same_text;
use crate::visualstudio::filters::{braced, in_braces, msbuild_namespace};
use crate::visualstudio::sxml::{close_element, element, indenting_writer, into_bytes, open_depth, open_plain, open_with, open_with2, open_with3, rendering, simple_element, write_simple, written, Markup};
use crate::visualstudio::{fresh_identity, is_identity, ProjDesc};
use xml::writer::EventWriter;

verus! {

/// What a project file builds.
#[derive(Debug, Clone, Copy, PartialEq, Eq, Structural)]
pub enum VcxprojType {
    Application,
    StaticLibrary,
}

impl VcxprojType {
    /// The configuration type as the project file names it.
    pub open spec fn name_text(self) -> Seq<char> {
        match self {
            VcxprojType::Application => "Application"@,
            VcxprojType::StaticLibrary => "StaticLibrary"@,
        }
    }

    /// The configuration type as the project file names it.
    pub fn name(&self) -> (out: String)
        ensures
            out@ == self.name_text(),
    {
        match self {
            VcxprojType::Application => "Application".to_owned(),
            VcxprojType::StaticLibrary => "StaticLibrary".to_owned(),
        }
    }
}

/// One build variant: a configuration on a platform.
#[derive(Debug, Clone, PartialEq, Eq)]
pub struct ProjectConfiguration {
    pub configuration: String,
    pub platform: String,
}

impl ProjectConfiguration {
    /// The label of the variant: configuration, a bar, platform.
    pub open spec fn label(self) -> Seq<char> {
        self.configuration@ + seq!['|'] + self.platform@
    }

    /// Whether the variant is the debug configuration.
    pub open spec fn debug(self) -> bool {
        self.configuration@ == "Debug"@
    }

    /// The condition under which a part of the file holds for this variant.
    pub open spec fn condition(self) -> Seq<char> {
        "'$(Configuration)|$(Platform)'=='"@ + self.label() + seq!['\'']
    }

    /// The label of the variant.
    pub fn full_name(&self) -> (out: String)
        ensures
            out@ == self.label(),
    {
        let mut out = self.configuration.clone();
        out.push('|');
        out.append(self.platform.as_str());
        assert(out@ =~= self.label());
        out
    }

    /// Whether the variant is the debug configuration.
    pub fn is_debug(&self) -> (r: bool)
        ensures
            r == self.debug(),
    {
        same_text(self.configuration.as_str(), "Debug")
    }

    /// Whether the variant is optimized: every variant but debug is.
    pub fn is_optimized(&self) -> (r: bool)
        ensures
            r == !self.debug(),
    {
        !self.is_debug()
    }

    /// The condition under which a part of the file holds for this variant.
    pub fn condition_text(&self) -> (out: String)
        ensures
            out@ == self.condition(),
    {
        let mut out = "'$(Configuration)|$(Platform)'=='".to_owned();
        let label = self.full_name();
        out.append(label.as_str());
        out.push('\'');
        assert(out@ =~= self.condition());
        out
    }
}

/// The parts of a project file that are written once for each variant.
#[derive(Debug, Clone, Copy, PartialEq, Eq, Structural)]
pub enum Section {
    Declaration,
    Properties,
    PropertySheet,
    BuildProperties,
    ItemDefinition,
}

/// The paths of a list, each followed by a semicolon.
pub open spec fn semicolon_list(paths: Seq<String>) -> Seq<char>
    decreases paths.len(),
{
    if paths.len() == 0 {
        Seq::empty()
    } else {
        semicolon_list(paths.drop_last()) + paths.last()@ + seq![';']
    }
}

/// The entries of a list of files under one tag.
pub open spec fn file_items(tag: Seq<char>, files: Seq<String>) -> Seq<Markup>
    decreases files.len(),
{
    if files.len() == 0 {
        Seq::empty()
    } else {
        file_items(tag, files.drop_last()) + element(
            tag,
            seq![("Include"@, files.last()@)],
            Seq::empty(),
        )
    }
}

/// The entry of one referenced project: where its file is, and its identity.
pub open spec fn reference_item(reference: ProjDesc) -> Seq<Markup> {
    element(
        "ProjectReference"@,
        seq![("Include"@, reference.vcxproj_path@)],
        simple_element("Project"@, reference.uuid@),
    )
}

/// The entries of the referenced projects, in order.
pub open spec fn reference_items(references: Seq<ProjDesc>) -> Seq<Markup>
    decreases references.len(),
{
    if references.len() == 0 {
        Seq::empty()
    } else {
        reference_items(references.drop_last()) + reference_item(references.last())
    }
}

/// An import of a property sheet or of targets.
pub open spec fn import_item(project: Seq<char>) -> Seq<Markup> {
    element("Import"@, seq![("Project"@, project)], Seq::empty())
}

/// The sheet of user properties.
pub open spec fn user_props() -> Seq<char> {
    "$(UserRootDir)\\Microsoft.Cpp.$(Platform).user.props"@
}

/// A variant among the variants of the file.
pub open spec fn declaration(c: ProjectConfiguration) -> Seq<Markup> {
    element(
        "ProjectConfiguration"@,
        seq![("Include"@, c.label())],
        simple_element("Configuration"@, c.configuration@) + simple_element(
            "Platform"@,
            c.platform@,
        ),
    )
}

/// The property sheets of a variant.
pub open spec fn property_sheet(c: ProjectConfiguration) -> Seq<Markup> {
    element(
        "ImportGroup"@,
        seq![("Label"@, "PropertySheets"@), ("Condition"@, c.condition())],
        element(
            "Import"@,
            seq![
                ("Project"@, user_props()),
                ("Condition"@, "exists('$(UserRootDir)\\Microsoft.Cpp.$(Platform).user.props')"@),
                ("Label"@, "LocalAppDataPlatform"@),
            ],
            Seq::empty(),
        ),
    )
}

/// How a variant compiles and links.
pub open spec fn item_definition(c: ProjectConfiguration) -> Seq<Markup> {
    element(
        "ItemDefinitionGroup"@,
        seq![("Condition"@, c.condition())],
        element(
            "ClCompile"@,
            Seq::empty(),
            simple_element("WarningLevel"@, "Level3"@) + (if c.debug() {
                simple_element("Optimization"@, "Disabled"@)
            } else {
                simple_element("Optimization"@, "MaxSpeed"@) + simple_element(
                    "FunctionLevelLinking"@,
                    "true"@,
                )
            }) + simple_element("SDLCheck"@, "true"@),
        ) + (if c.debug() {
            Seq::empty()
        } else {
            element(
                "Link"@,
                Seq::empty(),
                simple_element("EnableCOMDATFolding"@, "true"@) + simple_element(
                    "OptimizeReferences"@,
                    "true"@,
                ),
            )
        }),
    )
}

/// A project file in the making.
#[derive(Debug, Clone, PartialEq, Eq)]
pub struct VcxprojFile {
    pub name: String,
    pub class: VcxprojType,
    pub uuid: String,
    pub include_path: Vec<String>,
    pub include_files: Vec<String>,
    pub compile_files: Vec<String>,
    pub references: Vec<ProjDesc>,
}

impl VcxprojFile {
    /// The value of the include path: the directories of the file, then
    /// whatever the environment adds.
    pub open spec fn include_path_text(self) -> Seq<char> {
        semicolon_list(self.include_path@) + "$(IncludePath)"@
    }

    /// The general properties of a variant.
    pub open spec fn properties(self, c: ProjectConfiguration) -> Seq<Markup> {
        element(
            "PropertyGroup"@,
            seq![("Condition"@, c.condition()), ("Label"@, "Configuration"@)],
            simple_element("ConfigurationType"@, self.class.name_text()) + simple_element(
                "UseDebugLibraries"@,
                if c.debug() {
                    "true"@
                } else {
                    "false"@
                },
            ) + simple_element("PlatformToolset"@, "v140"@) + (if c.debug() {
                Seq::empty()
            } else {
                simple_element("WholeProgramOptimization"@, "true"@)
            }) + simple_element("CharacterSet"@, "MultiByte"@),
        )
    }

    /// The build properties of a variant: where headers are looked for.
    pub open spec fn build_properties(self, c: ProjectConfiguration) -> Seq<Markup> {
        element(
            "PropertyGroup"@,
            seq![("Condition"@, c.condition())],
            simple_element("IncludePath"@, self.include_path_text()),
        )
    }

    /// One part of the file for one variant.
    pub open spec fn section(self, part: Section, c: ProjectConfiguration) -> Seq<Markup> {
        match part {
            Section::Declaration => declaration(c),
            Section::Properties => self.properties(c),
            Section::PropertySheet => property_sheet(c),
            Section::BuildProperties => self.build_properties(c),
            Section::ItemDefinition => item_definition(c),
        }
    }

    /// One part of the file for each variant, in order.
    pub open spec fn sections(self, part: Section, configs: Seq<ProjectConfiguration>) -> Seq<
        Markup,
    >
        decreases configs.len(),
    {
        if configs.len() == 0 {
            Seq::empty()
        } else {
            self.sections(part, configs.drop_last()) + self.section(part, configs.last())
        }
    }

    /// The identity, the name and the platform version of the project.
    pub open spec fn globals(self) -> Seq<Markup> {
        element(
            "PropertyGroup"@,
            seq![("Label"@, "Globals"@)],
            simple_element("ProjectGuid"@, braced(self.uuid@)) + simple_element(
                "RootNamespace"@,
                self.name@,
            ) + simple_element("WindowsTargetPlatformVersion"@, "8.1"@),
        )
    }

    /// The variants that the file declares.
    pub open spec fn configurations(self, configs: Seq<ProjectConfiguration>) -> Seq<Markup> {
        element(
            "ItemGroup"@,
            seq![("Label"@, "ProjectConfigurations"@)],
            self.sections(Section::Declaration, configs),
        )
    }

    /// The properties of the file: the defaults, the general properties of
    /// each variant, the common sheet, then the property sheets and the build
    /// properties of each variant.
    pub open spec fn all_properties(self, configs: Seq<ProjectConfiguration>) -> Seq<Markup> {
        import_item("$(VCTargetsPath)\\Microsoft.Cpp.Default.props"@) + self.sections(
            Section::Properties,
            configs,
        ) + import_item("$(VCTargetsPath)\\Microsoft.Cpp.props"@) + self.sections(
            Section::PropertySheet,
            configs,
        ) + self.sections(Section::BuildProperties, configs)
    }

    /// The files of the project: compile units, then headers.
    pub open spec fn files(self) -> Seq<Markup> {
        element("ItemGroup"@, Seq::empty(), file_items("ClCompile"@, self.compile_files@))
            + element("ItemGroup"@, Seq::empty(), file_items("ClInclude"@, self.include_files@))
    }

    /// The projects that this one refers to.
    pub open spec fn references_part(self) -> Seq<Markup> {
        element("ItemGroup"@, Seq::empty(), reference_items(self.references@))
    }

    /// The whole project file, for the given variants.
    pub open spec fn markup(self, configs: Seq<ProjectConfiguration>) -> Seq<Markup> {
        element(
            "Project"@,
            seq![
                ("DefaultTargets"@, "Build"@),
                ("ToolsVersion"@, "14.0"@),
                ("xmlns"@, msbuild_namespace()),
            ],
            self.configurations(configs) + self.globals() + self.all_properties(configs)
                + self.sections(Section::ItemDefinition, configs) + self.files()
                + self.references_part() + import_item("$(VCTargetsPath)\\Microsoft.Cpp.targets"@),
        )
    }

    /// A project file of the given name, kind and identity, with nothing
    /// in it yet.
    pub fn with_identity(name: String, class: VcxprojType, uuid: String) -> (file: VcxprojFile)
        ensures
            file.name == name,
            file.class == class,
            file.uuid == uuid,
            file.include_path@.len() == 0,
            file.include_files@.len() == 0,
            file.compile_files@.len() == 0,
            file.references@.len() == 0,
    {
        VcxprojFile {
            name,
            class,
            uuid,
            include_path: Vec::new(),
            include_files: Vec::new(),
            compile_files: Vec::new(),
            references: Vec::new(),
        }
    }

    /// A project file of the given name and kind, under a fresh identity,
    /// with nothing in it yet.
    pub fn new(name: String, class: VcxprojType) -> (file: VcxprojFile)
        ensures
            file.name == name,
            file.class == class,
            is_identity(file.uuid@),
            file.include_path@.len() == 0,
            file.include_files@.len() == 0,
            file.compile_files@.len() == 0,
            file.references@.len() == 0,
    {
        VcxprojFile::with_identity(name, class, fresh_identity())
    }

    /// The identity of the project.
    pub fn uuid(&self) -> (id: &String)
        ensures
            *id == self.uuid,
    {
        &self.uuid
    }

    /// Adds a directory in which headers are looked for.
    pub fn add_include_path(&mut self, path: String)
        ensures
            final(self).include_path@ == old(self).include_path@.push(path),
            final(self).name == old(self).name,
            final(self).class == old(self).class,
            final(self).uuid == old(self).uuid,
            final(self).include_files == old(self).include_files,
            final(self).compile_files == old(self).compile_files,
            final(self).references == old(self).references,
    {
        self.include_path.push(path);
    }

    /// Adds a header.
    pub fn add_include(&mut self, path: String)
        ensures
            final(self).include_files@ == old(self).include_files@.push(path),
            final(self).name == old(self).name,
            final(self).class == old(self).class,
            final(self).uuid == old(self).uuid,
            final(self).include_path == old(self).include_path,
            final(self).compile_files == old(self).compile_files,
            final(self).references == old(self).references,
    {
        self.include_files.push(path);
    }

    /// Adds a compile unit.
    pub fn add_compile(&mut self, path: String)
        ensures
            final(self).compile_files@ == old(self).compile_files@.push(path),
            final(self).name == old(self).name,
            final(self).class == old(self).class,
            final(self).uuid == old(self).uuid,
            final(self).include_path == old(self).include_path,
            final(self).include_files == old(self).include_files,
            final(self).references == old(self).references,
    {
        self.compile_files.push(path);
    }

    /// Adds a project that this one refers to.
    pub fn add_reference(&mut self, desc: ProjDesc)
        ensures
            final(self).references@ == old(self).references@.push(desc),
            final(self).name == old(self).name,
            final(self).class == old(self).class,
            final(self).uuid == old(self).uuid,
            final(self).include_path == old(self).include_path,
            final(self).include_files == old(self).include_files,
            final(self).compile_files == old(self).compile_files,
    {
        self.references.push(desc);
    }

    /// The four variants of every project.
    pub fn get_configurations() -> (configs: Vec<ProjectConfiguration>)
        ensures
            standard_configurations(configs@),
    {
        let mut configs: Vec<ProjectConfiguration> = Vec::new();
        configs.push(
            ProjectConfiguration { configuration: "Debug".to_owned(), platform: "Win32".to_owned() },
        );
        configs.push(
            ProjectConfiguration {
                configuration: "Release".to_owned(),
                platform: "Win32".to_owned(),
            },
        );
        configs.push(
            ProjectConfiguration { configuration: "Debug".to_owned(), platform: "x64".to_owned() },
        );
        configs.push(
            ProjectConfiguration { configuration: "Release".to_owned(), platform: "x64".to_owned() },
        );
        configs
    }

    /// The value of the include path.
    pub fn include_path_value(&self) -> (out: String)
        ensures
            out@ == self.include_path_text(),
    {
        let mut out = String::new();
        let mut i: usize = 0;
        assert(semicolon_list(self.include_path@.take(0)) =~= out@);
        while i < self.include_path.len()
            invariant
                i <= self.include_path@.len(),
                out@ == semicolon_list(self.include_path@.take(i as int)),
            decreases self.include_path@.len() - i,
        {
            let ghost before = out@;
            out.append(self.include_path[i].as_str());
            out.push(';');
            proof {
                assert(self.include_path@.take(i + 1).drop_last() =~= self.include_path@.take(
                    i as int,
                ));
                assert(out@ =~= before + self.include_path@[i as int]@ + seq![';']);
            }
            i += 1;
        }
        assert(self.include_path@.take(i as int) =~= self.include_path@);
        out.append("$(IncludePath)");
        out
    }

    fn write_configuration(&self, w: &mut EventWriter<Vec<u8>>, config: &ProjectConfiguration)
        requires
            open_depth(written(*old(w))) >= 0,
        ensures
            written(*final(w)) == written(*old(w)) + declaration(*config),
            open_depth(written(*final(w))) == open_depth(written(*old(w))),
    {
        let label = config.full_name();
        open_with(w, "ProjectConfiguration", "Include", label.as_str());
        write_simple(w, "Configuration", config.configuration.as_str());
        write_simple(w, "Platform", config.platform.as_str());
        close_element(w);
        assert(written(*w) =~= written(*old(w)) + declaration(*config));
    }

    fn write_config_properties(&self, w: &mut EventWriter<Vec<u8>>, config: &ProjectConfiguration)
        requires
            open_depth(written(*old(w))) >= 0,
        ensures
            written(*final(w)) == written(*old(w)) + self.properties(*config),
            open_depth(written(*final(w))) == open_depth(written(*old(w))),
    {
        let condition = config.condition_text();
        open_with2(w, "PropertyGroup", "Condition", condition.as_str(), "Label", "Configuration");
        let kind = self.class.name();
        write_simple(w, "ConfigurationType", kind.as_str());
        if config.is_debug() {
            write_simple(w, "UseDebugLibraries", "true");
        } else {
            write_simple(w, "UseDebugLibraries", "false");
        }
        write_simple(w, "PlatformToolset", "v140");
        if config.is_optimized() {
            write_simple(w, "WholeProgramOptimization", "true");
        }
        write_simple(w, "CharacterSet", "MultiByte");
        close_element(w);
        assert(written(*w) =~= written(*old(w)) + self.properties(*config));
    }

    fn write_config_property_sheet(
        &self,
        w: &mut EventWriter<Vec<u8>>,
        config: &ProjectConfiguration,
    )
        requires
            open_depth(written(*old(w))) >= 0,
        ensures
            written(*final(w)) == written(*old(w)) + property_sheet(*config),
            open_depth(written(*final(w))) == open_depth(written(*old(w))),
    {
        let condition = config.condition_text();
        open_with2(w, "ImportGroup", "Label", "PropertySheets", "Condition", condition.as_str());
        open_with3(
            w,
            "Import",
            "Project",
            "$(UserRootDir)\\Microsoft.Cpp.$(Platform).user.props",
            "Condition",
            "exists('$(UserRootDir)\\Microsoft.Cpp.$(Platform).user.props')",
            "Label",
            "LocalAppDataPlatform",
        );
        close_element(w);
        close_element(w);
        assert(written(*w) =~= written(*old(w)) + property_sheet(*config));
    }

    fn write_config_build_properties(
        &self,
        w: &mut EventWriter<Vec<u8>>,
        config: &ProjectConfiguration,
    )
        requires
            open_depth(written(*old(w))) >= 0,
        ensures
            written(*final(w)) == written(*old(w)) + self.build_properties(*config),
            open_depth(written(*final(w))) == open_depth(written(*old(w))),
    {
        let path = self.include_path_value();
        let condition = config.condition_text();
        open_with(w, "PropertyGroup", "Condition", condition.as_str());
        write_simple(w, "IncludePath", path.as_str());
        close_element(w);
        assert(written(*w) =~= written(*old(w)) + self.build_properties(*config));
    }

    fn write_item_definition(&self, w: &mut EventWriter<Vec<u8>>, config: &ProjectConfiguration)
        requires
            open_depth(written(*old(w))) >= 0,
        ensures
            written(*final(w)) == written(*old(w)) + item_definition(*config),
            open_depth(written(*final(w))) == open_depth(written(*old(w))),
    {
        let condition = config.condition_text();
        open_with(w, "ItemDefinitionGroup", "Condition", condition.as_str());
        open_plain(w, "ClCompile");
        write_simple(w, "WarningLevel", "Level3");
        if config.is_optimized() {
            write_simple(w, "Optimization", "MaxSpeed");
            write_simple(w, "FunctionLevelLinking", "true");
        } else {
            write_simple(w, "Optimization", "Disabled");
        }
        write_simple(w, "SDLCheck", "true");
        close_element(w);
        if config.is_optimized() {
            open_plain(w, "Link");
            write_simple(w, "EnableCOMDATFolding", "true");
            write_simple(w, "OptimizeReferences", "true");
            close_element(w);
        }
        close_element(w);
        assert(written(*w) =~= written(*old(w)) + item_definition(*config));
    }

    fn write_section(
        &self,
        w: &mut EventWriter<Vec<u8>>,
        part: Section,
        config: &ProjectConfiguration,
    )
        requires
            open_depth(written(*old(w))) >= 0,
        ensures
            written(*final(w)) == written(*old(w)) + self.section(part, *config),
            open_depth(written(*final(w))) == open_depth(written(*old(w))),
    {
        match part {
            Section::Declaration => self.write_configuration(w, config),
            Section::Properties => self.write_config_properties(w, config),
            Section::PropertySheet => self.write_config_property_sheet(w, config),
            Section::BuildProperties => self.write_config_build_properties(w, config),
            Section::ItemDefinition => self.write_item_definition(w, config),
        }
    }

    fn write_sections(
        &self,
        w: &mut EventWriter<Vec<u8>>,
        part: Section,
        configs: &Vec<ProjectConfiguration>,
    )
        requires
            open_depth(written(*old(w))) >= 0,
        ensures
            written(*final(w)) == written(*old(w)) + self.sections(part, configs@),
            open_depth(written(*final(w))) == open_depth(written(*old(w))),
    {
        let ghost start = written(*w);
        let mut i: usize = 0;
        assert(start + self.sections(part, configs@.take(0)) =~= start);
        while i < configs.len()
            invariant
                i <= configs@.len(),
                open_depth(start) >= 0,
                written(*w) == start + self.sections(part, configs@.take(i as int)),
                open_depth(written(*w)) == open_depth(start),
            decreases configs@.len() - i,
        {
            self.write_section(w, part, &configs[i]);
            proof {
                assert(configs@.take(i + 1).drop_last() =~= configs@.take(i as int));
                assert(written(*w) =~= start + self.sections(part, configs@.take(i + 1)));
            }
            i += 1;
        }
        assert(configs@.take(i as int) =~= configs@);
    }

    fn write_configurations(&self, w: &mut EventWriter<Vec<u8>>, configs: &Vec<ProjectConfiguration>)
        requires
            open_depth(written(*old(w))) >= 0,
        ensures
            written(*final(w)) == written(*old(w)) + self.configurations(configs@),
            open_depth(written(*final(w))) == open_depth(written(*old(w))),
    {
        open_with(w, "ItemGroup", "Label", "ProjectConfigurations");
        self.write_sections(w, Section::Declaration, configs);
        close_element(w);
        assert(written(*w) =~= written(*old(w)) + self.configurations(configs@));
    }

    fn write_globals(&self, w: &mut EventWriter<Vec<u8>>)
        requires
            open_depth(written(*old(w))) >= 0,
        ensures
            written(*final(w)) == written(*old(w)) + self.globals(),
            open_depth(written(*final(w))) == open_depth(written(*old(w))),
    {
        open_with(w, "PropertyGroup", "Label", "Globals");
        let uuid = in_braces(self.uuid.as_str());
        write_simple(w, "ProjectGuid", uuid.as_str());
        write_simple(w, "RootNamespace", self.name.as_str());
        write_simple(w, "WindowsTargetPlatformVersion", "8.1");
        close_element(w);
        assert(written(*w) =~= written(*old(w)) + self.globals());
    }

    fn write_import(&self, w: &mut EventWriter<Vec<u8>>, project: &str)
        requires
            open_depth(written(*old(w))) >= 0,
        ensures
            written(*final(w)) == written(*old(w)) + import_item(project@),
            open_depth(written(*final(w))) == open_depth(written(*old(w))),
    {
        open_with(w, "Import", "Project", project);
        close_element(w);
        assert(written(*w) =~= written(*old(w)) + import_item(project@));
    }

    fn write_properties(&self, w: &mut EventWriter<Vec<u8>>, configs: &Vec<ProjectConfiguration>)
        requires
            open_depth(written(*old(w))) >= 0,
        ensures
            written(*final(w)) == written(*old(w)) + self.all_properties(configs@),
            open_depth(written(*final(w))) == open_depth(written(*old(w))),
    {
        self.write_import(w, "$(VCTargetsPath)\\Microsoft.Cpp.Default.props");
        self.write_sections(w, Section::Properties, configs);
        self.write_import(w, "$(VCTargetsPath)\\Microsoft.Cpp.props");
        self.write_sections(w, Section::PropertySheet, configs);
        self.write_sections(w, Section::BuildProperties, configs);
        assert(written(*w) =~= written(*old(w)) + self.all_properties(configs@));
    }

    fn write_item_definitions(
        &self,
        w: &mut EventWriter<Vec<u8>>,
        configs: &Vec<ProjectConfiguration>,
    )
        requires
            open_depth(written(*old(w))) >= 0,
        ensures
            written(*final(w)) == written(*old(w)) + self.sections(
                Section::ItemDefinition,
                configs@,
            ),
            open_depth(written(*final(w))) == open_depth(written(*old(w))),
    {
        self.write_sections(w, Section::ItemDefinition, configs);
    }

    fn write_file_items(w: &mut EventWriter<Vec<u8>>, tag: &str, files: &Vec<String>)
        requires
            open_depth(written(*old(w))) >= 0,
        ensures
            written(*final(w)) == written(*old(w)) + file_items(tag@, files@),
            open_depth(written(*final(w))) == open_depth(written(*old(w))),
    {
        let ghost start = written(*w);
        let mut i: usize = 0;
        assert(start + file_items(tag@, files@.take(0)) =~= start);
        while i < files.len()
            invariant
                i <= files@.len(),
                open_depth(start) >= 0,
                written(*w) == start + file_items(tag@, files@.take(i as int)),
                open_depth(written(*w)) == open_depth(start),
            decreases files@.len() - i,
        {
            open_with(w, tag, "Include", files[i].as_str());
            close_element(w);
            proof {
                assert(files@.take(i + 1).drop_last() =~= files@.take(i as int));
                assert(written(*w) =~= start + file_items(tag@, files@.take(i + 1)));
            }
            i += 1;
        }
        assert(files@.take(i as int) =~= files@);
    }

    fn write_files(&self, w: &mut EventWriter<Vec<u8>>)
        requires
            open_depth(written(*old(w))) >= 0,
        ensures
            written(*final(w)) == written(*old(w)) + self.files(),
            open_depth(written(*final(w))) == open_depth(written(*old(w))),
    {
        open_plain(w, "ItemGroup");
        VcxprojFile::write_file_items(w, "ClCompile", &self.compile_files);
        close_element(w);
        open_plain(w, "ItemGroup");
        VcxprojFile::write_file_items(w, "ClInclude", &self.include_files);
        close_element(w);
        assert(written(*w) =~= written(*old(w)) + self.files());
    }

    fn write_references(&self, w: &mut EventWriter<Vec<u8>>)
        requires
            open_depth(written(*old(w))) >= 0,
        ensures
            written(*final(w)) == written(*old(w)) + self.references_part(),
            open_depth(written(*final(w))) == open_depth(written(*old(w))),
    {
        open_plain(w, "ItemGroup");
        let ghost start = written(*w);
        let mut i: usize = 0;
        assert(start + reference_items(self.references@.take(0)) =~= start);
        while i < self.references.len()
            invariant
                i <= self.references@.len(),
                open_depth(start) >= 1,
                written(*w) == start + reference_items(self.references@.take(i as int)),
                open_depth(written(*w)) == open_depth(start),
            decreases self.references@.len() - i,
        {
            open_with(w, "ProjectReference", "Include", self.references[i].vcxproj_path.as_str());
            write_simple(w, "Project", self.references[i].uuid.as_str());
            close_element(w);
            proof {
                assert(self.references@.take(i + 1).drop_last() =~= self.references@.take(
                    i as int,
                ));
                assert(written(*w) =~= start + reference_items(self.references@.take(i + 1)));
            }
            i += 1;
        }
        assert(self.references@.take(i as int) =~= self.references@);
        close_element(w);
        assert(written(*w) =~= written(*old(w)) + self.references_part());
    }

    /// The project file as bytes.
    pub fn generate(&self) -> (bytes: Vec<u8>)
        ensures
            exists|configs: Seq<ProjectConfiguration>|
                standard_configurations(configs) && bytes@ == rendering(self.markup(configs)),
    {
        let mut w = indenting_writer();
        assert(open_depth(written(w)) == 0);
        open_with3(
            &mut w,
            "Project",
            "DefaultTargets",
            "Build",
            "ToolsVersion",
            "14.0",
            "xmlns",
            "http://schemas.microsoft.com/developer/msbuild/2003",
        );
        let configs = VcxprojFile::get_configurations();
        self.write_configurations(&mut w, &configs);
        self.write_globals(&mut w);
        self.write_properties(&mut w, &configs);
        self.write_item_definitions(&mut w, &configs);
        self.write_files(&mut w);
        self.write_references(&mut w);
        self.write_import(&mut w, "$(VCTargetsPath)\\Microsoft.Cpp.targets");
        close_element(&mut w);
        assert(written(w) =~= self.markup(configs@));
        into_bytes(w)
    }

    /// What is to be written to `target`, and the descriptor of the project
    /// for those that depend on it, which exports the directories `exports`.
    pub fn write_to(&self, target: String, exports: Vec<String>) -> (r: (ProjDesc, Vec<u8>))
        ensures
            r.0.name == self.name,
            r.0.vcxproj_path == target,
            r.0.uuid == self.uuid,
            r.0.can_includes == exports,
            exists|configs: Seq<ProjectConfiguration>|
                standard_configurations(configs) && r.1@ == rendering(self.markup(configs)),
    {
        let data = self.generate();
        let desc = ProjDesc {
            name: self.name.clone(),
            vcxproj_path: target,
            uuid: self.uuid.clone(),
            can_includes: exports,
        };
        (desc, data)
    }
}

/// The four variants of every project: debug and release, each for Win32
/// and for x64.
pub open spec fn standard_configurations(configs: Seq<ProjectConfiguration>) -> bool {
    &&& configs.len() == 4
    &&& configs[0].configuration@ == "Debug"@
    &&& configs[0].platform@ == "Win32"@
    &&& configs[1].configuration@ == "Release"@
    &&& configs[1].platform@ == "Win32"@
    &&& configs[2].configuration@ == "Debug"@
    &&& configs[2].platform@ == "x64"@
    &&& configs[3].configuration@ == "Release"@
    &&& configs[3].platform@ == "x64"@
}

} // verus!
