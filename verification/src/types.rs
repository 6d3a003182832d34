//! Shared data types: tool definitions, scan results, projects and source files.
//!
//! These are the values the checker, scanners and commands exchange with
//! their callers.
use vstd::prelude::*;


verus! {

/// A single binary installation of a tool discovered on the machine.
#[derive(Clone, Debug)]
pub struct ToolInstallation {
    /// Absolute path to the binary.
    pub path: String,
    /// Version reported by the binary, if it could be parsed.
    pub version: Option<String>,
    /// How this copy was installed.
    pub source: InstallationSource,
    /// `true` for the copy that is tracked (by default the first on PATH).
    pub is_active: bool,
}

/// Where an installation came from.
#[derive(Clone, Copy, Debug, PartialEq, Eq, Structural)]
pub enum InstallationSource {
    System,
    Homebrew,
    Nvm,
    Pyenv,
    Asdf,
    Volta,
    Conda,
    Rustup,
    Unknown,
}

/// The label of an installation source.
pub open spec fn source_label(s: InstallationSource) -> Seq<char> {
    match s {
        InstallationSource::System => "system"@,
        InstallationSource::Homebrew => "homebrew"@,
        InstallationSource::Nvm => "nvm"@,
        InstallationSource::Pyenv => "pyenv"@,
        InstallationSource::Asdf => "asdf"@,
        InstallationSource::Volta => "volta"@,
        InstallationSource::Conda => "conda"@,
        InstallationSource::Rustup => "rustup"@,
        InstallationSource::Unknown => "unknown"@,
    }
}

impl InstallationSource {
    /// The lower-case label of this source, e.g. `"homebrew"`.
    pub fn label(self) -> (r: &'static str)
        ensures
            r@ == source_label(self),
    {
        match self {
            InstallationSource::System => "system",
            InstallationSource::Homebrew => "homebrew",
            InstallationSource::Nvm => "nvm",
            InstallationSource::Pyenv => "pyenv",
            InstallationSource::Asdf => "asdf",
            InstallationSource::Volta => "volta",
            InstallationSource::Conda => "conda",
            InstallationSource::Rustup => "rustup",
            InstallationSource::Unknown => "unknown",
        }
    }
}

/// Result of scanning a single tool on the local machine.
#[derive(Clone, Debug)]
pub struct ToolStatus {
    /// Stable identifier, e.g. `"node"`.
    pub name: String,
    /// Human-friendly label, e.g. `"Node.js"`.
    pub display_name: String,
    /// Category used for grouping.
    pub category: ToolCategory,
    /// Emoji used as a lightweight icon.
    pub icon: String,
    /// Accent color (hex).
    pub color: String,
    /// Version of the active (or user-selected) installation.
    pub installed_version: Option<String>,
    /// Latest published version, if known.
    pub latest_version: Option<String>,
    /// `true` when the installed version is older than the latest one.
    pub is_outdated: bool,
    /// Path of the active installation.
    pub path: Option<String>,
    /// Every installation discovered on the machine.
    pub installations: Vec<ToolInstallation>,
    /// Unix timestamp (seconds) of the check.
    pub checked_at: i64,
    /// Why the tool could not be detected or checked.
    pub error: Option<String>,
}

/// A reading of the system clock against the Unix epoch: the whole seconds
/// and the nanoseconds beyond them, after or before the epoch.
#[derive(Clone, Copy, Debug, PartialEq, Eq, Structural)]
pub enum ClockReading {
    After(u64, u32),
    Before(u64, u32),
}

/// The system clock against the Unix epoch: std's
/// `SystemTime::now().duration_since(UNIX_EPOCH)`, the duration of the `Ok`
/// (after the epoch) or of the error (before it) in whole seconds and
/// nanoseconds.
///
/// Nothing is stated of the value: it is the wall clock.
#[verifier::external_body]
pub(crate) fn clock_reading() -> ClockReading {
    match std::time::SystemTime::now().duration_since(std::time::UNIX_EPOCH) {
        Ok(d) => ClockReading::After(d.as_secs(), d.subsec_nanos()),
        Err(e) => ClockReading::Before(e.duration().as_secs(), e.duration().subsec_nanos()),
    }
}

/// A clock reading as a Unix timestamp, the whole seconds rounded down (a
/// moment before the epoch is negative); `None` when that does not fit in
/// `i64`.
pub open spec fn timestamp_of(reading: ClockReading) -> Option<i64> {
    match reading {
        ClockReading::After(s, _) => if s <= i64::MAX {
            Some(s as i64)
        } else {
            None
        },
        ClockReading::Before(s, ns) => {
            let t = -(s as int) - if ns > 0 {
                1int
            } else {
                0int
            };
            if t >= i64::MIN {
                Some(t as i64)
            } else {
                None
            }
        },
    }
}

/// The timestamp of a clock reading.
pub fn timestamp_from(reading: ClockReading) -> (r: Option<i64>)
    ensures
        r == timestamp_of(reading),
{
    match reading {
        ClockReading::After(s, _) => if s <= 9_223_372_036_854_775_807u64 {
            Some(s as i64)
        } else {
            None
        },
        ClockReading::Before(s, ns) => {
            let extra: u64 = if ns > 0 { 1 } else { 0 };
            if s <= 9_223_372_036_854_775_807u64 {
                let back = s as i64;
                Some(-back - extra as i64)
            } else if s == 9_223_372_036_854_775_808u64 && extra == 0 {
                Some(-9_223_372_036_854_775_807i64 - 1)
            } else {
                None
            }
        },
    }
}

/// The current Unix time in whole seconds by the system clock, rounded
/// down, negative before the epoch (`0` in the case, which no clock reaches,
/// of a time beyond `i64`). Which moment the clock reads is not stated.
pub fn current_timestamp() -> i64 {
    match timestamp_from(clock_reading()) {
        Some(t) => t,
        None => 0,
    }
}

/// The text of an optional string.
pub open spec fn opt_view(o: Option<String>) -> Option<Seq<char>> {
    match o {
        Some(s) => Some(s@),
        None => None,
    }
}

/// A copy of an optional string.
pub fn clone_opt(o: &Option<String>) -> (r: Option<String>)
    ensures
        r == *o,
        opt_view(r) == opt_view(*o),
{
    match o {
        Some(s) => Some(s.clone()),
        None => None,
    }
}

/// The identifying fields of a status are those of the definition it describes.
pub open spec fn status_describes(s: ToolStatus, d: ToolDefinition) -> bool {
    &&& s.name@ == d.name@
    &&& s.display_name@ == d.display_name@
    &&& s.category == d.category
    &&& s.icon@ == d.icon@
    &&& s.color@ == d.color@
}

impl ToolStatus {
    /// A status for a tool that is not installed, recording `reason`,
    /// checked at `now` (Unix seconds).
    pub fn missing_at(definition: &ToolDefinition, reason: String, now: i64) -> (r: ToolStatus)
        ensures
            status_describes(r, *definition),
            r.installed_version is None,
            r.latest_version is None,
            !r.is_outdated,
            r.path is None,
            r.installations@.len() == 0,
            r.checked_at == now,
            opt_view(r.error) == Some(reason@),
    {
        ToolStatus {
            name: definition.name.clone(),
            display_name: definition.display_name.clone(),
            category: definition.category,
            icon: definition.icon.clone(),
            color: definition.color.clone(),
            installed_version: None,
            latest_version: None,
            is_outdated: false,
            path: None,
            installations: Vec::new(),
            checked_at: now,
            error: Some(reason),
        }
    }

    /// Mark this tool as not installed and record the reason, stamped with
    /// the current time.
    pub fn missing(definition: &ToolDefinition, reason: String) -> (r: ToolStatus)
        ensures
            status_describes(r, *definition),
            r.installed_version is None,
            r.latest_version is None,
            !r.is_outdated,
            r.path is None,
            r.installations@.len() == 0,
            opt_view(r.error) == Some(reason@),
    {
        let now = current_timestamp();
        Self::missing_at(definition, reason, now)
    }
}

/// High-level grouping for dashboard filters.
#[derive(Clone, Copy, Debug, PartialEq, Eq, Structural)]
pub enum ToolCategory {
    /// JavaScript / TypeScript runtimes & package managers.
    JavaScript,
    /// Python runtime & tooling.
    Python,
    /// Rust toolchain.
    Rust,
    /// Systems languages (Zig, Go, Swift).
    Systems,
    /// JVM / .NET / other runtimes.
    Runtime,
    /// Container / infra tooling.
    Infra,
    /// System package managers.
    PackageManager,
    /// Version managers.
    VersionManager,
}

/// Declarative definition of a tool: how to detect it and parse its version.
#[derive(Clone, Debug)]
pub struct ToolDefinition {
    pub name: String,
    pub display_name: String,
    pub category: ToolCategory,
    pub icon: String,
    pub color: String,
    /// Executable name resolved on PATH.
    pub binary: String,
    /// Arguments appended to `binary`.
    pub args: Vec<String>,
    /// Strategy used to extract a version string from the output.
    pub parser: VersionParser,
    /// How to look up the latest published version.
    pub latest: LatestSource,
    /// Optional source of globally installed packages.
    pub packages: Option<PackageSource>,
    /// Whether every installation on the machine is enumerated.
    pub detect_versions: bool,
    /// Commands for install / uninstall / upgrade, when the tool can be managed.
    pub actions: Option<ToolActions>,
}

/// Pluggable version-string extractor.
#[derive(Clone, Debug)]
pub enum VersionParser {
    /// Take the first numeric token of the output.
    FirstNumeric,
    /// Strip a leading prefix (repeatedly), then take the first numeric token.
    StripPrefix { prefix: String },
}

/// Source of truth for the latest version of a tool.
#[derive(Clone, Debug)]
pub enum LatestSource {
    /// No lookup: the latest version is not tracked.
    NoLookup,
    /// JSON endpoint and a pointer path into the document.
    Json { url: String, pointer: Vec<String> },
    /// GitHub releases API for `owner/repo`.
    GitHub { repo: String },
}

/// How to enumerate globally installed packages for a tool.
#[derive(Clone, Copy, Debug, PartialEq, Eq, Structural)]
pub enum PackageSource {
    NpmGlobal,
    CargoInstall,
    PipList,
    GoModules,
    BunGlobal,
    GemList,
    ComposerGlobal,
    BrewList,
    DenoModules,
}

/// How to install / uninstall / upgrade a tool itself: the argv of each.
#[derive(Clone, Debug)]
pub struct ToolActions {
    pub install: Vec<String>,
    pub uninstall: Vec<String>,
    pub upgrade: Vec<String>,
}

impl ToolActions {
    /// Whether no action has a command.
    pub fn is_empty(&self) -> (r: bool)
        ensures
            r == (self.install@.len() == 0 && self.uninstall@.len() == 0 && self.upgrade@.len()
                == 0),
    {
        self.install.len() == 0 && self.uninstall.len() == 0 && self.upgrade.len() == 0
    }
}

/// Which operation the user requested.
#[derive(Clone, Copy, Debug, PartialEq, Eq, Structural)]
pub enum ActionKind {
    Install,
    Uninstall,
    Upgrade,
}

/// One line of terminal output emitted during a run.
#[derive(Clone, Debug)]
pub enum TerminalLine {
    /// A plain stdout/stderr line.
    Output { text: String, stream: Stream },
    /// A human-readable status message.
    Status { text: String },
    /// The run completed.
    Done { success: bool, message: String },
}

/// Which output stream a line came from.
#[derive(Clone, Copy, Debug, PartialEq, Eq, Structural)]
pub enum Stream {
    Stdout,
    Stderr,
}

/// A single installed package.
#[derive(Clone, Debug)]
pub struct InstalledPackage {
    pub name: String,
    pub version: Option<String>,
    /// Source manager, e.g. `"npm"`.
    pub manager: String,
    /// On-disk size in bytes, when measurable.
    pub size_bytes: Option<u64>,
}

/// A point-in-time snapshot stored in the history database.
#[derive(Clone, Debug)]
pub struct Snapshot {
    pub id: i64,
    pub tool_name: String,
    pub version: Option<String>,
    pub latest: Option<String>,
    pub is_outdated: bool,
    pub checked_at: i64,
}

/// Aggregated counts for the dashboard summary cards.
#[derive(Clone, Debug)]
pub struct DashboardSummary {
    pub total: usize,
    pub installed: usize,
    pub outdated: usize,
    pub missing: usize,
}

impl Default for DashboardSummary {
    fn default() -> (r: Self)
        ensures
            r.total == 0 && r.installed == 0 && r.outdated == 0 && r.missing == 0,
    {
        DashboardSummary { total: 0, installed: 0, outdated: 0, missing: 0 }
    }
}

/// Which ecosystem a discovered project belongs to.
#[derive(Clone, Copy, Debug, PartialEq, Eq, Hash, Structural)]
pub enum ProjectEcosystem {
    Node,
    Python,
    Rust,
    Go,
    Ruby,
    Php,
    Java,
    Dotnet,
}

/// The display label of an ecosystem.
pub open spec fn ecosystem_label(e: ProjectEcosystem) -> Seq<char> {
    match e {
        ProjectEcosystem::Node => "Node.js"@,
        ProjectEcosystem::Python => "Python"@,
        ProjectEcosystem::Rust => "Rust"@,
        ProjectEcosystem::Go => "Go"@,
        ProjectEcosystem::Ruby => "Ruby"@,
        ProjectEcosystem::Php => "PHP"@,
        ProjectEcosystem::Java => "Java"@,
        ProjectEcosystem::Dotnet => ".NET"@,
    }
}

impl ProjectEcosystem {
    /// The display label, e.g. `"Node.js"`.
    pub fn label(self) -> (r: &'static str)
        ensures
            r@ == ecosystem_label(self),
    {
        match self {
            ProjectEcosystem::Node => "Node.js",
            ProjectEcosystem::Python => "Python",
            ProjectEcosystem::Rust => "Rust",
            ProjectEcosystem::Go => "Go",
            ProjectEcosystem::Ruby => "Ruby",
            ProjectEcosystem::Php => "PHP",
            ProjectEcosystem::Java => "Java",
            ProjectEcosystem::Dotnet => ".NET",
        }
    }
}

/// A dependency declared by a project's manifest.
#[derive(Clone, Debug)]
pub struct ProjectDependency {
    pub name: String,
    /// Declared version spec, e.g. `"^4.2.0"`.
    pub version: Option<String>,
    /// Whether the latest published version is newer; `None` when unknown.
    pub is_outdated: Option<bool>,
    /// Latest published version, when checked.
    pub latest: Option<String>,
}

/// A discovered project on disk.
#[derive(Clone, Debug)]
pub struct DiscoveredProject {
    pub path: String,
    pub name: String,
    pub ecosystem: ProjectEcosystem,
    pub dependency_count: usize,
    pub outdated_count: Option<usize>,
    pub size_bytes: u64,
    pub manifest: String,
    pub is_real_project: bool,
}

/// Aggregated counts for the project scanner; `by_ecosystem` pairs each
/// ecosystem label with its count.
#[derive(Clone, Debug)]
pub struct ProjectScanSummary {
    pub total: usize,
    pub by_ecosystem: Vec<(String, usize)>,
    pub total_size_bytes: u64,
}

/// A programming language whose standalone source files can be found.
#[derive(Clone, Copy, Debug, PartialEq, Eq, Hash, Structural)]
pub enum SourceLanguage {
    JavaScript,
    TypeScript,
    Python,
    Rust,
    Go,
    Ruby,
    Php,
    Java,
    Swift,
    C,
    Cpp,
}

/// The display label of a language.
pub open spec fn language_label(l: SourceLanguage) -> Seq<char> {
    match l {
        SourceLanguage::JavaScript => "JavaScript"@,
        SourceLanguage::TypeScript => "TypeScript"@,
        SourceLanguage::Python => "Python"@,
        SourceLanguage::Rust => "Rust"@,
        SourceLanguage::Go => "Go"@,
        SourceLanguage::Ruby => "Ruby"@,
        SourceLanguage::Php => "PHP"@,
        SourceLanguage::Java => "Java"@,
        SourceLanguage::Swift => "Swift"@,
        SourceLanguage::C => "C"@,
        SourceLanguage::Cpp => "C++"@,
    }
}

/// The file extensions that identify a language.
pub open spec fn language_extensions(l: SourceLanguage) -> Seq<Seq<char>> {
    match l {
        SourceLanguage::JavaScript => seq!["js"@, "jsx"@, "mjs"@, "cjs"@],
        SourceLanguage::TypeScript => seq!["ts"@, "tsx"@],
        SourceLanguage::Python => seq!["py"@],
        SourceLanguage::Rust => seq!["rs"@],
        SourceLanguage::Go => seq!["go"@],
        SourceLanguage::Ruby => seq!["rb"@],
        SourceLanguage::Php => seq!["php"@],
        SourceLanguage::Java => seq!["java"@],
        SourceLanguage::Swift => seq!["swift"@],
        SourceLanguage::C => seq!["c"@, "h"@],
        SourceLanguage::Cpp => seq!["cpp"@, "cc"@, "cxx"@, "hpp"@, "hxx"@],
    }
}

/// All supported languages, in display order.
pub open spec fn all_languages() -> Seq<SourceLanguage> {
    seq![
        SourceLanguage::JavaScript,
        SourceLanguage::TypeScript,
        SourceLanguage::Python,
        SourceLanguage::Rust,
        SourceLanguage::Go,
        SourceLanguage::Ruby,
        SourceLanguage::Php,
        SourceLanguage::Java,
        SourceLanguage::Swift,
        SourceLanguage::C,
        SourceLanguage::Cpp,
    ]
}

/// The views of a list of string slices.
pub open spec fn str_views(v: Seq<&str>) -> Seq<Seq<char>> {
    v.map_values(|s: &str| s@)
}

impl SourceLanguage {
    /// The display label, e.g. `"C++"`.
    pub fn label(self) -> (r: &'static str)
        ensures
            r@ == language_label(self),
    {
        match self {
            SourceLanguage::JavaScript => "JavaScript",
            SourceLanguage::TypeScript => "TypeScript",
            SourceLanguage::Python => "Python",
            SourceLanguage::Rust => "Rust",
            SourceLanguage::Go => "Go",
            SourceLanguage::Ruby => "Ruby",
            SourceLanguage::Php => "PHP",
            SourceLanguage::Java => "Java",
            SourceLanguage::Swift => "Swift",
            SourceLanguage::C => "C",
            SourceLanguage::Cpp => "C++",
        }
    }

    /// File extensions that identify this language.
    pub fn extensions(self) -> (r: &'static [&'static str])
        ensures
            str_views(r@) == language_extensions(self),
    {
        let r: &'static [&'static str] = match self {
            SourceLanguage::JavaScript => &["js", "jsx", "mjs", "cjs"],
            SourceLanguage::TypeScript => &["ts", "tsx"],
            SourceLanguage::Python => &["py"],
            SourceLanguage::Rust => &["rs"],
            SourceLanguage::Go => &["go"],
            SourceLanguage::Ruby => &["rb"],
            SourceLanguage::Php => &["php"],
            SourceLanguage::Java => &["java"],
            SourceLanguage::Swift => &["swift"],
            SourceLanguage::C => &["c", "h"],
            SourceLanguage::Cpp => &["cpp", "cc", "cxx", "hpp", "hxx"],
        };
        assert(str_views(r@) =~= language_extensions(self));
        r
    }

    /// All supported languages, in display order.
    pub fn all() -> (r: Vec<SourceLanguage>)
        ensures
            r@ == all_languages(),
    {
        let r = vec![
            SourceLanguage::JavaScript,
            SourceLanguage::TypeScript,
            SourceLanguage::Python,
            SourceLanguage::Rust,
            SourceLanguage::Go,
            SourceLanguage::Ruby,
            SourceLanguage::Php,
            SourceLanguage::Java,
            SourceLanguage::Swift,
            SourceLanguage::C,
            SourceLanguage::Cpp,
        ];
        assert(r@ =~= all_languages());
        r
    }
}

/// A standalone source file found outside any project.
#[derive(Clone, Debug)]
pub struct SourceFile {
    pub path: String,
    pub name: String,
    pub language: SourceLanguage,
    pub size_bytes: u64,
}

/// A detected editor/IDE the user can open projects in.
#[derive(Clone, Debug)]
pub struct DetectedIde {
    /// Stable id, e.g. `"code"`.
    pub id: String,
    /// Display name, e.g. `"VS Code"`.
    pub name: String,
    /// Executable or `open -a` app name used to launch it.
    pub command: String,
    /// `true` when the launch is `open -a <app>`.
    pub is_app: bool,
}

/// Whether a newer release of the application is available.
#[derive(Clone, Debug)]
pub struct UpdateInfo {
    pub available: bool,
    pub version: Option<String>,
    pub body: Option<String>,
}

/// The text of each string of a list.
pub open spec fn string_views(v: Seq<String>) -> Seq<Seq<char>> {
    v.map_values(|s: String| s@)
}

/// The commands of a `ToolActions`, as text.
#[verifier::ext_equal]
pub struct ActionsView {
    pub install: Seq<Seq<char>>,
    pub uninstall: Seq<Seq<char>>,
    pub upgrade: Seq<Seq<char>>,
}

impl View for ToolActions {
    type V = ActionsView;

    open spec fn view(&self) -> ActionsView {
        ActionsView {
            install: string_views(self.install@),
            uninstall: string_views(self.uninstall@),
            upgrade: string_views(self.upgrade@),
        }
    }
}

/// A `VersionParser`, as text.
#[verifier::ext_equal]
pub enum ParserView {
    FirstNumeric,
    StripPrefix(Seq<char>),
}

impl View for VersionParser {
    type V = ParserView;

    open spec fn view(&self) -> ParserView {
        match self {
            VersionParser::FirstNumeric => ParserView::FirstNumeric,
            VersionParser::StripPrefix { prefix } => ParserView::StripPrefix(prefix@),
        }
    }
}

/// A `LatestSource`, as text.
#[verifier::ext_equal]
pub enum LatestView {
    NoLookup,
    Json(Seq<char>, Seq<Seq<char>>),
    GitHub(Seq<char>),
}

impl View for LatestSource {
    type V = LatestView;

    open spec fn view(&self) -> LatestView {
        match self {
            LatestSource::NoLookup => LatestView::NoLookup,
            LatestSource::Json { url, pointer } => LatestView::Json(url@, string_views(pointer@)),
            LatestSource::GitHub { repo } => LatestView::GitHub(repo@),
        }
    }
}

/// Whether `name` is one of `names`.
pub fn list_contains(names: &Vec<String>, name: &String) -> (r: bool)
    ensures
        r == string_views(names@).contains(name@),
{
    let mut i: usize = 0;
    while i < names.len()
        invariant
            i <= names.len(),
            forall|k: int| 0 <= k < i ==> names@[k]@ != name@,
        decreases names.len() - i,
    {
        if names[i] == *name {
            assert(string_views(names@)[i as int] == name@);
            return true;
        }
        i = i + 1;
    }
    proof {
        if string_views(names@).contains(name@) {
            let k = choose|k: int|
                0 <= k < string_views(names@).len() && string_views(names@)[k] == name@;
            assert(names@[k]@ == name@);
        }
    }
    false
}

/// The actions of a definition, as text.
pub open spec fn opt_actions_view(a: Option<ToolActions>) -> Option<ActionsView> {
    match a {
        Some(x) => Some(x@),
        None => None,
    }
}

/// A `ToolDefinition`, as text.
#[verifier::ext_equal]
pub struct DefinitionView {
    pub name: Seq<char>,
    pub display_name: Seq<char>,
    pub category: ToolCategory,
    pub icon: Seq<char>,
    pub color: Seq<char>,
    pub binary: Seq<char>,
    pub args: Seq<Seq<char>>,
    pub parser: ParserView,
    pub latest: LatestView,
    pub packages: Option<PackageSource>,
    pub detect_versions: bool,
    pub actions: Option<ActionsView>,
}

impl View for ToolDefinition {
    type V = DefinitionView;

    open spec fn view(&self) -> DefinitionView {
        DefinitionView {
            name: self.name@,
            display_name: self.display_name@,
            category: self.category,
            icon: self.icon@,
            color: self.color@,
            binary: self.binary@,
            args: string_views(self.args@),
            parser: self.parser@,
            latest: self.latest@,
            packages: self.packages,
            detect_versions: self.detect_versions,
            actions: opt_actions_view(self.actions),
        }
    }
}

/// The views of a list of definitions.
pub open spec fn definition_views(v: Seq<ToolDefinition>) -> Seq<DefinitionView> {
    v.map_values(|d: ToolDefinition| d@)
}

} // verus!
