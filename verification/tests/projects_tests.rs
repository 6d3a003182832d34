use toolpulse::json::JsonValue;
use toolpulse::packages::{listing_argv, parse_listing, parse_listing_output, parse_npm_global, parse_pip_list};
use toolpulse::projects::{
    apply_dep_latest, directory_manifests, clear_outdated, manifest_ecosystem, name_listed, npm_latest_url,
    npm_latest_from_text, npm_latest_version, parse_cargo_deps, parse_manifest_text, parse_composer_deps, parse_gemfile_deps,
    parse_go_deps, parse_manifest, pipfile_entry, parse_node_deps, parse_python_deps, should_descend,
    MAX_PROJECTS,
};
use toolpulse::sizes::{du_total, parse_du, parse_du_line, size_probes, SizeEnv, SizeProbe};
use toolpulse::source_files::{
    file_extension, is_project_marker, language_for_file, loose_source_files,
    requested_languages, should_enter, MAX_SOURCE_FILES,
};
use toolpulse::types::{
    InstallationSource, InstalledPackage, PackageSource, ProjectDependency, ProjectEcosystem,
    SourceLanguage,
};

fn s(t: &str) -> JsonValue {
    JsonValue::Str(t.to_string())
}

fn obj(members: Vec<(&str, JsonValue)>) -> JsonValue {
    JsonValue::Object(members.into_iter().map(|(k, v)| (k.to_string(), v)).collect())
}

fn deps_of(v: &[ProjectDependency]) -> Vec<(String, Option<String>)> {
    v.iter().map(|d| (d.name.clone(), d.version.clone())).collect()
}

fn dep(name: &str, version: Option<&str>) -> (String, Option<String>) {
    (name.to_string(), version.map(|v| v.to_string()))
}

fn pkgs(v: &[InstalledPackage]) -> Vec<(String, Option<String>, String)> {
    v.iter().map(|p| (p.name.clone(), p.version.clone(), p.manager.clone())).collect()
}

fn pkg(name: &str, version: Option<&str>, manager: &str) -> (String, Option<String>, String) {
    (name.to_string(), version.map(|v| v.to_string()), manager.to_string())
}

#[test]
fn project_walk_rules() {
    assert!(should_descend("src"));
    assert!(!should_descend("node_modules"));
    assert!(!should_descend("build"));
    assert!(!should_descend(".config"));
    assert!(name_listed("b", &["a", "b"]));
    assert!(!name_listed("c", &["a", "b"]));
    assert_eq!(MAX_PROJECTS, 2000);
}

#[test]
fn manifest_names() {
    assert_eq!(manifest_ecosystem("package.json"), Some(ProjectEcosystem::Node));
    assert_eq!(manifest_ecosystem("Pipfile"), Some(ProjectEcosystem::Python));
    assert_eq!(manifest_ecosystem("Cargo.toml"), Some(ProjectEcosystem::Rust));
    assert_eq!(manifest_ecosystem("go.mod"), Some(ProjectEcosystem::Go));
    assert_eq!(manifest_ecosystem("Gemfile"), Some(ProjectEcosystem::Ruby));
    assert_eq!(manifest_ecosystem("composer.json"), Some(ProjectEcosystem::Php));
    assert_eq!(manifest_ecosystem("build.gradle.kts"), Some(ProjectEcosystem::Java));
    assert_eq!(manifest_ecosystem("README.md"), None);
    assert_eq!(ProjectEcosystem::Node.label(), "Node.js");
    assert_eq!(ProjectEcosystem::Dotnet.label(), ".NET");
    assert_eq!(InstallationSource::Homebrew.label(), "homebrew");
}

#[test]
fn node_manifest_sections() {
    let v = obj(vec![
        ("name", s("demo")),
        ("dependencies", obj(vec![("react", s("^18.2.0")), ("weird", JsonValue::Number("5".to_string()))])),
        ("devDependencies", obj(vec![("vite", s("^5.0.0"))])),
        ("peerDependencies", obj(vec![])),
    ]);
    let d = parse_node_deps(&v);
    assert_eq!(deps_of(&d), vec![dep("react", Some("^18.2.0")), dep("weird", None), dep("vite", Some("^5.0.0"))]);
    assert!(d.iter().all(|x| x.is_outdated.is_none() && x.latest.is_none()));
    assert!(parse_node_deps(&s("x")).is_empty());
}

#[test]
fn composer_manifest_sections() {
    let v = obj(vec![
        ("require", obj(vec![("php", s(">=8.1")), ("monolog/monolog", s("^3.0"))])),
        ("require-dev", obj(vec![("phpunit/phpunit", s("^10"))])),
    ]);
    assert_eq!(
        deps_of(&parse_composer_deps(&v)),
        vec![dep("php", Some(">=8.1")), dep("monolog/monolog", Some("^3.0")), dep("phpunit/phpunit", Some("^10"))]
    );
}

#[test]
fn requirements_txt() {
    let body = "requests==2.31.0\n# comment\nflask>=2.0  # web\n\nnumpy\nDjango~=4.2\n";
    assert_eq!(
        deps_of(&parse_python_deps(body, "requirements.txt")),
        vec![dep("requests", Some("2.31.0")), dep("flask", Some("2.0")), dep("numpy", None), dep("Django", Some("4.2"))]
    );
}

#[test]
fn pipfile_lines() {
    let body = "[[source]]\nurl = \"https://pypi.org/simple\"\nsource = \"x\"\n\n[packages]\nrequests = \"*\"\n\"flask\" = \">=2.0\"\né = \"1\"\n";
    assert_eq!(
        deps_of(&parse_python_deps(body, "Pipfile")),
        vec![dep("url", None), dep("requests", None), dep("é", None)]
    );
}

#[test]
fn pyproject_dependency_block() {
    let body = "[project]\nname = \"demo\"\ndependencies = [\n    \"requests>=2.0\",\n    'rich',\n    \"click ~= 8.0\",\n]\n[tool.x]\ny = 1\n";
    assert_eq!(
        deps_of(&parse_python_deps(body, "pyproject.toml")),
        vec![dep("requests", None), dep("rich", None), dep("click", None)]
    );
    assert!(parse_python_deps("[project]\nname = \"x\"\n", "pyproject.toml").is_empty());
}

#[test]
fn cargo_manifest() {
    let body = "[package]\nname = \"x\"\nversion = \"0.1.0\"\n\n[dependencies]\nserde = { version = \"1.0\", features = [\"derive\"] }\nanyhow = \"1\"\nlocal = { path = \"../local\" }\n# comment = \"x\"\n\n[dev-dependencies]\ntempfile = \"3\"\n\n[features]\ndefault = []\n";
    assert_eq!(
        deps_of(&parse_cargo_deps(body)),
        vec![dep("serde", Some("1.0")), dep("anyhow", Some("1")), dep("local", None), dep("tempfile", Some("3"))]
    );
}

#[test]
fn go_mod_require_lines() {
    let body = "module example.com/m\n\ngo 1.22\n\nrequire github.com/pkg/errors v0.9.1\n\nrequire (\n\tgolang.org/x/sys v0.20.0\n)\n";
    assert_eq!(
        deps_of(&parse_go_deps(body)),
        vec![dep("github.com/pkg/errors", Some("v0.9.1")), dep("golang.org/x/sys", Some("v0.20.0"))]
    );
    let block = "module example.com/m\n\ngo 1.22\n\nrequire (\n\tgithub.com/pkg/errors v0.9.1\n\t// tools\n\n\tgolang.org/x/sync v0.7.0 // indirect\n)\n\nrequire example.com/z v1.0.0\nreplace x => y\n";
    assert_eq!(
        deps_of(&parse_go_deps(block)),
        vec![
            dep("github.com/pkg/errors", Some("v0.9.1")),
            dep("golang.org/x/sync", Some("v0.7.0")),
            dep("example.com/z", Some("v1.0.0"))
        ]
    );
    assert!(parse_go_deps("require ()\nfoo v1\n").is_empty());
}

#[test]
fn gemfile_gems() {
    let body = "source \"https://rubygems.org\"\ngem \"rails\", \"~> 7.0\"\ngem 'pg'\n  gem \"puma\"\ngem\n";
    assert_eq!(deps_of(&parse_gemfile_deps(body)), vec![dep("rails", None), dep("pg", None), dep("puma", None)]);
}

#[test]
fn parse_manifest_dispatches() {
    let v = obj(vec![("dependencies", obj(vec![("react", s("^18.2.0"))]))]);
    assert_eq!(deps_of(&parse_manifest("", Some(&v), "package.json", ProjectEcosystem::Node)), vec![dep("react", Some("^18.2.0"))]);
    assert!(parse_manifest("not json", None, "package.json", ProjectEcosystem::Node).is_empty());
    assert_eq!(deps_of(&parse_manifest("gem 'pg'\n", None, "Gemfile", ProjectEcosystem::Ruby)), vec![dep("pg", None)]);
    assert!(parse_manifest("<project/>", None, "pom.xml", ProjectEcosystem::Java).is_empty());
    assert!(parse_manifest("", None, "x.csproj", ProjectEcosystem::Dotnet).is_empty());
}

#[test]
fn dependency_latest_checks() {
    let mut d = ProjectDependency { name: "react".to_string(), version: Some("^18.2.0".to_string()), is_outdated: None, latest: None };
    apply_dep_latest(&mut d, Some("18.3.1".to_string()));
    assert_eq!(d.latest.as_deref(), Some("18.3.1"));
    assert_eq!(d.is_outdated, Some(true));
    let mut same = ProjectDependency { name: "vite".to_string(), version: Some("~5.0.0".to_string()), is_outdated: None, latest: None };
    apply_dep_latest(&mut same, Some("5.0.0".to_string()));
    assert_eq!(same.is_outdated, Some(false));
    let mut star = ProjectDependency { name: "x".to_string(), version: Some("*".to_string()), is_outdated: Some(true), latest: None };
    apply_dep_latest(&mut star, Some("1.0.0".to_string()));
    assert_eq!(star.is_outdated, Some(false));
    let mut failed = ProjectDependency { name: "y".to_string(), version: Some("1.0".to_string()), is_outdated: Some(true), latest: Some("2.0".to_string()) };
    apply_dep_latest(&mut failed, None);
    assert_eq!(failed.is_outdated, None);
    assert_eq!(failed.latest.as_deref(), Some("2.0"));
}

#[test]
fn clearing_outdated_flags() {
    let mut v = vec![
        ProjectDependency { name: "a".to_string(), version: None, is_outdated: Some(true), latest: Some("1".to_string()) },
        ProjectDependency { name: "b".to_string(), version: Some("2".to_string()), is_outdated: Some(false), latest: None },
    ];
    clear_outdated(&mut v);
    assert_eq!(v.len(), 2);
    assert!(v.iter().all(|d| d.is_outdated.is_none()));
    assert_eq!(v[0].latest.as_deref(), Some("1"));
    assert_eq!(v[1].version.as_deref(), Some("2"));
}

#[test]
fn npm_registry_lookups() {
    assert_eq!(npm_latest_url("react"), "https://registry.npmjs.org/react/latest");
    assert_eq!(npm_latest_version(&obj(vec![("version", s("18.3.1"))])), Some("18.3.1".to_string()));
    assert_eq!(npm_latest_version(&obj(vec![("version", JsonValue::Null)])), None);
}

#[test]
fn listing_commands() {
    let strings = |v: &[&str]| -> Vec<String> { v.iter().map(|x| x.to_string()).collect() };
    assert_eq!(listing_argv(PackageSource::NpmGlobal), strings(&["npm", "ls", "-g", "--depth=0", "--json"]));
    assert_eq!(listing_argv(PackageSource::BrewList), strings(&["brew", "list", "--versions"]));
    assert_eq!(listing_argv(PackageSource::GoModules), strings(&["go", "version"]));
}

#[test]
fn npm_global_listing() {
    let v = obj(vec![(
        "dependencies",
        obj(vec![
            ("@angular/cli", obj(vec![("version", s("17.0.0"))])),
            ("typescript", obj(vec![("version", s("5.4.5"))])),
            ("broken", obj(vec![])),
        ]),
    )]);
    assert_eq!(
        pkgs(&parse_npm_global(&v)),
        vec![pkg("angular/cli", Some("17.0.0"), "npm"), pkg("typescript", Some("5.4.5"), "npm"), pkg("broken", None, "npm")]
    );
    assert!(parse_listing(PackageSource::NpmGlobal, Some("oops"), None).is_empty());
}

#[test]
fn pip_listing() {
    let v = JsonValue::Array(vec![
        obj(vec![("name", s("black")), ("version", s("24.1"))]),
        obj(vec![("version", s("1.0"))]),
        obj(vec![("name", s("x"))]),
    ]);
    assert_eq!(pkgs(&parse_pip_list(&v)), vec![pkg("black", Some("24.1"), "pip"), pkg("x", None, "pip")]);
    assert!(parse_pip_list(&obj(vec![])).is_empty());
}

#[test]
fn cargo_listing() {
    let out = "ripgrep v13.0.0:\n    rg\ncargo-edit v0.12.2:\n    cargo-add\n";
    assert_eq!(
        pkgs(&parse_listing(PackageSource::CargoInstall, Some(out), None)),
        vec![pkg("ripgrep", Some("13.0.0:"), "cargo"), pkg("cargo-edit", Some("0.12.2:"), "cargo")]
    );
    assert!(parse_listing(PackageSource::CargoInstall, None, None).is_empty());
}

#[test]
fn bun_listing() {
    let out = "/Users/a/.bun/install/global node_modules (2)\n├── typescript@5.4.5\n└── @biomejs/biome@1.8.0\n@x\n";
    assert_eq!(
        pkgs(&parse_listing(PackageSource::BunGlobal, Some(out), None)),
        vec![pkg("├── typescript", Some("5.4.5"), "bun"), pkg("└── @biomejs/biome", Some("1.8.0"), "bun")]
    );
}

#[test]
fn gem_listing() {
    let out = "*** LOCAL GEMS ***\n\nrake (13.0.6, 12.3.3)\nbundler (default: 2.4.10)\nGems done (1)\n";
    assert_eq!(
        pkgs(&parse_listing(PackageSource::GemList, Some(out), None)),
        vec![pkg("rake", Some("13.0.6"), "gem"), pkg("bundler", Some("default: 2.4.10"), "gem")]
    );
}

#[test]
fn composer_listing() {
    let out = "Changed current directory to /Users/a/.composer\nlaravel/installer v5.8.0 Laravel installer\nInfo: from x\nalone\n";
    assert_eq!(
        pkgs(&parse_listing(PackageSource::ComposerGlobal, Some(out), None)),
        vec![pkg("Changed", Some("current"), "composer"), pkg("laravel/installer", Some("v5.8.0"), "composer")]
    );
}

#[test]
fn brew_listing() {
    let out = "git 2.45.1\nnode 22.3.0 21.7.1\nempty\n\n";
    assert_eq!(
        pkgs(&parse_listing(PackageSource::BrewList, Some(out), None)),
        vec![pkg("git", Some("2.45.1"), "brew"), pkg("node", Some("22.3.0"), "brew"), pkg("empty", None, "brew")]
    );
}

#[test]
fn go_and_deno_report_themselves() {
    assert_eq!(
        pkgs(&parse_listing(PackageSource::GoModules, Some("go version go1.22.3 darwin/arm64\n"), None)),
        vec![pkg("go", Some("1.22.3"), "go")]
    );
    assert_eq!(pkgs(&parse_listing(PackageSource::GoModules, None, None)), vec![pkg("go", None, "go")]);
    assert_eq!(
        pkgs(&parse_listing(PackageSource::DenoModules, Some("deno 1.44.4 (release)\nv8 12.6\n"), None)),
        vec![pkg("deno", Some("1.44.4"), "deno")]
    );
}

#[test]
fn du_parsing() {
    assert_eq!(parse_du_line("12\t/path"), Some(12 * 1024));
    assert_eq!(parse_du_line("x 1"), None);
    assert_eq!(parse_du_line(""), None);
    assert_eq!(parse_du_line("18446744073709551615 big"), Some(u64::MAX));
    assert_eq!(parse_du("4\ta\n8\tb\n"), Some(4096));
    assert_eq!(parse_du(""), None);
    assert_eq!(du_total("4\ta\n8\tb\nbad line\n"), Some(12 * 1024));
    assert_eq!(du_total("nothing here\n"), None);
}

#[test]
fn size_probe_locations() {
    let env = SizeEnv {
        home: Some("/home/a".to_string()),
        npm_root: Some("/usr/lib/node_modules\n".to_string()),
        site_packages: Some(" /usr/lib/python3/site-packages\n".to_string()),
        gem_available: true,
    };
    let show = |v: Vec<SizeProbe>| -> Vec<(bool, String)> {
        v.into_iter()
            .map(|p| match p {
                SizeProbe::Dir(d) => (false, d),
                SizeProbe::Glob(g) => (true, g),
            })
            .collect()
    };
    assert_eq!(show(size_probes("npm", "typescript", &env)), vec![(false, "/usr/lib/node_modules/typescript".to_string())]);
    assert_eq!(
        show(size_probes("brew", "git", &env)),
        vec![(false, "/opt/homebrew/Cellar/git".to_string()), (false, "/usr/local/Cellar/git".to_string())]
    );
    assert_eq!(show(size_probes("cargo", "ripgrep", &env)), vec![(true, "/home/a/.cargo/registry/src/*/ripgrep-*".to_string())]);
    assert_eq!(
        show(size_probes("pip", "typing-extensions", &env)),
        vec![
            (false, "/usr/lib/python3/site-packages/typing-extensions".to_string()),
            (false, "/usr/lib/python3/site-packages/typing_extensions".to_string())
        ]
    );
    assert_eq!(show(size_probes("gem", "rake", &env)), vec![(true, "/home/a/.gem/ruby/*/gems/rake-*".to_string())]);
    assert_eq!(
        show(size_probes("composer", "a/b", &env)),
        vec![(false, "/home/a/.composer/vendor/a/b".to_string()), (true, "/home/a/.composer/vendor/a/b".to_string())]
    );
    assert_eq!(show(size_probes("bun", "x", &env)), vec![(false, "/home/a/.bun/install/global/node_modules/x".to_string())]);
    assert!(size_probes("go", "go", &env).is_empty());
    assert!(size_probes("deno", "deno", &env).is_empty());
    let bare = SizeEnv { home: None, npm_root: None, site_packages: None, gem_available: false };
    assert!(size_probes("cargo", "x", &bare).is_empty());
    assert!(size_probes("npm", "x", &bare).is_empty());
    let no_gem = SizeEnv { gem_available: false, ..env.clone() };
    assert!(size_probes("gem", "rake", &no_gem).is_empty());
}

#[test]
fn source_file_walk_rules() {
    assert!(should_enter("Documents"));
    assert!(should_enter("build"));
    assert!(!should_enter("Library"));
    assert!(!should_enter(".config"));
    assert!(!should_enter("node_modules"));
    assert!(is_project_marker("Cargo.toml"));
    assert!(is_project_marker("build.gradle.kts"));
    assert!(!is_project_marker("main.rs"));
    assert_eq!(MAX_SOURCE_FILES, 5000);
}

#[test]
fn file_extensions_and_languages() {
    assert_eq!(file_extension("script.py"), Some("py".to_string()));
    assert_eq!(file_extension("archive.tar.gz"), Some("gz".to_string()));
    assert_eq!(file_extension("Makefile"), None);
    assert_eq!(file_extension(".bashrc"), Some("bashrc".to_string()));
    assert_eq!(file_extension("trailing."), Some(String::new()));
    let all = SourceLanguage::all();
    assert_eq!(language_for_file("a.ts", &all), Some(SourceLanguage::TypeScript));
    assert_eq!(language_for_file("x.h", &[SourceLanguage::Cpp, SourceLanguage::C]), Some(SourceLanguage::C));
    assert_eq!(language_for_file("x.h", &[SourceLanguage::Cpp]), None);
    assert_eq!(language_for_file("go", &all), None);
    assert_eq!(language_for_file("c", &all), None);
    assert_eq!(language_for_file("x.go", &all), Some(SourceLanguage::Go));
    assert_eq!(language_for_file("notes.txt", &all), None);
}

#[test]
fn loose_files_of_a_directory() {
    let all = SourceLanguage::all();
    let names = |v: &[&str]| -> Vec<String> { v.iter().map(|x| x.to_string()).collect() };
    assert!(loose_source_files(&names(&["main.py", "README.md", "Cargo.toml"]), &all).is_empty());
    assert_eq!(
        loose_source_files(&names(&["a.py", "b.txt", "c.rs"]), &all),
        vec![(0, SourceLanguage::Python), (2, SourceLanguage::Rust)]
    );
    assert_eq!(loose_source_files(&names(&["a.py", "c.rs"]), &[SourceLanguage::Rust]), vec![(1, SourceLanguage::Rust)]);
    assert_eq!(loose_source_files(&names(&["go", "c", "main.c"]), &all), vec![(2, SourceLanguage::C)]);
}

#[test]
fn requested_languages_default_to_all() {
    assert_eq!(requested_languages(Vec::new()).len(), 11);
    assert_eq!(requested_languages(vec![SourceLanguage::Go]), vec![SourceLanguage::Go]);
    assert_eq!(SourceLanguage::Cpp.label(), "C++");
    assert_eq!(SourceLanguage::C.extensions(), &["c", "h"]);
}

#[test]
fn first_manifest_of_each_ecosystem_makes_a_project() {
    let names: Vec<String> = ["README.md", "requirements.txt", "package.json", "pyproject.toml", "Cargo.toml"]
        .iter()
        .map(|x| x.to_string())
        .collect();
    assert_eq!(
        directory_manifests(&names),
        vec![(1, ProjectEcosystem::Python), (2, ProjectEcosystem::Node), (4, ProjectEcosystem::Rust)]
    );
    assert!(directory_manifests(&Vec::new()).is_empty());
}

#[test]
fn pipfile_entry_given_first_character() {
    let d = pipfile_entry("requests = \"*\"", true).unwrap();
    assert_eq!(d.name, "requests");
    assert_eq!(d.version, None);
    assert!(pipfile_entry("requests = \"*\"", false).is_none());
    assert_eq!(pipfile_entry(" \"flask\" = \">=2\"", true).unwrap().name, "flask");
    assert!(pipfile_entry("source = \"x\"", true).is_none());
    assert!(pipfile_entry("[packages]", true).is_none());
}

#[test]
fn cargo_manifest_quirks() {
    let body = "[dependencies]\nx = { path = \"../version-x\" }\ny = \"1.0\" # pinned\n[dependencies.serde]\nversion = \"1.0\"\n[target.'cfg(unix)'.dependencies]\nlibc = \"0.2\"\n";
    assert_eq!(
        deps_of(&parse_cargo_deps(body)),
        vec![dep("x", Some(" }")), dep("y", Some("1.0\" # pinned")), dep("version", Some("1.0"))]
    );
}

#[test]
fn requirements_edge_cases() {
    let body = "pkg[extra]>=1.0; python_version<'3.8'\n  # indented comment\n-r other.txt\n";
    assert_eq!(
        deps_of(&parse_python_deps(body, "requirements.txt")),
        vec![dep("pkg[extra]", Some("1.0; python_version<'3.8")), dep("-r other.txt", None)]
    );
}

#[test]
fn pyproject_list_ends_at_its_bracket() {
    let body = "[project]\ndependencies = [\n    \"requests>=2.0\",\n    \"click\",\n]\nversion = \"1\"\n";
    let d = parse_python_deps(body, "pyproject.toml");
    assert_eq!(deps_of(&d), vec![dep("requests", None), dep("click", None)]);
    let indented = "dependencies = [\n  \"a\",\n  ],\n  \"b\"\n";
    assert_eq!(deps_of(&parse_python_deps(indented, "pyproject.toml")), vec![dep("a", None)]);
}

#[test]
fn file_language_ignores_request_order() {
    let forward = [SourceLanguage::JavaScript, SourceLanguage::TypeScript, SourceLanguage::C, SourceLanguage::Cpp];
    let backward = [SourceLanguage::Cpp, SourceLanguage::C, SourceLanguage::TypeScript, SourceLanguage::JavaScript];
    for name in ["a.ts", "b.mjs", "c.h", "d.hpp", "e.cc", "f.c"] {
        assert_eq!(language_for_file(name, &forward), language_for_file(name, &backward));
        assert!(language_for_file(name, &forward).is_some());
    }
}

#[test]
fn manifest_text_is_read_as_json() {
    let body = "{\"name\": \"app\", \"dependencies\": {\"react\": \"^18.2.0\", \"weird\": 1}, \"devDependencies\": {\"vite\": \"^5.0.0\"}}";
    let d = parse_manifest_text(body, "package.json", ProjectEcosystem::Node);
    assert_eq!(deps_of(&d), vec![dep("react", Some("^18.2.0")), dep("weird", None), dep("vite", Some("^5.0.0"))]);
    assert!(parse_manifest_text("{not json", "package.json", ProjectEcosystem::Node).is_empty());
    let composer = "{\"require\": {\"php\": \">=8.1\"}}";
    assert_eq!(deps_of(&parse_manifest_text(composer, "composer.json", ProjectEcosystem::Php)), vec![dep("php", Some(">=8.1"))]);
    let cargo = "[dependencies]\nserde = \"1.0\"\n";
    assert_eq!(deps_of(&parse_manifest_text(cargo, "Cargo.toml", ProjectEcosystem::Rust)), deps_of(&parse_cargo_deps(cargo)));
}

#[test]
fn listing_output_is_read_as_json() {
    let npm = "{\"dependencies\": {\"typescript\": {\"version\": \"5.4.5\"}, \"broken\": {}}}";
    assert_eq!(
        pkgs(&parse_listing_output(PackageSource::NpmGlobal, Some(npm))),
        vec![pkg("broken", None, "npm"), pkg("typescript", Some("5.4.5"), "npm")]
    );
    let pip = "[{\"name\": \"black\", \"version\": \"24.1\"}]";
    assert_eq!(pkgs(&parse_listing_output(PackageSource::PipList, Some(pip))), vec![pkg("black", Some("24.1"), "pip")]);
    assert!(parse_listing_output(PackageSource::PipList, Some("nope")).is_empty());
    assert!(parse_listing_output(PackageSource::NpmGlobal, None).is_empty());
}

#[test]
fn npm_registry_answer_text() {
    assert_eq!(npm_latest_from_text("{\"name\": \"react\", \"version\": \"18.3.1\"}"), Some("18.3.1".to_string()));
    assert_eq!(npm_latest_from_text("<html>"), None);
}

#[test]
fn extension_tables_are_disjoint_lowercase_words() {
    let all = requested_languages(Vec::new());
    assert_eq!(all.len(), 11);
    let mut seen: Vec<&str> = Vec::new();
    for l in &all {
        assert!(!l.extensions().is_empty());
        for e in l.extensions() {
            assert!(!e.is_empty() && e.chars().all(|c| c.is_ascii_lowercase()));
            assert!(!seen.contains(e), "{e} claimed twice");
            seen.push(e);
        }
    }
    assert_eq!(SourceLanguage::Cpp.extensions(), &["cpp", "cc", "cxx", "hpp", "hxx"]);
    assert_eq!(SourceLanguage::C.extensions(), &["c", "h"]);
}
