use toolpulse::checker::{
    installations_from_outputs, is_outdated, not_found_reason, parse_version, prepend_pinned, select_pinned,
    single_installation, status_from_installations, version_from_output,
};
use toolpulse::registry::{builtin_tools, find};
use toolpulse::types::{InstallationSource, ToolInstallation, VersionParser};
use toolpulse::versions::{
    first_path, infer_source_public, installations_from, parse_which_output, source_of_lowercased,
};

fn first_numeric() -> VersionParser {
    VersionParser::FirstNumeric
}

fn strip(prefix: &str) -> VersionParser {
    VersionParser::StripPrefix { prefix: prefix.to_string() }
}

fn install(path: &str, version: Option<&str>, active: bool) -> ToolInstallation {
    ToolInstallation {
        path: path.to_string(),
        version: version.map(|v| v.to_string()),
        source: InstallationSource::Unknown,
        is_active: active,
    }
}

#[test]
fn parse_version_strips_leading_v() {
    assert_eq!(parse_version("v18.17.0\n", &strip("v")), Some("18.17.0".to_string()));
}

#[test]
fn parse_version_finds_first_numeric_token() {
    assert_eq!(parse_version("Python 3.12.1", &first_numeric()), Some("3.12.1".to_string()));
    assert_eq!(
        parse_version("go version go1.22.3 darwin/arm64", &first_numeric()),
        Some("1.22.3".to_string())
    );
}

#[test]
fn parse_version_keeps_at_most_three_dots() {
    assert_eq!(parse_version("1.2.3.4.5", &first_numeric()), Some("1.2.3.4".to_string()));
}

#[test]
fn parse_version_drops_trailing_dots() {
    assert_eq!(parse_version("release 2. is out", &first_numeric()), Some("2".to_string()));
    assert_eq!(parse_version("v7..", &first_numeric()), Some("7".to_string()));
}

#[test]
fn parse_version_without_digits_is_none() {
    assert_eq!(parse_version("command not found", &first_numeric()), None);
    assert_eq!(parse_version("", &first_numeric()), None);
}

#[test]
fn parse_version_prefix_is_stripped_repeatedly_before_search() {
    assert_eq!(parse_version("1.0 3.4", &first_numeric()), Some("1.0".to_string()));
    assert_eq!(parse_version("1.0 1.0 3.4", &strip("1.0 ")), Some("3.4".to_string()));
}

#[test]
fn version_from_output_reads_stderr_too() {
    assert_eq!(
        version_from_output("", "javac 17.0.2", &first_numeric()),
        Some("17.0.2".to_string())
    );
    assert_eq!(
        version_from_output("node v20.1.0", "warning 9.9", &first_numeric()),
        Some("20.1.0".to_string())
    );
}

#[test]
fn is_outdated_compares_numerically() {
    assert!(is_outdated("1.2.3", "1.10.0"));
    assert!(!is_outdated("1.10.0", "1.2.3"));
    assert!(is_outdated("1.2", "1.2.1"));
    assert!(!is_outdated("1.2", "1.2.0"));
}

#[test]
fn is_outdated_ignores_prefix_and_prerelease() {
    assert!(!is_outdated("v1.2.3-rc1", "1.2.3"));
    assert!(is_outdated("python 3.9.12", "3.10.0"));
    assert!(!is_outdated("2.0.0-beta", "2.0.0"));
}

#[test]
fn is_outdated_falls_back_to_text_comparison() {
    assert!(is_outdated("1.0.alpha", "1.0.beta"));
    assert!(!is_outdated("1.0.beta", "1.0.alpha"));
    assert!(!is_outdated("1.x", "1.10"));
    assert!(is_outdated("", "1"));
    assert!(!is_outdated("", ""));
}

#[test]
fn is_outdated_is_irreflexive_and_asymmetric() {
    for v in ["1.2.3", "v2.0", "", "1.0.beta", "3.9.12-rc"] {
        assert!(!is_outdated(v, v));
    }
    let pairs = [("1.2.3", "1.10.0"), ("1.0.alpha", "1.0.beta"), ("2", "2.0.1")];
    for (a, b) in pairs {
        assert!(!(is_outdated(a, b) && is_outdated(b, a)));
    }
}

#[test]
fn select_pinned_marks_only_the_chosen_path() {
    let mut installs = vec![install("/usr/bin/node", Some("18.0.0"), true), install("/opt/node", Some("20.0.0"), false)];
    assert!(select_pinned(&mut installs, "/opt/node"));
    assert_eq!(installs.len(), 2);
    assert!(!installs[0].is_active);
    assert!(installs[1].is_active);
    assert_eq!(installs[1].version.as_deref(), Some("20.0.0"));
}

#[test]
fn select_pinned_unknown_path_keeps_first_active() {
    let mut installs = vec![install("/usr/bin/node", Some("18.0.0"), false), install("/opt/node", Some("20.0.0"), true)];
    assert!(!select_pinned(&mut installs, "/elsewhere/node"));
    assert!(installs[0].is_active);
    assert!(!installs[1].is_active);
    let def = find("node").unwrap();
    let s = status_from_installations(&def, installs, 0);
    assert_eq!(s.path.as_deref(), Some("/usr/bin/node"));
    assert_eq!(s.installed_version.as_deref(), Some("18.0.0"));
}

#[test]
fn prepend_pinned_puts_probed_binary_first() {
    let mut installs = vec![install("/usr/bin/node", Some("18.0.0"), true)];
    prepend_pinned(&mut installs, "/Users/a/.nvm/versions/node/v20/bin/node", "20.0.0".to_string());
    assert_eq!(installs.len(), 2);
    assert_eq!(installs[0].path, "/Users/a/.nvm/versions/node/v20/bin/node");
    assert_eq!(installs[0].version.as_deref(), Some("20.0.0"));
    assert_eq!(installs[0].source, InstallationSource::Nvm);
    assert!(installs[0].is_active);
    assert_eq!(installs[1].path, "/usr/bin/node");
    assert!(!installs[1].is_active);
}

#[test]
fn status_uses_the_active_installation() {
    let def = find("node").unwrap();
    let installs = vec![install("/a/node", Some("18.0.0"), false), install("/b/node", Some("20.1.0"), true)];
    let s = status_from_installations(&def, installs, 1234);
    assert_eq!(s.name, "node");
    assert_eq!(s.display_name, "Node.js");
    assert_eq!(s.installed_version.as_deref(), Some("20.1.0"));
    assert_eq!(s.path.as_deref(), Some("/b/node"));
    assert_eq!(s.latest_version, None);
    assert!(!s.is_outdated);
    assert_eq!(s.checked_at, 1234);
    assert_eq!(s.error, None);
    assert_eq!(s.installations.len(), 2);
}

#[test]
fn status_falls_back_to_first_installation() {
    let def = find("node").unwrap();
    let installs = vec![install("/a/node", Some("18.0.0"), false), install("/b/node", Some("20.1.0"), false)];
    let s = status_from_installations(&def, installs, 0);
    assert_eq!(s.path.as_deref(), Some("/a/node"));
    assert_eq!(s.installed_version.as_deref(), Some("18.0.0"));
}

#[test]
fn status_without_parsed_version_records_error() {
    let def = find("python").unwrap();
    let installs = vec![install("/usr/bin/python3", None, true)];
    let s = status_from_installations(&def, installs, 5);
    assert_eq!(s.installed_version, None);
    assert_eq!(s.path.as_deref(), Some("/usr/bin/python3"));
    assert_eq!(s.error.as_deref(), Some("could not parse version from active binary"));
}

#[test]
fn missing_binary_reason() {
    assert_eq!(not_found_reason("node"), "node not found on PATH");
}

#[test]
fn single_installation_is_active_and_unknown() {
    let v = single_installation("/usr/local/bin/zig".to_string(), Some("0.13.0".to_string()));
    assert_eq!(v.len(), 1);
    assert_eq!(v[0].path, "/usr/local/bin/zig");
    assert_eq!(v[0].version.as_deref(), Some("0.13.0"));
    assert_eq!(v[0].source, InstallationSource::Unknown);
    assert!(v[0].is_active);
}

#[test]
fn infer_source_from_paths() {
    assert_eq!(infer_source_public("/Users/a/.nvm/versions/node/v18/bin/node"), InstallationSource::Nvm);
    assert_eq!(infer_source_public("/Users/a/.pyenv/shims/python"), InstallationSource::Pyenv);
    assert_eq!(infer_source_public("/Users/a/.asdf/shims/ruby"), InstallationSource::Asdf);
    assert_eq!(infer_source_public("/Users/a/.volta/bin/node"), InstallationSource::Volta);
    assert_eq!(infer_source_public("/Users/a/.rustup/toolchains/x/bin/rustc"), InstallationSource::Rustup);
    assert_eq!(infer_source_public("/opt/miniconda3/bin/python"), InstallationSource::Conda);
    assert_eq!(infer_source_public("/opt/homebrew/bin/node"), InstallationSource::Homebrew);
    assert_eq!(infer_source_public("/usr/bin/python3"), InstallationSource::System);
    assert_eq!(infer_source_public("C:\\tools\\node.exe"), InstallationSource::Unknown);
}

#[test]
fn infer_source_lowercases_the_path() {
    assert_eq!(infer_source_public("/Users/A/.NVM/versions/node/v18/bin/node"), InstallationSource::Nvm);
    assert_eq!(infer_source_public("/OPT/HOMEBREW/bin/node"), InstallationSource::Homebrew);
}

#[test]
fn infer_source_checks_in_order() {
    assert_eq!(infer_source_public("/opt/homebrew/.nvm/bin/node"), InstallationSource::Nvm);
}

#[test]
fn which_output_is_split_into_trimmed_paths() {
    let paths = parse_which_output("/opt/homebrew/bin/node\n  \n/usr/bin/node  \n");
    assert_eq!(paths, vec!["/opt/homebrew/bin/node".to_string(), "/usr/bin/node".to_string()]);
    assert!(parse_which_output("").is_empty());
}

#[test]
fn first_path_is_trimmed_output() {
    assert_eq!(first_path("/usr/bin/git\n"), Some("/usr/bin/git".to_string()));
    assert_eq!(first_path("  \n"), None);
}

#[test]
fn installations_first_is_active() {
    let v = installations_from(
        vec!["/opt/homebrew/bin/python3".to_string(), "/usr/bin/python3".to_string()],
        vec![Some("3.12.1".to_string()), None],
    );
    assert_eq!(v.len(), 2);
    assert!(v[0].is_active);
    assert!(!v[1].is_active);
    assert_eq!(v[0].source, InstallationSource::Homebrew);
    assert_eq!(v[1].source, InstallationSource::System);
    assert_eq!(v[1].version, None);
}

#[test]
fn source_of_lowercased_paths_is_case_sensitive() {
    assert_eq!(source_of_lowercased("/users/a/.nvm/versions/node/v18/bin/node"), InstallationSource::Nvm);
    assert_eq!(source_of_lowercased("/USERS/A/.NVM/BIN/NODE"), InstallationSource::Unknown);
    assert_eq!(source_of_lowercased("/usr/local/bin/go"), InstallationSource::System);
    assert_eq!(source_of_lowercased("/home/linuxbrew/.linuxbrew/bin/go"), InstallationSource::Homebrew);
}

#[test]
fn parsed_versions_have_the_shape_of_versions() {
    let outputs = ["v18.17.0", "go version go1.22.3", "1.2.3.4.5.6", "x 7.. y", "1..2", "..3.", "Docker 27.0.3, build 7d4bcd8"];
    for o in outputs {
        let t = parse_version(o, &first_numeric()).unwrap();
        assert!(t.chars().next().unwrap().is_ascii_digit());
        assert!(t.chars().last().unwrap().is_ascii_digit());
        assert!(t.chars().all(|c| c.is_ascii_digit() || c == '.'));
        assert!(t.chars().filter(|&c| c == '.').count() <= 3);
        assert!(!t.contains(".."));
    }
    assert_eq!(parse_version("1..2", &first_numeric()), Some("1".to_string()));
    assert_eq!(parse_version("v3.x", &first_numeric()), Some("3".to_string()));
    assert_eq!(parse_version("..3.", &first_numeric()), Some("3".to_string()));
}

#[test]
fn find_matches_tool_names_exactly() {
    assert_eq!(find("python").unwrap().binary, "python3");
    assert!(find("python3").is_none());
    assert!(find("rustc").is_none());
    assert!(find("Node").is_none());
    assert_eq!(find("rust").unwrap().binary, "rustc");
}

#[test]
fn only_pip_has_no_management_commands() {
    for tool in builtin_tools() {
        match &tool.actions {
            None => assert_eq!(tool.name, "pip"),
            Some(a) => assert!(!a.upgrade.is_empty(), "{} has no upgrade command", tool.name),
        }
    }
}

#[test]
fn digit_free_prefix_reads_like_first_numeric() {
    for output in ["go version go1.22.0 darwin/arm64", "vv3.4", "v", "version 10.1.2.3.4"] {
        for prefix in ["go version go", "v", "version "] {
            assert_eq!(
                parse_version(output, &strip(prefix)),
                parse_version(output, &VersionParser::FirstNumeric)
            );
        }
    }
}

#[test]
fn detected_installations_read_their_versions() {
    let v = installations_from_outputs(
        vec!["/opt/homebrew/bin/python3".to_string(), "/usr/bin/python3".to_string(), "/usr/local/bin/python3".to_string()],
        vec![
            Some(("Python 3.12.1\n".to_string(), String::new())),
            Some((String::new(), "Python 2.7.18\n".to_string())),
            None,
        ],
        &VersionParser::FirstNumeric,
    );
    assert_eq!(v.len(), 3);
    assert_eq!(v[0].version.as_deref(), Some("3.12.1"));
    assert_eq!(v[1].version.as_deref(), Some("2.7.18"));
    assert_eq!(v[2].version, None);
    assert!(v[0].is_active && !v[1].is_active && !v[2].is_active);
    assert_eq!(v[0].source, InstallationSource::Homebrew);
    assert_eq!(v[1].path, "/usr/bin/python3");
}
