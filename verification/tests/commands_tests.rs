use toolpulse::commands::{
    apply_latest, apply_latest_answers, dashboard_summary, detected_ide, ide_candidates,
    label_verb, lookup_targets, manage_tool_argv, outdated_indices, package_argv, result_notification,
    update_notification,
};
use toolpulse::history::{cutoff_at, history_rows, recent_cutoff};
use toolpulse::runner::{action_label, run_completion, run_start};
use toolpulse::tray::{format_tool_line, menu_header, status_kind, tray_order, tray_tooltip, Kind};
use toolpulse::registry::find;
use toolpulse::types::{timestamp_from, ActionKind, ClockReading, TerminalLine, ToolCategory, ToolStatus};

fn status(name: &str, installed: Option<&str>, latest: Option<&str>, outdated: bool) -> ToolStatus {
    ToolStatus {
        name: name.to_string(),
        display_name: name.to_uppercase(),
        category: ToolCategory::JavaScript,
        icon: "*".to_string(),
        color: "#000".to_string(),
        installed_version: installed.map(|s| s.to_string()),
        latest_version: latest.map(|s| s.to_string()),
        is_outdated: outdated,
        path: None,
        installations: Vec::new(),
        checked_at: 0,
        error: None,
    }
}

fn strings(v: &[&str]) -> Vec<String> {
    v.iter().map(|s| s.to_string()).collect()
}

#[test]
fn package_argv_per_manager() {
    assert_eq!(package_argv("npm", "typescript", ActionKind::Install), Some(strings(&["npm", "install", "-g", "typescript"])));
    assert_eq!(package_argv("npm", "typescript", ActionKind::Upgrade), Some(strings(&["npm", "install", "-g", "typescript@latest"])));
    assert_eq!(package_argv("cargo", "ripgrep", ActionKind::Upgrade), Some(strings(&["cargo", "install", "ripgrep", "--force"])));
    assert_eq!(package_argv("pip", "black", ActionKind::Uninstall), Some(strings(&["pip3", "uninstall", "-y", "black"])));
    assert_eq!(package_argv("gem", "rake", ActionKind::Upgrade), Some(strings(&["gem", "update", "rake"])));
    assert_eq!(package_argv("composer", "laravel/installer", ActionKind::Install), Some(strings(&["composer", "global", "require", "laravel/installer"])));
    assert_eq!(package_argv("brew", "wget", ActionKind::Uninstall), Some(strings(&["brew", "uninstall", "wget"])));
}

#[test]
fn package_argv_refusals() {
    assert_eq!(package_argv("composer", "x/y", ActionKind::Upgrade), None);
    assert_eq!(package_argv("pip", "requests", ActionKind::Upgrade), None);
    assert_eq!(package_argv("node", "x", ActionKind::Install), None);
    assert_eq!(package_argv("bun", "x", ActionKind::Install), None);
    assert_eq!(package_argv("nosuchtool", "x", ActionKind::Install), None);
}

#[test]
fn manage_tool_commands() {
    assert_eq!(manage_tool_argv("node", ActionKind::Install), Ok(strings(&["brew", "install", "node"])));
    assert_eq!(manage_tool_argv("rust", ActionKind::Uninstall), Ok(strings(&["rustup", "component", "remove", "rustc"])));
    assert_eq!(manage_tool_argv("yarn", ActionKind::Upgrade), Ok(strings(&["npm", "install", "-g", "yarn@latest"])));
    assert_eq!(manage_tool_argv("java", ActionKind::Install), Ok(strings(&["brew", "install", "--cask", "temurin"])));
    assert_eq!(manage_tool_argv("brew", ActionKind::Upgrade), Ok(strings(&["brew", "update"])));
}

#[test]
fn manage_tool_errors() {
    assert_eq!(manage_tool_argv("nope", ActionKind::Install), Err("unknown tool: nope".to_string()));
    assert_eq!(manage_tool_argv("pip", ActionKind::Install), Err("pip has no install/uninstall actions".to_string()));
    assert_eq!(manage_tool_argv("brew", ActionKind::Install), Err("Homebrew cannot be installed this way".to_string()));
    assert_eq!(manage_tool_argv("gem", ActionKind::Uninstall), Err("RubyGems cannot be uninstalled this way".to_string()));
}

#[test]
fn label_verbs() {
    assert_eq!(label_verb(ActionKind::Install), "installed this way");
    assert_eq!(label_verb(ActionKind::Uninstall), "uninstalled this way");
    assert_eq!(label_verb(ActionKind::Upgrade), "upgraded this way");
}

#[test]
fn dashboard_counts() {
    let statuses = vec![
        status("a", Some("1.0"), Some("2.0"), true),
        status("b", Some("1.0"), None, false),
        status("c", None, None, false),
    ];
    let d = dashboard_summary(statuses);
    assert_eq!(d.total, 3);
    assert_eq!(d.installed, 2);
    assert_eq!(d.outdated, 1);
    assert_eq!(d.missing, 1);
    assert_eq!(d.installed + d.missing, d.total);
}

#[test]
fn apply_latest_marks_outdated() {
    let mut s = status("node", Some("18.0.0"), None, false);
    apply_latest(&mut s, Some("20.0.0".to_string()));
    assert_eq!(s.latest_version.as_deref(), Some("20.0.0"));
    assert!(s.is_outdated);
    apply_latest(&mut s, Some("20.0.0".to_string()));
    assert!(s.is_outdated);
    let mut t = status("node", Some("20.0.0"), None, false);
    apply_latest(&mut t, Some("20.0.0".to_string()));
    assert!(!t.is_outdated);
}

#[test]
fn apply_latest_none_keeps_flag_and_clears_latest() {
    let mut s = status("node", Some("18.0.0"), Some("19.0.0"), true);
    apply_latest(&mut s, None);
    assert_eq!(s.latest_version, None);
    assert!(s.is_outdated);
    let mut m = status("x", None, None, false);
    apply_latest(&mut m, Some("1.0".to_string()));
    assert_eq!(m.latest_version.as_deref(), Some("1.0"));
    assert!(!m.is_outdated);
}

#[test]
fn latest_answers_go_to_their_tools() {
    let mut statuses = vec![status("node", Some("18.0.0"), None, false), status("go", Some("1.22"), None, false)];
    apply_latest_answers(
        &mut statuses,
        vec![("go".to_string(), Some("1.23".to_string())), ("zig".to_string(), Some("1.0".to_string())), ("node".to_string(), None)],
    );
    assert_eq!(statuses.len(), 2);
    assert_eq!(statuses[0].latest_version, None);
    assert!(!statuses[0].is_outdated);
    assert_eq!(statuses[1].latest_version.as_deref(), Some("1.23"));
    assert!(statuses[1].is_outdated);
}

#[test]
fn outdated_notification_text() {
    let statuses = vec![
        status("node", Some("18.0.0"), Some("20.0.0"), true),
        status("go", Some("1.22"), None, false),
        status("zig", None, None, true),
    ];
    let picked = outdated_indices(&statuses);
    assert_eq!(picked, vec![0, 2]);
    let (title, body) = update_notification(&statuses, &picked);
    assert_eq!(title, "Toolpulse: 2 update(s) available");
    assert_eq!(body, "NODE 18.0.0 → 20.0.0\nZIG ? → ?");
}

#[test]
fn result_notification_texts() {
    assert_eq!(result_notification("Installed Node.js", None), ("Toolpulse".to_string(), "✓ Installed Node.js".to_string()));
    let err = "exited with code 1".to_string();
    assert_eq!(
        result_notification("Installed Node.js", Some(&err)),
        ("Toolpulse error".to_string(), "✗ Installed Node.js: exited with code 1".to_string())
    );
}

#[test]
fn ide_detection() {
    let candidates = ide_candidates();
    assert_eq!(candidates.len(), 8);
    assert_eq!(candidates[3], ("zed", "Zed", "zeditor", "Zed.app"));
    let d = detected_ide(candidates[0], true, true).unwrap();
    assert_eq!((d.id.as_str(), d.name.as_str(), d.command.as_str(), d.is_app), ("code", "VS Code", "code", false));
    let a = detected_ide(candidates[2], false, true).unwrap();
    assert_eq!((a.command.as_str(), a.is_app), ("Cursor.app", true));
    assert!(detected_ide(candidates[6], false, true).is_none());
    assert!(detected_ide(candidates[4], false, false).is_none());
}

#[test]
fn history_cutoffs() {
    assert_eq!(cutoff_at(1_000_000, 7), Some(1_000_000 - 7 * 86_400));
    assert_eq!(cutoff_at(0, 0), Some(0));
    assert_eq!(cutoff_at(0, i64::MAX), None);
    assert_eq!(cutoff_at(i64::MIN, 1), None);
    assert_eq!(cutoff_at(-5, -1), Some(86_395));
    assert_eq!(recent_cutoff(i64::MAX), None);
    assert!(recent_cutoff(30).is_some());
}

#[test]
fn history_rows_follow_statuses() {
    let statuses = vec![status("node", Some("18.0.0"), Some("20.0.0"), true), status("go", None, None, false)];
    let rows = history_rows(&statuses);
    assert_eq!(rows.len(), 2);
    assert_eq!(rows[0], ("node".to_string(), Some("18.0.0".to_string()), Some("20.0.0".to_string()), true, 0));
    assert_eq!(rows[1], ("go".to_string(), None, None, false, 0));
}

#[test]
fn action_labels() {
    assert_eq!(action_label(ActionKind::Install, "Node.js"), "Installed Node.js");
    assert_eq!(action_label(ActionKind::Uninstall, "typescript (npm)"), "Uninstalled typescript (npm)");
    assert_eq!(action_label(ActionKind::Upgrade, "Go"), "Upgraded Go");
}

#[test]
fn run_start_shows_the_command() {
    match run_start(&strings(&["brew", "install", "node"])) {
        Ok(TerminalLine::Status { text }) => assert_eq!(text, "$ brew install node"),
        _ => panic!("expected a status line"),
    }
    assert_eq!(run_start(&Vec::new()).err(), Some("empty command".to_string()));
}

#[test]
fn run_completion_outcomes() {
    match run_completion(true, true, Some(0)) {
        (TerminalLine::Done { success, message }, r) => {
            assert!(!success);
            assert_eq!(message, "Cancelled by user.");
            assert_eq!(r, Err("cancelled".to_string()));
        },
        _ => panic!("expected done"),
    }
    match run_completion(false, true, Some(0)) {
        (TerminalLine::Done { success, message }, r) => {
            assert!(success);
            assert_eq!(message, "Completed successfully.");
            assert_eq!(r, Ok(()));
        },
        _ => panic!("expected done"),
    }
    match run_completion(false, false, Some(2)) {
        (TerminalLine::Done { success, message }, r) => {
            assert!(!success);
            assert_eq!(message, "exited with code 2");
            assert_eq!(r, Err("exited with code 2".to_string()));
        },
        _ => panic!("expected done"),
    }
    match run_completion(false, false, None) {
        (TerminalLine::Done { message, .. }, _) => assert_eq!(message, "exited with code -1"),
        _ => panic!("expected done"),
    }
}

#[test]
fn tray_kinds_and_lines() {
    let outdated = status("node", Some("18.0.0"), Some("20.0.0"), true);
    let unknown = status("go", Some("1.22"), None, false);
    let mut missing = status("zig", None, None, false);
    missing.error = Some("zig not found on PATH".to_string());
    let fine = status("deno", Some("2.0"), Some("2.0"), false);
    assert_eq!(status_kind(&outdated), Kind::Outdated);
    assert_eq!(status_kind(&unknown), Kind::Unknown);
    assert_eq!(status_kind(&missing), Kind::Missing);
    assert_eq!(status_kind(&fine), Kind::Updated);
    assert_eq!(format_tool_line(&outdated), "* NODE   18.0.0 → 20.0.0");
    assert_eq!(format_tool_line(&unknown), "* GO   1.22");
    assert_eq!(format_tool_line(&missing), "* ZIG   not installed");
}

#[test]
fn tray_header_and_tooltip() {
    assert_eq!(menu_header(&Vec::new()), "Toolpulse — not scanned yet");
    let statuses = vec![
        status("node", Some("18.0.0"), Some("20.0.0"), true),
        status("go", Some("1.22"), None, false),
        status("zig", None, None, false),
    ];
    assert_eq!(menu_header(&statuses), "1 up to date · 1 updates · 1 missing");
    assert_eq!(tray_tooltip(&statuses), "Toolpulse — 1 update(s) available");
    assert_eq!(tray_tooltip(&vec![status("go", Some("1.22"), None, false)]), "Toolpulse — all up to date");
}

#[test]
fn tray_order_is_stable_by_rank() {
    let mut missing = status("zig", None, None, false);
    missing.error = Some("not found".to_string());
    let statuses = vec![
        status("deno", Some("2.0"), Some("2.0"), false),
        status("go", Some("1.22"), None, false),
        missing,
        status("node", Some("18.0.0"), Some("20.0.0"), true),
        status("bun", Some("1.0"), Some("1.1"), true),
    ];
    let order = tray_order(&statuses);
    assert_eq!(order, vec![3, 4, 2, 1, 0]);
    let mut seen = order.clone();
    seen.sort();
    assert_eq!(seen, vec![0, 1, 2, 3, 4]);
}

#[test]
fn latest_lookups_only_for_installed_tools() {
    let defs = vec![find("node").unwrap(), find("go").unwrap(), find("node").unwrap()];
    let statuses = vec![
        status("go", Some("1.22"), None, false),
        status("node", Some("20.0.0"), None, false),
        status("zig", Some("0.13"), None, false),
        status("node", None, None, false),
    ];
    assert_eq!(lookup_targets(&statuses, &defs), vec![Some(1), Some(0), None, None]);
}

#[test]
fn scan_enrichment_follows_lookup_targets() {
    let defs = vec![find("node").unwrap(), find("go").unwrap(), find("zig").unwrap()];
    let mut statuses = vec![
        status("node", Some("18.0.0"), None, false),
        status("go", None, None, false),
        status("zig", Some("0.13.0"), None, false),
    ];
    let targets = lookup_targets(&statuses, &defs);
    assert_eq!(targets, vec![Some(0), None, Some(2)]);
    let answers = vec![
        ("node".to_string(), Some("20.1.0".to_string())),
        ("go".to_string(), None),
        ("zig".to_string(), Some("0.13.0".to_string())),
    ];
    apply_latest_answers(&mut statuses, answers);
    assert_eq!(statuses[0].latest_version.as_deref(), Some("20.1.0"));
    assert!(statuses[0].is_outdated);
    assert_eq!(statuses[1].latest_version, None);
    assert!(!statuses[1].is_outdated);
    assert_eq!(statuses[2].latest_version.as_deref(), Some("0.13.0"));
    assert!(!statuses[2].is_outdated);
}

#[test]
fn clock_readings_as_timestamps() {
    assert_eq!(timestamp_from(ClockReading::After(1_700_000_000, 5)), Some(1_700_000_000));
    assert_eq!(timestamp_from(ClockReading::Before(0, 500)), Some(-1));
    assert_eq!(timestamp_from(ClockReading::Before(3, 0)), Some(-3));
    assert_eq!(timestamp_from(ClockReading::Before(3, 1)), Some(-4));
    assert_eq!(timestamp_from(ClockReading::After(u64::MAX, 0)), None);
    assert_eq!(timestamp_from(ClockReading::Before(1 << 63, 0)), Some(i64::MIN));
    assert_eq!(timestamp_from(ClockReading::Before(1 << 63, 1)), None);
}
