use toolpulse::registry::{builtin_tools, find, strs};
use toolpulse::scheduler::{begin_tick, finish_tick, SchedulerState};
use toolpulse::settings::{
    active_definitions, default_enabled_tools, default_interval, default_interval_hours,
    default_max_per_day, default_quiet_end, selected_path, default_quiet_start, default_theme, default_true,
    NotificationSettings, NotifyMode, Settings,
};
use toolpulse::types::{LatestSource, PackageSource, ToolCategory, ToolStatus, VersionParser};

fn notif(mode: NotifyMode) -> NotificationSettings {
    NotificationSettings { mode, ..NotificationSettings::default() }
}

fn status(name: &str, outdated: bool) -> ToolStatus {
    ToolStatus {
        name: name.to_string(),
        display_name: name.to_string(),
        category: ToolCategory::Runtime,
        icon: String::new(),
        color: String::new(),
        installed_version: Some("1.0".to_string()),
        latest_version: Some("2.0".to_string()),
        is_outdated: outdated,
        path: None,
        installations: Vec::new(),
        checked_at: 0,
        error: None,
    }
}

#[test]
fn registry_lists_every_tool_once() {
    let tools = builtin_tools();
    assert_eq!(tools.len(), 26);
    let mut names: Vec<&str> = tools.iter().map(|t| t.name.as_str()).collect();
    assert_eq!(names[0], "node");
    assert_eq!(names[25], "volta");
    names.sort();
    names.dedup();
    assert_eq!(names.len(), 26);
}

#[test]
fn registry_find() {
    let go = find("go").unwrap();
    assert_eq!(go.display_name, "Go");
    assert_eq!(go.binary, "go");
    assert_eq!(go.args, vec!["version".to_string()]);
    assert!(matches!(&go.parser, VersionParser::StripPrefix { prefix } if prefix == "go"));
    assert_eq!(go.packages, Some(PackageSource::GoModules));
    assert!(find("Go").is_none());
    assert!(find("").is_none());
}

#[test]
fn registry_default_actions_are_attached() {
    let node = find("node").unwrap();
    let a = node.actions.unwrap();
    assert_eq!(a.install, strs(&["brew", "install", "node"]));
    assert_eq!(a.uninstall, strs(&["brew", "uninstall", "node"]));
    assert_eq!(a.upgrade, strs(&["brew", "upgrade", "node"]));
    let cargo = find("cargo").unwrap().actions.unwrap();
    assert_eq!(cargo.install, strs(&["rustup", "component", "add", "cargo"]));
    assert_eq!(cargo.upgrade, strs(&["rustup", "update"]));
    let npm = find("npm").unwrap().actions.unwrap();
    assert_eq!(npm.upgrade, strs(&["npm", "install", "-g", "npm@latest"]));
    let volta = find("volta").unwrap().actions.unwrap();
    assert_eq!(volta.install, strs(&["brew", "install", "--cask", "volta"]));
    assert!(find("pip").unwrap().actions.is_none());
    let brew = find("brew").unwrap().actions.unwrap();
    assert!(brew.install.is_empty() && brew.uninstall.is_empty());
    assert!(!brew.is_empty());
    let tools = builtin_tools();
    let managed = tools.iter().filter(|t| t.actions.is_some()).count();
    assert_eq!(managed, 25);
}

#[test]
fn registry_latest_sources() {
    match find("rust").unwrap().latest {
        LatestSource::Json { url, pointer } => {
            assert_eq!(url, "https://static.rust-lang.org/dist/channel-rust-stable.toml");
            assert!(pointer.is_empty());
        },
        _ => panic!("rust reads a channel file"),
    }
    assert!(matches!(find("python").unwrap().latest, LatestSource::NoLookup));
    assert!(matches!(find("deno").unwrap().latest, LatestSource::GitHub { repo } if repo == "denoland/deno"));
}

#[test]
fn settings_defaults() {
    let s = Settings::default();
    assert_eq!(s.enabled_tools.len(), 26);
    assert_eq!(s.enabled_tools, default_enabled_tools());
    assert!(s.auto_check_on_start);
    assert_eq!(s.auto_check_interval_hours, 24);
    assert_eq!(default_interval(), 24);
    assert_eq!(s.theme, "dark");
    assert_eq!(default_theme(), "dark");
    assert!(s.overlay_enabled);
    assert!(s.selected_paths.is_empty());
    let n = s.notifications;
    assert_eq!(n.mode, NotifyMode::Both);
    assert_eq!(NotifyMode::default(), NotifyMode::Both);
    assert_eq!(n.interval_hours, default_interval_hours());
    assert_eq!(n.interval_hours, 6);
    assert_eq!(n.max_per_day, default_max_per_day());
    assert_eq!(n.max_per_day, 4);
    assert_eq!((n.quiet_hours_start, n.quiet_hours_end), (default_quiet_start(), default_quiet_end()));
    assert_eq!((n.quiet_hours_start, n.quiet_hours_end), (22, 8));
    assert!(n.only_updates && n.dedupe_same_day && default_true());
}

#[test]
fn quiet_hours_wrap_midnight() {
    let n = NotificationSettings::default();
    for h in [22, 23, 0, 1, 7] {
        assert!(n.is_quiet_hour(h));
    }
    for h in [8, 12, 21] {
        assert!(!n.is_quiet_hour(h));
    }
}

#[test]
fn quiet_hours_plain_and_empty_windows() {
    let day = NotificationSettings { quiet_hours_start: 9, quiet_hours_end: 17, ..NotificationSettings::default() };
    assert!(day.is_quiet_hour(9));
    assert!(day.is_quiet_hour(16));
    assert!(!day.is_quiet_hour(17));
    assert!(!day.is_quiet_hour(8));
    let none = NotificationSettings { quiet_hours_start: 5, quiet_hours_end: 5, ..NotificationSettings::default() };
    for h in 0..24 {
        assert!(!none.is_quiet_hour(h));
    }
}

#[test]
fn quiet_windows_are_complements() {
    let a = NotificationSettings { quiet_hours_start: 22, quiet_hours_end: 8, ..NotificationSettings::default() };
    let b = NotificationSettings { quiet_hours_start: 8, quiet_hours_end: 22, ..NotificationSettings::default() };
    for h in 0..24 {
        assert_eq!(a.is_quiet_hour(h), !b.is_quiet_hour(h));
    }
}

#[test]
fn poll_intervals() {
    assert_eq!(notif(NotifyMode::Off).poll_interval_secs(), 3600);
    assert_eq!(notif(NotifyMode::DailyCount).poll_interval_secs(), 3600);
    assert_eq!(notif(NotifyMode::Both).poll_interval_secs(), 6 * 900);
    let short = NotificationSettings { interval_hours: 0, ..notif(NotifyMode::Interval) };
    assert_eq!(short.poll_interval_secs(), 900);
    let long = NotificationSettings { interval_hours: 48, ..notif(NotifyMode::Interval) };
    assert_eq!(long.poll_interval_secs(), 21600);
    let mid = NotificationSettings { interval_hours: 2, ..notif(NotifyMode::Interval) };
    assert_eq!(mid.poll_interval_secs(), 1800);
    let day = NotificationSettings { interval_hours: 24, ..notif(NotifyMode::Interval) };
    assert_eq!(day.poll_interval_secs(), 21600);
    let huge = NotificationSettings { interval_hours: u32::MAX, ..notif(NotifyMode::Both) };
    assert_eq!(huge.poll_interval_secs(), 21600);
}

#[test]
fn active_definitions_follow_registry_order() {
    let mut s = Settings::default();
    s.enabled_tools = vec!["go".to_string(), "node".to_string(), "unknown".to_string(), "go".to_string()];
    let defs = active_definitions(&s);
    let names: Vec<&str> = defs.iter().map(|d| d.name.as_str()).collect();
    assert_eq!(names, vec!["node", "go"]);
    s.enabled_tools = Vec::new();
    assert!(active_definitions(&s).is_empty());
    assert_eq!(active_definitions(&Settings::default()).len(), 26);
}

#[test]
fn scheduler_off_and_quiet_do_nothing() {
    let mut st = SchedulerState::default();
    assert!(!begin_tick(&mut st, &notif(NotifyMode::Off), 12, 100, 0));
    assert_eq!(st.day, None);
    assert!(!begin_tick(&mut st, &notif(NotifyMode::Both), 23, 100, 0));
    assert_eq!(st.day, None);
}

#[test]
fn scheduler_fires_and_respects_interval() {
    let n = notif(NotifyMode::Both);
    let mut st = SchedulerState::default();
    assert!(begin_tick(&mut st, &n, 12, 100, 1_000));
    assert_eq!(st.day, Some(100));
    let statuses = vec![status("node", true), status("go", false)];
    let picked = finish_tick(&mut st, &n, &statuses, 1_000);
    assert_eq!(picked, vec![0]);
    assert_eq!(st.fired_at, vec![1_000]);
    assert_eq!(st.last_fired, Some(1_000));
    assert_eq!(st.notified_tools, vec!["node".to_string()]);
    assert!(!begin_tick(&mut st, &n, 13, 100, 1_000 + 6 * 3600 - 1));
    assert!(begin_tick(&mut st, &n, 13, 100, 1_000 + 6 * 3600));
}

#[test]
fn scheduler_dedupes_within_a_day() {
    let n = notif(NotifyMode::DailyCount);
    let mut st = SchedulerState::default();
    let statuses = vec![status("node", true)];
    assert!(begin_tick(&mut st, &n, 12, 7, 0));
    assert_eq!(finish_tick(&mut st, &n, &statuses, 0), vec![0]);
    assert!(begin_tick(&mut st, &n, 12, 7, 10));
    assert!(finish_tick(&mut st, &n, &statuses, 10).is_empty());
    assert_eq!(st.fired_at, vec![0]);
    assert_eq!(st.last_fired, Some(0));
}

#[test]
fn scheduler_cap_over_a_rolling_day() {
    let n = NotificationSettings { max_per_day: 1, ..notif(NotifyMode::DailyCount) };
    let mut st = SchedulerState::default();
    assert!(begin_tick(&mut st, &n, 21, 7, 0));
    assert_eq!(finish_tick(&mut st, &n, &vec![status("node", true)], 0), vec![0]);
    assert!(!begin_tick(&mut st, &n, 21, 7, 10));
    // A new local day forgets the names but not the cap of the last 24 hours.
    assert!(!begin_tick(&mut st, &n, 9, 8, 12 * 3600));
    assert!(st.notified_tools.is_empty());
    assert_eq!(st.day, Some(8));
    assert!(!begin_tick(&mut st, &n, 20, 8, 86_399));
    assert!(begin_tick(&mut st, &n, 21, 8, 86_400));
    assert_eq!(finish_tick(&mut st, &n, &vec![status("node", true)], 86_400), vec![0]);
    assert_eq!(st.fired_at, vec![86_400]);
}

#[test]
fn scheduler_nothing_new_advances_interval_timer_only() {
    let n = notif(NotifyMode::Interval);
    let mut st = SchedulerState::default();
    assert!(begin_tick(&mut st, &n, 12, 1, 50));
    assert!(finish_tick(&mut st, &n, &vec![status("go", false)], 50).is_empty());
    assert_eq!(st.last_fired, Some(50));
    assert!(st.fired_at.is_empty());
    let d = notif(NotifyMode::DailyCount);
    let mut st2 = SchedulerState::default();
    assert!(begin_tick(&mut st2, &d, 12, 1, 50));
    assert!(finish_tick(&mut st2, &d, &vec![status("go", false)], 50).is_empty());
    assert_eq!(st2.last_fired, None);
}

#[test]
fn scheduler_all_tools_when_updates_not_required() {
    let n = NotificationSettings { only_updates: false, dedupe_same_day: false, ..notif(NotifyMode::DailyCount) };
    let mut st = SchedulerState::default();
    assert!(begin_tick(&mut st, &n, 12, 1, 0));
    let statuses = vec![status("go", false), status("go", true)];
    assert_eq!(finish_tick(&mut st, &n, &statuses, 0), vec![0, 1]);
    assert_eq!(st.notified_tools, vec!["go".to_string()]);
}

#[test]
fn pinned_installation_paths() {
    let mut s = Settings::default();
    assert_eq!(selected_path(&s, "node"), None);
    s.selected_paths = vec![
        ("node".to_string(), "/opt/node/bin/node".to_string()),
        ("go".to_string(), "/usr/local/go/bin/go".to_string()),
    ];
    assert_eq!(selected_path(&s, "go"), Some("/usr/local/go/bin/go".to_string()));
    assert_eq!(selected_path(&s, "node"), Some("/opt/node/bin/node".to_string()));
    assert_eq!(selected_path(&s, "zig"), None);
}

#[test]
fn scheduler_run_keeps_cap_and_no_repeat_within_a_day() {
    let n = NotificationSettings {
        max_per_day: 3,
        dedupe_same_day: true,
        quiet_hours_start: 0,
        quiet_hours_end: 0,
        ..notif(NotifyMode::DailyCount)
    };
    let mut st = SchedulerState::default();
    let mut shown: Vec<(u64, i64, Vec<String>)> = Vec::new();
    for h in 0..(24 * 4) as u64 {
        let now = h * 3600 + 17;
        let today = (h / 24) as i64;
        // Two tools that never change and one new each hour.
        let statuses = vec![status("node", true), status("go", true), status(&format!("t{h}"), true)];
        if begin_tick(&mut st, &n, (h % 24) as u32, today, now) {
            let picked = finish_tick(&mut st, &n, &statuses, now);
            if !picked.is_empty() {
                shown.push((now, today, picked.iter().map(|&i| statuses[i].name.clone()).collect()));
            }
        }
    }
    assert!(shown.len() >= 4);
    for (t, _, _) in &shown {
        let in_window = shown.iter().filter(|(f, _, _)| *f >= *t && *f < *t + 86_400).count();
        assert!(in_window <= 3);
    }
    for (a, (_, day_a, names_a)) in shown.iter().enumerate() {
        for (_, day_b, names_b) in shown.iter().skip(a + 1) {
            if day_a == day_b {
                assert!(names_a.iter().all(|x| !names_b.contains(x)));
            }
        }
    }
}
