//! User settings: enabled tools, auto-check, theme, notification schedule and
//! pinned installation paths.
//!
//! Defaults enable every builtin tool and turn auto-check on at startup.
use vstd::prelude::*;

use crate::registry::{builtin_names, builtin_tools, builtin_view};
use crate::text::str_is;
use crate::types::{
    definition_views, list_contains, opt_view, string_views, DefinitionView, ToolDefinition,
};

verus! {

/// How the background scheduler decides when to fire a notification.
#[derive(Clone, Copy, Debug, PartialEq, Eq, Structural)]
pub enum NotifyMode {
    /// Fire every `interval_hours`, regardless of count.
    Interval,
    /// Spread `max_per_day` notifications across the day.
    DailyCount,
    /// Interval cadence, but never more than `max_per_day` in a day.
    Both,
    /// Notifications disabled entirely.
    Off,
}

impl Default for NotifyMode {
    fn default() -> (r: Self)
        ensures
            r == NotifyMode::Both,
    {
        NotifyMode::Both
    }
}

/// Notification scheduling and quiet-hours configuration.
///
/// Hours are local hours on a 24h clock. Quiet hours wrap across midnight
/// when `quiet_hours_end < quiet_hours_start`.
#[derive(Clone, Copy, Debug, PartialEq, Eq, Structural)]
pub struct NotificationSettings {
    /// Scheduling strategy.
    pub mode: NotifyMode,
    /// Hours between notifications when mode is `Interval` or `Both`.
    pub interval_hours: u32,
    /// Cap on notifications per day.
    pub max_per_day: u32,
    /// Only notify when at least one tool is outdated.
    pub only_updates: bool,
    /// Skip a tool that was already notified about earlier the same day.
    pub dedupe_same_day: bool,
    /// Start of the do-not-disturb window (inclusive).
    pub quiet_hours_start: u32,
    /// End of the do-not-disturb window (exclusive).
    pub quiet_hours_end: u32,
}

/// Default hours between notifications.
pub fn default_interval_hours() -> (r: u32)
    ensures
        r == 6,
{
    6
}

/// Default cap on notifications per day.
pub fn default_max_per_day() -> (r: u32)
    ensures
        r == 4,
{
    4
}

/// Default start of the quiet window.
pub fn default_quiet_start() -> (r: u32)
    ensures
        r == 22,
{
    22
}

/// Default end of the quiet window.
pub fn default_quiet_end() -> (r: u32)
    ensures
        r == 8,
{
    8
}

/// The default of the boolean settings that are on unless turned off.
pub fn default_true() -> (r: bool)
    ensures
        r,
{
    true
}

impl Default for NotificationSettings {
    fn default() -> (r: Self)
        ensures
            r.mode == NotifyMode::Both,
            r.interval_hours == 6,
            r.max_per_day == 4,
            r.only_updates,
            r.dedupe_same_day,
            r.quiet_hours_start == 22,
            r.quiet_hours_end == 8,
    {
        NotificationSettings {
            mode: NotifyMode::default(),
            interval_hours: default_interval_hours(),
            max_per_day: default_max_per_day(),
            only_updates: true,
            dedupe_same_day: true,
            quiet_hours_start: default_quiet_start(),
            quiet_hours_end: default_quiet_end(),
        }
    }
}

/// Whether `hour` lies in the quiet window from `start` (inclusive) to
/// `end` (exclusive), wrapping past midnight when `end < start`; an empty
/// window (`start == end`) is never quiet.
pub open spec fn in_quiet_window(start: u32, end: u32, hour: u32) -> bool {
    if start == end {
        false
    } else if start < end {
        start <= hour && hour < end
    } else {
        hour >= start || hour < end
    }
}

/// Whether a mode keeps the interval cadence.
pub open spec fn uses_interval(mode: NotifyMode) -> bool {
    mode == NotifyMode::Interval || mode == NotifyMode::Both
}

/// The poll interval, in seconds, that the scheduler uses for these settings:
/// in the interval modes four wake-ups per interval window, kept between 15
/// minutes and 6 hours; hourly otherwise.
pub open spec fn poll_interval(s: NotificationSettings) -> u64 {
    if uses_interval(s.mode) {
        let raw = s.interval_hours as nat * 900;
        if raw < 900 {
            900
        } else if raw > 21600 {
            21600
        } else {
            raw as u64
        }
    } else {
        3600
    }
}

impl NotificationSettings {
    /// True if the given local hour falls inside the quiet window.
    ///
    /// Handles wrap-around: start=22, end=8 covers 22, 23, 0..=7.
    pub fn is_quiet_hour(&self, hour: u32) -> (r: bool)
        ensures
            r == in_quiet_window(self.quiet_hours_start, self.quiet_hours_end, hour),
    {
        if self.quiet_hours_start == self.quiet_hours_end {
            return false;
        }
        if self.quiet_hours_start < self.quiet_hours_end {
            hour >= self.quiet_hours_start && hour < self.quiet_hours_end
        } else {
            hour >= self.quiet_hours_start || hour < self.quiet_hours_end
        }
    }

    /// The cadence the scheduler should poll at, in seconds: in the interval
    /// modes four wake-ups per interval window (a quarter of the interval),
    /// kept between 15 minutes and 6 hours; hourly otherwise.
    pub fn poll_interval_secs(&self) -> (r: u64)
        ensures
            r == poll_interval(*self),
            900 <= r <= 21600,
    {
        match self.mode {
            NotifyMode::Off => 3600,
            NotifyMode::Interval | NotifyMode::Both => {
                let raw = self.interval_hours as u64 * 900;
                let lower = if raw > 900 { raw } else { 900 };
                if lower < 21600 { lower } else { 21600 }
            },
            NotifyMode::DailyCount => 3600,
        }
    }
}

/// Quiet windows `start..end` and `end..start` split the hours between them:
/// for distinct bounds, every hour lies in exactly one of the two.
pub proof fn lemma_quiet_windows_complement(start: u32, end: u32, hour: u32)
    requires
        start != end,
    ensures
        in_quiet_window(start, end, hour) == !in_quiet_window(end, start, hour),
{
}

/// User settings.
#[derive(Clone, Debug)]
pub struct Settings {
    /// Builtin tool names that should appear in scans.
    pub enabled_tools: Vec<String>,
    /// Whether to run a scan automatically when the app starts.
    pub auto_check_on_start: bool,
    /// Minimum hours between automatic re-checks.
    pub auto_check_interval_hours: u32,
    /// `"dark"` or `"light"`.
    pub theme: String,
    /// Whether the floating overlay window is shown.
    pub overlay_enabled: bool,
    /// Notification and scheduling preferences.
    pub notifications: NotificationSettings,
    /// User-chosen installation path per tool, as (tool name, absolute
    /// binary path) pairs with distinct tool names.
    pub selected_paths: Vec<(String, String)>,
}

/// The names of the tools enabled by default: every builtin tool.
pub fn default_enabled_tools() -> (r: Vec<String>)
    ensures
        r@.len() == builtin_names().len(),
        forall|i: int| 0 <= i < r@.len() ==> #[trigger] r@[i]@ == builtin_names()[i],
{
    let tools = builtin_tools();
    let mut out: Vec<String> = Vec::new();
    let mut i: usize = 0;
    proof {
        assert forall|k: int| 0 <= k < tools@.len() implies #[trigger] tools@[k].name@ == builtin_names()[k] by {
            assert(definition_views(tools@)[k] == tools@[k]@);
        }
    }
    while i < tools.len()
        invariant
            i <= tools.len(),
            tools@.len() == builtin_names().len(),
            forall|k: int| 0 <= k < tools@.len() ==> #[trigger] tools@[k].name@ == builtin_names()[k],
            out@.len() == i,
            forall|k: int| 0 <= k < i ==> #[trigger] out@[k]@ == builtin_names()[k],
        decreases tools.len() - i,
    {
        out.push(tools[i].name.clone());
        i = i + 1;
    }
    out
}

/// Default hours between automatic re-checks.
pub fn default_interval() -> (r: u32)
    ensures
        r == 24,
{
    24
}

/// Default theme.
pub fn default_theme() -> (r: String)
    ensures
        r@ == "dark"@,
{
    String::from_str("dark")
}

impl Default for Settings {
    fn default() -> (r: Self)
        ensures
            r.enabled_tools@.len() == builtin_names().len(),
            forall|i: int| 0 <= i < r.enabled_tools@.len() ==> #[trigger] r.enabled_tools@[i]@ == builtin_names()[i],
            r.auto_check_on_start,
            r.auto_check_interval_hours == 24,
            r.theme@ == "dark"@,
            r.overlay_enabled,
            r.notifications.mode == NotifyMode::Both,
            r.notifications.interval_hours == 6,
            r.notifications.max_per_day == 4,
            r.notifications.only_updates,
            r.notifications.dedupe_same_day,
            r.notifications.quiet_hours_start == 22,
            r.notifications.quiet_hours_end == 8,
            r.selected_paths@.len() == 0,
    {
        Settings {
            enabled_tools: default_enabled_tools(),
            auto_check_on_start: true,
            auto_check_interval_hours: default_interval(),
            theme: default_theme(),
            overlay_enabled: true,
            notifications: NotificationSettings::default(),
            selected_paths: Vec::new(),
        }
    }
}

/// The path pinned for the tool `name`: that of the first pair naming it.
pub open spec fn pinned_path(pairs: Seq<(String, String)>, name: Seq<char>) -> Option<Seq<char>>
    decreases pairs.len(),
{
    if pairs.len() == 0 {
        None
    } else if pairs[0].0@ == name {
        Some(pairs[0].1@)
    } else {
        pinned_path(pairs.drop_first(), name)
    }
}

/// The installation path the user pinned for the tool `name`, if any.
pub fn selected_path(settings: &Settings, name: &str) -> (r: Option<String>)
    ensures
        opt_view(r) == pinned_path(settings.selected_paths@, name@),
{
    let pairs = &settings.selected_paths;
    let mut i: usize = 0;
    assert(pairs@.skip(0) =~= pairs@);
    while i < pairs.len()
        invariant
            pairs@ == settings.selected_paths@,
            i <= pairs.len(),
            pinned_path(pairs@.skip(i as int), name@) == pinned_path(pairs@, name@),
        decreases pairs.len() - i,
    {
        proof {
            assert(pairs@.skip(i as int)[0] == pairs@[i as int]);
            assert(pairs@.skip(i as int).drop_first() =~= pairs@.skip(i + 1));
        }
        if str_is(pairs[i].0.as_str(), name) {
            let found = pairs[i].1.clone();
            assert(pinned_path(pairs@.skip(i as int), name@) == Some(pairs@[i as int].1@));
            return Some(found);
        }
        i = i + 1;
    }
    assert(pairs@.skip(i as int).len() == 0);
    None
}

/// The definitions whose name is enabled, in their order.
pub open spec fn enabled_definitions(defs: Seq<DefinitionView>, enabled: Seq<Seq<char>>) -> Seq<
    DefinitionView,
>
    decreases defs.len(),
{
    if defs.len() == 0 {
        Seq::empty()
    } else {
        let init = enabled_definitions(defs.drop_last(), enabled);
        if enabled.contains(defs.last().name) {
            init.push(defs.last())
        } else {
            init
        }
    }
}

/// Resolve the active list of tool definitions based on `enabled_tools`.
///
/// The builtin definitions whose name is enabled, in registry order; names
/// that are not builtin are ignored.
pub fn active_definitions(settings: &Settings) -> (r: Vec<ToolDefinition>)
    ensures
        definition_views(r@) == enabled_definitions(
            builtin_view(),
            string_views(settings.enabled_tools@),
        ),
{
    let mut tools = builtin_tools();
    let ghost all = builtin_view();
    let ghost enabled = string_views(settings.enabled_tools@);
    let mut kept: Vec<ToolDefinition> = Vec::new();
    let ghost mut j: int = 0;
    proof {
        assert(all.skip(0) =~= all);
        assert(all.take(0) =~= Seq::<DefinitionView>::empty());
        assert(definition_views(kept@) =~= Seq::<DefinitionView>::empty());
    }
    while tools.len() > 0
        invariant
            0 <= j <= all.len(),
            all == builtin_view(),
            enabled == string_views(settings.enabled_tools@),
            definition_views(tools@) == all.skip(j),
            definition_views(kept@) == enabled_definitions(all.take(j), enabled),
        decreases tools.len(),
    {
        let ghost before = tools@;
        proof {
            assert(definition_views(before).len() == before.len());
            assert(all.skip(j).len() == all.len() - j);
            assert(j < all.len());
        }
        let d = tools.remove(0);
        proof {
            assert(definition_views(before)[0] == before[0]@);
            assert(all.skip(j)[0] == d@);
            assert forall|k: int| 0 <= k < tools@.len() implies #[trigger] definition_views(tools@)[k] == all.skip(j + 1)[k] by {
                assert(tools@[k] == before[k + 1]);
                assert(definition_views(before)[k + 1] == before[k + 1]@);
            }
            assert(definition_views(tools@) =~= all.skip(j + 1));
            assert(all.take(j + 1).drop_last() =~= all.take(j));
            assert(all.take(j + 1).last() == d@);
        }
        if list_contains(&settings.enabled_tools, &d.name) {
            proof {
                assert(definition_views(kept@.push(d)) =~= definition_views(kept@).push(d@));
            }
            kept.push(d);
        }
        proof {
            j = j + 1;
        }
    }
    proof {
        assert(all.skip(j).len() == 0);
        assert(all.take(j) =~= all);
    }
    kept
}

/// The enabled definitions are some of the definitions, and their names
/// differ when those of the definitions do.
pub proof fn lemma_enabled_definitions(defs: Seq<DefinitionView>, enabled: Seq<Seq<char>>)
    ensures
        forall|i: int|
            0 <= i < enabled_definitions(defs, enabled).len() ==> defs.contains(
                #[trigger] enabled_definitions(defs, enabled)[i],
            ),
        (forall|i: int, j: int| 0 <= i < j < defs.len() ==> defs[i].name != defs[j].name) ==> forall|
            i: int,
            j: int,
        |
            0 <= i < j < enabled_definitions(defs, enabled).len() ==> (#[trigger] enabled_definitions(
                defs,
                enabled,
            )[i]).name != (#[trigger] enabled_definitions(defs, enabled)[j]).name,
    decreases defs.len(),
{
    if defs.len() > 0 {
        let init_defs = defs.drop_last();
        lemma_enabled_definitions(init_defs, enabled);
        let init = enabled_definitions(init_defs, enabled);
        let r = enabled_definitions(defs, enabled);
        assert forall|i: int| 0 <= i < r.len() implies defs.contains(#[trigger] r[i]) by {
            if i < init.len() {
                assert(r[i] == init[i]);
                let k = choose|k: int| 0 <= k < init_defs.len() && init_defs[k] == init[i];
                assert(defs[k] == init_defs[k]);
            } else {
                assert(defs[defs.len() - 1] == defs.last());
            }
        }
        if forall|i: int, j: int| 0 <= i < j < defs.len() ==> defs[i].name != defs[j].name {
            assert forall|i: int, j: int| 0 <= i < j < init_defs.len() implies init_defs[i].name != init_defs[j].name by {
                assert(init_defs[i] == defs[i] && init_defs[j] == defs[j]);
            }
            assert forall|i: int, j: int| 0 <= i < j < r.len() implies (#[trigger] r[i]).name != (#[trigger] r[j]).name by {
                if j < init.len() {
                    assert(r[i] == init[i] && r[j] == init[j]);
                } else {
                    assert(r[i] == init[i]);
                    let k = choose|k: int| 0 <= k < init_defs.len() && init_defs[k] == init[i];
                    assert(defs[k] == init_defs[k]);
                    assert(r[j] == defs.last());
                    assert(defs.last() == defs[defs.len() - 1]);
                }
            }
        }
    }
}

} // verus!
