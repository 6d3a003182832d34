//! Decisions of the background notification scheduler.
//!
//! The scheduler wakes on a poll interval. Each wake-up is split in two
//! steps around the scan that the caller performs: `begin_tick` decides
//! whether to scan at all (mode, quiet hours, the cap on notifications in
//! any 24 hours, interval cadence, with the names notified about forgotten
//! at the start of a new local day), and
//! `finish_tick` decides which of the scanned tools to notify about and
//! does the bookkeeping. Times are passed in: the local hour and day, and a
//! monotonic clock in seconds.
use vstd::prelude::*;

use crate::settings::{in_quiet_window, uses_interval, NotificationSettings, NotifyMode};
use crate::types::{list_contains, string_views, ToolStatus};

verus! {

/// Mutable state owned by the notification scheduler.
#[derive(Clone, Debug)]
pub struct SchedulerState {
    /// Local calendar day (days since the epoch) the notified names belong to.
    pub day: Option<i64>,
    /// Monotonic times (seconds) of the notifications fired within the last
    /// 24 hours, oldest first.
    pub fired_at: Vec<u64>,
    /// Monotonic time (seconds) of the most recent fired notification, or of
    /// the most recent check that found nothing new in an interval mode.
    pub last_fired: Option<u64>,
    /// Tool names notified during `day`, each once.
    pub notified_tools: Vec<String>,
}

/// The scheduler state as plain values.
#[verifier::ext_equal]
pub struct SchedulerModel {
    pub day: Option<i64>,
    pub fired: Seq<u64>,
    pub last_fired: Option<u64>,
    pub notified: Seq<Seq<char>>,
}

impl View for SchedulerState {
    type V = SchedulerModel;

    open spec fn view(&self) -> SchedulerModel {
        SchedulerModel {
            day: self.day,
            fired: self.fired_at@,
            last_fired: self.last_fired,
            notified: string_views(self.notified_tools@),
        }
    }
}

impl Default for SchedulerState {
    fn default() -> (r: Self)
        ensures
            r.day is None,
            r.fired_at@.len() == 0,
            r.last_fired is None,
            r.notified_tools@.len() == 0,
    {
        SchedulerState { day: None, fired_at: Vec::new(), last_fired: None, notified_tools: Vec::new() }
    }
}

/// Seconds from `last` to `now`, zero when `now` is earlier.
pub open spec fn elapsed(last: u64, now: u64) -> nat {
    if now >= last {
        (now - last) as nat
    } else {
        0
    }
}

/// Seconds in the window of the notification cap.
pub open spec fn cap_window() -> nat {
    86_400
}

/// The fire times of `f` less than 24 hours before `now`, in order.
pub open spec fn recent_fires(f: Seq<u64>, now: u64) -> Seq<u64>
    decreases f.len(),
{
    if f.len() == 0 {
        Seq::empty()
    } else {
        let init = recent_fires(f.drop_last(), now);
        if elapsed(f.last(), now) < cap_window() {
            init.push(f.last())
        } else {
            init
        }
    }
}

/// The state with the notified names forgotten when `today` is a new day.
pub open spec fn rolled_over(s: SchedulerModel, today: i64) -> SchedulerModel {
    if s.day == Some(today) {
        s
    } else {
        SchedulerModel { day: Some(today), notified: Seq::empty(), ..s }
    }
}

/// Whether the interval cadence holds a scan back at `now`.
pub open spec fn interval_blocks(s: SchedulerModel, n: NotificationSettings, now: u64) -> bool {
    uses_interval(n.mode) && match s.last_fired {
        Some(last) => elapsed(last, now) < n.interval_hours as nat * 3600,
        None => false,
    }
}

/// The first step of a wake-up: the next state, and whether to scan.
///
/// Nothing happens when notifications are off or the hour is quiet. Otherwise
/// the notified names are forgotten on a new day, and the scan goes ahead
/// unless `max_per_day` notifications were fired in the last 24 hours or the
/// interval since the last notification has not yet passed (in the interval
/// modes).
pub open spec fn before_scan(
    s: SchedulerModel,
    n: NotificationSettings,
    hour: u32,
    today: i64,
    now: u64,
) -> (SchedulerModel, bool) {
    if n.mode == NotifyMode::Off || in_quiet_window(n.quiet_hours_start, n.quiet_hours_end, hour) {
        (s, false)
    } else {
        let r = rolled_over(s, today);
        if recent_fires(r.fired, now).len() >= n.max_per_day as nat {
            (r, false)
        } else if interval_blocks(r, n, now) {
            (r, false)
        } else {
            (r, true)
        }
    }
}

/// Whether a scanned tool is to be notified about.
pub open spec fn is_candidate(t: ToolStatus, n: NotificationSettings, notified: Seq<Seq<char>>) -> bool {
    &&& (!n.only_updates || t.is_outdated)
    &&& (!n.dedupe_same_day || !notified.contains(t.name@))
}

/// The positions, among the first `k` statuses, of the tools to notify about.
pub open spec fn candidates(
    st: Seq<ToolStatus>,
    n: NotificationSettings,
    notified: Seq<Seq<char>>,
    k: nat,
) -> Seq<usize>
    decreases k,
{
    if k == 0 {
        Seq::empty()
    } else {
        let init = candidates(st, n, notified, (k - 1) as nat);
        if is_candidate(st[k - 1], n, notified) {
            init.push((k - 1) as usize)
        } else {
            init
        }
    }
}

/// `set` with each of `names` appended unless already present.
pub open spec fn add_names(set: Seq<Seq<char>>, names: Seq<Seq<char>>) -> Seq<Seq<char>>
    decreases names.len(),
{
    if names.len() == 0 {
        set
    } else {
        let s = add_names(set, names.drop_last());
        if s.contains(names.last()) {
            s
        } else {
            s.push(names.last())
        }
    }
}

/// The names of the statuses at the given positions.
pub open spec fn names_at(st: Seq<ToolStatus>, idx: Seq<usize>) -> Seq<Seq<char>> {
    idx.map_values(|i: usize| st[i as int].name@)
}

/// The second step of a wake-up, after the scan: the next state and the
/// positions of the tools to notify about (none means no notification).
///
/// With no candidate, nothing is fired, and the interval timer restarts in
/// the interval modes. Otherwise one grouped notification is fired at `now`:
/// it joins the fire times of the last 24 hours, the timer restarts and the
/// names are remembered.
pub open spec fn after_scan(
    s: SchedulerModel,
    n: NotificationSettings,
    st: Seq<ToolStatus>,
    now: u64,
) -> (SchedulerModel, Seq<usize>) {
    let c = candidates(st, n, s.notified, st.len());
    if c.len() == 0 {
        if uses_interval(n.mode) {
            (SchedulerModel { last_fired: Some(now), ..s }, c)
        } else {
            (s, c)
        }
    } else {
        (
            SchedulerModel {
                day: s.day,
                fired: recent_fires(s.fired, now).push(now),
                last_fired: Some(now),
                notified: add_names(s.notified, names_at(st, c)),
            },
            c,
        )
    }
}

/// How many of the fire times are less than 24 hours before `now`.
fn recent_count(fired: &Vec<u64>, now: u64) -> (r: usize)
    ensures
        r == recent_fires(fired@, now).len(),
{
    let mut count: usize = 0;
    let mut i: usize = 0;
    while i < fired.len()
        invariant
            i <= fired.len(),
            count == recent_fires(fired@.take(i as int), now).len(),
            count <= i,
        decreases fired.len() - i,
    {
        proof {
            assert(fired@.take(i + 1).drop_last() =~= fired@.take(i as int));
            assert(fired@.take(i + 1).last() == fired@[i as int]);
        }
        let t = fired[i];
        let age: u64 = if now >= t { now - t } else { 0 };
        if age < 86_400 {
            count = count + 1;
        }
        i = i + 1;
    }
    assert(fired@.take(fired@.len() as int) =~= fired@);
    count
}

/// The fire times less than 24 hours before `now`.
fn prune_fires(fired: &Vec<u64>, now: u64) -> (r: Vec<u64>)
    ensures
        r@ == recent_fires(fired@, now),
{
    let mut out: Vec<u64> = Vec::new();
    let mut i: usize = 0;
    while i < fired.len()
        invariant
            i <= fired.len(),
            out@ == recent_fires(fired@.take(i as int), now),
        decreases fired.len() - i,
    {
        proof {
            assert(fired@.take(i + 1).drop_last() =~= fired@.take(i as int));
            assert(fired@.take(i + 1).last() == fired@[i as int]);
        }
        let t = fired[i];
        let age: u64 = if now >= t { now - t } else { 0 };
        if age < 86_400 {
            out.push(t);
        }
        i = i + 1;
    }
    assert(fired@.take(fired@.len() as int) =~= fired@);
    out
}

/// The first step of a wake-up: rolls the day over and says whether to scan.
pub fn begin_tick(
    state: &mut SchedulerState,
    settings: &NotificationSettings,
    hour: u32,
    today: i64,
    now: u64,
) -> (proceed: bool)
    ensures
        (final(state)@, proceed) == before_scan(old(state)@, *settings, hour, today, now),
{
    if settings.mode == NotifyMode::Off {
        return false;
    }
    if settings.is_quiet_hour(hour) {
        return false;
    }
    if state.day != Some(today) {
        state.day = Some(today);
        state.notified_tools = Vec::new();
        assert(state@ =~= rolled_over(old(state)@, today));
    }
    if recent_count(&state.fired_at, now) >= settings.max_per_day as usize {
        return false;
    }
    if settings.mode == NotifyMode::Interval || settings.mode == NotifyMode::Both {
        if let Some(last) = state.last_fired {
            let elapsed: u64 = if now >= last { now - last } else { 0 };
            let needed: u64 = settings.interval_hours as u64 * 3600;
            if elapsed < needed {
                return false;
            }
        }
    }
    true
}

/// The second step of a wake-up: picks the tools to notify about among the
/// scanned `statuses` and records the notification.
pub fn finish_tick(
    state: &mut SchedulerState,
    settings: &NotificationSettings,
    statuses: &Vec<ToolStatus>,
    now: u64,
) -> (r: Vec<usize>)
    ensures
        (final(state)@, r@) == after_scan(old(state)@, *settings, statuses@, now),
{
    let ghost notified = state@.notified;
    let mut picked: Vec<usize> = Vec::new();
    let mut i: usize = 0;
    while i < statuses.len()
        invariant
            i <= statuses.len(),
            notified == string_views(state.notified_tools@),
            picked@ == candidates(statuses@, *settings, notified, i as nat),
            forall|k: int| 0 <= k < picked@.len() ==> #[trigger] picked@[k] < i,
        decreases statuses.len() - i,
    {
        let t = &statuses[i];
        let wanted = (!settings.only_updates || t.is_outdated) && (!settings.dedupe_same_day
            || !list_contains(&state.notified_tools, &t.name));
        if wanted {
            picked.push(i);
        }
        i = i + 1;
    }
    if picked.len() == 0 {
        if settings.mode == NotifyMode::Interval || settings.mode == NotifyMode::Both {
            state.last_fired = Some(now);
        }
        assert(state@ =~= after_scan(old(state)@, *settings, statuses@, now).0);
        return picked;
    }
    let ghost names = names_at(statuses@, picked@);
    let mut j: usize = 0;
    proof {
        assert(names.take(0) =~= Seq::<Seq<char>>::empty());
    }
    while j < picked.len()
        invariant
            j <= picked.len(),
            picked@ == candidates(statuses@, *settings, notified, statuses@.len()),
            forall|k: int| 0 <= k < picked@.len() ==> #[trigger] picked@[k] < statuses@.len(),
            names == names_at(statuses@, picked@),
            string_views(state.notified_tools@) == add_names(notified, names.take(j as int)),
            state.fired_at@ == old(state).fired_at@,
            state.day == old(state).day,
            state.last_fired == old(state).last_fired,
            notified == old(state)@.notified,
        decreases picked.len() - j,
    {
        let name = &statuses[picked[j]].name;
        proof {
            assert(names.take(j + 1).drop_last() =~= names.take(j as int));
            assert(names.take(j + 1).last() == name@);
        }
        if !list_contains(&state.notified_tools, name) {
            let copy = name.clone();
            proof {
                assert(string_views(state.notified_tools@.push(copy)) =~= string_views(
                    state.notified_tools@,
                ).push(copy@));
            }
            state.notified_tools.push(copy);
        }
        j = j + 1;
    }
    proof {
        assert(names.take(picked@.len() as int) =~= names);
    }
    let mut fired = prune_fires(&state.fired_at, now);
    fired.push(now);
    state.fired_at = fired;
    state.last_fired = Some(now);
    assert(state@ =~= after_scan(old(state)@, *settings, statuses@, now).0);
    picked
}

/// Each position among the candidates is that of a status to notify about,
/// in increasing order.
pub proof fn lemma_candidates(st: Seq<ToolStatus>, n: NotificationSettings, notified: Seq<Seq<char>>, k: nat)
    requires
        k <= st.len(),
        st.len() <= usize::MAX,
    ensures
        forall|j: int| 0 <= j < candidates(st, n, notified, k).len() ==> {
            let i = #[trigger] candidates(st, n, notified, k)[j];
            &&& i < k
            &&& is_candidate(st[i as int], n, notified)
        },
        forall|i: int| 0 <= i < k && is_candidate(#[trigger] st[i], n, notified) ==>
            candidates(st, n, notified, k).contains(i as usize),
    decreases k,
{
    if k > 0 {
        lemma_candidates(st, n, notified, (k - 1) as nat);
        let init = candidates(st, n, notified, (k - 1) as nat);
        if is_candidate(st[k - 1], n, notified) {
            let c = init.push((k - 1) as usize);
            assert(c[init.len() as int] == (k - 1) as usize);
            assert forall|j: int| 0 <= j < c.len() implies {
                let i = #[trigger] c[j];
                &&& i < k
                &&& is_candidate(st[i as int], n, notified)
            } by {
                if j < init.len() {
                    assert(c[j] == init[j]);
                }
            }
            assert forall|i: int| 0 <= i < k && is_candidate(#[trigger] st[i], n, notified) implies
                candidates(st, n, notified, k).contains(i as usize) by {
                if i < k - 1 {
                    let j = choose|j: int| 0 <= j < init.len() && init[j] == i as usize;
                    assert(init.push((k - 1) as usize)[j] == i as usize);
                }
            }
        }
    }
}

/// Whether no name occurs twice.
pub open spec fn distinct(s: Seq<Seq<char>>) -> bool {
    forall|i: int, j: int| 0 <= i < j < s.len() ==> s[i] != s[j]
}

/// Adding names keeps what was there, holds every added name, and keeps
/// the names distinct.
pub proof fn lemma_add_names(set: Seq<Seq<char>>, names: Seq<Seq<char>>)
    ensures
        forall|x: Seq<char>| set.contains(x) ==> #[trigger] add_names(set, names).contains(x),
        forall|i: int| 0 <= i < names.len() ==> add_names(set, names).contains(#[trigger] names[i]),
        distinct(set) ==> distinct(add_names(set, names)),
    decreases names.len(),
{
    if names.len() > 0 {
        let init = names.drop_last();
        lemma_add_names(set, init);
        let s = add_names(set, init);
        if !s.contains(names.last()) {
            assert(s.push(names.last())[s.len() as int] == names.last());
            assert forall|x: Seq<char>| s.contains(x) implies #[trigger] s.push(names.last()).contains(x) by {
                let j = choose|j: int| 0 <= j < s.len() && s[j] == x;
                assert(s.push(names.last())[j] == x);
            }
        }
        assert forall|i: int| 0 <= i < names.len() implies add_names(set, names).contains(#[trigger] names[i]) by {
            if i < names.len() - 1 {
                assert(init[i] == names[i]);
            }
        }
    }
}

/// A later moment sees no more recent fire times than an earlier one.
proof fn lemma_recent_fires_shrink(f: Seq<u64>, now: u64, later: u64)
    requires
        now <= later,
    ensures
        recent_fires(f, later).len() <= recent_fires(f, now).len(),
    decreases f.len(),
{
    if f.len() > 0 {
        lemma_recent_fires_shrink(f.drop_last(), now, later);
    }
}

/// The notification cap over any 24 hours: a wake-up that scans at `now` and
/// fires at `later` (not earlier) goes ahead only while fewer than
/// `max_per_day` notifications were fired in the 24 hours before `now`, and
/// afterwards at most `max_per_day` were fired in the 24 hours up to `later`.
pub proof fn lemma_daily_cap_respected(
    s: SchedulerModel,
    n: NotificationSettings,
    hour: u32,
    today: i64,
    now: u64,
    st: Seq<ToolStatus>,
    later: u64,
)
    requires
        now <= later,
    ensures
        ({
            let (s1, go) = before_scan(s, n, hour, today, now);
            go ==> {
                let (s2, r) = after_scan(s1, n, st, later);
                &&& recent_fires(s1.fired, now).len() < n.max_per_day
                &&& recent_fires(s2.fired, later).len() <= n.max_per_day
                &&& s2.day == Some(today)
            }
        }),
{
    let (s1, go) = before_scan(s, n, hour, today, now);
    if go {
        lemma_recent_fires_shrink(s1.fired, now, later);
        let (s2, r) = after_scan(s1, n, st, later);
        let kept = recent_fires(s1.fired, later);
        lemma_recent_fires_recent(s1.fired, later);
        if r.len() > 0 {
            lemma_recent_fires_keep(kept.push(later), later);
        }
    }
}

/// The times that `recent_fires` keeps are all recent.
proof fn lemma_recent_fires_recent(f: Seq<u64>, now: u64)
    ensures
        forall|k: int| 0 <= k < recent_fires(f, now).len() ==> elapsed(#[trigger] recent_fires(f, now)[k], now) < cap_window(),
    decreases f.len(),
{
    if f.len() > 0 {
        lemma_recent_fires_recent(f.drop_last(), now);
        let init = recent_fires(f.drop_last(), now);
        if elapsed(f.last(), now) < cap_window() {
            assert forall|k: int| 0 <= k < init.len() implies init.push(f.last())[k] == init[k] by {}
        }
    }
}

/// Fire times that are all recent are all kept.
proof fn lemma_recent_fires_keep(f: Seq<u64>, now: u64)
    requires
        forall|k: int| 0 <= k < f.len() ==> elapsed(#[trigger] f[k], now) < cap_window(),
    ensures
        recent_fires(f, now) == f,
    decreases f.len(),
{
    if f.len() > 0 {
        assert(f.last() == f[f.len() - 1]);
        assert forall|k: int| 0 <= k < f.drop_last().len() implies elapsed(#[trigger] f.drop_last()[k], now) < cap_window() by {
            assert(f.drop_last()[k] == f[k]);
        }
        lemma_recent_fires_keep(f.drop_last(), now);
        assert(f.drop_last().push(f.last()) =~= f);
    }
}

/// Off and quiet hours: nothing is scanned and the state stays as it was.
pub proof fn lemma_silent_when_off_or_quiet(
    s: SchedulerModel,
    n: NotificationSettings,
    hour: u32,
    today: i64,
    now: u64,
)
    requires
        n.mode == NotifyMode::Off || in_quiet_window(n.quiet_hours_start, n.quiet_hours_end, hour),
    ensures
        before_scan(s, n, hour, today, now) == (s, false),
{
}

/// The interval cadence: in the interval modes a scan goes ahead only when
/// nothing was fired yet or `interval_hours` have passed since.
pub proof fn lemma_interval_respected(
    s: SchedulerModel,
    n: NotificationSettings,
    hour: u32,
    today: i64,
    now: u64,
)
    requires
        uses_interval(n.mode),
    ensures
        ({
            let (s1, go) = before_scan(s, n, hour, today, now);
            go ==> match s1.last_fired {
                Some(last) => elapsed(last, now) >= n.interval_hours as nat * 3600,
                None => true,
            }
        }),
{
}

/// A new day forgets the notified names: on a day change the list of names
/// notified about is emptied.
pub proof fn lemma_new_day_resets(
    s: SchedulerModel,
    n: NotificationSettings,
    hour: u32,
    today: i64,
    now: u64,
)
    requires
        n.mode != NotifyMode::Off,
        !in_quiet_window(n.quiet_hours_start, n.quiet_hours_end, hour),
        s.day != Some(today),
    ensures
        before_scan(s, n, hour, today, now).0.notified.len() == 0,
        before_scan(s, n, hour, today, now).0.fired == s.fired,
        before_scan(s, n, hour, today, now).0.day == Some(today),
{
}

/// What a notification holds: with `only_updates`, only outdated tools; with
/// `dedupe_same_day`, only tools not yet notified that day. Every notified
/// tool is remembered afterwards, and the remembered names stay distinct.
pub proof fn lemma_notified_tools(s: SchedulerModel, n: NotificationSettings, st: Seq<ToolStatus>, now: u64)
    requires
        st.len() <= usize::MAX,
    ensures
        ({
            let (s2, r) = after_scan(s, n, st, now);
            &&& forall|j: int| 0 <= j < r.len() ==> (#[trigger] r[j]) < st.len()
            &&& n.only_updates ==> forall|j: int| 0 <= j < r.len() ==> st[#[trigger] r[j] as int].is_outdated
            &&& n.dedupe_same_day ==> forall|j: int| 0 <= j < r.len() ==> !s.notified.contains(st[#[trigger] r[j] as int].name@)
            &&& forall|j: int| 0 <= j < r.len() ==> s2.notified.contains(st[#[trigger] r[j] as int].name@)
            &&& distinct(s.notified) ==> distinct(s2.notified)
        }),
{
    let c = candidates(st, n, s.notified, st.len());
    lemma_candidates(st, n, s.notified, st.len());
    let names = names_at(st, c);
    lemma_add_names(s.notified, names);
    assert forall|j: int| 0 <= j < c.len() implies after_scan(s, n, st, now).0.notified.contains(
        st[#[trigger] c[j] as int].name@,
    ) by {
        assert(names[j] == st[c[j] as int].name@);
    }
}

/// One wake-up of the scheduler, as plain values: the hour and the local
/// day it wakes in, the moment it checks the cap, the tools its scan would
/// find, and the moment a notification it shows is fired.
pub struct Wake {
    pub hour: u32,
    pub today: i64,
    pub now: u64,
    pub statuses: Seq<ToolStatus>,
    pub later: u64,
}

/// A wake-up: the next state, and the moment of the notification it shows,
/// if it shows one.
pub open spec fn wake(s: SchedulerModel, n: NotificationSettings, w: Wake) -> (SchedulerModel, Option<u64>) {
    let (s1, go) = before_scan(s, n, w.hour, w.today, w.now);
    if !go {
        (s1, None)
    } else {
        let (s2, r) = after_scan(s1, n, w.statuses, w.later);
        (s2, if r.len() > 0 { Some(w.later) } else { None })
    }
}

/// The state after a run of wake-ups.
pub open spec fn run_state(s: SchedulerModel, n: NotificationSettings, ws: Seq<Wake>) -> SchedulerModel
    decreases ws.len(),
{
    if ws.len() == 0 {
        s
    } else {
        wake(run_state(s, n, ws.drop_last()), n, ws.last()).0
    }
}

/// The moments of the notifications a run of wake-ups shows, in order.
pub open spec fn run_fires(s: SchedulerModel, n: NotificationSettings, ws: Seq<Wake>) -> Seq<u64>
    decreases ws.len(),
{
    if ws.len() == 0 {
        Seq::empty()
    } else {
        let f = run_fires(s, n, ws.drop_last());
        match wake(run_state(s, n, ws.drop_last()), n, ws.last()).1 {
            Some(t) => f.push(t),
            None => f,
        }
    }
}

/// Wake-ups whose moments follow each other: each checks before it fires,
/// and fires no later than the next one checks.
pub open spec fn in_time_order(ws: Seq<Wake>) -> bool {
    &&& forall|i: int| 0 <= i < ws.len() ==> (#[trigger] ws[i]).now <= ws[i].later
    &&& forall|i: int, j: int| 0 <= i < j < ws.len() ==> (#[trigger] ws[i]).later <= (#[trigger] ws[j]).now
}

/// How many of the moments lie in the 24 hours that start at `t`.
pub open spec fn count_in_window(f: Seq<u64>, t: int) -> nat
    decreases f.len(),
{
    if f.len() == 0 {
        0
    } else {
        count_in_window(f.drop_last(), t) + if t <= f.last() < t + cap_window() {
            1nat
        } else {
            0nat
        }
    }
}

/// Pruning at one moment and then at a later one prunes as the later one does.
proof fn lemma_recent_twice(g: Seq<u64>, y: u64, x: u64)
    requires
        y <= x,
    ensures
        recent_fires(recent_fires(g, y), x) == recent_fires(g, x),
    decreases g.len(),
{
    if g.len() > 0 {
        lemma_recent_twice(g.drop_last(), y, x);
        let r = recent_fires(g.drop_last(), y);
        if elapsed(g.last(), y) < cap_window() {
            assert(r.push(g.last()).drop_last() =~= r);
        }
    }
}

/// Moments in the window are no more than those recent at `x`, when each
/// moment in the window is recent at `x`.
proof fn lemma_window_within_recent(g: Seq<u64>, t: int, x: u64)
    requires
        forall|i: int| 0 <= i < g.len() && t <= #[trigger] g[i] < t + cap_window() ==> elapsed(g[i], x) < cap_window(),
    ensures
        count_in_window(g, t) <= recent_fires(g, x).len(),
    decreases g.len(),
{
    if g.len() > 0 {
        assert forall|i: int| 0 <= i < g.drop_last().len() && t <= #[trigger] g.drop_last()[i] < t + cap_window() implies elapsed(
            g.drop_last()[i],
            x,
        ) < cap_window() by {
            assert(g.drop_last()[i] == g[i]);
        }
        lemma_window_within_recent(g.drop_last(), t, x);
        assert(g.last() == g[g.len() - 1]);
    }
}

/// What holds after any run of wake-ups in time order from a state that has
/// fired nothing: the notifications come in time order, no later than the
/// last wake-up fires; the state's fire times are, from then on, those of the
/// run as far as the cap sees them; and at each notification, at most
/// `max_per_day` were shown in the 24 hours up to it.
proof fn lemma_run(s: SchedulerModel, n: NotificationSettings, ws: Seq<Wake>)
    requires
        in_time_order(ws),
        s.fired.len() == 0,
    ensures
        ({
            let f = run_fires(s, n, ws);
            &&& forall|i: int, j: int| 0 <= i <= j < f.len() ==> #[trigger] f[i] <= #[trigger] f[j]
            &&& ws.len() > 0 ==> forall|i: int| 0 <= i < f.len() ==> #[trigger] f[i] <= ws.last().later
            &&& ws.len() == 0 ==> f.len() == 0
            &&& forall|x: u64|
                (ws.len() == 0 || x >= ws.last().later) ==> #[trigger] recent_fires(run_state(s, n, ws).fired, x)
                    == recent_fires(f, x)
            &&& forall|i: int| 0 <= i < f.len() ==> recent_fires(f.take(i + 1), #[trigger] f[i]).len() <= n.max_per_day
        }),
    decreases ws.len(),
{
    if ws.len() > 0 {
        let prev = ws.drop_last();
        assert(in_time_order(prev)) by {
            assert forall|i: int| 0 <= i < prev.len() implies (#[trigger] prev[i]).now <= prev[i].later by {
                assert(prev[i] == ws[i]);
            }
            assert forall|i: int, j: int| 0 <= i < j < prev.len() implies (#[trigger] prev[i]).later <= (
            #[trigger] prev[j]).now by {
                assert(prev[i] == ws[i]);
                assert(prev[j] == ws[j]);
            }
        }
        lemma_run(s, n, prev);
        let sp = run_state(s, n, prev);
        let fp = run_fires(s, n, prev);
        let w = ws.last();
        assert(w == ws[ws.len() - 1]);
        assert(w.now <= w.later);
        if prev.len() > 0 {
            assert(prev.last() == ws[prev.len() - 1]);
            assert(prev.last().later <= w.now);
        }
        let (s1, go) = before_scan(sp, n, w.hour, w.today, w.now);
        assert(s1.fired == sp.fired);
        let f = run_fires(s, n, ws);
        if go {
            let (s2, r) = after_scan(s1, n, w.statuses, w.later);
            if r.len() > 0 {
                assert(f == fp.push(w.later));
                assert(s2.fired == recent_fires(sp.fired, w.later).push(w.later));
                assert forall|x: u64| x >= w.later implies #[trigger] recent_fires(run_state(s, n, ws).fired, x)
                    == recent_fires(f, x) by {
                    lemma_recent_twice(sp.fired, w.later, x);
                    assert(recent_fires(sp.fired, x) == recent_fires(fp, x));
                    assert(recent_fires(sp.fired, w.later).push(w.later).drop_last() =~= recent_fires(sp.fired, w.later));
                    assert(f.drop_last() =~= fp);
                }
                // The new notification: fewer than the cap were recent when it was checked.
                assert(recent_fires(sp.fired, w.now) == recent_fires(fp, w.now));
                lemma_recent_fires_shrink(fp, w.now, w.later);
                assert(f.drop_last() =~= fp);
                assert(f.take(f.len() as int) =~= f);
                assert forall|i: int| 0 <= i < f.len() implies recent_fires(f.take(i + 1), #[trigger] f[i]).len()
                    <= n.max_per_day by {
                    if i < fp.len() {
                        assert(f.take(i + 1) =~= fp.take(i + 1));
                        assert(f[i] == fp[i]);
                    } else {
                        assert(f[i] == w.later);
                    }
                }
                assert forall|i: int, j: int| 0 <= i <= j < f.len() implies #[trigger] f[i] <= #[trigger] f[j] by {
                    if j < fp.len() {
                        assert(f[i] == fp[i] && f[j] == fp[j]);
                    } else if i < fp.len() {
                        assert(f[i] == fp[i]);
                    }
                }
                assert forall|i: int| 0 <= i < f.len() implies #[trigger] f[i] <= ws.last().later by {
                    if i < fp.len() {
                        assert(f[i] == fp[i]);
                    }
                }
            } else {
                assert(f == fp);
            }
        } else {
            assert(f == fp);
        }
    }
}

/// The notification cap over a whole run: from a state that has fired
/// nothing, any 24 hours hold at most `max_per_day` of the notifications a
/// run of wake-ups in time order shows.
pub proof fn lemma_cap_over_run(s: SchedulerModel, n: NotificationSettings, ws: Seq<Wake>, t: int)
    requires
        in_time_order(ws),
        s.fired.len() == 0,
    ensures
        count_in_window(run_fires(s, n, ws), t) <= n.max_per_day,
{
    lemma_run(s, n, ws);
    let f = run_fires(s, n, ws);
    lemma_window_bound(f, t, n.max_per_day as nat);
}

/// In moments in time order where each has at most `cap` recent ones up to
/// it, any window holds at most `cap`.
proof fn lemma_window_bound(f: Seq<u64>, t: int, cap: nat)
    requires
        forall|i: int, j: int| 0 <= i <= j < f.len() ==> #[trigger] f[i] <= #[trigger] f[j],
        forall|i: int| 0 <= i < f.len() ==> recent_fires(f.take(i + 1), #[trigger] f[i]).len() <= cap,
    ensures
        count_in_window(f, t) <= cap,
    decreases f.len(),
{
    if f.len() > 0 {
        let k = f.len() - 1;
        let last = f[k];
        assert(f.last() == last);
        assert(f.take(k + 1) =~= f);
        if t <= last < t + cap_window() {
            assert forall|i: int| 0 <= i < f.len() && t <= #[trigger] f[i] < t + cap_window() implies elapsed(f[i], last)
                < cap_window() by {
                assert(f[i] <= f[k]);
            }
            lemma_window_within_recent(f, t, last);
        } else if last < t {
            lemma_window_empty(f, t);
        } else {
            let g = f.drop_last();
            assert forall|i: int, j: int| 0 <= i <= j < g.len() implies #[trigger] g[i] <= #[trigger] g[j] by {
                assert(g[i] == f[i] && g[j] == f[j]);
            }
            assert forall|i: int| 0 <= i < g.len() implies recent_fires(g.take(i + 1), #[trigger] g[i]).len() <= cap by {
                assert(g.take(i + 1) =~= f.take(i + 1));
                assert(g[i] == f[i]);
            }
            lemma_window_bound(g, t, cap);
        }
    }
}

/// Moments all before `t` hold none in the window from `t`.
proof fn lemma_window_empty(f: Seq<u64>, t: int)
    requires
        forall|i: int, j: int| 0 <= i <= j < f.len() ==> #[trigger] f[i] <= #[trigger] f[j],
        f.len() > 0 ==> f.last() < t,
    ensures
        count_in_window(f, t) == 0,
    decreases f.len(),
{
    if f.len() > 0 {
        let g = f.drop_last();
        if g.len() > 0 {
            assert(g.last() == f[g.len() - 1]);
            assert(f[g.len() - 1] <= f[f.len() - 1]);
        }
        assert forall|i: int, j: int| 0 <= i <= j < g.len() implies #[trigger] g[i] <= #[trigger] g[j] by {
            assert(g[i] == f[i] && g[j] == f[j]);
        }
        lemma_window_empty(g, t);
    }
}

/// The names a wake-up shows a notification about, if it shows one.
pub open spec fn wake_shown(s: SchedulerModel, n: NotificationSettings, w: Wake) -> Option<Seq<Seq<char>>> {
    let (s1, go) = before_scan(s, n, w.hour, w.today, w.now);
    if !go {
        None
    } else {
        let (s2, r) = after_scan(s1, n, w.statuses, w.later);
        if r.len() > 0 {
            Some(names_at(w.statuses, r))
        } else {
            None
        }
    }
}

/// The notifications a run of wake-ups shows, in order: the local day of
/// each, with the names it lists.
pub open spec fn run_shown(s: SchedulerModel, n: NotificationSettings, ws: Seq<Wake>) -> Seq<(i64, Seq<Seq<char>>)>
    decreases ws.len(),
{
    if ws.len() == 0 {
        Seq::empty()
    } else {
        let f = run_shown(s, n, ws.drop_last());
        match wake_shown(run_state(s, n, ws.drop_last()), n, ws.last()) {
            Some(names) => f.push((ws.last().today, names)),
            None => f,
        }
    }
}

/// Wake-ups whose local days never go back.
pub open spec fn days_in_order(ws: Seq<Wake>) -> bool {
    forall|i: int, j: int| 0 <= i < j < ws.len() ==> (#[trigger] ws[i]).today <= (#[trigger] ws[j]).today
}

/// What holds of the notifications of a run whose days never go back, with
/// `dedupe_same_day` on: each is of a day no later than the last wake-up's,
/// those of that day list only names the state remembers for it, and two
/// of one day share no name.
proof fn lemma_run_dedupe(s: SchedulerModel, n: NotificationSettings, ws: Seq<Wake>)
    requires
        days_in_order(ws),
        n.dedupe_same_day,
        ws.len() <= usize::MAX,
        forall|i: int| 0 <= i < ws.len() ==> (#[trigger] ws[i]).statuses.len() <= usize::MAX,
    ensures
        ({
            let sh = run_shown(s, n, ws);
            let st = run_state(s, n, ws);
            &&& ws.len() == 0 ==> sh.len() == 0
            &&& ws.len() > 0 ==> forall|k: int| 0 <= k < sh.len() ==> (#[trigger] sh[k]).0 <= ws.last().today
            &&& ws.len() > 0 ==> forall|k: int| 0 <= k < sh.len() && (#[trigger] sh[k]).0 == ws.last().today ==> {
                &&& st.day == Some(sh[k].0)
                &&& forall|m: int| 0 <= m < sh[k].1.len() ==> st.notified.contains(#[trigger] sh[k].1[m])
            }
            &&& forall|a: int, b: int, m: int, q: int|
                0 <= a < b < sh.len() && (#[trigger] sh[a]).0 == (#[trigger] sh[b]).0 && 0 <= m < sh[a].1.len() && 0 <= q
                    < sh[b].1.len() ==> #[trigger] sh[a].1[m] != #[trigger] sh[b].1[q]
        }),
    decreases ws.len(),
{
    if ws.len() > 0 {
        let prev = ws.drop_last();
        assert(days_in_order(prev)) by {
            assert forall|i: int, j: int| 0 <= i < j < prev.len() implies (#[trigger] prev[i]).today <= (
            #[trigger] prev[j]).today by {
                assert(prev[i] == ws[i]);
                assert(prev[j] == ws[j]);
            }
        }
        assert forall|i: int| 0 <= i < prev.len() implies (#[trigger] prev[i]).statuses.len() <= usize::MAX by {
            assert(prev[i] == ws[i]);
        }
        lemma_run_dedupe(s, n, prev);
        let sp = run_state(s, n, prev);
        let shp = run_shown(s, n, prev);
        let w = ws.last();
        assert(w == ws[ws.len() - 1]);
        if prev.len() > 0 {
            assert(prev.last() == ws[prev.len() - 1]);
            assert(prev.last().today <= w.today);
        }
        let sh = run_shown(s, n, ws);
        let st = run_state(s, n, ws);
        let (s1, go) = before_scan(sp, n, w.hour, w.today, w.now);
        if go {
            let (s2, r) = after_scan(s1, n, w.statuses, w.later);
            lemma_notified_tools(s1, n, w.statuses, w.later);
            lemma_candidates(w.statuses, n, s1.notified, w.statuses.len());
            lemma_add_names(s1.notified, names_at(w.statuses, r));
            assert(st == s2);
            // Names remembered before the scan are remembered after it.
            assert forall|x: Seq<char>| s1.notified.contains(x) implies #[trigger] s2.notified.contains(x) by {
                if r.len() > 0 {
                    lemma_add_names(s1.notified, names_at(w.statuses, r));
                }
            }
            // Earlier notifications of this day are remembered in `s1`.
            assert forall|k: int| 0 <= k < shp.len() && (#[trigger] shp[k]).0 == w.today implies {
                &&& s1.day == Some(shp[k].0)
                &&& forall|m: int| 0 <= m < shp[k].1.len() ==> s1.notified.contains(#[trigger] shp[k].1[m])
            } by {
                assert(prev.len() > 0);
                assert(prev.last().today == w.today);
            }
            if r.len() > 0 {
                let names = names_at(w.statuses, r);
                assert(sh == shp.push((w.today, names)));
                assert forall|m: int| 0 <= m < names.len() implies s2.notified.contains(#[trigger] names[m]) by {
                    assert(names[m] == w.statuses[r[m] as int].name@);
                }
                assert forall|m: int| 0 <= m < names.len() implies !s1.notified.contains(#[trigger] names[m]) by {
                    assert(names[m] == w.statuses[r[m] as int].name@);
                }
                assert forall|a: int, b: int, m: int, q: int|
                    0 <= a < b < sh.len() && (#[trigger] sh[a]).0 == (#[trigger] sh[b]).0 && 0 <= m < sh[a].1.len() && 0
                        <= q < sh[b].1.len() implies #[trigger] sh[a].1[m] != #[trigger] sh[b].1[q] by {
                    if b < shp.len() {
                        assert(sh[a] == shp[a] && sh[b] == shp[b]);
                    } else {
                        assert(sh[a] == shp[a]);
                        assert(sh[b].1 == names);
                        assert(s1.notified.contains(shp[a].1[m]));
                    }
                }
                assert forall|k: int| 0 <= k < sh.len() && (#[trigger] sh[k]).0 == ws.last().today implies {
                    &&& st.day == Some(sh[k].0)
                    &&& forall|m: int| 0 <= m < sh[k].1.len() ==> st.notified.contains(#[trigger] sh[k].1[m])
                } by {
                    if k < shp.len() {
                        assert(sh[k] == shp[k]);
                    }
                }
                assert forall|k: int| 0 <= k < sh.len() implies (#[trigger] sh[k]).0 <= ws.last().today by {
                    if k < shp.len() {
                        assert(sh[k] == shp[k]);
                    }
                }
            } else {
                assert(sh == shp);
            }
        } else {
            assert(sh == shp);
            assert(st == s1);
            assert forall|k: int| 0 <= k < sh.len() && (#[trigger] sh[k]).0 == ws.last().today implies {
                &&& st.day == Some(sh[k].0)
                &&& forall|m: int| 0 <= m < sh[k].1.len() ==> st.notified.contains(#[trigger] sh[k].1[m])
            } by {
                assert(prev.len() > 0);
                assert(prev.last().today == w.today);
            }
        }
    }
}

/// No repeats within a day over a whole run: with `dedupe_same_day` on and
/// days that never go back, two notifications of one local day list no name
/// in common.
pub proof fn lemma_no_repeat_within_day(s: SchedulerModel, n: NotificationSettings, ws: Seq<Wake>)
    requires
        days_in_order(ws),
        n.dedupe_same_day,
        ws.len() <= usize::MAX,
        forall|i: int| 0 <= i < ws.len() ==> (#[trigger] ws[i]).statuses.len() <= usize::MAX,
    ensures
        forall|a: int, b: int, m: int, q: int|
            0 <= a < b < run_shown(s, n, ws).len() && run_shown(s, n, ws)[a].0 == run_shown(s, n, ws)[b].0
                && 0 <= m < run_shown(s, n, ws)[a].1.len() && 0 <= q < run_shown(s, n, ws)[b].1.len()
                ==> #[trigger] run_shown(s, n, ws)[a].1[m] != #[trigger] run_shown(s, n, ws)[b].1[q],
{
    lemma_run_dedupe(s, n, ws);
}

} // verus!
