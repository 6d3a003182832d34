//! The decisions behind the command surface: which command line manages a
//! tool or a package, how scan results are summarised and enriched, and the
//! texts of the notifications.
use vstd::prelude::*;

use crate::checker::{is_outdated, outdated};
use crate::registry::{builtin_names, builtin_view, find, find_definition, lemma_builtin_names_distinct, strs};
use crate::settings::{enabled_definitions, lemma_enabled_definitions};
use crate::text::{chars_of, decimal, push_decimal, push_str};
use crate::types::{
    definition_views, opt_view, string_views, ActionKind, ActionsView, DashboardSummary, DetectedIde, PackageSource,
    ToolDefinition, ToolStatus,
};

verus! {

/// The command that manages a package of a package manager, when there is one.
pub open spec fn package_command(src: PackageSource, action: ActionKind, package: Seq<char>) -> Option<
    Seq<Seq<char>>,
> {
    match (src, action) {
        (PackageSource::NpmGlobal, ActionKind::Install) => Some(seq!["npm"@, "install"@, "-g"@, package]),
        (PackageSource::NpmGlobal, ActionKind::Uninstall) => Some(
            seq!["npm"@, "uninstall"@, "-g"@, package],
        ),
        (PackageSource::NpmGlobal, ActionKind::Upgrade) => Some(
            seq!["npm"@, "install"@, "-g"@, package + "@latest"@],
        ),
        (PackageSource::CargoInstall, ActionKind::Install) => Some(seq!["cargo"@, "install"@, package]),
        (PackageSource::CargoInstall, ActionKind::Uninstall) => Some(
            seq!["cargo"@, "uninstall"@, package],
        ),
        (PackageSource::CargoInstall, ActionKind::Upgrade) => Some(
            seq!["cargo"@, "install"@, package, "--force"@],
        ),
        (PackageSource::PipList, ActionKind::Install) => Some(seq!["pip3"@, "install"@, package]),
        (PackageSource::PipList, ActionKind::Uninstall) => Some(
            seq!["pip3"@, "uninstall"@, "-y"@, package],
        ),
        (PackageSource::GemList, ActionKind::Install) => Some(seq!["gem"@, "install"@, package]),
        (PackageSource::GemList, ActionKind::Uninstall) => Some(seq!["gem"@, "uninstall"@, package]),
        (PackageSource::GemList, ActionKind::Upgrade) => Some(seq!["gem"@, "update"@, package]),
        (PackageSource::ComposerGlobal, ActionKind::Install) => Some(
            seq!["composer"@, "global"@, "require"@, package],
        ),
        (PackageSource::ComposerGlobal, ActionKind::Uninstall) => Some(
            seq!["composer"@, "global"@, "remove"@, package],
        ),
        (PackageSource::BrewList, ActionKind::Install) => Some(seq!["brew"@, "install"@, package]),
        (PackageSource::BrewList, ActionKind::Uninstall) => Some(seq!["brew"@, "uninstall"@, package]),
        (PackageSource::BrewList, ActionKind::Upgrade) => Some(seq!["brew"@, "upgrade"@, package]),
        _ => None,
    }
}

/// The command that manages `package` for the builtin tool named `tool`.
pub open spec fn package_argv_spec(tool: Seq<char>, package: Seq<char>, action: ActionKind) -> Option<
    Seq<Seq<char>>,
> {
    match find_definition(builtin_view(), tool) {
        Some(d) => match d.packages {
            Some(src) => package_command(src, action, package),
            None => None,
        },
        None => None,
    }
}

/// The argv of a command, as text.
pub open spec fn argv_view(r: Option<Vec<String>>) -> Option<Seq<Seq<char>>> {
    match r {
        Some(v) => Some(string_views(v@)),
        None => None,
    }
}

/// Build the argv for a package-manager operation.
///
/// Returns `None` for tools that have no package manager or for unsupported
/// actions (upgrading a pip package isn't a single safe command, nor is
/// upgrading a Composer package; Go, Bun and Deno list packages but do not
/// manage them).
pub fn package_argv(tool: &str, package: &str, action: ActionKind) -> (r: Option<Vec<String>>)
    ensures
        argv_view(r) == package_argv_spec(tool@, package@, action),
{
    let def = match find(tool) {
        Some(d) => d,
        None => return None,
    };
    let src = match def.packages {
        Some(s) => s,
        None => return None,
    };
    let toks: Vec<String> = match (src, action) {
        (PackageSource::NpmGlobal, ActionKind::Install) => strs(&["npm", "install", "-g", package]),
        (PackageSource::NpmGlobal, ActionKind::Uninstall) => strs(
            &["npm", "uninstall", "-g", package],
        ),
        (PackageSource::NpmGlobal, ActionKind::Upgrade) => {
            let mut latest = String::from_str(package);
            push_str(&mut latest, "@latest");
            strs(&["npm", "install", "-g", latest.as_str()])
        },
        (PackageSource::CargoInstall, ActionKind::Install) => strs(&["cargo", "install", package]),
        (PackageSource::CargoInstall, ActionKind::Uninstall) => strs(
            &["cargo", "uninstall", package],
        ),
        (PackageSource::CargoInstall, ActionKind::Upgrade) => strs(
            &["cargo", "install", package, "--force"],
        ),
        (PackageSource::PipList, ActionKind::Install) => strs(&["pip3", "install", package]),
        (PackageSource::PipList, ActionKind::Uninstall) => strs(&["pip3", "uninstall", "-y", package]),
        (PackageSource::GemList, ActionKind::Install) => strs(&["gem", "install", package]),
        (PackageSource::GemList, ActionKind::Uninstall) => strs(&["gem", "uninstall", package]),
        (PackageSource::GemList, ActionKind::Upgrade) => strs(&["gem", "update", package]),
        (PackageSource::ComposerGlobal, ActionKind::Install) => strs(
            &["composer", "global", "require", package],
        ),
        (PackageSource::ComposerGlobal, ActionKind::Uninstall) => strs(
            &["composer", "global", "remove", package],
        ),
        (PackageSource::BrewList, ActionKind::Install) => strs(&["brew", "install", package]),
        (PackageSource::BrewList, ActionKind::Uninstall) => strs(&["brew", "uninstall", package]),
        (PackageSource::BrewList, ActionKind::Upgrade) => strs(&["brew", "upgrade", package]),
        _ => return None,
    };
    proof {
        assert(string_views(toks@) =~= package_command(src, action, package@).unwrap());
    }
    Some(toks)
}

/// How the refusal of an action reads: "cannot be installed this way".
pub open spec fn verb_text(action: ActionKind) -> Seq<char> {
    match action {
        ActionKind::Install => "installed this way"@,
        ActionKind::Uninstall => "uninstalled this way"@,
        ActionKind::Upgrade => "upgraded this way"@,
    }
}

/// The end of the message that refuses an action.
pub fn label_verb(action: ActionKind) -> (r: &'static str)
    ensures
        r@ == verb_text(action),
{
    match action {
        ActionKind::Install => "installed this way",
        ActionKind::Uninstall => "uninstalled this way",
        ActionKind::Upgrade => "upgraded this way",
    }
}

/// The command of `actions` for `action`.
pub open spec fn action_command(actions: ActionsView, action: ActionKind) -> Seq<Seq<char>> {
    match action {
        ActionKind::Install => actions.install,
        ActionKind::Uninstall => actions.uninstall,
        ActionKind::Upgrade => actions.upgrade,
    }
}

/// The command that performs `action` on the builtin tool `name`, or the
/// message that refuses it: an unknown tool, a tool that cannot be managed,
/// or an action it has no command for.
pub open spec fn manage_tool_spec(name: Seq<char>, action: ActionKind) -> Result<
    Seq<Seq<char>>,
    Seq<char>,
> {
    match find_definition(builtin_view(), name) {
        None => Err("unknown tool: "@ + name),
        Some(d) => match d.actions {
            None => Err(d.display_name + " has no install/uninstall actions"@),
            Some(a) => if action_command(a, action).len() == 0 {
                Err(d.display_name + " cannot be "@ + verb_text(action))
            } else {
                Ok(action_command(a, action))
            },
        },
    }
}

/// The command line, or the error, as text.
pub open spec fn argv_result_view(r: Result<Vec<String>, String>) -> Result<Seq<Seq<char>>, Seq<char>> {
    match r {
        Ok(v) => Ok(string_views(v@)),
        Err(e) => Err(e@),
    }
}

/// The command that performs `action` on the builtin tool `name`, or why
/// there is none.
pub fn manage_tool_argv(name: &str, action: ActionKind) -> (r: Result<Vec<String>, String>)
    ensures
        argv_result_view(r) == manage_tool_spec(name@, action),
{
    let def = match find(name) {
        Some(d) => d,
        None => {
            let mut msg = String::from_str("unknown tool: ");
            push_str(&mut msg, name);
            return Err(msg);
        },
    };
    let actions = match def.actions {
        Some(a) => a,
        None => {
            let mut msg = def.display_name.clone();
            push_str(&mut msg, " has no install/uninstall actions");
            return Err(msg);
        },
    };
    let argv: Vec<String> = match action {
        ActionKind::Install => actions.install,
        ActionKind::Uninstall => actions.uninstall,
        ActionKind::Upgrade => actions.upgrade,
    };
    if argv.len() == 0 {
        let mut msg = def.display_name.clone();
        push_str(&mut msg, " cannot be ");
        push_str(&mut msg, label_verb(action));
        return Err(msg);
    }
    Ok(argv)
}

/// How many of the statuses satisfy `p`.
pub open spec fn count_where(s: Seq<ToolStatus>, p: spec_fn(ToolStatus) -> bool) -> nat
    decreases s.len(),
{
    if s.len() == 0 {
        0
    } else {
        count_where(s.drop_last(), p) + if p(s.last()) {
            1nat
        } else {
            0
        }
    }
}

/// Whether a status has an installed version.
pub open spec fn is_installed(s: ToolStatus) -> bool {
    s.installed_version is Some
}

/// Whether a status is outdated.
pub open spec fn is_outdated_status(s: ToolStatus) -> bool {
    s.is_outdated
}

/// Whether a status has no installed version.
pub open spec fn is_missing(s: ToolStatus) -> bool {
    s.installed_version is None
}

proof fn lemma_count_bound(s: Seq<ToolStatus>, p: spec_fn(ToolStatus) -> bool)
    ensures
        count_where(s, p) <= s.len(),
    decreases s.len(),
{
    if s.len() > 0 {
        lemma_count_bound(s.drop_last(), p);
    }
}

/// Aggregated counts for the dashboard: all tools, installed ones, outdated
/// ones and missing ones.
pub fn dashboard_summary(statuses: Vec<ToolStatus>) -> (r: DashboardSummary)
    ensures
        r.total == statuses@.len(),
        r.installed == count_where(statuses@, |s: ToolStatus| is_installed(s)),
        r.outdated == count_where(statuses@, |s: ToolStatus| is_outdated_status(s)),
        r.missing == count_where(statuses@, |s: ToolStatus| is_missing(s)),
{
    let ghost st = statuses@;
    let mut installed: usize = 0;
    let mut outdated_n: usize = 0;
    let mut missing: usize = 0;
    let mut i: usize = 0;
    proof {
        assert(st.take(0) =~= Seq::<ToolStatus>::empty());
    }
    while i < statuses.len()
        invariant
            st == statuses@,
            i <= statuses.len(),
            installed == count_where(st.take(i as int), |s: ToolStatus| is_installed(s)),
            outdated_n == count_where(st.take(i as int), |s: ToolStatus| is_outdated_status(s)),
            missing == count_where(st.take(i as int), |s: ToolStatus| is_missing(s)),
        decreases statuses.len() - i,
    {
        proof {
            assert(st.take(i + 1).drop_last() =~= st.take(i as int));
            lemma_count_bound(st.take(i as int), |s: ToolStatus| is_installed(s));
            lemma_count_bound(st.take(i as int), |s: ToolStatus| is_outdated_status(s));
            lemma_count_bound(st.take(i as int), |s: ToolStatus| is_missing(s));
        }
        if statuses[i].installed_version.is_some() {
            installed = installed + 1;
        } else {
            missing = missing + 1;
        }
        if statuses[i].is_outdated {
            outdated_n = outdated_n + 1;
        }
        i = i + 1;
    }
    proof {
        assert(st.take(i as int) =~= st);
    }
    DashboardSummary { total: statuses.len(), installed, outdated: outdated_n, missing }
}

/// Every tool counts as installed or missing, never both.
pub proof fn lemma_installed_plus_missing(s: Seq<ToolStatus>)
    ensures
        count_where(s, |t: ToolStatus| is_installed(t)) + count_where(s, |t: ToolStatus| is_missing(t))
            == s.len(),
    decreases s.len(),
{
    if s.len() > 0 {
        lemma_installed_plus_missing(s.drop_last());
    }
}

/// A status with the answer of the latest-version lookup: the latest version
/// is recorded, and when both versions are known `is_outdated` says whether
/// the installed one is older.
pub open spec fn with_latest(s: ToolStatus, latest: Option<Seq<char>>) -> (Option<Seq<char>>, bool) {
    (
        latest,
        match (opt_view(s.installed_version), latest) {
            (Some(i), Some(l)) => outdated(i, l),
            _ => s.is_outdated,
        },
    )
}

/// A status enriched with the answer of its latest-version lookup.
pub open spec fn enriched(s: ToolStatus, latest: Option<String>) -> ToolStatus {
    ToolStatus {
        latest_version: latest,
        is_outdated: with_latest(s, opt_view(latest)).1,
        ..s
    }
}

/// Enrich a status with the latest version found for it.
pub fn apply_latest(status: &mut ToolStatus, latest: Option<String>)
    ensures
        *final(status) == enriched(*old(status), latest),
        (opt_view(final(status).latest_version), final(status).is_outdated) == with_latest(
            *old(status),
            opt_view(latest),
        ),
{
    match (&status.installed_version, &latest) {
        (Some(installed), Some(l)) => {
            status.is_outdated = is_outdated(installed.as_str(), l.as_str());
        },
        _ => {},
    }
    status.latest_version = latest;
}

/// Enriching a status twice with the same answer is enriching it once.
pub proof fn lemma_enriched_idempotent(s: ToolStatus, latest: Option<String>)
    ensures
        enriched(enriched(s, latest), latest) == enriched(s, latest),
{
}

/// Whether `i` is the first position of a status named `name`.
pub open spec fn is_first_named(ss: Seq<ToolStatus>, name: Seq<char>, i: int) -> bool {
    &&& 0 <= i < ss.len()
    &&& ss[i].name@ == name
    &&& forall|k: int| 0 <= k < i ==> ss[k].name@ != name
}

/// The first position of a status named `name`, if any.
pub open spec fn first_named(ss: Seq<ToolStatus>, name: Seq<char>) -> Option<int> {
    if exists|i: int| 0 <= i < ss.len() && ss[i].name@ == name {
        Some(choose|i: int| is_first_named(ss, name, i))
    } else {
        None
    }
}

/// The statuses after the lookup answers, taken in order, were applied: each
/// answer enriches the first status of its tool's name.
pub open spec fn enriched_all(ss: Seq<ToolStatus>, answers: Seq<(String, Option<String>)>) -> Seq<
    ToolStatus,
>
    decreases answers.len(),
{
    if answers.len() == 0 {
        ss
    } else {
        let prev = enriched_all(ss, answers.drop_last());
        let (name, latest) = answers.last();
        match first_named(prev, name@) {
            Some(i) => prev.update(i, enriched(prev[i], latest)),
            None => prev,
        }
    }
}

/// A name that occurs has a first occurrence.
proof fn lemma_first_named_exists(ss: Seq<ToolStatus>, name: Seq<char>, w: int)
    requires
        0 <= w < ss.len(),
        ss[w].name@ == name,
    ensures
        exists|i: int| is_first_named(ss, name, i),
    decreases w,
{
    if exists|k: int| 0 <= k < w && ss[k].name@ == name {
        let k = choose|k: int| 0 <= k < w && ss[k].name@ == name;
        lemma_first_named_exists(ss, name, k);
    } else {
        assert(is_first_named(ss, name, w));
    }
}

/// Applying lookup answers keeps the list of tools: the same number of
/// statuses, each with its name.
pub proof fn lemma_enriched_all_keeps_tools(ss: Seq<ToolStatus>, answers: Seq<(String, Option<String>)>)
    ensures
        enriched_all(ss, answers).len() == ss.len(),
        forall|i: int| 0 <= i < ss.len() ==> (#[trigger] enriched_all(ss, answers)[i]).name == ss[i].name,
    decreases answers.len(),
{
    if answers.len() > 0 {
        lemma_enriched_all_keeps_tools(ss, answers.drop_last());
        let prev = enriched_all(ss, answers.drop_last());
        let (name, latest) = answers.last();
        if exists|w: int| 0 <= w < prev.len() && prev[w].name@ == name@ {
            let w = choose|w: int| 0 <= w < prev.len() && prev[w].name@ == name@;
            lemma_first_named_exists(prev, name@, w);
        }
    }
}

/// A first position of a name is the only one.
proof fn lemma_first_named_unique(ss: Seq<ToolStatus>, name: Seq<char>, m: int)
    requires
        is_first_named(ss, name, m),
    ensures
        first_named(ss, name) == Some(m),
{
    let i = choose|i: int| is_first_named(ss, name, i);
    assert(is_first_named(ss, name, i));
    if i < m {
        assert(ss[i].name@ != name);
    }
    if m < i {
        assert(ss[m].name@ != name);
    }
}

/// Answers given one per status, in the statuses' order, to statuses whose
/// names differ, enrich each status with its own answer and leave the rest.
pub proof fn lemma_answers_in_order(ss: Seq<ToolStatus>, answers: Seq<(String, Option<String>)>)
    requires
        answers.len() <= ss.len(),
        forall|i: int, j: int| 0 <= i < j < ss.len() ==> ss[i].name@ != ss[j].name@,
        forall|i: int| 0 <= i < answers.len() ==> (#[trigger] answers[i]).0@ == ss[i].name@,
    ensures
        enriched_all(ss, answers).len() == ss.len(),
        forall|i: int|
            0 <= i < ss.len() ==> #[trigger] enriched_all(ss, answers)[i] == if i < answers.len() {
                enriched(ss[i], answers[i].1)
            } else {
                ss[i]
            },
    decreases answers.len(),
{
    if answers.len() > 0 {
        let init = answers.drop_last();
        assert forall|i: int| 0 <= i < init.len() implies (#[trigger] init[i]).0@ == ss[i].name@ by {
            assert(init[i] == answers[i]);
        }
        lemma_answers_in_order(ss, init);
        let prev = enriched_all(ss, init);
        let m = answers.len() - 1;
        let (name, latest) = answers.last();
        assert(answers[m] == answers.last());
        assert forall|k: int| 0 <= k < m implies prev[k].name@ != name@ by {
            assert(prev[k] == enriched(ss[k], init[k].1));
        }
        assert(prev[m] == ss[m]);
        assert(is_first_named(prev, name@, m));
        lemma_first_named_unique(prev, name@, m);
    }
}

/// A scan's lookups, one per status in order and none for a status without
/// a lookup target, leave no latest version on a tool that is not installed,
/// and mark a tool outdated exactly when its installed version is older than
/// the latest one found.
pub proof fn lemma_scan_enrichment(
    ss: Seq<ToolStatus>,
    defs: Seq<ToolDefinition>,
    answers: Seq<(String, Option<String>)>,
)
    requires
        answers.len() == ss.len(),
        forall|i: int, j: int| 0 <= i < j < ss.len() ==> ss[i].name@ != ss[j].name@,
        forall|i: int| 0 <= i < answers.len() ==> (#[trigger] answers[i]).0@ == ss[i].name@,
        forall|i: int| 0 <= i < ss.len() ==> (#[trigger] ss[i]).latest_version is None,
        forall|i: int|
            0 <= i < ss.len() && lookup_target(#[trigger] ss[i], defs) is None ==> answers[i].1 is None,
    ensures
        enriched_all(ss, answers).len() == ss.len(),
        forall|i: int|
            0 <= i < ss.len() ==> {
                let r = #[trigger] enriched_all(ss, answers)[i];
                &&& r.name == ss[i].name
                &&& r.installed_version == ss[i].installed_version
                &&& r.installed_version is None ==> r.latest_version is None
                &&& r.installed_version is Some && r.latest_version is Some ==> r.is_outdated == outdated(
                    r.installed_version->0@,
                    r.latest_version->0@,
                )
            },
{
    lemma_answers_in_order(ss, answers);
    assert forall|i: int| 0 <= i < ss.len() implies {
        let r = #[trigger] enriched_all(ss, answers)[i];
        &&& r.name == ss[i].name
        &&& r.installed_version == ss[i].installed_version
        &&& r.installed_version is None ==> r.latest_version is None
        &&& r.installed_version is Some && r.latest_version is Some ==> r.is_outdated == outdated(
            r.installed_version->0@,
            r.latest_version->0@,
        )
    } by {
        assert(enriched_all(ss, answers)[i] == enriched(ss[i], answers[i].1));
        if ss[i].installed_version is None {
            assert(lookup_target(ss[i], defs) is None);
        }
    }
}

/// A whole scan: statuses of the enabled tools, in the registry's order,
/// each with the name of its definition and no latest version yet, enriched
/// with one lookup answer per status (none for a status without a lookup
/// target). The result lists the enabled tools in that order; a tool not
/// installed has no latest version, and a tool is outdated exactly when its
/// installed version is older than the latest one found.
pub proof fn lemma_scan_follows_enabled_tools(
    enabled: Seq<Seq<char>>,
    defs: Seq<ToolDefinition>,
    ss: Seq<ToolStatus>,
    answers: Seq<(String, Option<String>)>,
)
    requires
        definition_views(defs) == enabled_definitions(builtin_view(), enabled),
        ss.len() == defs.len(),
        forall|i: int| 0 <= i < ss.len() ==> (#[trigger] ss[i]).name@ == defs[i].name@,
        forall|i: int| 0 <= i < ss.len() ==> (#[trigger] ss[i]).latest_version is None,
        answers.len() == ss.len(),
        forall|i: int| 0 <= i < answers.len() ==> (#[trigger] answers[i]).0@ == ss[i].name@,
        forall|i: int|
            0 <= i < ss.len() && lookup_target(#[trigger] ss[i], defs) is None ==> answers[i].1 is None,
    ensures
        enriched_all(ss, answers).len() == defs.len(),
        forall|i: int|
            0 <= i < defs.len() ==> {
                let r = #[trigger] enriched_all(ss, answers)[i];
                &&& r.name@ == defs[i].name@
                &&& r.installed_version is None ==> r.latest_version is None
                &&& r.installed_version is Some && r.latest_version is Some ==> r.is_outdated == outdated(
                    r.installed_version->0@,
                    r.latest_version->0@,
                )
            },
{
    lemma_builtin_names_distinct();
    let all = builtin_view();
    assert forall|i: int, j: int| 0 <= i < j < all.len() implies all[i].name != all[j].name by {
        assert(builtin_names()[i] == all[i].name);
        assert(builtin_names()[j] == all[j].name);
    }
    lemma_enabled_definitions(all, enabled);
    let dv = definition_views(defs);
    assert forall|i: int, j: int| 0 <= i < j < ss.len() implies ss[i].name@ != ss[j].name@ by {
        assert(dv[i] == defs[i]@);
        assert(dv[j] == defs[j]@);
    }
    lemma_scan_enrichment(ss, defs, answers);
}

/// The position of the first definition named `name`, if any.
pub open spec fn def_position(defs: Seq<ToolDefinition>, name: Seq<char>) -> Option<nat>
    decreases defs.len(),
{
    if defs.len() == 0 {
        None
    } else if defs[0].name@ == name {
        Some(0)
    } else {
        match def_position(defs.drop_first(), name) {
            Some(k) => Some(k + 1),
            None => None,
        }
    }
}

/// The first definition named `name` is at `i` when none before it is.
proof fn lemma_def_position(defs: Seq<ToolDefinition>, name: Seq<char>, i: int)
    requires
        0 <= i <= defs.len(),
        forall|k: int| 0 <= k < i ==> (#[trigger] defs[k]).name@ != name,
    ensures
        i < defs.len() && defs[i].name@ == name ==> def_position(defs, name) == Some(i as nat),
        i == defs.len() ==> def_position(defs, name) is None,
    decreases i,
{
    if i > 0 {
        let rest = defs.drop_first();
        assert forall|k: int| 0 <= k < i - 1 implies (#[trigger] rest[k]).name@ != name by {
            assert(rest[k] == defs[k + 1]);
        }
        lemma_def_position(rest, name, i - 1);
        if i < defs.len() {
            assert(rest[i - 1] == defs[i]);
        }
    }
}

/// Which definition's latest version a scanned status is looked up with:
/// the first definition of its name, for a tool that is installed; none
/// for a missing tool.
pub open spec fn lookup_target(s: ToolStatus, defs: Seq<ToolDefinition>) -> Option<nat> {
    if s.installed_version is Some {
        def_position(defs, s.name@)
    } else {
        None
    }
}

/// For each scanned status, the position among `defs` of the definition
/// whose latest version is looked up for it.
pub fn lookup_targets(statuses: &Vec<ToolStatus>, defs: &Vec<ToolDefinition>) -> (r: Vec<Option<usize>>)
    ensures
        r@.len() == statuses@.len(),
        forall|i: int|
            0 <= i < r@.len() ==> match #[trigger] r@[i] {
                Some(k) => lookup_target(statuses@[i], defs@) == Some(k as nat),
                None => lookup_target(statuses@[i], defs@) is None,
            },
{
    let mut out: Vec<Option<usize>> = Vec::new();
    let mut i: usize = 0;
    while i < statuses.len()
        invariant
            i <= statuses.len(),
            out@.len() == i,
            forall|k: int|
                0 <= k < i ==> match #[trigger] out@[k] {
                    Some(p) => lookup_target(statuses@[k], defs@) == Some(p as nat),
                    None => lookup_target(statuses@[k], defs@) is None,
                },
        decreases statuses.len() - i,
    {
        let s = &statuses[i];
        let target = if s.installed_version.is_some() {
            let mut j: usize = 0;
            while j < defs.len() && !crate::text::str_is(defs[j].name.as_str(), s.name.as_str())
                invariant
                    j <= defs.len(),
                    forall|k: int| 0 <= k < j ==> (#[trigger] defs@[k]).name@ != s.name@,
                decreases defs.len() - j,
            {
                j = j + 1;
            }
            proof {
                lemma_def_position(defs@, s.name@, j as int);
            }
            if j < defs.len() {
                Some(j)
            } else {
                None
            }
        } else {
            None
        };
        out.push(target);
        i = i + 1;
    }
    out
}

/// The position of the first status named `name`.
fn position_named(ss: &Vec<ToolStatus>, name: &String) -> (r: Option<usize>)
    ensures
        match r {
            Some(i) => is_first_named(ss@, name@, i as int) && first_named(ss@, name@) == Some(
                i as int,
            ),
            None => first_named(ss@, name@) is None,
        },
{
    let mut i: usize = 0;
    while i < ss.len()
        invariant
            i <= ss.len(),
            forall|k: int| 0 <= k < i ==> ss@[k].name@ != name@,
        decreases ss.len() - i,
    {
        if crate::text::str_is(ss[i].name.as_str(), name.as_str()) {
            proof {
                assert(is_first_named(ss@, name@, i as int));
                let j = choose|j: int| is_first_named(ss@, name@, j);
                assert(is_first_named(ss@, name@, j));
                if j < i {
                } else if j > i {
                }
            }
            return Some(i);
        }
        i = i + 1;
    }
    None
}

/// Apply the answers of the latest-version lookups of a scan: each answer
/// goes to the first status of its tool's name.
pub fn apply_latest_answers(statuses: &mut Vec<ToolStatus>, answers: Vec<(String, Option<String>)>)
    ensures
        final(statuses)@ == enriched_all(old(statuses)@, answers@),
{
    let mut k: usize = 0;
    while k < answers.len()
        invariant
            k <= answers.len(),
            statuses@ == enriched_all(old(statuses)@, answers@.take(k as int)),
        decreases answers.len() - k,
    {
        proof {
            assert(answers@.take(k + 1).drop_last() =~= answers@.take(k as int));
            assert(answers@.take(k + 1).last() == answers@[k as int]);
        }
        let name = &answers[k].0;
        match position_named(statuses, name) {
            Some(i) => {
                let ghost before = statuses@;
                let mut s = statuses.remove(i);
                apply_latest(&mut s, crate::types::clone_opt(&answers[k].1));
                statuses.insert(i, s);
                assert(statuses@ =~= before.update(i as int, enriched(before[i as int], answers@[k as int].1)));
            },
            None => {},
        }
        k = k + 1;
    }
    assert(answers@.take(answers.len() as int) =~= answers@);
}

/// The text of an optional version, `?` when unknown.
pub open spec fn or_unknown(v: Option<Seq<char>>) -> Seq<char> {
    match v {
        Some(s) => s,
        None => "?"@,
    }
}

/// The line of a notification that names one update: `Node.js 20.1.0 → 22.0.0`.
pub open spec fn update_line(s: ToolStatus) -> Seq<char> {
    s.display_name@ + " "@ + or_unknown(opt_view(s.installed_version)) + " → "@ + or_unknown(
        opt_view(s.latest_version),
    )
}

/// The lines joined by newlines.
pub open spec fn join_lines(ls: Seq<Seq<char>>) -> Seq<char>
    decreases ls.len(),
{
    if ls.len() == 0 {
        Seq::empty()
    } else if ls.len() == 1 {
        ls[0]
    } else {
        join_lines(ls.drop_last()) + "\n"@ + ls.last()
    }
}

/// The title of a notification about `n` updates.
pub open spec fn updates_title(n: nat) -> Seq<char> {
    "Toolpulse: "@ + decimal(n) + " update(s) available"@
}

/// The positions of the outdated statuses, in order.
pub open spec fn outdated_positions(s: Seq<ToolStatus>, k: nat) -> Seq<usize>
    decreases k,
{
    if k == 0 {
        Seq::empty()
    } else {
        let init = outdated_positions(s, (k - 1) as nat);
        if s[k - 1].is_outdated {
            init.push((k - 1) as usize)
        } else {
            init
        }
    }
}

/// The positions of the outdated tools among `statuses`.
pub fn outdated_indices(statuses: &Vec<ToolStatus>) -> (r: Vec<usize>)
    ensures
        r@ == outdated_positions(statuses@, statuses@.len()),
{
    let mut out: Vec<usize> = Vec::new();
    let mut i: usize = 0;
    while i < statuses.len()
        invariant
            i <= statuses.len(),
            out@ == outdated_positions(statuses@, i as nat),
        decreases statuses.len() - i,
    {
        if statuses[i].is_outdated {
            out.push(i);
        }
        i = i + 1;
    }
    out
}

/// The title and body of one grouped notification about the statuses at
/// `picked`: the count of updates, and one line per tool.
pub fn update_notification(statuses: &Vec<ToolStatus>, picked: &Vec<usize>) -> (r: (String, String))
    requires
        forall|k: int| 0 <= k < picked@.len() ==> #[trigger] picked@[k] < statuses@.len(),
    ensures
        r.0@ == updates_title(picked@.len()),
        r.1@ == join_lines(picked@.map_values(|i: usize| update_line(statuses@[i as int]))),
{
    let mut title = String::from_str("Toolpulse: ");
    push_decimal(&mut title, picked.len() as u64);
    push_str(&mut title, " update(s) available");
    let ghost ls = picked@.map_values(|i: usize| update_line(statuses@[i as int]));
    let mut body = String::new();
    let mut k: usize = 0;
    proof {
        assert(ls.take(0) =~= Seq::<Seq<char>>::empty());
    }
    while k < picked.len()
        invariant
            k <= picked.len(),
            ls == picked@.map_values(|i: usize| update_line(statuses@[i as int])),
            forall|m: int| 0 <= m < picked@.len() ==> #[trigger] picked@[m] < statuses@.len(),
            body@ == join_lines(ls.take(k as int)),
        decreases picked.len() - k,
    {
        let s = &statuses[picked[k]];
        proof {
            assert(ls.take(k + 1).drop_last() =~= ls.take(k as int));
            assert(ls.take(k + 1).last() == update_line(*s));
        }
        if k > 0 {
            push_str(&mut body, "\n");
        }
        push_str(&mut body, s.display_name.as_str());
        push_str(&mut body, " ");
        match &s.installed_version {
            Some(v) => push_str(&mut body, v.as_str()),
            None => push_str(&mut body, "?"),
        }
        push_str(&mut body, " → ");
        match &s.latest_version {
            Some(v) => push_str(&mut body, v.as_str()),
            None => push_str(&mut body, "?"),
        }
        proof {
            if k > 0 {
                assert(body@ =~= join_lines(ls.take(k as int)) + "\n"@ + update_line(*s));
            } else {
                assert(ls.take(1)[0] == update_line(*s));
                assert(body@ =~= update_line(*s));
            }
        }
        k = k + 1;
    }
    proof {
        assert(ls.take(picked@.len() as int) =~= ls);
    }
    (title, body)
}

/// The title and body of the notification that reports how a run went:
/// `✓ label` on success, `✗ label: message` on failure.
pub fn result_notification(label: &str, err: Option<&String>) -> (r: (String, String))
    ensures
        match err {
            None => r.0@ == "Toolpulse"@ && r.1@ == "✓ "@ + label@,
            Some(msg) => r.0@ == "Toolpulse error"@ && r.1@ == "✗ "@ + label@ + ": "@ + msg@,
        },
{
    match err {
        None => {
            let mut body = String::from_str("✓ ");
            push_str(&mut body, label);
            (String::from_str("Toolpulse"), body)
        },
        Some(msg) => {
            let mut body = String::from_str("✗ ");
            push_str(&mut body, label);
            push_str(&mut body, ": ");
            push_str(&mut body, msg.as_str());
            (String::from_str("Toolpulse error"), body)
        },
    }
}

// --- Editors ----------------------------------------------------------------

/// The editors the application knows how to launch, in the order they are
/// offered: id, display name, command-line launcher, and macOS application
/// bundle (empty when there is none).
pub open spec fn ide_candidates_spec() -> Seq<(Seq<char>, Seq<char>, Seq<char>, Seq<char>)> {
    seq![
        ("code"@, "VS Code"@, "code"@, "Visual Studio Code.app"@),
        ("code-insiders"@, "VS Code Insiders"@, "code-insiders"@, "Visual Studio Code - Insiders.app"@),
        ("cursor"@, "Cursor"@, "cursor"@, "Cursor.app"@),
        ("zed"@, "Zed"@, "zeditor"@, "Zed.app"@),
        ("subl"@, "Sublime Text"@, "subl"@, "Sublime Text.app"@),
        ("nova"@, "Nova"@, "nova"@, "Nova.app"@),
        ("vim"@, "Vim (terminal)"@, "vim"@, ""@),
        ("emacs"@, "Emacs"@, "emacs"@, ""@),
    ]
}

/// A candidate editor, as plain values.
pub open spec fn candidate_view(c: (&str, &str, &str, &str)) -> (Seq<char>, Seq<char>, Seq<char>, Seq<char>) {
    (c.0@, c.1@, c.2@, c.3@)
}

/// The editors that are probed, in order.
pub fn ide_candidates() -> (r: Vec<(&'static str, &'static str, &'static str, &'static str)>)
    ensures
        r@.map_values(|c: (&str, &str, &str, &str)| candidate_view(c)) == ide_candidates_spec(),
{
    let r = vec![
        ("code", "VS Code", "code", "Visual Studio Code.app"),
        ("code-insiders", "VS Code Insiders", "code-insiders", "Visual Studio Code - Insiders.app"),
        ("cursor", "Cursor", "cursor", "Cursor.app"),
        ("zed", "Zed", "zeditor", "Zed.app"),
        ("subl", "Sublime Text", "subl", "Sublime Text.app"),
        ("nova", "Nova", "nova", "Nova.app"),
        ("vim", "Vim (terminal)", "vim", ""),
        ("emacs", "Emacs", "emacs", ""),
    ];
    assert(r@.map_values(|c: (&str, &str, &str, &str)| candidate_view(c)) =~= ide_candidates_spec());
    r
}

/// A detected editor, as plain values: id, name, launch command, and
/// whether it is launched as an application bundle.
pub open spec fn ide_view(d: DetectedIde) -> (Seq<char>, Seq<char>, Seq<char>, bool) {
    (d.id@, d.name@, d.command@, d.is_app)
}

/// Whether a candidate is offered, given whether its command is on the
/// `PATH` and whether its application bundle is installed: the command is
/// preferred, and the bundle is launched only when there is one.
pub open spec fn detected_ide_spec(
    c: (Seq<char>, Seq<char>, Seq<char>, Seq<char>),
    cli_found: bool,
    app_found: bool,
) -> Option<(Seq<char>, Seq<char>, Seq<char>, bool)> {
    if cli_found {
        Some((c.0, c.1, c.2, false))
    } else if c.3.len() > 0 && app_found {
        Some((c.0, c.1, c.3, true))
    } else {
        None
    }
}

/// The editor a candidate yields, given what the probes found.
pub fn detected_ide(
    candidate: (&str, &str, &str, &str),
    cli_found: bool,
    app_found: bool,
) -> (r: Option<DetectedIde>)
    ensures
        match r {
            Some(d) => detected_ide_spec(candidate_view(candidate), cli_found, app_found) == Some(
                ide_view(d),
            ),
            None => detected_ide_spec(candidate_view(candidate), cli_found, app_found) is None,
        },
{
    let (id, name, cli, app) = candidate;
    if cli_found {
        Some(
            DetectedIde {
                id: String::from_str(id),
                name: String::from_str(name),
                command: String::from_str(cli),
                is_app: false,
            },
        )
    } else if chars_of(app).len() > 0 && app_found {
        Some(
            DetectedIde {
                id: String::from_str(id),
                name: String::from_str(name),
                command: String::from_str(app),
                is_app: true,
            },
        )
    } else {
        None
    }
}

} // verus!
