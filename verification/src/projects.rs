//! Project discovery: which directories are walked, which files mark a
//! project, and how each ecosystem's manifest lists its dependencies.
//!
//! The caller walks the tree breadth-first; these functions decide what to
//! skip, what a manifest is, and what it declares.
use vstd::prelude::*;

use crate::checker::{is_outdated, outdated, skip_non_digits};
use crate::json::{as_str, get_member, json_document, member, parse_json_document, string_value, JsonValue};
use crate::text::{push_str, before_char, char_is_digit, char_is_ws, contains_vec, is_digit, lemma_trim_start_skip, same_chars, trim_end_char, trim_end_char_vec, contains_seq, find_char, find_seq, find_vec, first_index, has_char, has_prefix, split, starts_with_vec, trim_char, trim_char_vec, chars_of, has_where, is_ws, lemma_first_where, is_first_where, lemma_split_first, lines, lines_vec, slice_of, split_once_where, str_is, string_of, strip_prefix, strip_prefix_vec, trim, trim_end, trim_start, trim_vec, views, words, words_vec, lemma_trim_idempotent, has_char_vec};
use crate::types::{clone_opt, opt_view, string_views, ProjectDependency, ProjectEcosystem};

verus! {

/// A dependency, as plain values.
pub struct DepView {
    pub name: Seq<char>,
    pub version: Option<Seq<char>>,
    pub is_outdated: Option<bool>,
    pub latest: Option<Seq<char>>,
}

impl View for ProjectDependency {
    type V = DepView;

    open spec fn view(&self) -> DepView {
        DepView {
            name: self.name@,
            version: opt_view(self.version),
            is_outdated: self.is_outdated,
            latest: opt_view(self.latest),
        }
    }
}

/// The views of a list of dependencies.
pub open spec fn dep_views(v: Seq<ProjectDependency>) -> Seq<DepView> {
    v.map_values(|d: ProjectDependency| d@)
}

/// A dependency as a manifest declares it, not yet checked.
pub open spec fn declared(name: Seq<char>, version: Option<Seq<char>>) -> DepView {
    DepView { name, version, is_outdated: None, latest: None }
}

/// The text of an optional buffer.
pub open spec fn opt_chars(o: Option<Vec<char>>) -> Option<Seq<char>> {
    match o {
        Some(v) => Some(v@),
        None => None,
    }
}

/// A declared dependency built from character buffers.
fn new_dep(name: &Vec<char>, version: Option<Vec<char>>) -> (r: ProjectDependency)
    ensures
        r@ == declared(name@, opt_chars(version)),
{
    let version = match version {
        Some(v) => Some(string_of(&v)),
        None => None,
    };
    ProjectDependency { name: string_of(name), version, is_outdated: None, latest: None }
}

/// Appending a dependency appends its view.
proof fn lemma_push_dep(v: Seq<ProjectDependency>, d: ProjectDependency)
    ensures
        dep_views(v.push(d)) == dep_views(v).push(d@),
{
    assert(dep_views(v.push(d)) =~= dep_views(v).push(d@));
}

/// The dependencies that `f` reads from each line, in order.
pub open spec fn collect_deps(ls: Seq<Seq<char>>, f: spec_fn(Seq<char>) -> Option<DepView>) -> Seq<
    DepView,
>
    decreases ls.len(),
{
    if ls.len() == 0 {
        Seq::empty()
    } else {
        let init = collect_deps(ls.drop_last(), f);
        match f(ls.last()) {
            Some(d) => init.push(d),
            None => init,
        }
    }
}

// --- Directory walking -------------------------------------------------------

/// Directory names that are never descended into: dependency caches and
/// VCS or build artifacts.
pub open spec fn skip_dirs() -> Seq<Seq<char>> {
    seq![
        "node_modules"@, ".git"@, ".svn"@, ".hg"@, "target"@, "build"@, "dist"@, ".next"@,
        ".nuxt"@, ".cache"@, ".gradle"@, ".m2"@, "venv"@, ".venv"@, "env"@, "__pycache__"@,
        ".tox"@, ".pytest_cache"@, "vendor"@, ".cargo"@, ".rustup"@, "Pods"@, "DerivedData"@,
        ".deno"@, ".bun"@, "coverage"@, ".turbo"@,
    ]
}

/// Whether `name` is one of `names`.
pub fn name_listed(name: &str, names: &[&str]) -> (r: bool)
    ensures
        r == names@.map_values(|s: &str| s@).contains(name@),
{
    let ghost ns = names@.map_values(|s: &str| s@);
    let mut i: usize = 0;
    while i < names.len()
        invariant
            ns == names@.map_values(|s: &str| s@),
            i <= names.len(),
            forall|k: int| 0 <= k < i ==> ns[k] != name@,
        decreases names.len() - i,
    {
        if str_is(names[i], name) {
            assert(ns[i as int] == name@);
            return true;
        }
        i = i + 1;
    }
    false
}

/// Whether the project scanner descends into a directory named `name`: not
/// a skipped directory and not a hidden one.
pub fn should_descend(name: &str) -> (r: bool)
    ensures
        r == (!skip_dirs().contains(name@) && !(name@.len() > 0 && name@[0] == '.')),
{
    let listed = name_listed(
        name,
        &[
            "node_modules", ".git", ".svn", ".hg", "target", "build", "dist", ".next", ".nuxt",
            ".cache", ".gradle", ".m2", "venv", ".venv", "env", "__pycache__", ".tox",
            ".pytest_cache", "vendor", ".cargo", ".rustup", "Pods", "DerivedData", ".deno", ".bun",
            "coverage", ".turbo",
        ],
    );
    proof {
        assert((&[
            "node_modules", ".git", ".svn", ".hg", "target", "build", "dist", ".next", ".nuxt",
            ".cache", ".gradle", ".m2", "venv", ".venv", "env", "__pycache__", ".tox",
            ".pytest_cache", "vendor", ".cargo", ".rustup", "Pods", "DerivedData", ".deno", ".bun",
            "coverage", ".turbo",
        ])@.map_values(|s: &str| s@) =~= skip_dirs());
    }
    let chars = chars_of(name);
    let hidden = chars.len() > 0 && chars[0] == '.';
    !listed && !hidden
}

/// The ecosystem that a manifest file name identifies.
pub open spec fn manifest_ecosystem_spec(name: Seq<char>) -> Option<ProjectEcosystem> {
    if name == "package.json"@ {
        Some(ProjectEcosystem::Node)
    } else if name == "requirements.txt"@ || name == "pyproject.toml"@ || name == "Pipfile"@ {
        Some(ProjectEcosystem::Python)
    } else if name == "Cargo.toml"@ {
        Some(ProjectEcosystem::Rust)
    } else if name == "go.mod"@ {
        Some(ProjectEcosystem::Go)
    } else if name == "Gemfile"@ {
        Some(ProjectEcosystem::Ruby)
    } else if name == "composer.json"@ {
        Some(ProjectEcosystem::Php)
    } else if name == "pom.xml"@ || name == "build.gradle"@ || name == "build.gradle.kts"@ {
        Some(ProjectEcosystem::Java)
    } else {
        None
    }
}

/// The ecosystem that a file named `name` marks, if it is a known manifest.
pub fn manifest_ecosystem(name: &str) -> (r: Option<ProjectEcosystem>)
    ensures
        r == manifest_ecosystem_spec(name@),
{
    if str_is(name, "package.json") {
        Some(ProjectEcosystem::Node)
    } else if str_is(name, "requirements.txt") || str_is(name, "pyproject.toml") || str_is(
        name,
        "Pipfile",
    ) {
        Some(ProjectEcosystem::Python)
    } else if str_is(name, "Cargo.toml") {
        Some(ProjectEcosystem::Rust)
    } else if str_is(name, "go.mod") {
        Some(ProjectEcosystem::Go)
    } else if str_is(name, "Gemfile") {
        Some(ProjectEcosystem::Ruby)
    } else if str_is(name, "composer.json") {
        Some(ProjectEcosystem::Php)
    } else if str_is(name, "pom.xml") || str_is(name, "build.gradle") || str_is(
        name,
        "build.gradle.kts",
    ) {
        Some(ProjectEcosystem::Java)
    } else {
        None
    }
}

/// Whether `found` already holds a manifest of ecosystem `e`.
pub open spec fn has_ecosystem(found: Seq<(usize, ProjectEcosystem)>, e: ProjectEcosystem) -> bool {
    exists|j: int| 0 <= j < found.len() && (#[trigger] found[j]).1 == e
}

/// The manifests among the file names of one directory that make projects:
/// the first file of each ecosystem, with its index, in order.
pub open spec fn manifests_among(names: Seq<Seq<char>>) -> Seq<(usize, ProjectEcosystem)>
    decreases names.len(),
{
    if names.len() == 0 {
        Seq::empty()
    } else {
        let init = manifests_among(names.drop_last());
        match manifest_ecosystem_spec(names.last()) {
            Some(e) => if has_ecosystem(init, e) {
                init
            } else {
                init.push(((names.len() - 1) as usize, e))
            },
            None => init,
        }
    }
}

/// Which files of one directory are project manifests: the first of each
/// ecosystem (a second Python manifest in the same directory is the same
/// project), with its index in `file_names`.
pub fn directory_manifests(file_names: &Vec<String>) -> (r: Vec<(usize, ProjectEcosystem)>)
    ensures
        r@ == manifests_among(string_views(file_names@)),
{
    let ghost names = string_views(file_names@);
    let mut out: Vec<(usize, ProjectEcosystem)> = Vec::new();
    let mut i: usize = 0;
    while i < file_names.len()
        invariant
            names == string_views(file_names@),
            i <= file_names.len(),
            out@ == manifests_among(names.take(i as int)),
        decreases file_names.len() - i,
    {
        proof {
            assert(names.take(i + 1).drop_last() =~= names.take(i as int));
            assert(names.take(i + 1).last() == file_names@[i as int]@);
        }
        match manifest_ecosystem(file_names[i].as_str()) {
            Some(e) => {
                let mut seen = false;
                let mut j: usize = 0;
                while j < out.len()
                    invariant
                        j <= out.len(),
                        seen == exists|k: int| 0 <= k < j && (#[trigger] out@[k]).1 == e,
                    decreases out.len() - j,
                {
                    if out[j].1 == e {
                        seen = true;
                    }
                    j = j + 1;
                }
                if !seen {
                    out.push((i, e));
                }
            },
            None => {},
        }
        i = i + 1;
    }
    assert(names.take(file_names.len() as int) =~= names);
    out
}

/// The manifest signatures: each file name with the ecosystem it marks.
pub open spec fn manifest_signatures() -> Seq<(Seq<char>, ProjectEcosystem)> {
    seq![
        ("package.json"@, ProjectEcosystem::Node),
        ("requirements.txt"@, ProjectEcosystem::Python),
        ("pyproject.toml"@, ProjectEcosystem::Python),
        ("Pipfile"@, ProjectEcosystem::Python),
        ("Cargo.toml"@, ProjectEcosystem::Rust),
        ("go.mod"@, ProjectEcosystem::Go),
        ("Gemfile"@, ProjectEcosystem::Ruby),
        ("composer.json"@, ProjectEcosystem::Php),
        ("pom.xml"@, ProjectEcosystem::Java),
        ("build.gradle"@, ProjectEcosystem::Java),
        ("build.gradle.kts"@, ProjectEcosystem::Java),
    ]
}

/// The length and the first, second and last characters of a file name.
spec fn manifest_key(s: Seq<char>) -> (nat, char, char, char) {
    (s.len(), s[0], s[1], s[s.len() - 1])
}

/// A file is a manifest exactly when it bears one of the signatures, and it
/// marks that signature's ecosystem.
pub proof fn lemma_manifest_signatures()
    ensures
        forall|i: int|
            0 <= i < manifest_signatures().len() ==> manifest_ecosystem_spec(
                (#[trigger] manifest_signatures()[i]).0,
            ) == Some(manifest_signatures()[i].1),
        forall|n: Seq<char>|
            #[trigger] manifest_ecosystem_spec(n) is Some ==> exists|i: int|
                0 <= i < manifest_signatures().len() && manifest_signatures()[i].0 == n && Some(
                    manifest_signatures()[i].1,
                ) == manifest_ecosystem_spec(n),
{
    reveal_strlit("package.json");
    reveal_strlit("requirements.txt");
    reveal_strlit("pyproject.toml");
    reveal_strlit("Pipfile");
    reveal_strlit("Cargo.toml");
    reveal_strlit("go.mod");
    reveal_strlit("Gemfile");
    reveal_strlit("composer.json");
    reveal_strlit("pom.xml");
    reveal_strlit("build.gradle");
    reveal_strlit("build.gradle.kts");
    assert(manifest_key("package.json"@) == (12nat, 'p', 'a', 'n'));
    assert(manifest_key("requirements.txt"@) == (16nat, 'r', 'e', 't'));
    assert(manifest_key("pyproject.toml"@) == (14nat, 'p', 'y', 'l'));
    assert(manifest_key("Pipfile"@) == (7nat, 'P', 'i', 'e'));
    assert(manifest_key("Cargo.toml"@) == (10nat, 'C', 'a', 'l'));
    assert(manifest_key("go.mod"@) == (6nat, 'g', 'o', 'd'));
    assert(manifest_key("Gemfile"@) == (7nat, 'G', 'e', 'e'));
    assert(manifest_key("composer.json"@) == (13nat, 'c', 'o', 'n'));
    assert(manifest_key("pom.xml"@) == (7nat, 'p', 'o', 'l'));
    assert(manifest_key("build.gradle"@) == (12nat, 'b', 'u', 'e'));
    assert(manifest_key("build.gradle.kts"@) == (16nat, 'b', 'u', 's'));
    let t = manifest_signatures();
    assert forall|i: int| 0 <= i < t.len() implies manifest_ecosystem_spec((#[trigger] t[i]).0) == Some(t[i].1) by {
        assert(manifest_key(t[i].0) == manifest_key(t[i].0));
    }
    assert forall|n: Seq<char>| #[trigger] manifest_ecosystem_spec(n) is Some implies exists|i: int|
        0 <= i < t.len() && t[i].0 == n && Some(t[i].1) == manifest_ecosystem_spec(n) by {
        if n == "package.json"@ {
            assert(t[0].0 == n && Some(t[0].1) == manifest_ecosystem_spec(n));
        } else if n == "requirements.txt"@ {
            assert(t[1].0 == n && Some(t[1].1) == manifest_ecosystem_spec(n));
        } else if n == "pyproject.toml"@ {
            assert(t[2].0 == n && Some(t[2].1) == manifest_ecosystem_spec(n));
        } else if n == "Pipfile"@ {
            assert(t[3].0 == n && Some(t[3].1) == manifest_ecosystem_spec(n));
        } else if n == "Cargo.toml"@ {
            assert(t[4].0 == n && Some(t[4].1) == manifest_ecosystem_spec(n));
        } else if n == "go.mod"@ {
            assert(t[5].0 == n && Some(t[5].1) == manifest_ecosystem_spec(n));
        } else if n == "Gemfile"@ {
            assert(t[6].0 == n && Some(t[6].1) == manifest_ecosystem_spec(n));
        } else if n == "composer.json"@ {
            assert(t[7].0 == n && Some(t[7].1) == manifest_ecosystem_spec(n));
        } else if n == "pom.xml"@ {
            assert(t[8].0 == n && Some(t[8].1) == manifest_ecosystem_spec(n));
        } else if n == "build.gradle"@ {
            assert(t[9].0 == n && Some(t[9].1) == manifest_ecosystem_spec(n));
        } else {
            assert(t[10].0 == n && Some(t[10].1) == manifest_ecosystem_spec(n));
        }
    }
}

/// The manifest a directory's project of an ecosystem is read from is the
/// first of its files that marks that ecosystem.
pub proof fn lemma_manifest_is_first(names: Seq<Seq<char>>)
    requires
        names.len() <= usize::MAX,
    ensures
        forall|a: int, k: int|
            0 <= a < manifests_among(names).len() && 0 <= k < (#[trigger] manifests_among(names)[a]).0 ==> manifest_ecosystem_spec(
                #[trigger] names[k],
            ) != Some(manifests_among(names)[a].1),
    decreases names.len(),
{
    if names.len() > 0 {
        let init_names = names.drop_last();
        lemma_manifest_is_first(init_names);
        lemma_manifests_among(init_names);
        let init = manifests_among(init_names);
        let r = manifests_among(names);
        assert forall|a: int, k: int| 0 <= a < r.len() && 0 <= k < (#[trigger] r[a]).0 implies manifest_ecosystem_spec(
            #[trigger] names[k],
        ) != Some(r[a].1) by {
            if a < init.len() {
                assert(r[a] == init[a]);
                assert(names[k] == init_names[k]);
            } else {
                assert(r[a].0 == names.len() - 1);
                assert(names[k] == init_names[k]);
                if manifest_ecosystem_spec(init_names[k]) == Some(r[a].1) {
                    lemma_known_manifest_reported(init_names, k, r[a].1);
                }
            }
        }
    }
}

/// A directory holding a file that bears a signature makes a project of
/// that signature's ecosystem.
pub proof fn lemma_signature_makes_project(names: Seq<Seq<char>>, k: int, i: int)
    requires
        0 <= k < names.len(),
        0 <= i < manifest_signatures().len(),
        names[k] == manifest_signatures()[i].0,
    ensures
        has_ecosystem(manifests_among(names), manifest_signatures()[i].1),
{
    lemma_manifest_signatures();
    lemma_known_manifest_reported(names, k, manifest_signatures()[i].1);
}

/// A file marking an ecosystem makes the directory report that ecosystem.
proof fn lemma_known_manifest_reported(names: Seq<Seq<char>>, k: int, e: ProjectEcosystem)
    requires
        0 <= k < names.len(),
        manifest_ecosystem_spec(names[k]) == Some(e),
    ensures
        has_ecosystem(manifests_among(names), e),
    decreases names.len(),
{
    let init_names = names.drop_last();
    let init = manifests_among(init_names);
    let r = manifests_among(names);
    if k < names.len() - 1 {
        assert(init_names[k] == names[k]);
        lemma_known_manifest_reported(init_names, k, e);
        let j = choose|j: int| 0 <= j < init.len() && (#[trigger] init[j]).1 == e;
        assert(r[j] == init[j]);
    } else {
        assert(names.last() == names[k]);
        if has_ecosystem(init, e) {
            let j = choose|j: int| 0 <= j < init.len() && (#[trigger] init[j]).1 == e;
            assert(r[j] == init[j]);
        } else {
            assert(r[init.len() as int].1 == e);
        }
    }
}

/// One directory makes at most one project per ecosystem: the manifests
/// chosen lie among the names, in increasing order, each of its own
/// ecosystem, and no ecosystem is chosen twice.
pub proof fn lemma_manifests_among(names: Seq<Seq<char>>)
    requires
        names.len() <= usize::MAX,
    ensures
        forall|a: int|
            0 <= a < manifests_among(names).len() ==> {
                let m = #[trigger] manifests_among(names)[a];
                &&& m.0 < names.len()
                &&& manifest_ecosystem_spec(names[m.0 as int]) == Some(m.1)
            },
        forall|a: int, b: int|
            0 <= a < b < manifests_among(names).len() ==> (#[trigger] manifests_among(names)[a]).0
                < (#[trigger] manifests_among(names)[b]).0 && manifests_among(names)[a].1
                != manifests_among(names)[b].1,
    decreases names.len(),
{
    if names.len() > 0 {
        let init_names = names.drop_last();
        lemma_manifests_among(init_names);
        let init = manifests_among(init_names);
        assert forall|a: int| 0 <= a < init.len() implies names[(#[trigger] init[a]).0 as int]
            == init_names[init[a].0 as int] by {}
        match manifest_ecosystem_spec(names.last()) {
            Some(e) => {
                if !has_ecosystem(init, e) {
                    let r = init.push(((names.len() - 1) as usize, e));
                    assert forall|a: int, b: int| 0 <= a < b < r.len() implies (#[trigger] r[a]).0 < (
                    #[trigger] r[b]).0 && r[a].1 != r[b].1 by {
                        if b == init.len() {
                            assert(r[a] == init[a]);
                        }
                    }
                }
            },
            None => {},
        }
    }
}

/// The most projects one scan collects.
pub const MAX_PROJECTS: usize = 2000;

// --- JSON manifests (package.json, composer.json) ---------------------------

/// The dependencies listed by an object's members: each name with its
/// version when the version is a string.
pub open spec fn member_deps(members: Seq<(String, JsonValue)>) -> Seq<DepView> {
    members.map_values(|m: (String, JsonValue)| declared(m.0@, string_value(m.1)))
}

/// The dependencies of one section of a JSON manifest; none when the section
/// is missing or not an object.
pub open spec fn section_deps(value: JsonValue, section: Seq<char>) -> Seq<DepView> {
    match member(value, section) {
        Some(JsonValue::Object(members)) => member_deps(members@),
        _ => Seq::empty(),
    }
}

/// Appends the dependencies of one section.
fn push_section(value: &JsonValue, section: &str, out: &mut Vec<ProjectDependency>)
    ensures
        dep_views(final(out)@) == dep_views(old(out)@) + section_deps(*value, section@),
{
    let ghost start = dep_views(out@);
    match get_member(value, section) {
        Some(JsonValue::Object(members)) => {
            let ghost md = member_deps(members@);
            let mut i: usize = 0;
            proof {
                assert(start + md.take(0) =~= start);
            }
            while i < members.len()
                invariant
                    md == member_deps(members@),
                    i <= members.len(),
                    dep_views(out@) == start + md.take(i as int),
                decreases members.len() - i,
            {
                let version = match as_str(&members[i].1) {
                    Some(v) => Some(String::from_str(v)),
                    None => None,
                };
                let d = ProjectDependency {
                    name: members[i].0.clone(),
                    version,
                    is_outdated: None,
                    latest: None,
                };
                proof {
                    lemma_push_dep(out@, d);
                    assert(md[i as int] == d@);
                    assert(start + md.take(i + 1) =~= (start + md.take(i as int)).push(d@));
                }
                out.push(d);
                i = i + 1;
            }
            proof {
                assert(md.take(i as int) =~= md);
            }
        },
        _ => {
            assert(dep_views(out@) =~= start + Seq::<DepView>::empty());
        },
    }
}

/// The dependencies of a `package.json`: its `dependencies`,
/// `devDependencies` and `peerDependencies`, in that order.
pub open spec fn node_deps(value: JsonValue) -> Seq<DepView> {
    section_deps(value, "dependencies"@) + section_deps(value, "devDependencies"@) + section_deps(
        value,
        "peerDependencies"@,
    )
}

/// The members of section `sec` of a JSON manifest, none when the section
/// is missing or not an object.
pub open spec fn section_members(value: JsonValue, sec: Seq<char>) -> Seq<(String, JsonValue)> {
    match member(value, sec) {
        Some(JsonValue::Object(ms)) => ms@,
        _ => Seq::empty(),
    }
}

/// Whether `deps`, from position `at` on, lists the members `ms` in order,
/// each with its version when that is a string.
pub open spec fn lists_members_at(deps: Seq<DepView>, at: int, ms: Seq<(String, JsonValue)>) -> bool {
    forall|k: int| 0 <= k < ms.len() ==> deps[at + k] == declared((#[trigger] ms[k]).0@, string_value(ms[k].1))
}

/// A `package.json`'s dependencies are its `dependencies`, then its
/// `devDependencies`, then its `peerDependencies`, each in member order.
pub proof fn lemma_node_deps_order(value: JsonValue)
    ensures
        ({
            let a = section_members(value, "dependencies"@);
            let b = section_members(value, "devDependencies"@);
            let c = section_members(value, "peerDependencies"@);
            &&& node_deps(value).len() == a.len() + b.len() + c.len()
            &&& lists_members_at(node_deps(value), 0, a)
            &&& lists_members_at(node_deps(value), a.len() as int, b)
            &&& lists_members_at(node_deps(value), (a.len() + b.len()) as int, c)
        }),
{
    let a = section_members(value, "dependencies"@);
    let b = section_members(value, "devDependencies"@);
    let c = section_members(value, "peerDependencies"@);
    let all = node_deps(value);
    assert(section_deps(value, "dependencies"@) =~= member_deps(a));
    assert(section_deps(value, "devDependencies"@) =~= member_deps(b));
    assert(section_deps(value, "peerDependencies"@) =~= member_deps(c));
    assert(all =~= member_deps(a) + member_deps(b) + member_deps(c));
    assert forall|k: int| 0 <= k < a.len() implies all[0 + k] == declared((#[trigger] a[k]).0@, string_value(a[k].1)) by {
        assert(all[k] == member_deps(a)[k]);
    }
    assert forall|k: int| 0 <= k < b.len() implies all[a.len() + k] == declared((#[trigger] b[k]).0@, string_value(b[k].1)) by {
        assert(all[a.len() + k] == member_deps(b)[k]);
    }
    assert forall|k: int| 0 <= k < c.len() implies all[a.len() + b.len() + k] == declared((#[trigger] c[k]).0@, string_value(c[k].1)) by {
        assert(all[a.len() + b.len() + k] == member_deps(c)[k]);
    }
}

/// A `composer.json`'s dependencies are its `require`, then its
/// `require-dev`, each in member order.
pub proof fn lemma_composer_deps_order(value: JsonValue)
    ensures
        ({
            let a = section_members(value, "require"@);
            let b = section_members(value, "require-dev"@);
            &&& composer_deps(value).len() == a.len() + b.len()
            &&& lists_members_at(composer_deps(value), 0, a)
            &&& lists_members_at(composer_deps(value), a.len() as int, b)
        }),
{
    let a = section_members(value, "require"@);
    let b = section_members(value, "require-dev"@);
    let all = composer_deps(value);
    assert(section_deps(value, "require"@) =~= member_deps(a));
    assert(section_deps(value, "require-dev"@) =~= member_deps(b));
    assert(all =~= member_deps(a) + member_deps(b));
    assert forall|k: int| 0 <= k < a.len() implies all[0 + k] == declared((#[trigger] a[k]).0@, string_value(a[k].1)) by {
        assert(all[k] == member_deps(a)[k]);
    }
    assert forall|k: int| 0 <= k < b.len() implies all[a.len() + k] == declared((#[trigger] b[k]).0@, string_value(b[k].1)) by {
        assert(all[a.len() + k] == member_deps(b)[k]);
    }
}

/// The sections of a `package.json` that list dependencies, in order.
pub open spec fn node_sections() -> Seq<Seq<char>> {
    seq!["dependencies"@, "devDependencies"@, "peerDependencies"@]
}

/// Whether `d` is what member `k` of section `sec` of `value` declares.
pub open spec fn declared_in(value: JsonValue, sec: Seq<char>, d: DepView) -> bool {
    match member(value, sec) {
        Some(JsonValue::Object(ms)) => exists|k: int|
            0 <= k < ms@.len() && d == declared((#[trigger] ms@[k]).0@, string_value(ms@[k].1)),
        _ => false,
    }
}

/// A `package.json` declares exactly the members of its `dependencies`,
/// `devDependencies` and `peerDependencies` objects: every member of each
/// appears, with its version when that is a string, and nothing else does.
pub proof fn lemma_node_deps_sections(value: JsonValue)
    ensures
        forall|j: int|
            0 <= j < node_sections().len() ==> match #[trigger] member(value, node_sections()[j]) {
                Some(JsonValue::Object(ms)) => forall|k: int|
                    0 <= k < ms@.len() ==> node_deps(value).contains(
                        declared((#[trigger] ms@[k]).0@, string_value(ms@[k].1)),
                    ),
                _ => true,
            },
        forall|i: int|
            0 <= i < node_deps(value).len() ==> exists|j: int|
                0 <= j < node_sections().len() && declared_in(
                    value,
                    #[trigger] node_sections()[j],
                    #[trigger] node_deps(value)[i],
                ),
{
    let secs = node_sections();
    let a = section_deps(value, "dependencies"@);
    let b = section_deps(value, "devDependencies"@);
    let c = section_deps(value, "peerDependencies"@);
    let all = node_deps(value);
    assert(all =~= a + b + c);
    assert forall|j: int| 0 <= j < secs.len() implies match #[trigger] member(value, secs[j]) {
        Some(JsonValue::Object(ms)) => forall|k: int|
            0 <= k < ms@.len() ==> all.contains(declared((#[trigger] ms@[k]).0@, string_value(ms@[k].1))),
        _ => true,
    } by {
        match member(value, secs[j]) {
            Some(JsonValue::Object(ms)) => {
                assert forall|k: int| 0 <= k < ms@.len() implies all.contains(
                    declared((#[trigger] ms@[k]).0@, string_value(ms@[k].1)),
                ) by {
                    let d = declared(ms@[k].0@, string_value(ms@[k].1));
                    if j == 0 {
                        assert(a[k] == d);
                        assert(all[k] == d);
                    } else if j == 1 {
                        assert(b[k] == d);
                        assert(all[a.len() + k] == d);
                    } else {
                        assert(c[k] == d);
                        assert(all[a.len() + b.len() + k] == d);
                    }
                }
            },
            _ => {},
        }
    }
    assert forall|i: int| 0 <= i < all.len() implies exists|j: int|
        0 <= j < secs.len() && declared_in(value, #[trigger] secs[j], #[trigger] all[i]) by {
        if i < a.len() {
            assert(all[i] == a[i]);
            assert(secs[0] == "dependencies"@);
            match member(value, "dependencies"@) {
                Some(JsonValue::Object(ms)) => {
                    assert(ms@[i] == ms@[i]);
                },
                _ => {},
            }
            assert(declared_in(value, secs[0], all[i]));
        } else if i < a.len() + b.len() {
            let k = i - a.len();
            assert(all[i] == b[k]);
            assert(secs[1] == "devDependencies"@);
            match member(value, "devDependencies"@) {
                Some(JsonValue::Object(ms)) => {
                    assert(ms@[k] == ms@[k]);
                },
                _ => {},
            }
            assert(declared_in(value, secs[1], all[i]));
        } else {
            let k = i - a.len() - b.len();
            assert(all[i] == c[k]);
            assert(secs[2] == "peerDependencies"@);
            match member(value, "peerDependencies"@) {
                Some(JsonValue::Object(ms)) => {
                    assert(ms@[k] == ms@[k]);
                },
                _ => {},
            }
            assert(declared_in(value, secs[2], all[i]));
        }
    }
}

/// Read the dependencies of a parsed `package.json`.
pub fn parse_node_deps(value: &JsonValue) -> (r: Vec<ProjectDependency>)
    ensures
        dep_views(r@) == node_deps(*value),
{
    let mut deps: Vec<ProjectDependency> = Vec::new();
    proof {
        assert(dep_views(deps@) =~= Seq::<DepView>::empty());
    }
    push_section(value, "dependencies", &mut deps);
    push_section(value, "devDependencies", &mut deps);
    push_section(value, "peerDependencies", &mut deps);
    assert(dep_views(deps@) =~= node_deps(*value));
    deps
}

/// The dependencies of a `composer.json`: its `require` and `require-dev`.
pub open spec fn composer_deps(value: JsonValue) -> Seq<DepView> {
    section_deps(value, "require"@) + section_deps(value, "require-dev"@)
}

/// The sections of a `composer.json` that list dependencies, in order.
pub open spec fn composer_sections() -> Seq<Seq<char>> {
    seq!["require"@, "require-dev"@]
}

/// A `composer.json` declares exactly the members of its `require` and
/// `require-dev` objects: every member of each appears, with its version
/// when that is a string, and nothing else does.
pub proof fn lemma_composer_deps_sections(value: JsonValue)
    ensures
        forall|j: int|
            0 <= j < composer_sections().len() ==> match #[trigger] member(value, composer_sections()[j]) {
                Some(JsonValue::Object(ms)) => forall|k: int|
                    0 <= k < ms@.len() ==> composer_deps(value).contains(
                        declared((#[trigger] ms@[k]).0@, string_value(ms@[k].1)),
                    ),
                _ => true,
            },
        forall|i: int|
            0 <= i < composer_deps(value).len() ==> exists|j: int|
                0 <= j < composer_sections().len() && declared_in(
                    value,
                    #[trigger] composer_sections()[j],
                    #[trigger] composer_deps(value)[i],
                ),
{
    let secs = composer_sections();
    let a = section_deps(value, "require"@);
    let b = section_deps(value, "require-dev"@);
    let all = composer_deps(value);
    assert(all =~= a + b);
    assert forall|j: int| 0 <= j < secs.len() implies match #[trigger] member(value, secs[j]) {
        Some(JsonValue::Object(ms)) => forall|k: int|
            0 <= k < ms@.len() ==> all.contains(declared((#[trigger] ms@[k]).0@, string_value(ms@[k].1))),
        _ => true,
    } by {
        match member(value, secs[j]) {
            Some(JsonValue::Object(ms)) => {
                assert forall|k: int| 0 <= k < ms@.len() implies all.contains(
                    declared((#[trigger] ms@[k]).0@, string_value(ms@[k].1)),
                ) by {
                    let d = declared(ms@[k].0@, string_value(ms@[k].1));
                    if j == 0 {
                        assert(a[k] == d);
                        assert(all[k] == d);
                    } else {
                        assert(b[k] == d);
                        assert(all[a.len() + k] == d);
                    }
                }
            },
            _ => {},
        }
    }
    assert forall|i: int| 0 <= i < all.len() implies exists|j: int|
        0 <= j < secs.len() && declared_in(value, #[trigger] secs[j], #[trigger] all[i]) by {
        if i < a.len() {
            assert(all[i] == a[i]);
            assert(secs[0] == "require"@);
            match member(value, "require"@) {
                Some(JsonValue::Object(ms)) => {
                    assert(ms@[i] == ms@[i]);
                },
                _ => {},
            }
            assert(declared_in(value, secs[0], all[i]));
        } else {
            let k = i - a.len();
            assert(all[i] == b[k]);
            assert(secs[1] == "require-dev"@);
            match member(value, "require-dev"@) {
                Some(JsonValue::Object(ms)) => {
                    assert(ms@[k] == ms@[k]);
                },
                _ => {},
            }
            assert(declared_in(value, secs[1], all[i]));
        }
    }
}

/// Read the dependencies of a parsed `composer.json`.
pub fn parse_composer_deps(value: &JsonValue) -> (r: Vec<ProjectDependency>)
    ensures
        dep_views(r@) == composer_deps(*value),
{
    let mut deps: Vec<ProjectDependency> = Vec::new();
    proof {
        assert(dep_views(deps@) =~= Seq::<DepView>::empty());
    }
    push_section(value, "require", &mut deps);
    push_section(value, "require-dev", &mut deps);
    assert(dep_views(deps@) =~= composer_deps(*value));
    deps
}

// --- go.mod -------------------------------------------------------------------

/// The module named by one requirement of a `go.mod` (already trimmed): the
/// module and, when given, its version; nothing for a blank line or a
/// comment.
pub open spec fn go_module_entry(t: Seq<char>) -> Option<DepView> {
    if t.len() == 0 || has_prefix(t, "//"@) {
        None
    } else {
        let ws = words(t);
        Some(declared(ws[0], if ws.len() > 1 { Some(ws[1]) } else { None }))
    }
}

/// The `require` block of a `go.mod`: a line `require (` opens it; inside
/// it a line starting with `)` closes it, and any other line that is not
/// blank or a comment requires the module named by its first word; outside
/// it a line that does not start with `require ` requires nothing.
pub proof fn lemma_go_block(line: Seq<char>)
    ensures
        trim(line) == "require ("@ ==> go_line(line, false) == (true, None::<DepView>),
        trim(line).len() > 0 && trim(line)[0] == ')' ==> go_line(line, true) == (false, None::<DepView>),
        trim(line).len() > 0 && trim(line)[0] != ')' && !has_prefix(trim(line), "//"@) ==> ({
            let r = go_line(line, true);
            &&& r.0
            &&& r.1 matches Some(d) && d.name == words(trim(line))[0]
        }),
        !has_prefix(trim(line), "require "@) ==> go_line(line, false) == (false, None::<DepView>),
{
    reveal_strlit("require (");
    reveal_strlit("require ");
    reveal_strlit("(");
    let t = trim(line);
    if t == "require ("@ {
        assert(has_prefix(t, "require "@)) by {
            assert(t.take(8) =~= "require "@);
        }
        let rest = t.skip(8);
        assert(rest =~= seq!['(']);
        assert(trim_start(rest) == rest);
        assert(trim_end(rest) == rest);
        assert(trim(rest) == rest);
        assert(!has_char(rest, ')'));
    }
}

/// One line of a `go.mod`, read inside a `require ( … )` block or not:
/// whether the next line is inside the block, and the module the line
/// requires. `require <module> <version>` requires one module;
/// `require (` opens a block whose lines each require one, up to `)`.
pub open spec fn go_line(line: Seq<char>, in_block: bool) -> (bool, Option<DepView>) {
    let t = trim(line);
    if in_block {
        if t.len() > 0 && t[0] == ')' {
            (false, None)
        } else {
            (true, go_module_entry(t))
        }
    } else {
        match strip_prefix(t, "require "@) {
            None => (false, None),
            Some(rest) => {
                let l = trim(rest);
                if l.len() > 0 && l[0] == '(' {
                    (!has_char(l, ')'), None)
                } else {
                    (false, go_module_entry(l))
                }
            },
        }
    }
}

/// The modules required by the lines `ls`, the first read inside a block or not.
pub open spec fn go_deps_from(ls: Seq<Seq<char>>, in_block: bool) -> Seq<DepView>
    decreases ls.len(),
{
    if ls.len() == 0 {
        Seq::empty()
    } else {
        let (next, d) = go_line(ls[0], in_block);
        let head = match d {
            Some(x) => seq![x],
            None => Seq::empty(),
        };
        head + go_deps_from(ls.drop_first(), next)
    }
}

/// The dependencies of a `go.mod`: the modules of its `require` lines and
/// `require ( … )` blocks, in order.
pub open spec fn go_deps(body: Seq<char>) -> Seq<DepView> {
    go_deps_from(lines(body), false)
}

/// A non-empty text without surrounding whitespace holds a word.
proof fn lemma_words_nonempty(s: Seq<char>)
    requires
        s.len() > 0,
        !is_ws(s.last()),
    ensures
        words(s).len() > 0,
    decreases s.len(),
{
    if s.len() >= 2 && !is_ws(s[s.len() - 2]) {
        lemma_words_nonempty(s.drop_last());
    }
}

/// A trimmed non-empty text ends with a non-whitespace character.
proof fn lemma_trim_end_last(s: Seq<char>)
    ensures
        trim_end(s).len() > 0 ==> !is_ws(trim_end(s).last()),
    decreases s.len(),
{
    if s.len() > 0 && is_ws(s.last()) {
        lemma_trim_end_last(s.drop_last());
    }
}

/// The module one trimmed requirement names.
fn go_module(t: &Vec<char>) -> (r: Option<ProjectDependency>)
    requires
        t@ == trim(t@),
    ensures
        match r {
            Some(d) => go_module_entry(t@) == Some(d@),
            None => go_module_entry(t@) is None,
        },
{
    if t.len() == 0 || starts_with_vec(t, &chars_of("//")) {
        return None;
    }
    let ws = words_vec(t);
    proof {
        lemma_trim_end_last(trim_start(t@));
        lemma_words_nonempty(t@);
    }
    let version = if ws.len() > 1 { Some(slice_of(&ws[1], 0, ws[1].len())) } else { None };
    proof {
        if ws.len() > 1 {
            assert(ws@[1]@ == views(ws@)[1]);
        }
        assert(ws@[0]@ == views(ws@)[0]);
    }
    let r = new_dep(&ws[0], version);
    proof {
        if ws.len() > 1 {
            assert(opt_chars(version) == Some(views(ws@)[1]));
        }
    }
    Some(r)
}

/// One line of a `go.mod`.
fn go_step(line: &Vec<char>, in_block: bool) -> (r: (bool, Option<ProjectDependency>))
    ensures
        r.0 == go_line(line@, in_block).0,
        match r.1 {
            Some(d) => go_line(line@, in_block).1 == Some(d@),
            None => go_line(line@, in_block).1 is None,
        },
{
    let t = trim_vec(line);
    proof {
        lemma_trim_idempotent(line@);
    }
    if in_block {
        if t.len() > 0 && t[0] == ')' {
            return (false, None);
        }
        return (true, go_module(&t));
    }
    let rest = match strip_prefix_vec(&t, "require ") {
        Some(x) => x,
        None => return (false, None),
    };
    let l = trim_vec(&rest);
    proof {
        lemma_trim_idempotent(rest@);
    }
    if l.len() > 0 && l[0] == '(' {
        return (!has_char_vec(&l, ')'), None);
    }
    (false, go_module(&l))
}

/// Read the dependencies of a `go.mod`: every `require <module> <version>`
/// line and every line of a `require ( … )` block.
pub fn parse_go_deps(body: &str) -> (r: Vec<ProjectDependency>)
    ensures
        dep_views(r@) == go_deps(body@),
{
    let ls = lines_vec(&chars_of(body));
    let ghost all = views(ls@);
    let mut deps: Vec<ProjectDependency> = Vec::new();
    let mut in_block = false;
    let mut i: usize = 0;
    proof {
        assert(all.skip(0) =~= all);
        assert(dep_views(deps@) =~= Seq::<DepView>::empty());
        assert(go_deps(body@) =~= dep_views(deps@) + go_deps_from(all.skip(0), in_block));
    }
    while i < ls.len()
        invariant
            all == views(ls@),
            all == lines(body@),
            i <= ls.len(),
            go_deps(body@) == dep_views(deps@) + go_deps_from(all.skip(i as int), in_block),
        decreases ls.len() - i,
    {
        proof {
            assert(all.skip(i as int)[0] == ls@[i as int]@);
            assert(all.skip(i as int).drop_first() =~= all.skip(i + 1));
        }
        let ghost before = dep_views(deps@);
        let ghost flag = in_block;
        let (next, d) = go_step(&ls[i], in_block);
        match d {
            Some(d) => {
                proof {
                    lemma_push_dep(deps@, d);
                    assert(before + go_deps_from(all.skip(i as int), flag) =~= before.push(d@)
                        + go_deps_from(all.skip(i + 1), next));
                }
                deps.push(d);
            },
            None => {
                proof {
                    assert(before + go_deps_from(all.skip(i as int), flag) =~= before
                        + go_deps_from(all.skip(i + 1), next));
                }
            },
        }
        in_block = next;
        i = i + 1;
    }
    proof {
        assert(dep_views(deps@) + Seq::<DepView>::empty() =~= dep_views(deps@));
    }
    deps
}

// --- Gemfile --------------------------------------------------------------------

/// A quote character, single or double.
pub open spec fn is_quote(c: char) -> bool {
    c == '\'' || c == '"'
}

/// `s` without its leading quote characters.
pub open spec fn trim_start_quotes(s: Seq<char>) -> Seq<char>
    decreases s.len(),
{
    if s.len() > 0 && is_quote(s[0]) {
        trim_start_quotes(s.drop_first())
    } else {
        s
    }
}

/// The gem named by a `gem` line of a Gemfile: the text after `gem ` and
/// its opening quotes, up to the next quote.
pub open spec fn gem_dep_line(line: Seq<char>) -> Option<DepView> {
    match strip_prefix(trim(line), "gem "@) {
        None => None,
        Some(rest) => {
            let name = split_once_where(trim_start_quotes(rest), |c: char| is_quote(c)).0;
            if name.len() == 0 {
                None
            } else {
                Some(declared(name, None))
            }
        },
    }
}

/// A Gemfile line `gem '<name>'…` (or with double quotes) names the gem
/// between the quotes, whatever follows the closing quote.
pub proof fn lemma_gem_name(q: char, name: Seq<char>, rest: Seq<char>)
    requires
        q == '\'' || q == '"',
        name.len() > 0,
        forall|k: int| 0 <= k < name.len() ==> !(#[trigger] name[k] == '\'' || name[k] == '"'),
        rest.len() == 0 || !is_ws(rest.last()),
    ensures
        gem_dep_line("gem "@ + seq![q] + name + seq![q] + rest) == Some(declared(name, None)),
{
    reveal_strlit("gem ");
    let body = seq![q] + name + seq![q] + rest;
    let line = "gem "@ + body;
    assert(line[0] == 'g');
    assert(trim_start(line) == line);
    assert(line.last() == if rest.len() == 0 { q } else { rest.last() });
    assert(trim_end(line) == line);
    assert(trim(line) == line);
    assert(line.take(4) =~= "gem "@);
    assert(line.skip(4) =~= body);
    assert(strip_prefix(line, "gem "@) == Some(body));
    let inner = name + seq![q] + rest;
    assert(body.drop_first() =~= inner);
    assert(!is_quote(inner[0]));
    assert(trim_start_quotes(inner) == inner);
    assert(trim_start_quotes(body) == inner);
    let p = |c: char| is_quote(c);
    let n = name.len() as int;
    assert forall|k: int| 0 <= k < n implies !p(#[trigger] inner[k]) by {
        assert(inner[k] == name[k]);
    }
    assert(inner[n] == q);
    assert(is_first_where(inner, p, n));
    lemma_first_where(inner, p, n);
    assert(inner.take(n) =~= name);
    assert(split_once_where(trim_start_quotes(body), p).0 == name);
    assert(line =~= "gem "@ + seq![q] + name + seq![q] + rest);
}

/// The dependencies of a Gemfile.
pub open spec fn gem_deps(body: Seq<char>) -> Seq<DepView> {
    collect_deps(lines(body), |l: Seq<char>| gem_dep_line(l))
}

/// The gem named by one line of a Gemfile.
fn gem_dep(line: &Vec<char>) -> (r: Option<ProjectDependency>)
    ensures
        match r {
            Some(d) => gem_dep_line(line@) == Some(d@),
            None => gem_dep_line(line@) is None,
        },
{
    let t = trim_vec(line);
    let rest = match strip_prefix_vec(&t, "gem ") {
        Some(x) => x,
        None => return None,
    };
    let mut i: usize = 0;
    proof {
        assert(rest@.skip(0) =~= rest@);
    }
    while i < rest.len() && (rest[i] == '\'' || rest[i] == '"')
        invariant
            i <= rest.len(),
            trim_start_quotes(rest@) == trim_start_quotes(rest@.skip(i as int)),
        decreases rest.len() - i,
    {
        proof {
            assert(rest@.skip(i as int).drop_first() =~= rest@.skip(i + 1));
        }
        i = i + 1;
    }
    proof {
        if i < rest.len() {
            assert(rest@.skip(i as int)[0] == rest@[i as int]);
        }
    }
    let l = slice_of(&rest, i, rest.len());
    assert(l@ =~= trim_start_quotes(rest@));
    let mut j: usize = 0;
    while j < l.len() && !(l[j] == '\'' || l[j] == '"')
        invariant
            j <= l.len(),
            forall|k: int| 0 <= k < j ==> !is_quote(#[trigger] l@[k]),
        decreases l.len() - j,
    {
        j = j + 1;
    }
    proof {
        if j < l.len() {
            lemma_first_where(l@, |c: char| is_quote(c), j as int);
        } else {
            assert forall|k: int| 0 <= k < l@.len() implies !is_quote(#[trigger] l@[k]) by {}
            assert(!has_where(l@, |c: char| is_quote(c)));
            assert(l@.take(j as int) =~= l@);
        }
    }
    let name = slice_of(&l, 0, j);
    assert(name@ =~= split_once_where(l@, |c: char| is_quote(c)).0);
    if name.len() == 0 {
        return None;
    }
    Some(new_dep(&name, None))
}

/// Read the dependencies of a Gemfile: one per `gem "<name>"` line.
pub fn parse_gemfile_deps(body: &str) -> (r: Vec<ProjectDependency>)
    ensures
        dep_views(r@) == gem_deps(body@),
{
    let ls = lines_vec(&chars_of(body));
    let ghost all = views(ls@);
    let mut out: Vec<ProjectDependency> = Vec::new();
    let mut i: usize = 0;
    proof {
        assert(all.take(0) =~= Seq::<Seq<char>>::empty());
        assert(dep_views(out@) =~= Seq::<DepView>::empty());
    }
    while i < ls.len()
        invariant
            all == views(ls@),
            all == lines(body@),
            i <= ls.len(),
            dep_views(out@) == collect_deps(all.take(i as int), |l: Seq<char>| gem_dep_line(l)),
        decreases ls.len() - i,
    {
        proof {
            assert(all.take(i + 1).drop_last() =~= all.take(i as int));
            assert(all.take(i + 1).last() == ls@[i as int]@);
        }
        match gem_dep(&ls[i]) {
            Some(d) => {
                proof {
                    lemma_push_dep(out@, d);
                }
                out.push(d);
            },
            None => {},
        }
        i = i + 1;
    }
    proof {
        assert(all.take(ls@.len() as int) =~= all);
    }
    out
}

// --- Cargo.toml -------------------------------------------------------------------

/// Whether a table header opens a dependency table.
pub open spec fn opens_dependencies(t: Seq<char>) -> bool {
    has_prefix(t, "[dependencies"@) || has_prefix(t, "[dev-dependencies"@)
}

/// The sections of a `Cargo.toml` whose entries are dependencies: a header
/// line that starts with `[dependencies` or `[dev-dependencies` opens one
/// (so do their target-specific and table forms), any other header closes
/// it, and other lines leave the state as it was.
pub proof fn lemma_cargo_sections(line: Seq<char>, in_deps: bool)
    ensures
        trim(line).len() > 0 && trim(line)[0] == '[' ==> cargo_line(line, in_deps) == (
            has_prefix(trim(line), "[dependencies"@) || has_prefix(trim(line), "[dev-dependencies"@),
            None::<DepView>,
        ),
        !(trim(line).len() > 0 && trim(line)[0] == '[') ==> cargo_line(line, in_deps).0 == in_deps,
        !in_deps && !(trim(line).len() > 0 && trim(line)[0] == '[') ==> cargo_line(line, in_deps).1 is None,
{
}

/// The part of `s` after the first `version` and before the next one.
pub open spec fn after_version_key(s: Seq<char>) -> Seq<char> {
    let after = s.skip(find_seq(s, "version"@) + "version"@.len());
    if contains_seq(after, "version"@) {
        after.take(find_seq(after, "version"@))
    } else {
        after
    }
}

/// The version that the value of a dependency entry names: a quoted string
/// (`"1.0"`), or the first quoted text after `version` in a table
/// (`{ version = "1.0" }`); none otherwise (`{ path = "..." }`).
pub open spec fn cargo_version(rest: Seq<char>) -> Option<Seq<char>> {
    if rest.len() > 0 && rest[0] == '"' {
        Some(trim_char(rest, '"'))
    } else if contains_seq(rest, "version"@) {
        let piece = after_version_key(rest);
        if has_char(piece, '"') {
            Some(split(piece.skip(first_index(piece, '"') + 1), '"')[0])
        } else {
            None
        }
    } else {
        None
    }
}

/// One line of a `Cargo.toml`, read inside or outside a dependency table:
/// whether the next line is inside one, and the dependency the line declares.
pub open spec fn cargo_line(line: Seq<char>, in_deps: bool) -> (bool, Option<DepView>) {
    let t = trim(line);
    if t.len() > 0 && t[0] == '[' {
        (opens_dependencies(t), None)
    } else if !in_deps {
        (false, None)
    } else if has_char(t, '=') {
        let eq = first_index(t, '=');
        let name = trim(t.take(eq));
        if name.len() == 0 || name[0] == '#' {
            (true, None)
        } else {
            (true, Some(declared(name, cargo_version(trim(t.skip(eq + 1))))))
        }
    } else {
        (true, None)
    }
}

/// The dependencies declared by the lines `ls` of a `Cargo.toml`, starting
/// inside a dependency table or not.
pub open spec fn cargo_deps_from(ls: Seq<Seq<char>>, in_deps: bool) -> Seq<DepView>
    decreases ls.len(),
{
    if ls.len() == 0 {
        Seq::empty()
    } else {
        let (next, d) = cargo_line(ls[0], in_deps);
        let head = match d {
            Some(x) => seq![x],
            None => Seq::empty(),
        };
        head + cargo_deps_from(ls.drop_first(), next)
    }
}

/// The dependencies of a `Cargo.toml`: the entries of its `[dependencies…]`
/// and `[dev-dependencies…]` tables.
pub open spec fn cargo_deps(body: Seq<char>) -> Seq<DepView> {
    cargo_deps_from(lines(body), false)
}

/// The version named by the value of a dependency entry.
fn cargo_version_of(rest: &Vec<char>) -> (r: Option<Vec<char>>)
    ensures
        opt_chars(r) == cargo_version(rest@),
{
    if rest.len() > 0 && rest[0] == '"' {
        return Some(trim_char_vec(rest, '"'));
    }
    let key = chars_of("version");
    let p = match find_vec(rest, &key) {
        Some(p) => p,
        None => return None,
    };
    let after = slice_of(rest, p + key.len(), rest.len());
    assert(after@ =~= rest@.skip(find_seq(rest@, "version"@) + "version"@.len()));
    let piece = match find_vec(&after, &key) {
        Some(q) => {
            let x = slice_of(&after, 0, q);
            assert(x@ =~= after@.take(q as int));
            x
        },
        None => after,
    };
    match find_char(&piece, '"') {
        Some(q) => {
            let a = slice_of(&piece, q + 1, piece.len());
            assert(a@ =~= piece@.skip(q + 1));
            Some(before_char(&a, '"'))
        },
        None => None,
    }
}

/// One line of a `Cargo.toml`.
fn cargo_dep(line: &Vec<char>, in_deps: bool) -> (r: (bool, Option<ProjectDependency>))
    ensures
        r.0 == cargo_line(line@, in_deps).0,
        match r.1 {
            Some(d) => cargo_line(line@, in_deps).1 == Some(d@),
            None => cargo_line(line@, in_deps).1 is None,
        },
{
    let t = trim_vec(line);
    if t.len() > 0 && t[0] == '[' {
        let opens = starts_with_vec(&t, &chars_of("[dependencies")) || starts_with_vec(
            &t,
            &chars_of("[dev-dependencies"),
        );
        return (opens, None);
    }
    if !in_deps {
        return (false, None);
    }
    let eq = match find_char(&t, '=') {
        Some(eq) => eq,
        None => return (true, None),
    };
    let name = trim_vec(&slice_of(&t, 0, eq));
    proof {
        assert(t@.subrange(0, eq as int) =~= t@.take(eq as int));
    }
    if name.len() == 0 || name[0] == '#' {
        return (true, None);
    }
    let rest = trim_vec(&slice_of(&t, eq + 1, t.len()));
    proof {
        assert(t@.subrange(eq + 1, t@.len() as int) =~= t@.skip(eq + 1));
    }
    let version = cargo_version_of(&rest);
    (true, Some(new_dep(&name, version)))
}

/// Read the dependencies of a `Cargo.toml`.
pub fn parse_cargo_deps(body: &str) -> (r: Vec<ProjectDependency>)
    ensures
        dep_views(r@) == cargo_deps(body@),
{
    let ls = lines_vec(&chars_of(body));
    let ghost all = views(ls@);
    let mut deps: Vec<ProjectDependency> = Vec::new();
    let mut in_deps = false;
    let mut i: usize = 0;
    proof {
        assert(all.skip(0) =~= all);
        assert(dep_views(deps@) =~= Seq::<DepView>::empty());
        assert(cargo_deps(body@) =~= dep_views(deps@) + cargo_deps_from(all.skip(0), in_deps));
    }
    while i < ls.len()
        invariant
            all == views(ls@),
            all == lines(body@),
            i <= ls.len(),
            cargo_deps(body@) == dep_views(deps@) + cargo_deps_from(all.skip(i as int), in_deps),
        decreases ls.len() - i,
    {
        proof {
            assert(all.skip(i as int)[0] == ls@[i as int]@);
            assert(all.skip(i as int).drop_first() =~= all.skip(i + 1));
        }
        let ghost before = dep_views(deps@);
        let ghost flag = in_deps;
        let (next, d) = cargo_dep(&ls[i], in_deps);
        match d {
            Some(d) => {
                proof {
                    lemma_push_dep(deps@, d);
                    assert(before + cargo_deps_from(all.skip(i as int), flag) =~= before.push(d@)
                        + cargo_deps_from(all.skip(i + 1), next));
                }
                deps.push(d);
            },
            None => {
                proof {
                    assert(before + cargo_deps_from(all.skip(i as int), flag) =~= before
                        + cargo_deps_from(all.skip(i + 1), next));
                }
            },
        }
        in_deps = next;
        i = i + 1;
    }
    proof {
        assert(dep_views(deps@) + Seq::<DepView>::empty() =~= dep_views(deps@));
    }
    deps
}

// --- Python manifests ---------------------------------------------------------

/// Whether a character is alphanumeric in Unicode's sense (std's
/// `char::is_alphanumeric`).
pub uninterp spec fn alphanumeric(c: char) -> bool;

/// std's `char::is_alphanumeric`: whether `c` is Alphabetic or Numeric in
/// Unicode. The Unicode tables are not written out; the answer is named
/// `alphanumeric`.
#[verifier::external_body]
fn char_is_alphanumeric(c: char) -> (r: bool)
    ensures
        r == alphanumeric(c),
{
    c.is_alphanumeric()
}

/// An ASCII letter or digit.
pub open spec fn is_ascii_alnum(c: char) -> bool {
    is_digit(c) || ('a' as u32 <= c as u32 && c as u32 <= 'z' as u32) || ('A' as u32 <= c as u32
        && c as u32 <= 'Z' as u32)
}

/// A character kept at the ends of a requirement's version: an ASCII letter
/// or digit, or a dot.
pub open spec fn is_version_char(c: char) -> bool {
    is_ascii_alnum(c) || c == '.'
}

/// `s` without the characters at its ends that cannot end a version.
pub open spec fn trim_version_start(s: Seq<char>) -> Seq<char>
    decreases s.len(),
{
    if s.len() > 0 && !is_version_char(s[0]) {
        trim_version_start(s.drop_first())
    } else {
        s
    }
}

/// `s` without the characters at its end that cannot end a version.
pub open spec fn trim_version_end(s: Seq<char>) -> Seq<char>
    decreases s.len(),
{
    if s.len() > 0 && !is_version_char(s.last()) {
        trim_version_end(s.drop_last())
    } else {
        s
    }
}

/// A requirement operator character.
pub open spec fn is_req_op(c: char) -> bool {
    c == '=' || c == '>' || c == '<' || c == '~' || c == '!'
}

/// The dependency of one line of a `requirements.txt`: the text before any
/// `#`, trimmed; its name runs up to the first operator character, and the
/// rest, with non-version characters trimmed off its ends, is its version.
pub open spec fn requirement_line(line: Seq<char>) -> Option<DepView> {
    let l = trim(split(line, '#')[0]);
    if l.len() == 0 {
        None
    } else {
        let (head, tail) = split_once_where(l, |c: char| is_req_op(c));
        Some(
            declared(
                trim(head),
                match tail {
                    Some(t) => Some(trim_version_end(trim_version_start(t))),
                    None => None,
                },
            ),
        )
    }
}

/// The package of one line of a `Pipfile`: a line with `=` whose first
/// non-blank character is alphanumeric names the package before its `=`,
/// without quotes; `source` entries are not packages.
pub open spec fn pipfile_line(line: Seq<char>) -> Option<DepView> {
    let ts = trim_start(line);
    pipfile_entry_line(line, ts.len() > 0 && alphanumeric(ts[0]))
}

/// A requirement `name<op>spec` names `name`, whatever the operator
/// (`=`, `>`, `<`, `~` or `!` starts it) and whatever follows, and gives a
/// version: the name ends at the first operator character.
pub proof fn lemma_requirement_name(name: Seq<char>, op: char, spec: Seq<char>)
    requires
        name.len() > 0,
        !is_ws(name[0]),
        !is_ws(name.last()),
        forall|k: int|
            0 <= k < name.len() ==> !(#[trigger] name[k] == '=' || name[k] == '>' || name[k] == '<' || name[k]
                == '~' || name[k] == '!' || name[k] == '#'),
        op == '=' || op == '>' || op == '<' || op == '~' || op == '!',
        forall|k: int| 0 <= k < spec.len() ==> #[trigger] spec[k] != '#',
        spec.len() == 0 || !is_ws(spec.last()),
    ensures
        requirement_line(name + seq![op] + spec) matches Some(d) && d.name == name && d.version is Some,
{
    let line = name + seq![op] + spec;
    let n = name.len() as int;
    assert forall|k: int| 0 <= k < line.len() implies #[trigger] line[k] != '#' by {
        if k < n {
            assert(line[k] == name[k]);
        } else if k > n {
            assert(line[k] == spec[k - n - 1]);
        }
    }
    lemma_split_first(line, '#', line.len() as int);
    assert(line.take(line.len() as int) =~= line);
    assert(line[0] == name[0]);
    assert(trim_start(line) == line);
    if spec.len() == 0 {
        assert(line.last() == op);
    } else {
        assert(line.last() == spec.last());
    }
    assert(trim_end(line) == line);
    assert(trim(line) == line);
    let p = |c: char| is_req_op(c);
    assert forall|k: int| 0 <= k < n implies !p(#[trigger] line[k]) by {
        assert(line[k] == name[k]);
    }
    assert(line[n] == op);
    assert(is_first_where(line, p, n));
    lemma_first_where(line, p, n);
    assert(line.take(n) =~= name);
    assert(trim_start(name) == name);
    assert(trim_end(name) == name);
}

/// The package of one line of a `Pipfile`, given whether the line's first
/// non-blank character is alphanumeric: a line with an `=` that starts so
/// names the package before the `=`, trimmed and unquoted, unless that is
/// empty or `source`.
pub open spec fn pipfile_entry_line(line: Seq<char>, starts_alnum: bool) -> Option<DepView> {
    if contains_seq(line, "="@) && starts_alnum {
        let name = trim_char(trim(split(trim(line), '=')[0]), '"');
        if name.len() == 0 || name == "source"@ {
            None
        } else {
            Some(declared(name, None))
        }
    } else {
        None
    }
}

/// A character that ends a package name in a `pyproject.toml` entry.
pub open spec fn is_name_end(c: char) -> bool {
    c == '<' || c == '>' || c == '=' || c == '~' || c == '!' || c == ' '
}

/// The package of one entry of a `pyproject.toml` dependency list: the
/// entry without its trailing commas and its quotes, up to the first
/// character that ends a name.
pub open spec fn pyproject_line(line: Seq<char>) -> Option<DepView> {
    let l = trim_char(trim_char(trim_end_char(trim(line), ','), '"'), '\'');
    if l.len() == 0 {
        None
    } else {
        Some(declared(split_once_where(l, |c: char| is_name_end(c)).0, None))
    }
}

/// Whether a line continues a dependency list: not blank, not a table
/// header, and not the `]` that closes the list.
pub open spec fn in_dependency_block(line: Seq<char>) -> bool {
    trim(line).len() > 0 && !(line.len() > 0 && line[0] == '[') && trim(line)[0] != ']'
}

/// The lines of `ls` up to the first that does not continue the list.
pub open spec fn block_prefix(ls: Seq<Seq<char>>) -> Seq<Seq<char>>
    decreases ls.len(),
{
    if ls.len() == 0 || !in_dependency_block(ls[0]) {
        Seq::empty()
    } else {
        seq![ls[0]] + block_prefix(ls.drop_first())
    }
}

/// Whether some line mentions `dependencies`.
pub open spec fn mentions_dependencies(ls: Seq<Seq<char>>) -> bool {
    exists|i: int| 0 <= i < ls.len() && contains_seq(#[trigger] ls[i], "dependencies"@)
}

/// The first line that mentions `dependencies`.
pub open spec fn first_dependencies_line(ls: Seq<Seq<char>>) -> int {
    choose|i: int|
        0 <= i < ls.len() && contains_seq(ls[i], "dependencies"@) && forall|k: int|
            0 <= k < i ==> !contains_seq(#[trigger] ls[k], "dependencies"@)
}

/// The dependency list of a `pyproject.toml`: the lines after the first one
/// that mentions `dependencies`, up to a blank line, a table header or the
/// closing `]`.
pub open spec fn pyproject_block(ls: Seq<Seq<char>>) -> Seq<Seq<char>> {
    if mentions_dependencies(ls) {
        block_prefix(ls.skip(first_dependencies_line(ls) + 1))
    } else {
        Seq::empty()
    }
}

/// The dependencies of a Python manifest, by its file name:
/// `requirements.txt`, `Pipfile`, or else a `pyproject.toml`.
pub open spec fn python_deps(body: Seq<char>, file_name: Seq<char>) -> Seq<DepView> {
    if file_name == "requirements.txt"@ {
        collect_deps(lines(body), |l: Seq<char>| requirement_line(l))
    } else if file_name == "Pipfile"@ {
        collect_deps(lines(body), |l: Seq<char>| pipfile_line(l))
    } else {
        collect_deps(pyproject_block(lines(body)), |l: Seq<char>| pyproject_line(l))
    }
}

/// Whether a character can end a version.
fn char_is_version(c: char) -> (r: bool)
    ensures
        r == is_version_char(c),
{
    let n = c as u32;
    (48 <= n && n <= 57) || (97 <= n && n <= 122) || (65 <= n && n <= 90) || c == '.'
}

/// `v` without the characters at its ends that cannot end a version.
fn trim_version_vec(v: &Vec<char>) -> (r: Vec<char>)
    ensures
        r@ == trim_version_end(trim_version_start(v@)),
{
    let mut i: usize = 0;
    proof {
        assert(v@.skip(0) =~= v@);
    }
    while i < v.len() && !char_is_version(v[i])
        invariant
            i <= v.len(),
            trim_version_start(v@) == trim_version_start(v@.skip(i as int)),
        decreases v.len() - i,
    {
        proof {
            assert(v@.skip(i as int).drop_first() =~= v@.skip(i + 1));
            assert(v@.skip(i as int)[0] == v@[i as int]);
        }
        i = i + 1;
    }
    proof {
        if i < v.len() {
            assert(v@.skip(i as int)[0] == v@[i as int]);
        }
    }
    let t = slice_of(v, i, v.len());
    assert(t@ =~= v@.skip(i as int));
    let mut j: usize = t.len();
    proof {
        assert(t@.take(t@.len() as int) =~= t@);
    }
    while j > 0 && !char_is_version(t[j - 1])
        invariant
            j <= t.len(),
            trim_version_end(t@) == trim_version_end(t@.take(j as int)),
        decreases j,
    {
        proof {
            assert(t@.take(j as int).drop_last() =~= t@.take(j - 1));
            assert(t@.take(j as int).last() == t@[j - 1]);
        }
        j = j - 1;
    }
    proof {
        if j > 0 {
            assert(t@.take(j as int).last() == t@[j - 1]);
        }
    }
    let r = slice_of(&t, 0, j);
    assert(r@ =~= t@.take(j as int));
    r
}

/// The piece before the first character satisfying the predicate, and the
/// rest after it.
fn split_once_req_op(l: &Vec<char>) -> (r: (Vec<char>, Option<Vec<char>>))
    ensures
        r.0@ == split_once_where(l@, |c: char| is_req_op(c)).0,
        opt_chars(r.1) == split_once_where(l@, |c: char| is_req_op(c)).1,
{
    let mut j: usize = 0;
    while j < l.len() && !(l[j] == '=' || l[j] == '>' || l[j] == '<' || l[j] == '~' || l[j] == '!')
        invariant
            j <= l.len(),
            forall|k: int| 0 <= k < j ==> !is_req_op(#[trigger] l@[k]),
        decreases l.len() - j,
    {
        j = j + 1;
    }
    if j < l.len() {
        proof {
            lemma_first_where(l@, |c: char| is_req_op(c), j as int);
        }
        let head = slice_of(l, 0, j);
        let tail = slice_of(l, j + 1, l.len());
        assert(head@ =~= l@.take(j as int));
        assert(tail@ =~= l@.skip(j + 1));
        (head, Some(tail))
    } else {
        proof {
            assert forall|k: int| 0 <= k < l@.len() implies !is_req_op(#[trigger] l@[k]) by {}
            assert(!has_where(l@, |c: char| is_req_op(c)));
        }
        (slice_of(l, 0, l.len()), None)
    }
}

/// The dependency of one line of a `requirements.txt`.
fn requirement_dep(line: &Vec<char>) -> (r: Option<ProjectDependency>)
    ensures
        match r {
            Some(d) => requirement_line(line@) == Some(d@),
            None => requirement_line(line@) is None,
        },
{
    let l = trim_vec(&before_char(line, '#'));
    if l.len() == 0 {
        return None;
    }
    let (head, tail) = split_once_req_op(&l);
    let name = trim_vec(&head);
    let version = match tail {
        Some(t) => Some(trim_version_vec(&t)),
        None => None,
    };
    Some(new_dep(&name, version))
}

/// The package of one line of a `Pipfile`.
fn pipfile_dep(line: &Vec<char>) -> (r: Option<ProjectDependency>)
    ensures
        match r {
            Some(d) => pipfile_line(line@) == Some(d@),
            None => pipfile_line(line@) is None,
        },
{
    let mut s: usize = 0;
    proof {
        assert(line@.skip(0) =~= line@);
    }
    while s < line.len() && char_is_ws(line[s])
        invariant
            s <= line.len(),
            forall|k: int| 0 <= k < s ==> is_ws(#[trigger] line@[k]),
        decreases line.len() - s,
    {
        s = s + 1;
    }
    proof {
        lemma_trim_start_skip(line@, s as int);
        if s < line.len() {
            assert(line@.skip(s as int)[0] == line@[s as int]);
        }
        assert(trim_start(line@.skip(s as int)) == line@.skip(s as int));
    }
    let starts_alnum = s < line.len() && char_is_alphanumeric(line[s]);
    pipfile_entry_vec(line, starts_alnum)
}

fn pipfile_entry_vec(line: &Vec<char>, starts_alnum: bool) -> (r: Option<ProjectDependency>)
    ensures
        match r {
            Some(d) => pipfile_entry_line(line@, starts_alnum) == Some(d@),
            None => pipfile_entry_line(line@, starts_alnum) is None,
        },
{
    if !(contains_vec(line, &chars_of("=")) && starts_alnum) {
        return None;
    }
    let name = trim_char_vec(&trim_vec(&before_char(&trim_vec(line), '=')), '"');
    if name.len() == 0 || same_chars(&name, &chars_of("source")) {
        return None;
    }
    Some(new_dep(&name, None))
}

/// The package that one line of a `Pipfile` names, given whether its first
/// non-blank character is alphanumeric (which the caller learns from std's
/// `char::is_alphanumeric`).
pub fn pipfile_entry(line: &str, starts_alnum: bool) -> (r: Option<ProjectDependency>)
    ensures
        match r {
            Some(d) => pipfile_entry_line(line@, starts_alnum) == Some(d@),
            None => pipfile_entry_line(line@, starts_alnum) is None,
        },
{
    pipfile_entry_vec(&chars_of(line), starts_alnum)
}

/// The package of one entry of a `pyproject.toml` dependency list.
fn pyproject_dep(line: &Vec<char>) -> (r: Option<ProjectDependency>)
    ensures
        match r {
            Some(d) => pyproject_line(line@) == Some(d@),
            None => pyproject_line(line@) is None,
        },
{
    let l = trim_char_vec(&trim_char_vec(&trim_end_char_vec(&trim_vec(line), ','), '"'), '\'');
    if l.len() == 0 {
        return None;
    }
    let mut j: usize = 0;
    while j < l.len() && !(l[j] == '<' || l[j] == '>' || l[j] == '=' || l[j] == '~' || l[j] == '!'
        || l[j] == ' ')
        invariant
            j <= l.len(),
            forall|k: int| 0 <= k < j ==> !is_name_end(#[trigger] l@[k]),
        decreases l.len() - j,
    {
        j = j + 1;
    }
    proof {
        if j < l.len() {
            lemma_first_where(l@, |c: char| is_name_end(c), j as int);
        } else {
            assert forall|k: int| 0 <= k < l@.len() implies !is_name_end(#[trigger] l@[k]) by {}
            assert(!has_where(l@, |c: char| is_name_end(c)));
            assert(l@.take(j as int) =~= l@);
        }
    }
    let name = slice_of(&l, 0, j);
    assert(name@ =~= l@.take(j as int));
    Some(new_dep(&name, None))
}

/// The dependencies that a line reader finds in `ls`.
fn collect_lines(ls: &Vec<Vec<char>>, kind: u8) -> (r: Vec<ProjectDependency>)
    requires
        kind <= 2,
    ensures
        kind == 0 ==> dep_views(r@) == collect_deps(views(ls@), |l: Seq<char>| requirement_line(l)),
        kind == 1 ==> dep_views(r@) == collect_deps(views(ls@), |l: Seq<char>| pipfile_line(l)),
        kind == 2 ==> dep_views(r@) == collect_deps(views(ls@), |l: Seq<char>| pyproject_line(l)),
{
    let ghost all = views(ls@);
    let mut out: Vec<ProjectDependency> = Vec::new();
    let mut i: usize = 0;
    proof {
        assert(all.take(0) =~= Seq::<Seq<char>>::empty());
        assert(dep_views(out@) =~= Seq::<DepView>::empty());
    }
    while i < ls.len()
        invariant
            kind <= 2,
            all == views(ls@),
            i <= ls.len(),
            kind == 0 ==> dep_views(out@) == collect_deps(all.take(i as int), |l: Seq<char>| requirement_line(l)),
            kind == 1 ==> dep_views(out@) == collect_deps(all.take(i as int), |l: Seq<char>| pipfile_line(l)),
            kind == 2 ==> dep_views(out@) == collect_deps(all.take(i as int), |l: Seq<char>| pyproject_line(l)),
        decreases ls.len() - i,
    {
        proof {
            assert(all.take(i + 1).drop_last() =~= all.take(i as int));
            assert(all.take(i + 1).last() == ls@[i as int]@);
        }
        let d = if kind == 0 {
            requirement_dep(&ls[i])
        } else if kind == 1 {
            pipfile_dep(&ls[i])
        } else {
            pyproject_dep(&ls[i])
        };
        match d {
            Some(d) => {
                proof {
                    lemma_push_dep(out@, d);
                }
                out.push(d);
            },
            None => {},
        }
        i = i + 1;
    }
    proof {
        assert(all.take(ls@.len() as int) =~= all);
    }
    out
}

/// Whether a line continues a dependency list.
fn continues_block(line: &Vec<char>) -> (r: bool)
    ensures
        r == in_dependency_block(line@),
{
    let t = trim_vec(line);
    t.len() > 0 && !(line.len() > 0 && line[0] == '[') && t[0] != ']'
}

/// The dependency list of a `pyproject.toml`, from its lines.
fn pyproject_lines(ls: &Vec<Vec<char>>) -> (r: Vec<Vec<char>>)
    ensures
        views(r@) == pyproject_block(views(ls@)),
{
    let ghost all = views(ls@);
    let key = chars_of("dependencies");
    let mut i: usize = 0;
    while i < ls.len() && !contains_vec(&ls[i], &key)
        invariant
            all == views(ls@),
            key@ == "dependencies"@,
            i <= ls.len(),
            forall|k: int| 0 <= k < i ==> !contains_seq(#[trigger] all[k], "dependencies"@),
        decreases ls.len() - i,
    {
        proof {
            assert(all[i as int] == ls@[i as int]@);
        }
        i = i + 1;
    }
    let mut out: Vec<Vec<char>> = Vec::new();
    if i == ls.len() {
        proof {
            assert(!mentions_dependencies(all));
            assert(views(out@) =~= Seq::<Seq<char>>::empty());
        }
        return out;
    }
    proof {
        assert(all[i as int] == ls@[i as int]@);
        let f = first_dependencies_line(all);
        assert(contains_seq(all[i as int], "dependencies"@));
        assert(mentions_dependencies(all));
        if f < i {
            assert(!contains_seq(all[f], "dependencies"@));
        }
        if i < f {
            assert(!contains_seq(all[i as int], "dependencies"@));
        }
        assert(f == i);
    }
    let mut j: usize = i + 1;
    let ghost rest = all.skip(i + 1);
    proof {
        assert(views(out@) + block_prefix(all.skip(j as int)) =~= block_prefix(rest));
    }
    while j < ls.len() && continues_block(&ls[j])
        invariant
            all == views(ls@),
            i < j <= ls.len(),
            rest == all.skip(i + 1),
            views(out@) + block_prefix(all.skip(j as int)) == block_prefix(rest),
        decreases ls.len() - j,
    {
        proof {
            assert(all.skip(j as int)[0] == ls@[j as int]@);
            assert(all.skip(j as int).drop_first() =~= all.skip(j + 1));
            assert(in_dependency_block(all.skip(j as int)[0]));
        }
        let copy = slice_of(&ls[j], 0, ls[j].len());
        proof {
            assert(copy@ =~= ls@[j as int]@);
            assert(views(out@.push(copy)) =~= views(out@).push(copy@));
            assert(views(out@).push(copy@) + block_prefix(all.skip(j + 1)) =~= views(out@)
                + block_prefix(all.skip(j as int)));
        }
        out.push(copy);
        j = j + 1;
    }
    proof {
        if j < ls.len() {
            assert(all.skip(j as int)[0] == ls@[j as int]@);
            assert(!in_dependency_block(all.skip(j as int)[0]));
        }
        assert(views(out@) + Seq::<Seq<char>>::empty() =~= views(out@));
    }
    out
}

/// Read the dependencies of a Python manifest named `file_name`:
/// `requirements.txt` lines, `Pipfile` package entries, or the dependency
/// list of a `pyproject.toml`.
pub fn parse_python_deps(body: &str, file_name: &str) -> (r: Vec<ProjectDependency>)
    ensures
        dep_views(r@) == python_deps(body@, file_name@),
{
    let ls = lines_vec(&chars_of(body));
    if str_is(file_name, "requirements.txt") {
        collect_lines(&ls, 0)
    } else if str_is(file_name, "Pipfile") {
        collect_lines(&ls, 1)
    } else {
        let block = pyproject_lines(&ls);
        collect_lines(&block, 2)
    }
}

// --- Dispatch and registry checks -----------------------------------------------

/// The dependencies a manifest declares, by ecosystem. JSON manifests are
/// read from their parsed `document` (none when the text is not JSON);
/// Maven and Gradle manifests, and .NET ones, are not read.
pub open spec fn manifest_deps(
    body: Seq<char>,
    document: Option<JsonValue>,
    file_name: Seq<char>,
    eco: ProjectEcosystem,
) -> Seq<DepView> {
    match eco {
        ProjectEcosystem::Node => match document {
            Some(v) => node_deps(v),
            None => Seq::empty(),
        },
        ProjectEcosystem::Python => python_deps(body, file_name),
        ProjectEcosystem::Rust => cargo_deps(body),
        ProjectEcosystem::Go => go_deps(body),
        ProjectEcosystem::Ruby => gem_deps(body),
        ProjectEcosystem::Php => match document {
            Some(v) => composer_deps(v),
            None => Seq::empty(),
        },
        ProjectEcosystem::Java => Seq::empty(),
        ProjectEcosystem::Dotnet => Seq::empty(),
    }
}

/// The parsed document a manifest of `eco` is read through: the JSON
/// document of the body for npm's and Composer's manifests, none otherwise.
pub open spec fn manifest_document(body: Seq<char>, eco: ProjectEcosystem) -> Option<JsonValue> {
    match eco {
        ProjectEcosystem::Node | ProjectEcosystem::Php => json_document(body),
        _ => None,
    }
}

/// Parse the text of a manifest named `file_name` into its dependencies,
/// reading npm's and Composer's manifests as JSON.
pub fn parse_manifest_text(body: &str, file_name: &str, eco: ProjectEcosystem) -> (r: Vec<
    ProjectDependency,
>)
    ensures
        dep_views(r@) == manifest_deps(body@, manifest_document(body@, eco), file_name@, eco),
{
    let document = match eco {
        ProjectEcosystem::Node | ProjectEcosystem::Php => parse_json_document(body),
        _ => None,
    };
    match document {
        Some(v) => parse_manifest(body, Some(&v), file_name, eco),
        None => parse_manifest(body, None, file_name, eco),
    }
}

/// The version that an npm registry answer, given as its text, names.
pub fn npm_latest_from_text(body: &str) -> (r: Option<String>)
    ensures
        opt_view(r) == match json_document(body@) {
            Some(d) => match member(d, "version"@) {
                Some(v) => string_value(v),
                None => None,
            },
            None => None,
        },
{
    match parse_json_document(body) {
        Some(v) => npm_latest_version(&v),
        None => None,
    }
}

/// Parse a manifest into detailed dependency entries.
pub fn parse_manifest(
    body: &str,
    document: Option<&JsonValue>,
    file_name: &str,
    eco: ProjectEcosystem,
) -> (r: Vec<ProjectDependency>)
    ensures
        dep_views(r@) == manifest_deps(
            body@,
            match document {
                Some(v) => Some(*v),
                None => None,
            },
            file_name@,
            eco,
        ),
{
    match eco {
        ProjectEcosystem::Node => match document {
            Some(v) => parse_node_deps(v),
            None => {
                let r: Vec<ProjectDependency> = Vec::new();
                assert(dep_views(r@) =~= Seq::<DepView>::empty());
                r
            },
        },
        ProjectEcosystem::Python => parse_python_deps(body, file_name),
        ProjectEcosystem::Rust => parse_cargo_deps(body),
        ProjectEcosystem::Go => parse_go_deps(body),
        ProjectEcosystem::Ruby => parse_gemfile_deps(body),
        ProjectEcosystem::Php => match document {
            Some(v) => parse_composer_deps(v),
            None => {
                let r: Vec<ProjectDependency> = Vec::new();
                assert(dep_views(r@) =~= Seq::<DepView>::empty());
                r
            },
        },
        _ => {
            let r: Vec<ProjectDependency> = Vec::new();
            assert(dep_views(r@) =~= Seq::<DepView>::empty());
            r
        },
    }
}

/// A dependency after its registry lookup: with an answer, the latest
/// version is recorded and the dependency is outdated when its declared
/// version, without the operators in front of it, is older; without one,
/// whether it is outdated is unknown.
pub open spec fn checked_dep(d: DepView, latest: Option<Seq<char>>) -> DepView {
    match latest {
        Some(l) => {
            let clean = skip_non_digits(
                match d.version {
                    Some(v) => v,
                    None => Seq::empty(),
                },
            );
            DepView { latest: Some(l), is_outdated: Some(clean.len() > 0 && outdated(clean, l)), ..d }
        },
        None => DepView { is_outdated: None, ..d },
    }
}

/// Record the registry's latest version for a dependency.
pub fn apply_dep_latest(dep: &mut ProjectDependency, latest: Option<String>)
    ensures
        final(dep)@ == checked_dep(old(dep)@, opt_view(latest)),
{
    match latest {
        Some(l) => {
            let declared = match &dep.version {
                Some(v) => chars_of(v.as_str()),
                None => Vec::new(),
            };
            let mut i: usize = 0;
            proof {
                assert(declared@.skip(0) =~= declared@);
            }
            while i < declared.len() && !char_is_digit(declared[i])
                invariant
                    i <= declared.len(),
                    skip_non_digits(declared@) == skip_non_digits(declared@.skip(i as int)),
                decreases declared.len() - i,
            {
                proof {
                    assert(declared@.skip(i as int).drop_first() =~= declared@.skip(i + 1));
                    assert(declared@.skip(i as int)[0] == declared@[i as int]);
                }
                i = i + 1;
            }
            proof {
                if i < declared.len() {
                    assert(declared@.skip(i as int)[0] == declared@[i as int]);
                }
            }
            let clean = slice_of(&declared, i, declared.len());
            assert(clean@ =~= declared@.skip(i as int));
            let is_old = clean.len() > 0 && is_outdated(string_of(&clean).as_str(), l.as_str());
            dep.latest = Some(l);
            dep.is_outdated = Some(is_old);
        },
        None => {
            dep.is_outdated = None;
        },
    }
}

/// Forget whether the dependencies are outdated: only npm packages are
/// checked against a registry.
pub fn clear_outdated(deps: &mut Vec<ProjectDependency>)
    ensures
        dep_views(final(deps)@) == dep_views(old(deps)@).map_values(
            |d: DepView| DepView { is_outdated: None, ..d },
        ),
{
    let ghost before = dep_views(deps@);
    let mut out: Vec<ProjectDependency> = Vec::new();
    let mut i: usize = 0;
    while i < deps.len()
        invariant
            before == dep_views(deps@),
            i <= deps.len(),
            dep_views(out@) == before.map_values(|d: DepView| DepView { is_outdated: None, ..d }).take(
                i as int,
            ),
        decreases deps.len() - i,
    {
        let d = ProjectDependency {
            name: deps[i].name.clone(),
            version: clone_opt(&deps[i].version),
            is_outdated: None,
            latest: clone_opt(&deps[i].latest),
        };
        proof {
            assert(before[i as int] == deps@[i as int]@);
            lemma_push_dep(out@, d);
            assert(before.map_values(|d: DepView| DepView { is_outdated: None, ..d }).take(i + 1)
                =~= before.map_values(|d: DepView| DepView { is_outdated: None, ..d }).take(
                i as int,
            ).push(d@));
        }
        out.push(d);
        i = i + 1;
    }
    proof {
        assert(before.map_values(|d: DepView| DepView { is_outdated: None, ..d }).take(i as int)
            =~= before.map_values(|d: DepView| DepView { is_outdated: None, ..d }));
    }
    *deps = out;
}

/// The npm registry URL of the latest release of a package.
pub fn npm_latest_url(name: &str) -> (r: String)
    ensures
        r@ == "https://registry.npmjs.org/"@ + name@ + "/latest"@,
{
    let mut r = String::from_str("https://registry.npmjs.org/");
    push_str(&mut r, name);
    push_str(&mut r, "/latest");
    r
}

/// The version named by the npm registry's answer: its `version` string.
pub fn npm_latest_version(value: &JsonValue) -> (r: Option<String>)
    ensures
        opt_view(r) == match member(*value, "version"@) {
            Some(v) => string_value(v),
            None => None,
        },
{
    match get_member(value, "version") {
        Some(v) => match as_str(v) {
            Some(s) => Some(String::from_str(s)),
            None => None,
        },
        None => None,
    }
}

} // verus!
