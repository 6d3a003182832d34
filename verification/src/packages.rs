//! Globally installed packages of the package-managing tools.
//!
//! Each `PackageSource` has its own listing command and output format. All
//! parsing is defensive: malformed output yields no packages rather than an
//! error, so a broken tool never blocks the listing.
use vstd::prelude::*;

use crate::json::{as_str, get_member, json_document, member, parse_json_document, string_value, JsonValue};
use crate::registry::strs;
use crate::text::{chars_of, find_vec, find_seq, contains_seq, has_char, has_prefix, last_index, lines, lines_vec, rfind_char, slice_of, split, starts_with_vec, string_of, trim, trim_end_char, trim_end_char_vec, trim_start_char, trim_start_seq, trim_start_seq_vec, trim_start_char_vec, trim_vec, views, words, words_vec, before_char, has_char_vec};
use crate::types::{opt_view, string_views, InstalledPackage, PackageSource};

verus! {

/// A package, as plain values.
pub struct PackageView {
    pub name: Seq<char>,
    pub version: Option<Seq<char>>,
    pub manager: Seq<char>,
    pub size_bytes: Option<u64>,
}

impl View for InstalledPackage {
    type V = PackageView;

    open spec fn view(&self) -> PackageView {
        PackageView {
            name: self.name@,
            version: opt_view(self.version),
            manager: self.manager@,
            size_bytes: self.size_bytes,
        }
    }
}

/// The views of a list of packages.
pub open spec fn package_views(v: Seq<InstalledPackage>) -> Seq<PackageView> {
    v.map_values(|p: InstalledPackage| p@)
}

/// A listed package whose size is not measured yet.
pub open spec fn listed(name: Seq<char>, version: Option<Seq<char>>, manager: Seq<char>) -> PackageView {
    PackageView { name, version, manager, size_bytes: None }
}

/// The text of an optional buffer.
pub open spec fn opt_chars(o: Option<Vec<char>>) -> Option<Seq<char>> {
    match o {
        Some(v) => Some(v@),
        None => None,
    }
}

/// A listed package built from character buffers.
fn new_package(name: &Vec<char>, version: Option<Vec<char>>, manager: &str) -> (r: InstalledPackage)
    ensures
        r@ == listed(name@, opt_chars(version), manager@),
{
    let version = match version {
        Some(v) => Some(string_of(&v)),
        None => None,
    };
    InstalledPackage { name: string_of(name), version, manager: String::from_str(manager), size_bytes: None }
}

proof fn lemma_push_package(v: Seq<InstalledPackage>, p: InstalledPackage)
    ensures
        package_views(v.push(p)) == package_views(v).push(p@),
{
    assert(package_views(v.push(p)) =~= package_views(v).push(p@));
}

/// The packages that `f` reads from each line, in order.
pub open spec fn collect_packages(ls: Seq<Seq<char>>, f: spec_fn(Seq<char>) -> Option<PackageView>) -> Seq<
    PackageView,
>
    decreases ls.len(),
{
    if ls.len() == 0 {
        Seq::empty()
    } else {
        let init = collect_packages(ls.drop_last(), f);
        match f(ls.last()) {
            Some(p) => init.push(p),
            None => init,
        }
    }
}

/// The `n`-th word of `s`, if it has that many.
pub open spec fn nth_word(s: Seq<char>, n: int) -> Option<Seq<char>> {
    if 0 <= n < words(s).len() {
        Some(words(s)[n])
    } else {
        None
    }
}

/// The `n`-th word of `v`, if it has that many.
fn nth_word_vec(v: &Vec<char>, n: usize) -> (r: Option<Vec<char>>)
    ensures
        opt_chars(r) == nth_word(v@, n as int),
{
    let ws = words_vec(v);
    if n < ws.len() {
        assert(ws@[n as int]@ == views(ws@)[n as int]);
        let w = slice_of(&ws[n], 0, ws[n].len());
        assert(w@ =~= ws@[n as int]@);
        Some(w)
    } else {
        None
    }
}

/// The command that lists the packages of a source.
pub open spec fn listing_command(src: PackageSource) -> Seq<Seq<char>> {
    match src {
        PackageSource::NpmGlobal => seq!["npm"@, "ls"@, "-g"@, "--depth=0"@, "--json"@],
        PackageSource::CargoInstall => seq!["cargo"@, "install"@, "--list"@],
        PackageSource::PipList => seq!["pip3"@, "list"@, "--format=json"@],
        PackageSource::GoModules => seq!["go"@, "version"@],
        PackageSource::BunGlobal => seq!["bun"@, "pm"@, "ls"@, "-g"@],
        PackageSource::DenoModules => seq!["deno"@, "--version"@],
        PackageSource::GemList => seq!["gem"@, "list"@, "--local"@],
        PackageSource::ComposerGlobal => seq!["composer"@, "global"@, "show"@],
        PackageSource::BrewList => seq!["brew"@, "list"@, "--versions"@],
    }
}

/// The argv of the command that lists the packages of `src`.
pub fn listing_argv(src: PackageSource) -> (r: Vec<String>)
    ensures
        string_views(r@) == listing_command(src),
{
    let r = match src {
        PackageSource::NpmGlobal => strs(&["npm", "ls", "-g", "--depth=0", "--json"]),
        PackageSource::CargoInstall => strs(&["cargo", "install", "--list"]),
        PackageSource::PipList => strs(&["pip3", "list", "--format=json"]),
        PackageSource::GoModules => strs(&["go", "version"]),
        PackageSource::BunGlobal => strs(&["bun", "pm", "ls", "-g"]),
        PackageSource::DenoModules => strs(&["deno", "--version"]),
        PackageSource::GemList => strs(&["gem", "list", "--local"]),
        PackageSource::ComposerGlobal => strs(&["composer", "global", "show"]),
        PackageSource::BrewList => strs(&["brew", "list", "--versions"]),
    };
    assert(string_views(r@) =~= listing_command(src));
    r
}

// --- npm ------------------------------------------------------------------------

/// The global npm packages in the output of `npm ls -g --depth=0 --json`:
/// each member of `dependencies`, named without leading `@`s, with its
/// `version` when that is a string.
pub open spec fn npm_packages(value: JsonValue) -> Seq<PackageView> {
    match member(value, "dependencies"@) {
        Some(JsonValue::Object(members)) => members@.map_values(
            |m: (String, JsonValue)|
                listed(
                    trim_start_char(m.0@, '@'),
                    match member(m.1, "version"@) {
                        Some(v) => string_value(v),
                        None => None,
                    },
                    "npm"@,
                ),
        ),
        _ => Seq::empty(),
    }
}

/// The string member `key` of an object, if any.
fn string_member(v: &JsonValue, key: &str) -> (r: Option<Vec<char>>)
    ensures
        opt_chars(r) == match member(*v, key@) {
            Some(x) => string_value(x),
            None => None,
        },
{
    match get_member(v, key) {
        Some(x) => match as_str(x) {
            Some(s) => Some(chars_of(s)),
            None => None,
        },
        None => None,
    }
}

/// Read the global npm packages.
pub fn parse_npm_global(value: &JsonValue) -> (r: Vec<InstalledPackage>)
    ensures
        package_views(r@) == npm_packages(*value),
{
    let mut out: Vec<InstalledPackage> = Vec::new();
    match get_member(value, "dependencies") {
        Some(JsonValue::Object(members)) => {
            let ghost all = npm_packages(*value);
            let mut i: usize = 0;
            proof {
                assert(package_views(out@) =~= all.take(0));
            }
            while i < members.len()
                invariant
                    all == members@.map_values(
                        |m: (String, JsonValue)|
                            listed(
                                trim_start_char(m.0@, '@'),
                                match member(m.1, "version"@) {
                                    Some(v) => string_value(v),
                                    None => None,
                                },
                                "npm"@,
                            ),
                    ),
                    i <= members.len(),
                    package_views(out@) == all.take(i as int),
                decreases members.len() - i,
            {
                let name = trim_start_char_vec(&chars_of(members[i].0.as_str()), '@');
                let version = string_member(&members[i].1, "version");
                let p = new_package(&name, version, "npm");
                proof {
                    lemma_push_package(out@, p);
                    assert(all.take(i + 1) =~= all.take(i as int).push(p@));
                }
                out.push(p);
                i = i + 1;
            }
            proof {
                assert(all.take(i as int) =~= all);
            }
        },
        _ => {
            assert(package_views(out@) =~= Seq::<PackageView>::empty());
        },
    }
    out
}

// --- pip ------------------------------------------------------------------------

/// The package named by one item of `pip list --format=json`.
pub open spec fn pip_item(item: JsonValue) -> Option<PackageView> {
    match member(item, "name"@) {
        Some(n) => match string_value(n) {
            Some(name) => Some(
                listed(
                    name,
                    match member(item, "version"@) {
                        Some(v) => string_value(v),
                        None => None,
                    },
                    "pip"@,
                ),
            ),
            None => None,
        },
        None => None,
    }
}

/// The packages named by the first `k` items.
pub open spec fn pip_items(items: Seq<JsonValue>, k: int) -> Seq<PackageView>
    decreases k,
{
    if k <= 0 {
        Seq::empty()
    } else {
        let init = pip_items(items, k - 1);
        match pip_item(items[k - 1]) {
            Some(p) => init.push(p),
            None => init,
        }
    }
}

/// The packages in the output of `pip list --format=json`: the items with a
/// string `name`, with their `version` when it is a string.
pub open spec fn pip_packages(value: JsonValue) -> Seq<PackageView> {
    match value {
        JsonValue::Array(items) => pip_items(items@, items@.len() as int),
        _ => Seq::empty(),
    }
}

/// Read the packages that pip lists.
pub fn parse_pip_list(value: &JsonValue) -> (r: Vec<InstalledPackage>)
    ensures
        package_views(r@) == pip_packages(*value),
{
    let mut out: Vec<InstalledPackage> = Vec::new();
    match value {
        JsonValue::Array(items) => {
            let mut i: usize = 0;
            proof {
                assert(package_views(out@) =~= Seq::<PackageView>::empty());
            }
            while i < items.len()
                invariant
                    i <= items.len(),
                    package_views(out@) == pip_items(items@, i as int),
                decreases items.len() - i,
            {
                match string_member(&items[i], "name") {
                    Some(name) => {
                        let version = string_member(&items[i], "version");
                        let p = new_package(&name, version, "pip");
                        proof {
                            lemma_push_package(out@, p);
                        }
                        out.push(p);
                    },
                    None => {},
                }
                i = i + 1;
            }
        },
        _ => {
            assert(package_views(out@) =~= Seq::<PackageView>::empty());
        },
    }
    out
}

// --- cargo ------------------------------------------------------------------------

/// The crate named by one line of `cargo install --list`: a top-level line
/// `name vX.Y.Z:` gives the text before ` v` and the first word after it.
pub open spec fn cargo_install_line(line: Seq<char>) -> Option<PackageView> {
    let l = trim(line);
    if l.len() == 0 || l[0] == ' ' {
        None
    } else if contains_seq(l, " v"@) {
        let idx = find_seq(l, " v"@);
        Some(listed(l.take(idx), nth_word(l.skip(idx + " v"@.len()), 0), "cargo"@))
    } else {
        None
    }
}

fn cargo_install_package(line: &Vec<char>) -> (r: Option<InstalledPackage>)
    ensures
        match r {
            Some(p) => cargo_install_line(line@) == Some(p@),
            None => cargo_install_line(line@) is None,
        },
{
    let l = trim_vec(line);
    if l.len() == 0 || l[0] == ' ' {
        return None;
    }
    let pat = chars_of(" v");
    match find_vec(&l, &pat) {
        Some(idx) => {
            let name = slice_of(&l, 0, idx);
            let rest = slice_of(&l, idx + pat.len(), l.len());
            assert(name@ =~= l@.take(idx as int));
            assert(rest@ =~= l@.skip(idx + " v"@.len()));
            let version = nth_word_vec(&rest, 0);
            Some(new_package(&name, version, "cargo"))
        },
        None => None,
    }
}

// --- bun ------------------------------------------------------------------------

/// The package named by one line of `bun pm ls -g`: the text before its last
/// `@`, trimmed, and the first word after it.
pub open spec fn bun_line(line: Seq<char>) -> Option<PackageView> {
    let t = trim(line);
    if has_char(t, '@') {
        let at = last_index(t, '@');
        let name = trim(t.take(at));
        if name.len() > 0 {
            Some(listed(name, nth_word(t.skip(at + 1), 0), "bun"@))
        } else {
            None
        }
    } else {
        None
    }
}

fn bun_package(line: &Vec<char>) -> (r: Option<InstalledPackage>)
    ensures
        match r {
            Some(p) => bun_line(line@) == Some(p@),
            None => bun_line(line@) is None,
        },
{
    let t = trim_vec(line);
    match rfind_char(&t, '@') {
        Some(at) => {
            let head = slice_of(&t, 0, at);
            assert(head@ =~= t@.take(at as int));
            let name = trim_vec(&head);
            if name.len() == 0 {
                return None;
            }
            let rest = slice_of(&t, at + 1, t.len());
            assert(rest@ =~= t@.skip(at + 1));
            let version = nth_word_vec(&rest, 0);
            Some(new_package(&name, version, "bun"))
        },
        None => None,
    }
}

// --- gem ------------------------------------------------------------------------

/// The gem named by one line of `gem list --local`, `rake (13.0.6, 12.3.3)`:
/// the text before the last `(`, trimmed, with the first listed version;
/// blank lines, `*` lines and `Gems` headers are skipped.
pub open spec fn gem_line(line: Seq<char>) -> Option<PackageView> {
    let t = trim(line);
    if t.len() == 0 || t[0] == '*' || has_prefix(t, "Gems"@) {
        None
    } else if has_char(t, '(') {
        let paren = last_index(t, '(');
        let name = trim(t.take(paren));
        let versions = trim_end_char(t.skip(paren + 1), ')');
        if name.len() > 0 {
            Some(listed(name, Some(trim(split(versions, ',')[0])), "gem"@))
        } else {
            None
        }
    } else {
        None
    }
}

fn gem_package(line: &Vec<char>) -> (r: Option<InstalledPackage>)
    ensures
        match r {
            Some(p) => gem_line(line@) == Some(p@),
            None => gem_line(line@) is None,
        },
{
    let t = trim_vec(line);
    if t.len() == 0 || t[0] == '*' || starts_with_vec(&t, &chars_of("Gems")) {
        return None;
    }
    match rfind_char(&t, '(') {
        Some(paren) => {
            let head = slice_of(&t, 0, paren);
            assert(head@ =~= t@.take(paren as int));
            let name = trim_vec(&head);
            let rest = slice_of(&t, paren + 1, t.len());
            assert(rest@ =~= t@.skip(paren + 1));
            let versions = trim_end_char_vec(&rest, ')');
            let version = trim_vec(&before_char(&versions, ','));
            if name.len() == 0 {
                return None;
            }
            Some(new_package(&name, Some(version), "gem"))
        },
        None => None,
    }
}

// --- composer and brew --------------------------------------------------------------

/// The package named by one line of `composer global show`,
/// `vendor/name  1.2.3`: its first two words, unless either holds a `:`.
pub open spec fn composer_line(line: Seq<char>) -> Option<PackageView> {
    let ws = words(line);
    if ws.len() < 2 || has_char(ws[0], ':') || has_char(ws[1], ':') {
        None
    } else {
        Some(listed(ws[0], Some(ws[1]), "composer"@))
    }
}

fn composer_package(line: &Vec<char>) -> (r: Option<InstalledPackage>)
    ensures
        match r {
            Some(p) => composer_line(line@) == Some(p@),
            None => composer_line(line@) is None,
        },
{
    let ws = words_vec(line);
    if ws.len() < 2 {
        return None;
    }
    proof {
        assert(ws@[0]@ == views(ws@)[0]);
        assert(ws@[1]@ == views(ws@)[1]);
    }
    if has_char_vec(&ws[0], ':') || has_char_vec(&ws[1], ':') {
        return None;
    }
    let version = slice_of(&ws[1], 0, ws[1].len());
    assert(version@ =~= ws@[1]@);
    Some(new_package(&ws[0], Some(version), "composer"))
}

/// The formula named by one line of `brew list --versions`, `name version`:
/// its first word and, when there is one, its second.
pub open spec fn brew_line(line: Seq<char>) -> Option<PackageView> {
    let ws = words(line);
    if ws.len() == 0 {
        None
    } else {
        Some(listed(ws[0], nth_word(line, 1), "brew"@))
    }
}

fn brew_package(line: &Vec<char>) -> (r: Option<InstalledPackage>)
    ensures
        match r {
            Some(p) => brew_line(line@) == Some(p@),
            None => brew_line(line@) is None,
        },
{
    let ws = words_vec(line);
    if ws.len() == 0 {
        return None;
    }
    proof {
        assert(ws@[0]@ == views(ws@)[0]);
    }
    let version = nth_word_vec(line, 1);
    Some(new_package(&ws[0], version, "brew"))
}

// --- line-based listings --------------------------------------------------------------

/// What the line reader of `src` reads from one line.
pub open spec fn line_package_spec(src: PackageSource, line: Seq<char>) -> Option<PackageView> {
    match src {
        PackageSource::CargoInstall => cargo_install_line(line),
        PackageSource::BunGlobal => bun_line(line),
        PackageSource::GemList => gem_line(line),
        PackageSource::ComposerGlobal => composer_line(line),
        _ => brew_line(line),
    }
}

/// The packages that the line reader of `src` finds in `ls`.
pub open spec fn line_packages(src: PackageSource, ls: Seq<Seq<char>>) -> Seq<PackageView> {
    collect_packages(ls, |l: Seq<char>| line_package_spec(src, l))
}

fn line_package(src: PackageSource, line: &Vec<char>) -> (r: Option<InstalledPackage>)
    ensures
        match r {
            Some(p) => line_package_spec(src, line@) == Some(p@),
            None => line_package_spec(src, line@) is None,
        },
{
    match src {
        PackageSource::CargoInstall => cargo_install_package(line),
        PackageSource::BunGlobal => bun_package(line),
        PackageSource::GemList => gem_package(line),
        PackageSource::ComposerGlobal => composer_package(line),
        _ => brew_package(line),
    }
}

/// The packages in the output `body` of a line-based listing.
fn parse_lines(src: PackageSource, body: &str) -> (r: Vec<InstalledPackage>)
    ensures
        package_views(r@) == line_packages(src, lines(body@)),
{
    let ls = lines_vec(&chars_of(body));
    let ghost all = views(ls@);
    let mut out: Vec<InstalledPackage> = Vec::new();
    let mut i: usize = 0;
    proof {
        assert(all.take(0) =~= Seq::<Seq<char>>::empty());
        assert(package_views(out@) =~= Seq::<PackageView>::empty());
    }
    while i < ls.len()
        invariant
            all == views(ls@),
            all == lines(body@),
            i <= ls.len(),
            package_views(out@) == line_packages(src, all.take(i as int)),
        decreases ls.len() - i,
    {
        proof {
            assert(all.take(i + 1).drop_last() =~= all.take(i as int));
            assert(all.take(i + 1).last() == ls@[i as int]@);
        }
        match line_package(src, &ls[i]) {
            Some(p) => {
                proof {
                    lemma_push_package(out@, p);
                }
                out.push(p);
            },
            None => {},
        }
        i = i + 1;
    }
    proof {
        assert(all.take(ls@.len() as int) =~= all);
    }
    out
}

// --- go and deno ------------------------------------------------------------------

/// What `go version` reports: the third word, without leading `go`s.
pub open spec fn go_reported(text: Seq<char>) -> Option<Seq<char>> {
    match nth_word(text, 2) {
        Some(w) => Some(trim_start_seq(w, "go"@)),
        None => None,
    }
}

/// What `deno --version` reports: the second word of its first line.
pub open spec fn deno_reported(text: Seq<char>) -> Option<Seq<char>> {
    if lines(text).len() > 0 {
        nth_word(lines(text)[0], 1)
    } else {
        None
    }
}

/// The packages a listing gives, by source: JSON listings (npm, pip) are
/// read from their parsed document, Go and Deno report the tool itself, and
/// the others are read line by line. A listing that failed gives no
/// packages, except for Go and Deno, which report the tool without a version.
pub open spec fn listing_packages(
    src: PackageSource,
    output: Option<Seq<char>>,
    document: Option<JsonValue>,
) -> Seq<PackageView> {
    match src {
        PackageSource::NpmGlobal => match document {
            Some(v) => npm_packages(v),
            None => Seq::empty(),
        },
        PackageSource::PipList => match document {
            Some(v) => pip_packages(v),
            None => Seq::empty(),
        },
        PackageSource::GoModules => seq![
            listed(
                "go"@,
                go_reported(
                    match output {
                        Some(t) => t,
                        None => Seq::empty(),
                    },
                ),
                "go"@,
            ),
        ],
        PackageSource::DenoModules => seq![
            listed(
                "deno"@,
                deno_reported(
                    match output {
                        Some(t) => t,
                        None => Seq::empty(),
                    },
                ),
                "deno"@,
            ),
        ],
        _ => match output {
            Some(t) => line_packages(src, lines(t)),
            None => Seq::empty(),
        },
    }
}

/// The document a listing of `src` is read through: the JSON document of the
/// output for npm's and pip's JSON listings, none otherwise.
pub open spec fn listing_document(src: PackageSource, output: Option<Seq<char>>) -> Option<JsonValue> {
    match (src, output) {
        (PackageSource::NpmGlobal, Some(t)) => json_document(t),
        (PackageSource::PipList, Some(t)) => json_document(t),
        _ => None,
    }
}

/// Read the packages from the output of a package manager's listing
/// command (`None` when the command could not run), reading npm's and pip's
/// listings as JSON.
pub fn parse_listing_output(src: PackageSource, output: Option<&str>) -> (r: Vec<InstalledPackage>)
    ensures
        package_views(r@) == listing_packages(
            src,
            match output {
                Some(t) => Some(t@),
                None => None,
            },
            listing_document(
                src,
                match output {
                    Some(t) => Some(t@),
                    None => None,
                },
            ),
        ),
{
    let document = match (src, output) {
        (PackageSource::NpmGlobal, Some(t)) => parse_json_document(t),
        (PackageSource::PipList, Some(t)) => parse_json_document(t),
        _ => None,
    };
    match document {
        Some(v) => parse_listing(src, output, Some(&v)),
        None => parse_listing(src, output, None),
    }
}

/// Read the packages of `src` from the output of its listing command
/// (`None` when the command failed) and, for the JSON listings, from the
/// parsed document (`None` when the output is not JSON).
pub fn parse_listing(src: PackageSource, output: Option<&str>, document: Option<&JsonValue>) -> (r: Vec<
    InstalledPackage,
>)
    ensures
        package_views(r@) == listing_packages(
            src,
            match output {
                Some(t) => Some(t@),
                None => None,
            },
            match document {
                Some(v) => Some(*v),
                None => None,
            },
        ),
{
    match src {
        PackageSource::NpmGlobal => match document {
            Some(v) => parse_npm_global(v),
            None => {
                let r: Vec<InstalledPackage> = Vec::new();
                assert(package_views(r@) =~= Seq::<PackageView>::empty());
                r
            },
        },
        PackageSource::PipList => match document {
            Some(v) => parse_pip_list(v),
            None => {
                let r: Vec<InstalledPackage> = Vec::new();
                assert(package_views(r@) =~= Seq::<PackageView>::empty());
                r
            },
        },
        PackageSource::GoModules => {
            let text = match output {
                Some(t) => chars_of(t),
                None => Vec::new(),
            };
            let version = match nth_word_vec(&text, 2) {
                Some(w) => Some(trim_start_seq_vec(&w, &chars_of("go"))),
                None => None,
            };
            let mut r: Vec<InstalledPackage> = Vec::new();
            r.push(new_package(&chars_of("go"), version, "go"));
            assert(package_views(r@) =~= seq![r@[0]@]);
            r
        },
        PackageSource::DenoModules => {
            let text = match output {
                Some(t) => chars_of(t),
                None => Vec::new(),
            };
            let ls = lines_vec(&text);
            let version = if ls.len() > 0 {
                assert(ls@[0]@ == views(ls@)[0]);
                nth_word_vec(&ls[0], 1)
            } else {
                None
            };
            let mut r: Vec<InstalledPackage> = Vec::new();
            r.push(new_package(&chars_of("deno"), version, "deno"));
            assert(package_views(r@) =~= seq![r@[0]@]);
            r
        },
        _ => match output {
            Some(t) => parse_lines(src, t),
            None => {
                let r: Vec<InstalledPackage> = Vec::new();
                assert(package_views(r@) =~= Seq::<PackageView>::empty());
                r
            },
        },
    }
}

} // verus!
