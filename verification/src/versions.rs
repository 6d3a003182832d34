//! Multi-version installation detection.
//!
//! Every PATH match of a binary is listed (the caller runs `which -a`), its
//! source is inferred from its path (e.g. `/nvm/` means nvm), and the first
//! PATH entry is the active one. Version managers are not invoked directly:
//! path-based inference is more robust.
use vstd::prelude::*;

use crate::text::{chars_of, contains_seq, contains_vec, lemma_trim_idempotent, lines, lines_vec, string_of, trim, trim_vec, views};
use crate::types::{opt_view, InstallationSource, ToolInstallation};

verus! {

/// The lower-case form of a string, as `str::to_lowercase` gives it.
pub uninterp spec fn lowercase(s: Seq<char>) -> Seq<char>;

/// std's `str::to_lowercase`: the Unicode lower-case mapping of `s`.
/// The mapping itself is not written out; its result is named `lowercase`.
#[verifier::external_body]
fn to_lowercase(s: &str) -> (r: String)
    ensures
        r@ == lowercase(s@),
{
    s.to_lowercase()
}

/// Whether `p` holds any of the given fragments.
pub open spec fn has_any(p: Seq<char>, frags: Seq<Seq<char>>) -> bool {
    exists|i: int| 0 <= i < frags.len() && contains_seq(p, #[trigger] frags[i])
}

/// The source of an installation, inferred from fragments of its lower-cased
/// path, checked in this order: nvm, pyenv, asdf, volta, rustup, conda,
/// Homebrew, system; unknown otherwise.
pub open spec fn source_of_path(path: Seq<char>) -> InstallationSource {
    source_of_lowered(lowercase(path))
}

/// The source of an installation whose path, already lower-cased, is `p`.
pub open spec fn source_of_lowered(p: Seq<char>) -> InstallationSource {
    if has_any(p, seq!["/nvm/"@, "/.nvm/"@, "/nvm/versions/"@]) {
        InstallationSource::Nvm
    } else if has_any(p, seq!["/pyenv/"@, "/.pyenv/"@, "/pyenv/versions/"@]) {
        InstallationSource::Pyenv
    } else if has_any(p, seq!["/asdf/"@, "/.asdf/"@]) {
        InstallationSource::Asdf
    } else if has_any(p, seq!["/volta/"@, "/.volta/"@]) {
        InstallationSource::Volta
    } else if has_any(p, seq!["/.rustup/"@, "/rustup/"@]) {
        InstallationSource::Rustup
    } else if has_any(p, seq!["/miniconda"@, "/anaconda"@, "/conda/"@]) {
        InstallationSource::Conda
    } else if has_any(p, seq!["/homebrew/"@, "/linuxbrew/"@]) {
        InstallationSource::Homebrew
    } else if has_any(p, seq!["/usr/bin/"@, "/bin/"@, "/usr/local/bin/"@]) {
        InstallationSource::System
    } else {
        InstallationSource::Unknown
    }
}

/// The path fragments that tell an installation's source, in the order
/// they are tried, each with the source it tells.
pub open spec fn source_rules() -> Seq<(Seq<char>, InstallationSource)> {
    seq![
        ("/nvm/"@, InstallationSource::Nvm),
        ("/.nvm/"@, InstallationSource::Nvm),
        ("/nvm/versions/"@, InstallationSource::Nvm),
        ("/pyenv/"@, InstallationSource::Pyenv),
        ("/.pyenv/"@, InstallationSource::Pyenv),
        ("/pyenv/versions/"@, InstallationSource::Pyenv),
        ("/asdf/"@, InstallationSource::Asdf),
        ("/.asdf/"@, InstallationSource::Asdf),
        ("/volta/"@, InstallationSource::Volta),
        ("/.volta/"@, InstallationSource::Volta),
        ("/.rustup/"@, InstallationSource::Rustup),
        ("/rustup/"@, InstallationSource::Rustup),
        ("/miniconda"@, InstallationSource::Conda),
        ("/anaconda"@, InstallationSource::Conda),
        ("/conda/"@, InstallationSource::Conda),
        ("/homebrew/"@, InstallationSource::Homebrew),
        ("/linuxbrew/"@, InstallationSource::Homebrew),
        ("/usr/bin/"@, InstallationSource::System),
        ("/bin/"@, InstallationSource::System),
        ("/usr/local/bin/"@, InstallationSource::System),
    ]
}

proof fn lemma_has_any2(p: Seq<char>, a: Seq<char>, b: Seq<char>)
    ensures
        has_any(p, seq![a, b]) == (contains_seq(p, a) || contains_seq(p, b)),
{
    let f = seq![a, b];
    if has_any(p, f) {
        let i = choose|i: int| 0 <= i < f.len() && contains_seq(p, #[trigger] f[i]);
        assert(i == 0 || i == 1);
    }
    if contains_seq(p, a) {
        assert(contains_seq(p, f[0]));
    }
    if contains_seq(p, b) {
        assert(contains_seq(p, f[1]));
    }
}

proof fn lemma_has_any3(p: Seq<char>, a: Seq<char>, b: Seq<char>, c: Seq<char>)
    ensures
        has_any(p, seq![a, b, c]) == (contains_seq(p, a) || contains_seq(p, b) || contains_seq(p, c)),
{
    let f = seq![a, b, c];
    if has_any(p, f) {
        let i = choose|i: int| 0 <= i < f.len() && contains_seq(p, #[trigger] f[i]);
        assert(i == 0 || i == 1 || i == 2);
    }
    if contains_seq(p, a) {
        assert(contains_seq(p, f[0]));
    }
    if contains_seq(p, b) {
        assert(contains_seq(p, f[1]));
    }
    if contains_seq(p, c) {
        assert(contains_seq(p, f[2]));
    }
}

/// The source of a lower-cased path is told by the first of the rules whose
/// fragment the path holds, and is unknown when it holds none.
pub proof fn lemma_source_rules(p: Seq<char>)
    ensures
        forall|i: int|
            0 <= i < source_rules().len() && contains_seq(p, #[trigger] source_rules()[i].0) && (forall|j: int|
                0 <= j < i ==> !contains_seq(p, #[trigger] source_rules()[j].0)) ==> source_of_lowered(p)
                == source_rules()[i].1,
        (forall|j: int| 0 <= j < source_rules().len() ==> !contains_seq(p, #[trigger] source_rules()[j].0))
            ==> source_of_lowered(p) == InstallationSource::Unknown,
{
    let r = source_rules();
    lemma_has_any3(p, "/nvm/"@, "/.nvm/"@, "/nvm/versions/"@);
    lemma_has_any3(p, "/pyenv/"@, "/.pyenv/"@, "/pyenv/versions/"@);
    lemma_has_any2(p, "/asdf/"@, "/.asdf/"@);
    lemma_has_any2(p, "/volta/"@, "/.volta/"@);
    lemma_has_any2(p, "/.rustup/"@, "/rustup/"@);
    lemma_has_any3(p, "/miniconda"@, "/anaconda"@, "/conda/"@);
    lemma_has_any2(p, "/homebrew/"@, "/linuxbrew/"@);
    lemma_has_any3(p, "/usr/bin/"@, "/bin/"@, "/usr/local/bin/"@);
    assert forall|i: int|
        0 <= i < r.len() && contains_seq(p, #[trigger] r[i].0) && (forall|j: int|
            0 <= j < i ==> !contains_seq(p, #[trigger] r[j].0)) implies source_of_lowered(p) == r[i].1 by {
        if i >= 1 { assert(!contains_seq(p, r[0].0)); }
        if i >= 2 { assert(!contains_seq(p, r[1].0)); }
        if i >= 3 { assert(!contains_seq(p, r[2].0)); }
        if i >= 4 { assert(!contains_seq(p, r[3].0)); }
        if i >= 5 { assert(!contains_seq(p, r[4].0)); }
        if i >= 6 { assert(!contains_seq(p, r[5].0)); }
        if i >= 7 { assert(!contains_seq(p, r[6].0)); }
        if i >= 8 { assert(!contains_seq(p, r[7].0)); }
        if i >= 9 { assert(!contains_seq(p, r[8].0)); }
        if i >= 10 { assert(!contains_seq(p, r[9].0)); }
        if i >= 11 { assert(!contains_seq(p, r[10].0)); }
        if i >= 12 { assert(!contains_seq(p, r[11].0)); }
        if i >= 13 { assert(!contains_seq(p, r[12].0)); }
        if i >= 14 { assert(!contains_seq(p, r[13].0)); }
        if i >= 15 { assert(!contains_seq(p, r[14].0)); }
        if i >= 16 { assert(!contains_seq(p, r[15].0)); }
        if i >= 17 { assert(!contains_seq(p, r[16].0)); }
        if i >= 18 { assert(!contains_seq(p, r[17].0)); }
        if i >= 19 { assert(!contains_seq(p, r[18].0)); }
    }
    if forall|j: int| 0 <= j < r.len() ==> !contains_seq(p, #[trigger] r[j].0) {
        assert(!contains_seq(p, r[0].0));
        assert(!contains_seq(p, r[1].0));
        assert(!contains_seq(p, r[2].0));
        assert(!contains_seq(p, r[3].0));
        assert(!contains_seq(p, r[4].0));
        assert(!contains_seq(p, r[5].0));
        assert(!contains_seq(p, r[6].0));
        assert(!contains_seq(p, r[7].0));
        assert(!contains_seq(p, r[8].0));
        assert(!contains_seq(p, r[9].0));
        assert(!contains_seq(p, r[10].0));
        assert(!contains_seq(p, r[11].0));
        assert(!contains_seq(p, r[12].0));
        assert(!contains_seq(p, r[13].0));
        assert(!contains_seq(p, r[14].0));
        assert(!contains_seq(p, r[15].0));
        assert(!contains_seq(p, r[16].0));
        assert(!contains_seq(p, r[17].0));
        assert(!contains_seq(p, r[18].0));
        assert(!contains_seq(p, r[19].0));
    }
}

/// Whether `p` holds any of the fragments.
fn holds_any(p: &Vec<char>, frags: &[&str]) -> (r: bool)
    ensures
        r == has_any(p@, frags@.map_values(|f: &str| f@)),
{
    let ghost fs = frags@.map_values(|f: &str| f@);
    let mut i: usize = 0;
    while i < frags.len()
        invariant
            fs == frags@.map_values(|f: &str| f@),
            i <= frags.len(),
            forall|k: int| 0 <= k < i ==> !contains_seq(p@, #[trigger] fs[k]),
        decreases frags.len() - i,
    {
        if contains_vec(p, &chars_of(frags[i])) {
            assert(contains_seq(p@, fs[i as int]));
            return true;
        }
        i = i + 1;
    }
    false
}

/// Infer the installation source from the binary's path.
fn infer_source(path: &str) -> (r: InstallationSource)
    ensures
        r == source_of_path(path@),
{
    let lowered = to_lowercase(path);
    source_of_lowercased(lowered.as_str())
}

/// The installation source that a lower-cased binary path points to.
pub fn source_of_lowercased(lowered: &str) -> (r: InstallationSource)
    ensures
        r == source_of_lowered(lowered@),
{
    let p = chars_of(lowered);
    let r = if holds_any(&p, &["/nvm/", "/.nvm/", "/nvm/versions/"]) {
        InstallationSource::Nvm
    } else if holds_any(&p, &["/pyenv/", "/.pyenv/", "/pyenv/versions/"]) {
        InstallationSource::Pyenv
    } else if holds_any(&p, &["/asdf/", "/.asdf/"]) {
        InstallationSource::Asdf
    } else if holds_any(&p, &["/volta/", "/.volta/"]) {
        InstallationSource::Volta
    } else if holds_any(&p, &["/.rustup/", "/rustup/"]) {
        InstallationSource::Rustup
    } else if holds_any(&p, &["/miniconda", "/anaconda", "/conda/"]) {
        InstallationSource::Conda
    } else if holds_any(&p, &["/homebrew/", "/linuxbrew/"]) {
        InstallationSource::Homebrew
    } else if holds_any(&p, &["/usr/bin/", "/bin/", "/usr/local/bin/"]) {
        InstallationSource::System
    } else {
        InstallationSource::Unknown
    };
    proof {
        assert((&["/nvm/", "/.nvm/", "/nvm/versions/"])@.map_values(|f: &str| f@) =~= seq!["/nvm/"@, "/.nvm/"@, "/nvm/versions/"@]);
        assert((&["/pyenv/", "/.pyenv/", "/pyenv/versions/"])@.map_values(|f: &str| f@) =~= seq!["/pyenv/"@, "/.pyenv/"@, "/pyenv/versions/"@]);
        assert((&["/asdf/", "/.asdf/"])@.map_values(|f: &str| f@) =~= seq!["/asdf/"@, "/.asdf/"@]);
        assert((&["/volta/", "/.volta/"])@.map_values(|f: &str| f@) =~= seq!["/volta/"@, "/.volta/"@]);
        assert((&["/.rustup/", "/rustup/"])@.map_values(|f: &str| f@) =~= seq!["/.rustup/"@, "/rustup/"@]);
        assert((&["/miniconda", "/anaconda", "/conda/"])@.map_values(|f: &str| f@) =~= seq!["/miniconda"@, "/anaconda"@, "/conda/"@]);
        assert((&["/homebrew/", "/linuxbrew/"])@.map_values(|f: &str| f@) =~= seq!["/homebrew/"@, "/linuxbrew/"@]);
        assert((&["/usr/bin/", "/bin/", "/usr/local/bin/"])@.map_values(|f: &str| f@) =~= seq!["/usr/bin/"@, "/bin/"@, "/usr/local/bin/"@]);
    }
    r
}

/// Infer the installation source from the binary's path.
///
/// Public so that a user-pinned path that the PATH enumeration did not find
/// can be labelled.
pub fn infer_source_public(path: &str) -> (r: InstallationSource)
    ensures
        r == source_of_path(path@),
{
    infer_source(path)
}

/// The paths listed by `which -a`: the trimmed non-empty lines of its output.
pub open spec fn listed_paths(ls: Seq<Seq<char>>) -> Seq<Seq<char>>
    decreases ls.len(),
{
    if ls.len() == 0 {
        Seq::empty()
    } else {
        let init = listed_paths(ls.drop_last());
        if trim(ls.last()).len() > 0 {
            init.push(trim(ls.last()))
        } else {
            init
        }
    }
}

/// The paths `which -a` lists: each non-blank line, trimmed, in order, and
/// nothing else, none of them blank or with whitespace at its ends.
pub proof fn lemma_listed_paths(ls: Seq<Seq<char>>)
    ensures
        forall|k: int|
            0 <= k < listed_paths(ls).len() ==> (#[trigger] listed_paths(ls)[k]).len() > 0 && trim(
                listed_paths(ls)[k],
            ) == listed_paths(ls)[k] && exists|j: int|
                0 <= j < ls.len() && listed_paths(ls)[k] == trim(#[trigger] ls[j]),
        forall|j: int| 0 <= j < ls.len() && trim(#[trigger] ls[j]).len() > 0 ==> listed_paths(ls).contains(trim(ls[j])),
    decreases ls.len(),
{
    if ls.len() > 0 {
        let init_ls = ls.drop_last();
        lemma_listed_paths(init_ls);
        let init = listed_paths(init_ls);
        let r = listed_paths(ls);
        lemma_trim_idempotent(ls.last());
        assert(ls.last() == ls[ls.len() - 1]);
        assert forall|k: int| 0 <= k < r.len() implies (#[trigger] r[k]).len() > 0 && trim(r[k]) == r[k] && exists|j: int|
            0 <= j < ls.len() && r[k] == trim(#[trigger] ls[j]) by {
            if k < init.len() {
                assert(r[k] == init[k]);
                let j = choose|j: int| 0 <= j < init_ls.len() && init[k] == trim(#[trigger] init_ls[j]);
                assert(init_ls[j] == ls[j]);
            } else {
                assert(r[k] == trim(ls[ls.len() - 1]));
            }
        }
        assert forall|j: int| 0 <= j < ls.len() && trim(#[trigger] ls[j]).len() > 0 implies r.contains(trim(ls[j])) by {
            if j < ls.len() - 1 {
                assert(init_ls[j] == ls[j]);
                let k = choose|k: int| 0 <= k < init.len() && init[k] == trim(init_ls[j]);
                assert(r[k] == init[k]);
            } else {
                assert(r[init.len() as int] == trim(ls[j]));
            }
        }
    }
}

/// Split the output of `which -a <binary>` into paths, in PATH order.
pub fn parse_which_output(stdout: &str) -> (r: Vec<String>)
    ensures
        r@.map_values(|s: String| s@) == listed_paths(lines(stdout@)),
{
    let ls = lines_vec(&chars_of(stdout));
    let ghost all = views(ls@);
    let mut out: Vec<String> = Vec::new();
    let mut i: usize = 0;
    proof {
        assert(all.take(0) =~= Seq::<Seq<char>>::empty());
        assert(out@.map_values(|s: String| s@) =~= Seq::<Seq<char>>::empty());
    }
    while i < ls.len()
        invariant
            all == views(ls@),
            all == lines(stdout@),
            i <= ls.len(),
            out@.map_values(|s: String| s@) == listed_paths(all.take(i as int)),
        decreases ls.len() - i,
    {
        proof {
            assert(all.take(i + 1).drop_last() =~= all.take(i as int));
            assert(all.take(i + 1).last() == ls@[i as int]@);
        }
        let t = trim_vec(&ls[i]);
        if t.len() > 0 {
            let s = string_of(&t);
            proof {
                assert(out@.push(s).map_values(|s: String| s@) =~= out@.map_values(|s: String| s@).push(s@));
            }
            out.push(s);
        }
        i = i + 1;
    }
    proof {
        assert(all.take(ls@.len() as int) =~= all);
    }
    out
}

/// The path found by plain `which <binary>`: its trimmed output, if any.
pub fn first_path(stdout: &str) -> (r: Option<String>)
    ensures
        opt_view(r) == (if trim(stdout@).len() > 0 {
            Some(trim(stdout@))
        } else {
            None
        }),
{
    let t = trim_vec(&chars_of(stdout));
    if t.len() == 0 {
        None
    } else {
        Some(string_of(&t))
    }
}

/// An installation, as plain values.
pub struct InstallView {
    pub path: Seq<char>,
    pub version: Option<Seq<char>>,
    pub source: InstallationSource,
    pub is_active: bool,
}

impl View for ToolInstallation {
    type V = InstallView;

    open spec fn view(&self) -> InstallView {
        InstallView {
            path: self.path@,
            version: opt_view(self.version),
            source: self.source,
            is_active: self.is_active,
        }
    }
}

/// The views of a list of installations.
pub open spec fn install_views(v: Seq<ToolInstallation>) -> Seq<InstallView> {
    v.map_values(|i: ToolInstallation| i@)
}

/// The installations found at `paths`, with the versions their binaries
/// reported: the source comes from each path, and the first is active.
pub fn installations_from(paths: Vec<String>, versions: Vec<Option<String>>) -> (r: Vec<ToolInstallation>)
    requires
        paths@.len() == versions@.len(),
    ensures
        r@.len() == paths@.len(),
        forall|i: int| 0 <= i < r@.len() ==> #[trigger] r@[i]@ == (InstallView {
            path: paths@[i]@,
            version: opt_view(versions@[i]),
            source: source_of_path(paths@[i]@),
            is_active: i == 0,
        }),
{
    let mut out: Vec<ToolInstallation> = Vec::new();
    let mut i: usize = 0;
    while i < paths.len()
        invariant
            paths@.len() == versions@.len(),
            i <= paths.len(),
            out@.len() == i,
            forall|k: int| 0 <= k < i ==> #[trigger] out@[k]@ == (InstallView {
                path: paths@[k]@,
                version: opt_view(versions@[k]),
                source: source_of_path(paths@[k]@),
                is_active: k == 0,
            }),
        decreases paths.len() - i,
    {
        let path = paths[i].clone();
        let version = match &versions[i] {
            Some(v) => Some(v.clone()),
            None => None,
        };
        let source = infer_source(path.as_str());
        out.push(ToolInstallation { path, version, source, is_active: i == 0 });
        i = i + 1;
    }
    out
}

} // verus!
