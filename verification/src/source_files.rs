//! Standalone source files: scripts and snippets that live outside any
//! recognized project.
//!
//! The caller walks the home directory breadth-first; these functions decide
//! which directories are entered, whether a directory is a project root
//! (whose files then belong to the project view), and which language a file
//! is written in.
use vstd::prelude::*;

use crate::projects::name_listed;
use crate::text::{chars_of, has_char, is_last_index, last_index, lemma_last_index, rfind_char, slice_of, string_of};
use crate::types::{all_languages, language_extensions, string_views, SourceLanguage};

verus! {

/// Directory names that the source-file scan never enters: dependency
/// caches, VCS and build artifacts, and system or media folders. User
/// folders such as Documents or Downloads are entered.
pub open spec fn source_skip_dirs() -> Seq<Seq<char>> {
    seq![
        "node_modules"@, ".git"@, ".svn"@, ".hg"@, "target"@, "dist"@, ".next"@, ".nuxt"@,
        ".cache"@, ".gradle"@, ".m2"@, "venv"@, ".venv"@, "env"@, "__pycache__"@, ".tox"@,
        ".pytest_cache"@, "vendor"@, ".cargo"@, ".rustup"@, "Pods"@, "DerivedData"@, ".deno"@,
        ".bun"@, "coverage"@, ".turbo"@, "Library"@, "Pictures"@, "Music"@, "Movies"@, ".Trash"@,
    ]
}

/// Whether the source-file scan enters a directory named `name`: not a
/// skipped directory and not a hidden one.
pub fn should_enter(name: &str) -> (r: bool)
    ensures
        r == (!source_skip_dirs().contains(name@) && !(name@.len() > 0 && name@[0] == '.')),
{
    let listed = name_listed(
        name,
        &[
            "node_modules", ".git", ".svn", ".hg", "target", "dist", ".next", ".nuxt", ".cache",
            ".gradle", ".m2", "venv", ".venv", "env", "__pycache__", ".tox", ".pytest_cache",
            "vendor", ".cargo", ".rustup", "Pods", "DerivedData", ".deno", ".bun", "coverage",
            ".turbo", "Library", "Pictures", "Music", "Movies", ".Trash",
        ],
    );
    proof {
        assert((&[
            "node_modules", ".git", ".svn", ".hg", "target", "dist", ".next", ".nuxt", ".cache",
            ".gradle", ".m2", "venv", ".venv", "env", "__pycache__", ".tox", ".pytest_cache",
            "vendor", ".cargo", ".rustup", "Pods", "DerivedData", ".deno", ".bun", "coverage",
            ".turbo", "Library", "Pictures", "Music", "Movies", ".Trash",
        ])@.map_values(|s: &str| s@) =~= source_skip_dirs());
    }
    let chars = chars_of(name);
    let hidden = chars.len() > 0 && chars[0] == '.';
    !listed && !hidden
}

/// File names whose presence makes a directory a project root.
pub open spec fn project_markers() -> Seq<Seq<char>> {
    seq![
        "package.json"@, "Cargo.toml"@, "go.mod"@, "pyproject.toml"@, "Pipfile"@,
        "requirements.txt"@, "Gemfile"@, "composer.json"@, "pom.xml"@, "build.gradle"@,
        "build.gradle.kts"@,
    ]
}

/// Whether a file named `name` marks its directory as a project root.
pub fn is_project_marker(name: &str) -> (r: bool)
    ensures
        r == project_markers().contains(name@),
{
    let r = name_listed(
        name,
        &[
            "package.json", "Cargo.toml", "go.mod", "pyproject.toml", "Pipfile",
            "requirements.txt", "Gemfile", "composer.json", "pom.xml", "build.gradle",
            "build.gradle.kts",
        ],
    );
    proof {
        assert((&[
            "package.json", "Cargo.toml", "go.mod", "pyproject.toml", "Pipfile",
            "requirements.txt", "Gemfile", "composer.json", "pom.xml", "build.gradle",
            "build.gradle.kts",
        ])@.map_values(|s: &str| s@) =~= project_markers());
    }
    r
}

/// The extension of a file name: what follows its last `.`; a name without
/// a dot has none.
pub open spec fn file_extension_spec(name: Seq<char>) -> Option<Seq<char>> {
    if has_char(name, '.') {
        Some(name.subrange(last_index(name, '.') + 1, name.len() as int))
    } else {
        None
    }
}

/// The extension of a file name, as the scan compares it.
pub fn file_extension(name: &str) -> (r: Option<String>)
    ensures
        match r {
            Some(e) => file_extension_spec(name@) == Some(e@),
            None => file_extension_spec(name@) is None,
        },
{
    let v = chars_of(name);
    match rfind_char(&v, '.') {
        Some(i) => {
            let n = v.len();
            Some(string_of(&slice_of(&v, i + 1, n)))
        },
        None => None,
    }
}

/// The first of `langs` whose extensions include `ext`.
pub open spec fn language_for_extension(langs: Seq<SourceLanguage>, ext: Seq<char>) -> Option<
    SourceLanguage,
>
    decreases langs.len(),
{
    if langs.len() == 0 {
        None
    } else if language_extensions(langs[0]).contains(ext) {
        Some(langs[0])
    } else {
        language_for_extension(langs.drop_first(), ext)
    }
}

/// The language, among `langs`, that a file named `name` is written in: the
/// first that claims its extension; none for a name without an extension.
pub open spec fn language_of_name(langs: Seq<SourceLanguage>, name: Seq<char>) -> Option<
    SourceLanguage,
> {
    match file_extension_spec(name) {
        Some(e) => language_for_extension(langs, e),
        None => None,
    }
}

/// The language, among those requested, that a file named `name` is
/// written in: the first requested language that claims its extension.
/// A name without a dot has no extension and no language.
pub fn language_for_file(name: &str, languages: &[SourceLanguage]) -> (r: Option<SourceLanguage>)
    ensures
        r == language_of_name(languages@, name@),
{
    let ext = match file_extension(name) {
        Some(e) => e,
        None => return None,
    };
    let ghost e = ext@;
    let mut i: usize = 0;
    assert(languages@.skip(0) =~= languages@);
    while i < languages.len()
        invariant
            e == ext@,
            file_extension_spec(name@) == Some(e),
            i <= languages.len(),
            language_for_extension(languages@.skip(i as int), e) == language_for_extension(
                languages@,
                e,
            ),
        decreases languages.len() - i,
    {
        let l = languages[i];
        proof {
            assert(languages@.skip(i as int)[0] == l);
            assert(languages@.skip(i as int).drop_first() =~= languages@.skip(i + 1));
        }
        let exts = l.extensions();
        proof {
            assert(exts@.map_values(|s: &str| s@) =~= language_extensions(l));
        }
        if name_listed(ext.as_str(), exts) {
            assert(language_extensions(l).contains(e));
            assert(language_for_extension(languages@.skip(i as int), e) == Some(l));
            return Some(l);
        }
        i = i + 1;
    }
    proof {
        assert(languages@.skip(i as int).len() == 0);
    }
    None
}

/// Whether any of the file names marks a project root.
pub open spec fn dir_is_project(names: Seq<Seq<char>>) -> bool {
    exists|i: int| 0 <= i < names.len() && project_markers().contains(#[trigger] names[i])
}

/// The files among `names` written in one of `langs`, each with its index
/// and language, in order.
pub open spec fn sources_among(names: Seq<Seq<char>>, langs: Seq<SourceLanguage>) -> Seq<
    (usize, SourceLanguage),
>
    decreases names.len(),
{
    if names.len() == 0 {
        Seq::empty()
    } else {
        let init = sources_among(names.drop_last(), langs);
        match language_of_name(langs, names.last()) {
            Some(l) => init.push(((names.len() - 1) as usize, l)),
            None => init,
        }
    }
}

/// The loose source files of one directory: none when the directory is a
/// project root, else every file written in one of `langs`.
pub open spec fn loose_sources(names: Seq<Seq<char>>, langs: Seq<SourceLanguage>) -> Seq<
    (usize, SourceLanguage),
> {
    if dir_is_project(names) {
        Seq::empty()
    } else {
        sources_among(names, langs)
    }
}

/// Which of the files of one directory the scan reports: the index of each
/// in `file_names`, with its language.
pub fn loose_source_files(file_names: &Vec<String>, languages: &[SourceLanguage]) -> (r: Vec<
    (usize, SourceLanguage),
>)
    ensures
        r@ == loose_sources(string_views(file_names@), languages@),
{
    let ghost names = string_views(file_names@);
    let mut i: usize = 0;
    while i < file_names.len()
        invariant
            names == string_views(file_names@),
            i <= file_names.len(),
            forall|k: int| 0 <= k < i ==> !project_markers().contains(#[trigger] names[k]),
        decreases file_names.len() - i,
    {
        if is_project_marker(file_names[i].as_str()) {
            assert(names[i as int] == file_names@[i as int]@);
            return Vec::new();
        }
        i = i + 1;
    }
    assert(!dir_is_project(names));
    let mut out: Vec<(usize, SourceLanguage)> = Vec::new();
    let mut j: usize = 0;
    while j < file_names.len()
        invariant
            names == string_views(file_names@),
            j <= file_names.len(),
            out@ == sources_among(names.take(j as int), languages@),
        decreases file_names.len() - j,
    {
        proof {
            assert(names.take(j + 1).drop_last() =~= names.take(j as int));
            assert(names.take(j + 1).last() == file_names@[j as int]@);
        }
        match language_for_file(file_names[j].as_str(), languages) {
            Some(l) => out.push((j, l)),
            None => {},
        }
        j = j + 1;
    }
    assert(names.take(file_names.len() as int) =~= names);
    out
}

/// The language that a list finds for an extension is one of the list and
/// claims the extension.
proof fn lemma_language_for_extension(langs: Seq<SourceLanguage>, ext: Seq<char>)
    ensures
        language_for_extension(langs, ext) matches Some(l) ==> langs.contains(l)
            && language_extensions(l).contains(ext),
    decreases langs.len(),
{
    if langs.len() > 0 && !language_extensions(langs[0]).contains(ext) {
        lemma_language_for_extension(langs.drop_first(), ext);
        if let Some(l) = language_for_extension(langs, ext) {
            let k = choose|k: int| 0 <= k < langs.drop_first().len() && langs.drop_first()[k] == l;
            assert(langs[k + 1] == l);
        }
    } else if langs.len() > 0 {
        assert(langs[0] == langs[0]);
    }
}

/// The length and the first and last characters of an extension.
spec fn ext_key(s: Seq<char>) -> (nat, char, char) {
    (s.len(), s[0], s[s.len() - 1])
}

/// The language whose extension has the given key.
spec fn language_of_key(k: (nat, char, char)) -> SourceLanguage {
    if k == (2nat, 'j', 's') || k == (3nat, 'j', 'x') || k == (3nat, 'm', 's') || k == (3nat, 'c', 's') {
        SourceLanguage::JavaScript
    } else if k == (2nat, 't', 's') || k == (3nat, 't', 'x') {
        SourceLanguage::TypeScript
    } else if k == (2nat, 'p', 'y') {
        SourceLanguage::Python
    } else if k == (2nat, 'r', 's') {
        SourceLanguage::Rust
    } else if k == (2nat, 'g', 'o') {
        SourceLanguage::Go
    } else if k == (2nat, 'r', 'b') {
        SourceLanguage::Ruby
    } else if k == (3nat, 'p', 'p') {
        SourceLanguage::Php
    } else if k == (4nat, 'j', 'a') {
        SourceLanguage::Java
    } else if k == (5nat, 's', 't') {
        SourceLanguage::Swift
    } else if k == (1nat, 'c', 'c') || k == (1nat, 'h', 'h') {
        SourceLanguage::C
    } else {
        SourceLanguage::Cpp
    }
}

/// An extension of a language tells that language by its key.
proof fn lemma_key_names_language(l: SourceLanguage, e: Seq<char>)
    requires
        language_extensions(l).contains(e),
    ensures
        language_of_key(ext_key(e)) == l,
{
    reveal_strlit("js");
    reveal_strlit("jsx");
    reveal_strlit("mjs");
    reveal_strlit("cjs");
    reveal_strlit("ts");
    reveal_strlit("tsx");
    reveal_strlit("py");
    reveal_strlit("rs");
    reveal_strlit("go");
    reveal_strlit("rb");
    reveal_strlit("php");
    reveal_strlit("java");
    reveal_strlit("swift");
    reveal_strlit("c");
    reveal_strlit("h");
    reveal_strlit("cpp");
    reveal_strlit("cc");
    reveal_strlit("cxx");
    reveal_strlit("hpp");
    reveal_strlit("hxx");
    let x = language_extensions(l);
    let i = choose|i: int| 0 <= i < x.len() && x[i] == e;
    assert(x[i] == e);
}

/// Every language has at least one extension, and each extension is a
/// non-empty run of lowercase ASCII letters (so it holds no dot).
pub proof fn lemma_extension_tables(l: SourceLanguage)
    ensures
        language_extensions(l).len() > 0,
        forall|i: int|
            0 <= i < language_extensions(l).len() ==> (#[trigger] language_extensions(l)[i]).len() > 0,
        forall|i: int, k: int|
            0 <= i < language_extensions(l).len() && 0 <= k < language_extensions(l)[i].len() ==> 'a'
                <= #[trigger] language_extensions(l)[i][k] <= 'z',
{
    reveal_strlit("js");
    reveal_strlit("jsx");
    reveal_strlit("mjs");
    reveal_strlit("cjs");
    reveal_strlit("ts");
    reveal_strlit("tsx");
    reveal_strlit("py");
    reveal_strlit("rs");
    reveal_strlit("go");
    reveal_strlit("rb");
    reveal_strlit("php");
    reveal_strlit("java");
    reveal_strlit("swift");
    reveal_strlit("c");
    reveal_strlit("h");
    reveal_strlit("cpp");
    reveal_strlit("cc");
    reveal_strlit("cxx");
    reveal_strlit("hpp");
    reveal_strlit("hxx");
}

/// The extensions that tell a file's language, each with its language.
pub open spec fn extension_table() -> Seq<(Seq<char>, SourceLanguage)> {
    seq![
        ("js"@, SourceLanguage::JavaScript),
        ("jsx"@, SourceLanguage::JavaScript),
        ("mjs"@, SourceLanguage::JavaScript),
        ("cjs"@, SourceLanguage::JavaScript),
        ("ts"@, SourceLanguage::TypeScript),
        ("tsx"@, SourceLanguage::TypeScript),
        ("py"@, SourceLanguage::Python),
        ("rs"@, SourceLanguage::Rust),
        ("go"@, SourceLanguage::Go),
        ("rb"@, SourceLanguage::Ruby),
        ("php"@, SourceLanguage::Php),
        ("java"@, SourceLanguage::Java),
        ("swift"@, SourceLanguage::Swift),
        ("c"@, SourceLanguage::C),
        ("h"@, SourceLanguage::C),
        ("cpp"@, SourceLanguage::Cpp),
        ("cc"@, SourceLanguage::Cpp),
        ("cxx"@, SourceLanguage::Cpp),
        ("hpp"@, SourceLanguage::Cpp),
        ("hxx"@, SourceLanguage::Cpp),
    ]
}

/// Each language claims exactly the extensions the table gives it.
pub proof fn lemma_extension_table()
    ensures
        forall|i: int|
            0 <= i < extension_table().len() ==> language_extensions((#[trigger] extension_table()[i]).1).contains(
                extension_table()[i].0,
            ),
        forall|l: SourceLanguage, k: int|
            0 <= k < language_extensions(l).len() ==> exists|i: int|
                0 <= i < extension_table().len() && extension_table()[i].0 == #[trigger] language_extensions(l)[k]
                    && extension_table()[i].1 == l,
{
    let t = extension_table();
    assert forall|i: int| 0 <= i < t.len() implies language_extensions((#[trigger] t[i]).1).contains(t[i].0) by {
        if i == 0 {
            assert(language_extensions(SourceLanguage::JavaScript)[0] == t[i].0);
        }         else if i == 1 {
            assert(language_extensions(SourceLanguage::JavaScript)[1] == t[i].0);
        }         else if i == 2 {
            assert(language_extensions(SourceLanguage::JavaScript)[2] == t[i].0);
        }         else if i == 3 {
            assert(language_extensions(SourceLanguage::JavaScript)[3] == t[i].0);
        }         else if i == 4 {
            assert(language_extensions(SourceLanguage::TypeScript)[0] == t[i].0);
        }         else if i == 5 {
            assert(language_extensions(SourceLanguage::TypeScript)[1] == t[i].0);
        }         else if i == 6 {
            assert(language_extensions(SourceLanguage::Python)[0] == t[i].0);
        }         else if i == 7 {
            assert(language_extensions(SourceLanguage::Rust)[0] == t[i].0);
        }         else if i == 8 {
            assert(language_extensions(SourceLanguage::Go)[0] == t[i].0);
        }         else if i == 9 {
            assert(language_extensions(SourceLanguage::Ruby)[0] == t[i].0);
        }         else if i == 10 {
            assert(language_extensions(SourceLanguage::Php)[0] == t[i].0);
        }         else if i == 11 {
            assert(language_extensions(SourceLanguage::Java)[0] == t[i].0);
        }         else if i == 12 {
            assert(language_extensions(SourceLanguage::Swift)[0] == t[i].0);
        }         else if i == 13 {
            assert(language_extensions(SourceLanguage::C)[0] == t[i].0);
        }         else if i == 14 {
            assert(language_extensions(SourceLanguage::C)[1] == t[i].0);
        }         else if i == 15 {
            assert(language_extensions(SourceLanguage::Cpp)[0] == t[i].0);
        }         else if i == 16 {
            assert(language_extensions(SourceLanguage::Cpp)[1] == t[i].0);
        }         else if i == 17 {
            assert(language_extensions(SourceLanguage::Cpp)[2] == t[i].0);
        }         else if i == 18 {
            assert(language_extensions(SourceLanguage::Cpp)[3] == t[i].0);
        }         else if i == 19 {
            assert(language_extensions(SourceLanguage::Cpp)[4] == t[i].0);
        }
    }
    assert forall|l: SourceLanguage, k: int| 0 <= k < language_extensions(l).len() implies exists|i: int|
        0 <= i < t.len() && t[i].0 == #[trigger] language_extensions(l)[k] && t[i].1 == l by {
        let x = language_extensions(l);
        match l {
            SourceLanguage::JavaScript => {
                if k == 0 {
                    assert(t[0].0 == x[k] && t[0].1 == l);
                }
                if k == 1 {
                    assert(t[1].0 == x[k] && t[1].1 == l);
                }
                if k == 2 {
                    assert(t[2].0 == x[k] && t[2].1 == l);
                }
                if k == 3 {
                    assert(t[3].0 == x[k] && t[3].1 == l);
                }
            },
            SourceLanguage::TypeScript => {
                if k == 0 {
                    assert(t[4].0 == x[k] && t[4].1 == l);
                }
                if k == 1 {
                    assert(t[5].0 == x[k] && t[5].1 == l);
                }
            },
            SourceLanguage::Python => {
                if k == 0 {
                    assert(t[6].0 == x[k] && t[6].1 == l);
                }
            },
            SourceLanguage::Rust => {
                if k == 0 {
                    assert(t[7].0 == x[k] && t[7].1 == l);
                }
            },
            SourceLanguage::Go => {
                if k == 0 {
                    assert(t[8].0 == x[k] && t[8].1 == l);
                }
            },
            SourceLanguage::Ruby => {
                if k == 0 {
                    assert(t[9].0 == x[k] && t[9].1 == l);
                }
            },
            SourceLanguage::Php => {
                if k == 0 {
                    assert(t[10].0 == x[k] && t[10].1 == l);
                }
            },
            SourceLanguage::Java => {
                if k == 0 {
                    assert(t[11].0 == x[k] && t[11].1 == l);
                }
            },
            SourceLanguage::Swift => {
                if k == 0 {
                    assert(t[12].0 == x[k] && t[12].1 == l);
                }
            },
            SourceLanguage::C => {
                if k == 0 {
                    assert(t[13].0 == x[k] && t[13].1 == l);
                }
                if k == 1 {
                    assert(t[14].0 == x[k] && t[14].1 == l);
                }
            },
            SourceLanguage::Cpp => {
                if k == 0 {
                    assert(t[15].0 == x[k] && t[15].1 == l);
                }
                if k == 1 {
                    assert(t[16].0 == x[k] && t[16].1 == l);
                }
                if k == 2 {
                    assert(t[17].0 == x[k] && t[17].1 == l);
                }
                if k == 3 {
                    assert(t[18].0 == x[k] && t[18].1 == l);
                }
                if k == 4 {
                    assert(t[19].0 == x[k] && t[19].1 == l);
                }
            },
        }
    }
}

/// A file named `stem.ext`, for an extension of the table, is in the
/// table's language for it whenever that language is among those requested,
/// whatever the stem (dots included) and the order of the request.
pub proof fn lemma_file_language(langs: Seq<SourceLanguage>, stem: Seq<char>, i: int)
    requires
        0 <= i < extension_table().len(),
        langs.contains(extension_table()[i].1),
    ensures
        language_of_name(langs, stem + "."@ + extension_table()[i].0) == Some(extension_table()[i].1),
{
    reveal_strlit(".");
    lemma_extension_table();
    let (e, l) = extension_table()[i];
    lemma_extension_tables(l);
    let k = choose|k: int| 0 <= k < language_extensions(l).len() && language_extensions(l)[k] == e;
    assert(language_extensions(l)[k] == e);
    let name = stem + "."@ + e;
    let d = stem.len() as int;
    assert(name[d] == '.');
    assert forall|m: int| d < m < name.len() implies name[m] != '.' by {
        assert(name[m] == e[m - d - 1]);
        assert('a' <= language_extensions(l)[k][m - d - 1] <= 'z');
    }
    assert(is_last_index(name, '.', d));
    lemma_last_index(name, '.', d);
    assert(name.subrange(d + 1, name.len() as int) =~= e);
    assert(file_extension_spec(name) == Some(e));
    lemma_language_independent_of_order(langs, l, e);
}

/// A file the requested languages claim is reported by the directory
/// listing it, unless that directory holds a project manifest.
proof fn lemma_sources_complete(names: Seq<Seq<char>>, langs: Seq<SourceLanguage>, k: int, l: SourceLanguage)
    requires
        names.len() <= usize::MAX,
        0 <= k < names.len(),
        language_of_name(langs, names[k]) == Some(l),
    ensures
        sources_among(names, langs).contains((k as usize, l)),
    decreases names.len(),
{
    let init_names = names.drop_last();
    let init = sources_among(init_names, langs);
    let r = sources_among(names, langs);
    if k < names.len() - 1 {
        assert(init_names[k] == names[k]);
        lemma_sources_complete(init_names, langs, k, l);
        let a = choose|a: int| 0 <= a < init.len() && init[a] == (k as usize, l);
        assert(r[a] == init[a]);
    } else {
        assert(names.last() == names[k]);
        assert(r[init.len() as int] == (k as usize, l));
    }
}

/// Every file named `stem.ext`, for an extension of the table, in a
/// directory without a project manifest, is reported with the table's
/// language for it whenever that language is requested.
pub proof fn lemma_loose_file_reported(names: Seq<Seq<char>>, langs: Seq<SourceLanguage>, k: int, stem: Seq<char>, i: int)
    requires
        names.len() <= usize::MAX,
        0 <= k < names.len(),
        0 <= i < extension_table().len(),
        names[k] == stem + "."@ + extension_table()[i].0,
        langs.contains(extension_table()[i].1),
        !dir_is_project(names),
    ensures
        loose_sources(names, langs).contains((k as usize, extension_table()[i].1)),
{
    lemma_file_language(langs, stem, i);
    lemma_sources_complete(names, langs, k, extension_table()[i].1);
}

/// The files that make a directory a project root.
pub open spec fn project_marker_names() -> Set<Seq<char>> {
    set![
        "package.json"@, "Cargo.toml"@, "go.mod"@, "pyproject.toml"@, "Pipfile"@,
        "requirements.txt"@, "Gemfile"@, "composer.json"@, "pom.xml"@, "build.gradle"@,
        "build.gradle.kts"@,
    ]
}

/// A directory is a project root exactly when one of its files bears one of
/// the project file names.
pub proof fn lemma_project_roots(names: Seq<Seq<char>>)
    ensures
        dir_is_project(names) <==> exists|k: int| 0 <= k < names.len() && project_marker_names().contains(#[trigger] names[k]),
{
    assert(project_markers().to_set() =~= project_marker_names()) by {
        assert forall|x: Seq<char>| project_markers().contains(x) <==> project_marker_names().contains(x) by {
            if project_markers().contains(x) {
                let k = choose|k: int| 0 <= k < project_markers().len() && project_markers()[k] == x;
                assert(0 <= k < 11);
            }
        }
    }
    assert forall|x: Seq<char>| project_markers().contains(x) == project_marker_names().contains(x) by {
        assert(project_markers().contains(x) == project_markers().to_set().contains(x));
    }
}

/// No extension belongs to two languages.
pub proof fn lemma_extensions_disjoint(a: SourceLanguage, b: SourceLanguage, e: Seq<char>)
    requires
        language_extensions(a).contains(e),
        language_extensions(b).contains(e),
    ensures
        a == b,
{
    lemma_key_names_language(a, e);
    lemma_key_names_language(b, e);
}

/// A file is found in the language that claims its extension whenever that
/// language is among those requested, in whatever order they were requested.
pub proof fn lemma_language_independent_of_order(
    langs: Seq<SourceLanguage>,
    l: SourceLanguage,
    e: Seq<char>,
)
    requires
        langs.contains(l),
        language_extensions(l).contains(e),
    ensures
        language_for_extension(langs, e) == Some(l),
    decreases langs.len(),
{
    if language_extensions(langs[0]).contains(e) {
        lemma_extensions_disjoint(langs[0], l, e);
    } else {
        let k = choose|k: int| 0 <= k < langs.len() && langs[k] == l;
        assert(k > 0);
        assert(langs.drop_first()[k - 1] == l);
        lemma_language_independent_of_order(langs.drop_first(), l, e);
    }
}

/// What `sources_among` reports lies among the names, in increasing order,
/// in one of the languages, and that language claims the file's extension.
proof fn lemma_sources_among(names: Seq<Seq<char>>, langs: Seq<SourceLanguage>)
    requires
        names.len() <= usize::MAX,
    ensures
        forall|a: int|
            0 <= a < sources_among(names, langs).len() ==> {
                let e = #[trigger] sources_among(names, langs)[a];
                &&& e.0 < names.len()
                &&& langs.contains(e.1)
                &&& file_extension_spec(names[e.0 as int]) matches Some(x) && language_extensions(e.1).contains(x)
            },
        forall|a: int, b: int|
            0 <= a < b < sources_among(names, langs).len() ==> (#[trigger] sources_among(names, langs)[a]).0
                < (#[trigger] sources_among(names, langs)[b]).0,
    decreases names.len(),
{
    if names.len() > 0 {
        let init_names = names.drop_last();
        lemma_sources_among(init_names, langs);
        if let Some(x) = file_extension_spec(names.last()) {
            lemma_language_for_extension(langs, x);
        }
        let init = sources_among(init_names, langs);
        assert forall|a: int| 0 <= a < init.len() implies names[(#[trigger] init[a]).0 as int]
            == init_names[init[a].0 as int] by {}
    }
}

/// A directory holding a project manifest reports no loose files; any
/// other reports, in order, only files among its own whose extension the
/// reported language (one of those requested) claims.
pub proof fn lemma_loose_sources(names: Seq<Seq<char>>, langs: Seq<SourceLanguage>)
    requires
        names.len() <= usize::MAX,
    ensures
        dir_is_project(names) ==> loose_sources(names, langs).len() == 0,
        forall|a: int|
            0 <= a < loose_sources(names, langs).len() ==> {
                let e = #[trigger] loose_sources(names, langs)[a];
                &&& e.0 < names.len()
                &&& langs.contains(e.1)
                &&& file_extension_spec(names[e.0 as int]) matches Some(x) && language_extensions(e.1).contains(x)
            },
        forall|a: int, b: int|
            0 <= a < b < loose_sources(names, langs).len() ==> (#[trigger] loose_sources(names, langs)[a]).0
                < (#[trigger] loose_sources(names, langs)[b]).0,
{
    lemma_sources_among(names, langs);
}

/// The languages a scan looks for: those requested, or every language when
/// none is.
pub fn requested_languages(languages: Vec<SourceLanguage>) -> (r: Vec<SourceLanguage>)
    ensures
        r@ == (if languages@.len() == 0 {
            all_languages()
        } else {
            languages@
        }),
{
    if languages.len() == 0 {
        SourceLanguage::all()
    } else {
        languages
    }
}

/// The scan stops after the directory in which it has found this many files.
pub const MAX_SOURCE_FILES: usize = 5000;

} // verus!
