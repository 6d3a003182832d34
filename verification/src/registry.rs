//! The builtin registry of supported development tools.
//!
//! Each entry is declarative: binary, arguments, version parser, latest-version
//! source and optional package listing. Install / uninstall / upgrade
//! commands are attached by `apply_default_actions` according to the
//! package-manager convention of each tool.
use vstd::prelude::*;

use crate::text::{push_str, str_is};
use crate::types::{
    definition_views, opt_actions_view, str_views, string_views, ActionsView, DefinitionView,
    LatestSource, LatestView, PackageSource, ParserView, ToolActions, ToolCategory,
    ToolDefinition, VersionParser,
};

verus! {

/// The commands that manage a Homebrew formula.
pub open spec fn brew_view(formula: Seq<char>) -> ActionsView {
    ActionsView {
        install: seq!["brew"@, "install"@, formula],
        uninstall: seq!["brew"@, "uninstall"@, formula],
        upgrade: seq!["brew"@, "upgrade"@, formula],
    }
}

/// The commands that manage a Homebrew cask.
pub open spec fn brew_cask_view(cask: Seq<char>) -> ActionsView {
    ActionsView {
        install: seq!["brew"@, "install"@, "--cask"@, cask],
        uninstall: seq!["brew"@, "uninstall"@, "--cask"@, cask],
        upgrade: seq!["brew"@, "upgrade"@, "--cask"@, cask],
    }
}

/// The commands that manage a global npm package.
pub open spec fn npm_global_view(pkg: Seq<char>) -> ActionsView {
    ActionsView {
        install: seq!["npm"@, "install"@, "-g"@, pkg],
        uninstall: seq!["npm"@, "uninstall"@, "-g"@, pkg],
        upgrade: seq!["npm"@, "install"@, "-g"@, pkg + "@latest"@],
    }
}

/// The commands that manage a rustup component.
pub open spec fn rustup_component_view(name: Seq<char>) -> ActionsView {
    ActionsView {
        install: seq!["rustup"@, "component"@, "add"@, name],
        uninstall: seq!["rustup"@, "component"@, "remove"@, name],
        upgrade: seq!["rustup"@, "update"@],
    }
}

/// The commands that install, remove and update rustup itself.
pub open spec fn rustup_self_view() -> ActionsView {
    ActionsView {
        install: seq![
            "curl"@,
            "--proto"@,
            "=https"@,
            "--tlsv1.2"@,
            "-sSf"@,
            "https://sh.rustup.rs"@,
            "|"@,
            "sh"@,
            "-s"@,
            "--"@,
            "-y"@,
        ],
        uninstall: seq!["rustup"@, "self"@, "uninstall"@, "-y"@],
        upgrade: seq!["rustup"@, "update"@],
    }
}

/// The management commands that a tool gets by its name, when any.
pub open spec fn default_actions(name: Seq<char>) -> Option<ActionsView> {
    if name == "node"@ || name == "python"@ || name == "go"@ || name == "ruby"@ || name == "zig"@ || name == "deno"@ || name == "bun"@ || name == "swift"@ || name == "php"@ || name == "docker"@ {
        Some(brew_view(name))
    } else if name == "rust"@ || name == "rustc"@ {
        Some(rustup_component_view("rustc"@))
    } else if name == "cargo"@ {
        Some(rustup_component_view("cargo"@))
    } else if name == "rustup"@ {
        Some(rustup_self_view())
    } else if name == "npm"@ || name == "yarn"@ || name == "pnpm"@ {
        Some(npm_global_view(name))
    } else if name == "dotnet"@ || name == "composer"@ || name == "nvm"@ || name == "pyenv"@
        || name == "asdf"@ {
        Some(brew_view(name))
    } else if name == "java"@ {
        Some(brew_cask_view("temurin"@))
    } else if name == "volta"@ {
        Some(brew_cask_view("volta"@))
    } else if name == "brew"@ {
        Some(ActionsView {
            install: Seq::empty(),
            uninstall: Seq::empty(),
            upgrade: seq!["brew"@, "update"@],
        })
    } else if name == "gem"@ {
        Some(ActionsView {
            install: seq!["gem"@, "update"@, "--system"@],
            uninstall: Seq::empty(),
            upgrade: seq!["gem"@, "update"@, "--system"@],
        })
    } else {
        None
    }
}

/// A definition with its default actions attached, unless it has actions already.
pub open spec fn with_default_actions(d: DefinitionView) -> DefinitionView {
    if d.actions is Some {
        d
    } else {
        DefinitionView {
            name: d.name,
            display_name: d.display_name,
            category: d.category,
            icon: d.icon,
            color: d.color,
            binary: d.binary,
            args: d.args,
            parser: d.parser,
            latest: d.latest,
            packages: d.packages,
            detect_versions: d.detect_versions,
            actions: default_actions(d.name),
        }
    }
}

/// The builtin tool definitions, in display order.
pub open spec fn builtin_view() -> Seq<DefinitionView> {
    seq![
        DefinitionView {
            name: "node"@,
            display_name: "Node.js"@,
            category: ToolCategory::JavaScript,
            icon: "🟢"@,
            color: "#5fa04e"@,
            binary: "node"@,
            args: seq!["--version"@],
            parser: ParserView::StripPrefix("v"@),
            latest: LatestView::Json("https://nodejs.org/dist/index.json"@, seq!["0"@, "version"@]),
            packages: None,
            detect_versions: true,
            actions: default_actions("node"@),
        },
        DefinitionView {
            name: "npm"@,
            display_name: "npm"@,
            category: ToolCategory::JavaScript,
            icon: "📦"@,
            color: "#cb3837"@,
            binary: "npm"@,
            args: seq!["--version"@],
            parser: ParserView::FirstNumeric,
            latest: LatestView::Json("https://registry.npmjs.org/npm/latest"@, seq!["version"@]),
            packages: Some(PackageSource::NpmGlobal),
            detect_versions: false,
            actions: default_actions("npm"@),
        },
        DefinitionView {
            name: "yarn"@,
            display_name: "Yarn"@,
            category: ToolCategory::JavaScript,
            icon: "🧶"@,
            color: "#2c8ebb"@,
            binary: "yarn"@,
            args: seq!["--version"@],
            parser: ParserView::FirstNumeric,
            latest: LatestView::Json("https://registry.yarnpkg.com/yarn/latest"@, seq!["version"@]),
            packages: None,
            detect_versions: false,
            actions: default_actions("yarn"@),
        },
        DefinitionView {
            name: "pnpm"@,
            display_name: "pnpm"@,
            category: ToolCategory::JavaScript,
            icon: "📦"@,
            color: "#f69220"@,
            binary: "pnpm"@,
            args: seq!["--version"@],
            parser: ParserView::FirstNumeric,
            latest: LatestView::Json("https://registry.npmjs.org/pnpm/latest"@, seq!["version"@]),
            packages: None,
            detect_versions: false,
            actions: default_actions("pnpm"@),
        },
        DefinitionView {
            name: "bun"@,
            display_name: "Bun"@,
            category: ToolCategory::JavaScript,
            icon: "🥖"@,
            color: "#fbf0df"@,
            binary: "bun"@,
            args: seq!["--version"@],
            parser: ParserView::FirstNumeric,
            latest: LatestView::GitHub("oven-sh/bun"@),
            packages: Some(PackageSource::BunGlobal),
            detect_versions: false,
            actions: default_actions("bun"@),
        },
        DefinitionView {
            name: "deno"@,
            display_name: "Deno"@,
            category: ToolCategory::JavaScript,
            icon: "🦕"@,
            color: "#70ffaf"@,
            binary: "deno"@,
            args: seq!["--version"@],
            parser: ParserView::FirstNumeric,
            latest: LatestView::GitHub("denoland/deno"@),
            packages: Some(PackageSource::DenoModules),
            detect_versions: false,
            actions: default_actions("deno"@),
        },
        DefinitionView {
            name: "python"@,
            display_name: "Python"@,
            category: ToolCategory::Python,
            icon: "🐍"@,
            color: "#3776ab"@,
            binary: "python3"@,
            args: seq!["--version"@],
            parser: ParserView::FirstNumeric,
            latest: LatestView::NoLookup,
            packages: None,
            detect_versions: true,
            actions: default_actions("python"@),
        },
        DefinitionView {
            name: "pip"@,
            display_name: "pip"@,
            category: ToolCategory::Python,
            icon: "📥"@,
            color: "#3776ab"@,
            binary: "pip3"@,
            args: seq!["--version"@],
            parser: ParserView::FirstNumeric,
            latest: LatestView::NoLookup,
            packages: Some(PackageSource::PipList),
            detect_versions: false,
            actions: default_actions("pip"@),
        },
        DefinitionView {
            name: "rust"@,
            display_name: "Rust"@,
            category: ToolCategory::Rust,
            icon: "🦀"@,
            color: "#dea584"@,
            binary: "rustc"@,
            args: seq!["--version"@],
            parser: ParserView::FirstNumeric,
            latest: LatestView::Json("https://static.rust-lang.org/dist/channel-rust-stable.toml"@, Seq::empty()),
            packages: None,
            detect_versions: false,
            actions: default_actions("rust"@),
        },
        DefinitionView {
            name: "cargo"@,
            display_name: "Cargo"@,
            category: ToolCategory::Rust,
            icon: "📦"@,
            color: "#dea584"@,
            binary: "cargo"@,
            args: seq!["--version"@],
            parser: ParserView::FirstNumeric,
            latest: LatestView::NoLookup,
            packages: Some(PackageSource::CargoInstall),
            detect_versions: false,
            actions: default_actions("cargo"@),
        },
        DefinitionView {
            name: "rustup"@,
            display_name: "rustup"@,
            category: ToolCategory::Rust,
            icon: "🔧"@,
            color: "#dea584"@,
            binary: "rustup"@,
            args: seq!["--version"@],
            parser: ParserView::FirstNumeric,
            latest: LatestView::GitHub("rust-lang/rustup"@),
            packages: None,
            detect_versions: false,
            actions: default_actions("rustup"@),
        },
        DefinitionView {
            name: "zig"@,
            display_name: "Zig"@,
            category: ToolCategory::Systems,
            icon: "⚡"@,
            color: "#f7a41d"@,
            binary: "zig"@,
            args: seq!["version"@],
            parser: ParserView::FirstNumeric,
            latest: LatestView::Json("https://ziglang.org/download/index.json"@, Seq::empty()),
            packages: None,
            detect_versions: false,
            actions: default_actions("zig"@),
        },
        DefinitionView {
            name: "go"@,
            display_name: "Go"@,
            category: ToolCategory::Systems,
            icon: "🐹"@,
            color: "#00add8"@,
            binary: "go"@,
            args: seq!["version"@],
            parser: ParserView::StripPrefix("go"@),
            latest: LatestView::Json("https://go.dev/dl/?mode=json"@, seq!["0"@, "version"@]),
            packages: Some(PackageSource::GoModules),
            detect_versions: false,
            actions: default_actions("go"@),
        },
        DefinitionView {
            name: "swift"@,
            display_name: "Swift"@,
            category: ToolCategory::Systems,
            icon: "🕊️"@,
            color: "#f05138"@,
            binary: "swift"@,
            args: seq!["--version"@],
            parser: ParserView::FirstNumeric,
            latest: LatestView::GitHub("swiftlang/swift"@),
            packages: None,
            detect_versions: false,
            actions: default_actions("swift"@),
        },
        DefinitionView {
            name: "ruby"@,
            display_name: "Ruby"@,
            category: ToolCategory::Systems,
            icon: "💎"@,
            color: "#cc342d"@,
            binary: "ruby"@,
            args: seq!["--version"@],
            parser: ParserView::FirstNumeric,
            latest: LatestView::NoLookup,
            packages: None,
            detect_versions: true,
            actions: default_actions("ruby"@),
        },
        DefinitionView {
            name: "dotnet"@,
            display_name: ".NET SDK"@,
            category: ToolCategory::Runtime,
            icon: "🌐"@,
            color: "#512bd4"@,
            binary: "dotnet"@,
            args: seq!["--version"@],
            parser: ParserView::FirstNumeric,
            latest: LatestView::NoLookup,
            packages: None,
            detect_versions: false,
            actions: default_actions("dotnet"@),
        },
        DefinitionView {
            name: "java"@,
            display_name: "Java"@,
            category: ToolCategory::Runtime,
            icon: "☕"@,
            color: "#ed8b00"@,
            binary: "java"@,
            args: seq!["--version"@],
            parser: ParserView::FirstNumeric,
            latest: LatestView::NoLookup,
            packages: None,
            detect_versions: false,
            actions: default_actions("java"@),
        },
        DefinitionView {
            name: "php"@,
            display_name: "PHP"@,
            category: ToolCategory::Runtime,
            icon: "🐘"@,
            color: "#777bb4"@,
            binary: "php"@,
            args: seq!["--version"@],
            parser: ParserView::FirstNumeric,
            latest: LatestView::NoLookup,
            packages: None,
            detect_versions: false,
            actions: default_actions("php"@),
        },
        DefinitionView {
            name: "docker"@,
            display_name: "Docker"@,
            category: ToolCategory::Infra,
            icon: "🐳"@,
            color: "#2496ed"@,
            binary: "docker"@,
            args: seq!["--version"@],
            parser: ParserView::FirstNumeric,
            latest: LatestView::GitHub("moby/moby"@),
            packages: None,
            detect_versions: false,
            actions: default_actions("docker"@),
        },
        DefinitionView {
            name: "brew"@,
            display_name: "Homebrew"@,
            category: ToolCategory::PackageManager,
            icon: "🍺"@,
            color: "#fbb040"@,
            binary: "brew"@,
            args: seq!["--version"@],
            parser: ParserView::FirstNumeric,
            latest: LatestView::GitHub("Homebrew/brew"@),
            packages: Some(PackageSource::BrewList),
            detect_versions: false,
            actions: default_actions("brew"@),
        },
        DefinitionView {
            name: "gem"@,
            display_name: "RubyGems"@,
            category: ToolCategory::PackageManager,
            icon: "💎"@,
            color: "#cc342d"@,
            binary: "gem"@,
            args: seq!["--version"@],
            parser: ParserView::FirstNumeric,
            latest: LatestView::Json("https://rubygems.org/api/v1/versions/rubygems-update/latest.json"@, seq!["version"@]),
            packages: Some(PackageSource::GemList),
            detect_versions: false,
            actions: default_actions("gem"@),
        },
        DefinitionView {
            name: "composer"@,
            display_name: "Composer"@,
            category: ToolCategory::PackageManager,
            icon: "🎵"@,
            color: "#885630"@,
            binary: "composer"@,
            args: seq!["--version"@],
            parser: ParserView::FirstNumeric,
            latest: LatestView::NoLookup,
            packages: Some(PackageSource::ComposerGlobal),
            detect_versions: false,
            actions: default_actions("composer"@),
        },
        DefinitionView {
            name: "nvm"@,
            display_name: "nvm"@,
            category: ToolCategory::VersionManager,
            icon: "🔵"@,
            color: "#5fa04e"@,
            binary: "nvm"@,
            args: seq!["--version"@],
            parser: ParserView::FirstNumeric,
            latest: LatestView::GitHub("nvm-sh/nvm"@),
            packages: None,
            detect_versions: false,
            actions: default_actions("nvm"@),
        },
        DefinitionView {
            name: "pyenv"@,
            display_name: "pyenv"@,
            category: ToolCategory::VersionManager,
            icon: "🐍"@,
            color: "#3776ab"@,
            binary: "pyenv"@,
            args: seq!["--version"@],
            parser: ParserView::StripPrefix("pyenv"@),
            latest: LatestView::GitHub("pyenv/pyenv"@),
            packages: None,
            detect_versions: false,
            actions: default_actions("pyenv"@),
        },
        DefinitionView {
            name: "asdf"@,
            display_name: "asdf"@,
            category: ToolCategory::VersionManager,
            icon: "🔺"@,
            color: "#a8553a"@,
            binary: "asdf"@,
            args: seq!["--version"@],
            parser: ParserView::StripPrefix("v"@),
            latest: LatestView::GitHub("asdf-vm/asdf"@),
            packages: None,
            detect_versions: false,
            actions: default_actions("asdf"@),
        },
        DefinitionView {
            name: "volta"@,
            display_name: "Volta"@,
            category: ToolCategory::VersionManager,
            icon: "⚡"@,
            color: "#5fa04e"@,
            binary: "volta"@,
            args: seq!["--version"@],
            parser: ParserView::FirstNumeric,
            latest: LatestView::GitHub("volta-cli/volta"@),
            packages: None,
            detect_versions: false,
            actions: default_actions("volta"@),
        },
    ]
}

/// The names of the builtin tools, in display order.
pub open spec fn builtin_names() -> Seq<Seq<char>> {
    builtin_view().map_values(|d: DefinitionView| d.name)
}

/// Every builtin tool carries the install, uninstall and upgrade commands
/// that the package-manager conventions give its name.
pub proof fn lemma_builtin_actions_are_defaults()
    ensures
        forall|i: int|
            0 <= i < builtin_view().len() ==> (#[trigger] builtin_view()[i]).actions == default_actions(
                builtin_view()[i].name,
            ),
{
}

/// The length and the first, second and last characters of a name.
spec fn name_key(s: Seq<char>) -> (nat, char, char, char) {
    (s.len(), s[0], s[1], s[s.len() - 1])
}

/// No two builtin tools share a name, so a name finds one tool.
pub proof fn lemma_builtin_names_distinct()
    ensures
        forall|i: int, j: int|
            0 <= i < j < builtin_names().len() ==> builtin_names()[i] != builtin_names()[j],
{
    reveal_strlit("node");
    reveal_strlit("npm");
    reveal_strlit("yarn");
    reveal_strlit("pnpm");
    reveal_strlit("bun");
    reveal_strlit("deno");
    reveal_strlit("python");
    reveal_strlit("pip");
    reveal_strlit("rust");
    reveal_strlit("cargo");
    reveal_strlit("rustup");
    reveal_strlit("zig");
    reveal_strlit("go");
    reveal_strlit("swift");
    reveal_strlit("ruby");
    reveal_strlit("dotnet");
    reveal_strlit("java");
    reveal_strlit("php");
    reveal_strlit("docker");
    reveal_strlit("brew");
    reveal_strlit("gem");
    reveal_strlit("composer");
    reveal_strlit("nvm");
    reveal_strlit("pyenv");
    reveal_strlit("asdf");
    reveal_strlit("volta");
    let n = builtin_names();
    assert(n =~= seq!["node"@, "npm"@, "yarn"@, "pnpm"@, "bun"@, "deno"@, "python"@, "pip"@, "rust"@, "cargo"@, "rustup"@, "zig"@, "go"@, "swift"@, "ruby"@, "dotnet"@, "java"@, "php"@, "docker"@, "brew"@, "gem"@, "composer"@, "nvm"@, "pyenv"@, "asdf"@, "volta"@]);
    let keys: Seq<(nat, char, char, char)> = seq![(4nat, 'n', 'o', 'e'), (3nat, 'n', 'p', 'm'), (4nat, 'y', 'a', 'n'), (4nat, 'p', 'n', 'm'), (3nat, 'b', 'u', 'n'), (4nat, 'd', 'e', 'o'), (6nat, 'p', 'y', 'n'), (3nat, 'p', 'i', 'p'), (4nat, 'r', 'u', 't'), (5nat, 'c', 'a', 'o'), (6nat, 'r', 'u', 'p'), (3nat, 'z', 'i', 'g'), (2nat, 'g', 'o', 'o'), (5nat, 's', 'w', 't'), (4nat, 'r', 'u', 'y'), (6nat, 'd', 'o', 't'), (4nat, 'j', 'a', 'a'), (3nat, 'p', 'h', 'p'), (6nat, 'd', 'o', 'r'), (4nat, 'b', 'r', 'w'), (3nat, 'g', 'e', 'm'), (8nat, 'c', 'o', 'r'), (3nat, 'n', 'v', 'm'), (5nat, 'p', 'y', 'v'), (4nat, 'a', 's', 'f'), (5nat, 'v', 'o', 'a')];
    assert forall|i: int| 0 <= i < n.len() implies name_key(#[trigger] n[i]) == keys[i] by {}
    assert forall|i: int, j: int| 0 <= i < j < n.len() implies n[i] != n[j] by {
        assert(name_key(n[i]) == keys[i]);
        assert(name_key(n[j]) == keys[j]);
    }
}

/// Of the builtin tools only pip, which ships with Python, has no management
/// commands; every other tool has them, with an upgrade command that is not empty.
#[verifier::rlimit(60)]
pub proof fn lemma_builtin_action_sets()
    ensures
        forall|i: int|
            0 <= i < builtin_view().len() ==> ((#[trigger] builtin_view()[i]).actions is None
                <==> builtin_view()[i].name == "pip"@),
        forall|i: int|
            0 <= i < builtin_view().len() ==> ((#[trigger] builtin_view()[i]).actions matches Some(
                a,
            ) ==> a.upgrade.len() > 0),
{
    lemma_builtin_actions_are_defaults();
    lemma_builtin_names_distinct();
    reveal_strlit("rustc");
    reveal_strlit("node");
    reveal_strlit("npm");
    reveal_strlit("yarn");
    reveal_strlit("pnpm");
    reveal_strlit("bun");
    reveal_strlit("deno");
    reveal_strlit("python");
    reveal_strlit("pip");
    reveal_strlit("rust");
    reveal_strlit("cargo");
    reveal_strlit("rustup");
    reveal_strlit("zig");
    reveal_strlit("go");
    reveal_strlit("swift");
    reveal_strlit("ruby");
    reveal_strlit("dotnet");
    reveal_strlit("java");
    reveal_strlit("php");
    reveal_strlit("docker");
    reveal_strlit("brew");
    reveal_strlit("gem");
    reveal_strlit("composer");
    reveal_strlit("nvm");
    reveal_strlit("pyenv");
    reveal_strlit("asdf");
    reveal_strlit("volta");
    let n = builtin_names();
    let v = builtin_view();
    assert(name_key("node"@) == (4nat, 'n', 'o', 'e'));
    assert(name_key("npm"@) == (3nat, 'n', 'p', 'm'));
    assert(name_key("yarn"@) == (4nat, 'y', 'a', 'n'));
    assert(name_key("pnpm"@) == (4nat, 'p', 'n', 'm'));
    assert(name_key("bun"@) == (3nat, 'b', 'u', 'n'));
    assert(name_key("deno"@) == (4nat, 'd', 'e', 'o'));
    assert(name_key("python"@) == (6nat, 'p', 'y', 'n'));
    assert(name_key("pip"@) == (3nat, 'p', 'i', 'p'));
    assert(name_key("rust"@) == (4nat, 'r', 'u', 't'));
    assert(name_key("rustc"@) == (5nat, 'r', 'u', 'c'));
    assert(name_key("cargo"@) == (5nat, 'c', 'a', 'o'));
    assert(name_key("rustup"@) == (6nat, 'r', 'u', 'p'));
    assert(name_key("zig"@) == (3nat, 'z', 'i', 'g'));
    assert(name_key("go"@) == (2nat, 'g', 'o', 'o'));
    assert(name_key("swift"@) == (5nat, 's', 'w', 't'));
    assert(name_key("ruby"@) == (4nat, 'r', 'u', 'y'));
    assert(name_key("dotnet"@) == (6nat, 'd', 'o', 't'));
    assert(name_key("java"@) == (4nat, 'j', 'a', 'a'));
    assert(name_key("php"@) == (3nat, 'p', 'h', 'p'));
    assert(name_key("docker"@) == (6nat, 'd', 'o', 'r'));
    assert(name_key("brew"@) == (4nat, 'b', 'r', 'w'));
    assert(name_key("gem"@) == (3nat, 'g', 'e', 'm'));
    assert(name_key("composer"@) == (8nat, 'c', 'o', 'r'));
    assert(name_key("nvm"@) == (3nat, 'n', 'v', 'm'));
    assert(name_key("pyenv"@) == (5nat, 'p', 'y', 'v'));
    assert(name_key("asdf"@) == (4nat, 'a', 's', 'f'));
    assert(name_key("volta"@) == (5nat, 'v', 'o', 'a'));
    assert forall|i: int| 0 <= i < v.len() implies ((#[trigger] v[i]).actions is None <==> v[i].name
        == "pip"@) && (v[i].actions matches Some(a) ==> a.upgrade.len() > 0) by {
        assert(n[i] == v[i].name);
    }
}

/// Turn a slice of `&str` into an owned `Vec<String>`.
pub fn strs(args: &[&str]) -> (r: Vec<String>)
    ensures
        string_views(r@) == str_views(args@),
{
    let mut out: Vec<String> = Vec::new();
    let mut i: usize = 0;
    while i < args.len()
        invariant
            i <= args.len(),
            string_views(out@) == str_views(args@).take(i as int),
        decreases args.len() - i,
    {
        let s = String::from_str(args[i]);
        proof {
            assert(s@ == str_views(args@)[i as int]);
            assert(string_views(out@.push(s)) =~= string_views(out@).push(s@));
        }
        out.push(s);
        i = i + 1;
        assert(string_views(out@) =~= str_views(args@).take(i as int));
    }
    assert(str_views(args@).take(args.len() as int) =~= str_views(args@));
    out
}

/// The install / uninstall / upgrade commands of a Homebrew formula.
fn brew(formula: &str) -> (r: ToolActions)
    ensures
        r@ == brew_view(formula@),
{
    let r = ToolActions {
        install: strs(&["brew", "install", formula]),
        uninstall: strs(&["brew", "uninstall", formula]),
        upgrade: strs(&["brew", "upgrade", formula]),
    };
    assert(r@.install =~= brew_view(formula@).install);
    assert(r@.uninstall =~= brew_view(formula@).uninstall);
    assert(r@.upgrade =~= brew_view(formula@).upgrade);
    r
}

/// The install / uninstall / upgrade commands of a Homebrew cask.
fn brew_cask(cask: &str) -> (r: ToolActions)
    ensures
        r@ == brew_cask_view(cask@),
{
    let r = ToolActions {
        install: strs(&["brew", "install", "--cask", cask]),
        uninstall: strs(&["brew", "uninstall", "--cask", cask]),
        upgrade: strs(&["brew", "upgrade", "--cask", cask]),
    };
    assert(r@.install =~= brew_cask_view(cask@).install);
    assert(r@.uninstall =~= brew_cask_view(cask@).uninstall);
    assert(r@.upgrade =~= brew_cask_view(cask@).upgrade);
    r
}

/// The install / uninstall / upgrade commands of a global npm package.
fn npm_global(pkg: &str) -> (r: ToolActions)
    ensures
        r@ == npm_global_view(pkg@),
{
    let mut latest = String::from_str(pkg);
    push_str(&mut latest, "@latest");
    let r = ToolActions {
        install: strs(&["npm", "install", "-g", pkg]),
        uninstall: strs(&["npm", "uninstall", "-g", pkg]),
        upgrade: strs(&["npm", "install", "-g", latest.as_str()]),
    };
    assert(r@.install =~= npm_global_view(pkg@).install);
    assert(r@.uninstall =~= npm_global_view(pkg@).uninstall);
    assert(r@.upgrade =~= npm_global_view(pkg@).upgrade);
    r
}

/// The install / uninstall / upgrade commands of a rustup component.
fn rustup_component(name: &str) -> (r: ToolActions)
    ensures
        r@ == rustup_component_view(name@),
{
    let r = ToolActions {
        install: strs(&["rustup", "component", "add", name]),
        uninstall: strs(&["rustup", "component", "remove", name]),
        upgrade: strs(&["rustup", "update"]),
    };
    assert(r@.install =~= rustup_component_view(name@).install);
    assert(r@.uninstall =~= rustup_component_view(name@).uninstall);
    assert(r@.upgrade =~= rustup_component_view(name@).upgrade);
    r
}

/// The management commands that a tool gets by its name, when any.
fn default_actions_for(name: &str) -> (r: Option<ToolActions>)
    ensures
        opt_actions_view(r) == default_actions(name@),
{
    if str_is(name, "node") || str_is(name, "python") || str_is(name, "go") || str_is(name, "ruby") || str_is(name, "zig") || str_is(name, "deno") || str_is(name, "bun") || str_is(name, "swift") || str_is(name, "php") || str_is(name, "docker") {
        Some(brew(name))
    } else if str_is(name, "rust") || str_is(name, "rustc") {
        Some(rustup_component("rustc"))
    } else if str_is(name, "cargo") {
        Some(rustup_component("cargo"))
    } else if str_is(name, "rustup") {
        let r = ToolActions {
            install: strs(
                &[
                    "curl",
                    "--proto",
                    "=https",
                    "--tlsv1.2",
                    "-sSf",
                    "https://sh.rustup.rs",
                    "|",
                    "sh",
                    "-s",
                    "--",
                    "-y",
                ],
            ),
            uninstall: strs(&["rustup", "self", "uninstall", "-y"]),
            upgrade: strs(&["rustup", "update"]),
        };
        assert(r@.install =~= rustup_self_view().install);
        assert(r@.uninstall =~= rustup_self_view().uninstall);
        assert(r@.upgrade =~= rustup_self_view().upgrade);
        Some(r)
    } else if str_is(name, "npm") || str_is(name, "yarn") || str_is(name, "pnpm") {
        Some(npm_global(name))
    } else if str_is(name, "dotnet") || str_is(name, "composer") || str_is(name, "nvm") || str_is(
        name,
        "pyenv",
    ) || str_is(name, "asdf") {
        Some(brew(name))
    } else if str_is(name, "java") {
        Some(brew_cask("temurin"))
    } else if str_is(name, "volta") {
        Some(brew_cask("volta"))
    } else if str_is(name, "brew") {
        let r = ToolActions {
            install: Vec::new(),
            uninstall: Vec::new(),
            upgrade: strs(&["brew", "update"]),
        };
        assert(r@.install =~= Seq::empty());
        assert(r@.uninstall =~= Seq::empty());
        assert(r@.upgrade =~= seq!["brew"@, "update"@]);
        Some(r)
    } else if str_is(name, "gem") {
        let r = ToolActions {
            install: strs(&["gem", "update", "--system"]),
            uninstall: Vec::new(),
            upgrade: strs(&["gem", "update", "--system"]),
        };
        assert(r@.install =~= seq!["gem"@, "update"@, "--system"@]);
        assert(r@.uninstall =~= Seq::empty());
        assert(r@.upgrade =~= seq!["gem"@, "update"@, "--system"@]);
        Some(r)
    } else {
        None
    }
}

/// Attach install / uninstall / upgrade commands to a tool based on its name,
/// unless it already has actions.
fn apply_default_actions(def: ToolDefinition) -> (r: ToolDefinition)
    ensures
        r@ == with_default_actions(def@),
{
    if def.actions.is_some() {
        return def;
    }
    let mut def = def;
    let actions = default_actions_for(def.name.as_str());
    def.actions = actions;
    def
}

/// A definition without actions, built from its fields.
fn definition(
    name: &str,
    display_name: &str,
    category: ToolCategory,
    icon: &str,
    color: &str,
    binary: &str,
    args: &[&str],
    parser: VersionParser,
    latest: LatestSource,
    packages: Option<PackageSource>,
    detect_versions: bool,
) -> (r: ToolDefinition)
    ensures
        r@ == (DefinitionView {
            name: name@,
            display_name: display_name@,
            category,
            icon: icon@,
            color: color@,
            binary: binary@,
            args: str_views(args@),
            parser: parser@,
            latest: latest@,
            packages,
            detect_versions,
            actions: None,
        }),
{
    ToolDefinition {
        name: String::from_str(name),
        display_name: String::from_str(display_name),
        category,
        icon: String::from_str(icon),
        color: String::from_str(color),
        binary: String::from_str(binary),
        args: strs(args),
        parser,
        latest,
        packages,
        detect_versions,
        actions: None,
    }
}

/// The canonical list of tools that can be inspected, in display order,
/// each with its default management commands.
#[verifier::rlimit(50)]
pub fn builtin_tools() -> (r: Vec<ToolDefinition>)
    ensures
        definition_views(r@) == builtin_view(),
{
    let mut tools: Vec<ToolDefinition> = Vec::new();
    // JavaScript / TypeScript
    tools.push(
        apply_default_actions(
            definition(
                "node",
                "Node.js",
                ToolCategory::JavaScript,
                "🟢",
                "#5fa04e",
                "node",
                &["--version"],
                VersionParser::StripPrefix { prefix: String::from_str("v") },
                LatestSource::Json { url: String::from_str("https://nodejs.org/dist/index.json"), pointer: strs(&["0", "version"]) },
                None,
                true,
            ),
        ),
    );
    tools.push(
        apply_default_actions(
            definition(
                "npm",
                "npm",
                ToolCategory::JavaScript,
                "📦",
                "#cb3837",
                "npm",
                &["--version"],
                VersionParser::FirstNumeric,
                LatestSource::Json { url: String::from_str("https://registry.npmjs.org/npm/latest"), pointer: strs(&["version"]) },
                Some(PackageSource::NpmGlobal),
                false,
            ),
        ),
    );
    tools.push(
        apply_default_actions(
            definition(
                "yarn",
                "Yarn",
                ToolCategory::JavaScript,
                "🧶",
                "#2c8ebb",
                "yarn",
                &["--version"],
                VersionParser::FirstNumeric,
                LatestSource::Json { url: String::from_str("https://registry.yarnpkg.com/yarn/latest"), pointer: strs(&["version"]) },
                None,
                false,
            ),
        ),
    );
    tools.push(
        apply_default_actions(
            definition(
                "pnpm",
                "pnpm",
                ToolCategory::JavaScript,
                "📦",
                "#f69220",
                "pnpm",
                &["--version"],
                VersionParser::FirstNumeric,
                LatestSource::Json { url: String::from_str("https://registry.npmjs.org/pnpm/latest"), pointer: strs(&["version"]) },
                None,
                false,
            ),
        ),
    );
    tools.push(
        apply_default_actions(
            definition(
                "bun",
                "Bun",
                ToolCategory::JavaScript,
                "🥖",
                "#fbf0df",
                "bun",
                &["--version"],
                VersionParser::FirstNumeric,
                LatestSource::GitHub { repo: String::from_str("oven-sh/bun") },
                Some(PackageSource::BunGlobal),
                false,
            ),
        ),
    );
    tools.push(
        apply_default_actions(
            definition(
                "deno",
                "Deno",
                ToolCategory::JavaScript,
                "🦕",
                "#70ffaf",
                "deno",
                &["--version"],
                VersionParser::FirstNumeric,
                LatestSource::GitHub { repo: String::from_str("denoland/deno") },
                Some(PackageSource::DenoModules),
                false,
            ),
        ),
    );
    // Python
    tools.push(
        apply_default_actions(
            definition(
                "python",
                "Python",
                ToolCategory::Python,
                "🐍",
                "#3776ab",
                "python3",
                &["--version"],
                VersionParser::FirstNumeric,
                LatestSource::NoLookup,
                None,
                true,
            ),
        ),
    );
    tools.push(
        apply_default_actions(
            definition(
                "pip",
                "pip",
                ToolCategory::Python,
                "📥",
                "#3776ab",
                "pip3",
                &["--version"],
                VersionParser::FirstNumeric,
                LatestSource::NoLookup,
                Some(PackageSource::PipList),
                false,
            ),
        ),
    );
    // Rust
    tools.push(
        apply_default_actions(
            definition(
                "rust",
                "Rust",
                ToolCategory::Rust,
                "🦀",
                "#dea584",
                "rustc",
                &["--version"],
                VersionParser::FirstNumeric,
                LatestSource::Json { url: String::from_str("https://static.rust-lang.org/dist/channel-rust-stable.toml"), pointer: Vec::new() },
                None,
                false,
            ),
        ),
    );
    tools.push(
        apply_default_actions(
            definition(
                "cargo",
                "Cargo",
                ToolCategory::Rust,
                "📦",
                "#dea584",
                "cargo",
                &["--version"],
                VersionParser::FirstNumeric,
                LatestSource::NoLookup,
                Some(PackageSource::CargoInstall),
                false,
            ),
        ),
    );
    tools.push(
        apply_default_actions(
            definition(
                "rustup",
                "rustup",
                ToolCategory::Rust,
                "🔧",
                "#dea584",
                "rustup",
                &["--version"],
                VersionParser::FirstNumeric,
                LatestSource::GitHub { repo: String::from_str("rust-lang/rustup") },
                None,
                false,
            ),
        ),
    );
    // Systems languages
    tools.push(
        apply_default_actions(
            definition(
                "zig",
                "Zig",
                ToolCategory::Systems,
                "⚡",
                "#f7a41d",
                "zig",
                &["version"],
                VersionParser::FirstNumeric,
                LatestSource::Json { url: String::from_str("https://ziglang.org/download/index.json"), pointer: Vec::new() },
                None,
                false,
            ),
        ),
    );
    tools.push(
        apply_default_actions(
            definition(
                "go",
                "Go",
                ToolCategory::Systems,
                "🐹",
                "#00add8",
                "go",
                &["version"],
                VersionParser::StripPrefix { prefix: String::from_str("go") },
                LatestSource::Json { url: String::from_str("https://go.dev/dl/?mode=json"), pointer: strs(&["0", "version"]) },
                Some(PackageSource::GoModules),
                false,
            ),
        ),
    );
    tools.push(
        apply_default_actions(
            definition(
                "swift",
                "Swift",
                ToolCategory::Systems,
                "🕊️",
                "#f05138",
                "swift",
                &["--version"],
                VersionParser::FirstNumeric,
                LatestSource::GitHub { repo: String::from_str("swiftlang/swift") },
                None,
                false,
            ),
        ),
    );
    tools.push(
        apply_default_actions(
            definition(
                "ruby",
                "Ruby",
                ToolCategory::Systems,
                "💎",
                "#cc342d",
                "ruby",
                &["--version"],
                VersionParser::FirstNumeric,
                LatestSource::NoLookup,
                None,
                true,
            ),
        ),
    );
    // Other runtimes
    tools.push(
        apply_default_actions(
            definition(
                "dotnet",
                ".NET SDK",
                ToolCategory::Runtime,
                "🌐",
                "#512bd4",
                "dotnet",
                &["--version"],
                VersionParser::FirstNumeric,
                LatestSource::NoLookup,
                None,
                false,
            ),
        ),
    );
    tools.push(
        apply_default_actions(
            definition(
                "java",
                "Java",
                ToolCategory::Runtime,
                "☕",
                "#ed8b00",
                "java",
                &["--version"],
                VersionParser::FirstNumeric,
                LatestSource::NoLookup,
                None,
                false,
            ),
        ),
    );
    tools.push(
        apply_default_actions(
            definition(
                "php",
                "PHP",
                ToolCategory::Runtime,
                "🐘",
                "#777bb4",
                "php",
                &["--version"],
                VersionParser::FirstNumeric,
                LatestSource::NoLookup,
                None,
                false,
            ),
        ),
    );
    // Infra
    tools.push(
        apply_default_actions(
            definition(
                "docker",
                "Docker",
                ToolCategory::Infra,
                "🐳",
                "#2496ed",
                "docker",
                &["--version"],
                VersionParser::FirstNumeric,
                LatestSource::GitHub { repo: String::from_str("moby/moby") },
                None,
                false,
            ),
        ),
    );
    // Package managers
    tools.push(
        apply_default_actions(
            definition(
                "brew",
                "Homebrew",
                ToolCategory::PackageManager,
                "🍺",
                "#fbb040",
                "brew",
                &["--version"],
                VersionParser::FirstNumeric,
                LatestSource::GitHub { repo: String::from_str("Homebrew/brew") },
                Some(PackageSource::BrewList),
                false,
            ),
        ),
    );
    tools.push(
        apply_default_actions(
            definition(
                "gem",
                "RubyGems",
                ToolCategory::PackageManager,
                "💎",
                "#cc342d",
                "gem",
                &["--version"],
                VersionParser::FirstNumeric,
                LatestSource::Json { url: String::from_str("https://rubygems.org/api/v1/versions/rubygems-update/latest.json"), pointer: strs(&["version"]) },
                Some(PackageSource::GemList),
                false,
            ),
        ),
    );
    tools.push(
        apply_default_actions(
            definition(
                "composer",
                "Composer",
                ToolCategory::PackageManager,
                "🎵",
                "#885630",
                "composer",
                &["--version"],
                VersionParser::FirstNumeric,
                LatestSource::NoLookup,
                Some(PackageSource::ComposerGlobal),
                false,
            ),
        ),
    );
    // Version managers
    // nvm is a shell function rather than a binary on PATH; it is probed
    // through the `nvm --version` form that the bash/zsh nvm supports.
    tools.push(
        apply_default_actions(
            definition(
                "nvm",
                "nvm",
                ToolCategory::VersionManager,
                "🔵",
                "#5fa04e",
                "nvm",
                &["--version"],
                VersionParser::FirstNumeric,
                LatestSource::GitHub { repo: String::from_str("nvm-sh/nvm") },
                None,
                false,
            ),
        ),
    );
    tools.push(
        apply_default_actions(
            definition(
                "pyenv",
                "pyenv",
                ToolCategory::VersionManager,
                "🐍",
                "#3776ab",
                "pyenv",
                &["--version"],
                VersionParser::StripPrefix { prefix: String::from_str("pyenv") },
                LatestSource::GitHub { repo: String::from_str("pyenv/pyenv") },
                None,
                false,
            ),
        ),
    );
    tools.push(
        apply_default_actions(
            definition(
                "asdf",
                "asdf",
                ToolCategory::VersionManager,
                "🔺",
                "#a8553a",
                "asdf",
                &["--version"],
                VersionParser::StripPrefix { prefix: String::from_str("v") },
                LatestSource::GitHub { repo: String::from_str("asdf-vm/asdf") },
                None,
                false,
            ),
        ),
    );
    tools.push(
        apply_default_actions(
            definition(
                "volta",
                "Volta",
                ToolCategory::VersionManager,
                "⚡",
                "#5fa04e",
                "volta",
                &["--version"],
                VersionParser::FirstNumeric,
                LatestSource::GitHub { repo: String::from_str("volta-cli/volta") },
                None,
                false,
            ),
        ),
    );
    assert(definition_views(tools@) =~~= builtin_view());
    tools
}

/// The first definition in `defs` with the given name.
pub open spec fn find_definition(defs: Seq<DefinitionView>, name: Seq<char>) -> Option<
    DefinitionView,
>
    decreases defs.len(),
{
    if defs.len() == 0 {
        None
    } else if defs[0].name == name {
        Some(defs[0])
    } else {
        find_definition(defs.drop_first(), name)
    }
}

/// A definition whose name no earlier definition has is the one its name
/// finds.
proof fn lemma_find_first_named(defs: Seq<DefinitionView>, i: int)
    requires
        0 <= i < defs.len(),
        forall|k: int| 0 <= k < i ==> (#[trigger] defs[k]).name != defs[i].name,
    ensures
        find_definition(defs, defs[i].name) == Some(defs[i]),
    decreases i,
{
    if i > 0 {
        let rest = defs.drop_first();
        assert(rest[i - 1] == defs[i]);
        assert forall|k: int| 0 <= k < i - 1 implies (#[trigger] rest[k]).name != rest[i - 1].name by {
            assert(rest[k] == defs[k + 1]);
        }
        lemma_find_first_named(rest, i - 1);
    }
}

/// Every builtin tool is found by its own name.
pub proof fn lemma_find_builtin()
    ensures
        forall|i: int|
            0 <= i < builtin_view().len() ==> find_definition(builtin_view(), #[trigger] builtin_view()[i].name)
                == Some(builtin_view()[i]),
{
    lemma_builtin_names_distinct();
    let v = builtin_view();
    assert forall|i: int| 0 <= i < v.len() implies find_definition(v, #[trigger] v[i].name) == Some(v[i]) by {
        assert forall|k: int| 0 <= k < i implies (#[trigger] v[k]).name != v[i].name by {
            assert(builtin_names()[k] == v[k].name);
            assert(builtin_names()[i] == v[i].name);
        }
        lemma_find_first_named(v, i);
    }
}

/// Look up a single builtin tool by name.
pub fn find(name: &str) -> (r: Option<ToolDefinition>)
    ensures
        match r {
            Some(d) => find_definition(builtin_view(), name@) == Some(d@),
            None => find_definition(builtin_view(), name@) is None,
        },
{
    let mut tools = builtin_tools();
    let ghost all = builtin_view();
    let mut i: usize = 0;
    proof {
        assert(all.skip(0) =~= all);
    }
    while i < tools.len()
        invariant
            definition_views(tools@) == all,
            all == builtin_view(),
            i <= tools.len(),
            find_definition(all, name@) == find_definition(all.skip(i as int), name@),
        decreases tools.len() - i,
    {
        proof {
            assert(all.skip(i as int)[0] == tools@[i as int]@);
            assert(all.skip(i as int).drop_first() =~= all.skip(i + 1));
        }
        if str_is(tools[i].name.as_str(), name) {
            let d = tools.remove(i);
            return Some(d);
        }
        i = i + 1;
    }
    None
}

} // verus!
