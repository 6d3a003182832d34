//! On-disk size of installed packages.
//!
//! Each manager's convention locates the install directory of a package; the
//! caller measures the candidates in order with `du -sk` (globs through the
//! shell) and keeps the first answer. Packages that cannot be attributed to
//! one directory report no size.
use vstd::prelude::*;

use crate::text::{chars_of, lines, lines_vec, parse_u64_vec, parse_unsigned, push_str, str_is, string_of, trim, trim_vec, views, words, words_vec};

verus! {

/// `a * b`, or `u64::MAX` when that overflows (`u64::saturating_mul`).
pub open spec fn saturating_mul(a: nat, b: nat) -> nat {
    if a * b > u64::MAX {
        u64::MAX as nat
    } else {
        a * b
    }
}

/// `a + b`, or `u64::MAX` when that overflows (`u64::saturating_add`).
pub open spec fn saturating_add(a: nat, b: nat) -> nat {
    if a + b > u64::MAX {
        u64::MAX as nat
    } else {
        a + b
    }
}

/// The size in bytes that a line of `du -sk` output reports: its first word
/// read as kilobytes.
pub open spec fn du_line_bytes(line: Seq<char>) -> Option<nat> {
    let ws = words(line);
    if ws.len() == 0 {
        None
    } else {
        match parse_unsigned(ws[0], u64::MAX as nat) {
            Some(kb) => Some(saturating_mul(kb, 1024)),
            None => None,
        }
    }
}

/// Parse one line of `du -sk` output into bytes.
pub fn parse_du_line(line: &str) -> (r: Option<u64>)
    ensures
        match r {
            Some(b) => du_line_bytes(line@) == Some(b as nat),
            None => du_line_bytes(line@) is None,
        },
{
    let ws = words_vec(&chars_of(line));
    if ws.len() == 0 {
        return None;
    }
    proof {
        assert(ws@[0]@ == views(ws@)[0]);
    }
    match parse_u64_vec(&ws[0]) {
        Some(kb) => {
            let bytes: u64 = if kb > u64::MAX / 1024 {
                u64::MAX
            } else {
                kb * 1024
            };
            proof {
                if kb > u64::MAX / 1024 {
                    assert(kb * 1024 > u64::MAX) by (nonlinear_arith)
                        requires kb > u64::MAX / 1024;
                } else {
                    assert(kb * 1024 <= u64::MAX) by (nonlinear_arith)
                        requires kb <= u64::MAX / 1024;
                }
            }
            Some(bytes)
        },
        None => None,
    }
}

/// Parse `du -sk` output: the size its first line reports.
pub fn parse_du(stdout: &str) -> (r: Option<u64>)
    ensures
        match r {
            Some(b) => lines(stdout@).len() > 0 && du_line_bytes(lines(stdout@)[0]) == Some(b as nat),
            None => lines(stdout@).len() == 0 || du_line_bytes(lines(stdout@)[0]) is None,
        },
{
    let ls = lines_vec(&chars_of(stdout));
    if ls.len() == 0 {
        return None;
    }
    proof {
        assert(ls@[0]@ == views(ls@)[0]);
    }
    parse_du_line(string_of(&ls[0]).as_str())
}

/// The total of the sizes the lines report, saturating, and whether any
/// line reported one.
pub open spec fn du_sum(ls: Seq<Seq<char>>) -> (nat, bool)
    decreases ls.len(),
{
    if ls.len() == 0 {
        (0, false)
    } else {
        let (total, found) = du_sum(ls.drop_last());
        match du_line_bytes(ls.last()) {
            Some(b) => (saturating_add(total, b), true),
            None => (total, found),
        }
    }
}

/// The total size reported by `du -sk` over a glob: the sum of every line
/// that reports a size, if any does.
pub fn du_total(stdout: &str) -> (r: Option<u64>)
    ensures
        match r {
            Some(t) => du_sum(lines(stdout@)).1 && du_sum(lines(stdout@)).0 == t as nat,
            None => !du_sum(lines(stdout@)).1,
        },
{
    let ls = lines_vec(&chars_of(stdout));
    let ghost all = views(ls@);
    let mut total: u64 = 0;
    let mut found = false;
    let mut i: usize = 0;
    proof {
        assert(all.take(0) =~= Seq::<Seq<char>>::empty());
    }
    while i < ls.len()
        invariant
            all == views(ls@),
            all == lines(stdout@),
            i <= ls.len(),
            du_sum(all.take(i as int)) == (total as nat, found),
        decreases ls.len() - i,
    {
        proof {
            assert(all.take(i + 1).drop_last() =~= all.take(i as int));
            assert(all.take(i + 1).last() == ls@[i as int]@);
        }
        match parse_du_line(string_of(&ls[i]).as_str()) {
            Some(b) => {
                total = if total > u64::MAX - b { u64::MAX } else { total + b };
                found = true;
            },
            None => {},
        }
        i = i + 1;
    }
    proof {
        assert(all.take(ls@.len() as int) =~= all);
    }
    if found {
        Some(total)
    } else {
        None
    }
}

/// What the size lookups know about the machine: the home directory, the
/// global `node_modules` that `npm root -g` printed, the site-packages
/// directory that Python printed, and whether `gem environment` ran.
#[derive(Clone, Debug)]
pub struct SizeEnv {
    pub home: Option<String>,
    pub npm_root: Option<String>,
    pub site_packages: Option<String>,
    pub gem_available: bool,
}

/// A place whose size `du -sk` measures: a directory, or a shell glob whose
/// matches are summed.
#[derive(Clone, Debug)]
pub enum SizeProbe {
    Dir(String),
    Glob(String),
}

/// A probe, as plain values: whether it is a glob, and its path.
pub open spec fn probe_view(p: SizeProbe) -> (bool, Seq<char>) {
    match p {
        SizeProbe::Dir(d) => (false, d@),
        SizeProbe::Glob(g) => (true, g@),
    }
}

/// `s` with every `-` replaced by `_` (pip's directory names).
pub open spec fn dashes_to_underscores(s: Seq<char>) -> Seq<char> {
    s.map_values(|c: char| if c == '-' { '_' } else { c })
}

/// The text of an optional string.
pub open spec fn text_of(o: Option<String>) -> Option<Seq<char>> {
    match o {
        Some(s) => Some(s@),
        None => None,
    }
}

/// Where each manager keeps a package, in the order the places are tried.
pub open spec fn size_probes_spec(
    manager: Seq<char>,
    name: Seq<char>,
    home: Option<Seq<char>>,
    npm_root: Option<Seq<char>>,
    site: Option<Seq<char>>,
    gem_available: bool,
) -> Seq<(bool, Seq<char>)> {
    if manager == "npm"@ {
        match npm_root {
            Some(r) => seq![(false, trim(r) + "/"@ + name)],
            None => Seq::empty(),
        }
    } else if manager == "brew"@ {
        seq![(false, "/opt/homebrew/Cellar/"@ + name), (false, "/usr/local/Cellar/"@ + name)]
    } else if manager == "cargo"@ {
        match home {
            Some(h) => seq![(true, h + "/.cargo/registry/src/*/"@ + name + "-*"@)],
            None => Seq::empty(),
        }
    } else if manager == "pip"@ {
        match site {
            Some(s) => seq![
                (false, trim(s) + "/"@ + name),
                (false, trim(s) + "/"@ + dashes_to_underscores(name)),
            ],
            None => Seq::empty(),
        }
    } else if manager == "gem"@ {
        match home {
            Some(h) => if gem_available {
                seq![(true, h + "/.gem/ruby/*/gems/"@ + name + "-*"@)]
            } else {
                Seq::empty()
            },
            None => Seq::empty(),
        }
    } else if manager == "composer"@ {
        match home {
            Some(h) => seq![
                (false, h + "/.composer/vendor/"@ + name),
                (true, h + "/.composer/vendor/"@ + name),
            ],
            None => Seq::empty(),
        }
    } else if manager == "bun"@ {
        match home {
            Some(h) => seq![(false, h + "/.bun/install/global/node_modules/"@ + name)],
            None => Seq::empty(),
        }
    } else {
        Seq::empty()
    }
}

/// `name` with every `-` replaced by `_`.
fn underscored(name: &str) -> (r: String)
    ensures
        r@ == dashes_to_underscores(name@),
{
    let v = chars_of(name);
    let mut out: Vec<char> = Vec::new();
    let mut i: usize = 0;
    while i < v.len()
        invariant
            i <= v.len(),
            out@ == dashes_to_underscores(v@).take(i as int),
        decreases v.len() - i,
    {
        let c = if v[i] == '-' { '_' } else { v[i] };
        out.push(c);
        i = i + 1;
        assert(out@ =~= dashes_to_underscores(v@).take(i as int));
    }
    assert(out@ =~= dashes_to_underscores(v@));
    string_of(&out)
}

/// The places to measure for a package, in the order they are tried.
pub fn size_probes(manager: &str, name: &str, env: &SizeEnv) -> (r: Vec<SizeProbe>)
    ensures
        r@.map_values(|p: SizeProbe| probe_view(p)) == size_probes_spec(
            manager@,
            name@,
            text_of(env.home),
            text_of(env.npm_root),
            text_of(env.site_packages),
            env.gem_available,
        ),
{
    let mut r: Vec<SizeProbe> = Vec::new();
    if str_is(manager, "npm") {
        match &env.npm_root {
            Some(root) => {
                let mut p = string_of(&trim_vec(&chars_of(root.as_str())));
                push_str(&mut p, "/");
                push_str(&mut p, name);
                r.push(SizeProbe::Dir(p));
            },
            None => {},
        }
    } else if str_is(manager, "brew") {
        let mut a = String::from_str("/opt/homebrew/Cellar/");
        push_str(&mut a, name);
        let mut b = String::from_str("/usr/local/Cellar/");
        push_str(&mut b, name);
        r.push(SizeProbe::Dir(a));
        r.push(SizeProbe::Dir(b));
    } else if str_is(manager, "cargo") {
        match &env.home {
            Some(h) => {
                let mut p = h.clone();
                push_str(&mut p, "/.cargo/registry/src/*/");
                push_str(&mut p, name);
                push_str(&mut p, "-*");
                r.push(SizeProbe::Glob(p));
            },
            None => {},
        }
    } else if str_is(manager, "pip") {
        match &env.site_packages {
            Some(site) => {
                let s = string_of(&trim_vec(&chars_of(site.as_str())));
                let mut a = s.clone();
                push_str(&mut a, "/");
                push_str(&mut a, name);
                let mut b = s.clone();
                push_str(&mut b, "/");
                let u = underscored(name);
                push_str(&mut b, u.as_str());
                r.push(SizeProbe::Dir(a));
                r.push(SizeProbe::Dir(b));
            },
            None => {},
        }
    } else if str_is(manager, "gem") {
        match &env.home {
            Some(h) => {
                if env.gem_available {
                    let mut p = h.clone();
                    push_str(&mut p, "/.gem/ruby/*/gems/");
                    push_str(&mut p, name);
                    push_str(&mut p, "-*");
                    r.push(SizeProbe::Glob(p));
                }
            },
            None => {},
        }
    } else if str_is(manager, "composer") {
        match &env.home {
            Some(h) => {
                let mut p = h.clone();
                push_str(&mut p, "/.composer/vendor/");
                push_str(&mut p, name);
                let g = p.clone();
                r.push(SizeProbe::Dir(p));
                r.push(SizeProbe::Glob(g));
            },
            None => {},
        }
    } else if str_is(manager, "bun") {
        match &env.home {
            Some(h) => {
                let mut p = h.clone();
                push_str(&mut p, "/.bun/install/global/node_modules/");
                push_str(&mut p, name);
                r.push(SizeProbe::Dir(p));
            },
            None => {},
        }
    }
    assert(r@.map_values(|p: SizeProbe| probe_view(p)) =~= size_probes_spec(
        manager@,
        name@,
        text_of(env.home),
        text_of(env.npm_root),
        text_of(env.site_packages),
        env.gem_available,
    ));
    r
}

} // verus!
