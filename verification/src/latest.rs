//! Latest published versions: where to ask, how to read the answers, and a
//! cache of fresh answers.
//!
//! Each `LatestSource` has its own extractor, because the formats differ (JSON
//! arrays, the Rust channel TOML, GitHub release JSON, objects keyed by
//! version). Answers are cached for an hour.
use std::cmp::Ordering;

use vstd::prelude::*;

use crate::json::{
    as_str, follow_pointer, get_member, json_document, member, parse_json_document, step, string_value, JsonValue,
};
use crate::text::{
    chars_of, find_char, first_index, has_char, has_prefix, lines, lines_vec, parse_u64_vec,
    parse_unsigned, push_str, slice_of, split, split_vec, starts_with_vec, str_is, string_of,
    trim, trim_start_char, trim_start_char_vec, trim_start_seq, trim_start_seq_vec, trim_vec,
    views,
};
use crate::types::{opt_view, string_views, DefinitionView, LatestSource, LatestView, ToolDefinition};

verus! {

/// How long a cached answer stays fresh, in milliseconds (one hour).
pub const CACHE_TTL_MS: u64 = 3_600_000;

/// What the cache holds: for each tool name, the latest version and the
/// monotonic time (milliseconds) at which it was fetched.
pub open spec fn cache_map(e: Seq<(String, String, u64)>) -> Map<Seq<char>, (Seq<char>, u64)>
    decreases e.len(),
{
    if e.len() == 0 {
        Map::empty()
    } else {
        cache_map(e.drop_last()).insert(e.last().0@, (e.last().1@, e.last().2))
    }
}

/// Milliseconds from `at` to `now`, zero when `now` is earlier.
pub open spec fn age(at: u64, now: u64) -> nat {
    if now >= at {
        (now - at) as nat
    } else {
        0
    }
}

/// The fresh cached value for `name` at `now`, if any.
pub open spec fn cache_lookup(m: Map<Seq<char>, (Seq<char>, u64)>, name: Seq<char>, now: u64) -> Option<
    Seq<char>,
> {
    if m.contains_key(name) && age(m[name].1, now) < CACHE_TTL_MS {
        Some(m[name].0)
    } else {
        None
    }
}

/// In-memory TTL cache mapping a tool name to its latest version.
#[derive(Clone, Debug)]
pub struct LatestCache {
    entries: Vec<(String, String, u64)>,
}

impl View for LatestCache {
    type V = Map<Seq<char>, (Seq<char>, u64)>;

    closed spec fn view(&self) -> Map<Seq<char>, (Seq<char>, u64)> {
        cache_map(self.entries@)
    }
}

/// Entries after position `j` that are not named `n` do not change what the
/// cache holds for `n`.
proof fn lemma_cache_suffix(e: Seq<(String, String, u64)>, n: Seq<char>, j: int)
    requires
        0 <= j <= e.len(),
        forall|k: int| j <= k < e.len() ==> (#[trigger] e[k]).0@ != n,
    ensures
        cache_map(e).contains_key(n) == cache_map(e.take(j)).contains_key(n),
        cache_map(e).contains_key(n) ==> cache_map(e)[n] == cache_map(e.take(j))[n],
    decreases e.len() - j,
{
    if j < e.len() {
        assert(e.last().0@ != n);
        lemma_cache_suffix(e.drop_last(), n, j);
        assert(e.drop_last().take(j) =~= e.take(j));
    } else {
        assert(e.take(j) =~= e);
    }
}

/// Dropping the entries named `n` forgets `n` and keeps every other name.
pub open spec fn without_name(e: Seq<(String, String, u64)>, n: Seq<char>) -> Seq<(String, String, u64)>
    decreases e.len(),
{
    if e.len() == 0 {
        e
    } else {
        let init = without_name(e.drop_last(), n);
        if e.last().0@ == n {
            init
        } else {
            init.push(e.last())
        }
    }
}

proof fn lemma_without_name(e: Seq<(String, String, u64)>, n: Seq<char>)
    ensures
        cache_map(without_name(e, n)) == cache_map(e).remove(n),
    decreases e.len(),
{
    if e.len() > 0 {
        lemma_without_name(e.drop_last(), n);
        let init = without_name(e.drop_last(), n);
        if e.last().0@ == n {
            assert(cache_map(e).remove(n) =~= cache_map(e.drop_last()).remove(n));
        } else {
            assert(init.push(e.last()).drop_last() =~= init);
            assert(cache_map(init.push(e.last())) =~= cache_map(e).remove(n));
        }
    } else {
        assert(cache_map(e).remove(n) =~= cache_map(e));
    }
}

impl LatestCache {
    /// An empty cache.
    pub fn new() -> (r: LatestCache)
        ensures
            r@ == Map::<Seq<char>, (Seq<char>, u64)>::empty(),
    {
        LatestCache { entries: Vec::new() }
    }

    /// Return the cached value for `name` if it was fetched less than an hour
    /// before `now` (monotonic milliseconds).
    pub fn get(&self, name: &str, now: u64) -> (r: Option<String>)
        ensures
            opt_view(r) == cache_lookup(self@, name@, now),
    {
        let mut j: usize = self.entries.len();
        while j > 0
            invariant
                j <= self.entries@.len(),
                forall|k: int| j <= k < self.entries@.len() ==> (#[trigger] self.entries@[k]).0@ != name@,
            decreases j,
        {
            let entry = &self.entries[j - 1];
            if str_is(entry.0.as_str(), name) {
                proof {
                    lemma_cache_suffix(self.entries@, name@, j as int);
                    assert(self.entries@.take(j as int).drop_last() =~= self.entries@.take(j - 1));
                }
                let at = entry.2;
                let fresh = if now >= at { now - at < CACHE_TTL_MS } else { true };
                if fresh {
                    return Some(entry.1.clone());
                } else {
                    return None;
                }
            }
            j = j - 1;
        }
        proof {
            lemma_cache_suffix(self.entries@, name@, 0);
        }
        None
    }

    /// Remember `value` as the latest version of `name`, fetched at `now`.
    pub fn put(&mut self, name: &str, value: String, now: u64)
        ensures
            final(self)@ == old(self)@.insert(name@, (value@, now)),
    {
        let ghost e = self.entries@;
        let mut kept: Vec<(String, String, u64)> = Vec::new();
        let mut old_entries: Vec<(String, String, u64)> = Vec::new();
        std::mem::swap(&mut old_entries, &mut self.entries);
        let mut i: usize = 0;
        proof {
            assert(e.take(0) =~= Seq::<(String, String, u64)>::empty());
        }
        while i < old_entries.len()
            invariant
                old_entries@ == e,
                i <= e.len(),
                kept@ == without_name(e.take(i as int), name@),
            decreases e.len() - i,
        {
            proof {
                assert(e.take(i + 1).drop_last() =~= e.take(i as int));
            }
            if !str_is(old_entries[i].0.as_str(), name) {
                let entry = (old_entries[i].0.clone(), old_entries[i].1.clone(), old_entries[i].2);
                kept.push(entry);
            }
            i = i + 1;
        }
        proof {
            assert(e.take(e.len() as int) =~= e);
            lemma_without_name(e, name@);
        }
        let entry = (String::from_str(name), value, now);
        kept.push(entry);
        proof {
            assert(kept@.drop_last() == without_name(e, name@));
            assert(cache_map(kept@) =~= cache_map(e).insert(name@, (entry.1@, now)));
        }
        self.entries = kept;
    }
}

/// Read after write: right after `put`, `get` for the same name gives the
/// value back while it is fresh.
pub proof fn lemma_get_after_put(
    m: Map<Seq<char>, (Seq<char>, u64)>,
    name: Seq<char>,
    value: Seq<char>,
    at: u64,
    now: u64,
)
    requires
        age(at, now) < CACHE_TTL_MS,
    ensures
        cache_lookup(m.insert(name, (value, at)), name, now) == Some(value),
{
}

/// A `put` leaves the other names as they were.
pub proof fn lemma_put_keeps_others(
    m: Map<Seq<char>, (Seq<char>, u64)>,
    name: Seq<char>,
    other: Seq<char>,
    value: Seq<char>,
    at: u64,
    now: u64,
)
    requires
        name != other,
    ensures
        cache_lookup(m.insert(name, (value, at)), other, now) == cache_lookup(m, other, now),
{
}

/// Stale answers are not served: an hour after it was fetched, a value is
/// gone from `get`.
pub proof fn lemma_stale_not_served(m: Map<Seq<char>, (Seq<char>, u64)>, name: Seq<char>, now: u64)
    requires
        m.contains_key(name),
        age(m[name].1, now) >= CACHE_TTL_MS,
    ensures
        cache_lookup(m, name, now) is None,
{
}

/// The Rust version named by one line of the channel TOML, e.g.
/// `rust_version = "1.88.0"`: the text between the first two quotes after a
/// leading `rust_version`.
pub open spec fn rust_version_in_line(line: Seq<char>) -> Option<Seq<char>> {
    let t = trim(line);
    if has_prefix(t, "rust_version"@) {
        let rest = t.skip("rust_version"@.len() as int);
        if has_char(rest, '"') {
            let after = rest.skip(first_index(rest, '"') + 1);
            if has_char(after, '"') {
                Some(after.take(first_index(after, '"')))
            } else {
                None
            }
        } else {
            None
        }
    } else {
        None
    }
}

/// The Rust version named by the first line that names one.
pub open spec fn rust_version_in_lines(ls: Seq<Seq<char>>) -> Option<Seq<char>>
    decreases ls.len(),
{
    if ls.len() == 0 {
        None
    } else {
        match rust_version_in_line(ls[0]) {
            Some(v) => Some(v),
            None => rust_version_in_lines(ls.drop_first()),
        }
    }
}

/// The Rust version named by one line.
fn rust_version_line(line: &Vec<char>) -> (r: Option<Vec<char>>)
    ensures
        match r {
            Some(v) => rust_version_in_line(line@) == Some(v@),
            None => rust_version_in_line(line@) is None,
        },
{
    let t = trim_vec(line);
    let key = chars_of("rust_version");
    if !starts_with_vec(&t, &key) {
        return None;
    }
    let rest = slice_of(&t, key.len(), t.len());
    assert(rest@ =~= t@.skip("rust_version"@.len() as int));
    match find_char(&rest, '"') {
        None => None,
        Some(q) => {
            let after = slice_of(&rest, q + 1, rest.len());
            assert(after@ =~= rest@.skip(q + 1));
            match find_char(&after, '"') {
                None => None,
                Some(end) => {
                    let v = slice_of(&after, 0, end);
                    assert(v@ =~= after@.take(end as int));
                    Some(v)
                },
            }
        },
    }
}

/// Pull the stable Rust version out of the channel TOML.
///
/// The file contains a line like `rust_version = "1.88.0"`.
pub fn extract_rust_version(body: &str) -> (r: Option<String>)
    ensures
        opt_view(r) == rust_version_in_lines(lines(body@)),
{
    let ls = lines_vec(&chars_of(body));
    let ghost all = views(ls@);
    let mut i: usize = 0;
    proof {
        assert(all.skip(0) =~= all);
    }
    while i < ls.len()
        invariant
            all == views(ls@),
            all == lines(body@),
            i <= ls.len(),
            rust_version_in_lines(all) == rust_version_in_lines(all.skip(i as int)),
        decreases ls.len() - i,
    {
        proof {
            assert(all.skip(i as int)[0] == ls@[i as int]@);
            assert(all.skip(i as int).drop_first() =~= all.skip(i + 1));
        }
        match rust_version_line(&ls[i]) {
            Some(v) => {
                return Some(string_of(&v));
            },
            None => {},
        }
        i = i + 1;
    }
    None
}

/// The version named at the end of a JSON pointer, without leading `v`s;
/// `None` for an empty pointer or one that leads to no string.
pub open spec fn json_pointer_version(value: JsonValue, pointer: Seq<Seq<char>>) -> Option<Seq<char>> {
    if pointer.len() == 0 {
        None
    } else {
        match follow_pointer(value, pointer) {
            Some(leaf) => match string_value(leaf) {
                Some(s) => Some(trim_start_char(s, 'v')),
                None => None,
            },
            None => None,
        }
    }
}

/// Walk a JSON pointer path (`["0", "version"]`) to a leaf string.
pub fn extract_json(value: &JsonValue, pointer: &Vec<String>) -> (r: Option<String>)
    ensures
        opt_view(r) == json_pointer_version(*value, string_views(pointer@)),
{
    if pointer.len() == 0 {
        return None;
    }
    let ghost keys = string_views(pointer@);
    let mut cur = value;
    let mut i: usize = 0;
    proof {
        assert(keys.skip(0) =~= keys);
    }
    while i < pointer.len()
        invariant
            keys == string_views(pointer@),
            i <= pointer.len(),
            follow_pointer(*value, keys) == follow_pointer(*cur, keys.skip(i as int)),
        decreases pointer.len() - i,
    {
        proof {
            assert(keys.skip(i as int)[0] == pointer@[i as int]@);
            assert(keys.skip(i as int).drop_first() =~= keys.skip(i + 1));
        }
        match step(cur, pointer[i].as_str()) {
            Some(next) => {
                cur = next;
            },
            None => {
                return None;
            },
        }
        i = i + 1;
    }
    proof {
        assert(keys.skip(i as int).len() == 0);
    }
    match as_str(cur) {
        Some(s) => {
            let t = trim_start_char_vec(&chars_of(s), 'v');
            Some(string_of(&t))
        },
        None => None,
    }
}

/// How two versions compare, component by component.
#[derive(Clone, Copy, Debug, PartialEq, Eq, Structural)]
pub enum VersionOrder {
    Less,
    Equal,
    Greater,
}

/// The numeric components among `parts`, in order; the others are skipped.
pub open spec fn numeric_parts(parts: Seq<Seq<char>>) -> Seq<nat>
    decreases parts.len(),
{
    if parts.len() == 0 {
        Seq::empty()
    } else {
        let init = numeric_parts(parts.drop_last());
        match parse_unsigned(parts.last(), u64::MAX as nat) {
            Some(n) => init.push(n),
            None => init,
        }
    }
}

/// Component `i`, zero past the end.
pub open spec fn number_at(v: Seq<nat>, i: int) -> nat {
    if 0 <= i < v.len() {
        v[i]
    } else {
        0
    }
}

/// Lexicographic order of the components from `i` on (of `n` in all).
pub open spec fn order_from(a: Seq<nat>, b: Seq<nat>, i: nat, n: nat) -> VersionOrder
    decreases n - i,
{
    if i >= n {
        VersionOrder::Equal
    } else if number_at(a, i as int) < number_at(b, i as int) {
        VersionOrder::Less
    } else if number_at(a, i as int) > number_at(b, i as int) {
        VersionOrder::Greater
    } else {
        order_from(a, b, i + 1, n)
    }
}

/// How two dotted versions compare: their numeric components, in order and
/// padded with zeros, compared lexicographically.
pub open spec fn version_order_spec(a: Seq<char>, b: Seq<char>) -> VersionOrder {
    let av = numeric_parts(split(a, '.'));
    let bv = numeric_parts(split(b, '.'));
    order_from(av, bv, 0, if av.len() >= bv.len() { av.len() } else { bv.len() })
}

/// The numeric components of a version string.
fn numbers_of(s: &str) -> (r: Vec<u64>)
    ensures
        r@.map_values(|x: u64| x as nat) == numeric_parts(split(s@, '.')),
{
    let parts = split_vec(&chars_of(s), '.');
    let ghost ps = views(parts@);
    let mut out: Vec<u64> = Vec::new();
    let mut i: usize = 0;
    proof {
        assert(ps.take(0) =~= Seq::<Seq<char>>::empty());
        assert(out@.map_values(|x: u64| x as nat) =~= Seq::<nat>::empty());
    }
    while i < parts.len()
        invariant
            ps == views(parts@),
            ps == split(s@, '.'),
            i <= parts.len(),
            out@.map_values(|x: u64| x as nat) == numeric_parts(ps.take(i as int)),
        decreases parts.len() - i,
    {
        proof {
            assert(ps.take(i + 1).drop_last() =~= ps.take(i as int));
            assert(ps.take(i + 1).last() == parts@[i as int]@);
        }
        match parse_u64_vec(&parts[i]) {
            Some(n) => {
                proof {
                    assert(out@.push(n).map_values(|x: u64| x as nat) =~= out@.map_values(
                        |x: u64| x as nat,
                    ).push(n as nat));
                }
                out.push(n);
            },
            None => {},
        }
        i = i + 1;
    }
    proof {
        assert(ps.take(parts.len() as int) =~= ps);
    }
    out
}

/// Compare two dotted versions numerically.
pub fn version_order(a: &str, b: &str) -> (r: VersionOrder)
    ensures
        r == version_order_spec(a@, b@),
{
    let av = numbers_of(a);
    let bv = numbers_of(b);
    let ghost sa = av@.map_values(|x: u64| x as nat);
    let ghost sb = bv@.map_values(|x: u64| x as nat);
    let n: usize = if av.len() >= bv.len() { av.len() } else { bv.len() };
    let mut i: usize = 0;
    while i < n
        invariant
            sa == av@.map_values(|x: u64| x as nat),
            sb == bv@.map_values(|x: u64| x as nat),
            n as nat == (if sa.len() >= sb.len() { sa.len() } else { sb.len() }),
            i <= n,
            version_order_spec(a@, b@) == order_from(sa, sb, i as nat, n as nat),
        decreases n - i,
    {
        let x: u64 = if i < av.len() { av[i] } else { 0 };
        let y: u64 = if i < bv.len() { bv[i] } else { 0 };
        proof {
            assert(x as nat == number_at(sa, i as int));
            assert(y as nat == number_at(sb, i as int));
        }
        if x < y {
            return VersionOrder::Less;
        }
        if x > y {
            return VersionOrder::Greater;
        }
        i = i + 1;
    }
    VersionOrder::Equal
}

/// The opposite order.
pub open spec fn reversed(o: VersionOrder) -> VersionOrder {
    match o {
        VersionOrder::Less => VersionOrder::Greater,
        VersionOrder::Equal => VersionOrder::Equal,
        VersionOrder::Greater => VersionOrder::Less,
    }
}

proof fn lemma_order_from_reverses(a: Seq<nat>, b: Seq<nat>, i: nat, n: nat)
    ensures
        order_from(b, a, i, n) == reversed(order_from(a, b, i, n)),
        order_from(a, a, i, n) == VersionOrder::Equal,
    decreases n - i,
{
    if i < n {
        lemma_order_from_reverses(a, b, i + 1, n);
    }
}

/// Version comparison is antisymmetric and reflexive: swapping the versions
/// reverses the order, and a version is equal to itself.
pub proof fn lemma_version_order_antisymmetric(a: Seq<char>, b: Seq<char>)
    ensures
        version_order_spec(b, a) == reversed(version_order_spec(a, b)),
        version_order_spec(a, a) == VersionOrder::Equal,
{
    let av = numeric_parts(split(a, '.'));
    let bv = numeric_parts(split(b, '.'));
    let n = if av.len() >= bv.len() { av.len() } else { bv.len() };
    lemma_order_from_reverses(av, bv, 0, n);
    lemma_order_from_reverses(av, av, 0, av.len());
}

/// Past the last component of both versions the order is settled: equal.
proof fn lemma_order_from_tail(a: Seq<nat>, b: Seq<nat>, i: nat, n: nat)
    requires
        i >= a.len(),
        i >= b.len(),
    ensures
        order_from(a, b, i, n) == VersionOrder::Equal,
    decreases n - i,
{
    if i < n {
        lemma_order_from_tail(a, b, i + 1, n);
    }
}

/// Padding with more zero components does not change the order.
proof fn lemma_order_from_extend(a: Seq<nat>, b: Seq<nat>, i: nat, m: nat, n: nat)
    requires
        i <= m <= n,
        m >= a.len(),
        m >= b.len(),
    ensures
        order_from(a, b, i, n) == order_from(a, b, i, m),
    decreases m - i,
{
    if i < m {
        lemma_order_from_extend(a, b, i + 1, m, n);
    } else {
        lemma_order_from_tail(a, b, i, n);
    }
}

/// The order over a common number of components is transitive.
proof fn lemma_order_from_transitive(a: Seq<nat>, b: Seq<nat>, c: Seq<nat>, i: nat, n: nat)
    requires
        order_from(a, b, i, n) != VersionOrder::Greater,
        order_from(b, c, i, n) != VersionOrder::Greater,
    ensures
        order_from(a, c, i, n) != VersionOrder::Greater,
    decreases n - i,
{
    if i < n && number_at(a, i as int) == number_at(b, i as int) && number_at(b, i as int) == number_at(
        c,
        i as int,
    ) {
        lemma_order_from_transitive(a, b, c, i + 1, n);
    }
}

/// The order of two versions, read over `n` components for any `n` that
/// covers both.
proof fn lemma_version_order_over(a: Seq<char>, b: Seq<char>, n: nat)
    requires
        n >= numeric_parts(split(a, '.')).len(),
        n >= numeric_parts(split(b, '.')).len(),
    ensures
        version_order_spec(a, b) == order_from(
            numeric_parts(split(a, '.')),
            numeric_parts(split(b, '.')),
            0,
            n,
        ),
{
    let av = numeric_parts(split(a, '.'));
    let bv = numeric_parts(split(b, '.'));
    let m = if av.len() >= bv.len() { av.len() } else { bv.len() };
    lemma_order_from_extend(av, bv, 0, m, n);
}

/// Version comparison is transitive: a version not newer than a second one,
/// which is not newer than a third, is not newer than the third.
pub proof fn lemma_version_order_transitive(a: Seq<char>, b: Seq<char>, c: Seq<char>)
    requires
        version_order_spec(a, b) != VersionOrder::Greater,
        version_order_spec(b, c) != VersionOrder::Greater,
    ensures
        version_order_spec(a, c) != VersionOrder::Greater,
{
    let av = numeric_parts(split(a, '.'));
    let bv = numeric_parts(split(b, '.'));
    let cv = numeric_parts(split(c, '.'));
    let n0 = if av.len() >= bv.len() { av.len() } else { bv.len() };
    let n = if n0 >= cv.len() { n0 } else { cv.len() };
    lemma_version_order_over(a, b, n);
    lemma_version_order_over(b, c, n);
    lemma_version_order_over(a, c, n);
    lemma_order_from_transitive(av, bv, cv, 0, n);
}

/// The newest key is one of the keys, and no key is newer than it.
pub proof fn lemma_newest_key(keys: Seq<Seq<char>>)
    ensures
        match newest_key(keys) {
            Some(r) => keys.contains(r) && forall|k: int|
                0 <= k < keys.len() ==> version_order_spec(#[trigger] keys[k], r) != VersionOrder::Greater,
            None => keys.len() == 0,
        },
    decreases keys.len(),
{
    if keys.len() > 0 {
        let init = keys.drop_last();
        lemma_newest_key(init);
        let last = keys.last();
        assert(keys[keys.len() - 1] == last);
        match newest_key(init) {
            None => {
                lemma_version_order_antisymmetric(last, last);
            },
            Some(best) => {
                let j = choose|j: int| 0 <= j < init.len() && init[j] == best;
                assert(keys[j] == best);
                lemma_version_order_antisymmetric(best, last);
                if version_order_spec(best, last) == VersionOrder::Greater {
                    assert forall|k: int| 0 <= k < keys.len() implies version_order_spec(
                        #[trigger] keys[k],
                        best,
                    ) != VersionOrder::Greater by {
                        if k < init.len() {
                            assert(keys[k] == init[k]);
                        }
                    }
                } else {
                    lemma_version_order_antisymmetric(last, last);
                    assert forall|k: int| 0 <= k < keys.len() implies version_order_spec(
                        #[trigger] keys[k],
                        last,
                    ) != VersionOrder::Greater by {
                        if k < init.len() {
                            assert(keys[k] == init[k]);
                            lemma_version_order_transitive(keys[k], best, last);
                        }
                    }
                }
            },
        }
    }
}

/// The `Ordering` that a version order stands for.
pub open spec fn ordering_of(o: VersionOrder) -> Ordering {
    match o {
        VersionOrder::Less => Ordering::Less,
        VersionOrder::Equal => Ordering::Equal,
        VersionOrder::Greater => Ordering::Greater,
    }
}

/// Best-effort dotted-version comparison used to pick the newest Zig release:
/// the numeric components, padded with zeros, compared in order; other
/// components are skipped.
pub fn compare_versions(a: &str, b: &str) -> (r: Ordering)
    ensures
        r == ordering_of(version_order_spec(a@, b@)),
{
    match version_order(a, b) {
        VersionOrder::Less => Ordering::Less,
        VersionOrder::Equal => Ordering::Equal,
        VersionOrder::Greater => Ordering::Greater,
    }
}

/// The newest of `keys`, the last one among equals (`Iterator::max_by`).
pub open spec fn newest_key(keys: Seq<Seq<char>>) -> Option<Seq<char>>
    decreases keys.len(),
{
    if keys.len() == 0 {
        None
    } else {
        match newest_key(keys.drop_last()) {
            None => Some(keys.last()),
            Some(best) => if version_order_spec(best, keys.last()) == VersionOrder::Greater {
                Some(best)
            } else {
                Some(keys.last())
            },
        }
    }
}

/// The names of the members of an object other than `skip`, in order.
pub open spec fn keys_except(members: Seq<(String, JsonValue)>, skip: Seq<char>) -> Seq<Seq<char>>
    decreases members.len(),
{
    if members.len() == 0 {
        Seq::empty()
    } else {
        let init = keys_except(members.drop_last(), skip);
        if members.last().0@ == skip {
            init
        } else {
            init.push(members.last().0@)
        }
    }
}

/// What the per-tool extractors read from a document that a pointer does not
/// reach: for Zig, whose index is keyed by version, the newest key other
/// than `master`.
pub open spec fn bespoke_version(name: Seq<char>, value: JsonValue) -> Option<Seq<char>> {
    if name == "zig"@ {
        match value {
            JsonValue::Object(members) => newest_key(keys_except(members@, "master"@)),
            _ => None,
        }
    } else {
        None
    }
}

/// The newest version key of a Zig download index.
fn newest_release_key(members: &Vec<(String, JsonValue)>) -> (r: Option<String>)
    ensures
        opt_view(r) == newest_key(keys_except(members@, "master"@)),
{
    let mut best: Option<String> = None;
    let mut i: usize = 0;
    let ghost mut k: int = 0;
    proof {
        assert(members@.take(0) =~= Seq::<(String, JsonValue)>::empty());
    }
    while i < members.len()
        invariant
            k == i,
            i <= members.len(),
            opt_view(best) == newest_key(keys_except(members@.take(k), "master"@)),
        decreases members.len() - i,
    {
        let key = &members[i].0;
        proof {
            assert(members@.take(k + 1).drop_last() =~= members@.take(k));
            assert(members@.take(k + 1).last() == members@[k]);
        }
        let ghost ks = keys_except(members@.take(k), "master"@);
        if !str_is(key.as_str(), "master") {
            proof {
                assert(keys_except(members@.take(k + 1), "master"@) == ks.push(key@));
                assert(ks.push(key@).drop_last() =~= ks);
            }
            let keep_best = match &best {
                Some(b) => match compare_versions(b.as_str(), key.as_str()) {
                    Ordering::Greater => true,
                    _ => false,
                },
                None => false,
            };
            if !keep_best {
                best = Some(key.clone());
            }
        }
        i = i + 1;
        proof {
            k = k + 1;
        }
    }
    proof {
        assert(members@.take(k) =~= members@);
    }
    best
}

/// Zig's latest release is the newest of the index's keys other than
/// `master`: it is one of them, and none of them is newer.
pub proof fn lemma_zig_release_is_newest(members: Vec<(String, JsonValue)>)
    ensures
        match bespoke_version("zig"@, JsonValue::Object(members)) {
            Some(r) => keys_except(members@, "master"@).contains(r) && forall|k: int|
                0 <= k < keys_except(members@, "master"@).len() ==> version_order_spec(
                    #[trigger] keys_except(members@, "master"@)[k],
                    r,
                ) != VersionOrder::Greater,
            None => keys_except(members@, "master"@).len() == 0,
        },
{
    lemma_newest_key(keys_except(members@, "master"@));
}

/// Per-tool fallback extractors for formats that a pointer does not fit.
///
/// Zig's index.json keys versions by label; the newest key other than
/// `master` is taken. Other tools have none.
pub fn extract_bespoke_json(name: &str, value: &JsonValue) -> (r: Option<String>)
    ensures
        opt_view(r) == bespoke_version(name@, *value),
{
    if str_is(name, "zig") {
        match value {
            JsonValue::Object(members) => newest_release_key(members),
            _ => None,
        }
    } else {
        None
    }
}

/// What to fetch to learn the latest version of a tool: a URL, and whether
/// the answer is plain text (otherwise JSON).
#[derive(Clone, Debug)]
pub struct LatestRequest {
    pub url: String,
    pub as_text: bool,
}

/// The GitHub API URL of the latest release of `owner/repo`.
pub open spec fn github_release_url(repo: Seq<char>) -> Seq<char> {
    "https://api.github.com/repos/"@ + repo + "/releases/latest"@
}

/// What to fetch to learn the latest version of `def`: nothing for a tool
/// without a source; the JSON endpoint (read as text for Rust, whose channel
/// file is TOML); or the GitHub latest-release API.
pub fn latest_request(def: &ToolDefinition) -> (r: Option<LatestRequest>)
    ensures
        match def.latest@ {
            LatestView::NoLookup => r is None,
            LatestView::Json(url, _) => r matches Some(q) && q.url@ == url && q.as_text == (
            def.name@ == "rust"@),
            LatestView::GitHub(repo) => r matches Some(q) && q.url@ == github_release_url(repo)
                && !q.as_text,
        },
{
    match &def.latest {
        LatestSource::NoLookup => None,
        LatestSource::Json { url, pointer: _ } => Some(
            LatestRequest { url: url.clone(), as_text: str_is(def.name.as_str(), "rust") },
        ),
        LatestSource::GitHub { repo } => {
            let mut url = String::from_str("https://api.github.com/repos/");
            push_str(&mut url, repo.as_str());
            push_str(&mut url, "/releases/latest");
            Some(LatestRequest { url, as_text: false })
        },
    }
}

/// The latest version that a JSON answer names for a tool: through the
/// pointer of a JSON source (or the tool's own extractor when the pointer
/// reaches no string), or the `tag_name` of a GitHub release without its
/// leading `bun-v`s and then its leading `v`s.
pub open spec fn json_latest(def: DefinitionView, value: JsonValue) -> Option<Seq<char>> {
    match def.latest {
        LatestView::NoLookup => None,
        LatestView::Json(_, pointer) => match json_pointer_version(value, pointer) {
            Some(v) => Some(v),
            None => bespoke_version(def.name, value),
        },
        LatestView::GitHub(_) => match member(value, "tag_name"@) {
            Some(tag) => match string_value(tag) {
                Some(s) => Some(trim_start_char(trim_start_seq(s, "bun-v"@), 'v')),
                None => None,
            },
            None => None,
        },
    }
}

/// The latest version that a registry answer, given as its text, names for
/// `def`; `None` when the text is not JSON.
pub fn latest_from_json_text(def: &ToolDefinition, body: &str) -> (r: Option<String>)
    ensures
        opt_view(r) == match json_document(body@) {
            Some(d) => json_latest(def@, d),
            None => None,
        },
{
    match parse_json_document(body) {
        Some(v) => latest_from_json(def, &v),
        None => None,
    }
}

/// Read the latest version of `def` out of the JSON answer to its request.
pub fn latest_from_json(def: &ToolDefinition, value: &JsonValue) -> (r: Option<String>)
    ensures
        opt_view(r) == json_latest(def@, *value),
{
    match &def.latest {
        LatestSource::NoLookup => None,
        LatestSource::Json { url: _, pointer } => match extract_json(value, pointer) {
            Some(v) => Some(v),
            None => extract_bespoke_json(def.name.as_str(), value),
        },
        LatestSource::GitHub { repo: _ } => match get_member(value, "tag_name") {
            Some(tag) => match as_str(tag) {
                Some(s) => {
                    let t = trim_start_seq_vec(&chars_of(s), &chars_of("bun-v"));
                    let t = trim_start_char_vec(&t, 'v');
                    Some(string_of(&t))
                },
                None => None,
            },
            None => None,
        },
    }
}

/// Read the latest version of a tool out of a plain-text answer (the Rust
/// channel file).
pub fn latest_from_text(body: &str) -> (r: Option<String>)
    ensures
        opt_view(r) == rust_version_in_lines(lines(body@)),
{
    extract_rust_version(body)
}

} // verus!
