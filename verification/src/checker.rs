//! Version extraction from command output and version comparison.
use vstd::prelude::*;

use crate::text::{lemma_split_first, char_is_digit, chars_of, find_char, has_char, is_digit, parse_u64_vec, parse_unsigned, same_chars, slice_of, split, split_vec, string_of, has_prefix, trim_start_seq, trim_start_seq_vec, views};
use crate::text::{digits_value, push_str, str_is, unsigned_body};
use crate::types::{
    clone_opt, opt_view, status_describes, InstallationSource, ToolDefinition, ToolInstallation,
    ToolStatus, VersionParser,
};
use crate::versions::{infer_source_public, install_views, installations_from, source_of_path, InstallView};

verus! {

/// Whether `i` is the position of the first ASCII digit of `s`.
pub open spec fn is_first_digit(s: Seq<char>, i: int) -> bool {
    &&& 0 <= i < s.len()
    &&& is_digit(s[i])
    &&& forall|k: int| 0 <= k < i ==> !is_digit(#[trigger] s[k])
}

/// Whether `s` holds an ASCII digit.
pub open spec fn has_digit(s: Seq<char>) -> bool {
    exists|i: int| 0 <= i < s.len() && is_digit(#[trigger] s[i])
}

/// The position of the first ASCII digit of `s` (meaningful when `has_digit(s)`).
pub open spec fn first_digit(s: Seq<char>) -> int {
    choose|i: int| is_first_digit(s, i)
}

/// The length of the longest prefix of `t` of the form `\d*(\.\d+)*` in
/// which at most `3 - dots` dots occur: a dot is taken only when a digit
/// follows it.
pub open spec fn accepted_len(t: Seq<char>, dots: nat) -> nat
    decreases t.len(),
{
    if t.len() == 0 {
        0
    } else if is_digit(t[0]) {
        1 + accepted_len(t.drop_first(), dots)
    } else if t[0] == '.' && dots < 3 && t.len() > 1 && is_digit(t[1]) {
        1 + accepted_len(t.drop_first(), dots + 1)
    } else {
        0
    }
}

/// The first version-looking token of `s`, `\d+(\.\d+){0,3}`: from its
/// first digit, digits and at most three dots, each dot followed by a digit.
pub open spec fn version_token(s: Seq<char>) -> Option<Seq<char>> {
    if has_digit(s) {
        let st = first_digit(s);
        Some(s.subrange(st, st + accepted_len(s.skip(st), 0)))
    } else {
        None
    }
}

/// The output after the parser's prefix has been stripped.
pub open spec fn normalized_output(output: Seq<char>, parser: VersionParser) -> Seq<char> {
    match parser {
        VersionParser::StripPrefix { prefix } => trim_start_seq(output, prefix@),
        VersionParser::FirstNumeric => output,
    }
}

/// The version that `parse_version` extracts from `output`.
pub open spec fn version_of_output(output: Seq<char>, parser: VersionParser) -> Option<Seq<char>> {
    version_token(normalized_output(output, parser))
}

/// The first digit is unique.
pub proof fn lemma_first_digit(s: Seq<char>, i: int)
    requires
        is_first_digit(s, i),
    ensures
        first_digit(s) == i,
        has_digit(s),
{
    let j = first_digit(s);
    assert(is_first_digit(s, j));
    if j < i {
        assert(!is_digit(s[j]));
    }
    if i < j {
        assert(!is_digit(s[i]));
    }
}

/// The number of dots in `t`.
pub open spec fn dot_count(t: Seq<char>) -> nat
    decreases t.len(),
{
    if t.len() == 0 {
        0
    } else {
        (if t[0] == '.' { 1nat } else { 0nat }) + dot_count(t.drop_first())
    }
}

/// What a version token looks like, `\d+(\.\d+){0,3}`: it starts and ends
/// with a digit, holds only digits and dots, every dot is followed by a
/// digit, and at most three dots occur.
pub open spec fn version_shaped(t: Seq<char>) -> bool {
    &&& t.len() > 0
    &&& is_digit(t[0])
    &&& is_digit(t.last())
    &&& forall|k: int| 0 <= k < t.len() ==> is_digit(#[trigger] t[k]) || t[k] == '.'
    &&& forall|k: int| 0 <= k < t.len() && #[trigger] t[k] == '.' ==> k + 1 < t.len() && is_digit(t[k + 1])
    &&& dot_count(t) <= 3
}

/// A digit occurs, so a first one does.
proof fn lemma_first_digit_exists(s: Seq<char>, w: int)
    requires
        0 <= w < s.len(),
        is_digit(s[w]),
    ensures
        is_first_digit(s, first_digit(s)),
    decreases w,
{
    if exists|k: int| 0 <= k < w && is_digit(#[trigger] s[k]) {
        let k = choose|k: int| 0 <= k < w && is_digit(#[trigger] s[k]);
        lemma_first_digit_exists(s, k);
    } else {
        assert(is_first_digit(s, w));
    }
}

/// The accepted run holds only digits and dots, each dot followed by a
/// digit within the run, and no more dots than the budget left; it is not
/// empty when `t` starts with a digit.
proof fn lemma_accepted_run(t: Seq<char>, dots: nat)
    requires
        dots <= 3,
    ensures
        accepted_len(t, dots) <= t.len(),
        t.len() > 0 && is_digit(t[0]) ==> accepted_len(t, dots) >= 1,
        forall|k: int|
            0 <= k < accepted_len(t, dots) ==> is_digit(#[trigger] t[k]) || t[k] == '.',
        forall|k: int|
            0 <= k < accepted_len(t, dots) && #[trigger] t[k] == '.' ==> k + 1 < accepted_len(t, dots)
                && is_digit(t[k + 1]),
        dot_count(t.take(accepted_len(t, dots) as int)) + dots <= 3,
    decreases t.len(),
{
    let n = accepted_len(t, dots);
    if t.len() > 0 && (is_digit(t[0]) || (t[0] == '.' && dots < 3 && t.len() > 1 && is_digit(t[1]))) {
        let d2: nat = if is_digit(t[0]) { dots } else { dots + 1 };
        let rest = t.drop_first();
        lemma_accepted_run(rest, d2);
        assert(t.take(n as int).drop_first() =~= rest.take(n - 1));
        if !is_digit(t[0]) {
            assert(rest[0] == t[1]);
        }
        assert forall|k: int| 0 <= k < n implies is_digit(#[trigger] t[k]) || t[k] == '.' by {
            if k > 0 {
                assert(t[k] == rest[k - 1]);
            }
        }
        assert forall|k: int| 0 <= k < n && #[trigger] t[k] == '.' implies k + 1 < n && is_digit(t[k + 1]) by {
            if k > 0 {
                assert(t[k] == rest[k - 1]);
                assert(t[k + 1] == rest[k]);
            }
        }
    } else {
        assert(t.take(0) =~= Seq::<char>::empty());
    }
}

/// Every version read from command output has the shape of a version,
/// `\d+(\.\d+){0,3}`.
pub proof fn lemma_version_shape(output: Seq<char>, parser: VersionParser)
    ensures
        version_of_output(output, parser) matches Some(t) ==> version_shaped(t),
{
    let s = normalized_output(output, parser);
    if has_digit(s) {
        let w = choose|i: int| 0 <= i < s.len() && is_digit(#[trigger] s[i]);
        lemma_first_digit_exists(s, w);
        let st = first_digit(s);
        let t = s.skip(st);
        lemma_accepted_run(t, 0);
        let n = accepted_len(t, 0);
        assert(is_digit(t[0]));
        let r = s.subrange(st, st + n);
        assert(r =~= t.take(n as int));
        assert forall|k: int| 0 <= k < r.len() implies is_digit(#[trigger] r[k]) || r[k] == '.' by {
            assert(r[k] == t[k]);
        }
        assert forall|k: int| 0 <= k < r.len() && #[trigger] r[k] == '.' implies k + 1 < r.len() && is_digit(r[k + 1]) by {
            assert(r[k] == t[k]);
            assert(r[k + 1] == t[k + 1]);
        }
        assert(r.last() == t[n - 1]);
        if !is_digit(t[n - 1]) {
            assert(t[n - 1] == '.');
        }
        assert(version_shaped(r));
    }
}

/// Characters that are not digits, skipped from the front, leave the version
/// token as it was.
proof fn lemma_token_after_non_digits(s: Seq<char>, k: int)
    requires
        0 <= k <= s.len(),
        forall|i: int| 0 <= i < k ==> !is_digit(#[trigger] s[i]),
    ensures
        version_token(s.skip(k)) == version_token(s),
{
    let t = s.skip(k);
    if has_digit(s) {
        let w = choose|i: int| 0 <= i < s.len() && is_digit(#[trigger] s[i]);
        lemma_first_digit_exists(s, w);
        let st = first_digit(s);
        assert(st >= k);
        assert forall|j: int| 0 <= j < st - k implies !is_digit(#[trigger] t[j]) by {
            assert(t[j] == s[j + k]);
        }
        assert(t[st - k] == s[st]);
        lemma_first_digit(t, st - k);
        assert(t.skip(st - k) =~= s.skip(st));
        let n = accepted_len(s.skip(st), 0);
        lemma_accepted_run(s.skip(st), 0);
        assert(t.subrange(st - k, st - k + n) =~= s.subrange(st, st + n));
    } else if has_digit(t) {
        let i = choose|i: int| 0 <= i < t.len() && is_digit(#[trigger] t[i]);
        assert(s[i + k] == t[i]);
    }
}

/// Stripping a prefix in which no digit occurs changes nothing of the
/// version read: such a `StripPrefix` parser reads what `FirstNumeric` reads.
pub proof fn lemma_digit_free_prefix(output: Seq<char>, prefix: String)
    requires
        forall|i: int| 0 <= i < prefix@.len() ==> !is_digit(#[trigger] prefix@[i]),
    ensures
        version_of_output(output, VersionParser::StripPrefix { prefix }) == version_of_output(
            output,
            VersionParser::FirstNumeric,
        ),
{
    lemma_trim_keeps_token(output, prefix@);
}

/// Stripping copies of a digit-free prefix keeps the version token.
proof fn lemma_trim_keeps_token(output: Seq<char>, p: Seq<char>)
    requires
        forall|i: int| 0 <= i < p.len() ==> !is_digit(#[trigger] p[i]),
    ensures
        version_token(trim_start_seq(output, p)) == version_token(output),
    decreases output.len(),
{
    if p.len() > 0 && has_prefix(output, p) {
        lemma_trim_keeps_token(output.skip(p.len() as int), p);
        assert forall|i: int| 0 <= i < p.len() implies !is_digit(#[trigger] output[i]) by {
            assert(output.take(p.len() as int)[i] == output[i]);
        }
        lemma_token_after_non_digits(output, p.len() as int);
    }
}

/// Where the accepted run stops: at the end, or at a character that is no
/// digit and no dot that the run could take (a dot followed by a digit,
/// while fewer than three dots were taken).
proof fn lemma_accepted_stop(u: Seq<char>, d: nat)
    ensures
        ({
            let n = accepted_len(u, d) as int;
            n == u.len() || (!is_digit(u[n]) && !(u[n] == '.' && d + dot_count(u.take(n)) < 3 && n + 1
                < u.len() && is_digit(u[n + 1])))
        }),
        accepted_len(u, d) <= u.len(),
    decreases u.len(),
{
    let n = accepted_len(u, d) as int;
    if u.len() > 0 {
        let df = u.drop_first();
        if is_digit(u[0]) {
            lemma_accepted_stop(df, d);
            assert(u.take(n).drop_first() =~= df.take(n - 1));
            assert(u.take(n)[0] == u[0]);
            if n < u.len() {
                assert(u[n] == df[n - 1]);
                if n + 1 < u.len() {
                    assert(u[n + 1] == df[n]);
                }
            }
        } else if u[0] == '.' && d < 3 && u.len() > 1 && is_digit(u[1]) {
            lemma_accepted_stop(df, d + 1);
            assert(u.take(n).drop_first() =~= df.take(n - 1));
            assert(u.take(n)[0] == u[0]);
            if n < u.len() {
                assert(u[n] == df[n - 1]);
                if n + 1 < u.len() {
                    assert(u[n + 1] == df[n]);
                }
            }
        } else {
            assert(u.take(0) =~= Seq::<char>::empty());
        }
    }
}

/// The version token of `s` is found exactly when `s` holds a digit; it is
/// the text from the first digit on, as long as digits continue, each dot
/// followed by a digit, at most three dots: it stops at the end, or where
/// neither a digit nor such a dot follows.
pub proof fn lemma_version_token_position(s: Seq<char>)
    ensures
        version_token(s) is Some <==> exists|i: int| 0 <= i < s.len() && is_digit(#[trigger] s[i]),
        version_token(s) matches Some(t) ==> exists|f: int|
            #![trigger is_first_digit(s, f)]
            is_first_digit(s, f) && t == s.subrange(f, f + t.len()) && (f + t.len() == s.len() || (!is_digit(
                s[f + t.len()],
            ) && !(s[f + t.len()] == '.' && dot_count(t) < 3 && f + t.len() + 1 < s.len() && is_digit(
                s[f + t.len() + 1],
            )))),
{
    if has_digit(s) {
        let w = choose|i: int| 0 <= i < s.len() && is_digit(#[trigger] s[i]);
        lemma_first_digit_exists(s, w);
        let f = first_digit(s);
        let u = s.skip(f);
        lemma_accepted_stop(u, 0);
        let n = accepted_len(u, 0) as int;
        let t = s.subrange(f, f + n);
        assert(t =~= u.take(n));
        if n < u.len() {
            assert(s[f + n] == u[n]);
            if n + 1 < u.len() {
                assert(s[f + n + 1] == u[n + 1]);
            }
        }
        assert(is_first_digit(s, f));
    }
}

/// The first version-looking token of a character buffer.
pub fn version_token_vec(s: &Vec<char>) -> (r: Option<Vec<char>>)
    ensures
        match r {
            Some(v) => version_token(s@) == Some(v@),
            None => version_token(s@) is None,
        },
{
    let mut start: usize = 0;
    while start < s.len() && !char_is_digit(s[start])
        invariant
            start <= s.len(),
            forall|k: int| 0 <= k < start ==> !is_digit(#[trigger] s@[k]),
        decreases s.len() - start,
    {
        start = start + 1;
    }
    if start == s.len() {
        proof {
            assert forall|k: int| 0 <= k < s@.len() implies !is_digit(#[trigger] s@[k]) by {}
        }
        return None;
    }
    proof {
        lemma_first_digit(s@, start as int);
    }
    let mut i: usize = start;
    let mut dots: usize = 0;
    proof {
        assert(s@.skip(start as int) == s@.skip(i as int));
    }
    while i < s.len() && (char_is_digit(s[i]) || (s[i] == '.' && dots < 3 && i + 1 < s.len()
        && char_is_digit(s[i + 1])))
        invariant
            start <= i <= s.len(),
            dots <= 3,
            accepted_len(s@.skip(start as int), 0) == (i - start) + accepted_len(
                s@.skip(i as int),
                dots as nat,
            ),
        decreases s.len() - i,
    {
        proof {
            assert(s@.skip(i as int).drop_first() =~= s@.skip(i + 1));
            assert(s@.skip(i as int)[0] == s@[i as int]);
            if i + 1 < s.len() {
                assert(s@.skip(i as int)[1] == s@[i + 1]);
            }
        }
        if !char_is_digit(s[i]) {
            dots = dots + 1;
        }
        i = i + 1;
    }
    proof {
        if i < s.len() {
            assert(s@.skip(i as int)[0] == s@[i as int]);
            if i + 1 < s.len() {
                assert(s@.skip(i as int)[1] == s@[i + 1]);
            }
        }
        assert(accepted_len(s@.skip(i as int), dots as nat) == 0);
    }
    Some(slice_of(s, start, i))
}

/// Extract the first version-looking token from arbitrary command output.
///
/// A version-looking token starts at the first ASCII digit and runs over
/// digits and at most three dots; trailing dots are dropped. With
/// `VersionParser::StripPrefix`, the leading copies of the prefix are
/// stripped from the output first.
pub fn parse_version(output: &str, parser: &VersionParser) -> (r: Option<String>)
    ensures
        opt_view(r) == version_of_output(output@, *parser),
{
    let chars = chars_of(output);
    let normalized = match parser {
        VersionParser::StripPrefix { prefix } => trim_start_seq_vec(&chars, &chars_of(prefix.as_str())),
        VersionParser::FirstNumeric => chars,
    };
    match version_token_vec(&normalized) {
        Some(v) => Some(string_of(&v)),
        None => None,
    }
}

/// `s` without the non-digit characters at its start.
pub open spec fn skip_non_digits(s: Seq<char>) -> Seq<char>
    decreases s.len(),
{
    if s.len() > 0 && !is_digit(s[0]) {
        skip_non_digits(s.drop_first())
    } else {
        s
    }
}

/// A version string without its leading non-digit characters and without
/// anything from the first `-` on: `"v1.2.3-rc1"` gives `"1.2.3"`.
pub open spec fn stripped_version(s: Seq<char>) -> Seq<char> {
    split(skip_non_digits(s), '-')[0]
}

/// The dot-separated components of a version after stripping.
pub open spec fn version_parts(s: Seq<char>) -> Seq<Seq<char>> {
    split(stripped_version(s), '.')
}

/// Dropping leading non-digits one character at a time.
pub proof fn lemma_skip_non_digits(s: Seq<char>, i: int)
    requires
        0 <= i <= s.len(),
        forall|k: int| 0 <= k < i ==> !is_digit(#[trigger] s[k]),
    ensures
        skip_non_digits(s) == skip_non_digits(s.skip(i)),
    decreases i,
{
    if i > 0 {
        assert(!is_digit(s[0]));
        lemma_skip_non_digits(s.drop_first(), i - 1);
        assert(s.drop_first().skip(i - 1) =~= s.skip(i));
    } else {
        assert(s.skip(0) =~= s);
    }
}

/// Drop any leading non-numeric characters and any pre-release suffix:
/// `"v1.2.3-rc1"` gives `"1.2.3"`, `"python 3.9.12"` gives `"3.9.12"`.
fn strip_version_prefix(s: &Vec<char>) -> (r: Vec<char>)
    ensures
        r@ == stripped_version(s@),
{
    let mut i: usize = 0;
    while i < s.len() && !char_is_digit(s[i])
        invariant
            i <= s.len(),
            forall|k: int| 0 <= k < i ==> !is_digit(#[trigger] s@[k]),
        decreases s.len() - i,
    {
        i = i + 1;
    }
    let t = slice_of(s, i, s.len());
    proof {
        lemma_skip_non_digits(s@, i as int);
        assert(t@ =~= s@.skip(i as int));
        if i < s.len() {
            assert(t@[0] == s@[i as int]);
        }
        assert(skip_non_digits(t@) == t@);
    }
    match find_char(&t, '-') {
        Some(j) => {
            proof {
                lemma_split_first(t@, '-', j as int);
            }
            let r = slice_of(&t, 0, j);
            assert(r@ =~= t@.take(j as int));
            r
        },
        None => {
            proof {
                assert forall|k: int| 0 <= k < t@.len() implies #[trigger] t@[k] != '-' by {
                    if t@[k] == '-' {
                        assert(has_char(t@, '-'));
                    }
                }
                lemma_split_first(t@, '-', t@.len() as int);
                assert(t@.take(t@.len() as int) =~= t@);
            }
            t
        },
    }
}

/// Lexicographic order of character sequences (the order of `<` on `str`).
pub open spec fn lex_lt(x: Seq<char>, y: Seq<char>) -> bool
    decreases x.len(),
{
    if x.len() == 0 {
        y.len() > 0
    } else if y.len() == 0 {
        false
    } else if x[0] != y[0] {
        (x[0] as u32) < (y[0] as u32)
    } else {
        lex_lt(x.drop_first(), y.drop_first())
    }
}

/// What `str::parse::<u64>` gives for `s`.
pub open spec fn parse_u64_spec(s: Seq<char>) -> Option<nat> {
    parse_unsigned(s, u64::MAX as nat)
}

/// How two version components compare: `Some(true)` when `x` is older,
/// `Some(false)` when it is newer, `None` when they count as equal. Two
/// numeric components compare as numbers, any other pair as text.
pub open spec fn part_order(x: Seq<char>, y: Seq<char>) -> Option<bool> {
    match (parse_u64_spec(x), parse_u64_spec(y)) {
        (Some(a), Some(b)) => if a != b {
            Some(a < b)
        } else {
            None
        },
        _ => if x != y {
            Some(lex_lt(x, y))
        } else {
            None
        },
    }
}

/// Component `i` of a version, `"0"` past its end.
pub open spec fn version_part(parts: Seq<Seq<char>>, i: int) -> Seq<char> {
    if i < parts.len() {
        parts[i]
    } else {
        seq!['0']
    }
}

/// Whether the components from `i` on (of `n` in all) decide "older".
pub open spec fn outdated_from(a: Seq<Seq<char>>, b: Seq<Seq<char>>, i: nat, n: nat) -> bool
    decreases n - i,
{
    if i >= n {
        false
    } else {
        match part_order(version_part(a, i as int), version_part(b, i as int)) {
            Some(older) => older,
            None => outdated_from(a, b, i + 1, n),
        }
    }
}

/// The larger of two lengths.
pub open spec fn max_len(a: nat, b: nat) -> nat {
    if a >= b {
        a
    } else {
        b
    }
}

/// Whether version `installed` is strictly older than version `latest`.
pub open spec fn outdated(installed: Seq<char>, latest: Seq<char>) -> bool {
    let a = version_parts(installed);
    let b = version_parts(latest);
    outdated_from(a, b, 0, max_len(a.len(), b.len()))
}

/// From position `j` up to `i`, components that agree decide nothing.
proof fn lemma_outdated_equal_prefix(a: Seq<Seq<char>>, b: Seq<Seq<char>>, j: nat, i: nat, n: nat)
    requires
        j <= i < n,
        i <= a.len(),
        i <= b.len(),
        forall|k: int| 0 <= k < i ==> a[k] == b[k],
    ensures
        outdated_from(a, b, j, n) == outdated_from(a, b, i, n),
    decreases i - j,
{
    if j < i {
        assert(version_part(a, j as int) == version_part(b, j as int));
        assert(part_order(version_part(a, j as int), version_part(b, j as int)) is None);
        lemma_outdated_equal_prefix(a, b, j + 1, i, n);
    }
}

/// Versions are compared component by component: when the components of
/// two versions agree up to position `i` and both hold numbers at `i`
/// that differ, the installed one is outdated exactly when its number is
/// the smaller, whatever the position and whatever follows.
pub proof fn lemma_first_difference_decides(installed: Seq<char>, latest: Seq<char>, i: int, x: nat, y: nat)
    requires
        0 <= i < version_parts(installed).len(),
        i < version_parts(latest).len(),
        forall|k: int| 0 <= k < i ==> version_parts(installed)[k] == version_parts(latest)[k],
        parse_u64_spec(version_parts(installed)[i]) == Some(x),
        parse_u64_spec(version_parts(latest)[i]) == Some(y),
        x != y,
    ensures
        outdated(installed, latest) == (x < y),
{
    let a = version_parts(installed);
    let b = version_parts(latest);
    let n = max_len(a.len(), b.len());
    lemma_outdated_equal_prefix(a, b, 0, i as nat, n);
    assert(version_part(a, i) == a[i]);
    assert(version_part(b, i) == b[i]);
}

/// Components that are not both numbers compare as text: when the
/// components of two versions agree up to position `i` and differ at `i`,
/// one of them not a number, the installed one is outdated exactly when its
/// component comes first in the order of `str`.
pub proof fn lemma_first_text_difference_decides(installed: Seq<char>, latest: Seq<char>, i: int)
    requires
        0 <= i < version_parts(installed).len(),
        i < version_parts(latest).len(),
        forall|k: int| 0 <= k < i ==> version_parts(installed)[k] == version_parts(latest)[k],
        parse_u64_spec(version_parts(installed)[i]) is None || parse_u64_spec(version_parts(latest)[i]) is None,
        version_parts(installed)[i] != version_parts(latest)[i],
    ensures
        outdated(installed, latest) == lex_lt(version_parts(installed)[i], version_parts(latest)[i]),
{
    let a = version_parts(installed);
    let b = version_parts(latest);
    let n = max_len(a.len(), b.len());
    lemma_outdated_equal_prefix(a, b, 0, i as nat, n);
    assert(version_part(a, i) == a[i]);
    assert(version_part(b, i) == b[i]);
}

/// Text before the first digit of a version is ignored: `"v1.2"`,
/// `"python 1.2"` and `"1.2"` compare alike.
pub proof fn lemma_leading_text_ignored(p: Seq<char>, v: Seq<char>, other: Seq<char>)
    requires
        forall|k: int| 0 <= k < p.len() ==> !is_digit(#[trigger] p[k]),
    ensures
        version_parts(p + v) == version_parts(v),
        outdated(p + v, other) == outdated(v, other),
        outdated(other, p + v) == outdated(other, v),
{
    let s = p + v;
    assert forall|k: int| 0 <= k < p.len() implies !is_digit(#[trigger] s[k]) by {
        assert(s[k] == p[k]);
    }
    lemma_skip_non_digits(s, p.len() as int);
    assert(s.skip(p.len() as int) =~= v);
}

/// A pre-release suffix is ignored: a version that starts with a digit and
/// holds no `-` compares as itself followed by `-` and anything.
pub proof fn lemma_prerelease_ignored(v: Seq<char>, suffix: Seq<char>, other: Seq<char>)
    requires
        v.len() > 0,
        is_digit(v[0]),
        forall|k: int| 0 <= k < v.len() ==> #[trigger] v[k] != '-',
    ensures
        version_parts(v + "-"@ + suffix) == version_parts(v),
        outdated(v + "-"@ + suffix, other) == outdated(v, other),
        outdated(other, v + "-"@ + suffix) == outdated(other, v),
{
    reveal_strlit("-");
    let s = v + "-"@ + suffix;
    assert(s[0] == v[0]);
    assert(skip_non_digits(s) == s);
    assert(skip_non_digits(v) == v);
    assert forall|k: int| 0 <= k < v.len() implies #[trigger] s[k] != '-' by {
        assert(s[k] == v[k]);
    }
    assert(s[v.len() as int] == '-');
    lemma_split_first(s, '-', v.len() as int);
    lemma_split_first(v, '-', v.len() as int);
    assert(s.take(v.len() as int) =~= v);
    assert(v.take(v.len() as int) =~= v);
}

/// Splitting `v`, a separator and a piece without one adds that piece.
proof fn lemma_split_append(v: Seq<char>, c: char, d: Seq<char>)
    requires
        forall|k: int| 0 <= k < d.len() ==> #[trigger] d[k] != c,
    ensures
        split(v + seq![c] + d, c) == split(v, c).push(d),
    decreases d.len(),
{
    let s = v + seq![c] + d;
    if d.len() == 0 {
        assert(s.drop_last() =~= v);
        assert(s.last() == c);
        assert(d =~= Seq::<char>::empty());
        assert(split(s, c) == split(s.drop_last(), c).push(Seq::<char>::empty()));
    } else {
        let d0 = d.drop_last();
        assert forall|k: int| 0 <= k < d0.len() implies #[trigger] d0[k] != c by {
            assert(d0[k] == d[k]);
        }
        lemma_split_append(v, c, d0);
        assert(s.drop_last() =~= v + seq![c] + d0);
        assert(s.last() == d.last());
        assert(d.last() == d[d.len() - 1]);
        assert(d0.push(d.last()) =~= d);
        assert(s.last() != c);
        let init = split(s.drop_last(), c);
        assert(init == split(v, c).push(d0));
        assert(split(s, c) == init.update(init.len() - 1, init.last().push(s.last())));
        assert(split(s, c) =~= split(v, c).push(d));
    }
}

/// A missing component counts as zero: appending a numeric component to a
/// version makes it newer exactly when that number is not zero, and never
/// older.
pub proof fn lemma_extra_component(v: Seq<char>, d: Seq<char>, x: nat)
    requires
        v.len() > 0,
        is_digit(v[0]),
        forall|k: int| 0 <= k < v.len() ==> #[trigger] v[k] != '-',
        forall|k: int| 0 <= k < d.len() ==> #[trigger] d[k] != '-' && d[k] != '.',
        parse_u64_spec(d) == Some(x),
    ensures
        outdated(v, v + "."@ + d) == (x > 0),
        !outdated(v + "."@ + d, v),
{
    reveal_strlit(".");
    reveal_strlit("0");
    let w = v + "."@ + d;
    assert("."@ =~= seq!['.']);
    assert(w[0] == v[0]);
    assert(skip_non_digits(w) == w);
    assert(skip_non_digits(v) == v);
    assert forall|k: int| 0 <= k < w.len() implies #[trigger] w[k] != '-' by {
        if k < v.len() {
            assert(w[k] == v[k]);
        } else if k > v.len() {
            assert(w[k] == d[k - v.len() - 1]);
        }
    }
    lemma_split_first(w, '-', w.len() as int);
    lemma_split_first(v, '-', v.len() as int);
    assert(w.take(w.len() as int) =~= w);
    assert(v.take(v.len() as int) =~= v);
    assert forall|k: int| 0 <= k < d.len() implies #[trigger] d[k] != '.' by {}
    lemma_split_append(v, '.', d);
    let a = version_parts(v);
    let b = version_parts(w);
    assert(b == a.push(d));
    let m = a.len();
    let n = max_len(a.len(), b.len());
    assert(n == m + 1);
    assert forall|k: int| 0 <= k < m implies a[k] == b[k] by {}
    lemma_outdated_equal_prefix(a, b, 0, m, n);
    lemma_outdated_equal_prefix(b, a, 0, m, n);
    assert(version_part(a, m as int) == seq!['0']);
    assert(version_part(b, m as int) == d);
    assert(seq!['0'] == "0"@);
    assert(unsigned_body(seq!['0']) =~= seq!['0']);
    assert(digits_value(seq!['0']) == 0) by {
        assert(seq!['0'].drop_last() =~= Seq::<char>::empty());
        assert(seq!['0'].last() == '0');
        assert(digits_value(Seq::<char>::empty()) == 0);
    }
    assert(parse_u64_spec(seq!['0']) == Some(0nat));
    assert(max_len(b.len(), a.len()) == n);
    assert(outdated_from(a, b, m + 1, n) == false);
    assert(outdated_from(b, a, m + 1, n) == false);
    if x != 0 {
        assert(part_order(version_part(a, m as int), version_part(b, m as int)) == Some(true));
        assert(part_order(version_part(b, m as int), version_part(a, m as int)) == Some(false));
    } else {
        assert(part_order(version_part(a, m as int), version_part(b, m as int)) is None);
        assert(part_order(version_part(b, m as int), version_part(a, m as int)) is None);
    }
    assert(outdated_from(a, b, m, n) == (x > 0));
    assert(outdated_from(b, a, m, n) == false);
    assert(outdated(v, w) == outdated_from(a, b, 0, n));
    assert(outdated(w, v) == outdated_from(b, a, 0, n));
}

/// Lexicographic comparison of two character buffers.
fn lex_less(x: &Vec<char>, y: &Vec<char>) -> (r: bool)
    ensures
        r == lex_lt(x@, y@),
{
    let mut i: usize = 0;
    proof {
        assert(x@.skip(0) =~= x@);
        assert(y@.skip(0) =~= y@);
    }
    while i < x.len() && i < y.len() && x[i] == y[i]
        invariant
            i <= x.len(),
            i <= y.len(),
            lex_lt(x@, y@) == lex_lt(x@.skip(i as int), y@.skip(i as int)),
        decreases x.len() - i,
    {
        proof {
            assert(x@.skip(i as int).drop_first() =~= x@.skip(i + 1));
            assert(y@.skip(i as int).drop_first() =~= y@.skip(i + 1));
        }
        i = i + 1;
    }
    proof {
        if i < x.len() && i < y.len() {
            assert(x@.skip(i as int)[0] == x@[i as int]);
            assert(y@.skip(i as int)[0] == y@[i as int]);
        }
    }
    if i == x.len() {
        i < y.len()
    } else if i == y.len() {
        false
    } else {
        (x[i] as u32) < (y[i] as u32)
    }
}

/// How two version components compare.
fn compare_parts(x: &Vec<char>, y: &Vec<char>) -> (r: Option<bool>)
    ensures
        r == part_order(x@, y@),
{
    match (parse_u64_vec(x), parse_u64_vec(y)) {
        (Some(a), Some(b)) => {
            if a != b {
                Some(a < b)
            } else {
                None
            }
        },
        _ => {
            if !same_chars(x, y) {
                Some(lex_less(x, y))
            } else {
                None
            }
        },
    }
}

/// Compare two version strings of the form `MAJOR.MINOR[.PATCH[.BUILD]]`.
///
/// Returns `true` when `installed` is strictly older than `latest`.
/// Non-numeric components fall back to lexicographic comparison.
pub fn is_outdated(installed: &str, latest: &str) -> (r: bool)
    ensures
        r == outdated(installed@, latest@),
{
    let a = strip_version_prefix(&chars_of(installed));
    let b = strip_version_prefix(&chars_of(latest));
    let ai = split_vec(&a, '.');
    let bi = split_vec(&b, '.');
    let ghost pa = views(ai@);
    let ghost pb = views(bi@);
    let n: usize = if ai.len() >= bi.len() { ai.len() } else { bi.len() };
    let zero: Vec<char> = vec!['0'];
    proof {
        assert(zero@ =~= seq!['0']);
    }
    let mut i: usize = 0;
    while i < n
        invariant
            pa == views(ai@),
            pb == views(bi@),
            zero@ == seq!['0'],
            n == max_len(pa.len(), pb.len()),
            i <= n,
            outdated(installed@, latest@) == outdated_from(pa, pb, i as nat, n as nat),
            pa == version_parts(installed@),
            pb == version_parts(latest@),
        decreases n - i,
    {
        let x = if i < ai.len() { &ai[i] } else { &zero };
        let y = if i < bi.len() { &bi[i] } else { &zero };
        proof {
            assert(x@ == version_part(pa, i as int));
            assert(y@ == version_part(pb, i as int));
        }
        match compare_parts(x, y) {
            Some(older) => {
                return older;
            },
            None => {},
        }
        i = i + 1;
    }
    false
}

/// Component order is antisymmetric: two components never each count as
/// older than the other, and they count as equal in both directions or in
/// neither.
pub proof fn lemma_part_order_antisymmetric(x: Seq<char>, y: Seq<char>)
    ensures
        part_order(x, y) is None <==> part_order(y, x) is None,
        part_order(x, y) == Some(true) ==> part_order(y, x) == Some(false),
        part_order(x, x) is None,
{
    lemma_lex_lt_asymmetric(x, y);
}

/// `lex_lt` is asymmetric.
pub proof fn lemma_lex_lt_asymmetric(x: Seq<char>, y: Seq<char>)
    ensures
        lex_lt(x, y) ==> !lex_lt(y, x),
    decreases x.len(),
{
    if x.len() > 0 && y.len() > 0 && x[0] == y[0] {
        lemma_lex_lt_asymmetric(x.drop_first(), y.drop_first());
    }
}

/// Swapping the two versions swaps the verdict of every component from `i` on.
proof fn lemma_outdated_from_asymmetric(a: Seq<Seq<char>>, b: Seq<Seq<char>>, i: nat, n: nat)
    ensures
        outdated_from(a, b, i, n) ==> !outdated_from(b, a, i, n),
    decreases n - i,
{
    if i < n {
        lemma_part_order_antisymmetric(version_part(a, i as int), version_part(b, i as int));
        lemma_outdated_from_asymmetric(a, b, i + 1, n);
    }
}

/// No version is older than itself.
proof fn lemma_outdated_from_irreflexive(a: Seq<Seq<char>>, i: nat, n: nat)
    ensures
        !outdated_from(a, a, i, n),
    decreases n - i,
{
    if i < n {
        lemma_part_order_antisymmetric(version_part(a, i as int), version_part(a, i as int));
        lemma_outdated_from_irreflexive(a, i + 1, n);
    }
}

/// A version is never outdated with respect to itself.
pub proof fn lemma_is_outdated_irreflexive(v: Seq<char>)
    ensures
        !outdated(v, v),
{
    let a = version_parts(v);
    lemma_outdated_from_irreflexive(a, 0, a.len());
}

/// Of two versions, at most one is older than the other.
pub proof fn lemma_is_outdated_asymmetric(a: Seq<char>, b: Seq<char>)
    ensures
        outdated(a, b) ==> !outdated(b, a),
{
    let pa = version_parts(a);
    let pb = version_parts(b);
    assert(max_len(pa.len(), pb.len()) == max_len(pb.len(), pa.len()));
    lemma_outdated_from_asymmetric(pa, pb, 0, max_len(pa.len(), pb.len()));
}

/// The installations with the one at `chosen` active and the others not.
pub open spec fn marked_views(v: Seq<InstallView>, chosen: Seq<char>) -> Seq<InstallView> {
    v.map_values(|i: InstallView| InstallView { is_active: i.path == chosen, ..i })
}

/// The installations with the first (the first PATH entry) active and the
/// others not.
pub open spec fn first_active_views(v: Seq<InstallView>) -> Seq<InstallView> {
    Seq::new(v.len(), |k: int| InstallView { is_active: k == 0, ..v[k] })
}

/// The installations after the user pinned `chosen`: the one at `chosen`
/// active and the others not when one lies there; otherwise the first PATH
/// entry stays the active one.
pub open spec fn pinned_views(v: Seq<InstallView>, chosen: Seq<char>) -> Seq<InstallView> {
    if has_path(v, chosen) {
        marked_views(v, chosen)
    } else {
        first_active_views(v)
    }
}

/// Whether an installation lies at `chosen`.
pub open spec fn has_path(v: Seq<InstallView>, chosen: Seq<char>) -> bool {
    exists|i: int| 0 <= i < v.len() && (#[trigger] v[i]).path == chosen
}

/// A copy of an installation with another activity flag.
fn with_active(inst: &ToolInstallation, active: bool) -> (r: ToolInstallation)
    ensures
        r@ == (InstallView { is_active: active, ..inst@ }),
{
    ToolInstallation {
        path: inst.path.clone(),
        version: clone_opt(&inst.version),
        source: inst.source,
        is_active: active,
    }
}

/// Pinning keeps every installation and its details, and leaves exactly
/// one active: the one at `chosen` when there is one (every one at `chosen`
/// if listed twice), else the first PATH entry.
pub proof fn lemma_pinned_views(v: Seq<InstallView>, chosen: Seq<char>)
    ensures
        pinned_views(v, chosen).len() == v.len(),
        forall|k: int|
            0 <= k < v.len() ==> {
                let r = #[trigger] pinned_views(v, chosen)[k];
                &&& r.path == v[k].path
                &&& r.version == v[k].version
                &&& r.source == v[k].source
                &&& r.is_active == if exists|j: int| 0 <= j < v.len() && v[j].path == chosen {
                    v[k].path == chosen
                } else {
                    k == 0
                }
            },
{
}

/// A probed pinned binary comes first, active, at `chosen` with its
/// version and the source its path tells; every installation found before
/// follows, unchanged but inactive.
pub proof fn lemma_probed_views(v: Seq<InstallView>, chosen: Seq<char>, version: Seq<char>)
    ensures
        probed_views(v, chosen, version).len() == v.len() + 1,
        probed_views(v, chosen, version)[0].path == chosen,
        probed_views(v, chosen, version)[0].version == Some(version),
        probed_views(v, chosen, version)[0].source == source_of_path(chosen),
        probed_views(v, chosen, version)[0].is_active,
        forall|k: int|
            0 <= k < v.len() ==> {
                let r = #[trigger] probed_views(v, chosen, version)[k + 1];
                &&& r.path == v[k].path
                &&& r.version == v[k].version
                &&& r.source == v[k].source
                &&& !r.is_active
            },
{
}

/// Track the installation the user pinned at `chosen`: it becomes the
/// active one and every other one inactive. When no installation lies at
/// `chosen`, the first PATH entry stays the active one. Returns whether any
/// installation lies at `chosen`.
pub fn select_pinned(installs: &mut Vec<ToolInstallation>, chosen: &str) -> (found: bool)
    ensures
        install_views(final(installs)@) == pinned_views(install_views(old(installs)@), chosen@),
        found == has_path(install_views(old(installs)@), chosen@),
{
    let ghost before = install_views(installs@);
    let mut out: Vec<ToolInstallation> = Vec::new();
    let mut found = false;
    let mut i: usize = 0;
    while i < installs.len()
        invariant
            before == install_views(installs@),
            i <= installs.len(),
            install_views(out@) == marked_views(before, chosen@).take(i as int),
            found == exists|k: int| 0 <= k < i && (#[trigger] before[k]).path == chosen@,
        decreases installs.len() - i,
    {
        let is_chosen = str_is(installs[i].path.as_str(), chosen);
        let next = with_active(&installs[i], is_chosen);
        proof {
            assert(before[i as int] == installs@[i as int]@);
            assert(next@ == marked_views(before, chosen@)[i as int]);
            assert(install_views(out@.push(next)) =~= install_views(out@).push(next@));
            assert(marked_views(before, chosen@).take(i + 1) =~= marked_views(before, chosen@).take(i as int).push(next@));
        }
        out.push(next);
        if is_chosen {
            found = true;
        }
        i = i + 1;
    }
    proof {
        assert(marked_views(before, chosen@).take(i as int) =~= marked_views(before, chosen@));
    }
    if found {
        *installs = out;
        return true;
    }
    let mut first: Vec<ToolInstallation> = Vec::new();
    let mut j: usize = 0;
    while j < installs.len()
        invariant
            before == install_views(installs@),
            j <= installs.len(),
            install_views(first@) == first_active_views(before).take(j as int),
        decreases installs.len() - j,
    {
        let next = with_active(&installs[j], j == 0);
        proof {
            assert(before[j as int] == installs@[j as int]@);
            assert(next@ == first_active_views(before)[j as int]);
            assert(install_views(first@.push(next)) =~= install_views(first@).push(next@));
            assert(first_active_views(before).take(j + 1) =~= first_active_views(before).take(j as int).push(next@));
        }
        first.push(next);
        j = j + 1;
    }
    proof {
        assert(first_active_views(before).take(j as int) =~= first_active_views(before));
    }
    *installs = first;
    false
}

/// The installations after a pinned binary that the PATH enumeration missed
/// was probed: the probed copy first and active, the others inactive.
pub open spec fn probed_views(v: Seq<InstallView>, chosen: Seq<char>, version: Seq<char>) -> Seq<
    InstallView,
> {
    seq![InstallView { path: chosen, version: Some(version), source: source_of_path(chosen), is_active: true }]
        + v.map_values(|i: InstallView| InstallView { is_active: false, ..i })
}

/// Put a probed pinned binary in front as the active installation.
pub fn prepend_pinned(installs: &mut Vec<ToolInstallation>, chosen: &str, version: String)
    ensures
        install_views(final(installs)@) == probed_views(
            install_views(old(installs)@),
            chosen@,
            version@,
        ),
{
    let ghost before = install_views(installs@);
    let first = ToolInstallation {
        path: String::from_str(chosen),
        version: Some(version),
        source: infer_source_public(chosen),
        is_active: true,
    };
    let mut out: Vec<ToolInstallation> = Vec::new();
    out.push(first);
    let ghost head = install_views(out@);
    let mut i: usize = 0;
    while i < installs.len()
        invariant
            before == install_views(installs@),
            i <= installs.len(),
            install_views(out@) == head + before.map_values(
                |v: InstallView| InstallView { is_active: false, ..v },
            ).take(i as int),
        decreases installs.len() - i,
    {
        let next = with_active(&installs[i], false);
        proof {
            assert(before[i as int] == installs@[i as int]@);
            let off = before.map_values(|v: InstallView| InstallView { is_active: false, ..v });
            assert(next@ == off[i as int]);
            assert(install_views(out@.push(next)) =~= install_views(out@).push(next@));
            assert(off.take(i + 1) =~= off.take(i as int).push(next@));
            assert(install_views(out@.push(next)) =~= head + before.map_values(
                |v: InstallView| InstallView { is_active: false, ..v },
            ).take(i + 1));
        }
        out.push(next);
        i = i + 1;
    }
    proof {
        assert(before.map_values(|v: InstallView| InstallView { is_active: false, ..v }).take(
            i as int,
        ) =~= before.map_values(|v: InstallView| InstallView { is_active: false, ..v }));
        assert(install_views(out@) =~= probed_views(before, chosen@, version@));
    }
    *installs = out;
}

/// The position of the tracked installation: the first active one, or the
/// first one when none is active.
pub open spec fn active_position(v: Seq<InstallView>) -> int {
    if exists|i: int| 0 <= i < v.len() && (#[trigger] v[i]).is_active {
        choose|i: int|
            0 <= i < v.len() && v[i].is_active && forall|k: int| 0 <= k < i ==> !(#[trigger] v[k]).is_active
    } else {
        0
    }
}

/// The message of a status whose active binary printed no version.
pub open spec fn unparsed_version_message() -> Seq<char> {
    "could not parse version from active binary"@
}

/// The status of a tool with at least one installation: the tracked
/// installation gives the installed version and the path; an error is
/// recorded when its version is unknown.
pub fn status_from_installations(def: &ToolDefinition, installs: Vec<ToolInstallation>, now: i64) -> (r: ToolStatus)
    requires
        installs@.len() > 0,
    ensures
        status_describes(r, *def),
        install_views(r.installations@) == install_views(installs@),
        opt_view(r.path) == Some(installs@[active_position(install_views(installs@))].path@),
        opt_view(r.installed_version) == opt_view(installs@[active_position(install_views(installs@))].version),
        r.latest_version is None,
        !r.is_outdated,
        r.checked_at == now,
        opt_view(r.error) == (if r.installed_version is None {
            Some(unparsed_version_message())
        } else {
            None
        }),
{
    let ghost v = install_views(installs@);
    let mut a: usize = 0;
    while a < installs.len() && !installs[a].is_active
        invariant
            v == install_views(installs@),
            a <= installs.len(),
            forall|k: int| 0 <= k < a ==> !(#[trigger] v[k]).is_active,
        decreases installs.len() - a,
    {
        proof {
            assert(v[a as int] == installs@[a as int]@);
        }
        a = a + 1;
    }
    let pos: usize = if a < installs.len() { a } else { 0 };
    proof {
        if a < installs.len() {
            assert(v[a as int] == installs@[a as int]@);
            let j = active_position(v);
            assert(0 <= a < v.len() && v[a as int].is_active);
            if j < a {
                assert(!v[j].is_active);
            }
            if a < j {
                assert(!v[a as int].is_active);
            }
        } else {
            assert forall|i: int| 0 <= i < v.len() implies !(#[trigger] v[i]).is_active by {}
        }
        assert(pos == active_position(v));
    }
    let active_path = installs[pos].path.clone();
    let active_version = clone_opt(&installs[pos].version);
    let error = match &active_version {
        Some(_) => None,
        None => Some(String::from_str("could not parse version from active binary")),
    };
    ToolStatus {
        name: def.name.clone(),
        display_name: def.display_name.clone(),
        category: def.category,
        icon: def.icon.clone(),
        color: def.color.clone(),
        installed_version: active_version,
        latest_version: None,
        is_outdated: false,
        path: Some(active_path),
        installations: installs,
        checked_at: now,
        error,
    }
}

/// The reason recorded for a tool whose binary is not on PATH.
pub fn not_found_reason(binary: &str) -> (r: String)
    ensures
        r@ == binary@ + " not found on PATH"@,
{
    let mut r = String::from_str(binary);
    push_str(&mut r, " not found on PATH");
    r
}

/// The only installation of a tool whose versions are not enumerated: the
/// first PATH match, active, of unknown source.
pub fn single_installation(path: String, version: Option<String>) -> (r: Vec<ToolInstallation>)
    ensures
        install_views(r@) == seq![
            InstallView { path: path@, version: opt_view(version), source: InstallationSource::Unknown, is_active: true },
        ],
{
    let mut r: Vec<ToolInstallation> = Vec::new();
    r.push(ToolInstallation { path, version, source: InstallationSource::Unknown, is_active: true });
    assert(install_views(r@) =~= seq![r@[0]@]);
    r
}

/// The version reported by a binary: what `parse_version` finds in its
/// standard output and standard error, joined by a newline.
pub fn version_from_output(stdout: &str, stderr: &str, parser: &VersionParser) -> (r: Option<String>)
    ensures
        opt_view(r) == version_of_output(stdout@ + "\n"@ + stderr@, *parser),
{
    let mut combined = String::from_str(stdout);
    push_str(&mut combined, "\n");
    push_str(&mut combined, stderr);
    parse_version(combined.as_str(), parser)
}

/// The version a binary reported, from its standard output and standard
/// error when it could be run.
pub open spec fn reported_version(out: Option<(String, String)>, parser: VersionParser) -> Option<Seq<char>> {
    match out {
        Some(o) => version_of_output(o.0@ + "\n"@ + o.1@, parser),
        None => None,
    }
}

/// The installations found at `paths` (in PATH order), each with the
/// version read from what its binary printed (`None` when it could not be
/// run): the source comes from each path, and the first is active.
pub fn installations_from_outputs(
    paths: Vec<String>,
    outputs: Vec<Option<(String, String)>>,
    parser: &VersionParser,
) -> (r: Vec<ToolInstallation>)
    requires
        paths@.len() == outputs@.len(),
    ensures
        r@.len() == paths@.len(),
        forall|i: int| 0 <= i < r@.len() ==> #[trigger] r@[i]@ == (InstallView {
            path: paths@[i]@,
            version: reported_version(outputs@[i], *parser),
            source: source_of_path(paths@[i]@),
            is_active: i == 0,
        }),
{
    let mut versions: Vec<Option<String>> = Vec::new();
    let mut i: usize = 0;
    while i < outputs.len()
        invariant
            i <= outputs@.len(),
            versions@.len() == i,
            forall|k: int| 0 <= k < i ==> opt_view(#[trigger] versions@[k]) == reported_version(outputs@[k], *parser),
        decreases outputs@.len() - i,
    {
        let v = match &outputs[i] {
            Some(o) => version_from_output(o.0.as_str(), o.1.as_str(), parser),
            None => None,
        };
        versions.push(v);
        i = i + 1;
    }
    installations_from(paths, versions)
}

} // verus!
