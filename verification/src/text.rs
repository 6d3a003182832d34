//! Character-level text utilities shared by the parsers of this crate.
//!
//! Text is modelled as `Seq<char>`; executable code works on `Vec<char>`
//! buffers obtained from `&str` and turns results back into `String`s.
use vstd::prelude::*;

verus! {

/// Unicode `White_Space`, the set that `char::is_whitespace` tests.
pub open spec fn is_ws(c: char) -> bool {
    ||| c == '\t'
    ||| c == '\n'
    ||| c == '\u{0B}'
    ||| c == '\u{0C}'
    ||| c == '\r'
    ||| c == ' '
    ||| c == '\u{85}'
    ||| c == '\u{A0}'
    ||| c == '\u{1680}'
    ||| ('\u{2000}' as u32 <= c as u32 && c as u32 <= '\u{200A}' as u32)
    ||| c == '\u{2028}'
    ||| c == '\u{2029}'
    ||| c == '\u{202F}'
    ||| c == '\u{205F}'
    ||| c == '\u{3000}'
}

/// An ASCII decimal digit.
pub open spec fn is_digit(c: char) -> bool {
    '0' as u32 <= c as u32 && c as u32 <= '9' as u32
}

/// `s` without its leading whitespace.
pub open spec fn trim_start(s: Seq<char>) -> Seq<char>
    decreases s.len(),
{
    if s.len() > 0 && is_ws(s[0]) {
        trim_start(s.drop_first())
    } else {
        s
    }
}

/// `s` without its trailing whitespace.
pub open spec fn trim_end(s: Seq<char>) -> Seq<char>
    decreases s.len(),
{
    if s.len() > 0 && is_ws(s.last()) {
        trim_end(s.drop_last())
    } else {
        s
    }
}

/// `s` without whitespace at either end (`str::trim`).
pub open spec fn trim(s: Seq<char>) -> Seq<char> {
    trim_end(trim_start(s))
}

/// Trailing whitespace is dropped from the end: what remains is a prefix that
/// does not end in whitespace.
proof fn lemma_trim_end_prefix(u: Seq<char>)
    ensures
        trim_end(u).len() <= u.len(),
        trim_end(u) == u.take(trim_end(u).len() as int),
        trim_end(u).len() > 0 ==> !is_ws(trim_end(u).last()),
    decreases u.len(),
{
    if u.len() > 0 && is_ws(u.last()) {
        lemma_trim_end_prefix(u.drop_last());
        assert(u.drop_last().take(trim_end(u).len() as int) =~= u.take(trim_end(u).len() as int));
    } else {
        assert(u.take(u.len() as int) =~= u);
    }
}

/// What `trim_start` leaves does not start with whitespace.
proof fn lemma_trim_start_first(s: Seq<char>)
    ensures
        trim_start(s).len() > 0 ==> !is_ws(trim_start(s)[0]),
    decreases s.len(),
{
    if s.len() > 0 && is_ws(s[0]) {
        lemma_trim_start_first(s.drop_first());
    }
}

/// Trimming twice is trimming once.
pub proof fn lemma_trim_idempotent(s: Seq<char>)
    ensures
        trim(trim(s)) == trim(s),
{
    let u = trim_start(s);
    lemma_trim_start_first(s);
    lemma_trim_end_prefix(u);
    let v = trim_end(u);
    if v.len() > 0 {
        assert(v[0] == u[0]);
    }
}

/// `s` without the copies of `c` at its start (`str::trim_start_matches` with a char).
pub open spec fn trim_start_char(s: Seq<char>, c: char) -> Seq<char>
    decreases s.len(),
{
    if s.len() > 0 && s[0] == c {
        trim_start_char(s.drop_first(), c)
    } else {
        s
    }
}

/// `s` without the copies of `c` at its end (`str::trim_end_matches` with a char).
pub open spec fn trim_end_char(s: Seq<char>, c: char) -> Seq<char>
    decreases s.len(),
{
    if s.len() > 0 && s.last() == c {
        trim_end_char(s.drop_last(), c)
    } else {
        s
    }
}

/// `s` without the copies of `c` at either end (`str::trim_matches` with a char).
pub open spec fn trim_char(s: Seq<char>, c: char) -> Seq<char> {
    trim_end_char(trim_start_char(s, c), c)
}

/// Whether `p` is a prefix of `s`.
pub open spec fn has_prefix(s: Seq<char>, p: Seq<char>) -> bool {
    p.len() <= s.len() && s.take(p.len() as int) == p
}

/// `s` without the repeated copies of `p` at its start (`str::trim_start_matches` with a string).
pub open spec fn trim_start_seq(s: Seq<char>, p: Seq<char>) -> Seq<char>
    decreases s.len(),
{
    if p.len() > 0 && has_prefix(s, p) {
        trim_start_seq(s.skip(p.len() as int), p)
    } else {
        s
    }
}

/// The pieces of `s` between occurrences of `c` (`str::split` with a char).
pub open spec fn split(s: Seq<char>, c: char) -> Seq<Seq<char>>
    decreases s.len(),
{
    if s.len() == 0 {
        seq![Seq::empty()]
    } else {
        let init = split(s.drop_last(), c);
        if s.last() == c {
            init.push(Seq::empty())
        } else {
            init.update(init.len() - 1, init.last().push(s.last()))
        }
    }
}

/// `s` without one trailing carriage return, if it has one.
pub open spec fn strip_cr(s: Seq<char>) -> Seq<char> {
    if s.len() > 0 && s.last() == '\r' {
        s.drop_last()
    } else {
        s
    }
}

/// The lines of `s` (`str::lines`): pieces ended by `\n`, each without a
/// final `\r`, and a last piece with no `\n` after it when it is not empty.
pub open spec fn lines(s: Seq<char>) -> Seq<Seq<char>> {
    let p = split(s, '\n');
    let ended = Seq::new((p.len() - 1) as nat, |i: int| strip_cr(p[i]));
    if p.last().len() > 0 {
        ended.push(p.last())
    } else {
        ended
    }
}

/// The maximal runs of non-whitespace characters of `s` (`str::split_whitespace`).
pub open spec fn words(s: Seq<char>) -> Seq<Seq<char>>
    decreases s.len(),
{
    if s.len() == 0 {
        Seq::empty()
    } else {
        let init = words(s.drop_last());
        let c = s.last();
        if is_ws(c) {
            init
        } else if s.len() >= 2 && !is_ws(s[s.len() - 2]) {
            init.update(init.len() - 1, init.last().push(c))
        } else {
            init.push(seq![c])
        }
    }
}

/// Whether `c` occurs in `s`.
pub open spec fn has_char(s: Seq<char>, c: char) -> bool {
    exists|i: int| 0 <= i < s.len() && s[i] == c
}

/// Whether `i` is the first position of `c` in `s`.
pub open spec fn is_first_index(s: Seq<char>, c: char, i: int) -> bool {
    &&& 0 <= i < s.len()
    &&& s[i] == c
    &&& forall|k: int| 0 <= k < i ==> s[k] != c
}

/// The first position of `c` in `s` (meaningful when `has_char(s, c)`).
pub open spec fn first_index(s: Seq<char>, c: char) -> int {
    choose|i: int| is_first_index(s, c, i)
}

/// Whether `i` is the last position of `c` in `s`.
pub open spec fn is_last_index(s: Seq<char>, c: char, i: int) -> bool {
    &&& 0 <= i < s.len()
    &&& s[i] == c
    &&& forall|k: int| i < k < s.len() ==> s[k] != c
}

/// The last position of `c` in `s` (meaningful when `has_char(s, c)`).
pub open spec fn last_index(s: Seq<char>, c: char) -> int {
    choose|i: int| is_last_index(s, c, i)
}

/// Whether `p` occurs in `s` at position `i`.
pub open spec fn occurs_at(s: Seq<char>, p: Seq<char>, i: int) -> bool {
    0 <= i && i + p.len() <= s.len() && s.subrange(i, i + p.len()) == p
}

/// Whether `p` occurs in `s` (`str::contains` with a string).
pub open spec fn contains_seq(s: Seq<char>, p: Seq<char>) -> bool {
    exists|i: int| occurs_at(s, p, i)
}

/// Whether `i` is the first position where `p` occurs in `s`.
pub open spec fn is_first_occurrence(s: Seq<char>, p: Seq<char>, i: int) -> bool {
    occurs_at(s, p, i) && forall|k: int| 0 <= k < i ==> !occurs_at(s, p, k)
}

/// The first position where `p` occurs in `s` (meaningful when `contains_seq(s, p)`).
pub open spec fn find_seq(s: Seq<char>, p: Seq<char>) -> int {
    choose|i: int| is_first_occurrence(s, p, i)
}

/// Appends one character to a string (std's `String::push`).
#[verifier::external_body]
pub(crate) fn push_char(s: &mut String, c: char)
    ensures
        final(s)@ == old(s)@.push(c),
{
    s.push(c);
}

/// The characters of `s`, in order.
pub fn chars_of(s: &str) -> (r: Vec<char>)
    ensures
        r@ == s@,
{
    let mut out: Vec<char> = Vec::new();
    for c in it: s.chars()
        invariant
            out@ == it.seq().take(it.index() as int),
            it.seq() == s@,
    {
        out.push(c);
    }
    assert(out@ =~= s@);
    out
}

/// A string holding the characters of `v`.
pub fn string_of(v: &Vec<char>) -> (r: String)
    ensures
        r@ == v@,
{
    let mut out = String::new();
    let mut i: usize = 0;
    while i < v.len()
        invariant
            i <= v.len(),
            out@ == v@.take(i as int),
        decreases v.len() - i,
    {
        push_char(&mut out, v[i]);
        i = i + 1;
        assert(out@ =~= v@.take(i as int));
    }
    assert(out@ =~= v@);
    out
}

/// The characters of `v` from `a` up to `b`.
pub fn slice_of(v: &Vec<char>, a: usize, b: usize) -> (r: Vec<char>)
    requires
        a <= b <= v.len(),
    ensures
        r@ == v@.subrange(a as int, b as int),
{
    let mut out: Vec<char> = Vec::new();
    let mut i: usize = a;
    while i < b
        invariant
            a <= i <= b <= v.len(),
            out@ == v@.subrange(a as int, i as int),
        decreases b - i,
    {
        out.push(v[i]);
        i = i + 1;
        assert(out@ =~= v@.subrange(a as int, i as int));
    }
    out
}

/// Whether two character buffers hold the same characters.
pub fn same_chars(a: &Vec<char>, b: &Vec<char>) -> (r: bool)
    ensures
        r == (a@ == b@),
{
    if a.len() != b.len() {
        return false;
    }
    let mut i: usize = 0;
    while i < a.len()
        invariant
            a.len() == b.len(),
            i <= a.len(),
            forall|k: int| 0 <= k < i ==> a@[k] == b@[k],
        decreases a.len() - i,
    {
        if a[i] != b[i] {
            return false;
        }
        i = i + 1;
    }
    assert(a@ =~= b@);
    true
}

/// Whether the string `a` holds the characters of `b`.
pub fn str_is(a: &str, b: &str) -> (r: bool)
    ensures
        r == (a@ == b@),
{
    same_chars(&chars_of(a), &chars_of(b))
}

/// Whether `c` is whitespace (`char::is_whitespace`).
pub fn char_is_ws(c: char) -> (r: bool)
    ensures
        r == is_ws(c),
{
    c == '\t' || c == '\n' || c == '\u{0B}' || c == '\u{0C}' || c == '\r' || c == ' ' || c
        == '\u{85}' || c == '\u{A0}' || c == '\u{1680}' || ('\u{2000}' <= c && c <= '\u{200A}')
        || c == '\u{2028}' || c == '\u{2029}' || c == '\u{202F}' || c == '\u{205F}' || c
        == '\u{3000}'
}

/// Whether `c` is an ASCII digit (`char::is_ascii_digit`).
pub fn char_is_digit(c: char) -> (r: bool)
    ensures
        r == is_digit(c),
{
    '0' <= c && c <= '9'
}


/// Dropping leading whitespace one character at a time.
pub proof fn lemma_trim_start_skip(s: Seq<char>, i: int)
    requires
        0 <= i <= s.len(),
        forall|k: int| 0 <= k < i ==> is_ws(#[trigger] s[k]),
    ensures
        trim_start(s) == trim_start(s.skip(i)),
    decreases i,
{
    if i > 0 {
        assert(is_ws(s[0]));
        lemma_trim_start_skip(s.drop_first(), i - 1);
        assert(s.drop_first().skip(i - 1) =~= s.skip(i));
    } else {
        assert(s.skip(0) =~= s);
    }
}

/// Dropping trailing whitespace one character at a time.
pub proof fn lemma_trim_end_take(s: Seq<char>, j: int)
    requires
        0 <= j <= s.len(),
        forall|k: int| j <= k < s.len() ==> is_ws(#[trigger] s[k]),
    ensures
        trim_end(s) == trim_end(s.take(j)),
    decreases s.len() - j,
{
    if j < s.len() {
        assert(is_ws(s.last()));
        lemma_trim_end_take(s.drop_last(), j);
        assert(s.drop_last().take(j) =~= s.take(j));
    } else {
        assert(s.take(j) =~= s);
    }
}

/// Dropping leading copies of `c` one at a time.
pub proof fn lemma_trim_start_char_skip(s: Seq<char>, c: char, i: int)
    requires
        0 <= i <= s.len(),
        forall|k: int| 0 <= k < i ==> #[trigger] s[k] == c,
    ensures
        trim_start_char(s, c) == trim_start_char(s.skip(i), c),
    decreases i,
{
    if i > 0 {
        assert(s[0] == c);
        lemma_trim_start_char_skip(s.drop_first(), c, i - 1);
        assert(s.drop_first().skip(i - 1) =~= s.skip(i));
    } else {
        assert(s.skip(0) =~= s);
    }
}

/// Dropping trailing copies of `c` one at a time.
pub proof fn lemma_trim_end_char_take(s: Seq<char>, c: char, j: int)
    requires
        0 <= j <= s.len(),
        forall|k: int| j <= k < s.len() ==> #[trigger] s[k] == c,
    ensures
        trim_end_char(s, c) == trim_end_char(s.take(j), c),
    decreases s.len() - j,
{
    if j < s.len() {
        assert(s.last() == c);
        lemma_trim_end_char_take(s.drop_last(), c, j);
        assert(s.drop_last().take(j) =~= s.take(j));
    } else {
        assert(s.take(j) =~= s);
    }
}

/// The first position of a character is unique.
pub proof fn lemma_first_index(s: Seq<char>, c: char, i: int)
    requires
        is_first_index(s, c, i),
    ensures
        first_index(s, c) == i,
        has_char(s, c),
{
    let j = first_index(s, c);
    assert(is_first_index(s, c, j));
    if j < i {
        assert(s[j] != c);
    }
    if i < j {
        assert(s[i] != c);
    }
}

/// The last position of a character is unique.
pub proof fn lemma_last_index(s: Seq<char>, c: char, i: int)
    requires
        is_last_index(s, c, i),
    ensures
        last_index(s, c) == i,
        has_char(s, c),
{
    let j = last_index(s, c);
    assert(is_last_index(s, c, j));
    if j < i {
        assert(s[i] != c);
    }
    if i < j {
        assert(s[j] != c);
    }
}

/// The first occurrence of a string is unique.
pub proof fn lemma_find_seq(s: Seq<char>, p: Seq<char>, i: int)
    requires
        is_first_occurrence(s, p, i),
    ensures
        find_seq(s, p) == i,
        contains_seq(s, p),
{
    let j = find_seq(s, p);
    assert(is_first_occurrence(s, p, j));
}

/// `v` without whitespace at either end.
pub fn trim_vec(v: &Vec<char>) -> (r: Vec<char>)
    ensures
        r@ == trim(v@),
{
    let mut i: usize = 0;
    while i < v.len() && char_is_ws(v[i])
        invariant
            i <= v.len(),
            forall|k: int| 0 <= k < i ==> is_ws(#[trigger] v@[k]),
        decreases v.len() - i,
    {
        i = i + 1;
    }
    let mut j: usize = v.len();
    while j > i && char_is_ws(v[j - 1])
        invariant
            i <= j <= v.len(),
            forall|k: int| j <= k < v.len() ==> is_ws(#[trigger] v@[k]),
        decreases j,
    {
        j = j - 1;
    }
    proof {
        lemma_trim_start_skip(v@, i as int);
        let t = v@.skip(i as int);
        assert(trim_start(t) == t);
        assert forall|k: int| (j - i) <= k < t.len() implies is_ws(#[trigger] t[k]) by {
            assert(t[k] == v@[k + i]);
        }
        lemma_trim_end_take(t, j - i);
        assert(t.take(j - i) =~= v@.subrange(i as int, j as int));
    }
    slice_of(v, i, j)
}

/// `v` without the copies of `c` at its start.
pub fn trim_start_char_vec(v: &Vec<char>, c: char) -> (r: Vec<char>)
    ensures
        r@ == trim_start_char(v@, c),
{
    let mut i: usize = 0;
    while i < v.len() && v[i] == c
        invariant
            i <= v.len(),
            forall|k: int| 0 <= k < i ==> #[trigger] v@[k] == c,
        decreases v.len() - i,
    {
        i = i + 1;
    }
    proof {
        lemma_trim_start_char_skip(v@, c, i as int);
        assert(v@.subrange(i as int, v.len() as int) =~= v@.skip(i as int));
    }
    slice_of(v, i, v.len())
}

/// `v` without the copies of `c` at its end.
pub fn trim_end_char_vec(v: &Vec<char>, c: char) -> (r: Vec<char>)
    ensures
        r@ == trim_end_char(v@, c),
{
    let mut j: usize = v.len();
    while j > 0 && v[j - 1] == c
        invariant
            j <= v.len(),
            forall|k: int| j <= k < v.len() ==> #[trigger] v@[k] == c,
        decreases j,
    {
        j = j - 1;
    }
    proof {
        lemma_trim_end_char_take(v@, c, j as int);
        assert(v@.subrange(0, j as int) =~= v@.take(j as int));
    }
    slice_of(v, 0, j)
}

/// `v` without the copies of `c` at either end.
pub fn trim_char_vec(v: &Vec<char>, c: char) -> (r: Vec<char>)
    ensures
        r@ == trim_char(v@, c),
{
    let t = trim_start_char_vec(v, c);
    trim_end_char_vec(&t, c)
}

/// Whether `p` occurs in `v` at position `i`.
pub fn occurs_at_vec(v: &Vec<char>, p: &Vec<char>, i: usize) -> (r: bool)
    ensures
        r == occurs_at(v@, p@, i as int),
{
    if i > v.len() || p.len() > v.len() - i {
        return false;
    }
    let mut k: usize = 0;
    while k < p.len()
        invariant
            i + p.len() <= v.len(),
            k <= p.len(),
            forall|m: int| 0 <= m < k ==> v@[i + m] == p@[m],
        decreases p.len() - k,
    {
        if v[i + k] != p[k] {
            assert(v@.subrange(i as int, i + p.len())[k as int] != p@[k as int]);
            return false;
        }
        k = k + 1;
    }
    assert(v@.subrange(i as int, i + p.len()) =~= p@);
    true
}

/// Whether `v` starts with `p`.
pub fn starts_with_vec(v: &Vec<char>, p: &Vec<char>) -> (r: bool)
    ensures
        r == has_prefix(v@, p@),
{
    let r = occurs_at_vec(v, p, 0);
    proof {
        if r {
            assert(v@.take(p.len() as int) =~= v@.subrange(0, p.len() as int));
        } else if has_prefix(v@, p@) {
            assert(v@.take(p.len() as int) =~= v@.subrange(0, p.len() as int));
        }
    }
    r
}

/// The first position of `c` in `v`.
pub fn find_char(v: &Vec<char>, c: char) -> (r: Option<usize>)
    ensures
        match r {
            Some(i) => is_first_index(v@, c, i as int) && first_index(v@, c) == i,
            None => !has_char(v@, c),
        },
{
    let mut i: usize = 0;
    while i < v.len()
        invariant
            i <= v.len(),
            forall|k: int| 0 <= k < i ==> #[trigger] v@[k] != c,
        decreases v.len() - i,
    {
        if v[i] == c {
            proof {
                lemma_first_index(v@, c, i as int);
            }
            return Some(i);
        }
        i = i + 1;
    }
    None
}

/// The last position of `c` in `v`.
pub fn rfind_char(v: &Vec<char>, c: char) -> (r: Option<usize>)
    ensures
        match r {
            Some(i) => is_last_index(v@, c, i as int) && last_index(v@, c) == i,
            None => !has_char(v@, c),
        },
{
    let mut j: usize = v.len();
    while j > 0
        invariant
            j <= v.len(),
            forall|k: int| j <= k < v.len() ==> #[trigger] v@[k] != c,
        decreases j,
    {
        if v[j - 1] == c {
            proof {
                lemma_last_index(v@, c, j - 1);
            }
            return Some(j - 1);
        }
        j = j - 1;
    }
    None
}

/// The first position where `p` occurs in `v`.
pub fn find_vec(v: &Vec<char>, p: &Vec<char>) -> (r: Option<usize>)
    ensures
        match r {
            Some(i) => is_first_occurrence(v@, p@, i as int) && find_seq(v@, p@) == i,
            None => !contains_seq(v@, p@),
        },
{
    let mut i: usize = 0;
    while i < v.len()
        invariant
            i <= v.len(),
            forall|k: int| 0 <= k < i ==> !occurs_at(v@, p@, k),
        decreases v.len() - i,
    {
        if occurs_at_vec(v, p, i) {
            proof {
                lemma_find_seq(v@, p@, i as int);
            }
            return Some(i);
        }
        i = i + 1;
    }
    if occurs_at_vec(v, p, i) {
        proof {
            lemma_find_seq(v@, p@, i as int);
        }
        return Some(i);
    }
    proof {
        assert forall|k: int| !occurs_at(v@, p@, k) by {
            if 0 <= k <= i {
            }
        }
    }
    None
}

/// Whether `p` occurs in `v`.
pub fn contains_vec(v: &Vec<char>, p: &Vec<char>) -> (r: bool)
    ensures
        r == contains_seq(v@, p@),
{
    find_vec(v, p).is_some()
}

/// Whether `c` occurs in `v`.
pub fn has_char_vec(v: &Vec<char>, c: char) -> (r: bool)
    ensures
        r == has_char(v@, c),
{
    find_char(v, c).is_some()
}

/// The character sequences held by a list of buffers.
pub open spec fn views(v: Seq<Vec<char>>) -> Seq<Seq<char>> {
    v.map_values(|x: Vec<char>| x@)
}

/// Pushing a buffer pushes its characters onto the views.
pub proof fn lemma_views_push(v: Seq<Vec<char>>, x: Vec<char>)
    ensures
        views(v.push(x)) == views(v).push(x@),
{
    assert(views(v.push(x)) =~= views(v).push(x@));
}

/// The pieces of `v` between occurrences of `c`.
pub fn split_vec(v: &Vec<char>, c: char) -> (r: Vec<Vec<char>>)
    ensures
        views(r@) == split(v@, c),
        r@.len() >= 1,
{
    let mut out: Vec<Vec<char>> = Vec::new();
    let mut cur: Vec<char> = Vec::new();
    let mut i: usize = 0;
    proof {
        assert(v@.take(0) =~= Seq::<char>::empty());
        assert(views(out@).push(cur@) =~= seq![Seq::<char>::empty()]);
    }
    while i < v.len()
        invariant
            i <= v.len(),
            views(out@).push(cur@) == split(v@.take(i as int), c),
        decreases v.len() - i,
    {
        let ghost before = v@.take(i as int);
        proof {
            assert(v@.take(i + 1).drop_last() =~= before);
        }
        if v[i] == c {
            proof {
                lemma_views_push(out@, cur);
            }
            out.push(cur);
            cur = Vec::new();
            proof {
                assert(views(out@).push(cur@) =~= split(before, c).push(Seq::empty()));
            }
        } else {
            let ghost old_cur = cur@;
            cur.push(v[i]);
            proof {
                let sp = split(before, c);
                assert(sp.last() == old_cur);
                assert(views(out@).push(cur@) =~= sp.update(sp.len() - 1, sp.last().push(v@[i as int])));
            }
        }
        i = i + 1;
    }
    proof {
        assert(v@.take(v.len() as int) =~= v@);
        lemma_views_push(out@, cur);
    }
    out.push(cur);
    out
}

/// `v` without one trailing carriage return, if it has one.
pub fn strip_cr_vec(v: Vec<char>) -> (r: Vec<char>)
    ensures
        r@ == strip_cr(v@),
{
    let n = v.len();
    if n > 0 && v[n - 1] == '\r' {
        let r = slice_of(&v, 0, n - 1);
        assert(r@ =~= v@.drop_last());
        r
    } else {
        v
    }
}

/// The lines of `v`.
pub fn lines_vec(v: &Vec<char>) -> (r: Vec<Vec<char>>)
    ensures
        views(r@) == lines(v@),
{
    let mut pieces = split_vec(v, '\n');
    let ghost p = views(pieces@);
    let last = pieces.pop().unwrap();
    let mut out: Vec<Vec<char>> = Vec::new();
    let mut i: usize = 0;
    while i < pieces.len()
        invariant
            i <= pieces.len(),
            pieces.len() == p.len() - 1,
            forall|k: int| 0 <= k < pieces.len() ==> #[trigger] pieces@[k]@ == p[k],
            views(out@) == Seq::new(i as nat, |k: int| strip_cr(p[k])),
        decreases pieces.len() - i,
    {
        let piece = strip_cr_vec(pieces[i].clone());
        proof {
            lemma_views_push(out@, piece);
        }
        out.push(piece);
        i = i + 1;
        proof {
            assert(views(out@) =~= Seq::new(i as nat, |k: int| strip_cr(p[k])));
        }
    }
    proof {
        assert(last@ == p.last());
    }
    if last.len() > 0 {
        proof {
            lemma_views_push(out@, last);
        }
        out.push(last);
    }
    out
}

/// The maximal runs of non-whitespace characters of `v`.
pub fn words_vec(v: &Vec<char>) -> (r: Vec<Vec<char>>)
    ensures
        views(r@) == words(v@),
{
    let mut out: Vec<Vec<char>> = Vec::new();
    let mut i: usize = 0;
    proof {
        assert(v@.take(0) =~= Seq::<char>::empty());
        assert(views(out@) =~= Seq::<Seq<char>>::empty());
    }
    while i < v.len()
        invariant
            i <= v.len(),
            views(out@) == words(v@.take(i as int)),
            (i > 0 && !is_ws(v@[i - 1])) ==> out.len() > 0,
        decreases v.len() - i,
    {
        let ghost before = v@.take(i as int);
        let ghost s = v@.take(i + 1);
        proof {
            assert(s.drop_last() =~= before);
            assert(s.last() == v@[i as int]);
        }
        let c = v[i];
        if char_is_ws(c) {
        } else if i > 0 && !char_is_ws(v[i - 1]) {
            proof {
                assert(s[s.len() - 2] == v@[i - 1]);
            }
            let mut last = out.pop().unwrap();
            let ghost old_last = last@;
            last.push(c);
            proof {
                lemma_views_push(out@, last);
                let w = words(before);
                assert(w.last() == old_last);
                assert(views(out@).push(last@) =~= w.update(w.len() - 1, w.last().push(c)));
            }
            out.push(last);
        } else {
            let mut word: Vec<char> = Vec::new();
            word.push(c);
            proof {
                lemma_views_push(out@, word);
                assert(word@ =~= seq![c]);
                if i > 0 {
                    assert(s[s.len() - 2] == v@[i - 1]);
                }
            }
            out.push(word);
        }
        i = i + 1;
    }
    proof {
        assert(v@.take(v.len() as int) =~= v@);
    }
    out
}

/// `v` without the repeated copies of `p` at its start.
pub fn trim_start_seq_vec(v: &Vec<char>, p: &Vec<char>) -> (r: Vec<char>)
    ensures
        r@ == trim_start_seq(v@, p@),
{
    let mut i: usize = 0;
    proof {
        assert(v@.skip(0) =~= v@);
    }
    while p.len() > 0 && occurs_at_vec(v, p, i)
        invariant
            i <= v.len(),
            trim_start_seq(v@, p@) == trim_start_seq(v@.skip(i as int), p@),
        decreases v.len() - i,
    {
        proof {
            let t = v@.skip(i as int);
            assert(t.take(p.len() as int) =~= v@.subrange(i as int, i + p.len()));
            assert(t.skip(p.len() as int) =~= v@.skip(i + p.len()));
        }
        i = i + p.len();
    }
    proof {
        let t = v@.skip(i as int);
        if p.len() > 0 && has_prefix(t, p@) {
            assert(t.take(p.len() as int) =~= v@.subrange(i as int, i + p.len()));
        }
        assert(v@.subrange(i as int, v.len() as int) =~= t);
    }
    slice_of(v, i, v.len())
}

/// The numeric value of a digit character.
pub open spec fn digit_value(c: char) -> nat {
    (c as u32 - '0' as u32) as nat
}

/// The value of a run of decimal digits.
pub open spec fn digits_value(s: Seq<char>) -> nat
    decreases s.len(),
{
    if s.len() == 0 {
        0
    } else {
        digits_value(s.drop_last()) * 10 + digit_value(s.last())
    }
}

/// Every character of `s` is an ASCII digit.
pub open spec fn all_digits(s: Seq<char>) -> bool {
    forall|i: int| 0 <= i < s.len() ==> is_digit(#[trigger] s[i])
}

/// `s` without one leading `+`.
pub open spec fn unsigned_body(s: Seq<char>) -> Seq<char> {
    if s.len() > 0 && s[0] == '+' {
        s.drop_first()
    } else {
        s
    }
}

/// What `str::parse` gives for an unsigned integer type whose largest value
/// is `max`: an optional `+` and then one or more digits whose value fits.
pub open spec fn parse_unsigned(s: Seq<char>, max: nat) -> Option<nat> {
    let b = unsigned_body(s);
    if b.len() > 0 && all_digits(b) && digits_value(b) <= max {
        Some(digits_value(b))
    } else {
        None
    }
}

/// A longer run of digits has at least the value of its prefix.
pub proof fn lemma_digits_value_grows(s: Seq<char>, i: int, j: int)
    requires
        0 <= i <= j <= s.len(),
    ensures
        digits_value(s.take(i)) <= digits_value(s.take(j)),
    decreases j - i,
{
    if i < j {
        lemma_digits_value_grows(s, i, j - 1);
        assert(s.take(j).drop_last() =~= s.take(j - 1));
    }
}

/// `str::parse::<u64>` on a character buffer.
pub fn parse_u64_vec(v: &Vec<char>) -> (r: Option<u64>)
    ensures
        r == (match parse_unsigned(v@, u64::MAX as nat) {
            Some(n) => Some(n as u64),
            None => None,
        }),
{
    let start: usize = if v.len() > 0 && v[0] == '+' { 1 } else { 0 };
    let ghost b = unsigned_body(v@);
    proof {
        assert(b =~= v@.skip(start as int));
    }
    if start == v.len() {
        return None;
    }
    let mut value: u64 = 0;
    let mut overflow = false;
    let mut i: usize = start;
    proof {
        assert(b.take(0) =~= Seq::<char>::empty());
    }
    while i < v.len()
        invariant
            start <= i <= v.len(),
            b == v@.skip(start as int),
            b == unsigned_body(v@),
            forall|k: int| start <= k < i ==> is_digit(#[trigger] v@[k]),
            !overflow ==> value as nat == digits_value(b.take(i - start)),
            overflow ==> digits_value(b.take(i - start)) > u64::MAX,
        decreases v.len() - i,
    {
        let c = v[i];
        if !char_is_digit(c) {
            proof {
                assert(!is_digit(b[i - start]));
                assert(!all_digits(b));
                assert(b == unsigned_body(v@));
                assert(parse_unsigned(v@, u64::MAX as nat) is None);
            }
            return None;
        }
        #[verifier::truncate]
        let d: u64 = (c as u32 - '0' as u32) as u64;
        proof {
            assert(d == digit_value(c));
            let t = b.take(i - start + 1);
            assert(t.drop_last() =~= b.take(i - start));
            assert(t.last() == c);
            assert(digits_value(t) == digits_value(b.take(i - start)) * 10 + d);
        }
        if !overflow {
            if value > (u64::MAX - d) / 10 {
                overflow = true;
                proof {
                    assert(value * 10 + d > u64::MAX) by (nonlinear_arith)
                        requires value > (u64::MAX - d) / 10, d <= 9;
                }
            } else {
                proof {
                    assert(value * 10 + d <= u64::MAX) by (nonlinear_arith)
                        requires value <= (u64::MAX - d) / 10, d <= 9;
                }
                value = value * 10 + d;
            }
        } else {
            proof {
                assert(digits_value(b.take(i - start)) * 10 + d > u64::MAX) by (nonlinear_arith)
                    requires digits_value(b.take(i - start)) > u64::MAX;
            }
        }
        i = i + 1;
    }
    proof {
        assert(b.take(b.len() as int) =~= b);
        assert(all_digits(b));
    }
    if overflow {
        None
    } else {
        Some(value)
    }
}

/// The digit character for a value below ten.
pub open spec fn digit_char(d: nat) -> char {
    ('0' as u32 + d) as char
}

/// The decimal representation of `n`, without leading zeros.
pub open spec fn decimal(n: nat) -> Seq<char>
    decreases n,
{
    if n < 10 {
        seq![digit_char(n)]
    } else {
        decimal(n / 10).push(digit_char(n % 10))
    }
}

/// The digit character for a value below ten.
pub fn digit_to_char(d: u64) -> (c: char)
    requires
        d < 10,
    ensures
        c == digit_char(d as nat),
{
    if d == 0 { '0' } else if d == 1 { '1' } else if d == 2 { '2' } else if d == 3 { '3' }
    else if d == 4 { '4' } else if d == 5 { '5' } else if d == 6 { '6' } else if d == 7 { '7' }
    else if d == 8 { '8' } else { '9' }
}

/// Appends the decimal representation of `n` to `s`.
pub fn push_decimal(s: &mut String, n: u64)
    ensures
        final(s)@ == old(s)@ + decimal(n as nat),
    decreases n,
{
    if n < 10 {
        push_char(s, digit_to_char(n));
        assert(final(s)@ =~= old(s)@ + decimal(n as nat));
    } else {
        push_decimal(s, n / 10);
        push_char(s, digit_to_char(n % 10));
        assert(final(s)@ =~= old(s)@ + decimal(n as nat));
    }
}

/// Appends the characters of `t` to `s`.
pub fn push_str(s: &mut String, t: &str)
    ensures
        final(s)@ == old(s)@ + t@,
{
    s.append(t);
}

/// Whether some character of `s` satisfies `p`.
pub open spec fn has_where(s: Seq<char>, p: spec_fn(char) -> bool) -> bool {
    exists|i: int| 0 <= i < s.len() && p(#[trigger] s[i])
}

/// Whether `i` is the first position whose character satisfies `p`.
pub open spec fn is_first_where(s: Seq<char>, p: spec_fn(char) -> bool, i: int) -> bool {
    &&& 0 <= i < s.len()
    &&& p(s[i])
    &&& forall|k: int| 0 <= k < i ==> !p(#[trigger] s[k])
}

/// The first position whose character satisfies `p` (meaningful when `has_where(s, p)`).
pub open spec fn first_where(s: Seq<char>, p: spec_fn(char) -> bool) -> int {
    choose|i: int| is_first_where(s, p, i)
}

/// The piece of `s` before the first character that satisfies `p`, and the
/// rest after that character, if there is one (`str::splitn(2, p)`).
pub open spec fn split_once_where(s: Seq<char>, p: spec_fn(char) -> bool) -> (Seq<char>, Option<Seq<char>>) {
    if has_where(s, p) {
        let i = first_where(s, p);
        (s.take(i), Some(s.skip(i + 1)))
    } else {
        (s, None)
    }
}

/// The first position of a predicate is unique.
pub proof fn lemma_first_where(s: Seq<char>, p: spec_fn(char) -> bool, i: int)
    requires
        is_first_where(s, p, i),
    ensures
        first_where(s, p) == i,
        has_where(s, p),
{
    let j = first_where(s, p);
    assert(is_first_where(s, p, j));
    if j < i {
        assert(!p(s[j]));
    }
    if i < j {
        assert(!p(s[i]));
    }
}

/// `s` without its prefix `p`, when it has it (`str::strip_prefix`).
pub open spec fn strip_prefix(s: Seq<char>, p: Seq<char>) -> Option<Seq<char>> {
    if has_prefix(s, p) {
        Some(s.skip(p.len() as int))
    } else {
        None
    }
}

/// `v` without its prefix `p`, when it has it.
pub fn strip_prefix_vec(v: &Vec<char>, p: &str) -> (r: Option<Vec<char>>)
    ensures
        match r {
            Some(x) => strip_prefix(v@, p@) == Some(x@),
            None => strip_prefix(v@, p@) is None,
        },
{
    let pv = chars_of(p);
    if starts_with_vec(v, &pv) {
        let x = slice_of(v, pv.len(), v.len());
        assert(x@ =~= v@.skip(p@.len() as int));
        Some(x)
    } else {
        None
    }
}

/// The piece of `v` before the first `c`, or all of `v` (`split(c).next()`).
pub fn before_char(v: &Vec<char>, c: char) -> (r: Vec<char>)
    ensures
        r@ == split(v@, c)[0],
{
    match find_char(v, c) {
        Some(j) => {
            proof {
                lemma_split_first(v@, c, j as int);
            }
            let r = slice_of(v, 0, j);
            assert(r@ =~= v@.take(j as int));
            r
        },
        None => {
            proof {
                assert forall|k: int| 0 <= k < v@.len() implies #[trigger] v@[k] != c by {
                    if v@[k] == c {
                        assert(has_char(v@, c));
                    }
                }
                lemma_split_first(v@, c, v@.len() as int);
                assert(v@.take(v@.len() as int) =~= v@);
            }
            slice_of(v, 0, v.len())
        },
    }
}

/// The first piece of a split ends at the first separator.
pub proof fn lemma_split_first(s: Seq<char>, c: char, j: int)
    requires
        0 <= j <= s.len(),
        forall|k: int| 0 <= k < j ==> #[trigger] s[k] != c,
        j == s.len() || s[j] == c,
    ensures
        split(s, c).len() >= 1,
        split(s, c)[0] == s.take(j),
        j == s.len() ==> split(s, c).len() == 1,
        j < s.len() ==> split(s, c).len() >= 2,
    decreases s.len(),
{
    if s.len() == 0 {
        assert(s.take(0) =~= s);
    } else {
        let d = s.drop_last();
        if j == s.len() {
            lemma_split_first(d, c, j - 1);
            assert(d.take(j - 1) =~= d);
            assert(d.push(s.last()) =~= s);
            assert(s.take(j) =~= s);
        } else if j == s.len() - 1 {
            lemma_split_first(d, c, j);
            assert(d.take(j) =~= d);
            assert(s.take(j) =~= d);
        } else {
            lemma_split_first(d, c, j);
            assert(d.take(j) =~= s.take(j));
        }
    }
}

} // verus!
