//! What the menu-bar tray shows: a summary line, a tooltip, and one line per
//! tool, most actionable first.
use vstd::prelude::*;

use crate::commands::{count_where, is_missing, is_outdated_status};
use crate::text::{decimal, push_decimal, push_str};
use crate::types::{opt_view, ToolStatus};

verus! {

/// Where a tool stands, for ordering the tray lines.
#[derive(Clone, Copy, Debug, PartialEq, Eq, Structural)]
pub enum Kind {
    Updated,
    Outdated,
    Missing,
    Unknown,
}

/// Where a tool stands: missing when it failed and has no version, outdated
/// when both versions are known and it is behind, unknown when the latest
/// version is not known, and up to date otherwise.
pub open spec fn kind_of(s: ToolStatus) -> Kind {
    if s.error is Some && s.installed_version is None {
        Kind::Missing
    } else if s.installed_version is Some && s.latest_version is Some && s.is_outdated {
        Kind::Outdated
    } else if s.installed_version is Some && s.latest_version is None {
        Kind::Unknown
    } else {
        Kind::Updated
    }
}

/// Where a tool stands.
pub fn status_kind(s: &ToolStatus) -> (r: Kind)
    ensures
        r == kind_of(*s),
{
    if s.error.is_some() && s.installed_version.is_none() {
        Kind::Missing
    } else if s.installed_version.is_some() && s.latest_version.is_some() && s.is_outdated {
        Kind::Outdated
    } else if s.installed_version.is_some() && s.latest_version.is_none() {
        Kind::Unknown
    } else {
        Kind::Updated
    }
}

/// The tray line of one tool, e.g. `🦀 Rust   1.88.0 → 1.97.1`.
pub open spec fn tool_line(s: ToolStatus) -> Seq<char> {
    let head = s.icon@ + " "@ + s.display_name@ + "   "@;
    match (opt_view(s.installed_version), opt_view(s.latest_version)) {
        (Some(i), Some(l)) => if s.is_outdated {
            head + i + " → "@ + l
        } else {
            head + i
        },
        (Some(i), None) => head + i,
        _ => head + "not installed"@,
    }
}

/// Render one tool as a menu line.
pub fn format_tool_line(s: &ToolStatus) -> (r: String)
    ensures
        r@ == tool_line(*s),
{
    let mut line = s.icon.clone();
    push_str(&mut line, " ");
    push_str(&mut line, s.display_name.as_str());
    push_str(&mut line, "   ");
    match (&s.installed_version, &s.latest_version) {
        (Some(installed), Some(latest)) => {
            push_str(&mut line, installed.as_str());
            if s.is_outdated {
                push_str(&mut line, " → ");
                push_str(&mut line, latest.as_str());
            }
        },
        (Some(installed), None) => {
            push_str(&mut line, installed.as_str());
        },
        _ => {
            push_str(&mut line, "not installed");
        },
    }
    line
}

/// The summary line of the tray menu.
pub open spec fn header_text(st: Seq<ToolStatus>) -> Seq<char> {
    if st.len() == 0 {
        "Toolpulse — not scanned yet"@
    } else {
        let missing = count_where(st, |s: ToolStatus| is_missing(s));
        let outdated = count_where(st, |s: ToolStatus| is_outdated_status(s));
        let installed = st.len() - missing;
        decimal((installed - outdated) as nat) + " up to date · "@ + decimal(outdated) + " updates · "@
            + decimal(missing) + " missing"@
    }
}

/// The tooltip of the tray icon.
pub open spec fn tooltip_text(st: Seq<ToolStatus>) -> Seq<char> {
    let outdated = count_where(st, |s: ToolStatus| is_outdated_status(s));
    if outdated > 0 {
        "Toolpulse — "@ + decimal(outdated) + " update(s) available"@
    } else {
        "Toolpulse — all up to date"@
    }
}

/// Count of outdated and missing statuses.
fn counts(statuses: &Vec<ToolStatus>) -> (r: (usize, usize))
    ensures
        r.0 == count_where(statuses@, |s: ToolStatus| is_outdated_status(s)),
        r.1 == count_where(statuses@, |s: ToolStatus| is_missing(s)),
{
    let ghost st = statuses@;
    let mut outdated: usize = 0;
    let mut missing: usize = 0;
    let mut i: usize = 0;
    proof {
        assert(st.take(0) =~= Seq::<ToolStatus>::empty());
    }
    while i < statuses.len()
        invariant
            st == statuses@,
            i <= statuses.len(),
            outdated == count_where(st.take(i as int), |s: ToolStatus| is_outdated_status(s)),
            missing == count_where(st.take(i as int), |s: ToolStatus| is_missing(s)),
            outdated <= i,
            missing <= i,
        decreases statuses.len() - i,
    {
        proof {
            assert(st.take(i + 1).drop_last() =~= st.take(i as int));
        }
        if statuses[i].is_outdated {
            outdated = outdated + 1;
        }
        if statuses[i].installed_version.is_none() {
            missing = missing + 1;
        }
        i = i + 1;
    }
    proof {
        assert(st.take(i as int) =~= st);
    }
    (outdated, missing)
}

/// Whether the summary line can be written: no more tools are outdated than
/// are installed (the outdated and the missing together are at most all).
pub fn header_counts_fit(statuses: &Vec<ToolStatus>) -> (r: bool)
    ensures
        r == (count_where(statuses@, |s: ToolStatus| is_outdated_status(s)) + count_where(
            statuses@,
            |s: ToolStatus| is_missing(s),
        ) <= statuses@.len()),
{
    let (outdated, missing) = counts(statuses);
    outdated as u128 + missing as u128 <= statuses.len() as u128
}

/// The summary line of the tray menu: how many tools are up to date, have
/// updates, or are missing.
pub fn menu_header(statuses: &Vec<ToolStatus>) -> (r: String)
    requires
        count_where(statuses@, |s: ToolStatus| is_outdated_status(s)) + count_where(
            statuses@,
            |s: ToolStatus| is_missing(s),
        ) <= statuses@.len(),
    ensures
        r@ == header_text(statuses@),
{
    if statuses.len() == 0 {
        return String::from_str("Toolpulse — not scanned yet");
    }
    let (outdated, missing) = counts(statuses);
    let installed = statuses.len() - missing;
    let up_to_date = installed - outdated;
    let mut r = String::new();
    push_decimal(&mut r, up_to_date as u64);
    push_str(&mut r, " up to date · ");
    push_decimal(&mut r, outdated as u64);
    push_str(&mut r, " updates · ");
    push_decimal(&mut r, missing as u64);
    push_str(&mut r, " missing");
    r
}

/// The tooltip of the tray icon after a scan.
pub fn tray_tooltip(statuses: &Vec<ToolStatus>) -> (r: String)
    ensures
        r@ == tooltip_text(statuses@),
{
    let (outdated, _) = counts(statuses);
    if outdated > 0 {
        let mut r = String::from_str("Toolpulse — ");
        push_decimal(&mut r, outdated as u64);
        push_str(&mut r, " update(s) available");
        r
    } else {
        String::from_str("Toolpulse — all up to date")
    }
}

/// The rank of a kind in the tray: outdated first, then missing, unknown and
/// up to date.
pub open spec fn rank(k: Kind) -> nat {
    match k {
        Kind::Outdated => 0,
        Kind::Missing => 1,
        Kind::Unknown => 2,
        Kind::Updated => 3,
    }
}

/// The positions, among the first `k` statuses, of those of rank `r`.
pub open spec fn positions_of_rank(st: Seq<ToolStatus>, r: nat, k: nat) -> Seq<usize>
    decreases k,
{
    if k == 0 {
        Seq::empty()
    } else {
        let init = positions_of_rank(st, r, (k - 1) as nat);
        if rank(kind_of(st[k - 1])) == r {
            init.push((k - 1) as usize)
        } else {
            init
        }
    }
}

/// The order of the tray lines: a stable sort of the statuses by rank.
pub open spec fn tray_order_spec(st: Seq<ToolStatus>) -> Seq<usize> {
    positions_of_rank(st, 0, st.len()) + positions_of_rank(st, 1, st.len()) + positions_of_rank(
        st,
        2,
        st.len(),
    ) + positions_of_rank(st, 3, st.len())
}

/// Appends the positions of rank `r`.
fn push_rank(statuses: &Vec<ToolStatus>, r: u8, out: &mut Vec<usize>)
    ensures
        final(out)@ == old(out)@ + positions_of_rank(statuses@, r as nat, statuses@.len()),
{
    let ghost start = out@;
    let mut i: usize = 0;
    proof {
        assert(start + positions_of_rank(statuses@, r as nat, 0) =~= start);
    }
    while i < statuses.len()
        invariant
            i <= statuses.len(),
            out@ == start + positions_of_rank(statuses@, r as nat, i as nat),
        decreases statuses.len() - i,
    {
        let k = status_kind(&statuses[i]);
        let kr: u8 = match k {
            Kind::Outdated => 0,
            Kind::Missing => 1,
            Kind::Unknown => 2,
            Kind::Updated => 3,
        };
        if kr == r {
            out.push(i);
        }
        i = i + 1;
        assert(out@ =~= start + positions_of_rank(statuses@, r as nat, i as nat));
    }
}

/// The order in which the tools are listed in the tray, most actionable
/// first: the positions of the statuses, sorted stably by rank.
pub fn tray_order(statuses: &Vec<ToolStatus>) -> (r: Vec<usize>)
    ensures
        r@ == tray_order_spec(statuses@),
{
    let mut out: Vec<usize> = Vec::new();
    push_rank(statuses, 0, &mut out);
    push_rank(statuses, 1, &mut out);
    push_rank(statuses, 2, &mut out);
    push_rank(statuses, 3, &mut out);
    assert(out@ =~= tray_order_spec(statuses@));
    out
}


/// The rank of the status at a position.
pub open spec fn rank_at(st: Seq<ToolStatus>, i: usize) -> nat {
    rank(kind_of(st[i as int]))
}

/// Whether `o` lists positions of `st` in tray order: each before the next
/// by rank, and by position within a rank (so no position twice).
pub open spec fn tray_ordered(st: Seq<ToolStatus>, o: Seq<usize>) -> bool {
    &&& forall|a: int| 0 <= a < o.len() ==> #[trigger] o[a] < st.len()
    &&& forall|a: int, b: int|
        0 <= a < b < o.len() ==> rank_at(st, #[trigger] o[a]) < rank_at(st, #[trigger] o[b]) || (
        rank_at(st, o[a]) == rank_at(st, o[b]) && o[a] < o[b])
}

/// The positions of one rank among the first `k` statuses are increasing,
/// of that rank, and include every such position.
proof fn lemma_positions_of_rank(st: Seq<ToolStatus>, r: nat, k: nat)
    requires
        k <= st.len() <= usize::MAX,
    ensures
        tray_ordered(st, positions_of_rank(st, r, k)),
        forall|a: int|
            0 <= a < positions_of_rank(st, r, k).len() ==> #[trigger] positions_of_rank(st, r, k)[a]
                < k && rank_at(st, positions_of_rank(st, r, k)[a]) == r,
        forall|i: int|
            0 <= i < k && rank(kind_of(st[i])) == r ==> #[trigger] positions_of_rank(
                st,
                r,
                k,
            ).contains(i as usize),
    decreases k,
{
    if k > 0 {
        let km = (k - 1) as nat;
        lemma_positions_of_rank(st, r, km);
        let init = positions_of_rank(st, r, km);
        let p = positions_of_rank(st, r, k);
        if rank(kind_of(st[k - 1])) == r {
            assert(p == init.push((k - 1) as usize));
            assert forall|a: int| 0 <= a < p.len() implies #[trigger] p[a] < k && rank_at(st, p[a]) == r by {
                if a < init.len() {
                    assert(p[a] == init[a]);
                }
            }
            assert forall|a: int, b: int| 0 <= a < b < p.len() implies rank_at(st, #[trigger] p[a]) < rank_at(
                st,
                #[trigger] p[b],
            ) || (rank_at(st, p[a]) == rank_at(st, p[b]) && p[a] < p[b]) by {
                assert(p[a] == init[a]);
                if b < init.len() {
                    assert(p[b] == init[b]);
                }
            }
            assert forall|i: int| 0 <= i < k && rank(kind_of(st[i])) == r implies p.contains(
                i as usize,
            ) by {
                if i < k - 1 {
                    assert(init.contains(i as usize));
                    let j = choose|j: int| 0 <= j < init.len() && init[j] == i as usize;
                    assert(p[j] == i as usize);
                } else {
                    assert(p[init.len() as int] == i as usize);
                }
            }
        } else {
            assert(p == init);
            assert forall|i: int| 0 <= i < k && rank(kind_of(st[i])) == r implies p.contains(
                i as usize,
            ) by {
                assert(i < k - 1);
                assert(init.contains(i as usize));
            }
        }
    }
}

/// Ordered positions of lower ranks followed by increasing positions of
/// the next rank are still ordered.
proof fn lemma_ordered_append(st: Seq<ToolStatus>, x: Seq<usize>, y: Seq<usize>, m: nat)
    requires
        tray_ordered(st, x),
        tray_ordered(st, y),
        forall|a: int| 0 <= a < x.len() ==> rank_at(st, #[trigger] x[a]) < m,
        forall|a: int| 0 <= a < y.len() ==> rank_at(st, #[trigger] y[a]) == m,
    ensures
        tray_ordered(st, x + y),
        forall|a: int| 0 <= a < (x + y).len() ==> rank_at(st, #[trigger] (x + y)[a]) <= m,
{
    let z = x + y;
    assert forall|a: int, b: int| 0 <= a < b < z.len() implies rank_at(st, #[trigger] z[a]) < rank_at(
        st,
        #[trigger] z[b],
    ) || (rank_at(st, z[a]) == rank_at(st, z[b]) && z[a] < z[b]) by {
        if b < x.len() {
            assert(z[a] == x[a] && z[b] == x[b]);
        } else if a >= x.len() {
            assert(z[a] == y[a - x.len()] && z[b] == y[b - x.len()]);
        } else {
            assert(z[a] == x[a] && z[b] == y[b - x.len()]);
        }
    }
    assert forall|a: int| 0 <= a < z.len() implies #[trigger] z[a] < st.len() by {
        if a < x.len() {
            assert(z[a] == x[a]);
        } else {
            assert(z[a] == y[a - x.len()]);
        }
    }
    assert forall|a: int| 0 <= a < z.len() implies rank_at(st, #[trigger] z[a]) <= m by {
        if a < x.len() {
            assert(z[a] == x[a]);
        } else {
            assert(z[a] == y[a - x.len()]);
        }
    }
}

/// Together the four ranks account for every one of the first `k` statuses.
proof fn lemma_rank_counts(st: Seq<ToolStatus>, k: nat)
    requires
        k <= st.len() <= usize::MAX,
    ensures
        positions_of_rank(st, 0, k).len() + positions_of_rank(st, 1, k).len() + positions_of_rank(
            st,
            2,
            k,
        ).len() + positions_of_rank(st, 3, k).len() == k,
    decreases k,
{
    if k > 0 {
        lemma_rank_counts(st, (k - 1) as nat);
    }
}

/// The tray lists every tool exactly once, most actionable first: the
/// order has one entry per status, every status appears in it, the ranks
/// never decrease along it, and tools of one rank keep their order.
pub proof fn lemma_tray_order(st: Seq<ToolStatus>)
    requires
        st.len() <= usize::MAX,
    ensures
        tray_order_spec(st).len() == st.len(),
        forall|i: int| 0 <= i < st.len() ==> #[trigger] tray_order_spec(st).contains(i as usize),
        tray_ordered(st, tray_order_spec(st)),
{
    let n = st.len();
    let p0 = positions_of_rank(st, 0, n);
    let p1 = positions_of_rank(st, 1, n);
    let p2 = positions_of_rank(st, 2, n);
    let p3 = positions_of_rank(st, 3, n);
    lemma_positions_of_rank(st, 0, n);
    lemma_positions_of_rank(st, 1, n);
    lemma_positions_of_rank(st, 2, n);
    lemma_positions_of_rank(st, 3, n);
    lemma_rank_counts(st, n);
    assert(tray_ordered(st, Seq::<usize>::empty()));
    lemma_ordered_append(st, Seq::<usize>::empty(), p0, 0);
    assert(Seq::<usize>::empty() + p0 =~= p0);
    lemma_ordered_append(st, p0, p1, 1);
    lemma_ordered_append(st, p0 + p1, p2, 2);
    lemma_ordered_append(st, p0 + p1 + p2, p3, 3);
    let o = tray_order_spec(st);
    assert(o == p0 + p1 + p2 + p3);
    assert forall|i: int| 0 <= i < n implies #[trigger] o.contains(i as usize) by {
        let r = rank(kind_of(st[i]));
        let q = positions_of_rank(st, r, n);
        assert(q.contains(i as usize));
        let j = choose|j: int| 0 <= j < q.len() && q[j] == i as usize;
        if r == 0 {
            assert(o[j] == i as usize);
        } else if r == 1 {
            assert(o[p0.len() + j] == i as usize);
        } else if r == 2 {
            assert(o[p0.len() + p1.len() + j] == i as usize);
        } else {
            assert(o[p0.len() + p1.len() + p2.len() + j] == i as usize);
        }
    }
}

} // verus!
