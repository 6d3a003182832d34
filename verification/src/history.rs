//! The version history: one row per tool and scan, queried by age.
//!
//! The rows live in an SQLite database that the caller opens; the library
//! decides which rows a scan writes and from which moment a query reads.
use vstd::prelude::*;

use crate::types::{clock_reading, opt_view, timestamp_from, ToolStatus};

verus! {

/// Seconds in a day.
pub const SECONDS_PER_DAY: i64 = 86_400;

/// The oldest check time that a query for the last `days` days, made at
/// `now`, returns.
pub open spec fn cutoff_of(now: int, days: int) -> int {
    now - days * 86_400
}

/// The oldest check time a query for the last `days` days, made at `now`,
/// returns; `None` when `days * 86400` or that moment does not fit in `i64`.
pub open spec fn cutoff_at_spec(now: i64, days: i64) -> Option<i64> {
    if i64::MIN <= days * 86_400 <= i64::MAX && i64::MIN <= cutoff_of(now as int, days as int)
        <= i64::MAX {
        Some(cutoff_of(now as int, days as int) as i64)
    } else {
        None
    }
}

/// The oldest check time a query for the last `days` days returns, at the
/// clock reading `now`.
pub fn cutoff_at(now: i64, days: i64) -> (r: Option<i64>)
    ensures
        r == cutoff_at_spec(now, days),
{
    match days.checked_mul(SECONDS_PER_DAY) {
        Some(span) => now.checked_sub(span),
        None => None,
    }
}

/// The oldest check time a query for the last `days` days returns, read
/// against the system clock: `cutoff_at` at the current Unix time, or `None`
/// when the clock reads beyond `i64`.
///
/// Which moment the clock reads is not stated.
pub fn recent_cutoff(days: i64) -> (r: Option<i64>)
    ensures
        r is None || exists|now: i64| r == #[trigger] cutoff_at_spec(now, days),
{
    match timestamp_from(clock_reading()) {
        Some(now) => {
            let r = cutoff_at(now, days);
            assert(r == cutoff_at_spec(now, days));
            r
        },
        None => None,
    }
}

/// A history row, as plain values: tool name, installed version, latest
/// version, whether outdated, and the check time.
pub open spec fn row_of(s: ToolStatus) -> (Seq<char>, Option<Seq<char>>, Option<Seq<char>>, bool, i64) {
    (s.name@, opt_view(s.installed_version), opt_view(s.latest_version), s.is_outdated, s.checked_at)
}

/// The rows a scan writes: one per tool status, in order.
pub fn history_rows(statuses: &Vec<ToolStatus>) -> (r: Vec<(String, Option<String>, Option<String>, bool, i64)>)
    ensures
        r@.len() == statuses@.len(),
        forall|i: int|
            0 <= i < r@.len() ==> (r@[i].0@, opt_view(r@[i].1), opt_view(r@[i].2), r@[i].3, r@[i].4)
                == row_of(#[trigger] statuses@[i]),
{
    let mut out: Vec<(String, Option<String>, Option<String>, bool, i64)> = Vec::new();
    let mut i: usize = 0;
    while i < statuses.len()
        invariant
            i <= statuses.len(),
            out@.len() == i,
            forall|k: int|
                0 <= k < i ==> (out@[k].0@, opt_view(out@[k].1), opt_view(out@[k].2), out@[k].3, out@[k].4)
                    == row_of(#[trigger] statuses@[k]),
        decreases statuses.len() - i,
    {
        let s = &statuses[i];
        let row = (
            s.name.clone(),
            crate::types::clone_opt(&s.installed_version),
            crate::types::clone_opt(&s.latest_version),
            s.is_outdated,
            s.checked_at,
        );
        out.push(row);
        i = i + 1;
    }
    out
}

} // verus!
