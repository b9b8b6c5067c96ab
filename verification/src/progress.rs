//! Progress formulas. The model is deliberately simple: progress = done SP /
//! total SP, binary, no partial credit — in-flight work is reported
//! alongside, never blended in. Descoped issues leave both numerator and
//! denominator. Story points are floating-point numbers, so the sums are
//! taken by the caller over the classification stated here.

use vstd::prelude::*;

use crate::model::{Issue, StatusCategory};
use crate::text;
use crate::time;

verus! {

/// Where an issue's story points count.
#[derive(Clone, Copy, Debug, PartialEq, Eq, Structural)]
pub enum SpBucket {
    /// Out of scope: counted only as descoped SP.
    Descoped,
    Done,
    InProgress,
    NotStarted,
}

pub open spec fn bucket_spec(i: Issue) -> SpBucket {
    if i.descoped {
        SpBucket::Descoped
    } else {
        match i.status_category {
            StatusCategory::Done => SpBucket::Done,
            StatusCategory::InProgress => SpBucket::InProgress,
            StatusCategory::New => SpBucket::NotStarted,
        }
    }
}

pub fn sp_bucket(issue: &Issue) -> (b: SpBucket)
    ensures
        b == bucket_spec(*issue),
{
    if issue.descoped {
        SpBucket::Descoped
    } else {
        match issue.status_category {
            StatusCategory::Done => SpBucket::Done,
            StatusCategory::InProgress => SpBucket::InProgress,
            StatusCategory::New => SpBucket::NotStarted,
        }
    }
}

/// Blocked SP: in scope, blocked, and not done.
pub open spec fn blocked_spec(i: Issue) -> bool {
    !i.descoped && i.blocked && i.status_category != StatusCategory::Done
}

pub fn counts_as_blocked(issue: &Issue) -> (r: bool)
    ensures
        r == blocked_spec(*issue),
{
    !issue.descoped && issue.blocked && issue.status_category != StatusCategory::Done
}

/// Imputed SP: in scope with an imputed estimate.
pub open spec fn imputed_spec(i: Issue) -> bool {
    !i.descoped && i.sp_imputed
}

pub fn counts_as_imputed(issue: &Issue) -> (r: bool)
    ensures
        r == imputed_spec(*issue),
{
    !issue.descoped && issue.sp_imputed
}

pub open spec fn in_scope(i: Issue) -> bool {
    !i.descoped
}

pub open spec fn done_in_scope(i: Issue) -> bool {
    !i.descoped && i.status_category == StatusCategory::Done
}

pub open spec fn unestimated_in_scope(i: Issue) -> bool {
    !i.descoped && !i.estimated
}

/// The issue counts of a progress breakdown.
#[derive(Clone, Copy, Debug, PartialEq, Eq, Structural)]
pub struct BreakdownCounts {
    pub total_count: u32,
    pub done_count: u32,
    pub unestimated_count: u32,
}

pub fn breakdown_counts(issues: &[Issue]) -> (c: BreakdownCounts)
    requires
        issues@.len() <= u32::MAX,
    ensures
        c.total_count == issues@.filter(|i: Issue| in_scope(i)).len(),
        c.done_count == issues@.filter(|i: Issue| done_in_scope(i)).len(),
        c.unestimated_count == issues@.filter(|i: Issue| unestimated_in_scope(i)).len(),
{
    let ghost p1 = |i: Issue| in_scope(i);
    let ghost p2 = |i: Issue| done_in_scope(i);
    let ghost p3 = |i: Issue| unestimated_in_scope(i);
    let mut total: u32 = 0;
    let mut done: u32 = 0;
    let mut unestimated: u32 = 0;
    let mut k: usize = 0;
    while k < issues.len()
        invariant
            k <= issues@.len(),
            issues@.len() <= u32::MAX,
            p1 == (|i: Issue| in_scope(i)),
            p2 == (|i: Issue| done_in_scope(i)),
            p3 == (|i: Issue| unestimated_in_scope(i)),
            total == issues@.take(k as int).filter(p1).len(),
            done == issues@.take(k as int).filter(p2).len(),
            unestimated == issues@.take(k as int).filter(p3).len(),
            total <= k,
            done <= k,
            unestimated <= k,
        decreases issues@.len() - k,
    {
        reveal_with_fuel(Seq::<_>::filter, 1);
        assert(issues@.take(k + 1).drop_last() =~= issues@.take(k as int));
        assert(issues@.take(k + 1).last() == issues@[k as int]);
        let i = &issues[k];
        if !i.descoped {
            total = total + 1;
            if i.status_category == StatusCategory::Done {
                done = done + 1;
            }
            if !i.estimated {
                unestimated = unestimated + 1;
            }
        }
        k = k + 1;
    }
    assert(issues@.take(issues@.len() as int) =~= issues@);
    BreakdownCounts { total_count: total, done_count: done, unestimated_count: unestimated }
}

/// An unestimated issue takes its epic's median estimate (and is flagged
/// imputed) when some in-scope issue of the same epic carries an estimate.
pub open spec fn imputed_for(issues: Seq<Issue>, i: Issue) -> bool {
    !i.estimated && exists|j: int|
        0 <= j < issues.len() && (#[trigger] issues[j]).estimated && !issues[j].descoped && issues[j].epic_key@
            == i.epic_key@
}

fn epic_has_estimate(issues: &[Issue], epic_key: &str) -> (r: bool)
    ensures
        r == exists|j: int|
            0 <= j < issues@.len() && (#[trigger] issues@[j]).estimated && !issues@[j].descoped && issues@[j].epic_key@
                == epic_key@,
{
    let mut j: usize = 0;
    while j < issues.len()
        invariant
            j <= issues@.len(),
            forall|x: int|
                0 <= x < j ==> !((#[trigger] issues@[x]).estimated && !issues@[x].descoped && issues@[x].epic_key@
                    == epic_key@),
        decreases issues@.len() - j,
    {
        let i = &issues[j];
        if i.estimated && !i.descoped && text::str_eq(i.epic_key.as_str(), epic_key) {
            return true;
        }
        j = j + 1;
    }
    false
}

/// For each issue, whether its estimate is imputed from its epic's median.
pub fn imputation_flags(issues: &[Issue]) -> (r: Vec<bool>)
    ensures
        r@.len() == issues@.len(),
        forall|k: int| 0 <= k < issues@.len() ==> #[trigger] r@[k] == imputed_for(issues@, issues@[k]),
{
    let mut r: Vec<bool> = Vec::new();
    let mut k: usize = 0;
    while k < issues.len()
        invariant
            k <= issues@.len(),
            r@.len() == k,
            forall|x: int| 0 <= x < k ==> #[trigger] r@[x] == imputed_for(issues@, issues@[x]),
        decreases issues@.len() - k,
    {
        let i = &issues[k];
        let flag = !i.estimated && epic_has_estimate(issues, i.epic_key.as_str());
        r.push(flag);
        k = k + 1;
    }
    r
}

/// Linear time expectation as an exact fraction `(elapsed, total)` of days,
/// clamped to [0, 1]: the share of the window `start..end` that has passed
/// by `today`. A window of no length counts as all passed from its end on.
pub open spec fn expected_fraction(start: int, end: int, today: int) -> (int, int) {
    if end - start <= 0 {
        if today >= end {
            (1, 1)
        } else {
            (0, 1)
        }
    } else if today - start < 0 {
        (0, end - start)
    } else if today - start > end - start {
        (end - start, end - start)
    } else {
        (today - start, end - start)
    }
}

/// The expected progress `(numerator, denominator)`; the caller divides.
pub fn expected_progress(start: i64, end: i64, today: i64) -> (r: (i64, i64))
    requires
        time::valid_day(start as int),
        time::valid_day(end as int),
        time::valid_day(today as int),
    ensures
        (r.0 as int, r.1 as int) == expected_fraction(start as int, end as int, today as int),
        r.1 > 0,
        0 <= r.0 <= r.1,
{
    let total = end - start;
    if total <= 0 {
        return if today >= end { (1, 1) } else { (0, 1) };
    }
    let elapsed = today - start;
    if elapsed < 0 {
        (0, total)
    } else if elapsed > total {
        (total, total)
    } else {
        (elapsed, total)
    }
}

} // verus!
