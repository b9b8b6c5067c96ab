//! The integer side of the chart series: which issues make up an epic's Gantt
//! row, which sprints close a burn-up step and in what order, which sync
//! snapshot gives the scope at an instant. Story-point sums are left to the
//! caller, who holds the floating-point estimates.

use vstd::prelude::*;

use crate::model::{Increment, Issue, Sprint, SprintState, StatusCategory};
use crate::order::{self, SortKey};
use crate::time;

verus! {

/// The positions of an epic's children (issues whose epic key is `epic_key`),
/// in their original order.
pub fn epic_children(issues: &[Issue], epic_key: &str) -> (r: Vec<usize>)
    ensures
        forall|k: int| 0 <= k < r@.len() ==> (#[trigger] r@[k]) < issues@.len() && issues@[r@[k] as int].epic_key@ == epic_key@,
        forall|a: int, b: int| 0 <= a < b < r@.len() ==> r@[a] < r@[b],
        forall|j: int| 0 <= j < issues@.len() && (#[trigger] issues@[j]).epic_key@ == epic_key@ ==> exists|k: int| 0 <= k < r@.len() && r@[k] == j,
{
    let mut r: Vec<usize> = Vec::new();
    let mut j: usize = 0;
    while j < issues.len()
        invariant
            j <= issues@.len(),
            forall|k: int| 0 <= k < r@.len() ==> (#[trigger] r@[k]) < j && issues@[r@[k] as int].epic_key@ == epic_key@,
            forall|a: int, b: int| 0 <= a < b < r@.len() ==> r@[a] < r@[b],
            forall|i: int| 0 <= i < j && (#[trigger] issues@[i]).epic_key@ == epic_key@ ==> exists|k: int| 0 <= k < r@.len() && r@[k] == i,
        decreases issues@.len() - j,
    {
        if crate::text::str_eq(issues[j].epic_key.as_str(), epic_key) {
            let ghost before = r@;
            r.push(j);
            assert forall|i: int| 0 <= i < j + 1 && (#[trigger] issues@[i]).epic_key@ == epic_key@ implies exists|k: int|
                0 <= k < r@.len() && r@[k] == i by {
                if i == j {
                    assert(r@[before.len() as int] == i);
                } else {
                    let k = choose|k: int| 0 <= k < before.len() && before[k] == i;
                    assert(r@[k] == i);
                }
            }
        }
        j = j + 1;
    }
    r
}

/// An issue whose open work has already spilled at least once.
pub open spec fn spilled_work_spec(i: Issue) -> bool {
    i.in_scope_spec() && !i.is_done_spec() && i.spill_count >= 1
}

/// Whether an issue's estimate counts toward a Gantt row's spilled SP.
pub fn counts_as_spilled_work(issue: &Issue) -> (r: bool)
    ensures
        r == spilled_work_spec(*issue),
{
    issue.in_scope() && !issue.is_done() && issue.spill_count >= 1
}

/// Whether an in-scope issue was done at instant `t`, replaying its history:
/// the burn-up's done line sums the estimates of these.
pub open spec fn done_at_spec(i: Issue, t: int) -> bool {
    i.in_scope_spec() && i.category_at_view(t) == StatusCategory::Done
}

pub fn done_at(issue: &Issue, t: i64) -> (r: bool)
    ensures
        r == done_at_spec(*issue, t as int),
{
    issue.in_scope() && issue.category_at(t) == StatusCategory::Done
}

/// A closed sprint whose end falls on a day of the increment and not after
/// `now`: each gives one burn-up point.
pub open spec fn burnup_step(increment: Increment, now: i64, s: Sprint) -> bool {
    &&& s.state == SprintState::Closed
    &&& s.end_date is Some
    &&& increment.start_date <= time::day_of(s.end_date->0 as int) <= increment.end_date
    &&& s.end_date->0 <= now
}

pub open spec fn end_key(s: Sprint) -> SortKey {
    SortKey { a: s.end_date->0 as i128, b: 0, c: 0 }
}

/// The burn-up's sprint steps, stably ordered by end instant.
pub open spec fn burnup_sprints_spec(increment: Increment, sprints: Seq<Sprint>, now: i64) -> Seq<Sprint> {
    order::sort_spec(
        sprints.filter(|s: Sprint| burnup_step(increment, now, s)).map_values(|s: Sprint| (end_key(s), s)),
    ).map_values(|p: (SortKey, Sprint)| p.1)
}

pub fn burnup_sprints(increment: &Increment, sprints: &[Sprint], now: i64) -> (r: Vec<Sprint>)
    ensures
        r@ == burnup_sprints_spec(*increment, sprints@, now),
{
    let ghost p = |s: Sprint| burnup_step(*increment, now, s);
    let mut keyed: Vec<(SortKey, Sprint)> = Vec::new();
    let mut k: usize = 0;
    while k < sprints.len()
        invariant
            k <= sprints@.len(),
            p == (|s: Sprint| burnup_step(*increment, now, s)),
            keyed@ == sprints@.take(k as int).filter(p).map_values(|s: Sprint| (end_key(s), s)),
        decreases sprints@.len() - k,
    {
        reveal_with_fuel(Seq::<_>::filter, 1);
        assert(sprints@.take(k + 1).drop_last() =~= sprints@.take(k as int));
        assert(sprints@.take(k + 1).last() == sprints@[k as int]);
        let s = &sprints[k];
        let step = match s.end_date {
            Some(e) => {
                let d = time::date_of(e);
                s.state == SprintState::Closed && increment.start_date <= d && d <= increment.end_date && e <= now
            },
            None => false,
        };
        if step {
            let e = s.end_date.unwrap();
            keyed.push((SortKey { a: e as i128, b: 0, c: 0 }, s.clone()));
            assert(keyed@ =~= sprints@.take(k + 1).filter(p).map_values(|s: Sprint| (end_key(s), s)));
        } else {
            assert(sprints@.take(k + 1).filter(p) =~= sprints@.take(k as int).filter(p));
        }
        k = k + 1;
    }
    assert(sprints@.take(sprints@.len() as int) =~= sprints@);
    order::values_of(order::sort_by_key(keyed))
}

/// The snapshot that gives the scope at `t`: among those taken at or before
/// `t`, one taken last, and of several taken at that same instant the one
/// listed last. `None` when every snapshot is later than `t`.
pub open spec fn latest_snapshot_spec(taken_at: Seq<i64>, t: i64, r: Option<usize>) -> bool {
    match r {
        None => forall|j: int| 0 <= j < taken_at.len() ==> #[trigger] taken_at[j] > t,
        Some(i) => {
            &&& i < taken_at.len()
            &&& taken_at[i as int] <= t
            &&& forall|j: int| 0 <= j < taken_at.len() && #[trigger] taken_at[j] <= t ==> taken_at[j] <= taken_at[i as int]
            &&& forall|j: int| i < j < taken_at.len() ==> #[trigger] taken_at[j] != taken_at[i as int]
        },
    }
}

pub fn latest_snapshot(taken_at: &[i64], t: i64) -> (r: Option<usize>)
    ensures
        latest_snapshot_spec(taken_at@, t, r),
{
    let mut best: Option<usize> = None;
    let mut j: usize = 0;
    while j < taken_at.len()
        invariant
            j <= taken_at@.len(),
            latest_snapshot_spec(taken_at@.take(j as int), t, best),
        decreases taken_at@.len() - j,
    {
        let ghost before = taken_at@.take(j as int);
        let ghost after = taken_at@.take(j + 1);
        assert(forall|i: int| 0 <= i < j ==> after[i] == before[i]);
        assert(after[j as int] == taken_at@[j as int]);
        let x = taken_at[j];
        if x <= t {
            match best {
                None => {
                    best = Some(j);
                },
                Some(b) => {
                    if x >= taken_at[b] {
                        best = Some(j);
                    }
                },
            }
        }
        j = j + 1;
    }
    assert(taken_at@.take(taken_at@.len() as int) =~= taken_at@);
    best
}

/// Whether the burn-up ends with a "Now" point: today is not past the
/// increment's last day.
pub fn shows_now_point(increment: &Increment, now: i64) -> (r: bool)
    ensures
        r == (time::day_of(now as int) <= increment.end_date),
{
    time::date_of(now) <= increment.end_date
}

} // verus!
