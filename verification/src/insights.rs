//! The integer rules behind the insight cards: how many sprints remain, when
//! a first sprint has elapsed, which issues and epics a card names. The cards'
//! story-point figures and their ranking by SP are the caller's.

use vstd::prelude::*;

use crate::model::{Epic, Increment, Issue, Sprint, SprintState};
use crate::spillover::chronic_in_scope;
use crate::text;
use crate::time;

verus! {

/// How serious an insight is; the derived order ranks `Critical` highest.
#[derive(Clone, Copy, Debug, PartialEq, Eq, Structural, PartialOrd, Ord, Hash)]
pub enum InsightSeverity {
    Info,
    Warning,
    Critical,
}

/// At most this many insight cards are shown.
pub const MAX_INSIGHTS: usize = 7;

/// The insight cards shown: the first `MAX_INSIGHTS` of them, in the order
/// they were ranked.
pub fn cap_insights<T>(ranked: Vec<T>) -> (r: Vec<T>)
    ensures
        r@ == if ranked@.len() > MAX_INSIGHTS { ranked@.take(MAX_INSIGHTS as int) } else { ranked@ },
        r@.len() <= MAX_INSIGHTS,
{
    let mut r = ranked;
    let ghost before = r@;
    r.truncate(MAX_INSIGHTS);
    proof {
        if before.len() <= MAX_INSIGHTS as nat {
            assert(r@ =~= before);
        } else {
            assert(r@ =~= before.take(MAX_INSIGHTS as int));
        }
    }
    r
}

/// A sprint is two weeks.
pub const SPRINT_DAYS: i64 = 14;

/// The last calendar day chrono can represent (+262142-12-31).
pub const MAX_DAY: i64 = 95_026_236i64;

/// Sprints that still fit in the calendar: the days left until the
/// increment's end (none once it is past), divided by a sprint's length and
/// rounded up.
pub open spec fn by_calendar_spec(end: int, today: int) -> int {
    let days_left = if end - today > 0 { end - today } else { 0 };
    (days_left + 13) / 14
}

pub fn remaining_sprints_by_calendar(increment: &Increment, today: i64) -> (r: u64)
    ensures
        r as int == by_calendar_spec(increment.end_date as int, today as int),
{
    let diff: i128 = increment.end_date as i128 - today as i128;
    let days_left: i128 = if diff > 0 { diff } else { 0 };
    let q: i128 = (days_left + 13) / 14;
    assert(q <= u64::MAX) by (nonlinear_arith)
        requires
            0 <= days_left <= 0x1_0000_0000_0000_0000int,
            q == (days_left + 13) / 14,
    ;
    q as u64
}

/// A sprint still to run in the increment: not closed, and not starting
/// after the increment's last day (a sprint without a start counts).
pub open spec fn still_to_run(increment: Increment, s: Sprint) -> bool {
    s.state != SprintState::Closed && match s.start_date {
        Some(t) => time::day_of(t as int) <= increment.end_date,
        None => true,
    }
}

/// The sprints left for the remaining work: those still to run, or the
/// calendar's count when that is larger.
pub open spec fn remaining_sprints_spec(increment: Increment, sprints: Seq<Sprint>, today: int) -> int {
    let n = sprints.filter(|s: Sprint| still_to_run(increment, s)).len() as int;
    let c = by_calendar_spec(increment.end_date as int, today);
    if n >= c { n } else { c }
}

pub fn remaining_sprint_count(increment: &Increment, sprints: &[Sprint], today: i64) -> (r: u64)
    ensures
        r as int == remaining_sprints_spec(*increment, sprints@, today as int),
{
    let ghost p = |s: Sprint| still_to_run(*increment, s);
    let mut n: u64 = 0;
    let mut k: usize = 0;
    while k < sprints.len()
        invariant
            k <= sprints@.len(),
            p == (|s: Sprint| still_to_run(*increment, s)),
            n == sprints@.take(k as int).filter(p).len(),
            n <= k,
        decreases sprints@.len() - k,
    {
        reveal_with_fuel(Seq::<_>::filter, 1);
        assert(sprints@.take(k + 1).drop_last() =~= sprints@.take(k as int));
        assert(sprints@.take(k + 1).last() == sprints@[k as int]);
        let s = &sprints[k];
        let runs = s.state != SprintState::Closed && match s.start_date {
            Some(t) => time::date_of(t) <= increment.end_date,
            None => true,
        };
        if runs {
            n = n + 1;
        }
        k = k + 1;
    }
    assert(sprints@.take(sprints@.len() as int) =~= sprints@);
    let c = remaining_sprints_by_calendar(increment, today);
    if n >= c {
        n
    } else {
        c
    }
}

/// Whether a whole sprint's worth of days has passed since the increment
/// started (the at-risk card waits for it).
pub fn one_sprint_elapsed(increment: &Increment, today: i64) -> (r: bool)
    requires
        increment.start_date + SPRINT_DAYS <= MAX_DAY,
    ensures
        r == (today >= increment.start_date + SPRINT_DAYS),
{
    today >= increment.start_date + SPRINT_DAYS
}

/// The keys the chronic-spill card lists: the first five in-scope chronic
/// offenders, comma-separated, with ", …" when there are more.
pub open spec fn chronic_keys_spec(issues: Seq<Issue>) -> Seq<char> {
    let keys = issues.filter(|i: Issue| chronic_in_scope(i)).map_values(|i: Issue| i.key@);
    let shown = if keys.len() > 5 { keys.take(5) } else { keys };
    text::join_spec(shown, ", "@) + if keys.len() > 5 { ", …"@ } else { Seq::empty() }
}

pub fn chronic_keys_text(issues: &[Issue]) -> (r: String)
    ensures
        r@ == chronic_keys_spec(issues@),
{
    let ghost p = |i: Issue| chronic_in_scope(i);
    let ghost all = issues@.filter(p).map_values(|i: Issue| i.key@);
    let mut shown: Vec<String> = Vec::new();
    let mut count: usize = 0;
    let mut k: usize = 0;
    while k < issues.len()
        invariant
            k <= issues@.len(),
            p == (|i: Issue| chronic_in_scope(i)),
            count == issues@.take(k as int).filter(p).len(),
            count <= k,
            shown@.len() == if count > 5 { 5 } else { count },
            shown@.map_values(|s: String| s@) == issues@.take(k as int).filter(p).map_values(|i: Issue| i.key@).take(
                shown@.len() as int,
            ),
        decreases issues@.len() - k,
    {
        reveal_with_fuel(Seq::<_>::filter, 1);
        let ghost before = issues@.take(k as int).filter(p);
        assert(issues@.take(k + 1).drop_last() =~= issues@.take(k as int));
        assert(issues@.take(k + 1).last() == issues@[k as int]);
        let i = &issues[k];
        if !i.descoped && crate::spillover::is_chronic(i) {
            let ghost after = issues@.take(k + 1).filter(p);
            assert(after =~= before.push(issues@[k as int]));
            if count < 5 {
                let ghost sb = shown@;
                let ghost bk = before.map_values(|i: Issue| i.key@);
                let ghost ak = after.map_values(|i: Issue| i.key@);
                assert(bk.take(sb.len() as int) =~= bk);
                assert(ak =~= bk.push(issues@[k as int].key@));
                let key = i.key.clone();
                shown.push(key);
                assert(shown@.map_values(|s: String| s@) =~= sb.map_values(|s: String| s@).push(issues@[k as int].key@));
                assert(ak.take(shown@.len() as int) =~= ak);
            } else {
                assert(after.map_values(|i: Issue| i.key@).take(5) =~= before.map_values(|i: Issue| i.key@).take(5));
            }
            count = count + 1;
        } else {
            assert(issues@.take(k + 1).filter(p) =~= before);
        }
        k = k + 1;
    }
    assert(issues@.take(issues@.len() as int) =~= issues@);
    let ghost keys = issues@.filter(p).map_values(|i: Issue| i.key@);
    assert(keys.len() == count);
    if count <= 5 {
        assert(keys.take(count as int) =~= keys);
    }
    let joined = text::join(&shown, ", ");
    if count > 5 {
        text::concat(joined.as_str(), ", …")
    } else {
        proof {
            assert(joined@ + Seq::<char>::empty() =~= joined@);
        }
        joined
    }
}

/// Positions of the epics that no issue names as its epic (their progress
/// falls back to the epic's own status), in order.
pub open spec fn childless(issues: Seq<Issue>, e: Epic) -> bool {
    forall|j: int| 0 <= j < issues.len() ==> #[trigger] issues[j].epic_key@ != e.key@
}

pub fn childless_epics(epics: &[Epic], issues: &[Issue]) -> (r: Vec<usize>)
    ensures
        forall|k: int| 0 <= k < r@.len() ==> (#[trigger] r@[k]) < epics@.len() && childless(issues@, epics@[r@[k] as int]),
        forall|a: int, b: int| 0 <= a < b < r@.len() ==> r@[a] < r@[b],
        forall|j: int| 0 <= j < epics@.len() && childless(issues@, #[trigger] epics@[j]) ==> exists|k: int| 0 <= k < r@.len() && r@[k] == j,
{
    let mut r: Vec<usize> = Vec::new();
    let mut j: usize = 0;
    while j < epics.len()
        invariant
            j <= epics@.len(),
            forall|k: int| 0 <= k < r@.len() ==> (#[trigger] r@[k]) < j && childless(issues@, epics@[r@[k] as int]),
            forall|a: int, b: int| 0 <= a < b < r@.len() ==> r@[a] < r@[b],
            forall|i: int| 0 <= i < j && childless(issues@, #[trigger] epics@[i]) ==> exists|k: int| 0 <= k < r@.len() && r@[k] == i,
        decreases epics@.len() - j,
    {
        let children = crate::timeline::epic_children(issues, epics[j].key.as_str());
        if children.len() == 0 {
            assert forall|m: int| 0 <= m < issues@.len() implies #[trigger] issues@[m].epic_key@ != epics@[j as int].key@ by {
                if issues@[m].epic_key@ == epics@[j as int].key@ {
                    assert(issues@[m].epic_key@ == epics[j as int].key@);
                }
            }
            let ghost before = r@;
            r.push(j);
            assert forall|i: int| 0 <= i < j + 1 && childless(issues@, #[trigger] epics@[i]) implies exists|k: int|
                0 <= k < r@.len() && r@[k] == i by {
                if i == j {
                    assert(r@[before.len() as int] == i);
                } else {
                    let k = choose|k: int| 0 <= k < before.len() && before[k] == i;
                    assert(r@[k] == i);
                }
            }
        } else {
            let c0 = children[0];
            assert(issues@[c0 as int].epic_key@ == epics@[j as int].key@);
            assert(!childless(issues@, epics@[j as int]));
        }
        j = j + 1;
    }
    r
}

} // verus!
