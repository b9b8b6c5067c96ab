//! Spillover detection and per-sprint commitment facts.
//!
//! - An issue spilled in sprint S when S is closed, the issue sat in S, and
//!   it was not Done at sprint close (descoped issues never spill).
//! - `spillover_rate(S)` = committed-but-not-done SP / committed SP. Issues
//!   added mid-sprint are excluded from the commitment denominator so that
//!   scope-adding sprints don't read as failing sprints.
//!
//! The story-point sums are the caller's (floating point); the roles each
//! issue plays in a sprint, and the counts, are stated here.

use vstd::prelude::*;

use crate::model::{Epic, Issue, IssueSprint, Sprint, SprintState, StatusCategory};
use crate::order::{self, SortKey};
use crate::text;

verus! {

/// The first link of an issue to a sprint.
pub open spec fn first_link(links: Seq<IssueSprint>, id: i64) -> Option<IssueSprint>
    decreases links.len(),
{
    if links.len() == 0 {
        None
    } else if links[0].sprint_id == id {
        Some(links[0])
    } else {
        first_link(links.drop_first(), id)
    }
}

/// The part an in-scope issue plays in one sprint.
#[derive(Clone, Copy, Debug, PartialEq, Eq, Structural)]
pub struct SprintRole {
    /// Committed at sprint start (else added mid-sprint).
    pub committed: bool,
    /// Done at close (closed sprint) or done now (other sprints).
    pub done_here: bool,
    /// The sprint closed with the issue not done.
    pub spilled: bool,
}

pub open spec fn role_spec(sprint: Sprint, issue: Issue) -> Option<SprintRole> {
    if issue.descoped {
        None
    } else {
        match first_link(issue.sprints@, sprint.id) {
            None => None,
            Some(l) => Some(
                SprintRole {
                    committed: l.was_committed,
                    done_here: if sprint.state == SprintState::Closed {
                        l.done_at_close == Some(true)
                    } else {
                        issue.status_category == StatusCategory::Done
                    },
                    spilled: sprint.state == SprintState::Closed && l.done_at_close == Some(false),
                },
            ),
        }
    }
}

pub(crate) fn first_link_exec(links: &Vec<IssueSprint>, id: i64) -> (r: Option<IssueSprint>)
    ensures
        r == first_link(links@, id),
{
    let mut i: usize = 0;
    assert(links@.subrange(0, links@.len() as int) =~= links@);
    while i < links.len()
        invariant
            i <= links@.len(),
            first_link(links@, id) == first_link(links@.subrange(i as int, links@.len() as int), id),
        decreases links@.len() - i,
    {
        let ghost rest = links@.subrange(i as int, links@.len() as int);
        assert(rest.drop_first() =~= links@.subrange(i + 1, links@.len() as int));
        assert(rest[0] == links@[i as int]);
        if links[i].sprint_id == id {
            return Some(links[i]);
        }
        i = i + 1;
    }
    None
}

/// The role an issue plays in a sprint; `None` when it is descoped or never
/// sat in the sprint.
pub fn sprint_role(sprint: &Sprint, issue: &Issue) -> (r: Option<SprintRole>)
    ensures
        r == role_spec(*sprint, *issue),
{
    if issue.descoped {
        return None;
    }
    match first_link_exec(&issue.sprints, sprint.id) {
        None => None,
        Some(l) => Some(
            SprintRole {
                committed: l.was_committed,
                done_here: if sprint.state == SprintState::Closed {
                    l.done_at_close == Some(true)
                } else {
                    issue.status_category == StatusCategory::Done
                },
                spilled: sprint.state == SprintState::Closed && l.done_at_close == Some(false),
            },
        ),
    }
}

pub open spec fn committed_in(sprint: Sprint, i: Issue) -> bool {
    role_spec(sprint, i) matches Some(r) && r.committed
}

pub open spec fn spilled_in(sprint: Sprint, i: Issue) -> bool {
    role_spec(sprint, i) matches Some(r) && r.spilled
}

/// How many issues were committed to a sprint, and how many spilled from it.
pub fn sprint_counts(sprint: &Sprint, issues: &[Issue]) -> (r: (u32, u32))
    requires
        issues@.len() <= u32::MAX,
    ensures
        r.0 == issues@.filter(|i: Issue| committed_in(*sprint, i)).len(),
        r.1 == issues@.filter(|i: Issue| spilled_in(*sprint, i)).len(),
{
    let ghost p1 = |i: Issue| committed_in(*sprint, i);
    let ghost p2 = |i: Issue| spilled_in(*sprint, i);
    let mut committed: u32 = 0;
    let mut spilled: u32 = 0;
    let mut k: usize = 0;
    while k < issues.len()
        invariant
            k <= issues@.len(),
            issues@.len() <= u32::MAX,
            p1 == (|i: Issue| committed_in(*sprint, i)),
            p2 == (|i: Issue| spilled_in(*sprint, i)),
            committed == issues@.take(k as int).filter(p1).len(),
            spilled == issues@.take(k as int).filter(p2).len(),
            committed <= k,
            spilled <= k,
        decreases issues@.len() - k,
    {
        reveal_with_fuel(Seq::<_>::filter, 1);
        assert(issues@.take(k + 1).drop_last() =~= issues@.take(k as int));
        assert(issues@.take(k + 1).last() == issues@[k as int]);
        match sprint_role(sprint, &issues[k]) {
            Some(r) => {
                if r.committed {
                    committed = committed + 1;
                }
                if r.spilled {
                    spilled = spilled + 1;
                }
            },
            None => {},
        }
        k = k + 1;
    }
    assert(issues@.take(issues@.len() as int) =~= issues@);
    (committed, spilled)
}

/// Work entering the current sprint that was committed to an earlier sprint
/// and remains undone: in scope, not done, spilled at least once.
pub open spec fn carried_forward_spec(i: Issue) -> bool {
    !i.descoped && i.status_category != StatusCategory::Done && i.spill_count >= 1
}

pub fn is_carried_forward(issue: &Issue) -> (r: bool)
    ensures
        r == carried_forward_spec(*issue),
{
    !issue.descoped && issue.status_category != StatusCategory::Done && issue.spill_count >= 1
}

/// A row of the spillover report: every spilled, still-open issue, that is,
/// in scope, not done, and spilled at least once.
pub open spec fn spilled_row_spec(i: Issue) -> bool {
    !i.descoped && i.status_category != StatusCategory::Done && i.spill_count >= 1
}

pub fn is_spilled_row(issue: &Issue) -> (r: bool)
    ensures
        r == spilled_row_spec(*issue),
{
    !issue.descoped && issue.status_category != StatusCategory::Done && issue.spill_count >= 1
}

/// A chronic offender: spilled across two or more sprints and still open.
pub open spec fn chronic_spec(i: Issue) -> bool {
    i.spill_count >= 2 && i.status_category != StatusCategory::Done
}

pub fn is_chronic(issue: &Issue) -> (r: bool)
    ensures
        r == chronic_spec(*issue),
{
    issue.spill_count >= 2 && issue.status_category != StatusCategory::Done
}

pub open spec fn chronic_in_scope(i: Issue) -> bool {
    !i.descoped && chronic_spec(i)
}

/// In-scope chronic offenders (the dashboard's count).
pub fn chronic_count(issues: &[Issue]) -> (n: u32)
    requires
        issues@.len() <= u32::MAX,
    ensures
        n == issues@.filter(|i: Issue| chronic_in_scope(i)).len(),
{
    let ghost p = |i: Issue| chronic_in_scope(i);
    let mut n: u32 = 0;
    let mut k: usize = 0;
    while k < issues.len()
        invariant
            k <= issues@.len(),
            issues@.len() <= u32::MAX,
            p == (|i: Issue| chronic_in_scope(i)),
            n == issues@.take(k as int).filter(p).len(),
            n <= k,
        decreases issues@.len() - k,
    {
        reveal_with_fuel(Seq::<_>::filter, 1);
        assert(issues@.take(k + 1).drop_last() =~= issues@.take(k as int));
        assert(issues@.take(k + 1).last() == issues@[k as int]);
        if !issues[k].descoped && is_chronic(&issues[k]) {
            n = n + 1;
        }
        k = k + 1;
    }
    assert(issues@.take(issues@.len() as int) =~= issues@);
    n
}

/// The name of a sprint id (a later sprint with the same id overrides an
/// earlier one), else `Sprint <id>`.
pub open spec fn sprint_name_spec(sprints: Seq<Sprint>, id: i64) -> Seq<char>
    decreases sprints.len(),
{
    if sprints.len() == 0 {
        "Sprint "@ + text::decimal_spec(id as int)
    } else if sprints.last().id == id {
        sprints.last().name@
    } else {
        sprint_name_spec(sprints.drop_last(), id)
    }
}

/// The names of the sprints an issue spilled from, in link order.
pub open spec fn spilled_names_spec(links: Seq<IssueSprint>, sprints: Seq<Sprint>) -> Seq<Seq<char>>
    decreases links.len(),
{
    if links.len() == 0 {
        Seq::empty()
    } else {
        let prev = spilled_names_spec(links.drop_last(), sprints);
        if links.last().done_at_close == Some(false) {
            prev.push(sprint_name_spec(sprints, links.last().sprint_id))
        } else {
            prev
        }
    }
}

fn sprint_name(sprints: &[Sprint], id: i64) -> (n: String)
    ensures
        n@ == sprint_name_spec(sprints@, id),
{
    let mut i: usize = sprints.len();
    assert(sprints@.take(i as int) =~= sprints@);
    while i > 0
        invariant
            i <= sprints@.len(),
            sprint_name_spec(sprints@, id) == sprint_name_spec(sprints@.take(i as int), id),
        decreases i,
    {
        assert(sprints@.take(i as int).drop_last() =~= sprints@.take(i - 1));
        assert(sprints@.take(i as int).last() == sprints@[i - 1]);
        if sprints[i - 1].id == id {
            return sprints[i - 1].name.clone();
        }
        i = i - 1;
    }
    let digits = text::decimal(id);
    text::concat("Sprint ", digits.as_str())
}

/// The names of the sprints an issue spilled from.
pub fn spilled_sprint_names(issue: &Issue, sprints: &[Sprint]) -> (names: Vec<String>)
    ensures
        names@.map_values(|s: String| s@) == spilled_names_spec(issue.sprints@, sprints@),
{
    let mut names: Vec<String> = Vec::new();
    let mut k: usize = 0;
    assert(issue.sprints@.take(0) =~= Seq::<IssueSprint>::empty());
    assert(names@.map_values(|s: String| s@) =~= Seq::<Seq<char>>::empty());
    while k < issue.sprints.len()
        invariant
            k <= issue.sprints@.len(),
            names@.map_values(|s: String| s@) == spilled_names_spec(issue.sprints@.take(k as int), sprints@),
        decreases issue.sprints@.len() - k,
    {
        assert(issue.sprints@.take(k + 1).drop_last() =~= issue.sprints@.take(k as int));
        assert(issue.sprints@.take(k + 1).last() == issue.sprints@[k as int]);
        let l = issue.sprints[k];
        if l.done_at_close == Some(false) {
            let ghost before = names@;
            names.push(sprint_name(sprints, l.sprint_id));
            assert(names@.map_values(|s: String| s@) =~= before.map_values(|s: String| s@).push(
                sprint_name_spec(sprints@, l.sprint_id),
            ));
        }
        k = k + 1;
    }
    assert(issue.sprints@.take(issue.sprints@.len() as int) =~= issue.sprints@);
    names
}

/// Closed and active sprints (not future ones), stably ordered by start; a
/// sprint without a start sorts at `now`.
pub open spec fn started_key(s: Sprint, now: i64) -> SortKey {
    SortKey {
        a: match s.start_date {
            Some(t) => t as i128,
            None => now as i128,
        },
        b: 0,
        c: 0,
    }
}

pub open spec fn keyed_started(sprints: Seq<Sprint>, now: i64) -> Seq<(SortKey, Sprint)> {
    sprints.filter(|s: Sprint| s.state != SprintState::Future).map_values(|s: Sprint| (started_key(s, now), s))
}

pub open spec fn started_order_spec(sprints: Seq<Sprint>, now: i64) -> Seq<Sprint> {
    order::sort_spec(keyed_started(sprints, now)).map_values(|p: (SortKey, Sprint)| p.1)
}

/// The sprints of the per-sprint charts: closed and active ones, ordered by
/// start (`now` standing in for a missing start).
pub fn started_sprints_in_order(sprints: &[Sprint], now: i64) -> (r: Vec<Sprint>)
    ensures
        r@ == started_order_spec(sprints@, now),
{
    let ghost p = |s: Sprint| s.state != SprintState::Future;
    let mut keyed: Vec<(SortKey, Sprint)> = Vec::new();
    let mut k: usize = 0;
    while k < sprints.len()
        invariant
            k <= sprints@.len(),
            p == (|s: Sprint| s.state != SprintState::Future),
            keyed@ == sprints@.take(k as int).filter(p).map_values(|s: Sprint| (started_key(s, now), s)),
        decreases sprints@.len() - k,
    {
        reveal_with_fuel(Seq::<_>::filter, 1);
        assert(sprints@.take(k + 1).drop_last() =~= sprints@.take(k as int));
        assert(sprints@.take(k + 1).last() == sprints@[k as int]);
        let s = &sprints[k];
        if s.state != SprintState::Future {
            let key = SortKey {
                a: match s.start_date {
                    Some(t) => t as i128,
                    None => now as i128,
                },
                b: 0,
                c: 0,
            };
            let ghost before = keyed@;
            keyed.push((key, s.clone()));
            assert(keyed@ =~= sprints@.take(k + 1).filter(p).map_values(|s: Sprint| (started_key(s, now), s)));
        } else {
            assert(sprints@.take(k + 1).filter(p) =~= sprints@.take(k as int).filter(p));
        }
        k = k + 1;
    }
    assert(sprints@.take(sprints@.len() as int) =~= sprints@);
    order::values_of(order::sort_by_key(keyed))
}

/// Epics carried over from a previous increment, in order.
pub fn carried_epics(epics: &[Epic]) -> (r: Vec<Epic>)
    ensures
        r@ == epics@.filter(|e: Epic| e.carried_from is Some),
{
    let ghost p = |e: Epic| e.carried_from is Some;
    let mut out: Vec<Epic> = Vec::new();
    let mut k: usize = 0;
    while k < epics.len()
        invariant
            k <= epics@.len(),
            p == (|e: Epic| e.carried_from is Some),
            out@ == epics@.take(k as int).filter(p),
        decreases epics@.len() - k,
    {
        reveal_with_fuel(Seq::<_>::filter, 1);
        assert(epics@.take(k + 1).drop_last() =~= epics@.take(k as int));
        if epics[k].carried_from.is_some() {
            out.push(epics[k].clone());
        }
        k = k + 1;
    }
    assert(epics@.take(epics@.len() as int) =~= epics@);
    out
}

} // verus!
