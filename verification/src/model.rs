//! Core domain entities: increments, epics, issues and sprints. Instants are
//! microsecond timestamps and days are day numbers (see `time`). Story-point
//! estimates are floating-point numbers and are not held here: an issue
//! records only whether it carries an estimate, and whether the estimate in
//! use was imputed.

use vstd::prelude::*;

use crate::text;

verus! {

#[derive(Clone, Copy, Debug, PartialEq, Eq, Structural)]
pub enum StatusCategory {
    New,
    InProgress,
    Done,
}

/// Jira status-category keys are `new` / `indeterminate` / `done`; anything
/// but `done` and `new` counts as in progress.
pub open spec fn category_of_key(key: Seq<char>) -> StatusCategory {
    if key == "done"@ {
        StatusCategory::Done
    } else if key == "new"@ {
        StatusCategory::New
    } else {
        StatusCategory::InProgress
    }
}

pub open spec fn category_text(c: StatusCategory) -> Seq<char> {
    match c {
        StatusCategory::New => "new"@,
        StatusCategory::InProgress => "in_progress"@,
        StatusCategory::Done => "done"@,
    }
}

impl StatusCategory {
    /// Jira status-category keys are `new` / `indeterminate` / `done`.
    pub fn from_jira_key(key: &str) -> (c: StatusCategory)
        ensures
            c == category_of_key(key@),
    {
        if text::str_eq(key, "done") {
            StatusCategory::Done
        } else if text::str_eq(key, "new") {
            StatusCategory::New
        } else {
            StatusCategory::InProgress
        }
    }

    pub fn as_str(&self) -> (s: &'static str)
        ensures
            s@ == category_text(*self),
    {
        match self {
            StatusCategory::New => "new",
            StatusCategory::InProgress => "in_progress",
            StatusCategory::Done => "done",
        }
    }

    /// Reads back the text written by `as_str`.
    pub fn parse(s: &str) -> (c: StatusCategory)
        ensures
            c == category_of_key(s@),
    {
        if text::str_eq(s, "done") {
            StatusCategory::Done
        } else if text::str_eq(s, "new") {
            StatusCategory::New
        } else {
            StatusCategory::InProgress
        }
    }
}

#[derive(Clone, Copy, Debug, PartialEq, Eq, Structural)]
pub enum SprintState {
    Future,
    Active,
    Closed,
}

pub open spec fn state_of_text(s: Seq<char>) -> SprintState {
    if s == "closed"@ {
        SprintState::Closed
    } else if s == "active"@ {
        SprintState::Active
    } else {
        SprintState::Future
    }
}

pub open spec fn state_text(s: SprintState) -> Seq<char> {
    match s {
        SprintState::Future => "future"@,
        SprintState::Active => "active"@,
        SprintState::Closed => "closed"@,
    }
}

impl SprintState {
    /// Jira's sprint state, in any letter case.
    pub fn from_jira(s: &str) -> (st: SprintState)
        ensures
            st == state_of_text(text::lowercase(s@)),
            text::is_ascii_seq(s@) ==> st == state_of_text(s@.map_values(|c: char| text::ascii_lower_char(c))),
    {
        let lower = text::to_lower(s);
        Self::parse(lower.as_str())
    }

    pub fn as_str(&self) -> (s: &'static str)
        ensures
            s@ == state_text(*self),
    {
        match self {
            SprintState::Future => "future",
            SprintState::Active => "active",
            SprintState::Closed => "closed",
        }
    }

    pub fn parse(s: &str) -> (st: SprintState)
        ensures
            st == state_of_text(s@),
    {
        if text::str_eq(s, "closed") {
            SprintState::Closed
        } else if text::str_eq(s, "active") {
            SprintState::Active
        } else {
            SprintState::Future
        }
    }
}

/// A planning increment. `start_date` and `end_date` are day numbers.
pub struct Increment {
    pub id: i64,
    pub name: String,
    pub jql: String,
    pub start_date: i64,
    pub end_date: i64,
    pub is_active: bool,
}

impl Clone for Increment {
    fn clone(&self) -> (r: Self)
        ensures
            r == *self,
    {
        Increment {
            id: self.id,
            name: self.name.clone(),
            jql: self.jql.clone(),
            start_date: self.start_date,
            end_date: self.end_date,
            is_active: self.is_active,
        }
    }
}

/// An epic committed to an increment. Its own story-point estimate (a
/// floating-point number) is kept beside it by the caller.
pub struct Epic {
    pub key: String,
    pub name: String,
    pub owner: Option<String>,
    pub start_date: Option<i64>,
    pub end_date: Option<i64>,
    pub status_category: StatusCategory,
    /// Name of a previous increment this epic was planned for, if any.
    pub carried_from: Option<String>,
    /// Epic no longer matches the increment JQL but is kept visible.
    pub removed_from_plan: bool,
}

pub fn clone_opt_string(s: &Option<String>) -> (r: Option<String>)
    ensures
        r == *s,
{
    match s {
        Some(x) => Some(x.clone()),
        None => None,
    }
}

impl Clone for Epic {
    fn clone(&self) -> (r: Self)
        ensures
            r == *self,
    {
        Epic {
            key: self.key.clone(),
            name: self.name.clone(),
            owner: clone_opt_string(&self.owner),
            start_date: self.start_date,
            end_date: self.end_date,
            status_category: self.status_category,
            carried_from: clone_opt_string(&self.carried_from),
            removed_from_plan: self.removed_from_plan,
        }
    }
}

/// A sprint. Dates are instants.
pub struct Sprint {
    pub id: i64,
    pub name: String,
    pub state: SprintState,
    pub start_date: Option<i64>,
    pub end_date: Option<i64>,
    pub board_id: Option<i64>,
}

impl Clone for Sprint {
    fn clone(&self) -> (r: Self)
        ensures
            r == *self,
    {
        Sprint {
            id: self.id,
            name: self.name.clone(),
            state: self.state,
            start_date: self.start_date,
            end_date: self.end_date,
            board_id: self.board_id,
        }
    }
}

/// One issue's relationship with one sprint — the spillover backbone.
#[derive(Clone, Copy, Debug, PartialEq, Eq, Structural)]
pub struct IssueSprint {
    pub sprint_id: i64,
    /// In the sprint at sprint start (or within the first 24h grace window).
    pub was_committed: bool,
    pub added_mid_sprint: bool,
    /// Done at sprint close — `None` for sprints that are not closed yet.
    pub done_at_close: Option<bool>,
}

#[derive(Clone, Copy, Debug, PartialEq, Eq, Structural)]
pub struct StatusEvent {
    pub at: i64,
    pub from: StatusCategory,
    pub to: StatusCategory,
}

/// An issue under an epic. `estimated` says whether Jira carries a story
/// point estimate for it; `sp_imputed` whether the estimate in use is the
/// epic's median.
pub struct Issue {
    pub key: String,
    pub epic_key: String,
    pub summary: String,
    pub estimated: bool,
    pub sp_imputed: bool,
    pub status: String,
    pub status_category: StatusCategory,
    pub resolution: Option<String>,
    pub descoped: bool,
    pub blocked: bool,
    pub assignee: Option<String>,
    pub created: i64,
    pub done_at: Option<i64>,
    pub reopened: bool,
    pub current_sprint_id: Option<i64>,
    pub sprints: Vec<IssueSprint>,
    pub status_events: Vec<StatusEvent>,
    /// Closed sprints this issue sat in without being finished.
    pub spill_count: u32,
}

pub fn clone_links(v: &Vec<IssueSprint>) -> (r: Vec<IssueSprint>)
    ensures
        r@ == v@,
{
    let r = v.clone();
    assert(r@ =~= v@);
    r
}

pub fn clone_events(v: &Vec<StatusEvent>) -> (r: Vec<StatusEvent>)
    ensures
        r@ == v@,
{
    let r = v.clone();
    assert(r@ =~= v@);
    r
}

/// Field-by-field equality of two issues, the vectors by their contents.
pub open spec fn same_issue(a: Issue, b: Issue) -> bool {
    &&& a.key == b.key
    &&& a.epic_key == b.epic_key
    &&& a.summary == b.summary
    &&& a.estimated == b.estimated
    &&& a.sp_imputed == b.sp_imputed
    &&& a.status == b.status
    &&& a.status_category == b.status_category
    &&& a.resolution == b.resolution
    &&& a.descoped == b.descoped
    &&& a.blocked == b.blocked
    &&& a.assignee == b.assignee
    &&& a.created == b.created
    &&& a.done_at == b.done_at
    &&& a.reopened == b.reopened
    &&& a.current_sprint_id == b.current_sprint_id
    &&& a.sprints@ == b.sprints@
    &&& a.status_events@ == b.status_events@
    &&& a.spill_count == b.spill_count
}

impl Clone for Issue {
    fn clone(&self) -> (r: Self)
        ensures
            same_issue(r, *self),
    {
        Issue {
            key: self.key.clone(),
            epic_key: self.epic_key.clone(),
            summary: self.summary.clone(),
            estimated: self.estimated,
            sp_imputed: self.sp_imputed,
            status: self.status.clone(),
            status_category: self.status_category,
            resolution: clone_opt_string(&self.resolution),
            descoped: self.descoped,
            blocked: self.blocked,
            assignee: clone_opt_string(&self.assignee),
            created: self.created,
            done_at: self.done_at,
            reopened: self.reopened,
            current_sprint_id: self.current_sprint_id,
            sprints: clone_links(&self.sprints),
            status_events: clone_events(&self.status_events),
            spill_count: self.spill_count,
        }
    }
}

/// The status category an issue had at instant `t`: `New` before it was
/// created; its current category when it has no status history; otherwise
/// the `to` of the last event at or before `t` (the `from` of the first event
/// when none is), events being read in order until the first later one.
pub open spec fn category_at_spec(created: int, current: StatusCategory, events: Seq<StatusEvent>, t: int) -> StatusCategory {
    if t < created {
        StatusCategory::New
    } else if events.len() == 0 {
        current
    } else {
        replay(events, t, events[0].from)
    }
}

/// Reads events in order, taking each one's `to` while its instant is at or
/// before `t`, and stopping at the first later event.
pub open spec fn replay(events: Seq<StatusEvent>, t: int, current: StatusCategory) -> StatusCategory
    decreases events.len(),
{
    if events.len() == 0 {
        current
    } else if events[0].at <= t {
        replay(events.drop_first(), t, events[0].to)
    } else {
        current
    }
}

impl Issue {
    pub open spec fn category_at_view(&self, t: int) -> StatusCategory {
        category_at_spec(self.created as int, self.status_category, self.status_events@, t)
    }

    pub open spec fn is_done_spec(&self) -> bool {
        self.status_category == StatusCategory::Done
    }

    pub open spec fn in_scope_spec(&self) -> bool {
        !self.descoped
    }

    /// Status category at instant `t`, replaying the status changelog.
    pub fn category_at(&self, t: i64) -> (c: StatusCategory)
        ensures
            c == self.category_at_view(t as int),
    {
        if t < self.created {
            return StatusCategory::New;
        }
        if self.status_events.len() == 0 {
            return self.status_category;
        }
        let mut current = self.status_events[0].from;
        let mut i: usize = 0;
        assert(self.status_events@.subrange(0, self.status_events.len() as int) =~= self.status_events@);
        while i < self.status_events.len()
            invariant
                i <= self.status_events.len(),
                self.status_events.len() > 0,
                t >= self.created,
                replay(self.status_events@, t as int, self.status_events@[0].from) == replay(
                    self.status_events@.subrange(i as int, self.status_events.len() as int),
                    t as int,
                    current,
                ),
            decreases self.status_events.len() - i,
        {
            let ghost rest = self.status_events@.subrange(i as int, self.status_events.len() as int);
            assert(rest.drop_first() =~= self.status_events@.subrange(i + 1, self.status_events.len() as int));
            let ev = self.status_events[i];
            assert(rest[0] == ev);
            if ev.at <= t {
                current = ev.to;
            } else {
                assert(rest.len() > 0);
                assert(replay(rest, t as int, current) == current);
                return current;
            }
            i = i + 1;
        }
        current
    }

    pub fn is_done(&self) -> (r: bool)
        ensures
            r == self.is_done_spec(),
    {
        self.status_category == StatusCategory::Done
    }

    /// Counts toward progress denominators (i.e. not descoped).
    pub fn in_scope(&self) -> (r: bool)
        ensures
            r == self.in_scope_spec(),
    {
        !self.descoped
    }
}

/// Resolutions that mean "descoped", not "delivered" (compared lower-cased).
pub open spec fn is_descoping_spec(resolution: Seq<char>) -> bool {
    let r = text::lowercase(resolution);
    r == "won't do"@ || r == "wont do"@ || r == "duplicate"@ || r == "cannot reproduce"@
}

pub fn is_descoping_resolution(resolution: &str) -> (r: bool)
    ensures
        r == is_descoping_spec(resolution@),
{
    let lower = text::to_lower(resolution);
    let l = lower.as_str();
    text::str_eq(l, "won't do") || text::str_eq(l, "wont do") || text::str_eq(l, "duplicate")
        || text::str_eq(l, "cannot reproduce")
}

} // verus!
