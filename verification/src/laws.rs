//! Properties that hold across the library's functions, proved once for
//! every input.

use vstd::prelude::*;

use crate::auth::{detect_next_spec, AuthMode, DetectStep};
use crate::client::{boundary_at_or_below, retry_delay_spec, retryable_spec, truncate_spec, MAX_RETRIES};
use crate::dto::MyselfDto;
use crate::error::AppError;
use crate::insights::{by_calendar_spec, remaining_sprints_spec};
use crate::mapper::{link_spec, ref_end, ref_state, SprintRefView};
use crate::model::{
    category_of_key,
    category_text,
    replay,
    state_of_text,
    state_text,
    Increment,
    Issue,
    Sprint,
    SprintState,
    StatusCategory,
    StatusEvent,
};
use crate::order::{insert_by_key, insert_by_text, key_le, sort_spec, sort_text_spec, text_le, SortKey};
use crate::progress::expected_fraction;
use crate::search::v2_next_spec;
use crate::progress::blocked_spec;
use crate::spillover::{carried_forward_spec, first_link, role_spec, spilled_in, spilled_row_spec};
use crate::sprint_naming::{keep_spec, overlap_count, overlaps_spec, parsed_increment, parses, target_spec, SprintNaming};
use crate::time::day_of;
use crate::text::{ascii_lower_char, is_ascii_seq};
use vstd::utf8::{decode_utf8, encode_utf8, is_char_boundary, valid_utf8};

verus! {

// ---------------------------------------------------------------------------
// Stored text reads back as what was written
// ---------------------------------------------------------------------------

/// A status category written with `StatusCategory::as_str` reads back with
/// `StatusCategory::parse` as the same category.
pub proof fn law_status_category_round_trip(c: StatusCategory)
    ensures
        category_of_key(category_text(c)) == c,
{
    reveal_strlit("new");
    reveal_strlit("in_progress");
    reveal_strlit("done");
    assert("in_progress"@[0] != "done"@[0]);
    assert("in_progress"@[0] != "new"@[0]);
    assert("new"@[0] != "done"@[0]);
}

/// A sprint state written with `SprintState::as_str` reads back as the same
/// state, with `SprintState::parse` and with `SprintState::from_jira` (whose
/// lower-casing leaves the ASCII text unchanged).
pub proof fn law_sprint_state_round_trip(s: SprintState)
    ensures
        state_of_text(state_text(s)) == s,
        is_ascii_seq(state_text(s)),
        state_of_text(state_text(s).map_values(|c: char| ascii_lower_char(c))) == s,
{
    reveal_strlit("future");
    reveal_strlit("active");
    reveal_strlit("closed");
    let t = state_text(s);
    assert(t.map_values(|c: char| ascii_lower_char(c)) =~= t);
    assert("future"@[0] != "closed"@[0]);
    assert("future"@[0] != "active"@[0]);
    assert("active"@[0] != "closed"@[0]);
}

// ---------------------------------------------------------------------------
// Stable sorting
// ---------------------------------------------------------------------------

/// Keys in non-decreasing order.
pub open spec fn sorted_by_key<T>(s: Seq<(SortKey, T)>) -> bool {
    forall|i: int, j: int| 0 <= i < j < s.len() ==> key_le(#[trigger] s[i].0, #[trigger] s[j].0)
}

proof fn lemma_insert_bounded<T>(t: Seq<(SortKey, T)>, e: (SortKey, T), b: SortKey)
    requires
        forall|i: int| 0 <= i < t.len() ==> key_le(#[trigger] t[i].0, b),
        key_le(e.0, b),
    ensures
        forall|i: int| 0 <= i < insert_by_key(t, e).len() ==> key_le(#[trigger] insert_by_key(t, e)[i].0, b),
        insert_by_key(t, e).len() == t.len() + 1,
    decreases t.len(),
{
    if t.len() > 0 && !key_le(t.last().0, e.0) {
        let d = t.drop_last();
        assert forall|i: int| 0 <= i < d.len() implies key_le(#[trigger] d[i].0, b) by {
            assert(d[i] == t[i]);
        }
        lemma_insert_bounded(d, e, b);
        let u = insert_by_key(d, e);
        assert forall|i: int| 0 <= i < u.push(t.last()).len() implies key_le(#[trigger] u.push(t.last())[i].0, b) by {
            if i < u.len() {
                assert(u.push(t.last())[i] == u[i]);
            } else {
                assert(t.last() == t[t.len() - 1]);
            }
        }
    } else if t.len() > 0 {
        assert forall|i: int| 0 <= i < t.push(e).len() implies key_le(#[trigger] t.push(e)[i].0, b) by {
            if i < t.len() {
                assert(t.push(e)[i] == t[i]);
            }
        }
    }
}

proof fn lemma_insert_sorted<T>(t: Seq<(SortKey, T)>, e: (SortKey, T))
    requires
        sorted_by_key(t),
    ensures
        sorted_by_key(insert_by_key(t, e)),
        insert_by_key(t, e).to_multiset() == t.to_multiset().insert(e),
    decreases t.len(),
{
    if t.len() == 0 {
        assert(seq![e] =~= t.push(e));
        vstd::seq_lib::to_multiset_build(t, e);
    } else if key_le(t.last().0, e.0) {
        let r = t.push(e);
        assert forall|i: int, j: int| 0 <= i < j < r.len() implies key_le(#[trigger] r[i].0, #[trigger] r[j].0) by {
            if j < t.len() {
                assert(r[i] == t[i] && r[j] == t[j]);
            } else {
                assert(r[i] == t[i]);
                if i < t.len() - 1 {
                    assert(key_le(t[i].0, t[t.len() - 1].0));
                }
            }
        }
        vstd::seq_lib::to_multiset_build(t, e);
    } else {
        let d = t.drop_last();
        let last = t.last();
        assert forall|i: int, j: int| 0 <= i < j < d.len() implies key_le(#[trigger] d[i].0, #[trigger] d[j].0) by {
            assert(d[i] == t[i] && d[j] == t[j]);
        }
        lemma_insert_sorted(d, e);
        let u = insert_by_key(d, e);
        assert forall|i: int| 0 <= i < d.len() implies key_le(#[trigger] d[i].0, last.0) by {
            assert(d[i] == t[i]);
            assert(last == t[t.len() - 1]);
        }
        lemma_insert_bounded(d, e, last.0);
        let r = u.push(last);
        assert forall|i: int, j: int| 0 <= i < j < r.len() implies key_le(#[trigger] r[i].0, #[trigger] r[j].0) by {
            if j < u.len() {
                assert(r[i] == u[i] && r[j] == u[j]);
            } else {
                assert(r[i] == u[i]);
            }
        }
        vstd::seq_lib::to_multiset_build(u, last);
        vstd::seq_lib::to_multiset_build(d, last);
        assert(t =~= d.push(last));
        assert(d.to_multiset().insert(e).insert(last) =~= d.to_multiset().insert(last).insert(e));
    }
}

/// The library's stable sort puts keys in non-decreasing order and keeps
/// exactly the items it was given (each as often as it occurred).
pub proof fn law_sort_orders_and_permutes<T>(s: Seq<(SortKey, T)>)
    ensures
        sorted_by_key(sort_spec(s)),
        sort_spec(s).to_multiset() == s.to_multiset(),
    decreases s.len(),
{
    if s.len() == 0 {
    } else {
        law_sort_orders_and_permutes(s.drop_last());
        lemma_insert_sorted(sort_spec(s.drop_last()), s.last());
        vstd::seq_lib::to_multiset_build(s.drop_last(), s.last());
        assert(s =~= s.drop_last().push(s.last()));
    }
}

proof fn lemma_text_le_total(a: Seq<char>, b: Seq<char>)
    ensures
        text_le(a, b) || text_le(b, a),
    decreases a.len(),
{
    if a.len() > 0 && b.len() > 0 && a[0] == b[0] {
        lemma_text_le_total(a.drop_first(), b.drop_first());
    }
}

proof fn lemma_text_le_trans(a: Seq<char>, b: Seq<char>, c: Seq<char>)
    requires
        text_le(a, b),
        text_le(b, c),
    ensures
        text_le(a, c),
    decreases a.len(),
{
    if a.len() > 0 && b.len() > 0 && c.len() > 0 && a[0] == b[0] && b[0] == c[0] {
        lemma_text_le_trans(a.drop_first(), b.drop_first(), c.drop_first());
    }
}

/// Text keys in non-decreasing order.
pub open spec fn sorted_by_text<T>(s: Seq<(Seq<char>, T)>) -> bool {
    forall|i: int, j: int| 0 <= i < j < s.len() ==> text_le(#[trigger] s[i].0, #[trigger] s[j].0)
}

proof fn lemma_insert_text_bounded<T>(t: Seq<(Seq<char>, T)>, e: (Seq<char>, T), b: Seq<char>)
    requires
        forall|i: int| 0 <= i < t.len() ==> text_le(#[trigger] t[i].0, b),
        text_le(e.0, b),
    ensures
        forall|i: int| 0 <= i < insert_by_text(t, e).len() ==> text_le(#[trigger] insert_by_text(t, e)[i].0, b),
        insert_by_text(t, e).len() == t.len() + 1,
    decreases t.len(),
{
    if t.len() > 0 && !text_le(t.last().0, e.0) {
        let d = t.drop_last();
        assert forall|i: int| 0 <= i < d.len() implies text_le(#[trigger] d[i].0, b) by {
            assert(d[i] == t[i]);
        }
        lemma_insert_text_bounded(d, e, b);
        let u = insert_by_text(d, e);
        assert forall|i: int| 0 <= i < u.push(t.last()).len() implies text_le(#[trigger] u.push(t.last())[i].0, b) by {
            if i < u.len() {
                assert(u.push(t.last())[i] == u[i]);
            } else {
                assert(t.last() == t[t.len() - 1]);
            }
        }
    } else if t.len() > 0 {
        assert forall|i: int| 0 <= i < t.push(e).len() implies text_le(#[trigger] t.push(e)[i].0, b) by {
            if i < t.len() {
                assert(t.push(e)[i] == t[i]);
            }
        }
    }
}

proof fn lemma_insert_text_sorted<T>(t: Seq<(Seq<char>, T)>, e: (Seq<char>, T))
    requires
        sorted_by_text(t),
    ensures
        sorted_by_text(insert_by_text(t, e)),
        insert_by_text(t, e).to_multiset() == t.to_multiset().insert(e),
    decreases t.len(),
{
    if t.len() == 0 {
        assert(seq![e] =~= t.push(e));
        vstd::seq_lib::to_multiset_build(t, e);
    } else if text_le(t.last().0, e.0) {
        let r = t.push(e);
        assert forall|i: int, j: int| 0 <= i < j < r.len() implies text_le(#[trigger] r[i].0, #[trigger] r[j].0) by {
            if j < t.len() {
                assert(r[i] == t[i] && r[j] == t[j]);
            } else {
                assert(r[i] == t[i]);
                if i < t.len() - 1 {
                    assert(text_le(t[i].0, t[t.len() - 1].0));
                    lemma_text_le_trans(t[i].0, t[t.len() - 1].0, e.0);
                }
            }
        }
        vstd::seq_lib::to_multiset_build(t, e);
    } else {
        let d = t.drop_last();
        let last = t.last();
        assert forall|i: int, j: int| 0 <= i < j < d.len() implies text_le(#[trigger] d[i].0, #[trigger] d[j].0) by {
            assert(d[i] == t[i] && d[j] == t[j]);
        }
        lemma_insert_text_sorted(d, e);
        let u = insert_by_text(d, e);
        assert forall|i: int| 0 <= i < d.len() implies text_le(#[trigger] d[i].0, last.0) by {
            assert(d[i] == t[i]);
            assert(last == t[t.len() - 1]);
        }
        lemma_text_le_total(last.0, e.0);
        lemma_insert_text_bounded(d, e, last.0);
        let r = u.push(last);
        assert forall|i: int, j: int| 0 <= i < j < r.len() implies text_le(#[trigger] r[i].0, #[trigger] r[j].0) by {
            if j < u.len() {
                assert(r[i] == u[i] && r[j] == u[j]);
            } else {
                assert(r[i] == u[i]);
            }
        }
        vstd::seq_lib::to_multiset_build(u, last);
        vstd::seq_lib::to_multiset_build(d, last);
        assert(t =~= d.push(last));
        assert(d.to_multiset().insert(e).insert(last) =~= d.to_multiset().insert(last).insert(e));
    }
}

/// The stable sort by text (issue keys in an epic's detail) puts keys in
/// non-decreasing character order and keeps exactly the items it was given.
pub proof fn law_text_sort_orders_and_permutes<T>(s: Seq<(Seq<char>, T)>)
    ensures
        sorted_by_text(sort_text_spec(s)),
        sort_text_spec(s).to_multiset() == s.to_multiset(),
    decreases s.len(),
{
    if s.len() > 0 {
        law_text_sort_orders_and_permutes(s.drop_last());
        lemma_insert_text_sorted(sort_text_spec(s.drop_last()), s.last());
        vstd::seq_lib::to_multiset_build(s.drop_last(), s.last());
        assert(s =~= s.drop_last().push(s.last()));
    }
}

// ---------------------------------------------------------------------------
// Error messages are cut to their limit
// ---------------------------------------------------------------------------

proof fn lemma_boundary_below(b: Seq<u8>, i: int)
    requires
        valid_utf8(b),
        0 <= i,
    ensures
        0 <= boundary_at_or_below(b, i) <= i,
        is_char_boundary(b, boundary_at_or_below(b, i)),
    decreases i,
{
    vstd::utf8::is_char_boundary_start_end_of_seq(b);
    if i > 0 && !is_char_boundary(b, i) {
        lemma_boundary_below(b, i - 1);
    }
}

/// A refused request's message is either the whole text, when it fits in
/// `max` bytes of UTF-8, or a prefix of it that fits, followed by "…".
pub proof fn law_truncate_fits(s: Seq<char>, max: usize)
    requires
        encode_utf8(s).len() <= usize::MAX,
    ensures
        encode_utf8(s).len() <= max ==> truncate_spec(s, max as int) == s,
        encode_utf8(s).len() > max ==> exists|k: int|
            0 <= k <= s.len() && truncate_spec(s, max as int) == s.subrange(0, k) + "…"@ && encode_utf8(
                #[trigger] s.subrange(0, k),
            ).len() <= max,
{
    let b = encode_utf8(s);
    if b.len() > max {
        vstd::utf8::encode_utf8_valid_utf8(s);
        vstd::utf8::encode_utf8_decode_utf8(s);
        let e = boundary_at_or_below(b, max as int);
        lemma_boundary_below(b, max as int);
        vstd::utf8::valid_utf8_split(b, e);
        vstd::utf8::decode_utf8_split(b, e);
        let p = decode_utf8(b.subrange(0, e));
        vstd::utf8::decode_utf8_encode_utf8(b.subrange(0, e));
        assert(s == p + decode_utf8(b.subrange(e, b.len() as int)));
        assert(p =~= s.subrange(0, p.len() as int));
        assert(encode_utf8(s.subrange(0, p.len() as int)).len() <= max);
    }
}

// ---------------------------------------------------------------------------
// Time
// ---------------------------------------------------------------------------

/// Expected progress never falls as time passes: within one window, a later
/// day's fraction is at least an earlier day's (both have the same
/// denominator), and it stays within [0, 1].
pub proof fn law_expected_progress_monotone(start: int, end: int, t1: int, t2: int)
    requires
        t1 <= t2,
    ensures
        expected_fraction(start, end, t1).1 == expected_fraction(start, end, t2).1,
        expected_fraction(start, end, t1).0 <= expected_fraction(start, end, t2).0,
        expected_fraction(start, end, t2).1 > 0,
        0 <= expected_fraction(start, end, t2).0 <= expected_fraction(start, end, t2).1,
{
}

/// Once every status change of an issue is at or before `t`, its category
/// at `t` is where its last change took it (so a reopen shows from the
/// reopen on).
pub proof fn law_category_after_history(issue: Issue, t: int)
    requires
        t >= issue.created,
        issue.status_events@.len() > 0,
        forall|k: int| 0 <= k < issue.status_events@.len() ==> (#[trigger] issue.status_events@[k]).at <= t,
    ensures
        issue.category_at_view(t) == issue.status_events@.last().to,
{
    lemma_replay_all(issue.status_events@, t, issue.status_events@[0].from);
}

proof fn lemma_replay_all(events: Seq<StatusEvent>, t: int, cur: StatusCategory)
    requires
        events.len() > 0,
        forall|k: int| 0 <= k < events.len() ==> (#[trigger] events[k]).at <= t,
    ensures
        replay(events, t, cur) == events.last().to,
    decreases events.len(),
{
    if events.len() > 1 {
        let rest = events.drop_first();
        assert forall|k: int| 0 <= k < rest.len() implies (#[trigger] rest[k]).at <= t by {
            assert(rest[k] == events[k + 1]);
        }
        assert(events[0].at <= t);
        lemma_replay_all(rest, t, events[0].to);
        assert(rest.last() == events.last());
        assert(replay(events, t, cur) == replay(rest, t, events[0].to));
    } else {
        assert(events[0].at <= t);
        assert(events.drop_first().len() == 0);
        assert(replay(events.drop_first(), t, events[0].to) == events[0].to);
        assert(replay(events, t, cur) == replay(events.drop_first(), t, events[0].to));
    }
}

// ---------------------------------------------------------------------------
// Sprints and spillover
// ---------------------------------------------------------------------------

/// An issue spills only from a closed sprint, and a descoped issue plays no
/// part in any sprint (so it never spills).
pub proof fn law_spill_only_from_closed(sprint: Sprint, issue: Issue)
    ensures
        spilled_in(sprint, issue) ==> sprint.state == SprintState::Closed && !issue.descoped,
        issue.descoped ==> role_spec(sprint, issue) is None,
{
}

/// Every sprint link an issue gets is either committed or added mid-sprint,
/// never both; and only a closed sprint records whether it was done at close.
pub proof fn law_link_committed_xor_added(
    issue: Issue,
    added: Seq<(i64, i64)>,
    sprints: Seq<Sprint>,
    r: crate::mapper::SprintRefView,
)
    ensures
        link_spec(issue, added, sprints, r).was_committed != link_spec(issue, added, sprints, r).added_mid_sprint,
        link_spec(issue, added, sprints, r).done_at_close is Some ==> crate::mapper::ref_state(sprints, r)
            == SprintState::Closed,
{
}

/// Whether an issue was done when a closed sprint closed is read from its
/// status history at the sprint's end: the link records "done" exactly when
/// replaying the changelog up to the end instant gives Done.
pub proof fn law_done_at_close_replays_history(
    issue: Issue,
    added: Seq<(i64, i64)>,
    sprints: Seq<Sprint>,
    r: SprintRefView,
    end: i64,
)
    requires
        ref_state(sprints, r) == SprintState::Closed,
        ref_end(sprints, r) == Some(end),
    ensures
        link_spec(issue, added, sprints, r).done_at_close == Some(issue.category_at_view(end as int) == StatusCategory::Done),
{
}

/// For a closed sprint with a known end, an issue with a status history
/// gets the same "done at close" whatever its status is now: two issues with
/// the same creation instant and history are judged alike. In particular, an
/// issue whose last change at or before the end left it unfinished spilled,
/// even if it is done today.
pub proof fn law_done_at_close_ignores_current_status(
    a: Issue,
    b: Issue,
    added: Seq<(i64, i64)>,
    sprints: Seq<Sprint>,
    r: SprintRefView,
    end: i64,
)
    requires
        ref_state(sprints, r) == SprintState::Closed,
        ref_end(sprints, r) == Some(end),
        a.created == b.created,
        a.status_events@ == b.status_events@,
        a.status_events@.len() > 0,
    ensures
        link_spec(a, added, sprints, r).done_at_close == link_spec(b, added, sprints, r).done_at_close,
        (end >= a.created && forall|k: int|
            0 <= k < a.status_events@.len() ==> (#[trigger] a.status_events@[k]).at <= end)
            ==> link_spec(a, added, sprints, r).done_at_close == Some(
            a.status_events@.last().to == StatusCategory::Done,
        ),
{
    if end >= a.created && forall|k: int| 0 <= k < a.status_events@.len() ==> (#[trigger] a.status_events@[k]).at <= end {
        law_category_after_history(a, end as int);
    }
}

/// A sprint overlaps the increment's window only when its known span ends
/// no earlier than the window's first day and starts no later than its last
/// day: a sprint that ended before the window never overlaps it, and one
/// that starts after it never does either.
pub proof fn law_overlap_within_window(sprint: Sprint, increment: Increment)
    ensures
        overlaps_spec(sprint, increment) ==> (sprint.end_date matches Some(e) ==> day_of(e as int) >= increment.start_date),
        overlaps_spec(sprint, increment) ==> (sprint.start_date matches Some(s) ==> day_of(s as int) <= increment.end_date),
        sprint.start_date is None && sprint.end_date is None ==> !overlaps_spec(sprint, increment),
{
}

/// A calendar day within the days `first..=last`.
pub open spec fn day_within(d: int, first: int, last: int) -> bool {
    first <= d <= last
}

/// For a sprint with both dates (start no later than end) and a window
/// whose first day is no later than its last, overlapping means sharing at
/// least one calendar day.
pub proof fn law_overlap_is_a_shared_day(sprint: Sprint, increment: Increment, s: i64, e: i64)
    requires
        sprint.start_date == Some(s),
        sprint.end_date == Some(e),
        day_of(s as int) <= day_of(e as int),
        increment.start_date <= increment.end_date,
    ensures
        overlaps_spec(sprint, increment) <==> exists|d: int|
            #[trigger] day_within(d, day_of(s as int), day_of(e as int)) && day_within(
                d,
                increment.start_date as int,
                increment.end_date as int,
            ),
{
    let ds = day_of(s as int);
    let de = day_of(e as int);
    if overlaps_spec(sprint, increment) {
        let d = if ds >= increment.start_date { ds } else { increment.start_date as int };
        assert(day_within(d, ds, de) && day_within(d, increment.start_date as int, increment.end_date as int));
    }
}

/// In a sprint that is not closed, an issue counts as done there exactly
/// when it is done now, and it cannot have spilled from it.
pub proof fn law_open_sprint_done_is_done_now(sprint: Sprint, issue: Issue)
    requires
        sprint.state != SprintState::Closed,
    ensures
        role_spec(sprint, issue) matches Some(role) ==> (role.done_here <==> issue.status_category
            == StatusCategory::Done) && !role.spilled,
{
}

/// In a closed sprint, an issue counts as done there exactly when its link
/// records it done at close, and it spilled exactly when the link records it
/// not done; so no issue is both done in a sprint and spilled from it.
pub proof fn law_closed_sprint_done_or_spilled(sprint: Sprint, issue: Issue)
    requires
        sprint.state == SprintState::Closed,
    ensures
        role_spec(sprint, issue) matches Some(role) ==> {
            &&& first_link(issue.sprints@, sprint.id) matches Some(l)
            &&& role.done_here <==> l.done_at_close == Some(true)
            &&& role.spilled <==> l.done_at_close == Some(false)
        },
        role_spec(sprint, issue) matches Some(role) ==> !(role.done_here && role.spilled),
{
}

/// A finished issue is no longer carried forward; what is carried forward
/// is in scope and has spilled at least once, and it is exactly what the
/// spillover report lists.
pub proof fn law_done_work_is_not_carried_forward(issue: Issue)
    ensures
        issue.status_category == StatusCategory::Done ==> !carried_forward_spec(issue),
        carried_forward_spec(issue) ==> !issue.descoped && issue.spill_count >= 1,
        carried_forward_spec(issue) == spilled_row_spec(issue),
{
}

/// Only an issue flagged blocked counts toward blocked SP, and then only
/// while it is in scope and not done; every such issue counts.
pub proof fn law_blocked_needs_the_flag(issue: Issue)
    ensures
        blocked_spec(issue) ==> issue.blocked,
        blocked_spec(issue) ==> !issue.descoped && issue.status_category != StatusCategory::Done,
        issue.blocked && !issue.descoped && issue.status_category != StatusCategory::Done ==> blocked_spec(issue),
        !issue.blocked ==> !blocked_spec(issue),
{
}

/// The increment a view belongs to is determined by its sprints: at most one
/// result meets `target_spec`, so `filter_to_increment` has one outcome.
pub proof fn law_target_increment_unique(
    increment: Increment,
    sprints: Seq<Sprint>,
    naming: SprintNaming,
    r1: Option<i64>,
    r2: Option<i64>,
)
    requires
        target_spec(increment, sprints, naming, r1),
        target_spec(increment, sprints, naming, r2),
    ensures
        r1 == r2,
{
    if r1 is Some && r2 is Some {
        let a = r1->Some_0;
        let b = r2->Some_0;
        let ca = overlap_count(sprints, naming, increment, a);
        let cb = overlap_count(sprints, naming, increment, b);
        if exists|i: int| 0 <= i < sprints.len() && parses(#[trigger] sprints[i], naming) && crate::sprint_naming::overlaps_spec(
            sprints[i],
            increment,
        ) {
            assert(ca > 0 && cb > 0);
        } else if crate::sprint_naming::first_active(sprints, naming) is Some {
        } else {
            let i = choose|i: int| 0 <= i < sprints.len() && parses(#[trigger] sprints[i], naming) && parsed_increment(sprints[i], naming) == a;
            let j = choose|j: int| 0 <= j < sprints.len() && parses(#[trigger] sprints[j], naming) && parsed_increment(sprints[j], naming) == b;
            assert(parsed_increment(sprints[i], naming) <= b);
            assert(parsed_increment(sprints[j], naming) <= a);
        }
    }
}

/// A sprint whose name does not follow the naming convention is never
/// filtered out of an increment's view.
pub proof fn law_unparseable_sprint_kept(naming: SprintNaming, target: i64, s: Sprint)
    requires
        naming.parse_view(s.name@) is None,
    ensures
        keep_spec(naming, target, s),
{
}

/// At least the sprints the calendar still has room for remain.
pub proof fn law_remaining_sprints_at_least_calendar(increment: Increment, sprints: Seq<Sprint>, today: int)
    ensures
        remaining_sprints_spec(increment, sprints, today) >= by_calendar_spec(increment.end_date as int, today),
        remaining_sprints_spec(increment, sprints, today) >= 0,
{
}

// ---------------------------------------------------------------------------
// Talking to Jira
// ---------------------------------------------------------------------------

/// Detection asks at most twice: a probe with Basic never leads to another
/// probe, and a refused Bearer probe leads to Basic.
pub proof fn law_detect_at_most_two_probes(
    mode: AuthMode,
    reply: Result<MyselfDto, AppError>,
    username: Seq<char>,
    s: DetectStep,
)
    requires
        detect_next_spec(mode, reply, username, s),
    ensures
        mode == AuthMode::Basic ==> !(s is Probe),
        s is Probe ==> s == DetectStep::Probe(AuthMode::Basic),
{
}

/// A request is retried at most `MAX_RETRIES` times, and only for 429 and
/// the transient gateway statuses.
pub proof fn law_retries_bounded(status: u16, attempt: u32, retry_after: Option<Seq<char>>)
    ensures
        attempt >= MAX_RETRIES ==> retry_delay_spec(status, attempt, retry_after) is None,
        !retryable_spec(status) ==> retry_delay_spec(status, attempt, retry_after) is None,
{
}

/// Data Center paging moves forward and stops before the reported total.
pub proof fn law_paging_advances(start_at: int, fetched: int, total: int)
    requires
        fetched >= 0,
    ensures
        v2_next_spec(start_at, fetched, total) matches Some(n) ==> start_at < n < total,
        fetched == 0 ==> v2_next_spec(start_at, fetched, total) is None,
{
}

/// Every epic key is asked for in exactly one child-issue query: key `i`
/// lies in the range of keys that chunk `i / 50` joins (see `chunk_text`),
/// that chunk is one of the queries, and no other chunk's range holds it.
pub proof fn law_every_key_in_one_chunk(n: int, i: int, c: int)
    requires
        0 <= i < n,
        0 <= c,
    ensures
        ({
            let k = i / 50;
            let lo = 50 * k;
            let hi = if lo + 50 < n { lo + 50 } else { n };
            &&& lo <= i < hi
            &&& k < (n + 49) / 50
        }),
        50 * c <= i < 50 * c + 50 ==> c == i / 50,
{
    let k = i / 50;
    assert(50 * k <= i < 50 * k + 50) by (nonlinear_arith)
        requires
            k == i / 50,
            0 <= i,
    ;
    assert(k < (n + 49) / 50) by (nonlinear_arith)
        requires
            50 * k <= i,
            i < n,
            0 <= k,
    ;
    if 50 * c <= i < 50 * c + 50 {
        assert(c == i / 50) by (nonlinear_arith)
            requires
                50 * c <= i < 50 * c + 50,
                0 <= c,
        ;
    }
}

} // verus!
