//! Read-side selections: which cached issues and sprints each view shows,
//! and in what order. The story-point figures beside them are the caller's.

use vstd::prelude::*;

use crate::error::AppError;
use crate::model::{Epic, Issue, IssueSprint, Sprint};
use crate::order::{self, SortKey};
use crate::spillover::{first_link, first_link_exec};
use crate::text;

verus! {

/// Sprints ordered by start (those without one first), then by id.
pub open spec fn start_id_key(s: Sprint) -> SortKey {
    order::opt_key(s.start_date, s.id as i128)
}

pub open spec fn sorted_sprints_spec(sprints: Seq<Sprint>) -> Seq<Sprint> {
    order::sort_spec(sprints.map_values(|s: Sprint| (start_id_key(s), s))).map_values(|p: (SortKey, Sprint)| p.1)
}

pub fn sorted_sprints(sprints: Vec<Sprint>) -> (r: Vec<Sprint>)
    ensures
        r@ == sorted_sprints_spec(sprints@),
{
    let ghost orig = sprints@;
    let mut src = sprints;
    let mut rev: Vec<Sprint> = Vec::new();
    while src.len() > 0
        invariant
            orig == src@ + rev@.reverse(),
        decreases src.len(),
    {
        let ghost bs = src@;
        let ghost br = rev@;
        let x = src.pop().unwrap();
        rev.push(x);
        assert(rev@.reverse() =~= seq![x] + br.reverse());
        assert(bs =~= src@.push(x));
    }
    assert(rev@.reverse() =~= orig);
    let n = rev.len();
    let mut keyed: Vec<(SortKey, Sprint)> = Vec::new();
    let mut w: usize = 0;
    while rev.len() > 0
        invariant
            n == orig.len(),
            rev@.len() + w == n,
            rev@.reverse() == orig.skip(w as int),
            keyed@ == orig.take(w as int).map_values(|s: Sprint| (start_id_key(s), s)),
        decreases rev.len(),
    {
        let ghost br = rev@;
        let x = rev.pop().unwrap();
        assert(br =~= rev@.push(x));
        assert(br.reverse() =~= seq![x] + rev@.reverse());
        assert(orig.skip(w as int)[0] == orig[w as int]);
        assert(rev@.reverse() =~= orig.skip(w + 1)) by {
            assert(rev@.reverse() =~= br.reverse().drop_first());
            assert(orig.skip(w + 1) =~= orig.skip(w as int).drop_first());
        }
        let key = order::opt_key_exec(x.start_date, x.id as i128);
        keyed.push((key, x));
        assert(keyed@ =~= orig.take(w + 1).map_values(|s: Sprint| (start_id_key(s), s)));
        w = w + 1;
    }
    assert(orig.take(n as int) =~= orig);
    order::values_of(order::sort_by_key(keyed))
}

/// The position of the first epic with this key.
pub open spec fn first_epic(epics: Seq<Epic>, key: Seq<char>, r: Option<usize>) -> bool {
    match r {
        Some(k) => k < epics.len() && epics[k as int].key@ == key && forall|j: int|
            0 <= j < k ==> (#[trigger] epics[j]).key@ != key,
        None => forall|j: int| 0 <= j < epics.len() ==> (#[trigger] epics[j]).key@ != key,
    }
}

pub fn find_epic(epics: &[Epic], key: &str) -> (r: Option<usize>)
    ensures
        first_epic(epics@, key@, r),
{
    let mut k: usize = 0;
    while k < epics.len()
        invariant
            k <= epics@.len(),
            forall|j: int| 0 <= j < k ==> (#[trigger] epics@[j]).key@ != key@,
        decreases epics@.len() - k,
    {
        if text::str_eq(epics[k].key.as_str(), key) {
            return Some(k);
        }
        k = k + 1;
    }
    None
}

/// The error for an epic key the increment does not have.
pub fn epic_not_found(key: &str) -> (e: AppError)
    ensures
        e matches AppError::Config(m) && m@ == "Epic "@ + key@ + " not found in this increment"@,
{
    let head = text::concat("Epic ", key);
    AppError::Config(text::concat(head.as_str(), " not found in this increment"))
}

/// The position of the first sprint with this id.
pub open spec fn first_sprint(sprints: Seq<Sprint>, id: i64, r: Option<usize>) -> bool {
    match r {
        Some(k) => k < sprints.len() && sprints[k as int].id == id && forall|j: int|
            0 <= j < k ==> (#[trigger] sprints[j]).id != id,
        None => forall|j: int| 0 <= j < sprints.len() ==> (#[trigger] sprints[j]).id != id,
    }
}

pub fn find_sprint(sprints: &[Sprint], id: i64) -> (r: Option<usize>)
    ensures
        first_sprint(sprints@, id, r),
{
    let mut k: usize = 0;
    while k < sprints.len()
        invariant
            k <= sprints@.len(),
            forall|j: int| 0 <= j < k ==> (#[trigger] sprints@[j]).id != id,
        decreases sprints@.len() - k,
    {
        if sprints[k].id == id {
            return Some(k);
        }
        k = k + 1;
    }
    None
}

/// The error for a sprint id that is not cached.
pub fn sprint_not_found(id: i64) -> (e: AppError)
    ensures
        e matches AppError::Config(m) && m@ == "Sprint "@ + text::decimal_spec(id as int) + " not found"@,
{
    let head = text::concat("Sprint ", text::decimal(id).as_str());
    AppError::Config(text::concat(head.as_str(), " not found"))
}

/// An epic's children as (key, (position, descoped)), in their order.
pub open spec fn child_entries(issues: Seq<Issue>, key: Seq<char>) -> Seq<(Seq<char>, (usize, bool))>
    decreases issues.len(),
{
    if issues.len() == 0 {
        Seq::empty()
    } else {
        let rest = child_entries(issues.drop_last(), key);
        let i = issues.last();
        if i.epic_key@ == key {
            rest.push((i.key@, ((issues.len() - 1) as usize, i.descoped)))
        } else {
            rest
        }
    }
}

/// An epic's children sorted by issue key (stably).
pub open spec fn sorted_children(issues: Seq<Issue>, key: Seq<char>) -> Seq<(usize, bool)> {
    order::sort_text_spec(child_entries(issues, key)).map_values(|p: (Seq<char>, (usize, bool))| p.1)
}

pub open spec fn positions_where(entries: Seq<(usize, bool)>, descoped: bool) -> Seq<usize> {
    entries.filter(|e: (usize, bool)| e.1 == descoped).map_values(|e: (usize, bool)| e.0)
}

/// An epic detail's issue lists: the positions of its descoped children and
/// of the rest, each sorted by issue key.
pub fn epic_detail_positions(issues: &[Issue], key: &str) -> (r: (Vec<usize>, Vec<usize>))
    ensures
        r.0@ == positions_where(sorted_children(issues@, key@), true),
        r.1@ == positions_where(sorted_children(issues@, key@), false),
{
    let mut pairs: Vec<(String, (usize, bool))> = Vec::new();
    let mut j: usize = 0;
    while j < issues.len()
        invariant
            j <= issues@.len(),
            order::key_views(pairs@) == child_entries(issues@.take(j as int), key@),
        decreases issues@.len() - j,
    {
        assert(issues@.take(j + 1).drop_last() =~= issues@.take(j as int));
        assert(issues@.take(j + 1).last() == issues@[j as int]);
        let i = &issues[j];
        if text::str_eq(i.epic_key.as_str(), key) {
            let ghost before = order::key_views(pairs@);
            pairs.push((i.key.clone(), (j, i.descoped)));
            assert(order::key_views(pairs@) =~= before.push((i.key@, (j, i.descoped))));
        } else {
            assert(order::key_views(pairs@) =~= child_entries(issues@.take(j + 1), key@));
        }
        j = j + 1;
    }
    assert(issues@.take(issues@.len() as int) =~= issues@);
    let sorted = order::sort_by_text(pairs);
    let entries = order::values_of(sorted);
    assert(entries@ =~= sorted_children(issues@, key@));
    let mut descoped: Vec<usize> = Vec::new();
    let mut kept: Vec<usize> = Vec::new();
    let mut k: usize = 0;
    while k < entries.len()
        invariant
            k <= entries@.len(),
            descoped@ == positions_where(entries@.take(k as int), true),
            kept@ == positions_where(entries@.take(k as int), false),
        decreases entries@.len() - k,
    {
        reveal_with_fuel(Seq::<_>::filter, 1);
        assert(entries@.take(k + 1).drop_last() =~= entries@.take(k as int));
        assert(entries@.take(k + 1).last() == entries@[k as int]);
        let e = entries[k];
        if e.1 {
            descoped.push(e.0);
            assert(kept@ =~= positions_where(entries@.take(k + 1), false));
            assert(descoped@ =~= positions_where(entries@.take(k + 1), true));
        } else {
            kept.push(e.0);
            assert(kept@ =~= positions_where(entries@.take(k + 1), false));
            assert(descoped@ =~= positions_where(entries@.take(k + 1), true));
        }
        k = k + 1;
    }
    assert(entries@.take(entries@.len() as int) =~= entries@);
    (descoped, kept)
}

/// Whether an issue has a link to the sprint.
pub open spec fn links_sprint(i: Issue, id: i64) -> bool {
    exists|l: int| 0 <= l < i.sprints@.len() && (#[trigger] i.sprints@[l]).sprint_id == id
}

pub fn has_link(issue: &Issue, id: i64) -> (r: bool)
    ensures
        r == links_sprint(*issue, id),
{
    let mut l: usize = 0;
    while l < issue.sprints.len()
        invariant
            l <= issue.sprints@.len(),
            forall|x: int| 0 <= x < l ==> (#[trigger] issue.sprints@[x]).sprint_id != id,
        decreases issue.sprints@.len() - l,
    {
        if issue.sprints[l].sprint_id == id {
            return true;
        }
        l = l + 1;
    }
    false
}

/// A sprint that one of the epic's children sat in; `kept_only` leaves the
/// descoped children out.
pub open spec fn touched_by(issues: Seq<Issue>, key: Seq<char>, kept_only: bool, id: i64) -> bool {
    exists|j: int|
        0 <= j < issues.len() && (#[trigger] issues[j]).epic_key@ == key && (!kept_only || !issues[j].descoped)
            && links_sprint(issues[j], id)
}

fn touches(issues: &[Issue], key: &str, kept_only: bool, id: i64) -> (r: bool)
    ensures
        r == touched_by(issues@, key@, kept_only, id),
{
    let mut j: usize = 0;
    while j < issues.len()
        invariant
            j <= issues@.len(),
            forall|x: int|
                0 <= x < j ==> !((#[trigger] issues@[x]).epic_key@ == key@ && (!kept_only || !issues@[x].descoped)
                    && links_sprint(issues@[x], id)),
        decreases issues@.len() - j,
    {
        let i = &issues[j];
        if text::str_eq(i.epic_key.as_str(), key) && (!kept_only || !i.descoped) && has_link(i, id) {
            return true;
        }
        j = j + 1;
    }
    false
}

fn sprints_touched(issues: &[Issue], key: &str, kept_only: bool, sprints: Vec<Sprint>) -> (r: Vec<Sprint>)
    ensures
        r@ == sprints@.filter(|s: Sprint| touched_by(issues@, key@, kept_only, s.id)),
{
    let ghost p = |s: Sprint| touched_by(issues@, key@, kept_only, s.id);
    let ghost orig = sprints@;
    let mut src = sprints;
    let mut rev: Vec<Sprint> = Vec::new();
    while src.len() > 0
        invariant
            orig == src@ + rev@.reverse(),
        decreases src.len(),
    {
        let ghost bs = src@;
        let ghost br = rev@;
        let x = src.pop().unwrap();
        rev.push(x);
        assert(rev@.reverse() =~= seq![x] + br.reverse());
        assert(bs =~= src@.push(x));
    }
    assert(rev@.reverse() =~= orig);
    let n = rev.len();
    let mut out: Vec<Sprint> = Vec::new();
    let mut w: usize = 0;
    while rev.len() > 0
        invariant
            n == orig.len(),
            p == (|s: Sprint| touched_by(issues@, key@, kept_only, s.id)),
            rev@.len() + w == n,
            rev@.reverse() == orig.skip(w as int),
            out@ == orig.take(w as int).filter(p),
        decreases rev.len(),
    {
        reveal_with_fuel(Seq::<_>::filter, 1);
        let ghost br = rev@;
        let x = rev.pop().unwrap();
        assert(br =~= rev@.push(x));
        assert(br.reverse() =~= seq![x] + rev@.reverse());
        assert(orig.skip(w as int)[0] == orig[w as int]);
        assert(rev@.reverse() =~= orig.skip(w + 1)) by {
            assert(rev@.reverse() =~= br.reverse().drop_first());
            assert(orig.skip(w + 1) =~= orig.skip(w as int).drop_first());
        }
        assert(orig.take(w + 1).drop_last() =~= orig.take(w as int));
        assert(orig.take(w + 1).last() == x);
        if touches(issues, key, kept_only, x.id) {
            out.push(x);
        }
        w = w + 1;
    }
    assert(orig.take(n as int) =~= orig);
    out
}

/// The sprints an epic detail lists: those its children that are not
/// descoped sat in, ordered by start, then id.
pub fn referenced_sprints(issues: &[Issue], key: &str, sprints: Vec<Sprint>) -> (r: Vec<Sprint>)
    ensures
        r@ == sorted_sprints_spec(sprints@.filter(|s: Sprint| touched_by(issues@, key@, true, s.id))),
{
    sorted_sprints(sprints_touched(issues, key, true, sprints))
}

/// An issue's part in a sprint's detail lists: 0 committed, 1 added
/// mid-sprint, 2 spilled. Only in-scope issues linked to the sprint count,
/// by their first link to it.
pub open spec fn in_list(i: Issue, id: i64, list: int) -> bool {
    !i.descoped && match first_link(i.sprints@, id) {
        Some(l) => if list == 0 {
            l.was_committed
        } else if list == 1 {
            l.added_mid_sprint
        } else {
            l.done_at_close == Some(false)
        },
        None => false,
    }
}

/// The positions of the issues in one of a sprint's detail lists, in order.
pub open spec fn list_positions(issues: Seq<Issue>, id: i64, list: int) -> Seq<usize>
    decreases issues.len(),
{
    if issues.len() == 0 {
        Seq::empty()
    } else {
        let rest = list_positions(issues.drop_last(), id, list);
        if in_list(issues.last(), id, list) {
            rest.push((issues.len() - 1) as usize)
        } else {
            rest
        }
    }
}

/// A sprint detail's lists: committed, added mid-sprint, and spilled issues.
pub fn sprint_detail_positions(issues: &[Issue], sprint_id: i64) -> (r: (Vec<usize>, Vec<usize>, Vec<usize>))
    ensures
        r.0@ == list_positions(issues@, sprint_id, 0),
        r.1@ == list_positions(issues@, sprint_id, 1),
        r.2@ == list_positions(issues@, sprint_id, 2),
{
    let mut committed: Vec<usize> = Vec::new();
    let mut added: Vec<usize> = Vec::new();
    let mut spilled: Vec<usize> = Vec::new();
    let mut j: usize = 0;
    while j < issues.len()
        invariant
            j <= issues@.len(),
            committed@ == list_positions(issues@.take(j as int), sprint_id, 0),
            added@ == list_positions(issues@.take(j as int), sprint_id, 1),
            spilled@ == list_positions(issues@.take(j as int), sprint_id, 2),
        decreases issues@.len() - j,
    {
        let ghost t = issues@.take(j + 1);
        assert(t.drop_last() =~= issues@.take(j as int));
        assert(t.last() == issues@[j as int]);
        let i = &issues[j];
        if !i.descoped {
            match first_link_exec(&i.sprints, sprint_id) {
                Some(l) => {
                    if l.was_committed {
                        committed.push(j);
                    }
                    if l.added_mid_sprint {
                        added.push(j);
                    }
                    if l.done_at_close == Some(false) {
                        spilled.push(j);
                    }
                },
                None => {},
            }
        }
        j = j + 1;
    }
    assert(issues@.take(issues@.len() as int) =~= issues@);
    (committed, added, spilled)
}

/// The epic's in-scope children that have spilled at least once.
pub open spec fn spilled_child(key: Seq<char>, i: Issue) -> bool {
    i.epic_key@ == key && !i.descoped && i.spill_count >= 1
}

pub fn epic_spill_count(issues: &[Issue], key: &str) -> (n: u32)
    requires
        issues@.len() <= u32::MAX,
    ensures
        n == issues@.filter(|i: Issue| spilled_child(key@, i)).len(),
{
    let ghost p = |i: Issue| spilled_child(key@, i);
    let mut n: u32 = 0;
    let mut k: usize = 0;
    while k < issues.len()
        invariant
            k <= issues@.len(),
            issues@.len() <= u32::MAX,
            p == (|i: Issue| spilled_child(key@, i)),
            n == issues@.take(k as int).filter(p).len(),
            n <= k,
        decreases issues@.len() - k,
    {
        reveal_with_fuel(Seq::<_>::filter, 1);
        assert(issues@.take(k + 1).drop_last() =~= issues@.take(k as int));
        assert(issues@.take(k + 1).last() == issues@[k as int]);
        let i = &issues[k];
        if text::str_eq(i.epic_key.as_str(), key) && !i.descoped && i.spill_count >= 1 {
            n = n + 1;
        }
        k = k + 1;
    }
    assert(issues@.take(issues@.len() as int) =~= issues@);
    n
}

/// The sprints any child of the epic sat in, stably ordered by start.
pub open spec fn span_order(issues: Seq<Issue>, key: Seq<char>, sprints: Seq<Sprint>) -> Seq<Sprint> {
    order::sort_spec(
        sprints.filter(|s: Sprint| touched_by(issues, key, false, s.id)).map_values(
            |s: Sprint| (order::opt_key(s.start_date, 0), s),
        ),
    ).map_values(|p: (SortKey, Sprint)| p.1)
}

/// "S1 – S4": the first and last of those sprints, or the one sprint's name
/// when they are the same sprint; `None` when there are none.
pub open spec fn sprint_span_spec(issues: Seq<Issue>, key: Seq<char>, sprints: Seq<Sprint>) -> Option<Seq<char>> {
    let t = span_order(issues, key, sprints);
    if t.len() == 0 {
        None
    } else if t[0].id != t.last().id {
        Some(t[0].name@ + " – "@ + t.last().name@)
    } else {
        Some(t[0].name@)
    }
}

pub fn sprint_span(issues: &[Issue], key: &str, sprints: &[Sprint]) -> (r: Option<String>)
    ensures
        text::opt_view(r) == sprint_span_spec(issues@, key@, sprints@),
{
    let ghost p = |s: Sprint| touched_by(issues@, key@, false, s.id);
    let mut keyed: Vec<(SortKey, Sprint)> = Vec::new();
    let mut k: usize = 0;
    while k < sprints.len()
        invariant
            k <= sprints@.len(),
            p == (|s: Sprint| touched_by(issues@, key@, false, s.id)),
            keyed@ == sprints@.take(k as int).filter(p).map_values(|s: Sprint| (order::opt_key(s.start_date, 0), s)),
        decreases sprints@.len() - k,
    {
        reveal_with_fuel(Seq::<_>::filter, 1);
        assert(sprints@.take(k + 1).drop_last() =~= sprints@.take(k as int));
        assert(sprints@.take(k + 1).last() == sprints@[k as int]);
        let s = &sprints[k];
        if touches(issues, key, false, s.id) {
            keyed.push((order::opt_key_exec(s.start_date, 0), s.clone()));
            assert(keyed@ =~= sprints@.take(k + 1).filter(p).map_values(
                |s: Sprint| (order::opt_key(s.start_date, 0), s),
            ));
        } else {
            assert(sprints@.take(k + 1).filter(p) =~= sprints@.take(k as int).filter(p));
        }
        k = k + 1;
    }
    assert(sprints@.take(sprints@.len() as int) =~= sprints@);
    let t = order::values_of(order::sort_by_key(keyed));
    if t.len() == 0 {
        None
    } else {
        let first = &t[0];
        let last = &t[t.len() - 1];
        if first.id != last.id {
            let head = text::concat(first.name.as_str(), " – ");
            let out = text::concat(head.as_str(), last.name.as_str());
            proof {
                assert(out@ =~= first.name@ + " – "@ + last.name@);
            }
            Some(out)
        } else {
            Some(first.name.clone())
        }
    }
}

} // verus!
