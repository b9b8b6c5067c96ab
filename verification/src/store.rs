//! Reading cached rows back: the date columns' text, and which sprints an
//! increment's bundle keeps. The database itself is the caller's.

use vstd::prelude::*;

use crate::commands::queries::{has_link, links_sprint};
use crate::model::{Issue, Sprint};
use crate::time;

verus! {

/// A stored calendar date (`YYYY-MM-DD`); an unreadable one reads as
/// 1970-01-01, day 0.
pub fn date_column(text: &str) -> (d: i64)
    ensures
        d == (match time::ymd_day(text@) {
            Some(x) => x,
            None => 0,
        }),
{
    match time::parse_ymd(text) {
        Some(x) => x,
        None => 0,
    }
}

/// A stored instant (RFC 3339); an unreadable one reads as `now`.
pub fn instant_column(text: &str, now: i64) -> (t: i64)
    ensures
        t == (match time::rfc3339_instant(text@) {
            Some(x) => x,
            None => now,
        }),
{
    match time::parse_rfc3339(text) {
        Some(x) => x,
        None => now,
    }
}

/// A sprint some issue of the increment is linked to.
pub open spec fn referenced(issues: Seq<Issue>, id: i64) -> bool {
    exists|j: int| 0 <= j < issues.len() && links_sprint(#[trigger] issues[j], id)
}

fn referenced_exec(issues: &[Issue], id: i64) -> (r: bool)
    ensures
        r == referenced(issues@, id),
{
    let mut j: usize = 0;
    while j < issues.len()
        invariant
            j <= issues@.len(),
            forall|x: int| 0 <= x < j ==> !links_sprint(#[trigger] issues@[x], id),
        decreases issues@.len() - j,
    {
        if has_link(&issues[j], id) {
            return true;
        }
        j = j + 1;
    }
    false
}

/// The cached sprints an increment's bundle keeps: those its issues are
/// linked to, in stored order.
pub fn bundle_sprints(issues: &[Issue], sprints: &[Sprint]) -> (r: Vec<Sprint>)
    ensures
        r@ == sprints@.filter(|s: Sprint| referenced(issues@, s.id)),
{
    let ghost p = |s: Sprint| referenced(issues@, s.id);
    let mut out: Vec<Sprint> = Vec::new();
    let mut k: usize = 0;
    while k < sprints.len()
        invariant
            k <= sprints@.len(),
            p == (|s: Sprint| referenced(issues@, s.id)),
            out@ == sprints@.take(k as int).filter(p),
        decreases sprints@.len() - k,
    {
        reveal_with_fuel(Seq::<_>::filter, 1);
        assert(sprints@.take(k + 1).drop_last() =~= sprints@.take(k as int));
        assert(sprints@.take(k + 1).last() == sprints@[k as int]);
        if referenced_exec(issues, sprints[k].id) {
            out.push(sprints[k].clone());
        }
        k = k + 1;
    }
    assert(sprints@.take(sprints@.len() as int) =~= sprints@);
    out
}

} // verus!
