//! Settings: increment queries, blocked statuses, the active increment.

use vstd::prelude::*;

use crate::dto::IssueDto;
use crate::json;
use crate::model::Increment;
use crate::text;

use super::types::JqlSampleIssue;

verus! {

/// Whether a lower-cased query already constrains the issue type.
pub open spec fn names_issue_type(lower: Seq<char>) -> bool {
    text::contains_spec(lower, "issuetype"@) || text::contains_spec(lower, "issue type"@)
}

/// The notice shown when `issuetype = Epic` was added to a query.
pub open spec fn epic_notice() -> Seq<char> {
    "Added `issuetype = Epic` to the query."@
}

/// `ensure_epic_spec` with ASCII lower-casing, which is what `lowercase`
/// does to an ASCII query.
pub open spec fn ensure_epic_ascii(jql: Seq<char>) -> (Seq<char>, Option<Seq<char>>) {
    if names_issue_type(jql.map_values(|c: char| text::ascii_lower_char(c))) {
        (jql, None)
    } else {
        ("("@ + jql + ") AND issuetype = Epic"@, Some(epic_notice()))
    }
}

/// Appends `issuetype = Epic` unless the query already constrains the issue
/// type (judged on the query lower-cased), and says so when it did.
pub open spec fn ensure_epic_spec(jql: Seq<char>) -> (Seq<char>, Option<Seq<char>>) {
    if names_issue_type(text::lowercase(jql)) {
        (jql, None)
    } else {
        ("("@ + jql + ") AND issuetype = Epic"@, Some(epic_notice()))
    }
}

/// A query that ends, once lower-cased, in the lowered epic clause names the
/// issue type.
proof fn lemma_appended_clause_named(jql: Seq<char>, lower: Seq<char>)
    requires
        ({
            let suffix = ") AND issuetype = Epic"@;
            &&& suffix.len() <= lower.len()
            &&& lower.subrange(lower.len() - suffix.len(), lower.len() as int) == suffix.map_values(
                |c: char| text::ascii_lower_char(c),
            )
        }),
    ensures
        names_issue_type(lower),
{
    reveal_strlit(") AND issuetype = Epic");
    reveal_strlit("issuetype");
    let suffix = ") AND issuetype = Epic"@;
    let tail = lower.subrange(lower.len() - suffix.len(), lower.len() as int);
    let at: int = lower.len() - suffix.len() + 6;
    assert(lower.subrange(at, at + 9) =~= "issuetype"@) by {
        assert forall|k: int| 0 <= k < 9 implies lower.subrange(at, at + 9)[k] == "issuetype"@[k] by {
            assert(lower[at + k] == tail[6 + k]);
            assert(tail[6 + k] == text::ascii_lower_char(suffix[6 + k]));
            assert(suffix[6 + k] == "issuetype"@[k]);
        }
    }
    assert(text::occurs_at(lower, "issuetype"@, at));
}

/// The epic clause is added at most once: the query returned, checked
/// again, comes back unchanged and without a notice.
pub fn ensure_epic_jql(jql: &str) -> (r: (String, Option<String>))
    ensures
        r.0@ == ensure_epic_spec(jql@).0,
        text::opt_view(r.1) == ensure_epic_spec(jql@).1,
        text::is_ascii_seq(jql@) ==> ensure_epic_spec(jql@) == ensure_epic_ascii(jql@),
        ensure_epic_spec(r.0@) == (r.0@, None::<Seq<char>>),
{
    let lower = text::to_lower(jql);
    if text::contains(lower.as_str(), "issuetype") || text::contains(lower.as_str(), "issue type") {
        (text::owned(jql), None)
    } else {
        let head = text::concat("(", jql);
        let q = text::concat(head.as_str(), ") AND issuetype = Epic");
        proof {
            assert(q@ =~= "("@ + jql@ + ") AND issuetype = Epic"@);
        }
        // The appended query is the one the next check sees; lowering it shows
        // that check finds the clause and leaves the query as it is.
        let lowered = text::to_lower(q.as_str());
        proof {
            reveal_strlit(") AND issuetype = Epic");
            let suffix = ") AND issuetype = Epic"@;
            let k = q@.len() - suffix.len();
            assert(q@.subrange(k, q@.len() as int) =~= suffix);
            assert forall|i: int| 0 <= i < suffix.len() implies (#[trigger] suffix[i] as u32) < 128 by {
                assert(0 <= i < 22);
            }
            assert(text::is_ascii_seq(q@.subrange(k, q@.len() as int)));
            lemma_appended_clause_named(jql@, lowered@);
        }
        (q, Some(text::owned("Added `issuetype = Epic` to the query.")))
    }
}

/// The statuses that count as blocked until the user sets their own.
pub fn default_blocked_statuses() -> (r: Vec<String>)
    ensures
        r@.map_values(|s: String| s@) == seq!["Blocked"@, "On Hold"@],
{
    let mut r: Vec<String> = Vec::new();
    r.push(text::owned("Blocked"));
    r.push(text::owned("On Hold"));
    assert(r@.map_values(|s: String| s@) =~= seq!["Blocked"@, "On Hold"@]);
    r
}

/// The first increment marked active, if any.
pub open spec fn active_id_spec(increments: Seq<Increment>) -> Option<i64>
    decreases increments.len(),
{
    if increments.len() == 0 {
        None
    } else if increments[0].is_active {
        Some(increments[0].id)
    } else {
        active_id_spec(increments.drop_first())
    }
}

pub fn active_increment_id(increments: &[Increment]) -> (r: Option<i64>)
    ensures
        r == active_id_spec(increments@),
{
    let mut k: usize = 0;
    assert(increments@.skip(0) =~= increments@);
    while k < increments.len()
        invariant
            k <= increments@.len(),
            active_id_spec(increments@) == active_id_spec(increments@.skip(k as int)),
        decreases increments@.len() - k,
    {
        let ghost rest = increments@.skip(k as int);
        assert(rest[0] == increments@[k as int]);
        assert(rest.drop_first() =~= increments@.skip(k + 1));
        if increments[k].is_active {
            return Some(increments[k].id);
        }
        k = k + 1;
    }
    None
}

/// Issues a query check shows.
pub const SAMPLE_SIZE: usize = 10;

/// A sample row: the issue's key and its summary (empty when the summary is
/// missing or not text).
pub open spec fn sample_ok(dto: IssueDto, row: JqlSampleIssue) -> bool {
    &&& row.key@ == dto.key@
    &&& row.summary@ == (match json::path_str_spec(dto.fields, seq!["summary"@]) {
        Some(s) => s,
        None => Seq::empty(),
    })
}

/// The first ten issues a query matched, as sample rows.
pub fn jql_sample(issues: &[IssueDto]) -> (r: Vec<JqlSampleIssue>)
    ensures
        r@.len() == if issues@.len() < SAMPLE_SIZE { issues@.len() } else { SAMPLE_SIZE as nat },
        forall|k: int| 0 <= k < r@.len() ==> sample_ok(issues@[k], #[trigger] r@[k]),
{
    let mut r: Vec<JqlSampleIssue> = Vec::new();
    let mut k: usize = 0;
    let path: Vec<&str> = vec!["summary"];
    proof {
        reveal_strlit("summary");
        assert(path@.map_values(|p: &str| p@) =~= seq!["summary"@]);
    }
    while k < issues.len() && k < SAMPLE_SIZE
        invariant
            k <= issues@.len(),
            k <= SAMPLE_SIZE,
            r@.len() == k,
            path@.map_values(|p: &str| p@) == seq!["summary"@],
            forall|j: int| 0 <= j < k ==> sample_ok(issues@[j], #[trigger] r@[j]),
        decreases issues@.len() - k,
    {
        let dto = &issues[k];
        let summary = match json::get_str(&dto.fields, &path) {
            Some(s) => s,
            None => String::new(),
        };
        r.push(JqlSampleIssue { key: dto.key.clone(), summary });
        k = k + 1;
    }
    r
}

} // verus!
