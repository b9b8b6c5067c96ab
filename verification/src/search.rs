//! Paged JQL search that works on both Jira Data Center (offset paging on
//! `/rest/api/2/search`) and Jira Cloud (token paging on
//! `/rest/api/3/search/jql`, which replaced the classic endpoint in 2025).
//! This module builds each request body and decides when paging stops; the
//! caller posts the requests and gathers the pages.

use vstd::prelude::*;

use crate::dto::IssueDto;
use crate::json::JsonValue;
use crate::text;

verus! {

/// Issues asked for per page.
pub const PAGE_SIZE: i64 = 100;

/// Every issue matching a query, and how many there were.
pub struct SearchOutcome {
    pub issues: Vec<IssueDto>,
    pub total: i64,
}

pub open spec fn str_value(s: Seq<char>, v: JsonValue) -> bool {
    v matches JsonValue::Str(t) && t@ == s
}

/// `v` is a JSON array of the given strings.
pub open spec fn str_array(items: Seq<Seq<char>>, v: JsonValue) -> bool {
    v matches JsonValue::Array(a) && a@.len() == items.len() && forall|k: int|
        0 <= k < items.len() ==> #[trigger] str_value(items[k], a@[k])
}

pub fn str_array_of(items: &[&str]) -> (v: JsonValue)
    ensures
        str_array(items@.map_values(|s: &str| s@), v),
{
    let mut a: Vec<JsonValue> = Vec::new();
    let mut k: usize = 0;
    while k < items.len()
        invariant
            k <= items@.len(),
            a@.len() == k,
            forall|j: int| 0 <= j < k ==> #[trigger] str_value(items@[j]@, a@[j]),
        decreases items@.len() - k,
    {
        a.push(JsonValue::Str(text::owned(items[k])));
        k = k + 1;
    }
    JsonValue::Array(a)
}

/// A member `(name, value)` of a request body.
pub open spec fn member_is(m: (String, JsonValue), name: Seq<char>) -> bool {
    m.0@ == name
}

/// The body of one Data Center search request: the query, the page offset,
/// the page size, the fields, and `expand: ["changelog"]` when the history is
/// wanted.
pub open spec fn v2_body_spec(jql: Seq<char>, start_at: i64, fields: Seq<Seq<char>>, expand: bool, v: JsonValue) -> bool {
    v matches JsonValue::Object(ms) && ms@.len() == (if expand { 5int } else { 4int }) && {
        &&& member_is(ms@[0], "jql"@) && str_value(jql, ms@[0].1)
        &&& member_is(ms@[1], "startAt"@) && ms@[1].1 == JsonValue::Number(Some(start_at))
        &&& member_is(ms@[2], "maxResults"@) && ms@[2].1 == JsonValue::Number(Some(PAGE_SIZE))
        &&& member_is(ms@[3], "fields"@) && str_array(fields, ms@[3].1)
        &&& expand ==> member_is(ms@[4], "expand"@) && str_array(seq!["changelog"@], ms@[4].1)
    }
}

pub fn v2_body(jql: &str, start_at: i64, fields: &[&str], expand: bool) -> (v: JsonValue)
    ensures
        v2_body_spec(jql@, start_at, fields@.map_values(|s: &str| s@), expand, v),
{
    let mut ms: Vec<(String, JsonValue)> = Vec::new();
    ms.push((text::owned("jql"), JsonValue::Str(text::owned(jql))));
    ms.push((text::owned("startAt"), JsonValue::Number(Some(start_at))));
    ms.push((text::owned("maxResults"), JsonValue::Number(Some(PAGE_SIZE))));
    ms.push((text::owned("fields"), str_array_of(fields)));
    if expand {
        let changelog = ["changelog"];
        let arr = str_array_of(&changelog);
        proof {
            assert(changelog@.map_values(|s: &str| s@) =~= seq!["changelog"@]);
        }
        ms.push((text::owned("expand"), arr));
    }
    JsonValue::Object(ms)
}

/// The body of one Cloud search request: the query, the page size, the
/// fields, `expand: "changelog"` when the history is wanted, and the token of
/// the next page after the first.
pub open spec fn v3_body_spec(jql: Seq<char>, fields: Seq<Seq<char>>, expand: bool, token: Option<Seq<char>>, v: JsonValue) -> bool {
    v matches JsonValue::Object(ms) && {
        let n: int = 3 + (if expand { 1int } else { 0int }) + (if token is Some { 1int } else { 0int });
        &&& ms@.len() == n
        &&& member_is(ms@[0], "jql"@) && str_value(jql, ms@[0].1)
        &&& member_is(ms@[1], "maxResults"@) && ms@[1].1 == JsonValue::Number(Some(PAGE_SIZE))
        &&& member_is(ms@[2], "fields"@) && str_array(fields, ms@[2].1)
        &&& expand ==> member_is(ms@[3], "expand"@) && str_value("changelog"@, ms@[3].1)
        &&& token matches Some(t) ==> member_is(ms@[n - 1], "nextPageToken"@) && str_value(t, ms@[n - 1].1)
    }
}

pub fn v3_body(jql: &str, fields: &[&str], expand: bool, token: &Option<String>) -> (v: JsonValue)
    ensures
        v3_body_spec(jql@, fields@.map_values(|s: &str| s@), expand, text::opt_view(*token), v),
{
    let mut ms: Vec<(String, JsonValue)> = Vec::new();
    ms.push((text::owned("jql"), JsonValue::Str(text::owned(jql))));
    ms.push((text::owned("maxResults"), JsonValue::Number(Some(PAGE_SIZE))));
    ms.push((text::owned("fields"), str_array_of(fields)));
    if expand {
        ms.push((text::owned("expand"), JsonValue::Str(text::owned("changelog"))));
    }
    match token {
        Some(t) => {
            ms.push((text::owned("nextPageToken"), JsonValue::Str(t.clone())));
        },
        None => {},
    }
    JsonValue::Object(ms)
}

/// Data Center paging: after a page of `fetched` issues when `total` match,
/// the offset of the next page, or `None` when the page was empty or the
/// offset reaches the total.
pub open spec fn v2_next_spec(start_at: int, fetched: int, total: int) -> Option<int> {
    if fetched == 0 || start_at + fetched >= total {
        None
    } else {
        Some(start_at + fetched)
    }
}

pub fn v2_next_start(start_at: i64, fetched: i64, total: i64) -> (r: Option<i64>)
    requires
        start_at + fetched <= i64::MAX,
        start_at + fetched >= i64::MIN,
    ensures
        r matches Some(n) ==> v2_next_spec(start_at as int, fetched as int, total as int) == Some(n as int),
        r is None ==> v2_next_spec(start_at as int, fetched as int, total as int) is None,
{
    let next = start_at + fetched;
    if fetched == 0 || next >= total {
        None
    } else {
        Some(next)
    }
}

/// Cloud paging goes on while the page had issues, named a next page, and
/// did not say it was the last.
pub fn v3_continues(page_empty: bool, next_page_token: &Option<String>, is_last: Option<bool>) -> (r: bool)
    ensures
        r == (!page_empty && next_page_token is Some && is_last != Some(true)),
{
    !page_empty && next_page_token.is_some() && is_last != Some(true)
}

} // verus!
