//! The decisions of the Jira HTTP client: where requests go, when a failed
//! request is retried and after how long, and what message a refused request
//! is reported with. The caller sends the requests and sleeps.

use vstd::prelude::*;

use vstd::string::StringSliceAdditionalSpecFns;

use crate::error::AppError;
use crate::json::{self, JsonValue};
use crate::text;

verus! {

/// A failed request is retried at most this many times.
pub const MAX_RETRIES: u32 = 3;

/// A Jira error message is cut to this many bytes.
pub const MAX_MESSAGE_BYTES: usize = 500;

/// The base URL requests are made against: the configured URL without
/// trailing slashes.
pub fn client_base_url(base_url: &str) -> (r: String)
    ensures
        r@ == text::trim_end_char_spec(base_url@, '/'),
{
    text::trim_end_char(base_url, '/')
}

/// The path of one sprint's record on the Agile API.
pub fn sprint_path(sprint_id: i64) -> (p: String)
    ensures
        p@ == "/rest/agile/1.0/sprint/"@ + text::decimal_spec(sprint_id as int),
{
    text::concat("/rest/agile/1.0/sprint/", text::decimal(sprint_id).as_str())
}

/// 429 Too Many Requests and the transient gateway errors 502, 503, 504.
pub open spec fn retryable_spec(status: u16) -> bool {
    status == 429 || status == 502 || status == 503 || status == 504
}

pub fn is_retryable(status: u16) -> (r: bool)
    ensures
        r == retryable_spec(status),
{
    status == 429 || status == 502 || status == 503 || status == 504
}

/// Seconds to wait before retry number `attempt + 1` of a request that got
/// `status`: the `Retry-After` header when it is a whole number of seconds,
/// else `2^(attempt + 1)`. `None` when the request is not retried (the
/// status is final, or the retries are used up).
pub open spec fn retry_delay_spec(status: u16, attempt: u32, retry_after: Option<Seq<char>>) -> Option<u64> {
    if retryable_spec(status) && attempt < MAX_RETRIES {
        let backoff: u64 = if attempt == 0 { 2 } else if attempt == 1 { 4 } else { 8 };
        match retry_after {
            Some(h) => match text::parse_u64_spec(h) {
                Some(secs) => Some(secs),
                None => Some(backoff),
            },
            None => Some(backoff),
        }
    } else {
        None
    }
}

pub fn retry_delay(status: u16, attempt: u32, retry_after: Option<&str>) -> (r: Option<u64>)
    ensures
        r == retry_delay_spec(status, attempt, match retry_after {
            Some(h) => Some(h@),
            None => None,
        }),
{
    if is_retryable(status) && attempt < MAX_RETRIES {
        let mut backoff: u64 = 1;
        let mut k: u32 = 0;
        while k <= attempt
            invariant
                k <= attempt + 1,
                attempt < 3,
                backoff == if k == 0 { 1u64 } else if k == 1 { 2u64 } else if k == 2 { 4u64 } else { 8u64 },
            decreases attempt + 1 - k,
        {
            backoff = backoff * 2;
            k = k + 1;
        }
        match retry_after {
            Some(h) => match text::parse_u64(h) {
                Some(secs) => Some(secs),
                None => Some(backoff),
            },
            None => Some(backoff),
        }
    } else {
        None
    }
}

/// The largest character boundary of `bytes` at or below `i`.
pub open spec fn boundary_at_or_below(bytes: Seq<u8>, i: int) -> int
    decreases i,
{
    if i <= 0 {
        0
    } else if vstd::utf8::is_char_boundary(bytes, i) {
        i
    } else {
        boundary_at_or_below(bytes, i - 1)
    }
}

/// A text cut to at most `max` bytes of UTF-8 (back to a character
/// boundary), with "…" appended when anything was cut.
pub open spec fn truncate_spec(s: Seq<char>, max: int) -> Seq<char> {
    let b = vstd::utf8::encode_utf8(s);
    if (b.len() as usize) <= max {
        s
    } else {
        vstd::utf8::decode_utf8(b.subrange(0, boundary_at_or_below(b, max))) + "…"@
    }
}

pub fn truncate(s: &str, max: usize) -> (r: String)
    ensures
        r@ == truncate_spec(s@, max as int),
{
    if s.len() <= max {
        return text::owned(s);
    }
    proof {
        vstd::utf8::encode_utf8_valid_utf8(s@);
        vstd::utf8::is_char_boundary_start_end_of_seq(s.spec_bytes());
    }
    let mut end = max;
    while end > 0 && !s.is_char_boundary(end)
        invariant
            end <= max,
            boundary_at_or_below(s.spec_bytes(), max as int) == boundary_at_or_below(s.spec_bytes(), end as int),
            vstd::utf8::is_char_boundary(s.spec_bytes(), 0),
        decreases end,
    {
        end = end - 1;
    }
    let (head, _) = s.split_at(end);
    proof {
        vstd::utf8::encode_utf8_decode_utf8(head@);
        assert(head.spec_bytes() == s.spec_bytes().subrange(0, end as int));
    }
    text::concat(head, "…")
}

/// The strings among some JSON values, in order.
pub open spec fn strings_of(items: Seq<JsonValue>) -> Seq<Seq<char>>
    decreases items.len(),
{
    if items.len() == 0 {
        Seq::empty()
    } else {
        let rest = strings_of(items.drop_last());
        match items.last() {
            JsonValue::Str(s) => rest.push(s@),
            _ => rest,
        }
    }
}

/// Jira error bodies look like {"errorMessages":["..."],"errors":{...}}: the
/// error messages joined by "; ", unless there are none to show.
pub open spec fn jira_error_spec(body: Seq<char>) -> Option<Seq<char>> {
    match json::json_document(body) {
        Some(v) => match json::get_spec(v, "errorMessages"@) {
            Some(JsonValue::Array(items)) => {
                let joined = text::join_spec(strings_of(items@), "; "@);
                if joined.len() == 0 {
                    None
                } else {
                    Some(joined)
                }
            },
            _ => None,
        },
        None => None,
    }
}

pub fn extract_jira_error(body: &str) -> (r: Option<String>)
    ensures
        r matches Some(m) ==> jira_error_spec(body@) == Some(m@),
        r is None ==> jira_error_spec(body@) is None,
{
    let doc = json::parse_json(body);
    let v = match &doc {
        Some(v) => v,
        None => {
            return None;
        },
    };
    let items = match v.get("errorMessages") {
        Some(JsonValue::Array(items)) => items,
        _ => {
            proof {
                reveal_strlit("errorMessages");
            }
            return None;
        },
    };
    let mut strs: Vec<String> = Vec::new();
    let mut k: usize = 0;
    while k < items.len()
        invariant
            k <= items@.len(),
            strs@.map_values(|s: String| s@) == strings_of(items@.take(k as int)),
        decreases items@.len() - k,
    {
        assert(items@.take(k + 1).drop_last() =~= items@.take(k as int));
        assert(items@.take(k + 1).last() == items@[k as int]);
        match &items[k] {
            JsonValue::Str(s) => {
                strs.push(s.clone());
                assert(strs@.map_values(|s: String| s@) =~= strings_of(items@.take(k as int)).push(s@));
            },
            _ => {},
        }
        k = k + 1;
    }
    assert(items@.take(items@.len() as int) =~= items@);
    let joined = text::join(&strs, "; ");
    if joined.as_str().is_empty() {
        None
    } else {
        Some(joined)
    }
}

/// The message a refused request is reported with: Jira's error messages
/// when the body has them, else the body, cut to 500 bytes.
pub open spec fn refusal_message_spec(body: Seq<char>) -> Seq<char> {
    match jira_error_spec(body) {
        Some(m) => truncate_spec(m, MAX_MESSAGE_BYTES as int),
        None => truncate_spec(body, MAX_MESSAGE_BYTES as int),
    }
}

/// The error for a request that Jira refused with `status` and `body`.
pub fn refusal_error(status: u16, body: &str) -> (e: AppError)
    ensures
        e matches AppError::Jira { status: s, message } && s == status && message@ == refusal_message_spec(body@),
{
    let message = match extract_jira_error(body) {
        Some(m) => truncate(m.as_str(), MAX_MESSAGE_BYTES),
        None => truncate(body, MAX_MESSAGE_BYTES),
    };
    AppError::jira(status, message)
}

} // verus!
