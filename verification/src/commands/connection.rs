//! Connection settings: the base URL a user types in, and which PAT to keep.

use vstd::prelude::*;

use crate::error::AppError;
use crate::text;

verus! {

/// The base URL without surrounding whitespace and trailing slashes.
pub open spec fn normalized_url(url: Seq<char>) -> Seq<char> {
    text::trim_end_char_spec(text::trim_spec(url), '/')
}

/// A usable base URL: the normalized text, which must start with `http://`
/// or `https://`.
pub open spec fn base_url_ok(url: Seq<char>) -> bool {
    text::starts_with_spec(normalized_url(url), "http://"@) || text::starts_with_spec(normalized_url(url), "https://"@)
}

pub fn normalize_base_url(url: &str) -> (r: Result<String, AppError>)
    ensures
        base_url_ok(url@) ==> (r matches Ok(u) && u@ == normalized_url(url@)),
        !base_url_ok(url@) ==> (r matches Err(AppError::Config(m)) && m@ == "Base URL must start with http:// or https://"@),
{
    let trimmed = text::trim(url);
    let trimmed = text::trim_end_char(trimmed.as_str(), '/');
    if !text::starts_with(trimmed.as_str(), "http://") && !text::starts_with(trimmed.as_str(), "https://") {
        return Err(AppError::Config(text::owned("Base URL must start with http:// or https://")));
    }
    Ok(trimmed)
}

/// The PAT a save supplies: one given and not empty; `None` means the one
/// already in the keychain is kept.
pub fn supplied_pat(pat: &Option<String>) -> (r: Option<String>)
    ensures
        r == (match *pat {
            Some(p) => if p@.len() > 0 { Some(p) } else { None },
            None => None,
        }),
{
    match pat {
        Some(p) => {
            if p.as_str().is_empty() {
                None
            } else {
                Some(p.clone())
            }
        },
        None => None,
    }
}

} // verus!
