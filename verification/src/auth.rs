//! Authentication modes.
//!
//! "Username + PAT" means two different things depending on deployment:
//! - Jira Data Center / Server: native PAT -> `Authorization: Bearer <PAT>`
//! - Jira Cloud: API token -> `Authorization: Basic base64(email:token)`
//!
//! Detection probes `/rest/api/2/myself` with Bearer first, then Basic; the
//! caller makes each request and hands the reply to `detect_next`.

use vstd::prelude::*;

use base64::Engine;
use vstd::string::StringSliceAdditionalSpecFns;

use crate::dto::MyselfDto;
use crate::error::AppError;
use crate::text;

verus! {

#[derive(Clone, Copy, Debug, PartialEq, Eq, Structural)]
pub enum AuthMode {
    /// Jira Data Center personal access token.
    Bearer,
    /// Jira Cloud email + API token.
    Basic,
}

/// The character of the standard base64 alphabet for a 6-bit value:
/// `A`-`Z`, `a`-`z`, `0`-`9`, `+`, `/`.
pub open spec fn b64_char(v: int) -> char {
    if v < 26 {
        ('A' as int + v) as char
    } else if v < 52 {
        ('a' as int + (v - 26)) as char
    } else if v < 62 {
        ('0' as int + (v - 52)) as char
    } else if v == 62 {
        '+'
    } else {
        '/'
    }
}

/// The standard (padded) base64 text of some bytes: each group of three
/// bytes gives four characters of six bits each; a final group of one or two
/// bytes is padded with `=` to four characters.
pub open spec fn base64_text(data: Seq<u8>) -> Seq<char>
    decreases data.len(),
{
    if data.len() == 0 {
        Seq::empty()
    } else if data.len() == 1 {
        let a = data[0] as int;
        seq![b64_char(a / 4), b64_char((a % 4) * 16), '=', '=']
    } else if data.len() == 2 {
        let a = data[0] as int;
        let b = data[1] as int;
        seq![b64_char(a / 4), b64_char((a % 4) * 16 + b / 16), b64_char((b % 16) * 4), '=']
    } else {
        let a = data[0] as int;
        let b = data[1] as int;
        let c = data[2] as int;
        seq![b64_char(a / 4), b64_char((a % 4) * 16 + b / 16), b64_char((b % 16) * 4 + c / 64), b64_char(c % 64)]
            + base64_text(data.subrange(3, data.len() as int))
    }
}

/// `base64::engine::general_purpose::STANDARD.encode`: the standard
/// alphabet with padding, as `base64_text` states it.
#[verifier::external_body]
fn encode_base64(data: &[u8]) -> (r: String)
    ensures
        r@ == base64_text(data@),
{
    base64::engine::general_purpose::STANDARD.encode(data)
}

/// The `Authorization` header value for a mode and credentials.
pub open spec fn auth_header_spec(mode: AuthMode, username: Seq<char>, secret: Seq<char>) -> Seq<char> {
    match mode {
        AuthMode::Bearer => "Bearer "@ + secret,
        AuthMode::Basic => "Basic "@ + base64_text(vstd::utf8::encode_utf8(username + ":"@ + secret)),
    }
}

pub fn auth_header(mode: AuthMode, username: &str, secret: &str) -> (h: String)
    ensures
        h@ == auth_header_spec(mode, username@, secret@),
{
    match mode {
        AuthMode::Bearer => text::concat("Bearer ", secret),
        AuthMode::Basic => {
            let with_colon = text::concat(username, ":");
            let pair = text::concat(with_colon.as_str(), secret);
            let encoded = encode_base64(pair.as_str().as_bytes());
            proof {
                assert(pair@ =~= username@ + ":"@ + secret@);
            }
            text::concat("Basic ", encoded.as_str())
        },
    }
}

/// The name to greet an authenticated user by: the display name, else the
/// login name, else the e-mail address, else the username typed in.
pub open spec fn display_name_spec(me: MyselfDto, username: Seq<char>) -> Seq<char> {
    match me.display_name {
        Some(n) => n@,
        None => match me.name {
            Some(n) => n@,
            None => match me.email_address {
                Some(n) => n@,
                None => username,
            },
        },
    }
}

pub fn display_name_of(me: &MyselfDto, username: &str) -> (r: String)
    ensures
        r@ == display_name_spec(*me, username@),
{
    match &me.display_name {
        Some(n) => n.clone(),
        None => match &me.name {
            Some(n) => n.clone(),
            None => match &me.email_address {
                Some(n) => n.clone(),
                None => text::owned(username),
            },
        },
    }
}

/// What detection does next.
pub enum DetectStep {
    /// Ask `/rest/api/2/myself` with this mode.
    Probe(AuthMode),
    /// The mode works; the user's display name.
    Found(AuthMode, String),
    /// Detection failed with this error.
    Failed(AppError),
}

/// Detection starts with Bearer.
pub fn detect_start() -> (s: DetectStep)
    ensures
        s == DetectStep::Probe(AuthMode::Bearer),
{
    DetectStep::Probe(AuthMode::Bearer)
}

/// The step after a probe with `mode` got `reply`: success names the user;
/// a refusal of Bearer moves on to Basic; a refusal of Basic, or any other
/// error, ends detection with that error.
pub open spec fn detect_next_spec(mode: AuthMode, reply: Result<MyselfDto, AppError>, username: Seq<char>, s: DetectStep) -> bool {
    match reply {
        Ok(me) => s matches DetectStep::Found(m, n) && m == mode && n@ == display_name_spec(me, username),
        Err(e) => if e.unauthorized_spec() && mode == AuthMode::Bearer {
            s == DetectStep::Probe(AuthMode::Basic)
        } else {
            s == DetectStep::Failed(e)
        },
    }
}

pub fn detect_next(mode: AuthMode, reply: Result<MyselfDto, AppError>, username: &str) -> (s: DetectStep)
    ensures
        detect_next_spec(mode, reply, username@, s),
{
    match reply {
        Ok(me) => DetectStep::Found(mode, display_name_of(&me, username)),
        Err(e) => {
            if e.is_unauthorized() && mode == AuthMode::Bearer {
                DetectStep::Probe(AuthMode::Basic)
            } else {
                DetectStep::Failed(e)
            }
        },
    }
}

} // verus!
