//! Session identity: an inbound token is the session id as it stands; without one,
//! a fresh random id is minted, and the client is asked to keep it for a fixed
//! lifetime under the service's path.

use vstd::prelude::*;
use crate::report::{decimal, push_decimal};

verus! {

/// How long a client keeps its session token, in seconds (three hours).
pub const SESSION_LIFETIME_SECS: u64 = 10800;

/// Where a session begins, and where a restart sends the client.
pub open spec fn entry_path_text() -> Seq<char> {
    "/class7/practice"@
}

/// Where a session fetches its next question.
pub open spec fn practice_url_text(session_id: Seq<char>) -> Seq<char> {
    entry_path_text() + "/"@ + session_id
}

/// The `Set-Cookie` value that hands a session token to the client.
pub open spec fn session_cookie_text(session_id: Seq<char>) -> Seq<char> {
    "practice_id="@ + session_id + "; Path=/class7; HttpOnly; Max-Age="@ + decimal(
        SESSION_LIFETIME_SECS as nat,
    )
}

/// A lower-case hexadecimal digit.
pub open spec fn is_lower_hex(c: char) -> bool {
    ('0' <= c && c <= '9') || ('a' <= c && c <= 'f')
}

/// Text in the hyphenated form of a UUID: 32 lower-case hex digits in groups of
/// 8, 4, 4, 4 and 12, joined by hyphens.
pub open spec fn is_hyphenated_uuid(s: Seq<char>) -> bool {
    &&& s.len() == 36
    &&& forall|i: int|
        0 <= i < 36 ==> if i == 8 || i == 13 || i == 18 || i == 23 {
            s[i] == '-'
        } else {
            is_lower_hex(#[trigger] s[i])
        }
}

/// Relies on uuid's `Uuid::new_v4` and its `Display`, which writes the hyphenated
/// lower-case form: a fresh random id.
#[verifier::external_body]
fn fresh_token() -> (r: String)
    ensures
        is_hyphenated_uuid(r@),
{
    uuid::Uuid::new_v4().to_string()
}

/// The session an inbound request belongs to.
pub struct Resolution {
    pub session_id: String,
    /// The id was minted for this request, and the client has no token yet.
    pub minted: bool,
}

/// The session for an inbound token, with `fresh` as the id to mint when there is
/// no token.
pub fn resolve_with(incoming: Option<String>, fresh: String) -> (r: Resolution)
    ensures
        match incoming {
            Some(t) => r.session_id@ == t@ && !r.minted,
            None => r.session_id@ == fresh@ && r.minted,
        },
{
    match incoming {
        Some(t) => Resolution { session_id: t, minted: false },
        None => Resolution { session_id: fresh, minted: true },
    }
}

/// The session for an inbound token: the token itself, unchecked, or a freshly
/// minted random id when there is none.
pub fn resolve(incoming: Option<String>) -> (r: Resolution)
    ensures
        match incoming {
            Some(t) => r.session_id@ == t@ && !r.minted,
            None => is_hyphenated_uuid(r.session_id@) && r.minted,
        },
{
    match incoming {
        Some(t) => resolve_with(Some(t), String::new()),
        None => resolve_with(None, fresh_token()),
    }
}

/// Where a session begins, and where a restart sends the client once it has
/// dropped its token. Records made under the dropped token are kept.
pub fn entry_path() -> (r: String)
    ensures
        r@ == entry_path_text(),
{
    "/class7/practice".to_owned()
}

/// Where the session `session_id` fetches its next question.
pub fn practice_url(session_id: &str) -> (r: String)
    ensures
        r@ == practice_url_text(session_id@),
{
    let mut url = entry_path();
    url.append("/");
    url.append(session_id);
    url
}

/// The `Set-Cookie` value that hands `session_id` to the client for the session
/// lifetime, scoped to the service's path.
pub fn session_cookie(session_id: &str) -> (r: String)
    ensures
        r@ == session_cookie_text(session_id@),
{
    let mut cookie = "practice_id=".to_owned();
    cookie.append(session_id);
    cookie.append("; Path=/class7; HttpOnly; Max-Age=");
    push_decimal(&mut cookie, SESSION_LIFETIME_SECS as u128);
    cookie
}

} // verus!
